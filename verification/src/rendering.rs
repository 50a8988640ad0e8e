//! How a render is carried out: the mode of the colour computation and
//! the division of the per-pixel sample budget among worker threads.

use vstd::prelude::*;

verus! {

/// What each traced ray contributes to the image: the full path-traced
/// colour, or the surface normal remapped to a colour for debugging.
#[derive(Debug, Clone, Copy, PartialEq, Eq, Structural)]
pub enum RenderMode {
    Default,
    Normals,
}

/// The number of samples worker `id` of `thread_count` takes per pixel
/// when `samples_per_pixel` are divided as evenly as possible: every
/// worker gets the whole quotient, and the remainder goes one sample at
/// a time to the first workers.
pub open spec fn task_samples(samples_per_pixel: int, thread_count: int, id: int) -> int {
    samples_per_pixel / thread_count + if id < samples_per_pixel % thread_count {
        1int
    } else {
        0int
    }
}

/// Per-pixel samples taken by a list of work tasks, all workers together.
pub open spec fn total_samples(tasks: Seq<(usize, usize)>) -> int
    decreases tasks.len(),
{
    if tasks.len() == 0 {
        0
    } else {
        total_samples(tasks.drop_last()) + tasks.last().1
    }
}

/// Divides the per-pixel sample budget among `thread_count` workers.
///
/// Every returned task `(id, samples)` carries a positive sample count;
/// workers that would receive zero samples are left out entirely, so the
/// whole budget is covered exactly and no worker sits idle.
pub fn split_work_tasks(samples_per_pixel: usize, thread_count: usize) -> (r: Vec<(usize, usize)>)
    requires
        thread_count >= 1,
    ensures
        r@.len() == (if samples_per_pixel / thread_count > 0 {
            thread_count as int
        } else {
            samples_per_pixel as int % thread_count as int
        }),
        forall|i: int|
            0 <= i < r@.len() ==> #[trigger] r@[i] == (
            i as usize,
            task_samples(samples_per_pixel as int, thread_count as int, i) as usize,
            ),
        forall|i: int| 0 <= i < r@.len() ==> #[trigger] r@[i].1 > 0,
        total_samples(r@) == samples_per_pixel,
{
    let whole_sample_per_pixel = samples_per_pixel / thread_count;
    let remaining_samples_per_pixel = samples_per_pixel % thread_count;
    proof {
        vstd::arithmetic::div_mod::lemma_fundamental_div_mod(
            samples_per_pixel as int,
            thread_count as int,
        );
    }
    let mut work_tasks: Vec<(usize, usize)> = Vec::new();
    let mut id: usize = 0;
    loop
        invariant
            thread_count >= 1,
            whole_sample_per_pixel == samples_per_pixel as int / thread_count as int,
            remaining_samples_per_pixel == samples_per_pixel as int % thread_count as int,
            samples_per_pixel == whole_sample_per_pixel * thread_count
                + remaining_samples_per_pixel,
            0 <= remaining_samples_per_pixel < thread_count,
            id <= thread_count,
            whole_sample_per_pixel > 0 || id <= remaining_samples_per_pixel,
            work_tasks@.len() == id,
            forall|i: int|
                0 <= i < id ==> #[trigger] work_tasks@[i] == (
                i as usize,
                task_samples(samples_per_pixel as int, thread_count as int, i) as usize,
                ),
            forall|i: int| 0 <= i < id ==> #[trigger] work_tasks@[i].1 > 0,
            total_samples(work_tasks@) == id * whole_sample_per_pixel + (if id
                <= remaining_samples_per_pixel {
                id as int
            } else {
                remaining_samples_per_pixel as int
            }),
        ensures
            work_tasks@.len() == (if whole_sample_per_pixel > 0 {
                thread_count as int
            } else {
                remaining_samples_per_pixel as int
            }),
            forall|i: int|
                0 <= i < work_tasks@.len() ==> #[trigger] work_tasks@[i] == (
                i as usize,
                task_samples(samples_per_pixel as int, thread_count as int, i) as usize,
                ),
            forall|i: int| 0 <= i < work_tasks@.len() ==> #[trigger] work_tasks@[i].1 > 0,
            total_samples(work_tasks@) == samples_per_pixel,
        decreases thread_count - id,
    {
        if id >= thread_count {
            proof {
                assert(whole_sample_per_pixel > 0 || remaining_samples_per_pixel == id);
                assert(id * whole_sample_per_pixel == whole_sample_per_pixel * id)
                    by (nonlinear_arith);
            }
            break ;
        }
        let extra: usize = if id < remaining_samples_per_pixel {
            1
        } else {
            0
        };
        proof {
            if id < remaining_samples_per_pixel {
                assert(whole_sample_per_pixel + 1 <= samples_per_pixel) by (nonlinear_arith)
                    requires
                        samples_per_pixel == whole_sample_per_pixel * thread_count
                            + remaining_samples_per_pixel,
                        thread_count >= 1,
                        whole_sample_per_pixel >= 0,
                        remaining_samples_per_pixel >= 1,
                ;
            }
        }
        let real_samples_per_pixel = whole_sample_per_pixel + extra;
        if real_samples_per_pixel == 0 {
            proof {
                assert(id * whole_sample_per_pixel == 0 && whole_sample_per_pixel * thread_count
                    == 0) by (nonlinear_arith)
                    requires
                        whole_sample_per_pixel == 0,
                ;
            }
            break ;
        }
        let ghost before = work_tasks@;
        work_tasks.push((id, real_samples_per_pixel));
        proof {
            assert(work_tasks@.drop_last() =~= before);
            assert((id + 1) * whole_sample_per_pixel == id * whole_sample_per_pixel
                + whole_sample_per_pixel) by (nonlinear_arith);
        }
        id = id + 1;
    }
    work_tasks
}

} // verus!
