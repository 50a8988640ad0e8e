//! Construction of the bounding volume hierarchy.
//!
//! The tree is built once over the flat list of bounded scene elements
//! and never mutated afterwards. Coordinates enter in an order-coded
//! integer form: the caller maps every scalar coordinate to a `u32`
//! whose unsigned order agrees with the original coordinate order, so
//! the comparisons, minima and maxima computed here decode back to
//! exactly the caller's values.
//!
//! Each input item carries an opaque reference number next to its box;
//! an internal node stores the indices of its children, which are
//! either positions in the returned node list or reference numbers of
//! the inputs — the caller chooses reference numbers it can tell apart
//! from node positions.

use vstd::prelude::*;
use vstd::multiset::Multiset;
use vstd::seq_lib::group_to_multiset_ensures;
use vstd::seq_lib::to_multiset_update;

verus! {

/// An axis-aligned box whose corner coordinates are order-coded
/// integers, lowest corner first.
#[derive(Debug, Clone, Copy, PartialEq, Eq)]
pub struct CodedAabb {
    pub min: [u32; 3],
    pub max: [u32; 3],
}

/// One internal node of the hierarchy: its box, the axis its children
/// were split along, and the two child references.
#[derive(Debug, Clone, Copy, PartialEq, Eq)]
pub struct BvhNode {
    pub aabb: CodedAabb,
    pub axis_id: usize,
    pub left: usize,
    pub right: usize,
}

/// The sort key of an item: the low corner of its box along `axis`.
pub open spec fn bvh_key(items: Seq<(usize, CodedAabb)>, k: int, axis: int) -> u32 {
    items[k].1.min@[axis]
}

/// The items of `[lo, hi)` are ordered by their key along `axis`.
pub open spec fn sorted_by_axis(items: Seq<(usize, CodedAabb)>, lo: int, hi: int, axis: int) -> bool {
    forall|p: int, q: int|
        lo <= p < q < hi ==> #[trigger] bvh_key(items, p, axis) <= #[trigger] bvh_key(
            items,
            q,
            axis,
        )
}

/// `outer` covers `inner` on every axis.
pub open spec fn encloses(outer: CodedAabb, inner: CodedAabb) -> bool {
    forall|a: int|
        #![trigger outer.min@[a], inner.min@[a]]
        #![trigger outer.max@[a], inner.max@[a]]
        0 <= a < 3 ==> outer.min@[a] <= inner.min@[a] && inner.max@[a] <= outer.max@[a]
}

/// Some item of `[lo, hi)` has `v` as the low coordinate of its box
/// along axis `a`.
pub open spec fn face_hit_low(
    items: Seq<(usize, CodedAabb)>,
    lo: int,
    hi: int,
    a: int,
    v: u32,
) -> bool {
    exists|j: int| lo <= j < hi && #[trigger] items[j].1.min@[a] == v
}

/// Some item of `[lo, hi)` has `v` as the high coordinate of its box
/// along axis `a`.
pub open spec fn face_hit_high(
    items: Seq<(usize, CodedAabb)>,
    lo: int,
    hi: int,
    a: int,
    v: u32,
) -> bool {
    exists|j: int| lo <= j < hi && #[trigger] items[j].1.max@[a] == v
}

/// On every axis, some item of `[lo, hi)` touches each face of `b`:
/// together with enclosure this makes `b` exactly the union of the
/// items' boxes.
pub open spec fn tight_over(
    b: CodedAabb,
    items: Seq<(usize, CodedAabb)>,
    lo: int,
    hi: int,
) -> bool {
    forall|a: int|
        #![trigger b.min@[a]]
        #![trigger b.max@[a]]
        0 <= a < 3 ==> face_hit_low(items, lo, hi, a, b.min@[a]) && face_hit_high(
            items,
            lo,
            hi,
            a,
            b.max@[a],
        )
}

/// The box that covers exactly `x` and `y`: per axis the smaller low
/// corner and the larger high corner.
pub open spec fn is_union_box(u: CodedAabb, x: CodedAabb, y: CodedAabb) -> bool {
    forall|a: int|
        #![trigger u.min@[a]]
        #![trigger u.max@[a]]
        0 <= a < 3 ==> u.min@[a] == (if x.min@[a] <= y.min@[a] {
            x.min@[a]
        } else {
            y.min@[a]
        }) && u.max@[a] == (if x.max@[a] >= y.max@[a] {
            x.max@[a]
        } else {
            y.max@[a]
        })
}

/// The reference numbers of the items, as a multiset.
pub open spec fn item_refs(items: Seq<(usize, CodedAabb)>) -> Multiset<usize>
    decreases items.len(),
{
    if items.len() == 0 {
        Multiset::empty()
    } else {
        item_refs(items.drop_last()).insert(items.last().0)
    }
}

/// The node positions `a..b`, as a multiset.
pub open spec fn position_range(a: int, b: int) -> Multiset<usize>
    decreases b - a,
{
    if a >= b {
        Multiset::empty()
    } else {
        position_range(a + 1, b).insert(a as usize)
    }
}

/// Everything the child slots of the nodes of `[lo, hi)` refer to, as
/// a multiset.
pub open spec fn slot_refs(nodes: Seq<BvhNode>, lo: int, hi: int) -> Multiset<usize>
    decreases hi - lo,
{
    if lo >= hi {
        Multiset::empty()
    } else {
        slot_refs(nodes, lo, hi - 1).insert(nodes[hi - 1].left).insert(nodes[hi - 1].right)
    }
}

/// The box a child slot of the node at position `k` stands for: the
/// box of the node it points to when it names a node position below
/// `nodes_hi`, else the box of an item carrying that reference number.
pub open spec fn child_slot_box(
    nodes: Seq<BvhNode>,
    items: Seq<(usize, CodedAabb)>,
    c: usize,
    k: int,
    nodes_hi: int,
    b: CodedAabb,
) -> bool {
    if k < c < nodes_hi {
        b == nodes[c as int].aabb
    } else {
        exists|j: int| 0 <= j < items.len() && #[trigger] items[j] == (c, b)
    }
}

/// The node at position `k` carries exactly the union of the boxes its
/// two child slots stand for.
pub open spec fn node_children_exact(
    nodes: Seq<BvhNode>,
    items: Seq<(usize, CodedAabb)>,
    k: int,
    nodes_hi: int,
) -> bool {
    exists|bl: CodedAabb, br: CodedAabb|
        {
            &&& #[trigger] child_slot_box(nodes, items, nodes[k].left, k, nodes_hi, bl)
            &&& #[trigger] child_slot_box(nodes, items, nodes[k].right, k, nodes_hi, br)
            &&& is_union_box(nodes[k].aabb, bl, br)
        }
}

/// The split axis of every node of the subtree over a window of
/// `size` items first sorted along `axis`, in the order the nodes are
/// appended: the root first, then the left half's nodes, then the
/// right half's, each half advancing the axis by the count of items
/// placed on it.
pub open spec fn subtree_axes(size: int, axis: int) -> Seq<int>
    decreases size,
{
    if size <= 1 {
        Seq::empty()
    } else if size == 2 {
        seq![axis]
    } else {
        let left_size = size / 2;
        let right_size = size - left_size;
        seq![axis] + subtree_axes(left_size, (axis + left_size) % 3) + subtree_axes(
            right_size,
            (axis + right_size) % 3,
        )
    }
}

/// A subtree over `size` items has one node fewer than items.
proof fn lemma_subtree_axes_len(size: int, axis: int)
    ensures
        subtree_axes(size, axis).len() == (if size >= 1 {
            size - 1
        } else {
            0
        }),
    decreases size,
{
    if size >= 3 {
        lemma_subtree_axes_len(size / 2, (axis + size / 2) % 3);
        lemma_subtree_axes_len(size - size / 2, (axis + (size - size / 2)) % 3);
    }
}

/// Removing one item removes its reference number, once.
proof fn lemma_item_refs_remove(s: Seq<(usize, CodedAabb)>, i: int)
    requires
        0 <= i < s.len(),
    ensures
        item_refs(s) == item_refs(s.remove(i)).insert(s[i].0),
    decreases s.len(),
{
    if i == s.len() - 1 {
        assert(s.remove(i) =~= s.drop_last());
    } else {
        assert(s.remove(i).drop_last() =~= s.drop_last().remove(i));
        assert(s.remove(i).last() == s.last());
        lemma_item_refs_remove(s.drop_last(), i);
        assert(item_refs(s.drop_last().remove(i)).insert(s[i].0).insert(s.last().0)
            =~= item_refs(s.drop_last().remove(i)).insert(s.last().0).insert(s[i].0));
    }
}

/// Which reference numbers a list of items carries depends only on
/// which items it holds, not on their order.
proof fn lemma_item_refs_transfer(s1: Seq<(usize, CodedAabb)>, s2: Seq<(usize, CodedAabb)>)
    requires
        s1.to_multiset() == s2.to_multiset(),
    ensures
        item_refs(s1) == item_refs(s2),
    decreases s1.len(),
{
    broadcast use group_to_multiset_ensures;

    if s1.len() == 0 {
        assert(s1.to_multiset().len() == s1.len());
        assert(s2.to_multiset().len() == s2.len());
        assert(s2.len() == 0);
    } else {
        let x = s1.last();
        assert(s1.contains(x));
        assert(s2.to_multiset().count(x) > 0);
        assert(s2.contains(x));
        let i = choose|i: int| 0 <= i < s2.len() && s2[i] == x;
        assert(s1.drop_last() =~= s1.remove(s1.len() - 1));
        assert(s1.remove(s1.len() - 1).to_multiset() == s1.to_multiset().remove(x));
        assert(s2.remove(i).to_multiset() == s2.to_multiset().remove(x));
        lemma_item_refs_transfer(s1.drop_last(), s2.remove(i));
        lemma_item_refs_remove(s2, i);
    }
}

/// Reference numbers of two lists laid end to end.
proof fn lemma_item_refs_concat(a: Seq<(usize, CodedAabb)>, b: Seq<(usize, CodedAabb)>)
    ensures
        item_refs(a + b) == item_refs(a).add(item_refs(b)),
    decreases b.len(),
{
    if b.len() == 0 {
        assert(a + b =~= a);
        assert(item_refs(a).add(Multiset::empty()) =~= item_refs(a));
    } else {
        assert((a + b).drop_last() =~= a + b.drop_last());
        assert((a + b).last() == b.last());
        lemma_item_refs_concat(a, b.drop_last());
        assert(item_refs(a).add(item_refs(b.drop_last())).insert(b.last().0) =~= item_refs(a).add(
            item_refs(b.drop_last()).insert(b.last().0),
        ));
    }
}

/// A run of node positions split at a midpoint.
proof fn lemma_position_range_split(a: int, m: int, b: int)
    requires
        a <= m <= b,
    ensures
        position_range(a, b) == position_range(a, m).add(position_range(m, b)),
    decreases m - a,
{
    if a == m {
        assert(Multiset::empty().add(position_range(m, b)) =~= position_range(m, b));
    } else {
        lemma_position_range_split(a + 1, m, b);
        assert(position_range(a + 1, m).add(position_range(m, b)).insert(a as usize)
            =~= position_range(a + 1, m).insert(a as usize).add(position_range(m, b)));
    }
}

/// Child slots of a node range split at a midpoint.
proof fn lemma_slot_refs_split(nodes: Seq<BvhNode>, lo: int, m: int, hi: int)
    requires
        lo <= m <= hi,
    ensures
        slot_refs(nodes, lo, hi) == slot_refs(nodes, lo, m).add(slot_refs(nodes, m, hi)),
    decreases hi - m,
{
    if m == hi {
        assert(slot_refs(nodes, lo, m).add(Multiset::empty()) =~= slot_refs(nodes, lo, m));
    } else {
        lemma_slot_refs_split(nodes, lo, m, hi - 1);
        assert(slot_refs(nodes, lo, hi - 1).insert(nodes[hi - 1].left).insert(nodes[hi - 1].right)
            =~= slot_refs(nodes, lo, m).add(
            slot_refs(nodes, m, hi - 1).insert(nodes[hi - 1].left).insert(nodes[hi - 1].right),
        ));
    }
}

/// Child slots depend only on the nodes of the range.
proof fn lemma_slot_refs_frame(n1: Seq<BvhNode>, n2: Seq<BvhNode>, lo: int, hi: int)
    requires
        forall|k: int| lo <= k < hi ==> n1[k] == n2[k],
    ensures
        slot_refs(n1, lo, hi) == slot_refs(n2, lo, hi),
    decreases hi - lo,
{
    if lo < hi {
        lemma_slot_refs_frame(n1, n2, lo, hi - 1);
    }
}

/// An item present in a list is present in any rearrangement of it.
proof fn lemma_window_pair_transfer(
    s1: Seq<(usize, CodedAabb)>,
    s2: Seq<(usize, CodedAabb)>,
    c: usize,
    b: CodedAabb,
)
    requires
        s1.to_multiset() == s2.to_multiset(),
        exists|j: int| 0 <= j < s1.len() && #[trigger] s1[j] == (c, b),
    ensures
        exists|j: int| 0 <= j < s2.len() && #[trigger] s2[j] == (c, b),
{
    broadcast use group_to_multiset_ensures;

    let j = choose|j: int| 0 <= j < s1.len() && #[trigger] s1[j] == (c, b);
    assert(s1.contains(s1[j]));
    assert(s2.to_multiset().count(s1[j]) > 0);
    assert(s2.contains(s1[j]));
    let i = choose|i: int| 0 <= i < s2.len() && s2[i] == s1[j];
    assert(s2[i] == (c, b));
}

/// A lower bound on every reference number carries over to any
/// rearrangement of the items.
proof fn lemma_ref_bound_transfer(
    s1: Seq<(usize, CodedAabb)>,
    s2: Seq<(usize, CodedAabb)>,
    bound: int,
)
    requires
        s1.to_multiset() == s2.to_multiset(),
        forall|j: int| 0 <= j < s1.len() ==> (#[trigger] s1[j]).0 >= bound,
    ensures
        forall|j: int| 0 <= j < s2.len() ==> (#[trigger] s2[j]).0 >= bound,
{
    broadcast use group_to_multiset_ensures;

    assert forall|j: int| 0 <= j < s2.len() implies (#[trigger] s2[j]).0 >= bound by {
        assert(s2.contains(s2[j]));
        assert(s1.to_multiset().count(s2[j]) > 0);
        assert(s1.contains(s2[j]));
        let i = choose|i: int| 0 <= i < s1.len() && s1[i] == s2[j];
        assert(s1[i].0 >= bound);
    }
}

fn min_u32(a: u32, b: u32) -> (r: u32)
    ensures
        r == (if a <= b {
            a
        } else {
            b
        }),
{
    if a <= b {
        a
    } else {
        b
    }
}

fn max_u32(a: u32, b: u32) -> (r: u32)
    ensures
        r == (if a >= b {
            a
        } else {
            b
        }),
{
    if a >= b {
        a
    } else {
        b
    }
}

/// The smallest box covering both arguments.
fn union_boxes(x: CodedAabb, y: CodedAabb) -> (r: CodedAabb)
    ensures
        is_union_box(r, x, y),
        encloses(r, x),
        encloses(r, y),
{
    let r = CodedAabb {
        min: [
            min_u32(x.min[0], y.min[0]),
            min_u32(x.min[1], y.min[1]),
            min_u32(x.min[2], y.min[2]),
        ],
        max: [
            max_u32(x.max[0], y.max[0]),
            max_u32(x.max[1], y.max[1]),
            max_u32(x.max[2], y.max[2]),
        ],
    };
    r
}

/// Exchanging two places of a sequence keeps its multiset of values.
proof fn lemma_swap_preserves_multiset(s: Seq<(usize, CodedAabb)>, a: int, b: int)
    requires
        0 <= a < b < s.len(),
    ensures
        s.update(a, s[b]).update(b, s[a]).to_multiset() == s.to_multiset(),
{
    broadcast use group_to_multiset_ensures;

    let s1 = s.update(a, s[b]);
    to_multiset_update(s, a, s[b]);
    to_multiset_update(s1, b, s[a]);
    assert(s1[b] == s[b]);
    assert(s.contains(s[a]));
    assert(s.contains(s[b]));
    assert(s1.update(b, s[a]).to_multiset() =~= s.to_multiset());
}

/// Whether a box covers another is a property of the boxes alone, so
/// covering every item of a list and touching each face of it carries
/// over to any rearrangement of that list.
proof fn lemma_union_facts_transfer(b: CodedAabb, s1: Seq<(usize, CodedAabb)>, s2: Seq<
    (usize, CodedAabb),
>)
    requires
        s1.to_multiset() == s2.to_multiset(),
        forall|j: int| 0 <= j < s1.len() ==> encloses(b, #[trigger] s1[j].1),
        tight_over(b, s1, 0, s1.len() as int),
    ensures
        forall|j: int| 0 <= j < s2.len() ==> encloses(b, #[trigger] s2[j].1),
        tight_over(b, s2, 0, s2.len() as int),
{
    broadcast use group_to_multiset_ensures;

    assert forall|j: int| 0 <= j < s2.len() implies encloses(b, #[trigger] s2[j].1) by {
        assert(s2.contains(s2[j]));
        assert(s1.to_multiset().count(s2[j]) > 0);
        assert(s1.contains(s2[j]));
        let i = choose|i: int| 0 <= i < s1.len() && s1[i] == s2[j];
        assert(encloses(b, s1[i].1));
    }
    assert forall|a: int|
        #![trigger b.min@[a]]
        #![trigger b.max@[a]]
    0 <= a < 3 implies face_hit_low(s2, 0, s2.len() as int, a, b.min@[a]) && face_hit_high(
        s2,
        0,
        s2.len() as int,
        a,
        b.max@[a],
    ) by {
        assert(b.min@[a] == b.min@[a]);
        assert(b.max@[a] == b.max@[a]);
        assert(face_hit_low(s1, 0, s1.len() as int, a, b.min@[a]));
        let j1 = choose|j: int| 0 <= j < s1.len() && #[trigger] s1[j].1.min@[a] == b.min@[a];
        assert(s1.contains(s1[j1]));
        assert(s2.to_multiset().count(s1[j1]) > 0);
        assert(s2.contains(s1[j1]));
        let i1 = choose|i: int| 0 <= i < s2.len() && s2[i] == s1[j1];
        assert(s2[i1].1.min@[a] == b.min@[a]);
        assert(face_hit_high(s1, 0, s1.len() as int, a, b.max@[a]));
        let j2 = choose|j: int| 0 <= j < s1.len() && #[trigger] s1[j].1.max@[a] == b.max@[a];
        assert(s1.contains(s1[j2]));
        assert(s2.to_multiset().count(s1[j2]) > 0);
        assert(s2.contains(s1[j2]));
        let i2 = choose|i: int| 0 <= i < s2.len() && s2[i] == s1[j2];
        assert(s2[i2].1.max@[a] == b.max@[a]);
    }
}

/// `c` is the reference number of one of the items.
pub open spec fn is_item_ref(items: Seq<(usize, CodedAabb)>, c: usize) -> bool {
    exists|j: int| 0 <= j < items.len() && #[trigger] items[j].0 == c
}

/// A child reference of the node at position `k` either points to a
/// node deeper in the list, below `nodes_hi`, or names an input item.
pub open spec fn child_ref_ok(
    c: usize,
    k: int,
    nodes_hi: int,
    items: Seq<(usize, CodedAabb)>,
) -> bool {
    (k < c < nodes_hi) || is_item_ref(items, c)
}

/// Naming an item is a property of the item values alone, so it
/// carries over to any rearrangement of the item list.
proof fn lemma_item_ref_transfer(c: usize, s1: Seq<(usize, CodedAabb)>, s2: Seq<(usize, CodedAabb)>)
    requires
        s1.to_multiset() == s2.to_multiset(),
        is_item_ref(s1, c),
    ensures
        is_item_ref(s2, c),
{
    broadcast use group_to_multiset_ensures;

    let j = choose|j: int| 0 <= j < s1.len() && #[trigger] s1[j].0 == c;
    assert(s1.contains(s1[j]));
    assert(s2.to_multiset().count(s1[j]) > 0);
    assert(s2.contains(s1[j]));
    let i = choose|i: int| 0 <= i < s2.len() && s2[i] == s1[j];
    assert(s2[i].0 == c);
}

/// Covering a box that covers a third box covers that third box.
proof fn lemma_encloses_trans(a: CodedAabb, b: CodedAabb, c: CodedAabb)
    requires
        encloses(a, b),
        encloses(b, c),
    ensures
        encloses(a, c),
{
    assert forall|x: int| 0 <= x < 3 implies #[trigger] a.min@[x] <= c.min@[x] && c.max@[x]
        <= a.max@[x] by {
        assert(a.min@[x] <= b.min@[x] && b.max@[x] <= a.max@[x]);
        assert(b.min@[x] <= c.min@[x] && c.max@[x] <= b.max@[x]);
    }
}

/// Sorts the items of `[lo, hi)` in place by their low corner along
/// `axis`, touching nothing outside the window.
fn sort_range(items: &mut Vec<(usize, CodedAabb)>, lo: usize, hi: usize, axis: usize)
    requires
        lo <= hi <= old(items)@.len(),
        axis < 3,
    ensures
        final(items)@.len() == old(items)@.len(),
        forall|k: int|
            0 <= k < old(items)@.len() && !(lo <= k < hi) ==> final(items)@[k] == old(items)@[k],
        final(items)@.subrange(lo as int, hi as int).to_multiset() == old(items)@.subrange(
            lo as int,
            hi as int,
        ).to_multiset(),
        sorted_by_axis(final(items)@, lo as int, hi as int, axis as int),
{
    if lo >= hi {
        return ;
    }
    let ghost s0 = items@;
    let mut i: usize = lo + 1;
    while i < hi
        invariant
            lo < i <= hi <= items@.len(),
            axis < 3,
            items@.len() == s0.len(),
            s0 == old(items)@,
            forall|k: int| 0 <= k < s0.len() && !(lo <= k < hi) ==> items@[k] == s0[k],
            items@.subrange(lo as int, hi as int).to_multiset() == s0.subrange(
                lo as int,
                hi as int,
            ).to_multiset(),
            sorted_by_axis(items@, lo as int, i as int, axis as int),
        decreases hi - i,
    {
        let mut j: usize = i;
        while j > lo && items[j - 1].1.min[axis] > items[j].1.min[axis]
            invariant
                lo <= j <= i < hi <= items@.len(),
                axis < 3,
                items@.len() == s0.len(),
                s0 == old(items)@,
                forall|k: int| 0 <= k < s0.len() && !(lo <= k < hi) ==> items@[k] == s0[k],
                items@.subrange(lo as int, hi as int).to_multiset() == s0.subrange(
                    lo as int,
                    hi as int,
                ).to_multiset(),
                sorted_by_axis(items@, lo as int, j as int, axis as int),
                sorted_by_axis(items@, j as int, i + 1, axis as int),
                forall|p: int, q: int|
                    lo <= p < j && j < q < i + 1 ==> #[trigger] bvh_key(items@, p, axis as int)
                        <= #[trigger] bvh_key(items@, q, axis as int),
            decreases j,
        {
            let ghost pre = items@;
            proof {
                assert(bvh_key(pre, j as int, axis as int) < bvh_key(pre, j - 1, axis as int));
            }
            let x = items[j - 1];
            let y = items[j];
            items[j - 1] = y;
            items[j] = x;
            proof {
                assert(items@ =~= pre.update(j - 1, y).update(j as int, x));
                let wpre = pre.subrange(lo as int, hi as int);
                let wpost = items@.subrange(lo as int, hi as int);
                assert(wpost =~= wpre.update(j - 1 - lo, y).update(j - lo, x));
                assert(wpre[j - 1 - lo] == x && wpre[j - lo] == y);
                lemma_swap_preserves_multiset(wpre, j - 1 - lo, j - lo);
                let ax = axis as int;
                assert forall|k: int| 0 <= k < pre.len() && k != j - 1 && k != j implies bvh_key(
                    items@,
                    k,
                    ax,
                ) == bvh_key(pre, k, ax) by {
                    assert(items@[k] == pre[k]);
                }
                assert(bvh_key(items@, j - 1, ax) == bvh_key(pre, j as int, ax));
                assert(bvh_key(items@, j as int, ax) == bvh_key(pre, j - 1, ax));
                assert forall|p: int, q: int| lo <= p < q < j - 1 implies bvh_key(items@, p, ax)
                    <= bvh_key(items@, q, ax) by {
                    assert(bvh_key(items@, p, ax) == bvh_key(pre, p, ax));
                    assert(bvh_key(items@, q, ax) == bvh_key(pre, q, ax));
                    assert(bvh_key(pre, p, ax) <= bvh_key(pre, q, ax));
                }
                assert(sorted_by_axis(items@, lo as int, j - 1, ax));
                assert forall|p: int, q: int| j - 1 <= p < q < i + 1 implies bvh_key(items@, p, ax)
                    <= bvh_key(items@, q, ax) by {
                    if p == j - 1 && q == j {
                        assert(bvh_key(pre, j as int, ax) < bvh_key(pre, j - 1, ax));
                    } else if p == j - 1 {
                        assert(bvh_key(items@, q, ax) == bvh_key(pre, q, ax));
                        assert(bvh_key(pre, j as int, ax) <= bvh_key(pre, q, ax));
                    } else if p == j {
                        assert(bvh_key(items@, q, ax) == bvh_key(pre, q, ax));
                        assert(bvh_key(pre, j - 1, ax) <= bvh_key(pre, q, ax));
                    } else {
                        assert(bvh_key(items@, p, ax) == bvh_key(pre, p, ax));
                        assert(bvh_key(items@, q, ax) == bvh_key(pre, q, ax));
                        assert(bvh_key(pre, p, ax) <= bvh_key(pre, q, ax));
                    }
                }
                assert forall|p: int, q: int| lo <= p < j - 1 && j - 1 < q < i + 1 implies bvh_key(
                    items@,
                    p,
                    ax,
                ) <= bvh_key(items@, q, ax) by {
                    assert(bvh_key(items@, p, ax) == bvh_key(pre, p, ax));
                    if q == j {
                        assert(bvh_key(pre, p, ax) <= bvh_key(pre, j - 1, ax));
                    } else if q == j - 1 {
                        assert(bvh_key(pre, p, ax) <= bvh_key(pre, j as int, ax));
                    } else {
                        assert(bvh_key(items@, q, ax) == bvh_key(pre, q, ax));
                        assert(bvh_key(pre, p, ax) <= bvh_key(pre, q, ax));
                    }
                }
            }
            j = j - 1;
        }
        proof {
            let ax = axis as int;
            assert forall|p: int, q: int| lo <= p < q < i + 1 implies bvh_key(items@, p, ax)
                <= bvh_key(items@, q, ax) by {
                if p < j && q == j {
                    assert(bvh_key(items@, j - 1, ax) <= bvh_key(items@, j as int, ax));
                    if p < j - 1 {
                        assert(bvh_key(items@, p, ax) <= bvh_key(items@, j - 1, ax));
                    }
                }
            }
        }
        i = i + 1;
    }
}

/// Builds the subtree over the items of `[lo, hi)`, appending its
/// internal nodes to `nodes` and returning the subtree's root
/// reference and its box.
///
/// A single item becomes a leaf: its own reference number is returned
/// and no node is added. Otherwise the items are sorted by their low
/// corner along `axis_id`, split at the middle, and the two halves are
/// built with the axis advanced by the count placed on each side. The
/// returned box covers every item of the window and touches it on
/// every face — it is exactly the union of the items' boxes.
/// Assembles the structural facts of a split node from the facts of
/// its two subtrees: the child-slot multiset, the per-node box
/// unions, and the split-axis sequence.
#[verifier::rlimit(100)]
proof fn lemma_assemble_structure(
    w0: Seq<(usize, CodedAabb)>,
    items1: Seq<(usize, CodedAabb)>,
    nodes_after_left: Seq<BvhNode>,
    nodes_after_right: Seq<BvhNode>,
    fin: Seq<BvhNode>,
    lo: int,
    mid: int,
    hi: int,
    n0: int,
    left_id: usize,
    left_box: CodedAabb,
    right_id: usize,
    right_box: CodedAabb,
    aabb: CodedAabb,
    axis: int,
    lax: int,
    rax: int,
)
    requires
        0 <= lo < mid < hi <= items1.len(),
        hi - lo >= 3,
        mid == lo + (hi - lo) / 2,
        0 <= axis < 3,
        lax == (axis + (mid - lo)) % 3,
        rax == (axis + (hi - mid)) % 3,
        w0.len() == hi - lo,
        items1.subrange(lo, hi).to_multiset() == w0.to_multiset(),
        forall|j: int| 0 <= j < w0.len() ==> (#[trigger] w0[j]).0 >= n0 + (hi - lo),
        0 <= n0,
        nodes_after_left.len() == n0 + 1 + (mid - lo - 1),
        nodes_after_right.len() == nodes_after_left.len() + (hi - mid - 1),
        fin.len() == nodes_after_right.len(),
        forall|k: int|
            0 <= k < nodes_after_left.len() ==> #[trigger] nodes_after_right[k]
                == nodes_after_left[k],
        forall|k: int| 0 <= k < fin.len() && k != n0 ==> #[trigger] fin[k] == nodes_after_right[k],
        fin[n0].aabb == aabb,
        fin[n0].left == left_id,
        fin[n0].right == right_id,
        fin[n0].axis_id as int == axis,
        mid - lo == 1 ==> (left_id, left_box) == items1[lo],
        mid - lo >= 2 ==> left_id == n0 + 1 && nodes_after_left[n0 + 1].aabb == left_box,
        mid - lo >= 2 ==> slot_refs(nodes_after_left, n0 + 1, nodes_after_left.len() as int)
            == item_refs(items1.subrange(lo, mid)).add(
            position_range(n0 + 2, nodes_after_left.len() as int),
        ),
        forall|k: int|
            n0 + 1 <= k < nodes_after_left.len() ==> #[trigger] node_children_exact(
                nodes_after_left,
                items1.subrange(lo, mid),
                k,
                nodes_after_left.len() as int,
            ),
        forall|k: int|
            0 <= k < mid - lo - 1 ==> (#[trigger] nodes_after_left[n0 + 1 + k].axis_id) as int
                == subtree_axes(mid - lo, lax)[k],
        right_id == nodes_after_left.len(),
        nodes_after_right[right_id as int].aabb == right_box,
        slot_refs(nodes_after_right, nodes_after_left.len() as int, nodes_after_right.len() as int)
            == item_refs(items1.subrange(mid, hi)).add(
            position_range(nodes_after_left.len() as int + 1, nodes_after_right.len() as int),
        ),
        forall|k: int|
            nodes_after_left.len() <= k < nodes_after_right.len()
                ==> #[trigger] node_children_exact(
                nodes_after_right,
                items1.subrange(mid, hi),
                k,
                nodes_after_right.len() as int,
            ),
        forall|k: int|
            0 <= k < hi - mid - 1 ==> (#[trigger] nodes_after_right[nodes_after_left.len()
                + k].axis_id) as int == subtree_axes(hi - mid, rax)[k],
        is_union_box(aabb, left_box, right_box),
        forall|j: int|
            0 <= j < mid - lo ==> encloses(left_box, (#[trigger] items1.subrange(lo, mid)[j]).1),
        tight_over(left_box, items1.subrange(lo, mid), 0, mid - lo),
        forall|j: int|
            0 <= j < hi - mid ==> encloses(right_box, (#[trigger] items1.subrange(mid, hi)[j]).1),
        tight_over(right_box, items1.subrange(mid, hi), 0, hi - mid),
    ensures
        forall|j: int| 0 <= j < w0.len() ==> encloses(aabb, (#[trigger] w0[j]).1),
        tight_over(aabb, w0, 0, w0.len() as int),
        slot_refs(fin, n0, fin.len() as int) == item_refs(w0).add(
            position_range(n0 + 1, fin.len() as int),
        ),
        forall|k: int|
            n0 <= k < fin.len() ==> #[trigger] node_children_exact(fin, w0, k, fin.len() as int),
        forall|k: int|
            n0 <= k < fin.len() ==> child_ref_ok((#[trigger] fin[k]).left, k, fin.len() as int, w0)
                && child_ref_ok(fin[k].right, k, fin.len() as int, w0),
        forall|k: int|
            0 <= k < hi - lo - 1 ==> (#[trigger] fin[n0 + k].axis_id) as int == subtree_axes(
                hi - lo,
                axis,
            )[k],
{
    broadcast use group_to_multiset_ensures;

    let w1 = items1.subrange(lo, hi);
    let left_w1 = items1.subrange(lo, mid);
    let right_w1 = items1.subrange(mid, hi);
    let n1 = nodes_after_left.len() as int;
    assert(w1 =~= left_w1 + right_w1);
    vstd::seq_lib::lemma_multiset_commutative(left_w1, right_w1);
    // every reference number of the window clears the node positions
    lemma_ref_bound_transfer(w0, w1, n0 + (hi - lo));
    // the union box covers both halves, so it covers the window,
    // and each of its faces is touched by one half
    assert forall|j: int| 0 <= j < w1.len() implies encloses(aabb, #[trigger] w1[j].1) by {
        if j < mid - lo {
            assert(w1[j] == left_w1[j]);
            assert(encloses(left_box, left_w1[j].1));
            lemma_encloses_trans(aabb, left_box, left_w1[j].1);
        } else {
            assert(w1[j] == right_w1[j - (mid - lo)]);
            assert(encloses(right_box, right_w1[j - (mid - lo)].1));
            lemma_encloses_trans(aabb, right_box, right_w1[j - (mid - lo)].1);
        }
    }
    assert forall|a: int|
        #![trigger aabb.min@[a]]
        #![trigger aabb.max@[a]]
    0 <= a < 3 implies face_hit_low(w1, 0, hi - lo, a, aabb.min@[a]) && face_hit_high(
        w1,
        0,
        hi - lo,
        a,
        aabb.max@[a],
    ) by {
        assert(left_box.min@[a] == left_box.min@[a]);
        assert(right_box.min@[a] == right_box.min@[a]);
        assert(left_box.max@[a] == left_box.max@[a]);
        assert(right_box.max@[a] == right_box.max@[a]);
        if left_box.min@[a] <= right_box.min@[a] {
            assert(face_hit_low(left_w1, 0, mid - lo, a, left_box.min@[a]));
            let j = choose|j: int|
                0 <= j < mid - lo && #[trigger] left_w1[j].1.min@[a] == left_box.min@[a];
            assert(w1[j].1.min@[a] == aabb.min@[a]);
        } else {
            assert(face_hit_low(right_w1, 0, hi - mid, a, right_box.min@[a]));
            let j = choose|j: int|
                0 <= j < hi - mid && #[trigger] right_w1[j].1.min@[a] == right_box.min@[a];
            assert(w1[j + (mid - lo)].1.min@[a] == aabb.min@[a]);
        }
        if left_box.max@[a] >= right_box.max@[a] {
            assert(face_hit_high(left_w1, 0, mid - lo, a, left_box.max@[a]));
            let j = choose|j: int|
                0 <= j < mid - lo && #[trigger] left_w1[j].1.max@[a] == left_box.max@[a];
            assert(w1[j].1.max@[a] == aabb.max@[a]);
        } else {
            assert(face_hit_high(right_w1, 0, hi - mid, a, right_box.max@[a]));
            let j = choose|j: int|
                0 <= j < hi - mid && #[trigger] right_w1[j].1.max@[a] == right_box.max@[a];
            assert(w1[j + (mid - lo)].1.max@[a] == aabb.max@[a]);
        }
    }
    lemma_union_facts_transfer(aabb, w1, w0);
    // every item of the window is referenced exactly once, and every
    // inner node position exactly once
    lemma_slot_refs_split(fin, n0, n0 + 1, fin.len() as int);
    lemma_slot_refs_split(fin, n0 + 1, n1, fin.len() as int);
    assert(slot_refs(fin, n0, n0) =~= Multiset::<usize>::empty());
    assert(slot_refs(fin, n0, n0 + 1) =~= Multiset::empty().insert(left_id).insert(right_id));
    assert forall|k: int| n0 + 1 <= k < n1 implies #[trigger] fin[k] == nodes_after_left[k] by {}
    lemma_slot_refs_frame(fin, nodes_after_left, n0 + 1, n1);
    lemma_slot_refs_frame(fin, nodes_after_right, n1, fin.len() as int);
    if mid - lo == 1 {
        assert(left_w1.drop_last() =~= Seq::<(usize, CodedAabb)>::empty());
        assert(left_w1.last() == items1[lo]);
        assert(item_refs(Seq::<(usize, CodedAabb)>::empty()) =~= Multiset::<usize>::empty());
        assert(item_refs(left_w1) =~= Multiset::empty().insert(left_id));
        assert(slot_refs(nodes_after_left, n0 + 1, n1) =~= Multiset::<usize>::empty());
    }
    lemma_item_refs_concat(left_w1, right_w1);
    lemma_item_refs_transfer(w1, w0);
    lemma_position_range_split(n0 + 1, n1, fin.len() as int);
    assert(position_range(n0 + 1, n1) =~= (if mid - lo == 1 {
        Multiset::<usize>::empty()
    } else {
        position_range(n0 + 2, n1).insert((n0 + 1) as usize)
    }));
    assert(position_range(n1, fin.len() as int) =~= position_range(n1 + 1, fin.len() as int).insert(
        n1 as usize,
    ));
    assert(slot_refs(fin, n0, fin.len() as int) =~= item_refs(w0).add(
        position_range(n0 + 1, fin.len() as int),
    ));
    // each node's box is the union of the boxes its child slots stand
    // for
    assert forall|k: int|
        #![trigger node_children_exact(fin, w0, k, fin.len() as int)]
        #![trigger fin[k]]
    n0 <= k < fin.len() implies node_children_exact(fin, w0, k, fin.len() as int) && child_ref_ok(
        fin[k].left,
        k,
        fin.len() as int,
        w0,
    ) && child_ref_ok(fin[k].right, k, fin.len() as int, w0) by {
        if k == n0 {
            if mid - lo == 1 {
                assert(w1[0] == (left_id, left_box));
                assert(w1[0].0 >= n0 + (hi - lo));
                lemma_window_pair_transfer(w1, w0, left_id, left_box);
                assert(child_slot_box(fin, w0, left_id, k, fin.len() as int, left_box));
                let jj = choose|j: int| 0 <= j < w0.len() && #[trigger] w0[j] == (
                    left_id,
                    left_box,
                );
                assert(w0[jj].0 == left_id);
                assert(is_item_ref(w0, left_id));
            } else {
                assert(left_id == n0 + 1);
                assert(fin[left_id as int] == nodes_after_left[left_id as int]);
                assert(fin[left_id as int].aabb == left_box);
                assert(child_slot_box(fin, w0, left_id, k, fin.len() as int, left_box));
            }
            assert(fin[right_id as int] == nodes_after_right[right_id as int]);
            assert(fin[right_id as int].aabb == right_box);
            assert(child_slot_box(fin, w0, right_id, k, fin.len() as int, right_box));
            assert(is_union_box(fin[k].aabb, left_box, right_box));
        } else if k < n1 {
            assert(fin[k] == nodes_after_left[k]);
            assert(node_children_exact(nodes_after_left, left_w1, k, n1));
            let (bl, br) = choose|bl: CodedAabb, br: CodedAabb|
                {
                    &&& child_slot_box(nodes_after_left, left_w1, nodes_after_left[k].left, k, n1, bl)
                    &&& child_slot_box(
                        nodes_after_left,
                        left_w1,
                        nodes_after_left[k].right,
                        k,
                        n1,
                        br,
                    )
                    &&& is_union_box(nodes_after_left[k].aabb, bl, br)
                };
            let cl = nodes_after_left[k].left;
            if k < cl < n1 {
                assert(fin[cl as int] == nodes_after_left[cl as int]);
            } else {
                let j = choose|j: int| 0 <= j < left_w1.len() && #[trigger] left_w1[j] == (cl, bl);
                assert(left_w1[j] == w1[j]);
                assert(w1[j].0 >= n0 + (hi - lo));
                lemma_window_pair_transfer(w1, w0, cl, bl);
                let jj = choose|j: int| 0 <= j < w0.len() && #[trigger] w0[j] == (cl, bl);
                assert(w0[jj].0 == cl);
                assert(is_item_ref(w0, cl));
            }
            assert(child_slot_box(fin, w0, fin[k].left, k, fin.len() as int, bl));
            let cr = nodes_after_left[k].right;
            if k < cr < n1 {
                assert(fin[cr as int] == nodes_after_left[cr as int]);
            } else {
                let j = choose|j: int| 0 <= j < left_w1.len() && #[trigger] left_w1[j] == (cr, br);
                assert(left_w1[j] == w1[j]);
                assert(w1[j].0 >= n0 + (hi - lo));
                lemma_window_pair_transfer(w1, w0, cr, br);
                let jj = choose|j: int| 0 <= j < w0.len() && #[trigger] w0[j] == (cr, br);
                assert(w0[jj].0 == cr);
                assert(is_item_ref(w0, cr));
            }
            assert(child_slot_box(fin, w0, fin[k].right, k, fin.len() as int, br));
            assert(is_union_box(fin[k].aabb, bl, br));
        } else {
            assert(fin[k] == nodes_after_right[k]);
            assert(node_children_exact(nodes_after_right, right_w1, k, fin.len() as int));
            let (bl, br) = choose|bl: CodedAabb, br: CodedAabb|
                {
                    &&& child_slot_box(
                        nodes_after_right,
                        right_w1,
                        nodes_after_right[k].left,
                        k,
                        fin.len() as int,
                        bl,
                    )
                    &&& child_slot_box(
                        nodes_after_right,
                        right_w1,
                        nodes_after_right[k].right,
                        k,
                        fin.len() as int,
                        br,
                    )
                    &&& is_union_box(nodes_after_right[k].aabb, bl, br)
                };
            let cl = nodes_after_right[k].left;
            if k < cl < fin.len() {
                assert(fin[cl as int] == nodes_after_right[cl as int]);
            } else {
                let j = choose|j: int|
                    0 <= j < right_w1.len() && #[trigger] right_w1[j] == (cl, bl);
                assert(right_w1[j] == w1[j + (mid - lo)]);
                assert(w1[j + (mid - lo)].0 >= n0 + (hi - lo));
                lemma_window_pair_transfer(w1, w0, cl, bl);
                let jj = choose|j: int| 0 <= j < w0.len() && #[trigger] w0[j] == (cl, bl);
                assert(w0[jj].0 == cl);
                assert(is_item_ref(w0, cl));
            }
            assert(child_slot_box(fin, w0, fin[k].left, k, fin.len() as int, bl));
            let cr = nodes_after_right[k].right;
            if k < cr < fin.len() {
                assert(fin[cr as int] == nodes_after_right[cr as int]);
            } else {
                let j = choose|j: int|
                    0 <= j < right_w1.len() && #[trigger] right_w1[j] == (cr, br);
                assert(right_w1[j] == w1[j + (mid - lo)]);
                assert(w1[j + (mid - lo)].0 >= n0 + (hi - lo));
                lemma_window_pair_transfer(w1, w0, cr, br);
                let jj = choose|j: int| 0 <= j < w0.len() && #[trigger] w0[j] == (cr, br);
                assert(w0[jj].0 == cr);
                assert(is_item_ref(w0, cr));
            }
            assert(child_slot_box(fin, w0, fin[k].right, k, fin.len() as int, br));
            assert(is_union_box(fin[k].aabb, bl, br));
        }
    }
    // the split axes: the root's, then the left half's, then the
    // right half's
    let size = hi - lo;
    let ls = mid - lo;
    let rs = hi - mid;
    lemma_subtree_axes_len(size, axis);
    lemma_subtree_axes_len(ls, lax);
    lemma_subtree_axes_len(rs, rax);
    assert forall|i: int| 0 <= i < size - 1 implies (#[trigger] fin[n0 + i].axis_id) as int
        == subtree_axes(size, axis)[i] by {
        if i == 0 {
            assert(fin[n0].axis_id as int == axis);
        } else if i < ls {
            assert(fin[n0 + i] == nodes_after_left[n0 + i]);
            assert(subtree_axes(size, axis)[i] == subtree_axes(ls, lax)[i - 1]);
            assert(nodes_after_left[n0 + 1 + (i - 1)].axis_id as int == subtree_axes(
                ls,
                lax,
            )[i - 1]);
        } else {
            assert(fin[n0 + i] == nodes_after_right[n0 + i]);
            assert(subtree_axes(size, axis)[i] == subtree_axes(rs, rax)[i - ls]);
            assert(nodes_after_right[nodes_after_left.len() + (i - ls)].axis_id as int
                == subtree_axes(rs, rax)[i - ls]);
            assert(n1 + (i - ls) == n0 + i);
        }
    }
}

#[verifier::rlimit(100)]
fn build_range(
    items: &mut Vec<(usize, CodedAabb)>,
    nodes: &mut Vec<BvhNode>,
    lo: usize,
    hi: usize,
    axis_id: usize,
) -> (r: (usize, CodedAabb))
    requires
        lo < hi <= old(items)@.len(),
        axis_id < 3,
        forall|j: int|
            lo <= j < hi ==> (#[trigger] old(items)@[j]).0 >= old(nodes)@.len() + (hi - lo),
    ensures
        final(items)@.len() == old(items)@.len(),
        forall|k: int|
            0 <= k < old(items)@.len() && !(lo <= k < hi) ==> final(items)@[k] == old(items)@[k],
        final(items)@.subrange(lo as int, hi as int).to_multiset() == old(items)@.subrange(
            lo as int,
            hi as int,
        ).to_multiset(),
        final(nodes)@.len() == old(nodes)@.len() + (hi - lo - 1),
        forall|k: int| 0 <= k < old(nodes)@.len() ==> final(nodes)@[k] == old(nodes)@[k],
        hi - lo == 1 ==> r == old(items)@[lo as int],
        hi - lo >= 2 ==> r.0 == old(nodes)@.len() && final(nodes)@[r.0 as int].aabb == r.1,
        forall|j: int|
            0 <= j < hi - lo ==> encloses(
                r.1,
                #[trigger] old(items)@.subrange(lo as int, hi as int)[j].1,
            ),
        tight_over(r.1, old(items)@.subrange(lo as int, hi as int), 0, (hi - lo) as int),
        forall|k: int|
            old(nodes)@.len() <= k < final(nodes)@.len() ==> child_ref_ok(
                (#[trigger] final(nodes)@[k]).left,
                k,
                final(nodes)@.len() as int,
                old(items)@.subrange(lo as int, hi as int),
            ) && child_ref_ok(
                final(nodes)@[k].right,
                k,
                final(nodes)@.len() as int,
                old(items)@.subrange(lo as int, hi as int),
            ),
        hi - lo >= 2 ==> slot_refs(final(nodes)@, old(nodes)@.len() as int, final(nodes)@.len() as int)
            == item_refs(old(items)@.subrange(lo as int, hi as int)).add(
            position_range(old(nodes)@.len() as int + 1, final(nodes)@.len() as int),
        ),
        forall|k: int|
            old(nodes)@.len() <= k < final(nodes)@.len() ==> #[trigger] node_children_exact(
                final(nodes)@,
                old(items)@.subrange(lo as int, hi as int),
                k,
                final(nodes)@.len() as int,
            ),
        forall|k: int|
            0 <= k < hi - lo - 1 ==> (#[trigger] final(nodes)@[old(nodes)@.len() + k].axis_id)
                as int == subtree_axes(hi - lo, axis_id as int)[k],
    decreases hi - lo,
{
    let ghost w0 = items@.subrange(lo as int, hi as int);
    if hi - lo == 1 {
        let r = items[lo];
        proof {
            assert(w0[0] == items@[lo as int]);
            assert(encloses(r.1, r.1));
            assert forall|a: int|
                #![trigger r.1.min@[a]]
                #![trigger r.1.max@[a]]
            0 <= a < 3 implies face_hit_low(w0, 0, 1, a, r.1.min@[a]) && face_hit_high(
                w0,
                0,
                1,
                a,
                r.1.max@[a],
            ) by {
                assert(w0[0].1.min@[a] == r.1.min@[a]);
                assert(w0[0].1.max@[a] == r.1.max@[a]);
            }
        }
        r
    } else if hi - lo == 2 {
        sort_range(items, lo, hi, axis_id);
        let ghost w1 = items@.subrange(lo as int, hi as int);
        let it0 = items[lo];
        let it1 = items[lo + 1];
        let aabb = union_boxes(it0.1, it1.1);
        let result_id = nodes.len();
        nodes.push(BvhNode { aabb, left: it0.0, right: it1.0, axis_id });
        proof {
            assert(w1[0] == items@[lo as int] && w1[1] == items@[lo + 1]);
            assert forall|j: int| 0 <= j < w1.len() implies encloses(aabb, #[trigger] w1[j].1) by {
                if j == 0 {
                    assert(w1[j].1 == it0.1);
                } else {
                    assert(w1[j].1 == it1.1);
                }
            }
            assert forall|a: int|
                #![trigger aabb.min@[a]]
                #![trigger aabb.max@[a]]
            0 <= a < 3 implies face_hit_low(w1, 0, 2, a, aabb.min@[a]) && face_hit_high(
                w1,
                0,
                2,
                a,
                aabb.max@[a],
            ) by {
                if it0.1.min@[a] <= it1.1.min@[a] {
                    assert(w1[0].1.min@[a] == aabb.min@[a]);
                } else {
                    assert(w1[1].1.min@[a] == aabb.min@[a]);
                }
                if it0.1.max@[a] >= it1.1.max@[a] {
                    assert(w1[0].1.max@[a] == aabb.max@[a]);
                } else {
                    assert(w1[1].1.max@[a] == aabb.max@[a]);
                }
            }
            lemma_union_facts_transfer(aabb, w1, w0);
            assert(w1[0].0 == it0.0 && w1[1].0 == it1.0);
            assert(is_item_ref(w1, it0.0));
            assert(is_item_ref(w1, it1.0));
            lemma_item_ref_transfer(it0.0, w1, w0);
            lemma_item_ref_transfer(it1.0, w1, w0);
            // the node's two child slots carry exactly the two items
            let n0 = result_id as int;
            assert(slot_refs(nodes@, n0, n0) =~= Multiset::<usize>::empty());
            assert(slot_refs(nodes@, n0, n0 + 1) =~= Multiset::empty().insert(it0.0).insert(
                it1.0,
            ));
            assert(w1.drop_last() =~= seq![w1[0]]);
            assert(seq![w1[0]].drop_last() =~= Seq::<(usize, CodedAabb)>::empty());
            assert(item_refs(Seq::<(usize, CodedAabb)>::empty()) =~= Multiset::<usize>::empty());
            assert(item_refs(seq![w1[0]]) =~= Multiset::empty().insert(w1[0].0));
            assert(item_refs(w1) =~= Multiset::empty().insert(w1[0].0).insert(w1[1].0));
            lemma_item_refs_transfer(w1, w0);
            assert(slot_refs(nodes@, n0, n0 + 1) =~= item_refs(w0).add(
                position_range(n0 + 1, n0 + 1),
            ));
            // and its box is the union of their boxes
            assert(w1[0] == (it0.0, it0.1) && w1[1] == (it1.0, it1.1));
            lemma_window_pair_transfer(w1, w0, it0.0, it0.1);
            lemma_window_pair_transfer(w1, w0, it1.0, it1.1);
            assert forall|k: int| n0 <= k < nodes@.len() implies #[trigger] node_children_exact(
                nodes@,
                w0,
                k,
                nodes@.len() as int,
            ) by {
                assert(child_slot_box(nodes@, w0, it0.0, k, nodes@.len() as int, it0.1));
                assert(child_slot_box(nodes@, w0, it1.0, k, nodes@.len() as int, it1.1));
                assert(is_union_box(nodes@[k].aabb, it0.1, it1.1));
            }
            assert(subtree_axes(2, axis_id as int) == seq![axis_id as int]);
            assert forall|k: int| 0 <= k < hi - lo - 1 implies (#[trigger] nodes@[old(
                nodes,
            )@.len() + k].axis_id) as int == subtree_axes(hi - lo, axis_id as int)[k] by {
                assert(nodes@[n0].axis_id == axis_id);
            }
        }
        (result_id, aabb)
    } else {
        sort_range(items, lo, hi, axis_id);
        let ghost items1 = items@;
        let ghost w1 = items1.subrange(lo as int, hi as int);
        proof {
            // the reference-number bound survives the permutation
            let bound = old(nodes)@.len() + (hi - lo);
            assert forall|j: int| 0 <= j < w0.len() implies (#[trigger] w0[j]).0 >= bound by {
                assert(w0[j] == old(items)@[lo + j]);
            }
            lemma_ref_bound_transfer(w0, w1, bound);
            assert forall|j: int| lo <= j < hi implies (#[trigger] items1[j]).0 >= bound by {
                assert(items1[j] == w1[j - lo]);
            }
        }
        let mid = lo + (hi - lo) / 2;
        let result_id = nodes.len();
        nodes.push(
            BvhNode {
                aabb: CodedAabb { min: [0, 0, 0], max: [0, 0, 0] },
                axis_id: 0,
                left: 0,
                right: 0,
            },
        );
        let left_axis = (axis_id + (mid - lo)) % 3;
        let right_axis = (axis_id + (hi - mid)) % 3;
        let (left_id, left_box) = build_range(items, nodes, lo, mid, left_axis);
        let ghost items2 = items@;
        let ghost nodes_after_left = nodes@;
        proof {
            assert forall|j: int| mid <= j < hi implies (#[trigger] items2[j]).0 >= nodes@.len()
                + (hi - mid) by {
                assert(items2[j] == items1[j]);
            }
        }
        let (right_id, right_box) = build_range(items, nodes, mid, hi, right_axis);
        let ghost items3 = items@;
        let ghost nodes_after_right = nodes@;
        let aabb = union_boxes(left_box, right_box);
        nodes[result_id] = BvhNode { aabb, left: left_id, right: right_id, axis_id };
        proof {
            broadcast use group_to_multiset_ensures;

            let lo_i = lo as int;
            let mid_i = mid as int;
            let hi_i = hi as int;
            let left_w1 = items1.subrange(lo_i, mid_i);
            let left_w2 = items2.subrange(lo_i, mid_i);
            let left_w3 = items3.subrange(lo_i, mid_i);
            let right_w1 = items1.subrange(mid_i, hi_i);
            let right_w2 = items2.subrange(mid_i, hi_i);
            let right_w3 = items3.subrange(mid_i, hi_i);
            // the half that a recursive call left alone is unchanged
            assert(right_w2 =~= right_w1);
            assert(left_w3 =~= left_w2);
            // a window's multiset is the sum of its halves' multisets
            assert(w1 =~= left_w1 + right_w1);
            let w2 = items2.subrange(lo_i, hi_i);
            assert(w2 =~= left_w2 + right_w2);
            let w3 = items3.subrange(lo_i, hi_i);
            assert(w3 =~= left_w3 + right_w3);
            vstd::seq_lib::lemma_multiset_commutative(left_w1, right_w1);
            vstd::seq_lib::lemma_multiset_commutative(left_w2, right_w2);
            vstd::seq_lib::lemma_multiset_commutative(left_w3, right_w3);
            assert(w3.to_multiset() == w0.to_multiset());
            // the child references of every new node stay inside the
            // node list or name an input item of the window
            let n0 = result_id as int;
            let n1 = nodes_after_left.len() as int;
            let fin = nodes@;
            assert(left_w1 =~= w1.subrange(0, mid_i - lo_i));
            assert(right_w2 =~= w1.subrange(mid_i - lo_i, hi_i - lo_i));
            // assemble the child-slot multiset, the per-node box
            // unions and the split axes from the two subtrees
            assert forall|j: int| 0 <= j < w0.len() implies (#[trigger] w0[j]).0 >= n0 + (hi_i
                - lo_i) by {
                assert(w0[j] == old(items)@[lo_i + j]);
            }
            assert forall|k: int| 0 <= k < n1 implies #[trigger] nodes_after_right[k]
                == nodes_after_left[k] by {}
            if mid_i - lo_i == 1 {
                assert((left_id, left_box) == items1[lo_i]);
            }
            lemma_assemble_structure(
                w0,
                items1,
                nodes_after_left,
                nodes_after_right,
                fin,
                lo_i,
                mid_i,
                hi_i,
                n0,
                left_id,
                left_box,
                right_id,
                right_box,
                aabb,
                axis_id as int,
                left_axis as int,
                right_axis as int,
            );
        }
        (result_id, aabb)
    }
}

/// Builds the whole hierarchy over `items`, permuting the list in
/// place, and returns the internal nodes with the root reference.
/// Reference numbers must be at least the item count, so that they can
/// never be mistaken for node positions.
///
/// One item gives no nodes and the item's own reference as the root.
/// Two or more give exactly one node fewer than there are items and
/// the root at position zero, and the tree is pinned whole: the child
/// slots of the nodes name every input reference and every inner node
/// position exactly once, each node's box is exactly the union of the
/// boxes its two children stand for, the root box is exactly the
/// union of all the items' boxes, and each node's split axis follows
/// the sort of its window as `subtree_axes` lays down.
pub fn build_nodes(items: &mut Vec<(usize, CodedAabb)>) -> (r: (Vec<BvhNode>, usize))
    requires
        old(items)@.len() >= 1,
        forall|j: int|
            0 <= j < old(items)@.len() ==> (#[trigger] old(items)@[j]).0 >= old(items)@.len(),
    ensures
        final(items)@.len() == old(items)@.len(),
        final(items)@.to_multiset() == old(items)@.to_multiset(),
        r.0@.len() == old(items)@.len() - 1,
        old(items)@.len() == 1 ==> r.1 == old(items)@[0].0,
        old(items)@.len() >= 2 ==> r.1 == 0 && (forall|j: int|
            0 <= j < old(items)@.len() ==> encloses(r.0@[0].aabb, #[trigger] old(items)@[j].1))
            && tight_over(r.0@[0].aabb, old(items)@, 0, old(items)@.len() as int),
        forall|k: int|
            0 <= k < r.0@.len() ==> child_ref_ok(
                (#[trigger] r.0@[k]).left,
                k,
                r.0@.len() as int,
                old(items)@,
            ) && child_ref_ok(r.0@[k].right, k, r.0@.len() as int, old(items)@),
        old(items)@.len() >= 2 ==> slot_refs(r.0@, 0, r.0@.len() as int) == item_refs(
            old(items)@,
        ).add(position_range(1, r.0@.len() as int)),
        forall|k: int|
            0 <= k < r.0@.len() ==> #[trigger] node_children_exact(
                r.0@,
                old(items)@,
                k,
                r.0@.len() as int,
            ),
        forall|k: int|
            0 <= k < r.0@.len() ==> (#[trigger] r.0@[k].axis_id) as int == subtree_axes(
                old(items)@.len() as int,
                0,
            )[k],
{
    let mut nodes: Vec<BvhNode> = Vec::new();
    let n = items.len();
    let ghost s0 = items@;
    let (root, _) = build_range(items, &mut nodes, 0, n, 0);
    proof {
        assert(s0.subrange(0, n as int) =~= s0);
        assert(items@.subrange(0, n as int) =~= items@);
        assert forall|k: int| 0 <= k < nodes@.len() implies (#[trigger] nodes@[k].axis_id) as int
            == subtree_axes(n as int, 0)[k] by {
            assert(nodes@[0 + k].axis_id as int == subtree_axes(n as int, 0)[k]);
        }
    }
    (nodes, root)
}

} // verus!
