//! Accumulation of a triangle mesh from scanned OBJ lines.
//!
//! An [`ObjLoader`] gathers the positions, normals and texture
//! coordinates a file declares and resolves each face into triangles.
//! It is generic over the three payload types, so the index checking
//! and the fan triangulation are independent of the scalar type the
//! renderer uses for its geometry.

use vstd::prelude::*;

use crate::obj_loader::ScannerError;
use crate::obj_loader::Vertex;

verus! {

/// One triangle of a loaded mesh: a position, a normal and a texture
/// coordinate per corner.
#[derive(Debug, Clone, Copy)]
pub struct TriangleData<P, N, T> {
    pub positions: [P; 3],
    pub normals: [N; 3],
    pub texture_coords: [T; 3],
}

/// The vertex data declared so far and the triangles built from it.
pub struct ObjLoader<P, N, T> {
    pub positions: Vec<P>,
    pub normals: Vec<N>,
    pub texture_coords: Vec<T>,
    pub triangles: Vec<TriangleData<P, N, T>>,
    /// Stands in for the texture coordinate of a face vertex that does
    /// not name one.
    pub missing_texture_coord: T,
}

impl<P: Copy, N: Copy, T: Copy> ObjLoader<P, N, T> {
    /// What a face vertex reference stands for, given the data declared
    /// so far: its position, normal and texture coordinate, or the
    /// error naming the first index that does not resolve.
    pub open spec fn spec_resolve_vertex(self, v: Vertex) -> Result<(P, N, T), ScannerError> {
        if v.0 >= self.positions@.len() {
            Err(ScannerError::PosIdOutOfRange(v.0))
        } else {
            let p = self.positions@[v.0 as int];
            let uv_r: Result<T, ScannerError> = match v.1 {
                Some(i) => if i >= self.texture_coords@.len() {
                    Err(ScannerError::TexIdOutOfRange(i))
                } else {
                    Ok(self.texture_coords@[i as int])
                },
                None => Ok(self.missing_texture_coord),
            };
            match uv_r {
                Err(e) => Err(e),
                Ok(uv) => match v.2 {
                    Some(i) => if i >= self.normals@.len() {
                        Err(ScannerError::NorIdOutOfRange(i))
                    } else {
                        Ok((p, self.normals@[i as int], uv))
                    },
                    None => Err(ScannerError::MissingNormal),
                },
            }
        }
    }

    /// Resolves a whole run of face vertex references, stopping at the
    /// first one that fails.
    pub open spec fn spec_resolve_vertices(self, vs: Seq<Vertex>) -> Result<
        Seq<(P, N, T)>,
        ScannerError,
    >
        decreases vs.len(),
    {
        if vs.len() == 0 {
            Ok(Seq::empty())
        } else {
            match self.spec_resolve_vertex(vs[0]) {
                Err(e) => Err(e),
                Ok(x) => match self.spec_resolve_vertices(vs.skip(1)) {
                    Err(e) => Err(e),
                    Ok(xs) => Ok(seq![x] + xs),
                },
            }
        }
    }

    /// The triangle fan over a run of resolved corners: corner 0 stays,
    /// and each further pair of neighbouring corners closes a triangle.
    pub open spec fn spec_fan(rs: Seq<(P, N, T)>) -> Seq<TriangleData<P, N, T>> {
        if rs.len() < 3 {
            Seq::empty()
        } else {
            Seq::new(
                (rs.len() - 2) as nat,
                |i: int|
                    TriangleData {
                        positions: [rs[0].0, rs[i + 1].0, rs[i + 2].0],
                        normals: [rs[0].1, rs[i + 1].1, rs[i + 2].1],
                        texture_coords: [rs[0].2, rs[i + 1].2, rs[i + 2].2],
                    },
            )
        }
    }

    /// Starts a loader with no vertex data; `missing_texture_coord` is
    /// used for face vertices that name no texture coordinate.
    pub fn new(missing_texture_coord: T) -> (r: Self)
        ensures
            r.positions@.len() == 0,
            r.normals@.len() == 0,
            r.texture_coords@.len() == 0,
            r.triangles@.len() == 0,
            r.missing_texture_coord == missing_texture_coord,
    {
        ObjLoader {
            positions: Vec::new(),
            normals: Vec::new(),
            texture_coords: Vec::new(),
            triangles: Vec::new(),
            missing_texture_coord,
        }
    }

    /// Records the position a `v` line declared.
    pub fn add_position(&mut self, p: P)
        ensures
            *final(self) == (ObjLoader { positions: final(self).positions, ..*old(self) }),
            final(self).positions@ == old(self).positions@.push(p),
    {
        self.positions.push(p);
    }

    /// Records the normal a `vn` line declared.
    pub fn add_normal(&mut self, n: N)
        ensures
            *final(self) == (ObjLoader { normals: final(self).normals, ..*old(self) }),
            final(self).normals@ == old(self).normals@.push(n),
    {
        self.normals.push(n);
    }

    /// Records the texture coordinate a `vt` line declared.
    pub fn add_texture_coord(&mut self, t: T)
        ensures
            *final(self) == (ObjLoader { texture_coords: final(self).texture_coords, ..*old(self) }),
            final(self).texture_coords@ == old(self).texture_coords@.push(t),
    {
        self.texture_coords.push(t);
    }

    /// Resolves the vertex references of one `f` line and appends the
    /// face's triangle fan.
    ///
    /// On the first reference that does not resolve, nothing is
    /// appended, the loader is left unchanged and the error names the
    /// offending index.
    pub fn add_face(&mut self, vertex_ids: &Vec<Vertex>) -> (r: Result<(), ScannerError>)
        ensures
            match r {
                Ok(()) => ({
                    let rr = old(self).spec_resolve_vertices(vertex_ids@);
                    rr is Ok && final(self).positions == old(self).positions && final(self).normals
                        == old(self).normals && final(self).texture_coords == old(
                        self,
                    ).texture_coords && final(self).missing_texture_coord == old(
                        self,
                    ).missing_texture_coord && final(self).triangles@ == old(self).triangles@
                        + Self::spec_fan(rr->Ok_0)
                }),
                Err(e) => old(self).spec_resolve_vertices(vertex_ids@) == Result::<
                    Seq<(P, N, T)>,
                    ScannerError,
                >::Err(e) && *final(self) == *old(self),
            },
    {
        let mut resolved: Vec<(P, N, T)> = Vec::new();
        let mut i: usize = 0;
        proof {
            assert(vertex_ids@.skip(0) =~= vertex_ids@);
            if self.spec_resolve_vertices(vertex_ids@) is Ok {
                let t = self.spec_resolve_vertices(vertex_ids@)->Ok_0;
                assert(Seq::<(P, N, T)>::empty() + t =~= t);
            }
        }
        while i < vertex_ids.len()
            invariant
                i <= vertex_ids@.len(),
                self == old(self),
                self.spec_resolve_vertices(vertex_ids@) == (match self.spec_resolve_vertices(
                    vertex_ids@.skip(i as int),
                ) {
                    Ok(tail) => Result::<Seq<(P, N, T)>, ScannerError>::Ok(resolved@ + tail),
                    Err(e) => Err(e),
                }),
            decreases vertex_ids@.len() - i,
        {
            let ghost tail_pre = vertex_ids@.skip(i as int);
            proof {
                assert(tail_pre[0] == vertex_ids@[i as int]);
                assert(tail_pre.skip(1) =~= vertex_ids@.skip(i + 1));
            }
            let v = vertex_ids[i];
            let pos_id = v.0;
            if pos_id >= self.positions.len() {
                return Err(ScannerError::PosIdOutOfRange(pos_id));
            }
            let p = self.positions[pos_id];
            let uv = match v.1 {
                Some(uv_id) => {
                    if uv_id >= self.texture_coords.len() {
                        return Err(ScannerError::TexIdOutOfRange(uv_id));
                    }
                    self.texture_coords[uv_id]
                },
                None => self.missing_texture_coord,
            };
            let n = match v.2 {
                Some(nor_id) => {
                    if nor_id >= self.normals.len() {
                        return Err(ScannerError::NorIdOutOfRange(nor_id));
                    }
                    self.normals[nor_id]
                },
                None => {
                    return Err(ScannerError::MissingNormal);
                },
            };
            let ghost resolved_pre = resolved@;
            resolved.push((p, n, uv));
            proof {
                if self.spec_resolve_vertices(vertex_ids@.skip(i + 1)) is Ok {
                    let tail = self.spec_resolve_vertices(vertex_ids@.skip(i + 1))->Ok_0;
                    assert(resolved_pre + (seq![(p, n, uv)] + tail) =~= resolved@ + tail);
                }
            }
            i = i + 1;
        }
        proof {
            assert(vertex_ids@.skip(vertex_ids@.len() as int) =~= Seq::<Vertex>::empty());
            assert(resolved@ + Seq::<(P, N, T)>::empty() =~= resolved@);
        }
        if resolved.len() >= 3 {
            let ghost triangles_pre = self.triangles@;
            let ghost rs = resolved@;
            let first = resolved[0];
            let mut k: usize = 2;
            while k < resolved.len()
                invariant
                    2 <= k <= rs.len(),
                    3 <= rs.len(),
                    resolved@ == rs,
                    first == rs[0],
                    self.positions == old(self).positions,
                    self.normals == old(self).normals,
                    self.texture_coords == old(self).texture_coords,
                    self.missing_texture_coord == old(self).missing_texture_coord,
                    self.triangles@ == triangles_pre + Self::spec_fan(rs).take(k - 2),
                decreases rs.len() - k,
            {
                let prev = resolved[k - 1];
                let cur = resolved[k];
                self.triangles.push(
                    TriangleData {
                        positions: [first.0, prev.0, cur.0],
                        normals: [first.1, prev.1, cur.1],
                        texture_coords: [first.2, prev.2, cur.2],
                    },
                );
                proof {
                    assert(Self::spec_fan(rs)[k - 2] == (TriangleData {
                        positions: [rs[0].0, rs[k - 1].0, rs[k as int].0],
                        normals: [rs[0].1, rs[k - 1].1, rs[k as int].1],
                        texture_coords: [rs[0].2, rs[k - 1].2, rs[k as int].2],
                    }));
                    assert(self.triangles@ =~= triangles_pre + Self::spec_fan(rs).take(k - 1));
                }
                k = k + 1;
            }
            proof {
                assert(Self::spec_fan(rs).take(rs.len() - 2) =~= Self::spec_fan(rs));
            }
        } else {
            proof {
                assert(self.triangles@ =~= self.triangles@ + Self::spec_fan(resolved@));
            }
        }
        Ok(())
    }
}

} // verus!
