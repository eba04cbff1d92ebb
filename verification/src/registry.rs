//! The point registry: the canonical, append-only list of all segment
//! endpoints, linked in pairs.
//!
//! Registration always appends the two endpoints of one segment together,
//! so ids are dense, stable offsets and every record's partner id points
//! back at it.

use vstd::prelude::*;
use crate::geom::DirLine;
use crate::quadtree::PairedPoints;

verus! {

/// The canonical list of endpoint records. Records are only ever appended,
/// two at a time, and never mutated afterwards.
pub struct PointRegistry {
    records: Vec<PairedPoints>,
}

impl View for PointRegistry {
    type V = Seq<PairedPoints>;

    closed spec fn view(&self) -> Seq<PairedPoints> {
        self.records@
    }
}

impl PointRegistry {
    /// Every record's id is its position, and partner ids are valid,
    /// irreflexive and mutual.
    pub open spec fn wf(self) -> bool {
        forall|i: int|
            0 <= i < self@.len() ==> {
                let r = #[trigger] self@[i];
                &&& r.id == i
                &&& r.partner_index.is_some()
                &&& r.partner_index.unwrap() < self@.len()
                &&& r.partner_index.unwrap() != i
                &&& self@[r.partner_index.unwrap() as int].partner_index == Some(i as usize)
            }
    }

    /// An empty registry.
    pub fn new() -> (reg: Self)
        ensures
            reg.wf(),
            reg@.len() == 0,
    {
        PointRegistry { records: Vec::new() }
    }

    /// Number of records registered so far.
    pub fn len(&self) -> (n: usize)
        ensures
            n == self@.len(),
    {
        self.records.len()
    }

    /// Read the record with the given id.
    pub fn get(&self, id: usize) -> (r: PairedPoints)
        requires
            id < self@.len(),
        ensures
            r == self@[id as int],
    {
        self.records[id]
    }

    /// Append the two endpoints of one segment as a mutually partnered
    /// pair of records, and return their fresh ids.
    pub fn register(&mut self, seg: &DirLine) -> (ids: (usize, usize))
        requires
            old(self).wf(),
            old(self)@.len() + 2 <= usize::MAX,
        ensures
            final(self).wf(),
            final(self)@.len() == old(self)@.len() + 2,
            ids.0 == old(self)@.len(),
            ids.1 == old(self)@.len() + 1,
            forall|i: int| 0 <= i < old(self)@.len() ==> final(self)@[i] == old(self)@[i],
            final(self)@[ids.0 as int] == (PairedPoints {
                coords: seg.vertices[0],
                id: ids.0,
                partner_index: Some(ids.1),
            }),
            final(self)@[ids.1 as int] == (PairedPoints {
                coords: seg.vertices[1],
                id: ids.1,
                partner_index: Some(ids.0),
            }),
    {
        let first = self.records.len();
        let second = first + 1;
        let p0 = seg.vertices[0];
        let p1 = seg.vertices[1];
        self.records.push(PairedPoints { coords: p0, id: first, partner_index: Some(second) });
        self.records.push(PairedPoints { coords: p1, id: second, partner_index: Some(first) });
        (first, second)
    }

    /// Register every segment of a cut, in order: the endpoints of segment
    /// `k` become records `2k` and `2k + 1`.
    pub fn register_segments(segs: &Vec<DirLine>) -> (reg: Self)
        requires
            segs@.len() * 2 <= usize::MAX,
        ensures
            reg.wf(),
            reg@.len() == 2 * segs@.len(),
            forall|k: int|
                0 <= k < segs@.len() ==> {
                    let s = #[trigger] segs@[k];
                    &&& reg@[2 * k].coords == s.vertices[0]
                    &&& reg@[2 * k + 1].coords == s.vertices[1]
                    &&& reg@[2 * k].partner_index == Some((2 * k + 1) as usize)
                    &&& reg@[2 * k + 1].partner_index == Some((2 * k) as usize)
                },
    {
        let mut reg = PointRegistry::new();
        let n = segs.len();
        let mut k: usize = 0;
        while k < n
            invariant
                n == segs@.len(),
                k <= n,
                n * 2 <= usize::MAX,
                reg.wf(),
                reg@.len() == 2 * k,
                forall|j: int|
                    0 <= j < k ==> {
                        let s = #[trigger] segs@[j];
                        &&& reg@[2 * j].coords == s.vertices[0]
                        &&& reg@[2 * j + 1].coords == s.vertices[1]
                        &&& reg@[2 * j].partner_index == Some((2 * j + 1) as usize)
                        &&& reg@[2 * j + 1].partner_index == Some((2 * j) as usize)
                    },
            decreases n - k,
        {
            let seg = segs[k];
            reg.register(&seg);
            k += 1;
        }
        reg
    }
}

/// Law: partner links are symmetric — for every record `r`, the partner of
/// `r`'s partner is `r` itself.
pub proof fn lemma_partner_symmetry(reg: PointRegistry, i: int)
    requires
        reg.wf(),
        0 <= i < reg@.len(),
    ensures
        reg@[i].partner_index.is_some(),
        reg@[reg@[i].partner_index.unwrap() as int].partner_index.is_some(),
        reg@[reg@[i].partner_index.unwrap() as int].partner_index.unwrap() == reg@[i].id,
{
    let p = reg@[i].partner_index.unwrap() as int;
    assert(reg@[p].partner_index == Some(i as usize));
}

} // verus!
