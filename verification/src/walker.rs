//! Contour reconstruction: the alternating partner-jump /
//! nearest-neighbour walk.
//!
//! The intersection stage leaves an unordered soup of two-point segments.
//! Starting from record `0`, the walk repeatedly jumps from the current
//! point to its segment partner and asks the quadtree for the nearest
//! unvisited point beside that partner: that point begins the adjacent
//! segment, so the visited order traces the polygon boundary. The walk
//! halts as soon as it returns to its start (closed contour), finds no new
//! point (stalled), or has taken as many steps as there are records, so it
//! terminates even on malformed input.

use vstd::prelude::*;
use crate::geom::Polygon;
use crate::quadtree::{descend_leaf, leaf_choice, PairedPoints, QuadTree};
use crate::registry::PointRegistry;

verus! {

/// All flags clear: no record visited yet.
pub open spec fn fresh_flags(n: nat) -> Seq<bool> {
    Seq::new(n, |i: int| false)
}

/// The id the walk's next step yields from point `p1`: the neighbour
/// query for `p1`'s partner record under the current visited flags.
pub open spec fn walk_step(
    reg: Seq<PairedPoints>,
    index: QuadTree,
    p1: usize,
    visited: Seq<bool>,
) -> Option<usize> {
    let pr = reg[reg[p1 as int].partner_index.unwrap() as int];
    leaf_choice(descend_leaf(index, pr.coords).points@, pr.coords, pr.id, visited)
}

/// The ids the walk emits after its start, with `fuel` steps left: each
/// step queries for the current point's partner, marks what it finds, and
/// moves there; the walk ends by closing on record `0` (emitting the
/// closing id), stalling on the current point, a failed query, or
/// exhausted fuel.
pub open spec fn walk(
    reg: Seq<PairedPoints>,
    index: QuadTree,
    p1: usize,
    visited: Seq<bool>,
    fuel: nat,
) -> Seq<usize>
    decreases fuel,
{
    if fuel == 0 {
        Seq::empty()
    } else {
        match walk_step(reg, index, p1, visited) {
            None => Seq::empty(),
            Some(p2) => {
                if p2 == 0 {
                    seq![p2]
                } else if p2 == p1 {
                    Seq::empty()
                } else {
                    seq![p2] + walk(reg, index, p2, visited.update(p2 as int, true), (fuel
                        - 1) as nat)
                }
            },
        }
    }
}

/// Walk the contour reachable from record `0` and return the ordered
/// record ids along it: exactly the start followed by [`walk`] with one
/// unit of fuel per record. The contour is closed when the final id equals
/// the first; it is returned partial when the walk stalls, a neighbour
/// query fails, or the step bound runs out. No id after the start repeats,
/// and only a final closing id can equal the start.
#[verifier::loop_isolation(false)]
pub fn reconstruct(registry: &PointRegistry, index: &QuadTree) -> (contour: Vec<usize>)
    requires
        registry.wf(),
        registry@.len() >= 1,
        index.wf(),
        forall|p: PairedPoints|
            #[trigger] index.points_ms().contains(p) ==> p.id < registry@.len(),
    ensures
        contour@ == seq![0usize] + walk(
            registry@,
            *index,
            0,
            fresh_flags(registry@.len() as nat),
            registry@.len() as nat,
        ),
        1 <= contour@.len() <= registry@.len() + 1,
        contour@[0] == 0,
        forall|k: int| 0 <= k < contour@.len() ==> (#[trigger] contour@[k]) < registry@.len(),
        forall|k: int|
            0 <= k < contour@.len() - 1 ==> (#[trigger] contour@[k + 1])
                != registry@[contour@[k] as int].partner_index.unwrap(),
        forall|k: int, l: int| 1 <= k < l < contour@.len() ==> contour@[k] != contour@[l],
        forall|k: int| 1 <= k < contour@.len() - 1 ==> (#[trigger] contour@[k]) != 0,
{
    let n = registry.len();
    let mut visited: Vec<bool> = Vec::new();
    let mut i: usize = 0;
    while i < n
        invariant
            visited@.len() == i,
            i <= n,
            forall|j: int| 0 <= j < i ==> !(#[trigger] visited@[j]),
        decreases n - i,
    {
        visited.push(false);
        i += 1;
    }
    proof {
        assert(visited@ =~= fresh_flags(n as nat));
    }
    let ghost full = seq![0usize] + walk(registry@, *index, 0, fresh_flags(n as nat), n as nat);
    let mut contour: Vec<usize> = Vec::new();
    let mut p1: usize = 0;
    contour.push(p1);
    let mut steps: usize = 0;
    while steps < n
        invariant
            visited@.len() == n,
            contour@.len() == steps + 1,
            steps <= n,
            contour@[0] == 0,
            contour@[contour@.len() - 1] == p1,
            p1 < n,
            full == contour@ + walk(registry@, *index, p1, visited@, (n - steps) as nat),
            forall|k: int| 0 <= k < contour@.len() ==> (#[trigger] contour@[k]) < n,
            forall|k: int|
                0 <= k < contour@.len() - 1 ==> (#[trigger] contour@[k + 1])
                    != registry@[contour@[k] as int].partner_index.unwrap(),
            forall|k: int|
                1 <= k < contour@.len() ==> visited@[(#[trigger] contour@[k]) as int],
            forall|k: int| 1 <= k < contour@.len() ==> (#[trigger] contour@[k]) != 0,
            forall|k: int, l: int| 1 <= k < l < contour@.len() ==> contour@[k] != contour@[l],
        decreases n - steps,
    {
        let ghost fuel = (n - steps) as nat;
        let rec = registry.get(p1);
        let partner = rec.partner_index.unwrap();
        let pr = registry.get(partner);
        let got = index.get_neighboring_point(&pr, &visited);
        proof {
            assert(walk_step(registry@, *index, p1, visited@) == leaf_choice(
                descend_leaf(*index, pr.coords).points@,
                pr.coords,
                pr.id,
                visited@,
            ));
        }
        match got {
            Err(_) => {
                // No eligible neighbour: abort this contour cleanly with
                // the partial path walked so far.
                proof {
                    assert(walk(registry@, *index, p1, visited@, fuel) =~= Seq::<usize>::empty());
                    assert(contour@ + Seq::<usize>::empty() =~= contour@);
                }
                return contour;
            },
            Ok(p2) => {
                proof {
                    let p = choose|p: PairedPoints|
                        #[trigger] index.points_ms().contains(p) && p.id == p2;
                    assert(p.id < registry@.len());
                }
                if p2 == 0 {
                    // Loop closed: the contour ends where it began.
                    proof {
                        assert(walk(registry@, *index, p1, visited@, fuel) =~= seq![p2]);
                    }
                    contour.push(p2);
                    proof {
                        assert(contour@ =~= full);
                    }
                    return contour;
                }
                if p2 == p1 {
                    // Stalled: no further distinct neighbour was found.
                    proof {
                        assert(walk(registry@, *index, p1, visited@, fuel) =~= Seq::<
                            usize,
                        >::empty());
                        assert(contour@ + Seq::<usize>::empty() =~= contour@);
                    }
                    return contour;
                }
                proof {
                    assert(walk(registry@, *index, p1, visited@, fuel) == seq![p2] + walk(
                        registry@,
                        *index,
                        p2,
                        visited@.update(p2 as int, true),
                        (fuel - 1) as nat,
                    ));
                    assert(contour@ + walk(registry@, *index, p1, visited@, fuel) =~= (contour@
                        + seq![p2]) + walk(
                        registry@,
                        *index,
                        p2,
                        visited@.update(p2 as int, true),
                        (fuel - 1) as nat,
                    ));
                    assert(contour@.push(p2) =~= contour@ + seq![p2]);
                }
                visited[p2] = true;
                contour.push(p2);
                p1 = p2;
                steps += 1;
            },
        }
    }
    proof {
        assert(walk(registry@, *index, p1, visited@, 0) =~= Seq::<usize>::empty());
        assert(contour@ + Seq::<usize>::empty() =~= contour@);
    }
    contour
}

/// Turn a walked contour into its polygon: the coordinates of its records,
/// in walk order.
pub fn contour_points(registry: &PointRegistry, ids: &Vec<usize>) -> (poly: Polygon)
    requires
        forall|k: int| 0 <= k < ids@.len() ==> (#[trigger] ids@[k]) < registry@.len(),
    ensures
        poly.points@.len() == ids@.len(),
        forall|k: int|
            0 <= k < ids@.len() ==> (#[trigger] poly.points@[k]) == registry@[ids@[k] as int].coords,
{
    let mut poly = Polygon { points: Vec::new() };
    let m = ids.len();
    let mut k: usize = 0;
    while k < m
        invariant
            m == ids@.len(),
            k <= m,
            poly.points@.len() == k,
            forall|j: int|
                0 <= j < k ==> (#[trigger] poly.points@[j]) == registry@[ids@[j] as int].coords,
            forall|j: int| 0 <= j < ids@.len() ==> (#[trigger] ids@[j]) < registry@.len(),
        decreases m - k,
    {
        let id = ids[k];
        let rec = registry.get(id);
        poly.points.push(rec.coords);
        k += 1;
    }
    poly
}

} // verus!
