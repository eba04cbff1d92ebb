use rslice::geom::Point2;
use rslice::quadtree::{nearest_in_leaf, PairedPoints, QuadTree};
use rslice::SliceError;

fn record(x: i32, y: i32, id: usize, partner: usize) -> PairedPoints {
    PairedPoints { coords: Point2 { x, y }, id, partner_index: Some(partner) }
}

#[test]
fn fresh_record_is_unregistered() {
    let p = PairedPoints::new(Point2 { x: 7, y: -3 });
    assert_eq!(p.coords, Point2 { x: 7, y: -3 });
    assert_eq!(p.id, 0);
    assert_eq!(p.partner_index, None);
}

#[test]
fn new_leaf_is_empty() {
    let t = QuadTree::new([Point2 { x: 0, y: 0 }, Point2 { x: 1000, y: 1000 }]);
    assert!(t.subquads.is_none());
    assert_eq!(t.points.len(), 0);
    assert_eq!(t.lo, Point2 { x: 0, y: 0 });
    assert_eq!(t.hi, Point2 { x: 1000, y: 1000 });
}

#[test]
fn calc_quadrant_follows_the_convention() {
    let t = QuadTree::new([Point2 { x: 0, y: 0 }, Point2 { x: 1000, y: 1000 }]);
    assert_eq!(t.calc_quadrant(&Point2 { x: 100, y: 100 }), 0);
    assert_eq!(t.calc_quadrant(&Point2 { x: 100, y: 900 }), 1);
    assert_eq!(t.calc_quadrant(&Point2 { x: 900, y: 900 }), 2);
    assert_eq!(t.calc_quadrant(&Point2 { x: 900, y: 100 }), 3);
    // The midpoint itself counts as the upper side on both axes.
    assert_eq!(t.calc_quadrant(&Point2 { x: 500, y: 500 }), 2);
}

#[test]
fn two_points_stay_in_the_root_leaf() {
    let mut t = QuadTree::new([Point2 { x: 0, y: 0 }, Point2 { x: 1000, y: 1000 }]);
    t.insert(record(100, 100, 0, 1));
    t.insert(record(900, 900, 1, 0));
    assert!(t.subquads.is_none());
    assert_eq!(t.points.len(), 2);
}

#[test]
fn third_point_splits_the_leaf_and_containment_holds() {
    let mut t = QuadTree::new([Point2 { x: 0, y: 0 }, Point2 { x: 1000, y: 1000 }]);
    t.insert(record(100, 100, 0, 1));
    t.insert(record(900, 900, 1, 0));
    t.insert(record(900, 100, 2, 3));
    assert!(t.subquads.is_some());
    assert_eq!(t.points.len(), 0);
    let sq = t.subquads.as_ref().unwrap();
    // Each point landed in the leaf of its quadrant, within its region.
    assert_eq!(sq.q0.points.len(), 1);
    assert_eq!(sq.q0.points[0].id, 0);
    assert_eq!(sq.q2.points.len(), 1);
    assert_eq!(sq.q2.points[0].id, 1);
    assert_eq!(sq.q3.points.len(), 1);
    assert_eq!(sq.q3.points[0].id, 2);
    assert_eq!(sq.q1.points.len(), 0);
    for child in [&sq.q0, &sq.q1, &sq.q2, &sq.q3] {
        for p in &child.points {
            assert!(child.lo.x <= p.coords.x && p.coords.x <= child.hi.x);
            assert!(child.lo.y <= p.coords.y && p.coords.y <= child.hi.y);
        }
    }
}

#[test]
fn tiny_region_holds_coincident_points_without_splitting() {
    // The region's squared diagonal (50^2 + 50^2 = 5000) is below the
    // subdivision threshold, so the leaf grows instead of splitting.
    let mut t = QuadTree::new([Point2 { x: 0, y: 0 }, Point2 { x: 50, y: 50 }]);
    t.insert(record(10, 10, 0, 1));
    t.insert(record(10, 10, 1, 0));
    t.insert(record(10, 10, 2, 3));
    assert!(t.subquads.is_none());
    assert_eq!(t.points.len(), 3);
}

#[test]
fn coincident_points_resolve_to_the_lowest_index() {
    // Three coincident candidates tie on distance; the scan keeps the
    // earliest, so the query resolves deterministically.
    let mut t = QuadTree::new([Point2 { x: 0, y: 0 }, Point2 { x: 50, y: 50 }]);
    t.insert(record(10, 10, 0, 1));
    t.insert(record(10, 10, 1, 0));
    t.insert(record(10, 10, 2, 3));
    let visited = vec![false, false, false];
    let query = record(10, 10, 0, 1);
    let got = t.get_neighboring_point(&query, &visited);
    assert_eq!(got, Ok(1));
}

#[test]
fn two_point_leaf_hands_out_the_other_point() {
    let mut t = QuadTree::new([Point2 { x: 0, y: 0 }, Point2 { x: 1000, y: 1000 }]);
    t.insert(record(100, 100, 0, 1));
    t.insert(record(120, 100, 1, 0));
    let visited = vec![false, false];
    let got = t.get_neighboring_point(&record(100, 100, 0, 1), &visited);
    assert_eq!(got, Ok(1));
    let got = t.get_neighboring_point(&record(120, 100, 1, 0), &visited);
    assert_eq!(got, Ok(0));
}

#[test]
fn two_point_leaf_never_hands_out_a_visited_point() {
    // The only alternative in the pair is already visited, so the query
    // fails rather than revisiting it.
    let mut t = QuadTree::new([Point2 { x: 0, y: 0 }, Point2 { x: 1000, y: 1000 }]);
    t.insert(record(100, 100, 0, 1));
    t.insert(record(120, 100, 1, 0));
    let visited = vec![true, false];
    let got = t.get_neighboring_point(&record(100, 100, 1, 0), &visited);
    assert_eq!(got, Err(SliceError::NoEligibleNeighbor));
    // An unvisited alternative is still handed out.
    let visited = vec![false, false];
    let got = t.get_neighboring_point(&record(100, 100, 1, 0), &visited);
    assert_eq!(got, Ok(0));
}

#[test]
fn no_eligible_neighbor_is_an_error() {
    // A one-point leaf whose only point is the excluded one.
    let mut t = QuadTree::new([Point2 { x: 0, y: 0 }, Point2 { x: 1000, y: 1000 }]);
    t.insert(record(100, 100, 0, 1));
    let visited = vec![false];
    let got = t.get_neighboring_point(&record(100, 100, 0, 1), &visited);
    assert_eq!(got, Err(SliceError::NoEligibleNeighbor));
}

#[test]
fn nearest_scan_skips_excluded_and_visited() {
    let points = vec![
        record(10, 10, 0, 1),  // excluded
        record(11, 10, 1, 0),  // visited
        record(30, 10, 2, 3),  // eligible, farther
        record(12, 10, 3, 2),  // eligible, nearest
    ];
    let visited = vec![false, true, false, false];
    let got = nearest_in_leaf(&points, Point2 { x: 10, y: 10 }, 0, &visited);
    assert_eq!(got, Some(3));
}

#[test]
fn nearest_scan_with_no_candidate_returns_none() {
    let points = vec![record(10, 10, 0, 1), record(11, 10, 1, 0)];
    let visited = vec![false, true];
    let got = nearest_in_leaf(&points, Point2 { x: 10, y: 10 }, 0, &visited);
    assert_eq!(got, None);
}
