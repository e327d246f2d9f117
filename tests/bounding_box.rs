use qrusty::bounding_box::{BoundingBox, Coord};

// ////////////////////////////////////////
// Non intersecting boxes
// ////////////////////////////////////////

#[test]
fn no_intersect_left() {
    let box_one = BoundingBox::new(0, 0, 5, 5);
    let box_two = BoundingBox::new(10, 0, 10, 10);

    assert!(!box_one.intersects(&box_two), "Boxes do not intersect");
    assert!(!box_two.intersects(&box_one), "Boxes do not intersect");
}

#[test]
fn no_intersect_top() {
    let box_one = BoundingBox::new(0, 0, 5, 5);
    let box_two = BoundingBox::new(0, 6, 5, 5);

    assert!(!box_one.intersects(&box_two), "Boxes do not intersect");
    assert!(!box_two.intersects(&box_one), "Boxes do not intersect");
}

#[test]
fn no_intersect_neg_coords() {
    let box_one = BoundingBox::new(0, 0, 5, 5);
    let box_two = BoundingBox::new(-6, -6, 5, 5);

    assert!(!box_one.intersects(&box_two), "Boxes do not intersect");
    assert!(!box_two.intersects(&box_one), "Boxes do not intersect");
}

#[test]
fn no_intersect_shared_boundary() {
    let box_one = BoundingBox::new(0, 0, 5, 5);
    let box_two = BoundingBox::new(5, 0, 5, 5);
    let box_three = BoundingBox::new(0, 5, 5, 5);

    assert!(!box_one.intersects(&box_two), "Boxes do not intersect");
    assert!(!box_two.intersects(&box_one), "Boxes do not intersect");
    assert!(!box_one.intersects(&box_three), "Boxes do not intersect");
    assert!(!box_two.intersects(&box_three), "Boxes do not intersect");
}

// ////////////////////////////////////////
// Slight overlap
// ////////////////////////////////////////

#[test]
fn intersect_left() {
    let box_one = BoundingBox::new(0, 0, 5, 5);
    let box_two = BoundingBox::new(4, 0, 6, 10);

    assert!(
        box_one.intersects(&box_two),
        "Boxes intersect, should be true"
    );
    assert!(
        box_two.intersects(&box_one),
        "Boxes intersect, should be true"
    );
}

#[test]
fn intersect_top() {
    let box_one = BoundingBox::new(0, 0, 5, 5);
    let box_two = BoundingBox::new(0, 4, 6, 10);

    assert!(
        box_one.intersects(&box_two),
        "Boxes intersect, should be true"
    );
    assert!(
        box_two.intersects(&box_one),
        "Boxes intersect, should be true"
    );
}

#[test]
fn intersect_contained() {
    let box_one = BoundingBox::new(0, 0, 10, 10);
    let box_inner = BoundingBox::new(2, 2, 3, 3);

    assert!(
        box_one.intersects(&box_inner),
        "Box is contained, should be true"
    );
    assert!(
        box_inner.intersects(&box_one),
        "Box is contained, should be true"
    );
}

#[test]
fn intersect_top_right() {
    let box_one = BoundingBox::new(0, 0, 5, 5);
    let box_two = BoundingBox::new(4, 4, 3, 3);

    assert!(
        box_one.intersects(&box_two),
        "Boxes intersect, should be true"
    );
    assert!(
        box_two.intersects(&box_one),
        "Boxes intersect, should be true"
    );
}

#[test]
fn new_builds_all_four_corners() {
    let b = BoundingBox::new(-3, 7, 10, 4);
    assert_eq!(b.top_left, Coord { x: -3, y: 7 });
    assert_eq!(b.top_right, Coord { x: 7, y: 7 });
    assert_eq!(b.bottom_left, Coord { x: -3, y: 11 });
    assert_eq!(b.bottom_right, Coord { x: 7, y: 11 });
}

#[test]
fn new_from_coords_keeps_the_given_order() {
    let b = BoundingBox::new_from_coords(40, 30, 10, 20);
    assert_eq!(b.top_left, Coord { x: 40, y: 30 });
    assert_eq!(b.top_right, Coord { x: 10, y: 30 });
    assert_eq!(b.bottom_left, Coord { x: 40, y: 20 });
    assert_eq!(b.bottom_right, Coord { x: 10, y: 20 });
}

#[test]
fn from_corners_orders_an_up_left_drag() {
    let b = BoundingBox::from_corners(Coord { x: 40, y: 30 }, Coord { x: 10, y: 20 });
    assert_eq!(b, BoundingBox::new(10, 20, 30, 10));
    let same = BoundingBox::from_corners(Coord { x: 10, y: 20 }, Coord { x: 40, y: 30 });
    assert_eq!(b, same);
}

#[test]
fn zero_width_box_touching_an_edge_does_not_intersect() {
    let screen = BoundingBox::new(0, 0, 10, 10);
    let line = BoundingBox::new(10, 2, 0, 5);
    assert!(!screen.intersects(&line));
    assert!(!line.intersects(&screen));
}

#[test]
fn zero_area_box_strictly_inside_intersects() {
    let outer = BoundingBox::new(0, 0, 10, 10);
    let point = BoundingBox::new(2, 2, 0, 0);
    assert!(outer.intersects(&point));
    assert!(point.intersects(&outer));
}

#[test]
fn zero_width_box_on_the_inner_side_of_an_edge_does_not_intersect() {
    let outer = BoundingBox::new(0, 0, 10, 10);
    let line = BoundingBox::new(0, 2, 0, 5);
    assert!(!outer.intersects(&line));
    assert!(!line.intersects(&outer));
}

#[test]
fn intersection_is_symmetric_for_partial_overlap() {
    let a = BoundingBox::new(-10, -10, 15, 15);
    let b = BoundingBox::new(4, 4, 20, 20);
    assert!(a.intersects(&b));
    assert_eq!(a.intersects(&b), b.intersects(&a));
}
