use lightray::geom::Point;
use lightray::geom::Triangle;

fn tri(a: (i32, i32), b: (i32, i32), c: (i32, i32)) -> Triangle {
    Triangle::new(
        Point { x: a.0, y: a.1 },
        Point { x: b.0, y: b.1 },
        Point { x: c.0, y: c.1 },
    )
}

#[test]
fn new_keeps_vertices() {
    let t = tri((1, 2), (3, 4), (5, 6));
    assert_eq!(t.p1, Point { x: 1, y: 2 });
    assert_eq!(t.p2, Point { x: 3, y: 4 });
    assert_eq!(t.p3, Point { x: 5, y: 6 });
}

#[test]
fn contains_own_vertices() {
    let triangles = [
        tri((0, 0), (6, 0), (0, 6)),
        tri((-16, 16), (16, 16), (-16, -16)),
        tri((2, 2), (2, 2), (2, 2)),
    ];
    for t in triangles.iter() {
        assert!(t.contains(&t.p1));
        assert!(t.contains(&t.p2));
        assert!(t.contains(&t.p3));
    }
}

#[test]
fn contains_centroid() {
    let t = tri((0, 0), (6, 0), (0, 6));
    assert!(t.contains(&Point { x: 2, y: 2 }));
}

#[test]
fn rejects_point_outside_hull() {
    let t = tri((0, 0), (6, 0), (0, 6));
    assert!(!t.contains(&Point { x: 7, y: 7 }));
    assert!(!t.contains(&Point { x: -1, y: 3 }));
    assert!(!t.contains(&Point { x: 3, y: -1 }));
}

#[test]
fn boundary_counts_as_inside() {
    let t = tri((0, 0), (6, 0), (0, 6));
    assert!(t.contains(&Point { x: 3, y: 0 }));
    assert!(t.contains(&Point { x: 3, y: 3 }));
}

#[test]
fn degenerate_triangle_on_segment() {
    let t = tri((0, 0), (2, 2), (4, 4));
    assert!(t.contains(&Point { x: 1, y: 1 }));
    assert!(!t.contains(&Point { x: 5, y: 0 }));
}

#[test]
fn orientation_does_not_matter() {
    let ccw = tri((0, 0), (6, 0), (0, 6));
    let cw = tri((0, 6), (6, 0), (0, 0));
    let inside = Point { x: 1, y: 1 };
    let outside = Point { x: 6, y: 6 };
    assert!(ccw.contains(&inside) && cw.contains(&inside));
    assert!(!ccw.contains(&outside) && !cw.contains(&outside));
}
