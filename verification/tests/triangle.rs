use software_rasterizer::triangle::{clip_plan, Corner, Triangle};

type V = [f64; 3];

fn lerp(a: V, b: V, t: f64) -> V {
    [a[0] + (b[0] - a[0]) * t, a[1] + (b[1] - a[1]) * t, a[2] + (b[2] - a[2]) * t]
}

fn clip_z(t: &Triangle<V>, z_near: f64) -> Vec<Triangle<V>> {
    let inside = [t.p1[2] >= z_near, t.p2[2] >= z_near, t.p3[2] >= z_near];
    t.clip(inside, |a: V, b: V| lerp(a, b, (z_near - a[2]) / (b[2] - a[2])))
}

#[test]
fn new_and_index() {
    let t = Triangle::new(1, 2, 3);
    assert_eq!((*t.index(0), *t.index(1), *t.index(2)), (1, 2, 3));
    assert_eq!(t, Triangle { p1: 1, p2: 2, p3: 3 });
}

#[test]
fn map_applies_to_each_corner() {
    let t = Triangle::new(1, 2, 3).map(|p: i32| p * 10);
    assert_eq!(t, Triangle::new(10, 20, 30));
}

#[test]
fn plan_sizes() {
    for mask in 0..8u32 {
        let inside = [mask & 1 != 0, mask & 2 != 0, mask & 4 != 0];
        let n = mask.count_ones();
        let expected = match n {
            0 => 0,
            2 => 2,
            _ => 1,
        };
        assert_eq!(clip_plan(inside).len(), expected, "{:?}", inside);
    }
}

#[test]
fn plan_all_inside_is_the_triangle() {
    assert_eq!(
        clip_plan([true, true, true]),
        vec![(Corner::Vertex(0), Corner::Vertex(1), Corner::Vertex(2))]
    );
}

#[test]
fn plan_one_inside() {
    assert_eq!(
        clip_plan([false, true, false]),
        vec![(Corner::Crossing(0), Corner::Vertex(1), Corner::Crossing(1))]
    );
}

#[test]
fn plan_two_inside() {
    assert_eq!(
        clip_plan([true, true, false]),
        vec![
            (Corner::Vertex(0), Corner::Vertex(1), Corner::Crossing(1)),
            (Corner::Vertex(0), Corner::Crossing(1), Corner::Crossing(2)),
        ]
    );
}

#[test]
fn clip_keeps_visible_triangle() {
    let t = Triangle::new([0.0, 0.0, 1.0], [1.0, 0.0, 2.0], [0.0, 1.0, 3.0]);
    assert_eq!(clip_z(&t, 0.5), vec![t]);
}

#[test]
fn clip_drops_hidden_triangle() {
    let t = Triangle::new([0.0, 0.0, -1.0], [1.0, 0.0, -2.0], [0.0, 1.0, -3.0]);
    assert!(clip_z(&t, 0.5).is_empty());
}

#[test]
fn clip_one_corner_in_front() {
    let t = Triangle::new([0.0, 0.0, 2.0], [2.0, 0.0, 0.0], [0.0, 2.0, 0.0]);
    let r = clip_z(&t, 1.0);
    assert_eq!(r, vec![Triangle::new([0.0, 0.0, 2.0], [1.0, 0.0, 1.0], [0.0, 1.0, 1.0])]);
}

#[test]
fn clip_two_corners_in_front() {
    let t = Triangle::new([0.0, 0.0, 2.0], [2.0, 0.0, 2.0], [0.0, 2.0, 0.0]);
    let r = clip_z(&t, 1.0);
    assert_eq!(
        r,
        vec![
            Triangle::new([0.0, 0.0, 2.0], [2.0, 0.0, 2.0], [1.0, 1.0, 1.0]),
            Triangle::new([0.0, 0.0, 2.0], [1.0, 1.0, 1.0], [0.0, 1.0, 1.0]),
        ]
    );
}
