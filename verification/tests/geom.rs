use reworkspace::geom::{pt, rect};

#[test]
fn rectangles() {
    let r = rect(10, 20, 30, 40);
    assert_eq!(r.right(), 40);
    assert_eq!(r.bottom(), 60);
    assert!(r.contains(pt(10, 20)));
    assert!(!r.contains(pt(40, 20)));
    assert!(!r.contains(pt(10, 60)));
    assert_eq!(r.inset(2), rect(12, 22, 26, 36));
    assert_eq!(r.inset(-3), rect(7, 17, 36, 46));
    assert_eq!(r.at(5, -5), rect(15, 15, 30, 40));
    assert_eq!(r.center(), pt(25, 40));
    assert_eq!(rect(0, 0, 5, 5).center(), pt(2, 2));
    assert_eq!(rect(-5, -5, -3, 1).center(), pt(-6, -5));
    assert!(rect(0, 0, 0, 5).is_empty());
    assert!(!r.is_empty());
}

#[test]
fn intersections() {
    let a = rect(0, 0, 10, 10);
    let b = rect(5, 5, 10, 10);
    assert_eq!(a.intersect(b), rect(5, 5, 5, 5));
    assert_eq!(b.intersect(a), rect(5, 5, 5, 5));
    let c = rect(20, 20, 5, 5);
    assert!(a.intersect(c).is_empty());
    assert_eq!(a.intersect(c), rect(20, 20, 0, 0));
    let p = pt(7, 7);
    assert_eq!(a.intersect(b).contains(p), a.contains(p) && b.contains(p));
}

#[test]
fn moving_back_and_insetting_back() {
    let r = rect(3, 4, 5, 6);
    assert_eq!(r.at(7, -2).at(-7, 2), r);
    assert_eq!(r.inset(2).inset(-2), r);
}
