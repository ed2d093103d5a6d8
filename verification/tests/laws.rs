use reworkspace::geom::rect;
use reworkspace::icons::{basename, dirname, join};

#[test]
fn a_path_joins_back_from_its_parent_and_base_name() {
    for p in ["/Users", "/Users/marko", "/a/b/c.txt", "C:\\Users", "C:\\Users\\me"] {
        let d = dirname(p).unwrap();
        assert_eq!(join(&d, &basename(p)), p, "{p}");
    }
}

#[test]
fn intersections_are_never_negative() {
    let a = rect(0, 0, 10, 10);
    let b = rect(20, 30, 5, 5);
    let i = a.intersect(b);
    assert!(i.w >= 0 && i.h >= 0);
    assert!(i.is_empty());
    assert_eq!(a.intersect(rect(5, 5, 10, 10)), rect(5, 5, 5, 5));
}
