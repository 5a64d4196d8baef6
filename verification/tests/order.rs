use std::cmp::Ordering;
use verilization::names::{PackageName, QualifiedName};

#[test]
fn package_order() {
    let p = |s: &str| PackageName::from_str(s);
    assert_eq!(p("a.b").cmp(&p("a.b.c")), Ordering::Less);
    assert_eq!(p("a.c").cmp(&p("a.b")), Ordering::Greater);
    assert_eq!(p("a.b").cmp(&p("a.b")), Ordering::Equal);
    assert_eq!(p("").cmp(&p("a")), Ordering::Less);
    assert_eq!(p("ab").cmp(&p("a.b")), Ordering::Greater);
    assert_eq!(p("Z").cmp(&p("a")), Ordering::Less);
}

#[test]
fn qualified_order() {
    let q = |s: &str| QualifiedName::from_str(s).unwrap();
    assert_eq!(q("a.Z").cmp(&q("b.A")), Ordering::Less);
    assert_eq!(q("a.B").cmp(&q("a.A")), Ordering::Greater);
    assert_eq!(q("x.y.N").cmp(&q("x.y.N")), Ordering::Equal);
    assert_eq!(q("N").cmp(&q("a.N")), Ordering::Less);
}

#[test]
fn order_agrees_with_part_lists() {
    let texts = ["", "a", "a.b", "a.b.c", "b", "ab", "a.ba", "é", "a.é", "B.a"];
    for x in texts {
        for y in texts {
            let px: Vec<String> = PackageName::from_str(x).package;
            let py: Vec<String> = PackageName::from_str(y).package;
            assert_eq!(PackageName::from_str(x).cmp(&PackageName::from_str(y)), px.cmp(&py));
        }
    }
}
