#[test]
fn difference() {
    let a: Vec<(i32, i32)> = vec![(0, 0), (1, 1), (2, 2), (3, 3)];
    let b: Vec<(i32, &str)> = vec![(2, "3"), (3, "2"), (4, "4")];

    let (only_a, common, only_b) = shockwave::util::difference(&a, &b);

    assert_eq!(only_a, vec![(0, 0), (1, 1)]);
    assert_eq!(only_b, vec![(4, "4")]);
    assert_eq!(common, vec![(2, (2, "3")), (3, (3, "2"))]);
}

#[test]
fn difference_empty_sides() {
    let a: Vec<(i32, i32)> = vec![(7, 10)];
    let b: Vec<(i32, i32)> = vec![];
    let (only_a, common, only_b) = shockwave::util::difference(&a, &b);
    assert_eq!(only_a, vec![(7, 10)]);
    assert!(common.is_empty());
    assert!(only_b.is_empty());

    let (only_a2, common2, only_b2) = shockwave::util::difference(&b, &a);
    assert!(only_a2.is_empty());
    assert!(common2.is_empty());
    assert_eq!(only_b2, vec![(7, 10)]);
}
