use tremor_runtime::errors::ErrorKind;
use tremor_runtime::groups::GroupGuard;

#[test]
fn new_groups_refused_past_the_maximum() {
    let mut g = GroupGuard::new(2);
    assert_eq!(g.enter("a").ok(), Some(0));
    assert_eq!(g.enter("b").ok(), Some(1));
    assert_eq!(g.enter("a").ok(), Some(0));
    match g.enter("c") {
        Err(e) => assert_eq!(e.kind, ErrorKind::MaxGroups(2, "c".to_string())),
        Ok(_) => panic!("expected the guard to refuse"),
    }
    assert_eq!(g.groups, vec!["a".to_string(), "b".to_string()]);
    assert_eq!(g.enter("b").ok(), Some(1));
}

#[test]
fn zero_maximum_refuses_everything() {
    let mut g = GroupGuard::new(0);
    assert!(g.enter("x").is_err());
    assert!(g.groups.is_empty());
}
