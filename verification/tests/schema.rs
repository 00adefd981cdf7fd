use data_heap::schema::migrations_to_apply;

#[test]
fn only_migrations_above_the_recorded_version_run() {
    assert_eq!(migrations_to_apply(0, 3), vec![1, 2, 3]);
    assert_eq!(migrations_to_apply(2, 3), vec![3]);
    assert!(migrations_to_apply(3, 3).is_empty());
    assert!(migrations_to_apply(7, 3).is_empty());
    assert_eq!(migrations_to_apply(-4, 2), vec![1, 2]);
    assert!(migrations_to_apply(0, 0).is_empty());
}

#[test]
fn migrating_twice_applies_nothing_the_second_time() {
    let first = migrations_to_apply(0, 1);
    let after = *first.last().unwrap();
    assert!(migrations_to_apply(after, 1).is_empty());
}
