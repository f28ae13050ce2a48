use one_to_many::{Id, OneToMany};
use std::collections::HashSet;

#[derive(Debug, Clone, Copy, PartialEq, Eq, Hash)]
struct Source;

#[derive(Debug, Clone, Copy, PartialEq, Eq, Hash)]
struct Target;

fn set(items: Vec<Id<Target>>) -> HashSet<Id<Target>> {
    items.into_iter().collect()
}

fn targets_set(links: &OneToMany<Source, Target>, s: Id<Source>) -> HashSet<Id<Target>> {
    set(links.targets(s))
}

#[test]
fn link() {
    let mut links = OneToMany::<Source, Target>::default();
    let s0 = Id::first(0);
    let t0 = Id::first(0);
    let t1 = Id::first(1);

    links.link(s0, t0);
    links.link(s0, t1);

    assert_eq!(set(vec![t0, t1]), targets_set(&links, s0));
    assert_eq!(Some(s0), links.source(t0));
    assert_eq!(Some(s0), links.source(t1));
}

#[test]
fn relink() {
    let mut links = OneToMany::<Source, Target>::default();
    let s0 = Id::first(0);
    let s1 = Id::first(1);
    let t0 = Id::first(0);
    let t1 = Id::first(1);

    links.link(s0, t0);
    links.link(s0, t1);

    links.link(s1, t0);

    assert_eq!(set(vec![t1]), targets_set(&links, s0));
    assert_eq!(set(vec![t0]), targets_set(&links, s1));
    assert_eq!(Some(s1), links.source(t0));
    assert_eq!(Some(s0), links.source(t1));
}

#[test]
fn unlink() {
    let mut links = OneToMany::<Source, Target>::default();
    let s0 = Id::first(0);
    let t0 = Id::first(0);

    links.link(s0, t0);
    links.unlink(t0);

    assert!(links.targets(s0).is_empty());
    assert_eq!(None, links.source(t0));
}

#[test]
fn unlink_source() {
    let mut links = OneToMany::<Source, Target>::default();
    let s0 = Id::first(0);
    let t0 = Id::first(0);
    let t1 = Id::first(1);

    links.link(s0, t0);
    links.link(s0, t1);
    links.unlink_source(s0);

    assert!(links.targets(s0).is_empty());
    assert_eq!(None, links.source(t0));
    assert_eq!(None, links.source(t1));
}

#[test]
fn sparse_insert() {
    let mut links = OneToMany::<Source, Target>::default();
    let s0 = Id::first(0);
    let s1 = Id::first(1);
    let t0 = Id::first(0);

    links.link(s1, t0);

    assert!(links.targets(s0).is_empty());
    assert_eq!(set(vec![t0]), targets_set(&links, s1));
    assert_eq!(Some(s1), links.source(t0));
}

#[test]
fn unlink_empty_target_doesnt_panic() {
    let mut links = OneToMany::<Source, Target>::default();
    let t0 = Id::first(1);

    links.unlink(t0);
}

#[test]
fn unlink_empty_source_doesnt_panic() {
    let mut links = OneToMany::<Source, Target>::default();
    let s0 = Id::first(1);

    links.unlink_source(s0);
}

#[test]
fn moving_a_target_leaves_one_owner() {
    let mut links = OneToMany::<Source, Target>::new();
    let s1 = Id::first(3);
    let s2 = Id::first(7);
    let t = Id::first(2);

    links.link(s1, t);
    links.link(s2, t);

    assert_eq!(Some(s2), links.source(t));
    assert!(!targets_set(&links, s1).contains(&t));
    assert!(targets_set(&links, s2).contains(&t));
    assert!(links.targets(s1).is_empty());
}

#[test]
fn linking_twice_is_like_linking_once() {
    let mut links = OneToMany::<Source, Target>::new();
    let s = Id::first(0);
    let t = Id::first(5);

    links.link(s, t);
    links.link(s, t);

    assert_eq!(vec![t], links.targets(s));
    assert_eq!(Some(s), links.source(t));
}

#[test]
fn unlinking_an_unknown_target_changes_nothing() {
    let mut links = OneToMany::<Source, Target>::new();
    let s0 = Id::first(0);
    let t0 = Id::first(0);
    let t9 = Id::first(9);
    links.link(s0, t0);

    links.unlink(t9);

    assert_eq!(set(vec![t0]), targets_set(&links, s0));
    assert_eq!(Some(s0), links.source(t0));
    assert_eq!(None, links.source(t9));
}

#[test]
fn unlinking_a_source_keeps_other_sources() {
    let mut links = OneToMany::<Source, Target>::new();
    let s0 = Id::first(0);
    let s1 = Id::first(1);
    let t0 = Id::first(0);
    let t1 = Id::first(1);
    let t2 = Id::first(2);
    links.link(s0, t0);
    links.link(s0, t1);
    links.link(s1, t2);

    links.unlink_source(s0);

    assert!(links.targets(s0).is_empty());
    assert_eq!(None, links.source(t0));
    assert_eq!(None, links.source(t1));
    assert_eq!(set(vec![t2]), targets_set(&links, s1));
    assert_eq!(Some(s1), links.source(t2));
}

#[test]
fn fresh_relation_is_empty() {
    let links = OneToMany::<Source, Target>::new();
    for i in [0usize, 1, 64, 100_000] {
        assert!(links.targets(Id::first(i)).is_empty());
        assert_eq!(None, links.source(Id::first(i)));
    }
}

#[test]
fn far_ids_are_stored_lazily() {
    let mut links = OneToMany::<Source, Target>::new();
    let s = Id::first(10_000);
    let t = Id::first(20_000);

    links.link(s, t);

    assert_eq!(vec![t], links.targets(s));
    assert_eq!(Some(s), links.source(t));
    assert_eq!(None, links.source(Id::first(19_999)));
    assert!(links.targets(Id::first(9_999)).is_empty());
}

#[test]
fn relink_after_unlink_source() {
    let mut links = OneToMany::<Source, Target>::new();
    let s0 = Id::first(0);
    let s1 = Id::first(1);
    let t0 = Id::first(0);
    links.link(s0, t0);
    links.unlink_source(s0);

    links.link(s1, t0);

    assert!(links.targets(s0).is_empty());
    assert_eq!(vec![t0], links.targets(s1));
    assert_eq!(Some(s1), links.source(t0));
}

#[test]
fn unlink_middle_of_many_targets() {
    let mut links = OneToMany::<Source, Target>::new();
    let s = Id::first(4);
    let all: Vec<Id<Target>> = (0..6).map(Id::first).collect();
    for t in &all {
        links.link(s, *t);
    }

    links.unlink(all[2]);
    links.unlink(all[0]);

    assert_eq!(set(vec![all[1], all[3], all[4], all[5]]), targets_set(&links, s));
    assert_eq!(4, links.targets(s).len());
    assert_eq!(None, links.source(all[2]));
    assert_eq!(Some(s), links.source(all[5]));
}
