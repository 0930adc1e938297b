use pbmetric::table::StrMap;
use pbmetric::counts::LineCounts;

fn counts_of(entries: &[(&str, usize)]) -> LineCounts {
    let mut c = LineCounts::new();
    for (email, n) in entries {
        c.add(email.to_string(), *n);
    }
    c
}

fn sorted(c: &LineCounts) -> Vec<(String, usize)> {
    let mut v: Vec<(String, usize)> = (0..c.len())
        .map(|i| (c.email_at(i).clone(), c.count_at(i)))
        .collect();
    v.sort();
    v
}

#[test]
fn merge_adds_over_union_of_keys() {
    let mut a = counts_of(&[("a", 5)]);
    let b = counts_of(&[("a", 3), ("b", 2)]);
    a.merge(&b);
    assert_eq!(sorted(&a), vec![("a".to_string(), 8), ("b".to_string(), 2)]);
    assert_eq!(a.total(), 10);
}

#[test]
fn merge_order_does_not_change_counts() {
    let parts = [
        counts_of(&[("x", 1), ("y", 4)]),
        counts_of(&[("y", 2), ("z", 7)]),
        counts_of(&[("x", 3)]),
    ];
    let mut forward = LineCounts::new();
    for p in parts.iter() {
        forward.merge(p);
    }
    let mut backward = LineCounts::new();
    for p in parts.iter().rev() {
        backward.merge(p);
    }
    let mut grouped = counts_of(&[]);
    let mut tail = counts_of(&[]);
    tail.merge(&parts[1]);
    tail.merge(&parts[2]);
    grouped.merge(&parts[0]);
    grouped.merge(&tail);
    assert_eq!(sorted(&forward), sorted(&backward));
    assert_eq!(sorted(&forward), sorted(&grouped));
    assert_eq!(
        sorted(&forward),
        vec![("x".to_string(), 4), ("y".to_string(), 6), ("z".to_string(), 7)]
    );
}

#[test]
fn add_accumulates_and_get_defaults_to_zero() {
    let mut c = LineCounts::new();
    c.add("a".to_string(), 2);
    c.add("a".to_string(), 3);
    assert_eq!(c.get(&"a".to_string()), 5);
    assert_eq!(c.get(&"missing".to_string()), 0);
    assert_eq!(c.len(), 1);
    assert_eq!(c.total(), 5);
}

#[test]
fn merge_with_empty_keeps_counts() {
    let mut a = counts_of(&[("a", 5)]);
    a.merge(&LineCounts::new());
    assert_eq!(sorted(&a), vec![("a".to_string(), 5)]);
}

#[test]
fn table_insert_replaces_and_keeps_order() {
    let mut t = StrMap::new();
    t.insert("b".to_string(), 1u32);
    t.insert("a".to_string(), 2u32);
    t.insert("b".to_string(), 3u32);
    assert_eq!(t.len(), 2);
    assert_eq!(t.key_at(0), "b");
    assert_eq!(t.get(&"b".to_string()), Some(&3));
    assert_eq!(t.find(&"a".to_string()), Some(1));
    assert!(!t.contains_key(&"c".to_string()));
}
