use clutch::key::ClutchKey;
use std::cmp::Ordering;

fn key(g: u16, t: u64, d: u32, o: i32, parts: &[&str]) -> ClutchKey {
    ClutchKey::new(g, parts.join("\0"), t, d, o)
}

#[test]
fn keys_order_by_part_content() {
    let k1 = key(0, 100, 5, 0, &["a"]);
    let k2 = key(0, 100, 5, 0, &["b"]);
    assert!(k1 < k2);
    assert_eq!(k1.compare(&k2), Ordering::Less);
}

#[test]
fn group_sorts_first() {
    let k1 = key(0, 100, 5, 0, &["a"]);
    let k3 = key(1, 0, 0, -7, &[""]);
    assert!(k1 < k3);
    assert_eq!(k3.compare(&k1), Ordering::Greater);
}

#[test]
fn field_priority() {
    assert!(key(0, 1, 9, 9, &["z"]) < key(0, 2, 0, 0, &["a"]));
    assert!(key(0, 1, 1, 9, &["z"]) < key(0, 1, 2, 0, &["a"]));
    assert!(key(0, 1, 1, -1, &["z"]) < key(0, 1, 1, 0, &["a"]));
}

#[test]
fn fewer_parts_sort_first() {
    assert!(key(0, 0, 0, 0, &["zz"]) < key(0, 0, 0, 0, &["a", "a"]));
    assert!(key(0, 0, 0, 0, &["a", "b"]) < key(0, 0, 0, 0, &["ab", "a"]));
    assert!(key(0, 0, 0, 0, &["a"]) < key(0, 0, 0, 0, &["ab"]));
}

#[test]
fn equal_keys() {
    let a = key(3, 4, 5, 6, &["x", "y"]);
    let b = a.create_copy();
    assert!(a == b);
    assert_eq!(a.compare(&b), Ordering::Equal);
    assert!(a != key(3, 4, 5, 6, &["x", "z"]));
}

#[test]
fn key_text_can_be_rewritten() {
    let mut k = key(1, 1960, 32, 0, &[]);
    k.get_mut_key().clear();
    k.get_mut_key().push_str("1\u{0}2\u{0}3");
    assert_eq!(k.keys(), "1\u{0}2\u{0}3");
    assert_eq!((k.group(), k.time(), k.dur(), k.offset()), (1, 1960, 32, 0));
    let e = k.new_empty();
    assert_eq!((e.group(), e.time(), e.dur(), e.offset(), e.keys()), (0, 0, 0, 0, ""));
}
