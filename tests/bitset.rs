use clutch::bitset::BitSet;

#[test]
fn test_bit_set() {
    let mut bv = BitSet::new();
    let tests = [5usize, 63, 64, 127, 128, 129, 5000];
    for v in &tests {
        bv.set(*v, true);
    }
    for v in &tests {
        assert!(bv.get(*v));
        assert!(!bv.get(*v - 5));
    }

    let mut bv2 = BitSet::new();
    for i in 0..5000 {
        bv2.set(i, true);
    }
    for i in 0..5000 {
        if i != 2555 {
            bv2.set(i, false);
        }
    }
    assert!(bv2.get(2555));
    assert!(!bv2.get(2554));
    // 5000 bits take 79 words of 8 bytes.
    assert_eq!(bv2.sizeof(), 24 + 79 * 8);
}

#[test]
fn bitset_last_set_wins() {
    let mut b = BitSet::with_capacity(256);
    let ops = [(3usize, true), (70, true), (3, false), (200, true), (70, true), (200, false)];
    for (i, v) in ops.iter() {
        b.set(*i, *v);
    }
    assert!(!b.get(3));
    assert!(b.get(70));
    assert!(!b.get(200));
    assert!(!b.get(4));
}

#[test]
fn bitset_beyond_storage_reads_false() {
    let b = BitSet::new();
    assert!(!b.get(0));
    assert!(!b.get(usize::MAX));
    assert_eq!(b.sizeof(), 24);
}

#[test]
fn bitset_grows_to_the_word_of_the_index() {
    let mut b = BitSet::new();
    b.set(0, false);
    assert_eq!(b.sizeof(), 24 + 8);
    b.set(63, true);
    assert_eq!(b.sizeof(), 24 + 8);
    b.set(64, true);
    assert_eq!(b.sizeof(), 24 + 16);
    b.set(10, true);
    assert_eq!(b.sizeof(), 24 + 16);
}

#[test]
fn bitset_clear_keeps_storage() {
    let mut b = BitSet::new();
    b.set(1, true);
    b.set(130, true);
    let before = b.sizeof();
    b.clear();
    assert!(!b.get(1));
    assert!(!b.get(130));
    assert_eq!(b.sizeof(), before);
    b.set(5, true);
    assert!(b.get(5));
    assert_eq!(b.sizeof(), before);
}
