use clutch::cli::{parse_types_list, UnknownType, TF64, TU32};
use clutch::stats::{clear_stats, Stats};

#[test]
fn type_lists() {
    assert_eq!(parse_types_list("u32"), Ok(TU32));
    assert_eq!(parse_types_list("u32,f64"), Ok(TU32 | TF64));
    assert_eq!(parse_types_list("f64,f64"), Ok(TF64));
    assert_eq!(parse_types_list("u32,i8"), Err(UnknownType { start: 4, end: 6 }));
    assert_eq!(parse_types_list(""), Err(UnknownType { start: 0, end: 0 }));
    assert_eq!(parse_types_list("u32,"), Err(UnknownType { start: 4, end: 4 }));
    assert_eq!(parse_types_list("u3,f64"), Err(UnknownType { start: 0, end: 2 }));
}

#[test]
fn stats_count_and_clear() {
    let mut s = Stats::new();
    s.inc_keys();
    s.inc_oms();
    s.inc_oms();
    s.inc_resizes();
    assert_eq!(s, Stats { keys: 1, oms: 2, resizes: 1 });
    s.oms = usize::MAX;
    s.inc_oms();
    assert_eq!(s.oms, usize::MAX);
    clear_stats(&mut s);
    assert_eq!(s, Stats::new());
}
