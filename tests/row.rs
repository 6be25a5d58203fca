use clutch::row::{fill_counts, is_writable, ClutchData, ClutchError, OmValue, SLOT_LIMIT};
use clutch::schema::{OmGroup, OmMeta, OmType};

#[test]
fn duplicate_write_is_refused_and_keeps_first_value() {
    let mut g = OmGroup::new(1, "g");
    let mut row = ClutchData::new(0, 0);
    assert_eq!(row.add_om_u32(false, &mut g, 42, 7), Ok(()));
    assert_eq!(
        row.add_om_u32(false, &mut g, 42, 9),
        Err(ClutchError::DuplicateU32 { id: 42, val: 9 })
    );
    let meta = *g.om_map.get(&42).unwrap();
    assert_eq!(row.get_value(&meta), OmValue::U32(7));
    assert_eq!(row.add_om_u32(true, &mut g, 42, 9), Ok(()));
    assert_eq!(row.get_value(&meta), OmValue::U32(9));
}

#[test]
fn duplicate_f64_error_carries_bits() {
    let mut g = OmGroup::new(1, "g");
    let mut row = ClutchData::new(0, 0);
    assert_eq!(row.add_om_f64(false, &mut g, 3, 1.5f64.to_bits()), Ok(()));
    assert_eq!(
        row.add_om_f64(false, &mut g, 3, 2.5f64.to_bits()),
        Err(ClutchError::DuplicateF64 { id: 3, bits: 2.5f64.to_bits() })
    );
}

#[test]
fn f64_round_trips_bit_exactly() {
    let values = [0.25f64, -0.0, f64::MAX, f64::MIN_POSITIVE, f64::from_bits(0x7ff8_0000_dead_beef)];
    let mut g = OmGroup::new(1, "g");
    let mut row = ClutchData::new(2, 2);
    for (k, v) in values.iter().enumerate() {
        let id = 100 + k as u32;
        assert_eq!(row.add_om_f64(false, &mut g, id, v.to_bits()), Ok(()));
        let meta = *g.om_map.get(&id).unwrap();
        match row.get_value(&meta) {
            OmValue::F64(bits) => assert_eq!(bits, v.to_bits()),
            other => panic!("unexpected {:?}", other),
        }
    }
}

#[test]
fn unset_slot_reads_null() {
    let row = ClutchData::new(4, 4);
    let m32 = OmMeta { kind: OmType::TypeU32, id: 1, slot: 2 };
    let m64 = OmMeta { kind: OmType::TypeF64, id: 2, slot: 1000 };
    assert_eq!(row.get_value(&m32), OmValue::NULL);
    assert_eq!(row.get_value(&m64), OmValue::NULL);
    assert!(!row.is_32_set(2));
    assert!(!row.is_64_set(1000));
}

#[test]
fn writes_grow_past_the_initial_size() {
    let mut g = OmGroup::new(1, "g");
    let mut row = ClutchData::new(0, 0);
    for id in 0..100u32 {
        assert_eq!(row.add_om_u32(false, &mut g, id, id * 3), Ok(()));
    }
    let meta = *g.om_map.get(&99).unwrap();
    assert_eq!(meta.slot, 99);
    assert_eq!(row.get_value(&meta), OmValue::U32(297));
    assert!(row.is_32_set(99));
    assert!(!row.is_32_set(100));
}

#[test]
fn set_marks_slot_populated() {
    let mut row = ClutchData::new(0, 0);
    row.set_32(40);
    row.set_64(3);
    assert!(row.is_32_set(40));
    assert!(!row.is_32_set(39));
    assert!(row.is_64_set(3));
}

#[test]
fn fill_counts_counts_values() {
    let mut g = OmGroup::new(1, "g");
    let mut row = ClutchData::new(0, 0);
    row.add_om_u32(false, &mut g, 1, 10).unwrap();
    row.add_om_f64(false, &mut g, 2, 0.5f64.to_bits()).unwrap();
    let mut metas: Vec<OmMeta> = g.om_map.values().cloned().collect();
    metas.push(OmMeta { kind: OmType::TypeU32, id: 3, slot: 5 });
    assert_eq!(fill_counts(&row, &metas), (2, 1));
}

#[test]
fn cells_grow_in_one_batch() {
    let mut g = OmGroup::new(1, "g");
    let mut row = ClutchData::new(0, 0);
    assert_eq!((row.om32_len(), row.om64_len()), (8, 8));
    for id in 0..8u32 {
        row.add_om_u32(false, &mut g, id, id).unwrap();
    }
    assert_eq!(row.om32_len(), 8);
    row.add_om_u32(false, &mut g, 8, 8).unwrap();
    assert_eq!(row.om32_len(), 16);
    assert_eq!(row.om64_len(), 8);
    row.set_64(20);
    assert_eq!(row.om64_len(), 28);
}

#[test]
fn writability_check() {
    let mut g = OmGroup::new(1, "g");
    assert!(is_writable(&g, 1, &OmType::TypeU32));
    assert!(is_writable(&g, 1, &OmType::TypeF64));
    assert!(!is_writable(&g, 1, &OmType::TypeString));
    g.om32_slots = usize::MAX;
    assert!(!is_writable(&g, 2, &OmType::TypeU32));
    g.om32_slots = 0;
    g.om_map.insert(5, OmMeta { kind: OmType::TypeU32, id: 5, slot: SLOT_LIMIT });
    assert!(!is_writable(&g, 5, &OmType::TypeU32));
}

#[test]
fn blank_row_after_clear_accepts_registered_ids() {
    let mut g = OmGroup::new(1, "g");
    let mut first = ClutchData::new(0, 0);
    first.add_om_u32(false, &mut g, 1, 10).unwrap();
    first.add_om_f64(false, &mut g, 2, 1.0f64.to_bits()).unwrap();
    let mut fresh = ClutchData::new(g.om32_slots, g.om64_slots);
    assert_eq!(fresh.add_om_u32(false, &mut g, 1, 11), Ok(()));
    assert_eq!(fresh.add_om_f64(false, &mut g, 2, 2.0f64.to_bits()), Ok(()));
    assert_eq!((g.om32_slots, g.om64_slots, g.om_map.len()), (1, 1, 2));
}
