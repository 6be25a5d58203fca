use clutch::schema::{ClutchMeta, OmGroup, OmType, SlotClass};

#[test]
fn slot_is_stable_across_other_ids() {
    let mut g = OmGroup::new(1, "g");
    let a = g.find_setup_meta_slot(10, &OmType::TypeU32);
    let b = g.find_setup_meta_slot(11, &OmType::TypeU32);
    let c = g.find_setup_meta_slot(12, &OmType::TypeF64);
    let d = g.find_setup_meta_slot(13, &OmType::TypeU32);
    assert_eq!((a, b, c, d), (0, 1, 0, 2));
    assert_eq!(g.find_setup_meta_slot(10, &OmType::TypeU32), a);
    assert_eq!(g.find_setup_meta_slot(12, &OmType::TypeF64), c);
    assert_eq!(g.om32_slots, 3);
    assert_eq!(g.om64_slots, 1);
}

#[test]
fn first_kind_wins_for_a_registered_id() {
    let mut g = OmGroup::new(1, "g");
    let s = g.find_setup_meta_slot(7, &OmType::TypeU32);
    g.find_setup_meta_slot(8, &OmType::TypeU32);
    assert_eq!(g.find_setup_meta_slot(7, &OmType::TypeF64), s);
    assert_eq!(g.om64_slots, 0);
    assert_eq!(g.om_map.get(&7).unwrap().kind, OmType::TypeU32);
}

#[test]
fn kinds_share_the_slots_of_their_class() {
    let mut g = OmGroup::new(1, "g");
    assert_eq!(g.find_setup_meta_slot(1, &OmType::TypeI32), 0);
    assert_eq!(g.find_setup_meta_slot(2, &OmType::TypeF32), 1);
    assert_eq!(g.find_setup_meta_slot(3, &OmType::TypeU64), 0);
    assert_eq!(g.find_setup_meta_slot(4, &OmType::TypeI64), 1);
    assert_eq!(OmType::TypeString.class(), SlotClass::Text);
}

#[test]
fn kind_names() {
    assert_eq!(OmType::TypeU32.name(), "u32");
    assert_eq!(OmType::TypeF64.name(), "f64");
    assert_eq!(OmType::TypeI64.name(), "str");
}

#[test]
fn catalog_starts_with_sentinel() {
    let mut cm = ClutchMeta::new();
    assert_eq!(cm.group_count(), 1);
    assert_eq!(cm.group_at(0).idx, 0);
    assert!(cm.get_group_by_idx(0).is_some());
    assert!(cm.get_group_by_idx(1).is_none());
}

#[test]
fn find_or_new_group_is_idempotent() {
    let mut cm = ClutchMeta::new();
    let idx = cm.find_or_new_group("level1").idx;
    assert_eq!(idx, 1);
    cm.find_or_new_group("level1").find_setup_meta_slot(5, &OmType::TypeU32);
    let again = cm.find_or_new_group("level1");
    assert_eq!(again.idx, 1);
    assert_eq!(again.om32_slots, 1);
    assert_eq!(cm.find_or_new_group("level2").idx, 2);
    assert_eq!(cm.group_count(), 3);
    assert_eq!(cm.get_group_by_name("level2").unwrap().idx, 2);
    assert!(cm.get_group_by_name("level3").is_none());
    assert_eq!(cm.get_group_by_idx(1).unwrap().group, "level1");
}

#[test]
fn new_group_gets_next_index() {
    let mut cm = ClutchMeta::new();
    let g = cm.new_group("a");
    assert_eq!(g.idx, 1);
    assert_eq!(g.group, "a");
    assert_eq!(g.om32_slots, 0);
}

#[test]
fn new_group_with_a_known_name_takes_the_name() {
    let mut cm = ClutchMeta::new();
    cm.new_group("a");
    cm.new_group("b");
    cm.new_group("a");
    assert_eq!(cm.group_count(), 4);
    assert_eq!(cm.get_group_by_name("a").unwrap().idx, 3);
    assert_eq!(cm.get_group_by_name("b").unwrap().idx, 2);
    assert_eq!(cm.find_or_new_group("a").idx, 3);
    assert_eq!(cm.group_count(), 4);
}

#[test]
fn catalog_registers_only_the_sentinel_name() {
    let mut cm = ClutchMeta::new();
    let s = cm.group_at(0);
    assert_eq!(s.group, "BAD_ZERO_GROUP");
    assert_eq!((s.om32_slots, s.om64_slots, s.omstr_slots), (0, 0, 0));
    assert_eq!(cm.get_group_by_name("BAD_ZERO_GROUP").unwrap().idx, 0);
    assert!(cm.get_group_by_name("g").is_none());
    let g = cm.find_or_new_group("g");
    assert_eq!((g.idx, g.group.as_str()), (1, "g"));
}
