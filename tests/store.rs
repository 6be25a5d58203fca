use clutch::key::ClutchKey;
use clutch::schema::ClutchMeta;
use clutch::store::ClutchStore;

#[test]
fn reinsert_after_clear_reuses_schema() {
    let mut cm = ClutchMeta::new();
    let group = cm.find_or_new_group("level1");
    let mut cs = ClutchStore::new();
    for pass in 0..2 {
        let mut errors = 0;
        for n in 0..1000u32 {
            let k = ClutchKey::new(group.idx, format!("{}\0{}", n / 10, n % 10), 1960, 32, 0);
            let data = cs.find_or_add_clutchdata(group, &k);
            for (id, is_u32) in [(1u32, true), (2, false), (3, true)] {
                let res = if is_u32 {
                    data.add_om_u32(false, group, id, n)
                } else {
                    data.add_om_f64(false, group, id, (n as f64 + 0.25).to_bits())
                };
                if res.is_err() {
                    errors += 1;
                }
            }
        }
        assert_eq!(errors, 0, "pass {}", pass);
        assert_eq!(cs.len(), 1000);
        assert_eq!(group.om32_slots, 2);
        assert_eq!(group.om64_slots, 1);
        cs.clear_oms();
        assert_eq!(cs.len(), 0);
    }
}

#[test]
fn find_or_add_returns_the_same_row() {
    let mut cs = ClutchStore::new();
    let k = ClutchKey::new(1, "a".to_string(), 0, 0, 0);
    let mut cm = ClutchMeta::new();
    let g = cm.find_or_new_group("g");
    cs.add_to_clutch(0, 0, &k).add_om_u32(false, g, 9, 1).unwrap();
    assert!(cs.add_to_clutch(0, 0, &k).add_om_u32(false, g, 9, 2).is_err());
    assert_eq!(cs.len(), 1);
}

#[test]
fn rows_enumerate_in_key_order() {
    let mut cs = ClutchStore::new();
    let keys = [
        ClutchKey::new(2, "a".to_string(), 0, 0, 0),
        ClutchKey::new(1, "b".to_string(), 5, 0, 0),
        ClutchKey::new(1, "a".to_string(), 5, 0, 0),
        ClutchKey::new(1, "a\0a".to_string(), 5, 0, 0),
        ClutchKey::new(1, "z".to_string(), 4, 0, 0),
    ];
    for k in keys.iter() {
        cs.add_to_clutch(1, 1, k);
    }
    let order: Vec<(u16, u64, String)> = (0..cs.len())
        .map(|i| {
            let (k, _) = cs.entry_at(i);
            (k.group(), k.time(), k.keys().to_string())
        })
        .collect();
    assert_eq!(
        order,
        vec![
            (1, 4, "z".to_string()),
            (1, 5, "a".to_string()),
            (1, 5, "b".to_string()),
            (1, 5, "a\0a".to_string()),
            (2, 0, "a".to_string()),
        ]
    );
    cs.clear_all();
    assert_eq!(cs.len(), 0);
    cs.add_to_clutch(1, 1, &keys[0]);
    cs.clear_data();
    assert_eq!(cs.len(), 0);
}
