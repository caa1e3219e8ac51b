use ec2_skim::{build_universe, InstanceRecord, Tag, Universe};

fn tagged(id: &str, name: &str) -> InstanceRecord {
    InstanceRecord {
        instance_id: Some(id.to_string()),
        tags: Some(vec![Tag { key: Some("Name".to_string()), value: Some(name.to_string()) }]),
        public_ip_address: None,
        private_ip_address: None,
    }
}

fn name_of(r: &InstanceRecord) -> String {
    r.tags.as_ref().unwrap()[0].value.clone().unwrap()
}

#[test]
fn later_fetch_wins_on_shared_identity() {
    let region_a = vec![tagged("i2", "web2"), tagged("i1", "web1")];
    let region_b = vec![tagged("i2", "web2-updated"), tagged("i3", "db1")];
    let u = build_universe(vec![region_a, region_b]);
    assert_eq!(u.count(), 3);
    let table = u.into_table();
    let ids: Vec<String> = table.iter().map(|r| r.instance_id.clone().unwrap()).collect();
    assert_eq!(ids, vec!["i2".to_string(), "i1".to_string(), "i3".to_string()]);
    assert_eq!(name_of(&table[0]), "web2-updated".to_string());
    assert_eq!(name_of(&table[1]), "web1".to_string());
    assert_eq!(name_of(&table[2]), "db1".to_string());
}

#[test]
fn duplicate_identity_keeps_first_position() {
    let mut u = Universe::new();
    u.insert(tagged("i1", "one"));
    u.insert(tagged("i2", "two"));
    u.insert(tagged("i1", "one-updated"));
    assert_eq!(u.count(), 2);
    let table = u.into_table();
    assert_eq!(table[0].instance_id, Some("i1".to_string()));
    assert_eq!(name_of(&table[0]), "one-updated".to_string());
    assert_eq!(table[1].instance_id, Some("i2".to_string()));
}

#[test]
fn record_without_identity_is_dropped() {
    let mut u = Universe::new();
    u.insert(InstanceRecord {
        instance_id: None,
        tags: None,
        public_ip_address: None,
        private_ip_address: None,
    });
    u.insert(tagged("i1", "one"));
    assert_eq!(u.count(), 1);
}

#[test]
fn batches_merge_in_order() {
    let mut u = Universe::new();
    u.insert_batch(vec![tagged("a", "1"), tagged("b", "2")]);
    u.insert_batch(vec![tagged("b", "3")]);
    assert_eq!(u.count(), 2);
    let table = u.into_table();
    assert_eq!(name_of(&table[1]), "3".to_string());
}
