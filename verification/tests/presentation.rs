use ec2_skim::{
    build_universe, present, render_line, InstanceRecord, PickError, Tag, Universe,
};

fn tag(key: &str, value: &str) -> Tag {
    Tag { key: Some(key.to_string()), value: Some(value.to_string()) }
}

fn with_tags(id: &str, tags: Vec<Tag>) -> InstanceRecord {
    InstanceRecord {
        instance_id: Some(id.to_string()),
        tags: Some(tags),
        public_ip_address: Some("203.0.113.9".to_string()),
        private_ip_address: Some("10.1.2.3".to_string()),
    }
}

fn name_tags() -> Vec<String> {
    vec!["Name".to_string()]
}

#[test]
fn line_pads_identity_and_appends_tags() {
    let rec = with_tags("i1", vec![tag("Name", "web1")]);
    let line = render_line(&rec, &name_tags());
    assert_eq!(line, format!("{:19}: ", "i1") + "Name=web1 ");
}

#[test]
fn long_identity_is_not_truncated() {
    let rec = with_tags("i-0123456789abcdef012", vec![]);
    let line = render_line(&rec, &name_tags());
    assert_eq!(line, "i-0123456789abcdef012: ".to_string());
}

#[test]
fn absent_display_tag_is_omitted() {
    let rec = with_tags("i1", vec![tag("Env", "prod")]);
    let tags = vec!["Name".to_string(), "Env".to_string()];
    let line = render_line(&rec, &tags);
    assert_eq!(line, format!("{:19}: ", "i1") + "Env=prod ");
}

#[test]
fn display_tags_render_in_configured_order() {
    let rec = with_tags("i1", vec![tag("Env", "prod"), tag("Name", "web1")]);
    let tags = vec!["Name".to_string(), "Env".to_string()];
    let line = render_line(&rec, &tags);
    assert_eq!(line, format!("{:19}: ", "i1") + "Name=web1 Env=prod ");
}

#[test]
fn later_duplicate_tag_key_wins() {
    let rec = with_tags("i1", vec![tag("Name", "old"), tag("Name", "new")]);
    let line = render_line(&rec, &name_tags());
    assert_eq!(line, format!("{:19}: ", "i1") + "Name=new ");
}

#[test]
fn tag_without_value_is_skipped() {
    let rec = with_tags(
        "i1",
        vec![tag("Name", "kept"), Tag { key: Some("Name".to_string()), value: None }],
    );
    let line = render_line(&rec, &name_tags());
    assert_eq!(line, format!("{:19}: ", "i1") + "Name=kept ");
}

#[test]
fn record_without_tag_list_renders_identity_only() {
    let rec = InstanceRecord {
        instance_id: Some("i9".to_string()),
        tags: None,
        public_ip_address: None,
        private_ip_address: None,
    };
    let line = render_line(&rec, &name_tags());
    assert_eq!(line, format!("{:19}: ", "i9"));
}

#[test]
fn lines_parallel_the_index_table() {
    let u = build_universe(vec![vec![
        with_tags("i1", vec![tag("Name", "web1")]),
        with_tags("i2", vec![tag("Name", "web2")]),
        with_tags("i3", vec![]),
    ]]);
    let p = present(u, &name_tags());
    assert_eq!(p.len(), 3);
    let lines = p.lines_ref().clone();
    assert_eq!(lines.len(), 3);
    for i in 0..3 {
        let rec = p.record_at(i).unwrap();
        assert_eq!(lines[i], render_line(rec, &name_tags()));
    }
}

#[test]
fn two_regions_present_three_lines_in_order() {
    let region_a = vec![
        with_tags("i1", vec![tag("Name", "web1")]),
        with_tags("i2", vec![tag("Name", "web2")]),
    ];
    let region_b = vec![
        with_tags("i2", vec![tag("Name", "web2-updated")]),
        with_tags("i3", vec![tag("Name", "db1")]),
    ];
    let u = build_universe(vec![region_a, region_b]);
    let p = present(u, &name_tags());
    assert_eq!(p.len(), 3);
    let lines = p.lines_ref();
    assert_eq!(lines[0], format!("{:19}: ", "i1") + "Name=web1 ");
    assert_eq!(lines[1], format!("{:19}: ", "i2") + "Name=web2-updated ");
    assert_eq!(lines[2], format!("{:19}: ", "i3") + "Name=db1 ");
}

#[test]
fn index_outside_table_is_refused() {
    let mut u = Universe::new();
    u.insert(with_tags("i1", vec![]));
    let p = present(u, &name_tags());
    assert!(matches!(p.record_at(0), Ok(_)));
    assert!(matches!(p.record_at(1), Err(PickError::IndexOutOfRange)));
}

#[test]
fn index_resolves_to_the_rendered_record() {
    let mut u = Universe::new();
    u.insert(with_tags("i1", vec![]));
    u.insert(with_tags("i2", vec![]));
    let p = present(u, &name_tags());
    let rec = p.record_at(1).unwrap();
    assert_eq!(rec.instance_id, Some("i2".to_string()));
}

#[test]
fn empty_selection_produces_no_output() {
    let mut u = Universe::new();
    u.insert(with_tags("i1", vec![]));
    let p = present(u, &name_tags());
    let selections: Vec<usize> = Vec::new();
    let mut out = String::new();
    for idx in selections {
        let rec = p.record_at(idx).unwrap();
        out.push_str(rec.address(false).unwrap());
    }
    assert_eq!(out, "".to_string());
}

#[test]
fn address_follows_the_public_flag() {
    let rec = with_tags("i1", vec![]);
    assert_eq!(rec.address(true), Some(&"203.0.113.9".to_string()));
    assert_eq!(rec.address(false), Some(&"10.1.2.3".to_string()));
    let bare = InstanceRecord {
        instance_id: Some("i2".to_string()),
        tags: None,
        public_ip_address: None,
        private_ip_address: None,
    };
    assert_eq!(bare.address(true), None);
}
