use ec2_skim::{build_filter_groups, parse_filter_clause, parse_filter_group, split_string};

fn running_values(values: &Option<Vec<String>>) -> bool {
    values == &Some(vec!["running".to_string()])
}

#[test]
fn zero_filters_give_single_running_group() {
    let groups = build_filter_groups(&Vec::new());
    assert_eq!(groups.len(), 1);
    assert_eq!(groups[0].len(), 1);
    assert_eq!(groups[0][0].name, "instance-state-name".to_string());
    assert!(running_values(&groups[0][0].values));
}

#[test]
fn group_count_matches_raw_strings() {
    let raws = vec!["a=1".to_string(), "b".to_string(), "c=1,2;d".to_string()];
    let groups = build_filter_groups(&raws);
    assert_eq!(groups.len(), 3);
    for g in &groups {
        assert!(g.len() >= 1);
        assert_eq!(g[0].name, "instance-state-name".to_string());
        assert!(running_values(&g[0].values));
    }
}

#[test]
fn team_tag_clause_merges_with_running() {
    let g = parse_filter_group("tag:Team=infra,platform");
    assert_eq!(g.len(), 2);
    assert_eq!(g[0].name, "instance-state-name".to_string());
    assert!(running_values(&g[0].values));
    assert_eq!(g[1].name, "tag:Team".to_string());
    assert_eq!(
        g[1].values,
        Some(vec!["infra".to_string(), "platform".to_string()])
    );
}

#[test]
fn clause_without_equals_constrains_no_values() {
    let f = parse_filter_clause("availability-zone");
    assert_eq!(f.name, "availability-zone".to_string());
    assert!(f.values.is_none());
}

#[test]
fn clause_with_empty_value_list_passes_through() {
    let f = parse_filter_clause("name=");
    assert_eq!(f.name, "name".to_string());
    assert_eq!(f.values, Some(vec!["".to_string()]));
}

#[test]
fn value_list_splits_at_first_equals_only() {
    let f = parse_filter_clause("a=b=c");
    assert_eq!(f.name, "a".to_string());
    assert_eq!(f.values, Some(vec!["b=c".to_string()]));
}

#[test]
fn semicolons_separate_clauses() {
    let g = parse_filter_group("a=1;b");
    assert_eq!(g.len(), 3);
    assert_eq!(g[1].name, "a".to_string());
    assert_eq!(g[1].values, Some(vec!["1".to_string()]));
    assert_eq!(g[2].name, "b".to_string());
    assert!(g[2].values.is_none());
}

#[test]
fn empty_string_is_one_empty_piece() {
    assert_eq!(split_string("", ';'), vec!["".to_string()]);
}

#[test]
fn adjacent_separators_keep_empty_pieces() {
    assert_eq!(
        split_string("a;;b", ';'),
        vec!["a".to_string(), "".to_string(), "b".to_string()]
    );
}

#[test]
fn empty_clause_parses_as_empty_name() {
    let g = parse_filter_group("");
    assert_eq!(g.len(), 2);
    assert_eq!(g[1].name, "".to_string());
    assert!(g[1].values.is_none());
}
