use ec2_skim::{FetchState, InstanceRecord, Page, PageReservation, PickError, Tag};

fn record(id: &str) -> InstanceRecord {
    InstanceRecord {
        instance_id: Some(id.to_string()),
        tags: Some(vec![Tag { key: Some("Name".to_string()), value: Some(id.to_string()) }]),
        public_ip_address: None,
        private_ip_address: Some("10.0.0.1".to_string()),
    }
}

fn ids(records: &Vec<InstanceRecord>) -> Vec<String> {
    records.iter().map(|r| r.instance_id.clone().unwrap()).collect()
}

#[test]
fn fetch_wants_first_request() {
    let s = FetchState::new();
    assert!(s.wants_request());
    assert!(s.request_token().is_none());
}

#[test]
fn single_page_without_token_terminates() {
    let mut s = FetchState::new();
    let page = Page {
        reservations: Some(vec![PageReservation { instances: Some(vec![record("i-1")]) }]),
        next_token: None,
    };
    s.apply_page(page);
    assert!(!s.wants_request());
    assert_eq!(ids(&s.into_records()), vec!["i-1".to_string()]);
}

#[test]
fn token_drives_next_request() {
    let mut s = FetchState::new();
    s.apply_page(Page {
        reservations: Some(vec![PageReservation { instances: Some(vec![record("i-1")]) }]),
        next_token: Some("more".to_string()),
    });
    assert!(s.wants_request());
    assert_eq!(s.request_token(), &Some("more".to_string()));
    s.apply_page(Page {
        reservations: Some(vec![PageReservation { instances: Some(vec![record("i-2")]) }]),
        next_token: None,
    });
    assert!(!s.wants_request());
    assert_eq!(ids(&s.into_records()), vec!["i-1".to_string(), "i-2".to_string()]);
}

#[test]
fn pages_concatenate_in_page_order() {
    let mut s = FetchState::new();
    s.apply_page(Page {
        reservations: Some(vec![
            PageReservation { instances: Some(vec![record("i-1"), record("i-2")]) },
            PageReservation { instances: None },
            PageReservation { instances: Some(vec![record("i-3")]) },
        ]),
        next_token: Some("t1".to_string()),
    });
    s.apply_page(Page { reservations: None, next_token: Some("t2".to_string()) });
    s.apply_page(Page {
        reservations: Some(vec![PageReservation { instances: Some(vec![record("i-4")]) }]),
        next_token: None,
    });
    assert!(!s.wants_request());
    assert_eq!(
        ids(&s.into_records()),
        vec!["i-1".to_string(), "i-2".to_string(), "i-3".to_string(), "i-4".to_string()]
    );
}

#[test]
fn failed_page_request_aborts_with_detail() {
    let mut s = FetchState::new();
    s.apply_result(Ok(Page {
        reservations: Some(vec![PageReservation { instances: Some(vec![record("i-1")]) }]),
        next_token: Some("t".to_string()),
    }))
    .unwrap();
    let out = s.apply_result(Err("throttled".to_string()));
    assert!(matches!(out, Err(PickError::QueryFailed(ref d)) if d == "throttled"));
    assert_eq!(ids(&s.into_records()), vec!["i-1".to_string()]);
}

#[test]
fn empty_page_leaves_nothing_collected() {
    let mut s = FetchState::new();
    s.apply_page(Page { reservations: None, next_token: None });
    assert!(!s.wants_request());
    assert!(s.into_records().is_empty());
}
