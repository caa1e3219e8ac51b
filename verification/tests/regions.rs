use ec2_skim::{resolve_region, PickError};

#[test]
fn known_region_resolves() {
    assert!(resolve_region("us-east-1").is_ok());
    assert!(resolve_region("eu-west-2").is_ok());
}

#[test]
fn unknown_region_is_invalid() {
    assert!(matches!(resolve_region("nowhere-9"), Err(PickError::InvalidRegion)));
    assert!(matches!(resolve_region(""), Err(PickError::InvalidRegion)));
}
