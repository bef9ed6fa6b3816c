use systemd_pilot::status::ServiceStatus;

#[test]
fn test_service_status_parsing() {
    assert_eq!(ServiceStatus::from("active"), ServiceStatus::Active);
    assert_eq!(ServiceStatus::from("inactive"), ServiceStatus::Inactive);
    assert_eq!(ServiceStatus::from("failed"), ServiceStatus::Failed);
    assert_eq!(ServiceStatus::from("unknown"), ServiceStatus::Unknown);
}

#[test]
fn test_service_status_display() {
    assert_eq!(ServiceStatus::Active.label(), "Active");
    assert_eq!(ServiceStatus::Inactive.label(), "Inactive");
    assert_eq!(ServiceStatus::Failed.label(), "Failed");
    assert_eq!(ServiceStatus::Unknown.label(), "Unknown");
}

#[test]
fn test_status_parsing_is_case_insensitive() {
    assert_eq!(ServiceStatus::from("ACTIVE"), ServiceStatus::Active);
    assert_eq!(ServiceStatus::from("Inactive"), ServiceStatus::Inactive);
    assert_eq!(ServiceStatus::from("FaIlEd"), ServiceStatus::Failed);
}

#[test]
fn test_status_unrecognized_tokens() {
    assert_eq!(ServiceStatus::from(""), ServiceStatus::Unknown);
    assert_eq!(ServiceStatus::from("activating"), ServiceStatus::Unknown);
    assert_eq!(ServiceStatus::from("active "), ServiceStatus::Unknown);
}

#[test]
fn test_status_round_trip() {
    // status text -> status -> canonical capitalized rendering
    assert_eq!(ServiceStatus::from("active").label(), "Active");
    assert_eq!(ServiceStatus::from("inactive").label(), "Inactive");
    assert_eq!(ServiceStatus::from("failed").label(), "Failed");
    // and the rendering reads back as the same status
    assert_eq!(ServiceStatus::from(ServiceStatus::Active.label()), ServiceStatus::Active);
    assert_eq!(ServiceStatus::from(ServiceStatus::Unknown.label()), ServiceStatus::Unknown);
}
