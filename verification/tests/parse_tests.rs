use systemd_pilot::parse::{parse_listing_row, parse_unit_listing, parse_unit_properties, strip_unit_suffix};
use systemd_pilot::status::ServiceStatus;

#[test]
fn test_listing_single_row() {
    let text = "UNIT LOAD ACTIVE SUB DESCRIPTION\nsshd.service loaded active running OpenSSH server\n";
    let units = parse_unit_listing(text);
    assert_eq!(units.len(), 1);
    assert_eq!(units[0].name, "sshd");
    assert_eq!(units[0].status, ServiceStatus::Active);
    assert!(units[0].active);
    assert!(!units[0].enabled);
    assert_eq!(units[0].load_state, "loaded");
    assert_eq!(units[0].sub_state, "running");
    assert_eq!(units[0].description.as_deref(), Some("OpenSSH server"));
}

#[test]
fn test_listing_short_rows_are_dropped() {
    let units = parse_unit_listing("UNIT LOAD ACTIVE SUB\nfoo.service loaded\n");
    assert!(units.is_empty());
}

#[test]
fn test_listing_keeps_order_and_duplicates() {
    let text = "UNIT LOAD ACTIVE SUB\n\
                b.service loaded active running\n\
                a.service loaded inactive dead\n\
                b.service not-found failed failed\n";
    let units = parse_unit_listing(text);
    assert_eq!(units.len(), 3);
    assert_eq!(units[0].name, "b");
    assert_eq!(units[1].name, "a");
    assert_eq!(units[2].name, "b");
    assert_eq!(units[1].status, ServiceStatus::Inactive);
    assert_eq!(units[2].status, ServiceStatus::Failed);
    assert!(!units[1].active);
    assert_eq!(units[2].load_state, "not-found");
}

#[test]
fn test_listing_stops_at_blank_line() {
    let text = "UNIT LOAD ACTIVE SUB\none.service loaded active running\n\n\
                two.service loaded active running\n";
    let units = parse_unit_listing(text);
    assert_eq!(units.len(), 1);
    assert_eq!(units[0].name, "one");
}

#[test]
fn test_listing_stops_at_load_legend() {
    let text = "UNIT LOAD ACTIVE SUB\none.service loaded active running\n\
                LOAD = Reflects whether the unit definition was properly loaded.\n";
    let units = parse_unit_listing(text);
    assert_eq!(units.len(), 1);
}

#[test]
fn test_listing_skips_preamble_before_header() {
    let text = "some banner\nUNIT LOAD ACTIVE SUB\nx.service loaded active running\n";
    let units = parse_unit_listing(text);
    assert_eq!(units.len(), 1);
    assert_eq!(units[0].name, "x");
}

#[test]
fn test_listing_unknown_state_is_not_an_error() {
    let units = parse_unit_listing("UNIT LOAD ACTIVE SUB\nw.service loaded activating start\n");
    assert_eq!(units.len(), 1);
    assert_eq!(units[0].status, ServiceStatus::Unknown);
    assert!(!units[0].active);
}

#[test]
fn test_listing_empty_input() {
    assert!(parse_unit_listing("").is_empty());
}

#[test]
fn test_row_parsing() {
    let row = parse_listing_row("cron.service loaded active running Regular background jobs").unwrap();
    assert_eq!(row.name, "cron");
    assert_eq!(row.description.as_deref(), Some("Regular background jobs"));
    assert!(parse_listing_row("cron.service loaded active").is_none());
}

#[test]
fn test_strip_unit_suffix_repeats() {
    assert_eq!(strip_unit_suffix("a.service"), "a");
    assert_eq!(strip_unit_suffix("a.service.service"), "a");
    assert_eq!(strip_unit_suffix("a.socket"), "a.socket");
    assert_eq!(strip_unit_suffix(".service"), "");
}

#[test]
fn test_properties_missing_keys_default() {
    let unit = parse_unit_properties("foo", "ActiveState=failed\n");
    assert_eq!(unit.name, "foo");
    assert_eq!(unit.status, ServiceStatus::Failed);
    assert!(!unit.enabled);
    assert!(!unit.active);
    assert_eq!(unit.description, None);
    assert_eq!(unit.load_state, "unknown");
    assert_eq!(unit.sub_state, "unknown");
}

#[test]
fn test_properties_full_dump() {
    let text = "ActiveState=active\nSubState=running\nLoadState=loaded\n\
                UnitFileState=enabled\nDescription=OpenSSH server daemon\n";
    let unit = parse_unit_properties("sshd", text);
    assert_eq!(unit.status, ServiceStatus::Active);
    assert!(unit.active);
    assert!(unit.enabled);
    assert_eq!(unit.load_state, "loaded");
    assert_eq!(unit.sub_state, "running");
    assert_eq!(unit.description.as_deref(), Some("OpenSSH server daemon"));
}

#[test]
fn test_properties_last_key_wins() {
    let unit = parse_unit_properties("a", "ActiveState=active\nActiveState=inactive\n");
    assert_eq!(unit.status, ServiceStatus::Inactive);
    assert!(!unit.active);
}

#[test]
fn test_properties_enabled_is_exact_match() {
    let unit = parse_unit_properties("a", "UnitFileState=Enabled\n");
    assert!(!unit.enabled);
    let unit = parse_unit_properties("a", "UnitFileState= enabled \n");
    // values are trimmed before the comparison
    assert!(unit.enabled);
    let unit = parse_unit_properties("a", "UnitFileState=disabled\n");
    assert!(!unit.enabled);
}

#[test]
fn test_properties_lines_without_separator_are_ignored() {
    let unit = parse_unit_properties("a", "garbage line\nActiveState=active\n");
    assert_eq!(unit.status, ServiceStatus::Active);
}

#[test]
fn test_properties_empty_input() {
    let unit = parse_unit_properties("ghost", "");
    assert_eq!(unit.status, ServiceStatus::Unknown);
    assert_eq!(unit.load_state, "unknown");
    assert_eq!(unit.description, None);
    assert!(!unit.enabled);
}
