use awb_core::adb::{AdbDevice, DeviceState, MdnsService};
use awb_core::pairing_flow::{
    compact_error, connected_phones_from_devices, endpoint_summary, extract_ipv4_endpoints,
    is_ipv4_endpoint, matching_ready_device_from_snapshot, pairing_error_needs_adb_reset,
    poll_delay, should_check_bonjour, ui_hierarchy_candidate_devices, PairingProgress,
    PairingProgressKind,
};

fn adb_device(serial: &str) -> AdbDevice {
    AdbDevice {
        serial: serial.to_string(),
        state: DeviceState::Device,
        product: None,
        model: Some("Pixel_10_Pro".to_string()),
        device: None,
        transport_id: None,
    }
}

fn mdns_connect_service(instance: &str, address: &str) -> MdnsService {
    MdnsService {
        instance: instance.to_string(),
        service_type: "_adb-tls-connect._tcp".to_string(),
        address: address.to_string(),
    }
}

#[test]
fn extracts_ipv4_endpoints_from_screen_text() {
    let hierarchy = r#"
            <node text="192.168.68.54:37197" />
            <node text="adb-ignored.local:37197" />
            <node text="999.168.68.54:37197" />
            <node text="192.168.68.54:37197" />
        "#;

    assert_eq!(
        extract_ipv4_endpoints(hierarchy),
        vec!["192.168.68.54:37197"]
    );
}

#[test]
fn ui_hierarchy_candidates_skip_baseline_devices() {
    let baseline_devices = vec!["already-ready".to_string()];
    let devices = vec![adb_device("already-ready"), adb_device("new-ready")];

    let candidates = ui_hierarchy_candidate_devices(&devices, &baseline_devices);

    assert_eq!(candidates.len(), 1);
    assert_eq!(candidates[0].serial, "new-ready");
}

#[test]
fn validates_strict_ipv4_endpoint_shape() {
    assert!(is_ipv4_endpoint("192.168.68.54:37197"));
    assert!(!is_ipv4_endpoint("localhost:5555"));
    assert!(!is_ipv4_endpoint("192.168.68.54:0"));
    assert!(!is_ipv4_endpoint("999.168.68.54:37197"));
    assert!(!is_ipv4_endpoint("192.168.68.54:notaport"));
}

#[test]
fn protocol_fault_pairing_errors_trigger_adb_reset() {
    assert!(pairing_error_needs_adb_reset(
        "adb pair failed: error: protocol fault (couldn't read status message): Undefined error: 0"
    ));
    assert!(pairing_error_needs_adb_reset(
        "error: protocol fault (no status)"
    ));
    assert!(!pairing_error_needs_adb_reset("connection refused"));
}

#[test]
fn compacts_errors_to_their_first_line() {
    assert_eq!(compact_error("\n  first line  \nsecond"), "first line");
    assert_eq!(compact_error("   "), "unknown error");
    let long = "x".repeat(100);
    assert_eq!(compact_error(&long), format!("{}...", "x".repeat(96)));
}

#[test]
fn summarizes_candidate_endpoints() {
    assert_eq!(endpoint_summary(&[]), "none");
    assert_eq!(
        endpoint_summary(&[
            mdns_connect_service("a", "1.1.1.1:1"),
            mdns_connect_service("b", "2.2.2.2:2")
        ]),
        "1.1.1.1:1, 2.2.2.2:2"
    );
}

#[test]
fn snapshot_match_falls_back_to_connect_service_transport() {
    let service = mdns_connect_service("adb-pixel", "192.168.68.59:36375");
    let devices = vec![
        adb_device("R5CT123ABC"),
        adb_device("adb-pixel._adb-tls-connect._tcp"),
    ];
    let baseline = vec!["R5CT123ABC".to_string()];
    let found = matching_ready_device_from_snapshot(
        &devices,
        "192.168.68.59:40000",
        &baseline,
        &[service],
    )
    .expect("transport of the service on the expected host");
    assert_eq!(found.serial, "adb-pixel._adb-tls-connect._tcp");
}

#[test]
fn connected_phones_collapse_aliases() {
    let service = mdns_connect_service("adb-pixel", "192.168.68.59:36375");
    let mut offline = adb_device("emulator-5554");
    offline.state = DeviceState::Offline;
    let phones = connected_phones_from_devices(
        vec![
            adb_device("192.168.68.59:36375"),
            adb_device("adb-pixel._adb-tls-connect._tcp"),
            offline,
        ],
        &[service],
    );
    assert_eq!(phones.len(), 1);
    assert_eq!(phones[0].serial, "adb-pixel._adb-tls-connect._tcp");
    assert_eq!(phones[0].display_name, "Pixel 10 Pro");
}

#[test]
fn timing_helpers_cap_waits() {
    assert!(should_check_bonjour(None));
    assert!(!should_check_bonjour(Some(9_999)));
    assert!(should_check_bonjour(Some(10_000)));
    assert_eq!(poll_delay(10_000, 9_000, 2_000), 1_000);
    assert_eq!(poll_delay(10_000, 1_000, 2_000), 2_000);
    assert_eq!(poll_delay(10_000, 12_000, 2_000), 0);
}

#[test]
fn progress_reports_are_built_step_by_step() {
    let p = PairingProgress::new(
        PairingProgressKind::Connecting,
        "Connecting to phone".to_string(),
        "detail".to_string(),
    )
    .deadline(5)
    .attempt(2)
    .endpoint("1.2.3.4:5".to_string());
    assert_eq!(p.kind, PairingProgressKind::Connecting);
    assert_eq!(p.deadline, Some(5));
    assert_eq!(p.attempt, Some(2));
    assert_eq!(p.endpoint.as_deref(), Some("1.2.3.4:5"));
}
