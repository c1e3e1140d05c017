use awb_core::adb::{
    connect_service_candidates, dedupe_ready_devices, duplicate_wireless_endpoint_aliases,
    endpoint_host, matching_ready_device, matching_ready_device_for_connect_service,
    parse_devices, parse_mdns_services, AdbDevice, DeviceState, MdnsService,
};
use awb_core::adb_client::{
    connect_serial_from_output, error_is_timeout, summarize_wifi_status, Adb, CommandResult,
    WifiStatusStep,
};

const CONNECT_SERVICE_TYPE: &str = "_adb-tls-connect._tcp";

fn result(success: bool, stdout: &str, stderr: &str) -> CommandResult {
    CommandResult {
        success,
        stdout: stdout.to_string(),
        stderr: stderr.to_string(),
    }
}

#[test]
fn parses_adb_devices() {
    let devices = parse_devices(
        r#"
List of devices attached
R5CT123ABC device product:foo model:Pixel_8 device:bar transport_id:1
192.168.1.50:42131 device product:foo model:Pixel_8_Pro device:bar
emulator-5554 offline
ZY22 unauthorized
"#,
    );

    assert_eq!(devices.len(), 4);
    assert_eq!(devices[0].serial, "R5CT123ABC");
    assert_eq!(devices[0].state, DeviceState::Device);
    assert_eq!(devices[0].model.as_deref(), Some("Pixel_8"));
    assert_eq!(devices[1].serial, "192.168.1.50:42131");
    assert_eq!(devices[2].state, DeviceState::Offline);
    assert_eq!(devices[3].state, DeviceState::Unauthorized);
}

#[test]
fn detects_timeout_errors_in_context_chain() {
    let chain = vec![
        "checking connected phones".to_string(),
        "adb devices -l timed out after 10 seconds".to_string(),
    ];

    assert!(error_is_timeout(&chain));
    assert!(!error_is_timeout(&["adb devices failed".to_string()]));
}

#[test]
fn parses_mdns_services() {
    let services = parse_mdns_services(
        r#"
List of discovered mdns services
studio-AbCdEf1234 _adb-tls-pairing._tcp. 192.168.1.23:37199
adb-XYZ-QXjCrW _adb-tls-connect._tcp 192.168.1.23:40233
ignored _printer._tcp 192.168.1.10:1234
"#,
    );

    assert_eq!(services.len(), 3);
    assert!(services[0].is_pairing_service());
    assert!(services[1].is_connect_service());
    assert_eq!(services[1].address, "192.168.1.23:40233");
}

#[test]
fn extracts_connect_serial() {
    assert_eq!(
        connect_serial_from_output("connected to 192.168.1.23:40233\n").as_deref(),
        Some("192.168.1.23:40233")
    );
    assert_eq!(
        connect_serial_from_output("already connected to 192.168.1.23:40233\n").as_deref(),
        Some("192.168.1.23:40233")
    );
    assert_eq!(connect_serial_from_output("nope"), None);
}

#[test]
fn extracts_endpoint_host() {
    assert_eq!(endpoint_host("192.168.1.23:40233"), "192.168.1.23");
    assert_eq!(endpoint_host("[fe80::1]:40233"), "fe80::1");
}

#[test]
fn connect_candidates_prefer_new_same_host_services() {
    let old_same_host = MdnsService {
        instance: "adb-old".to_string(),
        service_type: CONNECT_SERVICE_TYPE.to_string(),
        address: "192.168.1.23:11111".to_string(),
    };
    let new_same_host = MdnsService {
        instance: "adb-new".to_string(),
        service_type: CONNECT_SERVICE_TYPE.to_string(),
        address: "192.168.1.23:22222".to_string(),
    };
    let new_other_host = MdnsService {
        instance: "adb-other".to_string(),
        service_type: CONNECT_SERVICE_TYPE.to_string(),
        address: "192.168.1.99:33333".to_string(),
    };
    let baseline = vec![old_same_host.clone()];

    let candidates = connect_service_candidates(
        &[old_same_host, new_other_host, new_same_host.clone()],
        "192.168.1.23:37199",
        &baseline,
    );

    assert_eq!(candidates, vec![new_same_host]);
}

#[test]
fn matching_ready_device_prefers_expected_serial_then_host() {
    let baseline = vec!["R5CT123ABC".to_string()];
    let devices = parse_devices(
        r#"
List of devices attached
R5CT123ABC device product:foo model:Old_Device device:bar transport_id:1
192.168.1.23:40233 device product:foo model:Pixel_8_Pro device:bar
"#,
    );

    let matched = matching_ready_device(&devices, "192.168.1.23:40100", &baseline)
        .expect("expected matching same-host wireless device");

    assert_eq!(matched.serial, "192.168.1.23:40233");
}

#[test]
fn matches_ready_mdns_device_for_connect_service() {
    let service = MdnsService {
        instance: "adb-5C020DLCH0007Q-tfPgZw".to_string(),
        service_type: CONNECT_SERVICE_TYPE.to_string(),
        address: "192.168.68.59:36375".to_string(),
    };
    let devices = parse_devices(
        r#"
List of devices attached
adb-5C020DLCH0007Q-tfPgZw._adb-tls-connect._tcp device product:foo model:Pixel_10_Pro device:bar
"#,
    );

    let matched = matching_ready_device_for_connect_service(&devices, &service, &[])
        .expect("expected mDNS ADB transport to match its service");

    assert_eq!(
        matched.serial,
        "adb-5C020DLCH0007Q-tfPgZw._adb-tls-connect._tcp"
    );
    assert_eq!(matched.display_name(), "Pixel 10 Pro");
}

#[test]
fn dedupes_ip_and_mdns_aliases_for_same_wireless_transport() {
    let service = MdnsService {
        instance: "adb-5C020DLCH0007Q-tfPgZw".to_string(),
        service_type: CONNECT_SERVICE_TYPE.to_string(),
        address: "192.168.68.59:36375".to_string(),
    };
    let devices = parse_devices(
        r#"
List of devices attached
192.168.68.59:36375 device product:foo model:Pixel_10_Pro device:bar
adb-5C020DLCH0007Q-tfPgZw._adb-tls-connect._tcp device product:foo model:Pixel_10_Pro device:bar
"#,
    );

    let deduped = dedupe_ready_devices(devices, &[service]);

    assert_eq!(deduped.len(), 1);
    assert_eq!(
        deduped[0].serial,
        "adb-5C020DLCH0007Q-tfPgZw._adb-tls-connect._tcp"
    );
    assert_eq!(deduped[0].display_name(), "Pixel 10 Pro");
}

#[test]
fn identifies_duplicate_endpoint_aliases_to_disconnect() {
    let service = MdnsService {
        instance: "adb-5C020DLCH0007Q-tfPgZw".to_string(),
        service_type: CONNECT_SERVICE_TYPE.to_string(),
        address: "192.168.68.59:36375".to_string(),
    };
    let devices = parse_devices(
        r#"
List of devices attached
192.168.68.59:36375 device product:foo model:Pixel_10_Pro device:bar
adb-5C020DLCH0007Q-tfPgZw._adb-tls-connect._tcp device product:foo model:Pixel_10_Pro device:bar
"#,
    );

    assert_eq!(
        duplicate_wireless_endpoint_aliases(&devices, &[service]),
        vec!["192.168.68.59:36375"]
    );
}

#[test]
fn summarizes_wifi_status_lines() {
    let summary = summarize_wifi_status(
        r#"
Wifi is enabled
Random line
SSID: "Lab"
BSSID: 12:34:56:78:90:ab
RSSI: -66
Frequency: 5180
Link speed: 433Mbps
"#,
    );

    assert_eq!(
        summary,
        "Wifi is enabled | SSID: \"Lab\" | BSSID: 12:34:56:78:90:ab | RSSI: -66 | Frequency: 5180 | Link speed: 433Mbps"
    );
}

#[test]
fn wifi_summary_keeps_at_most_eight_lines_and_falls_back_to_raw_lines() {
    let many: String = (1..=10).map(|i| format!("SSID line {i}\n")).collect();
    let summary = summarize_wifi_status(&many);
    assert_eq!(summary.split(" | ").count(), 8);
    assert!(summary.ends_with("SSID line 8"));

    assert_eq!(
        summarize_wifi_status("a\nb\nc\nd\ne\nf\ng\n"),
        "a | b | c | d | e | f"
    );
}

#[test]
fn display_names_follow_the_transport_kind() {
    let mut device = AdbDevice {
        serial: "R5CT123ABC".to_string(),
        state: DeviceState::Device,
        product: None,
        model: Some("Pixel_8".to_string()),
        device: None,
        transport_id: None,
    };
    assert_eq!(device.display_name(), "R5CT123ABC Pixel 8");
    device.model = None;
    assert_eq!(device.display_name(), "R5CT123ABC");
    device.serial = "adb-x._adb-tls-connect._tcp".to_string();
    assert_eq!(device.display_name(), "Wireless ADB device");
}

#[test]
fn command_results_combine_trimmed_streams() {
    assert_eq!(result(true, " out \n", "").combined_output(), "out");
    assert_eq!(result(true, "", " err ").combined_output(), "err");
    assert_eq!(result(true, "out", "err").combined_output(), "out\nerr");
    assert_eq!(result(true, " ", "\n").combined_output(), "");
}

#[test]
fn failed_commands_report_their_output_or_a_note() {
    assert_eq!(
        Adb::devices(result(false, "", "boom")).unwrap_err(),
        "adb devices -l failed: boom"
    );
    assert_eq!(
        Adb::keepalive(result(false, "", "")).unwrap_err(),
        "adb shell true failed: command exited without output"
    );
    assert!(Adb::keepalive(result(true, "", "")).is_ok());
}

#[test]
fn pair_and_connect_reject_output_that_reads_as_a_failure() {
    assert_eq!(
        Adb::pair(result(true, "Failed: wrong code", "")).unwrap_err(),
        "adb pair failed: Failed: wrong code"
    );
    assert_eq!(
        Adb::connect(result(true, "", "error: no route")).unwrap_err(),
        "adb connect failed: error: no route"
    );
    assert!(Adb::connect(result(true, "connected to 1.2.3.4:5", "")).is_ok());
    assert!(Adb::disconnect(result(true, "error: whatever", "")).is_ok());
}

#[test]
fn wifi_status_falls_back_to_dumpsys_when_empty() {
    assert_eq!(
        Adb::wifi_status(&result(true, "  ", "")),
        WifiStatusStep::ReadDumpsys
    );
    assert_eq!(
        Adb::wifi_status(&result(false, "SSID: x", "")),
        WifiStatusStep::ReadDumpsys
    );
    assert_eq!(
        Adb::wifi_status(&result(true, "SSID: x", "")),
        WifiStatusStep::Summary("SSID: x".to_string())
    );
    assert_eq!(
        Adb::wifi_status_from_dumpsys(result(false, "", "nope")).unwrap_err(),
        "adb shell dumpsys wifi failed: nope"
    );
}

#[test]
fn ui_dump_is_used_only_when_it_holds_a_hierarchy() {
    assert_eq!(
        Adb::dump_ui_hierarchy(&result(true, "<hierarchy/>", "")).as_deref(),
        Some("<hierarchy/>")
    );
    assert_eq!(Adb::dump_ui_hierarchy(&result(true, "ERROR", "")), None);
    assert_eq!(
        Adb::ui_dump_read(result(true, "<xml/>", "")).unwrap(),
        "<xml/>"
    );
}
