use awb_core::adb::{dedupe_ready_devices, matching_ready_device, parse_devices, MdnsService};
use awb_core::cli::{reconnect_endpoints_from_services, strict_ready_device_for_tracked_serial};
use awb_core::dnssd::discover_connect_endpoints;
use awb_core::pairing::{order_endpoints, push_endpoint};
use awb_core::pairing_flow::extract_ipv4_endpoints;
use awb_core::qr::sanitize_pairing_instance;
use awb_core::ui::{next_selection, previous_selection};
use awb_core::scrcpy::{compatibility_flags, Scrcpy, ScrcpyOptions};
use awb_core::menu_bar::{connect_after_pairing_endpoints, MirrorBook, StartAction};

fn connect(instance: &str, address: &str) -> MdnsService {
    MdnsService {
        instance: instance.to_string(),
        service_type: "_adb-tls-connect._tcp".to_string(),
        address: address.to_string(),
    }
}

#[test]
fn dedupe_keeps_one_listed_row_per_transport() {
    let devices = parse_devices(
        "a:1 device\nadb-a._adb-tls-connect._tcp device\nb:2 device\nadb-b._adb-tls-connect._tcp device\nusb offline\n",
    );
    let services = [connect("adb-a", "a:1"), connect("adb-b", "b:2")];
    let rows = dedupe_ready_devices(devices.clone(), &services);
    assert_eq!(rows.len(), 3);
    for row in &rows {
        assert!(devices.contains(row));
    }
    assert_eq!(rows[0].serial, "adb-a._adb-tls-connect._tcp");
    assert_eq!(rows[1].serial, "adb-b._adb-tls-connect._tcp");
}

#[test]
fn ordering_and_pushing_endpoints_keep_each_once() {
    let es = vec![
        "b.local:1".to_string(),
        "10.0.0.1:1".to_string(),
        "b.local:1".to_string(),
    ];
    let mut ordered = order_endpoints(&es, &[false, false, false]);
    assert_eq!(ordered.len(), es.len());
    ordered.sort();
    let mut sorted = es.clone();
    sorted.sort();
    assert_eq!(ordered, sorted);

    let mut once = Vec::new();
    push_endpoint(&mut once, "x:1");
    let mut twice = once.clone();
    push_endpoint(&mut twice, "x:1");
    assert_eq!(once, twice);
}

#[test]
fn arrow_keys_undo_each_other() {
    for n in 1..5usize {
        for s in 0..n {
            assert_eq!(previous_selection(next_selection(s, n), n), s);
            assert_eq!(next_selection(previous_selection(s, n), n), s);
        }
    }
}

#[test]
fn screen_endpoints_are_distinct_and_well_formed() {
    let found = extract_ipv4_endpoints("1.2.3.4:5 1.2.3.4:5 ..9.9.9.9:10.. 1.2.3:4");
    assert_eq!(found, vec!["1.2.3.4:5", "9.9.9.9:10"]);
}

#[test]
fn reconnect_and_tracking_stay_within_what_adb_lists() {
    let services = [connect("adb-a", "10.0.0.2:1"), connect("adb-b", "10.0.0.3:1")];
    for endpoint in reconnect_endpoints_from_services("10.0.0.2:9", &services) {
        assert!(services.iter().any(|s| s.address == endpoint));
    }
    let devices = parse_devices("R5 device\n10.0.0.2:7 offline\n");
    assert!(strict_ready_device_for_tracked_serial(&devices, "10.0.0.2:9", &services).is_none());
    let matched = matching_ready_device(&devices, "R5", &[]).unwrap();
    assert!(devices.contains(&matched));
}

#[test]
fn sanitized_names_are_labels() {
    let long = "A".repeat(70) + " b";
    let name = sanitize_pairing_instance(&long).unwrap();
    assert_eq!(name.len(), 63);
    let name = sanitize_pairing_instance("--Ovi__ Mac--").unwrap();
    assert_eq!(name, "ovi-mac");
}

#[test]
fn bonjour_endpoints_are_distinct_with_pairing_host_first() {
    let found = vec![
        "10.0.0.9:1".to_string(),
        "10.0.0.2:1".to_string(),
        "10.0.0.9:1".to_string(),
    ];
    assert_eq!(
        discover_connect_endpoints("10.0.0.2:5", &found),
        vec!["10.0.0.2:1", "10.0.0.9:1"]
    );
}

#[test]
fn a_running_mirror_is_never_replaced() {
    let mut book = MirrorBook::new();
    assert!(book.begin_start("phone"));
    assert_eq!(book.finish_start("phone", "Pixel", Ok(10)).0, StartAction::Track);
    assert_eq!(book.finish_start("phone", "Pixel", Ok(11)).0, StartAction::Stop);
    assert_eq!(book.running(), vec!["phone".to_string()]);
}

#[test]
fn connecting_after_pairing_never_leaves_the_pairing_host() {
    let candidates = vec![connect("adb-a", "10.0.0.9:5555")];
    let found = vec!["10.0.0.2:41000".to_string(), "10.0.0.3:42000".to_string()];
    let endpoints = connect_after_pairing_endpoints(&candidates, Some(found), "10.0.0.2:37000");
    assert_eq!(endpoints, vec!["10.0.0.9:5555".to_string(), "10.0.0.2:41000".to_string()]);
}

#[test]
fn collapsing_aliases_twice_changes_nothing_and_keeps_other_rows_in_order() {
    let devices = parse_devices(
        "usb1 device\na:1 device\nadb-a._adb-tls-connect._tcp device\nzz offline\nusb2 device\n",
    );
    let services = [connect("adb-a", "a:1")];
    let once = dedupe_ready_devices(devices.clone(), &services);
    let twice = dedupe_ready_devices(once.clone(), &services);
    assert_eq!(twice, once);
    let serials: Vec<&str> = once.iter().map(|d| d.serial.as_str()).collect();
    assert_eq!(serials, vec!["usb1", "adb-a._adb-tls-connect._tcp", "zz", "usb2"]);
}

#[test]
fn diagnostics_warn_once_for_each_missing_flag() {
    let scrcpy = Scrcpy { path: "/bin/scrcpy".to_string(), adb: None };
    let diagnostics = scrcpy.diagnostics(&ScrcpyOptions::default(), Ok("scrcpy 4.0".to_string()), Ok("--no-audio".to_string()));
    let flags = compatibility_flags(&ScrcpyOptions::default());
    let missing: Vec<&String> = flags.iter().filter(|f| f.as_str() != "--no-audio").collect();
    assert_eq!(diagnostics.warnings.len(), missing.len());
    for (warning, flag) in diagnostics.warnings.iter().zip(missing) {
        assert!(warning.contains(&format!("`{flag}`")));
    }
}
