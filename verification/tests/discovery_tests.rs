use awb_core::dnssd::{
    discover_connect_endpoints, discover_pairing_endpoint, parse_browse_instances,
    parse_ipv4_address, parse_resolved_service, ResolvedService,
};
use awb_core::emulator::{parse_avds, Emulator};
use awb_core::pairing::{
    collect_pairing_endpoints, discover_pairing_endpoint_candidates, endpoint_preference,
    order_endpoints, push_endpoint,
};
use awb_core::adb::MdnsService;
use awb_core::adb_client::CommandResult;
use awb_core::command_path::{program_candidates, resolve_program, standard_dirs, ProgramError};

#[test]
fn parses_browse_instances() {
    let output = r#"
Browsing for _adb-tls-connect._tcp.local
DATE: ---Wed 06 May 2026---
10:44:01.123  Add        2  4 local. _adb-tls-connect._tcp. adb-5C020DLCH0007Q-tfPgZw
10:44:02.123  Rmv        2  4 local. _adb-tls-connect._tcp. adb-old
10:44:03.123  Add        2  4 local. _other._tcp. ignored
"#;

    assert_eq!(
        parse_browse_instances(output),
        vec!["adb-5C020DLCH0007Q-tfPgZw"]
    );
}

#[test]
fn parses_resolved_service() {
    let output = r#"
Lookup adb-5C020DLCH0007Q-tfPgZw._adb-tls-connect._tcp.local
10:44:01.123  adb-5C020DLCH0007Q-tfPgZw._adb-tls-connect._tcp.local. can be reached at pixel.local.:37197 (interface 4)
"#;

    assert_eq!(
        parse_resolved_service(output),
        Some(ResolvedService {
            host: "pixel.local".to_string(),
            port: 37197
        })
    );
}

#[test]
fn parses_ipv4_address() {
    let output = r#"
DATE: ---Wed 06 May 2026---
10:44:01.123  Add     2  4 pixel.local. 192.168.68.54  120
"#;

    assert_eq!(parse_ipv4_address(output).as_deref(), Some("192.168.68.54"));
}

#[test]
fn resolved_services_become_endpoints() {
    let service = ResolvedService {
        host: "[pixel.local.]".to_string(),
        port: 37197,
    };
    assert_eq!(
        discover_pairing_endpoint(Some(service.clone()), None).as_deref(),
        Some("pixel.local:37197")
    );
    assert_eq!(
        discover_pairing_endpoint(Some(service), Some("192.168.68.54".to_string())).as_deref(),
        Some("192.168.68.54:37197")
    );
    assert_eq!(discover_pairing_endpoint(None, None), None);
}

#[test]
fn connect_endpoints_are_distinct_with_the_pairing_host_first() {
    let found = vec![
        "192.168.68.99:1111".to_string(),
        "192.168.68.54:2222".to_string(),
        "192.168.68.99:1111".to_string(),
        "192.168.68.54:3333".to_string(),
    ];
    assert_eq!(
        discover_connect_endpoints("192.168.68.54:40000", &found),
        vec![
            "192.168.68.54:2222",
            "192.168.68.54:3333",
            "192.168.68.99:1111"
        ]
    );
}

#[test]
fn parses_avd_names() {
    assert_eq!(
        parse_avds("Pixel_10_Pro_XL\n\n Pixel_9a \nmedium_phone\n"),
        vec!["Pixel_10_Pro_XL", "Pixel_9a", "medium_phone"]
    );
}

#[test]
fn avd_listing_reports_stderr_on_failure() {
    let failed = CommandResult {
        success: false,
        stdout: String::new(),
        stderr: " no sdk \n".to_string(),
    };
    assert_eq!(
        Emulator::list_avds(&failed).unwrap_err(),
        "emulator -list-avds failed: no sdk"
    );
    assert_eq!(Emulator::launch_args("Pixel_9a"), vec!["-avd", "Pixel_9a"]);
}

#[test]
fn prefers_routable_ipv4_pairing_endpoints() {
    let endpoints = vec![
        "[fe80::1234]:37000".to_string(),
        "Android.local:37000".to_string(),
        "192.168.0.42:37000".to_string(),
        "169.254.1.42:37000".to_string(),
    ];
    let host_is_ipv6 = [true, false, false, false];

    let endpoints = order_endpoints(&endpoints, &host_is_ipv6);

    assert_eq!(endpoints[0], "192.168.0.42:37000");
    assert_eq!(endpoints[1], "Android.local:37000");
    assert_eq!(endpoints[2], "169.254.1.42:37000");
    assert_eq!(endpoints[3], "[fe80::1234]:37000");
}

#[test]
fn endpoint_preferences_rank_address_kinds() {
    assert_eq!(endpoint_preference("10.0.0.2:5555", false), 0);
    assert_eq!(endpoint_preference("phone.local:5555", false), 1);
    assert_eq!(endpoint_preference("127.0.0.1:5555", false), 2);
    assert_eq!(endpoint_preference("[::1]:5555", true), 3);
    assert_eq!(endpoint_preference("010.0.0.2:5555", false), 1);
}

#[test]
fn pairing_endpoints_are_trimmed_and_collected_once() {
    let mut endpoints = Vec::new();
    push_endpoint(&mut endpoints, " 10.0.0.2:1 ");
    push_endpoint(&mut endpoints, "10.0.0.2:1");
    push_endpoint(&mut endpoints, "   ");
    assert_eq!(endpoints, vec!["10.0.0.2:1"]);

    let services = vec![
        MdnsService {
            instance: "studio-x".to_string(),
            service_type: "_adb-tls-pairing._tcp.".to_string(),
            address: "10.0.0.2:1".to_string(),
        },
        MdnsService {
            instance: "other".to_string(),
            service_type: "_adb-tls-pairing._tcp".to_string(),
            address: "10.0.0.9:1".to_string(),
        },
    ];
    let collected = collect_pairing_endpoints(
        "studio-x",
        Ok(services),
        Err("dns-sd failed".to_string()),
    );
    assert_eq!(collected.endpoints, vec!["10.0.0.2:1"]);
    assert_eq!(collected.adb_error, None);
    assert_eq!(collected.bonjour_error.as_deref(), Some("dns-sd failed"));

    let ordered = discover_pairing_endpoint_candidates(collected, &[false]);
    assert_eq!(ordered.endpoints, vec!["10.0.0.2:1"]);
}

#[test]
fn programs_resolve_from_override_or_first_executable_candidate() {
    let dirs = standard_dirs(Some("/Users/me"), None, Some("/sdk/"));
    assert_eq!(
        dirs,
        vec![
            "/opt/homebrew/bin",
            "/usr/local/bin",
            "/usr/bin",
            "/Users/me/Library/Android/sdk/platform-tools",
            "/sdk/platform-tools"
        ]
    );
    let candidates = program_candidates("adb", &["/a".to_string(), "/b/".to_string()]);
    assert_eq!(candidates, vec!["/a/adb", "/b/adb"]);

    let checked = vec![("/a/adb".to_string(), false), ("/b/adb".to_string(), true)];
    assert_eq!(resolve_program("adb", None, &checked).unwrap(), "/b/adb");
    assert_eq!(
        resolve_program("adb", Some(("/x/adb".to_string(), true)), &checked).unwrap(),
        "/x/adb"
    );
    let missing = resolve_program("adb", Some(("/x/adb".to_string(), false)), &checked).unwrap_err();
    assert_eq!(
        missing.message(),
        "adb was not found or is not executable at /x/adb"
    );
    let none = resolve_program("adb", None, &[("/a/adb".to_string(), false)]).unwrap_err();
    assert_eq!(
        none,
        ProgramError::NotFound {
            name: "adb".to_string()
        }
    );
}

#[test]
fn standard_dirs_include_common_macos_locations() {
    let dirs = standard_dirs(None, None, None);
    assert!(dirs.contains(&"/opt/homebrew/bin".to_string()));
    assert!(dirs.contains(&"/usr/local/bin".to_string()));
}

#[test]
fn builds_avd_launch_command() {
    let emulator = Emulator {
        path: "/sdk/emulator/emulator".to_string(),
    };
    let args = Emulator::launch_args("Pixel_9a");

    assert_eq!(emulator.path(), "/sdk/emulator/emulator");
    assert_eq!(args, ["-avd", "Pixel_9a"]);
}
