use awb_core::adb::{AdbDevice, DeviceState, MdnsService};
use awb_core::adb_client::CommandResult;
use awb_core::desktop::{
    config_path,
    adb_tool_info, app_bundle_path, append_log, bonjour_connect_candidates_for_pairing,
    is_emulator, login_items_include_app, mirror_key_for_device, snapshot_devices, Settings,
    ThemeMode,
};
use awb_core::qr::{sanitize_pairing_instance, PairingQr};

fn mdns_connect_service(instance: &str, address: &str) -> MdnsService {
    MdnsService {
        instance: instance.to_string(),
        service_type: "_adb-tls-connect._tcp".to_string(),
        address: address.to_string(),
    }
}

fn adb_device(serial: &str) -> AdbDevice {
    AdbDevice {
        serial: serial.to_string(),
        state: DeviceState::Device,
        product: None,
        model: Some("Pixel_10_Pro".to_string()),
        device: None,
        transport_id: None,
    }
}

#[test]
fn mirror_key_collapses_endpoint_and_mdns_aliases() {
    let service = mdns_connect_service("adb-5C020DLCH0007Q-tfPgZw", "192.168.68.59:36375");
    let endpoint_device = adb_device("192.168.68.59:36375");
    let mdns_device = adb_device("adb-5C020DLCH0007Q-tfPgZw._adb-tls-connect._tcp");

    assert_eq!(
        mirror_key_for_device(&endpoint_device, std::slice::from_ref(&service)),
        "adb-5C020DLCH0007Q-tfPgZw._adb-tls-connect._tcp"
    );
    assert_eq!(
        mirror_key_for_device(&mdns_device, &[service]),
        "adb-5C020DLCH0007Q-tfPgZw._adb-tls-connect._tcp"
    );
}

#[test]
fn mirror_key_normalizes_mdns_serial_without_service_snapshot() {
    let device = adb_device("adb-5C020DLCH0007Q-tfPgZw._adb-tls-connect._tcp.local");

    assert_eq!(
        mirror_key_for_device(&device, &[]),
        "adb-5C020DLCH0007Q-tfPgZw._adb-tls-connect._tcp"
    );
}

#[test]
fn bonjour_connect_candidates_keep_pairing_host_only() {
    assert_eq!(
        bonjour_connect_candidates_for_pairing(
            vec![
                "192.168.68.54:37197".to_string(),
                "192.168.68.99:37197".to_string(),
            ],
            "192.168.68.54:40713",
        ),
        vec!["192.168.68.54:37197"]
    );
}

#[test]
fn defaults_to_automatic_theme() {
    assert_eq!(Settings::default().theme, ThemeMode::Auto);
}

#[test]
fn settings_carry_window_options_to_scrcpy() {
    let settings = Settings {
        borderless: false,
        window_width: 300,
        ..Settings::default()
    };
    let options = settings.scrcpy_options();
    assert!(!options.borderless);
    assert!(options.always_on_top);
    assert_eq!(options.window_width, 300);
    assert_eq!(options.window_title, "Pixel 10 Pro");
    assert_eq!(ThemeMode::Day.name(), "day");
}

#[test]
fn device_rows_describe_each_transport() {
    let mut emulator = adb_device("emulator-5554");
    emulator.state = DeviceState::Offline;
    emulator.model = None;
    assert!(is_emulator(&emulator));
    let rows = snapshot_devices(vec![adb_device("R5CT123ABC"), emulator], &[]);
    assert_eq!(rows.len(), 2);
    assert_eq!(rows[0].name, "Pixel 10 Pro");
    assert!(rows[0].ready);
    assert_eq!(rows[0].state, "device");
    assert!(!rows[0].is_emulator);
    assert_eq!(rows[1].name, "emulator-5554");
    assert_eq!(rows[1].state, "offline");
    assert!(rows[1].is_emulator);
}

#[test]
fn adb_tool_info_shows_the_version_line() {
    let ok = CommandResult {
        success: true,
        stdout: "\nAndroid Debug Bridge version 1.0.41\nVersion 35\n".to_string(),
        stderr: String::new(),
    };
    let info = adb_tool_info(Ok(ok));
    assert!(info.available);
    assert_eq!(info.detail, "Android Debug Bridge version 1.0.41");
    let info = adb_tool_info(Err("adb was not found".to_string()));
    assert!(!info.available);
}

#[test]
fn logs_keep_the_latest_six_hundred_lines() {
    let mut logs = Vec::new();
    for i in 0..605 {
        append_log(&mut logs, format!("line {i}"));
    }
    assert_eq!(logs.len(), 600);
    assert_eq!(logs[0], "line 5");
    assert_eq!(logs[599], "line 604");
}

#[test]
fn login_items_and_bundle_paths() {
    assert!(login_items_include_app(Some("Music, AWB")));
    assert!(!login_items_include_app(Some("Music")));
    assert!(!login_items_include_app(None));
    assert_eq!(
        app_bundle_path("/Applications/AWB.app/Contents/MacOS/awb-app"),
        "/Applications/AWB.app"
    );
    assert_eq!(app_bundle_path("/usr/local/bin/awb-app"), "/usr/local/bin/awb-app");
}

#[test]
fn generates_adb_wifi_qr_payload() {
    let qr = PairingQr::with_instance("ovi-m1-001".to_string());

    assert_eq!(qr.instance, "ovi-m1-001");
    assert_eq!(qr.secret.len(), 16);
    assert_eq!(
        qr.payload,
        format!("WIFI:T:ADB;S:{};P:{};;", qr.instance, qr.secret)
    );
    assert!(
        qr.payload
            .chars()
            .all(|character| character.is_ascii_alphanumeric()
                || matches!(character, ':' | ';' | '-' | '_'))
    );
}

#[test]
fn sanitizes_machine_names_for_qr_instances() {
    assert_eq!(
        sanitize_pairing_instance("Ovi M1 001.local").as_deref(),
        Some("ovi-m1-001")
    );
    assert_eq!(
        sanitize_pairing_instance(" Ovi's MacBook Pro ").as_deref(),
        Some("ovis-macbook-pro")
    );
    assert_eq!(sanitize_pairing_instance("...").as_deref(), None);
}

#[test]
fn generated_instance_is_the_first_usable_machine_name() {
    let qr = PairingQr::generate(&["...".to_string(), "Ovi M1 001.local".to_string()]);
    assert_eq!(qr.instance, "ovi-m1-001");
    assert_eq!(qr.secret.len(), 16);
}

#[test]
fn instance_name_falls_back_to_a_random_label() {
    let qr = PairingQr::generate(&["...".to_string()]);
    assert_eq!(qr.instance.len(), 13);
    assert!(qr.instance.starts_with("airadb-"));
    assert!(qr.instance[7..]
        .chars()
        .all(|c| c.is_ascii_digit() || c.is_ascii_lowercase()));
    assert!(qr.secret.chars().all(|c| c.is_ascii_alphanumeric()));
}

#[test]
fn renders_the_payload_as_a_terminal_qr_code() {
    let qr = PairingQr::with_secret("ovi-m1-001".to_string(), "abcdefgh12345678".to_string());
    let text = qr.render_terminal().unwrap();
    assert_ne!(text, qr.payload);
    assert!(text.contains('\u{2588}') || text.contains('\u{2580}') || text.contains('\u{2584}'));
    assert!(text.lines().count() > 10);
}

#[test]
fn settings_live_in_the_awb_config_directory() {
    assert_eq!(config_path(None, Some("/Users/me")), Some("/Users/me/.config/awb/config.toml".to_string()));
    assert_eq!(config_path(Some("/xdg/"), Some("/Users/me")), Some("/xdg/awb/config.toml".to_string()));
    assert_eq!(config_path(None, None), None);
}
