use awb_core::adb::{AdbDevice, DeviceState, MdnsService};
use awb_core::cli::{
    connected_phone_action, is_plausible_endpoint, ready_device_with_serial, reconnect_endpoints_from_services,
    should_request_stay_awake, startup_device_choice, startup_menu_options,
    strict_ready_device_for_tracked_serial, watch_keepalive_step, Args, ConnectedAction,
    ScrcpyLaunchMode, StartupDeviceChoice, WatchStep,
};
use awb_core::pairing_flow::ConnectedPhone;
use awb_core::scrcpy::ScrcpyOptions;

fn mdns_connect_service(instance: &str, address: &str) -> MdnsService {
    MdnsService {
        instance: instance.to_string(),
        service_type: "_adb-tls-connect._tcp".to_string(),
        address: address.to_string(),
    }
}

fn adb_device(serial: &str) -> AdbDevice {
    AdbDevice {
        serial: serial.to_string(),
        state: DeviceState::Device,
        product: None,
        model: Some("Pixel_10_Pro".to_string()),
        device: None,
        transport_id: None,
    }
}

#[test]
fn parses_scrcpy_launch_flags() {
    let default_args = Args::default();
    assert_eq!(default_args.scrcpy_launch_mode(), ScrcpyLaunchMode::Menu);

    let background_args = Args {
        background: true,
        ..Args::default()
    };
    assert_eq!(
        background_args.scrcpy_launch_mode(),
        ScrcpyLaunchMode::Background
    );

    let foreground_args = Args {
        foreground: true,
        ..Args::default()
    };
    assert_eq!(
        foreground_args.scrcpy_launch_mode(),
        ScrcpyLaunchMode::Foreground
    );
}

#[test]
fn stable_mode_enables_supervision_defaults() {
    let args = Args {
        stable: true,
        ..Args::default()
    };

    assert_eq!(args.scrcpy_launch_mode(), ScrcpyLaunchMode::Background);
    assert!(args.watch_enabled());
    assert!(args.keep_screen_awake_enabled());
    assert!(args.wifi_doctor_enabled());
}

#[test]
fn reconnect_endpoints_match_tracked_mdns_serial() {
    let services = [
        mdns_connect_service("adb-pixel-one", "192.168.68.59:36375"),
        mdns_connect_service("adb-pixel-two", "192.168.68.99:40222"),
    ];

    assert_eq!(
        reconnect_endpoints_from_services("adb-pixel-one._adb-tls-connect._tcp", &services),
        vec!["192.168.68.59:36375"]
    );
}

#[test]
fn reconnect_endpoints_do_not_fallback_for_unknown_mdns_serial() {
    let services = [
        mdns_connect_service("adb-pixel-one", "192.168.68.59:36375"),
        mdns_connect_service("adb-pixel-two", "192.168.68.99:40222"),
    ];

    assert_eq!(
        reconnect_endpoints_from_services("adb-missing._adb-tls-connect._tcp", &services),
        Vec::<String>::new()
    );
}

#[test]
fn reconnect_endpoints_still_match_ip_serial_by_host() {
    let services = [
        mdns_connect_service("adb-pixel-one", "192.168.68.59:36375"),
        mdns_connect_service("adb-pixel-two", "192.168.68.99:40222"),
    ];

    assert_eq!(
        reconnect_endpoints_from_services("192.168.68.59:40123", &services),
        vec!["192.168.68.59:36375"]
    );
}

#[test]
fn reconnect_endpoints_do_not_fallback_for_ip_serial_without_same_host() {
    let services = [
        mdns_connect_service("adb-pixel-one", "192.168.68.59:36375"),
        mdns_connect_service("adb-pixel-two", "192.168.68.99:40222"),
    ];

    assert_eq!(
        reconnect_endpoints_from_services("192.168.68.42:40123", &services),
        Vec::<String>::new()
    );
}

#[test]
fn strict_watch_match_rejects_unrelated_sole_new_device() {
    let devices = [adb_device("R5CT123ABC")];

    assert!(
        strict_ready_device_for_tracked_serial(&devices, "192.168.68.59:36375", &[]).is_none()
    );
}

#[test]
fn strict_watch_match_accepts_same_host_wireless_device() {
    let devices = [adb_device("192.168.68.59:40123")];

    let matched = strict_ready_device_for_tracked_serial(&devices, "192.168.68.59:36375", &[])
        .expect("same-host wireless serial should match tracked endpoint");

    assert_eq!(matched.serial, "192.168.68.59:40123");
}

#[test]
fn strict_watch_match_accepts_tracked_mdns_alias() {
    let service = mdns_connect_service("adb-pixel-one", "192.168.68.59:36375");
    let devices = [adb_device("adb-pixel-one._adb-tls-connect._tcp")];

    let matched = strict_ready_device_for_tracked_serial(
        &devices,
        "adb-pixel-one._adb-tls-connect._tcp",
        &[service],
    )
    .expect("matching mDNS serial should match tracked endpoint");

    assert_eq!(matched.serial, "adb-pixel-one._adb-tls-connect._tcp");
}

#[test]
fn connect_only_closes_without_scrcpy_menu() {
    let args = Args {
        connect_only: true,
        ..Args::default()
    };

    assert_eq!(args.scrcpy_launch_mode(), ScrcpyLaunchMode::Menu);
    assert_eq!(
        connected_phone_action(&args).unwrap(),
        ConnectedAction::Close
    );
    assert!(Args {
        connect_only: true,
        background: true,
        ..Args::default()
    }
    .has_conflicting_flags());
    assert!(Args {
        connect_only: true,
        stable: true,
        ..Args::default()
    }
    .has_conflicting_flags());
}

#[test]
fn scrcpy_actions_request_stay_awake_by_default() {
    let args = Args::default();

    assert!(should_request_stay_awake(
        &args,
        ConnectedAction::StartBackground
    ));
    assert!(should_request_stay_awake(
        &args,
        ConnectedAction::StartForeground
    ));
    assert!(!should_request_stay_awake(&args, ConnectedAction::Close));
}

#[test]
fn explicit_keep_screen_awake_applies_without_scrcpy() {
    let args = Args {
        keep_screen_awake: true,
        ..Args::default()
    };

    assert!(should_request_stay_awake(&args, ConnectedAction::Close));
}

#[test]
fn normalizes_keepalive_settings() {
    let args = Args {
        watch: true,
        keepalive_interval: 0,
        keepalive_failures: 0,
        ..Args::default()
    };

    assert_eq!(args.keepalive_interval(), 1);
    assert_eq!(args.keepalive_failures(), 1);
}

#[test]
fn builds_scrcpy_options_from_args() {
    let default_args = Args::default();
    assert_eq!(default_args.scrcpy_options(), ScrcpyOptions::default());

    let custom_args = Args {
        plain_window: true,
        always_on_top: true,
        window_title: "Ovi Pixel".to_string(),
        window_width: 443,
        window_height: 989,
        ..Args::default()
    };

    assert_eq!(
        custom_args.scrcpy_options(),
        ScrcpyOptions {
            borderless: false,
            always_on_top: true,
            window_title: "Ovi Pixel".to_string(),
            window_width: 443,
            window_height: 989,
            ..ScrcpyOptions::default()
        }
    );
}

#[test]
fn rejects_conflicting_scrcpy_launch_flags() {
    assert!(Args {
        background: true,
        foreground: true,
        ..Args::default()
    }
    .has_conflicting_flags());
    assert!(!Args {
        background: true,
        ..Args::default()
    }
    .has_conflicting_flags());
}

#[test]
fn validates_ipv4_endpoint_shape() {
    assert!(is_plausible_endpoint("192.168.68.54:42209"));
    assert!(is_plausible_endpoint("localhost:5555"));
    assert!(!is_plausible_endpoint("192.168.68.54"));
    assert!(!is_plausible_endpoint("192.168.68.54:notaport"));
    assert!(!is_plausible_endpoint("192.168.68.54:70000"));
    assert!(!is_plausible_endpoint("192.168.68.54:42209 extra"));
}

#[test]
fn startup_choice_follows_the_number_of_phones() {
    let phone = |s: &str| ConnectedPhone {
        serial: s.to_string(),
        display_name: format!("Phone {s}"),
    };
    assert!(matches!(
        startup_device_choice(&[], None),
        StartupDeviceChoice::PairNew
    ));
    let two = [phone("a"), phone("b")];
    assert_eq!(
        startup_menu_options(&two),
        vec!["Use Phone a", "Use Phone b", "Pair a new phone", "Close"]
    );
    match startup_device_choice(&two, Some(2)) {
        StartupDeviceChoice::Connected(p) => assert_eq!(p.serial, "b"),
        _ => panic!("expected the second phone"),
    }
    assert!(matches!(
        startup_device_choice(&two, Some(3)),
        StartupDeviceChoice::PairNew
    ));
    assert!(matches!(
        startup_device_choice(&two, Some(4)),
        StartupDeviceChoice::Close
    ));
}

#[test]
fn watch_mode_reconnects_after_enough_failed_keepalives() {
    assert_eq!(watch_keepalive_step(0, false, 2), (1, WatchStep::Failed { count: 1 }));
    assert_eq!(watch_keepalive_step(1, false, 2), (2, WatchStep::Reconnect { count: 2 }));
    assert_eq!(
        watch_keepalive_step(2, true, 2),
        (0, WatchStep::Alive { recovered: true })
    );
}

#[test]
fn device_serial_option_needs_the_exact_ready_serial() {
    let mut offline = adb_device("192.168.1.20:5555");
    offline.state = DeviceState::Offline;
    let devices = vec![
        adb_device("192.168.1.20:41000"),
        offline,
        adb_device("emulator-5554"),
    ];

    assert_eq!(
        ready_device_with_serial(&devices, "emulator-5554").map(|d| d.serial),
        Some("emulator-5554".to_string())
    );
    assert_eq!(ready_device_with_serial(&devices, "192.168.1.20:5555"), None);
    assert_eq!(ready_device_with_serial(&devices, "192.168.1.20"), None);
}

#[test]
fn startup_selections_past_pairing_close() {
    let two = vec![
        ConnectedPhone { serial: "a".to_string(), display_name: "A".to_string() },
        ConnectedPhone { serial: "b".to_string(), display_name: "B".to_string() },
    ];
    assert_eq!(startup_device_choice(&two, Some(9)), StartupDeviceChoice::Close);
}
