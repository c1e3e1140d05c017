use awb_core::wifi::{
    ensure_pairing_wifi_ready, parse_airport_network, parse_airport_power,
    parse_ifconfig_ipv4_address, parse_ifconfig_link_active, parse_ipconfig_ipv4_address,
    parse_wifi_device, wifi_connected, wifi_state, MacWifiState,
};

#[test]
fn parses_wifi_device_from_networksetup_ports() {
    let output = r#"
Hardware Port: AX88179A
Device: en11
Ethernet Address: 9c:69:d3:22:c1:a3

Hardware Port: Wi-Fi
Device: en0
Ethernet Address: f4:d4:88:8e:e3:ea
"#;

    assert_eq!(parse_wifi_device(output).as_deref(), Some("en0"));
}

#[test]
fn parses_airport_power() {
    assert!(parse_airport_power("Wi-Fi Power (en0): On"));
    assert!(!parse_airport_power("Wi-Fi Power (en0): Off"));
}

#[test]
fn parses_current_network() {
    assert_eq!(
        parse_airport_network("Current Wi-Fi Network: Synonym").as_deref(),
        Some("Synonym")
    );
    assert_eq!(
        parse_airport_network("You are not associated with an AirPort network.").as_deref(),
        None
    );
}

#[test]
fn parses_active_ifconfig_wifi_link() {
    let output = r#"
en0: flags=8863<UP,BROADCAST,SMART,RUNNING,SIMPLEX,MULTICAST> mtu 1500
	inet6 fe80::8f2:48e4:ce41:f191%en0 prefixlen 64 secured scopeid 0xe
	inet 192.168.68.59 netmask 0xfffffc00 broadcast 192.168.71.255
	status: active
"#;

    assert!(parse_ifconfig_link_active(output));
    assert_eq!(
        parse_ifconfig_ipv4_address(output).as_deref(),
        Some("192.168.68.59")
    );
}

#[test]
fn ignores_self_assigned_ifconfig_ipv4_address() {
    let output = r#"
en0: flags=8863<UP,BROADCAST,SMART,RUNNING,SIMPLEX,MULTICAST> mtu 1500
	inet 169.254.7.11 netmask 0xffff0000 broadcast 169.254.255.255
	status: active
"#;

    assert_eq!(parse_ifconfig_ipv4_address(output), None);
}

#[test]
fn parses_ipconfig_ipv4_address() {
    assert_eq!(
        parse_ipconfig_ipv4_address("192.168.68.59\n").as_deref(),
        Some("192.168.68.59")
    );
    assert_eq!(parse_ipconfig_ipv4_address("169.254.7.11\n"), None);
}

#[test]
fn treats_active_wifi_with_usable_ipv4_as_connected_without_ssid() {
    assert!(wifi_connected(None, true, Some("192.168.68.59")));
}

#[test]
fn treats_inactive_wifi_without_ssid_as_disconnected() {
    assert!(!wifi_connected(None, false, None));
    assert!(!wifi_connected(None, true, Some("169.254.7.11")));
    assert!(wifi_connected(Some("Synonym"), false, None));
}

#[test]
fn pairing_needs_wifi_powered_and_connected() {
    let state = wifi_state(
        "en0".to_string(),
        "\tstatus: inactive\n",
        None,
        Some("Wi-Fi Power (en0): Off"),
        None,
    );
    assert_eq!(
        state,
        MacWifiState {
            device: "en0".to_string(),
            power_on: false,
            network: None,
            link_active: false,
            ipv4_address: None,
        }
    );
    assert!(ensure_pairing_wifi_ready(&state)
        .unwrap_err()
        .starts_with("Wi-Fi is off on this Mac."));

    let on = MacWifiState {
        power_on: true,
        ..state.clone()
    };
    assert_eq!(
        ensure_pairing_wifi_ready(&on).unwrap_err(),
        "Wi-Fi is not connected on this Mac (en0). QR pairing needs the Mac and phone on the same Wi-Fi network. Join the phone's Wi-Fi network, then try again."
    );

    let joined = wifi_state(
        "en0".to_string(),
        "",
        Some("10.1.2.3\n"),
        None,
        Some("Current Wi-Fi Network: Lab"),
    );
    assert!(!joined.power_on);
    assert_eq!(joined.ipv4_address.as_deref(), Some("10.1.2.3"));
    assert_eq!(joined.network.as_deref(), Some("Lab"));
}
