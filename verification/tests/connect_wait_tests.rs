use awb_core::adb::{AdbDevice, DeviceState, MdnsService};
use awb_core::connect_steps::{opening_step, screen_endpoints_to_try, ConnectAction, ConnectInput, ConnectWait, OpeningAction};
use awb_core::pairing_steps::PairingEvent;

fn ready(serial: &str) -> AdbDevice {
    AdbDevice {
        serial: serial.to_string(),
        state: DeviceState::Device,
        product: None,
        model: Some("Pixel_10_Pro".to_string()),
        device: None,
        transport_id: None,
    }
}

fn connect_service(instance: &str, address: &str) -> MdnsService {
    MdnsService {
        instance: instance.to_string(),
        service_type: "_adb-tls-connect._tcp".to_string(),
        address: address.to_string(),
    }
}

fn wait() -> ConnectWait {
    ConnectWait::new("10.0.0.2:37000".to_string(), Vec::new(), Vec::new(), 0, 60_000)
}

#[test]
fn each_round_starts_with_a_snapshot() {
    let mut w = wait();
    let (events, action) = w.step(ConnectInput::NextRound);
    assert_eq!(action, ConnectAction::Snapshot);
    assert_eq!(events.len(), 1);
    assert!(matches!(events[0], PairingEvent::Progress(_)));
}

#[test]
fn a_ready_phone_on_the_pairing_host_ends_the_wait() {
    let mut w = wait();
    w.step(ConnectInput::NextRound);
    let (events, action) = w.step(ConnectInput::Round {
        devices: vec![ready("10.0.0.2:41000")],
        services: Ok(Vec::new()),
        now: 1,
    });
    assert_eq!(action, ConnectAction::Done(ready("10.0.0.2:41000")));
    assert_eq!(
        events,
        vec![PairingEvent::Success("ADB device is ready: 10.0.0.2:41000 Pixel 10 Pro".to_string())]
    );
}

#[test]
fn without_candidates_bonjour_is_checked_then_the_wait_pauses() {
    let mut w = wait();
    w.step(ConnectInput::NextRound);
    let (events, action) = w.step(ConnectInput::Round {
        devices: Vec::new(),
        services: Err("mdns down".to_string()),
        now: 1_000,
    });
    assert_eq!(action, ConnectAction::TryBonjour);
    assert_eq!(
        events,
        vec![
            PairingEvent::Warning("adb mDNS connect lookup failed: mdns down".to_string()),
            PairingEvent::Status("Waiting for the phone to advertise its connection endpoint...".to_string()),
        ]
    );
    let (events, action) = w.step(ConnectInput::Fallback { device: None, now: 2_000 });
    assert!(events.is_empty());
    assert_eq!(action, ConnectAction::Sleep(2_000));

    // Within ten seconds Bonjour is not checked again, and the error is not repeated.
    w.step(ConnectInput::NextRound);
    let (events, action) = w.step(ConnectInput::Round {
        devices: Vec::new(),
        services: Err("mdns down".to_string()),
        now: 5_000,
    });
    assert!(events.is_empty());
    assert_eq!(action, ConnectAction::Sleep(2_000));
}

#[test]
fn a_connected_candidate_ends_the_wait() {
    let mut w = wait();
    w.step(ConnectInput::NextRound);
    let services = vec![connect_service("adb-X", "10.0.0.2:40000")];
    let (events, action) = w.step(ConnectInput::Round { devices: Vec::new(), services: Ok(services), now: 1 });
    assert_eq!(action, ConnectAction::Connect("10.0.0.2:40000".to_string()));
    assert_eq!(events[0], PairingEvent::Status("Connect endpoint candidate(s): 10.0.0.2:40000".to_string()));
    assert_eq!(events[1], PairingEvent::Status("Connecting to 10.0.0.2:40000...".to_string()));
    assert_eq!(events[3], PairingEvent::Status("Attempt 1: adb connect 10.0.0.2:40000".to_string()));
    let (_, action) = w.step(ConnectInput::ConnectResult {
        result: Ok("connected to 10.0.0.2:40000".to_string()),
        devices: vec![ready("10.0.0.2:40000")],
        now: 2,
    });
    assert_eq!(action, ConnectAction::Done(ready("10.0.0.2:40000")));
}

#[test]
fn failed_connects_fall_back_then_ask_at_the_deadline() {
    let mut w = wait();
    w.step(ConnectInput::NextRound);
    let services = vec![connect_service("adb-X", "10.0.0.2:40000")];
    w.step(ConnectInput::Round { devices: Vec::new(), services: Ok(services), now: 1 });
    let (events, action) = w.step(ConnectInput::ConnectResult {
        result: Err("refused".to_string()),
        devices: Vec::new(),
        now: 2,
    });
    assert_eq!(events, vec![PairingEvent::Warning("ADB mDNS endpoint 10.0.0.2:40000 failed: refused".to_string())]);
    assert_eq!(action, ConnectAction::TryBonjour);
    let (_, action) = w.step(ConnectInput::Fallback { device: None, now: 3 });
    assert_eq!(action, ConnectAction::TryScreen);
    let (_, action) = w.step(ConnectInput::Fallback { device: None, now: 60_000 });
    assert_eq!(action, ConnectAction::TryScreen);
    let (events, action) = w.step(ConnectInput::Fallback { device: None, now: 60_001 });
    assert_eq!(action, ConnectAction::AskManual);
    assert_eq!(
        events,
        vec![PairingEvent::Warning(
            "Automatic discovery timed out before finding a connectable wireless debugging endpoint.".to_string()
        )]
    );
    let (_, action) = w.step(ConnectInput::Manual(None));
    assert_eq!(action, ConnectAction::Fail("paired, but no connectable endpoint was found".to_string()));
}

#[test]
fn the_manual_endpoint_is_connected_and_its_result_ends_the_wait() {
    let mut w = wait();
    w.step(ConnectInput::NextRound);
    w.step(ConnectInput::Round { devices: Vec::new(), services: Ok(Vec::new()), now: 61_000 });
    // Bonjour first (no candidates), then the deadline: the screen, then the question.
    assert_eq!(w.step(ConnectInput::Fallback { device: None, now: 61_000 }).1, ConnectAction::TryScreen);
    assert_eq!(w.step(ConnectInput::Fallback { device: None, now: 61_000 }).1, ConnectAction::AskManual);
    let (_, action) = w.step(ConnectInput::Manual(Some("10.0.0.2:5555".to_string())));
    assert_eq!(action, ConnectAction::ConnectManual("10.0.0.2:5555".to_string()));
    let (_, action) = w.step(ConnectInput::ManualResult(Err("timed out waiting".to_string())));
    assert_eq!(action, ConnectAction::Fail("timed out waiting".to_string()));
}

#[test]
fn a_device_that_is_not_ready_does_not_end_the_wait() {
    let mut w = wait();
    w.step(ConnectInput::NextRound);
    w.step(ConnectInput::Round { devices: Vec::new(), services: Ok(Vec::new()), now: 1 });
    let mut offline = ready("10.0.0.2:41000");
    offline.state = DeviceState::Offline;
    let (_, action) = w.step(ConnectInput::Fallback { device: Some(offline), now: 2 });
    assert_eq!(action, ConnectAction::Sleep(2_000));
}

#[test]
fn pairing_checks_wifi_before_anything_else() {
    assert_eq!(opening_step(None), OpeningAction::CheckWifi);
    assert_eq!(
        opening_step(Some(Err("Wi-Fi is off".to_string()))),
        OpeningAction::Stop("Wi-Fi is off".to_string())
    );
    assert_eq!(opening_step(Some(Ok(()))), OpeningAction::ReadBaselines);
}

#[test]
fn each_screen_endpoint_is_tried_once() {
    let mut tried = Vec::new();
    let first = screen_endpoints_to_try(&mut tried, vec!["10.0.0.2:5555".to_string(), "10.0.0.3:5555".to_string()]);
    assert_eq!(first, vec!["10.0.0.2:5555".to_string(), "10.0.0.3:5555".to_string()]);
    let second = screen_endpoints_to_try(&mut tried, vec!["10.0.0.3:5555".to_string(), "10.0.0.4:5555".to_string()]);
    assert_eq!(second, vec!["10.0.0.4:5555".to_string()]);
    assert_eq!(tried.len(), 3);
}
