use awb_core::adb::{AdbDevice, DeviceState};
use awb_core::connect_steps::{
    already_connected, pair_and_connect, ready_devices_notice, verify_timeout, ConnectWait,
    PairingWait, ReadyWait, WaitCommand,
};
use awb_core::pairing::PairingEndpointDiscovery;
use awb_core::pairing_flow::{AlreadyConnectedChoice, ConnectedPhone, PairingProgressKind};
use awb_core::pairing_steps::{PairAttempts, PairCommand, PairingEvent};
use awb_core::qr::PairingQr;

fn endpoints() -> Vec<String> {
    vec!["10.0.0.2:1".to_string(), "10.0.0.3:2".to_string()]
}

#[test]
fn pairing_tries_each_endpoint_then_retries_after_a_pause() {
    let (mut s, events, cmd) = PairAttempts::start(endpoints(), 0);
    assert_eq!(cmd, PairCommand::Pair("10.0.0.2:1".to_string()));
    assert_eq!(
        events[0],
        PairingEvent::Success("Phone found. Completing ADB pairing...".to_string())
    );
    match &events[1] {
        PairingEvent::Progress(p) => {
            assert_eq!(p.kind, PairingProgressKind::CompletingPairing);
            assert_eq!(p.attempt, Some(1));
            assert_eq!(p.deadline, Some(30_000));
        }
        other => panic!("unexpected {other:?}"),
    }
    assert_eq!(
        events[2],
        PairingEvent::Status("Pairing with 10.0.0.2:1...".to_string())
    );

    let (events, cmd) = s.on_pair_result(Err("Connection refused".to_string()), 10);
    assert_eq!(cmd, PairCommand::Pair("10.0.0.3:2".to_string()));
    assert_eq!(
        events[0],
        PairingEvent::Warning("Pairing endpoint 10.0.0.2:1 failed: Connection refused".to_string())
    );
    assert_eq!(s.attempt, 2);

    let (_, cmd) = s.on_pair_result(Err("connection refused".to_string()), 20);
    assert_eq!(cmd, PairCommand::Sleep(800));
    let (_, cmd) = s.on_slept(29_500);
    assert_eq!(cmd, PairCommand::Pair("10.0.0.2:1".to_string()));
    let (events, cmd) = s.on_pair_result(Ok(()), 29_600);
    assert_eq!(cmd, PairCommand::Finish(Ok("10.0.0.2:1".to_string())));
    assert_eq!(
        events,
        vec![PairingEvent::Success("Pairing succeeded with 10.0.0.2:1.".to_string())]
    );
}

#[test]
fn pairing_gives_up_when_no_failure_is_retryable() {
    let (mut s, _, _) = PairAttempts::start(vec!["10.0.0.2:1".to_string()], 0);
    let (_, cmd) = s.on_pair_result(Err("wrong pairing code".to_string()), 5);
    assert_eq!(
        cmd,
        PairCommand::Finish(Err(
            "failed to pair with any discovered endpoint; last error: wrong pairing code"
                .to_string()
        ))
    );
    let (_, _, cmd) = PairAttempts::start(Vec::new(), 0);
    assert_eq!(
        cmd,
        PairCommand::Finish(Err("failed to pair with any discovered endpoint".to_string()))
    );
}

#[test]
fn protocol_faults_restart_adb_once() {
    let fault = "error: protocol fault (no status)".to_string();
    let (mut s, _, _) = PairAttempts::start(endpoints(), 0);
    let (_, cmd) = s.on_pair_result(Err(fault.clone()), 5);
    assert_eq!(cmd, PairCommand::ResetServer);
    assert!(s.reset_done);
    let (_, cmd) = s.on_reset_result(Ok(()));
    assert_eq!(cmd, PairCommand::Sleep(1000));
    let (_, cmd) = s.on_slept(1_010);
    assert_eq!(cmd, PairCommand::Pair("10.0.0.2:1".to_string()));
    let (_, cmd) = s.on_pair_result(Err(fault.clone()), 1_020);
    match cmd {
        PairCommand::Finish(Err(m)) => assert!(m.contains("ADB was restarted once")),
        other => panic!("unexpected {other:?}"),
    }

    let (mut t, _, _) = PairAttempts::start(endpoints(), 0);
    t.on_pair_result(Err(fault.clone()), 5);
    let (_, cmd) = t.on_reset_result(Err("kill failed".to_string()));
    assert_eq!(
        cmd,
        PairCommand::Finish(Err(format!(
            "failed to pair with any discovered endpoint; last error: {fault}; additionally failed to restart ADB: kill failed"
        )))
    );
}

#[test]
fn waiting_for_the_scan_reports_errors_once_and_times_out() {
    let mut wait = PairingWait::new("studio-x".to_string(), 0, 1_000);
    let nothing = PairingEndpointDiscovery {
        endpoints: Vec::new(),
        adb_error: Some("adb broke".to_string()),
        bonjour_error: None,
    };
    let (events, cmd) = wait.on_discovery(&nothing, 100);
    assert_eq!(
        events,
        vec![PairingEvent::Warning("adb mDNS lookup failed: adb broke".to_string())]
    );
    assert_eq!(cmd, WaitCommand::Sleep(500));
    let (events, cmd) = wait.on_discovery(&nothing, 1_000);
    assert!(events.is_empty());
    assert_eq!(
        cmd,
        WaitCommand::TimedOut(
            "timed out waiting for the phone to advertise the QR pairing service `studio-x`"
                .to_string()
        )
    );
    assert!(wait.direct_check_notice().is_some());
    assert!(wait.direct_check_notice().is_none());

    let found = PairingEndpointDiscovery {
        endpoints: vec!["10.0.0.2:1".to_string(), "10.0.0.3:1".to_string()],
        adb_error: None,
        bonjour_error: None,
    };
    let (events, cmd) = wait.on_discovery(&found, 50);
    assert_eq!(
        events,
        vec![PairingEvent::Success(
            "Phone found at candidate endpoint(s): 10.0.0.2:1, 10.0.0.3:1.".to_string()
        )]
    );
    assert_eq!(cmd, WaitCommand::Found(found.endpoints.clone()));
}

#[test]
fn already_connected_phones_can_skip_the_scan() {
    let phones = vec![ConnectedPhone {
        serial: "R5CT".to_string(),
        display_name: "Pixel".to_string(),
    }];
    let (phone, event) = already_connected(&phones, AlreadyConnectedChoice::Use(0)).unwrap();
    assert_eq!(phone, phones[0]);
    assert_eq!(
        event,
        PairingEvent::Success("ADB already sees Pixel; skipping QR scan.".to_string())
    );
    assert!(already_connected(&phones, AlreadyConnectedChoice::Use(1)).is_none());
    assert!(already_connected(&phones, AlreadyConnectedChoice::KeepWaiting).is_none());
}

#[test]
fn connecting_announces_endpoints_once_and_tracks_the_reported_serial() {
    let mut wait = ConnectWait::new("10.0.0.2:37000".to_string(), Vec::new(), Vec::new(), 0, 60_000);
    let events = wait.begin_connect("10.0.0.2:40000");
    assert_eq!(events.len(), 3);
    assert_eq!(
        events[2],
        PairingEvent::Status("Attempt 1: adb connect 10.0.0.2:40000".to_string())
    );
    let events = wait.begin_connect("10.0.0.2:40000");
    assert_eq!(events.len(), 2);
    wait.on_connect_ok("10.0.0.2:40000", "already connected to 10.0.0.2:40001\n");
    assert_eq!(wait.expected_serial, "10.0.0.2:40001");
    assert!(wait.on_connect_err("10.0.0.9:1", "refused").is_some());
    assert!(wait.on_connect_err("10.0.0.9:1", "refused").is_none());
    assert!(wait.needs_fallbacks());
    assert!(wait.take_bonjour_check(true, 1_000));
    assert!(!wait.take_bonjour_check(true, 5_000));
    assert!(wait.take_bonjour_check(true, 11_000));
    assert!(!wait.take_bonjour_check(false, 30_000));
    assert!(wait.candidates_notice("a", false).is_some());
    assert!(wait.candidates_notice("a", false).is_none());
}

#[test]
fn ready_device_waits_end_at_the_deadline() {
    let wait = ReadyWait::new("10.0.0.2:40001".to_string(), 0, 8_000);
    assert_eq!(wait.on_missing(7_000), Ok(1_000));
    assert_eq!(
        wait.on_missing(8_000).unwrap_err(),
        "timed out waiting for 10.0.0.2:40001 to appear in adb devices"
    );
    assert_eq!(verify_timeout(500), 1_000);
    assert_eq!(verify_timeout(20_000), 8_000);
    let device = AdbDevice {
        serial: "x".to_string(),
        state: DeviceState::Device,
        product: None,
        model: None,
        device: None,
        transport_id: None,
    };
    assert_eq!(
        ready_devices_notice(&[device.clone(), device]),
        Some(PairingEvent::Status(
            "ADB sees 2 ready device(s), but not the just-paired phone yet.".to_string()
        ))
    );
}

#[test]
fn pairing_opens_with_instructions_and_the_code() {
    let qr = PairingQr::with_secret("x".to_string(), "secret".to_string());
    let events = pair_and_connect(Ok(()), qr.clone()).unwrap();
    assert_eq!(events.len(), 2);
    assert_eq!(events[1], PairingEvent::QrReady(qr.clone()));
    assert_eq!(
        pair_and_connect(Err("Wi-Fi is off".to_string()), qr).unwrap_err(),
        "Wi-Fi is off"
    );
}
