use awb_core::adb::MdnsService;
use awb_core::connect_steps::WaitCommand;
use awb_core::desktop::{resolved_appearance, Appearance, DeviceInfo, Snapshot, ThemeMode, ToolInfo};
use awb_core::menu_bar::{
    auto_mirror_starts, clock_text, connect_after_pairing_endpoints, pairing_endpoints_step,
    pairing_progress_meta, parse_utc_offset, ready_device_mirror_keys, MirrorBook, PairPasses,
    PassCommand, StartAction, start_pairing_session, set_pairing_phase, finish_pairing_session,
    cancel_pairing_session, PairingPhase, PairingSession, PairingStart,
};
use awb_core::pairing_flow::{PairingProgress, PairingProgressKind};

fn strings(values: &[&str]) -> Vec<String> {
    values.iter().map(|value| value.to_string()).collect()
}

fn device(key: &str, ready: bool, is_emulator: bool) -> DeviceInfo {
    DeviceInfo {
        serial: key.to_string(),
        mirror_key: key.to_string(),
        name: key.to_string(),
        ready,
        state: if ready { "device" } else { "offline" }.to_string(),
        is_emulator,
    }
}

fn snapshot(devices: Vec<DeviceInfo>, scrcpy_available: bool) -> Snapshot {
    Snapshot {
        adb: ToolInfo { available: true, detail: "Android Debug Bridge version 1.0.41".to_string() },
        scrcpy: ToolInfo { available: scrcpy_available, detail: "/opt/homebrew/bin/scrcpy".to_string() },
        devices,
    }
}

#[test]
fn clock_shows_the_local_time_of_day() {
    // 2024-01-01 00:00:00 UTC is 1704067200.
    assert_eq!(clock_text(1_704_067_200, 0), "00:00:00");
    assert_eq!(clock_text(1_704_067_200 + 3_723, 0), "01:02:03");
    assert_eq!(clock_text(1_704_067_200, 7_200), "02:00:00");
    assert_eq!(clock_text(1_704_067_200, -3_600), "23:00:00");
    assert_eq!(clock_text(59, -60), "23:59:59");
    assert_eq!(clock_text(0, -86_400 * 3), "00:00:00");
}

#[test]
fn utc_offset_reads_date_output() {
    assert_eq!(parse_utc_offset("+0200\n"), Some(7_200));
    assert_eq!(parse_utc_offset("-0530"), Some(-19_800));
    assert_eq!(parse_utc_offset("+0000"), Some(0));
    assert_eq!(parse_utc_offset("+02"), None);
    assert_eq!(parse_utc_offset("+0x00"), None);
    assert_eq!(parse_utc_offset("0200"), None);
}

#[test]
fn pairing_progress_meta_counts_started_seconds() {
    let progress = PairingProgress::new(
        PairingProgressKind::CompletingPairing,
        "Completing ADB pairing".to_string(),
        String::new(),
    );
    assert_eq!(pairing_progress_meta(&progress, 0), "");
    let timed = progress.clone().deadline(10_000);
    assert_eq!(pairing_progress_meta(&timed, 8_500), "2s remaining");
    assert_eq!(pairing_progress_meta(&timed, 8_000), "2s remaining");
    assert_eq!(pairing_progress_meta(&timed, 12_000), "0s remaining");
    assert_eq!(pairing_progress_meta(&timed.clone().attempt(3), 9_999), "1s remaining · attempt 3");
    assert_eq!(pairing_progress_meta(&progress.attempt(2), 0), "attempt 2");
}

#[test]
fn ready_mirror_keys_skip_offline_rows() {
    let devices = vec![device("a", true, false), device("b", false, false), device("c", true, true)];
    assert_eq!(ready_device_mirror_keys(&devices), strings(&["a", "c"]));
}

#[test]
fn auto_mirror_starts_each_connected_phone_once() {
    let snap = Some(snapshot(
        vec![
            device("phone", true, false),
            device("emulator-5554", true, true),
            device("offline", false, false),
            device("busy", true, false),
        ],
        true,
    ));
    let mirroring = strings(&["busy"]);
    let mut remembered = Vec::new();

    let first = auto_mirror_starts(true, &snap, &mirroring, &mut remembered);
    assert_eq!(first.iter().map(|d| d.mirror_key.as_str()).collect::<Vec<_>>(), vec!["phone"]);
    assert_eq!(remembered, strings(&["phone"]));

    let second = auto_mirror_starts(true, &snap, &mirroring, &mut remembered);
    assert!(second.is_empty());
    assert_eq!(remembered, strings(&["phone"]));

    // The phone leaves, then comes back: it is mirrored again.
    let gone = Some(snapshot(vec![device("phone", false, false)], true));
    assert!(auto_mirror_starts(true, &gone, &[], &mut remembered).is_empty());
    assert!(remembered.is_empty());
    assert_eq!(auto_mirror_starts(true, &snap, &mirroring, &mut remembered).len(), 1);
}

#[test]
fn auto_mirror_waits_for_scrcpy_and_forgets_when_off() {
    let mut remembered = strings(&["phone"]);
    let without_scrcpy = Some(snapshot(vec![device("other", true, false)], false));
    assert!(auto_mirror_starts(true, &without_scrcpy, &[], &mut remembered).is_empty());
    assert_eq!(remembered, strings(&["phone"]));
    assert!(auto_mirror_starts(true, &None, &[], &mut remembered).is_empty());
    assert_eq!(remembered, strings(&["phone"]));
    assert!(auto_mirror_starts(false, &without_scrcpy, &[], &mut remembered).is_empty());
    assert!(remembered.is_empty());
}

#[test]
fn mirror_book_tracks_a_started_mirror() {
    let mut book = MirrorBook::new();
    assert!(book.begin_start("phone"));
    assert!(!book.begin_start("phone"));
    assert!(book.is_mirroring("phone"));
    assert_eq!(
        book.finish_start("phone", "Pixel 10 Pro", Ok(4242)),
        (StartAction::Track, Some("Mirroring Pixel 10 Pro (pid 4242)".to_string()))
    );
    assert_eq!(book.running(), strings(&["phone"]));
    assert!(!book.begin_start("phone"));
    assert_eq!(book.stop("phone"), (true, Some("Stopped mirror of phone".to_string())));
    assert_eq!(book.stop("phone"), (false, None));
    assert!(book.running().is_empty());
}

#[test]
fn mirror_book_stops_a_cancelled_start() {
    let mut book = MirrorBook::new();
    assert!(book.begin_start("phone"));
    assert_eq!(book.stop("phone"), (false, Some("Cancelled mirror start for phone".to_string())));
    assert_eq!(
        book.finish_start("phone", "Pixel", Ok(7)),
        (StartAction::Stop, Some("Cancelled mirror start for Pixel".to_string()))
    );
    assert!(book.running().is_empty());
}

#[test]
fn mirror_book_reports_failures_only_while_wanted() {
    let mut book = MirrorBook::new();
    assert!(book.begin_start("phone"));
    assert_eq!(
        book.finish_start("phone", "Pixel", Err("failed to start scrcpy: not found".to_string())),
        (StartAction::Nothing, Some("Mirror failed: failed to start scrcpy: not found".to_string()))
    );
    assert_eq!(book.finish_start("phone", "Pixel", Err("late".to_string())), (StartAction::Nothing, None));
}

#[test]
fn mirror_book_reaps_and_stops_all() {
    let mut book = MirrorBook::new();
    for key in ["a", "b", "c"] {
        assert!(book.begin_start(key));
        assert_eq!(book.finish_start(key, key, Ok(1)).0, StartAction::Track);
    }
    assert!(book.begin_start("d"));
    assert_eq!(book.reap(&strings(&["b", "zz"])), strings(&["Mirror of b ended"]));
    assert_eq!(book.running(), strings(&["a", "c"]));
    assert_eq!(book.stop_all(), strings(&["a", "c"]));
    assert!(!book.is_mirroring("d"));
    assert!(book.running().is_empty());
}

#[test]
fn menu_bar_pairing_waits_for_a_scan() {
    assert_eq!(
        pairing_endpoints_step(strings(&["192.168.1.20:37000"]), 5, 10),
        WaitCommand::Found(strings(&["192.168.1.20:37000"]))
    );
    assert_eq!(pairing_endpoints_step(Vec::new(), 5, 10), WaitCommand::Sleep(400));
    assert_eq!(
        pairing_endpoints_step(Vec::new(), 10, 10),
        WaitCommand::TimedOut("no QR scan detected".to_string())
    );
}

#[test]
fn menu_bar_pairing_retries_a_refused_endpoint() {
    let (mut passes, step) = PairPasses::start(strings(&["10.0.0.2:40000", "10.0.0.2:40001"]), 1_000);
    assert_eq!(step.label.as_deref(), Some("Pairing with your phone..."));
    assert_eq!(step.logs, strings(&["Pairing with endpoint 10.0.0.2:40000"]));
    assert_eq!(step.command, PassCommand::Pair("10.0.0.2:40000".to_string()));

    let step = passes.on_pair_result(Err("error: connection refused".to_string()), 2_000);
    assert_eq!(
        step.logs,
        strings(&[
            "Pairing endpoint 10.0.0.2:40000 failed: error: connection refused",
            "Pairing with endpoint 10.0.0.2:40001",
        ])
    );
    assert_eq!(step.command, PassCommand::Pair("10.0.0.2:40001".to_string()));

    let step = passes.on_pair_result(Err("protocol fault".to_string()), 3_000);
    assert_eq!(step.label.as_deref(), Some("Pairing with your phone... retrying"));
    assert_eq!(step.command, PassCommand::Sleep(800));

    let step = passes.on_slept(4_000);
    assert_eq!(step.label.as_deref(), Some("Pairing with your phone..."));
    assert_eq!(step.command, PassCommand::Pair("10.0.0.2:40000".to_string()));
    let step = passes.on_pair_result(Ok(()), 5_000);
    assert_eq!(step.command, PassCommand::Finish(Ok("10.0.0.2:40000".to_string())));
}

#[test]
fn menu_bar_pairing_gives_up_without_retryable_failures() {
    let (mut passes, _) = PairPasses::start(strings(&["10.0.0.2:40000"]), 0);
    let step = passes.on_pair_result(Err("wrong password".to_string()), 1);
    assert_eq!(
        step.command,
        PassCommand::Finish(Err(
            "failed to pair with any discovered endpoint; last error: wrong password".to_string()
        ))
    );
    let (_, step) = PairPasses::start(Vec::new(), 0);
    assert_eq!(
        step.command,
        PassCommand::Finish(Err("failed to pair with any discovered endpoint".to_string()))
    );
}

#[test]
fn menu_bar_pairing_stops_retrying_at_the_deadline() {
    let (mut passes, _) = PairPasses::start(strings(&["10.0.0.2:40000"]), 0);
    let step = passes.on_pair_result(Err("connection refused".to_string()), 30_000);
    assert_eq!(
        step.command,
        PassCommand::Finish(Err(
            "failed to pair with any discovered endpoint; last error: connection refused".to_string()
        ))
    );
}

#[test]
fn connecting_after_pairing_adds_bonjour_endpoints_on_the_pairing_host() {
    let candidates = vec![MdnsService {
        instance: "adb-XYZ".to_string(),
        service_type: "_adb-tls-connect._tcp".to_string(),
        address: "192.168.1.20:41000".to_string(),
    }];
    let found = strings(&["192.168.1.20:41000", "192.168.1.21:42000", "192.168.1.20:43000"]);
    assert_eq!(
        connect_after_pairing_endpoints(&candidates, Some(found), "192.168.1.20:37000"),
        strings(&["192.168.1.20:41000", "192.168.1.20:43000"])
    );
    assert_eq!(
        connect_after_pairing_endpoints(&candidates, None, "192.168.1.20:37000"),
        strings(&["192.168.1.20:41000"])
    );
}

#[test]
fn pairing_panel_follows_the_worker() {
    let (start, line) = start_pairing_session(Err("Wi-Fi is off".to_string()), Ok(()), "ovi-m1");
    assert_eq!(
        start,
        PairingStart::Blocked(PairingSession { phase: PairingPhase::Failed { message: "Wi-Fi is off".to_string() } })
    );
    assert_eq!(line, "Pairing blocked: Wi-Fi is off");

    let (start, line) = start_pairing_session(Ok(()), Err("data too long".to_string()), "ovi-m1");
    assert_eq!(start, PairingStart::QrFailed);
    assert_eq!(line, "QR generation failed: data too long");

    let (start, line) = start_pairing_session(Ok(()), Ok(()), "ovi-m1");
    assert_eq!(line, "Pairing started (ovi-m1)");
    let mut session = match start {
        PairingStart::Started(session) => Some(session),
        other => panic!("unexpected start {other:?}"),
    };
    assert_eq!(session, Some(PairingSession { phase: PairingPhase::Qr }));

    set_pairing_phase(&mut session, PairingPhase::Connecting { label: "Connecting…".to_string() });
    assert_eq!(
        session,
        Some(PairingSession { phase: PairingPhase::Connecting { label: "Connecting…".to_string() } })
    );

    assert_eq!(finish_pairing_session(&mut session, true, Ok("Pixel".to_string())), None);
    assert!(session.is_some());
    assert_eq!(
        finish_pairing_session(&mut session, false, Err("no QR scan detected".to_string())),
        Some("Pairing failed: no QR scan detected".to_string())
    );
    assert_eq!(
        session,
        Some(PairingSession { phase: PairingPhase::Failed { message: "no QR scan detected".to_string() } })
    );
    assert_eq!(
        finish_pairing_session(&mut session, false, Ok("Pixel 10 Pro".to_string())),
        Some("Paired and connected to Pixel 10 Pro".to_string())
    );
    assert_eq!(session, None);
}

#[test]
fn cancelling_closes_the_pairing_panel() {
    let mut session = Some(PairingSession { phase: PairingPhase::Qr });
    assert_eq!(cancel_pairing_session(&mut session), Some("Pairing cancelled".to_string()));
    assert_eq!(session, None);
    assert_eq!(cancel_pairing_session(&mut session), None);
    set_pairing_phase(&mut session, PairingPhase::Qr);
    assert_eq!(session, None);
}

#[test]
fn automatic_theme_follows_the_system() {
    // `Some(true)`: the system reports a light appearance; `Some(false)`: dark.
    assert_eq!(resolved_appearance(ThemeMode::Auto, Some(true)), Appearance::Day);
    assert_eq!(resolved_appearance(ThemeMode::Auto, Some(false)), Appearance::Night);
}

#[test]
fn explicit_theme_overrides_the_system() {
    assert_eq!(resolved_appearance(ThemeMode::Day, Some(false)), Appearance::Day);
    assert_eq!(resolved_appearance(ThemeMode::Night, Some(true)), Appearance::Night);
}

#[test]
fn automatic_theme_falls_back_to_night_when_unknown() {
    assert_eq!(resolved_appearance(ThemeMode::Auto, None), Appearance::Night);
}

#[test]
fn ready_mirror_keys_ignore_offline_devices() {
    let devices = [
        device("adb-ready._adb-tls-connect._tcp", true, false),
        device("adb-offline._adb-tls-connect._tcp", false, false),
    ];

    let keys = ready_device_mirror_keys(&devices);

    assert!(keys.contains(&"adb-ready._adb-tls-connect._tcp".to_string()));
    assert!(!keys.contains(&"adb-offline._adb-tls-connect._tcp".to_string()));
}
