use awb_core::adb_client::CommandResult;
use awb_core::scrcpy::{
    compatibility_flags, default_args, parse_scrcpy_version, Scrcpy, ScrcpyOptions, ScrcpyVersion,
};

#[test]
fn parses_scrcpy_versions() {
    assert_eq!(
        parse_scrcpy_version("scrcpy 4.0 <https://github.com/Genymobile/scrcpy>"),
        Some(ScrcpyVersion::new(4, 0, 0))
    );
    assert_eq!(
        parse_scrcpy_version("scrcpy 3.3.4"),
        Some(ScrcpyVersion::new(3, 3, 4))
    );
}

#[test]
fn scrcpy_builds_raycast_equivalent_scrcpy_args() {
    let args = default_args("192.168.1.23:40233", &ScrcpyOptions::default());

    assert_eq!(
        args,
        vec![
            "-s",
            "192.168.1.23:40233",
            "--no-audio",
            "--stay-awake",
            "--window-borderless",
            "--window-title",
            "Pixel 10 Pro",
            "--window-width",
            "480",
            "--window-height",
            "1071",
        ]
    );
}

#[test]
fn scrcpy_builds_plain_window_scrcpy_args() {
    let options = ScrcpyOptions {
        borderless: false,
        always_on_top: true,
        window_title: "Ovi Pixel".to_string(),
        ..ScrcpyOptions::default()
    };
    let args = default_args("device", &options);

    assert_eq!(
        args,
        vec![
            "-s",
            "device",
            "--no-audio",
            "--stay-awake",
            "--always-on-top",
            "--window-title",
            "Ovi Pixel",
            "--window-width",
            "480",
            "--window-height",
            "1071",
        ]
    );
}

#[test]
fn scrcpy_zero_window_values_leave_scrcpy_window_defaults() {
    let options = ScrcpyOptions {
        window_width: 0,
        window_height: 0,
        ..ScrcpyOptions::default()
    };
    let args = default_args("device", &options);

    assert!(!args.contains(&"--window-width".to_string()));
    assert!(!args.contains(&"--window-height".to_string()));
}

#[test]
fn compatibility_flags_follow_enabled_options() {
    let default_flags = compatibility_flags(&ScrcpyOptions::default());
    assert!(default_flags.contains(&"--window-borderless".to_string()));
    assert!(!default_flags.contains(&"--always-on-top".to_string()));

    let custom_flags = compatibility_flags(&ScrcpyOptions {
        borderless: false,
        always_on_top: true,
        window_title: String::new(),
        window_width: 0,
        window_height: 0,
        ..ScrcpyOptions::default()
    });

    assert!(!custom_flags.contains(&"--window-borderless".to_string()));
    assert!(custom_flags.contains(&"--always-on-top".to_string()));
    assert!(!custom_flags.contains(&"--window-title".to_string()));
    assert!(!custom_flags.contains(&"--window-width".to_string()));
    assert!(!custom_flags.contains(&"--window-height".to_string()));
}

#[test]
fn versions_order_and_print_like_releases() {
    assert!(ScrcpyVersion::new(3, 3, 4).is_older_than(&ScrcpyVersion::new(4, 0, 0)));
    assert!(!ScrcpyVersion::new(4, 0, 0).is_older_than(&ScrcpyVersion::new(4, 0, 0)));
    assert_eq!(ScrcpyVersion::new(4, 0, 0).text(), "4.0");
    assert_eq!(ScrcpyVersion::new(3, 3, 4).text(), "3.3.4");
    assert_eq!(
        parse_scrcpy_version("scrcpy v2.7-dirty"),
        Some(ScrcpyVersion::new(2, 7, 0))
    );
    assert_eq!(parse_scrcpy_version("scrcpy"), None);
}

#[test]
fn diagnostics_warn_about_old_versions_and_missing_flags() {
    let scrcpy = Scrcpy {
        path: "/usr/local/bin/scrcpy".to_string(),
        adb: None,
    };
    let options = ScrcpyOptions::default();
    let diagnostics = scrcpy.diagnostics(
        &options,
        Ok("scrcpy 3.3.4".to_string()),
        Ok("--no-audio --stay-awake --window-borderless --window-title --window-width".to_string()),
    );
    assert_eq!(diagnostics.version_line.as_deref(), Some("scrcpy 3.3.4"));
    assert_eq!(
        diagnostics.warnings,
        vec![
            "scrcpy 3.3.4 detected at /usr/local/bin/scrcpy. AWB works best with scrcpy 4.0 or newer; run `brew upgrade scrcpy` if mirroring fails.".to_string(),
            "scrcpy at /usr/local/bin/scrcpy does not advertise `--window-height` in `scrcpy --help`; update it with `brew upgrade scrcpy` or disable the related AWB setting.".to_string(),
        ]
    );

    let failing = scrcpy.diagnostics(&options, Err("boom".to_string()), Err("bang".to_string()));
    assert_eq!(failing.version_line, None);
    assert_eq!(failing.warnings.len(), 2);
    assert!(failing.warnings[0].starts_with("Could not read scrcpy version from /usr/local/bin/scrcpy: boom."));
    assert!(failing.warnings[1].starts_with("Could not inspect scrcpy options from /usr/local/bin/scrcpy: bang."));
}

#[test]
fn version_line_is_the_first_non_blank_line() {
    let out = CommandResult {
        success: true,
        stdout: "\n  scrcpy 4.0  \nmore\n".to_string(),
        stderr: String::new(),
    };
    assert_eq!(Scrcpy::version_line(&out, "exit status: 0").unwrap(), "scrcpy 4.0");
    let failed = CommandResult {
        success: false,
        stdout: String::new(),
        stderr: "nope".to_string(),
    };
    assert_eq!(
        Scrcpy::version_line(&failed, "exit status: 1").unwrap_err(),
        "scrcpy --version exited with status exit status: 1: nope"
    );
    assert_eq!(
        Scrcpy::launch(false, "exit status: 2").unwrap_err(),
        "scrcpy exited with status exit status: 2"
    );
}

#[test]
fn resolving_scrcpy_without_a_check_uses_the_given_path() {
    let s = Scrcpy::resolve(None, true, &[], None).unwrap();
    assert_eq!(s.path(), "scrcpy");
    let s = Scrcpy::resolve(None, false, &[("/opt/scrcpy".to_string(), true)], None).unwrap();
    assert_eq!(s.path(), "/opt/scrcpy");
}
