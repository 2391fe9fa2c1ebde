use apogee::config::{Platform, Shell, VersionDetect};
use apogee::version::{
    apply_optional_regex, linux_desktop_key, plan_version, record_version, version_from_output, version_from_probe,
    ProbeOutcome, VersionProbe,
};
use apogee::{ContextEnv, Error, VarMap};

fn ctx(platform: Platform) -> ContextEnv {
    ContextEnv {
        vars: VarMap::new(),
        home: "/home/u".to_string(),
        xdg_config_home: "/home/u/.config".to_string(),
        platform,
        shell_type: Some(Shell::Bash),
        host: "box".to_string(),
        config_path: None,
        config_dir: None,
    }
}

#[test]
fn output_prefers_stdout_and_first_line() {
    let v = version_from_output("  \n", "tool 1.2\nmore", &None, &"version".to_string()).unwrap();
    assert_eq!(v.as_deref(), Some("tool 1.2"));
    let v = version_from_output("", " ", &None, &"version".to_string()).unwrap();
    assert_eq!(v, None);
}

#[test]
fn output_regex_named_or_first_group() {
    let re = Some(r"v(?P<version>\d+\.\d+)".to_string());
    let v = version_from_output("app v3.14 build", "", &re, &"version".to_string()).unwrap();
    assert_eq!(v.as_deref(), Some("3.14"));
    let re1 = Some(r"(\d+)".to_string());
    let v = version_from_output("x 42", "", &re1, &"version".to_string()).unwrap();
    assert_eq!(v.as_deref(), Some("42"));
    let bad = Some("(".to_string());
    assert_eq!(
        version_from_output("x", "", &bad, &"version".to_string()),
        Err(Error::InvalidRegex { pattern: "(".to_string() })
    );
}

#[test]
fn metadata_text_trimmed_or_captured() {
    assert_eq!(apply_optional_regex(" 1.0 \n", &None, &"v".to_string()).unwrap().as_deref(), Some("1.0"));
    assert_eq!(apply_optional_regex("  ", &None, &"v".to_string()).unwrap(), None);
    let re = Some(r"(\d+)\.".to_string());
    assert_eq!(apply_optional_regex("10.2", &re, &"v".to_string()).unwrap().as_deref(), Some("10"));
}

#[test]
fn path_regex_reads_the_detection_record() {
    let c = ctx(Platform::Linux);
    let vars = VarMap::new();
    let mut det = VarMap::new();
    det.insert("path", "/opt/hfs19.5");
    let vd = VersionDetect::PathRegex { regex: r"hfs(\d+\.\d+)".to_string(), capture: "version".to_string() };
    match plan_version(&c, &vars, &det, &vd).unwrap() {
        VersionProbe::Done(v) => assert_eq!(v.as_deref(), Some("19.5")),
        other => panic!("unexpected {:?}", other),
    }
}

#[test]
fn platform_bound_reads_are_skipped_elsewhere() {
    let c = ctx(Platform::Linux);
    let vars = VarMap::new();
    let det = VarMap::new();
    let vd = VersionDetect::MacBundlePlist {
        path: "/Applications/X.app".to_string(),
        key: "CFBundleShortVersionString".to_string(),
        regex: None,
        capture: "version".to_string(),
    };
    assert!(matches!(plan_version(&c, &vars, &det, &vd).unwrap(), VersionProbe::Done(None)));
}

#[test]
fn command_probe_prefers_the_found_path() {
    let c = ctx(Platform::Linux);
    let vars = VarMap::new();
    let mut det = VarMap::new();
    det.insert("command_path", "/usr/bin/uv");
    let vd = VersionDetect::Command {
        command: "uv".to_string(),
        args: vec!["--version".to_string(), "{home}".to_string()],
        regex: None,
        capture: "version".to_string(),
    };
    match plan_version(&c, &vars, &det, &vd).unwrap() {
        VersionProbe::Run { command, args, .. } => {
            assert_eq!(command, "/usr/bin/uv");
            assert_eq!(args, vec!["--version".to_string(), "/home/u".to_string()]);
        }
        other => panic!("unexpected {:?}", other),
    }
}

#[test]
fn desktop_entry_key_in_section() {
    let text = "[Other]\nVersion=0\n# c\n[Desktop Entry]\nName=X\nVersion = 2.1 \n";
    assert_eq!(linux_desktop_key(text, "Desktop Entry", "Version").as_deref(), Some("2.1"));
    assert_eq!(linux_desktop_key("[Desktop Entry]\nnoequals\nVersion=1\n", "Desktop Entry", "Version"), None);
}

#[test]
fn bad_regex_is_fatal_even_without_output() {
    let bad = Some("(".to_string());
    assert!(matches!(version_from_output("", "", &bad, &"v".to_string()), Err(Error::InvalidRegex { .. })));
    assert!(matches!(apply_optional_regex("  ", &bad, &"v".to_string()), Err(Error::InvalidRegex { .. })));
    let c = ctx(Platform::Linux);
    let vars = VarMap::new();
    let det = VarMap::new();
    let vd = VersionDetect::Command { command: "x".into(), args: vec![], regex: bad.clone(), capture: "v".into() };
    assert_eq!(plan_version(&c, &vars, &det, &vd).unwrap_err(), Error::InvalidRegex { pattern: "(".into() });
    let mac = VersionDetect::MacBundlePlist { path: "p".into(), key: "k".into(), regex: bad, capture: "v".into() };
    assert!(matches!(plan_version(&c, &vars, &det, &mac), Err(Error::InvalidRegex { .. })));
}

#[test]
fn command_probe_resolves_command_and_keeps_regex() {
    let c = ctx(Platform::Linux);
    let vars = VarMap::new();
    let det = VarMap::new();
    let vd = VersionDetect::Command {
        command: "{home}/bin/t".into(),
        args: vec!["-V".into()],
        regex: Some(r"(\d+)".into()),
        capture: "cap".into(),
    };
    match plan_version(&c, &vars, &det, &vd).unwrap() {
        VersionProbe::Run { command, args, regex, capture } => {
            assert_eq!(command, "/home/u/bin/t");
            assert_eq!(args, vec!["-V".to_string()]);
            assert_eq!(regex.as_deref(), Some(r"(\d+)"));
            assert_eq!(capture, "cap");
        }
        other => panic!("unexpected {:?}", other),
    }
}

#[test]
fn probe_outcomes_give_versions() {
    let run = VersionProbe::Run { command: "t".into(), args: vec![], regex: None, capture: "v".into() };
    assert_eq!(version_from_probe(&run, &ProbeOutcome::Failed).unwrap(), None);
    let out = ProbeOutcome::Output { stdout: "t 1.0\n".into(), stderr: String::new() };
    assert_eq!(version_from_probe(&run, &out).unwrap().as_deref(), Some("t 1.0"));
    let desk = VersionProbe::ReadDesktopKey {
        path: "/x.desktop".into(),
        section: "Desktop Entry".into(),
        key: "Version".into(),
        regex: None,
        capture: "v".into(),
    };
    let file = ProbeOutcome::Output { stdout: "[Desktop Entry]\nVersion=4\n".into(), stderr: String::new() };
    assert_eq!(version_from_probe(&desk, &file).unwrap().as_deref(), Some("4"));
    let mut det = VarMap::new();
    assert!(!record_version(&mut det, None));
    assert!(record_version(&mut det, Some("4".into())));
    assert_eq!(det.get("version").map(|s| s.as_str()), Some("4"));
}
