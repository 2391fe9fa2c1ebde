use apogee::config::{AnyOf, DetectBlock, EmitBlock, Platform, PlatformAnyOf, Shell};
use apogee::deps::ActiveSet;
use apogee::detect::{
    command_candidates, detect_module, fallback_command_dirs, first_path_match, first_present_env,
    glob_to_regex, least_matching, pathext_list, resolve_command, split_dir_and_glob, HostView,
};
use apogee::emit::Emitter;
use apogee::orchestrate::activate_module;
use apogee::{ContextEnv, Error, VarMap};

fn ctx(platform: Platform) -> ContextEnv {
    ContextEnv {
        vars: VarMap::new(),
        home: "/home/u".to_string(),
        xdg_config_home: "/home/u/.config".to_string(),
        platform,
        shell_type: Some(Shell::Zsh),
        host: "box".to_string(),
        config_path: None,
        config_dir: None,
    }
}

fn strings(v: &[&str]) -> Vec<String> {
    v.iter().map(|s| s.to_string()).collect()
}

fn empty_any() -> PlatformAnyOf {
    PlatformAnyOf::empty()
}

#[test]
fn env_candidate_wins_over_command() {
    let c = ctx(Platform::Linux);
    let mut vars = VarMap::new();
    vars.insert("PATH", "/usr/local/bin");
    vars.insert("UV_HOME", " /opt/uv ");
    let block = DetectBlock {
        paths: empty_any(),
        files: empty_any(),
        commands: AnyOf { any_of: strings(&["uv"]) },
        env: AnyOf { any_of: strings(&["MISSING", "UV_HOME"]) },
        version: None,
    };
    let host = HostView { files: strings(&["/usr/local/bin/uv"]), ..HostView::default() };
    let rec = detect_module(&c, &vars, &block, &host).unwrap().unwrap();
    assert_eq!(rec.get("env").map(|s| s.as_str()), Some("UV_HOME"));
    assert_eq!(rec.get("path").map(|s| s.as_str()), Some("/opt/uv"));
    assert!(rec.get("command").is_none());
}

#[test]
fn blank_env_value_is_not_present() {
    let mut vars = VarMap::new();
    vars.insert("A", "   ");
    vars.insert("B", "x");
    let got = first_present_env(&vars, &strings(&["A", "B"])).unwrap();
    assert_eq!(got, ("B".to_string(), "x".to_string()));
}

#[test]
fn command_found_on_path_feeds_emission() {
    let c = ctx(Platform::Linux);
    let mut vars = VarMap::new();
    vars.insert("PATH", "/usr/local/bin:/usr/bin");
    let block = DetectBlock {
        paths: empty_any(),
        files: empty_any(),
        commands: AnyOf { any_of: strings(&["uv"]) },
        env: AnyOf { any_of: vec![] },
        version: None,
    };
    let host = HostView { files: strings(&["/usr/local/bin/uv"]), ..HostView::default() };
    let rec = detect_module(&c, &vars, &block, &host).unwrap().unwrap();
    assert_eq!(rec.get("command_path").map(|s| s.as_str()), Some("/usr/local/bin/uv"));
    assert_eq!(rec.get("command_dir").map(|s| s.as_str()), Some("/usr/local/bin"));

    let mut emit = EmitBlock::empty();
    emit.env.push(("UV_BIN".to_string(), "{detect.command_path}".to_string()));
    let em = Emitter::new(Shell::Zsh);
    let mut out = String::new();
    let mut rt = vars;
    let mut active = ActiveSet::new();
    activate_module(&em, &mut out, &c, &mut rt, &mut active, "app", "apps.uv", "uv", &rec, &emit, &host).unwrap();
    assert!(out.contains("export UV_BIN=\"/usr/local/bin/uv\"\n"));
    assert!(out.starts_with("# --- app: uv ---\n"));
    assert_eq!(rt.get("UV_BIN").map(|s| s.as_str()), Some("/usr/local/bin/uv"));
    assert!(active.contains("apps.uv"));
}

#[test]
fn windows_pathext_default_order_and_lowercase() {
    let mut vars = VarMap::new();
    vars.insert("Path", "C:\\tools");
    let exts = pathext_list(&vars);
    assert_eq!(exts, strings(&[".com", ".exe", ".bat", ".cmd"]));
    let cands = command_candidates(Platform::Windows, &vars, "foo");
    assert_eq!(
        &cands[..4],
        &strings(&["C:\\tools\\foo.com", "C:\\tools\\foo.exe", "C:\\tools\\foo.bat", "C:\\tools\\foo.cmd"])[..]
    );
    let host = HostView { files: strings(&["C:\\tools\\foo.cmd"]), ..HostView::default() };
    let found = resolve_command(Platform::Windows, &vars, &host, "foo");
    assert_eq!(found.as_deref(), Some("C:\\tools\\foo.cmd"));
    let dotted = command_candidates(Platform::Windows, &vars, "foo.exe");
    assert_eq!(dotted[0], "C:\\tools\\foo.exe");
}

#[test]
fn pathext_entries_are_normalised() {
    let mut vars = VarMap::new();
    vars.insert("PATHEXT", " .EXE ;PS1;;");
    assert_eq!(pathext_list(&vars), strings(&[".exe", ".ps1"]));
}

#[test]
fn fallback_dirs_per_platform() {
    let mut vars = VarMap::new();
    vars.insert("HOME", "/home/u");
    vars.insert("USER", "ann");
    let wsl = fallback_command_dirs(Platform::Wsl, &vars);
    assert_eq!(wsl[0], "/usr/local/sbin");
    assert!(wsl.contains(&"/home/u/.cargo/bin".to_string()));
    assert_eq!(wsl.last().unwrap(), "/mnt/c/Users/ann/scoop/shims");
    let mac = fallback_command_dirs(Platform::Mac, &vars);
    assert_eq!(mac[0], "/opt/homebrew/bin");
    assert_eq!(mac.len(), 8);
}

#[test]
fn glob_patterns() {
    assert_eq!(glob_to_regex("Houdini*.app"), "^Houdini.*\\.app$");
    assert_eq!(split_dir_and_glob(Platform::Linux, "/opt/hfs*"), ("/opt".to_string(), "hfs*".to_string()));
    assert_eq!(split_dir_and_glob(Platform::Linux, "/x"), ("/".to_string(), "x".to_string()));
    assert_eq!(
        split_dir_and_glob(Platform::Windows, "C:\\Apps\\Tool*"),
        ("C:\\Apps".to_string(), "Tool*".to_string())
    );
    let host = HostView {
        listings: vec![("/opt".to_string(), strings(&["hfs20", "other", "hfs19"]))],
        existing: strings(&["/etc/hosts"]),
        ..HostView::default()
    };
    assert_eq!(first_path_match(Platform::Linux, &host, "/opt/hfs*").unwrap().as_deref(), Some("/opt/hfs19"));
    assert_eq!(first_path_match(Platform::Linux, &host, "/opt/zz?").unwrap(), None);
    assert_eq!(first_path_match(Platform::Linux, &host, "/etc/hosts").unwrap().as_deref(), Some("/etc/hosts"));
    assert_eq!(first_path_match(Platform::Linux, &host, "/etc/none").unwrap(), None);
}

#[test]
fn unknown_token_in_a_candidate_is_fatal() {
    let c = ctx(Platform::Linux);
    let vars = VarMap::new();
    let block = DetectBlock {
        paths: empty_any(),
        files: empty_any(),
        commands: AnyOf { any_of: strings(&["{nope}"]) },
        env: AnyOf { any_of: vec![] },
        version: None,
    };
    let host = HostView::default();
    let r = detect_module(&c, &vars, &block, &host);
    assert!(matches!(r, Err(Error::UnknownToken { .. })));
}

#[test]
fn least_matching_name_wins() {
    let names = strings(&["b", "a2", "a1", "c"]);
    assert_eq!(least_matching(&names, &vec![true, true, false, true]), Some(1));
    assert_eq!(least_matching(&names, &vec![false, false, false, false]), None);
}
