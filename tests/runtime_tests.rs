use apogee::config::{SecretsStrategy, Shell};
use apogee::runtime::{
    apply_bootstrap_defaults, apply_global_env, apply_strategy, choose_shell, env_file_raw, parse_env_text,
    stitch_output,
};
use apogee::{emit_env_delta, Error, VarMap};

#[test]
fn env_text_parses_comments_exports_and_quotes() {
    let m = parse_env_text("# c\n\nexport A=\"1 2\"\nB = 'x'\n=skip\nC=a=b\r\nA=3\n").unwrap();
    assert_eq!(m.get("A").map(|s| s.as_str()), Some("3"));
    assert_eq!(m.get("B").map(|s| s.as_str()), Some("x"));
    assert_eq!(m.get("C").map(|s| s.as_str()), Some("a=b"));
    assert_eq!(m.len(), 3);
}

#[test]
fn env_text_line_without_equals_fails() {
    let e = parse_env_text("A=1\nbroken\n").unwrap_err();
    assert_eq!(e, Error::InvalidEnvLine { line: 2, text: "broken".to_string() });
}

#[test]
fn fill_missing_keeps_set_values() {
    let mut dst = VarMap::new();
    dst.insert("A", "keep");
    dst.insert("E", "");
    let mut src = VarMap::new();
    src.insert("A", "new");
    src.insert("E", "filled");
    src.insert("N", "n");
    let mut over = dst.duplicate();
    apply_strategy(&mut dst, &src, SecretsStrategy::FillMissing);
    assert_eq!(dst.get("A").map(|s| s.as_str()), Some("keep"));
    assert_eq!(dst.get("E").map(|s| s.as_str()), Some("filled"));
    assert_eq!(dst.get("N").map(|s| s.as_str()), Some("n"));
    apply_strategy(&mut over, &src, SecretsStrategy::Override);
    assert_eq!(over.get("A").map(|s| s.as_str()), Some("new"));
}

#[test]
fn delta_exports_only_changes() {
    let mut before = VarMap::new();
    before.insert("A", "1");
    before.insert("B", "2");
    let mut after = before.duplicate();
    assert_eq!(emit_env_delta(Shell::Zsh, &before, &after), "");
    after.insert("B", "3");
    after.insert("C", "4");
    assert_eq!(
        emit_env_delta(Shell::Zsh, &before, &after),
        "# apogee (dotenv)\n\nexport B=\"3\"\nexport C=\"4\"\n"
    );
}

fn ctx() -> apogee::ContextEnv {
    apogee::ContextEnv {
        vars: VarMap::new(),
        home: "/home/u".to_string(),
        xdg_config_home: "/home/u/.config".to_string(),
        platform: apogee::Platform::Linux,
        shell_type: None,
        host: "box".to_string(),
        config_path: None,
        config_dir: Some("/cfg".to_string()),
    }
}

#[test]
fn groups_are_stitched_with_one_blank_line() {
    let parts = vec!["a\n".to_string(), "  \n".to_string(), "b".to_string(), "c\n".to_string()];
    assert_eq!(stitch_output(&parts), "a\n\nb\n\nc\n");
    assert_eq!(stitch_output(&vec![]), "");
}

#[test]
fn shell_choice_order() {
    let mut vars = VarMap::new();
    assert_eq!(choose_shell(&vars, None, Shell::Bash), Shell::Bash);
    assert_eq!(choose_shell(&vars, Some(Shell::Fish), Shell::Bash), Shell::Fish);
    vars.insert("APOGEE_SHELL", "pwsh");
    assert_eq!(choose_shell(&vars, Some(Shell::Fish), Shell::Bash), Shell::Pwsh);
    vars.insert("APOGEE_SHELL", "nonsense");
    assert_eq!(choose_shell(&vars, Some(Shell::Fish), Shell::Bash), Shell::Fish);
}

#[test]
fn bootstrap_fills_only_missing_and_globals_override() {
    let c = ctx();
    let mut vars = VarMap::new();
    vars.insert("SET", "x");
    vars.insert("EMPTY", "");
    let defaults = vec![
        ("SET".to_string(), "y".to_string()),
        ("EMPTY".to_string(), "{home}/e".to_string()),
        ("NEW".to_string(), "${EMPTY}".to_string()),
    ];
    apply_bootstrap_defaults(&c, &mut vars, &defaults).unwrap();
    assert_eq!(vars.get("SET").map(|s| s.as_str()), Some("x"));
    assert_eq!(vars.get("EMPTY").map(|s| s.as_str()), Some("/home/u/e"));
    assert_eq!(vars.get("NEW").map(|s| s.as_str()), Some("${EMPTY}"));
    apply_global_env(&c, &mut vars, &vec![("SET".to_string(), "{host}".to_string())]).unwrap();
    assert_eq!(vars.get("SET").map(|s| s.as_str()), Some("box"));
    assert!(apply_global_env(&c, &mut vars, &vec![("Z".to_string(), "{bad}".to_string())]).is_err());
    let meta = apogee::config::ApogeeMeta {
        schema_version: 1,
        default_shell: Shell::Zsh,
        platforms: vec![],
        env_file: None,
        secrets_file: None,
        bootstrap: None,
    };
    assert_eq!(env_file_raw(&meta), "{config_dir}/.env");
}

#[test]
fn delta_follows_ascending_keys() {
    let before = VarMap::new();
    let mut after = VarMap::new();
    after.insert("Z", "1");
    after.insert("M", "2");
    assert_eq!(after.key_at(0), "M");
    assert_eq!(emit_env_delta(Shell::Bash, &before, &after), "# apogee (dotenv)\n\nexport M=\"2\"\nexport Z=\"1\"\n");
}
