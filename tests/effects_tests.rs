use apogee::activate::{apply_emit_effects_to_runtime, effect_dirs, join_parts};
use apogee::config::{
    EmitBlock, EmitInit, GlobalConfig, HookItem, Platform, Shell, TemplateFiles,
};
use apogee::detect::{split_clean, HostView};
use apogee::emit::Emitter;
use apogee::orchestrate::frame_template;
use apogee::{emit_global, emit_hooks, Config, ContextEnv, RuntimeEnv, VarMap};

fn ctx() -> ContextEnv {
    ContextEnv {
        vars: VarMap::new(),
        home: "/home/u".to_string(),
        xdg_config_home: "/home/u/.config".to_string(),
        platform: Platform::Linux,
        shell_type: Some(Shell::Zsh),
        host: "box".to_string(),
        config_path: None,
        config_dir: None,
    }
}

fn config() -> Config {
    Config {
        apogee: apogee::config::ApogeeMeta {
            schema_version: 1,
            default_shell: Shell::Zsh,
            platforms: vec![],
            env_file: None,
            secrets_file: None,
            bootstrap: None,
        },
        modules: apogee::config::ModulesRoot::default(),
        global: GlobalConfig::default(),
    }
}

#[test]
fn effects_update_env_and_both_path_keys() {
    let c = ctx();
    let mut rt = VarMap::new();
    rt.insert("PATH", "/usr/bin: /bin ::/bin:/usr/bin");
    let det = VarMap::new();
    let mut emit = EmitBlock::empty();
    emit.env.push(("TOOL_HOME".to_string(), "{home}/tool".to_string()));
    emit.env_derived.push(("TOOL_BIN".to_string(), "$TOOL_HOME/bin".to_string()));
    emit.paths.prepend_if_exists = vec!["/opt/a".into(), "/missing".into(), "/usr/bin".into(), "/opt/b".into()];
    emit.paths.append_if_exists = vec!["/opt/c".into()];
    let dirs = effect_dirs(&c, &rt, &det, &emit).unwrap();
    assert_eq!(dirs, vec!["/opt/a", "/missing", "/usr/bin", "/opt/b", "/opt/c"]);
    let host = HostView {
        dirs: vec!["/opt/a".into(), "/opt/b".into(), "/opt/c".into(), "/usr/bin".into()],
        ..HostView::default()
    };
    apply_emit_effects_to_runtime(&c, &mut rt, &det, &emit, &host).unwrap();
    assert_eq!(rt.get("TOOL_HOME").map(|s| s.as_str()), Some("/home/u/tool"));
    assert_eq!(rt.get("TOOL_BIN").map(|s| s.as_str()), Some("$TOOL_HOME/bin"));
    let path = "/opt/b:/opt/a:/usr/bin:/bin:/opt/c";
    assert_eq!(rt.get("PATH").map(|s| s.as_str()), Some(path));
    assert_eq!(rt.get("Path").map(|s| s.as_str()), Some(path));
}

#[test]
fn path_pieces_split_and_join() {
    assert_eq!(split_clean(" a :: b:", ':'), vec!["a".to_string(), "b".to_string()]);
    assert_eq!(join_parts(&vec!["a".into(), "b".into()], ';'), "a;b");
    assert_eq!(join_parts(&vec![], ';'), "");
}

#[test]
fn global_block_resolves_env_and_aliases() {
    let c = ctx();
    let mut cfg = config();
    cfg.global.env.push(("EDITOR".into(), "vim".into()));
    cfg.global.aliases.platform.linux.push(("ll".into(), "ls -l {home}".into()));
    cfg.global.aliases.shell.zsh.push(("g".into(), "git".into()));
    let rt = RuntimeEnv { vars: VarMap::new() };
    let out = emit_global(&c, &rt, &cfg, Shell::Zsh).unwrap();
    assert_eq!(
        out,
        "# apogee (global)\n\nexport EDITOR=\"vim\"\nalias ll='ls -l /home/u'\nalias g='git'\n"
    );
    assert_eq!(emit_global(&c, &rt, &config(), Shell::Zsh).unwrap(), "");
}

#[test]
fn hooks_filter_by_host_and_shell() {
    let c = ctx();
    let mut cfg = config();
    cfg.modules.enable_hooks = true;
    cfg.modules.hooks.enabled = true;
    cfg.modules.hooks.items = vec![
        HookItem {
            name: "mine".into(),
            enabled: true,
            platforms: vec![],
            hosts: vec!["box".into()],
            shells: vec![Shell::Zsh],
            script: "{home}/h.sh".into(),
        },
        HookItem {
            name: "other".into(),
            enabled: true,
            platforms: vec![],
            hosts: vec!["elsewhere".into()],
            shells: vec![],
            script: "/x".into(),
        },
    ];
    let rt = RuntimeEnv { vars: VarMap::new() };
    let out = emit_hooks(&c, &rt, &cfg, Shell::Zsh).unwrap();
    assert_eq!(
        out,
        "# apogee (hooks)\n\n# --- hook: mine ---\nif [ -r \"/home/u/h.sh\" ]; then source \"/home/u/h.sh\"; fi\n\n"
    );
    assert_eq!(emit_hooks(&c, &rt, &cfg, Shell::Fish).unwrap(), "");
}

#[test]
fn template_framing_adds_a_missing_line_feed() {
    let em = Emitter::new(Shell::Bash);
    let mut out = String::new();
    frame_template(&em, &mut out, "t", "echo hi");
    assert_eq!(out, "# --- template: t ---\necho hi\n\n");
    let files = TemplateFiles { all: None, zsh: None, bash: None, fish: None, pwsh: None };
    assert!(files.for_shell(Shell::Bash).is_none());
}

#[test]
fn init_and_functions_sections() {
    let c = ctx();
    let rt = VarMap::new();
    let det = VarMap::new();
    let mut emit = EmitBlock::empty();
    emit.functions.files = vec!["/f.sh".into(), "/f.sh".into()];
    emit.init = vec![EmitInit { command: "zoxide".into(), args: vec!["init".into(), "{shell_init}".into()], pwsh_out_string: false }];
    let em = Emitter::new(Shell::Bash);
    let mut out = String::new();
    apogee::activate::emit_module_into(&em, &mut out, &c, &rt, &det, &emit).unwrap();
    assert_eq!(
        out,
        "\nif [ -r \"/f.sh\" ]; then source \"/f.sh\"; fi\n\nif command -v zoxide >/dev/null 2>&1; then eval \"$(\"zoxide\" \"init\" \"zsh\")\"; fi\n"
    );
}

#[test]
fn global_aliases_come_in_key_order() {
    let c = ctx();
    let mut cfg = config();
    cfg.global.aliases.platform.linux.push(("zz".into(), "1".into()));
    cfg.global.aliases.platform.linux.push(("aa".into(), "2".into()));
    let rt = RuntimeEnv { vars: VarMap::new() };
    let out = emit_global(&c, &rt, &cfg, Shell::Bash).unwrap();
    assert_eq!(out, "# apogee (global)\n\nalias aa='2'\nalias zz='1'\n");
}
