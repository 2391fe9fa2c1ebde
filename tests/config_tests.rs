use apogee::cli::{Args, ReportMode};
use apogee::config::{OneOrMany, Platform, Shell, TemplateFiles, VersionDetect, VersionDetectSpec};
use apogee::context::{detect_shell, hostname_from_vars, short_hostname};
use apogee::{ContextEnv, VarMap};

#[test]
fn shell_names_parse() {
    assert_eq!(Shell::parse(" ZSH "), Some(Shell::Zsh));
    assert_eq!(Shell::parse("PowerShell"), Some(Shell::Pwsh));
    assert_eq!(Shell::parse("fish"), Some(Shell::Fish));
    assert_eq!(Shell::parse(""), None);
    assert_eq!(Shell::parse("tcsh"), None);
    assert_eq!(Shell::Pwsh.name(), "pwsh");
    assert_eq!(Platform::Wsl.name(), "wsl");
}

#[test]
fn template_for_shell_falls_back_to_all() {
    let t = TemplateFiles { all: Some("a".into()), zsh: Some("z".into()), bash: None, fish: None, pwsh: None };
    assert_eq!(t.for_shell(Shell::Zsh).map(|s| s.as_str()), Some("z"));
    assert_eq!(t.for_shell(Shell::Fish).map(|s| s.as_str()), Some("a"));
}

#[test]
fn version_list_for_platform_falls_back_to_all() {
    let pr = VersionDetect::PathRegex { regex: "x".into(), capture: "v".into() };
    let spec = VersionDetectSpec {
        all: Some(OneOrMany::One(pr.clone())),
        mac: Some(OneOrMany::Many(vec![pr.clone(), pr.clone()])),
        ..VersionDetectSpec::default()
    };
    assert_eq!(spec.for_platform(Platform::Mac).unwrap().iter().len(), 2);
    assert_eq!(spec.for_platform(Platform::Linux).unwrap().iter().len(), 1);
    assert!(VersionDetectSpec::default().for_platform(Platform::Linux).is_none());
}

#[test]
fn shell_and_host_from_environment() {
    let mut vars = VarMap::new();
    vars.insert("SHELL", "/usr/bin/ZSH");
    vars.insert("HOSTNAME", "  laptop.local ");
    assert_eq!(detect_shell(&vars), Some(Shell::Zsh));
    assert_eq!(hostname_from_vars(&vars).as_deref(), Some("laptop"));
    vars.insert("PSModulePath", "x");
    assert_eq!(detect_shell(&vars), Some(Shell::Pwsh));
    assert_eq!(short_hostname("a.b.c"), "a");
}

#[test]
fn default_config_path_under_xdg() {
    let c = ContextEnv {
        vars: VarMap::new(),
        home: "/h".into(),
        xdg_config_home: "/h/.config/".into(),
        platform: Platform::Linux,
        shell_type: None,
        host: "x".into(),
        config_path: None,
        config_dir: None,
    };
    assert_eq!(c.default_config_path(), "/h/.config/apogee/config.toml");
    assert_eq!(c.host(), "x");
    assert!(c.config_dir().is_none());
}

#[test]
fn no_redact_wins() {
    let mut a = Args {
        config: None,
        report: ReportMode::Off,
        report_out: None,
        dump_context: false,
        dump_context_out: None,
        redact: true,
        no_redact: false,
    };
    assert!(a.effective_redact());
    a.no_redact = true;
    assert!(!a.effective_redact());
}

#[test]
fn context_from_parts_fills_home_and_xdg() {
    let mut env = VarMap::new();
    env.insert("SHELL", "/bin/bash");
    env.insert("XDG_CONFIG_HOME", "   ");
    let mut c = ContextEnv::from_parts(&env, "/home/u", Platform::Linux, "box");
    assert_eq!(c.xdg_config_home, "/home/u/.config");
    assert_eq!(c.shell_type, Some(Shell::Bash));
    assert_eq!(c.vars.get("HOME").map(|s| s.as_str()), Some("/home/u"));
    assert_eq!(c.vars.get("USERPROFILE").map(|s| s.as_str()), Some("/home/u"));
    assert_eq!(c.vars.get("APOGEE_SHELL").map(|s| s.as_str()), Some("bash"));
    assert_eq!(c.vars.get("APOGEE_PLATFORM").map(|s| s.as_str()), Some("linux"));
    assert_eq!(c.vars.get("APOGEE_HOST").map(|s| s.as_str()), Some("box"));
    c.set_config_path("/home/u/.config/apogee/config.toml", Some("/home/u/.config/apogee"));
    assert_eq!(c.config_dir().map(|s| s.as_str()), Some("/home/u/.config/apogee"));
    assert_eq!(c.vars.get("APOGEE_CONFIG_DIR").map(|s| s.as_str()), Some("/home/u/.config/apogee"));
}

#[test]
fn summary_report_lists_modules() {
    use_summary();
}

fn use_summary() {
    let cfg = apogee::Config {
        apogee: apogee::config::ApogeeMeta {
            schema_version: 120,
            default_shell: Shell::Fish,
            platforms: vec![],
            env_file: None,
            secrets_file: None,
            bootstrap: None,
        },
        modules: apogee::config::ModulesRoot::default(),
        global: apogee::config::GlobalConfig::default(),
    };
    let s = apogee::report::summary(&cfg);
    assert!(s.starts_with("apogee report (summary)\n======================\nschema_version: 120\ndefault_shell: Fish\n"));
    assert!(s.ends_with("  hooks: enabled=false items=0\n"));
    assert_eq!(apogee::report::decimal_str(0), "0");
    assert_eq!(apogee::report::decimal_str(9081), "9081");
}
