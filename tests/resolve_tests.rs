use apogee::config::{Platform, Shell};
use apogee::{ContextEnv, Error, Resolver, VarMap};

fn ctx() -> ContextEnv {
    ContextEnv {
        vars: VarMap::new(),
        home: "/home/u".to_string(),
        xdg_config_home: "/home/u/.config".to_string(),
        platform: Platform::Linux,
        shell_type: Some(Shell::Zsh),
        host: "box".to_string(),
        config_path: Some("/home/u/.config/apogee/config.toml".to_string()),
        config_dir: Some("/home/u/.config/apogee".to_string()),
    }
}

#[test]
fn double_brace_is_a_literal_brace() {
    let c = ctx();
    let env = VarMap::new();
    let r = Resolver::new(&c, &env);
    assert_eq!(r.resolve("{{x}}").unwrap(), "{x}");
}

#[test]
fn shell_expansion_passes_through() {
    let c = ctx();
    let env = VarMap::new();
    let r = Resolver::new(&c, &env);
    assert_eq!(r.resolve("${HOME}/x").unwrap(), "${HOME}/x");
}

#[test]
fn host_token_is_the_context_host() {
    let c = ctx();
    let env = VarMap::new();
    let r = Resolver::new(&c, &env);
    assert_eq!(r.resolve("{host}").unwrap(), "box");
}

#[test]
fn context_tokens() {
    let c = ctx();
    let env = VarMap::new();
    let r = Resolver::new(&c, &env);
    assert_eq!(r.resolve("{home}/bin").unwrap(), "/home/u/bin");
    assert_eq!(r.resolve("{platform}-{shell}").unwrap(), "linux-zsh");
    assert_eq!(r.resolve("{config_dir}").unwrap(), "/home/u/.config/apogee");
    assert_eq!(r.resolve("{shell_ext} {shell_family} {shell_family_ext}").unwrap(), "zsh posix sh");
    assert_eq!(r.resolve("{shell_init}").unwrap(), "zsh");
    assert_eq!(r.resolve("{xdg_cache_home}").unwrap(), "/home/u/.cache");
    assert_eq!(r.resolve("{xdg_data_home}").unwrap(), "/home/u/.local/share");
    assert_eq!(r.resolve("{xdg_state_home}").unwrap(), "/home/u/.local/state");
}

#[test]
fn environment_overrides_shell_and_xdg() {
    let c = ctx();
    let mut env = VarMap::new();
    env.insert("APOGEE_SHELL", "PowerShell");
    env.insert("XDG_CACHE_HOME", "  /tmp/cache ");
    env.insert("USER", "ann");
    let r = Resolver::new(&c, &env);
    assert_eq!(r.resolve("{shell}").unwrap(), "pwsh");
    assert_eq!(r.resolve("{shell_init}").unwrap(), "powershell");
    assert_eq!(r.resolve("{xdg_cache_home}").unwrap(), "/tmp/cache");
    assert_eq!(r.resolve("{username}").unwrap(), "ann");
}

#[test]
fn detect_tokens_need_a_record() {
    let c = ctx();
    let env = VarMap::new();
    let mut det = VarMap::new();
    det.insert("command_path", "/usr/bin/uv");
    let plain = Resolver::new(&c, &env);
    assert!(matches!(plain.resolve("{detect.command_path}"), Err(Error::UnknownToken { .. })));
    let with = Resolver::new(&c, &env).with_detect(&det);
    assert_eq!(with.resolve("{detect.command_path}").unwrap(), "/usr/bin/uv");
}

#[test]
fn malformed_tokens_fail() {
    let c = ctx();
    let env = VarMap::new();
    let r = Resolver::new(&c, &env);
    assert_eq!(r.resolve("a{home").unwrap_err(), Error::UnclosedToken { input: "a{home".to_string() });
    assert_eq!(r.resolve("a{}b").unwrap_err(), Error::EmptyToken { input: "a{}b".to_string() });
    assert_eq!(
        r.resolve("x{nope}").unwrap_err(),
        Error::UnknownToken { token: "nope".to_string(), input: "x{nope}".to_string() }
    );
}

#[test]
fn lone_closing_brace_and_unicode_stay() {
    let c = ctx();
    let env = VarMap::new();
    let r = Resolver::new(&c, &env);
    assert_eq!(r.resolve("a}b}}c").unwrap(), "a}b}c");
    assert_eq!(r.resolve("héllo {host} ✓").unwrap(), "héllo box ✓");
}
