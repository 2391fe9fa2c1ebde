use apogee::config::Platform;
use apogee::deps::{normalize_require_key, normalize_requires_list, requires_satisfied, ActiveSet};
use apogee::orchestrate::{module_supports_platform, GroupRun, ModuleSpec};
use apogee::Error;

fn module(name: &str, priority: i32, requires: &[&str]) -> ModuleSpec {
    ModuleSpec {
        name: name.to_string(),
        enabled: true,
        priority,
        requires: requires.iter().map(|s| s.to_string()).collect(),
        platforms: vec![],
    }
}

#[test]
fn required_module_goes_first_and_gates_the_other() {
    let mods = vec![module("a", 10, &[]), module("b", 5, &["apps.a"])];
    let mut run = GroupRun::start("apps", &mods, Platform::Linux).unwrap();
    let keys: Vec<&str> = run.order.iter().map(|n| n.key.as_str()).collect();
    assert_eq!(keys, vec!["apps.a", "apps.b"]);
    let active = ActiveSet::new();
    assert_eq!(run.next(&active), Some(0));
    // "a" was not detected, so nothing activates it: "b" is skipped
    assert_eq!(run.next(&active), None);
}

#[test]
fn activated_requirement_opens_the_gate() {
    let mods = vec![module("a", 10, &[]), module("b", 5, &["modules.apps.a"])];
    let mut run = GroupRun::start("apps", &mods, Platform::Linux).unwrap();
    let mut active = ActiveSet::new();
    assert_eq!(run.next(&active), Some(0));
    active.insert("apps.a");
    assert_eq!(run.next(&active), Some(1));
}

#[test]
fn ineligible_modules_are_left_out() {
    let mut off = module("off", 1, &[]);
    off.enabled = false;
    let mut mac = module("mac", 1, &[]);
    mac.platforms = vec![Platform::Mac];
    let mods = vec![off, mac, module("x", 1, &[])];
    let run = GroupRun::start("apps", &mods, Platform::Linux).unwrap();
    assert_eq!(run.order.len(), 1);
    assert!(module_supports_platform(&vec![], Platform::Wsl));
    assert!(!module_supports_platform(&vec![Platform::Mac], Platform::Wsl));
}

#[test]
fn unknown_same_group_requirement_is_fatal() {
    let mods = vec![module("a", 1, &["apps.zz"])];
    let r = GroupRun::start("apps", &mods, Platform::Linux);
    assert!(matches!(r, Err(Error::UnknownDependency { .. })));
    let cross = vec![module("a", 1, &["cloud.dropbox"])];
    assert!(GroupRun::start("apps", &cross, Platform::Linux).is_ok());
}

#[test]
fn require_keys_normalise() {
    assert_eq!(normalize_require_key(" modules.Cloud. dropbox ").unwrap(), "cloud.dropbox");
    assert_eq!(normalize_require_key("APPS.uv").unwrap(), "apps.uv");
    assert!(matches!(normalize_require_key("apps"), Err(Error::InvalidRequire { .. })));
    assert!(matches!(normalize_require_key("a.b.c"), Err(Error::InvalidRequire { .. })));
    assert!(matches!(normalize_require_key("  "), Err(Error::InvalidRequire { .. })));
    assert!(matches!(normalize_require_key(".x"), Err(Error::InvalidRequire { .. })));
    let list = normalize_requires_list(&vec!["apps.a".to_string(), "bad".to_string()]);
    assert_eq!(list, Err(Error::InvalidRequire { raw: "bad".to_string() }));
}

#[test]
fn requirements_check_against_active_set() {
    let mut active = ActiveSet::new();
    active.insert("apps.a");
    assert!(requires_satisfied(&active, &vec!["apps.a".to_string()]));
    assert!(!requires_satisfied(&active, &vec!["apps.a".to_string(), "apps.b".to_string()]));
    assert!(requires_satisfied(&active, &vec![]));
}
