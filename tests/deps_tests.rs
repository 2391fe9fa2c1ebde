use apogee::{module_key, topo_sort_group, DepNode, Error};

fn node(key: &str, priority: i32, requires: &[&str]) -> DepNode {
    let name = key.split('.').nth(1).unwrap().to_string();
    DepNode {
        key: key.to_string(),
        name,
        priority,
        requires: requires.iter().map(|s| s.to_string()).collect(),
    }
}

#[test]
fn module_key_joins_group_and_name() {
    assert_eq!(module_key("apps", "uv"), "apps.uv");
}

#[test]
fn dependency_outranks_priority() {
    let nodes = vec![node("apps.a", 10, &[]), node("apps.b", 5, &["apps.a"])];
    let out = topo_sort_group(nodes, "apps").unwrap();
    let keys: Vec<&str> = out.iter().map(|n| n.key.as_str()).collect();
    assert_eq!(keys, vec!["apps.a", "apps.b"]);
}

#[test]
fn cycle_names_every_residual_node() {
    let nodes = vec![
        node("apps.c", 1, &["apps.b"]),
        node("apps.b", 1, &["apps.c"]),
        node("apps.a", 1, &[]),
    ];
    match topo_sort_group(nodes, "apps") {
        Err(Error::DependencyCycle { group, nodes }) => {
            assert_eq!(group, "apps");
            assert_eq!(nodes, vec!["apps.b".to_string(), "apps.c".to_string()]);
        }
        other => panic!("unexpected: {:?}", other),
    }
}
