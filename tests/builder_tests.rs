use apogee::builder::{emit_aliases, emit_prelude, ScriptBuilder};
use apogee::config::{Platform, Shell};

#[test]
fn builder_collects_lines() {
    let mut b = ScriptBuilder::new();
    b.push_line("a");
    b.push_fmt("b");
    assert_eq!(b.finish(), "a\nb");
}

#[test]
fn alias_lines_per_shell() {
    let aliases = vec![("q".to_string(), "echo 'x'".to_string())];
    let mut b = ScriptBuilder::new();
    emit_aliases(Shell::Bash, &aliases, &mut b);
    emit_aliases(Shell::Fish, &aliases, &mut b);
    emit_aliases(Shell::Pwsh, &aliases, &mut b);
    assert_eq!(
        b.finish(),
        "alias q='echo '\"'\"'x'\"'\"''\nfunction q; echo 'x'; end\nfunction q { echo 'x' }\n"
    );
}

#[test]
fn prelude_guards_reloading() {
    let mut b = ScriptBuilder::new();
    emit_prelude(Shell::Fish, Platform::Mac, "box", &mut b);
    assert_eq!(
        b.finish(),
        "# apogee generated (source)\n# shell=Fish platform=Mac host=\"box\"\n\nif set -q APOGEE_LOADED\n  return\nend\nset -gx APOGEE_LOADED 1\n\n"
    );
}
