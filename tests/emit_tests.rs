use apogee::config::Shell;
use apogee::emit::Emitter;
use apogee::envorder::order_env_assignments;
use apogee::quote::{quote_double, quote_posix_single, quote_pwsh, rewrite_env_refs_for_pwsh};
use apogee::VarMap;

#[test]
fn referenced_assignment_comes_first() {
    let mut m = VarMap::new();
    m.insert("A", "$B");
    m.insert("B", "1");
    let order = order_env_assignments(&m);
    let keys: Vec<&str> = order.iter().map(|(k, _)| k.as_str()).collect();
    assert_eq!(keys, vec!["B", "A"]);
}

#[test]
fn freed_assignments_queue_behind_ready_ones() {
    let mut m = VarMap::new();
    m.insert("A", "");
    m.insert("B", "$A");
    m.insert("C", "");
    let order = order_env_assignments(&m);
    let keys: Vec<&str> = order.iter().map(|(k, _)| k.as_str()).collect();
    assert_eq!(keys, vec!["A", "C", "B"]);
}

#[test]
fn cyclic_assignments_come_last_in_key_order() {
    let mut m = VarMap::new();
    m.insert("B", "$A");
    m.insert("A", "${B}");
    m.insert("C", "plain");
    let order = order_env_assignments(&m);
    let keys: Vec<&str> = order.iter().map(|(k, _)| k.as_str()).collect();
    assert_eq!(keys, vec!["C", "A", "B"]);
}

#[test]
fn set_env_per_dialect() {
    let mut out = String::new();
    Emitter::new(Shell::Bash).set_env(&mut out, "K", "a \"b\" \\c");
    Emitter::new(Shell::Fish).set_env(&mut out, "K", "v");
    Emitter::new(Shell::Pwsh).set_env(&mut out, "K", "$HOME/x`y");
    assert_eq!(
        out,
        "export K=\"a \\\"b\\\" \\\\c\"\nset -gx K \"v\"\n$env:K = \"$env:HOME/x``y\"\n"
    );
}

#[test]
fn prepend_guard_skips_a_directory_already_on_path() {
    let mut out = String::new();
    Emitter::new(Shell::Zsh).path_prepend_if_exists(&mut out, "/opt/bin");
    assert_eq!(
        out,
        "if [ -d \"/opt/bin\" ]; then __apogee_dir=\"/opt/bin\"; case \":$PATH:\" in *\":$__apogee_dir:\"*) ;; *) export PATH=\"$__apogee_dir:$PATH\" ;; esac; unset __apogee_dir; fi\n"
    );
    let mut fish = String::new();
    Emitter::new(Shell::Fish).path_append_if_exists(&mut fish, "/opt/bin");
    assert_eq!(fish, "if test -d \"/opt/bin\"; fish_add_path -g -a \"/opt/bin\"; end\n");
}

#[test]
fn aliases_per_dialect() {
    let mut out = String::new();
    Emitter::new(Shell::Zsh).alias(&mut out, "ll", "ls -l 'x'");
    Emitter::new(Shell::Fish).alias(&mut out, "ll", "ls -l");
    Emitter::new(Shell::Pwsh).alias(&mut out, "ll", "ls $HOME");
    assert_eq!(
        out,
        "alias ll='ls -l '\\''x'\\'''\nfunction ll; ls -l $argv; end\nfunction ll { ls $env:HOME @args }\n"
    );
}

#[test]
fn init_eval_forms() {
    let mut out = String::new();
    let args = vec!["init".to_string(), "zsh".to_string()];
    Emitter::new(Shell::Zsh).init_eval_if_exists(&mut out, "starship", &args, false);
    assert_eq!(out, "if command -v starship >/dev/null 2>&1; then eval \"$(\"starship\" \"init\" \"zsh\")\"; fi\n");
    let mut p = String::new();
    Emitter::new(Shell::Pwsh).init_eval_if_exists(&mut p, "zoxide", &vec!["init".to_string()], true);
    assert_eq!(
        p,
        "if (Get-Command \"zoxide\" -ErrorAction SilentlyContinue) { Invoke-Expression (& { (& \"zoxide\" \"init\" | Out-String) }) }\n"
    );
    let mut f = String::new();
    Emitter::new(Shell::Fish).init_eval_if_exists(&mut f, "/opt/x", &vec![], false);
    assert_eq!(f, "if test -x \"/opt/x\"; \"/opt/x\" | source; end\n");
}

#[test]
fn source_and_header_and_comment() {
    let em = Emitter::new(Shell::Bash);
    let mut out = String::new();
    em.header(&mut out, "t");
    em.comment(&mut out, "c");
    em.source_if_exists(&mut out, "/f");
    em.blank(&mut out);
    assert_eq!(out, "# t\n\n# c\nif [ -r \"/f\" ]; then source \"/f\"; fi\n\n");
}

#[test]
fn quoting_helpers() {
    assert_eq!(quote_double("a\"b\\"), "\"a\\\"b\\\\\"");
    assert_eq!(quote_posix_single("it's"), "'it'\\''s'");
    assert_eq!(quote_pwsh("a`\"b"), "\"a```\"b\"");
}

#[test]
fn pwsh_reference_rewrite() {
    assert_eq!(rewrite_env_refs_for_pwsh("$A:${B}/$env:C/$1/${}"), "$env:A:$env:B/$env:C/$1/${}");
}
