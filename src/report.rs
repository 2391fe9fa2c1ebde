//! The configuration summary report.

use vstd::prelude::*;
use crate::builder::shell_debug;
use crate::config::{AppKind, AppModule, CloudKind, CloudModule, Config};
use crate::text::{copy_str, push_char};

verus! {

pub open spec fn digit(d: nat) -> char {
    ((d % 10) + 48) as char
}

/// `n` in decimal.
pub open spec fn decimal(n: nat) -> Seq<char>
    decreases n,
{
    if n < 10 {
        seq![digit(n)]
    } else {
        decimal(n / 10).push(digit(n % 10))
    }
}

pub fn decimal_str(n: u64) -> (r: String)
    ensures
        r@ == decimal(n as nat),
    decreases n,
{
    if n < 10 {
        let mut s = String::new();
        push_char(&mut s, ((n as u8) + 48) as char);
        assert(s@ =~= decimal(n as nat));
        s
    } else {
        let mut s = decimal_str(n / 10);
        push_char(&mut s, (((n % 10) as u8) + 48) as char);
        assert(s@ =~= decimal(n as nat));
        s
    }
}

pub open spec fn bool_text(b: bool) -> Seq<char> {
    if b {
        "true"@
    } else {
        "false"@
    }
}

pub fn bool_str(b: bool) -> (r: &'static str)
    ensures
        r@ == bool_text(b),
{
    if b {
        "true"
    } else {
        "false"
    }
}

pub open spec fn cloud_kind_text(k: Option<CloudKind>) -> Seq<char> {
    match k {
        Some(CloudKind::Storage) => "Some(Storage)"@,
        Some(CloudKind::Service) => "Some(Service)"@,
        None => "None"@,
    }
}

pub open spec fn app_kind_text(k: Option<AppKind>) -> Seq<char> {
    match k {
        Some(AppKind::Cli) => "Some(Cli)"@,
        Some(AppKind::Desktop) => "Some(Desktop)"@,
        None => "None"@,
    }
}

pub open spec fn item_line(name: Seq<char>, enabled: bool, kind: Seq<char>) -> Seq<char> {
    "    - "@ + name + " (enabled="@ + bool_text(enabled) + ", kind="@ + kind + ")\n"@
}

pub open spec fn cloud_lines(items: Seq<(String, CloudModule)>) -> Seq<char>
    decreases items.len(),
{
    if items.len() == 0 {
        seq![]
    } else {
        cloud_lines(items.drop_last()) + item_line(items.last().0@, items.last().1.enabled, cloud_kind_text(items.last().1.kind))
    }
}

pub open spec fn app_lines(items: Seq<(String, AppModule)>) -> Seq<char>
    decreases items.len(),
{
    if items.len() == 0 {
        seq![]
    } else {
        app_lines(items.drop_last()) + item_line(items.last().0@, items.last().1.enabled, app_kind_text(items.last().1.kind))
    }
}

/// The summary: schema, default shell, the group switches, and each cloud
/// and app module with whether it is enabled and its kind.
pub open spec fn summary_text(cfg: Config) -> Seq<char> {
    let m = cfg.modules;
    "apogee report (summary)\n"@ + "======================\n"@ + "schema_version: "@ + decimal(
        cfg.apogee.schema_version as nat,
    ) + "\n"@ + "default_shell: "@ + shell_debug(cfg.apogee.default_shell) + "\n"@ + "\nmodules\n"@
        + "  knobs: cloud="@ + bool_text(m.enable_cloud) + " apps="@ + bool_text(m.enable_apps)
        + " hooks="@ + bool_text(m.enable_hooks) + "\n"@ + "  cloud: enabled="@ + bool_text(
        m.cloud.enabled,
    ) + " items="@ + decimal(m.cloud.items@.len()) + "\n"@ + cloud_lines(m.cloud.items@)
        + "  apps: enabled="@ + bool_text(m.apps.enabled) + " items="@ + decimal(m.apps.items@.len())
        + "\n"@ + app_lines(m.apps.items@) + "  hooks: enabled="@ + bool_text(m.hooks.enabled)
        + " items="@ + decimal(m.hooks.items@.len()) + "\n"@
}

fn push_item(out: &mut String, name: &str, enabled: bool, kind: &str)
    ensures
        final(out)@ == old(out)@ + item_line(name@, enabled, kind@),
{
    out.append("    - ");
    out.append(name);
    out.append(" (enabled=");
    out.append(bool_str(enabled));
    out.append(", kind=");
    out.append(kind);
    out.append(")\n");
    assert(final(out)@ =~= old(out)@ + item_line(name@, enabled, kind@));
}

pub fn summary(cfg: &Config) -> (r: String)
    ensures
        r@ == summary_text(*cfg),
{
    let m = &cfg.modules;
    let mut out = copy_str("apogee report (summary)\n");
    out.append("======================\n");
    out.append("schema_version: ");
    out.append(decimal_str(cfg.apogee.schema_version as u64).as_str());
    out.append("\n");
    out.append("default_shell: ");
    out.append(
        match cfg.apogee.default_shell {
            crate::config::Shell::Zsh => "Zsh",
            crate::config::Shell::Bash => "Bash",
            crate::config::Shell::Fish => "Fish",
            crate::config::Shell::Pwsh => "Pwsh",
        },
    );
    out.append("\n");
    out.append("\nmodules\n");
    out.append("  knobs: cloud=");
    out.append(bool_str(m.enable_cloud));
    out.append(" apps=");
    out.append(bool_str(m.enable_apps));
    out.append(" hooks=");
    out.append(bool_str(m.enable_hooks));
    out.append("\n");
    out.append("  cloud: enabled=");
    out.append(bool_str(m.cloud.enabled));
    out.append(" items=");
    out.append(decimal_str(m.cloud.items.len() as u64).as_str());
    out.append("\n");
    let ghost head1 = out@;
    let mut i: usize = 0;
    assert(m.cloud.items@.subrange(0, 0) =~= Seq::<(String, CloudModule)>::empty());
    while i < m.cloud.items.len()
        invariant
            i <= m.cloud.items@.len(),
            out@ == head1 + cloud_lines(m.cloud.items@.subrange(0, i as int)),
        decreases m.cloud.items@.len() - i,
    {
        assert(m.cloud.items@.subrange(0, i + 1).drop_last() =~= m.cloud.items@.subrange(0, i as int));
        let (name, c) = (&m.cloud.items[i].0, &m.cloud.items[i].1);
        let kind = match c.kind {
            Some(CloudKind::Storage) => "Some(Storage)",
            Some(CloudKind::Service) => "Some(Service)",
            None => "None",
        };
        push_item(&mut out, name.as_str(), c.enabled, kind);
        assert(out@ =~= head1 + cloud_lines(m.cloud.items@.subrange(0, i + 1)));
        i += 1;
    }
    assert(m.cloud.items@.subrange(0, m.cloud.items@.len() as int) =~= m.cloud.items@);
    out.append("  apps: enabled=");
    out.append(bool_str(m.apps.enabled));
    out.append(" items=");
    out.append(decimal_str(m.apps.items.len() as u64).as_str());
    out.append("\n");
    let ghost head2 = out@;
    let mut j: usize = 0;
    assert(m.apps.items@.subrange(0, 0) =~= Seq::<(String, AppModule)>::empty());
    while j < m.apps.items.len()
        invariant
            j <= m.apps.items@.len(),
            out@ == head2 + app_lines(m.apps.items@.subrange(0, j as int)),
        decreases m.apps.items@.len() - j,
    {
        assert(m.apps.items@.subrange(0, j + 1).drop_last() =~= m.apps.items@.subrange(0, j as int));
        let (name, a) = (&m.apps.items[j].0, &m.apps.items[j].1);
        let kind = match a.kind {
            Some(AppKind::Cli) => "Some(Cli)",
            Some(AppKind::Desktop) => "Some(Desktop)",
            None => "None",
        };
        push_item(&mut out, name.as_str(), a.enabled, kind);
        assert(out@ =~= head2 + app_lines(m.apps.items@.subrange(0, j + 1)));
        j += 1;
    }
    assert(m.apps.items@.subrange(0, m.apps.items@.len() as int) =~= m.apps.items@);
    out.append("  hooks: enabled=");
    out.append(bool_str(m.hooks.enabled));
    out.append(" items=");
    out.append(decimal_str(m.hooks.items.len() as u64).as_str());
    out.append("\n");
    assert(out@ =~= summary_text(*cfg));
    out
}

} // verus!
