//! A line-oriented script buffer, with the prelude and alias forms that use it.

use vstd::prelude::*;
use crate::config::{Platform, Shell};
use crate::emit::is_posix;
use crate::quote::{escape_with, lemma_escape_step, quote_double, quoted_double};
use crate::text::{chars_of, copy_str, push_char};
use crate::varmap::PairV;

verus! {

#[derive(Debug, Default)]
pub struct ScriptBuilder {
    buf: String,
}

impl View for ScriptBuilder {
    type V = Seq<char>;

    closed spec fn view(&self) -> Seq<char> {
        self.buf@
    }
}

impl ScriptBuilder {
    pub fn new() -> (r: ScriptBuilder)
        ensures
            r@ == Seq::<char>::empty(),
    {
        ScriptBuilder { buf: String::new() }
    }

    /// Appends `line` and a line feed.
    pub fn push_line(&mut self, line: &str)
        ensures
            final(self)@ == old(self)@ + line@ + seq!['\n'],
    {
        self.buf.append(line);
        push_char(&mut self.buf, '\n');
        assert(final(self)@ =~= old(self)@ + line@ + seq!['\n']);
    }

    /// Appends `s` as it is.
    pub fn push_fmt(&mut self, s: &str)
        ensures
            final(self)@ == old(self)@ + s@,
    {
        self.buf.append(s);
    }

    pub fn finish(self) -> (r: String)
        ensures
            r@ == self@,
    {
        self.buf
    }
}

/// In POSIX single quotes, `'` becomes `'"'"'`.
pub open spec fn sq_break(c: char) -> Seq<char> {
    if c == '\'' {
        seq!['\'', '"', '\'', '"', '\'']
    } else {
        seq![c]
    }
}

fn escape_single_quotes(s: &str) -> (r: String)
    ensures
        r@ == escape_with(s@, |c: char| sq_break(c)),
{
    let cs = chars_of(s);
    let ghost f = |c: char| sq_break(c);
    let mut out = String::new();
    let mut i: usize = 0;
    while i < cs.len()
        invariant
            cs@ == s@,
            f == (|c: char| sq_break(c)),
            i <= cs@.len(),
            out@ == escape_with(cs@.subrange(0, i as int), f),
        decreases cs@.len() - i,
    {
        let ghost o = out@;
        if cs[i] == '\'' {
            push_char(&mut out, '\'');
            push_char(&mut out, '"');
            push_char(&mut out, '\'');
            push_char(&mut out, '"');
            push_char(&mut out, '\'');
        } else {
            push_char(&mut out, cs[i]);
        }
        proof {
            assert(out@ =~= o + sq_break(cs@[i as int]));
            lemma_escape_step(cs@, i as int, f);
        }
        i += 1;
    }
    assert(cs@.subrange(0, cs@.len() as int) =~= cs@);
    out
}

pub open spec fn alias_line(shell: Shell, name: Seq<char>, value: Seq<char>) -> Seq<char> {
    if is_posix(shell) {
        "alias "@ + name + "='"@ + escape_with(value, |c: char| sq_break(c)) + "'"@
    } else if shell == Shell::Fish {
        "function "@ + name + "; "@ + value + "; end"@
    } else {
        "function "@ + name + " { "@ + value + " }"@
    }
}

pub open spec fn alias_lines(shell: Shell, aliases: Seq<PairV>) -> Seq<char>
    decreases aliases.len(),
{
    if aliases.len() == 0 {
        seq![]
    } else {
        alias_lines(shell, aliases.drop_last()) + alias_line(shell, aliases.last().0, aliases.last().1)
            + seq!['\n']
    }
}

/// One alias line per entry, in the shell's form, in key order.
pub fn emit_aliases(shell: Shell, aliases: &Vec<(String, String)>, out: &mut ScriptBuilder)
    ensures
        final(out)@ == old(out)@ + alias_lines(shell, crate::activate::sorted_pairs(aliases@)),
{
    let raw = aliases;
    let sorted = crate::activate::sort_pairs(raw);
    let aliases = &sorted;
    let ghost av = crate::activate::pair_views(aliases@);
    let mut i: usize = 0;
    assert(av.subrange(0, 0) =~= Seq::<PairV>::empty());
    assert(out@ =~= old(out)@ + alias_lines(shell, av.subrange(0, 0)));
    while i < aliases.len()
        invariant
            av == crate::activate::pair_views(aliases@),
            i <= aliases@.len(),
            out@ == old(out)@ + alias_lines(shell, av.subrange(0, i as int)),
        decreases aliases@.len() - i,
    {
        assert(av.subrange(0, i + 1).drop_last() =~= av.subrange(0, i as int));
        let name = aliases[i].0.as_str();
        let value = aliases[i].1.as_str();
        let mut line = String::new();
        match shell {
            Shell::Zsh | Shell::Bash => {
                line.append("alias ");
                line.append(name);
                line.append("='");
                line.append(escape_single_quotes(value).as_str());
                line.append("'");
            },
            Shell::Fish => {
                line.append("function ");
                line.append(name);
                line.append("; ");
                line.append(value);
                line.append("; end");
            },
            Shell::Pwsh => {
                line.append("function ");
                line.append(name);
                line.append(" { ");
                line.append(value);
                line.append(" }");
            },
        }
        assert(line@ =~= alias_line(shell, av[i as int].0, av[i as int].1));
        out.push_line(line.as_str());
        assert(out@ =~= old(out)@ + alias_lines(shell, av.subrange(0, i + 1)));
        i += 1;
    }
    assert(av.subrange(0, aliases@.len() as int) =~= av);
}

pub open spec fn shell_debug(s: Shell) -> Seq<char> {
    match s {
        Shell::Zsh => "Zsh"@,
        Shell::Bash => "Bash"@,
        Shell::Fish => "Fish"@,
        Shell::Pwsh => "Pwsh"@,
    }
}

pub open spec fn platform_debug(p: Platform) -> Seq<char> {
    match p {
        Platform::Mac => "Mac"@,
        Platform::Linux => "Linux"@,
        Platform::Windows => "Windows"@,
        Platform::Wsl => "Wsl"@,
        Platform::Other => "Other"@,
    }
}

#[verifier::opaque]
pub open spec fn info_line(shell: Shell, platform: Platform, host: Seq<char>) -> Seq<char> {
    "# shell="@ + shell_debug(shell) + " platform="@ + platform_debug(platform) + " host="@
        + quoted_double(host)
}

pub open spec fn prelude_text(shell: Shell, platform: Platform, host: Seq<char>) -> Seq<char> {
    let info = info_line(shell, platform, host) + seq!['\n'];
    if is_posix(shell) {
        "# apogee generated (eval)\n"@ + info + "\n"@ + "if [ -n \"${APOGEE_LOADED-}\" ]; then\n"@
            + "  return 0 2>/dev/null || exit 0\n"@ + "fi\n"@ + "export APOGEE_LOADED=1\n"@ + "\n"@
    } else if shell == Shell::Fish {
        "# apogee generated (source)\n"@ + info + "\n"@ + "if set -q APOGEE_LOADED\n"@ + "  return\n"@
            + "end\n"@ + "set -gx APOGEE_LOADED 1\n"@ + "\n"@
    } else {
        "# apogee generated (iex)\n"@ + info + "\n"@ + "if ($env:APOGEE_LOADED) { return }\n"@
            + "$env:APOGEE_LOADED = \"1\"\n"@ + "\n"@
    }
}

fn prelude_info(shell: Shell, platform: Platform, host: &str) -> (r: String)
    ensures
        r@ == info_line(shell, platform, host@),
{
    let mut info = copy_str("# shell=");
    info.append(
        match shell {
            Shell::Zsh => "Zsh",
            Shell::Bash => "Bash",
            Shell::Fish => "Fish",
            Shell::Pwsh => "Pwsh",
        },
    );
    info.append(" platform=");
    info.append(
        match platform {
            Platform::Mac => "Mac",
            Platform::Linux => "Linux",
            Platform::Windows => "Windows",
            Platform::Wsl => "Wsl",
            Platform::Other => "Other",
        },
    );
    info.append(" host=");
    info.append(quote_double(host).as_str());
    proof {
        reveal(info_line);
    }
    assert(info@ =~= info_line(shell, platform, host@));
    info
}

/// The loaded-once guard that opens a generated script.
pub fn emit_prelude(shell: Shell, platform: Platform, host: &str, out: &mut ScriptBuilder)
    ensures
        final(out)@ == old(out)@ + prelude_text(shell, platform, host@),
{
    let info = prelude_info(shell, platform, host);
    let ghost o = out@;
    match shell {
        Shell::Zsh | Shell::Bash => {
            out.push_fmt("# apogee generated (eval)\n");
            out.push_line(info.as_str());
            out.push_fmt("\n");
            out.push_fmt("if [ -n \"${APOGEE_LOADED-}\" ]; then\n");
            out.push_fmt("  return 0 2>/dev/null || exit 0\n");
            out.push_fmt("fi\n");
            out.push_fmt("export APOGEE_LOADED=1\n");
            out.push_fmt("\n");
        },
        Shell::Fish => {
            out.push_fmt("# apogee generated (source)\n");
            out.push_line(info.as_str());
            out.push_fmt("\n");
            out.push_fmt("if set -q APOGEE_LOADED\n");
            out.push_fmt("  return\n");
            out.push_fmt("end\n");
            out.push_fmt("set -gx APOGEE_LOADED 1\n");
            out.push_fmt("\n");
        },
        Shell::Pwsh => {
            out.push_fmt("# apogee generated (iex)\n");
            out.push_line(info.as_str());
            out.push_fmt("\n");
            out.push_fmt("if ($env:APOGEE_LOADED) { return }\n");
            out.push_fmt("$env:APOGEE_LOADED = \"1\"\n");
            out.push_fmt("\n");
        },
    }
    assert(out@ =~= o + prelude_text(shell, platform, host@));
}

} // verus!
