//! Shell code generation, one dialect per emitter.

use vstd::prelude::*;
use crate::config::Shell;
use crate::quote::{
    pwsh_refs, quote_double, quote_posix_single, quote_pwsh, quoted_double,
    quoted_posix_single, quoted_pwsh, rewrite_env_refs_for_pwsh,
};
use crate::text::{copy_str, has_char, push_char};

verus! {

/// A value as the dialect sees it: PowerShell gets its own reference syntax.
pub open spec fn for_shell(shell: Shell, s: Seq<char>) -> Seq<char> {
    if shell == Shell::Pwsh {
        pwsh_refs(s)
    } else {
        s
    }
}

pub open spec fn is_posix(shell: Shell) -> bool {
    shell == Shell::Zsh || shell == Shell::Bash
}

pub open spec fn header_text(title: Seq<char>) -> Seq<char> {
    "# "@ + title + seq!['\n', '\n']
}

pub open spec fn comment_text(text: Seq<char>) -> Seq<char> {
    "# "@ + text + seq!['\n']
}

#[verifier::opaque]
pub open spec fn set_env_text(shell: Shell, k: Seq<char>, v: Seq<char>) -> Seq<char> {
    let w = for_shell(shell, v);
    if is_posix(shell) {
        "export "@ + k + "="@ + quoted_double(w) + seq!['\n']
    } else if shell == Shell::Fish {
        "set -gx "@ + k + " "@ + quoted_double(w) + seq!['\n']
    } else {
        "$env:"@ + k + " = "@ + quoted_pwsh(w) + seq!['\n']
    }
}

/// POSIX shells get a single-quoted alias; fish and PowerShell a one-line
/// function, which passes its arguments on.
#[verifier::opaque]
pub open spec fn alias_text(shell: Shell, name: Seq<char>, cmd: Seq<char>) -> Seq<char> {
    let c = for_shell(shell, cmd);
    if is_posix(shell) {
        "alias "@ + name + "="@ + quoted_posix_single(c) + seq!['\n']
    } else if shell == Shell::Fish {
        "function "@ + name + "; "@ + c + " $argv; end"@ + seq!['\n']
    } else {
        "function "@ + name + " { "@ + c + " @args }"@ + seq!['\n']
    }
}

pub open spec fn quote_for(shell: Shell, s: Seq<char>) -> Seq<char> {
    if shell == Shell::Pwsh {
        quoted_pwsh(s)
    } else {
        quoted_double(s)
    }
}

/// Each argument quoted and preceded by a space.
pub open spec fn args_text(shell: Shell, args: Seq<Seq<char>>) -> Seq<char>
    decreases args.len(),
{
    if args.len() == 0 {
        seq![]
    } else {
        args_text(shell, args.drop_last()) + seq![' '] + quote_for(shell, for_shell(shell, args.last()))
    }
}

/// The command line that prints a tool's init script.
pub open spec fn words_text(shell: Shell, c: Seq<char>, args: Seq<Seq<char>>) -> Seq<char> {
    if shell == Shell::Pwsh {
        "& "@ + quoted_pwsh(c) + args_text(shell, args)
    } else {
        quoted_double(c) + args_text(shell, args)
    }
}

pub open spec fn looks_like_path(c: Seq<char>) -> bool {
    c.contains('/') || c.contains('\\')
}

#[verifier::opaque]
pub open spec fn init_text(shell: Shell, cmd: Seq<char>, args: Seq<Seq<char>>, out_string: bool) -> Seq<char> {
    let c = for_shell(shell, cmd);
    let w = words_text(shell, c, args);
    if is_posix(shell) {
        if looks_like_path(c) {
            "if [ -x "@ + quoted_double(c) + " ]; then eval \"$("@ + w + ")\"; fi"@ + seq!['\n']
        } else {
            "if command -v "@ + c + " >/dev/null 2>&1; then eval \"$("@ + w + ")\"; fi"@ + seq!['\n']
        }
    } else if shell == Shell::Fish {
        if looks_like_path(c) {
            "if test -x "@ + quoted_double(c) + "; "@ + w + " | source; end"@ + seq!['\n']
        } else {
            "if type -q "@ + c + "; "@ + w + " | source; end"@ + seq!['\n']
        }
    } else {
        (if looks_like_path(c) {
            "if (Test-Path -Path "@ + quoted_pwsh(c) + " -PathType Leaf) { "@
        } else {
            "if (Get-Command "@ + quoted_pwsh(c) + " -ErrorAction SilentlyContinue) { "@
        }) + (if out_string {
            "Invoke-Expression (& { ("@ + w + " | Out-String) })"@
        } else {
            "Invoke-Expression ("@ + w + ")"@
        }) + " }"@ + seq!['\n']
    }
}

/// A guarded PATH change: only where the directory exists and PATH does not
/// already hold it, as the shell finds them when it runs the line.
#[verifier::opaque]
pub open spec fn path_text(shell: Shell, dir: Seq<char>, prepend: bool) -> Seq<char> {
    let d = for_shell(shell, dir);
    if is_posix(shell) {
        "if [ -d "@ + quoted_double(d) + " ]; then __apogee_dir="@ + quoted_double(d)
            + "; case \":$PATH:\" in *\":$__apogee_dir:\"*) ;; *) export PATH="@ + quoted_double(
            if prepend {
                "$__apogee_dir:$PATH"@
            } else {
                "$PATH:$__apogee_dir"@
            },
        ) + " ;; esac; unset __apogee_dir; fi"@ + seq!['\n']
    } else if shell == Shell::Fish {
        "if test -d "@ + quoted_double(d) + (if prepend {
            "; fish_add_path -g -p "@
        } else {
            "; fish_add_path -g -a "@
        }) + quoted_double(d) + "; end"@ + seq!['\n']
    } else {
        "if (Test-Path -Path "@ + quoted_pwsh(d) + " -PathType Container) { "@
            + "$sep = [IO.Path]::PathSeparator; "@ + "$parts = $env:PATH -split [regex]::Escape($sep); "@
            + "if ($parts -notcontains "@ + quoted_pwsh(d) + (if prepend {
            ") { $env:PATH = (@("@ + quoted_pwsh(d) + ", $env:PATH) | Where-Object { $_ }) -join $sep } }"@
        } else {
            ") { $env:PATH = (@($env:PATH, "@ + quoted_pwsh(d) + ") | Where-Object { $_ }) -join $sep } }"@
        }) + seq!['\n']
    }
}

#[verifier::opaque]
pub open spec fn source_text(shell: Shell, path: Seq<char>) -> Seq<char> {
    let p = for_shell(shell, path);
    if is_posix(shell) {
        "if [ -r "@ + quoted_double(p) + " ]; then source "@ + quoted_double(p) + "; fi"@ + seq!['\n']
    } else if shell == Shell::Fish {
        "if test -r "@ + quoted_double(p) + "; source "@ + quoted_double(p) + "; end"@ + seq!['\n']
    } else {
        "if (Test-Path -Path "@ + quoted_pwsh(p) + " -PathType Leaf) { . "@ + quoted_pwsh(p) + " }"@
            + seq!['\n']
    }
}

/// Writes shell code for one dialect.
#[derive(Debug, Clone, Copy)]
pub struct Emitter {
    pub shell: Shell,
}

impl Emitter {
    pub fn new(shell: Shell) -> (r: Emitter)
        ensures
            r.shell == shell,
    {
        Emitter { shell }
    }

    pub fn header(&self, out: &mut String, title: &str)
        ensures
            final(out)@ == old(out)@ + header_text(title@),
    {
        out.append("# ");
        out.append(title);
        push_char(out, '\n');
        push_char(out, '\n');
        assert(final(out)@ =~= old(out)@ + header_text(title@));
    }

    pub fn comment(&self, out: &mut String, text: &str)
        ensures
            final(out)@ == old(out)@ + comment_text(text@),
    {
        out.append("# ");
        out.append(text);
        push_char(out, '\n');
        assert(final(out)@ =~= old(out)@ + comment_text(text@));
    }

    pub fn blank(&self, out: &mut String)
        ensures
            final(out)@ == old(out)@.push('\n'),
    {
        push_char(out, '\n');
    }

    fn rewrite_value_for_shell(&self, s: &str) -> (r: String)
        ensures
            r@ == for_shell(self.shell, s@),
    {
        match self.shell {
            Shell::Pwsh => rewrite_env_refs_for_pwsh(s),
            _ => copy_str(s),
        }
    }

    fn quote(&self, s: &str) -> (r: String)
        ensures
            r@ == quote_for(self.shell, s@),
    {
        match self.shell {
            Shell::Pwsh => quote_pwsh(s),
            _ => quote_double(s),
        }
    }

    pub fn set_env(&self, out: &mut String, key: &str, value: &str)
        ensures
            final(out)@ == old(out)@ + set_env_text(self.shell, key@, value@),
    {
        let v = self.rewrite_value_for_shell(value);
        match self.shell {
            Shell::Zsh | Shell::Bash => {
                out.append("export ");
                out.append(key);
                out.append("=");
                out.append(quote_double(v.as_str()).as_str());
            },
            Shell::Fish => {
                out.append("set -gx ");
                out.append(key);
                out.append(" ");
                out.append(quote_double(v.as_str()).as_str());
            },
            Shell::Pwsh => {
                out.append("$env:");
                out.append(key);
                out.append(" = ");
                out.append(quote_pwsh(v.as_str()).as_str());
            },
        }
        push_char(out, '\n');
        reveal(set_env_text);
        assert(final(out)@ =~= old(out)@ + set_env_text(self.shell, key@, value@));
    }

    pub fn alias(&self, out: &mut String, name: &str, command: &str)
        ensures
            final(out)@ == old(out)@ + alias_text(self.shell, name@, command@),
    {
        let cmd = self.rewrite_value_for_shell(command);
        match self.shell {
            Shell::Zsh | Shell::Bash => {
                out.append("alias ");
                out.append(name);
                out.append("=");
                out.append(quote_posix_single(cmd.as_str()).as_str());
            },
            Shell::Fish => {
                out.append("function ");
                out.append(name);
                out.append("; ");
                out.append(cmd.as_str());
                out.append(" $argv; end");
            },
            Shell::Pwsh => {
                out.append("function ");
                out.append(name);
                out.append(" { ");
                out.append(cmd.as_str());
                out.append(" @args }");
            },
        }
        push_char(out, '\n');
        reveal(alias_text);
        assert(final(out)@ =~= old(out)@ + alias_text(self.shell, name@, command@));
    }

    fn words(&self, c: &str, args: &Vec<String>) -> (r: String)
        ensures
            r@ == words_text(self.shell, c@, args@.map_values(|a: String| a@)),
    {
        let ghost av = args@.map_values(|a: String| a@);
        let mut out = String::new();
        if self.shell == Shell::Pwsh {
            out.append("& ");
        }
        out.append(self.quote(c).as_str());
        let ghost head = out@;
        let mut i: usize = 0;
        assert(av.subrange(0, 0) =~= Seq::<Seq<char>>::empty());
        assert(out@ =~= head + args_text(self.shell, av.subrange(0, 0)));
        while i < args.len()
            invariant
                i <= args@.len(),
                av == args@.map_values(|a: String| a@),
                out@ == head + args_text(self.shell, av.subrange(0, i as int)),
            decreases args@.len() - i,
        {
            push_char(&mut out, ' ');
            let a = self.rewrite_value_for_shell(args[i].as_str());
            out.append(self.quote(a.as_str()).as_str());
            proof {
                assert(av.subrange(0, i + 1).drop_last() =~= av.subrange(0, i as int));
                assert(out@ =~= head + args_text(self.shell, av.subrange(0, i + 1)));
            }
            i += 1;
        }
        assert(av.subrange(0, args@.len() as int) =~= av);
        proof {
            if self.shell == Shell::Pwsh {
                assert(out@ =~= words_text(self.shell, c@, av));
            } else {
                assert(out@ =~= words_text(self.shell, c@, av));
            }
        }
        out
    }

    /// Evaluates a tool's init script where the tool can be found.
    pub fn init_eval_if_exists(&self, out: &mut String, cmd: &str, args: &Vec<String>, pwsh_out_string: bool)
        ensures
            final(out)@ == old(out)@ + init_text(
                self.shell,
                cmd@,
                args@.map_values(|a: String| a@),
                pwsh_out_string,
            ),
    {
        let c = self.rewrite_value_for_shell(cmd);
        let is_path = has_char(c.as_str(), '/') || has_char(c.as_str(), '\\');
        let w = self.words(c.as_str(), args);
        match self.shell {
            Shell::Zsh | Shell::Bash => {
                if is_path {
                    out.append("if [ -x ");
                    out.append(quote_double(c.as_str()).as_str());
                    out.append(" ]; then eval \"$(");
                } else {
                    out.append("if command -v ");
                    out.append(c.as_str());
                    out.append(" >/dev/null 2>&1; then eval \"$(");
                }
                out.append(w.as_str());
                out.append(")\"; fi");
            },
            Shell::Fish => {
                if is_path {
                    out.append("if test -x ");
                    out.append(quote_double(c.as_str()).as_str());
                } else {
                    out.append("if type -q ");
                    out.append(c.as_str());
                }
                out.append("; ");
                out.append(w.as_str());
                out.append(" | source; end");
            },
            Shell::Pwsh => {
                if is_path {
                    out.append("if (Test-Path -Path ");
                    out.append(quote_pwsh(c.as_str()).as_str());
                    out.append(" -PathType Leaf) { ");
                } else {
                    out.append("if (Get-Command ");
                    out.append(quote_pwsh(c.as_str()).as_str());
                    out.append(" -ErrorAction SilentlyContinue) { ");
                }
                if pwsh_out_string {
                    out.append("Invoke-Expression (& { (");
                    out.append(w.as_str());
                    out.append(" | Out-String) })");
                } else {
                    out.append("Invoke-Expression (");
                    out.append(w.as_str());
                    out.append(")");
                }
                out.append(" }");
            },
        }
        push_char(out, '\n');
        proof {
            reveal_strlit("; ");
            reveal(init_text);
        }
        assert(final(out)@ =~= old(out)@ + init_text(
            self.shell,
            cmd@,
            args@.map_values(|a: String| a@),
            pwsh_out_string,
        ));
    }

    fn path_guard(&self, out: &mut String, dir: &str, prepend: bool)
        ensures
            final(out)@ == old(out)@ + path_text(self.shell, dir@, prepend),
    {
        let d = self.rewrite_value_for_shell(dir);
        match self.shell {
            Shell::Zsh | Shell::Bash => {
                let q = quote_double(d.as_str());
                out.append("if [ -d ");
                out.append(q.as_str());
                out.append(" ]; then __apogee_dir=");
                out.append(q.as_str());
                out.append("; case \":$PATH:\" in *\":$__apogee_dir:\"*) ;; *) export PATH=");
                if prepend {
                    out.append(quote_double("$__apogee_dir:$PATH").as_str());
                } else {
                    out.append(quote_double("$PATH:$__apogee_dir").as_str());
                }
                out.append(" ;; esac; unset __apogee_dir; fi");
            },
            Shell::Fish => {
                let q = quote_double(d.as_str());
                out.append("if test -d ");
                out.append(q.as_str());
                if prepend {
                    out.append("; fish_add_path -g -p ");
                } else {
                    out.append("; fish_add_path -g -a ");
                }
                out.append(q.as_str());
                out.append("; end");
            },
            Shell::Pwsh => {
                let q = quote_pwsh(d.as_str());
                out.append("if (Test-Path -Path ");
                out.append(q.as_str());
                out.append(" -PathType Container) { ");
                out.append("$sep = [IO.Path]::PathSeparator; ");
                out.append("$parts = $env:PATH -split [regex]::Escape($sep); ");
                out.append("if ($parts -notcontains ");
                out.append(q.as_str());
                if prepend {
                    out.append(") { $env:PATH = (@(");
                    out.append(q.as_str());
                    out.append(", $env:PATH) | Where-Object { $_ }) -join $sep } }");
                } else {
                    out.append(") { $env:PATH = (@($env:PATH, ");
                    out.append(q.as_str());
                    out.append(") | Where-Object { $_ }) -join $sep } }");
                }
            },
        }
        push_char(out, '\n');
        reveal(path_text);
        assert(final(out)@ =~= old(out)@ + path_text(self.shell, dir@, prepend));
    }

    /// Appends `dir` to PATH at run time where it is a directory not yet on PATH.
    pub fn path_append_if_exists(&self, out: &mut String, dir: &str)
        ensures
            final(out)@ == old(out)@ + path_text(self.shell, dir@, false),
    {
        self.path_guard(out, dir, false);
    }

    /// Puts `dir` in front of PATH at run time where it is a directory not yet on PATH.
    pub fn path_prepend_if_exists(&self, out: &mut String, dir: &str)
        ensures
            final(out)@ == old(out)@ + path_text(self.shell, dir@, true),
    {
        self.path_guard(out, dir, true);
    }

    /// Sources `path` where it is readable.
    pub fn source_if_exists(&self, out: &mut String, path: &str)
        ensures
            final(out)@ == old(out)@ + source_text(self.shell, path@),
    {
        let p = self.rewrite_value_for_shell(path);
        match self.shell {
            Shell::Zsh | Shell::Bash => {
                let q = quote_double(p.as_str());
                out.append("if [ -r ");
                out.append(q.as_str());
                out.append(" ]; then source ");
                out.append(q.as_str());
                out.append("; fi");
            },
            Shell::Fish => {
                let q = quote_double(p.as_str());
                out.append("if test -r ");
                out.append(q.as_str());
                out.append("; source ");
                out.append(q.as_str());
                out.append("; end");
            },
            Shell::Pwsh => {
                let q = quote_pwsh(p.as_str());
                out.append("if (Test-Path -Path ");
                out.append(q.as_str());
                out.append(" -PathType Leaf) { . ");
                out.append(q.as_str());
                out.append(" }");
            },
        }
        push_char(out, '\n');
        reveal(source_text);
        assert(final(out)@ =~= old(out)@ + source_text(self.shell, path@));
    }
}

} // verus!
