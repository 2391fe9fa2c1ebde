//! Expansion of `{token}` placeholders against the context, the runtime
//! variables and, for one module, its detection record.

use vstd::prelude::*;
use crate::config::{platform_name, shell_name, shell_of, Shell};
use crate::context::{join_path, path_join, ContextEnv};
use crate::error::Error;
use crate::text::{chars_of, copy_str, has_prefix, push_char, starts_with, str_eq, string_of, trim, trim_str};
use crate::varmap::VarMap;

verus! {

pub type Vars = Map<Seq<char>, Seq<char>>;

/// The trimmed value of `k`, where it is set and not blank.
pub open spec fn env_nonempty(env: Vars, k: Seq<char>) -> Option<Seq<char>> {
    if env.contains_key(k) && trim(env[k]).len() > 0 {
        Some(trim(env[k]))
    } else {
        None
    }
}

/// `APOGEE_SHELL` where it names a shell, else the shell the context found.
pub open spec fn effective_shell(ctx: ContextEnv, env: Vars) -> Option<Shell> {
    if env.contains_key("APOGEE_SHELL"@) && shell_of(env["APOGEE_SHELL"@]) is Some {
        shell_of(env["APOGEE_SHELL"@])
    } else {
        ctx.shell_type
    }
}

pub open spec fn shell_ext_of(sh: Option<Shell>) -> Seq<char> {
    match sh {
        Some(Shell::Zsh) => "zsh"@,
        Some(Shell::Bash) => "bash"@,
        Some(Shell::Fish) => "fish"@,
        Some(Shell::Pwsh) => "ps1"@,
        None => "sh"@,
    }
}

pub open spec fn shell_family_of(sh: Option<Shell>) -> Seq<char> {
    match sh {
        Some(Shell::Fish) => "fish"@,
        Some(Shell::Pwsh) => "pwsh"@,
        _ => "posix"@,
    }
}

pub open spec fn shell_family_ext_of(sh: Option<Shell>) -> Seq<char> {
    match sh {
        Some(Shell::Fish) => "fish"@,
        Some(Shell::Pwsh) => "ps1"@,
        _ => "sh"@,
    }
}

/// The shell name that tools' `init` subcommands expect.
pub open spec fn shell_init_of(sh: Option<Shell>) -> Seq<char> {
    match sh {
        Some(Shell::Zsh) => "zsh"@,
        Some(Shell::Bash) => "bash"@,
        Some(Shell::Fish) => "fish"@,
        Some(Shell::Pwsh) => "powershell"@,
        None => "sh"@,
    }
}

pub open spec fn opt_view(o: Option<String>) -> Option<Seq<char>> {
    match o {
        Some(s) => Some(s@),
        None => None,
    }
}

pub open spec fn or_else(a: Option<Seq<char>>, b: Option<Seq<char>>) -> Option<Seq<char>> {
    if a is Some {
        a
    } else {
        b
    }
}

pub open spec fn or_default(a: Option<Seq<char>>, b: Seq<char>) -> Seq<char> {
    match a {
        Some(x) => x,
        None => b,
    }
}

/// The value of one token name, where the name is known.
pub open spec fn token_value_of(ctx: ContextEnv, env: Vars, detect: Option<Vars>, tok: Seq<char>) -> Option<Seq<char>> {
    let sh = effective_shell(ctx, env);
    let home = ctx.home@;
    if starts_with(tok, "detect."@) {
        let rest = tok.subrange("detect."@.len() as int, tok.len() as int);
        match detect {
            Some(d) => if d.contains_key(rest) {
                Some(d[rest])
            } else {
                None
            },
            None => None,
        }
    } else if tok == "home"@ {
        Some(home)
    } else if tok == "config_dir"@ {
        opt_view(ctx.config_dir)
    } else if tok == "config_path"@ {
        opt_view(ctx.config_path)
    } else if tok == "host"@ {
        Some(ctx.host@)
    } else if tok == "platform"@ {
        Some(platform_name(ctx.platform))
    } else if tok == "shell"@ {
        Some(
            match sh {
                Some(s) => shell_name(s),
                None => "unknown"@,
            },
        )
    } else if tok == "shell_ext"@ {
        Some(shell_ext_of(sh))
    } else if tok == "shell_family"@ {
        Some(shell_family_of(sh))
    } else if tok == "shell_family_ext"@ {
        Some(shell_family_ext_of(sh))
    } else if tok == "xdg_config_home"@ {
        Some(or_default(env_nonempty(env, "XDG_CONFIG_HOME"@), ctx.xdg_config_home@))
    } else if tok == "xdg_cache_home"@ {
        Some(or_default(env_nonempty(env, "XDG_CACHE_HOME"@), path_join(ctx.platform, home, ".cache"@)))
    } else if tok == "xdg_data_home"@ {
        Some(
            or_default(
                env_nonempty(env, "XDG_DATA_HOME"@),
                path_join(ctx.platform, path_join(ctx.platform, home, ".local"@), "share"@),
            ),
        )
    } else if tok == "xdg_state_home"@ {
        Some(
            or_default(
                env_nonempty(env, "XDG_STATE_HOME"@),
                path_join(ctx.platform, path_join(ctx.platform, home, ".local"@), "state"@),
            ),
        )
    } else if tok == "shell_init"@ {
        Some(shell_init_of(sh))
    } else if tok == "userprofile"@ {
        or_else(env_nonempty(env, "USERPROFILE"@), env_nonempty(env, "HOME"@))
    } else if tok == "username"@ {
        or_else(env_nonempty(env, "USERNAME"@), env_nonempty(env, "USER"@))
    } else {
        None
    }
}

/// Why a string does not resolve.
pub enum ResolveFail {
    Unclosed,
    Empty,
    Unknown(Seq<char>),
}

pub open spec fn prepend(p: Seq<char>, r: Result<Seq<char>, ResolveFail>) -> Result<Seq<char>, ResolveFail> {
    match r {
        Ok(t) => Ok(p + t),
        Err(e) => Err(e),
    }
}

/// The first `}` at or after `j`, or the length where there is none.
pub open spec fn next_close(s: Seq<char>, j: int) -> int
    decreases s.len() - j,
{
    if j < 0 || j >= s.len() {
        s.len() as int
    } else if s[j] == '}' {
        j
    } else {
        next_close(s, j + 1)
    }
}

/// The expansion of `s` from position `i` on: `{{` and `}}` stand for one
/// brace, `${...}` is passed through untouched, `{name}` becomes the token's
/// value, and a lone `}` stays.
pub open spec fn resolve_from(tv: spec_fn(Seq<char>) -> Option<Seq<char>>, s: Seq<char>, i: int) -> Result<Seq<char>, ResolveFail>
    decreases s.len() - i,
{
    if i < 0 || i >= s.len() {
        Ok(seq![])
    } else if s[i] == '{' {
        if i + 1 < s.len() && s[i + 1] == '{' {
            prepend(seq!['{'], resolve_from(tv, s, i + 2))
        } else if i > 0 && s[i - 1] == '$' {
            let e = next_close(s, i + 1);
            if i < e < s.len() {
                prepend(s.subrange(i, e + 1), resolve_from(tv, s, e + 1))
            } else {
                prepend(seq!['{'], resolve_from(tv, s, i + 1))
            }
        } else {
            let e = next_close(s, i + 1);
            if e >= s.len() || e <= i {
                Err(ResolveFail::Unclosed)
            } else if e == i + 1 {
                Err(ResolveFail::Empty)
            } else {
                match tv(s.subrange(i + 1, e)) {
                    Some(v) => prepend(v, resolve_from(tv, s, e + 1)),
                    None => Err(ResolveFail::Unknown(s.subrange(i + 1, e))),
                }
            }
        }
    } else if s[i] == '}' {
        if i + 1 < s.len() && s[i + 1] == '}' {
            prepend(seq!['}'], resolve_from(tv, s, i + 2))
        } else {
            prepend(seq!['}'], resolve_from(tv, s, i + 1))
        }
    } else {
        prepend(seq![s[i]], resolve_from(tv, s, i + 1))
    }
}

proof fn lemma_prepend_assoc(a: Seq<char>, b: Seq<char>, r: Result<Seq<char>, ResolveFail>)
    ensures
        prepend(a, prepend(b, r)) == prepend(a + b, r),
{
    if r is Ok {
        assert(a + (b + r->Ok_0) =~= (a + b) + r->Ok_0);
    }
}

fn find_close(s: &Vec<char>, j: usize) -> (r: usize)
    requires
        j <= s@.len(),
    ensures
        r == next_close(s@, j as int),
        j <= r <= s@.len(),
        forall|k: int| j <= k < r ==> s@[k] != '}',
{
    let mut e = j;
    while e < s.len() && s[e] != '}'
        invariant
            j <= e <= s@.len(),
            next_close(s@, j as int) == next_close(s@, e as int),
            forall|k: int| j <= k < e ==> s@[k] != '}',
        decreases s@.len() - e,
    {
        e += 1;
    }
    e
}

/// Resolves tokens for one context, runtime snapshot and detection record.
pub struct Resolver<'a> {
    pub ctx: &'a ContextEnv,
    pub env: &'a VarMap,
    pub detect: Option<&'a VarMap>,
}

impl<'a> Resolver<'a> {
    pub open spec fn detect_view(&self) -> Option<Vars> {
        match self.detect {
            Some(d) => Some(d@),
            None => None,
        }
    }

    pub open spec fn token_fn(&self) -> spec_fn(Seq<char>) -> Option<Seq<char>> {
        |t: Seq<char>| token_value_of(*self.ctx, self.env@, self.detect_view(), t)
    }

    /// What `resolve` gives for `s`.
    pub open spec fn spec_resolve(&self, s: Seq<char>) -> Result<Seq<char>, ResolveFail> {
        resolve_from(self.token_fn(), s, 0)
    }

    pub fn new(ctx: &'a ContextEnv, env: &'a VarMap) -> (r: Resolver<'a>)
        ensures
            r.ctx == ctx,
            r.env == env,
            r.detect is None,
    {
        Resolver { ctx, env, detect: None }
    }

    /// The same resolver, with `detect.*` tokens read from `detect`.
    pub fn with_detect(self, detect: &'a VarMap) -> (r: Resolver<'a>)
        ensures
            r.ctx == self.ctx,
            r.env == self.env,
            r.detect == Some(detect),
    {
        Resolver { ctx: self.ctx, env: self.env, detect: Some(detect) }
    }

    fn env_nonempty(&self, key: &str) -> (r: Option<String>)
        ensures
            opt_view(r) == env_nonempty(self.env@, key@),
    {
        match self.env.get(key) {
            Some(v) => {
                let t = trim_str(v.as_str());
                if t.as_str().is_empty() {
                    None
                } else {
                    Some(t)
                }
            },
            None => None,
        }
    }

    fn effective_shell(&self) -> (r: Option<Shell>)
        ensures
            r == effective_shell(*self.ctx, self.env@),
    {
        match self.env.get("APOGEE_SHELL") {
            Some(s) => match Shell::parse(s.as_str()) {
                Some(sh) => Some(sh),
                None => self.ctx.shell_type,
            },
            None => self.ctx.shell_type,
        }
    }

    fn token_value(&self, token: &str) -> (r: Option<String>)
        ensures
            opt_view(r) == token_value_of(*self.ctx, self.env@, self.detect_view(), token@),
    {
        if has_prefix(token, "detect.") {
            proof {
                reveal_strlit("detect.");
            }
            let cs = chars_of(token);
            let rest = string_of(&cs, 7, cs.len());
            return match self.detect {
                Some(d) => match d.get(rest.as_str()) {
                    Some(v) => Some(v.clone()),
                    None => None,
                },
                None => None,
            };
        }
        let sh = self.effective_shell();
        let ctx = self.ctx;
        if str_eq(token, "home") {
            Some(ctx.home.clone())
        } else if str_eq(token, "config_dir") {
            ctx.config_dir.clone()
        } else if str_eq(token, "config_path") {
            ctx.config_path.clone()
        } else if str_eq(token, "host") {
            Some(ctx.host.clone())
        } else if str_eq(token, "platform") {
            Some(copy_str(ctx.platform.name()))
        } else if str_eq(token, "shell") {
            Some(
                match sh {
                    Some(s) => copy_str(s.name()),
                    None => copy_str("unknown"),
                },
            )
        } else if str_eq(token, "shell_ext") {
            Some(
                copy_str(
                    match sh {
                        Some(Shell::Zsh) => "zsh",
                        Some(Shell::Bash) => "bash",
                        Some(Shell::Fish) => "fish",
                        Some(Shell::Pwsh) => "ps1",
                        None => "sh",
                    },
                ),
            )
        } else if str_eq(token, "shell_family") {
            Some(
                copy_str(
                    match sh {
                        Some(Shell::Fish) => "fish",
                        Some(Shell::Pwsh) => "pwsh",
                        _ => "posix",
                    },
                ),
            )
        } else if str_eq(token, "shell_family_ext") {
            Some(
                copy_str(
                    match sh {
                        Some(Shell::Fish) => "fish",
                        Some(Shell::Pwsh) => "ps1",
                        _ => "sh",
                    },
                ),
            )
        } else if str_eq(token, "xdg_config_home") {
            match self.env_nonempty("XDG_CONFIG_HOME") {
                Some(v) => Some(v),
                None => Some(ctx.xdg_config_home.clone()),
            }
        } else if str_eq(token, "xdg_cache_home") {
            match self.env_nonempty("XDG_CACHE_HOME") {
                Some(v) => Some(v),
                None => Some(join_path(ctx.platform, ctx.home.as_str(), ".cache")),
            }
        } else if str_eq(token, "xdg_data_home") {
            match self.env_nonempty("XDG_DATA_HOME") {
                Some(v) => Some(v),
                None => {
                    let l = join_path(ctx.platform, ctx.home.as_str(), ".local");
                    Some(join_path(ctx.platform, l.as_str(), "share"))
                },
            }
        } else if str_eq(token, "xdg_state_home") {
            match self.env_nonempty("XDG_STATE_HOME") {
                Some(v) => Some(v),
                None => {
                    let l = join_path(ctx.platform, ctx.home.as_str(), ".local");
                    Some(join_path(ctx.platform, l.as_str(), "state"))
                },
            }
        } else if str_eq(token, "shell_init") {
            Some(
                copy_str(
                    match sh {
                        Some(Shell::Zsh) => "zsh",
                        Some(Shell::Bash) => "bash",
                        Some(Shell::Fish) => "fish",
                        Some(Shell::Pwsh) => "powershell",
                        None => "sh",
                    },
                ),
            )
        } else if str_eq(token, "userprofile") {
            match self.env_nonempty("USERPROFILE") {
                Some(v) => Some(v),
                None => self.env_nonempty("HOME"),
            }
        } else if str_eq(token, "username") {
            match self.env_nonempty("USERNAME") {
                Some(v) => Some(v),
                None => self.env_nonempty("USER"),
            }
        } else {
            None
        }
    }

    /// Expands every token of `input`; fails on an unclosed, empty or unknown token.
    pub fn resolve(&self, input: &str) -> (r: Result<String, Error>)
        ensures
            self.spec_resolve(input@) is Ok <==> r is Ok,
            r matches Ok(t) ==> self.spec_resolve(input@) == Ok::<Seq<char>, ResolveFail>(t@),
            self.spec_resolve(input@) is Err ==> r is Err && resolve_error(
                self.spec_resolve(input@)->Err_0,
                input@,
                r->Err_0,
            ),
    {
        let s = chars_of(input);
        let n = s.len();
        let ghost tv = self.token_fn();
        let mut out = String::new();
        let mut i: usize = 0;
        proof {
            assert(seq![] + resolve_from(tv, s@, 0)->Ok_0 =~= resolve_from(tv, s@, 0)->Ok_0);
        }
        while i < n
            invariant
                n == s@.len(),
                s@ == input@,
                tv == self.token_fn(),
                i <= n,
                resolve_from(tv, s@, 0) == prepend(out@, resolve_from(tv, s@, i as int)),
            decreases n - i,
        {
            let c = s[i];
            let ghost old_out = out@;
            if c == '{' {
                if i + 1 < n && s[i + 1] == '{' {
                    push_char(&mut out, '{');
                    proof {
                        assert(out@ =~= old_out + seq!['{']);
                        lemma_prepend_assoc(old_out, seq!['{'], resolve_from(tv, s@, i + 2));
                    }
                    i += 2;
                } else if i > 0 && s[i - 1] == '$' {
                    let e = find_close(&s, i + 1);
                    if e < n {
                        let piece = string_of(&s, i, e + 1);
                        out.append(piece.as_str());
                        proof {
                            assert(resolve_from(tv, s@, i as int) == prepend(piece@, resolve_from(tv, s@, e + 1)));
                            lemma_prepend_assoc(old_out, piece@, resolve_from(tv, s@, e + 1));
                        }
                        i = e + 1;
                    } else {
                        push_char(&mut out, '{');
                        proof {
                            assert(out@ =~= old_out + seq!['{']);
                            lemma_prepend_assoc(old_out, seq!['{'], resolve_from(tv, s@, i + 1));
                        }
                        i += 1;
                    }
                } else {
                    let e = find_close(&s, i + 1);
                    if e >= n {
                        return Err(Error::UnclosedToken { input: copy_str(input) });
                    }
                    if e == i + 1 {
                        return Err(Error::EmptyToken { input: copy_str(input) });
                    }
                    let tok = string_of(&s, i + 1, e);
                    match self.token_value(tok.as_str()) {
                        Some(v) => {
                            out.append(v.as_str());
                            proof {
                                assert(tok@ == s@.subrange(i + 1, e as int));
                                assert(tv(tok@) == Some(v@));
                                assert(resolve_from(tv, s@, i as int) == prepend(v@, resolve_from(tv, s@, e + 1)));
                                lemma_prepend_assoc(old_out, v@, resolve_from(tv, s@, e + 1));
                            }
                            i = e + 1;
                        },
                        None => {
                            return Err(Error::UnknownToken { token: tok, input: copy_str(input) });
                        },
                    }
                }
            } else if c == '}' {
                if i + 1 < n && s[i + 1] == '}' {
                    push_char(&mut out, '}');
                    proof {
                        assert(out@ =~= old_out + seq!['}']);
                        lemma_prepend_assoc(old_out, seq!['}'], resolve_from(tv, s@, i + 2));
                    }
                    i += 2;
                } else {
                    push_char(&mut out, '}');
                    proof {
                        assert(out@ =~= old_out + seq!['}']);
                        lemma_prepend_assoc(old_out, seq!['}'], resolve_from(tv, s@, i + 1));
                    }
                    i += 1;
                }
            } else {
                push_char(&mut out, c);
                proof {
                    assert(out@ =~= old_out + seq![c]);
                    lemma_prepend_assoc(old_out, seq![c], resolve_from(tv, s@, i + 1));
                }
                i += 1;
            }
        }
        proof {
            assert(out@ + seq![] =~= out@);
        }
        Ok(out)
    }
}

/// `e` is the error that reports `f` on `input`.
pub open spec fn resolve_error(f: ResolveFail, input: Seq<char>, e: Error) -> bool {
    match f {
        ResolveFail::Unclosed => e matches Error::UnclosedToken { input: x } && x@ == input,
        ResolveFail::Empty => e matches Error::EmptyToken { input: x } && x@ == input,
        ResolveFail::Unknown(t) => e matches Error::UnknownToken { token, input: x } && token@ == t
            && x@ == input,
    }
}

/// Escaped braces stand for one brace, `${...}` passes through untouched,
/// and `{host}` is the context's host name, for any context and variables.
pub proof fn lemma_resolve_examples(ctx: ContextEnv, env: Vars, detect: Option<Vars>)
    ensures
        resolve_from(|t: Seq<char>| token_value_of(ctx, env, detect, t), "{{x}}"@, 0)
            == Ok::<Seq<char>, ResolveFail>("{x}"@),
        resolve_from(|t: Seq<char>| token_value_of(ctx, env, detect, t), "${HOME}/x"@, 0)
            == Ok::<Seq<char>, ResolveFail>("${HOME}/x"@),
        resolve_from(|t: Seq<char>| token_value_of(ctx, env, detect, t), "{host}"@, 0)
            == Ok::<Seq<char>, ResolveFail>(ctx.host@),
{
    let tv = |t: Seq<char>| token_value_of(ctx, env, detect, t);
    reveal_strlit("{{x}}");
    reveal_strlit("{x}");
    reveal_strlit("${HOME}/x");
    reveal_strlit("{host}");
    reveal_strlit("host");
    reveal_strlit("detect.");
    let a = "{{x}}"@;
    assert(resolve_from(tv, a, 5) == Ok::<Seq<char>, ResolveFail>(seq![]));
    assert(resolve_from(tv, a, 3) == Ok::<Seq<char>, ResolveFail>(seq!['}']));
    assert(seq!['x'] + seq!['}'] =~= seq!['x', '}']);
    assert(resolve_from(tv, a, 2) == Ok::<Seq<char>, ResolveFail>(seq!['x', '}']));
    assert(seq!['{'] + seq!['x', '}'] =~= seq!['{', 'x', '}']);
    assert(resolve_from(tv, a, 0) == Ok::<Seq<char>, ResolveFail>(seq!['{', 'x', '}']));
    assert(seq!['{', 'x', '}'] =~= "{x}"@);
    let b = "${HOME}/x"@;
    assert(next_close(b, 2) == 6) by {
        assert(next_close(b, 6) == 6);
        assert(next_close(b, 5) == 6);
        assert(next_close(b, 4) == 6);
        assert(next_close(b, 3) == 6);
    }
    assert(resolve_from(tv, b, 9) == Ok::<Seq<char>, ResolveFail>(seq![]));
    assert(resolve_from(tv, b, 8) == Ok::<Seq<char>, ResolveFail>(seq!['x']));
    assert(seq!['/'] + seq!['x'] =~= seq!['/', 'x']);
    assert(resolve_from(tv, b, 7) == Ok::<Seq<char>, ResolveFail>(seq!['/', 'x']));
    assert(resolve_from(tv, b, 1) == Ok::<Seq<char>, ResolveFail>(b.subrange(1, 7) + seq!['/', 'x']));
    assert(resolve_from(tv, b, 0) == Ok::<Seq<char>, ResolveFail>(seq!['$'] + (b.subrange(1, 7) + seq!['/', 'x'])));
    assert(seq!['$'] + (b.subrange(1, 7) + seq!['/', 'x']) =~= b);
    let c = "{host}"@;
    assert(next_close(c, 1) == 5) by {
        assert(next_close(c, 5) == 5);
        assert(next_close(c, 4) == 5);
        assert(next_close(c, 3) == 5);
        assert(next_close(c, 2) == 5);
    }
    assert(c.subrange(1, 5) =~= "host"@);
    assert(!starts_with("host"@, "detect."@));
    reveal_strlit("home");
    reveal_strlit("config_dir");
    reveal_strlit("config_path");
    assert("host"@ != "home"@) by {
        assert("host"@[2] != "home"@[2]);
    }
    assert("host"@ != "config_dir"@) by {
        assert("host"@.len() != "config_dir"@.len());
    }
    assert("host"@ != "config_path"@) by {
        assert("host"@.len() != "config_path"@.len());
    }
    assert(tv(c.subrange(1, 5)) == Some(ctx.host@));
    assert(resolve_from(tv, c, 6) == Ok::<Seq<char>, ResolveFail>(seq![]));
    assert(ctx.host@ + seq![] =~= ctx.host@);
}

} // verus!
