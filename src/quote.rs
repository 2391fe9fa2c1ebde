//! Quoting for each shell dialect, and PowerShell's form of `$NAME` references.

use vstd::prelude::*;
use crate::resolve::next_close;
use crate::text::{chars_of, push_char};

verus! {

/// `s` with each character replaced by its escape.
pub open spec fn escape_with(s: Seq<char>, f: spec_fn(char) -> Seq<char>) -> Seq<char>
    decreases s.len(),
{
    if s.len() == 0 {
        seq![]
    } else {
        escape_with(s.drop_last(), f) + f(s.last())
    }
}

/// Inside double quotes of POSIX shells and fish: `\` and `"` take a backslash.
pub open spec fn dq_escape(c: char) -> Seq<char> {
    if c == '\\' || c == '"' {
        seq!['\\', c]
    } else {
        seq![c]
    }
}

/// Inside POSIX single quotes: `'` becomes `'\''`.
pub open spec fn posix_sq_escape(c: char) -> Seq<char> {
    if c == '\'' {
        seq!['\'', '\\', '\'', '\'']
    } else {
        seq![c]
    }
}

/// Inside PowerShell double quotes: the backtick escapes `` ` `` and `"`.
pub open spec fn pwsh_escape(c: char) -> Seq<char> {
    if c == '`' {
        seq!['`', '`']
    } else if c == '"' {
        seq!['`', '"']
    } else {
        seq![c]
    }
}

pub open spec fn quoted_double(s: Seq<char>) -> Seq<char> {
    seq!['"'] + escape_with(s, |c: char| dq_escape(c)) + seq!['"']
}

pub open spec fn quoted_posix_single(s: Seq<char>) -> Seq<char> {
    seq!['\''] + escape_with(s, |c: char| posix_sq_escape(c)) + seq!['\'']
}

pub open spec fn quoted_pwsh(s: Seq<char>) -> Seq<char> {
    seq!['"'] + escape_with(s, |c: char| pwsh_escape(c)) + seq!['"']
}

pub proof fn lemma_escape_step(s: Seq<char>, i: int, f: spec_fn(char) -> Seq<char>)
    requires
        0 <= i < s.len(),
    ensures
        escape_with(s.subrange(0, i + 1), f) == escape_with(s.subrange(0, i), f) + f(s[i]),
{
    assert(s.subrange(0, i + 1).drop_last() =~= s.subrange(0, i));
}

pub open spec fn escaper(kind: u8) -> spec_fn(char) -> Seq<char> {
    if kind == 0 {
        |c: char| dq_escape(c)
    } else if kind == 1 {
        |c: char| posix_sq_escape(c)
    } else {
        |c: char| pwsh_escape(c)
    }
}

fn push_escaped(out: &mut String, c: char, kind: u8)
    ensures
        final(out)@ == old(out)@ + escaper(kind)(c),
{
    let ghost o = out@;
    if kind == 0 {
        if c == '\\' || c == '"' {
            push_char(out, '\\');
        }
        push_char(out, c);
    } else if kind == 1 {
        if c == '\'' {
            out.append("'\\''");
            proof {
                reveal_strlit("'\\''");
            }
        } else {
            push_char(out, c);
        }
    } else {
        if c == '`' || c == '"' {
            push_char(out, '`');
        }
        push_char(out, c);
    }
    assert(out@ =~= o + escaper(kind)(c));
}

/// `s` between `open` and `close`, escaped by the dialect's rule.
fn quote_with(s: &str, kind: u8, open: char, close: char) -> (r: String)
    ensures
        r@ == seq![open] + escape_with(s@, escaper(kind)) + seq![close],
{
    let cs = chars_of(s);
    let mut out = String::new();
    push_char(&mut out, open);
    let mut i: usize = 0;
    while i < cs.len()
        invariant
            cs@ == s@,
            i <= cs@.len(),
            out@ == seq![open] + escape_with(cs@.subrange(0, i as int), escaper(kind)),
        decreases cs@.len() - i,
    {
        let ghost o = out@;
        push_escaped(&mut out, cs[i], kind);
        proof {
            lemma_escape_step(cs@, i as int, escaper(kind));
            assert(out@ =~= seq![open] + escape_with(cs@.subrange(0, i + 1), escaper(kind)));
        }
        i += 1;
    }
    push_char(&mut out, close);
    assert(cs@.subrange(0, cs@.len() as int) =~= cs@);
    out
}

/// Double-quoted for POSIX shells and fish.
pub fn quote_double(s: &str) -> (r: String)
    ensures
        r@ == quoted_double(s@),
{
    let r = quote_with(s, 0, '"', '"');
    assert(escaper(0) == (|c: char| dq_escape(c)));
    r
}

pub fn quote_posix_single(s: &str) -> (r: String)
    ensures
        r@ == quoted_posix_single(s@),
{
    let r = quote_with(s, 1, '\'', '\'');
    assert(escaper(1) == (|c: char| posix_sq_escape(c)));
    r
}

pub fn quote_pwsh(s: &str) -> (r: String)
    ensures
        r@ == quoted_pwsh(s@),
{
    let r = quote_with(s, 2, '"', '"');
    assert(escaper(2) == (|c: char| pwsh_escape(c)));
    r
}

pub open spec fn is_alpha_(c: char) -> bool {
    ('a' <= c && c <= 'z') || ('A' <= c && c <= 'Z') || c == '_'
}

pub open spec fn is_ident(c: char) -> bool {
    is_alpha_(c) || ('0' <= c && c <= '9')
}

pub fn is_ident_char(c: char) -> (r: bool)
    ensures
        r == is_ident(c),
{
    ('a' <= c && c <= 'z') || ('A' <= c && c <= 'Z') || c == '_' || ('0' <= c && c <= '9')
}

/// A shell variable name: a letter or `_`, then letters, digits and `_`.
pub open spec fn valid_name(s: Seq<char>) -> bool {
    s.len() > 0 && is_alpha_(s[0]) && forall|k: int| 0 <= k < s.len() ==> is_ident(#[trigger] s[k])
}

/// The end of the run of name characters that starts at `j`.
pub open spec fn ident_end(s: Seq<char>, j: int) -> int
    decreases s.len() - j,
{
    if j < 0 || j >= s.len() || !is_ident(s[j]) {
        if j < 0 { 0 } else if j > s.len() { s.len() as int } else { j }
    } else {
        ident_end(s, j + 1)
    }
}

fn find_ident_end(s: &Vec<char>, j: usize) -> (r: usize)
    requires
        j <= s@.len(),
    ensures
        r == ident_end(s@, j as int),
        j <= r <= s@.len(),
        forall|k: int| j <= k < r ==> is_ident(#[trigger] s@[k]),
{
    let mut e = j;
    while e < s.len() && is_ident_char(s[e])
        invariant
            j <= e <= s@.len(),
            ident_end(s@, j as int) == ident_end(s@, e as int),
            forall|k: int| j <= k < e ==> is_ident(#[trigger] s@[k]),
        decreases s@.len() - e,
    {
        e += 1;
    }
    e
}

fn is_valid_name(s: &Vec<char>, lo: usize, hi: usize) -> (r: bool)
    requires
        lo <= hi <= s@.len(),
    ensures
        r == valid_name(s@.subrange(lo as int, hi as int)),
{
    if lo == hi {
        return false;
    }
    let c = s[lo];
    if !(('a' <= c && c <= 'z') || ('A' <= c && c <= 'Z') || c == '_') {
        return false;
    }
    let mut k = lo;
    while k < hi
        invariant
            lo <= k <= hi <= s@.len(),
            forall|m: int| lo <= m < k ==> is_ident(#[trigger] s@[m]),
        decreases hi - k,
    {
        if !is_ident_char(s[k]) {
            assert(s@.subrange(lo as int, hi as int)[k - lo] == s@[k as int]);
            return false;
        }
        k += 1;
    }
    assert forall|m: int| 0 <= m < hi - lo implies is_ident(#[trigger] s@.subrange(lo as int, hi as int)[m]) by {
        assert(s@.subrange(lo as int, hi as int)[m] == s@[lo + m]);
    }
    true
}

/// The value with each POSIX reference `$NAME` or `${NAME}` written as
/// PowerShell's `$env:NAME`; `$env:` already in that form stays.
pub open spec fn pwsh_refs_from(s: Seq<char>, i: int) -> Seq<char>
    decreases s.len() - i,
{
    if i < 0 || i >= s.len() {
        seq![]
    } else if s[i] != '$' {
        seq![s[i]] + pwsh_refs_from(s, i + 1)
    } else if i + 5 <= s.len() && s.subrange(i, i + 5) == "$env:"@ {
        "$env:"@ + pwsh_refs_from(s, i + 5)
    } else if i + 1 < s.len() && s[i + 1] == '{' {
        let j = next_close(s, i + 2);
        if i + 2 <= j < s.len() && valid_name(s.subrange(i + 2, j)) {
            "$env:"@ + s.subrange(i + 2, j) + pwsh_refs_from(s, j + 1)
        } else {
            seq!['$'] + pwsh_refs_from(s, i + 1)
        }
    } else {
        let j = ident_end(s, i + 1);
        if i + 1 <= j <= s.len() && valid_name(s.subrange(i + 1, j)) {
            "$env:"@ + s.subrange(i + 1, j) + pwsh_refs_from(s, j)
        } else {
            seq!['$'] + pwsh_refs_from(s, i + 1)
        }
    }
}

pub open spec fn pwsh_refs(s: Seq<char>) -> Seq<char> {
    pwsh_refs_from(s, 0)
}

fn find_close_at(s: &Vec<char>, j: usize) -> (r: usize)
    requires
        j <= s@.len(),
    ensures
        r == next_close(s@, j as int),
        j <= r <= s@.len(),
{
    let mut e = j;
    while e < s.len() && s[e] != '}'
        invariant
            j <= e <= s@.len(),
            next_close(s@, j as int) == next_close(s@, e as int),
        decreases s@.len() - e,
    {
        e += 1;
    }
    e
}

fn append_range(out: &mut String, s: &Vec<char>, lo: usize, hi: usize)
    requires
        lo <= hi <= s@.len(),
    ensures
        final(out)@ == old(out)@ + s@.subrange(lo as int, hi as int),
{
    let piece = crate::text::string_of(s, lo, hi);
    out.append(piece.as_str());
}

pub fn rewrite_env_refs_for_pwsh(input: &str) -> (r: String)
    ensures
        r@ == pwsh_refs(input@),
{
    let s = chars_of(input);
    let n = s.len();
    let mut out = String::new();
    let mut i: usize = 0;
    proof {
        reveal_strlit("$env:");
        assert(out@ + pwsh_refs_from(s@, 0) =~= pwsh_refs_from(s@, 0));
    }
    while i < n
        invariant
            n == s@.len(),
            s@ == input@,
            i <= n,
            pwsh_refs_from(s@, 0) == out@ + pwsh_refs_from(s@, i as int),
        decreases n - i,
    {
        let ghost o = out@;
        if s[i] != '$' {
            push_char(&mut out, s[i]);
            assert(out@ + pwsh_refs_from(s@, i + 1) =~= o + pwsh_refs_from(s@, i as int));
            i += 1;
            continue;
        }
        if n - i >= 5 && s[i + 1] == 'e' && s[i + 2] == 'n' && s[i + 3] == 'v' && s[i + 4] == ':' {
            out.append("$env:");
            proof {
                reveal_strlit("$env:");
                assert(s@.subrange(i as int, i + 5) =~= "$env:"@);
                assert(out@ + pwsh_refs_from(s@, i + 5) =~= o + pwsh_refs_from(s@, i as int));
            }
            i += 5;
            continue;
        }
        proof {
            if i + 5 <= n {
                assert(s@.subrange(i as int, i + 5) != "$env:"@) by {
                    reveal_strlit("$env:");
                    if s@.subrange(i as int, i + 5) == "$env:"@ {
                        assert(s@.subrange(i as int, i + 5)[1] == s@[i + 1]);
                        assert(s@.subrange(i as int, i + 5)[2] == s@[i + 2]);
                        assert(s@.subrange(i as int, i + 5)[3] == s@[i + 3]);
                        assert(s@.subrange(i as int, i + 5)[4] == s@[i + 4]);
                    }
                }
            }
        }
        if i + 1 < n && s[i + 1] == '{' {
            let j = find_close_at(&s, i + 2);
            if j < n && is_valid_name(&s, i + 2, j) {
                out.append("$env:");
                append_range(&mut out, &s, i + 2, j);
                assert(out@ + pwsh_refs_from(s@, j + 1) =~= o + pwsh_refs_from(s@, i as int));
                i = j + 1;
                continue;
            }
            push_char(&mut out, '$');
            assert(out@ + pwsh_refs_from(s@, i + 1) =~= o + pwsh_refs_from(s@, i as int));
            i += 1;
            continue;
        }
        let j = find_ident_end(&s, i + 1);
        if is_valid_name(&s, i + 1, j) {
            out.append("$env:");
            append_range(&mut out, &s, i + 1, j);
            assert(out@ + pwsh_refs_from(s@, j as int) =~= o + pwsh_refs_from(s@, i as int));
            i = j;
            continue;
        }
        push_char(&mut out, '$');
        assert(out@ + pwsh_refs_from(s@, i + 1) =~= o + pwsh_refs_from(s@, i as int));
        i += 1;
    }
    assert(out@ + pwsh_refs_from(s@, n as int) =~= out@);
    out
}

} // verus!
