//! `xtask dev`: reading `.env` lines and the host port `docker port` prints,
//! and the flags of the local dev stack.
use vstd::prelude::*;

use crate::dev::{after_last, last_index, lemma_last_index};
use crate::echo::{parse_u16, parse_u16_spec};
use crate::text::{
    from_chars, lemma_next_char, lines, lines_of, next_char, starts_with, starts_with_str,
    to_chars, trim, trim_chars,
};

verus! {

/// The flags of `xtask dev`.
#[derive(Debug, Clone, PartialEq, Eq)]
pub struct DevArgs {
    /// DynamoDB table name.
    pub table: String,
    /// AWS region for DynamoDB Local.
    pub region: String,
    /// DynamoDB Local Docker image.
    pub image: String,
    /// Docker container name for DynamoDB Local.
    pub container_name: String,
}

/// Whether `s` is wrapped in a pair of matching quotes: an opening and a
/// closing quote of the same kind, so at least two characters. A lone quote
/// character is not wrapped.
pub open spec fn is_quoted(s: Seq<char>) -> bool {
    s.len() >= 2 && ((s[0] == '"' && s.last() == '"') || (s[0] == '\'' && s.last() == '\''))
}

/// `s` without its surrounding quotes, when it has a matching pair.
pub open spec fn strip_quotes_spec(s: Seq<char>) -> Seq<char> {
    if is_quoted(s) {
        s.subrange(1, s.len() - 1)
    } else {
        s
    }
}

/// Strips surrounding single or double quotes from a value string; any
/// other string, a lone quote among them, comes back unchanged.
pub fn strip_quotes(s: &str) -> (r: &str)
    ensures
        r@ == strip_quotes_spec(s@),
{
    let c = to_chars(s);
    let n = c.len();
    if n >= 2 && ((c[0] == '"' && c[n - 1] == '"') || (c[0] == '\'' && c[n - 1] == '\'')) {
        s.substring_char(1, n - 1)
    } else {
        s
    }
}

pub open spec fn export_space() -> Seq<char> {
    seq!['e', 'x', 'p', 'o', 'r', 't', ' ']
}

pub open spec fn export_tab() -> Seq<char> {
    seq!['e', 'x', 'p', 'o', 'r', 't', '\t']
}

/// The trimmed line without an `export ` or `export\t` prefix.
pub open spec fn env_assignment(line: Seq<char>) -> Seq<char> {
    let t = trim(line);
    if starts_with(t, export_space()) || starts_with(t, export_tab()) {
        t.skip(7)
    } else {
        t
    }
}

/// Whether `line` is blank or a comment.
pub open spec fn env_line_skipped(line: Seq<char>) -> bool {
    let t = trim(line);
    t.len() == 0 || t[0] == '#'
}

/// The trimmed value of an assignment: what follows its first `=`.
pub open spec fn env_raw_value(line: Seq<char>) -> Seq<char> {
    let a = env_assignment(line);
    trim(a.skip(next_char(a, '=', 0) + 1))
}

/// What [`parse_env_line`] reads from `line`: nothing for a blank line, a
/// comment or a line without `=`; else the trimmed key before the first
/// `=` and the trimmed, unquoted value after it.
pub open spec fn env_line_spec(line: Seq<char>) -> Option<(Seq<char>, Seq<char>)> {
    let a = env_assignment(line);
    let eq = next_char(a, '=', 0);
    if env_line_skipped(line) || eq >= a.len() {
        None
    } else {
        Some((trim(a.take(eq)), strip_quotes_spec(env_raw_value(line))))
    }
}

fn strip_export(t: &[char]) -> (r: &[char])
    ensures
        r@ == (if starts_with(t@, export_space()) || starts_with(t@, export_tab()) {
            t@.skip(7)
        } else {
            t@
        }),
{
    proof {
        reveal_strlit("export ");
        reveal_strlit("export\t");
        assert("export "@ =~= export_space());
        assert("export\t"@ =~= export_tab());
    }
    if starts_with_str(t, "export ") || starts_with_str(t, "export\t") {
        let r = &t[7..t.len()];
        assert(r@ =~= t@.skip(7));
        r
    } else {
        t
    }
}

fn first_eq(a: &[char]) -> (r: usize)
    ensures
        r == next_char(a@, '=', 0),
{
    let mut i: usize = 0;
    while i < a.len() && a[i] != '='
        invariant
            i <= a@.len(),
            next_char(a@, '=', i as int) == next_char(a@, '=', 0),
        decreases a@.len() - i,
    {
        i = i + 1;
    }
    i
}

/// Parses a single line from a `.env` file.
///
/// Returns `Some((key, value))` for valid `KEY=VALUE` lines, `None` for
/// blank lines, comments and lines without `=`.
pub fn parse_env_line(line: &str) -> (r: Option<(String, String)>)
    ensures
        match env_line_spec(line@) {
            None => r is None,
            Some((k, v)) => r matches Some((k2, v2)) && k2@ == k && v2@ == v,
        },
{
    let c = to_chars(line);
    let t = trim_chars(&c);
    if t.len() == 0 || t[0] == '#' {
        return None;
    }
    let a = strip_export(t);
    let eq = first_eq(a);
    if eq >= a.len() {
        return None;
    }
    proof {
        lemma_next_char(a@, '=', 0);
    }
    let key = trim_chars(&a[0..eq]);
    assert(a@.take(eq as int) =~= a@.subrange(0, eq as int));
    let v = trim_chars(&a[eq + 1..a.len()]);
    assert(a@.skip(eq + 1) =~= a@.subrange(eq + 1, a@.len() as int));
    let raw_value = from_chars(v);
    let value = strip_quotes(raw_value.as_str());
    Some((from_chars(key), value.to_owned()))
}

/// What [`parse_host_port`] reads: the text after the last `:` of the first
/// line, trimmed, as a port number.
pub open spec fn host_port_spec(output: Seq<char>) -> Option<u16> {
    let ls = lines(output);
    if ls.len() == 0 {
        None
    } else {
        parse_u16_spec(after_last(trim(ls[0]), ':'))
    }
}

/// Parses a `docker port <id> 8000` output line to extract the host port.
///
/// Handles both `0.0.0.0:49153` and `[::]:49153` forms by splitting on the
/// last `:`.
pub fn parse_host_port(output: &str) -> (r: Option<u16>)
    ensures
        r == host_port_spec(output@),
{
    let c = to_chars(output);
    let ls = lines_of(&c);
    if ls.len() == 0 {
        return None;
    }
    let line = trim_chars(&ls[0]);
    let mut i = line.len();
    proof {
        lemma_last_index(line@, ':');
    }
    while i > 0 && line[i - 1] != ':'
        invariant
            i <= line@.len(),
            forall|j: int| i <= j < line@.len() ==> line@[j] != ':',
        decreases i,
    {
        i = i - 1;
    }
    proof {
        if i > 0 {
            assert(last_index(line@, ':') == i - 1) by {
                if last_index(line@, ':') != i - 1 {
                    assert(line@[last_index(line@, ':')] == ':');
                }
            }
        } else {
            assert(last_index(line@, ':') == -1) by {
                if last_index(line@, ':') >= 0 {
                    assert(line@[last_index(line@, ':')] == ':');
                }
            }
        }
    }
    let port = &line[i..line.len()];
    assert(port@ =~= after_last(line@, ':'));
    parse_u16(port)
}

} // verus!
