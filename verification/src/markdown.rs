//! Markdown rendering: CommonMark parsing by pulldown-cmark, then the course's
//! own passes over the event stream (heading anchors, external links, mermaid
//! diagrams, variable tokens), then HTML output by pulldown-cmark.
use pulldown_cmark::CodeBlockKind::Fenced;
use pulldown_cmark::{Event, Options, Parser, Tag, TagEnd};
use vstd::prelude::*;

use self::MdEvent::{Code, CodeBlockEnd, FenceStart, HeadingEnd, HeadingStart, LinkStart, Other};

use crate::render::{escape, push_escaped, push_escaped_chars};
use crate::text::{
    decimal, digit_char, extend_chars, extend_str, find_chars_from, find_from, from_chars, is_ascii_digit,
    is_ascii_lower, occurs_at, push_decimal, starts_with, to_chars,
};

verus! {

// ---------------------------------------------------------------------------
// Variable tokens: `{%name%}`
// ---------------------------------------------------------------------------

/// One piece of scanned text: literal prose, kept as-is, or a variable name
/// that matched the token grammar.
#[derive(Debug, PartialEq, Eq)]
pub enum Segment<T> {
    Literal(T),
    Var(T),
}

impl<'a> View for Segment<&'a str> {
    type V = Segment<Seq<char>>;

    open spec fn view(&self) -> Segment<Seq<char>> {
        match self {
            Segment::Literal(s) => Segment::Literal(s@),
            Segment::Var(s) => Segment::Var(s@),
        }
    }
}

/// A character allowed after the first one of a variable name.
pub open spec fn is_name_char(c: char) -> bool {
    is_ascii_lower(c) || is_ascii_digit(c) || c == '-' || c == '_'
}

/// The end of the run of name characters in `s` starting at `i`.
pub open spec fn name_end(s: Seq<char>, i: int) -> int
    decreases s.len() - i,
{
    if 0 <= i < s.len() && is_name_char(s[i]) {
        name_end(s, i + 1)
    } else {
        i
    }
}

pub open spec fn token_open() -> Seq<char> {
    seq!['{', '%']
}

pub open spec fn token_close() -> Seq<char> {
    seq!['%', '}']
}

/// If `s` starts with a name matching `[a-z][a-z0-9_-]*` immediately followed
/// by `%}`, the name and what follows the `%}`.
pub open spec fn match_token_spec(s: Seq<char>) -> Option<(Seq<char>, Seq<char>)> {
    if s.len() == 0 || !is_ascii_lower(s[0]) {
        None
    } else {
        let end = name_end(s, 1);
        let after = s.subrange(end, s.len() as int);
        if starts_with(after, token_close()) {
            Some((s.subrange(0, end), after.subrange(2, after.len() as int)))
        } else {
            None
        }
    }
}

proof fn lemma_name_end(s: Seq<char>, i: int)
    requires
        0 <= i <= s.len(),
    ensures
        i <= name_end(s, i) <= s.len(),
        forall|j: int| i <= j < name_end(s, i) ==> is_name_char(#[trigger] s[j]),
        name_end(s, i) < s.len() ==> !is_name_char(s[name_end(s, i)]),
    decreases s.len() - i,
{
    if i < s.len() && is_name_char(s[i]) {
        lemma_name_end(s, i + 1);
    }
}

/// A literal piece `s[from..to]`, or nothing when it is empty.
pub open spec fn literal_piece(s: Seq<char>, from: int, to: int) -> Seq<Segment<Seq<char>>> {
    if from < to {
        seq![Segment::Literal(s.subrange(from, to))]
    } else {
        seq![]
    }
}

/// The pieces of `s` from index `pos` on.
pub open spec fn tokens_from(s: Seq<char>, pos: int) -> Seq<Segment<Seq<char>>>
    decreases s.len() - pos,
{
    if pos < 0 || pos >= s.len() {
        seq![]
    } else {
        let found = find_from(s, token_open(), pos);
        if found is Some && pos <= found.unwrap() && found.unwrap() + 2 <= s.len() {
            let start = found.unwrap();
            let rest = s.subrange(start + 2, s.len() as int);
            let m = match_token_spec(rest);
            if m is Some && m.unwrap().1.len() < rest.len() {
                literal_piece(s, pos, start) + seq![Segment::Var(m.unwrap().0)] + tokens_from(
                    s,
                    s.len() - m.unwrap().1.len(),
                )
            } else {
                seq![Segment::Literal(s.subrange(pos, start + 2))] + tokens_from(s, start + 2)
            }
        } else {
            seq![Segment::Literal(s.subrange(pos, s.len() as int))]
        }
    }
}

/// `text` split on `{%name%}` tokens.
pub open spec fn split_tokens_spec(s: Seq<char>) -> Seq<Segment<Seq<char>>> {
    tokens_from(s, 0)
}

/// A piece written back as text: a literal as itself, a variable as its
/// `{%name%}` token.
pub open spec fn segment_text(seg: Segment<Seq<char>>) -> Seq<char> {
    match seg {
        Segment::Literal(l) => l,
        Segment::Var(n) => token_open() + n + token_close(),
    }
}

/// The pieces written back as text, in order.
pub open spec fn joined(segs: Seq<Segment<Seq<char>>>) -> Seq<char>
    decreases segs.len(),
{
    if segs.len() == 0 {
        seq![]
    } else {
        segment_text(segs[0]) + joined(segs.drop_first())
    }
}

/// A variable name: `[a-z][a-z0-9_-]*`.
pub open spec fn is_var_name(n: Seq<char>) -> bool {
    n.len() > 0 && is_ascii_lower(n[0]) && forall|j: int| 1 <= j < n.len() ==> is_name_char(#[trigger] n[j])
}

/// Every piece is a non-empty literal or a well-formed variable name.
pub open spec fn pieces_well_formed(segs: Seq<Segment<Seq<char>>>) -> bool {
    forall|i: int|
        0 <= i < segs.len() ==> match #[trigger] segs[i] {
            Segment::Literal(l) => l.len() > 0,
            Segment::Var(n) => is_var_name(n),
        }
}

proof fn lemma_find_from(s: Seq<char>, p: Seq<char>, i: int)
    requires
        find_from(s, p, i) is Some,
    ensures
        i <= find_from(s, p, i).unwrap(),
        occurs_at(s, p, find_from(s, p, i).unwrap()),
    decreases s.len() + 1 - i,
{
    if !(i < 0 || i + p.len() > s.len()) && !occurs_at(s, p, i) {
        lemma_find_from(s, p, i + 1);
    }
}

proof fn lemma_joined_concat(a: Seq<Segment<Seq<char>>>, b: Seq<Segment<Seq<char>>>)
    ensures
        joined(a + b) == joined(a) + joined(b),
    decreases a.len(),
{
    if a.len() == 0 {
        assert(a + b =~= b);
    } else {
        assert((a + b).drop_first() =~= a.drop_first() + b);
        lemma_joined_concat(a.drop_first(), b);
        assert(joined(a + b) =~= joined(a) + joined(b));
    }
}

proof fn lemma_one(seg: Segment<Seq<char>>)
    ensures
        joined(seq![seg]) == segment_text(seg),
{
    let one = seq![seg];
    assert(one.drop_first() =~= Seq::<Segment<Seq<char>>>::empty());
    assert(joined(one.drop_first()) == Seq::<char>::empty());
    assert(one[0] == seg);
    assert(segment_text(seg) + Seq::<char>::empty() =~= segment_text(seg));
}

proof fn lemma_tokens_from(s: Seq<char>, pos: int)
    requires
        0 <= pos <= s.len(),
    ensures
        joined(tokens_from(s, pos)) == s.subrange(pos, s.len() as int),
        pieces_well_formed(tokens_from(s, pos)),
    decreases s.len() - pos,
{
    if pos >= s.len() {
        assert(s.subrange(pos, s.len() as int) =~= Seq::<char>::empty());
    } else {
        let found = find_from(s, token_open(), pos);
        if found is Some && pos <= found.unwrap() && found.unwrap() + 2 <= s.len() {
            let start = found.unwrap();
            lemma_find_from(s, token_open(), pos);
            let rest = s.subrange(start + 2, s.len() as int);
            let m = match_token_spec(rest);
            if m is Some && m.unwrap().1.len() < rest.len() {
                let name = m.unwrap().0;
                let after = m.unwrap().1;
                let end = name_end(rest, 1);
                lemma_name_end(rest, 1);
                let next = s.len() - after.len();
                lemma_tokens_from(s, next);
                let lit = literal_piece(s, pos, start);
                let var = seq![Segment::Var(name)];
                let tail = tokens_from(s, next);
                assert(tokens_from(s, pos) == lit + var + tail);
                lemma_joined_concat(lit + var, tail);
                lemma_joined_concat(lit, var);
                lemma_one(Segment::Var(name));
                if pos < start {
                    lemma_one(Segment::Literal(s.subrange(pos, start)));
                } else {
                    assert(joined(lit) =~= Seq::<char>::empty());
                }
                assert(joined(lit) =~= s.subrange(pos, start));
                assert(s.subrange(start, start + 2) =~= token_open());
                assert(rest.subrange(end, end + 2) =~= token_close());
                assert(next == start + 2 + end + 2);
                assert(s.subrange(pos, s.len() as int) =~= s.subrange(pos, start) + token_open() + name + token_close()
                    + s.subrange(next, s.len() as int));
                assert(is_var_name(name));
                assert forall|i: int| 0 <= i < tokens_from(s, pos).len() implies match #[trigger] tokens_from(s, pos)[i] {
                    Segment::Literal(l) => l.len() > 0,
                    Segment::Var(n) => is_var_name(n),
                } by {
                    if i >= lit.len() + 1 {
                        assert(tokens_from(s, pos)[i] == tail[i - lit.len() - 1]);
                    }
                }
            } else {
                lemma_tokens_from(s, start + 2);
                let head = seq![Segment::Literal(s.subrange(pos, start + 2))];
                let tail = tokens_from(s, start + 2);
                assert(tokens_from(s, pos) == head + tail);
                lemma_joined_concat(head, tail);
                lemma_one(Segment::Literal(s.subrange(pos, start + 2)));
                assert(s.subrange(pos, s.len() as int) =~= s.subrange(pos, start + 2) + s.subrange(
                    start + 2,
                    s.len() as int,
                ));
                assert forall|i: int| 0 <= i < tokens_from(s, pos).len() implies match #[trigger] tokens_from(s, pos)[i] {
                    Segment::Literal(l) => l.len() > 0,
                    Segment::Var(n) => is_var_name(n),
                } by {
                    if i >= 1 {
                        assert(tokens_from(s, pos)[i] == tail[i - 1]);
                    }
                }
            }
        } else {
            lemma_one(Segment::Literal(s.subrange(pos, s.len() as int)));
        }
    }
}

/// Splitting on tokens loses nothing: writing the pieces back, each variable
/// as its `{%name%}` token, gives the text again; no literal is empty, and
/// every variable is a well-formed name.
pub proof fn lemma_split_tokens_round_trip(text: Seq<char>)
    ensures
        joined(split_tokens_spec(text)) == text,
        pieces_well_formed(split_tokens_spec(text)),
{
    lemma_tokens_from(text, 0);
    assert(text.subrange(0, text.len() as int) =~= text);
}

/// If `input` starts with a name matching `[a-z][a-z0-9_-]*` immediately
/// followed by `%}`, returns the name and the remainder after `%}`.
pub fn match_token(input: &str) -> (r: Option<(&str, &str)>)
    ensures
        match r {
            Some((name, after)) => match_token_spec(input@) == Some((name@, after@)),
            None => match_token_spec(input@) is None,
        },
{
    let s = to_chars(input);
    if s.len() == 0 || !crate::text::is_lower(s[0]) {
        return None;
    }
    let mut end: usize = 1;
    while end < s.len() && (crate::text::is_lower(s[end]) || crate::text::is_digit(s[end])
        || s[end] == '-' || s[end] == '_')
        invariant
            1 <= end <= s@.len(),
            name_end(s@, end as int) == name_end(s@, 1),
        decreases s@.len() - end,
    {
        end = end + 1;
    }
    proof {
        lemma_name_end(s@, 1);
    }
    if s.len() - end >= 2 && s[end] == '%' && s[end + 1] == '}' {
        let name = input.substring_char(0, end);
        let after = input.substring_char(end + 2, s.len());
        proof {
            let rest = s@.subrange(end as int, s@.len() as int);
            assert(rest.subrange(0, 2) =~= token_close());
            assert(rest.subrange(2, rest.len() as int) =~= s@.subrange(end + 2, s@.len() as int));
        }
        Some((name, after))
    } else {
        proof {
            let rest = s@.subrange(end as int, s@.len() as int);
            if starts_with(rest, token_close()) {
                assert(rest[0] == token_close()[0]);
                assert(rest[1] == token_close()[1]);
            }
        }
        None
    }
}

proof fn lemma_match_token_len(s: Seq<char>)
    requires
        match_token_spec(s) is Some,
    ensures
        match_token_spec(s).unwrap().1.len() + match_token_spec(s).unwrap().0.len() + 2 == s.len(),
        match_token_spec(s).unwrap().1 == s.subrange(
            s.len() - match_token_spec(s).unwrap().1.len(),
            s.len() as int,
        ),
{
    lemma_name_end(s, 1);
}

/// Splits `text` on `{%name%}` tokens. Anything that isn't a well-formed
/// token (unmatched braces, an uppercase or digit-led name, an internal
/// space) is left as literal text, unchanged.
pub fn split_tokens(text: &str) -> (r: Vec<Segment<&str>>)
    ensures
        r@.map_values(|p: Segment<&str>| p@) == split_tokens_spec(text@),
{
    let s = to_chars(text);
    let open = to_chars("{%");
    proof {
        reveal_strlit("{%");
        assert(open@ =~= token_open());
    }
    let mut out: Vec<Segment<&str>> = Vec::new();
    let mut pos: usize = 0;
    while pos < s.len()
        invariant
            pos <= s@.len(),
            s@ == text@,
            open@ == token_open(),
            out@.map_values(|p: Segment<&str>| p@) + tokens_from(s@, pos as int)
                == split_tokens_spec(text@),
        decreases s@.len() - pos,
    {
        let ghost before = out@.map_values(|p: Segment<&str>| p@);
        match find_chars_from(&s, &open, pos) {
            Some(start) => {
                let rest = text.substring_char(start + 2, s.len());
                match match_token(rest) {
                    Some((name, after)) => {
                        proof {
                            lemma_match_token_len(rest@);
                        }
                        if start > pos {
                            out.push(Segment::Literal(text.substring_char(pos, start)));
                        }
                        out.push(Segment::Var(name));
                        let next = s.len() - after.unicode_len();
                        proof {
                            assert(out@.map_values(|p: Segment<&str>| p@) =~= before
                                + literal_piece(s@, pos as int, start as int)
                                + seq![Segment::Var(name@)]);
                            assert(rest@ =~= s@.subrange(start + 2, s@.len() as int));
                            assert(find_from(s@, token_open(), pos as int) == Some(start as int));
                            assert(match_token_spec(rest@) == Some((name@, after@)));
                            assert(next == s@.len() - after@.len());
                            assert(tokens_from(s@, pos as int) == literal_piece(s@, pos as int, start as int)
                                + seq![Segment::Var(name@)] + tokens_from(s@, next as int));
                        }
                        pos = next;
                    },
                    None => {
                        out.push(Segment::Literal(text.substring_char(pos, start + 2)));
                        proof {
                            assert(out@.map_values(|p: Segment<&str>| p@) =~= before
                                + seq![Segment::Literal(s@.subrange(pos as int, start + 2))]);
                            assert(rest@ =~= s@.subrange(start + 2, s@.len() as int));
                            assert(tokens_from(s@, pos as int) == seq![Segment::Literal(s@.subrange(pos as int, start + 2))]
                                + tokens_from(s@, start + 2));
                        }
                        pos = start + 2;
                    },
                }
            },
            None => {
                out.push(Segment::Literal(text.substring_char(pos, s.len())));
                proof {
                    assert(out@.map_values(|p: Segment<&str>| p@) =~= before
                        + seq![Segment::Literal(s@.subrange(pos as int, s@.len() as int))]);
                    assert(tokens_from(s@, s@.len() as int) =~= seq![]);
                }
                pos = s.len();
            },
        }
    }
    proof {
        assert(tokens_from(s@, pos as int) =~= seq![]);
        assert(out@.map_values(|p: Segment<&str>| p@) =~= split_tokens_spec(text@));
    }
    out
}

/// The raw markup for a variable token's unfilled display.
pub open spec fn variable_span(name: Seq<char>) -> Seq<char> {
    "<span class=\"cb-var\" data-var=\""@ + name + "\">&lt;"@ + name + "&gt;</span>"@
}

/// Appends the unfilled display of variable `name`.
fn push_variable_span(out: &mut Vec<char>, name: &str)
    ensures
        final(out)@ == old(out)@ + variable_span(name@),
{
    let ghost start = out@;
    extend_str(out, "<span class=\"cb-var\" data-var=\"");
    extend_str(out, name);
    extend_str(out, "\">&lt;");
    extend_str(out, name);
    extend_str(out, "&gt;</span>");
    assert(out@ =~= start + variable_span(name@));
}

/// The raw markup for a variable token's unfilled display. `name` is
/// already restricted to `[a-z0-9_-]` by `match_token`, so it needs no
/// escaping.
pub fn variable_span_html(name: &str) -> (r: String)
    ensures
        r@ == variable_span(name@),
{
    let mut out: Vec<char> = Vec::new();
    push_variable_span(&mut out, name);
    assert(out@ =~= variable_span(name@));
    from_chars(&out)
}

// ---------------------------------------------------------------------------
// Links
// ---------------------------------------------------------------------------

pub open spec fn is_external_spec(url: Seq<char>) -> bool {
    starts_with(url, "http://"@) || starts_with(url, "https://"@)
}

/// True for absolute `http`/`https` URLs, links that leave the site.
pub fn is_external(dest_url: &str) -> (r: bool)
    ensures
        r == is_external_spec(dest_url@),
{
    let s = to_chars(dest_url);
    crate::text::starts_with_str(&s, "http://") || crate::text::starts_with_str(&s, "https://")
}

// ---------------------------------------------------------------------------
// Heading slugs
// ---------------------------------------------------------------------------

/// What `char::is_alphanumeric` returns for `c`.
pub uninterp spec fn char_is_alphanumeric(c: char) -> bool;

/// The characters `char::to_lowercase` yields for `c`.
pub uninterp spec fn char_lowercase(c: char) -> Seq<char>;

/// `char::is_alphanumeric`: the Unicode `Alphabetic` or `Numeric` property.
/// Its result is named; for an ASCII character it is an ASCII letter or
/// digit.
#[verifier::external_body]
fn alphanumeric(c: char) -> (r: bool)
    ensures
        r == char_is_alphanumeric(c),
        (c as u32) < 128 ==> r == (('a' <= c && c <= 'z') || ('A' <= c && c <= 'Z') || ('0' <= c && c <= '9')),
{
    c.is_alphanumeric()
}

/// `char::to_lowercase`, collected: the Unicode lowercase mapping of `c`.
/// Its result is named; an ASCII capital maps to its small letter, and any
/// other ASCII character to itself.
#[verifier::external_body]
fn lowercase(c: char) -> (r: Vec<char>)
    ensures
        r@ == char_lowercase(c),
        'A' <= c && c <= 'Z' ==> r@ == seq![((c as u32) + 32) as char],
        (c as u32) < 128 && !('A' <= c && c <= 'Z') ==> r@ == seq![c],
{
    c.to_lowercase().collect()
}

/// Whether `c` is alphanumeric: an ASCII letter or digit, and for any other
/// character what `char::is_alphanumeric` says.
pub open spec fn is_alnum(c: char) -> bool {
    if (c as u32) < 128 {
        ('a' <= c && c <= 'z') || ('A' <= c && c <= 'Z') || ('0' <= c && c <= '9')
    } else {
        char_is_alphanumeric(c)
    }
}

/// The lowercase of `c`: an ASCII capital's small letter, any other ASCII
/// character itself, and for the rest what `char::to_lowercase` yields.
pub open spec fn lower(c: char) -> Seq<char> {
    if 'A' <= c && c <= 'Z' {
        seq![((c as u32) + 32) as char]
    } else if (c as u32) < 128 {
        seq![c]
    } else {
        char_lowercase(c)
    }
}

/// Spanish accented letters folded to their base letter.
pub open spec fn fold_accent(c: char) -> char {
    if c == 'á' || c == 'Á' {
        'a'
    } else if c == 'é' || c == 'É' {
        'e'
    } else if c == 'í' || c == 'Í' {
        'i'
    } else if c == 'ó' || c == 'Ó' {
        'o'
    } else if c == 'ú' || c == 'Ú' || c == 'ü' || c == 'Ü' {
        'u'
    } else if c == 'ñ' || c == 'Ñ' {
        'n'
    } else {
        c
    }
}

fn fold_accent_exec(c: char) -> (r: char)
    ensures
        r == fold_accent(c),
{
    if c == 'á' || c == 'Á' {
        'a'
    } else if c == 'é' || c == 'É' {
        'e'
    } else if c == 'í' || c == 'Í' {
        'i'
    } else if c == 'ó' || c == 'Ó' {
        'o'
    } else if c == 'ú' || c == 'Ú' || c == 'ü' || c == 'Ü' {
        'u'
    } else if c == 'ñ' || c == 'Ñ' {
        'n'
    } else {
        c
    }
}

/// One character's contribution to a slug under construction.
pub open spec fn slug_step(slug: Seq<char>, c: char) -> Seq<char> {
    let c = fold_accent(c);
    if is_alnum(c) {
        slug + lower(c)
    } else if slug.len() > 0 && slug.last() != '-' {
        slug.push('-')
    } else {
        slug
    }
}

/// The slug of `text` before trailing hyphens are trimmed.
pub open spec fn slug_raw(text: Seq<char>) -> Seq<char>
    decreases text.len(),
{
    if text.len() == 0 {
        seq![]
    } else {
        slug_step(slug_raw(text.drop_last()), text.last())
    }
}

/// `s` without its trailing hyphens.
pub open spec fn trim_dashes(s: Seq<char>) -> Seq<char>
    decreases s.len(),
{
    if s.len() > 0 && s.last() == '-' {
        trim_dashes(s.drop_last())
    } else {
        s
    }
}

/// Lowercase, Spanish diacritics stripped, runs of non-alphanumerics mapped to
/// single hyphens; `titulo` when nothing is left.
pub open spec fn slugify_spec(text: Seq<char>) -> Seq<char> {
    let t = trim_dashes(slug_raw(text));
    if t.len() == 0 {
        "titulo"@
    } else {
        t
    }
}

fn slugify_chars(text: &[char]) -> (r: Vec<char>)
    ensures
        r@ == slugify_spec(text@),
{
    let mut slug: Vec<char> = Vec::new();
    let mut i: usize = 0;
    while i < text.len()
        invariant
            i <= text@.len(),
            slug@ == slug_raw(text@.take(i as int)),
        decreases text@.len() - i,
    {
        assert(text@.take(i + 1).drop_last() =~= text@.take(i as int));
        let c = fold_accent_exec(text[i]);
        if alphanumeric(c) {
            let low = lowercase(c);
            extend_chars(&mut slug, &low);
        } else if slug.len() > 0 && slug[slug.len() - 1] != '-' {
            slug.push('-');
        }
        i = i + 1;
    }
    assert(text@.take(text@.len() as int) =~= text@);
    while slug.len() > 0 && slug[slug.len() - 1] == '-'
        invariant
            trim_dashes(slug@) == trim_dashes(slug_raw(text@)),
        decreases slug@.len(),
    {
        slug.pop();
    }
    if slug.len() == 0 {
        proof {
            reveal_strlit("titulo");
        }
        to_chars("titulo")
    } else {
        slug
    }
}

/// Lowercases, strips Spanish diacritics, and maps runs of non-alphanumerics
/// to single hyphens. Empty input slugs to `"titulo"`.
pub fn slugify(text: &str) -> (r: String)
    ensures
        r@ == slugify_spec(text@),
{
    let chars = to_chars(text);
    let slug = slugify_chars(&chars);
    from_chars(&slug)
}

/// A Spanish accented letter: á é í ó ú ü ñ or its capital.
pub open spec fn is_spanish_letter(c: char) -> bool {
    c == 'á' || c == 'é' || c == 'í' || c == 'ó' || c == 'ú' || c == 'ü' || c == 'ñ' || c == 'Á' || c == 'É'
        || c == 'Í' || c == 'Ó' || c == 'Ú' || c == 'Ü' || c == 'Ñ'
}

/// A character that may stand in a slug: an ASCII small letter, an ASCII
/// digit or a hyphen.
pub open spec fn is_slug_char(c: char) -> bool {
    ('a' <= c && c <= 'z') || ('0' <= c && c <= '9') || c == '-'
}

proof fn lemma_ascii_lower_case(c: char)
    requires
        'A' <= c && c <= 'Z',
    ensures
        is_slug_char(((c as u32) + 32) as char),
{
    let u: u32 = ((c as u32) + 32) as u32;
    assert(97 <= u <= 122);
    vstd::utf8::char_u32_cast(c, c as u32);
}

proof fn lemma_slug_raw_chars(text: Seq<char>)
    requires
        forall|j: int| 0 <= j < text.len() ==> (text[j] as u32) < 128 || is_spanish_letter(#[trigger] text[j]),
    ensures
        forall|j: int| 0 <= j < slug_raw(text).len() ==> is_slug_char(#[trigger] slug_raw(text)[j]),
    decreases text.len(),
{
    if text.len() > 0 {
        let prev = text.drop_last();
        let c = text.last();
        assert((c as u32) < 128 || is_spanish_letter(c));
        assert forall|j: int| 0 <= j < prev.len() implies (prev[j] as u32) < 128 || is_spanish_letter(
            #[trigger] prev[j],
        ) by {
            assert(prev[j] == text[j]);
        }
        lemma_slug_raw_chars(prev);
        let f = fold_accent(c);
        assert((f as u32) < 128);
        let before = slug_raw(prev);
        let after = slug_raw(text);
        if is_alnum(f) {
            let low = lower(f);
            if 'A' <= f && f <= 'Z' {
                lemma_ascii_lower_case(f);
            }
            assert(forall|j: int| 0 <= j < low.len() ==> is_slug_char(#[trigger] low[j]));
            assert(after == before + low);
            assert forall|j: int| 0 <= j < after.len() implies is_slug_char(#[trigger] after[j]) by {
                if j >= before.len() {
                    assert(after[j] == low[j - before.len()]);
                }
            }
        } else if before.len() > 0 && before.last() != '-' {
            assert(after == before.push('-'));
            assert forall|j: int| 0 <= j < after.len() implies is_slug_char(#[trigger] after[j]) by {
                if j < before.len() {
                    assert(after[j] == before[j]);
                }
            }
        }
    }
}

proof fn lemma_trim_dashes_prefix(s: Seq<char>)
    ensures
        trim_dashes(s).len() <= s.len(),
        trim_dashes(s) == s.take(trim_dashes(s).len() as int),
    decreases s.len(),
{
    if s.len() > 0 && s.last() == '-' {
        lemma_trim_dashes_prefix(s.drop_last());
        assert(trim_dashes(s) == s.take(trim_dashes(s).len() as int));
    } else {
        assert(s.take(s.len() as int) =~= s);
    }
}

/// Spanish text slugs to plain ASCII: when every character of `text` is ASCII
/// or a Spanish accented letter, every character of its slug is an ASCII small
/// letter, an ASCII digit or a hyphen.
pub proof fn lemma_slug_charset(text: Seq<char>)
    requires
        forall|j: int| 0 <= j < text.len() ==> (text[j] as u32) < 128 || is_spanish_letter(#[trigger] text[j]),
    ensures
        forall|j: int| 0 <= j < slugify_spec(text).len() ==> is_slug_char(#[trigger] slugify_spec(text)[j]),
{
    lemma_slug_raw_chars(text);
    let raw = slug_raw(text);
    lemma_trim_dashes_prefix(raw);
    let t = trim_dashes(raw);
    assert forall|j: int| 0 <= j < t.len() implies is_slug_char(t[j]) by {
        assert(t[j] == raw[j]);
    }
    reveal_strlit("titulo");
}

proof fn lemma_slug_raw_same_folds(a: Seq<char>, b: Seq<char>)
    requires
        a.len() == b.len(),
        forall|j: int| 0 <= j < a.len() ==> fold_accent(#[trigger] a[j]) == fold_accent(b[j]),
    ensures
        slug_raw(a) == slug_raw(b),
    decreases a.len(),
{
    if a.len() > 0 {
        let (pa, pb) = (a.drop_last(), b.drop_last());
        assert forall|j: int| 0 <= j < pa.len() implies fold_accent(#[trigger] pa[j]) == fold_accent(pb[j]) by {
            assert(pa[j] == a[j] && pb[j] == b[j]);
        }
        lemma_slug_raw_same_folds(pa, pb);
        assert(fold_accent(a.last()) == fold_accent(b.last()));
    }
}

proof fn lemma_slug_one_letter(text: Seq<char>, i: int, accented: char, base: char)
    requires
        0 <= i < text.len(),
        fold_accent(accented) == base,
        fold_accent(base) == base,
    ensures
        slugify_spec(text.update(i, accented)) == slugify_spec(text.update(i, base)),
{
    let (a, b) = (text.update(i, accented), text.update(i, base));
    assert forall|j: int| 0 <= j < a.len() implies fold_accent(#[trigger] a[j]) == fold_accent(b[j]) by {
        if j != i {
            assert(a[j] == b[j]);
        }
    }
    lemma_slug_raw_same_folds(a, b);
}

/// Spanish diacritics are stripped: writing an accented letter anywhere in a
/// heading gives the slug that its unaccented ASCII letter gives there.
pub proof fn lemma_slug_folds_spanish_letters(text: Seq<char>, i: int)
    requires
        0 <= i < text.len(),
    ensures
        slugify_spec(text.update(i, 'á')) == slugify_spec(text.update(i, 'a')),
        slugify_spec(text.update(i, 'Á')) == slugify_spec(text.update(i, 'a')),
        slugify_spec(text.update(i, 'é')) == slugify_spec(text.update(i, 'e')),
        slugify_spec(text.update(i, 'É')) == slugify_spec(text.update(i, 'e')),
        slugify_spec(text.update(i, 'í')) == slugify_spec(text.update(i, 'i')),
        slugify_spec(text.update(i, 'Í')) == slugify_spec(text.update(i, 'i')),
        slugify_spec(text.update(i, 'ó')) == slugify_spec(text.update(i, 'o')),
        slugify_spec(text.update(i, 'Ó')) == slugify_spec(text.update(i, 'o')),
        slugify_spec(text.update(i, 'ú')) == slugify_spec(text.update(i, 'u')),
        slugify_spec(text.update(i, 'Ú')) == slugify_spec(text.update(i, 'u')),
        slugify_spec(text.update(i, 'ü')) == slugify_spec(text.update(i, 'u')),
        slugify_spec(text.update(i, 'Ü')) == slugify_spec(text.update(i, 'u')),
        slugify_spec(text.update(i, 'ñ')) == slugify_spec(text.update(i, 'n')),
        slugify_spec(text.update(i, 'Ñ')) == slugify_spec(text.update(i, 'n')),
{
    lemma_slug_one_letter(text, i, 'á', 'a');
    lemma_slug_one_letter(text, i, 'Á', 'a');
    lemma_slug_one_letter(text, i, 'é', 'e');
    lemma_slug_one_letter(text, i, 'É', 'e');
    lemma_slug_one_letter(text, i, 'í', 'i');
    lemma_slug_one_letter(text, i, 'Í', 'i');
    lemma_slug_one_letter(text, i, 'ó', 'o');
    lemma_slug_one_letter(text, i, 'Ó', 'o');
    lemma_slug_one_letter(text, i, 'ú', 'u');
    lemma_slug_one_letter(text, i, 'Ú', 'u');
    lemma_slug_one_letter(text, i, 'ü', 'u');
    lemma_slug_one_letter(text, i, 'Ü', 'u');
    lemma_slug_one_letter(text, i, 'ñ', 'n');
    lemma_slug_one_letter(text, i, 'Ñ', 'n');
}

/// How many times `x` occurs in `s`.
pub open spec fn occurrences(s: Seq<Seq<char>>, x: Seq<char>) -> nat
    decreases s.len(),
{
    if s.len() == 0 {
        0
    } else {
        occurrences(s.drop_last(), x) + if s.last() == x {
            1nat
        } else {
            0nat
        }
    }
}

proof fn lemma_occurrences_le(s: Seq<Seq<char>>, x: Seq<char>)
    ensures
        occurrences(s, x) <= s.len(),
    decreases s.len(),
{
    if s.len() > 0 {
        lemma_occurrences_le(s.drop_last(), x);
    }
}

/// The slug for a heading whose base slug is `slug`, when `seen` holds the
/// base slugs of the headings before it: `-2`, `-3`, ... on repeats.
pub open spec fn unique_slug_spec(seen: Seq<Seq<char>>, slug: Seq<char>) -> Seq<char> {
    let count = occurrences(seen, slug) + 1;
    if count == 1 {
        slug
    } else {
        slug + seq!['-'] + decimal(count)
    }
}

proof fn lemma_decimal_injective(a: nat, b: nat)
    requires
        decimal(a) == decimal(b),
    ensures
        a == b,
    decreases a,
{
    lemma_decimal_len(a);
    lemma_decimal_len(b);
    if a >= 10 && b >= 10 {
        assert(decimal(a).drop_last() == decimal(a / 10));
        assert(decimal(b).drop_last() == decimal(b / 10));
        lemma_decimal_injective(a / 10, b / 10);
        assert(decimal(a).last() == digit_char(a % 10));
        assert(decimal(b).last() == digit_char(b % 10));
        assert(a % 10 == b % 10) by {
            assert(((48 + a % 10) as u8) as char == ((48 + b % 10) as u8) as char);
        }
    } else if a < 10 && b < 10 {
        assert(decimal(a)[0] == digit_char(a));
        assert(decimal(b)[0] == digit_char(b));
        assert(((48 + a) as u8) as char == ((48 + b) as u8) as char);
    }
}

proof fn lemma_decimal_len(n: nat)
    ensures
        n < 10 ==> decimal(n).len() == 1,
        n >= 10 ==> decimal(n).len() >= 2,
    decreases n,
{
    if n >= 10 {
        lemma_decimal_len(n / 10);
    }
}

proof fn lemma_occurrences_concat(a: Seq<Seq<char>>, b: Seq<Seq<char>>, x: Seq<char>)
    ensures
        occurrences(a + b, x) == occurrences(a, x) + occurrences(b, x),
    decreases b.len(),
{
    if b.len() == 0 {
        assert(a + b =~= a);
    } else {
        assert((a + b).drop_last() =~= a + b.drop_last());
        lemma_occurrences_concat(a, b.drop_last(), x);
    }
}

proof fn lemma_occurrences_contains(s: Seq<Seq<char>>, x: Seq<char>)
    requires
        s.contains(x),
    ensures
        occurrences(s, x) >= 1,
    decreases s.len(),
{
    if s.last() != x {
        let k = choose|k: int| 0 <= k < s.len() && s[k] == x;
        assert(s.drop_last()[k] == x);
        lemma_occurrences_contains(s.drop_last(), x);
    }
}

/// Headings that share a base slug get different ids within one document:
/// once more headings with that base slug have come, the id differs from the
/// earlier one.
pub proof fn lemma_repeated_slug_differs(seen: Seq<Seq<char>>, more: Seq<Seq<char>>, slug: Seq<char>)
    requires
        more.contains(slug),
    ensures
        unique_slug_spec(seen + more, slug) != unique_slug_spec(seen, slug),
{
    lemma_occurrences_concat(seen, more, slug);
    lemma_occurrences_contains(more, slug);
    let c1 = occurrences(seen, slug) + 1;
    let c2 = occurrences(seen + more, slug) + 1;
    let late = slug + seq!['-'] + decimal(c2);
    if c1 == 1 {
        assert(late.len() > slug.len());
    } else {
        let early = slug + seq!['-'] + decimal(c1);
        if early == late {
            assert(early.skip(slug.len() as int + 1) =~= decimal(c1));
            assert(late.skip(slug.len() as int + 1) =~= decimal(c2));
            lemma_decimal_injective(c1, c2);
        }
    }
}

fn count_of(seen: &Vec<Vec<char>>, slug: &[char]) -> (r: usize)
    ensures
        r == occurrences(seen@.map_values(|v: Vec<char>| v@), slug@),
{
    let ghost sv = seen@.map_values(|v: Vec<char>| v@);
    let mut n: usize = 0;
    let mut i: usize = 0;
    while i < seen.len()
        invariant
            i <= seen@.len(),
            sv == seen@.map_values(|v: Vec<char>| v@),
            n == occurrences(sv.take(i as int), slug@),
            n <= i,
        decreases seen@.len() - i,
    {
        assert(sv.take(i + 1).drop_last() =~= sv.take(i as int));
        if crate::text::eq_chars(&seen[i], slug) {
            n = n + 1;
        }
        i = i + 1;
    }
    assert(sv.take(seen@.len() as int) =~= sv);
    n
}

/// Appends the unique slug for base slug `slug` to `out` and records it.
fn push_unique_slug(out: &mut Vec<char>, seen: &mut Vec<Vec<char>>, slug: Vec<char>)
    requires
        old(seen)@.len() < usize::MAX,
    ensures
        final(out)@ == old(out)@ + unique_slug_spec(
            old(seen)@.map_values(|v: Vec<char>| v@),
            slug@,
        ),
        final(seen)@.map_values(|v: Vec<char>| v@) == old(seen)@.map_values(|v: Vec<char>| v@).push(
            slug@,
        ),
{
    let count = count_of(seen, &slug);
    proof {
        lemma_occurrences_le(seen@.map_values(|v: Vec<char>| v@), slug@);
    }
    let ghost start = out@;
    extend_chars(out, &slug);
    if count > 0 {
        out.push('-');
        push_decimal(out, (count + 1) as u64);
    }
    assert(out@ =~= start + unique_slug_spec(seen@.map_values(|v: Vec<char>| v@), slug@));
    let ghost before = seen@;
    seen.push(slug);
    assert(seen@.map_values(|v: Vec<char>| v@) =~= before.map_values(|v: Vec<char>| v@).push(
        slug@,
    ));
}

// ---------------------------------------------------------------------------
// Events
// ---------------------------------------------------------------------------

/// One parser event, as the course passes see it: the kinds they rewrite
/// carry their text, everything else is `Other`. `T` is the text type.
#[derive(Debug, Clone, PartialEq, Eq)]
pub enum MdEvent<T = String> {
    HeadingStart(u8),
    HeadingEnd,
    Text(T),
    Code(T),
    LinkStart { dest: T, title: T },
    FenceStart(T),
    CodeBlockEnd,
    Html(T),
    Other,
}

/// An event and the index of the parser event it stands for. `Text`, `Code`
/// and `Html` events are output from their text; every other event is output
/// as the parser event at `source`.
#[derive(Debug, Clone, PartialEq, Eq)]
pub struct MdNode<T = String> {
    pub event: MdEvent<T>,
    pub source: usize,
}

impl View for MdEvent {
    type V = MdEvent<Seq<char>>;

    open spec fn view(&self) -> MdEvent<Seq<char>> {
        match self {
            MdEvent::HeadingStart(l) => MdEvent::HeadingStart(*l),
            MdEvent::HeadingEnd => MdEvent::HeadingEnd,
            MdEvent::Text(t) => MdEvent::Text(t@),
            MdEvent::Code(t) => MdEvent::Code(t@),
            MdEvent::LinkStart { dest, title } => MdEvent::LinkStart { dest: dest@, title: title@ },
            MdEvent::FenceStart(t) => MdEvent::FenceStart(t@),
            MdEvent::CodeBlockEnd => MdEvent::CodeBlockEnd,
            MdEvent::Html(t) => MdEvent::Html(t@),
            MdEvent::Other => MdEvent::Other,
        }
    }
}

impl View for MdNode {
    type V = MdNode<Seq<char>>;

    open spec fn view(&self) -> MdNode<Seq<char>> {
        MdNode { event: self.event@, source: self.source }
    }
}

pub open spec fn nodes_view(v: Seq<MdNode>) -> Seq<MdNode<Seq<char>>> {
    v.map_values(|n: MdNode| n@)
}

/// Every node stands for a parser event below `bound`.
pub open spec fn sources_below(v: Seq<MdNode<Seq<char>>>, bound: nat) -> bool {
    forall|i: int| 0 <= i < v.len() ==> (#[trigger] v[i]).source < bound
}

fn copy_string(s: &String) -> (r: String)
    ensures
        r@ == s@,
{
    s.clone()
}

fn copy_node(n: &MdNode) -> (r: MdNode)
    ensures
        r@ == n@,
{
    let event = match &n.event {
        MdEvent::HeadingStart(l) => MdEvent::HeadingStart(*l),
        MdEvent::HeadingEnd => MdEvent::HeadingEnd,
        MdEvent::Text(t) => MdEvent::Text(copy_string(t)),
        MdEvent::Code(t) => MdEvent::Code(copy_string(t)),
        MdEvent::LinkStart { dest, title } => MdEvent::LinkStart {
            dest: copy_string(dest),
            title: copy_string(title),
        },
        MdEvent::FenceStart(t) => MdEvent::FenceStart(copy_string(t)),
        MdEvent::CodeBlockEnd => MdEvent::CodeBlockEnd,
        MdEvent::Html(t) => MdEvent::Html(copy_string(t)),
        MdEvent::Other => MdEvent::Other,
    };
    MdNode { event, source: n.source }
}

fn html_node(html: &Vec<char>, source: usize) -> (r: MdNode)
    ensures
        r@ == (MdNode { event: MdEvent::Html(html@), source }),
{
    MdNode { event: MdEvent::Html(from_chars(html)), source }
}

/// The parser options: tables, footnotes and strikethrough (the bits of
/// `pulldown_cmark::Options::ENABLE_TABLES`, `ENABLE_FOOTNOTES` and
/// `ENABLE_STRIKETHROUGH`).
pub const MARKDOWN_OPTIONS: u32 = 14;

/// The events pulldown-cmark yields for `markdown` under `options`.
pub uninterp spec fn markdown_events(markdown: Seq<char>, options: u32) -> Seq<MdNode<Seq<char>>>;

/// The HTML pulldown-cmark writes for `nodes`, each non-text node standing
/// for the parser event of `markdown` at its source index.
pub uninterp spec fn markdown_html(
    markdown: Seq<char>,
    options: u32,
    nodes: Seq<MdNode<Seq<char>>>,
) -> Seq<char>;

/// `pulldown_cmark::Parser::new_ext` over `markdown`, each event converted
/// one for one: the `i`-th node has source `i`; the kinds the passes rewrite
/// keep their text. The sequence is named, not spelled out; what is stated is
/// that each node's source is its position.
#[verifier::external_body]
fn parse_events(markdown: &str, options: u32) -> (r: Vec<MdNode>)
    ensures
        nodes_view(r@) == markdown_events(markdown@, options),
        forall|i: int| 0 <= i < r@.len() ==> (#[trigger] r@[i]).source == i,
{
    Parser::new_ext(markdown, Options::from_bits_truncate(options)).enumerate().map(|(source, e)| MdNode {
        source,
        event: match e {
            Event::Start(Tag::Heading { level, .. }) => HeadingStart(level as u8),
            Event::End(TagEnd::Heading(_)) => HeadingEnd,
            Event::Text(t) => MdEvent::Text(t.to_string()),
            Event::Code(t) => Code(t.to_string()),
            Event::Start(Tag::Link { dest_url, title, .. }) => LinkStart { dest: dest_url.to_string(), title: title.to_string() },
            Event::Start(Tag::CodeBlock(Fenced(i))) => FenceStart(i.to_string()),
            Event::End(TagEnd::CodeBlock) => CodeBlockEnd,
            _ => Other,
        },
    }).collect()
}

/// `pulldown_cmark::html::push_html` over `nodes`: `Text`, `Code` and `Html`
/// nodes become those events with their text; any other node becomes the
/// event at its source index of `markdown` parsed again under `options`
/// (`Parser::new_ext`). The HTML is named, not spelled out.
#[verifier::external_body]
fn nodes_html(markdown: &str, options: u32, nodes: &Vec<MdNode>) -> (r: String)
    requires
        sources_below(nodes_view(nodes@), markdown_events(markdown@, options).len()),
    ensures
        r@ == markdown_html(markdown@, options, nodes_view(nodes@)),
{
    let parsed: Vec<Event> = Parser::new_ext(markdown, Options::from_bits_truncate(options)).collect();
    let mut html = String::new();
    pulldown_cmark::html::push_html(&mut html, nodes.iter().map(|n| match &n.event {
        MdEvent::Text(t) => Event::Text(t.clone().into()),
        MdEvent::Code(t) => Event::Code(t.clone().into()),
        MdEvent::Html(t) => Event::Html(t.clone().into()),
        _ => parsed[n.source].clone(),
    }));
    html
}

// ---------------------------------------------------------------------------
// Pass 1: heading anchors
// ---------------------------------------------------------------------------

/// The text of a heading: its `Text` and `Code` contents, in order.
pub open spec fn heading_text(inner: Seq<MdNode<Seq<char>>>) -> Seq<char>
    decreases inner.len(),
{
    if inner.len() == 0 {
        seq![]
    } else {
        heading_text(inner.drop_last()) + match inner.last().event {
            MdEvent::Text(t) => t,
            MdEvent::Code(t) => t,
            _ => seq![],
        }
    }
}

/// `<hN id="slug"><a class="cb-hlink" href="#slug">`.
pub open spec fn heading_open(level: u8, slug: Seq<char>) -> Seq<char> {
    "<h"@ + decimal(level as nat) + " id=\""@ + slug + "\"><a class=\"cb-hlink\" href=\"#"@ + slug
        + "\">"@
}

/// `</a></hN>`.
pub open spec fn heading_close(level: u8) -> Seq<char> {
    "</a></h"@ + decimal(level as nat) + ">"@
}

/// The anchoring pass between two events: the output so far, the open
/// heading (its level, source and buffered events), and the base slugs seen.
pub ghost struct AnchorState {
    pub out: Seq<MdNode<Seq<char>>>,
    pub heading: Option<(u8, usize, Seq<MdNode<Seq<char>>>)>,
    pub seen: Seq<Seq<char>>,
}

pub open spec fn anchor_step(st: AnchorState, n: MdNode<Seq<char>>) -> AnchorState {
    match n.event {
        MdEvent::HeadingStart(level) => AnchorState { heading: Some((level, n.source, seq![])), ..st },
        MdEvent::HeadingEnd => match st.heading {
            Some((level, src, inner)) => {
                let base = slugify_spec(heading_text(inner));
                let slug = unique_slug_spec(st.seen, base);
                AnchorState {
                    out: st.out + seq![MdNode { event: MdEvent::Html(heading_open(level, slug)), source: src }]
                        + inner + seq![MdNode { event: MdEvent::Html(heading_close(level)), source: src }],
                    heading: None,
                    seen: st.seen.push(base),
                }
            },
            None => st,
        },
        _ => match st.heading {
            Some((level, src, inner)) => AnchorState { heading: Some((level, src, inner.push(n))), ..st },
            None => AnchorState { out: st.out.push(n), ..st },
        },
    }
}

pub open spec fn anchor_fold(events: Seq<MdNode<Seq<char>>>) -> AnchorState
    decreases events.len(),
{
    if events.len() == 0 {
        AnchorState { out: seq![], heading: None, seen: seq![] }
    } else {
        anchor_step(anchor_fold(events.drop_last()), events.last())
    }
}

/// Every heading rewritten as `<hN id="slug"><a class="cb-hlink"
/// href="#slug">...</a></hN>`; a heading still open at the end is dropped.
pub open spec fn anchor_headings_spec(events: Seq<MdNode<Seq<char>>>) -> Seq<MdNode<Seq<char>>> {
    anchor_fold(events).out
}

proof fn lemma_anchor_seen_len(events: Seq<MdNode<Seq<char>>>)
    ensures
        anchor_fold(events).seen.len() <= events.len(),
    decreases events.len(),
{
    if events.len() > 0 {
        lemma_anchor_seen_len(events.drop_last());
    }
}

fn text_of(inner: &Vec<MdNode>) -> (r: Vec<char>)
    ensures
        r@ == heading_text(nodes_view(inner@)),
{
    let ghost v = nodes_view(inner@);
    let mut out: Vec<char> = Vec::new();
    let mut i: usize = 0;
    while i < inner.len()
        invariant
            i <= inner@.len(),
            v == nodes_view(inner@),
            out@ == heading_text(v.take(i as int)),
        decreases inner@.len() - i,
    {
        assert(v.take(i + 1).drop_last() =~= v.take(i as int));
        match &inner[i].event {
            MdEvent::Text(t) => extend_str(&mut out, t.as_str()),
            MdEvent::Code(t) => extend_str(&mut out, t.as_str()),
            _ => {
                assert(out@ =~= out@ + seq![]);
            },
        }
        i = i + 1;
    }
    assert(v.take(inner@.len() as int) =~= v);
    out
}

fn anchor_headings(events: &Vec<MdNode>, Ghost(bound): Ghost<nat>) -> (r: Vec<MdNode>)
    requires
        sources_below(nodes_view(events@), bound),
    ensures
        nodes_view(r@) == anchor_headings_spec(nodes_view(events@)),
        sources_below(nodes_view(r@), bound),
{
    let ghost ev = nodes_view(events@);
    let mut out: Vec<MdNode> = Vec::new();
    let mut in_heading = false;
    let mut level: u8 = 0;
    let mut hsrc: usize = 0;
    let mut inner: Vec<MdNode> = Vec::new();
    let mut seen: Vec<Vec<char>> = Vec::new();
    let mut i: usize = 0;
    assert(ev.take(0) =~= seq![]);
    assert(nodes_view(out@) =~= seq![]);
    assert(seen@.map_values(|v: Vec<char>| v@) =~= seq![]);
    while i < events.len()
        invariant
            i <= events@.len(),
            ev == nodes_view(events@),
            sources_below(ev, bound),
            anchor_fold(ev.take(i as int)) == (AnchorState {
                out: nodes_view(out@),
                heading: if in_heading {
                    Some((level, hsrc, nodes_view(inner@)))
                } else {
                    None
                },
                seen: seen@.map_values(|v: Vec<char>| v@),
            }),
            sources_below(nodes_view(out@), bound),
            sources_below(nodes_view(inner@), bound),
            hsrc < bound || !in_heading,
        decreases events@.len() - i,
    {
        proof {
            assert(ev.take(i + 1).drop_last() =~= ev.take(i as int));
            lemma_anchor_seen_len(ev.take(i as int));
        }
        let n = copy_node(&events[i]);
        assert(n@ == ev[i as int]);
        match n.event {
            MdEvent::HeadingStart(l) => {
                in_heading = true;
                level = l;
                hsrc = n.source;
                inner = Vec::new();
                assert(nodes_view(inner@) =~= seq![]);
            },
            MdEvent::HeadingEnd => {
                if in_heading {
                    let text = text_of(&inner);
                    let base = slugify_chars(&text);
                    let ghost seen_before = seen@.map_values(|v: Vec<char>| v@);
                    let ghost out_before = nodes_view(out@);
                    let ghost inner_v = nodes_view(inner@);
                    let ghost base_v = base@;
                    let mut open: Vec<char> = Vec::new();
                    extend_str(&mut open, "<h");
                    push_decimal(&mut open, level as u64);
                    extend_str(&mut open, " id=\"");
                    let mut slug: Vec<char> = Vec::new();
                    push_unique_slug(&mut slug, &mut seen, base);
                    extend_chars(&mut open, &slug);
                    extend_str(&mut open, "\"><a class=\"cb-hlink\" href=\"#");
                    extend_chars(&mut open, &slug);
                    extend_str(&mut open, "\">");
                    let mut close: Vec<char> = Vec::new();
                    extend_str(&mut close, "</a></h");
                    push_decimal(&mut close, level as u64);
                    extend_str(&mut close, ">");
                    out.push(html_node(&open, hsrc));
                    assert(nodes_view(out@) =~= out_before.push(MdNode { event: MdEvent::Html(open@), source: hsrc }));
                    let taken = inner;
                    inner = Vec::new();
                    let mut k: usize = 0;
                    let ghost mid = nodes_view(out@);
                    while k < taken.len()
                        invariant
                            k <= taken@.len(),
                            nodes_view(out@) == mid + nodes_view(taken@).take(k as int),
                            sources_below(nodes_view(taken@), bound),
                            sources_below(mid, bound),
                        decreases taken@.len() - k,
                    {
                        let ghost prev = nodes_view(out@);
                        let c = copy_node(&taken[k]);
                        out.push(c);
                        assert(nodes_view(out@) =~= prev.push(c@));
                        assert(nodes_view(taken@).take(k + 1) =~= nodes_view(taken@).take(k as int).push(c@));
                        assert(nodes_view(out@) =~= mid + nodes_view(taken@).take(k + 1));
                        k = k + 1;
                    }
                    let ghost before_close = nodes_view(out@);
                    out.push(html_node(&close, hsrc));
                    assert(nodes_view(out@) =~= before_close.push(MdNode { event: MdEvent::Html(close@), source: hsrc }));
                    in_heading = false;
                    proof {
                        assert(nodes_view(taken@).take(taken@.len() as int) =~= nodes_view(taken@));
                        assert(open@ =~= heading_open(level, slug@));
                        assert(close@ =~= heading_close(level));
                        assert(slug@ == unique_slug_spec(seen_before, base_v));
                        assert(base_v == slugify_spec(heading_text(inner_v)));
                        assert(nodes_view(out@) =~= out_before + seq![MdNode { event: MdEvent::Html(heading_open(level, slug@)), source: hsrc }] + inner_v + seq![MdNode { event: MdEvent::Html(heading_close(level)), source: hsrc }]);
                    }
                }
            },
            _ => {
                let ghost nv = n@;
                if in_heading {
                    let ghost prev = nodes_view(inner@);
                    inner.push(n);
                    assert(nodes_view(inner@) =~= prev.push(nv));
                } else {
                    let ghost prev = nodes_view(out@);
                    out.push(n);
                    assert(nodes_view(out@) =~= prev.push(nv));
                }
            },
        }
        i = i + 1;
    }
    assert(ev.take(events@.len() as int) =~= ev);
    out
}

// ---------------------------------------------------------------------------
// Pass 2: external links
// ---------------------------------------------------------------------------

/// The opening tag of an external link: opens in a new tab, with
/// `rel="noopener noreferrer"`, the URL and any title escaped.
pub open spec fn external_link_tag(dest: Seq<char>, title: Seq<char>) -> Seq<char> {
    "<a href=\""@ + escape(dest) + "\""@ + (if title.len() > 0 {
        " title=\""@ + escape(title) + "\""@
    } else {
        seq![]
    }) + " target=\"_blank\" rel=\"noopener noreferrer\">"@
}

pub open spec fn link_one(n: MdNode<Seq<char>>) -> MdNode<Seq<char>> {
    match n.event {
        MdEvent::LinkStart { dest, title } => if is_external_spec(dest) {
            MdNode { event: MdEvent::Html(external_link_tag(dest, title)), source: n.source }
        } else {
            n
        },
        _ => n,
    }
}

/// Links to `http://` and `https://` destinations rewritten to open in a new
/// tab; relative links and heading self-links are left as they are.
pub open spec fn external_links_spec(events: Seq<MdNode<Seq<char>>>) -> Seq<MdNode<Seq<char>>> {
    events.map_values(|n: MdNode<Seq<char>>| link_one(n))
}

fn external_links(events: &Vec<MdNode>, Ghost(bound): Ghost<nat>) -> (r: Vec<MdNode>)
    requires
        sources_below(nodes_view(events@), bound),
    ensures
        nodes_view(r@) == external_links_spec(nodes_view(events@)),
        sources_below(nodes_view(r@), bound),
{
    let ghost ev = nodes_view(events@);
    let mut out: Vec<MdNode> = Vec::new();
    let mut i: usize = 0;
    while i < events.len()
        invariant
            i <= events@.len(),
            ev == nodes_view(events@),
            sources_below(ev, bound),
            nodes_view(out@) == external_links_spec(ev.take(i as int)),
        decreases events@.len() - i,
    {
        let ghost prev = nodes_view(out@);
        let n = copy_node(&events[i]);
        let ghost nv = n@;
        assert(nv == ev[i as int]);
        let mut node = n;
        if let MdEvent::LinkStart { dest, title } = &node.event {
            if is_external(dest.as_str()) {
                let mut tag: Vec<char> = Vec::new();
                extend_str(&mut tag, "<a href=\"");
                push_escaped(&mut tag, dest.as_str());
                extend_str(&mut tag, "\"");
                if title.as_str().unicode_len() > 0 {
                    extend_str(&mut tag, " title=\"");
                    push_escaped(&mut tag, title.as_str());
                    extend_str(&mut tag, "\"");
                }
                extend_str(&mut tag, " target=\"_blank\" rel=\"noopener noreferrer\">");
                assert(tag@ =~= external_link_tag(dest@, title@));
                node = html_node(&tag, node.source);
            }
        }
        assert(node@ == link_one(nv));
        out.push(node);
        assert(nodes_view(out@) =~= prev.push(link_one(nv)));
        assert(external_links_spec(ev.take(i + 1)) =~= external_links_spec(ev.take(i as int)).push(link_one(nv)));
        i = i + 1;
    }
    assert(ev.take(events@.len() as int) =~= ev);
    out
}

// ---------------------------------------------------------------------------
// Pass 3: mermaid diagrams
// ---------------------------------------------------------------------------

/// `<pre class="mermaid">` around the escaped diagram source.
pub open spec fn mermaid_html(diagram: Seq<char>) -> Seq<char> {
    "<pre class=\"mermaid\">"@ + escape(diagram) + "</pre>"@
}

/// The mermaid pass between two events: the output so far and, inside a
/// mermaid fence, the diagram source read so far.
pub ghost struct MermaidState {
    pub out: Seq<MdNode<Seq<char>>>,
    pub diagram: Option<Seq<char>>,
}

pub open spec fn mermaid_step(st: MermaidState, n: MdNode<Seq<char>>) -> MermaidState {
    match n.event {
        MdEvent::FenceStart(info) if info == "mermaid"@ => MermaidState { out: st.out, diagram: Some(seq![]) },
        MdEvent::Text(t) if st.diagram is Some => MermaidState {
            out: st.out,
            diagram: Some(st.diagram.unwrap() + t),
        },
        MdEvent::CodeBlockEnd if st.diagram is Some => MermaidState {
            out: st.out.push(
                MdNode { event: MdEvent::Html(mermaid_html(st.diagram.unwrap())), source: n.source },
            ),
            diagram: None,
        },
        _ => MermaidState { out: st.out.push(n), diagram: st.diagram },
    }
}

pub open spec fn mermaid_fold(events: Seq<MdNode<Seq<char>>>) -> MermaidState
    decreases events.len(),
{
    if events.len() == 0 {
        MermaidState { out: seq![], diagram: None }
    } else {
        mermaid_step(mermaid_fold(events.drop_last()), events.last())
    }
}

/// Fenced `mermaid` blocks rewritten into `<pre class="mermaid">`, the
/// element mermaid.js renders; other code blocks are left as they are.
pub open spec fn mermaid_blocks_spec(events: Seq<MdNode<Seq<char>>>) -> Seq<MdNode<Seq<char>>> {
    mermaid_fold(events).out
}

fn mermaid_blocks(events: &Vec<MdNode>, Ghost(bound): Ghost<nat>) -> (r: Vec<MdNode>)
    requires
        sources_below(nodes_view(events@), bound),
    ensures
        nodes_view(r@) == mermaid_blocks_spec(nodes_view(events@)),
        sources_below(nodes_view(r@), bound),
{
    let ghost ev = nodes_view(events@);
    let mut out: Vec<MdNode> = Vec::new();
    let mut in_diagram = false;
    let mut diagram: Vec<char> = Vec::new();
    let mut i: usize = 0;
    assert(ev.take(0) =~= seq![]);
    assert(nodes_view(out@) =~= seq![]);
    while i < events.len()
        invariant
            i <= events@.len(),
            ev == nodes_view(events@),
            sources_below(ev, bound),
            mermaid_fold(ev.take(i as int)) == (MermaidState {
                out: nodes_view(out@),
                diagram: if in_diagram {
                    Some(diagram@)
                } else {
                    None
                },
            }),
            sources_below(nodes_view(out@), bound),
        decreases events@.len() - i,
    {
        assert(ev.take(i + 1).drop_last() =~= ev.take(i as int));
        let ghost prev = nodes_view(out@);
        let n = copy_node(&events[i]);
        let ghost nv = n@;
        assert(nv == ev[i as int]);
        let mut handled = false;
        match &n.event {
            MdEvent::FenceStart(info) => {
                proof {
                    reveal_strlit("mermaid");
                }
                if crate::text::eq_str(&to_chars(info.as_str()), "mermaid") {
                    in_diagram = true;
                    diagram = Vec::new();
                    handled = true;
                }
            },
            MdEvent::Text(t) => {
                if in_diagram {
                    extend_str(&mut diagram, t.as_str());
                    handled = true;
                }
            },
            MdEvent::CodeBlockEnd => {
                if in_diagram {
                    let mut html: Vec<char> = Vec::new();
                    extend_str(&mut html, "<pre class=\"mermaid\">");
                    push_escaped_chars(&mut html, &diagram);
                    extend_str(&mut html, "</pre>");
                    assert(html@ =~= mermaid_html(diagram@));
                    out.push(html_node(&html, n.source));
                    assert(nodes_view(out@) =~= prev.push(MdNode { event: MdEvent::Html(mermaid_html(diagram@)), source: nv.source }));
                    in_diagram = false;
                    diagram = Vec::new();
                    handled = true;
                }
            },
            _ => {},
        }
        if !handled {
            out.push(n);
            assert(nodes_view(out@) =~= prev.push(nv));
        }
        i = i + 1;
    }
    assert(ev.take(events@.len() as int) =~= ev);
    out
}

// ---------------------------------------------------------------------------
// Pass 4: variable tokens
// ---------------------------------------------------------------------------

pub open spec fn all_literal(segs: Seq<Segment<Seq<char>>>) -> bool {
    forall|i: int| 0 <= i < segs.len() ==> (#[trigger] segs[i]) is Literal
}

/// Text pieces as events: literals as text, names as their unfilled display.
pub open spec fn text_pieces(segs: Seq<Segment<Seq<char>>>, source: usize) -> Seq<MdNode<Seq<char>>> {
    segs.map_values(|p: Segment<Seq<char>>| match p {
        Segment::Literal(l) => MdNode { event: MdEvent::Text(l), source },
        Segment::Var(name) => MdNode { event: MdEvent::Html(variable_span(name)), source },
    })
}

/// Inline-code pieces as markup: literals escaped, names as their display.
pub open spec fn code_pieces(segs: Seq<Segment<Seq<char>>>) -> Seq<char>
    decreases segs.len(),
{
    if segs.len() == 0 {
        seq![]
    } else {
        code_pieces(segs.drop_last()) + match segs.last() {
            Segment::Literal(l) => escape(l),
            Segment::Var(name) => variable_span(name),
        }
    }
}

pub open spec fn vars_one(n: MdNode<Seq<char>>) -> Seq<MdNode<Seq<char>>> {
    match n.event {
        MdEvent::Text(t) => if all_literal(split_tokens_spec(t)) {
            seq![n]
        } else {
            text_pieces(split_tokens_spec(t), n.source)
        },
        MdEvent::Code(t) => if all_literal(split_tokens_spec(t)) {
            seq![n]
        } else {
            seq![
                MdNode {
                    event: MdEvent::Html("<code>"@ + code_pieces(split_tokens_spec(t)) + "</code>"@),
                    source: n.source,
                },
            ]
        },
        _ => seq![n],
    }
}

/// `{%name%}` tokens in text and inline code rewritten into their unfilled
/// display `<span class="cb-var" data-var="name">&lt;name&gt;</span>`.
pub open spec fn wrap_variables_spec(events: Seq<MdNode<Seq<char>>>) -> Seq<MdNode<Seq<char>>>
    decreases events.len(),
{
    if events.len() == 0 {
        seq![]
    } else {
        wrap_variables_spec(events.drop_last()) + vars_one(events.last())
    }
}

fn is_all_literal(segs: &Vec<Segment<&str>>) -> (r: bool)
    ensures
        r == all_literal(segs@.map_values(|p: Segment<&str>| p@)),
{
    let mut i: usize = 0;
    while i < segs.len()
        invariant
            i <= segs@.len(),
            forall|j: int| 0 <= j < i ==> (#[trigger] segs@[j]) is Literal,
        decreases segs@.len() - i,
    {
        if let Segment::Var(_) = &segs[i] {
            assert(segs@.map_values(|p: Segment<&str>| p@)[i as int] is Var);
            return false;
        }
        i = i + 1;
    }
    let ghost sv = segs@.map_values(|p: Segment<&str>| p@);
    assert forall|j: int| 0 <= j < sv.len() implies (#[trigger] sv[j]) is Literal by {
        assert(segs@[j] is Literal);
    }
    true
}

fn wrap_one(n: MdNode, out: &mut Vec<MdNode>, Ghost(bound): Ghost<nat>)
    requires
        n.source < bound,
        sources_below(nodes_view(old(out)@), bound),
    ensures
        nodes_view(final(out)@) == nodes_view(old(out)@) + vars_one(n@),
        sources_below(nodes_view(final(out)@), bound),
{
    let ghost prev = nodes_view(out@);
    let ghost nv = n@;
    let source = n.source;
    match &n.event {
        MdEvent::Text(t) => {
            let segs = split_tokens(t.as_str());
            let ghost sv = segs@.map_values(|p: Segment<&str>| p@);
            if !is_all_literal(&segs) {
                let mut k: usize = 0;
                while k < segs.len()
                    invariant
                        k <= segs@.len(),
                        sv == segs@.map_values(|p: Segment<&str>| p@),
                        nodes_view(out@) == prev + text_pieces(sv.take(k as int), source),
                        sources_below(nodes_view(out@), bound),
                        source < bound,
                    decreases segs@.len() - k,
                {
                    let ghost before = nodes_view(out@);
                    match &segs[k] {
                        Segment::Literal(l) => {
                            let lit: &str = *l;
                            let node = MdNode { event: MdEvent::Text(lit.to_owned()), source };
                            out.push(node);
                        },
                        Segment::Var(name) => {
                            let html = variable_span_html(name);
                            out.push(MdNode { event: MdEvent::Html(html), source });
                        },
                    }
                    assert(text_pieces(sv.take(k + 1), source) =~= text_pieces(sv.take(k as int), source).push(
                        text_pieces(sv, source)[k as int],
                    ));
                    assert(nodes_view(out@) =~= before.push(text_pieces(sv, source)[k as int]));
                    k = k + 1;
                }
                assert(sv.take(segs@.len() as int) =~= sv);
                return;
            }
        },
        MdEvent::Code(t) => {
            let segs = split_tokens(t.as_str());
            let ghost sv = segs@.map_values(|p: Segment<&str>| p@);
            if !is_all_literal(&segs) {
                let mut html: Vec<char> = Vec::new();
                extend_str(&mut html, "<code>");
                let ghost head = html@;
                let mut k: usize = 0;
                while k < segs.len()
                    invariant
                        k <= segs@.len(),
                        sv == segs@.map_values(|p: Segment<&str>| p@),
                        html@ == head + code_pieces(sv.take(k as int)),
                    decreases segs@.len() - k,
                {
                    assert(sv.take(k + 1).drop_last() =~= sv.take(k as int));
                    match &segs[k] {
                        Segment::Literal(l) => push_escaped(&mut html, l),
                        Segment::Var(name) => push_variable_span(&mut html, name),
                    }
                    k = k + 1;
                }
                assert(sv.take(segs@.len() as int) =~= sv);
                extend_str(&mut html, "</code>");
                out.push(html_node(&html, source));
                assert(nodes_view(out@) =~= prev + vars_one(nv));
                return;
            }
        },
        _ => {},
    }
    out.push(n);
    assert(nodes_view(out@) =~= prev + vars_one(nv));
}

fn wrap_variables(events: &Vec<MdNode>, Ghost(bound): Ghost<nat>) -> (r: Vec<MdNode>)
    requires
        sources_below(nodes_view(events@), bound),
    ensures
        nodes_view(r@) == wrap_variables_spec(nodes_view(events@)),
        sources_below(nodes_view(r@), bound),
{
    let ghost ev = nodes_view(events@);
    let mut out: Vec<MdNode> = Vec::new();
    let mut i: usize = 0;
    assert(ev.take(0) =~= seq![]);
    assert(nodes_view(out@) =~= seq![]);
    while i < events.len()
        invariant
            i <= events@.len(),
            ev == nodes_view(events@),
            sources_below(ev, bound),
            nodes_view(out@) == wrap_variables_spec(ev.take(i as int)),
            sources_below(nodes_view(out@), bound),
        decreases events@.len() - i,
    {
        assert(ev.take(i + 1).drop_last() =~= ev.take(i as int));
        let n = copy_node(&events[i]);
        assert(n@ == ev[i as int]);
        wrap_one(n, &mut out, Ghost(bound));
        i = i + 1;
    }
    assert(ev.take(events@.len() as int) =~= ev);
    out
}

// ---------------------------------------------------------------------------
// The whole renderer
// ---------------------------------------------------------------------------

/// The course passes, in order, over a parser event stream.
pub open spec fn course_passes(events: Seq<MdNode<Seq<char>>>) -> Seq<MdNode<Seq<char>>> {
    wrap_variables_spec(mermaid_blocks_spec(external_links_spec(anchor_headings_spec(events))))
}

/// The HTML of `markdown`: its parser events under [`MARKDOWN_OPTIONS`],
/// through the course passes, written out by pulldown-cmark.
pub open spec fn render_markdown_spec(markdown: Seq<char>) -> Seq<char> {
    markdown_html(
        markdown,
        MARKDOWN_OPTIONS,
        course_passes(markdown_events(markdown, MARKDOWN_OPTIONS)),
    )
}

/// Renders Markdown to HTML (CommonMark plus tables, footnotes, strikethrough).
///
/// Raw HTML in the source passes through verbatim: content is trusted,
/// authored input. Headings get a slug `id` derived from their text, and their
/// text is wrapped in a self-link (`<a class="cb-hlink" href="#slug">`);
/// duplicate slugs within one document get `-2`, `-3`, ... A `{%name%}`
/// token renders as the unfilled display
/// `<span class="cb-var" data-var="name">&lt;name&gt;</span>`.
pub fn render_markdown(markdown: &str) -> (r: String)
    ensures
        r@ == render_markdown_spec(markdown@),
{
    let events = parse_events(markdown, MARKDOWN_OPTIONS);
    let ghost bound = events@.len() as nat;
    assert(sources_below(nodes_view(events@), bound));
    let a = anchor_headings(&events, Ghost(bound));
    let b = external_links(&a, Ghost(bound));
    let c = mermaid_blocks(&b, Ghost(bound));
    let d = wrap_variables(&c, Ghost(bound));
    nodes_html(markdown, MARKDOWN_OPTIONS, &d)
}

} // verus!
