//! Expansion of `<cb-goto>` navigation tags: the author names a target
//! heading by its visible text (or by a raw anchor with a leading `#`), and
//! each tag gets the heading's slug id, so a typo fails the build instead of
//! shipping a dead button.
use vstd::prelude::*;

use crate::error::Error;
use crate::markdown::{slugify, slugify_spec};
use crate::render::{escape, push_escaped, push_escaped_chars};
use crate::text::{
    ends_with, extend_chars, extend_str, find_chars_from, find_from, from_chars, is_ascii_alnum,
    is_ws, occurs_at, starts_with, to_chars, trim_end, trim_end_chars,
};

verus! {

// ---------------------------------------------------------------------------
// Known ids
// ---------------------------------------------------------------------------

/// A set of element ids.
#[derive(Debug)]
pub struct IdSet {
    ids: Vec<String>,
}

impl View for IdSet {
    type V = Set<Seq<char>>;

    closed spec fn view(&self) -> Set<Seq<char>> {
        self.ids@.map_values(|s: String| s@).to_set()
    }
}

impl IdSet {
    #[verifier::type_invariant]
    spec fn distinct(self) -> bool {
        self.ids@.map_values(|s: String| s@).no_duplicates()
    }

    /// The empty set.
    pub fn new() -> (r: Self)
        ensures
            r@ == Set::<Seq<char>>::empty(),
    {
        let r = IdSet { ids: Vec::new() };
        assert(r.ids@.map_values(|s: String| s@) =~= Seq::<Seq<char>>::empty());
        assert(r@ =~= Set::<Seq<char>>::empty());
        r
    }

    /// Whether `id` is in the set.
    pub fn contains(&self, id: &str) -> (r: bool)
        ensures
            r == self@.contains(id@),
    {
        let c = to_chars(id);
        self.holds(&c)
    }

    fn holds(&self, id: &[char]) -> (r: bool)
        ensures
            r == self@.contains(id@),
    {
        let ghost v = self.ids@.map_values(|s: String| s@);
        let mut i: usize = 0;
        while i < self.ids.len()
            invariant
                i <= self.ids@.len(),
                v == self.ids@.map_values(|s: String| s@),
                forall|j: int| 0 <= j < i ==> (#[trigger] v[j]) != id@,
            decreases self.ids@.len() - i,
        {
            if crate::text::eq_str(id, self.ids[i].as_str()) {
                assert(v[i as int] == id@);
                assert(v.contains(id@));
                return true;
            }
            i = i + 1;
        }
        proof {
            if v.to_set().contains(id@) {
                let k = choose|k: int| 0 <= k < v.len() && v[k] == id@;
                assert(v[k] != id@);
            }
        }
        false
    }

    /// Adds `id`.
    pub fn insert(&mut self, id: String)
        ensures
            final(self)@ == old(self)@.insert(id@),
    {
        proof {
            use_type_invariant(&*self);
        }
        let c = to_chars(id.as_str());
        if self.holds(&c) {
            assert(old(self)@.insert(id@) =~= old(self)@);
            return;
        }
        let ghost before = self.ids@.map_values(|s: String| s@);
        let ghost v = id@;
        let mut ids = Vec::new();
        std::mem::swap(&mut ids, &mut self.ids);
        ids.push(id);
        proof {
            let after = ids@.map_values(|s: String| s@);
            assert(after =~= before + seq![v]);
            Seq::lemma_to_set_insert_commutes(before, v);
            assert(after.no_duplicates()) by {
                assert forall|i: int, j: int| 0 <= i < after.len() && 0 <= j < after.len() && i != j implies after[i] != after[j] by {
                    if i == after.len() - 1 {
                        assert(before.contains(after[j]));
                    } else if j == after.len() - 1 {
                        assert(before.contains(after[i]));
                    }
                }
            }
        }
        self.ids = ids;
    }

    /// The number of ids in the set.
    pub fn len(&self) -> (r: usize)
        ensures
            r == self@.len(),
    {
        proof {
            use_type_invariant(self);
            self.ids@.map_values(|s: String| s@).unique_seq_to_set();
        }
        self.ids.len()
    }
}

pub open spec fn id_marker() -> Seq<char> {
    seq!['i', 'd', '=', '"']
}

/// The `id="..."` values in `html` from index `pos` on, in order.
pub open spec fn ids_from(html: Seq<char>, pos: int) -> Seq<Seq<char>>
    decreases html.len() - pos,
{
    let f = find_from(html, id_marker(), pos);
    if pos < 0 || pos > html.len() || f is None || f.unwrap() < pos {
        seq![]
    } else {
        let vs = f.unwrap() + 4;
        let ve = find_from(html, seq!['"'], vs);
        if ve is None || ve.unwrap() < vs || ve.unwrap() >= html.len() {
            seq![]
        } else {
            seq![html.subrange(vs, ve.unwrap())] + ids_from(html, ve.unwrap() + 1)
        }
    }
}

/// Adds every `id="..."` attribute value in `html` to `ids`. The scan is
/// textual, so ids quoted inside code samples are collected too.
pub fn collect_ids(html: &str, ids: &mut IdSet)
    ensures
        forall|s: Seq<char>| #[trigger] final(ids)@.contains(s) <==> (old(ids)@.contains(s) || ids_from(
            html@,
            0,
        ).contains(s)),
{
    let h = to_chars(html);
    let marker = to_chars("id=\"");
    let quote = to_chars("\"");
    proof {
        reveal_strlit("\"");
        reveal_strlit("id=\"");
        assert(quote@ =~= seq!['"']);
        assert(marker@ =~= id_marker());
    }
    let ghost start_ids = ids@;
    let mut pos: usize = 0;
    let ghost mut found: Seq<Seq<char>> = seq![];
    assert(found + ids_from(h@, 0) =~= ids_from(html@, 0));
    loop
        invariant
            pos <= h@.len(),
            h@ == html@,
            marker@ == id_marker(),
            quote@ == seq!['"'],
            start_ids == old(ids)@,
            found + ids_from(h@, pos as int) == ids_from(html@, 0),
            forall|s: Seq<char>| #[trigger] ids@.contains(s) <==> (start_ids.contains(s) || found.contains(s)),
        decreases h@.len() - pos,
    {
        match find_chars_from(&h, &marker, pos) {
            None => {
                assert(ids_from(h@, pos as int) =~= seq![]);
                assert(found =~= ids_from(html@, 0));
                return;
            },
            Some(start) => {
                assert(start + 4 <= h.len());
                let vs = start + 4;
                match find_chars_from(&h, &quote, vs) {
                    None => {
                        assert(ids_from(h@, pos as int) =~= seq![]);
                        assert(found =~= ids_from(html@, 0));
                        return;
                    },
                    Some(ve) => {
                        assert(ve + 1 <= h.len());
                        let id = from_chars(&h[vs..ve]);
                        let ghost v = id@;
                        assert(v =~= h@.subrange(vs as int, ve as int));
                        ids.insert(id);
                        proof {
                            assert(ids_from(h@, pos as int) == seq![v] + ids_from(h@, ve + 1));
                            let nf = found.push(v);
                            assert forall|s: Seq<char>| nf.contains(s) <==> (found.contains(s) || s == v) by {
                                if nf.contains(s) && s != v {
                                    let k = choose|k: int| 0 <= k < nf.len() && nf[k] == s;
                                    assert(found[k] == s);
                                }
                                if found.contains(s) {
                                    let k = choose|k: int| 0 <= k < found.len() && found[k] == s;
                                    assert(nf[k] == s);
                                }
                                if s == v {
                                    assert(nf[found.len() as int] == v);
                                }
                            }
                            found = nf;
                            assert(found + ids_from(h@, ve + 1) =~= ids_from(html@, 0));
                        }
                        pos = ve + 1;
                    },
                }
            },
        }
    }
}

// ---------------------------------------------------------------------------
// Reading a quoted attribute of a tag
// ---------------------------------------------------------------------------

/// The outcome of looking for an attribute in a tag: its value's bounds, no
/// such attribute, or a scan that would not make progress: an attribute scan
/// that stops advancing, on which expansion would never end.
pub enum Attr {
    Found(int, int),
    Missing,
    Stuck,
}

/// The first index at or after `i` that is not whitespace.
pub open spec fn skip_spaces(s: Seq<char>, i: int) -> int
    decreases s.len() - i,
{
    if 0 <= i < s.len() && is_ws(s[i]) {
        skip_spaces(s, i + 1)
    } else {
        i
    }
}

pub open spec fn is_key_char(c: char) -> bool {
    is_ascii_alnum(c) || c == '-' || c == '_'
}

/// The first index at or after `i` whose character is not a key character.
pub open spec fn key_end(s: Seq<char>, i: int) -> int
    decreases s.len() - i,
{
    if 0 <= i < s.len() && is_key_char(s[i]) {
        key_end(s, i + 1)
    } else {
        i
    }
}

/// The first index at or after `i` holding `c`, or the length.
pub open spec fn char_from(s: Seq<char>, c: char, i: int) -> int
    decreases s.len() - i,
{
    if 0 <= i < s.len() && s[i] != c {
        char_from(s, c, i + 1)
    } else {
        i
    }
}

pub(crate) proof fn lemma_scans(s: Seq<char>, i: int)
    requires
        0 <= i <= s.len(),
    ensures
        i <= skip_spaces(s, i) <= s.len(),
        i <= key_end(s, i) <= s.len(),
        forall|c: char| i <= #[trigger] char_from(s, c, i) <= s.len(),
    decreases s.len() - i,
{
    if i < s.len() {
        lemma_scans(s, i + 1);
    }
    assert forall|c: char| i <= #[trigger] char_from(s, c, i) <= s.len() by {
        lemma_char_from(s, c, i);
    }
}

pub(crate) proof fn lemma_char_from(s: Seq<char>, c: char, i: int)
    requires
        0 <= i <= s.len(),
    ensures
        i <= char_from(s, c, i) <= s.len(),
        char_from(s, c, i) < s.len() ==> s[char_from(s, c, i)] == c,
    decreases s.len() - i,
{
    if i < s.len() && s[i] != c {
        lemma_char_from(s, c, i + 1);
    }
}

/// Scanning the attributes of `tag` for `wanted`, from index `pos`.
pub open spec fn attr_scan(tag: Seq<char>, wanted: Seq<char>, pos: int) -> Attr
    decreases tag.len() - pos,
{
    let p = skip_spaces(tag, pos);
    if pos < 0 || p < pos || p >= tag.len() || tag[p] == '>' || starts_with(tag.skip(p), seq!['/', '>']) {
        Attr::Missing
    } else {
        let ke = key_end(tag, p);
        if ke < p || ke >= tag.len() {
            Attr::Missing
        } else {
            let key = tag.subrange(p, ke);
            let q = skip_spaces(tag, ke);
            if q < ke || q >= tag.len() {
                Attr::Missing
            } else if tag[q] != '=' {
                if key == wanted {
                    Attr::Missing
                } else if q <= p {
                    Attr::Stuck
                } else {
                    attr_scan(tag, wanted, q)
                }
            } else {
                let r = skip_spaces(tag, q + 1);
                if r <= q || r >= tag.len() || (tag[r] != '\'' && tag[r] != '"') {
                    Attr::Missing
                } else {
                    let ve = char_from(tag, tag[r], r + 1);
                    if ve <= r || ve >= tag.len() {
                        Attr::Missing
                    } else if key == wanted {
                        Attr::Found(r + 1, ve)
                    } else {
                        attr_scan(tag, wanted, ve + 1)
                    }
                }
            }
        }
    }
}

/// The quoted value of attribute `wanted` in a tag that opens with `open`.
pub open spec fn quoted_attribute_spec(tag: Seq<char>, open: Seq<char>, wanted: Seq<char>) -> Attr {
    if starts_with(tag, open) {
        attr_scan(tag, wanted, open.len() as int)
    } else {
        Attr::Missing
    }
}

pub(crate) fn skip_spaces_exec(s: &[char], i: usize) -> (r: usize)
    requires
        i <= s@.len(),
    ensures
        r == skip_spaces(s@, i as int),
{
    let mut j = i;
    while j < s.len() && crate::text::is_whitespace(s[j])
        invariant
            i <= j <= s@.len(),
            skip_spaces(s@, j as int) == skip_spaces(s@, i as int),
        decreases s@.len() - j,
    {
        j = j + 1;
    }
    j
}

/// Reads the quoted value of attribute `wanted`: `Ok(Some((start, end)))`
/// bounds the value in `tag`, `Ok(None)` means there is none, and `Err(())`
/// is a tag on which the scan would not make progress.
pub(crate) fn quoted_attribute(tag: &[char], open: &str, wanted: &str) -> (r: Result<Option<(usize, usize)>, ()>)
    ensures
        match quoted_attribute_spec(tag@, open@, wanted@) {
            Attr::Found(a, b) => r matches Ok(Some((x, y))) && x == a && y == b && 0 <= a <= b <= tag@.len(),
            Attr::Missing => r == Ok::<Option<(usize, usize)>, ()>(None),
            Attr::Stuck => r is Err,
        },
{
    if !crate::text::starts_with_str(tag, open) {
        return Ok(None);
    }
    let w = to_chars(wanted);
    let open_len = to_chars(open).len();
    let mut pos: usize = open_len;
    loop
        invariant
            open_len <= pos <= tag@.len(),
            starts_with(tag@, open@),
            open_len == open@.len(),
            w@ == wanted@,
            quoted_attribute_spec(tag@, open@, wanted@) == attr_scan(tag@, wanted@, pos as int),
        decreases tag@.len() - pos,
    {
        proof {
            lemma_scans(tag@, pos as int);
        }
        let p = skip_spaces_exec(tag, pos);
        if p >= tag.len() || tag[p] == '>' || (tag.len() - p >= 2 && tag[p] == '/' && tag[p + 1] == '>') {
            proof {
                if p < tag@.len() && tag@.len() - p >= 2 && tag@[p as int] == '/' && tag@[p + 1] == '>' {
                    assert(tag@.skip(p as int).subrange(0, 2) =~= seq!['/', '>']);
                }
            }
            return Ok(None);
        }
        proof {
            if starts_with(tag@.skip(p as int), seq!['/', '>']) {
                assert(tag@.skip(p as int).subrange(0, 2)[0] == tag@[p as int]);
                assert(tag@.skip(p as int).subrange(0, 2)[1] == tag@[p + 1]);
            }
            lemma_scans(tag@, p as int);
        }
        let mut ke = p;
        while ke < tag.len() && (crate::text::is_alnum(tag[ke]) || tag[ke] == '-' || tag[ke] == '_')
            invariant
                p <= ke <= tag@.len(),
                key_end(tag@, ke as int) == key_end(tag@, p as int),
            decreases tag@.len() - ke,
        {
            ke = ke + 1;
        }
        if ke >= tag.len() {
            return Ok(None);
        }
        proof {
            lemma_scans(tag@, ke as int);
        }
        let q = skip_spaces_exec(tag, ke);
        let key = &tag[p..ke];
        assert(key@ =~= tag@.subrange(p as int, ke as int));
        let key_is_wanted = crate::text::eq_chars(key, &w);
        if q >= tag.len() {
            return Ok(None);
        } else if tag[q] != '=' {
            if key_is_wanted {
                return Ok(None);
            } else if q <= p {
                return Err(());
            } else {
                pos = q;
            }
        } else {
            proof {
                lemma_scans(tag@, q + 1);
            }
            let r = skip_spaces_exec(tag, q + 1);
            if r >= tag.len() || (tag[r] != '\'' && tag[r] != '"') {
                return Ok(None);
            }
            let quote = tag[r];
            proof {
                lemma_char_from(tag@, quote, r + 1);
            }
            let mut ve = r + 1;
            while ve < tag.len() && tag[ve] != quote
                invariant
                    r + 1 <= ve <= tag@.len(),
                    char_from(tag@, quote, ve as int) == char_from(tag@, quote, r + 1),
                decreases tag@.len() - ve,
            {
                ve = ve + 1;
            }
            if ve >= tag.len() {
                return Ok(None);
            }
            if key_is_wanted {
                return Ok(Some((r + 1, ve)));
            }
            pos = ve + 1;
        }
    }
}

// ---------------------------------------------------------------------------
// Expanding the tags
// ---------------------------------------------------------------------------

pub open spec fn goto_open() -> Seq<char> {
    seq!['<', 'c', 'b', '-', 'g', 'o', 't', 'o']
}

pub open spec fn goto_close() -> Seq<char> {
    seq!['<', '/', 'c', 'b', '-', 'g', 'o', 't', 'o', '>']
}

/// The anchor a `path` names: a raw anchor after `#`, or a heading's slug.
pub open spec fn goto_target(path: Seq<char>) -> Seq<char> {
    if path.len() > 0 && path[0] == '#' {
        path.drop_first()
    } else {
        slugify_spec(path)
    }
}

/// The rewritten tag.
pub open spec fn goto_tag(path: Seq<char>, label: Option<Seq<char>>, target: Seq<char>) -> Seq<char> {
    "<cb-goto path=\""@ + escape(path) + "\""@ + match label {
        Some(l) => " label=\""@ + escape(l) + "\""@,
        None => seq![],
    } + " data-target=\""@ + escape(target) + "\"></cb-goto>"@
}

/// The outcome of expanding: the HTML, an error, or a tag on which the
/// attribute scan would not end.
pub enum Expansion {
    Done(Seq<char>),
    Failed(Error<Seq<char>>),
    Stuck,
}

/// One step of the expansion from index `pos`, after `acc`: where to go on
/// with what output, or how it ends.
pub enum Step {
    Next(int, Seq<char>),
    End(Expansion),
}

#[verifier::opaque]
pub open spec fn goto_step(html: Seq<char>, ids: Set<Seq<char>>, pos: int, acc: Seq<char>) -> Step {
    let f = find_from(html, goto_open(), pos);
    if f is None || f.unwrap() < pos {
        Step::End(Expansion::Done(acc + html.subrange(pos, html.len() as int)))
    } else {
        let start = f.unwrap();
        let acc2 = acc + html.subrange(pos, start);
        let e = find_from(html, seq!['>'], start);
        if e is None || e.unwrap() < start || e.unwrap() >= html.len() {
            Step::End(Expansion::Failed(Error::MalformedGoto("unterminated tag"@)))
        } else {
            let end = e.unwrap();
            let tag = html.subrange(start, end + 1);
            match quoted_attribute_spec(tag, goto_open(), "path"@) {
                Attr::Stuck => Step::End(Expansion::Stuck),
                Attr::Missing => Step::End(
                    Expansion::Failed(Error::MalformedGoto("missing a quoted path attribute"@)),
                ),
                Attr::Found(a, b) => {
                    let path = tag.subrange(a, b);
                    let target = goto_target(path);
                    if !ids.contains(target) {
                        Step::End(Expansion::Failed(Error::UnknownGotoTarget(path)))
                    } else {
                        let label = quoted_attribute_spec(tag, goto_open(), "label"@);
                        if label is Stuck {
                            Step::End(Expansion::Stuck)
                        } else {
                            let lv = match label {
                                Attr::Found(c, d) => Some(tag.subrange(c, d)),
                                _ => None,
                            };
                            let out = acc2 + goto_tag(path, lv, target);
                            if ends_with(trim_end(tag), seq!['/', '>']) {
                                Step::Next(end + 1, out)
                            } else if !starts_with(html.skip(end + 1), goto_close()) || end + 11 > html.len() {
                                Step::End(
                                    Expansion::Failed(
                                        Error::MalformedGoto("must be empty and closed with </cb-goto>"@),
                                    ),
                                )
                            } else {
                                Step::Next(end + 11, out)
                            }
                        }
                    }
                },
            }
        }
    }
}

/// Expansion of `html` from index `pos` on, after `acc`.
pub open spec fn expand_from(html: Seq<char>, ids: Set<Seq<char>>, pos: int, acc: Seq<char>) -> Expansion
    decreases html.len() - pos,
{
    if pos < 0 || pos > html.len() {
        Expansion::Done(acc)
    } else {
        match goto_step(html, ids, pos, acc) {
            Step::Next(p, a) => if pos < p <= html.len() {
                expand_from(html, ids, p, a)
            } else {
                Expansion::Done(a)
            },
            Step::End(x) => x,
        }
    }
}

/// Every empty `<cb-goto>` tag rewritten with its resolved target.
pub open spec fn expand_goto_spec(html: Seq<char>, ids: Set<Seq<char>>) -> Expansion {
    if find_from(html, goto_open(), 0) is None {
        Expansion::Done(html)
    } else {
        expand_from(html, ids, 0, seq![])
    }
}

/// One expansion step from `pos`: `Ok(Some(next))` to go on from `next`,
/// `Ok(None)` when the HTML is done.
#[verifier::rlimit(80)]
fn goto_step_exec(h: &Vec<char>, ids: &IdSet, pos: usize, out: &mut Vec<char>) -> (r: Result<Option<usize>, Option<Error>>)
    requires
        pos <= h@.len(),
    ensures
        match goto_step(h@, ids@, pos as int, old(out)@) {
            Step::Next(p, a) => r matches Ok(Some(n)) && n == p && final(out)@ == a && pos < p <= h@.len(),
            Step::End(Expansion::Done(x)) => r == Ok::<Option<usize>, Option<Error>>(None) && final(out)@ == x,
            Step::End(Expansion::Failed(e)) => r matches Err(Some(e2)) && e2@ == e,
            Step::End(Expansion::Stuck) => r == Err::<Option<usize>, Option<Error>>(None),
        },
{
    reveal(goto_step);
    let open = to_chars("<cb-goto");
    let gt = to_chars(">");
    proof {
        reveal_strlit(">");
        reveal_strlit("<cb-goto");
        assert(gt@ =~= seq!['>']);
        assert(open@ =~= goto_open());
    }
    let ghost acc = out@;
    let ghost p0 = pos as int;
    match find_chars_from(&h, &open, pos) {
        None => {
            extend_chars(out, &h[pos..h.len()]);
            assert(out@ =~= acc + h@.subrange(p0, h@.len() as int));
            return Ok(None);
        },
        Some(start) => {
            assert(start + 8 <= h.len());
            extend_chars(out, &h[pos..start]);
            let end = match find_chars_from(&h, &gt, start) {
                None => {
                    return Err(Some(Error::MalformedGoto(String::from_str("unterminated tag"))));
                },
                Some(e) => e,
            };
            assert(end + 1 <= h.len());
            let tag = &h[start..end + 1];
            assert(tag@ =~= h@.subrange(start as int, end + 1));
            let (a, b) = match quoted_attribute(tag, "<cb-goto", "path") {
                Err(()) => {
                    return Err(None);
                },
                Ok(None) => {
                    return Err(Some(Error::MalformedGoto(String::from_str("missing a quoted path attribute"))));
                },
                Ok(Some(bounds)) => bounds,
            };
            let path = &tag[a..b];
            assert(path@ =~= tag@.subrange(a as int, b as int));
            let mut target: Vec<char> = Vec::new();
            if path.len() > 0 && path[0] == '#' {
                extend_chars(&mut target, &path[1..path.len()]);
                assert(target@ =~= path@.drop_first());
            } else {
                let p = from_chars(path);
                let slug = slugify(p.as_str());
                extend_str(&mut target, slug.as_str());
            }
            assert(target@ == goto_target(path@));
            if !ids.holds(&target) {
                return Err(Some(Error::UnknownGotoTarget(from_chars(path))));
            }
            let label = quoted_attribute(tag, "<cb-goto", "label");
            let ghost mid = out@;
            assert(mid =~= acc + h@.subrange(p0, start as int));
            extend_str(out, "<cb-goto path=\"");
            push_escaped_chars(out, path);
            extend_str(out, "\"");
            let ghost mut lv: Option<Seq<char>> = None;
            match label {
                Err(()) => {
                    return Err(None);
                },
                Ok(Some((c, d))) => {
                    let lab = &tag[c..d];
                    assert(lab@ =~= tag@.subrange(c as int, d as int));
                    extend_str(out, " label=\"");
                    push_escaped_chars(out, lab);
                    extend_str(out, "\"");
                    proof {
                        lv = Some(lab@);
                    }
                },
                Ok(None) => {},
            }
            extend_str(out, " data-target=\"");
            push_escaped_chars(out, &target);
            extend_str(out, "\"></cb-goto>");
            assert(out@ =~= mid + goto_tag(path@, lv, target@));
            let self_closing = crate::text::ends_with_str(trim_end_chars(tag), "/>");
            proof {
                reveal_strlit("/>");
                reveal_strlit("</cb-goto>");
                assert("/>"@ =~= seq!['/', '>']);
                assert("</cb-goto>"@ =~= goto_close());
            }
            if self_closing {
                assert(expand_from(h@, ids@, p0, acc) == expand_from(h@, ids@, end + 1, out@));
                return Ok(Some(end + 1));
            } else {
                let rest = &h[end + 1..h.len()];
                assert(rest@ =~= h@.skip(end + 1));
                if !crate::text::starts_with_str(rest, "</cb-goto>") {
                    assert(expand_from(h@, ids@, p0, acc) == Expansion::Failed(Error::MalformedGoto("must be empty and closed with </cb-goto>"@)));
                    return Err(Some(Error::MalformedGoto(String::from_str("must be empty and closed with </cb-goto>"))));
                }
                assert(end + 11 <= h.len());
                assert(expand_from(h@, ids@, p0, acc) == expand_from(h@, ids@, end + 11, out@));
                return Ok(Some(end + 11));
            }
        },
    }
}

/// Replaces every empty `<cb-goto>` tag with one that carries its resolved
/// target anchor as a `data-target` attribute, validated against `ids`;
/// `None` for a tag on which the attribute scan would never end.
pub fn try_expand_goto_apps(html: &str, ids: &IdSet) -> (r: Option<Result<String, Error>>)
    ensures
        match expand_goto_spec(html@, ids@) {
            Expansion::Done(h) => r matches Some(Ok(s)) && s@ == h,
            Expansion::Failed(e) => r matches Some(Err(e2)) && e2@ == e,
            Expansion::Stuck => r is None,
        },
{
    let h = to_chars(html);
    let open = to_chars("<cb-goto");
    proof {
        reveal_strlit("<cb-goto");
        assert(open@ =~= goto_open());
    }
    if find_chars_from(&h, &open, 0).is_none() {
        return Some(Ok(html.to_owned()));
    }
    let mut out: Vec<char> = Vec::new();
    let mut pos: usize = 0;
    loop
        invariant
            pos <= h@.len(),
            h@ == html@,
            expand_goto_spec(html@, ids@) == expand_from(h@, ids@, pos as int, out@),
        decreases h@.len() - pos,
    {
        let ghost st = goto_step(h@, ids@, pos as int, out@);
        let ghost acc = out@;
        assert(expand_from(h@, ids@, pos as int, acc) == match st {
            Step::Next(p, a) => if pos < p <= h@.len() {
                expand_from(h@, ids@, p, a)
            } else {
                Expansion::Done(a)
            },
            Step::End(x) => x,
        });
        match goto_step_exec(&h, ids, pos, &mut out) {
            Ok(Some(next)) => {
                assert(st is Next);
                pos = next;
            },
            Ok(None) => {
                return Some(Ok(from_chars(&out)));
            },
            Err(Some(e)) => {
                return Some(Err(e));
            },
            Err(None) => {
                return None;
            },
        }
    }
}

/// Replaces every empty `<cb-goto>` tag with one that carries its resolved
/// target anchor as a `data-target` attribute, validated against `ids`.
/// Tags on which the attribute scan would never end are excluded.
pub fn expand_goto_apps(html: &str, ids: &IdSet) -> (r: Result<String, Error>)
    requires
        !(expand_goto_spec(html@, ids@) is Stuck),
    ensures
        match expand_goto_spec(html@, ids@) {
            Expansion::Done(h) => r matches Ok(s) && s@ == h,
            Expansion::Failed(e) => r matches Err(e2) && e2@ == e,
            Expansion::Stuck => false,
        },
{
    match try_expand_goto_apps(html, ids) {
        Some(r) => r,
        None => {
            assert(false);
            Err(Error::MalformedGoto(String::new()))
        },
    }
}

} // verus!
