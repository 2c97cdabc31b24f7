//! Slide-only rendering machinery: `{#name}` anchors, `{{name}}` references,
//! and the exercise hero card. None of this affects guide HTML directly.
use vstd::prelude::*;

use crate::directives::Segment;
use crate::error::Error;
use crate::markdown::{render_markdown, render_markdown_spec};
use crate::render::{escape, push_escaped};
use crate::solutions::{push_solution, solution_html};
use crate::text::{
    concat, ends_with, extend_chars, extend_str, find, find_chars, from_chars, is_ascii_alnum,
    lines, lines_of, starts_with, starts_with_chars, starts_with_str, to_chars, trim, trim_chars,
    trim_start, trim_start_chars,
};

verus! {

/// An anchored block: plain Markdown, or an exercise (a heading-opened
/// subsection whose `::: solucion` block immediately follows it).
#[derive(Debug, Clone, PartialEq, Eq)]
pub enum Anchor<T = String> {
    Block(T),
    Exercise { md: T, solution_md: T },
}

impl View for Anchor {
    type V = Anchor<Seq<char>>;

    open spec fn view(&self) -> Anchor<Seq<char>> {
        match self {
            Anchor::Block(b) => Anchor::Block(b@),
            Anchor::Exercise { md, solution_md } => Anchor::Exercise {
                md: md@,
                solution_md: solution_md@,
            },
        }
    }
}

/// Anchors of one section body, in the order they were defined.
pub type AnchorList = Seq<(Seq<char>, Anchor<Seq<char>>)>;

/// The anchors of a section body, by name.
pub struct Anchors {
    entries: Vec<(String, Anchor)>,
}

impl View for Anchors {
    type V = AnchorList;

    closed spec fn view(&self) -> AnchorList {
        self.entries@.map_values(|e: (String, Anchor)| (e.0@, e.1@))
    }
}

/// The first index at or after `i` of an anchor named `name`, or the length.
pub open spec fn anchor_find(a: AnchorList, name: Seq<char>, i: int) -> int
    decreases a.len() - i,
{
    if i < 0 || i >= a.len() {
        a.len() as int
    } else if a[i].0 == name {
        i
    } else {
        anchor_find(a, name, i + 1)
    }
}

pub open spec fn anchor_get(a: AnchorList, name: Seq<char>) -> Option<Anchor<Seq<char>>> {
    let k = anchor_find(a, name, 0);
    if 0 <= k < a.len() {
        Some(a[k].1)
    } else {
        None
    }
}

proof fn lemma_anchor_find(a: AnchorList, name: Seq<char>, i: int)
    requires
        0 <= i <= a.len(),
    ensures
        i <= anchor_find(a, name, i) <= a.len(),
        anchor_find(a, name, i) < a.len() ==> a[anchor_find(a, name, i)].0 == name,
        forall|j: int| i <= j < anchor_find(a, name, i) ==> (#[trigger] a[j]).0 != name,
    decreases a.len() - i,
{
    if i < a.len() && a[i].0 != name {
        lemma_anchor_find(a, name, i + 1);
    }
}

impl Anchors {
    pub fn new() -> (r: Self)
        ensures
            r@ == Seq::<(Seq<char>, Anchor<Seq<char>>)>::empty(),
    {
        let r = Anchors { entries: Vec::new() };
        assert(r@ =~= Seq::<(Seq<char>, Anchor<Seq<char>>)>::empty());
        r
    }

    /// The index of the anchor named `name`, or the number of anchors.
    fn position(&self, name: &[char]) -> (r: usize)
        ensures
            r == anchor_find(self@, name@, 0),
    {
        proof {
            lemma_anchor_find(self@, name@, 0);
        }
        let mut i: usize = 0;
        while i < self.entries.len()
            invariant
                i <= self.entries@.len(),
                anchor_find(self@, name@, 0) == anchor_find(self@, name@, i as int),
            decreases self.entries@.len() - i,
        {
            assert(self@[i as int] == (self.entries@[i as int].0@, self.entries@[i as int].1@));
            if crate::text::eq_str(name, self.entries[i].0.as_str()) {
                return i;
            }
            i = i + 1;
        }
        i
    }

    /// The anchor named `name`.
    pub fn get(&self, name: &[char]) -> (r: Option<&Anchor>)
        ensures
            match r {
                Some(a) => anchor_get(self@, name@) == Some(a@),
                None => anchor_get(self@, name@) is None,
            },
    {
        let k = self.position(name);
        if k < self.entries.len() {
            assert(self@[k as int] == (self.entries@[k as int].0@, self.entries@[k as int].1@));
            Some(&self.entries[k].1)
        } else {
            None
        }
    }

    fn push(&mut self, name: String, anchor: Anchor)
        ensures
            final(self)@ == old(self)@.push((name@, anchor@)),
    {
        self.entries.push((name, anchor));
        assert(self@ =~= old(self)@.push((name@, anchor@)));
    }

    /// Turns the block anchored as `name` into an exercise carrying
    /// `solution_md`; an anchor that is already an exercise is dropped.
    fn attach_solution(&mut self, name: &[char], solution_md: &String)
        ensures
            final(self)@ == attach_spec(old(self)@, name@, solution_md@),
    {
        let k = self.position(name);
        if k < self.entries.len() {
            let ghost before = self@;
            assert(before[k as int] == (self.entries@[k as int].0@, self.entries@[k as int].1@));
            let (n, a) = self.entries.remove(k);
            match a {
                Anchor::Block(md) => {
                    self.entries.insert(k, (n, Anchor::Exercise { md, solution_md: solution_md.clone() }));
                    assert(self@ =~= before.update(
                        k as int,
                        (before[k as int].0, Anchor::Exercise {
                            md: before[k as int].1->Block_0,
                            solution_md: solution_md@,
                        }),
                    ));
                },
                Anchor::Exercise { .. } => {
                    assert(self@ =~= before.remove(k as int));
                },
            }
        }
    }
}

/// `attach_solution` on the anchor list.
pub open spec fn attach_spec(a: AnchorList, name: Seq<char>, solution_md: Seq<char>) -> AnchorList {
    let k = anchor_find(a, name, 0);
    if 0 <= k < a.len() {
        match a[k].1 {
            Anchor::Block(md) => a.update(k, (a[k].0, Anchor::Exercise { md, solution_md })),
            Anchor::Exercise { .. } => a.remove(k),
        }
    } else {
        a
    }
}

// ---------------------------------------------------------------------------
// Anchor markers and anchored blocks
// ---------------------------------------------------------------------------

/// Anchor names: nonempty, ASCII letters, digits, `-` and `_`.
pub open spec fn valid_anchor_name(name: Seq<char>) -> bool {
    name.len() > 0 && forall|i: int| 0 <= i < name.len() ==> (is_ascii_alnum(
        #[trigger] name[i],
    ) || name[i] == '-' || name[i] == '_')
}

fn is_valid_anchor_name(name: &[char]) -> (r: bool)
    ensures
        r == valid_anchor_name(name@),
{
    if name.len() == 0 {
        return false;
    }
    let mut i: usize = 0;
    while i < name.len()
        invariant
            i <= name@.len(),
            forall|j: int| 0 <= j < i ==> (is_ascii_alnum(#[trigger] name@[j]) || name@[j] == '-'
                || name@[j] == '_'),
        decreases name@.len() - i,
    {
        let c = name[i];
        if !(crate::text::is_alnum(c) || c == '-' || c == '_') {
            return false;
        }
        i = i + 1;
    }
    true
}

/// The name a `{#name}` marker line declares.
pub open spec fn anchor_marker(line: Seq<char>) -> Option<Seq<char>> {
    let t = trim(line);
    if starts_with(t, seq!['{', '#']) && t.len() >= 3 && t.last() == '}' && valid_anchor_name(
        t.subrange(2, t.len() - 1),
    ) {
        Some(t.subrange(2, t.len() - 1))
    } else {
        None
    }
}

fn parse_anchor_marker(line: &[char]) -> (r: Option<Vec<char>>)
    ensures
        match r {
            Some(n) => anchor_marker(line@) == Some(n@),
            None => anchor_marker(line@) is None,
        },
{
    let t = trim_chars(line);
    if t.len() >= 3 && t[0] == '{' && t[1] == '#' && t[t.len() - 1] == '}' {
        let name = &t[2..t.len() - 1];
        assert(name@ =~= t@.subrange(2, t@.len() - 1));
        assert(t@.subrange(0, 2) =~= seq!['{', '#']);
        if is_valid_anchor_name(name) {
            let mut v: Vec<char> = Vec::new();
            extend_chars(&mut v, name);
            return Some(v);
        }
    } else {
        proof {
            if starts_with(t@, seq!['{', '#']) {
                assert(t@.subrange(0, 2)[0] == t@[0]);
                assert(t@.subrange(0, 2)[1] == t@[1]);
            }
        }
    }
    None
}

pub open spec fn is_fence_line(l: Seq<char>) -> bool {
    starts_with(trim_start(l), "```"@)
}

pub open spec fn is_heading_line(l: Seq<char>) -> bool {
    l.len() > 0 && l[0] == '#'
}

pub open spec fn is_blank(l: Seq<char>) -> bool {
    trim(l).len() == 0
}

pub open spec fn is_rule(l: Seq<char>) -> bool {
    trim(l) == "---"@
}

/// The first line at or after `j` that closes a code fence.
pub open spec fn fence_close(ls: Seq<Seq<char>>, j: int) -> int
    decreases ls.len() - j,
{
    if j < 0 || j >= ls.len() || is_fence_line(ls[j]) {
        j
    } else {
        fence_close(ls, j + 1)
    }
}

/// The first line at or after `j` that starts another heading or is a `---`
/// rule.
pub open spec fn section_end(ls: Seq<Seq<char>>, j: int) -> int
    decreases ls.len() - j,
{
    if j < 0 || j >= ls.len() || is_heading_line(ls[j]) || is_rule(ls[j]) {
        j
    } else {
        section_end(ls, j + 1)
    }
}

/// The first blank line at or after `j`.
pub open spec fn para_end(ls: Seq<Seq<char>>, j: int) -> int
    decreases ls.len() - j,
{
    if j < 0 || j >= ls.len() || is_blank(ls[j]) {
        j
    } else {
        para_end(ls, j + 1)
    }
}

/// End (exclusive) of the block starting at `start`: a whole code fence, a
/// whole subsection when the block opens with a heading (until the next
/// heading, a `---` rule, or the end), or otherwise the run of lines up to the
/// next blank line.
pub open spec fn block_end(ls: Seq<Seq<char>>, start: int) -> int {
    if 0 <= start < ls.len() && is_fence_line(ls[start]) {
        let e = fence_close(ls, start + 1);
        if e + 1 < ls.len() {
            e + 1
        } else {
            ls.len() as int
        }
    } else if 0 <= start < ls.len() && is_heading_line(ls[start]) {
        section_end(ls, start + 1)
    } else {
        para_end(ls, start)
    }
}

proof fn lemma_ends(ls: Seq<Seq<char>>, j: int)
    requires
        0 <= j <= ls.len(),
    ensures
        j <= fence_close(ls, j) <= ls.len(),
        j <= section_end(ls, j) <= ls.len(),
        j <= para_end(ls, j) <= ls.len(),
    decreases ls.len() - j,
{
    if j < ls.len() {
        lemma_ends(ls, j + 1);
    }
}

pub open spec fn lines_view(v: Seq<Vec<char>>) -> Seq<Seq<char>> {
    v.map_values(|l: Vec<char>| l@)
}

fn fence_line(l: &Vec<char>) -> (r: bool)
    ensures
        r == is_fence_line(l@),
{
    proof {
        reveal_strlit("```");
    }
    starts_with_str(trim_start_chars(l), "```")
}

fn blank_line(l: &Vec<char>) -> (r: bool)
    ensures
        r == is_blank(l@),
{
    trim_chars(l).len() == 0
}

fn rule_line(l: &Vec<char>) -> (r: bool)
    ensures
        r == is_rule(l@),
{
    crate::text::eq_str(trim_chars(l), "---")
}

fn anchored_block_end(ls: &Vec<Vec<char>>, start: usize) -> (r: usize)
    requires
        start <= ls@.len(),
    ensures
        r == block_end(lines_view(ls@), start as int),
        start <= r <= ls@.len(),
{
    let ghost lv = lines_view(ls@);
    proof {
        lemma_ends(lv, start as int);
        if start < ls@.len() {
            lemma_ends(lv, start + 1);
            assert(lv[start as int] == ls@[start as int]@);
        }
    }
    if start < ls.len() && fence_line(&ls[start]) {
        let mut end = start + 1;
        while end < ls.len() && !fence_line(&ls[end])
            invariant
                start < end <= ls@.len(),
                lv == lines_view(ls@),
                fence_close(lv, end as int) == fence_close(lv, start + 1),
            decreases ls@.len() - end,
        {
            assert(lv[end as int] == ls@[end as int]@);
            end = end + 1;
        }
        proof {
            if end < ls@.len() {
                assert(lv[end as int] == ls@[end as int]@);
            }
        }
        if end < ls.len() && ls.len() - end > 1 {
            end + 1
        } else {
            ls.len()
        }
    } else if start < ls.len() && ls[start].len() > 0 && ls[start][0] == '#' {
        let mut end = start + 1;
        while end < ls.len() && !(ls[end].len() > 0 && ls[end][0] == '#') && !rule_line(&ls[end])
            invariant
                start < end <= ls@.len(),
                lv == lines_view(ls@),
                section_end(lv, end as int) == section_end(lv, start + 1),
            decreases ls@.len() - end,
        {
            assert(lv[end as int] == ls@[end as int]@);
            end = end + 1;
        }
        proof {
            if end < ls@.len() {
                assert(lv[end as int] == ls@[end as int]@);
            }
        }
        end
    } else {
        let mut end = start;
        while end < ls.len() && !blank_line(&ls[end])
            invariant
                start <= end <= ls@.len(),
                lv == lines_view(ls@),
                para_end(lv, end as int) == para_end(lv, start as int),
            decreases ls@.len() - end,
        {
            assert(lv[end as int] == ls@[end as int]@);
            end = end + 1;
        }
        proof {
            if end < ls@.len() {
                assert(lv[end as int] == ls@[end as int]@);
            }
        }
        end
    }
}

/// Each line followed by a newline.
pub open spec fn join_lines(ls: Seq<Seq<char>>) -> Seq<char>
    decreases ls.len(),
{
    if ls.len() == 0 {
        seq![]
    } else {
        join_lines(ls.drop_last()) + ls.last() + seq!['\n']
    }
}

/// Every line from `j` on is blank.
pub open spec fn all_blank_from(ls: Seq<Seq<char>>, j: int) -> bool {
    forall|k: int| j <= k < ls.len() ==> is_blank(#[trigger] ls[k])
}

// ---------------------------------------------------------------------------
// Stripping markers from one Markdown segment
// ---------------------------------------------------------------------------

/// Where marker stripping stands: the text kept so far, the anchors, and the
/// last heading-opened anchor whose block ran to the end of the segment.
pub ghost struct StripState {
    pub out: Seq<char>,
    pub anchors: AnchorList,
    pub tail: Option<Seq<char>>,
}

/// Marker stripping from line `i` on.
pub open spec fn strip_from(ls: Seq<Seq<char>>, i: int, st: StripState) -> Result<
    StripState,
    Error<Seq<char>>,
>
    decreases ls.len() - i,
{
    if i < 0 || i >= ls.len() {
        Ok(st)
    } else {
        let m = anchor_marker(ls[i]);
        if m is None {
            strip_from(ls, i + 1, StripState { out: st.out + ls[i] + seq!['\n'], ..st })
        } else {
            let name = m.unwrap();
            let start = i + 1;
            let end = block_end(ls, start);
            if end <= start || end > ls.len() {
                Err(Error::EmptyAnchor(name))
            } else if anchor_get(st.anchors, name) is Some {
                Err(Error::DuplicateAnchor(name))
            } else {
                let block = join_lines(ls.subrange(start, end));
                let tail = if is_heading_line(ls[start]) && all_blank_from(ls, end) {
                    Some(name)
                } else {
                    None
                };
                strip_from(
                    ls,
                    end,
                    StripState {
                        out: st.out + block,
                        anchors: st.anchors.push((name, Anchor::Block(block))),
                        tail,
                    },
                )
            }
        }
    }
}

/// `md` without its anchor marker lines, the anchors it adds, and the tail
/// anchor candidate for exercise pairing.
pub open spec fn strip_anchors_spec(md: Seq<char>, anchors: AnchorList) -> Result<
    StripState,
    Error<Seq<char>>,
> {
    strip_from(lines(md), 0, StripState { out: seq![], anchors, tail: None })
}

pub open spec fn opt_view(o: Option<Vec<char>>) -> Option<Seq<char>> {
    match o {
        Some(v) => Some(v@),
        None => None,
    }
}

fn all_blank(ls: &Vec<Vec<char>>, from: usize) -> (r: bool)
    requires
        from <= ls@.len(),
    ensures
        r == all_blank_from(lines_view(ls@), from as int),
{
    let ghost lv = lines_view(ls@);
    let mut k = from;
    while k < ls.len()
        invariant
            from <= k <= ls@.len(),
            lv == lines_view(ls@),
            forall|j: int| from <= j < k ==> is_blank(#[trigger] lv[j]),
        decreases ls@.len() - k,
    {
        assert(lv[k as int] == ls@[k as int]@);
        if !blank_line(&ls[k]) {
            return false;
        }
        k = k + 1;
    }
    true
}

fn push_lines(out: &mut Vec<char>, ls: &Vec<Vec<char>>, start: usize, end: usize)
    requires
        start <= end <= ls@.len(),
    ensures
        final(out)@ == old(out)@ + join_lines(lines_view(ls@).subrange(start as int, end as int)),
{
    let ghost lv = lines_view(ls@);
    let ghost out0 = out@;
    let mut k = start;
    assert(lv.subrange(start as int, start as int) =~= seq![]);
    while k < end
        invariant
            start <= k <= end <= ls@.len(),
            lv == lines_view(ls@),
            out@ == out0 + join_lines(lv.subrange(start as int, k as int)),
        decreases end - k,
    {
        assert(lv.subrange(start as int, k + 1).drop_last() =~= lv.subrange(start as int, k as int));
        assert(lv[k as int] == ls@[k as int]@);
        extend_chars(out, &ls[k]);
        out.push('\n');
        assert(out@ =~= out0 + join_lines(lv.subrange(start as int, k + 1)));
        k = k + 1;
    }
}

/// Strips anchor markers from one Markdown segment, recording each anchored
/// block in `anchors`. Also returns the name of a heading-opened anchor whose
/// block ran to the end of the segment, if any: the candidate for
/// exercise-solution pairing.
fn strip_anchors(md: &str, anchors: &mut Anchors) -> (r: Result<(String, Option<Vec<char>>), Error>)
    ensures
        match strip_anchors_spec(md@, old(anchors)@) {
            Ok(st) => r matches Ok((out, tail)) && out@ == st.out && opt_view(tail) == st.tail
                && final(anchors)@ == st.anchors,
            Err(e) => r matches Err(e2) && e2@ == e,
        },
{
    let chars = to_chars(md);
    let ls = lines_of(&chars);
    let ghost lv = lines_view(ls@);
    assert(lv =~= lines(md@));
    let mut out: Vec<char> = Vec::new();
    let mut tail: Option<Vec<char>> = None;
    let mut i: usize = 0;
    while i < ls.len()
        invariant
            i <= ls@.len(),
            lv == lines_view(ls@),
            strip_anchors_spec(md@, old(anchors)@) == strip_from(
                lv,
                i as int,
                StripState { out: out@, anchors: anchors@, tail: opt_view(tail) },
            ),
        decreases ls@.len() - i,
    {
        assert(lv[i as int] == ls@[i as int]@);
        let ghost st = StripState { out: out@, anchors: anchors@, tail: opt_view(tail) };
        match parse_anchor_marker(&ls[i]) {
            None => {
                extend_chars(&mut out, &ls[i]);
                out.push('\n');
                assert(out@ =~= st.out + lv[i as int] + seq!['\n']);
                assert(anchor_marker(lv[i as int]) is None);
                assert(strip_from(lv, i as int, st) == strip_from(
                    lv,
                    i + 1,
                    StripState { out: out@, anchors: anchors@, tail: opt_view(tail) },
                ));
                i = i + 1;
            },
            Some(name) => {
                let start = i + 1;
                let end = anchored_block_end(&ls, start);
                if end == start {
                    return Err(Error::EmptyAnchor(from_chars(&name)));
                }
                if anchors.get(&name).is_some() {
                    return Err(Error::DuplicateAnchor(from_chars(&name)));
                }
                let mut block: Vec<char> = Vec::new();
                push_lines(&mut block, &ls, start, end);
                assert(block@ =~= join_lines(lv.subrange(start as int, end as int)));
                let is_heading = ls[start].len() > 0 && ls[start][0] == '#';
                assert(lv[start as int] == ls@[start as int]@);
                let trailing = all_blank(&ls, end);
                extend_chars(&mut out, &block);
                let ghost nv = name@;
                anchors.push(from_chars(&name), Anchor::Block(from_chars(&block)));
                if is_heading && trailing {
                    tail = Some(name);
                } else {
                    tail = None;
                }
                assert(opt_view(tail) == (if is_heading_line(lv[start as int]) && all_blank_from(lv, end as int) {
                    Some(nv)
                } else {
                    None
                }));
                assert(out@ == st.out + join_lines(lv.subrange(start as int, end as int)));
                assert(strip_from(lv, i as int, st) == strip_from(
                    lv,
                    end as int,
                    StripState { out: out@, anchors: anchors@, tail: opt_view(tail) },
                ));
                i = end;
            },
        }
    }
    Ok((from_chars(&out), tail))
}

// ---------------------------------------------------------------------------
// Collecting anchors over a body's segments
// ---------------------------------------------------------------------------

/// Where anchor collection stands between two segments.
pub ghost struct ExtractState {
    pub out: Seq<Segment<Seq<char>>>,
    pub anchors: AnchorList,
    pub tail: Option<Seq<char>>,
}

pub open spec fn extract_step(st: ExtractState, seg: Segment<Seq<char>>) -> Result<
    ExtractState,
    Error<Seq<char>>,
> {
    match seg {
        Segment::Markdown(md) => match strip_anchors_spec(md, st.anchors) {
            Err(e) => Err(e),
            Ok(s2) => Ok(
                ExtractState {
                    out: st.out.push(Segment::Markdown(s2.out)),
                    anchors: s2.anchors,
                    tail: s2.tail,
                },
            ),
        },
        Segment::Solution(sol) => Ok(
            ExtractState {
                out: st.out.push(seg),
                anchors: match st.tail {
                    Some(name) => attach_spec(st.anchors, name, sol),
                    None => st.anchors,
                },
                tail: None,
            },
        ),
        _ => Ok(ExtractState { out: st.out.push(seg), anchors: st.anchors, tail: None }),
    }
}

pub open spec fn extract_fold(segs: Seq<Segment<Seq<char>>>) -> Result<ExtractState, Error<Seq<char>>>
    decreases segs.len(),
{
    if segs.len() == 0 {
        Ok(ExtractState { out: seq![], anchors: seq![], tail: None })
    } else {
        match extract_fold(segs.drop_last()) {
            Err(e) => Err(e),
            Ok(st) => extract_step(st, segs.last()),
        }
    }
}

proof fn lemma_extract_err(segs: Seq<Segment<Seq<char>>>, i: int)
    requires
        0 <= i <= segs.len(),
        extract_fold(segs.take(i)) is Err,
    ensures
        extract_fold(segs) == extract_fold(segs.take(i)),
    decreases segs.len() - i,
{
    if i < segs.len() {
        assert(segs.take(i + 1).drop_last() =~= segs.take(i));
        lemma_extract_err(segs, i + 1);
    } else {
        assert(segs.take(i) =~= segs);
    }
}

/// The segments with their anchor markers stripped, and the anchors.
pub open spec fn extract_anchors_spec(segs: Seq<Segment<Seq<char>>>) -> Result<
    (Seq<Segment<Seq<char>>>, AnchorList),
    Error<Seq<char>>,
> {
    match extract_fold(segs) {
        Err(e) => Err(e),
        Ok(st) => Ok((st.out, st.anchors)),
    }
}

/// Collects `{#name}` anchors from Markdown segments, stripping the marker
/// lines while leaving the anchored blocks in place. A heading-opened anchor
/// that runs to the end of its segment and is immediately followed by a
/// `::: solucion` segment becomes an [`Anchor::Exercise`] carrying that
/// solution.
pub fn extract_anchors(segments: Vec<Segment>) -> (r: Result<(Vec<Segment>, Anchors), Error>)
    ensures
        match extract_anchors_spec(crate::directives::segments_view(segments@)) {
            Ok((out, a)) => r matches Ok((o, an)) && crate::directives::segments_view(o@) == out
                && an@ == a,
            Err(e) => r matches Err(e2) && e2@ == e,
        },
{
    let ghost sv = crate::directives::segments_view(segments@);
    let mut anchors = Anchors::new();
    let mut out: Vec<Segment> = Vec::new();
    let mut tail: Option<Vec<char>> = None;
    let mut segs = segments;
    let n = segs.len();
    let mut i: usize = 0;
    assert(sv.take(0) =~= seq![]);
    assert(crate::directives::segments_view(out@) =~= seq![]);
    while i < n
        invariant
            sv == crate::directives::segments_view(segments@),
            n == sv.len(),
            i <= n,
            segs@.len() == n - i,
            forall|k: int| 0 <= k < n - i ==> (#[trigger] segs@[k])@ == sv[i + k],
            extract_fold(sv.take(i as int)) == Ok::<ExtractState, Error<Seq<char>>>(
                ExtractState {
                    out: crate::directives::segments_view(out@),
                    anchors: anchors@,
                    tail: opt_view(tail),
                },
            ),
        decreases n - i,
    {
        assert(sv.take(i + 1).drop_last() =~= sv.take(i as int));
        let seg = segs.remove(0);
        assert(seg@ == sv[i as int]);
        let ghost prev = crate::directives::segments_view(out@);
        let ghost old_anchors = anchors@;
        let ghost old_tail = opt_view(tail);
        match seg {
            Segment::Markdown(md) => {
                match strip_anchors(md.as_str(), &mut anchors) {
                    Ok((stripped, t)) => {
                        tail = t;
                        out.push(Segment::Markdown(stripped));
                    },
                    Err(e) => {
                        proof {
                            assert(extract_fold(sv.take(i + 1)) == extract_step(
                                ExtractState { out: prev, anchors: old_anchors, tail: old_tail },
                                sv[i as int],
                            ));
                            assert(extract_fold(sv.take(i + 1)) == Err::<ExtractState, Error<Seq<char>>>(e@));
                            lemma_extract_err(sv, i + 1);
                            assert(extract_anchors_spec(sv) == Err::<(Seq<Segment<Seq<char>>>, AnchorList), Error<Seq<char>>>(e@));
                        }
                        return Err(e);
                    },
                }
            },
            Segment::Solution(sol) => {
                match tail {
                    Some(name) => anchors.attach_solution(&name, &sol),
                    None => {},
                }
                tail = None;
                out.push(Segment::Solution(sol));
            },
            other => {
                tail = None;
                out.push(other);
            },
        }
        assert(crate::directives::segments_view(out@) =~= prev.push(
            crate::directives::segments_view(out@).last(),
        ));
        i = i + 1;
    }
    assert(sv.take(n as int) =~= sv);
    Ok((out, anchors))
}

// ---------------------------------------------------------------------------
// Exercise hero card
// ---------------------------------------------------------------------------

/// The index of the first heading line at or after `i`, or the length.
pub open spec fn first_heading(ls: Seq<Seq<char>>, i: int) -> int
    decreases ls.len() - i,
{
    if i < 0 || i >= ls.len() || is_heading_line(ls[i]) {
        i
    } else {
        first_heading(ls, i + 1)
    }
}

/// `s` without its leading `#` characters.
pub open spec fn drop_hashes(s: Seq<char>) -> Seq<char>
    decreases s.len(),
{
    if s.len() > 0 && s[0] == '#' {
        drop_hashes(s.drop_first())
    } else {
        s
    }
}

/// The lines joined with a newline between each two.
pub open spec fn join_newline(ls: Seq<Seq<char>>) -> Seq<char>
    decreases ls.len(),
{
    if ls.len() == 0 {
        seq![]
    } else if ls.len() == 1 {
        ls[0]
    } else {
        join_newline(ls.drop_last()) + seq!['\n'] + ls.last()
    }
}

/// The separator between an exercise's kicker and its title.
pub open spec fn kicker_sep() -> Seq<char> {
    seq![' ', '—', ' ']
}

/// An exercise hero card: a kicker (the part of the heading before " — "),
/// the title, the statement, and the standard solution toggle.
pub open spec fn exercise_html(md: Seq<char>, solution_md: Seq<char>) -> Seq<char> {
    let ls = lines(md);
    let h = first_heading(ls, 0);
    let heading = if 0 <= h < ls.len() {
        trim(drop_hashes(ls[h]))
    } else {
        seq![]
    };
    let statement = if 0 <= h < ls.len() {
        join_newline(ls.subrange(h + 1, ls.len() as int))
    } else {
        md
    };
    let kicker = kicker_of(heading);
    let title = title_of(heading);
    let kicker_html = if kicker.len() == 0 {
        seq![]
    } else {
        "<p class=\"cb-ejercicio-kicker\">"@ + escape(kicker) + "</p>\n"@
    };
    "<div class=\"cb-ejercicio\">\n"@ + kicker_html + "<h3>"@ + escape(title)
        + "</h3>\n<div class=\"cb-ejercicio-cuerpo\">\n"@ + render_markdown_spec(statement)
        + "</div>\n"@ + solution_html(render_markdown_spec(solution_md)) + "</div>\n"@
}

proof fn lemma_first_heading(ls: Seq<Seq<char>>, i: int)
    requires
        0 <= i <= ls.len(),
    ensures
        i <= first_heading(ls, i) <= ls.len(),
    decreases ls.len() - i,
{
    if i < ls.len() && !is_heading_line(ls[i]) {
        lemma_first_heading(ls, i + 1);
    }
}

fn strip_hashes(s: &[char]) -> (r: &[char])
    ensures
        r@ == drop_hashes(s@),
{
    let mut i: usize = 0;
    assert(s@.subrange(0, s@.len() as int) =~= s@);
    while i < s.len() && s[i] == '#'
        invariant
            i <= s@.len(),
            drop_hashes(s@.subrange(i as int, s@.len() as int)) == drop_hashes(s@),
        decreases s@.len() - i,
    {
        assert(s@.subrange(i as int, s@.len() as int).drop_first() =~= s@.subrange(
            i + 1,
            s@.len() as int,
        ));
        i = i + 1;
    }
    assert(s@.subrange(0, s@.len() as int) =~= s@);
    &s[i..s.len()]
}

fn join_with_newline(ls: &Vec<Vec<char>>, from: usize) -> (r: Vec<char>)
    requires
        from <= ls@.len(),
    ensures
        r@ == join_newline(lines_view(ls@).subrange(from as int, ls@.len() as int)),
{
    let ghost lv = lines_view(ls@);
    let mut out: Vec<char> = Vec::new();
    let mut k = from;
    assert(lv.subrange(from as int, from as int) =~= seq![]);
    while k < ls.len()
        invariant
            from <= k <= ls@.len(),
            lv == lines_view(ls@),
            out@ == join_newline(lv.subrange(from as int, k as int)),
        decreases ls@.len() - k,
    {
        assert(lv.subrange(from as int, k + 1).drop_last() =~= lv.subrange(from as int, k as int));
        assert(lv[k as int] == ls@[k as int]@);
        if k > from {
            out.push('\n');
        }
        extend_chars(&mut out, &ls[k]);
        proof {
            if k == from {
                assert(lv.subrange(from as int, k + 1) =~= seq![lv[k as int]]);
            }
        }
        k = k + 1;
    }
    out
}

/// The kicker and title of an exercise heading, split at the first " — ".
pub open spec fn kicker_of(heading: Seq<char>) -> Seq<char> {
    let k = find(heading, kicker_sep());
    if k is Some {
        heading.subrange(0, k.unwrap())
    } else {
        seq![]
    }
}

pub open spec fn title_of(heading: Seq<char>) -> Seq<char> {
    let k = find(heading, kicker_sep());
    if k is Some {
        heading.subrange(k.unwrap() + 3, heading.len() as int)
    } else {
        heading
    }
}

fn split_kicker(heading: &Vec<char>) -> (r: (Vec<char>, Vec<char>))
    ensures
        r.0@ == kicker_of(heading@),
        r.1@ == title_of(heading@),
{
    let sep = to_chars(" — ");
    proof {
        reveal_strlit(" — ");
        assert(sep@ =~= kicker_sep());
    }
    let mut kicker: Vec<char> = Vec::new();
    let mut title: Vec<char> = Vec::new();
    match find_chars(heading, &sep) {
        Some(k) => {
            assert(k + 3 <= heading.len());
            let after: usize = k + 3;
            extend_chars(&mut kicker, &heading[0..k]);
            extend_chars(&mut title, &heading[after..heading.len()]);
            assert(kicker@ =~= heading@.subrange(0, k as int));
            assert(title@ =~= heading@.subrange(k + 3, heading@.len() as int));
        },
        None => {
            extend_chars(&mut title, heading);
        },
    }
    (kicker, title)
}

/// Renders an exercise hero card for a slide.
pub fn render_exercise(md: &str, solution_md: &str) -> (r: String)
    ensures
        r@ == exercise_html(md@, solution_md@),
{
    let chars = to_chars(md);
    let ls = lines_of(&chars);
    let ghost lv = lines_view(ls@);
    assert(lv =~= lines(md@));
    proof {
        lemma_first_heading(lv, 0);
    }
    let mut h: usize = 0;
    while h < ls.len() && !(ls[h].len() > 0 && ls[h][0] == '#')
        invariant
            h <= ls@.len(),
            lv == lines_view(ls@),
            first_heading(lv, h as int) == first_heading(lv, 0),
        decreases ls@.len() - h,
    {
        assert(lv[h as int] == ls@[h as int]@);
        h = h + 1;
    }
    proof {
        if h < ls@.len() {
            assert(lv[h as int] == ls@[h as int]@);
        }
    }
    let mut heading: Vec<char> = Vec::new();
    let statement: Vec<char>;
    if h < ls.len() {
        extend_chars(&mut heading, trim_chars(strip_hashes(&ls[h])));
        statement = join_with_newline(&ls, h + 1);
    } else {
        statement = chars;
    }
    let (kicker, title) = split_kicker(&heading);
    let mut out: Vec<char> = Vec::new();
    extend_str(&mut out, "<div class=\"cb-ejercicio\">\n");
    if kicker.len() > 0 {
        extend_str(&mut out, "<p class=\"cb-ejercicio-kicker\">");
        crate::render::push_escaped_chars(&mut out, &kicker);
        extend_str(&mut out, "</p>\n");
    }
    extend_str(&mut out, "<h3>");
    crate::render::push_escaped_chars(&mut out, &title);
    extend_str(&mut out, "</h3>\n<div class=\"cb-ejercicio-cuerpo\">\n");
    let statement_s = from_chars(&statement);
    let statement_html = render_markdown(statement_s.as_str());
    extend_str(&mut out, statement_html.as_str());
    extend_str(&mut out, "</div>\n");
    let solution_inner = render_markdown(solution_md);
    let inner = to_chars(solution_inner.as_str());
    push_solution(&mut out, &inner);
    extend_str(&mut out, "</div>\n");
    assert(out@ =~= exercise_html(md@, solution_md@));
    from_chars(&out)
}

// ---------------------------------------------------------------------------
// Slide Markdown with `{{name}}` references
// ---------------------------------------------------------------------------

/// The anchor a `{{name}}` reference line names.
pub open spec fn slide_ref(line: Seq<char>) -> Option<Seq<char>> {
    let t = trim(line);
    if t.len() >= 4 && starts_with(t, seq!['{', '{']) && ends_with(t, seq!['}', '}'])
        && valid_anchor_name(trim(t.subrange(2, t.len() - 2))) {
        Some(trim(t.subrange(2, t.len() - 2)))
    } else {
        None
    }
}

fn parse_slide_ref(line: &[char]) -> (r: Option<&[char]>)
    ensures
        match r {
            Some(n) => slide_ref(line@) == Some(n@),
            None => slide_ref(line@) is None,
        },
{
    let t = trim_chars(line);
    let n = t.len();
    if n >= 4 && t[0] == '{' && t[1] == '{' && t[n - 2] == '}' && t[n - 1] == '}' {
        assert(t@.subrange(0, 2) =~= seq!['{', '{']);
        assert(t@.subrange(n - 2, n as int) =~= seq!['}', '}']);
        let inner = &t[2..n - 2];
        assert(inner@ =~= t@.subrange(2, n - 2));
        let name = trim_chars(inner);
        if is_valid_anchor_name(name) {
            return Some(name);
        }
    } else {
        proof {
            if n >= 4 && starts_with(t@, seq!['{', '{']) && ends_with(t@, seq!['}', '}']) {
                assert(t@.subrange(0, 2)[0] == t@[0]);
                assert(t@.subrange(0, 2)[1] == t@[1]);
                assert(t@.subrange(n - 2, n as int)[0] == t@[n - 2]);
                assert(t@.subrange(n - 2, n as int)[1] == t@[n - 1]);
            }
        }
    }
    None
}

/// Where slide rendering stands: the HTML so far and the pending Markdown.
pub ghost struct SlideState {
    pub html: Seq<char>,
    pub buf: Seq<char>,
}

/// `html` followed by the rendered pending Markdown, if there is any.
pub open spec fn flush_md(html: Seq<char>, buf: Seq<char>) -> Seq<char> {
    if buf.len() > 0 {
        html + render_markdown_spec(buf)
    } else {
        html
    }
}

pub open spec fn slide_line(st: SlideState, line: Seq<char>, anchors: AnchorList) -> Result<
    SlideState,
    Error<Seq<char>>,
> {
    match slide_ref(line) {
        None => Ok(SlideState { html: st.html, buf: st.buf + line + seq!['\n'] }),
        Some(name) => match anchor_get(anchors, name) {
            None => Err(Error::UnknownSlideRef(name)),
            Some(Anchor::Block(b)) => Ok(SlideState { html: st.html, buf: st.buf + b }),
            Some(Anchor::Exercise { md, solution_md }) => Ok(
                SlideState {
                    html: flush_md(st.html, st.buf) + exercise_html(md, solution_md),
                    buf: seq![],
                },
            ),
        },
    }
}

pub open spec fn slide_lines(ls: Seq<Seq<char>>, anchors: AnchorList) -> Result<
    SlideState,
    Error<Seq<char>>,
>
    decreases ls.len(),
{
    if ls.len() == 0 {
        Ok(SlideState { html: seq![], buf: seq![] })
    } else {
        match slide_lines(ls.drop_last(), anchors) {
            Err(e) => Err(e),
            Ok(st) => slide_line(st, ls.last(), anchors),
        }
    }
}

/// Slide Markdown rendered with its `{{name}}` reference lines expanded:
/// block anchors inline their Markdown, exercise anchors render as hero cards.
pub open spec fn render_slide_spec(md: Seq<char>, anchors: AnchorList) -> Result<
    Seq<char>,
    Error<Seq<char>>,
> {
    match slide_lines(lines(md), anchors) {
        Err(e) => Err(e),
        Ok(st) => Ok(flush_md(st.html, st.buf)),
    }
}

proof fn lemma_slide_err(ls: Seq<Seq<char>>, anchors: AnchorList, i: int)
    requires
        0 <= i <= ls.len(),
        slide_lines(ls.take(i), anchors) is Err,
    ensures
        slide_lines(ls, anchors) == slide_lines(ls.take(i), anchors),
    decreases ls.len() - i,
{
    if i < ls.len() {
        assert(ls.take(i + 1).drop_last() =~= ls.take(i));
        lemma_slide_err(ls, anchors, i + 1);
    } else {
        assert(ls.take(i) =~= ls);
    }
}

fn push_markdown(html: &mut Vec<char>, buf: &Vec<char>)
    ensures
        final(html)@ == flush_md(old(html)@, buf@),
{
    if buf.len() > 0 {
        let s = from_chars(buf);
        let r = render_markdown(s.as_str());
        extend_str(html, r.as_str());
    }
}

/// Renders slide Markdown to HTML, expanding `{{name}}` lines: block anchors
/// are inlined as Markdown; exercise anchors render as a hero card with a
/// solution toggle.
pub fn render_slide(md: &str, anchors: &Anchors) -> (r: Result<String, Error>)
    ensures
        match render_slide_spec(md@, anchors@) {
            Ok(h) => r matches Ok(s) && s@ == h,
            Err(e) => r matches Err(e2) && e2@ == e,
        },
{
    let chars = to_chars(md);
    let ls = lines_of(&chars);
    let ghost lv = lines_view(ls@);
    assert(lv =~= lines(md@));
    let mut html: Vec<char> = Vec::new();
    let mut buf: Vec<char> = Vec::new();
    let mut i: usize = 0;
    assert(lv.take(0) =~= seq![]);
    while i < ls.len()
        invariant
            i <= ls@.len(),
            lv == lines_view(ls@),
            lv == lines(md@),
            slide_lines(lv.take(i as int), anchors@) == Ok::<SlideState, Error<Seq<char>>>(
                SlideState { html: html@, buf: buf@ },
            ),
        decreases ls@.len() - i,
    {
        assert(lv.take(i + 1).drop_last() =~= lv.take(i as int));
        assert(lv[i as int] == ls@[i as int]@);
        let ghost st = SlideState { html: html@, buf: buf@ };
        assert(slide_lines(lv.take(i + 1), anchors@) == slide_line(st, lv[i as int], anchors@));
        match parse_slide_ref(&ls[i]) {
            None => {
                extend_chars(&mut buf, &ls[i]);
                buf.push('\n');
                assert(buf@ =~= st.buf + lv[i as int] + seq!['\n']);
            },
            Some(name) => {
                match anchors.get(name) {
                    None => {
                        proof {
                            lemma_slide_err(lv, anchors@, i + 1);
                        }
                        return Err(Error::UnknownSlideRef(from_chars(name)));
                    },
                    Some(Anchor::Block(block)) => {
                        extend_str(&mut buf, block.as_str());
                        assert(buf@ =~= st.buf + block@);
                    },
                    Some(Anchor::Exercise { md, solution_md }) => {
                        push_markdown(&mut html, &buf);
                        buf = Vec::new();
                        let card = render_exercise(md.as_str(), solution_md.as_str());
                        extend_str(&mut html, card.as_str());
                    },
                }
            },
        }
        assert(slide_line(st, lv[i as int], anchors@) == Ok::<SlideState, Error<Seq<char>>>(
            SlideState { html: html@, buf: buf@ },
        ));
        i = i + 1;
    }
    assert(lv.take(ls@.len() as int) =~= lv);
    push_markdown(&mut html, &buf);
    Ok(from_chars(&html))
}

} // verus!
