//! Section-body directive tokenizing: `::: solucion`, `:::slide`,
//! `:::inline-slide`, `:::title-slide`, `::: warning`, `::: info`,
//! `::: extra`, `:::app`, `:::skip`, and `:::add` fences.
use vstd::prelude::*;

use crate::error::Error;
use crate::text::{
    next_char, lines_from,
    extend_chars, from_chars, lines, lines_of, trim_end, trim_end_chars, eq_str, is_whitespace, is_ws, starts_with, starts_with_chars, to_chars, trim,
    trim_chars, trim_start, trim_start_chars,
};

verus! {

/// One top-level segment of a section body: plain Markdown, a hidden solution,
/// a slides-only block, an inline slide (rendered in both guide and slides), a
/// title-only slide, an always-visible admonition, a collapsible extra block,
/// a widget block, a guide-only skip block, or a filtered add block.
///
/// A directive's payload is captured verbatim; it may itself hold nested
/// directives, which the recursive renderers expand. `T` is the text type:
/// `String` at run time, `Seq<char>` in specifications.
#[derive(Debug, Clone, PartialEq, Eq)]
pub enum Segment<T = String> {
    Markdown(T),
    Solution(T),
    Slide { md: T, light: bool },
    InlineSlide { md: T, light: bool, with_title: bool },
    TitleSlide { text: T },
    Warning(T),
    Info(T),
    Extra { title: T, md: T },
    App(T),
    Skip(T),
    Add { md: T, visibility: Visibility },
}

/// Where an `:::add` block renders. `Both` is the default; `Slide` and `Both`
/// override an enclosing `:::skip`.
#[derive(Debug, Clone, Copy, PartialEq, Eq, Structural)]
pub enum Visibility {
    Both,
    Guide,
    Slide,
}

/// A rendered slide fragment with its display variant.
#[derive(Debug, Clone, PartialEq, Eq)]
pub struct SlideFragment {
    pub html: String,
    pub light: bool,
}

impl View for Segment {
    type V = Segment<Seq<char>>;

    open spec fn view(&self) -> Segment<Seq<char>> {
        match self {
            Segment::Markdown(m) => Segment::Markdown(m@),
            Segment::Solution(m) => Segment::Solution(m@),
            Segment::Slide { md, light } => Segment::Slide { md: md@, light: *light },
            Segment::InlineSlide { md, light, with_title } => Segment::InlineSlide {
                md: md@,
                light: *light,
                with_title: *with_title,
            },
            Segment::TitleSlide { text } => Segment::TitleSlide { text: text@ },
            Segment::Warning(m) => Segment::Warning(m@),
            Segment::Info(m) => Segment::Info(m@),
            Segment::Extra { title, md } => Segment::Extra { title: title@, md: md@ },
            Segment::App(m) => Segment::App(m@),
            Segment::Skip(m) => Segment::Skip(m@),
            Segment::Add { md, visibility } => Segment::Add { md: md@, visibility: *visibility },
        }
    }
}

/// The views of a list of segments.
pub open spec fn segments_view(v: Seq<Segment>) -> Seq<Segment<Seq<char>>> {
    v.map_values(|s: Segment| s@)
}

/// A directive opener recognized on a fence line.
pub enum Opener<T = Vec<char>> {
    Solution,
    Slide { light: bool },
    InlineSlide { light: bool, with_title: bool },
    TitleSlide { text: T },
    Warning,
    Info,
    Extra { title: T },
    App,
    Skip,
    Add { visibility: Visibility },
}

impl View for Opener {
    type V = Opener<Seq<char>>;

    open spec fn view(&self) -> Opener<Seq<char>> {
        match self {
            Opener::Solution => Opener::Solution,
            Opener::Slide { light } => Opener::Slide { light: *light },
            Opener::InlineSlide { light, with_title } => Opener::InlineSlide {
                light: *light,
                with_title: *with_title,
            },
            Opener::TitleSlide { text } => Opener::TitleSlide { text: text@ },
            Opener::Warning => Opener::Warning,
            Opener::Info => Opener::Info,
            Opener::Extra { title } => Opener::Extra { title: title@ },
            Opener::App => Opener::App,
            Opener::Skip => Opener::Skip,
            Opener::Add { visibility } => Opener::Add { visibility: *visibility },
        }
    }
}

pub open spec fn opener_view(o: Option<Opener>) -> Option<Opener<Seq<char>>> {
    match o {
        Some(op) => Some(op@),
        None => None,
    }
}

// ---------------------------------------------------------------------------
// Words: `str::split_whitespace`
// ---------------------------------------------------------------------------

/// First index at or after `i` that is not whitespace, or `s.len()`.
pub open spec fn skip_ws(s: Seq<char>, i: int) -> int
    decreases s.len() - i,
{
    if i < 0 || i >= s.len() {
        s.len() as int
    } else if is_ws(s[i]) {
        skip_ws(s, i + 1)
    } else {
        i
    }
}

/// First index at or after `i` that is whitespace, or `s.len()`.
pub open spec fn skip_word(s: Seq<char>, i: int) -> int
    decreases s.len() - i,
{
    if i < 0 || i >= s.len() {
        s.len() as int
    } else if is_ws(s[i]) {
        i
    } else {
        skip_word(s, i + 1)
    }
}

/// The whitespace-separated words of `s` from index `i` on.
pub open spec fn words_from(s: Seq<char>, i: int) -> Seq<Seq<char>>
    decreases s.len() + 1 - i,
{
    let a = skip_ws(s, i);
    let b = skip_word(s, a);
    if i < 0 || a < i || a >= s.len() || b <= a || b > s.len() {
        seq![]
    } else {
        seq![s.subrange(a, b)] + words_from(s, b)
    }
}

/// `str::split_whitespace`.
pub open spec fn words(s: Seq<char>) -> Seq<Seq<char>> {
    words_from(s, 0)
}

proof fn lemma_skip_ws(s: Seq<char>, i: int)
    requires
        0 <= i <= s.len(),
    ensures
        i <= skip_ws(s, i) <= s.len(),
        skip_ws(s, i) < s.len() ==> !is_ws(s[skip_ws(s, i)]),
    decreases s.len() - i,
{
    if i < s.len() && is_ws(s[i]) {
        lemma_skip_ws(s, i + 1);
    }
}

proof fn lemma_skip_word(s: Seq<char>, i: int)
    requires
        0 <= i <= s.len(),
    ensures
        i <= skip_word(s, i) <= s.len(),
        i < s.len() && !is_ws(s[i]) ==> i < skip_word(s, i),
    decreases s.len() - i,
{
    if i < s.len() && !is_ws(s[i]) {
        lemma_skip_word(s, i + 1);
    }
}

fn skip_ws_exec(s: &[char], i: usize) -> (r: usize)
    requires
        i <= s@.len(),
    ensures
        r as int == skip_ws(s@, i as int),
{
    let mut k = i;
    while k < s.len() && is_whitespace(s[k])
        invariant
            i <= k <= s@.len(),
            skip_ws(s@, i as int) == skip_ws(s@, k as int),
        decreases s@.len() - k,
    {
        k = k + 1;
    }
    k
}

fn skip_word_exec(s: &[char], i: usize) -> (r: usize)
    requires
        i <= s@.len(),
    ensures
        r as int == skip_word(s@, i as int),
{
    let mut k = i;
    while k < s.len() && !is_whitespace(s[k])
        invariant
            i <= k <= s@.len(),
            skip_word(s@, i as int) == skip_word(s@, k as int),
        decreases s@.len() - k,
    {
        k = k + 1;
    }
    k
}

/// `str::split_whitespace`.
pub fn words_of(s: &[char]) -> (r: Vec<Vec<char>>)
    ensures
        r@.len() == words(s@).len(),
        forall|k: int| 0 <= k < r@.len() ==> #[trigger] r@[k]@ == words(s@)[k],
{
    let mut out: Vec<Vec<char>> = Vec::new();
    let ghost done: Seq<Seq<char>> = seq![];
    let mut i: usize = 0;
    assert(done + words_from(s@, 0) =~= words(s@));
    loop
        invariant
            i <= s@.len(),
            done + words_from(s@, i as int) == words(s@),
            out@.len() == done.len(),
            forall|k: int| 0 <= k < out@.len() ==> #[trigger] out@[k]@ == done[k],
        decreases s@.len() - i,
    {
        let a = skip_ws_exec(s, i);
        proof {
            lemma_skip_ws(s@, i as int);
            lemma_skip_word(s@, a as int);
        }
        if a >= s.len() {
            assert(words_from(s@, i as int) =~= seq![]);
            assert(done + words_from(s@, i as int) =~= done);
            return out;
        }
        let b = skip_word_exec(s, a);
        let mut w: Vec<char> = Vec::new();
        extend_chars(&mut w, &s[a..b]);
        proof {
            assert(w@ =~= s@.subrange(a as int, b as int));
            assert(done + words_from(s@, i as int) =~= done.push(w@) + words_from(s@, b as int));
            done = done.push(w@);
        }
        out.push(w);
        i = b;
    }
}

// ---------------------------------------------------------------------------
// Openers and closers
// ---------------------------------------------------------------------------

/// The `:::inline-slide` modifiers: each of `light` and `with-title` at most
/// once, nothing else.
pub open spec fn inline_mods(tokens: Seq<Seq<char>>, light: bool, with_title: bool) -> Option<
    (bool, bool),
>
    decreases tokens.len(),
{
    if tokens.len() == 0 {
        Some((light, with_title))
    } else if tokens[0] == "light"@ && !light {
        inline_mods(tokens.drop_first(), true, with_title)
    } else if tokens[0] == "with-title"@ && !with_title {
        inline_mods(tokens.drop_first(), light, true)
    } else {
        None
    }
}

/// The `:::add` arguments: at most one `visibility=both|guide|slide`.
pub open spec fn add_mods(tokens: Seq<Seq<char>>, visibility: Option<Visibility>) -> Option<
    Option<Visibility>,
>
    decreases tokens.len(),
{
    if tokens.len() == 0 {
        Some(visibility)
    } else if !starts_with(tokens[0], "visibility="@) || visibility is Some {
        None
    } else {
        let value = tokens[0].skip("visibility="@.len() as int);
        if value == "both"@ {
            add_mods(tokens.drop_first(), Some(Visibility::Both))
        } else if value == "guide"@ {
            add_mods(tokens.drop_first(), Some(Visibility::Guide))
        } else if value == "slide"@ {
            add_mods(tokens.drop_first(), Some(Visibility::Slide))
        } else {
            None
        }
    }
}

/// The text after `prefix` is empty or starts with a space.
pub open spec fn bare_or_spaced(rest: Seq<char>) -> bool {
    rest.len() == 0 || rest[0] == ' '
}

/// The directive opener a fence line spells, if any.
pub open spec fn opener_spec(fence: Seq<char>) -> Option<Opener<Seq<char>>> {
    if fence == "::: solucion"@ {
        Some(Opener::Solution)
    } else if fence == ":::slide"@ || fence == ":::slide light"@ {
        Some(Opener::Slide { light: fence == ":::slide light"@ })
    } else if starts_with(fence, ":::inline-slide"@) {
        let rest = fence.skip(":::inline-slide"@.len() as int);
        if !bare_or_spaced(rest) {
            None
        } else {
            match inline_mods(words(rest), false, false) {
                Some((light, with_title)) => Some(Opener::InlineSlide { light, with_title }),
                None => None,
            }
        }
    } else if starts_with(fence, ":::title-slide"@) {
        let rest = fence.skip(":::title-slide"@.len() as int);
        if bare_or_spaced(rest) {
            Some(Opener::TitleSlide { text: trim(rest) })
        } else {
            None
        }
    } else if fence == "::: warning"@ {
        Some(Opener::Warning)
    } else if fence == "::: info"@ {
        Some(Opener::Info)
    } else if starts_with(fence, "::: extra"@) {
        let rest = fence.skip("::: extra"@.len() as int);
        if bare_or_spaced(rest) {
            Some(Opener::Extra { title: trim(rest) })
        } else {
            None
        }
    } else if fence == ":::app"@ {
        Some(Opener::App)
    } else if fence == ":::skip"@ {
        Some(Opener::Skip)
    } else if starts_with(fence, ":::add"@) {
        let rest = fence.skip(":::add"@.len() as int);
        if !bare_or_spaced(rest) {
            None
        } else {
            match add_mods(words(rest), None) {
                Some(Some(v)) => Some(Opener::Add { visibility: v }),
                Some(None) => Some(Opener::Add { visibility: Visibility::Both }),
                None => None,
            }
        }
    } else {
        None
    }
}

/// A closing fence: `:::`, optionally followed by a `#` comment.
pub open spec fn is_closer_spec(fence: Seq<char>) -> bool {
    starts_with(fence, ":::"@) && {
        let rest = trim_start(fence.skip(":::"@.len() as int));
        rest.len() == 0 || rest[0] == '#'
    }
}

/// The text of `fence` after its first `n` characters.
fn rest_after(fence: &[char], n: usize) -> (r: &[char])
    requires
        n <= fence@.len(),
    ensures
        r@ == fence@.skip(n as int),
{
    assert(fence@.subrange(n as int, fence@.len() as int) =~= fence@.skip(n as int));
    &fence[n..fence.len()]
}

fn bare_or_spaced_exec(rest: &[char]) -> (b: bool)
    ensures
        b == bare_or_spaced(rest@),
{
    rest.len() == 0 || rest[0] == ' '
}

fn inline_mods_exec(tokens: &Vec<Vec<char>>, ghost_tokens: Ghost<Seq<Seq<char>>>) -> (r: Option<
    (bool, bool),
>)
    requires
        tokens@.len() == ghost_tokens@.len(),
        forall|k: int| 0 <= k < tokens@.len() ==> #[trigger] tokens@[k]@ == ghost_tokens@[k],
    ensures
        r == inline_mods(ghost_tokens@, false, false),
{
    let mut light = false;
    let mut with_title = false;
    let mut i: usize = 0;
    assert(ghost_tokens@.skip(0) =~= ghost_tokens@);
    while i < tokens.len()
        invariant
            i <= tokens@.len(),
            tokens@.len() == ghost_tokens@.len(),
            forall|k: int| 0 <= k < tokens@.len() ==> #[trigger] tokens@[k]@ == ghost_tokens@[k],
            inline_mods(ghost_tokens@, false, false) == inline_mods(
                ghost_tokens@.skip(i as int),
                light,
                with_title,
            ),
        decreases tokens@.len() - i,
    {
        let t = &tokens[i];
        assert(ghost_tokens@.skip(i as int)[0] == t@);
        assert(ghost_tokens@.skip(i as int).drop_first() =~= ghost_tokens@.skip(i + 1));
        if eq_str(t, "light") && !light {
            light = true;
        } else if eq_str(t, "with-title") && !with_title {
            with_title = true;
        } else {
            return None;
        }
        i = i + 1;
    }
    assert(ghost_tokens@.skip(i as int) =~= seq![]);
    Some((light, with_title))
}

fn add_mods_exec(tokens: &Vec<Vec<char>>, ghost_tokens: Ghost<Seq<Seq<char>>>) -> (r: Option<
    Option<Visibility>,
>)
    requires
        tokens@.len() == ghost_tokens@.len(),
        forall|k: int| 0 <= k < tokens@.len() ==> #[trigger] tokens@[k]@ == ghost_tokens@[k],
    ensures
        r == add_mods(ghost_tokens@, None),
{
    let mut visibility: Option<Visibility> = None;
    let mut i: usize = 0;
    let prefix = to_chars("visibility=");
    assert(ghost_tokens@.skip(0) =~= ghost_tokens@);
    while i < tokens.len()
        invariant
            i <= tokens@.len(),
            prefix@ == "visibility="@,
            tokens@.len() == ghost_tokens@.len(),
            forall|k: int| 0 <= k < tokens@.len() ==> #[trigger] tokens@[k]@ == ghost_tokens@[k],
            add_mods(ghost_tokens@, None) == add_mods(ghost_tokens@.skip(i as int), visibility),
        decreases tokens@.len() - i,
    {
        let t = &tokens[i];
        assert(ghost_tokens@.skip(i as int)[0] == t@);
        assert(ghost_tokens@.skip(i as int).drop_first() =~= ghost_tokens@.skip(i + 1));
        if !starts_with_chars(t, &prefix) || visibility.is_some() {
            return None;
        }
        let value = rest_after(t, prefix.len());
        if eq_str(value, "both") {
            visibility = Some(Visibility::Both);
        } else if eq_str(value, "guide") {
            visibility = Some(Visibility::Guide);
        } else if eq_str(value, "slide") {
            visibility = Some(Visibility::Slide);
        } else {
            return None;
        }
        i = i + 1;
    }
    assert(ghost_tokens@.skip(i as int) =~= seq![]);
    Some(visibility)
}

/// Recognizes a directive opener on its own line. The slide fences take an
/// optional `light` modifier; `:::inline-slide` also takes `with-title`, in
/// any order. `::: warning`, `::: info`, `:::app`, and `:::skip` take no
/// arguments, `::: extra` and `:::title-slide` take free text, and `:::add`
/// takes an optional `visibility=both|guide|slide`. Anything else is plain
/// Markdown.
pub fn opener(fence: &[char]) -> (r: Option<Opener>)
    ensures
        opener_view(r) == opener_spec(fence@),
{
    if eq_str(fence, "::: solucion") {
        return Some(Opener::Solution);
    }
    let is_slide = eq_str(fence, ":::slide");
    let is_light_slide = eq_str(fence, ":::slide light");
    if is_slide || is_light_slide {
        return Some(Opener::Slide { light: is_light_slide });
    }
    let inline = to_chars(":::inline-slide");
    if starts_with_chars(fence, &inline) {
        let rest = rest_after(fence, inline.len());
        if !bare_or_spaced_exec(rest) {
            return None;
        }
        let tokens = words_of(rest);
        return match inline_mods_exec(&tokens, Ghost(words(rest@))) {
            Some((light, with_title)) => Some(Opener::InlineSlide { light, with_title }),
            None => None,
        };
    }
    let title_slide = to_chars(":::title-slide");
    if starts_with_chars(fence, &title_slide) {
        let rest = rest_after(fence, title_slide.len());
        if bare_or_spaced_exec(rest) {
            let mut text: Vec<char> = Vec::new();
            extend_chars(&mut text, trim_chars(rest));
            return Some(Opener::TitleSlide { text });
        }
        return None;
    }
    if eq_str(fence, "::: warning") {
        return Some(Opener::Warning);
    }
    if eq_str(fence, "::: info") {
        return Some(Opener::Info);
    }
    let extra = to_chars("::: extra");
    if starts_with_chars(fence, &extra) {
        let rest = rest_after(fence, extra.len());
        if bare_or_spaced_exec(rest) {
            let mut title: Vec<char> = Vec::new();
            extend_chars(&mut title, trim_chars(rest));
            return Some(Opener::Extra { title });
        }
        return None;
    }
    if eq_str(fence, ":::app") {
        return Some(Opener::App);
    }
    if eq_str(fence, ":::skip") {
        return Some(Opener::Skip);
    }
    let add = to_chars(":::add");
    if starts_with_chars(fence, &add) {
        let rest = rest_after(fence, add.len());
        if !bare_or_spaced_exec(rest) {
            return None;
        }
        let tokens = words_of(rest);
        return match add_mods_exec(&tokens, Ghost(words(rest@))) {
            Some(Some(v)) => Some(Opener::Add { visibility: v }),
            Some(None) => Some(Opener::Add { visibility: Visibility::Both }),
            None => None,
        };
    }
    None
}

/// Recognizes a closing fence: a bare `:::`, optionally followed by a `#`
/// comment that runs to the end of the line.
pub fn is_closer(fence: &[char]) -> (b: bool)
    ensures
        b == is_closer_spec(fence@),
{
    let colons = to_chars(":::");
    if !starts_with_chars(fence, &colons) {
        return false;
    }
    let rest = trim_start_chars(rest_after(fence, colons.len()));
    rest.len() == 0 || rest[0] == '#'
}

// ---------------------------------------------------------------------------
// Splitting a body into segments
// ---------------------------------------------------------------------------

/// The segment an opener produces once its block closes with payload `md`.
pub open spec fn into_segment_spec(op: Opener<Seq<char>>, md: Seq<char>) -> Result<
    Segment<Seq<char>>,
    Error,
> {
    match op {
        Opener::Solution => Ok(Segment::Solution(md)),
        Opener::Slide { light } => Ok(Segment::Slide { md, light }),
        Opener::InlineSlide { light, with_title } => Ok(
            Segment::InlineSlide { md, light, with_title },
        ),
        Opener::TitleSlide { text } => if trim(md).len() != 0 {
            Err(Error::TitleSlideNotEmpty)
        } else {
            Ok(Segment::TitleSlide { text })
        },
        Opener::Warning => Ok(Segment::Warning(md)),
        Opener::Info => Ok(Segment::Info(md)),
        Opener::Extra { title } => Ok(Segment::Extra { title, md }),
        Opener::App => Ok(Segment::App(md)),
        Opener::Skip => Ok(Segment::Skip(md)),
        Opener::Add { visibility } => Ok(Segment::Add { md, visibility }),
    }
}

/// The error for a block that is still open at the end of the body.
pub open spec fn unclosed_spec(op: Opener<Seq<char>>) -> Error {
    match op {
        Opener::Solution => Error::UnclosedSolution,
        Opener::Slide { .. } => Error::UnclosedSlide,
        Opener::InlineSlide { .. } => Error::UnclosedInlineSlide,
        Opener::TitleSlide { .. } => Error::UnclosedTitleSlide,
        Opener::Warning => Error::UnclosedWarning,
        Opener::Info => Error::UnclosedInfo,
        Opener::Extra { .. } => Error::UnclosedExtra,
        Opener::App => Error::UnclosedApp,
        Opener::Skip => Error::UnclosedSkip,
        Opener::Add { .. } => Error::UnclosedAdd,
    }
}

/// Where the splitter stands between two lines: the finished segments, the
/// pending text, the innermost open block, and the nesting depth.
pub ghost struct SplitState {
    pub segments: Seq<Segment<Seq<char>>>,
    pub buf: Seq<char>,
    pub open: Option<Opener<Seq<char>>>,
    pub depth: int,
}

pub open spec fn split_start() -> SplitState {
    SplitState { segments: seq![], buf: seq![], open: None, depth: 0 }
}

/// `buf` followed by `line` and a newline.
pub open spec fn with_line(buf: Seq<char>, line: Seq<char>) -> Seq<char> {
    buf + line + seq!['\n']
}

/// `segments`, plus the pending Markdown when there is any.
pub open spec fn flush(segments: Seq<Segment<Seq<char>>>, buf: Seq<char>) -> Seq<
    Segment<Seq<char>>,
> {
    if buf.len() > 0 {
        segments.push(Segment::Markdown(buf))
    } else {
        segments
    }
}

/// One line through the splitter.
pub open spec fn split_step(st: SplitState, line: Seq<char>) -> Result<SplitState, Error> {
    let fence = trim_end(line);
    match st.open {
        None => match opener_spec(fence) {
            Some(op) => Ok(
                SplitState { segments: flush(st.segments, st.buf), buf: seq![], open: Some(op), depth: 1 },
            ),
            None => Ok(
                SplitState {
                    segments: st.segments,
                    buf: with_line(st.buf, line),
                    open: None,
                    depth: st.depth,
                },
            ),
        },
        Some(op) => if opener_spec(fence) is Some {
            Ok(
                SplitState {
                    segments: st.segments,
                    buf: with_line(st.buf, line),
                    open: st.open,
                    depth: st.depth + 1,
                },
            )
        } else if is_closer_spec(fence) {
            if st.depth - 1 == 0 {
                match into_segment_spec(op, st.buf) {
                    Ok(seg) => Ok(
                        SplitState { segments: st.segments.push(seg), buf: seq![], open: None, depth: 0 },
                    ),
                    Err(e) => Err(e),
                }
            } else {
                Ok(
                    SplitState {
                        segments: st.segments,
                        buf: with_line(st.buf, line),
                        open: st.open,
                        depth: st.depth - 1,
                    },
                )
            }
        } else {
            Ok(
                SplitState {
                    segments: st.segments,
                    buf: with_line(st.buf, line),
                    open: st.open,
                    depth: st.depth,
                },
            )
        },
    }
}

/// The lines `ls`, one after another, through the splitter.
pub open spec fn split_lines(st: SplitState, ls: Seq<Seq<char>>) -> Result<SplitState, Error>
    decreases ls.len(),
{
    if ls.len() == 0 {
        Ok(st)
    } else {
        match split_step(st, ls[0]) {
            Ok(next) => split_lines(next, ls.drop_first()),
            Err(e) => Err(e),
        }
    }
}

/// The segments of a whole body, or the error that stops it.
pub open spec fn split_solutions_spec(body: Seq<char>) -> Result<Seq<Segment<Seq<char>>>, Error> {
    match split_lines(split_start(), lines(body)) {
        Err(e) => Err(e),
        Ok(st) => match st.open {
            Some(op) => Err(unclosed_spec(op)),
            None => Ok(flush(st.segments, st.buf)),
        },
    }
}

pub open spec fn segments_result_view(r: Result<Vec<Segment>, Error>) -> Result<
    Seq<Segment<Seq<char>>>,
    Error,
> {
    match r {
        Ok(v) => Ok(segments_view(v@)),
        Err(e) => Err(e),
    }
}

fn into_segment(op: Opener, md: Vec<char>) -> (r: Result<Segment, Error>)
    ensures
        match r {
            Ok(seg) => into_segment_spec(op@, md@) == Ok::<Segment<Seq<char>>, Error>(seg@),
            Err(e) => into_segment_spec(op@, md@) == Err::<Segment<Seq<char>>, Error>(e),
        },
{
    let text = from_chars(&md);
    match op {
        Opener::Solution => Ok(Segment::Solution(text)),
        Opener::Slide { light } => Ok(Segment::Slide { md: text, light }),
        Opener::InlineSlide { light, with_title } => Ok(
            Segment::InlineSlide { md: text, light, with_title },
        ),
        Opener::TitleSlide { text: label } => {
            if trim_chars(&md).len() != 0 {
                Err(Error::TitleSlideNotEmpty)
            } else {
                Ok(Segment::TitleSlide { text: from_chars(&label) })
            }
        },
        Opener::Warning => Ok(Segment::Warning(text)),
        Opener::Info => Ok(Segment::Info(text)),
        Opener::Extra { title } => Ok(Segment::Extra { title: from_chars(&title), md: text }),
        Opener::App => Ok(Segment::App(text)),
        Opener::Skip => Ok(Segment::Skip(text)),
        Opener::Add { visibility } => Ok(Segment::Add { md: text, visibility }),
    }
}

fn unclosed_error(op: &Opener) -> (e: Error)
    ensures
        e == unclosed_spec(op@),
{
    match op {
        Opener::Solution => Error::UnclosedSolution,
        Opener::Slide { .. } => Error::UnclosedSlide,
        Opener::InlineSlide { .. } => Error::UnclosedInlineSlide,
        Opener::TitleSlide { .. } => Error::UnclosedTitleSlide,
        Opener::Warning => Error::UnclosedWarning,
        Opener::Info => Error::UnclosedInfo,
        Opener::Extra { .. } => Error::UnclosedExtra,
        Opener::App => Error::UnclosedApp,
        Opener::Skip => Error::UnclosedSkip,
        Opener::Add { .. } => Error::UnclosedAdd,
    }
}

/// Appends `line` and a newline to `buf`.
fn push_line(buf: &mut Vec<char>, line: &[char])
    ensures
        final(buf)@ == with_line(old(buf)@, line@),
{
    extend_chars(buf, line);
    buf.push('\n');
}

/// Splits a Markdown body into top-level [`Segment`]s. Directive blocks open
/// with their fence and close with a bare `:::`, optionally followed by a `#`
/// comment. Blocks nest: an opener inside a block deepens the nesting and its
/// line is kept verbatim for the recursive renderer; the matching closer ends
/// the innermost block. Fences sit alone on their line. A block still open at
/// the end of the body is an error.
pub fn split_solutions(body: &str) -> (r: Result<Vec<Segment>, Error>)
    ensures
        segments_result_view(r) == split_solutions_spec(body@),
{
    let chars = to_chars(body);
    let ls = lines_of(&chars);
    let ghost all = lines(body@);
    let mut segments: Vec<Segment> = Vec::new();
    let mut buf: Vec<char> = Vec::new();
    let mut open: Option<Opener> = None;
    let mut depth: usize = 0;
    let mut i: usize = 0;
    assert(all.skip(0) =~= all);
    assert(segments_view(segments@) =~= seq![]);
    while i < ls.len()
        invariant
            all == lines(body@),
            i <= ls@.len(),
            ls@.len() == all.len(),
            forall|k: int| 0 <= k < ls@.len() ==> #[trigger] ls@[k]@ == all[k],
            split_lines(split_start(), all) == split_lines(
                SplitState {
                    segments: segments_view(segments@),
                    buf: buf@,
                    open: opener_view(open),
                    depth: depth as int,
                },
                all.skip(i as int),
            ),
            open is Some <==> depth >= 1,
            depth <= i,
        decreases ls@.len() - i,
    {
        let line = &ls[i];
        let fence = trim_end_chars(line);
        let ghost st = SplitState {
            segments: segments_view(segments@),
            buf: buf@,
            open: opener_view(open),
            depth: depth as int,
        };
        assert(all.skip(i as int)[0] == line@);
        assert(all.skip(i as int).drop_first() =~= all.skip(i + 1));
        if open.is_none() {
            match opener(fence) {
                Some(op) => {
                    if buf.len() > 0 {
                        let md = from_chars(&buf);
                        segments.push(Segment::Markdown(md));
                    }
                    proof {
                        assert(segments_view(segments@) =~= flush(st.segments, st.buf));
                    }
                    buf = Vec::new();
                    open = Some(op);
                    depth = 1;
                },
                None => {
                    push_line(&mut buf, line);
                },
            }
        } else {
            if opener(fence).is_some() {
                depth = depth + 1;
                push_line(&mut buf, line);
            } else if is_closer(fence) {
                depth = depth - 1;
                if depth == 0 {
                    let md = buf;
                    buf = Vec::new();
                    let current = open;
                    open = None;
                    match current {
                        Some(op) => match into_segment(op, md) {
                            Ok(seg) => {
                                segments.push(seg);
                                assert(segments_view(segments@) =~= st.segments.push(seg@));
                            },
                            Err(e) => {
                                assert(split_step(st, line@) == Err::<SplitState, Error>(e));
                                assert(split_lines(st, all.skip(i as int)) == Err::<SplitState, Error>(e));
                                return Err(e);
                            },
                        },
                        None => {
                            return Err(Error::UnclosedSolution);
                        },
                    }
                } else {
                    push_line(&mut buf, line);
                }
            } else {
                push_line(&mut buf, line);
            }
        }
        i = i + 1;
    }
    assert(all.skip(i as int) =~= seq![]);
    assert(split_lines(split_start(), all) == Ok::<SplitState, Error>(SplitState {
                    segments: segments_view(segments@),
                    buf: buf@,
                    open: opener_view(open),
                    depth: depth as int,
                }));
    match open {
        Some(op) => Err(unclosed_error(&op)),
        None => {
            let ghost before = segments_view(segments@);
            if buf.len() > 0 {
                let md = from_chars(&buf);
                segments.push(Segment::Markdown(md));
            }
            assert(segments_view(segments@) =~= flush(before, buf@));
            Ok(segments)
        },
    }
}

// ---------------------------------------------------------------------------
// Payloads are shorter than the body they come from
// ---------------------------------------------------------------------------

/// The Markdown a directive segment carries for the recursive renderers.
pub open spec fn payload(seg: Segment<Seq<char>>) -> Option<Seq<char>> {
    match seg {
        Segment::Markdown(_) => None,
        Segment::TitleSlide { .. } => None,
        Segment::Solution(m) => Some(m),
        Segment::Warning(m) => Some(m),
        Segment::Info(m) => Some(m),
        Segment::App(m) => Some(m),
        Segment::Skip(m) => Some(m),
        Segment::Slide { md, .. } => Some(md),
        Segment::InlineSlide { md, .. } => Some(md),
        Segment::Extra { md, .. } => Some(md),
        Segment::Add { md, .. } => Some(md),
    }
}

/// The characters `ls` stands for, a newline after each line.
pub open spec fn line_total(ls: Seq<Seq<char>>) -> int
    decreases ls.len(),
{
    if ls.len() == 0 {
        0
    } else {
        ls[0].len() + 1 + line_total(ls.drop_first())
    }
}

/// Every finished directive payload, and the open block's buffer, is at
/// least four characters shorter than `c`.
pub open spec fn payloads_fit(st: SplitState, c: int) -> bool {
    &&& forall|k: int|
        0 <= k < st.segments.len() ==> (#[trigger] payload(st.segments[k]) matches Some(m) ==> m.len()
            + 4 <= c)
    &&& (st.open is Some ==> st.buf.len() + 4 <= c)
}

proof fn lemma_trim_end_len(s: Seq<char>)
    ensures
        trim_end(s).len() <= s.len(),
    decreases s.len(),
{
    if s.len() > 0 && is_ws(s.last()) {
        lemma_trim_end_len(s.drop_last());
    }
}

proof fn lemma_opener_len(fence: Seq<char>)
    requires
        opener_spec(fence) is Some,
    ensures
        fence.len() >= 3,
{
    reveal_strlit("::: solucion");
    reveal_strlit(":::slide");
    reveal_strlit(":::slide light");
    reveal_strlit(":::inline-slide");
    reveal_strlit(":::title-slide");
    reveal_strlit("::: warning");
    reveal_strlit("::: info");
    reveal_strlit("::: extra");
    reveal_strlit(":::app");
    reveal_strlit(":::skip");
    reveal_strlit(":::add");
}

proof fn lemma_step_fits(st: SplitState, line: Seq<char>, c: int)
    requires
        c >= 0,
        payloads_fit(st, c),
        split_step(st, line) is Ok,
        st.open is Some <==> st.depth >= 1,
    ensures
        payloads_fit(split_step(st, line).unwrap(), c + line.len() + 1),
        split_step(st, line).unwrap().open is Some <==> split_step(st, line).unwrap().depth >= 1,
{
    let fence = trim_end(line);
    lemma_trim_end_len(line);
    if opener_spec(fence) is Some {
        lemma_opener_len(fence);
    }
    let next = split_step(st, line).unwrap();
    assert forall|k: int| 0 <= k < next.segments.len() implies (#[trigger] payload(next.segments[k]) matches Some(m)
        ==> m.len() + 4 <= c + line.len() + 1) by {
        if k < st.segments.len() && next.segments[k] == st.segments[k] {
        } else if st.open is Some && k == st.segments.len() {
        }
    }
}

proof fn lemma_lines_fit(st: SplitState, ls: Seq<Seq<char>>, c: int)
    requires
        c >= 0,
        payloads_fit(st, c),
        split_lines(st, ls) is Ok,
        st.open is Some <==> st.depth >= 1,
    ensures
        payloads_fit(split_lines(st, ls).unwrap(), c + line_total(ls)),
    decreases ls.len(),
{
    if ls.len() > 0 {
        lemma_step_fits(st, ls[0], c);
        lemma_lines_fit(split_step(st, ls[0]).unwrap(), ls.drop_first(), c + ls[0].len() + 1);
    }
}

proof fn lemma_lines_total(s: Seq<char>, i: int)
    requires
        0 <= i <= s.len() + 1,
    ensures
        line_total(lines_from(s, i)) <= s.len() + 1 - i,
    decreases s.len() + 1 - i,
{
    if !(i < 0 || i >= s.len() || next_char(s, '\n', i) < i || next_char(s, '\n', i) > s.len()) {
        let e = next_char(s, '\n', i);
        lemma_lines_total(s, e + 1);
        assert(lines_from(s, i).drop_first() =~= lines_from(s, e + 1));
    }
}

/// Every directive payload of a body that splits is shorter than the body,
/// so the recursive renderers terminate.
pub proof fn lemma_payload_shorter(body: Seq<char>)
    requires
        split_solutions_spec(body) is Ok,
    ensures
        forall|k: int|
            0 <= k < split_solutions_spec(body).unwrap().len() ==> (#[trigger] payload(
                split_solutions_spec(body).unwrap()[k],
            ) matches Some(m) ==> m.len() < body.len()),
{
    let st0 = split_start();
    assert(payloads_fit(st0, 0));
    lemma_lines_fit(st0, lines(body), 0);
    lemma_lines_total(body, 0);
    let st = split_lines(st0, lines(body)).unwrap();
    let segs = split_solutions_spec(body).unwrap();
    assert forall|k: int| 0 <= k < segs.len() implies (#[trigger] payload(segs[k]) matches Some(m)
        ==> m.len() < body.len()) by {
        if k < st.segments.len() {
            assert(segs[k] == st.segments[k]);
        }
    }
}

} // verus!
