//! Section-body rendering: guide HTML and slide fragments from a body's
//! directive segments.
use vstd::prelude::*;

use crate::directives::{
    lemma_payload_shorter, payload, segments_view, split_solutions, split_solutions_spec, Segment,
    SlideFragment, Visibility,
};
use crate::error::Error;
use crate::markdown::{render_markdown, render_markdown_spec};
use crate::render::{escape, push_escaped};
use crate::slides::{
    extract_anchors, extract_anchors_spec, extract_fold, render_slide, render_slide_spec, strip_anchors_spec, AnchorList,
    Anchors,
};
use crate::text::{
    contains, contains_str, extend_chars, extend_str, from_chars, lines, lines_of, starts_with,
    starts_with_str, to_chars, trim, trim_chars,
};

verus! {

// ---------------------------------------------------------------------------
// Block markup
// ---------------------------------------------------------------------------

/// The collapsible solution block around `inner`, hidden by default.
pub open spec fn solution_html(inner: Seq<char>) -> Seq<char> {
    "<div class=\"solucion\">\n<button type=\"button\" class=\"solucion-toggle\" aria-expanded=\"false\">Ver solución</button>\n<div class=\"solucion-cuerpo\" hidden>\n"@
        + inner + "</div>\n</div>\n"@
}

/// An always-visible warning admonition around `inner`.
pub open spec fn warning_html(inner: Seq<char>) -> Seq<char> {
    "<div class=\"cb-warning\">\n"@ + inner + "</div>\n"@
}

/// An always-visible information admonition around `inner`.
pub open spec fn info_html(inner: Seq<char>) -> Seq<char> {
    "<div class=\"cb-info\">\n"@ + inner + "</div>\n"@
}

/// The summary of an extra block: its title, or "Contenido adicional".
pub open spec fn extra_title(title: Seq<char>) -> Seq<char> {
    if title.len() == 0 {
        "Contenido adicional"@
    } else {
        title
    }
}

/// A collapsible extra block: a native `<details>`, closed by default.
pub open spec fn extra_html(title: Seq<char>, inner: Seq<char>) -> Seq<char> {
    "<details class=\"cb-extra\">\n<summary>"@ + escape(extra_title(title))
        + "</summary>\n<div class=\"cb-extra-cuerpo\">\n"@ + inner + "</div>\n</details>\n"@
}

/// An app container passing `inner` through verbatim.
pub open spec fn app_html(inner: Seq<char>) -> Seq<char> {
    "<div class=\"cb-app\">\n"@ + inner + "</div>\n"@
}

/// A title-only slide showing `title` as a hero.
pub open spec fn title_slide_html(title: Seq<char>) -> Seq<char> {
    "<h1 class=\"cb-title-slide\">"@ + escape(title) + "</h1>\n"@
}

/// Appends the solution block around `inner`.
pub fn push_solution(out: &mut Vec<char>, inner: &[char])
    ensures
        final(out)@ == old(out)@ + solution_html(inner@),
{
    let ghost start = out@;
    extend_str(
        out,
        "<div class=\"solucion\">\n<button type=\"button\" class=\"solucion-toggle\" aria-expanded=\"false\">Ver solución</button>\n<div class=\"solucion-cuerpo\" hidden>\n",
    );
    extend_chars(out, inner);
    extend_str(out, "</div>\n</div>\n");
    assert(out@ =~= start + solution_html(inner@));
}

fn push_warning(out: &mut Vec<char>, inner: &[char])
    ensures
        final(out)@ == old(out)@ + warning_html(inner@),
{
    let ghost start = out@;
    extend_str(out, "<div class=\"cb-warning\">\n");
    extend_chars(out, inner);
    extend_str(out, "</div>\n");
    assert(out@ =~= start + warning_html(inner@));
}

fn push_info(out: &mut Vec<char>, inner: &[char])
    ensures
        final(out)@ == old(out)@ + info_html(inner@),
{
    let ghost start = out@;
    extend_str(out, "<div class=\"cb-info\">\n");
    extend_chars(out, inner);
    extend_str(out, "</div>\n");
    assert(out@ =~= start + info_html(inner@));
}

fn push_extra(out: &mut Vec<char>, title: &str, inner: &[char])
    ensures
        final(out)@ == old(out)@ + extra_html(title@, inner@),
{
    let ghost start = out@;
    extend_str(out, "<details class=\"cb-extra\">\n<summary>");
    if title.unicode_len() == 0 {
        push_escaped(out, "Contenido adicional");
    } else {
        push_escaped(out, title);
    }
    extend_str(out, "</summary>\n<div class=\"cb-extra-cuerpo\">\n");
    extend_chars(out, inner);
    extend_str(out, "</div>\n</details>\n");
    assert(out@ =~= start + extra_html(title@, inner@));
}

fn push_app(out: &mut Vec<char>, inner: &str)
    ensures
        final(out)@ == old(out)@ + app_html(inner@),
{
    let ghost start = out@;
    extend_str(out, "<div class=\"cb-app\">\n");
    extend_str(out, inner);
    extend_str(out, "</div>\n");
    assert(out@ =~= start + app_html(inner@));
}

fn push_title_slide(out: &mut Vec<char>, title: &str)
    ensures
        final(out)@ == old(out)@ + title_slide_html(title@),
{
    let ghost start = out@;
    extend_str(out, "<h1 class=\"cb-title-slide\">");
    push_escaped(out, title);
    extend_str(out, "</h1>\n");
    assert(out@ =~= start + title_slide_html(title@));
}

/// Renders the collapsible solution block around `inner_html`.
pub fn render_solution(inner_html: &str) -> (r: String)
    ensures
        r@ == solution_html(inner_html@),
{
    let mut out: Vec<char> = Vec::new();
    let inner = to_chars(inner_html);
    push_solution(&mut out, &inner);
    assert(out@ =~= solution_html(inner_html@));
    from_chars(&out)
}

/// Renders an always-visible warning admonition.
pub fn render_warning(inner_html: &str) -> (r: String)
    ensures
        r@ == warning_html(inner_html@),
{
    let mut out: Vec<char> = Vec::new();
    let inner = to_chars(inner_html);
    push_warning(&mut out, &inner);
    assert(out@ =~= warning_html(inner_html@));
    from_chars(&out)
}

/// Renders an always-visible information admonition.
pub fn render_info(inner_html: &str) -> (r: String)
    ensures
        r@ == info_html(inner_html@),
{
    let mut out: Vec<char> = Vec::new();
    let inner = to_chars(inner_html);
    push_info(&mut out, &inner);
    assert(out@ =~= info_html(inner_html@));
    from_chars(&out)
}

/// Renders a collapsible extra block; an empty title falls back to
/// "Contenido adicional".
pub fn render_extra(title: &str, inner_html: &str) -> (r: String)
    ensures
        r@ == extra_html(title@, inner_html@),
{
    let mut out: Vec<char> = Vec::new();
    let inner = to_chars(inner_html);
    push_extra(&mut out, title, &inner);
    assert(out@ =~= extra_html(title@, inner_html@));
    from_chars(&out)
}

/// Renders an app container that passes `inner` through verbatim.
pub fn render_app(inner: &str) -> (r: String)
    ensures
        r@ == app_html(inner@),
{
    let mut out: Vec<char> = Vec::new();
    push_app(&mut out, inner);
    assert(out@ =~= app_html(inner@));
    from_chars(&out)
}

/// Renders a title-only slide.
pub fn render_title_slide(title: &str) -> (r: String)
    ensures
        r@ == title_slide_html(title@),
{
    let mut out: Vec<char> = Vec::new();
    push_title_slide(&mut out, title);
    assert(out@ =~= title_slide_html(title@));
    from_chars(&out)
}

// ---------------------------------------------------------------------------
// Guide context
// ---------------------------------------------------------------------------

/// A body rendered in guide context: its HTML and whether a solution block
/// occurs in it at any depth, or the first error.
pub open spec fn guide_html(md: Seq<char>) -> Result<(Seq<char>, bool), Error<Seq<char>>>
    decreases md.len(), 1int, 0int,
{
    match split_solutions_spec(md) {
        Err(e) => Err(e@),
        Ok(segs) => guide_fold(md, segs.len() as int),
    }
}

/// The first `n` segments of `md` in guide context.
pub open spec fn guide_fold(md: Seq<char>, n: int) -> Result<(Seq<char>, bool), Error<Seq<char>>>
    decreases md.len(), 0int, n,
{
    let split = split_solutions_spec(md);
    if n <= 0 || split is Err || n > split.unwrap().len() {
        Ok((seq![], false))
    } else {
        match guide_fold(md, n - 1) {
            Err(e) => Err(e),
            Ok((h, f)) => {
                let seg = split.unwrap()[n - 1];
                proof {
                    lemma_payload_shorter(md);
                    assert(payload(split.unwrap()[n - 1]) matches Some(m) ==> m.len() < md.len());
                }
                match seg {
                    Segment::Markdown(m) => Ok((h + render_markdown_spec(m), f)),
                    Segment::Solution(inner) => match guide_html(inner) {
                        Err(e) => Err(e),
                        Ok((ih, _)) => Ok((h + solution_html(ih), true)),
                    },
                    Segment::Warning(inner) => match guide_html(inner) {
                        Err(e) => Err(e),
                        Ok((ih, fi)) => Ok((h + warning_html(ih), f || fi)),
                    },
                    Segment::Info(inner) => match guide_html(inner) {
                        Err(e) => Err(e),
                        Ok((ih, fi)) => Ok((h + info_html(ih), f || fi)),
                    },
                    Segment::Extra { title, md: inner } => match guide_html(inner) {
                        Err(e) => Err(e),
                        Ok((ih, fi)) => Ok((h + extra_html(title, ih), f || fi)),
                    },
                    Segment::App(m) => Ok((h + app_html(m), f)),
                    Segment::Skip(inner) => match guide_html(inner) {
                        Err(e) => Err(e),
                        Ok((ih, fi)) => Ok((h + ih, f || fi)),
                    },
                    Segment::Add { md: inner, visibility } => if visibility != Visibility::Slide {
                        match guide_html(inner) {
                            Err(e) => Err(e),
                            Ok((ih, fi)) => Ok((h + ih, f || fi)),
                        }
                    } else {
                        Ok((h, f))
                    },
                    Segment::Slide { .. } => Err(Error::NestedSlide),
                    Segment::InlineSlide { .. } => Err(Error::NestedInlineSlide),
                    Segment::TitleSlide { .. } => Err(Error::NestedTitleSlide),
                }
            },
        }
    }
}

proof fn lemma_guide_err(md: Seq<char>, i: int, n: int)
    requires
        0 <= i <= n,
        split_solutions_spec(md) is Ok,
        n <= split_solutions_spec(md).unwrap().len(),
        guide_fold(md, i) is Err,
    ensures
        guide_fold(md, n) == guide_fold(md, i),
    decreases n - i,
{
    if i < n {
        lemma_guide_err(md, i, n - 1);
    }
}

/// Renders raw Markdown that may contain nested directives, in guide
/// context: `::: solucion`, `::: warning`, `::: info`, and `::: extra`
/// produce their guide markup and nesting recurses; `:::skip` content is
/// kept; `:::add` keeps its content unless it is for slides only. Slide
/// directives are illegal here and produce the matching nested-slide error.
/// Sets `found` when a solution block occurs.
fn render_guide_segments(md: &str, found: &mut bool) -> (r: Result<String, Error>)
    ensures
        match guide_html(md@) {
            Ok((h, f)) => r matches Ok(s) && s@ == h && *final(found) == (*old(found) || f),
            Err(e) => r matches Err(e2) && e2@ == e,
        },
    decreases md@.len(),
{
    let segs = match split_solutions(md) {
        Ok(v) => v,
        Err(e) => {
            return Err(e);
        },
    };
    let ghost sv = segments_view(segs@);
    proof {
        lemma_payload_shorter(md@);
    }
    let mut html: Vec<char> = Vec::new();
    let mut i: usize = 0;
    let ghost f0 = *found;
    while i < segs.len()
        invariant
            i <= segs@.len(),
            sv == segments_view(segs@),
            split_solutions_spec(md@) == Ok::<Seq<Segment<Seq<char>>>, Error>(sv),
            forall|k: int| 0 <= k < sv.len() ==> (#[trigger] payload(sv[k]) matches Some(m) ==> m.len()
                < md@.len()),
            guide_fold(md@, i as int) matches Ok((h, f)) && h == html@ && *found == (f0 || f),
        decreases segs@.len() - i,
    {
        let ghost prev_h = html@;
        let ghost prev_found = *found;
        assert(sv[i as int] == segs@[i as int]@);
        assert(payload(sv[i as int]) == payload(sv[i as int]));
        match &segs[i] {
            Segment::Markdown(m) => {
                let r = render_markdown(m.as_str());
                extend_str(&mut html, r.as_str());
            },
            Segment::Solution(inner) => {
                *found = true;
                match render_guide_segments(inner.as_str(), found) {
                    Ok(body) => {
                        let b = to_chars(body.as_str());
                        push_solution(&mut html, &b);
                    },
                    Err(e) => {
                        proof {
                            lemma_guide_err(md@, i + 1, sv.len() as int);
                        }
                        return Err(e);
                    },
                }
            },
            Segment::Warning(inner) => {
                match render_guide_segments(inner.as_str(), found) {
                    Ok(body) => {
                        let b = to_chars(body.as_str());
                        push_warning(&mut html, &b);
                    },
                    Err(e) => {
                        proof {
                            lemma_guide_err(md@, i + 1, sv.len() as int);
                        }
                        return Err(e);
                    },
                }
            },
            Segment::Info(inner) => {
                match render_guide_segments(inner.as_str(), found) {
                    Ok(body) => {
                        let b = to_chars(body.as_str());
                        push_info(&mut html, &b);
                    },
                    Err(e) => {
                        proof {
                            lemma_guide_err(md@, i + 1, sv.len() as int);
                        }
                        return Err(e);
                    },
                }
            },
            Segment::Extra { title, md: inner } => {
                match render_guide_segments(inner.as_str(), found) {
                    Ok(body) => {
                        let b = to_chars(body.as_str());
                        push_extra(&mut html, title.as_str(), &b);
                    },
                    Err(e) => {
                        proof {
                            lemma_guide_err(md@, i + 1, sv.len() as int);
                        }
                        return Err(e);
                    },
                }
            },
            Segment::App(m) => {
                push_app(&mut html, m.as_str());
            },
            Segment::Skip(inner) => {
                match render_guide_segments(inner.as_str(), found) {
                    Ok(body) => {
                        extend_str(&mut html, body.as_str());
                    },
                    Err(e) => {
                        proof {
                            lemma_guide_err(md@, i + 1, sv.len() as int);
                        }
                        return Err(e);
                    },
                }
            },
            Segment::Add { md: inner, visibility } => {
                if *visibility != Visibility::Slide {
                    match render_guide_segments(inner.as_str(), found) {
                        Ok(body) => {
                            extend_str(&mut html, body.as_str());
                        },
                        Err(e) => {
                            proof {
                                lemma_guide_err(md@, i + 1, sv.len() as int);
                            }
                            return Err(e);
                        },
                    }
                }
            },
            Segment::Slide { .. } => {
                proof {
                    lemma_guide_err(md@, i + 1, sv.len() as int);
                }
                return Err(Error::NestedSlide);
            },
            Segment::InlineSlide { .. } => {
                proof {
                    lemma_guide_err(md@, i + 1, sv.len() as int);
                }
                return Err(Error::NestedInlineSlide);
            },
            Segment::TitleSlide { .. } => {
                proof {
                    lemma_guide_err(md@, i + 1, sv.len() as int);
                }
                return Err(Error::NestedTitleSlide);
            },
        }
        i = i + 1;
    }
    Ok(from_chars(&html))
}

// ---------------------------------------------------------------------------
// Slide context
// ---------------------------------------------------------------------------

/// A body rendered in slide context, or the first error. Markdown expands
/// `{{name}}` references; solution, warning, info, extra and app blocks keep
/// their markup. `:::skip` content is dropped, except the `:::add` blocks
/// inside it that are not for the guide only; `skipping` says whether the
/// body lies inside such a skip. Slide directives are illegal here.
pub open spec fn slide_html(md: Seq<char>, anchors: AnchorList, skipping: bool) -> Result<
    Seq<char>,
    Error<Seq<char>>,
>
    decreases md.len(), 1int, 0int,
{
    match split_solutions_spec(md) {
        Err(e) => Err(e@),
        Ok(segs) => slide_fold(md, anchors, skipping, segs.len() as int),
    }
}

/// `h` followed by the result, or the error.
pub open spec fn then_append(h: Seq<char>, r: Result<Seq<char>, Error<Seq<char>>>) -> Result<
    Seq<char>,
    Error<Seq<char>>,
> {
    match r {
        Err(e) => Err(e),
        Ok(x) => Ok(h + x),
    }
}

pub open spec fn slide_fold(md: Seq<char>, anchors: AnchorList, skipping: bool, n: int) -> Result<
    Seq<char>,
    Error<Seq<char>>,
>
    decreases md.len(), 0int, n,
{
    let split = split_solutions_spec(md);
    if n <= 0 || split is Err || n > split.unwrap().len() {
        Ok(seq![])
    } else {
        match slide_fold(md, anchors, skipping, n - 1) {
            Err(e) => Err(e),
            Ok(h) => {
                let seg = split.unwrap()[n - 1];
                proof {
                    lemma_payload_shorter(md);
                    assert(payload(split.unwrap()[n - 1]) matches Some(m) ==> m.len() < md.len());
                }
                match seg {
                    Segment::Slide { .. } => Err(Error::NestedSlide),
                    Segment::InlineSlide { .. } => Err(Error::NestedInlineSlide),
                    Segment::TitleSlide { .. } => Err(Error::NestedTitleSlide),
                    Segment::Skip(inner) => then_append(h, slide_html(inner, anchors, true)),
                    Segment::Add { md: inner, visibility } => if visibility != Visibility::Guide {
                        then_append(h, slide_html(inner, anchors, false))
                    } else {
                        Ok(h)
                    },
                    Segment::Markdown(m) => if skipping {
                        Ok(h)
                    } else {
                        then_append(h, render_slide_spec(m, anchors))
                    },
                    Segment::Solution(inner) => if skipping {
                        Ok(h)
                    } else {
                        match slide_html(inner, anchors, false) {
                            Err(e) => Err(e),
                            Ok(ih) => Ok(h + solution_html(ih)),
                        }
                    },
                    Segment::Warning(inner) => if skipping {
                        Ok(h)
                    } else {
                        match slide_html(inner, anchors, false) {
                            Err(e) => Err(e),
                            Ok(ih) => Ok(h + warning_html(ih)),
                        }
                    },
                    Segment::Info(inner) => if skipping {
                        Ok(h)
                    } else {
                        match slide_html(inner, anchors, false) {
                            Err(e) => Err(e),
                            Ok(ih) => Ok(h + info_html(ih)),
                        }
                    },
                    Segment::Extra { title, md: inner } => if skipping {
                        Ok(h)
                    } else {
                        match slide_html(inner, anchors, false) {
                            Err(e) => Err(e),
                            Ok(ih) => Ok(h + extra_html(title, ih)),
                        }
                    },
                    Segment::App(m) => if skipping {
                        Ok(h)
                    } else {
                        Ok(h + app_html(m))
                    },
                }
            },
        }
    }
}

proof fn lemma_slide_fold_err(md: Seq<char>, anchors: AnchorList, skipping: bool, i: int, n: int)
    requires
        0 <= i <= n,
        split_solutions_spec(md) is Ok,
        n <= split_solutions_spec(md).unwrap().len(),
        slide_fold(md, anchors, skipping, i) is Err,
    ensures
        slide_fold(md, anchors, skipping, n) == slide_fold(md, anchors, skipping, i),
    decreases n - i,
{
    if i < n {
        lemma_slide_fold_err(md, anchors, skipping, i, n - 1);
    }
}

/// Renders a body in slide context (see [`slide_html`]).
fn render_slide_segments(md: &str, anchors: &Anchors, skipping: bool) -> (r: Result<String, Error>)
    ensures
        match slide_html(md@, anchors@, skipping) {
            Ok(h) => r matches Ok(s) && s@ == h,
            Err(e) => r matches Err(e2) && e2@ == e,
        },
    decreases md@.len(),
{
    let segs = match split_solutions(md) {
        Ok(v) => v,
        Err(e) => {
            return Err(e);
        },
    };
    let ghost sv = segments_view(segs@);
    proof {
        lemma_payload_shorter(md@);
    }
    let mut html: Vec<char> = Vec::new();
    let mut i: usize = 0;
    while i < segs.len()
        invariant
            i <= segs@.len(),
            sv == segments_view(segs@),
            split_solutions_spec(md@) == Ok::<Seq<Segment<Seq<char>>>, Error>(sv),
            forall|k: int| 0 <= k < sv.len() ==> (#[trigger] payload(sv[k]) matches Some(m) ==> m.len()
                < md@.len()),
            slide_fold(md@, anchors@, skipping, i as int) == Ok::<Seq<char>, Error<Seq<char>>>(html@),
        decreases segs@.len() - i,
    {
        assert(sv[i as int] == segs@[i as int]@);
        assert(payload(sv[i as int]) == payload(sv[i as int]));
        let mut failed: Option<Error> = None;
        match &segs[i] {
            Segment::Slide { .. } => {
                failed = Some(Error::NestedSlide);
            },
            Segment::InlineSlide { .. } => {
                failed = Some(Error::NestedInlineSlide);
            },
            Segment::TitleSlide { .. } => {
                failed = Some(Error::NestedTitleSlide);
            },
            Segment::Skip(inner) => {
                match render_slide_segments(inner.as_str(), anchors, true) {
                    Ok(body) => extend_str(&mut html, body.as_str()),
                    Err(e) => {
                        failed = Some(e);
                    },
                }
            },
            Segment::Add { md: inner, visibility } => {
                if *visibility != Visibility::Guide {
                    match render_slide_segments(inner.as_str(), anchors, false) {
                        Ok(body) => extend_str(&mut html, body.as_str()),
                        Err(e) => {
                            failed = Some(e);
                        },
                    }
                }
            },
            Segment::Markdown(m) => {
                if !skipping {
                    match render_slide(m.as_str(), anchors) {
                        Ok(body) => extend_str(&mut html, body.as_str()),
                        Err(e) => {
                            failed = Some(e);
                        },
                    }
                }
            },
            Segment::Solution(inner) => {
                if !skipping {
                    match render_slide_segments(inner.as_str(), anchors, false) {
                        Ok(body) => {
                            let b = to_chars(body.as_str());
                            push_solution(&mut html, &b);
                        },
                        Err(e) => {
                            failed = Some(e);
                        },
                    }
                }
            },
            Segment::Warning(inner) => {
                if !skipping {
                    match render_slide_segments(inner.as_str(), anchors, false) {
                        Ok(body) => {
                            let b = to_chars(body.as_str());
                            push_warning(&mut html, &b);
                        },
                        Err(e) => {
                            failed = Some(e);
                        },
                    }
                }
            },
            Segment::Info(inner) => {
                if !skipping {
                    match render_slide_segments(inner.as_str(), anchors, false) {
                        Ok(body) => {
                            let b = to_chars(body.as_str());
                            push_info(&mut html, &b);
                        },
                        Err(e) => {
                            failed = Some(e);
                        },
                    }
                }
            },
            Segment::Extra { title, md: inner } => {
                if !skipping {
                    match render_slide_segments(inner.as_str(), anchors, false) {
                        Ok(body) => {
                            let b = to_chars(body.as_str());
                            push_extra(&mut html, title.as_str(), &b);
                        },
                        Err(e) => {
                            failed = Some(e);
                        },
                    }
                }
            },
            Segment::App(m) => {
                if !skipping {
                    push_app(&mut html, m.as_str());
                }
            },
        }
        match failed {
            Some(e) => {
                proof {
                    lemma_slide_fold_err(md@, anchors@, skipping, i + 1, sv.len() as int);
                }
                return Err(e);
            },
            None => {},
        }
        i = i + 1;
    }
    Ok(from_chars(&html))
}

/// Renders a slide's Markdown, which may hold nested directives, in slide
/// context.
pub fn render_slide_content(md: &str, anchors: &Anchors) -> (r: Result<String, Error>)
    ensures
        match slide_html(md@, anchors@, false) {
            Ok(h) => r matches Ok(s) && s@ == h,
            Err(e) => r matches Err(e2) && e2@ == e,
        },
{
    render_slide_segments(md, anchors, false)
}

// ---------------------------------------------------------------------------
// The heading before an inline slide
// ---------------------------------------------------------------------------

/// The number of leading `#` characters of `s` from `i` on.
pub open spec fn hashes_from(s: Seq<char>, i: int) -> int
    decreases s.len() - i,
{
    if 0 <= i < s.len() && s[i] == '#' {
        1 + hashes_from(s, i + 1)
    } else {
        0
    }
}

/// An ATX heading line: one to six `#`, then a space.
pub open spec fn atx_heading(t: Seq<char>) -> bool {
    let k = hashes_from(t, 0);
    1 <= k <= 6 && k < t.len() && t[k] == ' '
}

pub open spec fn is_code_fence(t: Seq<char>) -> bool {
    starts_with(t, "```"@) || starts_with(t, "~~~"@)
}

/// Scanning lines for headings: inside a code fence or not, and the last
/// heading line seen (trimmed).
pub ghost struct HeadingScan {
    pub in_fence: bool,
    pub last: Option<Seq<char>>,
}

pub open spec fn heading_scan(ls: Seq<Seq<char>>) -> HeadingScan
    decreases ls.len(),
{
    if ls.len() == 0 {
        HeadingScan { in_fence: false, last: None }
    } else {
        let st = heading_scan(ls.drop_last());
        let t = trim(ls.last());
        if is_code_fence(t) {
            HeadingScan { in_fence: !st.in_fence, last: st.last }
        } else if st.in_fence {
            st
        } else if atx_heading(t) {
            HeadingScan { in_fence: st.in_fence, last: Some(t) }
        } else {
            st
        }
    }
}

/// The last ATX heading line of `md` (trimmed, Markdown kept verbatim),
/// skipping lines inside fenced code blocks.
pub open spec fn last_heading_spec(md: Seq<char>) -> Option<Seq<char>> {
    heading_scan(lines(md)).last
}

fn count_hashes(t: &[char]) -> (r: usize)
    ensures
        r == hashes_from(t@, 0),
        r <= t@.len(),
{
    let mut k: usize = 0;
    while k < t.len() && t[k] == '#'
        invariant
            k <= t@.len(),
            hashes_from(t@, 0) == k + hashes_from(t@, k as int),
        decreases t@.len() - k,
    {
        k = k + 1;
    }
    k
}

/// Returns the last ATX heading line in `md` (trimmed, Markdown kept
/// verbatim), skipping lines inside fenced code blocks.
pub fn last_heading_line(md: &str) -> (r: Option<String>)
    ensures
        match last_heading_spec(md@) {
            Some(h) => r matches Some(s) && s@ == h,
            None => r is None,
        },
{
    let chars = to_chars(md);
    let ls = lines_of(&chars);
    let ghost lv = ls@.map_values(|l: Vec<char>| l@);
    assert(lv =~= lines(md@));
    let mut in_fence = false;
    let mut last: Option<Vec<char>> = None;
    let mut i: usize = 0;
    assert(lv.take(0) =~= seq![]);
    proof {
        reveal_strlit("```");
        reveal_strlit("~~~");
    }
    while i < ls.len()
        invariant
            i <= ls@.len(),
            lv == ls@.map_values(|l: Vec<char>| l@),
            heading_scan(lv.take(i as int)) == (HeadingScan {
                in_fence,
                last: crate::slides::opt_view(last),
            }),
        decreases ls@.len() - i,
    {
        assert(lv.take(i + 1).drop_last() =~= lv.take(i as int));
        assert(lv[i as int] == ls@[i as int]@);
        let t = trim_chars(&ls[i]);
        if starts_with_str(t, "```") || starts_with_str(t, "~~~") {
            in_fence = !in_fence;
        } else if !in_fence {
            let k = count_hashes(t);
            if 1 <= k && k <= 6 && k < t.len() && t[k] == ' ' {
                let mut v: Vec<char> = Vec::new();
                extend_chars(&mut v, t);
                last = Some(v);
            }
        }
        i = i + 1;
    }
    assert(lv.take(ls@.len() as int) =~= lv);
    match last {
        Some(v) => Some(from_chars(&v)),
        None => None,
    }
}

// ---------------------------------------------------------------------------
// Whole section bodies
// ---------------------------------------------------------------------------

/// A section body rendered to HTML, plus metadata about its special blocks.
#[derive(Debug, Clone, PartialEq, Eq)]
pub struct RenderedBody {
    pub html: String,
    pub slide_html: Vec<SlideFragment>,
    pub uses_solutions: bool,
    pub uses_slides: bool,
    pub uses_mermaid: bool,
    pub uses_apps: bool,
}

/// The views of rendered slide fragments: their HTML and display variant.
pub open spec fn fragments_view(v: Seq<SlideFragment>) -> Seq<(Seq<char>, bool)> {
    v.map_values(|f: SlideFragment| (f.html@, f.light))
}

/// Rendering a body's top-level segments: the guide HTML, the slides, the
/// flags, and the last heading of the Markdown so far.
pub ghost struct BodyState {
    pub html: Seq<char>,
    pub slides: Seq<(Seq<char>, bool)>,
    pub uses_solutions: bool,
    pub uses_slides: bool,
    pub last_heading: Option<Seq<char>>,
}

/// The heading an inline slide `with-title` is prefixed with.
pub open spec fn heading_or_title(last: Option<Seq<char>>, title: Seq<char>) -> Seq<char> {
    match last {
        Some(h) => h,
        None => "## "@ + title,
    }
}

/// The Markdown an inline slide's slide copy renders.
pub open spec fn inline_slide_md(last: Option<Seq<char>>, title: Seq<char>, md: Seq<char>, with_title: bool) -> Seq<char> {
    if with_title {
        heading_or_title(last, title) + "\n\n"@ + md
    } else {
        md
    }
}

/// The guide part of a block: `wrap` applied to its guide HTML, the solution
/// flag updated.
pub open spec fn guide_into(
    st: BodyState,
    r: Result<(Seq<char>, bool), Error<Seq<char>>>,
    wrapped: spec_fn(Seq<char>) -> Seq<char>,
) -> Result<BodyState, Error<Seq<char>>> {
    match r {
        Err(e) => Err(e),
        Ok((ih, fi)) => Ok(
            BodyState { html: st.html + wrapped(ih), uses_solutions: st.uses_solutions || fi, ..st },
        ),
    }
}

#[verifier::opaque]
pub open spec fn body_step(
    title: Seq<char>,
    anchors: AnchorList,
    st: BodyState,
    seg: Segment<Seq<char>>,
) -> Result<BodyState, Error<Seq<char>>> {
    match seg {
        Segment::Markdown(md) => Ok(
            BodyState {
                html: st.html + render_markdown_spec(md),
                last_heading: if last_heading_spec(md) is Some {
                    last_heading_spec(md)
                } else {
                    st.last_heading
                },
                ..st
            },
        ),
        Segment::Solution(md) => match guide_html(md) {
            Err(e) => Err(e),
            Ok((ih, _)) => Ok(
                BodyState { html: st.html + solution_html(ih), uses_solutions: true, ..st },
            ),
        },
        Segment::Slide { md, light } => match slide_html(md, anchors, false) {
            Err(e) => Err(e),
            Ok(sh) => Ok(BodyState { slides: st.slides.push((sh, light)), uses_slides: true, ..st }),
        },
        Segment::InlineSlide { md, light, with_title } => match slide_html(
            inline_slide_md(st.last_heading, title, md, with_title),
            anchors,
            false,
        ) {
            Err(e) => Err(e),
            Ok(sh) => match guide_html(md) {
                Err(e) => Err(e),
                Ok((ih, fi)) => Ok(
                    BodyState {
                        html: st.html + ih,
                        slides: st.slides.push((sh, light)),
                        uses_solutions: st.uses_solutions || fi,
                        uses_slides: true,
                        last_heading: st.last_heading,
                    },
                ),
            },
        },
        Segment::TitleSlide { text } => Ok(
            BodyState {
                slides: st.slides.push(
                    (title_slide_html(if text.len() == 0 { title } else { text }), false),
                ),
                uses_slides: true,
                ..st
            },
        ),
        Segment::Warning(md) => guide_into(st, guide_html(md), |h: Seq<char>| warning_html(h)),
        Segment::Info(md) => guide_into(st, guide_html(md), |h: Seq<char>| info_html(h)),
        Segment::Extra { title: t, md } => guide_into(
            st,
            guide_html(md),
            |h: Seq<char>| extra_html(t, h),
        ),
        Segment::App(md) => Ok(BodyState { html: st.html + app_html(md), ..st }),
        Segment::Skip(md) => guide_into(st, guide_html(md), |h: Seq<char>| h),
        Segment::Add { md, visibility } => if visibility != Visibility::Slide {
            guide_into(st, guide_html(md), |h: Seq<char>| h)
        } else {
            Ok(st)
        },
    }
}

pub open spec fn body_fold(title: Seq<char>, anchors: AnchorList, segs: Seq<Segment<Seq<char>>>) -> Result<
    BodyState,
    Error<Seq<char>>,
>
    decreases segs.len(),
{
    if segs.len() == 0 {
        Ok(
            BodyState {
                html: seq![],
                slides: seq![],
                uses_solutions: false,
                uses_slides: false,
                last_heading: None,
            },
        )
    } else {
        match body_fold(title, anchors, segs.drop_last()) {
            Err(e) => Err(e),
            Ok(st) => body_step(title, anchors, st, segs.last()),
        }
    }
}

proof fn lemma_body_err(title: Seq<char>, anchors: AnchorList, segs: Seq<Segment<Seq<char>>>, i: int)
    requires
        0 <= i <= segs.len(),
        body_fold(title, anchors, segs.take(i)) is Err,
    ensures
        body_fold(title, anchors, segs) == body_fold(title, anchors, segs.take(i)),
    decreases segs.len() - i,
{
    if i < segs.len() {
        assert(segs.take(i + 1).drop_last() =~= segs.take(i));
        lemma_body_err(title, anchors, segs, i + 1);
    } else {
        assert(segs.take(i) =~= segs);
    }
}

/// The display variant of the slide a segment makes, if it makes one: the
/// fence's `light` for a slide or an inline slide, plain for a title slide.
pub open spec fn slide_light(seg: Segment<Seq<char>>) -> Option<bool> {
    match seg {
        Segment::Slide { light, .. } => Some(light),
        Segment::InlineSlide { light, .. } => Some(light),
        Segment::TitleSlide { .. } => Some(false),
        _ => None,
    }
}

/// The display variants of the slides the segments make, in order.
pub open spec fn slide_lights(segs: Seq<Segment<Seq<char>>>) -> Seq<bool>
    decreases segs.len(),
{
    if segs.len() == 0 {
        seq![]
    } else {
        slide_lights(segs.drop_last()) + match slide_light(segs.last()) {
            Some(l) => seq![l],
            None => Seq::<bool>::empty(),
        }
    }
}

/// A body's slides come one per slide, inline-slide and title-slide segment,
/// in segment order, each with its fence's display variant (a title slide is
/// plain); the slides flag is set exactly when there is a slide; and a slide
/// segment leaves the guide HTML as it was.
pub proof fn lemma_body_slides(title: Seq<char>, anchors: AnchorList, segs: Seq<Segment<Seq<char>>>)
    requires
        body_fold(title, anchors, segs) is Ok,
    ensures
        ({
            let st = body_fold(title, anchors, segs)->Ok_0;
            &&& st.slides.map_values(|p: (Seq<char>, bool)| p.1) == slide_lights(segs)
            &&& st.uses_slides == (st.slides.len() > 0)
            &&& segs.len() > 0 && segs.last() is Slide ==> st.html == body_fold(
                title,
                anchors,
                segs.drop_last(),
            )->Ok_0.html
        }),
    decreases segs.len(),
{
    if segs.len() > 0 {
        let prev = segs.drop_last();
        lemma_body_slides(title, anchors, prev);
        let st0 = body_fold(title, anchors, prev)->Ok_0;
        let st = body_fold(title, anchors, segs)->Ok_0;
        reveal(body_step);
        assert(st.slides.map_values(|p: (Seq<char>, bool)| p.1) =~= slide_lights(segs));
    } else {
        let st = body_fold(title, anchors, segs)->Ok_0;
        assert(st.slides.map_values(|p: (Seq<char>, bool)| p.1) =~= slide_lights(segs));
    }
}

/// Anchor extraction keeps every slide segment where it was: the slides the
/// extracted segments make are those the split segments make.
proof fn lemma_extract_keeps_slides(segs: Seq<Segment<Seq<char>>>)
    requires
        extract_fold(segs) is Ok,
    ensures
        slide_lights(extract_fold(segs)->Ok_0.out) == slide_lights(segs),
    decreases segs.len(),
{
    if segs.len() > 0 {
        let prev = segs.drop_last();
        lemma_extract_keeps_slides(prev);
        let st0 = extract_fold(prev)->Ok_0;
        let st = extract_fold(segs)->Ok_0;
        let pushed = match segs.last() {
            Segment::Markdown(md) => Segment::Markdown(strip_anchors_spec(md, st0.anchors)->Ok_0.out),
            _ => segs.last(),
        };
        assert(st.out == st0.out.push(pushed));
        assert(st.out.drop_last() =~= st0.out);
    }
}

/// What [`render_section_body`] gives for a body that renders: one slide
/// fragment per slide, inline-slide and title-slide segment that
/// [`crate::directives::split_solutions`] finds in the body, in order, each
/// with its fence's display variant (a title slide is plain), and the slides
/// flag set exactly when there is a fragment.
pub proof fn lemma_section_slides(title: Seq<char>, body: Seq<char>)
    requires
        section_body_spec(title, body) is Ok,
    ensures
        split_solutions_spec(body) is Ok,
        ({
            let st = section_body_spec(title, body)->Ok_0;
            let segs = split_solutions_spec(body)->Ok_0;
            &&& st.slides.map_values(|p: (Seq<char>, bool)| p.1) == slide_lights(segs)
            &&& st.uses_slides == (st.slides.len() > 0)
        }),
{
    let split = split_solutions_spec(body)->Ok_0;
    lemma_extract_keeps_slides(split);
    let (segs, anchors) = body_segments(body)->Ok_0;
    lemma_body_slides(title, anchors, segs);
}

pub open spec fn mermaid_marker() -> Seq<char> {
    "<pre class=\"mermaid\">"@
}

pub open spec fn app_marker() -> Seq<char> {
    "<div class=\"cb-app\">"@
}

/// The guide HTML or some slide holds `marker`.
pub open spec fn anywhere(html: Seq<char>, slides: Seq<(Seq<char>, bool)>, marker: Seq<char>) -> bool {
    contains(html, marker) || exists|i: int| 0 <= i < slides.len() && contains(#[trigger] slides[i].0, marker)
}

/// The top-level segments of a body that splits, with their anchors.
pub open spec fn body_segments(body: Seq<char>) -> Result<
    (Seq<Segment<Seq<char>>>, AnchorList),
    Error<Seq<char>>,
> {
    match split_solutions_spec(body) {
        Err(e) => Err(e@),
        Ok(segs) => extract_anchors_spec(segs),
    }
}

/// What rendering `body` under section title `title` produces.
pub open spec fn section_body_spec(title: Seq<char>, body: Seq<char>) -> Result<BodyState, Error<Seq<char>>> {
    match body_segments(body) {
        Err(e) => Err(e),
        Ok((segs, anchors)) => body_fold(title, anchors, segs),
    }
}


/// A body being rendered: the executable counterpart of [`BodyState`].
struct BodyAcc {
    html: Vec<char>,
    slides: Vec<SlideFragment>,
    uses_solutions: bool,
    uses_slides: bool,
    last_heading: Option<String>,
}

impl BodyAcc {
    spec fn state(&self) -> BodyState {
        BodyState {
            html: self.html@,
            slides: fragments_view(self.slides@),
            uses_solutions: self.uses_solutions,
            uses_slides: self.uses_slides,
            last_heading: match self.last_heading {
                Some(h) => Some(h@),
                None => None,
            },
        }
    }
}

fn push_fragment(slides: &mut Vec<SlideFragment>, html: String, light: bool)
    ensures
        fragments_view(final(slides)@) == fragments_view(old(slides)@).push((html@, light)),
{
    let ghost h = html@;
    slides.push(SlideFragment { html, light });
    assert(fragments_view(slides@) =~= fragments_view(old(slides)@).push((h, light)));
}

/// One top-level segment into the body being rendered.
#[verifier::rlimit(40)]
fn body_segment(title: &str, anchors: &Anchors, acc: &mut BodyAcc, seg: &Segment) -> (r: Result<(), Error>)
    ensures
        match body_step(title@, anchors@, old(acc).state(), seg@) {
            Ok(st) => r is Ok && final(acc).state() == st,
            Err(e) => r matches Err(e2) && e2@ == e,
        },
{
    reveal(body_step);
    match seg {
        Segment::Markdown(md) => {
            match last_heading_line(md.as_str()) {
                Some(h) => {
                    acc.last_heading = Some(h);
                },
                None => {},
            }
            let r = render_markdown(md.as_str());
            extend_str(&mut acc.html, r.as_str());
        },
        Segment::Solution(md) => {
            acc.uses_solutions = true;
            let inner = render_guide_segments(md.as_str(), &mut acc.uses_solutions)?;
            let b = to_chars(inner.as_str());
            push_solution(&mut acc.html, &b);
        },
        Segment::Slide { md, light } => {
            let sh = render_slide_content(md.as_str(), anchors)?;
            acc.uses_slides = true;
            push_fragment(&mut acc.slides, sh, *light);
        },
        Segment::InlineSlide { md, light, with_title } => {
            let mut slide_md: Vec<char> = Vec::new();
            if *with_title {
                match &acc.last_heading {
                    Some(h) => extend_str(&mut slide_md, h.as_str()),
                    None => {
                        extend_str(&mut slide_md, "## ");
                        extend_str(&mut slide_md, title);
                    },
                }
                extend_str(&mut slide_md, "\n\n");
            }
            extend_str(&mut slide_md, md.as_str());
            let slide_src = from_chars(&slide_md);
            let sh = render_slide_content(slide_src.as_str(), anchors)?;
            let inner = render_guide_segments(md.as_str(), &mut acc.uses_solutions)?;
            acc.uses_slides = true;
            push_fragment(&mut acc.slides, sh, *light);
            extend_str(&mut acc.html, inner.as_str());
        },
        Segment::TitleSlide { text } => {
            let label: &str = if text.as_str().unicode_len() == 0 {
                title
            } else {
                text.as_str()
            };
            let sh = render_title_slide(label);
            acc.uses_slides = true;
            push_fragment(&mut acc.slides, sh, false);
        },
        Segment::Warning(md) => {
            let inner = render_guide_segments(md.as_str(), &mut acc.uses_solutions)?;
            let b = to_chars(inner.as_str());
            push_warning(&mut acc.html, &b);
        },
        Segment::Info(md) => {
            let inner = render_guide_segments(md.as_str(), &mut acc.uses_solutions)?;
            let b = to_chars(inner.as_str());
            push_info(&mut acc.html, &b);
        },
        Segment::Extra { title: t, md } => {
            let inner = render_guide_segments(md.as_str(), &mut acc.uses_solutions)?;
            let b = to_chars(inner.as_str());
            push_extra(&mut acc.html, t.as_str(), &b);
        },
        Segment::App(md) => {
            push_app(&mut acc.html, md.as_str());
        },
        Segment::Skip(md) => {
            let inner = render_guide_segments(md.as_str(), &mut acc.uses_solutions)?;
            extend_str(&mut acc.html, inner.as_str());
        },
        Segment::Add { md, visibility } => {
            if *visibility != Visibility::Slide {
                let inner = render_guide_segments(md.as_str(), &mut acc.uses_solutions)?;
                extend_str(&mut acc.html, inner.as_str());
            }
        },
    }
    Ok(())
}

fn any_slide_contains(slides: &Vec<SlideFragment>, marker: &str) -> (r: bool)
    ensures
        r == exists|i: int| 0 <= i < slides@.len() && contains(
            #[trigger] fragments_view(slides@)[i].0,
            marker@,
        ),
{
    let ghost fv = fragments_view(slides@);
    let mut i: usize = 0;
    while i < slides.len()
        invariant
            i <= slides@.len(),
            fv == fragments_view(slides@),
            forall|j: int| 0 <= j < i ==> !contains(#[trigger] fv[j].0, marker@),
        decreases slides@.len() - i,
    {
        let h = to_chars(slides[i].html.as_str());
        if contains_str(&h, marker) {
            assert(contains(fv[i as int].0, marker@));
            return true;
        }
        i = i + 1;
    }
    false
}

/// Renders a section's Markdown body.
///
/// `::: solucion`, `::: warning`, `::: info`, and `::: extra` produce their
/// guide markup and nest freely. `:::slide` blocks are collected separately
/// and omitted from the guide HTML. `:::inline-slide` renders in both places;
/// with the `with-title` modifier its slide copy is prefixed with the nearest
/// heading found in the top-level Markdown above it (falling back to the
/// section `title`). `:::title-slide` produces a slide showing only the title
/// (or its own text). `:::skip` renders its content in the guide only;
/// `:::add` filters by visibility and, unless guide-only, escapes an
/// enclosing `:::skip` and still reaches the slide. Slide-family directives
/// are top-level only.
///
/// A line `{#name}` in top-level Markdown anchors the block that follows; a
/// line `{{name}}` inside a slide inserts the anchored Markdown (or an
/// exercise hero card).
pub fn render_section_body(title: &str, body: &str) -> (r: Result<RenderedBody, Error>)
    ensures
        match section_body_spec(title@, body@) {
            Ok(st) => r matches Ok(b) && b.html@ == st.html && fragments_view(b.slide_html@)
                == st.slides && b.uses_solutions == st.uses_solutions && b.uses_slides
                == st.uses_slides && b.uses_mermaid == anywhere(st.html, st.slides, mermaid_marker())
                && b.uses_apps == anywhere(st.html, st.slides, app_marker()),
            Err(e) => r matches Err(e2) && e2@ == e,
        },
{
    let split = match split_solutions(body) {
        Ok(v) => v,
        Err(e) => {
            return Err(e);
        },
    };
    let (segs, anchors) = match extract_anchors(split) {
        Ok(x) => x,
        Err(e) => {
            return Err(e);
        },
    };
    let ghost sv = segments_view(segs@);
    let mut acc = BodyAcc {
        html: Vec::new(),
        slides: Vec::new(),
        uses_solutions: false,
        uses_slides: false,
        last_heading: None,
    };
    let mut i: usize = 0;
    assert(sv.take(0) =~= seq![]);
    assert(fragments_view(acc.slides@) =~= seq![]);
    while i < segs.len()
        invariant
            i <= segs@.len(),
            sv == segments_view(segs@),
            body_segments(body@) == Ok::<(Seq<Segment<Seq<char>>>, AnchorList), Error<Seq<char>>>((sv, anchors@)),
            body_fold(title@, anchors@, sv.take(i as int)) == Ok::<BodyState, Error<Seq<char>>>(acc.state()),
        decreases segs@.len() - i,
    {
        assert(sv.take(i + 1).drop_last() =~= sv.take(i as int));
        assert(sv[i as int] == segs@[i as int]@);
        match body_segment(title, &anchors, &mut acc, &segs[i]) {
            Ok(()) => {},
            Err(e) => {
                proof {
                    lemma_body_err(title@, anchors@, sv, i + 1);
                }
                return Err(e);
            },
        }
        i = i + 1;
    }
    assert(sv.take(segs@.len() as int) =~= sv);
    proof {
        reveal_strlit("<pre class=\"mermaid\">");
        reveal_strlit("<div class=\"cb-app\">");
    }
    let uses_mermaid = contains_str(&acc.html, "<pre class=\"mermaid\">") || any_slide_contains(
        &acc.slides,
        "<pre class=\"mermaid\">",
    );
    let uses_apps = contains_str(&acc.html, "<div class=\"cb-app\">") || any_slide_contains(
        &acc.slides,
        "<div class=\"cb-app\">",
    );
    Ok(
        RenderedBody {
            html: from_chars(&acc.html),
            slide_html: acc.slides,
            uses_solutions: acc.uses_solutions,
            uses_slides: acc.uses_slides,
            uses_mermaid,
            uses_apps,
        },
    )
}

} // verus!
