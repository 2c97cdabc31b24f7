//! Pure helpers backing the development hot-reload mode: they map names,
//! filter paths, and transform already-rendered HTML.
use vstd::prelude::*;

use crate::render::{entries_map, lemma_entries_map_key, lemma_unique_entry, unique_keys, PageMap, RenderedSite};
use crate::text::{ends_with, eq_str, extend_chars, extend_str, find, find_chars, from_chars, to_chars};

verus! {

/// A text asset the dev server may re-read from disk instead of serving the
/// copy embedded at compile time.
#[derive(Debug, Clone, Copy, PartialEq, Eq)]
pub struct TextAsset {
    /// The `Content-Type` header value the shell must send.
    pub content_type: &'static str,
    /// Path of the source file, relative to the repository root.
    pub repo_path: &'static str,
}

pub const JS: &'static str = "application/javascript; charset=utf-8";

pub const CSS: &'static str = "text/css; charset=utf-8";

/// The tag injected into every page while dev mode is on.
pub const DEV_RELOAD_SCRIPT_TAG: &'static str = "<script src=\"/static/dev-reload.js\"></script>\n";

/// The hot-reloadable source of a `/static/{file}` name: its content type and
/// repository path.
pub open spec fn text_asset_spec(file: Seq<char>) -> Option<(Seq<char>, Seq<char>)> {
    if file == "guide.css"@ {
        Some((CSS@, "crates/server/static/guide.css"@))
    } else if file == "slides.css"@ {
        Some((CSS@, "crates/server/static/slides.css"@))
    } else if file == "cb-widgets.css"@ {
        Some((CSS@, "crates/server/static/cb-widgets.css"@))
    } else if file == "apps.js"@ {
        Some((JS@, "crates/server/static/apps.js"@))
    } else if file == "toggle.js"@ {
        Some((JS@, "crates/server/static/toggle.js"@))
    } else if file == "shiki-init.js"@ {
        Some((JS@, "crates/server/static/shiki-init.js"@))
    } else if file == "mermaid-init.js"@ {
        Some((JS@, "crates/server/static/mermaid-init.js"@))
    } else if file == "vars.js"@ {
        Some((JS@, "crates/server/static/vars.js"@))
    } else {
        None
    }
}

fn asset(content_type: &'static str, repo_path: &'static str) -> (r: Option<TextAsset>)
    ensures
        r == Some(TextAsset { content_type, repo_path }),
{
    Some(TextAsset { content_type, repo_path })
}

/// Maps a `/static/{file}` name to its hot-reloadable source file.
///
/// Returns `None` for binary assets, for vendored bundles that are never
/// hand-edited, and for unknown names. Acting as a whitelist, it is also what
/// keeps the shell from reading an arbitrary path off the request.
pub fn text_asset(file: &str) -> (r: Option<TextAsset>)
    ensures
        match r {
            Some(a) => text_asset_spec(file@) == Some((a.content_type@, a.repo_path@)),
            None => text_asset_spec(file@) is None,
        },
{
    let f = to_chars(file);
    if eq_str(&f, "guide.css") {
        asset(CSS, "crates/server/static/guide.css")
    } else if eq_str(&f, "slides.css") {
        asset(CSS, "crates/server/static/slides.css")
    } else if eq_str(&f, "cb-widgets.css") {
        asset(CSS, "crates/server/static/cb-widgets.css")
    } else if eq_str(&f, "apps.js") {
        asset(JS, "crates/server/static/apps.js")
    } else if eq_str(&f, "toggle.js") {
        asset(JS, "crates/server/static/toggle.js")
    } else if eq_str(&f, "shiki-init.js") {
        asset(JS, "crates/server/static/shiki-init.js")
    } else if eq_str(&f, "mermaid-init.js") {
        asset(JS, "crates/server/static/mermaid-init.js")
    } else if eq_str(&f, "vars.js") {
        asset(JS, "crates/server/static/vars.js")
    } else {
        None
    }
}

/// The index of the last `c` in `s`, or -1.
pub open spec fn last_index(s: Seq<char>, c: char) -> int
    decreases s.len(),
{
    if s.len() == 0 {
        -1
    } else if s.last() == c {
        s.len() - 1
    } else {
        last_index(s.drop_last(), c)
    }
}

/// What follows the last `c` in `s`, or all of `s`.
pub open spec fn after_last(s: Seq<char>, c: char) -> Seq<char> {
    s.subrange(last_index(s, c) + 1, s.len() as int)
}

pub(crate) proof fn lemma_last_index(s: Seq<char>, c: char)
    ensures
        -1 <= last_index(s, c) < s.len(),
        last_index(s, c) >= 0 ==> s[last_index(s, c)] == c,
        forall|j: int| last_index(s, c) < j < s.len() ==> s[j] != c,
    decreases s.len(),
{
    if s.len() > 0 && s.last() != c {
        lemma_last_index(s.drop_last(), c);
        assert forall|j: int| last_index(s, c) < j < s.len() implies s[j] != c by {
            if j < s.len() - 1 {
                assert(s.drop_last()[j] == s[j]);
            }
        }
    }
}

/// A path whose file name is not hidden and ends in `.md`, `.toml`, `.css` or
/// `.js`.
pub open spec fn is_reload_trigger_spec(path: Seq<char>) -> bool {
    let name = after_last(path, '/');
    if name.len() > 0 && name[0] == '.' {
        false
    } else if last_index(name, '.') < 0 {
        false
    } else {
        let ext = after_last(name, '.');
        ext == "md"@ || ext == "toml"@ || ext == "css"@ || ext == "js"@
    }
}

fn last_index_of(s: &[char], c: char) -> (r: Option<usize>)
    ensures
        match r {
            Some(k) => last_index(s@, c) == k,
            None => last_index(s@, c) == -1,
        },
{
    let mut i = s.len();
    assert(s@.take(s@.len() as int) =~= s@);
    while i > 0
        invariant
            i <= s@.len(),
            last_index(s@, c) == last_index(s@.take(i as int), c),
        decreases i,
    {
        assert(s@.take(i as int).drop_last() =~= s@.take(i - 1));
        if s[i - 1] == c {
            return Some(i - 1);
        }
        i = i - 1;
    }
    None
}

fn after_last_of(s: &[char], c: char) -> (r: &[char])
    ensures
        r@ == after_last(s@, c),
{
    proof {
        lemma_last_index(s@, c);
    }
    match last_index_of(s, c) {
        Some(k) => {
            assert(k < s.len());
            &s[k + 1..s.len()]
        },
        None => s,
    }
}

/// Decides whether a changed path should trigger a reload.
///
/// Editors write throwaway files beside the real one, so only the four
/// hand-edited extensions qualify, and hidden files never do.
pub fn is_reload_trigger(path: &str) -> (r: bool)
    ensures
        r == is_reload_trigger_spec(path@),
{
    let p = to_chars(path);
    let name = after_last_of(&p, '/');
    if name.len() > 0 && name[0] == '.' {
        return false;
    }
    match last_index_of(name, '.') {
        None => false,
        Some(_) => {
            let ext = after_last_of(name, '.');
            eq_str(ext, "md") || eq_str(ext, "toml") || eq_str(ext, "css") || eq_str(ext, "js")
        },
    }
}

pub open spec fn head_close() -> Seq<char> {
    "</head>"@
}

/// `html` with `snippet` inserted immediately before its first `</head>`.
pub open spec fn inject_spec(html: Seq<char>, snippet: Seq<char>) -> Option<Seq<char>> {
    match find(html, head_close()) {
        Some(at) => Some(html.subrange(0, at) + snippet + html.subrange(at, html.len() as int)),
        None => None,
    }
}

/// Inserts `snippet` immediately before the first `</head>` of `html`.
///
/// Returns `None` when the document has no `</head>`, so the caller can report
/// a failed injection rather than silently serve a page with no reload client.
pub fn inject_before_head_close(html: &str, snippet: &str) -> (r: Option<String>)
    ensures
        match inject_spec(html@, snippet@) {
            Some(h) => r matches Some(s) && s@ == h,
            None => r is None,
        },
{
    let h = to_chars(html);
    let marker = to_chars("</head>");
    match find_chars(&h, &marker) {
        Some(at) => {
            let mut out: Vec<char> = Vec::new();
            extend_chars(&mut out, &h[0..at]);
            extend_str(&mut out, snippet);
            extend_chars(&mut out, &h[at..h.len()]);
            assert(out@ =~= h@.subrange(0, at as int) + snippet@ + h@.subrange(at as int, h@.len() as int));
            Some(from_chars(&out))
        },
        None => None,
    }
}

/// The page after injection, or the page as it was.
pub open spec fn injected_or_same(html: Seq<char>, snippet: Seq<char>) -> Seq<char> {
    match inject_spec(html, snippet) {
        Some(h) => h,
        None => html,
    }
}

/// Injects into `html`, recording `key` when the document has no `</head>`.
fn inject_or_skip(html: String, snippet: &str, key: &str, skipped: &mut Vec<String>) -> (r: String)
    ensures
        r@ == injected_or_same(html@, snippet@),
        inject_spec(html@, snippet@) is Some ==> final(skipped)@ == old(skipped)@,
        inject_spec(html@, snippet@) is None ==> final(skipped)@.len() == old(skipped)@.len() + 1
            && final(skipped)@.drop_last() == old(skipped)@ && final(skipped)@.last()@ == key@,
{
    match inject_before_head_close(html.as_str(), snippet) {
        Some(injected) => injected,
        None => {
            let ghost before = skipped@;
            skipped.push(key.to_owned());
            assert(skipped@.drop_last() =~= before);
            html
        },
    }
}

/// The keys of the entries whose pages carry no `</head>`, in order.
pub open spec fn skipped_keys(es: Seq<(String, String)>, snippet: Seq<char>) -> Seq<Seq<char>>
    decreases es.len(),
{
    if es.len() == 0 {
        seq![]
    } else {
        skipped_keys(es.drop_last(), snippet) + if inject_spec(es.last().1@, snippet) is None {
            seq![es.last().0@]
        } else {
            seq![]
        }
    }
}

/// Applies [`inject_before_head_close`] to every page of a rendered site.
///
/// Returns the transformed site, and the keys of the pages that carried no
/// `</head>`, which are left untouched: `index` for the index, `not-found`
/// for the 404 page, then the page keys.
pub fn with_dev_script(site: RenderedSite, snippet: &str) -> (r: (RenderedSite, Vec<String>))
    ensures
        r.0.index_html@ == injected_or_same(site.index_html@, snippet@),
        r.0.not_found_html@ == injected_or_same(site.not_found_html@, snippet@),
        r.0.pages@.dom() == site.pages@.dom(),
        forall|k: Seq<char>| #[trigger] site.pages@.contains_key(k) ==> r.0.pages@[k] == injected_or_same(
            site.pages@[k],
            snippet@,
        ),
        r.1@.map_values(|s: String| s@) == (if inject_spec(site.index_html@, snippet@) is None {
            seq!["index"@]
        } else {
            seq![]
        }) + (if inject_spec(site.not_found_html@, snippet@) is None {
            seq!["not-found"@]
        } else {
            seq![]
        }) + skipped_keys(site.pages.entry_list(), snippet@),
{
    let mut skipped: Vec<String> = Vec::new();
    let RenderedSite { index_html, pages, not_found_html } = site;
    let ghost idx = index_html@;
    let ghost nf = not_found_html@;
    let index_html = inject_or_skip(index_html, snippet, "index", &mut skipped);
    let not_found_html = inject_or_skip(not_found_html, snippet, "not-found", &mut skipped);
    let ghost head = skipped@.map_values(|s: String| s@);
    assert(head == (if inject_spec(idx, snippet@) is None {
        seq!["index"@]
    } else {
        seq![]
    }) + (if inject_spec(nf, snippet@) is None {
        seq!["not-found"@]
    } else {
        seq![]
    }));
    let es = pages.entries();
    let ghost ev = es@;
    let mut out = PageMap::new();
    let mut i: usize = 0;
    assert(ev.take(0) =~= seq![]);
    while i < es.len()
        invariant
            i <= ev.len(),
            ev == es@,
            unique_keys(ev),
            entries_map(ev) == pages@,
            skipped@.map_values(|s: String| s@) == head + skipped_keys(ev.take(i as int), snippet@),
            out@.dom() == entries_map(ev.take(i as int)).dom(),
            forall|k: Seq<char>| #[trigger] out@.contains_key(k) ==> exists|j: int| 0 <= j < i && ev[j].0@ == k && out@[k] == injected_or_same(ev[j].1@, snippet@),
        decreases ev.len() - i,
    {
        assert(ev.take(i + 1).drop_last() =~= ev.take(i as int));
        let ghost prev_out = out@;
        let ghost prev_skipped = skipped@;
        let page = inject_or_skip(es[i].1.clone(), snippet, es[i].0.as_str(), &mut skipped);
        let ghost pv = page@;
        out.insert(es[i].0.clone(), page);
        assert(skipped@.map_values(|s: String| s@) =~= head + skipped_keys(ev.take(i + 1), snippet@)) by {
            if inject_spec(ev[i as int].1@, snippet@) is None {
                assert(skipped@.map_values(|s: String| s@) =~= prev_skipped.map_values(|s: String| s@).push(ev[i as int].0@));
            }
        }
        assert forall|k: Seq<char>| #[trigger] out@.contains_key(k) implies exists|j: int| 0 <= j < i + 1 && ev[j].0@ == k && out@[k] == injected_or_same(ev[j].1@, snippet@) by {
            if k != ev[i as int].0@ {
                assert(prev_out.contains_key(k));
            }
        }
        i = i + 1;
    }
    assert(ev.take(ev.len() as int) =~= ev);
    proof {
        assert forall|k: Seq<char>| #[trigger] pages@.contains_key(k) implies out@[k] == injected_or_same(pages@[k], snippet@) by {
            let j = choose|j: int| 0 <= j < ev.len() && ev[j].0@ == k && out@[k] == injected_or_same(ev[j].1@, snippet@);
            lemma_unique_entry(ev, j);
        }
    }
    (RenderedSite { index_html, pages: out, not_found_html }, skipped)
}

} // verus!
