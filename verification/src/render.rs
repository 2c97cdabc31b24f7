//! HTML rendering of the course pages.
use vstd::prelude::*;

use crate::assets::{PageAssets, REVEAL_CSS_PATH, REVEAL_JS_PATH, SLIDES_CSS_PATH, strings_view};
use crate::catalog::LoadedCourse;
use crate::course::{Course, GuideSection, Session, is_kebab};
use crate::directives::SlideFragment;
use crate::text::{concat, decimal, extend_chars, extend_str, from_chars, occurs_at, push_decimal, to_chars};

verus! {

// ---------------------------------------------------------------------------
// Escaping
// ---------------------------------------------------------------------------

/// The escaped form of one character.
pub open spec fn escape_char(c: char) -> Seq<char> {
    if c == '&' {
        seq!['&', 'a', 'm', 'p', ';']
    } else if c == '<' {
        seq!['&', 'l', 't', ';']
    } else if c == '>' {
        seq!['&', 'g', 't', ';']
    } else if c == '"' {
        seq!['&', 'q', 'u', 'o', 't', ';']
    } else if c == '\'' {
        seq!['&', '#', '3', '9', ';']
    } else {
        seq![c]
    }
}

/// `s` with its five HTML-significant characters escaped.
pub open spec fn escape(s: Seq<char>) -> Seq<char>
    decreases s.len(),
{
    if s.len() == 0 {
        seq![]
    } else {
        escape(s.drop_last()) + escape_char(s.last())
    }
}

pub open spec fn is_html_special(c: char) -> bool {
    c == '&' || c == '<' || c == '>' || c == '"' || c == '\''
}

/// Appends the escaped form of `raw` to `out`.
pub fn push_escaped_chars(out: &mut Vec<char>, raw: &[char])
    ensures
        final(out)@ == old(out)@ + escape(raw@),
{
    let ghost start = out@;
    let mut i: usize = 0;
    assert(escape(raw@.take(0)) =~= seq![]);
    while i < raw.len()
        invariant
            i <= raw@.len(),
            out@ == start + escape(raw@.take(i as int)),
        decreases raw@.len() - i,
    {
        let c = raw[i];
        if c == '&' {
            out.push('&');
            out.push('a');
            out.push('m');
            out.push('p');
            out.push(';');
        } else if c == '<' {
            out.push('&');
            out.push('l');
            out.push('t');
            out.push(';');
        } else if c == '>' {
            out.push('&');
            out.push('g');
            out.push('t');
            out.push(';');
        } else if c == '"' {
            out.push('&');
            out.push('q');
            out.push('u');
            out.push('o');
            out.push('t');
            out.push(';');
        } else if c == '\'' {
            out.push('&');
            out.push('#');
            out.push('3');
            out.push('9');
            out.push(';');
        } else {
            out.push(c);
        }
        assert(raw@.take(i + 1).drop_last() =~= raw@.take(i as int));
        assert(out@ =~= start + escape(raw@.take(i + 1)));
        i = i + 1;
    }
    assert(raw@.take(raw@.len() as int) =~= raw@);
}

/// Appends the escaped form of `raw` to `out`.
pub fn push_escaped(out: &mut Vec<char>, raw: &str)
    ensures
        final(out)@ == old(out)@ + escape(raw@),
{
    let v = to_chars(raw);
    push_escaped_chars(out, &v);
}

/// Escapes the five HTML-significant characters in `raw`.
pub fn escape_html(raw: &str) -> (r: String)
    ensures
        r@ == escape(raw@),
{
    let mut out: Vec<char> = Vec::new();
    push_escaped(&mut out, raw);
    assert(out@ =~= escape(raw@));
    from_chars(&out)
}

/// Escaping distributes over concatenation.
pub proof fn lemma_escape_concat(a: Seq<char>, b: Seq<char>)
    ensures
        escape(a + b) == escape(a) + escape(b),
    decreases b.len(),
{
    if b.len() == 0 {
        assert(a + b =~= a);
        assert(escape(a) + escape(b) =~= escape(a));
    } else {
        lemma_escape_concat(a, b.drop_last());
        assert((a + b).drop_last() =~= a + b.drop_last());
        assert(escape(a) + escape(b.drop_last()) + escape_char(b.last()) =~= escape(a) + (escape(
            b.drop_last(),
        ) + escape_char(b.last())));
    }
}

/// Escaped text holds no `<`, `>`, `"`, or `'`, so it can neither open a tag
/// nor close an attribute value.
pub proof fn lemma_escape_is_inert(s: Seq<char>)
    ensures
        forall|i: int|
            0 <= i < escape(s).len() ==> {
                let c = #[trigger] escape(s)[i];
                c != '<' && c != '>' && c != '"' && c != '\''
            },
    decreases s.len(),
{
    if s.len() > 0 {
        lemma_escape_is_inert(s.drop_last());
        let e = escape(s.drop_last());
        let t = escape_char(s.last());
        assert forall|i: int| 0 <= i < escape(s).len() implies {
            let c = #[trigger] escape(s)[i];
            c != '<' && c != '>' && c != '"' && c != '\''
        } by {
            if i < e.len() {
                assert(escape(s)[i] == e[i]);
            } else {
                assert(escape(s)[i] == t[i - e.len()]);
            }
        }
    }
}

/// Text with none of the five special characters escapes to itself.
pub proof fn lemma_escape_plain(s: Seq<char>)
    requires
        forall|i: int| 0 <= i < s.len() ==> !is_html_special(#[trigger] s[i]),
    ensures
        escape(s) == s,
    decreases s.len(),
{
    if s.len() > 0 {
        lemma_escape_plain(s.drop_last());
        assert(!is_html_special(s[s.len() - 1]));
        assert(s.drop_last() + seq![s.last()] =~= s);
    }
}

// ---------------------------------------------------------------------------
// Page chrome
// ---------------------------------------------------------------------------

/// URL of the embedded brand logo.
pub const LOGO_PATH: &'static str = "/static/cloudbridge.png";

/// URL of the all-white brand logo, for the dark footer.
pub const LOGO_WHITE_PATH: &'static str = "/static/cloudbridge-white.png";

pub open spec fn link_line(href: Seq<char>) -> Seq<char> {
    "<link rel=\"stylesheet\" href=\""@ + escape(href) + "\">\n"@
}

pub open spec fn script_line(src: Seq<char>) -> Seq<char> {
    "<script defer src=\""@ + escape(src) + "\"></script>\n"@
}

/// The `<head>` references for a page's assets: stylesheets, then scripts.
pub open spec fn head_assets_spec(styles: Seq<Seq<char>>, scripts: Seq<Seq<char>>) -> Seq<char> {
    concat(styles.map_values(|h: Seq<char>| link_line(h))) + concat(
        scripts.map_values(|s: Seq<char>| script_line(s)),
    )
}

pub proof fn lemma_concat_step(parts: Seq<Seq<char>>, i: int)
    requires
        0 <= i < parts.len(),
    ensures
        concat(parts.take(i + 1)) == concat(parts.take(i)) + parts[i],
{
    assert(parts.take(i + 1).drop_last() =~= parts.take(i));
}

fn render_head_assets(assets: &PageAssets) -> (r: Vec<char>)
    ensures
        r@ == head_assets_spec(assets.style_list(), assets.script_list()),
{
    let mut out: Vec<char> = Vec::new();
    let ghost links = assets.style_list().map_values(|h: Seq<char>| link_line(h));
    let ghost scripts = assets.script_list().map_values(|s: Seq<char>| script_line(s));
    let mut i: usize = 0;
    assert(concat(links.take(0)) =~= seq![]);
    while i < assets.styles.len()
        invariant
            i <= assets.styles@.len(),
            links == assets.style_list().map_values(|h: Seq<char>| link_line(h)),
            out@ == concat(links.take(i as int)),
        decreases assets.styles@.len() - i,
    {
        extend_str(&mut out, "<link rel=\"stylesheet\" href=\"");
        push_escaped(&mut out, assets.styles[i].as_str());
        extend_str(&mut out, "\">\n");
        proof {
            lemma_concat_step(links, i as int);
            assert(links[i as int] == link_line(assets.styles@[i as int]@));
            assert(out@ =~= concat(links.take(i + 1)));
        }
        i = i + 1;
    }
    assert(links.take(i as int) =~= links);
    let ghost first = out@;
    let mut j: usize = 0;
    assert(concat(scripts.take(0)) =~= seq![]);
    while j < assets.scripts.len()
        invariant
            j <= assets.scripts@.len(),
            scripts == assets.script_list().map_values(|s: Seq<char>| script_line(s)),
            out@ == first + concat(scripts.take(j as int)),
        decreases assets.scripts@.len() - j,
    {
        extend_str(&mut out, "<script defer src=\"");
        push_escaped(&mut out, assets.scripts[j].as_str());
        extend_str(&mut out, "\"></script>\n");
        proof {
            lemma_concat_step(scripts, j as int);
            assert(scripts[j as int] == script_line(assets.scripts@[j as int]@));
            assert(out@ =~= first + concat(scripts.take(j + 1)));
        }
        j = j + 1;
    }
    assert(scripts.take(j as int) =~= scripts);
    out
}

pub open spec fn header_spec() -> Seq<char> {
    "<header class=\"cb-header\">\n<a href=\"/\" aria-label=\"CloudBridge\"><img src=\""@
        + LOGO_PATH@
        + "\" alt=\"CloudBridge\" width=\"180\" height=\"40\"></a>\n</header>\n<div class=\"cb-strip\"></div>\n"@
}

pub open spec fn footer_spec() -> Seq<char> {
    "<footer class=\"cb-footer\">\n<img src=\""@ + LOGO_WHITE_PATH@
        + "\" alt=\"CloudBridge\" width=\"110\" height=\"24\"><span>© Cloud Bridge SAS</span>\n</footer>\n"@
}

/// The script that shows the back-to-top button once the page scrolls.
pub const TOP_BUTTON_HTML: &'static str = "<a href=\"#top\" id=\"cb-top-btn\" aria-label=\"Volver arriba\">↑</a>\n<script>var b=document.getElementById('cb-top-btn'),f=document.querySelector('.cb-footer');window.addEventListener('scroll',function(){b.classList.toggle('cb-top-visible',scrollY>300);});new IntersectionObserver(function(e){b.style.bottom=e[0].isIntersecting?(f.offsetHeight+12)+'px':'';}).observe(f);</script>\n</body>\n</html>\n";

/// A complete page: the document head, the brand header, `main_html`, and
/// the brand footer.
pub open spec fn page_spec(
    lang: Seq<char>,
    title_html: Seq<char>,
    head_extra: Seq<char>,
    main_html: Seq<char>,
) -> Seq<char> {
    "<!doctype html>\n<html id=\"top\" lang=\""@ + lang
        + "\">\n<head>\n<meta charset=\"utf-8\">\n<meta name=\"viewport\" content=\"width=device-width, initial-scale=1\">\n<title>"@
        + title_html + "</title>\n"@ + head_extra + "</head>\n<body>\n"@ + header_spec()
        + "<main>\n"@ + main_html + "</main>\n"@ + footer_spec() + TOP_BUTTON_HTML@
}

fn push_header(out: &mut Vec<char>)
    ensures
        final(out)@ == old(out)@ + header_spec(),
{
    extend_str(out, "<header class=\"cb-header\">\n<a href=\"/\" aria-label=\"CloudBridge\"><img src=\"");
    extend_str(out, LOGO_PATH);
    extend_str(out, "\" alt=\"CloudBridge\" width=\"180\" height=\"40\"></a>\n</header>\n<div class=\"cb-strip\"></div>\n");
    assert(final(out)@ =~= old(out)@ + header_spec());
}

fn push_footer(out: &mut Vec<char>)
    ensures
        final(out)@ == old(out)@ + footer_spec(),
{
    extend_str(out, "<footer class=\"cb-footer\">\n<img src=\"");
    extend_str(out, LOGO_WHITE_PATH);
    extend_str(out, "\" alt=\"CloudBridge\" width=\"110\" height=\"24\"><span>© Cloud Bridge SAS</span>\n</footer>\n");
    assert(final(out)@ =~= old(out)@ + footer_spec());
}

fn page(lang: &str, title_html: &[char], head_extra: &[char], main_html: &[char]) -> (r: String)
    ensures
        r@ == page_spec(lang@, title_html@, head_extra@, main_html@),
{
    let mut out: Vec<char> = Vec::new();
    extend_str(&mut out, "<!doctype html>\n<html id=\"top\" lang=\"");
    extend_str(&mut out, lang);
    extend_str(&mut out, "\">\n<head>\n<meta charset=\"utf-8\">\n<meta name=\"viewport\" content=\"width=device-width, initial-scale=1\">\n<title>");
    extend_chars(&mut out, title_html);
    extend_str(&mut out, "</title>\n");
    extend_chars(&mut out, head_extra);
    extend_str(&mut out, "</head>\n<body>\n");
    push_header(&mut out);
    extend_str(&mut out, "<main>\n");
    extend_chars(&mut out, main_html);
    extend_str(&mut out, "</main>\n");
    push_footer(&mut out);
    extend_str(&mut out, TOP_BUTTON_HTML);
    assert(out@ =~= page_spec(lang@, title_html@, head_extra@, main_html@));
    from_chars(&out)
}

// ---------------------------------------------------------------------------
// Course tree
// ---------------------------------------------------------------------------

pub open spec fn section_link(cs: Seq<char>, ss: Seq<char>, n: nat, title: Seq<char>) -> Seq<char> {
    "<li><a href=\"/courses/"@ + cs + "/"@ + ss + "#seccion-"@ + decimal(n) + "\">"@ + escape(title)
        + "</a></li>\n"@
}

/// One link per section, numbered from 1.
pub open spec fn section_links(cs: Seq<char>, ss: Seq<char>, secs: Seq<GuideSection>) -> Seq<char>
    decreases secs.len(),
{
    if secs.len() == 0 {
        seq![]
    } else {
        section_links(cs, ss, secs.drop_last()) + section_link(cs, ss, secs.len(), secs.last().title@)
    }
}

pub open spec fn tree_session(cs: Seq<char>, s: Session) -> Seq<char> {
    let ss = escape(s.slug@);
    "<li class=\"cb-tree-session\"><a href=\"/courses/"@ + cs + "/"@ + ss + "\">"@ + escape(s.title@)
        + "</a>\n<ul>\n"@ + section_links(cs, ss, s.sections@) + "</ul>\n</li>\n"@
}

pub open spec fn tree_sessions(cs: Seq<char>, sessions: Seq<Session>) -> Seq<char>
    decreases sessions.len(),
{
    if sessions.len() == 0 {
        seq![]
    } else {
        tree_sessions(cs, sessions.drop_last()) + tree_session(cs, sessions.last())
    }
}

pub open spec fn tree_course(c: LoadedCourse) -> Seq<char> {
    "<li><details class=\"cb-tree-course\" open><summary>"@ + escape(c.course.title@)
        + "</summary>\n<ul>\n"@ + tree_sessions(escape(c.course.slug@), c.course.sessions@)
        + "</ul>\n</details></li>\n"@
}

pub open spec fn tree_courses(courses: Seq<LoadedCourse>) -> Seq<char>
    decreases courses.len(),
{
    if courses.len() == 0 {
        seq![]
    } else {
        tree_courses(courses.drop_last()) + tree_course(courses.last())
    }
}

/// The course→session→section tree as nested lists.
pub open spec fn tree_spec(courses: Seq<LoadedCourse>) -> Seq<char> {
    "<ul class=\"cb-tree\">\n"@ + tree_courses(courses) + "</ul>\n"@
}

fn push_section_links(out: &mut Vec<char>, cs: &[char], ss: &[char], secs: &Vec<GuideSection>)
    requires
        secs@.len() < usize::MAX,
    ensures
        final(out)@ == old(out)@ + section_links(cs@, ss@, secs@),
{
    let ghost start = out@;
    let mut i: usize = 0;
    assert(secs@.take(0) =~= Seq::<GuideSection>::empty());
    while i < secs.len()
        invariant
            i <= secs@.len() < usize::MAX,
            out@ == start + section_links(cs@, ss@, secs@.take(i as int)),
        decreases secs@.len() - i,
    {
        extend_str(out, "<li><a href=\"/courses/");
        extend_chars(out, cs);
        extend_str(out, "/");
        extend_chars(out, ss);
        extend_str(out, "#seccion-");
        push_decimal(out, (i + 1) as u64);
        extend_str(out, "\">");
        push_escaped(out, secs[i].title.as_str());
        extend_str(out, "</a></li>\n");
        proof {
            let t = secs@.take(i + 1);
            assert(t.drop_last() =~= secs@.take(i as int));
            assert(t.last() == secs@[i as int]);
            assert(out@ =~= start + section_links(cs@, ss@, t));
        }
        i = i + 1;
    }
    assert(secs@.take(i as int) =~= secs@);
}

fn push_tree_session(out: &mut Vec<char>, cs: &[char], session: &Session)
    requires
        session.sections@.len() < usize::MAX,
    ensures
        final(out)@ == old(out)@ + tree_session(cs@, *session),
{
    let ghost start = out@;
    let mut ss: Vec<char> = Vec::new();
    push_escaped(&mut ss, session.slug.as_str());
    extend_str(out, "<li class=\"cb-tree-session\"><a href=\"/courses/");
    extend_chars(out, cs);
    extend_str(out, "/");
    extend_chars(out, &ss);
    extend_str(out, "\">");
    push_escaped(out, session.title.as_str());
    extend_str(out, "</a>\n<ul>\n");
    push_section_links(out, cs, &ss, &session.sections);
    extend_str(out, "</ul>\n</li>\n");
    assert(ss@ =~= escape(session.slug@));
    assert(out@ =~= start + tree_session(cs@, *session));
}

/// Every session of every course lists fewer sections than `usize::MAX`.
pub open spec fn sections_bounded(courses: Seq<LoadedCourse>) -> bool {
    forall|c: int, s: int|
        0 <= c < courses.len() && 0 <= s < courses[c].course.sessions@.len()
            ==> (#[trigger] courses[c].course.sessions@[s]).sections@.len() < usize::MAX
}

fn push_tree_course(out: &mut Vec<char>, loaded: &LoadedCourse)
    requires
        forall|s: int|
            0 <= s < loaded.course.sessions@.len() ==> (#[trigger] loaded.course.sessions@[s]).sections@.len()
                < usize::MAX,
    ensures
        final(out)@ == old(out)@ + tree_course(*loaded),
{
    let ghost start = out@;
    let mut cs: Vec<char> = Vec::new();
    push_escaped(&mut cs, loaded.course.slug.as_str());
    assert(cs@ =~= escape(loaded.course.slug@));
    extend_str(out, "<li><details class=\"cb-tree-course\" open><summary>");
    push_escaped(out, loaded.course.title.as_str());
    extend_str(out, "</summary>\n<ul>\n");
    let ghost mid = out@;
    let sessions = &loaded.course.sessions;
    let mut i: usize = 0;
    assert(sessions@.take(0) =~= Seq::<Session>::empty());
    while i < sessions.len()
        invariant
            i <= sessions@.len(),
            sessions == &loaded.course.sessions,
            forall|s: int|
                0 <= s < sessions@.len() ==> (#[trigger] sessions@[s]).sections@.len() < usize::MAX,
            out@ == mid + tree_sessions(cs@, sessions@.take(i as int)),
        decreases sessions@.len() - i,
    {
        push_tree_session(out, &cs, &sessions[i]);
        proof {
            let t = sessions@.take(i + 1);
            assert(t.drop_last() =~= sessions@.take(i as int));
            assert(t.last() == sessions@[i as int]);
            assert(out@ =~= mid + tree_sessions(cs@, t));
        }
        i = i + 1;
    }
    assert(sessions@.take(i as int) =~= sessions@);
    extend_str(out, "</ul>\n</details></li>\n");
    assert(out@ =~= start + tree_course(*loaded));
}

fn push_tree(out: &mut Vec<char>, courses: &[LoadedCourse])
    requires
        sections_bounded(courses@),
    ensures
        final(out)@ == old(out)@ + tree_spec(courses@),
{
    let ghost start = out@;
    extend_str(out, "<ul class=\"cb-tree\">\n");
    let ghost mid = out@;
    let mut i: usize = 0;
    assert(courses@.take(0) =~= Seq::<LoadedCourse>::empty());
    while i < courses.len()
        invariant
            i <= courses@.len(),
            sections_bounded(courses@),
            out@ == mid + tree_courses(courses@.take(i as int)),
        decreases courses@.len() - i,
    {
        assert forall|s: int|
            0 <= s < courses@[i as int].course.sessions@.len() implies (
            #[trigger] courses@[i as int].course.sessions@[s]).sections@.len() < usize::MAX by {
            assert(courses@[i as int].course.sessions@[s] == courses@[i as int].course.sessions@[s]);
        }
        push_tree_course(out, &courses[i]);
        proof {
            let t = courses@.take(i + 1);
            assert(t.drop_last() =~= courses@.take(i as int));
            assert(t.last() == courses@[i as int]);
            assert(out@ =~= mid + tree_courses(t));
        }
        i = i + 1;
    }
    assert(courses@.take(i as int) =~= courses@);
    extend_str(out, "</ul>\n");
    assert(out@ =~= start + tree_spec(courses@));
}

/// Renders a course→session→section tree as nested lists. Session titles
/// link to `/courses/{course}/{session}`; section titles link to that page's
/// `seccion-N` anchor.
pub fn render_tree(courses: &[LoadedCourse]) -> (r: String)
    requires
        sections_bounded(courses@),
    ensures
        r@ == tree_spec(courses@),
{
    let mut out: Vec<char> = Vec::new();
    push_tree(&mut out, courses);
    assert(out@ =~= tree_spec(courses@));
    from_chars(&out)
}

/// The `<head>` references of the platform baseline assets.
pub open spec fn base_head() -> Seq<char> {
    head_assets_spec(seq![crate::assets::GUIDE_CSS_PATH@], Seq::<Seq<char>>::empty())
}

pub open spec fn index_page_spec(courses: Seq<LoadedCourse>) -> Seq<char> {
    page_spec("en"@, "Courses"@, base_head(), "<h1>Courses</h1>\n"@ + tree_spec(courses))
}

/// Renders the course index (`GET /`): the full course→session→section tree.
pub fn render_index_page(courses: &[LoadedCourse]) -> (r: String)
    requires
        sections_bounded(courses@),
    ensures
        r@ == index_page_spec(courses@),
{
    let mut main: Vec<char> = Vec::new();
    extend_str(&mut main, "<h1>Courses</h1>\n");
    push_tree(&mut main, courses);
    let head = render_head_assets(&PageAssets::base());
    let title = to_chars("Courses");
    page("en", &title, &head, &main)
}

pub open spec fn landing_page_spec(loaded: LoadedCourse) -> Seq<char> {
    let title = escape(loaded.course.title@);
    page_spec("es"@, title, base_head(), "<h1>"@ + title + "</h1>\n"@ + tree_spec(seq![loaded]))
}

/// Renders a course landing page (`GET /courses/{slug}`): the title, and the
/// course's session→section tree.
pub fn render_landing_page(loaded: &LoadedCourse) -> (r: String)
    requires
        sections_bounded(seq![*loaded]),
    ensures
        r@ == landing_page_spec(*loaded),
{
    let mut title: Vec<char> = Vec::new();
    push_escaped(&mut title, loaded.course.title.as_str());
    let mut main: Vec<char> = Vec::new();
    extend_str(&mut main, "<h1>");
    extend_chars(&mut main, &title);
    extend_str(&mut main, "</h1>\n");
    extend_str(&mut main, "<ul class=\"cb-tree\">\n");
    assert(loaded.course.sessions@ == seq![*loaded][0].course.sessions@);
    push_tree_course(&mut main, loaded);
    extend_str(&mut main, "</ul>\n");
    assert(seq![*loaded].drop_last() =~= Seq::<LoadedCourse>::empty());
    assert(seq![*loaded].last() == *loaded);
    assert(tree_courses(Seq::<LoadedCourse>::empty()) =~= seq![]);
    assert(tree_courses(seq![*loaded]) =~= tree_course(*loaded));
    let head = render_head_assets(&PageAssets::base());
    assert(main@ =~= "<h1>"@ + title@ + "</h1>\n"@ + tree_spec(seq![*loaded]));
    page("es", &title, &head, &main)
}

/// Renders the 404 page.
pub open spec fn not_found_spec() -> Seq<char> {
    page_spec(
        "en"@,
        "404 — Not Found"@,
        base_head(),
        "<h1>404 — Not Found</h1>\n<p>Nothing lives at this address. <a href=\"/\">Back to the course list</a>.</p>\n"@,
    )
}

/// Renders the 404 page (platform chrome, in English).
pub fn render_not_found_page() -> (r: String)
    ensures
        r@ == not_found_spec(),
{
    let main = to_chars(
        "<h1>404 — Not Found</h1>\n<p>Nothing lives at this address. <a href=\"/\">Back to the course list</a>.</p>\n",
    );
    let head = render_head_assets(&PageAssets::base());
    let title = to_chars("404 — Not Found");
    page("en", &title, &head, &main)
}

// ---------------------------------------------------------------------------
// Session pages
// ---------------------------------------------------------------------------

/// Inputs for rendering one session page.
pub struct SessionPage<'a> {
    pub course: &'a Course,
    pub session: &'a Session,
    pub assets: &'a PageAssets,
    pub prev: Option<&'a Session>,
    pub next: Option<&'a Session>,
    pub has_slides: bool,
}

pub open spec fn nav_item(n: nat, title: Seq<char>) -> Seq<char> {
    "<li><a href=\"#seccion-"@ + decimal(n) + "\">"@ + escape(title) + "</a></li>\n"@
}

pub open spec fn section_block(n: nat, s: GuideSection) -> Seq<char> {
    "<section id=\"seccion-"@ + decimal(n) + "\">\n<h2>"@ + escape(s.title@) + "</h2>\n"@
        + s.body_html@ + "\n</section>\n"@
}

pub open spec fn nav_items(secs: Seq<GuideSection>) -> Seq<char>
    decreases secs.len(),
{
    if secs.len() == 0 {
        seq![]
    } else {
        nav_items(secs.drop_last()) + nav_item(secs.len(), secs.last().title@)
    }
}

pub open spec fn section_blocks(secs: Seq<GuideSection>) -> Seq<char>
    decreases secs.len(),
{
    if secs.len() == 0 {
        seq![]
    } else {
        section_blocks(secs.drop_last()) + section_block(secs.len(), secs.last())
    }
}

/// The bottom session nav: previous, back-to-course, and next links.
pub open spec fn footer_nav_spec(cs: Seq<char>, prev: Option<Session>, next: Option<Session>) -> Seq<
    char,
> {
    "<nav class=\"cb-session-nav\" aria-label=\"Sesiones\">\n"@ + (match prev {
        Some(p) => "<a class=\"cb-prev\" href=\"/courses/"@ + cs + "/"@ + escape(p.slug@)
            + "\">← Sesión anterior</a>\n"@,
        None => seq![],
    }) + "<a class=\"cb-up\" href=\"/courses/"@ + cs + "\">↑ Volver al curso</a>\n"@ + (match next {
        Some(n) => "<a class=\"cb-next\" href=\"/courses/"@ + cs + "/"@ + escape(n.slug@)
            + "\">Sesión siguiente →</a>\n"@,
        None => seq![],
    }) + "</nav>\n"@
}

pub open spec fn opt_session(s: Option<&Session>) -> Option<Session> {
    match s {
        Some(x) => Some(*x),
        None => None,
    }
}

/// A session page: its title, the slides link when it has slides, the
/// section nav, the sections (each a `seccion-N` anchor), and the footer
/// session nav.
pub open spec fn nav_spec(items: Seq<char>) -> Seq<char> {
    if items.len() == 0 {
        seq![]
    } else {
        "<nav aria-label=\"Contenido\">\n<ol>\n"@ + items + "</ol>\n</nav>\n"@
    }
}

pub open spec fn slides_link_spec(cs: Seq<char>, session: Session, has_slides: bool) -> Seq<char> {
    if has_slides {
        "<p class=\"cb-slides-link\"><a href=\"/courses/"@ + cs + "/"@ + escape(session.slug@)
            + "/slides\">▶ Ver diapositivas</a></p>\n"@
    } else {
        seq![]
    }
}

pub open spec fn session_page_spec(
    course: Course,
    session: Session,
    assets: PageAssets,
    prev: Option<Session>,
    next: Option<Session>,
    has_slides: bool,
) -> Seq<char> {
    let cs = escape(course.slug@);
    let title = escape(session.title@);
    page_spec(
        "es"@,
        title,
        head_assets_spec(assets.style_list(), assets.script_list()),
        "<h1>"@ + title + "</h1>\n"@ + slides_link_spec(cs, session, has_slides) + nav_spec(
            nav_items(session.sections@),
        ) + section_blocks(session.sections@) + footer_nav_spec(cs, prev, next),
    )
}

#[verifier::rlimit(40)]
fn push_footer_nav(out: &mut Vec<char>, cs: &[char], prev: Option<&Session>, next: Option<&Session>)
    ensures
        final(out)@ == old(out)@ + footer_nav_spec(cs@, opt_session(prev), opt_session(next)),
{
    let ghost start = out@;
    extend_str(out, "<nav class=\"cb-session-nav\" aria-label=\"Sesiones\">\n");
    let ghost a = out@;
    if let Some(p) = prev {
        extend_str(out, "<a class=\"cb-prev\" href=\"/courses/");
        extend_chars(out, cs);
        extend_str(out, "/");
        push_escaped(out, p.slug.as_str());
        extend_str(out, "\">← Sesión anterior</a>\n");
    }
    let ghost b = out@;
    extend_str(out, "<a class=\"cb-up\" href=\"/courses/");
    extend_chars(out, cs);
    extend_str(out, "\">↑ Volver al curso</a>\n");
    let ghost c = out@;
    if let Some(n) = next {
        extend_str(out, "<a class=\"cb-next\" href=\"/courses/");
        extend_chars(out, cs);
        extend_str(out, "/");
        push_escaped(out, n.slug.as_str());
        extend_str(out, "\">Sesión siguiente →</a>\n");
    }
    extend_str(out, "</nav>\n");
    assert(out@ =~= start + footer_nav_spec(cs@, opt_session(prev), opt_session(next)));
}

#[verifier::rlimit(40)]
fn push_nav_and_sections(nav: &mut Vec<char>, blocks: &mut Vec<char>, secs: &Vec<GuideSection>)
    requires
        secs@.len() < usize::MAX,
    ensures
        final(nav)@ == old(nav)@ + nav_items(secs@),
        final(blocks)@ == old(blocks)@ + section_blocks(secs@),
{
    let ghost nav0 = nav@;
    let ghost blocks0 = blocks@;
    let mut i: usize = 0;
    assert(secs@.take(0) =~= Seq::<GuideSection>::empty());
    while i < secs.len()
        invariant
            i <= secs@.len() < usize::MAX,
            nav@ == nav0 + nav_items(secs@.take(i as int)),
            blocks@ == blocks0 + section_blocks(secs@.take(i as int)),
        decreases secs@.len() - i,
    {
        let section = &secs[i];
        let mut title: Vec<char> = Vec::new();
        push_escaped(&mut title, section.title.as_str());
        extend_str(nav, "<li><a href=\"#seccion-");
        push_decimal(nav, (i + 1) as u64);
        extend_str(nav, "\">");
        extend_chars(nav, &title);
        extend_str(nav, "</a></li>\n");
        extend_str(blocks, "<section id=\"seccion-");
        push_decimal(blocks, (i + 1) as u64);
        extend_str(blocks, "\">\n<h2>");
        extend_chars(blocks, &title);
        extend_str(blocks, "</h2>\n");
        extend_str(blocks, section.body_html.as_str());
        extend_str(blocks, "\n</section>\n");
        proof {
            let t = secs@.take(i + 1);
            assert(t.drop_last() =~= secs@.take(i as int));
            assert(t.last() == secs@[i as int]);
            assert(nav@ =~= nav0 + nav_items(t));
            assert(blocks@ =~= blocks0 + section_blocks(t));
        }
        i = i + 1;
    }
    assert(secs@.take(i as int) =~= secs@);
}

/// Renders one session as a complete HTML document: the section nav, the
/// sections (each a `seccion-N` anchor), and the footer session nav.
pub fn render_session_page(input: &SessionPage) -> (r: String)
    requires
        input.session.sections@.len() < usize::MAX,
    ensures
        r@ == session_page_spec(
            *input.course,
            *input.session,
            *input.assets,
            opt_session(input.prev),
            opt_session(input.next),
            input.has_slides,
        ),
{
    let mut cs: Vec<char> = Vec::new();
    push_escaped(&mut cs, input.course.slug.as_str());
    let mut items: Vec<char> = Vec::new();
    let mut blocks: Vec<char> = Vec::new();
    push_nav_and_sections(&mut items, &mut blocks, &input.session.sections);
    assert(items@ =~= nav_items(input.session.sections@));
    assert(blocks@ =~= section_blocks(input.session.sections@));
    let mut title: Vec<char> = Vec::new();
    push_escaped(&mut title, input.session.title.as_str());
    let mut link: Vec<char> = Vec::new();
    if input.has_slides {
        extend_str(&mut link, "<p class=\"cb-slides-link\"><a href=\"/courses/");
        extend_chars(&mut link, &cs);
        extend_str(&mut link, "/");
        push_escaped(&mut link, input.session.slug.as_str());
        extend_str(&mut link, "/slides\">▶ Ver diapositivas</a></p>\n");
    }
    assert(link@ =~= slides_link_spec(cs@, *input.session, input.has_slides));
    let mut nav: Vec<char> = Vec::new();
    if items.len() > 0 {
        extend_str(&mut nav, "<nav aria-label=\"Contenido\">\n<ol>\n");
        extend_chars(&mut nav, &items);
        extend_str(&mut nav, "</ol>\n</nav>\n");
    }
    assert(nav@ =~= nav_spec(items@));
    let mut footer: Vec<char> = Vec::new();
    push_footer_nav(&mut footer, &cs, input.prev, input.next);
    let mut main: Vec<char> = Vec::new();
    extend_str(&mut main, "<h1>");
    extend_chars(&mut main, &title);
    extend_str(&mut main, "</h1>\n");
    extend_chars(&mut main, &link);
    extend_chars(&mut main, &nav);
    extend_chars(&mut main, &blocks);
    extend_chars(&mut main, &footer);
    let head = render_head_assets(input.assets);
    assert(cs@ =~= escape(input.course.slug@));
    assert(main@ =~= "<h1>"@ + title@ + "</h1>\n"@ + link@ + nav@ + blocks@ + footer@);
    page("es", &title, &head, &main)
}

// ---------------------------------------------------------------------------
// Slideshow
// ---------------------------------------------------------------------------

pub open spec fn slide_section(f: SlideFragment) -> Seq<char> {
    "<section"@ + (if f.light {
        " class=\"cb-light\""@
    } else {
        seq![]
    }) + ">\n"@ + f.html@ + "</section>\n"@
}

pub open spec fn slide_sections(slides: Seq<SlideFragment>) -> Seq<char>
    decreases slides.len(),
{
    if slides.len() == 0 {
        seq![]
    } else {
        slide_sections(slides.drop_last()) + slide_section(slides.last())
    }
}

/// A reveal.js slideshow: one `<section>` per fragment, and a close button
/// back to the session guide.
pub open spec fn slideshow_spec(course: Course, session: Session, slides: Seq<SlideFragment>) -> Seq<
    char,
> {
    "<!doctype html>\n<html lang=\"es\">\n<head>\n<meta charset=\"utf-8\">\n<meta name=\"viewport\" content=\"width=device-width, initial-scale=1\">\n<title>"@
        + escape(session.title@) + " — Diapositivas</title>\n<link rel=\"stylesheet\" href=\""@
        + REVEAL_CSS_PATH@ + "\">\n<link rel=\"stylesheet\" href=\""@ + SLIDES_CSS_PATH@
        + "\">\n</head>\n<body>\n<div class=\"reveal\">\n<div class=\"slides\">\n"@
        + slide_sections(slides) + "</div>\n</div>\n<script src=\""@ + REVEAL_JS_PATH@
        + "\"></script>\n<script>Reveal.initialize({hash:true,controls:true,progress:true,center:true,transition:'slide'});</script>\n<a class=\"cb-slides-close\" href=\"/courses/"@
        + escape(course.slug@) + "/"@ + escape(session.slug@)
        + "\" aria-label=\"Cerrar diapositivas\">✕</a>\n</body>\n</html>\n"@
}

/// Renders a reveal.js slideshow for one session: each fragment becomes one
/// `<section>` in the `.slides` container.
pub fn render_slideshow_page(course: &Course, session: &Session, slides_html: &[SlideFragment]) -> (r:
    String)
    ensures
        r@ == slideshow_spec(*course, *session, slides_html@),
{
    let mut out: Vec<char> = Vec::new();
    extend_str(&mut out, "<!doctype html>\n<html lang=\"es\">\n<head>\n<meta charset=\"utf-8\">\n<meta name=\"viewport\" content=\"width=device-width, initial-scale=1\">\n<title>");
    push_escaped(&mut out, session.title.as_str());
    extend_str(&mut out, " — Diapositivas</title>\n<link rel=\"stylesheet\" href=\"");
    extend_str(&mut out, REVEAL_CSS_PATH);
    extend_str(&mut out, "\">\n<link rel=\"stylesheet\" href=\"");
    extend_str(&mut out, SLIDES_CSS_PATH);
    extend_str(&mut out, "\">\n</head>\n<body>\n<div class=\"reveal\">\n<div class=\"slides\">\n");
    let ghost head = out@;
    let mut i: usize = 0;
    assert(slides_html@.take(0) =~= Seq::<SlideFragment>::empty());
    while i < slides_html.len()
        invariant
            i <= slides_html@.len(),
            out@ == head + slide_sections(slides_html@.take(i as int)),
        decreases slides_html@.len() - i,
    {
        let slide = &slides_html[i];
        extend_str(&mut out, "<section");
        if slide.light {
            extend_str(&mut out, " class=\"cb-light\"");
        }
        extend_str(&mut out, ">\n");
        extend_str(&mut out, slide.html.as_str());
        extend_str(&mut out, "</section>\n");
        proof {
            let t = slides_html@.take(i + 1);
            assert(t.drop_last() =~= slides_html@.take(i as int));
            assert(t.last() == slides_html@[i as int]);
            assert(out@ =~= head + slide_sections(t));
        }
        i = i + 1;
    }
    assert(slides_html@.take(i as int) =~= slides_html@);
    extend_str(&mut out, "</div>\n</div>\n<script src=\"");
    extend_str(&mut out, REVEAL_JS_PATH);
    extend_str(&mut out, "\"></script>\n<script>Reveal.initialize({hash:true,controls:true,progress:true,center:true,transition:'slide'});</script>\n<a class=\"cb-slides-close\" href=\"/courses/");
    push_escaped(&mut out, course.slug.as_str());
    extend_str(&mut out, "/");
    push_escaped(&mut out, session.slug.as_str());
    extend_str(&mut out, "\" aria-label=\"Cerrar diapositivas\">✕</a>\n</body>\n</html>\n");
    assert(out@ =~= slideshow_spec(*course, *session, slides_html@));
    from_chars(&out)
}

// ---------------------------------------------------------------------------
// The whole site
// ---------------------------------------------------------------------------

/// The pages of a site, keyed by URL path; each key appears once.
#[derive(Debug)]
pub struct PageMap {
    entries: Vec<(String, String)>,
}

/// The map a list of `(key, page)` entries describes, later entries winning.
pub open spec fn entries_map(es: Seq<(String, String)>) -> Map<Seq<char>, Seq<char>>
    decreases es.len(),
{
    if es.len() == 0 {
        Map::empty()
    } else {
        entries_map(es.drop_last()).insert(es.last().0@, es.last().1@)
    }
}

/// No key occurs twice.
pub open spec fn unique_keys(es: Seq<(String, String)>) -> bool {
    forall|i: int, j: int| 0 <= i < j < es.len() ==> (#[trigger] es[i]).0@ != (#[trigger] es[j]).0@
}

pub proof fn lemma_entries_map_key(es: Seq<(String, String)>, key: Seq<char>)
    ensures
        entries_map(es).contains_key(key) <==> exists|i: int| 0 <= i < es.len() && (#[trigger] es[i]).0@ == key,
    decreases es.len(),
{
    if es.len() > 0 {
        lemma_entries_map_key(es.drop_last(), key);
        if exists|i: int| 0 <= i < es.len() && (#[trigger] es[i]).0@ == key {
            let i = choose|i: int| 0 <= i < es.len() && (#[trigger] es[i]).0@ == key;
            if i < es.len() - 1 {
                assert(es.drop_last()[i] == es[i]);
            }
        }
        if exists|i: int| 0 <= i < es.drop_last().len() && (#[trigger] es.drop_last()[i]).0@ == key {
            let i = choose|i: int| 0 <= i < es.drop_last().len() && (#[trigger] es.drop_last()[i]).0@ == key;
            assert(es[i] == es.drop_last()[i]);
        }
    }
}

pub proof fn lemma_entries_map_last(es: Seq<(String, String)>, j: int)
    requires
        0 <= j < es.len(),
        forall|i: int| j < i < es.len() ==> (#[trigger] es[i]).0@ != es[j].0@,
    ensures
        entries_map(es).contains_key(es[j].0@),
        entries_map(es)[es[j].0@] == es[j].1@,
    decreases es.len(),
{
    if j < es.len() - 1 {
        let d = es.drop_last();
        assert forall|i: int| j < i < d.len() implies (#[trigger] d[i]).0@ != d[j].0@ by {
            assert(d[i] == es[i]);
        }
        lemma_entries_map_last(d, j);
        assert(es[es.len() - 1].0@ != es[j].0@);
    }
}

/// With unique keys, the entry for each key gives its page.
pub proof fn lemma_unique_entry(es: Seq<(String, String)>, j: int)
    requires
        unique_keys(es),
        0 <= j < es.len(),
    ensures
        entries_map(es).contains_key(es[j].0@),
        entries_map(es)[es[j].0@] == es[j].1@,
{
    assert forall|i: int| j < i < es.len() implies (#[trigger] es[i]).0@ != es[j].0@ by {
        assert(es[j].0@ != es[i].0@);
    }
    lemma_entries_map_last(es, j);
}

impl View for PageMap {
    type V = Map<Seq<char>, Seq<char>>;

    closed spec fn view(&self) -> Map<Seq<char>, Seq<char>> {
        entries_map(self.entries@)
    }
}

impl PageMap {
    /// The stored keys and pages, in the order they were first set.
    pub closed spec fn entry_list(&self) -> Seq<(String, String)> {
        self.entries@
    }

    #[verifier::type_invariant]
    spec fn keys_unique(self) -> bool {
        unique_keys(self.entries@)
    }

    /// An empty map.
    pub fn new() -> (r: Self)
        ensures
            r@ == Map::<Seq<char>, Seq<char>>::empty(),
    {
        PageMap { entries: Vec::new() }
    }

    fn position(&self, key: &str) -> (r: usize)
        ensures
            r <= self.entries@.len(),
            r < self.entries@.len() ==> self.entries@[r as int].0@ == key@,
            r == self.entries@.len() ==> forall|j: int| 0 <= j < self.entries@.len() ==> (#[trigger] self.entries@[j]).0@ != key@,
    {
        let mut i: usize = 0;
        while i < self.entries.len()
            invariant
                i <= self.entries@.len(),
                forall|j: int| 0 <= j < i ==> (#[trigger] self.entries@[j]).0@ != key@,
            decreases self.entries@.len() - i,
        {
            if crate::text::eq_str(&crate::text::to_chars(self.entries[i].0.as_str()), key) {
                return i;
            }
            i = i + 1;
        }
        i
    }

    /// Sets the page for `key`.
    pub fn insert(&mut self, key: String, page: String)
        ensures
            final(self)@ == old(self)@.insert(key@, page@),
    {
        proof {
            use_type_invariant(&*self);
        }
        let ghost before = self.entries@;
        let ghost k = key@;
        let ghost v = page@;
        let pos = self.position(key.as_str());
        let mut entries = Vec::new();
        std::mem::swap(&mut entries, &mut self.entries);
        if pos < entries.len() {
            entries.set(pos, (key, page));
        } else {
            entries.push((key, page));
        }
        let ghost after = entries@;
        proof {
            assert(unique_keys(after)) by {
                assert forall|i: int, j: int| 0 <= i < j < after.len() implies (#[trigger] after[i]).0@
                    != (#[trigger] after[j]).0@ by {
                    if i != pos as int && j != pos as int {
                        assert(after[i] == before[i] && after[j] == before[j]);
                    }
                }
            }
            assert forall|q: Seq<char>| #![auto] entries_map(after).contains_key(q) <==> entries_map(before).insert(k, v).contains_key(q) by {
                lemma_entries_map_key(after, q);
                lemma_entries_map_key(before, q);
                if entries_map(before).contains_key(q) && q != k {
                    let i = choose|i: int| 0 <= i < before.len() && (#[trigger] before[i]).0@ == q;
                    assert(after[i] == before[i]);
                }
                if pos < before.len() {
                    assert(after[pos as int].0@ == k);
                } else {
                    assert(after[before.len() as int].0@ == k);
                }
                if entries_map(after).contains_key(q) && q != k {
                    let i = choose|i: int| 0 <= i < after.len() && (#[trigger] after[i]).0@ == q;
                    assert(after[i] == before[i]);
                }
            }
            assert forall|q: Seq<char>| #![auto] entries_map(after).contains_key(q) implies entries_map(after)[q] == entries_map(before).insert(k, v)[q] by {
                lemma_entries_map_key(after, q);
                let i = choose|i: int| 0 <= i < after.len() && (#[trigger] after[i]).0@ == q;
                lemma_unique_entry(after, i);
                if q != k {
                    assert(after[i] == before[i]);
                    lemma_unique_entry(before, i);
                }
            }
            assert(entries_map(after) =~= entries_map(before).insert(k, v));
        }
        self.entries = entries;
    }

    /// Whether a page is stored under `key`.
    pub fn contains_key(&self, key: &str) -> (r: bool)
        ensures
            r == self@.contains_key(key@),
    {
        let pos = self.position(key);
        proof {
            lemma_entries_map_key(self.entries@, key@);
        }
        pos < self.entries.len()
    }

    /// The page stored under `key`.
    pub fn get(&self, key: &str) -> (r: Option<&String>)
        ensures
            r is Some <==> self@.contains_key(key@),
            r matches Some(page) ==> page@ == self@[key@],
    {
        proof {
            use_type_invariant(self);
            lemma_entries_map_key(self.entries@, key@);
        }
        let pos = self.position(key);
        if pos < self.entries.len() {
            proof {
                lemma_unique_entry(self.entries@, pos as int);
            }
            Some(&self.entries[pos].1)
        } else {
            None
        }
    }

    /// Whether the map holds no page.
    pub fn is_empty(&self) -> (r: bool)
        ensures
            r == (self@.dom() =~= Set::<Seq<char>>::empty()),
    {
        proof {
            if self.entries@.len() > 0 {
                let k = self.entries@[0].0@;
                lemma_entries_map_key(self.entries@, k);
                assert(self@.dom().contains(k));
            } else {
                assert(self@.dom() =~= Set::<Seq<char>>::empty());
            }
        }
        self.entries.len() == 0
    }

    /// The number of pages.
    pub fn len(&self) -> (r: usize)
        ensures
            r == self@.dom().len(),
    {
        proof {
            use_type_invariant(self);
            lemma_unique_len(self.entries@);
        }
        self.entries.len()
    }

    /// The stored keys and pages, each key once, in the order they were first
    /// set.
    pub fn entries(&self) -> (r: &Vec<(String, String)>)
        ensures
            entries_map(r@) == self@,
            unique_keys(r@),
            r@ == self.entry_list(),
    {
        proof {
            use_type_invariant(self);
        }
        &self.entries
    }
}

proof fn lemma_unique_len(es: Seq<(String, String)>)
    requires
        unique_keys(es),
    ensures
        entries_map(es).dom().len() == es.len(),
        entries_map(es).dom().finite(),
    decreases es.len(),
{
    if es.len() > 0 {
        let d = es.drop_last();
        assert(unique_keys(d)) by {
            assert forall|i: int, j: int| 0 <= i < j < d.len() implies (#[trigger] d[i]).0@ != (#[trigger] d[j]).0@ by {
                assert(d[i] == es[i] && d[j] == es[j]);
            }
        }
        lemma_unique_len(d);
        lemma_entries_map_key(d, es.last().0@);
        if entries_map(d).contains_key(es.last().0@) {
            let i = choose|i: int| 0 <= i < d.len() && (#[trigger] d[i]).0@ == es.last().0@;
            assert(es[i] == d[i]);
            assert(es[i].0@ != es[es.len() - 1].0@);
        }
    }
}

impl Clone for PageMap {
    fn clone(&self) -> (r: Self)
        ensures
            r@ == self@,
    {
        proof {
            use_type_invariant(self);
        }
        let mut entries: Vec<(String, String)> = Vec::new();
        let mut i: usize = 0;
        while i < self.entries.len()
            invariant
                i <= self.entries@.len(),
                entries@.len() == i,
                forall|j: int| 0 <= j < i ==> (#[trigger] entries@[j]).0@ == self.entries@[j].0@
                    && entries@[j].1@ == self.entries@[j].1@,
            decreases self.entries@.len() - i,
        {
            let k = self.entries[i].0.clone();
            let v = self.entries[i].1.clone();
            entries.push((k, v));
            i = i + 1;
        }
        proof {
            lemma_same_entries(entries@, self.entries@);
        }
        PageMap { entries }
    }
}

/// Entries with the same keys and pages describe the same map.
proof fn lemma_same_entries(a: Seq<(String, String)>, b: Seq<(String, String)>)
    requires
        a.len() == b.len(),
        forall|j: int| 0 <= j < a.len() ==> (#[trigger] a[j]).0@ == b[j].0@ && a[j].1@ == b[j].1@,
    ensures
        entries_map(a) == entries_map(b),
        unique_keys(b) ==> unique_keys(a),
    decreases a.len(),
{
    if a.len() > 0 {
        lemma_same_entries(a.drop_last(), b.drop_last());
        assert(a.last() == a[a.len() - 1]);
    }
    if unique_keys(b) {
        assert forall|i: int, j: int| 0 <= i < j < a.len() implies (#[trigger] a[i]).0@ != (#[trigger] a[j]).0@ by {
            assert(b[i].0@ != b[j].0@);
        }
    }
}

/// Every page the site serves, pre-rendered: the index, one page per URL path
/// (landing, session, or slideshow), and the 404 body.
#[derive(Debug)]
pub struct RenderedSite {
    pub index_html: String,
    pub pages: PageMap,
    pub not_found_html: String,
}

pub open spec fn prev_session(sessions: Seq<Session>, i: int) -> Option<Session> {
    if i > 0 {
        Some(sessions[i - 1])
    } else {
        None
    }
}

pub open spec fn next_session(sessions: Seq<Session>, i: int) -> Option<Session> {
    if i + 1 < sessions.len() {
        Some(sessions[i + 1])
    } else {
        None
    }
}

/// The pages of session `i`: its guide page, and its slideshow when it has
/// slides.
pub open spec fn session_entry(
    m: Map<Seq<char>, Seq<char>>,
    loaded: LoadedCourse,
    i: int,
) -> Map<Seq<char>, Seq<char>> {
    let sessions = loaded.course.sessions@;
    let s = sessions[i];
    let slides = loaded.session_slides@[i]@;
    let key = loaded.course.slug@ + "/"@ + s.slug@;
    let m2 = m.insert(
        key,
        session_page_spec(
            loaded.course,
            s,
            loaded.session_assets@[i],
            prev_session(sessions, i),
            next_session(sessions, i),
            slides.len() > 0,
        ),
    );
    if slides.len() > 0 {
        m2.insert(key + "/slides"@, slideshow_spec(loaded.course, s, slides))
    } else {
        m2
    }
}

pub open spec fn sessions_entries(m: Map<Seq<char>, Seq<char>>, loaded: LoadedCourse, n: nat) -> Map<
    Seq<char>,
    Seq<char>,
>
    decreases n,
{
    if n == 0 {
        m
    } else {
        session_entry(sessions_entries(m, loaded, (n - 1) as nat), loaded, n - 1)
    }
}

/// The pages of one course: its landing page, then each session's pages.
pub open spec fn course_entries(m: Map<Seq<char>, Seq<char>>, loaded: LoadedCourse) -> Map<
    Seq<char>,
    Seq<char>,
> {
    sessions_entries(
        m.insert(loaded.course.slug@, landing_page_spec(loaded)),
        loaded,
        loaded.course.sessions@.len(),
    )
}

/// The pages of every course, in course order.
pub open spec fn site_pages(courses: Seq<LoadedCourse>) -> Map<Seq<char>, Seq<char>>
    decreases courses.len(),
{
    if courses.len() == 0 {
        Map::empty()
    } else {
        course_entries(site_pages(courses.drop_last()), courses.last())
    }
}

/// The courses are fit to render: per-session lists line up with the
/// sessions, and every count fits in a `usize`.
pub open spec fn renderable(courses: Seq<LoadedCourse>) -> bool {
    &&& sections_bounded(courses)
    &&& forall|c: int|
        0 <= c < courses.len() ==> (#[trigger] courses[c]).aligned()
            && courses[c].course.sessions@.len() < usize::MAX
}

fn push_course_pages(pages: &mut PageMap, loaded: &LoadedCourse)
    requires
        loaded.aligned(),
        loaded.course.sessions@.len() < usize::MAX,
        forall|s: int|
            0 <= s < loaded.course.sessions@.len() ==> (#[trigger] loaded.course.sessions@[s]).sections@.len()
                < usize::MAX,
    ensures
        final(pages)@ == course_entries(old(pages)@, *loaded),
{
    let course_slug = loaded.course.slug.as_str();
    assert(seq![*loaded][0] == *loaded);
    pages.insert(course_slug.to_owned(), render_landing_page(loaded));
    let ghost base = pages@;
    let sessions = &loaded.course.sessions;
    let mut i: usize = 0;
    while i < sessions.len()
        invariant
            i <= sessions@.len() < usize::MAX,
            sessions == &loaded.course.sessions,
            loaded.aligned(),
            course_slug@ == loaded.course.slug@,
            forall|s: int|
                0 <= s < sessions@.len() ==> (#[trigger] sessions@[s]).sections@.len() < usize::MAX,
            pages@ == sessions_entries(base, *loaded, i as nat),
        decreases sessions@.len() - i,
    {
        let session = &sessions[i];
        let slides = &loaded.session_slides[i];
        let prev = if i > 0 {
            Some(&sessions[i - 1])
        } else {
            None
        };
        let next = if i + 1 < sessions.len() {
            Some(&sessions[i + 1])
        } else {
            None
        };
        let input = SessionPage {
            course: &loaded.course,
            session,
            assets: &loaded.session_assets[i],
            prev,
            next,
            has_slides: slides.len() > 0,
        };
        let mut key: Vec<char> = to_chars(course_slug);
        extend_str(&mut key, "/");
        extend_str(&mut key, session.slug.as_str());
        pages.insert(from_chars(&key), render_session_page(&input));
        if slides.len() > 0 {
            extend_str(&mut key, "/slides");
            pages.insert(from_chars(&key), render_slideshow_page(&loaded.course, session, slides));
        }
        proof {
            assert(opt_session(prev) == prev_session(sessions@, i as int));
            assert(opt_session(next) == next_session(sessions@, i as int));
        }
        i = i + 1;
    }
}

proof fn lemma_occurs_within(a: Seq<char>, s: Seq<char>, b: Seq<char>, p: Seq<char>, k: int)
    requires
        occurs_at(s, p, k),
    ensures
        occurs_at(a + s + b, p, a.len() + k),
{
    assert((a + s + b).subrange(a.len() + k, a.len() + k + p.len()) =~= s.subrange(k, k + p.len()));
}

proof fn lemma_occurs_whole(p: Seq<char>)
    ensures
        occurs_at(p, p, 0),
{
    assert(p.subrange(0, p.len() as int) =~= p);
}

/// The previous-session link of a session page's footer nav.
pub open spec fn prev_link(cs: Seq<char>, slug: Seq<char>) -> Seq<char> {
    "<a class=\"cb-prev\" href=\"/courses/"@ + cs + "/"@ + escape(slug) + "\">← Sesión anterior</a>\n"@
}

/// The next-session link of a session page's footer nav.
pub open spec fn next_link(cs: Seq<char>, slug: Seq<char>) -> Seq<char> {
    "<a class=\"cb-next\" href=\"/courses/"@ + cs + "/"@ + escape(slug) + "\">Sesión siguiente →</a>\n"@
}

proof fn lemma_session_entry_links(m: Map<Seq<char>, Seq<char>>, loaded: LoadedCourse, i: int)
    requires
        0 <= i < loaded.course.sessions@.len(),
    ensures
        ({
            let ss = loaded.course.sessions@;
            let cs = escape(loaded.course.slug@);
            let page = session_entry(m, loaded, i)[loaded.course.slug@ + "/"@ + ss[i].slug@];
            &&& i > 0 ==> exists|k: int| #[trigger] occurs_at(page, prev_link(cs, ss[i - 1].slug@), k)
            &&& i + 1 < ss.len() ==> exists|k: int| #[trigger] occurs_at(page, next_link(cs, ss[i + 1].slug@), k)
        }),
{
    let ss = loaded.course.sessions@;
    let course = loaded.course;
    let s = ss[i];
    let cs = escape(course.slug@);
    let key = course.slug@ + "/"@ + s.slug@;
    let slides = loaded.session_slides@[i]@;
    let prev = prev_session(ss, i);
    let next = next_session(ss, i);
    let page = session_page_spec(course, s, loaded.session_assets@[i], prev, next, slides.len() > 0);
    reveal_strlit("/slides");
    assert((key + "/slides"@).len() != key.len());
    assert(session_entry(m, loaded, i)[key] == page);
    let title = escape(s.title@);
    let head = head_assets_spec(loaded.session_assets@[i].style_list(), loaded.session_assets@[i].script_list());
    let before_nav = "<h1>"@ + title + "</h1>\n"@ + slides_link_spec(cs, s, slides.len() > 0) + nav_spec(
        nav_items(s.sections@),
    ) + section_blocks(s.sections@);
    let nav = footer_nav_spec(cs, prev, next);
    let main = before_nav + nav;
    let head_part = "<!doctype html>\n<html id=\"top\" lang=\""@ + "es"@
        + "\">\n<head>\n<meta charset=\"utf-8\">\n<meta name=\"viewport\" content=\"width=device-width, initial-scale=1\">\n<title>"@
        + title + "</title>\n"@ + head + "</head>\n<body>\n"@ + header_spec() + "<main>\n"@;
    let tail = "</main>\n"@ + footer_spec() + TOP_BUTTON_HTML@;
    assert(page =~= head_part + main + tail);
    let open_nav = "<nav class=\"cb-session-nav\" aria-label=\"Sesiones\">\n"@;
    let up = "<a class=\"cb-up\" href=\"/courses/"@ + cs + "\">↑ Volver al curso</a>\n"@;
    let close_nav = "</nav>\n"@;
    if i > 0 {
        let link = prev_link(cs, ss[i - 1].slug@);
        let rest = up + (match next {
            Some(n) => next_link(cs, n.slug@),
            None => seq![],
        }) + close_nav;
        assert(nav =~= open_nav + link + rest);
        lemma_occurs_whole(link);
        lemma_occurs_within(open_nav, link, rest, link, 0);
        lemma_occurs_within(before_nav, nav, seq![], link, open_nav.len() as int);
        assert(main + seq![] =~= main);
        lemma_occurs_within(head_part, main, tail, link, (before_nav.len() + open_nav.len()) as int);
    }
    if i + 1 < ss.len() {
        let link = next_link(cs, ss[i + 1].slug@);
        let front = open_nav + (match prev {
            Some(p) => prev_link(cs, p.slug@),
            None => seq![],
        }) + up;
        assert(nav =~= front + link + close_nav);
        lemma_occurs_whole(link);
        lemma_occurs_within(front, link, close_nav, link, 0);
        lemma_occurs_within(before_nav, nav, seq![], link, front.len() as int);
        assert(main + seq![] =~= main);
        lemma_occurs_within(head_part, main, tail, link, (before_nav.len() + front.len()) as int);
    }
}

proof fn lemma_session_keys_differ(c: Seq<char>, a: Seq<char>, b: Seq<char>)
    requires
        a != b,
        is_kebab(a),
    ensures
        c + "/"@ + a != c + "/"@ + b,
        c + "/"@ + a != c + "/"@ + b + "/slides"@,
{
    reveal_strlit("/");
    reveal_strlit("/slides");
    let n: int = c.len() + 1int;
    if c + "/"@ + a == c + "/"@ + b {
        assert((c + "/"@ + a).subrange(n, n + a.len() as int) =~= a);
        assert((c + "/"@ + b).subrange(n, n + b.len() as int) =~= b);
    }
    let kb = c + "/"@ + b + "/slides"@;
    if c + "/"@ + a == kb {
        assert("/"@.len() == 1 && "/slides"@.len() == 7);
        assert((c + "/"@ + a).len() == c.len() + 1 + a.len());
        assert(kb.len() == c.len() + 1 + b.len() + 7);
        assert(a.len() == b.len() + 7);
        assert(kb[n + b.len() as int] == '/');
        assert((c + "/"@ + a)[n + b.len() as int] == a[b.len() as int]);
        assert(('a' <= a[b.len() as int] <= 'z') || ('0' <= a[b.len() as int] <= '9') || a[b.len() as int] == '-');
    }
}

/// The keys of session `i`'s pages stay put while the other sessions'
/// pages go in.
proof fn lemma_later_sessions_keep(m: Map<Seq<char>, Seq<char>>, loaded: LoadedCourse, i: int, n: nat)
    requires
        0 <= i < n <= loaded.course.sessions@.len(),
        forall|a: int, b: int|
            0 <= a < b < loaded.course.sessions@.len() ==> (#[trigger] loaded.course.sessions@[a]).slug@
                != (#[trigger] loaded.course.sessions@[b]).slug@,
        forall|a: int| 0 <= a < loaded.course.sessions@.len() ==> is_kebab((#[trigger] loaded.course.sessions@[a]).slug@),
    ensures
        ({
            let key = loaded.course.slug@ + "/"@ + loaded.course.sessions@[i].slug@;
            &&& sessions_entries(m, loaded, n).contains_key(key)
            &&& sessions_entries(m, loaded, n)[key] == session_entry(sessions_entries(m, loaded, i as nat), loaded, i)[key]
        }),
    decreases n,
{
    let ss = loaded.course.sessions@;
    let key = loaded.course.slug@ + "/"@ + ss[i].slug@;
    if n == i + 1 {
        reveal_strlit("/slides");
        assert((key + "/slides"@).len() != key.len());
    } else {
        let j = n - 1;
        lemma_later_sessions_keep(m, loaded, i, (n - 1) as nat);
        assert(ss[i].slug@ != ss[j].slug@);
        lemma_session_keys_differ(loaded.course.slug@, ss[i].slug@, ss[j].slug@);
    }
}

/// Sessions are chained in manifest order: in a course whose session slugs
/// are distinct, the page of session `i` links back to session `i - 1` when
/// there is one, and on to session `i + 1` when there is one.
pub proof fn lemma_session_nav_links(m: Map<Seq<char>, Seq<char>>, loaded: LoadedCourse, i: int)
    requires
        0 <= i < loaded.course.sessions@.len(),
        forall|a: int, b: int|
            0 <= a < b < loaded.course.sessions@.len() ==> (#[trigger] loaded.course.sessions@[a]).slug@
                != (#[trigger] loaded.course.sessions@[b]).slug@,
        forall|a: int| 0 <= a < loaded.course.sessions@.len() ==> is_kebab((#[trigger] loaded.course.sessions@[a]).slug@),
    ensures
        ({
            let ss = loaded.course.sessions@;
            let cs = escape(loaded.course.slug@);
            let pages = course_entries(m, loaded);
            let key = loaded.course.slug@ + "/"@ + ss[i].slug@;
            &&& pages.contains_key(key)
            &&& i > 0 ==> exists|k: int| #[trigger] occurs_at(pages[key], prev_link(cs, ss[i - 1].slug@), k)
            &&& i + 1 < ss.len() ==> exists|k: int| #[trigger] occurs_at(pages[key], next_link(cs, ss[i + 1].slug@), k)
        }),
{
    let base = m.insert(loaded.course.slug@, landing_page_spec(loaded));
    let before = sessions_entries(base, loaded, i as nat);
    let key = loaded.course.slug@ + "/"@ + loaded.course.sessions@[i].slug@;
    lemma_later_sessions_keep(base, loaded, i, loaded.course.sessions@.len());
    lemma_session_entry_links(before, loaded, i);
    assert(course_entries(m, loaded)[key] == session_entry(before, loaded, i)[key]);
}

/// Renders the whole site from parsed courses. Pages are keyed by URL path:
/// the course slug (landing), `slug/session` (session page), and
/// `slug/session/slides` (slideshow, only for sessions with slides).
pub fn render_site(courses: &[LoadedCourse]) -> (r: RenderedSite)
    requires
        renderable(courses@),
    ensures
        r.index_html@ == index_page_spec(courses@),
        r.pages@ == site_pages(courses@),
        r.not_found_html@ == not_found_spec(),
{
    let mut pages = PageMap::new();
    let mut i: usize = 0;
    assert(courses@.take(0) =~= Seq::<LoadedCourse>::empty());
    while i < courses.len()
        invariant
            i <= courses@.len(),
            renderable(courses@),
            pages@ == site_pages(courses@.take(i as int)),
        decreases courses@.len() - i,
    {
        assert(courses@[i as int].aligned());
        assert forall|s: int|
            0 <= s < courses@[i as int].course.sessions@.len() implies (
            #[trigger] courses@[i as int].course.sessions@[s]).sections@.len() < usize::MAX by {
            assert(courses@[i as int].course.sessions@[s] == courses@[i as int].course.sessions@[s]);
        }
        push_course_pages(&mut pages, &courses[i]);
        proof {
            let t = courses@.take(i + 1);
            assert(t.drop_last() =~= courses@.take(i as int));
            assert(t.last() == courses@[i as int]);
        }
        i = i + 1;
    }
    assert(courses@.take(i as int) =~= courses@);
    RenderedSite {
        index_html: render_index_page(courses),
        pages,
        not_found_html: render_not_found_page(),
    }
}

} // verus!
