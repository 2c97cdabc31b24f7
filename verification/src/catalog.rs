//! Assembling a course from its raw inputs: the manifest, and the section
//! files it names.
use vstd::prelude::*;

use crate::assets::{lemma_push_unique_keeps_distinct, no_duplicates, push_unique_spec, strings_view, PageAssets, GUIDE_CSS_PATH, TOGGLE_JS_PATH};
use crate::course::{is_kebab, Course, CourseSlug, GuideSection, Session, SessionSlug};
use crate::directives::SlideFragment;
use crate::error::{error_message, Error, Result};
use crate::manifest::{
    check_manifest, decode_manifest, decoded_view, manifest_decode, manifest_outcome, Manifest, ManifestView, SessionEntry,
    SessionEntryView,
};
use crate::section::{
    check_frontmatter, decode_frontmatter, frontmatter_decode, frontmatter_outcome, frontmatter_split, split_frontmatter,
    Frontmatter, FrontmatterView,
};
use crate::toml_doc::toml_document;
use crate::solutions::{fragments_view, render_section_body, section_body_spec, BodyState};

verus! {

/// Raw inputs for one course: its slug, its manifest TOML, and its section
/// files as `(file name, contents)` pairs.
#[derive(Debug, Clone, Copy)]
pub struct CourseInput<'a> {
    pub slug: &'a str,
    pub manifest: &'a str,
    pub files: &'a [(String, String)],
}

/// A fully parsed course, plus one [`PageAssets`] per session and the slide
/// fragments of each session, both index-aligned with `course.sessions`.
#[derive(Debug, Clone, PartialEq, Eq)]
pub struct LoadedCourse {
    pub course: Course,
    pub session_assets: Vec<PageAssets>,
    /// Rendered slide fragments per session, in section order.
    pub session_slides: Vec<Vec<SlideFragment>>,
}

// ---------------------------------------------------------------------------
// What a course is made of, as text
// ---------------------------------------------------------------------------

/// One assembled session: its slug and title, its sections as
/// `(title, HTML)`, its page assets and its slides.
pub struct SessionOut {
    pub slug: Seq<char>,
    pub title: Seq<char>,
    pub sections: Seq<(Seq<char>, Seq<char>)>,
    pub styles: Seq<Seq<char>>,
    pub scripts: Seq<Seq<char>>,
    pub slides: Seq<(Seq<char>, bool)>,
}

/// One assembled course.
pub struct CourseOut {
    pub slug: Seq<char>,
    pub title: Seq<char>,
    pub sessions: Seq<SessionOut>,
}

/// The section files as `(name, contents)` text.
pub open spec fn files_view(files: Seq<(String, String)>) -> Seq<(Seq<char>, Seq<char>)> {
    files.map_values(|p: (String, String)| (p.0@, p.1@))
}

/// The decoded frontmatters, as text.
pub open spec fn decodes_view(d: Seq<core::result::Result<Frontmatter, String>>) -> Seq<core::result::Result<FrontmatterView, Seq<char>>> {
    d.map_values(|x: core::result::Result<Frontmatter, String>| decoded_frontmatter(x))
}

/// A decoded frontmatter, as text.
pub open spec fn decoded_frontmatter(x: core::result::Result<Frontmatter, String>) -> core::result::Result<FrontmatterView, Seq<char>> {
    match x {
        Ok(f) => Ok(f@),
        Err(m) => Err(m@),
    }
}

/// The first file, from index `i` on, named `name`.
pub open spec fn find_file(files: Seq<(Seq<char>, Seq<char>)>, name: Seq<char>, i: int) -> Option<int>
    decreases files.len() - i,
{
    if i < 0 || i >= files.len() {
        None
    } else if files[i].0 == name {
        Some(i)
    } else {
        find_file(files, name, i + 1)
    }
}

/// An error met in section file `file`, as reported.
pub open spec fn in_file(file: Seq<char>, e: Error<Seq<char>>) -> Error<Seq<char>> {
    Error::InvalidSection { file, message: error_message(e) }
}

/// One section: the file named `name` (the first of that name), split at its
/// frontmatter, with the frontmatter decoded as `fms` holds for that file,
/// and its body rendered under the frontmatter's title.
pub open spec fn section_outcome(
    files: Seq<(Seq<char>, Seq<char>)>,
    fms: Seq<core::result::Result<FrontmatterView, Seq<char>>>,
    name: Seq<char>,
) -> core::result::Result<(FrontmatterView, BodyState), Error<Seq<char>>> {
    match find_file(files, name, 0) {
        None => Err(Error::MissingSection(name)),
        Some(i) => match frontmatter_split(files[i].1) {
            Err(e) => Err(in_file(name, e)),
            Ok(parts) => match frontmatter_outcome(fms[i]) {
                Err(e) => Err(in_file(name, e)),
                Ok(fm) => match section_body_spec(fm.title, parts.1) {
                    Err(e) => Err(in_file(name, e)),
                    Ok(st) => Ok((fm, st)),
                },
            },
        },
    }
}

/// `list` with each of `items` pushed in turn, skipping duplicates.
pub open spec fn push_all(list: Seq<Seq<char>>, items: Seq<Seq<char>>) -> Seq<Seq<char>>
    decreases items.len(),
{
    if items.len() == 0 {
        list
    } else {
        push_unique_spec(push_all(list, items.drop_last()), items.last())
    }
}

/// A session's sections so far: their `(title, HTML)`, the page assets,
/// whether any uses solutions, and the slides.
pub struct SectionsAcc {
    pub sections: Seq<(Seq<char>, Seq<char>)>,
    pub styles: Seq<Seq<char>>,
    pub scripts: Seq<Seq<char>>,
    pub uses_solutions: bool,
    pub slides: Seq<(Seq<char>, bool)>,
}

/// The sections named `names`, in order; the first error stops.
pub open spec fn sections_fold(
    files: Seq<(Seq<char>, Seq<char>)>,
    fms: Seq<core::result::Result<FrontmatterView, Seq<char>>>,
    names: Seq<Seq<char>>,
) -> core::result::Result<SectionsAcc, Error<Seq<char>>>
    decreases names.len(),
{
    if names.len() == 0 {
        Ok(SectionsAcc {
            sections: seq![],
            styles: seq![GUIDE_CSS_PATH@],
            scripts: seq![],
            uses_solutions: false,
            slides: seq![],
        })
    } else {
        match sections_fold(files, fms, names.drop_last()) {
            Err(e) => Err(e),
            Ok(acc) => match section_outcome(files, fms, names.last()) {
                Err(e) => Err(e),
                Ok((fm, st)) => Ok(SectionsAcc {
                    sections: acc.sections.push((fm.title, st.html)),
                    styles: push_all(acc.styles, fm.styles),
                    scripts: push_all(acc.scripts, fm.scripts),
                    uses_solutions: acc.uses_solutions || st.uses_solutions,
                    slides: acc.slides + st.slides,
                }),
            },
        }
    }
}

/// One session from its manifest entry: a valid slug, its sections, and the
/// toggle script when any section uses a solution block.
pub open spec fn session_outcome(
    files: Seq<(Seq<char>, Seq<char>)>,
    fms: Seq<core::result::Result<FrontmatterView, Seq<char>>>,
    entry: SessionEntryView,
) -> core::result::Result<SessionOut, Error<Seq<char>>> {
    if !is_kebab(entry.slug) {
        Err(Error::InvalidSlug(entry.slug))
    } else {
        match sections_fold(files, fms, entry.sections) {
            Err(e) => Err(e),
            Ok(acc) => Ok(SessionOut {
                slug: entry.slug,
                title: entry.title,
                sections: acc.sections,
                styles: acc.styles,
                scripts: if acc.uses_solutions {
                    push_unique_spec(acc.scripts, TOGGLE_JS_PATH@)
                } else {
                    acc.scripts
                },
                slides: acc.slides,
            }),
        }
    }
}

/// The sessions of `entries`, in order; the first error stops.
pub open spec fn sessions_fold(
    files: Seq<(Seq<char>, Seq<char>)>,
    fms: Seq<core::result::Result<FrontmatterView, Seq<char>>>,
    entries: Seq<SessionEntryView>,
) -> core::result::Result<Seq<SessionOut>, Error<Seq<char>>>
    decreases entries.len(),
{
    if entries.len() == 0 {
        Ok(seq![])
    } else {
        match sessions_fold(files, fms, entries.drop_last()) {
            Err(e) => Err(e),
            Ok(ss) => match session_outcome(files, fms, entries.last()) {
                Err(e) => Err(e),
                Ok(s) => Ok(ss.push(s)),
            },
        }
    }
}

/// A course from its slug, its decoded manifest, its files and the decoded
/// frontmatter of each file.
pub open spec fn course_outcome(
    slug: Seq<char>,
    manifest: core::result::Result<ManifestView, Seq<char>>,
    files: Seq<(Seq<char>, Seq<char>)>,
    fms: Seq<core::result::Result<FrontmatterView, Seq<char>>>,
) -> core::result::Result<CourseOut, Error<Seq<char>>> {
    if !is_kebab(slug) {
        Err(Error::InvalidSlug(slug))
    } else {
        match manifest_outcome(manifest) {
            Err(e) => Err(e),
            Ok(m) => match sessions_fold(files, fms, m.sessions) {
                Err(e) => Err(e),
                Ok(ss) => Ok(CourseOut { slug, title: m.title, sessions: ss }),
            },
        }
    }
}

/// The assembled session that `session`, `assets` and `slides` make up.
pub open spec fn session_out(session: Session, assets: PageAssets, slides: Seq<SlideFragment>) -> SessionOut {
    SessionOut {
        slug: session.slug@,
        title: session.title@,
        sections: session.sections@.map_values(|g: GuideSection| (g.title@, g.body_html@)),
        styles: assets.style_list(),
        scripts: assets.script_list(),
        slides: fragments_view(slides),
    }
}

impl LoadedCourse {
    /// The per-session lists line up with the sessions.
    pub open spec fn aligned(&self) -> bool {
        &&& self.session_assets@.len() == self.course.sessions@.len()
        &&& self.session_slides@.len() == self.course.sessions@.len()
    }

    /// The loaded course, as text.
    pub open spec fn out(&self) -> CourseOut {
        CourseOut {
            slug: self.course.slug@,
            title: self.course.title@,
            sessions: Seq::new(
                self.course.sessions@.len(),
                |i: int| session_out(self.course.sessions@[i], self.session_assets@[i], self.session_slides@[i]@),
            ),
        }
    }
}

/// `r` is what `spec` describes.
pub open spec fn course_matches(r: Result<LoadedCourse>, spec: core::result::Result<CourseOut, Error<Seq<char>>>) -> bool {
    match spec {
        Ok(c) => r matches Ok(l) && l.aligned() && l.out() == c,
        Err(e) => r matches Err(e2) && e2@ == e,
    }
}

// ---------------------------------------------------------------------------
// What a session's page assets are
// ---------------------------------------------------------------------------

proof fn lemma_push_all(list: Seq<Seq<char>>, items: Seq<Seq<char>>)
    requires
        no_duplicates(list),
    ensures
        no_duplicates(push_all(list, items)),
        push_all(list, items).len() >= list.len(),
        forall|i: int| 0 <= i < list.len() ==> #[trigger] push_all(list, items)[i] == list[i],
    decreases items.len(),
{
    if items.len() > 0 {
        let before = push_all(list, items.drop_last());
        lemma_push_all(list, items.drop_last());
        lemma_push_unique_keeps_distinct(before, items.last());
        assert forall|i: int| 0 <= i < list.len() implies #[trigger] push_all(list, items)[i] == list[i] by {
            assert(before[i] == list[i]);
            if !before.contains(items.last()) {
                assert(before.push(items.last())[i] == before[i]);
            }
        }
    }
}

proof fn lemma_sections_assets(
    files: Seq<(Seq<char>, Seq<char>)>,
    fms: Seq<core::result::Result<FrontmatterView, Seq<char>>>,
    names: Seq<Seq<char>>,
)
    ensures
        sections_fold(files, fms, names) matches Ok(acc) ==> no_duplicates(acc.styles) && no_duplicates(acc.scripts)
            && acc.styles.len() >= 1 && acc.styles[0] == GUIDE_CSS_PATH@,
    decreases names.len(),
{
    if names.len() > 0 {
        lemma_sections_assets(files, fms, names.drop_last());
        if let Ok(acc) = sections_fold(files, fms, names.drop_last()) {
            if let Ok((fm, st)) = section_outcome(files, fms, names.last()) {
                lemma_push_all(acc.styles, fm.styles);
                lemma_push_all(acc.scripts, fm.scripts);
            }
        }
    }
}

/// Every assembled session's page assets start with the guide stylesheet and
/// hold no stylesheet or script twice; when any of its sections uses a
/// solution block, the toggle script is among them.
pub proof fn lemma_session_assets(
    files: Seq<(Seq<char>, Seq<char>)>,
    fms: Seq<core::result::Result<FrontmatterView, Seq<char>>>,
    entry: SessionEntryView,
)
    ensures
        session_outcome(files, fms, entry) matches Ok(s) ==> {
            &&& no_duplicates(s.styles)
            &&& no_duplicates(s.scripts)
            &&& s.styles.len() >= 1
            &&& s.styles[0] == GUIDE_CSS_PATH@
            &&& (sections_fold(files, fms, entry.sections) matches Ok(acc) && acc.uses_solutions ==> s.scripts.contains(TOGGLE_JS_PATH@))
        },
{
    lemma_sections_assets(files, fms, entry.sections);
    if let Ok(acc) = sections_fold(files, fms, entry.sections) {
        if acc.uses_solutions {
            lemma_push_unique_keeps_distinct(acc.scripts, TOGGLE_JS_PATH@);
        }
    }
}

// ---------------------------------------------------------------------------
// Assembling
// ---------------------------------------------------------------------------

proof fn lemma_sections_err(
    files: Seq<(Seq<char>, Seq<char>)>,
    fms: Seq<core::result::Result<FrontmatterView, Seq<char>>>,
    names: Seq<Seq<char>>,
    j: int,
)
    requires
        0 <= j <= names.len(),
        sections_fold(files, fms, names.take(j)) is Err,
    ensures
        sections_fold(files, fms, names) == sections_fold(files, fms, names.take(j)),
    decreases names.len() - j,
{
    if j < names.len() {
        assert(names.take(j + 1).drop_last() =~= names.take(j));
        lemma_sections_err(files, fms, names, j + 1);
    } else {
        assert(names.take(j) =~= names);
    }
}

proof fn lemma_sessions_err(
    files: Seq<(Seq<char>, Seq<char>)>,
    fms: Seq<core::result::Result<FrontmatterView, Seq<char>>>,
    entries: Seq<SessionEntryView>,
    j: int,
)
    requires
        0 <= j <= entries.len(),
        sessions_fold(files, fms, entries.take(j)) is Err,
    ensures
        sessions_fold(files, fms, entries) == sessions_fold(files, fms, entries.take(j)),
    decreases entries.len() - j,
{
    if j < entries.len() {
        assert(entries.take(j + 1).drop_last() =~= entries.take(j));
        lemma_sessions_err(files, fms, entries, j + 1);
    } else {
        assert(entries.take(j) =~= entries);
    }
}

fn copy_strings(v: &Vec<String>) -> (r: Vec<String>)
    ensures
        strings_view(r@) == strings_view(v@),
{
    let r = v.clone();
    assert(strings_view(r@) =~= strings_view(v@));
    r
}

fn copy_decoded(d: &core::result::Result<Frontmatter, String>) -> (r: core::result::Result<Frontmatter, String>)
    ensures
        decoded_frontmatter(r) == decoded_frontmatter(*d),
{
    match d {
        Ok(f) => Ok(Frontmatter { title: f.title.clone(), scripts: copy_strings(&f.scripts), styles: copy_strings(&f.styles) }),
        Err(m) => Err(m.clone()),
    }
}

proof fn lemma_find_file(files: Seq<(Seq<char>, Seq<char>)>, name: Seq<char>, i: int)
    requires
        0 <= i,
    ensures
        find_file(files, name, i) matches Some(k) ==> i <= k < files.len() && files[k].0 == name,
    decreases files.len() - i,
{
    if i < files.len() && files[i].0 != name {
        lemma_find_file(files, name, i + 1);
    }
}

fn find_file_exec(files: &[(String, String)], name: &String) -> (r: Option<usize>)
    ensures
        match find_file(files_view(files@), name@, 0) {
            None => r is None,
            Some(i) => r == Some(i as usize),
        },
{
    let ghost fv = files_view(files@);
    let mut i: usize = 0;
    while i < files.len()
        invariant
            i <= files@.len(),
            fv == files_view(files@),
            find_file(fv, name@, 0) == find_file(fv, name@, i as int),
        decreases files@.len() - i,
    {
        assert(fv[i as int].0 == files@[i as int].0@);
        if files[i].0 == *name {
            return Some(i);
        }
        i = i + 1;
    }
    None
}

fn in_file_exec(file: &String, e: &Error) -> (r: Error)
    ensures
        r@ == in_file(file@, e@),
{
    Error::InvalidSection { file: file.clone(), message: e.message() }
}

fn push_styles(assets: &mut PageAssets, items: &Vec<String>)
    ensures
        final(assets).style_list() == push_all(old(assets).style_list(), strings_view(items@)),
        final(assets).script_list() == old(assets).script_list(),
{
    let ghost iv = strings_view(items@);
    let mut k: usize = 0;
    while k < items.len()
        invariant
            k <= items@.len(),
            iv == strings_view(items@),
            assets.style_list() == push_all(old(assets).style_list(), iv.take(k as int)),
            assets.script_list() == old(assets).script_list(),
        decreases items@.len() - k,
    {
        assert(iv.take(k + 1).drop_last() =~= iv.take(k as int));
        assets.push_style(items[k].as_str());
        k = k + 1;
    }
    assert(iv.take(k as int) =~= iv);
}

fn push_scripts(assets: &mut PageAssets, items: &Vec<String>)
    ensures
        final(assets).script_list() == push_all(old(assets).script_list(), strings_view(items@)),
        final(assets).style_list() == old(assets).style_list(),
{
    let ghost iv = strings_view(items@);
    let mut k: usize = 0;
    while k < items.len()
        invariant
            k <= items@.len(),
            iv == strings_view(items@),
            assets.script_list() == push_all(old(assets).script_list(), iv.take(k as int)),
            assets.style_list() == old(assets).style_list(),
        decreases items@.len() - k,
    {
        assert(iv.take(k + 1).drop_last() =~= iv.take(k as int));
        assets.push_script(items[k].as_str());
        k = k + 1;
    }
    assert(iv.take(k as int) =~= iv);
}

/// The sections of a session, as `(title, HTML)`.
pub open spec fn sections_view(v: Seq<GuideSection>) -> Seq<(Seq<char>, Seq<char>)> {
    v.map_values(|g: GuideSection| (g.title@, g.body_html@))
}

/// Assembles one session, its page assets, and its slide fragments from its
/// manifest entry.
#[verifier::rlimit(40)]
fn assemble_session(
    entry: &SessionEntry,
    files: &[(String, String)],
    fms: &[core::result::Result<Frontmatter, String>],
) -> (r: Result<(Session, PageAssets, Vec<SlideFragment>)>)
    requires
        fms@.len() == files@.len(),
    ensures
        match session_outcome(files_view(files@), decodes_view(fms@), entry@) {
            Ok(s) => r matches Ok((ses, a, sl)) && session_out(ses, a, sl@) == s,
            Err(e) => r matches Err(e2) && e2@ == e,
        },
{
    let ghost fv = files_view(files@);
    let ghost dv = decodes_view(fms@);
    let ghost names = entry@.sections;
    let session_slug = match SessionSlug::parse(entry.slug.as_str()) {
        Ok(s) => s,
        Err(e) => {
            return Err(e);
        },
    };
    let mut assets = PageAssets::base();
    let mut sections: Vec<GuideSection> = Vec::new();
    let mut uses_solutions = false;
    let mut all_slides: Vec<SlideFragment> = Vec::new();
    let mut j: usize = 0;
    assert(names.take(0) =~= Seq::<Seq<char>>::empty());
    assert(sections_view(sections@) =~= Seq::<(Seq<char>, Seq<char>)>::empty());
    assert(fragments_view(all_slides@) =~= Seq::<(Seq<char>, bool)>::empty());
    while j < entry.sections.len()
        invariant
            fms@.len() == files@.len(),
            fv == files_view(files@),
            dv == decodes_view(fms@),
            names == entry@.sections,
            names.len() == entry.sections@.len(),
            is_kebab(entry@.slug),
            j <= entry.sections@.len(),
            sections_fold(fv, dv, names.take(j as int)) == Ok::<SectionsAcc, Error<Seq<char>>>(SectionsAcc {
                sections: sections_view(sections@),
                styles: assets.style_list(),
                scripts: assets.script_list(),
                uses_solutions,
                slides: fragments_view(all_slides@),
            }),
        decreases entry.sections@.len() - j,
    {
        let name = &entry.sections[j];
        assert(names[j as int] == name@);
        assert(names.take(j + 1).drop_last() =~= names.take(j as int));
        assert(names.take(j + 1).last() == name@);
        proof {
            lemma_find_file(fv, name@, 0);
        }
        let idx = match find_file_exec(files, name) {
            None => {
                let missing = name.clone();
                assert(section_outcome(fv, dv, name@) == Err::<(FrontmatterView, BodyState), Error<Seq<char>>>(Error::MissingSection(name@)));
                proof {
                    lemma_sections_err(fv, dv, names, j + 1);
                }
                return Err(Error::MissingSection(missing));
            },
            Some(k) => k,
        };
        let contents = files[idx].1.as_str();
        assert(fv[idx as int].1 == contents@);
        let body = match split_frontmatter(contents) {
            Ok((_, b)) => b,
            Err(e) => {
                proof {
                    lemma_sections_err(fv, dv, names, j + 1);
                }
                return Err(in_file_exec(name, &e));
            },
        };
        assert(dv[idx as int] == decoded_frontmatter(fms@[idx as int]));
        let fm = match check_frontmatter(copy_decoded(&fms[idx])) {
            Ok(f) => f,
            Err(e) => {
                proof {
                    lemma_sections_err(fv, dv, names, j + 1);
                }
                return Err(in_file_exec(name, &e));
            },
        };
        let rendered = match render_section_body(fm.title.as_str(), body) {
            Ok(b) => b,
            Err(e) => {
                proof {
                    lemma_sections_err(fv, dv, names, j + 1);
                }
                return Err(in_file_exec(name, &e));
            },
        };
        uses_solutions = uses_solutions || rendered.uses_solutions;
        push_styles(&mut assets, &fm.styles);
        push_scripts(&mut assets, &fm.scripts);
        let ghost slides_before = all_slides@;
        let mut fresh = rendered.slide_html;
        all_slides.append(&mut fresh);
        assert(fragments_view(all_slides@) =~= fragments_view(slides_before) + fragments_view(rendered.slide_html@));
        let ghost secs_before = sections@;
        sections.push(GuideSection { title: fm.title, body_html: rendered.html });
        assert(sections_view(sections@) =~= sections_view(secs_before).push((fm.title@, rendered.html@)));
        j = j + 1;
    }
    assert(names.take(j as int) =~= names);
    if uses_solutions {
        assets.push_script(TOGGLE_JS_PATH);
    }
    let session = Session { slug: session_slug, title: entry.title.clone(), sections };
    Ok((session, assets, all_slides))
}

/// Assembles a course from its slug, its decoded manifest (or the decoder's
/// message), its section files, and the decoded frontmatter of each file,
/// index-aligned with `files`.
#[verifier::rlimit(40)]
pub fn assemble_course(
    slug: &str,
    manifest: core::result::Result<Manifest, String>,
    files: &[(String, String)],
    frontmatters: &[core::result::Result<Frontmatter, String>],
) -> (r: Result<LoadedCourse>)
    requires
        frontmatters@.len() == files@.len(),
    ensures
        course_matches(r, course_outcome(slug@, decoded_view(manifest), files_view(files@), decodes_view(frontmatters@))),
{
    let ghost fv = files_view(files@);
    let ghost dv = decodes_view(frontmatters@);
    let ghost dmv = decoded_view(manifest);
    let course_slug = match CourseSlug::parse(slug) {
        Ok(s) => s,
        Err(e) => {
            return Err(e);
        },
    };
    let checked = match check_manifest(manifest) {
        Ok(m) => m,
        Err(e) => {
            return Err(e);
        },
    };
    let ghost mv = checked@;
    let Manifest { title, sessions: entries } = checked;
    let ghost ev = mv.sessions;
    assert(ev =~= entries@.map_values(|s: SessionEntry| s@));
    let mut sessions: Vec<Session> = Vec::new();
    let mut session_assets: Vec<PageAssets> = Vec::new();
    let mut session_slides: Vec<Vec<SlideFragment>> = Vec::new();
    let mut i: usize = 0;
    assert(ev.take(0) =~= Seq::<SessionEntryView>::empty());
    assert(Seq::new(0, |k: int| session_out(sessions@[k], session_assets@[k], session_slides@[k]@)) =~= Seq::<SessionOut>::empty());
    while i < entries.len()
        invariant
            is_kebab(slug@),
            manifest_outcome(dmv) == Ok::<ManifestView, Error<Seq<char>>>(mv),
            dmv == decoded_view(manifest),
            ev == mv.sessions,
            frontmatters@.len() == files@.len(),
            fv == files_view(files@),
            dv == decodes_view(frontmatters@),
            ev.len() == entries@.len(),
            forall|k: int| 0 <= k < ev.len() ==> ev[k] == (#[trigger] entries@[k])@,
            i <= entries@.len(),
            sessions@.len() == i,
            session_assets@.len() == i,
            session_slides@.len() == i,
            sessions_fold(fv, dv, ev.take(i as int)) == Ok::<Seq<SessionOut>, Error<Seq<char>>>(
                Seq::new(i as nat, |k: int| session_out(sessions@[k], session_assets@[k], session_slides@[k]@)),
            ),
        decreases entries@.len() - i,
    {
        assert(ev.take(i + 1).drop_last() =~= ev.take(i as int));
        assert(ev.take(i + 1).last() == entries@[i as int]@);
        match assemble_session(&entries[i], files, frontmatters) {
            Ok((s, a, sl)) => {
                let ghost before = Seq::new(i as nat, |k: int| session_out(sessions@[k], session_assets@[k], session_slides@[k]@));
                let ghost one = session_out(s, a, sl@);
                sessions.push(s);
                session_assets.push(a);
                session_slides.push(sl);
                assert(Seq::new((i + 1) as nat, |k: int| session_out(sessions@[k], session_assets@[k], session_slides@[k]@)) =~= before.push(one));
            },
            Err(e) => {
                proof {
                    lemma_sessions_err(fv, dv, ev, i + 1);
                }
                return Err(e);
            },
        }
        i = i + 1;
    }
    assert(ev.take(i as int) =~= ev);
    let loaded = LoadedCourse {
        course: Course { slug: course_slug, title, sessions },
        session_assets,
        session_slides,
    };
    assert(loaded.out().sessions =~= Seq::new(i as nat, |k: int| session_out(loaded.course.sessions@[k], loaded.session_assets@[k], loaded.session_slides@[k]@)));
    Ok(loaded)
}

/// What the frontmatter of one section file decodes to: the `toml`
/// document between its fences, decoded by [`frontmatter_decode`]; a file
/// whose fences are wrong decodes to nothing (its split error is what the
/// course reports).
pub open spec fn file_frontmatter(content: Seq<char>) -> core::result::Result<FrontmatterView, Seq<char>> {
    match frontmatter_split(content) {
        Ok((fm, _)) => frontmatter_decode(toml_document(fm)),
        Err(_) => Err(Seq::empty()),
    }
}

/// Parses raw course inputs into a [`LoadedCourse`] (parse, don't validate).
///
/// Each session's assets carry the base stylesheet, the toggle script when any
/// of that session's sections uses a `::: solucion` block, and the frontmatter
/// extras of its sections, merged and deduped in section order. The TOML of
/// the manifest and of each file's frontmatter is read by the `toml` crate
/// and decoded by [`manifest_decode`] and [`file_frontmatter`]; the course is
/// what [`assemble_course`] makes of the decoded values.
pub fn parse_course(input: &CourseInput<'_>) -> (r: Result<LoadedCourse>)
    ensures
        course_matches(
            r,
            course_outcome(
                input.slug@,
                manifest_decode(toml_document(input.manifest@)),
                files_view(input.files@),
                Seq::new(input.files@.len(), |k: int| file_frontmatter(input.files@[k].1@)),
            ),
        ),
{
    let manifest = decode_manifest(input.manifest);
    let mut frontmatters: Vec<core::result::Result<Frontmatter, String>> = Vec::new();
    let mut i: usize = 0;
    while i < input.files.len()
        invariant
            i <= input.files@.len(),
            frontmatters@.len() == i,
            forall|k: int| 0 <= k < i ==> decoded_frontmatter(#[trigger] frontmatters@[k]) == file_frontmatter(input.files@[k].1@),
        decreases input.files@.len() - i,
    {
        let decoded = match split_frontmatter(input.files[i].1.as_str()) {
            Ok((raw, _)) => decode_frontmatter(raw),
            Err(_) => {
                let empty = String::new();
                assert(empty@ =~= Seq::<char>::empty());
                Err(empty)
            },
        };
        frontmatters.push(decoded);
        i = i + 1;
    }
    assert(decodes_view(frontmatters@) =~= Seq::new(input.files@.len(), |k: int| file_frontmatter(input.files@[k].1@)));
    assemble_course(input.slug, manifest, input.files, &frontmatters)
}

} // verus!
