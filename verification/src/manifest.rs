//! Course manifests: `content/<slug>/course.toml`.
use vstd::prelude::*;

use crate::assets::strings_view;
use crate::file_apps::{debug_text, str_debug};
use crate::error::{Error, Result};
use crate::text::{from_chars, to_chars, extend_str, trim, trim_chars};
use crate::toml_doc::{
    field_tables, field_text, field_texts, parse_document, table_view, TomlValue, tables_field_spec, text_field_spec,
    texts_field_spec, toml_document, TomlView,
};

verus! {

/// One session entry in a course manifest.
#[derive(Debug, Clone, PartialEq, Eq)]
pub struct SessionEntry {
    pub slug: String,
    pub title: String,
    pub sections: Vec<String>,
}

/// A session entry as text.
pub struct SessionEntryView {
    pub slug: Seq<char>,
    pub title: Seq<char>,
    pub sections: Seq<Seq<char>>,
}

impl View for SessionEntry {
    type V = SessionEntryView;

    open spec fn view(&self) -> SessionEntryView {
        SessionEntryView { slug: self.slug@, title: self.title@, sections: strings_view(self.sections@) }
    }
}

/// A course manifest, as authored in `content/<slug>/course.toml`.
///
/// `sessions` (the TOML array of tables `session`) lists the course's
/// sessions in display order; each names its section files in display order.
#[derive(Debug, Clone, PartialEq, Eq)]
pub struct Manifest {
    pub title: String,
    pub sessions: Vec<SessionEntry>,
}

/// A manifest as text.
pub struct ManifestView {
    pub title: Seq<char>,
    pub sessions: Seq<SessionEntryView>,
}

impl View for Manifest {
    type V = ManifestView;

    open spec fn view(&self) -> ManifestView {
        ManifestView { title: self.title@, sessions: self.sessions@.map_values(|s: SessionEntry| s@) }
    }
}

/// The first session, from `i` on, with a blank title or no sections.
pub open spec fn first_bad_session(sessions: Seq<SessionEntryView>, i: int) -> Option<int>
    decreases sessions.len() - i,
{
    if i < 0 || i >= sessions.len() {
        None
    } else if trim(sessions[i].title).len() == 0 || sessions[i].sections.len() == 0 {
        Some(i)
    } else {
        first_bad_session(sessions, i + 1)
    }
}

/// What a decoded manifest (or the decoder's message) becomes: the title
/// must not be blank, there must be a session, and the first session with a
/// blank title or no sections is reported.
pub open spec fn manifest_outcome(decoded: core::result::Result<ManifestView, Seq<char>>) -> core::result::Result<ManifestView, Error<Seq<char>>> {
    match decoded {
        Err(m) => Err(Error::InvalidManifest(m)),
        Ok(m) => if trim(m.title).len() == 0 {
            Err(Error::InvalidManifest("title must not be empty"@))
        } else if m.sessions.len() == 0 {
            Err(Error::InvalidManifest("a course must have at least one session"@))
        } else {
            match first_bad_session(m.sessions, 0) {
                None => Ok(m),
                Some(i) => if trim(m.sessions[i].title).len() == 0 {
                    Err(Error::InvalidManifest("session title must not be empty"@))
                } else {
                    Err(Error::InvalidManifest("session "@ + str_debug(m.sessions[i].slug) + " has no sections"@))
                },
            }
        },
    }
}

/// The view of a decoded manifest.
pub open spec fn decoded_view(decoded: core::result::Result<Manifest, String>) -> core::result::Result<ManifestView, Seq<char>> {
    match decoded {
        Ok(m) => Ok(m@),
        Err(e) => Err(e@),
    }
}

fn no_sections_message(slug: &String) -> (r: String)
    ensures
        r@ == "session "@ + str_debug(slug@) + " has no sections"@,
{
    let mut v = to_chars("session ");
    let quoted = debug_text(slug.as_str());
    extend_str(&mut v, quoted.as_str());
    extend_str(&mut v, " has no sections");
    from_chars(&v)
}

fn is_blank(s: &String) -> (r: bool)
    ensures
        r == (trim(s@).len() == 0),
{
    let t = to_chars(s.as_str());
    trim_chars(&t).len() == 0
}

/// Checks a manifest decoded from TOML; `Err` carries the decoder's message.
pub fn check_manifest(decoded: core::result::Result<Manifest, String>) -> (r: Result<Manifest>)
    ensures
        match manifest_outcome(decoded_view(decoded)) {
            Ok(m) => r matches Ok(n) && n@ == m,
            Err(e) => r matches Err(e2) && e2@ == e,
        },
{
    let manifest = match decoded {
        Err(m) => {
            return Err(Error::InvalidManifest(m));
        },
        Ok(m) => m,
    };
    let ghost mv = manifest@;
    if is_blank(&manifest.title) {
        return Err(Error::InvalidManifest(String::from_str("title must not be empty")));
    }
    if manifest.sessions.len() == 0 {
        return Err(Error::InvalidManifest(String::from_str("a course must have at least one session")));
    }
    let mut i: usize = 0;
    while i < manifest.sessions.len()
        invariant
            i <= manifest.sessions@.len(),
            mv == manifest@,
            decoded_view(decoded) == Ok::<ManifestView, Seq<char>>(mv),
            trim(mv.title).len() > 0,
            mv.sessions.len() > 0,
            first_bad_session(mv.sessions, 0) == first_bad_session(mv.sessions, i as int),
        decreases manifest.sessions@.len() - i,
    {
        let session = &manifest.sessions[i];
        assert(mv.sessions[i as int] == session@);
        if is_blank(&session.title) || session.sections.len() == 0 {
            assert(first_bad_session(mv.sessions, i as int) == Some(i as int));
        }
        if is_blank(&session.title) {
            return Err(Error::InvalidManifest(String::from_str("session title must not be empty")));
        }
        if session.sections.len() == 0 {
            return Err(Error::InvalidManifest(no_sections_message(&session.slug)));
        }
        i = i + 1;
    }
    Ok(manifest)
}

/// What one `[[session]]` table decodes to: required `slug`, `title` and
/// `sections`, the first that fails, in that order, giving the message.
pub open spec fn session_decode(t: Seq<(Seq<char>, TomlView)>) -> core::result::Result<SessionEntryView, Seq<char>> {
    match text_field_spec(t, "slug"@) {
        Err(m) => Err(m),
        Ok(slug) => match text_field_spec(t, "title"@) {
            Err(m) => Err(m),
            Ok(title) => match texts_field_spec(t, "sections"@, true) {
                Err(m) => Err(m),
                Ok(sections) => Ok(SessionEntryView { slug, title, sections }),
            },
        },
    }
}

/// The sessions the tables decode to, in order; the first that fails gives
/// the message.
pub open spec fn sessions_decode(tables: Seq<Seq<(Seq<char>, TomlView)>>) -> core::result::Result<
    Seq<SessionEntryView>,
    Seq<char>,
>
    decreases tables.len(),
{
    if tables.len() == 0 {
        Ok(Seq::empty())
    } else {
        match sessions_decode(tables.drop_last()) {
            Err(m) => Err(m),
            Ok(prev) => match session_decode(tables.last()) {
                Err(m) => Err(m),
                Ok(s) => Ok(prev.push(s)),
            },
        }
    }
}

/// What a manifest document decodes to: a required string `title`, then
/// the optional array of tables `session`.
pub open spec fn manifest_decode(doc: core::result::Result<Seq<(Seq<char>, TomlView)>, Seq<char>>) -> core::result::Result<
    ManifestView,
    Seq<char>,
> {
    match doc {
        Err(m) => Err(m),
        Ok(t) => match text_field_spec(t, "title"@) {
            Err(m) => Err(m),
            Ok(title) => match tables_field_spec(t, "session"@) {
                Err(m) => Err(m),
                Ok(tables) => match sessions_decode(tables) {
                    Err(m) => Err(m),
                    Ok(sessions) => Ok(ManifestView { title, sessions }),
                },
            },
        },
    }
}

/// A prefix of the tables that fails to decode gives the whole its message.
proof fn lemma_decode_prefix_err(tables: Seq<Seq<(Seq<char>, TomlView)>>, k: int)
    requires
        0 <= k <= tables.len(),
        sessions_decode(tables.take(k)) is Err,
    ensures
        sessions_decode(tables) == sessions_decode(tables.take(k)),
    decreases tables.len() - k,
{
    if k < tables.len() {
        assert(tables.take(k + 1).drop_last() =~= tables.take(k));
        lemma_decode_prefix_err(tables, k + 1);
    } else {
        assert(tables.take(k) =~= tables);
    }
}

/// Decodes one `[[session]]` table as [`session_decode`] says.
fn decode_session(t: &Vec<(String, TomlValue)>) -> (r: core::result::Result<SessionEntry, String>)
    ensures
        match session_decode(table_view(t@)) {
            Ok(s) => r matches Ok(e) && e@ == s,
            Err(m) => r matches Err(e) && e@ == m,
        },
{
    let slug = match field_text(t, "slug") {
        Ok(s) => s,
        Err(e) => {
            return Err(e);
        },
    };
    let title = match field_text(t, "title") {
        Ok(s) => s,
        Err(e) => {
            return Err(e);
        },
    };
    let sections = match field_texts(t, "sections", true) {
        Ok(s) => s,
        Err(e) => {
            return Err(e);
        },
    };
    let entry = SessionEntry { slug, title, sections };
    proof {
        let v = texts_field_spec(table_view(t@), "sections"@, true)->Ok_0;
        assert(entry@.sections =~= v);
    }
    Ok(entry)
}

/// Decodes manifest TOML as [`manifest_decode`] says.
pub(crate) fn decode_manifest(raw: &str) -> (r: core::result::Result<Manifest, String>)
    ensures
        decoded_view(r) == manifest_decode(toml_document(raw@)),
{
    let table = match parse_document(raw) {
        Ok(t) => t,
        Err(e) => {
            return Err(e);
        },
    };
    let title = match field_text(&table, "title") {
        Ok(t) => t,
        Err(e) => {
            return Err(e);
        },
    };
    let tables = match field_tables(&table, "session") {
        Ok(v) => v,
        Err(e) => {
            return Err(e);
        },
    };
    let ghost tv = tables_field_spec(table_view(table@), "session"@)->Ok_0;
    let mut sessions: Vec<SessionEntry> = Vec::new();
    assert(tv.take(0) =~= Seq::<Seq<(Seq<char>, TomlView)>>::empty());
    assert(sessions@.map_values(|s: SessionEntry| s@) =~= Seq::<SessionEntryView>::empty());
    assert(manifest_decode(toml_document(raw@)) == match sessions_decode(tv) {
        Err(m) => Err(m),
        Ok(ss) => Ok(ManifestView { title: title@, sessions: ss }),
    });
    let mut i: usize = 0;
    while i < tables.len()
        invariant
            i <= tables@.len(),
            manifest_decode(toml_document(raw@)) == match sessions_decode(tv) {
                Err(m) => Err(m),
                Ok(ss) => Ok(ManifestView { title: title@, sessions: ss }),
            },
            tables@.len() == tv.len(),
            forall|j: int| 0 <= j < tv.len() ==> #[trigger] table_view(tables@[j]@) == tv[j],
            sessions_decode(tv.take(i as int)) == Ok::<Seq<SessionEntryView>, Seq<char>>(
                sessions@.map_values(|s: SessionEntry| s@),
            ),
        decreases tables@.len() - i,
    {
        assert(tv.take(i + 1).drop_last() =~= tv.take(i as int));
        assert(tv.take(i + 1).last() == tv[i as int]);
        let entry = match decode_session(tables[i]) {
            Ok(e) => e,
            Err(e) => {
                proof {
                    lemma_decode_prefix_err(tv, i + 1);
                }
                return Err(e);
            },
        };
        let ghost prev = sessions@.map_values(|s: SessionEntry| s@);
        sessions.push(entry);
        assert(sessions@.map_values(|s: SessionEntry| s@) =~= prev.push(entry@));
        i = i + 1;
    }
    assert(tv.take(tv.len() as int) =~= tv);
    Ok(Manifest { title, sessions })
}

/// Parses raw TOML into a [`Manifest`] (parse, don't validate): the
/// document that `toml` reads is decoded by [`manifest_decode`] and checked
/// as [`manifest_outcome`] says. A manifest returned has a title that is not
/// blank and at least one session, each with a title that is not blank and
/// at least one section, and every error is an invalid manifest.
pub fn parse_manifest(raw: &str) -> (r: Result<Manifest>)
    ensures
        match manifest_outcome(manifest_decode(toml_document(raw@))) {
            Ok(m) => r matches Ok(n) && n@ == m,
            Err(e) => r matches Err(e2) && e2@ == e,
        },
        r matches Ok(m) ==> manifest_is_valid(m@),
        r matches Err(e) ==> e is InvalidManifest,
{
    let decoded = decode_manifest(raw);
    let ghost dv = decoded_view(decoded);
    let r = check_manifest(decoded);
    proof {
        if let Ok(m) = manifest_outcome(dv) {
            lemma_outcome_valid(dv, m);
        }
    }
    r
}

/// A manifest that passes every check.
pub open spec fn manifest_is_valid(m: ManifestView) -> bool {
    &&& trim(m.title).len() > 0
    &&& m.sessions.len() > 0
    &&& forall|i: int| 0 <= i < m.sessions.len() ==> trim(#[trigger] m.sessions[i].title).len() > 0
        && m.sessions[i].sections.len() > 0
}

proof fn lemma_first_bad_none(s: Seq<SessionEntryView>, i: int)
    requires
        0 <= i <= s.len(),
        first_bad_session(s, i) is None,
    ensures
        forall|j: int| i <= j < s.len() ==> trim(#[trigger] s[j].title).len() > 0 && s[j].sections.len() > 0,
    decreases s.len() - i,
{
    if i < s.len() {
        lemma_first_bad_none(s, i + 1);
    }
}

/// Every manifest that the checks let through is valid.
pub proof fn lemma_outcome_valid(d: core::result::Result<ManifestView, Seq<char>>, m: ManifestView)
    requires
        manifest_outcome(d) == Ok::<ManifestView, Error<Seq<char>>>(m),
    ensures
        manifest_is_valid(m),
{
    lemma_first_bad_none(m.sessions, 0);
}

} // verus!
