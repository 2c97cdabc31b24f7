//! Section files: TOML frontmatter between `+++` fences, then a Markdown
//! body.
use vstd::prelude::*;

use crate::assets::strings_view;
use crate::error::{Error, Result};
use crate::text::{find, find_chars, starts_with, starts_with_str, to_chars, trim, trim_chars};
use crate::toml_doc::{field_text, field_texts, parse_document, text_field_spec, texts_field_spec, toml_document, TomlView};

verus! {

/// TOML frontmatter at the head of a section's Markdown file, between `+++`
/// fences.
#[derive(Debug, Clone, PartialEq, Eq)]
pub struct Frontmatter {
    pub title: String,
    pub scripts: Vec<String>,
    pub styles: Vec<String>,
}

/// A frontmatter as text.
pub struct FrontmatterView {
    pub title: Seq<char>,
    pub scripts: Seq<Seq<char>>,
    pub styles: Seq<Seq<char>>,
}

impl View for Frontmatter {
    type V = FrontmatterView;

    open spec fn view(&self) -> FrontmatterView {
        FrontmatterView {
            title: self.title@,
            scripts: strings_view(self.scripts@),
            styles: strings_view(self.styles@),
        }
    }
}

pub open spec fn opening_fence() -> Seq<char> {
    seq!['+', '+', '+', '\n']
}

pub open spec fn closing_fence() -> Seq<char> {
    seq!['\n', '+', '+', '+']
}

/// A section file split into its frontmatter text and its body: the file
/// opens with a `+++` line, the next `\n+++` closes the frontmatter and must
/// end its line, and the body follows that line.
pub open spec fn frontmatter_split(raw: Seq<char>) -> core::result::Result<(Seq<char>, Seq<char>), Error<Seq<char>>> {
    if !starts_with(raw, opening_fence()) {
        Err(Error::InvalidFrontmatter("missing opening +++"@))
    } else {
        let rest = raw.skip(4);
        match find(rest, closing_fence()) {
            None => Err(Error::InvalidFrontmatter("missing closing +++"@)),
            Some(end) => {
                let after = rest.skip(end + 4);
                if after.len() > 0 && after[0] != '\n' {
                    Err(Error::InvalidFrontmatter("closing +++ must be alone on its line"@))
                } else if after.len() > 0 {
                    Ok((rest.take(end), after.skip(1)))
                } else {
                    Ok((rest.take(end), after))
                }
            },
        }
    }
}

/// Splits a section file into its raw frontmatter TOML, and its Markdown body.
///
/// The file must open with a `+++` line; the next `+++` line closes the
/// frontmatter, and everything after it is the body.
pub fn split_frontmatter(raw: &str) -> (r: Result<(&str, &str)>)
    ensures
        match frontmatter_split(raw@) {
            Ok((fm, body)) => r matches Ok((f, b)) && f@ == fm && b@ == body,
            Err(e) => r matches Err(e2) && e2@ == e,
        },
{
    let s = to_chars(raw);
    proof {
        reveal_strlit("+++\n");
        reveal_strlit("\n+++");
        assert("+++\n"@ =~= opening_fence());
        assert("\n+++"@ =~= closing_fence());
    }
    if !starts_with_str(&s, "+++\n") {
        return Err(Error::InvalidFrontmatter(String::from_str("missing opening +++")));
    }
    let rest = &s[4..s.len()];
    assert(rest@ =~= raw@.skip(4));
    let close = to_chars("\n+++");
    let end = match find_chars(rest, &close) {
        None => {
            return Err(Error::InvalidFrontmatter(String::from_str("missing closing +++")));
        },
        Some(e) => e,
    };
    assert(end + 4 <= rest@.len());
    let a = 4 + end + 4;
    if a < s.len() && s[a] != '\n' {
        assert(rest@.skip(end + 4)[0] == s@[a as int]);
        return Err(Error::InvalidFrontmatter(String::from_str("closing +++ must be alone on its line")));
    }
    let fm = raw.substring_char(4, 4 + end);
    assert(fm@ =~= rest@.take(end as int));
    if a < s.len() {
        let body = raw.substring_char(a + 1, s.len());
        assert(body@ =~= rest@.skip(end + 4).skip(1));
        Ok((fm, body))
    } else {
        let body = raw.substring_char(a, s.len());
        assert(body@ =~= rest@.skip(end + 4));
        Ok((fm, body))
    }
}

/// What a decoded frontmatter (or the decoder's message) becomes: decoding
/// errors and a blank title are invalid frontmatter.
pub open spec fn frontmatter_outcome(decoded: core::result::Result<FrontmatterView, Seq<char>>) -> core::result::Result<FrontmatterView, Error<Seq<char>>> {
    match decoded {
        Err(m) => Err(Error::InvalidFrontmatter(m)),
        Ok(f) => if trim(f.title).len() == 0 {
            Err(Error::InvalidFrontmatter("title must not be empty"@))
        } else {
            Ok(f)
        },
    }
}

/// Checks a frontmatter decoded from TOML; `Err` carries the decoder's
/// message.
pub fn check_frontmatter(decoded: core::result::Result<Frontmatter, String>) -> (r: Result<Frontmatter>)
    ensures
        match frontmatter_outcome(match decoded {
            Ok(f) => Ok(f@),
            Err(m) => Err(m@),
        }) {
            Ok(f) => r matches Ok(g) && g@ == f,
            Err(e) => r matches Err(e2) && e2@ == e,
        },
{
    match decoded {
        Err(m) => Err(Error::InvalidFrontmatter(m)),
        Ok(f) => {
            let t = to_chars(f.title.as_str());
            if trim_chars(&t).len() == 0 {
                Err(Error::InvalidFrontmatter(String::from_str("title must not be empty")))
            } else {
                Ok(f)
            }
        },
    }
}

/// What a frontmatter document decodes to: `title` is a required string,
/// `scripts` and `styles` are optional arrays of strings; the first field
/// that fails, in that order, gives the message.
pub open spec fn frontmatter_decode(doc: core::result::Result<Seq<(Seq<char>, TomlView)>, Seq<char>>) -> core::result::Result<
    FrontmatterView,
    Seq<char>,
> {
    match doc {
        Err(m) => Err(m),
        Ok(t) => match text_field_spec(t, "title"@) {
            Err(m) => Err(m),
            Ok(title) => match texts_field_spec(t, "scripts"@, false) {
                Err(m) => Err(m),
                Ok(scripts) => match texts_field_spec(t, "styles"@, false) {
                    Err(m) => Err(m),
                    Ok(styles) => Ok(FrontmatterView { title, scripts, styles }),
                },
            },
        },
    }
}

/// Decodes frontmatter TOML as [`frontmatter_decode`] says.
pub(crate) fn decode_frontmatter(raw: &str) -> (r: core::result::Result<Frontmatter, String>)
    ensures
        match frontmatter_decode(toml_document(raw@)) {
            Ok(f) => r matches Ok(g) && g@ == f,
            Err(m) => r matches Err(e) && e@ == m,
        },
{
    let table = match parse_document(raw) {
        Ok(t) => t,
        Err(e) => {
            return Err(e);
        },
    };
    let title = match field_text(&table, "title") {
        Ok(t) => t,
        Err(e) => {
            return Err(e);
        },
    };
    let scripts = match field_texts(&table, "scripts", false) {
        Ok(v) => v,
        Err(e) => {
            return Err(e);
        },
    };
    let styles = match field_texts(&table, "styles", false) {
        Ok(v) => v,
        Err(e) => {
            return Err(e);
        },
    };
    let f = Frontmatter { title, scripts, styles };
    proof {
        let tv = match toml_document(raw@) {
            Ok(t) => t,
            Err(_) => Seq::empty(),
        };
        let sv = texts_field_spec(tv, "scripts"@, false)->Ok_0;
        let yv = texts_field_spec(tv, "styles"@, false)->Ok_0;
        assert(f@.scripts =~= sv);
        assert(f@.styles =~= yv);
    }
    Ok(f)
}

/// Parses raw frontmatter TOML into a [`Frontmatter`]: the document that
/// `toml` reads is decoded by [`frontmatter_decode`] and checked as
/// [`frontmatter_outcome`] says, so a frontmatter returned has a title that
/// is not blank, and every error is invalid frontmatter.
pub fn parse_frontmatter(raw: &str) -> (r: Result<Frontmatter>)
    ensures
        match frontmatter_outcome(frontmatter_decode(toml_document(raw@))) {
            Ok(f) => r matches Ok(g) && g@ == f,
            Err(e) => r matches Err(e2) && e2@ == e,
        },
        r matches Ok(f) ==> trim(f.title@).len() > 0,
        r matches Err(e) ==> e is InvalidFrontmatter,
{
    check_frontmatter(decode_frontmatter(raw))
}

} // verus!
