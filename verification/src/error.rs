//! The errors the course domain reports.
use vstd::prelude::*;

use crate::file_apps::{debug_text, str_debug};
use crate::text::{from_chars, to_chars, extend_str, extend_chars};

verus! {

/// Errors produced by the course domain.
#[derive(Debug, Clone, PartialEq, Eq)]
pub enum Error<S = String> {
    /// Reserved for a direct-lookup API; the server answers unknown slugs
    /// with its 404 page instead.
    CourseNotFound(S),
    InvalidSlug(S),
    InvalidManifest(S),
    InvalidFrontmatter(S),
    MissingSection(S),
    UnclosedSolution,
    NestedSolution,
    UnclosedSlide,
    NestedSlide,
    UnclosedInlineSlide,
    NestedInlineSlide,
    UnclosedTitleSlide,
    NestedTitleSlide,
    TitleSlideNotEmpty,
    UnclosedWarning,
    NestedWarning,
    UnclosedInfo,
    UnclosedExtra,
    NestedExtra,
    UnclosedApp,
    NestedApp,
    UnclosedSkip,
    UnclosedAdd,
    DuplicateAnchor(S),
    EmptyAnchor(S),
    UnknownSlideRef(S),
    MalformedGoto(S),
    UnknownGotoTarget(S),
    InvalidSection { file: S, message: S },
    MalformedNotification(S),
    MalformedEvent(S),
}

impl View for Error {
    type V = Error<Seq<char>>;

    open spec fn view(&self) -> Error<Seq<char>> {
        match self {
            Error::CourseNotFound(s) => Error::CourseNotFound(s@),
            Error::InvalidSlug(s) => Error::InvalidSlug(s@),
            Error::InvalidManifest(s) => Error::InvalidManifest(s@),
            Error::InvalidFrontmatter(s) => Error::InvalidFrontmatter(s@),
            Error::MissingSection(s) => Error::MissingSection(s@),
            Error::UnclosedSolution => Error::UnclosedSolution,
            Error::NestedSolution => Error::NestedSolution,
            Error::UnclosedSlide => Error::UnclosedSlide,
            Error::NestedSlide => Error::NestedSlide,
            Error::UnclosedInlineSlide => Error::UnclosedInlineSlide,
            Error::NestedInlineSlide => Error::NestedInlineSlide,
            Error::UnclosedTitleSlide => Error::UnclosedTitleSlide,
            Error::NestedTitleSlide => Error::NestedTitleSlide,
            Error::TitleSlideNotEmpty => Error::TitleSlideNotEmpty,
            Error::UnclosedWarning => Error::UnclosedWarning,
            Error::NestedWarning => Error::NestedWarning,
            Error::UnclosedInfo => Error::UnclosedInfo,
            Error::UnclosedExtra => Error::UnclosedExtra,
            Error::NestedExtra => Error::NestedExtra,
            Error::UnclosedApp => Error::UnclosedApp,
            Error::NestedApp => Error::NestedApp,
            Error::UnclosedSkip => Error::UnclosedSkip,
            Error::UnclosedAdd => Error::UnclosedAdd,
            Error::DuplicateAnchor(s) => Error::DuplicateAnchor(s@),
            Error::EmptyAnchor(s) => Error::EmptyAnchor(s@),
            Error::UnknownSlideRef(s) => Error::UnknownSlideRef(s@),
            Error::MalformedGoto(s) => Error::MalformedGoto(s@),
            Error::UnknownGotoTarget(s) => Error::UnknownGotoTarget(s@),
            Error::InvalidSection { file, message } => Error::InvalidSection { file: file@, message: message@ },
            Error::MalformedNotification(s) => Error::MalformedNotification(s@),
            Error::MalformedEvent(s) => Error::MalformedEvent(s@),
        }
    }
}

pub type Result<T> = core::result::Result<T, Error>;

/// `prefix` followed by `detail`.
fn with_detail(prefix: &str, detail: &String) -> (r: String)
    ensures
        r@ == prefix@ + detail@,
{
    let mut v = to_chars(prefix);
    extend_str(&mut v, detail.as_str());
    from_chars(&v)
}

/// `prefix`, `detail`, and `suffix`.
fn around(prefix: &str, detail: &String, suffix: &str) -> (r: String)
    ensures
        r@ == prefix@ + detail@ + suffix@,
{
    let mut v = to_chars(prefix);
    extend_str(&mut v, detail.as_str());
    extend_str(&mut v, suffix);
    from_chars(&v)
}

/// The human-readable description of an error.
pub open spec fn error_message(e: Error<Seq<char>>) -> Seq<char> {
    match e {
        Error::CourseNotFound(s) => "course not found: "@ + s,
        Error::InvalidSlug(s) => "invalid course slug: "@ + str_debug(s),
        Error::InvalidManifest(s) => "invalid manifest: "@ + s,
        Error::InvalidFrontmatter(s) => "invalid frontmatter: "@ + s,
        Error::MissingSection(s) => "section file named in manifest but absent: "@ + s,
        Error::UnclosedSolution => "unclosed `::: solucion` block"@,
        Error::NestedSolution => "nested `::: solucion` block"@,
        Error::UnclosedSlide => "unclosed `:::slide` block"@,
        Error::NestedSlide => "nested `:::slide` block"@,
        Error::UnclosedInlineSlide => "unclosed `:::inline-slide` block"@,
        Error::NestedInlineSlide => "nested `:::inline-slide` block"@,
        Error::UnclosedTitleSlide => "unclosed `:::title-slide` block"@,
        Error::NestedTitleSlide => "nested `:::title-slide` block"@,
        Error::TitleSlideNotEmpty => "`:::title-slide` block must be empty"@,
        Error::UnclosedWarning => "unclosed `::: warning` block"@,
        Error::NestedWarning => "nested `::: warning` block"@,
        Error::UnclosedInfo => "unclosed `::: info` block"@,
        Error::UnclosedExtra => "unclosed `::: extra` block"@,
        Error::NestedExtra => "nested `::: extra` block"@,
        Error::UnclosedApp => "unclosed `:::app` block"@,
        Error::NestedApp => "nested `:::app` block"@,
        Error::UnclosedSkip => "unclosed `:::skip` block"@,
        Error::UnclosedAdd => "unclosed `:::add` block"@,
        Error::DuplicateAnchor(s) => "duplicate anchor: "@ + s,
        Error::EmptyAnchor(s) => "anchor "@ + s + " is not followed by a block"@,
        Error::UnknownSlideRef(s) => "slide references unknown anchor: "@ + s,
        Error::MalformedGoto(s) => "malformed cb-goto: "@ + s,
        Error::UnknownGotoTarget(s) => "cb-goto references an unknown heading: "@ + s,
        Error::MalformedNotification(s) => "malformed SNS payload: "@ + s,
        Error::MalformedEvent(s) => "malformed event: "@ + s,
        Error::InvalidSection { file, message } => "in section "@ + file + ": "@ + message,
    }
}

impl Error {
    /// The human-readable description of the error.
    pub fn message(&self) -> (r: String)
        ensures
            r@ == error_message(self@),
    {
        match self {
            Error::CourseNotFound(s) => with_detail("course not found: ", s),
            Error::InvalidSlug(s) => with_detail("invalid course slug: ", &debug_text(s.as_str())),
            Error::InvalidManifest(s) => with_detail("invalid manifest: ", s),
            Error::InvalidFrontmatter(s) => with_detail("invalid frontmatter: ", s),
            Error::MissingSection(s) => with_detail("section file named in manifest but absent: ", s),
            Error::UnclosedSolution => String::from_str("unclosed `::: solucion` block"),
            Error::NestedSolution => String::from_str("nested `::: solucion` block"),
            Error::UnclosedSlide => String::from_str("unclosed `:::slide` block"),
            Error::NestedSlide => String::from_str("nested `:::slide` block"),
            Error::UnclosedInlineSlide => String::from_str("unclosed `:::inline-slide` block"),
            Error::NestedInlineSlide => String::from_str("nested `:::inline-slide` block"),
            Error::UnclosedTitleSlide => String::from_str("unclosed `:::title-slide` block"),
            Error::NestedTitleSlide => String::from_str("nested `:::title-slide` block"),
            Error::TitleSlideNotEmpty => String::from_str("`:::title-slide` block must be empty"),
            Error::UnclosedWarning => String::from_str("unclosed `::: warning` block"),
            Error::NestedWarning => String::from_str("nested `::: warning` block"),
            Error::UnclosedInfo => String::from_str("unclosed `::: info` block"),
            Error::UnclosedExtra => String::from_str("unclosed `::: extra` block"),
            Error::NestedExtra => String::from_str("nested `::: extra` block"),
            Error::UnclosedApp => String::from_str("unclosed `:::app` block"),
            Error::NestedApp => String::from_str("nested `:::app` block"),
            Error::UnclosedSkip => String::from_str("unclosed `:::skip` block"),
            Error::UnclosedAdd => String::from_str("unclosed `:::add` block"),
            Error::DuplicateAnchor(s) => with_detail("duplicate anchor: ", s),
            Error::EmptyAnchor(s) => around("anchor ", s, " is not followed by a block"),
            Error::UnknownSlideRef(s) => with_detail("slide references unknown anchor: ", s),
            Error::MalformedGoto(s) => with_detail("malformed cb-goto: ", s),
            Error::UnknownGotoTarget(s) => with_detail("cb-goto references an unknown heading: ", s),
            Error::InvalidSection { file, message } => {
                let mut v = to_chars("in section ");
                extend_str(&mut v, file.as_str());
                extend_str(&mut v, ": ");
                extend_str(&mut v, message.as_str());
                from_chars(&v)
            },
            Error::MalformedNotification(s) => with_detail("malformed SNS payload: ", s),
            Error::MalformedEvent(s) => with_detail("malformed event: ", s),
        }
    }
}

} // verus!
