//! The course model: slugs, sections, sessions, and courses.
use vstd::prelude::*;

use crate::error::Error;

verus! {

/// A lowercase-kebab identifier: non-empty ASCII lowercase alphanumeric
/// segments separated by single hyphens, with no leading or trailing hyphen.
pub open spec fn is_kebab(s: Seq<char>) -> bool {
    &&& s.len() > 0
    &&& forall|i: int|
        0 <= i < s.len() ==> ('a' <= #[trigger] s[i] <= 'z') || ('0' <= s[i] <= '9') || s[i]
            == '-'
    &&& s[0] != '-'
    &&& s.last() != '-'
    &&& forall|i: int| 0 <= i < s.len() - 1 ==> !(#[trigger] s[i] == '-' && s[i + 1] == '-')
}

fn is_kebab_slug(raw: &str) -> (b: bool)
    ensures
        b == is_kebab(raw@),
{
    let v = crate::text::to_chars(raw);
    if v.len() == 0 {
        return false;
    }
    let mut i: usize = 0;
    while i < v.len()
        invariant
            v@ == raw@,
            i <= v@.len(),
            forall|j: int|
                0 <= j < i ==> ('a' <= #[trigger] v@[j] <= 'z') || ('0' <= v@[j] <= '9') || v@[j]
                    == '-',
            forall|j: int| 0 <= j < i && j < v@.len() - 1 ==> !(#[trigger] v@[j] == '-' && v@[j + 1] == '-'),
        decreases v@.len() - i,
    {
        let c = v[i];
        if !(('a' <= c && c <= 'z') || ('0' <= c && c <= '9') || c == '-') {
            return false;
        }
        if c == '-' && i + 1 < v.len() && v[i + 1] == '-' {
            return false;
        }
        i = i + 1;
    }
    v[0] != '-' && v[v.len() - 1] != '-'
}

/// Lowercase-kebab identifier for a course (e.g. `aws-devops`).
///
/// The only constructor is [`CourseSlug::parse`]; a value of this type is
/// always a valid slug.
#[derive(Debug, PartialEq, Eq, Hash)]
pub struct CourseSlug(String);

impl Clone for CourseSlug {
    fn clone(&self) -> (r: Self)
        ensures
            r@ == self@,
    {
        proof {
            use_type_invariant(self);
        }
        CourseSlug(self.0.clone())
    }
}

impl View for CourseSlug {
    type V = Seq<char>;

    closed spec fn view(&self) -> Seq<char> {
        self.0@
    }
}

impl CourseSlug {
    #[verifier::type_invariant]
    closed spec fn slug_invariant(self) -> bool {
        is_kebab(self.0@)
    }

    /// Parses a raw string into a slug.
    pub fn parse(raw: &str) -> (r: Result<Self, Error>)
        ensures
            r is Ok <==> is_kebab(raw@),
            r matches Ok(slug) ==> slug@ == raw@,
            r matches Err(e) ==> e matches Error::InvalidSlug(s) && s@ == raw@,
    {
        if is_kebab_slug(raw) {
            Ok(CourseSlug(raw.to_owned()))
        } else {
            Err(Error::InvalidSlug(raw.to_owned()))
        }
    }

    /// Returns the slug as a string slice.
    pub fn as_str(&self) -> (r: &str)
        ensures
            r@ == self@,
            is_kebab(r@),
    {
        proof {
            use_type_invariant(self);
        }
        self.0.as_str()
    }
}

/// Lowercase-kebab identifier for a session within a course, unique per
/// course (e.g. `del-codigo-a-la-imagen`). The only constructor is
/// [`SessionSlug::parse`].
#[derive(Debug, PartialEq, Eq, Hash)]
pub struct SessionSlug(String);

impl Clone for SessionSlug {
    fn clone(&self) -> (r: Self)
        ensures
            r@ == self@,
    {
        proof {
            use_type_invariant(self);
        }
        SessionSlug(self.0.clone())
    }
}

impl View for SessionSlug {
    type V = Seq<char>;

    closed spec fn view(&self) -> Seq<char> {
        self.0@
    }
}

impl SessionSlug {
    #[verifier::type_invariant]
    closed spec fn slug_invariant(self) -> bool {
        is_kebab(self.0@)
    }

    /// Parses a raw string into a session slug (same form as a course slug).
    pub fn parse(raw: &str) -> (r: Result<Self, Error>)
        ensures
            r is Ok <==> is_kebab(raw@),
            r matches Ok(slug) ==> slug@ == raw@,
            r matches Err(e) ==> e matches Error::InvalidSlug(s) && s@ == raw@,
    {
        if is_kebab_slug(raw) {
            Ok(SessionSlug(raw.to_owned()))
        } else {
            Err(Error::InvalidSlug(raw.to_owned()))
        }
    }

    /// Returns the slug as a string slice.
    pub fn as_str(&self) -> (r: &str)
        ensures
            r@ == self@,
            is_kebab(r@),
    {
        proof {
            use_type_invariant(self);
        }
        self.0.as_str()
    }
}

/// One titled section of a course guide. `body_html` is trusted, authored
/// HTML; it is rendered verbatim.
#[derive(Debug, Clone, PartialEq, Eq)]
pub struct GuideSection {
    pub title: String,
    pub body_html: String,
}

/// One session of a course: its slug, its title, and its ordered sections.
#[derive(Debug, Clone, PartialEq, Eq)]
pub struct Session {
    pub slug: SessionSlug,
    pub title: String,
    pub sections: Vec<GuideSection>,
}

/// A course: its slug, its title, and its sessions.
#[derive(Debug, Clone, PartialEq, Eq)]
pub struct Course {
    pub slug: CourseSlug,
    pub title: String,
    pub sessions: Vec<Session>,
}

} // verus!
