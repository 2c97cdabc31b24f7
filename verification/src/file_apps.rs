//! Expansion of `<cb-file>` app tags into self-contained custom elements.
//!
//! The caller supplies the sources, as `(path, contents)` pairs; this module
//! never reads files. An expansion that names a file the sources lack ends in
//! [`FileAppError::UnknownFile`] with the normalized path, so a caller can
//! look that file up and try again.
use vstd::prelude::*;

use crate::goto_apps::{
    attr_scan, char_from, key_end, lemma_char_from, lemma_scans, quoted_attribute,
    quoted_attribute_spec, skip_spaces, skip_spaces_exec, Attr,
};
use crate::render::{escape, push_escaped_chars};
use crate::text::{
    ends_with, extend_chars, extend_str, find, find_chars_from, find_from, from_chars, is_alnum,
    split, split_on, starts_with, starts_with_str, to_chars, trim, trim_chars, trim_end,
    trim_end_chars,
};

verus! {

// ---------------------------------------------------------------------------
// Errors
// ---------------------------------------------------------------------------

/// Why a `<cb-file>` tag could not be expanded.
#[derive(Debug, Clone, PartialEq, Eq)]
pub enum FileAppError<S = String> {
    /// A `<cb-file` with no `>` after it.
    Unterminated,
    /// A tag without a quoted `path`.
    MissingPath,
    /// A path that is absolute, empty, or walks through `.`/`..`; the raw
    /// attribute value.
    InvalidPath(S),
    /// A `type` attribute that is blank.
    EmptyType,
    /// A normalized path the sources do not hold.
    UnknownFile(S),
    /// A tag with content, or without its closing tag.
    NotEmpty,
}

impl View for FileAppError {
    type V = FileAppError<Seq<char>>;

    open spec fn view(&self) -> FileAppError<Seq<char>> {
        match self {
            FileAppError::Unterminated => FileAppError::Unterminated,
            FileAppError::MissingPath => FileAppError::MissingPath,
            FileAppError::InvalidPath(s) => FileAppError::InvalidPath(s@),
            FileAppError::EmptyType => FileAppError::EmptyType,
            FileAppError::UnknownFile(s) => FileAppError::UnknownFile(s@),
            FileAppError::NotEmpty => FileAppError::NotEmpty,
        }
    }
}

/// What `{:?}` writes for a string: the text in double quotes, escaped as
/// `str::escape_debug` does.
pub uninterp spec fn str_debug(s: Seq<char>) -> Seq<char>;

/// `<str as Debug>::fmt`: the string quoted and escaped. The escaping (which
/// characters count as printable) is named, not spelled out.
#[verifier::external_body]
pub(crate) fn debug_text(s: &str) -> (r: String)
    ensures
        r@ == str_debug(s@),
{
    format!("{s:?}")
}

/// The description of an error, as reported.
pub open spec fn file_app_message(e: FileAppError<Seq<char>>) -> Seq<char> {
    match e {
        FileAppError::Unterminated => "unterminated <cb-file> tag"@,
        FileAppError::MissingPath => "<cb-file> is missing a quoted path attribute"@,
        FileAppError::InvalidPath(raw) => "<cb-file> path must be repository-relative and cannot traverse directories: "@
            + str_debug(raw),
        FileAppError::EmptyType => "<cb-file> type must not be empty"@,
        FileAppError::UnknownFile(p) => "<cb-file> references an unknown file: "@ + p,
        FileAppError::NotEmpty => "<cb-file> must be empty and closed with </cb-file>"@,
    }
}

impl FileAppError {
    /// The description of the error.
    pub fn message(&self) -> (r: String)
        ensures
            r@ == file_app_message(self@),
    {
        match self {
            FileAppError::Unterminated => String::from_str("unterminated <cb-file> tag"),
            FileAppError::MissingPath => String::from_str("<cb-file> is missing a quoted path attribute"),
            FileAppError::InvalidPath(raw) => {
                let mut v = to_chars("<cb-file> path must be repository-relative and cannot traverse directories: ");
                let d = debug_text(raw.as_str());
                extend_str(&mut v, d.as_str());
                from_chars(&v)
            },
            FileAppError::EmptyType => String::from_str("<cb-file> type must not be empty"),
            FileAppError::UnknownFile(p) => {
                let mut v = to_chars("<cb-file> references an unknown file: ");
                extend_str(&mut v, p.as_str());
                from_chars(&v)
            },
            FileAppError::NotEmpty => String::from_str("<cb-file> must be empty and closed with </cb-file>"),
        }
    }
}

// ---------------------------------------------------------------------------
// Paths
// ---------------------------------------------------------------------------

/// `s` without every leading `./`.
pub open spec fn strip_dot_slash(s: Seq<char>) -> Seq<char>
    decreases s.len(),
{
    if s.len() >= 2 && s[0] == '.' && s[1] == '/' {
        strip_dot_slash(s.skip(2))
    } else {
        s
    }
}

/// A path segment that is empty, `.` or `..`.
pub open spec fn bad_segment(p: Seq<char>) -> bool {
    p.len() == 0 || p == seq!['.'] || p == seq!['.', '.']
}

/// The repository-relative form of a raw path: trimmed, without leading
/// `./`; none when it is empty, absolute, or has an empty, `.` or `..`
/// segment.
pub open spec fn normalized_path(raw: Seq<char>) -> Option<Seq<char>> {
    let p = strip_dot_slash(trim(raw));
    if p.len() == 0 || p[0] == '/' || exists|i: int| 0 <= i < split(p, '/').len() && #[trigger] bad_segment(split(p, '/')[i]) {
        None
    } else {
        Some(p)
    }
}

fn normalize_path(raw: &[char]) -> (r: Option<Vec<char>>)
    ensures
        match normalized_path(raw@) {
            None => r is None,
            Some(p) => r matches Some(v) && v@ == p,
        },
{
    let mut p = trim_chars(raw);
    while p.len() >= 2 && p[0] == '.' && p[1] == '/'
        invariant
            strip_dot_slash(p@) == strip_dot_slash(trim(raw@)),
        decreases p@.len(),
    {
        let q = &p[2..p.len()];
        assert(q@ =~= p@.skip(2));
        p = q;
    }
    assert(strip_dot_slash(p@) == p@);
    if p.len() == 0 || p[0] == '/' {
        return None;
    }
    let parts = split_on(p, '/');
    let mut i: usize = 0;
    while i < parts.len()
        invariant
            i <= parts@.len(),
            p@ == strip_dot_slash(trim(raw@)),
            p@.len() > 0,
            p@[0] != '/',
            parts@.len() == split(p@, '/').len(),
            forall|k: int| 0 <= k < parts@.len() ==> (#[trigger] parts@[k])@ == split(p@, '/')[k],
            forall|k: int| 0 <= k < i ==> !bad_segment(#[trigger] split(p@, '/')[k]),
        decreases parts@.len() - i,
    {
        let part = &parts[i];
        assert(part@ == split(p@, '/')[i as int]);
        if part.len() == 0 || (part.len() == 1 && part[0] == '.') || (part.len() == 2 && part[0] == '.' && part[1] == '.') {
            assert(bad_segment(split(p@, '/')[i as int])) by {
                if part.len() == 1 {
                    assert(part@ =~= seq!['.']);
                } else if part.len() == 2 {
                    assert(part@ =~= seq!['.', '.']);
                }
            }
            return None;
        }
        assert(!bad_segment(split(p@, '/')[i as int]));
        i = i + 1;
    }
    let mut v: Vec<char> = Vec::new();
    extend_chars(&mut v, p);
    Some(v)
}

// ---------------------------------------------------------------------------
// Boolean attributes
// ---------------------------------------------------------------------------

/// Whether a bare attribute is in a tag, or a scan that would not make
/// progress: an attribute scan that stops advancing, on which expansion
/// would never end.
pub enum Flag {
    Present,
    Absent,
    Stuck,
}

/// Scanning the attributes of `tag` for the bare attribute `wanted`, from
/// index `pos`.
pub open spec fn flag_scan(tag: Seq<char>, wanted: Seq<char>, pos: int) -> Flag
    decreases tag.len() - pos,
{
    let p = skip_spaces(tag, pos);
    if pos < 0 || p < pos || p >= tag.len() || tag[p] == '>' || starts_with(tag.skip(p), seq!['/', '>']) {
        Flag::Absent
    } else {
        let ke = key_end(tag, p);
        if ke < p || ke >= tag.len() {
            Flag::Absent
        } else {
            let key = tag.subrange(p, ke);
            let q = skip_spaces(tag, ke);
            if q < ke || q >= tag.len() {
                if key == wanted {
                    Flag::Present
                } else {
                    Flag::Absent
                }
            } else if tag[q] != '=' {
                if key == wanted {
                    Flag::Present
                } else if q <= p {
                    Flag::Stuck
                } else {
                    flag_scan(tag, wanted, q)
                }
            } else {
                let r = skip_spaces(tag, q + 1);
                if r <= q || r >= tag.len() || (tag[r] != '\'' && tag[r] != '"') {
                    Flag::Absent
                } else {
                    let ve = char_from(tag, tag[r], r + 1);
                    if ve <= r || ve >= tag.len() {
                        Flag::Absent
                    } else {
                        flag_scan(tag, wanted, ve + 1)
                    }
                }
            }
        }
    }
}

pub open spec fn file_open() -> Seq<char> {
    seq!['<', 'c', 'b', '-', 'f', 'i', 'l', 'e']
}

pub open spec fn file_close() -> Seq<char> {
    seq!['<', '/', 'c', 'b', '-', 'f', 'i', 'l', 'e', '>']
}

/// Whether the bare attribute `wanted` is in a `<cb-file ...>` tag.
pub open spec fn has_flag_spec(tag: Seq<char>, wanted: Seq<char>) -> Flag {
    if starts_with(tag, file_open()) {
        flag_scan(tag, wanted, 8)
    } else {
        Flag::Absent
    }
}

/// Reads whether the bare attribute `wanted` is in `tag`: `Err(())` is a tag
/// on which the scan would not make progress.
fn has_flag(tag: &[char], wanted: &str) -> (r: Result<bool, ()>)
    ensures
        match has_flag_spec(tag@, wanted@) {
            Flag::Present => r == Ok::<bool, ()>(true),
            Flag::Absent => r == Ok::<bool, ()>(false),
            Flag::Stuck => r is Err,
        },
{
    proof {
        reveal_strlit("<cb-file");
        assert("<cb-file"@ =~= file_open());
    }
    if !starts_with_str(tag, "<cb-file") {
        return Ok(false);
    }
    let w = to_chars(wanted);
    let mut pos: usize = 8;
    loop
        invariant
            8 <= pos <= tag@.len(),
            starts_with(tag@, file_open()),
            w@ == wanted@,
            has_flag_spec(tag@, wanted@) == flag_scan(tag@, wanted@, pos as int),
        decreases tag@.len() - pos,
    {
        proof {
            lemma_scans(tag@, pos as int);
        }
        let p = skip_spaces_exec(tag, pos);
        if p >= tag.len() || tag[p] == '>' || (tag.len() - p >= 2 && tag[p] == '/' && tag[p + 1] == '>') {
            proof {
                if p < tag@.len() && tag@.len() - p >= 2 && tag@[p as int] == '/' && tag@[p + 1] == '>' {
                    assert(tag@.skip(p as int).subrange(0, 2) =~= seq!['/', '>']);
                }
            }
            return Ok(false);
        }
        proof {
            if starts_with(tag@.skip(p as int), seq!['/', '>']) {
                assert(tag@.skip(p as int).subrange(0, 2)[0] == tag@[p as int]);
                assert(tag@.skip(p as int).subrange(0, 2)[1] == tag@[p + 1]);
            }
            lemma_scans(tag@, p as int);
        }
        let mut ke = p;
        while ke < tag.len() && (is_alnum(tag[ke]) || tag[ke] == '-' || tag[ke] == '_')
            invariant
                p <= ke <= tag@.len(),
                key_end(tag@, ke as int) == key_end(tag@, p as int),
            decreases tag@.len() - ke,
        {
            ke = ke + 1;
        }
        if ke >= tag.len() {
            return Ok(false);
        }
        proof {
            lemma_scans(tag@, ke as int);
        }
        let q = skip_spaces_exec(tag, ke);
        let key = &tag[p..ke];
        assert(key@ =~= tag@.subrange(p as int, ke as int));
        let key_is_wanted = crate::text::eq_chars(key, &w);
        if q >= tag.len() {
            return Ok(key_is_wanted);
        } else if tag[q] != '=' {
            if key_is_wanted {
                return Ok(true);
            } else if q <= p {
                return Err(());
            } else {
                pos = q;
            }
        } else {
            proof {
                lemma_scans(tag@, q + 1);
            }
            let r = skip_spaces_exec(tag, q + 1);
            if r >= tag.len() || (tag[r] != '\'' && tag[r] != '"') {
                return Ok(false);
            }
            let quote = tag[r];
            proof {
                lemma_char_from(tag@, quote, r + 1);
            }
            let mut ve = r + 1;
            while ve < tag.len() && tag[ve] != quote
                invariant
                    r + 1 <= ve <= tag@.len(),
                    char_from(tag@, quote, ve as int) == char_from(tag@, quote, r + 1),
                decreases tag@.len() - ve,
            {
                ve = ve + 1;
            }
            if ve >= tag.len() {
                return Ok(false);
            }
            pos = ve + 1;
        }
    }
}

// ---------------------------------------------------------------------------
// Expanding the tags
// ---------------------------------------------------------------------------

/// The contents of the first source at `path`.
pub open spec fn source_at(sources: Seq<(Seq<char>, Seq<char>)>, path: Seq<char>, i: int) -> Option<Seq<char>>
    decreases sources.len() - i,
{
    if i < 0 || i >= sources.len() {
        None
    } else if sources[i].0 == path {
        Some(sources[i].1)
    } else {
        source_at(sources, path, i + 1)
    }
}

/// The sources, as text.
pub open spec fn sources_view(sources: Seq<(String, String)>) -> Seq<(Seq<char>, Seq<char>)> {
    sources.map_values(|p: (String, String)| (p.0@, p.1@))
}

/// `text` when `on`.
pub open spec fn when(on: bool, text: Seq<char>) -> Seq<char> {
    if on {
        text
    } else {
        seq![]
    }
}

/// The rewritten tag.
pub open spec fn file_tag(source_path: Seq<char>, file_type: Seq<char>, flags: (bool, bool, bool), source: Seq<char>) -> Seq<char> {
    "<cb-file path=\""@ + escape(source_path) + "\" type=\""@ + escape(file_type) + "\""@
        + when(flags.0, " toggleable"@) + when(flags.1, " open"@) + when(flags.2, " full-path"@)
        + " data-content=\""@ + escape(source) + "\"></cb-file>"@
}

/// The outcome of expanding: the text, an error, or a tag on which an
/// attribute scan would not end.
pub enum FileExpansion {
    Done(Seq<char>),
    Failed(FileAppError<Seq<char>>),
    Stuck,
}

/// One step of the expansion from index `pos`, after `acc`.
pub enum FileStep {
    Next(int, Seq<char>),
    End(FileExpansion),
}

/// The three bare attributes a file viewer keeps, in order.
pub open spec fn file_flags(tag: Seq<char>) -> Option<(bool, bool, bool)> {
    let t = has_flag_spec(tag, "toggleable"@);
    let o = has_flag_spec(tag, "open"@);
    let f = has_flag_spec(tag, "full-path"@);
    if t is Stuck || o is Stuck || f is Stuck {
        None
    } else {
        Some((t is Present, o is Present, f is Present))
    }
}

#[verifier::opaque]
pub open spec fn file_step(md: Seq<char>, sources: Seq<(Seq<char>, Seq<char>)>, pos: int, acc: Seq<char>) -> FileStep {
    let f = find_from(md, file_open(), pos);
    if f is None || f.unwrap() < pos {
        FileStep::End(FileExpansion::Done(acc + md.subrange(pos, md.len() as int)))
    } else {
        let start = f.unwrap();
        let acc2 = acc + md.subrange(pos, start);
        let e = find_from(md, seq!['>'], start);
        if e is None || e.unwrap() < start || e.unwrap() >= md.len() {
            FileStep::End(FileExpansion::Failed(FileAppError::Unterminated))
        } else {
            let end = e.unwrap();
            let tag = md.subrange(start, end + 1);
            match quoted_attribute_spec(tag, file_open(), "path"@) {
                Attr::Stuck => FileStep::End(FileExpansion::Stuck),
                Attr::Missing => FileStep::End(FileExpansion::Failed(FileAppError::MissingPath)),
                Attr::Found(a, b) => {
                    let source_path = tag.subrange(a, b);
                    match normalized_path(source_path) {
                        None => FileStep::End(FileExpansion::Failed(FileAppError::InvalidPath(source_path))),
                        Some(path) => match quoted_attribute_spec(tag, file_open(), "type"@) {
                            Attr::Stuck => FileStep::End(FileExpansion::Stuck),
                            ty => {
                                let file_type = match ty {
                                    Attr::Found(c, d) => tag.subrange(c, d),
                                    _ => "text"@,
                                };
                                if trim(file_type).len() == 0 {
                                    FileStep::End(FileExpansion::Failed(FileAppError::EmptyType))
                                } else {
                                    match source_at(sources, path, 0) {
                                        None => FileStep::End(FileExpansion::Failed(FileAppError::UnknownFile(path))),
                                        Some(source) => match file_flags(tag) {
                                            None => FileStep::End(FileExpansion::Stuck),
                                            Some(flags) => {
                                                let out = acc2 + file_tag(source_path, file_type, flags, source);
                                                if ends_with(trim_end(tag), seq!['/', '>']) {
                                                    FileStep::Next(end + 1, out)
                                                } else if !starts_with(md.skip(end + 1), file_close()) || end + 11 > md.len() {
                                                    FileStep::End(FileExpansion::Failed(FileAppError::NotEmpty))
                                                } else {
                                                    FileStep::Next(end + 11, out)
                                                }
                                            },
                                        },
                                    }
                                }
                            },
                        },
                    }
                },
            }
        }
    }
}

/// Expansion of `md` from index `pos` on, after `acc`.
pub open spec fn file_expand_from(md: Seq<char>, sources: Seq<(Seq<char>, Seq<char>)>, pos: int, acc: Seq<char>) -> FileExpansion
    decreases md.len() - pos,
{
    if pos < 0 || pos > md.len() {
        FileExpansion::Done(acc)
    } else {
        match file_step(md, sources, pos, acc) {
            FileStep::Next(p, a) => if pos < p <= md.len() {
                file_expand_from(md, sources, p, a)
            } else {
                FileExpansion::Done(a)
            },
            FileStep::End(x) => x,
        }
    }
}

/// Every empty `<cb-file>` tag rewritten with its source.
pub open spec fn expand_file_spec(md: Seq<char>, sources: Seq<(Seq<char>, Seq<char>)>) -> FileExpansion {
    file_expand_from(md, sources, 0, seq![])
}

/// Text without a `<cb-file` tag passes through unchanged, whatever the
/// sources.
pub proof fn lemma_untagged_text_passes_through(md: Seq<char>, sources: Seq<(Seq<char>, Seq<char>)>)
    requires
        find(md, file_open()) is None,
    ensures
        expand_file_spec(md, sources) == FileExpansion::Done(md),
{
    reveal(file_step);
    assert(seq![] + md.subrange(0, md.len() as int) =~= md);
}

fn source_for<'a>(sources: &'a [(String, String)], path: &Vec<char>) -> (r: Option<&'a String>)
    ensures
        match source_at(sources_view(sources@), path@, 0) {
            None => r is None,
            Some(s) => r matches Some(c) && c@ == s,
        },
{
    let ghost sv = sources_view(sources@);
    let mut i: usize = 0;
    while i < sources.len()
        invariant
            i <= sources@.len(),
            sv == sources_view(sources@),
            source_at(sv, path@, 0) == source_at(sv, path@, i as int),
        decreases sources@.len() - i,
    {
        assert(sv[i as int] == (sources@[i as int].0@, sources@[i as int].1@));
        if crate::text::eq_str(path, sources[i].0.as_str()) {
            return Some(&sources[i].1);
        }
        i = i + 1;
    }
    None
}

/// The three bare attributes of `tag`, or `None` when a scan would not end.
fn read_flags(tag: &[char]) -> (r: Option<(bool, bool, bool)>)
    ensures
        r == file_flags(tag@),
{
    let toggleable = has_flag(tag, "toggleable");
    let open_flag = has_flag(tag, "open");
    let full_path = has_flag(tag, "full-path");
    match (toggleable, open_flag, full_path) {
        (Ok(t), Ok(o), Ok(f)) => Some((t, o, f)),
        _ => None,
    }
}

/// The `type` of a tag, `text` when it has none, or `None` when the scan
/// would not end.
fn read_type(tag: &[char]) -> (r: Option<Vec<char>>)
    ensures
        match quoted_attribute_spec(tag@, file_open(), "type"@) {
            Attr::Stuck => r is None,
            Attr::Found(c, d) => r matches Some(v) && v@ == tag@.subrange(c, d),
            Attr::Missing => r matches Some(v) && v@ == "text"@,
        },
{
    proof {
        reveal_strlit("<cb-file");
        assert("<cb-file"@ =~= file_open());
    }
    match quoted_attribute(tag, "<cb-file", "type") {
        Err(()) => None,
        Ok(Some((c, d))) => {
            let mut v: Vec<char> = Vec::new();
            extend_chars(&mut v, &tag[c..d]);
            assert(v@ =~= tag@.subrange(c as int, d as int));
            Some(v)
        },
        Ok(None) => Some(to_chars("text")),
    }
}

/// One expansion step from `pos`: `Ok(Some(next))` to go on from `next`,
/// `Ok(None)` when the text is done, `Err(None)` on a tag whose scan would
/// not end.
#[verifier::spinoff_prover]
#[verifier::rlimit(80)]
fn file_step_exec(md: &Vec<char>, sources: &[(String, String)], pos: usize, out: &mut Vec<char>) -> (r: Result<Option<usize>, Option<FileAppError>>)
    requires
        pos <= md@.len(),
    ensures
        match file_step(md@, sources_view(sources@), pos as int, old(out)@) {
            FileStep::Next(p, a) => r matches Ok(Some(n)) && n == p && final(out)@ == a && pos < p <= md@.len(),
            FileStep::End(FileExpansion::Done(x)) => r == Ok::<Option<usize>, Option<FileAppError>>(None) && final(out)@ == x,
            FileStep::End(FileExpansion::Failed(e)) => r matches Err(Some(e2)) && e2@ == e,
            FileStep::End(FileExpansion::Stuck) => r == Err::<Option<usize>, Option<FileAppError>>(None),
        },
{
    reveal(file_step);
    let open = to_chars("<cb-file");
    let gt = to_chars(">");
    proof {
        reveal_strlit(">");
        reveal_strlit("<cb-file");
        assert(gt@ =~= seq!['>']);
        assert(open@ =~= file_open());
    }
    let ghost acc = out@;
    let ghost p0 = pos as int;
    let ghost sv = sources_view(sources@);
    match find_chars_from(md, &open, pos) {
        None => {
            extend_chars(out, &md[pos..md.len()]);
            assert(out@ =~= acc + md@.subrange(p0, md@.len() as int));
            return Ok(None);
        },
        Some(start) => {
            assert(start + 8 <= md.len());
            extend_chars(out, &md[pos..start]);
            let end = match find_chars_from(md, &gt, start) {
                None => {
                    return Err(Some(FileAppError::Unterminated));
                },
                Some(e) => e,
            };
            assert(end + 1 <= md.len());
            let tag = &md[start..end + 1];
            assert(tag@ =~= md@.subrange(start as int, end + 1));
            let (a, b) = match quoted_attribute(tag, "<cb-file", "path") {
                Err(()) => {
                    return Err(None);
                },
                Ok(None) => {
                    return Err(Some(FileAppError::MissingPath));
                },
                Ok(Some(bounds)) => bounds,
            };
            let source_path = &tag[a..b];
            assert(source_path@ =~= tag@.subrange(a as int, b as int));
            let path = match normalize_path(source_path) {
                None => {
                    return Err(Some(FileAppError::InvalidPath(from_chars(source_path))));
                },
                Some(p) => p,
            };
            let file_type = match read_type(tag) {
                Some(t) => t,
                None => {
                    return Err(None);
                },
            };
            if trim_chars(&file_type).len() == 0 {
                return Err(Some(FileAppError::EmptyType));
            }
            let source = match source_for(sources, &path) {
                None => {
                    return Err(Some(FileAppError::UnknownFile(from_chars(&path))));
                },
                Some(c) => c,
            };
            let (t, o, f) = match read_flags(tag) {
                Some(flags) => flags,
                None => {
                    return Err(None);
                },
            };
            let ghost mid = out@;
            assert(mid =~= acc + md@.subrange(p0, start as int));
            extend_str(out, "<cb-file path=\"");
            push_escaped_chars(out, source_path);
            extend_str(out, "\" type=\"");
            push_escaped_chars(out, &file_type);
            extend_str(out, "\"");
            if t {
                extend_str(out, " toggleable");
            }
            if o {
                extend_str(out, " open");
            }
            if f {
                extend_str(out, " full-path");
            }
            extend_str(out, " data-content=\"");
            let src = to_chars(source.as_str());
            push_escaped_chars(out, &src);
            extend_str(out, "\"></cb-file>");
            assert(out@ =~= mid + file_tag(source_path@, file_type@, (t, o, f), source@));
            let self_closing = crate::text::ends_with_str(trim_end_chars(tag), "/>");
            proof {
                reveal_strlit("/>");
                reveal_strlit("</cb-file>");
                assert("/>"@ =~= seq!['/', '>']);
                assert("</cb-file>"@ =~= file_close());
            }
            if self_closing {
                return Ok(Some(end + 1));
            } else {
                let rest = &md[end + 1..md.len()];
                assert(rest@ =~= md@.skip(end + 1));
                if !starts_with_str(rest, "</cb-file>") {
                    return Err(Some(FileAppError::NotEmpty));
                }
                assert(end + 11 <= md.len());
                return Ok(Some(end + 11));
            }
        },
    }
}

/// Replaces every empty `<cb-file>` tag with one that carries the referenced
/// source as an escaped `data-content` attribute; `None` for a tag on which
/// an attribute scan would never end.
///
/// Paths are repository-relative. The sources are looked up by the
/// normalized form, so both `./buildspec.yml` and `buildspec.yml` resolve to
/// `buildspec.yml`.
pub fn try_expand_file_apps(markdown: &str, sources: &[(String, String)]) -> (r: Option<Result<String, FileAppError>>)
    ensures
        match expand_file_spec(markdown@, sources_view(sources@)) {
            FileExpansion::Done(h) => r matches Some(Ok(s)) && s@ == h,
            FileExpansion::Failed(e) => r matches Some(Err(e2)) && e2@ == e,
            FileExpansion::Stuck => r is None,
        },
{
    let md = to_chars(markdown);
    let mut out: Vec<char> = Vec::new();
    let mut pos: usize = 0;
    let ghost sv = sources_view(sources@);
    loop
        invariant
            pos <= md@.len(),
            md@ == markdown@,
            sv == sources_view(sources@),
            expand_file_spec(markdown@, sv) == file_expand_from(md@, sv, pos as int, out@),
        decreases md@.len() - pos,
    {
        let ghost st = file_step(md@, sv, pos as int, out@);
        let ghost acc = out@;
        assert(file_expand_from(md@, sv, pos as int, acc) == match st {
            FileStep::Next(p, a) => if pos < p <= md@.len() {
                file_expand_from(md@, sv, p, a)
            } else {
                FileExpansion::Done(a)
            },
            FileStep::End(x) => x,
        });
        match file_step_exec(&md, sources, pos, &mut out) {
            Ok(Some(next)) => {
                pos = next;
            },
            Ok(None) => {
                return Some(Ok(from_chars(&out)));
            },
            Err(Some(e)) => {
                return Some(Err(e));
            },
            Err(None) => {
                return None;
            },
        }
    }
}

/// [`try_expand_file_apps`] on text whose tags the attribute scans finish.
pub fn expand_file_apps(markdown: &str, sources: &[(String, String)]) -> (r: Result<String, FileAppError>)
    requires
        !(expand_file_spec(markdown@, sources_view(sources@)) is Stuck),
    ensures
        match expand_file_spec(markdown@, sources_view(sources@)) {
            FileExpansion::Done(h) => r matches Ok(s) && s@ == h,
            FileExpansion::Failed(e) => r matches Err(e2) && e2@ == e,
            FileExpansion::Stuck => false,
        },
{
    match try_expand_file_apps(markdown, sources) {
        Some(r) => r,
        None => {
            assert(false);
            Err(FileAppError::NotEmpty)
        },
    }
}

} // verus!
