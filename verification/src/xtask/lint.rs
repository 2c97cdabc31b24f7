//! `xtask lint`: which checks run, and the built-in checks on the
//! repository's Rust sources.
use vstd::prelude::*;

use crate::text::{
    decimal, decimal_string, extend_str, find, find_str, from_chars, starts_with, to_chars,
    contains, contains_str,
};

verus! {

/// The longest a source file may be, in lines.
pub const MAX_FILE_LINES: usize = 1000;

/// The flags of `xtask lint`.
#[derive(Debug, Clone, Copy, PartialEq, Eq)]
pub struct LintArgs {
    /// Apply fixes (cargo fmt, cargo clippy --fix) before checking.
    pub fix: bool,
    /// Print every check's output, even on success.
    pub verbose: bool,
    /// Skip `cargo fmt --check`.
    pub no_fmt: bool,
    /// Skip `cargo check`.
    pub no_check: bool,
    /// Skip `cargo clippy`.
    pub no_clippy: bool,
    /// Skip `cargo test`.
    pub no_test: bool,
    /// Skip the file-length check.
    pub no_file_length: bool,
    /// Skip the forbidden-allows check.
    pub no_forbidden_allows: bool,
}

/// One check of the lint pipeline.
#[derive(Debug, Clone, Copy, PartialEq, Eq, Structural)]
pub enum CheckId {
    Fmt,
    Check,
    Clippy,
    Test,
    FileLength,
    ForbiddenAllows,
}

pub open spec fn check_name(id: CheckId) -> Seq<char> {
    match id {
        CheckId::Fmt => "fmt"@,
        CheckId::Check => "check"@,
        CheckId::Clippy => "clippy"@,
        CheckId::Test => "test"@,
        CheckId::FileLength => "file-length"@,
        CheckId::ForbiddenAllows => "forbidden-allows"@,
    }
}

pub open spec fn check_command(id: CheckId) -> Option<Seq<Seq<char>>> {
    match id {
        CheckId::Fmt => Some(seq!["fmt"@, "--check"@]),
        CheckId::Check => Some(seq!["check"@, "--workspace"@, "--all-targets"@]),
        CheckId::Clippy => Some(seq!["clippy"@, "--workspace"@, "--all-targets"@, "--"@, "-D"@, "warnings"@]),
        CheckId::Test => Some(seq!["test"@, "--workspace"@, "--all-targets"@]),
        CheckId::FileLength => None,
        CheckId::ForbiddenAllows => None,
    }
}

impl CheckId {
    /// The check's name, as reported.
    pub fn name(self) -> (r: &'static str)
        ensures
            r@ == check_name(self),
    {
        match self {
            CheckId::Fmt => "fmt",
            CheckId::Check => "check",
            CheckId::Clippy => "clippy",
            CheckId::Test => "test",
            CheckId::FileLength => "file-length",
            CheckId::ForbiddenAllows => "forbidden-allows",
        }
    }

    /// The cargo invocation backing this check, if it is command-based.
    pub fn command(self) -> (r: Option<Vec<&'static str>>)
        ensures
            match check_command(self) {
                None => r is None,
                Some(args) => r matches Some(v) && v@.len() == args.len() && forall|i: int|
                    0 <= i < args.len() ==> (#[trigger] v@[i])@ == args[i],
            },
    {
        match self {
            CheckId::Fmt => {
                let v = vec!["fmt", "--check"];
                Some(v)
            },
            CheckId::Check => {
                let v = vec!["check", "--workspace", "--all-targets"];
                Some(v)
            },
            CheckId::Clippy => {
                let v = vec!["clippy", "--workspace", "--all-targets", "--", "-D", "warnings"];
                Some(v)
            },
            CheckId::Test => {
                let v = vec!["test", "--workspace", "--all-targets"];
                Some(v)
            },
            CheckId::FileLength => None,
            CheckId::ForbiddenAllows => None,
        }
    }
}

/// How a check ended, with what it printed.
#[derive(Debug, Clone, PartialEq, Eq)]
pub enum CheckOutcome {
    Passed { output: String },
    Failed { output: String },
}

/// The checks that run, in pipeline order: every check whose skip flag is
/// unset.
pub open spec fn planned_checks(args: LintArgs) -> Seq<CheckId> {
    (if args.no_fmt { seq![] } else { seq![CheckId::Fmt] })
        + (if args.no_check { seq![] } else { seq![CheckId::Check] })
        + (if args.no_clippy { seq![] } else { seq![CheckId::Clippy] })
        + (if args.no_test { seq![] } else { seq![CheckId::Test] })
        + (if args.no_file_length { seq![] } else { seq![CheckId::FileLength] })
        + (if args.no_forbidden_allows { seq![] } else { seq![CheckId::ForbiddenAllows] })
}

/// Decides which checks run, in pipeline order, from the parsed flags.
pub fn plan_checks(args: &LintArgs) -> (r: Vec<CheckId>)
    ensures
        r@ == planned_checks(*args),
{
    let mut plan: Vec<CheckId> = Vec::new();
    if !args.no_fmt {
        plan.push(CheckId::Fmt);
    }
    if !args.no_check {
        plan.push(CheckId::Check);
    }
    if !args.no_clippy {
        plan.push(CheckId::Clippy);
    }
    if !args.no_test {
        plan.push(CheckId::Test);
    }
    if !args.no_file_length {
        plan.push(CheckId::FileLength);
    }
    if !args.no_forbidden_allows {
        plan.push(CheckId::ForbiddenAllows);
    }
    assert(plan@ =~= planned_checks(*args));
    plan
}

/// Maps a command's exit status, and captured output, to an outcome.
pub fn determine_outcome(success: bool, output: String) -> (r: CheckOutcome)
    ensures
        success ==> r == (CheckOutcome::Passed { output }),
        !success ==> r == (CheckOutcome::Failed { output }),
{
    if success {
        CheckOutcome::Passed { output }
    } else {
        CheckOutcome::Failed { output }
    }
}

/// The outcome of a check that reports `violations`, one per line.
pub open spec fn report(violations: Seq<Seq<char>>) -> (bool, Seq<char>) {
    if violations.len() == 0 {
        (true, seq![])
    } else {
        (false, joined_lines(violations))
    }
}

/// Each line followed by a newline.
pub open spec fn joined_lines(lines: Seq<Seq<char>>) -> Seq<char>
    decreases lines.len(),
{
    if lines.len() == 0 {
        seq![]
    } else {
        joined_lines(lines.drop_last()) + lines.last() + seq!['\n']
    }
}

/// `outcome` passed or failed as `expected` says, with its output.
pub open spec fn outcome_is(outcome: CheckOutcome, expected: (bool, Seq<char>)) -> bool {
    match outcome {
        CheckOutcome::Passed { output } => expected.0 && output@ == expected.1,
        CheckOutcome::Failed { output } => !expected.0 && output@ == expected.1,
    }
}

/// The violation line of a file that is too long.
pub open spec fn length_violation(path: Seq<char>, lines: usize) -> Seq<char> {
    path + ": "@ + decimal(lines as nat) + " lines (max "@ + decimal(MAX_FILE_LINES as nat) + ")"@
}

/// The violations among `files`, in order.
pub open spec fn length_violations(files: Seq<(Seq<char>, usize)>) -> Seq<Seq<char>>
    decreases files.len(),
{
    if files.len() == 0 {
        seq![]
    } else if files.last().1 > MAX_FILE_LINES {
        length_violations(files.drop_last()).push(length_violation(files.last().0, files.last().1))
    } else {
        length_violations(files.drop_last())
    }
}

/// Source paths and line counts, as text.
pub open spec fn lengths_view(files: Seq<(String, usize)>) -> Seq<(Seq<char>, usize)> {
    files.map_values(|f: (String, usize)| (f.0@, f.1))
}

/// Flags files longer than [`MAX_FILE_LINES`] lines.
pub fn evaluate_file_lengths(files: &[(String, usize)]) -> (r: CheckOutcome)
    ensures
        outcome_is(r, report(length_violations(lengths_view(files@)))),
{
    let ghost fv = lengths_view(files@);
    let mut out: Vec<char> = Vec::new();
    let mut count: usize = 0;
    let mut i: usize = 0;
    while i < files.len()
        invariant
            i <= files@.len(),
            fv == lengths_view(files@),
            out@ == joined_lines(length_violations(fv.take(i as int))),
            count == length_violations(fv.take(i as int)).len(),
            count <= i,
        decreases files@.len() - i,
    {
        assert(fv.take(i + 1).drop_last() =~= fv.take(i as int));
        assert(fv.take(i + 1).last() == fv[i as int]);
        let (path, lines) = (&files[i].0, files[i].1);
        if lines > MAX_FILE_LINES {
            let ghost before = out@;
            extend_str(&mut out, path.as_str());
            extend_str(&mut out, ": ");
            let n = decimal_string(lines as u64);
            extend_str(&mut out, n.as_str());
            extend_str(&mut out, " lines (max ");
            let m = decimal_string(MAX_FILE_LINES as u64);
            extend_str(&mut out, m.as_str());
            extend_str(&mut out, ")");
            out.push('\n');
            assert(out@ =~= before + length_violation(path@, lines) + seq!['\n']);
            proof {
                let vs = length_violations(fv.take(i as int));
                assert(length_violations(fv.take(i + 1)) == vs.push(length_violation(path@, lines)));
                assert(vs.push(length_violation(path@, lines)).drop_last() =~= vs);
            }
            count = count + 1;
        }
        i = i + 1;
    }
    assert(fv.take(i as int) =~= fv);
    if count == 0 {
        CheckOutcome::Passed { output: String::new() }
    } else {
        CheckOutcome::Failed { output: from_chars(&out) }
    }
}

/// The allow attribute production code must not carry.
pub open spec fn forbidden_allow() -> Seq<char> {
    "#[allow(clippy::too_many_arguments)]"@
}

/// The marker where a file's test code begins.
pub open spec fn test_marker() -> Seq<char> {
    "#[cfg(test)]"@
}

/// The production part of a source file: everything before its first
/// `#[cfg(test)]` marker.
pub open spec fn production_code(content: Seq<char>) -> Seq<char> {
    match find(content, test_marker()) {
        Some(i) => content.take(i),
        None => content,
    }
}

/// The violation line of a file whose production code has the allow.
pub open spec fn allow_violation(path: Seq<char>) -> Seq<char> {
    path + ": "@ + forbidden_allow() + " is forbidden — use a Params struct"@
}

/// The violations among `files`, in order.
pub open spec fn allow_violations(files: Seq<(Seq<char>, Seq<char>)>) -> Seq<Seq<char>>
    decreases files.len(),
{
    if files.len() == 0 {
        seq![]
    } else if contains(production_code(files.last().1), forbidden_allow()) {
        allow_violations(files.drop_last()).push(allow_violation(files.last().0))
    } else {
        allow_violations(files.drop_last())
    }
}

/// Source paths and contents, as text.
pub open spec fn sources_view(files: Seq<(String, String)>) -> Seq<(Seq<char>, Seq<char>)> {
    files.map_values(|f: (String, String)| (f.0@, f.1@))
}

/// Flags the `too_many_arguments` clippy allow attribute in production code.
///
/// Production code is everything before the first `#[cfg(test)]` marker. This
/// assumes the convention of a single, trailing `#[cfg(test)] mod tests`
/// block per file. A `#[cfg(test)]` placed before a genuine production
/// violation would let that violation pass unflagged.
pub fn scan_for_forbidden_allows(files: &[(String, String)]) -> (r: CheckOutcome)
    ensures
        outcome_is(r, report(allow_violations(sources_view(files@)))),
{
    let ghost fv = sources_view(files@);
    let forbidden = "#[allow(clippy::too_many_arguments)]";
    let marker = "#[cfg(test)]";
    let mut out: Vec<char> = Vec::new();
    let mut count: usize = 0;
    let mut i: usize = 0;
    while i < files.len()
        invariant
            i <= files@.len(),
            fv == sources_view(files@),
            forbidden@ == forbidden_allow(),
            marker@ == test_marker(),
            out@ == joined_lines(allow_violations(fv.take(i as int))),
            count == allow_violations(fv.take(i as int)).len(),
            count <= i,
        decreases files@.len() - i,
    {
        assert(fv.take(i + 1).drop_last() =~= fv.take(i as int));
        assert(fv.take(i + 1).last() == fv[i as int]);
        let content = to_chars(files[i].1.as_str());
        assert(content@ == fv[i as int].1);
        let production = match find_str(&content, marker) {
            Some(k) => {
                let p = &content[0..k];
                assert(p@ =~= content@.take(k as int));
                p
            },
            None => {
                let p = content.as_slice();
                assert(p@ == content@);
                p
            },
        };
        if contains_str(production, forbidden) {
            let ghost before = out@;
            extend_str(&mut out, files[i].0.as_str());
            extend_str(&mut out, ": ");
            extend_str(&mut out, forbidden);
            extend_str(&mut out, " is forbidden — use a Params struct");
            out.push('\n');
            assert(out@ =~= before + allow_violation(files@[i as int].0@) + seq!['\n']);
            proof {
                let vs = allow_violations(fv.take(i as int));
                assert(production@ == production_code(fv[i as int].1));
                assert(allow_violations(fv.take(i + 1)) == vs.push(allow_violation(fv[i as int].0)));
                assert(vs.push(allow_violation(fv[i as int].0)).drop_last() =~= vs);
            }
            count = count + 1;
        } else {
            assert(production@ == production_code(fv[i as int].1));
        }
        i = i + 1;
    }
    assert(fv.take(i as int) =~= fv);
    if count == 0 {
        CheckOutcome::Passed { output: String::new() }
    } else {
        CheckOutcome::Failed { output: from_chars(&out) }
    }
}

} // verus!
