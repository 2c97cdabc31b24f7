//! `xtask clean`: which steps a run performs, and the `cargo sweep`
//! invocation.
use vstd::prelude::*;

use crate::assets::strings_view;
use crate::text::{decimal, decimal_string};

verus! {

/// Default artifact age, in days, above which pruning kicks in.
pub const DEFAULT_DAYS: u32 = 7;

/// The flags of `xtask clean`.
#[derive(Debug, Clone, Copy, PartialEq, Eq)]
pub struct CleanArgs {
    /// Prune build artifacts untouched for more than this many days.
    pub days: u32,
    /// Also delete the incremental-compilation caches (`target/*/incremental`).
    pub incremental: bool,
    /// Delete the whole target directory instead of pruning selectively.
    pub all: bool,
    /// Report what would be deleted without deleting anything.
    pub dry_run: bool,
}

/// One step of a clean run.
#[derive(Debug, Clone, Copy, PartialEq, Eq, Structural)]
pub enum CleanStep {
    /// Prune artifacts by age, via the `cargo-sweep` subcommand.
    Sweep,
    /// Delete the incremental-compilation caches outright.
    Incremental,
    /// `cargo clean` — remove the entire target directory.
    Full,
}

pub open spec fn step_name(step: CleanStep) -> Seq<char> {
    match step {
        CleanStep::Sweep => "sweep"@,
        CleanStep::Incremental => "incremental"@,
        CleanStep::Full => "full"@,
    }
}

impl CleanStep {
    /// The step's name, as reported.
    pub fn name(self) -> (r: &'static str)
        ensures
            r@ == step_name(self),
    {
        match self {
            CleanStep::Sweep => "sweep",
            CleanStep::Incremental => "incremental",
            CleanStep::Full => "full",
        }
    }
}

/// The steps a run performs, in order: a full clean alone, or a sweep,
/// followed by the incremental caches when asked for.
pub open spec fn planned_steps(args: CleanArgs) -> Seq<CleanStep> {
    if args.all {
        seq![CleanStep::Full]
    } else if args.incremental {
        seq![CleanStep::Sweep, CleanStep::Incremental]
    } else {
        seq![CleanStep::Sweep]
    }
}

/// Decides which steps run, in order, from the parsed flags.
///
/// `--all` is exclusive: a full clean subsumes every selective step.
pub fn plan_steps(args: &CleanArgs) -> (r: Vec<CleanStep>)
    ensures
        r@ == planned_steps(*args),
{
    if args.all {
        let r = vec![CleanStep::Full];
        assert(r@ =~= seq![CleanStep::Full]);
        return r;
    }
    let mut steps = vec![CleanStep::Sweep];
    if args.incremental {
        steps.push(CleanStep::Incremental);
    }
    assert(steps@ =~= planned_steps(*args));
    steps
}

/// The `cargo sweep` arguments for an age threshold.
pub open spec fn sweep_args_spec(days: u32, dry_run: bool) -> Seq<Seq<char>> {
    seq!["sweep"@, "--time"@, decimal(days as nat)] + if dry_run {
        seq!["--dry-run"@]
    } else {
        seq![]
    }
}

/// Builds the `cargo sweep` invocation for an age threshold.
pub fn sweep_args(days: u32, dry_run: bool) -> (r: Vec<String>)
    ensures
        strings_view(r@) == sweep_args_spec(days, dry_run),
{
    let mut args: Vec<String> = Vec::new();
    args.push(String::from_str("sweep"));
    args.push(String::from_str("--time"));
    args.push(decimal_string(days as u64));
    if dry_run {
        args.push(String::from_str("--dry-run"));
    }
    assert(strings_view(args@) =~= sweep_args_spec(days, dry_run));
    args
}

} // verus!
