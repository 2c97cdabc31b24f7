use courses::xtask::clean::{plan_steps, sweep_args, CleanArgs, CleanStep, DEFAULT_DAYS};
fn args_default() -> CleanArgs {
    CleanArgs {
        days: DEFAULT_DAYS,
        incremental: false,
        all: false,
        dry_run: false,
    }
}

#[test]
fn plan_defaults_to_sweep_only() {
    assert_eq!(plan_steps(&args_default()), vec![CleanStep::Sweep]);
}

#[test]
fn plan_adds_incremental_when_flagged() {
    let mut args = args_default();
    args.incremental = true;
    assert_eq!(
        plan_steps(&args),
        vec![CleanStep::Sweep, CleanStep::Incremental]
    );
}

#[test]
fn plan_all_subsumes_other_steps() {
    let mut args = args_default();
    args.all = true;
    args.incremental = true;
    assert_eq!(plan_steps(&args), vec![CleanStep::Full]);
}

#[test]
fn sweep_args_carry_the_age_threshold() {
    assert_eq!(sweep_args(3, false), vec!["sweep", "--time", "3"]);
}

#[test]
fn sweep_args_pass_through_dry_run() {
    assert_eq!(
        sweep_args(7, true),
        vec!["sweep", "--time", "7", "--dry-run"]
    );
}











#[test]
fn step_names_are_reported() {
    assert_eq!(CleanStep::Sweep.name(), "sweep");
    assert_eq!(CleanStep::Incremental.name(), "incremental");
    assert_eq!(CleanStep::Full.name(), "full");
}

#[test]
fn sweep_args_spell_large_thresholds() {
    assert_eq!(sweep_args(4294967295, false), vec!["sweep", "--time", "4294967295"]);
    assert_eq!(sweep_args(0, false), vec!["sweep", "--time", "0"]);
}
