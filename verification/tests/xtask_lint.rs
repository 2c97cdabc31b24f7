use courses::xtask::lint::{determine_outcome, evaluate_file_lengths, plan_checks, scan_for_forbidden_allows, CheckId, CheckOutcome, LintArgs, MAX_FILE_LINES};
fn args_none_skipped() -> LintArgs {
    LintArgs {
        fix: false,
        verbose: false,
        no_fmt: false,
        no_check: false,
        no_clippy: false,
        no_test: false,
        no_file_length: false,
        no_forbidden_allows: false,
    }
}

#[test]
fn plan_runs_all_checks_in_order() {
    let plan = plan_checks(&args_none_skipped());
    assert_eq!(
        plan,
        vec![
            CheckId::Fmt,
            CheckId::Check,
            CheckId::Clippy,
            CheckId::Test,
            CheckId::FileLength,
            CheckId::ForbiddenAllows,
        ]
    );
}

#[test]
fn plan_skips_flagged_checks() {
    let mut args = args_none_skipped();
    args.no_fmt = true;
    args.no_test = true;
    let plan = plan_checks(&args);
    assert!(!plan.contains(&CheckId::Fmt));
    assert!(!plan.contains(&CheckId::Test));
    assert_eq!(plan.len(), 4);
}

#[test]
fn determine_outcome_maps_status() {
    assert!(matches!(
        determine_outcome(true, "out".to_owned()),
        CheckOutcome::Passed { .. }
    ));
    assert!(matches!(
        determine_outcome(false, "out".to_owned()),
        CheckOutcome::Failed { .. }
    ));
}

#[test]
fn file_lengths_pass_at_limit() {
    let files = vec![("a.rs".to_owned(), MAX_FILE_LINES)];
    assert!(matches!(
        evaluate_file_lengths(&files),
        CheckOutcome::Passed { .. }
    ));
}

#[test]
fn file_lengths_fail_over_limit() {
    let files = vec![("a.rs".to_owned(), MAX_FILE_LINES + 1)];
    let CheckOutcome::Failed { output } = evaluate_file_lengths(&files) else {
        panic!("expected failure");
    };
    assert!(output.contains("a.rs"));
    assert!(output.contains("1001 lines"));
}

#[test]
fn forbidden_allows_flags_production_code() {
    let files = vec![(
        "a.rs".to_owned(),
        "#[allow(clippy::too_many_arguments)]\nfn f() {}".to_owned(),
    )];
    assert!(matches!(
        scan_for_forbidden_allows(&files),
        CheckOutcome::Failed { .. }
    ));
}

#[test]
fn forbidden_allows_exempts_test_modules() {
    let files = vec![(
        "a.rs".to_owned(),
        "fn f() {}\n#[cfg(test)]\n#[allow(clippy::too_many_arguments)]\nmod tests {}"
            .to_owned(),
    )];
    assert!(matches!(
        scan_for_forbidden_allows(&files),
        CheckOutcome::Passed { .. }
    ));
}

#[test]
fn forbidden_allows_passes_clean_files() {
    let files = vec![("a.rs".to_owned(), "fn f() {}".to_owned())];
    assert!(matches!(
        scan_for_forbidden_allows(&files),
        CheckOutcome::Passed { .. }
    ));
}

#[test]
fn forbidden_allows_misses_violation_after_early_cfg_test_marker() {
    // Documents the known limitation: a violation after a non-trailing
    // `#[cfg(test)]` marker is not caught by the first-marker heuristic.
    let forbidden = "#[allow(clippy::too_many_arguments)]";
    let content =
        format!("#[cfg(test)]\nfn helper() {{}}\nfn real() {{}}\n{forbidden}\nfn g() {{}}");
    let files = vec![("a.rs".to_owned(), content)];
    assert!(matches!(
        scan_for_forbidden_allows(&files),
        CheckOutcome::Passed { .. }
    ));
}

#[test]
fn file_length_report_lists_each_long_file() {
    let files = vec![
        ("a.rs".to_owned(), 1200),
        ("b.rs".to_owned(), 10),
        ("c.rs".to_owned(), 1001),
    ];
    assert_eq!(
        evaluate_file_lengths(&files),
        CheckOutcome::Failed {
            output: "a.rs: 1200 lines (max 1000)\nc.rs: 1001 lines (max 1000)\n".to_owned()
        }
    );
}

#[test]
fn passing_checks_report_no_output() {
    assert_eq!(
        evaluate_file_lengths(&[]),
        CheckOutcome::Passed { output: String::new() }
    );
}

#[test]
fn forbidden_allow_report_names_the_file() {
    let files = vec![(
        "src/x.rs".to_owned(),
        "#[allow(clippy::too_many_arguments)]\nfn f() {}".to_owned(),
    )];
    assert_eq!(
        scan_for_forbidden_allows(&files),
        CheckOutcome::Failed {
            output: "src/x.rs: #[allow(clippy::too_many_arguments)] is forbidden — use a Params struct\n"
                .to_owned()
        }
    );
}

#[test]
fn commands_back_the_cargo_checks() {
    assert_eq!(CheckId::Fmt.command(), Some(vec!["fmt", "--check"]));
    assert_eq!(
        CheckId::Clippy.command(),
        Some(vec!["clippy", "--workspace", "--all-targets", "--", "-D", "warnings"])
    );
    assert_eq!(CheckId::FileLength.command(), None);
    assert_eq!(CheckId::ForbiddenAllows.name(), "forbidden-allows");
}
