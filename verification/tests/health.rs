use courses::health::{simulate_action, SimulateAction, Check, Criticality, DEFAULT_FAULT_SECONDS, Dependency, DependencyReport, HealthEnv, HealthFaultConfig, HealthView, Lifecycle, MAX_FAULT_SECONDS, Overall, ProbeStatus, body, live_code, overall, parse_flag, parse_health_settings, prober_is_stale, ready_code, startup_code, status_code};
fn view(lifecycle: Lifecycle, dependencies: Vec<DependencyReport>) -> HealthView {
    HealthView {
        lifecycle,
        dependencies,
        last_probe_ms: 0,
        interval_ms: 5_000,
        version: "1.2.3".to_owned(),
    }
}

fn hard_fail() -> DependencyReport {
    DependencyReport::fail("dynamodb", Criticality::Hard, "timeout")
}

fn soft_fail() -> DependencyReport {
    DependencyReport::fail("content", Criticality::Soft, "broken")
}

fn hard_ok() -> DependencyReport {
    DependencyReport::ok("dynamodb", Criticality::Hard, 3)
}

#[test]
fn report_constructors_set_status_and_fields() {
    let ok = hard_ok();
    assert_eq!(ok.status, ProbeStatus::Pass);
    assert_eq!(ok.latency_ms, Some(3));
    assert_eq!(ok.error, None);

    let bad = hard_fail();
    assert_eq!(bad.status, ProbeStatus::Fail);
    assert_eq!(bad.latency_ms, None);
    assert_eq!(bad.error.as_deref(), Some("timeout"));
}

#[test]
fn only_failing_hard_dependencies_block_readiness() {
    assert!(hard_fail().blocks_readiness());
    assert!(!soft_fail().blocks_readiness());
    assert!(!hard_ok().blocks_readiness());
}

#[test]
fn parse_flag_accepts_the_usual_truthy_spellings() {
    for raw in ["1", "true", "TRUE", " yes ", "on"] {
        assert!(parse_flag(Some(raw)), "{raw:?} should be truthy");
    }
    for raw in ["0", "false", "", "  ", "maybe"] {
        assert!(!parse_flag(Some(raw)), "{raw:?} should be falsy");
    }
    assert!(!parse_flag(None));
}

#[test]
fn settings_fall_back_to_defaults() {
    let settings = parse_health_settings(HealthEnv::default());
    assert!(!settings.enabled);
    assert_eq!(settings.interval_secs, 5);
    assert_eq!(settings.timeout_ms, 2_000);
    assert_eq!(settings.drain_secs, 15);
}

#[test]
fn settings_parse_valid_values() {
    let settings = parse_health_settings(HealthEnv {
        enabled: Some("true"),
        interval_secs: Some("10"),
        timeout_ms: Some("500"),
        drain_secs: Some("30"),
    });
    assert!(settings.enabled);
    assert_eq!(settings.interval_secs, 10);
    assert_eq!(settings.timeout_ms, 500);
    assert_eq!(settings.drain_secs, 30);
}

#[test]
fn settings_reject_junk_and_zero_intervals() {
    let settings = parse_health_settings(HealthEnv {
        enabled: Some("1"),
        interval_secs: Some("abc"),
        timeout_ms: Some("0"),
        drain_secs: Some("nope"),
    });
    assert_eq!(settings.interval_secs, 5);
    assert_eq!(settings.timeout_ms, 2_000);
    assert_eq!(settings.drain_secs, 15);
}

#[test]
fn drain_may_be_disabled_with_zero() {
    let settings = parse_health_settings(HealthEnv {
        drain_secs: Some("0"),
        ..HealthEnv::default()
    });
    assert_eq!(settings.drain_secs, 0);
}

#[test]
fn prober_is_stale_after_four_missed_rounds() {
    assert!(!prober_is_stale(0, 5_000));
    assert!(!prober_is_stale(20_000, 5_000));
    assert!(prober_is_stale(20_001, 5_000));
}

#[test]
fn overall_ranks_hard_failures_above_soft_ones() {
    assert_eq!(overall(Lifecycle::Ready, &[hard_ok()]), Overall::Good);
    assert_eq!(
        overall(Lifecycle::Ready, &[hard_ok(), soft_fail()]),
        Overall::Degraded
    );
    assert_eq!(
        overall(Lifecycle::Ready, &[hard_fail(), soft_fail()]),
        Overall::Unavailable
    );
}

#[test]
fn overall_reports_degraded_while_starting_or_draining() {
    assert_eq!(overall(Lifecycle::Starting, &[]), Overall::Degraded);
    assert_eq!(overall(Lifecycle::Draining, &[]), Overall::Degraded);
    // A hard failure still wins over the lifecycle.
    assert_eq!(
        overall(Lifecycle::Draining, &[hard_fail()]),
        Overall::Unavailable
    );
}

#[test]
fn readiness_fails_while_starting_and_draining() {
    assert_eq!(ready_code(&view(Lifecycle::Starting, vec![hard_ok()])), 503);
    assert_eq!(ready_code(&view(Lifecycle::Draining, vec![hard_ok()])), 503);
    assert_eq!(ready_code(&view(Lifecycle::Ready, vec![hard_ok()])), 200);
}

#[test]
fn readiness_follows_hard_dependencies_only() {
    assert_eq!(ready_code(&view(Lifecycle::Ready, vec![hard_fail()])), 503);
    assert_eq!(ready_code(&view(Lifecycle::Ready, vec![soft_fail()])), 200);
}

#[test]
fn startup_passes_once_the_first_probe_lands() {
    assert_eq!(startup_code(&view(Lifecycle::Starting, vec![])), 503);
    assert_eq!(startup_code(&view(Lifecycle::Ready, vec![])), 200);
    assert_eq!(startup_code(&view(Lifecycle::Draining, vec![])), 200);
}

#[test]
fn liveness_ignores_dependencies_and_lifecycle() {
    assert_eq!(
        live_code(&view(Lifecycle::Starting, vec![hard_fail()])),
        200
    );
    assert_eq!(
        live_code(&view(Lifecycle::Draining, vec![hard_fail()])),
        200
    );
}

#[test]
fn liveness_fails_only_when_the_prober_stalls() {
    let mut stuck = view(Lifecycle::Ready, vec![hard_ok()]);
    stuck.last_probe_ms = 60_000;
    assert_eq!(live_code(&stuck), 503);
}

#[test]
fn status_code_dispatches_per_check() {
    let starting = view(Lifecycle::Starting, vec![hard_ok()]);
    assert_eq!(status_code(Check::Live, &starting), 200);
    assert_eq!(status_code(Check::Ready, &starting), 503);
    assert_eq!(status_code(Check::Startup, &starting), 503);
}

#[test]
fn body_carries_the_snapshot() {
    let view = view(Lifecycle::Ready, vec![hard_ok(), soft_fail()]);
    let body = body(Check::Ready, &view);
    assert_eq!(body.check, Check::Ready);
    assert_eq!(body.status, Overall::Degraded);
    assert_eq!(body.lifecycle, Lifecycle::Ready);
    assert_eq!(body.version, "1.2.3");
    assert_eq!(body.checks.len(), 2);
}

#[test]
fn dependency_names_round_trip() {
    for dependency in Dependency::ALL {
        assert_eq!(Dependency::parse(dependency.as_str()), Some(dependency));
    }
    assert_eq!(Dependency::parse(" DYNAMO "), Some(Dependency::Dynamo));
    assert_eq!(Dependency::parse("redis"), None);
    assert_eq!(Dependency::parse(""), None);
}

#[test]
fn dependency_criticality_matches_the_probe_reports() {
    assert_eq!(Dependency::Dynamo.criticality(), Criticality::Hard);
    assert_eq!(Dependency::Content.criticality(), Criticality::Soft);
}











#[test]
fn fault_request_defaults_and_caps() {
    let c = HealthFaultConfig::resolve(None, None).unwrap();
    assert_eq!(c.dependency, Dependency::Dynamo);
    assert_eq!(c.seconds, 60);
    let c = HealthFaultConfig::resolve(Some(" Content "), Some(100_000)).unwrap();
    assert_eq!(c.dependency, Dependency::Content);
    assert_eq!(c.seconds, 600);
    let c = HealthFaultConfig::resolve(Some("dynamodb"), Some(0)).unwrap();
    assert_eq!(c.seconds, 0);
}

#[test]
fn fault_request_names_an_unknown_dependency() {
    let err = HealthFaultConfig::resolve(Some("redis"), None).unwrap_err();
    assert_eq!(err.message(), "malformed event: unknown health dependency \"redis\"");
}

#[test]
fn fault_payload_defaults_to_the_hard_dependency_for_a_minute() {
    let cfg = HealthFaultConfig::parse("{}").unwrap();
    assert_eq!(cfg.dependency, Dependency::Dynamo);
    assert_eq!(cfg.seconds, DEFAULT_FAULT_SECONDS);
}

#[test]
fn fault_payload_reads_both_fields() {
    let cfg = HealthFaultConfig::parse(r#"{"dependency":"content","seconds":30}"#).unwrap();
    assert_eq!(cfg.dependency, Dependency::Content);
    assert_eq!(cfg.seconds, 30);
}

#[test]
fn fault_seconds_are_capped_and_zero_is_kept() {
    let long = HealthFaultConfig::parse(r#"{"seconds":99999}"#).unwrap();
    assert_eq!(long.seconds, MAX_FAULT_SECONDS);
    // Zero means "restore now"; it must survive parsing.
    let zero = HealthFaultConfig::parse(r#"{"seconds":0}"#).unwrap();
    assert_eq!(zero.seconds, 0);
}

#[test]
fn fault_payload_rejects_unknown_dependencies_and_junk() {
    assert!(HealthFaultConfig::parse(r#"{"dependency":"redis"}"#).is_err());
    assert!(HealthFaultConfig::parse("not json").is_err());
}

#[test]
fn fault_payload_reads_null_as_absent_and_names_what_is_wrong() {
    let cfg = HealthFaultConfig::parse(r#"{"dependency":null,"seconds":null}"#).unwrap();
    assert_eq!((cfg.dependency, cfg.seconds), (Dependency::Dynamo, DEFAULT_FAULT_SECONDS));
    assert_eq!(
        HealthFaultConfig::parse(r#"{"dependency":"redis"}"#),
        Err(courses::error::Error::MalformedEvent("unknown health dependency \"redis\"".to_owned()))
    );
    assert_eq!(
        HealthFaultConfig::parse(r#"{"seconds":-3}"#),
        Err(courses::error::Error::MalformedEvent("invalid type for `seconds`, expected u64".to_owned()))
    );
    assert_eq!(
        HealthFaultConfig::parse(r#"{"dependency":7}"#),
        Err(courses::error::Error::MalformedEvent("invalid type for `dependency`, expected a string".to_owned()))
    );
}

#[test]
fn simulate_checks_the_secret_then_the_dependency_then_the_flag() {
    assert_eq!(simulate_action(Some("s"), None, "dynamodb", None), SimulateAction::Unauthorized);
    assert_eq!(simulate_action(Some("s"), Some("x"), "dynamodb", None), SimulateAction::Unauthorized);
    assert_eq!(simulate_action(Some("s"), Some("s"), "redis", None), SimulateAction::UnknownDependency);
    assert_eq!(simulate_action(None, None, "dynamodb", None), SimulateAction::Inject(Dependency::Dynamo));
    assert_eq!(simulate_action(None, None, "content", Some("true")), SimulateAction::Inject(Dependency::Content));
    assert_eq!(simulate_action(Some("s"), Some("s"), "content", Some("false")), SimulateAction::Clear(Dependency::Content));
    assert_eq!(simulate_action(Some(""), None, "dynamo", Some("0")), SimulateAction::Clear(Dependency::Dynamo));
}
