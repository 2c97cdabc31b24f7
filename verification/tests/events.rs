use courses::error::{Error};
use courses::events::{parse_public_collections, burst_workers, parse_counter_key, parse_event, dispatch_plan, Outcome, CpuBurstConfig, Decision, Event, EventId, Gate, HandlerKind, Intensity, RecentIds, Seen, gate, is_public_collection, parse_gate, select};
// A1 — EventId + Event serde
#[test]
fn event_id_parse_ok() {
    let id = EventId::parse("abc").unwrap();
    assert_eq!(id.as_str(), "abc");
}

#[test]
fn event_id_parse_empty_err() {
    assert!(matches!(
        EventId::parse(""),
        Err(Error::MalformedEvent(_))
    ));
}

#[test]
fn event_id_parse_whitespace_err() {
    assert!(matches!(
        EventId::parse("   "),
        Err(Error::MalformedEvent(_))
    ));
}



// A2 — parse_event








// A3 — RecentIds
#[test]
fn recent_ids_first_observe_fresh() {
    let store = RecentIds::with_capacity(10);
    let id = EventId::parse("a").unwrap();
    let (_, seen) = store.observe(&id);
    assert_eq!(seen, Seen::Fresh);
}

#[test]
fn recent_ids_second_observe_duplicate() {
    let store = RecentIds::with_capacity(10);
    let id = EventId::parse("a").unwrap();
    let (store, _) = store.observe(&id);
    let (_, seen) = store.observe(&id);
    assert_eq!(seen, Seen::Duplicate);
}

#[test]
fn recent_ids_eviction_makes_fresh() {
    let store = RecentIds::with_capacity(2);
    let a = EventId::parse("a").unwrap();
    let b = EventId::parse("b").unwrap();
    let c = EventId::parse("c").unwrap();
    let (store, _) = store.observe(&a);
    let (store, _) = store.observe(&b);
    // "a" gets evicted
    let (store, _) = store.observe(&c);
    let (_, seen) = store.observe(&a);
    assert_eq!(seen, Seen::Fresh);
}

#[test]
fn recent_ids_capacity_zero_coerces_to_one() {
    let store = RecentIds::with_capacity(0);
    assert_eq!(store.capacity(), 1);
}

#[test]
fn recent_ids_default_has_capacity_one() {
    let store = RecentIds::default();
    let a = EventId::parse("a").unwrap();
    let b = EventId::parse("b").unwrap();
    // First observation is fresh.
    let (store, seen) = store.observe(&a);
    assert_eq!(seen, Seen::Fresh);
    // Adding a second distinct id evicts the first (capacity == 1).
    let (store, seen_b) = store.observe(&b);
    assert_eq!(seen_b, Seen::Fresh);
    // Re-observing "a" is Fresh again because it was evicted.
    let (_, seen_a_again) = store.observe(&a);
    assert_eq!(seen_a_again, Seen::Fresh);
}

// A4 — select
#[test]
fn select_cpu_burst() {
    assert_eq!(select("cpu-burst"), Some(HandlerKind::CpuBurst));
}

#[test]
fn select_counter() {
    assert_eq!(select("counter"), Some(HandlerKind::Counter));
}

#[test]
fn select_unknown() {
    assert_eq!(select("nope"), None);
    assert_eq!(select(""), None);
}

// A5 — gate
#[test]
fn gate_open_always_allow() {
    assert_eq!(
        gate(HandlerKind::CpuBurst, &Gate::Open, None),
        Decision::Allow
    );
    assert_eq!(
        gate(HandlerKind::CpuBurst, &Gate::Open, Some("wrong")),
        Decision::Allow
    );
}

#[test]
fn gate_all_matching_secret_allow() {
    let cfg = Gate::All("secret".into());
    assert_eq!(
        gate(HandlerKind::CpuBurst, &cfg, Some("secret")),
        Decision::Allow
    );
}

#[test]
fn gate_all_wrong_secret_deny() {
    let cfg = Gate::All("secret".into());
    assert_eq!(
        gate(HandlerKind::CpuBurst, &cfg, Some("wrong")),
        Decision::Deny
    );
}

#[test]
fn gate_all_missing_secret_deny() {
    let cfg = Gate::All("secret".into());
    assert_eq!(gate(HandlerKind::CpuBurst, &cfg, None), Decision::Deny);
}

#[test]
fn gate_some_covering_kind_behaves_like_all() {
    let cfg = Gate::Listed {
        secret: "s".into(),
        kinds: vec![HandlerKind::CpuBurst],
    };
    assert_eq!(
        gate(HandlerKind::CpuBurst, &cfg, Some("s")),
        Decision::Allow
    );
    assert_eq!(gate(HandlerKind::CpuBurst, &cfg, None), Decision::Deny);
}

#[test]
fn gate_some_not_covering_kind_allows_without_secret() {
    let cfg = Gate::Listed {
        secret: "s".into(),
        kinds: vec![HandlerKind::CpuBurst],
    };
    assert_eq!(gate(HandlerKind::Counter, &cfg, None), Decision::Allow);
}

// A6 — CpuBurstConfig










// A8 — parse_gate
#[test]
fn parse_gate_no_secret_is_open() {
    let cfg = parse_gate(None, None);
    assert_eq!(cfg.gate, Gate::Open);
    assert!(cfg.unknown_kinds.is_empty());
}

#[test]
fn parse_gate_no_secret_ignores_gated() {
    let cfg = parse_gate(None, Some("all"));
    assert_eq!(cfg.gate, Gate::Open);
    assert!(cfg.unknown_kinds.is_empty());
}

#[test]
fn parse_gate_secret_no_gated_is_all() {
    let cfg = parse_gate(Some("s3cr3t"), None);
    assert_eq!(cfg.gate, Gate::All("s3cr3t".into()));
    assert!(cfg.unknown_kinds.is_empty());
}

#[test]
fn parse_gate_secret_gated_all_is_all() {
    let cfg = parse_gate(Some("s3cr3t"), Some("all"));
    assert_eq!(cfg.gate, Gate::All("s3cr3t".into()));
    assert!(cfg.unknown_kinds.is_empty());
}

#[test]
fn parse_gate_secret_gated_all_case_insensitive() {
    let cfg = parse_gate(Some("s3cr3t"), Some("ALL"));
    assert_eq!(cfg.gate, Gate::All("s3cr3t".into()));
    assert!(cfg.unknown_kinds.is_empty());
}

#[test]
fn parse_gate_secret_kind_list_both_known() {
    let cfg = parse_gate(Some("s3cr3t"), Some("cpu-burst,counter"));
    assert_eq!(
        cfg.gate,
        Gate::Listed {
            secret: "s3cr3t".into(),
            kinds: vec![HandlerKind::CpuBurst, HandlerKind::Counter],
        }
    );
    assert!(cfg.unknown_kinds.is_empty());
}

#[test]
fn parse_gate_secret_kind_list_with_unknown() {
    let cfg = parse_gate(Some("s3cr3t"), Some("cpu-burst,bogus"));
    assert_eq!(
        cfg.gate,
        Gate::Listed {
            secret: "s3cr3t".into(),
            kinds: vec![HandlerKind::CpuBurst]
        }
    );
    assert_eq!(cfg.unknown_kinds, vec!["bogus".to_string()]);
}

#[test]
fn parse_gate_trims_whitespace_and_ignores_empty_entries() {
    let cfg = parse_gate(Some("s3cr3t"), Some(" cpu-burst , , counter , "));
    assert_eq!(
        cfg.gate,
        Gate::Listed {
            secret: "s3cr3t".into(),
            kinds: vec![HandlerKind::CpuBurst, HandlerKind::Counter],
        }
    );
    assert!(cfg.unknown_kinds.is_empty());
}

// A7 — is_public_collection
#[test]
fn is_public_collection_present() {
    let wl = vec!["metrics".to_string(), "logs".to_string()];
    assert!(is_public_collection(&wl, "metrics"));
}

#[test]
fn is_public_collection_absent() {
    let wl = vec!["metrics".to_string()];
    assert!(!is_public_collection(&wl, "private"));
}

#[test]
fn is_public_collection_empty_whitelist() {
    assert!(!is_public_collection(&[], "anything"));
}

#[test]
fn gate_reports_whether_it_needs_a_secret_and_which_it_accepts() {
    assert!(!Gate::Open.requires_secret());
    assert!(Gate::Open.accepts(None));
    let all = Gate::All("s3cr3t".to_owned());
    assert!(all.requires_secret());
    assert!(all.accepts(Some("s3cr3t")));
    assert!(!all.accepts(Some("s3cr3")));
    assert!(!all.accepts(None));
    let listed = Gate::Listed { secret: "k".to_owned(), kinds: vec![HandlerKind::Counter] };
    assert!(listed.accepts(Some("k")));
    assert!(!listed.accepts(Some("x")));
}

#[test]
fn dispatch_answers_unknown_types_without_running_anything() {
    assert_eq!(dispatch_plan("nope", &Gate::Open, None), (Outcome::Unknown, None));
    assert_eq!(dispatch_plan("nope", &Gate::All("s".to_owned()), Some("s")), (Outcome::Unknown, None));
}

#[test]
fn dispatch_denies_without_the_secret_and_accepts_with_it() {
    let gate = Gate::All("s3cret".to_owned());
    assert_eq!(dispatch_plan("counter", &gate, None), (Outcome::Denied, None));
    assert_eq!(dispatch_plan("counter", &gate, Some("wrong")), (Outcome::Denied, None));
    assert_eq!(
        dispatch_plan("counter", &gate, Some("s3cret")),
        (Outcome::Accepted, Some(HandlerKind::Counter))
    );
    let listed = Gate::Listed { secret: "k".to_owned(), kinds: vec![HandlerKind::CpuBurst] };
    assert_eq!(dispatch_plan("counter", &listed, None), (Outcome::Accepted, Some(HandlerKind::Counter)));
    assert_eq!(dispatch_plan("cpu-burst", &listed, None), (Outcome::Denied, None));
    assert_eq!(dispatch_plan("cpu-burst", &Gate::Open, None), (Outcome::Accepted, Some(HandlerKind::CpuBurst)));
}

#[test]
fn parse_event_valid() {
    let ev = parse_event(r#"{"id":"x","type":"cpu-burst","payload":"{}"}"#).unwrap();
    assert_eq!(ev.kind, "cpu-burst");
}

#[test]
fn parse_event_missing_id() {
    assert!(matches!(
        parse_event(r#"{"type":"cpu-burst","payload":"{}"}"#),
        Err(Error::MalformedEvent(_))
    ));
}

#[test]
fn parse_event_empty_id() {
    assert!(matches!(
        parse_event(r#"{"id":"","type":"cpu-burst","payload":"{}"}"#),
        Err(Error::MalformedEvent(_))
    ));
}

#[test]
fn parse_event_garbage() {
    assert!(matches!(parse_event("not json"), Err(Error::MalformedEvent(_))));
}

#[test]
fn parse_event_reads_every_field_and_reports_what_is_wrong() {
    let ev = parse_event(r#"{"payload":"{\"a\":1}","type":"counter","id":"e-1","extra":true}"#).unwrap();
    assert_eq!(ev.id.as_str(), "e-1");
    assert_eq!(ev.kind, "counter");
    assert_eq!(ev.payload, r#"{"a":1}"#);
    let positional = parse_event(r#"["e-2","counter","p"]"#).unwrap();
    assert_eq!(positional.id.as_str(), "e-2");
    assert_eq!(parse_event(r#"{"id":"  ","type":"counter","payload":""}"#).err(), Some(Error::MalformedEvent("empty event id".to_owned())));
    assert_eq!(parse_event(r#"{"id":"x","payload":""}"#).err(), Some(Error::MalformedEvent("missing field `type`".to_owned())));
    assert_eq!(parse_event(r#"{"id":"x","type":3,"payload":""}"#).err(), Some(Error::MalformedEvent("invalid type for `type`, expected a string".to_owned())));
    assert_eq!(parse_event("42").err(), Some(Error::MalformedEvent("expected a JSON object".to_owned())));
    assert_eq!(parse_event(r#"["a","b","c","d"]"#).err(), Some(Error::MalformedEvent("expected a JSON object".to_owned())));
    assert_eq!(parse_event("{").err(), Some(Error::MalformedEvent("expected JSON".to_owned())));
}

#[test]
fn cpu_burst_config_parse_valid() {
    let cfg = CpuBurstConfig::parse(r#"{"seconds":30,"intensity":"high"}"#).unwrap();
    assert_eq!(cfg.seconds, 30);
    assert_eq!(cfg.intensity, Intensity::High);
}

#[test]
fn cpu_burst_config_clamps_seconds() {
    let cfg = CpuBurstConfig::parse(r#"{"seconds":999,"intensity":"low"}"#).unwrap();
    assert_eq!(cfg.seconds, 120);
}

#[test]
fn cpu_burst_config_exactly_max_seconds() {
    let cfg = CpuBurstConfig::parse(r#"{"seconds":120,"intensity":"medium"}"#).unwrap();
    assert_eq!(cfg.seconds, 120);
}

#[test]
fn cpu_burst_config_bad_intensity() {
    assert!(matches!(
        CpuBurstConfig::parse(r#"{"seconds":10,"intensity":"ultra"}"#),
        Err(Error::MalformedEvent(_))
    ));
}

#[test]
fn cpu_burst_config_missing_field() {
    assert!(matches!(
        CpuBurstConfig::parse(r#"{"seconds":10}"#),
        Err(Error::MalformedEvent(_))
    ));
}

#[test]
fn cpu_burst_config_refuses_numbers_that_are_not_u32() {
    for payload in [
        r#"{"seconds":-1,"intensity":"low"}"#,
        r#"{"seconds":1.5,"intensity":"low"}"#,
        r#"{"seconds":4294967296,"intensity":"low"}"#,
        r#"{"seconds":"10","intensity":"low"}"#,
    ] {
        assert_eq!(
            CpuBurstConfig::parse(payload),
            Err(Error::MalformedEvent("invalid type for `seconds`, expected u32".to_owned())),
            "{payload}"
        );
    }
    let cfg = CpuBurstConfig::parse(r#"{"seconds":4294967295,"intensity":"low"}"#).unwrap();
    assert_eq!(cfg.seconds, 120);
    let positional = CpuBurstConfig::parse(r#"[5,"medium"]"#).unwrap();
    assert_eq!((positional.seconds, positional.intensity), (5, Intensity::Medium));
}

#[test]
fn a_burst_runs_one_worker_half_the_cores_or_all_of_them() {
    assert_eq!(burst_workers(Intensity::Low, 8), 1);
    assert_eq!(burst_workers(Intensity::Medium, 8), 4);
    assert_eq!(burst_workers(Intensity::Medium, 1), 1);
    assert_eq!(burst_workers(Intensity::Medium, 3), 1);
    assert_eq!(burst_workers(Intensity::High, 8), 8);
}

#[test]
fn a_counter_payload_names_its_key() {
    assert_eq!(parse_counter_key(r#"{"key":"visits"}"#), Ok("visits".to_owned()));
    assert_eq!(
        parse_counter_key(r#"{"other":1}"#),
        Err(Error::MalformedEvent("missing field `key`".to_owned()))
    );
    assert_eq!(
        parse_counter_key(r#"{"key":5}"#),
        Err(Error::MalformedEvent("invalid type for `key`, expected a string".to_owned()))
    );
    assert!(matches!(parse_counter_key("nope"), Err(Error::MalformedEvent(_))));
}

#[test]
fn public_collections_are_the_trimmed_non_blank_entries() {
    assert_eq!(parse_public_collections("counters"), vec!["counters".to_owned()]);
    assert_eq!(
        parse_public_collections(" counters , scores,, ,notes "),
        vec!["counters".to_owned(), "scores".to_owned(), "notes".to_owned()]
    );
    assert!(parse_public_collections("").is_empty());
    assert!(parse_public_collections(" , ").is_empty());
}
