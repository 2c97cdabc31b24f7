//! Decision rules and response body of the three-tier health check:
//! liveness, readiness, and startup.
use vstd::prelude::*;

use crate::error::Error;
use crate::text::{ascii_lower_seq, eq_chars, is_ascii_digit, to_chars, to_lower, trim, trim_chars};

verus! {

// ---------------------------------------------------------------------------
// Types
// ---------------------------------------------------------------------------

/// A dependency the background prober watches, and that the workshop can
/// break on purpose. The names are the wire values used by
/// `/health/simulate` and by the `health-fault` event payload.
#[derive(Debug, Clone, Copy, PartialEq, Eq, Structural, Hash)]
pub enum Dependency {
    /// DynamoDB. Hard: without it the scenario console has no answer to give.
    Dynamo,
    /// The rendered content. Soft: a broken build degrades the site.
    Content,
}

/// How a dependency failure affects the ability to serve traffic.
#[derive(Debug, Clone, Copy, PartialEq, Eq, Structural)]
pub enum Criticality {
    /// No useful answer without it: readiness fails.
    Hard,
    /// Degraded but serviceable: readiness still passes.
    Soft,
}

/// The wire name of a dependency.
pub open spec fn dependency_name(d: Dependency) -> Seq<char> {
    match d {
        Dependency::Dynamo => "dynamodb"@,
        Dependency::Content => "content"@,
    }
}

/// The dependency a wire name spells, ignoring case and surrounding space.
pub open spec fn parse_dependency(raw: Seq<char>) -> Option<Dependency> {
    let n = ascii_lower_seq(trim(raw));
    if n == "dynamodb"@ || n == "dynamo"@ {
        Some(Dependency::Dynamo)
    } else if n == "content"@ {
        Some(Dependency::Content)
    } else {
        None
    }
}

/// `s` lowercased in ASCII and trimmed, as characters.
fn folded(raw: &str) -> (r: Vec<char>)
    ensures
        r@ == ascii_lower_seq(trim(raw@)),
{
    let chars = to_chars(raw);
    let t = trim_chars(&chars);
    let mut out: Vec<char> = Vec::new();
    let mut i: usize = 0;
    while i < t.len()
        invariant
            i <= t@.len(),
            out@ == ascii_lower_seq(t@.take(i as int)),
        decreases t@.len() - i,
    {
        out.push(to_lower(t[i]));
        assert(ascii_lower_seq(t@.take(i + 1)) =~= ascii_lower_seq(t@.take(i as int)).push(
            crate::text::ascii_lower(t@[i as int]),
        ));
        i = i + 1;
    }
    assert(t@.take(t@.len() as int) =~= t@);
    out
}

impl Dependency {
    /// Every dependency, in report order.
    pub const ALL: [Dependency; 2] = [Dependency::Dynamo, Dependency::Content];

    /// The wire name.
    pub fn as_str(self) -> (r: &'static str)
        ensures
            r@ == dependency_name(self),
    {
        match self {
            Dependency::Dynamo => "dynamodb",
            Dependency::Content => "content",
        }
    }

    /// Parses a wire name. Case, and surrounding space, are ignored.
    pub fn parse(raw: &str) -> (r: Option<Dependency>)
        ensures
            r == parse_dependency(raw@),
    {
        let n = folded(raw);
        if crate::text::eq_str(&n, "dynamodb") || crate::text::eq_str(&n, "dynamo") {
            Some(Dependency::Dynamo)
        } else if crate::text::eq_str(&n, "content") {
            Some(Dependency::Content)
        } else {
            None
        }
    }

    /// Whether a failure of this dependency takes the instance out of rotation.
    pub fn criticality(self) -> (r: Criticality)
        ensures
            r == (match self {
                Dependency::Dynamo => Criticality::Hard,
                Dependency::Content => Criticality::Soft,
            }),
    {
        match self {
            Dependency::Dynamo => Criticality::Hard,
            Dependency::Content => Criticality::Soft,
        }
    }
}

/// Every dependency's wire name parses back to it.
pub proof fn lemma_dependency_round_trip(d: Dependency)
    ensures
        parse_dependency(dependency_name(d)) == Some(d),
{
    reveal_strlit("dynamodb");
    reveal_strlit("dynamo");
    reveal_strlit("content");
    let n = dependency_name(d);
    assert(trim(n) == n) by {
        assert(!crate::text::is_ws(n[0]) && !crate::text::is_ws(n.last()));
        assert(crate::text::trim_start(n) == n);
    }
    assert(ascii_lower_seq(n) =~= n);
}

/// Result of one dependency probe.
#[derive(Debug, Clone, Copy, PartialEq, Eq, Structural)]
pub enum ProbeStatus {
    Pass,
    Fail,
}

/// One probed dependency, as reported in the response body.
#[derive(Debug, Clone, PartialEq, Eq)]
pub struct DependencyReport {
    pub name: String,
    pub criticality: Criticality,
    pub status: ProbeStatus,
    pub latency_ms: Option<u64>,
    pub error: Option<String>,
}

/// A failing hard dependency: the reports that block readiness.
pub open spec fn blocks(d: DependencyReport) -> bool {
    d.criticality == Criticality::Hard && d.status == ProbeStatus::Fail
}

impl DependencyReport {
    /// A passing probe.
    pub fn ok(name: &str, criticality: Criticality, latency_ms: u64) -> (r: Self)
        ensures
            r.name@ == name@,
            r.criticality == criticality,
            r.status == ProbeStatus::Pass,
            r.latency_ms == Some(latency_ms),
            r.error is None,
    {
        DependencyReport {
            name: name.to_owned(),
            criticality,
            status: ProbeStatus::Pass,
            latency_ms: Some(latency_ms),
            error: None,
        }
    }

    /// A failing probe, carrying the reason.
    pub fn fail(name: &str, criticality: Criticality, error: &str) -> (r: Self)
        ensures
            r.name@ == name@,
            r.criticality == criticality,
            r.status == ProbeStatus::Fail,
            r.latency_ms is None,
            r.error matches Some(e) && e@ == error@,
    {
        DependencyReport {
            name: name.to_owned(),
            criticality,
            status: ProbeStatus::Fail,
            latency_ms: None,
            error: Some(error.to_owned()),
        }
    }

    /// Whether this report blocks readiness.
    pub fn blocks_readiness(&self) -> (r: bool)
        ensures
            r == blocks(*self),
    {
        self.criticality == Criticality::Hard && self.status == ProbeStatus::Fail
    }
}

/// Where the process is in its own lifecycle.
#[derive(Debug, Clone, Copy, PartialEq, Eq, Structural)]
pub enum Lifecycle {
    /// Still warming up: the first probe has not completed.
    Starting,
    /// Serving traffic.
    Ready,
    /// Shutdown began; readiness reports `503` so the balancer deregisters
    /// this target first.
    Draining,
}

/// Aggregate reported in the body. Soft failures change this without
/// changing the HTTP status code.
#[derive(Debug, Clone, Copy, PartialEq, Eq, Structural)]
pub enum Overall {
    Good,
    Degraded,
    Unavailable,
}

/// Which of the three endpoints produced a body.
#[derive(Debug, Clone, Copy, PartialEq, Eq, Structural)]
pub enum Check {
    Live,
    Ready,
    Startup,
}

/// The body every health endpoint returns.
#[derive(Debug, Clone, PartialEq, Eq)]
pub struct HealthBody {
    pub check: Check,
    pub status: Overall,
    pub lifecycle: Lifecycle,
    pub version: String,
    /// Milliseconds since the background prober last finished a round.
    pub last_probe_ms: u64,
    pub checks: Vec<DependencyReport>,
}

/// Everything the rules need to answer one request.
#[derive(Debug, Clone, PartialEq, Eq)]
pub struct HealthView {
    pub lifecycle: Lifecycle,
    pub dependencies: Vec<DependencyReport>,
    /// Milliseconds since the prober last finished a round.
    pub last_probe_ms: u64,
    /// Configured probe interval, in milliseconds.
    pub interval_ms: u64,
    pub version: String,
}

/// Tunables for the health subsystem, parsed once at the process boundary.
#[derive(Debug, Clone, Copy, PartialEq, Eq, Structural)]
pub struct HealthSettings {
    /// The feature flag. Everything else is inert while this is `false`.
    pub enabled: bool,
    /// How often the background prober runs.
    pub interval_secs: u64,
    /// Per-dependency probe timeout.
    pub timeout_ms: u64,
    /// How long readiness reports `503` before connections stop being
    /// accepted.
    pub drain_secs: u64,
}

pub const DEFAULT_INTERVAL_SECS: u64 = 5;

pub const DEFAULT_TIMEOUT_MS: u64 = 2000;

pub const DEFAULT_DRAIN_SECS: u64 = 15;

/// How many probe rounds may be missed before liveness reports a stuck
/// process.
pub const STALE_ROUNDS: u64 = 4;

/// How long a dependency stays broken when the payload omits `seconds`.
pub const DEFAULT_FAULT_SECONDS: u64 = 60;

/// Hard cap on an injected outage.
pub const MAX_FAULT_SECONDS: u64 = 600;

impl Default for HealthSettings {
    fn default() -> (r: Self)
        ensures
            r == (HealthSettings {
                enabled: false,
                interval_secs: DEFAULT_INTERVAL_SECS,
                timeout_ms: DEFAULT_TIMEOUT_MS,
                drain_secs: DEFAULT_DRAIN_SECS,
            }),
    {
        HealthSettings {
            enabled: false,
            interval_secs: DEFAULT_INTERVAL_SECS,
            timeout_ms: DEFAULT_TIMEOUT_MS,
            drain_secs: DEFAULT_DRAIN_SECS,
        }
    }
}

/// Raw environment values, before parsing.
#[derive(Debug, Clone, Copy, Default, PartialEq, Eq)]
pub struct HealthEnv<'a> {
    pub enabled: Option<&'a str>,
    pub interval_secs: Option<&'a str>,
    pub timeout_ms: Option<&'a str>,
    pub drain_secs: Option<&'a str>,
}

/// A requested outage: which dependency to break, and for how long. Zero
/// seconds restores the dependency immediately.
#[derive(Debug, Clone, Copy, PartialEq, Eq, Structural)]
pub struct HealthFaultConfig {
    pub dependency: Dependency,
    pub seconds: u64,
}

/// What a `health-fault` payload decodes to: an optional string
/// `dependency` and an optional `u64` `seconds`, `null` meaning absent.
pub open spec fn fault_payload_decode(doc: Option<crate::json_doc::JsonView>) -> core::result::Result<
    (Option<Seq<char>>, Option<u64>),
    Seq<char>,
> {
    match doc {
        None => Err(crate::json_doc::not_json()),
        Some(d) => if !crate::json_doc::struct_shaped(d, 2) {
            Err(crate::json_doc::not_a_struct())
        } else {
            match crate::json_doc::opt_string(crate::json_doc::struct_field(d, "dependency"@, 0)) {
                None => Err(crate::toml_doc::wrong_type("dependency"@, "a string"@)),
                Some(dependency) => match crate::json_doc::struct_field(d, "seconds"@, 1) {
                    None => Ok((dependency, None)),
                    Some(crate::json_doc::JsonView::Null) => Ok((dependency, None)),
                    Some(v) => match crate::json_doc::json_u64(v) {
                        Some(n) => Ok((dependency, Some(n))),
                        None => Err(crate::toml_doc::wrong_type("seconds"@, "u64"@)),
                    },
                },
            }
        },
    }
}

impl HealthFaultConfig {
    /// The outage a decoded `health-fault` payload asks for: an absent
    /// dependency means the hard one, an absent duration means
    /// [`DEFAULT_FAULT_SECONDS`], and a duration is capped at
    /// [`MAX_FAULT_SECONDS`]; an unknown name is a malformed event.
    pub fn resolve(dependency: Option<&str>, seconds: Option<u64>) -> (r: Result<Self, crate::error::Error>)
        ensures
            match dependency {
                Some(name) if parse_dependency(name@) is None => r matches Err(crate::error::Error::MalformedEvent(m))
                    && m@ == "unknown health dependency "@ + crate::file_apps::str_debug(name@),
                _ => r matches Ok(c) && c.dependency == (match dependency {
                    Some(name) => parse_dependency(name@).unwrap(),
                    None => Dependency::Dynamo,
                }) && c.seconds == (match seconds {
                    Some(s) => if s > MAX_FAULT_SECONDS { MAX_FAULT_SECONDS } else { s },
                    None => DEFAULT_FAULT_SECONDS,
                }),
            },
    {
        let dependency = match dependency {
            None => Dependency::Dynamo,
            Some(name) => match Dependency::parse(name) {
                Some(d) => d,
                None => {
                    let mut v = crate::text::to_chars("unknown health dependency ");
                    let quoted = crate::file_apps::debug_text(name);
                    crate::text::extend_str(&mut v, quoted.as_str());
                    return Err(crate::error::Error::MalformedEvent(crate::text::from_chars(&v)));
                },
            },
        };
        let seconds = match seconds {
            Some(s) => if s > MAX_FAULT_SECONDS { MAX_FAULT_SECONDS } else { s },
            None => DEFAULT_FAULT_SECONDS,
        };
        Ok(HealthFaultConfig { dependency, seconds })
    }

    /// Parses a `health-fault` payload: decoded as [`fault_payload_decode`]
    /// says, then resolved by [`HealthFaultConfig::resolve`]; every failure
    /// is a malformed event.
    pub fn parse(payload: &str) -> (r: Result<Self, crate::error::Error>)
        ensures
            match fault_payload_decode(crate::json_doc::json_document(payload@)) {
                Err(m) => r matches Err(crate::error::Error::MalformedEvent(t)) && t@ == m,
                Ok((dependency, seconds)) => match dependency {
                    Some(name) if parse_dependency(name) is None => r matches Err(
                        crate::error::Error::MalformedEvent(m),
                    ) && m@ == "unknown health dependency "@ + crate::file_apps::str_debug(name),
                    _ => r matches Ok(c) && c.dependency == (match dependency {
                        Some(name) => parse_dependency(name).unwrap(),
                        None => Dependency::Dynamo,
                    }) && c.seconds == (match seconds {
                        Some(s) => if s > MAX_FAULT_SECONDS {
                            MAX_FAULT_SECONDS
                        } else {
                            s
                        },
                        None => DEFAULT_FAULT_SECONDS,
                    }),
                },
            },
    {
        let doc = match crate::json_doc::parse_json(payload) {
            Some(d) => d,
            None => {
                return Err(crate::error::Error::MalformedEvent(String::from_str("expected JSON")));
            },
        };
        if !crate::json_doc::struct_shaped_exec(&doc, 2) {
            return Err(crate::error::Error::MalformedEvent(String::from_str("expected a JSON object")));
        }
        let dependency = match crate::json_doc::opt_string_exec(crate::json_doc::struct_field_exec(&doc, "dependency", 0)) {
            Some(d) => d,
            None => {
                return Err(
                    crate::error::Error::MalformedEvent(crate::toml_doc::wrong_type_message("dependency", "a string")),
                );
            },
        };
        let seconds = match crate::json_doc::struct_field_exec(&doc, "seconds", 1) {
            None => None,
            Some(crate::json_doc::JsonValue::Null) => None,
            Some(v) => match crate::json_doc::json_u64_exec(v) {
                Some(n) => Some(n),
                None => {
                    return Err(
                        crate::error::Error::MalformedEvent(crate::toml_doc::wrong_type_message("seconds", "u64")),
                    );
                },
            },
        };
        match dependency {
            Some(name) => HealthFaultConfig::resolve(Some(name.as_str()), seconds),
            None => HealthFaultConfig::resolve(None, seconds),
        }
    }
}

// ---------------------------------------------------------------------------
// Parsing settings
// ---------------------------------------------------------------------------

pub open spec fn opt_view(raw: Option<&str>) -> Option<Seq<char>> {
    match raw {
        Some(s) => Some(s@),
        None => None,
    }
}

/// A boolean flag: "1", "true", "yes" or "on", ignoring case and surrounding
/// space.
pub open spec fn flag_spec(raw: Option<Seq<char>>) -> bool {
    match raw {
        None => false,
        Some(s) => {
            let n = ascii_lower_seq(trim(s));
            n == "1"@ || n == "true"@ || n == "yes"@ || n == "on"@
        },
    }
}

/// Reads a boolean environment flag. Absent, empty, or unrecognised is
/// `false`.
pub fn parse_flag(raw: Option<&str>) -> (r: bool)
    ensures
        r == flag_spec(opt_view(raw)),
{
    match raw {
        None => false,
        Some(s) => {
            let n = folded(s);
            crate::text::eq_str(&n, "1") || crate::text::eq_str(&n, "true") || crate::text::eq_str(&n, "yes")
                || crate::text::eq_str(&n, "on")
        },
    }
}

/// The value of a run of decimal digits.
pub open spec fn digits_value(s: Seq<char>) -> nat
    decreases s.len(),
{
    if s.len() == 0 {
        0
    } else {
        digits_value(s.drop_last()) * 10 + (s.last() as nat - '0' as nat) as nat
    }
}

pub open spec fn all_digits(s: Seq<char>) -> bool {
    forall|i: int| 0 <= i < s.len() ==> is_ascii_digit(#[trigger] s[i])
}

/// What `str::parse::<u64>` gives: an optional `+`, then at least one digit
/// and nothing else, with a value that fits in 64 bits.
pub open spec fn parse_u64_spec(s: Seq<char>) -> Option<u64> {
    let d = if s.len() > 0 && s[0] == '+' {
        s.drop_first()
    } else {
        s
    };
    if d.len() > 0 && all_digits(d) && digits_value(d) <= u64::MAX {
        Some(digits_value(d) as u64)
    } else {
        None
    }
}

/// `str::parse::<u64>`.
pub fn parse_u64(s: &[char]) -> (r: Option<u64>)
    ensures
        r == parse_u64_spec(s@),
{
    let start: usize = if s.len() > 0 && s[0] == '+' { 1 } else { 0 };
    let ghost d = s@.subrange(start as int, s@.len() as int);
    assert(d =~= (if s@.len() > 0 && s@[0] == '+' { s@.drop_first() } else { s@ }));
    if start >= s.len() {
        return None;
    }
    let mut v: u64 = 0;
    let mut i = start;
    assert(d.take(0) =~= seq![]);
    while i < s.len()
        invariant
            start <= i <= s@.len(),
            d == s@.subrange(start as int, s@.len() as int),
            d == (if s@.len() > 0 && s@[0] == '+' { s@.drop_first() } else { s@ }),
            d.len() > 0,
            all_digits(d.take(i - start)),
            v as nat == digits_value(d.take(i - start)),
        decreases s@.len() - i,
    {
        let c = s[i];
        assert(d[i - start] == c);
        if !('0' <= c && c <= '9') {
            assert(!all_digits(d));
            return None;
        }
        let digit = (c as u32 - '0' as u32) as u64;
        assert(d.take(i - start + 1).drop_last() =~= d.take(i - start));
        if v > (u64::MAX - digit) / 10 {
            proof {
                if all_digits(d) {
                    lemma_digits_grow(d, (i - start + 1) as int);
                }
                assert(digits_value(d.take(i - start + 1)) == v * 10 + digit) by (nonlinear_arith)
                    requires
                        digits_value(d.take(i - start + 1)) == digits_value(d.take(i - start)) * 10 + digit,
                        v as nat == digits_value(d.take(i - start)),
                ;
                assert(v * 10 + digit > u64::MAX) by (nonlinear_arith)
                    requires
                        v > (u64::MAX - digit) / 10,
                        digit <= 9,
                ;
            }
            return None;
        }
        assert(v * 10 + digit <= u64::MAX) by (nonlinear_arith)
            requires
                v <= (u64::MAX - digit) / 10,
                digit <= 9,
        ;
        v = v * 10 + digit;
        i = i + 1;
    }
    assert(d.take(d.len() as int) =~= d);
    Some(v)
}

/// The digits value of a prefix never exceeds that of the whole run.
proof fn lemma_digits_grow(d: Seq<char>, k: int)
    requires
        0 <= k <= d.len(),
        all_digits(d),
    ensures
        digits_value(d.take(k)) <= digits_value(d),
    decreases d.len() - k,
{
    if k < d.len() {
        lemma_digits_grow(d, k + 1);
        assert(d.take(k + 1).drop_last() =~= d.take(k));
    } else {
        assert(d.take(k) =~= d);
    }
}

/// A number setting: the trimmed value when it parses, else `fallback`.
pub open spec fn number_spec(raw: Option<Seq<char>>, fallback: u64) -> u64 {
    match raw {
        Some(s) => if trim(s).len() > 0 && parse_u64_spec(trim(s)) is Some {
            parse_u64_spec(trim(s)).unwrap()
        } else {
            fallback
        },
        None => fallback,
    }
}

/// A positive number setting: zero falls back too.
pub open spec fn positive_spec(raw: Option<Seq<char>>, fallback: u64) -> u64 {
    if number_spec(raw, fallback) == 0 {
        fallback
    } else {
        number_spec(raw, fallback)
    }
}

fn parse_number(raw: Option<&str>, fallback: u64) -> (r: u64)
    ensures
        r == number_spec(opt_view(raw), fallback),
{
    match raw {
        None => fallback,
        Some(s) => {
            let chars = to_chars(s);
            let t = trim_chars(&chars);
            if t.len() == 0 {
                fallback
            } else {
                match parse_u64(t) {
                    Some(v) => v,
                    None => fallback,
                }
            }
        },
    }
}

fn parse_positive(raw: Option<&str>, fallback: u64) -> (r: u64)
    ensures
        r == positive_spec(opt_view(raw), fallback),
{
    let n = parse_number(raw, fallback);
    if n == 0 {
        fallback
    } else {
        n
    }
}

/// Parses the health settings, falling back to defaults on absent or
/// malformed values. A bad number never aborts startup. Zero is a valid drain
/// time (it turns draining off) but not a valid interval or timeout.
pub fn parse_health_settings(env: HealthEnv<'_>) -> (r: HealthSettings)
    ensures
        r.enabled == flag_spec(opt_view(env.enabled)),
        r.interval_secs == positive_spec(opt_view(env.interval_secs), DEFAULT_INTERVAL_SECS),
        r.timeout_ms == positive_spec(opt_view(env.timeout_ms), DEFAULT_TIMEOUT_MS),
        r.drain_secs == number_spec(opt_view(env.drain_secs), DEFAULT_DRAIN_SECS),
{
    HealthSettings {
        enabled: parse_flag(env.enabled),
        interval_secs: parse_positive(env.interval_secs, DEFAULT_INTERVAL_SECS),
        timeout_ms: parse_positive(env.timeout_ms, DEFAULT_TIMEOUT_MS),
        drain_secs: parse_number(env.drain_secs, DEFAULT_DRAIN_SECS),
    }
}

// ---------------------------------------------------------------------------
// Rules
// ---------------------------------------------------------------------------

/// The staleness budget: four probe intervals, saturating.
pub open spec fn stale_budget(interval_ms: u64) -> int {
    if interval_ms * STALE_ROUNDS > u64::MAX {
        u64::MAX as int
    } else {
        interval_ms * STALE_ROUNDS
    }
}

/// Whether the background prober stopped making progress: more than four
/// intervals since its last round.
pub fn prober_is_stale(last_probe_ms: u64, interval_ms: u64) -> (r: bool)
    ensures
        r == (stale_budget(interval_ms) > 0 && last_probe_ms > stale_budget(interval_ms)),
{
    let budget: u64 = if interval_ms > u64::MAX / STALE_ROUNDS {
        u64::MAX
    } else {
        interval_ms * STALE_ROUNDS
    };
    budget > 0 && last_probe_ms > budget
}

pub open spec fn any_blocks(ds: Seq<DependencyReport>) -> bool {
    exists|i: int| 0 <= i < ds.len() && blocks(#[trigger] ds[i])
}

pub open spec fn any_soft_failed(ds: Seq<DependencyReport>) -> bool {
    exists|i: int| 0 <= i < ds.len() && (#[trigger] ds[i]).status == ProbeStatus::Fail && ds[i].criticality
        == Criticality::Soft
}

/// Any failing hard dependency is `Unavailable`; otherwise starting,
/// draining, or a failing soft dependency is `Degraded`.
pub open spec fn overall_spec(lifecycle: Lifecycle, ds: Seq<DependencyReport>) -> Overall {
    if any_blocks(ds) {
        Overall::Unavailable
    } else if lifecycle != Lifecycle::Ready || any_soft_failed(ds) {
        Overall::Degraded
    } else {
        Overall::Good
    }
}

fn some_blocks(ds: &[DependencyReport]) -> (r: bool)
    ensures
        r == any_blocks(ds@),
{
    let mut i: usize = 0;
    while i < ds.len()
        invariant
            i <= ds@.len(),
            forall|j: int| 0 <= j < i ==> !blocks(#[trigger] ds@[j]),
        decreases ds@.len() - i,
    {
        if ds[i].blocks_readiness() {
            return true;
        }
        i = i + 1;
    }
    false
}

fn some_soft_failed(ds: &[DependencyReport]) -> (r: bool)
    ensures
        r == any_soft_failed(ds@),
{
    let mut i: usize = 0;
    while i < ds.len()
        invariant
            i <= ds@.len(),
            forall|j: int| 0 <= j < i ==> !((#[trigger] ds@[j]).status == ProbeStatus::Fail && ds@[j].criticality == Criticality::Soft),
        decreases ds@.len() - i,
    {
        if ds[i].status == ProbeStatus::Fail && ds[i].criticality == Criticality::Soft {
            return true;
        }
        i = i + 1;
    }
    false
}

/// Aggregate status: any failing hard dependency is `Unavailable`, any
/// failing soft dependency is `Degraded`.
pub fn overall(lifecycle: Lifecycle, dependencies: &[DependencyReport]) -> (r: Overall)
    ensures
        r == overall_spec(lifecycle, dependencies@),
{
    if some_blocks(dependencies) {
        return Overall::Unavailable;
    }
    let soft_failed = some_soft_failed(dependencies);
    match lifecycle {
        Lifecycle::Starting | Lifecycle::Draining => Overall::Degraded,
        Lifecycle::Ready => if soft_failed {
            Overall::Degraded
        } else {
            Overall::Good
        },
    }
}

pub open spec fn live_spec(view: HealthView) -> u16 {
    if stale_budget(view.interval_ms) > 0 && view.last_probe_ms > stale_budget(view.interval_ms) {
        503
    } else {
        200
    }
}

pub open spec fn ready_spec(view: HealthView) -> u16 {
    if view.lifecycle != Lifecycle::Ready || any_blocks(view.dependencies@) {
        503
    } else {
        200
    }
}

pub open spec fn startup_spec(view: HealthView) -> u16 {
    if view.lifecycle == Lifecycle::Starting {
        503
    } else {
        200
    }
}

/// Liveness: is the process alive, and not stuck? Only a stalled prober
/// fails it.
pub fn live_code(view: &HealthView) -> (r: u16)
    ensures
        r == live_spec(*view),
{
    if prober_is_stale(view.last_probe_ms, view.interval_ms) {
        503
    } else {
        200
    }
}

/// Readiness: can this instance serve traffic right now? Starting,
/// draining, or a failing hard dependency fails it.
pub fn ready_code(view: &HealthView) -> (r: u16)
    ensures
        r == ready_spec(*view),
{
    match view.lifecycle {
        Lifecycle::Starting | Lifecycle::Draining => 503,
        Lifecycle::Ready => {
            if some_blocks(view.dependencies.as_slice()) {
                503
            } else {
                200
            }
        },
    }
}

/// Startup: has the process finished warming up?
pub fn startup_code(view: &HealthView) -> (r: u16)
    ensures
        r == startup_spec(*view),
{
    match view.lifecycle {
        Lifecycle::Starting => 503,
        Lifecycle::Ready | Lifecycle::Draining => 200,
    }
}

/// The HTTP status for one endpoint.
pub fn status_code(check: Check, view: &HealthView) -> (r: u16)
    ensures
        r == (match check {
            Check::Live => live_spec(*view),
            Check::Ready => ready_spec(*view),
            Check::Startup => startup_spec(*view),
        }),
{
    match check {
        Check::Live => live_code(view),
        Check::Ready => ready_code(view),
        Check::Startup => startup_code(view),
    }
}

/// The reports' plain values.
pub open spec fn report_view(d: DependencyReport) -> (Seq<char>, Criticality, ProbeStatus, Option<u64>, Option<Seq<char>>) {
    (d.name@, d.criticality, d.status, d.latency_ms, match d.error {
        Some(e) => Some(e@),
        None => None,
    })
}

fn copy_report(d: &DependencyReport) -> (r: DependencyReport)
    ensures
        report_view(r) == report_view(*d),
        blocks(r) == blocks(*d),
        r.status == d.status && r.criticality == d.criticality,
{
    DependencyReport {
        name: d.name.clone(),
        criticality: d.criticality,
        status: d.status,
        latency_ms: d.latency_ms,
        error: match &d.error {
            Some(e) => Some(e.clone()),
            None => None,
        },
    }
}

/// Builds the response body for one endpoint: the snapshot, with the
/// aggregate status.
pub fn body(check: Check, view: &HealthView) -> (r: HealthBody)
    ensures
        r.check == check,
        r.status == overall_spec(view.lifecycle, view.dependencies@),
        r.lifecycle == view.lifecycle,
        r.version@ == view.version@,
        r.last_probe_ms == view.last_probe_ms,
        r.checks@.len() == view.dependencies@.len(),
        forall|i: int| 0 <= i < r.checks@.len() ==> report_view(#[trigger] r.checks@[i]) == report_view(
            view.dependencies@[i],
        ),
{
    let mut checks: Vec<DependencyReport> = Vec::new();
    let mut i: usize = 0;
    while i < view.dependencies.len()
        invariant
            i <= view.dependencies@.len(),
            checks@.len() == i,
            forall|j: int| 0 <= j < i ==> report_view(#[trigger] checks@[j]) == report_view(view.dependencies@[j]),
        decreases view.dependencies@.len() - i,
    {
        checks.push(copy_report(&view.dependencies[i]));
        i = i + 1;
    }
    HealthBody {
        check,
        status: overall(view.lifecycle, view.dependencies.as_slice()),
        lifecycle: view.lifecycle,
        version: view.version.clone(),
        last_probe_ms: view.last_probe_ms,
        checks,
    }
}

// ---------------------------------------------------------------------------
// What the three checks promise
// ---------------------------------------------------------------------------

/// Liveness answers one question, whether the prober still makes progress:
/// two views with the same probe timing get the same liveness code, whatever
/// their lifecycle and dependencies.
pub proof fn lemma_liveness_ignores_state(a: HealthView, b: HealthView)
    requires
        a.last_probe_ms == b.last_probe_ms,
        a.interval_ms == b.interval_ms,
    ensures
        live_spec(a) == live_spec(b),
{
}

/// A failing soft dependency degrades the aggregate but changes no status
/// code: adding one to a view's reports keeps its liveness, readiness and
/// startup codes.
pub proof fn lemma_soft_failure_keeps_codes(v: HealthView, w: HealthView, d: DependencyReport)
    requires
        d.criticality == Criticality::Soft,
        w.lifecycle == v.lifecycle,
        w.last_probe_ms == v.last_probe_ms,
        w.interval_ms == v.interval_ms,
        w.dependencies@ == v.dependencies@.push(d),
    ensures
        live_spec(w) == live_spec(v),
        ready_spec(w) == ready_spec(v),
        startup_spec(w) == startup_spec(v),
        d.status == ProbeStatus::Fail && v.lifecycle == Lifecycle::Ready ==> overall_spec(w.lifecycle, w.dependencies@)
            != Overall::Good,
{
    let ds = v.dependencies@;
    let ws = w.dependencies@;
    assert(any_blocks(ws) == any_blocks(ds)) by {
        if any_blocks(ws) {
            let i = choose|i: int| 0 <= i < ws.len() && blocks(#[trigger] ws[i]);
            assert(i < ds.len());
            assert(ds[i] == ws[i]);
        }
        if any_blocks(ds) {
            let i = choose|i: int| 0 <= i < ds.len() && blocks(#[trigger] ds[i]);
            assert(ws[i] == ds[i]);
        }
    }
    if d.status == ProbeStatus::Fail {
        assert(ws[ds.len() as int] == d);
    }
}

/// A failing hard dependency takes the instance out of rotation: the
/// aggregate is unavailable and readiness fails.
pub proof fn lemma_hard_failure_is_unavailable(v: HealthView, i: int)
    requires
        0 <= i < v.dependencies@.len(),
        v.dependencies@[i].criticality == Criticality::Hard,
        v.dependencies@[i].status == ProbeStatus::Fail,
    ensures
        overall_spec(v.lifecycle, v.dependencies@) == Overall::Unavailable,
        ready_spec(v) == 503,
{
    assert(blocks(v.dependencies@[i]));
}

/// Draining fails readiness, so the balancer deregisters the target, but
/// never fails startup; startup fails only while starting.
pub proof fn lemma_lifecycle_codes(v: HealthView)
    ensures
        v.lifecycle == Lifecycle::Draining ==> ready_spec(v) == 503 && startup_spec(v) == 200,
        v.lifecycle == Lifecycle::Starting ==> ready_spec(v) == 503 && startup_spec(v) == 503,
        v.lifecycle == Lifecycle::Ready ==> startup_spec(v) == 200,
{
}

/// What a `/health/simulate` request does.
#[derive(Debug, Clone, Copy, PartialEq, Eq, Structural)]
pub enum SimulateAction {
    /// The secret is configured and the request did not carry it.
    Unauthorized,
    /// The dependency named is not one the server knows.
    UnknownDependency,
    /// Break the dependency, for `seconds` or until cleared.
    Inject(Dependency),
    /// Restore the dependency.
    Clear(Dependency),
}

/// The action for a request naming `dependency`, with the `fail` flag
/// (absent means start failing) and the `secret` it carried, when the
/// server expects `expected`.
pub open spec fn simulate_spec(
    expected: Option<Seq<char>>,
    secret: Option<Seq<char>>,
    dependency: Seq<char>,
    fail: Option<Seq<char>>,
) -> SimulateAction {
    let authorized = match expected {
        None => true,
        Some(e) => e == match secret {
            Some(s) => s,
            None => Seq::empty(),
        },
    };
    if !authorized {
        SimulateAction::Unauthorized
    } else {
        match parse_dependency(dependency) {
            None => SimulateAction::UnknownDependency,
            Some(d) => if fail is None || flag_spec(fail) {
                SimulateAction::Inject(d)
            } else {
                SimulateAction::Clear(d)
            },
        }
    }
}

/// Decides what a `/health/simulate` request does: the secret first, then
/// the dependency, then whether it breaks or restores it.
pub fn simulate_action(expected: Option<&str>, secret: Option<&str>, dependency: &str, fail: Option<&str>) -> (r: SimulateAction)
    ensures
        r == simulate_spec(opt_view(expected), opt_view(secret), dependency@, opt_view(fail)),
{
    if let Some(e) = expected {
        let provided: &str = match secret {
            Some(s) => s,
            None => "",
        };
        proof {
            reveal_strlit("");
            assert(""@ =~= Seq::<char>::empty());
        }
        if !crate::notifications::token_matches(e, provided) {
            return SimulateAction::Unauthorized;
        }
    }
    match Dependency::parse(dependency) {
        None => SimulateAction::UnknownDependency,
        Some(d) => {
            let failing = match fail {
                None => true,
                Some(raw) => parse_flag(Some(raw)),
            };
            if failing {
                SimulateAction::Inject(d)
            } else {
                SimulateAction::Clear(d)
            }
        },
    }
}

} // verus!
