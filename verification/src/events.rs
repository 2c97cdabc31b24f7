//! Pure event contract: the envelope, idempotency tracking, handler selection,
//! and gating.
use std::collections::VecDeque;

use vstd::prelude::*;

use crate::error::Error;
use crate::json_doc::{
    json_document, json_u64, json_u64_exec, json_view, not_a_struct, not_json, parse_json, struct_field, struct_field_exec,
    struct_shaped, struct_shaped_exec, JsonView,
};
use crate::toml_doc::{missing_field, missing_field_message, wrong_type, wrong_type_message};
use crate::notifications::token_matches;
use crate::text::{
    ascii_lower_seq, eq_str, from_chars, split, split_on, to_chars, to_lower, trim, trim_chars,
};

verus! {

// ---------------------------------------------------------------------------
// Types
// ---------------------------------------------------------------------------

/// A non-empty event identifier, used as an idempotency key.
#[derive(Debug)]
pub struct EventId(String);

impl View for EventId {
    type V = Seq<char>;

    closed spec fn view(&self) -> Seq<char> {
        self.0@
    }
}

impl EventId {
    #[verifier::type_invariant]
    spec fn not_blank(self) -> bool {
        trim(self.0@).len() > 0
    }

    /// Parses a raw id, rejecting empty or whitespace-only input.
    pub fn parse(raw: &str) -> (r: Result<Self, Error>)
        ensures
            trim(raw@).len() > 0 ==> (r matches Ok(id) && id@ == raw@),
            trim(raw@).len() == 0 ==> (r matches Err(e) && e matches Error::MalformedEvent(m) && m@
                == "empty event id"@),
    {
        let chars = to_chars(raw);
        if trim_chars(&chars).len() == 0 {
            return Err(Error::MalformedEvent(String::from_str("empty event id")));
        }
        Ok(EventId(raw.to_owned()))
    }

    pub fn as_str(&self) -> (r: &str)
        ensures
            r@ == self@,
            trim(r@).len() > 0,
    {
        proof {
            use_type_invariant(self);
        }
        self.0.as_str()
    }
}

impl Clone for EventId {
    fn clone(&self) -> (r: Self)
        ensures
            r@ == self@,
    {
        proof {
            use_type_invariant(self);
        }
        EventId(self.0.clone())
    }
}

/// The one envelope used both inbound (`POST /events`) and outbound (SSE).
#[derive(Debug, Clone)]
pub struct Event {
    pub id: EventId,
    pub kind: String,
    pub payload: String,
}

/// A required string field of a struct: its text, or the message for its
/// absence or its type.
pub open spec fn string_field(doc: JsonView, name: Seq<char>, position: int) -> core::result::Result<Seq<char>, Seq<char>> {
    match struct_field(doc, name, position) {
        None => Err(missing_field(name)),
        Some(JsonView::Text(t)) => Ok(t),
        Some(_) => Err(wrong_type(name, "a string"@)),
    }
}

fn string_field_exec(doc: &crate::json_doc::JsonValue, name: &str, position: usize) -> (r: core::result::Result<String, String>)
    ensures
        match string_field(json_view(*doc), name@, position as int) {
            Ok(t) => r matches Ok(s) && s@ == t,
            Err(m) => r matches Err(e) && e@ == m,
        },
{
    match struct_field_exec(doc, name, position) {
        None => Err(missing_field_message(name)),
        Some(crate::json_doc::JsonValue::Text(t)) => Ok(t.clone()),
        Some(_) => Err(wrong_type_message(name, "a string")),
    }
}

/// What an event body decodes to: `id`, `type` and `payload`, required
/// strings in that order, then the id checked by [`EventId::parse`]. The
/// message is the decoder's; its id error is the one `EventId::parse` gives.
pub open spec fn event_decode(doc: Option<JsonView>) -> core::result::Result<(Seq<char>, Seq<char>, Seq<char>), Seq<char>> {
    match doc {
        None => Err(not_json()),
        Some(d) => if !struct_shaped(d, 3) {
            Err(not_a_struct())
        } else {
            match string_field(d, "id"@, 0) {
                Err(m) => Err(m),
                Ok(id) => if trim(id).len() == 0 {
                    Err("empty event id"@)
                } else {
                    match string_field(d, "type"@, 1) {
                        Err(m) => Err(m),
                        Ok(kind) => match string_field(d, "payload"@, 2) {
                            Err(m) => Err(m),
                            Ok(payload) => Ok((id, kind, payload)),
                        },
                    }
                },
            }
        },
    }
}

/// Parses a raw JSON body into a validated `Event`; every failure is a
/// malformed event.
pub fn parse_event(body: &str) -> (r: Result<Event, Error>)
    ensures
        match event_decode(json_document(body@)) {
            Ok((id, kind, payload)) => r matches Ok(e) && e.id@ == id && e.kind@ == kind && e.payload@ == payload,
            Err(m) => r matches Err(Error::MalformedEvent(t)) && t@ == m,
        },
{
    let doc = match parse_json(body) {
        Some(d) => d,
        None => {
            proof {
                reveal_strlit("expected JSON");
            }
            return Err(Error::MalformedEvent(String::from_str("expected JSON")));
        },
    };
    if !struct_shaped_exec(&doc, 3) {
        return Err(Error::MalformedEvent(String::from_str("expected a JSON object")));
    }
    let raw_id = match string_field_exec(&doc, "id", 0) {
        Ok(t) => t,
        Err(m) => {
            return Err(Error::MalformedEvent(m));
        },
    };
    let id = match EventId::parse(raw_id.as_str()) {
        Ok(id) => id,
        Err(e) => {
            return Err(e);
        },
    };
    let kind = match string_field_exec(&doc, "type", 1) {
        Ok(t) => t,
        Err(m) => {
            return Err(Error::MalformedEvent(m));
        },
    };
    let payload = match string_field_exec(&doc, "payload", 2) {
        Ok(t) => t,
        Err(m) => {
            return Err(Error::MalformedEvent(m));
        },
    };
    Ok(Event { id, kind, payload })
}

// ---------------------------------------------------------------------------
// Idempotency
// ---------------------------------------------------------------------------

/// Whether an id had been seen before this observation.
#[derive(Debug, Clone, Copy, PartialEq, Eq, Structural)]
pub enum Seen {
    Fresh,
    Duplicate,
}

/// A bounded record of recently observed event ids. Oldest ids evict first.
///
/// `capacity` is the dedup-window size (intended for windows up to a few
/// thousand; `observe` is O(n) per call).
#[derive(Debug)]
pub struct RecentIds {
    order: VecDeque<EventId>,
    capacity: usize,
}

/// The ids of a deque, oldest first.
pub open spec fn ids_view(q: Seq<EventId>) -> Seq<Seq<char>> {
    q.map_values(|id: EventId| id@)
}

/// No id occurs twice.
pub open spec fn distinct(s: Seq<Seq<char>>) -> bool {
    forall|i: int, j: int| 0 <= i < j < s.len() ==> s[i] != s[j]
}

/// What observing `id` does to a window of at most `cap` ids: an id already
/// there is a duplicate and changes nothing; a fresh id is appended, after
/// the oldest is evicted when the window is full.
pub open spec fn observe_window(w: Seq<Seq<char>>, cap: nat, id: Seq<char>) -> (Seq<Seq<char>>, Seen) {
    if w.contains(id) {
        (w, Seen::Duplicate)
    } else if w.len() >= cap {
        (w.drop_first().push(id), Seen::Fresh)
    } else {
        (w.push(id), Seen::Fresh)
    }
}

/// An id just observed is a duplicate when it comes again, and the second
/// observation leaves the window as the first left it.
pub proof fn lemma_observe_twice(w: Seq<Seq<char>>, cap: nat, id: Seq<char>)
    requires
        cap >= 1,
    ensures
        observe_window(observe_window(w, cap, id).0, cap, id)
            == (observe_window(w, cap, id).0, Seen::Duplicate),
{
    let w1 = observe_window(w, cap, id).0;
    if !w.contains(id) {
        assert(w1[w1.len() - 1] == id);
    }
}

/// The window never holds more than `cap` ids, nor any id twice.
pub proof fn lemma_observe_keeps_window(w: Seq<Seq<char>>, cap: nat, id: Seq<char>)
    requires
        cap >= 1,
        w.len() <= cap,
        distinct(w),
    ensures
        observe_window(w, cap, id).0.len() <= cap,
        distinct(observe_window(w, cap, id).0),
        observe_window(w, cap, id).0.contains(id),
{
    let w1 = observe_window(w, cap, id).0;
    if !w.contains(id) {
        let base = if w.len() >= cap { w.drop_first() } else { w };
        assert(w1 == base.push(id));
        assert(w1[w1.len() - 1] == id);
        assert forall|i: int, j: int| 0 <= i < j < w1.len() implies w1[i] != w1[j] by {
            if j == w1.len() - 1 {
                if w.len() >= cap {
                    assert(w1[i] == w[i + 1]);
                } else {
                    assert(w1[i] == w[i]);
                }
            } else if w.len() >= cap {
                assert(w1[i] == w[i + 1] && w1[j] == w[j + 1]);
            } else {
                assert(w1[i] == w[i] && w1[j] == w[j]);
            }
        }
    } else {
        let k = choose|k: int| 0 <= k < w.len() && w[k] == id;
        assert(w1[k] == id);
    }
}

impl View for RecentIds {
    type V = Seq<Seq<char>>;

    /// The remembered ids, oldest first.
    closed spec fn view(&self) -> Seq<Seq<char>> {
        ids_view(self.order@)
    }
}

impl RecentIds {
    #[verifier::type_invariant]
    spec fn bounded(self) -> bool {
        &&& self.capacity >= 1
        &&& self.order@.len() <= self.capacity
        &&& distinct(ids_view(self.order@))
    }

    /// The dedup-window size.
    pub closed spec fn cap(&self) -> nat {
        self.capacity as nat
    }

    /// The dedup-window size.
    pub fn capacity(&self) -> (r: usize)
        ensures
            r == self.cap(),
    {
        self.capacity
    }

    /// An empty record with room for `capacity` ids (at least one).
    pub fn with_capacity(capacity: usize) -> (r: Self)
        ensures
            r@ == Seq::<Seq<char>>::empty(),
            r.cap() == if capacity >= 1 { capacity as nat } else { 1 },
    {
        let cap = if capacity >= 1 { capacity } else { 1 };
        let r = RecentIds { order: VecDeque::new(), capacity: cap };
        assert(r@ =~= Seq::<Seq<char>>::empty());
        r
    }

    fn holds(&self, id: &EventId) -> (r: bool)
        ensures
            r == self@.contains(id@),
    {
        let mut i: usize = 0;
        while i < self.order.len()
            invariant
                i <= self.order@.len(),
                forall|j: int| 0 <= j < i ==> (#[trigger] self.order@[j])@ != id@,
            decreases self.order@.len() - i,
        {
            if eq_str(&to_chars(self.order[i].as_str()), id.as_str()) {
                assert(self@[i as int] == id@);
                return true;
            }
            i = i + 1;
        }
        proof {
            if self@.contains(id@) {
                let k = choose|k: int| 0 <= k < self@.len() && self@[k] == id@;
                assert(self.order@[k]@ == id@);
            }
        }
        false
    }

    /// Records `id`, returning the next state and whether it was already
    /// present. A fresh id evicts the oldest one when the record is full.
    pub fn observe(self, id: &EventId) -> (r: (Self, Seen))
        ensures
            (r.0@, r.1) == observe_window(self@, self.cap(), id@),
            self@.contains(id@) ==> r.1 == Seen::Duplicate && r.0@ == self@,
            !self@.contains(id@) ==> r.1 == Seen::Fresh && r.0@ == (if self@.len() >= self.cap() {
                self@.drop_first()
            } else {
                self@
            }).push(id@),
            r.0.cap() == self.cap(),
            r.0@.len() <= r.0.cap(),
            distinct(r.0@),
    {
        proof {
            use_type_invariant(&self);
        }
        if self.holds(id) {
            return (self, Seen::Duplicate);
        }
        let RecentIds { mut order, capacity } = self;
        let ghost before = ids_view(order@);
        if order.len() >= capacity {
            order.pop_front();
            assert(ids_view(order@) =~= before.drop_first());
        }
        let ghost mid = ids_view(order@);
        order.push_back(id.clone());
        assert(ids_view(order@) =~= mid.push(id@));
        assert(distinct(ids_view(order@))) by {
            assert forall|i: int, j: int| 0 <= i < j < ids_view(order@).len() implies ids_view(order@)[i]
                != ids_view(order@)[j] by {
                if j == ids_view(order@).len() - 1 {
                    assert(mid.contains(mid[i]));
                    if before.len() >= capacity {
                        assert(mid[i] == before[i + 1]);
                    } else {
                        assert(mid[i] == before[i]);
                    }
                } else if before.len() >= capacity {
                    assert(mid[i] == before[i + 1] && mid[j] == before[j + 1]);
                }
            }
        }
        (RecentIds { order, capacity }, Seen::Fresh)
    }
}

impl Default for RecentIds {
    fn default() -> (r: Self)
        ensures
            r@ == Seq::<Seq<char>>::empty(),
            r.cap() == 1,
    {
        Self::with_capacity(1)
    }
}

// ---------------------------------------------------------------------------
// Dispatch and gating
// ---------------------------------------------------------------------------

/// The handlers the server knows. Unknown event types select nothing.
#[derive(Debug, Clone, Copy, PartialEq, Eq, Structural)]
pub enum HandlerKind {
    CpuBurst,
    Counter,
}

/// The handler an event type names.
pub open spec fn select_spec(kind: Seq<char>) -> Option<HandlerKind> {
    if kind == "cpu-burst"@ {
        Some(HandlerKind::CpuBurst)
    } else if kind == "counter"@ {
        Some(HandlerKind::Counter)
    } else {
        None
    }
}

/// Selects a handler for an event type. Unknown types return `None`.
pub fn select(kind: &str) -> (r: Option<HandlerKind>)
    ensures
        r == select_spec(kind@),
{
    let k = to_chars(kind);
    if eq_str(&k, "cpu-burst") {
        Some(HandlerKind::CpuBurst)
    } else if eq_str(&k, "counter") {
        Some(HandlerKind::Counter)
    } else {
        None
    }
}

/// Which handler kinds require the unlock secret.
#[derive(Debug, Clone, PartialEq, Eq)]
pub enum Gate {
    /// No secret configured; everything runs.
    Open,
    /// A secret is configured and applies to all handler kinds.
    All(String),
    /// A secret is configured and applies only to the listed kinds.
    Listed { secret: String, kinds: Vec<HandlerKind> },
}

/// Whether one event may run its handler.
#[derive(Debug, Clone, Copy, PartialEq, Eq, Structural)]
pub enum Decision {
    Allow,
    Deny,
}

/// The decision for `kind` under `cfg` when the client sent `provided`: a
/// handler that `cfg` covers runs only with exactly the configured secret.
pub open spec fn gate_spec(kind: HandlerKind, cfg: Gate, provided: Option<Seq<char>>) -> Decision {
    let required: Option<Seq<char>> = match cfg {
        Gate::Open => None,
        Gate::All(secret) => Some(secret@),
        Gate::Listed { secret, kinds } => if kinds@.contains(kind) {
            Some(secret@)
        } else {
            None
        },
    };
    match required {
        None => Decision::Allow,
        Some(secret) => if provided == Some(secret) {
            Decision::Allow
        } else {
            Decision::Deny
        },
    }
}

impl Gate {
    /// Whether any handler needs the secret.
    pub fn requires_secret(&self) -> (r: bool)
        ensures
            r == !(self is Open),
    {
        match self {
            Gate::Open => false,
            _ => true,
        }
    }

    /// Whether `provided` is let through: anything is when no secret is set;
    /// otherwise only the configured secret.
    pub fn accepts(&self, provided: Option<&str>) -> (r: bool)
        ensures
            r == match self {
                Gate::Open => true,
                Gate::All(s) => provided matches Some(p) && p@ == s@,
                Gate::Listed { secret, .. } => provided matches Some(p) && p@ == secret@,
            },
    {
        let secret = match self {
            Gate::Open => {
                return true;
            },
            Gate::All(s) => s,
            Gate::Listed { secret, .. } => secret,
        };
        match provided {
            Some(p) => token_matches(secret.as_str(), p),
            None => false,
        }
    }
}

/// The configured secret opens every gate; without it, a gated handler is
/// denied; an open gate, or a kind the list leaves out, always runs.
pub proof fn lemma_gate_secret(kind: HandlerKind, cfg: Gate, provided: Option<Seq<char>>)
    ensures
        cfg matches Gate::All(s) ==> gate_spec(kind, cfg, Some(s@)) == Decision::Allow,
        cfg matches Gate::Listed { secret, .. } ==> gate_spec(kind, cfg, Some(secret@)) == Decision::Allow,
        cfg is All ==> gate_spec(kind, cfg, None) == Decision::Deny,
        cfg matches Gate::Listed { kinds, .. } && kinds@.contains(kind) ==> gate_spec(kind, cfg, None)
            == Decision::Deny,
        cfg is Open ==> gate_spec(kind, cfg, provided) == Decision::Allow,
        cfg matches Gate::Listed { kinds, .. } && !kinds@.contains(kind) ==> gate_spec(kind, cfg, provided)
            == Decision::Allow,
{
}

fn covers(kinds: &Vec<HandlerKind>, kind: HandlerKind) -> (r: bool)
    ensures
        r == kinds@.contains(kind),
{
    let mut i: usize = 0;
    while i < kinds.len()
        invariant
            i <= kinds@.len(),
            forall|j: int| 0 <= j < i ==> kinds@[j] != kind,
        decreases kinds@.len() - i,
    {
        if kinds[i] == kind {
            return true;
        }
        i = i + 1;
    }
    false
}

/// Decides whether a handler may run, given `cfg` and the client-provided
/// secret.
pub fn gate(kind: HandlerKind, cfg: &Gate, provided: Option<&str>) -> (r: Decision)
    ensures
        r == gate_spec(
            kind,
            *cfg,
            match provided {
                Some(p) => Some(p@),
                None => None,
            },
        ),
{
    let required: &String = match cfg {
        Gate::Open => {
            return Decision::Allow;
        },
        Gate::All(secret) => secret,
        Gate::Listed { secret, kinds } => {
            if !covers(kinds, kind) {
                return Decision::Allow;
            }
            secret
        },
    };
    match provided {
        Some(p) => {
            if token_matches(required.as_str(), p) {
                Decision::Allow
            } else {
                Decision::Deny
            }
        },
        None => Decision::Deny,
    }
}

/// The result of dispatching one event; the server maps it to an HTTP status.
#[derive(Debug, Clone, Copy, PartialEq, Eq, Structural)]
pub enum Outcome {
    /// The handler ran (or was spawned). HTTP 202.
    Accepted,
    /// No handler is registered for the event type. HTTP 200, nothing done.
    Unknown,
    /// Gating refused the request. HTTP 403.
    Denied,
}

/// What dispatching an event of type `kind` answers, and which handler it
/// runs: none for an unknown type, none when gating denies it, else the
/// selected one, and then the answer is `Accepted` whatever the handler does.
pub open spec fn dispatch_spec(kind: Seq<char>, cfg: Gate, provided: Option<Seq<char>>) -> (
    Outcome,
    Option<HandlerKind>,
) {
    match select_spec(kind) {
        None => (Outcome::Unknown, None),
        Some(k) => if gate_spec(k, cfg, provided) == Decision::Deny {
            (Outcome::Denied, None)
        } else {
            (Outcome::Accepted, Some(k))
        },
    }
}

/// Decides how one event is dispatched: the outcome answered to the client,
/// and the handler the caller must run, if any. A handler's own failure never
/// changes the outcome.
pub fn dispatch_plan(kind: &str, cfg: &Gate, provided: Option<&str>) -> (r: (Outcome, Option<HandlerKind>))
    ensures
        r == dispatch_spec(
            kind@,
            *cfg,
            match provided {
                Some(p) => Some(p@),
                None => None,
            },
        ),
{
    match select(kind) {
        None => (Outcome::Unknown, None),
        Some(k) => match gate(k, cfg, provided) {
            Decision::Deny => (Outcome::Denied, None),
            Decision::Allow => (Outcome::Accepted, Some(k)),
        },
    }
}

/// A handler runs exactly when the event is accepted, and an event whose
/// type is known and that gating allows is always accepted.
pub proof fn lemma_dispatch_accepts(kind: Seq<char>, cfg: Gate, provided: Option<Seq<char>>)
    ensures
        (dispatch_spec(kind, cfg, provided).0 == Outcome::Accepted) <==> dispatch_spec(kind, cfg, provided).1 is Some,
        select_spec(kind) matches Some(k) ==> (gate_spec(k, cfg, provided) == Decision::Allow
            ==> dispatch_spec(kind, cfg, provided) == (Outcome::Accepted, Some(k))),
        select_spec(kind) is None ==> dispatch_spec(kind, cfg, provided).0 == Outcome::Unknown,
{
}

// ---------------------------------------------------------------------------
// Handler payload configs
// ---------------------------------------------------------------------------

/// The longest CPU burst a payload may ask for, in seconds.
pub const MAX_BURST_SECONDS: u32 = 120;

/// CPU-burst intensity, clamped to a safe set.
#[derive(Debug, Clone, Copy, PartialEq, Eq, Structural)]
pub enum Intensity {
    Low,
    Medium,
    High,
}

/// Validated CPU-burst parameters. `seconds` is hard-capped.
#[derive(Debug, Clone, Copy, PartialEq, Eq, Structural)]
pub struct CpuBurstConfig {
    pub seconds: u32,
    pub intensity: Intensity,
}

/// The intensity a payload names.
pub open spec fn intensity_named(name: Seq<char>) -> Option<Intensity> {
    if name == "low"@ {
        Some(Intensity::Low)
    } else if name == "medium"@ {
        Some(Intensity::Medium)
    } else if name == "high"@ {
        Some(Intensity::High)
    } else {
        None
    }
}

/// What a cpu-burst payload decodes to: `seconds`, a `u32`, then
/// `intensity`, one of `low`, `medium` and `high`.
pub open spec fn cpu_burst_decode(doc: Option<JsonView>) -> core::result::Result<(u32, Intensity), Seq<char>> {
    match doc {
        None => Err(not_json()),
        Some(d) => if !struct_shaped(d, 2) {
            Err(not_a_struct())
        } else {
            match struct_field(d, "seconds"@, 0) {
                None => Err(missing_field("seconds"@)),
                Some(v) => match json_u64(v) {
                    Some(n) if n <= u32::MAX => match struct_field(d, "intensity"@, 1) {
                        None => Err(missing_field("intensity"@)),
                        Some(JsonView::Text(t)) if intensity_named(t) is Some => Ok(
                            (n as u32, intensity_named(t)->0),
                        ),
                        Some(_) => Err(wrong_type("intensity"@, "one of `low`, `medium`, `high`"@)),
                    },
                    _ => Err(wrong_type("seconds"@, "u32"@)),
                },
            }
        },
    }
}

impl CpuBurstConfig {
    /// The configuration for a payload asking for `seconds` at `intensity`:
    /// the seconds capped at [`MAX_BURST_SECONDS`].
    pub fn clamped(seconds: u32, intensity: Intensity) -> (r: Self)
        ensures
            r.seconds == if seconds <= MAX_BURST_SECONDS { seconds } else { MAX_BURST_SECONDS },
            r.intensity == intensity,
    {
        let seconds = if seconds <= MAX_BURST_SECONDS { seconds } else { MAX_BURST_SECONDS };
        CpuBurstConfig { seconds, intensity }
    }

    /// Parses and clamps a cpu-burst payload; every failure is a malformed
    /// event.
    pub fn parse(payload: &str) -> (r: Result<Self, Error>)
        ensures
            match cpu_burst_decode(json_document(payload@)) {
                Ok((seconds, intensity)) => r matches Ok(c) && c.intensity == intensity && c.seconds == if seconds
                    <= MAX_BURST_SECONDS {
                    seconds
                } else {
                    MAX_BURST_SECONDS
                },
                Err(m) => r matches Err(Error::MalformedEvent(t)) && t@ == m,
            },
    {
        let doc = match parse_json(payload) {
            Some(d) => d,
            None => {
                proof {
                    reveal_strlit("expected JSON");
                }
                return Err(Error::MalformedEvent(String::from_str("expected JSON")));
            },
        };
        if !struct_shaped_exec(&doc, 2) {
            return Err(Error::MalformedEvent(String::from_str("expected a JSON object")));
        }
        let seconds = match struct_field_exec(&doc, "seconds", 0) {
            None => {
                return Err(Error::MalformedEvent(missing_field_message("seconds")));
            },
            Some(v) => match json_u64_exec(v) {
                Some(n) if n <= 0xffff_ffff => n as u32,
                _ => {
                    return Err(Error::MalformedEvent(wrong_type_message("seconds", "u32")));
                },
            },
        };
        let intensity = match struct_field_exec(&doc, "intensity", 1) {
            None => {
                return Err(Error::MalformedEvent(missing_field_message("intensity")));
            },
            Some(crate::json_doc::JsonValue::Text(t)) => {
                let c = to_chars(t.as_str());
                if eq_str(&c, "low") {
                    Intensity::Low
                } else if eq_str(&c, "medium") {
                    Intensity::Medium
                } else if eq_str(&c, "high") {
                    Intensity::High
                } else {
                    return Err(
                        Error::MalformedEvent(wrong_type_message("intensity", "one of `low`, `medium`, `high`")),
                    );
                }
            },
            Some(_) => {
                return Err(
                    Error::MalformedEvent(wrong_type_message("intensity", "one of `low`, `medium`, `high`")),
                );
            },
        };
        Ok(CpuBurstConfig::clamped(seconds, intensity))
    }
}

/// Whether `collection` is on the list of publicly readable `/state`
/// collections.
pub fn is_public_collection(whitelist: &[String], collection: &str) -> (r: bool)
    ensures
        r == exists|i: int| 0 <= i < whitelist@.len() && (#[trigger] whitelist@[i])@ == collection@,
{
    let c = to_chars(collection);
    let mut i: usize = 0;
    while i < whitelist.len()
        invariant
            i <= whitelist@.len(),
            c@ == collection@,
            forall|j: int| 0 <= j < i ==> (#[trigger] whitelist@[j])@ != collection@,
        decreases whitelist@.len() - i,
    {
        if eq_str(&c, whitelist[i].as_str()) {
            return true;
        }
        i = i + 1;
    }
    false
}

// ---------------------------------------------------------------------------
// Gate configuration parsing
// ---------------------------------------------------------------------------

/// The result of parsing gate configuration from raw env strings.
#[derive(Debug, Clone, PartialEq, Eq)]
pub struct GateConfig {
    pub gate: Gate,
    /// Kind names in `CB_APPS_GATED` that did not match a known handler.
    pub unknown_kinds: Vec<String>,
}

/// The known kinds and the unknown names of a comma-separated kind list.
pub open spec fn kind_list(entries: Seq<Seq<char>>) -> (Seq<HandlerKind>, Seq<Seq<char>>)
    decreases entries.len(),
{
    if entries.len() == 0 {
        (seq![], seq![])
    } else {
        let (kinds, unknown) = kind_list(entries.drop_last());
        let name = trim(entries.last());
        if name.len() == 0 {
            (kinds, unknown)
        } else if name == "cpu-burst"@ {
            (kinds.push(HandlerKind::CpuBurst), unknown)
        } else if name == "counter"@ {
            (kinds.push(HandlerKind::Counter), unknown)
        } else {
            (kinds, unknown.push(name))
        }
    }
}

/// `raw` reads "all", ignoring surrounding whitespace and ASCII case.
pub open spec fn means_all(raw: Seq<char>) -> bool {
    ascii_lower_seq(trim(raw)) == "all"@
}

fn is_all(raw: &[char]) -> (r: bool)
    ensures
        r == means_all(raw@),
{
    let t = trim_chars(raw);
    proof {
        reveal_strlit("all");
    }
    if t.len() != 3 {
        assert(ascii_lower_seq(t@).len() == t@.len());
        return false;
    }
    let a = to_lower(t[0]);
    let b = to_lower(t[1]);
    let c = to_lower(t[2]);
    let r = a == 'a' && b == 'l' && c == 'l';
    let ghost lw = ascii_lower_seq(t@);
    assert(lw.len() == 3 && lw[0] == a && lw[1] == b && lw[2] == c);
    assert("all"@[0] == 'a' && "all"@[1] == 'l' && "all"@[2] == 'l' && "all"@.len() == 3);
    if r {
        assert(lw =~= "all"@);
    }
    assert(r == (lw =~= "all"@));
    r
}

/// Parses gate configuration from the optional secret and the optional `CB_APPS_GATED`
/// value ("all", or a comma-separated list of handler-kind names). No secret
/// yields `Gate::Open`. A secret with `gated` absent or "all" yields
/// `Gate::All`. A secret with a kind list yields `Gate::Listed` over the known
/// kinds; unknown names are collected into `unknown_kinds`.
pub fn parse_gate(secret: Option<&str>, gated: Option<&str>) -> (r: GateConfig)
    ensures
        match secret {
            None => r.gate == Gate::Open && r.unknown_kinds@.len() == 0,
            Some(s) => match gated {
                None => r.gate matches Gate::All(x) && x@ == s@ && r.unknown_kinds@.len() == 0,
                Some(g) => if means_all(g@) {
                    r.gate matches Gate::All(x) && x@ == s@ && r.unknown_kinds@.len() == 0
                } else {
                    r.gate matches Gate::Listed { secret: x, kinds } && x@ == s@ && kinds@ == kind_list(
                        split(g@, ','),
                    ).0 && r.unknown_kinds@.map_values(|u: String| u@) == kind_list(split(g@, ',')).1
                },
            },
        },
{
    let secret = match secret {
        None => {
            return GateConfig { gate: Gate::Open, unknown_kinds: Vec::new() };
        },
        Some(s) => s,
    };
    let raw = match gated {
        None => {
            return GateConfig { gate: Gate::All(secret.to_owned()), unknown_kinds: Vec::new() };
        },
        Some(g) => g,
    };
    let chars = to_chars(raw);
    if is_all(&chars) {
        return GateConfig { gate: Gate::All(secret.to_owned()), unknown_kinds: Vec::new() };
    }
    let entries = split_on(&chars, ',');
    let ghost ev = split(raw@, ',');
    let mut kinds: Vec<HandlerKind> = Vec::new();
    let mut unknown: Vec<String> = Vec::new();
    let mut i: usize = 0;
    proof {
        reveal_strlit("cpu-burst");
        reveal_strlit("counter");
    }
    assert(ev.take(0) =~= seq![]);
    while i < entries.len()
        invariant
            i <= entries@.len(),
            entries@.len() == ev.len(),
            ev == split(raw@, ','),
            forall|k: int| 0 <= k < entries@.len() ==> #[trigger] entries@[k]@ == ev[k],
            kind_list(ev.take(i as int)) == (kinds@, unknown@.map_values(|u: String| u@)),
        decreases entries@.len() - i,
    {
        assert(ev.take(i + 1).drop_last() =~= ev.take(i as int));
        assert(entries@[i as int]@ == ev[i as int]);
        let ghost prev_u = unknown@.map_values(|u: String| u@);
        let name = trim_chars(&entries[i]);
        if name.len() == 0 {
        } else if eq_str(name, "cpu-burst") {
            kinds.push(HandlerKind::CpuBurst);
        } else if eq_str(name, "counter") {
            kinds.push(HandlerKind::Counter);
        } else {
            unknown.push(from_chars(name));
            assert(unknown@.map_values(|u: String| u@) =~= prev_u.push(name@));
        }
        i = i + 1;
    }
    assert(ev.take(ev.len() as int) =~= ev);
    GateConfig { gate: Gate::Listed { secret: secret.to_owned(), kinds }, unknown_kinds: unknown }
}

/// How many busy workers a burst runs on `available` cores: one for low,
/// half the cores (at least one) for medium, all of them for high.
pub fn burst_workers(intensity: Intensity, available: usize) -> (r: usize)
    ensures
        r == match intensity {
            Intensity::Low => 1,
            Intensity::Medium => if available / 2 >= 1 {
                (available / 2) as usize
            } else {
                1
            },
            Intensity::High => available,
        },
{
    match intensity {
        Intensity::Low => 1,
        Intensity::Medium => if available / 2 >= 1 {
            available / 2
        } else {
            1
        },
        Intensity::High => available,
    }
}

/// What a counter payload decodes to: its required string `key`.
pub open spec fn counter_decode(doc: Option<JsonView>) -> core::result::Result<Seq<char>, Seq<char>> {
    match doc {
        None => Err(not_json()),
        Some(d) => if !struct_shaped(d, 1) {
            Err(not_a_struct())
        } else {
            string_field(d, "key"@, 0)
        },
    }
}

/// Reads the counter a `counter` payload names; every failure is a
/// malformed event.
pub fn parse_counter_key(payload: &str) -> (r: Result<String, Error>)
    ensures
        match counter_decode(json_document(payload@)) {
            Ok(k) => r matches Ok(t) && t@ == k,
            Err(m) => r matches Err(Error::MalformedEvent(t)) && t@ == m,
        },
{
    let doc = match parse_json(payload) {
        Some(d) => d,
        None => {
            return Err(Error::MalformedEvent(String::from_str("expected JSON")));
        },
    };
    if !struct_shaped_exec(&doc, 1) {
        return Err(Error::MalformedEvent(String::from_str("expected a JSON object")));
    }
    match string_field_exec(&doc, "key", 0) {
        Ok(k) => Ok(k),
        Err(m) => Err(Error::MalformedEvent(m)),
    }
}

/// The non-blank entries of `pieces`, each trimmed, in order.
pub open spec fn trimmed_entries(pieces: Seq<Seq<char>>) -> Seq<Seq<char>>
    decreases pieces.len(),
{
    if pieces.len() == 0 {
        seq![]
    } else {
        trimmed_entries(pieces.drop_last()) + if trim(pieces.last()).len() > 0 {
            seq![trim(pieces.last())]
        } else {
            Seq::<Seq<char>>::empty()
        }
    }
}

/// Reads the `CB_APPS_PUBLIC_COLLECTIONS` list: its comma-separated
/// entries, trimmed, with the blank ones dropped.
pub fn parse_public_collections(raw: &str) -> (r: Vec<String>)
    ensures
        r@.map_values(|c: String| c@) == trimmed_entries(split(raw@, ',')),
{
    let chars = to_chars(raw);
    let pieces = split_on(&chars, ',');
    let ghost pv = split(raw@, ',');
    let mut out: Vec<String> = Vec::new();
    let mut i: usize = 0;
    while i < pieces.len()
        invariant
            i <= pieces@.len(),
            pieces@.len() == pv.len(),
            forall|k: int| 0 <= k < pieces@.len() ==> #[trigger] pieces@[k]@ == pv[k],
            out@.map_values(|c: String| c@) == trimmed_entries(pv.take(i as int)),
        decreases pieces@.len() - i,
    {
        assert(pv.take(i + 1).drop_last() =~= pv.take(i as int));
        assert(pv.take(i + 1).last() == pieces@[i as int]@);
        let ghost before = out@.map_values(|c: String| c@);
        let t = trim_chars(pieces[i].as_slice());
        if t.len() > 0 {
            out.push(from_chars(t));
            assert(out@.map_values(|c: String| c@) =~= before.push(trim(pv[i as int])));
        } else {
            assert(out@.map_values(|c: String| c@) =~= before);
        }
        assert(trimmed_entries(pv.take(i + 1)) =~= trimmed_entries(pv.take(i as int)) + if trim(pv[i as int]).len() > 0 {
            seq![trim(pv[i as int])]
        } else {
            Seq::<Seq<char>>::empty()
        });
        i = i + 1;
    }
    assert(pv.take(i as int) =~= pv);
    out
}

} // verus!
