//! Notifications surfaced to the guide as toasts: the domain value, the demo
//! generator, and the shared-secret webhook check.
use vstd::prelude::*;

use vstd::string::StringSliceAdditionalSpecFns;

use crate::error::Error;
use crate::json_doc::{
    json_as_str, json_at, json_document, json_pointer, json_text, json_view, not_a_struct, not_json, opt_string,
    opt_string_exec, parse_json, struct_field, struct_field_exec, struct_shaped, struct_shaped_exec, JsonValue,
    JsonView,
};
use crate::toml_doc::{missing_field, missing_field_message, wrong_type, wrong_type_message};
use crate::text::{eq_str, extend_str, find, find_str, from_chars, split, split_on, to_chars, trim, trim_chars};

verus! {

/// A pipeline/build event surfaced to the guide as a toast, attributed to a
/// pod. The first four fields are what every toast shows; the rest are empty
/// whenever the payload does not carry them.
#[derive(Debug, Clone, PartialEq, Eq)]
pub struct Notification {
    /// The participant the event belongs to (baked-in `pod`, else AWS account).
    pub pod: String,
    /// Event origin, e.g. `aws.codepipeline` or a `detail-type` string.
    pub source: String,
    /// State word, e.g. `SUCCEEDED`, `FAILED`, `IN_PROGRESS` (may be empty).
    pub state: String,
    /// Human-readable subject, e.g. the pipeline or project name.
    pub detail: String,
    /// Pipeline stage, on stage- and action-level events.
    pub stage: String,
    /// Pipeline action, on action-level events.
    pub action: String,
    /// The action's provider (`CodeBuild`, `CloudFormation`, `Manual`, ...).
    pub provider: String,
    /// CodeBuild phase, e.g. `BUILD`, `POST_BUILD`, `COMPLETED`.
    pub phase: String,
    /// Why it happened: action failure summary, error code, or alarm reason.
    pub reason: String,
    /// Pipeline execution id, or CodeBuild build id.
    pub execution: String,
    /// AWS region the event came from.
    pub region: String,
    /// When AWS published the event.
    pub time: String,
    /// Console deep link for the subject, when one can be built.
    pub url: String,
}

impl Default for Notification {
    /// A notification with every field empty.
    fn default() -> (r: Self)
        ensures
            fields(r) == Seq::new(13, |i: int| Seq::<char>::empty()),
    {
        let r = Notification {
            pod: String::new(),
            source: String::new(),
            state: String::new(),
            detail: String::new(),
            stage: String::new(),
            action: String::new(),
            provider: String::new(),
            phase: String::new(),
            reason: String::new(),
            execution: String::new(),
            region: String::new(),
            time: String::new(),
            url: String::new(),
        };
        assert(fields(r) =~= Seq::new(13, |i: int| Seq::<char>::empty()));
        r
    }
}

/// The SNS message kinds the endpoint handles.
#[derive(Debug, Clone, PartialEq, Eq)]
pub enum SnsMessage {
    /// Subscription handshake; the shell must GET `subscribe_url` to confirm.
    Confirmation { subscribe_url: String },
    /// A delivered event, parsed into a domain `Notification`.
    Event(Box<Notification>),
}

/// The thirteen fields of a notification, in declaration order.
pub open spec fn fields(n: Notification) -> Seq<Seq<char>> {
    seq![
        n.pod@,
        n.source@,
        n.state@,
        n.detail@,
        n.stage@,
        n.action@,
        n.provider@,
        n.phase@,
        n.reason@,
        n.execution@,
        n.region@,
        n.time@,
        n.url@,
    ]
}

/// The byte sum of `bs`, wrapping at 32 bits.
pub open spec fn byte_sum(bs: Seq<u8>) -> u32
    decreases bs.len(),
{
    if bs.len() == 0 {
        0
    } else {
        ((byte_sum(bs.drop_last()) + bs.last()) % 0x1_0000_0000) as u32
    }
}

/// Which of the three demo events a seed picks.
pub open spec fn demo_pick(seed: &str) -> u32 {
    byte_sum(seed.spec_bytes()) % 3
}

/// The demo notification for each pick: a pipeline that succeeded, a build
/// that failed, and a manual approval waiting.
pub open spec fn demo_fields(pick: u32) -> Seq<Seq<char>> {
    if pick == 0 {
        seq![
            "demo"@, "aws.codepipeline"@, "SUCCEEDED"@, "taller-pipeline"@, ""@, ""@, ""@, ""@, ""@,
            "e1a2b3c4-5d6e-7f80-9012-3456789abcde"@, "us-east-2"@, ""@, ""@,
        ]
    } else if pick == 1 {
        seq![
            "demo"@, "aws.codebuild"@, "FAILED"@, "taller-build"@, ""@, ""@, ""@, "BUILD"@,
            "COMMAND_EXECUTION_ERROR: Error while executing command: docker build"@, ""@,
            "us-east-2"@, ""@, ""@,
        ]
    } else {
        seq![
            "demo"@, "aws.codepipeline"@, "IN_PROGRESS"@, "Aprobación pendiente"@, "Aprobacion"@,
            "Revisar"@, "Manual"@, ""@, ""@, ""@, "us-east-2"@, ""@, ""@,
        ]
    }
}

fn s(text: &str) -> (r: String)
    ensures
        r@ == text@,
{
    text.to_owned()
}

/// Builds a demo [`Notification`] from an opaque seed, cycling
/// deterministically across three pipeline events: `SUCCEEDED`, `FAILED`,
/// and a pending manual approval. Equal seeds yield equal notifications; no
/// demo carries a console link.
pub fn demo_notification(seed: &str) -> (r: Notification)
    ensures
        fields(r) == demo_fields(demo_pick(seed)),
{
    let bytes = seed.as_bytes();
    let mut acc: u32 = 0;
    let mut i: usize = 0;
    while i < bytes.len()
        invariant
            i <= bytes@.len(),
            bytes@ == seed.spec_bytes(),
            acc == byte_sum(bytes@.take(i as int)),
        decreases bytes@.len() - i,
    {
        assert(bytes@.take(i + 1).drop_last() =~= bytes@.take(i as int));
        acc = acc.wrapping_add(bytes[i] as u32);
        i = i + 1;
    }
    assert(bytes@.take(bytes@.len() as int) =~= bytes@);
    let pick = acc % 3;
    if pick == 0 {
        Notification {
            pod: s("demo"),
            source: s("aws.codepipeline"),
            state: s("SUCCEEDED"),
            detail: s("taller-pipeline"),
            stage: s(""),
            action: s(""),
            provider: s(""),
            phase: s(""),
            reason: s(""),
            execution: s("e1a2b3c4-5d6e-7f80-9012-3456789abcde"),
            region: s("us-east-2"),
            time: s(""),
            url: s(""),
        }
    } else if pick == 1 {
        Notification {
            pod: s("demo"),
            source: s("aws.codebuild"),
            state: s("FAILED"),
            detail: s("taller-build"),
            stage: s(""),
            action: s(""),
            provider: s(""),
            phase: s("BUILD"),
            reason: s("COMMAND_EXECUTION_ERROR: Error while executing command: docker build"),
            execution: s(""),
            region: s("us-east-2"),
            time: s(""),
            url: s(""),
        }
    } else {
        Notification {
            pod: s("demo"),
            source: s("aws.codepipeline"),
            state: s("IN_PROGRESS"),
            detail: s("Aprobación pendiente"),
            stage: s("Aprobacion"),
            action: s("Revisar"),
            provider: s("Manual"),
            phase: s(""),
            reason: s(""),
            execution: s(""),
            region: s("us-east-2"),
            time: s(""),
            url: s(""),
        }
    }
}

/// Compares a provided webhook token against the expected one without an
/// early exit on the first differing character: it matches exactly when the
/// two are equal.
pub fn token_matches(expected: &str, provided: &str) -> (r: bool)
    ensures
        r == (expected@ == provided@),
{
    let e = to_chars(expected);
    let p = to_chars(provided);
    if e.len() != p.len() {
        return false;
    }
    let mut diff: u32 = 0;
    let mut i: usize = 0;
    while i < e.len()
        invariant
            i <= e@.len(),
            e@.len() == p@.len(),
            (diff == 0) == forall|j: int| 0 <= j < i ==> e@[j] == p@[j],
        decreases e@.len() - i,
    {
        let a = e[i] as u32;
        let b = p[i] as u32;
        let next = diff | (a ^ b);
        proof {
            assert((diff | (a ^ b)) == 0 <==> (diff == 0 && a == b)) by (bit_vector);
            vstd::utf8::char_u32_cast(e@[i as int], a);
            vstd::utf8::char_u32_cast(p@[i as int], b);
            assert((forall|j: int| 0 <= j < i + 1 ==> e@[j] == p@[j]) <==> ((forall|j: int|
                0 <= j < i ==> e@[j] == p@[j]) && e@[i as int] == p@[i as int]));
        }
        diff = next;
        i = i + 1;
    }
    proof {
        if diff == 0 {
            assert(e@ =~= p@);
        }
    }
    diff == 0
}

// ---------------------------------------------------------------------------
// Reading an event out of an SNS message
// ---------------------------------------------------------------------------

/// What a message document holds at one JSON pointer: whether anything is
/// there, and its text when it is a string.
#[derive(Debug, Clone, PartialEq, Eq)]
pub struct FieldValue {
    pub path: String,
    pub present: bool,
    pub text: Option<String>,
}

pub open spec fn opt_text(o: Option<String>) -> Option<Seq<char>> {
    match o {
        Some(t) => Some(t@),
        None => None,
    }
}

/// A [`FieldValue`] as text.
pub struct FieldView {
    pub path: Seq<char>,
    pub present: bool,
    pub text: Option<Seq<char>>,
}

impl View for FieldValue {
    type V = FieldView;

    open spec fn view(&self) -> FieldView {
        FieldView { path: self.path@, present: self.present, text: opt_text(self.text) }
    }
}

/// The text form of a list of field values.
pub open spec fn fields_view(fs: Seq<FieldValue>) -> Seq<FieldView> {
    fs.map_values(|f: FieldValue| f@)
}

/// The first entry, from index `i` on, for `path`.
pub open spec fn field_index(fs: Seq<FieldView>, path: Seq<char>, i: int) -> Option<int>
    decreases fs.len() - i,
{
    if i < 0 || i >= fs.len() {
        None
    } else if fs[i].path == path {
        Some(i)
    } else {
        field_index(fs, path, i + 1)
    }
}

/// The string at `path`, if the document has one there.
pub open spec fn text_at(fs: Seq<FieldView>, path: Seq<char>) -> Option<Seq<char>> {
    match field_index(fs, path, 0) {
        Some(i) => fs[i].text,
        None => None,
    }
}

/// Whether the document has anything at `path`.
pub open spec fn present_at(fs: Seq<FieldView>, path: Seq<char>) -> bool {
    match field_index(fs, path, 0) {
        Some(i) => fs[i].present,
        None => false,
    }
}

/// The string at the first of `paths` that holds one.
pub open spec fn first_text(fs: Seq<FieldView>, paths: Seq<Seq<char>>) -> Option<Seq<char>>
    decreases paths.len(),
{
    if paths.len() == 0 {
        None
    } else {
        match text_at(fs, paths[0]) {
            Some(t) => Some(t),
            None => first_text(fs, paths.drop_first()),
        }
    }
}

pub open spec fn or_empty(o: Option<Seq<char>>) -> Seq<char> {
    match o {
        Some(t) => t,
        None => seq![],
    }
}

/// The event origin: `source`, `detailType` or `detail-type`; a CloudWatch
/// alarm (`AlarmName`) is `aws.cloudwatch`; otherwise `evento`.
pub open spec fn source_of(fs: Seq<FieldView>) -> Seq<char> {
    match first_text(fs, seq!["/source"@, "/detailType"@, "/detail-type"@]) {
        Some(t) => t,
        None => if present_at(fs, "/AlarmName"@) {
            "aws.cloudwatch"@
        } else {
            "evento"@
        },
    }
}

/// The pod: a baked-in `pod` (top level, then under `detail`), then the AWS
/// account, then `desconocido`.
pub open spec fn pod_of(fs: Seq<FieldView>) -> Seq<char> {
    match text_at(fs, "/pod"@) {
        Some(t) => t,
        None => match text_at(fs, "/detail/pod"@) {
            Some(t) => t,
            None => match first_text(fs, seq!["/account"@, "/AWSAccountId"@]) {
                Some(t) => t,
                None => "desconocido"@,
            },
        },
    }
}

pub open spec fn state_paths() -> Seq<Seq<char>> {
    seq!["/detail/state"@, "/detail/build-status"@, "/detail/status"@, "/NewStateValue"@]
}

pub open spec fn reason_paths() -> Seq<Seq<char>> {
    seq![
        "/detail/execution-result/external-execution-summary"@,
        "/detail/execution-result/error-code"@,
        "/NewStateReason"@,
        "/detail/additional-information/message"@,
    ]
}

pub open spec fn execution_paths() -> Seq<Seq<char>> {
    seq!["/detail/execution-id"@, "/detail/build-id"@, "/detail/execution-result/external-execution-id"@]
}

/// The subject: the pipeline or project, else the alarm name or the type.
pub open spec fn detail_of(fs: Seq<FieldView>) -> Seq<char> {
    match first_text(fs, seq!["/detail/pipeline"@, "/detail/project-name"@]) {
        Some(t) => t,
        None => or_empty(first_text(fs, seq!["/AlarmName"@, "/detailType"@, "/detail-type"@])),
    }
}

/// The execution or build id; of a build ARN, what follows `build/`.
pub open spec fn execution_of(fs: Seq<FieldView>) -> Seq<char> {
    let id = or_empty(first_text(fs, execution_paths()));
    match find(id, "build/"@) {
        Some(i) => id.skip(i + 6),
        None => id,
    }
}

/// The region: the event's own, else the fourth `:`-separated field of the
/// first resource ARN, or of the alarm ARN.
pub open spec fn region_of(fs: Seq<FieldView>) -> Seq<char> {
    match text_at(fs, "/region"@) {
        Some(t) => t,
        None => {
            let arn = match text_at(fs, "/resources/0"@) {
                Some(a) => a,
                None => or_empty(text_at(fs, "/AlarmArn"@)),
            };
            if split(arn, ':').len() > 3 {
                split(arn, ':')[3]
            } else {
                seq![]
            }
        },
    }
}

/// `s` with every space written `%20`.
pub open spec fn encode_spaces(s: Seq<char>) -> Seq<char>
    decreases s.len(),
{
    if s.len() == 0 {
        seq![]
    } else {
        encode_spaces(s.drop_last()) + if s.last() == ' ' {
            seq!['%', '2', '0']
        } else {
            seq![s.last()]
        }
    }
}

/// A console deep link: the action's own URL, else a log link, else one
/// built from the region, the subject and the execution, or none.
pub open spec fn url_of(
    fs: Seq<FieldView>,
    source: Seq<char>,
    detail: Seq<char>,
    region: Seq<char>,
    execution: Seq<char>,
) -> Seq<char> {
    let external = or_empty(text_at(fs, "/detail/execution-result/external-execution-url"@));
    let deep = or_empty(text_at(fs, "/detail/additional-information/logs/deep-link"@));
    let base = "https://"@ + region + ".console.aws.amazon.com"@;
    if external.len() > 0 {
        external
    } else if deep.len() > 0 {
        deep
    } else if region.len() == 0 || detail.len() == 0 {
        seq![]
    } else if source == "aws.codepipeline"@ {
        if execution.len() == 0 {
            base + "/codesuite/codepipeline/pipelines/"@ + detail + "/view?region="@ + region
        } else {
            base + "/codesuite/codepipeline/pipelines/"@ + detail + "/executions/"@ + execution + "?region="@
                + region
        }
    } else if source == "aws.codebuild"@ {
        if execution.len() == 0 {
            base + "/codesuite/codebuild/projects/"@ + detail + "/history?region="@ + region
        } else {
            base + "/codesuite/codebuild/projects/"@ + detail + "/build/"@ + execution + "?region="@ + region
        }
    } else if source == "aws.cloudwatch"@ {
        base + "/cloudwatch/home?region="@ + region + "#alarmsV2:alarm/"@ + encode_spaces(detail)
    } else {
        seq![]
    }
}

/// The notification a message document makes, field by field.
pub open spec fn notification_fields(fs: Seq<FieldView>) -> Seq<Seq<char>> {
    seq![
        pod_of(fs),
        source_of(fs),
        or_empty(first_text(fs, state_paths())),
        detail_of(fs),
        or_empty(text_at(fs, "/detail/stage"@)),
        or_empty(text_at(fs, "/detail/action"@)),
        or_empty(text_at(fs, "/detail/type/provider"@)),
        or_empty(first_text(fs, seq!["/detail/current-phase"@, "/detail/completed-phase"@])),
        or_empty(first_text(fs, reason_paths())),
        execution_of(fs),
        region_of(fs),
        or_empty(first_text(fs, seq!["/time"@, "/StateChangeTime"@])),
        url_of(fs, source_of(fs), detail_of(fs), region_of(fs), execution_of(fs)),
    ]
}

/// The console link a notification carries, in terms of its own fields:
/// without an action URL or a log link, and with a region and a subject, a
/// CodeBuild event links to the build its execution names (or to the
/// project's history when it names none), and a CodePipeline event to the
/// execution it names (or to the pipeline's view); the link always carries
/// the notification's region.
pub proof fn lemma_console_link(fs: Seq<FieldView>)
    ensures
        ({
            let n = notification_fields(fs);
            let source = n[1];
            let detail = n[3];
            let execution = n[9];
            let region = n[10];
            let url = n[12];
            let base = "https://"@ + region + ".console.aws.amazon.com"@;
            let linked = or_empty(text_at(fs, "/detail/execution-result/external-execution-url"@)).len() > 0
                || or_empty(text_at(fs, "/detail/additional-information/logs/deep-link"@)).len() > 0;
            !linked && region.len() > 0 && detail.len() > 0 ==> {
                &&& source == "aws.codebuild"@ && execution.len() > 0 ==> url == base
                    + "/codesuite/codebuild/projects/"@ + detail + "/build/"@ + execution + "?region="@ + region
                &&& source == "aws.codebuild"@ && execution.len() == 0 ==> url == base
                    + "/codesuite/codebuild/projects/"@ + detail + "/history?region="@ + region
                &&& source == "aws.codepipeline"@ && execution.len() > 0 ==> url == base
                    + "/codesuite/codepipeline/pipelines/"@ + detail + "/executions/"@ + execution + "?region="@
                    + region
                &&& source == "aws.codepipeline"@ && execution.len() == 0 ==> url == base
                    + "/codesuite/codepipeline/pipelines/"@ + detail + "/view?region="@ + region
            }
        }),
{
    reveal_strlit("aws.codebuild");
    reveal_strlit("aws.codepipeline");
    assert("aws.codebuild"@ != "aws.codepipeline"@) by {
        assert("aws.codebuild"@.len() != "aws.codepipeline"@.len());
    }
}

/// The notification of a message that is not JSON: the trimmed text is the
/// subject, from pod `desconocido` and source `sns`.
pub open spec fn plain_fields(message: Seq<char>) -> Seq<Seq<char>> {
    seq![
        "desconocido"@, "sns"@, seq![], trim(message), seq![], seq![], seq![], seq![], seq![], seq![], seq![],
        seq![], seq![],
    ]
}

fn text_at_exec(fs: &[FieldValue], path: &str) -> (r: Option<String>)
    ensures
        opt_text(r) == text_at(fields_view(fs@), path@),
        present_at(fields_view(fs@), path@) == (match field_index(fields_view(fs@), path@, 0) {
            Some(i) => fields_view(fs@)[i].present,
            None => false,
        }),
{
    let mut i: usize = 0;
    while i < fs.len()
        invariant
            i <= fields_view(fs@).len(),
            field_index(fields_view(fs@), path@, 0) == field_index(fields_view(fs@), path@, i as int),
        decreases fields_view(fs@).len() - i,
    {
        if eq_str(&to_chars(fs[i].path.as_str()), path) {
            return match &fs[i].text {
                Some(t) => Some(t.clone()),
                None => None,
            };
        }
        i = i + 1;
    }
    None
}

fn present_exec(fs: &[FieldValue], path: &str) -> (r: bool)
    ensures
        r == present_at(fields_view(fs@), path@),
{
    let mut i: usize = 0;
    while i < fs.len()
        invariant
            i <= fields_view(fs@).len(),
            field_index(fields_view(fs@), path@, 0) == field_index(fields_view(fs@), path@, i as int),
        decreases fields_view(fs@).len() - i,
    {
        if eq_str(&to_chars(fs[i].path.as_str()), path) {
            return fs[i].present;
        }
        i = i + 1;
    }
    false
}

fn first_text_exec(fs: &[FieldValue], paths: &Vec<&str>) -> (r: Option<String>)
    ensures
        opt_text(r) == first_text(fields_view(fs@), paths@.map_values(|p: &str| p@)),
{
    let ghost pv = paths@.map_values(|p: &str| p@);
    assert(pv.skip(0) =~= pv);
    let mut i: usize = 0;
    while i < paths.len()
        invariant
            i <= paths@.len(),
            pv == paths@.map_values(|p: &str| p@),
            first_text(fields_view(fs@), pv) == first_text(fields_view(fs@), pv.skip(i as int)),
        decreases paths@.len() - i,
    {
        assert(pv.skip(i as int)[0] == paths@[i as int]@);
        assert(pv.skip(i as int).drop_first() =~= pv.skip(i + 1));
        match text_at_exec(fs, paths[i]) {
            Some(t) => {
                return Some(t);
            },
            None => {},
        }
        i = i + 1;
    }
    assert(pv.skip(i as int) =~= Seq::<Seq<char>>::empty());
    None
}

fn or_empty_exec(o: Option<String>) -> (r: String)
    ensures
        r@ == or_empty(opt_text(o)),
{
    match o {
        Some(t) => t,
        None => String::new(),
    }
}

fn source_exec(fs: &[FieldValue]) -> (r: String)
    ensures
        r@ == source_of(fields_view(fs@)),
{
    let paths = vec!["/source", "/detailType", "/detail-type"];
    assert(paths@.map_values(|p: &str| p@) =~= seq!["/source"@, "/detailType"@, "/detail-type"@]);
    match first_text_exec(fs, &paths) {
        Some(t) => t,
        None => if present_exec(fs, "/AlarmName") {
            String::from_str("aws.cloudwatch")
        } else {
            String::from_str("evento")
        },
    }
}

fn pod_exec(fs: &[FieldValue]) -> (r: String)
    ensures
        r@ == pod_of(fields_view(fs@)),
{
    if let Some(t) = text_at_exec(fs, "/pod") {
        return t;
    }
    if let Some(t) = text_at_exec(fs, "/detail/pod") {
        return t;
    }
    let paths = vec!["/account", "/AWSAccountId"];
    assert(paths@.map_values(|p: &str| p@) =~= seq!["/account"@, "/AWSAccountId"@]);
    match first_text_exec(fs, &paths) {
        Some(t) => t,
        None => String::from_str("desconocido"),
    }
}

fn detail_exec(fs: &[FieldValue]) -> (r: String)
    ensures
        r@ == detail_of(fields_view(fs@)),
{
    let paths = vec!["/detail/pipeline", "/detail/project-name"];
    assert(paths@.map_values(|p: &str| p@) =~= seq!["/detail/pipeline"@, "/detail/project-name"@]);
    if let Some(t) = first_text_exec(fs, &paths) {
        return t;
    }
    let names = vec!["/AlarmName", "/detailType", "/detail-type"];
    assert(names@.map_values(|p: &str| p@) =~= seq!["/AlarmName"@, "/detailType"@, "/detail-type"@]);
    or_empty_exec(first_text_exec(fs, &names))
}

fn execution_exec(fs: &[FieldValue]) -> (r: String)
    ensures
        r@ == execution_of(fields_view(fs@)),
{
    let paths = vec!["/detail/execution-id", "/detail/build-id", "/detail/execution-result/external-execution-id"];
    assert(paths@.map_values(|p: &str| p@) =~= execution_paths());
    let id = or_empty_exec(first_text_exec(fs, &paths));
    let c = to_chars(id.as_str());
    proof {
        reveal_strlit("build/");
    }
    assert("build/"@.len() == 6);
    match find_str(&c, "build/") {
        Some(i) => {
            assert(i + 6 <= c@.len());
            assert(i + 6 <= c.len());
            let tail = &c[i + 6..c.len()];
            assert(tail@ =~= id@.skip(i + 6));
            from_chars(tail)
        },
        None => id,
    }
}

fn region_exec(fs: &[FieldValue]) -> (r: String)
    ensures
        r@ == region_of(fields_view(fs@)),
{
    if let Some(t) = text_at_exec(fs, "/region") {
        return t;
    }
    let arn = match text_at_exec(fs, "/resources/0") {
        Some(a) => a,
        None => or_empty_exec(text_at_exec(fs, "/AlarmArn")),
    };
    let parts = split_on(&to_chars(arn.as_str()), ':');
    if parts.len() > 3 {
        from_chars(&parts[3])
    } else {
        String::new()
    }
}

fn encode_spaces_exec(s: &String) -> (r: Vec<char>)
    ensures
        r@ == encode_spaces(s@),
{
    let c = to_chars(s.as_str());
    let mut out: Vec<char> = Vec::new();
    let mut i: usize = 0;
    while i < c.len()
        invariant
            i <= c@.len(),
            c@ == s@,
            out@ == encode_spaces(c@.take(i as int)),
        decreases c@.len() - i,
    {
        assert(c@.take(i + 1).drop_last() =~= c@.take(i as int));
        if c[i] == ' ' {
            out.push('%');
            out.push('2');
            out.push('0');
        } else {
            out.push(c[i]);
        }
        i = i + 1;
    }
    assert(c@.take(i as int) =~= c@);
    out
}

fn url_exec(fs: &[FieldValue], source: &String, detail: &String, region: &String, execution: &String) -> (r: String)
    ensures
        r@ == url_of(fields_view(fs@), source@, detail@, region@, execution@),
{
    let external = or_empty_exec(text_at_exec(fs, "/detail/execution-result/external-execution-url"));
    if external.as_str().unicode_len() > 0 {
        return external;
    }
    let deep = or_empty_exec(text_at_exec(fs, "/detail/additional-information/logs/deep-link"));
    if deep.as_str().unicode_len() > 0 {
        return deep;
    }
    if region.as_str().unicode_len() == 0 || detail.as_str().unicode_len() == 0 {
        return String::new();
    }
    let mut out = to_chars("https://");
    extend_str(&mut out, region.as_str());
    extend_str(&mut out, ".console.aws.amazon.com");
    let ghost base = out@;
    let src = to_chars(source.as_str());
    let no_execution = execution.as_str().unicode_len() == 0;
    if eq_str(&src, "aws.codepipeline") {
        extend_str(&mut out, "/codesuite/codepipeline/pipelines/");
        extend_str(&mut out, detail.as_str());
        if no_execution {
            extend_str(&mut out, "/view?region=");
        } else {
            extend_str(&mut out, "/executions/");
            extend_str(&mut out, execution.as_str());
            extend_str(&mut out, "?region=");
        }
        extend_str(&mut out, region.as_str());
    } else if eq_str(&src, "aws.codebuild") {
        extend_str(&mut out, "/codesuite/codebuild/projects/");
        extend_str(&mut out, detail.as_str());
        if no_execution {
            extend_str(&mut out, "/history?region=");
        } else {
            extend_str(&mut out, "/build/");
            extend_str(&mut out, execution.as_str());
            extend_str(&mut out, "?region=");
        }
        extend_str(&mut out, region.as_str());
    } else if eq_str(&src, "aws.cloudwatch") {
        extend_str(&mut out, "/cloudwatch/home?region=");
        extend_str(&mut out, region.as_str());
        extend_str(&mut out, "#alarmsV2:alarm/");
        let name = encode_spaces_exec(detail);
        crate::text::extend_chars(&mut out, &name);
    } else {
        return String::new();
    }
    from_chars(&out)
}

/// Builds a [`Notification`] from what a message document holds at each
/// pointer the notification reads.
pub fn notification_from_fields(fs: &[FieldValue]) -> (r: Notification)
    ensures
        fields(r) == notification_fields(fields_view(fs@)),
{
    let states = vec!["/detail/state", "/detail/build-status", "/detail/status", "/NewStateValue"];
    assert(states@.map_values(|p: &str| p@) =~= state_paths());
    let phase_paths = vec!["/detail/current-phase", "/detail/completed-phase"];
    assert(phase_paths@.map_values(|p: &str| p@) =~= seq!["/detail/current-phase"@, "/detail/completed-phase"@]);
    let reasons = vec![
        "/detail/execution-result/external-execution-summary",
        "/detail/execution-result/error-code",
        "/NewStateReason",
        "/detail/additional-information/message",
    ];
    assert(reasons@.map_values(|p: &str| p@) =~= reason_paths());
    let time_paths = vec!["/time", "/StateChangeTime"];
    assert(time_paths@.map_values(|p: &str| p@) =~= seq!["/time"@, "/StateChangeTime"@]);
    let source = source_exec(fs);
    let detail = detail_exec(fs);
    let region = region_exec(fs);
    let execution = execution_exec(fs);
    let url = url_exec(fs, &source, &detail, &region, &execution);
    let n = Notification {
        pod: pod_exec(fs),
        source,
        state: or_empty_exec(first_text_exec(fs, &states)),
        detail,
        stage: or_empty_exec(text_at_exec(fs, "/detail/stage")),
        action: or_empty_exec(text_at_exec(fs, "/detail/action")),
        provider: or_empty_exec(text_at_exec(fs, "/detail/type/provider")),
        phase: or_empty_exec(first_text_exec(fs, &phase_paths)),
        reason: or_empty_exec(first_text_exec(fs, &reasons)),
        execution,
        region,
        time: or_empty_exec(first_text_exec(fs, &time_paths)),
        url,
    };
    assert(fields(n) =~= notification_fields(fields_view(fs@)));
    n
}

/// Every JSON pointer a notification reads.
pub open spec fn message_paths_spec() -> Seq<Seq<char>> {
    seq![
        "/pod"@, "/detail/pod"@, "/account"@, "/AWSAccountId"@, "/source"@, "/detailType"@, "/detail-type"@,
        "/AlarmName"@, "/detail/state"@, "/detail/build-status"@, "/detail/status"@, "/NewStateValue"@,
        "/detail/pipeline"@, "/detail/project-name"@, "/detail/stage"@, "/detail/action"@,
        "/detail/type/provider"@, "/detail/current-phase"@, "/detail/completed-phase"@,
        "/detail/execution-result/external-execution-summary"@, "/detail/execution-result/error-code"@,
        "/NewStateReason"@, "/detail/additional-information/message"@, "/detail/execution-id"@,
        "/detail/build-id"@, "/detail/execution-result/external-execution-id"@, "/region"@,
        "/resources/0"@, "/AlarmArn"@, "/time"@, "/StateChangeTime"@,
        "/detail/execution-result/external-execution-url"@,
        "/detail/additional-information/logs/deep-link"@,
    ]
}

fn message_paths() -> (r: Vec<&'static str>)
    ensures
        r@.map_values(|p: &str| p@) == message_paths_spec(),
{
    let r = vec![
        "/pod", "/detail/pod", "/account", "/AWSAccountId", "/source", "/detailType", "/detail-type",
        "/AlarmName", "/detail/state", "/detail/build-status", "/detail/status", "/NewStateValue",
        "/detail/pipeline", "/detail/project-name", "/detail/stage", "/detail/action",
        "/detail/type/provider", "/detail/current-phase", "/detail/completed-phase",
        "/detail/execution-result/external-execution-summary", "/detail/execution-result/error-code",
        "/NewStateReason", "/detail/additional-information/message", "/detail/execution-id",
        "/detail/build-id", "/detail/execution-result/external-execution-id", "/region",
        "/resources/0", "/AlarmArn", "/time", "/StateChangeTime",
        "/detail/execution-result/external-execution-url",
        "/detail/additional-information/logs/deep-link",
    ];
    assert(r@.map_values(|p: &str| p@) =~= message_paths_spec());
    r
}

/// What a message document holds at each pointer a notification reads.
pub open spec fn doc_fields(doc: JsonView) -> Seq<FieldView> {
    Seq::new(
        message_paths_spec().len(),
        |i: int|
            FieldView {
                path: message_paths_spec()[i],
                present: json_at(doc, message_paths_spec()[i]) is Some,
                text: json_text(json_at(doc, message_paths_spec()[i])),
            },
    )
}

/// What `value` holds at each pointer a notification reads.
fn read_fields(value: &JsonValue) -> (r: Vec<FieldValue>)
    ensures
        fields_view(r@) == doc_fields(json_view(*value)),
{
    let paths = message_paths();
    let ghost pv = message_paths_spec();
    let ghost doc = json_view(*value);
    let mut out: Vec<FieldValue> = Vec::new();
    let mut i: usize = 0;
    while i < paths.len()
        invariant
            i <= paths@.len(),
            paths@.map_values(|p: &str| p@) == pv,
            pv == message_paths_spec(),
            doc == json_view(*value),
            out@.len() == i,
            forall|j: int| 0 <= j < i ==> #[trigger] out@[j]@ == doc_fields(doc)[j],
        decreases paths@.len() - i,
    {
        assert(pv[i as int] == paths@[i as int]@);
        let (present, text) = match json_pointer(value, paths[i]) {
            Some(v) => (true, json_as_str(&v)),
            None => (false, None),
        };
        let path = paths[i].to_owned();
        out.push(FieldValue { path, present, text });
        i = i + 1;
    }
    assert(fields_view(out@) =~= doc_fields(doc));
    out
}

/// Builds a [`Notification`] from the SNS `Message` string. The message is
/// usually an EventBridge/CodeStar JSON document, read by
/// [`notification_from_fields`] at the pointers [`doc_fields`] lists; when
/// it is plain text (or unparseable), the whole trimmed string becomes the
/// detail with neutral defaults.
pub fn notification_from_message(message: &str) -> (r: Notification)
    ensures
        match json_document(message@) {
            None => fields(r) == plain_fields(message@),
            Some(doc) => fields(r) == notification_fields(doc_fields(doc)),
        },
{
    match parse_json(message) {
        None => {
            let c = to_chars(message);
            let n = Notification {
                pod: String::from_str("desconocido"),
                source: String::from_str("sns"),
                state: String::new(),
                detail: from_chars(trim_chars(&c)),
                stage: String::new(),
                action: String::new(),
                provider: String::new(),
                phase: String::new(),
                reason: String::new(),
                execution: String::new(),
                region: String::new(),
                time: String::new(),
                url: String::new(),
            };
            assert(fields(n) =~= plain_fields(message@));
            n
        },
        Some(value) => {
            let fs = read_fields(&value);
            notification_from_fields(&fs)
        },
    }
}

/// The fields of an SNS envelope the endpoint acts on.
#[derive(Debug, Clone, PartialEq, Eq)]
pub struct SnsEnvelope {
    /// `Type`.
    pub kind: String,
    /// `SubscribeURL`.
    pub subscribe_url: Option<String>,
    /// `Message`.
    pub message: Option<String>,
}

/// An envelope as text: its `Type`, `SubscribeURL` and `Message`.
pub open spec fn envelope_view(env: SnsEnvelope) -> (Seq<char>, Option<Seq<char>>, Option<Seq<char>>) {
    (env.kind@, opt_text(env.subscribe_url), opt_text(env.message))
}

/// Whether `r` is what a decoded envelope (or the decoder's message) makes:
/// a `SubscriptionConfirmation` needs its `SubscribeURL`, a `Notification`
/// carries the event read from `Message` (empty when absent), and any other
/// type is refused.
pub open spec fn sns_matches(
    decoded: core::result::Result<(Seq<char>, Option<Seq<char>>, Option<Seq<char>>), Seq<char>>,
    r: core::result::Result<SnsMessage, Error>,
) -> bool {
    match decoded {
        Err(m) => r matches Err(Error::MalformedNotification(t)) && t@ == "envelope: "@ + m,
        Ok((kind, url, message)) => if kind == "SubscriptionConfirmation"@ {
            match url {
                Some(u) => r matches Ok(SnsMessage::Confirmation { subscribe_url }) && subscribe_url@ == u,
                None => r matches Err(Error::MalformedNotification(t))
                    && t@ == "SubscriptionConfirmation without SubscribeURL"@,
            }
        } else if kind == "Notification"@ {
            r matches Ok(SnsMessage::Event(n)) && {
                let message = match message {
                    Some(m) => m,
                    None => seq![],
                };
                &&& json_document(message) is None ==> fields(*n) == plain_fields(message)
                &&& json_document(message) matches Some(doc) ==> fields(*n) == notification_fields(doc_fields(doc))
            }
        } else {
            r matches Err(Error::MalformedNotification(t)) && t@ == "unsupported SNS message type: "@ + kind
        },
    }
}

/// Turns a decoded SNS envelope (or the decoder's message) into a
/// [`SnsMessage`]: a `SubscriptionConfirmation` with its `SubscribeURL`, or
/// a `Notification` with its event read from `Message`.
pub fn sns_message_from(decoded: core::result::Result<SnsEnvelope, String>) -> (r: core::result::Result<SnsMessage, Error>)
    ensures
        sns_matches(
            match decoded {
                Ok(env) => Ok(envelope_view(env)),
                Err(m) => Err(m@),
            },
            r,
        ),
{
    match decoded {
        Err(m) => {
            let mut v = to_chars("envelope: ");
            extend_str(&mut v, m.as_str());
            Err(Error::MalformedNotification(from_chars(&v)))
        },
        Ok(env) => {
            let kind = to_chars(env.kind.as_str());
            if eq_str(&kind, "SubscriptionConfirmation") {
                match env.subscribe_url {
                    Some(u) => Ok(SnsMessage::Confirmation { subscribe_url: u }),
                    None => Err(Error::MalformedNotification(String::from_str("SubscriptionConfirmation without SubscribeURL"))),
                }
            } else if eq_str(&kind, "Notification") {
                let message = match env.message {
                    Some(m) => m,
                    None => String::new(),
                };
                let n = notification_from_message(message.as_str());
                Ok(SnsMessage::Event(Box::new(n)))
            } else {
                let mut v = to_chars("unsupported SNS message type: ");
                extend_str(&mut v, env.kind.as_str());
                Err(Error::MalformedNotification(from_chars(&v)))
            }
        },
    }
}

/// What an SNS request body decodes to: `Type`, a required string, then the
/// optional strings `SubscribeURL` and `Message`, `null` meaning absent.
pub open spec fn envelope_decode(doc: Option<JsonView>) -> core::result::Result<
    (Seq<char>, Option<Seq<char>>, Option<Seq<char>>),
    Seq<char>,
> {
    match doc {
        None => Err(not_json()),
        Some(d) => if !struct_shaped(d, 3) {
            Err(not_a_struct())
        } else {
            match struct_field(d, "Type"@, 0) {
                None => Err(missing_field("Type"@)),
                Some(JsonView::Text(kind)) => match opt_string(struct_field(d, "SubscribeURL"@, 1)) {
                    None => Err(wrong_type("SubscribeURL"@, "a string"@)),
                    Some(url) => match opt_string(struct_field(d, "Message"@, 2)) {
                        None => Err(wrong_type("Message"@, "a string"@)),
                        Some(message) => Ok((kind, url, message)),
                    },
                },
                Some(_) => Err(wrong_type("Type"@, "a string"@)),
            }
        },
    }
}

/// Decodes an SNS request body into its envelope, as [`envelope_decode`]
/// says.
fn decode_envelope(body: &str) -> (r: core::result::Result<SnsEnvelope, String>)
    ensures
        match envelope_decode(json_document(body@)) {
            Ok(e) => r matches Ok(env) && envelope_view(env) == e,
            Err(m) => r matches Err(t) && t@ == m,
        },
{
    let doc = match parse_json(body) {
        Some(d) => d,
        None => {
            return Err(String::from_str("expected JSON"));
        },
    };
    if !struct_shaped_exec(&doc, 3) {
        return Err(String::from_str("expected a JSON object"));
    }
    let kind = match struct_field_exec(&doc, "Type", 0) {
        None => {
            return Err(missing_field_message("Type"));
        },
        Some(JsonValue::Text(t)) => t.clone(),
        Some(_) => {
            return Err(wrong_type_message("Type", "a string"));
        },
    };
    let subscribe_url = match opt_string_exec(struct_field_exec(&doc, "SubscribeURL", 1)) {
        Some(u) => u,
        None => {
            return Err(wrong_type_message("SubscribeURL", "a string"));
        },
    };
    let message = match opt_string_exec(struct_field_exec(&doc, "Message", 2)) {
        Some(m) => m,
        None => {
            return Err(wrong_type_message("Message", "a string"));
        },
    };
    Ok(SnsEnvelope { kind, subscribe_url, message })
}

/// Parses a raw SNS request body into a [`SnsMessage`].
///
/// `SubscriptionConfirmation` yields [`SnsMessage::Confirmation`];
/// `Notification` yields [`SnsMessage::Event`] with the inner event parsed.
/// Any other envelope type, or a body that does not decode, is a
/// [`Error::MalformedNotification`].
pub fn parse_sns_message(body: &str) -> (r: core::result::Result<SnsMessage, Error>)
    ensures
        sns_matches(envelope_decode(json_document(body@)), r),
{
    sns_message_from(decode_envelope(body))
}

} // verus!
