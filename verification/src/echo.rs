//! Decisions behind the echo server's answer: how a query string is decoded,
//! how headers group, which address is the caller, how a binary body is
//! represented, how a timestamp is written, and which status code it carries.
use vstd::prelude::*;
use vstd::string::StringSliceAdditionalSpecFns;
use vstd::utf8::encode_utf8;

use crate::health::{parse_u64, parse_u64_spec};
use crate::json_doc::{
    json_as_array, json_as_str, json_document, json_get, json_member, json_number_text, json_valid, json_view,
    parse_json, JsonValue, JsonView,
};
use crate::text::{
    ascii_lower_seq, eq_chars, extend_chars, extend_str, find, find_chars, from_chars, is_ws,
    push_decimal, push_padded, split, split_on, to_chars, to_lower, trim, trim_chars, decimal, zero_pad,
};

verus! {

/// Static facts about the running echo server, fixed at startup.
#[derive(Debug, Clone, Default)]
pub struct EchoServer {
    /// Public DNS name this server answers to when it sits behind HTTPS.
    pub public_name: Option<String>,
    /// Port the process listens on.
    pub port: u16,
    /// Host name of the machine, or of the container, running the process.
    pub hostname: Option<String>,
    /// Where the ECS task running the server sits in the network. `None` outside ECS.
    pub ecs: Option<EcsNetwork>,
}

/// The settings of the `echo` subcommand.
#[derive(Debug, Clone, PartialEq, Eq)]
pub struct EchoConfig {
    pub port: u16,
    pub public_name: Option<String>,
}

impl EchoConfig {
    /// The facts the server answers with: the public name trimmed, the port,
    /// the host name unless it is empty, and the task's network.
    pub fn server(self, hostname: Option<String>, ecs: Option<EcsNetwork>) -> (r: EchoServer)
        ensures
            r.port == self.port,
            match self.public_name {
                None => r.public_name is None,
                Some(n) => r.public_name matches Some(m) && m@ == crate::text::trim(n@),
            },
            match hostname {
                Some(h) if h@.len() > 0 => r.hostname matches Some(g) && g@ == h@,
                _ => r.hostname is None,
            },
            r.ecs == ecs,
    {
        let public_name = match self.public_name {
            None => None,
            Some(n) => {
                let c = crate::text::to_chars(n.as_str());
                Some(crate::text::from_chars(crate::text::trim_chars(&c)))
            },
        };
        let hostname = match hostname {
            Some(h) => if h.as_str().unicode_len() > 0 { Some(h) } else { None },
            None => None,
        };
        EchoServer { public_name, port: self.port, hostname, ecs }
    }
}

/// The network identity of an ECS task, as the ECS metadata endpoint
/// reports it. Every field is optional.
#[derive(Debug, Clone, Default, PartialEq, Eq)]
pub struct EcsNetwork {
    pub cluster: Option<String>,
    pub task_id: Option<String>,
    pub family: Option<String>,
    pub revision: Option<String>,
    pub launch_type: Option<String>,
    pub availability_zone: Option<String>,
    pub network_mode: Option<String>,
    pub private_ipv4: Option<String>,
    pub private_dns_name: Option<String>,
    pub mac_address: Option<String>,
    pub subnet_cidr: Option<String>,
    pub subnet_gateway: Option<String>,
    pub dns_servers: Vec<String>,
}

/// What follows the last `/` of `s`, or all of it: an ARN's plain name.
pub open spec fn last_segment(s: Seq<char>) -> Seq<char> {
    crate::dev::after_last(s, '/')
}

fn last_segment_exec(s: &String) -> (r: String)
    ensures
        r@ == last_segment(s@),
        !r@.contains('/'),
{
    let c = crate::text::to_chars(s.as_str());
    let mut i = c.len();
    while i > 0 && c[i - 1] != '/'
        invariant
            i <= c@.len(),
            forall|j: int| i <= j < c@.len() ==> c@[j] != '/',
        decreases i,
    {
        i = i - 1;
    }
    proof {
        crate::dev::lemma_last_index(c@, '/');
        if i > 0 {
            assert(crate::dev::last_index(c@, '/') == i - 1) by {
                if crate::dev::last_index(c@, '/') != i - 1 {
                    assert(c@[crate::dev::last_index(c@, '/')] == '/');
                }
            }
        } else {
            assert(crate::dev::last_index(c@, '/') == -1) by {
                if crate::dev::last_index(c@, '/') >= 0 {
                    assert(c@[crate::dev::last_index(c@, '/')] == '/');
                }
            }
        }
    }
    let tail = &c[i..c.len()];
    assert(tail@ =~= last_segment(c@));
    crate::text::from_chars(tail)
}

/// The text form of an optional string.
pub open spec fn opt_view(o: Option<String>) -> Option<Seq<char>> {
    match o {
        Some(t) => Some(t@),
        None => None,
    }
}

/// A field read as text: a string that is not empty, or a number's digits.
/// `Revision` arrives as a string in some versions of the endpoint and as a
/// number in others.
pub open spec fn text_field_spec(value: JsonView, key: Seq<char>) -> Option<Seq<char>> {
    match json_get(value, key) {
        Some(JsonView::Text(t)) => if t.len() > 0 {
            Some(t)
        } else {
            None
        },
        Some(JsonView::Number(n)) => Some(n),
        _ => None,
    }
}

fn text_field(value: &JsonValue, key: &str) -> (r: Option<String>)
    ensures
        opt_view(r) == text_field_spec(json_view(*value), key@),
{
    let v = match json_member(value, key) {
        Some(v) => v,
        None => {
            return None;
        },
    };
    match json_as_str(v) {
        Some(t) => if t.as_str().unicode_len() > 0 {
            Some(t)
        } else {
            None
        },
        None => json_number_text(v),
    }
}

/// The first network of the containers from `i` on: the first item of the
/// first `Networks` array that has one.
pub open spec fn network_from(containers: Seq<JsonView>, i: int) -> Option<JsonView>
    decreases containers.len() - i,
{
    if i < 0 || i >= containers.len() {
        None
    } else {
        match json_get(containers[i], "Networks"@) {
            Some(JsonView::Array(ns)) => if ns.len() > 0 {
                Some(ns[0])
            } else {
                network_from(containers, i + 1)
            },
            _ => network_from(containers, i + 1),
        }
    }
}

/// The network the task reports: the first one any of its containers lists.
pub open spec fn task_network(task: JsonView) -> Option<JsonView> {
    match json_get(task, "Containers"@) {
        Some(JsonView::Array(cs)) => network_from(cs, 0),
        _ => None,
    }
}

/// The first network any container of the task reports.
fn first_network(task: &JsonValue) -> (r: Option<&JsonValue>)
    ensures
        match task_network(json_view(*task)) {
            None => r is None,
            Some(n) => r matches Some(x) && json_view(*x) == n,
        },
{
    let containers = match json_member(task, "Containers") {
        Some(c) => match json_as_array(c) {
            Some(items) => items,
            None => {
                return None;
            },
        },
        None => {
            return None;
        },
    };
    proof {
        reveal_strlit("Containers");
        reveal_strlit("Networks");
    }
    let ghost cv = containers@.map_values(|x: JsonValue| json_view(x));
    let mut i: usize = 0;
    while i < containers.len()
        invariant
            i <= containers@.len(),
            cv == containers@.map_values(|x: JsonValue| json_view(x)),
            task_network(json_view(*task)) == network_from(cv, 0),
            network_from(cv, 0) == network_from(cv, i as int),
        decreases containers@.len() - i,
    {
        if let Some(networks) = json_member(&containers[i], "Networks") {
            if let Some(list) = json_as_array(networks) {
                if list.len() > 0 {
                    return Some(&list[0]);
                }
            }
        }
        i = i + 1;
    }
    None
}

/// The strings among `items`, in order.
pub open spec fn texts_in(items: Seq<JsonView>) -> Seq<Seq<char>>
    decreases items.len(),
{
    if items.len() == 0 {
        Seq::empty()
    } else {
        texts_in(items.drop_last()) + match items.last() {
            JsonView::Text(t) => seq![t],
            _ => Seq::empty(),
        }
    }
}

/// The strings of the array at `key`, skipping what is not a string.
pub open spec fn text_items_spec(value: JsonView, key: Seq<char>) -> Seq<Seq<char>> {
    match json_get(value, key) {
        Some(JsonView::Array(items)) => texts_in(items),
        _ => Seq::empty(),
    }
}

fn text_items(value: &JsonValue, key: &str) -> (r: Vec<String>)
    ensures
        r@.map_values(|t: String| t@) == text_items_spec(json_view(*value), key@),
{
    let mut out: Vec<String> = Vec::new();
    if let Some(v) = json_member(value, key) {
        if let Some(items) = json_as_array(v) {
            let ghost iv = items@.map_values(|x: JsonValue| json_view(x));
            let mut i: usize = 0;
            while i < items.len()
                invariant
                    i <= items@.len(),
                    iv == items@.map_values(|x: JsonValue| json_view(x)),
                    out@.map_values(|t: String| t@) == texts_in(iv.take(i as int)),
                decreases items@.len() - i,
            {
                assert(iv.take(i + 1).drop_last() =~= iv.take(i as int));
                let ghost before = out@.map_values(|t: String| t@);
                if let Some(t) = json_as_str(&items[i]) {
                    out.push(t);
                    assert(out@.map_values(|t: String| t@) =~= before.push(iv[i as int]->Text_0));
                } else {
                    assert(out@.map_values(|t: String| t@) =~= before);
                }
                assert(texts_in(iv.take(i + 1)) =~= texts_in(iv.take(i as int)) + match iv[i as int] {
                    JsonView::Text(t) => seq![t],
                    _ => Seq::<Seq<char>>::empty(),
                });
                i = i + 1;
            }
            assert(iv.take(i as int) =~= iv);
            return out;
        }
    }
    assert(out@.map_values(|t: String| t@) =~= Seq::<Seq<char>>::empty());
    out
}

/// The text of the first item of the array at `key`, if it is a string.
pub open spec fn first_text_spec(value: JsonView, key: Seq<char>) -> Option<Seq<char>> {
    match json_get(value, key) {
        Some(JsonView::Array(items)) => if items.len() > 0 {
            match items[0] {
                JsonView::Text(t) => Some(t),
                _ => None,
            }
        } else {
            None
        },
        _ => None,
    }
}

/// An [`EcsNetwork`] as text.
pub struct EcsNetworkView {
    pub cluster: Option<Seq<char>>,
    pub task_id: Option<Seq<char>>,
    pub family: Option<Seq<char>>,
    pub revision: Option<Seq<char>>,
    pub launch_type: Option<Seq<char>>,
    pub availability_zone: Option<Seq<char>>,
    pub network_mode: Option<Seq<char>>,
    pub private_ipv4: Option<Seq<char>>,
    pub private_dns_name: Option<Seq<char>>,
    pub mac_address: Option<Seq<char>>,
    pub subnet_cidr: Option<Seq<char>>,
    pub subnet_gateway: Option<Seq<char>>,
    pub dns_servers: Seq<Seq<char>>,
}

impl View for EcsNetwork {
    type V = EcsNetworkView;

    open spec fn view(&self) -> EcsNetworkView {
        EcsNetworkView {
            cluster: opt_view(self.cluster),
            task_id: opt_view(self.task_id),
            family: opt_view(self.family),
            revision: opt_view(self.revision),
            launch_type: opt_view(self.launch_type),
            availability_zone: opt_view(self.availability_zone),
            network_mode: opt_view(self.network_mode),
            private_ipv4: opt_view(self.private_ipv4),
            private_dns_name: opt_view(self.private_dns_name),
            mac_address: opt_view(self.mac_address),
            subnet_cidr: opt_view(self.subnet_cidr),
            subnet_gateway: opt_view(self.subnet_gateway),
            dns_servers: self.dns_servers@.map_values(|t: String| t@),
        }
    }
}

/// A network field: nothing without a network.
pub open spec fn network_field(network: Option<JsonView>, key: Seq<char>) -> Option<Seq<char>> {
    match network {
        Some(n) => text_field_spec(n, key),
        None => None,
    }
}

/// What the task metadata document says of the task's network: cluster and
/// task are the plain names of their ARNs; the network fields come from
/// [`task_network`].
pub open spec fn ecs_network_spec(task: JsonView) -> EcsNetworkView {
    let network = task_network(task);
    EcsNetworkView {
        cluster: match text_field_spec(task, "Cluster"@) {
            Some(arn) => Some(last_segment(arn)),
            None => None,
        },
        task_id: match text_field_spec(task, "TaskARN"@) {
            Some(arn) => Some(last_segment(arn)),
            None => None,
        },
        family: text_field_spec(task, "Family"@),
        revision: text_field_spec(task, "Revision"@),
        launch_type: text_field_spec(task, "LaunchType"@),
        availability_zone: text_field_spec(task, "AvailabilityZone"@),
        network_mode: network_field(network, "NetworkMode"@),
        private_ipv4: match network {
            Some(n) => first_text_spec(n, "IPv4Addresses"@),
            None => None,
        },
        private_dns_name: network_field(network, "PrivateDNSName"@),
        mac_address: network_field(network, "MACAddress"@),
        subnet_cidr: network_field(network, "IPv4SubnetCIDRBlock"@),
        subnet_gateway: network_field(network, "SubnetGatewayIpv4Address"@),
        dns_servers: match network {
            Some(n) => text_items_spec(n, "DomainNameServers"@),
            None => Seq::empty(),
        },
    }
}

/// Reads the answer of the ECS task metadata endpoint,
/// `${ECS_CONTAINER_METADATA_URI_V4}/task`.
///
/// Best effort by design: a body that is not JSON gives `None`, and any field
/// the endpoint leaves out stays `None`. The network is the first one any
/// container reports; cluster and task are the plain names of their ARNs.
pub fn parse_ecs_task_metadata(raw: &str) -> (r: Option<EcsNetwork>)
    ensures
        match json_document(raw@) {
            None => r is None,
            Some(task) => r matches Some(e) && e@ == ecs_network_spec(task),
        },
        r is Some <==> json_valid(raw@),
{
    let task = match parse_json(raw) {
        Some(t) => t,
        None => {
            return None;
        },
    };
    let cluster = match text_field(&task, "Cluster") {
        Some(arn) => Some(last_segment_exec(&arn)),
        None => None,
    };
    let task_id = match text_field(&task, "TaskARN") {
        Some(arn) => Some(last_segment_exec(&arn)),
        None => None,
    };
    let network = first_network(&task);
    let (network_mode, private_ipv4, private_dns_name, mac_address, subnet_cidr, subnet_gateway, dns_servers) = match network {
        None => {
            let empty: Vec<String> = Vec::new();
            assert(empty@.map_values(|t: String| t@) =~= Seq::<Seq<char>>::empty());
            (None, None, None, None, None, None, empty)
        },
        Some(n) => {
            let ipv4 = match json_member(n, "IPv4Addresses") {
                Some(a) => match json_as_array(a) {
                    Some(items) => if items.len() > 0 {
                        json_as_str(&items[0])
                    } else {
                        None
                    },
                    None => None,
                },
                None => None,
            };
            (
                text_field(n, "NetworkMode"),
                ipv4,
                text_field(n, "PrivateDNSName"),
                text_field(n, "MACAddress"),
                text_field(n, "IPv4SubnetCIDRBlock"),
                text_field(n, "SubnetGatewayIpv4Address"),
                text_items(n, "DomainNameServers"),
            )
        },
    };
    let e = EcsNetwork {
        cluster,
        task_id,
        family: text_field(&task, "Family"),
        revision: text_field(&task, "Revision"),
        launch_type: text_field(&task, "LaunchType"),
        availability_zone: text_field(&task, "AvailabilityZone"),
        network_mode,
        private_ipv4,
        private_dns_name,
        mac_address,
        subnet_cidr,
        subnet_gateway,
        dns_servers,
    };
    Some(e)
}

/// One captured request, as owned data.
#[derive(Debug, Clone, Default)]
pub struct EchoRequest {
    pub method: String,
    pub uri: String,
    pub path: String,
    pub query_string: Option<String>,
    pub http_version: String,
    /// Header names and values in the order they arrived; names repeat when a
    /// header is sent more than once.
    pub headers: Vec<(String, String)>,
    pub body: Vec<u8>,
    /// Address of the peer socket (behind a load balancer, the balancer).
    pub peer: Option<String>,
    /// Address the connection landed on.
    pub local: Option<String>,
    pub received_at_unix_secs: i64,
    pub received_at_nanos: u32,
}

/// Largest body echoed back in full.
pub const MAX_ECHOED_BODY: usize = 65536;

// ---------------------------------------------------------------------------
// Keys with several values
// ---------------------------------------------------------------------------

/// Keys with their values, in order of first appearance; each key once.
pub type Groups = Seq<(Seq<char>, Seq<Seq<char>>)>;

/// Values grouped by key: each key once, its values in arrival order.
#[derive(Debug, Clone, PartialEq, Eq)]
pub struct MultiMap {
    entries: Vec<(String, Vec<String>)>,
}

pub open spec fn strings_view(v: Seq<String>) -> Seq<Seq<char>> {
    v.map_values(|s: String| s@)
}

impl View for MultiMap {
    type V = Groups;

    closed spec fn view(&self) -> Groups {
        self.entries@.map_values(|e: (String, Vec<String>)| (e.0@, strings_view(e.1@)))
    }
}

/// The index of `key` in `g`, or the length.
pub open spec fn group_find(g: Groups, key: Seq<char>, i: int) -> int
    decreases g.len() - i,
{
    if i < 0 || i >= g.len() {
        g.len() as int
    } else if g[i].0 == key {
        i
    } else {
        group_find(g, key, i + 1)
    }
}

/// `g` with `value` appended to the values of `key`.
pub open spec fn group_add(g: Groups, key: Seq<char>, value: Seq<char>) -> Groups {
    let k = group_find(g, key, 0);
    if 0 <= k < g.len() {
        g.update(k, (key, g[k].1.push(value)))
    } else {
        g.push((key, seq![value]))
    }
}

/// The values of `key`.
pub open spec fn group_get(g: Groups, key: Seq<char>) -> Option<Seq<Seq<char>>> {
    let k = group_find(g, key, 0);
    if 0 <= k < g.len() {
        Some(g[k].1)
    } else {
        None
    }
}

proof fn lemma_group_find(g: Groups, key: Seq<char>, i: int)
    requires
        0 <= i <= g.len(),
    ensures
        i <= group_find(g, key, i) <= g.len(),
        group_find(g, key, i) < g.len() ==> g[group_find(g, key, i)].0 == key,
    decreases g.len() - i,
{
    if i < g.len() && g[i].0 != key {
        lemma_group_find(g, key, i + 1);
    }
}

impl MultiMap {
    pub fn new() -> (r: Self)
        ensures
            r@ == Seq::<(Seq<char>, Seq<Seq<char>>)>::empty(),
    {
        let r = MultiMap { entries: Vec::new() };
        assert(r@ =~= Seq::<(Seq<char>, Seq<Seq<char>>)>::empty());
        r
    }

    fn position(&self, key: &[char]) -> (r: usize)
        ensures
            r == group_find(self@, key@, 0),
    {
        proof {
            lemma_group_find(self@, key@, 0);
        }
        let mut i: usize = 0;
        while i < self.entries.len()
            invariant
                i <= self.entries@.len(),
                group_find(self@, key@, 0) == group_find(self@, key@, i as int),
            decreases self.entries@.len() - i,
        {
            assert(self@[i as int].0 == self.entries@[i as int].0@);
            if crate::text::eq_str(key, self.entries[i].0.as_str()) {
                return i;
            }
            i = i + 1;
        }
        i
    }

    /// Appends `value` to the values of `key`.
    pub fn add(&mut self, key: String, value: String)
        ensures
            final(self)@ == group_add(old(self)@, key@, value@),
    {
        let kc = to_chars(key.as_str());
        let k = self.position(&kc);
        let ghost before = self@;
        if k < self.entries.len() {
            proof {
                lemma_group_find(before, key@, 0);
            }
            let mut entries = Vec::new();
            std::mem::swap(&mut entries, &mut self.entries);
            let (name, mut values) = entries.remove(k);
            let ghost vs = strings_view(values@);
            values.push(value);
            assert(strings_view(values@) =~= vs.push(value@));
            entries.insert(k, (name, values));
            self.entries = entries;
            assert(self@ =~= group_add(before, key@, value@));
        } else {
            let mut values: Vec<String> = Vec::new();
            values.push(value);
            assert(strings_view(values@) =~= seq![value@]);
            self.entries.push((key, values));
            assert(self@ =~= group_add(before, key@, value@));
        }
    }

    /// The values of `key`, in arrival order.
    pub fn get(&self, key: &str) -> (r: Option<&Vec<String>>)
        ensures
            match group_get(self@, key@) {
                Some(vs) => r matches Some(v) && strings_view(v@) == vs,
                None => r is None,
            },
    {
        let kc = to_chars(key);
        let k = self.position(&kc);
        if k < self.entries.len() {
            Some(&self.entries[k].1)
        } else {
            None
        }
    }

    /// Whether no key is present.
    pub fn is_empty(&self) -> (r: bool)
        ensures
            r == (self@.len() == 0),
    {
        self.entries.len() == 0
    }

    /// The keys and their values, in order of first appearance.
    pub fn entries(&self) -> (r: &Vec<(String, Vec<String>)>)
        ensures
            r@.map_values(|e: (String, Vec<String>)| (e.0@, strings_view(e.1@))) == self@,
    {
        &self.entries
    }
}

/// The first value of `key`, if any.
pub open spec fn first_value(g: Groups, key: Seq<char>) -> Option<Seq<char>> {
    match group_get(g, key) {
        Some(vs) => if vs.len() > 0 {
            Some(vs[0])
        } else {
            None
        },
        None => None,
    }
}

fn first_header(grouped: &MultiMap, name: &str) -> (r: Option<String>)
    ensures
        match first_value(grouped@, name@) {
            Some(v) => r matches Some(s) && s@ == v,
            None => r is None,
        },
{
    match grouped.get(name) {
        Some(values) => {
            if values.len() > 0 {
                assert(strings_view(values@)[0] == values@[0]@);
                Some(values[0].clone())
            } else {
                None
            }
        },
        None => None,
    }
}

// ---------------------------------------------------------------------------
// Percent decoding
// ---------------------------------------------------------------------------

/// The value of an ASCII hex digit.
pub open spec fn hex_value(b: u8) -> Option<u8> {
    if 48 <= b <= 57 {
        Some((b - 48) as u8)
    } else if 97 <= b <= 102 {
        Some((b - 97 + 10) as u8)
    } else if 65 <= b <= 70 {
        Some((b - 65 + 10) as u8)
    } else {
        None
    }
}

fn hex_digit(b: u8) -> (r: Option<u8>)
    ensures
        r == hex_value(b),
{
    if 48 <= b && b <= 57 {
        Some(b - 48)
    } else if 97 <= b && b <= 102 {
        Some(b - 97 + 10)
    } else if 65 <= b && b <= 70 {
        Some(b - 65 + 10)
    } else {
        None
    }
}

/// The bytes `%XX` escapes and `+` decode to, from index `i` on. A `%` not
/// followed by two hex digits stays as written.
pub open spec fn decode_from(bs: Seq<u8>, i: int) -> Seq<u8>
    decreases bs.len() - i,
{
    if i < 0 || i >= bs.len() {
        seq![]
    } else if bs[i] == 43 {
        seq![32u8] + decode_from(bs, i + 1)
    } else if bs[i] == 37 && i + 2 < bs.len() && hex_value(bs[i + 1]) is Some && hex_value(
        bs[i + 2],
    ) is Some {
        seq![(hex_value(bs[i + 1]).unwrap() * 16 + hex_value(bs[i + 2]).unwrap()) as u8]
            + decode_from(bs, i + 3)
    } else {
        seq![bs[i]] + decode_from(bs, i + 1)
    }
}

/// What `String::from_utf8_lossy` makes of `bytes`.
pub uninterp spec fn utf8_lossy(bytes: Seq<u8>) -> Seq<char>;

/// `String::from_utf8_lossy`: the text the bytes encode, each sequence that is
/// not UTF-8 replaced by U+FFFD. The decoding is named; on valid UTF-8 it is
/// the text the bytes encode, as the documentation says.
#[verifier::external_body]
fn from_utf8_lossy(bytes: &[u8]) -> (r: String)
    ensures
        r@ == utf8_lossy(bytes@),
        vstd::utf8::valid_utf8(bytes@) ==> r@ == vstd::utf8::decode_utf8(bytes@),
{
    String::from_utf8_lossy(bytes).into_owned()
}

/// The text `raw` decodes to: `%XX` escapes and `+` as a space, then the
/// bytes read as UTF-8 with invalid sequences replaced.
pub open spec fn percent_decode_spec(raw: Seq<char>) -> Seq<char> {
    lossy_text(decode_from(encode_utf8(raw), 0))
}

/// The text `bytes` encode when they are UTF-8; otherwise what
/// `String::from_utf8_lossy` makes of them.
pub open spec fn lossy_text(bytes: Seq<u8>) -> Seq<char> {
    if vstd::utf8::valid_utf8(bytes) {
        vstd::utf8::decode_utf8(bytes)
    } else {
        utf8_lossy(bytes)
    }
}

/// Bytes with no `%` and no `+` decode to themselves.
proof fn lemma_decode_plain(bs: Seq<u8>, i: int)
    requires
        0 <= i <= bs.len(),
        forall|j: int| i <= j < bs.len() ==> bs[j] != 37 && bs[j] != 43,
    ensures
        decode_from(bs, i) == bs.skip(i),
    decreases bs.len() - i,
{
    if i < bs.len() {
        lemma_decode_plain(bs, i + 1);
        assert(seq![bs[i]] + bs.skip(i + 1) =~= bs.skip(i));
    } else {
        assert(bs.skip(i) =~= Seq::<u8>::empty());
    }
}

/// ASCII text encodes to its character codes, one byte each.
proof fn lemma_ascii_encode(raw: Seq<char>)
    requires
        forall|j: int| 0 <= j < raw.len() ==> (raw[j] as u32) < 128,
    ensures
        encode_utf8(raw) == Seq::new(raw.len(), |j: int| (raw[j] as u32) as u8),
    decreases raw.len(),
{
    if raw.len() > 0 {
        lemma_ascii_encode(raw.drop_first());
        let c = raw[0] as u32;
        assert(vstd::utf8::has_width_1_encoding(c));
        assert((c & 0x7F) as u8 == c as u8) by (bit_vector)
            requires
                c < 128,
        ;
        assert(encode_utf8(raw) =~= Seq::new(raw.len(), |j: int| (raw[j] as u32) as u8));
    }
}

/// ASCII text without `%` or `+` decodes to itself.
pub proof fn lemma_percent_decode_plain(raw: Seq<char>)
    requires
        forall|j: int| 0 <= j < raw.len() ==> (raw[j] as u32) < 128 && raw[j] != '%' && raw[j] != '+',
    ensures
        percent_decode_spec(raw) == raw,
{
    broadcast use vstd::utf8::encode_utf8_valid_utf8, vstd::utf8::encode_utf8_decode_utf8;

    lemma_ascii_encode(raw);
    let bs = encode_utf8(raw);
    assert forall|j: int| 0 <= j < bs.len() implies bs[j] != 37 && bs[j] != 43 by {
        let c = raw[j] as u32;
        assert(bs[j] == c as u8);
        assert('%' as u32 == 37 && '+' as u32 == 43);
        vstd::utf8::char_u32_cast(raw[j], c);
        vstd::utf8::char_u32_cast('%', 37);
        vstd::utf8::char_u32_cast('+', 43);
        if c == 37 {
            assert(raw[j] == '%');
        }
        if c == 43 {
            assert(raw[j] == '+');
        }
        assert(c < 128 && c != 37 && c != 43 ==> (c as u8) != 37u8 && (c as u8) != 43u8) by (bit_vector);
    }
    lemma_decode_plain(bs, 0);
    assert(bs.skip(0) =~= bs);
}

/// Decodes `%XX` escapes, and `+` as a space. Bytes that do not form valid
/// UTF-8 become the replacement character rather than an error.
pub fn percent_decode(raw: &str) -> (r: String)
    ensures
        r@ == percent_decode_spec(raw@),
{
    let bytes = raw.as_bytes();
    let ghost bs = bytes@;
    let mut out: Vec<u8> = Vec::new();
    let mut i: usize = 0;
    while i < bytes.len()
        invariant
            i <= bs.len(),
            bs == bytes@,
            bs == raw.spec_bytes(),
            out@ + decode_from(bs, i as int) == decode_from(bs, 0),
        decreases bs.len() - i,
    {
        let ghost prev = out@;
        let b = bytes[i];
        if b == 43 {
            out.push(32);
            assert(out@ + decode_from(bs, i + 1) =~= prev + decode_from(bs, i as int));
            i = i + 1;
        } else if b == 37 && bytes.len() - i > 2 {
            match (hex_digit(bytes[i + 1]), hex_digit(bytes[i + 2])) {
                (Some(h), Some(l)) => {
                    let v: u8 = h * 16 + l;
                    out.push(v);
                    assert(out@ + decode_from(bs, i + 3) =~= prev + decode_from(bs, i as int));
                    i = i + 3;
                },
                _ => {
                    out.push(37);
                    assert(out@ + decode_from(bs, i + 1) =~= prev + decode_from(bs, i as int));
                    i = i + 1;
                },
            }
        } else {
            out.push(b);
            assert(out@ + decode_from(bs, i + 1) =~= prev + decode_from(bs, i as int));
            i = i + 1;
        }
    }
    assert(out@ =~= decode_from(bs, 0));
    from_utf8_lossy(out.as_slice())
}

// ---------------------------------------------------------------------------
// Query strings, paths, headers
// ---------------------------------------------------------------------------

/// The key and value of one `key=value` pair; a pair without `=` has an
/// empty value.
pub open spec fn pair_parts(pair: Seq<char>) -> (Seq<char>, Seq<char>) {
    match find(pair, seq!['=']) {
        Some(k) => (pair.subrange(0, k), pair.subrange(k + 1, pair.len() as int)),
        None => (pair, seq![]),
    }
}

/// The decoded pairs of the first pieces of a query, grouped by key.
pub open spec fn query_groups(pairs: Seq<Seq<char>>) -> Groups
    decreases pairs.len(),
{
    if pairs.len() == 0 {
        seq![]
    } else {
        let g = query_groups(pairs.drop_last());
        let pair = pairs.last();
        if pair.len() == 0 {
            g
        } else {
            group_add(
                g,
                percent_decode_spec(pair_parts(pair).0),
                percent_decode_spec(pair_parts(pair).1),
            )
        }
    }
}

/// A query string's decoded keys and values: a repeated key keeps all of its
/// values, and a key with no `=` maps to an empty string.
pub open spec fn parse_query_spec(query: Seq<char>) -> Groups {
    query_groups(split(query, '&'))
}

/// Parses a query string into decoded keys and values. A repeated key keeps
/// all of its values, and a key with no `=` maps to an empty string.
pub fn parse_query(query: &str) -> (r: MultiMap)
    ensures
        r@ == parse_query_spec(query@),
{
    let chars = to_chars(query);
    let pairs = split_on(&chars, '&');
    let ghost pv = split(query@, '&');
    let mut parsed = MultiMap::new();
    let mut i: usize = 0;
    assert(pv.take(0) =~= seq![]);
    while i < pairs.len()
        invariant
            i <= pairs@.len(),
            pairs@.len() == pv.len(),
            pv == split(query@, '&'),
            forall|k: int| 0 <= k < pairs@.len() ==> #[trigger] pairs@[k]@ == pv[k],
            parsed@ == query_groups(pv.take(i as int)),
        decreases pairs@.len() - i,
    {
        assert(pv.take(i + 1).drop_last() =~= pv.take(i as int));
        assert(pairs@[i as int]@ == pv[i as int]);
        let pair = &pairs[i];
        if pair.len() > 0 {
            let eq = to_chars("=");
            proof {
                reveal_strlit("=");
                assert(eq@ =~= seq!['=']);
            }
            let (key, value): (Vec<char>, Vec<char>) = match find_chars(pair, &eq) {
                Some(k) => {
                    let mut a: Vec<char> = Vec::new();
                    let mut b: Vec<char> = Vec::new();
                    extend_chars(&mut a, &pair[0..k]);
                    extend_chars(&mut b, &pair[k + 1..pair.len()]);
                    (a, b)
                },
                None => {
                    let mut a: Vec<char> = Vec::new();
                    extend_chars(&mut a, pair);
                    (a, Vec::new())
                },
            };
            assert(key@ == pair_parts(pair@).0 && value@ == pair_parts(pair@).1);
            let ks = from_chars(&key);
            let vs = from_chars(&value);
            parsed.add(percent_decode(ks.as_str()), percent_decode(vs.as_str()));
        }
        i = i + 1;
    }
    assert(pv.take(pv.len() as int) =~= pv);
    parsed
}

/// The non-empty pieces of `pieces`, each decoded.
pub open spec fn decoded_nonempty(pieces: Seq<Seq<char>>) -> Seq<Seq<char>>
    decreases pieces.len(),
{
    if pieces.len() == 0 {
        seq![]
    } else {
        decoded_nonempty(pieces.drop_last()) + if pieces.last().len() > 0 {
            seq![percent_decode_spec(pieces.last())]
        } else {
            seq![]
        }
    }
}

/// Splits a path into its non-empty segments, each decoded.
pub fn path_segments(path: &str) -> (r: Vec<String>)
    ensures
        strings_view(r@) == decoded_nonempty(split(path@, '/')),
{
    let chars = to_chars(path);
    let pieces = split_on(&chars, '/');
    let ghost pv = split(path@, '/');
    let mut out: Vec<String> = Vec::new();
    let mut i: usize = 0;
    assert(pv.take(0) =~= seq![]);
    while i < pieces.len()
        invariant
            i <= pieces@.len(),
            pieces@.len() == pv.len(),
            forall|k: int| 0 <= k < pieces@.len() ==> #[trigger] pieces@[k]@ == pv[k],
            strings_view(out@) == decoded_nonempty(pv.take(i as int)),
        decreases pieces@.len() - i,
    {
        assert(pv.take(i + 1).drop_last() =~= pv.take(i as int));
        assert(pieces@[i as int]@ == pv[i as int]);
        let ghost prev = strings_view(out@);
        if pieces[i].len() > 0 {
            let seg = from_chars(&pieces[i]);
            let d = percent_decode(seg.as_str());
            out.push(d);
            assert(strings_view(out@) =~= prev.push(percent_decode_spec(pv[i as int])));
        }
        i = i + 1;
    }
    assert(pv.take(pv.len() as int) =~= pv);
    out
}

/// Headers grouped by ASCII-lowercased name, every value kept in arrival
/// order.
pub open spec fn header_groups(headers: Seq<(String, String)>) -> Groups
    decreases headers.len(),
{
    if headers.len() == 0 {
        seq![]
    } else {
        group_add(
            header_groups(headers.drop_last()),
            ascii_lower_seq(headers.last().0@),
            headers.last().1@,
        )
    }
}

fn lowered(s: &str) -> (r: String)
    ensures
        r@ == ascii_lower_seq(s@),
{
    let chars = to_chars(s);
    let mut out: Vec<char> = Vec::new();
    let mut i: usize = 0;
    while i < chars.len()
        invariant
            i <= chars@.len(),
            out@ == ascii_lower_seq(chars@.take(i as int)),
        decreases chars@.len() - i,
    {
        out.push(to_lower(chars[i]));
        assert(ascii_lower_seq(chars@.take(i + 1)) =~= ascii_lower_seq(chars@.take(i as int)).push(
            crate::text::ascii_lower(chars@[i as int]),
        ));
        i = i + 1;
    }
    assert(chars@.take(chars@.len() as int) =~= chars@);
    from_chars(&out)
}

/// Groups headers by lowercase name, keeping every value of a repeated header
/// in arrival order.
pub fn group_headers(headers: &[(String, String)]) -> (r: MultiMap)
    ensures
        r@ == header_groups(headers@),
{
    let mut grouped = MultiMap::new();
    let mut i: usize = 0;
    assert(headers@.take(0) =~= seq![]);
    while i < headers.len()
        invariant
            i <= headers@.len(),
            grouped@ == header_groups(headers@.take(i as int)),
        decreases headers@.len() - i,
    {
        assert(headers@.take(i + 1).drop_last() =~= headers@.take(i as int));
        let name = lowered(headers[i].0.as_str());
        grouped.add(name, headers[i].1.clone());
        i = i + 1;
    }
    assert(headers@.take(headers@.len() as int) =~= headers@);
    grouped
}

/// The trimmed, non-empty pieces.
pub open spec fn trimmed_nonempty(pieces: Seq<Seq<char>>) -> Seq<Seq<char>>
    decreases pieces.len(),
{
    if pieces.len() == 0 {
        seq![]
    } else {
        trimmed_nonempty(pieces.drop_last()) + if trim(pieces.last()).len() > 0 {
            seq![trim(pieces.last())]
        } else {
            seq![]
        }
    }
}

/// The hops of an `x-forwarded-for` chain, or nothing when it names none.
pub open spec fn forwarded_spec(raw: Option<Seq<char>>) -> Option<Seq<Seq<char>>> {
    match raw {
        None => None,
        Some(r) => if trimmed_nonempty(split(r, ',')).len() > 0 {
            Some(trimmed_nonempty(split(r, ',')))
        } else {
            None
        },
    }
}

pub open spec fn opt_string(o: Option<String>) -> Option<Seq<char>> {
    match o {
        Some(s) => Some(s@),
        None => None,
    }
}

/// Splits the comma-separated chain of `x-forwarded-for` into its hops.
pub fn split_forwarded_for(raw: &Option<String>) -> (r: Option<Vec<String>>)
    ensures
        match forwarded_spec(opt_string(*raw)) {
            Some(hops) => r matches Some(v) && strings_view(v@) == hops,
            None => r is None,
        },
{
    let raw = match raw {
        None => {
            return None;
        },
        Some(r) => r,
    };
    let chars = to_chars(raw.as_str());
    let pieces = split_on(&chars, ',');
    let ghost pv = split(raw@, ',');
    let mut hops: Vec<String> = Vec::new();
    let mut i: usize = 0;
    assert(pv.take(0) =~= seq![]);
    while i < pieces.len()
        invariant
            i <= pieces@.len(),
            pieces@.len() == pv.len(),
            forall|k: int| 0 <= k < pieces@.len() ==> #[trigger] pieces@[k]@ == pv[k],
            strings_view(hops@) == trimmed_nonempty(pv.take(i as int)),
        decreases pieces@.len() - i,
    {
        assert(pv.take(i + 1).drop_last() =~= pv.take(i as int));
        assert(pieces@[i as int]@ == pv[i as int]);
        let ghost prev = strings_view(hops@);
        let t = trim_chars(&pieces[i]);
        if t.len() > 0 {
            hops.push(from_chars(t));
            assert(strings_view(hops@) =~= prev.push(trim(pv[i as int])));
        }
        i = i + 1;
    }
    assert(pv.take(pv.len() as int) =~= pv);
    if hops.len() > 0 {
        Some(hops)
    } else {
        None
    }
}

// ---------------------------------------------------------------------------
// Addresses
// ---------------------------------------------------------------------------

/// What `str::parse::<u16>` gives.
pub open spec fn parse_u16_spec(s: Seq<char>) -> Option<u16> {
    match parse_u64_spec(s) {
        Some(v) => if v <= 65535 {
            Some(v as u16)
        } else {
            None
        },
        None => None,
    }
}

pub(crate) fn parse_u16(s: &[char]) -> (r: Option<u16>)
    ensures
        r == parse_u16_spec(s@),
{
    match parse_u64(s) {
        Some(v) => if v <= 65535 {
            Some(v as u16)
        } else {
            None
        },
        None => None,
    }
}

/// How many times `c` occurs in `s`.
pub open spec fn count_char(s: Seq<char>, c: char) -> nat
    decreases s.len(),
{
    if s.len() == 0 {
        0
    } else {
        count_char(s.drop_last(), c) + if s.last() == c {
            1nat
        } else {
            0nat
        }
    }
}

/// The host and port of `host:port`, the bracketed IPv6 form
/// `[::1]:8080` included; a bare IPv6 address (more than one colon, no
/// brackets) has no port.
pub open spec fn host_port_spec(a: Seq<char>) -> (Seq<char>, Option<u16>) {
    let rest = a.subrange(1, a.len() as int);
    if a.len() > 0 && a[0] == '[' && find(rest, seq![']']) is Some {
        let k = find(rest, seq![']']).unwrap();
        let tail = rest.subrange(k + 1, rest.len() as int);
        (
            rest.subrange(0, k),
            if tail.len() > 0 && tail[0] == ':' {
                parse_u16_spec(tail.subrange(1, tail.len() as int))
            } else {
                None
            },
        )
    } else if count_char(a, ':') > 1 {
        (a, None)
    } else {
        let k = crate::dev::last_index(a, ':');
        if k >= 0 && parse_u16_spec(a.subrange(k + 1, a.len() as int)) is Some {
            (a.subrange(0, k), parse_u16_spec(a.subrange(k + 1, a.len() as int)))
        } else {
            (a, None)
        }
    }
}

fn colons(s: &[char]) -> (r: usize)
    ensures
        r == count_char(s@, ':'),
{
    let mut n: usize = 0;
    let mut i: usize = 0;
    while i < s.len()
        invariant
            i <= s@.len(),
            n == count_char(s@.take(i as int), ':'),
            n <= i,
        decreases s@.len() - i,
    {
        assert(s@.take(i + 1).drop_last() =~= s@.take(i as int));
        if s[i] == ':' {
            n = n + 1;
        }
        i = i + 1;
    }
    assert(s@.take(s@.len() as int) =~= s@);
    n
}

fn last_colon(s: &[char]) -> (r: Option<usize>)
    ensures
        match r {
            Some(k) => crate::dev::last_index(s@, ':') == k && k < s@.len(),
            None => crate::dev::last_index(s@, ':') < 0,
        },
{
    let mut i = s.len();
    assert(s@.take(s@.len() as int) =~= s@);
    while i > 0
        invariant
            i <= s@.len(),
            crate::dev::last_index(s@, ':') == crate::dev::last_index(s@.take(i as int), ':'),
        decreases i,
    {
        assert(s@.take(i as int).drop_last() =~= s@.take(i - 1));
        if s[i - 1] == ':' {
            return Some(i - 1);
        }
        i = i - 1;
    }
    None
}

/// Splits `host:port` into its parts. Handles the bracketed form that IPv6
/// socket addresses are written in, `[::1]:8080`.
pub fn split_host_port(address: &str) -> (r: (String, Option<u16>))
    ensures
        r.0@ == host_port_spec(address@).0,
        r.1 == host_port_spec(address@).1,
{
    let a = to_chars(address);
    if a.len() > 0 && a[0] == '[' {
        let rest = &a[1..a.len()];
        assert(rest@ =~= a@.subrange(1, a@.len() as int));
        let close = to_chars("]");
        proof {
            reveal_strlit("]");
            assert(close@ =~= seq![']']);
        }
        match find_chars(rest, &close) {
            Some(k) => {
                let host = from_chars(&rest[0..k]);
                let tail = &rest[k + 1..rest.len()];
                assert(tail@ =~= rest@.subrange(k + 1, rest@.len() as int));
                let port = if tail.len() > 0 && tail[0] == ':' {
                    let p = &tail[1..tail.len()];
                    assert(p@ =~= tail@.subrange(1, tail@.len() as int));
                    parse_u16(p)
                } else {
                    None
                };
                return (host, port);
            },
            None => {},
        }
    }
    if colons(&a) > 1 {
        return (from_chars(&a), None);
    }
    match last_colon(&a) {
        Some(k) => {
            let p = &a[k + 1..a.len()];
            assert(p@ =~= a@.subrange(k + 1, a@.len() as int));
            match parse_u16(p) {
                Some(port) => (from_chars(&a[0..k]), Some(port)),
                None => (from_chars(&a), None),
            }
        },
        None => (from_chars(&a), None),
    }
}

/// The address to treat as the caller: the first hop of `x-forwarded-for`
/// when a proxy set it, and otherwise the peer socket's host.
pub open spec fn client_ip_spec(peer: Option<Seq<char>>, forwarded: Option<Seq<Seq<char>>>) -> Option<Seq<char>> {
    match forwarded {
        Some(hops) if hops.len() > 0 => Some(hops[0]),
        _ => match peer {
            Some(p) => Some(host_port_spec(p).0),
            None => None,
        },
    }
}

/// The address to treat as the caller: the first hop of `x-forwarded-for`
/// when a proxy set it, and otherwise the peer socket.
pub fn client_ip(peer: Option<&str>, forwarded_for: Option<&[String]>) -> (r: Option<String>)
    ensures
        opt_string(r) == client_ip_spec(
            match peer {
                Some(p) => Some(p@),
                None => None,
            },
            match forwarded_for {
                Some(f) => Some(strings_view(f@)),
                None => None,
            },
        ),
{
    match forwarded_for {
        Some(hops) => {
            if hops.len() > 0 {
                assert(strings_view(hops@)[0] == hops@[0]@);
                return Some(hops[0].clone());
            }
        },
        None => {},
    }
    match peer {
        Some(p) => Some(split_host_port(p).0),
        None => None,
    }
}

/// The host part of a `Host` header: what precedes the first `:`.
pub open spec fn bare_host(host: Seq<char>) -> Seq<char> {
    split(host, ':')[0]
}

/// Compares a `Host` header against a configured name, ignoring ASCII case
/// and any `:port` suffix the client may have sent.
pub fn host_matches_name(host: &str, name: &str) -> (r: bool)
    ensures
        r == (ascii_lower_seq(bare_host(host@)) == ascii_lower_seq(trim(name@))),
{
    let h = to_chars(host);
    let parts = split_on(&h, ':');
    proof {
        assert(split(host@, ':').len() > 0) by {
            reveal_with_fuel(crate::text::split_from, 2);
        }
    }
    let bare = lowered_chars(&parts[0]);
    let n = to_chars(name);
    let t = lowered_chars(trim_chars(&n));
    eq_chars(&bare, &t)
}

fn lowered_chars(s: &[char]) -> (r: Vec<char>)
    ensures
        r@ == ascii_lower_seq(s@),
{
    let mut out: Vec<char> = Vec::new();
    let mut i: usize = 0;
    while i < s.len()
        invariant
            i <= s@.len(),
            out@ == ascii_lower_seq(s@.take(i as int)),
        decreases s@.len() - i,
    {
        out.push(to_lower(s[i]));
        assert(ascii_lower_seq(s@.take(i + 1)) =~= ascii_lower_seq(s@.take(i as int)).push(
            crate::text::ascii_lower(s@[i as int]),
        ));
        i = i + 1;
    }
    assert(s@.take(s@.len() as int) =~= s@);
    out
}

// ---------------------------------------------------------------------------
// Base64
// ---------------------------------------------------------------------------

/// The standard base64 alphabet.
pub open spec fn b64_char(i: nat) -> char {
    if i < 26 {
        (65 + i) as char
    } else if i < 52 {
        (97 + i - 26) as char
    } else if i < 62 {
        (48 + i - 52) as char
    } else if i == 62 {
        '+'
    } else {
        '/'
    }
}

/// One group of one to three bytes, as four characters with `=` padding.
pub open spec fn b64_group(c: Seq<u8>) -> Seq<char> {
    let b0 = c[0] as nat;
    let b1 = if c.len() > 1 { c[1] as nat } else { 0 };
    let b2 = if c.len() > 2 { c[2] as nat } else { 0 };
    seq![
        b64_char(b0 / 4),
        b64_char((b0 % 4) * 16 + b1 / 16),
        if c.len() > 1 { b64_char((b1 % 16) * 4 + b2 / 64) } else { '=' },
        if c.len() > 2 { b64_char(b2 % 64) } else { '=' },
    ]
}

/// Standard base64 with padding.
pub open spec fn base64_spec(bs: Seq<u8>) -> Seq<char>
    decreases bs.len(),
{
    if bs.len() == 0 {
        seq![]
    } else if bs.len() <= 3 {
        b64_group(bs)
    } else {
        b64_group(bs.take(3)) + base64_spec(bs.skip(3))
    }
}

fn b64_digit(i: u32) -> (r: char)
    requires
        i < 64,
    ensures
        r == b64_char(i as nat),
{
    if i < 26 {
        ((65 + i) as u8) as char
    } else if i < 52 {
        ((97 + i - 26) as u8) as char
    } else if i < 62 {
        ((48 + i - 52) as u8) as char
    } else if i == 62 {
        '+'
    } else {
        '/'
    }
}

/// Standard base64 with padding, for bodies that are not text.
pub fn base64_encode(bytes: &[u8]) -> (r: String)
    ensures
        r@ == base64_spec(bytes@),
{
    let mut out: Vec<char> = Vec::new();
    let mut i: usize = 0;
    assert(bytes@.skip(0) =~= bytes@);
    assert(out@ + base64_spec(bytes@) =~= base64_spec(bytes@));
    while i < bytes.len()
        invariant
            i <= bytes@.len(),
            out@ + base64_spec(bytes@.skip(i as int)) == base64_spec(bytes@),
        decreases bytes@.len() - i,
    {
        let ghost rest = bytes@.skip(i as int);
        let ghost prev = out@;
        let n = bytes.len() - i;
        let b0 = bytes[i] as u32;
        let b1: u32 = if n > 1 { bytes[i + 1] as u32 } else { 0 };
        let b2: u32 = if n > 2 { bytes[i + 2] as u32 } else { 0 };
        out.push(b64_digit(b0 / 4));
        out.push(b64_digit((b0 % 4) * 16 + b1 / 16));
        if n > 1 {
            out.push(b64_digit((b1 % 16) * 4 + b2 / 64));
        } else {
            out.push('=');
        }
        if n > 2 {
            out.push(b64_digit(b2 % 64));
        } else {
            out.push('=');
        }
        let ghost group = if rest.len() <= 3 { rest } else { rest.take(3) };
        assert(group[0] == bytes@[i as int]);
        assert(n > 1 ==> group[1] == bytes@[i + 1]);
        assert(n > 2 ==> group[2] == bytes@[i + 2]);
        assert(out@ =~= prev + b64_group(group));
        if n <= 3 {
            assert(bytes@.skip(bytes@.len() as int) =~= seq![]);
            i = bytes.len();
        } else {
            assert(rest.skip(3) =~= bytes@.skip(i + 3));
            i = i + 3;
        }
    }
    from_chars(&out)
}

/// `std::str::from_utf8`: the text the bytes encode, when they are UTF-8.
#[verifier::external_body]
fn utf8_text(bytes: &[u8]) -> (r: Option<String>)
    ensures
        r is Some <==> vstd::utf8::valid_utf8(bytes@),
        r matches Some(t) ==> t@ == vstd::utf8::decode_utf8(bytes@),
{
    std::str::from_utf8(bytes).ok().map(|t| t.to_owned())
}

/// How a request body is reported: nothing, its size only, the JSON it
/// holds, its text, or its bytes in base64.
#[derive(Debug, Clone, PartialEq, Eq)]
pub enum BodyContent {
    Empty,
    Omitted,
    Json(String),
    Text(String),
    Base64(String),
}

/// Chooses how to report a body from its bytes, never from a declared content
/// type: empty; over [`MAX_ECHOED_BODY`] bytes, by size only; UTF-8 that
/// `serde_json` accepts, as JSON; other UTF-8, as text; anything else, in
/// base64.
pub fn body_content(body: &[u8]) -> (r: BodyContent)
    ensures
        body@.len() == 0 ==> r == BodyContent::Empty,
        0 < body@.len() && body@.len() > MAX_ECHOED_BODY ==> r == BodyContent::Omitted,
        0 < body@.len() <= MAX_ECHOED_BODY && vstd::utf8::valid_utf8(body@) && json_valid(vstd::utf8::decode_utf8(body@))
            ==> (r matches BodyContent::Json(t) && t@ == vstd::utf8::decode_utf8(body@)),
        0 < body@.len() <= MAX_ECHOED_BODY && vstd::utf8::valid_utf8(body@) && !json_valid(vstd::utf8::decode_utf8(body@))
            ==> (r matches BodyContent::Text(t) && t@ == vstd::utf8::decode_utf8(body@)),
        0 < body@.len() <= MAX_ECHOED_BODY && !vstd::utf8::valid_utf8(body@) ==> (r matches BodyContent::Base64(t)
            && t@ == base64_spec(body@)),
{
    if body.len() == 0 {
        return BodyContent::Empty;
    }
    if body.len() > MAX_ECHOED_BODY {
        return BodyContent::Omitted;
    }
    match utf8_text(body) {
        Some(text) => if parse_json(text.as_str()).is_some() {
            BodyContent::Json(text)
        } else {
            BodyContent::Text(text)
        },
        None => BodyContent::Base64(base64_encode(body)),
    }
}

/// Whether the request arrived under the configured public name: unknown
/// without a configured name, false without a `Host` header.
pub fn public_name_match(public_name: Option<&str>, host: Option<&str>) -> (r: Option<bool>)
    ensures
        r == match (public_name, host) {
            (Some(name), Some(h)) => Some(ascii_lower_seq(bare_host(h@)) == ascii_lower_seq(trim(name@))),
            (Some(_), None) => Some(false),
            (None, _) => None,
        },
{
    match (public_name, host) {
        (Some(name), Some(h)) => Some(host_matches_name(h, name)),
        (Some(_), None) => Some(false),
        (None, _) => None,
    }
}

// ---------------------------------------------------------------------------
// Status
// ---------------------------------------------------------------------------

/// Query parameter that chooses the status code of the answer.
pub const STATUS_QUERY_KEY: &'static str = "status";

/// Status code answered when the request does not ask for another one.
pub const DEFAULT_ECHO_STATUS: u16 = 200;

/// Smallest status code a request may ask for.
pub const MIN_ECHO_STATUS: u16 = 200;

/// Largest status code a request may ask for.
pub const MAX_ECHO_STATUS: u16 = 599;

/// What the query string asked the status code of the answer to be.
#[derive(Debug, Clone, PartialEq, Eq)]
pub enum EchoStatus {
    /// No `status` parameter: the answer carries [`DEFAULT_ECHO_STATUS`].
    Default,
    /// A usable code, between [`MIN_ECHO_STATUS`] and [`MAX_ECHO_STATUS`].
    Requested(u16),
    /// A `status` parameter that is not a usable code; the answer falls back
    /// to the default and reports what arrived.
    Invalid(String),
}

impl EchoStatus {
    /// The status code to write.
    pub fn code(&self) -> (r: u16)
        ensures
            r == (match self {
                EchoStatus::Requested(c) => *c,
                _ => DEFAULT_ECHO_STATUS,
            }),
    {
        match self {
            EchoStatus::Requested(code) => *code,
            EchoStatus::Default | EchoStatus::Invalid(_) => DEFAULT_ECHO_STATUS,
        }
    }
}

/// The `status` value a query string carries first, if any.
pub open spec fn status_param(query: Option<Seq<char>>) -> Option<Seq<char>> {
    first_value(
        parse_query_spec(
            match query {
                Some(q) => q,
                None => seq![],
            },
        ),
        "status"@,
    )
}

/// Whether `st` is what the query string asks the status to be: the
/// default without a `status` parameter, the code when it is a whole number
/// in range, and otherwise the raw value as invalid.
pub open spec fn status_for(query: Option<Seq<char>>, st: EchoStatus) -> bool {
    match status_param(query) {
        None => st == EchoStatus::Default,
        Some(raw) => match parse_u16_spec(trim(raw)) {
            Some(c) => if MIN_ECHO_STATUS <= c <= MAX_ECHO_STATUS {
                st == EchoStatus::Requested(c)
            } else {
                st matches EchoStatus::Invalid(s) && s@ == raw
            },
            None => st matches EchoStatus::Invalid(s) && s@ == raw,
        },
    }
}

/// Reads the status code the query string asks for. A repeated `status`
/// keeps the first value; anything that is not a whole number in range is
/// [`EchoStatus::Invalid`].
pub fn echo_status(query: Option<&str>) -> (r: EchoStatus)
    ensures
        status_for(
            match query {
                Some(q) => Some(q@),
                None => None,
            },
            r,
        ),
{
    let q: &str = match query {
        Some(q) => q,
        None => "",
    };
    proof {
        reveal_strlit("");
    }
    let parsed = parse_query(q);
    assert(q@ == (match query {
        Some(q) => q@,
        None => seq![],
    }));
    let raw = match first_header(&parsed, STATUS_QUERY_KEY) {
        None => {
            return EchoStatus::Default;
        },
        Some(raw) => raw,
    };
    let chars = to_chars(raw.as_str());
    match parse_u16(trim_chars(&chars)) {
        Some(code) => {
            if MIN_ECHO_STATUS <= code && code <= MAX_ECHO_STATUS {
                EchoStatus::Requested(code)
            } else {
                EchoStatus::Invalid(raw)
            }
        },
        None => EchoStatus::Invalid(raw),
    }
}

// ---------------------------------------------------------------------------
// Access log
// ---------------------------------------------------------------------------

/// A Unicode control character (general category `Cc`).
pub open spec fn is_control(c: char) -> bool {
    c <= '\u{1f}' || ('\u{7f}' <= c && c <= '\u{9f}')
}

/// Whitespace and control characters as `_`.
pub open spec fn scrub(s: Seq<char>) -> Seq<char> {
    s.map_values(|c: char| if is_ws(c) || is_control(c) { '_' } else { c })
}

/// A log field: the trimmed value with whitespace and control characters
/// replaced, or `-` for what the request does not carry.
pub open spec fn field_spec(value: Option<Seq<char>>) -> Seq<char> {
    match value {
        None => "-"@,
        Some(v) => if scrub(trim(v)).len() == 0 {
            "-"@
        } else {
            scrub(trim(v))
        },
    }
}

fn push_field(out: &mut Vec<char>, value: Option<&String>)
    ensures
        final(out)@ == old(out)@ + field_spec(
            match value {
                Some(v) => Some(v@),
                None => None,
            },
        ),
{
    let ghost start = out@;
    match value {
        None => extend_str(out, "-"),
        Some(v) => {
            let chars = to_chars(v.as_str());
            let t = trim_chars(&chars);
            if t.len() == 0 {
                extend_str(out, "-");
                assert(scrub(t@).len() == 0);
            } else {
                let mut i: usize = 0;
                while i < t.len()
                    invariant
                        i <= t@.len(),
                        out@ == start + scrub(t@).take(i as int),
                    decreases t@.len() - i,
                {
                    let c = t[i];
                    let bad = crate::text::is_whitespace(c) || c <= '\u{1f}' || ('\u{7f}' <= c && c <= '\u{9f}');
                    out.push(if bad { '_' } else { c });
                    assert(scrub(t@).take(i + 1) =~= scrub(t@).take(i as int).push(scrub(t@)[i as int]));
                    i = i + 1;
                }
                assert(scrub(t@).take(t@.len() as int) =~= scrub(t@));
            }
        },
    }
}

/// The access log line of one served request.
pub open spec fn access_log_spec(request: EchoRequest, status: u16, duration_ms: u64) -> Seq<char> {
    let headers = header_groups(request.headers@);
    let forwarded = forwarded_spec(first_value(headers, "x-forwarded-for"@));
    let client = client_ip_spec(opt_string(request.peer), forwarded);
    field_spec(Some(request.method@)) + " "@ + field_spec(Some(request.uri@)) + " -> "@ + decimal(
        status as nat,
    ) + " client="@ + field_spec(client) + " peer="@ + field_spec(opt_string(request.peer))
        + " host="@ + field_spec(first_value(headers, "host"@)) + " bytes="@ + decimal(
        request.body@.len(),
    ) + " ms="@ + decimal(duration_ms as nat) + " trace="@ + field_spec(
        first_value(headers, "x-amzn-trace-id"@),
    )
}

/// Builds the log line for one served request: single line, `key=value`
/// past the first three fields.
pub fn access_log_line(request: &EchoRequest, status: u16, duration_ms: u64) -> (r: String)
    ensures
        r@ == access_log_spec(*request, status, duration_ms),
{
    let headers = group_headers(request.headers.as_slice());
    let fwd_raw = first_header(&headers, "x-forwarded-for");
    let forwarded = split_forwarded_for(&fwd_raw);
    let peer: Option<&str> = match &request.peer {
        Some(p) => Some(p.as_str()),
        None => None,
    };
    let client = match &forwarded {
        Some(v) => client_ip(peer, Some(v.as_slice())),
        None => client_ip(peer, None),
    };
    let host = first_header(&headers, "host");
    let trace = first_header(&headers, "x-amzn-trace-id");
    let mut out: Vec<char> = Vec::new();
    push_field(&mut out, Some(&request.method));
    extend_str(&mut out, " ");
    push_field(&mut out, Some(&request.uri));
    extend_str(&mut out, " -> ");
    push_decimal(&mut out, status as u64);
    extend_str(&mut out, " client=");
    push_field(&mut out, client.as_ref());
    extend_str(&mut out, " peer=");
    push_field(&mut out, request.peer.as_ref());
    extend_str(&mut out, " host=");
    push_field(&mut out, host.as_ref());
    extend_str(&mut out, " bytes=");
    push_decimal(&mut out, request.body.len() as u64);
    extend_str(&mut out, " ms=");
    push_decimal(&mut out, duration_ms);
    extend_str(&mut out, " trace=");
    push_field(&mut out, trace.as_ref());
    assert(out@ =~= access_log_spec(*request, status, duration_ms));
    from_chars(&out)
}

// ---------------------------------------------------------------------------
// Timestamps
// ---------------------------------------------------------------------------

/// Days since the Unix epoch as a proleptic Gregorian (year, month, day), by
/// Howard Hinnant's `civil_from_days`.
pub open spec fn civil_from_days_spec(days: int) -> (int, int, int) {
    let shifted = days + 719468;
    let era = shifted / 146097;
    let doe = shifted % 146097;
    let yoe = (doe - doe / 1460 + doe / 36524 - doe / 146096) / 365;
    let doy = doe - (365 * yoe + yoe / 4 - yoe / 100);
    let mp = (5 * doy + 2) / 153;
    let day = doy - (153 * mp + 2) / 5 + 1;
    let month = if mp < 10 { mp + 3 } else { mp - 9 };
    let year = yoe + era * 400;
    (if month <= 2 { year + 1 } else { year }, month, day)
}

/// A number written with at least `width` digits, zero-padded after any sign.
pub open spec fn padded_int(v: int, width: nat) -> Seq<char> {
    if v >= 0 {
        zero_pad(decimal(v as nat), width)
    } else {
        seq!['-'] + zero_pad(decimal((-v) as nat), (width - 1) as nat)
    }
}

/// A Unix timestamp as RFC 3339 in UTC, with milliseconds.
pub open spec fn rfc3339_spec(unix_secs: int, nanos: int) -> Seq<char> {
    let days = unix_secs / 86400;
    let sod = unix_secs % 86400;
    let (y, m, d) = civil_from_days_spec(days);
    padded_int(y, 4) + seq!['-'] + padded_int(m, 2) + seq!['-'] + padded_int(d, 2) + seq!['T'] + zero_pad(decimal((sod / 3600) as nat), 2) + seq![':'] + zero_pad(
        decimal(((sod % 3600) / 60) as nat),
        2,
    ) + seq![':'] + zero_pad(decimal((sod % 60) as nat), 2) + seq!['.'] + zero_pad(
        decimal((nanos / 1000000) as nat),
        3,
    ) + seq!['Z']
}

/// Floor division and the matching non-negative remainder.
fn floor_div_mod(x: i128, d: i128) -> (r: (i128, i128))
    requires
        d > 0,
        -1_000_000_000_000_000_000_000 <= x <= 1_000_000_000_000_000_000_000,
        d <= 1_000_000,
    ensures
        r.0 == x / d,
        r.1 == x % d,
{
    if x >= 0 {
        (x / d, x % d)
    } else {
        let n = -x;
        let q = (n + d - 1) / d;
        assert(q * d <= n + d - 1 && n + d - 1 < q * d + d) by (nonlinear_arith)
            requires
                q as int == (n + d - 1) as int / (d as int),
                d > 0,
                n > 0,
        ;
        let rem = x + q * d;
        assert(0 <= rem < d);
        assert(x == (-q) * d + rem) by (nonlinear_arith)
            requires
                rem == x + q * d,
        ;
        proof {
            vstd::arithmetic::div_mod::lemma_fundamental_div_mod_converse(x as int, d as int, -q as int, rem as int);
        }
        (-q, rem)
    }
}

/// The year of the era and the day of the year, for a day of a 400-year era.
#[verifier::spinoff_prover]
#[verifier::rlimit(60)]
fn year_of_era(doe: i128) -> (r: (i128, i128))
    requires
        0 <= doe < 146097,
    ensures
        r.0 == (doe - doe / 1460 + doe / 36524 - doe / 146096) / 365,
        r.1 == doe - (365 * r.0 + r.0 / 4 - r.0 / 100),
        0 <= r.0 <= 400,
        0 <= r.1 <= 365,
{
    let yoe = (doe - doe / 1460 + doe / 36524 - doe / 146096) / 365;
    let doy = doe - (365 * yoe + yoe / 4 - yoe / 100);
    assert(0 <= doy <= 365);
    (yoe, doy)
}

/// The month and day of a day of the year counted from March 1.
fn month_day(doy: i128) -> (r: (i128, i128))
    requires
        0 <= doy <= 365,
    ensures
        r.0 == (if (5 * doy + 2) / 153 < 10 { (5 * doy + 2) / 153 + 3 } else { (5 * doy + 2) / 153 - 9 }),
        r.1 == doy - (153 * ((5 * doy + 2) / 153) + 2) / 5 + 1,
{
    let mp = (5 * doy + 2) / 153;
    let day = doy - (153 * mp + 2) / 5 + 1;
    let month = if mp < 10 { mp + 3 } else { mp - 9 };
    (month, day)
}

fn civil_from_days(days: i128) -> (r: (i128, i128, i128))
    requires
        -200000000000000 <= days <= 200000000000000,
    ensures
        r.0 == civil_from_days_spec(days as int).0,
        r.1 == civil_from_days_spec(days as int).1,
        r.2 == civil_from_days_spec(days as int).2,
{
    let shifted = days + 719468;
    let (era, doe) = floor_div_mod(shifted, 146097);
    assert(-2000000000 <= era <= 2000000000);
    let (yoe, doy) = year_of_era(doe);
    let (month, day) = month_day(doy);
    let year = yoe + era * 400;
    let year = if month <= 2 { year + 1 } else { year };
    (year, month, day)
}

/// Appends `v`, zero-padded to `width` after any sign.
fn push_padded_int(out: &mut Vec<char>, v: i128, width: usize)
    requires
        -1_000_000_000_000_000_000 <= v <= 1_000_000_000_000_000_000,
        width >= 1,
    ensures
        final(out)@ == old(out)@ + padded_int(v as int, width as nat),
{
    if v >= 0 {
        push_padded(out, v as u64, width);
    } else {
        out.push('-');
        push_padded(out, (-v) as u64, width - 1);
        assert(out@ =~= old(out)@ + padded_int(v as int, width as nat));
    }
}

/// Formats a Unix timestamp as RFC 3339 in UTC, with milliseconds.
pub fn format_rfc3339_utc(unix_secs: i64, nanos: u32) -> (r: String)
    ensures
        r@ == rfc3339_spec(unix_secs as int, nanos as int),
{
    let (days, sod) = floor_div_mod(unix_secs as i128, 86400);
    assert(-200000000000000 <= days <= 200000000000000);
    let (year, month, day) = civil_from_days(days);
    assert(-1_000_000_000_000 <= year <= 1_000_000_000_000);
    let millis = nanos / 1000000;
    let mut out: Vec<char> = Vec::new();
    push_padded_int(&mut out, year, 4);
    out.push('-');
    push_padded_int(&mut out, month, 2);
    out.push('-');
    push_padded_int(&mut out, day, 2);
    out.push('T');
    push_padded(&mut out, (sod / 3600) as u64, 2);
    out.push(':');
    push_padded(&mut out, ((sod % 3600) / 60) as u64, 2);
    out.push(':');
    push_padded(&mut out, (sod % 60) as u64, 2);
    out.push('.');
    push_padded(&mut out, millis as u64, 3);
    out.push('Z');
    assert(out@ =~= rfc3339_spec(unix_secs as int, nanos as int));
    from_chars(&out)
}

// ---------------------------------------------------------------------------
// The answer
// ---------------------------------------------------------------------------

/// A string, or `null` for nothing.
pub open spec fn jopt(o: Option<Seq<char>>) -> JsonView {
    match o {
        Some(t) => JsonView::Text(t),
        None => JsonView::Null,
    }
}

/// A number, by its decimal text.
pub open spec fn jnum(n: nat) -> JsonView {
    JsonView::Number(decimal(n))
}

/// An array of strings.
pub open spec fn jstrings(v: Seq<Seq<char>>) -> JsonView {
    JsonView::Array(v.map_values(|t: Seq<char>| JsonView::Text(t)))
}

fn json_text(t: String) -> (r: JsonValue)
    ensures
        json_view(r) == JsonView::Text(t@),
{
    JsonValue::Text(t)
}

fn json_opt(o: Option<String>) -> (r: JsonValue)
    ensures
        json_view(r) == jopt(opt_view(o)),
{
    match o {
        Some(t) => JsonValue::Text(t),
        None => JsonValue::Null,
    }
}

fn json_number(n: u64) -> (r: JsonValue)
    ensures
        json_view(r) == jnum(n as nat),
{
    let mut out: Vec<char> = Vec::new();
    push_decimal(&mut out, n);
    assert(out@ =~= decimal(n as nat));
    JsonValue::Number(from_chars(&out))
}

fn json_strings(v: &Vec<String>) -> (r: JsonValue)
    ensures
        json_view(r) == jstrings(strings_view(v@)),
{
    let mut items: Vec<JsonValue> = Vec::new();
    let mut i: usize = 0;
    while i < v.len()
        invariant
            i <= v@.len(),
            items@.len() == i,
            forall|j: int| 0 <= j < i ==> json_view(#[trigger] items@[j]) == JsonView::Text(v@[j]@),
        decreases v@.len() - i,
    {
        items.push(JsonValue::Text(v[i].clone()));
        i = i + 1;
    }
    let r = JsonValue::Array(items);
    assert(json_view(r)->Array_0 =~= jstrings(strings_view(v@))->Array_0);
    r
}

/// An object of `(key, value)` entries, in order.
pub open spec fn jobject(entries: Seq<(Seq<char>, JsonView)>) -> JsonView {
    JsonView::Object(entries)
}

fn json_object(entries: Vec<(String, JsonValue)>) -> (r: JsonValue)
    ensures
        json_view(r) == JsonView::Object(entries@.map_values(|e: (String, JsonValue)| (e.0@, json_view(e.1)))),
{
    let r = JsonValue::Object(entries);
    assert(json_view(r)->Object_0 =~= entries@.map_values(|e: (String, JsonValue)| (e.0@, json_view(e.1))));
    r
}

/// A single value as a string, several as an array.
pub open spec fn one_or_many(values: Seq<Seq<char>>) -> JsonView {
    if values.len() == 1 {
        JsonView::Text(values[0])
    } else {
        jstrings(values)
    }
}

/// Grouped values as an object: each key with [`one_or_many`] of its values.
pub open spec fn groups_json(g: Groups) -> JsonView {
    JsonView::Object(g.map_values(|e: (Seq<char>, Seq<Seq<char>>)| (e.0, one_or_many(e.1))))
}

fn multimap_json(map: &MultiMap) -> (r: JsonValue)
    ensures
        json_view(r) == groups_json(map@),
{
    let entries = map.entries();
    let ghost g = map@;
    let mut out: Vec<(String, JsonValue)> = Vec::new();
    let mut i: usize = 0;
    while i < entries.len()
        invariant
            i <= entries@.len(),
            g == map@,
            g.len() == entries@.len(),
            forall|j: int| 0 <= j < g.len() ==> #[trigger] g[j] == (entries@[j].0@, strings_view(entries@[j].1@)),
            out@.len() == i,
            forall|j: int|
                0 <= j < i ==> (#[trigger] out@[j]).0@ == g[j].0 && json_view(out@[j].1) == one_or_many(g[j].1),
        decreases entries@.len() - i,
    {
        let values = &entries[i].1;
        let value = if values.len() == 1 {
            json_text(values[0].clone())
        } else {
            json_strings(values)
        };
        out.push((entries[i].0.clone(), value));
        i = i + 1;
    }
    let r = json_object(out);
    assert(json_view(r)->Object_0 =~= groups_json(g)->Object_0);
    r
}

/// What `status` must be, for a request that asked for something else.
pub open spec fn status_error() -> Seq<char> {
    "`status` must be a whole number between 200 and 599"@
}

/// The `response` part of the answer: the status written, where it came
/// from, what was asked for, and why a request was not honoured.
pub open spec fn status_json_spec(status: EchoStatus) -> JsonView {
    match status {
        EchoStatus::Default => jobject(
            seq![
                ("status"@, jnum(DEFAULT_ECHO_STATUS as nat)),
                ("source"@, JsonView::Text("default"@)),
                ("requested"@, JsonView::Null),
            ],
        ),
        EchoStatus::Requested(code) => jobject(
            seq![
                ("status"@, jnum(code as nat)),
                ("source"@, JsonView::Text("query"@)),
                ("requested"@, JsonView::Text(decimal(code as nat))),
            ],
        ),
        EchoStatus::Invalid(raw) => jobject(
            seq![
                ("status"@, jnum(DEFAULT_ECHO_STATUS as nat)),
                ("source"@, JsonView::Text("default"@)),
                ("requested"@, JsonView::Text(raw@)),
                ("error"@, JsonView::Text(status_error())),
            ],
        ),
    }
}

fn key(k: &str) -> (r: String)
    ensures
        r@ == k@,
{
    k.to_owned()
}

pub fn status_json(status: &EchoStatus) -> (r: JsonValue)
    ensures
        json_view(r) == status_json_spec(*status),
{
    let entries = match status {
        EchoStatus::Default => vec![
            (key("status"), json_number(DEFAULT_ECHO_STATUS as u64)),
            (key("source"), json_text(key("default"))),
            (key("requested"), JsonValue::Null),
        ],
        EchoStatus::Requested(code) => {
            let mut digits: Vec<char> = Vec::new();
            push_decimal(&mut digits, *code as u64);
            vec![
                (key("status"), json_number(*code as u64)),
                (key("source"), json_text(key("query"))),
                (key("requested"), json_text(from_chars(&digits))),
            ]
        },
        EchoStatus::Invalid(raw) => vec![
            (key("status"), json_number(DEFAULT_ECHO_STATUS as u64)),
            (key("source"), json_text(key("default"))),
            (key("requested"), json_text(raw.clone())),
            (key("error"), json_text(key("`status` must be a whole number between 200 and 599"))),
        ],
    };
    let r = json_object(entries);
    assert(json_view(r)->Object_0 =~= status_json_spec(*status)->Object_0);
    r
}

/// A socket address split into its parts, or `null`.
pub open spec fn socket_json_spec(address: Option<Seq<char>>) -> JsonView {
    match address {
        None => JsonView::Null,
        Some(a) => jobject(
            seq![
                ("address"@, JsonView::Text(host_port_spec(a).0)),
                ("port"@, match host_port_spec(a).1 {
                    Some(p) => jnum(p as nat),
                    None => JsonView::Null,
                }),
                ("socket"@, JsonView::Text(a)),
            ],
        ),
    }
}

fn socket_json(address: Option<&String>) -> (r: JsonValue)
    ensures
        json_view(r) == socket_json_spec(
            match address {
                Some(a) => Some(a@),
                None => None,
            },
        ),
{
    match address {
        None => JsonValue::Null,
        Some(a) => {
            let (host, port) = split_host_port(a.as_str());
            let port_json = match port {
                Some(p) => json_number(p as u64),
                None => JsonValue::Null,
            };
            let r = json_object(
                vec![(key("address"), json_text(host)), (key("port"), port_json), (key("socket"), json_text(a.clone()))],
            );
            assert(json_view(r)->Object_0 =~= socket_json_spec(Some(a@))->Object_0);
            r
        },
    }
}

/// The task's network, field by field.
pub open spec fn ecs_json_spec(e: EcsNetworkView) -> JsonView {
    jobject(
        seq![
            ("cluster"@, jopt(e.cluster)),
            ("task_id"@, jopt(e.task_id)),
            ("family"@, jopt(e.family)),
            ("revision"@, jopt(e.revision)),
            ("launch_type"@, jopt(e.launch_type)),
            ("availability_zone"@, jopt(e.availability_zone)),
            ("network_mode"@, jopt(e.network_mode)),
            ("private_ipv4"@, jopt(e.private_ipv4)),
            ("private_dns_name"@, jopt(e.private_dns_name)),
            ("mac_address"@, jopt(e.mac_address)),
            ("subnet_cidr"@, jopt(e.subnet_cidr)),
            ("subnet_gateway"@, jopt(e.subnet_gateway)),
            ("dns_servers"@, jstrings(e.dns_servers)),
        ],
    )
}

fn ecs_json(e: &EcsNetwork) -> (r: JsonValue)
    ensures
        json_view(r) == ecs_json_spec(e@),
{
    let r = json_object(
        vec![
            (key("cluster"), json_opt(e.cluster.clone())),
            (key("task_id"), json_opt(e.task_id.clone())),
            (key("family"), json_opt(e.family.clone())),
            (key("revision"), json_opt(e.revision.clone())),
            (key("launch_type"), json_opt(e.launch_type.clone())),
            (key("availability_zone"), json_opt(e.availability_zone.clone())),
            (key("network_mode"), json_opt(e.network_mode.clone())),
            (key("private_ipv4"), json_opt(e.private_ipv4.clone())),
            (key("private_dns_name"), json_opt(e.private_dns_name.clone())),
            (key("mac_address"), json_opt(e.mac_address.clone())),
            (key("subnet_cidr"), json_opt(e.subnet_cidr.clone())),
            (key("subnet_gateway"), json_opt(e.subnet_gateway.clone())),
            (key("dns_servers"), json_strings(&e.dns_servers)),
        ],
    );
    assert(json_view(r)->Object_0 =~= ecs_json_spec(e@)->Object_0);
    r
}

/// The optional `ecs` part: the task's network, or `null` outside ECS.
pub open spec fn ecs_opt_spec(e: Option<EcsNetwork>) -> JsonView {
    match e {
        Some(n) => ecs_json_spec(n@),
        None => JsonView::Null,
    }
}

/// Where the request came from, and where it landed: the local and peer
/// sockets, the caller, the forwarding headers, and the task's network.
pub open spec fn network_json_spec(server: EchoServer, request: EchoRequest, g: Groups) -> JsonView {
    let forwarded = forwarded_spec(first_value(g, "x-forwarded-for"@));
    jobject(
        seq![
            ("local"@, socket_json_spec(opt_string(request.local))),
            ("peer"@, socket_json_spec(opt_string(request.peer))),
            ("client_ip"@, jopt(client_ip_spec(opt_string(request.peer), forwarded))),
            ("forwarded_for"@, match forwarded {
                Some(hops) => jstrings(hops),
                None => JsonView::Null,
            }),
            ("forwarded_proto"@, jopt(first_value(g, "x-forwarded-proto"@))),
            ("forwarded_port"@, jopt(first_value(g, "x-forwarded-port"@))),
            ("ecs"@, ecs_opt_spec(server.ecs)),
        ],
    )
}

fn network_json(server: &EchoServer, request: &EchoRequest, headers: &MultiMap) -> (r: JsonValue)
    ensures
        json_view(r) == network_json_spec(*server, *request, headers@),
{
    let raw_forwarded = first_header(headers, "x-forwarded-for");
    let forwarded = split_forwarded_for(&raw_forwarded);
    let peer: Option<&str> = match &request.peer {
        Some(p) => Some(p.as_str()),
        None => None,
    };
    let ip = match &forwarded {
        Some(hops) => client_ip(peer, Some(hops.as_slice())),
        None => client_ip(peer, None),
    };
    let forwarded_json = match &forwarded {
        Some(hops) => json_strings(hops),
        None => JsonValue::Null,
    };
    let ecs = match &server.ecs {
        Some(e) => ecs_json(e),
        None => JsonValue::Null,
    };
    let r = json_object(
        vec![
            (key("local"), socket_json(request.local.as_ref())),
            (key("peer"), socket_json(request.peer.as_ref())),
            (key("client_ip"), json_opt(ip)),
            (key("forwarded_for"), forwarded_json),
            (key("forwarded_proto"), json_opt(first_header(headers, "x-forwarded-proto"))),
            (key("forwarded_port"), json_opt(first_header(headers, "x-forwarded-port"))),
            (key("ecs"), ecs),
        ],
    );
    assert(json_view(r)->Object_0 =~= network_json_spec(*server, *request, headers@)->Object_0);
    r
}

/// Whether the request arrived under the configured public name, as JSON.
pub open spec fn name_match_spec(public_name: Option<Seq<char>>, host: Option<Seq<char>>) -> JsonView {
    match (public_name, host) {
        (Some(name), Some(h)) => JsonView::Bool(ascii_lower_seq(bare_host(h)) == ascii_lower_seq(trim(name))),
        (Some(_), None) => JsonView::Bool(false),
        (None, _) => JsonView::Null,
    }
}

/// The server's own identity, plus whether the request arrived under the
/// name it was configured with.
pub open spec fn server_json_spec(server: EchoServer, host: Option<Seq<char>>) -> JsonView {
    jobject(
        seq![
            ("public_name"@, jopt(opt_string(server.public_name))),
            ("matched_public_name"@, name_match_spec(opt_string(server.public_name), host)),
            ("port"@, jnum(server.port as nat)),
            ("hostname"@, jopt(opt_string(server.hostname))),
        ],
    )
}

fn server_json(server: &EchoServer, host: &Option<String>) -> (r: JsonValue)
    ensures
        json_view(r) == server_json_spec(*server, opt_string(*host)),
{
    let name: Option<&str> = match &server.public_name {
        Some(n) => Some(n.as_str()),
        None => None,
    };
    let h: Option<&str> = match host {
        Some(t) => Some(t.as_str()),
        None => None,
    };
    let matched = match public_name_match(name, h) {
        Some(b) => JsonValue::Bool(b),
        None => JsonValue::Null,
    };
    let r = json_object(
        vec![
            (key("public_name"), json_opt(server.public_name.clone())),
            (key("matched_public_name"), matched),
            (key("port"), json_number(server.port as u64)),
            (key("hostname"), json_opt(server.hostname.clone())),
        ],
    );
    assert(json_view(r)->Object_0 =~= server_json_spec(*server, opt_string(*host))->Object_0);
    r
}

/// What the answer says of a body too large to echo.
pub open spec fn omitted_note() -> Seq<char> {
    "body over 65536 bytes is reported by size only"@
}

/// The `body` part of the answer: its size, how it is represented, and the
/// content itself, chosen from the bytes as [`body_content`] does.
pub open spec fn body_json_spec(body: Seq<u8>) -> JsonView {
    let size = jnum(body.len());
    if body.len() == 0 {
        jobject(
            seq![("size_bytes"@, jnum(0)), ("encoding"@, JsonView::Text("empty"@)), ("content"@, JsonView::Null)],
        )
    } else if body.len() > MAX_ECHOED_BODY {
        jobject(
            seq![
                ("size_bytes"@, size),
                ("encoding"@, JsonView::Text("omitted"@)),
                ("content"@, JsonView::Null),
                ("note"@, JsonView::Text(omitted_note())),
            ],
        )
    } else if vstd::utf8::valid_utf8(body) {
        let text = vstd::utf8::decode_utf8(body);
        match json_document(text) {
            Some(doc) => jobject(
                seq![("size_bytes"@, size), ("encoding"@, JsonView::Text("json"@)), ("content"@, doc)],
            ),
            None => jobject(
                seq![("size_bytes"@, size), ("encoding"@, JsonView::Text("text"@)), ("content"@, JsonView::Text(text))],
            ),
        }
    } else {
        jobject(
            seq![
                ("size_bytes"@, size),
                ("encoding"@, JsonView::Text("base64"@)),
                ("content"@, JsonView::Text(base64_spec(body))),
            ],
        )
    }
}

/// Describes the body: its size, how it is represented, and the content
/// itself. The representation is chosen from the bytes, never from the
/// declared content type.
pub fn body_json(body: &[u8]) -> (r: JsonValue)
    ensures
        json_view(r) == body_json_spec(body@),
{
    let size = body.len() as u64;
    let ghost bv = body@;
    let entries = match body_content(body) {
        BodyContent::Empty => vec![
            (key("size_bytes"), json_number(0)),
            (key("encoding"), json_text(key("empty"))),
            (key("content"), JsonValue::Null),
        ],
        BodyContent::Omitted => vec![
            (key("size_bytes"), json_number(size)),
            (key("encoding"), json_text(key("omitted"))),
            (key("content"), JsonValue::Null),
            (key("note"), json_text(key("body over 65536 bytes is reported by size only"))),
        ],
        BodyContent::Json(text) => {
            let content = match parse_json(text.as_str()) {
                Some(v) => v,
                None => JsonValue::Text(text),
            };
            vec![(key("size_bytes"), json_number(size)), (key("encoding"), json_text(key("json"))), (key("content"), content)]
        },
        BodyContent::Text(text) => vec![
            (key("size_bytes"), json_number(size)),
            (key("encoding"), json_text(key("text"))),
            (key("content"), json_text(text)),
        ],
        BodyContent::Base64(encoded) => vec![
            (key("size_bytes"), json_number(size)),
            (key("encoding"), json_text(key("base64"))),
            (key("content"), json_text(encoded)),
        ],
    };
    let r = json_object(entries);
    assert(json_view(r)->Object_0 =~= body_json_spec(bv)->Object_0);
    r
}

/// The complete answer to one request: the status code to write, and the
/// body.
#[derive(Debug)]
pub struct EchoAnswer {
    pub status: u16,
    pub body: JsonValue,
}

/// The `request` part of the answer: the request line, the path split into
/// decoded segments, the query decoded, the `Host` header, and the headers
/// grouped by lowercase name.
pub open spec fn request_json_spec(request: EchoRequest, g: Groups) -> JsonView {
    jobject(
        seq![
            ("method"@, JsonView::Text(request.method@)),
            ("http_version"@, JsonView::Text(request.http_version@)),
            ("uri"@, JsonView::Text(request.uri@)),
            ("path"@, JsonView::Text(request.path@)),
            ("path_segments"@, jstrings(decoded_nonempty(split(request.path@, '/')))),
            ("query_string"@, jopt(opt_string(request.query_string))),
            ("query"@, groups_json(parse_query_spec(match request.query_string {
                Some(q) => q@,
                None => Seq::empty(),
            }))),
            ("host"@, jopt(first_value(g, "host"@))),
            ("header_count"@, jnum(request.headers@.len())),
            ("headers"@, groups_json(g)),
        ],
    )
}

/// The complete JSON answer for one request.
pub open spec fn echo_json_spec(server: EchoServer, request: EchoRequest, status: EchoStatus) -> JsonView {
    let g = header_groups(request.headers@);
    jobject(
        seq![
            ("received_at"@, JsonView::Text(rfc3339_spec(request.received_at_unix_secs as int, request.received_at_nanos as int))),
            ("server"@, server_json_spec(server, first_value(g, "host"@))),
            ("response"@, status_json_spec(status)),
            ("network"@, network_json_spec(server, request, g)),
            ("request"@, request_json_spec(request, g)),
            ("body"@, body_json_spec(request.body@)),
        ],
    )
}

fn request_json(request: &EchoRequest, headers: &MultiMap, host: &Option<String>) -> (r: JsonValue)
    requires
        opt_string(*host) == first_value(headers@, "host"@),
    ensures
        json_view(r) == request_json_spec(*request, headers@),
{
    let segments = path_segments(request.path.as_str());
    let query = match &request.query_string {
        Some(q) => parse_query(q.as_str()),
        None => {
            proof {
                reveal_strlit("");
            }
            assert(""@ =~= Seq::<char>::empty());
            parse_query("")
        },
    };
    let r = json_object(
        vec![
            (key("method"), json_text(request.method.clone())),
            (key("http_version"), json_text(request.http_version.clone())),
            (key("uri"), json_text(request.uri.clone())),
            (key("path"), json_text(request.path.clone())),
            (key("path_segments"), json_strings(&segments)),
            (key("query_string"), json_opt(request.query_string.clone())),
            (key("query"), multimap_json(&query)),
            (key("host"), json_opt(host.clone())),
            (key("header_count"), json_number(request.headers.len() as u64)),
            (key("headers"), multimap_json(headers)),
        ],
    );
    assert(json_view(r)->Object_0 =~= request_json_spec(*request, headers@)->Object_0);
    r
}

/// Builds the complete JSON answer for one request.
pub fn echo_json(server: &EchoServer, request: &EchoRequest, status: &EchoStatus) -> (r: JsonValue)
    ensures
        json_view(r) == echo_json_spec(*server, *request, *status),
{
    let headers = group_headers(&request.headers);
    let host = first_header(&headers, "host");
    let r = json_object(
        vec![
            (key("received_at"), json_text(format_rfc3339_utc(request.received_at_unix_secs, request.received_at_nanos))),
            (key("server"), server_json(server, &host)),
            (key("response"), status_json(status)),
            (key("network"), network_json(server, request, &headers)),
            (key("request"), request_json(request, &headers, &host)),
            (key("body"), body_json(&request.body)),
        ],
    );
    assert(json_view(r)->Object_0 =~= echo_json_spec(*server, *request, *status)->Object_0);
    r
}

/// Decides everything about the answer to one request: the status the query
/// string asks for, and the JSON describing the request.
pub fn echo_answer(server: &EchoServer, request: &EchoRequest) -> (r: EchoAnswer)
    ensures
        exists|status: EchoStatus|
            #[trigger] status_for(opt_string(request.query_string), status) && r.status == (match status {
                EchoStatus::Requested(c) => c,
                _ => DEFAULT_ECHO_STATUS,
            }) && json_view(r.body) == echo_json_spec(*server, *request, status),
{
    let status = match &request.query_string {
        Some(q) => echo_status(Some(q.as_str())),
        None => echo_status(None),
    };
    EchoAnswer { status: status.code(), body: echo_json(server, request, &status) }
}

} // verus!
