//! Containers as the rest of the library sees them, and how they are read off
//! the daemon's replies.
//!
//! The daemon may leave out almost any field. That is settled here, once:
//! defaults applied, names without their slash, ports published, in order and
//! without repeats. Everything downstream gets plain data.
use vstd::prelude::*;

use crate::order::{
    in_order, is_stable_sort, lemma_filter_map_holds, lemma_insert_keeps_stable_sort, lemma_stable_sort_exists,
    lemma_stable_sort_permutes, lemma_stable_sort_unique, lemma_strictly_in_order_unique,
    lemma_without_repeats, lemma_without_repeats_in_order, stable_sorted, strictly_in_order,
    total_preorder, without_repeats,
};
use crate::text::{
    cut, cut_at, cut_takes_one_character_out, decimal, decimal_reads_back, join, joined,
    only_leading_slashes_go, parse_u16, prefix, prefix_of, same_text, small_numbers_can_be_read,
    text_view, texts, trim_slashes, u16_text, without_slashes,
};

verus! {

// ---------------------------------------------------------------------------
// States.
// ---------------------------------------------------------------------------
/// Lifecycle state of a container.
///
/// It keeps the runtime's own state machine rather than a flag, because the
/// status chip tells "exited" from "dead" from "restarting".
#[derive(Debug, Clone, Copy, PartialEq, Eq, Structural)]
pub enum ContainerState {
    Created,
    Running,
    Paused,
    Restarting,
    Stopping,
    Exited,
    Removing,
    Dead,
    /// The daemon sent no state.
    Unknown,
}

/// A container's state as the daemon's list gives it. `Empty` is the empty string.
#[derive(Debug, Clone, Copy, PartialEq, Eq, Structural)]
pub enum SummaryState {
    Empty,
    Created,
    Running,
    Paused,
    Restarting,
    Exited,
    Removing,
    Dead,
    Stopping,
}

/// A container's state as the daemon's inspection gives it. `Empty` is the empty
/// string.
#[derive(Debug, Clone, Copy, PartialEq, Eq, Structural)]
pub enum InspectStatus {
    Empty,
    Created,
    Running,
    Paused,
    Restarting,
    Stopping,
    Removing,
    Exited,
    Dead,
}

impl ContainerState {
    /// Whether the container counts as up.
    pub open spec fn running(self) -> bool {
        self is Running || self is Restarting
    }

    /// Whether the primary button should offer "stop" rather than "start".
    pub fn is_running(self) -> (r: bool)
        ensures
            r == self.running(),
    {
        matches!(self, ContainerState::Running | ContainerState::Restarting)
    }
}

/// The state that a listed state stands for.
pub open spec fn summary_state(state: SummaryState) -> ContainerState {
    match state {
        SummaryState::Created => ContainerState::Created,
        SummaryState::Running => ContainerState::Running,
        SummaryState::Paused => ContainerState::Paused,
        SummaryState::Restarting => ContainerState::Restarting,
        SummaryState::Stopping => ContainerState::Stopping,
        SummaryState::Exited => ContainerState::Exited,
        SummaryState::Removing => ContainerState::Removing,
        SummaryState::Dead => ContainerState::Dead,
        SummaryState::Empty => ContainerState::Unknown,
    }
}

/// The state that an inspected status stands for.
pub open spec fn inspect_state(status: InspectStatus) -> ContainerState {
    match status {
        InspectStatus::Created => ContainerState::Created,
        InspectStatus::Running => ContainerState::Running,
        InspectStatus::Paused => ContainerState::Paused,
        InspectStatus::Restarting => ContainerState::Restarting,
        InspectStatus::Stopping => ContainerState::Stopping,
        InspectStatus::Exited => ContainerState::Exited,
        InspectStatus::Removing => ContainerState::Removing,
        InspectStatus::Dead => ContainerState::Dead,
        InspectStatus::Empty => ContainerState::Unknown,
    }
}

impl From<SummaryState> for ContainerState {
    fn from(state: SummaryState) -> (r: ContainerState) {
        match state {
            SummaryState::Created => ContainerState::Created,
            SummaryState::Running => ContainerState::Running,
            SummaryState::Paused => ContainerState::Paused,
            SummaryState::Restarting => ContainerState::Restarting,
            SummaryState::Stopping => ContainerState::Stopping,
            SummaryState::Exited => ContainerState::Exited,
            SummaryState::Removing => ContainerState::Removing,
            SummaryState::Dead => ContainerState::Dead,
            SummaryState::Empty => ContainerState::Unknown,
        }
    }
}

impl vstd::std_specs::convert::FromSpecImpl<SummaryState> for ContainerState {
    open spec fn obeys_from_spec() -> bool {
        true
    }

    open spec fn from_spec(state: SummaryState) -> ContainerState {
        summary_state(state)
    }
}

impl From<InspectStatus> for ContainerState {
    fn from(status: InspectStatus) -> (r: ContainerState) {
        match status {
            InspectStatus::Created => ContainerState::Created,
            InspectStatus::Running => ContainerState::Running,
            InspectStatus::Paused => ContainerState::Paused,
            InspectStatus::Restarting => ContainerState::Restarting,
            InspectStatus::Stopping => ContainerState::Stopping,
            InspectStatus::Exited => ContainerState::Exited,
            InspectStatus::Removing => ContainerState::Removing,
            InspectStatus::Dead => ContainerState::Dead,
            InspectStatus::Empty => ContainerState::Unknown,
        }
    }
}

impl vstd::std_specs::convert::FromSpecImpl<InspectStatus> for ContainerState {
    open spec fn obeys_from_spec() -> bool {
        true
    }

    open spec fn from_spec(status: InspectStatus) -> ContainerState {
        inspect_state(status)
    }
}

// ---------------------------------------------------------------------------
// Ports.
// ---------------------------------------------------------------------------
#[derive(Debug, Clone, Copy, PartialEq, Eq, Structural)]
pub enum Protocol {
    Tcp,
    Udp,
    Sctp,
}

/// A port's type as the daemon's list gives it. `Empty` is the empty string.
#[derive(Debug, Clone, Copy, PartialEq, Eq, Structural)]
pub enum PortType {
    Empty,
    Tcp,
    Udp,
    Sctp,
}

/// The protocol that a listed type stands for: the daemon leaves the type out for
/// plain TCP.
pub open spec fn port_protocol(kind: PortType) -> Protocol {
    match kind {
        PortType::Udp => Protocol::Udp,
        PortType::Sctp => Protocol::Sctp,
        PortType::Tcp | PortType::Empty => Protocol::Tcp,
    }
}

impl From<PortType> for Protocol {
    fn from(kind: PortType) -> (r: Protocol) {
        match kind {
            PortType::Udp => Protocol::Udp,
            PortType::Sctp => Protocol::Sctp,
            PortType::Tcp | PortType::Empty => Protocol::Tcp,
        }
    }
}

impl vstd::std_specs::convert::FromSpecImpl<PortType> for Protocol {
    open spec fn obeys_from_spec() -> bool {
        true
    }

    open spec fn from_spec(kind: PortType) -> Protocol {
        port_protocol(kind)
    }
}

/// A published port mapping. Unpublished ports are dropped when a reply is read:
/// nobody on the host can reach them.
#[derive(Debug, Clone, Copy, PartialEq, Eq, Structural)]
pub struct Port {
    pub private: u16,
    pub public: u16,
    pub protocol: Protocol,
}

/// One port in the daemon's list of a container.
#[derive(Debug, Clone)]
pub struct PortSummary {
    /// The host interface.
    pub ip: Option<String>,
    pub private_port: u16,
    pub public_port: Option<u16>,
    pub typ: Option<PortType>,
}

/// The mapping that a listed port stands for: none without a public port.
pub open spec fn published_port(summary: PortSummary) -> Option<Port> {
    match summary.public_port {
        Some(public) => Some(
            Port {
                private: summary.private_port,
                public,
                protocol: match summary.typ {
                    Some(kind) => port_protocol(kind),
                    None => Protocol::Tcp,
                },
            },
        ),
        None => None,
    }
}

/// The mappings that listed ports stand for, in their order.
pub open spec fn published_ports(summaries: Seq<PortSummary>) -> Seq<Port> {
    summaries.filter_map(|summary: PortSummary| published_port(summary))
}

/// The place of a protocol among those of one pair of numbers.
pub open spec fn protocol_rank(protocol: Protocol) -> int {
    match protocol {
        Protocol::Tcp => 0,
        Protocol::Udp => 1,
        Protocol::Sctp => 2,
    }
}

/// Ports go by public port, then by private port, then by protocol.
pub open spec fn port_leq() -> spec_fn(Port, Port) -> bool {
    |a: Port, b: Port|
        a.public < b.public || (a.public == b.public && (a.private < b.private || (a.private
            == b.private && protocol_rank(a.protocol) <= protocol_rank(b.protocol))))
}

/// The port list to show: in order, and each port once. The daemon gives one mapping
/// per host interface, which would show the same one twice.
pub open spec fn port_list(ports: Seq<Port>) -> Seq<Port> {
    without_repeats(stable_sorted(ports, port_leq()))
}

/// The order of ports compares any two of them, and ties only equal ones.
pub proof fn lemma_port_leq_total()
    ensures
        total_preorder(port_leq()),
        forall|a: Port, b: Port| #[trigger] port_leq()(a, b) && port_leq()(b, a) ==> a == b,
{
}

fn rank_of(protocol: Protocol) -> (r: u8)
    ensures
        r == protocol_rank(protocol),
{
    match protocol {
        Protocol::Tcp => 0,
        Protocol::Udp => 1,
        Protocol::Sctp => 2,
    }
}

impl Port {
    /// The mapping that a listed port stands for: none without a public port.
    pub fn from_summary(summary: &PortSummary) -> (r: Option<Port>)
        ensures
            r == published_port(*summary),
    {
        match summary.public_port {
            Some(public) => Some(
                Port {
                    private: summary.private_port,
                    public,
                    protocol: match summary.typ {
                        Some(kind) => Protocol::from(kind),
                        None => Protocol::Tcp,
                    },
                },
            ),
            None => None,
        }
    }

    fn comes_before(&self, other: &Port) -> (r: bool)
        ensures
            r == port_leq()(*self, *other),
    {
        self.public < other.public || (self.public == other.public && (self.private
            < other.private || (self.private == other.private && rank_of(self.protocol)
            <= rank_of(other.protocol))))
    }
}

/// `ports` by public port, then by private port, then by protocol.
fn sort_ports(ports: &Vec<Port>) -> (r: Vec<Port>)
    ensures
        r@ == stable_sorted(ports@, port_leq()),
{
    let ghost leq = port_leq();
    let mut out: Vec<Port> = Vec::new();
    let mut i: usize = 0;
    proof {
        lemma_port_leq_total();
        assert(ports@.take(0) =~= out@);
    }
    while i < ports.len()
        invariant
            i <= ports@.len(),
            leq == port_leq(),
            total_preorder(leq),
            is_stable_sort(ports@.take(i as int), out@, leq),
        decreases ports@.len() - i,
    {
        let port = ports[i];
        let mut at: usize = out.len();
        while at > 0 && !out[at - 1].comes_before(&port)
            invariant
                at <= out@.len(),
                leq == port_leq(),
                forall|k: int| at <= k < out@.len() ==> !leq(#[trigger] out@[k], port),
            decreases at,
        {
            at -= 1;
        }
        proof {
            assert forall|k: int| 0 <= k < at implies leq(#[trigger] out@[k], port) by {
                if k < at - 1 {
                    assert(leq(out@[k], out@[at - 1]));
                }
            }
            lemma_insert_keeps_stable_sort(ports@.take(i as int), out@, port, at as int, leq);
            assert(ports@.take(i + 1) =~= ports@.take(i as int).push(port));
        }
        out.insert(at, port);
        i += 1;
    }
    proof {
        assert(ports@.take(i as int) =~= ports@);
        lemma_stable_sort_exists(ports@, leq);
        lemma_stable_sort_unique(ports@, out@, stable_sorted(ports@, leq), leq);
    }
    out
}

/// `ports` in order, and each once.
fn tidy_ports(ports: &Vec<Port>) -> (r: Vec<Port>)
    ensures
        r@ == port_list(ports@),
{
    let sorted = sort_ports(ports);
    let mut out: Vec<Port> = Vec::new();
    let mut i: usize = 0;
    while i < sorted.len()
        invariant
            i <= sorted@.len(),
            out@ == without_repeats(sorted@.take(i as int)),
        decreases sorted@.len() - i,
    {
        let port = sorted[i];
        let repeats = i > 0 && sorted[i - 1] == port;
        proof {
            let s = sorted@.take(i + 1);
            assert(s.drop_last() =~= sorted@.take(i as int));
            if i == 0 {
                assert(s =~= seq![port]);
                assert(out@.push(port) =~= s);
            }
        }
        if !repeats {
            out.push(port);
        }
        i += 1;
    }
    proof {
        assert(sorted@.take(i as int) =~= sorted@);
    }
    out
}

/// The port list is strictly in order, so it shows no port twice, and it holds exactly
/// the ports that were given.
pub proof fn port_list_is_tidy(ports: Seq<Port>)
    ensures
        strictly_in_order(port_list(ports), port_leq()),
        port_list(ports).no_duplicates(),
        forall|port: Port| #[trigger] port_list(ports).contains(port) <==> ports.contains(port),
{
    broadcast use vstd::seq_lib::group_to_multiset_ensures;

    let leq = port_leq();
    let sorted = stable_sorted(ports, leq);
    let t = port_list(ports);
    lemma_port_leq_total();
    lemma_stable_sort_exists(ports, leq);
    lemma_stable_sort_permutes(ports, sorted, leq);
    lemma_without_repeats(sorted);
    lemma_without_repeats_in_order(sorted, leq);
    assert forall|port: Port| #[trigger] t.contains(port) <==> ports.contains(port) by {
        assert(sorted.contains(port) <==> sorted.to_multiset().count(port) > 0);
        assert(ports.contains(port) <==> ports.to_multiset().count(port) > 0);
    }
    assert forall|i: int, j: int| 0 <= i < j < t.len() implies leq(#[trigger] t[i], #[trigger] t[j])
        && !leq(t[j], t[i]) by {
        if leq(t[j], t[i]) {
            if i + 1 < j {
                assert(leq(t[i + 1], t[j]));
            }
            assert(leq(t[i], t[i + 1]) && leq(t[i + 1], t[i]));
            assert(t[i] == t[i + 1]);
        }
    }
    assert forall|i: int, j: int| 0 <= i < t.len() && 0 <= j < t.len() && i != j implies t[i]
        != t[j] by {
        if i < j {
            assert(leq(t[i], t[j]) && !leq(t[j], t[i]));
        } else {
            assert(leq(t[j], t[i]) && !leq(t[i], t[j]));
        }
    }
}

/// The port list depends neither on the order in which the daemon gives the ports nor on
/// how often it gives each.
pub proof fn port_list_ignores_order_and_repeats(a: Seq<Port>, b: Seq<Port>)
    requires
        forall|port: Port| #[trigger] a.contains(port) <==> b.contains(port),
    ensures
        port_list(a) == port_list(b),
{
    lemma_port_leq_total();
    port_list_is_tidy(a);
    port_list_is_tidy(b);
    assert forall|port: Port| #[trigger] port_list(a).contains(port) <==> port_list(b).contains(
        port,
    ) by {
        assert(a.contains(port) <==> b.contains(port));
    }
    lemma_strictly_in_order_unique(port_list(a), port_list(b), port_leq());
}

// ---------------------------------------------------------------------------
// Containers, from the daemon's list.
// ---------------------------------------------------------------------------
#[derive(Debug, PartialEq, Eq)]
pub struct Container {
    pub id: String,
    pub name: String,
    pub image: String,
    pub state: ContainerState,
    /// The daemon's human-readable status, e.g. "Up 39 minutes (healthy)".
    pub status: String,
    pub ports: Vec<Port>,
}

/// What a `Container` holds.
#[verifier::ext_equal]
pub struct ContainerView {
    pub id: Seq<char>,
    pub name: Seq<char>,
    pub image: Seq<char>,
    pub state: ContainerState,
    pub status: Seq<char>,
    pub ports: Seq<Port>,
}

impl View for Container {
    type V = ContainerView;

    open spec fn view(&self) -> ContainerView {
        ContainerView {
            id: self.id@,
            name: self.name@,
            image: self.image@,
            state: self.state,
            status: self.status@,
            ports: self.ports@,
        }
    }
}

/// What a sequence of containers holds.
pub open spec fn containers_view(s: Seq<Container>) -> Seq<ContainerView> {
    Seq::new(s.len(), |i: int| s[i]@)
}

/// A copy of `ports`.
pub fn copy_ports(ports: &Vec<Port>) -> (r: Vec<Port>)
    ensures
        r@ == ports@,
{
    let mut out: Vec<Port> = Vec::new();
    let mut i: usize = 0;
    while i < ports.len()
        invariant
            i <= ports@.len(),
            out@ =~= ports@.take(i as int),
        decreases ports@.len() - i,
    {
        out.push(ports[i]);
        i += 1;
    }
    out
}

impl Clone for Container {
    fn clone(&self) -> (r: Container)
        ensures
            r@ == self@,
    {
        Container {
            id: self.id.clone(),
            name: self.name.clone(),
            image: self.image.clone(),
            state: self.state,
            status: self.status.clone(),
            ports: copy_ports(&self.ports),
        }
    }
}

/// One container in the daemon's list. Any field may be missing.
#[derive(Debug, Clone)]
pub struct ContainerSummary {
    pub id: Option<String>,
    pub names: Option<Vec<String>>,
    pub image: Option<String>,
    pub state: Option<SummaryState>,
    pub status: Option<String>,
    pub ports: Option<Vec<PortSummary>>,
}

impl Default for ContainerSummary {
    fn default() -> (r: ContainerSummary)
        ensures
            r.id is None,
            r.names is None,
            r.image is None,
            r.state is None,
            r.status is None,
            r.ports is None,
    {
        ContainerSummary {
            id: None,
            names: None,
            image: None,
            state: None,
            status: None,
            ports: None,
        }
    }
}

/// How many characters of an id stand for it where there is no name.
pub const SHORT_ID: usize = 12;

/// A container's name: its first one without leading slashes, or the start of its id
/// where it has none.
pub open spec fn summary_name(names: Option<Vec<String>>, id: Seq<char>) -> Seq<char> {
    match names {
        Some(names) => if names@.len() > 0 {
            without_slashes(names@[0]@)
        } else {
            prefix(id, SHORT_ID as nat)
        },
        None => prefix(id, SHORT_ID as nat),
    }
}

/// The container that a summary stands for: none without an id, because every action
/// goes by the id.
pub open spec fn summary_container(summary: ContainerSummary) -> Option<ContainerView> {
    match summary.id {
        None => None,
        Some(id) => Some(
            ContainerView {
                id: id@,
                name: summary_name(summary.names, id@),
                image: match summary.image {
                    Some(image) => image@,
                    None => "<unknown>"@,
                },
                state: match summary.state {
                    Some(state) => summary_state(state),
                    None => ContainerState::Unknown,
                },
                status: match summary.status {
                    Some(status) => status@,
                    None => Seq::empty(),
                },
                ports: match summary.ports {
                    Some(ports) => port_list(published_ports(ports@)),
                    None => Seq::empty(),
                },
            },
        ),
    }
}

/// The mappings that listed ports stand for, in their order.
fn collect_published(summaries: &Vec<PortSummary>) -> (r: Vec<Port>)
    ensures
        r@ == published_ports(summaries@),
{
    let mut out: Vec<Port> = Vec::new();
    let mut i: usize = 0;
    while i < summaries.len()
        invariant
            i <= summaries@.len(),
            out@ == published_ports(summaries@.take(i as int)),
        decreases summaries@.len() - i,
    {
        proof {
            let s = summaries@.take(i + 1);
            assert(s.drop_last() =~= summaries@.take(i as int));
            assert(s.last() == summaries@[i as int]);
        }
        match Port::from_summary(&summaries[i]) {
            Some(port) => out.push(port),
            None => {},
        }
        i += 1;
    }
    proof {
        assert(summaries@.take(i as int) =~= summaries@);
    }
    out
}

impl Container {
    /// Reads a container off its summary.
    ///
    /// `None` without an id: every action goes by the id, so no row could work for
    /// such a container.
    pub fn from_summary(summary: ContainerSummary) -> (r: Option<Container>)
        ensures
            match r {
                Some(container) => summary_container(summary) == Some(container@),
                None => summary_container(summary) is None,
            },
    {
        let id = match summary.id {
            Some(id) => id,
            None => {
                return None;
            },
        };
        // The first name is the canonical one.
        let name = match &summary.names {
            Some(names) => if names.len() > 0 {
                trim_slashes(names[0].as_str())
            } else {
                prefix_of(id.as_str(), SHORT_ID)
            },
            None => prefix_of(id.as_str(), SHORT_ID),
        };
        let ports = match &summary.ports {
            Some(ports) => tidy_ports(&collect_published(ports)),
            None => Vec::new(),
        };
        let image = match summary.image {
            Some(image) => image,
            None => "<unknown>".to_owned(),
        };
        let state = match summary.state {
            Some(state) => ContainerState::from(state),
            None => ContainerState::Unknown,
        };
        let status = match summary.status {
            Some(status) => status,
            None => String::new(),
        };
        Some(Container { id, name, image, state, status, ports })
    }
}

/// A summary gives a container exactly where it has an id, and that is the
/// container's.
pub proof fn container_needs_an_id(summary: ContainerSummary)
    ensures
        summary_container(summary) is Some <==> summary.id is Some,
        summary_container(summary) matches Some(container) ==> container.id == summary.id->0@,
{
}

/// Only the ports of a container that are published to the host are listed.
pub proof fn only_published_ports_are_listed(summaries: Seq<PortSummary>, port: Port)
    ensures
        port_list(published_ports(summaries)).contains(port) <==> exists|i: int|
            0 <= i < summaries.len() && published_port(#[trigger] summaries[i]) == Some(port),
{
    port_list_is_tidy(published_ports(summaries));
    lemma_filter_map_holds(summaries, |summary: PortSummary| published_port(summary), port);
}

// ---------------------------------------------------------------------------
// Details, from the daemon's inspection.
// ---------------------------------------------------------------------------
/// What inspecting a container gives beyond its summary.
#[derive(Debug, PartialEq, Eq)]
pub struct ContainerDetail {
    /// Current state, so that a repeated inspection keeps the chip and button live.
    pub state: ContainerState,
    /// Published ports: a container gains its bindings when it starts.
    pub ports: Vec<Port>,
    /// Start time in RFC 3339; `None` when the container is not running, because a
    /// stopped container has no meaningful uptime.
    pub started_at: Option<String>,
    /// Creation time in RFC 3339.
    pub created: Option<String>,
    /// The full command line that the container runs.
    pub command: Option<String>,
}

/// What a `ContainerDetail` holds.
#[verifier::ext_equal]
pub struct DetailView {
    pub state: ContainerState,
    pub ports: Seq<Port>,
    pub started_at: Option<Seq<char>>,
    pub created: Option<Seq<char>>,
    pub command: Option<Seq<char>>,
}

impl View for ContainerDetail {
    type V = DetailView;

    open spec fn view(&self) -> DetailView {
        DetailView {
            state: self.state,
            ports: self.ports@,
            started_at: text_view(self.started_at),
            created: text_view(self.created),
            command: text_view(self.command),
        }
    }
}

/// The state part of an inspection.
#[derive(Debug, Clone)]
pub struct InspectState {
    pub status: Option<InspectStatus>,
    pub running: Option<bool>,
    pub started_at: Option<String>,
}

/// The configuration part of an inspection.
#[derive(Debug, Clone)]
pub struct ContainerConfig {
    pub entrypoint: Option<Vec<String>>,
    pub cmd: Option<Vec<String>>,
}

/// A host address that a container's port is bound to.
#[derive(Debug, Clone)]
pub struct PortBinding {
    pub host_ip: Option<String>,
    pub host_port: Option<String>,
}

/// The network part of an inspection: for each exposed port, written `"5432/tcp"`,
/// the host addresses that it is bound to. The daemon gives the ports in no
/// particular order.
#[derive(Debug, Clone)]
pub struct NetworkSettings {
    pub ports: Option<Vec<(String, Option<Vec<PortBinding>>)>>,
}

/// The daemon's reply to an inspection. Any field may be missing.
#[derive(Debug, Clone)]
pub struct ContainerInspectResponse {
    pub state: Option<InspectState>,
    pub created: Option<String>,
    pub config: Option<ContainerConfig>,
    pub network_settings: Option<NetworkSettings>,
}

impl Default for ContainerInspectResponse {
    fn default() -> (r: ContainerInspectResponse)
        ensures
            r.state is None,
            r.created is None,
            r.config is None,
            r.network_settings is None,
    {
        ContainerInspectResponse { state: None, created: None, config: None, network_settings: None }
    }
}

/// The protocol that the part of a port key behind the slash names: TCP where it is
/// not one of the others.
pub open spec fn protocol_named(name: Seq<char>) -> Protocol {
    if name == "udp"@ {
        Protocol::Udp
    } else if name == "sctp"@ {
        Protocol::Sctp
    } else {
        Protocol::Tcp
    }
}

/// What a port key says: `"5432/tcp"` is port 5432 over TCP.
pub open spec fn port_key(key: Seq<char>) -> Option<(u16, Protocol)> {
    match cut(key, '/') {
        Some((port, protocol)) => match u16_text(port) {
            Some(private) => Some((private, protocol_named(protocol))),
            None => None,
        },
        None => None,
    }
}

/// Reads a port key: `"5432/tcp"` is port 5432 over TCP.
pub fn parse_port_key(key: &str) -> (r: Option<(u16, Protocol)>)
    ensures
        r == port_key(key@),
{
    match cut_at(key, '/') {
        Some((port, protocol)) => match parse_u16(port.as_str()) {
            Some(private) => {
                let protocol = if same_text(protocol.as_str(), "udp") {
                    Protocol::Udp
                } else if same_text(protocol.as_str(), "sctp") {
                    Protocol::Sctp
                } else {
                    Protocol::Tcp
                };
                Some((private, protocol))
            },
            None => None,
        },
        None => None,
    }
}

/// The host port that a binding names, if it names one.
pub open spec fn host_port(binding: PortBinding) -> Option<u16> {
    match binding.host_port {
        Some(port) => u16_text(port@),
        None => None,
    }
}

/// The host port of the first binding that names one.
pub open spec fn first_host_port(bindings: Seq<PortBinding>) -> Option<u16>
    decreases bindings.len(),
{
    if bindings.len() == 0 {
        None
    } else {
        match host_port(bindings[0]) {
            Some(port) => Some(port),
            None => first_host_port(bindings.drop_first()),
        }
    }
}

/// The host port of the first binding that names one.
fn find_host_port(bindings: &Vec<PortBinding>) -> (r: Option<u16>)
    ensures
        r == first_host_port(bindings@),
{
    let mut i: usize = 0;
    proof {
        assert(bindings@.skip(0) =~= bindings@);
    }
    while i < bindings.len()
        invariant
            i <= bindings@.len(),
            first_host_port(bindings@) == first_host_port(bindings@.skip(i as int)),
        decreases bindings@.len() - i,
    {
        proof {
            assert(bindings@.skip(i as int)[0] == bindings@[i as int]);
            assert(bindings@.skip(i as int).drop_first() =~= bindings@.skip(i + 1));
        }
        match &bindings[i].host_port {
            Some(text) => match parse_u16(text.as_str()) {
                Some(port) => {
                    return Some(port);
                },
                None => {},
            },
            None => {},
        }
        i += 1;
    }
    None
}

/// The mapping that an inspected port stands for: none unless its key can be read and
/// it is bound to a host port.
pub open spec fn bound_port(entry: (String, Option<Vec<PortBinding>>)) -> Option<Port> {
    match (port_key(entry.0@), entry.1) {
        (Some((private, protocol)), Some(bindings)) => match first_host_port(bindings@) {
            Some(public) => Some(Port { private, public, protocol }),
            None => None,
        },
        _ => None,
    }
}

/// The mapping that an inspected port stands for.
fn read_bound_port(entry: &(String, Option<Vec<PortBinding>>)) -> (r: Option<Port>)
    ensures
        r == bound_port(*entry),
{
    match parse_port_key(entry.0.as_str()) {
        Some((private, protocol)) => match &entry.1 {
            Some(bindings) => match find_host_port(bindings) {
                Some(public) => Some(Port { private, public, protocol }),
                None => None,
            },
            None => None,
        },
        None => None,
    }
}

/// The mappings that inspected ports stand for, in the order given.
pub open spec fn bound_ports(entries: Seq<(String, Option<Vec<PortBinding>>)>) -> Seq<Port> {
    entries.filter_map(|entry: (String, Option<Vec<PortBinding>>)| bound_port(entry))
}

/// The port list of an inspected container.
pub open spec fn inspect_ports(resp: ContainerInspectResponse) -> Seq<Port> {
    match resp.network_settings {
        Some(network) => match network.ports {
            Some(entries) => port_list(bound_ports(entries@)),
            None => Seq::empty(),
        },
        None => Seq::empty(),
    }
}

/// The port list of an inspected container: the ports published to the host, like in
/// the daemon's list. Ports that are merely exposed are dropped.
pub fn ports_from_inspect(resp: &ContainerInspectResponse) -> (r: Vec<Port>)
    ensures
        r@ == inspect_ports(*resp),
{
    let entries = match &resp.network_settings {
        Some(network) => match &network.ports {
            Some(entries) => entries,
            None => {
                return Vec::new();
            },
        },
        None => {
            return Vec::new();
        },
    };
    let mut ports: Vec<Port> = Vec::new();
    let mut i: usize = 0;
    while i < entries.len()
        invariant
            i <= entries@.len(),
            ports@ == bound_ports(entries@.take(i as int)),
        decreases entries@.len() - i,
    {
        proof {
            let s = entries@.take(i + 1);
            assert(s.drop_last() =~= entries@.take(i as int));
            assert(s.last() == entries@[i as int]);
        }
        match read_bound_port(&entries[i]) {
            Some(port) => ports.push(port),
            None => {},
        }
        i += 1;
    }
    proof {
        assert(entries@.take(i as int) =~= entries@);
    }
    tidy_ports(&ports)
}

/// The port list of an inspected container does not depend on the order in which the
/// daemon gives its ports.
pub proof fn inspected_ports_ignore_order(
    a: Seq<(String, Option<Vec<PortBinding>>)>,
    b: Seq<(String, Option<Vec<PortBinding>>)>,
)
    requires
        a.to_multiset() == b.to_multiset(),
    ensures
        port_list(bound_ports(a)) == port_list(bound_ports(b)),
{
    broadcast use vstd::seq_lib::group_to_multiset_ensures;

    let f = |entry: (String, Option<Vec<PortBinding>>)| bound_port(entry);
    assert forall|port: Port| #[trigger] bound_ports(a).contains(port) <==> bound_ports(b).contains(
        port,
    ) by {
        lemma_filter_map_holds(a, f, port);
        lemma_filter_map_holds(b, f, port);
        if bound_ports(a).contains(port) {
            let i = choose|i: int| 0 <= i < a.len() && f(#[trigger] a[i]) == Some(port);
            assert(a.contains(a[i]) && a.to_multiset().count(a[i]) > 0);
            assert(b.to_multiset().count(a[i]) > 0 && b.contains(a[i]));
            let j = choose|j: int| 0 <= j < b.len() && b[j] == a[i];
            assert(f(b[j]) == Some(port));
        }
        if bound_ports(b).contains(port) {
            let i = choose|i: int| 0 <= i < b.len() && f(#[trigger] b[i]) == Some(port);
            assert(b.contains(b[i]) && b.to_multiset().count(b[i]) > 0);
            assert(a.to_multiset().count(b[i]) > 0 && a.contains(b[i]));
            let j = choose|j: int| 0 <= j < a.len() && a[j] == b[i];
            assert(f(a[j]) == Some(port));
        }
    }
    port_list_ignores_order_and_repeats(bound_ports(a), bound_ports(b));
}

/// The texts of an optional list of strings.
pub open spec fn list_texts(list: Option<Vec<String>>) -> Seq<Seq<char>> {
    match list {
        Some(list) => texts(list@),
        None => Seq::empty(),
    }
}

/// The command line of a configuration: entrypoint, then command, with single spaces
/// between them; none where both are empty.
pub open spec fn config_command(config: ContainerConfig) -> Option<Seq<char>> {
    let parts = list_texts(config.entrypoint) + list_texts(config.cmd);
    if parts.len() == 0 {
        None
    } else {
        Some(joined(parts, " "@))
    }
}

/// Adds copies of `list` to the end of `parts`.
fn append_copies(parts: &mut Vec<String>, list: &Option<Vec<String>>)
    ensures
        texts(final(parts)@) == texts(old(parts)@) + list_texts(*list),
{
    match list {
        Some(list) => {
            let ghost before = parts@;
            let mut i: usize = 0;
            while i < list.len()
                invariant
                    i <= list@.len(),
                    texts(parts@) =~= texts(before) + texts(list@).take(i as int),
                decreases list@.len() - i,
            {
                let ghost so_far = parts@;
                parts.push(list[i].clone());
                proof {
                    assert(texts(parts@) =~= texts(so_far).push(list@[i as int]@));
                }
                i += 1;
            }
            proof {
                assert(texts(list@).take(i as int) =~= texts(list@));
            }
        },
        None => {
            proof {
                assert(texts(parts@) + Seq::<Seq<char>>::empty() =~= texts(parts@));
            }
        },
    }
}

/// The command line of a configuration.
fn command_of(config: &ContainerConfig) -> (r: Option<String>)
    ensures
        text_view(r) == config_command(*config),
{
    let mut parts: Vec<String> = Vec::new();
    append_copies(&mut parts, &config.entrypoint);
    append_copies(&mut parts, &config.cmd);
    proof {
        assert(texts(parts@) =~= list_texts(config.entrypoint) + list_texts(config.cmd));
    }
    if parts.len() == 0 {
        None
    } else {
        Some(join(&parts, " "))
    }
}

/// The detail that an inspection stands for.
pub open spec fn inspect_detail(resp: ContainerInspectResponse) -> DetailView {
    DetailView {
        state: match resp.state {
            Some(state) => match state.status {
                Some(status) => inspect_state(status),
                None => ContainerState::Unknown,
            },
            None => ContainerState::Unknown,
        },
        ports: inspect_ports(resp),
        started_at: match resp.state {
            Some(state) => if state.running == Some(true) {
                text_view(state.started_at)
            } else {
                None
            },
            None => None,
        },
        created: text_view(resp.created),
        command: match resp.config {
            Some(config) => config_command(config),
            None => None,
        },
    }
}

impl ContainerDetail {
    /// Reads the detail off an inspection.
    pub fn from_inspect(resp: ContainerInspectResponse) -> (r: ContainerDetail)
        ensures
            r@ == inspect_detail(resp),
    {
        let ports = ports_from_inspect(&resp);
        // The daemon splits the command line in two.
        let command = match &resp.config {
            Some(config) => command_of(config),
            None => None,
        };
        let (state, started_at) = match resp.state {
            Some(state) => (
                match state.status {
                    Some(status) => ContainerState::from(status),
                    None => ContainerState::Unknown,
                },
                match state.running {
                    Some(true) => state.started_at,
                    _ => None,
                },
            ),
            None => (ContainerState::Unknown, None),
        };
        ContainerDetail { state, ports, started_at, created: resp.created, command }
    }
}

// ---------------------------------------------------------------------------
// Resource samples, from the daemon's statistics.
// ---------------------------------------------------------------------------
/// One resource sample.
///
/// The share of CPU time is kept as the whole numbers that it is the quotient of; a
/// percentage is for the display to make of them.
#[derive(Debug, Clone, Copy, PartialEq, Eq, Structural)]
pub struct Stats {
    /// CPU time that the container used since the sample before, in nanoseconds.
    pub cpu_delta: u64,
    /// CPU time that the whole system spent meanwhile, in nanoseconds.
    pub system_delta: u64,
    /// How many CPUs are online; at least one.
    pub cpus: u64,
    /// Memory that the container uses, in bytes.
    pub mem_used: u64,
    /// The memory limit in bytes; 0 if there is none.
    pub mem_limit: u64,
}

/// The CPU time of a container, in all and for each CPU.
#[derive(Debug, Clone)]
pub struct ContainerCpuUsage {
    pub total_usage: Option<u64>,
    pub percpu_usage: Option<Vec<u64>>,
}

/// One CPU reading.
#[derive(Debug, Clone)]
pub struct ContainerCpuStats {
    pub cpu_usage: Option<ContainerCpuUsage>,
    pub system_cpu_usage: Option<u64>,
    pub online_cpus: Option<u32>,
}

/// One memory reading. `stats` holds the counters by name, each name once.
#[derive(Debug, Clone)]
pub struct ContainerMemoryStats {
    pub usage: Option<u64>,
    pub limit: Option<u64>,
    pub stats: Option<Vec<(String, u64)>>,
}

/// One frame of the daemon's statistics, with the CPU reading before it. Any field
/// may be missing.
#[derive(Debug, Clone)]
pub struct ContainerStatsResponse {
    pub cpu_stats: Option<ContainerCpuStats>,
    pub precpu_stats: Option<ContainerCpuStats>,
    pub memory_stats: Option<ContainerMemoryStats>,
}

impl Default for ContainerStatsResponse {
    fn default() -> (r: ContainerStatsResponse)
        ensures
            r.cpu_stats is None,
            r.precpu_stats is None,
            r.memory_stats is None,
    {
        ContainerStatsResponse { cpu_stats: None, precpu_stats: None, memory_stats: None }
    }
}

/// `a` less `b`, but not below zero.
pub open spec fn less_down_to_zero(a: u64, b: u64) -> u64 {
    if a >= b {
        (a - b) as u64
    } else {
        0
    }
}

/// The total CPU time of a reading.
pub open spec fn cpu_total(cpu: ContainerCpuStats) -> Option<u64> {
    match cpu.cpu_usage {
        Some(usage) => usage.total_usage,
        None => None,
    }
}

/// The value of the counter called `name`, if there is one.
pub open spec fn counter(counters: Seq<(String, u64)>, name: Seq<char>) -> Option<u64>
    decreases counters.len(),
{
    if counters.len() == 0 {
        None
    } else if counters[0].0@ == name {
        Some(counters[0].1)
    } else {
        counter(counters.drop_first(), name)
    }
}

/// The reclaimable page cache in a memory reading; 0 where the daemon does not say.
pub open spec fn reclaimable(memory: ContainerMemoryStats) -> u64 {
    match memory.stats {
        Some(counters) => match counter(counters@, "inactive_file"@) {
            Some(bytes) => bytes,
            None => 0,
        },
        None => 0,
    }
}

/// How many CPUs a reading speaks of: as many as it says are online or, where it does
/// not say, as many as it lists one by one; at least one.
pub open spec fn cpu_count(cpu: ContainerCpuStats) -> u64 {
    let said = match cpu.online_cpus {
        Some(n) => n as u64,
        None => match cpu.cpu_usage {
            Some(usage) => match usage.percpu_usage {
                Some(list) => list@.len() as u64,
                None => 1,
            },
            None => 1,
        },
    };
    if said >= 1 {
        said
    } else {
        1
    }
}

/// The sample that a frame stands for: none unless it holds the CPU and system totals of
/// both readings, and the memory in use.
pub open spec fn stats_sample(resp: ContainerStatsResponse) -> Option<Stats> {
    match (resp.cpu_stats, resp.precpu_stats, resp.memory_stats) {
        (Some(cpu), Some(pre), Some(memory)) => match (
            cpu_total(cpu),
            cpu.system_cpu_usage,
            cpu_total(pre),
            pre.system_cpu_usage,
            memory.usage,
        ) {
            (
                Some(total),
                Some(system),
                Some(total_before),
                Some(system_before),
                Some(usage),
            ) => Some(
                Stats {
                    cpu_delta: less_down_to_zero(total, total_before),
                    system_delta: less_down_to_zero(system, system_before),
                    cpus: cpu_count(cpu),
                    mem_used: less_down_to_zero(usage, reclaimable(memory)),
                    mem_limit: match memory.limit {
                        Some(limit) => limit,
                        None => 0,
                    },
                },
            ),
            _ => None,
        },
        _ => None,
    }
}

/// The value of the counter called `name`, if there is one.
fn find_counter(counters: &Vec<(String, u64)>, name: &str) -> (r: Option<u64>)
    ensures
        r == counter(counters@, name@),
{
    let mut i: usize = 0;
    proof {
        assert(counters@.skip(0) =~= counters@);
    }
    while i < counters.len()
        invariant
            i <= counters@.len(),
            counter(counters@, name@) == counter(counters@.skip(i as int), name@),
        decreases counters@.len() - i,
    {
        proof {
            assert(counters@.skip(i as int)[0] == counters@[i as int]);
            assert(counters@.skip(i as int).drop_first() =~= counters@.skip(i + 1));
        }
        if same_text(counters[i].0.as_str(), name) {
            return Some(counters[i].1);
        }
        i += 1;
    }
    None
}

fn saturating_less(a: u64, b: u64) -> (r: u64)
    ensures
        r == less_down_to_zero(a, b),
{
    if a >= b {
        a - b
    } else {
        0
    }
}

fn total_of(cpu: &ContainerCpuStats) -> (r: Option<u64>)
    ensures
        r == cpu_total(*cpu),
{
    match &cpu.cpu_usage {
        Some(usage) => usage.total_usage,
        None => None,
    }
}

fn reclaimable_of(memory: &ContainerMemoryStats) -> (r: u64)
    ensures
        r == reclaimable(*memory),
{
    match &memory.stats {
        Some(counters) => match find_counter(counters, "inactive_file") {
            Some(bytes) => bytes,
            None => 0,
        },
        None => 0,
    }
}

fn count_cpus(cpu: &ContainerCpuStats) -> (r: u64)
    ensures
        r == cpu_count(*cpu),
{
    let said: u64 = match cpu.online_cpus {
        Some(n) => n as u64,
        None => match &cpu.cpu_usage {
            Some(usage) => match &usage.percpu_usage {
                Some(list) => list.len() as u64,
                None => 1,
            },
            None => 1,
        },
    };
    if said >= 1 {
        said
    } else {
        1
    }
}

impl Stats {
    /// Reads a sample off one frame. The daemon puts the reading before into each
    /// frame, so the CPU share is the difference of the two.
    ///
    /// `None` for an incomplete frame (the first one, which has no reading before it, or
    /// that of a stopped container) rather than a made-up number.
    pub fn from_response(resp: ContainerStatsResponse) -> (r: Option<Stats>)
        ensures
            r == stats_sample(resp),
    {
        let (cpu, pre, memory) = match (&resp.cpu_stats, &resp.precpu_stats, &resp.memory_stats) {
            (Some(cpu), Some(pre), Some(memory)) => (cpu, pre, memory),
            _ => {
                return None;
            },
        };
        let (total, system, usage) = match (total_of(cpu), cpu.system_cpu_usage, memory.usage) {
            (Some(total), Some(system), Some(usage)) => (total, system, usage),
            _ => {
                return None;
            },
        };
        let (total_before, system_before) = match (total_of(pre), pre.system_cpu_usage) {
            (Some(total), Some(system)) => (total, system),
            _ => {
                return None;
            },
        };
        Some(
            Stats {
                cpu_delta: saturating_less(total, total_before),
                system_delta: saturating_less(system, system_before),
                cpus: count_cpus(cpu),
                mem_used: saturating_less(usage, reclaimable_of(memory)),
                mem_limit: match memory.limit {
                    Some(limit) => limit,
                    None => 0,
                },
            },
        )
    }

    /// The two numbers whose quotient is the share of one CPU's time, or `None` where
    /// no time passed and the share is zero.
    pub fn cpu_ratio(&self) -> (r: Option<(u64, u64)>)
        ensures
            r == (if self.system_delta > 0 {
                Some((self.cpu_delta, self.system_delta))
            } else {
                None
            }),
    {
        if self.system_delta > 0 {
            Some((self.cpu_delta, self.system_delta))
        } else {
            None
        }
    }

    /// The two numbers whose quotient is the share of the memory limit, or `None` where
    /// there is no limit and the share counts as zero.
    pub fn mem_ratio(&self) -> (r: Option<(u64, u64)>)
        ensures
            r == (if self.mem_limit > 0 {
                Some((self.mem_used, self.mem_limit))
            } else {
                None
            }),
    {
        if self.mem_limit > 0 {
            Some((self.mem_used, self.mem_limit))
        } else {
            None
        }
    }
}

/// A sample comes from a complete frame only, and so never from the first one, which has
/// no totals before it. It counts at least one CPU, no more CPU time than was used in
/// all, and no more memory than is in use.
pub proof fn stats_sample_is_sound(resp: ContainerStatsResponse)
    ensures
        stats_sample(resp) is Some <==> {
            &&& resp.cpu_stats matches Some(cpu)
            &&& resp.precpu_stats matches Some(pre)
            &&& resp.memory_stats matches Some(memory)
            &&& cpu_total(cpu) is Some
            &&& cpu.system_cpu_usage is Some
            &&& cpu_total(pre) is Some
            &&& pre.system_cpu_usage is Some
            &&& memory.usage is Some
        },
        stats_sample(resp) matches Some(stats) ==> {
            &&& stats.cpus >= 1
            &&& stats.cpu_delta <= cpu_total(resp.cpu_stats->0)->0
            &&& stats.system_delta <= resp.cpu_stats->0.system_cpu_usage->0
            &&& stats.mem_used <= resp.memory_stats->0.usage->0
        },
{
}

// ---------------------------------------------------------------------------
// What the readings say, field by field.
// ---------------------------------------------------------------------------
/// A container counts as up while it runs or restarts, and in no other state.
pub proof fn only_running_and_restarting_count_as_up(state: ContainerState)
    ensures
        state.running() <==> state == ContainerState::Running || state == ContainerState::Restarting,
{
}

/// The list and the inspection name the same states, and each stands for the state of its
/// own name; only the empty one stands for none.
pub proof fn states_keep_their_names(listed: SummaryState, inspected: InspectStatus)
    ensures
        summary_state(listed) is Created <==> listed is Created,
        summary_state(listed) is Running <==> listed is Running,
        summary_state(listed) is Paused <==> listed is Paused,
        summary_state(listed) is Restarting <==> listed is Restarting,
        summary_state(listed) is Stopping <==> listed is Stopping,
        summary_state(listed) is Exited <==> listed is Exited,
        summary_state(listed) is Removing <==> listed is Removing,
        summary_state(listed) is Dead <==> listed is Dead,
        summary_state(listed) is Unknown <==> listed is Empty,
        inspect_state(inspected) is Created <==> inspected is Created,
        inspect_state(inspected) is Running <==> inspected is Running,
        inspect_state(inspected) is Paused <==> inspected is Paused,
        inspect_state(inspected) is Restarting <==> inspected is Restarting,
        inspect_state(inspected) is Stopping <==> inspected is Stopping,
        inspect_state(inspected) is Exited <==> inspected is Exited,
        inspect_state(inspected) is Removing <==> inspected is Removing,
        inspect_state(inspected) is Dead <==> inspected is Dead,
        inspect_state(inspected) is Unknown <==> inspected is Empty,
{
}

/// Whether a listed port is the published mapping `port`: the same two numbers, and the
/// protocol that it names, TCP where it names none.
pub open spec fn lists_port(summary: PortSummary, port: Port) -> bool {
    &&& summary.public_port == Some(port.public)
    &&& summary.private_port == port.private
    &&& port.protocol is Udp <==> summary.typ == Some(PortType::Udp)
    &&& port.protocol is Sctp <==> summary.typ == Some(PortType::Sctp)
}

/// A container lists a port exactly if one of the daemon's entries publishes it.
pub proof fn container_lists_what_is_published(summary: ContainerSummary, port: Port)
    requires
        summary.id is Some,
    ensures
        summary_container(summary)->0.ports.contains(port) <==> summary.ports is Some && exists|
            i: int,
        |
            0 <= i < summary.ports->0@.len() && lists_port(#[trigger] summary.ports->0@[i], port),
{
    if summary.ports is Some {
        let all = summary.ports->0@;
        only_published_ports_are_listed(all, port);
        assert forall|i: int| 0 <= i < all.len() implies (published_port(#[trigger] all[i]) == Some(
            port,
        ) <==> lists_port(all[i], port)) by {}
        if exists|i: int| 0 <= i < all.len() && lists_port(#[trigger] all[i], port) {
            let i = choose|i: int| 0 <= i < all.len() && lists_port(#[trigger] all[i], port);
            assert(published_port(all[i]) == Some(port));
        }
    }
}

/// Whether ports stand by public port and then by private port, and none twice.
pub open spec fn ports_tidy(ports: Seq<Port>) -> bool {
    forall|i: int, j: int|
        0 <= i < j < ports.len() ==> {
            let (a, b) = (#[trigger] ports[i], #[trigger] ports[j]);
            &&& a != b
            &&& a.public <= b.public
            &&& a.public == b.public ==> a.private <= b.private
        }
}

/// The ports of a container, listed or inspected, stand by public port and then by
/// private port, and none twice.
pub proof fn container_ports_are_tidy(summary: ContainerSummary, resp: ContainerInspectResponse)
    ensures
        summary_container(summary) matches Some(container) ==> ports_tidy(container.ports),
        ports_tidy(inspect_detail(resp).ports),
{
    if summary.ports is Some {
        port_list_is_tidy(published_ports(summary.ports->0@));
    }
    if resp.network_settings is Some && resp.network_settings->0.ports is Some {
        port_list_is_tidy(bound_ports(resp.network_settings->0.ports->0@));
    }
}

/// A container has the image, the state and the status that its summary gives, or says
/// that they are not known. Its name is the first one without its slashes, or else the
/// first twelve characters of its id.
pub proof fn container_keeps_what_its_summary_says(
    summary: ContainerSummary,
    slashes: Seq<char>,
    name: Seq<char>,
)
    requires
        summary.id is Some,
        forall|i: int| 0 <= i < slashes.len() ==> slashes[i] == '/',
        name.len() > 0 ==> name[0] != '/',
    ensures
        ({
            let container = summary_container(summary)->0;
            let id = summary.id->0@;
            &&& container.id == id
            &&& summary.image is Some ==> container.image == summary.image->0@
            &&& summary.image is None ==> container.image == "<unknown>"@
            &&& summary.status is Some ==> container.status == summary.status->0@
            &&& summary.status is None ==> container.status.len() == 0
            &&& summary.state == Some(SummaryState::Running) <==> container.state is Running
            &&& summary.state is None ==> container.state is Unknown
            &&& summary.state is Some ==> container.state == summary_state(summary.state->0)
            &&& summary.names is Some && summary.names->0@.len() > 0 && summary.names->0@[0]@
                == slashes + name ==> container.name == name
            &&& summary.names is None || summary.names->0@.len() == 0 ==> {
                &&& container.name.len() <= 12 && container.name.len() <= id.len()
                &&& container.name.len() == 12 || container.name.len() == id.len()
                &&& container.name == id.take(container.name.len() as int)
            }
        }),
{
    only_leading_slashes_go(slashes, name);
    let id = summary.id->0@;
    assert(id.take(id.len() as int) =~= id);
}

/// A port key is a number, a slash and the name of a protocol; the number is read, and a
/// name that is neither "udp" nor "sctp" means TCP. Without a slash, or with anything
/// else in front of the first one, it is no key.
pub proof fn port_key_is_number_and_protocol(n: u16, head: Seq<char>, name: Seq<char>)
    ensures
        port_key(decimal(n as nat) + seq!['/'] + name) matches Some((private, protocol)) && {
            &&& private == n
            &&& protocol is Udp <==> name == "udp"@
            &&& protocol is Sctp <==> name == "sctp"@
        },
        !head.contains('/') ==> port_key(head) is None,
        !head.contains('/') ==> (port_key(head + seq!['/'] + name) is Some <==> u16_text(
            head,
        ) is Some),
{
    let digits = decimal(n as nat);
    decimal_reads_back(n as nat);
    small_numbers_can_be_read(n as nat);
    if digits.contains('/') {
        let k = choose|k: int| 0 <= k < digits.len() && digits[k] == '/';
        assert('0' <= digits[k] <= '9');
    }
    cut_takes_one_character_out(digits, '/', name);
    reveal_strlit("udp");
    reveal_strlit("sctp");
    assert("udp"@.len() != "sctp"@.len());
    if !head.contains('/') {
        cut_takes_one_character_out(head, '/', name);
    }
}

/// Whether `text` at a binding writes a port number.
pub open spec fn names_host_port(binding: PortBinding, port: u16) -> bool {
    binding.host_port is Some && u16_text(binding.host_port->0@) == Some(port)
}

/// The host port of a port is that of the first of its bindings that names one: those
/// before it name none, and where none does there is none.
pub proof fn first_named_host_port_counts(bindings: Seq<PortBinding>, port: u16)
    ensures
        first_host_port(bindings) == Some(port) <==> exists|i: int|
            0 <= i < bindings.len() && names_host_port(#[trigger] bindings[i], port) && forall|
                j: int,
                other: u16,
            |
                0 <= j < i ==> !#[trigger] names_host_port(bindings[j], other),
    decreases bindings.len(),
{
    if bindings.len() > 0 {
        let rest = bindings.drop_first();
        first_named_host_port_counts(rest, port);
        if first_host_port(bindings) == Some(port) {
            if host_port(bindings[0]) is Some {
                assert(names_host_port(bindings[0], port));
            } else {
                let i = choose|i: int|
                    0 <= i < rest.len() && names_host_port(#[trigger] rest[i], port) && forall|
                        j: int,
                        other: u16,
                    |
                        0 <= j < i ==> !#[trigger] names_host_port(rest[j], other);
                assert(names_host_port(bindings[i + 1], port));
                assert forall|j: int, other: u16|
                    0 <= j < i + 1 implies !#[trigger] names_host_port(bindings[j], other) by {
                    if j > 0 {
                        assert(!names_host_port(rest[j - 1], other));
                    }
                }
            }
        }
        if exists|i: int|
            0 <= i < bindings.len() && names_host_port(#[trigger] bindings[i], port) && forall|
                j: int,
                other: u16,
            |
                0 <= j < i ==> !#[trigger] names_host_port(bindings[j], other) {
            let i = choose|i: int|
                0 <= i < bindings.len() && names_host_port(#[trigger] bindings[i], port) && forall|
                    j: int,
                    other: u16,
                |
                    0 <= j < i ==> !#[trigger] names_host_port(bindings[j], other);
            if i > 0 {
                if host_port(bindings[0]) is Some {
                    assert(names_host_port(bindings[0], host_port(bindings[0])->0));
                }
                assert(names_host_port(rest[i - 1], port));
                assert forall|j: int, other: u16|
                    0 <= j < i - 1 implies !#[trigger] names_host_port(rest[j], other) by {
                    assert(!names_host_port(bindings[j + 1], other));
                }
            }
        }
    }
}

/// An inspected container lists a port exactly if an entry has a key that says its
/// private number and protocol, and bindings whose first host port is its public number.
pub proof fn inspection_lists_what_is_bound(resp: ContainerInspectResponse, port: Port)
    ensures
        inspect_detail(resp).ports.contains(port) <==> {
            &&& resp.network_settings is Some
            &&& resp.network_settings->0.ports is Some
            &&& exists|i: int|
                0 <= i < resp.network_settings->0.ports->0@.len() && {
                    let entry = #[trigger] resp.network_settings->0.ports->0@[i];
                    &&& port_key(entry.0@) == Some((port.private, port.protocol))
                    &&& entry.1 is Some
                    &&& first_host_port(entry.1->0@) == Some(port.public)
                }
        },
{
    if resp.network_settings is Some && resp.network_settings->0.ports is Some {
        let entries = resp.network_settings->0.ports->0@;
        port_list_is_tidy(bound_ports(entries));
        lemma_filter_map_holds(
            entries,
            |entry: (String, Option<Vec<PortBinding>>)| bound_port(entry),
            port,
        );
        if exists|i: int|
            0 <= i < entries.len() && {
                let entry = #[trigger] entries[i];
                &&& port_key(entry.0@) == Some((port.private, port.protocol))
                &&& entry.1 is Some
                &&& first_host_port(entry.1->0@) == Some(port.public)
            } {
            let i = choose|i: int|
                0 <= i < entries.len() && {
                    let entry = #[trigger] entries[i];
                    &&& port_key(entry.0@) == Some((port.private, port.protocol))
                    &&& entry.1 is Some
                    &&& first_host_port(entry.1->0@) == Some(port.public)
                };
            assert(bound_port(entries[i]) == Some(port));
        }
    }
}

/// How many strings an optional list holds.
pub open spec fn parts_in(list: Option<Vec<String>>) -> nat {
    if list is Some {
        list->0@.len()
    } else {
        0
    }
}

/// The command of an inspection is there exactly if its entrypoint or its cmd, either one
/// alone, holds a part; and then it is the parts of the entrypoint followed by those of
/// the cmd, with single spaces between them.
pub proof fn command_is_entrypoint_then_cmd(
    resp: ContainerInspectResponse,
    parts: Seq<Seq<char>>,
)
    requires
        resp.config is Some,
        parts.len() == parts_in(resp.config->0.entrypoint) + parts_in(resp.config->0.cmd),
        forall|i: int|
            0 <= i < parts_in(resp.config->0.entrypoint) ==> parts[i]
                == #[trigger] resp.config->0.entrypoint->0@[i]@,
        forall|i: int|
            0 <= i < parts_in(resp.config->0.cmd) ==> parts[i + parts_in(
                resp.config->0.entrypoint,
            )] == #[trigger] resp.config->0.cmd->0@[i]@,
    ensures
        inspect_detail(resp).command is Some <==> parts.len() > 0,
        inspect_detail(resp).command matches Some(command) ==> command == joined(parts, " "@),
{
    let config = resp.config->0;
    let all = list_texts(config.entrypoint) + list_texts(config.cmd);
    let n = parts_in(config.entrypoint) as int;
    assert forall|i: int| 0 <= i < parts.len() implies #[trigger] parts[i] == all[i] by {
        if i < n {
            assert(parts[i] == config.entrypoint->0@[i]@);
        } else {
            assert(parts[i - n + n] == config.cmd->0@[i - n]@);
        }
    }
    assert(parts =~= all);
}

/// Without a configuration there is no command. The creation time is the daemon's; the
/// start time too, but only of a container that the daemon says is running. The state is
/// the one that the status names.
pub proof fn inspection_keeps_what_the_daemon_says(resp: ContainerInspectResponse)
    ensures
        ({
            let detail = inspect_detail(resp);
            &&& resp.config is None ==> detail.command is None
            &&& detail.created is Some <==> resp.created is Some
            &&& resp.created is Some ==> detail.created == Some(resp.created->0@)
            &&& detail.started_at is Some <==> {
                &&& resp.state matches Some(state)
                &&& state.running == Some(true)
                &&& state.started_at is Some
            }
            &&& detail.started_at is Some ==> detail.started_at == Some(
                resp.state->0.started_at->0@,
            )
            &&& resp.state is Some && resp.state->0.status is Some ==> detail.state
                == inspect_state(resp.state->0.status->0)
            &&& resp.state is None || resp.state->0.status is None ==> detail.state is Unknown
        }),
{
}

/// Whether a memory reading holds the counter `name` with the value `bytes`: at `i`, and
/// not before.
pub open spec fn counted(
    memory: ContainerMemoryStats,
    name: Seq<char>,
    bytes: u64,
    i: int,
) -> bool {
    &&& memory.stats is Some
    &&& 0 <= i < memory.stats->0@.len()
    &&& memory.stats->0@[i].0@ == name
    &&& memory.stats->0@[i].1 == bytes
    &&& forall|j: int| 0 <= j < i ==> (#[trigger] memory.stats->0@[j]).0@ != name
}

/// Whether a memory reading does not hold the counter `name`.
pub open spec fn not_counted(memory: ContainerMemoryStats, name: Seq<char>) -> bool {
    memory.stats is None || forall|j: int|
        0 <= j < memory.stats->0@.len() ==> (#[trigger] memory.stats->0@[j]).0@ != name
}

proof fn lemma_counter(counters: Seq<(String, u64)>, name: Seq<char>, i: int)
    requires
        0 <= i <= counters.len(),
        forall|j: int| 0 <= j < i ==> (#[trigger] counters[j]).0@ != name,
        i < counters.len() ==> counters[i].0@ == name,
    ensures
        counter(counters, name) == if i < counters.len() {
            Some(counters[i].1)
        } else {
            None
        },
    decreases counters.len(),
{
    if i > 0 {
        let rest = counters.drop_first();
        assert forall|j: int| 0 <= j < i - 1 implies (#[trigger] rest[j]).0@ != name by {
            assert(rest[j] == counters[j + 1]);
        }
        assert(counters[0].0@ != name);
        lemma_counter(rest, name, i - 1);
    }
}

/// The memory in a sample and the reclaimable page cache, which is the counter
/// "inactive_file", make up the memory in use. Without that counter the sample is all
/// that is in use; a counter larger than that leaves nothing. The limit is the daemon's,
/// or zero.
pub proof fn sampled_memory_leaves_the_reclaimable_out(
    resp: ContainerStatsResponse,
    inactive: u64,
    i: int,
)
    requires
        stats_sample(resp) is Some,
        counted(resp.memory_stats->0, "inactive_file"@, inactive, i) || (not_counted(
            resp.memory_stats->0,
            "inactive_file"@,
        ) && inactive == 0),
    ensures
        ({
            let memory = resp.memory_stats->0;
            let stats = stats_sample(resp)->0;
            &&& memory.usage->0 >= inactive ==> stats.mem_used + inactive == memory.usage->0
            &&& memory.usage->0 < inactive ==> stats.mem_used == 0
            &&& memory.limit is Some ==> stats.mem_limit == memory.limit->0
            &&& memory.limit is None ==> stats.mem_limit == 0
        }),
{
    let memory = resp.memory_stats->0;
    if counted(memory, "inactive_file"@, inactive, i) {
        lemma_counter(memory.stats->0@, "inactive_file"@, i);
    } else if memory.stats is Some {
        lemma_counter(memory.stats->0@, "inactive_file"@, memory.stats->0@.len() as int);
    }
}

/// Two frames that agree in all but their memory counters, and there in the reclaimable
/// page cache, give one sample: no other counter changes it.
pub proof fn other_counters_change_nothing(
    a: ContainerStatsResponse,
    b: ContainerStatsResponse,
    inactive: u64,
    i: int,
    j: int,
)
    requires
        a.cpu_stats == b.cpu_stats,
        a.precpu_stats == b.precpu_stats,
        a.memory_stats is Some && b.memory_stats is Some,
        a.memory_stats->0.usage == b.memory_stats->0.usage,
        a.memory_stats->0.limit == b.memory_stats->0.limit,
        counted(a.memory_stats->0, "inactive_file"@, inactive, i) || (not_counted(
            a.memory_stats->0,
            "inactive_file"@,
        ) && inactive == 0),
        counted(b.memory_stats->0, "inactive_file"@, inactive, j) || (not_counted(
            b.memory_stats->0,
            "inactive_file"@,
        ) && inactive == 0),
    ensures
        stats_sample(a) == stats_sample(b),
{
    if stats_sample(a) is Some {
        sampled_memory_leaves_the_reclaimable_out(a, inactive, i);
        sampled_memory_leaves_the_reclaimable_out(b, inactive, j);
    }
}

/// The CPU time in a sample and the total before it make up the total, for the container
/// and for the system; a total that went back counts as no time. The CPUs are those that
/// are online, or else those listed one by one, or else one.
pub proof fn sampled_cpu_time_is_the_difference(resp: ContainerStatsResponse)
    requires
        stats_sample(resp) is Some,
    ensures
        ({
            let stats = stats_sample(resp)->0;
            let cpu = resp.cpu_stats->0;
            let pre = resp.precpu_stats->0;
            let (now, before) = (cpu.cpu_usage->0.total_usage->0, pre.cpu_usage->0.total_usage->0);
            let (system, earlier) = (cpu.system_cpu_usage->0, pre.system_cpu_usage->0);
            let list = cpu.cpu_usage->0.percpu_usage;
            &&& now >= before ==> stats.cpu_delta + before == now
            &&& now < before ==> stats.cpu_delta == 0
            &&& system >= earlier ==> stats.system_delta + earlier == system
            &&& system < earlier ==> stats.system_delta == 0
            &&& cpu.online_cpus is Some && cpu.online_cpus->0 > 0 ==> stats.cpus
                == cpu.online_cpus->0
            &&& cpu.online_cpus is None && list is Some && 0 < list->0@.len() <= u64::MAX
                ==> stats.cpus == list->0@.len()
            &&& cpu.online_cpus is None && (list is None || list->0@.len() == 0) ==> stats.cpus == 1
            &&& cpu.online_cpus == Some(0u32) ==> stats.cpus == 1
        }),
{
}

/// A frame gives a sample exactly if it has both totals of both readings and the memory
/// in use.
pub proof fn complete_frames_give_samples(resp: ContainerStatsResponse)
    ensures
        stats_sample(resp) is Some <==> {
            &&& resp.cpu_stats matches Some(cpu)
            &&& cpu.cpu_usage is Some && cpu.cpu_usage->0.total_usage is Some
            &&& cpu.system_cpu_usage is Some
            &&& resp.precpu_stats matches Some(pre)
            &&& pre.cpu_usage is Some && pre.cpu_usage->0.total_usage is Some
            &&& pre.system_cpu_usage is Some
            &&& resp.memory_stats matches Some(memory)
            &&& memory.usage is Some
        },
{
}

} // verus!
