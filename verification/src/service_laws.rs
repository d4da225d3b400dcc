//! What the table holds for the services of the cluster, told from the services and from the
//! endpoints as they are announced.

use crate::balance::{
    all_return_lines, balance_lines, direct_line, law_exactly_the_endpoints, return_lines, sends_to,
    service_group, share_line, Affinity, FrontView, GroupView,
};
use crate::nat_table::{
    cluster_front, cluster_lines, nat_lines, node_front, node_lines, port_blocks, section, selected,
    service_affinity, service_lines, serving, serving_endpoints, slice_views, without_name,
    NatSettings, SliceEndpoint,
};
use crate::port_laws::lemma_four_to_an_endpoint;
use crate::rule::{LineView, MatchingView, RuleView, TargetView};
use crate::service::{service_views, IntOrString, Service, ServicePort};
use crate::text::{concat, decimal, lemma_concat_push, lowercase, option_text, without};
use crate::text_laws::{denotes, law_port_number};
use vstd::prelude::*;

verus! {

// ---------------------------------------------------------------------------
// Which endpoints are meant
// ---------------------------------------------------------------------------

/// Whether the target port of a service port is this one: as a number, taken modulo 65536, or as
/// a text that denotes it.
pub open spec fn is_target(port: ServicePort, number: u16) -> bool {
    match port.target_port {
        Some(IntOrString::Int(i)) => number as int == (i as int) % 65536,
        Some(IntOrString::String(text)) => denotes(text@, number as int),
        None => false,
    }
}

/// Whether an announced endpoint is meant for a port of the service: both have the same name,
/// or the endpoint has the target port, or the port of the service, or the service has no other
/// port.
pub open spec fn is_meant(service: Service, port: ServicePort, endpoint: SliceEndpoint) -> bool {
    ||| (port.name matches Some(wanted) && (endpoint.1 matches Some(given) && given@ == wanted@))
    ||| is_target(port, endpoint.2)
    ||| endpoint.2 == port.port
    ||| service.spec.ports@.len() == 1
}

/// The key under which the endpoints of a service are announced.
pub open spec fn announced_under(service: Service) -> Seq<char> {
    (match service.metadata.namespace {
        Some(namespace) => namespace@,
        None => "default"@,
    }) + "/"@ + service.metadata.name@
}

/// What is announced for a service.
pub open spec fn announced(
    service: Service,
    slices: Map<Seq<char>, Vec<SliceEndpoint>>,
) -> Seq<SliceEndpoint> {
    if slices.contains_key(announced_under(service)) {
        slices[announced_under(service)]@
    } else {
        Seq::empty()
    }
}

/// Of one endpoint more, a service port takes its address and its port exactly where the endpoint
/// is meant for it, behind those that it took before. Of none it takes none.
pub proof fn law_meant_endpoints_are_taken(
    service: Service,
    port: ServicePort,
    before: Seq<SliceEndpoint>,
    endpoint: SliceEndpoint,
)
    ensures
        ({
            let taken = |list: Seq<SliceEndpoint>|
                serving_endpoints(service@, port@, slice_views(list));
            &&& taken(Seq::empty()) == Seq::<(Seq<char>, u16)>::empty()
            &&& is_meant(service, port, endpoint) ==> taken(before.push(endpoint)) == taken(
                before,
            ).push((endpoint.0@, endpoint.2))
            &&& !is_meant(service, port, endpoint) ==> taken(before.push(endpoint)) == taken(before)
        }),
{
    let view = (endpoint.0@, option_text(endpoint.1), endpoint.2);
    let pred = serving(service@, port@);
    let strip = |e: (Seq<char>, Option<Seq<char>>, u16)| without_name(e);
    let old_views = slice_views(before);
    assert(slice_views(before.push(endpoint)) =~= old_views.push(view));
    assert(slice_views(Seq::empty()) =~= Seq::empty());
    if let Some(IntOrString::String(text)) = port.target_port {
        law_port_number(text@, endpoint.2);
    }
    assert(is_target(port, endpoint.2) == (port@.target() == Some(endpoint.2)));
    assert(pred(view) == is_meant(service, port, endpoint));
    reveal(Seq::filter);
    assert(old_views.push(view).drop_last() =~= old_views);
    let kept = old_views.filter(pred);
    assert(kept.push(view).map_values(strip) =~= kept.map_values(strip).push(strip(view)));
    assert(Seq::<(Seq<char>, Option<Seq<char>>, u16)>::empty().filter(pred) =~= Seq::empty());
    assert(serving_endpoints(service@, port@, slice_views(Seq::empty())) =~= Seq::empty());
}

/// The endpoints of a service port are those that are meant for it among those that are announced
/// under the namespace, or `default`, and the name of the service, and no others.
pub proof fn law_selected_endpoints(
    service: Service,
    port: ServicePort,
    slices: Map<Seq<char>, Vec<SliceEndpoint>>,
    ip: Seq<char>,
    number: u16,
)
    ensures
        ({
            let list = announced(service, slices);
            &&& selected(service@, port@, slices) == serving_endpoints(
                service@,
                port@,
                slice_views(list),
            )
            &&& selected(service@, port@, slices).contains((ip, number)) <==> exists|j: int|
                0 <= j < list.len() && #[trigger] list[j].0@ == ip && list[j].2 == number
                    && is_meant(service, port, list[j])
        }),
{
    let list = announced(service, slices);
    if !slices.contains_key(announced_under(service)) {
        law_meant_endpoints_are_taken(service, port, Seq::empty(), arbitrary());
    }
    lemma_taken(service, port, list, ip, number);
}

proof fn lemma_taken(
    service: Service,
    port: ServicePort,
    list: Seq<SliceEndpoint>,
    ip: Seq<char>,
    number: u16,
)
    ensures
        serving_endpoints(service@, port@, slice_views(list)).contains(
            (ip, number),
        ) <==> exists|j: int|
            0 <= j < list.len() && #[trigger] list[j].0@ == ip && list[j].2 == number && is_meant(
                service,
                port,
                list[j],
            ),
    decreases list.len(),
{
    let taken = serving_endpoints(service@, port@, slice_views(list));
    if list.len() == 0 {
        law_meant_endpoints_are_taken(service, port, list, arbitrary());
        assert(list =~= Seq::empty());
    } else {
        let before = list.drop_last();
        let last = list.last();
        assert(before.push(last) =~= list);
        law_meant_endpoints_are_taken(service, port, before, last);
        lemma_taken(service, port, before, ip, number);
        let earlier = serving_endpoints(service@, port@, slice_views(before));
        if taken.contains((ip, number)) {
            let i = choose|i: int| 0 <= i < taken.len() && taken[i] == (ip, number);
            if i < earlier.len() {
                assert(earlier[i] == (ip, number));
                let j = choose|j: int|
                    0 <= j < before.len() && #[trigger] before[j].0@ == ip && before[j].2 == number
                        && is_meant(service, port, before[j]);
                assert(list[j].0@ == ip && list[j] == before[j]);
            } else {
                assert(list[list.len() - 1].0@ == ip);
            }
        }
        if exists|j: int|
            0 <= j < list.len() && #[trigger] list[j].0@ == ip && list[j].2 == number && is_meant(
                service,
                port,
                list[j],
            ) {
            let j = choose|j: int|
                0 <= j < list.len() && #[trigger] list[j].0@ == ip && list[j].2 == number
                    && is_meant(service, port, list[j]);
            if j < before.len() {
                assert(before[j].0@ == ip && before[j] == list[j]);
                let i = choose|i: int| 0 <= i < earlier.len() && earlier[i] == (ip, number);
                assert(taken[i] == (ip, number));
            } else {
                assert(taken[taken.len() - 1] == (ip, number));
            }
        }
    }
}

// ---------------------------------------------------------------------------
// What the lines of a port hold
// ---------------------------------------------------------------------------

/// How clients are kept at their endpoint.
pub enum Kept {
    /// They are not.
    Not,
    /// They are remembered for some seconds.
    Remembered { seconds: int },
    /// Their connections are marked.
    Marked,
}

/// How the clients of a service are kept at `n` endpoints: not unless the service asks for it by
/// `ClientIP`, there are several endpoints and the kernel can do it; by memory where it can.
pub open spec fn kept_at(m: NatSettings, service: Service, n: nat) -> Kept {
    let asked = service.spec.session_affinity matches Some(affinity) && affinity@ == "ClientIP"@;
    let seconds = match service.spec.session_affinity_config {
        Some(config) => match config.client_ip {
            Some(client) => match client.timeout_seconds {
                Some(seconds) => seconds as int,
                None => 10800,
            },
            None => 10800,
        },
        None => 10800,
    };
    if !asked || n < 2 {
        Kept::Not
    } else if m.recent_available {
        Kept::Remembered { seconds }
    } else if m.hashlimit_available {
        Kept::Marked
    } else {
        Kept::Not
    }
}

/// What the lines of one service port are to hold.
pub struct LinePlan {
    /// The chain that takes the traffic.
    pub chain: Seq<char>,
    /// The address that the traffic goes to, if only one is meant.
    pub destination: Option<Seq<char>>,
    /// The protocol of the traffic.
    pub protocol: Seq<char>,
    /// The port that the traffic goes to.
    pub dport: nat,
    /// Where the traffic is to go.
    pub endpoints: Seq<(Seq<char>, u16)>,
    /// How clients are kept.
    pub kept: Kept,
    /// How the chains of the endpoints are named, in front of their number.
    pub chain_prefix: Seq<char>,
    /// How the client lists of the endpoints are named, in front of their number.
    pub list_prefix: Seq<char>,
    /// The comment of rules that send traffic to an endpoint at once.
    pub comment: Option<Seq<char>>,
}

impl LinePlan {
    /// A rule for the traffic of the port.
    pub open spec fn rule(
        self,
        matching: MatchingView,
        target: TargetView,
        comment: Option<Seq<char>>,
    ) -> LineView {
        LineView::Append(
            RuleView {
                chain: self.chain,
                destination: self.destination,
                protocol: Some(self.protocol),
                dport: Some(self.dport),
                matching,
                target,
                comment,
            },
        )
    }

    /// A rule in the chain of endpoint `i`.
    pub open spec fn inner(
        self,
        i: int,
        protocol: Option<Seq<char>>,
        matching: MatchingView,
        target: TargetView,
    ) -> LineView {
        LineView::Append(
            RuleView {
                chain: self.chain_prefix + decimal(i as nat),
                destination: None,
                protocol,
                dport: None,
                matching,
                target,
                comment: None,
            },
        )
    }

    /// The dice for endpoint `i`: one packet in as many as there are endpoints left, and every
    /// packet for the last one.
    pub open spec fn dice(self, i: int) -> MatchingView {
        if i + 1 == self.endpoints.len() {
            MatchingView::Any
        } else {
            MatchingView::Statistic { weight: (self.endpoints.len() - i) as nat }
        }
    }

    /// What sends a packet to endpoint `i`.
    pub open spec fn goal(self, i: int) -> TargetView {
        TargetView::Dnat { ip: self.endpoints[i].0, port: self.endpoints[i].1 as nat }
    }

    /// What leads to the chain of endpoint `i`.
    pub open spec fn jump(self, i: int) -> TargetView {
        TargetView::Jump { chain: self.chain_prefix + decimal(i as nat) }
    }

    /// The rule that brings clients back to endpoint `i`.
    pub open spec fn back(self, i: int) -> LineView {
        self.rule(
            match self.kept {
                Kept::Remembered { seconds } => MatchingView::RecentCheck {
                    name: self.list_prefix + decimal(i as nat),
                    seconds,
                },
                Kept::Marked => MatchingView::Connmark { mark: (0x4000 + i) as nat },
                Kept::Not => MatchingView::Any,
            },
            self.jump(i),
            None,
        )
    }

    /// The rule that notes at which endpoint a client is.
    pub open spec fn note(self, i: int) -> LineView {
        match self.kept {
            Kept::Marked => self.inner(
                i,
                None,
                MatchingView::Any,
                TargetView::SetMark { mark: (0x4000 + i) as nat },
            ),
            _ => self.inner(
                i,
                None,
                MatchingView::RecentSet { name: self.list_prefix + decimal(i as nat) },
                TargetView::Continue,
            ),
        }
    }

    /// Whether the lines send the traffic straight to the endpoints, each with its dice.
    pub open spec fn direct(self, lines: Seq<LineView>) -> bool {
        &&& lines.len() == self.endpoints.len()
        &&& forall|i: int|
            0 <= i < self.endpoints.len() ==> #[trigger] lines[i] == self.rule(
                self.dice(i),
                self.goal(i),
                self.comment,
            )
    }

    /// Whether the lines from `at` on throw the dice, each for the chain of its endpoint.
    pub open spec fn drawn(self, lines: Seq<LineView>, at: int) -> bool {
        &&& lines.len() == at + self.endpoints.len()
        &&& forall|i: int|
            0 <= i < self.endpoints.len() ==> #[trigger] lines[at + i] == self.rule(
                self.dice(i),
                self.jump(i),
                None,
            )
    }

    /// Whether the lines declare and fill the chain of each endpoint, bring clients back to it,
    /// and then throw the dice.
    pub open spec fn with_chains(self, lines: Seq<LineView>) -> bool {
        let n = self.endpoints.len() as int;
        &&& self.drawn(lines, 4 * n)
        &&& forall|i: int| 0 <= i < n ==> #[trigger] self.at_endpoint(lines, i)
    }

    /// Whether the four lines of endpoint `i` stand in their place.
    pub open spec fn at_endpoint(self, lines: Seq<LineView>, i: int) -> bool {
        &&& lines[4 * i] == LineView::Chain(self.chain_prefix + decimal(i as nat))
        &&& lines[4 * i + 1] == self.note(i)
        &&& lines[4 * i + 2] == self.inner(
            i,
            Some(self.protocol),
            MatchingView::Any,
            self.goal(i),
        )
        &&& lines[4 * i + 3] == self.back(i)
    }

    /// Whether the lines bring clients back to each endpoint, and then throw the dice.
    pub open spec fn without_chains(self, lines: Seq<LineView>) -> bool {
        let n = self.endpoints.len() as int;
        &&& self.drawn(lines, n)
        &&& forall|i: int| 0 <= i < n ==> #[trigger] lines[i] == self.back(i)
    }

    /// Whether the lines are those of the plan.
    pub open spec fn met_by(self, lines: Seq<LineView>, chains: bool) -> bool {
        match self.kept {
            Kept::Not => self.direct(lines),
            _ => if chains {
                self.with_chains(lines)
            } else {
                self.without_chains(lines)
            },
        }
    }
}

/// The address of a service: none where it is absent, empty or the word `None`.
pub open spec fn has_address(service: Service, ip: Seq<char>) -> bool {
    service.spec.cluster_ip matches Some(text) && text@ == ip && ip.len() > 0 && ip != "None"@
}

/// The protocol of a service port in lower case, that of TCP where none is given.
pub open spec fn spoken(port: ServicePort) -> Seq<char> {
    match port.protocol {
        Some(protocol) => lowercase(protocol@),
        None => lowercase("TCP"@),
    }
}

/// What the lines for the address of a service are to hold, for its port `k`.
pub open spec fn address_lines(
    m: NatSettings,
    service: Service,
    k: int,
    ip: Seq<char>,
    endpoints: Seq<(Seq<char>, u16)>,
) -> LinePlan {
    let port = service.spec.ports@[k];
    LinePlan {
        chain: m.services_chain,
        destination: Some(ip + "/32"@),
        protocol: spoken(port),
        dport: port.port as nat,
        endpoints,
        kept: kept_at(m, service, endpoints.len()),
        chain_prefix: "KUBE-SEP-"@ + without(ip, '.') + "-"@ + decimal(port.port as nat) + "-"@,
        list_prefix: "AFFINITY-"@ + without(ip, '.') + "-"@ + decimal(port.port as nat) + "-"@,
        comment: Some("rusternetes service "@ + ip + ":"@ + decimal(port.port as nat)),
    }
}

/// What the lines for a node port are to hold: as for the address, but in the chain of node
/// ports, for the node port, at every address and without a comment.
pub open spec fn node_port_lines(
    m: NatSettings,
    service: Service,
    k: int,
    ip: Seq<char>,
    endpoints: Seq<(Seq<char>, u16)>,
    node_port: u16,
) -> LinePlan {
    LinePlan {
        chain: m.nodeports_chain,
        destination: None,
        dport: node_port as nat,
        comment: None,
        ..address_lines(m, service, k, ip, endpoints)
    }
}

proof fn lemma_line_plan(
    plan: LinePlan,
    front: FrontView,
    group: GroupView,
    affinity: Affinity,
    chains: bool,
)
    requires
        plan.chain == front.chain,
        plan.destination == front.destination,
        plan.protocol == front.protocol,
        plan.dport == front.dport,
        plan.comment == front.comment,
        plan.chain_prefix == group.chain_prefix,
        plan.list_prefix == group.list_prefix,
        match plan.kept {
            Kept::Not => affinity is Off,
            Kept::Remembered { seconds } => affinity matches Affinity::Recent { seconds: s }
                && s as int == seconds,
            Kept::Marked => affinity is Connmark,
        },
    ensures
        plan.met_by(balance_lines(front, group, affinity, plan.endpoints, chains), chains),
{
    let endpoints = plan.endpoints;
    let n = endpoints.len() as int;
    let lines = balance_lines(front, group, affinity, endpoints, chains);
    if affinity is Off {
        assert forall|i: int| 0 <= i < n implies #[trigger] lines[i] == plan.rule(
            plan.dice(i),
            plan.goal(i),
            plan.comment,
        ) by {
            assert(lines[i] == direct_line(front, endpoints, i as nat));
        }
    } else {
        let comebacks = all_return_lines(front, group, affinity, endpoints, chains, n as nat);
        if chains {
            if n > 0 {
                lemma_four_to_an_endpoint(front, group, affinity, endpoints, n as nat, 0, 0);
            } else {
                assert(comebacks.len() == 0);
            }
            assert forall|i: int| 0 <= i < n implies #[trigger] plan.at_endpoint(lines, i) by {
                let block = return_lines(front, group, affinity, endpoints, true, i as nat);
                lemma_four_to_an_endpoint(front, group, affinity, endpoints, n as nat, i as nat, 0);
                lemma_four_to_an_endpoint(front, group, affinity, endpoints, n as nat, i as nat, 1);
                lemma_four_to_an_endpoint(front, group, affinity, endpoints, n as nat, i as nat, 2);
                lemma_four_to_an_endpoint(front, group, affinity, endpoints, n as nat, i as nat, 3);
                assert(lines[4 * i] == block[0]);
                assert(lines[4 * i + 1] == block[1]);
                assert(lines[4 * i + 2] == block[2]);
                assert(lines[4 * i + 3] == block[3]);
            }
            assert(comebacks.len() == 4 * n);
            assert forall|i: int| 0 <= i < n implies #[trigger] lines[4 * n + i] == plan.rule(
                plan.dice(i),
                plan.jump(i),
                None,
            ) by {
                assert(lines[4 * n + i] == share_line(front, group, n as nat, i as nat));
            }
        } else {
            lemma_one_to_an_endpoint(front, group, affinity, endpoints, n as nat);
            assert forall|i: int| 0 <= i < n implies #[trigger] lines[i] == plan.back(i) by {
                assert(lines[i] == comebacks[i]);
            }
            assert forall|i: int| 0 <= i < n implies #[trigger] lines[n + i] == plan.rule(
                plan.dice(i),
                plan.jump(i),
                None,
            ) by {
                assert(lines[n + i] == share_line(front, group, n as nat, i as nat));
            }
        }
    }
}

proof fn lemma_one_to_an_endpoint(
    front: FrontView,
    group: GroupView,
    affinity: Affinity,
    endpoints: Seq<(Seq<char>, u16)>,
    n: nat,
)
    ensures
        ({
            let lines = all_return_lines(front, group, affinity, endpoints, false, n);
            &&& lines.len() == n
            &&& forall|i: int|
                0 <= i < n ==> #[trigger] lines[i] == return_lines(
                    front,
                    group,
                    affinity,
                    endpoints,
                    false,
                    i as nat,
                )[0]
        }),
    decreases n,
{
    let f = |k: int| return_lines(front, group, affinity, endpoints, false, k as nat);
    if n == 0 {
        assert(Seq::new(0, f) =~= Seq::empty());
    } else {
        let m = (n - 1) as nat;
        lemma_one_to_an_endpoint(front, group, affinity, endpoints, m);
        assert(Seq::new(n, f) =~= Seq::new(m, f).push(f(m as int)));
        lemma_concat_push(Seq::new(m, f), f(m as int));
        assert(f(m as int).len() == 1);
    }
}

/// The lines for port `k` of a service that has an address take the traffic to that address and
/// port, and to its node port if that is not zero, in its protocol; and they send it to the
/// endpoints of the port. A service without an address has no lines.
pub proof fn law_port_lines(
    m: NatSettings,
    service: Service,
    k: int,
    slices: Map<Seq<char>, Vec<SliceEndpoint>>,
    ip: Seq<char>,
)
    requires
        0 <= k < service.spec.ports@.len(),
    ensures
        ({
            let port = service.spec.ports@[k];
            let endpoints = selected(service@, port@, slices);
            let on_address = cluster_lines(m, service@, port@, slices);
            let on_node = node_lines(m, service@, port@, slices);
            &&& has_address(service, ip) ==> address_lines(m, service, k, ip, endpoints).met_by(
                on_address,
                true,
            )
            &&& has_address(service, ip) ==> match port.node_port {
                Some(number) => if number == 0 {
                    on_node.len() == 0
                } else {
                    node_port_lines(m, service, k, ip, endpoints, number).met_by(on_node, false)
                },
                None => on_node.len() == 0,
            }
            &&& (forall|text: Seq<char>| !#[trigger] has_address(service, text))
                ==> on_address.len() == 0 && on_node.len() == 0
        }),
{
    let port = service.spec.ports@[k];
    let endpoints = selected(service@, port@, slices);
    if let Some(text) = service.spec.cluster_ip {
        assert(has_address(service, text@) == (service@.address() == Some(text@)));
    }
    if has_address(service, ip) {
        let group = service_group(ip, port.port as nat);
        let affinity = service_affinity(m, service@, endpoints.len());
        let plan = address_lines(m, service, k, ip, endpoints);
        assert(plan.chain_prefix =~= group.chain_prefix);
        assert(plan.list_prefix =~= group.list_prefix);
        assert(plan.comment->0 =~= cluster_front(m, ip, port@).comment->0);
        lemma_line_plan(plan, cluster_front(m, ip, port@), group, affinity, true);
        if let Some(number) = port.node_port {
            let plan = node_port_lines(m, service, k, ip, endpoints, number);
            lemma_line_plan(plan, node_front(m, port@, number), group, affinity, false);
        }
    }
}

/// The rules of a service port send packets to an address and port exactly where an endpoint with
/// them is announced under the namespace and name of the service and is meant for the port: it
/// has the name of the service port, or the target port, or the port of the service itself, or
/// the service has one port only.
pub proof fn law_packets_go_where_they_are_meant(
    m: NatSettings,
    service: Service,
    k: int,
    slices: Map<Seq<char>, Vec<SliceEndpoint>>,
    address: Seq<char>,
    ip: Seq<char>,
    number: u16,
)
    requires
        0 <= k < service.spec.ports@.len(),
        has_address(service, address),
    ensures
        ({
            let list = announced(service, slices);
            let lines = cluster_lines(m, service@, service.spec.ports@[k]@, slices);
            (exists|j: int|
                0 <= j < list.len() && #[trigger] list[j].0@ == ip && list[j].2 == number
                    && is_meant(service, service.spec.ports@[k], list[j])) <==> exists|j: int|
                0 <= j < lines.len() && (#[trigger] lines[j] matches LineView::Append(rule)
                    && rule.target == (TargetView::Dnat { ip, port: number as nat }))
        }),
{
    let port = service.spec.ports@[k];
    let endpoints = selected(service@, port@, slices);
    let lines = cluster_lines(m, service@, port@, slices);
    assert(service@.address() == Some(address));
    law_selected_endpoints(service, port, slices, ip, number);
    law_exactly_the_endpoints(
        cluster_front(m, address, port@),
        service_group(address, port.port as nat),
        service_affinity(m, service@, endpoints.len()),
        endpoints,
        ip,
        number,
    );
    if exists|j: int| sends_to(lines, ip, number as nat, j) {
        let j = choose|j: int| sends_to(lines, ip, number as nat, j);
        assert(lines[j] is Append);
    }
    if exists|j: int|
        0 <= j < lines.len() && (#[trigger] lines[j] matches LineView::Append(rule) && rule.target
            == (TargetView::Dnat { ip, port: number as nat })) {
        let j = choose|j: int|
            0 <= j < lines.len() && (#[trigger] lines[j] matches LineView::Append(rule)
                && rule.target == (TargetView::Dnat { ip, port: number as nat }));
        assert(sends_to(lines, ip, number as nat, j));
    }
}

// ---------------------------------------------------------------------------
// The whole table
// ---------------------------------------------------------------------------

/// The table declares the two chains of the proxy; then come the lines for addresses, of every
/// service and every port, in order; then those for node ports, in the same order.
pub proof fn law_table_holds_every_port(
    m: NatSettings,
    services: Seq<Service>,
    slices: Map<Seq<char>, Vec<SliceEndpoint>>,
    on_node: bool,
    s: int,
    k: int,
)
    requires
        0 <= s < services.len(),
        0 <= k < services[s].spec.ports@.len(),
    ensures
        ({
            let all = service_views(services);
            let part = |on_node: bool, n: nat| section(m, all, slices, on_node, n);
            let service = services[s];
            let ports = |n: nat| service_lines(m, service@, slices, on_node, n);
            let block = if on_node {
                node_lines(m, service@, service.spec.ports@[k]@, slices)
            } else {
                cluster_lines(m, service@, service.spec.ports@[k]@, slices)
            };
            let table = nat_lines(m, all, slices);
            let address_part = part(false, services.len());
            let node_part = part(true, services.len());
            &&& table == seq![
                LineView::Chain(m.services_chain),
                LineView::Chain(m.nodeports_chain),
            ] + address_part + node_part
            &&& part(on_node, 0).len() == 0
            &&& part(on_node, (s + 1) as nat) == part(on_node, s as nat) + ports(
                service.spec.ports@.len(),
            )
            &&& ports(0).len() == 0
            &&& ports((k + 1) as nat) == ports(k as nat) + block
        }),
{
    let all = service_views(services);
    let service = services[s];
    assert(all[s] == service@);
    let f = |s: int| service_lines(m, all[s], slices, on_node, all[s].ports.len());
    assert(Seq::new(s as nat, f).push(f(s)) =~= Seq::new((s + 1) as nat, f));
    lemma_concat_push(Seq::new(s as nat, f), f(s));
    assert(concat(Seq::new(0, f)).len() == 0);
    let blocks = port_blocks(m, service@, slices, on_node, k as nat);
    let block = if on_node {
        node_lines(m, service@, service.spec.ports@[k]@, slices)
    } else {
        cluster_lines(m, service@, service.spec.ports@[k]@, slices)
    };
    assert(service@.ports[k] == service.spec.ports@[k]@);
    assert(blocks.push(block) =~= port_blocks(m, service@, slices, on_node, (k + 1) as nat));
    lemma_concat_push(blocks, block);
    assert(concat(port_blocks(m, service@, slices, on_node, 0)).len() == 0);
}

} // verus!
