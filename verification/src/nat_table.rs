//! The whole NAT table of the proxy, built in memory from services and endpoints.

use crate::balance::{
    affinity_for, balance, balance_lines, choose_affinity, declared_in, endpoint_views,
    law_chains_are_declared, lemma_chains_declared, lemma_declared_add, lemma_declared_concat,
    service_group, Affinity, Front, FrontView, Group,
};
use crate::iptables::IptablesManager;
use crate::rule::{line_views, lines_wf, push_line, socket, socket_text, LineView, NatLine};
use crate::service::{service_views, Service, ServicePort, ServicePortView, ServiceView};
use crate::table::Table;
use crate::text::{
    concat, lemma_concat_contains, lemma_concat_push, lowercase, option_text, same_option,
    to_lowercase,
};
use vstd::prelude::*;

verus! {

/// An endpoint as the cluster announces it: its address, the name of its port if it has one,
/// and its port.
pub type SliceEndpoint = (String, Option<String>, u16);

/// What the rules depend on besides services and endpoints.
pub struct NatSettings {
    pub services_chain: Seq<char>,
    pub nodeports_chain: Seq<char>,
    pub recent_available: bool,
    pub hashlimit_available: bool,
}

/// What a list of announced endpoints holds.
pub open spec fn slice_views(slices: Seq<SliceEndpoint>) -> Seq<(
    Seq<char>,
    Option<Seq<char>>,
    u16,
)> {
    slices.map_values(|e: SliceEndpoint| (e.0@, option_text(e.1), e.2))
}

/// Under which key the endpoints of a service are announced.
pub open spec fn service_key(service: ServiceView) -> Seq<char> {
    service.namespace_or("default"@) + "/"@ + service.name
}

/// Whether an endpoint serves a port of the service: by the name of the port, by the target
/// port, by the port of the service itself, or because the service has only this port.
pub open spec fn serves(
    service: ServiceView,
    port: ServicePortView,
    endpoint: (Seq<char>, Option<Seq<char>>, u16),
) -> bool {
    ||| port.name is Some && port.name == endpoint.1
    ||| port.target() == Some(endpoint.2)
    ||| endpoint.2 == port.port
    ||| service.ports.len() == 1
}

/// Accepts the endpoints that serve a port of the service.
pub open spec fn serving(service: ServiceView, port: ServicePortView) -> spec_fn(
    (Seq<char>, Option<Seq<char>>, u16),
) -> bool {
    |e: (Seq<char>, Option<Seq<char>>, u16)| serves(service, port, e)
}

/// Address and port of an endpoint.
pub open spec fn without_name(e: (Seq<char>, Option<Seq<char>>, u16)) -> (Seq<char>, u16) {
    (e.0, e.2)
}

/// The endpoints of the list that serve a port of the service, in the order of the list.
pub open spec fn serving_endpoints(
    service: ServiceView,
    port: ServicePortView,
    announced: Seq<(Seq<char>, Option<Seq<char>>, u16)>,
) -> Seq<(Seq<char>, u16)> {
    announced.filter(serving(service, port)).map_values(
        |e: (Seq<char>, Option<Seq<char>>, u16)| without_name(e),
    )
}

/// The announced endpoints that serve a port of the service.
pub open spec fn selected(
    service: ServiceView,
    port: ServicePortView,
    slices: Map<Seq<char>, Vec<SliceEndpoint>>,
) -> Seq<(Seq<char>, u16)> {
    if slices.contains_key(service_key(service)) {
        serving_endpoints(service, port, slice_views(slices[service_key(service)]@))
    } else {
        Seq::empty()
    }
}

/// How clients of a service are kept at `n` endpoints.
pub open spec fn service_affinity(m: NatSettings, service: ServiceView, n: nat) -> Affinity {
    affinity_for(
        service.sticky(),
        n,
        service.affinity_seconds(),
        m.recent_available,
        m.hashlimit_available,
    )
}

/// The traffic to the address of a service.
pub open spec fn cluster_front(m: NatSettings, ip: Seq<char>, port: ServicePortView) -> FrontView {
    FrontView {
        chain: m.services_chain,
        destination: Some(ip + "/32"@),
        protocol: lowercase(port.protocol_name()),
        dport: port.port as nat,
        comment: Some("rusternetes service "@ + socket(ip, port.port as nat)),
    }
}

/// The traffic to a port of the node.
pub open spec fn node_front(m: NatSettings, port: ServicePortView, node_port: u16) -> FrontView {
    FrontView {
        chain: m.nodeports_chain,
        destination: None,
        protocol: lowercase(port.protocol_name()),
        dport: node_port as nat,
        comment: None,
    }
}

/// The lines for the address of a service, for one of its ports.
pub open spec fn cluster_lines(
    m: NatSettings,
    service: ServiceView,
    port: ServicePortView,
    slices: Map<Seq<char>, Vec<SliceEndpoint>>,
) -> Seq<LineView> {
    let endpoints = selected(service, port, slices);
    match service.address() {
        Some(ip) => balance_lines(
            cluster_front(m, ip, port),
            service_group(ip, port.port as nat),
            service_affinity(m, service, endpoints.len()),
            endpoints,
            true,
        ),
        None => Seq::empty(),
    }
}

/// The lines for the node port of one port of a service. They use the chains and client lists
/// that the lines for the address of the service declare.
pub open spec fn node_lines(
    m: NatSettings,
    service: ServiceView,
    port: ServicePortView,
    slices: Map<Seq<char>, Vec<SliceEndpoint>>,
) -> Seq<LineView> {
    let endpoints = selected(service, port, slices);
    match (service.address(), port.node_port) {
        (Some(ip), Some(node_port)) => if node_port > 0 {
            balance_lines(
                node_front(m, port, node_port),
                service_group(ip, port.port as nat),
                service_affinity(m, service, endpoints.len()),
                endpoints,
                false,
            )
        } else {
            Seq::empty()
        },
        _ => Seq::empty(),
    }
}

/// The lines for each of the first `n` ports of a service: those for its address, or those for
/// its node ports.
pub open spec fn port_blocks(
    m: NatSettings,
    service: ServiceView,
    slices: Map<Seq<char>, Vec<SliceEndpoint>>,
    on_node: bool,
    n: nat,
) -> Seq<Seq<LineView>> {
    Seq::new(
        n,
        |k: int|
            if on_node {
                node_lines(m, service, service.ports[k], slices)
            } else {
                cluster_lines(m, service, service.ports[k], slices)
            },
    )
}

/// The lines for the first `n` ports of a service.
pub open spec fn service_lines(
    m: NatSettings,
    service: ServiceView,
    slices: Map<Seq<char>, Vec<SliceEndpoint>>,
    on_node: bool,
    n: nat,
) -> Seq<LineView> {
    concat(port_blocks(m, service, slices, on_node, n))
}

/// The lines for the first `n` services.
pub open spec fn section(
    m: NatSettings,
    services: Seq<ServiceView>,
    slices: Map<Seq<char>, Vec<SliceEndpoint>>,
    on_node: bool,
    n: nat,
) -> Seq<LineView> {
    concat(
        Seq::new(
            n,
            |s: int|
                service_lines(m, services[s], slices, on_node, services[s].ports.len()),
        ),
    )
}

/// All lines: the two chains of the proxy, then the addresses of the services, then their node
/// ports.
pub open spec fn nat_lines(
    m: NatSettings,
    services: Seq<ServiceView>,
    slices: Map<Seq<char>, Vec<SliceEndpoint>>,
) -> Seq<LineView> {
    seq![LineView::Chain(m.services_chain), LineView::Chain(m.nodeports_chain)] + section(
        m,
        services,
        slices,
        false,
        services.len(),
    ) + section(m, services, slices, true, services.len())
}

// ---------------------------------------------------------------------------
// Building
// ---------------------------------------------------------------------------

/// Tells whether an endpoint serves a port of the service.
pub fn endpoint_serves(service: &Service, port: &ServicePort, endpoint: &SliceEndpoint) -> (yes:
    bool)
    ensures
        yes == serves(service@, port@, (endpoint.0@, option_text(endpoint.1), endpoint.2)),
{
    if port.name.is_some() && same_option(&port.name, &endpoint.1) {
        return true;
    }
    if let Some(target) = port.target() {
        if endpoint.2 == target {
            return true;
        }
    }
    endpoint.2 == port.port || service.spec.ports.len() == 1
}

/// Picks the endpoints of the list that serve a port of the service.
pub fn pick_endpoints(service: &Service, port: &ServicePort, announced: &Vec<SliceEndpoint>) -> (
    endpoints: Vec<(String, u16)>)
    ensures
        endpoint_views(endpoints@) == serving_endpoints(service@, port@, slice_views(announced@)),
{
    let mut endpoints: Vec<(String, u16)> = Vec::new();
    let ghost all = slice_views(announced@);
    let ghost pred = serving(service@, port@);
    let ghost strip = |e: (Seq<char>, Option<Seq<char>>, u16)| without_name(e);
    let mut i: usize = 0;
    proof {
        reveal(Seq::filter);
        assert(endpoint_views(endpoints@) =~= all.take(0).filter(pred).map_values(strip));
    }
    while i < announced.len()
        invariant
            i <= announced.len(),
            all == slice_views(announced@),
            pred == serving(service@, port@),
            endpoint_views(endpoints@) == all.take(i as int).filter(pred).map_values(strip),
            strip == (|e: (Seq<char>, Option<Seq<char>>, u16)| without_name(e)),
        decreases announced.len() - i,
    {
        let ghost before = endpoints@;
        let yes = endpoint_serves(service, port, &announced[i]);
        assert(yes == pred(all[i as int]));
        if yes {
            endpoints.push((announced[i].0.clone(), announced[i].2));
        }
        proof {
            reveal(Seq::filter);
            assert(all.take(i + 1).drop_last() =~= all.take(i as int));
            assert(all.take(i + 1).last() == all[i as int]);
            let kept = all.take(i as int).filter(pred);
            if yes {
                assert(endpoint_views(endpoints@) =~= endpoint_views(before).push(
                    without_name(all[i as int]),
                ));
                assert(kept.push(all[i as int]).map_values(strip) =~= kept.map_values(strip).push(
                    without_name(all[i as int]),
                ));
            }
        }
        i += 1;
    }
    assert(all.take(i as int) =~= all);
    endpoints
}

/// Finds the announced endpoints that serve a port of the service.
pub fn select_endpoints(
    service: &Service,
    port: &ServicePort,
    slices: &Table<Vec<SliceEndpoint>>,
) -> (endpoints: Vec<(String, u16)>)
    ensures
        endpoint_views(endpoints@) == selected(service@, port@, slices@),
{
    let mut key = service.namespace_or("default").to_string();
    key.append("/");
    key.append(service.metadata.name.as_str());
    match slices.get(key.as_str()) {
        Some(announced) => pick_endpoints(service, port, announced),
        None => {
            let none: Vec<(String, u16)> = Vec::new();
            assert(endpoint_views(none@) =~= selected(service@, port@, slices@));
            none
        },
    }
}

impl IptablesManager {
    fn port_lines(
        &self,
        service: &Service,
        port: &ServicePort,
        slices: &Table<Vec<SliceEndpoint>>,
        on_node: bool,
    ) -> (lines: Vec<NatLine>)
        ensures
            line_views(lines@) == if on_node {
                node_lines(self.settings(), service@, port@, slices@)
            } else {
                cluster_lines(self.settings(), service@, port@, slices@)
            },
            lines_wf(line_views(lines@)),
    {
        let none: Vec<NatLine> = Vec::new();
        assert(line_views(none@) =~= Seq::<LineView>::empty());
        let ip = match service.address() {
            Some(ip) => ip,
            None => {
                return none;
            },
        };
        let mut front = Front {
            chain: self.services_chain.clone(),
            destination: None,
            protocol: to_lowercase(port.protocol_name()),
            dport: port.port,
            comment: None,
        };
        if on_node {
            match port.node_port {
                Some(node_port) => {
                    if node_port == 0 {
                        return none;
                    }
                    front.chain = self.nodeports_chain.clone();
                    front.dport = node_port;
                },
                None => {
                    return none;
                },
            }
        } else {
            let mut destination = ip.to_string();
            destination.append("/32");
            front.destination = Some(destination);
            let mut comment = "rusternetes service ".to_string();
            comment.append(socket_text(ip, port.port).as_str());
            front.comment = Some(comment);
        }
        let endpoints = select_endpoints(service, port, slices);
        let affinity = choose_affinity(
            service.sticky(),
            endpoints.len(),
            service.affinity_seconds(),
            self.recent_available,
            self.hashlimit_available,
        );
        assert(endpoint_views(endpoints@).len() == endpoints.len());
        let group = Group::for_service(ip, port.port);
        balance(&front, &group, affinity, endpoints.as_slice(), !on_node)
    }

    fn push_service(
        &self,
        lines: &mut Vec<NatLine>,
        service: &Service,
        slices: &Table<Vec<SliceEndpoint>>,
        on_node: bool,
    )
        requires
            lines_wf(line_views(old(lines)@)),
        ensures
            line_views(final(lines)@) == line_views(old(lines)@) + service_lines(
                self.settings(),
                service@,
                slices@,
                on_node,
                service@.ports.len(),
            ),
            lines_wf(line_views(final(lines)@)),
    {
        let ghost start = line_views(lines@);
        let mut k: usize = 0;
        assert(start =~= start + service_lines(self.settings(), service@, slices@, on_node, 0));
        while k < service.spec.ports.len()
            invariant
                k <= service.spec.ports.len(),
                line_views(lines@) == start + service_lines(
                    self.settings(),
                    service@,
                    slices@,
                    on_node,
                    k as nat,
                ),
                lines_wf(line_views(lines@)),
            decreases service.spec.ports.len() - k,
        {
            let ghost before = line_views(lines@);
            let mut more = self.port_lines(service, &service.spec.ports[k], slices, on_node);
            proof {
                let block = line_views(more@);
                let done = port_blocks(self.settings(), service@, slices@, on_node, k as nat);
                assert(service@.ports[k as int] == service.spec.ports@[k as int]@);
                assert(done.push(block) =~= port_blocks(
                    self.settings(),
                    service@,
                    slices@,
                    on_node,
                    (k + 1) as nat,
                ));
                lemma_concat_push(done, block);
                assert(before + block =~= start + service_lines(
                    self.settings(),
                    service@,
                    slices@,
                    on_node,
                    (k + 1) as nat,
                ));
            }
            append_lines(lines, &mut more);
            k += 1;
        }
    }

    fn push_section(
        &self,
        lines: &mut Vec<NatLine>,
        services: &[Service],
        slices: &Table<Vec<SliceEndpoint>>,
        on_node: bool,
    )
        requires
            lines_wf(line_views(old(lines)@)),
        ensures
            line_views(final(lines)@) == line_views(old(lines)@) + section(
                self.settings(),
                service_views(services@),
                slices@,
                on_node,
                services@.len(),
            ),
            lines_wf(line_views(final(lines)@)),
    {
        let ghost start = line_views(lines@);
        let ghost all = service_views(services@);
        let mut s: usize = 0;
        assert(start =~= start + section(self.settings(), all, slices@, on_node, 0));
        while s < services.len()
            invariant
                s <= services.len(),
                all == service_views(services@),
                line_views(lines@) == start + section(self.settings(), all, slices@, on_node, s as nat),
                lines_wf(line_views(lines@)),
            decreases services.len() - s,
        {
            let ghost before = line_views(lines@);
            self.push_service(lines, &services[s], slices, on_node);
            proof {
                let f = |s: int|
                    service_lines(self.settings(), all[s], slices@, on_node, all[s].ports.len());
                assert(all[s as int] == services@[s as int]@);
                let block = f(s as int);
                assert(Seq::new(s as nat, f).push(block) =~= Seq::new((s + 1) as nat, f));
                lemma_concat_push(Seq::new(s as nat, f), block);
                assert(before + block =~= start + section(
                    self.settings(),
                    all,
                    slices@,
                    on_node,
                    (s + 1) as nat,
                ));
            }
            s += 1;
        }
    }

    /// Writes all lines.
    pub fn nat_lines(&self, services: &[Service], slices: &Table<Vec<SliceEndpoint>>) -> (lines: Vec<
        NatLine,
    >)
        ensures
            line_views(lines@) == nat_lines(self.settings(), service_views(services@), slices@),
            lines_wf(line_views(lines@)),
    {
        let mut lines: Vec<NatLine> = Vec::new();
        push_line(&mut lines, NatLine::Chain(self.services_chain.clone()));
        push_line(&mut lines, NatLine::Chain(self.nodeports_chain.clone()));
        assert(line_views(lines@) =~= seq![
            LineView::Chain(self.services_chain@),
            LineView::Chain(self.nodeports_chain@),
        ]);
        self.push_section(&mut lines, services, slices, false);
        self.push_section(&mut lines, services, slices, true);
        lines
    }
}

/// Moves the lines of `more` to the end of `lines`.
fn append_lines(lines: &mut Vec<NatLine>, more: &mut Vec<NatLine>)
    requires
        lines_wf(line_views(old(lines)@)),
        lines_wf(line_views(old(more)@)),
    ensures
        line_views(final(lines)@) == line_views(old(lines)@) + line_views(old(more)@),
        lines_wf(line_views(final(lines)@)),
{
    lines.append(more);
    assert(line_views(lines@) =~= line_views(old(lines)@) + line_views(old(more)@));
}

// ---------------------------------------------------------------------------
// Laws
// ---------------------------------------------------------------------------

/// A headless service, and a port without endpoints, leave no line.
pub proof fn law_nothing_without_endpoints(
    m: NatSettings,
    service: ServiceView,
    port: ServicePortView,
    slices: Map<Seq<char>, Vec<SliceEndpoint>>,
)
    requires
        service.address() is None || selected(service, port, slices).len() == 0,
    ensures
        cluster_lines(m, service, port, slices).len() == 0,
        node_lines(m, service, port, slices).len() == 0,
{
}

/// The lines of all ports use only chains that are declared: every chain stands before the first
/// rule that is appended to it and before the first jump to it, also where the jump is that of a
/// node port.
pub proof fn law_table_is_closed(
    m: NatSettings,
    services: Seq<ServiceView>,
    slices: Map<Seq<char>, Vec<SliceEndpoint>>,
)
    ensures
        declared_in(Seq::empty(), nat_lines(m, services, slices)),
{
    let none = Seq::<LineView>::empty();
    let head = seq![LineView::Chain(m.services_chain), LineView::Chain(m.nodeports_chain)];
    let n = services.len();
    let cluster = section(m, services, slices, false, n);
    let node = section(m, services, slices, true, n);
    assert(declared_in(none, head));
    let cluster_blocks = Seq::new(
        n,
        |s: int| service_lines(m, services[s], slices, false, services[s].ports.len()),
    );
    assert forall|s: int| 0 <= s < n implies declared_in(
        none + head,
        #[trigger] cluster_blocks[s],
    ) by {
        assert((none + head)[0] == head[0] && (none + head)[1] == head[1]);
        lemma_service_closed(m, services[s], slices, false, none + head);
    }
    lemma_declared_concat(none + head, cluster_blocks);
    lemma_declared_add(none, head, cluster);
    let node_blocks = Seq::new(
        n,
        |s: int| service_lines(m, services[s], slices, true, services[s].ports.len()),
    );
    let front = none + (head + cluster);
    assert forall|s: int| 0 <= s < n implies declared_in(front, #[trigger] node_blocks[s]) by {
        assert forall|line: LineView| #[trigger]
            cluster_blocks[s].contains(line) implies front.contains(line) by {
            lemma_concat_contains(cluster_blocks, line);
            let k = choose|k: int| 0 <= k < cluster.len() && cluster[k] == line;
            assert(front[head.len() + k] == line);
        }
        assert(front[0] == head[0] && front[1] == head[1]);
        assert(cluster_blocks[s] == service_lines(
            m,
            services[s],
            slices,
            false,
            services[s].ports.len(),
        ));
        lemma_service_closed(m, services[s], slices, true, front);
    }
    lemma_declared_concat(front, node_blocks);
    lemma_declared_add(none, head + cluster, node);
}

proof fn lemma_service_closed(
    m: NatSettings,
    service: ServiceView,
    slices: Map<Seq<char>, Vec<SliceEndpoint>>,
    on_node: bool,
    context: Seq<LineView>,
)
    requires
        context.contains(LineView::Chain(m.services_chain)),
        context.contains(LineView::Chain(m.nodeports_chain)),
        on_node ==> forall|line: LineView| #[trigger]
            service_lines(m, service, slices, false, service.ports.len()).contains(line)
                ==> context.contains(line),
    ensures
        declared_in(context, service_lines(m, service, slices, on_node, service.ports.len())),
{
    let n = service.ports.len();
    let cluster_blocks = port_blocks(m, service, slices, false, n);
    let blocks = port_blocks(m, service, slices, on_node, n);
    assert forall|k: int| 0 <= k < n implies declared_in(context, #[trigger] blocks[k]) by {
        let port = service.ports[k];
        let endpoints = selected(service, port, slices);
        let affinity = service_affinity(m, service, endpoints.len());
        if let Some(ip) = service.address() {
            let group = service_group(ip, port.port as nat);
            if on_node {
                if affinity !is Off {
                    assert forall|i: nat| i < endpoints.len() implies context.contains(
                        LineView::Chain(#[trigger] group.chain(i)),
                    ) by {
                        lemma_chains_declared(
                            cluster_front(m, ip, port),
                            group,
                            affinity,
                            endpoints,
                            i,
                        );
                        let line = LineView::Chain(group.chain(i));
                        assert(cluster_blocks[k].contains(line));
                        lemma_concat_contains(cluster_blocks, line);
                        assert(service_lines(m, service, slices, false, n).contains(line));
                    }
                }
                if let Some(node_port) = port.node_port {
                    law_chains_are_declared(
                        node_front(m, port, node_port),
                        group,
                        affinity,
                        endpoints,
                        false,
                        context,
                    );
                }
            } else {
                law_chains_are_declared(
                    cluster_front(m, ip, port),
                    group,
                    affinity,
                    endpoints,
                    true,
                    context,
                );
            }
        }
    }
    lemma_declared_concat(context, blocks);
}

} // verus!
