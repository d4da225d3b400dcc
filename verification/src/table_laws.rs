//! Where the whole NAT table sends a packet.

use crate::balance::{
    all_return_lines, balance_lines, direct_line, law_chain_names_tell, return_lines, service_group,
    share_line, Affinity, FrontView, GroupView,
};
use crate::nat_table::{
    cluster_front, cluster_lines, nat_lines, node_front, node_lines, port_blocks, section, selected,
    service_affinity, service_lines, NatSettings, SliceEndpoint,
};
use crate::routing::{
    first_of, law_every_packet_arrives, law_node_port_follows_address, lemma_first_of_add, routed,
    sends, taken, takes,
};
use crate::rule::{LineView, MatchingView, TargetView};
use crate::service::{ServicePortView, ServiceView};
use crate::text::{concat, lemma_concat_contains, lowercase, without};
use vstd::prelude::*;

verus! {

// ---------------------------------------------------------------------------
// Lists in which one block speaks
// ---------------------------------------------------------------------------

proof fn lemma_silent<A>(lines: Seq<LineView>, says: spec_fn(LineView) -> Option<A>)
    requires
        forall|i: int| 0 <= i < lines.len() ==> says(#[trigger] lines[i]) is None,
    ensures
        first_of(lines, says) is None,
    decreases lines.len(),
{
    if lines.len() > 0 {
        assert(says(lines[0]) is None);
        assert forall|i: int| 0 <= i < lines.drop_first().len() implies says(
            #[trigger] lines.drop_first()[i],
        ) is None by {
            assert(lines.drop_first()[i] == lines[i + 1]);
        }
        lemma_silent(lines.drop_first(), says);
    }
}

proof fn lemma_silent_blocks<A>(blocks: Seq<Seq<LineView>>, says: spec_fn(LineView) -> Option<A>)
    requires
        forall|i: int| 0 <= i < blocks.len() ==> first_of(#[trigger] blocks[i], says) is None,
    ensures
        first_of(concat(blocks), says) is None,
    decreases blocks.len(),
{
    if blocks.len() > 0 {
        let init = blocks.drop_last();
        assert forall|i: int| 0 <= i < init.len() implies first_of(
            #[trigger] init[i],
            says,
        ) is None by {
            assert(init[i] == blocks[i]);
        }
        lemma_silent_blocks(init, says);
        assert(first_of(blocks[blocks.len() - 1], says) is None);
        lemma_first_of_add(concat(init), blocks.last(), says);
    }
}

/// Where only one block says anything, the whole list says what that block says.
proof fn lemma_one_block<A>(
    blocks: Seq<Seq<LineView>>,
    says: spec_fn(LineView) -> Option<A>,
    b: int,
)
    requires
        0 <= b < blocks.len(),
        forall|i: int|
            0 <= i < blocks.len() && i != b ==> first_of(#[trigger] blocks[i], says) is None,
    ensures
        first_of(concat(blocks), says) == first_of(blocks[b], says),
    decreases blocks.len(),
{
    let init = blocks.drop_last();
    let n = init.len() as int;
    lemma_first_of_add(concat(init), blocks.last(), says);
    assert forall|i: int| 0 <= i < init.len() && i != b implies first_of(
        #[trigger] init[i],
        says,
    ) is None by {
        assert(init[i] == blocks[i]);
    }
    if b < n {
        lemma_one_block(init, says, b);
        assert(init[b] == blocks[b]);
        assert(first_of(blocks[n], says) is None);
    } else {
        lemma_silent_blocks(init, says);
    }
}

// ---------------------------------------------------------------------------
// Lines of one port
// ---------------------------------------------------------------------------

/// What a line of a service port can be: one for the traffic of the port, or one that stands in
/// the chain of an endpoint.
pub open spec fn belongs(front: FrontView, group: GroupView, line: LineView) -> bool {
    match line {
        LineView::Chain(_) => true,
        LineView::Append(rule) => {
            ||| rule.chain == front.chain && rule.destination == front.destination && rule.protocol
                == Some(front.protocol) && rule.dport == Some(front.dport)
            ||| rule.dport is None && exists|i: nat| rule.chain == #[trigger] group.chain(i)
        },
    }
}

proof fn lemma_belongs(
    front: FrontView,
    group: GroupView,
    affinity: Affinity,
    endpoints: Seq<(Seq<char>, u16)>,
    with_chains: bool,
    j: int,
)
    requires
        0 <= j < balance_lines(front, group, affinity, endpoints, with_chains).len(),
    ensures
        belongs(front, group, balance_lines(front, group, affinity, endpoints, with_chains)[j]),
{
    let lines = balance_lines(front, group, affinity, endpoints, with_chains);
    let n = endpoints.len();
    match affinity {
        Affinity::Off => {
            assert(lines[j] == direct_line(front, endpoints, j as nat));
        },
        _ => {
            let comebacks = all_return_lines(front, group, affinity, endpoints, with_chains, n);
            if j < comebacks.len() {
                let blocks = Seq::new(
                    n,
                    |i: int| return_lines(front, group, affinity, endpoints, with_chains, i as nat),
                );
                assert(comebacks.contains(comebacks[j]));
                lemma_concat_contains(blocks, lines[j]);
                let b = choose|b: int|
                    0 <= b < blocks.len() && (#[trigger] blocks[b]).contains(lines[j]);
                assert(group.chain(b as nat) == group.chain(b as nat));
            } else {
                assert(lines[j] == share_line(front, group, n, (j - comebacks.len()) as nat));
            }
        },
    }
}

/// Lines for other traffic do not take a packet.
proof fn lemma_other_traffic(
    other: FrontView,
    group: GroupView,
    affinity: Affinity,
    endpoints: Seq<(Seq<char>, u16)>,
    with_chains: bool,
    front: FrontView,
    met: spec_fn(MatchingView) -> bool,
)
    requires
        other.destination != front.destination || other.protocol != front.protocol || other.dport
            != front.dport,
    ensures
        taken(balance_lines(other, group, affinity, endpoints, with_chains), front, met) is None,
{
    let lines = balance_lines(other, group, affinity, endpoints, with_chains);
    assert forall|j: int| 0 <= j < lines.len() implies takes(front, met)(
        #[trigger] lines[j],
    ) is None by {
        lemma_belongs(other, group, affinity, endpoints, with_chains, j);
    }
    lemma_silent(lines, takes(front, met));
}

/// Lines of a port that shares no chain do not send from the chain.
proof fn lemma_other_chain(
    other: FrontView,
    group: GroupView,
    affinity: Affinity,
    endpoints: Seq<(Seq<char>, u16)>,
    with_chains: bool,
    chain: Seq<char>,
)
    requires
        other.chain != chain,
        forall|i: nat| #[trigger] group.chain(i) != chain,
    ensures
        first_of(balance_lines(other, group, affinity, endpoints, with_chains), sends(chain))
            is None,
{
    let lines = balance_lines(other, group, affinity, endpoints, with_chains);
    assert forall|j: int| 0 <= j < lines.len() implies sends(chain)(#[trigger] lines[j]) is None by {
        lemma_belongs(other, group, affinity, endpoints, with_chains, j);
    }
    lemma_silent(lines, sends(chain));
}

/// Lines without the chains of the endpoints send from none of them.
proof fn lemma_no_chains(
    front: FrontView,
    group: GroupView,
    affinity: Affinity,
    endpoints: Seq<(Seq<char>, u16)>,
    chain: Seq<char>,
)
    requires
        front.chain != chain,
    ensures
        first_of(balance_lines(front, group, affinity, endpoints, false), sends(chain)) is None,
{
    let lines = balance_lines(front, group, affinity, endpoints, false);
    let n = endpoints.len();
    assert forall|j: int| 0 <= j < lines.len() implies sends(chain)(#[trigger] lines[j]) is None by {
        match affinity {
            Affinity::Off => {},
            _ => {
                let comebacks = all_return_lines(front, group, affinity, endpoints, false, n);
                if j < comebacks.len() {
                    let blocks = Seq::new(
                        n,
                        |i: int| return_lines(front, group, affinity, endpoints, false, i as nat),
                    );
                    assert(comebacks.contains(comebacks[j]));
                    lemma_concat_contains(blocks, lines[j]);
                    let b = choose|b: int|
                        0 <= b < blocks.len() && (#[trigger] blocks[b]).contains(lines[j]);
                }
            },
        }
    }
    lemma_silent(lines, sends(chain));
}

// ---------------------------------------------------------------------------
// The whole table
// ---------------------------------------------------------------------------

/// Whether the chains of the proxy are named unlike the chains of the endpoints of a port.
pub open spec fn proper(m: NatSettings, ip: Seq<char>, port: nat) -> bool {
    forall|i: nat|
        {
            let chain = #[trigger] service_group(ip, port).chain(i);
            chain != m.services_chain && chain != m.nodeports_chain
        }
}

/// Whether two ports use the same protocol.
pub open spec fn same_protocol(a: ServicePortView, b: ServicePortView) -> bool {
    lowercase(a.protocol_name()) == lowercase(b.protocol_name())
}

/// Whether port `l` of service `t` takes traffic to the address and port of port `k` of service
/// `s`.
pub open spec fn meets_address(services: Seq<ServiceView>, s: int, k: int, t: int, l: int) -> bool {
    &&& services[t].address() == services[s].address()
    &&& services[t].ports[l].port == services[s].ports[k].port
    &&& same_protocol(services[t].ports[l], services[s].ports[k])
}

/// Whether port `l` of service `t` takes traffic to the node port of port `k` of service `s`.
pub open spec fn meets_node_port(
    services: Seq<ServiceView>,
    s: int,
    k: int,
    t: int,
    l: int,
) -> bool {
    &&& services[t].address() is Some
    &&& services[t].ports[l].node_port == services[s].ports[k].node_port
    &&& same_protocol(services[t].ports[l], services[s].ports[k])
}

/// Whether an endpoint of port `l` of service `t` has the chain of an endpoint of port `k` of
/// service `s`.
pub open spec fn meets_chain(services: Seq<ServiceView>, s: int, k: int, t: int, l: int) -> bool {
    match (services[s].address(), services[t].address()) {
        (Some(ip), Some(jp)) => exists|i: nat, j: nat|
            #[trigger] service_group(ip, services[s].ports[k].port as nat).chain(i)
                == #[trigger] service_group(jp, services[t].ports[l].port as nat).chain(j),
        _ => false,
    }
}

/// Whether port `l` of service `t` is there, and is not port `k` of service `s`.
pub open spec fn is_other(services: Seq<ServiceView>, s: int, k: int, t: int, l: int) -> bool {
    0 <= t < services.len() && 0 <= l < services[t].ports.len() && (t != s || l != k)
}

/// Whether port `k` of service `s` has its address and port for itself.
pub open spec fn own_address(services: Seq<ServiceView>, s: int, k: int) -> bool {
    forall|t: int, l: int|
        is_other(services, s, k, t, l) ==> !#[trigger] meets_address(services, s, k, t, l)
}

/// Whether port `k` of service `s` has its node port for itself.
pub open spec fn own_node_port(services: Seq<ServiceView>, s: int, k: int) -> bool {
    forall|t: int, l: int|
        is_other(services, s, k, t, l) ==> !#[trigger] meets_node_port(services, s, k, t, l)
}

/// Whether port `k` of service `s` has the chains of its endpoints for itself.
pub open spec fn own_chains(services: Seq<ServiceView>, s: int, k: int) -> bool {
    forall|t: int, l: int|
        is_other(services, s, k, t, l) ==> !#[trigger] meets_chain(services, s, k, t, l)
}

/// What says nothing of any port but one is said by the lines of that port.
proof fn lemma_one_port<A>(
    m: NatSettings,
    services: Seq<ServiceView>,
    slices: Map<Seq<char>, Vec<SliceEndpoint>>,
    on_node: bool,
    s: int,
    k: int,
    says: spec_fn(LineView) -> Option<A>,
)
    requires
        0 <= s < services.len(),
        0 <= k < services[s].ports.len(),
        forall|t: int, l: int|
            0 <= t < services.len() && 0 <= l < services[t].ports.len() && (t != s || l != k)
                ==> first_of(
                #[trigger] port_blocks(
                    m,
                    services[t],
                    slices,
                    on_node,
                    services[t].ports.len(),
                )[l],
                says,
            ) is None,
    ensures
        first_of(section(m, services, slices, on_node, services.len()), says) == first_of(
            port_blocks(m, services[s], slices, on_node, services[s].ports.len())[k],
            says,
        ),
{
    let blocks = Seq::new(
        services.len(),
        |t: int| service_lines(m, services[t], slices, on_node, services[t].ports.len()),
    );
    assert forall|t: int| 0 <= t < blocks.len() && t != s implies first_of(
        #[trigger] blocks[t],
        says,
    ) is None by {
        lemma_silent_blocks(
            port_blocks(m, services[t], slices, on_node, services[t].ports.len()),
            says,
        );
    }
    lemma_one_block(blocks, says, s);
    lemma_one_block(
        port_blocks(m, services[s], slices, on_node, services[s].ports.len()),
        says,
        k,
    );
}

proof fn lemma_no_port<A>(
    m: NatSettings,
    services: Seq<ServiceView>,
    slices: Map<Seq<char>, Vec<SliceEndpoint>>,
    on_node: bool,
    says: spec_fn(LineView) -> Option<A>,
)
    requires
        forall|t: int, l: int|
            0 <= t < services.len() && 0 <= l < services[t].ports.len() ==> first_of(
                #[trigger] port_blocks(
                    m,
                    services[t],
                    slices,
                    on_node,
                    services[t].ports.len(),
                )[l],
                says,
            ) is None,
    ensures
        first_of(section(m, services, slices, on_node, services.len()), says) is None,
{
    let blocks = Seq::new(
        services.len(),
        |t: int| service_lines(m, services[t], slices, on_node, services[t].ports.len()),
    );
    assert forall|t: int| 0 <= t < blocks.len() implies first_of(
        #[trigger] blocks[t],
        says,
    ) is None by {
        lemma_silent_blocks(
            port_blocks(m, services[t], slices, on_node, services[t].ports.len()),
            says,
        );
    }
    lemma_silent_blocks(blocks, says);
}

/// The two chains of the proxy, which the table declares first.
spec fn head(m: NatSettings) -> Seq<LineView> {
    seq![LineView::Chain(m.services_chain), LineView::Chain(m.nodeports_chain)]
}

proof fn lemma_sections<A>(
    m: NatSettings,
    services: Seq<ServiceView>,
    slices: Map<Seq<char>, Vec<SliceEndpoint>>,
    says: spec_fn(LineView) -> Option<A>,
)
    requires
        says(LineView::Chain(m.services_chain)) is None,
        says(LineView::Chain(m.nodeports_chain)) is None,
    ensures
        ({
            let cluster = first_of(section(m, services, slices, false, services.len()), says);
            let node = first_of(section(m, services, slices, true, services.len()), says);
            first_of(nat_lines(m, services, slices), says) == if cluster is Some {
                cluster
            } else {
                node
            }
        }),
{
    let cluster = section(m, services, slices, false, services.len());
    let node = section(m, services, slices, true, services.len());
    lemma_silent(head(m), says);
    lemma_first_of_add(head(m), cluster, says);
    lemma_first_of_add(head(m) + cluster, node, says);
}

proof fn lemma_same_suffix(a: Seq<char>, b: Seq<char>, suffix: Seq<char>)
    requires
        a + suffix == b + suffix,
    ensures
        a == b,
{
    assert((a + suffix).len() == (b + suffix).len());
    assert(a =~= (a + suffix).take(a.len() as int));
    assert(b =~= (b + suffix).take(b.len() as int));
}

/// The table takes a packet to the address of a port as the lines of that port do.
proof fn lemma_address_taken(
    m: NatSettings,
    services: Seq<ServiceView>,
    slices: Map<Seq<char>, Vec<SliceEndpoint>>,
    s: int,
    k: int,
    ip: Seq<char>,
    met: spec_fn(MatchingView) -> bool,
)
    requires
        0 <= s < services.len(),
        0 <= k < services[s].ports.len(),
        services[s].address() == Some(ip),
        own_address(services, s, k),
    ensures
        taken(nat_lines(m, services, slices), cluster_front(m, ip, services[s].ports[k]), met)
            == taken(
            cluster_lines(m, services[s], services[s].ports[k], slices),
            cluster_front(m, ip, services[s].ports[k]),
            met,
        ),
{
    let port = services[s].ports[k];
    let front = cluster_front(m, ip, port);
    let says = takes(front, met);
    lemma_sections(m, services, slices, says);
    assert forall|t: int, l: int|
        0 <= t < services.len() && 0 <= l < services[t].ports.len() && (t != s || l != k) implies first_of(
        #[trigger] port_blocks(m, services[t], slices, false, services[t].ports.len())[l],
        says,
    ) is None by {
        let b = services[t].ports[l];
        let eps = selected(services[t], b, slices);
        assert(!meets_address(services, s, k, t, l));
        if let Some(jp) = services[t].address() {
            if ip + "/32"@ == jp + "/32"@ {
                lemma_same_suffix(ip, jp, "/32"@);
            }
            lemma_other_traffic(
                cluster_front(m, jp, b),
                service_group(jp, b.port as nat),
                service_affinity(m, services[t], eps.len()),
                eps,
                true,
                front,
                met,
            );
        }
    }
    lemma_one_port(m, services, slices, false, s, k, says);
    assert forall|t: int, l: int|
        0 <= t < services.len() && 0 <= l < services[t].ports.len() implies first_of(
        #[trigger] port_blocks(m, services[t], slices, true, services[t].ports.len())[l],
        says,
    ) is None by {
        let b = services[t].ports[l];
        let eps = selected(services[t], b, slices);
        if let (Some(jp), Some(np)) = (services[t].address(), b.node_port) {
            lemma_other_traffic(
                node_front(m, b, np),
                service_group(jp, b.port as nat),
                service_affinity(m, services[t], eps.len()),
                eps,
                false,
                front,
                met,
            );
        }
    }
    lemma_no_port(m, services, slices, true, says);
}

/// The table takes a packet to a node port as the lines of that port do.
proof fn lemma_node_taken(
    m: NatSettings,
    services: Seq<ServiceView>,
    slices: Map<Seq<char>, Vec<SliceEndpoint>>,
    s: int,
    k: int,
    ip: Seq<char>,
    node_port: u16,
    met: spec_fn(MatchingView) -> bool,
)
    requires
        0 <= s < services.len(),
        0 <= k < services[s].ports.len(),
        services[s].address() == Some(ip),
        services[s].ports[k].node_port == Some(node_port),
        own_node_port(services, s, k),
    ensures
        taken(
            nat_lines(m, services, slices),
            node_front(m, services[s].ports[k], node_port),
            met,
        ) == taken(
            node_lines(m, services[s], services[s].ports[k], slices),
            node_front(m, services[s].ports[k], node_port),
            met,
        ),
{
    let port = services[s].ports[k];
    let front = node_front(m, port, node_port);
    let says = takes(front, met);
    lemma_sections(m, services, slices, says);
    assert forall|t: int, l: int|
        0 <= t < services.len() && 0 <= l < services[t].ports.len() implies first_of(
        #[trigger] port_blocks(m, services[t], slices, false, services[t].ports.len())[l],
        says,
    ) is None by {
        let b = services[t].ports[l];
        let eps = selected(services[t], b, slices);
        if let Some(jp) = services[t].address() {
            lemma_other_traffic(
                cluster_front(m, jp, b),
                service_group(jp, b.port as nat),
                service_affinity(m, services[t], eps.len()),
                eps,
                true,
                front,
                met,
            );
        }
    }
    lemma_no_port(m, services, slices, false, says);
    assert forall|t: int, l: int|
        0 <= t < services.len() && 0 <= l < services[t].ports.len() && (t != s || l != k) implies first_of(
        #[trigger] port_blocks(m, services[t], slices, true, services[t].ports.len())[l],
        says,
    ) is None by {
        let b = services[t].ports[l];
        let eps = selected(services[t], b, slices);
        assert(!meets_node_port(services, s, k, t, l));
        if let (Some(jp), Some(np)) = (services[t].address(), b.node_port) {
            lemma_other_traffic(
                node_front(m, b, np),
                service_group(jp, b.port as nat),
                service_affinity(m, services[t], eps.len()),
                eps,
                false,
                front,
                met,
            );
        }
    }
    lemma_one_port(m, services, slices, true, s, k, says);
}

/// The table sends from the chain of an endpoint of a port as the lines of that
/// port do.
proof fn lemma_chain_sends(
    m: NatSettings,
    services: Seq<ServiceView>,
    slices: Map<Seq<char>, Vec<SliceEndpoint>>,
    s: int,
    k: int,
    ip: Seq<char>,
    i: nat,
)
    requires
        0 <= s < services.len(),
        0 <= k < services[s].ports.len(),
        services[s].address() == Some(ip),
        own_chains(services, s, k),
        proper(m, ip, services[s].ports[k].port as nat),
    ensures
        ({
            let chain = service_group(ip, services[s].ports[k].port as nat).chain(i);
            first_of(nat_lines(m, services, slices), sends(chain)) == first_of(
                cluster_lines(m, services[s], services[s].ports[k], slices),
                sends(chain),
            )
        }),
{
    let port = services[s].ports[k];
    let group = service_group(ip, port.port as nat);
    let chain = group.chain(i);
    let says = sends(chain);
    lemma_sections(m, services, slices, says);
    assert forall|t: int, l: int|
        0 <= t < services.len() && 0 <= l < services[t].ports.len() && (t != s || l != k) implies first_of(
        #[trigger] port_blocks(m, services[t], slices, false, services[t].ports.len())[l],
        says,
    ) is None by {
        let b = services[t].ports[l];
        let eps = selected(services[t], b, slices);
        assert(!meets_chain(services, s, k, t, l));
        if let Some(jp) = services[t].address() {
            lemma_other_chain(
                cluster_front(m, jp, b),
                service_group(jp, b.port as nat),
                service_affinity(m, services[t], eps.len()),
                eps,
                true,
                chain,
            );
        }
    }
    lemma_one_port(m, services, slices, false, s, k, says);
    assert forall|t: int, l: int|
        0 <= t < services.len() && 0 <= l < services[t].ports.len() implies first_of(
        #[trigger] port_blocks(m, services[t], slices, true, services[t].ports.len())[l],
        says,
    ) is None by {
        let b = services[t].ports[l];
        let eps = selected(services[t], b, slices);
        if let (Some(jp), Some(np)) = (services[t].address(), b.node_port) {
            lemma_no_chains(
                node_front(m, b, np),
                service_group(jp, b.port as nat),
                service_affinity(m, services[t], eps.len()),
                eps,
                chain,
            );
        }
    }
    lemma_no_port(m, services, slices, true, says);
}

/// A jump from the traffic of a port goes to the chain of one of its endpoints.
proof fn lemma_jumps_to_endpoint(
    front: FrontView,
    group: GroupView,
    affinity: Affinity,
    endpoints: Seq<(Seq<char>, u16)>,
    with_chains: bool,
    met: spec_fn(MatchingView) -> bool,
) -> (i: nat)
    ensures
        taken(
            balance_lines(front, group, affinity, endpoints, with_chains),
            front,
            met,
        ) matches Some(TargetView::Jump { chain }) ==> chain == group.chain(i),
{
    let lines = balance_lines(front, group, affinity, endpoints, with_chains);
    let n = endpoints.len();
    match taken(lines, front, met) {
        Some(TargetView::Jump { chain }) => {
            let j = lemma_speaker(lines, takes(front, met));
            match affinity {
                Affinity::Off => {
                    assert(lines[j] == direct_line(front, endpoints, j as nat));
                    0
                },
                _ => {
                    let comebacks = all_return_lines(
                        front,
                        group,
                        affinity,
                        endpoints,
                        with_chains,
                        n,
                    );
                    if j < comebacks.len() {
                        let blocks = Seq::new(
                            n,
                            |i: int|
                                return_lines(
                                    front,
                                    group,
                                    affinity,
                                    endpoints,
                                    with_chains,
                                    i as nat,
                                ),
                        );
                        assert(comebacks.contains(comebacks[j]));
                        lemma_concat_contains(blocks, lines[j]);
                        let b = choose|b: int|
                            0 <= b < blocks.len() && (#[trigger] blocks[b]).contains(lines[j]);
                        b as nat
                    } else {
                        let i = (j - comebacks.len()) as nat;
                        assert(lines[j] == share_line(front, group, n, i));
                        i
                    }
                },
            }
        },
        _ => 0,
    }
}

/// The line that says what a list says.
proof fn lemma_speaker<A>(lines: Seq<LineView>, says: spec_fn(LineView) -> Option<A>) -> (j: int)
    requires
        first_of(lines, says) is Some,
    ensures
        0 <= j < lines.len(),
        says(lines[j]) == first_of(lines, says),
    decreases lines.len(),
{
    if says(lines[0]) is Some {
        0
    } else {
        let j = lemma_speaker(lines.drop_first(), says);
        assert(lines.drop_first()[j] == lines[j + 1]);
        j + 1
    }
}

/// The whole table sends a packet to the address of a service where the lines of its port send
/// it, where the port has its address and its chains for itself.
pub proof fn law_table_serves_addresses(
    m: NatSettings,
    services: Seq<ServiceView>,
    slices: Map<Seq<char>, Vec<SliceEndpoint>>,
    s: int,
    k: int,
    ip: Seq<char>,
    met: spec_fn(MatchingView) -> bool,
)
    requires
        0 <= s < services.len(),
        0 <= k < services[s].ports.len(),
        services[s].address() == Some(ip),
        own_address(services, s, k),
        own_chains(services, s, k),
        proper(m, ip, services[s].ports[k].port as nat),
    ensures
        routed(nat_lines(m, services, slices), cluster_front(m, ip, services[s].ports[k]), met)
            == routed(
            cluster_lines(m, services[s], services[s].ports[k], slices),
            cluster_front(m, ip, services[s].ports[k]),
            met,
        ),
{
    let port = services[s].ports[k];
    let endpoints = selected(services[s], port, slices);
    lemma_address_taken(m, services, slices, s, k, ip, met);
    let i = lemma_jumps_to_endpoint(
        cluster_front(m, ip, port),
        service_group(ip, port.port as nat),
        service_affinity(m, services[s], endpoints.len()),
        endpoints,
        true,
        met,
    );
    lemma_chain_sends(m, services, slices, s, k, ip, i);
}

/// The whole table sends a packet to a node port where it sends a packet to the address of the
/// service that meets the same conditions, where the port has both for itself.
pub proof fn law_table_serves_node_ports(
    m: NatSettings,
    services: Seq<ServiceView>,
    slices: Map<Seq<char>, Vec<SliceEndpoint>>,
    s: int,
    k: int,
    ip: Seq<char>,
    node_port: u16,
    met: spec_fn(MatchingView) -> bool,
)
    requires
        0 <= s < services.len(),
        0 <= k < services[s].ports.len(),
        services[s].address() == Some(ip),
        services[s].ports[k].node_port == Some(node_port),
        node_port > 0,
        own_address(services, s, k),
        own_node_port(services, s, k),
        met(MatchingView::Any),
    ensures
        routed(
            nat_lines(m, services, slices),
            node_front(m, services[s].ports[k], node_port),
            met,
        ) == routed(
            nat_lines(m, services, slices),
            cluster_front(m, ip, services[s].ports[k]),
            met,
        ),
{
    lemma_address_taken(m, services, slices, s, k, ip, met);
    lemma_node_taken(m, services, slices, s, k, ip, node_port, met);
    law_node_port_follows_address(
        m,
        services[s],
        services[s].ports[k],
        slices,
        ip,
        node_port,
        met,
    );
}

/// The whole table sends every packet to the address of a service to an endpoint that serves the
/// port, where there is one and the port has its address and its chains for itself. The same
/// holds of its node port, where it has that for itself.
pub proof fn law_every_service_is_reached(
    m: NatSettings,
    services: Seq<ServiceView>,
    slices: Map<Seq<char>, Vec<SliceEndpoint>>,
    s: int,
    k: int,
    ip: Seq<char>,
    met: spec_fn(MatchingView) -> bool,
)
    requires
        0 <= s < services.len(),
        0 <= k < services[s].ports.len(),
        services[s].address() == Some(ip),
        selected(services[s], services[s].ports[k], slices).len() > 0,
        own_address(services, s, k),
        own_chains(services, s, k),
        proper(m, ip, services[s].ports[k].port as nat),
        met(MatchingView::Any),
    ensures
        ({
            let port = services[s].ports[k];
            let endpoints = selected(services[s], port, slices);
            let lines = nat_lines(m, services, slices);
            let reached = routed(lines, cluster_front(m, ip, port), met);
            &&& exists|i: nat|
                i < endpoints.len() && reached == Some(
                    (#[trigger] endpoints[i as int].0, endpoints[i as int].1 as nat),
                )
            &&& match port.node_port {
                Some(node_port) => node_port > 0 && own_node_port(services, s, k) ==> routed(
                    lines,
                    node_front(m, port, node_port),
                    met,
                ) == reached,
                None => true,
            }
        }),
{
    let port = services[s].ports[k];
    let endpoints = selected(services[s], port, slices);
    law_table_serves_addresses(m, services, slices, s, k, ip, met);
    law_every_packet_arrives(
        cluster_front(m, ip, port),
        service_group(ip, port.port as nat),
        service_affinity(m, services[s], endpoints.len()),
        endpoints,
        met,
    );
    if let Some(node_port) = port.node_port {
        if node_port > 0 && own_node_port(services, s, k) {
            law_table_serves_node_ports(m, services, slices, s, k, ip, node_port, met);
        }
    }
}

// ---------------------------------------------------------------------------
// Names
// ---------------------------------------------------------------------------

/// The chains of the proxy bear other names than the chains of endpoints.
pub proof fn law_names_are_proper(m: NatSettings, ip: Seq<char>, port: nat)
    requires
        m.services_chain == "RUSTERNETES-SERVICES"@,
        m.nodeports_chain == "RUSTERNETES-NODEPORTS"@,
    ensures
        proper(m, ip, port),
{
    reveal_strlit("RUSTERNETES-SERVICES");
    reveal_strlit("RUSTERNETES-NODEPORTS");
    reveal_strlit("KUBE-SEP-");
    assert forall|i: nat|
        {
            let chain = #[trigger] service_group(ip, port).chain(i);
            chain != m.services_chain && chain != m.nodeports_chain
        } by {
        assert(service_group(ip, port).chain(i)[0] == 'K');
        assert(m.services_chain[0] == 'R');
        assert(m.nodeports_chain[0] == 'R');
    }
}

/// A port has the chains of its endpoints for itself where addresses hold no dash and no other
/// port has the same number at an address that is the same but for its dots.
pub proof fn law_chains_of_their_own(services: Seq<ServiceView>, s: int, k: int)
    requires
        forall|t: int|
            0 <= t < services.len() && services[t].address() is Some
                ==> !(#[trigger] services[t].address()->0).contains('-'),
        forall|t: int, l: int|
            #[trigger] is_other(services, s, k, t, l) && services[t].address() is Some ==> without(
                services[t].address()->0,
                '.',
            ) != without(services[s].address()->0, '.') || services[t].ports[l].port
                != services[s].ports[k].port,
        0 <= s < services.len(),
        services[s].address() is Some,
    ensures
        own_chains(services, s, k),
{
    assert forall|t: int, l: int| is_other(services, s, k, t, l) implies !#[trigger] meets_chain(
        services,
        s,
        k,
        t,
        l,
    ) by {
        if meets_chain(services, s, k, t, l) {
            let ip = services[s].address()->0;
            let jp = services[t].address()->0;
            let p = services[s].ports[k].port as nat;
            let q = services[t].ports[l].port as nat;
            let (i, j) = choose|i: nat, j: nat|
                #[trigger] service_group(ip, p).chain(i) == #[trigger] service_group(jp, q).chain(j);
            law_chain_names_tell(ip, p, i, jp, q, j);
        }
    }
}

} // verus!
