//! Where the lines of a service port send a packet.

use crate::balance::{
    all_return_lines, balance_lines, direct_line, endpoint_chain, front_line, return_lines,
    returning, share, share_line, Affinity, FrontView, GroupView,
};
use crate::nat_table::{
    cluster_front, cluster_lines, node_front, node_lines, selected, NatSettings, SliceEndpoint,
};
use crate::rule::{LineView, MatchingView, TargetView};
use crate::service::{ServicePortView, ServiceView};
use crate::text::{concat, lemma_concat_push, lemma_decimal_injective};
use vstd::prelude::*;

verus! {

/// What the first line says that says anything.
pub open spec fn first_of<A>(lines: Seq<LineView>, says: spec_fn(LineView) -> Option<A>) -> Option<A>
    decreases lines.len(),
{
    if lines.len() == 0 {
        None
    } else if says(lines[0]) is Some {
        says(lines[0])
    } else {
        first_of(lines.drop_first(), says)
    }
}

/// What two lists say, one after the other.
pub proof fn lemma_first_of_add<A>(
    a: Seq<LineView>,
    b: Seq<LineView>,
    says: spec_fn(LineView) -> Option<A>,
)
    ensures
        first_of(a + b, says) == if first_of(a, says) is Some {
            first_of(a, says)
        } else {
            first_of(b, says)
        },
    decreases a.len(),
{
    if a.len() == 0 {
        assert(a + b =~= b);
    } else {
        assert((a + b)[0] == a[0]);
        assert((a + b).drop_first() =~= a.drop_first() + b);
        lemma_first_of_add(a.drop_first(), b, says);
    }
}

/// What a line does with a packet of the service port, if it takes the packet: it stands in the
/// chain of the port and is for its traffic, and what it asks for besides is met.
pub open spec fn takes(front: FrontView, met: spec_fn(MatchingView) -> bool) -> spec_fn(
    LineView,
) -> Option<TargetView> {
    |line: LineView|
        match line {
            LineView::Append(rule) => if rule.chain == front.chain && rule.destination
                == front.destination && rule.protocol == Some(front.protocol) && rule.dport == Some(
                front.dport,
            ) && met(rule.matching) {
                Some(rule.target)
            } else {
                None
            },
            LineView::Chain(_) => None,
        }
}

/// Where a line of a chain sends a packet, if it sends it anywhere.
pub open spec fn sends(chain: Seq<char>) -> spec_fn(LineView) -> Option<(Seq<char>, nat)> {
    |line: LineView|
        match line {
            LineView::Append(rule) => match rule.target {
                TargetView::Dnat { ip, port } => if rule.chain == chain {
                    Some((ip, port))
                } else {
                    None
                },
                _ => None,
            },
            LineView::Chain(_) => None,
        }
}

/// What is done with a packet of the service port.
pub open spec fn taken(
    lines: Seq<LineView>,
    front: FrontView,
    met: spec_fn(MatchingView) -> bool,
) -> Option<TargetView> {
    first_of(lines, takes(front, met))
}

/// Where a packet of the service port goes, given which conditions it meets: to where the line
/// that takes it sends it, or the first sending line of the chain to which that one jumps.
pub open spec fn routed(
    lines: Seq<LineView>,
    front: FrontView,
    met: spec_fn(MatchingView) -> bool,
) -> Option<(Seq<char>, nat)> {
    match taken(lines, front, met) {
        Some(TargetView::Dnat { ip, port }) => Some((ip, port)),
        Some(TargetView::Jump { chain }) => first_of(lines, sends(chain)),
        _ => None,
    }
}

/// Whether a packet is to return to endpoint `i`, and to none before it.
pub open spec fn returns_to(
    group: GroupView,
    affinity: Affinity,
    met: spec_fn(MatchingView) -> bool,
    i: nat,
) -> bool {
    met(returning(group, affinity, i)) && forall|j: nat|
        j < i ==> !met(#[trigger] returning(group, affinity, j))
}

/// Whether the dice pick endpoint `i` of `n`, and none before it.
pub open spec fn drawn(n: nat, met: spec_fn(MatchingView) -> bool, i: nat) -> bool {
    i < n && met(share(n, i)) && forall|j: nat| j < i ==> !met(#[trigger] share(n, j))
}

proof fn lemma_return_block(
    front: FrontView,
    group: GroupView,
    affinity: Affinity,
    endpoints: Seq<(Seq<char>, u16)>,
    with_chains: bool,
    met: spec_fn(MatchingView) -> bool,
    i: nat,
)
    ensures
        taken(
            return_lines(front, group, affinity, endpoints, with_chains, i),
            front,
            met,
        ) == if met(returning(group, affinity, i)) {
            Some(TargetView::Jump { chain: group.chain(i) })
        } else {
            None
        },
{
    let says = takes(front, met);
    let block = return_lines(front, group, affinity, endpoints, with_chains, i);
    let last = seq![
        front_line(
            front,
            returning(group, affinity, i),
            TargetView::Jump { chain: group.chain(i) },
            None,
        ),
    ];
    reveal_with_fuel(first_of, 5);
    if with_chains {
        let chain = endpoint_chain(front.protocol, group, affinity, endpoints[i as int], i);
        assert(block =~= chain + last);
        lemma_first_of_add(chain, last, says);
    } else {
        assert(block =~= last);
    }
}

proof fn lemma_comebacks(
    front: FrontView,
    group: GroupView,
    affinity: Affinity,
    endpoints: Seq<(Seq<char>, u16)>,
    with_chains: bool,
    met: spec_fn(MatchingView) -> bool,
    n: nat,
)
    ensures
        ({
            let t = taken(
                all_return_lines(front, group, affinity, endpoints, with_chains, n),
                front,
                met,
            );
            &&& forall|i: nat|
                i < n && #[trigger] returns_to(group, affinity, met, i) ==> t == Some(
                    TargetView::Jump { chain: group.chain(i) },
                )
            &&& (forall|i: nat| i < n ==> !met(#[trigger] returning(group, affinity, i)))
                ==> t is None
        }),
    decreases n,
{
    let f = |i: int| return_lines(front, group, affinity, endpoints, with_chains, i as nat);
    if n > 0 {
        let m = (n - 1) as nat;
        lemma_comebacks(front, group, affinity, endpoints, with_chains, met, m);
        assert(Seq::new(n, f) =~= Seq::new(m, f).push(f(m as int)));
        lemma_concat_push(Seq::new(m, f), f(m as int));
        lemma_first_of_add(concat(Seq::new(m, f)), f(m as int), takes(front, met));
        lemma_return_block(front, group, affinity, endpoints, with_chains, met, m);
        if met(returning(group, affinity, m)) && !(forall|i: nat|
            i < m ==> !met(#[trigger] returning(group, affinity, i))) {
            assert(!returns_to(group, affinity, met, m));
        }
    }
}

proof fn lemma_shares(
    front: FrontView,
    group: GroupView,
    met: spec_fn(MatchingView) -> bool,
    total: nat,
    from: nat,
    i: nat,
)
    requires
        from <= i,
        drawn(total, met, i),
    ensures
        taken(
            Seq::new((total - from) as nat, |k: int| share_line(front, group, total, (k + from) as nat)),
            front,
            met,
        ) == Some(TargetView::Jump { chain: group.chain(i) }),
    decreases i - from,
{
    let lines = Seq::new(
        (total - from) as nat,
        |k: int| share_line(front, group, total, (k + from) as nat),
    );
    assert(lines[0] == share_line(front, group, total, from));
    if from < i {
        assert(!met(share(total, from)));
        let rest = Seq::new(
            (total - (from + 1)) as nat,
            |k: int| share_line(front, group, total, (k + (from + 1)) as nat),
        );
        assert(lines.drop_first() =~= rest);
        lemma_shares(front, group, met, total, from + 1, i);
    }
}

proof fn lemma_direct(
    front: FrontView,
    endpoints: Seq<(Seq<char>, u16)>,
    met: spec_fn(MatchingView) -> bool,
    from: nat,
    i: nat,
)
    requires
        from <= i,
        drawn(endpoints.len(), met, i),
    ensures
        taken(
            Seq::new(
                (endpoints.len() - from) as nat,
                |k: int| direct_line(front, endpoints, (k + from) as nat),
            ),
            front,
            met,
        ) == Some(
            TargetView::Dnat { ip: endpoints[i as int].0, port: endpoints[i as int].1 as nat },
        ),
    decreases i - from,
{
    let total = endpoints.len();
    let lines = Seq::new(
        (total - from) as nat,
        |k: int| direct_line(front, endpoints, (k + from) as nat),
    );
    assert(lines[0] == direct_line(front, endpoints, from));
    if from < i {
        assert(!met(share(total, from)));
        let rest = Seq::new(
            (total - (from + 1)) as nat,
            |k: int| direct_line(front, endpoints, (k + (from + 1)) as nat),
        );
        assert(lines.drop_first() =~= rest);
        lemma_direct(front, endpoints, met, from + 1, i);
    }
}

proof fn lemma_chain_names(group: GroupView, i: nat, j: nat)
    requires
        group.chain(i) == group.chain(j),
    ensures
        i == j,
{
    let p = group.chain_prefix.len() as int;
    assert(group.chain(i).skip(p) =~= crate::text::decimal(i));
    assert(group.chain(j).skip(p) =~= crate::text::decimal(j));
    lemma_decimal_injective(i, j);
}

proof fn lemma_endpoint_chains(
    front: FrontView,
    group: GroupView,
    affinity: Affinity,
    endpoints: Seq<(Seq<char>, u16)>,
    n: nat,
    i: nat,
)
    requires
        n <= endpoints.len(),
    ensures
        first_of(
            all_return_lines(front, group, affinity, endpoints, true, n),
            sends(group.chain(i)),
        ) == if i < n {
            Some((endpoints[i as int].0, endpoints[i as int].1 as nat))
        } else {
            None
        },
    decreases n,
{
    let f = |k: int| return_lines(front, group, affinity, endpoints, true, k as nat);
    let says = sends(group.chain(i));
    if n > 0 {
        let m = (n - 1) as nat;
        lemma_endpoint_chains(front, group, affinity, endpoints, m, i);
        assert(Seq::new(n, f) =~= Seq::new(m, f).push(f(m as int)));
        lemma_concat_push(Seq::new(m, f), f(m as int));
        lemma_first_of_add(concat(Seq::new(m, f)), f(m as int), says);
        let block = f(m as int);
        if group.chain(m) == group.chain(i) {
            lemma_chain_names(group, m, i);
        }
        assert(block.drop_first()[0] == block[1]);
        assert(block.drop_first().drop_first()[0] == block[2]);
        assert(block.drop_first().drop_first().drop_first()[0] == block[3]);
        reveal_with_fuel(first_of, 5);
    }
}

/// A client that is to return to an endpoint gets there, whatever the dice say.
pub proof fn law_clients_return(
    front: FrontView,
    group: GroupView,
    affinity: Affinity,
    endpoints: Seq<(Seq<char>, u16)>,
    met: spec_fn(MatchingView) -> bool,
    i: nat,
)
    requires
        affinity !is Off,
        i < endpoints.len(),
        returns_to(group, affinity, met, i),
    ensures
        routed(balance_lines(front, group, affinity, endpoints, true), front, met) == Some(
            (endpoints[i as int].0, endpoints[i as int].1 as nat),
        ),
{
    let n = endpoints.len();
    let comebacks = all_return_lines(front, group, affinity, endpoints, true, n);
    let shares = Seq::new(n, |k: int| share_line(front, group, n, k as nat));
    lemma_comebacks(front, group, affinity, endpoints, true, met, n);
    lemma_first_of_add(comebacks, shares, takes(front, met));
    lemma_endpoint_chains(front, group, affinity, endpoints, n, i);
    lemma_first_of_add(comebacks, shares, sends(group.chain(i)));
}

/// A client that is to return nowhere goes where the dice say.
pub proof fn law_new_clients_are_drawn(
    front: FrontView,
    group: GroupView,
    affinity: Affinity,
    endpoints: Seq<(Seq<char>, u16)>,
    met: spec_fn(MatchingView) -> bool,
    i: nat,
)
    requires
        affinity is Off || forall|j: nat|
            j < endpoints.len() ==> !met(#[trigger] returning(group, affinity, j)),
        drawn(endpoints.len(), met, i),
    ensures
        routed(balance_lines(front, group, affinity, endpoints, true), front, met) == Some(
            (endpoints[i as int].0, endpoints[i as int].1 as nat),
        ),
{
    let n = endpoints.len();
    match affinity {
        Affinity::Off => {
            lemma_direct(front, endpoints, met, 0, i);
            assert(balance_lines(front, group, affinity, endpoints, true) =~= Seq::new(
                (n - 0) as nat,
                |k: int| direct_line(front, endpoints, (k + 0) as nat),
            ));
        },
        _ => {
            let comebacks = all_return_lines(front, group, affinity, endpoints, true, n);
            let shares = Seq::new(n, |k: int| share_line(front, group, n, k as nat));
            lemma_comebacks(front, group, affinity, endpoints, true, met, n);
            lemma_shares(front, group, met, n, 0, i);
            assert(shares =~= Seq::new(
                (n - 0) as nat,
                |k: int| share_line(front, group, n, (k + 0) as nat),
            ));
            lemma_first_of_add(comebacks, shares, takes(front, met));
            lemma_endpoint_chains(front, group, affinity, endpoints, n, i);
            lemma_first_of_add(comebacks, shares, sends(group.chain(i)));
        },
    }
}

proof fn lemma_someone_drawn(n: nat, met: spec_fn(MatchingView) -> bool, from: nat) -> (i: nat)
    requires
        from < n,
        met(MatchingView::Any),
        forall|j: nat| j < from ==> !met(#[trigger] share(n, j)),
    ensures
        drawn(n, met, i),
    decreases n - from,
{
    if met(share(n, from)) {
        from
    } else {
        assert(share(n, (n - 1) as nat) == MatchingView::Any);
        lemma_someone_drawn(n, met, from + 1)
    }
}

proof fn lemma_first_return(
    group: GroupView,
    affinity: Affinity,
    met: spec_fn(MatchingView) -> bool,
    n: nat,
) -> (i: nat)
    requires
        met(returning(group, affinity, n)),
    ensures
        i <= n,
        returns_to(group, affinity, met, i),
    decreases n,
{
    if exists|j: nat| j < n && met(#[trigger] returning(group, affinity, j)) {
        let j = choose|j: nat| j < n && met(#[trigger] returning(group, affinity, j));
        lemma_first_return(group, affinity, met, j)
    } else {
        n
    }
}

/// Every packet of a service port that has endpoints goes to one of them.
pub proof fn law_every_packet_arrives(
    front: FrontView,
    group: GroupView,
    affinity: Affinity,
    endpoints: Seq<(Seq<char>, u16)>,
    met: spec_fn(MatchingView) -> bool,
)
    requires
        endpoints.len() > 0,
        met(MatchingView::Any),
    ensures
        exists|i: nat|
            i < endpoints.len() && routed(
                balance_lines(front, group, affinity, endpoints, true),
                front,
                met,
            ) == Some((#[trigger] endpoints[i as int].0, endpoints[i as int].1 as nat)),
{
    let n = endpoints.len();
    if affinity !is Off && exists|j: nat| j < n && met(#[trigger] returning(group, affinity, j)) {
        let j = choose|j: nat| j < n && met(#[trigger] returning(group, affinity, j));
        let i = lemma_first_return(group, affinity, met, j);
        law_clients_return(front, group, affinity, endpoints, met, i);
        assert(endpoints[i as int].0 == endpoints[i as int].0);
    } else {
        let i = lemma_someone_drawn(n, met, 0);
        law_new_clients_are_drawn(front, group, affinity, endpoints, met, i);
        assert(endpoints[i as int].0 == endpoints[i as int].0);
    }
}

/// Lines with the chains of the endpoints and lines without them do the same with a packet.
pub proof fn lemma_same_taken(
    a: FrontView,
    b: FrontView,
    group: GroupView,
    affinity: Affinity,
    endpoints: Seq<(Seq<char>, u16)>,
    met: spec_fn(MatchingView) -> bool,
)
    requires
        met(MatchingView::Any),
    ensures
        taken(balance_lines(a, group, affinity, endpoints, true), a, met) == taken(
            balance_lines(b, group, affinity, endpoints, false),
            b,
            met,
        ),
{
    let n = endpoints.len();
    if n == 0 {
        assert(balance_lines(a, group, affinity, endpoints, true).len() == 0);
        assert(balance_lines(b, group, affinity, endpoints, false).len() == 0);
    } else if affinity is Off {
        let i = lemma_someone_drawn(n, met, 0);
        lemma_direct(a, endpoints, met, 0, i);
        lemma_direct(b, endpoints, met, 0, i);
        assert(balance_lines(a, group, affinity, endpoints, true) =~= Seq::new(
            (n - 0) as nat,
            |k: int| direct_line(a, endpoints, (k + 0) as nat),
        ));
        assert(balance_lines(b, group, affinity, endpoints, false) =~= Seq::new(
            (n - 0) as nat,
            |k: int| direct_line(b, endpoints, (k + 0) as nat),
        ));
    } else {
        lemma_comebacks(a, group, affinity, endpoints, true, met, n);
        lemma_comebacks(b, group, affinity, endpoints, false, met, n);
        let a_shares = Seq::new(n, |k: int| share_line(a, group, n, k as nat));
        let b_shares = Seq::new(n, |k: int| share_line(b, group, n, k as nat));
        lemma_first_of_add(
            all_return_lines(a, group, affinity, endpoints, true, n),
            a_shares,
            takes(a, met),
        );
        lemma_first_of_add(
            all_return_lines(b, group, affinity, endpoints, false, n),
            b_shares,
            takes(b, met),
        );
        if exists|j: nat| j < n && met(#[trigger] returning(group, affinity, j)) {
            let j = choose|j: nat| j < n && met(#[trigger] returning(group, affinity, j));
            let i = lemma_first_return(group, affinity, met, j);
        } else {
            let i = lemma_someone_drawn(n, met, 0);
            lemma_shares(a, group, met, n, 0, i);
            lemma_shares(b, group, met, n, 0, i);
            assert(a_shares =~= Seq::new(
                (n - 0) as nat,
                |k: int| share_line(a, group, n, (k + 0) as nat),
            ));
            assert(b_shares =~= Seq::new(
                (n - 0) as nat,
                |k: int| share_line(b, group, n, (k + 0) as nat),
            ));
        }
    }
}

/// A node port does with a packet what the address of its service does with a packet that meets
/// the same conditions: a client that came to an endpoint over the one returns to it over the
/// other.
pub proof fn law_node_port_follows_address(
    m: NatSettings,
    service: ServiceView,
    port: ServicePortView,
    slices: Map<Seq<char>, Vec<SliceEndpoint>>,
    ip: Seq<char>,
    node_port: u16,
    met: spec_fn(MatchingView) -> bool,
)
    requires
        service.address() == Some(ip),
        port.node_port == Some(node_port),
        node_port > 0,
        met(MatchingView::Any),
    ensures
        taken(node_lines(m, service, port, slices), node_front(m, port, node_port), met) == taken(
            cluster_lines(m, service, port, slices),
            cluster_front(m, ip, port),
            met,
        ),
{
    let endpoints = selected(service, port, slices);
    lemma_same_taken(
        cluster_front(m, ip, port),
        node_front(m, port, node_port),
        crate::balance::service_group(ip, port.port as nat),
        crate::nat_table::service_affinity(m, service, endpoints.len()),
        endpoints,
        met,
    );
}

} // verus!
