//! The rules that share the traffic of one service port among its endpoints.

use crate::probability::{rule_weight, weight};
use crate::rule::{
    line_views, lines_wf, push_line, LineView, Matching, MatchingView, NatLine, Rule, RuleView,
    Target, TargetView,
};
use crate::text::{
    concat, decimal, decimal_text, is_digit, lemma_concat_contains, lemma_concat_push,
    lemma_decimal_digits, lemma_decimal_injective, option_text, remove_char, without,
};
use vstd::prelude::*;

verus! {

/// The traffic that a service port takes, and where its rules stand.
pub struct Front {
    pub chain: String,
    pub destination: Option<String>,
    pub protocol: String,
    pub dport: u16,
    pub comment: Option<String>,
}

/// The content of a [`Front`].
pub struct FrontView {
    pub chain: Seq<char>,
    pub destination: Option<Seq<char>>,
    pub protocol: Seq<char>,
    pub dport: nat,
    pub comment: Option<Seq<char>>,
}

impl View for Front {
    type V = FrontView;

    open spec fn view(&self) -> FrontView {
        FrontView {
            chain: self.chain@,
            destination: option_text(self.destination),
            protocol: self.protocol@,
            dport: self.dport as nat,
            comment: option_text(self.comment),
        }
    }
}

/// How the chains and client lists of single endpoints are named: a prefix, then the
/// number of the endpoint.
pub struct Group {
    pub chain_prefix: String,
    pub list_prefix: String,
}

/// The content of a [`Group`].
pub struct GroupView {
    pub chain_prefix: Seq<char>,
    pub list_prefix: Seq<char>,
}

impl View for Group {
    type V = GroupView;

    open spec fn view(&self) -> GroupView {
        GroupView { chain_prefix: self.chain_prefix@, list_prefix: self.list_prefix@ }
    }
}

/// How clients are kept at the endpoint that they first reached.
#[derive(Clone, Copy, Debug)]
pub enum Affinity {
    /// They are not.
    Off,
    /// By lists of recently seen source addresses.
    Recent { seconds: i32 },
    /// By marks on their connections.
    Connmark,
}

/// How clients are kept at `n` endpoints, given what the kernel offers. One endpoint needs
/// no affinity.
pub open spec fn affinity_for(
    sticky: bool,
    n: nat,
    seconds: i32,
    recent_available: bool,
    hashlimit_available: bool,
) -> Affinity {
    if sticky && n > 1 && recent_available {
        Affinity::Recent { seconds }
    } else if sticky && n > 1 && hashlimit_available {
        Affinity::Connmark
    } else {
        Affinity::Off
    }
}

/// Decides how clients are kept at `n` endpoints.
pub fn choose_affinity(
    sticky: bool,
    n: usize,
    seconds: i32,
    recent_available: bool,
    hashlimit_available: bool,
) -> (affinity: Affinity)
    ensures
        affinity == affinity_for(sticky, n as nat, seconds, recent_available, hashlimit_available),
{
    if sticky && n > 1 && recent_available {
        Affinity::Recent { seconds }
    } else if sticky && n > 1 && hashlimit_available {
        Affinity::Connmark
    } else {
        Affinity::Off
    }
}

/// The addresses and ports that a list of endpoints holds.
pub open spec fn endpoint_views(endpoints: Seq<(String, u16)>) -> Seq<(Seq<char>, u16)> {
    endpoints.map_values(|e: (String, u16)| (e.0@, e.1))
}

// ---------------------------------------------------------------------------
// Names
// ---------------------------------------------------------------------------

/// What the names of a service port begin with, after their kind: the address without its
/// dots, and the port.
pub open spec fn service_stem(ip: Seq<char>, port: nat) -> Seq<char> {
    without(ip, '.') + "-"@ + decimal(port) + "-"@
}

/// The names for the endpoints of a service port.
pub open spec fn service_group(ip: Seq<char>, port: nat) -> GroupView {
    GroupView {
        chain_prefix: "KUBE-SEP-"@ + service_stem(ip, port),
        list_prefix: "AFFINITY-"@ + service_stem(ip, port),
    }
}

/// The names for the endpoints of a node port.
pub open spec fn node_group(node_port: nat) -> GroupView {
    GroupView {
        chain_prefix: "KUBE-NP-SEP-"@ + (decimal(node_port) + "-"@),
        list_prefix: "NP-AFFINITY-"@ + (decimal(node_port) + "-"@),
    }
}

impl GroupView {
    /// The chain of endpoint `i`.
    pub open spec fn chain(self, i: nat) -> Seq<char> {
        self.chain_prefix + decimal(i)
    }

    /// The list of the clients of endpoint `i`.
    pub open spec fn list(self, i: nat) -> Seq<char> {
        self.list_prefix + decimal(i)
    }
}

impl Group {
    /// The names for the endpoints of a service port.
    pub fn for_service(ip: &str, port: u16) -> (group: Group)
        ensures
            group@ == service_group(ip@, port as nat),
    {
        let mut stem = remove_char(ip, '.');
        stem.append("-");
        stem.append(decimal_text(port as u128).as_str());
        stem.append("-");
        let mut chain_prefix = "KUBE-SEP-".to_string();
        chain_prefix.append(stem.as_str());
        let mut list_prefix = "AFFINITY-".to_string();
        list_prefix.append(stem.as_str());
        Group { chain_prefix, list_prefix }
    }

    /// The names for the endpoints of a node port.
    pub fn for_node_port(node_port: u16) -> (group: Group)
        ensures
            group@ == node_group(node_port as nat),
    {
        let mut stem = decimal_text(node_port as u128);
        stem.append("-");
        let mut chain_prefix = "KUBE-NP-SEP-".to_string();
        chain_prefix.append(stem.as_str());
        let mut list_prefix = "NP-AFFINITY-".to_string();
        list_prefix.append(stem.as_str());
        Group { chain_prefix, list_prefix }
    }

    /// The chain of endpoint `i`.
    pub fn chain(&self, i: usize) -> (name: String)
        ensures
            name@ == self@.chain(i as nat),
    {
        let mut name = self.chain_prefix.clone();
        name.append(decimal_text(i as u128).as_str());
        name
    }

    /// The list of the clients of endpoint `i`.
    pub fn list(&self, i: usize) -> (name: String)
        ensures
            name@ == self@.list(i as nat),
    {
        let mut name = self.list_prefix.clone();
        name.append(decimal_text(i as u128).as_str());
        name
    }
}

// ---------------------------------------------------------------------------
// Lines
// ---------------------------------------------------------------------------

/// The mark of the connections that go to endpoint `i`.
pub open spec fn mark(i: nat) -> nat {
    0x4000 + i
}

/// The chain of one endpoint: it notes where the client or its connection went, then sends
/// the packet to the endpoint.
pub open spec fn endpoint_chain(
    protocol: Seq<char>,
    group: GroupView,
    affinity: Affinity,
    endpoint: (Seq<char>, u16),
    i: nat,
) -> Seq<LineView> {
    let note = match affinity {
        Affinity::Connmark => (MatchingView::Any, TargetView::SetMark { mark: mark(i) }),
        _ => (MatchingView::RecentSet { name: group.list(i) }, TargetView::Continue),
    };
    seq![
        LineView::Chain(group.chain(i)),
        LineView::Append(
            RuleView {
                chain: group.chain(i),
                destination: None,
                protocol: None,
                dport: None,
                matching: note.0,
                target: note.1,
                comment: None,
            },
        ),
        LineView::Append(
            RuleView {
                chain: group.chain(i),
                destination: None,
                protocol: Some(protocol),
                dport: None,
                matching: MatchingView::Any,
                target: TargetView::Dnat { ip: endpoint.0, port: endpoint.1 as nat },
                comment: None,
            },
        ),
    ]
}

/// A rule for the traffic of the service port.
pub open spec fn front_line(
    front: FrontView,
    matching: MatchingView,
    target: TargetView,
    comment: Option<Seq<char>>,
) -> LineView {
    LineView::Append(
        RuleView {
            chain: front.chain,
            destination: front.destination,
            protocol: Some(front.protocol),
            dport: Some(front.dport),
            matching,
            target,
            comment,
        },
    )
}

/// What tells that a client is to return to endpoint `i`.
pub open spec fn returning(group: GroupView, affinity: Affinity, i: nat) -> MatchingView {
    match affinity {
        Affinity::Off => MatchingView::Any,
        Affinity::Recent { seconds } => MatchingView::RecentCheck {
            name: group.list(i),
            seconds: seconds as int,
        },
        Affinity::Connmark => MatchingView::Connmark { mark: mark(i) },
    }
}

/// What picks endpoint `i` of `n` for a new client.
pub open spec fn share(n: nat, i: nat) -> MatchingView {
    match weight(n, i) {
        Some(k) => MatchingView::Statistic { weight: k },
        None => MatchingView::Any,
    }
}

/// The lines that bring clients back to endpoint `i`, with its chain if that is wanted.
pub open spec fn return_lines(
    front: FrontView,
    group: GroupView,
    affinity: Affinity,
    endpoints: Seq<(Seq<char>, u16)>,
    with_chains: bool,
    i: nat,
) -> Seq<LineView> {
    (if with_chains {
        endpoint_chain(front.protocol, group, affinity, endpoints[i as int], i)
    } else {
        Seq::empty()
    }) + seq![
        front_line(
            front,
            returning(group, affinity, i),
            TargetView::Jump { chain: group.chain(i) },
            None,
        ),
    ]
}

/// The line that gives endpoint `i` its share of the new clients, through its chain.
pub open spec fn share_line(front: FrontView, group: GroupView, n: nat, i: nat) -> LineView {
    front_line(front, share(n, i), TargetView::Jump { chain: group.chain(i) }, None)
}

/// The line that gives endpoint `i` its share of the traffic.
pub open spec fn direct_line(
    front: FrontView,
    endpoints: Seq<(Seq<char>, u16)>,
    i: nat,
) -> LineView {
    front_line(
        front,
        share(endpoints.len(), i),
        TargetView::Dnat { ip: endpoints[i as int].0, port: endpoints[i as int].1 as nat },
        front.comment,
    )
}

/// The lines that bring clients back, endpoint by endpoint.
pub open spec fn all_return_lines(
    front: FrontView,
    group: GroupView,
    affinity: Affinity,
    endpoints: Seq<(Seq<char>, u16)>,
    with_chains: bool,
    n: nat,
) -> Seq<LineView> {
    concat(
        Seq::new(
            n,
            |i: int| return_lines(front, group, affinity, endpoints, with_chains, i as nat),
        ),
    )
}

/// All lines of a service port: without affinity, one per endpoint; with affinity, first
/// those that bring clients back, then those that share out the new ones.
pub open spec fn balance_lines(
    front: FrontView,
    group: GroupView,
    affinity: Affinity,
    endpoints: Seq<(Seq<char>, u16)>,
    with_chains: bool,
) -> Seq<LineView> {
    match affinity {
        Affinity::Off => Seq::new(
            endpoints.len(),
            |i: int| direct_line(front, endpoints, i as nat),
        ),
        _ => all_return_lines(front, group, affinity, endpoints, with_chains, endpoints.len())
            + Seq::new(
            endpoints.len(),
            |i: int| share_line(front, group, endpoints.len(), i as nat),
        ),
    }
}

impl Front {
    fn line(&self, matching: Matching, target: Target, comment: &Option<String>) -> (line: NatLine)
        ensures
            line@ == front_line(self@, matching@, target@, option_text(*comment)),
    {
        NatLine::Append(
            Rule {
                chain: self.chain.clone(),
                destination: copy_option(&self.destination),
                protocol: Some(self.protocol.clone()),
                dport: Some(self.dport),
                matching,
                target,
                comment: copy_option(comment),
            },
        )
    }
}

/// A copy of an optional text.
pub fn copy_option(text: &Option<String>) -> (copy: Option<String>)
    ensures
        copy == *text,
{
    match text {
        Some(t) => Some(t.clone()),
        None => None,
    }
}

fn push_endpoint_chain(
    lines: &mut Vec<NatLine>,
    protocol: &String,
    group: &Group,
    affinity: Affinity,
    endpoint: &(String, u16),
    i: usize,
)
    ensures
        line_views(final(lines)@) == line_views(old(lines)@) + endpoint_chain(
            protocol@,
            group@,
            affinity,
            (endpoint.0@, endpoint.1),
            i as nat,
        ),
{
    let (matching, target) = match affinity {
        Affinity::Connmark => (Matching::Any, Target::SetMark { mark: 0x4000 + i as u128 }),
        _ => (Matching::RecentSet { name: group.list(i) }, Target::Continue),
    };
    lines.push(NatLine::Chain(group.chain(i)));
    lines.push(
        NatLine::Append(
            Rule {
                chain: group.chain(i),
                destination: None,
                protocol: None,
                dport: None,
                matching,
                target,
                comment: None,
            },
        ),
    );
    lines.push(
        NatLine::Append(
            Rule {
                chain: group.chain(i),
                destination: None,
                protocol: Some(protocol.clone()),
                dport: None,
                matching: Matching::Any,
                target: Target::Dnat { ip: endpoint.0.clone(), port: endpoint.1 },
                comment: None,
            },
        ),
    );
    assert(line_views(lines@) =~= line_views(old(lines)@) + endpoint_chain(
        protocol@,
        group@,
        affinity,
        (endpoint.0@, endpoint.1),
        i as nat,
    ));
}

fn share_matching(n: usize, i: usize) -> (matching: Matching)
    requires
        i < n,
    ensures
        matching@ == share(n as nat, i as nat),
{
    match rule_weight(n, i) {
        Some(weight) => Matching::Statistic { weight },
        None => Matching::Any,
    }
}

/// Writes all lines of a service port.
pub fn balance(
    front: &Front,
    group: &Group,
    affinity: Affinity,
    endpoints: &[(String, u16)],
    with_chains: bool,
) -> (lines: Vec<NatLine>)
    ensures
        line_views(lines@) == balance_lines(
            front@,
            group@,
            affinity,
            endpoint_views(endpoints@),
            with_chains,
        ),
        lines_wf(line_views(lines@)),
{
    let mut lines: Vec<NatLine> = Vec::new();
    let n: usize = endpoints.len();
    let ghost eps = endpoint_views(endpoints@);
    let mut i: usize = 0;
    let none: Option<String> = None;
    match affinity {
        Affinity::Off => {
            while i < n
                invariant
                    i <= n == endpoints.len(),
                    none is None,
                    eps == endpoint_views(endpoints@),
                    line_views(lines@) == Seq::new(
                        i as nat,
                        |k: int| direct_line(front@, eps, k as nat),
                    ),
                decreases n - i,
            {
                let target = Target::Dnat { ip: endpoints[i].0.clone(), port: endpoints[i].1 };
                let line = front.line(share_matching(n, i), target, &front.comment);
                assert(eps[i as int] == (endpoints[i as int].0@, endpoints[i as int].1));
                assert(line@ == direct_line(front@, eps, i as nat));
                push_line(&mut lines, line);
                i += 1;
                assert(line_views(lines@) =~= Seq::new(
                    i as nat,
                    |k: int| direct_line(front@, eps, k as nat),
                ));
            }
        },
        _ => {
            assert(line_views(lines@) =~= all_return_lines(
                front@,
                group@,
                affinity,
                eps,
                with_chains,
                0,
            ));
            while i < n
                invariant
                    i <= n == endpoints.len(),
                    none is None,
                    eps == endpoint_views(endpoints@),
                    line_views(lines@) == all_return_lines(
                        front@,
                        group@,
                        affinity,
                        eps,
                        with_chains,
                        i as nat,
                    ),
                    affinity !is Off,
                decreases n - i,
            {
                let ghost before = line_views(lines@);
                assert(eps[i as int] == (endpoints[i as int].0@, endpoints[i as int].1));
                if with_chains {
                    push_endpoint_chain(
                        &mut lines,
                        &front.protocol,
                        group,
                        affinity,
                        &endpoints[i],
                        i,
                    );
                }
                let matching = match affinity {
                    Affinity::Off => Matching::Any,
                    Affinity::Recent { seconds } => Matching::RecentCheck {
                        name: group.list(i),
                        seconds,
                    },
                    Affinity::Connmark => Matching::Connmark { mark: 0x4000 + i as u128 },
                };
                let line = front.line(matching, Target::Jump { chain: group.chain(i) }, &none);
                push_line(&mut lines, line);
                proof {
                    let block = return_lines(front@, group@, affinity, eps, with_chains, i as nat);
                    assert(line_views(lines@) =~= before + block);
                    let blocks = Seq::new(
                        i as nat,
                        |k: int|
                            return_lines(front@, group@, affinity, eps, with_chains, k as nat),
                    );
                    lemma_concat_push(blocks, block);
                    assert(blocks.push(block) =~= Seq::new(
                        (i + 1) as nat,
                        |k: int|
                            return_lines(front@, group@, affinity, eps, with_chains, k as nat),
                    ));
                }
                i += 1;
            }
            let ghost comebacks = line_views(lines@);
            i = 0;
            assert(comebacks =~= comebacks + Seq::new(
                0,
                |k: int| share_line(front@, group@, n as nat, k as nat),
            ));
            while i < n
                invariant
                    i <= n == endpoints.len(),
                    none is None,
                    line_views(lines@) == comebacks + Seq::new(
                        i as nat,
                        |k: int| share_line(front@, group@, n as nat, k as nat),
                    ),
                decreases n - i,
            {
                let target = Target::Jump { chain: group.chain(i) };
                let line = front.line(share_matching(n, i), target, &none);
                push_line(&mut lines, line);
                i += 1;
                assert(line_views(lines@) =~= comebacks + Seq::new(
                    i as nat,
                    |k: int| share_line(front@, group@, n as nat, k as nat),
                ));
            }
        },
    }
    proof {
        lemma_balance_wf(front@, group@, affinity, eps, with_chains);
    }
    lines
}

proof fn lemma_balance_wf(
    front: FrontView,
    group: GroupView,
    affinity: Affinity,
    endpoints: Seq<(Seq<char>, u16)>,
    with_chains: bool,
)
    ensures
        lines_wf(balance_lines(front, group, affinity, endpoints, with_chains)),
{
    let lines = balance_lines(front, group, affinity, endpoints, with_chains);
    let n = endpoints.len();
    assert forall|j: int| 0 <= j < lines.len() implies (#[trigger] lines[j]).wf() by {
        match affinity {
            Affinity::Off => {},
            _ => {
                let comebacks = all_return_lines(front, group, affinity, endpoints, with_chains, n);
                if j < comebacks.len() {
                    let blocks = Seq::new(
                        n,
                        |i: int|
                            return_lines(front, group, affinity, endpoints, with_chains, i as nat),
                    );
                    lemma_concat_contains(blocks, lines[j]);
                    assert(comebacks.contains(comebacks[j]));
                    let b = choose|b: int|
                        0 <= b < blocks.len() && (#[trigger] blocks[b]).contains(lines[j]);
                }
            },
        }
    }
}

// ---------------------------------------------------------------------------
// Laws
// ---------------------------------------------------------------------------

/// Whether every chain that a line of `lines` is appended to, or jumps to, stands in `context` or
/// in `lines` before that line.
pub open spec fn declared_in(context: Seq<LineView>, lines: Seq<LineView>) -> bool {
    forall|j: int| 0 <= j < lines.len() ==> declared_at(context, lines, j)
}

/// Whether a chain stands in `context` or in the first `j` lines.
pub open spec fn stands_before(
    context: Seq<LineView>,
    lines: Seq<LineView>,
    j: int,
    chain: Seq<char>,
) -> bool {
    context.contains(LineView::Chain(chain)) || lines.take(j).contains(LineView::Chain(chain))
}

/// Whether line `j` is appended only to a chain of `context` or of the lines before it, and jumps
/// only to such a chain.
pub open spec fn declared_at(context: Seq<LineView>, lines: Seq<LineView>, j: int) -> bool {
    match lines[j] {
        LineView::Append(rule) => {
            &&& stands_before(context, lines, j, rule.chain)
            &&& rule.target matches TargetView::Jump { chain } ==> stands_before(
                context,
                lines,
                j,
                chain,
            )
        },
        LineView::Chain(_) => true,
    }
}

/// Lines that use only declared chains may follow others that do.
pub proof fn lemma_declared_add(context: Seq<LineView>, a: Seq<LineView>, b: Seq<LineView>)
    requires
        declared_in(context, a),
        declared_in(context + a, b),
    ensures
        declared_in(context, a + b),
{
    let both = a + b;
    assert forall|j: int| 0 <= j < both.len() implies declared_at(context, both, j) by {
        if j < a.len() {
            assert(declared_at(context, a, j));
            assert(both.take(j) =~= a.take(j));
        } else {
            assert(declared_at(context + a, b, j - a.len()));
            assert(both.take(j) =~= a + b.take(j - a.len()));
            if let LineView::Append(rule) = both[j] {
                let home = LineView::Chain(rule.chain);
                lemma_contains_add(context, a, home);
                lemma_contains_add(a, b.take(j - a.len()), home);
                if let TargetView::Jump { chain } = rule.target {
                    let line = LineView::Chain(chain);
                    lemma_contains_add(context, a, line);
                    lemma_contains_add(a, b.take(j - a.len()), line);
                }
            }
        }
    }
}

proof fn lemma_contains_add(a: Seq<LineView>, b: Seq<LineView>, line: LineView)
    ensures
        (a + b).contains(line) <==> a.contains(line) || b.contains(line),
{
    if a.contains(line) {
        let k = choose|k: int| 0 <= k < a.len() && a[k] == line;
        assert((a + b)[k] == line);
    }
    if b.contains(line) {
        let k = choose|k: int| 0 <= k < b.len() && b[k] == line;
        assert((a + b)[a.len() + k] == line);
    }
    if (a + b).contains(line) {
        let k = choose|k: int| 0 <= k < (a + b).len() && (a + b)[k] == line;
        if k < a.len() {
            assert(a[k] == line);
        } else {
            assert(b[k - a.len()] == line);
        }
    }
}

/// More context does no harm.
pub proof fn lemma_declared_wider(
    context: Seq<LineView>,
    wider: Seq<LineView>,
    lines: Seq<LineView>,
)
    requires
        declared_in(context, lines),
        forall|line: LineView| #[trigger] context.contains(line) ==> wider.contains(line),
    ensures
        declared_in(wider, lines),
{
    assert forall|j: int| 0 <= j < lines.len() implies declared_at(wider, lines, j) by {
        assert(declared_at(context, lines, j));
    }
}

/// Blocks that each use only declared chains do so together.
pub proof fn lemma_declared_concat(context: Seq<LineView>, blocks: Seq<Seq<LineView>>)
    requires
        forall|i: int| 0 <= i < blocks.len() ==> declared_in(context, #[trigger] blocks[i]),
    ensures
        declared_in(context, concat(blocks)),
    decreases blocks.len(),
{
    if blocks.len() > 0 {
        let init = blocks.drop_last();
        assert forall|i: int| 0 <= i < init.len() implies declared_in(context, #[trigger] init[i]) by {
            assert(init[i] == blocks[i]);
        }
        lemma_declared_concat(context, init);
        assert forall|line: LineView| #[trigger]
            context.contains(line) implies (context + concat(init)).contains(line) by {
            lemma_contains_add(context, concat(init), line);
        }
        lemma_declared_wider(context, context + concat(init), blocks.last());
        lemma_declared_add(context, concat(init), blocks.last());
    }
}

/// A service port that is written with its chains declares the chain of every endpoint.
pub proof fn lemma_chains_declared(
    front: FrontView,
    group: GroupView,
    affinity: Affinity,
    endpoints: Seq<(Seq<char>, u16)>,
    i: nat,
)
    requires
        affinity !is Off,
        i < endpoints.len(),
    ensures
        all_return_lines(front, group, affinity, endpoints, true, endpoints.len()).contains(
            LineView::Chain(group.chain(i)),
        ),
        balance_lines(front, group, affinity, endpoints, true).contains(
            LineView::Chain(group.chain(i)),
        ),
{
    let n = endpoints.len();
    let line = LineView::Chain(group.chain(i));
    let blocks = Seq::new(
        n,
        |k: int| return_lines(front, group, affinity, endpoints, true, k as nat),
    );
    assert(blocks[i as int][0] == line);
    assert(blocks[i as int].contains(line));
    lemma_concat_contains(blocks, line);
    let comebacks = all_return_lines(front, group, affinity, endpoints, true, n);
    lemma_contains_add(
        comebacks,
        Seq::new(n, |k: int| share_line(front, group, n, k as nat)),
        line,
    );
}

/// A service port whose own chain is declared, and that is written with the chains of its
/// endpoints, uses only chains that are declared before. One that is written without them uses
/// only those that it would declare.
pub proof fn law_chains_are_declared(
    front: FrontView,
    group: GroupView,
    affinity: Affinity,
    endpoints: Seq<(Seq<char>, u16)>,
    with_chains: bool,
    context: Seq<LineView>,
)
    requires
        context.contains(LineView::Chain(front.chain)),
        with_chains || affinity is Off || forall|i: nat|
            i < endpoints.len() ==> context.contains(LineView::Chain(#[trigger] group.chain(i))),
    ensures
        declared_in(context, balance_lines(front, group, affinity, endpoints, with_chains)),
{
    let n = endpoints.len();
    let lines = balance_lines(front, group, affinity, endpoints, with_chains);
    match affinity {
        Affinity::Off => {
            assert forall|j: int| 0 <= j < lines.len() implies declared_at(context, lines, j) by {}
        },
        _ => {
            let comebacks = all_return_lines(front, group, affinity, endpoints, with_chains, n);
            let shares = Seq::new(n, |i: int| share_line(front, group, n, i as nat));
            let blocks = Seq::new(
                n,
                |i: int| return_lines(front, group, affinity, endpoints, with_chains, i as nat),
            );
            assert forall|i: int| 0 <= i < blocks.len() implies declared_in(
                context,
                #[trigger] blocks[i],
            ) by {
                let block = blocks[i];
                assert forall|j: int| 0 <= j < block.len() implies declared_at(context, block, j) by {
                    if with_chains {
                        if j > 0 {
                            assert(block.take(j)[0] == LineView::Chain(group.chain(i as nat)));
                        }
                    } else {
                        assert(context.contains(LineView::Chain(group.chain(i as nat))));
                    }
                }
            }
            lemma_declared_concat(context, blocks);
            assert forall|j: int| 0 <= j < shares.len() implies declared_at(
                context + comebacks,
                shares,
                j,
            ) by {
                let line = LineView::Chain(group.chain(j as nat));
                if with_chains {
                    lemma_chains_declared(front, group, affinity, endpoints, j as nat);
                }
                lemma_contains_add(context, comebacks, line);
                lemma_contains_add(context, comebacks, LineView::Chain(front.chain));
            }
            lemma_declared_add(context, comebacks, shares);
        },
    }
}

/// The last line of a service port that has endpoints takes every packet that reaches it,
/// so that no packet of the port is left without an endpoint.
pub proof fn law_last_line_takes_all(
    front: FrontView,
    group: GroupView,
    affinity: Affinity,
    endpoints: Seq<(Seq<char>, u16)>,
    with_chains: bool,
)
    requires
        endpoints.len() > 0,
    ensures
        ({
            let lines = balance_lines(front, group, affinity, endpoints, with_chains);
            &&& lines.len() > 0
            &&& lines.last() matches LineView::Append(rule)
            &&& rule.chain == front.chain
            &&& rule.destination == front.destination
            &&& rule.protocol == Some(front.protocol)
            &&& rule.dport == Some(front.dport)
            &&& rule.matching == MatchingView::Any
            &&& rule.target is Jump || rule.target is Dnat
        }),
{
}

/// With or without affinity, a service port that is written with its chains sends packets to
/// each of its endpoints, and to nothing else.
pub proof fn law_exactly_the_endpoints(
    front: FrontView,
    group: GroupView,
    affinity: Affinity,
    endpoints: Seq<(Seq<char>, u16)>,
    ip: Seq<char>,
    port: u16,
)
    ensures
        endpoints.contains((ip, port)) <==> exists|j: int|
            sends_to(balance_lines(front, group, affinity, endpoints, true), ip, port as nat, j),
{
    let lines = balance_lines(front, group, affinity, endpoints, true);
    let n = endpoints.len();
    let comebacks = all_return_lines(front, group, affinity, endpoints, true, n);
    let blocks = Seq::new(
        n,
        |i: int| return_lines(front, group, affinity, endpoints, true, i as nat),
    );
    if endpoints.contains((ip, port)) {
        let i = choose|i: int| 0 <= i < n && endpoints[i] == (ip, port);
        match affinity {
            Affinity::Off => {
                assert(sends_to(lines, ip, port as nat, i));
            },
            _ => {
                let line = blocks[i][2];
                assert(blocks[i].contains(line));
                lemma_concat_contains(blocks, line);
                let j = choose|j: int| 0 <= j < comebacks.len() && comebacks[j] == line;
                assert(lines[j] == line);
                assert(sends_to(lines, ip, port as nat, j));
            },
        }
    }
    if exists|j: int| sends_to(lines, ip, port as nat, j) {
        let j = choose|j: int| sends_to(lines, ip, port as nat, j);
        match affinity {
            Affinity::Off => {
                assert(endpoints[j] == (ip, port));
            },
            _ => {
                assert(j < comebacks.len());
                assert(comebacks.contains(lines[j]));
                lemma_concat_contains(blocks, lines[j]);
                let b = choose|b: int|
                    0 <= b < blocks.len() && (#[trigger] blocks[b]).contains(lines[j]);
                assert(endpoints[b] == (ip, port));
            },
        }
    }
}

/// Whether line `j` rewrites the destination to the address and port.
pub open spec fn sends_to(lines: Seq<LineView>, ip: Seq<char>, port: nat, j: int) -> bool {
    0 <= j < lines.len() && (lines[j] matches LineView::Append(rule) && rule.target
        == TargetView::Dnat { ip, port })
}

proof fn lemma_same_prefix(prefix: Seq<char>, a: Seq<char>, b: Seq<char>)
    requires
        prefix + a == prefix + b,
    ensures
        a == b,
{
    assert(a =~= (prefix + a).skip(prefix.len() as int));
    assert(b =~= (prefix + b).skip(prefix.len() as int));
}

/// Numbers in front of a dash can be told from what follows it.
proof fn lemma_dash_splits(a: nat, b: nat, x: Seq<char>, y: Seq<char>)
    requires
        decimal(a) + "-"@ + x == decimal(b) + "-"@ + y,
    ensures
        a == b,
        x == y,
{
    reveal_strlit("-");
    lemma_decimal_digits(a);
    lemma_decimal_digits(b);
    let p = decimal(a);
    let q = decimal(b);
    let l = p + "-"@ + x;
    let r = q + "-"@ + y;
    assert(l[p.len() as int] == '-');
    assert(r[q.len() as int] == '-');
    if p.len() < q.len() {
        assert(r[p.len() as int] == q[p.len() as int]);
        assert(is_digit(q[p.len() as int]));
    }
    if q.len() < p.len() {
        assert(l[q.len() as int] == p[q.len() as int]);
        assert(is_digit(p[q.len() as int]));
    }
    assert(p =~= l.take(p.len() as int));
    assert(q =~= r.take(q.len() as int));
    lemma_decimal_injective(a, b);
    assert(x =~= l.skip((p.len() + 1) as int));
    assert(y =~= r.skip((q.len() + 1) as int));
}

/// Within one service, neither two endpoints of a port nor endpoints of ports with different
/// numbers share a chain or a client list.
pub proof fn law_service_names_differ(ip: Seq<char>, p: nat, i: nat, q: nat, j: nat)
    requires
        service_group(ip, p).chain(i) == service_group(ip, q).chain(j) || service_group(
            ip,
            p,
        ).list(i) == service_group(ip, q).list(j),
    ensures
        p == q,
        i == j,
{
    let kind = if service_group(ip, p).chain(i) == service_group(ip, q).chain(j) {
        "KUBE-SEP-"@
    } else {
        "AFFINITY-"@
    };
    let head = kind + without(ip, '.') + "-"@;
    let l = decimal(p) + "-"@ + decimal(i);
    let r = decimal(q) + "-"@ + decimal(j);
    assert(kind + service_stem(ip, p) + decimal(i) =~= head + l);
    assert(kind + service_stem(ip, q) + decimal(j) =~= head + r);
    lemma_same_prefix(head, l, r);
    lemma_dash_splits(p, q, decimal(i), decimal(j));
    lemma_decimal_injective(i, j);
}

proof fn lemma_without_has(text: Seq<char>, c: char, x: char)
    requires
        !text.contains(x),
    ensures
        !without(text, c).contains(x),
    decreases text.len(),
{
    reveal(Seq::filter);
    if text.len() > 0 {
        let init = text.drop_last();
        assert forall|k: int| 0 <= k < init.len() implies init[k] != x by {
            assert(init[k] == text[k]);
            assert(text.contains(text[k]));
        }
        lemma_without_has(init, c, x);
        assert(text.contains(text.last()));
        let kept = without(init, c);
        assert forall|k: int| 0 <= k < without(text, c).len() implies without(text, c)[k] != x by {
            if k < kept.len() {
                assert(without(text, c)[k] == kept[k]);
                assert(kept.contains(kept[k]));
            }
        }
    }
}

/// What stands in front of the first dash can be told from what follows it.
proof fn lemma_first_dash(a: Seq<char>, b: Seq<char>, x: Seq<char>, y: Seq<char>)
    requires
        !a.contains('-'),
        !b.contains('-'),
        a + "-"@ + x == b + "-"@ + y,
    ensures
        a == b,
        x == y,
{
    reveal_strlit("-");
    let l = a + "-"@ + x;
    let r = b + "-"@ + y;
    assert(l[a.len() as int] == '-');
    assert(r[b.len() as int] == '-');
    if a.len() < b.len() {
        assert(r[a.len() as int] == b[a.len() as int]);
        assert(b.contains(b[a.len() as int]));
    }
    if b.len() < a.len() {
        assert(l[b.len() as int] == a[b.len() as int]);
        assert(a.contains(a[b.len() as int]));
    }
    assert(a =~= l.take(a.len() as int));
    assert(b =~= r.take(b.len() as int));
    assert(x =~= l.skip((a.len() + 1) as int));
    assert(y =~= r.skip((b.len() + 1) as int));
}

/// The chain of an endpoint tells the address of the service without its dots, the port and the
/// number of the endpoint, where addresses hold no dash.
pub proof fn law_chain_names_tell(
    ip: Seq<char>,
    p: nat,
    i: nat,
    jp: Seq<char>,
    q: nat,
    j: nat,
)
    requires
        !ip.contains('-'),
        !jp.contains('-'),
        service_group(ip, p).chain(i) == service_group(jp, q).chain(j),
    ensures
        without(ip, '.') == without(jp, '.'),
        p == q,
        i == j,
{
    let kind = "KUBE-SEP-"@;
    let x = decimal(p) + "-"@ + decimal(i);
    let y = decimal(q) + "-"@ + decimal(j);
    let l = without(ip, '.') + "-"@ + x;
    let r = without(jp, '.') + "-"@ + y;
    assert(service_group(ip, p).chain(i) =~= kind + l);
    assert(service_group(jp, q).chain(j) =~= kind + r);
    lemma_same_prefix(kind, l, r);
    lemma_without_has(ip, '.', '-');
    lemma_without_has(jp, '.', '-');
    lemma_first_dash(without(ip, '.'), without(jp, '.'), x, y);
    lemma_dash_splits(p, q, decimal(i), decimal(j));
    lemma_decimal_injective(i, j);
}

/// Neither two endpoints of a node port nor endpoints of different node ports share a chain or
/// a client list.
pub proof fn law_node_names_differ(p: nat, i: nat, q: nat, j: nat)
    requires
        node_group(p).chain(i) == node_group(q).chain(j) || node_group(p).list(i) == node_group(
            q,
        ).list(j),
    ensures
        p == q,
        i == j,
{
    let kind = if node_group(p).chain(i) == node_group(q).chain(j) {
        "KUBE-NP-SEP-"@
    } else {
        "NP-AFFINITY-"@
    };
    let l = decimal(p) + "-"@ + decimal(i);
    let r = decimal(q) + "-"@ + decimal(j);
    assert(kind + (decimal(p) + "-"@) + decimal(i) =~= kind + l);
    assert(kind + (decimal(q) + "-"@) + decimal(j) =~= kind + r);
    lemma_same_prefix(kind, l, r);
    lemma_dash_splits(p, q, decimal(i), decimal(j));
    lemma_decimal_injective(i, j);
}

/// The chains of service ports and those of node ports never coincide, nor do their lists.
pub proof fn law_kinds_differ(ip: Seq<char>, p: nat, i: nat, q: nat, j: nat)
    ensures
        service_group(ip, p).chain(i) != node_group(q).chain(j),
        service_group(ip, p).list(i) != node_group(q).list(j),
{
    reveal_strlit("KUBE-SEP-");
    reveal_strlit("KUBE-NP-SEP-");
    reveal_strlit("AFFINITY-");
    reveal_strlit("NP-AFFINITY-");
    assert(service_group(ip, p).chain(i)[5] == 'S');
    assert(node_group(q).chain(j)[5] == 'N');
    assert(service_group(ip, p).list(i)[0] == 'A');
    assert(node_group(q).list(j)[0] == 'N');
}

} // verus!
