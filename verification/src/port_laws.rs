//! What the commands say that add the rules of one service port.

use crate::balance::{
    affinity_for, all_return_lines, balance_lines, direct_line, node_group, return_lines,
    service_group, share_line, Affinity, FrontView, GroupView,
};
use crate::command_laws::{
    law_commands_are_understood, past_option, read, read_matching, read_target, word_at,
    ReadMatching, ReadTarget, Reading,
};
use crate::iptables::{line_step, made_chains, port_front, port_steps, service_front, ManagerView};
use crate::probability::probability;
use crate::session::{CommandView, InvocationView, StepView};
use crate::text::{concat, decimal, lemma_concat_push, lowercase, signed_decimal, without};
use vstd::prelude::*;

verus! {

/// What the commands of one service port are to say.
pub struct PortPlan {
    /// The program that is run.
    pub program: Seq<char>,
    /// The chain that takes the traffic.
    pub chain: Seq<char>,
    /// The address that the traffic goes to, if only one is meant.
    pub destination: Option<Seq<char>>,
    /// The protocol of the traffic.
    pub protocol: Seq<char>,
    /// The port that the traffic goes to.
    pub dport: nat,
    /// Where the traffic is to go.
    pub endpoints: Seq<(Seq<char>, u16)>,
    /// For how many seconds clients are kept at their endpoint, if they are.
    pub kept: Option<int>,
    /// How the chains of the endpoints are named, in front of their number.
    pub chain_prefix: Seq<char>,
    /// How the client lists of the endpoints are named, in front of their number.
    pub list_prefix: Seq<char>,
    /// The comment of rules that send traffic to an endpoint at once.
    pub comment: Seq<char>,
    /// The error where such a rule cannot be added.
    pub context: Seq<char>,
}

/// Whether a step runs a command that is read so.
pub open spec fn says(
    step: StepView,
    program: Seq<char>,
    on_unrun: Option<Seq<char>>,
    reading: Reading,
) -> bool {
    step matches StepView::Run(command) && command.invocation.program == program && command.on_unrun
        == on_unrun && command.on_reject is None && read(command.invocation.args) == Some(
        Reading { length: command.invocation.args.len() as int, ..reading },
    )
}

impl PortPlan {
    /// Where the traffic of endpoint `i` goes.
    pub open spec fn goal(self, i: int) -> Seq<char> {
        self.endpoints[i].0 + ":"@ + decimal(self.endpoints[i].1 as nat)
    }

    /// The dice for endpoint `i`: one packet in as many as there are endpoints left, and every
    /// packet for the last one.
    pub open spec fn dice(self, i: int) -> ReadMatching {
        if i + 1 == self.endpoints.len() {
            ReadMatching::Any
        } else {
            ReadMatching::Random { probability: probability((self.endpoints.len() - i) as nat) }
        }
    }

    /// A rule for the traffic of the port.
    pub open spec fn rule(
        self,
        matching: ReadMatching,
        target: ReadTarget,
        comment: Option<Seq<char>>,
    ) -> Reading {
        Reading {
            table: "nat"@,
            chain: self.chain,
            destination: self.destination,
            protocol: Some(self.protocol),
            dport: Some(decimal(self.dport)),
            matching,
            target,
            comment,
            length: 0,
        }
    }

    /// A rule in the chain of endpoint `i`.
    pub open spec fn inner(
        self,
        i: int,
        protocol: Option<Seq<char>>,
        matching: ReadMatching,
        target: ReadTarget,
    ) -> Reading {
        Reading {
            table: "nat"@,
            chain: self.chain_prefix + decimal(i as nat),
            destination: None,
            protocol,
            dport: None,
            matching,
            target,
            comment: None,
            length: 0,
        }
    }

    /// Whether the steps send the traffic straight to the endpoints, each with its dice.
    pub open spec fn direct(self, steps: Seq<StepView>) -> bool {
        &&& steps.len() == self.endpoints.len()
        &&& forall|i: int|
            0 <= i < self.endpoints.len() ==> says(
                #[trigger] steps[i],
                self.program,
                Some(self.context),
                self.rule(
                    self.dice(i),
                    ReadTarget::Redirect { to: self.goal(i) },
                    Some(self.comment),
                ),
            )
    }

    /// Whether the steps for endpoint `i` make its chain, let it remember the client and send on
    /// the traffic, and bring clients back that it remembers.
    pub open spec fn keeps(self, steps: Seq<StepView>, i: int, seconds: int) -> bool {
        let chain = self.chain_prefix + decimal(i as nat);
        let list = self.list_prefix + decimal(i as nat);
        &&& steps[4 * i] == StepView::Run(
            CommandView {
                invocation: InvocationView {
                    program: self.program,
                    args: seq!["-t"@, "nat"@, "-N"@, chain],
                },
                on_unrun: None,
                on_reject: None,
            },
        )
        &&& says(
            steps[4 * i + 1],
            self.program,
            None,
            self.inner(i, None, ReadMatching::Remember { list }, ReadTarget::Continue),
        )
        &&& says(
            steps[4 * i + 2],
            self.program,
            None,
            self.inner(
                i,
                Some(self.protocol),
                ReadMatching::Any,
                ReadTarget::Redirect { to: self.goal(i) },
            ),
        )
        &&& says(
            steps[4 * i + 3],
            self.program,
            None,
            self.rule(
                ReadMatching::Remembered { list, seconds: signed_decimal(seconds) },
                ReadTarget::Jump { chain },
                None,
            ),
        )
    }

    /// Whether the steps bring clients back to their endpoints, and only then share out the
    /// others, each endpoint with its dice.
    pub open spec fn sticky(self, steps: Seq<StepView>, seconds: int) -> bool {
        let n = self.endpoints.len() as int;
        &&& steps.len() == 5 * n
        &&& forall|i: int| 0 <= i < n ==> #[trigger] self.keeps(steps, i, seconds)
        &&& forall|i: int|
            0 <= i < n ==> says(
                #[trigger] steps[4 * n + i],
                self.program,
                None,
                self.rule(
                    self.dice(i),
                    ReadTarget::Jump { chain: self.chain_prefix + decimal(i as nat) },
                    None,
                ),
            )
    }

    /// Whether the steps are those of the plan.
    pub open spec fn met_by(self, steps: Seq<StepView>) -> bool {
        match self.kept {
            Some(seconds) => self.sticky(steps, seconds),
            None => self.direct(steps),
        }
    }
}

/// Whether the chains are tracked that are made for the endpoints, behind those that were.
pub open spec fn tracks(
    before: Seq<Seq<char>>,
    after: Seq<Seq<char>>,
    kept: Option<int>,
    n: nat,
    chain_prefix: Seq<char>,
) -> bool {
    match kept {
        Some(_) => {
            &&& after.len() == before.len() + n
            &&& forall|i: int| 0 <= i < before.len() ==> after[i] == #[trigger] before[i]
            &&& forall|i: int|
                0 <= i < n ==> #[trigger] after[before.len() + i] == chain_prefix + decimal(
                    i as nat,
                )
        },
        None => after == before,
    }
}

/// For how long clients are kept: where that is asked for, there are several endpoints, and the
/// kernel remembers clients.
pub open spec fn kept_for(asked: bool, n: nat, seconds: i32, recent_available: bool) -> Option<
    int,
> {
    if asked && n > 1 && recent_available {
        Some(seconds as int)
    } else {
        None
    }
}

/// What is to be said for an address and port of a service.
pub open spec fn address_plan(
    m: ManagerView,
    ip: Seq<char>,
    port: nat,
    endpoints: Seq<(Seq<char>, u16)>,
    protocol: Seq<char>,
    asked: bool,
    seconds: i32,
) -> PortPlan {
    PortPlan {
        program: m.iptables_cmd,
        chain: m.services_chain,
        destination: Some(ip),
        protocol: lowercase(protocol),
        dport: port,
        endpoints,
        kept: kept_for(asked, endpoints.len(), seconds, m.recent_available),
        chain_prefix: "KUBE-SEP-"@ + without(ip, '.') + "-"@ + decimal(port) + "-"@,
        list_prefix: "AFFINITY-"@ + without(ip, '.') + "-"@ + decimal(port) + "-"@,
        comment: "rusternetes service "@ + ip + ":"@ + decimal(port),
        context: "Failed to add iptables DNAT rule"@,
    }
}

/// What is to be said for a port of the node.
pub open spec fn node_plan(
    m: ManagerView,
    node_port: nat,
    endpoints: Seq<(Seq<char>, u16)>,
    protocol: Seq<char>,
    asked: bool,
    seconds: i32,
) -> PortPlan {
    PortPlan {
        program: m.iptables_cmd,
        chain: m.nodeports_chain,
        destination: None,
        protocol: lowercase(protocol),
        dport: node_port,
        endpoints,
        kept: kept_for(asked, endpoints.len(), seconds, m.recent_available),
        chain_prefix: "KUBE-NP-SEP-"@ + decimal(node_port) + "-"@,
        list_prefix: "NP-AFFINITY-"@ + decimal(node_port) + "-"@,
        comment: "rusternetes nodeport "@ + decimal(node_port),
        context: "Failed to add iptables DNAT rule for NodePort"@,
    }
}

// ---------------------------------------------------------------------------
// Where the lines stand
// ---------------------------------------------------------------------------

/// Lines that bring clients back, with chains, stand four to an endpoint.
pub proof fn lemma_four_to_an_endpoint(
    front: FrontView,
    group: GroupView,
    affinity: Affinity,
    endpoints: Seq<(Seq<char>, u16)>,
    n: nat,
    i: nat,
    r: int,
)
    requires
        i < n,
        0 <= r < 4,
    ensures
        all_return_lines(front, group, affinity, endpoints, true, n).len() == 4 * n,
        all_return_lines(front, group, affinity, endpoints, true, n)[4 * i + r] == return_lines(
            front,
            group,
            affinity,
            endpoints,
            true,
            i,
        )[r],
    decreases n,
{
    let f = |k: int| return_lines(front, group, affinity, endpoints, true, k as nat);
    let m = (n - 1) as nat;
    assert(Seq::new(n, f) =~= Seq::new(m, f).push(f(m as int)));
    lemma_concat_push(Seq::new(m, f), f(m as int));
    if m == 0 {
        assert(concat(Seq::new(0, f)).len() == 0);
    } else {
        if i < m {
            lemma_four_to_an_endpoint(front, group, affinity, endpoints, m, i, r);
        } else {
            lemma_four_to_an_endpoint(front, group, affinity, endpoints, m, 0, 0);
        }
    }
}

proof fn lemma_plan(
    plan: PortPlan,
    front: FrontView,
    group: GroupView,
    affinity: Affinity,
)
    requires
        plan.chain == front.chain,
        plan.destination == front.destination,
        plan.protocol == front.protocol,
        plan.dport == front.dport,
        front.comment == Some(plan.comment),
        plan.chain_prefix == group.chain_prefix,
        plan.list_prefix == group.list_prefix,
        match plan.kept {
            Some(seconds) => affinity matches Affinity::Recent { seconds: s } && s as int
                == seconds,
            None => affinity is Off,
        },
    ensures
        plan.met_by(
            port_steps(plan.program, front, group, affinity, plan.endpoints, plan.context),
        ),
{
    let endpoints = plan.endpoints;
    let n = endpoints.len() as int;
    let lines = balance_lines(front, group, affinity, endpoints, true);
    let steps = port_steps(plan.program, front, group, affinity, endpoints, plan.context);
    match plan.kept {
        None => {
            assert forall|i: int| 0 <= i < n implies says(
                #[trigger] steps[i],
                plan.program,
                Some(plan.context),
                plan.rule(
                    plan.dice(i),
                    ReadTarget::Redirect { to: plan.goal(i) },
                    Some(plan.comment),
                ),
            ) by {
                let line = direct_line(front, endpoints, i as nat);
                assert(steps[i] == line_step(plan.program, lines[i], Some(plan.context)));
                assert(lines[i] == line);
                law_commands_are_understood(line);
            }
        },
        Some(seconds) => {
            let comebacks = all_return_lines(front, group, affinity, endpoints, true, n as nat);
            if n > 0 {
                lemma_four_to_an_endpoint(front, group, affinity, endpoints, n as nat, 0, 0);
            } else {
                assert(comebacks.len() == 0);
            }
            assert forall|i: int| 0 <= i < n implies #[trigger] plan.keeps(steps, i, seconds) by {
                let block = return_lines(front, group, affinity, endpoints, true, i as nat);
                lemma_four_to_an_endpoint(front, group, affinity, endpoints, n as nat, i as nat, 0);
                lemma_four_to_an_endpoint(front, group, affinity, endpoints, n as nat, i as nat, 1);
                lemma_four_to_an_endpoint(front, group, affinity, endpoints, n as nat, i as nat, 2);
                lemma_four_to_an_endpoint(front, group, affinity, endpoints, n as nat, i as nat, 3);
                assert(lines[4 * i] == block[0]);
                assert(lines[4 * i + 1] == block[1]);
                assert(lines[4 * i + 2] == block[2]);
                assert(lines[4 * i + 3] == block[3]);
                assert(steps[4 * i] == line_step(plan.program, block[0], None));
                assert(steps[4 * i + 1] == line_step(plan.program, block[1], None));
                assert(steps[4 * i + 2] == line_step(plan.program, block[2], None));
                assert(steps[4 * i + 3] == line_step(plan.program, block[3], None));
                law_commands_are_understood(block[0]);
                law_commands_are_understood(block[1]);
                law_commands_are_understood(block[2]);
                law_commands_are_understood(block[3]);
            }
            assert forall|i: int| 0 <= i < n implies says(
                #[trigger] steps[4 * n + i],
                plan.program,
                None,
                plan.rule(
                    plan.dice(i),
                    ReadTarget::Jump { chain: plan.chain_prefix + decimal(i as nat) },
                    None,
                ),
            ) by {
                let line = share_line(front, group, n as nat, i as nat);
                assert(lines[4 * n + i] == line);
                assert(steps[4 * n + i] == line_step(plan.program, line, None));
                law_commands_are_understood(line);
            }
        },
    }
}

// ---------------------------------------------------------------------------
// Laws
// ---------------------------------------------------------------------------

/// The commands for an address and port of a service, read as the program reads them: all are
/// for the traffic to that address, port and protocol, in lower case. They send it to the
/// endpoints, in order, with the dice that give each its share. Where clients are kept, each
/// endpoint has its chain, which remembers the client and sends on the traffic, and clients that
/// are remembered come back before the dice are thrown; the chains are tracked.
pub proof fn law_address_commands(
    m: ManagerView,
    ip: Seq<char>,
    port: nat,
    endpoints: Seq<(Seq<char>, u16)>,
    protocol: Seq<char>,
    asked: bool,
    seconds: i32,
)
    ensures
        ({
            let affinity = affinity_for(
                asked,
                endpoints.len(),
                seconds,
                m.recent_available,
                false,
            );
            let group = service_group(ip, port);
            let plan = address_plan(m, ip, port, endpoints, protocol, asked, seconds);
            &&& plan.met_by(
                port_steps(
                    m.iptables_cmd,
                    service_front(m, ip, port, protocol),
                    group,
                    affinity,
                    endpoints,
                    "Failed to add iptables DNAT rule"@,
                ),
            )
            &&& tracks(
                m.sep_chains,
                m.sep_chains + made_chains(group, affinity, endpoints.len()),
                plan.kept,
                endpoints.len(),
                plan.chain_prefix,
            )
        }),
{
    let affinity = affinity_for(asked, endpoints.len(), seconds, m.recent_available, false);
    let group = service_group(ip, port);
    let plan = address_plan(m, ip, port, endpoints, protocol, asked, seconds);
    let front = service_front(m, ip, port, protocol);
    assert(plan.comment =~= "rusternetes service "@ + (ip + ":"@ + decimal(port)));
    assert(plan.chain_prefix =~= group.chain_prefix);
    assert(plan.list_prefix =~= group.list_prefix);
    lemma_plan(plan, front, group, affinity);
    assert(affinity is Off ==> m.sep_chains + made_chains(group, affinity, endpoints.len())
        =~= m.sep_chains);
}

/// The commands for a port of the node, read as the program reads them: as for an address, but
/// in the chain of node ports, for that port at every address.
pub proof fn law_node_port_commands(
    m: ManagerView,
    node_port: nat,
    endpoints: Seq<(Seq<char>, u16)>,
    protocol: Seq<char>,
    asked: bool,
    seconds: i32,
)
    ensures
        ({
            let affinity = affinity_for(
                asked,
                endpoints.len(),
                seconds,
                m.recent_available,
                false,
            );
            let group = node_group(node_port);
            let plan = node_plan(m, node_port, endpoints, protocol, asked, seconds);
            &&& plan.met_by(
                port_steps(
                    m.iptables_cmd,
                    port_front(m, node_port, protocol),
                    group,
                    affinity,
                    endpoints,
                    "Failed to add iptables DNAT rule for NodePort"@,
                ),
            )
            &&& tracks(
                m.sep_chains,
                m.sep_chains + made_chains(group, affinity, endpoints.len()),
                plan.kept,
                endpoints.len(),
                plan.chain_prefix,
            )
        }),
{
    let affinity = affinity_for(asked, endpoints.len(), seconds, m.recent_available, false);
    let group = node_group(node_port);
    let plan = node_plan(m, node_port, endpoints, protocol, asked, seconds);
    let front = port_front(m, node_port, protocol);
    assert(plan.chain_prefix =~= group.chain_prefix);
    assert(plan.list_prefix =~= group.list_prefix);
    lemma_plan(plan, front, group, affinity);
    assert(affinity is Off ==> m.sep_chains + made_chains(group, affinity, endpoints.len())
        =~= m.sep_chains);
}

/// Whether a command makes a chain, or appends a rule that only remembers the client, or has the
/// protocol behind `-p`.
pub open spec fn demands(step: StepView, protocol: Seq<char>) -> bool {
    &&& step matches StepView::Run(command)
    &&& {
        let args = command.invocation.args;
        ||| args.len() == 4 && args[2] == "-N"@
        ||| (read(args) matches Some(reading) && reading.target is Continue)
        ||| exists|p: int|
            0 <= p < args.len() - 1 && #[trigger] args[p] == "-p"@ && args[p + 1] == protocol
    }
}

proof fn lemma_demands(step: StepView, program: Seq<char>, context: Option<Seq<char>>, r: Reading)
    requires
        says(step, program, context, r),
        r.protocol is Some,
    ensures
        demands(step, r.protocol->0),
{
    let args = step->Run_0.invocation.args;
    let p = past_option(args, 4, "-d"@);
    assert(word_at(args, p, "-p"@));
    assert(args[p] == "-p"@);
    if p + 1 >= args.len() {
        assert(past_option(args, p, "-p"@) > args.len());
        let q = past_option(args, past_option(args, p, "-p"@), "--dport"@);
        assert(q == p + 2);
        assert(read_matching(args, q) == (ReadMatching::Any, q));
        assert(read_target(args, q) == (ReadTarget::Continue, q));
        assert(false);
    }
}

/// Every command that a plan asks for demands the protocol of the plan, but for those that make
/// a chain and those that only remember the client.
pub proof fn law_protocol_is_demanded(plan: PortPlan, steps: Seq<StepView>, j: int)
    requires
        plan.met_by(steps),
        0 <= j < steps.len(),
    ensures
        demands(steps[j], plan.protocol),
{
    let n = plan.endpoints.len() as int;
    match plan.kept {
        None => {
            lemma_demands(
                steps[j],
                plan.program,
                Some(plan.context),
                plan.rule(
                    plan.dice(j),
                    ReadTarget::Redirect { to: plan.goal(j) },
                    Some(plan.comment),
                ),
            );
        },
        Some(seconds) => {
            if j < 4 * n {
                let i = j / 4;
                assert(plan.keeps(steps, i, seconds));
                let chain = plan.chain_prefix + decimal(i as nat);
                let list = plan.list_prefix + decimal(i as nat);
                if j == 4 * i + 2 {
                    lemma_demands(
                        steps[j],
                        plan.program,
                        None,
                        plan.inner(
                            i,
                            Some(plan.protocol),
                            ReadMatching::Any,
                            ReadTarget::Redirect { to: plan.goal(i) },
                        ),
                    );
                } else if j == 4 * i + 3 {
                    lemma_demands(
                        steps[j],
                        plan.program,
                        None,
                        plan.rule(
                            ReadMatching::Remembered { list, seconds: signed_decimal(seconds) },
                            ReadTarget::Jump { chain },
                            None,
                        ),
                    );
                }
            } else {
                let i = j - 4 * n;
                assert(steps[4 * n + i] == steps[j]);
                lemma_demands(
                    steps[j],
                    plan.program,
                    None,
                    plan.rule(
                        plan.dice(i),
                        ReadTarget::Jump { chain: plan.chain_prefix + decimal(i as nat) },
                        None,
                    ),
                );
            }
        },
    }
}

/// Whatever protocol is given for a port of the node, every command demands it in lower case, but
/// for those that make a chain and those that only remember the client.
pub proof fn law_node_port_protocol(
    m: ManagerView,
    node_port: nat,
    endpoints: Seq<(Seq<char>, u16)>,
    protocol: Seq<char>,
    asked: bool,
    seconds: i32,
    j: int,
)
    ensures
        ({
            let steps = port_steps(
                m.iptables_cmd,
                port_front(m, node_port, protocol),
                node_group(node_port),
                affinity_for(asked, endpoints.len(), seconds, m.recent_available, false),
                endpoints,
                "Failed to add iptables DNAT rule for NodePort"@,
            );
            0 <= j < steps.len() ==> demands(steps[j], lowercase(protocol))
        }),
{
    law_node_port_commands(m, node_port, endpoints, protocol, asked, seconds);
    let steps = port_steps(
        m.iptables_cmd,
        port_front(m, node_port, protocol),
        node_group(node_port),
        affinity_for(asked, endpoints.len(), seconds, m.recent_available, false),
        endpoints,
        "Failed to add iptables DNAT rule for NodePort"@,
    );
    if 0 <= j < steps.len() {
        law_protocol_is_demanded(
            node_plan(m, node_port, endpoints, protocol, asked, seconds),
            steps,
            j,
        );
    }
}

} // verus!
