//! The service proxy: which commands set up, fill, empty and remove its chains.

use crate::balance::{
    affinity_for, balance, balance_lines, choose_affinity, endpoint_views, node_group,
    service_group, Affinity, Front, FrontView, Group, GroupView,
};
use crate::nat_table::{nat_lines, NatSettings, SliceEndpoint};
use crate::port_laws::{
    address_plan, kept_for, law_address_commands, law_node_port_commands, node_plan, tracks,
};
use crate::rule::{
    command_args, line_args, line_views, lines_wf, restore_document, restore_input, socket,
    socket_text, LineView, NatLine,
};
use crate::service::{service_views, Service};
use crate::session::{
    best_effort, decoded, invocation, purge_chains, purge_steps, push_step, step_views, try_step,
    Command, CommandView, Invocation, InvocationView, Outcome, Reply, ReplyView, Session,
    SessionView, StageView, Step, StepView,
};
use crate::table::Table;
use crate::text::{
    contains, decimal, decimal_text, lowercase, occurs, push_word, texts, to_lowercase,
};
use vstd::prelude::*;

verus! {

/// The service proxy of a node.
pub struct IptablesManager {
    /// The chain for the addresses of services.
    pub services_chain: String,
    /// The chain for node ports.
    pub nodeports_chain: String,
    /// The program that changes tables.
    pub iptables_cmd: String,
    /// The chains of single endpoints that were made and not yet removed.
    pub sep_chains: Vec<String>,
    /// Whether the kernel can match recently seen source addresses.
    pub recent_available: bool,
    /// Whether the kernel can limit by hashed addresses.
    pub hashlimit_available: bool,
}

/// The content of an [`IptablesManager`].
pub struct ManagerView {
    pub services_chain: Seq<char>,
    pub nodeports_chain: Seq<char>,
    pub iptables_cmd: Seq<char>,
    pub sep_chains: Seq<Seq<char>>,
    pub recent_available: bool,
    pub hashlimit_available: bool,
}

impl View for IptablesManager {
    type V = ManagerView;

    open spec fn view(&self) -> ManagerView {
        ManagerView {
            services_chain: self.services_chain@,
            nodeports_chain: self.nodeports_chain@,
            iptables_cmd: self.iptables_cmd@,
            sep_chains: texts(self.sep_chains@),
            recent_available: self.recent_available,
            hashlimit_available: self.hashlimit_available,
        }
    }
}

impl ManagerView {
    /// What the rules depend on.
    pub open spec fn settings(self) -> NatSettings {
        NatSettings {
            services_chain: self.services_chain,
            nodeports_chain: self.nodeports_chain,
            recent_available: self.recent_available,
            hashlimit_available: self.hashlimit_available,
        }
    }
}

impl IptablesManager {
    /// What the rules depend on.
    pub open spec fn settings(self) -> NatSettings {
        self@.settings()
    }
}

// ---------------------------------------------------------------------------
// What the host offers
// ---------------------------------------------------------------------------

/// The program for the backend that Docker uses, if its chain shows in the listing of
/// `PREROUTING`; else the one for the legacy backend.
pub open spec fn backend(listing: ReplyView) -> Seq<char> {
    match listing {
        ReplyView::Ran { stdout, .. } => if occurs(stdout, "DOCKER"@) {
            "/usr/sbin/iptables"@
        } else {
            "/usr/sbin/iptables-legacy"@
        },
        _ => "/usr/sbin/iptables-legacy"@,
    }
}

/// Whether the answer to a probe shows that the module is there. A module that is missing
/// makes the program complain that it could not be loaded or found.
pub open spec fn module_there(probe: ReplyView) -> bool {
    match probe {
        ReplyView::Ran { stderr, .. } => !occurs(stderr, "Couldn't load"@) && !occurs(
            stderr,
            "No such file"@,
        ),
        _ => false,
    }
}

/// The listing that tells which backend Docker uses.
pub fn backend_probe() -> (probe: Invocation)
    ensures
        probe@ == (InvocationView {
            program: "/usr/sbin/iptables"@,
            args: seq!["-t"@, "nat"@, "-L"@, "PREROUTING"@, "-n"@],
        }),
{
    let probe = invocation("/usr/sbin/iptables", &["-t", "nat", "-L", "PREROUTING", "-n"]);
    assert(probe@.args =~= seq!["-t"@, "nat"@, "-L"@, "PREROUTING"@, "-n"@]);
    probe
}

/// The check that tells whether recently seen source addresses can be matched.
pub fn recent_probe(iptables_cmd: &str) -> (probe: Invocation)
    ensures
        probe@ == (InvocationView {
            program: iptables_cmd@,
            args: seq![
                "-t"@,
                "nat"@,
                "-C"@,
                "OUTPUT"@,
                "-m"@,
                "recent"@,
                "--name"@,
                "__probe__"@,
                "--rcheck"@,
                "-j"@,
                "RETURN"@,
            ],
        }),
{
    let probe = invocation(
        iptables_cmd,
        &[
            "-t",
            "nat",
            "-C",
            "OUTPUT",
            "-m",
            "recent",
            "--name",
            "__probe__",
            "--rcheck",
            "-j",
            "RETURN",
        ],
    );
    assert(probe@.args =~= seq![
        "-t"@,
        "nat"@,
        "-C"@,
        "OUTPUT"@,
        "-m"@,
        "recent"@,
        "--name"@,
        "__probe__"@,
        "--rcheck"@,
        "-j"@,
        "RETURN"@,
    ]);
    probe
}

/// The check that tells whether hashed addresses can be limited.
pub fn hashlimit_probe(iptables_cmd: &str) -> (probe: Invocation)
    ensures
        probe@ == (InvocationView {
            program: iptables_cmd@,
            args: seq![
                "-t"@,
                "nat"@,
                "-C"@,
                "OUTPUT"@,
                "-m"@,
                "hashlimit"@,
                "--hashlimit-name"@,
                "__probe__"@,
                "--hashlimit-mode"@,
                "srcip"@,
                "--hashlimit-above"@,
                "1/sec"@,
                "-j"@,
                "RETURN"@,
            ],
        }),
{
    let probe = invocation(
        iptables_cmd,
        &[
            "-t",
            "nat",
            "-C",
            "OUTPUT",
            "-m",
            "hashlimit",
            "--hashlimit-name",
            "__probe__",
            "--hashlimit-mode",
            "srcip",
            "--hashlimit-above",
            "1/sec",
            "-j",
            "RETURN",
        ],
    );
    assert(probe@.args =~= seq![
        "-t"@,
        "nat"@,
        "-C"@,
        "OUTPUT"@,
        "-m"@,
        "hashlimit"@,
        "--hashlimit-name"@,
        "__probe__"@,
        "--hashlimit-mode"@,
        "srcip"@,
        "--hashlimit-above"@,
        "1/sec"@,
        "-j"@,
        "RETURN"@,
    ]);
    probe
}

/// Picks the program for the backend, given the listing of `PREROUTING`.
pub fn detect_iptables_cmd(listing: Outcome) -> (program: String)
    ensures
        program@ == backend(decoded(listing)),
{
    backend_of(&listing.decode())
}

/// Picks the program for the backend, given the listing in text form.
pub fn backend_of(listing: &Reply) -> (program: String)
    ensures
        program@ == backend(listing@),
{
    match listing {
        Reply::Ran { stdout, .. } => if contains(stdout.as_str(), "DOCKER") {
            "/usr/sbin/iptables".to_string()
        } else {
            "/usr/sbin/iptables-legacy".to_string()
        },
        _ => "/usr/sbin/iptables-legacy".to_string(),
    }
}

/// Tells from the answer to a probe whether the module is there.
pub fn module_available(probe: &Reply) -> (there: bool)
    ensures
        there == module_there(probe@),
{
    match probe {
        Reply::Ran { stderr, .. } => !contains(stderr.as_str(), "Couldn't load") && !contains(
            stderr.as_str(),
            "No such file",
        ),
        _ => false,
    }
}

// ---------------------------------------------------------------------------
// Single steps
// ---------------------------------------------------------------------------

/// Make a chain. That it is there already does not matter.
pub open spec fn ensure_chain_step(
    program: Seq<char>,
    table: Seq<char>,
    chain: Seq<char>,
) -> StepView {
    StepView::Run(
        CommandView {
            invocation: InvocationView { program, args: seq!["-t"@, table, "-N"@, chain] },
            on_unrun: Some("Failed to create iptables chain"@),
            on_reject: None,
        },
    )
}

/// What makes a rule jump to a chain, with a comment.
pub open spec fn jump_words(to_chain: Seq<char>, comment: Seq<char>) -> Seq<Seq<char>> {
    seq!["-j"@, to_chain, "-m"@, "comment"@, "--comment"@, comment]
}

/// Let a chain jump to another one first of all, unless it does jump there.
pub open spec fn ensure_jump_step(
    program: Seq<char>,
    table: Seq<char>,
    from_chain: Seq<char>,
    to_chain: Seq<char>,
    comment: Seq<char>,
) -> StepView {
    StepView::Unless {
        check: InvocationView {
            program,
            args: seq!["-t"@, table, "-C"@, from_chain] + jump_words(to_chain, comment),
        },
        even_if_unrun: true,
        otherwise: CommandView {
            invocation: InvocationView {
                program,
                args: seq!["-t"@, table, "-I"@, from_chain, "1"@] + jump_words(to_chain, comment),
            },
            on_unrun: Some("Failed to add iptables jump rule"@),
            on_reject: Some("Failed to add jump rule: "@),
        },
    }
}

/// Append a rule to a chain, unless the chain holds what is checked for.
pub open spec fn ensure_rule_step(
    program: Seq<char>,
    table: Seq<char>,
    chain: Seq<char>,
    check: Seq<Seq<char>>,
    addition: Seq<Seq<char>>,
    even_if_unrun: bool,
    context: Option<Seq<char>>,
) -> StepView {
    StepView::Unless {
        check: InvocationView { program, args: seq!["-t"@, table, "-C"@, chain] + check },
        even_if_unrun,
        otherwise: CommandView {
            invocation: InvocationView {
                program,
                args: seq!["-t"@, table, "-A"@, chain] + addition,
            },
            on_unrun: context,
            on_reject: None,
        },
    }
}

/// Empty a chain.
pub open spec fn flush_chain_step(
    program: Seq<char>,
    table: Seq<char>,
    chain: Seq<char>,
) -> StepView {
    StepView::Run(
        CommandView {
            invocation: InvocationView { program, args: seq!["-t"@, table, "-F"@, chain] },
            on_unrun: Some("Failed to flush chain "@ + chain),
            on_reject: None,
        },
    )
}

/// Remove a rule from a chain, if it is there.
pub open spec fn remove_rule_step(
    program: Seq<char>,
    table: Seq<char>,
    chain: Seq<char>,
    words: Seq<Seq<char>>,
) -> StepView {
    best_effort(program, seq!["-t"@, table, "-D"@, chain] + words)
}

/// Remove the jump with the comment from one chain to another, if it is there.
pub open spec fn remove_jump_step(
    program: Seq<char>,
    table: Seq<char>,
    from_chain: Seq<char>,
    to_chain: Seq<char>,
    comment: Seq<char>,
) -> StepView {
    remove_rule_step(program, table, from_chain, jump_words(to_chain, comment))
}

/// Empty a chain, if it is there.
pub open spec fn empty_chain_step(
    program: Seq<char>,
    table: Seq<char>,
    chain: Seq<char>,
) -> StepView {
    best_effort(program, seq!["-t"@, table, "-F"@, chain])
}

/// Remove a chain, if it is there.
pub open spec fn delete_chain_step(
    program: Seq<char>,
    table: Seq<char>,
    chain: Seq<char>,
) -> StepView {
    best_effort(program, seq!["-t"@, table, "-X"@, chain])
}

impl IptablesManager {
    fn ensure_chain(&self, table: &str, chain: &str) -> (step: Step)
        ensures
            step@ == ensure_chain_step(self@.iptables_cmd, table@, chain@),
    {
        let create = invocation(self.iptables_cmd.as_str(), &["-t", table, "-N", chain]);
        assert(create@.args =~= seq!["-t"@, table@, "-N"@, chain@]);
        Step::Run(
            Command {
                invocation: create,
                on_unrun: Some("Failed to create iptables chain".to_string()),
                on_reject: None,
            },
        )
    }

    fn ensure_jump_rule(&self, table: &str, from_chain: &str, to_chain: &str, comment: &str) -> (
        step: Step)
        ensures
            step@ == ensure_jump_step(
                self@.iptables_cmd,
                table@,
                from_chain@,
                to_chain@,
                comment@,
            ),
    {
        let program = self.iptables_cmd.as_str();
        let check = invocation(
            program,
            &["-t", table, "-C", from_chain, "-j", to_chain, "-m", "comment", "--comment", comment],
        );
        let insert = invocation(
            program,
            &[
                "-t",
                table,
                "-I",
                from_chain,
                "1",
                "-j",
                to_chain,
                "-m",
                "comment",
                "--comment",
                comment,
            ],
        );
        assert(check@.args =~= seq!["-t"@, table@, "-C"@, from_chain@] + jump_words(
            to_chain@,
            comment@,
        ));
        assert(insert@.args =~= seq!["-t"@, table@, "-I"@, from_chain@, "1"@] + jump_words(
            to_chain@,
            comment@,
        ));
        Step::Unless {
            check,
            even_if_unrun: true,
            otherwise: Command {
                invocation: insert,
                on_unrun: Some("Failed to add iptables jump rule".to_string()),
                on_reject: Some("Failed to add jump rule: ".to_string()),
            },
        }
    }

    fn rule_invocation(&self, table: &str, verb: &str, chain: &str, words: &[&str]) -> (i:
        Invocation)
        ensures
            i@ == (InvocationView {
                program: self@.iptables_cmd,
                args: seq!["-t"@, table@, verb@, chain@] + words@.map_values(|w: &str| w@),
            }),
    {
        let mut i = invocation(self.iptables_cmd.as_str(), &["-t", table, verb, chain]);
        let mut more = invocation("", words);
        let ghost front = i.args@;
        let ghost back = more.args@;
        i.args.append(&mut more.args);
        assert(texts(i.args@) =~= texts(front) + texts(back));
        assert(i@.args =~= seq!["-t"@, table@, verb@, chain@] + words@.map_values(|w: &str| w@));
        i
    }

    fn ensure_rule(
        &self,
        table: &str,
        chain: &str,
        check: &[&str],
        addition: &[&str],
        even_if_unrun: bool,
        context: Option<&str>,
    ) -> (step: Step)
        ensures
            step@ == ensure_rule_step(
                self@.iptables_cmd,
                table@,
                chain@,
                check@.map_values(|w: &str| w@),
                addition@.map_values(|w: &str| w@),
                even_if_unrun,
                match context {
                    Some(c) => Some(c@),
                    None => None,
                },
            ),
    {
        Step::Unless {
            check: self.rule_invocation(table, "-C", chain, check),
            even_if_unrun,
            otherwise: Command {
                invocation: self.rule_invocation(table, "-A", chain, addition),
                on_unrun: match context {
                    Some(c) => Some(c.to_string()),
                    None => None,
                },
                on_reject: None,
            },
        }
    }

    fn flush_chain(&self, table: &str, chain: &str) -> (step: Step)
        ensures
            step@ == flush_chain_step(self@.iptables_cmd, table@, chain@),
    {
        let flush = invocation(self.iptables_cmd.as_str(), &["-t", table, "-F", chain]);
        assert(flush@.args =~= seq!["-t"@, table@, "-F"@, chain@]);
        Step::Run(
            Command {
                invocation: flush,
                on_unrun: Some("Failed to flush chain ".to_string().concat(chain)),
                on_reject: None,
            },
        )
    }

    fn remove_rule(&self, table: &str, chain: &str, words: &[&str]) -> (step: Step)
        ensures
            step@ == remove_rule_step(
                self@.iptables_cmd,
                table@,
                chain@,
                words@.map_values(|w: &str| w@),
            ),
    {
        try_step(self.rule_invocation(table, "-D", chain, words))
    }

    fn remove_jump_rule(&self, table: &str, from_chain: &str, to_chain: &str, comment: &str) -> (
        step: Step)
        ensures
            step@ == remove_jump_step(
                self@.iptables_cmd,
                table@,
                from_chain@,
                to_chain@,
                comment@,
            ),
    {
        let words: [&str; 6] = ["-j", to_chain, "-m", "comment", "--comment", comment];
        assert(words@.map_values(|w: &str| w@) =~= jump_words(to_chain@, comment@));
        self.remove_rule(table, from_chain, &words)
    }

    fn empty_chain(&self, table: &str, chain: &str) -> (step: Step)
        ensures
            step@ == empty_chain_step(self@.iptables_cmd, table@, chain@),
    {
        let flush = invocation(self.iptables_cmd.as_str(), &["-t", table, "-F", chain]);
        assert(flush@.args =~= seq!["-t"@, table@, "-F"@, chain@]);
        try_step(flush)
    }

    fn delete_chain(&self, table: &str, chain: &str) -> (step: Step)
        ensures
            step@ == delete_chain_step(self@.iptables_cmd, table@, chain@),
    {
        let delete = invocation(self.iptables_cmd.as_str(), &["-t", table, "-X", chain]);
        assert(delete@.args =~= seq!["-t"@, table@, "-X"@, chain@]);
        try_step(delete)
    }
}

// ---------------------------------------------------------------------------
// Operations
// ---------------------------------------------------------------------------

/// Rewrites the source of traffic within the network of the containers.
pub open spec fn hairpin_words() -> Seq<Seq<char>> {
    seq![
        "-m"@,
        "comment"@,
        "--comment"@,
        "rusternetes service hairpin masquerade"@,
        "-s"@,
        "172.18.0.0/16"@,
        "-d"@,
        "172.18.0.0/16"@,
        "-j"@,
        "MASQUERADE"@,
    ]
}

/// Rewrites the source of traffic that starts on the node.
pub open spec fn local_words() -> Seq<Seq<char>> {
    seq![
        "-m"@,
        "comment"@,
        "--comment"@,
        "rusternetes nodeport masquerade"@,
        "-m"@,
        "addrtype"@,
        "--src-type"@,
        "LOCAL"@,
        "-j"@,
        "MASQUERADE"@,
    ]
}

/// Rewrites the source of traffic whose destination was rewritten.
pub open spec fn dnat_words() -> Seq<Seq<char>> {
    seq![
        "-m"@,
        "comment"@,
        "--comment"@,
        "rusternetes DNAT traffic masquerade"@,
        "-m"@,
        "conntrack"@,
        "--ctstate"@,
        "DNAT"@,
        "-j"@,
        "MASQUERADE"@,
    ]
}

fn hairpin_rule() -> (words: [&'static str; 10])
    ensures
        words@.map_values(|w: &str| w@) == hairpin_words(),
{
    let words: [&'static str; 10] = [
        "-m",
        "comment",
        "--comment",
        "rusternetes service hairpin masquerade",
        "-s",
        "172.18.0.0/16",
        "-d",
        "172.18.0.0/16",
        "-j",
        "MASQUERADE",
    ];
    assert(words@.map_values(|w: &str| w@) =~= hairpin_words());
    words
}

fn local_rule() -> (words: [&'static str; 10])
    ensures
        words@.map_values(|w: &str| w@) == local_words(),
{
    let words: [&'static str; 10] = [
        "-m",
        "comment",
        "--comment",
        "rusternetes nodeport masquerade",
        "-m",
        "addrtype",
        "--src-type",
        "LOCAL",
        "-j",
        "MASQUERADE",
    ];
    assert(words@.map_values(|w: &str| w@) =~= local_words());
    words
}

fn dnat_rule() -> (words: [&'static str; 10])
    ensures
        words@.map_values(|w: &str| w@) == dnat_words(),
{
    let words: [&'static str; 10] = [
        "-m",
        "comment",
        "--comment",
        "rusternetes DNAT traffic masquerade",
        "-m",
        "conntrack",
        "--ctstate",
        "DNAT",
        "-j",
        "MASQUERADE",
    ];
    assert(words@.map_values(|w: &str| w@) =~= dnat_words());
    words
}

/// Accepts packets of connections in one of the states, with a comment.
pub open spec fn accept_state_words(state: Seq<char>, comment: Seq<char>) -> Seq<Seq<char>> {
    seq![
        "-m"@,
        "conntrack"@,
        "--ctstate"@,
        state,
        "-m"@,
        "comment"@,
        "--comment"@,
        comment,
        "-j"@,
        "ACCEPT"@,
    ]
}

/// Accepts packets from or to the addresses of services.
pub open spec fn accept_services_words(flag: Seq<char>) -> Seq<Seq<char>> {
    seq![
        flag,
        "10.96.0.0/12"@,
        "-m"@,
        "comment"@,
        "--comment"@,
        "kubernetes forwarding service CIDR"@,
        "-j"@,
        "ACCEPT"@,
    ]
}

/// Looks for a rule that accepts return traffic.
pub open spec fn related_check_words() -> Seq<Seq<char>> {
    seq!["-m"@, "conntrack"@, "--ctstate"@, "RELATED,ESTABLISHED"@, "-j"@, "ACCEPT"@]
}

/// Accepts return traffic.
pub open spec fn related_words() -> Seq<Seq<char>> {
    seq![
        "-m"@,
        "comment"@,
        "--comment"@,
        "kubernetes forwarding conntrack rule"@,
        "-m"@,
        "conntrack"@,
        "--ctstate"@,
        "RELATED,ESTABLISHED"@,
        "-j"@,
        "ACCEPT"@,
    ]
}

/// Accepts all forwarded traffic.
pub open spec fn accept_all_words() -> Seq<Seq<char>> {
    seq!["-m"@, "comment"@, "--comment"@, "kubernetes forwarding rules"@, "-j"@, "ACCEPT"@]
}

/// The NAT part of setting up: kernel switches, the chains of the proxy, the jumps to them and
/// the rules that rewrite sources.
pub open spec fn nat_setup(m: ManagerView) -> Seq<StepView> {
    let cmd = m.iptables_cmd;
    seq![
        StepView::EnableSwitch { path: "/proc/sys/net/bridge/bridge-nf-call-iptables"@ },
        StepView::EnableSwitch { path: "/proc/sys/net/bridge/bridge-nf-call-ip6tables"@ },
        ensure_chain_step(cmd, "nat"@, m.services_chain),
        ensure_chain_step(cmd, "nat"@, m.nodeports_chain),
        ensure_jump_step(
            cmd,
            "nat"@,
            "PREROUTING"@,
            m.services_chain,
            "kubernetes service portals"@,
        ),
        ensure_jump_step(cmd, "nat"@, "OUTPUT"@, m.services_chain, "kubernetes service portals"@),
        ensure_jump_step(
            cmd,
            "nat"@,
            "PREROUTING"@,
            m.nodeports_chain,
            "kubernetes service node ports"@,
        ),
        ensure_jump_step(
            cmd,
            "nat"@,
            "OUTPUT"@,
            m.nodeports_chain,
            "kubernetes service node ports"@,
        ),
        ensure_rule_step(
            cmd,
            "nat"@,
            "POSTROUTING"@,
            hairpin_words(),
            hairpin_words(),
            true,
            Some("Failed to add hairpin MASQUERADE rule"@),
        ),
        ensure_rule_step(
            cmd,
            "nat"@,
            "POSTROUTING"@,
            local_words(),
            local_words(),
            true,
            Some("Failed to add NodePort MASQUERADE rule"@),
        ),
        ensure_rule_step(
            cmd,
            "nat"@,
            "POSTROUTING"@,
            dnat_words(),
            dnat_words(),
            true,
            Some("Failed to add DNAT MASQUERADE rule"@),
        ),
    ]
}

/// The filter part of setting up: a chain that accepts forwarded traffic of services, the jumps
/// to it, and a route to the addresses of services.
pub open spec fn filter_setup(m: ManagerView) -> Seq<StepView> {
    let cmd = m.iptables_cmd;
    let chain = "KUBE-FORWARD"@;
    seq![
        ensure_chain_step(cmd, "filter"@, chain),
        ensure_jump_step(cmd, "filter"@, "FORWARD"@, chain, "kubernetes forwarding rules"@),
        ensure_rule_step(
            cmd,
            "filter"@,
            chain,
            accept_state_words("DNAT"@, "kubernetes forwarding DNAT conntrack"@),
            accept_state_words("DNAT"@, "kubernetes forwarding DNAT conntrack"@),
            true,
            Some("Failed to add KUBE-FORWARD DNAT accept rule"@),
        ),
        ensure_rule_step(
            cmd,
            "filter"@,
            chain,
            accept_services_words("-s"@),
            accept_services_words("-s"@),
            true,
            None,
        ),
        ensure_rule_step(
            cmd,
            "filter"@,
            chain,
            accept_services_words("-d"@),
            accept_services_words("-d"@),
            true,
            None,
        ),
        ensure_rule_step(
            cmd,
            "filter"@,
            chain,
            accept_state_words("RELATED,ESTABLISHED"@, "kubernetes forwarding conntrack"@),
            accept_state_words("RELATED,ESTABLISHED"@, "kubernetes forwarding conntrack"@),
            true,
            None,
        ),
        ensure_jump_step(cmd, "filter"@, "OUTPUT"@, chain, "kubernetes service portals"@),
        StepView::EnsureRoute,
        ensure_chain_step(cmd, "filter"@, chain),
        ensure_jump_step(cmd, "filter"@, "FORWARD"@, chain, "kubernetes forwarding rules"@),
        ensure_rule_step(
            cmd,
            "filter"@,
            chain,
            related_check_words(),
            related_words(),
            false,
            None,
        ),
        ensure_rule_step(
            cmd,
            "filter"@,
            chain,
            accept_all_words(),
            accept_all_words(),
            false,
            None,
        ),
        ensure_jump_step(cmd, "filter"@, "OUTPUT"@, chain, "kubernetes forwarding rules"@),
    ]
}

/// All of setting up.
pub open spec fn initialize_steps(m: ManagerView) -> Seq<StepView> {
    nat_setup(m) + filter_setup(m)
}

/// Empty the chains of the proxy, then remove the chains of single endpoints: those that are
/// tracked, and those that are left over from an earlier run.
pub open spec fn flush_steps(m: ManagerView) -> Seq<StepView> {
    seq![
        flush_chain_step(m.iptables_cmd, "nat"@, m.services_chain),
        flush_chain_step(m.iptables_cmd, "nat"@, m.nodeports_chain),
        StepView::PurgeTracked { program: m.iptables_cmd },
        StepView::PurgeLeftovers { program: m.iptables_cmd },
    ]
}

/// What undoes the NAT part of setting up, but for the chains of the proxy: remove the jumps to
/// them and the rules that rewrite sources.
pub open spec fn nat_removal(m: ManagerView) -> Seq<StepView> {
    let cmd = m.iptables_cmd;
    seq![
        remove_jump_step(
            cmd,
            "nat"@,
            "PREROUTING"@,
            m.services_chain,
            "kubernetes service portals"@,
        ),
        remove_jump_step(cmd, "nat"@, "OUTPUT"@, m.services_chain, "kubernetes service portals"@),
        remove_jump_step(
            cmd,
            "nat"@,
            "PREROUTING"@,
            m.nodeports_chain,
            "kubernetes service node ports"@,
        ),
        remove_jump_step(
            cmd,
            "nat"@,
            "OUTPUT"@,
            m.nodeports_chain,
            "kubernetes service node ports"@,
        ),
        remove_rule_step(cmd, "nat"@, "POSTROUTING"@, hairpin_words()),
        remove_rule_step(cmd, "nat"@, "POSTROUTING"@, local_words()),
        remove_rule_step(cmd, "nat"@, "POSTROUTING"@, dnat_words()),
    ]
}

/// What undoes the filter part of setting up: remove the jumps to the chain that accepts
/// forwarded traffic, then the chain with all its rules.
pub open spec fn filter_removal(m: ManagerView) -> Seq<StepView> {
    let cmd = m.iptables_cmd;
    let chain = "KUBE-FORWARD"@;
    seq![
        remove_jump_step(cmd, "filter"@, "FORWARD"@, chain, "kubernetes forwarding rules"@),
        remove_jump_step(cmd, "filter"@, "OUTPUT"@, chain, "kubernetes service portals"@),
        remove_jump_step(cmd, "filter"@, "OUTPUT"@, chain, "kubernetes forwarding rules"@),
        empty_chain_step(cmd, "filter"@, chain),
        delete_chain_step(cmd, "filter"@, chain),
    ]
}

/// Empty the chains of the proxy and remove the chains of single endpoints, then remove all
/// that setting up added to the tables.
pub open spec fn cleanup_steps(m: ManagerView) -> Seq<StepView> {
    flush_steps(m) + nat_removal(m) + filter_removal(m) + seq![
        delete_chain_step(m.iptables_cmd, "nat"@, m.services_chain),
        delete_chain_step(m.iptables_cmd, "nat"@, m.nodeports_chain),
    ]
}

/// A session that is about to start with the given steps.
pub open spec fn planned(steps: Seq<StepView>) -> SessionView {
    SessionView { stage: StageView::Ready, steps }
}

impl IptablesManager {
    /// A proxy for a node with the given program, and with what the answers to the two probes
    /// show of the kernel.
    pub fn new(iptables_cmd: String, recent: Outcome, hashlimit: Outcome) -> (manager: Self)
        ensures
            manager@ == (ManagerView {
                services_chain: "RUSTERNETES-SERVICES"@,
                nodeports_chain: "RUSTERNETES-NODEPORTS"@,
                iptables_cmd: iptables_cmd@,
                sep_chains: Seq::empty(),
                recent_available: module_there(decoded(recent)),
                hashlimit_available: module_there(decoded(hashlimit)),
            }),
    {
        Self::with_modules(
            iptables_cmd,
            module_available(&recent.decode()),
            module_available(&hashlimit.decode()),
        )
    }

    /// A proxy for a node whose kernel is known.
    pub fn with_modules(
        iptables_cmd: String,
        recent_available: bool,
        hashlimit_available: bool,
    ) -> (manager: Self)
        ensures
            manager@ == (ManagerView {
                services_chain: "RUSTERNETES-SERVICES"@,
                nodeports_chain: "RUSTERNETES-NODEPORTS"@,
                iptables_cmd: iptables_cmd@,
                sep_chains: Seq::empty(),
                recent_available,
                hashlimit_available,
            }),
    {
        let manager = IptablesManager {
            services_chain: "RUSTERNETES-SERVICES".to_string(),
            nodeports_chain: "RUSTERNETES-NODEPORTS".to_string(),
            iptables_cmd,
            sep_chains: Vec::new(),
            recent_available,
            hashlimit_available,
        };
        assert(texts(manager.sep_chains@) =~= Seq::<Seq<char>>::empty());
        manager
    }

    /// Notes a chain of an endpoint, so that it is removed later.
    pub fn track_sep_chain(&mut self, chain: &str)
        ensures
            final(self)@ == (ManagerView {
                sep_chains: old(self)@.sep_chains.push(chain@),
                ..old(self)@
            }),
    {
        push_word(&mut self.sep_chains, chain);
    }

    /// Hands over the chains that were noted. None is noted after that.
    pub fn take_sep_chains(&mut self) -> (chains: Vec<String>)
        ensures
            texts(chains@) == old(self)@.sep_chains,
            final(self)@ == (ManagerView { sep_chains: Seq::empty(), ..old(self)@ }),
    {
        let mut chains: Vec<String> = Vec::new();
        std::mem::swap(&mut chains, &mut self.sep_chains);
        assert(texts(self.sep_chains@) =~= Seq::<Seq<char>>::empty());
        chains
    }

    fn push_nat_setup(&self, steps: &mut Vec<Step>)
        ensures
            step_views(final(steps)@) == step_views(old(steps)@) + nat_setup(self@),
    {
        let services = self.services_chain.as_str();
        let nodeports = self.nodeports_chain.as_str();
        push_step(
            steps,
            Step::EnableSwitch {
                path: "/proc/sys/net/bridge/bridge-nf-call-iptables".to_string(),
            },
        );
        push_step(
            steps,
            Step::EnableSwitch {
                path: "/proc/sys/net/bridge/bridge-nf-call-ip6tables".to_string(),
            },
        );
        push_step(steps, self.ensure_chain("nat", services));
        push_step(steps, self.ensure_chain("nat", nodeports));
        push_step(
            steps,
            self.ensure_jump_rule("nat", "PREROUTING", services, "kubernetes service portals"),
        );
        push_step(
            steps,
            self.ensure_jump_rule("nat", "OUTPUT", services, "kubernetes service portals"),
        );
        push_step(
            steps,
            self.ensure_jump_rule("nat", "PREROUTING", nodeports, "kubernetes service node ports"),
        );
        push_step(
            steps,
            self.ensure_jump_rule("nat", "OUTPUT", nodeports, "kubernetes service node ports"),
        );
        let hairpin = hairpin_rule();
        let local = local_rule();
        let dnat = dnat_rule();
        push_step(
            steps,
            self.ensure_rule(
                "nat",
                "POSTROUTING",
                &hairpin,
                &hairpin,
                true,
                Some("Failed to add hairpin MASQUERADE rule"),
            ),
        );
        push_step(
            steps,
            self.ensure_rule(
                "nat",
                "POSTROUTING",
                &local,
                &local,
                true,
                Some("Failed to add NodePort MASQUERADE rule"),
            ),
        );
        push_step(
            steps,
            self.ensure_rule(
                "nat",
                "POSTROUTING",
                &dnat,
                &dnat,
                true,
                Some("Failed to add DNAT MASQUERADE rule"),
            ),
        );
        assert(step_views(steps@) =~= step_views(old(steps)@) + nat_setup(self@));
    }

    fn push_filter_setup(&self, steps: &mut Vec<Step>)
        ensures
            step_views(final(steps)@) == step_views(old(steps)@) + filter_setup(self@),
    {
        self.push_forward_setup(steps);
        push_step(steps, Step::EnsureRoute);
        self.push_accept_setup(steps);
        assert(step_views(steps@) =~= step_views(old(steps)@) + filter_setup(self@));
    }

    fn push_forward_setup(&self, steps: &mut Vec<Step>)
        ensures
            step_views(final(steps)@) == step_views(old(steps)@) + filter_setup(self@).take(7),
    {
        let chain = "KUBE-FORWARD";
        let dnat: [&str; 10] = [
            "-m",
            "conntrack",
            "--ctstate",
            "DNAT",
            "-m",
            "comment",
            "--comment",
            "kubernetes forwarding DNAT conntrack",
            "-j",
            "ACCEPT",
        ];
        let from_services: [&str; 8] = [
            "-s",
            "10.96.0.0/12",
            "-m",
            "comment",
            "--comment",
            "kubernetes forwarding service CIDR",
            "-j",
            "ACCEPT",
        ];
        let to_services: [&str; 8] = [
            "-d",
            "10.96.0.0/12",
            "-m",
            "comment",
            "--comment",
            "kubernetes forwarding service CIDR",
            "-j",
            "ACCEPT",
        ];
        let related: [&str; 10] = [
            "-m",
            "conntrack",
            "--ctstate",
            "RELATED,ESTABLISHED",
            "-m",
            "comment",
            "--comment",
            "kubernetes forwarding conntrack",
            "-j",
            "ACCEPT",
        ];
        assert(dnat@.map_values(|w: &str| w@) =~= accept_state_words(
            "DNAT"@,
            "kubernetes forwarding DNAT conntrack"@,
        ));
        assert(from_services@.map_values(|w: &str| w@) =~= accept_services_words("-s"@));
        assert(to_services@.map_values(|w: &str| w@) =~= accept_services_words("-d"@));
        assert(related@.map_values(|w: &str| w@) =~= accept_state_words(
            "RELATED,ESTABLISHED"@,
            "kubernetes forwarding conntrack"@,
        ));
        push_step(steps, self.ensure_chain("filter", chain));
        push_step(
            steps,
            self.ensure_jump_rule("filter", "FORWARD", chain, "kubernetes forwarding rules"),
        );
        push_step(
            steps,
            self.ensure_rule(
                "filter",
                chain,
                &dnat,
                &dnat,
                true,
                Some("Failed to add KUBE-FORWARD DNAT accept rule"),
            ),
        );
        push_step(
            steps,
            self.ensure_rule("filter", chain, &from_services, &from_services, true, None),
        );
        push_step(
            steps,
            self.ensure_rule("filter", chain, &to_services, &to_services, true, None),
        );
        push_step(steps, self.ensure_rule("filter", chain, &related, &related, true, None));
        push_step(
            steps,
            self.ensure_jump_rule("filter", "OUTPUT", chain, "kubernetes service portals"),
        );
        assert(step_views(steps@) =~= step_views(old(steps)@) + filter_setup(self@).take(7));
    }

    fn push_accept_setup(&self, steps: &mut Vec<Step>)
        ensures
            step_views(final(steps)@) == step_views(old(steps)@) + filter_setup(self@).skip(8),
    {
        let chain = "KUBE-FORWARD";
        let check: [&str; 6] = [
            "-m",
            "conntrack",
            "--ctstate",
            "RELATED,ESTABLISHED",
            "-j",
            "ACCEPT",
        ];
        let related: [&str; 10] = [
            "-m",
            "comment",
            "--comment",
            "kubernetes forwarding conntrack rule",
            "-m",
            "conntrack",
            "--ctstate",
            "RELATED,ESTABLISHED",
            "-j",
            "ACCEPT",
        ];
        let all: [&str; 6] = [
            "-m",
            "comment",
            "--comment",
            "kubernetes forwarding rules",
            "-j",
            "ACCEPT",
        ];
        assert(check@.map_values(|w: &str| w@) =~= related_check_words());
        assert(related@.map_values(|w: &str| w@) =~= related_words());
        assert(all@.map_values(|w: &str| w@) =~= accept_all_words());
        push_step(steps, self.ensure_chain("filter", chain));
        push_step(
            steps,
            self.ensure_jump_rule("filter", "FORWARD", chain, "kubernetes forwarding rules"),
        );
        push_step(steps, self.ensure_rule("filter", chain, &check, &related, false, None));
        push_step(steps, self.ensure_rule("filter", chain, &all, &all, false, None));
        push_step(
            steps,
            self.ensure_jump_rule("filter", "OUTPUT", chain, "kubernetes forwarding rules"),
        );
        assert(step_views(steps@) =~= step_views(old(steps)@) + filter_setup(self@).skip(8));
    }

    /// Sets up the chains of the proxy, the jumps to them, the rules that rewrite sources and
    /// accept forwarded traffic, and the route to the addresses of services.
    pub fn initialize(&self) -> (session: Session)
        ensures
            session@ == planned(initialize_steps(self@)),
    {
        let mut steps: Vec<Step> = Vec::new();
        assert(step_views(steps@) =~= Seq::<StepView>::empty());
        self.push_nat_setup(&mut steps);
        self.push_filter_setup(&mut steps);
        assert(step_views(steps@) =~= initialize_steps(self@));
        Session::new(steps)
    }

    fn push_flush(&self, steps: &mut Vec<Step>)
        ensures
            step_views(final(steps)@) == step_views(old(steps)@) + flush_steps(self@),
    {
        push_step(steps, self.flush_chain("nat", self.services_chain.as_str()));
        push_step(steps, self.flush_chain("nat", self.nodeports_chain.as_str()));
        push_step(steps, Step::PurgeTracked { program: self.iptables_cmd.clone() });
        push_step(steps, Step::PurgeLeftovers { program: self.iptables_cmd.clone() });
        assert(step_views(steps@) =~= step_views(old(steps)@) + flush_steps(self@));
    }

    /// Empties the chains of the proxy and removes the chains of single endpoints.
    pub fn flush_rules(&self) -> (session: Session)
        ensures
            session@ == planned(flush_steps(self@)),
    {
        let mut steps: Vec<Step> = Vec::new();
        self.push_flush(&mut steps);
        assert(step_views(steps@) =~= flush_steps(self@));
        Session::new(steps)
    }

    fn push_nat_removal(&self, steps: &mut Vec<Step>)
        ensures
            step_views(final(steps)@) == step_views(old(steps)@) + nat_removal(self@),
    {
        let services = self.services_chain.as_str();
        let nodeports = self.nodeports_chain.as_str();
        push_step(
            steps,
            self.remove_jump_rule("nat", "PREROUTING", services, "kubernetes service portals"),
        );
        push_step(
            steps,
            self.remove_jump_rule("nat", "OUTPUT", services, "kubernetes service portals"),
        );
        push_step(
            steps,
            self.remove_jump_rule("nat", "PREROUTING", nodeports, "kubernetes service node ports"),
        );
        push_step(
            steps,
            self.remove_jump_rule("nat", "OUTPUT", nodeports, "kubernetes service node ports"),
        );
        push_step(steps, self.remove_rule("nat", "POSTROUTING", &hairpin_rule()));
        push_step(steps, self.remove_rule("nat", "POSTROUTING", &local_rule()));
        push_step(steps, self.remove_rule("nat", "POSTROUTING", &dnat_rule()));
        assert(step_views(steps@) =~= step_views(old(steps)@) + nat_removal(self@));
    }

    fn push_filter_removal(&self, steps: &mut Vec<Step>)
        ensures
            step_views(final(steps)@) == step_views(old(steps)@) + filter_removal(self@),
    {
        let chain = "KUBE-FORWARD";
        push_step(
            steps,
            self.remove_jump_rule("filter", "FORWARD", chain, "kubernetes forwarding rules"),
        );
        push_step(
            steps,
            self.remove_jump_rule("filter", "OUTPUT", chain, "kubernetes service portals"),
        );
        push_step(
            steps,
            self.remove_jump_rule("filter", "OUTPUT", chain, "kubernetes forwarding rules"),
        );
        push_step(steps, self.empty_chain("filter", chain));
        push_step(steps, self.delete_chain("filter", chain));
        assert(step_views(steps@) =~= step_views(old(steps)@) + filter_removal(self@));
    }

    /// Removes all chains and rules of the proxy: those of services, and those that setting up
    /// added.
    pub fn cleanup(&self) -> (session: Session)
        ensures
            session@ == planned(cleanup_steps(self@)),
    {
        let mut steps: Vec<Step> = Vec::new();
        assert(step_views(steps@) =~= Seq::<StepView>::empty());
        self.push_flush(&mut steps);
        self.push_nat_removal(&mut steps);
        self.push_filter_removal(&mut steps);
        push_step(&mut steps, self.delete_chain("nat", self.services_chain.as_str()));
        push_step(&mut steps, self.delete_chain("nat", self.nodeports_chain.as_str()));
        assert(step_views(steps@) =~= cleanup_steps(self@));
        Session::new(steps)
    }
}

// ---------------------------------------------------------------------------
// Rules for one service port
// ---------------------------------------------------------------------------

/// The traffic to an address and port of a service.
pub open spec fn service_front(
    m: ManagerView,
    service_ip: Seq<char>,
    port: nat,
    protocol: Seq<char>,
) -> FrontView {
    FrontView {
        chain: m.services_chain,
        destination: Some(service_ip),
        protocol: lowercase(protocol),
        dport: port,
        comment: Some("rusternetes service "@ + socket(service_ip, port)),
    }
}

/// The traffic to a port of the node.
pub open spec fn port_front(m: ManagerView, node_port: nat, protocol: Seq<char>) -> FrontView {
    FrontView {
        chain: m.nodeports_chain,
        destination: None,
        protocol: lowercase(protocol),
        dport: node_port,
        comment: Some("rusternetes nodeport "@ + decimal(node_port)),
    }
}

/// A command that adds a line to the NAT table.
pub open spec fn line_step(
    program: Seq<char>,
    line: LineView,
    on_unrun: Option<Seq<char>>,
) -> StepView {
    StepView::Run(
        CommandView {
            invocation: InvocationView { program, args: line_args(line) },
            on_unrun,
            on_reject: None,
        },
    )
}

/// The commands that add the lines of a service port, one by one. Where clients are kept at
/// their endpoints, all failures are passed over. Else a command that cannot be run ends the
/// operation.
pub open spec fn port_steps(
    program: Seq<char>,
    front: FrontView,
    group: GroupView,
    affinity: Affinity,
    endpoints: Seq<(Seq<char>, u16)>,
    context: Seq<char>,
) -> Seq<StepView> {
    let on_unrun = if affinity is Off {
        Some(context)
    } else {
        None
    };
    balance_lines(front, group, affinity, endpoints, true).map_values(
        |line: LineView| line_step(program, line, on_unrun),
    )
}

/// The chains that are made for the endpoints of a service port.
pub open spec fn made_chains(group: GroupView, affinity: Affinity, n: nat) -> Seq<Seq<char>> {
    if affinity is Off {
        Seq::empty()
    } else {
        Seq::new(n, |i: int| group.chain(i as nat))
    }
}

impl IptablesManager {
    fn line_steps(&self, lines: &Vec<NatLine>, context: Option<&str>) -> (steps: Vec<Step>)
        requires
            lines_wf(line_views(lines@)),
        ensures
            step_views(steps@) == line_views(lines@).map_values(
                |line: LineView| line_step(
                    self@.iptables_cmd,
                    line,
                    match context {
                        Some(c) => Some(c@),
                        None => None,
                    },
                ),
            ),
    {
        let ghost on_unrun = match context {
            Some(c) => Some(c@),
            None => None,
        };
        let ghost all = line_views(lines@).map_values(
            |line: LineView| line_step(self@.iptables_cmd, line, on_unrun),
        );
        let mut steps: Vec<Step> = Vec::new();
        let mut i: usize = 0;
        while i < lines.len()
            invariant
                i <= lines.len(),
                lines_wf(line_views(lines@)),
                on_unrun == match context {
                    Some(c) => Some(c@),
                    None => None,
                },
                all == line_views(lines@).map_values(
                    |line: LineView| line_step(self@.iptables_cmd, line, on_unrun),
                ),
                step_views(steps@) == all.take(i as int),
            decreases lines.len() - i,
        {
            assert(line_views(lines@)[i as int] == lines[i as int]@);
            let command = Command {
                invocation: Invocation {
                    program: self.iptables_cmd.clone(),
                    args: command_args(&lines[i]),
                },
                on_unrun: match context {
                    Some(c) => Some(c.to_string()),
                    None => None,
                },
                on_reject: None,
            };
            let step = Step::Run(command);
            assert(step@ == all[i as int]);
            push_step(&mut steps, step);
            i += 1;
            assert(all.take(i as int) =~= all.take(i - 1).push(all[i - 1]));
        }
        assert(all.take(i as int) =~= all);
        steps
    }

    fn add_port_rules(
        &mut self,
        front: Front,
        group: Group,
        affinity: Affinity,
        endpoints: &[(String, u16)],
        context: &str,
    ) -> (session: Session)
        ensures
            session@ == planned(
                port_steps(
                    old(self)@.iptables_cmd,
                    front@,
                    group@,
                    affinity,
                    endpoint_views(endpoints@),
                    context@,
                ),
            ),
            final(self)@ == (ManagerView {
                sep_chains: old(self)@.sep_chains + made_chains(
                    group@,
                    affinity,
                    endpoints@.len(),
                ),
                ..old(self)@
            }),
    {
        let lines = balance(&front, &group, affinity, endpoints, true);
        let direct = match affinity {
            Affinity::Off => true,
            _ => false,
        };
        let steps = if direct {
            self.line_steps(&lines, Some(context))
        } else {
            self.line_steps(&lines, None)
        };
        assert(step_views(steps@) =~= port_steps(
            self@.iptables_cmd,
            front@,
            group@,
            affinity,
            endpoint_views(endpoints@),
            context@,
        ));
        if !direct {
            let ghost before = self@;
            let ghost f = |i: int| group@.chain(i as nat);
            let mut i: usize = 0;
            assert(self@.sep_chains =~= before.sep_chains + Seq::new(0, f));
            while i < endpoints.len()
                invariant
                    i <= endpoints.len(),
                    f == (|i: int| group@.chain(i as nat)),
                    self@ == (ManagerView {
                        sep_chains: before.sep_chains + Seq::new(i as nat, f),
                        ..before
                    }),
                decreases endpoints.len() - i,
            {
                self.track_sep_chain(group.chain(i).as_str());
                i += 1;
                assert(self@.sep_chains =~= before.sep_chains + Seq::new(i as nat, f));
            }
        } else {
            assert(self@.sep_chains =~= self@.sep_chains + Seq::<Seq<char>>::empty());
        }
        Session::new(steps)
    }

    /// Adds the rules for an address and port of a service. Clients are kept at their endpoints
    /// where that is asked for, there are several endpoints, and the kernel can do it.
    pub fn add_clusterip_rules(
        &mut self,
        service_ip: &str,
        port: u16,
        endpoints: &[(String, u16)],
        protocol: &str,
        session_affinity: bool,
        affinity_timeout: i32,
    ) -> (session: Session)
        ensures
            ({
                let affinity = affinity_for(
                    session_affinity,
                    endpoints@.len(),
                    affinity_timeout,
                    old(self)@.recent_available,
                    false,
                );
                let group = service_group(service_ip@, port as nat);
                &&& session@ == planned(
                    port_steps(
                        old(self)@.iptables_cmd,
                        service_front(old(self)@, service_ip@, port as nat, protocol@),
                        group,
                        affinity,
                        endpoint_views(endpoints@),
                        "Failed to add iptables DNAT rule"@,
                    ),
                )
                &&& final(self)@ == (ManagerView {
                    sep_chains: old(self)@.sep_chains + made_chains(
                        group,
                        affinity,
                        endpoints@.len(),
                    ),
                    ..old(self)@
                })
            }),
            address_plan(
                old(self)@,
                service_ip@,
                port as nat,
                endpoint_views(endpoints@),
                protocol@,
                session_affinity,
                affinity_timeout,
            ).met_by(session@.steps),
            tracks(
                old(self)@.sep_chains,
                final(self)@.sep_chains,
                kept_for(
                    session_affinity,
                    endpoints@.len(),
                    affinity_timeout,
                    old(self)@.recent_available,
                ),
                endpoints@.len(),
                address_plan(
                old(self)@,
                service_ip@,
                port as nat,
                endpoint_views(endpoints@),
                protocol@,
                session_affinity,
                affinity_timeout,
            ).chain_prefix,
            ),
    {
        proof {
            law_address_commands(
                self@,
                service_ip@,
                port as nat,
                endpoint_views(endpoints@),
                protocol@,
                session_affinity,
                affinity_timeout,
            );
            assert(endpoint_views(endpoints@).len() == endpoints@.len());
        }
        let front = Front {
            chain: self.services_chain.clone(),
            destination: Some(service_ip.to_string()),
            protocol: to_lowercase(protocol),
            dport: port,
            comment: Some(
                "rusternetes service ".to_string().concat(socket_text(service_ip, port).as_str()),
            ),
        };
        let affinity = choose_affinity(
            session_affinity,
            endpoints.len(),
            affinity_timeout,
            self.recent_available,
            false,
        );
        self.add_port_rules(
            front,
            Group::for_service(service_ip, port),
            affinity,
            endpoints,
            "Failed to add iptables DNAT rule",
        )
    }

    /// Adds the rules for a port of the node, as for an address and port of a service.
    pub fn add_nodeport_rules(
        &mut self,
        node_port: u16,
        endpoints: &[(String, u16)],
        protocol: &str,
        session_affinity: bool,
        affinity_timeout: i32,
    ) -> (session: Session)
        ensures
            ({
                let affinity = affinity_for(
                    session_affinity,
                    endpoints@.len(),
                    affinity_timeout,
                    old(self)@.recent_available,
                    false,
                );
                let group = node_group(node_port as nat);
                &&& session@ == planned(
                    port_steps(
                        old(self)@.iptables_cmd,
                        port_front(old(self)@, node_port as nat, protocol@),
                        group,
                        affinity,
                        endpoint_views(endpoints@),
                        "Failed to add iptables DNAT rule for NodePort"@,
                    ),
                )
                &&& final(self)@ == (ManagerView {
                    sep_chains: old(self)@.sep_chains + made_chains(
                        group,
                        affinity,
                        endpoints@.len(),
                    ),
                    ..old(self)@
                })
            }),
            node_plan(
                old(self)@,
                node_port as nat,
                endpoint_views(endpoints@),
                protocol@,
                session_affinity,
                affinity_timeout,
            ).met_by(session@.steps),
            tracks(
                old(self)@.sep_chains,
                final(self)@.sep_chains,
                kept_for(
                    session_affinity,
                    endpoints@.len(),
                    affinity_timeout,
                    old(self)@.recent_available,
                ),
                endpoints@.len(),
                node_plan(
                old(self)@,
                node_port as nat,
                endpoint_views(endpoints@),
                protocol@,
                session_affinity,
                affinity_timeout,
            ).chain_prefix,
            ),
    {
        proof {
            law_node_port_commands(
                self@,
                node_port as nat,
                endpoint_views(endpoints@),
                protocol@,
                session_affinity,
                affinity_timeout,
            );
            assert(endpoint_views(endpoints@).len() == endpoints@.len());
        }
        let front = Front {
            chain: self.nodeports_chain.clone(),
            destination: None,
            protocol: to_lowercase(protocol),
            dport: node_port,
            comment: Some(
                "rusternetes nodeport ".to_string().concat(
                    decimal_text(node_port as u128).as_str(),
                ),
            ),
        };
        let affinity = choose_affinity(
            session_affinity,
            endpoints.len(),
            affinity_timeout,
            self.recent_available,
            false,
        );
        self.add_port_rules(
            front,
            Group::for_node_port(node_port),
            affinity,
            endpoints,
            "Failed to add iptables DNAT rule for NodePort",
        )
    }
}

// ---------------------------------------------------------------------------
// All rules at once
// ---------------------------------------------------------------------------

/// The program that restores tables, for the backend in use.
pub open spec fn restore_program(iptables_cmd: Seq<char>) -> Seq<char> {
    if occurs(iptables_cmd, "legacy"@) {
        "iptables-legacy-restore"@
    } else {
        "iptables-restore"@
    }
}

/// Restore the rules in one go, then remove the chains that were tracked.
pub open spec fn apply_steps(m: ManagerView, rules: Seq<char>) -> Seq<StepView> {
    seq![
        StepView::Feed {
            invocation: InvocationView {
                program: restore_program(m.iptables_cmd),
                args: seq!["--noflush"@],
            },
            input: rules,
        },
    ] + purge_chains(m.iptables_cmd, m.sep_chains, m.sep_chains.len())
}

impl IptablesManager {
    /// Writes the rules of all services as input for restoring the NAT table.
    pub fn build_nat_rules(
        &self,
        services: &[Service],
        endpointslice_map: &Table<Vec<SliceEndpoint>>,
    ) -> (rules: String)
        ensures
            rules@ == restore_document(
                nat_lines(self@.settings(), service_views(services@), endpointslice_map@),
            ),
    {
        restore_input(&self.nat_lines(services, endpointslice_map))
    }

    /// Puts all rules into place in one go, then removes the chains that were tracked. They are
    /// tracked no more, whatever comes of it.
    pub fn apply_nat_rules_atomic(&mut self, rules: &str) -> (session: Session)
        ensures
            session@ == planned(apply_steps(old(self)@, rules@)),
            final(self)@ == (ManagerView { sep_chains: Seq::empty(), ..old(self)@ }),
    {
        let old_sep_chains = self.take_sep_chains();
        let restore_cmd = if contains(self.iptables_cmd.as_str(), "legacy") {
            "iptables-legacy-restore"
        } else {
            "iptables-restore"
        };
        let restore = invocation(restore_cmd, &["--noflush"]);
        assert(restore@.args =~= seq!["--noflush"@]);
        let mut steps: Vec<Step> = Vec::new();
        push_step(&mut steps, Step::Feed { invocation: restore, input: rules.to_string() });
        let mut purges = purge_steps(self.iptables_cmd.as_str(), &old_sep_chains);
        let ghost front = steps@;
        let ghost back = purges@;
        steps.append(&mut purges);
        assert(step_views(steps@) =~= step_views(front) + step_views(back));
        assert(step_views(steps@) =~= apply_steps(old(self)@, rules@));
        Session::new(steps)
    }
}

} // verus!
