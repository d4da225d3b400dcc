//! What the operations of the proxy ask of the host, in full.

use crate::iptables::{
    accept_all_words, accept_services_words, accept_state_words, apply_steps, backend,
    cleanup_steps, dnat_words, flush_steps, hairpin_words, initialize_steps, local_words,
    module_there, planned, related_check_words, related_words, ManagerView,
};
use crate::proxy_laws::{law_each_chain_is_purged, removal};
use crate::session::{
    begun, decoded, next, purge_chains, ActionView, CommandView, InvocationView, Outcome, ReplyView,
    StepView,
};
use crate::step_laws::purges_first;
use crate::text::lossy_text;
use crate::text_laws::law_occurrence;
use vstd::prelude::*;

verus! {

/// A planned operation has the steps that were planned, and starts with the first of them.
pub proof fn law_planned(steps: Seq<StepView>, reply: ReplyView)
    ensures
        planned(steps).steps == steps,
        next(planned(steps), reply) == begun(steps),
{
}

/// Output is put into text form and nothing else changes: the report keeps its kind, its
/// success and its causes, and is silent exactly where there was no output.
pub proof fn law_decoding(outcome: Outcome)
    ensures
        match (outcome, decoded(outcome)) {
            (Outcome::Unrun { cause }, ReplyView::Unrun { cause: c }) => c == cause@,
            (Outcome::Unfed { cause }, ReplyView::Unfed { cause: c }) => c == cause@,
            (Outcome::Unawaited { cause }, ReplyView::Unawaited { cause: c }) => c == cause@,
            (
                Outcome::Ran { success, stdout, stderr },
                ReplyView::Ran { success: s, silent, stdout: out, stderr: err },
            ) => {
                &&& s == success
                &&& silent == (stdout@.len() == 0)
                &&& out == lossy_text(stdout@)
                &&& err == lossy_text(stderr@)
            },
            (Outcome::Handed { chains }, ReplyView::Handed { chains: c }) => {
                &&& c.len() == chains@.len()
                &&& forall|i: int| 0 <= i < c.len() ==> c[i] == #[trigger] chains@[i]@
            },
            _ => false,
        },
{
}

/// The program is that of the backend of Docker exactly where the listing ran and shows the
/// word `DOCKER` anywhere; else it is the legacy one.
pub proof fn law_backend(reply: ReplyView, before: Seq<char>, behind: Seq<char>)
    ensures
        reply matches ReplyView::Ran { stdout, .. } ==> stdout == before + "DOCKER"@ + behind
            ==> backend(reply) == "/usr/sbin/iptables"@,
        reply !is Ran ==> backend(reply) == "/usr/sbin/iptables-legacy"@,
        backend(reply) == "/usr/sbin/iptables"@ || backend(reply) == "/usr/sbin/iptables-legacy"@,
        reply is Ran && (forall|a: Seq<char>, b: Seq<char>|
            reply->stdout != #[trigger] (a + "DOCKER"@ + b)) ==> backend(reply)
            == "/usr/sbin/iptables-legacy"@,
{
    if let ReplyView::Ran { stdout, .. } = reply {
        law_occurrence(stdout, "DOCKER"@, before, behind);
    }
}

/// A module is there exactly where its probe ran and its error output says neither that
/// something could not be loaded nor that a file is missing.
pub proof fn law_module(reply: ReplyView, before: Seq<char>, behind: Seq<char>)
    ensures
        reply !is Ran ==> !module_there(reply),
        reply is Ran && reply->stderr == before + "Couldn't load"@ + behind ==> !module_there(
            reply,
        ),
        reply is Ran && reply->stderr == before + "No such file"@ + behind ==> !module_there(
            reply,
        ),
        reply is Ran && (forall|a: Seq<char>, b: Seq<char>|
            reply->stderr != #[trigger] (a + "Couldn't load"@ + b)) && (forall|
            a: Seq<char>,
            b: Seq<char>,
        |
            reply->stderr != #[trigger] (a + "No such file"@ + b)) ==> module_there(reply),
{
    if let ReplyView::Ran { stderr, .. } = reply {
        law_occurrence(stderr, "Couldn't load"@, before, behind);
        law_occurrence(stderr, "No such file"@, before, behind);
    }
}

/// Success is what a program reports that came to its end; nothing else is success.
pub proof fn law_success(reply: ReplyView)
    ensures
        reply.succeeded() <==> (reply is Ran && reply->success),
{
}

/// The error output of a command is worth noting exactly where it reported failure and does not
/// say that the chain is there already.
pub proof fn law_complaint(reply: ReplyView, before: Seq<char>, behind: Seq<char>)
    ensures
        reply !is Ran || reply->success ==> reply.complaint() is None,
        reply is Ran && reply->stderr == before + "Chain already exists"@ + behind
            ==> reply.complaint() is None,
        reply is Ran && !reply->success && (forall|a: Seq<char>, b: Seq<char>|
            reply->stderr != #[trigger] (a + "Chain already exists"@ + b)) ==> reply.complaint()
            == Some(reply->stderr),
{
    if let ReplyView::Ran { stderr, .. } = reply {
        law_occurrence(stderr, "Chain already exists"@, before, behind);
    }
}

// ---------------------------------------------------------------------------
// Restoring
// ---------------------------------------------------------------------------

/// Whether the restore program is the one for the backend of the program in use.
pub open spec fn fits_backend(iptables_cmd: Seq<char>, restore: Seq<char>) -> bool {
    if exists|a: Seq<char>, b: Seq<char>| iptables_cmd == #[trigger] (a + "legacy"@ + b) {
        restore == "iptables-legacy-restore"@
    } else {
        restore == "iptables-restore"@
    }
}

/// Whatever chains are tracked, the rules are fed to the restore program of the backend in use,
/// with the argument `--noflush` and no other. When it succeeded, each tracked chain is emptied
/// and removed, in order, and nothing else is done.
pub proof fn law_apply(m: ManagerView, rules: Seq<char>, reply: ReplyView)
    ensures
        ({
            let (s, action) = begun(apply_steps(m, rules));
            &&& action matches ActionView::Feed { invocation, input }
            &&& input == rules
            &&& invocation.args == seq!["--noflush"@]
            &&& fits_backend(m.iptables_cmd, invocation.program)
            &&& reply.succeeded() ==> exists|steps: Seq<StepView>|
                #[trigger] purges_first(
                    steps,
                    m.iptables_cmd,
                    m.sep_chains,
                    Seq::empty(),
                ) && next(s, reply) == begun(steps)
        }),
{
    let cmd = m.iptables_cmd;
    if exists|a: Seq<char>, b: Seq<char>| cmd == #[trigger] (a + "legacy"@ + b) {
        let (a, b) = choose|a: Seq<char>, b: Seq<char>| cmd == #[trigger] (a + "legacy"@ + b);
        law_occurrence(cmd, "legacy"@, a, b);
    } else {
        law_occurrence(cmd, "legacy"@, Seq::empty(), Seq::empty());
    }
    law_each_chain_is_purged(cmd, m.sep_chains, m.sep_chains.len());
    let steps = purge_chains(cmd, m.sep_chains, m.sep_chains.len());
    assert(apply_steps(m, rules).drop_first() =~= steps);
    assert(purges_first(steps, cmd, m.sep_chains, Seq::empty()));
}

// ---------------------------------------------------------------------------
// Setting up, flushing, cleaning up
// ---------------------------------------------------------------------------

/// A command that makes a chain.
pub open spec fn makes(program: Seq<char>, table: Seq<char>, chain: Seq<char>) -> StepView {
    StepView::Run(
        CommandView {
            invocation: InvocationView { program, args: seq!["-t"@, table, "-N"@, chain] },
            on_unrun: Some("Failed to create iptables chain"@),
            on_reject: None,
        },
    )
}

/// Whether a step inserts the jump as the first rule of a chain, unless a check for the same jump
/// succeeds.
pub open spec fn inserts_jump(
    step: StepView,
    program: Seq<char>,
    table: Seq<char>,
    from_chain: Seq<char>,
    to_chain: Seq<char>,
    comment: Seq<char>,
) -> bool {
    let words = seq!["-j"@, to_chain, "-m"@, "comment"@, "--comment"@, comment];
    &&& step matches StepView::Unless { check, even_if_unrun, otherwise }
    &&& even_if_unrun
    &&& check.program == program
    &&& check.args == seq!["-t"@, table, "-C"@, from_chain] + words
    &&& otherwise.invocation.program == program
    &&& otherwise.invocation.args == seq!["-t"@, table, "-I"@, from_chain, "1"@] + words
    &&& otherwise.on_unrun == Some("Failed to add iptables jump rule"@)
    &&& otherwise.on_reject == Some("Failed to add jump rule: "@)
}

/// Whether a step appends the rule to a chain, unless the check succeeds.
pub open spec fn appends(
    step: StepView,
    program: Seq<char>,
    table: Seq<char>,
    chain: Seq<char>,
    checked: Seq<Seq<char>>,
    words: Seq<Seq<char>>,
    in_doubt: bool,
    context: Option<Seq<char>>,
) -> bool {
    &&& step matches StepView::Unless { check, even_if_unrun, otherwise }
    &&& even_if_unrun == in_doubt
    &&& check.program == program
    &&& check.args == seq!["-t"@, table, "-C"@, chain] + checked
    &&& otherwise.invocation.program == program
    &&& otherwise.invocation.args == seq!["-t"@, table, "-A"@, chain] + words
    &&& otherwise.on_unrun == context
    &&& otherwise.on_reject is None
}

/// The words of a rule with a comment in front.
pub open spec fn noted(comment: Seq<char>, words: Seq<Seq<char>>) -> Seq<Seq<char>> {
    seq!["-m"@, "comment"@, "--comment"@, comment] + words
}

/// Setting up switches the kernel so that rules apply to bridged traffic; makes the two chains
/// of the proxy and lets traffic that comes in, or starts on the node, pass through them first;
/// and rewrites the source of traffic within the network of the containers, from the node, and
/// to rewritten destinations.
pub proof fn law_nat_setup(m: ManagerView)
    ensures
        ({
            let steps = initialize_steps(m);
            let cmd = m.iptables_cmd;
            let portals = "kubernetes service portals"@;
            let ports = "kubernetes service node ports"@;
            let masquerade = seq!["-j"@, "MASQUERADE"@];
            let hairpin = noted(
                "rusternetes service hairpin masquerade"@,
                seq!["-s"@, "172.18.0.0/16"@, "-d"@, "172.18.0.0/16"@] + masquerade,
            );
            let local = noted(
                "rusternetes nodeport masquerade"@,
                seq!["-m"@, "addrtype"@, "--src-type"@, "LOCAL"@] + masquerade,
            );
            let dnat = noted(
                "rusternetes DNAT traffic masquerade"@,
                seq!["-m"@, "conntrack"@, "--ctstate"@, "DNAT"@] + masquerade,
            );
            let bridge = "/proc/sys/net/bridge/bridge-nf-call-iptables"@;
            let bridge6 = "/proc/sys/net/bridge/bridge-nf-call-ip6tables"@;
            let post = "POSTROUTING"@;
            &&& steps.len() == 24
            &&& steps[0] == (StepView::EnableSwitch { path: bridge })
            &&& steps[1] == (StepView::EnableSwitch { path: bridge6 })
            &&& steps[2] == makes(cmd, "nat"@, m.services_chain)
            &&& steps[3] == makes(cmd, "nat"@, m.nodeports_chain)
            &&& inserts_jump(steps[4], cmd, "nat"@, "PREROUTING"@, m.services_chain, portals)
            &&& inserts_jump(steps[5], cmd, "nat"@, "OUTPUT"@, m.services_chain, portals)
            &&& inserts_jump(steps[6], cmd, "nat"@, "PREROUTING"@, m.nodeports_chain, ports)
            &&& inserts_jump(steps[7], cmd, "nat"@, "OUTPUT"@, m.nodeports_chain, ports)
            &&& appends(
                steps[8],
                cmd,
                "nat"@,
                post,
                hairpin,
                hairpin,
                true,
                Some("Failed to add hairpin MASQUERADE rule"@),
            )
            &&& appends(
                steps[9],
                cmd,
                "nat"@,
                post,
                local,
                local,
                true,
                Some("Failed to add NodePort MASQUERADE rule"@),
            )
            &&& appends(
                steps[10],
                cmd,
                "nat"@,
                post,
                dnat,
                dnat,
                true,
                Some("Failed to add DNAT MASQUERADE rule"@),
            )
        }),
{
    let masquerade = seq!["-j"@, "MASQUERADE"@];
    assert(noted(
        "rusternetes service hairpin masquerade"@,
        seq!["-s"@, "172.18.0.0/16"@, "-d"@, "172.18.0.0/16"@] + masquerade,
    ) =~= hairpin_words());
    assert(noted(
        "rusternetes nodeport masquerade"@,
        seq!["-m"@, "addrtype"@, "--src-type"@, "LOCAL"@] + masquerade,
    ) =~= local_words());
    assert(noted(
        "rusternetes DNAT traffic masquerade"@,
        seq!["-m"@, "conntrack"@, "--ctstate"@, "DNAT"@] + masquerade,
    ) =~= dnat_words());
}

/// Setting up makes the chain that accepts forwarded traffic, lets forwarded traffic and traffic
/// that starts on the node pass through it first, and has it accept rewritten traffic, traffic
/// from and to services, traffic that belongs to known connections, and all else; and it makes
/// services routable.
pub proof fn law_filter_setup(m: ManagerView)
    ensures
        ({
            let steps = initialize_steps(m);
            let cmd = m.iptables_cmd;
            let chain = "KUBE-FORWARD"@;
            let portals = "kubernetes service portals"@;
            let forwarding = "kubernetes forwarding rules"@;
            let accept = seq!["-j"@, "ACCEPT"@];
            let state = |state: Seq<char>| seq!["-m"@, "conntrack"@, "--ctstate"@, state];
            let known = state("RELATED,ESTABLISHED"@);
            let rewritten = state("DNAT"@) + noted(
                "kubernetes forwarding DNAT conntrack"@,
                accept,
            );
            let service = |flag: Seq<char>|
                seq![flag, "10.96.0.0/12"@] + noted("kubernetes forwarding service CIDR"@, accept);
            let related = known + noted("kubernetes forwarding conntrack"@, accept);
            let late = noted("kubernetes forwarding conntrack rule"@, known + accept);
            let all = noted(forwarding, accept);
            &&& steps[11] == makes(cmd, "filter"@, chain)
            &&& inserts_jump(steps[12], cmd, "filter"@, "FORWARD"@, chain, forwarding)
            &&& appends(
                steps[13],
                cmd,
                "filter"@,
                chain,
                rewritten,
                rewritten,
                true,
                Some("Failed to add KUBE-FORWARD DNAT accept rule"@),
            )
            &&& appends(
                steps[14],
                cmd,
                "filter"@,
                chain,
                service("-s"@),
                service("-s"@),
                true,
                None,
            )
            &&& appends(
                steps[15],
                cmd,
                "filter"@,
                chain,
                service("-d"@),
                service("-d"@),
                true,
                None,
            )
            &&& appends(steps[16], cmd, "filter"@, chain, related, related, true, None)
            &&& inserts_jump(steps[17], cmd, "filter"@, "OUTPUT"@, chain, portals)
            &&& steps[18] == StepView::EnsureRoute
            &&& steps[19] == makes(cmd, "filter"@, chain)
            &&& inserts_jump(steps[20], cmd, "filter"@, "FORWARD"@, chain, forwarding)
            &&& appends(steps[21], cmd, "filter"@, chain, known + accept, late, false, None)
            &&& appends(steps[22], cmd, "filter"@, chain, all, all, false, None)
            &&& inserts_jump(steps[23], cmd, "filter"@, "OUTPUT"@, chain, forwarding)
        }),
{
    let accept = seq!["-j"@, "ACCEPT"@];
    let state = |state: Seq<char>| seq!["-m"@, "conntrack"@, "--ctstate"@, state];
    let known = state("RELATED,ESTABLISHED"@);
    assert(state("DNAT"@) + noted("kubernetes forwarding DNAT conntrack"@, accept)
        =~= accept_state_words(
        "DNAT"@,
        "kubernetes forwarding DNAT conntrack"@,
    ));
    assert(known + noted("kubernetes forwarding conntrack"@, accept)
        =~= accept_state_words(
        "RELATED,ESTABLISHED"@,
        "kubernetes forwarding conntrack"@,
    ));
    assert(seq!["-s"@, "10.96.0.0/12"@] + noted("kubernetes forwarding service CIDR"@, accept)
        =~= accept_services_words("-s"@));
    assert(seq!["-d"@, "10.96.0.0/12"@] + noted("kubernetes forwarding service CIDR"@, accept)
        =~= accept_services_words("-d"@));
    assert(known + accept =~= related_check_words());
    assert(noted("kubernetes forwarding conntrack rule"@, known + accept)
        =~= related_words());
    assert(noted("kubernetes forwarding rules"@, accept) =~= accept_all_words());
}

/// Flushing empties the two chains of the proxy, and ends with an error that names the chain
/// where that cannot be done; then it removes the chains of endpoints that are tracked, and
/// those that the listing shows.
pub proof fn law_flush(m: ManagerView)
    ensures
        ({
            let steps = flush_steps(m);
            let empties = |chain: Seq<char>|
                StepView::Run(
                    CommandView {
                        invocation: InvocationView {
                            program: m.iptables_cmd,
                            args: seq!["-t"@, "nat"@, "-F"@, chain],
                        },
                        on_unrun: Some("Failed to flush chain "@ + chain),
                        on_reject: None,
                    },
                );
            &&& steps.len() == 4
            &&& steps[0] == empties(m.services_chain)
            &&& steps[1] == empties(m.nodeports_chain)
            &&& steps[2] == (StepView::PurgeTracked { program: m.iptables_cmd })
            &&& steps[3] == (StepView::PurgeLeftovers { program: m.iptables_cmd })
        }),
{
}

/// Whether cleaning up may run the command: it removes a rule that setting up adds, or empties
/// or removes a chain that setting up makes.
pub open spec fn is_own(m: ManagerView, args: Seq<Seq<char>>) -> bool {
    ||| exists|i: int|
        0 <= i < initialize_steps(m).len() && (#[trigger] initialize_steps(m)[i] matches
            StepView::Unless { otherwise, .. } && args == removal(otherwise.invocation.args))
    ||| exists|i: int|
        0 <= i < initialize_steps(m).len() && (#[trigger] initialize_steps(m)[i] matches
            StepView::Run(command) && (args == command.invocation.args.update(2, "-F"@) || args
            == command.invocation.args.update(2, "-X"@)))
}

proof fn lemma_own_jump(m: ManagerView, i: int, args: Seq<Seq<char>>)
    requires
        0 <= i < initialize_steps(m).len(),
        initialize_steps(m)[i] matches StepView::Unless { otherwise, .. } && removal(
            otherwise.invocation.args,
        ) == args,
    ensures
        is_own(m, args),
{
}

proof fn lemma_own_chain(m: ManagerView, i: int, args: Seq<Seq<char>>, verb: Seq<char>)
    requires
        0 <= i < initialize_steps(m).len(),
        initialize_steps(m)[i] matches StepView::Run(command) && args
            == command.invocation.args.update(2, verb),
        verb == "-F"@ || verb == "-X"@,
    ensures
        is_own(m, args),
{
}

/// Cleaning up flushes first. After that it touches nothing that setting up did not add: each of
/// its commands removes a rule or a chain of setting up, or empties such a chain, by the program
/// in use, and its failure is passed over.
pub proof fn law_cleanup_touches_only_its_own(m: ManagerView, j: int)
    requires
        4 <= j < cleanup_steps(m).len(),
    ensures
        cleanup_steps(m).take(4) == flush_steps(m),
        cleanup_steps(m)[j] matches StepView::Run(command) && command.invocation.program
            == m.iptables_cmd && command.on_unrun is None && command.on_reject is None && is_own(
            m,
            command.invocation.args,
        ),
{
    let c = cleanup_steps(m);
    let s = initialize_steps(m);
    assert(c.take(4) =~= flush_steps(m));
    reveal_strlit("-I");
    reveal_strlit("-A");
    assert("-I"@[1] == 'I' && "-A"@[1] == 'A');
    let from = if j <= 10 {
        j
    } else if j == 11 {
        12
    } else if j == 12 {
        17
    } else if j == 13 {
        23
    } else if j <= 15 {
        11
    } else {
        j - 14
    };
    let args = c[j]->Run_0.invocation.args;
    if j <= 13 {
        let added = s[from]->otherwise.invocation.args;
        assert(removal(added) =~= args);
        lemma_own_jump(m, from, args);
    } else if j == 14 {
        assert(args =~= s[11]->Run_0.invocation.args.update(2, "-F"@));
        lemma_own_chain(m, 11, args, "-F"@);
    } else {
        assert(args =~= s[from]->Run_0.invocation.args.update(2, "-X"@));
        lemma_own_chain(m, from, args, "-X"@);
    }
}

} // verus!
