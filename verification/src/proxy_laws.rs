//! What holds of the operations of the proxy, whatever the host replies.

use crate::balance::{
    affinity_for, all_return_lines, balance_lines, return_lines, Affinity, FrontView, GroupView,
};
use crate::iptables::{
    accept_all_words, accept_services_words, accept_state_words, apply_steps, cleanup_steps,
    delete_chain_step, dnat_words, ensure_chain_step, ensure_jump_step, ensure_rule_step,
    filter_setup, flush_steps, hairpin_words, initialize_steps, jump_words, local_words,
    made_chains, nat_setup, planned, port_steps, related_check_words, related_words,
    remove_jump_step, remove_rule_step, ManagerView,
};
use crate::rule::LineView;
use crate::session::{
    begun, best_effort, feed_failure, next, purge_chain, purge_chains, route_query, shows_output,
    ActionView, InvocationView, ReplyView, SessionView, StageView, StepView,
};
use crate::session_laws::{
    action_after, after, ended_well, law_every_session_ends, law_lenient_commands_are_run,
    law_lenient_steps_never_fail, lemma_after_shift, lenient, unfailing,
};
use crate::text::{concat, lemma_concat_contains, lemma_concat_push};
use vstd::prelude::*;

verus! {

// ---------------------------------------------------------------------------
// Setting up
// ---------------------------------------------------------------------------

/// Whether a command adds something to the host: a rule, or a route.
pub open spec fn adds(i: InvocationView) -> bool {
    ||| i.args.len() > 2 && (i.args[2] == "-A"@ || i.args[2] == "-I"@)
    ||| i.args.len() > 1 && i.args[1] == "add"@
}

/// Whether an action adds something to the host.
pub open spec fn is_addition(action: ActionView) -> bool {
    action matches ActionView::Run(i) && adds(i)
}

/// Whether a command makes a chain.
pub open spec fn makes_chain(i: InvocationView) -> bool {
    i.args.len() > 2 && i.args[2] == "-N"@
}

/// Whether a command checks for a rule.
pub open spec fn checks_rule(i: InvocationView) -> bool {
    i.args.len() > 2 && i.args[2] == "-C"@
}

/// Whether a reply to an action is one of a host on which everything is in place: a command that
/// makes a chain can be run, and may well report that the chain is there; a check finds its rule;
/// and the route to services is shown. Any other action may come to anything.
pub open spec fn in_place(action: ActionView, reply: ReplyView) -> bool {
    match action {
        ActionView::Run(i) => {
            &&& makes_chain(i) ==> reply is Ran
            &&& checks_rule(i) ==> reply.succeeded()
            &&& i == route_query("10.96.0.0/12"@) ==> shows_output(reply)
        },
        _ => true,
    }
}

/// A step that adds nothing where everything is in place.
pub open spec fn calm_step(step: StepView) -> bool {
    match step {
        StepView::Run(command) => {
            !adds(command.invocation) && makes_chain(command.invocation) && command.on_reject
                is None
        },
        StepView::Unless { check, .. } => !adds(check) && checks_rule(check),
        StepView::EnableSwitch { .. } => true,
        StepView::EnsureRoute => true,
        _ => false,
    }
}

/// A session that has asked for an action, and adds nothing where everything is in place.
pub open spec fn calm(s: SessionView, asked: ActionView) -> bool {
    &&& !is_addition(asked)
    &&& forall|i: int| 0 <= i < s.steps.len() ==> calm_step(#[trigger] s.steps[i])
    &&& match s.stage {
        StageView::Running { on_reject, .. } => on_reject is None && (asked matches ActionView::Run(
            i,
        ) && makes_chain(i)),
        StageView::Checking { .. } => asked matches ActionView::Run(i) && checks_rule(i),
        StageView::Probing { .. } => true,
        StageView::Loading { .. } => true,
        StageView::Reprobing { .. } => true,
        StageView::Writing => true,
        StageView::Routing => asked == ActionView::Run(route_query("10.96.0.0/12"@)),
        StageView::Ended(result) => result is Ok,
        _ => false,
    }
}

proof fn lemma_calm_begun(steps: Seq<StepView>)
    requires
        forall|i: int| 0 <= i < steps.len() ==> calm_step(#[trigger] steps[i]),
    ensures
        calm(begun(steps).0, begun(steps).1),
{
    reveal_strlit("add");
    reveal_strlit("show");
    reveal_strlit("-A");
    reveal_strlit("-I");
    reveal_strlit("10.96.0.0/12");
    if steps.len() > 0 {
        assert(calm_step(steps[0]));
        assert forall|i: int| 0 <= i < steps.drop_first().len() implies calm_step(
            #[trigger] steps.drop_first()[i],
        ) by {
            assert(steps.drop_first()[i] == steps[i + 1]);
        }
        if steps[0] is EnsureRoute {
            assert("show"@.len() != "add"@.len());
            assert("10.96.0.0/12"@.len() != "-A"@.len());
            assert("10.96.0.0/12"@.len() != "-I"@.len());
        }
    }
}

proof fn lemma_calm_next(s: SessionView, asked: ActionView, reply: ReplyView)
    requires
        calm(s, asked),
        in_place(asked, reply),
    ensures
        calm(next(s, reply).0, next(s, reply).1),
{
    lemma_calm_begun(s.steps);
}

proof fn lemma_calm_after(steps: Seq<StepView>, replies: spec_fn(nat) -> ReplyView, n: nat)
    requires
        forall|i: int| 0 <= i < steps.len() ==> calm_step(#[trigger] steps[i]),
        forall|k: nat|
            in_place(#[trigger] action_after(planned(steps), replies, k), replies(k + 1)),
    ensures
        calm(after(planned(steps), replies, n + 1), action_after(planned(steps), replies, n)),
    decreases n,
{
    let s = planned(steps);
    assert(after(s, replies, 0) == s);
    if n == 0 {
        lemma_calm_begun(steps);
    } else {
        let m = (n - 1) as nat;
        lemma_calm_after(steps, replies, m);
        assert(in_place(action_after(s, replies, m), replies(m + 1)));
        lemma_calm_next(after(s, replies, n), action_after(s, replies, m), replies(n));
    }
}

proof fn lemma_words_differ()
    ensures
        "-N"@ != "-A"@,
        "-N"@ != "-I"@,
        "-C"@ != "-A"@,
        "-C"@ != "-I"@,
        "-A"@ != "-I"@,
        "nat"@ != "add"@,
        "filter"@ != "add"@,
{
    reveal_strlit("-N");
    reveal_strlit("-A");
    reveal_strlit("-I");
    reveal_strlit("-C");
    reveal_strlit("nat");
    reveal_strlit("filter");
    reveal_strlit("add");
    assert("-N"@[1] == 'N');
    assert("-C"@[1] == 'C');
    assert("-A"@[1] == 'A');
    assert("-I"@[1] == 'I');
    assert("nat"@[0] == 'n');
    assert("add"@[0] == 'a');
    assert("filter"@[0] == 'f');
}

proof fn lemma_calm_setup(m: ManagerView)
    ensures
        forall|i: int|
            0 <= i < initialize_steps(m).len() ==> calm_step(#[trigger] initialize_steps(m)[i]),
{
    lemma_words_differ();
    let nat_part = nat_setup(m);
    let filter_part = filter_setup(m);
    assert forall|i: int| 0 <= i < nat_part.len() implies calm_step(#[trigger] nat_part[i]) by {}
    assert forall|i: int| 0 <= i < filter_part.len() implies calm_step(
        #[trigger] filter_part[i],
    ) by {}
    let all = initialize_steps(m);
    assert forall|i: int| 0 <= i < all.len() implies calm_step(#[trigger] all[i]) by {
        if i < nat_part.len() {
            assert(all[i] == nat_part[i]);
        } else {
            assert(all[i] == filter_part[i - nat_part.len()]);
        }
    }
}

/// Setting up a host on which everything is in place adds nothing to it, and ends well.
pub proof fn law_setup_is_idempotent(m: ManagerView, replies: spec_fn(nat) -> ReplyView)
    requires
        forall|k: nat|
            in_place(
                #[trigger] action_after(planned(initialize_steps(m)), replies, k),
                replies(k + 1),
            ),
    ensures
        forall|n: nat|
            !is_addition(#[trigger] action_after(planned(initialize_steps(m)), replies, n)),
        exists|n: nat|
            ended_well(#[trigger] after(planned(initialize_steps(m)), replies, n)),
{
    let s = planned(initialize_steps(m));
    lemma_calm_setup(m);
    assert forall|n: nat| !is_addition(#[trigger] action_after(s, replies, n)) by {
        lemma_calm_after(initialize_steps(m), replies, n);
    }
    law_every_session_ends(s, replies);
    let n = choose|n: nat| (#[trigger] after(s, replies, n)).stage is Ended;
    assert(after(s, replies, 0) == s);
    lemma_calm_after(initialize_steps(m), replies, (n - 1) as nat);
    assert(ended_well(after(s, replies, n)));
}

// ---------------------------------------------------------------------------
// Putting all rules into place
// ---------------------------------------------------------------------------

/// Restoring comes first of all: no chain is touched before it. Where it fails, that is the end
/// and no chain is removed. Where it succeeds, exactly the tracked chains are removed, and the
/// operation ends well whatever comes of that.
pub proof fn law_no_gap(m: ManagerView, rules: Seq<char>, reply: ReplyView)
    ensures
        ({
            let start = begun(apply_steps(m, rules));
            let purges = purge_chains(m.iptables_cmd, m.sep_chains, m.sep_chains.len());
            &&& start.1 matches ActionView::Feed { input, .. }
            &&& input == rules
            &&& match feed_failure(reply) {
                Some(failure) => !reply.succeeded() && next(start.0, reply).1
                    == ActionView::Finish(Err(failure)),
                None => reply.succeeded() && next(start.0, reply) == begun(purges) && unfailing(
                    begun(purges).0,
                ),
            }
        }),
{
    let start = begun(apply_steps(m, rules));
    let purges = purge_chains(m.iptables_cmd, m.sep_chains, m.sep_chains.len());
    assert(apply_steps(m, rules).drop_first() =~= purges);
    lemma_purges_are_lenient(m.iptables_cmd, m.sep_chains, m.sep_chains.len());
    if purges.len() > 0 {
        assert(lenient(purges[0]));
        assert forall|i: int| 0 <= i < purges.drop_first().len() implies lenient(
            #[trigger] purges.drop_first()[i],
        ) by {
            assert(purges.drop_first()[i] == purges[i + 1]);
        }
    }
}

proof fn lemma_purges_are_lenient(program: Seq<char>, chains: Seq<Seq<char>>, n: nat)
    ensures
        forall|i: int|
            0 <= i < purge_chains(program, chains, n).len() ==> lenient(
                #[trigger] purge_chains(program, chains, n)[i],
            ),
{
    let blocks = Seq::new(n, |i: int| purge_chain(program, chains[i]));
    let all = purge_chains(program, chains, n);
    assert forall|i: int| 0 <= i < all.len() implies lenient(#[trigger] all[i]) by {
        assert(concat(blocks).contains(all[i]));
        lemma_concat_contains(blocks, all[i]);
        let k = choose|k: int| 0 <= k < blocks.len() && (#[trigger] blocks[k]).contains(all[i]);
        assert(blocks[k] == purge_chain(program, chains[k]));
    }
}

/// Removing chains empties each of them, then removes it, in order, and does nothing else.
pub proof fn law_each_chain_is_purged(program: Seq<char>, chains: Seq<Seq<char>>, n: nat)
    requires
        n <= chains.len(),
    ensures
        purge_chains(program, chains, n).len() == 2 * n,
        forall|i: int|
            0 <= i < n ==> purge_chains(program, chains, n)[2 * i] == best_effort(
                program,
                seq!["-t"@, "nat"@, "-F"@, #[trigger] chains[i]],
            ) && purge_chains(program, chains, n)[2 * i + 1] == best_effort(
                program,
                seq!["-t"@, "nat"@, "-X"@, chains[i]],
            ),
    decreases n,
{
    if n > 0 {
        let m = (n - 1) as nat;
        let f = |i: int| purge_chain(program, chains[i]);
        law_each_chain_is_purged(program, chains, m);
        assert(Seq::new(n, f) =~= Seq::new(m, f).push(f(m as int)));
        lemma_concat_push(Seq::new(m, f), f(m as int));
    }
}

// ---------------------------------------------------------------------------
// Rules for one service port
// ---------------------------------------------------------------------------

/// Every chain that is made for an endpoint is tracked, so that it is removed later; and no
/// other is tracked.
pub proof fn law_made_chains_are_tracked(
    front: FrontView,
    group: GroupView,
    affinity: Affinity,
    endpoints: Seq<(Seq<char>, u16)>,
    chain: Seq<char>,
)
    ensures
        balance_lines(front, group, affinity, endpoints, true).contains(LineView::Chain(chain))
            <==> made_chains(group, affinity, endpoints.len()).contains(chain),
{
    let n = endpoints.len();
    let line = LineView::Chain(chain);
    let lines = balance_lines(front, group, affinity, endpoints, true);
    let made = made_chains(group, affinity, n);
    if affinity !is Off {
        let blocks = Seq::new(
            n,
            |i: int| return_lines(front, group, affinity, endpoints, true, i as nat),
        );
        let comebacks = all_return_lines(front, group, affinity, endpoints, true, n);
        lemma_concat_contains(blocks, line);
        if made.contains(chain) {
            let i = choose|i: int| 0 <= i < made.len() && made[i] == chain;
            assert(blocks[i][0] == line);
            assert(blocks[i].contains(line));
            let j = choose|j: int| 0 <= j < comebacks.len() && comebacks[j] == line;
            assert(lines[j] == line);
        }
        if lines.contains(line) {
            let j = choose|j: int| 0 <= j < lines.len() && lines[j] == line;
            assert(j < comebacks.len());
            assert(comebacks[j] == line);
            let b = choose|b: int| 0 <= b < blocks.len() && (#[trigger] blocks[b]).contains(line);
            assert(made[b] == chain);
        }
    }
}

/// Where clients are kept at their endpoints, adding the rules ends well, whatever the replies.
pub proof fn law_sticky_rules_never_fail(
    program: Seq<char>,
    front: FrontView,
    group: GroupView,
    affinity: Affinity,
    endpoints: Seq<(Seq<char>, u16)>,
    context: Seq<char>,
    replies: spec_fn(nat) -> ReplyView,
)
    requires
        affinity !is Off,
    ensures
        exists|n: nat|
            ended_well(
                #[trigger] after(
                    planned(port_steps(program, front, group, affinity, endpoints, context)),
                    replies,
                    n,
                ),
            ),
{
    law_lenient_steps_never_fail(
        planned(port_steps(program, front, group, affinity, endpoints, context)),
        replies,
    );
}

/// Without endpoints there is no affinity, no command is run and no chain is made: the
/// operation is over as soon as it starts, and ends well.
pub proof fn law_no_endpoints_no_rules(
    m: ManagerView,
    front: FrontView,
    group: GroupView,
    sticky: bool,
    seconds: i32,
    context: Seq<char>,
)
    ensures
        ({
            let affinity = affinity_for(sticky, 0, seconds, m.recent_available, false);
            let steps = port_steps(
                m.iptables_cmd,
                front,
                group,
                affinity,
                Seq::empty(),
                context,
            );
            &&& begun(steps).1 == ActionView::Finish(Ok(()))
            &&& made_chains(group, affinity, 0) == Seq::<Seq<char>>::empty()
        }),
{
}

// ---------------------------------------------------------------------------
// Flushing and cleaning up
// ---------------------------------------------------------------------------

/// The steps that follow the two that empty the chains of the proxy cannot fail: neither
/// removing the chains of endpoints, nor removing rules and chains.
proof fn lemma_rest_is_lenient(m: ManagerView)
    ensures
        forall|i: int|
            2 <= i < cleanup_steps(m).len() ==> lenient(#[trigger] cleanup_steps(m)[i]),
        forall|i: int| 2 <= i < flush_steps(m).len() ==> lenient(#[trigger] flush_steps(m)[i]),
{
    assert forall|i: int| 2 <= i < flush_steps(m).len() implies lenient(
        #[trigger] flush_steps(m)[i],
    ) by {}
    assert forall|i: int| 2 <= i < cleanup_steps(m).len() implies lenient(
        #[trigger] cleanup_steps(m)[i],
    ) by {}
}

/// The session of flushing or cleaning up, once the chains of the proxy were emptied.
proof fn lemma_after_emptying(
    m: ManagerView,
    steps: Seq<StepView>,
    replies: spec_fn(nat) -> ReplyView,
) -> (later: spec_fn(nat) -> ReplyView)
    requires
        steps == flush_steps(m) || steps == cleanup_steps(m),
        replies(1) is Ran,
        replies(2) is Ran,
    ensures
        ({
            let t = after(planned(steps), replies, 3);
            &&& t == begun(steps.skip(2)).0
            &&& unfailing(t)
            &&& forall|n: nat|
                after(planned(steps), replies, n + 3) == #[trigger] after(t, later, n)
            &&& forall|n: nat|
                action_after(planned(steps), replies, n + 3) == #[trigger] action_after(t, later, n)
        }),
{
    let s = planned(steps);
    lemma_rest_is_lenient(m);
    reveal_with_fuel(after, 4);
    let r1 = |k: nat| replies(k + 1);
    let r2 = |k: nat| r1(k + 1);
    let r3 = |k: nat| r2(k + 1);
    let s1 = next(s, replies(0)).0;
    let s2 = next(s1, r1(0)).0;
    let s3 = next(s2, r2(0)).0;
    assert(steps.drop_first().drop_first() =~= steps.skip(2));
    assert(steps.skip(2)[0] == steps[2]);
    assert(s3 == begun(steps.skip(2)).0);
    assert forall|i: int| 0 <= i < s3.steps.len() implies lenient(#[trigger] s3.steps[i]) by {
        assert(s3.steps[i] == steps[i + 3]);
    }
    assert forall|n: nat| after(s, replies, n + 3) == #[trigger] after(s3, r3, n) by {
        lemma_after_shift(s2, r2, n);
        lemma_after_shift(s1, r1, n + 1);
        lemma_after_shift(s, replies, n + 2);
    }
    assert forall|n: nat| action_after(s, replies, n + 3) == #[trigger] action_after(s3, r3, n) by {
        assert(after(s, replies, n + 3) == after(s3, r3, n));
        assert(r3(n) == replies(n + 3));
    }
    assert(after(s3, r3, 0) == s3);
    assert(after(s, replies, 0 + 3) == s3);
    r3
}

/// Flushing and cleaning up fail only where one of the two chains of the proxy could not be
/// emptied because the program did not run: once it ran for both, they end well, whatever the
/// other replies.
pub proof fn law_cleanup_ends_well(
    m: ManagerView,
    steps: Seq<StepView>,
    replies: spec_fn(nat) -> ReplyView,
)
    requires
        steps == flush_steps(m) || steps == cleanup_steps(m),
        replies(1) is Ran,
        replies(2) is Ran,
    ensures
        exists|n: nat|
            ended_well(#[trigger] after(planned(steps), replies, n)),
{
    let later = lemma_after_emptying(m, steps, replies);
    let t = after(planned(steps), replies, 3);
    law_lenient_steps_never_fail(t, later);
    let n = choose|n: nat| ended_well(#[trigger] after(t, later, n));
    assert(ended_well(after(planned(steps), replies, n + 3)));
}

/// Whether a step runs the program with the arguments.
pub open spec fn runs(step: StepView, program: Seq<char>, args: Seq<Seq<char>>) -> bool {
    step matches StepView::Run(command) && command.invocation == InvocationView { program, args }
}

/// The arguments of the command that removes the rule that the given ones insert at the top of a
/// chain, or append to it.
pub open spec fn removal(args: Seq<Seq<char>>) -> Seq<Seq<char>> {
    let words = if args[2] == "-I"@ {
        args.skip(5)
    } else {
        args.skip(4)
    };
    seq![args[0], args[1], "-D"@, args[3]] + words
}

/// Whether cleaning up removes the rule that a command with the arguments adds.
pub open spec fn removes(m: ManagerView, args: Seq<Seq<char>>) -> bool {
    exists|j: int|
        0 <= j < cleanup_steps(m).len() && runs(
            #[trigger] cleanup_steps(m)[j],
            m.iptables_cmd,
            removal(args),
        )
}

/// Whether cleaning up empties the chain, then removes it.
pub open spec fn purges(m: ManagerView, table: Seq<char>, chain: Seq<char>) -> bool {
    exists|j: int, k: int|
        0 <= j < k < cleanup_steps(m).len() && runs(
            #[trigger] cleanup_steps(m)[j],
            m.iptables_cmd,
            seq!["-t"@, table, "-F"@, chain],
        ) && runs(
            #[trigger] cleanup_steps(m)[k],
            m.iptables_cmd,
            seq!["-t"@, table, "-X"@, chain],
        )
}

/// Whether cleaning up removes the jump that a command with the arguments inserts, and then the
/// chain that it jumps to.
pub open spec fn removes_before_chain(
    m: ManagerView,
    args: Seq<Seq<char>>,
    chain: Seq<char>,
) -> bool {
    exists|j: int, k: int|
        0 <= j < k < cleanup_steps(m).len() && runs(
            #[trigger] cleanup_steps(m)[j],
            m.iptables_cmd,
            removal(args),
        ) && runs(
            #[trigger] cleanup_steps(m)[k],
            m.iptables_cmd,
            seq!["-t"@, args[1], "-X"@, chain],
        )
}

/// Whether cleaning up undoes what a step of setting up does to the tables.
pub open spec fn undone(m: ManagerView, step: StepView) -> bool {
    match step {
        StepView::Run(command) => {
            let args = command.invocation.args;
            &&& command.invocation.program == m.iptables_cmd
            &&& args == seq!["-t"@, args[1], "-N"@, args[3]]
            &&& purges(m, args[1], args[3])
        },
        StepView::Unless { otherwise, .. } => {
            let args = otherwise.invocation.args;
            &&& otherwise.invocation.program == m.iptables_cmd
            &&& adds(otherwise.invocation)
            &&& removes(m, args) || purges(m, args[1], args[3])
            &&& args[2] == "-I"@ ==> removes_before_chain(m, args, args[6])
        },
        StepView::EnableSwitch { .. } => true,
        StepView::EnsureRoute => true,
        _ => false,
    }
}

proof fn lemma_jump_undone(
    m: ManagerView,
    table: Seq<char>,
    from_chain: Seq<char>,
    to_chain: Seq<char>,
    comment: Seq<char>,
    j: int,
    k: int,
)
    requires
        0 <= j < k < cleanup_steps(m).len(),
        cleanup_steps(m)[j] == remove_jump_step(
            m.iptables_cmd,
            table,
            from_chain,
            to_chain,
            comment,
        ),
        cleanup_steps(m)[k] == delete_chain_step(m.iptables_cmd, table, to_chain),
    ensures
        undone(m, ensure_jump_step(m.iptables_cmd, table, from_chain, to_chain, comment)),
{
    let words = jump_words(to_chain, comment);
    let args = seq!["-t"@, table, "-I"@, from_chain, "1"@] + words;
    assert(args.skip(5) =~= words);
    assert(args[6] == to_chain);
    assert(runs(cleanup_steps(m)[j], m.iptables_cmd, removal(args)));
    assert(runs(cleanup_steps(m)[k], m.iptables_cmd, seq!["-t"@, args[1], "-X"@, args[6]]));
}

proof fn lemma_rule_undone(
    m: ManagerView,
    table: Seq<char>,
    chain: Seq<char>,
    check: Seq<Seq<char>>,
    words: Seq<Seq<char>>,
    even_if_unrun: bool,
    context: Option<Seq<char>>,
)
    requires
        purges(m, table, chain) || cleanup_steps(m).contains(
            remove_rule_step(m.iptables_cmd, table, chain, words),
        ),
    ensures
        undone(
            m,
            ensure_rule_step(
                m.iptables_cmd,
                table,
                chain,
                check,
                words,
                even_if_unrun,
                context,
            ),
        ),
{
    lemma_words_differ();
    let args = seq!["-t"@, table, "-A"@, chain] + words;
    assert(args.skip(4) =~= words);
    if !purges(m, table, chain) {
        let step = remove_rule_step(m.iptables_cmd, table, chain, words);
        let j = choose|j: int| 0 <= j < cleanup_steps(m).len() && cleanup_steps(m)[j] == step;
        assert(runs(cleanup_steps(m)[j], m.iptables_cmd, removal(args)));
    }
}

proof fn lemma_chain_undone(m: ManagerView, table: Seq<char>, chain: Seq<char>, j: int, k: int)
    requires
        0 <= j < k < cleanup_steps(m).len(),
        runs(cleanup_steps(m)[j], m.iptables_cmd, seq!["-t"@, table, "-F"@, chain]),
        cleanup_steps(m)[k] == delete_chain_step(m.iptables_cmd, table, chain),
    ensures
        purges(m, table, chain),
        undone(m, ensure_chain_step(m.iptables_cmd, table, chain)),
{
    let args = seq!["-t"@, table, "-N"@, chain];
    assert(runs(cleanup_steps(m)[k], m.iptables_cmd, seq!["-t"@, table, "-X"@, chain]));
    assert(args[1] == table && args[3] == chain);
}

/// Cleaning up undoes what setting up does to the tables: every rule that a step inserts or
/// appends is removed in the same words, or goes with its chain; every chain that a step makes
/// is emptied, then removed; and a chain is removed only after the jumps to it.
pub proof fn law_cleanup_undoes_setup(m: ManagerView)
    ensures
        forall|i: int|
            0 <= i < initialize_steps(m).len() ==> undone(m, #[trigger] initialize_steps(m)[i]),
{
    let c = cleanup_steps(m);
    let forward = "KUBE-FORWARD"@;
    let portals = "kubernetes service portals"@;
    let ports = "kubernetes service node ports"@;
    let forwarding = "kubernetes forwarding rules"@;
    lemma_chain_undone(m, "nat"@, m.services_chain, 0, 16);
    lemma_chain_undone(m, "nat"@, m.nodeports_chain, 1, 17);
    lemma_chain_undone(m, "filter"@, forward, 14, 15);
    lemma_jump_undone(m, "nat"@, "PREROUTING"@, m.services_chain, portals, 4, 16);
    lemma_jump_undone(m, "nat"@, "OUTPUT"@, m.services_chain, portals, 5, 16);
    lemma_jump_undone(m, "nat"@, "PREROUTING"@, m.nodeports_chain, ports, 6, 17);
    lemma_jump_undone(m, "nat"@, "OUTPUT"@, m.nodeports_chain, ports, 7, 17);
    lemma_jump_undone(m, "filter"@, "FORWARD"@, forward, forwarding, 11, 15);
    lemma_jump_undone(m, "filter"@, "OUTPUT"@, forward, portals, 12, 15);
    lemma_jump_undone(m, "filter"@, "OUTPUT"@, forward, forwarding, 13, 15);
    assert(c[8] == remove_rule_step(m.iptables_cmd, "nat"@, "POSTROUTING"@, hairpin_words()));
    assert(c[9] == remove_rule_step(m.iptables_cmd, "nat"@, "POSTROUTING"@, local_words()));
    assert(c[10] == remove_rule_step(m.iptables_cmd, "nat"@, "POSTROUTING"@, dnat_words()));
    let nat_part = nat_setup(m);
    let filter_part = filter_setup(m);
    assert forall|i: int| 0 <= i < nat_part.len() implies undone(m, #[trigger] nat_part[i]) by {
        if i >= 8 {
            let words = if i == 8 {
                hairpin_words()
            } else if i == 9 {
                local_words()
            } else {
                dnat_words()
            };
            let context = nat_part[i]->otherwise.on_unrun;
            assert(c[i] == remove_rule_step(m.iptables_cmd, "nat"@, "POSTROUTING"@, words));
            assert(c.contains(c[i]));
            lemma_rule_undone(m, "nat"@, "POSTROUTING"@, words, words, true, context);
        }
    }
    assert forall|i: int| 0 <= i < filter_part.len() implies undone(
        m,
        #[trigger] filter_part[i],
    ) by {
        let dnat = accept_state_words("DNAT"@, "kubernetes forwarding DNAT conntrack"@);
        let related = accept_state_words(
            "RELATED,ESTABLISHED"@,
            "kubernetes forwarding conntrack"@,
        );
        let from = accept_services_words("-s"@);
        let to = accept_services_words("-d"@);
        let late = related_words();
        let all = accept_all_words();
        let context = Some("Failed to add KUBE-FORWARD DNAT accept rule"@);
        lemma_rule_undone(m, "filter"@, forward, dnat, dnat, true, context);
        lemma_rule_undone(m, "filter"@, forward, from, from, true, None);
        lemma_rule_undone(m, "filter"@, forward, to, to, true, None);
        lemma_rule_undone(m, "filter"@, forward, related, related, true, None);
        lemma_rule_undone(m, "filter"@, forward, related_check_words(), late, false, None);
        lemma_rule_undone(m, "filter"@, forward, all, all, false, None);
    }
    let steps = initialize_steps(m);
    assert forall|i: int| 0 <= i < steps.len() implies undone(m, #[trigger] steps[i]) by {
        if i < nat_part.len() {
            assert(steps[i] == nat_part[i]);
        } else {
            assert(steps[i] == filter_part[i - nat_part.len()]);
        }
    }
}

/// Cleaning up runs every one of its commands, whatever the replies, once the program ran for
/// both chains of the proxy.
pub proof fn law_cleanup_runs_every_command(
    m: ManagerView,
    replies: spec_fn(nat) -> ReplyView,
    k: int,
)
    requires
        replies(1) is Ran,
        replies(2) is Ran,
        0 <= k < cleanup_steps(m).len(),
        cleanup_steps(m)[k] is Run,
    ensures
        exists|n: nat|
            #[trigger] action_after(planned(cleanup_steps(m)), replies, n) == ActionView::Run(
                cleanup_steps(m)[k]->Run_0.invocation,
            ),
{
    let steps = cleanup_steps(m);
    let s = planned(steps);
    let wanted = ActionView::Run(steps[k]->Run_0.invocation);
    reveal_with_fuel(after, 2);
    if k < 2 {
        assert(steps.drop_first()[0] == steps[1]);
        assert(action_after(s, replies, k as nat) == wanted);
    } else {
        let later = lemma_after_emptying(m, steps, replies);
        let t = after(s, replies, 3);
        assert(steps[2] is PurgeTracked);
        assert(steps.skip(2).drop_first()[k - 3] == steps[k]);
        assert(t.steps.contains(steps[k]));
        law_lenient_commands_are_run(t, later, steps[k]->Run_0);
        let n = choose|n: nat| #[trigger] action_after(t, later, n) == wanted;
        assert(action_after(s, replies, n + 3) == wanted);
    }
}

} // verus!
