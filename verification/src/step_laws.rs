//! What each kind of step asks for, and how it takes the replies.
//!
//! Every law here follows one step from the moment that its turn comes until the next step has
//! its turn, or the operation ends.

use crate::failure::FailureView;
use crate::listing::leftover_chains;
use crate::proxy_laws::law_each_chain_is_purged;
use crate::session::{
    begun, next, purge_chains, ActionView, CommandView, InvocationView, ReplyView, SessionView,
    StageView, StepView,
};
use crate::session_laws::{action_after, after};
use crate::text::nth_word;
use vstd::prelude::*;

verus! {

/// The session and its action when the step has its turn, with other steps behind it.
pub open spec fn turn(step: StepView, rest: Seq<StepView>) -> (SessionView, ActionView) {
    begun(seq![step] + rest)
}

/// Whether the operation ends with the error.
pub open spec fn fails(
    outcome: (SessionView, ActionView),
    context: Seq<char>,
    cause: Option<Seq<char>>,
) -> bool {
    outcome.1 == ActionView::Finish(Err(FailureView { context, cause }))
}

proof fn lemma_turn(step: StepView, rest: Seq<StepView>)
    ensures
        (seq![step] + rest)[0] == step,
        (seq![step] + rest).drop_first() == rest,
        (seq![step] + rest).len() > 0,
{
    assert((seq![step] + rest).drop_first() =~= rest);
}

/// Without steps the operation ends well.
pub proof fn law_nothing_to_do()
    ensures
        begun(Seq::empty()).1 == ActionView::Finish(Ok(())),
{
}

/// A command is run. Whatever it reports, the next step has its turn, but for two cases: where
/// it could not be run, or its input or end failed, and that matters, the operation ends with
/// its context and the cause; where it reports failure and that matters, the operation ends with
/// its text and the error output.
pub proof fn law_command(command: CommandView, rest: Seq<StepView>, reply: ReplyView)
    ensures
        ({
            let (s, action) = turn(StepView::Run(command), rest);
            let outcome = next(s, reply);
            &&& action == ActionView::Run(command.invocation)
            &&& match reply {
                ReplyView::Ran { success, stderr, .. } => match command.on_reject {
                    Some(text) => if success {
                        outcome == begun(rest)
                    } else {
                        fails(outcome, text + stderr, None)
                    },
                    None => outcome == begun(rest),
                },
                ReplyView::Unrun { cause } => match command.on_unrun {
                    Some(context) => fails(outcome, context, Some(cause)),
                    None => outcome == begun(rest),
                },
                ReplyView::Unfed { cause } => match command.on_unrun {
                    Some(context) => fails(outcome, context, Some(cause)),
                    None => outcome == begun(rest),
                },
                ReplyView::Unawaited { cause } => match command.on_unrun {
                    Some(context) => fails(outcome, context, Some(cause)),
                    None => outcome == begun(rest),
                },
                ReplyView::Handed { .. } => outcome == begun(rest),
            }
        }),
{
    lemma_turn(StepView::Run(command), rest);
}

/// A checked command is run, and taken like any command, exactly where its check reports failure,
/// or could not be run and that is no excuse. Else the next step has its turn.
pub proof fn law_checked(
    check: InvocationView,
    even_if_unrun: bool,
    otherwise: CommandView,
    rest: Seq<StepView>,
    reply: ReplyView,
)
    ensures
        ({
            let step = StepView::Unless { check, even_if_unrun, otherwise };
            let (s, action) = turn(step, rest);
            let outcome = next(s, reply);
            &&& action == ActionView::Run(check)
            &&& match reply {
                ReplyView::Ran { success, .. } => if success {
                    outcome == begun(rest)
                } else {
                    outcome == turn(StepView::Run(otherwise), rest)
                },
                _ => if even_if_unrun {
                    outcome == turn(StepView::Run(otherwise), rest)
                } else {
                    outcome == begun(rest)
                },
            }
        }),
{
    lemma_turn(StepView::Unless { check, even_if_unrun, otherwise }, rest);
    lemma_turn(StepView::Run(otherwise), rest);
}

/// A switch of the kernel is looked for. Where it is not found, the module is loaded and the
/// switch looked for once more. Where it is found, the first or the second time, `1` is written
/// into it. Whatever comes of loading and writing, the next step has its turn in the end.
pub proof fn law_switch(
    path: Seq<char>,
    rest: Seq<StepView>,
    first: ReplyView,
    loading: ReplyView,
    second: ReplyView,
    writing: ReplyView,
)
    ensures
        ({
            let (s, action) = turn(StepView::EnableSwitch { path }, rest);
            let (t, then) = next(s, first);
            &&& action == ActionView::Probe(path)
            &&& if first.succeeded() {
                then == (ActionView::Write { path, contents: "1"@ }) && next(t, writing) == begun(
                    rest,
                )
            } else {
                let (u, again) = next(t, loading);
                let (v, last) = next(u, second);
                &&& then == ActionView::Run(
                    InvocationView { program: "modprobe"@, args: seq!["br_netfilter"@] },
                )
                &&& again == ActionView::Probe(path)
                &&& if second.succeeded() {
                    last == (ActionView::Write { path, contents: "1"@ }) && next(v, writing)
                        == begun(rest)
                } else {
                    (v, last) == begun(rest)
                }
            }
        }),
{
    lemma_turn(StepView::EnableSwitch { path }, rest);
}

/// Whatever the replies, a probe that finds its path is followed at once by writing `1` to that
/// path.
pub proof fn law_found_switches_are_set(
    s: SessionView,
    replies: spec_fn(nat) -> ReplyView,
    n: nat,
    path: Seq<char>,
)
    ensures
        action_after(s, replies, n) == ActionView::Probe(path) && replies(n + 1).succeeded()
            ==> action_after(s, replies, n + 1) == (ActionView::Write { path, contents: "1"@ }),
{
    let before = after(s, replies, n);
    let reply = replies(n);
    let (t, asked) = next(before, reply);
    assert(after(s, replies, n + 1) == t);
    lemma_asked(before, reply);
}

/// Whether the stage of a session fits the action that it asked for last.
pub open spec fn asked_for(s: SessionView, action: ActionView) -> bool {
    match action {
        ActionView::Probe(path) => s.stage == (StageView::Probing { path }) || s.stage == (
        StageView::Reprobing { path }),
        _ => s.stage !is Probing && s.stage !is Reprobing,
    }
}

proof fn lemma_asked(s: SessionView, reply: ReplyView)
    ensures
        asked_for(next(s, reply).0, next(s, reply).1),
{
}

/// The routes to the addresses of services are asked for. Where some are shown, that is all.
/// Else the routes to the network of the containers are asked for, and where their text holds a
/// third word, a route over the interface of that name is added. Failures are passed over.
pub proof fn law_route(
    rest: Seq<StepView>,
    known: ReplyView,
    bridge: ReplyView,
    adding: ReplyView,
)
    ensures
        ({
            let (s, action) = turn(StepView::EnsureRoute, rest);
            let (t, then) = next(s, known);
            let (u, last) = next(t, bridge);
            &&& action == ActionView::Run(
                InvocationView {
                    program: "ip"@,
                    args: seq!["route"@, "show"@, "10.96.0.0/12"@],
                },
            )
            &&& if known is Ran && !known->silent {
                (t, then) == begun(rest)
            } else {
                &&& then == ActionView::Run(
                    InvocationView {
                        program: "ip"@,
                        args: seq!["route"@, "show"@, "172.18.0.0/16"@],
                    },
                )
                &&& match bridge {
                    ReplyView::Ran { stdout, .. } => match nth_word(stdout, 0, 2) {
                        Some(interface) => {
                            &&& last == ActionView::Run(
                                InvocationView {
                                    program: "ip"@,
                                    args: seq![
                                        "route"@,
                                        "add"@,
                                        "10.96.0.0/12"@,
                                        "dev"@,
                                        interface,
                                    ],
                                },
                            )
                            &&& next(u, adding) == begun(rest)
                        },
                        None => (u, last) == begun(rest),
                    },
                    _ => (u, last) == begun(rest),
                }
            }
        }),
{
    lemma_turn(StepView::EnsureRoute, rest);
}

/// A command whose failures are passed over.
pub open spec fn tried(program: Seq<char>, args: Seq<Seq<char>>) -> StepView {
    StepView::Run(
        CommandView {
            invocation: InvocationView { program, args },
            on_unrun: None,
            on_reject: None,
        },
    )
}

/// Whether the first steps empty and remove the chains, one after the other, and the rest
/// follows.
pub open spec fn purges_first(
    steps: Seq<StepView>,
    program: Seq<char>,
    chains: Seq<Seq<char>>,
    rest: Seq<StepView>,
) -> bool {
    &&& steps.len() == 2 * chains.len() + rest.len()
    &&& forall|i: int|
        0 <= i < chains.len() ==> steps[2 * i] == tried(
            program,
            seq!["-t"@, "nat"@, "-F"@, #[trigger] chains[i]],
        ) && steps[2 * i + 1] == tried(program, seq!["-t"@, "nat"@, "-X"@, chains[i]])
    &&& forall|i: int| 0 <= i < rest.len() ==> steps[2 * chains.len() + i] == #[trigger] rest[i]
}

/// The tracked chains are asked for. Each chain that is handed over is emptied and then removed,
/// in order, and only then the next step has its turn.
pub proof fn law_tracked_chains(program: Seq<char>, rest: Seq<StepView>, reply: ReplyView)
    ensures
        ({
            let (s, action) = turn(StepView::PurgeTracked { program }, rest);
            &&& action == ActionView::TakeTracked
            &&& match reply {
                ReplyView::Handed { chains } => exists|steps: Seq<StepView>|
                    #[trigger] purges_first(steps, program, chains, rest) && next(s, reply)
                        == begun(steps),
                _ => next(s, reply) == begun(rest),
            }
        }),
{
    lemma_turn(StepView::PurgeTracked { program }, rest);
    if let ReplyView::Handed { chains } = reply {
        lemma_purges_first(program, chains, rest);
        let steps = purge_chains(program, chains, chains.len()) + rest;
        assert(next(turn(StepView::PurgeTracked { program }, rest).0, reply) == begun(steps));
    }
}

/// The listing of the NAT table is asked for. Each chain of an endpoint that it shows is emptied
/// and then removed, in order, and only then the next step has its turn.
pub proof fn law_leftover_chains(program: Seq<char>, rest: Seq<StepView>, reply: ReplyView)
    ensures
        ({
            let (s, action) = turn(StepView::PurgeLeftovers { program }, rest);
            &&& action == ActionView::Run(
                InvocationView { program, args: seq!["-t"@, "nat"@, "-L"@, "-n"@] },
            )
            &&& match reply {
                ReplyView::Ran { stdout, .. } => exists|steps: Seq<StepView>|
                    #[trigger] purges_first(steps, program, leftover_chains(stdout), rest)
                        && next(s, reply) == begun(steps),
                _ => next(s, reply) == begun(rest),
            }
        }),
{
    lemma_turn(StepView::PurgeLeftovers { program }, rest);
    if let ReplyView::Ran { stdout, .. } = reply {
        let chains = leftover_chains(stdout);
        lemma_purges_first(program, chains, rest);
        let steps = purge_chains(program, chains, chains.len()) + rest;
        assert(next(turn(StepView::PurgeLeftovers { program }, rest).0, reply) == begun(steps));
    }
}

proof fn lemma_purges_first(program: Seq<char>, chains: Seq<Seq<char>>, rest: Seq<StepView>)
    ensures
        purges_first(
            purge_chains(program, chains, chains.len()) + rest,
            program,
            chains,
            rest,
        ),
{
    law_each_chain_is_purged(program, chains, chains.len());
}

/// A program is fed its input. Where it succeeds, the next step has its turn. Else the operation
/// ends with the error that fits: the program was not started, its input was not written, its
/// end was not awaited, or it reported failure.
pub proof fn law_feed(
    invocation: InvocationView,
    input: Seq<char>,
    rest: Seq<StepView>,
    reply: ReplyView,
)
    ensures
        ({
            let (s, action) = turn(StepView::Feed { invocation, input }, rest);
            let outcome = next(s, reply);
            &&& action == (ActionView::Feed { invocation, input })
            &&& match reply {
                ReplyView::Ran { success, stderr, .. } => if success {
                    outcome == begun(rest)
                } else {
                    fails(outcome, "iptables-restore failed: "@ + stderr, None)
                },
                ReplyView::Unrun { cause } => fails(
                    outcome,
                    "Failed to spawn iptables-restore"@,
                    Some(cause),
                ),
                ReplyView::Unfed { cause } => fails(
                    outcome,
                    "Failed to write to iptables-restore stdin"@,
                    Some(cause),
                ),
                ReplyView::Unawaited { cause } => fails(
                    outcome,
                    "Failed to wait for iptables-restore"@,
                    Some(cause),
                ),
                ReplyView::Handed { .. } => fails(
                    outcome,
                    "Failed to wait for iptables-restore"@,
                    None,
                ),
            }
        }),
{
    lemma_turn(StepView::Feed { invocation, input }, rest);
}

} // verus!
