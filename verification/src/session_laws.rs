//! What holds of every session, whatever the host replies.

use crate::session::{
    begun, next, purge_chain, purge_chains, running, ActionView, CommandView, ReplyView,
    SessionView, StageView, StepView,
};
use crate::text::{concat, lemma_concat_contains};
use vstd::prelude::*;

verus! {

// ---------------------------------------------------------------------------
// Coming to an end
// ---------------------------------------------------------------------------

/// Whether a step asks for chains to remove.
pub open spec fn asks_for_chains(step: StepView) -> bool {
    step is PurgeTracked || step is PurgeLeftovers
}

/// How often chains to remove are still asked for, by the steps.
pub open spec fn questions(steps: Seq<StepView>) -> nat
    decreases steps.len(),
{
    if steps.len() == 0 {
        0
    } else {
        (if asks_for_chains(steps[0]) {
            1nat
        } else {
            0nat
        }) + questions(steps.drop_first())
    }
}

/// How often chains to remove are still asked for.
pub open spec fn questions_left(s: SessionView) -> nat {
    questions(s.steps) + if s.stage is Taking || s.stage is Listing {
        1nat
    } else {
        0nat
    }
}

/// How many replies a step takes at most, itself.
pub open spec fn step_cost(step: StepView) -> nat {
    match step {
        StepView::Unless { .. } => 2,
        StepView::EnableSwitch { .. } => 4,
        StepView::EnsureRoute => 3,
        _ => 1,
    }
}

/// How many replies the steps take at most, themselves.
pub open spec fn cost(steps: Seq<StepView>) -> nat
    decreases steps.len(),
{
    if steps.len() == 0 {
        0
    } else {
        step_cost(steps[0]) + cost(steps.drop_first())
    }
}

/// How many replies a stage takes at most.
pub open spec fn stage_cost(stage: StageView) -> nat {
    match stage {
        StageView::Ended(_) => 0,
        StageView::Checking { .. } => 2,
        StageView::Probing { .. } => 4,
        StageView::Loading { .. } => 3,
        StageView::Reprobing { .. } => 2,
        StageView::Routing => 3,
        StageView::Bridging => 2,
        _ => 1,
    }
}

/// How many replies a session takes at most, unless it learns of more chains to remove.
pub open spec fn work_left(s: SessionView) -> nat {
    stage_cost(s.stage) + cost(s.steps)
}

/// The session after the first `n` of the replies.
pub open spec fn after(
    s: SessionView,
    replies: spec_fn(nat) -> ReplyView,
    n: nat,
) -> SessionView
    decreases n,
{
    if n == 0 {
        s
    } else {
        let before = after(s, replies, (n - 1) as nat);
        next(before, replies((n - 1) as nat)).0
    }
}

/// What the session asks for after the first `n + 1` of the replies.
pub open spec fn action_after(
    s: SessionView,
    replies: spec_fn(nat) -> ReplyView,
    n: nat,
) -> ActionView {
    next(after(s, replies, n), replies(n)).1
}

proof fn lemma_begun_costs(steps: Seq<StepView>)
    ensures
        work_left(begun(steps).0) <= cost(steps),
        questions_left(begun(steps).0) == questions(steps),
{
}

proof fn lemma_purges(program: Seq<char>, chains: Seq<Seq<char>>, n: nat, rest: Seq<StepView>)
    ensures
        questions(purge_chains(program, chains, n) + rest) == questions(rest),
    decreases n,
{
    let blocks = Seq::new(n, |i: int| purge_chain(program, chains[i]));
    assert forall|i: int| 0 <= i < purge_chains(program, chains, n).len() implies
        !asks_for_chains(#[trigger] purge_chains(program, chains, n)[i]) by {
        let step = purge_chains(program, chains, n)[i];
        assert(concat(blocks).contains(step));
        lemma_concat_contains(blocks, step);
        let k = choose|k: int| 0 <= k < blocks.len() && (#[trigger] blocks[k]).contains(step);
        assert(blocks[k] == purge_chain(program, chains[k]));
    }
    lemma_no_questions(purge_chains(program, chains, n), rest);
}

proof fn lemma_no_questions(front: Seq<StepView>, rest: Seq<StepView>)
    requires
        forall|i: int| 0 <= i < front.len() ==> !asks_for_chains(#[trigger] front[i]),
    ensures
        questions(front + rest) == questions(rest),
    decreases front.len(),
{
    if front.len() == 0 {
        assert(front + rest =~= rest);
    } else {
        assert((front + rest).drop_first() =~= front.drop_first() + rest);
        assert(!asks_for_chains(front[0]));
        assert forall|i: int| 0 <= i < front.drop_first().len() implies !asks_for_chains(
            #[trigger] front.drop_first()[i],
        ) by {
            assert(front.drop_first()[i] == front[i + 1]);
        }
        lemma_no_questions(front.drop_first(), rest);
    }
}

/// Every reply brings a session nearer to its end: it asks for chains to remove less often than
/// before, or as often and has less work left.
pub proof fn law_progress(s: SessionView, reply: ReplyView)
    requires
        s.stage !is Ended,
    ensures
        ({
            let t = next(s, reply).0;
            ||| questions_left(t) < questions_left(s)
            ||| questions_left(t) == questions_left(s) && work_left(t) < work_left(s)
        }),
{
    lemma_begun_costs(s.steps);
    match s.stage {
        StageView::Taking { program } => {
            if let ReplyView::Handed { chains } = reply {
                let steps = purge_chains(program, chains, chains.len()) + s.steps;
                lemma_begun_costs(steps);
                lemma_purges(program, chains, chains.len(), s.steps);
            }
        },
        StageView::Listing { program } => {
            if let ReplyView::Ran { stdout, .. } = reply {
                let chains = crate::listing::leftover_chains(stdout);
                let steps = purge_chains(program, chains, chains.len()) + s.steps;
                lemma_begun_costs(steps);
                lemma_purges(program, chains, chains.len(), s.steps);
            }
        },
        _ => {},
    }
}

pub proof fn lemma_after_shift(s: SessionView, replies: spec_fn(nat) -> ReplyView, n: nat)
    ensures
        after(s, replies, n + 1) == after(
            next(s, replies(0)).0,
            |k: nat| replies(k + 1),
            n,
        ),
    decreases n,
{
    if n == 0 {
        assert(after(s, replies, 0) == s);
        reveal_with_fuel(after, 2);
    } else {
        lemma_after_shift(s, replies, (n - 1) as nat);
        let later = |k: nat| replies(k + 1);
        assert(later((n - 1) as nat) == replies(n));
    }
}

/// Every session comes to its end, whatever the replies.
pub proof fn law_every_session_ends(s: SessionView, replies: spec_fn(nat) -> ReplyView)
    ensures
        exists|n: nat| (#[trigger] after(s, replies, n)).stage is Ended,
    decreases questions_left(s), work_left(s),
{
    if s.stage is Ended {
        assert(after(s, replies, 0).stage is Ended);
    } else {
        law_progress(s, replies(0));
        let t = next(s, replies(0)).0;
        let later = |k: nat| replies(k + 1);
        law_every_session_ends(t, later);
        let n = choose|n: nat| (#[trigger] after(t, later, n)).stage is Ended;
        lemma_after_shift(s, replies, n);
        assert(after(s, replies, n + 1).stage is Ended);
    }
}

/// A session asks for nothing more exactly when it has ended, and says then how it ended. What
/// it is told after that changes nothing.
pub proof fn law_end_is_final(s: SessionView, reply: ReplyView)
    ensures
        next(s, reply).1 is Finish <==> next(s, reply).0.stage is Ended,
        next(s, reply).1 matches ActionView::Finish(result) ==> next(s, reply).0.stage
            == StageView::Ended(result),
        s.stage matches StageView::Ended(result) ==> next(s, reply) == (
            s,
            ActionView::Finish(result),
        ),
{
}

// ---------------------------------------------------------------------------
// Passing over failures
// ---------------------------------------------------------------------------

/// Whether a session has ended, and without an error.
pub open spec fn ended_well(s: SessionView) -> bool {
    s.stage matches StageView::Ended(result) && result is Ok
}

/// A command whose failure is passed over, whatever it is.
pub open spec fn forgiving(command: CommandView) -> bool {
    command.on_unrun is None && command.on_reject is None
}

/// A step that cannot end the operation with an error.
pub open spec fn lenient(step: StepView) -> bool {
    match step {
        StepView::Run(command) => forgiving(command),
        StepView::Unless { otherwise, .. } => forgiving(otherwise),
        StepView::Feed { .. } => false,
        _ => true,
    }
}

/// A session that cannot end with an error.
pub open spec fn unfailing(s: SessionView) -> bool {
    &&& forall|i: int| 0 <= i < s.steps.len() ==> lenient(#[trigger] s.steps[i])
    &&& match s.stage {
        StageView::Running { on_unrun, on_reject } => on_unrun is None && on_reject is None,
        StageView::Checking { otherwise, .. } => forgiving(otherwise),
        StageView::Feeding => false,
        StageView::Ended(result) => result is Ok,
        _ => true,
    }
}

proof fn lemma_begun_unfailing(steps: Seq<StepView>)
    requires
        forall|i: int| 0 <= i < steps.len() ==> lenient(#[trigger] steps[i]),
    ensures
        unfailing(begun(steps).0),
{
    if steps.len() > 0 {
        assert(lenient(steps[0]));
        assert forall|i: int| 0 <= i < steps.drop_first().len() implies lenient(
            #[trigger] steps.drop_first()[i],
        ) by {
            assert(steps.drop_first()[i] == steps[i + 1]);
        }
    }
}

proof fn lemma_purges_lenient(
    program: Seq<char>,
    chains: Seq<Seq<char>>,
    n: nat,
    rest: Seq<StepView>,
)
    requires
        forall|i: int| 0 <= i < rest.len() ==> lenient(#[trigger] rest[i]),
    ensures
        forall|i: int|
            0 <= i < (purge_chains(program, chains, n) + rest).len() ==> lenient(
                #[trigger] (purge_chains(program, chains, n) + rest)[i],
            ),
{
    let blocks = Seq::new(n, |i: int| purge_chain(program, chains[i]));
    let front = purge_chains(program, chains, n);
    assert forall|i: int| 0 <= i < (front + rest).len() implies lenient(
        #[trigger] (front + rest)[i],
    ) by {
        if i < front.len() {
            let step = front[i];
            assert(concat(blocks).contains(step));
            lemma_concat_contains(blocks, step);
            let k = choose|k: int| 0 <= k < blocks.len() && (#[trigger] blocks[k]).contains(step);
            assert(blocks[k] == purge_chain(program, chains[k]));
        } else {
            assert((front + rest)[i] == rest[i - front.len()]);
        }
    }
}

proof fn lemma_stays_unfailing(s: SessionView, reply: ReplyView)
    requires
        unfailing(s),
    ensures
        unfailing(next(s, reply).0),
{
    lemma_begun_unfailing(s.steps);
    match s.stage {
        StageView::Taking { program } => {
            if let ReplyView::Handed { chains } = reply {
                lemma_purges_lenient(program, chains, chains.len(), s.steps);
                lemma_begun_unfailing(purge_chains(program, chains, chains.len()) + s.steps);
            }
        },
        StageView::Listing { program } => {
            if let ReplyView::Ran { stdout, .. } = reply {
                let chains = crate::listing::leftover_chains(stdout);
                lemma_purges_lenient(program, chains, chains.len(), s.steps);
                lemma_begun_unfailing(purge_chains(program, chains, chains.len()) + s.steps);
            }
        },
        _ => {},
    }
}

proof fn lemma_unfailing_after(s: SessionView, replies: spec_fn(nat) -> ReplyView, n: nat)
    requires
        unfailing(s),
    ensures
        unfailing(after(s, replies, n)),
    decreases n,
{
    if n > 0 {
        lemma_unfailing_after(s, replies, (n - 1) as nat);
        lemma_stays_unfailing(
            after(s, replies, (n - 1) as nat),
            replies((n - 1) as nat),
        );
    }
}

/// A session whose failures are all passed over ends well, whatever the replies.
pub proof fn law_lenient_steps_never_fail(s: SessionView, replies: spec_fn(nat) -> ReplyView)
    requires
        unfailing(s),
    ensures
        exists|n: nat| ended_well(#[trigger] after(s, replies, n)),
{
    law_every_session_ends(s, replies);
    let n = choose|n: nat| (#[trigger] after(s, replies, n)).stage is Ended;
    lemma_unfailing_after(s, replies, n);
    assert(ended_well(after(s, replies, n)));
}

proof fn lemma_comes_nearer(s: SessionView, reply: ReplyView, command: CommandView)
    requires
        unfailing(s),
        s.steps.contains(StepView::Run(command)),
    ensures
        next(s, reply).1 == ActionView::Run(command.invocation) || next(s, reply).0.steps.contains(
            StepView::Run(command),
        ),
        next(s, reply).0.stage !is Ended || s.stage is Ended,
{
    let step = StepView::Run(command);
    lemma_begun_reaches(s.steps, step);
    match s.stage {
        StageView::Taking { program } => {
            if let ReplyView::Handed { chains } = reply {
                let front = purge_chains(program, chains, chains.len());
                let k = choose|k: int| 0 <= k < s.steps.len() && s.steps[k] == step;
                assert((front + s.steps)[front.len() + k] == step);
                lemma_begun_reaches(front + s.steps, step);
            }
        },
        StageView::Listing { program } => {
            if let ReplyView::Ran { stdout, .. } = reply {
                let chains = crate::listing::leftover_chains(stdout);
                let front = purge_chains(program, chains, chains.len());
                let k = choose|k: int| 0 <= k < s.steps.len() && s.steps[k] == step;
                assert((front + s.steps)[front.len() + k] == step);
                lemma_begun_reaches(front + s.steps, step);
            }
        },
        _ => {},
    }
}

proof fn lemma_begun_reaches(steps: Seq<StepView>, step: StepView)
    requires
        steps.contains(step),
        step is Run,
    ensures
        begun(steps).1 == ActionView::Run(step->Run_0.invocation)
            || begun(steps).0.steps.contains(step),
        begun(steps).0.stage !is Ended,
{
    let k = choose|k: int| 0 <= k < steps.len() && steps[k] == step;
    if k > 0 {
        assert(steps.drop_first()[k - 1] == step);
    }
}

/// A session whose failures are all passed over runs every command among its steps, whatever
/// the replies.
pub proof fn law_lenient_commands_are_run(
    s: SessionView,
    replies: spec_fn(nat) -> ReplyView,
    command: CommandView,
)
    requires
        unfailing(s),
        s.stage !is Ended,
        s.steps.contains(StepView::Run(command)),
    ensures
        exists|n: nat|
            #[trigger] action_after(s, replies, n) == ActionView::Run(command.invocation),
    decreases questions_left(s), work_left(s),
{
    let first = action_after(s, replies, 0);
    lemma_comes_nearer(s, replies(0), command);
    if first != ActionView::Run(command.invocation) {
        let t = next(s, replies(0)).0;
        let later = |k: nat| replies(k + 1);
        law_progress(s, replies(0));
        lemma_stays_unfailing(s, replies(0));
        law_lenient_commands_are_run(t, later, command);
        let n = choose|n: nat|
            #[trigger] action_after(t, later, n) == ActionView::Run(command.invocation);
        lemma_after_shift(s, replies, n);
        assert(action_after(s, replies, n + 1) == action_after(t, later, n));
    }
}

// ---------------------------------------------------------------------------
// Checks
// ---------------------------------------------------------------------------

/// A check that succeeds spares the command: the session goes on with the next step. A check
/// that reports failure leads to the command itself.
pub proof fn law_checked_command(
    s: SessionView,
    even_if_unrun: bool,
    otherwise: CommandView,
    reply: ReplyView,
)
    requires
        s.stage == (StageView::Checking { even_if_unrun, otherwise }),
    ensures
        reply.succeeded() ==> next(s, reply) == begun(s.steps),
        reply is Ran && !reply.succeeded() ==> next(s, reply) == running(otherwise, s.steps),
        reply !is Ran ==> next(s, reply) == if even_if_unrun {
            running(otherwise, s.steps)
        } else {
            begun(s.steps)
        },
{
}

} // verus!
