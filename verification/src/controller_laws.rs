//! What holds of the load balancer controller, whatever the store and the provider answer.

use crate::cloud::{balancer_request, internal_address, with_ingress, CloudIngressView};
use crate::loadbalancer::{
    key_parts, queue_key, sweep_next, watch_actions, work_next, SweepStageView, SweepView,
    WatchActionView, WatchEventView, WorkStageView, WorkView,
};
use crate::node_port::has_node_ports;
use crate::reconcile::{
    reconcile_next, reconcile_start, AnswerView, CallView, ReconciliationView, VerdictView,
};
use crate::service::ServiceView;
use crate::text::{lemma_position, position};
use vstd::prelude::*;

verus! {

// ---------------------------------------------------------------------------
// Keys
// ---------------------------------------------------------------------------

proof fn lemma_position_is(text: Seq<char>, c: char, i: int, at: int)
    requires
        0 <= i <= at < text.len(),
        text[at] == c,
        forall|k: int| i <= k < at ==> text[k] != c,
    ensures
        position(text, c, i) == at,
{
    lemma_position(text, c, i);
}

/// The key of a service gives back its namespace and name. A namespace holds no slash.
pub proof fn law_key_round_trip(namespace: Seq<char>, name: Seq<char>)
    requires
        !namespace.contains('/'),
    ensures
        key_parts(queue_key(namespace, name)) == Some((namespace, name)),
{
    reveal_strlit("services/");
    reveal_strlit("/");
    let key = queue_key(namespace, name);
    let head = "services/"@;
    let b = (head.len() + namespace.len()) as int;
    assert(key[8] == '/');
    lemma_position_is(key, '/', 0, 8);
    assert(key[b] == '/');
    assert forall|k: int| 9 <= k < b implies key[k] != '/' by {
        assert(key[k] == namespace[k - 9]);
        assert(namespace.contains(namespace[k - 9]));
    }
    lemma_position_is(key, '/', 9, b);
    assert(key.subrange(9, b) =~= namespace);
    assert(key.skip(b + 1) =~= name);
}

// ---------------------------------------------------------------------------
// Watching
// ---------------------------------------------------------------------------

/// Whenever the watch is about to be established, all services are queued just before, so that
/// no change is missed; and a change that is seen is queued.
pub proof fn law_no_change_is_missed(event: WatchEventView, sync_interval_secs: u64, i: int)
    requires
        0 <= i < watch_actions(event, sync_interval_secs).len(),
    ensures
        ({
            let actions = watch_actions(event, sync_interval_secs);
            &&& actions[i] is Connect ==> i > 0 && actions[i - 1] is EnqueueAll
            &&& event matches WatchEventView::Changed { key } ==> actions == seq![
                WatchActionView::Add { key },
            ]
        }),
{
}

// ---------------------------------------------------------------------------
// One service
// ---------------------------------------------------------------------------

/// How many answers a reconciliation takes at most.
pub open spec fn answers_left(s: ReconciliationView) -> nat {
    match s {
        ReconciliationView::Ready { .. } => 6,
        ReconciliationView::Allocating { .. } => 5,
        ReconciliationView::StoringPorts { .. } => 4,
        ReconciliationView::Ensuring { .. } => 3,
        ReconciliationView::Reading { .. } => 2,
        ReconciliationView::StoringStatus => 1,
        ReconciliationView::Ended(_) => 0,
    }
}

/// Every answer brings a reconciliation nearer to its end, and it asks for nothing more exactly
/// when it has ended. A call that fails ends it with an error.
pub proof fn law_reconciliation_ends(s: ReconciliationView, answer: AnswerView)
    ensures
        s !is Ended ==> answers_left(reconcile_next(s, answer).0) < answers_left(s),
        reconcile_next(s, answer).1 is Finish <==> reconcile_next(s, answer).0 is Ended,
        reconcile_next(s, answer).1 matches CallView::Finish(result) ==> reconcile_next(s, answer).0
            == ReconciliationView::Ended(result),
        s !is Ready && s !is Ended && answer is Failed ==> (reconcile_next(s, answer).1
            matches CallView::Finish(result) && result is Err),
{
}

/// A load balancer is only asked for once every port has a node port. New node ports are stored
/// first, and what is then asked for is what was stored.
pub proof fn law_ports_before_balancer(
    namespace: Seq<char>,
    service: ServiceView,
    cluster_name: Seq<char>,
    addresses: Seq<Seq<char>>,
    services: Seq<ServiceView>,
)
    requires
        service.namespace == Some(namespace),
    ensures
        reconcile_start(service, cluster_name, addresses).1 is Ensure <==> has_node_ports(
            service.ports,
        ),
        ({
            let waiting = ReconciliationView::Allocating {
                namespace,
                service,
                cluster_name,
                addresses,
            };
            let (after, call) = reconcile_next(waiting, AnswerView::Services(services));
            match call {
                CallView::Update { service: stored, .. } => {
                    &&& has_node_ports(stored.ports)
                    &&& reconcile_next(after, AnswerView::Done).1 == CallView::Ensure(
                        balancer_request(stored, namespace, cluster_name, addresses),
                    )
                },
                _ => call is Finish,
            }
        }),
{
    crate::node_port::law_allocation(service.ports, services);
}

/// A new status leaves the conditions of the service as they were, and everything besides the
/// status.
pub proof fn law_conditions_are_kept(service: ServiceView, ingress: Seq<CloudIngressView>)
    ensures
        ({
            let updated = with_ingress(service, ingress);
            &&& updated == (ServiceView { status: updated.status, ..service })
            &&& updated.status matches Some(now)
            &&& now.conditions == match service.status {
                Some(before) => before.conditions,
                None => None,
            }
            &&& now.load_balancer matches Some(shown)
            &&& shown.len() == ingress.len()
            &&& forall|i: int|
                0 <= i < ingress.len() ==> (#[trigger] shown[i]).ip == ingress[i].ip
                    && shown[i].hostname == ingress[i].hostname
        }),
{
}

/// At most one address is taken of a node: the first internal one.
pub proof fn law_first_internal_address(addresses: Seq<(Seq<char>, Seq<char>)>, i: int)
    requires
        0 <= i <= addresses.len(),
    ensures
        internal_address(addresses, i).len() == 0 <==> forall|k: int|
            i <= k < addresses.len() ==> (#[trigger] addresses[k]).0 != "InternalIP"@,
        internal_address(addresses, i).len() > 0 ==> exists|k: int|
            {
                &&& i <= k < addresses.len()
                &&& (#[trigger] addresses[k]).0 == "InternalIP"@
                &&& internal_address(addresses, i) == seq![addresses[k].1]
                &&& forall|j: int| i <= j < k ==> (#[trigger] addresses[j]).0 != "InternalIP"@
            },
    decreases addresses.len() - i,
{
    if i < addresses.len() && addresses[i].0 != "InternalIP"@ {
        law_first_internal_address(addresses, i + 1);
    }
}

// ---------------------------------------------------------------------------
// One key
// ---------------------------------------------------------------------------

/// A key whose service is gone, wants no load balancer, or cannot get one for want of a
/// provider is dealt with after one call, and its failures are forgotten.
pub proof fn law_nothing_to_balance(w: WorkView, answer: AnswerView)
    requires
        w.stage is Fetching,
        match answer {
            AnswerView::Service(service) => !service.wants_load_balancer() || !w.has_provider,
            _ => true,
        },
    ensures
        work_next(w, answer).1 == CallView::Conclude(VerdictView::Forget),
{
}

/// How many answers the work on a key takes at most.
pub open spec fn work_answers_left(w: WorkView) -> nat {
    match w.stage {
        WorkStageView::Ready { .. } => 9,
        WorkStageView::Fetching => 8,
        WorkStageView::ListingNodes { .. } => 7,
        WorkStageView::Reconciling { current } => 1 + answers_left(current),
        WorkStageView::Ended => 0,
    }
}

/// Every answer brings the work on a key nearer to its end, which comes with a verdict.
pub proof fn law_work_ends(w: WorkView, answer: AnswerView)
    ensures
        w.stage !is Ended ==> work_answers_left(work_next(w, answer).0) < work_answers_left(w),
        work_next(w, answer).1 is Conclude <==> work_next(w, answer).0.stage is Ended,
{
    if let WorkStageView::Reconciling { current } = w.stage {
        law_reconciliation_ends(current, answer);
    }
}

/// While a service is reconciled, its key comes back later exactly where the reconciliation
/// failed, and with its error.
pub proof fn law_failures_come_back(w: WorkView, current: ReconciliationView, answer: AnswerView)
    requires
        w.stage == (WorkStageView::Reconciling { current }),
    ensures
        forall|failure| #[trigger]
            work_next(w, answer).1 == CallView::Conclude(VerdictView::Retry(failure))
                <==> reconcile_next(current, answer).1 == CallView::Finish(Err(failure)),
        work_next(w, answer).1 == CallView::Conclude(VerdictView::Forget) <==> (reconcile_next(
            current,
            answer,
        ).1 matches CallView::Finish(result) && result is Ok),
{
}

// ---------------------------------------------------------------------------
// All services
// ---------------------------------------------------------------------------

/// Without a provider nothing is called.
pub proof fn law_no_provider_no_calls(s: SweepView, answer: AnswerView)
    requires
        s.stage is Ready,
        !s.has_provider,
    ensures
        sweep_next(s, answer).1 == CallView::Finish(Ok(())),
{
}

/// Whether a sweep has its lists and goes from service to service.
pub open spec fn under_way(s: SweepView) -> bool {
    s.stage is Reconciling || s.stage is Reporting
}

/// How many services a sweep has not yet reported.
pub open spec fn unreported(s: SweepView) -> nat {
    match s.stage {
        SweepStageView::Reconciling { rest, .. } => rest.len() + 1,
        SweepStageView::Reporting { rest, .. } => rest.len(),
        _ => 0,
    }
}

/// How many answers the service takes at most that is being reconciled.
pub open spec fn current_answers(s: SweepView) -> nat {
    match s.stage {
        SweepStageView::Reconciling { current, .. } => answers_left(current),
        SweepStageView::Reporting { .. } => 7,
        _ => 0,
    }
}

/// Whatever the answers, a sweep that is under way leaves no service without reporting what
/// came of it, and ends only when all are reported; then it ends well. So one service that
/// fails does not keep the others from their turn.
pub proof fn law_every_service_gets_its_turn(s: SweepView, answer: AnswerView)
    requires
        under_way(s),
    ensures
        ({
            let (t, call) = sweep_next(s, answer);
            &&& under_way(t) || call == CallView::Finish(Ok(()))
            &&& call is Finish ==> unreported(s) == 0
            &&& under_way(t) ==> unreported(t) == unreported(s) - if call is Report {
                1int
            } else {
                0int
            }
            &&& under_way(t) && call !is Report ==> current_answers(t) < current_answers(s)
        }),
{
    if let SweepStageView::Reconciling { current, .. } = s.stage {
        law_reconciliation_ends(current, answer);
    }
}

/// How far a sweep is from going from service to service.
pub open spec fn lists_left(s: SweepView) -> nat {
    match s.stage {
        SweepStageView::Ready => 3,
        SweepStageView::ListingServices => 2,
        SweepStageView::ListingNodes { .. } => 1,
        _ => 0,
    }
}

/// The sweep after the first `n` of the answers.
pub open spec fn sweep_after(s: SweepView, answers: spec_fn(nat) -> AnswerView, n: nat) -> SweepView
    decreases n,
{
    if n == 0 {
        s
    } else {
        sweep_next(sweep_after(s, answers, (n - 1) as nat), answers((n - 1) as nat)).0
    }
}

proof fn lemma_sweep_shift(s: SweepView, answers: spec_fn(nat) -> AnswerView, n: nat)
    ensures
        sweep_after(s, answers, n + 1) == sweep_after(
            sweep_next(s, answers(0)).0,
            |k: nat| answers(k + 1),
            n,
        ),
    decreases n,
{
    if n == 0 {
        reveal_with_fuel(sweep_after, 2);
    } else {
        lemma_sweep_shift(s, answers, (n - 1) as nat);
        let later = |k: nat| answers(k + 1);
        assert(later((n - 1) as nat) == answers(n));
    }
}

/// Every sweep comes to its end, whatever the answers; and once it is under way, it ends well.
pub proof fn law_every_sweep_ends(s: SweepView, answers: spec_fn(nat) -> AnswerView)
    ensures
        exists|n: nat| (#[trigger] sweep_after(s, answers, n)).stage is Ended,
        under_way(s) ==> exists|n: nat|
            ((#[trigger] sweep_after(s, answers, n)).stage matches SweepStageView::Ended(result)
                && result is Ok),
    decreases lists_left(s), unreported(s), current_answers(s),
{
    if s.stage is Ended {
        assert(sweep_after(s, answers, 0).stage is Ended);
    } else {
        let t = sweep_next(s, answers(0)).0;
        let later = |k: nat| answers(k + 1);
        if under_way(s) {
            law_every_service_gets_its_turn(s, answers(0));
        }
        if t.stage is Ended {
            lemma_sweep_shift(s, answers, 0);
            assert(sweep_after(s, answers, 1).stage is Ended);
        } else {
            law_every_sweep_ends(t, later);
            let n = choose|n: nat| (#[trigger] sweep_after(t, later, n)).stage is Ended;
            lemma_sweep_shift(s, answers, n);
            assert(sweep_after(s, answers, n + 1).stage is Ended);
            if under_way(s) {
                let n = choose|n: nat|
                    ((#[trigger] sweep_after(t, later, n)).stage matches SweepStageView::Ended(
                        result,
                    ) && result is Ok);
                lemma_sweep_shift(s, answers, n);
                assert(sweep_after(s, answers, n + 1) == sweep_after(t, later, n));
            }
        }
    }
}

} // verus!
