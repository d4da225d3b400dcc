//! What the controller does, told from what it is given and from the answers.

use crate::cloud::{internal_addresses, node_views, Node};
use crate::failure::FailureView;
use crate::loadbalancer::{
    cleanup_outcome, sweep_next, wanting, watch_actions, work_next, SweepStageView, SweepView,
    WatchActionView, WatchEventView, WorkStageView, WorkView,
};
use crate::reconcile::{reconcile_next, AnswerView, CallView, ReconciliationView, VerdictView};
use crate::request_laws::{ends_with, prepared};
use crate::service::{service_views, Service, ServiceType, ServiceView};
use crate::text_laws::law_key_parts;
use vstd::prelude::*;

verus! {

/// When the controller starts, or the watch is lost, all services are queued and the watch is
/// established. Where it was refused, the interval is waited for first. While it stands, all
/// services are queued every thirty seconds, and each that changes is queued under its key.
pub proof fn law_watching(key: Seq<char>, interval: u64)
    ensures
        watch_actions(WatchEventView::Started, interval) == seq![
            WatchActionView::EnqueueAll,
            WatchActionView::Connect,
        ],
        watch_actions(WatchEventView::Lost, interval) == watch_actions(
            WatchEventView::Started,
            interval,
        ),
        watch_actions(WatchEventView::Refused, interval) == seq![
            WatchActionView::Sleep { seconds: interval },
        ] + watch_actions(WatchEventView::Started, interval),
        watch_actions(WatchEventView::Established, interval) == seq![
            WatchActionView::Resync { seconds: 30 },
        ],
        watch_actions(WatchEventView::Tick, interval) == seq![WatchActionView::EnqueueAll],
        watch_actions(WatchEventView::Changed { key }, interval) == seq![
            WatchActionView::Add { key },
        ],
{
    assert(watch_actions(WatchEventView::Refused, interval) =~= seq![
        WatchActionView::Sleep { seconds: interval },
    ] + watch_actions(WatchEventView::Started, interval));
}

// ---------------------------------------------------------------------------
// One key
// ---------------------------------------------------------------------------

/// Work on a key, to be started.
pub open spec fn taken_up(has_provider: bool, cluster_name: Seq<char>, key: Seq<char>) -> WorkView {
    WorkView { has_provider, cluster_name, stage: WorkStageView::Ready { key } }
}

/// What work makes of a step of the reconciliation: it passes the call on, and waits for what the
/// reconciliation waits for. When that is over, the key comes back with its error, or its failures
/// are forgotten.
pub open spec fn passes_on(
    w: WorkView,
    step: (ReconciliationView, CallView),
    result: (WorkView, CallView),
) -> bool {
    match step.1 {
        CallView::Finish(Err(failure)) => result.1 == CallView::Conclude(
            VerdictView::Retry(failure),
        ),
        CallView::Finish(Ok(_)) => result.1 == CallView::Conclude(VerdictView::Forget),
        call => {
            &&& result.1 == call
            &&& result.0 == (WorkView {
                stage: WorkStageView::Reconciling { current: step.0 },
                ..w
            })
        },
    }
}

/// The work on a key reads the service that it names. Where that is to be offered by a load
/// balancer and there is a provider, the nodes are listed, and the service is reconciled with
/// their addresses, or with none where they could not be listed. In every other case the failures
/// of the key are forgotten.
pub proof fn law_work(
    has_provider: bool,
    cluster_name: Seq<char>,
    kind: Seq<char>,
    namespace: Seq<char>,
    name: Seq<char>,
    service: Service,
    nodes: Seq<Node>,
    a0: AnswerView,
    a1: AnswerView,
    a2: AnswerView,
)
    requires
        !kind.contains('/'),
        !namespace.contains('/'),
    ensures
        ({
            let key = kind + seq!['/'] + namespace + seq!['/'] + name;
            let (w1, c0) = work_next(taken_up(has_provider, cluster_name, key), a0);
            let (w2, c1) = work_next(w1, a1);
            let (w3, c2) = work_next(w2, a2);
            let balanced = service.spec.service_type == Some(ServiceType::LoadBalancer);
            let addresses = match a2 {
                AnswerView::Nodes(_) => internal_addresses(node_views(nodes), nodes.len()),
                _ => Seq::empty(),
            };
            &&& c0 == CallView::Get { namespace, name }
            &&& a1 !is Service ==> c1 == CallView::Conclude(VerdictView::Forget)
            &&& a1 == AnswerView::Service(service@) ==> if balanced && has_provider {
                &&& c1 == CallView::ListNodes
                &&& a2 == AnswerView::Nodes(node_views(nodes)) || a2 !is Nodes ==> passes_on(
                    w2,
                    reconcile_next(prepared(service, cluster_name, addresses), AnswerView::Done),
                    (w3, c2),
                )
            } else {
                c1 == CallView::Conclude(VerdictView::Forget)
            }
        }),
{
    law_key_parts(kind, namespace, name);
}

/// While a service is reconciled, work passes the answers to the reconciliation, and its calls on.
pub proof fn law_work_passes_on(
    has_provider: bool,
    cluster_name: Seq<char>,
    current: ReconciliationView,
    answer: AnswerView,
)
    ensures
        ({
            let w = WorkView {
                has_provider,
                cluster_name,
                stage: WorkStageView::Reconciling { current },
            };
            passes_on(w, reconcile_next(current, answer), work_next(w, answer))
        }),
{
}

/// A key without two slashes names no service and is dropped, without a call.
pub proof fn law_bad_keys_are_dropped(
    has_provider: bool,
    cluster_name: Seq<char>,
    kind: Seq<char>,
    rest: Seq<char>,
    answer: AnswerView,
)
    requires
        !kind.contains('/'),
        !rest.contains('/'),
    ensures
        work_next(taken_up(has_provider, cluster_name, kind), answer).1 == CallView::Conclude(
            VerdictView::Drop,
        ),
        work_next(taken_up(has_provider, cluster_name, kind + seq!['/'] + rest), answer).1
            == CallView::Conclude(VerdictView::Drop),
{
    law_key_parts(kind, rest, Seq::empty());
}

// ---------------------------------------------------------------------------
// All services
// ---------------------------------------------------------------------------

/// The services that are to be offered by a load balancer, in their order.
pub open spec fn balanced(services: Seq<Service>) -> Seq<Service>
    decreases services.len(),
{
    if services.len() == 0 {
        Seq::empty()
    } else if services.last().spec.service_type == Some(ServiceType::LoadBalancer) {
        balanced(services.drop_last()).push(services.last())
    } else {
        balanced(services.drop_last())
    }
}

proof fn lemma_balanced(services: Seq<Service>)
    ensures
        service_views(services).filter(wanting()) == service_views(balanced(services)),
    decreases services.len(),
{
    reveal(Seq::filter);
    let views = service_views(services);
    if services.len() == 0 {
        assert(views =~= Seq::empty());
        assert(service_views(balanced(services)) =~= Seq::empty());
    } else {
        lemma_balanced(services.drop_last());
        assert(views.drop_last() =~= service_views(services.drop_last()));
        assert(views.last() == services.last()@);
        let less = balanced(services.drop_last());
        assert(service_views(less.push(services.last())) =~= service_views(less).push(
            services.last()@,
        ));
    }
}

/// What a sweep makes of a step of the reconciliation of one service: it passes the call on, and
/// when the reconciliation is over, reports what came of it.
pub open spec fn carries_on(
    s: SweepView,
    namespace: Seq<char>,
    name: Seq<char>,
    step: (ReconciliationView, CallView),
    rest: Seq<ServiceView>,
    addresses: Seq<Seq<char>>,
    result: (SweepView, CallView),
) -> bool {
    match step.1 {
        CallView::Finish(outcome) => {
            &&& result.1 == CallView::Report { namespace, name, result: outcome }
            &&& result.0 == (SweepView {
                stage: SweepStageView::Reporting { rest, addresses },
                ..s
            })
        },
        call => {
            &&& result.1 == call
            &&& result.0 == (SweepView {
                stage: SweepStageView::Reconciling {
                    namespace,
                    name,
                    current: step.0,
                    rest,
                    addresses,
                },
                ..s
            })
        },
    }
}

/// Whether a sweep takes up the first of the services, with the addresses, and keeps the others
/// for later; or ends well where there is none.
pub open spec fn goes_to_first(
    s: SweepView,
    services: Seq<Service>,
    addresses: Seq<Seq<char>>,
    result: (SweepView, CallView),
) -> bool {
    if services.len() == 0 {
        result.1 matches CallView::Finish(outcome) && outcome is Ok
    } else {
        let service = services[0];
        carries_on(
            s,
            match service.metadata.namespace {
                Some(namespace) => namespace@,
                None => "unknown"@,
            },
            service.metadata.name@,
            reconcile_next(prepared(service, s.cluster_name, addresses), AnswerView::Done),
            service_views(services.drop_first()),
            addresses,
            result,
        )
    }
}

/// A sweep, to be started.
pub open spec fn sweep_of(has_provider: bool, cluster_name: Seq<char>) -> SweepView {
    SweepView { has_provider, cluster_name, stage: SweepStageView::Ready }
}

/// A sweep without a provider ends well at once. Else it lists the services, then the nodes, and
/// takes up the services that are to be offered by a load balancer, with the addresses of the
/// nodes. Where a list cannot be had, it ends with an error that says which.
pub proof fn law_sweep(
    cluster_name: Seq<char>,
    services: Seq<Service>,
    nodes: Seq<Node>,
    a0: AnswerView,
    a1: AnswerView,
    a2: AnswerView,
)
    ensures
        (sweep_next(sweep_of(false, cluster_name), a0).1 matches CallView::Finish(result)
            && result is Ok),
        ({
            let (s1, c0) = sweep_next(sweep_of(true, cluster_name), a0);
            let (s2, c1) = sweep_next(s1, a1);
            let (s3, c2) = sweep_next(s2, a2);
            &&& c0 == CallView::ListServices
            &&& a1 !is Services ==> ends_with(c1, "Failed to list services"@, a1)
            &&& a1 == AnswerView::Services(service_views(services)) ==> {
                &&& c1 == CallView::ListNodes
                &&& s2.cluster_name == cluster_name
                &&& a2 !is Nodes ==> ends_with(c2, "Failed to list nodes"@, a2)
                &&& a2 == AnswerView::Nodes(node_views(nodes)) ==> goes_to_first(
                    s2,
                    balanced(services),
                    internal_addresses(node_views(nodes), nodes.len()),
                    (s3, c2),
                )
            }
        }),
{
    lemma_balanced(services);
    let wanted = balanced(services);
    if wanted.len() > 0 {
        assert(service_views(wanted)[0] == wanted[0]@);
        assert(service_views(wanted).drop_first() =~= service_views(wanted.drop_first()));
    }
}

/// While a service is reconciled, a sweep passes the answers to the reconciliation, and its calls
/// on. Once the result is reported, whatever came of that, it goes on with the next service.
pub proof fn law_sweep_goes_on(
    s: SweepView,
    namespace: Seq<char>,
    name: Seq<char>,
    current: ReconciliationView,
    rest: Seq<Service>,
    addresses: Seq<Seq<char>>,
    answer: AnswerView,
)
    ensures
        ({
            let waiting = SweepView {
                stage: SweepStageView::Reconciling {
                    namespace,
                    name,
                    current,
                    rest: service_views(rest),
                    addresses,
                },
                ..s
            };
            carries_on(
                waiting,
                namespace,
                name,
                reconcile_next(current, answer),
                service_views(rest),
                addresses,
                sweep_next(waiting, answer),
            )
        }),
        ({
            let waiting = SweepView {
                stage: SweepStageView::Reporting { rest: service_views(rest), addresses },
                ..s
            };
            goes_to_first(waiting, rest, addresses, sweep_next(waiting, answer))
        }),
{
    if rest.len() > 0 {
        assert(service_views(rest)[0] == rest[0]@);
        assert(service_views(rest).drop_first() =~= service_views(rest.drop_first()));
    }
}

/// Removing a load balancer succeeds where the provider says that it is done, and fails with the
/// cause that it gives where it does not.
pub proof fn law_removal(answer: AnswerView)
    ensures
        answer is Done ==> cleanup_outcome(answer) is Ok,
        answer !is Done ==> ends_with(
            CallView::Finish(cleanup_outcome(answer)),
            "Failed to delete load balancer"@,
            answer,
        ),
{
}

/// What is over stays over: a reconciliation and a sweep say again how they ended, and a key that
/// is dealt with has nothing more done about it.
pub proof fn law_ends_are_final(
    result: Result<(), FailureView>,
    s: SweepView,
    w: WorkView,
    answer: AnswerView,
)
    ensures
        reconcile_next(ReconciliationView::Ended(result), answer) == (
            ReconciliationView::Ended(result),
            CallView::Finish(result),
        ),
        s.stage == SweepStageView::Ended(result) ==> sweep_next(s, answer) == (
            s,
            CallView::Finish(result),
        ),
        w.stage is Ended ==> work_next(w, answer) == (w, CallView::Conclude(VerdictView::Drop)),
{
}

} // verus!
