//! The controller that keeps load balancers in line with services: what it does with a key of
//! its work queue, with all services at once, and with the changes that it watches.

use crate::cloud::{internal_addresses, node_addresses};
use crate::failure::{copy_result, result_view, Failure, FailureView};
use crate::reconcile::{
    call_failure, failed_call, reconcile_next, reconcile_start, Answer, AnswerView, Call, CallView,
    Reconciliation, ReconciliationView, Verdict, VerdictView,
};
use crate::service::{service_views, Service, ServiceView};
use crate::text::{characters, copy_words, find, position, push_word, slice_text, texts};
use std::sync::Arc;
use vstd::prelude::*;

verus! {

/// The controller, with the store of the cluster and the cloud provider that it works with.
pub struct LoadBalancerController<S, P> {
    pub storage: Arc<S>,
    pub cloud_provider: Option<Arc<P>>,
    pub cluster_name: String,
    pub sync_interval_secs: u64,
}

impl<S, P> LoadBalancerController<S, P> {
    /// A controller. Without a provider it sets up no load balancer.
    pub fn new(
        storage: Arc<S>,
        cloud_provider: Option<Arc<P>>,
        cluster_name: String,
        sync_interval_secs: u64,
    ) -> (controller: Self)
        ensures
            controller.storage == storage,
            controller.cloud_provider == cloud_provider,
            controller.cluster_name == cluster_name,
            controller.sync_interval_secs == sync_interval_secs,
    {
        LoadBalancerController { storage, cloud_provider, cluster_name, sync_interval_secs }
    }
}

// ---------------------------------------------------------------------------
// Keys of the work queue
// ---------------------------------------------------------------------------

/// The key under which a service is queued.
pub open spec fn queue_key(namespace: Seq<char>, name: Seq<char>) -> Seq<char> {
    "services/"@ + namespace + "/"@ + name
}

/// Namespace and name that a key holds: what stands between its first two slashes, and what
/// stands behind the second one. A key with fewer slashes holds none.
pub open spec fn key_parts(key: Seq<char>) -> Option<(Seq<char>, Seq<char>)> {
    let a = position(key, '/', 0);
    let b = position(key, '/', a + 1);
    if a < key.len() && b < key.len() {
        Some((key.subrange(a + 1, b), key.skip(b + 1)))
    } else {
        None
    }
}

/// The keys of the services.
pub open spec fn queue_keys(services: Seq<ServiceView>) -> Seq<Seq<char>> {
    services.map_values(|s: ServiceView| queue_key(s.namespace_or(""@), s.name))
}

/// Splits a key into namespace and name.
pub fn split_key(key: &str) -> (parts: Option<(String, String)>)
    ensures
        match parts {
            Some(p) => key_parts(key@) == Some((p.0@, p.1@)),
            None => key_parts(key@) is None,
        },
{
    let all = characters(key);
    let a: usize = find(&all, '/', 0);
    if a == all.len() {
        return None;
    }
    let b: usize = find(&all, '/', a + 1);
    if b == all.len() {
        return None;
    }
    assert(key@.skip(b + 1) =~= key@.subrange(b + 1, key@.len() as int));
    Some((slice_text(&all, a + 1, b), slice_text(&all, b + 1, all.len())))
}

/// Writes the keys of all services, in their order.
pub fn enqueue_all(services: &[Service]) -> (keys: Vec<String>)
    ensures
        texts(keys@) == queue_keys(service_views(services@)),
{
    let mut keys: Vec<String> = Vec::new();
    let ghost all = queue_keys(service_views(services@));
    let mut i: usize = 0;
    while i < services.len()
        invariant
            i <= services.len(),
            all == queue_keys(service_views(services@)),
            texts(keys@) == all.take(i as int),
        decreases services.len() - i,
    {
        assert(service_views(services@)[i as int] == services@[i as int]@);
        let mut key = "services/".to_string();
        key.append(services[i].namespace_or(""));
        key.append("/");
        key.append(services[i].metadata.name.as_str());
        push_word(&mut keys, key.as_str());
        i += 1;
        assert(all.take(i as int) =~= all.take(i - 1).push(all[i - 1]));
    }
    assert(all.take(i as int) =~= all);
    keys
}

// ---------------------------------------------------------------------------
// Watching
// ---------------------------------------------------------------------------

/// What happens to the watch on services.
pub enum WatchEvent {
    /// The controller starts.
    Started,
    /// The watch could not be established.
    Refused,
    /// The watch is established.
    Established,
    /// A service changed; this is its key.
    Changed { key: String },
    /// The watch broke, or came to its end.
    Lost,
    /// The time for queueing all services again has come.
    Tick,
}

/// What the controller does about the watch.
pub enum WatchAction {
    /// Queue all services.
    EnqueueAll,
    /// Wait for so many seconds.
    Sleep { seconds: u64 },
    /// Establish the watch.
    Connect,
    /// Queue all services again every so many seconds.
    Resync { seconds: u64 },
    /// Queue one key.
    Add { key: String },
}

/// The content of a [`WatchEvent`].
pub enum WatchEventView {
    Started,
    Refused,
    Established,
    Changed { key: Seq<char> },
    Lost,
    Tick,
}

/// The content of a [`WatchAction`].
pub enum WatchActionView {
    EnqueueAll,
    Sleep { seconds: u64 },
    Connect,
    Resync { seconds: u64 },
    Add { key: Seq<char> },
}

impl View for WatchEvent {
    type V = WatchEventView;

    open spec fn view(&self) -> WatchEventView {
        match self {
            WatchEvent::Started => WatchEventView::Started,
            WatchEvent::Refused => WatchEventView::Refused,
            WatchEvent::Established => WatchEventView::Established,
            WatchEvent::Changed { key } => WatchEventView::Changed { key: key@ },
            WatchEvent::Lost => WatchEventView::Lost,
            WatchEvent::Tick => WatchEventView::Tick,
        }
    }
}

impl View for WatchAction {
    type V = WatchActionView;

    open spec fn view(&self) -> WatchActionView {
        match self {
            WatchAction::EnqueueAll => WatchActionView::EnqueueAll,
            WatchAction::Sleep { seconds } => WatchActionView::Sleep { seconds: *seconds },
            WatchAction::Connect => WatchActionView::Connect,
            WatchAction::Resync { seconds } => WatchActionView::Resync { seconds: *seconds },
            WatchAction::Add { key } => WatchActionView::Add { key: key@ },
        }
    }
}

/// The seconds after which all services are queued again.
pub const RESYNC_SECONDS: u64 = 30;

/// What the controller does when something happens to the watch.
pub open spec fn watch_actions(event: WatchEventView, sync_interval_secs: u64) -> Seq<
    WatchActionView,
> {
    match event {
        WatchEventView::Started | WatchEventView::Lost => seq![
            WatchActionView::EnqueueAll,
            WatchActionView::Connect,
        ],
        WatchEventView::Refused => seq![
            WatchActionView::Sleep { seconds: sync_interval_secs },
            WatchActionView::EnqueueAll,
            WatchActionView::Connect,
        ],
        WatchEventView::Established => seq![WatchActionView::Resync { seconds: RESYNC_SECONDS }],
        WatchEventView::Changed { key } => seq![WatchActionView::Add { key }],
        WatchEventView::Tick => seq![WatchActionView::EnqueueAll],
    }
}

impl<S, P> LoadBalancerController<S, P> {
    /// Says what to do when something happens to the watch.
    pub fn run(&self, event: WatchEvent) -> (actions: Vec<WatchAction>)
        ensures
            actions@.map_values(|a: WatchAction| a@) == watch_actions(
                event@,
                self.sync_interval_secs,
            ),
    {
        let mut actions: Vec<WatchAction> = Vec::new();
        let ghost seen = event@;
        match event {
            WatchEvent::Started | WatchEvent::Lost => {
                actions.push(WatchAction::EnqueueAll);
                actions.push(WatchAction::Connect);
            },
            WatchEvent::Refused => {
                actions.push(WatchAction::Sleep { seconds: self.sync_interval_secs });
                actions.push(WatchAction::EnqueueAll);
                actions.push(WatchAction::Connect);
            },
            WatchEvent::Established => {
                actions.push(WatchAction::Resync { seconds: RESYNC_SECONDS });
            },
            WatchEvent::Changed { key } => {
                actions.push(WatchAction::Add { key });
            },
            WatchEvent::Tick => {
                actions.push(WatchAction::EnqueueAll);
            },
        }
        assert(actions@.map_values(|a: WatchAction| a@) =~= watch_actions(
            seen,
            self.sync_interval_secs,
        ));
        actions
    }
}

// ---------------------------------------------------------------------------
// One key of the work queue
// ---------------------------------------------------------------------------

enum WorkStage {
    Ready { key: String },
    Fetching,
    ListingNodes { service: Service },
    Reconciling { current: Reconciliation },
    Ended,
}

/// One key of the work queue being dealt with.
pub struct Work {
    has_provider: bool,
    cluster_name: String,
    stage: WorkStage,
}

/// What a [`Work`] waits for.
pub enum WorkStageView {
    /// To be started.
    Ready { key: Seq<char> },
    /// The service that the key names.
    Fetching,
    /// The nodes of the cluster.
    ListingNodes { service: ServiceView },
    /// What the reconciliation of the service waits for.
    Reconciling { current: ReconciliationView },
    /// Nothing more.
    Ended,
}

/// The content of a [`Work`].
pub struct WorkView {
    pub has_provider: bool,
    pub cluster_name: Seq<char>,
    pub stage: WorkStageView,
}

impl View for Work {
    type V = WorkView;

    closed spec fn view(&self) -> WorkView {
        WorkView {
            has_provider: self.has_provider,
            cluster_name: self.cluster_name@,
            stage: match self.stage {
                WorkStage::Ready { key } => WorkStageView::Ready { key: key@ },
                WorkStage::Fetching => WorkStageView::Fetching,
                WorkStage::ListingNodes { service } => WorkStageView::ListingNodes {
                    service: service@,
                },
                WorkStage::Reconciling { current } => WorkStageView::Reconciling {
                    current: current@,
                },
                WorkStage::Ended => WorkStageView::Ended,
            },
        }
    }
}

/// Work that waits for a call.
pub open spec fn work_waits(w: WorkView, stage: WorkStageView, call: CallView) -> (
    WorkView,
    CallView,
) {
    (WorkView { stage, ..w }, call)
}

/// Work that is over.
pub open spec fn work_ends(w: WorkView, verdict: VerdictView) -> (WorkView, CallView) {
    work_waits(w, WorkStageView::Ended, CallView::Conclude(verdict))
}

/// How work follows a reconciliation: it makes its calls; when it is over, the key comes back
/// if it failed, and its failures are forgotten if it did not.
pub open spec fn work_follows(w: WorkView, step: (ReconciliationView, CallView)) -> (
    WorkView,
    CallView,
) {
    match step.1 {
        CallView::Finish(Ok(_)) => work_ends(w, VerdictView::Forget),
        CallView::Finish(Err(failure)) => work_ends(w, VerdictView::Retry(failure)),
        call => work_waits(w, WorkStageView::Reconciling { current: step.0 }, call),
    }
}

/// How work goes on after an answer.
pub open spec fn work_next(w: WorkView, answer: AnswerView) -> (WorkView, CallView) {
    match w.stage {
        WorkStageView::Ready { key } => match key_parts(key) {
            Some((namespace, name)) => work_waits(
                w,
                WorkStageView::Fetching,
                CallView::Get { namespace, name },
            ),
            None => work_ends(w, VerdictView::Drop),
        },
        WorkStageView::Fetching => match answer {
            AnswerView::Service(service) => if service.wants_load_balancer() && w.has_provider {
                work_waits(w, WorkStageView::ListingNodes { service }, CallView::ListNodes)
            } else {
                work_ends(w, VerdictView::Forget)
            },
            _ => work_ends(w, VerdictView::Forget),
        },
        WorkStageView::ListingNodes { service } => {
            let addresses = match answer {
                AnswerView::Nodes(nodes) => internal_addresses(nodes, nodes.len()),
                _ => Seq::empty(),
            };
            work_follows(w, reconcile_start(service, w.cluster_name, addresses))
        },
        WorkStageView::Reconciling { current } => work_follows(w, reconcile_next(current, answer)),
        WorkStageView::Ended => work_ends(w, VerdictView::Drop),
    }
}

impl<S, P> LoadBalancerController<S, P> {
    /// Takes up a key of the work queue.
    pub fn worker(&self, key: String) -> (work: Work)
        ensures
            work@ == (WorkView {
                has_provider: self.cloud_provider is Some,
                cluster_name: self.cluster_name@,
                stage: WorkStageView::Ready { key: key@ },
            }),
    {
        Work {
            has_provider: self.cloud_provider.is_some(),
            cluster_name: self.cluster_name.clone(),
            stage: WorkStage::Ready { key },
        }
    }
}

impl Work {
    fn conclude(&mut self, verdict: Verdict) -> (call: Call)
        ensures
            (final(self)@, call@) == work_ends(old(self)@, verdict@),
    {
        self.stage = WorkStage::Ended;
        Call::Conclude(verdict)
    }

    fn follow(&mut self, current: Reconciliation, call: Call) -> (next: Call)
        ensures
            (final(self)@, next@) == work_follows(old(self)@, (current@, call@)),
    {
        match call {
            Call::Finish(result) => match result {
                Ok(_) => self.conclude(Verdict::Forget),
                Err(failure) => self.conclude(Verdict::Retry(failure)),
            },
            call => {
                self.stage = WorkStage::Reconciling { current };
                call
            },
        }
    }

    /// Starts the work and says which call to make first.
    pub fn start(&mut self) -> (call: Call)
        ensures
            (final(self)@, call@) == work_next(old(self)@, AnswerView::Done),
    {
        self.react(Answer::Done)
    }

    /// Takes what came of the last call and says which one to make next.
    pub fn react(&mut self, answer: Answer) -> (call: Call)
        ensures
            (final(self)@, call@) == work_next(old(self)@, answer@),
    {
        let mut stage = WorkStage::Ended;
        std::mem::swap(&mut stage, &mut self.stage);
        match stage {
            WorkStage::Ready { key } => match split_key(key.as_str()) {
                Some(parts) => {
                    self.stage = WorkStage::Fetching;
                    Call::Get { namespace: parts.0, name: parts.1 }
                },
                None => self.conclude(Verdict::Drop),
            },
            WorkStage::Fetching => match answer {
                Answer::Service(service) => {
                    if service.wants_load_balancer() && self.has_provider {
                        self.stage = WorkStage::ListingNodes { service };
                        Call::ListNodes
                    } else {
                        self.conclude(Verdict::Forget)
                    }
                },
                _ => self.conclude(Verdict::Forget),
            },
            WorkStage::ListingNodes { service } => {
                let addresses = match answer {
                    Answer::Nodes(nodes) => node_addresses(nodes.as_slice()),
                    _ => {
                        let none: Vec<String> = Vec::new();
                        assert(texts(none@) =~= Seq::<Seq<char>>::empty());
                        none
                    },
                };
                let mut current = Reconciliation::new(
                    service,
                    self.cluster_name.clone(),
                    addresses,
                );
                let call = current.start();
                self.follow(current, call)
            },
            WorkStage::Reconciling { current } => {
                let mut current = current;
                let call = current.react(answer);
                self.follow(current, call)
            },
            WorkStage::Ended => self.conclude(Verdict::Drop),
        }
    }
}

// ---------------------------------------------------------------------------
// All services at once
// ---------------------------------------------------------------------------

enum SweepStage {
    Ready,
    ListingServices,
    ListingNodes { services: Vec<Service> },
    Reconciling {
        namespace: String,
        name: String,
        current: Reconciliation,
        rest: Vec<Service>,
        addresses: Vec<String>,
    },
    Reporting { rest: Vec<Service>, addresses: Vec<String> },
    Ended(Result<(), Failure>),
}

/// All load balancers being brought in line.
pub struct Sweep {
    has_provider: bool,
    cluster_name: String,
    stage: SweepStage,
}

/// What a [`Sweep`] waits for.
pub enum SweepStageView {
    /// To be started.
    Ready,
    /// All services.
    ListingServices,
    /// The nodes of the cluster.
    ListingNodes { services: Seq<ServiceView> },
    /// What the reconciliation of one service waits for.
    Reconciling {
        namespace: Seq<char>,
        name: Seq<char>,
        current: ReconciliationView,
        rest: Seq<ServiceView>,
        addresses: Seq<Seq<char>>,
    },
    /// The result of one service to be noted.
    Reporting { rest: Seq<ServiceView>, addresses: Seq<Seq<char>> },
    /// Nothing more.
    Ended(Result<(), FailureView>),
}

/// The content of a [`Sweep`].
pub struct SweepView {
    pub has_provider: bool,
    pub cluster_name: Seq<char>,
    pub stage: SweepStageView,
}

impl View for Sweep {
    type V = SweepView;

    closed spec fn view(&self) -> SweepView {
        SweepView {
            has_provider: self.has_provider,
            cluster_name: self.cluster_name@,
            stage: match self.stage {
                SweepStage::Ready => SweepStageView::Ready,
                SweepStage::ListingServices => SweepStageView::ListingServices,
                SweepStage::ListingNodes { services } => SweepStageView::ListingNodes {
                    services: service_views(services@),
                },
                SweepStage::Reconciling { namespace, name, current, rest, addresses } => {
                    SweepStageView::Reconciling {
                        namespace: namespace@,
                        name: name@,
                        current: current@,
                        rest: service_views(rest@),
                        addresses: texts(addresses@),
                    }
                },
                SweepStage::Reporting { rest, addresses } => SweepStageView::Reporting {
                    rest: service_views(rest@),
                    addresses: texts(addresses@),
                },
                SweepStage::Ended(result) => SweepStageView::Ended(result_view(result)),
            },
        }
    }
}

/// A sweep that waits for a call.
pub open spec fn sweep_waits(s: SweepView, stage: SweepStageView, call: CallView) -> (
    SweepView,
    CallView,
) {
    (SweepView { stage, ..s }, call)
}

/// A sweep that is over.
pub open spec fn sweep_ends(s: SweepView, result: Result<(), FailureView>) -> (
    SweepView,
    CallView,
) {
    sweep_waits(s, SweepStageView::Ended(result), CallView::Finish(result))
}

/// How a sweep follows the reconciliation of one service: it makes its calls; when it is over,
/// its result is noted.
pub open spec fn sweep_follows(
    s: SweepView,
    namespace: Seq<char>,
    name: Seq<char>,
    step: (ReconciliationView, CallView),
    rest: Seq<ServiceView>,
    addresses: Seq<Seq<char>>,
) -> (SweepView, CallView) {
    match step.1 {
        CallView::Finish(result) => sweep_waits(
            s,
            SweepStageView::Reporting { rest, addresses },
            CallView::Report { namespace, name, result },
        ),
        call => sweep_waits(
            s,
            SweepStageView::Reconciling { namespace, name, current: step.0, rest, addresses },
            call,
        ),
    }
}

/// How a sweep takes up the next service, or ends well where there is none.
pub open spec fn sweep_begins(
    s: SweepView,
    services: Seq<ServiceView>,
    addresses: Seq<Seq<char>>,
) -> (SweepView, CallView) {
    if services.len() == 0 {
        sweep_ends(s, Ok(()))
    } else {
        let service = services[0];
        sweep_follows(
            s,
            service.namespace_or("unknown"@),
            service.name,
            reconcile_start(service, s.cluster_name, addresses),
            services.drop_first(),
            addresses,
        )
    }
}

/// Accepts the services that are to be offered by a load balancer.
pub open spec fn wanting() -> spec_fn(ServiceView) -> bool {
    |s: ServiceView| s.wants_load_balancer()
}

/// How a sweep goes on after an answer.
pub open spec fn sweep_next(s: SweepView, answer: AnswerView) -> (SweepView, CallView) {
    match s.stage {
        SweepStageView::Ready => if s.has_provider {
            sweep_waits(s, SweepStageView::ListingServices, CallView::ListServices)
        } else {
            sweep_ends(s, Ok(()))
        },
        SweepStageView::ListingServices => match answer {
            AnswerView::Services(services) => sweep_waits(
                s,
                SweepStageView::ListingNodes { services },
                CallView::ListNodes,
            ),
            _ => sweep_ends(s, Err(call_failure("Failed to list services"@, answer))),
        },
        SweepStageView::ListingNodes { services } => match answer {
            AnswerView::Nodes(nodes) => sweep_begins(
                s,
                services.filter(wanting()),
                internal_addresses(nodes, nodes.len()),
            ),
            _ => sweep_ends(s, Err(call_failure("Failed to list nodes"@, answer))),
        },
        SweepStageView::Reconciling { namespace, name, current, rest, addresses } => {
            sweep_follows(s, namespace, name, reconcile_next(current, answer), rest, addresses)
        },
        SweepStageView::Reporting { rest, addresses } => sweep_begins(s, rest, addresses),
        SweepStageView::Ended(result) => sweep_ends(s, result),
    }
}

/// Keeps the services that are to be offered by a load balancer, in their order.
fn load_balancer_services(services: Vec<Service>) -> (wanted: Vec<Service>)
    ensures
        service_views(wanted@) == service_views(services@).filter(wanting()),
{
    let mut left: Vec<Service> = services;
    let mut wanted: Vec<Service> = Vec::new();
    let ghost all = service_views(left@);
    let ghost pred = wanting();
    let ghost mut done: int = 0;
    proof {
        reveal(Seq::filter);
        assert(all.take(0).filter(pred) =~= Seq::<ServiceView>::empty());
        assert(service_views(wanted@) =~= Seq::<ServiceView>::empty());
        assert(all.skip(0) =~= all);
    }
    while left.len() > 0
        invariant
            0 <= done <= all.len(),
            pred == wanting(),
            service_views(left@) == all.skip(done),
            service_views(wanted@) == all.take(done).filter(pred),
        decreases left.len(),
    {
        let ghost before = left@;
        let ghost kept = wanted@;
        let service = left.remove(0);
        assert(service@ == service_views(before)[0]);
        assert(service_views(left@) =~= service_views(before).skip(1));
        assert(all.skip(done).skip(1) =~= all.skip(done + 1));
        let ghost view = service@;
        assert(view == all[done]);
        if service.wants_load_balancer() {
            wanted.push(service);
            assert(service_views(wanted@) =~= service_views(kept).push(view));
        }
        proof {
            reveal(Seq::filter);
            assert(all.take(done + 1).drop_last() =~= all.take(done));
            assert(all.take(done + 1).last() == view);
            done = done + 1;
        }
    }
    assert(service_views(left@).len() == 0);
    assert(all.take(done) =~= all);
    wanted
}

impl<S, P> LoadBalancerController<S, P> {
    /// Brings all load balancers in line.
    pub fn reconcile_all(&self) -> (sweep: Sweep)
        ensures
            sweep@ == (SweepView {
                has_provider: self.cloud_provider is Some,
                cluster_name: self.cluster_name@,
                stage: SweepStageView::Ready,
            }),
    {
        Sweep {
            has_provider: self.cloud_provider.is_some(),
            cluster_name: self.cluster_name.clone(),
            stage: SweepStage::Ready,
        }
    }
}

impl Sweep {
    fn end(&mut self, result: Result<(), Failure>) -> (call: Call)
        ensures
            (final(self)@, call@) == sweep_ends(old(self)@, result_view(result)),
    {
        let copy = copy_result(&result);
        self.stage = SweepStage::Ended(result);
        Call::Finish(copy)
    }

    fn fail(&mut self, context: &str, answer: Answer) -> (call: Call)
        ensures
            (final(self)@, call@) == sweep_ends(
                old(self)@,
                Err(call_failure(context@, answer@)),
            ),
    {
        let failure = failed_call(context, answer);
        self.end(Err(failure))
    }

    fn follow(
        &mut self,
        namespace: String,
        name: String,
        current: Reconciliation,
        call: Call,
        rest: Vec<Service>,
        addresses: Vec<String>,
    ) -> (next: Call)
        ensures
            (final(self)@, next@) == sweep_follows(
                old(self)@,
                namespace@,
                name@,
                (current@, call@),
                service_views(rest@),
                texts(addresses@),
            ),
    {
        match call {
            Call::Finish(result) => {
                self.stage = SweepStage::Reporting { rest, addresses };
                Call::Report { namespace, name, result }
            },
            call => {
                self.stage = SweepStage::Reconciling {
                    namespace,
                    name,
                    current,
                    rest,
                    addresses,
                };
                call
            },
        }
    }

    fn begin(&mut self, services: Vec<Service>, addresses: Vec<String>) -> (call: Call)
        ensures
            (final(self)@, call@) == sweep_begins(
                old(self)@,
                service_views(services@),
                texts(addresses@),
            ),
    {
        if services.len() == 0 {
            return self.end(Ok(()));
        }
        let mut rest: Vec<Service> = services;
        let ghost before = rest@;
        let service = rest.remove(0);
        assert(service_views(rest@) =~= service_views(before).drop_first());
        assert(service@ == service_views(before)[0]);
        let namespace = service.namespace_or("unknown").to_string();
        let name = service.metadata.name.clone();
        let mut current = Reconciliation::new(
            service,
            self.cluster_name.clone(),
            copy_words(&addresses),
        );
        let call = current.start();
        self.follow(namespace, name, current, call, rest, addresses)
    }

    /// Starts the sweep and says which call to make first.
    pub fn start(&mut self) -> (call: Call)
        ensures
            (final(self)@, call@) == sweep_next(old(self)@, AnswerView::Done),
    {
        self.react(Answer::Done)
    }

    /// Takes what came of the last call and says which one to make next.
    pub fn react(&mut self, answer: Answer) -> (call: Call)
        ensures
            (final(self)@, call@) == sweep_next(old(self)@, answer@),
    {
        let mut stage = SweepStage::Ready;
        std::mem::swap(&mut stage, &mut self.stage);
        match stage {
            SweepStage::Ready => if self.has_provider {
                self.stage = SweepStage::ListingServices;
                Call::ListServices
            } else {
                self.end(Ok(()))
            },
            SweepStage::ListingServices => match answer {
                Answer::Services(services) => {
                    self.stage = SweepStage::ListingNodes { services };
                    Call::ListNodes
                },
                answer => self.fail("Failed to list services", answer),
            },
            SweepStage::ListingNodes { services } => match answer {
                Answer::Nodes(nodes) => self.begin(
                    load_balancer_services(services),
                    node_addresses(nodes.as_slice()),
                ),
                answer => self.fail("Failed to list nodes", answer),
            },
            SweepStage::Reconciling { namespace, name, current, rest, addresses } => {
                let mut current = current;
                let call = current.react(answer);
                self.follow(namespace, name, current, call, rest, addresses)
            },
            SweepStage::Reporting { rest, addresses } => self.begin(rest, addresses),
            SweepStage::Ended(result) => self.end(result),
        }
    }
}

// ---------------------------------------------------------------------------
// Removing a load balancer
// ---------------------------------------------------------------------------

impl<S, P> LoadBalancerController<S, P> {
    /// The call that removes the load balancer of a service, if there is a provider to make it
    /// to.
    pub fn cleanup_service(&self, namespace: &str, name: &str) -> (call: Option<Call>)
        ensures
            match call {
                Some(c) => self.cloud_provider is Some && c@ == (CallView::Delete {
                    namespace: namespace@,
                    name: name@,
                }),
                None => self.cloud_provider is None,
            },
    {
        if self.cloud_provider.is_some() {
            Some(Call::Delete { namespace: namespace.to_string(), name: name.to_string() })
        } else {
            None
        }
    }
}

/// What removing a load balancer comes to.
pub open spec fn cleanup_outcome(answer: AnswerView) -> Result<(), FailureView> {
    match answer {
        AnswerView::Done => Ok(()),
        _ => Err(call_failure("Failed to delete load balancer"@, answer)),
    }
}

/// Says what removing a load balancer comes to.
pub fn cleanup_result(answer: Answer) -> (result: Result<(), Failure>)
    ensures
        result_view(result) == cleanup_outcome(answer@),
{
    match answer {
        Answer::Done => Ok(()),
        answer => Err(failed_call("Failed to delete load balancer", answer)),
    }
}

} // verus!
