//! Bringing the load balancer of one service in line with the service.
//!
//! A [`Reconciliation`] says which call to make next, and takes what came of it. The calls go to
//! the store of the cluster and to the cloud provider.

use crate::cloud::{
    balancer_request, build_request, cloud_views, node_views, update_service_status, with_ingress,
    BalancerView, CloudIngress, CloudIngressView, LoadBalancerService, Node,
};
use crate::failure::{copy_result, result_view, Failure, FailureView};
use crate::node_port::{
    all_have_node_ports, allocate_node_ports, allocation, exhausted, get_allocated_node_ports,
    has_node_ports, law_allocation, taken_ports, NODE_PORT_MAX, NODE_PORT_MIN,
};
use crate::service::{service_views, Service, ServiceView};
use crate::text::texts;
use vstd::prelude::*;

verus! {

/// What becomes of a key of the work queue, besides being done with.
pub enum Verdict {
    /// Nothing: it names no service.
    Drop,
    /// Its failures are forgotten.
    Forget,
    /// It comes back later, because of this failure.
    Retry(Failure),
}

/// A call to make.
pub enum Call {
    /// List all services.
    ListServices,
    /// List all nodes.
    ListNodes,
    /// Read a service.
    Get { namespace: String, name: String },
    /// Store a service.
    Update { namespace: String, name: String, service: Service },
    /// Have the provider set up a load balancer.
    Ensure(LoadBalancerService),
    /// Have the provider remove a load balancer.
    Delete { namespace: String, name: String },
    /// Take note of what came of one service.
    Report { namespace: String, name: String, result: Result<(), Failure> },
    /// None: the operation is over.
    Finish(Result<(), Failure>),
    /// None: the key is dealt with.
    Conclude(Verdict),
}

/// What came of a call.
pub enum Answer {
    /// It failed.
    Failed { cause: String },
    /// It gave these services.
    Services(Vec<Service>),
    /// It gave these nodes.
    Nodes(Vec<Node>),
    /// It gave this service.
    Service(Service),
    /// It gave the points at which the load balancer takes traffic.
    Balancer(Vec<CloudIngress>),
    /// It succeeded and gave nothing.
    Done,
}

// ---------------------------------------------------------------------------
// Content
// ---------------------------------------------------------------------------

/// The content of a [`Verdict`].
pub enum VerdictView {
    Drop,
    Forget,
    Retry(FailureView),
}

/// The content of a [`Call`].
pub enum CallView {
    ListServices,
    ListNodes,
    Get { namespace: Seq<char>, name: Seq<char> },
    Update { namespace: Seq<char>, name: Seq<char>, service: ServiceView },
    Ensure(BalancerView),
    Delete { namespace: Seq<char>, name: Seq<char> },
    Report { namespace: Seq<char>, name: Seq<char>, result: Result<(), FailureView> },
    Finish(Result<(), FailureView>),
    Conclude(VerdictView),
}

/// The content of an [`Answer`].
pub enum AnswerView {
    Failed { cause: Seq<char> },
    Services(Seq<ServiceView>),
    Nodes(Seq<Seq<(Seq<char>, Seq<char>)>>),
    Service(ServiceView),
    Balancer(Seq<CloudIngressView>),
    Done,
}

impl View for Verdict {
    type V = VerdictView;

    open spec fn view(&self) -> VerdictView {
        match self {
            Verdict::Drop => VerdictView::Drop,
            Verdict::Forget => VerdictView::Forget,
            Verdict::Retry(failure) => VerdictView::Retry(failure@),
        }
    }
}

impl View for Call {
    type V = CallView;

    open spec fn view(&self) -> CallView {
        match self {
            Call::ListServices => CallView::ListServices,
            Call::ListNodes => CallView::ListNodes,
            Call::Get { namespace, name } => CallView::Get { namespace: namespace@, name: name@ },
            Call::Update { namespace, name, service } => CallView::Update {
                namespace: namespace@,
                name: name@,
                service: service@,
            },
            Call::Ensure(request) => CallView::Ensure(request@),
            Call::Delete { namespace, name } => CallView::Delete {
                namespace: namespace@,
                name: name@,
            },
            Call::Report { namespace, name, result } => CallView::Report {
                namespace: namespace@,
                name: name@,
                result: result_view(*result),
            },
            Call::Finish(result) => CallView::Finish(result_view(*result)),
            Call::Conclude(verdict) => CallView::Conclude(verdict@),
        }
    }
}

impl View for Answer {
    type V = AnswerView;

    open spec fn view(&self) -> AnswerView {
        match self {
            Answer::Failed { cause } => AnswerView::Failed { cause: cause@ },
            Answer::Services(services) => AnswerView::Services(service_views(services@)),
            Answer::Nodes(nodes) => AnswerView::Nodes(node_views(nodes@)),
            Answer::Service(service) => AnswerView::Service(service@),
            Answer::Balancer(ingress) => AnswerView::Balancer(cloud_views(ingress@)),
            Answer::Done => AnswerView::Done,
        }
    }
}

/// The error that a call led to: its failure, or an answer that is none to it.
pub open spec fn call_failure(context: Seq<char>, answer: AnswerView) -> FailureView {
    FailureView {
        context,
        cause: Some(
            match answer {
                AnswerView::Failed { cause } => cause,
                _ => "unexpected answer"@,
            },
        ),
    }
}

/// The error that a call led to.
pub fn failed_call(context: &str, answer: Answer) -> (failure: Failure)
    ensures
        failure@ == call_failure(context@, answer@),
{
    Failure {
        context: context.to_string(),
        cause: Some(
            match answer {
                Answer::Failed { cause } => cause,
                _ => "unexpected answer".to_string(),
            },
        ),
    }
}

// ---------------------------------------------------------------------------
// Reconciliation
// ---------------------------------------------------------------------------

enum Stage {
    Ready { service: Service, cluster_name: String, addresses: Vec<String> },
    Allocating { namespace: String, service: Service, cluster_name: String, addresses: Vec<String> },
    StoringPorts { namespace: String, name: String, request: LoadBalancerService },
    Ensuring { namespace: String, name: String },
    Reading { namespace: String, name: String, ingress: Vec<CloudIngress> },
    StoringStatus,
    Ended(Result<(), Failure>),
}

/// The load balancer of one service being brought in line.
pub struct Reconciliation {
    stage: Stage,
}

/// What a [`Reconciliation`] waits for.
pub enum ReconciliationView {
    /// To be started.
    Ready { service: ServiceView, cluster_name: Seq<char>, addresses: Seq<Seq<char>> },
    /// All services, so that node ports can be given out.
    Allocating {
        namespace: Seq<char>,
        service: ServiceView,
        cluster_name: Seq<char>,
        addresses: Seq<Seq<char>>,
    },
    /// The node ports to be stored.
    StoringPorts { namespace: Seq<char>, name: Seq<char>, request: BalancerView },
    /// The load balancer to be set up.
    Ensuring { namespace: Seq<char>, name: Seq<char> },
    /// The service as it is now.
    Reading { namespace: Seq<char>, name: Seq<char>, ingress: Seq<CloudIngressView> },
    /// The status to be stored.
    StoringStatus,
    /// Nothing more.
    Ended(Result<(), FailureView>),
}

impl View for Stage {
    type V = ReconciliationView;

    closed spec fn view(&self) -> ReconciliationView {
        match self {
            Stage::Ready { service, cluster_name, addresses } => ReconciliationView::Ready {
                service: service@,
                cluster_name: cluster_name@,
                addresses: texts(addresses@),
            },
            Stage::Allocating { namespace, service, cluster_name, addresses } => {
                ReconciliationView::Allocating {
                    namespace: namespace@,
                    service: service@,
                    cluster_name: cluster_name@,
                    addresses: texts(addresses@),
                }
            },
            Stage::StoringPorts { namespace, name, request } => ReconciliationView::StoringPorts {
                namespace: namespace@,
                name: name@,
                request: request@,
            },
            Stage::Ensuring { namespace, name } => ReconciliationView::Ensuring {
                namespace: namespace@,
                name: name@,
            },
            Stage::Reading { namespace, name, ingress } => ReconciliationView::Reading {
                namespace: namespace@,
                name: name@,
                ingress: cloud_views(ingress@),
            },
            Stage::StoringStatus => ReconciliationView::StoringStatus,
            Stage::Ended(result) => ReconciliationView::Ended(result_view(*result)),
        }
    }
}

impl View for Reconciliation {
    type V = ReconciliationView;

    closed spec fn view(&self) -> ReconciliationView {
        self.stage@
    }
}

/// A reconciliation that has come to its end.
pub open spec fn settled(result: Result<(), FailureView>) -> (ReconciliationView, CallView) {
    (ReconciliationView::Ended(result), CallView::Finish(result))
}

/// How a reconciliation begins: where every port has a node port, with the load balancer; else
/// with the node ports.
pub open spec fn reconcile_start(
    service: ServiceView,
    cluster_name: Seq<char>,
    addresses: Seq<Seq<char>>,
) -> (ReconciliationView, CallView) {
    match service.namespace {
        Some(namespace) => if has_node_ports(service.ports) {
            (
                ReconciliationView::Ensuring { namespace, name: service.name },
                CallView::Ensure(balancer_request(service, namespace, cluster_name, addresses)),
            )
        } else {
            (
                ReconciliationView::Allocating { namespace, service, cluster_name, addresses },
                CallView::ListServices,
            )
        },
        None => settled(
            Err(FailureView { context: "Service has no namespace"@, cause: None }),
        ),
    }
}

/// How a reconciliation goes on after an answer.
pub open spec fn reconcile_next(s: ReconciliationView, answer: AnswerView) -> (
    ReconciliationView,
    CallView,
) {
    match s {
        ReconciliationView::Ready { service, cluster_name, addresses } => reconcile_start(
            service,
            cluster_name,
            addresses,
        ),
        ReconciliationView::Allocating { namespace, service, cluster_name, addresses } => {
            match answer {
                AnswerView::Services(services) => match allocation(
                    service.ports,
                    taken_ports(services),
                ) {
                    Some(ports) => {
                        let updated = ServiceView { ports, ..service };
                        (
                            ReconciliationView::StoringPorts {
                                namespace,
                                name: service.name,
                                request: balancer_request(
                                    updated,
                                    namespace,
                                    cluster_name,
                                    addresses,
                                ),
                            },
                            CallView::Update { namespace, name: service.name, service: updated },
                        )
                    },
                    None => settled(Err(exhausted(NODE_PORT_MIN, NODE_PORT_MAX))),
                },
                _ => settled(Err(call_failure("Failed to list services"@, answer))),
            }
        },
        ReconciliationView::StoringPorts { namespace, name, request } => match answer {
            AnswerView::Done => (
                ReconciliationView::Ensuring { namespace, name },
                CallView::Ensure(request),
            ),
            _ => settled(Err(call_failure("Failed to update service with NodePorts"@, answer))),
        },
        ReconciliationView::Ensuring { namespace, name } => match answer {
            AnswerView::Balancer(ingress) => (
                ReconciliationView::Reading { namespace, name, ingress },
                CallView::Get { namespace, name },
            ),
            _ => settled(Err(call_failure("Failed to ensure load balancer"@, answer))),
        },
        ReconciliationView::Reading { namespace, name, ingress } => match answer {
            AnswerView::Service(service) => (
                ReconciliationView::StoringStatus,
                CallView::Update { namespace, name, service: with_ingress(service, ingress) },
            ),
            _ => settled(Err(call_failure("Failed to get service"@, answer))),
        },
        ReconciliationView::StoringStatus => match answer {
            AnswerView::Done => settled(Ok(())),
            _ => settled(Err(call_failure("Failed to update service status"@, answer))),
        },
        ReconciliationView::Ended(result) => settled(result),
    }
}

impl Reconciliation {
    /// A reconciliation of the service, to be started.
    pub fn new(service: Service, cluster_name: String, addresses: Vec<String>) -> (r: Self)
        ensures
            r@ == (ReconciliationView::Ready {
                service: service@,
                cluster_name: cluster_name@,
                addresses: texts(addresses@),
            }),
    {
        Reconciliation { stage: Stage::Ready { service, cluster_name, addresses } }
    }

    fn end(&mut self, result: Result<(), Failure>) -> (call: Call)
        ensures
            (final(self)@, call@) == settled(result_view(result)),
    {
        let copy = copy_result(&result);
        self.stage = Stage::Ended(result);
        Call::Finish(copy)
    }

    fn fail(&mut self, context: &str, answer: Answer) -> (call: Call)
        ensures
            (final(self)@, call@) == settled(Err(call_failure(context@, answer@))),
    {
        let failure = failed_call(context, answer);
        self.end(Err(failure))
    }

    fn begin(&mut self, service: Service, cluster_name: String, addresses: Vec<String>) -> (call:
        Call)
        ensures
            (final(self)@, call@) == reconcile_start(
                service@,
                cluster_name@,
                texts(addresses@),
            ),
    {
        let namespace = match &service.metadata.namespace {
            Some(n) => n.clone(),
            None => {
                return self.end(
                    Err(Failure { context: "Service has no namespace".to_string(), cause: None }),
                );
            },
        };
        if all_have_node_ports(&service.spec.ports) {
            let request = build_request(
                &service,
                namespace.as_str(),
                cluster_name.as_str(),
                &addresses,
            );
            self.stage = Stage::Ensuring { namespace, name: service.metadata.name };
            Call::Ensure(request)
        } else {
            self.stage = Stage::Allocating { namespace, service, cluster_name, addresses };
            Call::ListServices
        }
    }

    fn allocate(
        &mut self,
        namespace: String,
        service: Service,
        cluster_name: String,
        addresses: Vec<String>,
        services: Vec<Service>,
    ) -> (call: Call)
        ensures
            (final(self)@, call@) == reconcile_next(
                ReconciliationView::Allocating {
                    namespace: namespace@,
                    service: service@,
                    cluster_name: cluster_name@,
                    addresses: texts(addresses@),
                },
                AnswerView::Services(service_views(services@)),
            ),
    {
        let allocated = get_allocated_node_ports(services.as_slice());
        proof {
            law_allocation(service@.ports, service_views(services@));
        }
        match allocate_node_ports(service, &allocated) {
            Ok(updated) => {
                let request = build_request(
                    &updated,
                    namespace.as_str(),
                    cluster_name.as_str(),
                    &addresses,
                );
                let name = updated.metadata.name.clone();
                self.stage = Stage::StoringPorts {
                    namespace: namespace.clone(),
                    name: name.clone(),
                    request,
                };
                Call::Update { namespace, name, service: updated }
            },
            Err(failure) => self.end(Err(failure)),
        }
    }

    /// Starts the reconciliation and says which call to make first.
    pub fn start(&mut self) -> (call: Call)
        ensures
            (final(self)@, call@) == reconcile_next(old(self)@, AnswerView::Done),
    {
        self.react(Answer::Done)
    }

    /// Takes what came of the last call and says which one to make next.
    pub fn react(&mut self, answer: Answer) -> (call: Call)
        ensures
            (final(self)@, call@) == reconcile_next(old(self)@, answer@),
    {
        let mut stage = Stage::StoringStatus;
        std::mem::swap(&mut stage, &mut self.stage);
        match stage {
            Stage::Ready { service, cluster_name, addresses } => self.begin(
                service,
                cluster_name,
                addresses,
            ),
            Stage::Allocating { namespace, service, cluster_name, addresses } => match answer {
                Answer::Services(services) => self.allocate(
                    namespace,
                    service,
                    cluster_name,
                    addresses,
                    services,
                ),
                answer => self.fail("Failed to list services", answer),
            },
            Stage::StoringPorts { namespace, name, request } => match answer {
                Answer::Done => {
                    self.stage = Stage::Ensuring { namespace, name };
                    Call::Ensure(request)
                },
                answer => self.fail("Failed to update service with NodePorts", answer),
            },
            Stage::Ensuring { namespace, name } => match answer {
                Answer::Balancer(ingress) => {
                    self.stage = Stage::Reading {
                        namespace: namespace.clone(),
                        name: name.clone(),
                        ingress,
                    };
                    Call::Get { namespace, name }
                },
                answer => self.fail("Failed to ensure load balancer", answer),
            },
            Stage::Reading { namespace, name, ingress } => match answer {
                Answer::Service(service) => {
                    self.stage = Stage::StoringStatus;
                    Call::Update {
                        namespace,
                        name,
                        service: update_service_status(service, &ingress),
                    }
                },
                answer => self.fail("Failed to get service", answer),
            },
            Stage::StoringStatus => match answer {
                Answer::Done => self.end(Ok(())),
                answer => self.fail("Failed to update service status", answer),
            },
            Stage::Ended(result) => self.end(result),
        }
    }
}

} // verus!
