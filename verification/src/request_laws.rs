//! What is asked of the provider and of the store for one service, told from the service and
//! from the answers.

use crate::cloud::{
    balancer_port, cloud_views, internal_address, internal_addresses, node_views, with_ingress,
    BalancerView, CloudIngress, Node, NodeAddress, NodeStatus,
};
use crate::controller_laws::law_first_internal_address;
use crate::failure::FailureView;
use crate::node_port::{
    all_taken, allocation, filled, first_free, has_node_ports, lemma_some_free, port_taken,
    taken_ports, uses_port, with_node_port, NODE_PORT_MAX, NODE_PORT_MIN,
};
use crate::reconcile::{reconcile_next, AnswerView, CallView, ReconciliationView};
use crate::service::{port_views, service_views, Service, ServicePort, ServicePortView, ServiceView};
use crate::text::{concat, decimal, lemma_concat_push, option_text};
use vstd::prelude::*;

verus! {

// ---------------------------------------------------------------------------
// Node ports
// ---------------------------------------------------------------------------

/// Whether a port of one of the services has the node port.
pub open spec fn is_held(services: Seq<Service>, p: u16) -> bool {
    exists|s: int, k: int|
        0 <= s < services.len() && 0 <= k < services[s].spec.ports@.len()
            && #[trigger] services[s].spec.ports@[k].node_port == Some(p)
}

/// Whether one of the ports has no node port.
pub open spec fn lacks_one(ports: Seq<ServicePort>) -> bool {
    exists|k: int| 0 <= k < ports.len() && (#[trigger] ports[k]).node_port is None
}

/// The node ports that are taken are those that a port of a service has.
pub proof fn law_taken_ports(services: Seq<Service>, p: u16)
    ensures
        taken_ports(service_views(services)).contains(p) <==> is_held(services, p),
{
    let all = service_views(services);
    if is_held(services, p) {
        let (s, k) = choose|s: int, k: int|
            0 <= s < services.len() && 0 <= k < services[s].spec.ports@.len()
                && #[trigger] services[s].spec.ports@[k].node_port == Some(p);
        assert(all[s].ports[k].node_port == Some(p));
        assert(uses_port(all[s].ports, p));
        assert(port_taken(all, all.len(), p));
    }
    if port_taken(all, all.len(), p) {
        let s = choose|s: int| 0 <= s < all.len() && uses_port((#[trigger] all[s]).ports, p);
        let k = choose|k: int|
            0 <= k < all[s].ports.len() && (#[trigger] all[s].ports[k]).node_port == Some(p);
        assert(services[s].spec.ports@[k].node_port == Some(p));
    }
}

/// The node port that is given out: from 30000 to 32767, held by no service, with all below it
/// in that range held.
pub open spec fn is_spare(services: Seq<Service>, p: u16) -> bool {
    &&& 30000 <= p <= 32767
    &&& !is_held(services, p)
    &&& forall|q: u16| 30000 <= q < p ==> #[trigger] is_held(services, q)
}

/// Whether every node port from 30000 to 32767 is held.
pub open spec fn none_spare(services: Seq<Service>) -> bool {
    forall|q: u16| 30000 <= q <= 32767 ==> #[trigger] is_held(services, q)
}

/// The node port of a port: its own, or the one that is given out.
pub open spec fn node_port_of(port: ServicePort, spare: u16) -> u16 {
    match port.node_port {
        Some(p) => p,
        None => spare,
    }
}

/// Whether the ports are the same but that those without a node port got this one.
pub open spec fn same_but_for_node_ports(
    now: Seq<ServicePortView>,
    ports: Seq<ServicePort>,
    spare: u16,
) -> bool {
    &&& now.len() == ports.len()
    &&& forall|k: int|
        0 <= k < ports.len() ==> (#[trigger] now[k]) == (ServicePortView {
            node_port: Some(node_port_of(ports[k], spare)),
            ..ports[k]@
        })
}

/// Node ports are given out exactly where one is lacking: the lowest that is spare. Where none
/// is spare, nothing is given out.
pub proof fn law_lowest_spare_port(
    ports: Seq<ServicePort>,
    services: Seq<Service>,
    spare: u16,
)
    ensures
        ({
            let result = allocation(port_views(ports), taken_ports(service_views(services)));
            &&& !lacks_one(ports) ==> result == Some(port_views(ports))
            &&& lacks_one(ports) && none_spare(services) ==> result is None
            &&& lacks_one(ports) && is_spare(services, spare) ==> (result matches Some(now)
                && same_but_for_node_ports(now, ports, spare))
            &&& lacks_one(ports) && !none_spare(services) ==> exists|p: u16|
                #[trigger] is_spare(services, p)
        }),
{
    let views = port_views(ports);
    let taken = taken_ports(service_views(services));
    if lacks_one(ports) {
        let k = choose|k: int| 0 <= k < ports.len() && (#[trigger] ports[k]).node_port is None;
        assert(views[k].node_port is None);
        assert(!has_node_ports(views));
    } else {
        assert forall|k: int| 0 <= k < views.len() implies (
        #[trigger] views[k]).node_port is Some by {
            assert(ports[k].node_port is Some);
        }
    }
    assert forall|q: u16| #[trigger] taken.contains(q) == is_held(services, q) by {
        law_taken_ports(services, q);
    }
    if lacks_one(ports) {
        if none_spare(services) {
            assert forall|q: u16| NODE_PORT_MIN <= q <= NODE_PORT_MAX implies
                #[trigger] taken.contains(q) by {
                assert(is_held(services, q));
            }
            assert(all_taken(NODE_PORT_MIN, NODE_PORT_MAX, taken));
        } else {
            let q = choose|q: u16| 30000 <= q <= 32767 && !#[trigger] is_held(services, q);
            assert(!taken.contains(q));
            let p = lemma_some_free(NODE_PORT_MIN, NODE_PORT_MAX, taken);
            assert(!taken.contains(p));
            assert forall|r: u16| 30000 <= r < p implies #[trigger] is_held(services, r) by {
                assert(taken.contains(r));
            }
            assert(is_spare(services, p));
        }
        if is_spare(services, spare) {
            assert(!taken.contains(spare));
            let p = choose|p: u16| first_free(NODE_PORT_MIN, NODE_PORT_MAX, taken, p);
            assert forall|r: u16| NODE_PORT_MIN <= r < spare implies
                #[trigger] taken.contains(r) by {
                assert(is_held(services, r));
            }
            assert(first_free(NODE_PORT_MIN, NODE_PORT_MAX, taken, spare));
            assert(first_free(NODE_PORT_MIN, NODE_PORT_MAX, taken, p));
            if p < spare {
                assert(taken.contains(p));
            }
            if spare < p {
                assert(taken.contains(spare));
            }
            let now = filled(views, spare);
            assert forall|k: int| 0 <= k < ports.len() implies (#[trigger] now[k]) == (
            ServicePortView { node_port: Some(node_port_of(ports[k], spare)), ..ports[k]@ }) by {
                assert(now[k] == with_node_port(ports[k]@, spare));
            }
        }
    }
}

// ---------------------------------------------------------------------------
// The request
// ---------------------------------------------------------------------------

/// Whether the request says what the service says: namespace and name, the cluster, the nodes, the
/// affinity and the annotations; and as many ports as the service has, each with the number, the
/// name and the node port of its port, and with its protocol, or TCP where it has none.
pub open spec fn asks_for(
    request: BalancerView,
    service: Service,
    cluster_name: Seq<char>,
    addresses: Seq<Seq<char>>,
    spare: u16,
) -> bool {
    let ports = service.spec.ports@;
    &&& service.metadata.namespace matches Some(namespace)
    &&& request.namespace == namespace@
    &&& request.name == service.metadata.name@
    &&& request.cluster_name == cluster_name
    &&& request.node_addresses == addresses
    &&& request.session_affinity == match service.spec.session_affinity {
        Some(affinity) => Some(affinity@),
        None => None,
    }
    &&& match service.metadata.annotations {
        Some(annotations) => request.annotations == annotations@,
        None => request.annotations == Map::<Seq<char>, String>::empty(),
    }
    &&& request.ports.len() == ports.len()
    &&& forall|k: int|
        0 <= k < ports.len() ==> {
            let asked = #[trigger] request.ports[k];
            &&& asked.port == ports[k].port
            &&& asked.node_port == node_port_of(ports[k], spare)
            &&& asked.name == match ports[k].name {
                Some(name) => Some(name@),
                None => None,
            }
            &&& asked.protocol == match ports[k].protocol {
                Some(protocol) => protocol@,
                None => "TCP"@,
            }
        }
}

/// Whether the service is the same but that ports without a node port got this one.
pub open spec fn is_filled(stored: ServiceView, service: Service, spare: u16) -> bool {
    &&& stored == (ServiceView { ports: stored.ports, ..service@ })
    &&& same_but_for_node_ports(stored.ports, service.spec.ports@, spare)
}

/// Whether the service is the same but for its status: that shows each point at which the
/// provider takes traffic, by address and host name alone, and the conditions as they were.
pub open spec fn is_shown(
    stored: ServiceView,
    service: Service,
    ingress: Seq<CloudIngress>,
) -> bool {
    &&& stored == (ServiceView { status: stored.status, ..service@ })
    &&& stored.status matches Some(status)
    &&& match service.status {
        Some(before) => match before.conditions {
            Some(conditions) => status.conditions == Some(conditions@),
            None => status.conditions is None,
        },
        None => status.conditions is None,
    }
    &&& status.load_balancer matches Some(points)
    &&& points.len() == ingress.len()
    &&& forall|i: int|
        0 <= i < points.len() ==> {
            let point = #[trigger] points[i];
            &&& point.ip == match ingress[i].ip {
                Some(ip) => Some(ip@),
                None => None,
            }
            &&& point.hostname == match ingress[i].hostname {
                Some(hostname) => Some(hostname@),
                None => None,
            }
            &&& point.ip_mode is None
            &&& point.ports is None
        }
}

/// Whether the operation ends with an error in this context, whose cause is that of the answer,
/// or that the answer is none to the call.
pub open spec fn ends_with(call: CallView, context: Seq<char>, answer: AnswerView) -> bool {
    &&& call matches CallView::Finish(result)
    &&& result matches Err(failure)
    &&& failure.context == context
    &&& failure.cause == match answer {
        AnswerView::Failed { cause } => Some(cause),
        _ => Some("unexpected answer"@),
    }
}

/// A reconciliation of the service, to be started.
pub open spec fn prepared(
    service: Service,
    cluster_name: Seq<char>,
    addresses: Seq<Seq<char>>,
) -> ReconciliationView {
    ReconciliationView::Ready { service: service@, cluster_name, addresses }
}

/// A service without a namespace is not reconciled. For one whose ports all have node ports, the
/// first call asks the provider for what the service says. For any other, the services are listed.
pub proof fn law_first_call(
    service: Service,
    cluster_name: Seq<char>,
    addresses: Seq<Seq<char>>,
    answer: AnswerView,
    spare: u16,
)
    ensures
        ({
            let call = reconcile_next(prepared(service, cluster_name, addresses), answer).1;
            if service.metadata.namespace is None {
                call == CallView::Finish(
                    Err(FailureView { context: "Service has no namespace"@, cause: None }),
                )
            } else if lacks_one(service.spec.ports@) {
                call == CallView::ListServices
            } else {
                call matches CallView::Ensure(request) && asks_for(
                    request,
                    service,
                    cluster_name,
                    addresses,
                    spare,
                )
            }
        }),
{
    let ports = service.spec.ports@;
    let views = service@.ports;
    if lacks_one(ports) {
        let k = choose|k: int| 0 <= k < ports.len() && (#[trigger] ports[k]).node_port is None;
        assert(views[k].node_port is None);
    } else {
        assert forall|k: int| 0 <= k < views.len() implies (
        #[trigger] views[k]).node_port is Some by {
            assert(ports[k].node_port is Some);
        }
    }
}

/// Where node ports are lacking, the service is stored with the lowest one that is spare, under
/// its namespace and name; and once that is done, the provider is asked for what was stored. Where
/// none is spare, or a call fails, the reconciliation ends with an error that says so.
pub proof fn law_lacking_node_ports(
    service: Service,
    cluster_name: Seq<char>,
    addresses: Seq<Seq<char>>,
    services: Seq<Service>,
    a0: AnswerView,
    a1: AnswerView,
    a2: AnswerView,
    spare: u16,
)
    requires
        service.metadata.namespace is Some,
        lacks_one(service.spec.ports@),
    ensures
        ({
            let (s1, c0) = reconcile_next(prepared(service, cluster_name, addresses), a0);
            let (s2, c1) = reconcile_next(s1, a1);
            let (s3, c2) = reconcile_next(s2, a2);
            let listed = a1 == AnswerView::Services(service_views(services));
            &&& a1 !is Services ==> ends_with(c1, "Failed to list services"@, a1)
            &&& listed && none_spare(services) ==> c1 == CallView::Finish(
                Err(
                    FailureView {
                        context: "No available NodePorts in range "@ + decimal(30000) + "-"@
                            + decimal(32767) + ". All "@ + decimal(2768)
                            + " ports are allocated."@,
                        cause: None,
                    },
                ),
            )
            &&& listed && is_spare(services, spare) ==> {
                &&& c1 matches CallView::Update { namespace, name, service: stored }
                &&& namespace == service.metadata.namespace->0@
                &&& name == service.metadata.name@
                &&& is_filled(stored, service, spare)
                &&& if a2 is Done {
                    c2 matches CallView::Ensure(request) && asks_for(
                        request,
                        service,
                        cluster_name,
                        addresses,
                        spare,
                    )
                } else {
                    ends_with(c2, "Failed to update service with NodePorts"@, a2)
                }
            }
        }),
{
    law_first_call(service, cluster_name, addresses, a0, spare);
    law_lowest_spare_port(service.spec.ports@, services, spare);
    let ports = service.spec.ports@;
    if a1 == AnswerView::Services(service_views(services)) && is_spare(services, spare) {
        let now = allocation(port_views(ports), taken_ports(service_views(services)))->0;
        assert(service@.ports == port_views(ports));
        assert forall|k: int| 0 <= k < ports.len() implies balancer_port(#[trigger] now[k]).port
            == ports[k].port by {
            assert(now[k].port == ports[k]@.port);
        }
    }
}

/// After the provider was asked, the service is read again, under its namespace and name, and
/// stored with the points at which the provider takes traffic; then the reconciliation ends well.
/// A call that fails ends it with an error that says which.
pub proof fn law_after_the_request(
    service: Service,
    cluster_name: Seq<char>,
    addresses: Seq<Seq<char>>,
    services: Seq<Service>,
    spare: u16,
    ingress: Seq<CloudIngress>,
    now: Service,
    a0: AnswerView,
    a3: AnswerView,
    a4: AnswerView,
    a5: AnswerView,
)
    requires
        service.metadata.namespace is Some,
        lacks_one(service.spec.ports@) ==> is_spare(services, spare),
    ensures
        ({
            let s1 = reconcile_next(prepared(service, cluster_name, addresses), a0).0;
            let asked = if lacks_one(service.spec.ports@) {
                reconcile_next(
                    reconcile_next(s1, AnswerView::Services(service_views(services))).0,
                    AnswerView::Done,
                ).0
            } else {
                s1
            };
            let (s4, c3) = reconcile_next(asked, a3);
            let (s5, c4) = reconcile_next(s4, a4);
            let (s6, c5) = reconcile_next(s5, a5);
            let namespace = service.metadata.namespace->0@;
            let name = service.metadata.name@;
            &&& a3 !is Balancer ==> ends_with(c3, "Failed to ensure load balancer"@, a3)
            &&& a3 == AnswerView::Balancer(cloud_views(ingress)) ==> {
                &&& c3 == CallView::Get { namespace, name }
                &&& a4 !is Service ==> ends_with(c4, "Failed to get service"@, a4)
                &&& a4 == AnswerView::Service(now@) ==> {
                    &&& c4 matches CallView::Update { namespace: n, name: m, service: stored }
                    &&& n == namespace
                    &&& m == name
                    &&& is_shown(stored, now, ingress)
                    &&& if a5 is Done {
                        c5 matches CallView::Finish(result) && result is Ok
                    } else {
                        ends_with(c5, "Failed to update service status"@, a5)
                    }
                }
            }
        }),
{
    law_first_call(service, cluster_name, addresses, a0, spare);
    law_lowest_spare_port(service.spec.ports@, services, spare);
    let s1 = reconcile_next(prepared(service, cluster_name, addresses), a0).0;
    assert(service@.ports == port_views(service.spec.ports@));
    law_shown(now, ingress);
}

/// Storing what the provider answered changes nothing but the status.
pub proof fn law_shown(service: Service, ingress: Seq<CloudIngress>)
    ensures
        is_shown(with_ingress(service@, cloud_views(ingress)), service, ingress),
{
    let stored = with_ingress(service@, cloud_views(ingress));
    let points = stored.status->0.load_balancer->0;
    assert forall|i: int| 0 <= i < points.len() implies (#[trigger] points[i]).ip == option_text(
        ingress[i].ip,
    ) && points[i].hostname == option_text(ingress[i].hostname) by {
        assert(cloud_views(ingress)[i] == ingress[i]@);
    }
}

// ---------------------------------------------------------------------------
// Addresses of nodes
// ---------------------------------------------------------------------------

/// The addresses of a node.
pub open spec fn addresses_of(node: Node) -> Seq<NodeAddress> {
    match node.status {
        Some(NodeStatus { addresses: Some(addresses) }) => addresses@,
        _ => Seq::empty(),
    }
}

/// Whether address `k` is the first internal one of a node.
pub open spec fn is_first_internal(node: Node, k: int) -> bool {
    &&& 0 <= k < addresses_of(node).len()
    &&& addresses_of(node)[k].address_type@ == "InternalIP"@
    &&& forall|j: int|
        0 <= j < k ==> (#[trigger] addresses_of(node)[j]).address_type@ != "InternalIP"@
}

/// Of one node more, its first internal address is taken behind those of the others; of a node
/// without one, nothing is taken.
pub proof fn law_node_addresses(nodes: Seq<Node>, node: Node, k: int)
    ensures
        ({
            let found = |list: Seq<Node>| internal_addresses(node_views(list), list.len());
            &&& found(Seq::empty()).len() == 0
            &&& is_first_internal(node, k) ==> found(nodes.push(node)) == found(nodes).push(
                addresses_of(node)[k].address@,
            )
            &&& (forall|j: int| !#[trigger] is_first_internal(node, j)) ==> found(
                nodes.push(node),
            ) == found(nodes)
        }),
{
    let n = nodes.len();
    let old_views = node_views(nodes);
    let new_views = node_views(nodes.push(node));
    let f = |k: int| internal_address(old_views[k], 0);
    let g = |k: int| internal_address(new_views[k], 0);
    assert(new_views[n as int] == node@);
    assert forall|i: int| 0 <= i < n implies old_views[i] == #[trigger] new_views[i] by {}
    assert(Seq::new(n, f) =~= Seq::new(n, g));
    assert(Seq::new((n + 1) as nat, g) =~= Seq::new(n, g).push(g(n as int)));
    lemma_concat_push(Seq::new(n, g), g(n as int));
    let none = node_views(Seq::empty());
    assert(concat(Seq::new(0, |k: int| internal_address(none[k], 0))).len() == 0);
    law_first_internal_address(node@, 0);
    let own = addresses_of(node);
    assert(node@.len() == own.len());
    assert forall|i: int| 0 <= i < own.len() implies #[trigger] node@[i] == own[i]@ by {}
    let one = internal_address(node@, 0);
    if is_first_internal(node, k) {
        assert(node@[k].0 == "InternalIP"@);
        let i = choose|i: int|
            {
                &&& 0 <= i < node@.len()
                &&& (#[trigger] node@[i]).0 == "InternalIP"@
                &&& one == seq![node@[i].1]
                &&& forall|j: int| 0 <= j < i ==> (#[trigger] node@[j]).0 != "InternalIP"@
            };
        if i < k {
            assert(own[i].address_type@ == node@[i].0);
        }
        if k < i {
            assert(node@[k].0 != "InternalIP"@);
        }
        assert(one =~= seq![own[k].address@]);
    }
    if forall|j: int| !#[trigger] is_first_internal(node, j) {
        if one.len() > 0 {
            let i = choose|i: int|
                {
                    &&& 0 <= i < node@.len()
                    &&& (#[trigger] node@[i]).0 == "InternalIP"@
                    &&& one == seq![node@[i].1]
                    &&& forall|j: int| 0 <= j < i ==> (#[trigger] node@[j]).0 != "InternalIP"@
                };
            assert forall|j: int| 0 <= j < i implies (
            #[trigger] own[j]).address_type@ != "InternalIP"@ by {
                assert(node@[j].0 == own[j].address_type@);
            }
            assert(is_first_internal(node, i));
        }
        assert(one =~= Seq::empty());
    }
}

} // verus!
