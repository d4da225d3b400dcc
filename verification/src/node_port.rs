//! Node ports: which are taken, and which one comes next.

use crate::failure::{Failure, FailureView};
use crate::request_laws::{is_held, law_taken_ports};
use crate::service::{
    port_views, service_views, Service, ServicePort, ServicePortView, ServiceSpec, ServiceView,
};
use crate::text::{decimal, decimal_text};
use std::collections::HashSet;
use vstd::prelude::*;

verus! {

/// The lowest node port that is given out.
pub const NODE_PORT_MIN: u16 = 30000;

/// The highest node port that is given out.
pub const NODE_PORT_MAX: u16 = 32767;

/// Whether a list of ports holds the node port.
pub open spec fn uses_port(ports: Seq<ServicePortView>, p: u16) -> bool {
    exists|k: int| 0 <= k < ports.len() && (#[trigger] ports[k]).node_port == Some(p)
}

/// Whether one of the first `n` services holds the node port.
pub open spec fn port_taken(services: Seq<ServiceView>, n: nat, p: u16) -> bool {
    exists|s: int| 0 <= s < n && uses_port((#[trigger] services[s]).ports, p)
}

/// The node ports that the services hold.
pub open spec fn taken_ports(services: Seq<ServiceView>) -> Set<u16> {
    Set::new(|p: u16| port_taken(services, services.len(), p))
}

/// Whether `p` is the lowest port of the range that is not in the set.
pub open spec fn first_free(min: u16, max: u16, allocated: Set<u16>, p: u16) -> bool {
    &&& min <= p <= max
    &&& !allocated.contains(p)
    &&& forall|q: u16| min <= q < p ==> #[trigger] allocated.contains(q)
}

/// Whether the set holds every port of the range.
pub open spec fn all_taken(min: u16, max: u16, allocated: Set<u16>) -> bool {
    forall|q: u16| min <= q <= max ==> #[trigger] allocated.contains(q)
}

/// The error where every port of the range is taken.
pub open spec fn exhausted(min: u16, max: u16) -> FailureView {
    FailureView {
        context: "No available NodePorts in range "@ + decimal(min as nat) + "-"@ + decimal(
            max as nat,
        ) + ". All "@ + decimal((max - min + 1) as nat) + " ports are allocated."@,
        cause: None,
    }
}

/// What a search for a free port gives.
pub open spec fn search_result(
    min: u16,
    max: u16,
    allocated: Set<u16>,
    found: Result<u16, Failure>,
) -> bool {
    match found {
        Ok(p) => first_free(min, max, allocated, p),
        Err(f) => all_taken(min, max, allocated) && f@ == exhausted(min, max),
    }
}

/// Finds the lowest port of the range that is not in the set. The range must not be empty, and
/// the full range of ports must not be taken as a whole: its size is no port number.
pub fn find_available_port(min: u16, max: u16, allocated: &HashSet<u16>) -> (found: Result<
    u16,
    Failure,
>)
    requires
        min <= max,
        max - min < u16::MAX || !all_taken(min, max, allocated@),
    ensures
        search_result(min, max, allocated@, found),
        match found {
            Ok(p) => {
                &&& min <= p <= max
                &&& !allocated@.contains(p)
                &&& forall|q: u16| min <= q < p ==> #[trigger] allocated@.contains(q)
            },
            Err(failure) => {
                &&& forall|q: u16| min <= q <= max ==> #[trigger] allocated@.contains(q)
                &&& failure.context@ == "No available NodePorts in range "@ + decimal(min as nat)
                    + "-"@ + decimal(max as nat) + ". All "@ + decimal((max - min + 1) as nat)
                    + " ports are allocated."@
                &&& failure.cause is None
            },
        },
{
    broadcast use vstd::std_specs::hash::group_hash_axioms;

    let mut port: u16 = min;
    loop
        invariant
            min <= port <= max,
            forall|q: u16| min <= q < port ==> #[trigger] allocated@.contains(q),
            max - min < u16::MAX || !all_taken(min, max, allocated@),
        ensures
            all_taken(min, max, allocated@),
            max - min < u16::MAX,
        decreases max - port,
    {
        if !allocated.contains(&port) {
            return Ok(port);
        }
        if port == max {
            break;
        }
        port += 1;
    }
    let mut context = "No available NodePorts in range ".to_string();
    context.append(decimal_text(min as u128).as_str());
    context.append("-");
    context.append(decimal_text(max as u128).as_str());
    context.append(". All ");
    context.append(decimal_text((max - min + 1) as u128).as_str());
    context.append(" ports are allocated.");
    Err(Failure { context, cause: None })
}

/// Collects the node ports that the services hold.
pub fn get_allocated_node_ports(services: &[Service]) -> (allocated: HashSet<u16>)
    ensures
        allocated@ == taken_ports(service_views(services@)),
        forall|p: u16| #[trigger] allocated@.contains(p) <==> is_held(services@, p),
{
    broadcast use vstd::std_specs::hash::group_hash_axioms;

    let mut allocated: HashSet<u16> = HashSet::new();
    let ghost all = service_views(services@);
    let mut s: usize = 0;
    while s < services.len()
        invariant
            s <= services.len(),
            all == service_views(services@),
            forall|p: u16| #[trigger] allocated@.contains(p) <==> port_taken(all, s as nat, p),
        decreases services.len() - s,
    {
        let ports = &services[s].spec.ports;
        let ghost before = allocated@;
        let ghost views = port_views(ports@);
        assert(all[s as int] == services@[s as int]@);
        let mut k: usize = 0;
        while k < ports.len()
            invariant
                k <= ports.len(),
                views == port_views(ports@),
                forall|p: u16|
                    #[trigger] allocated@.contains(p) <==> before.contains(p) || uses_port(
                        views.take(k as int),
                        p,
                    ),
            decreases ports.len() - k,
        {
            let ghost held = allocated@;
            assert(views[k as int] == ports@[k as int]@);
            if let Some(node_port) = ports[k].node_port {
                allocated.insert(node_port);
            }
            proof {
                assert forall|p: u16|
                    #[trigger] allocated@.contains(p) <==> before.contains(p) || uses_port(
                        views.take(k + 1),
                        p,
                    ) by {
                    lemma_uses_push(views, k as int, p);
                    assert(held.contains(p) <==> before.contains(p) || uses_port(
                        views.take(k as int),
                        p,
                    ));
                }
            }
            k += 1;
        }
        assert(views.take(k as int) =~= views);
        s += 1;
        proof {
            assert forall|p: u16| allocated@.contains(p) <==> port_taken(all, s as nat, p) by {
                assert(before.contains(p) <==> port_taken(all, (s - 1) as nat, p));
                if port_taken(all, (s - 1) as nat, p) {
                    let i = choose|i: int|
                        0 <= i < s - 1 && uses_port((#[trigger] all[i]).ports, p);
                    assert(uses_port(all[i].ports, p));
                }
                if uses_port(views, p) {
                    assert(uses_port(all[s - 1].ports, p));
                }
                if port_taken(all, s as nat, p) {
                    let i = choose|i: int| 0 <= i < s && uses_port((#[trigger] all[i]).ports, p);
                    if i < s - 1 {
                        assert(port_taken(all, (s - 1) as nat, p));
                    }
                }
            }
        }
    }
    assert(allocated@ =~= taken_ports(all));
    proof {
        assert forall|p: u16| #[trigger] allocated@.contains(p) <==> is_held(services@, p) by {
            law_taken_ports(services@, p);
        }
    }
    allocated
}

proof fn lemma_uses_push(ports: Seq<ServicePortView>, k: int, p: u16)
    requires
        0 <= k < ports.len(),
    ensures
        uses_port(ports.take(k + 1), p) <==> uses_port(ports.take(k), p) || ports[k].node_port
            == Some(p),
{
    let more = ports.take(k + 1);
    let less = ports.take(k);
    if uses_port(less, p) {
        let i = choose|i: int| 0 <= i < less.len() && (#[trigger] less[i]).node_port == Some(p);
        assert(more[i].node_port == Some(p));
    }
    if ports[k].node_port == Some(p) {
        assert(more[k].node_port == Some(p));
    }
    if uses_port(more, p) {
        let i = choose|i: int| 0 <= i < more.len() && (#[trigger] more[i]).node_port == Some(p);
        if i < k {
            assert(less[i].node_port == Some(p));
        }
    }
}

/// The lowest port of the range that is not in the set, if there is one.
pub open spec fn free_port(min: u16, max: u16, allocated: Set<u16>) -> Option<u16> {
    if all_taken(min, max, allocated) {
        None
    } else {
        Some(choose|p: u16| first_free(min, max, allocated, p))
    }
}

/// A search gives the lowest free port, or the error where there is none.
pub proof fn lemma_search(min: u16, max: u16, allocated: Set<u16>, found: Result<u16, Failure>)
    requires
        search_result(min, max, allocated, found),
    ensures
        match found {
            Ok(p) => free_port(min, max, allocated) == Some(p),
            Err(f) => free_port(min, max, allocated) is None,
        },
{
    if let Ok(p) = found {
        assert(!allocated.contains(p));
        let q = choose|q: u16| first_free(min, max, allocated, q);
        assert(first_free(min, max, allocated, q));
        if q < p {
            assert(allocated.contains(q));
        }
        if p < q {
            assert(allocated.contains(p));
        }
    }
}

/// Whether every port has a node port.
pub open spec fn has_node_ports(ports: Seq<ServicePortView>) -> bool {
    forall|k: int| 0 <= k < ports.len() ==> (#[trigger] ports[k]).node_port is Some
}

/// A port, with the node port where it had none.
pub open spec fn with_node_port(port: ServicePortView, p: u16) -> ServicePortView {
    if port.node_port is None {
        ServicePortView { node_port: Some(p), ..port }
    } else {
        port
    }
}

/// The ports, with the node port where they had none.
pub open spec fn filled(ports: Seq<ServicePortView>, p: u16) -> Seq<ServicePortView> {
    ports.map_values(|port: ServicePortView| with_node_port(port, p))
}

/// The ports, each with a node port: those that had none get the lowest one that is free. There
/// is no result where one is needed and none is free.
pub open spec fn allocation(ports: Seq<ServicePortView>, allocated: Set<u16>) -> Option<
    Seq<ServicePortView>,
> {
    if has_node_ports(ports) {
        Some(ports)
    } else {
        match free_port(NODE_PORT_MIN, NODE_PORT_MAX, allocated) {
            Some(p) => Some(filled(ports, p)),
            None => None,
        }
    }
}

/// Tells whether every port has a node port.
pub fn all_have_node_ports(ports: &Vec<ServicePort>) -> (yes: bool)
    ensures
        yes == has_node_ports(port_views(ports@)),
{
    let ghost views = port_views(ports@);
    let mut k: usize = 0;
    while k < ports.len()
        invariant
            k <= ports.len(),
            views == port_views(ports@),
            forall|i: int| 0 <= i < k ==> (#[trigger] views[i]).node_port is Some,
        decreases ports.len() - k,
    {
        assert(views[k as int] == ports@[k as int]@);
        if ports[k].node_port.is_none() {
            return false;
        }
        k += 1;
    }
    true
}

/// Gives every port of the service a node port that had none.
pub fn allocate_node_ports(service: Service, allocated: &HashSet<u16>) -> (result: Result<
    Service,
    Failure,
>)
    ensures
        match allocation(service@.ports, allocated@) {
            Some(ports) => result matches Ok(u) && u@ == (ServiceView { ports, ..service@ }),
            None => result matches Err(f) && f@ == exhausted(NODE_PORT_MIN, NODE_PORT_MAX),
        },
        match result {
            Ok(u) => {
                &&& u.metadata == service.metadata
                &&& u.status == service.status
                &&& u.spec == (ServiceSpec { ports: u.spec.ports, ..service.spec })
                &&& u.spec.ports@.len() == service.spec.ports@.len()
                &&& forall|k: int|
                    0 <= k < u.spec.ports@.len() ==> #[trigger] u.spec.ports@[k] == (ServicePort {
                        node_port: u.spec.ports@[k].node_port,
                        ..service.spec.ports@[k]
                    })
                &&& forall|k: int|
                    0 <= k < u.spec.ports@.len() ==> match service.spec.ports@[k].node_port {
                        Some(p) => (#[trigger] u.spec.ports@[k]).node_port == Some(p),
                        None => u.spec.ports@[k].node_port matches Some(p) && 30000 <= p <= 32767
                            && !allocated@.contains(p) && forall|q: u16|
                            30000 <= q < p ==> #[trigger] allocated@.contains(q),
                    }
            },
            Err(_) => {
                &&& exists|k: int|
                    0 <= k < service.spec.ports@.len() && (
                    #[trigger] service.spec.ports@[k]).node_port is None
                &&& forall|q: u16| 30000 <= q <= 32767 ==> #[trigger] allocated@.contains(q)
            },
        },
{
    let ghost start = service@;
    let mut updated = service;
    let ghost views = start.ports;
    let ghost free = free_port(NODE_PORT_MIN, NODE_PORT_MAX, allocated@);
    let mut k: usize = 0;
    assert(filled(views.take(0), 0) + views.skip(0) =~= views);
    while k < updated.spec.ports.len()
        invariant
            k <= updated.spec.ports.len(),
            views == start.ports,
            updated.spec.ports.len() == views.len(),
            free == free_port(NODE_PORT_MIN, NODE_PORT_MAX, allocated@),
            free is None ==> forall|i: int| 0 <= i < k ==> (#[trigger] views[i]).node_port is Some,
            forall|i: int|
                0 <= i < k ==> #[trigger] port_views(updated.spec.ports@)[i] == with_node_port(
                    views[i],
                    match free {
                        Some(p) => p,
                        None => 0,
                    },
                ),
            forall|i: int|
                k <= i < views.len() ==> #[trigger] port_views(updated.spec.ports@)[i] == views[i],
            start == service@,
            updated.metadata == service.metadata,
            updated.status == service.status,
            updated.spec == (ServiceSpec { ports: updated.spec.ports, ..service.spec }),
            updated.spec.ports@.len() == service.spec.ports@.len(),
            forall|i: int|
                0 <= i < updated.spec.ports@.len() ==> #[trigger] updated.spec.ports@[i] == (
                ServicePort {
                    node_port: updated.spec.ports@[i].node_port,
                    ..service.spec.ports@[i]
                }),
            forall|i: int|
                k <= i < updated.spec.ports@.len() ==> #[trigger] updated.spec.ports@[i]
                    == service.spec.ports@[i],
            forall|i: int|
                0 <= i < k ==> match service.spec.ports@[i].node_port {
                    Some(p) => (#[trigger] updated.spec.ports@[i]).node_port == Some(p),
                    None => updated.spec.ports@[i].node_port matches Some(p) && 30000 <= p <= 32767
                        && !allocated@.contains(p) && forall|q: u16|
                        30000 <= q < p ==> #[trigger] allocated@.contains(q),
                },
            updated@ == (ServiceView { ports: port_views(updated.spec.ports@), ..start }),
        decreases updated.spec.ports.len() - k,
    {
        let ghost before = port_views(updated.spec.ports@);
        assert(before[k as int] == updated.spec.ports@[k as int]@);
        if updated.spec.ports[k].node_port.is_none() {
            let found = find_available_port(NODE_PORT_MIN, NODE_PORT_MAX, allocated);
            proof {
                lemma_search(NODE_PORT_MIN, NODE_PORT_MAX, allocated@, found);
                assert(views[k as int].node_port is None);
            }
            match found {
                Ok(p) => {
                    updated.spec.ports[k].node_port = Some(p);
                    assert(port_views(updated.spec.ports@) =~= before.update(
                        k as int,
                        with_node_port(views[k as int], p),
                    ));
                },
                Err(failure) => {
                    return Err(failure);
                },
            }
        }
        k += 1;
    }
    proof {
        let now = port_views(updated.spec.ports@);
        if has_node_ports(views) {
            assert(now =~= views);
        } else {
            assert(free is Some);
            assert(now =~= filled(views, free->0));
        }
    }
    Ok(updated)
}

// ---------------------------------------------------------------------------
// Laws
// ---------------------------------------------------------------------------

/// After the allocation every port has a node port. Nothing else changes: what a port had, it
/// keeps, and a node port that is new lies in the range and was free.
pub proof fn law_allocation(ports: Seq<ServicePortView>, services: Seq<ServiceView>)
    ensures
        allocation(ports, taken_ports(services)) matches Some(now) ==> {
            &&& now.len() == ports.len()
            &&& has_node_ports(now)
            &&& forall|k: int|
                0 <= k < ports.len() ==> now[k] == (ServicePortView {
                    node_port: now[k].node_port,
                    ..#[trigger] ports[k]
                })
            &&& forall|k: int|
                0 <= k < ports.len() && (#[trigger] ports[k]).node_port is Some ==> now[k]
                    == ports[k]
            &&& forall|k: int|
                0 <= k < ports.len() && (#[trigger] ports[k]).node_port is None ==> NODE_PORT_MIN
                    <= now[k].node_port->0 <= NODE_PORT_MAX && !port_taken(
                    services,
                    services.len(),
                    now[k].node_port->0,
                )
        },
{
    let allocated = taken_ports(services);
    if !has_node_ports(ports) && !all_taken(NODE_PORT_MIN, NODE_PORT_MAX, allocated) {
        let q = lemma_some_free(NODE_PORT_MIN, NODE_PORT_MAX, allocated);
        let p = choose|p: u16| first_free(NODE_PORT_MIN, NODE_PORT_MAX, allocated, p);
        assert(first_free(NODE_PORT_MIN, NODE_PORT_MAX, allocated, p));
        assert(!allocated.contains(p));
        let now = filled(ports, p);
        assert forall|k: int| 0 <= k < now.len() implies (#[trigger] now[k]).node_port is Some by {
            assert(now[k] == with_node_port(ports[k], p));
        }
    }
}

pub proof fn lemma_some_free(min: u16, max: u16, allocated: Set<u16>) -> (p: u16)
    requires
        !all_taken(min, max, allocated),
    ensures
        first_free(min, max, allocated, p),
{
    let q = choose|q: u16| min <= q <= max && !#[trigger] allocated.contains(q);
    lemma_free_below(min, max, allocated, q)
}

proof fn lemma_free_below(min: u16, max: u16, allocated: Set<u16>, q: u16) -> (p: u16)
    requires
        min <= q <= max,
        !allocated.contains(q),
    ensures
        first_free(min, max, allocated, p),
    decreases q,
{
    if exists|r: u16| min <= r < q && !#[trigger] allocated.contains(r) {
        let r = choose|r: u16| min <= r < q && !#[trigger] allocated.contains(r);
        lemma_free_below(min, max, allocated, r)
    } else {
        q
    }
}

/// Where the service is itself among the listed ones, a node port that it newly gets is none of
/// those that it had.
pub proof fn law_new_node_port_differs(
    ports: Seq<ServicePortView>,
    services: Seq<ServiceView>,
    s: int,
    k: int,
    l: int,
)
    requires
        0 <= s < services.len(),
        services[s].ports == ports,
        0 <= k < ports.len(),
        0 <= l < ports.len(),
        k != l,
        ports[k].node_port is None,
        ports[l].node_port is Some,
    ensures
        allocation(ports, taken_ports(services)) matches Some(now) ==> now[k].node_port
            != now[l].node_port,
{
    law_allocation(ports, services);
    if let Some(now) = allocation(ports, taken_ports(services)) {
        if now[k].node_port == now[l].node_port {
            let p = now[k].node_port->0;
            assert(now[l] == ports[l]);
            assert(ports[l].node_port == Some(p));
            assert(uses_port(services[s].ports, p));
            assert(port_taken(services, services.len(), p));
        }
    }
}

} // verus!
