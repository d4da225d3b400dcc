//! What is asked of a cloud provider, and what becomes of its answer.

use crate::balance::copy_option;
use crate::node_port::has_node_ports;
use crate::service::{
    ingress_views, port_views, IngressView, LoadBalancerIngress, LoadBalancerStatus, Service,
    ServicePort, ServicePortView, ServiceStatus, ServiceView, StatusView,
};
use crate::table::Table;
use crate::text::{concat, copy_words, lemma_concat_push, option_text, push_word, same_text, texts};
use vstd::prelude::*;

verus! {

/// One address of a node.
pub struct NodeAddress {
    pub address_type: String,
    pub address: String,
}

/// What has been observed of a node.
pub struct NodeStatus {
    pub addresses: Option<Vec<NodeAddress>>,
}

/// A node of the cluster.
pub struct Node {
    pub status: Option<NodeStatus>,
}

/// One port that a load balancer is to offer.
pub struct LoadBalancerPort {
    pub name: Option<String>,
    pub protocol: String,
    pub port: u16,
    pub node_port: u16,
}

/// What a load balancer is to be set up for.
pub struct LoadBalancerService {
    pub namespace: String,
    pub name: String,
    pub cluster_name: String,
    pub ports: Vec<LoadBalancerPort>,
    pub node_addresses: Vec<String>,
    pub session_affinity: Option<String>,
    pub annotations: Table<String>,
}

/// One point at which the provider takes traffic.
pub struct CloudIngress {
    pub ip: Option<String>,
    pub hostname: Option<String>,
}

// ---------------------------------------------------------------------------
// Content
// ---------------------------------------------------------------------------

/// The content of a [`LoadBalancerPort`].
pub struct BalancerPortView {
    pub name: Option<Seq<char>>,
    pub protocol: Seq<char>,
    pub port: u16,
    pub node_port: u16,
}

/// The content of a [`LoadBalancerService`].
pub struct BalancerView {
    pub namespace: Seq<char>,
    pub name: Seq<char>,
    pub cluster_name: Seq<char>,
    pub ports: Seq<BalancerPortView>,
    pub node_addresses: Seq<Seq<char>>,
    pub session_affinity: Option<Seq<char>>,
    pub annotations: Map<Seq<char>, String>,
}

/// The content of a [`CloudIngress`].
pub struct CloudIngressView {
    pub ip: Option<Seq<char>>,
    pub hostname: Option<Seq<char>>,
}

impl View for NodeAddress {
    type V = (Seq<char>, Seq<char>);

    open spec fn view(&self) -> (Seq<char>, Seq<char>) {
        (self.address_type@, self.address@)
    }
}

impl View for Node {
    /// Kind and text of each address.
    type V = Seq<(Seq<char>, Seq<char>)>;

    open spec fn view(&self) -> Seq<(Seq<char>, Seq<char>)> {
        match self.status {
            Some(NodeStatus { addresses: Some(a) }) => a@.map_values(|x: NodeAddress| x@),
            _ => Seq::empty(),
        }
    }
}

impl View for LoadBalancerPort {
    type V = BalancerPortView;

    open spec fn view(&self) -> BalancerPortView {
        BalancerPortView {
            name: option_text(self.name),
            protocol: self.protocol@,
            port: self.port,
            node_port: self.node_port,
        }
    }
}

impl View for LoadBalancerService {
    type V = BalancerView;

    open spec fn view(&self) -> BalancerView {
        BalancerView {
            namespace: self.namespace@,
            name: self.name@,
            cluster_name: self.cluster_name@,
            ports: self.ports@.map_values(|p: LoadBalancerPort| p@),
            node_addresses: texts(self.node_addresses@),
            session_affinity: option_text(self.session_affinity),
            annotations: self.annotations@,
        }
    }
}

impl View for CloudIngress {
    type V = CloudIngressView;

    open spec fn view(&self) -> CloudIngressView {
        CloudIngressView { ip: option_text(self.ip), hostname: option_text(self.hostname) }
    }
}

/// What a list of nodes holds.
pub open spec fn node_views(nodes: Seq<Node>) -> Seq<Seq<(Seq<char>, Seq<char>)>> {
    nodes.map_values(|n: Node| n@)
}

/// What the answer of a provider holds.
pub open spec fn cloud_views(ingress: Seq<CloudIngress>) -> Seq<CloudIngressView> {
    ingress.map_values(|i: CloudIngress| i@)
}

// ---------------------------------------------------------------------------
// Addresses of nodes
// ---------------------------------------------------------------------------

/// The first internal address from position `i` on, as a list of none or one.
pub open spec fn internal_address(addresses: Seq<(Seq<char>, Seq<char>)>, i: int) -> Seq<Seq<char>>
    decreases addresses.len() - i,
{
    if 0 <= i < addresses.len() {
        if addresses[i].0 == "InternalIP"@ {
            seq![addresses[i].1]
        } else {
            internal_address(addresses, i + 1)
        }
    } else {
        Seq::empty()
    }
}

/// The first internal address of each of the first `n` nodes that have one.
pub open spec fn internal_addresses(
    nodes: Seq<Seq<(Seq<char>, Seq<char>)>>,
    n: nat,
) -> Seq<Seq<char>> {
    concat(Seq::new(n, |k: int| internal_address(nodes[k], 0)))
}

fn push_internal_address(found: &mut Vec<String>, node: &Node)
    ensures
        texts(final(found)@) == texts(old(found)@) + internal_address(node@, 0),
{
    if let Some(status) = &node.status {
        if let Some(addresses) = &status.addresses {
            let mut i: usize = 0;
            while i < addresses.len()
                invariant
                    i <= addresses.len(),
                    node@ == addresses@.map_values(|x: NodeAddress| x@),
                    internal_address(node@, 0) == internal_address(node@, i as int),
                    *found == *old(found),
                decreases addresses.len() - i,
            {
                assert(node@[i as int] == addresses@[i as int]@);
                if same_text(addresses[i].address_type.as_str(), "InternalIP") {
                    push_word(found, addresses[i].address.as_str());
                    assert(texts(found@) =~= texts(old(found)@) + internal_address(node@, 0));
                    return;
                }
                i += 1;
            }
        }
    }
    assert(internal_address(node@, 0) =~= Seq::<Seq<char>>::empty());
    assert(texts(found@) =~= texts(old(found)@) + internal_address(node@, 0));
}

/// Collects the first internal address of each node that has one.
pub fn node_addresses(nodes: &[Node]) -> (found: Vec<String>)
    ensures
        texts(found@) == internal_addresses(node_views(nodes@), nodes@.len()),
{
    let mut found: Vec<String> = Vec::new();
    let ghost all = node_views(nodes@);
    let mut k: usize = 0;
    assert(texts(found@) =~= internal_addresses(all, 0));
    while k < nodes.len()
        invariant
            k <= nodes.len(),
            all == node_views(nodes@),
            texts(found@) == internal_addresses(all, k as nat),
        decreases nodes.len() - k,
    {
        assert(all[k as int] == nodes@[k as int]@);
        push_internal_address(&mut found, &nodes[k]);
        proof {
            let f = |k: int| internal_address(all[k], 0);
            assert(Seq::new(k as nat, f).push(f(k as int)) =~= Seq::new((k + 1) as nat, f));
            lemma_concat_push(Seq::new(k as nat, f), f(k as int));
        }
        k += 1;
    }
    found
}

// ---------------------------------------------------------------------------
// Requests
// ---------------------------------------------------------------------------

/// What is asked for one port that has a node port.
pub open spec fn balancer_port(port: ServicePortView) -> BalancerPortView {
    BalancerPortView {
        name: port.name,
        protocol: port.protocol_name(),
        port: port.port,
        node_port: port.node_port->0,
    }
}

/// What is asked of the provider for a service.
pub open spec fn balancer_request(
    service: ServiceView,
    namespace: Seq<char>,
    cluster_name: Seq<char>,
    addresses: Seq<Seq<char>>,
) -> BalancerView {
    BalancerView {
        namespace,
        name: service.name,
        cluster_name,
        ports: service.ports.map_values(|p: ServicePortView| balancer_port(p)),
        node_addresses: addresses,
        session_affinity: service.session_affinity,
        annotations: match service.annotations {
            Some(a) => a,
            None => Map::empty(),
        },
    }
}

fn balancer_ports(ports: &Vec<ServicePort>) -> (asked: Vec<LoadBalancerPort>)
    requires
        has_node_ports(port_views(ports@)),
    ensures
        asked@.map_values(|p: LoadBalancerPort| p@) == port_views(ports@).map_values(
            |p: ServicePortView| balancer_port(p),
        ),
        asked@.len() == ports@.len(),
        forall|k: int|
            0 <= k < ports@.len() ==> {
                &&& (#[trigger] asked@[k]).port == ports@[k].port
                &&& Some(asked@[k].node_port) == ports@[k].node_port
                &&& asked@[k].name == ports@[k].name
                &&& asked@[k].protocol@ == match ports@[k].protocol {
                    Some(protocol) => protocol@,
                    None => "TCP"@,
                }
            },
{
    let mut asked: Vec<LoadBalancerPort> = Vec::new();
    let ghost views = port_views(ports@);
    let ghost all = views.map_values(|p: ServicePortView| balancer_port(p));
    let mut k: usize = 0;
    while k < ports.len()
        invariant
            k <= ports.len(),
            views == port_views(ports@),
            has_node_ports(views),
            all == views.map_values(|p: ServicePortView| balancer_port(p)),
            asked@.len() == k,
            asked@.map_values(|p: LoadBalancerPort| p@) == all.take(k as int),
            forall|i: int|
                0 <= i < k ==> {
                    &&& (#[trigger] asked@[i]).port == ports@[i].port
                    &&& Some(asked@[i].node_port) == ports@[i].node_port
                    &&& asked@[i].name == ports@[i].name
                    &&& asked@[i].protocol@ == match ports@[i].protocol {
                        Some(protocol) => protocol@,
                        None => "TCP"@,
                    }
                },
        decreases ports.len() - k,
    {
        let ghost before = asked@;
        assert(views[k as int] == ports@[k as int]@);
        assert(views[k as int].node_port is Some);
        if let Some(node_port) = ports[k].node_port {
            asked.push(
                LoadBalancerPort {
                    name: copy_option(&ports[k].name),
                    protocol: ports[k].protocol_name().to_string(),
                    port: ports[k].port,
                    node_port,
                },
            );
        }
        assert(asked@[k as int]@ == all[k as int]);
        assert(asked@.map_values(|p: LoadBalancerPort| p@) =~= before.map_values(
            |p: LoadBalancerPort| p@,
        ).push(all[k as int]));
        k += 1;
        assert(all.take(k as int) =~= all.take(k - 1).push(all[k - 1]));
    }
    assert(all.take(k as int) =~= all);
    asked
}

/// Writes what is asked of the provider for a service whose ports all have node ports.
pub fn build_request(
    service: &Service,
    namespace: &str,
    cluster_name: &str,
    addresses: &Vec<String>,
) -> (request: LoadBalancerService)
    requires
        has_node_ports(service@.ports),
    ensures
        request@ == balancer_request(service@, namespace@, cluster_name@, texts(addresses@)),
        request.namespace@ == namespace@,
        request.name@ == service.metadata.name@,
        request.cluster_name@ == cluster_name@,
        texts(request.node_addresses@) == texts(addresses@),
        request.session_affinity == service.spec.session_affinity,
        match service.metadata.annotations {
            Some(annotations) => request.annotations@ == annotations@,
            None => request.annotations@ == Map::<Seq<char>, String>::empty(),
        },
        request.ports@.len() == service.spec.ports@.len(),
        forall|k: int|
            #![trigger request.ports@[k]]
            #![trigger service.spec.ports@[k]]
            0 <= k < request.ports@.len() ==> {
                &&& request.ports@[k].port == service.spec.ports@[k].port
                &&& Some(request.ports@[k].node_port) == service.spec.ports@[k].node_port
                &&& request.ports@[k].name == service.spec.ports@[k].name
                &&& request.ports@[k].protocol@ == match service.spec.ports@[k].protocol {
                    Some(protocol) => protocol@,
                    None => "TCP"@,
                }
            },
{
    LoadBalancerService {
        namespace: namespace.to_string(),
        name: service.metadata.name.clone(),
        cluster_name: cluster_name.to_string(),
        ports: balancer_ports(&service.spec.ports),
        node_addresses: copy_words(addresses),
        session_affinity: copy_option(&service.spec.session_affinity),
        annotations: match &service.metadata.annotations {
            Some(a) => a.copy(),
            None => Table::new(),
        },
    }
}

// ---------------------------------------------------------------------------
// Answers
// ---------------------------------------------------------------------------

/// A point at which traffic is taken, as the service shows it.
pub open spec fn shown_ingress(ingress: CloudIngressView) -> IngressView {
    IngressView { ip: ingress.ip, hostname: ingress.hostname, ip_mode: None, ports: None }
}

/// The service with the points at which the provider takes traffic. Conditions stay as they
/// were.
pub open spec fn with_ingress(service: ServiceView, ingress: Seq<CloudIngressView>) -> ServiceView {
    ServiceView {
        status: Some(
            StatusView {
                load_balancer: Some(ingress.map_values(|i: CloudIngressView| shown_ingress(i))),
                conditions: match service.status {
                    Some(s) => s.conditions,
                    None => None,
                },
            },
        ),
        ..service
    }
}

fn show_ingress(ingress: &Vec<CloudIngress>) -> (shown: Vec<LoadBalancerIngress>)
    ensures
        ingress_views(shown@) == cloud_views(ingress@).map_values(
            |i: CloudIngressView| shown_ingress(i),
        ),
        shown@.len() == ingress@.len(),
        forall|i: int|
            0 <= i < ingress@.len() ==> {
                &&& (#[trigger] shown@[i]).ip == ingress@[i].ip
                &&& shown@[i].hostname == ingress@[i].hostname
                &&& shown@[i].ip_mode is None
                &&& shown@[i].ports is None
            },
{
    let mut shown: Vec<LoadBalancerIngress> = Vec::new();
    let ghost all = cloud_views(ingress@).map_values(|i: CloudIngressView| shown_ingress(i));
    let mut k: usize = 0;
    while k < ingress.len()
        invariant
            k <= ingress.len(),
            all == cloud_views(ingress@).map_values(|i: CloudIngressView| shown_ingress(i)),
            ingress_views(shown@) == all.take(k as int),
            shown@.len() == k,
            forall|i: int|
                0 <= i < k ==> {
                    &&& (#[trigger] shown@[i]).ip == ingress@[i].ip
                    &&& shown@[i].hostname == ingress@[i].hostname
                    &&& shown@[i].ip_mode is None
                    &&& shown@[i].ports is None
                },
        decreases ingress.len() - k,
    {
        let ghost before = shown@;
        assert(cloud_views(ingress@)[k as int] == ingress@[k as int]@);
        shown.push(
            LoadBalancerIngress {
                ip: copy_option(&ingress[k].ip),
                hostname: copy_option(&ingress[k].hostname),
                ip_mode: None,
                ports: None,
            },
        );
        k += 1;
        assert(ingress_views(shown@) =~= ingress_views(before).push(all[k - 1]));
        assert(all.take(k as int) =~= all.take(k - 1).push(all[k - 1]));
    }
    assert(all.take(k as int) =~= all);
    shown
}

/// Puts the points at which the provider takes traffic into the status of the service.
pub fn update_service_status(service: Service, ingress: &Vec<CloudIngress>) -> (updated: Service)
    ensures
        updated@ == with_ingress(service@, cloud_views(ingress@)),
        updated.metadata == service.metadata,
        updated.spec == service.spec,
        updated.status matches Some(status) && {
            &&& status.conditions == match service.status {
                Some(before) => before.conditions,
                None => None,
            }
            &&& status.load_balancer matches Some(shown)
            &&& shown.ingress@.len() == ingress@.len()
            &&& forall|i: int|
                0 <= i < ingress@.len() ==> {
                    &&& (#[trigger] shown.ingress@[i]).ip == ingress@[i].ip
                    &&& shown.ingress@[i].hostname == ingress@[i].hostname
                    &&& shown.ingress@[i].ip_mode is None
                    &&& shown.ingress@[i].ports is None
                }
        },
{
    let conditions = match service.status {
        Some(status) => status.conditions,
        None => None,
    };
    let load_balancer = LoadBalancerStatus { ingress: show_ingress(ingress) };
    Service {
        metadata: service.metadata,
        spec: service.spec,
        status: Some(ServiceStatus { load_balancer: Some(load_balancer), conditions }),
    }
}

} // verus!
