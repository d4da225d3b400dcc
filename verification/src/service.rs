//! Services as the cluster describes them.

use crate::table::Table;
use crate::text::{option_text, parse_port, port_number, same_text};
use vstd::prelude::*;

verus! {

/// How a service is offered.
#[derive(Clone, Copy, Debug, PartialEq, Eq, Structural)]
pub enum ServiceType {
    ClusterIP,
    NodePort,
    LoadBalancer,
    ExternalName,
}

/// A port by number or by name.
pub enum IntOrString {
    Int(i32),
    String(String),
}

/// One port of a service.
pub struct ServicePort {
    pub name: Option<String>,
    pub port: u16,
    pub target_port: Option<IntOrString>,
    pub protocol: Option<String>,
    pub node_port: Option<u16>,
}

/// How long a client stays with its endpoint.
#[derive(Clone, Copy, Debug)]
pub struct ClientIPConfig {
    pub timeout_seconds: Option<i32>,
}

/// Settings of session affinity.
#[derive(Clone, Copy, Debug)]
pub struct SessionAffinityConfig {
    pub client_ip: Option<ClientIPConfig>,
}

/// What is wanted of a service.
pub struct ServiceSpec {
    pub cluster_ip: Option<String>,
    pub ports: Vec<ServicePort>,
    pub service_type: Option<ServiceType>,
    pub session_affinity: Option<String>,
    pub session_affinity_config: Option<SessionAffinityConfig>,
}

/// What identifies a service.
pub struct ObjectMeta {
    pub name: String,
    pub namespace: Option<String>,
    pub annotations: Option<Table<String>>,
}

/// One observation about a service.
pub struct Condition {
    pub condition_type: String,
    pub status: String,
    pub observed_generation: Option<i64>,
    pub last_transition_time: Option<String>,
    pub reason: Option<String>,
    pub message: Option<String>,
}

/// The state of one port of an ingress point.
pub struct PortStatus {
    pub port: u16,
    pub protocol: String,
    pub error: Option<String>,
}

/// One point at which a load balancer takes traffic.
pub struct LoadBalancerIngress {
    pub ip: Option<String>,
    pub hostname: Option<String>,
    pub ip_mode: Option<String>,
    pub ports: Option<Vec<PortStatus>>,
}

/// The points at which a load balancer takes traffic.
pub struct LoadBalancerStatus {
    pub ingress: Vec<LoadBalancerIngress>,
}

/// What has been observed of a service.
pub struct ServiceStatus {
    pub load_balancer: Option<LoadBalancerStatus>,
    pub conditions: Option<Vec<Condition>>,
}

/// A service.
pub struct Service {
    pub metadata: ObjectMeta,
    pub spec: ServiceSpec,
    pub status: Option<ServiceStatus>,
}

// ---------------------------------------------------------------------------
// Content
// ---------------------------------------------------------------------------

/// The content of an [`IntOrString`].
pub enum IntOrStringView {
    Int(int),
    String(Seq<char>),
}

/// The content of a [`ServicePort`].
pub struct ServicePortView {
    pub name: Option<Seq<char>>,
    pub port: u16,
    pub target_port: Option<IntOrStringView>,
    pub protocol: Option<Seq<char>>,
    pub node_port: Option<u16>,
}

/// The content of a [`LoadBalancerIngress`].
pub struct IngressView {
    pub ip: Option<Seq<char>>,
    pub hostname: Option<Seq<char>>,
    pub ip_mode: Option<Seq<char>>,
    pub ports: Option<Seq<PortStatus>>,
}

/// The content of a [`ServiceStatus`].
pub struct StatusView {
    pub load_balancer: Option<Seq<IngressView>>,
    pub conditions: Option<Seq<Condition>>,
}

/// The content of a [`Service`].
pub struct ServiceView {
    pub name: Seq<char>,
    pub namespace: Option<Seq<char>>,
    pub annotations: Option<Map<Seq<char>, String>>,
    pub cluster_ip: Option<Seq<char>>,
    pub ports: Seq<ServicePortView>,
    pub service_type: Option<ServiceType>,
    pub session_affinity: Option<Seq<char>>,
    pub session_affinity_config: Option<SessionAffinityConfig>,
    pub status: Option<StatusView>,
}

impl View for IntOrString {
    type V = IntOrStringView;

    open spec fn view(&self) -> IntOrStringView {
        match self {
            IntOrString::Int(i) => IntOrStringView::Int(*i as int),
            IntOrString::String(s) => IntOrStringView::String(s@),
        }
    }
}

impl View for ServicePort {
    type V = ServicePortView;

    open spec fn view(&self) -> ServicePortView {
        ServicePortView {
            name: option_text(self.name),
            port: self.port,
            target_port: match self.target_port {
                Some(t) => Some(t@),
                None => None,
            },
            protocol: option_text(self.protocol),
            node_port: self.node_port,
        }
    }
}

/// What a list of ports holds.
pub open spec fn port_views(ports: Seq<ServicePort>) -> Seq<ServicePortView> {
    ports.map_values(|p: ServicePort| p@)
}

impl View for LoadBalancerIngress {
    type V = IngressView;

    open spec fn view(&self) -> IngressView {
        IngressView {
            ip: option_text(self.ip),
            hostname: option_text(self.hostname),
            ip_mode: option_text(self.ip_mode),
            ports: match self.ports {
                Some(p) => Some(p@),
                None => None,
            },
        }
    }
}

/// What a list of ingress points holds.
pub open spec fn ingress_views(ingress: Seq<LoadBalancerIngress>) -> Seq<IngressView> {
    ingress.map_values(|i: LoadBalancerIngress| i@)
}

impl View for ServiceStatus {
    type V = StatusView;

    open spec fn view(&self) -> StatusView {
        StatusView {
            load_balancer: match self.load_balancer {
                Some(l) => Some(ingress_views(l.ingress@)),
                None => None,
            },
            conditions: match self.conditions {
                Some(c) => Some(c@),
                None => None,
            },
        }
    }
}

impl View for Service {
    type V = ServiceView;

    open spec fn view(&self) -> ServiceView {
        ServiceView {
            name: self.metadata.name@,
            namespace: option_text(self.metadata.namespace),
            annotations: match self.metadata.annotations {
                Some(a) => Some(a@),
                None => None,
            },
            cluster_ip: option_text(self.spec.cluster_ip),
            ports: port_views(self.spec.ports@),
            service_type: self.spec.service_type,
            session_affinity: option_text(self.spec.session_affinity),
            session_affinity_config: self.spec.session_affinity_config,
            status: match self.status {
                Some(s) => Some(s@),
                None => None,
            },
        }
    }
}

/// What a list of services holds.
pub open spec fn service_views(services: Seq<Service>) -> Seq<ServiceView> {
    services.map_values(|s: Service| s@)
}

// ---------------------------------------------------------------------------
// What follows from the content
// ---------------------------------------------------------------------------

/// The seconds for which a client stays with its endpoint where nothing else is set.
pub const DEFAULT_AFFINITY_SECONDS: i32 = 10800;

impl ServicePortView {
    /// The port of the endpoints, where the service gives it as a number or a text that
    /// denotes one. Numbers are taken modulo 65536.
    pub open spec fn target(self) -> Option<u16> {
        match self.target_port {
            Some(IntOrStringView::Int(i)) => Some((i % 65536) as u16),
            Some(IntOrStringView::String(s)) => port_number(s),
            None => None,
        }
    }

    /// The protocol, TCP where none is given.
    pub open spec fn protocol_name(self) -> Seq<char> {
        match self.protocol {
            Some(p) => p,
            None => "TCP"@,
        }
    }
}

impl ServiceView {
    /// The address of the service within the cluster. A headless service has none: its
    /// address is absent, empty or the word `None`.
    pub open spec fn address(self) -> Option<Seq<char>> {
        match self.cluster_ip {
            Some(ip) => if ip.len() > 0 && ip != "None"@ {
                Some(ip)
            } else {
                None
            },
            None => None,
        }
    }

    /// The namespace, or another text where there is none.
    pub open spec fn namespace_or(self, other: Seq<char>) -> Seq<char> {
        match self.namespace {
            Some(n) => n,
            None => other,
        }
    }

    /// Whether clients are to stay with the endpoint that they first reached.
    pub open spec fn sticky(self) -> bool {
        self.session_affinity == Some("ClientIP"@)
    }

    /// The seconds for which a client stays with its endpoint.
    pub open spec fn affinity_seconds(self) -> i32 {
        match self.session_affinity_config {
            Some(SessionAffinityConfig {
                client_ip: Some(ClientIPConfig { timeout_seconds: Some(t) }),
            }) => t,
            _ => DEFAULT_AFFINITY_SECONDS,
        }
    }

    /// Whether the service is to be offered by a load balancer.
    pub open spec fn wants_load_balancer(self) -> bool {
        self.service_type == Some(ServiceType::LoadBalancer)
    }
}

impl ServicePort {
    /// The port of the endpoints.
    pub fn target(&self) -> (port: Option<u16>)
        ensures
            port == self@.target(),
    {
        match &self.target_port {
            Some(IntOrString::Int(i)) => {
                let n: u64 = (*i as i64 + 0x1_0000_0000) as u64;
                let low: u64 = n % 65536;
                assert(low as int == (*i as int) % 65536);
                Some(low as u16)
            },
            Some(IntOrString::String(s)) => parse_port(s.as_str()),
            None => None,
        }
    }

    /// The protocol.
    pub fn protocol_name(&self) -> (name: &str)
        ensures
            name@ == self@.protocol_name(),
    {
        match &self.protocol {
            Some(p) => p.as_str(),
            None => "TCP",
        }
    }
}

impl Service {
    /// The address of the service within the cluster.
    pub fn address(&self) -> (ip: Option<&str>)
        ensures
            match ip {
                Some(t) => self@.address() == Some(t@),
                None => self@.address() is None,
            },
    {
        match &self.spec.cluster_ip {
            Some(ip) => if !ip.as_str().is_empty() && !same_text(ip.as_str(), "None") {
                Some(ip.as_str())
            } else {
                None
            },
            None => None,
        }
    }

    /// The namespace, or another text where there is none.
    pub fn namespace_or<'a>(&'a self, other: &'a str) -> (namespace: &'a str)
        ensures
            namespace@ == self@.namespace_or(other@),
    {
        match &self.metadata.namespace {
            Some(n) => n.as_str(),
            None => other,
        }
    }

    /// Whether clients are to stay with the endpoint that they first reached.
    pub fn sticky(&self) -> (yes: bool)
        ensures
            yes == self@.sticky(),
    {
        match &self.spec.session_affinity {
            Some(a) => same_text(a.as_str(), "ClientIP"),
            None => false,
        }
    }

    /// The seconds for which a client stays with its endpoint.
    pub fn affinity_seconds(&self) -> (seconds: i32)
        ensures
            seconds == self@.affinity_seconds(),
    {
        match self.spec.session_affinity_config {
            Some(config) => match config.client_ip {
                Some(client) => match client.timeout_seconds {
                    Some(t) => t,
                    None => DEFAULT_AFFINITY_SECONDS,
                },
                None => DEFAULT_AFFINITY_SECONDS,
            },
            None => DEFAULT_AFFINITY_SECONDS,
        }
    }

    /// Whether the service is to be offered by a load balancer. A service without a type
    /// has a cluster address only.
    pub fn wants_load_balancer(&self) -> (yes: bool)
        ensures
            yes == self@.wants_load_balancer(),
    {
        match self.spec.service_type {
            Some(ServiceType::LoadBalancer) => true,
            _ => false,
        }
    }
}

} // verus!
