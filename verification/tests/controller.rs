use rusternetes_services::cloud::{
    node_addresses, CloudIngress, LoadBalancerService, Node, NodeAddress, NodeStatus,
};
use rusternetes_services::failure::Failure;
use rusternetes_services::loadbalancer::{
    cleanup_result, enqueue_all, split_key, LoadBalancerController, WatchAction, WatchEvent,
};
use rusternetes_services::node_port::{
    allocate_node_ports, find_available_port, get_allocated_node_ports,
};
use rusternetes_services::reconcile::{Answer, Call, Reconciliation, Verdict};
use rusternetes_services::service::{
    Condition, LoadBalancerIngress, LoadBalancerStatus, ObjectMeta, Service, ServicePort,
    ServiceSpec, ServiceStatus, ServiceType,
};
use rusternetes_services::table::Table;
use std::collections::HashSet;
use std::sync::Arc;

struct MemoryStorage;

struct Provider;

fn controller(provider: bool) -> LoadBalancerController<MemoryStorage, Provider> {
    let provider = if provider { Some(Arc::new(Provider)) } else { None };
    LoadBalancerController::new(Arc::new(MemoryStorage), provider, "test-cluster".to_string(), 45)
}

fn port(port: u16, node_port: Option<u16>) -> ServicePort {
    ServicePort { name: Some(format!("p{}", port)), port, target_port: None, protocol: None, node_port }
}

fn service(name: &str, ports: Vec<ServicePort>) -> Service {
    Service {
        metadata: ObjectMeta {
            name: name.to_string(),
            namespace: Some("prod".to_string()),
            annotations: None,
        },
        spec: ServiceSpec {
            cluster_ip: Some("10.96.0.1".to_string()),
            ports,
            service_type: Some(ServiceType::LoadBalancer),
            session_affinity: None,
            session_affinity_config: None,
        },
        status: None,
    }
}

fn node(addresses: Vec<(&str, &str)>) -> Node {
    Node {
        status: Some(NodeStatus {
            addresses: Some(
                addresses
                    .into_iter()
                    .map(|(kind, text)| NodeAddress {
                        address_type: kind.to_string(),
                        address: text.to_string(),
                    })
                    .collect(),
            ),
        }),
    }
}

fn failed() -> Answer {
    Answer::Failed { cause: "down".to_string() }
}

fn ingress() -> Answer {
    Answer::Balancer(vec![CloudIngress { ip: Some("1.2.3.4".to_string()), hostname: None }])
}

fn error_of(call: Call) -> (String, Option<String>) {
    match call {
        Call::Finish(Err(failure)) => (failure.context, failure.cause),
        _ => panic!("no error"),
    }
}

fn message(failure: Failure) -> String {
    failure.context
}

#[test]
fn test_controller_creation() {
    let storage = Arc::new(MemoryStorage);
    let controller: LoadBalancerController<MemoryStorage, Provider> =
        LoadBalancerController::new(storage, None, "test-cluster".to_string(), 30);

    assert_eq!(controller.cluster_name, "test-cluster");
    assert!(controller.cloud_provider.is_none());
    assert_eq!(controller.sync_interval_secs, 30);
}

#[test]
fn the_lowest_free_port_is_found() {
    let mut taken: HashSet<u16> = HashSet::new();
    assert_eq!(find_available_port(30000, 30002, &taken).ok(), Some(30000));
    taken.insert(30000);
    taken.insert(30002);
    assert_eq!(find_available_port(30000, 30002, &taken).ok(), Some(30001));
    assert_eq!(find_available_port(0, u16::MAX, &taken).ok(), Some(0));
    taken.insert(30001);
    match find_available_port(30000, 30002, &taken) {
        Ok(_) => panic!("nothing is free"),
        Err(failure) => assert_eq!(
            message(failure),
            "No available NodePorts in range 30000-30002. All 3 ports are allocated."
        ),
    }
}

#[test]
fn taken_ports_are_collected() {
    let services = vec![
        service("a", vec![port(80, Some(30001)), port(81, None)]),
        service("b", vec![port(80, Some(30001)), port(443, Some(31000))]),
    ];
    let taken = get_allocated_node_ports(&services);
    assert_eq!(taken.len(), 2);
    assert!(taken.contains(&30001));
    assert!(taken.contains(&31000));
}

#[test]
fn missing_node_ports_are_given_out() {
    let taken: HashSet<u16> = [30000u16, 30001].into_iter().collect();
    let updated = match allocate_node_ports(
        service("a", vec![port(80, None), port(443, Some(31000)), port(22, None)]),
        &taken,
    ) {
        Ok(s) => s,
        Err(_) => panic!("ports are free"),
    };
    let ports: Vec<Option<u16>> = updated.spec.ports.iter().map(|p| p.node_port).collect();
    assert_eq!(ports, vec![Some(30002), Some(31000), Some(30002)]);
    assert_eq!(updated.spec.ports[0].name, Some("p80".to_string()));
    assert_eq!(updated.metadata.name, "a");
    let all: HashSet<u16> = (30000u16..=32767).collect();
    match allocate_node_ports(service("a", vec![port(80, None)]), &all) {
        Ok(_) => panic!("nothing is free"),
        Err(failure) => assert_eq!(
            message(failure),
            "No available NodePorts in range 30000-32767. All 2768 ports are allocated."
        ),
    }
    assert!(allocate_node_ports(service("a", vec![port(80, Some(1))]), &all).is_ok());
}

#[test]
fn internal_addresses_of_nodes() {
    let nodes = vec![
        node(vec![("Hostname", "n1"), ("InternalIP", "10.1.0.1"), ("InternalIP", "10.1.0.9")]),
        node(vec![("ExternalIP", "8.8.8.8")]),
        Node { status: None },
        Node { status: Some(NodeStatus { addresses: None }) },
        node(vec![("InternalIP", "10.1.0.2")]),
    ];
    assert_eq!(node_addresses(&nodes), vec!["10.1.0.1", "10.1.0.2"]);
}

#[test]
fn keys_of_services() {
    let mut other = service("b", vec![]);
    other.metadata.namespace = None;
    assert_eq!(
        enqueue_all(&[service("a", vec![]), other]),
        vec!["services/prod/a", "services//b"]
    );
    for key in ["services/prod/a", "services//b", "x/y/z/w", "", "a", "a/b", "//", "/a/"] {
        let parts: Vec<&str> = key.splitn(3, '/').collect();
        let expected = match parts.len() {
            3 => Some((parts[1].to_string(), parts[2].to_string())),
            _ => None,
        };
        assert_eq!(split_key(key), expected, "{}", key);
    }
}

#[test]
fn watching() {
    let c = controller(true);
    let names = |event: WatchEvent| -> Vec<String> {
        c.run(event)
            .into_iter()
            .map(|a| match a {
                WatchAction::EnqueueAll => "all".to_string(),
                WatchAction::Sleep { seconds } => format!("sleep {}", seconds),
                WatchAction::Connect => "connect".to_string(),
                WatchAction::Resync { seconds } => format!("resync {}", seconds),
                WatchAction::Add { key } => format!("add {}", key),
            })
            .collect()
    };
    assert_eq!(names(WatchEvent::Started), vec!["all", "connect"]);
    assert_eq!(names(WatchEvent::Refused), vec!["sleep 45", "all", "connect"]);
    assert_eq!(names(WatchEvent::Established), vec!["resync 30"]);
    assert_eq!(names(WatchEvent::Changed { key: "services/a/b".to_string() }), vec!["add services/a/b"]);
    assert_eq!(names(WatchEvent::Lost), vec!["all", "connect"]);
    assert_eq!(names(WatchEvent::Tick), vec!["all"]);
}

fn reconciliation(s: Service) -> Reconciliation {
    Reconciliation::new(s, "test-cluster".to_string(), vec!["10.1.0.1".to_string()])
}

fn request_of(call: Call) -> LoadBalancerService {
    match call {
        Call::Ensure(request) => request,
        _ => panic!("no request"),
    }
}

#[test]
fn a_service_with_node_ports_is_reconciled() {
    let mut s = service("web", vec![port(80, Some(30080)), port(53, Some(30053))]);
    s.spec.ports[1].protocol = Some("UDP".to_string());
    s.spec.session_affinity = Some("ClientIP".to_string());
    let mut annotations = Table::new();
    annotations.insert("zone".to_string(), "a".to_string());
    s.metadata.annotations = Some(annotations);
    let mut r = reconciliation(s);
    let request = request_of(r.start());
    assert_eq!(request.namespace, "prod");
    assert_eq!(request.name, "web");
    assert_eq!(request.cluster_name, "test-cluster");
    assert_eq!(request.node_addresses, vec!["10.1.0.1"]);
    assert_eq!(request.session_affinity, Some("ClientIP".to_string()));
    assert_eq!(request.annotations.get("zone"), Some(&"a".to_string()));
    assert_eq!(request.ports.len(), 2);
    assert_eq!(request.ports[0].protocol, "TCP");
    assert_eq!(request.ports[0].port, 80);
    assert_eq!(request.ports[0].node_port, 30080);
    assert_eq!(request.ports[1].protocol, "UDP");
    assert!(matches!(r.react(ingress()), Call::Get { .. }));
    let mut stored = service("web", vec![port(80, Some(30080))]);
    stored.status = Some(ServiceStatus {
        load_balancer: Some(LoadBalancerStatus {
            ingress: vec![LoadBalancerIngress {
                ip: Some("9.9.9.9".to_string()),
                hostname: None,
                ip_mode: Some("VIP".to_string()),
                ports: None,
            }],
        }),
        conditions: Some(vec![Condition {
            condition_type: "Ready".to_string(),
            status: "True".to_string(),
            observed_generation: None,
            last_transition_time: None,
            reason: None,
            message: None,
        }]),
    });
    match r.react(Answer::Service(stored)) {
        Call::Update { namespace, name, service } => {
            assert_eq!(namespace, "prod");
            assert_eq!(name, "web");
            let status = service.status.unwrap();
            assert_eq!(status.conditions.unwrap()[0].condition_type, "Ready");
            let points = status.load_balancer.unwrap().ingress;
            assert_eq!(points.len(), 1);
            assert_eq!(points[0].ip, Some("1.2.3.4".to_string()));
            assert!(points[0].ip_mode.is_none());
            assert!(points[0].ports.is_none());
        }
        _ => panic!("no update"),
    }
    assert!(matches!(r.react(Answer::Done), Call::Finish(Ok(()))));
    assert!(matches!(r.react(failed()), Call::Finish(Ok(()))));
}

#[test]
fn node_ports_are_stored_before_the_balancer_is_asked_for() {
    let mut r = reconciliation(service("web", vec![port(80, None)]));
    assert!(matches!(r.start(), Call::ListServices));
    let listed = vec![service("other", vec![port(80, Some(30000))])];
    match r.react(Answer::Services(listed)) {
        Call::Update { namespace, name, service } => {
            assert_eq!(namespace, "prod");
            assert_eq!(name, "web");
            assert_eq!(service.spec.ports[0].node_port, Some(30001));
        }
        _ => panic!("no update"),
    }
    let request = request_of(r.react(Answer::Done));
    assert_eq!(request.ports[0].node_port, 30001);
    assert!(request.annotations.get("zone").is_none());
}

#[test]
fn each_failing_call_ends_the_reconciliation() {
    let down = Some("down".to_string());
    let mut homeless = service("web", vec![]);
    homeless.metadata.namespace = None;
    assert_eq!(
        error_of(reconciliation(homeless).start()),
        ("Service has no namespace".to_string(), None)
    );

    let mut r = reconciliation(service("web", vec![port(80, None)]));
    r.start();
    assert_eq!(error_of(r.react(failed())), ("Failed to list services".to_string(), down.clone()));

    let mut r = reconciliation(service("web", vec![port(80, None)]));
    r.start();
    let full: Vec<ServicePort> = (30000u16..=32767).map(|p| port(1, Some(p))).collect();
    assert_eq!(
        error_of(r.react(Answer::Services(vec![service("full", full)]))).0,
        "No available NodePorts in range 30000-32767. All 2768 ports are allocated."
    );

    let mut r = reconciliation(service("web", vec![port(80, None)]));
    r.start();
    r.react(Answer::Services(vec![]));
    assert_eq!(
        error_of(r.react(failed())),
        ("Failed to update service with NodePorts".to_string(), down.clone())
    );

    let mut r = reconciliation(service("web", vec![]));
    r.start();
    assert_eq!(
        error_of(r.react(failed())),
        ("Failed to ensure load balancer".to_string(), down.clone())
    );

    let mut r = reconciliation(service("web", vec![]));
    r.start();
    r.react(ingress());
    assert_eq!(error_of(r.react(failed())), ("Failed to get service".to_string(), down.clone()));

    let mut r = reconciliation(service("web", vec![]));
    r.start();
    r.react(ingress());
    r.react(Answer::Service(service("web", vec![])));
    assert_eq!(
        error_of(r.react(failed())),
        ("Failed to update service status".to_string(), down)
    );
}

#[test]
fn an_answer_to_another_call_is_an_error() {
    let mut r = reconciliation(service("web", vec![]));
    r.start();
    assert_eq!(
        error_of(r.react(Answer::Done)),
        ("Failed to ensure load balancer".to_string(), Some("unexpected answer".to_string()))
    );
}

#[test]
fn keys_without_service_are_dropped() {
    let mut w = controller(true).worker("services".to_string());
    assert!(matches!(w.start(), Call::Conclude(Verdict::Drop)));
}

#[test]
fn keys_with_nothing_to_balance_are_forgotten() {
    let key = || "services/prod/web".to_string();
    let mut w = controller(true).worker(key());
    match w.start() {
        Call::Get { namespace, name } => {
            assert_eq!(namespace, "prod");
            assert_eq!(name, "web");
        }
        _ => panic!("no read"),
    }
    assert!(matches!(w.react(failed()), Call::Conclude(Verdict::Forget)));

    let mut w = controller(false).worker(key());
    w.start();
    assert!(matches!(
        w.react(Answer::Service(service("web", vec![]))),
        Call::Conclude(Verdict::Forget)
    ));

    for kind in [None, Some(ServiceType::ClusterIP), Some(ServiceType::NodePort)] {
        let mut s = service("web", vec![]);
        s.spec.service_type = kind;
        let mut w = controller(true).worker(key());
        w.start();
        assert!(matches!(w.react(Answer::Service(s)), Call::Conclude(Verdict::Forget)));
    }
}

#[test]
fn failing_keys_come_back() {
    let mut w = controller(true).worker("services/prod/web".to_string());
    w.start();
    assert!(matches!(w.react(Answer::Service(service("web", vec![]))), Call::ListNodes));
    let request = request_of(w.react(failed()));
    assert!(request.node_addresses.is_empty());
    match w.react(failed()) {
        Call::Conclude(Verdict::Retry(failure)) => {
            assert_eq!(failure.context, "Failed to ensure load balancer");
        }
        _ => panic!("not a retry"),
    }

    let mut w = controller(true).worker("services/prod/web".to_string());
    w.start();
    w.react(Answer::Service(service("web", vec![])));
    let request = request_of(w.react(Answer::Nodes(vec![node(vec![("InternalIP", "10.1.0.1")])])));
    assert_eq!(request.node_addresses, vec!["10.1.0.1"]);
    w.react(ingress());
    w.react(Answer::Service(service("web", vec![])));
    assert!(matches!(w.react(Answer::Done), Call::Conclude(Verdict::Forget)));
}

#[test]
fn without_provider_nothing_is_called() {
    let mut sweep = controller(false).reconcile_all();
    assert!(matches!(sweep.start(), Call::Finish(Ok(()))));
}

#[test]
fn a_sweep_needs_its_lists() {
    let mut sweep = controller(true).reconcile_all();
    assert!(matches!(sweep.start(), Call::ListServices));
    assert_eq!(
        error_of(sweep.react(failed())),
        ("Failed to list services".to_string(), Some("down".to_string()))
    );
    let mut sweep = controller(true).reconcile_all();
    sweep.start();
    assert!(matches!(sweep.react(Answer::Services(vec![])), Call::ListNodes));
    assert_eq!(
        error_of(sweep.react(failed())),
        ("Failed to list nodes".to_string(), Some("down".to_string()))
    );
}

#[test]
fn one_failing_service_does_not_stop_the_others() {
    let mut plain = service("plain", vec![]);
    plain.spec.service_type = None;
    let mut homeless = service("homeless", vec![]);
    homeless.metadata.namespace = None;
    let services = vec![service("a", vec![]), plain, homeless, service("b", vec![])];
    let mut sweep = controller(true).reconcile_all();
    sweep.start();
    sweep.react(Answer::Services(services));
    let mut reports: Vec<String> = Vec::new();
    let mut call = sweep.react(Answer::Nodes(vec![node(vec![("InternalIP", "10.1.0.1")])]));
    loop {
        let answer = match call {
            Call::Ensure(request) => {
                assert_eq!(request.node_addresses, vec!["10.1.0.1"]);
                if request.name == "a" {
                    failed()
                } else {
                    ingress()
                }
            }
            Call::Get { name, .. } => Answer::Service(service(&name, vec![])),
            Call::Update { .. } => Answer::Done,
            Call::Report { namespace, name, result } => {
                let text = match result {
                    Ok(()) => "ok".to_string(),
                    Err(failure) => failure.context,
                };
                reports.push(format!("{}/{}: {}", namespace, name, text));
                Answer::Done
            }
            Call::Finish(result) => {
                assert!(result.is_ok());
                break;
            }
            _ => panic!("unexpected call"),
        };
        call = sweep.react(answer);
    }
    assert_eq!(
        reports,
        vec![
            "prod/a: Failed to ensure load balancer",
            "unknown/homeless: Service has no namespace",
            "prod/b: ok",
        ]
    );
}

#[test]
fn removing_a_balancer() {
    assert!(controller(false).cleanup_service("prod", "web").is_none());
    match controller(true).cleanup_service("prod", "web") {
        Some(Call::Delete { namespace, name }) => {
            assert_eq!(namespace, "prod");
            assert_eq!(name, "web");
        }
        _ => panic!("no removal"),
    }
    assert!(cleanup_result(Answer::Done).is_ok());
    match cleanup_result(failed()) {
        Ok(()) => panic!("no error"),
        Err(failure) => {
            assert_eq!(failure.context, "Failed to delete load balancer");
            assert_eq!(failure.cause, Some("down".to_string()));
        }
    }
}
