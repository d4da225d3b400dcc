use rusternetes_services::balance::Group;
use rusternetes_services::iptables::IptablesManager;
use rusternetes_services::nat_table::SliceEndpoint;
use rusternetes_services::service::{
    ClientIPConfig, IntOrString, ObjectMeta, Service, ServicePort, ServiceSpec,
    SessionAffinityConfig,
};
use rusternetes_services::session::{Action, Outcome, Session};
use rusternetes_services::table::Table;

fn manager(recent: bool, hashlimit: bool) -> IptablesManager {
    IptablesManager::with_modules("/usr/sbin/iptables".to_string(), recent, hashlimit)
}

fn port(port: u16) -> ServicePort {
    ServicePort { name: None, port, target_port: None, protocol: None, node_port: None }
}

fn service(ip: Option<&str>, ports: Vec<ServicePort>) -> Service {
    Service {
        metadata: ObjectMeta {
            name: "web".to_string(),
            namespace: Some("prod".to_string()),
            annotations: None,
        },
        spec: ServiceSpec {
            cluster_ip: ip.map(|t| t.to_string()),
            ports,
            service_type: None,
            session_affinity: None,
            session_affinity_config: None,
        },
        status: None,
    }
}

fn slice(ip: &str, name: Option<&str>, port: u16) -> SliceEndpoint {
    (ip.to_string(), name.map(|n| n.to_string()), port)
}

fn slices(key: &str, endpoints: Vec<SliceEndpoint>) -> Table<Vec<SliceEndpoint>> {
    let mut table = Table::new();
    table.insert(key.to_string(), endpoints);
    table
}

fn endpoints(n: usize) -> Vec<(String, u16)> {
    (0..n).map(|i| (format!("10.0.0.{}", i + 1), 8080)).collect()
}

/// Runs a session whose commands all succeed, and gives the commands.
fn commands(mut session: Session) -> Vec<String> {
    let mut run = Vec::new();
    let mut action = session.start();
    loop {
        match action {
            Action::Run(i) => run.push(format!("{} {}", i.program, i.args.join(" "))),
            Action::Finish(result) => {
                assert!(result.is_ok());
                return run;
            }
            _ => panic!("not a command"),
        }
        action = session.advance(Outcome::Ran { success: true, stdout: vec![], stderr: vec![] });
    }
}

#[test]
fn test_sep_chain_name_format() {
    let service_ip = "10.96.0.1";
    let port: u16 = 80;
    let idx = 0;
    let chain = Group::for_service(service_ip, port).chain(idx);
    assert_eq!(chain, "KUBE-SEP-109601-80-0");

    let node_port: u16 = 30080;
    let np_chain = Group::for_node_port(node_port).chain(idx);
    assert_eq!(np_chain, "KUBE-NP-SEP-30080-0");
}

#[test]
fn client_lists_are_named_like_chains() {
    assert_eq!(Group::for_service("10.96.0.1", 80).list(1), "AFFINITY-109601-80-1");
    assert_eq!(Group::for_node_port(30080).list(1), "NP-AFFINITY-30080-1");
}

#[test]
fn direct_rules_of_an_address() {
    let mut m = manager(true, true);
    let run = commands(m.add_clusterip_rules("10.96.0.1", 80, &endpoints(3), "TCP", false, 10800));
    assert_eq!(
        run,
        vec![
            "/usr/sbin/iptables -t nat -A RUSTERNETES-SERVICES -d 10.96.0.1 -p tcp --dport 80 -m statistic --mode random --probability 0.3333333333 -j DNAT --to-destination 10.0.0.1:8080 -m comment --comment rusternetes service 10.96.0.1:80",
            "/usr/sbin/iptables -t nat -A RUSTERNETES-SERVICES -d 10.96.0.1 -p tcp --dport 80 -m statistic --mode random --probability 0.5000000000 -j DNAT --to-destination 10.0.0.2:8080 -m comment --comment rusternetes service 10.96.0.1:80",
            "/usr/sbin/iptables -t nat -A RUSTERNETES-SERVICES -d 10.96.0.1 -p tcp --dport 80 -j DNAT --to-destination 10.0.0.3:8080 -m comment --comment rusternetes service 10.96.0.1:80",
        ]
    );
    assert!(m.take_sep_chains().is_empty());
}

#[test]
fn sticky_rules_of_an_address() {
    let mut m = manager(true, true);
    let run = commands(m.add_clusterip_rules("10.96.0.1", 80, &endpoints(2), "UDP", true, 600));
    assert_eq!(
        run,
        vec![
            "/usr/sbin/iptables -t nat -N KUBE-SEP-109601-80-0",
            "/usr/sbin/iptables -t nat -A KUBE-SEP-109601-80-0 -m recent --name AFFINITY-109601-80-0 --set",
            "/usr/sbin/iptables -t nat -A KUBE-SEP-109601-80-0 -p udp -j DNAT --to-destination 10.0.0.1:8080",
            "/usr/sbin/iptables -t nat -A RUSTERNETES-SERVICES -d 10.96.0.1 -p udp --dport 80 -m recent --name AFFINITY-109601-80-0 --rcheck --seconds 600 --reap -j KUBE-SEP-109601-80-0",
            "/usr/sbin/iptables -t nat -N KUBE-SEP-109601-80-1",
            "/usr/sbin/iptables -t nat -A KUBE-SEP-109601-80-1 -m recent --name AFFINITY-109601-80-1 --set",
            "/usr/sbin/iptables -t nat -A KUBE-SEP-109601-80-1 -p udp -j DNAT --to-destination 10.0.0.2:8080",
            "/usr/sbin/iptables -t nat -A RUSTERNETES-SERVICES -d 10.96.0.1 -p udp --dport 80 -m recent --name AFFINITY-109601-80-1 --rcheck --seconds 600 --reap -j KUBE-SEP-109601-80-1",
            "/usr/sbin/iptables -t nat -A RUSTERNETES-SERVICES -d 10.96.0.1 -p udp --dport 80 -m statistic --mode random --probability 0.5000000000 -j KUBE-SEP-109601-80-0",
            "/usr/sbin/iptables -t nat -A RUSTERNETES-SERVICES -d 10.96.0.1 -p udp --dport 80 -j KUBE-SEP-109601-80-1",
        ]
    );
    assert_eq!(m.take_sep_chains(), vec!["KUBE-SEP-109601-80-0", "KUBE-SEP-109601-80-1"]);
}

#[test]
fn affinity_needs_two_endpoints_and_the_module() {
    let mut m = manager(true, true);
    let one = commands(m.add_clusterip_rules("10.96.0.1", 80, &endpoints(1), "TCP", true, 600));
    assert_eq!(
        one,
        vec!["/usr/sbin/iptables -t nat -A RUSTERNETES-SERVICES -d 10.96.0.1 -p tcp --dport 80 -j DNAT --to-destination 10.0.0.1:8080 -m comment --comment rusternetes service 10.96.0.1:80"]
    );
    let mut m = manager(false, true);
    let without = commands(m.add_clusterip_rules("10.96.0.1", 80, &endpoints(2), "TCP", true, 600));
    assert_eq!(without.len(), 2);
    assert!(without[0].contains("-j DNAT --to-destination 10.0.0.1:8080"));
}

#[test]
fn no_endpoints_no_commands() {
    let mut m = manager(true, true);
    assert!(commands(m.add_clusterip_rules("10.96.0.1", 80, &[], "TCP", true, 600)).is_empty());
    assert!(commands(m.add_nodeport_rules(30080, &[], "TCP", true, 600)).is_empty());
    assert!(m.take_sep_chains().is_empty());
}

#[test]
fn rules_of_a_node_port() {
    let mut m = manager(true, false);
    let direct = commands(m.add_nodeport_rules(30080, &endpoints(2), "TCP", false, 10800));
    assert_eq!(
        direct,
        vec![
            "/usr/sbin/iptables -t nat -A RUSTERNETES-NODEPORTS -p tcp --dport 30080 -m statistic --mode random --probability 0.5000000000 -j DNAT --to-destination 10.0.0.1:8080 -m comment --comment rusternetes nodeport 30080",
            "/usr/sbin/iptables -t nat -A RUSTERNETES-NODEPORTS -p tcp --dport 30080 -j DNAT --to-destination 10.0.0.2:8080 -m comment --comment rusternetes nodeport 30080",
        ]
    );
    let sticky = commands(m.add_nodeport_rules(30080, &endpoints(2), "TCP", true, 10800));
    assert_eq!(sticky.len(), 10);
    assert_eq!(sticky[0], "/usr/sbin/iptables -t nat -N KUBE-NP-SEP-30080-0");
    assert_eq!(
        sticky[3],
        "/usr/sbin/iptables -t nat -A RUSTERNETES-NODEPORTS -p tcp --dport 30080 -m recent --name NP-AFFINITY-30080-0 --rcheck --seconds 10800 --reap -j KUBE-NP-SEP-30080-0"
    );
    assert_eq!(m.take_sep_chains(), vec!["KUBE-NP-SEP-30080-0", "KUBE-NP-SEP-30080-1"]);
}

#[test]
fn document_without_services() {
    let m = manager(true, true);
    assert_eq!(
        m.build_nat_rules(&[], &Table::new()),
        "*nat\n:RUSTERNETES-SERVICES - [0:0]\n:RUSTERNETES-NODEPORTS - [0:0]\nCOMMIT\n"
    );
}

#[test]
fn document_with_direct_rules() {
    let m = manager(true, true);
    let mut p = port(80);
    p.node_port = Some(30080);
    p.protocol = Some("TCP".to_string());
    let services = [service(Some("10.96.0.1"), vec![p])];
    let table = slices("prod/web", vec![slice("10.0.0.1", None, 8080), slice("10.0.0.2", None, 8080)]);
    assert_eq!(
        m.build_nat_rules(&services, &table),
        "*nat\n\
         :RUSTERNETES-SERVICES - [0:0]\n\
         :RUSTERNETES-NODEPORTS - [0:0]\n\
         -A RUSTERNETES-SERVICES -d 10.96.0.1/32 -p tcp --dport 80 -m statistic --mode random --probability 0.5000000000 -j DNAT --to-destination 10.0.0.1:8080 -m comment --comment \"rusternetes service 10.96.0.1:80\"\n\
         -A RUSTERNETES-SERVICES -d 10.96.0.1/32 -p tcp --dport 80 -j DNAT --to-destination 10.0.0.2:8080 -m comment --comment \"rusternetes service 10.96.0.1:80\"\n\
         -A RUSTERNETES-NODEPORTS -p tcp --dport 30080 -m statistic --mode random --probability 0.5000000000 -j DNAT --to-destination 10.0.0.1:8080\n\
         -A RUSTERNETES-NODEPORTS -p tcp --dport 30080 -j DNAT --to-destination 10.0.0.2:8080\n\
         COMMIT\n"
    );
}

fn sticky_service(seconds: Option<i32>) -> Service {
    let mut p = port(80);
    p.node_port = Some(30080);
    let mut s = service(Some("10.96.0.1"), vec![p]);
    s.spec.session_affinity = Some("ClientIP".to_string());
    s.spec.session_affinity_config = seconds.map(|t| SessionAffinityConfig {
        client_ip: Some(ClientIPConfig { timeout_seconds: Some(t) }),
    });
    s
}

#[test]
fn document_with_recent_lists() {
    let m = manager(true, true);
    let table = slices("prod/web", vec![slice("10.0.0.1", None, 8080), slice("10.0.0.2", None, 8081)]);
    assert_eq!(
        m.build_nat_rules(&[sticky_service(Some(60))], &table),
        "*nat\n\
         :RUSTERNETES-SERVICES - [0:0]\n\
         :RUSTERNETES-NODEPORTS - [0:0]\n\
         :KUBE-SEP-109601-80-0 - [0:0]\n\
         -A KUBE-SEP-109601-80-0 -m recent --name AFFINITY-109601-80-0 --set\n\
         -A KUBE-SEP-109601-80-0 -p tcp -j DNAT --to-destination 10.0.0.1:8080\n\
         -A RUSTERNETES-SERVICES -d 10.96.0.1/32 -p tcp --dport 80 -m recent --name AFFINITY-109601-80-0 --rcheck --seconds 60 --reap -j KUBE-SEP-109601-80-0\n\
         :KUBE-SEP-109601-80-1 - [0:0]\n\
         -A KUBE-SEP-109601-80-1 -m recent --name AFFINITY-109601-80-1 --set\n\
         -A KUBE-SEP-109601-80-1 -p tcp -j DNAT --to-destination 10.0.0.2:8081\n\
         -A RUSTERNETES-SERVICES -d 10.96.0.1/32 -p tcp --dport 80 -m recent --name AFFINITY-109601-80-1 --rcheck --seconds 60 --reap -j KUBE-SEP-109601-80-1\n\
         -A RUSTERNETES-SERVICES -d 10.96.0.1/32 -p tcp --dport 80 -m statistic --mode random --probability 0.5000000000 -j KUBE-SEP-109601-80-0\n\
         -A RUSTERNETES-SERVICES -d 10.96.0.1/32 -p tcp --dport 80 -j KUBE-SEP-109601-80-1\n\
         -A RUSTERNETES-NODEPORTS -p tcp --dport 30080 -m recent --name AFFINITY-109601-80-0 --rcheck --seconds 60 --reap -j KUBE-SEP-109601-80-0\n\
         -A RUSTERNETES-NODEPORTS -p tcp --dport 30080 -m recent --name AFFINITY-109601-80-1 --rcheck --seconds 60 --reap -j KUBE-SEP-109601-80-1\n\
         -A RUSTERNETES-NODEPORTS -p tcp --dport 30080 -m statistic --mode random --probability 0.5000000000 -j KUBE-SEP-109601-80-0\n\
         -A RUSTERNETES-NODEPORTS -p tcp --dport 30080 -j KUBE-SEP-109601-80-1\n\
         COMMIT\n"
    );
}

#[test]
fn document_with_marks() {
    let m = manager(false, true);
    let table = slices("prod/web", vec![slice("10.0.0.1", None, 8080), slice("10.0.0.2", None, 8081)]);
    assert_eq!(
        m.build_nat_rules(&[sticky_service(None)], &table),
        "*nat\n\
         :RUSTERNETES-SERVICES - [0:0]\n\
         :RUSTERNETES-NODEPORTS - [0:0]\n\
         :KUBE-SEP-109601-80-0 - [0:0]\n\
         -A KUBE-SEP-109601-80-0 -j CONNMARK --set-mark 16384\n\
         -A KUBE-SEP-109601-80-0 -p tcp -j DNAT --to-destination 10.0.0.1:8080\n\
         -A RUSTERNETES-SERVICES -d 10.96.0.1/32 -p tcp --dport 80 -m connmark --mark 16384 -j KUBE-SEP-109601-80-0\n\
         :KUBE-SEP-109601-80-1 - [0:0]\n\
         -A KUBE-SEP-109601-80-1 -j CONNMARK --set-mark 16385\n\
         -A KUBE-SEP-109601-80-1 -p tcp -j DNAT --to-destination 10.0.0.2:8081\n\
         -A RUSTERNETES-SERVICES -d 10.96.0.1/32 -p tcp --dport 80 -m connmark --mark 16385 -j KUBE-SEP-109601-80-1\n\
         -A RUSTERNETES-SERVICES -d 10.96.0.1/32 -p tcp --dport 80 -m statistic --mode random --probability 0.5000000000 -j KUBE-SEP-109601-80-0\n\
         -A RUSTERNETES-SERVICES -d 10.96.0.1/32 -p tcp --dport 80 -j KUBE-SEP-109601-80-1\n\
         -A RUSTERNETES-NODEPORTS -p tcp --dport 30080 -m connmark --mark 16384 -j KUBE-SEP-109601-80-0\n\
         -A RUSTERNETES-NODEPORTS -p tcp --dport 30080 -m connmark --mark 16385 -j KUBE-SEP-109601-80-1\n\
         -A RUSTERNETES-NODEPORTS -p tcp --dport 30080 -m statistic --mode random --probability 0.5000000000 -j KUBE-SEP-109601-80-0\n\
         -A RUSTERNETES-NODEPORTS -p tcp --dport 30080 -j KUBE-SEP-109601-80-1\n\
         COMMIT\n"
    );
}

#[test]
fn affinity_lasts_three_hours_by_default() {
    let m = manager(true, false);
    let table = slices("prod/web", vec![slice("10.0.0.1", None, 8080), slice("10.0.0.2", None, 8081)]);
    let text = m.build_nat_rules(&[sticky_service(None)], &table);
    assert!(text.contains("--rcheck --seconds 10800 --reap"));
}

#[test]
fn without_modules_there_is_no_affinity() {
    let m = manager(false, false);
    let table = slices("prod/web", vec![slice("10.0.0.1", None, 8080), slice("10.0.0.2", None, 8081)]);
    let text = m.build_nat_rules(&[sticky_service(None)], &table);
    assert!(!text.contains("KUBE-SEP"));
    assert!(text.contains("-j DNAT --to-destination 10.0.0.1:8080"));
}

#[test]
fn headless_services_have_no_rules() {
    let m = manager(true, true);
    let table = slices("prod/web", vec![slice("10.0.0.1", None, 80)]);
    for ip in [None, Some(""), Some("None")] {
        let text = m.build_nat_rules(&[service(ip, vec![port(80)])], &table);
        assert_eq!(
            text,
            "*nat\n:RUSTERNETES-SERVICES - [0:0]\n:RUSTERNETES-NODEPORTS - [0:0]\nCOMMIT\n"
        );
    }
}

/// The endpoints to which the document sends packets, in order.
fn reached(text: &str) -> Vec<String> {
    text.lines()
        .filter(|l| l.contains("--to-destination"))
        .map(|l| {
            let words: Vec<&str> = l.split_whitespace().collect();
            let at = words.iter().position(|w| *w == "--to-destination").unwrap();
            words[at + 1].to_string()
        })
        .collect()
}

#[test]
fn endpoints_are_matched_to_ports() {
    let m = manager(true, true);
    let announced = vec![
        slice("10.0.0.1", Some("http"), 8080),
        slice("10.0.0.2", Some("metrics"), 9090),
        slice("10.0.0.3", None, 443),
        slice("10.0.0.4", None, 7000),
    ];
    let table = slices("prod/web", announced);
    let named = ServicePort {
        name: Some("http".to_string()),
        port: 80,
        target_port: Some(IntOrString::String("http".to_string())),
        protocol: None,
        node_port: None,
    };
    let by_number = ServicePort {
        name: Some("m".to_string()),
        port: 81,
        target_port: Some(IntOrString::Int(9090)),
        protocol: None,
        node_port: None,
    };
    let by_text = ServicePort {
        name: None,
        port: 82,
        target_port: Some(IntOrString::String("7000".to_string())),
        protocol: None,
        node_port: None,
    };
    let own = port(443);
    let text = m.build_nat_rules(
        &[service(Some("10.96.0.1"), vec![named, by_number, by_text, own])],
        &table,
    );
    assert_eq!(
        reached(&text),
        vec!["10.0.0.1:8080", "10.0.0.2:9090", "10.0.0.4:7000", "10.0.0.3:443"]
    );
}

#[test]
fn a_single_port_takes_all_endpoints() {
    let m = manager(true, true);
    let table = slices("prod/web", vec![slice("10.0.0.1", Some("x"), 1), slice("10.0.0.2", None, 2)]);
    let text = m.build_nat_rules(&[service(Some("10.96.0.1"), vec![port(80)])], &table);
    assert_eq!(reached(&text), vec!["10.0.0.1:1", "10.0.0.2:2"]);
}

#[test]
fn target_ports_wrap_around() {
    let m = manager(true, true);
    let table = slices("prod/web", vec![slice("10.0.0.1", None, 1)]);
    for (target, reach) in [(65537, true), (-65535, true), (2, false)] {
        let mut p = port(80);
        p.target_port = Some(IntOrString::Int(target));
        let text = m.build_nat_rules(&[service(Some("10.96.0.1"), vec![p, port(81)])], &table);
        assert_eq!(!reached(&text).is_empty(), reach);
    }
}

#[test]
fn services_without_namespace_are_in_the_default_one() {
    let m = manager(true, true);
    let mut s = service(Some("10.96.0.1"), vec![port(80)]);
    s.metadata.namespace = None;
    let table = slices("default/web", vec![slice("10.0.0.1", None, 80)]);
    assert_eq!(reached(&m.build_nat_rules(&[s], &table)), vec!["10.0.0.1:80"]);
}

#[test]
fn node_port_zero_is_none() {
    let m = manager(true, true);
    let mut p = port(80);
    p.node_port = Some(0);
    let table = slices("prod/web", vec![slice("10.0.0.1", None, 80)]);
    let text = m.build_nat_rules(&[service(Some("10.96.0.1"), vec![p])], &table);
    assert_eq!(reached(&text).len(), 1);
}

#[test]
fn protocols_are_written_in_lower_case() {
    let m = manager(true, true);
    let mut p = port(80);
    p.protocol = Some("SCTP".to_string());
    let table = slices("prod/web", vec![slice("10.0.0.1", None, 80)]);
    let text = m.build_nat_rules(&[service(Some("10.96.0.1"), vec![p])], &table);
    assert!(text.contains(" -p sctp "));
}

#[test]
fn rules_use_only_declared_chains() {
    let m = manager(true, true);
    let table = slices(
        "prod/web",
        vec![slice("10.0.0.1", None, 8080), slice("10.0.0.2", None, 8081), slice("10.0.0.3", None, 1)],
    );
    let text = m.build_nat_rules(&[sticky_service(None)], &table);
    let mut declared: Vec<String> = Vec::new();
    for line in text.lines() {
        if let Some(rest) = line.strip_prefix(':') {
            declared.push(rest.split_whitespace().next().unwrap().to_string());
        }
        if let Some(rest) = line.strip_prefix("-A ") {
            let home = rest.split_whitespace().next().unwrap().to_string();
            assert!(declared.contains(&home), "{}", home);
        }
        if let Some(at) = line.find("-j KUBE-SEP-") {
            let chain = line[at + 3..].split_whitespace().next().unwrap().to_string();
            assert!(declared.contains(&chain), "{}", chain);
        }
    }
    assert_eq!(declared.len(), 5);
}
