use rusternetes_services::balance::{balance, Affinity, Front, Group};
use rusternetes_services::iptables::IptablesManager;
use rusternetes_services::listing::find_leftovers;
use rusternetes_services::loadbalancer::{enqueue_all, split_key};
use rusternetes_services::rule::{command_args, restore_input, Matching, NatLine, Rule, Target};
use rusternetes_services::service::{
    ObjectMeta, Service, ServicePort, ServiceSpec,
};
use rusternetes_services::table::Table;

fn service(name: &str, ip: &str, port: u16, node_port: u16, sticky: bool) -> Service {
    Service {
        metadata: ObjectMeta {
            name: name.to_string(),
            namespace: Some("prod".to_string()),
            annotations: None,
        },
        spec: ServiceSpec {
            cluster_ip: Some(ip.to_string()),
            ports: vec![ServicePort {
                name: None,
                port,
                target_port: None,
                protocol: None,
                node_port: Some(node_port),
            }],
            service_type: None,
            session_affinity: if sticky { Some("ClientIP".to_string()) } else { None },
            session_affinity_config: None,
        },
        status: None,
    }
}

fn document(sticky: bool, recent: bool) -> String {
    let m = IptablesManager::with_modules("ipt".to_string(), recent, true);
    let mut table = Table::new();
    for (key, net) in [("prod/a", "10.0.1"), ("prod/b", "10.0.2")] {
        table.insert(
            key.to_string(),
            (1..=3).map(|i| (format!("{}.{}", net, i), None, 8080u16)).collect(),
        );
    }
    m.build_nat_rules(
        &[
            service("a", "10.96.0.1", 80, 30001, sticky),
            service("b", "10.96.0.2", 80, 30002, sticky),
        ],
        &table,
    )
}

/// Whether the words hold the flag with the value.
fn has(words: &[&str], flag: &str, value: &str) -> bool {
    words.windows(2).any(|w| w[0] == flag && w[1] == value)
}

fn value<'a>(words: &[&'a str], flag: &str) -> Option<&'a str> {
    words.windows(2).find(|w| w[0] == flag).map(|w| w[1])
}

/// Follows a packet through the chain: first match wins, jumps are followed.
fn follow(
    text: &str,
    chain: &str,
    destination: Option<&str>,
    dport: &str,
    met: &dyn Fn(&[&str]) -> bool,
) -> Option<String> {
    for line in text.lines() {
        let words: Vec<&str> = line.split_whitespace().collect();
        if !has(&words, "-A", chain) {
            continue;
        }
        if let Some(d) = value(&words, "-d") {
            if Some(d) != destination {
                continue;
            }
        }
        if let Some(p) = value(&words, "--dport") {
            if p != dport {
                continue;
            }
        }
        if has(&words, "-m", "recent") && words.contains(&"--rcheck") && !met(&words) {
            continue;
        }
        if (has(&words, "-m", "connmark") || has(&words, "-m", "statistic")) && !met(&words) {
            continue;
        }
        match value(&words, "-j") {
            Some("DNAT") => return value(&words, "--to-destination").map(|t| t.to_string()),
            Some("CONNMARK") | None => {}
            Some(next) => return follow(text, next, destination, dport, met),
        }
    }
    None
}

#[test]
fn returning_clients_keep_their_endpoint() {
    let text = document(true, true);
    for i in 0..3usize {
        let list = format!("AFFINITY-109601-80-{}", i);
        let met = |words: &[&str]| has(words, "--name", &list) || has(words, "-m", "statistic");
        let expected = Some(format!("10.0.1.{}:8080", i + 1));
        assert_eq!(
            follow(&text, "RUSTERNETES-SERVICES", Some("10.96.0.1/32"), "80", &met),
            expected
        );
        assert_eq!(follow(&text, "RUSTERNETES-NODEPORTS", None, "30001", &met), expected);
    }
}

#[test]
fn marked_connections_keep_their_endpoint() {
    let text = document(true, false);
    for i in 0..3usize {
        let mark = format!("{}", 0x4000 + i);
        let met = |words: &[&str]| has(words, "--mark", &mark) || has(words, "-m", "statistic");
        let expected = Some(format!("10.0.2.{}:8080", i + 1));
        assert_eq!(
            follow(&text, "RUSTERNETES-SERVICES", Some("10.96.0.2/32"), "80", &met),
            expected
        );
        assert_eq!(follow(&text, "RUSTERNETES-NODEPORTS", None, "30002", &met), expected);
    }
}

#[test]
fn new_clients_go_where_the_dice_say() {
    for (sticky, recent) in [(false, true), (true, true), (true, false)] {
        let text = document(sticky, recent);
        for (drawn, i) in [("0.3333333333", 1), ("0.5000000000", 2), ("never", 3)] {
            let met = |words: &[&str]| has(words, "--probability", drawn);
            assert_eq!(
                follow(&text, "RUSTERNETES-SERVICES", Some("10.96.0.1/32"), "80", &met),
                Some(format!("10.0.1.{}:8080", i))
            );
            assert_eq!(
                follow(&text, "RUSTERNETES-NODEPORTS", None, "30002", &met),
                Some(format!("10.0.2.{}:8080", i))
            );
        }
    }
}

fn front() -> Front {
    Front {
        chain: "FRONT".to_string(),
        destination: Some("10.96.0.1".to_string()),
        protocol: "tcp".to_string(),
        dport: 80,
        comment: Some("a comment".to_string()),
    }
}

#[test]
fn the_last_line_takes_what_is_left() {
    let endpoints: Vec<(String, u16)> = (1..=3).map(|i| (format!("10.0.0.{}", i), 80)).collect();
    for affinity in [Affinity::Off, Affinity::Recent { seconds: 5 }, Affinity::Connmark] {
        for with_chains in [true, false] {
            let lines = balance(
                &front(),
                &Group::for_service("10.96.0.1", 80),
                affinity,
                &endpoints,
                with_chains,
            );
            match lines.last() {
                Some(NatLine::Append(rule)) => {
                    assert_eq!(rule.chain, "FRONT");
                    assert_eq!(rule.dport, Some(80));
                    assert!(matches!(rule.matching, Matching::Any));
                }
                _ => panic!("no rule"),
            }
        }
    }
}

#[test]
fn packets_go_to_each_endpoint_and_nowhere_else() {
    let endpoints: Vec<(String, u16)> = (1..=3).map(|i| (format!("10.0.0.{}", i), 80)).collect();
    for affinity in [Affinity::Off, Affinity::Recent { seconds: 5 }, Affinity::Connmark] {
        let lines =
            balance(&front(), &Group::for_service("10.96.0.1", 80), affinity, &endpoints, true);
        let reached: Vec<(String, u16)> = lines
            .into_iter()
            .filter_map(|line| match line {
                NatLine::Append(Rule { target: Target::Dnat { ip, port }, .. }) => Some((ip, port)),
                _ => None,
            })
            .collect();
        assert_eq!(reached, endpoints);
    }
}

#[test]
fn both_forms_of_a_rule_say_the_same() {
    let lines = vec![NatLine::Append(Rule {
        chain: "C".to_string(),
        destination: Some("10.96.0.1/32".to_string()),
        protocol: Some("tcp".to_string()),
        dport: Some(80),
        matching: Matching::Statistic { weight: 2 },
        target: Target::Dnat { ip: "10.0.0.1".to_string(), port: 8080 },
        comment: None,
    })];
    let args = command_args(&lines[0]);
    assert_eq!(args[..2].join(" "), "-t nat");
    assert_eq!(restore_input(&lines), format!("*nat\n{}\nCOMMIT\n", args[2..].join(" ")));
    assert_eq!(
        args[2..].join(" "),
        "-A C -d 10.96.0.1/32 -p tcp --dport 80 -m statistic --mode random --probability 0.5000000000 -j DNAT --to-destination 10.0.0.1:8080"
    );
}

#[test]
fn names_of_endpoints_differ() {
    let mut names: Vec<String> = Vec::new();
    for port in [1u16, 11, 111] {
        for i in [0usize, 1, 11, 111] {
            names.push(Group::for_service("10.96.0.1", port).chain(i));
            names.push(Group::for_service("10.96.0.1", port).list(i));
            names.push(Group::for_service("10.96.0.2", port).chain(i));
            names.push(Group::for_node_port(port).chain(i));
            names.push(Group::for_node_port(port).list(i));
        }
    }
    let n = names.len();
    names.sort();
    names.dedup();
    assert_eq!(names.len(), n);
}

#[test]
fn own_chains_are_recognised_in_listings() {
    for chain in [
        Group::for_service("10.96.0.1", 80).chain(0),
        Group::for_service("fd00::1", 65535).chain(12),
        Group::for_node_port(30080).chain(7),
    ] {
        assert_eq!(find_leftovers(&format!("Chain {} (1 references)\n", chain)), vec![chain.clone()]);
        assert_eq!(find_leftovers(&format!("x\nChain {}", chain)), vec![chain]);
    }
}

#[test]
fn keys_give_back_namespace_and_name() {
    let keys = enqueue_all(&[service("web/x", "10.96.0.1", 80, 0, false)]);
    assert_eq!(split_key(&keys[0]), Some(("prod".to_string(), "web/x".to_string())));
}
