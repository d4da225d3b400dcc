use rusternetes_services::iptables::{
    backend_probe, detect_iptables_cmd, hashlimit_probe, recent_probe, IptablesManager,
};
use rusternetes_services::failure::Failure;
use rusternetes_services::listing::find_leftovers;
use rusternetes_services::session::{Action, Outcome, Session};

fn manager() -> IptablesManager {
    IptablesManager::with_modules("/usr/sbin/iptables-legacy".to_string(), true, true)
}

fn ok() -> Outcome {
    Outcome::Ran { success: true, stdout: b"x".to_vec(), stderr: vec![] }
}

fn rejected(stderr: &str) -> Outcome {
    Outcome::Ran { success: false, stdout: vec![], stderr: stderr.as_bytes().to_vec() }
}

fn unrun() -> Outcome {
    Outcome::Unrun { cause: "no such program".to_string() }
}

fn describe(action: &Action) -> String {
    match action {
        Action::Run(i) => format!("{} {}", i.program, i.args.join(" ")),
        Action::Probe(path) => format!("probe {}", path),
        Action::Write { path, contents } => format!("write {} to {}", contents, path),
        Action::TakeTracked => "take".to_string(),
        Action::Feed { invocation, input } => {
            format!("{} {} < {}", invocation.program, invocation.args.join(" "), input)
        }
        Action::Finish(_) => "finish".to_string(),
    }
}

/// Runs a session on a host that answers as told, and gives what it did and how it ended.
fn drive(
    mut session: Session,
    mut host: impl FnMut(&str) -> Outcome,
) -> (Vec<String>, Result<(), Failure>) {
    let mut done = Vec::new();
    let mut action = session.start();
    loop {
        let text = describe(&action);
        if let Action::Finish(result) = action {
            return (done, result);
        }
        let outcome = host(&text);
        done.push(text);
        assert!(done.len() < 1000);
        action = session.advance(outcome);
    }
}

fn error_of(result: Result<(), Failure>) -> (String, Option<String>) {
    match result {
        Ok(()) => panic!("no error"),
        Err(failure) => (failure.context, failure.cause),
    }
}

#[test]
fn test_sep_chain_tracking() {
    let mut m = manager();
    m.track_sep_chain("KUBE-SEP-10960001-80-0");
    m.track_sep_chain("KUBE-SEP-10960001-80-1");
    let taken = m.take_sep_chains();
    assert_eq!(taken.len(), 2);
    assert_eq!(taken[0], "KUBE-SEP-10960001-80-0");
    assert_eq!(taken[1], "KUBE-SEP-10960001-80-1");
    assert!(m.take_sep_chains().is_empty());
}

#[test]
fn backend_is_that_of_docker() {
    let listing = |text: &str| Outcome::Ran {
        success: true,
        stdout: text.as_bytes().to_vec(),
        stderr: vec![],
    };
    assert_eq!(detect_iptables_cmd(listing("DOCKER  all  --  0.0.0.0/0")), "/usr/sbin/iptables");
    assert_eq!(detect_iptables_cmd(listing("Chain PREROUTING")), "/usr/sbin/iptables-legacy");
    assert_eq!(detect_iptables_cmd(unrun()), "/usr/sbin/iptables-legacy");
    assert_eq!(backend_probe().program, "/usr/sbin/iptables");
    assert_eq!(backend_probe().args.join(" "), "-t nat -L PREROUTING -n");
}

#[test]
fn modules_are_probed() {
    assert_eq!(
        recent_probe("ipt").args.join(" "),
        "-t nat -C OUTPUT -m recent --name __probe__ --rcheck -j RETURN"
    );
    assert_eq!(
        hashlimit_probe("ipt").args.join(" "),
        "-t nat -C OUTPUT -m hashlimit --hashlimit-name __probe__ --hashlimit-mode srcip --hashlimit-above 1/sec -j RETURN"
    );
    let there = || rejected("iptables: Bad rule (does a matching rule exist in that chain?).");
    let missing = || rejected("iptables v1.8: Couldn't load match `recent':No such file or directory");
    let m = IptablesManager::new("ipt".to_string(), there(), missing());
    assert_eq!(m.services_chain, "RUSTERNETES-SERVICES");
    assert_eq!(m.nodeports_chain, "RUSTERNETES-NODEPORTS");
    assert_eq!(m.iptables_cmd, "ipt");
    assert!(m.recent_available);
    assert!(!m.hashlimit_available);
    let m = IptablesManager::new("ipt".to_string(), unrun(), rejected("No such file"));
    assert!(!m.recent_available);
    assert!(!m.hashlimit_available);
}

#[test]
fn setting_up_a_bare_host() {
    let cmd = "/usr/sbin/iptables-legacy";
    let (done, result) = drive(manager().initialize(), |text| {
        if text.contains(" -C ") || text.starts_with("probe") {
            rejected("")
        } else if text == "ip route show 10.96.0.0/12" {
            Outcome::Ran { success: true, stdout: vec![], stderr: vec![] }
        } else if text == "ip route show 172.18.0.0/16" {
            Outcome::Ran {
                success: true,
                stdout: b"172.18.0.0/16 dev br-77 proto kernel".to_vec(),
                stderr: vec![],
            }
        } else {
            ok()
        }
    });
    assert!(result.is_ok());
    let mut expected: Vec<String> = Vec::new();
    for name in ["iptables", "ip6tables"] {
        expected.push(format!("probe /proc/sys/net/bridge/bridge-nf-call-{}", name));
        expected.push("modprobe br_netfilter".to_string());
        expected.push(format!("probe /proc/sys/net/bridge/bridge-nf-call-{}", name));
    }
    let jump = |table: &str, from: &str, to: &str, comment: &str| {
        let words = format!("-j {} -m comment --comment {}", to, comment);
        vec![
            format!("{} -t {} -C {} {}", cmd, table, from, words),
            format!("{} -t {} -I {} 1 {}", cmd, table, from, words),
        ]
    };
    let rule = |table: &str, chain: &str, check: &str, words: &str| {
        vec![
            format!("{} -t {} -C {} {}", cmd, table, chain, check),
            format!("{} -t {} -A {} {}", cmd, table, chain, words),
        ]
    };
    let chain = |table: &str, chain: &str| vec![format!("{} -t {} -N {}", cmd, table, chain)];
    expected.extend(chain("nat", "RUSTERNETES-SERVICES"));
    expected.extend(chain("nat", "RUSTERNETES-NODEPORTS"));
    for (to, comment) in [
        ("RUSTERNETES-SERVICES", "kubernetes service portals"),
        ("RUSTERNETES-NODEPORTS", "kubernetes service node ports"),
    ] {
        for from in ["PREROUTING", "OUTPUT"] {
            expected.extend(jump("nat", from, to, comment));
        }
    }
    for words in [
        "-m comment --comment rusternetes service hairpin masquerade -s 172.18.0.0/16 -d 172.18.0.0/16 -j MASQUERADE",
        "-m comment --comment rusternetes nodeport masquerade -m addrtype --src-type LOCAL -j MASQUERADE",
        "-m comment --comment rusternetes DNAT traffic masquerade -m conntrack --ctstate DNAT -j MASQUERADE",
    ] {
        expected.extend(rule("nat", "POSTROUTING", words, words));
    }
    expected.extend(chain("filter", "KUBE-FORWARD"));
    expected.extend(jump("filter", "FORWARD", "KUBE-FORWARD", "kubernetes forwarding rules"));
    for words in [
        "-m conntrack --ctstate DNAT -m comment --comment kubernetes forwarding DNAT conntrack -j ACCEPT",
        "-s 10.96.0.0/12 -m comment --comment kubernetes forwarding service CIDR -j ACCEPT",
        "-d 10.96.0.0/12 -m comment --comment kubernetes forwarding service CIDR -j ACCEPT",
        "-m conntrack --ctstate RELATED,ESTABLISHED -m comment --comment kubernetes forwarding conntrack -j ACCEPT",
    ] {
        expected.extend(rule("filter", "KUBE-FORWARD", words, words));
    }
    expected.extend(jump("filter", "OUTPUT", "KUBE-FORWARD", "kubernetes service portals"));
    expected.push("ip route show 10.96.0.0/12".to_string());
    expected.push("ip route show 172.18.0.0/16".to_string());
    expected.push("ip route add 10.96.0.0/12 dev br-77".to_string());
    expected.extend(chain("filter", "KUBE-FORWARD"));
    expected.extend(jump("filter", "FORWARD", "KUBE-FORWARD", "kubernetes forwarding rules"));
    expected.extend(rule(
        "filter",
        "KUBE-FORWARD",
        "-m conntrack --ctstate RELATED,ESTABLISHED -j ACCEPT",
        "-m comment --comment kubernetes forwarding conntrack rule -m conntrack --ctstate RELATED,ESTABLISHED -j ACCEPT",
    ));
    expected.extend(rule(
        "filter",
        "KUBE-FORWARD",
        "-m comment --comment kubernetes forwarding rules -j ACCEPT",
        "-m comment --comment kubernetes forwarding rules -j ACCEPT",
    ));
    expected.extend(jump("filter", "OUTPUT", "KUBE-FORWARD", "kubernetes forwarding rules"));
    assert_eq!(done, expected);
}

#[test]
fn setting_up_a_settled_host_adds_nothing() {
    let (done, result) = drive(manager().initialize(), |text| {
        if text.contains(" -N ") {
            rejected("iptables: Chain already exists.")
        } else if text.contains(" -C ") {
            Outcome::Ran { success: true, stdout: vec![], stderr: vec![] }
        } else if text.starts_with("ip ") {
            ok()
        } else {
            unrun()
        }
    });
    assert!(result.is_ok());
    assert!(done.iter().all(|c| !c.contains(" -A ") && !c.contains(" -I ") && !c.contains(" add ")));
    let (done, result) = drive(manager().initialize(), |_| ok());
    assert!(result.is_ok());
    assert!(done.iter().all(|c| !c.contains(" -A ") && !c.contains(" -I ") && !c.contains(" add ")));
    assert!(done.contains(&"write 1 to /proc/sys/net/bridge/bridge-nf-call-iptables".to_string()));
}

#[test]
fn setting_up_fails_where_chains_cannot_be_made() {
    let (done, result) =
        drive(manager().initialize(), |text| if text.contains(" -N ") { unrun() } else { ok() });
    assert_eq!(
        error_of(result),
        ("Failed to create iptables chain".to_string(), Some("no such program".to_string()))
    );
    assert!(done.last().unwrap().ends_with("-N RUSTERNETES-SERVICES"));
}

#[test]
fn an_existing_chain_is_no_error() {
    let (_, result) = drive(manager().initialize(), |text| {
        if text.contains(" -N ") {
            rejected("iptables: Chain already exists.")
        } else {
            ok()
        }
    });
    assert!(result.is_ok());
}

#[test]
fn setting_up_fails_where_jumps_are_rejected() {
    let (_, result) = drive(manager().initialize(), |text| {
        if text.contains(" -C ") || text.contains(" -I ") {
            rejected("bad")
        } else {
            ok()
        }
    });
    assert_eq!(error_of(result), ("Failed to add jump rule: bad".to_string(), None));
    let (_, result) = drive(manager().initialize(), |text| {
        if text.contains(" -C ") || text.contains(" -I ") {
            unrun()
        } else {
            ok()
        }
    });
    assert_eq!(error_of(result).0, "Failed to add iptables jump rule");
}

#[test]
fn setting_up_fails_where_rules_cannot_be_added() {
    for (part, context) in [
        ("hairpin masquerade", "Failed to add hairpin MASQUERADE rule"),
        ("nodeport masquerade", "Failed to add NodePort MASQUERADE rule"),
        ("DNAT traffic masquerade", "Failed to add DNAT MASQUERADE rule"),
        ("DNAT conntrack", "Failed to add KUBE-FORWARD DNAT accept rule"),
    ] {
        let (_, result) =
            drive(manager().initialize(), |text| if text.contains(part) { unrun() } else { ok() });
        assert_eq!(error_of(result).0, context);
        let (_, result) = drive(manager().initialize(), |text| {
            if text.contains(part) {
                rejected("no")
            } else {
                ok()
            }
        });
        assert!(result.is_ok());
    }
    for part in ["service CIDR", "forwarding conntrack", "RELATED,ESTABLISHED -j"] {
        let (_, result) =
            drive(manager().initialize(), |text| if text.contains(part) { unrun() } else { ok() });
        assert!(result.is_ok());
    }
}

#[test]
fn late_checks_that_do_not_run_spare_the_rule() {
    let part = "-C KUBE-FORWARD -m conntrack --ctstate RELATED,ESTABLISHED -j ACCEPT";
    let (done, _) =
        drive(manager().initialize(), |text| if text.contains(part) { unrun() } else { ok() });
    assert!(done.iter().all(|c| !c.contains(" -A ")));
    let (done, _) =
        drive(manager().initialize(), |text| if text.contains(part) { rejected("") } else { ok() });
    assert_eq!(done.iter().filter(|c| c.contains(" -A ")).count(), 1);
}

#[test]
fn no_route_without_a_bridge() {
    let (done, result) = drive(manager().initialize(), |text| {
        if text.starts_with("ip route show") {
            Outcome::Ran { success: true, stdout: vec![], stderr: vec![] }
        } else {
            ok()
        }
    });
    assert!(result.is_ok());
    assert!(done.iter().all(|c| !c.starts_with("ip route add")));
}

#[test]
fn leftovers_in_a_listing() {
    let listing = "Chain PREROUTING (policy ACCEPT)\n\
                   target     prot opt source\n\
                   KUBE-SEP-1-80-0  all\n\
                   Chain KUBE-SEP-109601-80-0 (1 references)\r\n\
                   Chain KUBE-NP-SEP-30080-1 (2 references)\n\
                   Chain KUBE-SEP-\n\
                   Chain KUBE-FORWARD (1 references)";
    assert_eq!(
        find_leftovers(listing),
        vec!["KUBE-SEP-109601-80-0", "KUBE-NP-SEP-30080-1", "KUBE-SEP-"]
    );
    assert!(find_leftovers("").is_empty());
}

#[test]
fn flushing_removes_tracked_and_leftover_chains() {
    let m = manager();
    let cmd = "/usr/sbin/iptables-legacy -t nat";
    let (done, result) = drive(m.flush_rules(), |text| {
        if text == "take" {
            Outcome::Handed { chains: vec!["KUBE-SEP-1-80-0".to_string()] }
        } else if text.ends_with("-L -n") {
            Outcome::Ran {
                success: true,
                stdout: b"Chain KUBE-NP-SEP-1-0 (0 references)\n".to_vec(),
                stderr: vec![],
            }
        } else {
            rejected("no")
        }
    });
    assert!(result.is_ok());
    assert_eq!(
        done,
        vec![
            format!("{} -F RUSTERNETES-SERVICES", cmd),
            format!("{} -F RUSTERNETES-NODEPORTS", cmd),
            "take".to_string(),
            format!("{} -F KUBE-SEP-1-80-0", cmd),
            format!("{} -X KUBE-SEP-1-80-0", cmd),
            format!("{} -L -n", cmd),
            format!("{} -F KUBE-NP-SEP-1-0", cmd),
            format!("{} -X KUBE-NP-SEP-1-0", cmd),
        ]
    );
}

#[test]
fn flushing_fails_where_the_program_does_not_run() {
    let (done, result) = drive(manager().flush_rules(), |_| unrun());
    assert_eq!(done.len(), 1);
    assert_eq!(
        error_of(result),
        ("Failed to flush chain RUSTERNETES-SERVICES".to_string(), Some("no such program".to_string()))
    );
}

#[test]
fn cleaning_up() {
    let nat = "/usr/sbin/iptables-legacy -t nat";
    let filter = "/usr/sbin/iptables-legacy -t filter";
    let portals = "-m comment --comment kubernetes service portals";
    let ports = "-m comment --comment kubernetes service node ports";
    let forwarding = "-m comment --comment kubernetes forwarding rules";
    let (done, result) = drive(manager().cleanup(), |text| {
        if text == "take" {
            Outcome::Handed { chains: vec![] }
        } else if text.starts_with(&format!("{} -F", nat)) {
            ok()
        } else {
            unrun()
        }
    });
    assert!(result.is_ok());
    assert_eq!(
        done,
        vec![
            format!("{} -F RUSTERNETES-SERVICES", nat),
            format!("{} -F RUSTERNETES-NODEPORTS", nat),
            "take".to_string(),
            format!("{} -L -n", nat),
            format!("{} -D PREROUTING -j RUSTERNETES-SERVICES {}", nat, portals),
            format!("{} -D OUTPUT -j RUSTERNETES-SERVICES {}", nat, portals),
            format!("{} -D PREROUTING -j RUSTERNETES-NODEPORTS {}", nat, ports),
            format!("{} -D OUTPUT -j RUSTERNETES-NODEPORTS {}", nat, ports),
            format!("{} -D POSTROUTING -m comment --comment rusternetes service hairpin masquerade -s 172.18.0.0/16 -d 172.18.0.0/16 -j MASQUERADE", nat),
            format!("{} -D POSTROUTING -m comment --comment rusternetes nodeport masquerade -m addrtype --src-type LOCAL -j MASQUERADE", nat),
            format!("{} -D POSTROUTING -m comment --comment rusternetes DNAT traffic masquerade -m conntrack --ctstate DNAT -j MASQUERADE", nat),
            format!("{} -D FORWARD -j KUBE-FORWARD {}", filter, forwarding),
            format!("{} -D OUTPUT -j KUBE-FORWARD {}", filter, portals),
            format!("{} -D OUTPUT -j KUBE-FORWARD {}", filter, forwarding),
            format!("{} -F KUBE-FORWARD", filter),
            format!("{} -X KUBE-FORWARD", filter),
            format!("{} -X RUSTERNETES-SERVICES", nat),
            format!("{} -X RUSTERNETES-NODEPORTS", nat),
        ]
    );
}

/// The tables of a host: chains that were made, and rules with the chain that they stand in.
struct Tables {
    chains: Vec<(String, String)>,
    rules: Vec<(String, String, String)>,
}

impl Tables {
    /// Carries out a command as the program does, and tells whether it succeeded.
    fn carry_out(&mut self, text: &str) -> bool {
        let words: Vec<&str> = text.split(' ').collect();
        if words.len() < 5 || words[1] != "-t" {
            return false;
        }
        let table = words[2].to_string();
        let chain = words[4].to_string();
        let rule = |from: usize| (table.clone(), chain.clone(), words[from..].join(" "));
        match words[3] {
            "-N" => {
                let key = (table, chain);
                let new = !self.chains.contains(&key);
                if new {
                    self.chains.push(key);
                }
                new
            }
            "-C" => self.rules.contains(&rule(5)),
            "-A" => {
                self.rules.push(rule(5));
                true
            }
            "-I" => {
                self.rules.insert(0, rule(6));
                true
            }
            "-D" => match self.rules.iter().position(|r| *r == rule(5)) {
                Some(at) => {
                    self.rules.remove(at);
                    true
                }
                None => false,
            },
            "-F" => {
                self.rules.retain(|r| r.0 != table || r.1 != chain);
                true
            }
            "-X" => {
                let jump = format!("-j {} ", chain);
                let used = self.rules.iter().any(|r| {
                    r.0 == table && (r.1 == chain || format!("{} ", r.2).contains(&jump))
                });
                let there = self.chains.contains(&(table.clone(), chain.clone()));
                if there && !used {
                    self.chains.retain(|c| c.0 != table || c.1 != chain);
                }
                there && !used
            }
            _ => false,
        }
    }
}

#[test]
fn cleaning_up_undoes_setting_up() {
    let mut tables = Tables {
        chains: vec![],
        rules: vec![("nat".to_string(), "PREROUTING".to_string(), "-j DOCKER".to_string())],
    };
    let (_, result) = drive(manager().initialize(), |text| {
        if tables.carry_out(text) {
            ok()
        } else {
            rejected("")
        }
    });
    assert!(result.is_ok());
    assert_eq!(tables.chains.len(), 3);
    assert_eq!(tables.rules.len(), 17);
    let mut m = manager();
    let endpoints = vec![("10.0.0.1".to_string(), 80), ("10.0.0.2".to_string(), 80)];
    drive(m.add_clusterip_rules("10.96.0.1", 80, &endpoints, "TCP", true, 600), |text| {
        if tables.carry_out(text) {
            ok()
        } else {
            rejected("")
        }
    })
    .1
    .ok();
    assert_eq!(tables.chains.len(), 5);
    let session = m.cleanup();
    let (_, result) = drive(session, |text| {
        if text == "take" {
            Outcome::Handed { chains: m.take_sep_chains() }
        } else if tables.carry_out(text) {
            ok()
        } else {
            rejected("")
        }
    });
    assert!(result.is_ok());
    assert!(tables.chains.is_empty());
    assert_eq!(tables.rules.len(), 1);
    assert_eq!(tables.rules[0].2, "-j DOCKER");
}

#[test]
fn applying_restores_first_and_purges_after() {
    let mut m = manager();
    m.track_sep_chain("KUBE-SEP-1-80-0");
    let (done, result) = drive(m.apply_nat_rules_atomic("*nat\nCOMMIT\n"), |text| {
        if text.starts_with("iptables-legacy-restore") {
            ok()
        } else {
            unrun()
        }
    });
    assert!(result.is_ok());
    assert_eq!(
        done,
        vec![
            "iptables-legacy-restore --noflush < *nat\nCOMMIT\n",
            "/usr/sbin/iptables-legacy -t nat -F KUBE-SEP-1-80-0",
            "/usr/sbin/iptables-legacy -t nat -X KUBE-SEP-1-80-0",
        ]
    );
    assert!(m.take_sep_chains().is_empty());
}

#[test]
fn a_failed_restore_purges_nothing() {
    for (outcome, context, cause) in [
        (unrun(), "Failed to spawn iptables-restore", Some("no such program")),
        (
            Outcome::Unfed { cause: "pipe".to_string() },
            "Failed to write to iptables-restore stdin",
            Some("pipe"),
        ),
        (
            Outcome::Unawaited { cause: "gone".to_string() },
            "Failed to wait for iptables-restore",
            Some("gone"),
        ),
        (rejected("line 3 failed"), "iptables-restore failed: line 3 failed", None),
    ] {
        let mut m = IptablesManager::with_modules("/usr/sbin/iptables".to_string(), true, true);
        m.track_sep_chain("KUBE-SEP-1-80-0");
        let mut outcome = Some(outcome);
        let (done, result) = drive(m.apply_nat_rules_atomic("x"), |_| outcome.take().unwrap());
        assert_eq!(done, vec!["iptables-restore --noflush < x"]);
        assert_eq!(error_of(result), (context.to_string(), cause.map(|c| c.to_string())));
        assert!(m.take_sep_chains().is_empty());
    }
}

#[test]
fn adding_rules_fails_only_without_affinity() {
    let endpoints = vec![("10.0.0.1".to_string(), 80), ("10.0.0.2".to_string(), 80)];
    let mut m = manager();
    let (done, result) =
        drive(m.add_clusterip_rules("10.96.0.1", 80, &endpoints, "TCP", false, 1), |_| unrun());
    assert_eq!(done.len(), 1);
    assert_eq!(error_of(result).0, "Failed to add iptables DNAT rule");
    let (_, result) = drive(m.add_nodeport_rules(30080, &endpoints, "TCP", false, 1), |_| unrun());
    assert_eq!(error_of(result).0, "Failed to add iptables DNAT rule for NodePort");
    let (done, result) =
        drive(m.add_clusterip_rules("10.96.0.1", 80, &endpoints, "TCP", false, 1), |_| rejected("no"));
    assert_eq!(done.len(), 2);
    assert!(result.is_ok());
    let (done, result) =
        drive(m.add_clusterip_rules("10.96.0.1", 80, &endpoints, "TCP", true, 1), |_| unrun());
    assert_eq!(done.len(), 10);
    assert!(result.is_ok());
}

#[test]
fn complaints_worth_noting() {
    assert_eq!(rejected("bad rule").decode().complaint(), Some("bad rule"));
    assert_eq!(rejected("iptables: Chain already exists.").decode().complaint(), None);
    assert_eq!(ok().decode().complaint(), None);
    assert_eq!(unrun().decode().complaint(), None);
    assert!(ok().decode().succeeded());
    assert!(!rejected("").decode().succeeded());
}

#[test]
fn an_ended_session_stays_ended() {
    let mut session = manager().flush_rules();
    session.start();
    assert!(matches!(session.advance(unrun()), Action::Finish(Err(_))));
    assert!(matches!(session.advance(ok()), Action::Finish(Err(_))));
}
