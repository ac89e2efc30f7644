use domain_audit::dns::{Channel, DnsSnapshot, Question, RecordKind, Reply};
use domain_audit::spf::evaluate::{
    select_spf_record, simulate_spf, verdict_for, SPFSimulation, SpfProgress, MAX_LOOKUPS,
};

struct Zone {
    records: Vec<(RecordKind, String, Vec<String>)>,
    asked: Vec<(RecordKind, String)>,
}

impl Zone {
    fn new() -> Zone {
        Zone { records: Vec::new(), asked: Vec::new() }
    }

    fn with(mut self, kind: RecordKind, name: &str, values: &[&str]) -> Zone {
        self.records.push((kind, name.to_string(), values.iter().map(|v| v.to_string()).collect()));
        self
    }

    fn answer(&mut self, question: &Question) -> Reply {
        assert_eq!(question.channel, Channel::Resolver);
        self.asked.push((question.kind, question.name.clone()));
        for (kind, name, values) in &self.records {
            if *kind == question.kind && *name == question.name {
                return Reply::Records(values.clone());
            }
        }
        Reply::Failed(format!("no record found for {}", question.name))
    }
}

fn run(zone: &mut Zone, domain: &str, ip: &str) -> Result<SPFSimulation, String> {
    let mut dns = DnsSnapshot::new();
    for _ in 0..1000 {
        match simulate_spf(&dns, domain, ip) {
            SpfProgress::Need(question) => {
                let reply = zone.answer(&question);
                dns.record(question, reply);
            }
            SpfProgress::Done(simulation) => return Ok(simulation),
            SpfProgress::Failed(message) => return Err(message),
        }
    }
    panic!("the evaluation did not end");
}

#[test]
fn minus_all_fails_every_address_with_one_lookup() {
    for ip in ["203.0.113.5", "198.51.100.1", "2001:db8::1", "0.0.0.0", "255.255.255.255"] {
        let mut zone = Zone::new().with(RecordKind::Txt, "example.com", &["v=spf1 -all"]);
        let result = run(&mut zone, "example.com", ip).expect("evaluation");
        assert_eq!(result.result, "fail");
        assert_eq!(result.lookups, 1);
        assert_eq!(result.reasons, vec!["matched mechanism all".to_string()]);
    }
}

#[test]
fn ip4_network_passes_inside_and_fails_outside() {
    let mut zone =
        Zone::new().with(RecordKind::Txt, "example.com", &["v=spf1 ip4:203.0.113.0/24 -all"]);
    let inside = run(&mut zone, "example.com", "203.0.113.5").expect("evaluation");
    assert_eq!(inside.result, "pass");
    assert_eq!(inside.reasons, vec!["matched mechanism ip4".to_string()]);
    assert_eq!(inside.lookups, 1);
    let outside = run(&mut zone, "example.com", "198.51.100.1").expect("evaluation");
    assert_eq!(outside.result, "fail");
    assert_eq!(outside.lookups, 1);
}

#[test]
fn bare_address_in_ip4_matches_by_equality() {
    let mut zone =
        Zone::new().with(RecordKind::Txt, "example.com", &["v=spf1 ip4:192.0.2.7 ~all"]);
    assert_eq!(run(&mut zone, "example.com", "192.0.2.7").expect("evaluation").result, "pass");
    assert_eq!(run(&mut zone, "example.com", "192.0.2.8").expect("evaluation").result, "softfail");
}

#[test]
fn no_record_is_neutral() {
    let mut zone = Zone::new().with(RecordKind::Txt, "example.com", &["google-site-verification=x"]);
    let result = run(&mut zone, "example.com", "192.0.2.1").expect("evaluation");
    assert_eq!(result.result, "neutral");
    assert_eq!(result.reasons, vec!["no spf record".to_string()]);
    assert_eq!(result.lookups, 1);
}

#[test]
fn no_match_is_neutral() {
    let mut zone = Zone::new().with(RecordKind::Txt, "example.com", &["v=spf1 ip4:192.0.2.0/24"]);
    let result = run(&mut zone, "example.com", "198.51.100.1").expect("evaluation");
    assert_eq!(result.result, "neutral");
    assert_eq!(result.reasons, vec!["no matching mechanism".to_string()]);
}

#[test]
fn qualifiers_give_their_verdicts() {
    assert_eq!(verdict_for(&Some("-".to_string())), "fail");
    assert_eq!(verdict_for(&Some("~".to_string())), "softfail");
    assert_eq!(verdict_for(&Some("?".to_string())), "neutral");
    assert_eq!(verdict_for(&Some("+".to_string())), "pass");
    assert_eq!(verdict_for(&None), "pass");
}

#[test]
fn first_spf_record_is_selected_in_any_case() {
    let values =
        vec!["other".to_string(), "V=SPF1 -all".to_string(), "v=spf1 +all".to_string()];
    assert_eq!(select_spf_record(&values), Some(&values[1]));
    let none = vec![" v=spf1 -all".to_string()];
    assert_eq!(select_spf_record(&none), None);
}

#[test]
fn malformed_address_fails_the_call() {
    let mut zone = Zone::new().with(RecordKind::Txt, "example.com", &["v=spf1 -all"]);
    let failure = run(&mut zone, "example.com", "not-an-ip").expect_err("failure");
    assert_eq!(failure, "invalid IP address syntax");
    assert!(zone.asked.is_empty());
}

#[test]
fn failed_lookup_fails_the_call() {
    let mut zone = Zone::new();
    let failure = run(&mut zone, "example.com", "192.0.2.1").expect_err("failure");
    assert_eq!(failure, "no record found for example.com");
    let mut zone = Zone::new().with(RecordKind::Txt, "example.com", &["v=spf1 a:gone.example -all"]);
    let failure = run(&mut zone, "example.com", "192.0.2.1").expect_err("failure");
    assert_eq!(failure, "no record found for gone.example");
}

#[test]
fn a_mechanism_looks_up_the_domain_or_its_value() {
    let mut zone = Zone::new()
        .with(RecordKind::Txt, "example.com", &["v=spf1 a a:mail.example.com -all"])
        .with(RecordKind::Address, "example.com", &["192.0.2.1"])
        .with(RecordKind::Address, "mail.example.com", &["192.0.2.2", "2001:db8::2"]);
    let first = run(&mut zone, "example.com", "192.0.2.1").expect("evaluation");
    assert_eq!((first.result.as_str(), first.lookups), ("pass", 2));
    let second = run(&mut zone, "example.com", "2001:db8::2").expect("evaluation");
    assert_eq!((second.result.as_str(), second.lookups), ("pass", 3));
    assert_eq!(second.reasons, vec!["matched mechanism a".to_string()]);
    let neither = run(&mut zone, "example.com", "192.0.2.3").expect("evaluation");
    assert_eq!((neither.result.as_str(), neither.lookups), ("fail", 3));
}

#[test]
fn mx_mechanism_looks_up_each_exchange() {
    let mut zone = Zone::new()
        .with(RecordKind::Txt, "example.com", &["v=spf1 mx -all"])
        .with(RecordKind::Mx, "example.com", &["mx1.example.com.", "mx2.example.com."])
        .with(RecordKind::Address, "mx1.example.com.", &["192.0.2.10"])
        .with(RecordKind::Address, "mx2.example.com.", &["192.0.2.20"]);
    let result = run(&mut zone, "example.com", "192.0.2.20").expect("evaluation");
    assert_eq!((result.result.as_str(), result.lookups), ("pass", 2));
    assert_eq!(
        zone.asked,
        vec![
            (RecordKind::Txt, "example.com".to_string()),
            (RecordKind::Mx, "example.com".to_string()),
            (RecordKind::Address, "mx1.example.com.".to_string()),
            (RecordKind::Address, "mx2.example.com.".to_string()),
        ]
    );
}

#[test]
fn ptr_mechanism_keeps_names_under_the_domain() {
    let mut zone = Zone::new()
        .with(RecordKind::Txt, "example.com", &["v=spf1 ptr -all"])
        .with(RecordKind::Ptr, "192.0.2.9", &["host.other.org.", "Mail.EXAMPLE.com"])
        .with(RecordKind::Address, "Mail.EXAMPLE.com", &["192.0.2.9"]);
    let result = run(&mut zone, "example.com", "192.0.2.9").expect("evaluation");
    assert_eq!((result.result.as_str(), result.lookups), ("pass", 2));
    assert!(!zone.asked.contains(&(RecordKind::Address, "host.other.org.".to_string())));
}

#[test]
fn exists_mechanism_matches_any_address() {
    let mut zone = Zone::new()
        .with(RecordKind::Txt, "example.com", &["v=spf1 exists:probe.example.com -all"])
        .with(RecordKind::Address, "probe.example.com", &["127.0.0.2"]);
    assert_eq!(run(&mut zone, "example.com", "192.0.2.9").expect("evaluation").result, "pass");
    let mut zone = Zone::new()
        .with(RecordKind::Txt, "example.com", &["v=spf1 exists:probe.example.com -all"])
        .with(RecordKind::Address, "probe.example.com", &[]);
    assert_eq!(run(&mut zone, "example.com", "192.0.2.9").expect("evaluation").result, "fail");
}

#[test]
fn include_matches_only_on_pass_and_shares_the_count() {
    let mut zone = Zone::new()
        .with(RecordKind::Txt, "example.com", &["v=spf1 include:a.example include:b.example -all"])
        .with(RecordKind::Txt, "a.example", &["v=spf1 ip4:198.51.100.0/24 -all"])
        .with(RecordKind::Txt, "b.example", &["v=spf1 ip4:192.0.2.0/24 -all"]);
    let result = run(&mut zone, "example.com", "192.0.2.1").expect("evaluation");
    assert_eq!(result.result, "pass");
    assert_eq!(result.reasons, vec!["matched mechanism include".to_string()]);
    assert_eq!(result.lookups, 5);
}

#[test]
fn redirect_hands_over_when_nothing_matches() {
    let mut zone = Zone::new()
        .with(RecordKind::Txt, "example.com", &["v=spf1 ip4:198.51.100.0/24 redirect=other.example"])
        .with(RecordKind::Txt, "other.example", &["v=spf1 ip4:192.0.2.0/24 ?all"]);
    let result = run(&mut zone, "example.com", "203.0.113.1").expect("evaluation");
    assert_eq!(result.result, "neutral");
    assert_eq!(result.reasons, vec!["matched mechanism all".to_string()]);
    assert_eq!(result.lookups, 2);
}

#[test]
fn unknown_mechanisms_are_passed_over() {
    let mut zone = Zone::new().with(RecordKind::Txt, "example.com", &["v=spf1 foo:bar +all"]);
    let result = run(&mut zone, "example.com", "203.0.113.1").expect("evaluation");
    assert_eq!((result.result.as_str(), result.lookups), ("pass", 1));
}

#[test]
fn more_than_ten_lookups_is_permerror() {
    let record = "v=spf1 a:h1.example a:h2.example a:h3.example a:h4.example a:h5.example \
                  a:h6.example a:h7.example a:h8.example a:h9.example a:h10.example +all";
    let mut zone = Zone::new().with(RecordKind::Txt, "example.com", &[record]);
    for n in 1..=10 {
        zone = zone.with(RecordKind::Address, &format!("h{}.example", n), &["192.0.2.200"]);
    }
    let result = run(&mut zone, "example.com", "203.0.113.1").expect("evaluation");
    assert_eq!(result.result, "permerror");
    assert_eq!(result.reasons, vec!["lookup limit reached".to_string()]);
    assert_eq!(result.lookups, MAX_LOOKUPS + 1);
    assert!(!zone.asked.contains(&(RecordKind::Address, "h10.example".to_string())));
    assert_eq!(zone.asked.len(), 10);
}

#[test]
fn lookup_limit_inside_an_include_stops_everything() {
    let nested = "v=spf1 a:n1.example a:n2.example a:n3.example a:n4.example a:n5.example \
                  a:n6.example a:n7.example a:n8.example a:n9.example -all";
    let mut zone = Zone::new()
        .with(RecordKind::Txt, "example.com", &["v=spf1 include:nested.example +all"])
        .with(RecordKind::Txt, "nested.example", &[nested]);
    for n in 1..=9 {
        zone = zone.with(RecordKind::Address, &format!("n{}.example", n), &["192.0.2.200"]);
    }
    let result = run(&mut zone, "example.com", "203.0.113.1").expect("evaluation");
    assert_eq!(result.result, "permerror");
    assert_eq!(result.lookups, 11);
}

#[test]
fn redirect_loop_ends_with_permerror() {
    let mut zone = Zone::new()
        .with(RecordKind::Txt, "a.example", &["v=spf1 redirect=b.example"])
        .with(RecordKind::Txt, "b.example", &["v=spf1 redirect=a.example"]);
    let result = run(&mut zone, "a.example", "203.0.113.1").expect("evaluation");
    assert_eq!(result.result, "permerror");
    assert_eq!(result.reasons, vec!["recursion limit reached".to_string()]);
    assert_eq!(result.lookups, 11);
}

#[test]
fn an_ended_evaluation_ignores_later_answers() {
    let mut dns = DnsSnapshot::new();
    dns.record(
        Question::new(RecordKind::Txt, "example.com"),
        Reply::Records(vec!["v=spf1 -all".to_string()]),
    );
    let before = match simulate_spf(&dns, "example.com", "192.0.2.1") {
        SpfProgress::Done(s) => s,
        _ => panic!("not done"),
    };
    dns.record(
        Question::new(RecordKind::Txt, "example.com"),
        Reply::Records(vec!["v=spf1 +all".to_string()]),
    );
    dns.record(
        Question::new(RecordKind::Address, "example.com"),
        Reply::Records(vec!["192.0.2.1".to_string()]),
    );
    let after = match simulate_spf(&dns, "example.com", "192.0.2.1") {
        SpfProgress::Done(s) => s,
        _ => panic!("not done"),
    };
    assert_eq!(before.result, after.result);
    assert_eq!(before.reasons, after.reasons);
    assert_eq!(before.lookups, after.lookups);
}

#[test]
fn the_question_asked_is_one_without_an_answer() {
    let mut dns = DnsSnapshot::new();
    dns.record(
        Question::new(RecordKind::Txt, "example.com"),
        Reply::Records(vec!["v=spf1 mx -all".to_string()]),
    );
    match simulate_spf(&dns, "example.com", "192.0.2.1") {
        SpfProgress::Need(q) => {
            assert_eq!(q.kind, RecordKind::Mx);
            assert_eq!(q.name, "example.com");
            assert!(dns.find(q.kind, q.channel, &q.name).is_none());
        }
        _ => panic!("no question"),
    }
}

#[test]
fn the_failure_reads_as_the_standard_library_words_it() {
    let theirs = "not-an-ip".parse::<core::net::IpAddr>().expect_err("error").to_string();
    match simulate_spf(&DnsSnapshot::new(), "example.com", "not-an-ip") {
        SpfProgress::Failed(message) => assert_eq!(message, theirs),
        _ => panic!("a malformed address was taken"),
    }
}

#[test]
fn a_redirect_target_is_evaluated_on_its_own_and_its_count_is_added() {
    let nine = "v=spf1 a:h1.example a:h2.example a:h3.example a:h4.example a:h5.example \
                a:h6.example a:h7.example a:h8.example a:h9.example redirect=t.example";
    let mut zone = Zone::new()
        .with(RecordKind::Txt, "example.com", &[nine])
        .with(RecordKind::Txt, "t.example", &["v=spf1 a:far.example"])
        .with(RecordKind::Address, "far.example", &["192.0.2.200"]);
    for i in 1..10 {
        zone = zone.with(RecordKind::Address, &format!("h{}.example", i), &["192.0.2.1"]);
    }
    let result = run(&mut zone, "example.com", "203.0.113.5").expect("evaluation");
    assert_eq!(result.result, "neutral");
    assert_eq!(result.reasons, vec!["no matching mechanism".to_string()]);
    assert_eq!(result.lookups, 12);

    let mut alone = Zone::new()
        .with(RecordKind::Txt, "t.example", &["v=spf1 a:far.example"])
        .with(RecordKind::Address, "far.example", &["192.0.2.200"]);
    let target = run(&mut alone, "t.example", "203.0.113.5").expect("evaluation");
    assert_eq!(target.result, "neutral");
    assert_eq!(target.lookups, 2);
}

#[test]
fn a_redirect_is_not_followed_where_a_mechanism_matches() {
    let mut zone = Zone::new()
        .with(RecordKind::Txt, "example.com", &["v=spf1 ip4:203.0.113.0/24 redirect=t.example"])
        .with(RecordKind::Txt, "t.example", &["v=spf1 -all"]);
    let result = run(&mut zone, "example.com", "203.0.113.5").expect("evaluation");
    assert_eq!(result.result, "pass");
    assert_eq!(result.lookups, 1);
    assert!(!zone.asked.contains(&(RecordKind::Txt, "t.example".to_string())));
}
