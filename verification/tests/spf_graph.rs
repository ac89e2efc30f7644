use domain_audit::dns::{DnsSnapshot, Question, RecordKind, Reply};
use domain_audit::spf::graph::{build_spf_graph, record_targets, GraphProgress, SPFGraph};

fn walk(records: &[(&str, &str)], domain: &str) -> (SPFGraph, Vec<String>) {
    let mut dns = DnsSnapshot::new();
    let mut asked = Vec::new();
    for _ in 0..10000 {
        match build_spf_graph(&dns, domain) {
            GraphProgress::Need(question) => {
                assert_eq!(question.kind, RecordKind::Txt);
                asked.push(question.name.clone());
                let reply = match records.iter().find(|(name, _)| *name == question.name) {
                    Some((_, txt)) => Reply::Records(vec![txt.to_string()]),
                    None => Reply::Failed("no such domain".to_string()),
                };
                dns.record(question, reply);
            }
            GraphProgress::Done(graph) => return (graph, asked),
        }
    }
    panic!("the walk did not end");
}

fn edges(graph: &SPFGraph) -> Vec<(String, String, String)> {
    graph.edges.iter().map(|e| (e.from.clone(), e.to.clone(), e.edge_type.clone())).collect()
}

#[test]
fn self_include_is_cyclic_with_one_node() {
    let (graph, asked) = walk(&[("loop.example", "v=spf1 include:loop.example -all")], "loop.example");
    assert!(graph.cyclic);
    assert_eq!(graph.nodes.len(), 1);
    assert_eq!(graph.nodes[0].domain, "loop.example");
    assert_eq!(graph.nodes[0].txt.as_deref(), Some("v=spf1 include:loop.example -all"));
    assert_eq!(
        edges(&graph),
        vec![("loop.example".to_string(), "loop.example".to_string(), "include".to_string())]
    );
    assert_eq!(graph.lookups, 1);
    assert_eq!(asked, vec!["loop.example".to_string()]);
}

#[test]
fn walk_is_depth_first_with_includes_before_redirects() {
    let records = [
        ("root.example", "v=spf1 redirect=r.example include:a.example include:b.example"),
        ("a.example", "v=spf1 include:c.example -all"),
        ("b.example", "v=spf1 -all"),
        ("c.example", "v=spf1 -all"),
        ("r.example", "v=spf1 include:a.example -all"),
    ];
    let (graph, asked) = walk(&records, "root.example");
    let domains: Vec<&str> = graph.nodes.iter().map(|n| n.domain.as_str()).collect();
    assert_eq!(domains, vec!["root.example", "a.example", "c.example", "b.example", "r.example"]);
    assert_eq!(asked, domains);
    assert_eq!(graph.lookups, 5);
    assert!(graph.cyclic);
    let kinds: Vec<(String, String, String)> = edges(&graph);
    assert_eq!(
        kinds,
        vec![
            ("root.example".to_string(), "a.example".to_string(), "include".to_string()),
            ("a.example".to_string(), "c.example".to_string(), "include".to_string()),
            ("root.example".to_string(), "b.example".to_string(), "include".to_string()),
            ("root.example".to_string(), "r.example".to_string(), "redirect".to_string()),
            ("r.example".to_string(), "a.example".to_string(), "include".to_string()),
        ]
    );
}

#[test]
fn a_tree_is_not_cyclic() {
    let records = [
        ("root.example", "v=spf1 include:a.example include:b.example -all"),
        ("a.example", "v=spf1 -all"),
        ("b.example", "v=spf1 -all"),
    ];
    let (graph, _) = walk(&records, "root.example");
    assert!(!graph.cyclic);
    assert_eq!(graph.nodes.len(), 3);
    assert_eq!(graph.edges.len(), 2);
}

#[test]
fn a_missing_record_gives_a_node_without_text() {
    let (graph, _) = walk(&[("root.example", "v=spf1 include:gone.example -all")], "root.example");
    assert_eq!(graph.nodes.len(), 2);
    assert_eq!(graph.nodes[1].domain, "gone.example");
    assert_eq!(graph.nodes[1].txt, None);
    assert_eq!(graph.lookups, 2);
    let (alone, _) = walk(&[], "nothing.example");
    assert_eq!(alone.nodes.len(), 1);
    assert_eq!(alone.nodes[0].txt, None);
    assert!(alone.edges.is_empty());
    assert!(!alone.cyclic);
}

#[test]
fn the_walk_stops_at_depth_ten() {
    let mut records: Vec<(String, String)> = Vec::new();
    for n in 0..20 {
        records.push((format!("d{}.example", n), format!("v=spf1 include:d{}.example -all", n + 1)));
    }
    let borrowed: Vec<(&str, &str)> =
        records.iter().map(|(a, b)| (a.as_str(), b.as_str())).collect();
    let (graph, _) = walk(&borrowed, "d0.example");
    assert_eq!(graph.nodes.len(), 11);
    assert_eq!(graph.nodes[10].domain, "d10.example");
    assert_eq!(graph.edges.len(), 11);
    assert_eq!(graph.lookups, 11);
    assert!(!graph.cyclic);
}

#[test]
fn a_two_domain_cycle_ends() {
    let records = [("a.example", "v=spf1 include:b.example"), ("b.example", "v=spf1 redirect=a.example")];
    let (graph, asked) = walk(&records, "a.example");
    assert!(graph.cyclic);
    assert_eq!(graph.nodes.len(), 2);
    assert_eq!(asked.len(), 2);
    assert_eq!(graph.edges.len(), 2);
}

#[test]
fn references_without_a_target_are_left_out() {
    let targets = record_targets(&Some("v=spf1 include redirect= include:x.example".to_string()));
    assert_eq!(targets.len(), 1);
    assert_eq!(targets[0].to, "x.example");
    assert_eq!(targets[0].edge_type, "include");
    assert!(record_targets(&None).is_empty());
    assert!(record_targets(&Some("not spf".to_string())).is_empty());
}

#[test]
fn the_first_question_is_the_root_record() {
    let dns = DnsSnapshot::new();
    match build_spf_graph(&dns, "example.com") {
        GraphProgress::Need(q) => {
            assert_eq!(q.kind, RecordKind::Txt);
            assert_eq!(q.name, "example.com");
        }
        GraphProgress::Done(_) => panic!("done without answers"),
    }
    let _ = Question::new(RecordKind::Txt, "example.com");
}
