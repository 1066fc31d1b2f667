use jaeger_stats::call::{Call, CallDirection};
use jaeger_stats::chain_key::CChainStatsKey;
use jaeger_stats::mermaid::scope::{LinkType, MermaidScope, Position, ServiceOperationType};
use jaeger_stats::mermaid::service_oper_graph::{Link, ServiceOperGraph};
use jaeger_stats::mermaid::trace_data::{TraceData, TracePaths};
use jaeger_stats::mermaid::trace_forrest::{
    split_service_operation, EmbeddingKind, TraceForrest,
};
use jaeger_stats::mermaid::trace_paths::ProjectError;
use jaeger_stats::report::{Chapter, Report};
use jaeger_stats::stats_rec::StatsRec;

fn path(key: &str, count: usize) -> TraceData {
    let trace_path = CChainStatsKey::parse(key).unwrap();
    TraceData { full_key: trace_path.call_chain_key(), trace_path, count }
}

fn dataset() -> TracePaths {
    TracePaths(vec![
        path("svcA/POST | svcB/GET & &", 5),
        path("svcA/POST | svcB/GET | svcC/GET & & *LEAF*", 3),
        path("svcA/POST | svcD/GET & & *LEAF*", 7),
        path("svcA/POST & &", 12),
    ])
}

fn chain(key: &str) -> Vec<Call> {
    CChainStatsKey::parse(key).unwrap().call_chain
}

fn ends(l: &Link) -> (String, String) {
    (
        format!("{}/{}", l.from_service, l.from_operation),
        format!("{}/{}", l.to_service, l.to_operation),
    )
}

fn link_list(g: &ServiceOperGraph) -> Vec<(String, String)> {
    g.links.iter().map(ends).collect()
}

fn node_list(g: &ServiceOperGraph) -> Vec<String> {
    g.nodes.iter().map(|n| format!("{}/{}", n.service, n.operation)).collect()
}

fn pair(a: &str, b: &str) -> (String, String) {
    (a.to_string(), b.to_string())
}

#[test]
fn focus_is_split_at_the_first_slash() {
    let f = split_service_operation("svcB/GET");
    assert_eq!(f.service, "svcB");
    assert_eq!(f.operation, Some("GET".to_string()));
    let f = split_service_operation("svcB");
    assert_eq!(f.service, "svcB");
    assert_eq!(f.operation, None);
    let f = split_service_operation("svcB/orders/list");
    assert_eq!(f.service, "svcB");
    assert_eq!(f.operation, Some("orders/list".to_string()));
}

#[test]
fn forest_holds_the_paths_to_the_focus() {
    let data = dataset();
    let forest = data.build_trace_forrest(&split_service_operation("svcB/GET"));
    assert_eq!(forest.paths.len(), 2);
    assert_eq!(forest.paths[0], chain("svcA/POST | svcB/GET"));
    assert_eq!(forest.paths[1], chain("svcA/POST | svcB/GET"));
    let none = TraceForrest::build_trace_forrest(&data.0, &split_service_operation("svcB/PUT"));
    assert!(none.paths.is_empty());
}

#[test]
fn embedding_of_chains() {
    let data = dataset();
    let forest = data.build_trace_forrest(&split_service_operation("svcB/GET"));
    assert_eq!(forest.embedding(&chain("svcA/POST | svcB/GET")), EmbeddingKind::Embedded);
    assert_eq!(forest.embedding(&chain("svcA/POST")), EmbeddingKind::Embedded);
    assert_eq!(forest.embedding(&chain("svcA/POST | svcB/GET | svcC/GET")), EmbeddingKind::Extended);
    assert_eq!(forest.embedding(&chain("svcA/POST | svcD/GET")), EmbeddingKind::Unrelated);
    assert_eq!(forest.embedding(&chain("svcB/GET")), EmbeddingKind::Unrelated);
}

#[test]
fn mermaid_projection() {
    let data = dataset();
    let g = data.get_diagram("svcB/GET", None, MermaidScope::Full, false, &mut Report::new()).unwrap();
    assert_eq!(
        link_list(&g),
        vec![pair("svcA/POST", "svcB/GET"), pair("svcB/GET", "svcC/GET")]
    );
    assert_eq!(node_list(&g), vec!["svcA/POST", "svcB/GET", "svcC/GET"]);
    assert_eq!(g.nodes[0].position, Position::Inbound);
    assert_eq!(g.nodes[1].position, Position::Center);
    assert_eq!(g.nodes[2].position, Position::Outbound);
    assert_eq!(g.links[0].sources, vec![0]);
    assert_eq!(g.links[1].sources, vec![1]);
    assert!(!link_list(&g).contains(&pair("svcA/POST", "svcD/GET")));
    assert_eq!(g.nodes[1].serv_oper_type, ServiceOperationType::Emphasized);
    assert_eq!(g.nodes[0].serv_oper_type, ServiceOperationType::Default);
    assert!(g.links.iter().all(|l| l.link_type == LinkType::Default));

    let inbound = data.get_diagram("svcB/GET", None, MermaidScope::Inbound, false, &mut Report::new()).unwrap();
    assert_eq!(link_list(&inbound), vec![pair("svcA/POST", "svcB/GET")]);
    let outbound = data.get_diagram("svcB/GET", None, MermaidScope::Outbound, false, &mut Report::new()).unwrap();
    assert_eq!(link_list(&outbound), vec![pair("svcB/GET", "svcC/GET")]);
    let centered = data.get_diagram("svcB/GET", None, MermaidScope::Centered, false, &mut Report::new()).unwrap();
    assert_eq!(node_list(&centered), vec!["svcB/GET"]);
    assert!(centered.links.is_empty());
}

#[test]
fn every_link_is_on_a_chain_through_the_focus() {
    let data = TracePaths(vec![
        path("gw/POST | a/x | b/y & &", 1),
        path("gw/POST | a/x & &", 1),
        path("gw/POST | a/x | b/y | c/z & & *LEAF*", 1),
        path("gw/POST | q/r & & *LEAF*", 1),
        path("other/GET | a/x & & *LEAF*", 1),
        path("b/y | d/w & & *LEAF*", 1),
    ]);
    let g = data.get_diagram("b/y", None, MermaidScope::Full, false, &mut Report::new()).unwrap();
    let through: Vec<Vec<String>> = data
        .0
        .iter()
        .map(|p| p.trace_path.call_chain.iter().map(|c| c.get_process_method()).collect::<Vec<String>>())
        .filter(|c| c.contains(&"b/y".to_string()))
        .collect();
    assert!(!g.links.is_empty());
    for l in &g.links {
        let (from, to) = ends(l);
        assert!(through.iter().any(|c| c.windows(2).any(|w| w[0] == from && w[1] == to)));
    }
    assert_eq!(
        link_list(&g),
        vec![pair("a/x", "b/y"), pair("gw/POST", "a/x"), pair("b/y", "c/z"), pair("b/y", "d/w")]
    );
}

#[test]
fn full_scope_holds_the_nodes_of_every_scope() {
    let data = dataset();
    let full = node_list(&data.get_diagram("svcB", None, MermaidScope::Full, false, &mut Report::new()).unwrap());
    for scope in [MermaidScope::Inbound, MermaidScope::Outbound, MermaidScope::Centered] {
        for node in node_list(&data.get_diagram("svcB", None, scope, false, &mut Report::new()).unwrap()) {
            assert!(full.contains(&node));
        }
    }
}

#[test]
fn scope_keeps_positions() {
    assert!(MermaidScope::Full.keeps(Position::Inbound));
    assert!(MermaidScope::Full.keeps(Position::Outbound));
    assert!(MermaidScope::Full.keeps(Position::Center));
    assert!(MermaidScope::Inbound.keeps(Position::Inbound));
    assert!(MermaidScope::Inbound.keeps(Position::Center));
    assert!(!MermaidScope::Inbound.keeps(Position::Outbound));
    assert!(MermaidScope::Outbound.keeps(Position::Outbound));
    assert!(!MermaidScope::Outbound.keeps(Position::Inbound));
    assert!(MermaidScope::Centered.keeps(Position::Center));
    assert!(!MermaidScope::Centered.keeps(Position::Inbound));
    assert!(!MermaidScope::Centered.keeps(Position::Outbound));
}

#[test]
fn link_types_merge_to_emphasized() {
    assert_eq!(LinkType::Default.merge(LinkType::Default), LinkType::Default);
    assert_eq!(LinkType::Default.merge(LinkType::Emphasized), LinkType::Emphasized);
    assert_eq!(LinkType::Emphasized.merge(LinkType::Default), LinkType::Emphasized);
    assert_eq!(LinkType::Emphasized.merge(LinkType::Emphasized), LinkType::Emphasized);
}

#[test]
fn unknown_service_is_named_in_the_error() {
    let data = dataset();
    let r = data.get_diagram("svcZ/GET", None, MermaidScope::Full, false, &mut Report::new());
    assert!(matches!(r, Err(ProjectError::NoSuchService(name)) if name == "svcZ"));
    assert!(data.knows_service(&"svcD".to_string()));
    assert!(!data.knows_service(&"svcZ".to_string()));
}

#[test]
fn known_service_with_unknown_operation_gives_an_empty_graph() {
    let data = dataset();
    let g = data.get_diagram("svcB/PUT", None, MermaidScope::Full, false, &mut Report::new()).unwrap();
    assert!(g.nodes.is_empty());
    assert!(g.links.is_empty());
}

#[test]
fn selected_chain_is_emphasized_and_counted() {
    let data = dataset();
    let selected = CChainStatsKey::parse("svcA/POST | svcB/GET | svcC/GET & & *LEAF*").unwrap();
    let g = data.get_diagram("svcB/GET", Some(&selected), MermaidScope::Full, false, &mut Report::new()).unwrap();
    assert!(g.nodes.iter().all(|n| n.serv_oper_type == ServiceOperationType::Emphasized));
    assert!(g.links.iter().all(|l| l.link_type == LinkType::Emphasized));
    assert_eq!(g.links[0].inbound_sources, vec![0]);
    assert_eq!(g.links[1].inbound_sources, vec![1]);

    let prefix = TracePaths::get_call_chain_prefix(
        &split_service_operation("svcB/GET"),
        &selected.call_chain,
    );
    assert_eq!(prefix.map(|p| p.into_iter().collect::<String>()), Some("svcA/POST | svcB/GET".to_string()));
    assert!(TracePaths::get_call_chain_prefix(
        &split_service_operation("svcZ"),
        &selected.call_chain
    )
    .is_none());
}

#[test]
fn selection_marks_only_its_own_links() {
    let data = dataset();
    let selected = CChainStatsKey::parse("svcA/POST | svcB/GET & &").unwrap();
    let g = data.get_diagram("svcB/GET", Some(&selected), MermaidScope::Full, false, &mut Report::new()).unwrap();
    assert_eq!(g.links[0].link_type, LinkType::Emphasized);
    assert_eq!(g.links[1].link_type, LinkType::Default);
    assert_eq!(g.nodes[2].serv_oper_type, ServiceOperationType::Default);
}

#[test]
fn compact_diagram_has_one_node_per_service() {
    let data = TracePaths(vec![
        path("gw/POST | a/x & &", 1),
        path("gw/POST | a/x | b/y & &", 2),
        path("gw/POST | a/x | b/z & &", 4),
        path("gw/GET | a/w & &", 8),
        path("gw/GET | a/w | b/y & & *LEAF*", 16),
    ]);
    let selected = CChainStatsKey::parse("gw/GET | a/w | b/y & & *LEAF*").unwrap();
    let full = data.get_diagram("b", Some(&selected), MermaidScope::Full, false, &mut Report::new()).unwrap();
    assert_eq!(node_list(&full), vec!["gw/POST", "a/x", "b/y", "b/z", "gw/GET", "a/w"]);
    assert_eq!(full.links.len(), 5);
    let g = data.get_diagram("b", Some(&selected), MermaidScope::Full, true, &mut Report::new()).unwrap();
    assert_eq!(node_list(&g), vec!["gw/", "a/", "b/"]);
    assert!(g.nodes.iter().all(|n| n.operation.is_empty()));
    assert_eq!(g.nodes[0].position, Position::Inbound);
    assert_eq!(g.nodes[2].position, Position::Center);
    assert!(g.nodes.iter().all(|n| n.serv_oper_type == ServiceOperationType::Emphasized));
    assert_eq!(link_list(&g), vec![pair("gw/", "a/"), pair("a/", "b/")]);
    assert_eq!(g.links[0].sources, vec![0, 3]);
    assert_eq!(g.links[1].sources, vec![1, 2, 4]);
    assert_eq!(g.links[0].link_type, LinkType::Emphasized);
    assert_eq!(g.links[1].link_type, LinkType::Emphasized);
    let plain = data.get_diagram("b", None, MermaidScope::Inbound, true, &mut Report::new()).unwrap();
    assert!(plain.links.iter().all(|l| l.link_type == LinkType::Default));
    assert_eq!(plain.nodes[0].serv_oper_type, ServiceOperationType::Default);
    assert_eq!(plain.nodes[2].serv_oper_type, ServiceOperationType::Emphasized);
}

#[test]
fn repeated_calls_add_their_chains_to_one_link() {
    let data = TracePaths(vec![
        path("a/x | b/y & &", 2),
        path("a/x | b/y & & *LEAF*", 4),
        path("a/x | b/y & [c] &", 8),
    ]);
    let g = data.build_serv_oper_graph(&split_service_operation("b"), &mut Report::new());
    assert_eq!(g.links.len(), 1);
    assert_eq!(g.links[0].sources, vec![0, 1, 2]);
    let total: usize = g.links[0].sources.iter().map(|s| data.0[*s].count).sum();
    assert_eq!(total, 14);
}

#[test]
fn graph_operations_one_by_one() {
    let a = Call { process: "a".to_string(), method: "x".to_string(), call_direction: CallDirection::Inbound };
    let b = Call { process: "b".to_string(), method: "y".to_string(), call_direction: CallDirection::Outbound };
    let mut g = ServiceOperGraph::new();
    g.add_connection(&a, &b, 0, "b", Position::Inbound);
    g.add_connection(&a, &b, 4, "b", Position::Outbound);
    g.add_connection(&b, &a, 9, "b", Position::Outbound);
    assert_eq!(g.nodes.len(), 2);
    assert_eq!(g.nodes[0].position, Position::Inbound);
    assert_eq!(g.nodes[1].position, Position::Center);
    assert_eq!(g.links.len(), 2);
    assert_eq!(g.links[0].sources, vec![0, 4]);
    assert_eq!(g.find_link(&a, &b), 0);
    assert_eq!(g.find_link(&b, &a), 1);
    assert_eq!(g.find_link(&a, &a), 2);
    assert_eq!(g.find_node(&"b".to_string(), &"y".to_string()), 1);
    g.update_inbound_path_count(&b, &a, 3);
    g.update_inbound_path_count(&a, &a, 3);
    assert_eq!(g.links[1].inbound_sources, vec![3]);
    assert!(g.links[0].inbound_sources.is_empty());
    g.mark_selected_call_chain(&vec![b.clone(), a.clone()]);
    assert_eq!(g.links[0].link_type, LinkType::Default);
    assert_eq!(g.links[1].link_type, LinkType::Emphasized);
    let kept = g.scoped_graph(MermaidScope::Centered);
    assert_eq!(kept.nodes.len(), 1);
    assert!(kept.links.is_empty());
}

#[test]
fn paths_come_from_the_chains_of_a_record() {
    let mut rec = StatsRec::new(Vec::new(), 1);
    let key = CChainStatsKey::parse("a/x | b/y & & *LEAF*").unwrap();
    let mut value = jaeger_stats::cchain_stats::CChainStatsValue::new(2, Vec::new(), true);
    value.record(&jaeger_stats::cchain_stats::ChainObservation {
        duration_micros: 1,
        start_dt_micros: 2,
        looped: Vec::new(),
        http_not_ok: Vec::new(),
        error_logs: Vec::new(),
    });
    rec.call_chains.push_new(key.call_chain_key(), jaeger_stats::stats_rec::ChainEntry { key, value });
    let paths = TracePaths::from_stats_rec(&rec);
    assert_eq!(paths.0.len(), 1);
    assert_eq!(paths.0[0].full_key, "a/x | b/y & & *LEAF*");
    assert_eq!(paths.0[0].count, 1);
    assert_eq!(paths.0[0].trace_path.call_chain.len(), 2);
}

#[test]
fn chains_of_a_single_call_are_skipped_with_a_note() {
    let data = dataset();
    let mut report = Report::new();
    let g = data.get_diagram("svcB/GET", None, MermaidScope::Full, false, &mut report).unwrap();
    assert_eq!(g.links.len(), 2);
    assert_eq!(
        report.messages(Chapter::Details),
        vec!["Skipping call-chain as it consists of a single step 'svcA/POST & &' (no link)".to_string()]
    );

    let selected = CChainStatsKey::parse("svcA/POST | svcB/GET & &").unwrap();
    let mut report = Report::new();
    data.get_diagram("svcA", Some(&selected), MermaidScope::Full, false, &mut report).unwrap();
    assert_eq!(
        report.messages(Chapter::Details),
        vec![
            "Skipping call-chain as it consists of a single step 'svcA/POST & &' (no link)".to_string(),
            "Skipping call-chain as it consists of a single step 'svcA/POST & &' (no link)".to_string(),
        ]
    );

    let mut report = Report::new();
    assert!(data.get_diagram("svcZ", None, MermaidScope::Full, false, &mut report).is_err());
    assert_eq!(report.chapters(), 0);
    let mut report = Report::new();
    data.get_diagram("svcD", None, MermaidScope::Full, true, &mut report).unwrap();
    assert_eq!(report.messages(Chapter::Details).len(), 1);
}

#[test]
fn full_scope_names_the_nodes_of_every_scope_when_compact() {
    let data = TracePaths(vec![
        path("gw/POST | a/x & &", 1),
        path("gw/POST | a/x | b/y & &", 2),
        path("gw/POST | a/x | b/y | gw/callback & & *LEAF*", 4),
        path("gw/GET | a/w | b/y | c/z & & *LEAF*", 8),
        path("gw/GET | a/w | b/y & &", 8),
    ]);
    for compact in [false, true] {
        let full = node_list(&data.get_diagram("b", None, MermaidScope::Full, compact, &mut Report::new()).unwrap());
        for scope in [MermaidScope::Inbound, MermaidScope::Outbound, MermaidScope::Centered] {
            let some = node_list(&data.get_diagram("b", None, scope, compact, &mut Report::new()).unwrap());
            assert!(!some.is_empty());
            for node in some {
                assert!(full.contains(&node));
            }
        }
    }
}
