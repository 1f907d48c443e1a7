use tremor_runtime::errors::ErrorKind;
use tremor_runtime::graph::{
    build, cycle_node, ConfigEntry, ConfigNeed, EdgeDecl, FieldDecl, GraphDecl, NodeDecl, OperatorKind,
};

fn registry() -> Vec<OperatorKind> {
    vec![
        OperatorKind {
            namespace: "connector".to_string(),
            name: "clickhouse".to_string(),
            config: ConfigNeed::Required,
            fields: vec![
                FieldDecl { name: "host".to_string(), required: true },
                FieldDecl { name: "port".to_string(), required: false },
            ],
        },
        OperatorKind {
            namespace: "generic".to_string(),
            name: "passthrough".to_string(),
            config: ConfigNeed::Forbidden,
            fields: vec![],
        },
        OperatorKind {
            namespace: "generic".to_string(),
            name: "batch".to_string(),
            config: ConfigNeed::Optional,
            fields: vec![FieldDecl { name: "count".to_string(), required: true }],
        },
    ]
}

fn entry(k: &str, v: &str) -> ConfigEntry {
    ConfigEntry { key: k.to_string(), value: v.to_string() }
}

fn node(name: &str, ns: &str, kind: &str, config: Option<Vec<ConfigEntry>>) -> NodeDecl {
    NodeDecl { name: name.to_string(), namespace: ns.to_string(), kind: kind.to_string(), config }
}

fn edge(from: usize, to: usize) -> EdgeDecl {
    EdgeDecl { from, from_port: "out".to_string(), to, to_port: "in".to_string() }
}

fn err_of(d: GraphDecl) -> ErrorKind {
    match build(&registry(), d) {
        Ok(_) => panic!("expected the build to fail"),
        Err(e) => e.kind,
    }
}

#[test]
fn sink_without_required_host_is_refused() {
    let d = GraphDecl {
        nodes: vec![node("sink", "connector", "clickhouse", Some(vec![entry("port", "9000")]))],
        edges: vec![],
    };
    assert_eq!(err_of(d), ErrorKind::MissingOpConfig("host".to_string()));
}

#[test]
fn sink_with_self_edge_is_cyclic() {
    let d = GraphDecl {
        nodes: vec![node("sink", "connector", "clickhouse", Some(vec![entry("host", "localhost")]))],
        edges: vec![edge(0, 0)],
    };
    assert_eq!(err_of(d), ErrorKind::CyclicGraphError("sink".to_string()));
}

#[test]
fn required_config_omitted_is_missing() {
    let d = GraphDecl { nodes: vec![node("sink", "connector", "clickhouse", None)], edges: vec![] };
    assert_eq!(err_of(d), ErrorKind::MissingOpConfig("sink".to_string()));
}

#[test]
fn configless_kind_with_config_is_extra() {
    let d = GraphDecl {
        nodes: vec![node("p", "generic", "passthrough", Some(vec![]))],
        edges: vec![],
    };
    assert_eq!(err_of(d), ErrorKind::ExtraOpConfig("p".to_string()));
}

#[test]
fn unknown_namespace_and_operator() {
    let d = GraphDecl { nodes: vec![node("x", "nowhere", "passthrough", None)], edges: vec![] };
    assert_eq!(err_of(d), ErrorKind::UnknownNamespace("nowhere".to_string()));
    let d = GraphDecl { nodes: vec![node("x", "generic", "nothing", None)], edges: vec![] };
    assert_eq!(err_of(d), ErrorKind::UnknownOp("generic".to_string(), "nothing".to_string()));
}

#[test]
fn undeclared_config_key_is_bad_config() {
    let d = GraphDecl {
        nodes: vec![node("b", "generic", "batch", Some(vec![entry("count", "3"), entry("size", "9")]))],
        edges: vec![],
    };
    assert_eq!(err_of(d), ErrorKind::BadOpConfig("size".to_string()));
}

#[test]
fn optional_config_checks_fields_only_when_given() {
    let d = GraphDecl { nodes: vec![node("b", "generic", "batch", None)], edges: vec![] };
    assert!(build(&registry(), d).is_ok());
    let d = GraphDecl { nodes: vec![node("b", "generic", "batch", Some(vec![]))], edges: vec![] };
    assert_eq!(err_of(d), ErrorKind::MissingOpConfig("count".to_string()));
}

#[test]
fn edge_to_missing_node_is_bad_output_id() {
    let d = GraphDecl {
        nodes: vec![node("p", "generic", "passthrough", None)],
        edges: vec![edge(0, 0), edge(0, 5)],
    };
    assert_eq!(err_of(d), ErrorKind::BadOutputid(1));
}

#[test]
fn first_faulty_node_wins() {
    let d = GraphDecl {
        nodes: vec![
            node("a", "generic", "passthrough", None),
            node("b", "generic", "passthrough", Some(vec![])),
            node("c", "nowhere", "x", None),
        ],
        edges: vec![],
    };
    assert_eq!(err_of(d), ErrorKind::ExtraOpConfig("b".to_string()));
}

#[test]
fn linear_graph_builds_with_resolved_kinds() {
    let d = GraphDecl {
        nodes: vec![
            node("in", "generic", "passthrough", None),
            node("mid", "generic", "batch", Some(vec![entry("count", "2")])),
            node("out", "connector", "clickhouse", Some(vec![entry("host", "h")])),
        ],
        edges: vec![edge(0, 1), edge(1, 2), edge(0, 2)],
    };
    let g = match build(&registry(), d) {
        Ok(g) => g,
        Err(e) => panic!("unexpected error {:?}", e),
    };
    assert_eq!(g.kinds, vec![1, 2, 0]);
    assert_eq!(g.decl.nodes.len(), 3);
}

#[test]
fn longer_cycle_names_a_node_on_it() {
    let d = GraphDecl {
        nodes: vec![
            node("a", "generic", "passthrough", None),
            node("b", "generic", "passthrough", None),
            node("c", "generic", "passthrough", None),
            node("d", "generic", "passthrough", None),
        ],
        edges: vec![edge(0, 1), edge(1, 2), edge(2, 3), edge(3, 1)],
    };
    match err_of(d) {
        ErrorKind::CyclicGraphError(n) => assert!(n == "b" || n == "c" || n == "d"),
        other => panic!("unexpected {:?}", other),
    }
}

#[test]
fn cycle_node_on_plain_graphs() {
    assert_eq!(cycle_node(0, &vec![]), None);
    assert_eq!(cycle_node(3, &vec![edge(0, 1), edge(1, 2), edge(0, 2)]), None);
    assert_eq!(cycle_node(2, &vec![edge(0, 1), edge(1, 1)]), Some(1));
    let v = cycle_node(3, &vec![edge(2, 0), edge(0, 1), edge(1, 0)]).expect("a cycle");
    assert!(v == 0 || v == 1);
}

#[test]
fn fan_out_follows_declaration_order() {
    let d = GraphDecl {
        nodes: vec![
            node("a", "generic", "passthrough", None),
            node("b", "generic", "passthrough", None),
            node("c", "generic", "passthrough", None),
        ],
        edges: vec![
            edge(0, 2),
            EdgeDecl { from: 0, from_port: "err".to_string(), to: 1, to_port: "in".to_string() },
            edge(1, 2),
            edge(0, 1),
        ],
    };
    let g = build(&registry(), d).ok().expect("acyclic");
    assert_eq!(g.successors(0, &"out".to_string()), vec![(2, "in".to_string()), (1, "in".to_string())]);
    assert_eq!(g.successors(0, &"err".to_string()), vec![(1, "in".to_string())]);
    assert!(g.successors(2, &"out".to_string()).is_empty());
}
