use velum::engine::{NodeDirectory, NodePoolError};
use velum::lifecycle::{RuntimePhase, RuntimeSnapshot};

fn nodes(pairs: &[(&str, &str)]) -> Vec<(String, String)> {
    pairs.iter().map(|(id, alias)| (id.to_string(), alias.to_string())).collect()
}

#[test]
fn directory_rejects_duplicate_aliases_and_missing_defaults() {
    assert_eq!(
        NodeDirectory::prepare(nodes(&[("one", "same"), ("two", "same")]), "one").err(),
        Some(NodePoolError::DuplicateNode)
    );
    assert_eq!(
        NodeDirectory::prepare(nodes(&[("one", "a"), ("one", "b")]), "one").err(),
        Some(NodePoolError::DuplicateNode)
    );
    assert_eq!(
        NodeDirectory::prepare(nodes(&[("", "a")]), "a").err(),
        Some(NodePoolError::DuplicateNode)
    );
    assert_eq!(
        NodeDirectory::prepare(nodes(&[("one", "primary")]), "missing").err(),
        Some(NodePoolError::MissingDefault)
    );
    assert_eq!(NodeDirectory::prepare(vec![], "one").err(), Some(NodePoolError::Empty));
}

#[test]
fn directory_resolves_identifiers_aliases_and_the_default() {
    let directory = NodeDirectory::prepare(nodes(&[("two", "backup"), ("one", "primary")]), "primary")
        .expect("directory")
        .with_generation(5);
    assert_eq!(directory.generation(), 5);
    assert_eq!(directory.default_node().as_deref(), Some("one"));
    assert_eq!(directory.nodes(), &nodes(&[("one", "primary"), ("two", "backup")]));
    assert_eq!(directory.resolve("PROXY", 5), Ok("one".to_string()));
    assert_eq!(directory.resolve("backup", 5), Ok("two".to_string()));
    assert_eq!(directory.resolve("two", 5), Ok("two".to_string()));
    assert_eq!(directory.resolve("three", 5), Err(NodePoolError::UnknownNode));
    assert_eq!(directory.resolve("one", 4), Err(NodePoolError::Superseded));
}

#[test]
fn a_stopped_directory_selects_nothing() {
    let directory = NodeDirectory::stopped(9);
    assert_eq!(directory.default_node(), None);
    assert!(directory.nodes().is_empty());
    assert_eq!(directory.resolve("PROXY", 9), Err(NodePoolError::UnknownNode));
}

#[test]
fn identifiers_are_ordered_byte_wise() {
    let directory = NodeDirectory::prepare(
        nodes(&[("b", "x"), ("B", "y"), ("ab", "z"), ("a", "w")]),
        "a",
    )
    .expect("directory");
    let ids: Vec<&str> = directory.nodes().iter().map(|(id, _)| id.as_str()).collect();
    assert_eq!(ids, vec!["B", "a", "ab", "b"]);
}

#[test]
fn directory_snapshot_marks_the_default_and_unstarted_nodes() {
    let directory = NodeDirectory::prepare(nodes(&[("two", "backup"), ("one", "primary")]), "primary")
        .expect("valid nodes")
        .with_generation(7);
    let online = RuntimeSnapshot { revision: 3, generation: 2, phase: RuntimePhase::Online, failure: None };
    let snapshot = directory.snapshot(&vec![Some(online), None]);
    assert_eq!(snapshot.generation, 7);
    assert_eq!(snapshot.default_node.as_deref(), Some("one"));
    assert_eq!(snapshot.nodes.len(), 2);
    assert_eq!(snapshot.nodes[0].id, "one");
    assert_eq!(snapshot.nodes[0].alias, "primary");
    assert!(snapshot.nodes[0].is_default);
    assert_eq!(snapshot.nodes[0].runtime, Some(online));
    assert_eq!(snapshot.nodes[1].id, "two");
    assert!(!snapshot.nodes[1].is_default);
    assert_eq!(snapshot.nodes[1].runtime, None);
    let stopped = NodeDirectory::stopped(9).snapshot(&vec![]);
    assert_eq!(stopped.default_node, None);
    assert!(stopped.nodes.is_empty());
}
