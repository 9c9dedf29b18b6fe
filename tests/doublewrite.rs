use commits::doublewrite::{DoubleWriteCommits, DoubleWriteError};
use commits::graph::GraphStore;
use commits::history::{CommitRecord, SerializationFormat, StoreError};
use commits::legacy::LegacyStore;
use commits::vertex::Vertex;

fn v(name: &str) -> Vertex {
    Vertex::new(name.as_bytes().to_vec())
}

fn rec(name: &str, parents: &[&str], text: &str) -> CommitRecord {
    CommitRecord::new(v(name), parents.iter().map(|p| v(p)).collect(), text.as_bytes().to_vec())
}

fn store() -> DoubleWriteCommits {
    DoubleWriteCommits::new(
        "/repo/.hg/store".to_string(),
        "/repo/.hg/store/segments/v1".to_string(),
        "/repo/.hg/store/hgcommits/v1".to_string(),
        SerializationFormat::Hg,
    )
}

fn names(vs: &[Vertex]) -> Vec<Vec<u8>> {
    let mut out: Vec<Vec<u8>> = vs.iter().map(|x| x.hash.clone()).collect();
    out.sort();
    out
}

fn text(c: &DoubleWriteCommits, name: &str) -> Option<Vec<u8>> {
    c.get_commit_raw_text(&v(name))
}

#[test]
fn round_trip_after_add_and_flush() {
    let mut c = store();
    assert!(c.add_commits(&vec![rec("A", &[], "text a"), rec("B", &["A"], "text b")]).is_ok());
    c.flush(&vec![v("B")]);
    assert_eq!(text(&c, "A"), Some(b"text a".to_vec()));
    assert_eq!(text(&c, "B"), Some(b"text b".to_vec()));
    assert_eq!(text(&c, "C"), None);
    assert!(!c.legacy().has_unflushed_changes());
}

#[test]
fn add_writes_both_stores() {
    let mut c = store();
    assert!(c.add_commits(&vec![rec("A", &[], "a")]).is_ok());
    assert!(c.legacy().contains(&v("A")));
    assert!(c.graph().contains(&v("A")));
    assert!(c.legacy().has_unflushed_changes());
}

#[test]
fn add_with_dangling_parent_changes_nothing() {
    let mut c = store();
    assert!(c.add_commits(&vec![rec("A", &[], "a")]).is_ok());
    let r = c.add_commits(&vec![rec("B", &["A"], "b"), rec("C", &["X"], "c")]);
    match r {
        Err(DoubleWriteError::Legacy(StoreError::MissingParent { vertex, parent })) => {
            assert_eq!(vertex.hash, b"C".to_vec());
            assert_eq!(parent.hash, b"X".to_vec());
        }
        _ => panic!("expected a legacy refusal"),
    }
    assert!(!c.legacy().contains(&v("B")));
    assert!(!c.graph().contains(&v("B")));
}

#[test]
fn adding_twice_is_idempotent() {
    let mut c = store();
    let batch = vec![rec("A", &[], "a"), rec("B", &["A"], "b")];
    assert!(c.add_commits(&batch).is_ok());
    assert!(c.add_commits(&batch).is_ok());
    assert_eq!(c.legacy().records().len(), 2);
    assert_eq!(c.vertex_id(&v("A")), Some(0));
    assert_eq!(c.vertex_id(&v("B")), Some(1));
}

#[test]
fn graph_behind_reports_partial_write() {
    let mut legacy = LegacyStore::new("/r".to_string(), SerializationFormat::Hg);
    assert!(legacy.add_commits(&vec![rec("A", &[], "a")]).is_ok());
    let graph = GraphStore::new("/d".to_string(), "/c".to_string(), SerializationFormat::Hg);
    let mut c = DoubleWriteCommits::from_stores(legacy, graph, SerializationFormat::Hg).unwrap();
    let r = c.add_commits(&vec![rec("B", &["A"], "b")]);
    assert!(matches!(r, Err(DoubleWriteError::GraphBehind(StoreError::MissingParent { .. }))));
    assert!(c.legacy().contains(&v("B")));
    assert!(!c.graph().contains(&v("B")));
    assert_eq!(text(&c, "B"), Some(b"b".to_vec()));
}

#[test]
fn read_falls_back_to_legacy() {
    let mut legacy = LegacyStore::new("/r".to_string(), SerializationFormat::Hg);
    assert!(legacy.add_commits(&vec![rec("A", &[], "from log")]).is_ok());
    let graph = GraphStore::new("/d".to_string(), "/c".to_string(), SerializationFormat::Hg);
    let c = DoubleWriteCommits::from_stores(legacy, graph, SerializationFormat::Hg).unwrap();
    assert!(!c.graph().contains(&v("A")));
    assert_eq!(text(&c, "A"), Some(b"from log".to_vec()));
}

#[test]
fn read_prefers_graph_text() {
    let mut legacy = LegacyStore::new("/r".to_string(), SerializationFormat::Hg);
    assert!(legacy.add_commits(&vec![rec("A", &[], "log text")]).is_ok());
    let mut graph = GraphStore::new("/d".to_string(), "/c".to_string(), SerializationFormat::Hg);
    assert!(graph.add_commits(&vec![rec("A", &[], "graph text")]).is_ok());
    let c = DoubleWriteCommits::from_stores(legacy, graph, SerializationFormat::Hg).unwrap();
    assert_eq!(text(&c, "A"), Some(b"graph text".to_vec()));
}

#[test]
fn from_stores_refuses_graph_ahead_of_log() {
    let legacy = LegacyStore::new("/r".to_string(), SerializationFormat::Hg);
    let mut graph = GraphStore::new("/d".to_string(), "/c".to_string(), SerializationFormat::Hg);
    assert!(graph.add_commits(&vec![rec("A", &[], "a")]).is_ok());
    assert!(DoubleWriteCommits::from_stores(legacy, graph, SerializationFormat::Hg).is_none());
}

#[test]
fn stream_reads_legacy_only() {
    let mut legacy = LegacyStore::new("/r".to_string(), SerializationFormat::Hg);
    assert!(legacy.add_commits(&vec![rec("A", &[], "a"), rec("B", &["A"], "b")]).is_ok());
    let mut graph = GraphStore::new("/d".to_string(), "/c".to_string(), SerializationFormat::Hg);
    assert!(graph.add_commits(&vec![rec("A", &[], "graph a")]).is_ok());
    let c = DoubleWriteCommits::from_stores(legacy, graph, SerializationFormat::Hg).unwrap();
    let out = c.stream_commit_raw_text(&vec![v("B"), v("A"), v("Z")]);
    assert_eq!(out.len(), 3);
    match &out[0] {
        Ok(p) => {
            assert_eq!(p.vertex.hash, b"B".to_vec());
            assert_eq!(p.raw_text, b"b".to_vec());
        }
        Err(_) => panic!("B is in the log"),
    }
    match &out[1] {
        Ok(p) => assert_eq!(p.raw_text, b"a".to_vec()),
        Err(_) => panic!("A is in the log"),
    }
    match &out[2] {
        Err(StoreError::NotFound(x)) => assert_eq!(x.hash, b"Z".to_vec()),
        _ => panic!("Z is not in the log"),
    }
}

#[test]
fn strip_removes_set_and_descendants_from_both() {
    let mut c = store();
    let batch = vec![
        rec("A", &[], "a"),
        rec("B", &["A"], "b"),
        rec("C", &["B"], "c"),
        rec("D", &["A"], "d"),
    ];
    assert!(c.add_commits(&batch).is_ok());
    c.strip_commits(&vec![v("B")]);
    for gone in ["B", "C"] {
        assert!(!c.legacy().contains(&v(gone)));
        assert!(!c.graph().contains(&v(gone)));
        assert_eq!(text(&c, gone), None);
        assert!(c.ancestors(&v(gone)).is_empty());
    }
    assert!(c.legacy().contains(&v("D")));
    assert!(c.graph().contains(&v("D")));
    assert_eq!(names(&c.ancestors(&v("D"))), vec![b"A".to_vec(), b"D".to_vec()]);
}

#[test]
fn strip_keeps_ids_of_survivors() {
    let mut c = store();
    assert!(c.add_commits(&vec![rec("A", &[], "a"), rec("B", &["A"], "b"), rec("C", &["A"], "c")]).is_ok());
    c.strip_commits(&vec![v("B")]);
    assert_eq!(c.vertex_id(&v("C")), Some(2));
    assert_eq!(c.id_vertex(2).map(|x| x.hash), Some(b"C".to_vec()));
    assert!(c.id_vertex(1).is_none());
    assert!(c.add_commits(&vec![rec("B", &["A"], "b")]).is_ok());
    assert_eq!(c.vertex_id(&v("B")), Some(3));
}

#[test]
fn virtual_nodes_stay_out_of_history() {
    let mut c = store();
    assert!(c.add_commits(&vec![rec("A", &[], "a")]).is_ok());
    c.update_virtual_nodes(vec![v("A"), v("W")]);
    assert!(!c.legacy().contains(&v("W")));
    assert!(!c.graph().contains(&v("W")));
    assert_eq!(c.legacy().records().len(), 1);
    assert_eq!(text(&c, "W"), None);
}

#[test]
fn crash_between_writes_then_catch_up() {
    let mut legacy = LegacyStore::new("/r".to_string(), SerializationFormat::Hg);
    assert!(legacy.add_commits(&vec![rec("A", &[], "a"), rec("B", &["A"], "b")]).is_ok());
    let mut graph = GraphStore::new("/d".to_string(), "/c".to_string(), SerializationFormat::Hg);
    assert!(graph.add_commits(&vec![rec("A", &[], "a")]).is_ok());
    let mut c = DoubleWriteCommits::from_stores(legacy, graph, SerializationFormat::Hg).unwrap();
    assert!(c.ancestors(&v("B")).is_empty());
    assert!(c.catch_up().is_ok());
    assert_eq!(names(&c.ancestors(&v("B"))), vec![b"A".to_vec(), b"B".to_vec()]);
    assert_eq!(c.vertex_id(&v("A")), Some(0));
    assert_eq!(c.vertex_id(&v("B")), Some(1));
}

#[test]
fn ancestors_of_merge() {
    let mut c = store();
    let batch = vec![
        rec("A", &[], "a"),
        rec("B", &["A"], "b"),
        rec("C", &["A"], "c"),
        rec("M", &["B", "C"], "m"),
        rec("E", &[], "e"),
    ];
    assert!(c.add_commits(&batch).is_ok());
    assert_eq!(
        names(&c.ancestors(&v("M"))),
        vec![b"A".to_vec(), b"B".to_vec(), b"C".to_vec(), b"M".to_vec()]
    );
    assert_eq!(names(&c.ancestors(&v("E"))), vec![b"E".to_vec()]);
    assert!(c.ancestors(&v("Q")).is_empty());
}

#[test]
fn flush_records_heads_and_clears_dirty() {
    let mut c = store();
    assert!(c.add_commits(&vec![rec("A", &[], "a")]).is_ok());
    assert!(c.legacy().has_unflushed_changes());
    c.flush_commit_data();
    assert!(!c.legacy().has_unflushed_changes());
    c.flush(&vec![v("A")]);
    assert!(!c.legacy().has_unflushed_changes());
    assert_eq!(c.format(), SerializationFormat::Hg);
}

#[test]
fn describe_backend_names_locations() {
    let c = store();
    assert_eq!(c.algorithm_backend(), "segments");
    let expected = "Backend (doublewrite):
  Local:
    Segments + IdMap: /repo/.hg/store/segments/v1
    Zstore: /repo/.hg/store/hgcommits/v1
    Revlog + Nodemap: /repo/.hg/store/00changelog.{i,d,nodemap}
Feature Providers:
  Commit Graph Algorithms:
    Segments
  Commit Hash / Rev Lookup:
    IdMap
  Commit Data (user, message):
    Zstore (incomplete)
    Revlog
";
    assert_eq!(c.describe_backend(), expected);
}

#[test]
fn vertex_equality_and_copy() {
    let a = v("abc");
    assert!(a.same_as(&v("abc")));
    assert!(!a.same_as(&v("abd")));
    assert!(!a.same_as(&v("ab")));
    assert_eq!(a.duplicate().hash, b"abc".to_vec());
}

#[test]
fn descendants_query() {
    let mut c = store();
    let batch = vec![
        rec("A", &[], "a"),
        rec("B", &["A"], "b"),
        rec("C", &["A"], "c"),
        rec("M", &["B", "C"], "m"),
        rec("E", &[], "e"),
    ];
    assert!(c.add_commits(&batch).is_ok());
    assert_eq!(
        names(&c.descendants(&v("A"))),
        vec![b"A".to_vec(), b"B".to_vec(), b"C".to_vec(), b"M".to_vec()]
    );
    assert_eq!(names(&c.descendants(&v("C"))), vec![b"C".to_vec(), b"M".to_vec()]);
    assert!(c.descendants(&v("Q")).is_empty());
}

#[test]
fn prefix_lookup() {
    let mut c = store();
    let batch = vec![rec("abc1", &[], "1"), rec("abd2", &[], "2"), rec("xbc3", &[], "3")];
    assert!(c.add_commits(&batch).is_ok());
    assert_eq!(
        names(&c.vertices_with_prefix(&b"ab".to_vec())),
        vec![b"abc1".to_vec(), b"abd2".to_vec()]
    );
    assert_eq!(names(&c.vertices_with_prefix(&b"abc1".to_vec())), vec![b"abc1".to_vec()]);
    assert!(c.vertices_with_prefix(&b"abc12".to_vec()).is_empty());
    assert_eq!(c.vertices_with_prefix(&Vec::new()).len(), 3);
    c.strip_commits(&vec![v("abd2")]);
    assert_eq!(names(&c.vertices_with_prefix(&b"ab".to_vec())), vec![b"abc1".to_vec()]);
}

#[test]
fn catch_up_on_empty_graph_copies_everything() {
    let mut legacy = LegacyStore::new("/r".to_string(), SerializationFormat::Git);
    assert!(legacy
        .add_commits(&vec![rec("A", &[], "a"), rec("B", &["A"], "b"), rec("C", &["B"], "c")])
        .is_ok());
    let graph = GraphStore::new("/d".to_string(), "/c".to_string(), SerializationFormat::Git);
    let mut c = DoubleWriteCommits::from_stores(legacy, graph, SerializationFormat::Git).unwrap();
    assert!(c.catch_up().is_ok());
    for name in ["A", "B", "C"] {
        assert!(c.graph().contains(&v(name)));
    }
    assert_eq!(c.graph().get_commit_raw_text(&v("C")), Some(b"c".to_vec()));
    assert_eq!(names(&c.descendants(&v("A"))).len(), 3);
    assert_eq!(c.format(), SerializationFormat::Git);
}

#[test]
fn graph_flush_records_master_heads() {
    let mut g = GraphStore::new("/d".to_string(), "/c".to_string(), SerializationFormat::Hg);
    assert!(g.add_commits(&vec![rec("A", &[], "a")]).is_ok());
    g.flush(&vec![v("A")]);
    assert_eq!(g.dag_path(), "/d");
    assert_eq!(g.commits_path(), "/c");
    assert_eq!(g.vertex_id(&v("A")), Some(0));
}

#[test]
fn from_stores_refuses_mixed_formats() {
    let legacy = LegacyStore::new("/r".to_string(), SerializationFormat::Hg);
    let graph = GraphStore::new("/d".to_string(), "/c".to_string(), SerializationFormat::Git);
    assert!(DoubleWriteCommits::from_stores(legacy, graph, SerializationFormat::Hg).is_none());
    let legacy = LegacyStore::new("/r".to_string(), SerializationFormat::Git);
    let graph = GraphStore::new("/d".to_string(), "/c".to_string(), SerializationFormat::Git);
    assert!(DoubleWriteCommits::from_stores(legacy, graph, SerializationFormat::Hg).is_none());
    let legacy = LegacyStore::new("/r".to_string(), SerializationFormat::Git);
    let graph = GraphStore::new("/d".to_string(), "/c".to_string(), SerializationFormat::Git);
    let c = DoubleWriteCommits::from_stores(legacy, graph, SerializationFormat::Git).unwrap();
    assert_eq!(c.legacy().format(), SerializationFormat::Git);
    assert_eq!(c.graph().format(), SerializationFormat::Git);
}

#[test]
fn new_threads_format_to_both_stores() {
    let c = DoubleWriteCommits::new("/r".to_string(), "/d".to_string(), "/c".to_string(), SerializationFormat::Git);
    assert_eq!(c.format(), SerializationFormat::Git);
    assert_eq!(c.legacy().format(), SerializationFormat::Git);
    assert_eq!(c.graph().format(), SerializationFormat::Git);
}

#[test]
fn first_dangling_parent_is_reported() {
    let mut c = store();
    let r = c.add_commits(&vec![
        rec("A", &[], "a"),
        rec("B", &["A", "X", "Y"], "b"),
        rec("C", &["Z"], "c"),
    ]);
    match r {
        Err(DoubleWriteError::Legacy(StoreError::MissingParent { vertex, parent })) => {
            assert_eq!(vertex.hash, b"B".to_vec());
            assert_eq!(parent.hash, b"X".to_vec());
        }
        _ => panic!("expected a legacy refusal"),
    }
    assert!(!c.legacy().contains(&v("A")));
}

#[test]
fn describe_backend_joins_paths() {
    let c = DoubleWriteCommits::new("/store/".to_string(), "/d".to_string(), "/c".to_string(), SerializationFormat::Hg);
    assert!(c.describe_backend().contains("Revlog + Nodemap: /store/00changelog.{i,d,nodemap}\n"));
    let c = DoubleWriteCommits::new(String::new(), "/d".to_string(), "/c".to_string(), SerializationFormat::Hg);
    assert!(c.describe_backend().contains("Revlog + Nodemap: 00changelog.{i,d,nodemap}\n"));
}

#[test]
fn add_keeps_ids_and_virtual_nodes() {
    let mut c = store();
    assert!(c.add_commits(&vec![rec("A", &[], "a")]).is_ok());
    c.update_virtual_nodes(vec![v("A")]);
    assert!(c.add_commits(&vec![rec("B", &["A"], "b")]).is_ok());
    assert_eq!(c.vertex_id(&v("A")), Some(0));
    assert_eq!(c.vertex_id(&v("B")), Some(1));
}

#[test]
fn heads_roots_and_reachability() {
    let mut c = store();
    let batch = vec![
        rec("A", &[], "a"),
        rec("B", &["A"], "b"),
        rec("C", &["A"], "c"),
        rec("M", &["B", "C"], "m"),
        rec("E", &[], "e"),
    ];
    assert!(c.add_commits(&batch).is_ok());
    assert_eq!(names(&c.heads()), vec![b"E".to_vec(), b"M".to_vec()]);
    assert_eq!(names(&c.roots()), vec![b"A".to_vec(), b"E".to_vec()]);
    assert!(c.is_ancestor(&v("A"), &v("M")));
    assert!(c.is_ancestor(&v("M"), &v("M")));
    assert!(!c.is_ancestor(&v("M"), &v("A")));
    assert!(!c.is_ancestor(&v("E"), &v("M")));
    assert!(!c.is_ancestor(&v("Q"), &v("M")));
    c.strip_commits(&vec![v("C")]);
    assert_eq!(names(&c.heads()), vec![b"B".to_vec(), b"E".to_vec()]);
    assert!(!c.is_ancestor(&v("A"), &v("M")));
}
