use gitat::graph::{build_graph, GraphCell, GraphRow};
use gitat::log::CommitInfo;

fn commit(hash: &str, parents: &[&str]) -> CommitInfo {
    CommitInfo {
        hash: hash.to_string(),
        short_hash: hash[..3.min(hash.len())].to_string(),
        author: "Test".to_string(),
        date: "2026-01-01".to_string(),
        message: format!("commit {hash}"),
        refs: vec![],
        parent_hashes: parents.iter().map(|s| s.to_string()).collect(),
    }
}

fn cell(symbol: char, color_index: usize) -> GraphCell {
    GraphCell { symbol, color_index }
}

#[test]
fn test_linear_history() {
    let commits = vec![commit("aaa", &["bbb"]), commit("bbb", &["ccc"]), commit("ccc", &[])];
    let graph = build_graph(&commits);
    assert_eq!(graph.len(), 3);
    for row in &graph {
        assert_eq!(row.cells.len(), 1);
        assert_eq!(row.cells[0].symbol, '*');
    }
    assert_eq!(graph[0].cells[0].color_index, graph[1].cells[0].color_index);
    assert_eq!(graph[1].cells[0].color_index, graph[2].cells[0].color_index);
}

#[test]
fn test_root_commit() {
    let commits = vec![commit("aaa", &[])];
    let graph = build_graph(&commits);
    assert_eq!(graph.len(), 1);
    assert_eq!(graph[0].cells.len(), 1);
    assert_eq!(graph[0].cells[0].symbol, '*');
}

#[test]
fn snapshot_linear_history() {
    let commits = vec![commit("aaa", &["bbb"]), commit("bbb", &["ccc"]), commit("ccc", &[])];
    let graph = build_graph(&commits);
    let row = GraphRow { cells: vec![cell('*', 0)] };
    assert_eq!(graph, vec![row.clone(), row.clone(), row]);
}

#[test]
fn merge_opens_a_lane_that_closes_again() {
    // m merges a (first parent) and b; both lead to r.
    let commits = vec![commit("m", &["a", "b"]), commit("a", &["r"]), commit("b", &["r"]), commit("r", &[])];
    let graph = build_graph(&commits);
    assert_eq!(graph[0], GraphRow { cells: vec![cell('*', 0)] });
    assert_eq!(graph[1], GraphRow { cells: vec![cell('*', 0), cell('|', 1)] });
    assert_eq!(graph[2], GraphRow { cells: vec![cell('|', 0), cell('*', 1)] });
    // b's lane now waits for r too, and is freed as a duplicate.
    assert_eq!(graph[3], GraphRow { cells: vec![cell('*', 0)] });
}

#[test]
fn unrelated_commit_gets_a_new_lane_and_color() {
    let commits = vec![commit("a", &["p"]), commit("x", &[]), commit("p", &[])];
    let graph = build_graph(&commits);
    assert_eq!(graph[1], GraphRow { cells: vec![cell('|', 0), cell('*', 1)] });
    assert_eq!(graph[2], GraphRow { cells: vec![cell('*', 0)] });
}

#[test]
fn empty_history_has_no_rows() {
    assert!(build_graph(&[]).is_empty());
}
