//! The commit graph.

use rit::git::graph::GraphState;
use rit::model::ObjectId;

fn commit(n: u8) -> ObjectId {
    ObjectId::from_slice(&[n; 20]).expect("twenty bytes")
}

fn stars(row: &str) -> usize {
    row.matches('*').count()
}

#[test]
fn a_line_of_commits_keeps_one_lane() {
    let mut graph = GraphState::new();
    assert_eq!(graph.next(commit(3), &[commit(2)]), "*");
    assert_eq!(graph.next(commit(2), &[commit(1)]), "*");
    assert_eq!(graph.next(commit(1), &[]), "*");
    assert!(graph.lanes.is_empty());
}

#[test]
fn a_merge_opens_a_lane_that_its_branch_point_closes() {
    let mut graph = GraphState::new();
    assert_eq!(graph.next(commit(5), &[commit(4), commit(3)]), "*");
    assert_eq!(graph.lanes, [Some(commit(4)), Some(commit(3))]);
    assert_eq!(graph.next(commit(4), &[commit(2)]), "* |");
    assert_eq!(graph.next(commit(3), &[commit(2)]), "| *");
    assert_eq!(graph.lanes, [Some(commit(2)), Some(commit(2))]);
    assert_eq!(graph.next(commit(2), &[commit(1)]), "* |");
    assert_eq!(graph.lanes, [Some(commit(1))]);
}

#[test]
fn an_unexpected_commit_takes_the_first_free_lane() {
    let mut graph = GraphState::new();
    graph.lanes = vec![Some(commit(1)), None, Some(commit(2))];
    assert_eq!(graph.next(commit(9), &[commit(8)]), "| * |");
    assert_eq!(graph.lanes, [Some(commit(1)), Some(commit(8)), Some(commit(2))]);
    assert_eq!(graph.next(commit(7), &[]), "| | | *");
    assert_eq!(graph.lanes.len(), 3);
}

#[test]
fn every_row_has_one_mark_and_no_lane_is_left_free_at_the_end() {
    let mut graph = GraphState::new();
    let history: [(u8, &[u8]); 7] = [
        (9, &[8, 7, 6]),
        (8, &[5]),
        (6, &[4]),
        (7, &[5, 4]),
        (4, &[]),
        (5, &[1]),
        (1, &[]),
    ];
    for (id, parents) in history {
        let parents: Vec<ObjectId> = parents.iter().map(|p| commit(*p)).collect();
        let lanes = graph.lanes.clone();
        let row = graph.next(commit(id), &parents);
        assert_eq!(stars(&row), 1);
        assert_ne!(graph.lanes.last(), Some(&None));
        for parent in &parents {
            assert!(graph.lanes.contains(&Some(*parent)), "parent without a lane");
        }
        for (i, lane) in lanes.iter().enumerate() {
            if lane.is_some() && *lane != Some(commit(id)) {
                assert_eq!(graph.lanes[i], *lane, "another lane moved");
            }
        }
    }
    assert!(graph.lanes.is_empty());
}
