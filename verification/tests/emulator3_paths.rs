use cadmus::emulator3::relation_path::{get_path, Relation, RelationGraph, TableOccurrence};

fn occurrence(id: u32, to: &[u32]) -> TableOccurrence {
    TableOccurrence { id, relations: to.iter().map(|t| Relation { other_occurrence: *t }).collect() }
}

/// The relationships between the occurrences of a quotes file: quotes (1)
/// lead to customers (2) and to quote lines (5), quote lines to materials
/// (4); materials lead back to quote lines.
fn quotes_graph() -> RelationGraph {
    RelationGraph {
        nodes: vec![
            occurrence(1, &[2, 5]),
            occurrence(2, &[1]),
            occurrence(3, &[]),
            occurrence(4, &[5]),
            occurrence(5, &[1, 4]),
        ],
    }
}

#[test]
fn build_path() {
    let graph = quotes_graph();
    assert_eq!(get_path(1, 4, &graph), vec![1, 5, 4]);
    assert_eq!(get_path(1, 2, &graph), vec![1, 2]);
}

#[test]
fn path_to_itself_and_unreachable() {
    let graph = quotes_graph();
    assert_eq!(get_path(1, 1, &graph), vec![1]);
    assert_eq!(get_path(1, 3, &graph), Vec::<u32>::new());
    assert_eq!(get_path(4, 2, &graph), vec![4, 5, 1, 2]);
}

#[test]
fn path_is_a_shortest_one() {
    // 1 -> 2 -> 3 -> 6 and 1 -> 4 -> 6: the search finds the shorter.
    let graph = RelationGraph {
        nodes: vec![
            occurrence(1, &[2, 4]),
            occurrence(2, &[3]),
            occurrence(3, &[6]),
            occurrence(4, &[6]),
            occurrence(6, &[]),
        ],
    };
    assert_eq!(get_path(1, 6, &graph), vec![1, 4, 6]);
}
