use dream_go::SCALE;
use dream_go::board::{Board, Color};
use dream_go::tree::{insert, isqrt, probe, Puct, SearchTree};

fn uniform_policy() -> Vec<i64> {
    vec![SCALE / 362; 362]
}

#[test]
fn visit_counts_sum_to_inserts_through_each_node() {
    let mut tree = SearchTree::new(Color::Black, uniform_policy());
    let strategy = Puct { exploration: 3 * SCALE / 2 };
    let start = Board::new();
    let mut inserts = 0u64;
    for _ in 0..8 {
        let mut board = start.clone();
        let trace = probe(&mut tree, &strategy, &mut board);
        if let Some(&(_, color, _)) = trace.last() {
            let next_color = color.opposite();
            insert(&mut tree, &trace, next_color, 250_000, uniform_policy());
            inserts += 1;
        }
    }
    assert_eq!(inserts, 8);
    assert_eq!(tree.root_visits(), 8);
    // at every node, the edge visits sum to the inserts through that node
    for node in tree.nodes.iter() {
        let edge_sum: u64 = node.counts.iter().sum();
        assert_eq!(edge_sum, node.total_count);
    }
}

#[test]
fn insert_on_empty_trace_is_a_no_op() {
    let mut tree = SearchTree::new(Color::White, uniform_policy());
    let trace = Vec::new();
    insert(&mut tree, &trace, Color::Black, 0, uniform_policy());
    assert_eq!(tree.root_visits(), 0);
    assert_eq!(tree.nodes.len(), 1);
}

#[test]
fn best_is_the_most_visited_root_move() {
    let mut tree = SearchTree::new(Color::Black, uniform_policy());
    // two hand-made inserts through the same root edge
    let trace = vec![(0usize, Color::Black, 7usize)];
    insert(&mut tree, &trace, Color::White, 400_000, uniform_policy());
    let trace = vec![(0usize, Color::Black, 7usize)];
    insert(&mut tree, &trace, Color::White, 200_000, uniform_policy());
    let (value, index) = tree.best();
    assert_eq!(index, 7);
    // the evaluations speak for White, the player to move after Black's
    // move, so Black's edge accumulates their negations: mean -300000
    assert_eq!(value, -300_000);
    let dist = tree.softmax();
    assert_eq!(dist.len(), 362);
    assert_eq!(dist[7], SCALE);
    for i in 0..362 {
        if i != 7 {
            assert_eq!(dist[i], 0);
        }
    }
}

#[test]
fn prior_ignores_search_statistics() {
    let mut policy = uniform_policy();
    policy[42] = SCALE / 2;
    let mut tree = SearchTree::new(Color::Black, policy);
    let trace = vec![(0usize, Color::Black, 7usize)];
    insert(&mut tree, &trace, Color::White, 400_000, uniform_policy());
    let (mass, index) = tree.prior();
    assert_eq!(index, 42);
    assert_eq!(mass, SCALE / 2);
}

#[test]
fn integer_square_root_is_exact() {
    assert_eq!(isqrt(0), 0);
    assert_eq!(isqrt(1), 1);
    assert_eq!(isqrt(15), 3);
    assert_eq!(isqrt(16), 4);
    assert_eq!(isqrt(3_999_999_999_999), 1_999_999);
    assert_eq!(isqrt(4_000_000_000_000), 2_000_000);
}

#[test]
fn virtual_loss_is_laid_and_taken_back() {
    let mut tree = SearchTree::new(Color::Black, uniform_policy());
    let mut board = Board::new();
    let strategy = Puct { exploration: 3 * SCALE / 2 };
    let trace = probe(&mut tree, &strategy, &mut board);
    assert_eq!(trace.len(), 1);
    let (node, color, mv) = trace[0];
    assert_eq!(node, 0);
    assert_eq!(tree.nodes[0].vloss[mv], 1);
    let next_color = color.opposite();
    insert(&mut tree, &trace, next_color, 0, uniform_policy());
    assert_eq!(tree.nodes[0].vloss[mv], 0);
    assert_eq!(tree.nodes[0].counts[mv], 1);
}
