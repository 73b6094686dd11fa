use dream_go::SCALE;
use dream_go::board::{Board, Color};
use dream_go::eval::ScriptedEvaluator;
use dream_go::predict::{predict, predict_policy, Config};
use dream_go::tree::Puct;

#[test]
fn dispatcher_runs_exactly_four_batches_of_two() {
    let mut eval = ScriptedEvaluator::new(0, 361);
    let cfg = Config { iteration_limit: 8, batch_size: 2, thread_count: 2 };
    assert!(cfg.check());
    let strategy = Puct { exploration: 3 * SCALE / 2 };
    let board = Board::new();
    let (value, index, _, dist) = predict(&mut eval, &strategy, &cfg, &board, Color::Black);
    // one immediate root evaluation, then exactly 8 / 2 dispatcher batches
    assert_eq!(eval.batch_sizes, vec![1, 2, 2, 2, 2]);
    assert_eq!(dist.len(), 362);
    assert!(index < 362);
    assert!(-SCALE <= value && value <= SCALE);
    // every probe found a continuation, so all 8 iterations were inserted
    let total: i64 = dist.iter().sum();
    assert!(total > SCALE - 362 && total <= SCALE);
}

#[test]
fn distribution_puts_no_mass_on_occupied_points() {
    let mut eval = ScriptedEvaluator::new(0, 361);
    let cfg = Config { iteration_limit: 4, batch_size: 2, thread_count: 2 };
    let strategy = Puct { exploration: 3 * SCALE / 2 };
    let mut board = Board::new();
    board.place(Color::Black, 3, 3);
    let (_, index, prior_index, dist) = predict(&mut eval, &strategy, &cfg, &board, Color::White);
    assert_eq!(dist[3 + 19 * 3], 0);
    assert!(index == 361 || board.is_valid(Color::White, index % 19, index / 19));
    assert!(prior_index == 361 || board.is_valid(Color::White, prior_index % 19, prior_index / 19));
}

#[test]
fn config_divisibility_is_checked_up_front() {
    let bad = Config { iteration_limit: 7, batch_size: 2, thread_count: 2 };
    assert!(!bad.check());
    let bad = Config { iteration_limit: 8, batch_size: 2, thread_count: 3 };
    assert!(!bad.check());
    let bad = Config { iteration_limit: 8, batch_size: 0, thread_count: 2 };
    assert!(!bad.check());
    let good = Config { iteration_limit: 8, batch_size: 2, thread_count: 2 };
    assert!(good.check());
}

#[test]
fn policy_only_prediction_returns_a_one_hot_distribution() {
    let mut eval = ScriptedEvaluator::new(100_000, 60);
    let board = Board::new();
    let (value, index, prior_index, dist) = predict_policy(&mut eval, &board, Color::White);
    assert_eq!(value, 100_000);
    assert_eq!(index, prior_index);
    assert_eq!(dist.len(), 362);
    assert_eq!(dist[index], SCALE);
    let total: i64 = dist.iter().sum();
    assert_eq!(total, SCALE);
}
