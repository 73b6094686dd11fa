use dream_go::SCALE;
use dream_go::board::{Board, Color};
use dream_go::eval::UniformEvaluator;
use dream_go::forward::{forward, merge_symmetric, renormalize};
use dream_go::rng::random_below;
use dream_go::symmetry::Transform;

fn full_board() -> Board {
    let mut board = Board::new();
    for y in 0..19 {
        for x in 0..19 {
            let color = if (x + y) % 2 == 0 { Color::Black } else { Color::White };
            board.place(color, x, y);
        }
    }
    board
}

#[test]
fn pass_gets_all_mass_when_nothing_else_is_legal() {
    let mut eval = UniformEvaluator { value: 0 };
    let board = full_board();
    let (_, policy) = forward(&mut eval, &board, Color::Black);
    assert_eq!(policy.len(), 362);
    assert_eq!(policy[361], SCALE);
    for i in 0..361 {
        assert!(policy[i] < 0, "point {} should be masked", i);
    }
}

#[test]
fn merge_pairs_mirror_points_once() {
    // a uniform policy on a board symmetric under a left-right flip
    let policy: Vec<i64> = vec![1000; 362];
    let mut merged = policy.clone();
    merge_symmetric(&mut merged, Transform::FlipLR);
    for y in 0..19usize {
        for x in 0..19usize {
            let i = x + 19 * y;
            let j = (18 - x) + 19 * y;
            if i < j {
                assert_eq!(merged[i], 2000, "pair minimum at {} keeps both masses", i);
                assert!(merged[j] < 0, "pair maximum at {} is masked", j);
            } else if i == j {
                assert_eq!(merged[i], 1000, "axis point {} stays", i);
            }
        }
    }
    assert_eq!(merged[361], 1000, "pass never moves");
}

#[test]
fn renormalized_mass_is_one_within_rounding() {
    let mut policy: Vec<i64> = vec![1000; 362];
    merge_symmetric(&mut policy, Transform::FlipLR);
    renormalize(&mut policy);
    let live_sum: i64 = policy.iter().filter(|&&v| v >= 0).sum();
    assert!(live_sum <= SCALE, "sum {} exceeds one", live_sum);
    assert!(live_sum > SCALE - 362, "sum {} lost more than rounding", live_sum);
}

#[test]
fn empty_board_pipeline_sums_to_one() {
    let mut eval = UniformEvaluator { value: 0 };
    let board = Board::new();
    let (_, policy) = forward(&mut eval, &board, Color::Black);
    let live: Vec<i64> = policy.iter().copied().filter(|&v| v >= 0).collect();
    let sum: i64 = live.iter().sum();
    assert!(policy[361] >= 0, "pass stays selectable");
    assert!(sum <= SCALE && sum > SCALE - 362, "sum {} out of tolerance", sum);
    // the eight-fold symmetry leaves roughly an eighth of the points live
    assert!(live.len() < 100, "only canonical points should stay, got {}", live.len());
}

#[test]
fn renormalize_skips_negligible_mass() {
    let mut policy: Vec<i64> = vec![0; 362];
    policy[5] = 40;
    let before = policy.clone();
    renormalize(&mut policy);
    assert_eq!(policy, before, "mass at the floor stays untouched");
}

#[test]
fn random_draw_respects_bound() {
    for _ in 0..200 {
        assert!(random_below(8) < 8);
        assert!(random_below(1) == 0);
    }
}
