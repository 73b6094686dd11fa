use dream_go::board::Color;
use dream_go::eval::ScriptedEvaluator;
use dream_go::predict::Config;
use dream_go::selfplay::{encode_policy, self_play, GameResult};

#[test]
fn hopeless_evaluation_resigns_on_the_first_ply() {
    // the evaluation speaks for the player to move at the evaluated leaf:
    // a constant +0.95 says the opponent of every mover is winning after
    // the move, so the driver's own prospects are -0.95 and it resigns
    let mut eval = ScriptedEvaluator::new(950_000, 0);
    let cfg = Config { iteration_limit: 1, batch_size: 1, thread_count: 1 };
    match self_play(&mut eval, &cfg) {
        GameResult::Resign(sgf, board, winner, margin) => {
            assert_eq!(sgf, b";B[]".to_vec());
            assert_eq!(winner, Color::White);
            assert_eq!(margin, 950_000);
            // the game ended before any stone was placed
            for y in 0..19 {
                for x in 0..19 {
                    assert!(board.is_valid(Color::Black, x, y));
                }
            }
        },
        GameResult::Ended(_, _) => panic!("expected a resignation"),
    }
}

#[test]
fn two_passes_end_the_game_with_an_untouched_board() {
    let mut eval = ScriptedEvaluator::new(0, 361);
    let cfg = Config { iteration_limit: 1, batch_size: 1, thread_count: 1 };
    match self_play(&mut eval, &cfg) {
        GameResult::Ended(sgf, board) => {
            // exactly two pass entries: ";B[]P[" + 1810 digits + "]" each
            assert_eq!(sgf.len(), 2 * (6 + 1810 + 1));
            assert_eq!(&sgf[0..6], b";B[]P[");
            let second = 6 + 1810 + 1;
            assert_eq!(&sgf[second..second + 6], b";W[]P[");
            for y in 0..19 {
                for x in 0..19 {
                    assert!(board.is_valid(Color::Black, x, y));
                }
            }
        },
        GameResult::Resign(_, _, _, _) => panic!("expected a normal end"),
    }
}

#[test]
fn encoded_policy_is_printable_and_exact() {
    let mut policy = vec![0i64; 362];
    policy[0] = 1_000_000;
    policy[1] = 85;
    policy[2] = -5; // masked entries encode as zero mass
    let encoded = encode_policy(&policy);
    assert_eq!(encoded.len(), 1810);
    for &b in encoded.iter() {
        assert!((33..=117).contains(&b));
    }
    // 1_000_000 in base 85 is 1*614125 + 53*7225 + 34*85 + 60
    assert_eq!(&encoded[0..5], &[33, 34, 86, 67, 93]);
    // 85 is one unit in the second-lowest digit
    assert_eq!(&encoded[5..10], &[33, 33, 33, 34, 33]);
    // negative mass clamps to zero
    assert_eq!(&encoded[10..15], &[33, 33, 33, 33, 33]);
}
