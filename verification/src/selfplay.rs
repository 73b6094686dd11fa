//! The self-play driver: alternates colors up to a hard ply cap, searches
//! for each move, resigns on a hopeless evaluation, ends on two consecutive
//! passes, and accumulates an SGF-style record, one textual entry per ply.
//!
//! A record entry holds the player marker, the move coordinates (empty for
//! a pass or the resignation), a compact printable encoding of the root's
//! visit distribution, and for ordinary moves a marker of the move that had
//! the highest prior before the search.

use vstd::prelude::*;
use crate::SCALE;
use crate::board::Board;
use crate::board::Color;
use crate::eval::Evaluator;
use crate::predict::Config;
use crate::predict::predict;
use crate::tree::Puct;

verus! {

/// The outcome of one self-played game: a resignation in favor of a color,
/// with the margin the evaluation showed, or a game that ended (by two
/// passes or by the ply cap). Both carry the record and the final board.
pub enum GameResult {
    Resign(Vec<u8>, Board, Color, i64),
    Ended(Vec<u8>, Board),
}

/// A record is printable ASCII throughout.
pub open spec fn ascii_record(s: Seq<u8>) -> bool {
    forall|i: int| 0 <= i < s.len() ==> 32 <= #[trigger] s[i] <= 126
}

/// A fixed-point mass clamped into `[0, SCALE]` before encoding.
pub open spec fn clamp_spec(v: i64) -> int {
    if v < 0 {
        0
    } else if v > SCALE {
        SCALE as int
    } else {
        v as int
    }
}

/// The base-85 weight of the digit at position `p` (big-endian, 5 digits).
pub open spec fn pow85(e: int) -> int {
    if e <= 0 {
        1
    } else if e == 1 {
        85
    } else if e == 2 {
        7225
    } else if e == 3 {
        614125
    } else {
        52200625
    }
}

/// The printable byte for digit `p` of one encoded policy entry: base 85,
/// offset by `!` (33), so every byte lies in `[33, 117]`.
pub open spec fn b85_digit(v: i64, p: int) -> int {
    33 + (clamp_spec(v) / pow85(4 - p)) % 85
}

/// Encodes a 362-entry policy as printable ASCII: five base-85 digits per
/// entry, most significant first.
pub fn encode_policy(policy: &Vec<i64>) -> (r: Vec<u8>)
    requires
        policy@.len() == 362,
    ensures
        r@.len() == 1810,
        forall|i: int| 0 <= i < 1810 ==> 33 <= #[trigger] r@[i] <= 117,
        forall|e: int, p: int|
            0 <= e < 362 && 0 <= p < 5 ==> (#[trigger] r@[5 * e + p]) as int == b85_digit(
                policy@[e],
                p,
            ),
{
    let mut r: Vec<u8> = Vec::new();
    let mut e: usize = 0;
    while e < 362
        invariant
            policy@.len() == 362,
            e <= 362,
            r@.len() == 5 * e,
            forall|i: int| 0 <= i < 5 * e ==> 33 <= #[trigger] r@[i] <= 117,
            forall|ee: int, p: int|
                0 <= ee < e && 0 <= p < 5 ==> (#[trigger] r@[5 * ee + p]) as int == b85_digit(
                    policy@[ee],
                    p,
                ),
        decreases 362 - e,
    {
        let v = policy[e];
        let c: i64 = if v < 0 {
            0
        } else if v > SCALE {
            SCALE
        } else {
            v
        };
        r.push((33 + (c / 52200625) % 85) as u8);
        r.push((33 + (c / 614125) % 85) as u8);
        r.push((33 + (c / 7225) % 85) as u8);
        r.push((33 + (c / 85) % 85) as u8);
        r.push((33 + c % 85) as u8);
        e += 1;
    }
    r
}

/// The lower-case letter standing for one coordinate in the record.
pub fn coordinate_letter(x: usize) -> (r: u8)
    requires
        x < 26,
    ensures
        r as int == 97 + x,
{
    97 + (x as u8)
}

/// The marker byte of a player in the record: `B` or `W`.
pub open spec fn marker_spec(c: Color) -> u8 {
    match c {
        Color::Black => 66u8,
        Color::White => 87u8,
    }
}

/// The record entry of a resignation: the resigning player's marker with
/// empty coordinates.
pub open spec fn resign_entry(c: Color) -> Seq<u8> {
    seq![59u8, marker_spec(c), 91u8, 93u8]
}

/// A player marker byte.
pub open spec fn is_marker(b: u8) -> bool {
    b == 66 || b == 87
}

/// A coordinate letter byte.
pub open spec fn is_letter(b: u8) -> bool {
    97 <= b <= 122
}

/// One well-formed record entry: a resignation entry (a marker with empty
/// coordinates and nothing else), a pass entry (empty coordinates and an
/// encoded policy), or an ordinary move entry (coordinates, encoded policy,
/// and the marker of the previously highest-prior move).
pub open spec fn entry_wf(e: Seq<u8>) -> bool {
    ||| (e.len() == 4 && e[0] == 59 && is_marker(e[1]) && e[2] == 91 && e[3] == 93)
    ||| (e.len() == 1817 && e[0] == 59 && is_marker(e[1]) && e[2] == 91 && e[3] == 93 && e[4] == 80
        && e[5] == 91 && e[1816] == 93 && (forall|n: int|
        6 <= n < 1816 ==> 33 <= #[trigger] e[n] <= 117))
    ||| (e.len() == 1825 && e[0] == 59 && is_marker(e[1]) && e[2] == 91 && is_letter(e[3])
        && is_letter(e[4]) && e[5] == 93 && e[6] == 80 && e[7] == 91 && e[1818] == 93 && e[1819]
        == 84 && e[1820] == 82 && e[1821] == 91 && is_letter(e[1822]) && is_letter(e[1823])
        && e[1824] == 93 && (forall|n: int| 8 <= n < 1818 ==> 33 <= #[trigger] e[n] <= 117))
}

/// The record is a concatenation of well-formed entries, one per ply.
pub open spec fn well_formed_record(s: Seq<u8>) -> bool {
    exists|entries: Seq<Seq<u8>>|
        {
            &&& #[trigger] entries.flatten() == s
            &&& forall|j: int| 0 <= j < entries.len() ==> entry_wf(#[trigger] entries[j])
        }
}

/// The color to move at ply `j`: Black begins and the colors alternate.
pub open spec fn color_at(j: int) -> Color {
    if j % 2 == 0 {
        Color::Black
    } else {
        Color::White
    }
}

/// Only the long entry shape places a stone.
pub open spec fn is_move_entry(e: Seq<u8>) -> bool {
    e.len() == 1825
}

/// The point a move entry places, read back from its coordinate letters.
pub open spec fn entry_point(e: Seq<u8>) -> int {
    (e[3] as int - 97) + 19 * (e[4] as int - 97)
}

/// The mover of an entry, read back from its marker.
pub open spec fn entry_color(e: Seq<u8>) -> Color {
    if e[1] == 66 {
        Color::Black
    } else {
        Color::White
    }
}

/// The cell at point `i` of the board that the record's move entries build
/// up from an empty board, a later move overwriting an earlier one.
pub open spec fn vertex_from_entries(entries: Seq<Seq<u8>>, i: int) -> u8
    decreases entries.len(),
{
    if entries.len() == 0 {
        0
    } else if is_move_entry(entries.last()) && entry_point(entries.last()) == i {
        crate::board::color_code(entry_color(entries.last()))
    } else {
        vertex_from_entries(entries.drop_last(), i)
    }
}

proof fn lemma_entries_push_nonmove(entries: Seq<Seq<u8>>, e: Seq<u8>)
    requires
        e.len() != 1825,
    ensures
        forall|i: int| #[trigger] vertex_from_entries(entries.push(e), i) == vertex_from_entries(
            entries,
            i,
        ),
{
    assert(entries.push(e).drop_last() =~= entries);
    assert(entries.push(e).last() == e);
}

proof fn lemma_entries_push_move(entries: Seq<Seq<u8>>, e: Seq<u8>)
    requires
        e.len() == 1825,
    ensures
        forall|i: int| #[trigger] vertex_from_entries(entries.push(e), i) == (if entry_point(e)
            == i {
            crate::board::color_code(entry_color(e))
        } else {
            vertex_from_entries(entries, i)
        }),
{
    assert(entries.push(e).drop_last() =~= entries);
    assert(entries.push(e).last() == e);
}

/// Everything a finished game's record and board share: the record splits
/// into well-formed entries whose markers alternate starting with Black,
/// and the board is the empty board with exactly the record's move entries
/// placed.
pub open spec fn game_entries(s: Seq<u8>, b: Board, entries: Seq<Seq<u8>>) -> bool {
    &&& entries.flatten() == s
    &&& forall|j: int| 0 <= j < entries.len() ==> entry_wf(#[trigger] entries[j])
    &&& forall|j: int|
        0 <= j < entries.len() ==> (#[trigger] entries[j])[1] == marker_spec(color_at(j))
    &&& forall|i: int| 0 <= i < 361 ==> #[trigger] b.vertex(i) == vertex_from_entries(entries, i)
}

/// A resigned game: the last entry is the resigning player's empty-move
/// entry (so the losing move was never applied to the board), and the
/// winner is that player's opponent.
pub open spec fn resigned_game(s: Seq<u8>, b: Board, winner: Color) -> bool {
    exists|entries: Seq<Seq<u8>>|
        {
            &&& #[trigger] game_entries(s, b, entries)
            &&& entries.len() >= 1
            &&& entries.last().len() == 4
            &&& entries.last()[1] == marker_spec(winner.opposite_spec())
        }
}

/// A game that simply ended: either by two consecutive pass entries, or at
/// the hard cap of 722 plies.
pub open spec fn ended_game(s: Seq<u8>, b: Board) -> bool {
    exists|entries: Seq<Seq<u8>>|
        {
            &&& #[trigger] game_entries(s, b, entries)
            &&& (entries.len() == 722 || (entries.len() >= 2 && entries.last().len() == 1817
                && entries[entries.len() - 2].len() == 1817))
        }
}

/// The marker byte of a player in the record.
pub fn color_marker(c: Color) -> (r: u8)
    ensures
        r == marker_spec(c),
{
    match c {
        Color::Black => 66,
        Color::White => 87,
    }
}

/// Plays one game against itself and returns how it ended. A search value
/// below the resignation threshold (-0.9) ends the game at once in favor of
/// the opponent, with the margin seen; two consecutive passes end it
/// normally; otherwise the chosen move is applied, up to a hard cap of 722
/// plies (twice the point count) against unproductive endgame cycling. The
/// record is never empty, opens with an entry separator, and splits into
/// well-formed per-ply entries whose markers alternate starting with
/// Black; the returned board is the empty board with exactly the record's
/// move entries placed (so a resignation's losing move is never applied).
/// A resignation's record ends with the resigning player's empty-move
/// entry and the winner is that player's opponent; an ended game closes
/// with two consecutive pass entries or runs the full 722 plies.
#[verifier::rlimit(100)]
#[verifier::spinoff_prover]
pub fn self_play<E: Evaluator>(eval: &mut E, cfg: &Config) -> (r: GameResult)
    requires
        cfg.valid(),
    ensures
        match r {
            GameResult::Resign(sgf, board, winner, margin) => {
                &&& board.wf()
                &&& 900_000 < margin <= SCALE
                &&& ascii_record(sgf@)
                &&& sgf@.len() >= 4
                &&& sgf@[0] == 59
                &&& sgf@.subrange(sgf@.len() - 4, sgf@.len() as int) == resign_entry(
                    winner.opposite_spec(),
                )
            },
            GameResult::Ended(sgf, board) => board.wf() && ascii_record(sgf@) && sgf@.len() > 0
                && sgf@[0] == 59,
        },
        match r {
            GameResult::Resign(sgf, _, _, _) => well_formed_record(sgf@),
            GameResult::Ended(sgf, _) => well_formed_record(sgf@),
        },
        match r {
            GameResult::Resign(sgf, board, winner, _) => resigned_game(sgf@, board, winner),
            GameResult::Ended(sgf, board) => ended_game(sgf@, board),
        },
{
    let strategy = Puct { exploration: 3 * SCALE / 2 };
    let mut board = Board::new();
    let mut sgf: Vec<u8> = Vec::new();
    let mut current = Color::Black;
    let mut pass_count: usize = 0;
    let mut count: usize = 0;
    let ghost mut entries: Seq<Seq<u8>> = Seq::empty();
    while count < 722
        invariant
            cfg.valid(),
            board.wf(),
            pass_count <= 1,
            ascii_record(sgf@),
            count == 0 ==> sgf@.len() == 0,
            count > 0 ==> sgf@.len() > 0 && sgf@[0] == 59,
            entries.flatten() == sgf@,
            forall|j: int| 0 <= j < entries.len() ==> entry_wf(#[trigger] entries[j]),
            count <= 722,
            entries.len() == count,
            current == color_at(count as int),
            forall|j: int|
                0 <= j < entries.len() ==> (#[trigger] entries[j])[1] == marker_spec(color_at(j)),
            forall|i: int|
                0 <= i < 361 ==> #[trigger] board.vertex(i) == vertex_from_entries(entries, i),
            pass_count == 1 ==> entries.len() >= 1 && entries.last().len() == 1817,
        decreases 722 - count,
    {
        let (value, index, prior_index, policy) = predict(eval, &strategy, cfg, &board, current);
        if value < -900_000 {
            let ghost sgf0 = sgf@;
            sgf.push(59);  // ;
            sgf.push(color_marker(current));
            sgf.push(91);  // [
            sgf.push(93);  // ]
            proof {
                assert(sgf@.subrange(sgf@.len() - 4, sgf@.len() as int) =~= resign_entry(current));
                let e = sgf@.subrange(sgf0.len() as int, sgf@.len() as int);
                assert(e =~= resign_entry(current));
                assert(entry_wf(e));
                assert(e[1] == marker_spec(current));
                assert(sgf0 + e =~= sgf@);
                entries.lemma_flatten_push(e);
                lemma_entries_push_nonmove(entries, e);
                entries = entries.push(e);
                assert(well_formed_record(sgf@)) by {
                    assert(entries.flatten() == sgf@);
                }
                assert(game_entries(sgf@, board, entries));
                assert(resigned_game(sgf@, board, current.opposite_spec())) by {
                    assert(entries.last() == e);
                    assert(current.opposite_spec().opposite_spec() == current);
                }
            }
            return GameResult::Resign(sgf, board, current.opposite(), -value);
        }
        let encoded = encode_policy(&policy);
        if index == 361 {
            let ghost sgf0 = sgf@;
            sgf.push(59);
            sgf.push(color_marker(current));
            sgf.push(91);
            sgf.push(93);
            sgf.push(80);  // P
            sgf.push(91);
            sgf.extend_from_slice(encoded.as_slice());
            sgf.push(93);
            proof {
                let e = sgf@.subrange(sgf0.len() as int, sgf@.len() as int);
                assert(e.len() == 1817);
                assert forall|n: int| 6 <= n < 1816 implies 33 <= #[trigger] e[n] <= 117 by {
                    assert(e[n] == encoded@[n - 6]);
                }
                assert(entry_wf(e));
                assert(e[1] == marker_spec(current));
                assert(sgf0 + e =~= sgf@);
                entries.lemma_flatten_push(e);
                lemma_entries_push_nonmove(entries, e);
                entries = entries.push(e);
            }
            pass_count += 1;
            if pass_count >= 2 {
                proof {
                    assert(well_formed_record(sgf@)) by {
                        assert(entries.flatten() == sgf@);
                    }
                    assert(game_entries(sgf@, board, entries));
                    assert(ended_game(sgf@, board)) by {
                        assert(entries.len() >= 2);
                        assert(entries.last().len() == 1817);
                        assert(entries[entries.len() - 2].len() == 1817);
                    }
                }
                return GameResult::Ended(sgf, board);
            }
        } else {
            let x = index % 19;
            let y = index / 19;
            let (px, py): (usize, usize) = if prior_index == 361 {
                (19, 19)
            } else {
                (prior_index % 19, prior_index / 19)
            };
            let ghost sgf0 = sgf@;
            sgf.push(59);
            sgf.push(color_marker(current));
            sgf.push(91);
            sgf.push(coordinate_letter(x));
            sgf.push(coordinate_letter(y));
            sgf.push(93);
            sgf.push(80);  // P
            sgf.push(91);
            sgf.extend_from_slice(encoded.as_slice());
            sgf.push(93);
            sgf.push(84);  // T
            sgf.push(82);  // R
            sgf.push(91);
            sgf.push(coordinate_letter(px));
            sgf.push(coordinate_letter(py));
            sgf.push(93);
            pass_count = 0;
            board.place(current, x, y);
            proof {
                let e = sgf@.subrange(sgf0.len() as int, sgf@.len() as int);
                assert(e.len() == 1825);
                assert forall|n: int| 8 <= n < 1818 implies 33 <= #[trigger] e[n] <= 117 by {
                    assert(e[n] == encoded@[n - 8]);
                }
                assert(entry_wf(e));
                assert(e[1] == marker_spec(current));
                assert(e[3] as int == 97 + x && e[4] as int == 97 + y);
                assert(entry_point(e) == x + 19 * y);
                assert(entry_color(e) == current);
                assert(sgf0 + e =~= sgf@);
                entries.lemma_flatten_push(e);
                lemma_entries_push_move(entries, e);
                entries = entries.push(e);
                assert forall|i: int|
                    0 <= i < 361 implies #[trigger] board.vertex(i) == vertex_from_entries(
                    entries,
                    i,
                ) by {}
            }
        }
        current = current.opposite();
        count += 1;
        proof {
            assert(current == color_at(count as int)) by {
                assert(count as int % 2 == if (count as int - 1) % 2 == 0 {
                    1int
                } else {
                    0int
                });
            }
        }
    }
    proof {
        assert(well_formed_record(sgf@)) by {
            assert(entries.flatten() == sgf@);
        }
        assert(game_entries(sgf@, board, entries));
        assert(ended_game(sgf@, board)) by {
            assert(entries.len() == 722);
        }
    }
    GameResult::Ended(sgf, board)
}

} // verus!
