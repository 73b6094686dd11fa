//! The augmentation pipeline around one evaluator call: masking of illegal
//! moves, merging of symmetric duplicate moves, and renormalization of the
//! surviving probability mass.
//!
//! A policy is a vector of 362 fixed-point entries (361 points plus pass).
//! A masked entry holds the negative sentinel `MASKED` and never returns to
//! play; the pass entry is never masked, so a game can never run out of
//! selectable moves.

use vstd::prelude::*;
use vstd::arithmetic::div_mod::lemma_fundamental_div_mod;
use vstd::arithmetic::div_mod::lemma_fundamental_div_mod_converse_div;
use crate::SCALE;
use crate::MASKED;
use crate::MASS_FLOOR;
use crate::live;
use crate::board::Board;
use crate::board::Color;
use crate::symmetry::Transform;
use crate::symmetry::apply_spec;
use crate::symmetry::transform_at;
use crate::symmetry::lemma_apply_involution;
use crate::symmetry::lemma_apply_in_range;
use crate::eval::Forwarder;

verus! {

/// The total mass of the entries still in play.
pub open spec fn live_sum(s: Seq<i64>) -> int
    decreases s.len(),
{
    if s.len() == 0 {
        0
    } else {
        live_sum(s.drop_last()) + if live(s.last()) {
            s.last() as int
        } else {
            0
        }
    }
}

/// How many entries are still in play.
pub open spec fn live_count(s: Seq<i64>) -> int
    decreases s.len(),
{
    if s.len() == 0 {
        0
    } else {
        live_count(s.drop_last()) + if live(s.last()) {
            1int
        } else {
            0
        }
    }
}

/// Extending a prefix by one entry adds that entry's contribution.
pub proof fn lemma_live_take_step(s: Seq<i64>, i: int)
    requires
        0 <= i < s.len(),
    ensures
        live_sum(s.take(i + 1)) == live_sum(s.take(i)) + if live(s[i]) {
            s[i] as int
        } else {
            0
        },
        live_count(s.take(i + 1)) == live_count(s.take(i)) + if live(s[i]) {
            1int
        } else {
            0
        },
{
    assert(s.take(i + 1).drop_last() =~= s.take(i));
    assert(s.take(i + 1).last() == s[i]);
}

/// The live mass is non-negative, counts at most the length, and bounds
/// every live entry from above.
pub proof fn lemma_live_sum_bounds(s: Seq<i64>)
    ensures
        live_sum(s) >= 0,
        0 <= live_count(s) <= s.len(),
        live_count(s) == 0 ==> live_sum(s) == 0,
        forall|j: int| 0 <= j < s.len() && live(s[j]) ==> #[trigger] (s[j] as int) <= live_sum(s),
    decreases s.len(),
{
    if s.len() > 0 {
        lemma_live_sum_bounds(s.drop_last());
        assert forall|j: int| 0 <= j < s.len() && live(s[j]) implies #[trigger] (s[j] as int)
            <= live_sum(s) by {
            if j < s.len() - 1 {
                assert(s.drop_last()[j] == s[j]);
            }
        }
    }
}

/// A sequence with nothing in play has no mass.
pub proof fn lemma_live_sum_all_masked(s: Seq<i64>)
    requires
        forall|k: int| 0 <= k < s.len() ==> !live(#[trigger] s[k]),
    ensures
        live_sum(s) == 0,
    decreases s.len(),
{
    if s.len() > 0 {
        assert forall|k: int| 0 <= k < s.len() - 1 implies !live(#[trigger] s.drop_last()[k]) by {
            assert(s.drop_last()[k] == s[k]);
        }
        lemma_live_sum_all_masked(s.drop_last());
    }
}

/// When only the last entry is in play, it carries the whole mass.
pub proof fn lemma_live_sum_last_only(s: Seq<i64>)
    requires
        s.len() > 0,
        forall|k: int| 0 <= k < s.len() - 1 ==> !live(#[trigger] s[k]),
        live(s.last()),
    ensures
        live_sum(s) == s.last() as int,
{
    assert forall|k: int| 0 <= k < s.len() - 1 implies !live(#[trigger] s.drop_last()[k]) by {
        assert(s.drop_last()[k] == s[k]);
    }
    lemma_live_sum_all_masked(s.drop_last());
}

/// Sets the policy entry of every illegal point to the masked sentinel. The
/// pass entry is left untouched: pass is always legal.
pub fn mask_illegal(policy: &mut Vec<i64>, board: &Board, color: Color)
    requires
        old(policy)@.len() == 362,
        board.wf(),
    ensures
        final(policy)@.len() == 362,
        final(policy)@[361] == old(policy)@[361],
        forall|i: int|
            0 <= i < 361 ==> #[trigger] final(policy)@[i] == if board.legal_spec(i) {
                old(policy)@[i]
            } else {
                MASKED
            },
{
    let mut i: usize = 0;
    while i < 361
        invariant
            policy@.len() == 362,
            board.wf(),
            i <= 361,
            policy@[361] == old(policy)@[361],
            forall|k: int|
                0 <= k < i ==> #[trigger] policy@[k] == if board.legal_spec(k) {
                    old(policy)@[k]
                } else {
                    MASKED
                },
            forall|k: int| i <= k < 362 ==> #[trigger] policy@[k] == old(policy)@[k],
        decreases 361 - i,
    {
        let x = i % 19;
        let y = i / 19;
        proof {
            lemma_fundamental_div_mod(i as int, 19);
        }
        if !board.is_valid(color, x, y) {
            policy[i] = MASKED;
        }
        i += 1;
    }
}

/// What one symmetric merge leaves at a point, when every point is in play
/// and the transform pairs the points up: the smaller index of each pair
/// collects both masses and the larger is masked out.
pub open spec fn merged_entry(oldp: Seq<i64>, t: Transform, i: int) -> int {
    let j = apply_spec(t, i);
    if j == i {
        oldp[i] as int
    } else if i < j {
        oldp[i] + oldp[j]
    } else {
        MASKED as int
    }
}

/// What a symmetric merge computes, step by step: at step `i` (taken in
/// ascending order over the points), when `t` sends `i` to a larger board
/// point whose entry still carries mass and `i` itself is in play, that
/// mass moves into entry `i` and the image is masked. This pins the merge
/// exactly, for every transform and every input.
pub open spec fn merge_run(orig: Seq<i64>, t: Transform, n: int) -> Seq<i64>
    decreases n,
{
    if n <= 0 {
        orig
    } else {
        let p = merge_run(orig, t, n - 1);
        let i = n - 1;
        let j = apply_spec(t, i);
        if j > i && j < 361 && p[j] > 0 && p[i] >= 0 {
            p.update(i, (p[i] + p[j]) as i64).update(j, MASKED)
        } else {
            p
        }
    }
}

/// Merges each pair of moves that the symmetry `t` maps onto each other:
/// the larger index's mass is added into the smaller index's entry and the
/// larger is masked, whenever both are in play. Entries already masked are
/// never revived, and the pass entry never moves. The result is exactly
/// `merge_run` over all 361 points.
pub fn merge_symmetric(policy: &mut Vec<i64>, t: Transform)
    requires
        old(policy)@.len() == 362,
        t != Transform::Identity,
        forall|i: int| 0 <= i < 362 ==> #[trigger] old(policy)@[i] <= 1_000_000_000_000,
    ensures
        final(policy)@.len() == 362,
        final(policy)@ == merge_run(old(policy)@, t, 361),
        final(policy)@[361] == old(policy)@[361],
        forall|i: int|
            0 <= i < 361 ==> #[trigger] final(policy)@[i] == old(policy)@[i] || final(policy)@[i]
                == MASKED || (final(policy)@[i] as int == old(policy)@[i] + old(policy)@[apply_spec(
                t,
                i,
            )] && live(old(policy)@[i])),
        forall|i: int|
            0 <= i < 361 && !live(#[trigger] old(policy)@[i]) ==> final(policy)@[i] == old(
                policy,
            )@[i],
        (t.is_involution() && (forall|i: int| 0 <= i < 361 ==> #[trigger] old(policy)@[i] > 0))
            ==> (forall|i: int|
            0 <= i < 361 ==> #[trigger] final(policy)@[i] as int == merged_entry(
                old(policy)@,
                t,
                i,
            )),
{
    let ghost orig = old(policy)@;
    let ghost strong = t.is_involution() && (forall|i: int| 0 <= i < 361 ==> #[trigger] orig[i] > 0);
    let mut i: usize = 0;
    while i < 361
        invariant
            policy@.len() == 362,
            t != Transform::Identity,
            orig == old(policy)@,
            strong == (t.is_involution() && (forall|i: int|
                0 <= i < 361 ==> #[trigger] orig[i] > 0)),
            forall|k: int| 0 <= k < 362 ==> #[trigger] orig[k] <= 1_000_000_000_000,
            i <= 361,
            policy@ == merge_run(orig, t, i as int),
            policy@[361] == orig[361],
            forall|k: int|
                i <= k < 361 ==> #[trigger] policy@[k] == orig[k] || policy@[k] == MASKED,
            forall|k: int|
                0 <= k < 361 ==> #[trigger] policy@[k] == orig[k] || policy@[k] == MASKED || (
                policy@[k] as int == orig[k] + orig[apply_spec(t, k)] && live(orig[k])),
            forall|k: int| 0 <= k < 361 && !live(#[trigger] orig[k]) ==> policy@[k] == orig[k],
            strong ==> forall|k: int|
                0 <= k < 361 && k < #[trigger] apply_spec(t, k) ==> if k < i {
                    policy@[k] as int == orig[k] + orig[apply_spec(t, k)] && policy@[apply_spec(
                        t,
                        k,
                    )] == MASKED
                } else {
                    policy@[k] == orig[k] && policy@[apply_spec(t, k)] == orig[apply_spec(t, k)]
                },
            strong ==> forall|k: int|
                0 <= k < 361 && #[trigger] apply_spec(t, k) == k ==> policy@[k] == orig[k],
        decreases 361 - i,
    {
        proof {
            if strong {
                assert forall|k: int| 0 <= k < 361 implies apply_spec(t, #[trigger] apply_spec(t, k))
                    == k && 0 <= apply_spec(t, k) < 361 by {
                    lemma_apply_involution(t, k);
                    lemma_apply_in_range(t, k);
                }
            }
        }
        let j = t.apply(i);
        if j > i && j < 361 {
            let pj = policy[j];
            let pi = policy[i];
            if pj > 0 && pi >= 0 {
                policy[i] = pi + pj;
                policy[j] = MASKED;
            }
        }
        proof {
            lemma_apply_in_range(t, i as int);
            assert(policy@ =~= merge_run(orig, t, i as int + 1));
        }
        i += 1;
    }
    proof {
        if strong {
            assert forall|k: int| 0 <= k < 361 implies policy@[k] as int == merged_entry(
                orig,
                t,
                k,
            ) by {
                lemma_apply_involution(t, k);
                lemma_apply_in_range(t, k);
                let j = apply_spec(t, k);
                if j < k {
                    assert(apply_spec(t, j) == k);
                    assert(policy@[apply_spec(t, j)] == MASKED);
                }
            }
        }
    }
}

/// Law: when every point was in play and the transform pairs the points up
/// (it is an involution), a symmetric merge leaves, of every pair of
/// board-symmetric points, exactly one in play: the one keeps both masses,
/// the other is masked.
pub proof fn lemma_symmetric_pair_once(oldp: Seq<i64>, newp: Seq<i64>, t: Transform, i: int)
    requires
        t.is_involution(),
        oldp.len() == 362,
        newp.len() == 362,
        forall|k: int| 0 <= k < 361 ==> #[trigger] oldp[k] > 0,
        forall|k: int| 0 <= k < 361 ==> #[trigger] newp[k] as int == merged_entry(oldp, t, k),
        0 <= i < 361,
        apply_spec(t, i) != i,
    ensures
        live(newp[i]) <==> !live(newp[apply_spec(t, i)]),
        live(newp[i]) ==> newp[i] as int == oldp[i] + oldp[apply_spec(t, i)],
{
    lemma_apply_involution(t, i);
    lemma_apply_in_range(t, i);
    let j = apply_spec(t, i);
    assert(newp[i] as int == merged_entry(oldp, t, i));
    assert(newp[j] as int == merged_entry(oldp, t, j));
    assert(apply_spec(t, j) == i);
}

/// What renormalization computes: every entry still in play is scaled to
/// its share of `SCALE`, rounding down, unless the surviving mass is at or
/// below the floor, in which case the policy is returned unscaled. Masked
/// entries stay as they were.
pub open spec fn renorm_spec(p: Seq<i64>) -> Seq<i64> {
    if live_sum(p) <= MASS_FLOOR {
        p
    } else {
        Seq::new(
            p.len(),
            |i: int|
                if live(p[i]) {
                    (p[i] * SCALE / live_sum(p)) as i64
                } else {
                    p[i]
                },
        )
    }
}

/// Renormalizes the surviving entries so that their mass is (up to the
/// rounding of one fixed-point unit per entry) the whole `SCALE`, unless the
/// surviving mass is at or below `MASS_FLOOR`, in which case nothing moves.
/// Masked entries stay exactly as they were. The result is exactly
/// `renorm_spec` of the input.
#[verifier::rlimit(30)]
pub fn renormalize(policy: &mut Vec<i64>)
    requires
        old(policy)@.len() == 362,
        forall|i: int| 0 <= i < 362 ==> #[trigger] old(policy)@[i] <= 2_000_000_000_000,
    ensures
        final(policy)@.len() == 362,
        final(policy)@ == renorm_spec(old(policy)@),
        forall|i: int|
            0 <= i < 362 && !live(#[trigger] old(policy)@[i]) ==> final(policy)@[i] == old(
                policy,
            )@[i],
        forall|i: int|
            0 <= i < 362 ==> (live(#[trigger] final(policy)@[i]) <==> live(old(policy)@[i])),
        live_sum(old(policy)@) <= MASS_FLOOR ==> final(policy)@ == old(policy)@,
        live_sum(old(policy)@) > MASS_FLOOR ==> {
            &&& forall|i: int|
                0 <= i < 362 && live(#[trigger] old(policy)@[i]) ==> final(policy)@[i] as int
                    == old(policy)@[i] * SCALE / live_sum(old(policy)@)
            &&& forall|i: int| 0 <= i < 362 ==> #[trigger] final(policy)@[i] <= SCALE
            &&& SCALE - live_count(old(policy)@) < live_sum(final(policy)@) <= SCALE
        },
{
    let ghost orig = old(policy)@;
    proof {
        lemma_live_sum_bounds(orig);
    }
    let mut sum: i64 = 0;
    let mut i: usize = 0;
    while i < 362
        invariant
            policy@ == orig,
            orig.len() == 362,
            forall|k: int| 0 <= k < 362 ==> #[trigger] orig[k] <= 2_000_000_000_000,
            i <= 362,
            sum as int == live_sum(orig.take(i as int)),
            0 <= sum <= i * 2_000_000_000_000,
        decreases 362 - i,
    {
        proof {
            lemma_live_take_step(orig, i as int);
            lemma_live_sum_bounds(orig.take(i as int));
        }
        let v = policy[i];
        if v >= 0 {
            sum += v;
        }
        i += 1;
    }
    proof {
        assert(orig.take(362) =~= orig);
    }
    if sum <= MASS_FLOOR {
        return ;
    }
    let ghost s = sum as int;
    let ghost mut nsum: int = 0;
    let ghost mut osum: int = 0;
    let ghost mut cnt: int = 0;
    let mut i: usize = 0;
    while i < 362
        invariant
            policy@.len() == 362,
            orig.len() == 362,
            forall|k: int| 0 <= k < 362 ==> #[trigger] orig[k] <= 2_000_000_000_000,
            i <= 362,
            sum as int == s,
            s == live_sum(orig),
            MASS_FLOOR < s,
            forall|k: int| i <= k < 362 ==> #[trigger] policy@[k] == orig[k],
            forall|k: int|
                0 <= k < i && !live(#[trigger] orig[k]) ==> policy@[k] == orig[k],
            forall|k: int|
                0 <= k < i && live(#[trigger] orig[k]) ==> policy@[k] as int == orig[k] * SCALE / s
                    && 0 <= policy@[k] <= SCALE,
            nsum == live_sum(policy@.take(i as int)),
            osum == live_sum(orig.take(i as int)),
            cnt == live_count(orig.take(i as int)),
            0 <= cnt <= i,
            nsum * s <= SCALE * osum <= nsum * s + cnt * (s - 1),
        decreases 362 - i,
    {
        proof {
            lemma_live_take_step(orig, i as int);
        }
        let ghost pre = policy@;
        let v = policy[i];
        if v >= 0 {
            proof {
                lemma_live_sum_bounds(orig);
                assert(orig[i as int] as int <= s);
                assert(0 <= (v as int) * (SCALE as int) <= 2_000_000_000_000 * 1_000_000)
                    by (nonlinear_arith)
                    requires
                        0 <= v as int <= 2_000_000_000_000,
                ;
            }
            let q = (v * SCALE) / sum;
            proof {
                lemma_fundamental_div_mod((v as int) * (SCALE as int), s);
                assert(0 <= q && q as int == (v as int) * (SCALE as int) / s);
                assert(q as int <= SCALE as int) by (nonlinear_arith)
                    requires
                        q as int == (v as int) * (SCALE as int) / s,
                        (v as int) * (SCALE as int) == s * ((v as int) * (SCALE as int) / s) + (
                        v as int) * (SCALE as int) % s,
                        0 <= (v as int) * (SCALE as int) % s < s,
                        0 <= v as int <= s,
                        0 < s,
                ;
            }
            policy[i] = q;
            proof {
                let r = (v as int) * (SCALE as int) % s;
                assert((nsum + q as int) * s == nsum * s + (q as int) * s) by (nonlinear_arith);
                assert((q as int) * s + r == (v as int) * (SCALE as int)) by (nonlinear_arith)
                    requires
                        (v as int) * (SCALE as int) == s * ((v as int) * (SCALE as int) / s) + r,
                        q as int == (v as int) * (SCALE as int) / s,
                ;
                assert((SCALE as int) * (osum + v as int) == (SCALE as int) * osum + (SCALE as int)
                    * (v as int)) by (nonlinear_arith);
                assert((cnt + 1) * (s - 1) == cnt * (s - 1) + (s - 1)) by (nonlinear_arith);
                nsum = nsum + q as int;
                osum = osum + v as int;
                cnt = cnt + 1;
            }
        }
        proof {
            lemma_live_take_step(policy@, i as int);
            assert(policy@.take(i as int) =~= pre.take(i as int));
        }
        i += 1;
    }
    proof {
        assert(policy@.take(362) =~= policy@);
        assert(orig.take(362) =~= orig);
        assert(osum == s);
        lemma_live_sum_bounds(orig);
        assert(cnt >= 1);
        assert forall|k: int| 0 <= k < 362 implies #[trigger] policy@[k] <= SCALE by {
            assert(orig[k] <= 2_000_000_000_000);
            if !live(orig[k]) {
                assert(policy@[k] == orig[k]);
            }
        }
        assert forall|k: int| 0 <= k < 362 && live(#[trigger] orig[k]) implies policy@[k] as int
            == orig[k] * SCALE / live_sum(orig) by {}
        assert(live_sum(policy@) <= SCALE as int) by (nonlinear_arith)
            requires
                nsum == live_sum(policy@),
                nsum * s <= (SCALE as int) * s,
                0 < s,
        ;
        assert(SCALE as int - live_count(orig) < live_sum(policy@)) by (nonlinear_arith)
            requires
                nsum == live_sum(policy@),
                cnt == live_count(orig),
                (SCALE as int) * s <= nsum * s + cnt * (s - 1),
                0 < s,
                1 <= cnt,
        ;
        assert forall|k: int| 0 <= k < 362 implies policy@[k] == renorm_spec(orig)[k] by {
            if live(orig[k]) {
                assert(policy@[k] as int == orig[k] * SCALE / s);
            }
        }
        assert(policy@ =~= renorm_spec(orig));
    }
}

/// How large a policy entry can have grown after `k` symmetric merges: each
/// merge at most doubles an entry.
pub open spec fn mass_bound(k: int) -> int
    decreases k,
{
    if k <= 0 {
        SCALE as int
    } else {
        2 * mass_bound(k - 1)
    }
}

proof fn lemma_mass_bound_small(j: int)
    requires
        0 <= j <= 7,
    ensures
        0 < mass_bound(j) <= 128_000_000,
        SCALE as int <= mass_bound(j),
{
    reveal_with_fuel(mass_bound, 9);
}

/// A policy with every illegal point masked and everything else untouched.
pub open spec fn mask_spec(p: Seq<i64>, b: Board) -> Seq<i64> {
    Seq::new(
        362,
        |i: int|
            if i < 361 && !b.legal_spec(i) {
                MASKED
            } else {
                p[i]
            },
    )
}

/// The merges of the first `k` enumerated transforms, in order: each
/// non-identity transform under which the position is invariant runs one
/// symmetric merge; the others change nothing.
pub open spec fn merge_all(p: Seq<i64>, b: Board, k: int) -> Seq<i64>
    decreases k,
{
    if k <= 1 {
        p
    } else {
        let q = merge_all(p, b, k - 1);
        if b.symmetric_spec(transform_at(k - 1)) {
            merge_run(q, transform_at(k - 1), 361)
        } else {
            q
        }
    }
}

/// The whole augmentation around one evaluation: mask the illegal points,
/// merge the duplicates of every symmetry the position has, renormalize.
/// The result is exactly the composed pipeline
/// `renorm_spec(merge_all(mask_spec(..)))`; when only pass is legal, the
/// whole mass lands on pass (unless the evaluator gave pass at most the
/// negligible floor, which is then returned unscaled).
pub fn augment(policy: Vec<i64>, board: &Board, color: Color) -> (r: Vec<i64>)
    requires
        board.wf(),
        policy@.len() == 362,
        forall|i: int| 0 <= i < 362 ==> 0 <= #[trigger] policy@[i] <= SCALE,
    ensures
        r@.len() == 362,
        r@ == renorm_spec(merge_all(mask_spec(policy@, *board), *board, 8)),
        live_sum(r@) <= SCALE,
        live_sum(r@) > SCALE - 362 || live_sum(r@) <= MASS_FLOOR,
        r@[361] >= 0,
        forall|i: int| 0 <= i < 361 && !board.legal_spec(i) ==> !live(#[trigger] r@[i]),
        forall|i: int| 0 <= i < 362 ==> MASKED <= #[trigger] r@[i] <= SCALE,
        (forall|i: int| 0 <= i < 361 ==> !(#[trigger] board.legal_spec(i))) ==> r@[361] == (
        if policy@[361] > MASS_FLOOR {
            SCALE
        } else {
            policy@[361]
        }) && (forall|i: int| 0 <= i < 361 ==> !live(#[trigger] r@[i])),
{
    let ghost orig = policy@;
    let mut p = policy;
    mask_illegal(&mut p, board, color);
    proof {
        assert(p@ =~= mask_spec(orig, *board));
    }
    let ghost masked = p@;
    let mut k: usize = 1;
    while k < 8
        invariant
            board.wf(),
            1 <= k <= 8,
            p@.len() == 362,
            p@ == merge_all(masked, *board, k as int),
            p@[361] == orig[361],
            0 <= orig[361] <= SCALE,
            forall|i: int| 0 <= i < 361 && !board.legal_spec(i) ==> !live(#[trigger] p@[i]),
            forall|i: int| 0 <= i < 362 ==> MASKED <= #[trigger] p@[i] <= mass_bound(k - 1),
            (forall|i: int| 0 <= i < 361 ==> !(#[trigger] board.legal_spec(i))) ==> (forall|i: int|
                0 <= i < 361 ==> #[trigger] p@[i] == MASKED),
        decreases 8 - k,
    {
        proof {
            lemma_mass_bound_small(k - 1);
            lemma_mass_bound_small(k as int);
        }
        let t = Transform::from_index(k);
        if board.is_symmetric(t) {
            merge_symmetric(&mut p, t);
        }
        proof {
            assert(p@ == merge_all(masked, *board, k as int + 1));
        }
        k += 1;
    }
    proof {
        lemma_mass_bound_small(7);
        lemma_live_sum_bounds(p@);
    }
    let ghost before_renorm = p@;
    renormalize(&mut p);
    proof {
        lemma_live_sum_bounds(before_renorm);
        if live_sum(before_renorm) <= MASS_FLOOR {
            // skipped: each surviving entry is at most the surviving mass
            assert(p@ == before_renorm);
            assert forall|i: int| 0 <= i < 362 implies #[trigger] p@[i] <= SCALE by {
                if live(before_renorm[i]) {
                    assert(before_renorm[i] as int <= live_sum(before_renorm));
                }
            }
        }
        if forall|i: int| 0 <= i < 361 ==> !(#[trigger] board.legal_spec(i)) {
            assert forall|i: int| 0 <= i < 361 implies !live(#[trigger] before_renorm[i]) by {
                assert(before_renorm[i] == MASKED);
            }
            lemma_live_sum_last_only(before_renorm);
            assert(live_sum(before_renorm) == orig[361]);
            if live_sum(before_renorm) > MASS_FLOOR {
                let v = orig[361] as int;
                lemma_fundamental_div_mod_converse_div(v * (SCALE as int), v, SCALE as int, 0);
                assert(p@[361] as int == v * (SCALE as int) / v);
                assert(v * (SCALE as int) == (SCALE as int) * v + 0) by (nonlinear_arith);
                assert(p@[361] == SCALE);
            }
        }
    }
    p
}

/// One augmented forward pass for a position: draws one of the eight
/// symmetries at random, evaluates the transformed features, expresses the
/// policy in original coordinates again, and augments it. Whatever the
/// evaluator answered, every illegal point ends masked, the pass entry
/// survives, and when only pass is legal the whole renormalized mass sits on
/// pass.
pub fn forward<A: Forwarder>(agent: &mut A, board: &Board, color: Color) -> (r: (i64, Vec<i64>))
    requires
        board.wf(),
    ensures
        -SCALE <= r.0 <= SCALE,
        r.1@.len() == 362,
        r.1@[361] >= 0,
        live_sum(r.1@) <= SCALE,
        live_sum(r.1@) > SCALE - 362 || live_sum(r.1@) <= MASS_FLOOR,
        forall|i: int| 0 <= i < 361 && !board.legal_spec(i) ==> !live(#[trigger] r.1@[i]),
        forall|i: int| 0 <= i < 362 ==> MASKED <= #[trigger] r.1@[i] <= SCALE,
        (forall|i: int| 0 <= i < 361 ==> !(#[trigger] board.legal_spec(i))) ==> (r.1@[361] == SCALE
            || r.1@[361] <= MASS_FLOOR) && (forall|i: int|
            0 <= i < 361 ==> !live(#[trigger] r.1@[i])),
{
    let t = Transform::from_index(crate::rng::random_below(8));
    let features = board.get_features(color);
    let transformed = crate::symmetry::transform_buffer(&features, t);
    let (value, policy) = agent.forward(transformed);
    let restored = crate::symmetry::transform_buffer(&policy, t.inverse());
    proof {
        assert forall|i: int| 0 <= i < 362 implies 0 <= #[trigger] restored@[i] <= SCALE by {
            let u = t.inverse_spec();
            if i < 361 {
                lemma_apply_in_range(u.inverse_spec(), i);
            }
        }
    }
    let augmented = augment(restored, board, color);
    (value, augmented)
}

} // verus!
