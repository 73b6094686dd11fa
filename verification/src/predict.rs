//! The search coordinator: one root evaluation seeds the tree, exploration
//! noise broadens its priors, and a fixed budget of probes is then worked
//! off in batches of exactly `batch_size` evaluation requests, exactly
//! `iteration_limit / batch_size` batches in all. The fixed batch count, not
//! a shared counter, decides when the dispatcher stops, so no probe's
//! request can be left unanswered.

use vstd::prelude::*;
use vstd::arithmetic::div_mod::lemma_fundamental_div_mod;
use vstd::arithmetic::div_mod::lemma_div_is_ordered;
use crate::SCALE;
use crate::MASKED;
use crate::live;
use crate::board::Board;
use crate::board::Color;
use crate::eval::Evaluator;
use crate::eval::Forwarder;
use crate::forward::forward;
use crate::forward::augment;
use crate::symmetry::Transform;
use crate::symmetry::transform_buffer;
use crate::symmetry::lemma_apply_in_range;
use crate::tree::SearchTree;
use crate::tree::Step;
use crate::tree::Value;
use crate::tree::probe;
use crate::tree::insert;
use crate::tree::trace_wf;
use crate::tree::node_in_trace;
use crate::rng::random_below;

verus! {

/// The search configuration. The iteration budget must divide into whole
/// batches, and so must the worker pool; a violation is a programmer error
/// caught before any work starts. The budget cap keeps every statistic far
/// from its integer limits.
pub struct Config {
    pub iteration_limit: usize,
    pub batch_size: usize,
    pub thread_count: usize,
}

impl Config {
    pub open spec fn valid(self) -> bool {
        &&& 0 < self.batch_size
        &&& 0 < self.thread_count
        &&& self.iteration_limit <= 1_000_000_000
        &&& self.iteration_limit % self.batch_size == 0
        &&& self.thread_count % self.batch_size == 0
    }

    /// The fail-fast configuration check.
    pub fn check(&self) -> (r: bool)
        ensures
            r == self.valid(),
    {
        self.batch_size > 0 && self.thread_count > 0 && self.iteration_limit <= 1_000_000_000
            && self.iteration_limit % self.batch_size == 0 && self.thread_count % self.batch_size
            == 0
    }
}

/// One noised prior: three quarters of the prior plus one quarter of some
/// drawn mass of at most `SCALE`, rounding down.
pub open spec fn noise_mixed(prior: i64, drawn: int, res: i64) -> bool {
    0 <= drawn <= SCALE && res as int == (3 * prior + drawn) / 4
}

/// Mixes one quarter of a random mass into every prior still in play, as
/// the Dirichlet-noise perturbation of the root does: masked entries stay
/// masked, and every live entry becomes `noise_mixed` of itself and some
/// drawn mass (which drawn mass is the randomness, and is all that is left
/// open).
pub fn add_exploration_noise(policy: &mut Vec<i64>)
    requires
        old(policy)@.len() == 362,
        forall|i: int| 0 <= i < 362 ==> MASKED <= #[trigger] old(policy)@[i] <= SCALE,
    ensures
        final(policy)@.len() == 362,
        forall|i: int|
            0 <= i < 362 && !live(#[trigger] old(policy)@[i]) ==> final(policy)@[i] == old(
                policy,
            )@[i],
        forall|i: int| 0 <= i < 362 ==> MASKED <= #[trigger] final(policy)@[i] <= SCALE,
        forall|i: int|
            0 <= i < 362 && live(#[trigger] old(policy)@[i]) ==> live(final(policy)@[i]),
        forall|i: int|
            0 <= i < 362 && live(#[trigger] old(policy)@[i]) ==> exists|n: int|
                #[trigger] noise_mixed(old(policy)@[i], n, final(policy)@[i]),
{
    let ghost orig = old(policy)@;
    let mut i: usize = 0;
    while i < 362
        invariant
            policy@.len() == 362,
            orig.len() == 362,
            forall|k: int| 0 <= k < 362 ==> MASKED <= #[trigger] orig[k] <= SCALE,
            i <= 362,
            forall|k: int| i <= k < 362 ==> #[trigger] policy@[k] == orig[k],
            forall|k: int|
                0 <= k < i && !live(#[trigger] orig[k]) ==> policy@[k] == orig[k],
            forall|k: int| 0 <= k < i ==> MASKED <= #[trigger] policy@[k] <= SCALE,
            forall|k: int| 0 <= k < i && live(#[trigger] orig[k]) ==> live(policy@[k]),
            forall|k: int|
                0 <= k < i && live(#[trigger] orig[k]) ==> exists|n: int|
                    #[trigger] noise_mixed(orig[k], n, policy@[k]),
        decreases 362 - i,
    {
        let ghost pre = policy@;
        let p = policy[i];
        if p >= 0 {
            let n = random_below(1_000_001) as i64;
            let mixed = (3 * p + n) / 4;
            proof {
                lemma_div_is_ordered(3 * (p as int) + (n as int), 4 * (SCALE as int), 4);
            }
            policy[i] = mixed;
            proof {
                assert(noise_mixed(orig[i as int], n as int, policy@[i as int]));
                assert forall|k: int| 0 <= k < i && live(orig[k]) implies exists|n2: int|
                    #[trigger] noise_mixed(orig[k], n2, policy@[k]) by {
                    let n0 = choose|n0: int| noise_mixed(orig[k], n0, pre[k]);
                    assert(noise_mixed(orig[k], n0, policy@[k]));
                }
            }
        }
        i += 1;
    }
}

/// One pending evaluation request of the dispatcher: the recorded probe,
/// the board at its leaf, the color to move there, and the symmetry drawn
/// for the evaluation.
struct Pending {
    trace: Vec<Step>,
    board: Board,
    color: Color,
    transform: Transform,
}

/// How a search answer hangs together: the returned distribution is
/// derived from a vector of per-move root visit counts that sum to the
/// whole iteration budget, normalized in fixed point, and the returned
/// index holds the most visits of all.
pub open spec fn visit_distribution(counts: Seq<u64>, dist: Seq<i64>, best: int, total: int) -> bool {
    &&& counts.len() == 362
    &&& crate::tree::count_sum(counts) == total
    &&& 0 <= best < 362
    &&& forall|j: int| 0 <= j < 362 ==> (#[trigger] counts[j]) <= counts[best]
    &&& total > 0 ==> forall|i: int|
        0 <= i < 362 ==> (#[trigger] dist[i]) as int == (counts[i] as int) * (SCALE as int) / total
    &&& total == 0 ==> forall|i: int| 0 <= i < 362 ==> (#[trigger] dist[i]) == 0
}

/// The full shape of a search answer: on top of the visit distribution,
/// the returned value is the mean accumulated value of the most-visited
/// root move, over the totals the inserts accumulated there.
pub open spec fn search_answer(
    counts: Seq<u64>,
    totals: Seq<i64>,
    value: i64,
    dist: Seq<i64>,
    best: int,
    budget: int,
) -> bool {
    &&& visit_distribution(counts, dist, best, budget)
    &&& totals.len() == 362
    &&& value as int == crate::tree::mean_spec(totals[best] as int, counts[best] as int)
}

/// Runs one full search: evaluates the root once, perturbs the returned
/// policy with exploration noise, builds the root node from it, and then
/// works off exactly `iteration_limit` probes in exactly
/// `iteration_limit / batch_size` dispatcher batches of exactly
/// `batch_size` requests (the root always keeps pass in play, so no probe
/// comes back empty and every probe ends in one insert). Returns the mean
/// accumulated value and index of the most-visited root move, the index of
/// the highest-prior move (the argmax of a noised augmented policy, so
/// pass or a legal point), and the visit-count distribution over root
/// moves; the distribution's largest share sits at the returned index, it
/// derives from root visit counts summing to the whole budget, it puts no
/// mass on illegal points, and with a positive budget the chosen move is
/// pass or a legal point.
pub fn predict<E: Evaluator, V: Value>(
    eval: &mut E,
    strategy: &V,
    cfg: &Config,
    starting_point: &Board,
    starting_color: Color,
) -> (r: (i64, usize, usize, Vec<i64>))
    requires
        cfg.valid(),
        starting_point.wf(),
    ensures
        -SCALE <= r.0 <= SCALE,
        r.1 < 362,
        r.2 < 362,
        r.3@.len() == 362,
        forall|i: int| 0 <= i < 362 ==> 0 <= #[trigger] r.3@[i] <= SCALE,
        forall|i: int| 0 <= i < 362 ==> #[trigger] r.3@[i] <= r.3@[r.1 as int],
        exists|counts: Seq<u64>, totals: Seq<i64>|
            #[trigger] search_answer(counts, totals, r.0, r.3@, r.1 as int, cfg.iteration_limit as int),
        cfg.iteration_limit > 0 ==> (r.1 == 361 || starting_point.legal_spec(r.1 as int)),
        forall|i: int| 0 <= i < 361 && !starting_point.legal_spec(i) ==> #[trigger] r.3@[i] == 0,
        r.2 == 361 || starting_point.legal_spec(r.2 as int),
        maximizes_an_augmented_policy(*starting_point, r.2 as int),
{
    let (_, mut policy) = forward(eval, starting_point, starting_color);
    let ghost pre_noise = policy@;
    add_exploration_noise(&mut policy);
    let mut tree = SearchTree::new(starting_color, policy);
    let ghost root_priors = tree.nodes@[0].priors@;
    proof {
        assert(live(root_priors[361]));
        assert forall|i: int|
            0 <= i < 361 && !starting_point.legal_spec(i) implies !live(
            #[trigger] root_priors[i],
        ) by {
            assert(!live(pre_noise[i]));
            assert(root_priors[i] == pre_noise[i]);
        }
    }
    let nbatches = cfg.iteration_limit / cfg.batch_size;
    proof {
        lemma_fundamental_div_mod(cfg.iteration_limit as int, cfg.batch_size as int);
        assert((nbatches as int) * (cfg.batch_size as int) == (cfg.batch_size as int) * (
        nbatches as int)) by (nonlinear_arith);
    }
    let mut b: usize = 0;
    while b < nbatches
        invariant
            cfg.valid(),
            starting_point.wf(),
            nbatches * cfg.batch_size == cfg.iteration_limit,
            b <= nbatches,
            tree.wf(),
            tree.nodes@[0].priors@ == root_priors,
            live(root_priors[361]),
            forall|i: int|
                0 <= i < 361 && !starting_point.legal_spec(i) ==> !live(#[trigger] root_priors[i]),
            tree.nodes@[0].total_count as int == b * cfg.batch_size,
            forall|i: int|
                0 <= i < 362 && (#[trigger] tree.nodes@[0].counts@[i]) > 0 ==> live(
                    root_priors[i],
                ),
            forall|k: int|
                0 <= k < tree.nodes@.len() ==> (#[trigger] tree.nodes@[k]).total_count as int <= b
                    * cfg.batch_size,
            forall|k: int, i: int|
                0 <= k < tree.nodes@.len() && 0 <= i < 362 ==> (#[trigger] tree.nodes@[k].vloss@[
                i]) as int <= b * cfg.batch_size,
        decreases nbatches - b,
    {
        proof {
            assert((b + 1) * cfg.batch_size <= nbatches * cfg.batch_size) by (nonlinear_arith)
                requires
                    b + 1 <= nbatches,
                    cfg.batch_size > 0,
            ;
            assert(b * cfg.batch_size + cfg.batch_size == (b + 1) * cfg.batch_size)
                by (nonlinear_arith);
        }
        // collect up to one batch of evaluation requests from the probes
        let mut pending: Vec<Pending> = Vec::new();
        let mut features_list: Vec<Vec<i64>> = Vec::new();
        let mut k: usize = 0;
        while k < cfg.batch_size
            invariant
                cfg.valid(),
                starting_point.wf(),
                b * cfg.batch_size + cfg.batch_size <= 1_000_000_000,
                k <= cfg.batch_size,
                tree.wf(),
                tree.nodes@[0].priors@ == root_priors,
                live(root_priors[361]),
                forall|i: int|
                    0 <= i < 361 && !starting_point.legal_spec(i) ==> !live(
                        #[trigger] root_priors[i],
                    ),
                tree.nodes@[0].total_count as int == b * cfg.batch_size,
                forall|i: int|
                    0 <= i < 362 && (#[trigger] tree.nodes@[0].counts@[i]) > 0 ==> live(
                        root_priors[i],
                    ),
                pending@.len() == features_list@.len(),
                pending@.len() == k,
                forall|m: int|
                    0 <= m < pending@.len() ==> (#[trigger] features_list@[m])@.len() == 361,
                forall|m: int|
                    0 <= m < pending@.len() ==> trace_wf(tree, (#[trigger] pending@[m]).trace@)
                        && pending@[m].board.wf() && pending@[m].trace@.len() > 0 && pending@[
                        m].trace@[0].0 == 0,
                forall|j: int, mm: int|
                    0 <= j < pending@.len() && 0 <= mm < pending@[j].trace@.len() ==> live(
                        #[trigger] tree.nodes@[pending@[j].trace@[mm].0 as int].priors@[pending@[
                            j].trace@[mm].2 as int],
                    ),
                forall|j: int|
                    0 <= j < tree.nodes@.len() ==> (#[trigger] tree.nodes@[j]).total_count as int
                        <= b * cfg.batch_size,
                forall|j: int, i: int|
                    0 <= j < tree.nodes@.len() && 0 <= i < 362 ==> (#[trigger] tree.nodes@[
                    j].vloss@[i]) as int <= b * cfg.batch_size + k,
            decreases cfg.batch_size - k,
        {
            let mut board = starting_point.clone();
            let trace = probe(&mut tree, strategy, &mut board);
            proof {
                if trace@.len() == 0 {
                    assert(!live(tree.nodes@[0].priors@[361]));
                    assert(false);
                }
            }
            if trace.len() > 0 {
                let last = trace[trace.len() - 1];
                let next_color = last.1.opposite();
                let t = Transform::from_index(random_below(8));
                let features = board.get_features(next_color);
                let transformed = transform_buffer(&features, t);
                features_list.push(transformed);
                pending.push(Pending { trace, board, color: next_color, transform: t });
            }
            k += 1;
        }
        // one evaluator call for the whole batch, then fold every reply in
        if pending.len() > 0 {
            let (values, policies) = eval.evaluate(&features_list);
            let mut m: usize = 0;
            while m < pending.len()
                invariant
                    cfg.valid(),
                    b * cfg.batch_size + cfg.batch_size <= 1_000_000_000,
                    tree.wf(),
                    tree.nodes@[0].priors@ == root_priors,
                    live(root_priors[361]),
                    forall|i: int|
                        0 <= i < 361 && !starting_point.legal_spec(i) ==> !live(
                            #[trigger] root_priors[i],
                        ),
                    tree.nodes@[0].total_count as int == b * cfg.batch_size + m,
                    forall|i: int|
                        0 <= i < 362 && (#[trigger] tree.nodes@[0].counts@[i]) > 0 ==> live(
                            root_priors[i],
                        ),
                    forall|j: int, mm: int|
                        0 <= j < pending@.len() && 0 <= mm < pending@[j].trace@.len() ==> live(
                            #[trigger] tree.nodes@[pending@[j].trace@[mm].0 as int].priors@[
                                pending@[j].trace@[mm].2 as int],
                        ),
                    forall|j: int|
                        0 <= j < pending@.len() ==> (#[trigger] pending@[j]).trace@.len() > 0
                            && pending@[j].trace@[0].0 == 0,
                    pending@.len() == cfg.batch_size,
                    values@.len() == pending@.len(),
                    policies@.len() == pending@.len(),
                    forall|j: int| 0 <= j < values@.len() ==> -SCALE <= #[trigger] values@[j] <= SCALE,
                    forall|j: int| 0 <= j < policies@.len() ==> (#[trigger] policies@[j])@.len() == 362,
                    forall|j: int, i: int|
                        0 <= j < policies@.len() && 0 <= i < 362 ==> 0 <= (#[trigger] policies@[
                        j]@[i]) <= SCALE,
                    m <= pending@.len(),
                    forall|j: int|
                        0 <= j < pending@.len() ==> trace_wf(tree, (#[trigger] pending@[j]).trace@)
                            && pending@[j].board.wf(),
                    forall|j: int|
                        0 <= j < tree.nodes@.len() ==> (#[trigger] tree.nodes@[j]).total_count as int
                            <= b * cfg.batch_size + m,
                    forall|j: int, i: int|
                        0 <= j < tree.nodes@.len() && 0 <= i < 362 ==> (#[trigger] tree.nodes@[
                        j].vloss@[i]) as int <= b * cfg.batch_size + cfg.batch_size,
                decreases pending@.len() - m,
            {
                let req = &pending[m];
                let value = values[m];
                let restored = transform_buffer(&policies[m], req.transform.inverse());
                proof {
                    assert forall|i: int| 0 <= i < 362 implies 0 <= #[trigger] restored@[i]
                        <= SCALE by {
                        if i < 361 {
                            lemma_apply_in_range(req.transform.inverse_spec().inverse_spec(), i);
                        }
                    }
                }
                let augmented = augment(restored, &req.board, req.color);
                let ghost before_insert = tree;
                insert(&mut tree, &req.trace, req.color, value, augmented);
                proof {
                    let tr = req.trace@;
                    assert(crate::tree::stats_bumped(
                        before_insert.nodes@[0],
                        tree.nodes@[0],
                        tr[0].2 as int,
                        tr[0].1 == req.color,
                        value,
                    ));
                    assert(tree.nodes@[0].total_count as int == b * cfg.batch_size + m + 1);
                    assert forall|i: int|
                        0 <= i < 362 && (#[trigger] tree.nodes@[0].counts@[i]) > 0 implies live(
                        root_priors[i],
                    ) by {
                        if i != tr[0].2 as int {
                            assert(tree.nodes@[0].counts@[i] == before_insert.nodes@[0].counts@[i]);
                        } else {
                            assert(live(
                                before_insert.nodes@[tr[0].0 as int].priors@[tr[0].2 as int],
                            ));
                        }
                    }
                    assert forall|j: int| 0 <= j < tree.nodes@.len() implies (#[trigger] tree.nodes@[
                    j]).total_count as int <= b * cfg.batch_size + m + 1 by {
                        if j < before_insert.nodes@.len() {
                            if node_in_trace(tr, j) {
                                let mm = choose|mm: int|
                                    0 <= mm < tr.len() && (#[trigger] tr[mm]).0 == j;
                                assert(crate::tree::stats_bumped(
                                    before_insert.nodes@[j],
                                    tree.nodes@[j],
                                    tr[mm].2 as int,
                                    tr[mm].1 == req.color,
                                    value,
                                ));
                            } else {
                                assert(crate::tree::stats_eq(
                                    before_insert.nodes@[j],
                                    tree.nodes@[j],
                                ));
                            }
                        }
                    }
                    assert forall|j: int, i: int|
                        0 <= j < tree.nodes@.len() && 0 <= i < 362 implies (#[trigger] tree.nodes@[
                    j].vloss@[i]) as int <= b * cfg.batch_size + cfg.batch_size by {
                        if j < before_insert.nodes@.len() {
                            if node_in_trace(tr, j) {
                                let mm = choose|mm: int|
                                    0 <= mm < tr.len() && (#[trigger] tr[mm]).0 == j;
                                assert(crate::tree::stats_bumped(
                                    before_insert.nodes@[j],
                                    tree.nodes@[j],
                                    tr[mm].2 as int,
                                    tr[mm].1 == req.color,
                                    value,
                                ));
                            } else {
                                assert(crate::tree::stats_eq(
                                    before_insert.nodes@[j],
                                    tree.nodes@[j],
                                ));
                            }
                        }
                    }
                }
                m += 1;
            }
        }
        b += 1;
        proof {
            assert(b * cfg.batch_size == (b - 1) * cfg.batch_size + cfg.batch_size)
                by (nonlinear_arith);
        }
    }
    let (value, index) = tree.best();
    let (_, prior_index) = tree.prior();
    let dist = tree.softmax();
    proof {
        let counts = tree.nodes@[0].counts@;
        let total = tree.nodes@[0].total_count as int;
        assert(total == cfg.iteration_limit);
        assert forall|i: int|
            0 <= i < 362 implies #[trigger] dist@[i] <= dist@[index as int] by {
            if total > 0 {
                assert((counts[i] as int) * (SCALE as int) <= (counts[index as int] as int) * (
                SCALE as int));
                lemma_div_is_ordered(
                    (counts[i] as int) * (SCALE as int),
                    (counts[index as int] as int) * (SCALE as int),
                    total,
                );
            }
        }
        assert(visit_distribution(counts, dist@, index as int, cfg.iteration_limit as int));
        assert(search_answer(
            counts,
            tree.nodes@[0].totals@,
            value,
            dist@,
            index as int,
            cfg.iteration_limit as int,
        ));
        assert forall|i: int|
            0 <= i < 361 && !starting_point.legal_spec(i) implies #[trigger] dist@[i] == 0 by {
            assert(!live(root_priors[i]));
            assert(counts[i] == 0);
        }
        assert(root_priors.len() == 362);
        assert(root_priors[prior_index as int] >= root_priors[361]);
        assert(augmented_argmax(root_priors, *starting_point, prior_index as int));
        assert(maximizes_an_augmented_policy(*starting_point, prior_index as int)) by {
            assert(augmented_argmax(root_priors, *starting_point, prior_index as int));
        }
        if cfg.iteration_limit > 0 {
            if counts[index as int] == 0 {
                assert forall|j: int| 0 <= j < 362 implies #[trigger] counts[j] == 0 by {
                    assert(counts[j] <= counts[index as int]);
                }
                crate::tree::lemma_count_sum_zero(counts);
            }
            assert(counts[index as int] > 0);
            assert(live(root_priors[index as int]));
            if index < 361 {
                assert(starting_point.legal_spec(index as int));
            }
        }
    }
    (value, index, prior_index, dist)
}

/// The chosen move maximizes a policy of the augmented shape: 362 entries,
/// pass in play, every illegal point masked out.
pub open spec fn augmented_argmax(p: Seq<i64>, b: Board, best: int) -> bool {
    &&& p.len() == 362
    &&& live(p[361])
    &&& (forall|i: int| 0 <= i < 361 && !b.legal_spec(i) ==> !live(#[trigger] p[i]))
    &&& 0 <= best < 362
    &&& (forall|j: int| 0 <= j < 362 ==> #[trigger] p[j] <= p[best])
}

/// Some policy of the augmented shape has its maximum at `best`.
pub open spec fn maximizes_an_augmented_policy(b: Board, best: int) -> bool {
    exists|p: Seq<i64>| #[trigger] augmented_argmax(p, b, best)
}

/// A variant of `predict` that performs no search: the move is the one with
/// the highest augmented prior (so it is pass or a legal point), and the
/// returned distribution puts all mass on it.
pub fn predict_policy<E: Evaluator>(
    eval: &mut E,
    starting_point: &Board,
    starting_color: Color,
) -> (r: (i64, usize, usize, Vec<i64>))
    requires
        starting_point.wf(),
    ensures
        -SCALE <= r.0 <= SCALE,
        r.1 < 362,
        r.2 == r.1,
        r.3@.len() == 362,
        r.3@[r.1 as int] == SCALE,
        forall|i: int| 0 <= i < 362 && i != r.1 ==> #[trigger] r.3@[i] == 0,
        r.1 == 361 || starting_point.legal_spec(r.1 as int),
        maximizes_an_augmented_policy(*starting_point, r.1 as int),
{
    let (value, policy) = forward(eval, starting_point, starting_color);
    let mut best: usize = 0;
    let mut i: usize = 1;
    while i < 362
        invariant
            policy@.len() == 362,
            live(policy@[361]),
            forall|j: int|
                0 <= j < 361 && !starting_point.legal_spec(j) ==> !live(#[trigger] policy@[j]),
            1 <= i <= 362,
            best < i,
            forall|j: int| 0 <= j < i ==> #[trigger] policy@[j] <= policy@[best as int],
        decreases 362 - i,
    {
        if policy[i] > policy[best] {
            best = i;
        }
        i += 1;
    }
    proof {
        assert(policy@[best as int] >= policy@[361]);
        assert(augmented_argmax(policy@, *starting_point, best as int));
    }
    let mut dist: Vec<i64> = Vec::new();
    let mut j: usize = 0;
    while j < 362
        invariant
            j <= 362,
            best < 362,
            augmented_argmax(policy@, *starting_point, best as int),
            dist@.len() == j,
            forall|k: int| 0 <= k < j && k != best ==> #[trigger] dist@[k] == 0,
            j > best ==> dist@[best as int] == SCALE,
        decreases 362 - j,
    {
        if j == best {
            dist.push(SCALE);
        } else {
            dist.push(0);
        }
        j += 1;
    }
    proof {
        assert(maximizes_an_augmented_policy(*starting_point, best as int)) by {
            assert(augmented_argmax(policy@, *starting_point, best as int));
        }
    }
    (value, best, best, dist)
}

} // verus!
