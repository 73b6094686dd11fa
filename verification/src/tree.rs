//! The shared search tree: an arena of nodes addressed by index, per-node
//! per-move statistics, and the two tree operations, `probe` (descend to a
//! leaf, recording the path and laying a virtual loss on every edge chosen)
//! and `insert` (create the missing leaf and fold one evaluation back along
//! the recorded path).
//!
//! The central accounting invariant, part of `SearchTree::wf`, is that at
//! every node the sum of the per-move visit counts equals the node's total
//! count, which `insert` raises by exactly one at every node of the path: at
//! every node the child-edge visits sum to the number of inserts that passed
//! through it. Children always carry a larger arena index than their parent,
//! so a probe strictly descends and terminates.

use vstd::prelude::*;
use vstd::arithmetic::div_mod::lemma_div_is_ordered;
use vstd::arithmetic::div_mod::lemma_div_is_ordered_by_denominator;
use vstd::arithmetic::div_mod::lemma_fundamental_div_mod;
use vstd::arithmetic::div_mod::lemma_fundamental_div_mod_converse_div;
use crate::SCALE;
use crate::MASKED;
use crate::live;
use crate::board::Board;
use crate::board::Color;

verus! {

/// Statistics caps stay far below the integer limits: no search can run
/// this many iterations, and every product with `SCALE` still fits.
pub const STAT_CAP: u64 = 1_000_000_000_000;

/// One step of a recorded probe: the node's arena index, the color to move
/// there, and the move chosen.
pub type Step = (usize, Color, usize);

/// One node: priors, per-move accumulated value and visit count, virtual
/// losses, lazily created children, and the color to move.
pub struct Node {
    pub to_move: Color,
    pub priors: Vec<i64>,
    pub totals: Vec<i64>,
    pub counts: Vec<u64>,
    pub vloss: Vec<u64>,
    pub children: Vec<Option<usize>>,
    pub total_count: u64,
}

/// The sum of a sequence of visit counts.
pub open spec fn count_sum(s: Seq<u64>) -> int
    decreases s.len(),
{
    if s.len() == 0 {
        0
    } else {
        count_sum(s.drop_last()) + s.last()
    }
}

pub proof fn lemma_count_sum_bounds(s: Seq<u64>)
    ensures
        count_sum(s) >= 0,
        forall|j: int| 0 <= j < s.len() ==> #[trigger] (s[j] as int) <= count_sum(s),
    decreases s.len(),
{
    if s.len() > 0 {
        lemma_count_sum_bounds(s.drop_last());
        assert forall|j: int| 0 <= j < s.len() implies #[trigger] (s[j] as int) <= count_sum(s) by {
            if j < s.len() - 1 {
                assert(s.drop_last()[j] == s[j]);
            }
        }
    }
}

pub proof fn lemma_count_sum_update(s: Seq<u64>, i: int, v: u64)
    requires
        0 <= i < s.len(),
    ensures
        count_sum(s.update(i, v)) == count_sum(s) - s[i] + v,
    decreases s.len(),
{
    if i == s.len() - 1 {
        assert(s.update(i, v).drop_last() =~= s.drop_last());
    } else {
        assert(s.update(i, v).drop_last() =~= s.drop_last().update(i, v));
        lemma_count_sum_update(s.drop_last(), i, v);
    }
}

pub proof fn lemma_count_sum_zero(s: Seq<u64>)
    requires
        forall|j: int| 0 <= j < s.len() ==> #[trigger] s[j] == 0,
    ensures
        count_sum(s) == 0,
    decreases s.len(),
{
    if s.len() > 0 {
        assert forall|j: int| 0 <= j < s.len() - 1 implies #[trigger] s.drop_last()[j] == 0 by {
            assert(s.drop_last()[j] == s[j]);
        }
        lemma_count_sum_zero(s.drop_last());
    }
}

impl Node {
    /// Shape and accounting of one node, apart from where its children
    /// point: every per-move table has 362 entries, the total count is the
    /// sum of the per-move counts, priors are masked or a probability, and
    /// accumulated value is bounded by the visits that accumulated it.
    pub open spec fn local_wf(self) -> bool {
        &&& self.priors@.len() == 362
        &&& self.totals@.len() == 362
        &&& self.counts@.len() == 362
        &&& self.vloss@.len() == 362
        &&& self.children@.len() == 362
        &&& self.total_count as int == count_sum(self.counts@)
        &&& forall|i: int| 0 <= i < 362 ==> MASKED <= #[trigger] self.priors@[i] <= SCALE
        &&& forall|i: int|
            0 <= i < 362 ==> -((#[trigger] self.counts@[i]) as int) * (SCALE as int)
                <= self.totals@[i] as int <= (self.counts@[i] as int) * (SCALE as int)
    }

    /// Children of the node at position `pos` point strictly forward in an
    /// arena of `len` nodes.
    pub open spec fn children_ok(self, pos: int, len: int) -> bool {
        forall|i: int|
            0 <= i < self.children@.len() ==> child_ok(#[trigger] self.children@[i], pos, len)
    }

    /// A fresh node with the given priors and no statistics.
    pub fn new(to_move: Color, policy: Vec<i64>) -> (r: Node)
        requires
            policy@.len() == 362,
            forall|i: int| 0 <= i < 362 ==> MASKED <= #[trigger] policy@[i] <= SCALE,
        ensures
            r.local_wf(),
            r.to_move == to_move,
            r.priors@ == policy@,
            r.total_count == 0,
            forall|i: int| 0 <= i < 362 ==> #[trigger] r.counts@[i] == 0,
            forall|i: int| 0 <= i < 362 ==> #[trigger] r.totals@[i] == 0,
            forall|i: int| 0 <= i < 362 ==> #[trigger] r.vloss@[i] == 0,
            forall|i: int| 0 <= i < 362 ==> #[trigger] r.children@[i] is None,
    {
        let mut totals: Vec<i64> = Vec::new();
        let mut counts: Vec<u64> = Vec::new();
        let mut vloss: Vec<u64> = Vec::new();
        let mut children: Vec<Option<usize>> = Vec::new();
        let mut i: usize = 0;
        while i < 362
            invariant
                i <= 362,
                totals@.len() == i,
                counts@.len() == i,
                vloss@.len() == i,
                children@.len() == i,
                forall|k: int| 0 <= k < i ==> #[trigger] totals@[k] == 0,
                forall|k: int| 0 <= k < i ==> #[trigger] counts@[k] == 0,
                forall|k: int| 0 <= k < i ==> #[trigger] vloss@[k] == 0,
                forall|k: int| 0 <= k < i ==> #[trigger] children@[k] is None,
            decreases 362 - i,
        {
            totals.push(0);
            counts.push(0);
            vloss.push(0);
            children.push(None);
            i += 1;
        }
        let r = Node { to_move, priors: policy, totals, counts, vloss, children, total_count: 0 };
        proof {
            lemma_count_sum_zero(r.counts@);
        }
        r
    }
}

pub open spec fn child_ok(c: Option<usize>, pos: int, len: int) -> bool {
    match c {
        Some(idx) => pos < idx < len,
        None => true,
    }
}

/// The search tree: an arena of nodes; index 0 is the root.
pub struct SearchTree {
    pub nodes: Vec<Node>,
}

impl SearchTree {
    pub open spec fn wf(self) -> bool {
        &&& self.nodes@.len() >= 1
        &&& forall|k: int| 0 <= k < self.nodes@.len() ==> (#[trigger] self.nodes@[k]).local_wf()
        &&& forall|k: int|
            0 <= k < self.nodes@.len() ==> (#[trigger] self.nodes@[k]).children_ok(
                k,
                self.nodes@.len() as int,
            )
    }

    /// Every statistic is comfortably below the caps, so one more probe or
    /// insert cannot overflow anything.
    pub open spec fn capped(self) -> bool {
        &&& forall|k: int|
            0 <= k < self.nodes@.len() ==> (#[trigger] self.nodes@[k]).total_count < STAT_CAP
        &&& forall|k: int, i: int|
            0 <= k < self.nodes@.len() && 0 <= i < 362 ==> (#[trigger] self.nodes@[k].vloss@[i])
                < STAT_CAP
    }

    /// A new tree holding only a root with the given priors.
    pub fn new(to_move: Color, policy: Vec<i64>) -> (r: SearchTree)
        requires
            policy@.len() == 362,
            forall|i: int| 0 <= i < 362 ==> MASKED <= #[trigger] policy@[i] <= SCALE,
        ensures
            r.wf(),
            r.capped(),
            r.nodes@.len() == 1,
            r.nodes@[0].to_move == to_move,
            r.nodes@[0].priors@ == policy@,
            r.nodes@[0].total_count == 0,
            forall|i: int| 0 <= i < 362 ==> #[trigger] r.nodes@[0].vloss@[i] == 0,
            forall|i: int| 0 <= i < 362 ==> #[trigger] r.nodes@[0].counts@[i] == 0,
    {
        let root = Node::new(to_move, policy);
        let mut nodes: Vec<Node> = Vec::new();
        nodes.push(root);
        SearchTree { nodes }
    }

    /// The root's total visit count: how many inserts reached the root.
    pub fn root_visits(&self) -> (r: u64)
        requires
            self.wf(),
        ensures
            r == self.nodes@[0].total_count,
    {
        self.nodes[0].total_count
    }

    /// The root's color to move.
    pub fn root_color(&self) -> (r: Color)
        requires
            self.wf(),
        ensures
            r == self.nodes@[0].to_move,
    {
        self.nodes[0].to_move
    }
}

impl SearchTree {
    /// The canonical answer of a search: the root move with the most
    /// visits (the first such move on ties) and its mean accumulated value.
    pub fn best(&self) -> (r: (i64, usize))
        requires
            self.wf(),
            self.capped(),
        ensures
            r.1 < 362,
            forall|j: int|
                0 <= j < 362 ==> (#[trigger] self.nodes@[0].counts@[j]) <= self.nodes@[0].counts@[
                r.1 as int],
            r.0 as int == mean_spec(
                self.nodes@[0].totals@[r.1 as int] as int,
                self.nodes@[0].counts@[r.1 as int] as int,
            ),
            -SCALE <= r.0 <= SCALE,
    {
        proof {
            lemma_count_sum_bounds(self.nodes@[0].counts@);
        }
        let root = &self.nodes[0];
        let mut best: usize = 0;
        let mut i: usize = 1;
        while i < 362
            invariant
                self.wf(),
                root == &self.nodes@[0],
                1 <= i <= 362,
                best < i,
                forall|j: int|
                    0 <= j < i ==> (#[trigger] self.nodes@[0].counts@[j]) <= self.nodes@[0].counts@[
                    best as int],
            decreases 362 - i,
        {
            if root.counts[i] > root.counts[best] {
                best = i;
            }
            i += 1;
        }
        let tt = root.totals[best];
        let cnt = root.counts[best];
        let val: i64 = if cnt == 0 {
            0
        } else {
            proof {
                lemma_count_sum_bounds(self.nodes@[0].counts@);
                lemma_div_is_ordered(
                    tt as int,
                    (cnt as int) * (SCALE as int),
                    cnt as int,
                );
                lemma_div_is_ordered(
                    -(tt as int),
                    (cnt as int) * (SCALE as int),
                    cnt as int,
                );
                lemma_fundamental_div_mod_converse_div(
                    (cnt as int) * (SCALE as int),
                    cnt as int,
                    SCALE as int,
                    0,
                );
                assert((cnt as int) * (SCALE as int) == (cnt as int) * (SCALE as int) + 0);
            }
            if tt >= 0 {
                tt / (cnt as i64)
            } else {
                -((-tt) / (cnt as i64))
            }
        };
        (val, best)
    }

    /// The root move with the highest prior probability, with that prior;
    /// search statistics are ignored.
    pub fn prior(&self) -> (r: (i64, usize))
        requires
            self.wf(),
        ensures
            r.1 < 362,
            forall|j: int|
                0 <= j < 362 ==> (#[trigger] self.nodes@[0].priors@[j]) <= self.nodes@[0].priors@[
                r.1 as int],
            r.0 == self.nodes@[0].priors@[r.1 as int],
    {
        let root = &self.nodes[0];
        let mut best: usize = 0;
        let mut i: usize = 1;
        while i < 362
            invariant
                self.wf(),
                root == &self.nodes@[0],
                1 <= i <= 362,
                best < i,
                forall|j: int|
                    0 <= j < i ==> (#[trigger] self.nodes@[0].priors@[j]) <= self.nodes@[0].priors@[
                    best as int],
            decreases 362 - i,
        {
            if root.priors[i] > root.priors[best] {
                best = i;
            }
            i += 1;
        }
        (root.priors[best], best)
    }

    /// The distribution over root moves derived from their visit counts,
    /// each entry the move's share of all visits in fixed point; all zero
    /// while nothing was visited.
    pub fn softmax(&self) -> (r: Vec<i64>)
        requires
            self.wf(),
            self.capped(),
        ensures
            r@.len() == 362,
            forall|i: int| 0 <= i < 362 ==> 0 <= #[trigger] r@[i] <= SCALE,
            self.nodes@[0].total_count > 0 ==> forall|i: int|
                0 <= i < 362 ==> (#[trigger] r@[i]) as int == (self.nodes@[0].counts@[i] as int)
                    * (SCALE as int) / (self.nodes@[0].total_count as int),
            self.nodes@[0].total_count == 0 ==> forall|i: int|
                0 <= i < 362 ==> #[trigger] r@[i] == 0,
    {
        proof {
            lemma_count_sum_bounds(self.nodes@[0].counts@);
        }
        let root = &self.nodes[0];
        let total = root.total_count;
        let mut r: Vec<i64> = Vec::new();
        let mut i: usize = 0;
        while i < 362
            invariant
                self.wf(),
                self.capped(),
                root == &self.nodes@[0],
                total == self.nodes@[0].total_count,
                forall|j: int|
                    0 <= j < 362 ==> (#[trigger] self.nodes@[0].counts@[j] as int) <= count_sum(
                        self.nodes@[0].counts@,
                    ),
                i <= 362,
                r@.len() == i,
                forall|j: int| 0 <= j < i ==> 0 <= #[trigger] r@[j] <= SCALE,
                total > 0 ==> forall|j: int|
                    0 <= j < i ==> (#[trigger] r@[j]) as int == (self.nodes@[0].counts@[j] as int)
                        * (SCALE as int) / (total as int),
                total == 0 ==> forall|j: int| 0 <= j < i ==> #[trigger] r@[j] == 0,
            decreases 362 - i,
        {
            if total == 0 {
                r.push(0);
            } else {
                let c = root.counts[i];
                proof {
                    assert(0 <= (c as int) * (SCALE as int) && (c as int) * (SCALE as int) <= (
                    total as int) * (SCALE as int) && (total as int) * (SCALE as int)
                        <= 1_000_000_000_000 * 1_000_000) by (nonlinear_arith)
                        requires
                            0 <= c as int <= total as int,
                            total < 1_000_000_000_000u64,
                    ;
                    lemma_div_is_ordered(
                        (c as int) * (SCALE as int),
                        (total as int) * (SCALE as int),
                        total as int,
                    );
                    lemma_fundamental_div_mod_converse_div(
                        (total as int) * (SCALE as int),
                        total as int,
                        SCALE as int,
                        0,
                    );
                }
                r.push(((c as i64) * SCALE) / (total as i64));
            }
            i += 1;
        }
        r
    }
}

/// Exec mean of an accumulated value over a visit count, rounding toward
/// zero as the driver's arithmetic does.
pub open spec fn mean_spec(total: int, count: int) -> int {
    if count <= 0 {
        0
    } else if total >= 0 {
        total / count
    } else {
        -((-total) / count)
    }
}

/// A recorded path: node indices strictly increase (so every node appears
/// once) and every move index is a point or pass.
pub open spec fn trace_wf(t: SearchTree, tr: Seq<Step>) -> bool {
    &&& forall|m: int|
        0 <= m < tr.len() ==> (#[trigger] tr[m]).0 < t.nodes@.len() && tr[m].2 < 362
    &&& forall|m1: int, m2: int|
        0 <= m1 < m2 < tr.len() ==> (#[trigger] tr[m1]).0 < (#[trigger] tr[m2]).0
}

/// Whether some step of `tr` passes through node `k`.
pub open spec fn node_in_trace(tr: Seq<Step>, k: int) -> bool {
    exists|m: int| 0 <= m < tr.len() && (#[trigger] tr[m]).0 == k
}

/// Two nodes with the same statistics.
pub open spec fn stats_eq(a: Node, b: Node) -> bool {
    &&& a.counts@ == b.counts@
    &&& a.totals@ == b.totals@
    &&& a.vloss@ == b.vloss@
    &&& a.total_count == b.total_count
}

/// What one insert step does to the statistics of one node of the path:
/// one more visit on the chosen edge and in total, the evaluation
/// accumulated there from the perspective of the node's player to move
/// (`same_side` holds when that player is the one the evaluation speaks
/// for; otherwise the value is negated), one pending virtual loss taken
/// back, and every other edge untouched.
pub open spec fn stats_bumped(pre: Node, post: Node, mv: int, same_side: bool, value: i64) -> bool {
    &&& post.total_count as int == pre.total_count + 1
    &&& post.counts@[mv] as int == pre.counts@[mv] as int + 1
    &&& post.totals@[mv] as int == pre.totals@[mv] as int + (if same_side {
        value as int
    } else {
        -(value as int)
    })
    &&& post.vloss@[mv] as int == (if pre.vloss@[mv] > 0 {
        pre.vloss@[mv] as int - 1
    } else {
        0
    })
    &&& forall|i: int| 0 <= i < 362 && i != mv ==> (#[trigger] post.counts@[i]) == pre.counts@[i]
    &&& forall|i: int| 0 <= i < 362 && i != mv ==> (#[trigger] post.totals@[i]) == pre.totals@[i]
    &&& forall|i: int| 0 <= i < 362 && i != mv ==> (#[trigger] post.vloss@[i]) == pre.vloss@[i]
}

/// The pluggable selection strategy: a score for one candidate move from
/// its prior, its accumulated value and visits, its pending virtual losses,
/// and the parent's total visits. The probe descends along the highest
/// score among the moves still in play.
pub trait Value {
    fn score(&self, prior: i64, total: i64, count: u64, vl: u64, parent: u64) -> (r: i64)
        requires
            0 <= prior <= SCALE,
            count <= STAT_CAP,
            vl <= STAT_CAP,
            parent <= STAT_CAP,
            -((count as int) * (SCALE as int)) <= total as int <= (count as int) * (SCALE as int),
    ;
}

/// Integer square root by binary search.
pub fn isqrt(n: u64) -> (r: u64)
    requires
        n <= 4_000_000_000_000u64,
    ensures
        (r as int) * (r as int) <= n as int,
        (n as int) < (r as int + 1) * (r as int + 1),
        r <= 2_000_000,
{
    let mut lo: u64 = 0;
    let mut hi: u64 = 2_000_001;
    assert((hi as int) * (hi as int) > n as int) by (nonlinear_arith)
        requires
            hi == 2_000_001u64,
            n <= 4_000_000_000_000u64,
    ;
    while lo + 1 < hi
        invariant
            (lo as int) * (lo as int) <= n as int,
            (n as int) < (hi as int) * (hi as int),
            lo < hi <= 2_000_001,
        decreases hi - lo,
    {
        let mid = lo + (hi - lo) / 2;
        proof {
            assert((mid as int) * (mid as int) <= 2_000_001 * 2_000_001) by (nonlinear_arith)
                requires
                    0 <= mid as int <= 2_000_001,
            ;
        }
        if mid * mid <= n {
            lo = mid;
        } else {
            hi = mid;
        }
    }
    lo
}

/// Whether `r` is the integer square root of `n`.
pub open spec fn is_isqrt(r: int, n: int) -> bool {
    0 <= r && r * r <= n < (r + 1) * (r + 1)
}

/// The PUCT score, given the integer square root `s` of the parent's
/// visits: the mean accumulated value with every pending virtual loss
/// counted as a sure loss, plus the exploration bonus
/// `c * prior / SCALE * (s + 1) / (1 + visits)`, the exploration constant
/// clamped into `[0, 10]`.
pub open spec fn puct_formula(c0: i64, prior: i64, total: i64, count: u64, vl: u64, s: int) -> int {
    let visits = count as int + vl as int;
    let q = mean_spec(total as int - (vl as int) * (SCALE as int), visits);
    let c = if c0 < 0 {
        0int
    } else if c0 as int > 10 * (SCALE as int) {
        10 * (SCALE as int)
    } else {
        c0 as int
    };
    let bonus = ((c * (prior as int) / (SCALE as int)) * (s + 1)) / (1 + visits);
    q + bonus
}

/// The standard PUCT selection rule in fixed point: the mean accumulated
/// value (with every pending virtual loss counted as a sure loss) plus an
/// exploration bonus `c * prior * (isqrt(parent) + 1) / (1 + visits)`. The
/// `+ 1` beside the square root lets priors steer the very first descent
/// from a fresh node.
pub struct Puct {
    pub exploration: i64,
}

impl Value for Puct {
    fn score(&self, prior: i64, total: i64, count: u64, vl: u64, parent: u64) -> (r: i64)
        ensures
            exists|s: int|
                #[trigger] is_isqrt(s, parent as int) && r as int == puct_formula(
                    self.exploration,
                    prior,
                    total,
                    count,
                    vl,
                    s,
                ),
    {
        let visits = count + vl;
        let q: i64 = if visits > 0 {
            proof {
                assert((vl as int) * (SCALE as int) <= 1_000_000_000_000 * 1_000_000)
                    by (nonlinear_arith)
                    requires
                        vl <= 1_000_000_000_000u64,
                ;
                assert(0 <= (vl as int) * (SCALE as int)) by (nonlinear_arith)
                    requires
                        0 <= vl as int,
                ;
                assert((count as int) * (SCALE as int) <= 1_000_000_000_000 * 1_000_000)
                    by (nonlinear_arith)
                    requires
                        count <= 1_000_000_000_000u64,
                ;
                assert(0 <= (count as int) * (SCALE as int)) by (nonlinear_arith)
                    requires
                        0 <= count as int,
                ;
            }
            let num = total - (vl as i64) * SCALE;
            let den = visits as i64;
            if num >= 0 {
                let q0 = num / den;
                proof {
                    lemma_div_is_ordered_by_denominator(num as int, 1, den as int);
                }
                q0
            } else {
                let neg = -num;
                let q0 = neg / den;
                proof {
                    lemma_div_is_ordered_by_denominator(neg as int, 1, den as int);
                }
                -q0
            }
        } else {
            0
        };
        let c = if self.exploration < 0 {
            0
        } else if self.exploration > 10 * SCALE {
            10 * SCALE
        } else {
            self.exploration
        };
        proof {
            assert(0 <= (c as int) * (prior as int) <= 10_000_000 * 1_000_000) by (nonlinear_arith)
                requires
                    0 <= c as int <= 10_000_000,
                    0 <= prior as int <= 1_000_000,
            ;
        }
        let cp = (c * prior) / SCALE;
        proof {
            lemma_div_is_ordered(
                (c as int) * (prior as int),
                10_000_000int * 1_000_000int,
                SCALE as int,
            );
            lemma_fundamental_div_mod((c as int) * (prior as int), SCALE as int);
        }
        let root = isqrt(parent);
        let sq = root + 1;
        proof {
            assert(0 <= (cp as int) * (sq as int) <= 10_000_000 * 2_000_001) by (nonlinear_arith)
                requires
                    0 <= cp as int <= 10_000_000,
                    0 <= sq as int <= 2_000_001,
            ;
        }
        let bonus = (cp * (sq as i64)) / (1 + visits as i64);
        proof {
            lemma_div_is_ordered_by_denominator(
                (cp as int) * (sq as int),
                1,
                1 + visits as int,
            );
        }
        let r = q + bonus;
        proof {
            assert(is_isqrt(root as int, parent as int));
            assert(r as int == puct_formula(self.exploration, prior, total, count, vl, root as int));
        }
        r
    }
}

/// Picks the live move with the highest strategy score, or nothing when no
/// move is in play at this node.
fn select_move<V: Value>(node: &Node, strategy: &V) -> (r: Option<usize>)
    requires
        node.local_wf(),
        node.total_count < STAT_CAP,
        forall|i: int| 0 <= i < 362 ==> (#[trigger] node.vloss@[i]) < STAT_CAP,
    ensures
        match r {
            Some(mv) => mv < 362 && live(node.priors@[mv as int]),
            None => forall|i: int| 0 <= i < 362 ==> !live(#[trigger] node.priors@[i]),
        },
{
    proof {
        lemma_count_sum_bounds(node.counts@);
    }
    let mut best: Option<usize> = None;
    let mut best_score: i64 = 0;
    let mut i: usize = 0;
    while i < 362
        invariant
            node.local_wf(),
            node.total_count < STAT_CAP,
            forall|k: int| 0 <= k < 362 ==> (#[trigger] node.vloss@[k]) < STAT_CAP,
            forall|k: int| 0 <= k < 362 ==> (#[trigger] node.counts@[k] as int) <= count_sum(
                node.counts@,
            ),
            i <= 362,
            match best {
                Some(mv) => mv < i && live(node.priors@[mv as int]),
                None => forall|k: int| 0 <= k < i ==> !live(#[trigger] node.priors@[k]),
            },
        decreases 362 - i,
    {
        let p = node.priors[i];
        if p >= 0 {
            let s = strategy.score(
                p,
                node.totals[i],
                node.counts[i],
                node.vloss[i],
                node.total_count,
            );
            match best {
                None => {
                    best = Some(i);
                    best_score = s;
                },
                Some(_) => {
                    if s > best_score {
                        best = Some(i);
                        best_score = s;
                    }
                },
            }
        }
        i += 1;
    }
    best
}

/// Probe and insert leave everything but the virtual losses alone; a probe
/// raises a virtual loss by at most one.
pub open spec fn stats_frozen(a: SearchTree, b: SearchTree) -> bool {
    &&& a.nodes@.len() == b.nodes@.len()
    &&& forall|k: int|
        0 <= k < a.nodes@.len() ==> {
            &&& (#[trigger] b.nodes@[k]).to_move == a.nodes@[k].to_move
            &&& b.nodes@[k].priors@ == a.nodes@[k].priors@
            &&& b.nodes@[k].totals@ == a.nodes@[k].totals@
            &&& b.nodes@[k].counts@ == a.nodes@[k].counts@
            &&& b.nodes@[k].children@ == a.nodes@[k].children@
            &&& b.nodes@[k].total_count == a.nodes@[k].total_count
        }
    &&& forall|k: int, i: int|
        0 <= k < a.nodes@.len() && 0 <= i < 362 ==> (a.nodes@[k].vloss@[i] as int) <= (#[trigger] (
        b.nodes@[k].vloss@[i]) as int) <= a.nodes@[k].vloss@[i] as int + 1
}

/// One effect on the shared tree, as probe and insert describe themselves:
/// a probe freezes all statistics (it only lays virtual losses), an insert
/// bumps the statistics of every node of its recorded path exactly once.
pub enum SearchOp {
    Probe,
    Insert(Seq<Step>, Color, i64),
}

/// Whether one operation's effect relates tree `a` to tree `b`; these are
/// exactly the relations that `probe` and `insert` ensure of themselves.
pub open spec fn op_effect(a: SearchTree, b: SearchTree, op: SearchOp) -> bool {
    match op {
        SearchOp::Probe => stats_frozen(a, b),
        SearchOp::Insert(tr, color, value) => {
            &&& a.nodes@.len() <= b.nodes@.len()
            &&& forall|m1: int, m2: int|
                0 <= m1 < m2 < tr.len() ==> (#[trigger] tr[m1]).0 < (#[trigger] tr[m2]).0
            &&& forall|m: int| 0 <= m < tr.len() ==> (#[trigger] tr[m]).0 < a.nodes@.len()
            &&& forall|k: int|
                0 <= k < a.nodes@.len() && !node_in_trace(tr, k) ==> stats_eq(
                    a.nodes@[k],
                    #[trigger] b.nodes@[k],
                )
            &&& forall|m: int|
                0 <= m < tr.len() ==> stats_bumped(
                    a.nodes@[(#[trigger] tr[m]).0 as int],
                    b.nodes@[tr[m].0 as int],
                    tr[m].2 as int,
                    tr[m].1 == color,
                    value,
                )
        },
    }
}

/// A run of the search: consecutive trees related by the operations.
pub open spec fn evolves(trees: Seq<SearchTree>, ops: Seq<SearchOp>) -> bool {
    &&& trees.len() == ops.len() + 1
    &&& forall|j: int| 0 <= j < ops.len() ==> op_effect(trees[j], #[trigger] trees[j + 1], ops[j])
}

/// How many of the inserts of a run passed through node `k`.
pub open spec fn inserts_through(ops: Seq<SearchOp>, k: int) -> int
    decreases ops.len(),
{
    if ops.len() == 0 {
        0
    } else {
        inserts_through(ops.drop_last(), k) + match ops.last() {
            SearchOp::Insert(tr, _, _) => if node_in_trace(tr, k) {
                1int
            } else {
                0
            },
            SearchOp::Probe => 0,
        }
    }
}

/// Law: after any sequence of probe and insert operations on one tree, a
/// node's total visit count has grown by exactly the number of insert
/// calls whose recorded path passed through it — every insert counted
/// once, none lost. (Within `wf`, the total count is in turn the sum of
/// the node's per-move visit counts.)
pub proof fn lemma_visits_count_inserts(trees: Seq<SearchTree>, ops: Seq<SearchOp>, k: int)
    requires
        evolves(trees, ops),
        0 <= k < trees[0].nodes@.len(),
    ensures
        trees.last().nodes@.len() >= trees[0].nodes@.len(),
        trees.last().nodes@[k].total_count as int == trees[0].nodes@[k].total_count
            + inserts_through(ops, k),
    decreases ops.len(),
{
    if ops.len() > 0 {
        let shorter = trees.drop_last();
        let prev = trees[trees.len() - 2];
        assert(evolves(shorter, ops.drop_last())) by {
            assert forall|j: int| 0 <= j < ops.drop_last().len() implies op_effect(
                shorter[j],
                #[trigger] shorter[j + 1],
                ops.drop_last()[j],
            ) by {
                assert(shorter[j] == trees[j] && shorter[j + 1] == trees[j + 1]);
            }
        }
        lemma_visits_count_inserts(shorter, ops.drop_last(), k);
        assert(shorter.last() == prev);
        assert(op_effect(prev, trees.last(), ops.last()));
        match ops.last() {
            SearchOp::Probe => {},
            SearchOp::Insert(tr, color, value) => {
                if node_in_trace(tr, k) {
                    let m = choose|m: int| 0 <= m < tr.len() && (#[trigger] tr[m]).0 == k;
                    assert(stats_bumped(
                        prev.nodes@[k],
                        trees.last().nodes@[k],
                        tr[m].2 as int,
                        tr[m].1 == color,
                        value,
                    ));
                } else {
                    assert(stats_eq(prev.nodes@[k], trees.last().nodes@[k]));
                }
            },
        }
    } else {
        assert(trees.last() == trees[0]);
    }
}

/// The cell at point `i` after the moves of a trace are played on `b` in
/// order (a later move overwrites an earlier one at the same point; a pass
/// writes nothing).
pub open spec fn vertex_after(b: Board, tr: Seq<Step>, i: int) -> u8
    decreases tr.len(),
{
    if tr.len() == 0 {
        b.vertex(i)
    } else if tr.last().2 < 361 && tr.last().2 == i {
        crate::board::color_code(tr.last().1)
    } else {
        vertex_after(b, tr.drop_last(), i)
    }
}

/// Where a probe may stop: at an edge whose child does not exist yet, or
/// before a child with no move left in play.
pub open spec fn probe_end(t: SearchTree, last: Step) -> bool {
    match t.nodes@[last.0 as int].children@[last.2 as int] {
        None => true,
        Some(c) => c < t.nodes@.len() && (forall|i: int|
            0 <= i < 362 ==> !live(#[trigger] t.nodes@[c as int].priors@[i])),
    }
}

/// Descends from the root, at each node laying a virtual loss on the move
/// the strategy picks and playing it on `board` (the final chosen move
/// included, so the board ends at the leaf position to evaluate), until it
/// reaches an edge whose child does not exist yet or a node with no move in
/// play. The trace is empty exactly when already the root has no move in
/// play. Nothing but virtual losses changes, every edge of the returned
/// trace carries at least one pending virtual loss and a live prior, and
/// the board ends as the start with the trace's moves played.
pub fn probe<V: Value>(tree: &mut SearchTree, strategy: &V, board: &mut Board) -> (trace: Vec<Step>)
    requires
        old(tree).wf(),
        old(tree).capped(),
        old(board).wf(),
    ensures
        final(tree).wf(),
        final(board).wf(),
        stats_frozen(*old(tree), *final(tree)),
        trace_wf(*final(tree), trace@),
        forall|m: int|
            0 <= m < trace@.len() ==> (#[trigger] final(tree).nodes@[trace@[m].0 as int].vloss@[
            trace@[m].2 as int]) >= 1,
        forall|m: int|
            0 <= m < trace@.len() ==> (#[trigger] trace@[m]).1 == final(tree).nodes@[trace@[
            m].0 as int].to_move,
        forall|m: int|
            0 <= m < trace@.len() ==> live(#[trigger] final(tree).nodes@[trace@[m].0 as int].priors@[
                trace@[m].2 as int]),
        trace@.len() > 0 ==> trace@[0].0 == 0,
        forall|m: int|
            0 <= m < trace@.len() - 1 ==> final(tree).nodes@[(#[trigger] trace@[m]).0 as int].children@[
                trace@[m].2 as int] == Some(trace@[m + 1].0),
        trace@.len() == 0 ==> forall|i: int|
            0 <= i < 362 ==> !live(#[trigger] final(tree).nodes@[0].priors@[i]),
        trace@.len() > 0 ==> probe_end(*final(tree), trace@[trace@.len() - 1]),
        forall|i: int|
            0 <= i < 361 ==> #[trigger] final(board).vertex(i) == vertex_after(
                *old(board),
                trace@,
                i,
            ),
{
    let ghost pre = *tree;
    let mut cur: usize = 0;
    let mut trace: Vec<Step> = Vec::new();
    loop
        invariant
            pre == *old(tree),
            pre.wf(),
            pre.capped(),
            tree.wf(),
            board.wf(),
            stats_frozen(pre, *tree),
            cur < tree.nodes@.len(),
            forall|k: int| cur <= k < tree.nodes@.len() ==> tree.nodes@[k] == pre.nodes@[k],
            forall|m: int|
                0 <= m < trace@.len() ==> (#[trigger] trace@[m]).0 < tree.nodes@.len() && trace@[
                m].2 < 362,
            forall|m1: int, m2: int|
                0 <= m1 < m2 < trace@.len() ==> (#[trigger] trace@[m1]).0 < (#[trigger] trace@[
                m2]).0,
            forall|m: int| 0 <= m < trace@.len() ==> (#[trigger] trace@[m]).0 < cur,
            forall|m: int|
                0 <= m < trace@.len() ==> (#[trigger] tree.nodes@[trace@[m].0 as int].vloss@[
                trace@[m].2 as int]) >= 1,
            forall|m: int|
                0 <= m < trace@.len() ==> (#[trigger] trace@[m]).1 == tree.nodes@[trace@[
                m].0 as int].to_move,
            forall|m: int|
                0 <= m < trace@.len() ==> live(#[trigger] tree.nodes@[trace@[m].0 as int].priors@[
                    trace@[m].2 as int]),
            trace@.len() == 0 ==> cur == 0,
            trace@.len() > 0 ==> trace@[0].0 == 0,
            forall|m: int|
                0 <= m < trace@.len() - 1 ==> tree.nodes@[(#[trigger] trace@[m]).0 as int].children@[
                    trace@[m].2 as int] == Some(trace@[m + 1].0),
            trace@.len() > 0 ==> tree.nodes@[trace@[trace@.len() - 1].0 as int].children@[trace@[
                trace@.len() - 1].2 as int] == Some(cur),
            forall|i: int|
                0 <= i < 361 ==> #[trigger] board.vertex(i) == vertex_after(
                    *old(board),
                    trace@,
                    i,
                ),
        decreases tree.nodes@.len() - cur,
    {
        let mv_opt = select_move(&tree.nodes[cur], strategy);
        match mv_opt {
            None => {
                proof {
                    if trace@.len() > 0 {
                        let last = trace@[trace@.len() - 1];
                        assert(tree.nodes@[last.0 as int].children@[last.2 as int] == Some(cur));
                    }
                }
                return trace;
            },
            Some(mv) => {
                let color = tree.nodes[cur].to_move;
                let ghost before = *tree;
                let node = &mut tree.nodes[cur];
                let vl = node.vloss[mv];
                node.vloss[mv] = vl + 1;
                proof {
                    assert(tree.nodes@ =~= before.nodes@.update(
                        cur as int,
                        tree.nodes@[cur as int],
                    ));
                    assert(tree.nodes@[cur as int].counts@ == before.nodes@[cur as int].counts@);
                    assert(tree.nodes@[cur as int].local_wf());
                }
                let ghost tr0 = trace@;
                trace.push((cur, color, mv));
                if mv < 361 {
                    let x = mv % 19;
                    let y = mv / 19;
                    board.place(color, x, y);
                }
                proof {
                    assert(trace@.drop_last() =~= tr0);
                    assert(trace@.last() == (cur, color, mv));
                    assert forall|i: int| 0 <= i < 361 implies #[trigger] board.vertex(i)
                        == vertex_after(*old(board), trace@, i) by {}
                }
                let child = tree.nodes[cur].children[mv];
                match child {
                    None => {
                        return trace;
                    },
                    Some(c) => {
                        cur = c;
                    },
                }
            },
        }
    }
}

/// Walks a recorded trace back from the leaf: creates the missing child at
/// the leaf edge with the given policy as its priors, and at every step of
/// the path accumulates the evaluation, negated per ply: `color` is the
/// player the evaluation speaks for (to move at the leaf), so a node whose
/// player to move is `color` adds the value as it is and the others add its
/// negation — each edge's mean is then from the perspective of the player
/// who chooses it. Visit counts rise, and one pending virtual loss is taken
/// back. An empty trace changes nothing. Every node of the path sees its
/// total count rise by exactly one, so the visit accounting of `wf` is
/// preserved.
pub fn insert(
    tree: &mut SearchTree,
    trace: &Vec<Step>,
    color: Color,
    value: i64,
    policy: Vec<i64>,
)
    requires
        old(tree).wf(),
        old(tree).capped(),
        trace_wf(*old(tree), trace@),
        -SCALE <= value <= SCALE,
        policy@.len() == 362,
        forall|i: int| 0 <= i < 362 ==> MASKED <= #[trigger] policy@[i] <= SCALE,
    ensures
        final(tree).wf(),
        trace@.len() == 0 ==> *final(tree) == *old(tree),
        old(tree).nodes@.len() <= final(tree).nodes@.len() <= old(tree).nodes@.len() + 1,
        forall|k: int|
            0 <= k < old(tree).nodes@.len() && !node_in_trace(trace@, k) ==> stats_eq(
                old(tree).nodes@[k],
                #[trigger] final(tree).nodes@[k],
            ),
        forall|m: int|
            0 <= m < trace@.len() ==> stats_bumped(
                old(tree).nodes@[(#[trigger] trace@[m]).0 as int],
                final(tree).nodes@[trace@[m].0 as int],
                trace@[m].2 as int,
                trace@[m].1 == color,
                value,
            ),
        forall|k: int|
            0 <= k < old(tree).nodes@.len() ==> (#[trigger] final(tree).nodes@[k]).to_move == old(
                tree,
            ).nodes@[k].to_move && final(tree).nodes@[k].priors@ == old(tree).nodes@[k].priors@,
        forall|k: int|
            old(tree).nodes@.len() <= k < final(tree).nodes@.len()
                ==> (#[trigger] final(tree).nodes@[k]).total_count == 0,
        forall|k: int, i: int|
            old(tree).nodes@.len() <= k < final(tree).nodes@.len() && 0 <= i < 362
                ==> (#[trigger] final(tree).nodes@[k].vloss@[i]) == 0,
        trace@.len() > 0 && old(tree).nodes@[trace@.last().0 as int].children@[trace@.last().2 as int]
            is Some ==> final(tree).nodes@.len() == old(tree).nodes@.len() && (forall|k: int|
            0 <= k < old(tree).nodes@.len() ==> (#[trigger] final(tree).nodes@[k]).children@ == old(
                tree,
            ).nodes@[k].children@),
        trace@.len() > 0 && old(tree).nodes@[trace@.last().0 as int].children@[trace@.last().2 as int]
            is None ==> {
            &&& final(tree).nodes@.len() == old(tree).nodes@.len() + 1
            &&& final(tree).nodes@[trace@.last().0 as int].children@ == old(tree).nodes@[
                trace@.last().0 as int].children@.update(
                trace@.last().2 as int,
                Some(old(tree).nodes@.len() as usize),
            )
            &&& forall|k: int|
                0 <= k < old(tree).nodes@.len() && k != trace@.last().0 as int
                    ==> (#[trigger] final(tree).nodes@[k]).children@ == old(tree).nodes@[k].children@
            &&& final(tree).nodes@[old(tree).nodes@.len() as int].priors@ == policy@
            &&& final(tree).nodes@[old(tree).nodes@.len() as int].to_move == color
        },
{
    if trace.len() == 0 {
        return ;
    }
    let ghost pre = *tree;
    let last = trace[trace.len() - 1];
    let n_nodes = tree.nodes.len();
    let has_child = tree.nodes[last.0].children[last.2].is_some();
    if !has_child {
        let fresh = Node::new(color, policy);
        tree.nodes.push(fresh);
        let parent = &mut tree.nodes[last.0];
        parent.children[last.2] = Some(n_nodes);
        proof {
            lemma_count_sum_zero(tree.nodes@[n_nodes as int].counts@);
            assert forall|k: int| 0 <= k < tree.nodes@.len() implies (#[trigger] tree.nodes@[
                k]).local_wf() && tree.nodes@[k].children_ok(k, tree.nodes@.len() as int) by {
                if k < n_nodes {
                    assert(pre.nodes@[k].local_wf());
                    assert(pre.nodes@[k].children_ok(k, n_nodes as int));
                    if k == last.0 as int {
                        assert forall|i: int|
                            0 <= i < tree.nodes@[k].children@.len() implies child_ok(
                            #[trigger] tree.nodes@[k].children@[i],
                            k,
                            tree.nodes@.len() as int,
                        ) by {
                            if i != last.2 as int {
                                assert(tree.nodes@[k].children@[i] == pre.nodes@[k].children@[i]);
                                assert(child_ok(pre.nodes@[k].children@[i], k, n_nodes as int));
                            }
                        }
                    } else {
                        assert(tree.nodes@[k] == pre.nodes@[k]);
                        assert forall|i: int|
                            0 <= i < tree.nodes@[k].children@.len() implies child_ok(
                            #[trigger] tree.nodes@[k].children@[i],
                            k,
                            tree.nodes@.len() as int,
                        ) by {
                            assert(child_ok(pre.nodes@[k].children@[i], k, n_nodes as int));
                        }
                    }
                }
            }
        }
    }
    let ghost mid = *tree;
    let mut m: usize = 0;
    while m < trace.len()
        invariant
            mid.wf(),
            tree.nodes@.len() == mid.nodes@.len(),
            trace_wf(pre, trace@),
            pre.capped(),
            pre.nodes@.len() <= mid.nodes@.len() <= pre.nodes@.len() + 1,
            forall|k: int|
                0 <= k < pre.nodes@.len() ==> stats_eq(pre.nodes@[k], #[trigger] mid.nodes@[k])
                    && mid.nodes@[k].to_move == pre.nodes@[k].to_move && mid.nodes@[k].priors@
                    == pre.nodes@[k].priors@,
            -SCALE <= value <= SCALE,
            m <= trace@.len(),
            forall|k: int|
                0 <= k < tree.nodes@.len() ==> (#[trigger] tree.nodes@[k]).local_wf()
                    && tree.nodes@[k].children_ok(k, tree.nodes@.len() as int),
            forall|k: int|
                0 <= k < tree.nodes@.len() ==> (#[trigger] tree.nodes@[k]).to_move == mid.nodes@[
                    k].to_move && tree.nodes@[k].priors@ == mid.nodes@[k].priors@
                    && tree.nodes@[k].children@ == mid.nodes@[k].children@,
            forall|k: int|
                0 <= k < tree.nodes@.len() && !node_in_trace(trace@.take(m as int), k)
                    ==> stats_eq(mid.nodes@[k], #[trigger] tree.nodes@[k]),
            forall|j: int|
                0 <= j < m ==> stats_bumped(
                    mid.nodes@[(#[trigger] trace@[j]).0 as int],
                    tree.nodes@[trace@[j].0 as int],
                    trace@[j].2 as int,
                    trace@[j].1 == color,
                    value,
                ),
        decreases trace@.len() - m,
    {
        let step = trace[m];
        let n = step.0;
        let mv = step.2;
        proof {
            assert(trace@[m as int].0 < pre.nodes@.len());
            assert(!node_in_trace(trace@.take(m as int), n as int));
            lemma_count_sum_bounds(tree.nodes@[n as int].counts@);
        }
        let ghost before = *tree;
        let node = &mut tree.nodes[n];
        let cnt = node.counts[mv];
        node.counts[mv] = cnt + 1;
        node.total_count = node.total_count + 1;
        let tt = node.totals[mv];
        node.totals[mv] = if step.1 == color {
            tt + value
        } else {
            tt - value
        };
        let vl = node.vloss[mv];
        if vl > 0 {
            node.vloss[mv] = vl - 1;
        }
        proof {
            lemma_count_sum_update(
                before.nodes@[n as int].counts@,
                mv as int,
                (cnt + 1) as u64,
            );
            assert(tree.nodes@[n as int].counts@ =~= before.nodes@[n as int].counts@.update(
                mv as int,
                (cnt + 1) as u64,
            ));
            assert(tree.nodes@[n as int].local_wf());
            assert(trace@.take(m as int + 1) =~= trace@.take(m as int).push(trace@[m as int]));
            assert forall|k: int|
                0 <= k < tree.nodes@.len() && !node_in_trace(trace@.take(m as int + 1), k) implies
                stats_eq(mid.nodes@[k], #[trigger] tree.nodes@[k]) by {
                assert(!node_in_trace(trace@.take(m as int), k));
                assert(trace@.take(m as int + 1)[m as int] == trace@[m as int]);
                assert(k != n as int);
            }
        }
        m += 1;
    }
    proof {
        assert(trace@.take(trace@.len() as int) =~= trace@);
    }
}

} // verus!
