//! The evaluator abstraction: a batched neural evaluation consumed as a
//! capability, and the single-item view of it that the search workers use.
//!
//! The engine never looks inside an evaluation; it only relies on the shape
//! of the answer: one value in `[-SCALE, SCALE]` and one 362-entry policy of
//! non-negative mass per feature tensor. Everything else the pipeline in
//! `forward` establishes for every possible answer.

use vstd::prelude::*;
use crate::SCALE;

verus! {

/// A batched evaluator: one value and one policy per feature tensor, in
/// positional correspondence.
pub trait Evaluator {
    fn evaluate(&mut self, batch: &Vec<Vec<i64>>) -> (r: (Vec<i64>, Vec<Vec<i64>>))
        ensures
            r.0@.len() == batch@.len(),
            r.1@.len() == batch@.len(),
            forall|k: int| 0 <= k < batch@.len() ==> (#[trigger] r.1@[k])@.len() == 362,
            forall|k: int| 0 <= k < batch@.len() ==> -SCALE <= #[trigger] r.0@[k] <= SCALE,
            forall|k: int, j: int|
                0 <= k < batch@.len() && 0 <= j < 362 ==> 0 <= (#[trigger] r.1@[k]@[j]) <= SCALE,
    ;
}

/// A single forward pass of the evaluator, as one worker sees it: the
/// remote, batched endpoint and the immediate in-process one answer alike.
pub trait Forwarder {
    fn forward(&mut self, features: Vec<i64>) -> (r: (i64, Vec<i64>))
        ensures
            -SCALE <= r.0 <= SCALE,
            r.1@.len() == 362,
            forall|j: int| 0 <= j < 362 ==> 0 <= #[trigger] r.1@[j] <= SCALE,
    ;
}

/// Every batched evaluator forwards a single tensor as a batch of one.
impl<E: Evaluator> Forwarder for E {
    fn forward(&mut self, features: Vec<i64>) -> (r: (i64, Vec<i64>)) {
        let mut batch: Vec<Vec<i64>> = Vec::new();
        batch.push(features);
        let (values, mut policies) = self.evaluate(&batch);
        let policy = policies.swap_remove(0);
        (values[0], policy)
    }
}

/// A scripted evaluator: always the same value, and a policy that puts all
/// its mass on one index. It records the size of every batch it was handed,
/// so a test can watch the batching protocol at work.
pub struct ScriptedEvaluator {
    pub value: i64,
    pub hot_index: usize,
    pub batch_sizes: Vec<usize>,
}

impl ScriptedEvaluator {
    pub fn new(value: i64, hot_index: usize) -> (r: ScriptedEvaluator)
        requires
            -SCALE <= value <= SCALE,
            hot_index < 362,
        ensures
            r.value == value,
            r.hot_index == hot_index,
            r.batch_sizes@.len() == 0,
    {
        ScriptedEvaluator { value, hot_index, batch_sizes: Vec::new() }
    }
}

impl Evaluator for ScriptedEvaluator {
    fn evaluate(&mut self, batch: &Vec<Vec<i64>>) -> (r: (Vec<i64>, Vec<Vec<i64>>)) {
        self.batch_sizes.push(batch.len());
        let value = if self.value > SCALE {
            SCALE
        } else if self.value < -SCALE {
            -SCALE
        } else {
            self.value
        };
        let hot = if self.hot_index < 362 {
            self.hot_index
        } else {
            361
        };
        let mut values: Vec<i64> = Vec::new();
        let mut policies: Vec<Vec<i64>> = Vec::new();
        let n = batch.len();
        let mut k: usize = 0;
        while k < n
            invariant
                k <= n,
                -SCALE <= value <= SCALE,
                hot < 362,
                values@.len() == k,
                policies@.len() == k,
                forall|m: int| 0 <= m < k ==> #[trigger] values@[m] == value,
                forall|m: int| 0 <= m < k ==> (#[trigger] policies@[m])@.len() == 362,
                forall|m: int, j: int|
                    0 <= m < k && 0 <= j < 362 ==> 0 <= (#[trigger] policies@[m]@[j]) <= SCALE,
            decreases n - k,
        {
            let mut policy: Vec<i64> = Vec::new();
            let mut j: usize = 0;
            while j < 362
                invariant
                    j <= 362,
                    hot < 362,
                    policy@.len() == j,
                    forall|m: int| 0 <= m < j ==> 0 <= #[trigger] policy@[m] <= SCALE,
                decreases 362 - j,
            {
                if j == hot {
                    policy.push(SCALE);
                } else {
                    policy.push(0);
                }
                j += 1;
            }
            values.push(value);
            policies.push(policy);
            k += 1;
        }
        (values, policies)
    }
}

/// An evaluator that always answers the same value and a uniform policy.
pub struct UniformEvaluator {
    pub value: i64,
}

impl Evaluator for UniformEvaluator {
    fn evaluate(&mut self, batch: &Vec<Vec<i64>>) -> (r: (Vec<i64>, Vec<Vec<i64>>)) {
        let value = if self.value > SCALE {
            SCALE
        } else if self.value < -SCALE {
            -SCALE
        } else {
            self.value
        };
        let mut values: Vec<i64> = Vec::new();
        let mut policies: Vec<Vec<i64>> = Vec::new();
        let n = batch.len();
        let mut k: usize = 0;
        while k < n
            invariant
                k <= n,
                -SCALE <= value <= SCALE,
                values@.len() == k,
                policies@.len() == k,
                forall|m: int| 0 <= m < k ==> #[trigger] values@[m] == value,
                forall|m: int| 0 <= m < k ==> (#[trigger] policies@[m])@.len() == 362,
                forall|m: int, j: int|
                    0 <= m < k && 0 <= j < 362 ==> 0 <= (#[trigger] policies@[m]@[j]) <= SCALE,
            decreases n - k,
        {
            let mut policy: Vec<i64> = Vec::new();
            let mut j: usize = 0;
            while j < 362
                invariant
                    j <= 362,
                    policy@.len() == j,
                    forall|m: int| 0 <= m < j ==> 0 <= #[trigger] policy@[m] <= SCALE,
                decreases 362 - j,
            {
                policy.push(SCALE / 362);
                j += 1;
            }
            values.push(value);
            policies.push(policy);
            k += 1;
        }
        (values, policies)
    }
}

} // verus!
