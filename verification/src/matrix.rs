//! Which instances a job's strategy expands into: the entries of an inline
//! matrix, or numbered parallel copies.

use vstd::prelude::*;
use crate::models::{MatrixStrategy, Strategy};
use crate::text::{decimal, u64_to_decimal};

verus! {

broadcast use vstd::string::group_string_axioms;

/// How a job's strategy expands into instances.
#[derive(Debug, Clone, Copy, PartialEq, Eq, Structural)]
pub enum MatrixPlan {
    /// One instance per entry of the inline matrix.
    Inline,
    /// `n` numbered copies of the job.
    Parallel(u32),
    /// The job runs once, as it is.
    Single,
}

/// Matrix expander for job strategies.
pub struct MatrixExpander;

/// A numbered parallel copy of a job: its name, its 1-based position among
/// the copies (`System.JobPositionInPhase`) and the number of copies
/// (`System.TotalJobsInPhase`).
#[derive(Debug, Clone)]
pub struct ParallelInstance {
    pub name: String,
    pub position: u32,
    pub total: u32,
}

/// The instances an inline matrix gives: one per entry; an expression
/// matrix gives none until it is evaluated.
pub open spec fn matrix_instance_count(strategy: Strategy) -> nat {
    match strategy.matrix {
        Some(MatrixStrategy::Inline(m)) => m@.dom().len(),
        _ => 0,
    }
}

impl MatrixExpander {
    /// How a strategy expands: an inline matrix with entries gives its
    /// entries; otherwise a parallel count gives that many copies; otherwise
    /// the job runs once.
    pub fn plan(strategy: &Strategy) -> (p: MatrixPlan)
        ensures
            p == if matrix_instance_count(*strategy) > 0 {
                MatrixPlan::Inline
            } else {
                match strategy.parallel {
                    Some(n) => MatrixPlan::Parallel(n),
                    None => MatrixPlan::Single,
                }
            },
    {
        let inline_entries = match &strategy.matrix {
            Some(MatrixStrategy::Inline(m)) => !m.is_empty(),
            _ => false,
        };
        if inline_entries {
            MatrixPlan::Inline
        } else {
            match strategy.parallel {
                Some(n) => MatrixPlan::Parallel(n),
                None => MatrixPlan::Single,
            }
        }
    }

    /// The name of the parallel copy at (0-based) position `i`: "Job N"
    /// with N counted from 1.
    pub fn parallel_instance_name(i: u32) -> (r: String)
        ensures
            r@ == "Job "@ + decimal(i as nat + 1),
    {
        let mut r = String::from_str("Job ");
        let n = u64_to_decimal(i as u64 + 1);
        r.append(n.as_str());
        r
    }

    /// The `count` parallel copies of a job, in order: copy `i` (from 0) is
    /// named "Job i+1", stands at position i+1, and knows the total `count`.
    pub fn parallel_instances(count: u32) -> (r: Vec<ParallelInstance>)
        ensures
            r@.len() == count,
            forall|i: int|
                0 <= i < count ==> (#[trigger] r@[i]).name@ == "Job "@ + decimal(i as nat + 1) && r@[i].position
                    == i + 1 && r@[i].total == count,
    {
        let mut r: Vec<ParallelInstance> = Vec::new();
        let mut i: u32 = 0;
        while i < count
            invariant
                i <= count,
                r@.len() == i,
                forall|k: int|
                    0 <= k < i ==> (#[trigger] r@[k]).name@ == "Job "@ + decimal(k as nat + 1) && r@[k].position
                        == k + 1 && r@[k].total == count,
            decreases count - i,
        {
            let name = Self::parallel_instance_name(i);
            r.push(ParallelInstance { name, position: i + 1, total: count });
            i = i + 1;
        }
        r
    }

    /// Get the maximum parallel limit from a strategy.
    pub fn max_parallel(strategy: &Strategy) -> (r: Option<u32>)
        ensures
            r == strategy.max_parallel,
    {
        strategy.max_parallel
    }

    /// Check if a strategy has matrix expansion.
    pub fn has_matrix(strategy: &Strategy) -> (b: bool)
        ensures
            b == strategy.matrix is Some,
    {
        strategy.matrix.is_some()
    }

    /// Check if a strategy has parallel expansion.
    pub fn has_parallel(strategy: &Strategy) -> (b: bool)
        ensures
            b == strategy.parallel is Some,
    {
        strategy.parallel.is_some()
    }
}

} // verus!
