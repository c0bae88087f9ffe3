//! The coordinator's merge protocol: fold the per-file worker outcomes, in
//! arrival order, into one global aggregate, stopping at the first failure.
//!
//! Running the workers themselves (threads, channels, file handles) is the
//! surrounding program's job; it hands the collected outcomes to
//! `merge_outcomes`.  Arrival order does not matter for a successful run:
//! merging is commutative and associative (see the aggregate module).

use vstd::prelude::*;

verus! {

use crate::aggregate::Aggregate;
use crate::aggregate::can_merge;
use crate::aggregate::lemma_merge_associative;
use crate::aggregate::lemma_merge_commutative;
use crate::aggregate::merged_map;
use crate::aggregate::spec_merge;
use crate::errors::LogParserError;
use crate::owner_usage::OwnerUsage;
use crate::text::str_to_string;

/// How many worker threads parse files at the same time.  A deliberately
/// small fixed cap: log directories can hold hundreds of files, and the
/// remaining files wait in a queue rather than each getting a thread.
pub const NUMBER_OF_WORKERS: usize = 5;

/// What folding the worker outcomes yields.
pub enum MergeOutcome {
    /// Every outcome was successful and merged; the complete aggregate.
    Done(Map<u32, OwnerUsage>),
    /// Some worker reported this error; it is surfaced unchanged.
    Failed(LogParserError),
    /// Merging two successful per-file aggregates overflowed a counter.
    MergeOverflow,
}

/// The fold of the worker outcomes, in arrival order: merge each successful
/// per-file aggregate into the whole, latch the first failure.
pub open spec fn merge_outcomes_spec(outs: Seq<Result<Aggregate, LogParserError>>) -> MergeOutcome
    decreases outs.len(),
{
    if outs.len() == 0 {
        MergeOutcome::Done(Map::empty())
    } else {
        match merge_outcomes_spec(outs.drop_last()) {
            MergeOutcome::Done(m) => match outs.last() {
                Ok(a) => if can_merge(m, a.as_map()) {
                    MergeOutcome::Done(merged_map(m, a.as_map()))
                } else {
                    MergeOutcome::MergeOverflow
                },
                Err(e) => MergeOutcome::Failed(e),
            },
            other => other,
        }
    }
}

/// Once a prefix of the outcomes has failed, the rest changes nothing.
proof fn lemma_merge_outcomes_prefix_stuck(outs: Seq<Result<Aggregate, LogParserError>>, i: int)
    requires
        0 <= i <= outs.len(),
        !(merge_outcomes_spec(outs.take(i)) is Done),
    ensures
        merge_outcomes_spec(outs) == merge_outcomes_spec(outs.take(i)),
    decreases outs.len() - i,
{
    if i < outs.len() {
        assert(outs.take(i + 1).drop_last() =~= outs.take(i));
        lemma_merge_outcomes_prefix_stuck(outs, i + 1);
    } else {
        assert(outs.take(i) =~= outs);
    }
}

/// Two merges in a row, stuck as soon as one fails.
spec fn merge_two(m: Map<u32, OwnerUsage>, a: Map<u32, OwnerUsage>, b: Map<u32, OwnerUsage>) -> Option<
    Map<u32, OwnerUsage>,
> {
    match spec_merge(m, a) {
        Some(x) => spec_merge(x, b),
        None => None,
    }
}

/// One more outcome at the end of the list folds in one more step.
proof fn lemma_merge_outcomes_push(
    s: Seq<Result<Aggregate, LogParserError>>,
    o: Result<Aggregate, LogParserError>,
)
    ensures
        merge_outcomes_spec(s.push(o)) == (match merge_outcomes_spec(s) {
            MergeOutcome::Done(m) => match o {
                Ok(a) => if can_merge(m, a.as_map()) {
                    MergeOutcome::Done(merged_map(m, a.as_map()))
                } else {
                    MergeOutcome::MergeOverflow
                },
                Err(e) => MergeOutcome::Failed(e),
            },
            other => other,
        }),
{
    assert(s.push(o).drop_last() =~= s);
    assert(s.push(o).last() == o);
}

/// Law: two successful outcomes that stand next to each other may change
/// places without changing what the fold of the whole outcome list yields,
/// neither the merged aggregate nor whether some step overflows.  Outcome
/// arrival order therefore never affects a successful run's result.
pub proof fn lemma_merge_outcomes_swap_adjacent(
    outs: Seq<Result<Aggregate, LogParserError>>,
    i: int,
)
    requires
        0 <= i,
        i + 1 < outs.len(),
        outs[i] is Ok,
        outs[i + 1] is Ok,
    ensures
        merge_outcomes_spec(outs.update(i, outs[i + 1]).update(i + 1, outs[i]))
            == merge_outcomes_spec(outs),
    decreases outs.len(),
{
    let swapped = outs.update(i, outs[i + 1]).update(i + 1, outs[i]);
    if i + 1 == outs.len() - 1 {
        let base = outs.drop_last().drop_last();
        let a = outs[i]->Ok_0.as_map();
        let b = outs[i + 1]->Ok_0.as_map();
        assert(outs =~= base.push(outs[i]).push(outs[i + 1]));
        assert(swapped =~= base.push(outs[i + 1]).push(outs[i]));
        lemma_merge_outcomes_push(base, outs[i]);
        lemma_merge_outcomes_push(base.push(outs[i]), outs[i + 1]);
        lemma_merge_outcomes_push(base, outs[i + 1]);
        lemma_merge_outcomes_push(base.push(outs[i + 1]), outs[i]);
        match merge_outcomes_spec(base) {
            MergeOutcome::Done(m) => {
                lemma_merge_associative(m, a, b);
                lemma_merge_commutative(a, b);
                lemma_merge_associative(m, b, a);
                assert(merge_two(m, a, b) == merge_two(m, b, a));
                assert(merge_outcomes_spec(outs) == (match merge_two(m, a, b) {
                    Some(mm) => MergeOutcome::Done(mm),
                    None => MergeOutcome::MergeOverflow,
                }));
                assert(merge_outcomes_spec(swapped) == (match merge_two(m, b, a) {
                    Some(mm) => MergeOutcome::Done(mm),
                    None => MergeOutcome::MergeOverflow,
                }));
            }
            _ => {}
        }
    } else {
        lemma_merge_outcomes_swap_adjacent(outs.drop_last(), i);
        assert(swapped.drop_last() =~= outs.drop_last().update(i, outs[i + 1]).update(
            i + 1,
            outs[i],
        ));
        assert(swapped.last() == outs.last());
    }
}

/// Merge the collected worker outcomes into the final aggregate.  The first
/// error in the list is returned as it stands; an overflow while merging
/// two per-file aggregates is an overflow failure; with no failure the
/// result is the complete merge of every per-file aggregate, and an empty
/// outcome list yields the empty aggregate.
pub fn merge_outcomes(outcomes: &Vec<Result<Aggregate, LogParserError>>) -> (r: Result<
    Aggregate,
    LogParserError,
>)
    requires
        forall|k: int|
            0 <= k < outcomes@.len() ==> ((#[trigger] outcomes@[k]) matches Ok(a) ==> a.wf()),
    ensures
        match merge_outcomes_spec(outcomes@) {
            MergeOutcome::Done(m) => r matches Ok(agg) && agg.wf() && agg.as_map() == m,
            MergeOutcome::Failed(e) => r == Err::<Aggregate, LogParserError>(e),
            MergeOutcome::MergeOverflow => r matches Err(e) && e matches LogParserError::Overflow(
                msg,
            ) && msg@ == "Possible overflow occured when merging per-file aggregates!"@,
        },
{
    let mut agg = Aggregate::new();
    let n = outcomes.len();
    let mut i: usize = 0;
    proof {
        assert(outcomes@.take(0) =~= Seq::<Result<Aggregate, LogParserError>>::empty());
    }
    while i < n
        invariant
            0 <= i <= n,
            n == outcomes@.len(),
            forall|k: int|
                0 <= k < outcomes@.len() ==> ((#[trigger] outcomes@[k]) matches Ok(a) ==> a.wf()),
            agg.wf(),
            merge_outcomes_spec(outcomes@.take(i as int)) == MergeOutcome::Done(agg.as_map()),
        decreases n - i,
    {
        proof {
            assert(outcomes@.take(i + 1).drop_last() =~= outcomes@.take(i as int));
            assert(outcomes@.take(i + 1).last() == outcomes@[i as int]);
        }
        match &outcomes[i] {
            Ok(a) => {
                match agg.merged(a) {
                    Some(m) => {
                        agg = m;
                    }
                    None => {
                        proof {
                            lemma_merge_outcomes_prefix_stuck(outcomes@, i + 1);
                        }
                        return Err(
                            LogParserError::Overflow(
                                str_to_string(
                                    "Possible overflow occured when merging per-file aggregates!",
                                ),
                            ),
                        );
                    }
                }
            }
            Err(e) => {
                proof {
                    lemma_merge_outcomes_prefix_stuck(outcomes@, i + 1);
                }
                return Err(e.duplicate());
            }
        }
        i += 1;
    }
    proof {
        assert(outcomes@.take(n as int) =~= outcomes@);
    }
    Ok(agg)
}

} // verus!
