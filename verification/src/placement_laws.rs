//! Which buckets change hands when an experiment's buckets are reconciled.
use vstd::prelude::*;

use crate::allocation;
use crate::allocation::{FillView, TargetView};
use crate::allocation_laws;
use crate::error::GroupError;
use crate::model::{BucketView, ExperimentType, Variant};
use crate::slots;
use crate::slots::Slots;
use crate::target_laws;
use crate::text;

verus! {

/// Buckets are counted one by one: a row has as many buckets of a variant as its
/// two parts have together, and a single bucket counts exactly where it holds that
/// variant of that experiment.
pub proof fn buckets_are_counted_one_by_one(
    first: Slots,
    second: Slots,
    slot: Option<BucketView>,
    experiment: Seq<char>,
    variant: Seq<char>,
)
    ensures
        allocation::held(first + second, experiment, variant) == allocation::held(
            first,
            experiment,
            variant,
        ) + allocation::held(second, experiment, variant),
        allocation::held(seq![slot], experiment, variant) == if slot is Some
            && slot->0.experiment_id == experiment && slot->0.variant_id == variant {
            1nat
        } else {
            0
        },
        allocation::held(Seq::empty(), experiment, variant) == 0,
    decreases second.len(),
{
    let one: Slots = seq![slot];
    assert(one.drop_last() =~= Seq::<Option<BucketView>>::empty());
    assert(one.last() == slot);
    assert(slots::count(one.drop_last(), slots::held_by(experiment, variant)) == 0);
    if second.len() == 0 {
        assert(first + second =~= first);
    } else {
        let shorter = second.drop_last();
        buckets_are_counted_one_by_one(first, shorter, slot, experiment, variant);
        assert((first + second).drop_last() =~= first + shorter);
        assert((first + second).last() == second.last());
    }
}

/// A bucket of a variant is given up exactly where fewer of the variant's buckets
/// stand before it than the variant exceeds its target by.
proof fn lemma_freed_at(
    base: Slots,
    experiment: Seq<char>,
    targets: Seq<TargetView>,
    k: int,
    i: int,
)
    requires
        allocation_laws::distinct_targets(targets),
        0 <= k < targets.len(),
        0 <= i < base.len(),
        slots::held_by(experiment, targets[k].variant_id)(base[i]),
    ensures
        allocation::excess_freed(base, base, experiment, targets).len() == base.len(),
        allocation::excess_freed(base, base, experiment, targets)[i] == if slots::count(
            base.take(i),
            slots::held_by(experiment, targets[k].variant_id),
        ) < slots::excess(
            allocation::held(base, experiment, targets[k].variant_id),
            targets[k].buckets,
        ) {
            None
        } else {
            base[i]
        },
    decreases targets.len(),
{
    let shorter = targets.drop_last();
    let last = targets.len() - 1;
    let before = allocation::excess_freed(base, base, experiment, shorter);
    allocation_laws::lemma_distinct_shorter(targets);
    allocation_laws::lemma_excess_freed_frame(base, base, experiment, shorter);
    if k < last {
        assert(shorter[k] == targets[k]);
        lemma_freed_at(base, experiment, shorter, k, i);
        assert(targets[k].variant_id != targets[last].variant_id);
    } else {
        let kind = slots::held_by(experiment, targets[k].variant_id);
        assert forall|p: int| 0 <= p < base.len() implies kind(#[trigger] before[p]) == kind(
            base[p],
        ) by {
            if before[p] != base[p] {
                let j = choose|j: int|
                    0 <= j < shorter.len() && (#[trigger] shorter[j]).variant_id
                        == base[p]->0.variant_id && shorter[j].buckets < allocation::held(
                        base,
                        experiment,
                        shorter[j].variant_id,
                    );
                assert(targets[j] == shorter[j]);
                assert(targets[j].variant_id != targets[last].variant_id);
            }
        }
        assert forall|p: int| 0 <= p < i implies kind(#[trigger] before.take(i)[p]) == kind(
            base.take(i)[p],
        ) by {
            assert(before.take(i)[p] == before[p]);
        }
        slots::lemma_count_match(before.take(i), kind, base.take(i), kind);
        assert(kind(before[i]));
    }
}

/// Where filling changes buckets: only vacant ones, the first ones first, for
/// variants below their target, one variant after another.
proof fn lemma_filled(
    row: Slots,
    base: Slots,
    experiment: Seq<char>,
    targets: Seq<TargetView>,
)
    requires
        allocation_laws::distinct_targets(targets),
    ensures
        ({
            let filled = allocation::shortfall_filled(row, base, experiment, targets).slots;
            &&& filled.len() == row.len()
            &&& forall|i: int|
                0 <= i < row.len() && #[trigger] filled[i] != row[i] ==> {
                    &&& row[i] is None
                    &&& filled[i] is Some
                    &&& filled[i]->0.experiment_id == experiment
                    &&& exists|b: int|
                        0 <= b < targets.len() && (#[trigger] targets[b]).variant_id
                            == filled[i]->0.variant_id && targets[b].buckets > allocation::held(
                            base,
                            experiment,
                            targets[b].variant_id,
                        )
                }
            &&& forall|i: int, j: int|
                0 <= i < j < row.len() && #[trigger] filled[i] is None
                    ==> #[trigger] filled[j] == row[j]
            &&& forall|i: int, j: int, a: int, b: int|
                #![trigger filled[i], filled[j], targets[a], targets[b]]
                0 <= i < j < row.len() && filled[i] != row[i] && filled[j] != row[j] && 0 <= a
                    < targets.len() && 0 <= b < targets.len() && targets[a].variant_id
                    == filled[i]->0.variant_id && targets[b].variant_id
                    == filled[j]->0.variant_id ==> a <= b
        }),
    decreases targets.len(),
{
    if targets.len() > 0 {
        let shorter = targets.drop_last();
        let last = targets.len() - 1;
        let target = targets[last];
        allocation_laws::lemma_distinct_shorter(targets);
        lemma_filled(row, base, experiment, shorter);
        let outcome = allocation::shortfall_filled(row, base, experiment, shorter);
        let before = outcome.slots;
        let filled = allocation::shortfall_filled(row, base, experiment, targets).slots;
        let n = slots::excess(
            target.buckets,
            allocation::held(base, experiment, target.variant_id),
        );
        assert forall|i: int| 0 <= i < row.len() && #[trigger] filled[i] != row[i] implies {
            &&& row[i] is None
            &&& filled[i] is Some
            &&& filled[i]->0.experiment_id == experiment
            &&& exists|b: int|
                0 <= b < targets.len() && (#[trigger] targets[b]).variant_id
                    == filled[i]->0.variant_id && targets[b].buckets > allocation::held(
                    base,
                    experiment,
                    targets[b].variant_id,
                )
        } by {
            if before[i] != row[i] {
                assert(filled[i] == before[i]);
                let b = choose|b: int|
                    0 <= b < shorter.len() && (#[trigger] shorter[b]).variant_id
                        == before[i]->0.variant_id && shorter[b].buckets > allocation::held(
                        base,
                        experiment,
                        shorter[b].variant_id,
                    );
                assert(targets[b] == shorter[b]);
            } else {
                assert(targets[last].variant_id == filled[i]->0.variant_id);
            }
        }
        assert forall|i: int, j: int|
            0 <= i < j < row.len() && #[trigger] filled[i] is None implies #[trigger] filled[j]
            == row[j] by {
            assert(before[i] is None);
            assert(before[j] == row[j]);
            if outcome.shortage is None {
                slots::lemma_count_prefix(before.take(j), slots::vacant(), i);
                assert(before.take(j).take(i) =~= before.take(i));
            }
        }
        assert forall|i: int, j: int, a: int, b: int|
            #![trigger filled[i], filled[j], targets[a], targets[b]]
            0 <= i < j < row.len() && filled[i] != row[i] && filled[j] != row[j] && 0 <= a
                < targets.len() && 0 <= b < targets.len() && targets[a].variant_id
                == filled[i]->0.variant_id && targets[b].variant_id
                == filled[j]->0.variant_id implies a <= b by {
            if before[j] == row[j] {
                assert(filled[j]->0.variant_id == target.variant_id);
                if b < last {
                    assert(targets[b].variant_id != targets[last].variant_id);
                }
            } else {
                assert(!(before[i] is None));
                assert(before[i] != row[i]);
                let c = choose|c: int|
                    0 <= c < shorter.len() && (#[trigger] shorter[c]).variant_id
                        == before[i]->0.variant_id && shorter[c].buckets > allocation::held(
                        base,
                        experiment,
                        shorter[c].variant_id,
                    );
                let d = choose|d: int|
                    0 <= d < shorter.len() && (#[trigger] shorter[d]).variant_id
                        == before[j]->0.variant_id && shorter[d].buckets > allocation::held(
                        base,
                        experiment,
                        shorter[d].variant_id,
                    );
                assert(shorter[c].variant_id == before[i]->0.variant_id);
                assert(c <= d);
                assert(targets[c] == shorter[c] && targets[d] == shorter[d]);
                if a < c {
                    assert(targets[a].variant_id != targets[c].variant_id);
                }
                if c < a {
                    assert(targets[c].variant_id != targets[a].variant_id);
                }
                if b < d {
                    assert(targets[b].variant_id != targets[d].variant_id);
                }
                if d < b {
                    assert(targets[d].variant_id != targets[b].variant_id);
                }
            }
        }
    }
}

/// A variant that has to give up buckets gives up its first ones: if it keeps one,
/// it keeps every later one.
pub proof fn reconciling_gives_up_the_first_buckets(
    row: Slots,
    experiment: Seq<char>,
    targets: Seq<TargetView>,
    i: int,
    j: int,
)
    requires
        allocation_laws::distinct_targets(targets),
        0 <= i < j < row.len(),
        row[i] is Some,
        row[i]->0.experiment_id == experiment,
        row[j] == row[i],
        allocation::reconciled(row, experiment, targets).slots[i] == row[i],
    ensures
        allocation::reconciled(row, experiment, targets).slots[j] == row[j],
{
    let base = allocation::without_stale(row, experiment, targets);
    let freed = allocation::excess_freed(base, base, experiment, targets);
    let after = allocation::reconciled(row, experiment, targets).slots;
    let variant = row[i]->0.variant_id;
    allocation_laws::reconciling_spares_other_experiments(row, experiment, targets);
    allocation_laws::lemma_excess_freed_frame(base, base, experiment, targets);
    lemma_filled(freed, base, experiment, targets);
    if !allocation::has_target(targets, variant) {
        assert(base[i] is None);
        assert(freed[i] is None);
        assert(after[i] != freed[i]);
        let b = choose|b: int|
            0 <= b < targets.len() && (#[trigger] targets[b]).variant_id
                == after[i]->0.variant_id && targets[b].buckets > allocation::held(
                base,
                experiment,
                targets[b].variant_id,
            );
        assert(targets[b].variant_id == variant);
        assert(false);
    }
    let k = choose|k: int| 0 <= k < targets.len() && (#[trigger] targets[k]).variant_id == variant;
    let kind = slots::held_by(experiment, variant);
    assert(base[i] == row[i] && base[j] == row[j]);
    lemma_freed_at(base, experiment, targets, k, i);
    lemma_freed_at(base, experiment, targets, k, j);
    if freed[i] is None {
        let b = choose|b: int|
            0 <= b < targets.len() && (#[trigger] targets[b]).variant_id
                == after[i]->0.variant_id && targets[b].buckets > allocation::held(
                base,
                experiment,
                targets[b].variant_id,
            );
        if b < k {
            assert(targets[b].variant_id != targets[k].variant_id);
        }
        if k < b {
            assert(targets[k].variant_id != targets[b].variant_id);
        }
        assert(false);
    }
    slots::lemma_count_prefix(base.take(j), kind, i);
    assert(base.take(j).take(i) =~= base.take(i));
    assert(freed[j] == base[j]);
    assert(after[j] == freed[j]);
}

/// Buckets are taken from the front: no bucket is taken behind one that stays
/// vacant.
pub proof fn reconciling_takes_the_first_vacant_buckets(
    row: Slots,
    experiment: Seq<char>,
    targets: Seq<TargetView>,
    i: int,
    j: int,
)
    requires
        allocation_laws::distinct_targets(targets),
        0 <= i < j < row.len(),
        allocation::reconciled(row, experiment, targets).slots[i] is None,
        allocation::reconciled(row, experiment, targets).slots[j] is Some,
    ensures
        allocation::reconciled(row, experiment, targets).slots[j] == row[j],
{
    let base = allocation::without_stale(row, experiment, targets);
    let freed = allocation::excess_freed(base, base, experiment, targets);
    let after = allocation::reconciled(row, experiment, targets).slots;
    allocation_laws::lemma_excess_freed_frame(base, base, experiment, targets);
    lemma_filled(freed, base, experiment, targets);
    assert(after[i] is None);
    assert(after[j] == freed[j]);
    assert(freed[j] == base[j]);
    assert(base[j] == row[j]);
}

/// Buckets are taken for one variant after another, in the order of the targets:
/// of two buckets that were taken, the one in front does not go to a later
/// variant.
pub proof fn reconciling_takes_buckets_in_the_order_of_targets(
    row: Slots,
    experiment: Seq<char>,
    targets: Seq<TargetView>,
    i: int,
    j: int,
    a: int,
    b: int,
)
    requires
        allocation_laws::distinct_targets(targets),
        0 <= i < j < row.len(),
        0 <= a < targets.len(),
        0 <= b < targets.len(),
        ({
            let after = allocation::reconciled(row, experiment, targets).slots;
            &&& after[i] is Some && after[i] != row[i]
            &&& after[j] is Some && after[j] != row[j]
            &&& after[i]->0.variant_id == targets[a].variant_id
            &&& after[j]->0.variant_id == targets[b].variant_id
        }),
    ensures
        a <= b,
{
    let base = allocation::without_stale(row, experiment, targets);
    let freed = allocation::excess_freed(base, base, experiment, targets);
    let after = allocation::reconciled(row, experiment, targets).slots;
    allocation_laws::lemma_excess_freed_frame(base, base, experiment, targets);
    lemma_filled(freed, base, experiment, targets);
    assert(freed[i] == base[i] || freed[i] is None);
    assert(freed[j] == base[j] || freed[j] is None);
    assert(base[i] == row[i] || base[i] is None);
    assert(base[j] == row[j] || base[j] is None);
    assert(after[i] != freed[i] && after[j] != freed[j]);
}

/// What filling leaves when vacant buckets do not suffice.
proof fn lemma_shortage(
    row: Slots,
    base: Slots,
    experiment: Seq<char>,
    targets: Seq<TargetView>,
)
    requires
        allocation_laws::distinct_targets(targets),
        allocation::shortfall_filled(row, base, experiment, targets).shortage is Some,
    ensures
        ({
            let outcome = allocation::shortfall_filled(row, base, experiment, targets);
            let shortage = outcome.shortage->0;
            &&& shortage.required > 0
            &&& slots::count(outcome.slots, slots::vacant()) == 0
            &&& exists|k: int|
                0 <= k < targets.len() && (#[trigger] targets[k]).variant_id
                    == shortage.variant_id && allocation::held(
                    outcome.slots,
                    experiment,
                    targets[k].variant_id,
                ) + shortage.required == allocation::held(row, experiment, targets[k].variant_id)
                    + slots::excess(
                    targets[k].buckets,
                    allocation::held(base, experiment, targets[k].variant_id),
                ) && shortage_at(row, base, experiment, targets, outcome.slots, k)
            &&& forall|variant: Seq<char>|
                !allocation::has_target(targets, variant) ==> #[trigger] allocation::held(
                    outcome.slots,
                    experiment,
                    variant,
                ) == allocation::held(row, experiment, variant)
        }),
    decreases targets.len(),
{
    let shorter = targets.drop_last();
    let last = targets.len() - 1;
    let target = targets[last];
    allocation_laws::lemma_distinct_shorter(targets);
    let before = allocation::shortfall_filled(row, base, experiment, shorter);
    let outcome = allocation::shortfall_filled(row, base, experiment, targets);
    if before.shortage is Some {
        lemma_shortage(row, base, experiment, shorter);
        let shortage = outcome.shortage->0;
        let k = choose|k: int|
            0 <= k < shorter.len() && (#[trigger] shorter[k]).variant_id == shortage.variant_id
                && allocation::held(outcome.slots, experiment, shorter[k].variant_id)
                + shortage.required == allocation::held(row, experiment, shorter[k].variant_id)
                + slots::excess(
                shorter[k].buckets,
                allocation::held(base, experiment, shorter[k].variant_id),
            ) && shortage_at(row, base, experiment, shorter, outcome.slots, k);
        assert(targets[k] == shorter[k]);
        assert forall|j: int|
            0 <= j < targets.len() && j != k implies (#[trigger] allocation::held(
            outcome.slots,
            experiment,
            targets[j].variant_id,
        )) == allocation::held(row, experiment, targets[j].variant_id) + if j < k {
            slots::excess(
                targets[j].buckets,
                allocation::held(base, experiment, targets[j].variant_id),
            )
        } else {
            0
        } by {
            if j < last {
                assert(shorter[j] == targets[j]);
                assert(allocation::held(outcome.slots, experiment, shorter[j].variant_id)
                    == allocation::held(outcome.slots, experiment, targets[j].variant_id));
            } else {
                assert(!allocation::has_target(shorter, targets[j].variant_id));
            }
        }
        assert forall|variant: Seq<char>|
            !allocation::has_target(targets, variant) implies #[trigger] allocation::held(
            outcome.slots,
            experiment,
            variant,
        ) == allocation::held(row, experiment, variant) by {
            allocation_laws::lemma_has_target_shorter(targets, variant);
        }
    } else {
        allocation_laws::lemma_shortfall_filled_counts(row, base, experiment, shorter);
        let n = slots::excess(
            target.buckets,
            allocation::held(base, experiment, target.variant_id),
        );
        let slot = Some(BucketView { experiment_id: experiment, variant_id: target.variant_id });
        slots::lemma_replace_first_count(before.slots, slots::vacant(), n, slot);
        assert forall|variant: Seq<char>|
            #![trigger allocation::held(outcome.slots, experiment, variant)]
            allocation::held(outcome.slots, experiment, variant) == allocation::held(
                before.slots,
                experiment,
                variant,
            ) + if variant == target.variant_id {
                slots::count(before.slots, slots::vacant())
            } else {
                0
            } by {
            slots::lemma_replace_first_other(
                before.slots,
                slots::vacant(),
                n,
                slot,
                slots::held_by(experiment, variant),
            );
        }
        assert(!allocation::has_target(shorter, target.variant_id));
        assert(targets[last].variant_id == outcome.shortage->0.variant_id);
        assert forall|j: int|
            0 <= j < targets.len() && j != last implies (#[trigger] allocation::held(
            outcome.slots,
            experiment,
            targets[j].variant_id,
        )) == allocation::held(row, experiment, targets[j].variant_id) + if j < last {
            slots::excess(
                targets[j].buckets,
                allocation::held(base, experiment, targets[j].variant_id),
            )
        } else {
            0
        } by {
            assert(shorter[j] == targets[j]);
            assert(targets[j].variant_id != targets[last].variant_id);
        }
        assert(shortage_at(row, base, experiment, targets, outcome.slots, last));
        assert forall|variant: Seq<char>|
            !allocation::has_target(targets, variant) implies #[trigger] allocation::held(
            outcome.slots,
            experiment,
            variant,
        ) == allocation::held(row, experiment, variant) by {
            allocation_laws::lemma_has_target_shorter(targets, variant);
        }
    }
}

/// Variants in front of the one at `k` got what they lacked, and those behind it
/// got nothing.
spec fn shortage_at(
    row: Slots,
    base: Slots,
    experiment: Seq<char>,
    targets: Seq<TargetView>,
    after: Slots,
    k: int,
) -> bool {
    forall|j: int|
        0 <= j < targets.len() && j != k ==> (#[trigger] allocation::held(
            after,
            experiment,
            targets[j].variant_id,
        )) == allocation::held(row, experiment, targets[j].variant_id) + if j < k {
            slots::excess(
                targets[j].buckets,
                allocation::held(base, experiment, targets[j].variant_id),
            )
        } else {
            0
        }
}

/// A refusal for want of buckets names a variant and how many buckets it lacks:
/// no bucket is vacant any more, the variants in front of it hold their targets, it
/// holds its target but for what it lacks, and those behind it have gained
/// nothing.
pub proof fn refusals_tell_what_is_lacking(
    row: Slots,
    experiment: Seq<char>,
    targets: Seq<TargetView>,
) -> (k: int)
    requires
        allocation_laws::distinct_targets(targets),
        allocation::reconciled(row, experiment, targets).shortage is Some,
    ensures
        0 <= k < targets.len(),
        ({
            let outcome = allocation::reconciled(row, experiment, targets);
            let shortage = outcome.shortage->0;
            &&& shortage.variant_id == targets[k].variant_id
            &&& shortage.required > 0
            &&& allocation::held(outcome.slots, experiment, targets[k].variant_id)
                + shortage.required == targets[k].buckets
            &&& forall|i: int|
                0 <= i < outcome.slots.len() ==> (#[trigger] outcome.slots[i]) is Some
            &&& forall|j: int|
                0 <= j < k ==> allocation::held(
                    outcome.slots,
                    experiment,
                    (#[trigger] targets[j]).variant_id,
                ) == targets[j].buckets
            &&& forall|j: int|
                k < j < targets.len() ==> {
                    let held = allocation::held(
                        outcome.slots,
                        experiment,
                        (#[trigger] targets[j]).variant_id,
                    );
                    let before = allocation::held(row, experiment, targets[j].variant_id);
                    &&& held <= targets[j].buckets
                    &&& held <= before
                    &&& held == targets[j].buckets || held == before
                }
        }),
{
    let base = allocation::without_stale(row, experiment, targets);
    let freed = allocation::excess_freed(base, base, experiment, targets);
    let outcome = allocation::reconciled(row, experiment, targets);
    let shortage = outcome.shortage->0;
    allocation_laws::lemma_without_stale(row, experiment, targets);
    allocation_laws::lemma_excess_freed_counts(base, experiment, targets);
    lemma_shortage(freed, base, experiment, targets);
    let k = choose|k: int|
        0 <= k < targets.len() && (#[trigger] targets[k]).variant_id == shortage.variant_id
            && allocation::held(outcome.slots, experiment, targets[k].variant_id)
            + shortage.required == allocation::held(freed, experiment, targets[k].variant_id)
            + slots::excess(
            targets[k].buckets,
            allocation::held(base, experiment, targets[k].variant_id),
        ) && shortage_at(freed, base, experiment, targets, outcome.slots, k);
    slots::lemma_count_none(outcome.slots, slots::vacant());
    assert forall|i: int| 0 <= i < outcome.slots.len() implies (
    #[trigger] outcome.slots[i]) is Some by {
        assert(!slots::vacant()(outcome.slots[i]));
    }
    assert forall|j: int| 0 <= j < k implies allocation::held(
        outcome.slots,
        experiment,
        (#[trigger] targets[j]).variant_id,
    ) == targets[j].buckets by {}
    assert forall|j: int| k < j < targets.len() implies {
        let held = allocation::held(
            outcome.slots,
            experiment,
            (#[trigger] targets[j]).variant_id,
        );
        let before = allocation::held(row, experiment, targets[j].variant_id);
        &&& held <= targets[j].buckets
        &&& held <= before
        &&& held == targets[j].buckets || held == before
    } by {
        assert(allocation::has_target(targets, targets[j].variant_id));
    }
    k
}

/// A result tells of success exactly where there is no shortage, and otherwise of
/// the shortage there is.
pub proof fn results_tell_the_shortage(result: Result<(), GroupError>, outcome: FillView)
    requires
        allocation::tells_shortage(result, outcome),
    ensures
        result is Ok <==> outcome.shortage is None,
        result is Err ==> match result->Err_0 {
            GroupError::NotEnoughBuckets { required, variant_id } => {
                &&& required == outcome.shortage->0.required
                &&& variant_id@ == outcome.shortage->0.variant_id
            },
            _ => false,
        },
{
}

/// After reconciling, whether or not all targets were met, no bucket of the
/// experiment is left with a variant that has no target, nor has a variant more
/// buckets than its target.
pub proof fn reconciling_leaves_nothing_above_the_targets(
    row: Slots,
    experiment: Seq<char>,
    targets: Seq<TargetView>,
    i: int,
)
    requires
        allocation_laws::distinct_targets(targets),
        0 <= i < row.len(),
        allocation::reconciled(row, experiment, targets).slots[i] is Some,
        allocation::reconciled(row, experiment, targets).slots[i]->0.experiment_id == experiment,
    ensures
        exists|k: int|
            0 <= k < targets.len() && (#[trigger] targets[k]).variant_id
                == allocation::reconciled(row, experiment, targets).slots[i]->0.variant_id
                && allocation::held(
                allocation::reconciled(row, experiment, targets).slots,
                experiment,
                targets[k].variant_id,
            ) <= targets[k].buckets,
{
    let base = allocation::without_stale(row, experiment, targets);
    let freed = allocation::excess_freed(base, base, experiment, targets);
    let after = allocation::reconciled(row, experiment, targets).slots;
    allocation_laws::lemma_excess_freed_frame(base, base, experiment, targets);
    lemma_filled(freed, base, experiment, targets);
    assert(freed[i] == base[i] || freed[i] is None);
    assert(allocation::has_target(targets, after[i]->0.variant_id)) by {
        if after[i] != freed[i] {
            let b = choose|b: int|
                0 <= b < targets.len() && (#[trigger] targets[b]).variant_id
                    == after[i]->0.variant_id && targets[b].buckets > allocation::held(
                    base,
                    experiment,
                    targets[b].variant_id,
                );
            assert(targets[b].variant_id == after[i]->0.variant_id);
        }
    }
    let k = choose|k: int|
        0 <= k < targets.len() && (#[trigger] targets[k]).variant_id == after[i]->0.variant_id;
    if allocation::reconciled(row, experiment, targets).shortage is Some {
        let m = refusals_tell_what_is_lacking(row, experiment, targets);
        assert(targets[k].variant_id == after[i]->0.variant_id);
        if k == m {
        } else if k < m {
            assert(allocation::held(after, experiment, targets[k].variant_id)
                == targets[k].buckets);
        } else {
            assert(allocation::held(after, experiment, targets[k].variant_id)
                <= targets[k].buckets);
        }
    } else {
        allocation_laws::reconciling_meets_targets(row, experiment, targets);
        assert(allocation::held(after, experiment, targets[k].variant_id)
            == targets[k].buckets);
    }
}

/// A ramp moves as few buckets as it can: a variant that has to give up buckets
/// gives up its first ones, so that it keeps every bucket behind one that it keeps,
/// and no bucket is taken behind one that stays vacant.
pub proof fn ramping_moves_the_first_buckets(
    row: Slots,
    experiment_id: i64,
    experiment_type: ExperimentType,
    variants: Seq<Variant>,
    percentage: nat,
    i: int,
    j: int,
)
    requires
        target_laws::distinct_variants(variants),
        0 <= i < j < row.len(),
    ensures
        ({
            let after = allocation::ramped(
                row,
                experiment_id,
                experiment_type,
                variants,
                percentage,
            ).slots;
            let own = row[i] is Some && row[i]->0.experiment_id == text::decimal(
                experiment_id as int,
            );
            &&& own && row[j] == row[i] && after[i] == row[i] ==> after[j] == row[j]
            &&& after[i] is None && after[j] is Some ==> after[j] == row[j]
        }),
{
    let id = text::decimal(experiment_id as int);
    let targets = allocation::variant_targets(experiment_type, variants, percentage);
    let after = allocation::reconciled(row, id, targets).slots;
    target_laws::lemma_distinct_targets(experiment_type, variants, percentage);
    if row[i] is Some && row[i]->0.experiment_id == id && row[j] == row[i] && after[i] == row[i] {
        reconciling_gives_up_the_first_buckets(row, id, targets, i, j);
    }
    if after[i] is None && after[j] is Some {
        reconciling_takes_the_first_vacant_buckets(row, id, targets, i, j);
    }
}

/// A ramp takes buckets for one variant after another, in the order of the
/// variants: of two buckets that were taken, the one in front does not go to a
/// later variant.
pub proof fn ramping_takes_buckets_in_the_order_of_variants(
    row: Slots,
    experiment_id: i64,
    experiment_type: ExperimentType,
    variants: Seq<Variant>,
    percentage: nat,
    i: int,
    j: int,
    a: int,
    b: int,
)
    requires
        target_laws::distinct_variants(variants),
        0 <= i < j < row.len(),
        0 <= a < variants.len(),
        0 <= b < variants.len(),
        ({
            let after = allocation::ramped(
                row,
                experiment_id,
                experiment_type,
                variants,
                percentage,
            ).slots;
            &&& after[i] is Some && after[i] != row[i]
            &&& after[j] is Some && after[j] != row[j]
            &&& after[i]->0.variant_id == variants[a].id@
            &&& after[j]->0.variant_id == variants[b].id@
        }),
    ensures
        a <= b,
{
    let id = text::decimal(experiment_id as int);
    let targets = allocation::variant_targets(experiment_type, variants, percentage);
    target_laws::lemma_distinct_targets(experiment_type, variants, percentage);
    assert(targets[a].variant_id == variants[a].id@);
    assert(targets[b].variant_id == variants[b].id@);
    reconciling_takes_buckets_in_the_order_of_targets(row, id, targets, i, j, a, b);
}

/// A ramp that is refused names the first variant for which the buckets do not
/// suffice, and how many it lacks of its target.
pub proof fn refused_ramps_tell_what_is_lacking(
    row: Slots,
    experiment_id: i64,
    experiment_type: ExperimentType,
    variants: Seq<Variant>,
    percentage: nat,
) -> (k: int)
    requires
        target_laws::distinct_variants(variants),
        allocation::ramped(
            row,
            experiment_id,
            experiment_type,
            variants,
            percentage,
        ).shortage is Some,
    ensures
        0 <= k < variants.len(),
        ({
            let id = text::decimal(experiment_id as int);
            let outcome = allocation::ramped(
                row,
                experiment_id,
                experiment_type,
                variants,
                percentage,
            );
            &&& outcome.shortage->0.variant_id == variants[k].id@
            &&& outcome.shortage->0.required > 0
            &&& allocation::held(outcome.slots, id, variants[k].id@)
                + outcome.shortage->0.required == allocation::variant_target(
                experiment_type,
                variants,
                percentage,
                k,
            )
            &&& forall|i: int|
                0 <= i < outcome.slots.len() ==> (#[trigger] outcome.slots[i]) is Some
            &&& forall|j: int|
                0 <= j < k ==> allocation::held(outcome.slots, id, (#[trigger] variants[j]).id@)
                    == allocation::variant_target(experiment_type, variants, percentage, j)
        }),
{
    let id = text::decimal(experiment_id as int);
    let targets = allocation::variant_targets(experiment_type, variants, percentage);
    let outcome = allocation::reconciled(row, id, targets);
    target_laws::lemma_distinct_targets(experiment_type, variants, percentage);
    let k = refusals_tell_what_is_lacking(row, id, targets);
    assert forall|j: int| 0 <= j < k implies allocation::held(
        outcome.slots,
        id,
        (#[trigger] variants[j]).id@,
    ) == allocation::variant_target(experiment_type, variants, percentage, j) by {
        assert(targets[j].variant_id == variants[j].id@);
    }
    k
}

} // verus!
