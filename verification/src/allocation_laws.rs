//! What holds of every allocation of buckets.
use vstd::prelude::*;

use crate::allocation;
use crate::allocation::{FillView, TargetView};
use crate::model::BucketView;
use crate::slots;
use crate::slots::Slots;

verus! {

/// No two targets are of the same variant.
pub open spec fn distinct_targets(targets: Seq<TargetView>) -> bool {
    forall|i: int, j: int|
        0 <= i < j < targets.len() ==> (#[trigger] targets[i]).variant_id != (
        #[trigger] targets[j]).variant_id
}

/// The buckets of all targets together.
pub open spec fn target_sum(targets: Seq<TargetView>) -> nat
    decreases targets.len(),
{
    if targets.len() == 0 {
        0
    } else {
        target_sum(targets.drop_last()) + targets.last().buckets
    }
}

/// The buckets that the variants with a target hold together.
spec fn held_sum(slots: Slots, experiment: Seq<char>, targets: Seq<TargetView>) -> nat
    decreases targets.len(),
{
    if targets.len() == 0 {
        0
    } else {
        held_sum(slots, experiment, targets.drop_last()) + allocation::held(
            slots,
            experiment,
            targets.last().variant_id,
        )
    }
}

/// By how much variants exceed their targets, together.
pub(crate) open spec fn excess_sum(base: Slots, experiment: Seq<char>, targets: Seq<TargetView>) -> nat
    decreases targets.len(),
{
    if targets.len() == 0 {
        0
    } else {
        excess_sum(base, experiment, targets.drop_last()) + slots::excess(
            allocation::held(base, experiment, targets.last().variant_id),
            targets.last().buckets,
        )
    }
}

/// By how much variants fall short of their targets, together.
pub(crate) open spec fn missing_sum(base: Slots, experiment: Seq<char>, targets: Seq<TargetView>) -> nat
    decreases targets.len(),
{
    if targets.len() == 0 {
        0
    } else {
        missing_sum(base, experiment, targets.drop_last()) + slots::excess(
            targets.last().buckets,
            allocation::held(base, experiment, targets.last().variant_id),
        )
    }
}

proof fn lemma_sums_balance(base: Slots, experiment: Seq<char>, targets: Seq<TargetView>)
    ensures
        target_sum(targets) + excess_sum(base, experiment, targets) == held_sum(
            base,
            experiment,
            targets,
        ) + missing_sum(base, experiment, targets),
    decreases targets.len(),
{
    if targets.len() > 0 {
        lemma_sums_balance(base, experiment, targets.drop_last());
    }
}

pub(crate) proof fn lemma_distinct_shorter(targets: Seq<TargetView>)
    requires
        distinct_targets(targets),
        targets.len() > 0,
    ensures
        distinct_targets(targets.drop_last()),
        !allocation::has_target(targets.drop_last(), targets.last().variant_id),
{
    let shorter = targets.drop_last();
    assert forall|i: int, j: int| 0 <= i < j < shorter.len() implies (
    #[trigger] shorter[i]).variant_id != (#[trigger] shorter[j]).variant_id by {
        assert(targets[i].variant_id != targets[j].variant_id);
    }
    assert forall|i: int| 0 <= i < shorter.len() implies (#[trigger] shorter[i]).variant_id
        != targets.last().variant_id by {
        assert(targets[i].variant_id != targets[targets.len() - 1].variant_id);
    }
}

pub(crate) proof fn lemma_has_target_shorter(targets: Seq<TargetView>, variant: Seq<char>)
    requires
        targets.len() > 0,
    ensures
        allocation::has_target(targets, variant) <==> (allocation::has_target(
            targets.drop_last(),
            variant,
        ) || targets.last().variant_id == variant),
{
    let shorter = targets.drop_last();
    if allocation::has_target(targets, variant) {
        let i = choose|i: int|
            0 <= i < targets.len() && (#[trigger] targets[i]).variant_id == variant;
        if i < shorter.len() {
            assert(shorter[i].variant_id == variant);
        }
    }
    if allocation::has_target(shorter, variant) {
        let i = choose|i: int|
            0 <= i < shorter.len() && (#[trigger] shorter[i]).variant_id == variant;
        assert(targets[i].variant_id == variant);
    }
    if targets.last().variant_id == variant {
        assert(targets[targets.len() - 1].variant_id == variant);
    }
}

/// One more bucket adds to what the variants with a target hold together if it
/// is held by one of them.
proof fn lemma_held_sum_step(
    row: Slots,
    slot: Option<BucketView>,
    experiment: Seq<char>,
    targets: Seq<TargetView>,
)
    requires
        distinct_targets(targets),
    ensures
        held_sum(row.push(slot), experiment, targets) == held_sum(row, experiment, targets)
            + if slots::owned_by(experiment)(slot) && allocation::has_target(
            targets,
            slot->0.variant_id,
        ) {
            1nat
        } else {
            0
        },
    decreases targets.len(),
{
    if targets.len() > 0 {
        lemma_distinct_shorter(targets);
        lemma_held_sum_step(row, slot, experiment, targets.drop_last());
        assert(row.push(slot).drop_last() =~= row);
        if slot is Some {
            lemma_has_target_shorter(targets, slot->0.variant_id);
        }
    }
}

/// Every bucket of the experiment is held by a variant with a target.
pub(crate) open spec fn no_stale(row: Slots, experiment: Seq<char>, targets: Seq<TargetView>) -> bool {
    forall|i: int|
        0 <= i < row.len() && slots::owned_by(experiment)(#[trigger] row[i])
            ==> allocation::has_target(targets, row[i]->0.variant_id)
}

proof fn lemma_owned_is_held_sum(row: Slots, experiment: Seq<char>, targets: Seq<TargetView>)
    requires
        distinct_targets(targets),
        no_stale(row, experiment, targets),
    ensures
        slots::count(row, slots::owned_by(experiment)) == held_sum(row, experiment, targets),
    decreases row.len(),
{
    if row.len() == 0 {
        lemma_held_sum_empty(row, experiment, targets);
    } else {
        let shorter = row.drop_last();
        assert forall|i: int|
            0 <= i < shorter.len() && slots::owned_by(experiment)(
                #[trigger] shorter[i],
            ) implies allocation::has_target(targets, shorter[i]->0.variant_id) by {
            assert(shorter[i] == row[i]);
        }
        lemma_owned_is_held_sum(shorter, experiment, targets);
        lemma_held_sum_step(shorter, row.last(), experiment, targets);
        assert(shorter.push(row.last()) =~= row);
        assert(row.last() == row[row.len() - 1]);
    }
}

proof fn lemma_held_sum_empty(row: Slots, experiment: Seq<char>, targets: Seq<TargetView>)
    requires
        row.len() == 0,
    ensures
        held_sum(row, experiment, targets) == 0,
    decreases targets.len(),
{
    if targets.len() > 0 {
        lemma_held_sum_empty(row, experiment, targets.drop_last());
    }
}

/// Freeing leaves every variant with the lesser of what it held and its target.
pub(crate) proof fn lemma_excess_freed_counts(base: Slots, experiment: Seq<char>, targets: Seq<TargetView>)
    requires
        distinct_targets(targets),
    ensures
        ({
            let freed = allocation::excess_freed(base, base, experiment, targets);
            &&& forall|i: int|
                0 <= i < targets.len() ==> allocation::held(
                    freed,
                    experiment,
                    (#[trigger] targets[i]).variant_id,
                ) == slots::lesser(
                    allocation::held(base, experiment, targets[i].variant_id),
                    targets[i].buckets,
                )
            &&& forall|variant: Seq<char>|
                !allocation::has_target(targets, variant) ==> #[trigger] allocation::held(
                    freed,
                    experiment,
                    variant,
                ) == allocation::held(base, experiment, variant)
            &&& slots::count(freed, slots::vacant()) == slots::count(base, slots::vacant())
                + excess_sum(base, experiment, targets)
        }),
    decreases targets.len(),
{
    if targets.len() > 0 {
        let shorter = targets.drop_last();
        let target = targets.last();
        lemma_distinct_shorter(targets);
        lemma_excess_freed_counts(base, experiment, shorter);
        let before = allocation::excess_freed(base, base, experiment, shorter);
        let freed = allocation::excess_freed(base, base, experiment, targets);
        let kind = slots::held_by(experiment, target.variant_id);
        let n = slots::excess(
            allocation::held(base, experiment, target.variant_id),
            target.buckets,
        );
        assert(allocation::held(before, experiment, target.variant_id) == allocation::held(
            base,
            experiment,
            target.variant_id,
        ));
        slots::lemma_replace_first_count(before, kind, n, None);
        slots::lemma_replace_first_other(before, kind, n, None, slots::vacant());
        assert forall|variant: Seq<char>| variant != target.variant_id implies
            #[trigger] allocation::held(freed, experiment, variant) == allocation::held(
            before,
            experiment,
            variant,
        ) by {
            slots::lemma_replace_first_other(
                before,
                kind,
                n,
                None,
                slots::held_by(experiment, variant),
            );
        }
        assert forall|i: int| 0 <= i < targets.len() implies allocation::held(
            freed,
            experiment,
            (#[trigger] targets[i]).variant_id,
        ) == slots::lesser(
            allocation::held(base, experiment, targets[i].variant_id),
            targets[i].buckets,
        ) by {
            if i < shorter.len() {
                assert(shorter[i] == targets[i]);
                assert(targets[i].variant_id != targets[targets.len() - 1].variant_id);
            }
        }
        assert forall|variant: Seq<char>|
            !allocation::has_target(targets, variant) implies #[trigger] allocation::held(
            freed,
            experiment,
            variant,
        ) == allocation::held(base, experiment, variant) by {
            lemma_has_target_shorter(targets, variant);
        }
    }
}

/// Filling meets every target as far as the vacant buckets suffice.
pub(crate) proof fn lemma_shortfall_filled_counts(
    row: Slots,
    base: Slots,
    experiment: Seq<char>,
    targets: Seq<TargetView>,
)
    requires
        distinct_targets(targets),
    ensures
        ({
            let outcome = allocation::shortfall_filled(row, base, experiment, targets);
            let room = slots::count(row, slots::vacant());
            let missing = missing_sum(base, experiment, targets);
            &&& outcome.shortage is None <==> missing <= room
            &&& outcome.shortage is None ==> {
                &&& slots::count(outcome.slots, slots::vacant()) == room - missing
                &&& forall|i: int|
                    0 <= i < targets.len() ==> allocation::held(
                        outcome.slots,
                        experiment,
                        (#[trigger] targets[i]).variant_id,
                    ) == allocation::held(row, experiment, targets[i].variant_id) + slots::excess(
                        targets[i].buckets,
                        allocation::held(base, experiment, targets[i].variant_id),
                    )
                &&& forall|variant: Seq<char>|
                    !allocation::has_target(targets, variant) ==> #[trigger] allocation::held(
                        outcome.slots,
                        experiment,
                        variant,
                    ) == allocation::held(row, experiment, variant)
            }
        }),
    decreases targets.len(),
{
    if targets.len() > 0 {
        let shorter = targets.drop_last();
        let target = targets.last();
        lemma_distinct_shorter(targets);
        lemma_shortfall_filled_counts(row, base, experiment, shorter);
        let before = allocation::shortfall_filled(row, base, experiment, shorter);
        let outcome = allocation::shortfall_filled(row, base, experiment, targets);
        if before.shortage is None {
            let n = slots::excess(
                target.buckets,
                allocation::held(base, experiment, target.variant_id),
            );
            let slot = Some(
                BucketView { experiment_id: experiment, variant_id: target.variant_id },
            );
            slots::lemma_replace_first_count(before.slots, slots::vacant(), n, slot);
            assert forall|variant: Seq<char>|
                #![trigger allocation::held(outcome.slots, experiment, variant)]
                allocation::held(outcome.slots, experiment, variant) == allocation::held(
                    before.slots,
                    experiment,
                    variant,
                ) + if variant == target.variant_id {
                    slots::lesser(n, slots::count(before.slots, slots::vacant()))
                } else {
                    0
                } by {
                slots::lemma_replace_first_other(
                    before.slots,
                    slots::vacant(),
                    n,
                    slot,
                    slots::held_by(experiment, variant),
                );
            }
            if outcome.shortage is None {
                assert forall|i: int| 0 <= i < targets.len() implies allocation::held(
                    outcome.slots,
                    experiment,
                    (#[trigger] targets[i]).variant_id,
                ) == allocation::held(row, experiment, targets[i].variant_id) + slots::excess(
                    targets[i].buckets,
                    allocation::held(base, experiment, targets[i].variant_id),
                ) by {
                    if i < shorter.len() {
                        assert(shorter[i] == targets[i]);
                        assert(targets[i].variant_id != targets[targets.len() - 1].variant_id);
                    } else {
                        assert(!allocation::has_target(shorter, target.variant_id));
                    }
                }
                assert forall|variant: Seq<char>|
                    !allocation::has_target(targets, variant) implies #[trigger] allocation::held(
                    outcome.slots,
                    experiment,
                    variant,
                ) == allocation::held(row, experiment, variant) by {
                    lemma_has_target_shorter(targets, variant);
                }
            }
        }
    }
}

/// Giving up buckets without a target leaves no stale bucket and changes neither
/// what the other variants hold nor what the experiment may use.
pub(crate) proof fn lemma_without_stale(row: Slots, experiment: Seq<char>, targets: Seq<TargetView>)
    ensures
        ({
            let base = allocation::without_stale(row, experiment, targets);
            &&& base.len() == row.len()
            &&& no_stale(base, experiment, targets)
            &&& slots::count(base, slots::available_to(experiment)) == slots::count(
                row,
                slots::available_to(experiment),
            )
            &&& forall|variant: Seq<char>|
                allocation::has_target(targets, variant) ==> #[trigger] allocation::held(
                    base,
                    experiment,
                    variant,
                ) == allocation::held(row, experiment, variant)
        }),
{
    let base = allocation::without_stale(row, experiment, targets);
    slots::lemma_count_match(
        base,
        slots::available_to(experiment),
        row,
        slots::available_to(experiment),
    );
    assert forall|variant: Seq<char>|
        allocation::has_target(targets, variant) implies #[trigger] allocation::held(
        base,
        experiment,
        variant,
    ) == allocation::held(row, experiment, variant) by {
        slots::lemma_count_match(
            base,
            slots::held_by(experiment, variant),
            row,
            slots::held_by(experiment, variant),
        );
    }
}

/// Freeing only makes buckets of the experiment vacant, and only those of a
/// variant above its target.
pub(crate) proof fn lemma_excess_freed_frame(
    row: Slots,
    base: Slots,
    experiment: Seq<char>,
    targets: Seq<TargetView>,
)
    ensures
        ({
            let freed = allocation::excess_freed(row, base, experiment, targets);
            &&& freed.len() == row.len()
            &&& forall|i: int|
                0 <= i < row.len() ==> (#[trigger] freed[i] == row[i] || (freed[i] is None
                    && slots::owned_by(experiment)(row[i]) && exists|j: int|
                    0 <= j < targets.len() && (#[trigger] targets[j]).variant_id
                        == row[i]->0.variant_id && targets[j].buckets < allocation::held(
                        base,
                        experiment,
                        targets[j].variant_id,
                    )))
        }),
    decreases targets.len(),
{
    if targets.len() > 0 {
        let shorter = targets.drop_last();
        lemma_excess_freed_frame(row, base, experiment, shorter);
        let before = allocation::excess_freed(row, base, experiment, shorter);
        let freed = allocation::excess_freed(row, base, experiment, targets);
        assert forall|i: int| 0 <= i < row.len() implies (#[trigger] freed[i] == row[i] || (
        freed[i] is None && slots::owned_by(experiment)(row[i]) && exists|j: int|
            0 <= j < targets.len() && (#[trigger] targets[j]).variant_id == row[i]->0.variant_id
                && targets[j].buckets < allocation::held(
                base,
                experiment,
                targets[j].variant_id,
            ))) by {
            if before[i] != row[i] {
                let j = choose|j: int|
                    0 <= j < shorter.len() && (#[trigger] shorter[j]).variant_id
                        == row[i]->0.variant_id && shorter[j].buckets < allocation::held(
                        base,
                        experiment,
                        shorter[j].variant_id,
                    );
                assert(targets[j] == shorter[j]);
            } else if freed[i] != before[i] {
                assert(targets[targets.len() - 1].variant_id == row[i]->0.variant_id);
            }
        }
    }
}

/// Filling only gives vacant buckets to variants with a target.
proof fn lemma_shortfall_filled_frame(
    row: Slots,
    base: Slots,
    experiment: Seq<char>,
    targets: Seq<TargetView>,
)
    ensures
        ({
            let filled = allocation::shortfall_filled(row, base, experiment, targets).slots;
            &&& filled.len() == row.len()
            &&& forall|i: int|
                0 <= i < row.len() ==> (#[trigger] filled[i] == row[i] || (row[i] is None
                    && slots::owned_by(experiment)(filled[i]) && allocation::has_target(
                    targets,
                    filled[i]->0.variant_id,
                )))
        }),
    decreases targets.len(),
{
    if targets.len() > 0 {
        let shorter = targets.drop_last();
        lemma_shortfall_filled_frame(row, base, experiment, shorter);
        let before = allocation::shortfall_filled(row, base, experiment, shorter);
        let filled = allocation::shortfall_filled(row, base, experiment, targets).slots;
        assert forall|i: int| 0 <= i < row.len() implies (#[trigger] filled[i] == row[i] || (
        row[i] is None && slots::owned_by(experiment)(filled[i]) && allocation::has_target(
            targets,
            filled[i]->0.variant_id,
        ))) by {
            if filled[i] is Some {
                lemma_has_target_shorter(targets, filled[i]->0.variant_id);
            }
            assert(before.slots[i] == row[i] || row[i] is None);
        }
    }
}

/// Reconciling changes only buckets that are vacant or the experiment's own. A
/// bucket that it changes ends up vacant or with a variant that has a target, so
/// the buckets of other experiments stay as they are.
pub proof fn reconciling_spares_other_experiments(
    row: Slots,
    experiment: Seq<char>,
    targets: Seq<TargetView>,
)
    ensures
        ({
            let after = allocation::reconciled(row, experiment, targets).slots;
            &&& after.len() == row.len()
            &&& forall|i: int|
                0 <= i < row.len() && #[trigger] after[i] != row[i] ==> {
                    &&& slots::available_to(experiment)(row[i])
                    &&& after[i] is Some ==> slots::owned_by(experiment)(after[i])
                        && allocation::has_target(targets, after[i]->0.variant_id)
                }
        }),
{
    let base = allocation::without_stale(row, experiment, targets);
    let freed = allocation::excess_freed(base, base, experiment, targets);
    let after = allocation::reconciled(row, experiment, targets).slots;
    lemma_excess_freed_frame(base, base, experiment, targets);
    lemma_shortfall_filled_frame(freed, base, experiment, targets);
    assert forall|i: int| 0 <= i < row.len() && #[trigger] after[i] != row[i] implies {
        &&& slots::available_to(experiment)(row[i])
        &&& after[i] is Some ==> slots::owned_by(experiment)(after[i]) && allocation::has_target(
            targets,
            after[i]->0.variant_id,
        )
    } by {
        assert(freed[i] == base[i] || freed[i] is None);
        assert(base[i] == row[i] || base[i] is None);
    }
}

/// Reconciling succeeds exactly where the targets together are no more than the
/// buckets that are vacant or the experiment's own.
pub proof fn reconciling_succeeds_iff_targets_fit(
    row: Slots,
    experiment: Seq<char>,
    targets: Seq<TargetView>,
)
    requires
        distinct_targets(targets),
    ensures
        allocation::reconciled(row, experiment, targets).shortage is None <==> target_sum(targets)
            <= slots::count(row, slots::available_to(experiment)),
{
    let base = allocation::without_stale(row, experiment, targets);
    let freed = allocation::excess_freed(base, base, experiment, targets);
    lemma_without_stale(row, experiment, targets);
    lemma_owned_is_held_sum(base, experiment, targets);
    slots::lemma_count_available(base, experiment);
    lemma_sums_balance(base, experiment, targets);
    lemma_excess_freed_counts(base, experiment, targets);
    lemma_shortfall_filled_counts(freed, base, experiment, targets);
}

/// Where reconciling succeeds, every variant holds exactly its target, the
/// experiment has no other bucket, and what is left of the buckets that it may
/// use is vacant.
pub proof fn reconciling_meets_targets(
    row: Slots,
    experiment: Seq<char>,
    targets: Seq<TargetView>,
)
    requires
        distinct_targets(targets),
        allocation::reconciled(row, experiment, targets).shortage is None,
    ensures
        ({
            let after = allocation::reconciled(row, experiment, targets).slots;
            &&& forall|i: int|
                0 <= i < targets.len() ==> allocation::held(
                    after,
                    experiment,
                    (#[trigger] targets[i]).variant_id,
                ) == targets[i].buckets
            &&& forall|i: int|
                0 <= i < after.len() && slots::owned_by(experiment)(#[trigger] after[i])
                    ==> allocation::has_target(targets, after[i]->0.variant_id)
            &&& slots::count(after, slots::owned_by(experiment)) == target_sum(targets)
            &&& slots::count(after, slots::vacant()) == slots::count(
                row,
                slots::available_to(experiment),
            ) - target_sum(targets)
        }),
{
    let base = allocation::without_stale(row, experiment, targets);
    let freed = allocation::excess_freed(base, base, experiment, targets);
    let after = allocation::reconciled(row, experiment, targets).slots;
    lemma_without_stale(row, experiment, targets);
    lemma_owned_is_held_sum(base, experiment, targets);
    slots::lemma_count_available(base, experiment);
    lemma_sums_balance(base, experiment, targets);
    lemma_excess_freed_counts(base, experiment, targets);
    lemma_shortfall_filled_counts(freed, base, experiment, targets);
    assert forall|i: int| 0 <= i < targets.len() implies allocation::held(
        after,
        experiment,
        (#[trigger] targets[i]).variant_id,
    ) == targets[i].buckets by {}
    lemma_excess_freed_frame(base, base, experiment, targets);
    lemma_shortfall_filled_frame(freed, base, experiment, targets);
    assert forall|i: int|
        0 <= i < after.len() && slots::owned_by(experiment)(
            #[trigger] after[i],
        ) implies allocation::has_target(targets, after[i]->0.variant_id) by {
        if after[i] == freed[i] {
            assert(freed[i] == base[i]);
        }
    }
    lemma_owned_is_held_sum(after, experiment, targets);
    lemma_held_sum_is_target_sum(after, experiment, targets);
}

proof fn lemma_held_sum_is_target_sum(
    row: Slots,
    experiment: Seq<char>,
    targets: Seq<TargetView>,
)
    requires
        forall|i: int|
            0 <= i < targets.len() ==> allocation::held(
                row,
                experiment,
                (#[trigger] targets[i]).variant_id,
            ) == targets[i].buckets,
    ensures
        held_sum(row, experiment, targets) == target_sum(targets),
    decreases targets.len(),
{
    if targets.len() > 0 {
        let shorter = targets.drop_last();
        assert forall|i: int| 0 <= i < shorter.len() implies allocation::held(
            row,
            experiment,
            (#[trigger] shorter[i]).variant_id,
        ) == shorter[i].buckets by {
            assert(shorter[i] == targets[i]);
        }
        lemma_held_sum_is_target_sum(row, experiment, shorter);
        assert(targets.last() == targets[targets.len() - 1]);
    }
}

/// A variant that does not exceed its target keeps every bucket it holds.
pub proof fn reconciling_keeps_buckets_of_growing_variants(
    row: Slots,
    experiment: Seq<char>,
    targets: Seq<TargetView>,
    k: int,
    i: int,
)
    requires
        distinct_targets(targets),
        0 <= k < targets.len(),
        allocation::held(row, experiment, targets[k].variant_id) <= targets[k].buckets,
        0 <= i < row.len(),
        slots::held_by(experiment, targets[k].variant_id)(row[i]),
    ensures
        allocation::reconciled(row, experiment, targets).slots[i] == row[i],
{
    let base = allocation::without_stale(row, experiment, targets);
    let freed = allocation::excess_freed(base, base, experiment, targets);
    assert(allocation::has_target(targets, targets[k].variant_id));
    lemma_without_stale(row, experiment, targets);
    lemma_excess_freed_frame(base, base, experiment, targets);
    lemma_shortfall_filled_frame(freed, base, experiment, targets);
    assert(base[i] == row[i]);
    if freed[i] != base[i] {
        let j = choose|j: int|
            0 <= j < targets.len() && (#[trigger] targets[j]).variant_id == base[i]->0.variant_id
                && targets[j].buckets < allocation::held(base, experiment, targets[j].variant_id);
        if j < k {
            assert(targets[j].variant_id != targets[k].variant_id);
        }
        if k < j {
            assert(targets[k].variant_id != targets[j].variant_id);
        }
    }
    let after = allocation::reconciled(row, experiment, targets).slots;
    assert(after[i] == freed[i]);
}

proof fn lemma_nothing_to_do(
    row: Slots,
    experiment: Seq<char>,
    targets: Seq<TargetView>,
)
    requires
        forall|i: int|
            0 <= i < targets.len() ==> allocation::held(
                row,
                experiment,
                (#[trigger] targets[i]).variant_id,
            ) == targets[i].buckets,
    ensures
        allocation::excess_freed(row, row, experiment, targets) == row,
        allocation::shortfall_filled(row, row, experiment, targets) == (FillView {
            slots: row,
            shortage: None,
        }),
    decreases targets.len(),
{
    if targets.len() > 0 {
        let shorter = targets.drop_last();
        let target = targets.last();
        assert forall|i: int| 0 <= i < shorter.len() implies allocation::held(
            row,
            experiment,
            (#[trigger] shorter[i]).variant_id,
        ) == shorter[i].buckets by {
            assert(shorter[i] == targets[i]);
        }
        lemma_nothing_to_do(row, experiment, shorter);
        assert(target == targets[targets.len() - 1]);
        slots::lemma_replace_none(row, slots::held_by(experiment, target.variant_id), None);
        slots::lemma_replace_none(
            row,
            slots::vacant(),
            Some(BucketView { experiment_id: experiment, variant_id: target.variant_id }),
        );
    }
}

/// Reconciling twice with the same targets is reconciling once.
pub proof fn reconciling_again_changes_nothing(
    row: Slots,
    experiment: Seq<char>,
    targets: Seq<TargetView>,
)
    requires
        distinct_targets(targets),
        allocation::reconciled(row, experiment, targets).shortage is None,
    ensures
        allocation::reconciled(
            allocation::reconciled(row, experiment, targets).slots,
            experiment,
            targets,
        ) == allocation::reconciled(row, experiment, targets),
{
    let after = allocation::reconciled(row, experiment, targets).slots;
    reconciling_meets_targets(row, experiment, targets);
    assert(allocation::without_stale(after, experiment, targets) =~= after);
    lemma_nothing_to_do(after, experiment, targets);
}

/// An experiment whose buckets were freed has none left, and every bucket that
/// was not its own is as it was.
pub proof fn freeing_clears_the_experiment_alone(row: Slots, experiment: Seq<char>)
    ensures
        ({
            let after = allocation::without_experiment(row, experiment);
            &&& after.len() == row.len()
            &&& slots::count(after, slots::owned_by(experiment)) == 0
            &&& slots::count(after, slots::vacant()) == slots::count(
                row,
                slots::available_to(experiment),
            )
            &&& forall|i: int|
                0 <= i < row.len() && !slots::owned_by(experiment)(row[i])
                    ==> #[trigger] after[i] == row[i]
        }),
{
    let after = allocation::without_experiment(row, experiment);
    slots::lemma_count_none(after, slots::owned_by(experiment));
    slots::lemma_count_match(after, slots::vacant(), row, slots::available_to(experiment));
}

/// Freeing undoes an allocation: where the experiment had no bucket before it
/// was given some, or before it was refused for want of room, freeing restores
/// the row.
pub proof fn freeing_undoes_reconciling(
    row: Slots,
    experiment: Seq<char>,
    targets: Seq<TargetView>,
)
    requires
        slots::count(row, slots::owned_by(experiment)) == 0,
    ensures
        allocation::without_experiment(
            allocation::reconciled(row, experiment, targets).slots,
            experiment,
        ) == row,
{
    let after = allocation::reconciled(row, experiment, targets).slots;
    slots::lemma_count_none(row, slots::owned_by(experiment));
    reconciling_spares_other_experiments(row, experiment, targets);
    let restored = allocation::without_experiment(after, experiment);
    assert forall|i: int| 0 <= i < row.len() implies #[trigger] restored[i] == row[i] by {
        assert(!slots::owned_by(experiment)(row[i]));
        if after[i] != row[i] {
            assert(slots::available_to(experiment)(row[i]));
        }
    }
    assert(restored =~= row);
}

/// The first `k` buckets of a row are the occupied ones.
pub open spec fn occupied_first(row: Slots, k: int) -> bool {
    forall|i: int| 0 <= i < row.len() ==> (#[trigger] row[i] is None <==> i >= k)
}

proof fn lemma_vacant_behind(row: Slots, k: int, i: int)
    requires
        occupied_first(row, k),
        0 <= k,
        0 <= i <= row.len(),
    ensures
        slots::count(row.take(i), slots::vacant()) == if i <= k {
            0
        } else {
            i - k
        },
    decreases i,
{
    if i > 0 {
        lemma_vacant_behind(row, k, i - 1);
        slots::lemma_count_step(row, slots::vacant(), i - 1);
        assert(row[i - 1] is None <==> i - 1 >= k);
    }
}

pub(crate) proof fn lemma_occupied_count(row: Slots, k: int)
    requires
        occupied_first(row, k),
        0 <= k <= row.len(),
    ensures
        slots::count(row, slots::vacant()) == row.len() - k,
{
    lemma_vacant_behind(row, k, row.len() as int);
    assert(row.take(row.len() as int) =~= row);
}

/// Filling a vacant row occupies its first buckets.
proof fn lemma_fill_occupies_first(
    row: Slots,
    experiment: Seq<char>,
    targets: Seq<TargetView>,
)
    requires
        occupied_first(row, 0),
    ensures
        ({
            let outcome = allocation::shortfall_filled(row, row, experiment, targets);
            &&& outcome.slots.len() == row.len()
            &&& outcome.shortage is None <==> target_sum(targets) <= row.len()
            &&& outcome.shortage is None ==> occupied_first(
                outcome.slots,
                target_sum(targets) as int,
            )
        }),
    decreases targets.len(),
{
    if targets.len() > 0 {
        let target = targets.last();
        let shorter = targets.drop_last();
        lemma_fill_occupies_first(row, experiment, shorter);
        let before = allocation::shortfall_filled(row, row, experiment, shorter).slots;
        let filled = allocation::shortfall_filled(row, row, experiment, targets).slots;
        let k = target_sum(shorter) as int;
        if allocation::shortfall_filled(row, row, experiment, shorter).shortage is None {
            lemma_occupied_count(before, k);
        }
        slots::lemma_count_none(row, slots::held_by(experiment, target.variant_id));
        assert(allocation::held(row, experiment, target.variant_id) == 0) by {
            assert forall|i: int| 0 <= i < row.len() implies !slots::held_by(
                experiment,
                target.variant_id,
            )(#[trigger] row[i]) by {
                assert(row[i] is None);
            }
        }
        if allocation::shortfall_filled(row, row, experiment, targets).shortage is None {
            assert forall|i: int| 0 <= i < filled.len() implies (#[trigger] filled[i] is None
                <==> i >= k + target.buckets) by {
                lemma_vacant_behind(before, k, i);
                assert(before[i] is None <==> i >= k);
            }
        }
    }
}

proof fn lemma_freeing_vacant_row(row: Slots, experiment: Seq<char>, targets: Seq<TargetView>)
    requires
        occupied_first(row, 0),
    ensures
        allocation::excess_freed(row, row, experiment, targets) == row,
        allocation::without_stale(row, experiment, targets) == row,
    decreases targets.len(),
{
    assert(allocation::without_stale(row, experiment, targets) =~= row) by {
        assert forall|i: int| 0 <= i < row.len() implies #[trigger] allocation::without_stale(
            row,
            experiment,
            targets,
        )[i] == row[i] by {
            assert(row[i] is None);
        }
    }
    if targets.len() > 0 {
        let target = targets.last();
        lemma_freeing_vacant_row(row, experiment, targets.drop_last());
        let n = slots::excess(
            allocation::held(row, experiment, target.variant_id),
            target.buckets,
        );
        let kind = slots::held_by(experiment, target.variant_id);
        assert(slots::replace_first(row, kind, n, None) =~= row) by {
            assert forall|i: int| 0 <= i < row.len() implies #[trigger] slots::replace_first(
                row,
                kind,
                n,
                None,
            )[i] == row[i] by {
                assert(row[i] is None);
            }
        }
    }
}

/// In a vacant row the targets find room exactly where they are together no more
/// than the buckets of the row, and then they take the first ones.
pub proof fn reconciling_fills_vacant_rows_from_the_front(
    row: Slots,
    experiment: Seq<char>,
    targets: Seq<TargetView>,
)
    requires
        forall|i: int| 0 <= i < row.len() ==> #[trigger] row[i] is None,
    ensures
        ({
            let outcome = allocation::reconciled(row, experiment, targets);
            &&& outcome.slots.len() == row.len()
            &&& outcome.shortage is None <==> target_sum(targets) <= row.len()
            &&& outcome.shortage is None ==> occupied_first(
                outcome.slots,
                target_sum(targets) as int,
            )
        }),
{
    lemma_freeing_vacant_row(row, experiment, targets);
    lemma_fill_occupies_first(row, experiment, targets);
}

} // verus!
