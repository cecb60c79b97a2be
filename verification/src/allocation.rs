//! How the buckets of a group move when an experiment is ramped or leaves.
use vstd::prelude::*;

use crate::error::{GroupError, GroupErrorView};
use crate::model;
use crate::model::{
    Bucket, BucketView, Buckets, Experiment, ExperimentType, TrafficPercentage, Variant, VariantType,
};
use crate::slots;
use crate::slots::Slots;
use crate::text;
use crate::text::signed_text;

verus! {

/// The number of buckets that a variant is to hold.
pub struct TargetView {
    pub variant_id: Seq<char>,
    pub buckets: nat,
}

/// The targets that a list of pairs stands for.
pub open spec fn target_views(targets: Seq<(String, usize)>) -> Seq<TargetView> {
    targets.map_values(
        |target: (String, usize)| TargetView { variant_id: target.0@, buckets: target.1 as nat },
    )
}

/// How many of the variants are experimental.
pub open spec fn experimental_count(variants: Seq<Variant>) -> nat
    decreases variants.len(),
{
    if variants.len() == 0 {
        0
    } else {
        experimental_count(variants.drop_last()) + if variants.last().variant_type
            == VariantType::EXPERIMENTAL {
            1nat
        } else {
            0
        }
    }
}

/// What the sharer with the given rank gets of `total` shared equally among
/// `sharers`, the remainder going to the first of them one by one.
pub open spec fn equal_share(total: nat, sharers: nat, rank: nat) -> nat {
    if sharers == 0 {
        0
    } else {
        total / sharers + if rank < total % sharers {
            1nat
        } else {
            0
        }
    }
}

/// The number of buckets that the variant at `index` is to hold when the
/// experiment is ramped to `percentage`.
pub open spec fn variant_target(
    experiment_type: ExperimentType,
    variants: Seq<Variant>,
    percentage: nat,
    index: int,
) -> nat {
    match experiment_type {
        ExperimentType::Release => match variants[index].variant_type {
            VariantType::CONTROL => if experimental_count(variants) == 0 {
                100
            } else {
                slots::excess(100, percentage)
            },
            VariantType::EXPERIMENTAL => equal_share(
                percentage,
                experimental_count(variants),
                experimental_count(variants.take(index)),
            ),
        },
        ExperimentType::Default | ExperimentType::DeleteOverrides => percentage,
    }
}

/// The targets of all variants, in their order.
pub open spec fn variant_targets(
    experiment_type: ExperimentType,
    variants: Seq<Variant>,
    percentage: nat,
) -> Seq<TargetView> {
    Seq::new(
        variants.len(),
        |i: int|
            TargetView {
                variant_id: variants[i].id@,
                buckets: variant_target(experiment_type, variants, percentage, i),
            },
    )
}

/// Whether a variant is among the targets.
pub open spec fn has_target(targets: Seq<TargetView>, variant: Seq<char>) -> bool {
    exists|i: int| 0 <= i < targets.len() && (#[trigger] targets[i]).variant_id == variant
}

/// The row after the experiment has given up the buckets of variants that have
/// no target.
pub open spec fn without_stale(
    slots: Slots,
    experiment: Seq<char>,
    targets: Seq<TargetView>,
) -> Slots {
    slots.map_values(
        |slot: Option<BucketView>|
            if slots::owned_by(experiment)(slot) && !has_target(
                targets,
                slot->0.variant_id,
            ) {
                None
            } else {
                slot
            },
    )
}

/// How many buckets a variant holds.
pub open spec fn held(
    slots: Slots,
    experiment: Seq<char>,
    variant: Seq<char>,
) -> nat {
    slots::count(slots, slots::held_by(experiment, variant))
}

/// The row after each variant that holds more than its target in `base` has
/// given up as many of its first buckets.
pub open spec fn excess_freed(
    slots: Slots,
    base: Slots,
    experiment: Seq<char>,
    targets: Seq<TargetView>,
) -> Slots
    decreases targets.len(),
{
    if targets.len() == 0 {
        slots
    } else {
        let target = targets.last();
        slots::replace_first(
            excess_freed(slots, base, experiment, targets.drop_last()),
            slots::held_by(experiment, target.variant_id),
            slots::excess(held(base, experiment, target.variant_id), target.buckets),
            None,
        )
    }
}

/// How many buckets of which variant found no room.
pub struct ShortageView {
    pub required: nat,
    pub variant_id: Seq<char>,
}

/// A row, and what found no room in it, if anything.
pub struct FillView {
    pub slots: Slots,
    pub shortage: Option<ShortageView>,
}

/// Whether a result tells of the shortage of `outcome`, if it has one, and of
/// success otherwise.
pub open spec fn tells_shortage(result: Result<(), GroupError>, outcome: FillView) -> bool {
    match outcome.shortage {
        None => result is Ok,
        Some(shortage) => result is Err && result->Err_0@ == (GroupErrorView::NotEnoughBuckets {
            required: shortage.required,
            variant_id: shortage.variant_id,
        }),
    }
}

/// The row after each variant that holds less than its target in `base` has
/// taken as many of the first vacant buckets, up to the first variant for which
/// they do not suffice. That one takes those that are left.
pub open spec fn shortfall_filled(
    slots: Slots,
    base: Slots,
    experiment: Seq<char>,
    targets: Seq<TargetView>,
) -> FillView
    decreases targets.len(),
{
    if targets.len() == 0 {
        FillView { slots, shortage: None }
    } else {
        let before = shortfall_filled(slots, base, experiment, targets.drop_last());
        if before.shortage is Some {
            before
        } else {
            let target = targets.last();
            let missing = slots::excess(
                target.buckets,
                held(base, experiment, target.variant_id),
            );
            let room = slots::count(before.slots, slots::vacant());
            FillView {
                slots: slots::replace_first(
                    before.slots,
                    slots::vacant(),
                    missing,
                    Some(
                        BucketView {
                            experiment_id: experiment,
                            variant_id: target.variant_id,
                        },
                    ),
                ),
                shortage: if missing > room {
                    Some(
                        ShortageView {
                            required: (missing - room) as nat,
                            variant_id: target.variant_id,
                        },
                    )
                } else {
                    None
                },
            }
        }
    }
}

/// The row after the experiment's buckets have been brought to their targets:
/// buckets without a target are given up, then those above a target, and only
/// then vacant ones are taken.
pub open spec fn reconciled(
    slots: Slots,
    experiment: Seq<char>,
    targets: Seq<TargetView>,
) -> FillView {
    let base = without_stale(slots, experiment, targets);
    shortfall_filled(excess_freed(base, base, experiment, targets), base, experiment, targets)
}

/// The row after an experiment has been ramped to `percentage`.
pub open spec fn ramped(
    slots: Slots,
    experiment_id: i64,
    experiment_type: ExperimentType,
    variants: Seq<Variant>,
    percentage: nat,
) -> FillView {
    reconciled(
        slots,
        text::decimal(experiment_id as int),
        variant_targets(experiment_type, variants, percentage),
    )
}

/// The row after an experiment has given up all its buckets.
pub open spec fn without_experiment(
    slots: Slots,
    experiment: Seq<char>,
) -> Slots {
    slots.map_values(
        |slot: Option<BucketView>|
            if slots::owned_by(experiment)(slot) {
                None
            } else {
                slot
            },
    )
}

/// The buckets that the variants of `experiment` are to hold when it is ramped
/// to the given percentage.
///
/// For a release the control variant absorbs the rest of the traffic and the
/// experimental variants share the percentage equally, the remainder going to
/// the first of them. Where no variant is experimental the control variant gets
/// all of the traffic. In any other experiment every variant gets the percentage.
pub fn variant_bucket_targets(
    experiment: &Experiment,
    exp_traffic_percentage: &TrafficPercentage,
) -> (targets: Vec<(String, usize)>)
    ensures
        target_views(targets@) == variant_targets(
            experiment.experiment_type,
            experiment.variants.list@,
            exp_traffic_percentage@,
        ),
{
    let variants = &experiment.variants.list;
    let percentage = exp_traffic_percentage.value() as usize;
    let is_release = experiment.experiment_type == ExperimentType::Release;
    let sharers = count_experimental(variants);
    let base: usize = if sharers == 0 { 0 } else { percentage / sharers };
    let remainder: usize = if sharers == 0 { 0 } else { percentage % sharers };
    let mut targets: Vec<(String, usize)> = Vec::new();
    let mut rank: usize = 0;
    let mut i: usize = 0;
    let ghost expected = variant_targets(
        experiment.experiment_type,
        variants@,
        exp_traffic_percentage@,
    );
    while i < variants.len()
        invariant
            i <= variants.len(),
            rank <= i,
            variants@ == experiment.variants.list@,
            is_release == (experiment.experiment_type == ExperimentType::Release),
            percentage == exp_traffic_percentage@,
            percentage <= 100,
            sharers == experimental_count(variants@),
            sharers > 0 ==> base == percentage / sharers && remainder == percentage % sharers,
            sharers == 0 ==> base == 0 && remainder == 0,
            base <= percentage,
            is_release ==> rank == experimental_count(variants@.take(i as int)),
            expected == variant_targets(
                experiment.experiment_type,
                variants@,
                exp_traffic_percentage@,
            ),
            target_views(targets@) == expected.take(i as int),
        decreases variants.len() - i,
    {
        let ghost before = targets@;
        let variant = &variants[i];
        proof {
            lemma_experimental_step(variants@, i as int);
            lemma_experimental_prefix(variants@, i + 1);
        }
        let target: usize = if is_release {
            match variant.variant_type {
                VariantType::CONTROL => if sharers == 0 {
                    100
                } else {
                    100usize.saturating_sub(percentage)
                },
                VariantType::EXPERIMENTAL => {
                    let extra: usize = if rank < remainder { 1 } else { 0 };
                    rank += 1;
                    base + extra
                },
            }
        } else {
            percentage
        };
        targets.push((variant.id.clone(), target));
        assert(target_views(targets@) =~= target_views(before).push(expected[i as int]));
        assert(expected.take(i + 1) =~= expected.take(i as int).push(expected[i as int]));
        i += 1;
    }
    assert(expected.take(i as int) =~= expected);
    targets
}

proof fn lemma_experimental_step(variants: Seq<Variant>, i: int)
    requires
        0 <= i < variants.len(),
    ensures
        experimental_count(variants.take(i + 1)) == experimental_count(variants.take(i))
            + if variants[i].variant_type == VariantType::EXPERIMENTAL {
            1nat
        } else {
            0
        },
{
    assert(variants.take(i + 1).drop_last() =~= variants.take(i));
}

proof fn lemma_experimental_prefix(variants: Seq<Variant>, i: int)
    requires
        0 <= i <= variants.len(),
    ensures
        experimental_count(variants.take(i)) <= experimental_count(variants),
    decreases variants.len() - i,
{
    if i < variants.len() {
        lemma_experimental_step(variants, i);
        lemma_experimental_prefix(variants, i + 1);
    } else {
        assert(variants.take(i) =~= variants);
    }
}

/// How many of the variants are experimental.
pub fn count_experimental(variants: &Vec<Variant>) -> (found: usize)
    ensures
        found == experimental_count(variants@),
        found <= variants@.len(),
{
    let mut found: usize = 0;
    let mut i: usize = 0;
    while i < variants.len()
        invariant
            found <= i <= variants.len(),
            found == experimental_count(variants@.take(i as int)),
        decreases variants.len() - i,
    {
        proof {
            lemma_experimental_step(variants@, i as int);
        }
        if variants[i].variant_type == VariantType::EXPERIMENTAL {
            found += 1;
        }
        i += 1;
    }
    assert(variants@.take(i as int) =~= variants@);
    found
}

/// Whether a variant is among the targets.
fn is_target(targets: &Vec<(String, usize)>, variant_id: &String) -> (found: bool)
    ensures
        found == has_target(target_views(targets@), variant_id@),
{
    let mut i: usize = 0;
    while i < targets.len()
        invariant
            i <= targets.len(),
            forall|j: int| 0 <= j < i ==> (#[trigger] targets[j]).0@ != variant_id@,
        decreases targets.len() - i,
    {
        if targets[i].0 == *variant_id {
            assert(target_views(targets@)[i as int].variant_id == variant_id@);
            return true;
        }
        i += 1;
    }
    assert forall|j: int| 0 <= j < targets.len() implies (#[trigger] target_views(
        targets@,
    )[j]).variant_id != variant_id@ by {
        assert(targets[j].0@ != variant_id@);
    }
    false
}

/// Whether a bucket holds the given variant of the given experiment.
fn holds(slot: &Option<Bucket>, experiment_id: &String, variant_id: &String) -> (held: bool)
    ensures
        held == slots::held_by(experiment_id@, variant_id@)(model::slot_view(*slot)),
{
    match slot {
        Some(bucket) => bucket.experiment_id == *experiment_id && bucket.variant_id == *variant_id,
        None => false,
    }
}

/// Whether a bucket belongs to the given experiment.
fn belongs_to(slot: &Option<Bucket>, experiment_id: &String) -> (owned: bool)
    ensures
        owned == slots::owned_by(experiment_id@)(model::slot_view(*slot)),
{
    match slot {
        Some(bucket) => bucket.experiment_id == *experiment_id,
        None => false,
    }
}

/// How many buckets a variant holds.
fn count_held(buckets: &Buckets, experiment_id: &String, variant_id: &String) -> (found: usize)
    ensures
        found == held(buckets@, experiment_id@, variant_id@),
{
    let ghost kind = slots::held_by(experiment_id@, variant_id@);
    let mut found: usize = 0;
    let mut i: usize = 0;
    while i < buckets.slots.len()
        invariant
            found <= i <= buckets.slots.len(),
            kind == slots::held_by(experiment_id@, variant_id@),
            found == slots::count(buckets@.take(i as int), kind),
        decreases buckets.slots.len() - i,
    {
        proof {
            slots::lemma_count_step(buckets@, kind, i as int);
        }
        if holds(&buckets.slots[i], experiment_id, variant_id) {
            found += 1;
        }
        i += 1;
    }
    assert(buckets@.take(i as int) =~= buckets@);
    found
}

/// Makes the first `n` buckets of a variant vacant.
fn free_first(buckets: &mut Buckets, experiment_id: &String, variant_id: &String, n: usize)
    ensures
        final(buckets)@ == slots::replace_first(
            old(buckets)@,
            slots::held_by(experiment_id@, variant_id@),
            n as nat,
            None,
        ),
{
    let ghost kind = slots::held_by(experiment_id@, variant_id@);
    let ghost start = buckets@;
    let ghost expected = slots::replace_first(start, kind, n as nat, None);
    let mut to_remove: usize = n;
    let mut i: usize = 0;
    while i < buckets.slots.len() && to_remove > 0
        invariant
            i <= buckets.slots.len(),
            buckets@.len() == start.len(),
            to_remove <= n,
            kind == slots::held_by(experiment_id@, variant_id@),
            expected == slots::replace_first(start, kind, n as nat, None),
            slots::count(start.take(i as int), kind) == n - to_remove,
            forall|j: int| 0 <= j < i ==> #[trigger] buckets@[j] == expected[j],
            forall|j: int| i <= j < start.len() ==> #[trigger] buckets@[j] == start[j],
        decreases buckets.slots.len() - i,
    {
        proof {
            slots::lemma_count_step(start, kind, i as int);
            assert(buckets@[i as int] == start[i as int]);
        }
        let ghost before = buckets@;
        if holds(&buckets.slots[i], experiment_id, variant_id) {
            buckets.slots.set(i, None);
            to_remove -= 1;
            assert(buckets@ =~= before.update(i as int, None));
        }
        i += 1;
    }
    proof {
        assert forall|j: int| i <= j < start.len() implies #[trigger] expected[j] == start[j] by {
            slots::lemma_count_prefix(start.take(j), kind, i as int);
            assert(start.take(j).take(i as int) =~= start.take(i as int));
        }
        assert(buckets@ =~= expected);
    }
}

/// Gives the first `n` vacant buckets to a variant. The result is how many of
/// them there were not.
fn fill_first(buckets: &mut Buckets, experiment_id: &String, variant_id: &String, n: usize) -> (lack:
    usize)
    ensures
        final(buckets)@ == slots::replace_first(
            old(buckets)@,
            slots::vacant(),
            n as nat,
            Some(
                BucketView {
                    experiment_id: experiment_id@,
                    variant_id: variant_id@,
                },
            ),
        ),
        lack == slots::excess(
            n as nat,
            slots::count(old(buckets)@, slots::vacant()),
        ),
{
    let ghost kind = slots::vacant();
    let ghost start = buckets@;
    let ghost slot = Some(
        BucketView { experiment_id: experiment_id@, variant_id: variant_id@ },
    );
    let ghost expected = slots::replace_first(start, kind, n as nat, slot);
    let mut to_add: usize = n;
    let mut i: usize = 0;
    while i < buckets.slots.len() && to_add > 0
        invariant
            i <= buckets.slots.len(),
            buckets@.len() == start.len(),
            to_add <= n,
            kind == slots::vacant(),
            slot == Some(
                BucketView { experiment_id: experiment_id@, variant_id: variant_id@ },
            ),
            expected == slots::replace_first(start, kind, n as nat, slot),
            slots::count(start.take(i as int), kind) == n - to_add,
            forall|j: int| 0 <= j < i ==> #[trigger] buckets@[j] == expected[j],
            forall|j: int| i <= j < start.len() ==> #[trigger] buckets@[j] == start[j],
        decreases buckets.slots.len() - i,
    {
        proof {
            slots::lemma_count_step(start, kind, i as int);
            assert(buckets@[i as int] == start[i as int]);
        }
        let ghost before = buckets@;
        if buckets.slots[i].is_none() {
            let bucket = Bucket {
                experiment_id: experiment_id.clone(),
                variant_id: variant_id.clone(),
            };
            buckets.slots.set(i, Some(bucket));
            to_add -= 1;
            assert(buckets@ =~= before.update(i as int, slot));
        }
        i += 1;
    }
    proof {
        slots::lemma_count_prefix(start, kind, i as int);
        if to_add > 0 {
            assert(start.take(i as int) =~= start);
        }
        assert forall|j: int| i <= j < start.len() implies #[trigger] expected[j] == start[j] by {
            slots::lemma_count_prefix(start.take(j), kind, i as int);
            assert(start.take(j).take(i as int) =~= start.take(i as int));
        }
        assert(buckets@ =~= expected);
    }
    to_add
}

/// Makes vacant the buckets of the experiment whose variant has no target.
fn free_stale(buckets: &mut Buckets, experiment_id: &String, targets: &Vec<(String, usize)>)
    ensures
        final(buckets)@ == without_stale(old(buckets)@, experiment_id@, target_views(targets@)),
{
    let ghost start = buckets@;
    let ghost expected = without_stale(start, experiment_id@, target_views(targets@));
    let mut i: usize = 0;
    while i < buckets.slots.len()
        invariant
            i <= buckets.slots.len(),
            buckets@.len() == start.len(),
            expected == without_stale(start, experiment_id@, target_views(targets@)),
            forall|j: int| 0 <= j < i ==> #[trigger] buckets@[j] == expected[j],
            forall|j: int| i <= j < start.len() ==> #[trigger] buckets@[j] == start[j],
        decreases buckets.slots.len() - i,
    {
        let ghost before = buckets@;
        assert(before[i as int] == start[i as int]);
        let stale = match &buckets.slots[i] {
            Some(bucket) => bucket.experiment_id == *experiment_id && !is_target(
                targets,
                &bucket.variant_id,
            ),
            None => false,
        };
        if stale {
            buckets.slots.set(i, None);
            assert(buckets@ =~= before.update(i as int, None));
        }
        i += 1;
    }
    assert(buckets@ =~= expected);
}

/// Brings the experiment's buckets to the given targets.
///
/// Buckets are given up before others are taken: a release keeps every bucket
/// filled, so that a variant can grow only into what another one leaves.
pub fn reconcile_buckets(
    experiment: &Experiment,
    exp_group_buckets: &mut Buckets,
    targets: &Vec<(String, usize)>,
) -> (result: Result<(), GroupError>)
    ensures
        ({
            let outcome = reconciled(
                old(exp_group_buckets)@,
                text::decimal(experiment.id as int),
                target_views(targets@),
            );
            &&& final(exp_group_buckets)@ == outcome.slots
            &&& tells_shortage(result, outcome)
        }),
{
    let experiment_id = signed_text(experiment.id);
    let ghost views = target_views(targets@);

    free_stale(exp_group_buckets, &experiment_id, targets);
    let ghost base = exp_group_buckets@;

    let mut current_counts: Vec<usize> = Vec::new();
    while current_counts.len() < targets.len()
        invariant
            exp_group_buckets@ == base,
            current_counts.len() <= targets.len(),
            forall|j: int|
                0 <= j < current_counts.len() ==> (#[trigger] current_counts[j]) == held(
                    base,
                    experiment_id@,
                    targets[j].0@,
                ),
        decreases targets.len() - current_counts.len(),
    {
        let i = current_counts.len();
        let current = count_held(exp_group_buckets, &experiment_id, &targets[i].0);
        current_counts.push(current);
    }

    let mut i: usize = 0;
    while i < targets.len()
        invariant
            i <= targets.len(),
            views == target_views(targets@),
            current_counts.len() == targets.len(),
            forall|j: int|
                0 <= j < targets.len() ==> (#[trigger] current_counts[j]) == held(
                    base,
                    experiment_id@,
                    targets[j].0@,
                ),
            exp_group_buckets@ == excess_freed(base, base, experiment_id@, views.take(i as int)),
        decreases targets.len() - i,
    {
        proof {
            assert(views.take(i + 1).drop_last() =~= views.take(i as int));
            assert(views.take(i + 1).last() == views[i as int]);
        }
        let to_remove = current_counts[i].saturating_sub(targets[i].1);
        free_first(exp_group_buckets, &experiment_id, &targets[i].0, to_remove);
        i += 1;
    }
    assert(views.take(i as int) =~= views);
    let ghost freed = exp_group_buckets@;

    i = 0;
    while i < targets.len()
        invariant
            i <= targets.len(),
            views == target_views(targets@),
            current_counts.len() == targets.len(),
            forall|j: int|
                0 <= j < targets.len() ==> (#[trigger] current_counts[j]) == held(
                    base,
                    experiment_id@,
                    targets[j].0@,
                ),
            experiment_id@ == text::decimal(experiment.id as int),
            base == without_stale(old(exp_group_buckets)@, experiment_id@, views),
            freed == excess_freed(base, base, experiment_id@, views),
            shortfall_filled(freed, base, experiment_id@, views.take(i as int)) == (FillView {
                slots: exp_group_buckets@,
                shortage: None,
            }),
        decreases targets.len() - i,
    {
        proof {
            assert(views.take(i + 1).drop_last() =~= views.take(i as int));
            assert(views.take(i + 1).last() == views[i as int]);
        }
        let to_add = targets[i].1.saturating_sub(current_counts[i]);
        let lack = fill_first(exp_group_buckets, &experiment_id, &targets[i].0, to_add);
        if lack > 0 {
            proof {
                lemma_shortage_stays(freed, base, experiment_id@, views, i + 1);
            }
            return Err(
                GroupError::NotEnoughBuckets { required: lack, variant_id: targets[i].0.clone() },
            );
        }
        i += 1;
    }
    assert(views.take(i as int) =~= views);
    Ok(())
}

/// Once vacant buckets do not suffice, the row is left as it is.
proof fn lemma_shortage_stays(
    slots: Slots,
    base: Slots,
    experiment: Seq<char>,
    targets: Seq<TargetView>,
    i: int,
)
    requires
        0 <= i <= targets.len(),
        shortfall_filled(slots, base, experiment, targets.take(i)).shortage is Some,
    ensures
        shortfall_filled(slots, base, experiment, targets) == shortfall_filled(
            slots,
            base,
            experiment,
            targets.take(i),
        ),
    decreases targets.len(),
{
    if i < targets.len() {
        assert(targets.drop_last().take(i) =~= targets.take(i));
        lemma_shortage_stays(slots, base, experiment, targets.drop_last(), i);
    } else {
        assert(targets.take(i) =~= targets);
    }
}

/// Moves the group's buckets to what the experiment's variants are to hold at
/// the given percentage.
pub fn update_bucket_allocation(
    experiment: &Experiment,
    exp_group_buckets: &mut Buckets,
    exp_traffic_percentage: &TrafficPercentage,
) -> (result: Result<(), GroupError>)
    ensures
        ({
            let outcome = ramped(
                old(exp_group_buckets)@,
                experiment.id,
                experiment.experiment_type,
                experiment.variants.list@,
                exp_traffic_percentage@,
            );
            &&& final(exp_group_buckets)@ == outcome.slots
            &&& tells_shortage(result, outcome)
        }),
{
    let targets = variant_bucket_targets(experiment, exp_traffic_percentage);
    reconcile_buckets(experiment, exp_group_buckets, &targets)
}

/// Makes every bucket of the experiment vacant, whatever its type.
pub fn free_experiment_buckets(experiment: &Experiment, exp_group_buckets: &mut Buckets)
    ensures
        final(exp_group_buckets)@ == without_experiment(
            old(exp_group_buckets)@,
            text::decimal(experiment.id as int),
        ),
{
    let experiment_id = signed_text(experiment.id);
    let ghost start = exp_group_buckets@;
    let ghost expected = without_experiment(start, experiment_id@);
    let mut i: usize = 0;
    while i < exp_group_buckets.slots.len()
        invariant
            i <= exp_group_buckets.slots.len(),
            exp_group_buckets@.len() == start.len(),
            expected == without_experiment(start, experiment_id@),
            forall|j: int| 0 <= j < i ==> #[trigger] exp_group_buckets@[j] == expected[j],
            forall|j: int|
                i <= j < start.len() ==> #[trigger] exp_group_buckets@[j] == start[j],
        decreases exp_group_buckets.slots.len() - i,
    {
        let ghost before = exp_group_buckets@;
        assert(before[i as int] == start[i as int]);
        if belongs_to(&exp_group_buckets.slots[i], &experiment_id) {
            exp_group_buckets.slots.set(i, None);
            assert(exp_group_buckets@ =~= before.update(i as int, None));
        }
        i += 1;
    }
    assert(exp_group_buckets@ =~= expected);
}

} // verus!
