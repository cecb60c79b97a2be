//! What holds of the targets that experiments are ramped to.
use vstd::prelude::*;

use crate::allocation;
use crate::allocation_laws;
use crate::model;
use crate::model::{ExperimentType, Variant, VariantType};
use crate::placement_laws;
use crate::slots;
use crate::slots::Slots;
use crate::text;

verus! {

/// No two variants have the same id.
pub open spec fn distinct_variants(variants: Seq<Variant>) -> bool {
    forall|i: int, j: int|
        0 <= i < j < variants.len() ==> (#[trigger] variants[i]).id@ != (
        #[trigger] variants[j]).id@
}

/// How many of the variants are no experimental ones.
pub open spec fn control_count(variants: Seq<Variant>) -> int {
    variants.len() - allocation::experimental_count(variants)
}

/// What the variants of a release that is ramped to `percentage` get together:
/// every control variant the rest, the experimental ones the percentage. Where no
/// variant is experimental the rest is everything.
pub open spec fn release_traffic(variants: Seq<Variant>, percentage: nat) -> int {
    if allocation::experimental_count(variants) == 0 {
        control_count(variants) * 100
    } else {
        control_count(variants) * (100 - percentage) + percentage
    }
}

/// Whether the variants of a release share all of the traffic. With one control
/// variant they do so at every percentage.
pub open spec fn shares_all_traffic(variants: Seq<Variant>, percentage: nat) -> bool {
    release_traffic(variants, percentage) == 100
}

/// The variants of a release with one control variant share all of the traffic at
/// every percentage, whether or not there are experimental ones.
pub proof fn one_control_variant_shares_all_traffic(variants: Seq<Variant>, percentage: nat)
    requires
        control_count(variants) == 1,
    ensures
        shares_all_traffic(variants, percentage),
{
    assert(1 * (100 - percentage) == 100 - percentage) by (nonlinear_arith);
}

pub(crate) proof fn lemma_distinct_targets(
    experiment_type: ExperimentType,
    variants: Seq<Variant>,
    percentage: nat,
)
    requires
        distinct_variants(variants),
    ensures
        allocation_laws::distinct_targets(
            allocation::variant_targets(experiment_type, variants, percentage),
        ),
{
    let targets = allocation::variant_targets(experiment_type, variants, percentage);
    assert forall|i: int, j: int| 0 <= i < j < targets.len() implies (
    #[trigger] targets[i]).variant_id != (#[trigger] targets[j]).variant_id by {
        assert(variants[i].id@ != variants[j].id@);
    }
}

/// What the first `k` sharers get together.
spec fn first_shares(total: nat, sharers: nat, k: nat) -> nat {
    k * (total / sharers) + slots::lesser(k, total % sharers)
}

proof fn lemma_first_shares_step(total: nat, sharers: nat, k: nat)
    requires
        sharers > 0,
    ensures
        first_shares(total, sharers, k + 1) == first_shares(total, sharers, k)
            + allocation::equal_share(total, sharers, k),
{
    let each = total / sharers;
    assert((k + 1) * each == k * each + each) by (nonlinear_arith);
}

proof fn lemma_release_prefix_sum(variants: Seq<Variant>, percentage: nat, m: int)
    requires
        percentage <= 100,
        0 <= m <= variants.len(),
    ensures
        ({
            let rank = allocation::experimental_count(variants.take(m));
            let sharers = allocation::experimental_count(variants);
            let targets = allocation::variant_targets(
                ExperimentType::Release,
                variants,
                percentage,
            );
            &&& rank <= m
            &&& allocation_laws::target_sum(targets.take(m)) == if sharers == 0 {
                (m - rank) * 100
            } else {
                (m - rank) * (100 - percentage) + first_shares(percentage, sharers, rank)
            }
        }),
    decreases m,
{
    let sharers = allocation::experimental_count(variants);
    let targets = allocation::variant_targets(ExperimentType::Release, variants, percentage);
    if m > 0 {
        lemma_release_prefix_sum(variants, percentage, m - 1);
        let rank = allocation::experimental_count(variants.take(m - 1));
        assert(variants.take(m).drop_last() =~= variants.take(m - 1));
        assert(targets.take(m).drop_last() =~= targets.take(m - 1));
        assert(targets.take(m).last() == targets[m - 1]);
        if sharers > 0 {
            lemma_first_shares_step(percentage, sharers, rank);
        }
        let controls = m - 1 - rank;
        assert((controls + 1) * (100 - percentage) == controls * (100 - percentage) + (100
            - percentage)) by (nonlinear_arith);
    } else {
        assert(0 * (100 - percentage) == 0) by (nonlinear_arith);
        if sharers > 0 {
            assert(0 * (percentage / sharers) == 0) by (nonlinear_arith);
        }
    }
}

/// The targets of a release add up to what its variants get together.
pub proof fn release_targets_sum_to_release_traffic(variants: Seq<Variant>, percentage: nat)
    requires
        percentage <= 100,
    ensures
        allocation_laws::target_sum(
            allocation::variant_targets(ExperimentType::Release, variants, percentage),
        ) == release_traffic(variants, percentage),
{
    let sharers = allocation::experimental_count(variants);
    let targets = allocation::variant_targets(ExperimentType::Release, variants, percentage);
    let m = variants.len() as int;
    lemma_release_prefix_sum(variants, percentage, m);
    assert(variants.take(m) =~= variants);
    assert(targets.take(m) =~= targets);
    if sharers > 0 {
        vstd::arithmetic::div_mod::lemma_fundamental_div_mod(percentage as int, sharers as int);
        vstd::arithmetic::div_mod::lemma_mod_bound(percentage as int, sharers as int);
    }
}

/// The targets of a release whose variants share all of the traffic add up to 100,
/// so that every request lands on a variant.
pub proof fn release_targets_sum_to_hundred(variants: Seq<Variant>, percentage: nat)
    requires
        shares_all_traffic(variants, percentage),
        percentage <= 100,
    ensures
        allocation_laws::target_sum(
            allocation::variant_targets(ExperimentType::Release, variants, percentage),
        ) == 100,
{
    release_targets_sum_to_release_traffic(variants, percentage);
}

/// In an experiment that is no release every variant gets the percentage, so
/// the targets add up to the percentage times the number of variants.
pub proof fn other_targets_sum_to_product(
    experiment_type: ExperimentType,
    variants: Seq<Variant>,
    percentage: nat,
)
    requires
        experiment_type != ExperimentType::Release,
    ensures
        allocation_laws::target_sum(
            allocation::variant_targets(experiment_type, variants, percentage),
        ) == percentage * variants.len(),
    decreases variants.len(),
{
    let targets = allocation::variant_targets(experiment_type, variants, percentage);
    if variants.len() > 0 {
        let shorter = variants.drop_last();
        other_targets_sum_to_product(experiment_type, shorter, percentage);
        assert(targets.drop_last() =~= allocation::variant_targets(
            experiment_type,
            shorter,
            percentage,
        ));
        assert(percentage * variants.len() == percentage * shorter.len() + percentage)
            by (nonlinear_arith)
            requires
                variants.len() == shorter.len() + 1,
        ;
    } else {
        assert(percentage * variants.len() == 0) by (nonlinear_arith)
            requires
                variants.len() == 0,
        ;
    }
}

/// The targets of an experiment add up to the traffic that it covers.
pub proof fn targets_sum_to_covered_traffic(
    experiment_type: ExperimentType,
    variants: Seq<Variant>,
    percentage: nat,
)
    requires
        experiment_type == ExperimentType::Release ==> shares_all_traffic(variants, percentage),
        percentage <= 100,
    ensures
        allocation_laws::target_sum(
            allocation::variant_targets(experiment_type, variants, percentage),
        ) == model::covered_traffic(experiment_type, percentage, variants.len()),
{
    if experiment_type == ExperimentType::Release {
        release_targets_sum_to_hundred(variants, percentage);
    } else {
        other_targets_sum_to_product(experiment_type, variants, percentage);
    }
}

proof fn lemma_experimental_monotone(variants: Seq<Variant>, i: int, j: int)
    requires
        0 <= i <= j <= variants.len(),
    ensures
        allocation::experimental_count(variants.take(i)) <= allocation::experimental_count(
            variants.take(j),
        ),
    decreases j - i,
{
    if i < j {
        lemma_experimental_monotone(variants, i, j - 1);
        assert(variants.take(j).drop_last() =~= variants.take(j - 1));
    }
}

/// The experimental variants of a release share the percentage equally: an
/// earlier one gets as many buckets as a later one, or one more.
pub proof fn release_shares_are_equal_up_to_one(
    variants: Seq<Variant>,
    percentage: nat,
    i: int,
    j: int,
)
    requires
        0 <= i < j < variants.len(),
        variants[i].variant_type == VariantType::EXPERIMENTAL,
        variants[j].variant_type == VariantType::EXPERIMENTAL,
    ensures
        ({
            let earlier = allocation::variant_target(
                ExperimentType::Release,
                variants,
                percentage,
                i,
            );
            let later = allocation::variant_target(
                ExperimentType::Release,
                variants,
                percentage,
                j,
            );
            later <= earlier <= later + 1
        }),
{
    lemma_experimental_monotone(variants, i, j);
}

proof fn lemma_share_monotone(less: nat, more: nat, sharers: nat, rank: nat)
    requires
        less <= more,
        sharers > 0,
    ensures
        allocation::equal_share(less, sharers, rank) <= allocation::equal_share(
            more,
            sharers,
            rank,
        ),
{
    vstd::arithmetic::div_mod::lemma_div_is_ordered(less as int, more as int, sharers as int);
    vstd::arithmetic::div_mod::lemma_fundamental_div_mod(less as int, sharers as int);
    vstd::arithmetic::div_mod::lemma_fundamental_div_mod(more as int, sharers as int);
}

/// Ramping a release up never gives an experimental variant fewer buckets and
/// never gives the control variant more.
pub proof fn release_ramp_up_grows_experimental(
    variants: Seq<Variant>,
    less: nat,
    more: nat,
    i: int,
)
    requires
        less <= more,
        0 <= i < variants.len(),
    ensures
        ({
            let before = allocation::variant_target(ExperimentType::Release, variants, less, i);
            let after = allocation::variant_target(ExperimentType::Release, variants, more, i);
            match variants[i].variant_type {
                VariantType::CONTROL => after <= before,
                VariantType::EXPERIMENTAL => before <= after,
            }
        }),
{
    let sharers = allocation::experimental_count(variants);
    if sharers > 0 {
        lemma_share_monotone(
            less,
            more,
            sharers,
            allocation::experimental_count(variants.take(i)),
        );
    }
}

/// At no traffic the control variant of a release still gets every bucket.
pub proof fn release_at_zero_is_all_control(variants: Seq<Variant>, i: int)
    requires
        0 <= i < variants.len(),
    ensures
        allocation::variant_target(ExperimentType::Release, variants, 0, i) == (
        match variants[i].variant_type {
            VariantType::CONTROL => 100nat,
            VariantType::EXPERIMENTAL => 0,
        }),
{
    let sharers = allocation::experimental_count(variants);
    if sharers > 0 {
        vstd::arithmetic::div_mod::lemma_small_mod(0, sharers);
        vstd::arithmetic::div_mod::lemma_fundamental_div_mod(0, sharers as int);
        assert(0nat / sharers == 0) by (nonlinear_arith)
            requires
                sharers > 0,
        ;
    }
}

/// A release in a row of 100 buckets that holds no other experiment always finds
/// room, and afterwards every bucket holds one of its variants.
pub proof fn release_fills_every_bucket(
    row: Slots,
    experiment_id: i64,
    variants: Seq<Variant>,
    percentage: nat,
)
    requires
        shares_all_traffic(variants, percentage),
        distinct_variants(variants),
        percentage <= 100,
        row.len() == 100,
        forall|i: int|
            0 <= i < row.len() ==> slots::available_to(text::decimal(experiment_id as int))(
                #[trigger] row[i],
            ),
    ensures
        ({
            let outcome = allocation::ramped(
                row,
                experiment_id,
                ExperimentType::Release,
                variants,
                percentage,
            );
            &&& outcome.shortage is None
            &&& outcome.slots.len() == 100
            &&& forall|i: int|
                0 <= i < 100 ==> slots::owned_by(text::decimal(experiment_id as int))(
                    #[trigger] outcome.slots[i],
                ) && exists|k: int|
                    0 <= k < variants.len() && (#[trigger] variants[k]).id@
                        == outcome.slots[i]->0.variant_id
        }),
{
    let experiment = text::decimal(experiment_id as int);
    let targets = allocation::variant_targets(ExperimentType::Release, variants, percentage);
    let after = allocation::reconciled(row, experiment, targets).slots;
    lemma_distinct_targets(ExperimentType::Release, variants, percentage);
    release_targets_sum_to_hundred(variants, percentage);
    slots::lemma_count_all(row, slots::available_to(experiment));
    allocation_laws::reconciling_succeeds_iff_targets_fit(row, experiment, targets);
    allocation_laws::reconciling_meets_targets(row, experiment, targets);
    allocation_laws::reconciling_spares_other_experiments(row, experiment, targets);
    slots::lemma_count_all(after, slots::owned_by(experiment));
    assert forall|i: int| 0 <= i < 100 implies slots::owned_by(experiment)(#[trigger] after[i])
        && exists|k: int|
        0 <= k < variants.len() && (#[trigger] variants[k]).id@ == after[i]->0.variant_id by {
        assert(slots::owned_by(experiment)(after[i]));
        assert(allocation::has_target(targets, after[i]->0.variant_id));
        let k = choose|k: int|
            0 <= k < targets.len() && (#[trigger] targets[k]).variant_id
                == after[i]->0.variant_id;
        assert(variants[k].id@ == after[i]->0.variant_id);
    }
}

/// An experiment that is no release finds room exactly where the percentage
/// times the number of its variants is no more than the buckets that are vacant
/// or its own, and what is left of these stays vacant.
pub proof fn other_ramp_leaves_the_rest_vacant(
    row: Slots,
    experiment_id: i64,
    experiment_type: ExperimentType,
    variants: Seq<Variant>,
    percentage: nat,
)
    requires
        experiment_type != ExperimentType::Release,
        distinct_variants(variants),
    ensures
        ({
            let outcome = allocation::ramped(
                row,
                experiment_id,
                experiment_type,
                variants,
                percentage,
            );
            let room = slots::count(
                row,
                slots::available_to(text::decimal(experiment_id as int)),
            );
            &&& outcome.shortage is None <==> percentage * variants.len() <= room
            &&& outcome.shortage is None ==> slots::count(outcome.slots, slots::vacant()) == room
                - percentage * variants.len()
        }),
{
    let experiment = text::decimal(experiment_id as int);
    let targets = allocation::variant_targets(experiment_type, variants, percentage);
    lemma_distinct_targets(experiment_type, variants, percentage);
    other_targets_sum_to_product(experiment_type, variants, percentage);
    allocation_laws::reconciling_succeeds_iff_targets_fit(row, experiment, targets);
    if allocation::reconciled(row, experiment, targets).shortage is None {
        allocation_laws::reconciling_meets_targets(row, experiment, targets);
    }
}

/// A ramp up takes no bucket from a variant that is to grow with it: neither from
/// an experimental variant of a release, nor from any variant of another
/// experiment. Requests that are served such a variant keep it.
pub proof fn ramp_up_keeps_buckets(
    row: Slots,
    experiment_id: i64,
    experiment_type: ExperimentType,
    variants: Seq<Variant>,
    less: nat,
    more: nat,
    k: int,
    i: int,
)
    requires
        distinct_variants(variants),
        less <= more,
        0 <= k < variants.len(),
        experiment_type == ExperimentType::Release ==> variants[k].variant_type
            == VariantType::EXPERIMENTAL,
        allocation::held(row, text::decimal(experiment_id as int), variants[k].id@)
            <= allocation::variant_target(experiment_type, variants, less, k),
        0 <= i < row.len(),
        slots::held_by(text::decimal(experiment_id as int), variants[k].id@)(row[i]),
    ensures
        allocation::ramped(row, experiment_id, experiment_type, variants, more).slots[i] == row[i],
{
    let targets = allocation::variant_targets(experiment_type, variants, more);
    lemma_distinct_targets(experiment_type, variants, more);
    release_ramp_up_grows_experimental(variants, less, more, k);
    assert(targets[k].variant_id == variants[k].id@);
    allocation_laws::reconciling_keeps_buckets_of_growing_variants(
        row,
        text::decimal(experiment_id as int),
        targets,
        k,
        i,
    );
}

/// There is one target for every variant, in the order of the variants.
pub proof fn every_variant_has_its_target(
    experiment_type: ExperimentType,
    variants: Seq<Variant>,
    percentage: nat,
    pairs: Seq<(String, usize)>,
    i: int,
)
    requires
        allocation::target_views(pairs) == allocation::variant_targets(
            experiment_type,
            variants,
            percentage,
        ),
        0 <= i < variants.len(),
    ensures
        pairs.len() == variants.len(),
        pairs[i].0@ == variants[i].id@,
        pairs[i].1 == allocation::variant_target(experiment_type, variants, percentage, i),
{
    assert(allocation::target_views(pairs).len() == pairs.len());
    let targets = allocation::variant_targets(experiment_type, variants, percentage);
    assert(allocation::target_views(pairs)[i].variant_id == pairs[i].0@);
    assert(allocation::target_views(pairs)[i].buckets == pairs[i].1);
    assert(targets[i].variant_id == variants[i].id@);
}

/// Experimental variants are counted one by one.
pub proof fn experimental_variants_are_counted_one_by_one(
    first: Seq<Variant>,
    second: Seq<Variant>,
    variant: Variant,
)
    ensures
        allocation::experimental_count(first + second) == allocation::experimental_count(first)
            + allocation::experimental_count(second),
        allocation::experimental_count(seq![variant]) == (match variant.variant_type {
            VariantType::CONTROL => 0nat,
            VariantType::EXPERIMENTAL => 1,
        }),
        allocation::experimental_count(Seq::empty()) == 0,
    decreases second.len(),
{
    let one = seq![variant];
    assert(one.drop_last() =~= Seq::<Variant>::empty());
    assert(allocation::experimental_count(one.drop_last()) == 0);
    assert(one.last() == variant);
    if second.len() == 0 {
        assert(first + second =~= first);
    } else {
        let shorter = second.drop_last();
        experimental_variants_are_counted_one_by_one(first, shorter, variant);
        assert((first + second).drop_last() =~= first + shorter);
        assert((first + second).last() == second.last());
    }
}

/// What each variant is to hold. In a release a control variant gets what the
/// percentage leaves, which is everything where no variant is experimental, and an
/// experimental variant an equal part of the percentage, up to less than one
/// bucket. In any other experiment every variant gets the percentage.
pub proof fn every_variant_gets_its_part(
    experiment_type: ExperimentType,
    variants: Seq<Variant>,
    percentage: nat,
    i: int,
)
    requires
        percentage <= 100,
        0 <= i < variants.len(),
    ensures
        ({
            let target = allocation::variant_target(experiment_type, variants, percentage, i);
            let sharers = allocation::experimental_count(variants);
            &&& experiment_type != ExperimentType::Release ==> target == percentage
            &&& experiment_type == ExperimentType::Release && variants[i].variant_type
                == VariantType::CONTROL ==> target + (if sharers > 0 {
                percentage
            } else {
                0
            }) == 100
            &&& experiment_type == ExperimentType::Release && variants[i].variant_type
                == VariantType::EXPERIMENTAL ==> {
                &&& sharers > 0
                &&& target * sharers < percentage + sharers
                &&& percentage < (target + 1) * sharers
            }
        }),
{
    let sharers = allocation::experimental_count(variants);
    let rank = allocation::experimental_count(variants.take(i));
    if variants[i].variant_type == VariantType::EXPERIMENTAL {
        let front = variants.take(i);
        let rest = variants.skip(i + 1);
        assert(variants =~= (front + seq![variants[i]]) + rest);
        experimental_variants_are_counted_one_by_one(
            front + seq![variants[i]],
            rest,
            variants[i],
        );
        experimental_variants_are_counted_one_by_one(front, seq![variants[i]], variants[i]);
        let target = allocation::equal_share(percentage, sharers, rank);
        let each = percentage / sharers;
        let left = percentage % sharers;
        vstd::arithmetic::div_mod::lemma_fundamental_div_mod(percentage as int, sharers as int);
        vstd::arithmetic::div_mod::lemma_mod_bound(percentage as int, sharers as int);
        assert(each * sharers + left == percentage) by (nonlinear_arith)
            requires
                percentage == sharers * each + left,
        ;
        assert(target * sharers < percentage + sharers && percentage < (target + 1) * sharers)
            by (nonlinear_arith)
            requires
                each * sharers + left == percentage,
                0 <= left < sharers,
                target == each || (target == each + 1 && left > 0),
        ;
    }
}

/// A ramp succeeds exactly where the targets of all variants together are no more
/// than the buckets that are vacant or the experiment's own. Then every variant
/// holds its target. In any case the buckets of other experiments stay, and the
/// experiment is left with buckets of its variants alone.
pub proof fn ramping_meets_the_target_of_every_variant(
    row: Slots,
    experiment_id: i64,
    experiment_type: ExperimentType,
    variants: Seq<Variant>,
    percentage: nat,
)
    requires
        distinct_variants(variants),
    ensures
        ({
            let id = text::decimal(experiment_id as int);
            let outcome = allocation::ramped(
                row,
                experiment_id,
                experiment_type,
                variants,
                percentage,
            );
            let targets = allocation::variant_targets(experiment_type, variants, percentage);
            &&& outcome.shortage is None <==> allocation_laws::target_sum(targets)
                <= slots::count(row, slots::available_to(id))
            &&& outcome.shortage is None ==> forall|k: int|
                0 <= k < variants.len() ==> allocation::held(
                    outcome.slots,
                    id,
                    (#[trigger] variants[k]).id@,
                ) == allocation::variant_target(experiment_type, variants, percentage, k)
            &&& outcome.slots.len() == row.len()
            &&& forall|i: int|
                0 <= i < row.len() && row[i] is Some && row[i]->0.experiment_id != id
                    ==> #[trigger] outcome.slots[i] == row[i]
            &&& forall|i: int|
                0 <= i < row.len() && (#[trigger] outcome.slots[i]) is Some
                    && outcome.slots[i]->0.experiment_id == id ==> exists|k: int|
                    0 <= k < variants.len() && (#[trigger] variants[k]).id@
                        == outcome.slots[i]->0.variant_id
        }),
{
    let id = text::decimal(experiment_id as int);
    let targets = allocation::variant_targets(experiment_type, variants, percentage);
    let outcome = allocation::reconciled(row, id, targets);
    lemma_distinct_targets(experiment_type, variants, percentage);
    allocation_laws::reconciling_succeeds_iff_targets_fit(row, id, targets);
    allocation_laws::reconciling_spares_other_experiments(row, id, targets);
    if outcome.shortage is None {
        allocation_laws::reconciling_meets_targets(row, id, targets);
        assert forall|k: int| 0 <= k < variants.len() implies allocation::held(
            outcome.slots,
            id,
            (#[trigger] variants[k]).id@,
        ) == allocation::variant_target(experiment_type, variants, percentage, k) by {
            assert(targets[k].variant_id == variants[k].id@);
        }
    }
    assert forall|i: int|
        0 <= i < row.len() && (#[trigger] outcome.slots[i]) is Some
            && outcome.slots[i]->0.experiment_id == id implies exists|k: int|
        0 <= k < variants.len() && (#[trigger] variants[k]).id@
            == outcome.slots[i]->0.variant_id by {
        placement_laws::reconciling_leaves_nothing_above_the_targets(row, id, targets, i);
        let k = choose|k: int|
            0 <= k < targets.len() && (#[trigger] targets[k]).variant_id
                == outcome.slots[i]->0.variant_id && allocation::held(
                outcome.slots,
                id,
                targets[k].variant_id,
            ) <= targets[k].buckets;
        assert(variants[k].id@ == outcome.slots[i]->0.variant_id);
    }
}

} // verus!
