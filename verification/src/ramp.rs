//! What the form shows with which an experiment is ramped.
use vstd::prelude::*;
use vstd::string::StringExecFns;

use crate::allocation;
use crate::allocation::count_experimental;
use crate::groups;
use crate::model::{ExperimentType, GroupType, Variant, VariantType};
use crate::target_laws;
use crate::text;
use crate::text::unsigned_text;

verus! {

/// The largest percentage that the form offers: all of the traffic for a
/// release, an equal part of it for every variant otherwise.
pub open spec fn offered_percentage(experiment_type: ExperimentType, variant_count: nat) -> nat {
    if experiment_type == ExperimentType::Release {
        100
    } else {
        100nat / variant_count
    }
}

/// The largest percentage that the form offers.
pub fn range_max(experiment_type: ExperimentType, variant_count: usize) -> (max: usize)
    requires
        experiment_type == ExperimentType::Release || variant_count > 0,
    ensures
        max == offered_percentage(experiment_type, variant_count as nat),
{
    if experiment_type == ExperimentType::Release {
        100
    } else {
        100 / variant_count
    }
}

/// How many experimental variants the form counts, which is at least one.
pub fn shown_experimental_count(variants: &Vec<Variant>) -> (shown: usize)
    ensures
        shown == if allocation::experimental_count(variants@) == 0 {
            1
        } else {
            allocation::experimental_count(variants@)
        },
{
    let found = count_experimental(variants);
    if found == 0 {
        1
    } else {
        found
    }
}

/// How the form shows that a release splits the traffic, in percent.
#[derive(Clone, Copy, Debug, PartialEq, Eq, Structural)]
pub struct ReleaseSplit {
    pub control: u8,
    pub each_experimental: u8,
}

/// How the form shows that a release splits the traffic. The number of
/// experimental variants is counted in a byte.
pub fn release_split(traffic: u8, experimental_count: usize) -> (split: ReleaseSplit)
    requires
        experimental_count % 256 != 0,
    ensures
        split.control == if traffic <= 100 {
            100 - traffic
        } else {
            0
        },
        split.each_experimental == traffic as nat / (experimental_count as nat % 256),
{
    let sharers: u8 = (experimental_count % 256) as u8;
    ReleaseSplit { control: 100u8.saturating_sub(traffic), each_experimental: traffic / sharers }
}

/// The line in which the form shows how a release splits the traffic.
pub fn release_split_text(traffic: u8, experimental_count: usize) -> (line: String)
    requires
        experimental_count % 256 != 0,
    ensures
        line@ == "Release split: control "@ + text::decimal(
            if traffic <= 100 {
                100 - traffic
            } else {
                0
            },
        ) + "% · each experimental variant "@ + text::decimal(
            (traffic as nat / (experimental_count as nat % 256)) as int,
        ) + "% ("@ + text::decimal(experimental_count as int) + " experimental)"@,
{
    let split = release_split(traffic, experimental_count);
    "Release split: control ".to_owned().concat(
        unsigned_text(split.control as u64).as_str(),
    ).concat("% · each experimental variant ").concat(
        unsigned_text(split.each_experimental as u64).as_str(),
    ).concat("% (").concat(unsigned_text(experimental_count as u64).as_str()).concat(
        " experimental)",
    )
}

/// Every percentage that the form offers can be ramped to in a group of the
/// experiment's own.
pub proof fn offered_percentages_fit(
    experiment_id: i64,
    experiment_type: ExperimentType,
    variants: Seq<Variant>,
    percentage: nat,
)
    requires
        variants.len() > 0,
        experiment_type == ExperimentType::Release ==> target_laws::shares_all_traffic(
            variants,
            percentage,
        ),
        percentage <= offered_percentage(experiment_type, variants.len()),
    ensures
        groups::ramped_group(
            GroupType::SystemGenerated,
            0,
            groups::vacant_row(),
            experiment_id,
            experiment_type,
            variants,
            percentage,
        ) is Ok,
{
    let n = variants.len();
    if experiment_type != ExperimentType::Release {
        assert(percentage * n <= 100 && percentage <= 100) by (nonlinear_arith)
            requires
                n > 0,
                percentage <= 100nat / n,
        ;
    }
    groups::own_group_covers_its_traffic(experiment_id, experiment_type, variants, percentage);
}

/// What the form shows of a release is what its variants are to hold: the control
/// variant the percentage shown for it, every experimental one the percentage
/// shown for each, or one bucket more.
pub proof fn shown_split_matches_targets(
    variants: Seq<Variant>,
    traffic: u8,
    split: ReleaseSplit,
    i: int,
)
    requires
        traffic <= 100,
        1 <= allocation::experimental_count(variants) < 256,
        split.control == 100 - traffic,
        split.each_experimental == traffic as nat / (allocation::experimental_count(variants)
            % 256),
        0 <= i < variants.len(),
    ensures
        ({
            let target = allocation::variant_target(
                ExperimentType::Release,
                variants,
                traffic as nat,
                i,
            );
            match variants[i].variant_type {
                VariantType::CONTROL => target == split.control,
                VariantType::EXPERIMENTAL => split.each_experimental <= target
                    <= split.each_experimental + 1,
            }
        }),
{
    vstd::arithmetic::div_mod::lemma_small_mod(allocation::experimental_count(variants), 256);
}

/// The largest percentage that the form offers for an experiment that is no release
/// is the largest with which all variants together get at most all of the traffic.
/// For a release it is all of the traffic.
pub proof fn the_form_offers_all_that_fits(experiment_type: ExperimentType, variant_count: nat)
    requires
        variant_count > 0,
    ensures
        ({
            let offered = offered_percentage(experiment_type, variant_count);
            &&& experiment_type == ExperimentType::Release ==> offered == 100
            &&& experiment_type != ExperimentType::Release ==> offered * variant_count <= 100 < (
            offered + 1) * variant_count
        }),
{
    let offered = 100nat / variant_count;
    assert(offered * variant_count <= 100 < (offered + 1) * variant_count) by (nonlinear_arith)
        requires
            variant_count > 0,
            offered == 100nat / variant_count,
    ;
}

} // verus!
