//! What holds of every group that is ramped or left by an experiment.
use vstd::prelude::*;

use crate::allocation;
use crate::error::GroupErrorView;
use crate::groups;
use crate::lists;
use crate::model::{ExperimentType, GroupType, Variant};
use crate::slots::Slots;

verus! {

/// A ramp in a group that a user made leaves the group's traffic as it was,
/// whatever the experiment covers. It is refused only for want of buckets.
pub proof fn ramping_keeps_the_traffic_of_user_created_groups(
    traffic: nat,
    row: Slots,
    experiment_id: i64,
    experiment_type: ExperimentType,
    variants: Seq<Variant>,
    percentage: nat,
)
    ensures
        ({
            let outcome = allocation::ramped(
                row,
                experiment_id,
                experiment_type,
                variants,
                percentage,
            );
            let group = groups::ramped_group(
                GroupType::UserCreated,
                traffic,
                row,
                experiment_id,
                experiment_type,
                variants,
                percentage,
            );
            &&& group is Ok <==> outcome.shortage is None
            &&& group is Ok ==> group->Ok_0.traffic_percentage == traffic
            &&& group is Ok ==> group->Ok_0.slots == outcome.slots
            &&& group is Err ==> group->Err_0 == (GroupErrorView::NotEnoughBuckets {
                required: outcome.shortage->0.required,
                variant_id: outcome.shortage->0.variant_id,
            })
        }),
{
}

/// A ramp in a system-generated group sets the group's traffic to what the
/// experiment covers, whatever it was before: all of it for a release, the
/// percentage of every variant together otherwise. It is refused where that is
/// more than all the traffic, and for want of buckets.
pub proof fn ramping_sets_the_traffic_of_system_generated_groups(
    traffic: nat,
    row: Slots,
    experiment_id: i64,
    experiment_type: ExperimentType,
    variants: Seq<Variant>,
    percentage: nat,
)
    ensures
        ({
            let outcome = allocation::ramped(
                row,
                experiment_id,
                experiment_type,
                variants,
                percentage,
            );
            let group = groups::ramped_group(
                GroupType::SystemGenerated,
                traffic,
                row,
                experiment_id,
                experiment_type,
                variants,
                percentage,
            );
            let too_much = experiment_type != ExperimentType::Release && percentage
                * variants.len() > 100;
            &&& group is Ok <==> !too_much && outcome.shortage is None
            &&& group is Ok && experiment_type == ExperimentType::Release
                ==> group->Ok_0.traffic_percentage == 100
            &&& group is Ok && experiment_type != ExperimentType::Release
                ==> group->Ok_0.traffic_percentage == percentage * variants.len()
            &&& group is Ok ==> group->Ok_0.slots == outcome.slots
            &&& too_much ==> group is Err && group->Err_0 is InvalidTraffic
            &&& group is Err && !too_much ==> group->Err_0 == (GroupErrorView::NotEnoughBuckets {
                required: outcome.shortage->0.required,
                variant_id: outcome.shortage->0.variant_id,
            })
        }),
{
}

/// After an experiment was detached, an id is a member exactly where it was one
/// before and is not the experiment's. No member is repeated that was not before.
pub proof fn detaching_removes_the_experiment_alone(members: Seq<i64>, experiment_id: i64)
    ensures
        ({
            let after = members.filter(groups::other_than(experiment_id));
            &&& forall|id: i64| #[trigger]
                after.contains(id) <==> members.contains(id) && id != experiment_id
            &&& members.no_duplicates() ==> after.no_duplicates()
            &&& !members.contains(experiment_id) ==> after == members
        }),
    decreases members.len(),
{
    lists::lemma_filtered(members, groups::other_than(experiment_id));
    if !members.contains(experiment_id) {
        reveal(Seq::filter);
        if members.len() > 0 {
            let shorter = members.drop_last();
            assert(!shorter.contains(experiment_id)) by {
                if shorter.contains(experiment_id) {
                    let i = choose|i: int|
                        0 <= i < shorter.len() && shorter[i] == experiment_id;
                    assert(members[i] == experiment_id);
                }
            }
            detaching_removes_the_experiment_alone(shorter, experiment_id);
            assert(members[members.len() - 1] == members.last());
            assert(members.contains(members.last()));
            assert(shorter.push(members.last()) =~= members);
        }
    }
}

/// Members stay in their order when an experiment is detached: detaching from two
/// lists behind each other is detaching from each of them.
pub proof fn detaching_keeps_the_order_of_members(
    first: Seq<i64>,
    second: Seq<i64>,
    experiment_id: i64,
)
    ensures
        (first + second).filter(groups::other_than(experiment_id)) == first.filter(
            groups::other_than(experiment_id),
        ) + second.filter(groups::other_than(experiment_id)),
{
    Seq::filter_distributes_over_add(first, second, groups::other_than(experiment_id));
}

/// A bucket becomes vacant when an experiment gives up its buckets exactly where it
/// holds a variant of that experiment or was vacant before. Any other bucket is as
/// it was.
pub proof fn leaving_frees_every_bucket_of_the_experiment(
    row: Slots,
    experiment: Seq<char>,
    i: int,
)
    requires
        0 <= i < row.len(),
    ensures
        ({
            let after = allocation::without_experiment(row, experiment);
            &&& after.len() == row.len()
            &&& after[i] is None <==> row[i] is None || row[i]->0.experiment_id == experiment
            &&& row[i] is Some && row[i]->0.experiment_id != experiment ==> after[i] == row[i]
        }),
{
}

} // verus!
