//! Groups that come and go with an experiment, and how a ramp changes a group.
use vstd::prelude::*;
use vstd::string::StringExecFns;

use crate::allocation;
use crate::allocation::{free_experiment_buckets, update_bucket_allocation};
use crate::allocation_laws;
use crate::error::{GroupError, GroupErrorView};
use crate::lists;
use crate::model;
use crate::model::{
    Buckets, Experiment, ExperimentGroup, ExperimentType, GroupType, Timestamp, TrafficPercentage,
    Variant,
};
use crate::slots;
use crate::slots::Slots;
use crate::target_laws;
use crate::text;
use crate::text::signed_text;

verus! {

/// The row of a new group.
pub open spec fn vacant_row() -> Slots {
    Seq::new(100, |i: int| None)
}

/// The traffic of a group and its buckets.
pub struct GroupTrafficView {
    pub traffic_percentage: nat,
    pub slots: Slots,
}

/// Why a group's traffic is refused that is no percentage.
pub open spec fn not_a_percentage() -> GroupErrorView {
    GroupErrorView::InvalidTraffic {
        reason: "The traffic percentage should be between 0 and 100"@,
    }
}

/// The traffic and the buckets of a group that had `traffic` and `row` after one
/// of its experiments was ramped to `percentage`, or why the ramp is refused. The
/// traffic of a system-generated group follows what its experiment covers.
pub open spec fn ramped_group(
    group_type: GroupType,
    traffic: nat,
    row: Slots,
    experiment_id: i64,
    experiment_type: ExperimentType,
    variants: Seq<Variant>,
    percentage: nat,
) -> Result<GroupTrafficView, GroupErrorView> {
    let covered = model::covered_traffic(experiment_type, percentage, variants.len());
    let outcome = allocation::ramped(row, experiment_id, experiment_type, variants, percentage);
    if group_type == GroupType::SystemGenerated && covered > 100 {
        Err(not_a_percentage())
    } else if outcome.shortage is Some {
        Err(
            GroupErrorView::NotEnoughBuckets {
                required: outcome.shortage->0.required,
                variant_id: outcome.shortage->0.variant_id,
            },
        )
    } else {
        Ok(
            GroupTrafficView {
                traffic_percentage: if group_type == GroupType::SystemGenerated {
                    covered
                } else {
                    traffic
                },
                slots: outcome.slots,
            },
        )
    }
}

/// The percentage of the traffic that an experiment covers when it is ramped to
/// the given percentage.
fn covered_percentage(experiment: &Experiment, exp_traffic_percentage: &TrafficPercentage) -> (result:
    Result<TrafficPercentage, GroupError>)
    ensures
        ({
            let covered = model::covered_traffic(
                experiment.experiment_type,
                exp_traffic_percentage@,
                experiment.variants.list@.len(),
            );
            match result {
                Ok(percentage) => covered <= 100 && percentage@ == covered,
                Err(error) => covered > 100 && error@ == not_a_percentage(),
            }
        }),
{
    let total = experiment.experiment_type.total_traffic_percentage(
        exp_traffic_percentage.value(),
        experiment.variants.list.len(),
    );
    let bounded: i32 = if total > i32::MAX as usize { i32::MAX } else { total as i32 };
    match TrafficPercentage::try_from(bounded) {
        Ok(percentage) => Ok(percentage),
        Err(reason) => Err(GroupError::InvalidTraffic { reason }),
    }
}

/// A group that is to be stored: the group, how it is described, and who made it
/// when.
#[derive(Debug)]
pub struct NewExperimentGroup {
    pub group: ExperimentGroup,
    pub context_hash: String,
    pub name: String,
    pub description: String,
    pub change_reason: String,
    pub created_by: String,
    pub last_modified_by: String,
    pub created_at: Timestamp,
    pub last_modified_at: Timestamp,
}

/// The group that is made for an experiment on its own: it has the experiment's
/// condition and buckets, and the traffic that the experiment covers.
pub fn create_system_generated_experiment_group(
    experiment: &Experiment,
    exp_traffic_percentage: &TrafficPercentage,
    id: i64,
    context_hash: String,
    user_email: &String,
    now: Timestamp,
) -> (result: Result<NewExperimentGroup, GroupError>)
    ensures
        match ramped_group(
            GroupType::SystemGenerated,
            0,
            vacant_row(),
            experiment.id,
            experiment.experiment_type,
            experiment.variants.list@,
            exp_traffic_percentage@,
        ) {
            Ok(contents) => {
                &&& result is Ok
                &&& result->Ok_0.group.id == id
                &&& result->Ok_0.context_hash == context_hash
                &&& result->Ok_0.name@ == experiment.name@
                &&& result->Ok_0.description@ == "Experiment group for experiment "@
                    + experiment.name@
                &&& result->Ok_0.change_reason@
                    == "System generated experiment group for experiment "@ + text::decimal(
                    experiment.id as int,
                )
                &&& result->Ok_0.created_by@ == user_email@
                &&& result->Ok_0.last_modified_by@ == user_email@
                &&& result->Ok_0.created_at == now
                &&& result->Ok_0.last_modified_at == now
                &&& result->Ok_0.group.context == experiment.context
                &&& result->Ok_0.group.traffic_percentage@ == contents.traffic_percentage
                &&& result->Ok_0.group.member_experiment_ids@ == seq![experiment.id]
                &&& result->Ok_0.group.buckets@ == contents.slots
                &&& result->Ok_0.group.group_type == GroupType::SystemGenerated
            },
            Err(refusal) => result is Err && result->Err_0@ == refusal,
        },
{
    let traffic_percentage = match covered_percentage(experiment, exp_traffic_percentage) {
        Ok(percentage) => percentage,
        Err(error) => return Err(error),
    };
    let mut buckets = Buckets::default();
    assert(buckets@ =~= vacant_row());
    match update_bucket_allocation(experiment, &mut buckets, exp_traffic_percentage) {
        Ok(_) => {},
        Err(error) => return Err(error),
    }
    let group = ExperimentGroup {
        id,
        context: experiment.context.clone(),
        traffic_percentage,
        member_experiment_ids: vec![experiment.id],
        buckets,
        group_type: GroupType::SystemGenerated,
    };
    Ok(
        NewExperimentGroup {
            group,
            context_hash,
            name: experiment.name.clone(),
            description: "Experiment group for experiment ".to_owned().concat(
                experiment.name.as_str(),
            ),
            change_reason: "System generated experiment group for experiment ".to_owned().concat(
                signed_text(experiment.id).as_str(),
            ),
            created_by: user_email.clone(),
            last_modified_by: user_email.clone(),
            created_at: now,
            last_modified_at: now,
        },
    )
}

/// What a ramp of one of its experiments changes in a group.
#[derive(Debug, PartialEq, Eq)]
pub struct GroupUpdate {
    pub buckets: Buckets,
    pub traffic_percentage: TrafficPercentage,
    pub change_reason: String,
}

/// What changes in a group when one of its experiments is ramped to the given
/// percentage.
pub fn update_experiment_group_buckets(
    experiment: &Experiment,
    experiment_group: ExperimentGroup,
    exp_traffic_percentage: &TrafficPercentage,
) -> (result: Result<GroupUpdate, GroupError>)
    ensures
        match ramped_group(
            experiment_group.group_type,
            experiment_group.traffic_percentage@,
            experiment_group.buckets@,
            experiment.id,
            experiment.experiment_type,
            experiment.variants.list@,
            exp_traffic_percentage@,
        ) {
            Ok(contents) => {
                &&& result is Ok
                &&& result->Ok_0.buckets@ == contents.slots
                &&& result->Ok_0.traffic_percentage@ == contents.traffic_percentage
                &&& result->Ok_0.change_reason@
                    == "Updated traffic percentage for experiment group "@ + text::decimal(
                    experiment_group.id as int,
                )
            },
            Err(refusal) => result is Err && result->Err_0@ == refusal,
        },
        result is Ok && experiment_group.group_type == GroupType::UserCreated
            ==> result->Ok_0.traffic_percentage@ == experiment_group.traffic_percentage@,
{
    let traffic_percentage = match experiment_group.group_type {
        GroupType::SystemGenerated => match covered_percentage(
            experiment,
            exp_traffic_percentage,
        ) {
            Ok(percentage) => percentage,
            Err(error) => return Err(error),
        },
        GroupType::UserCreated => experiment_group.traffic_percentage,
    };
    let mut buckets = experiment_group.buckets;
    match update_bucket_allocation(experiment, &mut buckets, exp_traffic_percentage) {
        Ok(_) => {},
        Err(error) => return Err(error),
    }
    Ok(
        GroupUpdate {
            buckets,
            traffic_percentage,
            change_reason: "Updated traffic percentage for experiment group ".to_owned().concat(
                signed_text(experiment_group.id).as_str(),
            ),
        },
    )
}

/// What changes in a group when an experiment leaves it, and whether the group
/// goes with it.
#[derive(Debug, PartialEq, Eq)]
pub struct Detachment {
    pub change_reason: String,
    pub member_experiment_ids: Vec<i64>,
    pub buckets: Buckets,
    pub delete_group: bool,
}

/// The ids other than the given one.
pub open spec fn other_than(id: i64) -> spec_fn(i64) -> bool {
    |other: i64| other != id
}

/// What changes in a group when the experiment leaves it: it is no member any
/// more and holds no bucket. A system-generated group is to be deleted.
pub fn detach_experiment_from_group(
    experiment: &Experiment,
    experiment_group: ExperimentGroup,
) -> (detachment: Detachment)
    ensures
        detachment.change_reason@ == "Removed experiment "@ + text::decimal(experiment.id as int)
            + " from group "@ + text::decimal(experiment_group.id as int),
        detachment.member_experiment_ids@ == experiment_group.member_experiment_ids@.filter(
            other_than(experiment.id),
        ),
        forall|id: i64| #[trigger]
            detachment.member_experiment_ids@.contains(id)
                <==> experiment_group.member_experiment_ids@.contains(id) && id != experiment.id,
        detachment.buckets@ == allocation::without_experiment(
            experiment_group.buckets@,
            text::decimal(experiment.id as int),
        ),
        detachment.delete_group == (experiment_group.group_type == GroupType::SystemGenerated),
{
    let ids = experiment_group.member_experiment_ids;
    let mut member_experiment_ids: Vec<i64> = Vec::new();
    let mut i: usize = 0;
    proof {
        reveal(Seq::filter);
        assert(ids@.take(0) =~= Seq::<i64>::empty());
    }
    while i < ids.len()
        invariant
            i <= ids.len(),
            member_experiment_ids@ == ids@.take(i as int).filter(other_than(experiment.id)),
        decreases ids.len() - i,
    {
        proof {
            reveal(Seq::filter);
            assert(ids@.take(i + 1).drop_last() =~= ids@.take(i as int));
        }
        if ids[i] != experiment.id {
            member_experiment_ids.push(ids[i]);
        }
        i += 1;
    }
    assert(ids@.take(i as int) =~= ids@);
    proof {
        lists::lemma_filtered(ids@, other_than(experiment.id));
    }
    let mut buckets = experiment_group.buckets;
    free_experiment_buckets(experiment, &mut buckets);
    Detachment {
        change_reason: "Removed experiment ".to_owned().concat(
            signed_text(experiment.id).as_str(),
        ).concat(" from group ").concat(signed_text(experiment_group.id).as_str()),
        member_experiment_ids,
        buckets,
        delete_group: experiment_group.group_type == GroupType::SystemGenerated,
    }
}

/// An experiment always gets a group of its own, unless it covers more than all
/// the traffic. The group has as many occupied buckets as its traffic
/// percentage says, all of them the experiment's.
pub proof fn own_group_covers_its_traffic(
    experiment_id: i64,
    experiment_type: ExperimentType,
    variants: Seq<Variant>,
    percentage: nat,
)
    requires
        percentage <= 100,
        experiment_type == ExperimentType::Release ==> target_laws::shares_all_traffic(
            variants,
            percentage,
        ),
    ensures
        ({
            let covered = model::covered_traffic(experiment_type, percentage, variants.len());
            let group = ramped_group(
                GroupType::SystemGenerated,
                0,
                vacant_row(),
                experiment_id,
                experiment_type,
                variants,
                percentage,
            );
            &&& group is Ok <==> covered <= 100
            &&& group is Ok ==> {
                &&& group->Ok_0.traffic_percentage == covered
                &&& group->Ok_0.slots.len() == 100
                &&& slots::count(
                    group->Ok_0.slots,
                    slots::owned_by(text::decimal(experiment_id as int)),
                ) == covered
                &&& slots::count(group->Ok_0.slots, slots::vacant()) == 100 - covered
            }
        }),
{
    let experiment = text::decimal(experiment_id as int);
    let targets = allocation::variant_targets(experiment_type, variants, percentage);
    let covered = model::covered_traffic(experiment_type, percentage, variants.len());
    let outcome = allocation::reconciled(vacant_row(), experiment, targets);
    target_laws::targets_sum_to_covered_traffic(experiment_type, variants, percentage);
    allocation_laws::reconciling_fills_vacant_rows_from_the_front(
        vacant_row(),
        experiment,
        targets,
    );
    if outcome.shortage is None {
        allocation_laws::lemma_occupied_count(outcome.slots, covered as int);
        assert forall|i: int| 0 <= i < outcome.slots.len() implies slots::owned_by(experiment)(
            #[trigger] outcome.slots[i],
        ) == !slots::vacant()(outcome.slots[i]) by {
            allocation_laws::reconciling_spares_other_experiments(
                vacant_row(),
                experiment,
                targets,
            );
            assert(vacant_row()[i] is None);
        }
        slots::lemma_count_complement(
            outcome.slots,
            slots::owned_by(experiment),
            slots::vacant(),
        );
    }
}

/// Detaching an experiment from the group that was made for it leaves the row
/// vacant.
pub proof fn detaching_empties_own_group(
    experiment_id: i64,
    experiment_type: ExperimentType,
    variants: Seq<Variant>,
    percentage: nat,
)
    requires
        ramped_group(
            GroupType::SystemGenerated,
            0,
            vacant_row(),
            experiment_id,
            experiment_type,
            variants,
            percentage,
        ) is Ok,
    ensures
        allocation::without_experiment(
            ramped_group(
                GroupType::SystemGenerated,
                0,
                vacant_row(),
                experiment_id,
                experiment_type,
                variants,
                percentage,
            )->Ok_0.slots,
            text::decimal(experiment_id as int),
        ) == vacant_row(),
{
    let experiment = text::decimal(experiment_id as int);
    let targets = allocation::variant_targets(experiment_type, variants, percentage);
    slots::lemma_count_none(vacant_row(), slots::owned_by(experiment));
    allocation_laws::freeing_undoes_reconciling(vacant_row(), experiment, targets);
}

} // verus!
