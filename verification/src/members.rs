//! Who may be a member of an experiment group.
use vstd::prelude::*;

use crate::allocation;
use crate::allocation::free_experiment_buckets;
use crate::error::{GroupError, GroupErrorView};
use crate::lists;
use crate::lists::{contains_id, contains_text, distinct_ids, ids_among, ids_not_among};
use crate::model::{
    Buckets, Experiment, ExperimentGroup, ExperimentStatusType, ExperimentType, GroupType,
};
use crate::slots::Slots;
use crate::text;

verus! {

/// An experiment that is to become a member of a group, and whether its
/// condition contains that of the group, or why that could not be told.
#[derive(Debug)]
pub struct Candidate {
    pub experiment: Experiment,
    pub contains_group_context: Result<bool, String>,
}

/// The contents of a result of ids.
pub open spec fn ids_view(result: Result<Vec<i64>, GroupError>) -> Result<
    Seq<i64>,
    GroupErrorView,
> {
    match result {
        Ok(ids) => Ok(ids@),
        Err(error) => Err(error@),
    }
}

/// The ids of experiments.
pub open spec fn experiment_ids(experiments: Seq<Experiment>) -> Seq<i64> {
    experiments.map_values(|experiment: Experiment| experiment.id)
}

/// The ids of candidates.
pub open spec fn candidate_ids(candidates: Seq<Candidate>) -> Seq<i64> {
    candidates.map_values(|candidate: Candidate| candidate.experiment.id)
}

/// Why the first candidate whose condition does not contain that of the group is
/// refused.
pub open spec fn context_refusal(candidates: Seq<Candidate>) -> Option<GroupErrorView>
    decreases candidates.len(),
{
    if candidates.len() == 0 {
        None
    } else {
        let before = context_refusal(candidates.drop_last());
        if before is Some {
            before
        } else {
            match candidates.last().contains_group_context {
                Ok(true) => None,
                Ok(false) => Some(
                    GroupErrorView::ContextMismatch {
                        experiment_id: candidates.last().experiment.id,
                    },
                ),
                Err(reason) => Some(GroupErrorView::ContextNotComparable { reason: reason@ }),
            }
        }
    }
}

/// The traffic percentages of all candidates together.
pub open spec fn traffic_sum(candidates: Seq<Candidate>) -> nat
    decreases candidates.len(),
{
    if candidates.len() == 0 {
        0
    } else {
        traffic_sum(candidates.drop_last()) + candidates.last().experiment.traffic_percentage@
    }
}

/// The members of a group that the candidates join, or why they may not.
pub open spec fn joined_members(candidates: Seq<Candidate>, existing: Seq<i64>) -> Result<
    Seq<i64>,
    GroupErrorView,
> {
    match context_refusal(candidates) {
        Some(refusal) => Err(refusal),
        None => if traffic_sum(candidates) > 100 {
            Err(GroupErrorView::TrafficExceeded)
        } else {
            Ok(lists::distinct(existing + candidate_ids(candidates)))
        },
    }
}

/// Whether one of the candidates is a release.
pub open spec fn has_release(candidates: Seq<Candidate>) -> bool {
    exists|i: int|
        0 <= i < candidates.len() && (#[trigger] candidates[i]).experiment.experiment_type
            == ExperimentType::Release
}

/// The members of a group after a request to add some, or why it is refused.
pub open spec fn members_after_adding(
    group_type: GroupType,
    members: Seq<i64>,
    requested: Seq<i64>,
    candidates: Seq<Candidate>,
) -> Result<Seq<i64>, GroupErrorView> {
    if requested.len() == 0 {
        Err(GroupErrorView::NothingToAdd)
    } else if group_type == GroupType::SystemGenerated {
        Err(GroupErrorView::AddToSystemGenerated)
    } else if has_release(candidates) {
        Err(GroupErrorView::ReleaseInUserCreatedGroup)
    } else {
        joined_members(candidates, members)
    }
}

/// The members of a group after a request to remove some, or why it is refused.
pub open spec fn members_after_removing(
    group_type: GroupType,
    members: Seq<i64>,
    requested: Seq<i64>,
) -> Result<Seq<i64>, GroupErrorView> {
    if requested.len() == 0 {
        Err(GroupErrorView::NothingToRemove)
    } else if group_type == GroupType::SystemGenerated {
        Err(GroupErrorView::RemoveFromSystemGenerated)
    } else {
        Ok(lists::distinct(members).filter(lists::not_among(requested)))
    }
}

/// The ids that no experiment was found for.
pub open spec fn missing_ids(expected: Seq<i64>, found: Seq<Experiment>) -> Seq<i64> {
    expected.filter(lists::not_among(experiment_ids(found)))
}

/// The experiments that are to join a group as new members, out of those that
/// were found, or why they may not.
pub open spec fn fetched_members(
    new_members: Seq<i64>,
    existing: Seq<i64>,
    found: Seq<Experiment>,
) -> Result<Seq<Experiment>, GroupErrorView> {
    let wanted = lists::distinct(new_members);
    let repeating = wanted.filter(lists::among(existing));
    let members = found.filter(joinable(wanted));
    let missing = missing_ids(wanted, members);
    if new_members.len() == 0 {
        Ok(Seq::empty())
    } else if repeating.len() > 0 {
        Err(GroupErrorView::AlreadyMembers { ids: repeating })
    } else if missing.len() > 0 {
        Err(GroupErrorView::MissingExperiments { reason: not_addable_reason(), ids: missing })
    } else {
        Ok(members)
    }
}

/// The row after several experiments have given up their buckets.
pub open spec fn without_experiments(slots: Slots, experiments: Seq<Experiment>) -> Slots
    decreases experiments.len(),
{
    if experiments.len() == 0 {
        slots
    } else {
        allocation::without_experiment(
            without_experiments(slots, experiments.drop_last()),
            text::decimal(experiments.last().id as int),
        )
    }
}

/// The experiments that may join a group as one of the given ids: those that were
/// created and not started yet.
pub open spec fn joinable(ids: Seq<i64>) -> spec_fn(Experiment) -> bool {
    |experiment: Experiment|
        experiment.status == ExperimentStatusType::CREATED && ids.contains(experiment.id)
}

/// The experiments with one of the given ids.
pub open spec fn identified_by(ids: Seq<i64>) -> spec_fn(Experiment) -> bool {
    |experiment: Experiment| ids.contains(experiment.id)
}

/// Where new members that were not found are missing.
pub open spec fn not_addable_reason() -> Seq<char> {
    "The following experiment IDs are not present in the database/are not in the created stage"@
}

/// Where members to remove that were not found are missing.
pub open spec fn not_removable_reason() -> Seq<char> {
    "The following experiment IDs are not present in the database"@
}

/// Refuses a list of override keys that repeats a key. The first repetition is
/// named.
pub fn validate_override_keys(override_keys: &Vec<String>) -> (result: Result<(), GroupError>)
    ensures
        result is Ok <==> text::text_views(override_keys@).no_duplicates(),
        match result {
            Ok(_) => text::text_views(override_keys@).no_duplicates(),
            Err(error) => exists|i: int|
                {
                    &&& 0 <= i < override_keys.len()
                    &&& text::text_views(override_keys@).take(i).no_duplicates()
                    &&& text::text_views(override_keys@).take(i).contains(
                        (#[trigger] override_keys[i])@,
                    )
                    &&& error@ == (GroupErrorView::DuplicateOverrideKey { key: override_keys[i]@ })
                },
        },
{
    let ghost views = text::text_views(override_keys@);
    let mut seen: Vec<String> = Vec::new();
    let mut i: usize = 0;
    while i < override_keys.len()
        invariant
            i <= override_keys.len(),
            views == text::text_views(override_keys@),
            text::text_views(seen@) == views.take(i as int),
            views.take(i as int).no_duplicates(),
        decreases override_keys.len() - i,
    {
        if contains_text(&seen, &override_keys[i]) {
            proof {
                let k = choose|k: int| 0 <= k < i && views.take(i as int)[k] == views[i as int];
                assert(views[k] == views[i as int]);
            }
            return Err(GroupError::DuplicateOverrideKey { key: override_keys[i].clone() });
        }
        let ghost before = seen@;
        seen.push(override_keys[i].clone());
        proof {
            assert(text::text_views(seen@) =~= text::text_views(before).push(views[i as int]));
            assert(views.take(i + 1) =~= views.take(i as int).push(views[i as int]));
            let shorter = views.take(i as int);
            let longer = views.take(i + 1);
            assert forall|j: int, k: int|
                0 <= j < longer.len() && 0 <= k < longer.len() && j != k implies longer[j]
                != longer[k] by {
                if j < i && k == i {
                    assert(shorter.contains(shorter[j]));
                }
                if k < i && j == i {
                    assert(shorter.contains(shorter[k]));
                }
                if j < i && k < i {
                    assert(shorter[j] != shorter[k]);
                }
            }
        }
        i += 1;
    }
    assert(views.take(i as int) =~= views);
    Ok(())
}

/// Refuses unless an experiment was found for every expected id.
pub fn ensure_experiments_exist(
    expected: &Vec<i64>,
    found: &Vec<Experiment>,
    reason: &str,
) -> (result: Result<(), GroupError>)
    ensures
        match result {
            Ok(_) => missing_ids(expected@, found@).len() == 0,
            Err(error) => {
                &&& missing_ids(expected@, found@).len() > 0
                &&& error@ == (GroupErrorView::MissingExperiments {
                    reason: reason@,
                    ids: missing_ids(expected@, found@),
                })
            },
        },
{
    let mut found_ids: Vec<i64> = Vec::new();
    let mut i: usize = 0;
    while i < found.len()
        invariant
            i <= found.len(),
            found_ids@ == experiment_ids(found@).take(i as int),
        decreases found.len() - i,
    {
        found_ids.push(found[i].id);
        assert(experiment_ids(found@).take(i + 1) =~= experiment_ids(found@).take(i as int).push(
            found[i as int].id,
        ));
        i += 1;
    }
    assert(experiment_ids(found@).take(i as int) =~= experiment_ids(found@));
    let missing = ids_not_among(expected, &found_ids);
    if missing.len() == 0 {
        Ok(())
    } else {
        Err(GroupError::MissingExperiments { reason: reason.to_owned(), ids: missing })
    }
}

/// The ids of the new members that have to be looked up, each once. Refused
/// where the group holds one of them already.
pub fn members_to_fetch(new_members: &Vec<i64>, existing_members: &Vec<i64>) -> (result: Result<
    Vec<i64>,
    GroupError,
>)
    ensures
        ({
            let wanted = lists::distinct(new_members@);
            let repeating = wanted.filter(lists::among(existing_members@));
            ids_view(result) == if repeating.len() > 0 {
                Err::<Seq<i64>, GroupErrorView>(GroupErrorView::AlreadyMembers { ids: repeating })
            } else {
                Ok(wanted)
            }
        }),
{
    let wanted = distinct_ids(new_members);
    let repeating = ids_among(&wanted, existing_members);
    if repeating.len() > 0 {
        Err(GroupError::AlreadyMembers { ids: repeating })
    } else {
        Ok(wanted)
    }
}

/// The experiments that are to join a group, out of those that were found.
///
/// No new members are none. Otherwise only experiments that were created and not
/// started yet count, and the request is refused where a new member is in the
/// group already, and where there is no such experiment for one.
pub fn fetch_and_validate_members(
    new_members: &Vec<i64>,
    existing_members: &Vec<i64>,
    found: Vec<Experiment>,
) -> (result: Result<Vec<Experiment>, GroupError>)
    ensures
        match fetched_members(new_members@, existing_members@, found@) {
            Ok(members) => result is Ok && result->Ok_0@ == members,
            Err(refusal) => result is Err && result->Err_0@ == refusal,
        },
{
    if new_members.len() == 0 {
        return Ok(Vec::new());
    }
    let wanted = match members_to_fetch(new_members, existing_members) {
        Ok(wanted) => wanted,
        Err(error) => return Err(error),
    };
    let ghost all = found@;
    let mut members: Vec<Experiment> = Vec::new();
    proof {
        reveal(Seq::filter);
        assert(all.take(0) =~= Seq::<Experiment>::empty());
    }
    for experiment in it: found
        invariant
            it.seq() == all,
            members@ == all.take(it.index() as int).filter(joinable(wanted@)),
    {
        proof {
            lists::lemma_filter_step(all, joinable(wanted@), it.index() as int);
        }
        if experiment.status == ExperimentStatusType::CREATED && contains_id(
            &wanted,
            experiment.id,
        ) {
            members.push(experiment);
        }
    }
    assert(all.take(all.len() as int) =~= all);
    match ensure_experiments_exist(
        &wanted,
        &members,
        "The following experiment IDs are not present in the database/are not in the created stage",
    ) {
        Ok(_) => Ok(members),
        Err(error) => Err(error),
    }
}

/// The members of a group after the candidates have joined it, each once.
///
/// Refused where the condition of a candidate does not contain that of the
/// group, and where the traffic percentages of the candidates add up to more
/// than 100.
pub fn validate_experiment_group_constraints(
    member_experiments: &Vec<Candidate>,
    existing_members: &Vec<i64>,
) -> (result: Result<Vec<i64>, GroupError>)
    ensures
        ids_view(result) == joined_members(member_experiments@, existing_members@),
{
    let mut i: usize = 0;
    while i < member_experiments.len()
        invariant
            i <= member_experiments.len(),
            context_refusal(member_experiments@.take(i as int)) is None,
        decreases member_experiments.len() - i,
    {
        let candidate = &member_experiments[i];
        proof {
            assert(member_experiments@.take(i + 1).drop_last() =~= member_experiments@.take(
                i as int,
            ));
        }
        match &candidate.contains_group_context {
            Ok(true) => {},
            Ok(false) => {
                proof {
                    lemma_context_refusal_stays(member_experiments@, i + 1);
                }
                return Err(GroupError::ContextMismatch { experiment_id: candidate.experiment.id });
            },
            Err(reason) => {
                proof {
                    lemma_context_refusal_stays(member_experiments@, i + 1);
                }
                return Err(GroupError::ContextNotComparable { reason: reason.clone() });
            },
        }
        i += 1;
    }
    assert(member_experiments@.take(i as int) =~= member_experiments@);

    let mut total: u64 = 0;
    let mut all_members: Vec<i64> = existing_members.clone();
    i = 0;
    assert(all_members@ =~= existing_members@ + candidate_ids(member_experiments@.take(0)));
    while i < member_experiments.len()
        invariant
            i <= member_experiments.len(),
            total <= 100,
            total == traffic_sum(member_experiments@.take(i as int)),
            context_refusal(member_experiments@) is None,
            all_members@ == existing_members@ + candidate_ids(
                member_experiments@.take(i as int),
            ),
        decreases member_experiments.len() - i,
    {
        let candidate = &member_experiments[i];
        proof {
            assert(member_experiments@.take(i + 1).drop_last() =~= member_experiments@.take(
                i as int,
            ));
        }
        total += candidate.experiment.traffic_percentage.value() as u64;
        if total > 100 {
            proof {
                lemma_traffic_prefix(member_experiments@, i + 1);
            }
            return Err(GroupError::TrafficExceeded);
        }
        all_members.push(candidate.experiment.id);
        assert(all_members@ =~= existing_members@ + candidate_ids(
            member_experiments@.take(i + 1),
        ));
        i += 1;
    }
    assert(member_experiments@.take(i as int) =~= member_experiments@);
    Ok(distinct_ids(&all_members))
}

proof fn lemma_context_refusal_stays(candidates: Seq<Candidate>, i: int)
    requires
        0 <= i <= candidates.len(),
        context_refusal(candidates.take(i)) is Some,
    ensures
        context_refusal(candidates) == context_refusal(candidates.take(i)),
    decreases candidates.len(),
{
    if i < candidates.len() {
        assert(candidates.drop_last().take(i) =~= candidates.take(i));
        lemma_context_refusal_stays(candidates.drop_last(), i);
    } else {
        assert(candidates.take(i) =~= candidates);
    }
}

proof fn lemma_traffic_prefix(candidates: Seq<Candidate>, i: int)
    requires
        0 <= i <= candidates.len(),
    ensures
        traffic_sum(candidates.take(i)) <= traffic_sum(candidates),
    decreases candidates.len(),
{
    if i < candidates.len() {
        assert(candidates.drop_last().take(i) =~= candidates.take(i));
        lemma_traffic_prefix(candidates.drop_last(), i);
    } else {
        assert(candidates.take(i) =~= candidates);
    }
}

/// Refuses a request to add members that names none.
pub fn require_members_to_add(requested: &Vec<i64>) -> (result: Result<(), GroupError>)
    ensures
        match result {
            Ok(_) => requested@.len() > 0,
            Err(error) => requested@.len() == 0 && error@ == GroupErrorView::NothingToAdd,
        },
{
    if requested.len() == 0 {
        Err(GroupError::NothingToAdd)
    } else {
        Ok(())
    }
}

/// Refuses a request to remove members that names none.
pub fn require_members_to_remove(requested: &Vec<i64>) -> (result: Result<(), GroupError>)
    ensures
        match result {
            Ok(_) => requested@.len() > 0,
            Err(error) => requested@.len() == 0 && error@ == GroupErrorView::NothingToRemove,
        },
{
    if requested.len() == 0 {
        Err(GroupError::NothingToRemove)
    } else {
        Ok(())
    }
}

/// The members of a group after the requested experiments, which are the
/// candidates, have joined it.
///
/// A system-generated group takes no members. A release takes every bucket, so
/// it cannot share a group that a user made.
pub fn add_members(
    experiment_group: &ExperimentGroup,
    member_experiments: &Vec<Candidate>,
    requested: &Vec<i64>,
) -> (result: Result<Vec<i64>, GroupError>)
    ensures
        ids_view(result) == members_after_adding(
            experiment_group.group_type,
            experiment_group.member_experiment_ids@,
            requested@,
            member_experiments@,
        ),
{
    match require_members_to_add(requested) {
        Ok(_) => {},
        Err(error) => return Err(error),
    }
    if experiment_group.group_type == GroupType::SystemGenerated {
        return Err(GroupError::AddToSystemGenerated);
    }
    let mut i: usize = 0;
    while i < member_experiments.len()
        invariant
            i <= member_experiments.len(),
            requested@.len() > 0,
            experiment_group.group_type != GroupType::SystemGenerated,
            forall|j: int|
                0 <= j < i ==> (#[trigger] member_experiments[j]).experiment.experiment_type
                    != ExperimentType::Release,
        decreases member_experiments.len() - i,
    {
        if member_experiments[i].experiment.experiment_type == ExperimentType::Release {
            assert(has_release(member_experiments@)) by {
                assert(member_experiments@[i as int].experiment.experiment_type
                    == ExperimentType::Release);
            }
            return Err(GroupError::ReleaseInUserCreatedGroup);
        }
        i += 1;
    }
    validate_experiment_group_constraints(
        member_experiments,
        &experiment_group.member_experiment_ids,
    )
}

/// What is to be done to remove members: who stays, and whose buckets are to be
/// freed, each once.
#[derive(Debug, PartialEq, Eq)]
pub struct RemovalPlan {
    pub remaining: Vec<i64>,
    pub removed: Vec<i64>,
}

/// Who stays in a group and whose buckets are to be freed when the requested
/// experiments leave it. A system-generated group gives up no members.
pub fn plan_removal(experiment_group: &ExperimentGroup, requested: &Vec<i64>) -> (result: Result<
    RemovalPlan,
    GroupError,
>)
    ensures
        match members_after_removing(
            experiment_group.group_type,
            experiment_group.member_experiment_ids@,
            requested@,
        ) {
            Ok(remaining) => {
                &&& result is Ok
                &&& result->Ok_0.remaining@ == remaining
                &&& result->Ok_0.removed@ == lists::distinct(requested@)
            },
            Err(refusal) => result is Err && result->Err_0@ == refusal,
        },
{
    match require_members_to_remove(requested) {
        Ok(_) => {},
        Err(error) => return Err(error),
    }
    if experiment_group.group_type == GroupType::SystemGenerated {
        return Err(GroupError::RemoveFromSystemGenerated);
    }
    let current = distinct_ids(&experiment_group.member_experiment_ids);
    Ok(RemovalPlan {
        remaining: ids_not_among(&current, requested),
        removed: distinct_ids(requested),
    })
}

/// A group's members and buckets after some members have left.
#[derive(Debug, PartialEq, Eq)]
pub struct Removal {
    pub member_experiment_ids: Vec<i64>,
    pub buckets: Buckets,
}

/// A group's members and buckets after the requested experiments have left it.
/// Refused where one of them is not among those that were found.
pub fn remove_members(
    experiment_group: ExperimentGroup,
    requested: &Vec<i64>,
    found: &Vec<Experiment>,
) -> (result: Result<Removal, GroupError>)
    ensures
        match members_after_removing(
            experiment_group.group_type,
            experiment_group.member_experiment_ids@,
            requested@,
        ) {
            Ok(remaining) => {
                let missing = missing_ids(lists::distinct(requested@), found@);
                if missing.len() > 0 {
                    result is Err && result->Err_0@ == (GroupErrorView::MissingExperiments {
                        reason: not_removable_reason(),
                        ids: missing,
                    })
                } else {
                    &&& result is Ok
                    &&& result->Ok_0.member_experiment_ids@ == remaining
                    &&& result->Ok_0.buckets@ == without_experiments(
                        experiment_group.buckets@,
                        found@.filter(identified_by(requested@)),
                    )
                }
            },
            Err(refusal) => result is Err && result->Err_0@ == refusal,
        },
{
    let plan = match plan_removal(&experiment_group, requested) {
        Ok(plan) => plan,
        Err(error) => return Err(error),
    };
    match ensure_experiments_exist(
        &plan.removed,
        found,
        "The following experiment IDs are not present in the database",
    ) {
        Ok(_) => {},
        Err(error) => return Err(error),
    }
    let ghost start = experiment_group.buckets@;
    let ghost leaving = identified_by(requested@);
    let mut buckets = experiment_group.buckets;
    let mut i: usize = 0;
    proof {
        reveal(Seq::filter);
        assert(found@.take(0) =~= Seq::<Experiment>::empty());
    }
    while i < found.len()
        invariant
            i <= found.len(),
            leaving == identified_by(requested@),
            buckets@ == without_experiments(start, found@.take(i as int).filter(leaving)),
        decreases found.len() - i,
    {
        proof {
            lists::lemma_filter_step(found@, leaving, i as int);
            let before = found@.take(i as int).filter(leaving);
            assert(before.push(found@[i as int]).drop_last() =~= before);
        }
        if contains_id(requested, found[i].id) {
            free_experiment_buckets(&found[i], &mut buckets);
        }
        i += 1;
    }
    assert(found@.take(i as int) =~= found@);
    Ok(Removal { member_experiment_ids: plan.remaining, buckets })
}

} // verus!
