//! When changes of a group's members are refused, and what is told of it.
use vstd::prelude::*;

use crate::error::{GroupError, GroupErrorView};
use crate::lists;
use crate::members;
use crate::members::Candidate;
use crate::model::{Experiment, ExperimentStatusType, ExperimentType, GroupType};

verus! {

/// A list without repetitions holds each item of the list once, and nothing else.
pub proof fn distinct_lists_hold_each_item_once<T>(items: Seq<T>)
    ensures
        lists::distinct(items).no_duplicates(),
        forall|item: T| #[trigger] lists::distinct(items).contains(item) <==> items.contains(item),
        items.no_duplicates() ==> lists::distinct(items) == items,
{
    lists::lemma_distinct(items);
    if items.no_duplicates() {
        lists::lemma_distinct_of_distinct(items);
    }
}

/// The missing ids are the expected ones with which no experiment was found.
pub proof fn missing_ids_are_those_not_found(expected: Seq<i64>, found: Seq<Experiment>, id: i64)
    ensures
        members::missing_ids(expected, found).contains(id) <==> expected.contains(id) && !(exists|
            i: int,
        |
            0 <= i < found.len() && (#[trigger] found[i]).id == id),
        expected.no_duplicates() ==> members::missing_ids(expected, found).no_duplicates(),
{
    let ids = members::experiment_ids(found);
    lists::lemma_filtered(expected, lists::not_among(ids));
    if ids.contains(id) {
        let i = choose|i: int| 0 <= i < ids.len() && ids[i] == id;
        assert(found[i].id == id);
    }
    if exists|i: int| 0 <= i < found.len() && (#[trigger] found[i]).id == id {
        let i = choose|i: int| 0 <= i < found.len() && (#[trigger] found[i]).id == id;
        assert(ids[i] == id);
    }
}

/// Whether an experiment with the given id was found that was created and not
/// started yet.
pub open spec fn found_created(found: Seq<Experiment>, id: i64) -> bool {
    exists|i: int|
        0 <= i < found.len() && (#[trigger] found[i]).id == id && found[i].status
            == ExperimentStatusType::CREATED
}

/// New members are refused as members already exactly where one of them is in the
/// group, and exactly those are named. Otherwise they are refused as missing
/// exactly where no created experiment was found for one of them, and exactly
/// those are named. No new members are never refused.
pub proof fn new_members_are_refused_for_cause(
    new_members: Seq<i64>,
    existing: Seq<i64>,
    found: Seq<Experiment>,
)
    ensures
        ({
            let result = members::fetched_members(new_members, existing, found);
            let repeats = exists|i: int|
                0 <= i < new_members.len() && existing.contains(#[trigger] new_members[i]);
            let misses = exists|i: int|
                0 <= i < new_members.len() && !found_created(found, #[trigger] new_members[i]);
            &&& result is Ok <==> !repeats && !misses
            &&& repeats ==> match result {
                Err(GroupErrorView::AlreadyMembers { ids }) => {
                    &&& ids.no_duplicates()
                    &&& forall|id: i64| #[trigger]
                        ids.contains(id) <==> new_members.contains(id) && existing.contains(id)
                },
                _ => false,
            }
            &&& !repeats && misses ==> match result {
                Err(GroupErrorView::MissingExperiments { reason, ids }) => {
                    &&& ids.no_duplicates()
                    &&& forall|id: i64| #[trigger]
                        ids.contains(id) <==> new_members.contains(id) && !found_created(
                            found,
                            id,
                        )
                },
                _ => false,
            }
        }),
{
    let result = members::fetched_members(new_members, existing, found);
    let wanted = lists::distinct(new_members);
    let repeating = wanted.filter(lists::among(existing));
    let accepted = found.filter(members::joinable(wanted));
    let missing = members::missing_ids(wanted, accepted);
    let ids = members::experiment_ids(accepted);
    lists::lemma_distinct(new_members);
    lists::lemma_filtered(wanted, lists::among(existing));
    lists::lemma_filtered(found, members::joinable(wanted));
    lists::lemma_filtered(wanted, lists::not_among(ids));
    if exists|i: int|
        0 <= i < new_members.len() && existing.contains(#[trigger] new_members[i]) {
        let i = choose|i: int|
            0 <= i < new_members.len() && existing.contains(#[trigger] new_members[i]);
        assert(new_members.contains(new_members[i]));
        assert(repeating.contains(new_members[i]));
    }
    if repeating.len() > 0 {
        assert(repeating.contains(repeating[0]));
        assert(new_members.contains(repeating[0]));
        let i = choose|i: int| 0 <= i < new_members.len() && new_members[i] == repeating[0];
        assert(existing.contains(new_members[i]));
    }
    assert forall|id: i64| wanted.contains(id) implies (#[trigger] ids.contains(id)
        <==> found_created(found, id)) by {
        if ids.contains(id) {
            let i = choose|i: int| 0 <= i < ids.len() && ids[i] == id;
            assert(accepted.contains(accepted[i]));
            let j = choose|j: int| 0 <= j < found.len() && found[j] == accepted[i];
            assert(found[j].id == id);
        }
        if found_created(found, id) {
            let j = choose|j: int|
                0 <= j < found.len() && (#[trigger] found[j]).id == id && found[j].status
                    == ExperimentStatusType::CREATED;
            assert(found.contains(found[j]));
            assert(accepted.contains(found[j]));
            let i = choose|i: int| 0 <= i < accepted.len() && accepted[i] == found[j];
            assert(ids[i] == id);
        }
    }
    assert forall|id: i64| #[trigger]
        missing.contains(id) <==> new_members.contains(id) && !found_created(found, id) by {
        if new_members.contains(id) {
            assert(wanted.contains(id));
            assert(ids.contains(id) <==> found_created(found, id));
        }
        if missing.contains(id) {
            assert(wanted.contains(id));
            assert(ids.contains(id) <==> found_created(found, id));
        }
    }
    if missing.len() > 0 {
        assert(missing.contains(missing[0]));
        let i = choose|i: int| 0 <= i < new_members.len() && new_members[i] == missing[0];
        assert(!found_created(found, new_members[i]));
    }
    if exists|i: int|
        0 <= i < new_members.len() && !found_created(found, #[trigger] new_members[i]) {
        let i = choose|i: int|
            0 <= i < new_members.len() && !found_created(found, #[trigger] new_members[i]);
        assert(new_members.contains(new_members[i]));
        assert(missing.contains(new_members[i]));
    }
}

/// Experiments that were found are accepted all and in their order where they
/// were created and are among the new members.
pub proof fn found_members_are_accepted_as_they_are(
    new_members: Seq<i64>,
    existing: Seq<i64>,
    found: Seq<Experiment>,
)
    requires
        members::fetched_members(new_members, existing, found) is Ok,
        forall|i: int|
            0 <= i < found.len() ==> (#[trigger] found[i]).status == ExperimentStatusType::CREATED
                && new_members.contains(found[i].id),
    ensures
        members::fetched_members(new_members, existing, found)->Ok_0 == found,
{
    let wanted = lists::distinct(new_members);
    lists::lemma_distinct(new_members);
    if new_members.len() > 0 {
        assert forall|i: int| 0 <= i < found.len() implies members::joinable(wanted)(
            #[trigger] found[i],
        ) by {
            assert(wanted.contains(found[i].id));
        }
        lists::lemma_filter_all(found, members::joinable(wanted));
    } else {
        if found.len() > 0 {
            assert(new_members.contains(found[0].id));
        }
        assert(found =~= Seq::<Experiment>::empty());
    }
}

/// The traffic percentages of two lists of candidates add up, and a single
/// candidate counts with its own.
pub proof fn traffic_percentages_add_up(
    first: Seq<Candidate>,
    second: Seq<Candidate>,
    candidate: Candidate,
)
    ensures
        members::traffic_sum(first + second) == members::traffic_sum(first)
            + members::traffic_sum(second),
        members::traffic_sum(seq![candidate]) == candidate.experiment.traffic_percentage@,
        members::traffic_sum(Seq::empty()) == 0,
    decreases second.len(),
{
    let one = seq![candidate];
    assert(one.drop_last() =~= Seq::<Candidate>::empty());
    assert(members::traffic_sum(one.drop_last()) == 0);
    assert(one.last() == candidate);
    if second.len() == 0 {
        assert(first + second =~= first);
    } else {
        let shorter = second.drop_last();
        traffic_percentages_add_up(first, shorter, candidate);
        assert((first + second).drop_last() =~= first + shorter);
        assert((first + second).last() == second.last());
    }
}

/// The first candidate whose condition does not contain that of the group is
/// refused: as a mismatch, naming it, or with the reason why that could not be
/// told. Where there is none, no condition is a ground of refusal.
pub proof fn the_first_context_that_does_not_fit_is_refused(candidates: Seq<Candidate>, i: int)
    requires
        0 <= i <= candidates.len(),
        forall|j: int|
            0 <= j < i ==> (#[trigger] candidates[j]).contains_group_context == Ok::<bool, String>(
                true,
            ),
        i < candidates.len() ==> candidates[i].contains_group_context != Ok::<bool, String>(true),
    ensures
        i == candidates.len() ==> members::context_refusal(candidates) is None,
        i < candidates.len() ==> members::context_refusal(candidates) == Some(
            match candidates[i].contains_group_context {
                Ok(_) => GroupErrorView::ContextMismatch {
                    experiment_id: candidates[i].experiment.id,
                },
                Err(reason) => GroupErrorView::ContextNotComparable { reason: reason@ },
            },
        ),
    decreases candidates.len(),
{
    if candidates.len() > 0 {
        let shorter = candidates.drop_last();
        assert forall|j: int| 0 <= j < i && j < shorter.len() implies (
        #[trigger] shorter[j]).contains_group_context == Ok::<bool, String>(true) by {
            assert(shorter[j] == candidates[j]);
        }
        if i < shorter.len() {
            assert(shorter[i] == candidates[i]);
            the_first_context_that_does_not_fit_is_refused(shorter, i);
        } else {
            the_first_context_that_does_not_fit_is_refused(shorter, shorter.len() as int);
            if i == candidates.len() {
                assert(candidates[candidates.len() - 1].contains_group_context == Ok::<
                    bool,
                    String,
                >(true));
            }
        }
    }
}

/// Adding members is refused exactly where none are named, the group is
/// system-generated, a candidate is a release, the condition of a candidate does
/// not contain that of the group, or the traffic percentages of the candidates add
/// up to more than 100. The first of these grounds is told.
pub proof fn adding_is_refused_for_cause(
    group_type: GroupType,
    existing: Seq<i64>,
    requested: Seq<i64>,
    candidates: Seq<Candidate>,
)
    ensures
        ({
            let result = members::members_after_adding(
                group_type,
                existing,
                requested,
                candidates,
            );
            let release = exists|i: int|
                0 <= i < candidates.len() && (#[trigger] candidates[i]).experiment.experiment_type
                    == ExperimentType::Release;
            let unfit = exists|i: int|
                0 <= i < candidates.len() && (#[trigger] candidates[i]).contains_group_context
                    != Ok::<bool, String>(true);
            let grounded = requested.len() == 0 || group_type == GroupType::SystemGenerated
                || release;
            &&& result is Ok <==> !grounded && !unfit && members::traffic_sum(candidates) <= 100
            &&& requested.len() == 0 ==> result == Err::<Seq<i64>, GroupErrorView>(
                GroupErrorView::NothingToAdd,
            )
            &&& requested.len() > 0 && group_type == GroupType::SystemGenerated ==> result
                == Err::<Seq<i64>, GroupErrorView>(GroupErrorView::AddToSystemGenerated)
            &&& requested.len() > 0 && group_type == GroupType::UserCreated && release ==> result
                == Err::<Seq<i64>, GroupErrorView>(GroupErrorView::ReleaseInUserCreatedGroup)
            &&& !grounded && unfit ==> members::context_refusal(candidates) is Some && result
                == Err::<Seq<i64>, GroupErrorView>(members::context_refusal(candidates)->0)
            &&& !grounded && !unfit && members::traffic_sum(candidates) > 100 ==> result == Err::<
                Seq<i64>,
                GroupErrorView,
            >(GroupErrorView::TrafficExceeded)
        }),
{
    if exists|i: int|
        0 <= i < candidates.len() && (#[trigger] candidates[i]).contains_group_context != Ok::<
            bool,
            String,
        >(true) {
        let i = choose|i: int|
            0 <= i < candidates.len() && (#[trigger] candidates[i]).contains_group_context != Ok::<
                bool,
                String,
            >(true);
        lemma_unfit_is_refused(candidates, i);
    } else {
        the_first_context_that_does_not_fit_is_refused(candidates, candidates.len() as int);
    }
}

proof fn lemma_unfit_is_refused(candidates: Seq<Candidate>, i: int)
    requires
        0 <= i < candidates.len(),
        candidates[i].contains_group_context != Ok::<bool, String>(true),
    ensures
        members::context_refusal(candidates) is Some,
    decreases candidates.len(),
{
    let shorter = candidates.drop_last();
    if i < shorter.len() {
        assert(shorter[i] == candidates[i]);
        lemma_unfit_is_refused(shorter, i);
    }
}

/// Removing members is refused exactly where none are named or the group is
/// system-generated. The first of these grounds is told.
pub proof fn removing_is_refused_for_cause(
    group_type: GroupType,
    existing: Seq<i64>,
    requested: Seq<i64>,
)
    ensures
        ({
            let result = members::members_after_removing(group_type, existing, requested);
            &&& result is Ok <==> requested.len() > 0 && group_type == GroupType::UserCreated
            &&& requested.len() == 0 ==> result == Err::<Seq<i64>, GroupErrorView>(
                GroupErrorView::NothingToRemove,
            )
            &&& requested.len() > 0 && group_type == GroupType::SystemGenerated ==> result
                == Err::<Seq<i64>, GroupErrorView>(GroupErrorView::RemoveFromSystemGenerated)
        }),
{
}

/// Candidates join a group's members exactly where their conditions contain that of
/// the group and their traffic percentages add up to at most 100. Then the group
/// holds each of its former members and of the candidates once, and nobody else.
pub proof fn candidates_join_the_members(
    candidates: Seq<Candidate>,
    existing: Seq<i64>,
    id: i64,
)
    ensures
        ({
            let result = members::joined_members(candidates, existing);
            let unfit = exists|i: int|
                0 <= i < candidates.len() && (#[trigger] candidates[i]).contains_group_context
                    != Ok::<bool, String>(true);
            &&& result is Ok <==> !unfit && members::traffic_sum(candidates) <= 100
            &&& result is Ok ==> {
                &&& result->Ok_0.no_duplicates()
                &&& result->Ok_0.contains(id) <==> existing.contains(id) || exists|i: int|
                    0 <= i < candidates.len() && (#[trigger] candidates[i]).experiment.id == id
            }
            &&& unfit ==> result is Err && members::context_refusal(candidates) is Some
                && result->Err_0 == members::context_refusal(candidates)->0
            &&& !unfit && result is Err ==> result->Err_0 == GroupErrorView::TrafficExceeded
        }),
{
    if exists|i: int|
        0 <= i < candidates.len() && (#[trigger] candidates[i]).contains_group_context != Ok::<
            bool,
            String,
        >(true) {
        let i = choose|i: int|
            0 <= i < candidates.len() && (#[trigger] candidates[i]).contains_group_context != Ok::<
                bool,
                String,
            >(true);
        lemma_unfit_is_refused(candidates, i);
    } else {
        the_first_context_that_does_not_fit_is_refused(candidates, candidates.len() as int);
    }
    let ids = members::candidate_ids(candidates);
    let all = existing + ids;
    lists::lemma_distinct(all);
    if existing.contains(id) {
        let i = choose|i: int| 0 <= i < existing.len() && existing[i] == id;
        assert(all[i] == id);
    }
    if exists|i: int| 0 <= i < candidates.len() && (#[trigger] candidates[i]).experiment.id == id {
        let i = choose|i: int|
            0 <= i < candidates.len() && (#[trigger] candidates[i]).experiment.id == id;
        assert(all[existing.len() + i] == id);
    }
    if all.contains(id) {
        let i = choose|i: int| 0 <= i < all.len() && all[i] == id;
        if i < existing.len() {
            assert(existing[i] == id);
        } else {
            assert(candidates[i - existing.len()].experiment.id == id);
        }
    }
}

/// A result of ids shows its ids in their order, or its refusal.
pub proof fn results_show_their_ids(result: Result<Vec<i64>, GroupError>)
    ensures
        members::ids_view(result) is Ok <==> result is Ok,
        result is Ok ==> members::ids_view(result)->Ok_0 == result->Ok_0@,
        result is Err ==> members::ids_view(result)->Err_0 == result->Err_0@,
{
}

} // verus!
