//! What holds of every change of a group's members.
use vstd::prelude::*;

use crate::lists;
use crate::members;
use crate::members::Candidate;
use crate::model::{Experiment, ExperimentStatusType, ExperimentType, GroupType};
use crate::slots;
use crate::slots::Slots;
use crate::text;

verus! {

/// Members are added only to a group that a user made, and only candidates that
/// are no releases, whose conditions contain that of the group, and whose
/// traffic percentages add up to at most 100.
pub proof fn added_members_fit_the_group(
    group_type: GroupType,
    existing: Seq<i64>,
    requested: Seq<i64>,
    candidates: Seq<Candidate>,
)
    requires
        members::members_after_adding(group_type, existing, requested, candidates) is Ok,
    ensures
        requested.len() > 0,
        group_type == GroupType::UserCreated,
        forall|i: int|
            0 <= i < candidates.len() ==> {
                &&& (#[trigger] candidates[i]).experiment.experiment_type
                    != ExperimentType::Release
                &&& candidates[i].contains_group_context == Ok::<bool, String>(true)
            },
        members::traffic_sum(candidates) <= 100,
{
    lemma_contexts_fit(candidates);
}

proof fn lemma_contexts_fit(candidates: Seq<Candidate>)
    requires
        members::context_refusal(candidates) is None,
    ensures
        forall|i: int|
            0 <= i < candidates.len() ==> (#[trigger] candidates[i]).contains_group_context
                == Ok::<bool, String>(true),
    decreases candidates.len(),
{
    if candidates.len() > 0 {
        let shorter = candidates.drop_last();
        lemma_contexts_fit(shorter);
        assert forall|i: int| 0 <= i < candidates.len() implies (
        #[trigger] candidates[i]).contains_group_context == Ok::<bool, String>(true) by {
            if i < shorter.len() {
                assert(shorter[i] == candidates[i]);
            }
        }
    }
}

/// After members were added the group holds each of its former members and of
/// the candidates once, and nobody else.
pub proof fn adding_keeps_members_and_adds_candidates(
    group_type: GroupType,
    existing: Seq<i64>,
    requested: Seq<i64>,
    candidates: Seq<Candidate>,
    id: i64,
)
    requires
        members::members_after_adding(group_type, existing, requested, candidates) is Ok,
    ensures
        ({
            let after = members::members_after_adding(
                group_type,
                existing,
                requested,
                candidates,
            )->Ok_0;
            &&& after.no_duplicates()
            &&& after.contains(id) <==> existing.contains(id) || members::candidate_ids(
                candidates,
            ).contains(id)
        }),
{
    let ids = members::candidate_ids(candidates);
    let all = existing + ids;
    lists::lemma_distinct(all);
    assert(all.contains(id) <==> existing.contains(id) || ids.contains(id)) by {
        if existing.contains(id) {
            let i = choose|i: int| 0 <= i < existing.len() && existing[i] == id;
            assert(all[i] == id);
        }
        if ids.contains(id) {
            let i = choose|i: int| 0 <= i < ids.len() && ids[i] == id;
            assert(all[existing.len() + i] == id);
        }
    }
}

/// After members were removed the group holds each of its former members that
/// was not to be removed once, and nobody else.
pub proof fn removing_keeps_the_other_members(
    group_type: GroupType,
    existing: Seq<i64>,
    requested: Seq<i64>,
    id: i64,
)
    requires
        members::members_after_removing(group_type, existing, requested) is Ok,
    ensures
        ({
            let after = members::members_after_removing(group_type, existing, requested)->Ok_0;
            &&& after.no_duplicates()
            &&& after.contains(id) <==> existing.contains(id) && !requested.contains(id)
        }),
{
    lists::lemma_distinct(existing);
    lists::lemma_filtered(lists::distinct(existing), lists::not_among(requested));
}

/// The distinct items of two lists behind each other are those of the first one,
/// and then only items of the second one.
proof fn lemma_distinct_concat(first: Seq<i64>, second: Seq<i64>)
    requires
        first.no_duplicates(),
    ensures
        ({
            let all = lists::distinct(first + second);
            &&& all.len() >= first.len()
            &&& all.take(first.len() as int) == first
            &&& forall|i: int|
                first.len() <= i < all.len() ==> second.contains(#[trigger] all[i])
        }),
    decreases second.len(),
{
    let all = lists::distinct(first + second);
    if second.len() == 0 {
        assert(first + second =~= first);
        lists::lemma_distinct_of_distinct(first);
        assert(all.take(first.len() as int) =~= first);
    } else {
        let shorter = second.drop_last();
        lemma_distinct_concat(first, shorter);
        let before = lists::distinct(first + shorter);
        assert((first + second).drop_last() =~= first + shorter);
        assert((first + second).last() == second.last());
        assert(all.take(first.len() as int) =~= before.take(first.len() as int));
        assert forall|i: int| first.len() <= i < all.len() implies second.contains(
            #[trigger] all[i],
        ) by {
            if i < before.len() {
                assert(shorter.contains(before[i]));
                let j = choose|j: int| 0 <= j < shorter.len() && shorter[j] == before[i];
                assert(second[j] == all[i]);
            } else {
                assert(second[second.len() - 1] == all[i]);
            }
        }
    }
}

proof fn lemma_filter_nothing(items: Seq<i64>, wanted: spec_fn(i64) -> bool)
    requires
        forall|i: int| 0 <= i < items.len() ==> !wanted(#[trigger] items[i]),
    ensures
        items.filter(wanted).len() == 0,
    decreases items.len(),
{
    reveal(Seq::filter);
    if items.len() > 0 {
        let shorter = items.drop_last();
        assert forall|i: int| 0 <= i < shorter.len() implies !wanted(#[trigger] shorter[i]) by {
            assert(shorter[i] == items[i]);
        }
        lemma_filter_nothing(shorter, wanted);
        assert(!wanted(items[items.len() - 1]));
    }
}

/// Removing undoes adding: where the candidates were no members before, removing
/// them again leaves the members as they were.
pub proof fn removing_undoes_adding(
    group_type: GroupType,
    existing: Seq<i64>,
    requested: Seq<i64>,
    candidates: Seq<Candidate>,
)
    requires
        existing.no_duplicates(),
        candidates.len() > 0,
        forall|i: int|
            0 <= i < candidates.len() ==> !existing.contains(
                (#[trigger] candidates[i]).experiment.id,
            ),
        members::members_after_adding(group_type, existing, requested, candidates) is Ok,
    ensures
        members::members_after_removing(
            group_type,
            members::members_after_adding(group_type, existing, requested, candidates)->Ok_0,
            members::candidate_ids(candidates),
        ) == Ok::<Seq<i64>, crate::error::GroupErrorView>(existing),
{
    let ids = members::candidate_ids(candidates);
    let all = lists::distinct(existing + ids);
    let n = existing.len() as int;
    let kept = lists::not_among(ids);
    lists::lemma_distinct(existing + ids);
    lists::lemma_distinct_of_distinct(all);
    lemma_distinct_concat(existing, ids);
    assert(all =~= all.take(n) + all.skip(n));
    assert forall|i: int| 0 <= i < existing.len() implies kept(#[trigger] existing[i]) by {
        if ids.contains(existing[i]) {
            let j = choose|j: int| 0 <= j < ids.len() && ids[j] == existing[i];
            assert(candidates[j].experiment.id == existing[i]);
            assert(existing.contains(existing[i]));
        }
    }
    lists::lemma_filter_all(existing, kept);
    assert forall|i: int| 0 <= i < all.skip(n).len() implies !kept(#[trigger] all.skip(n)[i]) by {
        assert(all.skip(n)[i] == all[n + i]);
    }
    lemma_filter_nothing(all.skip(n), kept);
    Seq::filter_distributes_over_add(existing, all.skip(n), kept);
    assert(existing + all.skip(n).filter(kept) =~= existing);
}

/// Experiments that were removed hold no bucket any more, and the buckets of the
/// others are as they were.
pub proof fn removed_members_hold_no_bucket(row: Slots, removed: Seq<Experiment>)
    ensures
        ({
            let after = members::without_experiments(row, removed);
            &&& after.len() == row.len()
            &&& forall|i: int|
                0 <= i < row.len() ==> #[trigger] after[i] == if exists|k: int|
                    0 <= k < removed.len() && slots::owned_by(
                        text::decimal((#[trigger] removed[k]).id as int),
                    )(row[i]) {
                    None
                } else {
                    row[i]
                }
        }),
    decreases removed.len(),
{
    if removed.len() > 0 {
        let shorter = removed.drop_last();
        removed_members_hold_no_bucket(row, shorter);
        let before = members::without_experiments(row, shorter);
        let after = members::without_experiments(row, removed);
        assert forall|i: int| 0 <= i < row.len() implies #[trigger] after[i] == if exists|k: int|
            0 <= k < removed.len() && slots::owned_by(
                text::decimal((#[trigger] removed[k]).id as int),
            )(row[i]) {
            None
        } else {
            row[i]
        } by {
            if exists|k: int|
                0 <= k < shorter.len() && slots::owned_by(
                    text::decimal((#[trigger] shorter[k]).id as int),
                )(row[i]) {
                let k = choose|k: int|
                    0 <= k < shorter.len() && slots::owned_by(
                        text::decimal((#[trigger] shorter[k]).id as int),
                    )(row[i]);
                assert(removed[k] == shorter[k]);
            } else {
                assert(before[i] == row[i]);
                if exists|k: int|
                    0 <= k < removed.len() && slots::owned_by(
                        text::decimal((#[trigger] removed[k]).id as int),
                    )(row[i]) {
                    let k = choose|k: int|
                        0 <= k < removed.len() && slots::owned_by(
                            text::decimal((#[trigger] removed[k]).id as int),
                        )(row[i]);
                    if k < shorter.len() {
                        assert(shorter[k] == removed[k]);
                    }
                } else {
                    assert(removed[removed.len() - 1] == removed.last());
                }
            }
        }
    }
}

/// New members that were looked up and accepted were created and not started yet,
/// are among the new members, and were in the group in no case. Every new member
/// is among them.
pub proof fn accepted_members_are_new_and_created(
    new_members: Seq<i64>,
    existing: Seq<i64>,
    found: Seq<Experiment>,
)
    requires
        members::fetched_members(new_members, existing, found) is Ok,
    ensures
        ({
            let accepted = members::fetched_members(new_members, existing, found)->Ok_0;
            &&& forall|i: int|
                0 <= i < accepted.len() ==> {
                    &&& (#[trigger] accepted[i]).status == ExperimentStatusType::CREATED
                    &&& new_members.contains(accepted[i].id)
                    &&& !existing.contains(accepted[i].id)
                }
            &&& forall|id: i64| #[trigger]
                new_members.contains(id) ==> members::experiment_ids(accepted).contains(id)
        }),
{
    let wanted = lists::distinct(new_members);
    let accepted = members::fetched_members(new_members, existing, found)->Ok_0;
    if new_members.len() > 0 {
        lists::lemma_distinct(new_members);
        lists::lemma_filtered(wanted, lists::among(existing));
        lists::lemma_filtered(found, members::joinable(wanted));
        lists::lemma_filtered(
            wanted,
            lists::not_among(members::experiment_ids(accepted)),
        );
        let repeating = wanted.filter(lists::among(existing));
        let missing = members::missing_ids(wanted, accepted);
        assert forall|i: int| 0 <= i < accepted.len() implies {
            &&& (#[trigger] accepted[i]).status == ExperimentStatusType::CREATED
            &&& new_members.contains(accepted[i].id)
            &&& !existing.contains(accepted[i].id)
        } by {
            assert(accepted.contains(accepted[i]));
            if existing.contains(accepted[i].id) {
                assert(repeating.contains(accepted[i].id));
            }
        }
        assert forall|id: i64| #[trigger]
            new_members.contains(id) implies members::experiment_ids(accepted).contains(id) by {
            assert(wanted.contains(id));
            assert(!missing.contains(id));
        }
    }
}

/// When members are removed, no bucket of an experiment that was to be removed is
/// left.
pub proof fn removing_frees_the_requested_experiments(
    row: Slots,
    requested: Seq<i64>,
    found: Seq<Experiment>,
    id: i64,
    i: int,
)
    requires
        members::missing_ids(lists::distinct(requested), found).len() == 0,
        requested.contains(id),
        0 <= i < row.len(),
        slots::owned_by(text::decimal(id as int))(row[i]),
    ensures
        members::without_experiments(
            row,
            found.filter(members::identified_by(requested)),
        )[i] is None,
{
    let removed = found.filter(members::identified_by(requested));
    let ids = members::experiment_ids(found);
    let missing = members::missing_ids(lists::distinct(requested), found);
    lists::lemma_distinct(requested);
    lists::lemma_filtered(lists::distinct(requested), lists::not_among(ids));
    lists::lemma_filtered(found, members::identified_by(requested));
    assert(lists::distinct(requested).contains(id));
    assert(!missing.contains(id));
    let j = choose|j: int| 0 <= j < ids.len() && ids[j] == id;
    assert(found.contains(found[j]));
    assert(removed.contains(found[j]));
    let k = choose|k: int| 0 <= k < removed.len() && removed[k] == found[j];
    removed_members_hold_no_bucket(row, removed);
    assert(slots::owned_by(text::decimal(removed[k].id as int))(row[i]));
}

/// When members are removed, an experiment that was not to be removed keeps its
/// buckets.
pub proof fn removing_spares_the_other_experiments(
    row: Slots,
    requested: Seq<i64>,
    found: Seq<Experiment>,
    id: i64,
    i: int,
)
    requires
        !requested.contains(id),
        0 <= i < row.len(),
        slots::owned_by(text::decimal(id as int))(row[i]),
    ensures
        members::without_experiments(row, found.filter(members::identified_by(requested)))[i]
            == row[i],
{
    let removed = found.filter(members::identified_by(requested));
    lists::lemma_filtered(found, members::identified_by(requested));
    removed_members_hold_no_bucket(row, removed);
    assert forall|k: int| 0 <= k < removed.len() implies !slots::owned_by(
        text::decimal((#[trigger] removed[k]).id as int),
    )(row[i]) by {
        assert(removed.contains(removed[k]));
        text::decimal_identifies_number(removed[k].id as int, id as int);
    }
}

} // verus!
