//! What holds of the variants that requests are served.
use vstd::prelude::*;

use crate::allocation;
use crate::allocation_laws;
use crate::experiment;
use crate::experiment::{
    ContextFilter, Evaluated, FfiExperiment, FfiExperimentGroup, Selection, TossView,
};
use crate::groups;
use crate::json;
use crate::lists;
use crate::model;
use crate::model::{ExperimentType, GroupType, Variant};
use crate::slots;
use crate::slots::Slots;
use crate::target_laws;
use crate::text;

verus! {

/// A toss is a percentage: it never exceeds 100.
pub proof fn tosses_are_percentages(group: Evaluated<FfiExperimentGroup>, index: nat)
    requires
        index < 100,
        experiment::toss_in_group(group, index) is Some,
    ensures
        experiment::toss_in_group(group, index)->0.toss <= 100,
{
    let traffic = group.item.traffic_percentage as nat;
    if group.item.group_type != GroupType::SystemGenerated {
        assert(index * 100 / traffic <= 100) by (nonlinear_arith)
            requires
                index <= traffic,
                traffic > 0,
        ;
    }
}

/// An experiment whose condition is satisfied serves a bucket exactly where the
/// toss does not exceed the traffic that the experiment covers.
pub proof fn experiments_gate_above_their_coverage(
    experiments: Map<Seq<char>, Evaluated<FfiExperiment>>,
    toss: TossView,
)
    requires
        experiments.contains_key(toss.bucket.experiment_id),
        experiments[toss.bucket.experiment_id].satisfied,
    ensures
        ({
            let held = experiments[toss.bucket.experiment_id].item;
            experiment::served_variant(experiments, toss) == if toss.toss <= model::covered_traffic(
                held.experiment_type,
                held.traffic_percentage as nat,
                held.variants.list@.len(),
            ) {
                Some(toss.bucket.variant_id)
            } else {
                None
            }
        }),
{
}

/// A release whose condition is satisfied serves every bucket that it holds in a
/// group, whatever its traffic percentage is.
pub proof fn releases_serve_all_their_buckets(
    experiments: Map<Seq<char>, Evaluated<FfiExperiment>>,
    group: Evaluated<FfiExperimentGroup>,
    index: nat,
)
    requires
        index < 100,
        experiment::toss_in_group(group, index) is Some,
        ({
            let id = experiment::toss_in_group(group, index)->0.bucket.experiment_id;
            &&& experiments.contains_key(id)
            &&& experiments[id].satisfied
            &&& experiments[id].item.experiment_type == ExperimentType::Release
        }),
    ensures
        ({
            let toss = experiment::toss_in_group(group, index)->0;
            experiment::served_variant(experiments, toss) == Some(toss.bucket.variant_id)
        }),
{
    tosses_are_percentages(group, index);
}

/// Nothing is served to a request without an identifier, nor out of groups and
/// experiments whose conditions are not satisfied.
pub proof fn nothing_is_served_out_of_context(
    experiments: Map<Seq<char>, Evaluated<FfiExperiment>>,
    groups: Seq<Evaluated<FfiExperimentGroup>>,
    identifier: Seq<char>,
)
    requires
        identifier.len() == 0 || (forall|i: int|
            0 <= i < groups.len() ==> !(#[trigger] groups[i]).satisfied) || (forall|id: Seq<char>|
            #[trigger] experiments.contains_key(id) ==> !experiments[id].satisfied),
    ensures
        experiment::served_variants(
            experiments,
            experiment::tosses(groups, identifier),
        ).len() == 0,
    decreases groups.len(),
{
    if identifier.len() > 0 && groups.len() > 0 {
        let shorter = groups.drop_last();
        if forall|i: int| 0 <= i < groups.len() ==> !(#[trigger] groups[i]).satisfied {
            assert forall|i: int| 0 <= i < shorter.len() implies !(
            #[trigger] shorter[i]).satisfied by {
                assert(shorter[i] == groups[i]);
            }
            assert(groups.last() == groups[groups.len() - 1]);
        }
        nothing_is_served_out_of_context(experiments, shorter, identifier);
        let before = experiment::tosses(shorter, identifier);
        let toss = experiment::toss_in_group(
            groups.last(),
            experiment::bucket_index(identifier, groups.last().item.id@),
        );
        if toss is Some {
            assert(before.push(toss->0).drop_last() =~= before);
            assert(experiments.contains_key(toss->0.bucket.experiment_id)
                || !experiments.contains_key(toss->0.bucket.experiment_id));
        }
    }
}

/// Every variant that is served is that of the bucket which the request falls
/// into in one of the groups.
pub proof fn served_variants_come_from_buckets(
    experiments: Map<Seq<char>, Evaluated<FfiExperiment>>,
    groups: Seq<Evaluated<FfiExperimentGroup>>,
    identifier: Seq<char>,
    k: int,
)
    requires
        0 <= k < experiment::served_variants(
            experiments,
            experiment::tosses(groups, identifier),
        ).len(),
    ensures
        exists|i: int|
            {
                let index = experiment::bucket_index(
                    identifier,
                    (#[trigger] groups[i]).item.id@,
                ) as int;
                &&& 0 <= i < groups.len()
                &&& groups[i].satisfied
                &&& index < groups[i].item.buckets@.len()
                &&& groups[i].item.buckets@[index] is Some
                &&& groups[i].item.buckets@[index]->0.variant_id == experiment::served_variants(
                    experiments,
                    experiment::tosses(groups, identifier),
                )[k]
            },
    decreases groups.len(),
{
    let served = experiment::served_variants(experiments, experiment::tosses(groups, identifier));
    let shorter = groups.drop_last();
    let before = experiment::tosses(shorter, identifier);
    let served_before = experiment::served_variants(experiments, before);
    let last = groups.len() - 1;
    let index = experiment::bucket_index(identifier, groups[last].item.id@);
    let toss = experiment::toss_in_group(groups[last], index);
    if toss is Some {
        assert(before.push(toss->0).drop_last() =~= before);
    }
    if k < served_before.len() {
        assert(served[k] == served_before[k]);
        served_variants_come_from_buckets(experiments, shorter, identifier, k);
        let i = choose|i: int|
            {
                let index = experiment::bucket_index(
                    identifier,
                    (#[trigger] shorter[i]).item.id@,
                ) as int;
                &&& 0 <= i < shorter.len()
                &&& shorter[i].satisfied
                &&& index < shorter[i].item.buckets@.len()
                &&& shorter[i].item.buckets@[index] is Some
                &&& shorter[i].item.buckets@[index]->0.variant_id == served_before[k]
            };
        assert(groups[i] == shorter[i]);
    } else {
        assert(groups[last].item.buckets@[index as int]->0.variant_id == served[k]);
    }
}

/// What a request is served out of a single group.
proof fn lemma_single_group(
    experiments: Map<Seq<char>, Evaluated<FfiExperiment>>,
    group: Evaluated<FfiExperimentGroup>,
    identifier: Seq<char>,
)
    requires
        identifier.len() > 0,
    ensures
        experiment::served_variants(experiments, experiment::tosses(seq![group], identifier)) == (
        match experiment::toss_in_group(
            group,
            experiment::bucket_index(identifier, group.item.id@),
        ) {
            Some(toss) => match experiment::served_variant(experiments, toss) {
                Some(variant) => seq![variant],
                None => Seq::empty(),
            },
            None => Seq::empty(),
        }),
{
    let groups = seq![group];
    assert(groups.drop_last() =~= Seq::<Evaluated<FfiExperimentGroup>>::empty());
    assert(experiment::tosses(groups.drop_last(), identifier) =~= Seq::<TossView>::empty());
    assert(experiment::served_variants(experiments, Seq::<TossView>::empty()) =~= Seq::<
        Seq<char>,
    >::empty());
    match experiment::toss_in_group(
        group,
        experiment::bucket_index(identifier, group.item.id@),
    ) {
        Some(toss) => {
            assert(experiment::tosses(groups, identifier) =~= seq![toss]);
            assert(seq![toss].drop_last() =~= Seq::<TossView>::empty());
            match experiment::served_variant(experiments, toss) {
                Some(variant) => {
                    assert(experiment::served_variants(experiments, seq![toss]) =~= seq![variant]);
                },
                None => {},
            }
        },
        None => {},
    }
}

/// After a release was ramped in a group of its own, every request with an
/// identifier that is in their context lands on exactly one variant of it.
pub proof fn releases_leave_no_request_out(
    row: Slots,
    experiment_id: i64,
    variants: Seq<Variant>,
    percentage: nat,
    experiments: Map<Seq<char>, Evaluated<FfiExperiment>>,
    group: Evaluated<FfiExperimentGroup>,
    identifier: Seq<char>,
)
    requires
        target_laws::shares_all_traffic(variants, percentage),
        target_laws::distinct_variants(variants),
        percentage <= 100,
        row.len() == 100,
        forall|i: int|
            0 <= i < row.len() ==> slots::available_to(text::decimal(experiment_id as int))(
                #[trigger] row[i],
            ),
        group.satisfied,
        group.item.group_type == GroupType::SystemGenerated,
        ({
            let outcome = groups::ramped_group(
                GroupType::SystemGenerated,
                0,
                row,
                experiment_id,
                ExperimentType::Release,
                variants,
                percentage,
            );
            &&& outcome is Ok
            &&& group.item.traffic_percentage == outcome->Ok_0.traffic_percentage
            &&& group.item.buckets@ == outcome->Ok_0.slots
        }),
        experiments.contains_key(text::decimal(experiment_id as int)),
        experiments[text::decimal(experiment_id as int)].satisfied,
        experiments[text::decimal(experiment_id as int)].item.experiment_type
            == ExperimentType::Release,
        identifier.len() > 0,
    ensures
        exists|k: int|
            0 <= k < variants.len() && experiment::served_variants(
                experiments,
                experiment::tosses(seq![group], identifier),
            ) == seq![(#[trigger] variants[k]).id@],
{
    target_laws::release_fills_every_bucket(row, experiment_id, variants, percentage);
    let index = experiment::bucket_index(identifier, group.item.id@);
    let slot = group.item.buckets@[index as int];
    lemma_single_group(experiments, group, identifier);
    assert(slots::owned_by(text::decimal(experiment_id as int))(slot));
    let k = choose|k: int|
        0 <= k < variants.len() && (#[trigger] variants[k]).id@ == slot->0.variant_id;
    assert(variants[k].id@ == slot->0.variant_id);
    let toss = TossView { toss: index, bucket: slot->0 };
    assert(experiment::toss_in_group(group, index) == Some(toss));
}

/// In a group that was just made for an experiment, a request with an identifier
/// that is in their context is served a variant exactly where the bucket it falls
/// into is one of as many first ones as the experiment covers percent of the
/// traffic.
pub proof fn new_groups_serve_the_covered_traffic(
    experiment_id: i64,
    variants: Seq<Variant>,
    percentage: nat,
    experiments: Map<Seq<char>, Evaluated<FfiExperiment>>,
    group: Evaluated<FfiExperimentGroup>,
    identifier: Seq<char>,
)
    requires
        percentage <= 100,
        experiments.contains_key(text::decimal(experiment_id as int)),
        ({
            let held = experiments[text::decimal(experiment_id as int)];
            let made = groups::ramped_group(
                GroupType::SystemGenerated,
                0,
                groups::vacant_row(),
                experiment_id,
                held.item.experiment_type,
                variants,
                percentage,
            );
            &&& held.satisfied
            &&& held.item.traffic_percentage == percentage
            &&& held.item.variants.list@ == variants
            &&& held.item.experiment_type == ExperimentType::Release
                ==> target_laws::shares_all_traffic(variants, percentage)
            &&& made is Ok
            &&& group.item.traffic_percentage == made->Ok_0.traffic_percentage
            &&& group.item.buckets@ == made->Ok_0.slots
        }),
        group.satisfied,
        group.item.group_type == GroupType::SystemGenerated,
        identifier.len() > 0,
    ensures
        ({
            let held = experiments[text::decimal(experiment_id as int)];
            let covered = model::covered_traffic(
                held.item.experiment_type,
                percentage,
                variants.len(),
            );
            let served = experiment::served_variants(
                experiments,
                experiment::tosses(seq![group], identifier),
            );
            if experiment::bucket_index(identifier, group.item.id@) < covered {
                exists|k: int|
                    0 <= k < variants.len() && served == seq![(#[trigger] variants[k]).id@]
            } else {
                served.len() == 0
            }
        }),
{
    let id = text::decimal(experiment_id as int);
    let held = experiments[id];
    let experiment_type = held.item.experiment_type;
    let row = groups::vacant_row();
    let targets = allocation::variant_targets(experiment_type, variants, percentage);
    let covered = model::covered_traffic(experiment_type, percentage, variants.len());
    let after = allocation::reconciled(row, id, targets).slots;
    target_laws::targets_sum_to_covered_traffic(experiment_type, variants, percentage);
    allocation_laws::reconciling_fills_vacant_rows_from_the_front(row, id, targets);
    allocation_laws::reconciling_spares_other_experiments(row, id, targets);

    let index = experiment::bucket_index(identifier, group.item.id@);
    let slot = after[index as int];
    lemma_single_group(experiments, group, identifier);
    if index < covered {
        assert(!(slot is None));
        assert(slots::owned_by(id)(slot)) by {
            assert(after[index as int] != row[index as int]);
        }
        assert(allocation::has_target(targets, slot->0.variant_id));
        let k = choose|k: int|
            0 <= k < targets.len() && (#[trigger] targets[k]).variant_id == slot->0.variant_id;
        assert(variants[k].id@ == slot->0.variant_id);
        let toss = TossView { toss: index, bucket: slot->0 };
        assert(experiment::toss_in_group(group, index) == Some(toss));
    } else {
        assert(slot is None);
        assert(experiment::toss_in_group(group, index) is None);
    }
}

/// The set of prefixes that is given. No list is the empty set.
pub open spec fn prefix_set(filter_prefixes: Option<Vec<String>>) -> Set<Seq<char>> {
    match filter_prefixes {
        Some(prefixes) => text::text_views(prefixes@).to_set(),
        None => Set::empty(),
    }
}

/// Whether two selections are the same step on the same experiments, with the same
/// set of prefixes where that step takes any.
pub open spec fn same_step<E>(first: Selection<E>, second: Selection<E>) -> bool {
    match (first, second) {
        (
            Selection::FilterKeysByPrefix { experiments: e1, prefixes: p1, context_filter: c1 },
            Selection::FilterKeysByPrefix { experiments: e2, prefixes: p2, context_filter: c2 },
        ) => {
            &&& e1@ == e2@
            &&& text::text_views(p1@).to_set() == text::text_views(p2@).to_set()
            &&& text::text_views(p1@).no_duplicates()
            &&& text::text_views(p2@).no_duplicates()
            &&& c1 == c2
        },
        (
            Selection::FilterByContext { experiments: e1, context_filter: c1 },
            Selection::FilterByContext { experiments: e2, context_filter: c2 },
        ) => e1@ == e2@ && c1 == c2,
        (
            Selection::Selected { experiments: e1 },
            Selection::Selected { experiments: e2 },
        ) => e1@ == e2@,
        _ => false,
    }
}

/// How experiments are filtered by a set of prefixes.
pub type PrefixFiltering<E> = spec_fn(Seq<E>, Set<Seq<char>>) -> Seq<E>;

/// How experiments are filtered by a context in either way.
pub type ContextFiltering<E> = spec_fn(
    Seq<E>,
    serde_json::Map<String, serde_json::Value>,
    ContextFilter,
) -> Seq<E>;

/// The experiments that a selection comes down to when its steps are carried out
/// with the given ways to filter.
pub open spec fn selected<E>(
    selection: Selection<E>,
    context: serde_json::Map<String, serde_json::Value>,
    by_prefix: PrefixFiltering<E>,
    by_context: ContextFiltering<E>,
) -> Seq<E> {
    match selection {
        Selection::FilterKeysByPrefix { experiments, prefixes, context_filter } => {
            let kept = by_prefix(experiments@, text::text_views(prefixes@).to_set());
            if json::object_keys(context) == Set::<Seq<char>>::empty() {
                kept
            } else {
                by_context(kept, context, context_filter)
            }
        },
        Selection::FilterByContext { experiments, context_filter } => by_context(
            experiments@,
            context,
            context_filter,
        ),
        Selection::Selected { experiments } => experiments@,
    }
}

/// Filtering by prefixes and resuming is a step towards the experiments that a
/// selection comes down to.
pub proof fn resuming_carries_the_selection_on<E>(
    experiments: Vec<E>,
    prefixes: Vec<String>,
    kept: Vec<E>,
    context: serde_json::Map<String, serde_json::Value>,
    context_filter: ContextFilter,
    by_prefix: PrefixFiltering<E>,
    by_context: ContextFiltering<E>,
)
    requires
        kept@ == by_prefix(experiments@, text::text_views(prefixes@).to_set()),
    ensures
        selected(
            experiment::resumed(kept, context, context_filter),
            context,
            by_prefix,
            by_context,
        ) == selected(
            Selection::FilterKeysByPrefix { experiments, prefixes, context_filter },
            context,
            by_prefix,
            by_context,
        ),
{
}

proof fn lemma_no_prefixes(filter_prefixes: Option<Vec<String>>)
    ensures
        prefix_set(filter_prefixes) == Set::<Seq<char>>::empty() <==> !(filter_prefixes is Some
            && filter_prefixes->0@.len() > 0),
{
    if filter_prefixes is Some {
        let views = text::text_views(filter_prefixes->0@);
        if views.len() > 0 {
            assert(views.contains(views[0]));
            assert(views.to_set().contains(views[0]));
        } else {
            assert(views.to_set() =~= Set::<Seq<char>>::empty());
        }
    }
}

proof fn lemma_prefixes_handed_on<E>(
    selection: Selection<E>,
    experiments: Vec<E>,
    context: serde_json::Map<String, serde_json::Value>,
    filter_prefixes: Option<Vec<String>>,
    context_filter: ContextFilter,
)
    requires
        experiment::begins_selection(
            selection,
            experiments,
            context,
            filter_prefixes,
            context_filter,
        ),
    ensures
        selection is FilterKeysByPrefix <==> prefix_set(filter_prefixes) != Set::<
            Seq<char>,
        >::empty(),
        selection matches Selection::FilterKeysByPrefix { prefixes, .. } ==> {
            &&& text::text_views(prefixes@).no_duplicates()
            &&& text::text_views(prefixes@).to_set() == prefix_set(filter_prefixes)
        },
{
    lemma_no_prefixes(filter_prefixes);
    if let Selection::FilterKeysByPrefix { prefixes, .. } = selection {
        let given = text::text_views(filter_prefixes->0@);
        lists::lemma_distinct(given);
        assert(text::text_views(prefixes@).to_set() =~= given.to_set());
    }
}

/// Experiments are filtered by prefixes first, where any are given, and otherwise
/// by a context that says anything. Either step is handed all experiments, and the
/// first one exactly the prefixes that were given. Where there is nothing to
/// filter by, the experiments are selected.
pub proof fn selections_begin_with_the_filter_that_is_given<E>(
    selection: Selection<E>,
    experiments: Vec<E>,
    context: serde_json::Map<String, serde_json::Value>,
    filter_prefixes: Option<Vec<String>>,
    context_filter: ContextFilter,
)
    requires
        experiment::begins_selection(
            selection,
            experiments,
            context,
            filter_prefixes,
            context_filter,
        ),
    ensures
        match selection {
            Selection::FilterKeysByPrefix { experiments: kept, prefixes, context_filter: next } => {
                &&& prefix_set(filter_prefixes) != Set::<Seq<char>>::empty()
                &&& kept == experiments
                &&& text::text_views(prefixes@).to_set() == prefix_set(filter_prefixes)
                &&& text::text_views(prefixes@).no_duplicates()
                &&& next == context_filter
            },
            Selection::FilterByContext { experiments: kept, context_filter: next } => {
                &&& prefix_set(filter_prefixes) == Set::<Seq<char>>::empty()
                &&& json::object_keys(context) != Set::<Seq<char>>::empty()
                &&& kept == experiments
                &&& next == context_filter
            },
            Selection::Selected { experiments: kept } => {
                &&& prefix_set(filter_prefixes) == Set::<Seq<char>>::empty()
                &&& json::object_keys(context) == Set::<Seq<char>>::empty()
                &&& kept == experiments
            },
        },
{
    lemma_prefixes_handed_on(selection, experiments, context, filter_prefixes, context_filter);
}

/// Once prefixes were filtered by, experiments are filtered by a context exactly
/// where it says anything, and are selected otherwise.
pub proof fn selections_resume_with_the_context<E>(
    experiments: Vec<E>,
    context: serde_json::Map<String, serde_json::Value>,
    context_filter: ContextFilter,
)
    ensures
        match experiment::resumed(experiments, context, context_filter) {
            Selection::FilterKeysByPrefix { .. } => false,
            Selection::FilterByContext { experiments: kept, context_filter: next } => {
                &&& json::object_keys(context) != Set::<Seq<char>>::empty()
                &&& kept == experiments
                &&& next == context_filter
            },
            Selection::Selected { experiments: kept } => {
                &&& json::object_keys(context) == Set::<Seq<char>>::empty()
                &&& kept == experiments
            },
        },
{
}

/// Only the set of prefixes matters to a selection, not their order nor how often
/// each is given: two selections on equal experiments, contexts and sets of
/// prefixes begin with the same step, and come down to the same experiments in
/// the same order, whatever filtering by prefixes and by a context does.
pub proof fn only_the_set_of_prefixes_matters<E>(
    first: Selection<E>,
    second: Selection<E>,
    first_experiments: Vec<E>,
    second_experiments: Vec<E>,
    context: serde_json::Map<String, serde_json::Value>,
    first_prefixes: Option<Vec<String>>,
    second_prefixes: Option<Vec<String>>,
    context_filter: ContextFilter,
    by_prefix: PrefixFiltering<E>,
    by_context: ContextFiltering<E>,
)
    requires
        experiment::begins_selection(
            first,
            first_experiments,
            context,
            first_prefixes,
            context_filter,
        ),
        experiment::begins_selection(
            second,
            second_experiments,
            context,
            second_prefixes,
            context_filter,
        ),
        first_experiments@ == second_experiments@,
        prefix_set(first_prefixes) == prefix_set(second_prefixes),
    ensures
        same_step(first, second),
        selected(first, context, by_prefix, by_context) == selected(
            second,
            context,
            by_prefix,
            by_context,
        ),
{
    lemma_prefixes_handed_on(first, first_experiments, context, first_prefixes, context_filter);
    lemma_prefixes_handed_on(second, second_experiments, context, second_prefixes, context_filter);
}

/// Where neither a prefix nor anything of a context is given, all experiments are
/// selected as they are, however a context would filter them.
pub proof fn nothing_to_filter_selects_all<E>(
    selection: Selection<E>,
    experiments: Vec<E>,
    context: serde_json::Map<String, serde_json::Value>,
    filter_prefixes: Option<Vec<String>>,
    context_filter: ContextFilter,
)
    requires
        experiment::begins_selection(
            selection,
            experiments,
            context,
            filter_prefixes,
            context_filter,
        ),
        prefix_set(filter_prefixes) == Set::<Seq<char>>::empty(),
        json::object_keys(context) == Set::<Seq<char>>::empty(),
    ensures
        selection == (Selection::Selected { experiments }),
{
    lemma_no_prefixes(filter_prefixes);
}

} // verus!
