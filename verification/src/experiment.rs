//! Which variants a request is served.
use std::collections::hash_map::DefaultHasher;
use std::hash::{Hash, Hasher};

use vstd::hash_map::StringHashMap;
use vstd::prelude::*;
use vstd::std_specs::hash::DefaultHasherAdditionalSpecFns;

use crate::json;
use crate::json::object_is_empty;
use crate::lists;
use crate::lists::distinct_texts;
use crate::model;
use crate::model::{
    Bucket, BucketView, Buckets, Condition, Experiment, ExperimentGroup, ExperimentStatusType,
    ExperimentType, GroupType, Variant, Variants,
};
use crate::text;
use crate::text::signed_text;

verus! {

/// Turns the error of a result into its text.
pub trait MapError<T> {
    /// The result, with the text of its error in place of the error.
    fn map_err_to_string(self) -> (result: Result<T, String>);
}

impl<T, E> MapError<T> for Result<T, E> where E: std::fmt::Display {
    fn map_err_to_string(self) -> (result: Result<T, String>)
        ensures
            match self {
                Ok(value) => result == Ok::<T, String>(value),
                Err(error) => result is Err
                    && vstd::string::to_string_from_display_ensures::<E>(
                    &error,
                    result->Err_0,
                ),
            },
    {
        match self {
            Ok(value) => Ok(value),
            Err(error) => Err(error.to_string()),
        }
    }
}

/// An experiment, as clients that serve variants hold it.
#[derive(Clone, Debug)]
pub struct FfiExperiment {
    pub id: String,
    pub traffic_percentage: u8,
    pub variants: Variants,
    pub context: Condition,
    pub status: ExperimentStatusType,
    pub experiment_type: ExperimentType,
}

/// An experiment group, as clients that serve variants hold it.
#[derive(Clone, Debug)]
pub struct FfiExperimentGroup {
    pub id: String,
    pub context: Condition,
    pub traffic_percentage: u8,
    pub member_experiment_ids: Vec<String>,
    pub group_type: GroupType,
    pub buckets: Buckets,
}

/// Experiments as clients hold them.
pub type Experiments = Vec<FfiExperiment>;

/// Experiment groups as clients hold them.
pub type ExperimentGroups = Vec<FfiExperimentGroup>;

/// What a client needs to serve variants to a target.
#[derive(Debug)]
pub struct ExperimentationArgs {
    pub experiments: Experiments,
    pub experiment_groups: ExperimentGroups,
    pub targeting_key: String,
}

/// The experiments and groups that a client serves variants of.
#[derive(Clone, Debug)]
pub struct ExperimentConfig {
    pub experiments: Experiments,
    pub experiment_groups: ExperimentGroups,
}

impl FfiExperiment {
    /// What clients hold of an experiment.
    pub fn from(experiment: Experiment) -> (held: FfiExperiment)
        ensures
            held.id@ == text::decimal(experiment.id as int),
            held.traffic_percentage == experiment.traffic_percentage@,
            held.variants == experiment.variants,
            held.context == experiment.context,
            held.status == experiment.status,
            held.experiment_type == experiment.experiment_type,
    {
        FfiExperiment {
            id: signed_text(experiment.id),
            traffic_percentage: experiment.traffic_percentage.value(),
            variants: experiment.variants,
            context: experiment.context,
            status: experiment.status,
            experiment_type: experiment.experiment_type,
        }
    }

    /// The condition under which the experiment is in force.
    pub fn get_condition(&self) -> (condition: &Condition)
        ensures
            *condition == self.context,
    {
        &self.context
    }

    /// The variants of the experiment, to be changed in place.
    pub fn get_variants_mut(&mut self) -> (variants: &mut Vec<Variant>)
        ensures
            *variants == old(self).variants.list,
            final(self).variants.list == *final(variants),
            final(self).id == old(self).id,
            final(self).traffic_percentage == old(self).traffic_percentage,
            final(self).context == old(self).context,
            final(self).status == old(self).status,
            final(self).experiment_type == old(self).experiment_type,
    {
        &mut self.variants.list
    }
}

impl FfiExperimentGroup {
    /// What clients hold of an experiment group.
    pub fn from(experiment_group: ExperimentGroup) -> (held: FfiExperimentGroup)
        ensures
            held.id@ == text::decimal(experiment_group.id as int),
            held.context == experiment_group.context,
            held.traffic_percentage == experiment_group.traffic_percentage@,
            text::text_views(held.member_experiment_ids@) == text::decimals(
                experiment_group.member_experiment_ids@,
            ),
            held.group_type == experiment_group.group_type,
            held.buckets == experiment_group.buckets,
    {
        let ids = experiment_group.member_experiment_ids;
        let mut member_experiment_ids: Vec<String> = Vec::new();
        let mut i: usize = 0;
        while i < ids.len()
            invariant
                i <= ids.len(),
                text::text_views(member_experiment_ids@) == text::decimals(ids@).take(i as int),
            decreases ids.len() - i,
        {
            let ghost before = member_experiment_ids@;
            member_experiment_ids.push(signed_text(ids[i]));
            assert(text::text_views(member_experiment_ids@) =~= text::text_views(before).push(
                text::decimals(ids@)[i as int],
            ));
            assert(text::decimals(ids@).take(i + 1) =~= text::decimals(ids@).take(i as int).push(
                text::decimals(ids@)[i as int],
            ));
            i += 1;
        }
        assert(text::decimals(ids@).take(i as int) =~= text::decimals(ids@));
        FfiExperimentGroup {
            id: signed_text(experiment_group.id),
            context: experiment_group.context,
            traffic_percentage: experiment_group.traffic_percentage.value(),
            member_experiment_ids,
            group_type: experiment_group.group_type,
            buckets: experiment_group.buckets,
        }
    }

    /// The condition under which the group is in force.
    pub fn get_condition(&self) -> (condition: &Condition)
        ensures
            *condition == self.context,
    {
        &self.context
    }
}

/// What `Hash` writes to a hasher for a pair of strings.
pub uninterp spec fn pair_writes(first: Seq<char>, second: Seq<char>) -> Seq<Seq<u8>>;

/// `Hash::hash` of a pair of strings: it adds to what was written to the hasher
/// a sequence of writes that depends on the two strings alone. Which writes
/// these are is left to the standard library, which may change them from one
/// release to the next.
#[verifier::external_body]
fn hash_pair(first: &str, second: &str, hasher: &mut DefaultHasher)
    ensures
        final(hasher)@ == old(hasher)@ + pair_writes(first@, second@),
{
    (first, second).hash(hasher)
}

/// The bucket that a hash stands for.
pub open spec fn bucket_of_hash(hash: u64) -> nat {
    (hash % 100) as nat
}

/// The bucket of a group that an identifier falls into.
pub open spec fn bucket_index(identifier: Seq<char>, group_id: Seq<char>) -> nat {
    bucket_of_hash(DefaultHasher::spec_finish(pair_writes(identifier, group_id)))
}

/// The bucket that a hash stands for.
pub fn bucket_index_of_hash(hash: u64) -> (index: usize)
    ensures
        index == bucket_of_hash(hash),
        index < 100,
{
    (hash % 100) as usize
}

/// The bucket of a group that an identifier falls into.
pub fn calculate_bucket_index(identifier: &str, group_id: &str) -> (index: usize)
    ensures
        index == bucket_index(identifier@, group_id@),
        index < 100,
{
    let mut hasher = DefaultHasher::new();
    hash_pair(identifier, group_id, &mut hasher);
    assert(hasher@ =~= pair_writes(identifier@, group_id@));
    bucket_index_of_hash(hasher.finish())
}

/// An experiment or a group, and whether the request's context satisfies its
/// condition.
#[derive(Debug)]
pub struct Evaluated<T> {
    pub item: T,
    pub satisfied: bool,
}

/// Experiments by their ids.
pub struct ExperimentIndex {
    by_id: StringHashMap<Evaluated<FfiExperiment>>,
}

impl View for ExperimentIndex {
    type V = Map<Seq<char>, Evaluated<FfiExperiment>>;

    closed spec fn view(&self) -> Map<Seq<char>, Evaluated<FfiExperiment>> {
        self.by_id@
    }
}

/// Experiments by their ids, where the last one of those with the same id counts.
pub open spec fn indexed(experiments: Seq<Evaluated<FfiExperiment>>) -> Map<
    Seq<char>,
    Evaluated<FfiExperiment>,
>
    decreases experiments.len(),
{
    if experiments.len() == 0 {
        Map::empty()
    } else {
        indexed(experiments.drop_last()).insert(experiments.last().item.id@, experiments.last())
    }
}

impl ExperimentIndex {
    /// The experiments by their ids. Of those with the same id the last one
    /// counts.
    pub fn new(experiments: Vec<Evaluated<FfiExperiment>>) -> (index: ExperimentIndex)
        ensures
            index@ == indexed(experiments@),
    {
        let mut by_id: StringHashMap<Evaluated<FfiExperiment>> = StringHashMap::new();
        let ghost all = experiments@;
        assert(all.take(0) =~= Seq::<Evaluated<FfiExperiment>>::empty());
        for experiment in it: experiments
            invariant
                it.seq() == all,
                by_id@ == indexed(all.take(it.index() as int)),
        {
            proof {
                let i = it.index() as int;
                assert(all.take(i + 1).drop_last() =~= all.take(i));
            }
            let id = experiment.item.id.clone();
            by_id.insert(id, experiment);
        }
        assert(all.take(all.len() as int) =~= all);
        ExperimentIndex { by_id }
    }

    /// The experiment with the given id, if there is one.
    pub fn get(&self, id: &str) -> (found: Option<&Evaluated<FfiExperiment>>)
        ensures
            match found {
                Some(experiment) => self@.contains_key(id@) && *experiment == self@[id@],
                None => !self@.contains_key(id@),
            },
    {
        self.by_id.get(id)
    }
}

/// A bucket that a request falls into, and the toss by which its experiment
/// decides whether to serve it.
pub struct TossView {
    pub toss: nat,
    pub bucket: BucketView,
}

/// The bucket of a group that serves a request which falls into bucket `index`,
/// and its toss, if there is one. In a group that a user made the toss is what
/// `index` amounts to in percent of the group's traffic.
pub open spec fn toss_in_group(group: Evaluated<FfiExperimentGroup>, index: nat) -> Option<
    TossView,
> {
    let slots = group.item.buckets@;
    let traffic = group.item.traffic_percentage as nat;
    if !group.satisfied || traffic < index || index >= slots.len() || slots[index as int] is None {
        None
    } else if group.item.group_type == GroupType::SystemGenerated {
        Some(TossView { toss: index, bucket: slots[index as int]->0 })
    } else if traffic > 0 {
        Some(TossView { toss: index * 100 / traffic, bucket: slots[index as int]->0 })
    } else {
        None
    }
}

/// The buckets that serve a request with the given identifier, in the order of
/// their groups. A request without an identifier has none.
pub open spec fn tosses(groups: Seq<Evaluated<FfiExperimentGroup>>, identifier: Seq<char>) -> Seq<
    TossView,
>
    decreases groups.len(),
{
    if identifier.len() == 0 || groups.len() == 0 {
        Seq::empty()
    } else {
        let before = tosses(groups.drop_last(), identifier);
        match toss_in_group(
            groups.last(),
            bucket_index(identifier, groups.last().item.id@),
        ) {
            Some(toss) => before.push(toss),
            None => before,
        }
    }
}

/// The tosses and buckets of a list.
pub open spec fn toss_views(buckets: Seq<(usize, Bucket)>) -> Seq<TossView> {
    buckets.map_values(
        |pair: (usize, Bucket)| TossView { toss: pair.0 as nat, bucket: pair.1@ },
    )
}

/// The bucket of a group that serves a request which falls into bucket `index`,
/// and its toss, if there is one.
pub fn bucket_from_group(group: &Evaluated<FfiExperimentGroup>, index: usize) -> (found: Option<
    (usize, Bucket),
>)
    ensures
        match toss_in_group(*group, index as nat) {
            Some(toss) => {
                &&& found is Some
                &&& toss_views(seq![found->0]) == seq![toss]
            },
            None => found is None,
        },
{
    let traffic = group.item.traffic_percentage;
    if !group.satisfied || (traffic as usize) < index || index >= group.item.buckets.slots.len() {
        return None;
    }
    match &group.item.buckets.slots[index] {
        None => None,
        Some(bucket) => {
            let toss: usize = if group.item.group_type == GroupType::SystemGenerated {
                index
            } else if traffic > 0 {
                (index * 100) / traffic as usize
            } else {
                return None;
            };
            let pair = (toss, bucket.clone());
            assert(toss_views(seq![pair]) =~= seq![
                toss_in_group(*group, index as nat)->0,
            ]);
            Some(pair)
        },
    }
}

/// The buckets that serve a request with the given identifier, and their tosses.
pub fn get_applicable_buckets_from_group(
    experiment_groups: &Vec<Evaluated<FfiExperimentGroup>>,
    identifier: &str,
) -> (buckets: Vec<(usize, Bucket)>)
    ensures
        toss_views(buckets@) == tosses(experiment_groups@, identifier@),
{
    let mut buckets: Vec<(usize, Bucket)> = Vec::new();
    assert(toss_views(buckets@) =~= Seq::<TossView>::empty());
    if identifier.is_empty() {
        return buckets;
    }
    let mut i: usize = 0;
    while i < experiment_groups.len()
        invariant
            i <= experiment_groups.len(),
            identifier@.len() > 0,
            toss_views(buckets@) == tosses(experiment_groups@.take(i as int), identifier@),
        decreases experiment_groups.len() - i,
    {
        let group = &experiment_groups[i];
        assert(experiment_groups@.take(i + 1).drop_last() =~= experiment_groups@.take(i as int));
        let index = calculate_bucket_index(identifier, group.item.id.as_str());
        match bucket_from_group(group, index) {
            Some(pair) => {
                let ghost before = buckets@;
                buckets.push(pair);
                assert(toss_views(buckets@) =~= toss_views(before) + toss_views(seq![pair]));
                assert(toss_views(buckets@) =~= toss_views(before).push(
                    toss_views(seq![pair])[0],
                ));
            },
            None => {},
        }
        i += 1;
    }
    assert(experiment_groups@.take(i as int) =~= experiment_groups@);
    buckets
}

/// The variant that a bucket serves: its own, if its experiment is known, the
/// context satisfies the experiment's condition, and the traffic that the
/// experiment covers reaches up to the toss.
pub open spec fn served_variant(
    experiments: Map<Seq<char>, Evaluated<FfiExperiment>>,
    toss: TossView,
) -> Option<Seq<char>> {
    let id = toss.bucket.experiment_id;
    if experiments.contains_key(id) && experiments[id].satisfied && model::covered_traffic(
        experiments[id].item.experiment_type,
        experiments[id].item.traffic_percentage as nat,
        experiments[id].item.variants.list@.len(),
    ) >= toss.toss {
        Some(toss.bucket.variant_id)
    } else {
        None
    }
}

/// The variants that buckets serve, in the order of the buckets.
pub open spec fn served_variants(
    experiments: Map<Seq<char>, Evaluated<FfiExperiment>>,
    buckets: Seq<TossView>,
) -> Seq<Seq<char>>
    decreases buckets.len(),
{
    if buckets.len() == 0 {
        Seq::empty()
    } else {
        let before = served_variants(experiments, buckets.drop_last());
        match served_variant(experiments, buckets.last()) {
            Some(variant) => before.push(variant),
            None => before,
        }
    }
}

/// The variants that buckets serve, in the order of the buckets.
pub fn get_applicable_variants_from_group_response(
    experiments: &ExperimentIndex,
    bucket_response: &Vec<(usize, Bucket)>,
) -> (variants: Vec<String>)
    ensures
        text::text_views(variants@) == served_variants(experiments@, toss_views(bucket_response@)),
{
    let ghost views = toss_views(bucket_response@);
    let mut variants: Vec<String> = Vec::new();
    assert(text::text_views(variants@) =~= Seq::<Seq<char>>::empty());
    let mut i: usize = 0;
    while i < bucket_response.len()
        invariant
            i <= bucket_response.len(),
            views == toss_views(bucket_response@),
            text::text_views(variants@) == served_variants(experiments@, views.take(i as int)),
        decreases bucket_response.len() - i,
    {
        assert(views.take(i + 1).drop_last() =~= views.take(i as int));
        assert(views.take(i + 1).last() == views[i as int]);
        let toss = bucket_response[i].0;
        let bucket = &bucket_response[i].1;
        let served = match experiments.get(bucket.experiment_id.as_str()) {
            Some(experiment) => {
                let covered = experiment.item.experiment_type.total_traffic_percentage(
                    experiment.item.traffic_percentage,
                    experiment.item.variants.list.len(),
                );
                experiment.satisfied && covered >= toss
            },
            None => false,
        };
        if served {
            let ghost before = variants@;
            variants.push(bucket.variant_id.clone());
            assert(text::text_views(variants@) =~= text::text_views(before).push(
                bucket.variant_id@,
            ));
        }
        i += 1;
    }
    assert(views.take(i as int) =~= views);
    variants
}

/// The variants that a request with the given identifier is served, out of the
/// experiments that were selected for it.
pub fn get_applicable_variants(
    experiments: Vec<Evaluated<FfiExperiment>>,
    experiment_groups: &Vec<Evaluated<FfiExperimentGroup>>,
    identifier: &str,
) -> (variants: Vec<String>)
    ensures
        text::text_views(variants@) == served_variants(
            indexed(experiments@),
            tosses(experiment_groups@, identifier@),
        ),
{
    let buckets = get_applicable_buckets_from_group(experiment_groups, identifier);
    let index = ExperimentIndex::new(experiments);
    get_applicable_variants_from_group_response(&index, &buckets)
}

/// What is still to be done to experiments before they are selected.
#[derive(Debug)]
pub enum Selection<E> {
    /// Their override keys are to be filtered by the prefixes, each of which is
    /// given once. Then `resume_selection` says what is left to be done.
    FilterKeysByPrefix {
        experiments: Vec<E>,
        prefixes: Vec<String>,
        context_filter: ContextFilter,
    },
    /// They are to be filtered by the context, and are then selected.
    FilterByContext { experiments: Vec<E>, context_filter: ContextFilter },
    /// They are selected.
    Selected { experiments: Vec<E> },
}

/// How experiments are filtered by a context.
#[derive(Clone, Copy, Debug, PartialEq, Eq, Structural)]
pub enum ContextFilter {
    /// Those stay whose condition the context satisfies.
    Satisfied,
    /// Those stay whose condition holds when it is evaluated against the context.
    ByEvaluation,
}

/// What is left to be done where override keys need not be filtered any more:
/// experiments are filtered by a context that says anything.
pub open spec fn resumed<E>(
    experiments: Vec<E>,
    context: serde_json::Map<String, serde_json::Value>,
    context_filter: ContextFilter,
) -> Selection<E> {
    if json::object_keys(context) == Set::<Seq<char>>::empty() {
        Selection::Selected { experiments }
    } else {
        Selection::FilterByContext { experiments, context_filter }
    }
}

/// Whether a selection is what is to be done first: override keys are filtered by
/// prefixes where any are given.
pub open spec fn begins_selection<E>(
    selection: Selection<E>,
    experiments: Vec<E>,
    context: serde_json::Map<String, serde_json::Value>,
    filter_prefixes: Option<Vec<String>>,
    context_filter: ContextFilter,
) -> bool {
    if filter_prefixes is Some && filter_prefixes->0@.len() > 0 {
        match selection {
            Selection::FilterKeysByPrefix { experiments: kept, prefixes, context_filter: next } => {
                &&& kept == experiments
                &&& text::text_views(prefixes@) == lists::distinct(
                    text::text_views(filter_prefixes->0@),
                )
                &&& next == context_filter
            },
            _ => false,
        }
    } else {
        selection == resumed(experiments, context, context_filter)
    }
}

/// What is left to be done once override keys were filtered by prefixes.
pub fn resume_selection<E>(
    experiments: Vec<E>,
    context: &serde_json::Map<String, serde_json::Value>,
    context_filter: ContextFilter,
) -> (selection: Selection<E>)
    ensures
        selection == resumed(experiments, *context, context_filter),
{
    if object_is_empty(context) {
        Selection::Selected { experiments }
    } else {
        Selection::FilterByContext { experiments, context_filter }
    }
}

fn begin_selection<E>(
    experiments: Vec<E>,
    context: &serde_json::Map<String, serde_json::Value>,
    filter_prefixes: Option<Vec<String>>,
    context_filter: ContextFilter,
) -> (selection: Selection<E>)
    ensures
        begins_selection(selection, experiments, *context, filter_prefixes, context_filter),
{
    match filter_prefixes {
        Some(prefix_list) => if prefix_list.len() > 0 {
            let prefixes = distinct_texts(&prefix_list);
            Selection::FilterKeysByPrefix { experiments, prefixes, context_filter }
        } else {
            resume_selection(experiments, context, context_filter)
        },
        None => resume_selection(experiments, context, context_filter),
    }
}

/// The first step to the experiments whose condition the context satisfies.
pub fn get_satisfied_experiments<E>(
    experiments: Vec<E>,
    context: &serde_json::Map<String, serde_json::Value>,
    filter_prefixes: Option<Vec<String>>,
) -> (selection: Selection<E>)
    ensures
        begins_selection(
            selection,
            experiments,
            *context,
            filter_prefixes,
            ContextFilter::Satisfied,
        ),
{
    begin_selection(experiments, context, filter_prefixes, ContextFilter::Satisfied)
}

/// The first step to the experiments whose condition holds when it is evaluated
/// against the context.
pub fn filter_experiments_by_context<E>(
    experiments: Vec<E>,
    context: &serde_json::Map<String, serde_json::Value>,
    filter_prefixes: Option<Vec<String>>,
) -> (selection: Selection<E>)
    ensures
        begins_selection(
            selection,
            experiments,
            *context,
            filter_prefixes,
            ContextFilter::ByEvaluation,
        ),
{
    begin_selection(experiments, context, filter_prefixes, ContextFilter::ByEvaluation)
}

} // verus!
