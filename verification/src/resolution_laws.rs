//! How a request comes to its buckets and variants, one by one.
use std::collections::hash_map::DefaultHasher;

use vstd::prelude::*;
use vstd::std_specs::hash::DefaultHasherAdditionalSpecFns;

use crate::experiment;
use crate::experiment::{Evaluated, FfiExperiment, FfiExperimentGroup, TossView};
use crate::model::{Bucket, ExperimentType, GroupType};

verus! {

/// A bucket is one of 100, and it differs from the hash by a multiple of 100.
pub proof fn buckets_are_remainders_by_hundred(hash: u64)
    ensures
        experiment::bucket_of_hash(hash) < 100,
        (hash - experiment::bucket_of_hash(hash)) % 100 == 0,
{
}

/// The bucket of an identifier in a group depends on what the pair of them, in
/// this order, writes to a hasher, and on nothing else. It is the remainder of the
/// hash of that by 100.
pub proof fn bucket_indices_follow_the_hash(
    identifier: Seq<char>,
    group_id: Seq<char>,
    other_identifier: Seq<char>,
    other_group_id: Seq<char>,
)
    ensures
        experiment::pair_writes(identifier, group_id) == experiment::pair_writes(
            other_identifier,
            other_group_id,
        ) ==> experiment::bucket_index(identifier, group_id) == experiment::bucket_index(
            other_identifier,
            other_group_id,
        ),
        ({
            let hash = DefaultHasher::spec_finish(experiment::pair_writes(identifier, group_id));
            &&& experiment::bucket_index(identifier, group_id) < 100
            &&& (hash - experiment::bucket_index(identifier, group_id)) % 100 == 0
        }),
{
    buckets_are_remainders_by_hundred(
        DefaultHasher::spec_finish(experiment::pair_writes(identifier, group_id)),
    );
}

/// A group gives a request the bucket that it falls into exactly where the group's
/// condition is satisfied, the bucket's index does not exceed the group's traffic,
/// and the bucket is occupied. A group that a user made without any traffic gives
/// none. The toss is the index itself in a system-generated group, and elsewhere
/// what the index amounts to in percent of the group's traffic, rounded down.
pub proof fn groups_give_the_bucket_within_their_traffic(
    group: Evaluated<FfiExperimentGroup>,
    index: nat,
)
    ensures
        ({
            let found = experiment::toss_in_group(group, index);
            let row = group.item.buckets.slots@;
            let traffic = group.item.traffic_percentage as int;
            &&& index > traffic ==> found is None
            &&& found is Some <==> {
                &&& group.satisfied
                &&& index <= traffic
                &&& index < row.len()
                &&& row[index as int] is Some
                &&& group.item.group_type == GroupType::SystemGenerated || traffic > 0
            }
            &&& found is Some ==> {
                &&& found->0.bucket.experiment_id == row[index as int]->0.experiment_id@
                &&& found->0.bucket.variant_id == row[index as int]->0.variant_id@
            }
            &&& found is Some && group.item.group_type == GroupType::SystemGenerated
                ==> found->0.toss == index
            &&& found is Some && group.item.group_type == GroupType::UserCreated
                ==> found->0.toss * traffic <= index * 100 < (found->0.toss + 1) * traffic
        }),
{
    let traffic = group.item.traffic_percentage as int;
    if traffic > 0 {
        let product = index * 100;
        let toss = product as int / traffic;
        assert(toss * traffic <= product < (toss + 1) * traffic) by (nonlinear_arith)
            requires
                traffic > 0,
                toss == product as int / traffic,
        ;
        assert(toss >= 0) by (nonlinear_arith)
            requires
                traffic > 0,
                toss == product as int / traffic,
                product >= 0,
        ;
    }
}

/// A list of tosses and buckets shows each toss and bucket at its place.
pub proof fn toss_views_show_every_bucket(buckets: Seq<(usize, Bucket)>, i: int)
    requires
        0 <= i < buckets.len(),
    ensures
        experiment::toss_views(buckets).len() == buckets.len(),
        experiment::toss_views(buckets)[i].toss == buckets[i].0,
        experiment::toss_views(buckets)[i].bucket.experiment_id == buckets[i].1.experiment_id@,
        experiment::toss_views(buckets)[i].bucket.variant_id == buckets[i].1.variant_id@,
{
}

/// What a request gets out of two lists of groups behind each other is what it
/// gets out of the first, and then what it gets out of the second: no group takes
/// anything from another.
pub proof fn groups_are_tossed_one_by_one(
    first: Seq<Evaluated<FfiExperimentGroup>>,
    second: Seq<Evaluated<FfiExperimentGroup>>,
    identifier: Seq<char>,
)
    ensures
        experiment::tosses(first + second, identifier) == experiment::tosses(first, identifier)
            + experiment::tosses(second, identifier),
    decreases second.len(),
{
    if second.len() == 0 {
        assert(first + second =~= first);
        assert(experiment::tosses(second, identifier) =~= Seq::<TossView>::empty());
        assert(experiment::tosses(first, identifier) + Seq::<TossView>::empty()
            =~= experiment::tosses(first, identifier));
    } else {
        let shorter = second.drop_last();
        groups_are_tossed_one_by_one(first, shorter, identifier);
        assert((first + second).drop_last() =~= first + shorter);
        assert((first + second).last() == second.last());
        assert(experiment::tosses(first + second, identifier) =~= experiment::tosses(
            first,
            identifier,
        ) + experiment::tosses(second, identifier));
    }
}

/// A single group gives a request with an identifier the bucket that the
/// identifier falls into there, or nothing. A request without an identifier gets
/// nothing out of any groups.
pub proof fn single_groups_are_tossed_by_the_identifier(
    group: Evaluated<FfiExperimentGroup>,
    groups: Seq<Evaluated<FfiExperimentGroup>>,
    identifier: Seq<char>,
)
    ensures
        ({
            let index = experiment::bucket_index(identifier, group.item.id@);
            let found = experiment::toss_in_group(group, index);
            let all = experiment::tosses(seq![group], identifier);
            &&& all.len() == if identifier.len() > 0 && found is Some {
                1nat
            } else {
                0
            }
            &&& all.len() == 1 ==> all[0] == found->0
        }),
        identifier.len() == 0 ==> experiment::tosses(groups, identifier).len() == 0,
        experiment::tosses(Seq::empty(), identifier).len() == 0,
{
    let one = seq![group];
    assert(one.drop_last() =~= Seq::<Evaluated<FfiExperimentGroup>>::empty());
    assert(experiment::tosses(one.drop_last(), identifier).len() == 0);
    assert(one.last() == group);
}

/// A bucket serves its variant exactly where its experiment is known, the context
/// satisfies the experiment's condition, and the toss does not exceed the traffic
/// that the experiment covers: all of it for a release, the percentage of every
/// variant together otherwise.
pub proof fn buckets_serve_their_variant_within_the_coverage(
    experiments: Map<Seq<char>, Evaluated<FfiExperiment>>,
    toss: TossView,
)
    ensures
        ({
            let served = experiment::served_variant(experiments, toss);
            let held = experiments[toss.bucket.experiment_id];
            &&& served is Some <==> {
                &&& experiments.contains_key(toss.bucket.experiment_id)
                &&& held.satisfied
                &&& if held.item.experiment_type == ExperimentType::Release {
                    toss.toss <= 100
                } else {
                    toss.toss <= held.item.traffic_percentage * held.item.variants.list@.len()
                }
            }
            &&& served is Some ==> served->0 == toss.bucket.variant_id
        }),
{
}

/// The buckets that serve a variant.
pub open spec fn serving(
    experiments: Map<Seq<char>, Evaluated<FfiExperiment>>,
) -> spec_fn(TossView) -> bool {
    |toss: TossView| experiment::served_variant(experiments, toss) is Some
}

/// What is served out of two lists of buckets behind each other is what is served
/// out of the first, and then what is served out of the second: a request takes
/// part in every experiment that serves it.
pub proof fn buckets_are_served_one_by_one(
    experiments: Map<Seq<char>, Evaluated<FfiExperiment>>,
    first: Seq<TossView>,
    second: Seq<TossView>,
)
    ensures
        experiment::served_variants(experiments, first + second) == experiment::served_variants(
            experiments,
            first,
        ) + experiment::served_variants(experiments, second),
    decreases second.len(),
{
    if second.len() == 0 {
        assert(first + second =~= first);
        assert(experiment::served_variants(experiments, second) =~= Seq::<Seq<char>>::empty());
        assert(experiment::served_variants(experiments, first) + Seq::<Seq<char>>::empty()
            =~= experiment::served_variants(experiments, first));
    } else {
        let shorter = second.drop_last();
        buckets_are_served_one_by_one(experiments, first, shorter);
        assert((first + second).drop_last() =~= first + shorter);
        assert((first + second).last() == second.last());
        assert(experiment::served_variants(experiments, first + second)
            =~= experiment::served_variants(experiments, first) + experiment::served_variants(
            experiments,
            second,
        ));
    }
}

/// A single bucket is served its own variant, or nothing.
pub proof fn single_buckets_are_served_their_variant(
    experiments: Map<Seq<char>, Evaluated<FfiExperiment>>,
    toss: TossView,
)
    ensures
        ({
            let all = experiment::served_variants(experiments, seq![toss]);
            &&& all.len() == if experiment::served_variant(experiments, toss) is Some {
                1nat
            } else {
                0
            }
            &&& all.len() == 1 ==> all[0] == toss.bucket.variant_id
        }),
        experiment::served_variants(experiments, Seq::empty()).len() == 0,
{
    let one = seq![toss];
    assert(one.drop_last() =~= Seq::<TossView>::empty());
    assert(experiment::served_variants(experiments, one.drop_last()).len() == 0);
    assert(one.last() == toss);
}

/// Every bucket that serves a variant has its variant in the result, and the
/// result has as many variants as there are such buckets, in their order.
pub proof fn every_serving_bucket_is_served(
    experiments: Map<Seq<char>, Evaluated<FfiExperiment>>,
    buckets: Seq<TossView>,
)
    ensures
        ({
            let served = experiment::served_variants(experiments, buckets);
            let serving_buckets = buckets.filter(serving(experiments));
            &&& served.len() == serving_buckets.len()
            &&& forall|k: int|
                0 <= k < served.len() ==> #[trigger] served[k]
                    == serving_buckets[k].bucket.variant_id
            &&& forall|i: int|
                0 <= i < buckets.len() && experiment::served_variant(
                    experiments,
                    #[trigger] buckets[i],
                ) is Some ==> served.contains(buckets[i].bucket.variant_id)
        }),
    decreases buckets.len(),
{
    reveal(Seq::filter);
    if buckets.len() > 0 {
        let shorter = buckets.drop_last();
        every_serving_bucket_is_served(experiments, shorter);
        let before = experiment::served_variants(experiments, shorter);
        let served = experiment::served_variants(experiments, buckets);
        assert forall|i: int|
            0 <= i < buckets.len() && experiment::served_variant(
                experiments,
                #[trigger] buckets[i],
            ) is Some implies served.contains(buckets[i].bucket.variant_id) by {
            if i < shorter.len() {
                assert(shorter[i] == buckets[i]);
                assert(before.contains(buckets[i].bucket.variant_id));
                let k = choose|k: int|
                    0 <= k < before.len() && before[k] == buckets[i].bucket.variant_id;
                assert(served[k] == before[k]);
            } else {
                assert(served[served.len() - 1] == buckets[i].bucket.variant_id);
            }
        }
    }
}

/// What a request is served out of two lists of groups behind each other is what
/// it is served out of the first, and then what it is served out of the second.
pub proof fn groups_are_served_one_by_one(
    experiments: Map<Seq<char>, Evaluated<FfiExperiment>>,
    first: Seq<Evaluated<FfiExperimentGroup>>,
    second: Seq<Evaluated<FfiExperimentGroup>>,
    identifier: Seq<char>,
)
    ensures
        experiment::served_variants(experiments, experiment::tosses(first + second, identifier))
            == experiment::served_variants(experiments, experiment::tosses(first, identifier))
            + experiment::served_variants(experiments, experiment::tosses(second, identifier)),
{
    groups_are_tossed_one_by_one(first, second, identifier);
    buckets_are_served_one_by_one(
        experiments,
        experiment::tosses(first, identifier),
        experiment::tosses(second, identifier),
    );
}

/// A request that falls into an occupied bucket of a group within the group's
/// traffic is served that bucket's variant if the bucket's experiment serves it,
/// however many other groups there are.
pub proof fn every_group_serves_its_part(
    experiments: Map<Seq<char>, Evaluated<FfiExperiment>>,
    groups: Seq<Evaluated<FfiExperimentGroup>>,
    identifier: Seq<char>,
    i: int,
)
    requires
        0 <= i < groups.len(),
        identifier.len() > 0,
        ({
            let found = experiment::toss_in_group(
                groups[i],
                experiment::bucket_index(identifier, groups[i].item.id@),
            );
            found is Some && experiment::served_variant(experiments, found->0) is Some
        }),
    ensures
        ({
            let index = experiment::bucket_index(identifier, groups[i].item.id@) as int;
            experiment::served_variants(
                experiments,
                experiment::tosses(groups, identifier),
            ).contains(groups[i].item.buckets.slots@[index]->0.variant_id@)
        }),
{
    let index = experiment::bucket_index(identifier, groups[i].item.id@);
    let found = experiment::toss_in_group(groups[i], index)->0;
    let first = groups.take(i);
    let one = seq![groups[i]];
    let rest = groups.skip(i + 1);
    assert(groups =~= (first + one) + rest);
    groups_are_tossed_one_by_one(first + one, rest, identifier);
    groups_are_tossed_one_by_one(first, one, identifier);
    single_groups_are_tossed_by_the_identifier(groups[i], groups, identifier);
    groups_give_the_bucket_within_their_traffic(groups[i], index);
    let all = experiment::tosses(groups, identifier);
    let before = experiment::tosses(first, identifier);
    assert(all[before.len() as int] == found);
    every_serving_bucket_is_served(experiments, all);
}

/// Of the experiments with an id the last one is found under it.
pub proof fn the_last_experiment_with_an_id_is_found(
    experiments: Seq<Evaluated<FfiExperiment>>,
    i: int,
)
    requires
        0 <= i < experiments.len(),
        forall|j: int|
            i < j < experiments.len() ==> (#[trigger] experiments[j]).item.id@
                != experiments[i].item.id@,
    ensures
        experiment::indexed(experiments).contains_key(experiments[i].item.id@),
        experiment::indexed(experiments)[experiments[i].item.id@] == experiments[i],
    decreases experiments.len(),
{
    let last = experiments.len() - 1;
    if i < last {
        let shorter = experiments.drop_last();
        assert(shorter[i] == experiments[i]);
        assert forall|j: int| i < j < shorter.len() implies (#[trigger] shorter[j]).item.id@
            != shorter[i].item.id@ by {
            assert(shorter[j] == experiments[j]);
        }
        the_last_experiment_with_an_id_is_found(shorter, i);
        assert(experiments[last].item.id@ != experiments[i].item.id@);
    }
}

/// Nothing is found under the id of no experiment.
pub proof fn only_experiments_are_found(experiments: Seq<Evaluated<FfiExperiment>>, id: Seq<char>)
    requires
        forall|i: int| 0 <= i < experiments.len() ==> (#[trigger] experiments[i]).item.id@ != id,
    ensures
        !experiment::indexed(experiments).contains_key(id),
    decreases experiments.len(),
{
    if experiments.len() > 0 {
        let shorter = experiments.drop_last();
        assert forall|i: int| 0 <= i < shorter.len() implies (#[trigger] shorter[i]).item.id@
            != id by {
            assert(shorter[i] == experiments[i]);
        }
        only_experiments_are_found(shorter, id);
        assert(experiments[experiments.len() - 1].item.id@ != id);
    }
}

} // verus!
