//! Experiments, their variants, and the groups that hold their buckets.
use vstd::prelude::*;

use crate::json::clone_object;

verus! {

/// How an experiment turns its traffic percentage into buckets.
#[derive(Clone, Copy, Debug, PartialEq, Eq, Structural)]
pub enum ExperimentType {
    /// Every variant gets the traffic percentage; the rest is unassigned.
    Default,
    /// As `Default`, for experiments that take overrides away.
    DeleteOverrides,
    /// The experimental variants share the traffic percentage and the control
    /// variant absorbs the rest, which is everything where there are none.
    Release,
}

/// Where an experiment stands in its life.
#[derive(Clone, Copy, Debug, PartialEq, Eq, Structural)]
pub enum ExperimentStatusType {
    CREATED,
    CONCLUDED,
    INPROGRESS,
    DISCARDED,
    PAUSED,
}

/// The part a variant plays in its experiment.
#[derive(Clone, Copy, Debug, PartialEq, Eq, Structural)]
pub enum VariantType {
    CONTROL,
    EXPERIMENTAL,
}

/// Who made an experiment group.
#[derive(Clone, Copy, Debug, PartialEq, Eq, Structural)]
pub enum GroupType {
    UserCreated,
    SystemGenerated,
}

/// An instant in UTC: whole seconds since 1970-01-01T00:00:00 and nanoseconds
/// within the second.
#[derive(Clone, Copy, Debug, PartialEq, Eq, Structural)]
pub struct Timestamp {
    pub seconds: i64,
    pub nanos: u32,
}

/// The condition on a request's dimensions under which an experiment or a group
/// is in force.
#[derive(Debug)]
pub struct Condition {
    pub dimensions: serde_json::Map<String, serde_json::Value>,
}

/// The configuration values that a variant overrides.
#[derive(Debug)]
pub struct Overrides {
    pub values: serde_json::Map<String, serde_json::Value>,
}

/// One variant of an experiment.
#[derive(Clone, Debug)]
pub struct Variant {
    pub id: String,
    pub variant_type: VariantType,
    pub context_id: Option<String>,
    pub override_id: Option<String>,
    pub overrides: Overrides,
}

/// The variants of an experiment, in order.
#[derive(Clone, Debug)]
pub struct Variants {
    pub list: Vec<Variant>,
}

/// The part of the traffic that a variant or a group gets, from 0 to 100.
#[derive(Clone, Copy, Debug, PartialEq, Eq, Structural)]
pub struct TrafficPercentage {
    percent: u8,
}

/// An experiment, as far as the rules for groups and buckets read it.
#[derive(Debug)]
pub struct Experiment {
    pub id: i64,
    pub name: String,
    pub experiment_type: ExperimentType,
    pub traffic_percentage: TrafficPercentage,
    pub status: ExperimentStatusType,
    pub context: Condition,
    pub variants: Variants,
}

/// What an occupied bucket holds: a variant of an experiment.
#[derive(Debug, PartialEq, Eq)]
pub struct Bucket {
    pub experiment_id: String,
    pub variant_id: String,
}

/// The buckets of a group. A vacant bucket is `None`.
#[derive(Clone, Debug, PartialEq, Eq)]
pub struct Buckets {
    pub slots: Vec<Option<Bucket>>,
}

/// A set of experiments that share one row of buckets, as far as the rules for
/// groups and buckets read it.
#[derive(Debug)]
pub struct ExperimentGroup {
    pub id: i64,
    pub context: Condition,
    pub traffic_percentage: TrafficPercentage,
    pub member_experiment_ids: Vec<i64>,
    pub buckets: Buckets,
    pub group_type: GroupType,
}

/// The number of buckets of a new group.
pub const BUCKET_COUNT: usize = 100;

/// The contents of an occupied bucket.
pub struct BucketView {
    pub experiment_id: Seq<char>,
    pub variant_id: Seq<char>,
}

impl View for Bucket {
    type V = BucketView;

    open spec fn view(&self) -> BucketView {
        BucketView { experiment_id: self.experiment_id@, variant_id: self.variant_id@ }
    }
}

/// The contents of a bucket that may be vacant.
pub open spec fn slot_view(slot: Option<Bucket>) -> Option<BucketView> {
    match slot {
        Some(bucket) => Some(bucket@),
        None => None,
    }
}

impl View for Buckets {
    type V = Seq<Option<BucketView>>;

    open spec fn view(&self) -> Seq<Option<BucketView>> {
        self.slots@.map_values(|slot: Option<Bucket>| slot_view(slot))
    }
}

impl View for TrafficPercentage {
    type V = nat;

    closed spec fn view(&self) -> nat {
        self.percent as nat
    }
}

/// The part of the traffic that the buckets of an experiment cover, in percent:
/// all of it for a release, the percentage of each variant otherwise.
pub open spec fn covered_traffic(
    experiment_type: ExperimentType,
    traffic_percentage: nat,
    variant_count: nat,
) -> nat {
    match experiment_type {
        ExperimentType::Release => 100,
        ExperimentType::Default | ExperimentType::DeleteOverrides => traffic_percentage
            * variant_count,
    }
}

impl ExperimentType {
    /// The part of the traffic that an experiment's buckets cover, in percent.
    /// A product that no `usize` can hold is given as the largest one.
    pub fn total_traffic_percentage(&self, traffic_percentage: u8, variant_count: usize) -> (total:
        usize)
        ensures
            total == if covered_traffic(
                *self,
                traffic_percentage as nat,
                variant_count as nat,
            ) <= usize::MAX {
                covered_traffic(*self, traffic_percentage as nat, variant_count as nat)
            } else {
                usize::MAX as nat
            },
    {
        match self {
            ExperimentType::Release => 100,
            ExperimentType::Default | ExperimentType::DeleteOverrides => {
                match (traffic_percentage as usize).checked_mul(variant_count) {
                    Some(total) => total,
                    None => usize::MAX,
                }
            },
        }
    }
}

impl Default for ExperimentType {
    fn default() -> (experiment_type: ExperimentType)
        ensures
            experiment_type == ExperimentType::Default,
    {
        ExperimentType::Default
    }
}

impl TrafficPercentage {
    #[verifier::type_invariant]
    spec fn within_bounds(self) -> bool {
        self.percent <= 100
    }

    /// A percentage from a number: the number itself, refused unless it lies
    /// between 0 and 100.
    pub fn try_from(value: i32) -> (percentage: Result<TrafficPercentage, String>)
        ensures
            percentage is Ok <==> 0 <= value <= 100,
            percentage matches Ok(p) ==> p@ == value,
            percentage matches Err(e) ==> e@
                == "The traffic percentage should be between 0 and 100"@,
    {
        if 0 <= value && value <= 100 {
            Ok(TrafficPercentage { percent: value as u8 })
        } else {
            Err("The traffic percentage should be between 0 and 100".to_owned())
        }
    }

    /// The percentage as a number.
    pub fn value(&self) -> (percent: u8)
        ensures
            percent == self@,
            percent <= 100,
    {
        proof {
            use_type_invariant(self);
        }
        self.percent
    }
}

impl Default for TrafficPercentage {
    fn default() -> (percentage: TrafficPercentage)
        ensures
            percentage@ == 0,
    {
        TrafficPercentage { percent: 0 }
    }
}

impl Clone for Bucket {
    fn clone(&self) -> (copy: Bucket)
        ensures
            copy == *self,
    {
        Bucket {
            experiment_id: self.experiment_id.clone(),
            variant_id: self.variant_id.clone(),
        }
    }
}

impl Clone for Condition {
    fn clone(&self) -> (copy: Condition)
        ensures
            copy == *self,
    {
        Condition { dimensions: clone_object(&self.dimensions) }
    }
}

impl Clone for Overrides {
    fn clone(&self) -> (copy: Overrides)
        ensures
            copy == *self,
    {
        Overrides { values: clone_object(&self.values) }
    }
}

impl Default for Buckets {
    /// A full row of vacant buckets.
    fn default() -> (buckets: Buckets)
        ensures
            buckets@.len() == BUCKET_COUNT,
            forall|i: int| 0 <= i < BUCKET_COUNT ==> #[trigger] buckets@[i] is None,
    {
        let mut slots: Vec<Option<Bucket>> = Vec::new();
        while slots.len() < BUCKET_COUNT
            invariant
                slots.len() <= BUCKET_COUNT,
                forall|i: int| 0 <= i < slots.len() ==> #[trigger] slots[i] is None,
            decreases BUCKET_COUNT - slots.len(),
        {
            slots.push(None);
        }
        Buckets { slots }
    }
}

impl Variants {
    /// The variants in `list`, in that order.
    pub fn new(list: Vec<Variant>) -> (variants: Variants)
        ensures
            variants.list == list,
    {
        Variants { list }
    }
}

/// A release covers all of the traffic. Any other experiment covers nothing without
/// variants, and with each variant its traffic percentage more.
pub proof fn every_variant_adds_to_the_coverage(
    experiment_type: ExperimentType,
    traffic_percentage: nat,
    variant_count: nat,
)
    ensures
        experiment_type == ExperimentType::Release ==> covered_traffic(
            experiment_type,
            traffic_percentage,
            variant_count,
        ) == 100,
        experiment_type != ExperimentType::Release ==> {
            &&& covered_traffic(experiment_type, traffic_percentage, 0) == 0
            &&& covered_traffic(experiment_type, traffic_percentage, variant_count + 1)
                == covered_traffic(experiment_type, traffic_percentage, variant_count)
                + traffic_percentage
        },
{
    assert(traffic_percentage * (variant_count + 1) == traffic_percentage * variant_count
        + traffic_percentage) by (nonlinear_arith);
}

/// A row shows every bucket at its place: vacant, or with its experiment and its
/// variant.
pub proof fn rows_show_every_bucket(buckets: Buckets, i: int)
    requires
        0 <= i < buckets.slots@.len(),
    ensures
        buckets@.len() == buckets.slots@.len(),
        buckets@[i] is Some <==> buckets.slots@[i] is Some,
        buckets@[i] is Some ==> buckets@[i]->0.experiment_id
            == buckets.slots@[i]->0.experiment_id@ && buckets@[i]->0.variant_id
            == buckets.slots@[i]->0.variant_id@,
{
}

} // verus!
