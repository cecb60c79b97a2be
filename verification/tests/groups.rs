use experiment_buckets::error::GroupError;
use experiment_buckets::groups::{
    create_system_generated_experiment_group, detach_experiment_from_group,
    update_experiment_group_buckets, NewExperimentGroup,
};
use experiment_buckets::model::{
    Condition, Experiment, ExperimentStatusType, ExperimentType, GroupType,
    Overrides, Timestamp, TrafficPercentage, Variant, VariantType, Variants,
};
use serde_json::Value;

fn variant(id: &str, variant_type: VariantType) -> Variant {
    Variant {
        id: id.to_string(),
        variant_type,
        context_id: None,
        override_id: None,
        overrides: Overrides { values: serde_json::Map::new() },
    }
}

fn experiment(id: i64, experiment_type: ExperimentType) -> Experiment {
    let mut dimensions = serde_json::Map::new();
    dimensions.insert("os".to_string(), Value::String("os1".to_string()));
    Experiment {
        id,
        name: "checkout".to_string(),
        experiment_type,
        traffic_percentage: TrafficPercentage::default(),
        status: ExperimentStatusType::CREATED,
        context: Condition { dimensions },
        variants: Variants::new(vec![
            variant("control", VariantType::CONTROL),
            variant("experimental", VariantType::EXPERIMENTAL),
        ]),
    }
}

fn percent(value: i32) -> TrafficPercentage {
    TrafficPercentage::try_from(value).unwrap()
}

fn make(experiment: &Experiment, traffic: i32) -> Result<NewExperimentGroup, GroupError> {
    create_system_generated_experiment_group(
        experiment,
        &percent(traffic),
        77,
        "hash".to_string(),
        &"someone@example.com".to_string(),
        Timestamp { seconds: 5, nanos: 6 },
    )
}

fn assigned(new: &NewExperimentGroup) -> usize {
    new.group.buckets.slots.iter().filter(|b| b.is_some()).count()
}

#[test]
fn a_new_group_covers_what_its_experiment_covers() {
    let new = make(&experiment(42, ExperimentType::Default), 30).unwrap();
    assert_eq!(new.context_hash, "hash");
    assert_eq!(new.name, "checkout");
    assert_eq!(new.description, "Experiment group for experiment checkout");
    assert_eq!(new.change_reason, "System generated experiment group for experiment 42");
    assert_eq!(new.created_by, "someone@example.com");
    assert_eq!(new.last_modified_by, "someone@example.com");
    assert_eq!(new.created_at, Timestamp { seconds: 5, nanos: 6 });
    assert_eq!(new.last_modified_at, new.created_at);
    assert_eq!(assigned(&new), 60);
    let group = new.group;
    assert_eq!(group.id, 77);
    assert_eq!(group.context.dimensions, experiment(42, ExperimentType::Default).context.dimensions);
    assert_eq!(group.context.dimensions.len(), 1);
    assert_eq!(group.traffic_percentage, percent(60));
    assert_eq!(group.member_experiment_ids, vec![42]);
    assert_eq!(group.group_type, GroupType::SystemGenerated);
}

#[test]
fn a_new_group_of_a_release_is_full() {
    let new = make(&experiment(42, ExperimentType::Release), 30).unwrap();
    assert_eq!(new.group.traffic_percentage, percent(100));
    assert_eq!(assigned(&new), 100);
}

#[test]
fn an_experiment_cannot_cover_more_than_all_traffic() {
    let error = make(&experiment(42, ExperimentType::Default), 51).unwrap_err();
    assert_eq!(
        error,
        GroupError::InvalidTraffic {
            reason: "The traffic percentage should be between 0 and 100".to_string()
        }
    );
    assert!(!error.is_bad_argument());
    assert_eq!(error.message(), "The traffic percentage should be between 0 and 100");
    assert!(make(&experiment(42, ExperimentType::Default), 50).is_ok());
}

#[test]
fn a_ramp_changes_a_system_generated_group() {
    let ramped = experiment(42, ExperimentType::Default);
    let group = make(&ramped, 30).unwrap().group;
    let update = update_experiment_group_buckets(&ramped, group, &percent(45)).unwrap();
    assert_eq!(update.traffic_percentage, percent(90));
    assert_eq!(update.buckets.slots.iter().filter(|b| b.is_some()).count(), 90);
    assert_eq!(update.change_reason, "Updated traffic percentage for experiment group 77");
    let group = make(&ramped, 30).unwrap().group;
    assert!(matches!(
        update_experiment_group_buckets(&ramped, group, &percent(60)),
        Err(GroupError::InvalidTraffic { .. })
    ));
}

#[test]
fn a_ramp_keeps_the_traffic_of_a_user_created_group() {
    let ramped = experiment(42, ExperimentType::Default);
    let mut group = make(&experiment(1, ExperimentType::Default), 10).unwrap().group;
    group.group_type = GroupType::UserCreated;
    let update = update_experiment_group_buckets(&ramped, group, &percent(40)).unwrap();
    assert_eq!(update.traffic_percentage, percent(20));
    assert_eq!(update.buckets.slots.iter().filter(|b| b.is_some()).count(), 100);
    let mut group = make(&experiment(1, ExperimentType::Default), 10).unwrap().group;
    group.group_type = GroupType::UserCreated;
    assert_eq!(
        update_experiment_group_buckets(&ramped, group, &percent(41)),
        Err(GroupError::NotEnoughBuckets {
            required: 2,
            variant_id: "experimental".to_string()
        })
    );
}

#[test]
fn detaching_empties_a_group_made_for_the_experiment() {
    let leaving = experiment(42, ExperimentType::Release);
    let detachment = detach_experiment_from_group(&leaving, make(&leaving, 30).unwrap().group);
    assert_eq!(detachment.change_reason, "Removed experiment 42 from group 77");
    assert!(detachment.member_experiment_ids.is_empty());
    assert!(detachment.buckets.slots.iter().all(|b| b.is_none()));
    assert!(detachment.delete_group);
}

#[test]
fn detaching_spares_the_other_members() {
    let leaving = experiment(42, ExperimentType::Default);
    let staying = experiment(4, ExperimentType::Default);
    let mut group = make(&staying, 10).unwrap().group;
    group.group_type = GroupType::UserCreated;
    group.member_experiment_ids = vec![42, 4, 42];
    let detachment = detach_experiment_from_group(&leaving, group);
    assert_eq!(detachment.member_experiment_ids, vec![4]);
    assert_eq!(detachment.buckets.slots.iter().filter(|b| b.is_some()).count(), 20);
    assert!(!detachment.delete_group);
}
