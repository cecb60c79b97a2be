use experiment_buckets::allocation::{
    free_experiment_buckets, reconcile_buckets, update_bucket_allocation, variant_bucket_targets,
};
use experiment_buckets::error::GroupError;
use experiment_buckets::model::{
    Bucket, Buckets, Condition, Experiment, ExperimentStatusType, ExperimentType, Overrides,
    TrafficPercentage, Variant, VariantType, Variants,
};
use serde_json::Value;

fn variant_gen(id: &str, variant_type: VariantType) -> Variant {
    let mut values = serde_json::Map::new();
    values.insert("key1".to_string(), Value::String("value1".to_string()));
    Variant {
        id: id.to_string(),
        variant_type,
        context_id: None,
        override_id: None,
        overrides: Overrides { values },
    }
}

fn experiment_gen(
    id: i64,
    experiment_type: ExperimentType,
    variants: Vec<Variant>,
) -> Experiment {
    let mut dimensions = serde_json::Map::new();
    dimensions.insert("os".to_string(), Value::String("os1".to_string()));
    Experiment {
        id,
        name: "experiment-test".to_string(),
        experiment_type,
        traffic_percentage: TrafficPercentage::default(),
        status: ExperimentStatusType::CREATED,
        context: Condition { dimensions },
        variants: Variants::new(variants),
    }
}

fn release_experiment_gen(variants: Vec<Variant>) -> Experiment {
    experiment_gen(123456789, ExperimentType::Release, variants)
}

fn control_and_experimental() -> Vec<Variant> {
    vec![
        variant_gen("control", VariantType::CONTROL),
        variant_gen("experimental", VariantType::EXPERIMENTAL),
    ]
}

fn percent(value: i32) -> TrafficPercentage {
    TrafficPercentage::try_from(value).unwrap()
}

fn count_for(buckets: &Buckets, variant_id: &str) -> usize {
    buckets
        .slots
        .iter()
        .filter(|b| b.as_ref().is_some_and(|x| x.variant_id == variant_id))
        .count()
}

fn total_assigned(buckets: &Buckets) -> usize {
    buckets.slots.iter().filter(|b| b.is_some()).count()
}

fn copy_of(buckets: &Buckets) -> Buckets {
    Buckets { slots: buckets.slots.clone() }
}

#[test]
fn test_bucket_coverage_release_vs_default() {
    assert_eq!(ExperimentType::Release.total_traffic_percentage(10, 2), 100);
    assert_eq!(ExperimentType::Release.total_traffic_percentage(0, 2), 100);
    assert_eq!(ExperimentType::Default.total_traffic_percentage(30, 2), 60);
    assert_eq!(ExperimentType::DeleteOverrides.total_traffic_percentage(25, 3), 75);
}

#[test]
fn test_release_bucket_allocation_split() -> Result<(), GroupError> {
    let experiment = release_experiment_gen(control_and_experimental());
    let mut buckets = Buckets::default();

    update_bucket_allocation(&experiment, &mut buckets, &percent(10))?;

    assert_eq!(count_for(&buckets, "experimental"), 10);
    assert_eq!(count_for(&buckets, "control"), 90);
    assert_eq!(total_assigned(&buckets), 100);
    Ok(())
}

#[test]
fn test_release_bucket_reallocation_moves_buckets() -> Result<(), GroupError> {
    let experiment = release_experiment_gen(control_and_experimental());
    let mut buckets = Buckets::default();

    update_bucket_allocation(&experiment, &mut buckets, &percent(10))?;
    update_bucket_allocation(&experiment, &mut buckets, &percent(50))?;

    assert_eq!(count_for(&buckets, "experimental"), 50);
    assert_eq!(count_for(&buckets, "control"), 50);
    assert_eq!(total_assigned(&buckets), 100);

    update_bucket_allocation(&experiment, &mut buckets, &percent(100))?;
    assert_eq!(count_for(&buckets, "experimental"), 100);
    assert_eq!(count_for(&buckets, "control"), 0);
    assert_eq!(total_assigned(&buckets), 100);
    Ok(())
}

#[test]
fn test_release_multi_experimental_split_with_remainder() -> Result<(), GroupError> {
    let variants = vec![
        variant_gen("control", VariantType::CONTROL),
        variant_gen("exp_a", VariantType::EXPERIMENTAL),
        variant_gen("exp_b", VariantType::EXPERIMENTAL),
        variant_gen("exp_c", VariantType::EXPERIMENTAL),
    ];
    let experiment = release_experiment_gen(variants);
    let mut buckets = Buckets::default();

    update_bucket_allocation(&experiment, &mut buckets, &percent(10))?;

    let experimental_total = count_for(&buckets, "exp_a")
        + count_for(&buckets, "exp_b")
        + count_for(&buckets, "exp_c");
    assert_eq!(experimental_total, 10);
    assert_eq!(count_for(&buckets, "exp_a"), 4);
    assert_eq!(count_for(&buckets, "exp_b"), 3);
    assert_eq!(count_for(&buckets, "exp_c"), 3);
    assert_eq!(count_for(&buckets, "control"), 90);
    assert_eq!(total_assigned(&buckets), 100);
    Ok(())
}

#[test]
fn test_release_free_experiment_buckets() -> Result<(), GroupError> {
    let experiment = release_experiment_gen(control_and_experimental());
    let mut buckets = Buckets::default();
    update_bucket_allocation(&experiment, &mut buckets, &percent(40))?;
    assert_eq!(total_assigned(&buckets), 100);

    free_experiment_buckets(&experiment, &mut buckets);
    assert_eq!(total_assigned(&buckets), 0);
    Ok(())
}

#[test]
fn coverage_saturates() {
    assert_eq!(ExperimentType::Default.total_traffic_percentage(100, 0), 0);
    assert_eq!(
        ExperimentType::Default.total_traffic_percentage(255, usize::MAX),
        usize::MAX
    );
    assert_eq!(ExperimentType::Release.total_traffic_percentage(255, usize::MAX), 100);
    assert_eq!(ExperimentType::default(), ExperimentType::Default);
}

#[test]
fn percentages_lie_between_zero_and_hundred() {
    assert_eq!(percent(0).value(), 0);
    assert_eq!(percent(100).value(), 100);
    assert_eq!(TrafficPercentage::default().value(), 0);
    assert_eq!(
        TrafficPercentage::try_from(101),
        Err("The traffic percentage should be between 0 and 100".to_string())
    );
    assert!(TrafficPercentage::try_from(-1).is_err());
    assert!(TrafficPercentage::try_from(i32::MAX).is_err());
}

#[test]
fn new_rows_are_vacant() {
    let buckets = Buckets::default();
    assert_eq!(buckets.slots.len(), 100);
    assert_eq!(total_assigned(&buckets), 0);
}

#[test]
fn release_targets_at_the_ends() {
    let experiment = release_experiment_gen(control_and_experimental());
    assert_eq!(
        variant_bucket_targets(&experiment, &percent(0)),
        vec![("control".to_string(), 100), ("experimental".to_string(), 0)]
    );
    assert_eq!(
        variant_bucket_targets(&experiment, &percent(100)),
        vec![("control".to_string(), 0), ("experimental".to_string(), 100)]
    );
}

#[test]
fn release_without_experimental_variants_is_all_control() -> Result<(), GroupError> {
    let experiment =
        release_experiment_gen(vec![variant_gen("control", VariantType::CONTROL)]);
    for percentage in [0, 10, 30, 100] {
        assert_eq!(
            variant_bucket_targets(&experiment, &percent(percentage)),
            vec![("control".to_string(), 100)]
        );
        let mut buckets = Buckets::default();
        update_bucket_allocation(&experiment, &mut buckets, &percent(percentage))?;
        assert_eq!(count_for(&buckets, "control"), 100);
    }
    Ok(())
}

#[test]
fn other_targets_are_the_percentage() {
    for experiment_type in [ExperimentType::Default, ExperimentType::DeleteOverrides] {
        let experiment = experiment_gen(1, experiment_type, control_and_experimental());
        assert_eq!(
            variant_bucket_targets(&experiment, &percent(30)),
            vec![("control".to_string(), 30), ("experimental".to_string(), 30)]
        );
    }
}

#[test]
fn default_allocation_takes_the_first_buckets_and_leaves_the_rest() -> Result<(), GroupError> {
    let experiment = experiment_gen(-7, ExperimentType::Default, control_and_experimental());
    let mut buckets = Buckets::default();
    update_bucket_allocation(&experiment, &mut buckets, &percent(30))?;
    for (i, slot) in buckets.slots.iter().enumerate() {
        let expected = if i < 30 {
            Some("control")
        } else if i < 60 {
            Some("experimental")
        } else {
            None
        };
        assert_eq!(slot.as_ref().map(|b| b.variant_id.as_str()), expected);
        assert!(slot.as_ref().map_or(true, |b| b.experiment_id == "-7"));
    }
    Ok(())
}

#[test]
fn ramping_down_frees_the_first_buckets_of_each_variant() -> Result<(), GroupError> {
    let experiment = experiment_gen(1, ExperimentType::Default, control_and_experimental());
    let mut buckets = Buckets::default();
    update_bucket_allocation(&experiment, &mut buckets, &percent(40))?;
    update_bucket_allocation(&experiment, &mut buckets, &percent(10))?;
    let held: Vec<usize> = (0..100).filter(|i| buckets.slots[*i].is_some()).collect();
    let expected: Vec<usize> = (30..40).chain(70..80).collect();
    assert_eq!(held, expected);
    Ok(())
}

#[test]
fn ramping_up_keeps_buckets_of_growing_variants() -> Result<(), GroupError> {
    let experiment = release_experiment_gen(control_and_experimental());
    let mut buckets = Buckets::default();
    update_bucket_allocation(&experiment, &mut buckets, &percent(10))?;
    let before = copy_of(&buckets);
    update_bucket_allocation(&experiment, &mut buckets, &percent(60))?;
    for i in 0..100 {
        if before.slots[i].as_ref().unwrap().variant_id == "experimental" {
            assert_eq!(before.slots[i], buckets.slots[i]);
        }
    }
    Ok(())
}

#[test]
fn allocating_again_changes_nothing() -> Result<(), GroupError> {
    let experiment = release_experiment_gen(control_and_experimental());
    let mut buckets = Buckets::default();
    update_bucket_allocation(&experiment, &mut buckets, &percent(37))?;
    let before = copy_of(&buckets);
    update_bucket_allocation(&experiment, &mut buckets, &percent(37))?;
    assert_eq!(before, buckets);
    Ok(())
}

#[test]
fn other_experiments_are_spared() -> Result<(), GroupError> {
    let first = experiment_gen(1, ExperimentType::Default, control_and_experimental());
    let second = experiment_gen(2, ExperimentType::Default, control_and_experimental());
    let mut buckets = Buckets::default();
    update_bucket_allocation(&first, &mut buckets, &percent(20))?;
    let with_first = copy_of(&buckets);
    update_bucket_allocation(&second, &mut buckets, &percent(30))?;
    assert_eq!(total_assigned(&buckets), 100);
    for i in 0..40 {
        assert_eq!(buckets.slots[i], with_first.slots[i]);
    }
    free_experiment_buckets(&second, &mut buckets);
    assert_eq!(buckets, with_first);
    Ok(())
}

#[test]
fn a_lack_of_buckets_is_reported_and_the_rest_is_taken() {
    let first = experiment_gen(1, ExperimentType::Default, control_and_experimental());
    let second = experiment_gen(2, ExperimentType::Default, control_and_experimental());
    let mut buckets = Buckets::default();
    update_bucket_allocation(&first, &mut buckets, &percent(30)).unwrap();
    let error = update_bucket_allocation(&second, &mut buckets, &percent(25)).unwrap_err();
    assert_eq!(
        error,
        GroupError::NotEnoughBuckets { required: 10, variant_id: "experimental".to_string() }
    );
    assert!(error.is_bad_argument());
    assert_eq!(
        error.message(),
        "Not enough empty buckets to accommodate the updated traffic percentage. Required additional: 10 for variant experimental"
    );
    assert_eq!(total_assigned(&buckets), 100);
}

#[test]
fn stale_variants_lose_their_buckets() -> Result<(), GroupError> {
    let experiment = experiment_gen(5, ExperimentType::Default, control_and_experimental());
    let mut buckets = Buckets::default();
    buckets.slots[3] = Some(Bucket {
        experiment_id: "5".to_string(),
        variant_id: "removed".to_string(),
    });
    buckets.slots[4] = Some(Bucket {
        experiment_id: "6".to_string(),
        variant_id: "removed".to_string(),
    });
    reconcile_buckets(&experiment, &mut buckets, &vec![("control".to_string(), 2)])?;
    assert_eq!(count_for(&buckets, "control"), 2);
    assert_eq!(count_for(&buckets, "removed"), 1);
    assert!(buckets.slots[3].is_none());
    assert!(buckets.slots[4].is_some());
    Ok(())
}
