use std::collections::hash_map::DefaultHasher;
use std::hash::{Hash, Hasher};

use experiment_buckets::experiment::{
    bucket_from_group, bucket_index_of_hash, calculate_bucket_index,
    filter_experiments_by_context, get_applicable_buckets_from_group, get_applicable_variants,
    get_applicable_variants_from_group_response, get_satisfied_experiments, resume_selection,
    ContextFilter, Evaluated, ExperimentConfig, ExperimentIndex, FfiExperiment,
    FfiExperimentGroup, MapError, Selection,
};
use experiment_buckets::groups::create_system_generated_experiment_group;
use experiment_buckets::model::{
    Bucket, Buckets, Condition, Experiment, ExperimentStatusType, ExperimentType, GroupType,
    Overrides, Timestamp, TrafficPercentage, Variant, VariantType, Variants,
};
use serde_json::Value;

fn variant(id: &str, variant_type: VariantType) -> Variant {
    let mut values = serde_json::Map::new();
    values.insert("key".to_string(), Value::String(id.to_string()));
    Variant {
        id: id.to_string(),
        variant_type,
        context_id: None,
        override_id: None,
        overrides: Overrides { values },
    }
}

fn experiment(experiment_type: ExperimentType, traffic: u8) -> FfiExperiment {
    FfiExperiment {
        id: "exp1".to_string(),
        traffic_percentage: traffic,
        variants: Variants::new(vec![
            variant("exp1-control", VariantType::CONTROL),
            variant("exp1-experimental-1", VariantType::EXPERIMENTAL),
        ]),
        context: Condition { dimensions: serde_json::Map::new() },
        status: ExperimentStatusType::INPROGRESS,
        experiment_type,
    }
}

fn bucket(experiment_id: &str, variant_id: &str) -> Bucket {
    Bucket { experiment_id: experiment_id.to_string(), variant_id: variant_id.to_string() }
}

fn resolve(exp: &FfiExperiment, toss: usize, variant_id: &str) -> Vec<String> {
    let buckets = vec![(toss, bucket(&exp.id, variant_id))];
    let experiments = ExperimentIndex::new(vec![Evaluated { item: exp.clone(), satisfied: true }]);
    get_applicable_variants_from_group_response(&experiments, &buckets)
}

#[test]
fn release_serves_buckets_above_old_cap() {
    let exp = experiment(ExperimentType::Release, 40);
    assert_eq!(resolve(&exp, 90, "exp1-control"), vec!["exp1-control"]);
    assert_eq!(resolve(&exp, 99, "exp1-control"), vec!["exp1-control"]);
}

#[test]
fn default_still_gates_above_coverage() {
    let exp = experiment(ExperimentType::Default, 40);
    assert!(resolve(&exp, 90, "exp1-experimental-1").is_empty());
    assert_eq!(
        resolve(&exp, 70, "exp1-experimental-1"),
        vec!["exp1-experimental-1"]
    );
}

#[test]
fn the_gate_lies_at_the_coverage() {
    let exp = experiment(ExperimentType::DeleteOverrides, 40);
    assert_eq!(resolve(&exp, 80, "v"), vec!["v"]);
    assert!(resolve(&exp, 81, "v").is_empty());
    assert_eq!(resolve(&experiment(ExperimentType::Release, 0), 100, "v"), vec!["v"]);
    assert!(resolve(&experiment(ExperimentType::Release, 0), 101, "v").is_empty());
}

#[test]
fn unknown_and_unsatisfied_experiments_serve_nothing() {
    let buckets = vec![(0, bucket("exp1", "v")), (0, bucket("exp2", "w"))];
    let unsatisfied = ExperimentIndex::new(vec![Evaluated {
        item: experiment(ExperimentType::Release, 40),
        satisfied: false,
    }]);
    assert!(get_applicable_variants_from_group_response(&unsatisfied, &buckets).is_empty());
    let known = ExperimentIndex::new(vec![Evaluated {
        item: experiment(ExperimentType::Release, 40),
        satisfied: true,
    }]);
    assert_eq!(get_applicable_variants_from_group_response(&known, &buckets), vec!["v"]);
}

#[test]
fn the_last_experiment_with_an_id_counts() {
    let index = ExperimentIndex::new(vec![
        Evaluated { item: experiment(ExperimentType::Default, 1), satisfied: false },
        Evaluated { item: experiment(ExperimentType::Default, 2), satisfied: true },
    ]);
    let found = index.get("exp1").unwrap();
    assert_eq!(found.item.traffic_percentage, 2);
    assert!(found.satisfied);
    assert!(index.get("exp").is_none());
}

#[test]
fn identifiers_fall_into_the_bucket_of_their_hash() {
    for (identifier, group_id) in [("user-1", "77"), ("", "77"), ("ünïcode", "-1"), ("a", "bc")] {
        let mut hasher = DefaultHasher::new();
        (identifier, group_id).hash(&mut hasher);
        let expected = (hasher.finish() % 100) as usize;
        assert_eq!(calculate_bucket_index(identifier, group_id), expected);
    }
    assert_eq!(bucket_index_of_hash(0), 0);
    assert_eq!(bucket_index_of_hash(12345), 45);
    assert_eq!(bucket_index_of_hash(u64::MAX), 15);
}

#[test]
fn identifiers_spread_over_the_buckets() {
    let mut seen = vec![false; 100];
    for i in 0..5000 {
        seen[calculate_bucket_index(&format!("user-{}", i), "group")] = true;
    }
    assert!(seen.iter().filter(|s| **s).count() > 90);
}

fn group(group_type: GroupType, traffic: u8, slots: Vec<Option<Bucket>>) -> FfiExperimentGroup {
    FfiExperimentGroup {
        id: "77".to_string(),
        context: Condition { dimensions: serde_json::Map::new() },
        traffic_percentage: traffic,
        member_experiment_ids: vec![],
        group_type,
        buckets: Buckets { slots },
    }
}

fn full_row() -> Vec<Option<Bucket>> {
    (0..100).map(|i| Some(bucket("exp1", &format!("v{}", i)))).collect()
}

fn in_context(item: FfiExperimentGroup) -> Evaluated<FfiExperimentGroup> {
    Evaluated { item, satisfied: true }
}

#[test]
fn the_toss_of_a_system_generated_group_is_the_index() {
    let system = in_context(group(GroupType::SystemGenerated, 60, full_row()));
    assert_eq!(bucket_from_group(&system, 60), Some((60, bucket("exp1", "v60"))));
    assert_eq!(bucket_from_group(&system, 0), Some((0, bucket("exp1", "v0"))));
    assert_eq!(bucket_from_group(&system, 61), None);
    assert_eq!(bucket_from_group(&system, usize::MAX), None);
}

#[test]
fn the_toss_of_a_user_created_group_is_scaled() {
    let users = in_context(group(GroupType::UserCreated, 60, full_row()));
    assert_eq!(bucket_from_group(&users, 60), Some((100, bucket("exp1", "v60"))));
    assert_eq!(bucket_from_group(&users, 10), Some((16, bucket("exp1", "v10"))));
    let none = in_context(group(GroupType::UserCreated, 0, full_row()));
    assert_eq!(bucket_from_group(&none, 0), None);
    let system = in_context(group(GroupType::SystemGenerated, 0, full_row()));
    assert_eq!(bucket_from_group(&system, 0), Some((0, bucket("exp1", "v0"))));
}

#[test]
fn vacant_missing_and_unsatisfied_buckets_serve_nothing() {
    let vacant = in_context(group(GroupType::SystemGenerated, 100, vec![None]));
    assert_eq!(bucket_from_group(&vacant, 0), None);
    assert_eq!(bucket_from_group(&vacant, 1), None);
    let unsatisfied = Evaluated {
        item: group(GroupType::SystemGenerated, 100, full_row()),
        satisfied: false,
    };
    assert_eq!(bucket_from_group(&unsatisfied, 0), None);
}

#[test]
fn every_group_gives_the_bucket_of_the_identifier() {
    let index = calculate_bucket_index("user-1", "77");
    let groups = vec![
        in_context(group(GroupType::SystemGenerated, 100, full_row())),
        Evaluated { item: group(GroupType::SystemGenerated, 100, full_row()), satisfied: false },
        in_context(group(GroupType::UserCreated, 100, full_row())),
    ];
    let expected = (index, bucket("exp1", &format!("v{}", index)));
    assert_eq!(
        get_applicable_buckets_from_group(&groups, "user-1"),
        vec![expected.clone(), expected]
    );
    assert!(get_applicable_buckets_from_group(&groups, "").is_empty());
}

fn stored_experiment(experiment_type: ExperimentType) -> Experiment {
    Experiment {
        id: 42,
        name: "checkout".to_string(),
        experiment_type,
        traffic_percentage: TrafficPercentage::try_from(30).unwrap(),
        status: ExperimentStatusType::INPROGRESS,
        context: Condition { dimensions: serde_json::Map::new() },
        variants: Variants::new(vec![
            variant("control", VariantType::CONTROL),
            variant("experimental", VariantType::EXPERIMENTAL),
        ]),
    }
}

fn serve(experiment_type: ExperimentType, identifier: &str) -> Vec<String> {
    serve_stored(stored_experiment(experiment_type), identifier)
}

fn serve_stored(stored: Experiment, identifier: &str) -> Vec<String> {
    let group = create_system_generated_experiment_group(
        &stored,
        &stored.traffic_percentage,
        77,
        "hash".to_string(),
        &"someone".to_string(),
        Timestamp { seconds: 0, nanos: 0 },
    )
    .unwrap()
    .group;
    let groups = vec![in_context(FfiExperimentGroup::from(group))];
    let experiments = vec![Evaluated { item: FfiExperiment::from(stored), satisfied: true }];
    get_applicable_variants(experiments, &groups, identifier)
}

#[test]
fn a_release_leaves_no_request_out() {
    let mut experimental = 0;
    for i in 0..300 {
        let identifier = format!("user-{}", i);
        let served = serve(ExperimentType::Release, &identifier);
        assert_eq!(served.len(), 1);
        let expected = if calculate_bucket_index(&identifier, "77") < 70 {
            "control"
        } else {
            "experimental"
        };
        assert_eq!(served[0], expected);
        experimental += (expected == "experimental") as usize;
    }
    assert!(experimental > 0);
    assert!(serve(ExperimentType::Release, "").is_empty());
}

#[test]
fn a_release_without_experimental_variants_leaves_no_request_out() {
    for i in 0..300 {
        let mut stored = stored_experiment(ExperimentType::Release);
        stored.variants = Variants::new(vec![variant("control", VariantType::CONTROL)]);
        assert_eq!(serve_stored(stored, &format!("user-{}", i)), vec!["control"]);
    }
}

#[test]
fn clones_hold_the_same() {
    let held = experiment(ExperimentType::Release, 40);
    let copy = held.clone();
    assert_eq!(copy.id, held.id);
    assert_eq!(copy.traffic_percentage, 40);
    assert_eq!(copy.variants.list.len(), 2);
    assert_eq!(copy.variants.list[1].id, "exp1-experimental-1");
    assert_eq!(copy.variants.list[1].overrides.values, held.variants.list[1].overrides.values);
    assert_eq!(copy.context.dimensions, held.context.dimensions);
    assert_eq!(copy.experiment_type, ExperimentType::Release);

    let row = group(GroupType::UserCreated, 50, full_row());
    assert_eq!(row.clone().buckets, row.buckets);
    let config = ExperimentConfig { experiments: vec![held], experiment_groups: vec![row] };
    let copy = config.clone();
    assert_eq!(copy.experiments.len(), 1);
    assert_eq!(copy.experiment_groups[0].buckets, config.experiment_groups[0].buckets);
}

#[test]
fn a_new_group_serves_the_covered_traffic() {
    for i in 0..300 {
        let identifier = format!("user-{}", i);
        let index = calculate_bucket_index(&identifier, "77");
        let expected: Vec<String> = if index < 30 {
            vec!["control".to_string()]
        } else if index < 60 {
            vec!["experimental".to_string()]
        } else {
            vec![]
        };
        assert_eq!(serve(ExperimentType::Default, &identifier), expected);
    }
}

#[test]
fn clients_hold_what_is_stored() {
    let mut held = FfiExperiment::from(stored_experiment(ExperimentType::Release));
    assert_eq!(held.id, "42");
    assert_eq!(held.traffic_percentage, 30);
    assert_eq!(held.status, ExperimentStatusType::INPROGRESS);
    assert_eq!(held.experiment_type, ExperimentType::Release);
    assert_eq!(held.variants.list.len(), 2);
    assert!(held.get_condition().dimensions.is_empty());
    held.get_variants_mut().pop();
    assert_eq!(held.variants.list.len(), 1);
    assert_eq!(held.variants.list[0].id, "control");
}

#[test]
fn clients_hold_groups_by_their_texts() {
    let stored = stored_experiment(ExperimentType::Default);
    let mut group = create_system_generated_experiment_group(
        &stored,
        &stored.traffic_percentage,
        -77,
        "hash".to_string(),
        &"someone".to_string(),
        Timestamp { seconds: 0, nanos: 0 },
    )
    .unwrap()
    .group;
    group.member_experiment_ids = vec![0, -5, i64::MAX];
    let held = FfiExperimentGroup::from(group);
    assert_eq!(held.id, "-77");
    assert_eq!(held.traffic_percentage, 60);
    assert_eq!(held.member_experiment_ids, vec!["0", "-5", "9223372036854775807"]);
    assert_eq!(held.group_type, GroupType::SystemGenerated);
    assert_eq!(held.buckets.slots.len(), 100);
    assert!(held.get_condition().dimensions.is_empty());
}

fn os_context() -> serde_json::Map<String, Value> {
    let mut context = serde_json::Map::new();
    context.insert("os".to_string(), Value::String("os1".to_string()));
    context
}

#[test]
fn an_empty_context_selects_everything() {
    let experiments = vec![experiment(ExperimentType::Default, 1)];
    match get_satisfied_experiments(experiments, &serde_json::Map::new(), None) {
        Selection::Selected { experiments } => assert_eq!(experiments.len(), 1),
        other => panic!("{:?}", other),
    }
    match filter_experiments_by_context(Vec::<FfiExperiment>::new(), &serde_json::Map::new(), Some(vec![])) {
        Selection::Selected { experiments } => assert!(experiments.is_empty()),
        other => panic!("{:?}", other),
    }
}

#[test]
fn a_context_filters_experiments() {
    let experiments = vec![experiment(ExperimentType::Default, 1)];
    match get_satisfied_experiments(experiments, &os_context(), Some(vec![])) {
        Selection::FilterByContext { experiments, context_filter } => {
            assert_eq!(experiments.len(), 1);
            assert_eq!(context_filter, ContextFilter::Satisfied);
        }
        other => panic!("{:?}", other),
    }
    match filter_experiments_by_context(Vec::<FfiExperiment>::new(), &os_context(), None) {
        Selection::FilterByContext { context_filter, .. } => {
            assert_eq!(context_filter, ContextFilter::ByEvaluation);
        }
        other => panic!("{:?}", other),
    }
}

#[test]
fn prefixes_are_filtered_first_and_once() {
    let prefixes = vec!["b.".to_string(), "a.".to_string(), "b.".to_string()];
    let experiments = vec![experiment(ExperimentType::Default, 1)];
    match filter_experiments_by_context(experiments, &os_context(), Some(prefixes)) {
        Selection::FilterKeysByPrefix { experiments, prefixes, context_filter } => {
            assert_eq!(prefixes, vec!["b.", "a."]);
            match resume_selection(experiments, &os_context(), context_filter) {
                Selection::FilterByContext { experiments, context_filter } => {
                    assert_eq!(experiments.len(), 1);
                    assert_eq!(context_filter, ContextFilter::ByEvaluation);
                }
                other => panic!("{:?}", other),
            }
        }
        other => panic!("{:?}", other),
    }
    match resume_selection(Vec::<FfiExperiment>::new(), &serde_json::Map::new(), ContextFilter::Satisfied) {
        Selection::Selected { experiments } => assert!(experiments.is_empty()),
        other => panic!("{:?}", other),
    }
}

#[test]
fn only_the_set_of_prefixes_counts() {
    let begin = |given: &[&str]| {
        let prefixes = given.iter().map(|prefix| prefix.to_string()).collect();
        let experiments = vec![experiment(ExperimentType::Default, 1)];
        match get_satisfied_experiments(experiments, &os_context(), Some(prefixes)) {
            Selection::FilterKeysByPrefix { experiments, mut prefixes, context_filter } => {
                assert_eq!(experiments.len(), 1);
                assert_eq!(context_filter, ContextFilter::Satisfied);
                prefixes.sort();
                prefixes
            }
            other => panic!("{:?}", other),
        }
    };
    assert_eq!(begin(&["a.", "b."]), vec!["a.", "b."]);
    assert_eq!(begin(&["b.", "a."]), vec!["a.", "b."]);
    assert_eq!(begin(&["b.", "a.", "b.", "a."]), vec!["a.", "b."]);
    for prefixes in [None, Some(vec![])] {
        let experiments = vec![experiment(ExperimentType::Default, 1)];
        match filter_experiments_by_context(experiments, &serde_json::Map::new(), prefixes) {
            Selection::Selected { experiments } => assert_eq!(experiments[0].id, "exp1"),
            other => panic!("{:?}", other),
        }
    }
}

#[test]
fn errors_become_their_texts() {
    let failed: Result<u8, _> = "x".parse::<u8>();
    assert_eq!(
        failed.map_err_to_string(),
        Err("invalid digit found in string".to_string())
    );
    let parsed: Result<u8, _> = "7".parse::<u8>();
    assert_eq!(parsed.map_err_to_string(), Ok(7));
}
