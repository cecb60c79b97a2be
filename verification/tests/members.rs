use experiment_buckets::error::GroupError;
use experiment_buckets::members::{
    add_members, ensure_experiments_exist, fetch_and_validate_members, members_to_fetch,
    plan_removal, remove_members, require_members_to_add, require_members_to_remove,
    validate_experiment_group_constraints, validate_override_keys, Candidate, RemovalPlan,
};
use experiment_buckets::model::{
    Bucket, Buckets, Condition, Experiment, ExperimentGroup, ExperimentStatusType, ExperimentType,
    GroupType, TrafficPercentage, Variants,
};


fn experiment(id: i64, experiment_type: ExperimentType, traffic: i32) -> Experiment {
    Experiment {
        id,
        name: "experiment-test".to_string(),
        experiment_type,
        traffic_percentage: TrafficPercentage::try_from(traffic).unwrap(),
        status: ExperimentStatusType::CREATED,
        context: Condition { dimensions: serde_json::Map::new() },
        variants: Variants::new(vec![]),
    }
}

fn candidate(id: i64, traffic: i32) -> Candidate {
    Candidate {
        experiment: experiment(id, ExperimentType::Default, traffic),
        contains_group_context: Ok(true),
    }
}

fn group(group_type: GroupType, members: Vec<i64>, buckets: Buckets) -> ExperimentGroup {
    ExperimentGroup {
        id: 9,
        context: Condition { dimensions: serde_json::Map::new() },
        traffic_percentage: TrafficPercentage::try_from(50).unwrap(),
        member_experiment_ids: members,
        buckets,
        group_type,
    }
}

fn ids_of(experiments: &[Experiment]) -> Vec<i64> {
    experiments.iter().map(|e| e.id).collect()
}

#[test]
fn test_duplicate_override_key_entries() {
    let override_keys = vec!["key1".to_string(), "key2".to_string(), "key1".to_string()];
    assert!(matches!(
        validate_override_keys(&override_keys),
        Err(error) if error.is_bad_argument()
    ));
}

#[test]
fn test_unique_override_key_entries() {
    let override_keys = vec!["key1".to_string(), "key2".to_string()];
    assert!(matches!(validate_override_keys(&override_keys), Ok(())));
}

#[test]
fn the_first_repeated_override_key_is_named() {
    let keys = vec!["b".to_string(), "a".to_string(), "a".to_string(), "b".to_string()];
    let error = validate_override_keys(&keys).unwrap_err();
    assert_eq!(error, GroupError::DuplicateOverrideKey { key: "a".to_string() });
    assert_eq!(error.message(), "The override key a is given more than once");
    assert_eq!(validate_override_keys(&vec![]), Ok(()));
}

#[test]
fn new_members_are_looked_up_once() {
    assert_eq!(members_to_fetch(&vec![3, 1, 3], &vec![2]), Ok(vec![3, 1]));
    assert_eq!(members_to_fetch(&vec![], &vec![2]), Ok(vec![]));
}

#[test]
fn new_members_may_not_be_members_already() {
    let error = members_to_fetch(&vec![1, -2, 3, 1], &vec![3, 1]).unwrap_err();
    assert_eq!(error, GroupError::AlreadyMembers { ids: vec![1, 3] });
    assert_eq!(
        error.message(),
        "The new members list contains IDs that are already in the group: 1, 3"
    );
}

#[test]
fn found_members_are_accepted() {
    let found = vec![experiment(2, ExperimentType::Default, 0)];
    let members = fetch_and_validate_members(&vec![2], &vec![1], found).unwrap();
    assert_eq!(ids_of(&members), vec![2]);
}

#[test]
fn only_created_and_wanted_experiments_are_accepted() {
    let mut started = experiment(2, ExperimentType::Default, 0);
    started.status = ExperimentStatusType::INPROGRESS;
    let error = fetch_and_validate_members(&vec![2], &vec![], vec![started]).unwrap_err();
    assert!(matches!(error, GroupError::MissingExperiments { ids, .. } if ids == vec![2]));
    let found = vec![
        experiment(4, ExperimentType::Default, 0),
        experiment(3, ExperimentType::Default, 0),
        experiment(2, ExperimentType::Default, 0),
    ];
    let members = fetch_and_validate_members(&vec![2, 4], &vec![1], found).unwrap();
    assert_eq!(ids_of(&members), vec![4, 2]);
}

#[test]
fn no_new_members_are_none() {
    let found = vec![experiment(2, ExperimentType::Default, 0)];
    let members = fetch_and_validate_members(&vec![], &vec![1], found).unwrap();
    assert!(members.is_empty());
}

#[test]
fn members_that_were_not_found_are_named() {
    let found = vec![experiment(2, ExperimentType::Default, 0)];
    let error = fetch_and_validate_members(&vec![2, i64::MIN, 10], &vec![1], found).unwrap_err();
    assert_eq!(
        error.message(),
        "The following experiment IDs are not present in the database/are not in the created stage: -9223372036854775808, 10"
    );
    let found = vec![experiment(2, ExperimentType::Default, 0)];
    let error = fetch_and_validate_members(&vec![2, 10], &vec![2], found).unwrap_err();
    assert_eq!(error, GroupError::AlreadyMembers { ids: vec![2] });
}

#[test]
fn expected_experiments_have_to_exist() {
    let found = vec![experiment(2, ExperimentType::Default, 0)];
    assert_eq!(ensure_experiments_exist(&vec![2], &found, "gone"), Ok(()));
    let error = ensure_experiments_exist(&vec![5, 2], &found, "gone").unwrap_err();
    assert_eq!(
        error,
        GroupError::MissingExperiments { reason: "gone".to_string(), ids: vec![5] }
    );
    assert_eq!(error.message(), "gone: 5");
}

#[test]
fn candidates_join_the_members() {
    let candidates = vec![candidate(7, 60), candidate(4, 40), candidate(2, 0)];
    assert_eq!(
        validate_experiment_group_constraints(&candidates, &vec![2, 1, 2]),
        Ok(vec![2, 1, 7, 4])
    );
}

#[test]
fn a_candidate_outside_the_group_context_is_refused() {
    let mut outside = candidate(4, 0);
    outside.contains_group_context = Ok(false);
    let error =
        validate_experiment_group_constraints(&vec![candidate(7, 0), outside], &vec![])
            .unwrap_err();
    assert_eq!(error, GroupError::ContextMismatch { experiment_id: 4 });
    assert_eq!(
        error.message(),
        "Experiment with id 4 does not fit in with the experiment group. The contexts do not match."
    );
}

#[test]
fn the_first_refusal_of_a_context_counts() {
    let mut unclear = candidate(4, 0);
    unclear.contains_group_context = Err("no condition".to_string());
    let mut outside = candidate(5, 0);
    outside.contains_group_context = Ok(false);
    let error =
        validate_experiment_group_constraints(&vec![unclear, outside], &vec![]).unwrap_err();
    assert_eq!(error, GroupError::ContextNotComparable { reason: "no condition".to_string() });
    assert_eq!(error.message(), "The contexts do not match. Error: no condition");
}

#[test]
fn the_traffic_of_candidates_may_not_exceed_hundred() {
    let error = validate_experiment_group_constraints(
        &vec![candidate(1, 60), candidate(2, 41)],
        &vec![],
    )
    .unwrap_err();
    assert_eq!(error, GroupError::TrafficExceeded);
    assert_eq!(
        error.message(),
        "The traffic percentages of the experiments add up to more than 100"
    );
}

#[test]
fn members_are_added_to_a_user_created_group() {
    let users = group(GroupType::UserCreated, vec![1], Buckets::default());
    assert_eq!(add_members(&users, &vec![candidate(2, 0)], &vec![2]), Ok(vec![1, 2]));
}

#[test]
fn requests_without_members_are_refused() {
    let users = group(GroupType::UserCreated, vec![1], Buckets::default());
    let error = add_members(&users, &vec![], &vec![]).unwrap_err();
    assert_eq!(error, GroupError::NothingToAdd);
    assert_eq!(
        error.message(),
        "Please provide at least one experiment ID to add to the group"
    );
    assert_eq!(require_members_to_add(&vec![]), Err(GroupError::NothingToAdd));
    assert_eq!(require_members_to_add(&vec![1]), Ok(()));
    let error = plan_removal(&users, &vec![]).unwrap_err();
    assert_eq!(
        error.message(),
        "Please provide at least one experiment ID to remove from the group"
    );
    assert_eq!(require_members_to_remove(&vec![]), Err(GroupError::NothingToRemove));
    assert_eq!(require_members_to_remove(&vec![1]), Ok(()));
}

#[test]
fn system_generated_groups_keep_their_members() {
    let system = group(GroupType::SystemGenerated, vec![1], Buckets::default());
    let error = add_members(&system, &vec![candidate(2, 0)], &vec![2]).unwrap_err();
    assert_eq!(
        error.message(),
        "Cannot add members to a system-generated experiment groups."
    );
    let error = plan_removal(&system, &vec![1]).unwrap_err();
    assert_eq!(
        error.message(),
        "Cannot remove members from a system-generated experiment group."
    );
    let error = remove_members(system, &vec![1], &vec![]).unwrap_err();
    assert_eq!(error, GroupError::RemoveFromSystemGenerated);
}

#[test]
fn releases_do_not_join_user_created_groups() {
    let users = group(GroupType::UserCreated, vec![1], Buckets::default());
    let mut outside = candidate(3, 0);
    outside.contains_group_context = Ok(false);
    let release = Candidate {
        experiment: experiment(2, ExperimentType::Release, 0),
        contains_group_context: Ok(true),
    };
    let error = add_members(&users, &vec![outside, release], &vec![3, 2]).unwrap_err();
    assert_eq!(
        error.message(),
        "RELEASE experiments cannot be added to a user-created experiment group; they run in their own system-generated group."
    );
}

#[test]
fn removal_keeps_the_other_members_and_their_buckets() {
    let mut buckets = Buckets::default();
    for (i, id) in ["1", "2", "3", "1"].iter().enumerate() {
        buckets.slots[i] =
            Some(Bucket { experiment_id: id.to_string(), variant_id: "v".to_string() });
    }
    let users = group(GroupType::UserCreated, vec![1, 2, 3, 2], buckets);
    assert_eq!(
        plan_removal(&users, &vec![3, 1, 3]),
        Ok(RemovalPlan { remaining: vec![2], removed: vec![3, 1] })
    );
    let found = vec![
        experiment(1, ExperimentType::Default, 0),
        experiment(2, ExperimentType::Default, 0),
        experiment(3, ExperimentType::Default, 0),
    ];
    let removal = remove_members(users, &vec![3, 1, 3], &found).unwrap();
    assert_eq!(removal.member_experiment_ids, vec![2]);
    let left: Vec<usize> =
        (0..100).filter(|i| removal.buckets.slots[*i].is_some()).collect();
    assert_eq!(left, vec![1]);
}

#[test]
fn removal_of_an_unknown_experiment_is_refused() {
    let users = group(GroupType::UserCreated, vec![1, 2], Buckets::default());
    let found = vec![experiment(1, ExperimentType::Default, 0)];
    let error = remove_members(users, &vec![1, 8], &found).unwrap_err();
    assert_eq!(
        error.message(),
        "The following experiment IDs are not present in the database: 8"
    );
}

#[test]
fn removing_added_members_restores_the_group() {
    let users = group(GroupType::UserCreated, vec![5, 1], Buckets::default());
    let all = add_members(&users, &vec![candidate(2, 0), candidate(3, 0)], &vec![2, 3]).unwrap();
    let grown = group(GroupType::UserCreated, all, Buckets::default());
    let plan = plan_removal(&grown, &vec![2, 3]).unwrap();
    assert_eq!(plan.remaining, vec![5, 1]);
}
