use experiment_buckets::cache::{
    experiment_group_cache_entries, last_modified_text, CacheEntry, CacheKeySuffixes,
    DEFAULT_KEY_TTL_SECONDS,
};
use experiment_buckets::model::{
    ExperimentType, Overrides, Timestamp, Variant, VariantType,
};
use experiment_buckets::ramp::{
    range_max, release_split, release_split_text, shown_experimental_count, ReleaseSplit,
};


fn variant(variant_type: VariantType) -> Variant {
    Variant {
        id: "v".to_string(),
        variant_type,
        context_id: None,
        override_id: None,
        overrides: Overrides { values: serde_json::Map::new() },
    }
}

#[test]
fn the_form_offers_an_equal_part_to_every_variant() {
    assert_eq!(range_max(ExperimentType::Release, 3), 100);
    assert_eq!(range_max(ExperimentType::Release, 0), 100);
    assert_eq!(range_max(ExperimentType::Default, 3), 33);
    assert_eq!(range_max(ExperimentType::DeleteOverrides, 101), 0);
}

#[test]
fn the_form_counts_at_least_one_experimental_variant() {
    assert_eq!(shown_experimental_count(&vec![]), 1);
    assert_eq!(shown_experimental_count(&vec![variant(VariantType::CONTROL)]), 1);
    assert_eq!(
        shown_experimental_count(&vec![
            variant(VariantType::EXPERIMENTAL),
            variant(VariantType::CONTROL),
            variant(VariantType::EXPERIMENTAL),
        ]),
        2
    );
}

#[test]
fn the_form_shows_the_split_of_a_release() {
    assert_eq!(release_split(10, 3), ReleaseSplit { control: 90, each_experimental: 3 });
    assert_eq!(release_split(200, 1), ReleaseSplit { control: 0, each_experimental: 200 });
    assert_eq!(release_split(10, 258), ReleaseSplit { control: 90, each_experimental: 5 });
    assert_eq!(
        release_split_text(10, 3),
        "Release split: control 90% · each experimental variant 3% (3 experimental)"
    );
}

#[test]
fn instants_are_written_as_rfc2822() {
    let text = |seconds: i64, nanos: u32| {
        last_modified_text(Some(Timestamp { seconds, nanos }))
    };
    assert_eq!(text(0, 0), "Thu, 1 Jan 1970 00:00:00 +0000");
    assert_eq!(text(1431648000, 999999999), "Fri, 15 May 2015 00:00:00 +0000");
    assert_eq!(text(-62167219200, 0), "Sat, 1 Jan 0000 00:00:00 +0000");
    assert_eq!(text(253402300799, 0), "Fri, 31 Dec 9999 23:59:59 +0000");
    assert_eq!(text(59, 1000000000), "Thu, 1 Jan 1970 00:00:60 +0000");
    assert_eq!(text(30, 1999999999), "Thu, 1 Jan 1970 00:00:31 +0000");
    assert_eq!(text(253402300799, 1000000000), "Fri, 31 Dec 9999 23:59:60 +0000");
    assert_eq!(text(-62167219200, 1000000000), "Sat, 1 Jan 0000 00:00:01 +0000");
    assert_eq!(last_modified_text(None), "");
}

#[test]
fn entries_are_cached_under_the_schema() {
    let suffixes = CacheKeySuffixes {
        config_last_modified: "::config".to_string(),
        groups_last_modified: "::modified".to_string(),
        groups_list: "::list".to_string(),
    };
    let entry = |key: &str, value: &str| CacheEntry {
        key: key.to_string(),
        value: value.to_string(),
    };
    assert_eq!(
        experiment_group_cache_entries(
            "dev_test",
            &suffixes,
            "today".to_string(),
            "[]".to_string()
        ),
        vec![
            entry("dev_test::config", "today"),
            entry("dev_test::modified", "today"),
            entry("dev_test::list", "[]"),
        ]
    );
    assert_eq!(DEFAULT_KEY_TTL_SECONDS, 604800);
}
