//! What is cached of the experiment groups of a schema.
use vstd::prelude::*;
use vstd::string::StringExecFns;

use crate::model::Timestamp;

verus! {

/// For how many seconds a cached entry is kept where nothing else is configured.
pub const DEFAULT_KEY_TTL_SECONDS: i64 = 604800;

/// What stands behind the schema's name in the keys of its entries.
#[derive(Debug)]
pub struct CacheKeySuffixes {
    pub config_last_modified: String,
    pub groups_last_modified: String,
    pub groups_list: String,
}

/// An entry of the cache.
#[derive(Debug, PartialEq, Eq)]
pub struct CacheEntry {
    pub key: String,
    pub value: String,
}

/// Whether an instant lies in a year that RFC 2822 can write, which are 0 to
/// 9999, and has a fraction below two seconds. A fraction of a second or more
/// stands for a leap second.
pub open spec fn has_rfc2822(instant: Timestamp) -> bool {
    &&& -62167219200 <= instant.seconds < 253402300800
    &&& instant.nanos < 2000000000
}

/// The RFC 2822 text of the instant that many seconds and nanoseconds after
/// 1970-01-01T00:00:00 UTC.
pub uninterp spec fn rfc2822(seconds: i64, nanos: u32) -> Seq<char>;

/// `chrono::DateTime::to_rfc2822`, in UTC: the text depends on the instant alone.
/// It exists for the years 0 to 9999. `chrono::DateTime::from_timestamp` gives the
/// whole second, and `chrono::Timelike::with_nanosecond` every fraction below two
/// seconds within it.
#[verifier::external_body]
fn rfc2822_text(seconds: i64, nanos: u32) -> (text: String)
    requires
        has_rfc2822(Timestamp { seconds, nanos }),
    ensures
        text@ == rfc2822(seconds, nanos),
{
    let second = chrono::DateTime::from_timestamp(seconds, 0).unwrap();
    chrono::Timelike::with_nanosecond(&second, nanos).unwrap().to_rfc2822()
}

/// When the groups of a schema were last modified, as a text. It is empty where
/// they never were.
pub fn last_modified_text(last_modified: Option<Timestamp>) -> (text: String)
    requires
        last_modified matches Some(instant) ==> has_rfc2822(instant),
    ensures
        text@ == match last_modified {
            Some(instant) => rfc2822(instant.seconds, instant.nanos),
            None => Seq::empty(),
        },
{
    match last_modified {
        Some(instant) => rfc2822_text(instant.seconds, instant.nanos),
        None => String::new(),
    }
}

/// The entries to be cached for a schema, in the order in which they are to be
/// written: when its configuration was last modified, when its groups were, and
/// the list of its groups.
pub fn experiment_group_cache_entries(
    schema_name: &str,
    suffixes: &CacheKeySuffixes,
    last_modified: String,
    groups_list: String,
) -> (entries: Vec<CacheEntry>)
    ensures
        entries@.len() == 3,
        entries@[0].key@ == schema_name@ + suffixes.config_last_modified@,
        entries@[0].value@ == last_modified@,
        entries@[1].key@ == schema_name@ + suffixes.groups_last_modified@,
        entries@[1].value@ == last_modified@,
        entries@[2].key@ == schema_name@ + suffixes.groups_list@,
        entries@[2].value@ == groups_list@,
{
    let config_entry = CacheEntry {
        key: schema_name.to_owned().concat(suffixes.config_last_modified.as_str()),
        value: last_modified.clone(),
    };
    let modified_entry = CacheEntry {
        key: schema_name.to_owned().concat(suffixes.groups_last_modified.as_str()),
        value: last_modified,
    };
    let list_entry = CacheEntry {
        key: schema_name.to_owned().concat(suffixes.groups_list.as_str()),
        value: groups_list,
    };
    vec![config_entry, modified_entry, list_entry]
}

} // verus!
