//! Why a change to an experiment or a group is refused.
use vstd::prelude::*;
use vstd::string::StringExecFns;

use crate::text;
use crate::text::{join_ids, signed_text, unsigned_text};

verus! {

/// The reason for which a change is refused.
#[derive(Debug, PartialEq, Eq)]
pub enum GroupError {
    /// The same override key is given more than once.
    DuplicateOverrideKey { key: String },
    /// New members that the group holds already.
    AlreadyMembers { ids: Vec<i64> },
    /// Experiments that were asked for and not found. `reason` says where they
    /// are missing.
    MissingExperiments { reason: String, ids: Vec<i64> },
    /// The condition of a new member could not be held against that of the group.
    ContextNotComparable { reason: String },
    /// The condition of a new member does not contain that of the group.
    ContextMismatch { experiment_id: i64 },
    /// The traffic percentages of the new members add up to more than 100.
    TrafficExceeded,
    /// A request to add members that names none.
    NothingToAdd,
    /// A request to remove members that names none.
    NothingToRemove,
    /// A request to add members to a system-generated group.
    AddToSystemGenerated,
    /// A request to remove members from a system-generated group.
    RemoveFromSystemGenerated,
    /// A request to add a release to a group that a user made.
    ReleaseInUserCreatedGroup,
    /// A variant lacks `required` buckets that no vacant one is left for.
    NotEnoughBuckets { required: usize, variant_id: String },
    /// The traffic of a group would be no percentage.
    InvalidTraffic { reason: String },
}

/// The contents of a `GroupError`.
pub enum GroupErrorView {
    DuplicateOverrideKey { key: Seq<char> },
    AlreadyMembers { ids: Seq<i64> },
    MissingExperiments { reason: Seq<char>, ids: Seq<i64> },
    ContextNotComparable { reason: Seq<char> },
    ContextMismatch { experiment_id: i64 },
    TrafficExceeded,
    NothingToAdd,
    NothingToRemove,
    AddToSystemGenerated,
    RemoveFromSystemGenerated,
    ReleaseInUserCreatedGroup,
    NotEnoughBuckets { required: nat, variant_id: Seq<char> },
    InvalidTraffic { reason: Seq<char> },
}

impl View for GroupError {
    type V = GroupErrorView;

    open spec fn view(&self) -> GroupErrorView {
        match self {
            GroupError::DuplicateOverrideKey { key } => GroupErrorView::DuplicateOverrideKey {
                key: key@,
            },
            GroupError::AlreadyMembers { ids } => GroupErrorView::AlreadyMembers { ids: ids@ },
            GroupError::MissingExperiments { reason, ids } => GroupErrorView::MissingExperiments {
                reason: reason@,
                ids: ids@,
            },
            GroupError::ContextNotComparable { reason } => GroupErrorView::ContextNotComparable {
                reason: reason@,
            },
            GroupError::ContextMismatch { experiment_id } => GroupErrorView::ContextMismatch {
                experiment_id: *experiment_id,
            },
            GroupError::TrafficExceeded => GroupErrorView::TrafficExceeded,
            GroupError::NothingToAdd => GroupErrorView::NothingToAdd,
            GroupError::NothingToRemove => GroupErrorView::NothingToRemove,
            GroupError::AddToSystemGenerated => GroupErrorView::AddToSystemGenerated,
            GroupError::RemoveFromSystemGenerated => GroupErrorView::RemoveFromSystemGenerated,
            GroupError::ReleaseInUserCreatedGroup => GroupErrorView::ReleaseInUserCreatedGroup,
            GroupError::NotEnoughBuckets { required, variant_id } => {
                GroupErrorView::NotEnoughBuckets {
                    required: *required as nat,
                    variant_id: variant_id@,
                }
            },
            GroupError::InvalidTraffic { reason } => GroupErrorView::InvalidTraffic {
                reason: reason@,
            },
        }
    }
}

/// What a user is told of a refusal.
pub open spec fn refusal_message(error: GroupErrorView) -> Seq<char> {
    match error {
        GroupErrorView::DuplicateOverrideKey { key } => "The override key "@ + key
            + " is given more than once"@,
        GroupErrorView::AlreadyMembers { ids } => {
            "The new members list contains IDs that are already in the group: "@
                + text::joined(text::decimals(ids), ", "@)
        },
        GroupErrorView::MissingExperiments { reason, ids } => reason + ": "@ + text::joined(
            text::decimals(ids),
            ", "@,
        ),
        GroupErrorView::ContextNotComparable { reason } => "The contexts do not match. Error: "@
            + reason,
        GroupErrorView::ContextMismatch { experiment_id } => "Experiment with id "@
            + text::decimal(experiment_id as int)
            + " does not fit in with the experiment group. The contexts do not match."@,
        GroupErrorView::TrafficExceeded => {
            "The traffic percentages of the experiments add up to more than 100"@
        },
        GroupErrorView::NothingToAdd => {
            "Please provide at least one experiment ID to add to the group"@
        },
        GroupErrorView::NothingToRemove => {
            "Please provide at least one experiment ID to remove from the group"@
        },
        GroupErrorView::AddToSystemGenerated => {
            "Cannot add members to a system-generated experiment groups."@
        },
        GroupErrorView::RemoveFromSystemGenerated => {
            "Cannot remove members from a system-generated experiment group."@
        },
        GroupErrorView::ReleaseInUserCreatedGroup => {
            "RELEASE experiments cannot be added to a user-created experiment group; they run in their own system-generated group."@
        },
        GroupErrorView::NotEnoughBuckets { required, variant_id } => {
            "Not enough empty buckets to accommodate the updated traffic percentage. Required additional: "@
                + text::decimal(required as int) + " for variant "@ + variant_id
        },
        GroupErrorView::InvalidTraffic { reason } => reason,
    }
}

impl GroupError {
    /// Whether the fault lies in what was asked for. Only a group's traffic that
    /// is no percentage is the service's own fault.
    pub fn is_bad_argument(&self) -> (bad_argument: bool)
        ensures
            bad_argument == !(self@ is InvalidTraffic),
    {
        !matches!(self, GroupError::InvalidTraffic { .. })
    }

    /// What a user is told of the refusal.
    pub fn message(&self) -> (text: String)
        ensures
            text@ == refusal_message(self@),
    {
        match self {
            GroupError::DuplicateOverrideKey { key } => {
                "The override key ".to_owned().concat(key.as_str()).concat(
                    " is given more than once",
                )
            },
            GroupError::AlreadyMembers { ids } => {
                "The new members list contains IDs that are already in the group: ".to_owned().concat(
                join_ids(ids).as_str())
            },
            GroupError::MissingExperiments { reason, ids } => {
                reason.clone().concat(": ").concat(join_ids(ids).as_str())
            },
            GroupError::ContextNotComparable { reason } => {
                "The contexts do not match. Error: ".to_owned().concat(reason.as_str())
            },
            GroupError::ContextMismatch { experiment_id } => {
                "Experiment with id ".to_owned().concat(
                    signed_text(*experiment_id).as_str(),
                ).concat(" does not fit in with the experiment group. The contexts do not match.")
            },
            GroupError::TrafficExceeded => {
                "The traffic percentages of the experiments add up to more than 100".to_owned()
            },
            GroupError::NothingToAdd => {
                "Please provide at least one experiment ID to add to the group".to_owned()
            },
            GroupError::NothingToRemove => {
                "Please provide at least one experiment ID to remove from the group".to_owned()
            },
            GroupError::AddToSystemGenerated => {
                "Cannot add members to a system-generated experiment groups.".to_owned()
            },
            GroupError::RemoveFromSystemGenerated => {
                "Cannot remove members from a system-generated experiment group.".to_owned()
            },
            GroupError::ReleaseInUserCreatedGroup => {
                "RELEASE experiments cannot be added to a user-created experiment group; they run in their own system-generated group.".to_owned()
            },
            GroupError::NotEnoughBuckets { required, variant_id } => {
                "Not enough empty buckets to accommodate the updated traffic percentage. Required additional: ".to_owned().concat(
                unsigned_text(*required as u64).as_str()).concat(" for variant ").concat(
                    variant_id.as_str(),
                )
            },
            GroupError::InvalidTraffic { reason } => reason.clone(),
        }
    }
}

/// What a user is told of a refusal names what is refused: the messages of two
/// refusals on the same ground differ in these details alone.
pub proof fn messages_name_what_is_refused(
    first: GroupErrorView,
    second: GroupErrorView,
    first_detail: Seq<char>,
    second_detail: Seq<char>,
)
    requires
        detail_of(first) == Some(first_detail),
        detail_of(second) == Some(second_detail),
        same_ground(first, second),
    ensures
        exists|front: Seq<char>, back: Seq<char>|
            refusal_message(first) == #[trigger] (front + first_detail + back)
                && refusal_message(second) == front + second_detail + back,
{
    let (front, back) = match first {
        GroupErrorView::DuplicateOverrideKey { .. } => (
            "The override key "@,
            " is given more than once"@,
        ),
        GroupErrorView::AlreadyMembers { .. } => (
            "The new members list contains IDs that are already in the group: "@,
            Seq::empty(),
        ),
        GroupErrorView::MissingExperiments { reason, .. } => (reason + ": "@, Seq::empty()),
        GroupErrorView::ContextNotComparable { .. } => (
            "The contexts do not match. Error: "@,
            Seq::empty(),
        ),
        GroupErrorView::ContextMismatch { .. } => (
            "Experiment with id "@,
            " does not fit in with the experiment group. The contexts do not match."@,
        ),
        GroupErrorView::NotEnoughBuckets { variant_id, .. } => (
            "Not enough empty buckets to accommodate the updated traffic percentage. Required additional: "@,
            " for variant "@ + variant_id,
        ),
        _ => (Seq::empty(), Seq::empty()),
    };
    assert(refusal_message(first) =~= front + first_detail + back);
    assert(refusal_message(second) =~= front + second_detail + back);
}

/// What a refusal names, if it names anything.
pub open spec fn detail_of(error: GroupErrorView) -> Option<Seq<char>> {
    match error {
        GroupErrorView::DuplicateOverrideKey { key } => Some(key),
        GroupErrorView::AlreadyMembers { ids } => Some(
            text::joined(text::decimals(ids), ", "@),
        ),
        GroupErrorView::MissingExperiments { ids, .. } => Some(
            text::joined(text::decimals(ids), ", "@),
        ),
        GroupErrorView::ContextNotComparable { reason } => Some(reason),
        GroupErrorView::ContextMismatch { experiment_id } => Some(
            text::decimal(experiment_id as int),
        ),
        GroupErrorView::NotEnoughBuckets { required, .. } => Some(text::decimal(required as int)),
        GroupErrorView::InvalidTraffic { reason } => Some(reason),
        _ => None,
    }
}

/// Whether two refusals are on the same ground and differ at most in what
/// `detail_of` gives.
pub open spec fn same_ground(first: GroupErrorView, second: GroupErrorView) -> bool {
    match (first, second) {
        (
            GroupErrorView::MissingExperiments { reason: a, .. },
            GroupErrorView::MissingExperiments { reason: b, .. },
        ) => a == b,
        (
            GroupErrorView::NotEnoughBuckets { variant_id: a, .. },
            GroupErrorView::NotEnoughBuckets { variant_id: b, .. },
        ) => a == b,
        _ => {
            ||| first is DuplicateOverrideKey && second is DuplicateOverrideKey
            ||| first is AlreadyMembers && second is AlreadyMembers
            ||| first is ContextNotComparable && second is ContextNotComparable
            ||| first is ContextMismatch && second is ContextMismatch
            ||| first is InvalidTraffic && second is InvalidTraffic
        },
    }
}

/// A refusal for want of buckets ends with the variant that lacks them.
pub proof fn messages_end_with_the_variant(required: nat, variant_id: Seq<char>)
    ensures
        ({
            let message = refusal_message(
                GroupErrorView::NotEnoughBuckets { required, variant_id },
            );
            &&& message.len() >= variant_id.len()
            &&& message.skip(message.len() - variant_id.len()) == variant_id
        }),
{
    let message = refusal_message(GroupErrorView::NotEnoughBuckets { required, variant_id });
    assert(message.skip(message.len() - variant_id.len()) =~= variant_id);
}

/// A refusal for missing experiments begins with where they are missing.
pub proof fn messages_begin_with_the_reason(reason: Seq<char>, ids: Seq<i64>)
    ensures
        ({
            let message = refusal_message(GroupErrorView::MissingExperiments { reason, ids });
            &&& message.len() >= reason.len()
            &&& message.take(reason.len() as int) == reason
        }),
{
    let message = refusal_message(GroupErrorView::MissingExperiments { reason, ids });
    assert(message.take(reason.len() as int) =~= reason);
}

/// A refusal shows the details that it was made with.
pub proof fn refusals_show_their_details(error: GroupError)
    ensures
        match error {
            GroupError::DuplicateOverrideKey { key } => error@ is DuplicateOverrideKey
                && error@->key == key@,
            GroupError::AlreadyMembers { ids } => error@ is AlreadyMembers
                && error@->AlreadyMembers_ids == ids@,
            GroupError::MissingExperiments { reason, ids } => error@ is MissingExperiments
                && error@->MissingExperiments_reason == reason@ && error@->MissingExperiments_ids
                == ids@,
            GroupError::ContextNotComparable { reason } => error@ is ContextNotComparable
                && error@->ContextNotComparable_reason == reason@,
            GroupError::ContextMismatch { experiment_id } => error@ is ContextMismatch
                && error@->experiment_id == experiment_id,
            GroupError::TrafficExceeded => error@ is TrafficExceeded,
            GroupError::NothingToAdd => error@ is NothingToAdd,
            GroupError::NothingToRemove => error@ is NothingToRemove,
            GroupError::AddToSystemGenerated => error@ is AddToSystemGenerated,
            GroupError::RemoveFromSystemGenerated => error@ is RemoveFromSystemGenerated,
            GroupError::ReleaseInUserCreatedGroup => error@ is ReleaseInUserCreatedGroup,
            GroupError::NotEnoughBuckets { required, variant_id } => error@ is NotEnoughBuckets
                && error@->required == required && error@->variant_id == variant_id@,
            GroupError::InvalidTraffic { reason } => error@ is InvalidTraffic
                && error@->InvalidTraffic_reason == reason@,
        },
{
}

} // verus!
