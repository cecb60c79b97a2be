//! Rows of buckets as sequences: counting buckets and changing the first few of
//! a kind.
use vstd::prelude::*;

use crate::model::BucketView;

verus! {

/// A row of buckets.
pub type Slots = Seq<Option<BucketView>>;

/// The buckets that belong to an experiment.
pub open spec fn owned_by(experiment: Seq<char>) -> spec_fn(Option<BucketView>) -> bool {
    |slot: Option<BucketView>| slot is Some && slot->0.experiment_id == experiment
}

/// The buckets that hold a variant of an experiment.
pub open spec fn held_by(experiment: Seq<char>, variant: Seq<char>) -> spec_fn(
    Option<BucketView>,
) -> bool {
    |slot: Option<BucketView>|
        slot == Some(BucketView { experiment_id: experiment, variant_id: variant })
}

/// The vacant buckets.
pub open spec fn vacant() -> spec_fn(Option<BucketView>) -> bool {
    |slot: Option<BucketView>| slot is None
}

/// The buckets that an experiment may use: the vacant ones and its own.
pub open spec fn available_to(experiment: Seq<char>) -> spec_fn(Option<BucketView>) -> bool {
    |slot: Option<BucketView>| slot is None || slot->0.experiment_id == experiment
}

/// How many buckets of a row are of a kind.
pub open spec fn count(slots: Slots, kind: spec_fn(Option<BucketView>) -> bool) -> nat
    decreases slots.len(),
{
    if slots.len() == 0 {
        0
    } else {
        count(slots.drop_last(), kind) + if kind(slots.last()) {
            1nat
        } else {
            0
        }
    }
}

/// The row in which the first `n` buckets of a kind have become `slot`.
pub open spec fn replace_first(
    slots: Slots,
    kind: spec_fn(Option<BucketView>) -> bool,
    n: nat,
    slot: Option<BucketView>,
) -> Slots {
    Seq::new(
        slots.len(),
        |i: int|
            if kind(slots[i]) && count(slots.take(i), kind) < n {
                slot
            } else {
                slots[i]
            },
    )
}

/// The smaller of two numbers.
pub open spec fn lesser(a: nat, b: nat) -> nat {
    if a <= b {
        a
    } else {
        b
    }
}

/// By how much `a` exceeds `b`, which is nothing where it does not.
pub open spec fn excess(a: nat, b: nat) -> nat {
    if a >= b {
        (a - b) as nat
    } else {
        0
    }
}

pub(crate) proof fn lemma_count_step(
    slots: Slots,
    kind: spec_fn(Option<BucketView>) -> bool,
    i: int,
)
    requires
        0 <= i < slots.len(),
    ensures
        count(slots.take(i + 1), kind) == count(slots.take(i), kind) + if kind(slots[i]) {
            1nat
        } else {
            0
        },
{
    assert(slots.take(i + 1).drop_last() =~= slots.take(i));
}

pub(crate) proof fn lemma_count_bounds(slots: Slots, kind: spec_fn(Option<BucketView>) -> bool)
    ensures
        count(slots, kind) <= slots.len(),
    decreases slots.len(),
{
    if slots.len() > 0 {
        lemma_count_bounds(slots.drop_last(), kind);
    }
}

pub(crate) proof fn lemma_count_prefix(
    slots: Slots,
    kind: spec_fn(Option<BucketView>) -> bool,
    i: int,
)
    requires
        0 <= i <= slots.len(),
    ensures
        count(slots.take(i), kind) <= count(slots, kind),
    decreases slots.len() - i,
{
    if i < slots.len() {
        lemma_count_step(slots, kind, i);
        lemma_count_prefix(slots, kind, i + 1);
    } else {
        assert(slots.take(i) =~= slots);
    }
}

/// Two rows that are of their kinds at the same places have as many buckets of
/// them.
pub(crate) proof fn lemma_count_match(
    slots: Slots,
    kind: spec_fn(Option<BucketView>) -> bool,
    others: Slots,
    other_kind: spec_fn(Option<BucketView>) -> bool,
)
    requires
        slots.len() == others.len(),
        forall|i: int|
            0 <= i < slots.len() ==> kind(#[trigger] slots[i]) == other_kind(others[i]),
    ensures
        count(slots, kind) == count(others, other_kind),
    decreases slots.len(),
{
    if slots.len() > 0 {
        let shorter = slots.drop_last();
        assert forall|i: int| 0 <= i < shorter.len() implies kind(#[trigger] shorter[i])
            == other_kind(others.drop_last()[i]) by {
            assert(shorter[i] == slots[i]);
        }
        lemma_count_match(shorter, kind, others.drop_last(), other_kind);
        assert(slots.last() == slots[slots.len() - 1]);
    }
}

/// The buckets that an experiment may use are the vacant ones and its own.
pub(crate) proof fn lemma_count_available(slots: Slots, experiment: Seq<char>)
    ensures
        count(slots, available_to(experiment)) == count(slots, vacant()) + count(
            slots,
            owned_by(experiment),
        ),
    decreases slots.len(),
{
    if slots.len() > 0 {
        lemma_count_available(slots.drop_last(), experiment);
    }
}

/// Two kinds that split a row have all its buckets together.
pub(crate) proof fn lemma_count_complement(
    slots: Slots,
    kind: spec_fn(Option<BucketView>) -> bool,
    other: spec_fn(Option<BucketView>) -> bool,
)
    requires
        forall|i: int| 0 <= i < slots.len() ==> kind(#[trigger] slots[i]) == !other(slots[i]),
    ensures
        count(slots, kind) + count(slots, other) == slots.len(),
    decreases slots.len(),
{
    if slots.len() > 0 {
        let shorter = slots.drop_last();
        assert forall|i: int| 0 <= i < shorter.len() implies kind(#[trigger] shorter[i])
            == !other(shorter[i]) by {
            assert(shorter[i] == slots[i]);
        }
        lemma_count_complement(shorter, kind, other);
        assert(slots.last() == slots[slots.len() - 1]);
    }
}

/// A row that has as many buckets of a kind as buckets has no other ones.
pub(crate) proof fn lemma_count_all(slots: Slots, kind: spec_fn(Option<BucketView>) -> bool)
    ensures
        count(slots, kind) == slots.len() <==> forall|i: int|
            0 <= i < slots.len() ==> kind(#[trigger] slots[i]),
    decreases slots.len(),
{
    if slots.len() > 0 {
        let shorter = slots.drop_last();
        lemma_count_all(shorter, kind);
        lemma_count_bounds(shorter, kind);
        if count(slots, kind) == slots.len() {
            assert forall|i: int| 0 <= i < slots.len() implies kind(#[trigger] slots[i]) by {
                if i < shorter.len() {
                    assert(shorter[i] == slots[i]);
                }
            }
        }
        if forall|i: int| 0 <= i < slots.len() ==> kind(#[trigger] slots[i]) {
            assert forall|i: int| 0 <= i < shorter.len() implies kind(#[trigger] shorter[i]) by {
                assert(shorter[i] == slots[i]);
            }
            assert(slots.last() == slots[slots.len() - 1]);
        }
    }
}

pub(crate) proof fn lemma_count_none(slots: Slots, kind: spec_fn(Option<BucketView>) -> bool)
    ensures
        count(slots, kind) == 0 <==> forall|i: int|
            0 <= i < slots.len() ==> !kind(#[trigger] slots[i]),
    decreases slots.len(),
{
    if slots.len() > 0 {
        let shorter = slots.drop_last();
        lemma_count_none(shorter, kind);
        if count(slots, kind) == 0 {
            assert forall|i: int| 0 <= i < slots.len() implies !kind(#[trigger] slots[i]) by {
                if i < shorter.len() {
                    assert(shorter[i] == slots[i]);
                }
            }
        }
        if forall|i: int| 0 <= i < slots.len() ==> !kind(#[trigger] slots[i]) {
            assert forall|i: int| 0 <= i < shorter.len() implies !kind(#[trigger] shorter[i]) by {
                assert(shorter[i] == slots[i]);
            }
            assert(slots.last() == slots[slots.len() - 1]);
        }
    }
}

proof fn lemma_replace_first_prefix(
    slots: Slots,
    kind: spec_fn(Option<BucketView>) -> bool,
    n: nat,
    slot: Option<BucketView>,
    i: int,
)
    requires
        0 <= i <= slots.len(),
    ensures
        replace_first(slots, kind, n, slot).take(i) == replace_first(slots.take(i), kind, n, slot),
{
    let prefix = slots.take(i);
    assert forall|j: int| 0 <= j < i implies #[trigger] replace_first(slots, kind, n, slot).take(
        i,
    )[j] == replace_first(prefix, kind, n, slot)[j] by {
        assert(prefix.take(j) =~= slots.take(j));
    }
    assert(replace_first(slots, kind, n, slot).take(i) =~= replace_first(prefix, kind, n, slot));
}

/// What replacing the first buckets of a kind does to the number of buckets of
/// that kind.
pub(crate) proof fn lemma_replace_first_count(
    slots: Slots,
    kind: spec_fn(Option<BucketView>) -> bool,
    n: nat,
    slot: Option<BucketView>,
)
    requires
        !kind(slot),
    ensures
        count(replace_first(slots, kind, n, slot), kind) == excess(count(slots, kind), n),
    decreases slots.len(),
{
    if slots.len() > 0 {
        let shorter = slots.drop_last();
        let i = slots.len() - 1;
        lemma_replace_first_count(shorter, kind, n, slot);
        lemma_replace_first_prefix(slots, kind, n, slot, i);
        assert(slots.take(i) =~= shorter);
        let replaced = replace_first(slots, kind, n, slot);
        assert(replaced.take(i) =~= replaced.drop_last());
    }
}

/// What replacing the first buckets of a kind does to the number of buckets of
/// another kind.
pub(crate) proof fn lemma_replace_first_other(
    slots: Slots,
    kind: spec_fn(Option<BucketView>) -> bool,
    n: nat,
    slot: Option<BucketView>,
    other: spec_fn(Option<BucketView>) -> bool,
)
    requires
        forall|x: Option<BucketView>| #[trigger] kind(x) ==> !other(x),
    ensures
        count(replace_first(slots, kind, n, slot), other) == count(slots, other) + if other(slot) {
            lesser(n, count(slots, kind))
        } else {
            0
        },
    decreases slots.len(),
{
    if slots.len() > 0 {
        let shorter = slots.drop_last();
        let i = slots.len() - 1;
        lemma_replace_first_other(shorter, kind, n, slot, other);
        lemma_replace_first_prefix(slots, kind, n, slot, i);
        assert(slots.take(i) =~= shorter);
        let replaced = replace_first(slots, kind, n, slot);
        assert(replaced.take(i) =~= replaced.drop_last());
        assert(kind(slots.last()) ==> !other(slots.last()));
    }
}

/// Replacing no bucket leaves the row as it is.
pub(crate) proof fn lemma_replace_none(
    slots: Slots,
    kind: spec_fn(Option<BucketView>) -> bool,
    slot: Option<BucketView>,
)
    ensures
        replace_first(slots, kind, 0, slot) == slots,
{
    assert(replace_first(slots, kind, 0, slot) =~= slots);
}

} // verus!
