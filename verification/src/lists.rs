//! Lists that stand for sets: of ids and of texts.
use vstd::prelude::*;

use crate::text;

verus! {

/// The list without repetitions: every item stands where it first occurs.
pub open spec fn distinct<T>(items: Seq<T>) -> Seq<T>
    decreases items.len(),
{
    if items.len() == 0 {
        items
    } else {
        let before = distinct(items.drop_last());
        if before.contains(items.last()) {
            before
        } else {
            before.push(items.last())
        }
    }
}

/// The ids of a list.
pub open spec fn among(others: Seq<i64>) -> spec_fn(i64) -> bool {
    |id: i64| others.contains(id)
}

/// The ids outside a list.
pub open spec fn not_among(others: Seq<i64>) -> spec_fn(i64) -> bool {
    |id: i64| !others.contains(id)
}

pub(crate) proof fn lemma_distinct<T>(items: Seq<T>)
    ensures
        distinct(items).no_duplicates(),
        forall|item: T| #[trigger] distinct(items).contains(item) <==> items.contains(item),
    decreases items.len(),
{
    if items.len() > 0 {
        let shorter = items.drop_last();
        lemma_distinct(shorter);
        let before = distinct(shorter);
        let after = distinct(items);
        assert forall|item: T| #[trigger] after.contains(item) <==> items.contains(item) by {
            if items.contains(item) {
                let i = choose|i: int| 0 <= i < items.len() && items[i] == item;
                if i < shorter.len() {
                    assert(shorter[i] == item);
                    assert(before.contains(item));
                }
                if before.contains(item) {
                    let j = choose|j: int| 0 <= j < before.len() && before[j] == item;
                    assert(after[j] == item);
                } else {
                    assert(after[after.len() - 1] == item);
                }
            }
            if after.contains(item) {
                let i = choose|i: int| 0 <= i < after.len() && after[i] == item;
                if i < before.len() {
                    assert(before[i] == item);
                    assert(before.contains(item));
                    let j = choose|j: int| 0 <= j < shorter.len() && shorter[j] == item;
                    assert(items[j] == item);
                } else {
                    assert(items[items.len() - 1] == item);
                }
            }
        }
    }
}

/// A list without repetitions is its own list of distinct items.
pub(crate) proof fn lemma_distinct_of_distinct<T>(items: Seq<T>)
    requires
        items.no_duplicates(),
    ensures
        distinct(items) == items,
    decreases items.len(),
{
    if items.len() > 0 {
        let shorter = items.drop_last();
        assert(shorter.no_duplicates());
        lemma_distinct_of_distinct(shorter);
        if shorter.contains(items.last()) {
            let i = choose|i: int| 0 <= i < shorter.len() && shorter[i] == items.last();
            assert(items[i] == items[items.len() - 1]);
        }
        assert(shorter.push(items.last()) =~= items);
    }
}

/// A filtered list holds exactly the items of the list that are wanted, and it
/// repeats none that the list does not repeat.
pub(crate) proof fn lemma_filtered<T>(items: Seq<T>, wanted: spec_fn(T) -> bool)
    ensures
        forall|item: T|
            #[trigger] items.filter(wanted).contains(item) <==> items.contains(item) && wanted(
                item,
            ),
        items.no_duplicates() ==> items.filter(wanted).no_duplicates(),
    decreases items.len(),
{
    reveal(Seq::filter);
    if items.len() > 0 {
        let shorter = items.drop_last();
        lemma_filtered(shorter, wanted);
        let before = shorter.filter(wanted);
        let after = items.filter(wanted);
        assert forall|item: T|
            #[trigger] after.contains(item) <==> items.contains(item) && wanted(item) by {
            if items.contains(item) && wanted(item) {
                let i = choose|i: int| 0 <= i < items.len() && items[i] == item;
                if i < shorter.len() {
                    assert(shorter[i] == item);
                    assert(before.contains(item));
                    let j = choose|j: int| 0 <= j < before.len() && before[j] == item;
                    assert(after[j] == item);
                } else {
                    assert(after[after.len() - 1] == item);
                }
            }
            if after.contains(item) {
                let i = choose|i: int| 0 <= i < after.len() && after[i] == item;
                if i < before.len() {
                    assert(before[i] == item);
                    assert(before.contains(item));
                    let j = choose|j: int| 0 <= j < shorter.len() && shorter[j] == item;
                    assert(items[j] == item);
                } else {
                    assert(items[items.len() - 1] == item);
                }
            }
        }
        if items.no_duplicates() {
            assert(shorter.no_duplicates());
            if wanted(items.last()) {
                if before.contains(items.last()) {
                    let j = choose|j: int| 0 <= j < shorter.len() && shorter[j] == items.last();
                    assert(items[j] == items[items.len() - 1]);
                }
                assert forall|i: int, j: int|
                    0 <= i < after.len() && 0 <= j < after.len() && i != j implies after[i]
                    != after[j] by {
                    if i < before.len() && j == before.len() {
                        assert(before.contains(before[i]));
                    }
                    if j < before.len() && i == before.len() {
                        assert(before.contains(before[j]));
                    }
                }
            }
        }
    }
}

/// A filter that every item passes leaves the list as it is.
pub(crate) proof fn lemma_filter_all<T>(items: Seq<T>, wanted: spec_fn(T) -> bool)
    requires
        forall|i: int| 0 <= i < items.len() ==> wanted(#[trigger] items[i]),
    ensures
        items.filter(wanted) == items,
    decreases items.len(),
{
    reveal(Seq::filter);
    if items.len() > 0 {
        let shorter = items.drop_last();
        assert forall|i: int| 0 <= i < shorter.len() implies wanted(#[trigger] shorter[i]) by {
            assert(shorter[i] == items[i]);
        }
        lemma_filter_all(shorter, wanted);
        assert(wanted(items[items.len() - 1]));
        assert(shorter.push(items.last()) =~= items);
    }
}

proof fn lemma_distinct_step<T>(items: Seq<T>, i: int)
    requires
        0 <= i < items.len(),
    ensures
        distinct(items.take(i + 1)) == if distinct(items.take(i)).contains(items[i]) {
            distinct(items.take(i))
        } else {
            distinct(items.take(i)).push(items[i])
        },
{
    assert(items.take(i + 1).drop_last() =~= items.take(i));
}

pub(crate) proof fn lemma_filter_step<T>(items: Seq<T>, wanted: spec_fn(T) -> bool, i: int)
    requires
        0 <= i < items.len(),
    ensures
        items.take(i + 1).filter(wanted) == if wanted(items[i]) {
            items.take(i).filter(wanted).push(items[i])
        } else {
            items.take(i).filter(wanted)
        },
{
    reveal(Seq::filter);
    assert(items.take(i + 1).drop_last() =~= items.take(i));
}

/// Whether an id is in a list.
pub(crate) fn contains_id(ids: &Vec<i64>, id: i64) -> (found: bool)
    ensures
        found == ids@.contains(id),
{
    let mut i: usize = 0;
    while i < ids.len()
        invariant
            i <= ids.len(),
            forall|j: int| 0 <= j < i ==> ids[j] != id,
        decreases ids.len() - i,
    {
        if ids[i] == id {
            assert(ids@[i as int] == id);
            return true;
        }
        i += 1;
    }
    false
}

/// The ids of a list without repetitions, in the order in which they first
/// occur.
pub(crate) fn distinct_ids(ids: &Vec<i64>) -> (found: Vec<i64>)
    ensures
        found@ == distinct(ids@),
{
    let mut found: Vec<i64> = Vec::new();
    let mut i: usize = 0;
    assert(ids@.take(0) =~= Seq::<i64>::empty());
    while i < ids.len()
        invariant
            i <= ids.len(),
            found@ == distinct(ids@.take(i as int)),
        decreases ids.len() - i,
    {
        proof {
            lemma_distinct_step(ids@, i as int);
        }
        if !contains_id(&found, ids[i]) {
            found.push(ids[i]);
        }
        i += 1;
    }
    assert(ids@.take(i as int) =~= ids@);
    found
}

/// The ids of a list that are also in another one.
pub(crate) fn ids_among(ids: &Vec<i64>, others: &Vec<i64>) -> (found: Vec<i64>)
    ensures
        found@ == ids@.filter(among(others@)),
{
    let mut found: Vec<i64> = Vec::new();
    let mut i: usize = 0;
    proof {
        reveal(Seq::filter);
        assert(ids@.take(0) =~= Seq::<i64>::empty());
    }
    while i < ids.len()
        invariant
            i <= ids.len(),
            found@ == ids@.take(i as int).filter(among(others@)),
        decreases ids.len() - i,
    {
        proof {
            lemma_filter_step(ids@, among(others@), i as int);
        }
        if contains_id(others, ids[i]) {
            found.push(ids[i]);
        }
        i += 1;
    }
    assert(ids@.take(i as int) =~= ids@);
    found
}

/// The ids of a list that are not in another one.
pub(crate) fn ids_not_among(ids: &Vec<i64>, others: &Vec<i64>) -> (found: Vec<i64>)
    ensures
        found@ == ids@.filter(not_among(others@)),
{
    let mut found: Vec<i64> = Vec::new();
    let mut i: usize = 0;
    proof {
        reveal(Seq::filter);
        assert(ids@.take(0) =~= Seq::<i64>::empty());
    }
    while i < ids.len()
        invariant
            i <= ids.len(),
            found@ == ids@.take(i as int).filter(not_among(others@)),
        decreases ids.len() - i,
    {
        proof {
            lemma_filter_step(ids@, not_among(others@), i as int);
        }
        if !contains_id(others, ids[i]) {
            found.push(ids[i]);
        }
        i += 1;
    }
    assert(ids@.take(i as int) =~= ids@);
    found
}

/// Whether a text is in a list.
pub(crate) fn contains_text(texts: &Vec<String>, wanted: &String) -> (found: bool)
    ensures
        found == text::text_views(texts@).contains(wanted@),
{
    let mut i: usize = 0;
    while i < texts.len()
        invariant
            i <= texts.len(),
            forall|j: int| 0 <= j < i ==> (#[trigger] texts[j])@ != wanted@,
        decreases texts.len() - i,
    {
        if texts[i] == *wanted {
            assert(text::text_views(texts@)[i as int] == wanted@);
            return true;
        }
        i += 1;
    }
    assert forall|j: int| 0 <= j < texts.len() implies #[trigger] text::text_views(texts@)[j]
        != wanted@ by {
        assert(texts[j]@ != wanted@);
    }
    false
}

/// The texts of a list without repetitions, in the order in which they first
/// occur.
pub(crate) fn distinct_texts(texts: &Vec<String>) -> (found: Vec<String>)
    ensures
        text::text_views(found@) == distinct(text::text_views(texts@)),
{
    let ghost views = text::text_views(texts@);
    let mut found: Vec<String> = Vec::new();
    let mut i: usize = 0;
    assert(views.take(0) =~= Seq::<Seq<char>>::empty());
    assert(text::text_views(found@) =~= Seq::<Seq<char>>::empty());
    while i < texts.len()
        invariant
            i <= texts.len(),
            views == text::text_views(texts@),
            text::text_views(found@) == distinct(views.take(i as int)),
        decreases texts.len() - i,
    {
        proof {
            lemma_distinct_step(views, i as int);
        }
        if !contains_text(&found, &texts[i]) {
            let ghost before = found@;
            found.push(texts[i].clone());
            assert(text::text_views(found@) =~= text::text_views(before).push(views[i as int]));
        }
        i += 1;
    }
    assert(views.take(i as int) =~= views);
    found
}

} // verus!
