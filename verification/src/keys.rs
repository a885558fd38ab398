//! Finding places by their external key.

use crate::element::records;
use crate::element::rows;
use crate::element::Element;
use crate::element::ElementKey;
use crate::element::OverpassElement;
use crate::element::RecordView;
use crate::element::RowView;
use vstd::prelude::*;

verus! {

/// The keys of the records of a dataset, in order.
pub open spec fn record_keys(items: Seq<RecordView>) -> Seq<ElementKey> {
    items.map_values(|r: RecordView| r.key())
}

/// The keys of the rows of a snapshot, in order.
pub open spec fn row_keys(items: Seq<RowView>) -> Seq<ElementKey> {
    items.map_values(|r: RowView| r.key())
}

/// `i` is the first place at which `key` stands in `keys`.
pub open spec fn first_at(keys: Seq<ElementKey>, key: ElementKey, i: int) -> bool {
    &&& 0 <= i < keys.len()
    &&& keys[i] == key
    &&& forall|j: int| 0 <= j < i ==> keys[j] != key
}

/// The first place at which `key` stands in `keys`, if it stands there at all.
pub open spec fn position(keys: Seq<ElementKey>, key: ElementKey) -> Option<int> {
    if keys.contains(key) {
        Some(choose|i: int| first_at(keys, key, i))
    } else {
        None
    }
}

/// No key stands at two places.
pub open spec fn distinct(keys: Seq<ElementKey>) -> bool {
    forall|i: int, j: int| 0 <= i < j < keys.len() ==> keys[i] != keys[j]
}

/// The key at place `j` already stands at an earlier place.
pub open spec fn repeats(keys: Seq<ElementKey>, j: int) -> bool {
    exists|i: int| 0 <= i < j && keys[i] == keys[j]
}

/// A key that stands in `keys` has a first place, and `position` names it.
pub proof fn lemma_position_first(keys: Seq<ElementKey>, key: ElementKey, i: int)
    requires
        first_at(keys, key, i),
    ensures
        position(keys, key) == Some(i),
{
    assert(keys.contains(key));
    let c = choose|c: int| first_at(keys, key, c);
    assert(first_at(keys, key, c));
    if c < i {
        assert(keys[c] != key);
    }
    if i < c {
        assert(keys[i] != key);
    }
}

/// What `position` returns is a first place; it returns nothing only for a
/// key that stands nowhere.
pub proof fn lemma_position_is_first(keys: Seq<ElementKey>, key: ElementKey)
    ensures
        match position(keys, key) {
            Some(i) => first_at(keys, key, i),
            None => forall|j: int| 0 <= j < keys.len() ==> keys[j] != key,
        },
{
    if keys.contains(key) {
        let w = choose|w: int| 0 <= w < keys.len() && keys[w] == key;
        lemma_has_first(keys, key, w);
    }
}

/// A key that stands at place `w` has a first place at or before `w`.
proof fn lemma_has_first(keys: Seq<ElementKey>, key: ElementKey, w: int)
    requires
        0 <= w < keys.len(),
        keys[w] == key,
    ensures
        exists|i: int| first_at(keys, key, i),
    decreases w,
{
    if forall|j: int| 0 <= j < w ==> keys[j] != key {
        assert(first_at(keys, key, w));
    } else {
        let j = choose|j: int| 0 <= j < w && keys[j] == key;
        lemma_has_first(keys, key, j);
    }
}

/// In a list without repeated keys every key is found at its own place.
pub proof fn lemma_position_distinct(keys: Seq<ElementKey>, i: int)
    requires
        distinct(keys),
        0 <= i < keys.len(),
    ensures
        position(keys, keys[i]) == Some(i),
{
    assert(first_at(keys, keys[i], i));
    lemma_position_first(keys, keys[i], i);
}

/// The keys of a dataset.
pub fn keys_of_records(items: &Vec<OverpassElement>) -> (keys: Vec<ElementKey>)
    ensures
        keys@ == record_keys(records(items@)),
{
    let mut keys: Vec<ElementKey> = Vec::new();
    let mut i: usize = 0;
    while i < items.len()
        invariant
            i <= items@.len(),
            keys@.len() == i,
            forall|j: int| 0 <= j < i ==> keys@[j] == items@[j]@.key(),
        decreases items@.len() - i,
    {
        keys.push(items[i].key());
        i += 1;
    }
    assert(keys@ =~= record_keys(records(items@)));
    keys
}

/// The keys of a snapshot.
pub fn keys_of_rows(items: &Vec<Element>) -> (keys: Vec<ElementKey>)
    ensures
        keys@ == row_keys(rows(items@)),
{
    let mut keys: Vec<ElementKey> = Vec::new();
    let mut i: usize = 0;
    while i < items.len()
        invariant
            i <= items@.len(),
            keys@.len() == i,
            forall|j: int| 0 <= j < i ==> keys@[j] == items@[j]@.key(),
        decreases items@.len() - i,
    {
        keys.push(items[i].key());
        i += 1;
    }
    assert(keys@ =~= row_keys(rows(items@)));
    keys
}

/// The first place at which `key` stands among the first `end` of `keys`.
pub fn find_key_before(keys: &Vec<ElementKey>, end: usize, key: ElementKey) -> (found: Option<
    usize,
>)
    requires
        end <= keys@.len(),
    ensures
        match found {
            Some(i) => position(keys@.take(end as int), key) == Some(i as int),
            None => position(keys@.take(end as int), key) is None,
        },
{
    let ghost head = keys@.take(end as int);
    let mut i: usize = 0;
    while i < end
        invariant
            i <= end <= keys@.len(),
            head == keys@.take(end as int),
            forall|j: int| 0 <= j < i ==> head[j] != key,
        decreases end - i,
    {
        if keys[i] == key {
            proof {
                assert(first_at(head, key, i as int));
                lemma_position_first(head, key, i as int);
            }
            return Some(i);
        }
        i += 1;
    }
    None
}

/// The first place at which `key` stands in `keys`.
pub fn find_key(keys: &Vec<ElementKey>, key: ElementKey) -> (found: Option<usize>)
    ensures
        match found {
            Some(i) => position(keys@, key) == Some(i as int),
            None => position(keys@, key) is None,
        },
{
    assert(keys@.take(keys@.len() as int) =~= keys@);
    find_key_before(keys, keys.len(), key)
}

/// The first place whose key already stands at an earlier place, together
/// with the first place of that key; nothing when no key is repeated.
pub fn first_repeat(keys: &Vec<ElementKey>) -> (found: Option<(usize, usize)>)
    ensures
        match found {
            Some((first, second)) => {
                &&& first < second < keys@.len()
                &&& first_at(keys@, keys@[second as int], first as int)
                &&& forall|j: int| 0 <= j < second ==> !repeats(keys@, j)
            },
            None => distinct(keys@),
        },
{
    let mut j: usize = 0;
    while j < keys.len()
        invariant
            j <= keys@.len(),
            forall|a: int, b: int| 0 <= a < b < j ==> keys@[a] != keys@[b],
        decreases keys@.len() - j,
    {
        let earlier = find_key_before(keys, j, keys[j]);
        proof {
            lemma_position_is_first(keys@.take(j as int), keys@[j as int]);
        }
        match earlier {
            Some(i) => {
                assert(first_at(keys@, keys@[j as int], i as int)) by {
                    assert forall|k: int| 0 <= k < i implies keys@[k] != keys@[j as int] by {
                        assert(keys@.take(j as int)[k] == keys@[k]);
                    }
                }
                assert forall|k: int| 0 <= k < j implies !repeats(keys@, k) by {
                    if repeats(keys@, k) {
                        let a = choose|a: int| 0 <= a < k && keys@[a] == keys@[k];
                        assert(keys@[a] != keys@[k]);
                    }
                }
                return Some((i, j));
            },
            None => {
                assert forall|a: int| 0 <= a < j implies keys@[a] != keys@[j as int] by {
                    assert(keys@.take(j as int)[a] == keys@[a]);
                }
            },
        }
        j += 1;
    }
    None
}

} // verus!
