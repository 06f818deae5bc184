//! Keyed entries: text keys in a sequence, where the first entry under a key
//! is the one that counts and an update keeps every key's place.

use vstd::prelude::*;

verus! {

/// A value stored under a text key.
#[derive(Clone, Debug, PartialEq, Eq)]
pub struct Entry<V> {
    pub key: String,
    pub value: V,
}

impl<V: View> View for Entry<V> {
    type V = (Seq<char>, V::V);

    open spec fn view(&self) -> (Seq<char>, V::V) {
        (self.key@, self.value@)
    }
}

/// The views of a sequence of entries.
pub open spec fn pairs<V: View>(entries: Seq<Entry<V>>) -> Seq<(Seq<char>, V::V)> {
    entries.map_values(|e: Entry<V>| e@)
}

/// No key stands twice in `rows`.
pub open spec fn distinct_keys<W>(rows: Seq<(Seq<char>, W)>) -> bool {
    forall|i: int, j: int| 0 <= i < j < rows.len() ==> rows[i].0 != rows[j].0
}

/// The first position in `rows` that holds `key`.
pub open spec fn find<W>(rows: Seq<(Seq<char>, W)>, key: Seq<char>) -> Option<int>
    decreases rows.len(),
{
    if rows.len() == 0 {
        None
    } else {
        match find(rows.drop_last(), key) {
            Some(i) => Some(i),
            None => if rows.last().0 == key {
                Some(rows.len() - 1)
            } else {
                None
            },
        }
    }
}

/// The value that `rows` holds under `key`.
pub open spec fn value_of<W>(rows: Seq<(Seq<char>, W)>, key: Seq<char>) -> Option<W> {
    match find(rows, key) {
        Some(i) => Some(rows[i].1),
        None => None,
    }
}

/// `rows` with `value` under `key`: in the key's place where it has one, at
/// the end otherwise.
pub open spec fn upsert<W>(rows: Seq<(Seq<char>, W)>, key: Seq<char>, value: W) -> Seq<
    (Seq<char>, W),
> {
    match find(rows, key) {
        Some(i) => rows.update(i, (key, value)),
        None => rows.push((key, value)),
    }
}

/// `rows` after every pair of `batch` was put into it, first to last.
pub open spec fn upsert_all<W>(rows: Seq<(Seq<char>, W)>, batch: Seq<(Seq<char>, W)>) -> Seq<
    (Seq<char>, W),
>
    decreases batch.len(),
{
    if batch.len() == 0 {
        rows
    } else {
        upsert(upsert_all(rows, batch.drop_last()), batch.last().0, batch.last().1)
    }
}

/// The mapping that `rows` spells out when read first to last, a later pair
/// replacing an earlier one under the same key.
pub open spec fn as_map<W>(rows: Seq<(Seq<char>, W)>) -> Map<Seq<char>, W>
    decreases rows.len(),
{
    if rows.len() == 0 {
        Map::empty()
    } else {
        as_map(rows.drop_last()).insert(rows.last().0, rows.last().1)
    }
}

/// The values of `rows` in order.
pub open spec fn values_of<W>(rows: Seq<(Seq<char>, W)>) -> Seq<W> {
    rows.map_values(|row: (Seq<char>, W)| row.1)
}

/// The last position in `rows` that holds `key`.
pub open spec fn find_last<W>(rows: Seq<(Seq<char>, W)>, key: Seq<char>) -> Option<int>
    decreases rows.len(),
{
    if rows.len() == 0 {
        None
    } else if rows.last().0 == key {
        Some(rows.len() - 1)
    } else {
        find_last(rows.drop_last(), key)
    }
}

/// The first position among `entries` whose key is `key`.
pub fn position<V: View>(entries: &Vec<Entry<V>>, key: &str) -> (at: Option<usize>)
    ensures
        match at {
            Some(i) => i < entries.len() && entries@[i as int].key@ == key@ && find(
                pairs(entries@),
                key@,
            ) == Some(i as int),
            None => find(pairs(entries@), key@) is None,
        },
{
    let wanted = String::from_str(key);
    let mut i: usize = 0;
    while i < entries.len()
        invariant
            i <= entries.len(),
            wanted@ == key@,
            forall|j: int| 0 <= j < i ==> pairs(entries@)[j].0 != key@,
        decreases entries.len() - i,
    {
        if entries[i].key == wanted {
            proof {
                lemma_find_is(pairs(entries@), key@, i as int);
            }
            return Some(i);
        }
        i += 1;
    }
    proof {
        lemma_find_none(pairs(entries@), key@);
    }
    None
}

/// `find` gives the first position of the key, and `None` only where the key
/// is nowhere.
pub proof fn lemma_find<W>(rows: Seq<(Seq<char>, W)>, key: Seq<char>)
    ensures
        match find(rows, key) {
            Some(i) => 0 <= i < rows.len() && rows[i].0 == key && forall|j: int|
                0 <= j < i ==> rows[j].0 != key,
            None => forall|j: int| 0 <= j < rows.len() ==> rows[j].0 != key,
        },
    decreases rows.len(),
{
    if rows.len() > 0 {
        let front = rows.drop_last();
        lemma_find(front, key);
        assert forall|j: int| 0 <= j < front.len() implies front[j] == rows[j] by {}
        match find(front, key) {
            Some(i) => {
                assert(front[i] == rows[i]);
                assert forall|j: int| 0 <= j < i implies rows[j].0 != key by {
                    assert(front[j] == rows[j]);
                }
            },
            None => {
                assert forall|j: int| 0 <= j < front.len() implies rows[j].0 != key by {
                    assert(front[j] == rows[j]);
                }
            },
        }
    }
}

/// A position that holds the key with no earlier one doing so is what `find`
/// gives.
pub proof fn lemma_find_is<W>(rows: Seq<(Seq<char>, W)>, key: Seq<char>, i: int)
    requires
        0 <= i < rows.len(),
        rows[i].0 == key,
        forall|j: int| 0 <= j < i ==> rows[j].0 != key,
    ensures
        find(rows, key) == Some(i),
{
    lemma_find(rows, key);
}

/// Where no position holds the key, `find` gives `None`.
pub proof fn lemma_find_none<W>(rows: Seq<(Seq<char>, W)>, key: Seq<char>)
    requires
        forall|j: int| 0 <= j < rows.len() ==> rows[j].0 != key,
    ensures
        find(rows, key) is None,
{
    lemma_find(rows, key);
}

/// `find_last` gives the last position of the key, and `None` only where the
/// key is nowhere.
pub proof fn lemma_find_last<W>(rows: Seq<(Seq<char>, W)>, key: Seq<char>)
    ensures
        match find_last(rows, key) {
            Some(i) => 0 <= i < rows.len() && rows[i].0 == key && forall|j: int|
                i < j < rows.len() ==> rows[j].0 != key,
            None => forall|j: int| 0 <= j < rows.len() ==> rows[j].0 != key,
        },
    decreases rows.len(),
{
    if rows.len() > 0 && rows.last().0 != key {
        let front = rows.drop_last();
        lemma_find_last(front, key);
        match find_last(front, key) {
            Some(i) => {
                assert(front[i] == rows[i]);
                assert forall|j: int| i < j < rows.len() implies rows[j].0 != key by {
                    if j < front.len() {
                        assert(front[j] == rows[j]);
                    }
                }
            },
            None => {
                assert forall|j: int| 0 <= j < rows.len() implies rows[j].0 != key by {
                    if j < front.len() {
                        assert(front[j] == rows[j]);
                    }
                }
            },
        }
    }
}

/// Putting a pair into rows with distinct keys leaves the keys distinct.
pub proof fn lemma_upsert_distinct<W>(rows: Seq<(Seq<char>, W)>, key: Seq<char>, value: W)
    requires
        distinct_keys(rows),
    ensures
        distinct_keys(upsert(rows, key, value)),
{
    lemma_find(rows, key);
}

/// Putting a batch into rows with distinct keys leaves the keys distinct.
pub proof fn lemma_upsert_all_distinct<W>(rows: Seq<(Seq<char>, W)>, batch: Seq<(Seq<char>, W)>)
    requires
        distinct_keys(rows),
    ensures
        distinct_keys(upsert_all(rows, batch)),
    decreases batch.len(),
{
    if batch.len() > 0 {
        lemma_upsert_all_distinct(rows, batch.drop_last());
        lemma_upsert_distinct(
            upsert_all(rows, batch.drop_last()),
            batch.last().0,
            batch.last().1,
        );
    }
}

/// The mapping of a sequence of pairs holds a key exactly where the sequence
/// does, with the value of the key's last pair.
pub proof fn lemma_as_map<W>(rows: Seq<(Seq<char>, W)>, key: Seq<char>)
    ensures
        as_map(rows).dom().contains(key) <==> find_last(rows, key) is Some,
        find_last(rows, key) matches Some(i) ==> as_map(rows)[key] == rows[i].1,
    decreases rows.len(),
{
    if rows.len() > 0 {
        let front = rows.drop_last();
        lemma_as_map(front, key);
        lemma_find_last(front, key);
        if let Some(i) = find_last(front, key) {
            assert(front[i] == rows[i]);
        }
    }
}

/// With distinct keys the first pair under a key is also the last.
pub proof fn lemma_first_is_last<W>(rows: Seq<(Seq<char>, W)>, key: Seq<char>)
    requires
        distinct_keys(rows),
    ensures
        find(rows, key) == find_last(rows, key),
{
    lemma_find(rows, key);
    lemma_find_last(rows, key);
}

/// Rows with distinct keys hold under each key what their mapping holds.
pub proof fn lemma_value_of_is_map<W>(rows: Seq<(Seq<char>, W)>, key: Seq<char>)
    requires
        distinct_keys(rows),
    ensures
        value_of(rows, key) is Some <==> as_map(rows).dom().contains(key),
        value_of(rows, key) matches Some(v) ==> as_map(rows)[key] == v,
{
    lemma_first_is_last(rows, key);
    lemma_as_map(rows, key);
}

/// Replacing the value at a position of rows with distinct keys replaces it
/// in their mapping.
pub proof fn lemma_update_map<W>(rows: Seq<(Seq<char>, W)>, i: int, value: W)
    requires
        distinct_keys(rows),
        0 <= i < rows.len(),
    ensures
        as_map(rows.update(i, (rows[i].0, value))) == as_map(rows).insert(rows[i].0, value),
    decreases rows.len(),
{
    let key = rows[i].0;
    let after = rows.update(i, (key, value));
    let front = rows.drop_last();
    if i == rows.len() - 1 {
        assert(after.drop_last() =~= front);
        assert(as_map(after) =~= as_map(rows).insert(key, value));
    } else {
        assert(distinct_keys(front)) by {
            assert forall|a: int, b: int| 0 <= a < b < front.len() implies front[a].0
                != front[b].0 by {
                assert(front[a] == rows[a] && front[b] == rows[b]);
            }
        }
        lemma_update_map(front, i, value);
        assert(front[i] == rows[i]);
        assert(after.drop_last() =~= front.update(i, (key, value)));
        assert(after.last() == rows.last());
        assert(rows.last().0 != key);
        assert(as_map(after) =~= as_map(rows).insert(key, value));
    }
}

/// Putting a pair into rows with distinct keys inserts it into their mapping.
pub proof fn lemma_upsert_map<W>(rows: Seq<(Seq<char>, W)>, key: Seq<char>, value: W)
    requires
        distinct_keys(rows),
    ensures
        as_map(upsert(rows, key, value)) == as_map(rows).insert(key, value),
{
    lemma_find(rows, key);
    match find(rows, key) {
        Some(i) => {
            lemma_update_map(rows, i, value);
        },
        None => {
            assert(rows.push((key, value)).drop_last() =~= rows);
        },
    }
}

/// Putting a batch into rows with distinct keys lays the batch's mapping over
/// theirs.
pub proof fn lemma_upsert_all_map<W>(rows: Seq<(Seq<char>, W)>, batch: Seq<(Seq<char>, W)>)
    requires
        distinct_keys(rows),
    ensures
        as_map(upsert_all(rows, batch)) == as_map(rows).union_prefer_right(as_map(batch)),
    decreases batch.len(),
{
    if batch.len() == 0 {
        assert(as_map(rows).union_prefer_right(as_map(batch)) =~= as_map(rows));
    } else {
        let before = upsert_all(rows, batch.drop_last());
        lemma_upsert_all_map(rows, batch.drop_last());
        lemma_upsert_all_distinct(rows, batch.drop_last());
        lemma_upsert_map(before, batch.last().0, batch.last().1);
        assert(as_map(rows).union_prefer_right(as_map(batch)) =~= as_map(rows).union_prefer_right(
            as_map(batch.drop_last()),
        ).insert(batch.last().0, batch.last().1));
    }
}

/// Rows with distinct keys are as many as the keys of their mapping.
pub proof fn lemma_distinct_len<W>(rows: Seq<(Seq<char>, W)>)
    requires
        distinct_keys(rows),
    ensures
        as_map(rows).dom().finite(),
        as_map(rows).dom().len() == rows.len(),
    decreases rows.len(),
{
    if rows.len() > 0 {
        let front = rows.drop_last();
        lemma_distinct_len(front);
        lemma_as_map(front, rows.last().0);
        lemma_find_last(front, rows.last().0);
        assert(as_map(rows).dom() =~= as_map(front).dom().insert(rows.last().0));
    }
}

/// Putting a batch into rows that were empty gives rows that spell out the
/// batch's mapping.
pub proof fn lemma_upsert_all_from_empty<W>(batch: Seq<(Seq<char>, W)>)
    ensures
        as_map(upsert_all(Seq::empty(), batch)) == as_map(batch),
{
    lemma_upsert_all_map(Seq::<(Seq<char>, W)>::empty(), batch);
    assert(Map::<Seq<char>, W>::empty().union_prefer_right(as_map(batch)) =~= as_map(batch));
}

/// Rows with distinct keys are their own result when put into nothing.
pub proof fn lemma_upsert_all_distinct_is_same<W>(batch: Seq<(Seq<char>, W)>)
    requires
        distinct_keys(batch),
    ensures
        upsert_all(Seq::empty(), batch) == batch,
    decreases batch.len(),
{
    if batch.len() == 0 {
    } else {
        let front = batch.drop_last();
        lemma_upsert_all_distinct_is_same(front);
        lemma_find_none(front, batch.last().0);
        assert(front.push(batch.last()) =~= batch);
    }
}

/// A pair put in anywhere does not change what the rows hold under another
/// key.
pub proof fn lemma_insert_other_key<W>(
    rows: Seq<(Seq<char>, W)>,
    at: int,
    extra: (Seq<char>, W),
    key: Seq<char>,
)
    requires
        0 <= at <= rows.len(),
        extra.0 != key,
    ensures
        value_of(rows.insert(at, extra), key) == value_of(rows, key),
{
    let wider = rows.insert(at, extra);
    lemma_find(rows, key);
    match find(rows, key) {
        Some(i) => {
            let moved = if i < at {
                i
            } else {
                i + 1
            };
            assert(wider[moved] == rows[i]);
            assert forall|j: int| 0 <= j < moved implies wider[j].0 != key by {
                if j < at {
                    assert(wider[j] == rows[j]);
                } else if j > at {
                    assert(wider[j] == rows[j - 1]);
                }
            }
            lemma_find_is(wider, key, moved);
        },
        None => {
            assert forall|j: int| 0 <= j < wider.len() implies wider[j].0 != key by {
                if j < at {
                    assert(wider[j] == rows[j]);
                } else if j > at {
                    assert(wider[j] == rows[j - 1]);
                }
            }
            lemma_find_none(wider, key);
        },
    }
}

/// A key that stands in a sequence of pairs is found there.
pub proof fn lemma_found<W>(rows: Seq<(Seq<char>, W)>, i: int)
    requires
        0 <= i < rows.len(),
    ensures
        find(rows, rows[i].0) is Some,
        find_last(rows, rows[i].0) is Some,
{
    lemma_find(rows, rows[i].0);
    lemma_find_last(rows, rows[i].0);
}

/// Putting a pair under a key that the rows hold leaves every key in its
/// place.
pub proof fn lemma_upsert_keeps_keys<W>(rows: Seq<(Seq<char>, W)>, key: Seq<char>, value: W)
    requires
        find(rows, key) is Some,
    ensures
        upsert(rows, key, value).len() == rows.len(),
        forall|j: int| 0 <= j < rows.len() ==> (#[trigger] upsert(rows, key, value)[j]).0 == rows[j].0,
{
    lemma_find(rows, key);
}

/// Putting in a batch whose keys the rows hold already leaves every key in
/// its place.
pub proof fn lemma_upsert_all_keeps_keys<W>(rows: Seq<(Seq<char>, W)>, batch: Seq<(Seq<char>, W)>)
    requires
        forall|i: int| 0 <= i < batch.len() ==> find(rows, (#[trigger] batch[i]).0) is Some,
    ensures
        upsert_all(rows, batch).len() == rows.len(),
        forall|j: int|
            0 <= j < rows.len() ==> (#[trigger] upsert_all(rows, batch)[j]).0 == rows[j].0,
    decreases batch.len(),
{
    if batch.len() > 0 {
        let front = batch.drop_last();
        assert forall|i: int| 0 <= i < front.len() implies find(rows, (#[trigger] front[i]).0)
            is Some by {
            assert(front[i] == batch[i]);
        }
        lemma_upsert_all_keeps_keys(rows, front);
        let before = upsert_all(rows, front);
        let key = batch.last().0;
        assert(find(rows, key) is Some) by {
            assert(batch[batch.len() - 1] == batch.last());
        }
        lemma_find(rows, key);
        let at = find(rows, key)->0;
        assert(before[at].0 == key);
        lemma_find(before, key);
        lemma_upsert_keeps_keys(before, key, batch.last().1);
        assert forall|j: int| 0 <= j < rows.len() implies (#[trigger] upsert_all(rows, batch)[j]).0
            == rows[j].0 by {
            assert(upsert(before, key, batch.last().1)[j].0 == before[j].0);
        }
    }
}

/// Rows with the same distinct keys in the same places that spell out the
/// same mapping are the same rows.
pub proof fn lemma_same_keys_same_map<W>(a: Seq<(Seq<char>, W)>, b: Seq<(Seq<char>, W)>)
    requires
        a.len() == b.len(),
        forall|j: int| 0 <= j < a.len() ==> (#[trigger] a[j]).0 == b[j].0,
        distinct_keys(a),
        as_map(a) == as_map(b),
    ensures
        a == b,
{
    assert(distinct_keys(b)) by {
        assert forall|i: int, j: int| 0 <= i < j < b.len() implies b[i].0 != b[j].0 by {
            assert(a[i].0 == b[i].0 && a[j].0 == b[j].0);
        }
    }
    assert forall|j: int| 0 <= j < a.len() implies a[j] == b[j] by {
        let key = a[j].0;
        lemma_find(a, key);
        lemma_find(b, key);
        lemma_value_of_is_map(a, key);
        lemma_value_of_is_map(b, key);
    }
    assert(a =~= b);
}

/// Putting the same batch into rows a second time changes nothing.
pub proof fn lemma_upsert_all_twice<W>(rows: Seq<(Seq<char>, W)>, batch: Seq<(Seq<char>, W)>)
    requires
        distinct_keys(rows),
    ensures
        upsert_all(upsert_all(rows, batch), batch) == upsert_all(rows, batch),
{
    let once = upsert_all(rows, batch);
    let twice = upsert_all(once, batch);
    lemma_upsert_all_distinct(rows, batch);
    lemma_upsert_all_distinct(once, batch);
    lemma_upsert_all_map(rows, batch);
    lemma_upsert_all_map(once, batch);
    assert(as_map(twice) =~= as_map(once));
    assert forall|i: int| 0 <= i < batch.len() implies find(once, (#[trigger] batch[i]).0)
        is Some by {
        lemma_found(batch, i);
        lemma_as_map(batch, batch[i].0);
        lemma_value_of_is_map(once, batch[i].0);
    }
    lemma_upsert_all_keeps_keys(once, batch);
    assert forall|j: int| 0 <= j < twice.len() implies (#[trigger] twice[j]).0 == once[j].0 by {}
    lemma_same_keys_same_map(twice, once);
}

} // verus!
