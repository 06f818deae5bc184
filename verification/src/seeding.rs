//! Seeding the catalog from a definition source: a JSON array of records.

use vstd::prelude::*;
use crate::catalog::{batch_of, rows_of, written, Catalog, StoreError};
use crate::codec::{decode, decoded, DecodeError};
use crate::entries::{
    as_map, distinct_keys, find_last, lemma_as_map, lemma_distinct_len, lemma_upsert_all_distinct,
    lemma_upsert_all_map, lemma_upsert_all_twice,
};
use crate::json::{json_array, read_array, JsonFault};
use crate::ritual::{records, Ritual, RitualView};
use crate::text::{slice_view, texts};

verus! {

/// Why the catalog could not be seeded.
#[derive(Clone, Copy, Debug, PartialEq, Eq)]
pub enum InitError {
    /// There is no definition source.
    SourceMissing,
    /// The definition source is not a JSON array of records.
    SourceMalformed,
    /// The records could not be written.
    Store(StoreError),
}

/// The records that the JSON texts decode to, where every one of them
/// decodes.
pub open spec fn decoded_each(items: Seq<Seq<char>>) -> Option<Seq<RitualView>> {
    if forall|i: int| 0 <= i < items.len() ==> (#[trigger] decoded(items[i])) is Ok {
        Some(Seq::new(items.len(), |i: int| decoded(items[i])->Ok_0))
    } else {
        None
    }
}

/// The records that a definition source defines, where it is a JSON array
/// whose every item is a record.
pub open spec fn definitions_of(source: Seq<char>) -> Option<Seq<RitualView>> {
    match json_array(source) {
        Ok(items) => decoded_each(items),
        Err(_) => None,
    }
}

/// The table after seeding from a source, or the reason why it was not
/// seeded.
pub open spec fn seeded(
    table: Option<Seq<(Seq<char>, Seq<char>)>>,
    source: Option<Seq<char>>,
) -> Result<Option<Seq<(Seq<char>, Seq<char>)>>, InitError> {
    match source {
        None => Err(InitError::SourceMissing),
        Some(text) => match definitions_of(text) {
            None => Err(InitError::SourceMalformed),
            Some(definitions) => match batch_of(definitions) {
                None => Err(InitError::Store(StoreError::WriteFailed)),
                Some(batch) => Ok(written(table, batch)),
            },
        },
    }
}

/// The table after it was made sure to be seeded: as it was where it is
/// there, seeded from the source where it is not.
pub open spec fn ensured(
    table: Option<Seq<(Seq<char>, Seq<char>)>>,
    source: Option<Seq<char>>,
) -> Result<Option<Seq<(Seq<char>, Seq<char>)>>, InitError> {
    if table is Some {
        Ok(table)
    } else {
        seeded(table, source)
    }
}

/// Reads a definition source: every item of the array must be a record.
pub fn parse_definitions(source: &str) -> (outcome: Result<Vec<Ritual>, InitError>)
    ensures
        match outcome {
            Ok(rituals) => definitions_of(source@) == Some(records(rituals@)),
            Err(error) => error == InitError::SourceMalformed && definitions_of(source@) is None,
        },
{
    match read_array(source) {
        Ok(items) => {
            let mut rituals: Vec<Ritual> = Vec::new();
            let mut i: usize = 0;
            while i < items.len()
                invariant
                    i <= items.len(),
                    rituals@.len() == i,
                    json_array(source@) == Ok::<_, JsonFault>(texts(items@)),
                    forall|j: int|
                        0 <= j < i ==> decoded(#[trigger] texts(items@)[j]) == Ok::<_, DecodeError>(
                            rituals@[j]@,
                        ),
                decreases items.len() - i,
            {
                match decode(items[i].as_str()) {
                    Ok(ritual) => {
                        assert(decoded(texts(items@)[i as int]) == Ok::<_, DecodeError>(ritual@));
                        rituals.push(ritual);
                    },
                    Err(_) => {
                        assert(decoded(texts(items@)[i as int]) is Err);
                        return Err(InitError::SourceMalformed);
                    },
                }
                i += 1;
            }
            assert(decoded_each(texts(items@))->0 =~= records(rituals@));
            Ok(rituals)
        },
        Err(_) => Err(InitError::SourceMalformed),
    }
}

/// Seeds the catalog from the source, whether or not the table is there:
/// every record of the source is written under its id, all of them or none.
pub fn seed(catalog: &mut Catalog, source: Option<&str>) -> (outcome: Result<(), InitError>)
    ensures
        match outcome {
            Ok(()) => seeded(old(catalog)@, slice_view(source)) == Ok::<_, InitError>(
                final(catalog)@,
            ),
            Err(error) => seeded(old(catalog)@, slice_view(source)) == Err::<
                Option<Seq<(Seq<char>, Seq<char>)>>,
                _,
            >(error) && final(catalog)@ == old(catalog)@,
        },
{
    let text = match source {
        Some(text) => text,
        None => {
            return Err(InitError::SourceMissing);
        },
    };
    let rituals = match parse_definitions(text) {
        Ok(rituals) => rituals,
        Err(error) => {
            return Err(error);
        },
    };
    match catalog.put_all(&rituals) {
        Ok(()) => Ok(()),
        Err(error) => Err(InitError::Store(error)),
    }
}

/// Makes sure that the catalog is seeded: a catalog whose table is there is
/// left as it is, and the source is not looked at; one whose table is not
/// there is seeded from the source.
pub fn ensure_seeded(catalog: &mut Catalog, source: Option<&str>) -> (outcome: Result<
    (),
    InitError,
>)
    ensures
        match outcome {
            Ok(()) => ensured(old(catalog)@, slice_view(source)) == Ok::<_, InitError>(
                final(catalog)@,
            ),
            Err(error) => ensured(old(catalog)@, slice_view(source)) == Err::<
                Option<Seq<(Seq<char>, Seq<char>)>>,
                _,
            >(error) && final(catalog)@ == old(catalog)@,
        },
{
    if catalog.table_exists() {
        Ok(())
    } else {
        seed(catalog, source)
    }
}

/// Seeding a second time from the same source changes nothing: the table
/// then holds one row for each id of the source, with the payload of the
/// last record that the source has under that id, and the rows it held
/// before under other ids.
pub proof fn lemma_seeding_twice(
    table: Option<Seq<(Seq<char>, Seq<char>)>>,
    source: Option<Seq<char>>,
)
    requires
        distinct_keys(rows_of(table)),
        seeded(table, source) is Ok,
    ensures
        seeded(seeded(table, source)->Ok_0, source) == seeded(table, source),
        distinct_keys(rows_of(seeded(table, source)->Ok_0)),
        ({
            let batch = batch_of(definitions_of(source->0)->0)->0;
            let after = as_map(rows_of(seeded(table, source)->Ok_0));
            &&& after == as_map(rows_of(table)).union_prefer_right(as_map(batch))
            &&& forall|key: Seq<char>|
                (#[trigger] find_last(batch, key)) is Some ==> after.dom().contains(key)
                    && after[key] == batch[find_last(batch, key)->0].1
        }),
{
    let batch = batch_of(definitions_of(source->0)->0)->0;
    let rows = rows_of(table);
    lemma_upsert_all_twice(rows, batch);
    lemma_upsert_all_distinct(rows, batch);
    lemma_upsert_all_map(rows, batch);
    let after = as_map(rows_of(seeded(table, source)->Ok_0));
    assert forall|key: Seq<char>| (#[trigger] find_last(batch, key)) is Some implies after.dom().contains(
        key,
    ) && after[key] == batch[find_last(batch, key)->0].1 by {
        lemma_as_map(batch, key);
    }
}

/// Seeding a store whose table is not there gives exactly one row for each
/// id of the source.
pub proof fn lemma_seeding_fresh(source: Option<Seq<char>>)
    requires
        seeded(None, source) is Ok,
    ensures
        ({
            let batch = batch_of(definitions_of(source->0)->0)->0;
            let rows = rows_of(seeded(None, source)->Ok_0);
            &&& distinct_keys(rows)
            &&& as_map(rows) == as_map(batch)
            &&& rows.len() == as_map(batch).dom().len()
        }),
{
    let batch = batch_of(definitions_of(source->0)->0)->0;
    let empty = Seq::<(Seq<char>, Seq<char>)>::empty();
    lemma_upsert_all_distinct(empty, batch);
    lemma_upsert_all_map(empty, batch);
    let rows = rows_of(seeded(None, source)->Ok_0);
    assert(as_map(rows) =~= as_map(batch));
    lemma_distinct_len(rows);
}

} // verus!
