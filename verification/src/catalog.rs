//! The catalog: one table of payloads under record ids, which is there or is
//! not there yet.

use vstd::prelude::*;
use crate::codec::{decode_all, decoded_all, encode, encoded};
use crate::entries::{pairs, upsert_all, values_of, Entry};
use crate::ritual::{records, Ritual, RitualView};
use crate::text::texts;
use crate::text_map::TextMap;

verus! {

/// Why an operation on the store failed.
#[derive(Clone, Copy, Debug, PartialEq, Eq)]
pub enum StoreError {
    /// The storage underneath reported a fault.
    Io,
    /// A record could not be encoded; nothing was written.
    WriteFailed,
}

/// The table of the catalog. `None` is a store in which the table was never
/// made; a table that was made may hold no row.
#[derive(Clone, Debug, PartialEq, Eq)]
pub struct Catalog {
    pub table: Option<TextMap>,
}

impl View for Catalog {
    type V = Option<Seq<(Seq<char>, Seq<char>)>>;

    open spec fn view(&self) -> Option<Seq<(Seq<char>, Seq<char>)>> {
        match self.table {
            Some(rows) => Some(rows@),
            None => None,
        }
    }
}

/// The rows of a table, none where the table is not there.
pub open spec fn rows_of(table: Option<Seq<(Seq<char>, Seq<char>)>>) -> Seq<
    (Seq<char>, Seq<char>),
> {
    match table {
        Some(rows) => rows,
        None => Seq::empty(),
    }
}

/// The row that a record is written as: its payload under its id.
pub open spec fn row_of(record: RitualView) -> Option<(Seq<char>, Seq<char>)> {
    match encoded(record) {
        Some(payload) => Some((record.id, payload)),
        None => None,
    }
}

/// The rows that the records are written as, where every one of them
/// encodes.
pub open spec fn batch_of(records: Seq<RitualView>) -> Option<Seq<(Seq<char>, Seq<char>)>> {
    if forall|i: int| 0 <= i < records.len() ==> (#[trigger] row_of(records[i])) is Some {
        Some(Seq::new(records.len(), |i: int| row_of(records[i])->0))
    } else {
        None
    }
}

/// The table after a batch of rows was written to it: made if it was not
/// there, each row under its key, a later row replacing an earlier one.
pub open spec fn written(
    table: Option<Seq<(Seq<char>, Seq<char>)>>,
    batch: Seq<(Seq<char>, Seq<char>)>,
) -> Option<Seq<(Seq<char>, Seq<char>)>> {
    Some(upsert_all(rows_of(table), batch))
}

/// Encodes every record as the row it is written as.
pub fn encode_batch(rituals: &Vec<Ritual>) -> (batch: Option<Vec<Entry<String>>>)
    ensures
        match batch {
            Some(rows) => batch_of(records(rituals@)) == Some(pairs(rows@)),
            None => batch_of(records(rituals@)) is None,
        },
{
    let mut rows: Vec<Entry<String>> = Vec::new();
    let mut i: usize = 0;
    while i < rituals.len()
        invariant
            i <= rituals.len(),
            rows@.len() == i,
            forall|j: int| 0 <= j < i ==> row_of(#[trigger] records(rituals@)[j]) == Some(rows@[j]@),
        decreases rituals.len() - i,
    {
        match encode(&rituals[i]) {
            Some(payload) => {
                assert(row_of(records(rituals@)[i as int]) == Some((rituals@[i as int].id@, payload@)));
                rows.push(Entry { key: rituals[i].id.clone(), value: payload });
            },
            None => {
                assert(row_of(records(rituals@)[i as int]) is None);
                return None;
            },
        }
        i += 1;
    }
    assert(batch_of(records(rituals@))->0 =~= pairs(rows@));
    Some(rows)
}

impl Catalog {
    /// The catalog of a store in which the table was never made.
    pub fn absent() -> (catalog: Catalog)
        ensures
            catalog@ is None,
    {
        Catalog { table: None }
    }

    /// The catalog whose table holds the given rows, put in first to last.
    pub fn from_rows(rows: &Vec<Entry<String>>) -> (catalog: Catalog)
        ensures
            catalog@ == written(None, pairs(rows@)),
    {
        Catalog { table: Some(TextMap::from_entries(rows)) }
    }

    /// Whether the table was ever made.
    pub fn table_exists(&self) -> (there: bool)
        ensures
            there == (self@ is Some),
    {
        self.table.is_some()
    }

    /// Writes every record under its id, all of them or none: where a record
    /// cannot be encoded the catalog stays as it was.
    pub fn put_all(&mut self, rituals: &Vec<Ritual>) -> (outcome: Result<(), StoreError>)
        ensures
            match outcome {
                Ok(()) => batch_of(records(rituals@)) is Some && final(self)@ == written(
                    old(self)@,
                    batch_of(records(rituals@))->0,
                ),
                Err(error) => error == StoreError::WriteFailed && batch_of(records(rituals@))
                    is None && final(self)@ == old(self)@,
            },
    {
        match encode_batch(rituals) {
            Some(batch) => {
                let mut taken: Option<TextMap> = None;
                core::mem::swap(&mut self.table, &mut taken);
                let mut rows = match taken {
                    Some(rows) => rows,
                    None => TextMap::new(),
                };
                rows.insert_all(&batch);
                self.table = Some(rows);
                Ok(())
            },
            None => Err(StoreError::WriteFailed),
        }
    }

    /// A copy of every payload in the table, in the order of its rows. A
    /// table that is not there holds none.
    pub fn get_all(&self) -> (payloads: Vec<String>)
        ensures
            texts(payloads@) == values_of(rows_of(self@)),
    {
        match &self.table {
            Some(rows) => rows.values(),
            None => {
                let payloads: Vec<String> = Vec::new();
                assert(texts(payloads@) =~= values_of(rows_of(self@)));
                payloads
            },
        }
    }

    /// A copy of every row of the table, in order.
    pub fn rows(&self) -> (all: Vec<Entry<String>>)
        ensures
            pairs(all@) == rows_of(self@),
    {
        match &self.table {
            Some(rows) => rows.to_entries(),
            None => {
                let all: Vec<Entry<String>> = Vec::new();
                assert(pairs(all@) =~= rows_of(self@));
                all
            },
        }
    }

    /// The records of the catalog: every payload that decodes, in the order
    /// of the rows.
    pub fn records(&self) -> (rituals: Vec<Ritual>)
        ensures
            records(rituals@) == decoded_all(values_of(rows_of(self@))),
    {
        let payloads = self.get_all();
        decode_all(&payloads)
    }
}

} // verus!
