//! The record codec: a ritual as a JSON object of eight members, read back
//! from any object that holds those eight with the right kinds of value,
//! whatever else it holds.

use vstd::prelude::*;
use crate::document::{
    document_of_text, read_document, write_document, written_document, Document, Value, ValueView,
};
use crate::entries::{
    as_map, distinct_keys, find, lemma_find_is, lemma_insert_other_key,
    lemma_upsert_all_distinct_is_same, lemma_upsert_all_from_empty, position, upsert_all,
    value_of, Entry,
};
use crate::json::JsonFault;
use crate::ritual::{copy_texts, records, Ritual, RitualView};
use crate::text::{text_view, texts};
use crate::text_map::TextMap;

verus! {

/// Why a payload is no record.
#[derive(Clone, Copy, Debug, PartialEq, Eq)]
pub enum DecodeError {
    /// The payload is not well-formed JSON.
    Malformed,
    /// The payload is JSON, but a member that a record needs is absent or is
    /// not of the kind that the record holds.
    SchemaMismatch,
}

/// The text under `name`, where the document holds a string there.
pub open spec fn text_field(document: Seq<(Seq<char>, ValueView)>, name: Seq<char>) -> Option<
    Seq<char>,
> {
    match value_of(document, name) {
        Some(ValueView::Text(text)) => Some(text),
        _ => None,
    }
}

/// The list under `name`, where the document holds a list of strings there.
pub open spec fn list_field(document: Seq<(Seq<char>, ValueView)>, name: Seq<char>) -> Option<
    Seq<Seq<char>>,
> {
    match value_of(document, name) {
        Some(ValueView::TextList(items)) => Some(items),
        _ => None,
    }
}

/// The members under `name`, where the document holds an object of strings
/// there.
pub open spec fn map_field(document: Seq<(Seq<char>, ValueView)>, name: Seq<char>) -> Option<
    Seq<(Seq<char>, Seq<char>)>,
> {
    match value_of(document, name) {
        Some(ValueView::TextMap(members)) => Some(members),
        _ => None,
    }
}

/// The document holds every member that a record needs, each of its kind.
pub open spec fn fits_schema(document: Seq<(Seq<char>, ValueView)>) -> bool {
    &&& text_field(document, "id"@) is Some
    &&& text_field(document, "name"@) is Some
    &&& text_field(document, "origin_culture"@) is Some
    &&& text_field(document, "category"@) is Some
    &&& text_field(document, "bug_fixed"@) is Some
    &&& text_field(document, "mechanism"@) is Some
    &&& map_field(document, "modern_script"@) is Some
    &&& list_field(document, "ethical_guardrails"@) is Some
}

/// The record that a document stands for. Members beyond the eight are
/// passed over; a member that is absent, or of another kind, is a schema
/// mismatch.
pub open spec fn record_of(document: Seq<(Seq<char>, ValueView)>) -> Result<
    RitualView,
    DecodeError,
> {
    if fits_schema(document) {
        Ok(
            RitualView {
                id: text_field(document, "id"@)->0,
                name: text_field(document, "name"@)->0,
                origin_culture: text_field(document, "origin_culture"@)->0,
                category: text_field(document, "category"@)->0,
                bug_fixed: text_field(document, "bug_fixed"@)->0,
                mechanism: text_field(document, "mechanism"@)->0,
                modern_script: upsert_all(
                    Seq::empty(),
                    map_field(document, "modern_script"@)->0,
                ),
                ethical_guardrails: list_field(document, "ethical_guardrails"@)->0,
            },
        )
    } else {
        Err(DecodeError::SchemaMismatch)
    }
}

/// The document that stands for a record: its eight members in order.
pub open spec fn document_of(record: RitualView) -> Seq<(Seq<char>, ValueView)> {
    seq![
        ("id"@, ValueView::Text(record.id)),
        ("name"@, ValueView::Text(record.name)),
        ("origin_culture"@, ValueView::Text(record.origin_culture)),
        ("category"@, ValueView::Text(record.category)),
        ("bug_fixed"@, ValueView::Text(record.bug_fixed)),
        ("mechanism"@, ValueView::Text(record.mechanism)),
        ("modern_script"@, ValueView::TextMap(record.modern_script)),
        ("ethical_guardrails"@, ValueView::TextList(record.ethical_guardrails)),
    ]
}

/// The payload of a record, where the JSON writer gives a text for each of
/// its strings.
pub open spec fn encoded(record: RitualView) -> Option<Seq<char>> {
    written_document(document_of(record))
}

/// What a payload decodes to. A text that the JSON reader refuses as an
/// object is malformed, unless the reader found it to be JSON of another
/// kind: that is a schema mismatch.
pub open spec fn decoded(payload: Seq<char>) -> Result<RitualView, DecodeError> {
    match document_of_text(payload) {
        Ok(document) => record_of(document),
        Err(JsonFault::Data) => Err(DecodeError::SchemaMismatch),
        Err(_) => Err(DecodeError::Malformed),
    }
}

/// The records that a sequence of payloads holds: each payload that decodes,
/// in order; the others are passed over.
pub open spec fn decoded_all(payloads: Seq<Seq<char>>) -> Seq<RitualView>
    decreases payloads.len(),
{
    if payloads.len() == 0 {
        Seq::empty()
    } else {
        match decoded(payloads.last()) {
            Ok(record) => decoded_all(payloads.drop_last()).push(record),
            Err(_) => decoded_all(payloads.drop_last()),
        }
    }
}

/// The view of what decoding gave.
pub open spec fn decode_view(outcome: Result<Ritual, DecodeError>) -> Result<
    RitualView,
    DecodeError,
> {
    match outcome {
        Ok(ritual) => Ok(ritual@),
        Err(error) => Err(error),
    }
}

/// A copy of the text under `name`.
fn take_text(document: &Document, name: &str) -> (found: Option<String>)
    ensures
        text_view(found) == text_field(document@, name@),
{
    match position(&document.fields, name) {
        Some(i) => match &document.fields[i].value {
            Value::Text(text) => Some(text.clone()),
            _ => None,
        },
        None => None,
    }
}

/// A copy of the list under `name`.
fn take_list(document: &Document, name: &str) -> (found: Option<Vec<String>>)
    ensures
        match found {
            Some(items) => list_field(document@, name@) == Some(texts(items@)),
            None => list_field(document@, name@) is None,
        },
{
    match position(&document.fields, name) {
        Some(i) => match &document.fields[i].value {
            Value::TextList(items) => Some(copy_texts(items)),
            _ => None,
        },
        None => None,
    }
}

/// The mapping that the members under `name` spell out.
fn take_map(document: &Document, name: &str) -> (found: Option<TextMap>)
    ensures
        match found {
            Some(map) => map_field(document@, name@) is Some && map@ == upsert_all(
                Seq::empty(),
                map_field(document@, name@)->0,
            ),
            None => map_field(document@, name@) is None,
        },
{
    match position(&document.fields, name) {
        Some(i) => match &document.fields[i].value {
            Value::TextMap(members) => Some(TextMap::from_entries(members)),
            _ => None,
        },
        None => None,
    }
}

/// The record that a document stands for.
pub fn from_document(document: &Document) -> (outcome: Result<Ritual, DecodeError>)
    ensures
        decode_view(outcome) == record_of(document@),
{
    let id = take_text(document, "id");
    let name = take_text(document, "name");
    let origin_culture = take_text(document, "origin_culture");
    let category = take_text(document, "category");
    let bug_fixed = take_text(document, "bug_fixed");
    let mechanism = take_text(document, "mechanism");
    let modern_script = take_map(document, "modern_script");
    let ethical_guardrails = take_list(document, "ethical_guardrails");
    match (
        id,
        name,
        origin_culture,
        category,
        bug_fixed,
        mechanism,
        modern_script,
        ethical_guardrails,
    ) {
        (
            Some(id),
            Some(name),
            Some(origin_culture),
            Some(category),
            Some(bug_fixed),
            Some(mechanism),
            Some(modern_script),
            Some(ethical_guardrails),
        ) => Ok(
            Ritual {
                id,
                name,
                origin_culture,
                category,
                bug_fixed,
                mechanism,
                modern_script,
                ethical_guardrails,
            },
        ),
        _ => Err(DecodeError::SchemaMismatch),
    }
}

/// A member that holds a string.
fn text_member(name: &str, text: &String) -> (member: Entry<Value>)
    ensures
        member@ == (name@, ValueView::Text(text@)),
{
    Entry { key: String::from_str(name), value: Value::Text(text.clone()) }
}

/// The document that stands for a record.
pub fn to_document(ritual: &Ritual) -> (document: Document)
    ensures
        document@ == document_of(ritual@),
{
    let mut fields: Vec<Entry<Value>> = Vec::new();
    fields.push(text_member("id", &ritual.id));
    fields.push(text_member("name", &ritual.name));
    fields.push(text_member("origin_culture", &ritual.origin_culture));
    fields.push(text_member("category", &ritual.category));
    fields.push(text_member("bug_fixed", &ritual.bug_fixed));
    fields.push(text_member("mechanism", &ritual.mechanism));
    fields.push(
        Entry {
            key: String::from_str("modern_script"),
            value: Value::TextMap(ritual.modern_script.to_entries()),
        },
    );
    fields.push(
        Entry {
            key: String::from_str("ethical_guardrails"),
            value: Value::TextList(copy_texts(&ritual.ethical_guardrails)),
        },
    );
    let document = Document { fields };
    assert(document@ =~= document_of(ritual@));
    document
}

/// Writes a record as its payload. The outcome is `None` only where the
/// JSON writer reports an error for one of the record's strings.
pub fn encode(ritual: &Ritual) -> (payload: Option<String>)
    ensures
        text_view(payload) == encoded(ritual@),
{
    let document = to_document(ritual);
    write_document(&document)
}

/// Reads a payload as a record.
pub fn decode(payload: &str) -> (outcome: Result<Ritual, DecodeError>)
    ensures
        decode_view(outcome) == decoded(payload@),
{
    match read_document(payload) {
        Ok(document) => from_document(&document),
        Err(JsonFault::Data) => Err(DecodeError::SchemaMismatch),
        Err(_) => Err(DecodeError::Malformed),
    }
}

/// Reads every payload that is a record, in order, and passes over the
/// others.
pub fn decode_all(payloads: &Vec<String>) -> (rituals: Vec<Ritual>)
    ensures
        records(rituals@) == decoded_all(texts(payloads@)),
{
    let mut rituals: Vec<Ritual> = Vec::new();
    let mut i: usize = 0;
    assert(records(rituals@) =~= decoded_all(texts(payloads@).take(0)));
    while i < payloads.len()
        invariant
            i <= payloads.len(),
            records(rituals@) == decoded_all(texts(payloads@).take(i as int)),
        decreases payloads.len() - i,
    {
        proof {
            let next = texts(payloads@).take(i + 1);
            assert(next.drop_last() =~= texts(payloads@).take(i as int));
            assert(next.last() == payloads@[i as int]@);
        }
        let ghost before = rituals@;
        if let Ok(ritual) = decode(payloads[i].as_str()) {
            rituals.push(ritual);
            assert(records(rituals@) =~= records(before).push(ritual@));
        }
        i += 1;
    }
    assert(texts(payloads@).take(payloads.len() as int) =~= texts(payloads@));
    rituals
}

/// A name that the schema of a record knows.
pub open spec fn is_schema_name(name: Seq<char>) -> bool {
    ||| name == "id"@
    ||| name == "name"@
    ||| name == "origin_culture"@
    ||| name == "category"@
    ||| name == "bug_fixed"@
    ||| name == "mechanism"@
    ||| name == "modern_script"@
    ||| name == "ethical_guardrails"@
}

/// Two values that are the same, an object of strings counting for the
/// mapping that it spells out.
pub open spec fn same_value(a: Option<ValueView>, b: Option<ValueView>) -> bool {
    match (a, b) {
        (Some(ValueView::TextMap(x)), Some(ValueView::TextMap(y))) => as_map(x) == as_map(y),
        _ => a == b,
    }
}

/// Two documents that hold the same value under every name, whatever the
/// order of their members.
pub open spec fn same_members(
    a: Seq<(Seq<char>, ValueView)>,
    b: Seq<(Seq<char>, ValueView)>,
) -> bool {
    forall|name: Seq<char>| same_value(#[trigger] value_of(a, name), value_of(b, name))
}

/// Two records that are the same, the script counting for the mapping that
/// it spells out.
pub open spec fn same_record(a: RitualView, b: RitualView) -> bool {
    &&& a.id == b.id
    &&& a.name == b.name
    &&& a.origin_culture == b.origin_culture
    &&& a.category == b.category
    &&& a.bug_fixed == b.bug_fixed
    &&& a.mechanism == b.mechanism
    &&& as_map(a.modern_script) == as_map(b.modern_script)
    &&& a.ethical_guardrails == b.ethical_guardrails
}

/// The eight names of the schema differ from each other.
proof fn lemma_names_differ()
    ensures
        "id"@.len() == 2,
        "name"@.len() == 4,
        "origin_culture"@.len() == 14,
        "category"@.len() == 8,
        "bug_fixed"@.len() == 9 && "bug_fixed"@[0] == 'b',
        "mechanism"@.len() == 9 && "mechanism"@[0] == 'm',
        "modern_script"@.len() == 13,
        "ethical_guardrails"@.len() == 18,
{
    reveal_strlit("id");
    reveal_strlit("name");
    reveal_strlit("origin_culture");
    reveal_strlit("category");
    reveal_strlit("bug_fixed");
    reveal_strlit("mechanism");
    reveal_strlit("modern_script");
    reveal_strlit("ethical_guardrails");
}

/// The document that stands for a record stands for that record and no
/// other.
pub proof fn lemma_record_of_document(record: RitualView)
    requires
        distinct_keys(record.modern_script),
    ensures
        record_of(document_of(record)) == Ok::<_, DecodeError>(record),
{
    let document = document_of(record);
    lemma_names_differ();
    lemma_find_is(document, "id"@, 0);
    lemma_find_is(document, "name"@, 1);
    lemma_find_is(document, "origin_culture"@, 2);
    lemma_find_is(document, "category"@, 3);
    lemma_find_is(document, "bug_fixed"@, 4);
    lemma_find_is(document, "mechanism"@, 5);
    lemma_find_is(document, "modern_script"@, 6);
    lemma_find_is(document, "ethical_guardrails"@, 7);
    lemma_upsert_all_distinct_is_same(record.modern_script);
}

/// A member under a name that the schema does not know, wherever it stands
/// in a document, changes nothing of the record that the document stands
/// for.
pub proof fn lemma_unknown_member_ignored(
    document: Seq<(Seq<char>, ValueView)>,
    at: int,
    extra: (Seq<char>, ValueView),
)
    requires
        0 <= at <= document.len(),
        !is_schema_name(extra.0),
    ensures
        record_of(document.insert(at, extra)) == record_of(document),
{
    lemma_insert_other_key(document, at, extra, "id"@);
    lemma_insert_other_key(document, at, extra, "name"@);
    lemma_insert_other_key(document, at, extra, "origin_culture"@);
    lemma_insert_other_key(document, at, extra, "category"@);
    lemma_insert_other_key(document, at, extra, "bug_fixed"@);
    lemma_insert_other_key(document, at, extra, "mechanism"@);
    lemma_insert_other_key(document, at, extra, "modern_script"@);
    lemma_insert_other_key(document, at, extra, "ethical_guardrails"@);
}

/// A document that lacks a member of the schema stands for no record: it is
/// a schema mismatch.
pub proof fn lemma_missing_member_rejected(document: Seq<(Seq<char>, ValueView)>, name: Seq<char>)
    requires
        is_schema_name(name),
        find(document, name) is None,
    ensures
        record_of(document) == Err::<RitualView, _>(DecodeError::SchemaMismatch),
{
}

/// Documents that hold the same value under every name stand for the same
/// record, or both for none.
pub proof fn lemma_record_of_same_members(
    a: Seq<(Seq<char>, ValueView)>,
    b: Seq<(Seq<char>, ValueView)>,
)
    requires
        same_members(a, b),
    ensures
        match (record_of(a), record_of(b)) {
            (Ok(x), Ok(y)) => same_record(x, y),
            (Err(e), Err(f)) => e == f,
            _ => false,
        },
{
    assert(same_value(value_of(a, "id"@), value_of(b, "id"@)));
    assert(same_value(value_of(a, "name"@), value_of(b, "name"@)));
    assert(same_value(value_of(a, "origin_culture"@), value_of(b, "origin_culture"@)));
    assert(same_value(value_of(a, "category"@), value_of(b, "category"@)));
    assert(same_value(value_of(a, "bug_fixed"@), value_of(b, "bug_fixed"@)));
    assert(same_value(value_of(a, "mechanism"@), value_of(b, "mechanism"@)));
    assert(same_value(value_of(a, "modern_script"@), value_of(b, "modern_script"@)));
    assert(same_value(value_of(a, "ethical_guardrails"@), value_of(b, "ethical_guardrails"@)));
    if fits_schema(a) {
        lemma_upsert_all_from_empty(map_field(a, "modern_script"@)->0);
        lemma_upsert_all_from_empty(map_field(b, "modern_script"@)->0);
    }
}

/// Decoding gives back the record that was encoded, its script as a mapping,
/// wherever the JSON reader finds in the payload the members that the writer
/// was given, in whatever order.
pub proof fn lemma_decode_encoded(record: RitualView)
    requires
        distinct_keys(record.modern_script),
    ensures
        (encoded(record) matches Some(payload) && document_of_text(payload) matches Ok(read)
            && same_members(read, document_of(record))) ==> (decoded(encoded(record)->0) matches Ok(
            back,
        ) && same_record(back, record)),
{
    if let Some(payload) = encoded(record) {
        if let Ok(read) = document_of_text(payload) {
            if same_members(read, document_of(record)) {
                lemma_record_of_document(record);
                lemma_record_of_same_members(read, document_of(record));
            }
        }
    }
}

/// A payload with a member under a name that the schema does not know
/// decodes to what the payload without that member decodes to.
pub proof fn lemma_decode_ignores_unknown_member(
    narrow: Seq<char>,
    wide: Seq<char>,
    at: int,
    extra: (Seq<char>, ValueView),
)
    requires
        !is_schema_name(extra.0),
    ensures
        (document_of_text(narrow) matches Ok(document) && 0 <= at <= document.len()
            && document_of_text(wide) == Ok::<_, JsonFault>(document.insert(at, extra))) ==> decoded(
            wide,
        ) == decoded(narrow),
{
    if let Ok(document) = document_of_text(narrow) {
        if 0 <= at <= document.len() {
            lemma_unknown_member_ignored(document, at, extra);
        }
    }
}

/// A payload that is a JSON object without a member of the schema decodes to
/// a schema mismatch.
pub proof fn lemma_decode_rejects_missing_member(payload: Seq<char>, name: Seq<char>)
    requires
        is_schema_name(name),
    ensures
        (document_of_text(payload) matches Ok(document) && find(document, name) is None)
            ==> decoded(payload) == Err::<RitualView, _>(DecodeError::SchemaMismatch),
{
    if let Ok(document) = document_of_text(payload) {
        if find(document, name) is None {
            lemma_missing_member_rejected(document, name);
        }
    }
}

/// The records of two runs of payloads, one after the other, are the records
/// of the first and then those of the second.
pub proof fn lemma_decoded_all_append(first: Seq<Seq<char>>, second: Seq<Seq<char>>)
    ensures
        decoded_all(first + second) == decoded_all(first) + decoded_all(second),
    decreases second.len(),
{
    if second.len() == 0 {
        assert(first + second =~= first);
        assert(decoded_all(first) + decoded_all(second) =~= decoded_all(first));
    } else {
        lemma_decoded_all_append(first, second.drop_last());
        assert((first + second).drop_last() =~= first + second.drop_last());
        assert((first + second).last() == second.last());
        assert(decoded_all(first + second) =~= decoded_all(first) + decoded_all(second));
    }
}

/// A payload that does not decode, wherever it stands among the others,
/// changes nothing of the records that are read; one that decodes adds its
/// record in its place.
pub proof fn lemma_decoded_all_insert(payloads: Seq<Seq<char>>, at: int, payload: Seq<char>)
    requires
        0 <= at <= payloads.len(),
    ensures
        decoded(payload) is Err ==> decoded_all(payloads.insert(at, payload)) == decoded_all(
            payloads,
        ),
        decoded(payload) is Ok ==> decoded_all(payloads.insert(at, payload)) == decoded_all(
            payloads.subrange(0, at),
        ).push(decoded(payload)->Ok_0) + decoded_all(
            payloads.subrange(at, payloads.len() as int),
        ),
{
    let before = payloads.subrange(0, at);
    let after = payloads.subrange(at, payloads.len() as int);
    let one = seq![payload];
    assert(payloads =~= before + after);
    assert(payloads.insert(at, payload) =~= before + one + after);
    lemma_decoded_all_append(before, after);
    lemma_decoded_all_append(before, one);
    lemma_decoded_all_append(before + one, after);
    assert(one.drop_last() =~= Seq::<Seq<char>>::empty());
    assert(decoded_all(one.drop_last()) =~= Seq::<RitualView>::empty());
    if decoded(payload) is Err {
        assert(decoded_all(one) =~= Seq::<RitualView>::empty());
        assert(decoded_all(before) + decoded_all(one) =~= decoded_all(before));
    } else {
        assert(decoded_all(one) =~= seq![decoded(payload)->Ok_0]);
        assert(decoded_all(before) + decoded_all(one) =~= decoded_all(before).push(
            decoded(payload)->Ok_0,
        ));
    }
}

} // verus!
