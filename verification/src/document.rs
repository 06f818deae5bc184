//! JSON documents two levels deep: an object whose members are strings, lists
//! of strings, objects of strings, or anything else, kept as its JSON text.

use vstd::prelude::*;
use crate::entries::{pairs, Entry};
use crate::json::{
    array_text, frame_array, frame_object, json_array, json_object, json_quoted, json_string,
    object_text, read_array, read_object, read_string, write_string, JsonFault,
};
use crate::text::texts;

verus! {

/// The value of one member of a document.
#[derive(Clone, Debug, PartialEq, Eq)]
pub enum Value {
    /// A JSON string.
    Text(String),
    /// A JSON array of strings.
    TextList(Vec<String>),
    /// A JSON object whose values are strings.
    TextMap(Vec<Entry<String>>),
    /// Any other JSON value, as its text.
    Raw(String),
}

/// What a `Value` holds.
pub enum ValueView {
    Text(Seq<char>),
    TextList(Seq<Seq<char>>),
    TextMap(Seq<(Seq<char>, Seq<char>)>),
    Raw(Seq<char>),
}

impl View for Value {
    type V = ValueView;

    open spec fn view(&self) -> ValueView {
        match self {
            Value::Text(text) => ValueView::Text(text@),
            Value::TextList(items) => ValueView::TextList(texts(items@)),
            Value::TextMap(members) => ValueView::TextMap(pairs(members@)),
            Value::Raw(raw) => ValueView::Raw(raw@),
        }
    }
}

/// A JSON object read one member at a time, each member under its name.
#[derive(Clone, Debug, PartialEq, Eq)]
pub struct Document {
    pub fields: Vec<Entry<Value>>,
}

impl View for Document {
    type V = Seq<(Seq<char>, ValueView)>;

    open spec fn view(&self) -> Seq<(Seq<char>, ValueView)> {
        pairs(self.fields@)
    }
}

/// The string that a JSON text spells, where it spells one.
pub open spec fn spelled(raw: Seq<char>) -> Option<Seq<char>> {
    match json_string(raw) {
        Ok(text) => Some(text),
        Err(_) => None,
    }
}

/// The strings that the JSON texts spell, where each of them spells one.
pub open spec fn spelled_all(raws: Seq<Seq<char>>) -> Option<Seq<Seq<char>>> {
    if forall|i: int| 0 <= i < raws.len() ==> (#[trigger] spelled(raws[i])) is Some {
        Some(Seq::new(raws.len(), |i: int| spelled(raws[i])->0))
    } else {
        None
    }
}

/// The members with the strings that their values spell, where each value
/// spells one.
pub open spec fn spelled_members(members: Seq<(Seq<char>, Seq<char>)>) -> Option<
    Seq<(Seq<char>, Seq<char>)>,
> {
    if forall|i: int| 0 <= i < members.len() ==> (#[trigger] spelled(members[i].1)) is Some {
        Some(Seq::new(members.len(), |i: int| (members[i].0, spelled(members[i].1)->0)))
    } else {
        None
    }
}

/// The list of strings that a JSON text spells, where it is an array of
/// strings.
pub open spec fn spelled_list(raw: Seq<char>) -> Option<Seq<Seq<char>>> {
    match json_array(raw) {
        Ok(items) => spelled_all(items),
        Err(_) => None,
    }
}

/// The members that a JSON text spells, where it is an object whose values
/// are strings.
pub open spec fn spelled_map(raw: Seq<char>) -> Option<Seq<(Seq<char>, Seq<char>)>> {
    match json_object(raw) {
        Ok(members) => spelled_members(members),
        Err(_) => None,
    }
}

/// The value that a JSON text stands for: a string before a list of strings
/// before an object of strings, and the text itself where it is none of them.
pub open spec fn value_of_text(raw: Seq<char>) -> ValueView {
    if spelled(raw) is Some {
        ValueView::Text(spelled(raw)->0)
    } else if spelled_list(raw) is Some {
        ValueView::TextList(spelled_list(raw)->0)
    } else if spelled_map(raw) is Some {
        ValueView::TextMap(spelled_map(raw)->0)
    } else {
        ValueView::Raw(raw)
    }
}

/// The members of an object, each with the value that its text stands for.
pub open spec fn fields_of_members(members: Seq<(Seq<char>, Seq<char>)>) -> Seq<
    (Seq<char>, ValueView),
> {
    Seq::new(members.len(), |i: int| (members[i].0, value_of_text(members[i].1)))
}

/// The document that a JSON text stands for, or the cause for which the
/// reader refused the text as an object.
pub open spec fn document_of_text(text: Seq<char>) -> Result<Seq<(Seq<char>, ValueView)>, JsonFault> {
    match json_object(text) {
        Ok(members) => Ok(fields_of_members(members)),
        Err(fault) => Err(fault),
    }
}

/// The JSON texts of the strings, where the writer gives one for each.
pub open spec fn quoted_all(items: Seq<Seq<char>>) -> Option<Seq<Seq<char>>> {
    if forall|i: int| 0 <= i < items.len() ==> (#[trigger] json_quoted(items[i])) is Some {
        Some(Seq::new(items.len(), |i: int| json_quoted(items[i])->0))
    } else {
        None
    }
}

/// The members with name and value as JSON texts, where the writer gives one
/// for each.
pub open spec fn quoted_members(members: Seq<(Seq<char>, Seq<char>)>) -> Option<
    Seq<(Seq<char>, Seq<char>)>,
> {
    if forall|i: int|
        0 <= i < members.len() ==> (#[trigger] json_quoted(members[i].0)) is Some && json_quoted(
            members[i].1,
        ) is Some {
        Some(
            Seq::new(
                members.len(),
                |i: int| (json_quoted(members[i].0)->0, json_quoted(members[i].1)->0),
            ),
        )
    } else {
        None
    }
}

/// The JSON text of a value, where the writer gives one for each string in
/// it.
pub open spec fn written_value(value: ValueView) -> Option<Seq<char>> {
    match value {
        ValueView::Text(text) => json_quoted(text),
        ValueView::TextList(items) => match quoted_all(items) {
            Some(quoted) => Some(array_text(quoted)),
            None => None,
        },
        ValueView::TextMap(members) => match quoted_members(members) {
            Some(quoted) => Some(object_text(quoted)),
            None => None,
        },
        ValueView::Raw(raw) => Some(raw),
    }
}

/// One field as a member of a JSON object, where the writer gives a text for
/// its name and for its value.
pub open spec fn written_field(field: (Seq<char>, ValueView)) -> Option<(Seq<char>, Seq<char>)> {
    match (json_quoted(field.0), written_value(field.1)) {
        (Some(name), Some(value)) => Some((name, value)),
        _ => None,
    }
}

/// The fields as members of a JSON object, where the writer gives a text for
/// each.
pub open spec fn written_fields(fields: Seq<(Seq<char>, ValueView)>) -> Option<
    Seq<(Seq<char>, Seq<char>)>,
> {
    if forall|i: int| 0 <= i < fields.len() ==> (#[trigger] written_field(fields[i])) is Some {
        Some(Seq::new(fields.len(), |i: int| written_field(fields[i])->0))
    } else {
        None
    }
}

/// The JSON text of a document, where the writer gives a text for every
/// string in it.
pub open spec fn written_document(fields: Seq<(Seq<char>, ValueView)>) -> Option<Seq<char>> {
    match written_fields(fields) {
        Some(members) => Some(object_text(members)),
        None => None,
    }
}

/// Reads each JSON text as a string.
pub fn read_strings(raws: &Vec<String>) -> (read: Option<Vec<String>>)
    ensures
        match read {
            Some(items) => spelled_all(texts(raws@)) == Some(texts(items@)),
            None => spelled_all(texts(raws@)) is None,
        },
{
    let mut items: Vec<String> = Vec::new();
    let mut i: usize = 0;
    while i < raws.len()
        invariant
            i <= raws.len(),
            items@.len() == i,
            forall|j: int| 0 <= j < i ==> spelled(#[trigger] texts(raws@)[j]) == Some(items@[j]@),
        decreases raws.len() - i,
    {
        match read_string(raws[i].as_str()) {
            Ok(text) => {
                assert(spelled(texts(raws@)[i as int]) == Some(text@));
                items.push(text);
            },
            Err(_) => {
                assert(spelled(texts(raws@)[i as int]) is None);
                return None;
            },
        }
        i += 1;
    }
    assert(spelled_all(texts(raws@))->0 =~= texts(items@));
    Some(items)
}

/// Reads the value of each member as a string.
pub fn read_members(raws: &Vec<Entry<String>>) -> (read: Option<Vec<Entry<String>>>)
    ensures
        match read {
            Some(members) => spelled_members(pairs(raws@)) == Some(pairs(members@)),
            None => spelled_members(pairs(raws@)) is None,
        },
{
    let mut members: Vec<Entry<String>> = Vec::new();
    let mut i: usize = 0;
    while i < raws.len()
        invariant
            i <= raws.len(),
            members@.len() == i,
            forall|j: int|
                0 <= j < i ==> spelled((#[trigger] pairs(raws@)[j]).1) == Some(members@[j].value@)
                    && members@[j].key@ == pairs(raws@)[j].0,
        decreases raws.len() - i,
    {
        match read_string(raws[i].value.as_str()) {
            Ok(text) => {
                assert(spelled(pairs(raws@)[i as int].1) == Some(text@));
                members.push(Entry { key: raws[i].key.clone(), value: text });
            },
            Err(_) => {
                assert(spelled(pairs(raws@)[i as int].1) is None);
                return None;
            },
        }
        i += 1;
    }
    assert(spelled_members(pairs(raws@))->0 =~= pairs(members@));
    Some(members)
}

/// Reads a JSON text as the value of a member.
pub fn read_value(raw: &str) -> (value: Value)
    ensures
        value@ == value_of_text(raw@),
{
    if let Ok(text) = read_string(raw) {
        return Value::Text(text);
    }
    if let Ok(items) = read_array(raw) {
        if let Some(list) = read_strings(&items) {
            return Value::TextList(list);
        }
    }
    if let Ok(members) = read_object(raw) {
        if let Some(map) = read_members(&members) {
            return Value::TextMap(map);
        }
    }
    Value::Raw(String::from_str(raw))
}

/// Reads a JSON text as a document: an object, with each member's value read
/// by `read_value`. A text that the reader refuses as an object gives the
/// cause of the refusal.
pub fn read_document(text: &str) -> (read: Result<Document, JsonFault>)
    ensures
        match read {
            Ok(document) => document_of_text(text@) == Ok::<_, JsonFault>(document@),
            Err(fault) => document_of_text(text@) == Err::<Seq<(Seq<char>, ValueView)>, _>(fault),
        },
{
    match read_object(text) {
        Ok(members) => {
            let mut fields: Vec<Entry<Value>> = Vec::new();
            let mut i: usize = 0;
            while i < members.len()
                invariant
                    i <= members.len(),
                    fields@.len() == i,
                    forall|j: int|
                        0 <= j < i ==> (#[trigger] fields@[j])@ == (
                            pairs(members@)[j].0,
                            value_of_text(pairs(members@)[j].1),
                        ),
                decreases members.len() - i,
            {
                let value = read_value(members[i].value.as_str());
                fields.push(Entry { key: members[i].key.clone(), value });
                i += 1;
            }
            let document = Document { fields };
            assert(document@ =~= fields_of_members(pairs(members@)));
            Ok(document)
        },
        Err(fault) => Err(fault),
    }
}

/// Writes each string as a JSON text.
pub fn write_strings(items: &Vec<String>) -> (written: Option<Vec<String>>)
    ensures
        match written {
            Some(quoted) => quoted_all(texts(items@)) == Some(texts(quoted@)),
            None => quoted_all(texts(items@)) is None,
        },
{
    let mut quoted: Vec<String> = Vec::new();
    let mut i: usize = 0;
    while i < items.len()
        invariant
            i <= items.len(),
            quoted@.len() == i,
            forall|j: int|
                0 <= j < i ==> json_quoted(#[trigger] texts(items@)[j]) == Some(quoted@[j]@),
        decreases items.len() - i,
    {
        match write_string(items[i].as_str()) {
            Some(text) => {
                assert(json_quoted(texts(items@)[i as int]) == Some(text@));
                quoted.push(text);
            },
            None => {
                assert(json_quoted(texts(items@)[i as int]) is None);
                return None;
            },
        }
        i += 1;
    }
    assert(quoted_all(texts(items@))->0 =~= texts(quoted@));
    Some(quoted)
}

/// Writes the name and the value of each member as JSON texts.
pub fn write_members(members: &Vec<Entry<String>>) -> (written: Option<Vec<Entry<String>>>)
    ensures
        match written {
            Some(quoted) => quoted_members(pairs(members@)) == Some(pairs(quoted@)),
            None => quoted_members(pairs(members@)) is None,
        },
{
    let mut quoted: Vec<Entry<String>> = Vec::new();
    let mut i: usize = 0;
    while i < members.len()
        invariant
            i <= members.len(),
            quoted@.len() == i,
            forall|j: int|
                0 <= j < i ==> json_quoted((#[trigger] pairs(members@)[j]).0) == Some(
                    quoted@[j].key@,
                ) && json_quoted(pairs(members@)[j].1) == Some(quoted@[j].value@),
        decreases members.len() - i,
    {
        let name = write_string(members[i].key.as_str());
        let value = write_string(members[i].value.as_str());
        match (name, value) {
            (Some(key), Some(value)) => {
                assert(json_quoted(pairs(members@)[i as int].0) == Some(key@));
                assert(json_quoted(pairs(members@)[i as int].1) == Some(value@));
                quoted.push(Entry { key, value });
            },
            _ => {
                assert(json_quoted(pairs(members@)[i as int].0) is None || json_quoted(
                    pairs(members@)[i as int].1,
                ) is None);
                return None;
            },
        }
        i += 1;
    }
    assert(quoted_members(pairs(members@))->0 =~= pairs(quoted@));
    Some(quoted)
}

/// Writes a value as a JSON text.
pub fn write_value(value: &Value) -> (written: Option<String>)
    ensures
        match written {
            Some(text) => written_value(value@) == Some(text@),
            None => written_value(value@) is None,
        },
{
    match value {
        Value::Text(text) => write_string(text.as_str()),
        Value::TextList(items) => match write_strings(items) {
            Some(quoted) => Some(frame_array(&quoted)),
            None => None,
        },
        Value::TextMap(members) => match write_members(members) {
            Some(quoted) => Some(frame_object(&quoted)),
            None => None,
        },
        Value::Raw(raw) => Some(raw.clone()),
    }
}

/// Writes a document as a JSON text: an object with the fields in order.
pub fn write_document(document: &Document) -> (written: Option<String>)
    ensures
        match written {
            Some(text) => written_document(document@) == Some(text@),
            None => written_document(document@) is None,
        },
{
    let mut members: Vec<Entry<String>> = Vec::new();
    let mut i: usize = 0;
    while i < document.fields.len()
        invariant
            i <= document.fields.len(),
            members@.len() == i,
            forall|j: int|
                0 <= j < i ==> written_field(#[trigger] document@[j]) == Some(members@[j]@),
        decreases document.fields.len() - i,
    {
        let name = write_string(document.fields[i].key.as_str());
        let value = write_value(&document.fields[i].value);
        match (name, value) {
            (Some(key), Some(value)) => {
                assert(written_field(document@[i as int]) == Some((key@, value@)));
                members.push(Entry { key, value });
            },
            _ => {
                assert(written_field(document@[i as int]) is None);
                return None;
            },
        }
        i += 1;
    }
    assert(written_fields(document@)->0 =~= pairs(members@));
    Some(frame_object(&members))
}

} // verus!
