//! The JSON reader and writer at the edge of the library. Reading one level
//! of a JSON text and writing a JSON string are `serde_json`'s work; its
//! results are named here. Putting written parts between brackets and commas
//! is done in the open.

use serde_json::error::Category;
use serde_json::value::RawValue;
use std::collections::BTreeMap;
use vstd::prelude::*;
use crate::entries::{pairs, Entry};
use crate::text::{join, joined, text_view, texts};

verus! {

/// Why the JSON reader turned a text down: the cause that `serde_json`
/// reports for its error.
#[derive(Clone, Copy, Debug, PartialEq, Eq)]
pub enum JsonFault {
    /// Bytes could not be read or written.
    Io,
    /// The text is not well-formed JSON.
    Syntax,
    /// The text is JSON so far as it was read, but not of the kind asked for.
    Data,
    /// The text ended before the value did.
    Eof,
}

/// What `serde_json::from_str` makes of a text when asked for an object with
/// its members left unread: each member's name and the JSON text of its
/// value, or the cause of the refusal.
pub uninterp spec fn json_object(text: Seq<char>) -> Result<
    Seq<(Seq<char>, Seq<char>)>,
    JsonFault,
>;

/// What `serde_json::from_str` makes of a text when asked for an array with
/// its items left unread: the JSON text of each item, or the cause of the
/// refusal.
pub uninterp spec fn json_array(text: Seq<char>) -> Result<Seq<Seq<char>>, JsonFault>;

/// What `serde_json::from_str` makes of a text when asked for a string: the
/// string that the text spells, or the cause of the refusal.
pub uninterp spec fn json_string(text: Seq<char>) -> Result<Seq<char>, JsonFault>;

/// What `serde_json::to_string` makes of a string: the JSON text that spells
/// it, or nothing where the writer reports an error.
pub uninterp spec fn json_quoted(text: Seq<char>) -> Option<Seq<char>>;

/// The view of what reading an object gave.
pub open spec fn members_view(read: Result<Vec<Entry<String>>, JsonFault>) -> Result<
    Seq<(Seq<char>, Seq<char>)>,
    JsonFault,
> {
    match read {
        Ok(members) => Ok(pairs(members@)),
        Err(fault) => Err(fault),
    }
}

/// The view of what reading an array gave.
pub open spec fn items_view(read: Result<Vec<String>, JsonFault>) -> Result<
    Seq<Seq<char>>,
    JsonFault,
> {
    match read {
        Ok(items) => Ok(texts(items@)),
        Err(fault) => Err(fault),
    }
}

/// The view of what reading a string gave.
pub open spec fn string_view(read: Result<String, JsonFault>) -> Result<Seq<char>, JsonFault> {
    match read {
        Ok(text) => Ok(text@),
        Err(fault) => Err(fault),
    }
}

/// Calls `serde_json::from_str` for a `BTreeMap` from `String` to boxed
/// `RawValue`, and hands out each member as its name and the text of its
/// value, in the map's order. An error is handed out as the category that
/// `serde_json::Error::classify` gives it. The outcome depends on the text
/// alone and is named `json_object`; nothing more is claimed of it.
#[verifier::external_body]
pub(crate) fn read_object(text: &str) -> (read: Result<Vec<Entry<String>>, JsonFault>)
    ensures
        members_view(read) == json_object(text@),
{
    match serde_json::from_str::<BTreeMap<String, Box<RawValue>>>(text) {
        Ok(members) => Ok(
            members.into_iter().map(|(key, raw)| Entry { key, value: raw.get().to_owned() }).collect(),
        ),
        Err(e) => Err(
            match e.classify() {
                Category::Io => JsonFault::Io,
                Category::Syntax => JsonFault::Syntax,
                Category::Data => JsonFault::Data,
                Category::Eof => JsonFault::Eof,
            },
        ),
    }
}

/// Calls `serde_json::from_str` for a `Vec` of boxed `RawValue`, and hands
/// out the text of each item in order. An error is handed out as the category
/// that `serde_json::Error::classify` gives it. The outcome depends on the
/// text alone and is named `json_array`; nothing more is claimed of it.
#[verifier::external_body]
pub(crate) fn read_array(text: &str) -> (read: Result<Vec<String>, JsonFault>)
    ensures
        items_view(read) == json_array(text@),
{
    match serde_json::from_str::<Vec<Box<RawValue>>>(text) {
        Ok(items) => Ok(items.into_iter().map(|raw| raw.get().to_owned()).collect()),
        Err(e) => Err(
            match e.classify() {
                Category::Io => JsonFault::Io,
                Category::Syntax => JsonFault::Syntax,
                Category::Data => JsonFault::Data,
                Category::Eof => JsonFault::Eof,
            },
        ),
    }
}

/// Calls `serde_json::from_str` for a `String`. An error is handed out as the
/// category that `serde_json::Error::classify` gives it. The outcome depends
/// on the text alone and is named `json_string`; nothing more is claimed of
/// it.
#[verifier::external_body]
pub(crate) fn read_string(text: &str) -> (read: Result<String, JsonFault>)
    ensures
        string_view(read) == json_string(text@),
{
    match serde_json::from_str::<String>(text) {
        Ok(spelled) => Ok(spelled),
        Err(e) => Err(
            match e.classify() {
                Category::Io => JsonFault::Io,
                Category::Syntax => JsonFault::Syntax,
                Category::Data => JsonFault::Data,
                Category::Eof => JsonFault::Eof,
            },
        ),
    }
}

/// Calls `serde_json::to_string` on a string slice. The outcome depends on the
/// string alone and is named `json_quoted`; that the writer succeeds is not
/// claimed.
#[verifier::external_body]
pub(crate) fn write_string(text: &str) -> (quoted: Option<String>)
    ensures
        text_view(quoted) == json_quoted(text@),
{
    serde_json::to_string(text).ok()
}

/// A JSON array of items that are JSON texts already.
pub open spec fn array_text(items: Seq<Seq<char>>) -> Seq<char> {
    "["@ + joined(items, ","@) + "]"@
}

/// A member of a JSON object, of a name and a value that are JSON texts
/// already.
pub open spec fn member_text(member: (Seq<char>, Seq<char>)) -> Seq<char> {
    member.0 + ":"@ + member.1
}

/// The members of a JSON object, each written out.
pub open spec fn member_texts(members: Seq<(Seq<char>, Seq<char>)>) -> Seq<Seq<char>> {
    members.map_values(|m: (Seq<char>, Seq<char>)| member_text(m))
}

/// A JSON object of members whose names and values are JSON texts already.
pub open spec fn object_text(members: Seq<(Seq<char>, Seq<char>)>) -> Seq<char> {
    "{"@ + joined(member_texts(members), ","@) + "}"@
}

/// Writes a JSON array around items that are JSON texts already.
pub fn frame_array(items: &Vec<String>) -> (out: String)
    ensures
        out@ == array_text(texts(items@)),
{
    let mut out = String::from_str("[");
    let inner = join(items, ",");
    out.append(inner.as_str());
    out.append("]");
    out
}

/// Writes a JSON object around members whose names and values are JSON texts
/// already.
pub fn frame_object(members: &Vec<Entry<String>>) -> (out: String)
    ensures
        out@ == object_text(pairs(members@)),
{
    let mut parts: Vec<String> = Vec::new();
    let mut i: usize = 0;
    while i < members.len()
        invariant
            i <= members.len(),
            parts@.len() == i,
            forall|j: int| 0 <= j < i ==> parts@[j]@ == member_text(#[trigger] pairs(members@)[j]),
        decreases members.len() - i,
    {
        let mut part = members[i].key.clone();
        part.append(":");
        part.append(members[i].value.as_str());
        assert(part@ == member_text(pairs(members@)[i as int]));
        parts.push(part);
        i += 1;
    }
    assert(texts(parts@) =~= member_texts(pairs(members@)));
    let mut out = String::from_str("{");
    let inner = join(&parts, ",");
    out.append(inner.as_str());
    out.append("}");
    out
}

} // verus!
