//! Choosing the representation of the catalog from what the client says of
//! itself, and the reply to a request for the catalog.

use vstd::prelude::*;
use crate::catalog::{Catalog, StoreError};
use crate::codec::{decoded, decoded_all, encoded, lemma_decoded_all_insert};
use crate::entries::values_of;
use crate::json::{array_text, frame_array};
use crate::render::{
    lemma_payload_in_array, lemma_structured_of_nothing, lemma_title_on_page, plain_text,
    render_structured, render_terminal, spans_view, structured_text, terminal_spans, Span, Style,
};
use crate::text::{contains, has_run, lowercase, slice_view, texts, to_lower};

verus! {

/// The form in which the catalog is handed out.
#[derive(Clone, Copy, Debug, PartialEq, Eq)]
pub enum Representation {
    /// A JSON array of records.
    Structured,
    /// A page of text for a terminal.
    Terminal,
}

/// A client identifier, already in lower case, names a tool that runs in a
/// terminal.
pub open spec fn names_terminal_tool(lowered: Seq<char>) -> bool {
    has_run(lowered, "curl"@) || has_run(lowered, "wget"@)
}

/// The representation for an identifier that is already in lower case.
pub open spec fn representation_of_lowered(lowered: Seq<char>) -> Representation {
    if names_terminal_tool(lowered) {
        Representation::Terminal
    } else {
        Representation::Structured
    }
}

/// The representation for a client: terminal where its identifier, in lower
/// case, holds `curl` or `wget`; structured otherwise, and where the client
/// gave no identifier.
pub open spec fn representation_for(client: Option<Seq<char>>) -> Representation {
    match client {
        Some(identifier) => representation_of_lowered(lowercase(identifier)),
        None => Representation::Structured,
    }
}

/// Chooses the representation for an identifier that is already in lower
/// case.
pub fn classify_lowered(lowered: &str) -> (choice: Representation)
    ensures
        choice == representation_of_lowered(lowered@),
{
    if contains(lowered, "curl") || contains(lowered, "wget") {
        Representation::Terminal
    } else {
        Representation::Structured
    }
}

/// Chooses the representation for a client.
pub fn negotiate(client: Option<&str>) -> (choice: Representation)
    ensures
        choice == representation_for(slice_view(client)),
{
    match client {
        Some(identifier) => {
            let lowered = to_lower(identifier);
            classify_lowered(lowered.as_str())
        },
        None => Representation::Structured,
    }
}

/// The reply to a request for the catalog.
#[derive(Clone, Debug, PartialEq, Eq)]
pub enum Reply {
    /// A JSON array of records.
    Structured(String),
    /// A page for a terminal.
    Terminal(Vec<Span>),
    /// The store could not be read, or the records could not be written out.
    Failed,
}

/// What a `Reply` holds.
pub enum ReplyView {
    Structured(Seq<char>),
    Terminal(Seq<(Style, Seq<char>)>),
    Failed,
}

impl View for Reply {
    type V = ReplyView;

    open spec fn view(&self) -> ReplyView {
        match self {
            Reply::Structured(body) => ReplyView::Structured(body@),
            Reply::Terminal(page) => ReplyView::Terminal(spans_view(page@)),
            Reply::Failed => ReplyView::Failed,
        }
    }
}

/// The reply for a table and a client. A table that is not there gives an
/// empty array whoever asks. A table that is there gives its records, those
/// that decode, in the representation chosen for the client.
pub open spec fn reply_for(
    table: Option<Seq<(Seq<char>, Seq<char>)>>,
    client: Option<Seq<char>>,
) -> ReplyView {
    match table {
        None => ReplyView::Structured(array_text(Seq::empty())),
        Some(rows) => {
            let records = decoded_all(values_of(rows));
            match representation_for(client) {
                Representation::Terminal => ReplyView::Terminal(terminal_spans(records)),
                Representation::Structured => match structured_text(records) {
                    Some(body) => ReplyView::Structured(body),
                    None => ReplyView::Failed,
                },
            }
        },
    }
}

/// Answers a request for the catalog.
pub fn respond(catalog: &Catalog, client: Option<&str>) -> (reply: Reply)
    ensures
        reply@ == reply_for(catalog@, slice_view(client)),
{
    if !catalog.table_exists() {
        let nothing: Vec<String> = Vec::new();
        assert(texts(nothing@) =~= Seq::empty());
        return Reply::Structured(frame_array(&nothing));
    }
    let rituals = catalog.records();
    match negotiate(client) {
        Representation::Terminal => Reply::Terminal(render_terminal(&rituals)),
        Representation::Structured => match render_structured(&rituals) {
            Some(body) => Reply::Structured(body),
            None => Reply::Failed,
        },
    }
}

/// The reply where the store was read, and where reading it failed. A fault
/// of the store is never answered as if the catalog were empty.
pub open spec fn reply_to_read(
    read: Result<Option<Seq<(Seq<char>, Seq<char>)>>, StoreError>,
    client: Option<Seq<char>>,
) -> ReplyView {
    match read {
        Ok(table) => reply_for(table, client),
        Err(_) => ReplyView::Failed,
    }
}

/// The view of what reading the store gave.
pub open spec fn read_view(read: Result<Catalog, StoreError>) -> Result<
    Option<Seq<(Seq<char>, Seq<char>)>>,
    StoreError,
> {
    match read {
        Ok(catalog) => Ok(catalog@),
        Err(error) => Err(error),
    }
}

/// Answers a request for the catalog from what reading the store gave: the
/// catalog, or the fault for which it could not be read.
pub fn answer(read: &Result<Catalog, StoreError>, client: Option<&str>) -> (reply: Reply)
    ensures
        reply@ == reply_to_read(read_view(*read), slice_view(client)),
{
    match read {
        Ok(catalog) => respond(catalog, client),
        Err(_) => Reply::Failed,
    }
}

/// A store whose table is not there is answered with the empty array,
/// whoever asks.
pub proof fn lemma_reply_without_table(client: Option<Seq<char>>)
    ensures
        reply_for(None, client) == ReplyView::Structured("[]"@),
{
    lemma_structured_of_nothing();
}

/// A client that gives no identifier is answered in the structured form, and
/// so is every client whose identifier, in lower case, holds neither `curl`
/// nor `wget`; every other client is answered with the terminal page.
pub proof fn lemma_representation(client: Option<Seq<char>>)
    ensures
        representation_for(None) == Representation::Structured,
        client matches Some(identifier) ==> (representation_for(client)
            == Representation::Terminal <==> has_run(lowercase(identifier), "curl"@)
            || has_run(lowercase(identifier), "wget"@)),
{
}

/// A client that names a terminal tool is answered, where the table is
/// there, with a page whose text holds the name of every record of the
/// catalog; every other client with the array of the records' payloads.
pub proof fn lemma_reply_shows_records(
    rows: Seq<(Seq<char>, Seq<char>)>,
    client: Option<Seq<char>>,
    i: int,
)
    requires
        0 <= i < decoded_all(values_of(rows)).len(),
    ensures
        ({
            let record = decoded_all(values_of(rows))[i];
            match reply_for(Some(rows), client) {
                ReplyView::Terminal(page) => representation_for(client)
                    == Representation::Terminal && has_run(plain_text(page), record.name),
                ReplyView::Structured(body) => representation_for(client)
                    == Representation::Structured && encoded(record) is Some && has_run(
                    body,
                    encoded(record)->0,
                ),
                ReplyView::Failed => representation_for(client) == Representation::Structured,
            }
        }),
{
    let records = decoded_all(values_of(rows));
    lemma_title_on_page(records, i);
    lemma_payload_in_array(records, i);
}

/// A payload that does not decode, wherever its row stands in the table,
/// changes nothing of the reply.
pub proof fn lemma_reply_leaves_out_corrupt_row(
    rows: Seq<(Seq<char>, Seq<char>)>,
    at: int,
    row: (Seq<char>, Seq<char>),
    client: Option<Seq<char>>,
)
    requires
        0 <= at <= rows.len(),
    ensures
        decoded(row.1) is Err ==> reply_for(Some(rows.insert(at, row)), client) == reply_for(
            Some(rows),
            client,
        ),
{
    assert(values_of(rows.insert(at, row)) =~= values_of(rows).insert(at, row.1));
    lemma_decoded_all_insert(values_of(rows), at, row.1);
}

/// The media type of a reply's body; a reply that failed has no body.
pub open spec fn media_type_of(reply: ReplyView) -> Option<Seq<char>> {
    match reply {
        ReplyView::Structured(_) => Some("application/json"@),
        ReplyView::Terminal(_) => Some("text/plain; charset=utf-8"@),
        ReplyView::Failed => None,
    }
}

impl Reply {
    /// The media type of the reply's body.
    pub fn media_type(&self) -> (media: Option<&'static str>)
        ensures
            slice_view(media) == media_type_of(self@),
    {
        match self {
            Reply::Structured(_) => Some("application/json"),
            Reply::Terminal(_) => Some("text/plain; charset=utf-8"),
            Reply::Failed => None,
        }
    }
}

} // verus!
