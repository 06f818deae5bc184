//! The two renderings of the catalog: a JSON array of records, and a page
//! for a terminal, laid out as spans of text that each name their style.

use vstd::prelude::*;
use crate::codec::{encode, encoded};
use crate::entries::{pairs, Entry};
use crate::json::{array_text, frame_array};
use crate::ritual::{records, Ritual, RitualView};
use crate::text::{
    concat, has_run, joined, lemma_concat_has_item, lemma_joined_has_item, lemma_concat_has_part, lemma_concat_push,
    lemma_occurs_between,
    lemma_occurs_within, occurs_at, texts, to_upper, uppercase,
};

verus! {

/// How a span of a terminal page is meant to look.
#[derive(Clone, Copy, Debug, PartialEq, Eq)]
pub enum Style {
    /// Text as it is.
    Plain,
    /// The border of the page's header.
    Frame,
    /// The title of the page.
    Banner,
    /// The name of a record.
    Title,
    /// The id of a record.
    Key,
    /// A remark set apart from the text around it.
    Note,
    /// The heading of a listing.
    Heading,
    /// Where a record comes from, in a listing.
    Accent,
}

/// A stretch of text in one style.
#[derive(Clone, Debug, PartialEq, Eq)]
pub struct Span {
    pub style: Style,
    pub text: String,
}

impl View for Span {
    type V = (Style, Seq<char>);

    open spec fn view(&self) -> (Style, Seq<char>) {
        (self.style, self.text@)
    }
}

/// The views of a sequence of spans.
pub open spec fn spans_view(spans: Seq<Span>) -> Seq<(Style, Seq<char>)> {
    spans.map_values(|span: Span| span@)
}

/// The texts of a sequence of spans.
pub open spec fn span_texts(spans: Seq<(Style, Seq<char>)>) -> Seq<Seq<char>> {
    spans.map_values(|span: (Style, Seq<char>)| span.1)
}

/// The text of a page without its styles.
pub open spec fn plain_text(spans: Seq<(Style, Seq<char>)>) -> Seq<char> {
    concat(span_texts(spans))
}

/// The header of the terminal page.
pub open spec fn header_spans() -> Seq<(Style, Seq<char>)> {
    seq![
        (Style::Frame, "╔════════════════════════════════════════════════╗"@),
        (Style::Plain, "\n"@),
        (Style::Plain, "║  "@),
        (Style::Banner, "CULTURE KERNEL :: ACTIVE RITUALS"@),
        (Style::Plain, "  ║\n"@),
        (Style::Frame, "╚════════════════════════════════════════════════╝"@),
        (Style::Plain, "\n\n"@),
    ]
}

/// One line of a record's script: the key in upper case, then the value.
pub open spec fn entry_spans(entry: (Seq<char>, Seq<char>)) -> Seq<(Style, Seq<char>)> {
    seq![
        (Style::Plain, "    - "@),
        (Style::Plain, uppercase(entry.0)),
        (Style::Plain, ": "@),
        (Style::Plain, entry.1),
        (Style::Plain, "\n"@),
    ]
}

/// The lines of a script, one for each entry.
pub open spec fn script_lines(script: Seq<(Seq<char>, Seq<char>)>) -> Seq<
    Seq<(Style, Seq<char>)>,
> {
    script.map_values(|entry: (Seq<char>, Seq<char>)| entry_spans(entry))
}

/// The lines of a record's block that stand before its script.
pub open spec fn record_head(record: RitualView) -> Seq<(Style, Seq<char>)> {
    seq![
        (Style::Plain, "> "@),
        (Style::Title, record.name),
        (Style::Plain, "\n"@),
        (Style::Plain, "  ID:      "@),
        (Style::Key, record.id),
        (Style::Plain, "\n"@),
        (Style::Plain, "  ORIGIN:  "@),
        (Style::Plain, record.origin_culture),
        (Style::Plain, "\n"@),
        (Style::Plain, "  BUG FIX: "@),
        (Style::Note, record.bug_fixed),
        (Style::Plain, "\n"@),
        (Style::Plain, "  SCRIPT:\n"@),
    ]
}

/// The rule that closes a record's block.
pub open spec fn record_rule() -> Seq<(Style, Seq<char>)> {
    seq![(Style::Plain, "\n──────────────────────────────────────────────────\n\n"@)]
}

/// The block of one record: title, id, origin, the bug it fixes, every entry
/// of its script, and a rule.
pub open spec fn record_spans(record: RitualView) -> Seq<(Style, Seq<char>)> {
    record_head(record) + concat(script_lines(record.modern_script)) + record_rule()
}

/// The blocks of the records, one for each.
pub open spec fn record_blocks(records: Seq<RitualView>) -> Seq<Seq<(Style, Seq<char>)>> {
    records.map_values(|record: RitualView| record_spans(record))
}

/// The terminal page of a catalog: the header, then the block of each record
/// in order.
pub open spec fn terminal_spans(records: Seq<RitualView>) -> Seq<(Style, Seq<char>)> {
    header_spans() + concat(record_blocks(records))
}

/// One line of a listing: id, name and origin of a record.
pub open spec fn listing_line(record: RitualView) -> Seq<(Style, Seq<char>)> {
    seq![
        (Style::Key, record.id),
        (Style::Plain, " - "@),
        (Style::Plain, record.name),
        (Style::Plain, " ("@),
        (Style::Accent, record.origin_culture),
        (Style::Plain, ")\n"@),
    ]
}

/// The lines of a listing, one for each record.
pub open spec fn listing_lines(records: Seq<RitualView>) -> Seq<Seq<(Style, Seq<char>)>> {
    records.map_values(|record: RitualView| listing_line(record))
}

/// The listing of a catalog: a heading, then one line for each record in
/// order.
pub open spec fn listing_spans(records: Seq<RitualView>) -> Seq<(Style, Seq<char>)> {
    seq![(Style::Heading, " AVAILABLE RITUALS "@), (Style::Plain, "\n"@)] + concat(
        listing_lines(records),
    )
}

/// The payloads of the records, where every one of them encodes.
pub open spec fn payloads_of(records: Seq<RitualView>) -> Option<Seq<Seq<char>>> {
    if forall|i: int| 0 <= i < records.len() ==> (#[trigger] encoded(records[i])) is Some {
        Some(Seq::new(records.len(), |i: int| encoded(records[i])->0))
    } else {
        None
    }
}

/// The structured rendering of a catalog: a JSON array of the records'
/// payloads in order, where every record encodes.
pub open spec fn structured_text(records: Seq<RitualView>) -> Option<Seq<char>> {
    match payloads_of(records) {
        Some(payloads) => Some(array_text(payloads)),
        None => None,
    }
}

/// The text of one line of a record's script.
pub open spec fn entry_text(entry: (Seq<char>, Seq<char>)) -> Seq<char> {
    "    - "@ + uppercase(entry.0) + ": "@ + entry.1 + "\n"@
}

/// The text of the spans of a script line is the line.
pub proof fn lemma_entry_text(entry: (Seq<char>, Seq<char>))
    ensures
        plain_text(entry_spans(entry)) == entry_text(entry),
{
    let none = Seq::<Seq<char>>::empty();
    let dash = none.push("    - "@);
    let key = dash.push(uppercase(entry.0));
    let colon = key.push(": "@);
    let value = colon.push(entry.1);
    let line = value.push("\n"@);
    assert(span_texts(entry_spans(entry)) =~= line);
    lemma_concat_push(none, "    - "@);
    lemma_concat_push(dash, uppercase(entry.0));
    lemma_concat_push(key, ": "@);
    lemma_concat_push(colon, entry.1);
    lemma_concat_push(value, "\n"@);
    assert(concat(line) =~= entry_text(entry));
}

/// Spans that occur on a page have their texts, one after the other, in the
/// page's text.
pub proof fn lemma_text_of_part(page: Seq<(Style, Seq<char>)>, part: Seq<(Style, Seq<char>)>)
    requires
        has_run(page, part),
    ensures
        has_run(plain_text(page), plain_text(part)),
{
    let at = choose|at: int| occurs_at(page, part, at);
    assert(span_texts(page).subrange(at, at + span_texts(part).len()) =~= span_texts(part)) by {
        assert(page.subrange(at, at + part.len()) == part);
        assert forall|k: int| 0 <= k < part.len() implies #[trigger] span_texts(page).subrange(
            at,
            at + part.len(),
        )[k] == span_texts(part)[k] by {
            assert(page.subrange(at, at + part.len())[k] == page[at + k]);
        }
    }
    assert(occurs_at(span_texts(page), span_texts(part), at));
    lemma_concat_has_part(span_texts(page), span_texts(part));
}

/// The block of every record stands on the terminal page.
pub proof fn lemma_block_on_page(records: Seq<RitualView>, i: int)
    requires
        0 <= i < records.len(),
    ensures
        has_run(terminal_spans(records), record_spans(records[i])),
{
    let blocks = record_blocks(records);
    lemma_concat_has_item(blocks, i);
    lemma_occurs_between(header_spans(), concat(blocks), Seq::empty());
    assert(header_spans() + concat(blocks) + Seq::empty() =~= terminal_spans(records));
    lemma_occurs_within(terminal_spans(records), concat(blocks), record_spans(records[i]));
}

/// The name of every record stands on the terminal page, as a span in the
/// style of a title, and so in the page's text.
pub proof fn lemma_title_on_page(records: Seq<RitualView>, i: int)
    requires
        0 <= i < records.len(),
    ensures
        has_run(terminal_spans(records), seq![(Style::Title, records[i].name)]),
        has_run(plain_text(terminal_spans(records)), records[i].name),
{
    let record = records[i];
    let block = record_spans(record);
    let title = seq![(Style::Title, record.name)];
    assert(block.subrange(1, 2) =~= title);
    assert(occurs_at(block, title, 1));
    lemma_block_on_page(records, i);
    lemma_occurs_within(terminal_spans(records), block, title);
    lemma_text_of_part(terminal_spans(records), title);
    assert(plain_text(title) =~= record.name) by {
        assert(span_texts(title) =~= seq![record.name]);
        assert(seq![record.name].drop_last() =~= Seq::<Seq<char>>::empty());
        assert(concat(seq![record.name].drop_last()) =~= Seq::<char>::empty());
    }
}

/// Every entry of the script of every record stands on the terminal page:
/// its key in upper case and its value, on a line of the page's text.
pub proof fn lemma_script_on_page(records: Seq<RitualView>, i: int, j: int)
    requires
        0 <= i < records.len(),
        0 <= j < records[i].modern_script.len(),
    ensures
        has_run(terminal_spans(records), entry_spans(records[i].modern_script[j])),
        has_run(
            plain_text(terminal_spans(records)),
            entry_text(records[i].modern_script[j]),
        ),
{
    let record = records[i];
    let entry = record.modern_script[j];
    let block = record_spans(record);
    let lines = script_lines(record.modern_script);
    let line = entry_spans(entry);
    lemma_concat_has_item(lines, j);
    lemma_occurs_between(record_head(record), concat(lines), record_rule());
    lemma_occurs_within(block, concat(lines), line);
    lemma_block_on_page(records, i);
    lemma_occurs_within(terminal_spans(records), block, line);
    lemma_text_of_part(terminal_spans(records), line);
    lemma_entry_text(entry);
}

/// The payload of every record stands in the structured rendering.
pub proof fn lemma_payload_in_array(records: Seq<RitualView>, i: int)
    requires
        0 <= i < records.len(),
    ensures
        structured_text(records) matches Some(body) ==> encoded(records[i]) is Some
            && has_run(body, encoded(records[i])->0),
{
    if let Some(payloads) = payloads_of(records) {
        let inner = joined(payloads, ","@);
        assert(payloads[i] == encoded(records[i])->0);
        lemma_joined_has_item(payloads, ","@, i);
        lemma_occurs_between("["@, inner, "]"@);
        lemma_occurs_within(array_text(payloads), inner, payloads[i]);
    }
}

/// The structured rendering of no record is the empty array.
pub proof fn lemma_structured_of_nothing()
    ensures
        structured_text(Seq::empty()) == Some("[]"@),
        array_text(Seq::empty()) == "[]"@,
{
    reveal_strlit("[");
    reveal_strlit("]");
    reveal_strlit("[]");
    let none = Seq::<Seq<char>>::empty();
    assert(payloads_of(Seq::empty())->0 =~= none);
    assert(array_text(none) =~= "[]"@);
}

/// Appends a span.
fn push_span(out: &mut Vec<Span>, style: Style, text: &str)
    ensures
        spans_view(final(out)@) == spans_view(old(out)@).push((style, text@)),
{
    out.push(Span { style, text: String::from_str(text) });
    assert(spans_view(out@) =~= spans_view(old(out)@).push((style, text@)));
}

/// Appends the lines of a script.
fn push_script(out: &mut Vec<Span>, script: &Vec<Entry<String>>)
    ensures
        spans_view(final(out)@) == spans_view(old(out)@) + concat(script_lines(pairs(script@))),
{
    let mut i: usize = 0;
    assert(script_lines(pairs(script@)).take(0) =~= Seq::empty());
    assert(spans_view(out@) =~= spans_view(old(out)@) + concat(
        script_lines(pairs(script@)).take(0),
    ));
    while i < script.len()
        invariant
            i <= script.len(),
            spans_view(out@) == spans_view(old(out)@) + concat(
                script_lines(pairs(script@)).take(i as int),
            ),
        decreases script.len() - i,
    {
        let ghost before = spans_view(out@);
        let key = to_upper(script[i].key.as_str());
        push_span(out, Style::Plain, "    - ");
        push_span(out, Style::Plain, key.as_str());
        push_span(out, Style::Plain, ": ");
        push_span(out, Style::Plain, script[i].value.as_str());
        push_span(out, Style::Plain, "\n");
        proof {
            let lines = script_lines(pairs(script@));
            assert(lines.take(i + 1).drop_last() =~= lines.take(i as int));
            assert(lines.take(i + 1).last() == entry_spans(pairs(script@)[i as int]));
            assert(spans_view(out@) =~= before + entry_spans(pairs(script@)[i as int]));
            assert(spans_view(out@) =~= spans_view(old(out)@) + concat(lines.take(i + 1)));
        }
        i += 1;
    }
    assert(script_lines(pairs(script@)).take(script.len() as int) =~= script_lines(
        pairs(script@),
    ));
}

/// Appends the block of a record.
fn push_record(out: &mut Vec<Span>, ritual: &Ritual)
    ensures
        spans_view(final(out)@) == spans_view(old(out)@) + record_spans(ritual@),
{
    push_span(out, Style::Plain, "> ");
    push_span(out, Style::Title, ritual.name.as_str());
    push_span(out, Style::Plain, "\n");
    push_span(out, Style::Plain, "  ID:      ");
    push_span(out, Style::Key, ritual.id.as_str());
    push_span(out, Style::Plain, "\n");
    push_span(out, Style::Plain, "  ORIGIN:  ");
    push_span(out, Style::Plain, ritual.origin_culture.as_str());
    push_span(out, Style::Plain, "\n");
    push_span(out, Style::Plain, "  BUG FIX: ");
    push_span(out, Style::Note, ritual.bug_fixed.as_str());
    push_span(out, Style::Plain, "\n");
    push_span(out, Style::Plain, "  SCRIPT:\n");
    assert(spans_view(out@) =~= spans_view(old(out)@) + record_head(ritual@));
    push_script(out, ritual.modern_script.entries());
    push_span(out, Style::Plain, "\n──────────────────────────────────────────────────\n\n");
    assert(spans_view(out@) =~= spans_view(old(out)@) + record_spans(ritual@));
}

/// Lays out the terminal page of a catalog.
pub fn render_terminal(rituals: &Vec<Ritual>) -> (page: Vec<Span>)
    ensures
        spans_view(page@) == terminal_spans(records(rituals@)),
{
    let mut page: Vec<Span> = Vec::new();
    push_span(&mut page, Style::Frame, "╔════════════════════════════════════════════════╗");
    push_span(&mut page, Style::Plain, "\n");
    push_span(&mut page, Style::Plain, "║  ");
    push_span(&mut page, Style::Banner, "CULTURE KERNEL :: ACTIVE RITUALS");
    push_span(&mut page, Style::Plain, "  ║\n");
    push_span(&mut page, Style::Frame, "╚════════════════════════════════════════════════╝");
    push_span(&mut page, Style::Plain, "\n\n");
    assert(spans_view(page@) =~= header_spans());
    let mut i: usize = 0;
    assert(record_blocks(records(rituals@)).take(0) =~= Seq::empty());
    assert(spans_view(page@) =~= header_spans() + concat(
        record_blocks(records(rituals@)).take(0),
    ));
    while i < rituals.len()
        invariant
            i <= rituals.len(),
            spans_view(page@) == header_spans() + concat(
                record_blocks(records(rituals@)).take(i as int),
            ),
        decreases rituals.len() - i,
    {
        push_record(&mut page, &rituals[i]);
        proof {
            let blocks = record_blocks(records(rituals@));
            assert(blocks.take(i + 1).drop_last() =~= blocks.take(i as int));
            assert(blocks.take(i + 1).last() == record_spans(rituals@[i as int]@));
            assert(spans_view(page@) =~= header_spans() + concat(blocks.take(i + 1)));
        }
        i += 1;
    }
    assert(record_blocks(records(rituals@)).take(rituals.len() as int) =~= record_blocks(
        records(rituals@),
    ));
    page
}

/// Lays out the listing of a catalog.
pub fn render_listing(rituals: &Vec<Ritual>) -> (page: Vec<Span>)
    ensures
        spans_view(page@) == listing_spans(records(rituals@)),
{
    let mut page: Vec<Span> = Vec::new();
    push_span(&mut page, Style::Heading, " AVAILABLE RITUALS ");
    push_span(&mut page, Style::Plain, "\n");
    let ghost heading = spans_view(page@);
    assert(heading =~= seq![(Style::Heading, " AVAILABLE RITUALS "@), (Style::Plain, "\n"@)]);
    let mut i: usize = 0;
    assert(listing_lines(records(rituals@)).take(0) =~= Seq::empty());
    assert(spans_view(page@) =~= heading + concat(listing_lines(records(rituals@)).take(0)));
    while i < rituals.len()
        invariant
            i <= rituals.len(),
            spans_view(page@) == heading + concat(listing_lines(records(rituals@)).take(i as int)),
        decreases rituals.len() - i,
    {
        let ghost before = spans_view(page@);
        push_span(&mut page, Style::Key, rituals[i].id.as_str());
        push_span(&mut page, Style::Plain, " - ");
        push_span(&mut page, Style::Plain, rituals[i].name.as_str());
        push_span(&mut page, Style::Plain, " (");
        push_span(&mut page, Style::Accent, rituals[i].origin_culture.as_str());
        push_span(&mut page, Style::Plain, ")\n");
        proof {
            let lines = listing_lines(records(rituals@));
            assert(lines.take(i + 1).drop_last() =~= lines.take(i as int));
            assert(lines.take(i + 1).last() == listing_line(rituals@[i as int]@));
            assert(spans_view(page@) =~= before + listing_line(rituals@[i as int]@));
            assert(spans_view(page@) =~= heading + concat(lines.take(i + 1)));
        }
        i += 1;
    }
    assert(listing_lines(records(rituals@)).take(rituals.len() as int) =~= listing_lines(
        records(rituals@),
    ));
    page
}

/// The text of a page without its styles.
pub fn page_text(page: &Vec<Span>) -> (text: String)
    ensures
        text@ == plain_text(spans_view(page@)),
{
    let mut text = String::new();
    let mut i: usize = 0;
    assert(span_texts(spans_view(page@)).take(0) =~= Seq::empty());
    while i < page.len()
        invariant
            i <= page.len(),
            text@ == concat(span_texts(spans_view(page@)).take(i as int)),
        decreases page.len() - i,
    {
        proof {
            let all = span_texts(spans_view(page@));
            assert(all.take(i + 1).drop_last() =~= all.take(i as int));
            assert(all.take(i + 1).last() == page@[i as int].text@);
        }
        text.append(page[i].text.as_str());
        i += 1;
    }
    assert(span_texts(spans_view(page@)).take(page.len() as int) =~= span_texts(
        spans_view(page@),
    ));
    text
}

/// Writes the structured rendering of a catalog. The outcome is `None` only
/// where a record does not encode.
pub fn render_structured(rituals: &Vec<Ritual>) -> (body: Option<String>)
    ensures
        match body {
            Some(text) => structured_text(records(rituals@)) == Some(text@),
            None => structured_text(records(rituals@)) is None,
        },
{
    let mut payloads: Vec<String> = Vec::new();
    let mut i: usize = 0;
    while i < rituals.len()
        invariant
            i <= rituals.len(),
            payloads@.len() == i,
            forall|j: int|
                0 <= j < i ==> encoded(#[trigger] records(rituals@)[j]) == Some(payloads@[j]@),
        decreases rituals.len() - i,
    {
        match encode(&rituals[i]) {
            Some(payload) => {
                assert(encoded(records(rituals@)[i as int]) == Some(payload@));
                payloads.push(payload);
            },
            None => {
                assert(encoded(records(rituals@)[i as int]) is None);
                return None;
            },
        }
        i += 1;
    }
    assert(payloads_of(records(rituals@))->0 =~= texts(payloads@));
    Some(frame_array(&payloads))
}

} // verus!
