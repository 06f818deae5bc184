use culture_kernel::codec::{from_document, to_document, DecodeError};
use culture_kernel::document::{
    read_document, read_members, read_strings, read_value, write_document, write_members,
    write_strings, write_value, Document, Value,
};
use culture_kernel::entries::Entry;
use culture_kernel::json::{frame_array, frame_object, JsonFault};
use culture_kernel::ritual::Ritual;
use culture_kernel::text_map::TextMap;

fn entry(key: &str, value: &str) -> Entry<String> {
    Entry { key: key.to_string(), value: value.to_string() }
}

fn field(name: &str, value: Value) -> Entry<Value> {
    Entry { key: name.to_string(), value }
}

fn text(value: &str) -> Value {
    Value::Text(value.to_string())
}

fn full_document() -> Document {
    Document {
        fields: vec![
            field("id", text("R1")),
            field("name", text("Name")),
            field("origin_culture", text("Origin")),
            field("category", text("Category")),
            field("bug_fixed", text("Bug")),
            field("mechanism", text("Mechanism")),
            field("modern_script", Value::TextMap(vec![entry("rules", "r"), entry("timing", "t")])),
            field("ethical_guardrails", Value::TextList(vec!["g1".to_string(), "g2".to_string()])),
        ],
    }
}

#[test]
fn read_value_tells_the_kinds_of_value_apart() {
    assert_eq!(read_value("\"a\\nb\""), text("a\nb"));
    assert_eq!(read_value("\"\\u00e9\""), text("é"));
    assert_eq!(read_value("[]"), Value::TextList(Vec::new()));
    assert_eq!(read_value(" [ \"x\" , \"y\" ] "), Value::TextList(vec!["x".to_string(), "y".to_string()]));
    assert_eq!(read_value("{}"), Value::TextMap(Vec::new()));
    assert_eq!(read_value("{\"b\":\"2\",\"a\":\"1\"}"), Value::TextMap(vec![entry("a", "1"), entry("b", "2")]));
    assert_eq!(read_value("[1]"), Value::Raw("[1]".to_string()));
    assert_eq!(read_value("{\"a\":[]}"), Value::Raw("{\"a\":[]}".to_string()));
    assert_eq!(read_value("12"), Value::Raw("12".to_string()));
    assert_eq!(read_value("null"), Value::Raw("null".to_string()));
    assert_eq!(read_value("oops"), Value::Raw("oops".to_string()));
}

#[test]
fn read_strings_needs_every_text_to_spell_a_string() {
    let raws = vec!["\"a\"".to_string(), "\"b\\\"\"".to_string()];
    assert_eq!(read_strings(&raws), Some(vec!["a".to_string(), "b\"".to_string()]));
    let raws = vec!["\"a\"".to_string(), "1".to_string()];
    assert_eq!(read_strings(&raws), None);
    assert_eq!(read_strings(&Vec::new()), Some(Vec::new()));
}

#[test]
fn read_members_keeps_the_names_and_reads_the_values() {
    let raws = vec![entry("k", "\"v\""), entry("l", "\"\"")];
    assert_eq!(read_members(&raws), Some(vec![entry("k", "v"), entry("l", "")]));
    let raws = vec![entry("k", "\"v\""), entry("l", "true")];
    assert_eq!(read_members(&raws), None);
}

#[test]
fn read_document_reads_each_member_of_an_object() {
    let document = read_document(r#"{"b":["x"],"a":"text","c":{"k":"v"},"d":1.5}"#).unwrap();
    assert_eq!(
        document,
        Document {
            fields: vec![
                field("a", text("text")),
                field("b", Value::TextList(vec!["x".to_string()])),
                field("c", Value::TextMap(vec![entry("k", "v")])),
                field("d", Value::Raw("1.5".to_string())),
            ],
        }
    );
}

#[test]
fn read_document_gives_the_cause_of_a_refusal() {
    assert_eq!(read_document("[]"), Err(JsonFault::Data));
    assert_eq!(read_document("3"), Err(JsonFault::Data));
    assert_eq!(read_document("{\"a\":1,}"), Err(JsonFault::Syntax));
    assert_eq!(read_document("{\"a\":1}}"), Err(JsonFault::Syntax));
    assert_eq!(read_document("{\"a\":"), Err(JsonFault::Eof));
    assert_eq!(read_document(""), Err(JsonFault::Eof));
}

#[test]
fn write_strings_and_members_quote_every_text() {
    let items = vec!["a".to_string(), "q\"t".to_string(), "tab\t".to_string()];
    assert_eq!(
        write_strings(&items),
        Some(vec!["\"a\"".to_string(), "\"q\\\"t\"".to_string(), "\"tab\\t\"".to_string()])
    );
    assert_eq!(
        write_members(&vec![entry("k", "v"), entry("a b", "")]),
        Some(vec![entry("\"k\"", "\"v\""), entry("\"a b\"", "\"\"")])
    );
}

#[test]
fn write_value_writes_each_kind_of_value() {
    assert_eq!(write_value(&text("a\\b")), Some("\"a\\\\b\"".to_string()));
    assert_eq!(write_value(&Value::TextList(Vec::new())), Some("[]".to_string()));
    assert_eq!(
        write_value(&Value::TextList(vec!["x".to_string(), "y".to_string()])),
        Some("[\"x\",\"y\"]".to_string())
    );
    assert_eq!(write_value(&Value::TextMap(Vec::new())), Some("{}".to_string()));
    assert_eq!(
        write_value(&Value::TextMap(vec![entry("k", "v"), entry("l", "w")])),
        Some("{\"k\":\"v\",\"l\":\"w\"}".to_string())
    );
    assert_eq!(write_value(&Value::Raw("[1, 2]".to_string())), Some("[1, 2]".to_string()));
}

#[test]
fn write_document_writes_an_object_in_the_order_of_the_fields() {
    let document = Document {
        fields: vec![field("z", text("1")), field("a", Value::Raw("null".to_string()))],
    };
    assert_eq!(write_document(&document), Some("{\"z\":\"1\",\"a\":null}".to_string()));
    assert_eq!(write_document(&Document { fields: Vec::new() }), Some("{}".to_string()));
}

#[test]
fn frames_put_brackets_and_commas_around_texts() {
    assert_eq!(frame_array(&Vec::new()), "[]");
    assert_eq!(frame_array(&vec!["1".to_string()]), "[1]");
    assert_eq!(frame_array(&vec!["1".to_string(), "\"a\"".to_string()]), "[1,\"a\"]");
    assert_eq!(frame_object(&Vec::new()), "{}");
    assert_eq!(frame_object(&vec![entry("\"k\"", "1"), entry("\"l\"", "[]")]), "{\"k\":1,\"l\":[]}");
}

#[test]
fn a_document_read_back_is_the_document_written_with_its_members_by_name() {
    let document = full_document();
    let written = write_document(&document).unwrap();
    let back = read_document(&written).unwrap();
    assert_eq!(back.fields.len(), 8);
    for wanted in &document.fields {
        let found = back.fields.iter().find(|f| f.key == wanted.key).unwrap();
        assert_eq!(found.value, wanted.value);
    }
}

#[test]
fn from_document_reads_the_eight_members() {
    let r = from_document(&full_document()).unwrap();
    assert_eq!(r.id, "R1");
    assert_eq!(r.name, "Name");
    assert_eq!(r.origin_culture, "Origin");
    assert_eq!(r.category, "Category");
    assert_eq!(r.bug_fixed, "Bug");
    assert_eq!(r.mechanism, "Mechanism");
    assert_eq!(r.modern_script.entries(), &vec![entry("rules", "r"), entry("timing", "t")]);
    assert_eq!(r.ethical_guardrails, vec!["g1".to_string(), "g2".to_string()]);
}

#[test]
fn from_document_gives_back_what_to_document_took() {
    let mut script = TextMap::new();
    script.insert("zeta".to_string(), "last letter first".to_string());
    script.insert("alpha".to_string(), "first letter last".to_string());
    let r = Ritual {
        id: "R".to_string(),
        name: "N".to_string(),
        origin_culture: "O".to_string(),
        category: "C".to_string(),
        bug_fixed: "B".to_string(),
        mechanism: "M".to_string(),
        modern_script: script,
        ethical_guardrails: vec!["one".to_string(), "two".to_string(), "one".to_string()],
    };
    assert_eq!(from_document(&to_document(&r)), Ok(r));
}

#[test]
fn from_document_passes_over_members_it_does_not_know() {
    let plain = from_document(&full_document()).unwrap();
    for at in 0..=8 {
        let mut wide = full_document();
        wide.fields.insert(at, field("legacy", Value::Raw("{\"deep\":[1,2]}".to_string())));
        wide.fields.insert(at, field("ID", text("not the id")));
        assert_eq!(from_document(&wide), Ok(plain.clone()));
    }
}

#[test]
fn from_document_refuses_a_document_that_lacks_a_member() {
    for at in 0..8 {
        let mut narrow = full_document();
        narrow.fields.remove(at);
        assert_eq!(from_document(&narrow), Err(DecodeError::SchemaMismatch));
    }
    assert_eq!(from_document(&Document { fields: Vec::new() }), Err(DecodeError::SchemaMismatch));
}

#[test]
fn from_document_refuses_a_member_of_another_kind() {
    let mut wrong = full_document();
    wrong.fields[0] = field("id", Value::Raw("17".to_string()));
    assert_eq!(from_document(&wrong), Err(DecodeError::SchemaMismatch));
    let mut wrong = full_document();
    wrong.fields[6] = field("modern_script", Value::TextList(Vec::new()));
    assert_eq!(from_document(&wrong), Err(DecodeError::SchemaMismatch));
    let mut wrong = full_document();
    wrong.fields[7] = field("ethical_guardrails", text("none"));
    assert_eq!(from_document(&wrong), Err(DecodeError::SchemaMismatch));
}

#[test]
fn from_document_takes_the_first_of_two_members_with_one_name() {
    let mut twice = full_document();
    twice.fields.push(field("id", text("later")));
    assert_eq!(from_document(&twice).unwrap().id, "R1");
}

#[test]
fn from_document_lets_the_last_entry_of_a_script_win() {
    let mut document = full_document();
    document.fields[6] = field(
        "modern_script",
        Value::TextMap(vec![entry("k", "old"), entry("l", "other"), entry("k", "new")]),
    );
    let r = from_document(&document).unwrap();
    assert_eq!(r.modern_script.entries(), &vec![entry("k", "new"), entry("l", "other")]);
}
