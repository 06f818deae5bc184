use culture_kernel::codec::{decode, encode, DecodeError};
use culture_kernel::ritual::Ritual;
use culture_kernel::text_map::TextMap;

fn sample() -> Ritual {
    let mut script = TextMap::new();
    script.insert("trigger".to_string(), "A new hire joins".to_string());
    script.insert("contract".to_string(), "Serve \"five\" years\n\tthen be set up".to_string());
    Ritual {
        id: "IGBO_01".to_string(),
        name: "Venture Apprenticeship".to_string(),
        origin_culture: "Igbo (Nigeria)".to_string(),
        category: "Talent & Equity".to_string(),
        bug_fixed: "Principal-Agent \\ problem".to_string(),
        mechanism: "Deferred Capital — ünïcødé".to_string(),
        modern_script: script,
        ethical_guardrails: vec!["No unpaid labour".to_string(), "Written terms".to_string()],
    }
}

#[test]
fn encode_writes_the_eight_members_in_order() {
    let mut script = TextMap::new();
    script.insert("k".to_string(), "v".to_string());
    let r = Ritual {
        id: "a".to_string(),
        name: "b".to_string(),
        origin_culture: "c".to_string(),
        category: "d".to_string(),
        bug_fixed: "e".to_string(),
        mechanism: "f".to_string(),
        modern_script: script,
        ethical_guardrails: vec!["g".to_string(), "h\"".to_string()],
    };
    assert_eq!(
        encode(&r).unwrap(),
        "{\"id\":\"a\",\"name\":\"b\",\"origin_culture\":\"c\",\"category\":\"d\",\"bug_fixed\":\"e\",\"mechanism\":\"f\",\"modern_script\":{\"k\":\"v\"},\"ethical_guardrails\":[\"g\",\"h\\\"\"]}"
    );
}

#[test]
fn decode_gives_back_what_encode_wrote() {
    let r = sample();
    let payload = encode(&r).unwrap();
    let back = decode(&payload).unwrap();
    assert_eq!(back.id, r.id);
    assert_eq!(back.name, r.name);
    assert_eq!(back.origin_culture, r.origin_culture);
    assert_eq!(back.category, r.category);
    assert_eq!(back.bug_fixed, r.bug_fixed);
    assert_eq!(back.mechanism, r.mechanism);
    assert_eq!(back.ethical_guardrails, r.ethical_guardrails);
    assert_eq!(back.modern_script.len(), 2);
    assert_eq!(back.modern_script.get("trigger"), r.modern_script.get("trigger"));
    assert_eq!(back.modern_script.get("contract"), r.modern_script.get("contract"));
}

#[test]
fn decode_passes_over_members_it_does_not_know() {
    let payload = r#" {"id":"x","extra":{"deep":[1,2,{"a":null}]},"name":"n","origin_culture":"o",
        "category":"c","bug_fixed":"b","mechanism":"m","modern_script":{"timing":"weekly"},
        "ethical_guardrails":[],"version":3,"tags":["a","b"],"flag":true} "#;
    let r = decode(payload).unwrap();
    assert_eq!(r.id, "x");
    assert_eq!(r.modern_script.get("timing"), Some(&"weekly".to_string()));
    assert!(r.ethical_guardrails.is_empty());
}

#[test]
fn decode_reports_a_missing_member_as_schema_mismatch() {
    let payload = r#"{"id":"x","name":"n","origin_culture":"o","category":"c","bug_fixed":"b","modern_script":{},"ethical_guardrails":[]}"#;
    assert_eq!(decode(payload), Err(DecodeError::SchemaMismatch));
}

#[test]
fn decode_reports_a_member_of_the_wrong_kind_as_schema_mismatch() {
    let payload = r#"{"id":7,"name":"n","origin_culture":"o","category":"c","bug_fixed":"b","mechanism":"m","modern_script":{},"ethical_guardrails":[]}"#;
    assert_eq!(decode(payload), Err(DecodeError::SchemaMismatch));
    let payload = r#"{"id":"x","name":"n","origin_culture":"o","category":"c","bug_fixed":"b","mechanism":"m","modern_script":{"a":1},"ethical_guardrails":[]}"#;
    assert_eq!(decode(payload), Err(DecodeError::SchemaMismatch));
    let payload = r#"{"id":"x","name":"n","origin_culture":"o","category":"c","bug_fixed":"b","mechanism":"m","modern_script":{},"ethical_guardrails":["a",null]}"#;
    assert_eq!(decode(payload), Err(DecodeError::SchemaMismatch));
}

#[test]
fn decode_reports_json_of_another_kind_as_schema_mismatch() {
    assert_eq!(decode("[1,2,3]"), Err(DecodeError::SchemaMismatch));
    assert_eq!(decode("\"text\""), Err(DecodeError::SchemaMismatch));
    assert_eq!(decode("{}"), Err(DecodeError::SchemaMismatch));
}

#[test]
fn decode_reports_broken_text_as_malformed() {
    assert_eq!(decode(""), Err(DecodeError::Malformed));
    assert_eq!(decode("{\"id\":"), Err(DecodeError::Malformed));
    assert_eq!(decode("{\"id\" \"x\"}"), Err(DecodeError::Malformed));
    assert_eq!(decode("{\"id\":\"x\"} trailing"), Err(DecodeError::Malformed));
    assert_eq!(decode("not json"), Err(DecodeError::Malformed));
}

#[test]
fn decode_keeps_the_script_as_a_mapping() {
    let r = sample();
    let back = decode(&encode(&r).unwrap()).unwrap();
    let mut keys: Vec<String> = back.modern_script.entries().iter().map(|e| e.key.clone()).collect();
    assert_eq!(keys, vec!["contract".to_string(), "trigger".to_string()]);
    keys.sort();
    let mut wanted: Vec<String> = r.modern_script.entries().iter().map(|e| e.key.clone()).collect();
    wanted.sort();
    assert_eq!(keys, wanted);
    for entry in r.modern_script.entries() {
        assert_eq!(back.modern_script.get(&entry.key), Some(&entry.value));
    }
}

#[test]
fn decode_takes_the_last_of_two_members_with_one_name() {
    let payload = r#"{"id":"first","id":"second","name":"n","origin_culture":"o","category":"c","bug_fixed":"b","mechanism":"m","modern_script":{"k":"1","k":"2"},"ethical_guardrails":[]}"#;
    let r = decode(payload).unwrap();
    assert_eq!(r.id, "second");
    assert_eq!(r.modern_script.len(), 1);
    assert_eq!(r.modern_script.get("k"), Some(&"2".to_string()));
}
