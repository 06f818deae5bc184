use culture_kernel::catalog::Catalog;
use culture_kernel::codec::decode;
use culture_kernel::entries::Entry;
use culture_kernel::seeding::{ensure_seeded, parse_definitions, seed, InitError};

const SOURCE: &str = r#"[
  {"id":"IGBO_01","name":"Venture Apprenticeship","origin_culture":"Igbo","category":"Talent",
   "bug_fixed":"Principal-Agent","mechanism":"Deferred Capital",
   "modern_script":{"trigger":"hire","contract":"five years"},
   "ethical_guardrails":["No unpaid labour"]},
  {"id":"JP_02","name":"Nemawashi","origin_culture":"Japan","category":"Decisions",
   "bug_fixed":"Surprise vetoes","mechanism":"Quiet consensus",
   "modern_script":{"timing":"before the meeting"},
   "ethical_guardrails":[]},
  {"id":"IGBO_01","name":"Venture Apprenticeship, revised","origin_culture":"Igbo","category":"Talent",
   "bug_fixed":"Principal-Agent","mechanism":"Deferred Capital",
   "modern_script":{"rules":"written"},
   "ethical_guardrails":["No unpaid labour","Exit at will"]}
]"#;

#[test]
fn parse_definitions_reads_every_record_in_order() {
    let records = parse_definitions(SOURCE).unwrap();
    assert_eq!(records.len(), 3);
    assert_eq!(records[0].id, "IGBO_01");
    assert_eq!(records[1].id, "JP_02");
    assert_eq!(records[2].name, "Venture Apprenticeship, revised");
    assert_eq!(records[0].modern_script.get("trigger"), Some(&"hire".to_string()));
    assert_eq!(records[0].modern_script.len(), 2);
}

#[test]
fn parse_definitions_refuses_a_source_with_one_bad_record() {
    let source = r#"[{"id":"A","name":"n","origin_culture":"o","category":"c","bug_fixed":"b","mechanism":"m","modern_script":{},"ethical_guardrails":[]},{"id":"B"}]"#;
    assert_eq!(parse_definitions(source), Err(InitError::SourceMalformed));
    assert_eq!(parse_definitions("{}"), Err(InitError::SourceMalformed));
    assert_eq!(parse_definitions("[1"), Err(InitError::SourceMalformed));
    assert_eq!(parse_definitions(""), Err(InitError::SourceMalformed));
    assert_eq!(parse_definitions("[]"), Ok(Vec::new()));
}

#[test]
fn seed_twice_gives_one_row_for_each_id_with_the_last_record() {
    let mut catalog = Catalog::absent();
    assert_eq!(seed(&mut catalog, Some(SOURCE)), Ok(()));
    let once = catalog.rows();
    assert_eq!(seed(&mut catalog, Some(SOURCE)), Ok(()));
    let twice = catalog.rows();
    assert_eq!(once, twice);
    assert_eq!(twice.len(), 2);
    assert_eq!(twice[0].key, "IGBO_01");
    assert_eq!(twice[1].key, "JP_02");
    let first = decode(&twice[0].value).unwrap();
    assert_eq!(first.name, "Venture Apprenticeship, revised");
    assert_eq!(first.ethical_guardrails.len(), 2);
}

#[test]
fn seed_without_a_source_fails_and_leaves_the_catalog() {
    let mut catalog = Catalog::absent();
    assert_eq!(seed(&mut catalog, None), Err(InitError::SourceMissing));
    assert!(!catalog.table_exists());
}

#[test]
fn seed_from_a_broken_source_fails_and_leaves_the_catalog() {
    let mut catalog = Catalog::absent();
    assert_eq!(seed(&mut catalog, Some("[{\"id\":\"A\"}]")), Err(InitError::SourceMalformed));
    assert!(!catalog.table_exists());
    let mut seeded = Catalog::from_rows(&vec![Entry { key: "K".to_string(), value: "v".to_string() }]);
    assert_eq!(seed(&mut seeded, Some("nonsense")), Err(InitError::SourceMalformed));
    assert_eq!(seeded.get_all(), vec!["v".to_string()]);
}

#[test]
fn ensure_seeded_seeds_a_catalog_without_a_table() {
    let mut catalog = Catalog::absent();
    assert_eq!(ensure_seeded(&mut catalog, Some(SOURCE)), Ok(()));
    assert!(catalog.table_exists());
    assert_eq!(catalog.records().len(), 2);
}

#[test]
fn ensure_seeded_leaves_a_catalog_with_a_table_alone() {
    let mut catalog = Catalog::from_rows(&Vec::new());
    assert_eq!(ensure_seeded(&mut catalog, Some(SOURCE)), Ok(()));
    assert!(catalog.get_all().is_empty());
    assert_eq!(ensure_seeded(&mut catalog, None), Ok(()));
    assert_eq!(ensure_seeded(&mut catalog, Some("broken")), Ok(()));
}

#[test]
fn ensure_seeded_fails_where_seeding_is_needed_and_cannot_be_done() {
    let mut catalog = Catalog::absent();
    assert_eq!(ensure_seeded(&mut catalog, None), Err(InitError::SourceMissing));
    assert_eq!(ensure_seeded(&mut catalog, Some("broken")), Err(InitError::SourceMalformed));
    assert!(!catalog.table_exists());
}
