use culture_kernel::catalog::{encode_batch, Catalog, StoreError};
use culture_kernel::codec::{decode, encode};
use culture_kernel::entries::Entry;
use culture_kernel::ritual::Ritual;
use culture_kernel::text_map::TextMap;

fn ritual(id: &str, name: &str) -> Ritual {
    let mut script = TextMap::new();
    script.insert("trigger".to_string(), "on arrival".to_string());
    Ritual {
        id: id.to_string(),
        name: name.to_string(),
        origin_culture: "Origin".to_string(),
        category: "Category".to_string(),
        bug_fixed: "Bug".to_string(),
        mechanism: "Mechanism".to_string(),
        modern_script: script,
        ethical_guardrails: vec!["Guard".to_string()],
    }
}

#[test]
fn a_fresh_catalog_has_no_table_and_no_payloads() {
    let catalog = Catalog::absent();
    assert!(!catalog.table_exists());
    assert!(catalog.get_all().is_empty());
    assert!(catalog.rows().is_empty());
    assert!(catalog.records().is_empty());
}

#[test]
fn put_all_of_nothing_makes_the_table() {
    let mut catalog = Catalog::absent();
    assert_eq!(catalog.put_all(&Vec::new()), Ok(()));
    assert!(catalog.table_exists());
    assert!(catalog.get_all().is_empty());
}

#[test]
fn put_all_writes_each_record_under_its_id() {
    let mut catalog = Catalog::absent();
    let records = vec![ritual("A", "first"), ritual("B", "second")];
    assert_eq!(catalog.put_all(&records), Ok(()));
    let rows = catalog.rows();
    assert_eq!(rows.len(), 2);
    assert_eq!(rows[0].key, "A");
    assert_eq!(rows[0].value, encode(&records[0]).unwrap());
    assert_eq!(rows[1].key, "B");
    assert_eq!(rows[1].value, encode(&records[1]).unwrap());
    assert_eq!(catalog.get_all(), vec![rows[0].value.clone(), rows[1].value.clone()]);
}

#[test]
fn put_all_lets_the_last_record_under_an_id_win() {
    let mut catalog = Catalog::absent();
    let records = vec![ritual("A", "old"), ritual("B", "other"), ritual("A", "new")];
    assert_eq!(catalog.put_all(&records), Ok(()));
    let rows = catalog.rows();
    assert_eq!(rows.len(), 2);
    assert_eq!(rows[0].key, "A");
    assert_eq!(decode(&rows[0].value).unwrap().name, "new");
    assert_eq!(rows[1].key, "B");
}

#[test]
fn put_all_twice_changes_nothing() {
    let mut catalog = Catalog::absent();
    let records = vec![ritual("A", "old"), ritual("B", "other"), ritual("A", "new")];
    catalog.put_all(&records).unwrap();
    let once = catalog.rows();
    catalog.put_all(&records).unwrap();
    assert_eq!(catalog.rows(), once);
}

#[test]
fn put_all_keeps_rows_under_other_ids() {
    let mut catalog = Catalog::from_rows(&vec![Entry { key: "Z".to_string(), value: "kept".to_string() }]);
    catalog.put_all(&vec![ritual("A", "a")]).unwrap();
    let rows = catalog.rows();
    assert_eq!(rows.len(), 2);
    assert_eq!(rows[0].key, "Z");
    assert_eq!(rows[0].value, "kept");
    assert_eq!(rows[1].key, "A");
}

#[test]
fn from_rows_keeps_one_row_for_each_key() {
    let rows = vec![
        Entry { key: "a".to_string(), value: "1".to_string() },
        Entry { key: "b".to_string(), value: "2".to_string() },
        Entry { key: "a".to_string(), value: "3".to_string() },
    ];
    let catalog = Catalog::from_rows(&rows);
    assert!(catalog.table_exists());
    assert_eq!(catalog.get_all(), vec!["3".to_string(), "2".to_string()]);
}

#[test]
fn records_pass_over_payloads_that_do_not_decode() {
    let good = encode(&ritual("A", "kept")).unwrap();
    let rows = vec![
        Entry { key: "A".to_string(), value: good },
        Entry { key: "B".to_string(), value: r#"{"id":"B","title":"an older schema"}"#.to_string() },
        Entry { key: "C".to_string(), value: "{{not json".to_string() },
    ];
    let catalog = Catalog::from_rows(&rows);
    let records = catalog.records();
    assert_eq!(records.len(), 1);
    assert_eq!(records[0].id, "A");
    assert_eq!(records[0].name, "kept");
}

#[test]
fn encode_batch_gives_a_row_for_each_record() {
    let records = vec![ritual("A", "a"), ritual("A", "b")];
    let batch = encode_batch(&records).unwrap();
    assert_eq!(batch.len(), 2);
    assert_eq!(batch[0].key, "A");
    assert_eq!(batch[1].key, "A");
    assert_ne!(batch[0].value, batch[1].value);
}

#[test]
fn store_errors_are_told_apart() {
    assert_ne!(StoreError::Io, StoreError::WriteFailed);
}
