use culture_kernel::catalog::{Catalog, StoreError};
use culture_kernel::codec::encode;
use culture_kernel::entries::Entry;
use culture_kernel::negotiation::{
    answer, classify_lowered, negotiate, respond, Reply, Representation,
};
use culture_kernel::render::{page_text, render_listing, render_structured, render_terminal, Span, Style};
use culture_kernel::ritual::Ritual;
use culture_kernel::text_map::TextMap;

fn ritual(id: &str, name: &str) -> Ritual {
    let mut script = TextMap::new();
    script.insert("straße".to_string(), "walk".to_string());
    script.insert("trigger".to_string(), "on arrival".to_string());
    Ritual {
        id: id.to_string(),
        name: name.to_string(),
        origin_culture: "Origin".to_string(),
        category: "Category".to_string(),
        bug_fixed: "Bug".to_string(),
        mechanism: "Mechanism".to_string(),
        modern_script: script,
        ethical_guardrails: vec!["Guard".to_string()],
    }
}

fn catalog_of(records: &Vec<Ritual>) -> Catalog {
    let mut catalog = Catalog::absent();
    catalog.put_all(records).unwrap();
    catalog
}

#[test]
fn curl_gets_the_terminal_page() {
    assert_eq!(negotiate(Some("curl/8.1.2")), Representation::Terminal);
    assert_eq!(negotiate(Some("Wget/1.21.4")), Representation::Terminal);
    assert_eq!(negotiate(Some("my-CURL-wrapper")), Representation::Terminal);
    assert_eq!(negotiate(Some("xxWGETxx")), Representation::Terminal);
}

#[test]
fn a_browser_gets_the_structured_form() {
    assert_eq!(
        negotiate(Some("Mozilla/5.0 (X11; Linux x86_64) AppleWebKit/537.36")),
        Representation::Structured
    );
    assert_eq!(negotiate(Some("")), Representation::Structured);
    assert_eq!(negotiate(Some("cur l")), Representation::Structured);
    assert_eq!(negotiate(Some("unknown")), Representation::Structured);
}

#[test]
fn a_client_without_identifier_gets_the_structured_form() {
    assert_eq!(negotiate(None), Representation::Structured);
}

#[test]
fn classify_lowered_looks_for_the_names_as_they_are() {
    assert_eq!(classify_lowered("curl"), Representation::Terminal);
    assert_eq!(classify_lowered("a wget b"), Representation::Terminal);
    assert_eq!(classify_lowered("CURL"), Representation::Structured);
    assert_eq!(classify_lowered("wge"), Representation::Structured);
}

#[test]
fn the_terminal_page_of_one_record() {
    let mut script = TextMap::new();
    script.insert("trigger".to_string(), "on arrival".to_string());
    let r = Ritual {
        id: "A1".to_string(),
        name: "Name".to_string(),
        origin_culture: "Origin".to_string(),
        category: "Category".to_string(),
        bug_fixed: "Bug".to_string(),
        mechanism: "Mechanism".to_string(),
        modern_script: script,
        ethical_guardrails: Vec::new(),
    };
    let page = render_terminal(&vec![r]);
    let expected = format!(
        "{}\n║  CULTURE KERNEL :: ACTIVE RITUALS  ║\n{}\n\n> Name\n  ID:      A1\n  ORIGIN:  Origin\n  BUG FIX: Bug\n  SCRIPT:\n    - TRIGGER: on arrival\n\n{}\n\n",
        "╔════════════════════════════════════════════════╗",
        "╚════════════════════════════════════════════════╝",
        "──────────────────────────────────────────────────"
    );
    assert_eq!(page_text(&page), expected);
    assert!(page.contains(&Span { style: Style::Title, text: "Name".to_string() }));
    assert!(page.contains(&Span { style: Style::Key, text: "A1".to_string() }));
    assert!(page.contains(&Span { style: Style::Note, text: "Bug".to_string() }));
    assert!(page.contains(&Span { style: Style::Banner, text: "CULTURE KERNEL :: ACTIVE RITUALS".to_string() }));
}

#[test]
fn the_terminal_page_of_no_record_is_the_header() {
    let page = render_terminal(&Vec::new());
    let expected = format!(
        "{}\n║  CULTURE KERNEL :: ACTIVE RITUALS  ║\n{}\n\n",
        "╔════════════════════════════════════════════════╗",
        "╚════════════════════════════════════════════════╝"
    );
    assert_eq!(page_text(&page), expected);
}

#[test]
fn the_terminal_page_writes_script_keys_in_upper_case() {
    let text = page_text(&render_terminal(&vec![ritual("A", "a")]));
    assert!(text.contains("    - TRIGGER: on arrival\n"));
    assert!(text.contains("    - STRASSE: walk\n"));
}

#[test]
fn the_listing_has_a_line_for_each_record() {
    let page = render_listing(&vec![ritual("A", "first"), ritual("B", "second")]);
    assert_eq!(
        page_text(&page),
        " AVAILABLE RITUALS \nA - first (Origin)\nB - second (Origin)\n"
    );
    assert_eq!(page[0].style, Style::Heading);
    assert_eq!(page[2], Span { style: Style::Key, text: "A".to_string() });
    assert_eq!(page[6], Span { style: Style::Accent, text: "Origin".to_string() });
}

#[test]
fn the_structured_form_is_an_array_of_payloads() {
    let records = vec![ritual("A", "first"), ritual("B", "second")];
    let body = render_structured(&records).unwrap();
    let expected = format!("[{},{}]", encode(&records[0]).unwrap(), encode(&records[1]).unwrap());
    assert_eq!(body, expected);
    assert_eq!(render_structured(&Vec::new()).unwrap(), "[]");
}

#[test]
fn curl_is_answered_with_a_page_that_shows_every_title() {
    let catalog = catalog_of(&vec![ritual("A", "First Title"), ritual("B", "Second Title")]);
    match respond(&catalog, Some("curl/8.1.2")) {
        Reply::Terminal(page) => {
            let text = page_text(&page);
            assert!(text.contains("First Title"));
            assert!(text.contains("Second Title"));
        }
        other => panic!("expected a terminal page, got {:?}", other),
    }
}

#[test]
fn a_browser_is_answered_with_a_json_array() {
    let records = vec![ritual("A", "First Title"), ritual("B", "Second Title")];
    let catalog = catalog_of(&records);
    let expected = render_structured(&records).unwrap();
    assert_eq!(respond(&catalog, Some("Mozilla/5.0 (Windows NT 10.0)")), Reply::Structured(expected.clone()));
    assert_eq!(respond(&catalog, None), Reply::Structured(expected));
}

#[test]
fn a_store_without_table_is_answered_with_an_empty_array() {
    let catalog = Catalog::absent();
    assert_eq!(respond(&catalog, None), Reply::Structured("[]".to_string()));
    assert_eq!(respond(&catalog, Some("Mozilla/5.0")), Reply::Structured("[]".to_string()));
    assert_eq!(respond(&catalog, Some("curl/8.1.2")), Reply::Structured("[]".to_string()));
}

#[test]
fn a_corrupt_row_is_left_out_of_the_answer() {
    let good = ritual("A", "Kept");
    let rows = vec![
        Entry { key: "A".to_string(), value: encode(&good).unwrap() },
        Entry { key: "B".to_string(), value: r#"{"id":"B","title":"older schema","steps":["x"]}"#.to_string() },
    ];
    let catalog = Catalog::from_rows(&rows);
    assert_eq!(catalog.records().len(), 1);
    let expected = format!("[{}]", encode(&good).unwrap());
    assert_eq!(respond(&catalog, None), Reply::Structured(expected));
    match respond(&catalog, Some("curl/7.0")) {
        Reply::Terminal(page) => {
            let titles: Vec<&Span> = page.iter().filter(|s| s.style == Style::Title).collect();
            assert_eq!(titles.len(), 1);
            assert_eq!(titles[0].text, "Kept");
        }
        other => panic!("expected a terminal page, got {:?}", other),
    }
}

#[test]
fn replies_name_their_media_type() {
    assert_eq!(Reply::Structured("[]".to_string()).media_type(), Some("application/json"));
    assert_eq!(Reply::Terminal(Vec::new()).media_type(), Some("text/plain; charset=utf-8"));
    assert_eq!(Reply::Failed.media_type(), None);
}

#[test]
fn a_fault_of_the_store_is_not_answered_with_an_empty_catalog() {
    assert_eq!(answer(&Err(StoreError::Io), None), Reply::Failed);
    assert_eq!(answer(&Err(StoreError::Io), Some("curl/8.1.2")), Reply::Failed);
    assert_eq!(answer(&Err(StoreError::WriteFailed), Some("Mozilla/5.0")), Reply::Failed);
}

#[test]
fn a_store_that_was_read_is_answered_from_its_catalog() {
    let records = vec![ritual("A", "First Title")];
    let catalog = catalog_of(&records);
    let expected = respond(&catalog, Some("curl/8.1.2"));
    assert_eq!(answer(&Ok(catalog), Some("curl/8.1.2")), expected);
    assert_eq!(answer(&Ok(Catalog::absent()), None), Reply::Structured("[]".to_string()));
}
