//! The classifier, the assembler's boundary policy, the record stream over
//! hand-built events, and the real tokenizer behind it.

use irs_1094b_error_parser::extract::extract_records;
use irs_1094b_error_parser::extract::RecordAssembler;
use irs_1094b_error_parser::extract::XmlEvent;
use irs_1094b_error_parser::record_error::RecordErrorFieldType;
use irs_1094b_error_parser::record_name::RecordNameFieldType;
use irs_1094b_error_parser::xml::tokenize;
use irs_1094b_error_parser::RecordError;
use irs_1094b_error_parser::RecordName;
use irs_1094b_error_parser::XmlEvents;

fn start(name: &str) -> XmlEvent {
    XmlEvent::Start(name.to_string())
}

fn text(content: &str) -> XmlEvent {
    XmlEvent::Text(content.to_string())
}

#[test]
fn classifier_recognizes_name_vocabulary() {
    assert!(matches!(
        RecordNameFieldType::try_from("RecordId"),
        Some(RecordNameFieldType::RecordId)
    ));
    assert!(matches!(
        RecordNameFieldType::try_from("PersonFirstNm"),
        Some(RecordNameFieldType::FirstName)
    ));
    assert!(matches!(
        RecordNameFieldType::try_from("PersonLastNm"),
        Some(RecordNameFieldType::LastName)
    ));
    assert!(RecordNameFieldType::try_from("SomethingElse").is_none());
    assert!(RecordNameFieldType::try_from("recordid").is_none());
}

#[test]
fn classifier_recognizes_error_vocabulary() {
    assert!(matches!(
        RecordErrorFieldType::try_from("UniqueRecordId"),
        Some(RecordErrorFieldType::RecordId)
    ));
    assert!(matches!(
        RecordErrorFieldType::try_from("ns2:ErrorMessageTxt"),
        Some(RecordErrorFieldType::ErrorText)
    ));
    assert!(RecordErrorFieldType::try_from("ErrorMessageTxt").is_none());
}

#[test]
fn assembler_emits_one_record_per_well_formed_sequence() {
    let mut assembler: RecordAssembler<RecordName> = RecordAssembler::new();
    assert!(assembler.assign(RecordNameFieldType::RecordId, "12").is_none());
    assert!(assembler.assign(RecordNameFieldType::FirstName, "Ann").is_none());
    let done = assembler.assign(RecordNameFieldType::LastName, "Lee");
    let record = done.expect("last field must complete the record");
    assert_eq!(record.record_id, 12);
    assert_eq!(record.first_name, "Ann");
    assert_eq!(record.last_name, "Lee");
}

#[test]
fn assembler_resets_between_records() {
    let mut assembler: RecordAssembler<RecordName> = RecordAssembler::new();
    assert!(assembler.assign(RecordNameFieldType::RecordId, "1").is_none());
    assembler.assign(RecordNameFieldType::LastName, "Lee").unwrap();
    // the second record starts from the untouched state
    let second = assembler.assign(RecordNameFieldType::LastName, "Ng").unwrap();
    assert_eq!(second.record_id, 0);
    assert_eq!(second.first_name, "");
    assert_eq!(second.last_name, "Ng");
}

#[test]
fn assembler_normalizes_assigned_text() {
    let mut assembler: RecordAssembler<RecordName> = RecordAssembler::new();
    let record = assembler
        .assign(RecordNameFieldType::LastName, " Smith \n Jones ")
        .unwrap();
    assert_eq!(record.last_name, " Smith Jones ");
}

#[test]
fn stream_yields_records_lazily() {
    let events = vec![
        start("RecordId"),
        text("1"),
        start("PersonFirstNm"),
        text("Ann"),
        start("PersonLastNm"),
        text("Lee"),
        start("RecordId"),
        text("2"),
        start("PersonFirstNm"),
        text("Bo"),
        start("PersonLastNm"),
        text("Ng"),
    ];
    let mut stream: XmlEvents<RecordName> = XmlEvents::new(events);
    let first = stream.next().unwrap();
    assert_eq!(first.record_id, 1);
    assert_eq!(first.first_name, "Ann");
    assert_eq!(first.last_name, "Lee");
    let second = stream.next().unwrap();
    assert_eq!(second.record_id, 2);
    assert_eq!(second.first_name, "Bo");
    assert_eq!(second.last_name, "Ng");
    assert!(stream.next().is_none());
    assert!(stream.next().is_none());
}

#[test]
fn stream_ignores_unrecognized_tags_and_stray_text() {
    let events = vec![
        start("Noise"),
        text("ignored"),
        start("RecordId"),
        text("7"),
        start("Wrapper"),
        text("also ignored"),
        start("PersonLastNm"),
        text("Solo"),
        XmlEvent::End,
        XmlEvent::Other,
    ];
    let records: Vec<RecordName> = extract_records(events);
    assert_eq!(records.len(), 1);
    assert_eq!(records[0].record_id, 7);
    assert_eq!(records[0].first_name, "");
    assert_eq!(records[0].last_name, "Solo");
}

#[test]
fn stream_skips_malformed_events() {
    let events = vec![
        XmlEvent::Malformed,
        start("RecordId"),
        XmlEvent::Malformed,
        text("3"),
        start("PersonLastNm"),
        text("Kim"),
        XmlEvent::Malformed,
    ];
    let records: Vec<RecordName> = extract_records(events);
    assert_eq!(records.len(), 1);
    assert_eq!(records[0].record_id, 3);
    assert_eq!(records[0].last_name, "Kim");
}

#[test]
fn stream_discards_incomplete_trailing_record() {
    let events = vec![start("RecordId"), text("5"), start("PersonFirstNm"), text("Ed")];
    let records: Vec<RecordName> = extract_records(events);
    assert!(records.is_empty());
}

#[test]
fn stream_emits_nothing_without_assignments() {
    let events = vec![start("PersonLastNm"), start("RecordId"), XmlEvent::End];
    let records: Vec<RecordName> = extract_records(events);
    assert!(records.is_empty());
}

#[test]
fn error_records_extract_their_key_from_the_blob() {
    let events = vec![
        start("UniqueRecordId"),
        text("xx|AIRB|  31"),
        start("ns2:ErrorMessageTxt"),
        text("Missing SSN"),
    ];
    let records: Vec<RecordError> = extract_records(events);
    assert_eq!(records.len(), 1);
    assert_eq!(records[0].record_id, 31);
    assert_eq!(records[0].error_text, "Missing SSN");
}

#[test]
fn tokenizer_splits_elements_and_text() {
    let events = tokenize("<a>hi</a>");
    assert_eq!(events.len(), 3);
    assert!(matches!(&events[0], XmlEvent::Start(name) if name == "a"));
    assert!(matches!(&events[1], XmlEvent::Text(content) if content == "hi"));
    assert!(matches!(&events[2], XmlEvent::End));
}

#[test]
fn tokenizer_resolves_entities() {
    let events = tokenize("<a>x &amp; y</a>");
    assert!(matches!(&events[1], XmlEvent::Text(content) if content == "x & y"));
}

#[test]
fn tokenizer_keeps_qualified_names() {
    let events = tokenize("<ns2:ErrorMessageTxt>bad</ns2:ErrorMessageTxt>");
    assert!(matches!(&events[0], XmlEvent::Start(name) if name == "ns2:ErrorMessageTxt"));
}
