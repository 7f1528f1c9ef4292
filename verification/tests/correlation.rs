//! The correlator, the report rows, and the end-to-end pipeline from two
//! documents to the combined rows.

use irs_1094b_error_parser::correlate::output_row;
use irs_1094b_error_parser::extract::extract_records;
use irs_1094b_error_parser::match_error_to_name;
use irs_1094b_error_parser::xml::tokenize;
use irs_1094b_error_parser::InputPathsError;
use irs_1094b_error_parser::Output;
use irs_1094b_error_parser::RecordError;
use irs_1094b_error_parser::RecordName;

fn name(id: usize, first: &str, last: &str) -> RecordName {
    RecordName { record_id: id, first_name: first.to_string(), last_name: last.to_string() }
}

fn error(id: usize, message: &str) -> RecordError {
    RecordError { record_id: id, error_text: message.to_string() }
}

#[test]
fn one_row_per_error_in_input_order() {
    let names = vec![name(1, "Ann", "Lee"), name(2, "Bo", "Ng")];
    let errors = vec![error(2, "late"), error(9, "lost"), error(1, "early")];
    let rows = match_error_to_name(&names, errors);
    assert_eq!(rows.len(), 3);
    assert_eq!(rows[0].error.record_id, 2);
    assert_eq!(rows[1].error.record_id, 9);
    assert_eq!(rows[2].error.record_id, 1);
}

#[test]
fn matched_rows_carry_the_name_unmatched_rows_none() {
    let names = vec![name(1, "Ann", "Lee")];
    let errors = vec![error(1, "a"), error(3, "b")];
    let rows = match_error_to_name(&names, errors);
    let matched = rows[0].name.as_ref().unwrap();
    assert_eq!(matched.first_name, "Ann");
    assert_eq!(matched.last_name, "Lee");
    assert!(rows[1].name.is_none());
}

#[test]
fn duplicate_keys_resolve_to_first_occurrence() {
    let names = vec![name(5, "First", "Wins"), name(5, "Second", "Loses")];
    let rows = match_error_to_name(&names, vec![error(5, "dup")]);
    let matched = rows[0].name.as_ref().unwrap();
    assert_eq!(matched.first_name, "First");
}

#[test]
fn empty_inputs_yield_empty_output() {
    let names: Vec<RecordName> = Vec::new();
    let rows = match_error_to_name(&names, Vec::new());
    assert!(rows.is_empty());
}

#[test]
fn rows_always_render_four_columns() {
    let with_name = Output::new(Some(name(1, "Ann", "Lee")), error(1, "Missing SSN"));
    let cols = output_row(&with_name);
    assert_eq!(cols, vec!["1", "Missing SSN", "Ann", "Lee"]);

    let without_name = Output::new(None, error(3, "Bad DOB"));
    let cols = output_row(&without_name);
    assert_eq!(cols, vec!["3", "Bad DOB", "", ""]);
}

#[test]
fn records_compare_by_key_alone() {
    assert_eq!(error(1, "one text"), error(1, "another text"));
    assert!(error(1, "a") < error(2, "b"));
    assert_eq!(name(4, "Ann", "Lee"), name(4, "Bo", "Ng"));
    assert!(name(3, "Z", "Z") < name(4, "A", "A"));
}

#[test]
fn missing_argument_message_names_the_usage() {
    let message = InputPathsError.message();
    assert!(message.contains("Missing required arguments"));
    assert!(message.contains("Usage:"));
}

#[test]
fn end_to_end_scenario() {
    let name_document = "<Names>\
        <Entry><RecordId>1</RecordId>\
        <PersonFirstNm>Ann</PersonFirstNm><PersonLastNm>Lee</PersonLastNm></Entry>\
        <Entry><RecordId>2</RecordId>\
        <PersonFirstNm>Bo</PersonFirstNm><PersonLastNm>Ng</PersonLastNm></Entry>\
        </Names>";
    let error_document = "<Errors>\
        <Err><UniqueRecordId>batch|form|1</UniqueRecordId>\
        <ns2:ErrorMessageTxt>Missing SSN</ns2:ErrorMessageTxt></Err>\
        <Err><UniqueRecordId>batch|form|3</UniqueRecordId>\
        <ns2:ErrorMessageTxt>Bad DOB</ns2:ErrorMessageTxt></Err>\
        </Errors>";

    let names: Vec<RecordName> = extract_records(tokenize(name_document));
    assert_eq!(names.len(), 2);
    let errors: Vec<RecordError> = extract_records(tokenize(error_document));
    assert_eq!(errors.len(), 2);

    let rows = match_error_to_name(&names, errors);
    assert_eq!(rows.len(), 2);

    let first = output_row(&rows[0]);
    assert_eq!(first, vec!["1", "Missing SSN", "Ann", "Lee"]);
    let second = output_row(&rows[1]);
    assert_eq!(second, vec!["3", "Bad DOB", "", ""]);
}

#[test]
fn wrapped_text_nodes_normalize_inside_records() {
    let document = "<R><RecordId>8</RecordId><PersonLastNm>Smith\n      Jones</PersonLastNm></R>";
    let records: Vec<RecordName> = extract_records(tokenize(document));
    assert_eq!(records.len(), 1);
    assert_eq!(records[0].last_name, "Smith Jones");
}
