use sample_relay::ingest::Ingest;
use sample_relay::record::{read_records, sort_records, Record};
use sample_relay::data::{assemble, Data};

fn texts(fields: &[&str]) -> Vec<String> {
    fields.iter().map(|field| field.to_string()).collect()
}

#[test]
fn line_is_split_at_commas() {
    assert_eq!(read_records("1,2,3"), vec![Record::Fields(texts(&["1", "2", "3"]))]);
}

#[test]
fn whitespace_around_fields_does_not_count() {
    assert_eq!(
        read_records("0.644217687237611,  0.768421872844885"),
        vec![Record::Fields(texts(&["0.644217687237611", "0.768421872844885"]))]
    );
    assert_eq!(read_records("  7 ,\t8  , 9 "), vec![Record::Fields(texts(&["7", "8", "9"]))]);
}

#[test]
fn single_field_is_a_record() {
    assert_eq!(read_records("42"), vec![Record::Fields(texts(&["42"]))]);
}

#[test]
fn quoted_field_keeps_its_comma() {
    assert_eq!(read_records("\"1,5\",2"), vec![Record::Fields(texts(&["1,5", "2"]))]);
}

#[test]
fn empty_line_holds_no_record() {
    assert_eq!(read_records(""), vec![]);
    assert_eq!(read_records("\n"), vec![]);
}

#[test]
fn carriage_return_inside_a_line_parts_two_records() {
    assert_eq!(
        read_records("1,2\r3,4"),
        vec![Record::Fields(texts(&["1", "2"])), Record::Fields(texts(&["3", "4"]))]
    );
}

#[test]
fn every_record_of_a_text_is_read() {
    assert_eq!(
        read_records("1,2\n3,4\n5,6\n"),
        vec![
            Record::Fields(texts(&["1", "2"])),
            Record::Fields(texts(&["3", "4"])),
            Record::Fields(texts(&["5", "6"])),
        ]
    );
}

#[test]
fn record_of_another_length_in_the_same_text_is_unreadable() {
    assert_eq!(
        read_records("1,2\r3\r4,5"),
        vec![
            Record::Fields(texts(&["1", "2"])),
            Record::Unreadable,
            Record::Fields(texts(&["4", "5"])),
        ]
    );
}

#[test]
fn reader_answers_are_sorted() {
    let found: Vec<Result<Vec<String>, String>> =
        vec![Ok(texts(&["a"])), Err("broken".to_string()), Ok(texts(&["b", "c"]))];
    assert_eq!(
        sort_records(found),
        vec![Record::Fields(texts(&["a"])), Record::Unreadable, Record::Fields(texts(&["b", "c"]))]
    );
    let nothing: Vec<Result<Vec<String>, String>> = vec![];
    assert_eq!(sort_records(nothing), vec![]);
}

#[test]
fn well_formed_fields_give_a_sample() {
    let sample = assemble(17, &vec![Some(1), Some(2), Some(3)]);
    assert_eq!(sample, Some(Data { stamp: 17, values: vec![1, 2, 3] }));
}

#[test]
fn record_without_fields_gives_a_sample_without_values() {
    assert_eq!(assemble(0, &vec![]), Some(Data { stamp: 0, values: vec![] }));
}

#[test]
fn one_bad_field_spoils_the_record() {
    assert_eq!(assemble(1, &vec![Some(1), None, Some(3)]), None);
    assert_eq!(assemble(1, &vec![None]), None);
    assert_eq!(assemble(1, &vec![Some(1), Some(2), None]), None);
}

#[test]
fn malformed_record_is_skipped_and_the_next_is_delivered() {
    let mut ingest = Ingest::new();
    assert_eq!(ingest.record(10, &vec![Some(1)]), Some(Data { stamp: 10, values: vec![1] }));
    assert_eq!(ingest.record(20, &vec![None, Some(2)]), None);
    assert_eq!(ingest.last_stamp(), 10);
    assert_eq!(ingest.record(30, &vec![Some(3)]), Some(Data { stamp: 30, values: vec![3] }));
    assert_eq!(ingest.last_stamp(), 30);
}

#[test]
fn stamps_never_go_back() {
    let mut ingest = Ingest::new();
    assert_eq!(ingest.last_stamp(), 0);
    assert_eq!(ingest.record(100, &vec![Some(1)]).unwrap().stamp, 100);
    assert_eq!(ingest.record(90, &vec![Some(2)]).unwrap().stamp, 100);
    assert_eq!(ingest.record(100, &vec![Some(3)]).unwrap().stamp, 100);
    assert_eq!(ingest.record(101, &vec![Some(4)]).unwrap().stamp, 101);
    assert_eq!(ingest.record(u64::MAX, &vec![Some(5)]).unwrap().stamp, u64::MAX);
    assert_eq!(ingest.record(5, &vec![Some(6)]).unwrap().stamp, u64::MAX);
}

#[test]
fn text_fields_parse_or_fail_one_by_one() {
    let mut records = read_records("1.5, x, -2e3");
    assert_eq!(records.len(), 1);
    let fields = match records.remove(0) {
        Record::Fields(fields) => fields,
        other => panic!("unexpected {:?}", other),
    };
    let parsed: Vec<Option<u64>> =
        fields.iter().map(|field| field.parse::<f64>().ok().map(f64::to_bits)).collect();
    assert_eq!(parsed, vec![Some(1.5f64.to_bits()), None, Some((-2000f64).to_bits())]);
    assert_eq!(assemble(0, &parsed), None);
}
