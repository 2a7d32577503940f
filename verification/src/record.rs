//! Records of the input: comma-separated fields, one record to a line.

use crate::frame::text_views;
use vstd::prelude::*;

verus! {

#[verifier::external_type_specification]
#[verifier::external_body]
pub struct ExCsvError(csv::Error);

/// One record of the input, taken apart.
#[derive(Debug, PartialEq, Eq)]
pub enum Record {
    /// The fields of the record, in input order, trimmed.
    Fields(Vec<String>),
    /// The reader found a record and could not read it.
    Unreadable,
}

/// What a [`Record`] is.
pub ghost enum RecordModel {
    Fields(Seq<Seq<char>>),
    Unreadable,
}

impl View for Record {
    type V = RecordModel;

    open spec fn view(&self) -> RecordModel {
        match self {
            Record::Fields(fields) => RecordModel::Fields(text_views(fields@)),
            Record::Unreadable => RecordModel::Unreadable,
        }
    }
}

/// The views of a list of records, in order.
pub open spec fn record_views(records: Seq<Record>) -> Seq<RecordModel> {
    records.map_values(|record: Record| record@)
}

/// What the `csv` reader finds in `text`, record by record, in order: the
/// fields of a record, each without the whitespace around it, or the mark
/// that the reader found a record there and gave up on it. A text without a
/// record gives the empty list.
pub uninterp spec fn csv_records(text: Seq<char>) -> Seq<RecordModel>;

/// Builds a reader with `csv::ReaderBuilder` (`has_headers(false)`,
/// `trim(csv::Trim::All)`, `from_reader` on the bytes of `text`) and returns
/// every item of `csv::Reader::records`, the fields of each record copied
/// out.
///
/// Trusted: what the reader yields depends on the text alone, and is the
/// text's `csv_records`, item by item.
#[verifier::external_body]
fn all_records(text: &str) -> (found: Vec<Result<Vec<String>, csv::Error>>)
    ensures
        found@.len() == csv_records(text@).len(),
        forall|i: int|
            0 <= i < found@.len() ==> match #[trigger] found@[i] {
                Ok(fields) => csv_records(text@)[i] == RecordModel::Fields(text_views(fields@)),
                Err(_) => csv_records(text@)[i] == RecordModel::Unreadable,
            },
{
    let mut reader = csv::ReaderBuilder::new().has_headers(false).trim(csv::Trim::All).from_reader(
        text.as_bytes(),
    );
    let mut found = Vec::new();
    for item in reader.records() {
        found.push(
            match item {
                Ok(record) => Ok(record.iter().map(|field| field.to_string()).collect()),
                Err(error) => Err(error),
            },
        );
    }
    found
}

/// Says what the reader's answers mean for the relay: for each, fields to
/// parse, or a record to skip.
pub fn sort_records<E>(found: Vec<Result<Vec<String>, E>>) -> (records: Vec<Record>)
    ensures
        records@.len() == found@.len(),
        forall|i: int|
            0 <= i < found@.len() ==> match #[trigger] found@[i] {
                Ok(fields) => records@[i] == Record::Fields(fields),
                Err(_) => records@[i] == Record::Unreadable,
            },
{
    let mut found = found;
    let ghost all = found@;
    let mut reversed: Vec<Record> = Vec::new();
    while found.len() > 0
        invariant
            found@.len() + reversed@.len() == all.len(),
            found@ == all.take(found@.len() as int),
            forall|k: int|
                0 <= k < reversed@.len() ==> match all[all.len() - 1 - k] {
                    Ok(fields) => #[trigger] reversed@[k] == Record::Fields(fields),
                    Err(_) => reversed@[k] == Record::Unreadable,
                },
        decreases found@.len(),
    {
        let ghost at = found@.len() - 1;
        let item = found.pop();
        assert(found@ =~= all.take(at));
        match item {
            Some(Ok(fields)) => {
                reversed.push(Record::Fields(fields));
            },
            Some(Err(_)) => {
                reversed.push(Record::Unreadable);
            },
            None => {},
        }
    }
    let mut records: Vec<Record> = Vec::new();
    while reversed.len() > 0
        invariant
            reversed@.len() + records@.len() == all.len(),
            forall|k: int|
                0 <= k < reversed@.len() ==> match all[all.len() - 1 - k] {
                    Ok(fields) => #[trigger] reversed@[k] == Record::Fields(fields),
                    Err(_) => reversed@[k] == Record::Unreadable,
                },
            forall|i: int|
                0 <= i < records@.len() ==> match all[i] {
                    Ok(fields) => #[trigger] records@[i] == Record::Fields(fields),
                    Err(_) => records@[i] == Record::Unreadable,
                },
        decreases reversed@.len(),
    {
        match reversed.pop() {
            Some(record) => {
                records.push(record);
            },
            None => {},
        }
    }
    records
}

/// Takes a text of the input apart into its records.
///
/// The text is read as comma-separated values; whitespace around a field
/// does not count. Mostly the text is one line and holds one record; an
/// empty line holds none, and a line with a carriage return in it holds
/// several. A record that cannot be read never stops the input: it is handed
/// out as unreadable in its place, and the caller goes on with the next.
pub fn read_records(text: &str) -> (records: Vec<Record>)
    ensures
        record_views(records@) == csv_records(text@),
{
    let found = all_records(text);
    let records = sort_records(found);
    assert(record_views(records@) =~= csv_records(text@)) by {
        assert forall|i: int| 0 <= i < records@.len() implies record_views(records@)[i]
            == csv_records(text@)[i] by {
            let item = found@[i];
            assert(records@[i]@ == csv_records(text@)[i]);
        }
    }
    records
}

} // verus!
