//! The data of the stream: samples, each one timestamped, ordered group of
//! numeric values.
//!
//! The relay never computes on a value. It carries each one as the 64 bits of
//! its binary floating-point representation, exactly as parsed, and the
//! timestamp as whole nanoseconds since the start of the process.

use vstd::prelude::*;

verus! {

/// One sample of the stream.
#[derive(Debug, Clone, PartialEq, Eq)]
pub struct Data {
    /// Nanoseconds between the start of the process and the arrival of the
    /// record.
    pub stamp: u64,
    /// The values of the record, in input order, each as the bits of a
    /// binary64 number.
    pub values: Vec<u64>,
}

/// What a [`Data`] is.
pub ghost struct DataModel {
    pub stamp: u64,
    pub values: Seq<u64>,
}

impl View for Data {
    type V = DataModel;

    open spec fn view(&self) -> DataModel {
        DataModel { stamp: self.stamp, values: self.values@ }
    }
}

/// Every field of the record parsed as a number.
pub open spec fn well_formed(fields: Seq<Option<u64>>) -> bool {
    forall|i: int| 0 <= i < fields.len() ==> (#[trigger] fields[i]) is Some
}

/// The numbers of a record, in input order.
pub open spec fn numbers(fields: Seq<Option<u64>>) -> Seq<u64> {
    Seq::new(fields.len(), |i: int| fields[i].unwrap())
}

/// The sample that a record gives at a point in time, if the record is well
/// formed.
pub open spec fn assembled(stamp: u64, fields: Seq<Option<u64>>) -> Option<DataModel> {
    if well_formed(fields) {
        Some(DataModel { stamp, values: numbers(fields) })
    } else {
        None
    }
}

/// Builds the sample of one record from its parsed fields, where `None`
/// stands for a field that is not a number. A record with such a field gives
/// no sample.
pub fn assemble(stamp: u64, fields: &Vec<Option<u64>>) -> (sample: Option<Data>)
    ensures
        match sample {
            Some(sample) => assembled(stamp, fields@) == Some(sample@),
            None => assembled(stamp, fields@) is None,
        },
{
    let mut values: Vec<u64> = Vec::new();
    let mut i: usize = 0;
    while i < fields.len()
        invariant
            i <= fields@.len(),
            values@.len() == i,
            forall|j: int| 0 <= j < i ==> (#[trigger] fields@[j]) == Some(values@[j]),
        decreases fields@.len() - i,
    {
        match fields[i] {
            Some(number) => {
                values.push(number);
            },
            None => {
                assert(!(fields@[i as int] is Some));
                return None;
            },
        }
        i += 1;
    }
    assert(values@ =~= numbers(fields@));
    Some(Data { stamp, values })
}

} // verus!
