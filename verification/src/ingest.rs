//! The producer side: from parsed records to samples with their timestamps.

use crate::data::{assemble, numbers, well_formed, Data, DataModel};
use vstd::prelude::*;

verus! {

/// The producer side as mathematics: the timestamp of the latest sample.
pub ghost struct IngestModel {
    pub last: u64,
}

/// One record as the producer side gets it: the clock's reading when it
/// arrived, and its parsed fields.
pub ghost struct Reading {
    pub elapsed: u64,
    pub fields: Seq<Option<u64>>,
}

impl IngestModel {
    /// The producer side at the start of the process.
    pub open spec fn start() -> IngestModel {
        IngestModel { last: 0 }
    }

    /// The timestamp for a record that arrives when the clock reads
    /// `elapsed`: the reading, or the latest timestamp where the clock has
    /// gone back behind it.
    pub open spec fn stamp(self, elapsed: u64) -> u64 {
        if elapsed >= self.last {
            elapsed
        } else {
            self.last
        }
    }

    /// A record arrives. A well-formed record gives a sample and moves the
    /// latest timestamp; a malformed one gives nothing and changes nothing.
    pub open spec fn record(self, reading: Reading) -> (IngestModel, Option<DataModel>) {
        if well_formed(reading.fields) {
            (
                IngestModel { last: self.stamp(reading.elapsed) },
                Some(
                    DataModel {
                        stamp: self.stamp(reading.elapsed),
                        values: numbers(reading.fields),
                    },
                ),
            )
        } else {
            (self, None)
        }
    }

    /// The producer side after a run of records.
    pub open spec fn run(self, readings: Seq<Reading>) -> IngestModel
        decreases readings.len(),
    {
        if readings.len() == 0 {
            self
        } else {
            self.run(readings.drop_last()).record(readings.last()).0
        }
    }

    /// The samples that a run of records gives, in order.
    pub open spec fn emitted(self, readings: Seq<Reading>) -> Seq<DataModel>
        decreases readings.len(),
    {
        if readings.len() == 0 {
            Seq::empty()
        } else {
            let earlier = self.emitted(readings.drop_last());
            match self.run(readings.drop_last()).record(readings.last()).1 {
                Some(sample) => earlier.push(sample),
                None => earlier,
            }
        }
    }
}

/// The producer side of the relay.
pub struct Ingest {
    last: u64,
}

impl View for Ingest {
    type V = IngestModel;

    closed spec fn view(&self) -> IngestModel {
        IngestModel { last: self.last }
    }
}

impl Ingest {
    /// The producer side at the start of the process.
    pub fn new() -> (ingest: Ingest)
        ensures
            ingest@ == IngestModel::start(),
    {
        Ingest { last: 0 }
    }

    /// The timestamp of the latest sample, in nanoseconds since the start.
    pub fn last_stamp(&self) -> (stamp: u64)
        ensures
            stamp == self@.last,
    {
        self.last
    }

    /// Takes one record: the nanoseconds since the start of the process at
    /// its arrival, and its fields as parsed, `None` for a field that is not
    /// a number.
    ///
    /// A record whose fields are all numbers gives a sample with these
    /// numbers in input order and a timestamp that is never earlier than the
    /// one before. Any other record is skipped: it gives nothing and leaves
    /// no trace.
    pub fn record(&mut self, elapsed: u64, fields: &Vec<Option<u64>>) -> (sample: Option<Data>)
        ensures
            final(self)@ == old(self)@.record(Reading { elapsed, fields: fields@ }).0,
            match sample {
                Some(sample) => old(self)@.record(Reading { elapsed, fields: fields@ }).1 == Some(
                    sample@,
                ),
                None => old(self)@.record(Reading { elapsed, fields: fields@ }).1 is None,
            },
    {
        let stamp = if elapsed >= self.last {
            elapsed
        } else {
            self.last
        };
        let sample = assemble(stamp, fields);
        if sample.is_some() {
            self.last = stamp;
        }
        sample
    }
}

/// Timestamps never go back: no sample of a run is stamped earlier than the
/// sample before it, nor earlier than the latest timestamp at the start.
pub proof fn lemma_stamps_never_go_back(ingest: IngestModel, readings: Seq<Reading>)
    ensures
        ingest.last <= ingest.run(readings).last,
        forall|i: int|
            0 <= i < ingest.emitted(readings).len() ==> {
                &&& ingest.last <= (#[trigger] ingest.emitted(readings)[i]).stamp
                &&& ingest.emitted(readings)[i].stamp <= ingest.run(readings).last
            },
        forall|i: int, j: int|
            0 <= i <= j < ingest.emitted(readings).len() ==> (#[trigger] ingest.emitted(
                readings,
            )[i]).stamp <= (#[trigger] ingest.emitted(readings)[j]).stamp,
    decreases readings.len(),
{
    if readings.len() > 0 {
        lemma_stamps_never_go_back(ingest, readings.drop_last());
        let earlier = ingest.emitted(readings.drop_last());
        let before = ingest.run(readings.drop_last());
        let now = ingest.emitted(readings);
        assert forall|i: int| 0 <= i < now.len() implies {
            &&& ingest.last <= (#[trigger] now[i]).stamp
            &&& now[i].stamp <= ingest.run(readings).last
        } by {
            if i < earlier.len() {
                assert(now[i] == earlier[i]);
            }
        }
        assert forall|i: int, j: int| 0 <= i <= j < now.len() implies (#[trigger] now[i]).stamp <= (
        #[trigger] now[j]).stamp by {
            if j < earlier.len() {
                assert(now[i] == earlier[i]);
                assert(now[j] == earlier[j]);
            } else if i < earlier.len() {
                assert(now[i] == earlier[i]);
                assert(earlier[i].stamp <= before.last);
            }
        }
    }
}

/// A malformed record is skipped without a trace: the run gives the same
/// samples and ends in the same state as the run without that record, so
/// the records behind it are handled as if it had never come.
pub proof fn lemma_malformed_record_leaves_no_trace(
    ingest: IngestModel,
    before: Seq<Reading>,
    malformed: Reading,
    after: Seq<Reading>,
)
    requires
        !well_formed(malformed.fields),
    ensures
        ingest.run(before.push(malformed) + after) == ingest.run(before + after),
        ingest.emitted(before.push(malformed) + after) == ingest.emitted(before + after),
    decreases after.len(),
{
    let with = before.push(malformed) + after;
    let without = before + after;
    if after.len() == 0 {
        assert(with =~= before.push(malformed));
        assert(with.drop_last() =~= before);
        assert(without =~= before);
    } else {
        lemma_malformed_record_leaves_no_trace(ingest, before, malformed, after.drop_last());
        assert(with.drop_last() =~= before.push(malformed) + after.drop_last());
        assert(without.drop_last() =~= before + after.drop_last());
        assert(with.last() == after.last());
        assert(without.last() == after.last());
    }
}

/// A well-formed record always gives its sample, with its numbers in input
/// order, whatever came before it.
pub proof fn lemma_well_formed_record_is_emitted(ingest: IngestModel, reading: Reading)
    requires
        well_formed(reading.fields),
    ensures
        ingest.record(reading).1 == Some(
            DataModel {
                stamp: ingest.stamp(reading.elapsed),
                values: numbers(reading.fields),
            },
        ),
{
}

} // verus!
