//! The hand-off buffer between the ingestion listener and the metrics
//! publisher.
//!
//! Records sit in arrival order. The listener appends one record per
//! successfully decoded payload; the publisher takes the whole content in
//! one atomic step once per cycle. The mutual exclusion around the buffer is
//! the caller's: the library states what each operation does to the content.

use vstd::prelude::*;
use crate::decode::decode;
use crate::decode::spec_decode;
use crate::record::TelemetryRecord;

verus! {

/// An ordered sequence of decoded records awaiting one drain.
pub struct SharedBuffer {
    records: Vec<TelemetryRecord>,
}

impl View for SharedBuffer {
    type V = Seq<TelemetryRecord>;

    closed spec fn view(&self) -> Seq<TelemetryRecord> {
        self.records@
    }
}

impl SharedBuffer {
    /// The buffer starts its life empty.
    pub fn new() -> (b: SharedBuffer)
        ensures
            b@ == Seq::<TelemetryRecord>::empty(),
    {
        let b = SharedBuffer { records: Vec::new() };
        proof {
            assert(b@ =~= Seq::<TelemetryRecord>::empty());
        }
        b
    }

    /// How many records await the next drain.
    pub fn len(&self) -> (n: usize)
        ensures
            n == self@.len(),
    {
        self.records.len()
    }

    /// Producer side: one record arrives at the back.
    pub fn append(&mut self, rec: TelemetryRecord)
        ensures
            final(self)@ == old(self)@.push(rec),
    {
        self.records.push(rec);
    }

    /// Consumer side: remove and return every buffered record in arrival
    /// order, leaving the buffer empty, as one atomic effect of the call.
    pub fn drain_all(&mut self) -> (out: Vec<TelemetryRecord>)
        ensures
            out@ == old(self)@,
            final(self)@ == Seq::<TelemetryRecord>::empty(),
    {
        let mut out: Vec<TelemetryRecord> = Vec::new();
        core::mem::swap(&mut out, &mut self.records);
        proof {
            assert(self@ =~= Seq::<TelemetryRecord>::empty());
        }
        out
    }

    /// Listener step for one inbound payload: decode it and append the
    /// record on success. A malformed payload is discarded and leaves the
    /// buffer exactly as it was.
    pub fn ingest(&mut self, payload: &[u8]) -> (ok: bool)
        ensures
            spec_decode(payload@) matches Some(rec) ==> ok && final(self)@ == old(self)@.push(rec),
            spec_decode(payload@) is None ==> !ok && final(self)@ == old(self)@,
    {
        match decode(payload) {
            Some(rec) => {
                self.append(rec);
                true
            },
            None => false,
        }
    }
}

/// The buffer content a run of appends leaves behind: each record of `recs`
/// pushed in turn onto `s`.
pub open spec fn push_all(s: Seq<TelemetryRecord>, recs: Seq<TelemetryRecord>) -> Seq<TelemetryRecord>
    decreases recs.len(),
{
    if recs.len() == 0 {
        s
    } else {
        push_all(s.push(recs[0]), recs.drop_first())
    }
}

/// Pushing records one by one appends them as a block.
pub proof fn lemma_push_all(s: Seq<TelemetryRecord>, recs: Seq<TelemetryRecord>)
    ensures
        push_all(s, recs) == s + recs,
    decreases recs.len(),
{
    if recs.len() == 0 {
        assert(s + recs =~= s);
    } else {
        lemma_push_all(s.push(recs[0]), recs.drop_first());
        assert(s.push(recs[0]) + recs.drop_first() =~= s + recs);
    }
}

/// Law: any run of appends on an empty buffer followed by one drain returns
/// exactly the appended records in append order; the drain leaves the buffer
/// empty, so a further drain with no append in between returns nothing.
/// The drain itself returns the buffer content and empties it, by the
/// contract of `SharedBuffer::drain_all`.
pub proof fn lemma_appends_then_drain(recs: Seq<TelemetryRecord>)
    ensures
        push_all(Seq::empty(), recs) == recs,
{
    lemma_push_all(Seq::empty(), recs);
    assert(Seq::empty() + recs =~= recs);
}

/// Law: across two consecutive drains no record is lost and none is seen
/// twice. The first drain returns the records buffered before it (`first`)
/// and leaves the buffer empty; the records appended after it (`between`)
/// are therefore exactly what the second drain returns; together the two
/// drains return every record once, in order, each at a single position.
pub proof fn lemma_two_drains_no_loss(first: Seq<TelemetryRecord>, between: Seq<TelemetryRecord>)
    ensures
        first + push_all(Seq::empty(), between) == first + between,
        forall|k: int|
            0 <= k < between.len() ==> (first + between)[first.len() + k] == between[k],
        forall|k: int| 0 <= k < first.len() ==> (first + between)[k] == first[k],
{
    lemma_appends_then_drain(between);
}

} // verus!
