//! Model of the seven named gauges and the publisher step.
//!
//! The metric registry itself lives outside the library; this model carries
//! the exact value each gauge was last set to, so the publisher's behaviour
//! is stated and proved here and the rim of the application only mirrors the
//! model into the registry. Gauges are overwrite-only: of a drained batch
//! only the last record's values stay visible.

use vstd::prelude::*;
use crate::buffer::SharedBuffer;
use crate::record::Dec64;
use crate::record::TelemetryRecord;

verus! {

/// The sentinel every gauge is seeded with before any data arrives: minus
/// ten, outside the physical range of every field, so "no data yet" is
/// visible on a dashboard.
pub open spec fn sentinel() -> Dec64 {
    Dec64 { neg: true, mant: 10, exp: 0 }
}

/// The current value of each of the seven gauges. The two duration gauges
/// hold the whole numbers of the record, as exact decimal values.
#[derive(Clone, Copy, Debug, PartialEq, Eq, Structural)]
pub struct GaugeSet {
    pub distance: Dec64,
    pub raw: Dec64,
    pub rssi: Dec64,
    pub fp_rssi: Dec64,
    pub round_time: Dec64,
    pub reply_time: Dec64,
    pub clock_offset: Dec64,
}

/// Every gauge at the sentinel.
pub open spec fn seeded() -> GaugeSet {
    GaugeSet {
        distance: sentinel(),
        raw: sentinel(),
        rssi: sentinel(),
        fp_rssi: sentinel(),
        round_time: sentinel(),
        reply_time: sentinel(),
        clock_offset: sentinel(),
    }
}

/// The gauge values publishing one record leaves behind.
pub open spec fn gauges_of(r: TelemetryRecord) -> GaugeSet {
    GaugeSet {
        distance: r.distance,
        raw: r.raw,
        rssi: r.rssi,
        fp_rssi: r.fp_rssi,
        round_time: Dec64 { neg: false, mant: r.round_time, exp: 0 },
        reply_time: Dec64 { neg: false, mant: r.reply_time, exp: 0 },
        clock_offset: r.clock_offset,
    }
}

impl GaugeSet {
    /// Registry bootstrap: each gauge described once and seeded with the
    /// sentinel, before any record is published.
    pub fn new() -> (g: GaugeSet)
        ensures
            g == seeded(),
    {
        let s = Dec64 { neg: true, mant: 10, exp: 0 };
        GaugeSet {
            distance: s,
            raw: s,
            rssi: s,
            fp_rssi: s,
            round_time: s,
            reply_time: s,
            clock_offset: s,
        }
    }

    /// Publish one record: every gauge overwritten with the record's
    /// corresponding field value.
    pub fn apply(&mut self, r: &TelemetryRecord)
        ensures
            *final(self) == gauges_of(*r),
    {
        self.distance = r.distance;
        self.raw = r.raw;
        self.rssi = r.rssi;
        self.fp_rssi = r.fp_rssi;
        self.round_time = Dec64::from_u64(r.round_time);
        self.reply_time = Dec64::from_u64(r.reply_time);
        self.clock_offset = r.clock_offset;
    }

    /// Publish a drained batch, every record in order. An empty batch is a
    /// no-op; otherwise only the last record's values stay visible, since
    /// gauges overwrite.
    pub fn publish_all(&mut self, recs: &Vec<TelemetryRecord>)
        ensures
            recs@.len() == 0 ==> *final(self) == *old(self),
            recs@.len() > 0 ==> *final(self) == gauges_of(recs@.last()),
    {
        let mut idx: usize = 0;
        while idx < recs.len()
            invariant
                idx <= recs@.len(),
                idx == 0 ==> *self == *old(self),
                idx > 0 ==> *self == gauges_of(recs@[idx - 1]),
            decreases recs@.len() - idx,
        {
            self.apply(&recs[idx]);
            idx = idx + 1;
        }
    }
}

/// One consumption cycle: atomically take every buffered record, publish
/// each in order, and hand the batch back so an unverified rim can mirror
/// the same updates into the process-wide registry. The buffer is left
/// empty; the gauges show the last drained record, or stay as they were
/// when nothing was buffered.
pub fn run_cycle(buf: &mut SharedBuffer, gauges: &mut GaugeSet) -> (drained: Vec<TelemetryRecord>)
    ensures
        drained@ == old(buf)@,
        final(buf)@ == Seq::<TelemetryRecord>::empty(),
        old(buf)@.len() == 0 ==> *final(gauges) == *old(gauges),
        old(buf)@.len() > 0 ==> *final(gauges) == gauges_of(old(buf)@.last()),
{
    let drained = buf.drain_all();
    gauges.publish_all(&drained);
    drained
}

} // verus!
