//! Log records as the broker reads them: a resource and its counter, or
//! nothing usable.

use vstd::prelude::*;

verus! {

/// One record of the change log, decoded.
pub enum LogRecord {
    /// The record could not be decoded, or names no resource.
    Malformed,
    /// The resource `uri` is now at `counter`.
    Change { uri: Vec<u8>, counter: u64 },
}

/// A decoded log record as mathematics.
pub enum RecordView {
    Malformed,
    Change { uri: Seq<u8>, counter: u64 },
}

impl View for LogRecord {
    type V = RecordView;

    open spec fn view(&self) -> RecordView {
        match self {
            LogRecord::Malformed => RecordView::Malformed,
            LogRecord::Change { uri, counter } => RecordView::Change { uri: uri@, counter: *counter },
        }
    }
}

/// The views of a list of records.
pub open spec fn record_views(rs: Seq<LogRecord>) -> Seq<RecordView> {
    Seq::new(rs.len(), |i: int| rs[i]@)
}

/// The counter that a record's update count stands for: the count itself,
/// or its two's complement where it is negative.
pub open spec fn counter_from(u_count: i64) -> u64 {
    if u_count >= 0 {
        u_count as u64
    } else {
        (u_count + 0x1_0000_0000_0000_0000) as u64
    }
}

/// The record that the fields of a decoded payload stand for: a change
/// where the payload holds both the resource identifier and the update
/// count. A payload that lacks either is malformed: it names no counter that
/// the registry could take.
pub open spec fn decode_spec(uri: Option<Seq<u8>>, u_count: Option<i64>) -> RecordView {
    match (uri, u_count) {
        (Some(u), Some(c)) => RecordView::Change { uri: u, counter: counter_from(c) },
        _ => RecordView::Malformed,
    }
}

/// The view of an optional byte string.
pub open spec fn optional_bytes(o: Option<Vec<u8>>) -> Option<Seq<u8>> {
    match o {
        Some(v) => Some(v@),
        None => None,
    }
}

/// Turns an update count into a counter.
pub fn to_counter(u_count: i64) -> (c: u64)
    ensures
        c == counter_from(u_count),
{
    if u_count >= 0 {
        u_count as u64
    } else {
        let below: u64 = (-(u_count + 1)) as u64;
        u64::MAX - below
    }
}

/// Builds a record from the two fields that the broker needs of a payload:
/// the resource identifier and the update count, each as far as the payload
/// had it.
pub fn decode(uri: Option<Vec<u8>>, u_count: Option<i64>) -> (r: LogRecord)
    ensures
        r@ == decode_spec(optional_bytes(uri), u_count),
{
    match (uri, u_count) {
        (Some(u), Some(c)) => LogRecord::Change { uri: u, counter: to_counter(c) },
        _ => LogRecord::Malformed,
    }
}

} // verus!
