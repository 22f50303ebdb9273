//! Rules of the indexer that feeds a triple store: how an identifier is
//! read from the queue of identifiers, what the prefix of an ontology is,
//! and what to make of the store's answer.

use crate::text::{contains_bytes, find_byte, occurs, position, to_vec};
use vstd::prelude::*;

verus! {

/// `','`
pub const COMMA: u8 = 44;

/// `':'`
pub const COLON: u8 = 58;

/// The answer `201 Created`.
pub const CREATED: u16 = 201;

/// The answer `204 No Content`.
pub const NO_CONTENT: u16 = 204;

/// What came of sending an individual to the store.
#[derive(Clone, Copy, Debug, PartialEq, Eq, Structural)]
pub enum Sent {
    /// The individual could not be written as Turtle; nothing was sent.
    NotWritten,
    /// The request failed.
    Failed,
    /// The store answered with this status.
    Status(u16),
}

/// What the queue is to do with the element.
#[derive(Clone, Copy, Debug, PartialEq, Eq, Structural)]
pub enum Verdict {
    /// Go on with the next element.
    Done,
    /// Try this element again.
    Recoverable,
    /// Give up.
    Fatal,
}

/// How many individuals were stored and how many were not.
#[derive(Clone, Copy, Debug, PartialEq, Eq, Structural)]
pub struct Counters {
    pub stored: u64,
    pub skipped: u64,
}

/// The bytes `//`.
pub open spec fn double_slash() -> Seq<u8> {
    seq![47u8, 47u8]
}

/// An element of the queue of identifiers, cut at its first comma into the
/// identifier and the rest. An element without a comma is not one.
pub open spec fn split_element(e: Seq<u8>) -> Option<(Seq<u8>, Seq<u8>)> {
    let p = position(e, COMMA);
    if p < e.len() {
        Some((e.subrange(0, p), e.subrange(p + 1, e.len() as int)))
    } else {
        None
    }
}

/// The number of colons at the end of `id`.
pub open spec fn trailing_colons(id: Seq<u8>) -> nat
    decreases id.len(),
{
    if id.len() > 0 && id.last() == COLON {
        1 + trailing_colons(id.drop_last())
    } else {
        0
    }
}

/// The prefix that an ontology's identifier stands for: the identifier
/// without the colons at its end.
pub open spec fn short_prefix(id: Seq<u8>) -> Seq<u8> {
    id.subrange(0, id.len() - trailing_colons(id))
}

/// True when `id` has a prefix of one to four bytes before its first colon
/// and holds no `//`: the identifier of an individual of the platform, not
/// an address.
pub open spec fn is_prefixed(id: Seq<u8>) -> bool {
    let p = position(id, COLON);
    0 < p < 5 && p < id.len() && !occurs(id, double_slash())
}

/// One more, up to the greatest value.
pub open spec fn bumped(n: u64) -> u64 {
    if n < u64::MAX {
        (n + 1) as u64
    } else {
        n
    }
}

/// The counters after the store's answer.
pub open spec fn counted(c: Counters, sent: Sent) -> Counters {
    match sent {
        Sent::NotWritten => c,
        Sent::Failed => Counters { stored: c.stored, skipped: bumped(c.skipped) },
        Sent::Status(code) => if code == CREATED || code == NO_CONTENT {
            Counters { stored: bumped(c.stored), skipped: c.skipped }
        } else {
            Counters { stored: c.stored, skipped: bumped(c.skipped) }
        },
    }
}

/// What to make of the store's answer for the individual `id`: a failed
/// request is fatal; a refusal is worth another try for an individual of
/// the platform and passed over for anything else.
pub open spec fn verdict_of(id: Seq<u8>, sent: Sent) -> Verdict {
    match sent {
        Sent::NotWritten => Verdict::Done,
        Sent::Failed => Verdict::Fatal,
        Sent::Status(code) => if code == CREATED || code == NO_CONTENT {
            Verdict::Done
        } else if is_prefixed(id) {
            Verdict::Recoverable
        } else {
            Verdict::Done
        },
    }
}

/// Cuts an element of the queue of identifiers at its first comma.
pub fn prepare_element_id(element: &[u8]) -> (r: Option<(Vec<u8>, Vec<u8>)>)
    ensures
        match r {
            Some((id, rest)) => split_element(element@) == Some((id@, rest@)),
            None => split_element(element@) is None,
        },
{
    let n: usize = element.len();
    let p: usize = find_byte(element, 0, COMMA);
    assert(element@.subrange(0, n as int) =~= element@);
    if p < n {
        Some((to_vec(&element[0..p]), to_vec(&element[p + 1..n])))
    } else {
        None
    }
}

/// Takes the colons off the end of an ontology's identifier.
pub fn update_prefix(id: &[u8]) -> (prefix: Vec<u8>)
    ensures
        prefix@ == short_prefix(id@),
{
    let mut end: usize = id.len();
    assert(id@.subrange(0, end as int) =~= id@);
    while end > 0 && id[end - 1] == COLON
        invariant
            end <= id@.len(),
            trailing_colons(id@) == (id@.len() - end) + trailing_colons(id@.subrange(0, end as int)),
        decreases end,
    {
        let ghost cur = id@.subrange(0, end as int);
        assert(cur.last() == id@[end - 1]);
        assert(cur.drop_last() =~= id@.subrange(0, end - 1));
        end -= 1;
    }
    proof {
        let cur = id@.subrange(0, end as int);
        if end > 0 {
            assert(cur.last() == id@[end - 1]);
        }
        assert(trailing_colons(cur) == 0);
    }
    to_vec(&id[0..end])
}

/// Tells whether `id` names an individual of the platform.
pub fn prefixed(id: &[u8]) -> (b: bool)
    ensures
        b == is_prefixed(id@),
{
    let n: usize = id.len();
    let p: usize = find_byte(id, 0, COLON);
    assert(id@.subrange(0, n as int) =~= id@);
    let slashes: [u8; 2] = [47, 47];
    assert(slashes@ =~= double_slash());
    p > 0 && p < 5 && p < n && !contains_bytes(id, slashes.as_slice())
}

/// Books the store's answer for the individual `id` and says what the queue
/// is to do with the element.
pub fn update(counters: &mut Counters, id: &[u8], sent: Sent) -> (v: Verdict)
    ensures
        *final(counters) == counted(*old(counters), sent),
        v == verdict_of(id@, sent),
{
    match sent {
        Sent::NotWritten => Verdict::Done,
        Sent::Failed => {
            if counters.skipped < u64::MAX {
                counters.skipped = counters.skipped + 1;
            }
            Verdict::Fatal
        },
        Sent::Status(code) => {
            if code == CREATED || code == NO_CONTENT {
                if counters.stored < u64::MAX {
                    counters.stored = counters.stored + 1;
                }
                Verdict::Done
            } else {
                if counters.skipped < u64::MAX {
                    counters.skipped = counters.skipped + 1;
                }
                if prefixed(id) {
                    Verdict::Recoverable
                } else {
                    Verdict::Done
                }
            }
        },
    }
}

} // verus!
