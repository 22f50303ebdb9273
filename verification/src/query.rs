//! Rules of the query endpoint: which engine answers a request, how a
//! full-text query is brought into shape, and which resource identifiers ask
//! for the state of a queue.

use crate::text::{
    bytes_eq, contains_bytes, matches_at, occurs, occurs_at, push_bytes, replace_byte, replaced,
    to_vec,
};
use vstd::prelude::*;

verus! {

/// The engine that answers a query.
#[derive(Clone, Copy, Debug, PartialEq, Eq, Structural)]
pub enum Engine {
    Sparql,
    Sql,
    FullText,
}

/// What a resource identifier asks for.
pub enum Target {
    /// An individual of the storage.
    Individual,
    /// The state of the queue of the named consumer.
    QueueState(Vec<u8>),
    /// The state of a queue, but the identifier does not begin with the
    /// marker: the request is refused.
    Refused,
}

/// What a resource identifier asks for, as mathematics.
pub enum TargetView {
    Individual,
    QueueState(Seq<u8>),
    Refused,
}

impl View for Target {
    type V = TargetView;

    open spec fn view(&self) -> TargetView {
        match self {
            Target::Individual => TargetView::Individual,
            Target::QueueState(name) => TargetView::QueueState(name@),
            Target::Refused => TargetView::Refused,
        }
    }
}

/// The bytes `srv:queue-state-`, which mark a request for the state of a
/// queue.
pub open spec fn queue_state_prefix() -> Seq<u8> {
    seq![
        115u8, 114u8, 118u8, 58u8, 113u8, 117u8, 101u8, 117u8, 101u8, 45u8, 115u8, 116u8, 97u8,
        116u8, 101u8, 45u8,
    ]
}

/// The bytes `clickhouse`.
pub open spec fn clickhouse() -> Seq<u8> {
    seq![99u8, 108u8, 105u8, 99u8, 107u8, 104u8, 111u8, 117u8, 115u8, 101u8]
}

/// The engine for a request: SPARQL where the request holds a SPARQL query,
/// else SQL where it holds an SQL query, else the full-text search.
pub open spec fn engine_for(has_sparql: bool, has_sql: bool) -> Engine {
    if has_sparql {
        Engine::Sparql
    } else if has_sql {
        Engine::Sql
    } else {
        Engine::FullText
    }
}

/// True when the query holds one of `==`, `&&`, `||` and so is an
/// expression already.
pub open spec fn is_expression(q: Seq<u8>) -> bool {
    occurs(q, seq![61u8, 61u8]) || occurs(q, seq![38u8, 38u8]) || occurs(q, seq![124u8, 124u8])
}

/// A word wrapped into the expression `'*' == '<word>'`.
pub open spec fn wrapped(q: Seq<u8>) -> Seq<u8> {
    seq![39u8, 42u8, 39u8, 32u8, 61u8, 61u8, 32u8, 39u8] + q + seq![39u8]
}

/// A full-text query in shape: a query that is no expression is searched
/// for in every field, and line feeds become spaces.
pub open spec fn normalized_query(q: Seq<u8>) -> Seq<u8> {
    replaced(if is_expression(q) { q } else { wrapped(q) }, 10, 32)
}

/// What the identifier `uri` asks for.
pub open spec fn target_of(uri: Seq<u8>) -> TargetView {
    let prefix = queue_state_prefix();
    if !occurs(uri, prefix) {
        TargetView::Individual
    } else if occurs_at(uri, prefix, 0) {
        TargetView::QueueState(uri.subrange(prefix.len() as int, uri.len() as int))
    } else {
        TargetView::Refused
    }
}

/// Picks the engine for a request.
pub fn query(has_sparql: bool, has_sql: bool) -> (e: Engine)
    ensures
        e == engine_for(has_sparql, has_sql),
{
    if has_sparql {
        Engine::Sparql
    } else if has_sql {
        Engine::Sql
    } else {
        Engine::FullText
    }
}

/// Tells whether a stored query can be run: only those on `clickhouse`
/// can.
pub fn stored_query(source: &[u8]) -> (runs: bool)
    ensures
        runs == (source@ == clickhouse()),
{
    let name: [u8; 10] = [99, 108, 105, 99, 107, 104, 111, 117, 115, 101];
    assert(name@ =~= clickhouse());
    bytes_eq(source, name.as_slice())
}

/// Brings a full-text query into shape.
pub fn direct_query(q: &[u8]) -> (r: Vec<u8>)
    ensures
        r@ == normalized_query(q@),
{
    let eq: [u8; 2] = [61, 61];
    let and: [u8; 2] = [38, 38];
    let or: [u8; 2] = [124, 124];
    assert(eq@ =~= seq![61u8, 61u8]);
    assert(and@ =~= seq![38u8, 38u8]);
    assert(or@ =~= seq![124u8, 124u8]);
    if contains_bytes(q, eq.as_slice()) || contains_bytes(q, and.as_slice()) || contains_bytes(
        q,
        or.as_slice(),
    ) {
        replace_byte(q, 10, 32)
    } else {
        let head: [u8; 8] = [39, 42, 39, 32, 61, 61, 32, 39];
        let mut w: Vec<u8> = to_vec(head.as_slice());
        push_bytes(&mut w, q);
        w.push(39);
        assert(w@ =~= wrapped(q@));
        replace_byte(w.as_slice(), 10, 32)
    }
}

/// Tells what the identifier `uri` asks for.
pub fn get_individual(uri: &[u8]) -> (t: Target)
    ensures
        t@ == target_of(uri@),
{
    let prefix: [u8; 16] = [
        115, 114, 118, 58, 113, 117, 101, 117, 101, 45, 115, 116, 97, 116, 101, 45,
    ];
    assert(prefix@ =~= queue_state_prefix());
    if !contains_bytes(uri, prefix.as_slice()) {
        Target::Individual
    } else if matches_at(uri, prefix.as_slice(), 0) {
        Target::QueueState(to_vec(&uri[16..uri.len()]))
    } else {
        Target::Refused
    }
}

} // verus!
