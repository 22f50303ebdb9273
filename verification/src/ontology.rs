//! Helpers of the ontology loader: the prefix form of an IRI, and the shape
//! of date-time literals.

use vstd::hash_map::StringHashMap;
use vstd::prelude::*;
use vstd::string::{StringExecFns, StringSliceAdditionalSpecFns};
use vstd::utf8::{decode_utf8, encode_utf8, encode_utf8_decode_utf8, is_char_boundary};

verus! {

/// A date-time literal brought to the shape `YYYY-MM-DDTHH:MM:SS`, as far
/// as its length tells: of 24 bytes the last five go (fraction and zone), to
/// 10 bytes (a date) midnight is appended, and of any other length a final
/// `Z` goes. Everything else stays as it is.
pub open spec fn normalized_datetime(d: Seq<char>) -> Seq<char> {
    let b = encode_utf8(d);
    if b.len() == 24 {
        if is_char_boundary(b, 19) {
            decode_utf8(b.subrange(0, 19))
        } else {
            d
        }
    } else if b.len() == 10 {
        d + "T00:00:00"@
    } else if b.len() > 0 && b.last() == 90 && is_char_boundary(b, b.len() - 1) {
        decode_utf8(b.subrange(0, b.len() - 1))
    } else {
        d
    }
}

/// Normalizes a date-time literal.
pub fn normalize_datetime_string(d: &str) -> (r: String)
    ensures
        r@ == normalized_datetime(d@),
{
    let bytes = d.as_bytes();
    let n: usize = bytes.len();
    assert(d.spec_bytes() == encode_utf8(d@));
    if n == 24 {
        if d.is_char_boundary(19) {
            let (head, _) = d.split_at(19);
            proof {
                encode_utf8_decode_utf8(head@);
            }
            return head.to_owned();
        }
    } else if n == 10 {
        return d.to_owned().concat("T00:00:00");
    } else {
        if n > 0 && bytes[n - 1] == 90 {
            if d.is_char_boundary(n - 1) {
                let (head, _) = d.split_at(n - 1);
                proof {
                    encode_utf8_decode_utf8(head@);
                }
                return head.to_owned();
            }
        }
    }
    d.to_owned()
}

/// True for `#` and `/`, at which an IRI is cut into namespace and name.
pub open spec fn is_cut(b: u8) -> bool {
    b == 35 || b == 47
}

/// Position of the last `#` or `/`; -1 where there is none.
pub open spec fn last_cut(b: Seq<u8>) -> int
    decreases b.len(),
{
    if b.len() == 0 {
        -1
    } else if is_cut(b.last()) {
        b.len() - 1
    } else {
        last_cut(b.drop_last())
    }
}

/// The text after position `pos` of an IRI; empty where it does not start
/// at a character.
pub open spec fn local_name(b: Seq<u8>, pos: int) -> Seq<char> {
    if is_char_boundary(b, pos + 1) {
        decode_utf8(b.subrange(pos + 1, b.len() as int))
    } else {
        Seq::empty()
    }
}

/// The prefix form of an IRI. An IRI that is a namespace becomes its prefix
/// and a colon. Any other is cut at its last `#` or `/`: where the part
/// before the cut is a namespace, the result is the prefix, a colon and the
/// part after the cut. An IRI without a cut, or with an unknown namespace,
/// stays as it is.
pub open spec fn prefix_form(iri: Seq<char>, namespaces: Map<Seq<char>, String>) -> Seq<char> {
    if namespaces.contains_key(iri) {
        namespaces[iri]@ + ":"@
    } else {
        let b = encode_utf8(iri);
        let pos = last_cut(b);
        if pos < 0 {
            iri
        } else if !is_char_boundary(b, pos) {
            Seq::empty()
        } else {
            let head = decode_utf8(b.subrange(0, pos));
            if namespaces.contains_key(head) {
                namespaces[head]@ + ":"@ + local_name(b, pos)
            } else {
                iri
            }
        }
    }
}

/// Finds the last `#` or `/`.
fn find_last_cut(b: &[u8]) -> (r: Option<usize>)
    ensures
        match r {
            Some(p) => p < b@.len() && last_cut(b@) == p,
            None => last_cut(b@) == -1,
        },
{
    let mut i: usize = b.len();
    assert(b@.subrange(0, i as int) =~= b@);
    while i > 0
        invariant
            i <= b@.len(),
            last_cut(b@) == last_cut(b@.subrange(0, i as int)),
        decreases i,
    {
        let ghost cur = b@.subrange(0, i as int);
        assert(cur.last() == b@[i - 1]);
        assert(cur.drop_last() =~= b@.subrange(0, i - 1));
        if b[i - 1] == 35 || b[i - 1] == 47 {
            return Some(i - 1);
        }
        i -= 1;
    }
    None
}

/// Writes an IRI in prefix form, with the prefixes that `namespaces` gives.
pub fn to_prefix_form(iri: &str, namespaces: &StringHashMap<String>) -> (res: String)
    ensures
        res@ == prefix_form(iri@, namespaces@),
{
    if let Some(prefix) = namespaces.get(iri) {
        return prefix.clone().concat(":");
    }
    let bytes = iri.as_bytes();
    let n: usize = bytes.len();
    assert(iri.spec_bytes() == encode_utf8(iri@));
    let pos: usize = match find_last_cut(bytes) {
        Some(p) => p,
        None => {
            return iri.to_owned();
        },
    };
    assert(pos < n);
    if !iri.is_char_boundary(pos) {
        return String::new();
    }
    let (head, _) = iri.split_at(pos);
    proof {
        encode_utf8_decode_utf8(head@);
    }
    match namespaces.get(head) {
        Some(prefix) => {
            let res = prefix.clone().concat(":");
            if iri.is_char_boundary(pos + 1) {
                let (_, name) = iri.split_at(pos + 1);
                proof {
                    encode_utf8_decode_utf8(name@);
                }
                res.concat(name)
            } else {
                assert(res@ + Seq::<char>::empty() =~= res@);
                res
            }
        },
        None => iri.to_owned(),
    }
}

} // verus!
