//! The table that gives every indexed field its slot number, and the file
//! image in which the table is kept.

use crate::text::{decimal, parse_unsigned, push_bytes, push_decimal, unsigned_decimal};
use crate::keymap::KeyMap;
use vstd::prelude::*;
use vstd::string::StringSliceAdditionalSpecFns;

verus! {

/// The CRC-32 checksum (IEEE) of a byte string, as `crc32fast` computes it.
pub uninterp spec fn crc32_of(data: Seq<u8>) -> u32;

/// Calls `crc32fast::hash`, which runs a fresh hasher over the whole of
/// `data`. The contract claims only that the checksum is a function of the
/// bytes.
#[verifier::external_body]
fn checksum(data: &[u8]) -> (sum: u32)
    ensures
        sum == crc32_of(data@),
{
    crc32fast::hash(data)
}

/// The hexadecimal digit for `d`, in upper case.
pub open spec fn hex_digit(d: nat) -> u8 {
    if d < 10 {
        (48 + d) as u8
    } else {
        (55 + d) as u8
    }
}

/// The shortest hexadecimal representation of `n`, in upper case.
pub open spec fn hex_upper(n: nat) -> Seq<u8>
    decreases n,
{
    if n < 16 {
        seq![hex_digit(n)]
    } else {
        hex_upper(n / 16).push(hex_digit(n % 16))
    }
}

/// One line of the table: the key in double quotes, a comma, the slot in
/// decimal, a line feed.
pub open spec fn line_of(key: Seq<u8>, slot: u32) -> Seq<u8> {
    seq![34u8] + key + seq![34u8, 44u8] + decimal(slot as nat) + seq![10u8]
}

/// The lines of a table, in order.
pub open spec fn lines_of(entries: Seq<(Seq<u8>, u32)>) -> Seq<u8>
    decreases entries.len(),
{
    if entries.len() == 0 {
        Seq::empty()
    } else {
        lines_of(entries.drop_last()) + line_of(entries.last().0, entries.last().1)
    }
}

/// The file image of a table: a header line with the checksum in
/// hexadecimal, in double quotes, a comma and the length of the lines in
/// decimal; then the lines.
pub open spec fn file_image(hash: u32, lines: Seq<u8>) -> Seq<u8> {
    seq![34u8] + hex_upper(hash as nat) + seq![34u8, 44u8] + decimal(lines.len()) + seq![10u8]
        + lines
}

/// The slot that `key` stands for: `#` followed by a decimal number names
/// that slot directly, any other key is looked up in the table. The empty
/// key has no slot.
pub open spec fn slot_of(table: Map<Seq<u8>, u32>, key: Seq<u8>) -> Option<u32> {
    if key.len() == 0 {
        None
    } else if key[0] == 35 {
        match unsigned_decimal(key.subrange(1, key.len() as int), u32::MAX as nat) {
            Some(v) => Some(v as u32),
            None => None,
        }
    } else if table.contains_key(key) {
        Some(table[key])
    } else {
        None
    }
}

/// The slot that a new key gets in a table of `len` keys.
pub open spec fn next_slot(len: nat) -> u32 {
    ((len + 1) % 0x1_0000_0000) as u32
}

/// Appends the upper-case hexadecimal representation of `n` to `out`.
pub fn push_hex_upper(out: &mut Vec<u8>, n: u32)
    ensures
        final(out)@ == old(out)@ + hex_upper(n as nat),
{
    let mut rev: Vec<u8> = Vec::new();
    let mut m: u32 = n;
    let first: u8 = (m % 16) as u8;
    rev.push(if first < 10 { 48 + first } else { 55 + first });
    m = m / 16;
    while m > 0
        invariant
            rev@.len() > 0,
            hex_upper(n as nat) =~= (if m > 0 {
                hex_upper(m as nat)
            } else {
                Seq::<u8>::empty()
            }) + rev@.reverse(),
        decreases m,
    {
        let ghost old_rev = rev@;
        let d: u8 = (m % 16) as u8;
        rev.push(if d < 10 { 48 + d } else { 55 + d });
        assert(rev@.reverse() =~= seq![hex_digit((m % 16) as nat)] + old_rev.reverse());
        m = m / 16;
    }
    let mut k: usize = rev.len();
    while k > 0
        invariant
            k <= rev@.len(),
            out@ == old(out)@ + rev@.reverse().subrange(0, rev@.len() - k),
        decreases k,
    {
        k -= 1;
        out.push(rev[k]);
        assert((old(out)@ + rev@.reverse().subrange(0, rev@.len() - k - 1)).push(rev@[k as int])
            =~= old(out)@ + rev@.reverse().subrange(0, rev@.len() - k));
    }
    assert(rev@.reverse().subrange(0, rev@.len() as int) =~= rev@.reverse());
}

/// Builds the file image from the lines of a table and their checksum.
pub fn render(lines: &[u8], hash: u32) -> (image: Vec<u8>)
    ensures
        image@ == file_image(hash, lines@),
{
    let mut image: Vec<u8> = Vec::new();
    image.push(34);
    push_hex_upper(&mut image, hash);
    image.push(34);
    image.push(44);
    push_decimal(&mut image, lines.len() as u64);
    image.push(10);
    push_bytes(&mut image, lines);
    assert(image@ =~= file_image(hash, lines@));
    image
}

/// The slot table of the full-text index.
pub struct Key2Slot {
    data: KeyMap<u32>,
    last_size_key2slot: usize,
}

impl View for Key2Slot {
    type V = Map<Seq<u8>, u32>;

    closed spec fn view(&self) -> Map<Seq<u8>, u32> {
        self.data.map()
    }
}

impl Default for Key2Slot {
    fn default() -> (t: Self)
        ensures
            t.wf(),
            t@ == Map::<Seq<u8>, u32>::empty(),
            t.entries() == Seq::<(Seq<u8>, u32)>::empty(),
            t.stored_size() == 0,
    {
        let t = Key2Slot { data: KeyMap::new(), last_size_key2slot: 0 };
        assert(t.entries() =~= Seq::<(Seq<u8>, u32)>::empty());
        t
    }
}

impl Key2Slot {
    /// No key occurs twice.
    pub closed spec fn wf(&self) -> bool {
        self.data.wf()
    }

    /// The keys with their slots, in the order in which they were added.
    pub closed spec fn entries(&self) -> Seq<(Seq<u8>, u32)> {
        self.data.entries()
    }

    /// Position of `key` among the entries, meaningful when the table has it.
    pub open spec fn key_index(&self, key: Seq<u8>) -> int {
        choose|i: int| 0 <= i < self.entries().len() && (#[trigger] self.entries()[i]).0 == key
    }

    /// The entries after `key` was given `slot`: a key that the table has
    /// keeps its place, a new one goes last.
    pub open spec fn entries_with(&self, key: Seq<u8>, slot: u32) -> Seq<(Seq<u8>, u32)> {
        if self@.contains_key(key) {
            self.entries().update(self.key_index(key), (key, slot))
        } else {
            self.entries().push((key, slot))
        }
    }

    /// The length of the lines that were last written out.
    pub closed spec fn stored_size(&self) -> usize {
        self.last_size_key2slot
    }

    /// The entries and the map hold the same keys and slots.
    pub proof fn law_entries_agree(&self)
        requires
            self.wf(),
        ensures
            self.entries().len() == self@.dom().len(),
            self@.dom().finite(),
            forall|i: int|
                0 <= i < self.entries().len() ==> self@.contains_key(
                    (#[trigger] self.entries()[i]).0,
                ) && self@[self.entries()[i].0] == self.entries()[i].1,
            forall|k: Seq<u8>|
                self@.contains_key(k) ==> exists|i: int|
                    0 <= i < self.entries().len() && (#[trigger] self.entries()[i]).0 == k,
    {
        let keys = self.data.keys();
        assert(self@.dom() =~= keys.to_set());
        keys.unique_seq_to_set();
        assert forall|i: int| 0 <= i < self.entries().len() implies self@.contains_key(
            (#[trigger] self.entries()[i]).0,
        ) && self@[self.entries()[i].0] == self.entries()[i].1 by {
            self.data.lemma_map_at(i);
        }
        assert forall|k: Seq<u8>| self@.contains_key(k) implies exists|i: int|
            0 <= i < self.entries().len() && (#[trigger] self.entries()[i]).0 == k by {
            let i = keys.index_of(k);
            assert(self.entries()[i].0 == k);
        }
    }

    /// True when the table has no key.
    pub fn is_empty(&self) -> (b: bool)
        requires
            self.wf(),
        ensures
            b == (self.entries().len() == 0),
    {
        self.data.len() == 0
    }

    /// The slot that `key` stands for, if it has one.
    pub fn get_slot(&self, key: &str) -> (slot: Option<u32>)
        requires
            self.wf(),
        ensures
            slot == slot_of(self@, key.spec_bytes()),
    {
        let k = key.as_bytes();
        if k.len() == 0 {
            return None;
        }
        if k[0] == 35 {
            return match parse_unsigned(&k[1..k.len()], u32::MAX as u64) {
                Some(v) => Some(v as u32),
                None => None,
            };
        }
        match self.data.find(k) {
            Some(i) => {
                proof {
                    self.data.lemma_map_at(i as int);
                }
                Some(*self.data.value(i))
            },
            None => None,
        }
    }

    /// The slot that `field` stands for; a field without one is added to the
    /// table under the next slot, which is one more than the number of keys.
    pub fn get_slot_and_set_if_not_found(&mut self, field: &str) -> (slot: u32)
        requires
            old(self).wf(),
        ensures
            final(self).wf(),
            final(self).stored_size() == old(self).stored_size(),
            (match slot_of(old(self)@, field.spec_bytes()) {
                Some(s) => ({
                    &&& slot == s
                    &&& final(self)@ == old(self)@
                    &&& final(self).entries() == old(self).entries()
                }),
                None => ({
                    &&& slot == next_slot(old(self).entries().len())
                    &&& final(self)@ == old(self)@.insert(field.spec_bytes(), slot)
                    &&& final(self).entries() == old(self).entries_with(field.spec_bytes(), slot)
                }),
            }),
    {
        if let Some(slot) = self.get_slot(field) {
            return slot;
        }
        let n: usize = self.data.len();
        let low: u32 = (n as u64 % 0x1_0000_0000) as u32;
        let slot: u32 = if low == u32::MAX {
            0
        } else {
            low + 1
        };
        self.insert(field, slot);
        slot
    }

    /// Gives `key` the slot `slot`, as a line read from the table's file
    /// says. A key that the table has keeps its place.
    pub fn insert(&mut self, key: &str, slot: u32)
        requires
            old(self).wf(),
        ensures
            final(self).wf(),
            final(self).stored_size() == old(self).stored_size(),
            final(self)@ == old(self)@.insert(key.spec_bytes(), slot),
            final(self).entries() == old(self).entries_with(key.spec_bytes(), slot),
    {
        let k = key.as_bytes();
        match self.data.find(k) {
            Some(i) => {
                proof {
                    self.data.lemma_map_at(i as int);
                    let j = self.key_index(k@);
                    assert(self.entries()[i as int].0 == k@);
                    assert(self.data.keys()[j] == self.entries()[j].0);
                }
                self.data.set(i, slot);
                assert(self.entries() =~= old(self).entries().update(i as int, (k@, slot)));
            },
            None => {
                assert(!self.data.map().contains_key(k@));
                self.data.push(k, slot);
                assert(self.entries() =~= old(self).entries().push((k@, slot)));
            },
        }
    }

    /// The lines of the table, in the order in which the keys were added.
    pub fn lines(&self) -> (out: Vec<u8>)
        requires
            self.wf(),
        ensures
            out@ == lines_of(self.entries()),
    {
        let mut out: Vec<u8> = Vec::new();
        let n: usize = self.data.len();
        let ghost es = self.data.entries();
        let mut i: usize = 0;
        assert(es.subrange(0, 0) =~= Seq::<(Seq<u8>, u32)>::empty());
        while i < n
            invariant
                self.wf(),
                es == self.data.entries(),
                n == es.len(),
                i <= n,
                out@ == lines_of(es.subrange(0, i as int)),
            decreases n - i,
        {
            let ghost pre = es.subrange(0, i as int);
            let ghost cur = es.subrange(0, i + 1);
            assert(cur.drop_last() =~= pre);
            assert(cur.last() == es[i as int]);
            let ghost before = out@;
            out.push(34);
            push_bytes(&mut out, self.data.key(i).as_slice());
            out.push(34);
            out.push(44);
            push_decimal(&mut out, *self.data.value(i) as u64);
            out.push(10);
            assert(out@ =~= before + line_of(es[i as int].0, es[i as int].1));
            i += 1;
        }
        assert(es.subrange(0, n as int) =~= es);
        out
    }

    /// The lines of the table and their checksum in upper-case hexadecimal.
    pub fn serialize(&self) -> (r: (Vec<u8>, Vec<u8>))
        requires
            self.wf(),
        ensures
            r.0@ == lines_of(self.entries()),
            r.1@ == hex_upper(crc32_of(lines_of(self.entries())) as nat),
    {
        let lines = self.lines();
        let hash: u32 = checksum(lines.as_slice());
        let mut hex: Vec<u8> = Vec::new();
        push_hex_upper(&mut hex, hash);
        (lines, hex)
    }

    /// The file image to write out, or `None` when the lines are as long as
    /// those that were written last.
    pub fn store(&self) -> (image: Option<Vec<u8>>)
        requires
            self.wf(),
        ensures
            image is Some <==> lines_of(self.entries()).len() != self.stored_size(),
            image matches Some(bytes) ==> bytes@ == file_image(
                crc32_of(lines_of(self.entries())),
                lines_of(self.entries()),
            ),
    {
        let lines = self.lines();
        if lines.len() == self.last_size_key2slot {
            return None;
        }
        let hash: u32 = checksum(lines.as_slice());
        Some(render(lines.as_slice(), hash))
    }
}

} // verus!
