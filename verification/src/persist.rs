//! The on-disk format of data cells and generic dictionaries, stated over their
//! mathematical values, with the laws that tie encoding and decoding together.
use vstd::prelude::*;
use vstd::bytes::{spec_u64_to_le_bytes, spec_u64_from_le_bytes, lemma_auto_spec_u64_to_from_le_bytes};
use vstd::utf8::{valid_utf8, decode_utf8, encode_utf8};
use crate::data::{CellV, EntryV, dict_has_key, dict_keys_distinct, nested_keys_distinct, entry_keys_distinct};
use crate::error::SDSSErrorKind;

verus! {

/// The type descriptor byte that precedes a persisted value.
#[derive(Debug, Clone, Copy, PartialEq, Eq, Structural)]
pub enum PersistTypeDscr {
    Null,
    Bool,
    UnsignedInt,
    SignedInt,
    Float,
    Bin,
    Str,
    List,
    Dict,
}

/// The byte that stands for a descriptor.
pub open spec fn dscr_byte(d: PersistTypeDscr) -> u8 {
    match d {
        PersistTypeDscr::Null => 0,
        PersistTypeDscr::Bool => 1,
        PersistTypeDscr::UnsignedInt => 2,
        PersistTypeDscr::SignedInt => 3,
        PersistTypeDscr::Float => 4,
        PersistTypeDscr::Bin => 5,
        PersistTypeDscr::Str => 6,
        PersistTypeDscr::List => 7,
        PersistTypeDscr::Dict => 8,
    }
}

/// The descriptor that a byte (at most 8) stands for.
pub open spec fn dscr_from_byte(b: u8) -> PersistTypeDscr {
    if b == 0 {
        PersistTypeDscr::Null
    } else if b == 1 {
        PersistTypeDscr::Bool
    } else if b == 2 {
        PersistTypeDscr::UnsignedInt
    } else if b == 3 {
        PersistTypeDscr::SignedInt
    } else if b == 4 {
        PersistTypeDscr::Float
    } else if b == 5 {
        PersistTypeDscr::Bin
    } else if b == 6 {
        PersistTypeDscr::Str
    } else if b == 7 {
        PersistTypeDscr::List
    } else {
        PersistTypeDscr::Dict
    }
}

impl PersistTypeDscr {
    /// The byte of this descriptor.
    pub fn value_u8(&self) -> (r: u8)
        ensures
            r == dscr_byte(*self),
    {
        match self {
            PersistTypeDscr::Null => 0,
            PersistTypeDscr::Bool => 1,
            PersistTypeDscr::UnsignedInt => 2,
            PersistTypeDscr::SignedInt => 3,
            PersistTypeDscr::Float => 4,
            PersistTypeDscr::Bin => 5,
            PersistTypeDscr::Str => 6,
            PersistTypeDscr::List => 7,
            PersistTypeDscr::Dict => 8,
        }
    }

    /// The descriptor of a raw byte that is a valid descriptor.
    pub fn from_raw(v: u8) -> (r: Self)
        requires
            v <= 8,
        ensures
            r == dscr_from_byte(v),
            dscr_byte(r) == v,
    {
        if v == 0 {
            PersistTypeDscr::Null
        } else if v == 1 {
            PersistTypeDscr::Bool
        } else if v == 2 {
            PersistTypeDscr::UnsignedInt
        } else if v == 3 {
            PersistTypeDscr::SignedInt
        } else if v == 4 {
            PersistTypeDscr::Float
        } else if v == 5 {
            PersistTypeDscr::Bin
        } else if v == 6 {
            PersistTypeDscr::Str
        } else if v == 7 {
            PersistTypeDscr::List
        } else {
            PersistTypeDscr::Dict
        }
    }
}

/// Eight little-endian bytes of `x`.
pub open spec fn le64(x: u64) -> Seq<u8> {
    spec_u64_to_le_bytes(x)
}

/// The little-endian `u64` in the first eight bytes of `b`.
pub open spec fn rd64(b: Seq<u8>) -> u64 {
    spec_u64_from_le_bytes(b.subrange(0, 8))
}

/// The descriptor byte of a cell (its class, or null).
pub open spec fn cell_dscr(c: CellV) -> u8 {
    match c {
        CellV::Null => 0,
        CellV::Bool(_) => 1,
        CellV::UnsignedInt(_) => 2,
        CellV::SignedInt(_) => 3,
        CellV::Float(_) => 4,
        CellV::Bin(_) => 5,
        CellV::Str(_) => 6,
        CellV::List(_) => 7,
    }
}

/// The bytes of a cell's payload (what follows its descriptor).
pub open spec fn enc_cell(c: CellV) -> Seq<u8>
    decreases c, 0nat,
{
    match c {
        CellV::Null => Seq::empty(),
        CellV::Bool(b) => seq![if b { 1u8 } else { 0u8 }],
        CellV::UnsignedInt(x) => le64(x),
        CellV::SignedInt(x) => le64(x as u64),
        CellV::Float(x) => le64(x),
        CellV::Bin(s) => le64(s.len() as u64) + s,
        CellV::Str(s) => le64(encode_utf8(s).len() as u64) + encode_utf8(s),
        CellV::List(cs) => le64(cs.len() as u64) + enc_items(cs, 0),
    }
}

/// The bytes of the list items `cs[i..]`, each as its descriptor then its payload.
pub open spec fn enc_items(cs: Seq<CellV>, i: int) -> Seq<u8>
    decreases cs, cs.len() - i,
{
    if 0 <= i < cs.len() {
        seq![cell_dscr(cs[i])] + enc_cell(cs[i]) + enc_items(cs, i + 1)
    } else {
        Seq::empty()
    }
}

/// The bytes of a persisted dictionary: its size, then its entries.
pub open spec fn enc_dict(es: Seq<(Seq<char>, EntryV)>) -> Seq<u8>
    decreases es, es.len() + 1,
{
    le64(es.len() as u64) + enc_entries(es, 0)
}

/// The bytes of the entries `es[i..]`.
pub open spec fn enc_entries(es: Seq<(Seq<char>, EntryV)>, i: int) -> Seq<u8>
    decreases es, es.len() - i,
{
    if 0 <= i < es.len() {
        enc_entry(es[i].0, es[i].1) + enc_entries(es, i + 1)
    } else {
        Seq::empty()
    }
}

/// The descriptor byte of an entry.
pub open spec fn entry_dscr(v: EntryV) -> u8 {
    match v {
        EntryV::Data(c) => cell_dscr(c),
        EntryV::Dict(_) => 8,
    }
}

/// One entry: key length, descriptor, key bytes, then the value's payload.
pub open spec fn enc_entry(k: Seq<char>, v: EntryV) -> Seq<u8>
    decreases v, 2nat,
{
    le64(encode_utf8(k).len() as u64) + seq![entry_dscr(v)] + encode_utf8(k) + enc_entry_val(v)
}

/// The payload of an entry's value.
pub open spec fn enc_entry_val(v: EntryV) -> Seq<u8>
    decreases v, 1nat,
{
    match v {
        EntryV::Data(c) => enc_cell(c),
        EntryV::Dict(es) => enc_dict(es),
    }
}

/// The bytes after the first `n` of `b`.
pub open spec fn after(b: Seq<u8>, n: int) -> Seq<u8> {
    b.subrange(n, b.len() as int)
}

/// Decodes the payload of a cell whose descriptor byte is `d`, from the front of `b`;
/// gives the cell and the bytes that follow it.
pub open spec fn dec_cell(b: Seq<u8>, d: u8) -> Option<(CellV, Seq<u8>)>
    decreases b.len(),
{
    if d == 0 {
        Some((CellV::Null, b))
    } else if d == 1 {
        if b.len() >= 1 {
            Some((CellV::Bool(b[0] == 1), after(b, 1)))
        } else {
            None
        }
    } else if 2 <= d <= 4 {
        if b.len() >= 8 {
            let x = rd64(b);
            Some((
                if d == 2 {
                    CellV::UnsignedInt(x)
                } else if d == 3 {
                    CellV::SignedInt(x as i64)
                } else {
                    CellV::Float(x)
                },
                after(b, 8),
            ))
        } else {
            None
        }
    } else if d == 5 || d == 6 {
        if b.len() >= 8 {
            let n = rd64(b) as usize;
            let r = after(b, 8);
            if r.len() >= n {
                let s = r.subrange(0, n as int);
                if d == 5 {
                    Some((CellV::Bin(s), after(r, n as int)))
                } else if valid_utf8(s) {
                    Some((CellV::Str(decode_utf8(s)), after(r, n as int)))
                } else {
                    None
                }
            } else {
                None
            }
        } else {
            None
        }
    } else if d == 7 {
        if b.len() >= 8 {
            match dec_items(after(b, 8), rd64(b) as usize, Seq::empty()) {
                Some((cs, r)) => Some((CellV::List(cs), r)),
                None => None,
            }
        } else {
            None
        }
    } else {
        None
    }
}

/// Decodes list items from the front of `b` until `n` items are held (`acc` holds
/// those decoded so far); each item is a descriptor byte and a payload.
pub open spec fn dec_items(b: Seq<u8>, n: usize, acc: Seq<CellV>) -> Option<(Seq<CellV>, Seq<u8>)>
    decreases b.len(),
{
    if b.len() > 0 && acc.len() < n {
        let d = b[0];
        if d > 7 {
            None
        } else {
            match dec_cell(after(b, 1), d) {
                Some((c, r)) => if r.len() < b.len() {
                    dec_items(r, n, acc.push(c))
                } else {
                    None
                },
                None => None,
            }
        }
    } else if acc.len() == n {
        Some((acc, b))
    } else {
        None
    }
}

/// The least number of payload bytes a top-level entry with descriptor `d` needs.
pub open spec fn expect_atleast(d: u8) -> int {
    if d == 0 {
        0
    } else if d == 1 {
        1
    } else {
        8
    }
}

/// Decodes the value of a top-level entry with descriptor byte `d` from the front of `b`.
pub open spec fn dec_entry_val(b: Seq<u8>, d: u8) -> Option<(EntryV, Seq<u8>)>
    decreases b.len(), 2nat,
{
    if d == 8 {
        match dec_dict(b) {
            Ok((es, r)) => Some((EntryV::Dict(es), r)),
            Err(_) => None,
        }
    } else {
        match dec_cell(b, d) {
            Some((c, r)) => Some((EntryV::Data(c), r)),
            None => None,
        }
    }
}

/// Decodes a persisted dictionary (size, then entries) from the front of `b`.
pub open spec fn dec_dict(b: Seq<u8>) -> Result<(Seq<(Seq<char>, EntryV)>, Seq<u8>), SDSSErrorKind>
    decreases b.len(), 1nat,
{
    if b.len() < 8 {
        Err(SDSSErrorKind::InternalDecodeStructureCorrupted)
    } else {
        dec_entries(after(b, 8), rd64(b) as usize, Seq::empty())
    }
}

/// Decodes dictionary entries from the front of `b` until `size` are held (`acc` holds
/// those decoded so far).
pub open spec fn dec_entries(b: Seq<u8>, size: usize, acc: Seq<(Seq<char>, EntryV)>) -> Result<
    (Seq<(Seq<char>, EntryV)>, Seq<u8>),
    SDSSErrorKind,
>
    decreases b.len(), 0nat,
{
    if b.len() >= 9 && acc.len() != size {
        let klen = rd64(b) as usize;
        let d = b[8];
        let r = after(b, 9);
        if !(r.len() >= klen + expect_atleast(d) && d <= 8) {
            Err(SDSSErrorKind::InternalDecodeStructureCorruptedPayload)
        } else {
            let kb = r.subrange(0, klen as int);
            match dec_entry_val(after(r, klen as int), d) {
                Some((v, r2)) => if !valid_utf8(kb) {
                    Err(SDSSErrorKind::InternalDecodeStructureCorruptedPayload)
                } else if dict_has_key(acc, decode_utf8(kb)) {
                    Err(SDSSErrorKind::InternalDecodeStructureIllegalData)
                } else if r2.len() < b.len() {
                    dec_entries(r2, size, acc.push((decode_utf8(kb), v)))
                } else {
                    Err(SDSSErrorKind::InternalDecodeStructureCorruptedPayload)
                },
                None => Err(SDSSErrorKind::InternalDecodeStructureCorruptedPayload),
            }
        }
    } else if acc.len() == size {
        Ok((acc, b))
    } else {
        Err(SDSSErrorKind::InternalDecodeStructureIllegalData)
    }
}

/// Whether decoding a cell with descriptor `d` from the front of `b` meets, among the
/// items of a list, one whose descriptor is that of a dictionary (which no list can hold;
/// the reader treats it as an impossible state).
pub open spec fn cell_traps(b: Seq<u8>, d: u8) -> bool
    decreases b.len(), 1nat,
{
    if d == 7 && b.len() >= 8 {
        items_trap(after(b, 8), rd64(b) as usize, 0)
    } else {
        false
    }
}

/// Whether decoding list items from the front of `b`, `k` of `n` held so far, meets an
/// item with the dictionary descriptor.
pub open spec fn items_trap(b: Seq<u8>, n: usize, k: nat) -> bool
    decreases b.len(), 0nat,
{
    if b.len() > 0 && k < n {
        let d = b[0];
        if d == 8 {
            true
        } else if d > 8 {
            false
        } else if cell_traps(after(b, 1), d) {
            true
        } else {
            match dec_cell(after(b, 1), d) {
                Some((_, r)) => r.len() < b.len() && items_trap(r, n, k + 1),
                None => false,
            }
        }
    } else {
        false
    }
}

/// Whether decoding a top-level entry value with descriptor `d` from the front of `b`
/// meets a list item with the dictionary descriptor.
pub open spec fn entry_val_traps(b: Seq<u8>, d: u8) -> bool
    decreases b.len(), 2nat,
{
    if d == 8 {
        dict_traps(b)
    } else {
        cell_traps(b, d)
    }
}

/// Whether decoding a persisted dictionary from the front of `b` meets a list item with
/// the dictionary descriptor.
pub open spec fn dict_traps(b: Seq<u8>) -> bool
    decreases b.len(), 1nat,
{
    if b.len() < 8 {
        false
    } else {
        entries_trap(after(b, 8), rd64(b) as usize, Seq::empty())
    }
}

/// Whether decoding dictionary entries from the front of `b` (as [`dec_entries`] does)
/// meets a list item with the dictionary descriptor.
pub open spec fn entries_trap(b: Seq<u8>, size: usize, acc: Seq<(Seq<char>, EntryV)>) -> bool
    decreases b.len(), 0nat,
{
    if b.len() >= 9 && acc.len() != size {
        let klen = rd64(b) as usize;
        let d = b[8];
        let r = after(b, 9);
        if !(r.len() >= klen + expect_atleast(d) && d <= 8) {
            false
        } else if entry_val_traps(after(r, klen as int), d) {
            true
        } else {
            let kb = r.subrange(0, klen as int);
            match dec_entry_val(after(r, klen as int), d) {
                Some((v, r2)) => if !valid_utf8(kb) {
                    false
                } else if dict_has_key(acc, decode_utf8(kb)) {
                    false
                } else if r2.len() < b.len() {
                    entries_trap(r2, size, acc.push((decode_utf8(kb), v)))
                } else {
                    false
                },
                None => false,
            }
        }
    } else {
        false
    }
}

/// A cell fits the format: every length it carries fits in 64 bits.
pub open spec fn cell_wf(c: CellV) -> bool
    decreases c, 0nat,
{
    match c {
        CellV::Bin(s) => s.len() <= usize::MAX,
        CellV::Str(s) => encode_utf8(s).len() <= usize::MAX,
        CellV::List(cs) => cs.len() <= usize::MAX && items_wf(cs, 0),
        _ => true,
    }
}

/// The list items `cs[i..]` fit the format.
pub open spec fn items_wf(cs: Seq<CellV>, i: int) -> bool
    decreases cs, cs.len() - i,
{
    if 0 <= i < cs.len() {
        cell_wf(cs[i]) && items_wf(cs, i + 1)
    } else {
        true
    }
}

/// Keys in `es` are pairwise distinct.
pub open spec fn keys_distinct(es: Seq<(Seq<char>, EntryV)>) -> bool {
    forall|i: int, j: int| 0 <= i < j < es.len() ==> #[trigger] es[i].0 != #[trigger] es[j].0
}

/// A dictionary fits the format: its keys are distinct, its size fits in a `usize`,
/// and every key length and value fits.
pub open spec fn dict_wf(es: Seq<(Seq<char>, EntryV)>) -> bool
    decreases es, es.len() + 1,
{
    es.len() <= usize::MAX && keys_distinct(es) && entries_wf(es, 0)
}

/// The entries `es[i..]` fit the format.
pub open spec fn entries_wf(es: Seq<(Seq<char>, EntryV)>, i: int) -> bool
    decreases es, es.len() - i,
{
    if 0 <= i < es.len() {
        encode_utf8(es[i].0).len() <= usize::MAX && entry_wf(es[i].1) && entries_wf(es, i + 1)
    } else {
        true
    }
}

/// An entry's value fits the format.
pub open spec fn entry_wf(v: EntryV) -> bool
    decreases v, 1nat,
{
    match v {
        EntryV::Data(c) => cell_wf(c),
        EntryV::Dict(es) => dict_wf(es),
    }
}

/// The lengths in a dictionary fit the format: its size, and every key length and value at
/// every depth, fit in a `usize` (as they do for any dictionary held in memory).
pub open spec fn dict_fits(es: Seq<(Seq<char>, EntryV)>) -> bool
    decreases es, es.len() + 1,
{
    es.len() <= usize::MAX && entries_fit(es, 0)
}

/// The lengths in the entries `es[i..]` fit the format.
pub open spec fn entries_fit(es: Seq<(Seq<char>, EntryV)>, i: int) -> bool
    decreases es, es.len() - i,
{
    if 0 <= i < es.len() {
        encode_utf8(es[i].0).len() <= usize::MAX && entry_fits(es[i].1) && entries_fit(es, i + 1)
    } else {
        true
    }
}

/// The lengths in an entry's value fit the format.
pub open spec fn entry_fits(v: EntryV) -> bool
    decreases v, 1nat,
{
    match v {
        EntryV::Data(c) => cell_wf(c),
        EntryV::Dict(es) => dict_fits(es),
    }
}

/// List items each of which fits the format fit it together.
pub proof fn lemma_items_wf_all(cs: Seq<CellV>, i: int)
    requires
        0 <= i <= cs.len(),
        forall|j: int| i <= j < cs.len() ==> #[trigger] cell_wf(cs[j]),
    ensures
        items_wf(cs, i),
    decreases cs.len() - i,
{
    if i < cs.len() {
        lemma_items_wf_all(cs, i + 1);
        assert(cell_wf(cs[i]));
    }
}

/// Entries each of which fits the format fit it together.
pub proof fn lemma_entries_fit_all(es: Seq<(Seq<char>, EntryV)>, i: int)
    requires
        0 <= i <= es.len(),
        forall|j: int| i <= j < es.len() ==> encode_utf8(#[trigger] es[j].0).len() <= usize::MAX && entry_fits(es[j].1),
    ensures
        entries_fit(es, i),
    decreases es.len() - i,
{
    if i < es.len() {
        lemma_entries_fit_all(es, i + 1);
        assert(encode_utf8(es[i].0).len() <= usize::MAX && entry_fits(es[i].1));
    }
}

/// A dictionary whose keys are distinct at every depth and whose lengths fit is
/// well-formed for the format.
pub proof fn lemma_dict_wf_of_parts(es: Seq<(Seq<char>, EntryV)>)
    requires
        dict_keys_distinct(es),
        dict_fits(es),
    ensures
        dict_wf(es),
    decreases es, es.len() + 1,
{
    lemma_entries_wf_of_parts(es, 0);
}

proof fn lemma_entries_wf_of_parts(es: Seq<(Seq<char>, EntryV)>, i: int)
    requires
        0 <= i <= es.len(),
        nested_keys_distinct(es, i),
        entries_fit(es, i),
    ensures
        entries_wf(es, i),
    decreases es, es.len() - i,
{
    if i < es.len() {
        lemma_entry_wf_of_parts(es[i].1);
        lemma_entries_wf_of_parts(es, i + 1);
    }
}

proof fn lemma_entry_wf_of_parts(v: EntryV)
    requires
        entry_keys_distinct(v),
        entry_fits(v),
    ensures
        entry_wf(v),
    decreases v, 1nat,
{
    match v {
        EntryV::Data(_) => {},
        EntryV::Dict(es) => {
            lemma_dict_wf_of_parts(es);
        },
    }
}

/// A dictionary held in memory whose keys are distinct at every depth (as they are for
/// every dictionary built by inserting) decodes from its encoding, followed by any bytes, to
/// itself and exactly the bytes that followed; its encoder states that its lengths fit.
pub proof fn lemma_in_memory_dict_roundtrip(es: Seq<(Seq<char>, EntryV)>, rest: Seq<u8>)
    requires
        dict_keys_distinct(es),
        dict_fits(es),
    ensures
        dec_dict(enc_dict(es) + rest) == Ok::<_, SDSSErrorKind>((es, rest)),
        !dict_traps(enc_dict(es) + rest),
{
    lemma_dict_wf_of_parts(es);
    lemma_dict_roundtrip(es, rest);
}

/// A boolean is stored as one byte after its descriptor 1: the byte 1 for true and 0 for
/// false. A dictionary holding the one boolean entry `k` is written as its size 1, the
/// key's length, the descriptor 1, the key and that byte; and reading such an entry gives
/// true exactly where its byte is 1.
pub proof fn lemma_bool_entry_bytes(k: Seq<char>, b: bool, x: u8, rest: Seq<u8>)
    requires
        encode_utf8(k).len() <= usize::MAX,
    ensures
        ({
            let kb = encode_utf8(k);
            let head = le64(1) + le64(kb.len() as u64) + seq![1u8] + kb;
            &&& b ==> enc_dict(seq![(k, EntryV::Data(CellV::Bool(b)))]) == head + seq![1u8]
            &&& !b ==> enc_dict(seq![(k, EntryV::Data(CellV::Bool(b)))]) == head + seq![0u8]
            &&& dec_dict(head + seq![x] + rest) == Ok::<_, SDSSErrorKind>(
                (seq![(k, EntryV::Data(CellV::Bool(x == 1)))], rest),
            )
        }),
{
    broadcast use vstd::utf8::encode_utf8_valid_utf8, vstd::utf8::encode_utf8_decode_utf8;
    let kb = encode_utf8(k);
    let head = le64(1) + le64(kb.len() as u64) + seq![1u8] + kb;
    let es = seq![(k, EntryV::Data(CellV::Bool(b)))];
    // writing
    assert(enc_entries(es, 1) =~= Seq::<u8>::empty());
    assert(enc_entries(es, 0) =~= enc_entry(k, EntryV::Data(CellV::Bool(b))));
    assert(enc_dict(es) =~= head + seq![if b { 1u8 } else { 0u8 }]);
    // reading
    let v = EntryV::Data(CellV::Bool(x == 1));
    let full = head + seq![x] + rest;
    let body = le64(kb.len() as u64) + (seq![1u8] + (kb + (seq![x] + rest)));
    assert(full =~= le64(1) + body);
    lemma_rd64(1, body);
    lemma_rd64(kb.len() as u64, seq![1u8] + (kb + (seq![x] + rest)));
    assert(body[8] == 1u8);
    let r = after(body, 9);
    assert(r =~= kb + (seq![x] + rest));
    assert(r.subrange(0, kb.len() as int) =~= kb);
    assert(after(r, kb.len() as int) =~= seq![x] + rest);
    assert(after(seq![x] + rest, 1) =~= rest);
    assert(dec_entry_val(seq![x] + rest, 1) == Some((v, rest)));
    let acc = Seq::<(Seq<char>, EntryV)>::empty();
    assert(!dict_has_key(acc, k));
    assert(acc.push((k, v)) =~= seq![(k, v)]);
    assert(dec_entries(rest, 1, seq![(k, v)]) == Ok::<_, SDSSErrorKind>((seq![(k, v)], rest)));
    assert(dec_entries(body, 1, acc) == Ok::<_, SDSSErrorKind>((seq![(k, v)], rest)));
}

/// The payload of each kind of cell, read from concrete bytes: null has none; an unsigned
/// or signed integer or a float is the eight little-endian bytes of its bits (descriptors
/// 2, 3, 4); binary data and a string are the eight little-endian bytes of their length,
/// then their bytes (descriptors 5, 6). What follows the payload is left unread.
pub proof fn lemma_cell_payload_bytes(x: u64, bin: Seq<u8>, st: Seq<char>, rest: Seq<u8>)
    requires
        bin.len() <= usize::MAX,
        encode_utf8(st).len() <= usize::MAX,
    ensures
        dec_cell(rest, 0) == Some((CellV::Null, rest)),
        dec_cell(le64(x) + rest, 2) == Some((CellV::UnsignedInt(x), rest)),
        dec_cell(le64(x) + rest, 3) == Some((CellV::SignedInt(x as i64), rest)),
        dec_cell(le64(x) + rest, 4) == Some((CellV::Float(x), rest)),
        dec_cell(le64(bin.len() as u64) + bin + rest, 5) == Some((CellV::Bin(bin), rest)),
        dec_cell(le64(encode_utf8(st).len() as u64) + encode_utf8(st) + rest, 6) == Some((CellV::Str(st), rest)),
{
    broadcast use vstd::utf8::encode_utf8_valid_utf8, vstd::utf8::encode_utf8_decode_utf8;
    lemma_rd64(x, rest);
    lemma_rd64(bin.len() as u64, bin + rest);
    let r = bin + rest;
    assert(le64(bin.len() as u64) + bin + rest =~= le64(bin.len() as u64) + r);
    assert(r.subrange(0, bin.len() as int) =~= bin);
    assert(after(r, bin.len() as int) =~= rest);
    let kb = encode_utf8(st);
    lemma_rd64(kb.len() as u64, kb + rest);
    let r2 = kb + rest;
    assert(le64(kb.len() as u64) + kb + rest =~= le64(kb.len() as u64) + r2);
    assert(r2.subrange(0, kb.len() as int) =~= kb);
    assert(after(r2, kb.len() as int) =~= rest);
}

/// Reading eight little-endian bytes of `x` gives `x` back and leaves what followed.
pub proof fn lemma_rd64_pub(x: u64, rest: Seq<u8>)
    ensures
        rd64(le64(x) + rest) == x,
        after(le64(x) + rest, 8) == rest,
        (le64(x) + rest).len() == 8 + rest.len(),
{
    lemma_rd64(x, rest);
}

proof fn lemma_rd64(x: u64, rest: Seq<u8>)
    ensures
        rd64(le64(x) + rest) == x,
        after(le64(x) + rest, 8) == rest,
        (le64(x) + rest).len() == 8 + rest.len(),
{
    lemma_auto_spec_u64_to_from_le_bytes();
    assert((le64(x) + rest).subrange(0, 8) =~= le64(x));
    assert(after(le64(x) + rest, 8) =~= rest);
}

/// Decoding the payload of a well-formed cell, followed by any bytes, gives back the
/// cell and exactly the bytes that followed.
pub proof fn lemma_cell_roundtrip(c: CellV, rest: Seq<u8>)
    requires
        cell_wf(c),
    ensures
        dec_cell(enc_cell(c) + rest, cell_dscr(c)) == Some((c, rest)),
        !cell_traps(enc_cell(c) + rest, cell_dscr(c)),
    decreases c, 0nat,
{
    broadcast use vstd::utf8::encode_utf8_valid_utf8, vstd::utf8::encode_utf8_decode_utf8;
    let b = enc_cell(c) + rest;
    match c {
        CellV::Null => {
            assert(b =~= rest);
        },
        CellV::Bool(x) => {
            assert(after(b, 1) =~= rest);
        },
        CellV::UnsignedInt(x) => {
            lemma_rd64(x, rest);
        },
        CellV::SignedInt(x) => {
            lemma_rd64(x as u64, rest);
            assert((x as u64) as i64 == x) by (bit_vector);
        },
        CellV::Float(x) => {
            lemma_rd64(x, rest);
        },
        CellV::Bin(s) => {
            assert(b =~= le64(s.len() as u64) + (s + rest));
            lemma_rd64(s.len() as u64, s + rest);
            let r = s + rest;
            assert(r.subrange(0, s.len() as int) =~= s);
            assert(after(r, s.len() as int) =~= rest);
        },
        CellV::Str(s) => {
            let e = encode_utf8(s);
            assert(b =~= le64(e.len() as u64) + (e + rest));
            lemma_rd64(e.len() as u64, e + rest);
            let r = e + rest;
            assert(r.subrange(0, e.len() as int) =~= e);
            assert(after(r, e.len() as int) =~= rest);
        },
        CellV::List(cs) => {
            let body = enc_items(cs, 0) + rest;
            assert(b =~= le64(cs.len() as u64) + body);
            lemma_rd64(cs.len() as u64, body);
            lemma_items_roundtrip(cs, 0, rest);
            assert(cs.subrange(0, 0) =~= Seq::<CellV>::empty());
        },
    }
}

/// Decoding the encoded list items `cs[i..]`, after `cs[..i]` were decoded, gives back
/// the whole list and exactly the bytes that followed.
pub proof fn lemma_items_roundtrip(cs: Seq<CellV>, i: int, rest: Seq<u8>)
    requires
        0 <= i <= cs.len(),
        cs.len() <= usize::MAX,
        items_wf(cs, i),
    ensures
        dec_items(enc_items(cs, i) + rest, cs.len() as usize, cs.subrange(0, i)) == Some((cs, rest)),
        !items_trap(enc_items(cs, i) + rest, cs.len() as usize, i as nat),
    decreases cs, cs.len() - i,
{
    let b = enc_items(cs, i) + rest;
    if i == cs.len() {
        assert(b =~= rest);
        assert(cs.subrange(0, i) =~= cs);
    } else {
        let c = cs[i];
        let tail = enc_items(cs, i + 1) + rest;
        assert(b =~= seq![cell_dscr(c)] + (enc_cell(c) + tail));
        assert(b[0] == cell_dscr(c));
        assert(after(b, 1) =~= enc_cell(c) + tail);
        lemma_cell_roundtrip(c, tail);
        assert(cs.subrange(0, i).push(c) =~= cs.subrange(0, i + 1));
        lemma_items_roundtrip(cs, i + 1, rest);
    }
}

/// Decoding the payload of a well-formed entry value gives it back and exactly the bytes
/// that followed.
pub proof fn lemma_entry_val_roundtrip(v: EntryV, rest: Seq<u8>)
    requires
        entry_wf(v),
    ensures
        dec_entry_val(enc_entry_val(v) + rest, entry_dscr(v)) == Some((v, rest)),
        !entry_val_traps(enc_entry_val(v) + rest, entry_dscr(v)),
    decreases v, 1nat,
{
    match v {
        EntryV::Data(c) => {
            lemma_cell_roundtrip(c, rest);
        },
        EntryV::Dict(es) => {
            lemma_dict_roundtrip(es, rest);
        },
    }
}

/// Decoding a well-formed persisted dictionary gives it back and exactly the bytes
/// that followed.
pub proof fn lemma_dict_roundtrip(es: Seq<(Seq<char>, EntryV)>, rest: Seq<u8>)
    requires
        dict_wf(es),
    ensures
        dec_dict(enc_dict(es) + rest) == Ok::<_, SDSSErrorKind>((es, rest)),
        !dict_traps(enc_dict(es) + rest),
    decreases es, es.len() + 1,
{
    let body = enc_entries(es, 0) + rest;
    assert(enc_dict(es) + rest =~= le64(es.len() as u64) + body);
    lemma_rd64(es.len() as u64, body);
    assert((es.len() as u64) as usize == es.len());
    lemma_entries_roundtrip(es, 0, rest);
    assert(es.subrange(0, 0) =~= Seq::<(Seq<char>, EntryV)>::empty());
}

/// A value's payload is at least as long as its descriptor asks for.
proof fn lemma_entry_val_len(v: EntryV)
    ensures
        enc_entry_val(v).len() >= expect_atleast(entry_dscr(v)),
        entry_dscr(v) <= 8,
{
    match v {
        EntryV::Data(c) => {
            match c {
                CellV::Null => {},
                CellV::Bool(_) => {},
                CellV::UnsignedInt(x) => { lemma_rd64(x, Seq::empty()); },
                CellV::SignedInt(x) => { lemma_rd64(x as u64, Seq::empty()); },
                CellV::Float(x) => { lemma_rd64(x, Seq::empty()); },
                CellV::Bin(s) => { lemma_rd64(s.len() as u64, s); },
                CellV::Str(s) => { lemma_rd64(encode_utf8(s).len() as u64, encode_utf8(s)); },
                CellV::List(cs) => { lemma_rd64(cs.len() as u64, enc_items(cs, 0)); },
            }
        },
        EntryV::Dict(es) => {
            lemma_rd64(es.len() as u64, enc_entries(es, 0));
        },
    }
}

/// Decoding the encoded entries `es[i..]`, after `es[..i]` were decoded, gives back the
/// whole dictionary and exactly the bytes that followed.
#[verifier::rlimit(40)]
pub proof fn lemma_entries_roundtrip(es: Seq<(Seq<char>, EntryV)>, i: int, rest: Seq<u8>)
    requires
        0 <= i <= es.len(),
        es.len() <= usize::MAX,
        keys_distinct(es),
        entries_wf(es, i),
    ensures
        dec_entries(enc_entries(es, i) + rest, es.len() as usize, es.subrange(0, i)) == Ok::<
            _,
            SDSSErrorKind,
        >((es, rest)),
        !entries_trap(enc_entries(es, i) + rest, es.len() as usize, es.subrange(0, i)),
    decreases es, es.len() - i,
{
    broadcast use vstd::utf8::encode_utf8_valid_utf8, vstd::utf8::encode_utf8_decode_utf8;
    let b = enc_entries(es, i) + rest;
    if i == es.len() {
        assert(b =~= rest);
        assert(es.subrange(0, i) =~= es);
    } else {
        let k = es[i].0;
        let v = es[i].1;
        let kb = encode_utf8(k);
        let tail = enc_entries(es, i + 1) + rest;
        let val = enc_entry_val(v) + tail;
        assert(enc_entries(es, i) == enc_entry(k, v) + enc_entries(es, i + 1));
        assert(enc_entry(k, v) == le64(kb.len() as u64) + seq![entry_dscr(v)] + kb + enc_entry_val(v));
        assert(b =~= le64(kb.len() as u64) + (seq![entry_dscr(v)] + (kb + val)));
        lemma_rd64(kb.len() as u64, seq![entry_dscr(v)] + (kb + val));
        let r = after(b, 9);
        assert(b[8] == entry_dscr(v));
        assert(r =~= kb + val);
        lemma_entry_val_len(v);
        assert(r.subrange(0, kb.len() as int) =~= kb);
        assert(after(r, kb.len() as int) =~= val);
        lemma_entry_val_roundtrip(v, tail);
        let acc = es.subrange(0, i);
        assert(!dict_has_key(acc, k)) by {
            if dict_has_key(acc, k) {
                let j = choose|j: int| 0 <= j < acc.len() && #[trigger] acc[j].0 == k;
                assert(es[j].0 == es[i].0);
            }
        }
        assert(acc.push((k, v)) =~= es.subrange(0, i + 1));
        lemma_entries_roundtrip(es, i + 1, rest);
    }
}

} // verus!
