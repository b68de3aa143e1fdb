//! Encoding and decoding of persisted maps: generic dictionaries and field maps.
use vstd::prelude::*;
use vstd::bytes::{spec_u64_from_le_bytes, u64_from_le_bytes, u64_to_le_bytes};
use vstd::slice::{slice_subrange, slice_to_vec};
use vstd::utf8::{decode_utf8, encode_utf8, valid_utf8};
use core::marker::PhantomData;
use crate::data::{
    entry_keys_distinct, cell_view, cells_view, entries_view, entry_view, lemma_cells_view, lemma_cells_view_push, lemma_entries_view,
    Datacell, DictEntryGeneric, DictGeneric,
};
use crate::error::SDSSErrorKind;
use crate::field::{
    dec_field, dec_field_entries, dec_field_map, enc_field_entries, enc_field_entry, enc_field_map, enc_field_md,
    enc_layers, Field, FieldMD, FieldMap, FieldRef,
};
use crate::persist::{
    self, after, cell_dscr, cell_traps, dec_cell, dec_dict, dec_entries, dec_entry_val, dec_items, dict_traps, enc_cell,
    enc_dict, enc_entries, enc_entry_val, enc_items, entries_trap, entry_dscr, entry_val_traps, expect_atleast,
    items_trap, le64, rd64, cell_wf, entry_fits, entries_fit, dict_fits, lemma_items_wf_all, lemma_entries_fit_all,
};
use crate::scanner::BufferedScanner;

verus! {

broadcast use crate::scanner::lemma_scanner_rest;

/// Appends `s` to `buf`.
pub fn extend_bytes(buf: &mut Vec<u8>, s: &[u8])
    ensures
        final(buf)@ == old(buf)@ + s@,
{
    let mut i: usize = 0;
    while i < s.len()
        invariant
            i <= s@.len(),
            buf@ == old(buf)@ + s@.subrange(0, i as int),
        decreases s@.len() - i,
    {
        buf.push(s[i]);
        assert(s@.subrange(0, i + 1) =~= s@.subrange(0, i as int).push(s@[i as int]));
        i = i + 1;
    }
    assert(s@.subrange(0, s@.len() as int) =~= s@);
}

/// Appends the eight little-endian bytes of `x` to `buf`.
pub fn extend_u64_le(buf: &mut Vec<u8>, x: u64)
    ensures
        final(buf)@ == old(buf)@ + le64(x),
{
    let v = u64_to_le_bytes(x);
    extend_bytes(buf, v.as_slice());
}

/// The UTF-8 bytes of a string.
fn str_bytes(s: &String) -> (r: &[u8])
    ensures
        r@ == encode_utf8(s@),
{
    s.as_str().as_bytes()
}

/// Checks that `b` is UTF-8 and makes a string of it (`std::str::from_utf8`).
/// Claims: the result is `Some` exactly on valid UTF-8, and then its UTF-8 encoding is `b`.
#[verifier::external_body]
fn str_from_utf8(b: &[u8]) -> (r: Option<String>)
    ensures
        r is Some <==> valid_utf8(b@),
        r matches Some(s) ==> encode_utf8(s@) == b@,
{
    match std::str::from_utf8(b) {
        Ok(s) => Some(s.to_string()),
        Err(_) => None,
    }
}

/// Writes the descriptor byte of a cell.
pub fn encode_datacell_tag(buf: &mut Vec<u8>, dc: &Datacell)
    ensures
        final(buf)@ == old(buf)@.push(cell_dscr(dc@)),
{
    let d: u8 = match dc {
        Datacell::Null => 0,
        Datacell::Bool(_) => 1,
        Datacell::UnsignedInt(_) => 2,
        Datacell::SignedInt(_) => 3,
        Datacell::Float(_) => 4,
        Datacell::Bin(_) => 5,
        Datacell::Str(_) => 6,
        Datacell::List(_) => 7,
    };
    buf.push(d);
}

/// Writes the payload of a cell.
pub fn encode_element(buf: &mut Vec<u8>, dc: &Datacell)
    ensures
        final(buf)@ == old(buf)@ + enc_cell(dc@),
        cell_wf(dc@),
    decreases dc,
{
    match dc {
        Datacell::Null => {
            assert(old(buf)@ + enc_cell(dc@) =~= old(buf)@);
        },
        Datacell::Bool(b) => {
            buf.push(if *b { 1u8 } else { 0u8 });
            assert(old(buf)@ + enc_cell(dc@) =~= old(buf)@.push(if *b { 1u8 } else { 0u8 }));
        },
        Datacell::UnsignedInt(x) => {
            extend_u64_le(buf, *x);
        },
        Datacell::SignedInt(x) => {
            extend_u64_le(buf, *x as u64);
        },
        Datacell::Float(x) => {
            extend_u64_le(buf, *x);
        },
        Datacell::Bin(v) => {
            extend_u64_le(buf, v.len() as u64);
            extend_bytes(buf, v.as_slice());
            assert(buf@ =~= old(buf)@ + enc_cell(dc@));
        },
        Datacell::Str(s) => {
            let b = str_bytes(s);
            extend_u64_le(buf, b.len() as u64);
            extend_bytes(buf, b);
            assert(buf@ =~= old(buf)@ + enc_cell(dc@));
        },
        Datacell::List(v) => {
            let ghost cs = cells_view(v@);
            proof {
                lemma_cells_view(v@);
            }
            extend_u64_le(buf, v.len() as u64);
            let ghost start = buf@;
            let mut i: usize = 0;
            while i < v.len()
                invariant
                    i <= v@.len(),
                    *dc == Datacell::List(*v),
                    cs == cells_view(v@),
                    cs.len() == v@.len(),
                    forall|j: int| 0 <= j < v@.len() ==> #[trigger] cs[j] == cell_view(v@[j]),
                    start + enc_items(cs, 0) == buf@ + enc_items(cs, i as int),
                    forall|j: int| 0 <= j < i ==> #[trigger] cell_wf(cs[j]),
                decreases v@.len() - i,
            {
                let ghost before = buf@;
                proof {
                    vstd::std_specs::vec::axiom_vec_index_decreases(*v, i as int);
                    assert(decreases_to!(*dc => (*dc)->List_0));
                    assert(decreases_to!(*dc => v@[i as int]));
                }
                encode_datacell_tag(buf, &v[i]);
                encode_element(buf, &v[i]);
                assert(enc_items(cs, i as int) == seq![cell_dscr(cs[i as int])] + enc_cell(cs[i as int])
                    + enc_items(cs, i + 1));
                assert(buf@ + enc_items(cs, i + 1) =~= before + enc_items(cs, i as int));
                i = i + 1;
            }
            assert(enc_items(cs, i as int) =~= Seq::<u8>::empty());
            assert(buf@ =~= old(buf)@ + enc_cell(dc@));
            proof {
                lemma_items_wf_all(cs, 0);
            }
        },
    }
}

/// The size metadata of a persisted map: how many entries it has.
#[derive(Debug, PartialEq, Eq, Clone, Copy, PartialOrd, Ord)]
pub struct MapIndexSizeMD(pub usize);

/// Encoding and decoding of a whole map, for the map spec `M`.
pub struct PersistMapImpl<M>(PhantomData<M>);

/// The spec of generic dictionaries ([`DictGeneric`]).
pub struct GenericDictSpec;

impl GenericDictSpec {
    /// Writes an entry's metadata: its key length.
    pub fn entry_md_enc(buf: &mut Vec<u8>, key: &String, _val: &DictEntryGeneric)
        ensures
            final(buf)@ == old(buf)@ + le64(encode_utf8(key@).len() as u64),
    {
        let b = str_bytes(key);
        extend_u64_le(buf, b.len() as u64);
    }

    /// Writes an entry after its metadata: descriptor, key bytes, value payload.
    pub fn enc_entry(buf: &mut Vec<u8>, key: &String, val: &DictEntryGeneric)
        ensures
            final(buf)@ == old(buf)@ + seq![entry_dscr(val@)] + encode_utf8(key@) + enc_entry_val(val@),
            encode_utf8(key@).len() <= usize::MAX,
            entry_fits(val@),
        decreases val, 2nat,
    {
        let kb = str_bytes(key);
        assert(kb@.len() <= usize::MAX) by {
            assert(kb.len() == kb@.len());
        }
        match val {
            DictEntryGeneric::Dict(map) => {
                buf.push(8u8);
                extend_bytes(buf, kb);
                assert(decreases_to!(*val => (*val)->Dict_0));
                PersistMapImpl::<GenericDictSpec>::default_full_enc(buf, map);
            },
            DictEntryGeneric::Data(dc) => {
                encode_datacell_tag(buf, dc);
                extend_bytes(buf, kb);
                encode_element(buf, dc);
            },
        }
        assert(buf@ =~= old(buf)@ + seq![entry_dscr(val@)] + encode_utf8(key@) + enc_entry_val(val@));
    }
}

impl PersistMapImpl<GenericDictSpec> {
    /// Writes the map's size metadata.
    pub fn meta_enc(buf: &mut Vec<u8>, data: &DictGeneric)
        ensures
            final(buf)@ == old(buf)@ + le64(data@.len() as u64),
    {
        let n = data.st_len();
        extend_u64_le(buf, n as u64);
    }

    /// Writes every entry of the map, metadata first, in the map's order.
    pub fn obj_enc(buf: &mut Vec<u8>, map: &DictGeneric)
        ensures
            final(buf)@ == old(buf)@ + enc_entries(map@, 0),
            map@.len() <= usize::MAX,
            entries_fit(map@, 0),
        decreases map, 0nat,
    {
        proof {
            lemma_entries_view(map.entries@);
        }
        let ghost es = map@;
        let n = map.entries.len();
        let mut i: usize = 0;
        while i < n
            invariant
                n == map.entries@.len(),
                i <= n,
                es == map@,
                es == entries_view(map.entries@),
                es.len() == n,
                forall|j: int|
                    0 <= j < n ==> #[trigger] es[j] == (map.entries@[j].0@, entry_view(map.entries@[j].1)),
                old(buf)@ + enc_entries(es, 0) == buf@ + enc_entries(es, i as int),
                forall|j: int| 0 <= j < i ==> encode_utf8(#[trigger] es[j].0).len() <= usize::MAX && entry_fits(es[j].1),
            decreases n - i,
        {
            let ghost before = buf@;
            let entry = &map.entries[i];
            proof {
                vstd::std_specs::vec::axiom_vec_index_decreases(map.entries, i as int);
                assert(decreases_to!(*map => map.entries));
                assert(decreases_to!(map.entries@[i as int] => map.entries@[i as int].1));
            }
            GenericDictSpec::entry_md_enc(buf, &entry.0, &entry.1);
            GenericDictSpec::enc_entry(buf, &entry.0, &entry.1);
            assert(enc_entries(es, i as int) == persist::enc_entry(es[i as int].0, es[i as int].1)
                + enc_entries(es, i + 1));
            assert(buf@ + enc_entries(es, i + 1) =~= before + enc_entries(es, i as int));
            i = i + 1;
        }
        assert(enc_entries(es, i as int) =~= Seq::<u8>::empty());
        assert(buf@ =~= old(buf)@ + enc_entries(map@, 0));
        proof {
            lemma_entries_fit_all(es, 0);
        }
    }

    /// Writes the whole map: size metadata, then the entries.
    pub fn default_full_enc(buf: &mut Vec<u8>, map: &DictGeneric)
        ensures
            final(buf)@ == old(buf)@ + enc_dict(map@),
            dict_fits(map@),
        decreases map, 1nat,
    {
        Self::meta_enc(buf, map);
        Self::obj_enc(buf, map);
        assert(buf@ =~= old(buf)@ + enc_dict(map@));
    }
}

/// Reads the payload of a cell whose descriptor byte is `d` (not a dictionary).
pub fn decode_cell(scanner: &mut BufferedScanner, d: u8) -> (r: Option<Datacell>)
    requires
        old(scanner).wf(),
        d <= 7,
        !cell_traps(old(scanner).rest(), d),
    ensures
        final(scanner).wf(),
        final(scanner).data() == old(scanner).data(),
        final(scanner).pos() >= old(scanner).pos(),
        match dec_cell(old(scanner).rest(), d) {
            Some((c, rest)) => r matches Some(x) && x@ == c && final(scanner).rest() == rest,
            None => r is None,
        },
    decreases old(scanner).rest().len(),
{
    let ghost b = scanner.rest();
    if d == 0 {
        return Some(Datacell::Null);
    }
    if d == 1 {
        if !scanner.has_left(1) {
            return None;
        }
        let x = scanner.next_byte();
        return Some(Datacell::Bool(x == 1));
    }
    if !scanner.has_left(8) {
        return None;
    }
    let x = scanner.next_u64_le();
    if d == 2 {
        return Some(Datacell::UnsignedInt(x));
    }
    if d == 3 {
        return Some(Datacell::SignedInt(x as i64));
    }
    if d == 4 {
        return Some(Datacell::Float(x));
    }
    let n = x as usize;
    if d == 5 || d == 6 {
        if !scanner.has_left(n) {
            return None;
        }
        let slc = scanner.next_chunk_variable(n);
        if d == 5 {
            return Some(Datacell::Bin(slice_to_vec(slc)));
        }
        match str_from_utf8(slc) {
            Some(s) => {
                proof {
                    vstd::utf8::encode_utf8_decode_utf8(s@);
                }
                return Some(Datacell::Str(s));
            },
            None => {
                return None;
            },
        }
    }
    // a list: `n` items, each a descriptor byte and a payload
    let mut v: Vec<Datacell> = Vec::new();
    proof {
        lemma_cells_view(v@);
    }
    while !scanner.eof() && v.len() < n
        invariant
            old(scanner).wf(),
            d == 7,
            scanner.wf(),
            scanner.data() == old(scanner).data(),
            scanner.pos() >= old(scanner).pos() + 8,
            b == old(scanner).rest(),
            b.len() >= 8,
            n == rd64(b) as usize,
            dec_items(after(b, 8), n, Seq::empty()) == dec_items(scanner.rest(), n, cells_view(v@)),
            cells_view(v@).len() == v@.len(),
            !items_trap(scanner.rest(), n, v@.len() as nat),
        decreases scanner.rest().len(),
    {
        let ghost rb = scanner.rest();
        let dscr = scanner.next_byte();
        proof {
            assert(rb.len() > 0 && cells_view(v@).len() < n);
            assert(dscr == rb[0]);
        }
        if dscr > 7 {
            assert(dec_items(rb, n, cells_view(v@)) is None);
            return None;
        }
        proof {
            assert(scanner.rest() =~= after(rb, 1));
            assert(scanner.rest().len() < old(scanner).rest().len());
        }
        match decode_cell(scanner, dscr) {
            Some(c) => {
                proof {
                    lemma_cells_view_push(v@, c);
                }
                v.push(c);
            },
            None => {
                return None;
            },
        }
    }
    if v.len() == n {
        proof {
            lemma_cells_view(v@);
        }
        Some(Datacell::List(v))
    } else {
        None
    }
}

/// The metadata of a generic dictionary entry: its value's descriptor and its key length.
pub struct GenericDictEntryMD {
    pub dscr: u8,
    pub klen: usize,
}

impl GenericDictEntryMD {
    /// Reads entry metadata from its nine bytes: key length (little endian), then descriptor.
    pub fn decode(data: [u8; 9]) -> (r: Self)
        ensures
            r.klen == spec_u64_from_le_bytes(data@.subrange(0, 8)) as usize,
            r.dscr == data@[8],
    {
        let s = slice_subrange(data.as_slice(), 0, 8);
        let klen = u64_from_le_bytes(s) as usize;
        GenericDictEntryMD { klen, dscr: data[8] }
    }

    /// The nine bytes of entry metadata.
    pub fn encode(klen: usize, dscr: u8) -> (r: [u8; 9])
        ensures
            r@ == le64(klen as u64).push(dscr),
    {
        let b = u64_to_le_bytes(klen as u64);
        let r = [b[0], b[1], b[2], b[3], b[4], b[5], b[6], b[7], dscr];
        assert(r@ =~= le64(klen as u64).push(dscr));
        r
    }
}

impl GenericDictSpec {
    /// Whether an entry's metadata can be read.
    pub fn pretest_entry_metadata(scanner: &BufferedScanner) -> (r: bool)
        requires
            scanner.wf(),
        ensures
            r == (scanner.rest().len() >= 9),
    {
        scanner.has_left(9)
    }

    /// Whether the key and the least payload that the metadata announce are there, and
    /// the descriptor is known.
    pub fn pretest_entry_data(scanner: &BufferedScanner, md: &GenericDictEntryMD) -> (r: bool)
        requires
            scanner.wf(),
        ensures
            r == (scanner.rest().len() >= md.klen + expect_atleast(md.dscr) && md.dscr <= 8),
    {
        let atleast: usize = if md.dscr == 0 {
            0
        } else if md.dscr == 1 {
            1
        } else {
            8
        };
        let rem = scanner.remaining();
        (md.klen <= rem && rem - md.klen >= atleast) && md.dscr <= 8
    }

    /// Reads an entry's metadata.
    pub fn entry_md_dec(scanner: &mut BufferedScanner) -> (r: Option<GenericDictEntryMD>)
        requires
            old(scanner).wf(),
            old(scanner).rest().len() >= 9,
        ensures
            final(scanner).wf(),
            final(scanner).data() == old(scanner).data(),
            final(scanner).pos() == old(scanner).pos() + 9,
            final(scanner).rest() == after(old(scanner).rest(), 9),
            r matches Some(md) && md.klen == rd64(old(scanner).rest()) as usize && md.dscr
                == old(scanner).rest()[8],
    {
        let s = scanner.next_chunk_variable(9);
        let data = [s[0], s[1], s[2], s[3], s[4], s[5], s[6], s[7], s[8]];
        assert(data@.subrange(0, 8) =~= old(scanner).rest().subrange(0, 8));
        Some(GenericDictEntryMD::decode(data))
    }

    /// Reads an entry's key.
    pub fn dec_key(scanner: &mut BufferedScanner, md: &GenericDictEntryMD) -> (r: Option<String>)
        requires
            old(scanner).wf(),
            old(scanner).rest().len() >= md.klen,
        ensures
            final(scanner).wf(),
            final(scanner).data() == old(scanner).data(),
            final(scanner).pos() == old(scanner).pos() + md.klen,
            final(scanner).rest() == after(old(scanner).rest(), md.klen as int),
            ({
                let kb = old(scanner).rest().subrange(0, md.klen as int);
                &&& r is Some <==> valid_utf8(kb)
                &&& r matches Some(k) ==> k@ == decode_utf8(kb)
            }),
    {
        let slc = scanner.next_chunk_variable(md.klen);
        let r = str_from_utf8(slc);
        proof {
            if r is Some {
                vstd::utf8::encode_utf8_decode_utf8(r->Some_0@);
            }
        }
        r
    }

    /// Reads an entry's value; a nested dictionary is read whole.
    pub fn dec_val(scanner: &mut BufferedScanner, md: &GenericDictEntryMD) -> (r: Option<DictEntryGeneric>)
        requires
            old(scanner).wf(),
            md.dscr <= 8,
            !entry_val_traps(old(scanner).rest(), md.dscr),
        ensures
            final(scanner).wf(),
            final(scanner).data() == old(scanner).data(),
            final(scanner).pos() >= old(scanner).pos(),
            match dec_entry_val(old(scanner).rest(), md.dscr) {
                Some((v, rest)) => r matches Some(x) && x@ == v && final(scanner).rest() == rest,
                None => r is None,
            },
            r matches Some(x) ==> entry_keys_distinct(x@),
        decreases old(scanner).rest().len(), 2nat,
    {
        if md.dscr == 8 {
            match PersistMapImpl::<GenericDictSpec>::default_full_dec(scanner) {
                Ok(m) => Some(DictEntryGeneric::Dict(m)),
                Err(_) => None,
            }
        } else {
            match decode_cell(scanner, md.dscr) {
                Some(c) => Some(DictEntryGeneric::Data(c)),
                None => None,
            }
        }
    }
}

impl PersistMapImpl<GenericDictSpec> {
    /// Whether the object can be decoded given its metadata (always, for dictionaries).
    pub fn pretest_can_dec_object(_scanner: &BufferedScanner, _md: &MapIndexSizeMD) -> (r: bool)
        ensures
            r,
    {
        true
    }

    /// Reads the map's size metadata.
    pub fn meta_dec(scanner: &mut BufferedScanner) -> (r: Result<MapIndexSizeMD, SDSSErrorKind>)
        requires
            old(scanner).wf(),
            old(scanner).rest().len() >= 8,
        ensures
            final(scanner).wf(),
            final(scanner).data() == old(scanner).data(),
            final(scanner).pos() == old(scanner).pos() + 8,
            final(scanner).rest() == after(old(scanner).rest(), 8),
            r matches Ok(md) && md.0 == rd64(old(scanner).rest()) as usize,
    {
        let x = scanner.next_u64_le();
        Ok(MapIndexSizeMD(x as usize))
    }

    /// Reads entries until the map holds as many as its metadata says.
    pub fn obj_dec(scanner: &mut BufferedScanner, md: MapIndexSizeMD) -> (r: Result<DictGeneric, SDSSErrorKind>)
        requires
            old(scanner).wf(),
            !entries_trap(old(scanner).rest(), md.0, Seq::empty()),
        ensures
            final(scanner).wf(),
            final(scanner).data() == old(scanner).data(),
            final(scanner).pos() >= old(scanner).pos(),
            match dec_entries(old(scanner).rest(), md.0, Seq::empty()) {
                Ok((es, rest)) => r matches Ok(d) && d@ == es && final(scanner).rest() == rest,
                Err(e) => r matches Err(e2) && e2 == e,
            },
            r matches Ok(d) ==> d.wf(),
        decreases old(scanner).rest().len(), 0nat,
    {
        let ghost b0 = scanner.rest();
        let mut dict = DictGeneric::new();
        while GenericDictSpec::pretest_entry_metadata(scanner) && dict.st_len() != md.0
            invariant
                old(scanner).wf(),
                scanner.wf(),
                scanner.data() == old(scanner).data(),
                scanner.pos() >= old(scanner).pos(),
                b0 == old(scanner).rest(),
                dec_entries(b0, md.0, Seq::empty()) == dec_entries(scanner.rest(), md.0, dict@),
                !entries_trap(scanner.rest(), md.0, dict@),
                dict.wf(),
            decreases scanner.rest().len(),
        {
            let ghost b = scanner.rest();
            let emd = match GenericDictSpec::entry_md_dec(scanner) {
                Some(m) => m,
                None => {
                    return Err(SDSSErrorKind::InternalDecodeStructureCorruptedPayload);
                },
            };
            if !GenericDictSpec::pretest_entry_data(scanner, &emd) {
                return Err(SDSSErrorKind::InternalDecodeStructureCorruptedPayload);
            }
            let k = GenericDictSpec::dec_key(scanner, &emd);
            let ghost r1 = scanner.rest();
            assert(r1.len() < old(scanner).rest().len());
            let v = GenericDictSpec::dec_val(scanner, &emd);
            proof {
                let klen = rd64(b) as usize;
                let r = after(b, 9);
                assert(emd.klen == klen);
                assert(r1 =~= after(r, klen as int));
                assert(scanner.rest().len() < b.len());
                if k is Some {
                    vstd::utf8::encode_utf8_decode_utf8(k->Some_0@);
                }
            }
            match (k, v) {
                (Some(k), Some(v)) => {
                    if !dict.st_insert(k, v) {
                        return Err(SDSSErrorKind::InternalDecodeStructureIllegalData);
                    }
                },
                _ => {
                    return Err(SDSSErrorKind::InternalDecodeStructureCorruptedPayload);
                },
            }
        }
        if dict.st_len() == md.0 {
            Ok(dict)
        } else {
            Err(SDSSErrorKind::InternalDecodeStructureIllegalData)
        }
    }

    /// Reads a whole map: size metadata, then its entries.
    pub fn default_full_dec(scanner: &mut BufferedScanner) -> (r: Result<DictGeneric, SDSSErrorKind>)
        requires
            old(scanner).wf(),
            !dict_traps(old(scanner).rest()),
        ensures
            final(scanner).wf(),
            final(scanner).data() == old(scanner).data(),
            final(scanner).pos() >= old(scanner).pos(),
            match dec_dict(old(scanner).rest()) {
                Ok((es, rest)) => r matches Ok(d) && d@ == es && final(scanner).rest() == rest,
                Err(e) => r matches Err(e2) && e2 == e,
            },
            r matches Ok(d) ==> d.wf(),
        decreases old(scanner).rest().len(), 1nat,
    {
        if !scanner.has_left(8) {
            return Err(SDSSErrorKind::InternalDecodeStructureCorrupted);
        }
        let md = match Self::meta_dec(scanner) {
            Ok(md) => md,
            Err(e) => {
                return Err(e);
            },
        };
        if Self::pretest_can_dec_object(scanner, &md) {
            Self::obj_dec(scanner, md)
        } else {
            Err(SDSSErrorKind::InternalDecodeStructureCorruptedPayload)
        }
    }
}

/// The size metadata of every map spec reads back as written: the eight bytes that
/// `meta_enc` writes for a map of `n` entries (of either spec), followed by any bytes, are
/// read by `meta_dec` as `n`, leaving exactly the bytes that followed.
pub proof fn lemma_size_metadata_roundtrip(n: usize, rest: Seq<u8>)
    ensures
        (le64(n as u64) + rest).len() >= 8,
        rd64(le64(n as u64) + rest) as usize == n,
        after(le64(n as u64) + rest, 8) == rest,
{
    persist::lemma_rd64_pub(n as u64, rest);
}

/// Whether decoding a cell with descriptor `d` from the front of `b` would meet, among the
/// items of a list, one with the dictionary descriptor (which the decoders do not accept).
pub fn cell_would_trap(b: &[u8], d: u8) -> (r: bool)
    ensures
        r == cell_traps(b@, d),
    decreases b@.len(), 1nat,
{
    if d != 7 || b.len() < 8 {
        return false;
    }
    let mut s = BufferedScanner::new(b);
    let n = s.next_u64_le() as usize;
    let rest = slice_subrange(b, 8, b.len());
    assert(rest@ =~= after(b@, 8));
    items_would_trap(rest, n)
}

/// Whether decoding `n` list items from the front of `b` would meet one with the
/// dictionary descriptor.
fn items_would_trap(b: &[u8], n: usize) -> (r: bool)
    ensures
        r == items_trap(b@, n, 0),
    decreases b@.len(), 0nat,
{
    let mut s = BufferedScanner::new(b);
    let mut k: usize = 0;
    while !s.eof() && k < n
        invariant
            s.wf(),
            s.data() == b@,
            k <= n,
            items_trap(b@, n, 0) == items_trap(s.rest(), n, k as nat),
        decreases s.rest().len(),
    {
        let ghost rb = s.rest();
        let d = s.next_byte();
        if d == 8 {
            return true;
        }
        if d > 8 {
            return false;
        }
        let rest = slice_subrange(b, s.consumed(), b.len());
        assert(rest@ =~= s.rest());
        assert(s.rest() =~= after(rb, 1));
        if cell_would_trap(rest, d) {
            return true;
        }
        match decode_cell(&mut s, d) {
            Some(_) => {},
            None => {
                return false;
            },
        }
        k = k + 1;
    }
    false
}

/// Whether decoding a persisted dictionary from the front of `b` would meet a list item
/// with the dictionary descriptor (which the decoders do not accept): untrusted bytes can
/// be tested with this before they are decoded.
pub fn dict_would_trap(b: &[u8]) -> (r: bool)
    ensures
        r == dict_traps(b@),
    decreases b@.len(), 1nat,
{
    if b.len() < 8 {
        return false;
    }
    let mut s = BufferedScanner::new(b);
    let n = s.next_u64_le() as usize;
    let rest = slice_subrange(b, 8, b.len());
    assert(rest@ =~= after(b@, 8));
    entries_would_trap(rest, n)
}

/// Whether decoding an entry value with descriptor `d` from the front of `b` would meet a
/// list item with the dictionary descriptor.
fn entry_val_would_trap(b: &[u8], d: u8) -> (r: bool)
    ensures
        r == entry_val_traps(b@, d),
    decreases b@.len(), 2nat,
{
    if d == 8 {
        dict_would_trap(b)
    } else {
        cell_would_trap(b, d)
    }
}

/// Whether decoding `size` dictionary entries from the front of `b` would meet a list item
/// with the dictionary descriptor.
fn entries_would_trap(b: &[u8], size: usize) -> (r: bool)
    ensures
        r == entries_trap(b@, size, Seq::empty()),
    decreases b@.len(), 0nat,
{
    let mut s = BufferedScanner::new(b);
    let mut acc = DictGeneric::new();
    while s.has_left(9) && acc.st_len() != size
        invariant
            s.wf(),
            s.data() == b@,
            entries_trap(b@, size, Seq::empty()) == entries_trap(s.rest(), size, acc@),
        decreases s.rest().len(),
    {
        let ghost rb = s.rest();
        let emd = match GenericDictSpec::entry_md_dec(&mut s) {
            Some(m) => m,
            None => {
                return false;
            },
        };
        if !GenericDictSpec::pretest_entry_data(&s, &emd) {
            return false;
        }
        let k = GenericDictSpec::dec_key(&mut s, &emd);
        let ghost r1 = s.rest();
        let vslice = slice_subrange(b, s.consumed(), b.len());
        assert(vslice@ =~= s.rest());
        proof {
            let klen = rd64(rb) as usize;
            let r = after(rb, 9);
            assert(emd.klen == klen);
            assert(r1 =~= after(r, klen as int));
        }
        if entry_val_would_trap(vslice, emd.dscr) {
            return true;
        }
        let v = GenericDictSpec::dec_val(&mut s, &emd);
        proof {
            assert(s.rest().len() < rb.len());
            if k is Some {
                vstd::utf8::encode_utf8_decode_utf8(k->Some_0@);
            }
        }
        match (k, v) {
            (Some(k), Some(v)) => {
                if !acc.st_insert(k, v) {
                    return false;
                }
            },
            _ => {
                return false;
            },
        }
    }
    false
}

/// The spec of a model's field map.
pub struct FieldMapSpec;

/// The spec of a field map kept in a map without order; it persists fields exactly as
/// [`FieldMapSpec`] does.
pub struct FieldMapSpecST;

/// The metadata of a field map entry.
pub struct FieldMapEntryMD {
    field_id_l: u64,
    field_prop_c: u64,
    field_layer_c: u64,
    null: u8,
}

impl FieldMapEntryMD {
    /// Entry metadata from its parts.
    pub fn new(field_id_l: u64, field_prop_c: u64, field_layer_c: u64, null: u8) -> (r: Self)
        ensures
            r.id_l() == field_id_l,
            r.prop_c() == field_prop_c,
            r.layer_c() == field_layer_c,
            r.null_byte() == null,
    {
        FieldMapEntryMD { field_id_l, field_prop_c, field_layer_c, null }
    }

    /// The length of the field's name.
    pub closed spec fn id_l(&self) -> u64 {
        self.field_id_l
    }

    /// The field's property count.
    pub closed spec fn prop_c(&self) -> u64 {
        self.field_prop_c
    }

    /// The field's layer count.
    pub closed spec fn layer_c(&self) -> u64 {
        self.field_layer_c
    }

    /// The field's nullability byte.
    pub closed spec fn null_byte(&self) -> u8 {
        self.null
    }
}

impl FieldMapSpec {
    /// Whether an entry's metadata can be read.
    pub fn pretest_entry_metadata(scanner: &BufferedScanner) -> (r: bool)
        requires
            scanner.wf(),
        ensures
            r == (scanner.rest().len() >= 25),
    {
        scanner.has_left(25)
    }

    /// Whether the field's name is there.
    pub fn pretest_entry_data(scanner: &BufferedScanner, md: &FieldMapEntryMD) -> (r: bool)
        requires
            scanner.wf(),
        ensures
            r == (scanner.rest().len() >= md.id_l() as usize),
    {
        scanner.has_left(md.field_id_l as usize)
    }

    /// Writes an entry's metadata: name length, property count, layer count, nullability.
    pub fn entry_md_enc(buf: &mut Vec<u8>, key: &String, val: &Field)
        ensures
            final(buf)@ == old(buf)@ + enc_field_md(key@, val@),
    {
        let kb = str_bytes(key);
        extend_u64_le(buf, kb.len() as u64);
        extend_u64_le(buf, 0);
        extend_u64_le(buf, val.layers.len() as u64);
        buf.push(if val.nullable { 1u8 } else { 0u8 });
        assert(buf@ =~= old(buf)@ + enc_field_md(key@, val@));
    }

    /// Reads an entry's metadata.
    pub fn entry_md_dec(scanner: &mut BufferedScanner) -> (r: Option<FieldMapEntryMD>)
        requires
            old(scanner).wf(),
            old(scanner).rest().len() >= 25,
        ensures
            final(scanner).wf(),
            final(scanner).data() == old(scanner).data(),
            final(scanner).pos() == old(scanner).pos() + 25,
            final(scanner).rest() == after(old(scanner).rest(), 25),
            ({
                let b = old(scanner).rest();
                r matches Some(md) && md.id_l() == rd64(b) && md.prop_c() == rd64(after(b, 8))
                    && md.layer_c() == rd64(after(b, 16)) && md.null_byte() == b[24]
            }),
    {
        let ghost b = scanner.rest();
        let a = scanner.next_u64_le();
        let ghost b1 = scanner.rest();
        let p = scanner.next_u64_le();
        let ghost b2 = scanner.rest();
        let l = scanner.next_u64_le();
        let n = scanner.next_byte();
        assert(b1 =~= after(b, 8));
        assert(b2 =~= after(b, 16));
        assert(scanner.rest() =~= after(b, 25));
        Some(FieldMapEntryMD::new(a, p, l, n))
    }

    /// Writes a field's name.
    pub fn enc_key(buf: &mut Vec<u8>, key: &String)
        ensures
            final(buf)@ == old(buf)@ + encode_utf8(key@),
    {
        extend_bytes(buf, str_bytes(key));
    }

    /// Writes a field's layers.
    pub fn enc_val(buf: &mut Vec<u8>, val: &Field)
        ensures
            final(buf)@ == old(buf)@ + enc_layers(val.layers@, 0),
    {
        FieldRef::obj_enc(buf, val);
    }

    /// Reads a field's name.
    pub fn dec_key(scanner: &mut BufferedScanner, md: &FieldMapEntryMD) -> (r: Option<String>)
        requires
            old(scanner).wf(),
            old(scanner).rest().len() >= md.id_l() as usize,
        ensures
            final(scanner).wf(),
            final(scanner).data() == old(scanner).data(),
            final(scanner).rest() == after(old(scanner).rest(), md.id_l() as usize as int),
            ({
                let kb = old(scanner).rest().subrange(0, md.id_l() as usize as int);
                &&& r is Some <==> valid_utf8(kb)
                &&& r matches Some(k) ==> k@ == decode_utf8(kb)
            }),
    {
        let slc = scanner.next_chunk_variable(md.field_id_l as usize);
        let r = str_from_utf8(slc);
        proof {
            if r is Some {
                vstd::utf8::encode_utf8_decode_utf8(r->Some_0@);
            }
        }
        r
    }

    /// Reads a field's layers.
    pub fn dec_val(scanner: &mut BufferedScanner, md: &FieldMapEntryMD) -> (r: Option<Field>)
        requires
            old(scanner).wf(),
        ensures
            final(scanner).wf(),
            final(scanner).data() == old(scanner).data(),
            final(scanner).pos() >= old(scanner).pos(),
            match dec_field(old(scanner).rest(), md.prop_c(), md.layer_c(), md.null_byte()) {
                Ok((f, rest)) => r matches Some(x) && x@ == f && final(scanner).rest() == rest,
                Err(_) => r is None,
            },
    {
        match FieldRef::obj_dec(scanner, FieldMD::new(md.field_prop_c, md.field_layer_c, md.null)) {
            Ok(f) => Some(f),
            Err(_) => None,
        }
    }
}

impl PersistMapImpl<FieldMapSpec> {
    /// Writes the map's size metadata.
    pub fn meta_enc(buf: &mut Vec<u8>, data: &FieldMap)
        ensures
            final(buf)@ == old(buf)@ + le64(data@.len() as u64),
    {
        extend_u64_le(buf, data.st_len() as u64);
    }

    /// Writes every field, metadata then name then layers, in declaration order.
    pub fn obj_enc(buf: &mut Vec<u8>, map: &FieldMap)
        ensures
            final(buf)@ == old(buf)@ + enc_field_entries(map@, 0),
    {
        let ghost es = map@;
        let n = map.entries.len();
        let mut i: usize = 0;
        while i < n
            invariant
                n == map.entries@.len(),
                i <= n,
                es == map@,
                old(buf)@ + enc_field_entries(es, 0) == buf@ + enc_field_entries(es, i as int),
            decreases n - i,
        {
            let ghost before = buf@;
            let entry = &map.entries[i];
            FieldMapSpec::entry_md_enc(buf, &entry.0, &entry.1);
            FieldMapSpec::enc_key(buf, &entry.0);
            FieldMapSpec::enc_val(buf, &entry.1);
            assert(enc_field_entries(es, i as int) == enc_field_entry(es[i as int].0, es[i as int].1)
                + enc_field_entries(es, i + 1));
            assert(buf@ + enc_field_entries(es, i + 1) =~= before + enc_field_entries(es, i as int));
            i = i + 1;
        }
        assert(enc_field_entries(es, i as int) =~= Seq::<u8>::empty());
        assert(buf@ =~= old(buf)@ + enc_field_entries(map@, 0));
    }

    /// Writes the whole map: size metadata, then its fields.
    pub fn default_full_enc(buf: &mut Vec<u8>, map: &FieldMap)
        ensures
            final(buf)@ == old(buf)@ + enc_field_map(map@),
    {
        Self::meta_enc(buf, map);
        Self::obj_enc(buf, map);
        assert(buf@ =~= old(buf)@ + enc_field_map(map@));
    }

    /// Reads the map's size metadata.
    pub fn meta_dec(scanner: &mut BufferedScanner) -> (r: Result<MapIndexSizeMD, SDSSErrorKind>)
        requires
            old(scanner).wf(),
            old(scanner).rest().len() >= 8,
        ensures
            final(scanner).wf(),
            final(scanner).data() == old(scanner).data(),
            final(scanner).pos() == old(scanner).pos() + 8,
            final(scanner).rest() == after(old(scanner).rest(), 8),
            r matches Ok(md) && md.0 == rd64(old(scanner).rest()) as usize,
    {
        let x = scanner.next_u64_le();
        Ok(MapIndexSizeMD(x as usize))
    }

    /// Whether the object can be decoded given its metadata (always, for field maps).
    pub fn pretest_can_dec_object(_scanner: &BufferedScanner, _md: &MapIndexSizeMD) -> (r: bool)
        ensures
            r,
    {
        true
    }

    /// Reads fields until the map holds as many as its metadata says.
    pub fn obj_dec(scanner: &mut BufferedScanner, md: MapIndexSizeMD) -> (r: Result<FieldMap, SDSSErrorKind>)
        requires
            old(scanner).wf(),
        ensures
            final(scanner).wf(),
            final(scanner).data() == old(scanner).data(),
            final(scanner).pos() >= old(scanner).pos(),
            match dec_field_entries(old(scanner).rest(), md.0, Seq::empty()) {
                Ok((es, rest)) => r matches Ok(d) && d@ == es && final(scanner).rest() == rest,
                Err(e) => r matches Err(e2) && e2 == e,
            },
            r matches Ok(d) ==> d.wf(),
    {
        let ghost b0 = scanner.rest();
        let mut map = FieldMap::new();
        while FieldMapSpec::pretest_entry_metadata(scanner) && map.st_len() != md.0
            invariant
                old(scanner).wf(),
                scanner.wf(),
                scanner.data() == old(scanner).data(),
                scanner.pos() >= old(scanner).pos(),
                b0 == old(scanner).rest(),
                dec_field_entries(b0, md.0, Seq::empty()) == dec_field_entries(scanner.rest(), md.0, map@),
                map.wf(),
            decreases scanner.rest().len(),
        {
            let ghost b = scanner.rest();
            let emd = match FieldMapSpec::entry_md_dec(scanner) {
                Some(m) => m,
                None => {
                    return Err(SDSSErrorKind::InternalDecodeStructureCorruptedPayload);
                },
            };
            if !FieldMapSpec::pretest_entry_data(scanner, &emd) {
                return Err(SDSSErrorKind::InternalDecodeStructureCorruptedPayload);
            }
            let k = FieldMapSpec::dec_key(scanner, &emd);
            let ghost r1 = scanner.rest();
            let v = FieldMapSpec::dec_val(scanner, &emd);
            proof {
                let r = after(b, 25);
                assert(r1 =~= after(r, rd64(b) as usize as int));
                assert(scanner.rest().len() < b.len());
                if k is Some {
                    vstd::utf8::encode_utf8_decode_utf8(k->Some_0@);
                }
            }
            match (k, v) {
                (Some(k), Some(v)) => {
                    if !map.st_insert(k, v) {
                        return Err(SDSSErrorKind::InternalDecodeStructureIllegalData);
                    }
                },
                _ => {
                    return Err(SDSSErrorKind::InternalDecodeStructureCorruptedPayload);
                },
            }
        }
        if map.st_len() == md.0 {
            Ok(map)
        } else {
            Err(SDSSErrorKind::InternalDecodeStructureIllegalData)
        }
    }

    /// Reads a whole field map: size metadata, then its fields.
    pub fn default_full_dec(scanner: &mut BufferedScanner) -> (r: Result<FieldMap, SDSSErrorKind>)
        requires
            old(scanner).wf(),
        ensures
            final(scanner).wf(),
            final(scanner).data() == old(scanner).data(),
            final(scanner).pos() >= old(scanner).pos(),
            match dec_field_map(old(scanner).rest()) {
                Ok((es, rest)) => r matches Ok(d) && d@ == es && final(scanner).rest() == rest,
                Err(e) => r matches Err(e2) && e2 == e,
            },
            r matches Ok(d) ==> d.wf(),
    {
        if !scanner.has_left(8) {
            return Err(SDSSErrorKind::InternalDecodeStructureCorrupted);
        }
        let md = match Self::meta_dec(scanner) {
            Ok(md) => md,
            Err(e) => {
                return Err(e);
            },
        };
        if Self::pretest_can_dec_object(scanner, &md) {
            Self::obj_dec(scanner, md)
        } else {
            Err(SDSSErrorKind::InternalDecodeStructureCorruptedPayload)
        }
    }
}

impl FieldMapSpecST {
    /// Whether an entry's metadata can be read.
    pub fn pretest_entry_metadata(scanner: &BufferedScanner) -> (r: bool)
        requires
            scanner.wf(),
        ensures
            r == (scanner.rest().len() >= 25),
    {
        FieldMapSpec::pretest_entry_metadata(scanner)
    }

    /// Whether the field's name is there.
    pub fn pretest_entry_data(scanner: &BufferedScanner, md: &FieldMapEntryMD) -> (r: bool)
        requires
            scanner.wf(),
        ensures
            r == (scanner.rest().len() >= md.id_l() as usize),
    {
        FieldMapSpec::pretest_entry_data(scanner, md)
    }

    /// Writes an entry's metadata.
    pub fn entry_md_enc(buf: &mut Vec<u8>, key: &String, val: &Field)
        ensures
            final(buf)@ == old(buf)@ + enc_field_md(key@, val@),
    {
        FieldMapSpec::entry_md_enc(buf, key, val)
    }

    /// Reads an entry's metadata.
    pub fn entry_md_dec(scanner: &mut BufferedScanner) -> (r: Option<FieldMapEntryMD>)
        requires
            old(scanner).wf(),
            old(scanner).rest().len() >= 25,
        ensures
            final(scanner).wf(),
            final(scanner).data() == old(scanner).data(),
            final(scanner).rest() == after(old(scanner).rest(), 25),
            ({
                let b = old(scanner).rest();
                r matches Some(md) && md.id_l() == rd64(b) && md.prop_c() == rd64(after(b, 8))
                    && md.layer_c() == rd64(after(b, 16)) && md.null_byte() == b[24]
            }),
    {
        FieldMapSpec::entry_md_dec(scanner)
    }

    /// Writes a field's name.
    pub fn enc_key(buf: &mut Vec<u8>, key: &String)
        ensures
            final(buf)@ == old(buf)@ + encode_utf8(key@),
    {
        FieldMapSpec::enc_key(buf, key)
    }

    /// Writes a field's layers.
    pub fn enc_val(buf: &mut Vec<u8>, val: &Field)
        ensures
            final(buf)@ == old(buf)@ + enc_layers(val.layers@, 0),
    {
        FieldMapSpec::enc_val(buf, val)
    }

    /// Reads a field's name.
    pub fn dec_key(scanner: &mut BufferedScanner, md: &FieldMapEntryMD) -> (r: Option<String>)
        requires
            old(scanner).wf(),
            old(scanner).rest().len() >= md.id_l() as usize,
        ensures
            final(scanner).wf(),
            final(scanner).data() == old(scanner).data(),
            final(scanner).rest() == after(old(scanner).rest(), md.id_l() as usize as int),
            ({
                let kb = old(scanner).rest().subrange(0, md.id_l() as usize as int);
                &&& r is Some <==> valid_utf8(kb)
                &&& r matches Some(k) ==> k@ == decode_utf8(kb)
            }),
    {
        FieldMapSpec::dec_key(scanner, md)
    }

    /// Reads a field's layers.
    pub fn dec_val(scanner: &mut BufferedScanner, md: &FieldMapEntryMD) -> (r: Option<Field>)
        requires
            old(scanner).wf(),
        ensures
            final(scanner).wf(),
            final(scanner).data() == old(scanner).data(),
            match dec_field(old(scanner).rest(), md.prop_c(), md.layer_c(), md.null_byte()) {
                Ok((f, rest)) => r matches Some(x) && x@ == f && final(scanner).rest() == rest,
                Err(_) => r is None,
            },
    {
        FieldMapSpec::dec_val(scanner, md)
    }
}

impl PersistMapImpl<FieldMapSpecST> {
    /// Writes the whole map: size metadata, then its fields.
    pub fn default_full_enc(buf: &mut Vec<u8>, map: &FieldMap)
        ensures
            final(buf)@ == old(buf)@ + enc_field_map(map@),
    {
        PersistMapImpl::<FieldMapSpec>::default_full_enc(buf, map)
    }

    /// Reads a whole field map: size metadata, then its fields.
    pub fn default_full_dec(scanner: &mut BufferedScanner) -> (r: Result<FieldMap, SDSSErrorKind>)
        requires
            old(scanner).wf(),
        ensures
            final(scanner).wf(),
            final(scanner).data() == old(scanner).data(),
            match dec_field_map(old(scanner).rest()) {
                Ok((es, rest)) => r matches Ok(d) && d@ == es && final(scanner).rest() == rest,
                Err(e) => r matches Err(e2) && e2 == e,
            },
            r matches Ok(d) ==> d.wf(),
    {
        PersistMapImpl::<FieldMapSpec>::default_full_dec(scanner)
    }
}

} // verus!
