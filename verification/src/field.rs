//! Model fields (a stack of type layers and a nullability flag), the ordered field map
//! of a model, and the on-disk format of both.
use vstd::prelude::*;
use vstd::utf8::{valid_utf8, decode_utf8, encode_utf8};
use crate::data::{dict_has_key, names_distinct};
use crate::error::SDSSErrorKind;
use crate::persist::{le64, rd64, after, lemma_rd64_pub};
use crate::scanner::BufferedScanner;
use crate::map::extend_u64_le;

verus! {

/// The type selector of a layer.
#[derive(Debug, Clone, Copy, PartialEq, Eq, Structural)]
pub enum TagSelector {
    Bool,
    UInt8,
    UInt16,
    UInt32,
    UInt64,
    SInt8,
    SInt16,
    SInt32,
    SInt64,
    Float32,
    Float64,
    Bin,
    Str,
    List,
}

/// The number that stands for a selector on disk.
pub open spec fn selector_value(t: TagSelector) -> u64 {
    match t {
        TagSelector::Bool => 0,
        TagSelector::UInt8 => 1,
        TagSelector::UInt16 => 2,
        TagSelector::UInt32 => 3,
        TagSelector::UInt64 => 4,
        TagSelector::SInt8 => 5,
        TagSelector::SInt16 => 6,
        TagSelector::SInt32 => 7,
        TagSelector::SInt64 => 8,
        TagSelector::Float32 => 9,
        TagSelector::Float64 => 10,
        TagSelector::Bin => 11,
        TagSelector::Str => 12,
        TagSelector::List => 13,
    }
}

/// The selector of a number up to 13.
pub open spec fn selector_from(v: u64) -> TagSelector {
    if v == 0 { TagSelector::Bool }
    else if v == 1 { TagSelector::UInt8 }
    else if v == 2 { TagSelector::UInt16 }
    else if v == 3 { TagSelector::UInt32 }
    else if v == 4 { TagSelector::UInt64 }
    else if v == 5 { TagSelector::SInt8 }
    else if v == 6 { TagSelector::SInt16 }
    else if v == 7 { TagSelector::SInt32 }
    else if v == 8 { TagSelector::SInt64 }
    else if v == 9 { TagSelector::Float32 }
    else if v == 10 { TagSelector::Float64 }
    else if v == 11 { TagSelector::Bin }
    else if v == 12 { TagSelector::Str }
    else { TagSelector::List }
}

impl TagSelector {
    /// The number of this selector.
    pub fn value_qword(&self) -> (r: u64)
        ensures
            r == selector_value(*self),
    {
        match self {
            TagSelector::Bool => 0,
            TagSelector::UInt8 => 1,
            TagSelector::UInt16 => 2,
            TagSelector::UInt32 => 3,
            TagSelector::UInt64 => 4,
            TagSelector::SInt8 => 5,
            TagSelector::SInt16 => 6,
            TagSelector::SInt32 => 7,
            TagSelector::SInt64 => 8,
            TagSelector::Float32 => 9,
            TagSelector::Float64 => 10,
            TagSelector::Bin => 11,
            TagSelector::Str => 12,
            TagSelector::List => 13,
        }
    }

    /// The selector of a number up to 13.
    pub fn from_raw(v: u64) -> (r: Self)
        requires
            v <= 13,
        ensures
            r == selector_from(v),
            selector_value(r) == v,
    {
        if v == 0 { TagSelector::Bool }
        else if v == 1 { TagSelector::UInt8 }
        else if v == 2 { TagSelector::UInt16 }
        else if v == 3 { TagSelector::UInt32 }
        else if v == 4 { TagSelector::UInt64 }
        else if v == 5 { TagSelector::SInt8 }
        else if v == 6 { TagSelector::SInt16 }
        else if v == 7 { TagSelector::SInt32 }
        else if v == 8 { TagSelector::SInt64 }
        else if v == 9 { TagSelector::Float32 }
        else if v == 10 { TagSelector::Float64 }
        else if v == 11 { TagSelector::Bin }
        else if v == 12 { TagSelector::Str }
        else { TagSelector::List }
    }
}

/// One layer of a field's type.
#[derive(Debug, Clone, Copy, PartialEq, Eq, Structural)]
pub struct Layer {
    pub tag: TagSelector,
}

/// A field of a model: its layers (outermost first) and whether it may be null.
#[derive(Debug, PartialEq)]
pub struct Field {
    pub layers: Vec<Layer>,
    pub nullable: bool,
}

/// The mathematical value of a [`Field`].
pub struct FieldV {
    pub layers: Seq<Layer>,
    pub nullable: bool,
}

impl View for Field {
    type V = FieldV;

    open spec fn view(&self) -> FieldV {
        FieldV { layers: self.layers@, nullable: self.nullable }
    }
}

/// The fields of a model, by name, in the order they were declared.
#[derive(Debug, PartialEq)]
pub struct FieldMap {
    pub entries: Vec<(String, Field)>,
}

impl View for FieldMap {
    type V = Seq<(Seq<char>, FieldV)>;

    open spec fn view(&self) -> Seq<(Seq<char>, FieldV)> {
        Seq::new(self.entries@.len(), |i: int| (self.entries@[i].0@, self.entries@[i].1@))
    }
}

impl FieldMap {
    /// No two fields share a name.
    pub open spec fn wf(&self) -> bool {
        names_distinct(self@)
    }

    /// An empty field map.
    pub fn new() -> (r: Self)
        ensures
            r@ == Seq::<(Seq<char>, FieldV)>::empty(),
            r.wf(),
    {
        let r = FieldMap { entries: Vec::new() };
        assert(r@ =~= Seq::<(Seq<char>, FieldV)>::empty());
        r
    }

    /// The number of fields.
    pub fn st_len(&self) -> (r: usize)
        ensures
            r == self@.len(),
    {
        self.entries.len()
    }

    /// Adds field `k` unless a field of that name exists; tells whether it added.
    pub fn st_insert(&mut self, k: String, v: Field) -> (r: bool)
        ensures
            r == !dict_has_key(old(self)@, k@),
            r ==> final(self)@ == old(self)@.push((k@, v@)),
            !r ==> final(self)@ == old(self)@,
            old(self).wf() ==> final(self).wf(),
    {
        let n = self.entries.len();
        let mut i: usize = 0;
        while i < n
            invariant
                n == self.entries@.len(),
                i <= n,
                self@ == old(self)@,
                forall|j: int| 0 <= j < i ==> self.entries@[j].0@ != k@,
            decreases n - i,
        {
            if self.entries[i].0 == k {
                assert(self@[i as int].0 == k@);
                return false;
            }
            i = i + 1;
        }
        assert(!dict_has_key(old(self)@, k@)) by {
            if dict_has_key(old(self)@, k@) {
                let j = choose|j: int| 0 <= j < old(self)@.len() && #[trigger] old(self)@[j].0 == k@;
                assert(self@[j].0 == self.entries@[j].0@);
            }
        }
        self.entries.push((k, v));
        assert(self@ =~= old(self)@.push((k@, v@)));
        proof {
            let e = self@;
            if old(self).wf() {
                assert forall|i: int, j: int| 0 <= i < j < e.len() implies #[trigger] e[i].0 != #[trigger] e[j].0 by {
                    if j == e.len() - 1 {
                        assert(e[i] == old(self)@[i]);
                    } else {
                        assert(e[i] == old(self)@[i] && e[j] == old(self)@[j]);
                    }
                }
            }
        }
        true
    }
}

/// A persisted layer: its selector, then an (empty) property count.
pub open spec fn enc_layer(l: Layer) -> Seq<u8> {
    le64(selector_value(l.tag)) + le64(0)
}

/// The persisted layers `ls[i..]`.
pub open spec fn enc_layers(ls: Seq<Layer>, i: int) -> Seq<u8>
    decreases ls.len() - i,
{
    if 0 <= i < ls.len() {
        enc_layer(ls[i]) + enc_layers(ls, i + 1)
    } else {
        Seq::empty()
    }
}

/// A field's entry metadata: name length, property count (none), layer count, nullability.
pub open spec fn enc_field_md(k: Seq<char>, f: FieldV) -> Seq<u8> {
    le64(encode_utf8(k).len() as u64) + le64(0) + le64(f.layers.len() as u64) + seq![
        if f.nullable { 1u8 } else { 0u8 },
    ]
}

/// A persisted field map entry: metadata, name bytes, then the layers.
pub open spec fn enc_field_entry(k: Seq<char>, f: FieldV) -> Seq<u8> {
    enc_field_md(k, f) + encode_utf8(k) + enc_layers(f.layers, 0)
}

/// The persisted entries `es[i..]`.
pub open spec fn enc_field_entries(es: Seq<(Seq<char>, FieldV)>, i: int) -> Seq<u8>
    decreases es.len() - i,
{
    if 0 <= i < es.len() {
        enc_field_entry(es[i].0, es[i].1) + enc_field_entries(es, i + 1)
    } else {
        Seq::empty()
    }
}

/// A persisted field map: its size, then its entries.
pub open spec fn enc_field_map(es: Seq<(Seq<char>, FieldV)>) -> Seq<u8> {
    le64(es.len() as u64) + enc_field_entries(es, 0)
}

/// Decodes layers from the front of `b` until `layer_c` are held or a non-list layer ends
/// the stack; `acc` holds the layers so far and `fin` whether the last one ended it.
pub open spec fn dec_layers(b: Seq<u8>, layer_c: u64, acc: Seq<Layer>, fin: bool) -> Result<
    (Seq<Layer>, bool, Seq<u8>),
    SDSSErrorKind,
>
    decreases b.len(),
{
    if b.len() > 0 && acc.len() != layer_c && !fin {
        if b.len() < 16 {
            Err(SDSSErrorKind::InternalDecodeStructureCorrupted)
        } else {
            let sel = rd64(b);
            let arity = rd64(after(b, 8));
            if sel > 13 || arity != 0 {
                Err(SDSSErrorKind::InternalDecodeStructureCorruptedPayload)
            } else {
                dec_layers(after(b, 16), layer_c, acc.push(Layer { tag: selector_from(sel) }), sel != 13)
            }
        }
    } else {
        Ok((acc, fin, b))
    }
}

/// Decodes a field's layers from the front of `b`, given its metadata.
pub open spec fn dec_field(b: Seq<u8>, prop_c: u64, layer_c: u64, null: u8) -> Result<
    (FieldV, Seq<u8>),
    SDSSErrorKind,
> {
    match dec_layers(b, layer_c, Seq::empty(), false) {
        Err(e) => Err(e),
        Ok((ls, fin, r)) => if ls.len() == layer_c && null <= 1 && prop_c == 0 && fin {
            Ok((FieldV { layers: ls, nullable: null == 1 }, r))
        } else {
            Err(SDSSErrorKind::InternalDecodeStructureCorrupted)
        },
    }
}

/// Decodes field map entries from the front of `b` until `size` are held.
pub open spec fn dec_field_entries(b: Seq<u8>, size: usize, acc: Seq<(Seq<char>, FieldV)>) -> Result<
    (Seq<(Seq<char>, FieldV)>, Seq<u8>),
    SDSSErrorKind,
>
    decreases b.len(),
{
    if b.len() >= 25 && acc.len() != size {
        let id_l = rd64(b) as usize;
        let prop_c = rd64(after(b, 8));
        let layer_c = rd64(after(b, 16));
        let null = b[24];
        let r = after(b, 25);
        if r.len() < id_l {
            Err(SDSSErrorKind::InternalDecodeStructureCorruptedPayload)
        } else {
            let kb = r.subrange(0, id_l as int);
            match dec_field(after(r, id_l as int), prop_c, layer_c, null) {
                Ok((f, r2)) => if !valid_utf8(kb) {
                    Err(SDSSErrorKind::InternalDecodeStructureCorruptedPayload)
                } else if dict_has_key(acc, decode_utf8(kb)) {
                    Err(SDSSErrorKind::InternalDecodeStructureIllegalData)
                } else if r2.len() < b.len() {
                    dec_field_entries(r2, size, acc.push((decode_utf8(kb), f)))
                } else {
                    Err(SDSSErrorKind::InternalDecodeStructureCorruptedPayload)
                },
                Err(_) => Err(SDSSErrorKind::InternalDecodeStructureCorruptedPayload),
            }
        }
    } else if acc.len() == size {
        Ok((acc, b))
    } else {
        Err(SDSSErrorKind::InternalDecodeStructureIllegalData)
    }
}

/// Decodes a persisted field map (size, then entries) from the front of `b`.
pub open spec fn dec_field_map(b: Seq<u8>) -> Result<(Seq<(Seq<char>, FieldV)>, Seq<u8>), SDSSErrorKind> {
    if b.len() < 8 {
        Err(SDSSErrorKind::InternalDecodeStructureCorrupted)
    } else {
        dec_field_entries(after(b, 8), rd64(b) as usize, Seq::empty())
    }
}

/// A field is well-formed: at least one layer, every layer but the last is a list and
/// the last is not.
pub open spec fn field_wf(f: FieldV) -> bool {
    &&& 0 < f.layers.len() <= u64::MAX
    &&& forall|i: int| 0 <= i < f.layers.len() - 1 ==> #[trigger] f.layers[i].tag == TagSelector::List
    &&& f.layers[f.layers.len() - 1].tag != TagSelector::List
}

/// A field map fits the format: distinct names, a size that fits in a `usize`, names
/// whose lengths fit, and well-formed fields.
pub open spec fn field_map_wf(es: Seq<(Seq<char>, FieldV)>) -> bool {
    &&& es.len() <= usize::MAX
    &&& forall|i: int, j: int| 0 <= i < j < es.len() ==> #[trigger] es[i].0 != #[trigger] es[j].0
    &&& forall|i: int|
        0 <= i < es.len() ==> encode_utf8(#[trigger] es[i].0).len() <= usize::MAX && field_wf(es[i].1)
}

proof fn lemma_layers_roundtrip(ls: Seq<Layer>, i: int, rest: Seq<u8>)
    requires
        field_wf(FieldV { layers: ls, nullable: false }),
        0 <= i <= ls.len(),
    ensures
        dec_layers(enc_layers(ls, i) + rest, ls.len() as u64, ls.subrange(0, i), i > 0 && ls[i - 1].tag
            != TagSelector::List) == Ok::<_, SDSSErrorKind>((ls, true, rest)),
    decreases ls.len() - i,
{
    let b = enc_layers(ls, i) + rest;
    if i == ls.len() {
        assert(b =~= rest);
        assert(ls.subrange(0, i) =~= ls);
    } else {
        let l = ls[i];
        let tail = enc_layers(ls, i + 1) + rest;
        assert(b =~= le64(selector_value(l.tag)) + (le64(0) + tail));
        lemma_rd64_pub(selector_value(l.tag), le64(0) + tail);
        lemma_rd64_pub(0, tail);
        assert(after(b, 16) =~= tail);
        assert(selector_from(selector_value(l.tag)) == l.tag);
        assert(ls.subrange(0, i).push(Layer { tag: selector_from(selector_value(l.tag)) }) =~= ls.subrange(0, i + 1));
        if i > 0 {
            assert(ls[i - 1].tag == TagSelector::List);
        }
        lemma_layers_roundtrip(ls, i + 1, rest);
    }
}

proof fn lemma_field_entry_parts(k: Seq<char>, f: FieldV, tail: Seq<u8>)
    ensures
        ({
            let b = enc_field_entry(k, f) + tail;
            let kb = encode_utf8(k);
            &&& b.len() >= 25
            &&& rd64(b) == kb.len() as u64
            &&& rd64(after(b, 8)) == 0
            &&& rd64(after(b, 16)) == f.layers.len() as u64
            &&& b[24] == (if f.nullable { 1u8 } else { 0u8 })
            &&& after(b, 25) == kb + (enc_layers(f.layers, 0) + tail)
        }),
{
    let b = enc_field_entry(k, f) + tail;
    let kb = encode_utf8(k);
    let lay = enc_layers(f.layers, 0) + tail;
    let nb: u8 = if f.nullable { 1u8 } else { 0u8 };
    let x3 = seq![nb] + (kb + lay);
    let x2 = le64(f.layers.len() as u64) + x3;
    let x1 = le64(0) + x2;
    assert(b =~= le64(kb.len() as u64) + x1);
    lemma_rd64_pub(kb.len() as u64, x1);
    lemma_rd64_pub(0, x2);
    lemma_rd64_pub(f.layers.len() as u64, x3);
    assert(after(b, 8) =~= x1);
    assert(after(b, 16) =~= x2);
    assert(after(b, 25) =~= kb + lay);
}

proof fn lemma_field_roundtrip(f: FieldV, tail: Seq<u8>)
    requires
        field_wf(f),
    ensures
        dec_field(enc_layers(f.layers, 0) + tail, 0, f.layers.len() as u64, if f.nullable { 1u8 } else { 0u8 })
            == Ok::<_, SDSSErrorKind>((f, tail)),
{
    lemma_layers_roundtrip(f.layers, 0, tail);
    assert(f.layers.subrange(0, 0) =~= Seq::<Layer>::empty());
}

proof fn lemma_field_entries_roundtrip(es: Seq<(Seq<char>, FieldV)>, i: int, rest: Seq<u8>)
    requires
        field_map_wf(es),
        0 <= i <= es.len(),
    ensures
        dec_field_entries(enc_field_entries(es, i) + rest, es.len() as usize, es.subrange(0, i))
            == Ok::<_, SDSSErrorKind>((es, rest)),
    decreases es.len() - i,
{
    broadcast use vstd::utf8::encode_utf8_valid_utf8, vstd::utf8::encode_utf8_decode_utf8;
    let b = enc_field_entries(es, i) + rest;
    if i == es.len() {
        assert(b =~= rest);
        assert(es.subrange(0, i) =~= es);
    } else {
        let k = es[i].0;
        let f = es[i].1;
        let kb = encode_utf8(k);
        let tail = enc_field_entries(es, i + 1) + rest;
        let lay = enc_layers(f.layers, 0) + tail;
        assert(b =~= enc_field_entry(k, f) + tail);
        lemma_field_entry_parts(k, f, tail);
        let r = after(b, 25);
        assert(r.subrange(0, kb.len() as int) =~= kb);
        assert(after(r, kb.len() as int) =~= lay);
        lemma_field_roundtrip(f, tail);
        let acc = es.subrange(0, i);
        assert(!dict_has_key(acc, k)) by {
            if dict_has_key(acc, k) {
                let j = choose|j: int| 0 <= j < acc.len() && #[trigger] acc[j].0 == k;
                assert(es[j].0 == es[i].0);
            }
        }
        assert(acc.push((k, f)) =~= es.subrange(0, i + 1));
        lemma_field_entries_roundtrip(es, i + 1, rest);
    }
}

/// Nullability is stored as one byte, 1 for a field that may be null and 0 for one that
/// may not: a persisted map of one field `k` with a single (non-list) layer is its size 1,
/// the name's length, a property count of 0, a layer count of 1, the nullability byte `n`,
/// the name, then the layer's selector and property count 0; and it reads back as a field
/// that may be null exactly where `n` is 1.
pub proof fn lemma_field_nullable_byte(k: Seq<char>, tag: TagSelector, n: u8, rest: Seq<u8>)
    requires
        encode_utf8(k).len() <= usize::MAX,
        tag != TagSelector::List,
        n <= 1,
    ensures
        ({
            let kb = encode_utf8(k);
            let bytes = le64(1) + le64(kb.len() as u64) + le64(0) + le64(1) + seq![n] + kb + le64(
                selector_value(tag),
            ) + le64(0);
            let f = FieldV { layers: seq![Layer { tag }], nullable: n == 1 };
            &&& enc_field_map(seq![(k, f)]) == bytes
            &&& dec_field_map(bytes + rest) == Ok::<_, SDSSErrorKind>((seq![(k, f)], rest))
        }),
{
    let kb = encode_utf8(k);
    let f = FieldV { layers: seq![Layer { tag }], nullable: n == 1 };
    let es = seq![(k, f)];
    assert(enc_layers(f.layers, 1) =~= Seq::<u8>::empty());
    assert(enc_layers(f.layers, 0) =~= enc_layer(Layer { tag }));
    assert(enc_field_entries(es, 1) =~= Seq::<u8>::empty());
    assert(enc_field_entries(es, 0) =~= enc_field_entry(k, f));
    assert((if f.nullable { 1u8 } else { 0u8 }) == n);
    assert(enc_field_map(es) =~= le64(1) + le64(kb.len() as u64) + le64(0) + le64(1) + seq![n] + kb + le64(
        selector_value(tag),
    ) + le64(0));
    assert(field_wf(f));
    assert(field_map_wf(es));
    lemma_field_map_roundtrip(es, rest);
}

/// Decoding the persisted entries of a well-formed field map, given their count, gives
/// back the entries in their order and exactly the bytes that followed.
pub proof fn lemma_field_entries_roundtrip_all(es: Seq<(Seq<char>, FieldV)>, rest: Seq<u8>)
    requires
        field_map_wf(es),
    ensures
        dec_field_entries(enc_field_entries(es, 0) + rest, es.len() as usize, Seq::empty())
            == Ok::<_, SDSSErrorKind>((es, rest)),
{
    lemma_field_entries_roundtrip(es, 0, rest);
    assert(es.subrange(0, 0) =~= Seq::<(Seq<char>, FieldV)>::empty());
}

/// Decoding a well-formed persisted field map gives it back and exactly the bytes that
/// followed.
pub proof fn lemma_field_map_roundtrip(es: Seq<(Seq<char>, FieldV)>, rest: Seq<u8>)
    requires
        field_map_wf(es),
    ensures
        dec_field_map(enc_field_map(es) + rest) == Ok::<_, SDSSErrorKind>((es, rest)),
{
    let body = enc_field_entries(es, 0) + rest;
    assert(enc_field_map(es) + rest =~= le64(es.len() as u64) + body);
    lemma_rd64_pub(es.len() as u64, body);
    lemma_field_entries_roundtrip(es, 0, rest);
    assert(es.subrange(0, 0) =~= Seq::<(Seq<char>, FieldV)>::empty());
}

broadcast use crate::scanner::lemma_scanner_rest;

/// Encoding and decoding of a single layer.
pub struct LayerRef;

impl LayerRef {
    /// Writes a layer: selector, then an empty property count.
    pub fn default_full_enc(buf: &mut Vec<u8>, layer: &Layer)
        ensures
            final(buf)@ == old(buf)@ + enc_layer(*layer),
    {
        extend_u64_le(buf, layer.tag.value_qword());
        extend_u64_le(buf, 0);
        assert(buf@ =~= old(buf)@ + enc_layer(*layer));
    }

    /// Reads a layer.
    pub fn default_full_dec(scanner: &mut BufferedScanner) -> (r: Result<Layer, SDSSErrorKind>)
        requires
            old(scanner).wf(),
        ensures
            final(scanner).wf(),
            final(scanner).data() == old(scanner).data(),
            final(scanner).pos() >= old(scanner).pos(),
            ({
                let b = old(scanner).rest();
                if b.len() < 16 {
                    r == Err::<Layer, _>(SDSSErrorKind::InternalDecodeStructureCorrupted)
                } else if rd64(b) > 13 || rd64(after(b, 8)) != 0 {
                    r == Err::<Layer, _>(SDSSErrorKind::InternalDecodeStructureCorruptedPayload)
                } else {
                    r == Ok::<_, SDSSErrorKind>(Layer { tag: selector_from(rd64(b)) })
                        && final(scanner).rest() == after(b, 16)
                }
            }),
    {
        let ghost b = scanner.rest();
        if !scanner.has_left(16) {
            return Err(SDSSErrorKind::InternalDecodeStructureCorrupted);
        }
        let sel = scanner.next_u64_le();
        let arity = scanner.next_u64_le();
        assert(after(b, 8).subrange(0, 8) =~= b.subrange(8, 16));
        assert(scanner.rest() =~= after(b, 16));
        if sel > 13 || arity != 0 {
            return Err(SDSSErrorKind::InternalDecodeStructureCorruptedPayload);
        }
        Ok(Layer { tag: TagSelector::from_raw(sel) })
    }
}

/// The metadata of a persisted field: property count, layer count, nullability byte.
pub struct FieldMD {
    pub prop_c: u64,
    pub layer_c: u64,
    pub null: u8,
}

impl FieldMD {
    /// Field metadata from its parts.
    pub fn new(prop_c: u64, layer_c: u64, null: u8) -> (r: Self)
        ensures
            r.prop_c == prop_c,
            r.layer_c == layer_c,
            r.null == null,
    {
        FieldMD { prop_c, layer_c, null }
    }
}

/// Encoding and decoding of a field.
pub struct FieldRef;

impl FieldRef {
    /// Writes a field's layers.
    pub fn obj_enc(buf: &mut Vec<u8>, field: &Field)
        ensures
            final(buf)@ == old(buf)@ + enc_layers(field.layers@, 0),
    {
        let ghost ls = field.layers@;
        let mut i: usize = 0;
        while i < field.layers.len()
            invariant
                i <= ls.len(),
                ls == field.layers@,
                old(buf)@ + enc_layers(ls, 0) == buf@ + enc_layers(ls, i as int),
            decreases ls.len() - i,
        {
            let ghost before = buf@;
            LayerRef::default_full_enc(buf, &field.layers[i]);
            assert(enc_layers(ls, i as int) == enc_layer(ls[i as int]) + enc_layers(ls, i + 1));
            assert(buf@ + enc_layers(ls, i + 1) =~= before + enc_layers(ls, i as int));
            i = i + 1;
        }
        assert(enc_layers(ls, i as int) =~= Seq::<u8>::empty());
        assert(buf@ =~= old(buf)@ + enc_layers(ls, 0));
    }

    /// Reads a field's layers, given its metadata.
    pub fn obj_dec(scanner: &mut BufferedScanner, md: FieldMD) -> (r: Result<Field, SDSSErrorKind>)
        requires
            old(scanner).wf(),
        ensures
            final(scanner).wf(),
            final(scanner).data() == old(scanner).data(),
            final(scanner).pos() >= old(scanner).pos(),
            match dec_field(old(scanner).rest(), md.prop_c, md.layer_c, md.null) {
                Ok((f, rest)) => r matches Ok(x) && x@ == f && final(scanner).rest() == rest,
                Err(e) => r matches Err(e2) && e2 == e,
            },
    {
        let ghost b0 = scanner.rest();
        let mut layers: Vec<Layer> = Vec::new();
        let mut fin = false;
        while !scanner.eof() && (layers.len() as u64) != md.layer_c && !fin
            invariant
                old(scanner).wf(),
                scanner.wf(),
                scanner.data() == old(scanner).data(),
                scanner.pos() >= old(scanner).pos(),
                b0 == old(scanner).rest(),
                dec_layers(b0, md.layer_c, Seq::empty(), false) == dec_layers(scanner.rest(), md.layer_c, layers@, fin),
            decreases scanner.rest().len(),
        {
            let l = match LayerRef::default_full_dec(scanner) {
                Ok(l) => l,
                Err(e) => {
                    return Err(e);
                },
            };
            fin = l.tag != TagSelector::List;
            layers.push(l);
        }
        let ghost rest = scanner.rest();
        if (layers.len() as u64) == md.layer_c && md.null <= 1 && md.prop_c == 0 && fin {
            Ok(Field { layers, nullable: md.null == 1 })
        } else {
            Err(SDSSErrorKind::InternalDecodeStructureCorrupted)
        }
    }
}

} // verus!
