//! The values the storage engine persists: data cells and generic dictionaries.
use vstd::prelude::*;

verus! {

/// A single value.
#[derive(Debug, PartialEq)]
pub enum Datacell {
    Null,
    Bool(bool),
    UnsignedInt(u64),
    SignedInt(i64),
    /// A float, held as its IEEE-754 bit pattern.
    Float(u64),
    Bin(Vec<u8>),
    Str(String),
    List(Vec<Datacell>),
}

/// What a dictionary entry holds: a value or a nested dictionary.
#[derive(Debug, PartialEq)]
pub enum DictEntryGeneric {
    Data(Datacell),
    Dict(DictGeneric),
}

/// A dictionary from string keys to entries, in insertion order.
#[derive(Debug, PartialEq)]
pub struct DictGeneric {
    pub entries: Vec<(String, DictEntryGeneric)>,
}

/// The mathematical value of a [`Datacell`].
pub enum CellV {
    Null,
    Bool(bool),
    UnsignedInt(u64),
    SignedInt(i64),
    Float(u64),
    Bin(Seq<u8>),
    Str(Seq<char>),
    List(Seq<CellV>),
}

/// The mathematical value of a [`DictEntryGeneric`].
pub enum EntryV {
    Data(CellV),
    Dict(Seq<(Seq<char>, EntryV)>),
}

pub open spec fn cell_view(c: Datacell) -> CellV
    decreases c,
{
    match c {
        Datacell::Null => CellV::Null,
        Datacell::Bool(b) => CellV::Bool(b),
        Datacell::UnsignedInt(x) => CellV::UnsignedInt(x),
        Datacell::SignedInt(x) => CellV::SignedInt(x),
        Datacell::Float(x) => CellV::Float(x),
        Datacell::Bin(v) => CellV::Bin(v@),
        Datacell::Str(s) => CellV::Str(s@),
        Datacell::List(v) => CellV::List(cells_view(v@)),
    }
}

pub open spec fn cells_view(s: Seq<Datacell>) -> Seq<CellV>
    decreases s,
{
    if s.len() == 0 {
        Seq::empty()
    } else {
        cells_view(s.subrange(0, s.len() - 1)).push(cell_view(s[s.len() - 1]))
    }
}

pub open spec fn entry_view(e: DictEntryGeneric) -> EntryV
    decreases e,
{
    match e {
        DictEntryGeneric::Data(c) => EntryV::Data(cell_view(c)),
        DictEntryGeneric::Dict(m) => EntryV::Dict(entries_view(m.entries@)),
    }
}

pub open spec fn entries_view(s: Seq<(String, DictEntryGeneric)>) -> Seq<(Seq<char>, EntryV)>
    decreases s,
{
    if s.len() == 0 {
        Seq::empty()
    } else {
        entries_view(s.subrange(0, s.len() - 1)).push((s[s.len() - 1].0@, entry_view(s[s.len() - 1].1)))
    }
}

impl View for Datacell {
    type V = CellV;

    open spec fn view(&self) -> CellV {
        cell_view(*self)
    }
}

impl View for DictEntryGeneric {
    type V = EntryV;

    open spec fn view(&self) -> EntryV {
        entry_view(*self)
    }
}

impl View for DictGeneric {
    type V = Seq<(Seq<char>, EntryV)>;

    open spec fn view(&self) -> Seq<(Seq<char>, EntryV)> {
        entries_view(self.entries@)
    }
}

/// Viewing a sequence of cells keeps its length and views each cell.
pub proof fn lemma_cells_view(s: Seq<Datacell>)
    ensures
        cells_view(s).len() == s.len(),
        forall|i: int| 0 <= i < s.len() ==> #[trigger] cells_view(s)[i] == cell_view(s[i]),
    decreases s.len(),
{
    if s.len() > 0 {
        lemma_cells_view(s.subrange(0, s.len() - 1));
    }
}

/// Viewing entries keeps their number and views each key and value.
pub proof fn lemma_entries_view(s: Seq<(String, DictEntryGeneric)>)
    ensures
        entries_view(s).len() == s.len(),
        forall|i: int|
            0 <= i < s.len() ==> #[trigger] entries_view(s)[i] == (s[i].0@, entry_view(s[i].1)),
    decreases s.len(),
{
    if s.len() > 0 {
        lemma_entries_view(s.subrange(0, s.len() - 1));
    }
}

/// The view of a sequence with one more cell is the view with one more cell view.
pub proof fn lemma_cells_view_push(s: Seq<Datacell>, c: Datacell)
    ensures
        cells_view(s.push(c)) == cells_view(s).push(cell_view(c)),
{
    assert(s.push(c).subrange(0, s.len() as int) =~= s);
}

/// The view of entries with one more entry is the view with one more viewed entry.
pub proof fn lemma_entries_view_push(s: Seq<(String, DictEntryGeneric)>, e: (String, DictEntryGeneric))
    ensures
        entries_view(s.push(e)) == entries_view(s).push((e.0@, entry_view(e.1))),
{
    assert(s.push(e).subrange(0, s.len() as int) =~= s);
}

/// Whether the key `k` is among the keys of `es`.
pub open spec fn dict_has_key<V>(es: Seq<(Seq<char>, V)>, k: Seq<char>) -> bool {
    exists|i: int| 0 <= i < es.len() && #[trigger] es[i].0 == k
}

/// No two entries of `es` share a key.
pub open spec fn names_distinct<V>(es: Seq<(Seq<char>, V)>) -> bool {
    forall|i: int, j: int| 0 <= i < j < es.len() ==> #[trigger] es[i].0 != #[trigger] es[j].0
}

/// The keys of a dictionary are distinct, in it and in every dictionary nested in it.
pub open spec fn dict_keys_distinct(es: Seq<(Seq<char>, EntryV)>) -> bool
    decreases es, es.len() + 1,
{
    names_distinct(es) && nested_keys_distinct(es, 0)
}

/// The dictionaries nested in the values of `es[i..]` have distinct keys.
pub open spec fn nested_keys_distinct(es: Seq<(Seq<char>, EntryV)>, i: int) -> bool
    decreases es, es.len() - i,
{
    if 0 <= i < es.len() {
        entry_keys_distinct(es[i].1) && nested_keys_distinct(es, i + 1)
    } else {
        true
    }
}

/// A value that is a dictionary has distinct keys at every depth.
pub open spec fn entry_keys_distinct(v: EntryV) -> bool
    decreases v, 1nat,
{
    match v {
        EntryV::Data(_) => true,
        EntryV::Dict(es) => dict_keys_distinct(es),
    }
}

proof fn lemma_nested_push(es: Seq<(Seq<char>, EntryV)>, e: (Seq<char>, EntryV), i: int)
    requires
        0 <= i <= es.len(),
        nested_keys_distinct(es, i),
        entry_keys_distinct(e.1),
    ensures
        nested_keys_distinct(es.push(e), i),
    decreases es.len() - i,
{
    if i < es.len() {
        lemma_nested_push(es, e, i + 1);
        assert(es.push(e)[i] == es[i]);
    } else {
        assert(es.push(e)[i] == e);
        assert(nested_keys_distinct(es.push(e), i + 1));
    }
}

impl DictGeneric {
    /// The keys are distinct, in the dictionary and in every dictionary nested in it.
    pub open spec fn wf(&self) -> bool {
        dict_keys_distinct(self@)
    }

    /// An empty dictionary.
    pub fn new() -> (r: Self)
        ensures
            r@ == Seq::<(Seq<char>, EntryV)>::empty(),
            r.wf(),
    {
        DictGeneric { entries: Vec::new() }
    }

    /// The number of entries.
    pub fn st_len(&self) -> (r: usize)
        ensures
            r == self@.len(),
    {
        proof {
            lemma_entries_view(self.entries@);
        }
        self.entries.len()
    }

    /// Inserts `k` with `v` unless `k` is already present; tells whether it inserted.
    pub fn st_insert(&mut self, k: String, v: DictEntryGeneric) -> (r: bool)
        ensures
            r == !dict_has_key(old(self)@, k@),
            r ==> final(self)@ == old(self)@.push((k@, v@)),
            !r ==> final(self)@ == old(self)@,
            old(self).wf() && entry_keys_distinct(v@) ==> final(self).wf(),
    {
        proof {
            lemma_entries_view(self.entries@);
        }
        let n = self.entries.len();
        let mut i: usize = 0;
        while i < n
            invariant
                n == self.entries@.len(),
                i <= n,
                self@ == old(self)@,
                entries_view(self.entries@).len() == n,
                forall|j: int|
                    0 <= j < n ==> #[trigger] entries_view(self.entries@)[j] == (
                        self.entries@[j].0@,
                        entry_view(self.entries@[j].1),
                    ),
                forall|j: int| 0 <= j < i ==> self.entries@[j].0@ != k@,
            decreases n - i,
        {
            if self.entries[i].0 == k {
                assert(self@[i as int].0 == k@);
                return false;
            }
            i = i + 1;
        }
        assert(!dict_has_key(old(self)@, k@)) by {
            if dict_has_key(old(self)@, k@) {
                let j = choose|j: int| 0 <= j < old(self)@.len() && #[trigger] old(self)@[j].0 == k@;
                assert(self@[j].0 == self.entries@[j].0@);
            }
        }
        proof {
            lemma_entries_view_push(self.entries@, (k, v));
            if old(self).wf() && entry_keys_distinct(v@) {
                lemma_nested_push(old(self)@, (k@, v@), 0);
            }
        }
        self.entries.push((k, v));
        proof {
            let e = old(self)@.push((k@, v@));
            assert(self@ == e);
            if old(self).wf() {
                assert forall|i: int, j: int| 0 <= i < j < e.len() implies #[trigger] e[i].0 != #[trigger] e[j].0 by {
                    if j == e.len() - 1 {
                        assert(e[i] == old(self)@[i]);
                    } else {
                        assert(e[i] == old(self)@[i] && e[j] == old(self)@[j]);
                    }
                }
            }
        }
        true
    }
}

} // verus!
