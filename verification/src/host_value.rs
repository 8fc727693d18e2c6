//! The host's value model: what a caller hands over to be sent, and what it
//! gets back.

use crate::text::{first_named, lemma_first_named, lemma_first_named_at, same_text};
use vstd::prelude::*;

verus! {

/// A host value, as a mathematical value.
///
/// This is the view of [`HostValue`]: contracts speak of it.
pub ghost enum HostModel {
    Bool(bool),
    Int(i64),
    /// A 64-bit float, by its bits.
    Float(u64),
    String(Seq<char>),
    Binary(Seq<u8>),
    List(Seq<HostModel>),
    /// Keys with their values, in order.
    Record(Seq<(Seq<char>, HostModel)>),
}

/// A value of the host: a scalar, a byte sequence, a list, or a record, which
/// is an ordered mapping from string keys to values.
#[derive(Debug, PartialEq, Eq)]
pub enum HostValue {
    Bool(bool),
    Int(i64),
    /// A 64-bit float, held by its bits (sign, exponent, fraction), so that
    /// it goes through unchanged.
    Float(u64),
    String(String),
    Binary(Vec<u8>),
    List(Vec<HostValue>),
    /// Keys with their values, in order.
    Record(Vec<(String, HostValue)>),
}

/// What kind of value a host value is.
#[derive(Debug, Clone, Copy, PartialEq, Eq, Structural)]
pub enum HostKind {
    Bool,
    Int,
    Float,
    String,
    Binary,
    List,
    Record,
}

impl Clone for HostValue {
    fn clone(&self) -> (copy: Self)
        ensures
            copy@ == self@,
        decreases self,
    {
        match self {
            HostValue::Bool(b) => HostValue::Bool(*b),
            HostValue::Int(i) => HostValue::Int(*i),
            HostValue::Float(bits) => HostValue::Float(*bits),
            HostValue::String(s) => HostValue::String(s.clone()),
            HostValue::Binary(bytes) => {
                let copy = bytes.clone();
                assert(copy@ =~= bytes@);
                HostValue::Binary(copy)
            },
            HostValue::List(vals) => {
                let mut copies: Vec<HostValue> = Vec::new();
                let mut i: usize = 0;
                while i < vals.len()
                    invariant
                        i <= vals.len(),
                        copies.len() == i,
                        *self == HostValue::List(*vals),
                        forall|j: int| 0 <= j < i ==> (#[trigger] copies[j])@ == vals[j]@,
                    decreases vals.len() - i,
                {
                    proof {
                        assert(decreases_to!(*self => self->List_0[i as int]));
                    }
                    copies.push(vals[i].clone());
                    i += 1;
                }
                proof {
                    lemma_view_list(copies);
                    lemma_view_list(*vals);
                    assert(host_models(copies@) =~= host_models(vals@));
                }
                HostValue::List(copies)
            },
            HostValue::Record(entries) => {
                let mut copies: Vec<(String, HostValue)> = Vec::new();
                let mut i: usize = 0;
                while i < entries.len()
                    invariant
                        i <= entries.len(),
                        copies.len() == i,
                        *self == HostValue::Record(*entries),
                        forall|j: int|
                            0 <= j < i ==> (#[trigger] copies[j]).0@ == entries[j].0@
                                && copies[j].1@ == entries[j].1@,
                    decreases entries.len() - i,
                {
                    proof {
                        assert(decreases_to!(*self => self->Record_0[i as int].1));
                    }
                    copies.push((entries[i].0.clone(), entries[i].1.clone()));
                    i += 1;
                }
                proof {
                    lemma_view_record(copies);
                    lemma_view_record(*entries);
                    assert(entry_models(copies@) =~= entry_models(entries@));
                }
                HostValue::Record(copies)
            },
        }
    }
}

impl View for HostValue {
    type V = HostModel;

    open spec fn view(&self) -> HostModel {
        host_model(*self)
    }
}

/// The mathematical value of a host value.
pub open spec fn host_model(value: HostValue) -> HostModel
    decreases value,
{
    match value {
        HostValue::Bool(b) => HostModel::Bool(b),
        HostValue::Int(i) => HostModel::Int(i),
        HostValue::Float(bits) => HostModel::Float(bits),
        HostValue::String(s) => HostModel::String(s@),
        HostValue::Binary(bytes) => HostModel::Binary(bytes@),
        HostValue::List(vals) => HostModel::List(
            Seq::new(
                vals.len() as nat,
                |i: int|
                    if 0 <= i < vals.len() {
                        host_model(vals[i])
                    } else {
                        HostModel::Bool(false)
                    },
            ),
        ),
        HostValue::Record(entries) => HostModel::Record(
            Seq::new(
                entries.len() as nat,
                |i: int|
                    if 0 <= i < entries.len() {
                        (entries[i].0@, host_model(entries[i].1))
                    } else {
                        (Seq::empty(), HostModel::Bool(false))
                    },
            ),
        ),
    }
}

/// The values of a sequence of host values, in order.
pub open spec fn host_models(values: Seq<HostValue>) -> Seq<HostModel> {
    Seq::new(values.len(), |i: int| host_model(values[i]))
}

/// The values of the entries of a record, in order.
pub open spec fn entry_models(entries: Seq<(String, HostValue)>) -> Seq<(Seq<char>, HostModel)> {
    Seq::new(entries.len(), |i: int| (entries[i].0@, host_model(entries[i].1)))
}

/// The value of a list holds the values of its elements.
pub proof fn lemma_view_list(vals: Vec<HostValue>)
    ensures
        HostValue::List(vals)@ == HostModel::List(host_models(vals@)),
{
    assert(HostValue::List(vals)@->List_0 =~= host_models(vals@));
}

/// The value of a record holds the values of its entries.
pub proof fn lemma_view_record(entries: Vec<(String, HostValue)>)
    ensures
        HostValue::Record(entries)@ == HostModel::Record(entry_models(entries@)),
{
    assert(HostValue::Record(entries)@->Record_0 =~= entry_models(entries@));
}

impl HostModel {
    /// What kind of value this is.
    pub open spec fn kind(self) -> HostKind {
        match self {
            HostModel::Bool(_) => HostKind::Bool,
            HostModel::Int(_) => HostKind::Int,
            HostModel::Float(_) => HostKind::Float,
            HostModel::String(_) => HostKind::String,
            HostModel::Binary(_) => HostKind::Binary,
            HostModel::List(_) => HostKind::List,
            HostModel::Record(_) => HostKind::Record,
        }
    }
}

impl HostValue {
    /// What kind of value this is.
    pub fn kind(&self) -> (kind: HostKind)
        ensures
            kind == self@.kind(),
    {
        match self {
            HostValue::Bool(_) => HostKind::Bool,
            HostValue::Int(_) => HostKind::Int,
            HostValue::Float(_) => HostKind::Float,
            HostValue::String(_) => HostKind::String,
            HostValue::Binary(_) => HostKind::Binary,
            HostValue::List(_) => HostKind::List,
            HostValue::Record(_) => HostKind::Record,
        }
    }
}

/// The keys of the entries of a record, in order.
pub open spec fn entry_keys(entries: Seq<(Seq<char>, HostModel)>) -> Seq<Seq<char>> {
    Seq::new(entries.len(), |i: int| entries[i].0)
}

/// The entries of a record after `value` is put in under `key`: in the place
/// of the first entry that has the key, or behind the last entry where none
/// has it.
pub open spec fn entries_with(
    entries: Seq<(Seq<char>, HostModel)>,
    key: Seq<char>,
    value: HostModel,
) -> Seq<(Seq<char>, HostModel)> {
    match first_named(entry_keys(entries), key) {
        Some(k) => entries.update(k, (key, value)),
        None => entries.push((key, value)),
    }
}

/// Whether no key occurs twice among the entries.
pub open spec fn keys_unique(entries: Seq<(Seq<char>, HostModel)>) -> bool {
    forall|i: int, j: int|
        0 <= i < j < entries.len() ==> (#[trigger] entries[i]).0 != (#[trigger] entries[j]).0
}

/// Putting a value in under a key keeps the keys of a record unique.
pub proof fn lemma_entries_with_unique(
    entries: Seq<(Seq<char>, HostModel)>,
    key: Seq<char>,
    value: HostModel,
)
    requires
        keys_unique(entries),
    ensures
        keys_unique(entries_with(entries, key, value)),
{
    lemma_first_named(entry_keys(entries), key);
    let after = entries_with(entries, key, value);
    assert forall|i: int, j: int| 0 <= i < j < after.len() implies (#[trigger] after[i]).0 != (
    #[trigger] after[j]).0 by {
        match first_named(entry_keys(entries), key) {
            Some(k) => {
                assert(entries[k].0 == entry_keys(entries)[k]);
                assert(i != k ==> after[i] == entries[i]);
                assert(j != k ==> after[j] == entries[j]);
                assert(after[k].0 == entries[k].0);
            },
            None => {
                if j == entries.len() {
                    assert(entry_keys(entries)[i] != key);
                }
            },
        }
    }
}

/// Puts `value` into the entries of a record under `key`, in the place of the
/// value that the key had, if it had one.
pub fn insert_entry(entries: &mut Vec<(String, HostValue)>, key: String, value: HostValue)
    ensures
        entry_models(final(entries)@) == entries_with(entry_models(old(entries)@), key@, value@),
        keys_unique(entry_models(old(entries)@)) ==> keys_unique(entry_models(final(entries)@)),
{
    proof {
        if keys_unique(entry_models(entries@)) {
            lemma_entries_with_unique(entry_models(entries@), key@, value@);
        }
    }
    let ghost before = entry_models(entries@);
    let ghost keys = entry_keys(before);
    let mut i: usize = 0;
    while i < entries.len()
        invariant
            i <= entries.len(),
            entries@ == old(entries)@,
            before == entry_models(entries@),
            keys == entry_keys(before),
            forall|j: int| 0 <= j < i ==> keys[j] != key@,
        decreases entries.len() - i,
    {
        if same_text(entries[i].0.as_str(), key.as_str()) {
            proof {
                lemma_first_named_at(keys, key@, i as int);
            }
            entries.set(i, (key, value));
            assert(entry_models(entries@) =~= before.update(i as int, (key@, value@)));
            return ;
        }
        i += 1;
    }
    proof {
        lemma_first_named(keys, key@);
    }
    entries.push((key, value));
    assert(entry_models(entries@) =~= before.push((key@, value@)));
}

impl HostModel {
    /// Whether every record in the value, at any depth, has each of its keys
    /// once.
    pub open spec fn well_formed(self) -> bool
        decreases self,
    {
        match self {
            HostModel::List(vals) => forall|i: int|
                0 <= i < vals.len() ==> (#[trigger] vals[i]).well_formed(),
            HostModel::Record(entries) => keys_unique(entries) && forall|i: int|
                0 <= i < entries.len() ==> (#[trigger] entries[i]).1.well_formed(),
            _ => true,
        }
    }
}

} // verus!
