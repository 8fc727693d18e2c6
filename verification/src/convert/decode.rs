//! From the wire to the host: the host value of a wire argument.

use crate::convert::laws::lemma_decode_well_formed;
use crate::dbus_type::{DbusType, WireType, MAX_NESTING_DEPTH};
use crate::host_value::{
    entries_with, entry_models, host_models, insert_entry, lemma_view_list, lemma_view_record,
    HostModel, HostValue,
};
use crate::number::{decimal_string, decimal_text};
use crate::wire::{
    lemma_view_array, lemma_view_struct_items, wire_models, WireArgument, WireModel,
};
use vstd::prelude::*;

verus! {

/// Why a wire argument has no host value.
#[derive(Debug, Clone, Copy, PartialEq, Eq, Structural)]
pub enum DecodeError {
    /// A dictionary entry stands where no array holds it.
    DictEntryOutsideArray,
    /// The argument, or an element on which the kind of its array depends, is
    /// not what its type says.
    Invalid,
    /// More than the permitted number of values enclose one another.
    TooDeep,
}

impl DecodeError {
    /// The message that reports this error.
    pub open spec fn message_text(self) -> Seq<char> {
        match self {
            DecodeError::DictEntryOutsideArray =>
                "Encountered dictionary entry outside of dictionary"@,
            DecodeError::Invalid => "Encountered invalid D-Bus value"@,
            DecodeError::TooDeep => "Encountered D-Bus value that is nested too deeply"@,
        }
    }

    /// The message that reports this error.
    pub fn message(&self) -> (message: String)
        ensures
            message@ == self.message_text(),
    {
        match self {
            DecodeError::DictEntryOutsideArray => String::from_str(
                "Encountered dictionary entry outside of dictionary",
            ),
            DecodeError::Invalid => String::from_str("Encountered invalid D-Bus value"),
            DecodeError::TooDeep => String::from_str(
                "Encountered D-Bus value that is nested too deeply",
            ),
        }
    }
}

/// The text of a dictionary key, where the key is a string, an object path
/// or a signature.
pub open spec fn key_text(key: WireModel) -> Option<Seq<char>> {
    match key {
        WireModel::String(s) => Some(s),
        WireModel::ObjectPath(s) => Some(s),
        WireModel::Signature(s) => Some(s),
        _ => None,
    }
}

/// The bytes that the elements of a byte array hold, where each is a byte.
pub open spec fn bytes_of(items: Seq<WireModel>) -> Option<Seq<u8>> {
    if forall|i: int| 0 <= i < items.len() ==> #[trigger] items[i] is Byte {
        Some(Seq::new(items.len(), |i: int| items[i]->Byte_0))
    } else {
        None
    }
}

/// The host value of a wire argument. At most `depth` values may enclose one
/// another.
///
/// Whole numbers become `Int`, but for unsigned 64-bit ones, which become
/// their decimal text; a variant becomes what it holds; an array of
/// dictionary entries becomes a record, an array of bytes a `Binary`, any
/// other array and any struct a list.
pub open spec fn decode_spec(arg: WireModel, depth: nat) -> Result<HostModel, DecodeError>
    decreases arg,
{
    match arg {
        WireModel::Byte(v) => Ok(HostModel::Int(v as i64)),
        WireModel::Boolean(v) => Ok(HostModel::Bool(v)),
        WireModel::Int16(v) => Ok(HostModel::Int(v as i64)),
        WireModel::UInt16(v) => Ok(HostModel::Int(v as i64)),
        WireModel::Int32(v) => Ok(HostModel::Int(v as i64)),
        WireModel::UInt32(v) => Ok(HostModel::Int(v as i64)),
        WireModel::Int64(v) => Ok(HostModel::Int(v)),
        WireModel::UInt64(v) => Ok(HostModel::String(decimal_text(v as nat))),
        WireModel::Double(bits) => Ok(HostModel::Float(bits)),
        WireModel::DoubleText(s) => Ok(HostModel::String(s)),
        WireModel::String(s) => Ok(HostModel::String(s)),
        WireModel::ObjectPath(s) => Ok(HostModel::String(s)),
        WireModel::Signature(s) => Ok(HostModel::String(s)),
        WireModel::Variant(inner) => if depth == 0 {
            Err(DecodeError::TooDeep)
        } else {
            decode_spec(*inner, (depth - 1) as nat)
        },
        WireModel::Array(element_type, items) => if depth == 0 {
            Err(DecodeError::TooDeep)
        } else if element_type is DictEntry {
            match decode_entries_spec(items, (depth - 1) as nat) {
                Ok(entries) => Ok(HostModel::Record(entries)),
                Err(e) => Err(e),
            }
        } else if element_type == WireType::Byte {
            match bytes_of(items) {
                Some(bytes) => Ok(HostModel::Binary(bytes)),
                None => Err(DecodeError::Invalid),
            }
        } else {
            match decode_items_spec(items, (depth - 1) as nat) {
                Ok(vals) => Ok(HostModel::List(vals)),
                Err(e) => Err(e),
            }
        },
        WireModel::Struct(items) => if depth == 0 {
            Err(DecodeError::TooDeep)
        } else {
            match decode_items_spec(items, (depth - 1) as nat) {
                Ok(vals) => Ok(HostModel::List(vals)),
                Err(e) => Err(e),
            }
        },
        WireModel::DictEntry(_, _) => Err(DecodeError::DictEntryOutsideArray),
        WireModel::Invalid => Err(DecodeError::Invalid),
    }
}

/// The host values of the elements of an array or a struct, in order. An
/// element that has none is left out, unless it has none for being too deep:
/// then the whole has none.
pub open spec fn decode_items_spec(items: Seq<WireModel>, depth: nat) -> Result<
    Seq<HostModel>,
    DecodeError,
>
    decreases items,
{
    if items.len() == 0 {
        Ok(Seq::empty())
    } else {
        match decode_items_spec(items.drop_last(), depth) {
            Err(e) => Err(e),
            Ok(vals) => match decode_spec(items.last(), depth) {
                Ok(val) => Ok(vals.push(val)),
                Err(DecodeError::TooDeep) => Err(DecodeError::TooDeep),
                Err(_) => Ok(vals),
            },
        }
    }
}

/// The entries of the record that an array of dictionary entries becomes:
/// each entry is put in under its key, in order, so that a later entry takes
/// the place of an earlier one with the same key. An entry whose key has no
/// text is left out. An element that is no dictionary entry, and a value that
/// has no host value, leave the whole without one.
pub open spec fn decode_entries_spec(items: Seq<WireModel>, depth: nat) -> Result<
    Seq<(Seq<char>, HostModel)>,
    DecodeError,
>
    decreases items,
{
    if items.len() == 0 {
        Ok(Seq::empty())
    } else {
        match decode_entries_spec(items.drop_last(), depth) {
            Err(e) => Err(e),
            Ok(entries) => match items.last() {
                WireModel::DictEntry(key, val) => match key_text(*key) {
                    None => Ok(entries),
                    Some(text) => match decode_spec(*val, depth) {
                        Ok(value) => Ok(entries_with(entries, text, value)),
                        Err(e) => Err(e),
                    },
                },
                _ => Err(DecodeError::Invalid),
            },
        }
    }
}

/// The host values of the arguments of a message, in order; none where one of
/// the arguments has none.
pub open spec fn decode_all_spec(args: Seq<WireModel>, depth: nat) -> Result<
    Seq<HostModel>,
    DecodeError,
>
    decreases args.len(),
{
    if args.len() == 0 {
        Ok(Seq::empty())
    } else {
        match decode_all_spec(args.drop_last(), depth) {
            Err(e) => Err(e),
            Ok(vals) => match decode_spec(args.last(), depth) {
                Ok(val) => Ok(vals.push(val)),
                Err(e) => Err(e),
            },
        }
    }
}

/// Where the elements up to some place have no host values, the whole
/// sequence has none, for the same reason.
pub proof fn lemma_decode_items_fails(items: Seq<WireModel>, n: int, depth: nat)
    requires
        0 <= n <= items.len(),
        decode_items_spec(items.take(n), depth) is Err,
    ensures
        decode_items_spec(items, depth) == decode_items_spec(items.take(n), depth),
    decreases items.len() - n,
{
    if n < items.len() {
        assert(items.take(n + 1).drop_last() =~= items.take(n));
        lemma_decode_items_fails(items, n + 1, depth);
    } else {
        assert(items.take(n) =~= items);
    }
}

/// Where the dictionary entries up to some place make no record, the whole
/// sequence makes none, for the same reason.
pub proof fn lemma_decode_entries_fails(items: Seq<WireModel>, n: int, depth: nat)
    requires
        0 <= n <= items.len(),
        decode_entries_spec(items.take(n), depth) is Err,
    ensures
        decode_entries_spec(items, depth) == decode_entries_spec(items.take(n), depth),
    decreases items.len() - n,
{
    if n < items.len() {
        assert(items.take(n + 1).drop_last() =~= items.take(n));
        lemma_decode_entries_fails(items, n + 1, depth);
    } else {
        assert(items.take(n) =~= items);
    }
}

/// Where the arguments up to some place have no host values, the whole
/// message has none, for the same reason.
pub proof fn lemma_decode_all_fails(args: Seq<WireModel>, n: int, depth: nat)
    requires
        0 <= n <= args.len(),
        decode_all_spec(args.take(n), depth) is Err,
    ensures
        decode_all_spec(args, depth) == decode_all_spec(args.take(n), depth),
    decreases args.len() - n,
{
    if n < args.len() {
        assert(args.take(n + 1).drop_last() =~= args.take(n));
        lemma_decode_all_fails(args, n + 1, depth);
    } else {
        assert(args.take(n) =~= args);
    }
}

/// The text of a dictionary key.
fn key_string(key: &WireArgument) -> (text: Option<&String>)
    ensures
        match key_text(key@) {
            Some(t) => text matches Some(s) && s@ == t,
            None => text is None,
        },
{
    match key {
        WireArgument::String(s) => Some(s),
        WireArgument::ObjectPath(s) => Some(s),
        WireArgument::Signature(s) => Some(s),
        _ => None,
    }
}

/// The host values of the elements of an array or a struct, which `whole` is.
fn decode_items(whole: &WireArgument, items: &Vec<WireArgument>, depth: usize) -> (r: Result<
    Vec<HostValue>,
    DecodeError,
>)
    requires
        (whole matches WireArgument::Array(_, held) && held == items) || (
        whole matches WireArgument::Struct(held) && held == items),
    ensures
        match decode_items_spec(wire_models(items@), depth as nat) {
            Ok(vals) => r matches Ok(decoded) && host_models(decoded@) == vals,
            Err(e) => r matches Err(f) && f == e,
        },
    decreases whole, 0nat,
{
    let ghost models = wire_models(items@);
    let mut vals: Vec<HostValue> = Vec::new();
    let mut i: usize = 0;
    assert(models.take(0) =~= Seq::<WireModel>::empty());
    assert(host_models(vals@) =~= Seq::<HostModel>::empty());
    while i < items.len()
        invariant
            i <= items.len(),
            models == wire_models(items@),
            (whole matches WireArgument::Array(_, held) && held == items) || (
            whole matches WireArgument::Struct(held) && held == items),
            decode_items_spec(models.take(i as int), depth as nat) == Ok::<_, DecodeError>(
                host_models(vals@),
            ),
        decreases items.len() - i,
    {
        proof {
            assert(models.take(i + 1).drop_last() =~= models.take(i as int));
            assert(models.take(i + 1).last() == items[i as int]@);
            if whole is Array {
                assert(decreases_to!(*whole => whole->Array_1[i as int]));
            } else {
                assert(decreases_to!(*whole => whole->Struct_0[i as int]));
            }
        }
        let ghost before = host_models(vals@);
        match decode_at(&items[i], depth) {
            Ok(val) => {
                vals.push(val);
                assert(host_models(vals@) =~= before.push(val@));
            },
            Err(DecodeError::TooDeep) => {
                proof {
                    lemma_decode_items_fails(models, i + 1, depth as nat);
                }
                return Err(DecodeError::TooDeep);
            },
            Err(_) => {},
        }
        i += 1;
    }
    assert(models.take(i as int) =~= models);
    Ok(vals)
}

/// The entries of the record that an array of dictionary entries becomes;
/// `whole` is the array.
fn decode_entries(whole: &WireArgument, items: &Vec<WireArgument>, depth: usize) -> (r: Result<
    Vec<(String, HostValue)>,
    DecodeError,
>)
    requires
        whole matches WireArgument::Array(_, held) && held == items,
    ensures
        match decode_entries_spec(wire_models(items@), depth as nat) {
            Ok(entries) => r matches Ok(decoded) && entry_models(decoded@) == entries,
            Err(e) => r matches Err(f) && f == e,
        },
    decreases whole, 0nat,
{
    let ghost models = wire_models(items@);
    let mut entries: Vec<(String, HostValue)> = Vec::new();
    let mut i: usize = 0;
    assert(models.take(0) =~= Seq::<WireModel>::empty());
    assert(entry_models(entries@) =~= Seq::<(Seq<char>, HostModel)>::empty());
    while i < items.len()
        invariant
            i <= items.len(),
            models == wire_models(items@),
            whole matches WireArgument::Array(_, held) && held == items,
            decode_entries_spec(models.take(i as int), depth as nat) == Ok::<_, DecodeError>(
                entry_models(entries@),
            ),
        decreases items.len() - i,
    {
        proof {
            assert(models.take(i + 1).drop_last() =~= models.take(i as int));
            assert(models.take(i + 1).last() == items[i as int]@);
        }
        match &items[i] {
            WireArgument::DictEntry(key, val) => {
                match key_string(&**key) {
                    Some(text) => {
                        proof {
                            assert(decreases_to!(*whole => whole->Array_1[i as int]));
                            let ghost item = whole->Array_1[i as int];
                            assert(decreases_to!(item => item->DictEntry_1));
                        }
                        match decode_at(&**val, depth) {
                            Ok(value) => {
                                insert_entry(&mut entries, text.clone(), value);
                            },
                            Err(e) => {
                                proof {
                                    lemma_decode_entries_fails(models, i + 1, depth as nat);
                                }
                                return Err(e);
                            },
                        }
                    },
                    None => {},
                }
            },
            _ => {
                proof {
                    lemma_decode_entries_fails(models, i + 1, depth as nat);
                }
                return Err(DecodeError::Invalid);
            },
        }
        i += 1;
    }
    assert(models.take(i as int) =~= models);
    Ok(entries)
}

/// The bytes that the elements of a byte array hold.
fn decode_bytes(items: &Vec<WireArgument>) -> (bytes: Option<Vec<u8>>)
    ensures
        match bytes_of(wire_models(items@)) {
            Some(held) => bytes matches Some(b) && b@ == held,
            None => bytes is None,
        },
{
    let ghost models = wire_models(items@);
    let mut bytes: Vec<u8> = Vec::new();
    let mut i: usize = 0;
    while i < items.len()
        invariant
            i <= items.len(),
            bytes.len() == i,
            models == wire_models(items@),
            forall|j: int| 0 <= j < i ==> #[trigger] models[j] == WireModel::Byte(bytes[j]),
        decreases items.len() - i,
    {
        match &items[i] {
            WireArgument::Byte(b) => {
                bytes.push(*b);
                assert(models[i as int] == items[i as int]@);
            },
            _ => {
                assert(models[i as int] == items[i as int]@);
                assert(!(models[i as int] is Byte));
                return None;
            },
        }
        i += 1;
    }
    assert(bytes@ =~= Seq::new(models.len(), |i: int| models[i]->Byte_0));
    Some(bytes)
}

/// The host value of a wire argument.
fn decode_at(arg: &WireArgument, depth: usize) -> (r: Result<HostValue, DecodeError>)
    ensures
        match decode_spec(arg@, depth as nat) {
            Ok(v) => r matches Ok(decoded) && decoded@ == v,
            Err(e) => r matches Err(f) && f == e,
        },
    decreases arg, 1nat,
{
    match arg {
        WireArgument::Byte(v) => Ok(HostValue::Int(*v as i64)),
        WireArgument::Boolean(v) => Ok(HostValue::Bool(*v)),
        WireArgument::Int16(v) => Ok(HostValue::Int(*v as i64)),
        WireArgument::UInt16(v) => Ok(HostValue::Int(*v as i64)),
        WireArgument::Int32(v) => Ok(HostValue::Int(*v as i64)),
        WireArgument::UInt32(v) => Ok(HostValue::Int(*v as i64)),
        WireArgument::Int64(v) => Ok(HostValue::Int(*v)),
        WireArgument::UInt64(v) => Ok(HostValue::String(decimal_string(*v))),
        WireArgument::Double(bits) => Ok(HostValue::Float(*bits)),
        WireArgument::DoubleText(s) => Ok(HostValue::String(s.clone())),
        WireArgument::String(s) => Ok(HostValue::String(s.clone())),
        WireArgument::ObjectPath(s) => Ok(HostValue::String(s.clone())),
        WireArgument::Signature(s) => Ok(HostValue::String(s.clone())),
        WireArgument::Variant(inner) => {
            if depth == 0 {
                Err(DecodeError::TooDeep)
            } else {
                decode_at(&**inner, depth - 1)
            }
        },
        WireArgument::Array(element_type, items) => {
            proof {
                lemma_view_array(*element_type, *items);
            }
            if depth == 0 {
                Err(DecodeError::TooDeep)
            } else if matches!(element_type, DbusType::DictEntry(_, _)) {
                match decode_entries(arg, items, depth - 1) {
                    Ok(entries) => {
                        proof {
                            lemma_view_record(entries);
                        }
                        Ok(HostValue::Record(entries))
                    },
                    Err(e) => Err(e),
                }
            } else if matches!(element_type, DbusType::Byte) {
                match decode_bytes(items) {
                    Some(bytes) => Ok(HostValue::Binary(bytes)),
                    None => Err(DecodeError::Invalid),
                }
            } else {
                match decode_items(arg, items, depth - 1) {
                    Ok(vals) => {
                        proof {
                            lemma_view_list(vals);
                        }
                        Ok(HostValue::List(vals))
                    },
                    Err(e) => Err(e),
                }
            }
        },
        WireArgument::Struct(items) => {
            proof {
                lemma_view_struct_items(*items);
            }
            if depth == 0 {
                Err(DecodeError::TooDeep)
            } else {
                match decode_items(arg, items, depth - 1) {
                    Ok(vals) => {
                        proof {
                            lemma_view_list(vals);
                        }
                        Ok(HostValue::List(vals))
                    },
                    Err(e) => Err(e),
                }
            }
        },
        WireArgument::DictEntry(_, _) => Err(DecodeError::DictEntryOutsideArray),
        WireArgument::Invalid => Err(DecodeError::Invalid),
    }
}

/// Decodes one wire argument into a host value.
pub fn from_refarg(refarg: &WireArgument) -> (r: Result<HostValue, String>)
    ensures
        match decode_spec(refarg@, MAX_NESTING_DEPTH as nat) {
            Ok(v) => r matches Ok(decoded) && decoded@ == v,
            Err(e) => r matches Err(message) && message@ == e.message_text(),
        },
        r matches Ok(decoded) ==> decoded@.well_formed(),
{
    proof {
        lemma_decode_well_formed(refarg@, MAX_NESTING_DEPTH as nat);
    }
    match decode_at(refarg, MAX_NESTING_DEPTH) {
        Ok(value) => Ok(value),
        Err(e) => Err(e.message()),
    }
}

/// Decodes the arguments of a message into host values, in order.
pub fn from_message(message: &Vec<WireArgument>) -> (r: Result<Vec<HostValue>, String>)
    ensures
        match decode_all_spec(wire_models(message@), MAX_NESTING_DEPTH as nat) {
            Ok(vals) => r matches Ok(decoded) && host_models(decoded@) == vals,
            Err(e) => r matches Err(text) && text@ == e.message_text(),
        },
{
    let ghost models = wire_models(message@);
    let mut out: Vec<HostValue> = Vec::new();
    let mut i: usize = 0;
    assert(models.take(0) =~= Seq::<WireModel>::empty());
    assert(host_models(out@) =~= Seq::<HostModel>::empty());
    while i < message.len()
        invariant
            i <= message.len(),
            models == wire_models(message@),
            decode_all_spec(models.take(i as int), MAX_NESTING_DEPTH as nat) == Ok::<
                _,
                DecodeError,
            >(host_models(out@)),
        decreases message.len() - i,
    {
        proof {
            assert(models.take(i + 1).drop_last() =~= models.take(i as int));
            assert(models.take(i + 1).last() == message[i as int]@);
        }
        let ghost before = host_models(out@);
        match decode_at(&message[i], MAX_NESTING_DEPTH) {
            Ok(val) => {
                out.push(val);
                assert(host_models(out@) =~= before.push(val@));
            },
            Err(e) => {
                proof {
                    lemma_decode_all_fails(models, i + 1, MAX_NESTING_DEPTH as nat);
                }
                return Err(e.message());
            },
        }
        i += 1;
    }
    assert(models.take(i as int) =~= models);
    Ok(out)
}

} // verus!
