//! What holds of sending and receiving together: what is sent has the type
//! as which it is sent, and what comes back of it.

use crate::convert::decode::{
    bytes_of, decode_entries_spec, decode_items_spec, decode_spec, key_text, DecodeError,
};
use crate::convert::encode::{
    byte_items, default_type, encode_entries_spec, encode_fields_spec, encode_items_spec,
    encode_spec, encode_string_spec, expectation_rank, int_argument, int_range, sent_type,
    EncodeErrorModel,
};
use crate::dbus_type::WireType;
use crate::host_value::{
    entries_with, entry_keys, keys_unique, lemma_entries_with_unique, HostModel,
};
use crate::number::{decimal_text, lemma_read_decimal_text, number_of_text};
use crate::text::{first_named, lemma_first_named};
use crate::wire::{type_of, types_of, well_typed, WireModel};
use vstd::prelude::*;

verus! {

/// A whole number that is sent has the type as which it is sent.
pub proof fn lemma_int_argument_typed(t: WireType, n: int)
    requires
        int_range(t) is Some,
    ensures
        well_typed(int_argument(t, n)),
        type_of(int_argument(t, n)) == Some(t),
{
}

/// A text that is sent has the type as which it is sent.
pub proof fn lemma_encode_string_typed(text: Seq<char>, expected: Option<WireType>, depth: nat)
    ensures
        encode_string_spec(text, expected, depth) matches Ok(w) ==> well_typed(w) && type_of(w)
            == sent_type(HostModel::String(text), expected),
{
    reveal_with_fuel(well_typed, 2);
    if let Ok(w) = encode_string_spec(text, expected, depth) {
        match expected {
            None => {},
            Some(WireType::Variant) => {},
            Some(t) => {
                if int_range(t) is Some {
                    let (min, max) = int_range(t)->Some_0;
                    lemma_int_argument_typed(t, number_of_text(text, min, max)->Some_0);
                }
            },
        }
    }
}

/// What is sent has the type as which it is sent, and is what the wire can
/// carry: the elements of every array in it have the array's element type.
pub proof fn lemma_encode_typed(value: HostModel, expected: Option<WireType>, depth: nat)
    ensures
        encode_spec(value, expected, depth) matches Ok(w) ==> well_typed(w) && type_of(w)
            == sent_type(value, expected),
    decreases value, expectation_rank(expected),
{
    if let Ok(w) = encode_spec(value, expected, depth) {
        match expected {
            None => {
                lemma_encode_typed(value, default_type(value.kind()), depth);
            },
            Some(WireType::Variant) => {
                lemma_encode_typed(value, None, (depth - 1) as nat);
            },
            Some(t) => {
                match value {
                    HostModel::Int(v) => {
                        lemma_int_argument_typed(t, v as int);
                    },
                    HostModel::String(text) => {
                        lemma_encode_string_typed(text, expected, depth);
                    },
                    HostModel::Binary(bytes) => {
                        let items = byte_items(bytes);
                        assert forall|i: int| 0 <= i < items.len() implies well_typed(
                            #[trigger] items[i],
                        ) && type_of(items[i]) == Some(WireType::Byte) by {
                            assert(items[i] == WireModel::Byte(bytes[i]));
                        }
                    },
                    HostModel::List(vals) => match t {
                        WireType::Array(element_type) => {
                            lemma_encode_items_typed(vals, *element_type, (depth - 1) as nat);
                            assert(w is Array);
                        },
                        WireType::Struct(types) => {
                            lemma_encode_fields_typed(vals, types, (depth - 1) as nat);
                            assert(w is Struct);
                        },
                        _ => {},
                    },
                    HostModel::Record(entries) => match t {
                        WireType::Array(element_type) => match *element_type {
                            WireType::DictEntry(key_type, val_type) => {
                                lemma_encode_entries_typed(
                                    entries,
                                    *key_type,
                                    *val_type,
                                    (depth - 1) as nat,
                                );
                                assert(w is Array);
                            },
                            _ => {},
                        },
                        _ => {},
                    },
                    _ => {},
                }
            },
        }
    }
}

/// Each element of a list that is sent as an array has the element type.
pub proof fn lemma_encode_items_typed(vals: Seq<HostModel>, element_type: WireType, depth: nat)
    ensures
        encode_items_spec(vals, element_type, depth) matches Ok(items) ==> items.len()
            == vals.len() && forall|i: int|
            0 <= i < items.len() ==> well_typed(#[trigger] items[i]) && type_of(items[i]) == Some(
                element_type,
            ),
    decreases vals, 0nat,
{
    if vals.len() > 0 {
        lemma_encode_items_typed(vals.drop_last(), element_type, depth);
        lemma_encode_typed(vals.last(), Some(element_type), depth);
    }
}

/// The elements of a list that is sent as a struct have the struct's element
/// types.
pub proof fn lemma_encode_fields_typed(vals: Seq<HostModel>, types: Seq<WireType>, depth: nat)
    requires
        vals.len() == types.len(),
    ensures
        encode_fields_spec(vals, types, depth) matches Ok(items) ==> items.len() == vals.len()
            && types_of(items) == Some(types) && forall|i: int|
            0 <= i < items.len() ==> well_typed(#[trigger] items[i]),
    decreases vals, 0nat,
{
    if vals.len() > 0 {
        lemma_encode_fields_typed(vals.drop_last(), types.drop_last(), depth);
        lemma_encode_typed(vals.last(), Some(types.last()), depth);
        if let Ok(items) = encode_fields_spec(vals, types, depth) {
            assert(items.drop_last() =~= encode_fields_spec(
                vals.drop_last(),
                types.drop_last(),
                depth,
            )->Ok_0);
            assert(types =~= types.drop_last().push(types.last()));
        }
    } else {
        assert(types =~= Seq::<WireType>::empty());
    }
}

/// Each entry of a record that is sent is a dictionary entry of the key type
/// and the value type.
pub proof fn lemma_encode_entries_typed(
    entries: Seq<(Seq<char>, HostModel)>,
    key_type: WireType,
    val_type: WireType,
    depth: nat,
)
    ensures
        encode_entries_spec(entries, key_type, val_type, depth) matches Ok(items) ==> items.len()
            == entries.len() && forall|i: int|
            0 <= i < items.len() ==> well_typed(#[trigger] items[i]) && type_of(items[i]) == Some(
                WireType::DictEntry(Box::new(key_type), Box::new(val_type)),
            ),
    decreases entries, 0nat,
{
    if entries.len() > 0 {
        lemma_encode_entries_typed(entries.drop_last(), key_type, val_type, depth);
        lemma_encode_string_typed(entries.last().0, Some(key_type), depth);
        lemma_encode_typed(entries.last().1, Some(val_type), depth);
    }
}

/// Scalar identity: a boolean, a whole number, a float or a text, sent as the
/// type that is assumed for its kind, comes back as it was.
pub proof fn lemma_scalar_round_trip(value: HostModel, depth: nat)
    requires
        value is Bool || value is Int || value is Float || value is String,
    ensures
        encode_spec(value, default_type(value.kind()), depth) matches Ok(w) && decode_spec(
            w,
            depth,
        ) == Ok::<_, DecodeError>(value),
        encode_spec(value, None, depth) == encode_spec(value, default_type(value.kind()), depth),
{
}

/// Bytes that are sent as an array of bytes come back as the same bytes.
pub proof fn lemma_binary_round_trip(bytes: Seq<u8>, depth: nat)
    requires
        depth > 0,
    ensures
        encode_spec(
            HostModel::Binary(bytes),
            Some(WireType::Array(Box::new(WireType::Byte))),
            depth,
        ) == Ok::<_, EncodeErrorModel>(WireModel::Array(WireType::Byte, byte_items(bytes))),
        decode_spec(WireModel::Array(WireType::Byte, byte_items(bytes)), depth) == Ok::<
            _,
            DecodeError,
        >(HostModel::Binary(bytes)),
{
    let items = byte_items(bytes);
    assert(bytes_of(items)->Some_0 =~= bytes);
}

/// Whatever an array of bytes holds, its host value is a `Binary`, never a
/// list.
pub proof fn lemma_byte_array_is_binary(items: Seq<WireModel>, depth: nat)
    ensures
        decode_spec(WireModel::Array(WireType::Byte, items), depth) matches Ok(v) ==> v is Binary,
{
}

/// An unsigned 64-bit number comes from the wire as its decimal text, and
/// that text, sent as an unsigned 64-bit number, is the number again.
pub proof fn lemma_unsigned_round_trip(n: u64, depth: nat)
    ensures
        decode_spec(WireModel::UInt64(n), depth) == Ok::<_, DecodeError>(
            HostModel::String(decimal_text(n as nat)),
        ),
        encode_spec(HostModel::String(decimal_text(n as nat)), Some(WireType::UInt64), depth)
            == Ok::<_, EncodeErrorModel>(WireModel::UInt64(n)),
{
    lemma_read_decimal_text(n as nat, 0, 0xffff_ffff_ffff_ffff);
}

/// A list that is sent as a struct with another number of elements is
/// refused, and the error names both numbers.
pub proof fn lemma_struct_arity(vals: Seq<HostModel>, types: Seq<WireType>, depth: nat)
    requires
        depth > 0,
        vals.len() != types.len(),
    ensures
        encode_spec(HostModel::List(vals), Some(WireType::Struct(types)), depth) == Err::<
            WireModel,
            _,
        >(EncodeErrorModel::ArityMismatch { expected: types, actual: vals.len() }),
{
}

/// A variant has the host value of what it holds: nothing of the variant is
/// left in it.
pub proof fn lemma_variant_flattens(inner: WireModel, depth: nat)
    requires
        depth > 0,
    ensures
        decode_spec(WireModel::Variant(Box::new(inner)), depth) == decode_spec(
            inner,
            (depth - 1) as nat,
        ),
{
}

/// Every record in a host value that comes from the wire has each of its
/// keys once.
pub proof fn lemma_decode_well_formed(arg: WireModel, depth: nat)
    ensures
        decode_spec(arg, depth) matches Ok(v) ==> v.well_formed(),
    decreases arg,
{
    match arg {
        WireModel::Variant(inner) => {
            if depth > 0 {
                lemma_decode_well_formed(*inner, (depth - 1) as nat);
            }
        },
        WireModel::Array(element_type, items) => {
            if depth > 0 {
                lemma_decode_entries_well_formed(items, (depth - 1) as nat);
                lemma_decode_items_well_formed(items, (depth - 1) as nat);
            }
        },
        WireModel::Struct(items) => {
            if depth > 0 {
                lemma_decode_items_well_formed(items, (depth - 1) as nat);
            }
        },
        _ => {},
    }
}

/// The host values of the elements of an array or a struct are well formed.
pub proof fn lemma_decode_items_well_formed(items: Seq<WireModel>, depth: nat)
    ensures
        decode_items_spec(items, depth) matches Ok(vals) ==> forall|i: int|
            0 <= i < vals.len() ==> (#[trigger] vals[i]).well_formed(),
    decreases items,
{
    if items.len() > 0 {
        lemma_decode_items_well_formed(items.drop_last(), depth);
        lemma_decode_well_formed(items.last(), depth);
    }
}

/// The entries of the record that an array of dictionary entries becomes
/// have each key once, and well-formed values.
pub proof fn lemma_decode_entries_well_formed(items: Seq<WireModel>, depth: nat)
    ensures
        decode_entries_spec(items, depth) matches Ok(entries) ==> keys_unique(entries)
            && forall|i: int| 0 <= i < entries.len() ==> (#[trigger] entries[i]).1.well_formed(),
    decreases items,
{
    if items.len() > 0 {
        lemma_decode_entries_well_formed(items.drop_last(), depth);
        if let Ok(entries) = decode_entries_spec(items.drop_last(), depth) {
            if let WireModel::DictEntry(key, val) = items.last() {
                if let Some(text) = key_text(*key) {
                    lemma_decode_well_formed(*val, depth);
                    if let Ok(value) = decode_spec(*val, depth) {
                        lemma_entries_with_unique(entries, text, value);
                        lemma_first_named(entry_keys(entries), text);
                    }
                }
            }
        }
    }
}

/// Whether a value, sent as the given type, comes back as it was.
pub open spec fn comes_back(value: HostModel, t: WireType, depth: nat) -> bool {
    encode_spec(value, Some(t), depth) matches Ok(w) && decode_spec(w, depth) == Ok::<
        _,
        DecodeError,
    >(value)
}

/// A whole number that a signed 32-bit number holds, sent as one, comes back
/// as it was.
pub proof fn lemma_int32_comes_back(value: i64, depth: nat)
    requires
        -0x8000_0000 <= value <= 0x7fff_ffff,
    ensures
        comes_back(HostModel::Int(value), WireType::Int32, depth),
{
}

/// The entries of a record whose keys are all different come back from a
/// dictionary from strings as they were, where each of the values, sent as
/// the value type, comes back as it was.
pub proof fn lemma_entries_come_back(
    entries: Seq<(Seq<char>, HostModel)>,
    val_type: WireType,
    depth: nat,
)
    requires
        keys_unique(entries),
        forall|i: int|
            0 <= i < entries.len() ==> comes_back((#[trigger] entries[i]).1, val_type, depth),
    ensures
        encode_entries_spec(entries, WireType::String, val_type, depth) matches Ok(items)
            && decode_entries_spec(items, depth) == Ok::<_, DecodeError>(entries),
    decreases entries.len(),
{
    if entries.len() > 0 {
        let before = entries.drop_last();
        let (key, value) = entries.last();
        assert forall|i: int| 0 <= i < before.len() implies comes_back(
            (#[trigger] before[i]).1,
            val_type,
            depth,
        ) by {
            assert(before[i] == entries[i]);
        }
        assert(keys_unique(before)) by {
            assert forall|i: int, j: int| 0 <= i < j < before.len() implies (#[trigger] before[i]).0
                != (#[trigger] before[j]).0 by {
                assert(before[i] == entries[i]);
                assert(before[j] == entries[j]);
            }
        }
        lemma_entries_come_back(before, val_type, depth);
        let items_before = encode_entries_spec(before, WireType::String, val_type, depth)->Ok_0;
        let sent = encode_spec(value, Some(val_type), depth)->Ok_0;
        let items = items_before.push(
            WireModel::DictEntry(Box::new(WireModel::String(key)), Box::new(sent)),
        );
        assert(encode_entries_spec(entries, WireType::String, val_type, depth) == Ok::<
            _,
            EncodeErrorModel,
        >(items));
        assert(items.drop_last() =~= items_before);
        lemma_first_named(entry_keys(before), key);
        assert(first_named(entry_keys(before), key) is None) by {
            if let Some(k) = first_named(entry_keys(before), key) {
                assert(entry_keys(before)[k] == before[k].0);
                assert(before[k] == entries[k]);
                assert(entries[k].0 != entries[entries.len() - 1].0);
            }
        }
        assert(before.push((key, value)) =~= entries);
        assert(entries_with(before, key, value) == entries);
        assert(comes_back(entries[entries.len() - 1].1, val_type, depth));
        assert(decode_spec(sent, depth) == Ok::<_, DecodeError>(value));
        assert(items.last() == WireModel::DictEntry(
            Box::new(WireModel::String(key)),
            Box::new(sent),
        ));
        assert(decode_entries_spec(items, depth) == Ok::<_, DecodeError>(entries));
    } else {
        assert(entries =~= Seq::<(Seq<char>, HostModel)>::empty());
    }
}

/// Dictionary round trip: a record whose keys are all different, sent as a
/// dictionary from strings, comes back as it was, where each of its values,
/// sent as the value type, comes back as it was.
pub proof fn lemma_record_comes_back(
    entries: Seq<(Seq<char>, HostModel)>,
    val_type: WireType,
    depth: nat,
)
    requires
        depth > 0,
        keys_unique(entries),
        forall|i: int|
            0 <= i < entries.len() ==> comes_back(
                (#[trigger] entries[i]).1,
                val_type,
                (depth - 1) as nat,
            ),
    ensures
        comes_back(
            HostModel::Record(entries),
            WireType::Array(
                Box::new(WireType::DictEntry(Box::new(WireType::String), Box::new(val_type))),
            ),
            depth,
        ),
{
    lemma_entries_come_back(entries, val_type, (depth - 1) as nat);
}

/// What is sent as a byte is a byte.
pub proof fn lemma_sent_as_byte(value: HostModel, depth: nat)
    ensures
        encode_spec(value, Some(WireType::Byte), depth) matches Ok(w) ==> w is Byte,
{
}

/// Nothing is sent as a dictionary entry that stands alone.
pub proof fn lemma_nothing_sent_as_entry(
    value: HostModel,
    key_type: WireType,
    val_type: WireType,
    depth: nat,
)
    ensures
        encode_spec(
            value,
            Some(WireType::DictEntry(Box::new(key_type), Box::new(val_type))),
            depth,
        ) is Err,
{
}

/// What is sent can be read: the wire argument that sending a value gives
/// has a host value.
pub proof fn lemma_sent_is_read(value: HostModel, expected: Option<WireType>, depth: nat)
    ensures
        encode_spec(value, expected, depth) matches Ok(w) ==> decode_spec(w, depth) is Ok,
    decreases value, expectation_rank(expected),
{
    if let Ok(w) = encode_spec(value, expected, depth) {
        match expected {
            None => {
                lemma_sent_is_read(value, default_type(value.kind()), depth);
            },
            Some(WireType::Variant) => {
                lemma_sent_is_read(value, None, (depth - 1) as nat);
            },
            Some(t) => {
                match value {
                    HostModel::Binary(bytes) => {
                        assert(bytes_of(byte_items(bytes)) is Some);
                    },
                    HostModel::List(vals) => match t {
                        WireType::Array(element_type) => {
                            let inner = (depth - 1) as nat;
                            let items = encode_items_spec(vals, *element_type, inner)->Ok_0;
                            assert(w == WireModel::Array(*element_type, items));
                            if *element_type is DictEntry {
                                lemma_no_items_are_entries(vals, *element_type, inner);
                                assert(decode_entries_spec(items, inner) is Ok);
                            } else if *element_type == WireType::Byte {
                                lemma_items_are_bytes(vals, inner);
                            } else {
                                lemma_items_are_read(vals, *element_type, inner);
                            }
                        },
                        WireType::Struct(types) => {
                            let inner = (depth - 1) as nat;
                            lemma_fields_are_read(vals, types, inner);
                            let items = encode_fields_spec(vals, types, inner)->Ok_0;
                            assert(w == WireModel::Struct(items));
                        },
                        _ => {},
                    },
                    HostModel::Record(entries) => match t {
                        WireType::Array(element_type) => match *element_type {
                            WireType::DictEntry(key_type, val_type) => {
                                let inner = (depth - 1) as nat;
                                lemma_entries_are_read(entries, *key_type, *val_type, inner);
                                let items = encode_entries_spec(
                                    entries,
                                    *key_type,
                                    *val_type,
                                    inner,
                                )->Ok_0;
                                assert(w == WireModel::Array(*element_type, items));
                            },
                            _ => {},
                        },
                        _ => {},
                    },
                    _ => {},
                }
            },
        }
    }
}

/// The elements of a list that is sent as an array can be read.
pub proof fn lemma_items_are_read(vals: Seq<HostModel>, element_type: WireType, depth: nat)
    ensures
        encode_items_spec(vals, element_type, depth) matches Ok(items) ==> decode_items_spec(
            items,
            depth,
        ) is Ok,
    decreases vals, 0nat,
{
    if vals.len() > 0 {
        lemma_items_are_read(vals.drop_last(), element_type, depth);
        lemma_sent_is_read(vals.last(), Some(element_type), depth);
        if let Ok(items) = encode_items_spec(vals, element_type, depth) {
            assert(items.drop_last() =~= encode_items_spec(
                vals.drop_last(),
                element_type,
                depth,
            )->Ok_0);
        }
    }
}

/// The elements of a list that is sent as an array of bytes are bytes.
pub proof fn lemma_items_are_bytes(vals: Seq<HostModel>, depth: nat)
    ensures
        encode_items_spec(vals, WireType::Byte, depth) matches Ok(items) ==> bytes_of(items)
            is Some,
    decreases vals.len(),
{
    if vals.len() > 0 {
        lemma_items_are_bytes(vals.drop_last(), depth);
        lemma_sent_as_byte(vals.last(), depth);
        if let Ok(items) = encode_items_spec(vals, WireType::Byte, depth) {
            let before = encode_items_spec(vals.drop_last(), WireType::Byte, depth)->Ok_0;
            assert forall|i: int| 0 <= i < items.len() implies #[trigger] items[i] is Byte by {
                if i < before.len() {
                    assert(items[i] == before[i]);
                }
            }
        }
    }
}

/// A list that is sent as an array of dictionary entries has no elements.
pub proof fn lemma_no_items_are_entries(vals: Seq<HostModel>, element_type: WireType, depth: nat)
    requires
        element_type is DictEntry,
    ensures
        encode_items_spec(vals, element_type, depth) matches Ok(items) ==> items.len() == 0,
    decreases vals.len(),
{
    if vals.len() > 0 {
        lemma_no_items_are_entries(vals.drop_last(), element_type, depth);
        lemma_nothing_sent_as_entry(
            vals.last(),
            *element_type->DictEntry_0,
            *element_type->DictEntry_1,
            depth,
        );
    }
}

/// The elements of a list that is sent as a struct can be read.
pub proof fn lemma_fields_are_read(vals: Seq<HostModel>, types: Seq<WireType>, depth: nat)
    ensures
        encode_fields_spec(vals, types, depth) matches Ok(items) ==> decode_items_spec(
            items,
            depth,
        ) is Ok,
    decreases vals, 0nat,
{
    if vals.len() > 0 && types.len() > 0 {
        lemma_fields_are_read(vals.drop_last(), types.drop_last(), depth);
        lemma_sent_is_read(vals.last(), Some(types.last()), depth);
        if let Ok(items) = encode_fields_spec(vals, types, depth) {
            assert(items.drop_last() =~= encode_fields_spec(
                vals.drop_last(),
                types.drop_last(),
                depth,
            )->Ok_0);
        }
    }
}

/// The entries of a record that is sent can be read.
pub proof fn lemma_entries_are_read(
    entries: Seq<(Seq<char>, HostModel)>,
    key_type: WireType,
    val_type: WireType,
    depth: nat,
)
    ensures
        encode_entries_spec(entries, key_type, val_type, depth) matches Ok(items)
            ==> decode_entries_spec(items, depth) is Ok,
    decreases entries, 0nat,
{
    if entries.len() > 0 {
        lemma_entries_are_read(entries.drop_last(), key_type, val_type, depth);
        lemma_sent_is_read(entries.last().1, Some(val_type), depth);
        if let Ok(items) = encode_entries_spec(entries, key_type, val_type, depth) {
            assert(items.drop_last() =~= encode_entries_spec(
                entries.drop_last(),
                key_type,
                val_type,
                depth,
            )->Ok_0);
        }
    }
}

} // verus!
