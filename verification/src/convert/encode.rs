//! From the host to the wire: the wire argument that sending a host value
//! gives.

use crate::dbus_type::{
    lemma_view_struct, wire_type, wire_types, DbusType, WireType, MAX_NESTING_DEPTH,
};
use crate::host_value::{
    entry_models, host_models, lemma_view_list, lemma_view_record, HostKind, HostModel, HostValue,
};
use crate::number::{number_of_text, parse_number, MAGNITUDE_LIMIT};
use crate::strings::{check_object_path, check_signature, object_path_fault, signature_fault};
use crate::convert::decode::decode_spec;
use crate::convert::laws::{lemma_encode_typed, lemma_sent_is_read};
use crate::wire::{
    lemma_view_array, lemma_view_struct_items, type_of, well_typed, wire_models, WireArgument,
    WireModel,
};
use vstd::prelude::*;

verus! {

/// Why a host value has no wire argument of the expected type, as a
/// mathematical value.
pub ghost enum EncodeErrorModel {
    Incompatible { kind: HostKind, expected: WireType },
    ArityMismatch { expected: Seq<WireType>, actual: nat },
    OutOfRange { value: i64, expected: WireType },
    Unparseable { text: Seq<char>, expected: WireType },
    Malformed { text: Seq<char>, expected: WireType, reason: Seq<char> },
    Unsupported { kind: HostKind },
    TooDeep,
}

/// Why a host value has no wire argument of the expected type.
#[derive(Debug, Clone, PartialEq, Eq)]
pub enum EncodeError {
    /// A value of this kind is never sent as the expected type.
    Incompatible { kind: HostKind, expected: DbusType },
    /// A list was to be sent as a struct of these element types, and has
    /// another number of elements.
    ArityMismatch { expected: Vec<DbusType>, actual: usize },
    /// The number is outside what the expected type holds.
    OutOfRange { value: i64, expected: DbusType },
    /// The text writes no number of the expected type.
    Unparseable { text: String, expected: DbusType },
    /// The text is no object path, or not the signature of one complete type,
    /// as the case may be; the reason is the one that the D-Bus library gives.
    Malformed { text: String, expected: DbusType, reason: String },
    /// No type was expected, and values of this kind have no type that is
    /// assumed for them.
    Unsupported { kind: HostKind },
    /// More than the permitted number of containers would enclose one
    /// another.
    TooDeep,
}

impl View for EncodeError {
    type V = EncodeErrorModel;

    open spec fn view(&self) -> EncodeErrorModel {
        match self {
            EncodeError::Incompatible { kind, expected } => EncodeErrorModel::Incompatible {
                kind: *kind,
                expected: expected@,
            },
            EncodeError::ArityMismatch { expected, actual } => EncodeErrorModel::ArityMismatch {
                expected: wire_types(expected@),
                actual: *actual as nat,
            },
            EncodeError::OutOfRange { value, expected } => EncodeErrorModel::OutOfRange {
                value: *value,
                expected: expected@,
            },
            EncodeError::Unparseable { text, expected } => EncodeErrorModel::Unparseable {
                text: text@,
                expected: expected@,
            },
            EncodeError::Malformed { text, expected, reason } => EncodeErrorModel::Malformed {
                text: text@,
                expected: expected@,
                reason: reason@,
            },
            EncodeError::Unsupported { kind } => EncodeErrorModel::Unsupported { kind: *kind },
            EncodeError::TooDeep => EncodeErrorModel::TooDeep,
        }
    }
}

/// The type that is assumed for a value of the given kind where none is
/// expected. A list is sent as an array of variants, so that its elements
/// may differ in type, and a record as a dictionary from strings to variants.
pub open spec fn default_type(kind: HostKind) -> Option<WireType> {
    match kind {
        HostKind::Bool => Some(WireType::Boolean),
        HostKind::Int => Some(WireType::Int64),
        HostKind::Float => Some(WireType::Double),
        HostKind::String => Some(WireType::String),
        HostKind::Binary => None,
        HostKind::List => Some(WireType::Array(Box::new(WireType::Variant))),
        HostKind::Record => Some(
            WireType::Array(
                Box::new(
                    WireType::DictEntry(Box::new(WireType::String), Box::new(WireType::Variant)),
                ),
            ),
        ),
    }
}

/// The least and the greatest number that a type of whole numbers holds.
pub open spec fn int_range(t: WireType) -> Option<(int, int)> {
    match t {
        WireType::Byte => Some((0, 0xff)),
        WireType::Int16 => Some((-0x8000, 0x7fff)),
        WireType::UInt16 => Some((0, 0xffff)),
        WireType::Int32 => Some((-0x8000_0000, 0x7fff_ffff)),
        WireType::UInt32 => Some((0, 0xffff_ffff)),
        WireType::Int64 => Some((-0x8000_0000_0000_0000, 0x7fff_ffff_ffff_ffff)),
        WireType::UInt64 => Some((0, 0xffff_ffff_ffff_ffff)),
        _ => None,
    }
}

/// The wire argument of a type of whole numbers that holds `n`.
pub open spec fn int_argument(t: WireType, n: int) -> WireModel {
    match t {
        WireType::Byte => WireModel::Byte(n as u8),
        WireType::Int16 => WireModel::Int16(n as i16),
        WireType::UInt16 => WireModel::UInt16(n as u16),
        WireType::Int32 => WireModel::Int32(n as i32),
        WireType::UInt32 => WireModel::UInt32(n as u32),
        WireType::Int64 => WireModel::Int64(n as i64),
        WireType::UInt64 => WireModel::UInt64(n as u64),
        _ => WireModel::Invalid,
    }
}

/// What sending a text as an object path gives, where `fault` is what the
/// D-Bus library finds wrong with the text as an object path.
pub open spec fn object_path_spec(text: Seq<char>, fault: Option<Seq<char>>) -> Result<
    WireModel,
    EncodeErrorModel,
> {
    match fault {
        None => Ok(WireModel::ObjectPath(text)),
        Some(reason) => Err(
            EncodeErrorModel::Malformed { text, expected: WireType::ObjectPath, reason },
        ),
    }
}

/// What sending a text as a signature gives, where `fault` is what the D-Bus
/// library finds wrong with the text as the signature of one complete type.
pub open spec fn signature_spec(text: Seq<char>, fault: Option<Seq<char>>) -> Result<
    WireModel,
    EncodeErrorModel,
> {
    match fault {
        None => Ok(WireModel::Signature(text)),
        Some(reason) => Err(
            EncodeErrorModel::Malformed { text, expected: WireType::Signature, reason },
        ),
    }
}

/// What sending a text as a given type other than a variant gives: the text
/// itself as a string; the text as an object path or a signature, where the
/// D-Bus library accepts it as one; the number that it writes as a type of
/// whole numbers; and the text still unread as a double.
pub open spec fn encode_text_spec(text: Seq<char>, t: WireType) -> Result<
    WireModel,
    EncodeErrorModel,
> {
    match t {
        WireType::String => Ok(WireModel::String(text)),
        WireType::ObjectPath => object_path_spec(text, object_path_fault(text)),
        WireType::Signature => signature_spec(text, signature_fault(text)),
        WireType::Double => Ok(WireModel::DoubleText(text)),
        _ => match int_range(t) {
            Some((min, max)) => match number_of_text(text, min, max) {
                Some(n) => Ok(int_argument(t, n)),
                None => Err(EncodeErrorModel::Unparseable { text, expected: t }),
            },
            None => Err(EncodeErrorModel::Incompatible { kind: HostKind::String, expected: t }),
        },
    }
}

/// What sending a text gives, as the expected type or, where none is
/// expected, as a string. This is what sending the text as a host value
/// gives (see [`lemma_encode_string`]); the keys of a record are sent so.
pub open spec fn encode_string_spec(text: Seq<char>, expected: Option<WireType>, depth: nat) -> Result<
    WireModel,
    EncodeErrorModel,
> {
    match expected {
        None => Ok(WireModel::String(text)),
        Some(WireType::Variant) => if depth == 0 {
            Err(EncodeErrorModel::TooDeep)
        } else {
            Ok(WireModel::Variant(Box::new(WireModel::String(text))))
        },
        Some(t) => encode_text_spec(text, t),
    }
}

/// What sending a whole number as a given type other than a variant gives.
pub open spec fn encode_int_spec(value: i64, t: WireType) -> Result<WireModel, EncodeErrorModel> {
    match int_range(t) {
        Some((min, max)) => if min <= value <= max {
            Ok(int_argument(t, value as int))
        } else {
            Err(EncodeErrorModel::OutOfRange { value, expected: t })
        },
        None => Err(EncodeErrorModel::Incompatible { kind: HostKind::Int, expected: t }),
    }
}

/// The elements of the byte array that holds the given bytes.
pub open spec fn byte_items(bytes: Seq<u8>) -> Seq<WireModel> {
    Seq::new(bytes.len(), |i: int| WireModel::Byte(bytes[i]))
}

/// How far an expectation is from one that is met without another step: from
/// a variant the way leads to no expectation, and from there to the type that
/// is assumed.
pub open spec fn expectation_rank(expected: Option<WireType>) -> nat {
    match expected {
        Some(WireType::Variant) => 2,
        None => 1,
        Some(_) => 0,
    }
}

/// The wire argument that sending a host value gives, as the expected type
/// or, where none is expected, as the type that is assumed for its kind. At
/// most `depth` containers may enclose one another in it.
pub open spec fn encode_spec(value: HostModel, expected: Option<WireType>, depth: nat) -> Result<
    WireModel,
    EncodeErrorModel,
>
    decreases value, expectation_rank(expected),
{
    match expected {
        None => match default_type(value.kind()) {
            Some(t) => encode_spec(value, Some(t), depth),
            None => Err(EncodeErrorModel::Unsupported { kind: value.kind() }),
        },
        Some(WireType::Variant) => if depth == 0 {
            Err(EncodeErrorModel::TooDeep)
        } else {
            match encode_spec(value, None, (depth - 1) as nat) {
                Ok(inner) => Ok(WireModel::Variant(Box::new(inner))),
                Err(e) => Err(e),
            }
        },
        Some(t) => {
            let incompatible = Err(
                EncodeErrorModel::Incompatible { kind: value.kind(), expected: t },
            );
            match value {
                HostModel::Bool(b) => if t == WireType::Boolean {
                    Ok(WireModel::Boolean(b))
                } else {
                    incompatible
                },
                HostModel::Int(v) => encode_int_spec(v, t),
                HostModel::Float(bits) => if t == WireType::Double {
                    Ok(WireModel::Double(bits))
                } else {
                    incompatible
                },
                HostModel::String(text) => encode_text_spec(text, t),
                HostModel::Binary(bytes) => if t == WireType::Array(Box::new(WireType::Byte)) {
                    if depth == 0 {
                        Err(EncodeErrorModel::TooDeep)
                    } else {
                        Ok(WireModel::Array(WireType::Byte, byte_items(bytes)))
                    }
                } else {
                    incompatible
                },
                HostModel::List(vals) => match t {
                    WireType::Array(element_type) => if depth == 0 {
                        Err(EncodeErrorModel::TooDeep)
                    } else {
                        match encode_items_spec(vals, *element_type, (depth - 1) as nat) {
                            Ok(items) => Ok(WireModel::Array(*element_type, items)),
                            Err(e) => Err(e),
                        }
                    },
                    WireType::Struct(types) => if depth == 0 {
                        Err(EncodeErrorModel::TooDeep)
                    } else if vals.len() != types.len() {
                        Err(EncodeErrorModel::ArityMismatch { expected: types, actual: vals.len() })
                    } else {
                        match encode_fields_spec(vals, types, (depth - 1) as nat) {
                            Ok(items) => Ok(WireModel::Struct(items)),
                            Err(e) => Err(e),
                        }
                    },
                    _ => incompatible,
                },
                HostModel::Record(entries) => match t {
                    WireType::Array(element_type) => match *element_type {
                        WireType::DictEntry(key_type, val_type) => if depth == 0 {
                            Err(EncodeErrorModel::TooDeep)
                        } else {
                            match encode_entries_spec(
                                entries,
                                *key_type,
                                *val_type,
                                (depth - 1) as nat,
                            ) {
                                Ok(items) => Ok(WireModel::Array(*element_type, items)),
                                Err(e) => Err(e),
                            }
                        },
                        _ => incompatible,
                    },
                    _ => incompatible,
                },
            }
        },
    }
}

/// The elements of the array that sending a list as an array gives: each
/// element of the list as the element type, in order. The first element that
/// cannot be sent so leaves the whole without a wire argument.
pub open spec fn encode_items_spec(vals: Seq<HostModel>, element_type: WireType, depth: nat) -> Result<
    Seq<WireModel>,
    EncodeErrorModel,
>
    decreases vals, 0nat,
{
    if vals.len() == 0 {
        Ok(Seq::empty())
    } else {
        match encode_items_spec(vals.drop_last(), element_type, depth) {
            Err(e) => Err(e),
            Ok(items) => match encode_spec(vals.last(), Some(element_type), depth) {
                Ok(item) => Ok(items.push(item)),
                Err(e) => Err(e),
            },
        }
    }
}

/// The elements of the struct that sending a list as a struct gives: each
/// element of the list as the type in its place.
pub open spec fn encode_fields_spec(vals: Seq<HostModel>, types: Seq<WireType>, depth: nat) -> Result<
    Seq<WireModel>,
    EncodeErrorModel,
>
    recommends
        vals.len() == types.len(),
    decreases vals, 0nat,
{
    if vals.len() == 0 || types.len() == 0 {
        Ok(Seq::empty())
    } else {
        match encode_fields_spec(vals.drop_last(), types.drop_last(), depth) {
            Err(e) => Err(e),
            Ok(items) => match encode_spec(vals.last(), Some(types.last()), depth) {
                Ok(item) => Ok(items.push(item)),
                Err(e) => Err(e),
            },
        }
    }
}

/// The elements of the dictionary that sending a record gives: for each
/// entry, in order, a dictionary entry of its key, sent as a text of the key
/// type, and of its value, sent as the value type.
pub open spec fn encode_entries_spec(
    entries: Seq<(Seq<char>, HostModel)>,
    key_type: WireType,
    val_type: WireType,
    depth: nat,
) -> Result<Seq<WireModel>, EncodeErrorModel>
    decreases entries, 0nat,
{
    if entries.len() == 0 {
        Ok(Seq::empty())
    } else {
        match encode_entries_spec(entries.drop_last(), key_type, val_type, depth) {
            Err(e) => Err(e),
            Ok(items) => match encode_string_spec(entries.last().0, Some(key_type), depth) {
                Err(e) => Err(e),
                Ok(key) => match encode_spec(entries.last().1, Some(val_type), depth) {
                    Ok(val) => Ok(items.push(WireModel::DictEntry(Box::new(key), Box::new(val)))),
                    Err(e) => Err(e),
                },
            },
        }
    }
}

/// Sending a text as a host value is `encode_string_spec`.
pub proof fn lemma_encode_string(text: Seq<char>, expected: Option<WireType>, depth: nat)
    ensures
        encode_spec(HostModel::String(text), expected, depth) == encode_string_spec(
            text,
            expected,
            depth,
        ),
{
    reveal_with_fuel(encode_spec, 3);
}

/// Where the elements up to some place cannot be sent, the whole list
/// cannot, for the same reason.
pub proof fn lemma_encode_items_fails(vals: Seq<HostModel>, n: int, t: WireType, depth: nat)
    requires
        0 <= n <= vals.len(),
        encode_items_spec(vals.take(n), t, depth) is Err,
    ensures
        encode_items_spec(vals, t, depth) == encode_items_spec(vals.take(n), t, depth),
    decreases vals.len() - n,
{
    if n < vals.len() {
        assert(vals.take(n + 1).drop_last() =~= vals.take(n));
        lemma_encode_items_fails(vals, n + 1, t, depth);
    } else {
        assert(vals.take(n) =~= vals);
    }
}

/// Where the elements up to some place cannot be sent as the types in their
/// places, the whole list cannot, for the same reason.
pub proof fn lemma_encode_fields_fails(
    vals: Seq<HostModel>,
    types: Seq<WireType>,
    n: int,
    depth: nat,
)
    requires
        0 <= n <= vals.len(),
        vals.len() == types.len(),
        encode_fields_spec(vals.take(n), types.take(n), depth) is Err,
    ensures
        encode_fields_spec(vals, types, depth) == encode_fields_spec(
            vals.take(n),
            types.take(n),
            depth,
        ),
    decreases vals.len() - n,
{
    if n < vals.len() {
        assert(vals.take(n + 1).drop_last() =~= vals.take(n));
        assert(types.take(n + 1).drop_last() =~= types.take(n));
        lemma_encode_fields_fails(vals, types, n + 1, depth);
    } else {
        assert(vals.take(n) =~= vals);
        assert(types.take(n) =~= types);
    }
}

/// Where the entries up to some place cannot be sent, the whole record
/// cannot, for the same reason.
pub proof fn lemma_encode_entries_fails(
    entries: Seq<(Seq<char>, HostModel)>,
    n: int,
    key_type: WireType,
    val_type: WireType,
    depth: nat,
)
    requires
        0 <= n <= entries.len(),
        encode_entries_spec(entries.take(n), key_type, val_type, depth) is Err,
    ensures
        encode_entries_spec(entries, key_type, val_type, depth) == encode_entries_spec(
            entries.take(n),
            key_type,
            val_type,
            depth,
        ),
    decreases entries.len() - n,
{
    if n < entries.len() {
        assert(entries.take(n + 1).drop_last() =~= entries.take(n));
        lemma_encode_entries_fails(entries, n + 1, key_type, val_type, depth);
    } else {
        assert(entries.take(n) =~= entries);
    }
}

/// The type as which a value is sent: the expected one or, where none is
/// expected, the one that is assumed for its kind.
pub open spec fn sent_type(value: HostModel, expected: Option<WireType>) -> Option<WireType> {
    match expected {
        Some(t) => Some(t),
        None => default_type(value.kind()),
    }
}

/// Whether a result holds the wire argument, or the error, whose value is
/// given.
pub open spec fn encoded_as(
    r: Result<WireArgument, EncodeError>,
    model: Result<WireModel, EncodeErrorModel>,
) -> bool {
    match model {
        Ok(w) => r matches Ok(arg) && arg@ == w,
        Err(e) => r matches Err(f) && f@ == e,
    }
}

/// The expectation as a mathematical value.
pub open spec fn expected_model(expected: Option<&DbusType>) -> Option<WireType> {
    match expected {
        Some(t) => Some(t@),
        None => None,
    }
}

/// The least and the greatest number that a type of whole numbers holds.
fn range_of(t: &DbusType) -> (range: Option<(i128, i128)>)
    ensures
        match int_range(t@) {
            Some((min, max)) => range == Some((min as i128, max as i128)) && -MAGNITUDE_LIMIT
                <= min <= 0 <= max <= MAGNITUDE_LIMIT,
            None => range is None,
        },
{
    match t {
        DbusType::Byte => Some((0, 0xff)),
        DbusType::Int16 => Some((-0x8000, 0x7fff)),
        DbusType::UInt16 => Some((0, 0xffff)),
        DbusType::Int32 => Some((-0x8000_0000, 0x7fff_ffff)),
        DbusType::UInt32 => Some((0, 0xffff_ffff)),
        DbusType::Int64 => Some((-0x8000_0000_0000_0000, 0x7fff_ffff_ffff_ffff)),
        DbusType::UInt64 => Some((0, 0xffff_ffff_ffff_ffff)),
        _ => None,
    }
}

/// The wire argument of a type of whole numbers that holds `n`.
fn int_wire(t: &DbusType, n: i128) -> (arg: WireArgument)
    requires
        int_range(t@) matches Some((min, max)) && min <= n <= max,
    ensures
        arg@ == int_argument(t@, n as int),
{
    match t {
        DbusType::Byte => WireArgument::Byte(n as u8),
        DbusType::Int16 => WireArgument::Int16(n as i16),
        DbusType::UInt16 => WireArgument::UInt16(n as u16),
        DbusType::Int32 => WireArgument::Int32(n as i32),
        DbusType::UInt32 => WireArgument::UInt32(n as u32),
        DbusType::Int64 => WireArgument::Int64(n as i64),
        DbusType::UInt64 => WireArgument::UInt64(n as u64),
        _ => WireArgument::Invalid,
    }
}

/// Sends a whole number as a type other than a variant.
fn encode_int(value: i64, t: &DbusType) -> (r: Result<WireArgument, EncodeError>)
    ensures
        encoded_as(r, encode_int_spec(value, t@)),
{
    match range_of(t) {
        Some((min, max)) => {
            if min <= value as i128 && value as i128 <= max {
                Ok(int_wire(t, value as i128))
            } else {
                Err(EncodeError::OutOfRange { value, expected: t.clone() })
            }
        },
        None => Err(EncodeError::Incompatible { kind: HostKind::Int, expected: t.clone() }),
    }
}

/// The characters of a fault that may be absent.
pub open spec fn fault_model(fault: Option<String>) -> Option<Seq<char>> {
    match fault {
        Some(reason) => Some(reason@),
        None => None,
    }
}

/// Sends a text as an object path, given what the D-Bus library finds wrong
/// with the text as an object path.
pub fn object_path_argument(text: &str, fault: Option<String>) -> (r: Result<
    WireArgument,
    EncodeError,
>)
    ensures
        encoded_as(r, object_path_spec(text@, fault_model(fault))),
{
    match fault {
        None => Ok(WireArgument::ObjectPath(String::from_str(text))),
        Some(reason) => Err(
            EncodeError::Malformed {
                text: String::from_str(text),
                expected: DbusType::ObjectPath,
                reason,
            },
        ),
    }
}

/// Sends a text as a signature, given what the D-Bus library finds wrong with
/// the text as the signature of one complete type.
pub fn signature_argument(text: &str, fault: Option<String>) -> (r: Result<
    WireArgument,
    EncodeError,
>)
    ensures
        encoded_as(r, signature_spec(text@, fault_model(fault))),
{
    match fault {
        None => Ok(WireArgument::Signature(String::from_str(text))),
        Some(reason) => Err(
            EncodeError::Malformed {
                text: String::from_str(text),
                expected: DbusType::Signature,
                reason,
            },
        ),
    }
}

/// Sends a text as a type other than a variant.
fn encode_text(text: &String, t: &DbusType) -> (r: Result<WireArgument, EncodeError>)
    ensures
        encoded_as(r, encode_text_spec(text@, t@)),
{
    match t {
        DbusType::String => Ok(WireArgument::String(text.clone())),
        DbusType::ObjectPath => object_path_argument(
            text.as_str(),
            check_object_path(text.as_str()),
        ),
        DbusType::Signature => signature_argument(text.as_str(), check_signature(text.as_str())),
        DbusType::Double => Ok(WireArgument::DoubleText(text.clone())),
        _ => match range_of(t) {
            Some((min, max)) => match parse_number(text.as_str(), min, max) {
                Some(n) => Ok(int_wire(t, n)),
                None => Err(EncodeError::Unparseable { text: text.clone(), expected: t.clone() }),
            },
            None => Err(EncodeError::Incompatible { kind: HostKind::String, expected: t.clone() }),
        },
    }
}

/// Sends a text as the expected type or, where none is expected, as a
/// string.
fn encode_string(text: &String, expected: Option<&DbusType>, depth: usize) -> (r: Result<
    WireArgument,
    EncodeError,
>)
    ensures
        encoded_as(r, encode_string_spec(text@, expected_model(expected), depth as nat)),
{
    match expected {
        None => Ok(WireArgument::String(text.clone())),
        Some(DbusType::Variant) => {
            if depth == 0 {
                Err(EncodeError::TooDeep)
            } else {
                let inner = WireArgument::String(text.clone());
                assert(inner@ == WireModel::String(text@));
                Ok(WireArgument::Variant(Box::new(inner)))
            }
        },
        Some(t) => encode_text(text, t),
    }
}

/// The type that is assumed for a value of the given kind.
fn default_for(kind: HostKind) -> (t: Option<DbusType>)
    ensures
        match default_type(kind) {
            Some(w) => t matches Some(d) && d@ == w,
            None => t is None,
        },
{
    proof {
        reveal_with_fuel(wire_type, 4);
    }
    match kind {
        HostKind::Bool => Some(DbusType::Boolean),
        HostKind::Int => Some(DbusType::Int64),
        HostKind::Float => Some(DbusType::Double),
        HostKind::String => Some(DbusType::String),
        HostKind::Binary => None,
        HostKind::List => Some(DbusType::Array(Box::new(DbusType::Variant))),
        HostKind::Record => Some(
            DbusType::Array(
                Box::new(
                    DbusType::DictEntry(Box::new(DbusType::String), Box::new(DbusType::Variant)),
                ),
            ),
        ),
    }
}

/// Copies of the given types.
fn clone_types(types: &Vec<DbusType>) -> (copies: Vec<DbusType>)
    ensures
        wire_types(copies@) == wire_types(types@),
{
    let mut copies: Vec<DbusType> = Vec::new();
    let mut i: usize = 0;
    while i < types.len()
        invariant
            i <= types.len(),
            copies.len() == i,
            forall|j: int| 0 <= j < i ==> (#[trigger] copies[j])@ == types[j]@,
        decreases types.len() - i,
    {
        copies.push(types[i].clone());
        i += 1;
    }
    assert(wire_types(copies@) =~= wire_types(types@));
    copies
}

/// The elements of the byte array that holds the given bytes.
fn encode_bytes(bytes: &Vec<u8>) -> (items: Vec<WireArgument>)
    ensures
        wire_models(items@) == byte_items(bytes@),
{
    let mut items: Vec<WireArgument> = Vec::new();
    let mut i: usize = 0;
    while i < bytes.len()
        invariant
            i <= bytes.len(),
            items.len() == i,
            forall|j: int| 0 <= j < i ==> (#[trigger] items[j])@ == WireModel::Byte(bytes[j]),
        decreases bytes.len() - i,
    {
        items.push(WireArgument::Byte(bytes[i]));
        i += 1;
    }
    assert(wire_models(items@) =~= byte_items(bytes@));
    items
}

/// Sends each element of the list `whole` as the element type.
fn encode_items(whole: &HostValue, vals: &Vec<HostValue>, t: &DbusType, depth: usize) -> (r: Result<
    Vec<WireArgument>,
    EncodeError,
>)
    requires
        whole matches HostValue::List(held) && held == vals,
    ensures
        match encode_items_spec(host_models(vals@), t@, depth as nat) {
            Ok(items) => r matches Ok(sent) && wire_models(sent@) == items,
            Err(e) => r matches Err(f) && f@ == e,
        },
    decreases whole, 0nat,
{
    let ghost models = host_models(vals@);
    let mut items: Vec<WireArgument> = Vec::new();
    let mut i: usize = 0;
    assert(models.take(0) =~= Seq::<HostModel>::empty());
    assert(wire_models(items@) =~= Seq::<WireModel>::empty());
    while i < vals.len()
        invariant
            i <= vals.len(),
            models == host_models(vals@),
            whole matches HostValue::List(held) && held == vals,
            encode_items_spec(models.take(i as int), t@, depth as nat) == Ok::<
                _,
                EncodeErrorModel,
            >(wire_models(items@)),
        decreases vals.len() - i,
    {
        proof {
            assert(models.take(i + 1).drop_last() =~= models.take(i as int));
            assert(models.take(i + 1).last() == vals[i as int]@);
            assert(decreases_to!(*whole => whole->List_0[i as int]));
        }
        let ghost before = wire_models(items@);
        match encode_at(&vals[i], Some(t), depth) {
            Ok(item) => {
                items.push(item);
                assert(wire_models(items@) =~= before.push(item@));
            },
            Err(e) => {
                proof {
                    lemma_encode_items_fails(models, i + 1, t@, depth as nat);
                }
                return Err(e);
            },
        }
        i += 1;
    }
    assert(models.take(i as int) =~= models);
    Ok(items)
}

/// Sends each element of the list `whole` as the type in its place.
fn encode_fields(
    whole: &HostValue,
    vals: &Vec<HostValue>,
    types: &Vec<DbusType>,
    depth: usize,
) -> (r: Result<Vec<WireArgument>, EncodeError>)
    requires
        whole matches HostValue::List(held) && held == vals,
        vals.len() == types.len(),
    ensures
        match encode_fields_spec(host_models(vals@), wire_types(types@), depth as nat) {
            Ok(items) => r matches Ok(sent) && wire_models(sent@) == items,
            Err(e) => r matches Err(f) && f@ == e,
        },
    decreases whole, 0nat,
{
    let ghost models = host_models(vals@);
    let ghost expected = wire_types(types@);
    let mut items: Vec<WireArgument> = Vec::new();
    let mut i: usize = 0;
    assert(models.take(0) =~= Seq::<HostModel>::empty());
    assert(wire_models(items@) =~= Seq::<WireModel>::empty());
    while i < vals.len()
        invariant
            i <= vals.len(),
            vals.len() == types.len(),
            models == host_models(vals@),
            expected == wire_types(types@),
            whole matches HostValue::List(held) && held == vals,
            encode_fields_spec(models.take(i as int), expected.take(i as int), depth as nat) == Ok::<
                _,
                EncodeErrorModel,
            >(wire_models(items@)),
        decreases vals.len() - i,
    {
        proof {
            assert(models.take(i + 1).drop_last() =~= models.take(i as int));
            assert(models.take(i + 1).last() == vals[i as int]@);
            assert(expected.take(i + 1).drop_last() =~= expected.take(i as int));
            assert(expected.take(i + 1).last() == types[i as int]@);
            assert(decreases_to!(*whole => whole->List_0[i as int]));
        }
        let ghost before = wire_models(items@);
        match encode_at(&vals[i], Some(&types[i]), depth) {
            Ok(item) => {
                items.push(item);
                assert(wire_models(items@) =~= before.push(item@));
            },
            Err(e) => {
                proof {
                    lemma_encode_fields_fails(models, expected, i + 1, depth as nat);
                }
                return Err(e);
            },
        }
        i += 1;
    }
    assert(models.take(i as int) =~= models);
    assert(expected.take(i as int) =~= expected);
    Ok(items)
}

/// Sends each entry of the record `whole` as a dictionary entry.
fn encode_entries(
    whole: &HostValue,
    entries: &Vec<(String, HostValue)>,
    key_type: &DbusType,
    val_type: &DbusType,
    depth: usize,
) -> (r: Result<Vec<WireArgument>, EncodeError>)
    requires
        whole matches HostValue::Record(held) && held == entries,
    ensures
        match encode_entries_spec(entry_models(entries@), key_type@, val_type@, depth as nat) {
            Ok(items) => r matches Ok(sent) && wire_models(sent@) == items,
            Err(e) => r matches Err(f) && f@ == e,
        },
    decreases whole, 0nat,
{
    let ghost models = entry_models(entries@);
    let mut items: Vec<WireArgument> = Vec::new();
    let mut i: usize = 0;
    assert(models.take(0) =~= Seq::<(Seq<char>, HostModel)>::empty());
    assert(wire_models(items@) =~= Seq::<WireModel>::empty());
    while i < entries.len()
        invariant
            i <= entries.len(),
            models == entry_models(entries@),
            whole matches HostValue::Record(held) && held == entries,
            encode_entries_spec(models.take(i as int), key_type@, val_type@, depth as nat) == Ok::<
                _,
                EncodeErrorModel,
            >(wire_models(items@)),
        decreases entries.len() - i,
    {
        proof {
            assert(models.take(i + 1).drop_last() =~= models.take(i as int));
            assert(models.take(i + 1).last() == (entries[i as int].0@, entries[i as int].1@));
            assert(decreases_to!(*whole => whole->Record_0[i as int].1));
        }
        let ghost before = wire_models(items@);
        let key = match encode_string(&entries[i].0, Some(key_type), depth) {
            Ok(key) => key,
            Err(e) => {
                proof {
                    lemma_encode_entries_fails(models, i + 1, key_type@, val_type@, depth as nat);
                }
                return Err(e);
            },
        };
        match encode_at(&entries[i].1, Some(val_type), depth) {
            Ok(val) => {
                let entry = WireArgument::DictEntry(Box::new(key), Box::new(val));
                items.push(entry);
                assert(wire_models(items@) =~= before.push(entry@));
            },
            Err(e) => {
                proof {
                    lemma_encode_entries_fails(models, i + 1, key_type@, val_type@, depth as nat);
                }
                return Err(e);
            },
        }
        i += 1;
    }
    assert(models.take(i as int) =~= models);
    Ok(items)
}

/// Sends a value as the expected type, or as the type that is assumed for it.
fn encode_at(value: &HostValue, expected: Option<&DbusType>, depth: usize) -> (r: Result<
    WireArgument,
    EncodeError,
>)
    ensures
        encoded_as(r, encode_spec(value@, expected_model(expected), depth as nat)),
    decreases value, expectation_rank(expected_model(expected)) + 1,
{
    let t = match expected {
        None => {
            return match default_for(value.kind()) {
                Some(t) => encode_at(value, Some(&t), depth),
                None => Err(EncodeError::Unsupported { kind: value.kind() }),
            };
        },
        Some(DbusType::Variant) => {
            if depth == 0 {
                return Err(EncodeError::TooDeep);
            }
            return match encode_at(value, None, depth - 1) {
                Ok(inner) => Ok(WireArgument::Variant(Box::new(inner))),
                Err(e) => Err(e),
            };
        },
        Some(t) => t,
    };
    match value {
        HostValue::Bool(b) => match t {
            DbusType::Boolean => Ok(WireArgument::Boolean(*b)),
            _ => Err(EncodeError::Incompatible { kind: HostKind::Bool, expected: t.clone() }),
        },
        HostValue::Int(v) => encode_int(*v, t),
        HostValue::Float(bits) => match t {
            DbusType::Double => Ok(WireArgument::Double(*bits)),
            _ => Err(EncodeError::Incompatible { kind: HostKind::Float, expected: t.clone() }),
        },
        HostValue::String(text) => encode_text(text, t),
        HostValue::Binary(bytes) => {
            let byte_array = match t {
                DbusType::Array(content) => matches!(**content, DbusType::Byte),
                _ => false,
            };
            if !byte_array {
                Err(EncodeError::Incompatible { kind: HostKind::Binary, expected: t.clone() })
            } else if depth == 0 {
                Err(EncodeError::TooDeep)
            } else {
                let items = encode_bytes(bytes);
                proof {
                    lemma_view_array(DbusType::Byte, items);
                }
                Ok(WireArgument::Array(DbusType::Byte, items))
            }
        },
        HostValue::List(vals) => {
            proof {
                lemma_view_list(*vals);
            }
            match t {
                DbusType::Array(element_type) => {
                    if depth == 0 {
                        return Err(EncodeError::TooDeep);
                    }
                    match encode_items(value, vals, &**element_type, depth - 1) {
                        Ok(items) => {
                            let element_type = (&**element_type).clone();
                            proof {
                                lemma_view_array(element_type, items);
                            }
                            Ok(WireArgument::Array(element_type, items))
                        },
                        Err(e) => Err(e),
                    }
                },
                DbusType::Struct(types) => {
                    proof {
                        lemma_view_struct(*types);
                    }
                    if depth == 0 {
                        return Err(EncodeError::TooDeep);
                    }
                    if vals.len() != types.len() {
                        return Err(
                            EncodeError::ArityMismatch {
                                expected: clone_types(types),
                                actual: vals.len(),
                            },
                        );
                    }
                    match encode_fields(value, vals, types, depth - 1) {
                        Ok(items) => {
                            proof {
                                lemma_view_struct_items(items);
                            }
                            Ok(WireArgument::Struct(items))
                        },
                        Err(e) => Err(e),
                    }
                },
                _ => Err(EncodeError::Incompatible { kind: HostKind::List, expected: t.clone() }),
            }
        },
        HostValue::Record(entries) => {
            proof {
                lemma_view_record(*entries);
            }
            match t {
                DbusType::Array(element_type) => match &**element_type {
                    DbusType::DictEntry(key_type, val_type) => {
                        if depth == 0 {
                            return Err(EncodeError::TooDeep);
                        }
                        match encode_entries(value, entries, &**key_type, &**val_type, depth - 1) {
                            Ok(items) => {
                                let element_type = (&**element_type).clone();
                                proof {
                                    lemma_view_array(element_type, items);
                                }
                                Ok(WireArgument::Array(element_type, items))
                            },
                            Err(e) => Err(e),
                        }
                    },
                    _ => Err(
                        EncodeError::Incompatible { kind: HostKind::Record, expected: t.clone() },
                    ),
                },
                _ => Err(EncodeError::Incompatible { kind: HostKind::Record, expected: t.clone() }),
            }
        },
    }
}

/// Encodes a host value as a wire argument of the expected type or, where
/// none is expected, of the type that is assumed for its kind.
pub fn to_message_item(value: &HostValue, expected_type: Option<&DbusType>) -> (r: Result<
    WireArgument,
    EncodeError,
>)
    ensures
        encoded_as(
            r,
            encode_spec(value@, expected_model(expected_type), MAX_NESTING_DEPTH as nat),
        ),
        r matches Ok(arg) ==> well_typed(arg@) && type_of(arg@) == sent_type(
            value@,
            expected_model(expected_type),
        ) && decode_spec(arg@, MAX_NESTING_DEPTH as nat) is Ok,
{
    proof {
        lemma_encode_typed(value@, expected_model(expected_type), MAX_NESTING_DEPTH as nat);
        lemma_sent_is_read(value@, expected_model(expected_type), MAX_NESTING_DEPTH as nat);
    }
    encode_at(value, expected_type, MAX_NESTING_DEPTH)
}

/// Encodes the value of a property that is to be set: as the expected type,
/// or as the type that is assumed for its kind, and inside a variant, as
/// setting a property asks.
pub fn property_argument(value: &HostValue, expected_type: Option<&DbusType>) -> (r: Result<
    WireArgument,
    EncodeError,
>)
    ensures
        match encode_spec(value@, expected_model(expected_type), MAX_NESTING_DEPTH as nat) {
            Ok(w) => r matches Ok(arg) && arg@ == WireModel::Variant(Box::new(w)),
            Err(e) => r matches Err(f) && f@ == e,
        },
{
    match encode_at(value, expected_type, MAX_NESTING_DEPTH) {
        Ok(arg) => Ok(WireArgument::Variant(Box::new(arg))),
        Err(e) => Err(e),
    }
}

} // verus!
