//! Wire arguments: values as the transport carries them, each with its type
//! about it.

use crate::dbus_type::{DbusType, WireType};
use crate::strings::{object_path_fault, signature_fault};
use vstd::prelude::*;

verus! {

/// A wire argument, as a mathematical value.
///
/// This is the view of [`WireArgument`]: contracts speak of it.
pub ghost enum WireModel {
    Byte(u8),
    Boolean(bool),
    Int16(i16),
    UInt16(u16),
    Int32(i32),
    UInt32(u32),
    Int64(i64),
    UInt64(u64),
    Double(u64),
    DoubleText(Seq<char>),
    String(Seq<char>),
    ObjectPath(Seq<char>),
    Signature(Seq<char>),
    Variant(Box<WireModel>),
    Array(WireType, Seq<WireModel>),
    Struct(Seq<WireModel>),
    DictEntry(Box<WireModel>, Box<WireModel>),
    Invalid,
}

/// A value as the transport carries it. Its type can be told from it alone.
#[derive(Debug, PartialEq, Eq)]
pub enum WireArgument {
    Byte(u8),
    Boolean(bool),
    Int16(i16),
    UInt16(u16),
    Int32(i32),
    UInt32(u32),
    Int64(i64),
    UInt64(u64),
    /// A double, held by its bits (sign, exponent, fraction).
    Double(u64),
    /// A double that is given as text: whoever puts the argument on the wire
    /// reads the number from the text, or finds that it writes none.
    DoubleText(String),
    String(String),
    ObjectPath(String),
    Signature(String),
    /// A container of one value of any type.
    Variant(Box<WireArgument>),
    /// The type of the elements, and the elements. A dictionary is an array
    /// of dictionary entries.
    Array(DbusType, Vec<WireArgument>),
    Struct(Vec<WireArgument>),
    /// A key with its value; it has its place in an array only.
    DictEntry(Box<WireArgument>, Box<WireArgument>),
    /// What the transport could not make out.
    Invalid,
}

impl Clone for WireArgument {
    fn clone(&self) -> (copy: Self)
        ensures
            copy@ == self@,
        decreases self,
    {
        match self {
            WireArgument::Byte(v) => WireArgument::Byte(*v),
            WireArgument::Boolean(v) => WireArgument::Boolean(*v),
            WireArgument::Int16(v) => WireArgument::Int16(*v),
            WireArgument::UInt16(v) => WireArgument::UInt16(*v),
            WireArgument::Int32(v) => WireArgument::Int32(*v),
            WireArgument::UInt32(v) => WireArgument::UInt32(*v),
            WireArgument::Int64(v) => WireArgument::Int64(*v),
            WireArgument::UInt64(v) => WireArgument::UInt64(*v),
            WireArgument::Double(bits) => WireArgument::Double(*bits),
            WireArgument::DoubleText(s) => WireArgument::DoubleText(s.clone()),
            WireArgument::String(s) => WireArgument::String(s.clone()),
            WireArgument::ObjectPath(s) => WireArgument::ObjectPath(s.clone()),
            WireArgument::Signature(s) => WireArgument::Signature(s.clone()),
            WireArgument::Variant(inner) => WireArgument::Variant(Box::new((&**inner).clone())),
            WireArgument::Array(element_type, items) => {
                let mut copies: Vec<WireArgument> = Vec::new();
                let mut i: usize = 0;
                while i < items.len()
                    invariant
                        i <= items.len(),
                        copies.len() == i,
                        *self == WireArgument::Array(*element_type, *items),
                        forall|j: int| 0 <= j < i ==> (#[trigger] copies[j])@ == items[j]@,
                    decreases items.len() - i,
                {
                    proof {
                        assert(decreases_to!(*self => self->Array_1[i as int]));
                    }
                    copies.push(items[i].clone());
                    i += 1;
                }
                let element_type = element_type.clone();
                proof {
                    lemma_view_array(element_type, copies);
                    lemma_view_array(self->Array_0, *items);
                    assert(wire_models(copies@) =~= wire_models(items@));
                }
                WireArgument::Array(element_type, copies)
            },
            WireArgument::Struct(items) => {
                let mut copies: Vec<WireArgument> = Vec::new();
                let mut i: usize = 0;
                while i < items.len()
                    invariant
                        i <= items.len(),
                        copies.len() == i,
                        *self == WireArgument::Struct(*items),
                        forall|j: int| 0 <= j < i ==> (#[trigger] copies[j])@ == items[j]@,
                    decreases items.len() - i,
                {
                    proof {
                        assert(decreases_to!(*self => self->Struct_0[i as int]));
                    }
                    copies.push(items[i].clone());
                    i += 1;
                }
                proof {
                    lemma_view_struct_items(copies);
                    lemma_view_struct_items(*items);
                    assert(wire_models(copies@) =~= wire_models(items@));
                }
                WireArgument::Struct(copies)
            },
            WireArgument::DictEntry(key, val) => WireArgument::DictEntry(
                Box::new((&**key).clone()),
                Box::new((&**val).clone()),
            ),
            WireArgument::Invalid => WireArgument::Invalid,
        }
    }
}

impl View for WireArgument {
    type V = WireModel;

    open spec fn view(&self) -> WireModel {
        wire_model(*self)
    }
}

/// The mathematical value of a wire argument.
pub open spec fn wire_model(arg: WireArgument) -> WireModel
    decreases arg,
{
    match arg {
        WireArgument::Byte(v) => WireModel::Byte(v),
        WireArgument::Boolean(v) => WireModel::Boolean(v),
        WireArgument::Int16(v) => WireModel::Int16(v),
        WireArgument::UInt16(v) => WireModel::UInt16(v),
        WireArgument::Int32(v) => WireModel::Int32(v),
        WireArgument::UInt32(v) => WireModel::UInt32(v),
        WireArgument::Int64(v) => WireModel::Int64(v),
        WireArgument::UInt64(v) => WireModel::UInt64(v),
        WireArgument::Double(bits) => WireModel::Double(bits),
        WireArgument::DoubleText(s) => WireModel::DoubleText(s@),
        WireArgument::String(s) => WireModel::String(s@),
        WireArgument::ObjectPath(s) => WireModel::ObjectPath(s@),
        WireArgument::Signature(s) => WireModel::Signature(s@),
        WireArgument::Variant(inner) => WireModel::Variant(Box::new(wire_model(*inner))),
        WireArgument::Array(element_type, items) => WireModel::Array(
            element_type@,
            Seq::new(
                items.len() as nat,
                |i: int|
                    if 0 <= i < items.len() {
                        wire_model(items[i])
                    } else {
                        WireModel::Invalid
                    },
            ),
        ),
        WireArgument::Struct(items) => WireModel::Struct(
            Seq::new(
                items.len() as nat,
                |i: int|
                    if 0 <= i < items.len() {
                        wire_model(items[i])
                    } else {
                        WireModel::Invalid
                    },
            ),
        ),
        WireArgument::DictEntry(key, val) => WireModel::DictEntry(
            Box::new(wire_model(*key)),
            Box::new(wire_model(*val)),
        ),
        WireArgument::Invalid => WireModel::Invalid,
    }
}

/// The values of a sequence of wire arguments, in order.
pub open spec fn wire_models(args: Seq<WireArgument>) -> Seq<WireModel> {
    Seq::new(args.len(), |i: int| wire_model(args[i]))
}

/// The value of an array holds the values of its elements.
pub proof fn lemma_view_array(element_type: DbusType, items: Vec<WireArgument>)
    ensures
        WireArgument::Array(element_type, items)@ == WireModel::Array(
            element_type@,
            wire_models(items@),
        ),
{
    assert(WireArgument::Array(element_type, items)@->Array_1 =~= wire_models(items@));
}

/// The value of a struct holds the values of its elements.
pub proof fn lemma_view_struct_items(items: Vec<WireArgument>)
    ensures
        WireArgument::Struct(items)@ == WireModel::Struct(wire_models(items@)),
{
    assert(WireArgument::Struct(items)@->Struct_0 =~= wire_models(items@));
}

/// The type that a wire argument shows itself to have. What the transport
/// could not make out has none, and neither has what holds such a thing
/// where its own type depends on it.
pub open spec fn type_of(arg: WireModel) -> Option<WireType>
    decreases arg,
{
    match arg {
        WireModel::Byte(_) => Some(WireType::Byte),
        WireModel::Boolean(_) => Some(WireType::Boolean),
        WireModel::Int16(_) => Some(WireType::Int16),
        WireModel::UInt16(_) => Some(WireType::UInt16),
        WireModel::Int32(_) => Some(WireType::Int32),
        WireModel::UInt32(_) => Some(WireType::UInt32),
        WireModel::Int64(_) => Some(WireType::Int64),
        WireModel::UInt64(_) => Some(WireType::UInt64),
        WireModel::Double(_) => Some(WireType::Double),
        WireModel::DoubleText(_) => Some(WireType::Double),
        WireModel::String(_) => Some(WireType::String),
        WireModel::ObjectPath(_) => Some(WireType::ObjectPath),
        WireModel::Signature(_) => Some(WireType::Signature),
        WireModel::Variant(_) => Some(WireType::Variant),
        WireModel::Array(element_type, _) => Some(WireType::Array(Box::new(element_type))),
        WireModel::Struct(items) => match types_of(items) {
            Some(types) => Some(WireType::Struct(types)),
            None => None,
        },
        WireModel::DictEntry(key, val) => match (type_of(*key), type_of(*val)) {
            (Some(k), Some(v)) => Some(WireType::DictEntry(Box::new(k), Box::new(v))),
            _ => None,
        },
        WireModel::Invalid => None,
    }
}

/// The types of a sequence of wire arguments, where each has one.
pub open spec fn types_of(args: Seq<WireModel>) -> Option<Seq<WireType>>
    decreases args,
{
    if args.len() == 0 {
        Some(Seq::empty())
    } else {
        match (types_of(args.drop_last()), type_of(args.last())) {
            (Some(types), Some(t)) => Some(types.push(t)),
            _ => None,
        }
    }
}

/// Whether a wire argument is what the wire can carry: every element of an
/// array has the array's element type, the D-Bus library accepts every object
/// path as one and every signature as that of one complete type, and nothing
/// in it is invalid. A double that is given as text counts as one whatever
/// the text is: whether it writes a number is found where it is read.
pub open spec fn well_typed(arg: WireModel) -> bool
    decreases arg,
{
    match arg {
        WireModel::Variant(inner) => well_typed(*inner),
        WireModel::Array(element_type, items) => forall|i: int|
            0 <= i < items.len() ==> well_typed(#[trigger] items[i]) && type_of(items[i]) == Some(
                element_type,
            ),
        WireModel::Struct(items) => forall|i: int|
            0 <= i < items.len() ==> well_typed(#[trigger] items[i]),
        WireModel::DictEntry(key, val) => well_typed(*key) && well_typed(*val),
        WireModel::ObjectPath(text) => object_path_fault(text) is None,
        WireModel::Signature(text) => signature_fault(text) is None,
        WireModel::Invalid => false,
        _ => true,
    }
}

} // verus!
