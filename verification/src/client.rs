//! What a client decides before it sends a call: which signature governs the
//! arguments, how they are encoded, and which names of a list it keeps.

use crate::convert::encode::{
    encode_spec, expected_model, fault_model, to_message_item, EncodeError, EncodeErrorModel,
};
use crate::dbus_type::{parse_all_spec, wire_types, DbusType, WireType, MAX_NESTING_DEPTH};
use crate::host_value::{host_models, HostModel, HostValue};
use crate::introspection::Node;
use crate::pattern::Pattern;
use crate::strings::{
    bus_name_fault, check_bus_name, check_interface, check_member, check_object_path,
    interface_fault, member_fault, object_path_fault,
};
use crate::text::{debug_str, debug_text_of_str};
use crate::wire::{wire_models, WireArgument, WireModel};
use vstd::prelude::*;

verus! {

/// What looking up the signature of a member by introspection gave.
#[derive(Debug, Clone, PartialEq, Eq)]
pub enum Lookup {
    /// Nobody looked.
    NotAsked,
    /// The signature text of the member.
    Found(String),
    /// The object could not be introspected, or has no such member; the
    /// text says why.
    Failed(String),
}

/// Something that went wrong and does not stop the call.
#[derive(Debug, Clone, PartialEq, Eq)]
pub enum Warning {
    /// Introspection gave no signature: the types of the arguments are
    /// assumed. The text says why.
    IntrospectionFailed(String),
    /// The signature lists another number of types than there are
    /// arguments.
    ArityMismatch { expected: usize, actual: usize },
}

/// What stops a call before it is sent.
#[derive(Debug, Clone, PartialEq, Eq)]
pub enum CallError {
    /// The signature that the caller gave is no signature; the text says why.
    Signature(String),
    /// The signature that introspection gave is no signature; the text says
    /// why.
    IntrospectedSignature(String),
    /// The argument at this position cannot be sent.
    Argument { position: usize, error: EncodeError },
}

/// The arguments of a call, ready to be sent, and what there is to warn of.
#[derive(Debug, Clone, PartialEq, Eq)]
pub struct Prepared {
    pub arguments: Vec<WireArgument>,
    pub warnings: Vec<Warning>,
}

/// A lookup as a mathematical value.
pub ghost enum LookupModel {
    NotAsked,
    Found(Seq<char>),
    Failed(Seq<char>),
}

/// A warning as a mathematical value.
pub ghost enum WarningModel {
    IntrospectionFailed(Seq<char>),
    ArityMismatch { expected: nat, actual: nat },
}

/// A call error as a mathematical value.
pub ghost enum CallErrorModel {
    Signature(Seq<char>),
    IntrospectedSignature(Seq<char>),
    Argument { position: nat, error: EncodeErrorModel },
}

/// Prepared arguments as a mathematical value.
pub ghost struct PreparedModel {
    pub arguments: Seq<WireModel>,
    pub warnings: Seq<WarningModel>,
}

impl View for Lookup {
    type V = LookupModel;

    open spec fn view(&self) -> LookupModel {
        match self {
            Lookup::NotAsked => LookupModel::NotAsked,
            Lookup::Found(s) => LookupModel::Found(s@),
            Lookup::Failed(s) => LookupModel::Failed(s@),
        }
    }
}

impl View for Warning {
    type V = WarningModel;

    open spec fn view(&self) -> WarningModel {
        match self {
            Warning::IntrospectionFailed(s) => WarningModel::IntrospectionFailed(s@),
            Warning::ArityMismatch { expected, actual } => WarningModel::ArityMismatch {
                expected: *expected as nat,
                actual: *actual as nat,
            },
        }
    }
}

impl View for CallError {
    type V = CallErrorModel;

    open spec fn view(&self) -> CallErrorModel {
        match self {
            CallError::Signature(s) => CallErrorModel::Signature(s@),
            CallError::IntrospectedSignature(s) => CallErrorModel::IntrospectedSignature(s@),
            CallError::Argument { position, error } => CallErrorModel::Argument {
                position: *position as nat,
                error: error@,
            },
        }
    }
}

/// The values of a sequence of warnings, in order.
pub open spec fn warning_models(warnings: Seq<Warning>) -> Seq<WarningModel> {
    Seq::new(warnings.len(), |i: int| warnings[i]@)
}

impl View for Prepared {
    type V = PreparedModel;

    open spec fn view(&self) -> PreparedModel {
        PreparedModel {
            arguments: wire_models(self.arguments@),
            warnings: warning_models(self.warnings@),
        }
    }
}

/// The signature that governs a call, if one does, and the reason why
/// introspection gave none, if it was asked and gave none.
#[derive(Debug, Clone, PartialEq, Eq)]
pub struct Resolution {
    pub types: Option<Vec<DbusType>>,
    pub failure: Option<String>,
}

impl View for Resolution {
    type V = ResolutionModel;

    open spec fn view(&self) -> ResolutionModel {
        ResolutionModel {
            types: match self.types {
                Some(types) => Some(wire_types(types@)),
                None => None,
            },
            failure: match self.failure {
                Some(cause) => Some(cause@),
                None => None,
            },
        }
    }
}

/// A resolution as a mathematical value.
pub ghost struct ResolutionModel {
    pub types: Option<Seq<WireType>>,
    pub failure: Option<Seq<char>>,
}

/// Whether the signature has to be looked up by introspection: where the
/// caller gave none and introspection is enabled.
pub open spec fn lookup_needed_spec(signature: Option<Seq<char>>, introspect: bool) -> bool {
    signature is None && introspect
}

/// Which signature governs a call.
///
/// A signature that the caller gave governs, and a text that is no signature
/// stops the call. Otherwise, where introspection is enabled, what it found
/// governs, and again a text that is no signature stops the call; where it
/// failed, no signature governs, and there is its failure to warn of.
/// Otherwise no signature governs.
pub open spec fn resolve_spec(
    signature: Option<Seq<char>>,
    introspect: bool,
    lookup: LookupModel,
) -> Result<ResolutionModel, CallErrorModel> {
    match signature {
        Some(text) => match parse_all_spec(text, MAX_NESTING_DEPTH as nat) {
            Ok(types) => Ok(ResolutionModel { types: Some(types), failure: None }),
            Err(e) => Err(CallErrorModel::Signature(e.message())),
        },
        None => if !introspect {
            Ok(ResolutionModel { types: None, failure: None })
        } else {
            match lookup {
                LookupModel::NotAsked => Ok(ResolutionModel { types: None, failure: None }),
                LookupModel::Found(text) => match parse_all_spec(text, MAX_NESTING_DEPTH as nat) {
                    Ok(types) => Ok(ResolutionModel { types: Some(types), failure: None }),
                    Err(e) => Err(CallErrorModel::IntrospectedSignature(e.message())),
                },
                LookupModel::Failed(cause) => Ok(
                    ResolutionModel { types: None, failure: Some(cause) },
                ),
            }
        },
    }
}

/// The type that is expected of the argument at position `i`: the type at
/// that position of the signature that governs, and none where no signature
/// governs or the signature has no such position.
pub open spec fn expected_at(signature: Option<Seq<WireType>>, i: int) -> Option<WireType> {
    match signature {
        Some(types) => if 0 <= i < types.len() {
            Some(types[i])
        } else {
            None
        },
        None => None,
    }
}

/// The wire arguments of the values of a call, in order, each sent as the
/// type that is expected at its position. The first value that cannot be
/// sent stops the call; the error names its position.
pub open spec fn encode_arguments_spec(
    values: Seq<HostModel>,
    signature: Option<Seq<WireType>>,
    depth: nat,
) -> Result<Seq<WireModel>, CallErrorModel>
    decreases values.len(),
{
    if values.len() == 0 {
        Ok(Seq::empty())
    } else {
        match encode_arguments_spec(values.drop_last(), signature, depth) {
            Err(e) => Err(e),
            Ok(args) => match encode_spec(
                values.last(),
                expected_at(signature, values.len() - 1),
                depth,
            ) {
                Ok(arg) => Ok(args.push(arg)),
                Err(e) => Err(
                    CallErrorModel::Argument { position: (values.len() - 1) as nat, error: e },
                ),
            },
        }
    }
}

/// What there is to warn of: that introspection failed, and that the
/// signature lists another number of types than there are arguments.
pub open spec fn warnings_spec(resolution: ResolutionModel, count: nat) -> Seq<WarningModel> {
    let failed: Seq<WarningModel> = match resolution.failure {
        Some(cause) => seq![WarningModel::IntrospectionFailed(cause)],
        None => Seq::empty(),
    };
    let arity: Seq<WarningModel> = match resolution.types {
        Some(types) => if types.len() != count {
            seq![WarningModel::ArityMismatch { expected: types.len(), actual: count }]
        } else {
            Seq::empty()
        },
        None => Seq::empty(),
    };
    failed + arity
}

/// What preparing a call gives: the signature is resolved, and the values
/// are sent as it says. A signature of another length than the number of
/// values does not stop the call.
pub open spec fn resolve_and_encode_spec(
    values: Seq<HostModel>,
    signature: Option<Seq<char>>,
    introspect: bool,
    lookup: LookupModel,
) -> Result<PreparedModel, CallErrorModel> {
    match resolve_spec(signature, introspect, lookup) {
        Err(e) => Err(e),
        Ok(resolution) => match encode_arguments_spec(
            values,
            resolution.types,
            MAX_NESTING_DEPTH as nat,
        ) {
            Err(e) => Err(e),
            Ok(arguments) => Ok(
                PreparedModel { arguments, warnings: warnings_spec(resolution, values.len()) },
            ),
        },
    }
}

/// The characters of a text that may be absent.
pub open spec fn text_model(text: Option<&str>) -> Option<Seq<char>> {
    match text {
        Some(t) => Some(t@),
        None => None,
    }
}

/// The texts of a sequence of names, in order.
pub open spec fn name_texts(names: Seq<String>) -> Seq<Seq<char>> {
    Seq::new(names.len(), |i: int| names[i]@)
}

/// Where the values up to some place cannot be sent, the values of the
/// whole call cannot, for the same reason.
pub proof fn lemma_encode_arguments_fails(
    values: Seq<HostModel>,
    n: int,
    signature: Option<Seq<WireType>>,
    depth: nat,
)
    requires
        0 <= n <= values.len(),
        encode_arguments_spec(values.take(n), signature, depth) is Err,
    ensures
        encode_arguments_spec(values, signature, depth) == encode_arguments_spec(
            values.take(n),
            signature,
            depth,
        ),
    decreases values.len() - n,
{
    if n < values.len() {
        assert(values.take(n + 1).drop_last() =~= values.take(n));
        lemma_encode_arguments_fails(values, n + 1, signature, depth);
    } else {
        assert(values.take(n) =~= values);
    }
}

/// Whether the signature has to be looked up by introspection before the
/// call can be prepared.
pub fn lookup_needed(signature: Option<&str>, introspect: bool) -> (needed: bool)
    ensures
        needed == lookup_needed_spec(text_model(signature), introspect),
{
    signature.is_none() && introspect
}

/// Decides which signature governs a call.
pub fn resolve_signature(signature: Option<&str>, introspect: bool, lookup: &Lookup) -> (r: Result<
    Resolution,
    CallError,
>)
    ensures
        match resolve_spec(text_model(signature), introspect, lookup@) {
            Ok(resolution) => r matches Ok(resolved) && resolved@ == resolution,
            Err(e) => r matches Err(f) && f@ == e,
        },
{
    match signature {
        Some(text) => match DbusType::parse_all(text) {
            Ok(types) => Ok(Resolution { types: Some(types), failure: None }),
            Err(message) => Err(CallError::Signature(message)),
        },
        None => {
            if !introspect {
                return Ok(Resolution { types: None, failure: None });
            }
            match lookup {
                Lookup::NotAsked => Ok(Resolution { types: None, failure: None }),
                Lookup::Found(text) => match DbusType::parse_all(text.as_str()) {
                    Ok(types) => Ok(Resolution { types: Some(types), failure: None }),
                    Err(message) => Err(CallError::IntrospectedSignature(message)),
                },
                Lookup::Failed(cause) => Ok(
                    Resolution { types: None, failure: Some(cause.clone()) },
                ),
            }
        },
    }
}

/// The types of a signature that may be absent.
pub open spec fn signature_model(signature: Option<&Vec<DbusType>>) -> Option<Seq<WireType>> {
    match signature {
        Some(types) => Some(wire_types(types@)),
        None => None,
    }
}

/// Encodes the values of a call, each as the type that the signature has at
/// its position, or as the type that is assumed for it where the signature
/// has none there.
pub fn encode_arguments(values: &Vec<HostValue>, signature: Option<&Vec<DbusType>>) -> (r: Result<
    Vec<WireArgument>,
    CallError,
>)
    ensures
        match encode_arguments_spec(
            host_models(values@),
            signature_model(signature),
            MAX_NESTING_DEPTH as nat,
        ) {
            Ok(arguments) => r matches Ok(sent) && wire_models(sent@) == arguments,
            Err(e) => r matches Err(f) && f@ == e,
        },
{
    let ghost models = host_models(values@);
    let ghost types = signature_model(signature);
    let mut arguments: Vec<WireArgument> = Vec::new();
    let mut i: usize = 0;
    assert(models.take(0) =~= Seq::<HostModel>::empty());
    assert(wire_models(arguments@) =~= Seq::<WireModel>::empty());
    while i < values.len()
        invariant
            i <= values.len(),
            models == host_models(values@),
            types == signature_model(signature),
            encode_arguments_spec(models.take(i as int), types, MAX_NESTING_DEPTH as nat) == Ok::<
                _,
                CallErrorModel,
            >(wire_models(arguments@)),
        decreases values.len() - i,
    {
        proof {
            assert(models.take(i + 1).drop_last() =~= models.take(i as int));
            assert(models.take(i + 1).last() == values[i as int]@);
        }
        let expected: Option<&DbusType> = match signature {
            Some(types) => if i < types.len() {
                Some(&types[i])
            } else {
                None
            },
            None => None,
        };
        assert(expected_model(expected) == expected_at(types, i as int));
        let ghost before = wire_models(arguments@);
        match to_message_item(&values[i], expected) {
            Ok(argument) => {
                arguments.push(argument);
                assert(wire_models(arguments@) =~= before.push(argument@));
            },
            Err(error) => {
                proof {
                    lemma_encode_arguments_fails(models, i + 1, types, MAX_NESTING_DEPTH as nat);
                }
                return Err(CallError::Argument { position: i, error });
            },
        }
        i += 1;
    }
    assert(models.take(i as int) =~= models);
    Ok(arguments)
}

/// What there is to warn of when a call is prepared.
pub fn warnings_of(resolution: &Resolution, count: usize) -> (warnings: Vec<Warning>)
    ensures
        warning_models(warnings@) == warnings_spec(resolution@, count as nat),
{
    let mut warnings: Vec<Warning> = Vec::new();
    assert(warning_models(warnings@) =~= Seq::<WarningModel>::empty());
    match &resolution.failure {
        Some(cause) => {
            warnings.push(Warning::IntrospectionFailed(cause.clone()));
        },
        None => {},
    }
    let ghost failed = warning_models(warnings@);
    assert(failed =~= match resolution@.failure {
        Some(cause) => seq![WarningModel::IntrospectionFailed(cause)],
        None => Seq::<WarningModel>::empty(),
    });
    match &resolution.types {
        Some(types) => {
            if types.len() != count {
                let warning = Warning::ArityMismatch { expected: types.len(), actual: count };
                warnings.push(warning);
                assert(warning_models(warnings@) =~= failed + seq![warning@]);
            } else {
                assert(failed + Seq::<WarningModel>::empty() =~= failed);
            }
        },
        None => {
            assert(failed + Seq::<WarningModel>::empty() =~= failed);
        },
    }
    warnings
}

/// Prepares a call: decides which signature governs it, and encodes its
/// values as that signature says.
///
/// `lookup` is what introspection gave for the member that is called; it is
/// read only where `lookup_needed` holds of `signature` and `introspect`.
pub fn resolve_and_encode(
    values: &Vec<HostValue>,
    signature: Option<&str>,
    introspect: bool,
    lookup: &Lookup,
) -> (r: Result<Prepared, CallError>)
    ensures
        match resolve_and_encode_spec(
            host_models(values@),
            text_model(signature),
            introspect,
            lookup@,
        ) {
            Ok(prepared) => r matches Ok(p) && p@ == prepared,
            Err(e) => r matches Err(f) && f@ == e,
        },
{
    let resolution = match resolve_signature(signature, introspect, lookup) {
        Ok(resolution) => resolution,
        Err(e) => {
            return Err(e);
        },
    };
    let arguments = match encode_arguments(values, resolution.types.as_ref()) {
        Ok(arguments) => arguments,
        Err(e) => {
            return Err(e);
        },
    };
    let warnings = warnings_of(&resolution, values.len());
    Ok(Prepared { arguments, warnings })
}

/// The names that match the pattern, in order; all of them where there is no
/// pattern.
pub open spec fn matching_names_spec(names: Seq<Seq<char>>, pattern: Option<&Pattern>) -> Seq<
    Seq<char>,
> {
    match pattern {
        Some(p) => names.filter(|name: Seq<char>| p@.matches(name)),
        None => names,
    }
}

/// Keeps the names that match the pattern, in order; all of them where there
/// is no pattern.
pub fn matching_names(names: Vec<String>, pattern: Option<&Pattern>) -> (kept: Vec<String>)
    ensures
        name_texts(kept@) == matching_names_spec(name_texts(names@), pattern),
{
    let pattern = match pattern {
        Some(pattern) => pattern,
        None => {
            return names;
        },
    };
    let ghost texts = name_texts(names@);
    let ghost keep = |name: Seq<char>| pattern@.matches(name);
    let mut kept: Vec<String> = Vec::new();
    let mut i: usize = 0;
    proof {
        reveal(Seq::filter);
        assert(texts.take(0) =~= Seq::<Seq<char>>::empty());
        assert(name_texts(kept@) =~= Seq::<Seq<char>>::empty());
    }
    while i < names.len()
        invariant
            i <= names.len(),
            texts == name_texts(names@),
            keep == |name: Seq<char>| pattern@.matches(name),
            name_texts(kept@) == texts.take(i as int).filter(keep),
        decreases names.len() - i,
    {
        proof {
            reveal(Seq::filter);
            assert(texts.take(i + 1).drop_last() =~= texts.take(i as int));
            assert(texts.take(i + 1).last() == names[i as int]@);
        }
        let ghost before = name_texts(kept@);
        if pattern.is_match(names[i].as_str()) {
            kept.push(names[i].clone());
            assert(name_texts(kept@) =~= before.push(names[i as int]@));
        }
        i += 1;
    }
    assert(texts.take(i as int) =~= texts);
    kept
}

/// A part of what a call is sent to.
#[derive(Debug, Clone, Copy, PartialEq, Eq, Structural)]
pub enum TargetPart {
    /// The name of the connection.
    Destination,
    /// The path of the object.
    Object,
    /// The name of the interface.
    Interface,
    /// The name of the method.
    Member,
}

/// A part of what a call is sent to does not have the form that D-Bus asks
/// of it; the reason is the one that the D-Bus library gives.
#[derive(Debug, Clone, PartialEq, Eq)]
pub struct TargetError {
    pub part: TargetPart,
    pub reason: String,
}

/// A target error as a mathematical value.
pub ghost struct TargetErrorModel {
    pub part: TargetPart,
    pub reason: Seq<char>,
}

impl View for TargetError {
    type V = TargetErrorModel;

    open spec fn view(&self) -> TargetErrorModel {
        TargetErrorModel { part: self.part, reason: self.reason@ }
    }
}

/// Whether a part is in order, where `fault` is what the D-Bus library finds
/// wrong with it.
pub open spec fn part_spec(part: TargetPart, fault: Option<Seq<char>>) -> Result<
    (),
    TargetErrorModel,
> {
    match fault {
        None => Ok(()),
        Some(reason) => Err(TargetErrorModel { part, reason }),
    }
}

/// Whether the connection and the object that a call is sent to are in
/// order: the first of them that is not is reported.
pub open spec fn object_target_spec(dest: Seq<char>, object: Seq<char>) -> Result<
    (),
    TargetErrorModel,
> {
    match part_spec(TargetPart::Destination, bus_name_fault(dest)) {
        Err(e) => Err(e),
        Ok(_) => part_spec(TargetPart::Object, object_path_fault(object)),
    }
}

/// Whether all of what a call is sent to is in order: the first part that is
/// not, of the connection, the object, the interface and the method, is
/// reported.
pub open spec fn call_target_spec(
    dest: Seq<char>,
    object: Seq<char>,
    interface: Seq<char>,
    method: Seq<char>,
) -> Result<(), TargetErrorModel> {
    match object_target_spec(dest, object) {
        Err(e) => Err(e),
        Ok(_) => match part_spec(TargetPart::Interface, interface_fault(interface)) {
            Err(e) => Err(e),
            Ok(_) => part_spec(TargetPart::Member, member_fault(method)),
        },
    }
}

/// Whether a result holds the error whose value is given, or none where none
/// is given.
pub open spec fn checked_as(
    r: Result<(), TargetError>,
    model: Result<(), TargetErrorModel>,
) -> bool {
    match model {
        Ok(_) => r is Ok,
        Err(e) => r matches Err(f) && f@ == e,
    }
}

/// Decides whether a part is in order, given what the D-Bus library finds
/// wrong with it.
pub fn check_part(part: TargetPart, fault: Option<String>) -> (r: Result<(), TargetError>)
    ensures
        checked_as(r, part_spec(part, fault_model(fault))),
{
    match fault {
        None => Ok(()),
        Some(reason) => Err(TargetError { part, reason }),
    }
}

/// Checks the connection and the object that a call is sent to, before
/// anything is sent.
pub fn check_object_target(dest: &str, object: &str) -> (r: Result<(), TargetError>)
    ensures
        checked_as(r, object_target_spec(dest@, object@)),
{
    match check_part(TargetPart::Destination, check_bus_name(dest)) {
        Err(e) => Err(e),
        Ok(_) => check_part(TargetPart::Object, check_object_path(object)),
    }
}

/// Checks all of what a call is sent to, before anything is sent.
pub fn check_call_target(dest: &str, object: &str, interface: &str, method: &str) -> (r: Result<
    (),
    TargetError,
>)
    ensures
        checked_as(r, call_target_spec(dest@, object@, interface@, method@)),
{
    match check_object_target(dest, object) {
        Err(e) => Err(e),
        Ok(_) => match check_part(TargetPart::Interface, check_interface(interface)) {
            Err(e) => Err(e),
            Ok(_) => check_part(TargetPart::Member, check_member(method)),
        },
    }
}

/// What a command hands back of the values that a call returned.
#[derive(Debug, Clone, PartialEq, Eq)]
pub enum Reply {
    /// The call returned nothing.
    Nothing,
    /// The one value that the call returned.
    Single(HostValue),
    /// All the values that the call returned.
    List(Vec<HostValue>),
}

/// A reply as a mathematical value.
pub ghost enum ReplyModel {
    Nothing,
    Single(HostModel),
    List(Seq<HostModel>),
}

impl View for Reply {
    type V = ReplyModel;

    open spec fn view(&self) -> ReplyModel {
        match self {
            Reply::Nothing => ReplyModel::Nothing,
            Reply::Single(value) => ReplyModel::Single(value@),
            Reply::List(values) => ReplyModel::List(host_models(values@)),
        }
    }
}

/// What is handed back of the values that a call returned: all of them as a
/// list, unless they are to be flattened and there is at most one; then that
/// one, or nothing.
pub open spec fn reply_spec(values: Seq<HostModel>, flatten: bool) -> ReplyModel {
    if flatten && values.len() == 0 {
        ReplyModel::Nothing
    } else if flatten && values.len() == 1 {
        ReplyModel::Single(values[0])
    } else {
        ReplyModel::List(values)
    }
}

/// Shapes what is handed back of the values that a call returned.
pub fn shape_reply(values: Vec<HostValue>, flatten: bool) -> (reply: Reply)
    ensures
        reply@ == reply_spec(host_models(values@), flatten),
{
    let mut values = values;
    if flatten && values.len() == 0 {
        Reply::Nothing
    } else if flatten && values.len() == 1 {
        let ghost before = host_models(values@);
        match values.pop() {
            Some(value) => {
                assert(value@ == before[0]);
                Reply::Single(value)
            },
            None => Reply::Nothing,
        }
    } else {
        Reply::List(values)
    }
}

/// The first of the values that a call returned, if it returned any.
pub fn first_value(values: Vec<HostValue>) -> (first: Option<HostValue>)
    ensures
        match first {
            Some(value) => values.len() > 0 && value@ == values[0]@,
            None => values.len() == 0,
        },
{
    let mut values = values;
    if values.len() == 0 {
        None
    } else {
        Some(values.swap_remove(0))
    }
}

/// The reason that is given where an interface has no method of a name, from
/// the two names as `{:?}` writes them.
pub open spec fn method_not_found_text(method: Seq<char>, interface: Seq<char>) -> Seq<char> {
    "Method "@ + method + " not found on "@ + interface
}

/// The reason that is given where an interface has no property of a name,
/// from the two names as `{:?}` writes them.
pub open spec fn property_not_found_text(property: Seq<char>, interface: Seq<char>) -> Seq<char> {
    "Property "@ + property + " not found on "@ + interface
}

/// Builds the reason that is given where an interface has no method of a
/// name, from the two names as `{:?}` writes them.
pub fn method_not_found_message(method: &str, interface: &str) -> (message: String)
    ensures
        message@ == method_not_found_text(method@, interface@),
{
    let mut message = String::from_str("Method ");
    message.append(method);
    message.append(" not found on ");
    message.append(interface);
    message
}

/// Builds the reason that is given where an interface has no property of a
/// name, from the two names as `{:?}` writes them.
pub fn property_not_found_message(property: &str, interface: &str) -> (message: String)
    ensures
        message@ == property_not_found_text(property@, interface@),
{
    let mut message = String::from_str("Property ");
    message.append(property);
    message.append(" not found on ");
    message.append(interface);
    message
}

/// What an introspected object gives for the signature of a method: the
/// signature of what the method takes, or the reason that there is no such
/// method.
pub open spec fn method_lookup_spec(
    node: &Node,
    interface: Seq<char>,
    method: Seq<char>,
) -> LookupModel {
    match node.method_args_signature(interface, method) {
        Some(signature) => LookupModel::Found(signature),
        None => LookupModel::Failed(
            method_not_found_text(debug_text_of_str(method), debug_text_of_str(interface)),
        ),
    }
}

/// What an introspected object gives for the signature of a property: the
/// signature of the property, or the reason that there is no such property.
pub open spec fn property_lookup_spec(
    node: &Node,
    interface: Seq<char>,
    property: Seq<char>,
) -> LookupModel {
    match node.property_signature(interface, property) {
        Some(signature) => LookupModel::Found(signature),
        None => LookupModel::Failed(
            property_not_found_text(debug_text_of_str(property), debug_text_of_str(interface)),
        ),
    }
}

/// Looks up the signature of a method in what an object said of itself.
pub fn method_lookup(node: &Node, interface: &str, method: &str) -> (lookup: Lookup)
    ensures
        lookup@ == method_lookup_spec(node, interface@, method@),
{
    match node.get_method_args_signature(interface, method) {
        Some(signature) => Lookup::Found(signature),
        None => Lookup::Failed(
            method_not_found_message(debug_str(method).as_str(), debug_str(interface).as_str()),
        ),
    }
}

/// Looks up the signature of a property in what an object said of itself.
pub fn property_lookup(node: &Node, interface: &str, property: &str) -> (lookup: Lookup)
    ensures
        lookup@ == property_lookup_spec(node, interface@, property@),
{
    match node.get_property_signature(interface, property) {
        Some(signature) => Lookup::Found(String::from_str(signature)),
        None => Lookup::Failed(
            property_not_found_message(
                debug_str(property).as_str(),
                debug_str(interface).as_str(),
            ),
        ),
    }
}

} // verus!
