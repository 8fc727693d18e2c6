//! Texts that D-Bus holds to a form: object paths, signatures, and the names
//! of connections, interfaces and members. What the form is, the D-Bus
//! library decides.

use vstd::prelude::*;

verus! {

/// Why the D-Bus library refuses a text as an object path; `None` where it
/// accepts the text.
pub uninterp spec fn object_path_fault(text: Seq<char>) -> Option<Seq<char>>;

/// Why the D-Bus library refuses a text as the signature of exactly one
/// complete type; `None` where it accepts the text.
pub uninterp spec fn signature_fault(text: Seq<char>) -> Option<Seq<char>>;

/// Why the D-Bus library refuses a text as the name of a connection; `None`
/// where it accepts the text.
pub uninterp spec fn bus_name_fault(text: Seq<char>) -> Option<Seq<char>>;

/// Why the D-Bus library refuses a text as the name of an interface; `None`
/// where it accepts the text.
pub uninterp spec fn interface_fault(text: Seq<char>) -> Option<Seq<char>>;

/// Why the D-Bus library refuses a text as the name of a member, which is a
/// method or a signal; `None` where it accepts the text.
pub uninterp spec fn member_fault(text: Seq<char>) -> Option<Seq<char>>;

/// Asks `dbus::strings::Path::new` whether a text is an object path, and
/// gives the message of its error where it is none. Nothing is claimed of
/// the answer but that it depends on the text alone.
#[verifier::external_body]
pub(crate) fn check_object_path(text: &str) -> (fault: Option<String>)
    ensures
        match object_path_fault(text@) {
            Some(reason) => fault matches Some(message) && message@ == reason,
            None => fault is None,
        },
{
    match dbus::strings::Path::new(text) {
        Ok(_) => None,
        Err(message) => Some(message),
    }
}

/// Asks `dbus::strings::Signature::new` whether a text is the signature of
/// exactly one complete type, and gives the message of its error where it is
/// none. Nothing is claimed of the answer but that it depends on the text
/// alone.
#[verifier::external_body]
pub(crate) fn check_signature(text: &str) -> (fault: Option<String>)
    ensures
        match signature_fault(text@) {
            Some(reason) => fault matches Some(message) && message@ == reason,
            None => fault is None,
        },
{
    match dbus::strings::Signature::new(text) {
        Ok(_) => None,
        Err(message) => Some(message),
    }
}

/// Asks `dbus::strings::BusName::new` whether a text is the name of a
/// connection, and gives the message of its error where it is none. Nothing
/// is claimed of the answer but that it depends on the text alone.
#[verifier::external_body]
pub(crate) fn check_bus_name(text: &str) -> (fault: Option<String>)
    ensures
        match bus_name_fault(text@) {
            Some(reason) => fault matches Some(message) && message@ == reason,
            None => fault is None,
        },
{
    match dbus::strings::BusName::new(text) {
        Ok(_) => None,
        Err(message) => Some(message),
    }
}

/// Asks `dbus::strings::Interface::new` whether a text is the name of an
/// interface, and gives the message of its error where it is none. Nothing
/// is claimed of the answer but that it depends on the text alone.
#[verifier::external_body]
pub(crate) fn check_interface(text: &str) -> (fault: Option<String>)
    ensures
        match interface_fault(text@) {
            Some(reason) => fault matches Some(message) && message@ == reason,
            None => fault is None,
        },
{
    match dbus::strings::Interface::new(text) {
        Ok(_) => None,
        Err(message) => Some(message),
    }
}

/// Asks `dbus::strings::Member::new` whether a text is the name of a member,
/// and gives the message of its error where it is none. Nothing is claimed
/// of the answer but that it depends on the text alone.
#[verifier::external_body]
pub(crate) fn check_member(text: &str) -> (fault: Option<String>)
    ensures
        match member_fault(text@) {
            Some(reason) => fault matches Some(message) && message@ == reason,
            None => fault is None,
        },
{
    match dbus::strings::Member::new(text) {
        Ok(_) => None,
        Err(message) => Some(message),
    }
}

} // verus!
