//! Which texts can address an object on the bus.
use vstd::prelude::*;
use vstd::string::*;

use crate::a11y::error::{Error, ErrorView};
use crate::a11y::target::Object;

verus! {

/// An ASCII letter or digit, or an underscore.
pub open spec fn name_char(c: char) -> bool {
    'a' <= c <= 'z' || 'A' <= c <= 'Z' || '0' <= c <= '9' || c == '_'
}

/// The character never follows itself.
pub open spec fn single(s: Seq<char>, c: char) -> bool {
    forall|i: int, j: int|
        0 <= i && j == i + 1 && j < s.len() ==> !(#[trigger] s[i] == c && #[trigger] s[j] == c)
}

/// A path to an object: a slash, then names with single slashes in between.
pub open spec fn is_object_path(s: Seq<char>) -> bool {
    &&& s.len() > 0
    &&& s[0] == '/'
    &&& forall|i: int| 0 <= i < s.len() ==> name_char(#[trigger] s[i]) || s[i] == '/'
    &&& s.len() > 1 ==> s.last() != '/'
    &&& single(s, '/')
}

/// The unique name of a connection: that of the bus itself, or a colon and at
/// least two elements with single dots in between, 255 characters at most.
pub open spec fn is_unique_name(s: Seq<char>) -> bool {
    s == "org.freedesktop.DBus"@ || {
        &&& 4 <= s.len() <= 255
        &&& s[0] == ':'
        &&& forall|i: int|
            1 <= i < s.len() ==> name_char(#[trigger] s[i]) || s[i] == '-' || s[i] == '.'
        &&& s[1] != '.' && s.last() != '.'
        &&& exists|i: int| 0 < i < s.len() && #[trigger] s[i] == '.'
        &&& single(s, '.')
    }
}

/// What is said of a name that is none.
pub const NAME_FAULT: &'static str = "Invalid unique name. See https://dbus.freedesktop.org/doc/dbus-specification.html#message-protocol-names-bus";

/// What is said of a path that is none.
pub const PATH_FAULT: &'static str = "Invalid object path";

/// `UniqueName::try_from` of the bus library — succeeds exactly on a unique
/// name, and has one thing to say of any other text.
#[verifier::external_body]
fn parse_unique_name(name: &str) -> (fault: Option<String>)
    ensures
        fault is None <==> is_unique_name(name@),
        fault is Some ==> fault->0@ == NAME_FAULT@,
{
    match atspi::zbus::names::UniqueName::try_from(name) {
        Ok(_) => None,
        Err(e) => Some(e.to_string()),
    }
}

/// `ObjectPath::try_from` of the bus library — succeeds exactly on an object
/// path, and has one thing to say of any other text.
#[verifier::external_body]
fn parse_object_path(path: &str) -> (fault: Option<String>)
    ensures
        fault is None <==> is_object_path(path@),
        fault is Some ==> fault->0@ == PATH_FAULT@,
{
    match atspi::zbus::zvariant::ObjectPath::try_from(path) {
        Ok(_) => None,
        Err(e) => Some(e.to_string()),
    }
}

/// The object under a path of a connection, if there can be one.
pub open spec fn addressable(bus_name: Seq<char>, path: Seq<char>) -> bool {
    is_unique_name(bus_name) && is_object_path(path)
}

/// What is said of an object there cannot be.
pub open spec fn address_fault(bus_name: Seq<char>, path: Seq<char>) -> ErrorView {
    if !is_unique_name(bus_name) {
        ErrorView::Bus("bus name '"@ + bus_name + "': "@ + NAME_FAULT@)
    } else {
        ErrorView::Bus("object path: "@ + PATH_FAULT@)
    }
}

/// What is said of a window whose path is none.
pub open spec fn frame_fault() -> ErrorView {
    ErrorView::Bus("frame path: "@ + PATH_FAULT@)
}

/// The object under a path of a connection.
pub fn object_ref(bus_name: &str, path: &str) -> (r: Result<Object, Error>)
    ensures
        match r {
            Ok(o) => addressable(bus_name@, path@) && o@.name == Some(bus_name@) && o@.path
                == path@,
            Err(e) => !addressable(bus_name@, path@) && e@ == address_fault(bus_name@, path@),
        },
{
    match parse_unique_name(bus_name) {
        Some(fault) => {
            let mut s: String = "bus name '".to_owned();
            s.append(bus_name);
            s.append("': ");
            s.append(fault.as_str());
            return Err(Error::Bus(s));
        },
        None => {},
    }
    match parse_object_path(path) {
        Some(fault) => {
            let mut s: String = "object path: ".to_owned();
            s.append(fault.as_str());
            return Err(Error::Bus(s));
        },
        None => {},
    }
    Ok(Object { name: Some(bus_name.to_owned()), path: path.to_owned() })
}

/// Whether a window's path can be asked about.
pub fn frame_path(path: &str) -> (r: Result<(), Error>)
    ensures
        r is Ok <==> is_object_path(path@),
        r is Err ==> r->Err_0@ == frame_fault(),
{
    match parse_object_path(path) {
        Some(fault) => {
            let mut s: String = "frame path: ".to_owned();
            s.append(fault.as_str());
            Err(Error::Bus(s))
        },
        None => Ok(()),
    }
}

} // verus!
