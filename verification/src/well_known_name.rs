//! Well-known bus names, such as `org.gnome.Service-for_you`.
use vstd::prelude::*;

use vstd::string::StringSliceAdditionalSpecFns;
use vstd::utf8::encode_utf8;

use crate::chars::{ascii_alphabetic, ascii_alphanumeric};
use crate::elements::{is_element, join_with_dots, lemma_dotted_iff_elements};
use crate::error::Error;
use crate::rules::{
    is_ascii_digit, is_dotted, is_element_byte, is_well_known_name, lemma_dotted_len,
    parse_dotted, starts_element, DOT, HYPHEN, MAX_NAME_LEN, UNDERSCORE,
};

verus! {

/// The message that comes with a refused well-known name.
pub open spec fn invalid_well_known_name_message() -> Seq<char> {
    "Invalid well-known name. See https://dbus.freedesktop.org/doc/dbus-specification.html#message-protocol-names-bus"@
}

/// String that identifies a well-known bus name.
///
/// Its bytes always satisfy [`is_well_known_name`].
#[derive(Debug, Hash, PartialEq, Eq, PartialOrd, Ord)]
pub struct WellKnownName<'name> {
    name: &'name str,
}

impl<'name> View for WellKnownName<'name> {
    type V = Seq<char>;

    closed spec fn view(&self) -> Seq<char> {
        self.name@
    }
}

impl<'name> WellKnownName<'name> {
    #[verifier::type_invariant]
    closed spec fn wf(self) -> bool {
        is_well_known_name(encode_utf8(self.name@))
    }

    /// Validates `name` and wraps it.
    pub fn try_from(name: &'name str) -> (r: Result<WellKnownName<'name>, Error>)
        ensures
            r is Ok <==> is_well_known_name(name.spec_bytes()),
            r matches Ok(n) ==> n@ == name@,
            r matches Err(Error::InvalidName(m)) ==> m@ == invalid_well_known_name_message(),
    {
        match validate(name) {
            Ok(()) => Ok(WellKnownName { name }),
            Err(e) => Err(e),
        }
    }

    /// The name as a string slice.
    pub fn as_str(&self) -> (r: &'name str)
        ensures
            r@ == self@,
            is_well_known_name(r.spec_bytes()),
    {
        proof {
            use_type_invariant(self);
        }
        self.name
    }

    /// An owned copy of this name.
    pub fn to_owned(&self) -> (r: OwnedWellKnownName)
        ensures
            r@ == self@,
    {
        proof {
            use_type_invariant(self);
        }
        OwnedWellKnownName { name: self.name.to_owned() }
    }
}

impl<'name> Clone for WellKnownName<'name> {
    fn clone(&self) -> (r: WellKnownName<'name>)
        ensures
            r@ == self@,
    {
        proof {
            use_type_invariant(self);
        }
        WellKnownName { name: self.name }
    }
}

impl WellKnownName<'static> {
    /// Creates a well-known bus name from a static string; the original checks
    /// the name where it is built and refuses to go on with an invalid one, so
    /// `name` must be valid.
    pub fn from_static_str_checked(name: &'static str) -> (r: WellKnownName<'static>)
        requires
            is_well_known_name(name.spec_bytes()),
        ensures
            r@ == name@,
    {
        WellKnownName { name }
    }
}

/// Owned sibling of [`WellKnownName`].
#[derive(Debug, Hash, PartialEq, Eq, PartialOrd, Ord)]
pub struct OwnedWellKnownName {
    name: String,
}

impl View for OwnedWellKnownName {
    type V = Seq<char>;

    closed spec fn view(&self) -> Seq<char> {
        self.name@
    }
}

impl OwnedWellKnownName {
    #[verifier::type_invariant]
    closed spec fn wf(self) -> bool {
        is_well_known_name(encode_utf8(self.name@))
    }

    /// Validates `name` and takes it.
    pub fn try_from(name: String) -> (r: Result<OwnedWellKnownName, Error>)
        ensures
            r is Ok <==> is_well_known_name(encode_utf8(name@)),
            r matches Ok(n) ==> n@ == name@,
            r matches Err(Error::InvalidName(m)) ==> m@ == invalid_well_known_name_message(),
    {
        match validate(name.as_str()) {
            Ok(()) => Ok(OwnedWellKnownName { name }),
            Err(e) => Err(e),
        }
    }

    /// The name as a string slice.
    pub fn as_str(&self) -> (r: &str)
        ensures
            r@ == self@,
            is_well_known_name(r.spec_bytes()),
    {
        proof {
            use_type_invariant(self);
        }
        self.name.as_str()
    }

    /// The name, borrowed.
    pub fn inner(&self) -> (r: WellKnownName<'_>)
        ensures
            r@ == self@,
    {
        proof {
            use_type_invariant(self);
        }
        WellKnownName { name: self.name.as_str() }
    }
}

impl Clone for OwnedWellKnownName {
    fn clone(&self) -> (r: OwnedWellKnownName)
        ensures
            r@ == self@,
    {
        proof {
            use_type_invariant(self);
        }
        OwnedWellKnownName { name: self.name.clone() }
    }
}

/// A well-known name is two or more elements joined by dots, each a non-empty
/// run of ASCII alphanumerics, `_` and `-` that does not begin with a digit,
/// in at most 255 bytes.
pub proof fn well_known_name_is_elements(s: Seq<u8>)
    ensures
        is_well_known_name(s) <==> {
            &&& s.len() <= 255
            &&& exists|elems: Seq<Seq<u8>>|
                {
                    &&& elems.len() >= 2
                    &&& forall|j: int| 0 <= j < elems.len() ==> is_element(#[trigger] elems[j], false)
                    &&& #[trigger] join_with_dots(elems) == s
                }
        },
{
    lemma_dotted_iff_elements(s, false);
}

/// Every well-known name has at least 3 bytes and at most 255.
pub proof fn well_known_name_length(s: Seq<u8>)
    requires
        is_well_known_name(s),
    ensures
        3 <= s.len() <= 255,
{
    lemma_dotted_len(s, false);
}

/// Checks that `name` is a valid well-known bus name.
pub fn validate(name: &str) -> (r: Result<(), Error>)
    ensures
        r is Ok <==> is_well_known_name(name.spec_bytes()),
        r matches Err(Error::InvalidName(m)) ==> m@ == invalid_well_known_name_message(),
{
    match validate_bytes(name.as_bytes()) {
        Ok(()) => Ok(()),
        Err(()) => Err(
            Error::InvalidName(
                "Invalid well-known name. See https://dbus.freedesktop.org/doc/dbus-specification.html#message-protocol-names-bus",
            ),
        ),
    }
}

/// Parses `bytes` as two or more dot-separated elements, each an ASCII letter,
/// `_` or `-` followed by ASCII alphanumerics, `_` and `-`; then checks that it
/// has at most 255 bytes.
pub fn validate_bytes(bytes: &[u8]) -> (r: Result<(), ()>)
    ensures
        r is Ok <==> is_well_known_name(bytes@),
{
    assert(bytes@.skip(0) =~= bytes@);
    if !parse_dotted(bytes, 0, false) {
        return Err(());
    }
    // Least likely scenario so we check this last.
    if bytes.len() > MAX_NAME_LEN {
        return Err(());
    }
    Ok(())
}

/// Checks byte by byte that `bytes` is a valid well-known bus name.
pub fn validate_bytes_const(bytes: &[u8]) -> (r: bool)
    ensures
        r == is_well_known_name(bytes@),
{
    if bytes.len() > MAX_NAME_LEN || bytes.len() < 3 {
        proof {
            if bytes.len() < 3 && is_dotted(bytes@, false) {
                lemma_dotted_len(bytes@, false);
            }
        }
        return false;
    }
    let ghost s = bytes@;
    let mut idx: usize = 0;
    let mut element_len: usize = 0;
    let mut has_dot = false;
    let mut first = true;
    while idx < bytes.len()
        invariant
            idx <= bytes.len(),
            bytes.len() <= MAX_NAME_LEN,
            s == bytes@,
            element_len <= idx,
            first <==> (idx == 0 || s[idx - 1] == DOT),
            element_len > 0 <==> !first,
            forall|i: int| 0 <= i < idx ==> #[trigger] s[i] == DOT || is_element_byte(s[i]),
            forall|i: int| 0 <= i < idx && #[trigger] starts_element(s, i) ==> s[i] != DOT,
            forall|i: int| 0 <= i < idx && #[trigger] starts_element(s, i) ==> !is_ascii_digit(s[i]),
            has_dot <==> exists|i: int| 0 <= i < idx && #[trigger] s[i] == DOT,
        decreases bytes.len() - idx,
    {
        let byte = bytes[idx];
        if byte == DOT {
            if first || element_len == 0 || idx + 1 == bytes.len() {
                proof {
                    if first {
                        assert(starts_element(s, idx as int));
                    }
                }
                return false;
            }
            has_dot = true;
            element_len = 0;
            first = true;
        } else if first {
            if !ascii_alphabetic(byte) && byte != UNDERSCORE && byte != HYPHEN {
                proof {
                    assert(starts_element(s, idx as int));
                }
                return false;
            }
            element_len = 1;
            first = false;
        } else {
            if !ascii_alphanumeric(byte) && byte != UNDERSCORE && byte != HYPHEN {
                return false;
            }
            element_len = element_len + 1;
        }
        idx = idx + 1;
    }
    proof {
        if has_dot && element_len > 0 {
            let i = choose|i: int| 0 <= i < idx && #[trigger] s[i] == DOT;
            assert(s[i] == DOT);
        }
    }
    has_dot && element_len > 0
}

} // verus!
