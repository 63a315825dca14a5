//! Unique bus names, such as `:1.42`, and the bus's own name
//! `org.freedesktop.DBus`.
use vstd::prelude::*;

use vstd::string::StringSliceAdditionalSpecFns;
use vstd::utf8::encode_utf8;

use crate::chars::ascii_alphanumeric;
use crate::elements::{is_element, join_with_dots, lemma_dotted_iff_elements};
use crate::error::Error;
use crate::rules::{
    bus_name, bus_name_bytes, is_dotted, is_element_byte, is_unique_name, lemma_dotted_len,
    parse_dotted, starts_element, COLON, DOT, HYPHEN, MAX_NAME_LEN, UNDERSCORE,
};

verus! {

/// The message that comes with a refused unique name.
pub open spec fn invalid_unique_name_message() -> Seq<char> {
    "Invalid unique name. See https://dbus.freedesktop.org/doc/dbus-specification.html#message-protocol-names-bus"@
}

/// String that identifies a unique bus name.
///
/// Its bytes always satisfy [`is_unique_name`].
#[derive(Debug, Hash, PartialEq, Eq, PartialOrd, Ord)]
pub struct UniqueName<'name> {
    name: &'name str,
}

impl<'name> View for UniqueName<'name> {
    type V = Seq<char>;

    closed spec fn view(&self) -> Seq<char> {
        self.name@
    }
}

impl<'name> UniqueName<'name> {
    #[verifier::type_invariant]
    closed spec fn wf(self) -> bool {
        is_unique_name(encode_utf8(self.name@))
    }

    /// Validates `name` and wraps it.
    pub fn try_from(name: &'name str) -> (r: Result<UniqueName<'name>, Error>)
        ensures
            r is Ok <==> is_unique_name(name.spec_bytes()),
            r matches Ok(n) ==> n@ == name@,
            r matches Err(Error::InvalidName(m)) ==> m@ == invalid_unique_name_message(),
    {
        match validate(name) {
            Ok(()) => Ok(UniqueName { name }),
            Err(e) => Err(e),
        }
    }

    /// The name as a string slice.
    pub fn as_str(&self) -> (r: &'name str)
        ensures
            r@ == self@,
            is_unique_name(r.spec_bytes()),
    {
        proof {
            use_type_invariant(self);
        }
        self.name
    }

    /// An owned copy of this name.
    pub fn to_owned(&self) -> (r: OwnedUniqueName)
        ensures
            r@ == self@,
    {
        proof {
            use_type_invariant(self);
        }
        OwnedUniqueName { name: self.name.to_owned() }
    }
}

impl<'name> Clone for UniqueName<'name> {
    fn clone(&self) -> (r: UniqueName<'name>)
        ensures
            r@ == self@,
    {
        proof {
            use_type_invariant(self);
        }
        UniqueName { name: self.name }
    }
}

impl UniqueName<'static> {
    /// Creates a unique bus name from a static string; the original checks the
    /// name where it is built and refuses to go on with an invalid one, so
    /// `name` must be valid.
    pub fn from_static_str_checked(name: &'static str) -> (r: UniqueName<'static>)
        requires
            is_unique_name(name.spec_bytes()),
        ensures
            r@ == name@,
    {
        UniqueName { name }
    }
}

/// Owned sibling of [`UniqueName`].
#[derive(Debug, Hash, PartialEq, Eq, PartialOrd, Ord)]
pub struct OwnedUniqueName {
    name: String,
}

impl View for OwnedUniqueName {
    type V = Seq<char>;

    closed spec fn view(&self) -> Seq<char> {
        self.name@
    }
}

impl OwnedUniqueName {
    #[verifier::type_invariant]
    closed spec fn wf(self) -> bool {
        is_unique_name(encode_utf8(self.name@))
    }

    /// Validates `name` and takes it.
    pub fn try_from(name: String) -> (r: Result<OwnedUniqueName, Error>)
        ensures
            r is Ok <==> is_unique_name(encode_utf8(name@)),
            r matches Ok(n) ==> n@ == name@,
            r matches Err(Error::InvalidName(m)) ==> m@ == invalid_unique_name_message(),
    {
        match validate(name.as_str()) {
            Ok(()) => Ok(OwnedUniqueName { name }),
            Err(e) => Err(e),
        }
    }

    /// The name as a string slice.
    pub fn as_str(&self) -> (r: &str)
        ensures
            r@ == self@,
            is_unique_name(r.spec_bytes()),
    {
        proof {
            use_type_invariant(self);
        }
        self.name.as_str()
    }

    /// The name, borrowed.
    pub fn inner(&self) -> (r: UniqueName<'_>)
        ensures
            r@ == self@,
    {
        proof {
            use_type_invariant(self);
        }
        UniqueName { name: self.name.as_str() }
    }
}

impl Clone for OwnedUniqueName {
    fn clone(&self) -> (r: OwnedUniqueName)
        ensures
            r@ == self@,
    {
        proof {
            use_type_invariant(self);
        }
        OwnedUniqueName { name: self.name.clone() }
    }
}

/// A unique name is either the bus's own name or `:` followed by two or more
/// elements joined by dots, each a non-empty run of ASCII alphanumerics, `_`
/// and `-`, in at most 255 bytes.
pub proof fn unique_name_is_colon_and_elements(s: Seq<u8>)
    ensures
        is_unique_name(s) <==> (s == bus_name() || {
            &&& s.len() <= 255
            &&& s.len() > 0
            &&& s[0] == COLON
            &&& exists|elems: Seq<Seq<u8>>|
                {
                    &&& elems.len() >= 2
                    &&& forall|j: int| 0 <= j < elems.len() ==> is_element(#[trigger] elems[j], true)
                    &&& #[trigger] join_with_dots(elems) == s.drop_first()
                }
        }),
{
    lemma_dotted_iff_elements(s.drop_first(), true);
}

/// Every unique name has at least 4 bytes and at most 255.
pub proof fn unique_name_length(s: Seq<u8>)
    requires
        is_unique_name(s),
    ensures
        4 <= s.len() <= 255,
{
    if s != bus_name() {
        lemma_dotted_len(s.drop_first(), true);
    }
}

/// Checks that `name` is a valid unique bus name.
pub fn validate(name: &str) -> (r: Result<(), Error>)
    ensures
        r is Ok <==> is_unique_name(name.spec_bytes()),
        r matches Err(Error::InvalidName(m)) ==> m@ == invalid_unique_name_message(),
{
    match validate_bytes(name.as_bytes()) {
        Ok(()) => Ok(()),
        Err(()) => Err(
            Error::InvalidName(
                "Invalid unique name. See https://dbus.freedesktop.org/doc/dbus-specification.html#message-protocol-names-bus",
            ),
        ),
    }
}

/// Parses `bytes` as a unique bus name: either the bus's own name, or `:`
/// followed by two or more dot-separated elements of ASCII alphanumerics,
/// `_` and `-`; then checks that it has at most 255 bytes.
pub fn validate_bytes(bytes: &[u8]) -> (r: Result<(), ()>)
    ensures
        r is Ok <==> is_unique_name(bytes@),
{
    let bus = bus_name_bytes();
    let parsed = if bytes_eq(bytes, bus.as_slice()) {
        true
    } else {
        bytes.len() > 0 && bytes[0] == COLON && parse_dotted(bytes, 1, true)
    };
    if !parsed {
        return Err(());
    }
    // Least likely scenario so we check this last.
    if bytes.len() > MAX_NAME_LEN {
        return Err(());
    }
    Ok(())
}

/// Checks byte by byte that `bytes` is a valid unique bus name.
pub fn validate_bytes_const(bytes: &[u8]) -> (r: bool)
    ensures
        r == is_unique_name(bytes@),
{
    let bus = bus_name_bytes();
    if bytes_eq(bytes, bus.as_slice()) {
        return true;
    }
    if bytes.len() > MAX_NAME_LEN || bytes.len() < 4 || bytes[0] != COLON {
        proof {
            if bytes.len() < 4 && bytes.len() > 0 && is_dotted(bytes@.drop_first(), true) {
                lemma_dotted_len(bytes@.drop_first(), true);
            }
        }
        return false;
    }
    let ghost t = bytes@.drop_first();
    let mut idx: usize = 1;
    let mut element_len: usize = 0;
    let mut has_dot = false;
    while idx < bytes.len()
        invariant
            1 <= idx <= bytes.len(),
            bytes.len() <= MAX_NAME_LEN,
            bytes@ != bus_name(),
            bytes@[0] == COLON,
            t == bytes@.drop_first(),
            element_len <= idx - 1,
            element_len > 0 <==> (idx > 1 && t[idx - 2] != DOT),
            forall|i: int| 0 <= i < idx - 1 ==> #[trigger] t[i] == DOT || is_element_byte(t[i]),
            forall|i: int| 0 <= i < idx - 1 && #[trigger] starts_element(t, i) ==> t[i] != DOT,
            has_dot <==> exists|i: int| 0 <= i < idx - 1 && #[trigger] t[i] == DOT,
        decreases bytes.len() - idx,
    {
        let byte = bytes[idx];
        assert(t[idx - 1] == byte);
        if byte == DOT {
            if element_len == 0 || idx + 1 == bytes.len() {
                proof {
                    if element_len == 0 {
                        assert(starts_element(t, idx - 1));
                    }
                }
                return false;
            }
            has_dot = true;
            element_len = 0;
        } else {
            if !ascii_alphanumeric(byte) && byte != UNDERSCORE && byte != HYPHEN {
                return false;
            }
            element_len = element_len + 1;
        }
        idx = idx + 1;
    }
    proof {
        if has_dot && element_len > 0 {
            let i = choose|i: int| 0 <= i < idx - 1 && #[trigger] t[i] == DOT;
            assert(t[i] == DOT);
        }
    }
    has_dot && element_len > 0
}

/// Whether `left` and `right` hold the same bytes.
pub fn bytes_eq(left: &[u8], right: &[u8]) -> (r: bool)
    ensures
        r == (left@ == right@),
{
    if left.len() != right.len() {
        return false;
    }
    let mut idx: usize = 0;
    while idx < left.len()
        invariant
            left.len() == right.len(),
            idx <= left.len(),
            forall|j: int| 0 <= j < idx ==> left@[j] == right@[j],
        decreases left.len() - idx,
    {
        if left[idx] != right[idx] {
            return false;
        }
        idx = idx + 1;
    }
    assert(left@ =~= right@);
    true
}

} // verus!
