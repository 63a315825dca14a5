//! The byte-level rules that bus names follow, stated as spec functions, and
//! the element parser shared by both kinds of name.
use vstd::prelude::*;

use crate::chars::{winnow_is_alpha, winnow_is_alphanum};

verus! {

/// `.`, the separator between the elements of a name.
pub const DOT: u8 = 46;

/// `:`, the first byte of every unique name but the bus's own.
pub const COLON: u8 = 58;

/// `_`, allowed anywhere in an element.
pub const UNDERSCORE: u8 = 95;

/// `-`, allowed anywhere in an element.
pub const HYPHEN: u8 = 45;

/// The longest a bus name may be, in bytes.
pub const MAX_NAME_LEN: usize = 255;

/// An ASCII letter: `A..=Z` or `a..=z`.
pub open spec fn is_ascii_letter(b: u8) -> bool {
    (0x41 <= b && b <= 0x5a) || (0x61 <= b && b <= 0x7a)
}

/// An ASCII decimal digit: `0..=9`.
pub open spec fn is_ascii_digit(b: u8) -> bool {
    0x30 <= b && b <= 0x39
}

/// A byte that may stand anywhere in an element: ASCII alphanumeric, `_` or `-`.
pub open spec fn is_element_byte(b: u8) -> bool {
    is_ascii_letter(b) || is_ascii_digit(b) || b == UNDERSCORE || b == HYPHEN
}

/// Whether position `i` of `s` begins an element: it is the first byte, or
/// it follows a dot.
pub open spec fn starts_element(s: Seq<u8>, i: int) -> bool {
    i == 0 || s[i - 1] == DOT
}

/// `s` is two or more non-empty elements joined by dots, each element made of
/// element bytes only; unless `digit_may_start`, no element begins with a
/// digit.
pub open spec fn is_dotted(s: Seq<u8>, digit_may_start: bool) -> bool {
    &&& s.len() > 0
    &&& forall|i: int| 0 <= i < s.len() ==> #[trigger] s[i] == DOT || is_element_byte(s[i])
    &&& forall|i: int| 0 <= i < s.len() && #[trigger] starts_element(s, i) ==> s[i] != DOT
    &&& s[s.len() - 1] != DOT
    &&& !digit_may_start ==> forall|i: int|
        0 <= i < s.len() && #[trigger] starts_element(s, i) ==> !is_ascii_digit(s[i])
    &&& exists|i: int| 0 <= i < s.len() && #[trigger] s[i] == DOT
}

/// The bytes of `org.freedesktop.DBus`, the name of the message bus itself.
pub open spec fn bus_name() -> Seq<u8> {
    seq![
        111u8, 114, 103, 46, 102, 114, 101, 101, 100, 101, 115, 107, 116, 111, 112, 46, 68, 66,
        117, 115,
    ]
}

/// A valid unique bus name: the bus's own name, or at most 255 bytes made of
/// `:` followed by two or more dot-separated elements.
pub open spec fn is_unique_name(s: Seq<u8>) -> bool {
    s == bus_name() || (s.len() <= 255 && s.len() > 0 && s[0] == COLON && is_dotted(
        s.drop_first(),
        true,
    ))
}

/// A valid well-known bus name: at most 255 bytes made of two or more
/// dot-separated elements, none of which begins with a digit.
pub open spec fn is_well_known_name(s: Seq<u8>) -> bool {
    s.len() <= 255 && is_dotted(s, false)
}

/// A dotted name has at least three bytes: an element, a dot and an element.
pub proof fn lemma_dotted_len(s: Seq<u8>, digit_may_start: bool)
    requires
        is_dotted(s, digit_may_start),
    ensures
        s.len() >= 3,
{
    let i = choose|i: int| 0 <= i < s.len() && #[trigger] s[i] == DOT;
    assert(starts_element(s, 0));
}

/// The bytes that may stand in an element are exactly the ASCII letters
/// `A..=Z` and `a..=z`, the ASCII digits `0..=9`, `_` and `-`; no byte of
/// 0x80 or more is one.
pub proof fn element_byte_class(b: u8)
    ensures
        is_element_byte(b) <==> ((0x41 <= b && b <= 0x5a) || (0x61 <= b && b <= 0x7a) || (0x30 <= b
            && b <= 0x39) || b == 0x5f || b == 0x2d),
        b >= 0x80 ==> !is_element_byte(b),
{
}

/// A well-known name is, byte for byte: between 1 and 255 bytes, each an ASCII
/// letter, an ASCII digit, `_`, `-` or `.`; the byte at the start and after
/// each `.` is neither `.` nor a digit; the last byte is no `.`; and at least
/// one `.` occurs. So a name with any byte of 0x80 or more is refused.
pub proof fn well_known_name_bytes(s: Seq<u8>)
    ensures
        is_well_known_name(s) <==> {
            &&& 0 < s.len() <= 255
            &&& forall|i: int|
                0 <= i < s.len() ==> ((0x41 <= #[trigger] s[i] && s[i] <= 0x5a) || (0x61 <= s[i]
                    && s[i] <= 0x7a) || (0x30 <= s[i] && s[i] <= 0x39) || s[i] == 0x5f || s[i]
                    == 0x2d || s[i] == 0x2e)
            &&& forall|i: int|
                0 <= i < s.len() && (i == 0 || s[i - 1] == 0x2e) ==> #[trigger] s[i] != 0x2e && !(
                0x30 <= s[i] && s[i] <= 0x39)
            &&& s[s.len() - 1] != 0x2e
            &&& exists|i: int| 0 <= i < s.len() && #[trigger] s[i] == 0x2e
        },
        (exists|i: int| 0 <= i < s.len() && #[trigger] s[i] >= 0x80) ==> !is_well_known_name(s),
{
    if is_well_known_name(s) {
        assert forall|i: int| 0 <= i < s.len() && (i == 0 || s[i - 1] == 0x2e) implies #[trigger] s[i]
            != 0x2e && !(0x30 <= s[i] && s[i] <= 0x39) by {
            assert(starts_element(s, i));
        }
        if exists|i: int| 0 <= i < s.len() && #[trigger] s[i] >= 0x80 {
            let i = choose|i: int| 0 <= i < s.len() && #[trigger] s[i] >= 0x80;
            assert(s[i] == DOT || is_element_byte(s[i]));
        }
    }
}

/// A unique name is either the bytes of `org.freedesktop.DBus`, or, byte for
/// byte: between 2 and 255 bytes, the first `:`, every other one an ASCII
/// letter, an ASCII digit, `_`, `-` or `.`; the byte after the `:` and after
/// each `.` is no `.`; the last byte is no `.`; and at least one `.` occurs.
/// So a name with any byte of 0x80 or more is refused.
pub proof fn unique_name_bytes(s: Seq<u8>)
    ensures
        is_unique_name(s) <==> (s == seq![
            0x6fu8, 0x72, 0x67, 0x2e, 0x66, 0x72, 0x65, 0x65, 0x64, 0x65, 0x73, 0x6b, 0x74, 0x6f,
            0x70, 0x2e, 0x44, 0x42, 0x75, 0x73,
        ] || {
            &&& 1 < s.len() <= 255
            &&& s[0] == 0x3a
            &&& forall|i: int|
                1 <= i < s.len() ==> ((0x41 <= #[trigger] s[i] && s[i] <= 0x5a) || (0x61 <= s[i]
                    && s[i] <= 0x7a) || (0x30 <= s[i] && s[i] <= 0x39) || s[i] == 0x5f || s[i]
                    == 0x2d || s[i] == 0x2e)
            &&& forall|i: int| 1 <= i < s.len() && (i == 1 || s[i - 1] == 0x2e) ==> #[trigger] s[i] != 0x2e
            &&& s[s.len() - 1] != 0x2e
            &&& exists|i: int| 1 <= i < s.len() && #[trigger] s[i] == 0x2e
        }),
        (exists|i: int| 0 <= i < s.len() && #[trigger] s[i] >= 0x80) ==> !is_unique_name(s),
{
    let b = bus_name();
    assert(b =~= seq![
        0x6fu8, 0x72, 0x67, 0x2e, 0x66, 0x72, 0x65, 0x65, 0x64, 0x65, 0x73, 0x6b, 0x74, 0x6f,
        0x70, 0x2e, 0x44, 0x42, 0x75, 0x73,
    ]);
    if s.len() > 0 {
        let t = s.drop_first();
        let lit = s.len() > 1 && s.len() <= 255 && s[0] == 0x3a
            && (forall|i: int|
                1 <= i < s.len() ==> ((0x41 <= #[trigger] s[i] && s[i] <= 0x5a) || (0x61 <= s[i]
                    && s[i] <= 0x7a) || (0x30 <= s[i] && s[i] <= 0x39) || s[i] == 0x5f || s[i]
                    == 0x2d || s[i] == 0x2e))
            && (forall|i: int| 1 <= i < s.len() && (i == 1 || s[i - 1] == 0x2e) ==> #[trigger] s[i] != 0x2e)
            && s[s.len() - 1] != 0x2e
            && (exists|i: int| 1 <= i < s.len() && #[trigger] s[i] == 0x2e);
        if s.len() <= 255 && s[0] == COLON && is_dotted(t, true) {
            assert forall|i: int| 1 <= i < s.len() implies ((0x41 <= #[trigger] s[i] && s[i] <= 0x5a)
                || (0x61 <= s[i] && s[i] <= 0x7a) || (0x30 <= s[i] && s[i] <= 0x39) || s[i] == 0x5f
                || s[i] == 0x2d || s[i] == 0x2e) by {
                assert(t[i - 1] == s[i]);
            }
            assert forall|i: int| 1 <= i < s.len() && (i == 1 || s[i - 1] == 0x2e) implies #[trigger] s[i]
                != 0x2e by {
                assert(t[i - 1] == s[i]);
                if i > 1 {
                    assert(t[i - 2] == s[i - 1]);
                }
                assert(starts_element(t, i - 1));
            }
            assert(t[t.len() - 1] == s[s.len() - 1]);
            let j = choose|j: int| 0 <= j < t.len() && #[trigger] t[j] == DOT;
            assert(s[j + 1] == DOT);
            assert(lit);
        }
        if lit {
            assert forall|i: int| 0 <= i < t.len() implies #[trigger] t[i] == DOT || is_element_byte(t[i]) by {
                assert(t[i] == s[i + 1]);
            }
            assert forall|i: int| 0 <= i < t.len() && #[trigger] starts_element(t, i) implies t[i] != DOT by {
                assert(t[i] == s[i + 1]);
                if i > 0 {
                    assert(t[i - 1] == s[i]);
                }
            }
            assert(t[t.len() - 1] == s[s.len() - 1]);
            let j = choose|j: int| 1 <= j < s.len() && #[trigger] s[j] == 0x2e;
            assert(t[j - 1] == DOT);
            assert(is_dotted(t, true));
        }
        if exists|i: int| 0 <= i < s.len() && #[trigger] s[i] >= 0x80 {
            let i = choose|i: int| 0 <= i < s.len() && #[trigger] s[i] >= 0x80;
            if is_unique_name(s) && s != b {
                if i > 0 {
                    assert(t[i - 1] == s[i]);
                    assert(t[i - 1] == DOT || is_element_byte(t[i - 1]));
                }
            }
        }
    }
}

/// The bus's own name is the one name that is both a unique name and a
/// well-known name.
pub proof fn unique_and_well_known(s: Seq<u8>)
    ensures
        (is_unique_name(s) && is_well_known_name(s)) <==> s == bus_name(),
{
    let b = bus_name();
    assert(b[3] == DOT);
    assert forall|i: int| 0 <= i < b.len() implies #[trigger] b[i] == DOT || is_element_byte(b[i]) by {
    }
    assert forall|i: int| 0 <= i < b.len() && #[trigger] starts_element(b, i) implies b[i] != DOT
        && !is_ascii_digit(b[i]) by {
    }
    assert(is_well_known_name(b));
    if is_unique_name(s) && is_well_known_name(s) && s != b {
        assert(s[0] == COLON);
    }
}

/// The bytes of `org.freedesktop.DBus`.
pub fn bus_name_bytes() -> (r: [u8; 20])
    ensures
        r@ == bus_name(),
{
    let r: [u8; 20] = [
        111u8, 114, 103, 46, 102, 114, 101, 101, 100, 101, 115, 107, 116, 111, 112, 46, 68, 66,
        117, 115,
    ];
    assert(r@ =~= bus_name());
    r
}

/// Whether `b` may stand in an element after its first byte.
fn element_byte(b: u8) -> (r: bool)
    ensures
        r == is_element_byte(b),
{
    winnow_is_alphanum(b) || b == UNDERSCORE || b == HYPHEN
}

/// Whether `b` may begin an element.
fn element_first_byte(b: u8, digit_may_start: bool) -> (r: bool)
    ensures
        r == (is_element_byte(b) && (digit_may_start || !is_ascii_digit(b))),
{
    if digit_may_start {
        element_byte(b)
    } else {
        winnow_is_alpha(b) || b == UNDERSCORE || b == HYPHEN
    }
}

/// Parses one element of `bytes` that starts at `start`: its first byte, then
/// as many element bytes as follow. Returns the end of the element, or `None`
/// where no element starts at `start`.
fn parse_element(bytes: &[u8], start: usize, digit_may_start: bool) -> (r: Option<usize>)
    requires
        start <= bytes.len(),
    ensures
        match r {
            Some(end) => {
                &&& start < end <= bytes.len()
                &&& is_element_byte(bytes@[start as int])
                &&& digit_may_start || !is_ascii_digit(bytes@[start as int])
                &&& forall|i: int| start <= i < end ==> is_element_byte(#[trigger] bytes@[i])
                &&& end == bytes.len() || !is_element_byte(bytes@[end as int])
            },
            None => start == bytes.len() || !is_element_byte(bytes@[start as int]) || (
            !digit_may_start && is_ascii_digit(bytes@[start as int])),
        },
{
    if start == bytes.len() || !element_first_byte(bytes[start], digit_may_start) {
        return None;
    }
    let mut end: usize = start + 1;
    while end < bytes.len() && element_byte(bytes[end])
        invariant
            start < end <= bytes.len(),
            forall|i: int| start <= i < end ==> is_element_byte(#[trigger] bytes@[i]),
        decreases bytes.len() - end,
    {
        end = end + 1;
    }
    Some(end)
}

/// Whether the bytes of `bytes` from `start` on are two or more elements
/// separated by dots, parsed element by element: an element, then a dot and
/// an element as often as they follow, up to the end of the input.
pub fn parse_dotted(bytes: &[u8], start: usize, digit_may_start: bool) -> (r: bool)
    requires
        start <= bytes.len(),
    ensures
        r == is_dotted(bytes@.skip(start as int), digit_may_start),
{
    let ghost t = bytes@.skip(start as int);
    let mut pos: usize = start;
    let mut count: usize = 0;
    loop
        invariant
            start <= pos <= bytes.len(),
            t == bytes@.skip(start as int),
            count <= pos - start,
            count == 0 <==> pos == start,
            pos > start ==> t[pos - start - 1] == DOT,
            forall|i: int| 0 <= i < pos - start ==> #[trigger] t[i] == DOT || is_element_byte(t[i]),
            forall|i: int| 0 <= i < pos - start && #[trigger] starts_element(t, i) ==> t[i] != DOT,
            !digit_may_start ==> forall|i: int|
                0 <= i < pos - start && #[trigger] starts_element(t, i) ==> !is_ascii_digit(t[i]),
        decreases bytes.len() - pos,
    {
        let ghost k = pos - start;
        match parse_element(bytes, pos, digit_may_start) {
            None => {
                proof {
                    if k < t.len() {
                        assert(t[k] == bytes@[pos as int]);
                        assert(starts_element(t, k as int));
                    }
                }
                return false;
            },
            Some(end) => {
                proof {
                    assert forall|i: int| 0 <= i < end - start implies #[trigger] t[i] == DOT
                        || is_element_byte(t[i]) by {
                        if i >= k {
                            assert(t[i] == bytes@[start + i]);
                        }
                    }
                    assert forall|i: int| 0 <= i < end - start && #[trigger] starts_element(t, i)
                        implies t[i] != DOT by {
                        if i > k {
                            assert(t[i - 1] == bytes@[start + i - 1]);
                        }
                        if i >= k {
                            assert(t[i] == bytes@[start + i]);
                        }
                    }
                    assert forall|i: int|
                        !digit_may_start && 0 <= i < end - start && #[trigger] starts_element(t, i)
                        implies !is_ascii_digit(t[i]) by {
                        if i > k {
                            assert(t[i - 1] == bytes@[start + i - 1]);
                        }
                        if i == k {
                            assert(t[i] == bytes@[start + i]);
                        }
                    }
                }
                count = count + 1;
                if end < bytes.len() && bytes[end] == DOT {
                    proof {
                        assert(t[end - start] == bytes@[end as int]);
                        assert(t[end - start] == DOT);
                    }
                    pos = end + 1;
                } else {
                    proof {
                        let n = end - start;
                        if end < bytes.len() {
                            assert(t[n] == bytes@[end as int]);
                        } else {
                            assert(t.len() == n);
                            assert(t[n - 1] == bytes@[end - 1]);
                        }
                        if end == bytes.len() {
                            if count >= 2 {
                                assert(t[k - 1] == DOT);
                            } else {
                                assert forall|i: int| 0 <= i < t.len() implies t[i] != DOT by {
                                    assert(t[i] == bytes@[start + i]);
                                }
                            }
                        }
                    }
                    return end == bytes.len() && count >= 2;
                }
            },
        }
    }
}

} // verus!
