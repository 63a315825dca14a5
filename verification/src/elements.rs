//! Names as sequences of elements: joining elements with dots, splitting a
//! name at its dots, and the proof that a dotted name is exactly two or more
//! valid elements joined by dots.
use vstd::prelude::*;

use crate::rules::{is_ascii_digit, is_dotted, is_element_byte, starts_element, DOT};

verus! {

/// A valid element: non-empty, made of element bytes, and, unless
/// `digit_may_start`, not beginning with a digit.
pub open spec fn is_element(e: Seq<u8>, digit_may_start: bool) -> bool {
    &&& e.len() > 0
    &&& forall|i: int| 0 <= i < e.len() ==> is_element_byte(#[trigger] e[i])
    &&& digit_may_start || !is_ascii_digit(e[0])
}

/// The elements joined with a dot between each two of them.
pub open spec fn join_with_dots(elems: Seq<Seq<u8>>) -> Seq<u8>
    decreases elems.len(),
{
    if elems.len() == 0 {
        Seq::empty()
    } else if elems.len() == 1 {
        elems[0]
    } else {
        join_with_dots(elems.drop_last()) + seq![DOT] + elems.last()
    }
}

/// The pieces of `s` between its dots, in order; a name with `n` dots has
/// `n + 1` pieces, some of which may be empty.
pub open spec fn split_at_dots(s: Seq<u8>) -> Seq<Seq<u8>>
    decreases s.len(),
{
    if s.len() == 0 {
        seq![Seq::empty()]
    } else {
        let p = split_at_dots(s.drop_last());
        if s.last() == DOT {
            p.push(Seq::empty())
        } else {
            p.update(p.len() - 1, p.last().push(s.last()))
        }
    }
}

/// Every byte is a dot or an element byte, and every position that begins an
/// element holds an element byte that, unless `digit_may_start`, is no digit.
pub open spec fn is_well_split(s: Seq<u8>, digit_may_start: bool) -> bool {
    &&& forall|i: int| 0 <= i < s.len() ==> #[trigger] s[i] == DOT || is_element_byte(s[i])
    &&& forall|i: int| 0 <= i < s.len() && #[trigger] starts_element(s, i) ==> s[i] != DOT
    &&& !digit_may_start ==> forall|i: int|
        0 <= i < s.len() && #[trigger] starts_element(s, i) ==> !is_ascii_digit(s[i])
}

/// Splitting at the dots and joining again gives the name back, and the
/// pieces are at least two exactly where the name holds a dot.
pub proof fn lemma_split_join(s: Seq<u8>)
    ensures
        split_at_dots(s).len() >= 1,
        join_with_dots(split_at_dots(s)) == s,
        split_at_dots(s).len() >= 2 <==> exists|i: int| 0 <= i < s.len() && #[trigger] s[i] == DOT,
    decreases s.len(),
{
    if s.len() > 0 {
        let s0 = s.drop_last();
        let b = s.last();
        lemma_split_join(s0);
        let p = split_at_dots(s0);
        assert(s =~= s0.push(b));
        if b == DOT {
            let q = p.push(Seq::empty());
            assert(q.drop_last() =~= p);
            assert(join_with_dots(q) =~= s);
            assert(s[s.len() - 1] == DOT);
        } else {
            let q = p.update(p.len() - 1, p.last().push(b));
            if p.len() == 1 {
                assert(join_with_dots(q) =~= s);
            } else {
                assert(q.drop_last() =~= p.drop_last());
                assert(join_with_dots(q) =~= s);
            }
            if exists|i: int| 0 <= i < s.len() && #[trigger] s[i] == DOT {
                let i = choose|i: int| 0 <= i < s.len() && #[trigger] s[i] == DOT;
                assert(s0[i] == DOT);
            }
            if exists|i: int| 0 <= i < s0.len() && #[trigger] s0[i] == DOT {
                let i = choose|i: int| 0 <= i < s0.len() && #[trigger] s0[i] == DOT;
                assert(s[i] == DOT);
            }
        }
    }
}

/// In a well-split name every piece but the last is a valid element, and the
/// last one is valid unless it is empty, which it is exactly where the name is
/// empty or ends with a dot.
pub proof fn lemma_split_elements(s: Seq<u8>, digit_may_start: bool)
    requires
        is_well_split(s, digit_may_start),
    ensures
        forall|j: int|
            0 <= j < split_at_dots(s).len() - 1 ==> is_element(
                #[trigger] split_at_dots(s)[j],
                digit_may_start,
            ),
        split_at_dots(s).len() >= 1,
        split_at_dots(s).last().len() > 0 ==> is_element(split_at_dots(s).last(), digit_may_start),
        split_at_dots(s).last().len() == 0 <==> (s.len() == 0 || s.last() == DOT),
    decreases s.len(),
{
    lemma_split_join(s);
    if s.len() > 0 {
        let s0 = s.drop_last();
        let b = s.last();
        let n = s.len() - 1;
        assert forall|i: int| 0 <= i < s0.len() && #[trigger] starts_element(s0, i) implies s0[i]
            != DOT && (!digit_may_start ==> !is_ascii_digit(s0[i])) by {
            assert(s[i] == s0[i]);
            assert(starts_element(s, i));
        }
        assert forall|i: int| 0 <= i < s0.len() implies #[trigger] s0[i] == DOT || is_element_byte(
            s0[i],
        ) by {
            assert(s[i] == s0[i]);
        }
        lemma_split_elements(s0, digit_may_start);
        let p = split_at_dots(s0);
        assert(s[n] == b);
        if b == DOT {
            assert(!starts_element(s, n));
            assert(s0.len() > 0 && s0.last() != DOT);
            let q = p.push(Seq::empty());
            assert forall|j: int| 0 <= j < q.len() - 1 implies is_element(
                #[trigger] q[j],
                digit_may_start,
            ) by {
                assert(q[j] == p[j]);
            }
        } else {
            let last = p.last().push(b);
            let q = p.update(p.len() - 1, last);
            assert forall|j: int| 0 <= j < q.len() - 1 implies is_element(
                #[trigger] q[j],
                digit_may_start,
            ) by {
                assert(q[j] == p[j]);
            }
            if p.last().len() == 0 {
                assert(starts_element(s, n));
                assert(last =~= seq![b]);
            } else {
                assert forall|i: int| 0 <= i < last.len() implies is_element_byte(
                    #[trigger] last[i],
                ) by {
                    if i < p.last().len() {
                        assert(last[i] == p.last()[i]);
                    }
                }
                assert(last[0] == p.last()[0]);
            }
        }
    }
}

/// Joined elements form a well-split name that ends with no dot, and has a
/// dot once there are two elements or more.
pub proof fn lemma_join_well_split(elems: Seq<Seq<u8>>, digit_may_start: bool)
    requires
        elems.len() >= 1,
        forall|j: int| 0 <= j < elems.len() ==> is_element(#[trigger] elems[j], digit_may_start),
    ensures
        is_well_split(join_with_dots(elems), digit_may_start),
        join_with_dots(elems).len() > 0,
        join_with_dots(elems).last() != DOT,
        elems.len() >= 2 ==> exists|i: int|
            0 <= i < join_with_dots(elems).len() && #[trigger] join_with_dots(elems)[i] == DOT,
    decreases elems.len(),
{
    let s = join_with_dots(elems);
    if elems.len() == 1 {
        let e = elems[0];
        assert(is_element(e, digit_may_start));
        assert forall|i: int| 0 <= i < s.len() && #[trigger] starts_element(s, i) implies s[i]
            != DOT && (!digit_may_start ==> !is_ascii_digit(s[i])) by {
            if i > 0 {
                assert(is_element_byte(e[i - 1]));
            }
        }
        assert(is_element_byte(e[e.len() - 1]));
    } else {
        let init = elems.drop_last();
        let e = elems.last();
        assert forall|j: int| 0 <= j < init.len() implies is_element(
            #[trigger] init[j],
            digit_may_start,
        ) by {
            assert(init[j] == elems[j]);
        }
        lemma_join_well_split(init, digit_may_start);
        let t = join_with_dots(init);
        assert(is_element(e, digit_may_start));
        assert(s == t + seq![DOT] + e);
        let m: int = t.len() as int;
        assert(s[m] == DOT);
        assert forall|i: int| 0 <= i < s.len() implies #[trigger] s[i] == DOT || is_element_byte(
            s[i],
        ) by {
            if i < m {
                assert(s[i] == t[i]);
            } else if i > m {
                assert(s[i] == e[i - m - 1]);
            }
        }
        assert forall|i: int| 0 <= i < s.len() && #[trigger] starts_element(s, i) implies s[i]
            != DOT && (!digit_may_start ==> !is_ascii_digit(s[i])) by {
            if i < m {
                assert(s[i] == t[i]);
                if i > 0 {
                    assert(s[i - 1] == t[i - 1]);
                }
                assert(starts_element(t, i));
            } else if i == m {
                assert(s[m - 1] == t[m - 1]);
            } else if i == m + 1 {
                assert(s[i] == e[0]);
            } else {
                assert(s[i - 1] == e[i - m - 2]);
                assert(is_element_byte(e[i - m - 2]));
            }
        }
        assert(s[s.len() - 1] == e[e.len() - 1]);
        assert(is_element_byte(e[e.len() - 1]));
    }
}

/// A name is dotted exactly where it is two or more valid elements joined
/// with dots.
pub proof fn lemma_dotted_iff_elements(s: Seq<u8>, digit_may_start: bool)
    ensures
        is_dotted(s, digit_may_start) <==> exists|elems: Seq<Seq<u8>>|
            {
                &&& elems.len() >= 2
                &&& forall|j: int|
                    0 <= j < elems.len() ==> is_element(#[trigger] elems[j], digit_may_start)
                &&& #[trigger] join_with_dots(elems) == s
            },
{
    if is_dotted(s, digit_may_start) {
        lemma_split_join(s);
        lemma_split_elements(s, digit_may_start);
        let p = split_at_dots(s);
        assert forall|j: int| 0 <= j < p.len() implies is_element(
            #[trigger] p[j],
            digit_may_start,
        ) by {
            if j == p.len() - 1 {
                assert(s.last() == s[s.len() - 1]);
            }
        }
        assert(join_with_dots(p) == s);
    }
    if exists|elems: Seq<Seq<u8>>|
        {
            &&& elems.len() >= 2
            &&& forall|j: int|
                0 <= j < elems.len() ==> is_element(#[trigger] elems[j], digit_may_start)
            &&& #[trigger] join_with_dots(elems) == s
        } {
        let elems = choose|elems: Seq<Seq<u8>>|
            {
                &&& elems.len() >= 2
                &&& forall|j: int|
                    0 <= j < elems.len() ==> is_element(#[trigger] elems[j], digit_may_start)
                &&& #[trigger] join_with_dots(elems) == s
            };
        lemma_join_well_split(elems, digit_may_start);
    }
}

} // verus!
