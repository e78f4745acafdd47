//! Small verified helpers on strings, stated over their character views.

use vstd::prelude::*;
use vstd::string::{StringExecFns, StringSliceAdditionalSpecFns};
use vstd::utf8::encode_utf8_decode_utf8;

verus! {

/// Whether `a` and `b` hold the same characters.
pub fn same_text(a: &str, b: &str) -> (same: bool)
    ensures
        same == (a@ == b@),
{
    let left = a.as_bytes();
    let right = b.as_bytes();
    proof {
        encode_utf8_decode_utf8(a@);
        encode_utf8_decode_utf8(b@);
    }
    if left.len() != right.len() {
        return false;
    }
    let mut i: usize = 0;
    while i < left.len()
        invariant
            i <= left.len(),
            left.len() == right.len(),
            left@ == a.spec_bytes(),
            right@ == b.spec_bytes(),
            forall|j: int| 0 <= j < i ==> left[j] == right[j],
        decreases left.len() - i,
    {
        if left[i] != right[i] {
            return false;
        }
        i += 1;
    }
    assert(left@ =~= right@);
    true
}

/// The characters of `s`, in order.
pub fn to_chars(s: &str) -> (chars: Vec<char>)
    ensures
        chars@ == s@,
{
    let mut out: Vec<char> = Vec::new();
    for c in it: s.chars()
        invariant
            it.seq() == s@,
            out@ =~= it.seq().take(it.index() as int),
    {
        assert(it.seq().take(it.index() + 1) =~= it.seq().take(it.index() as int).push(c));
        out.push(c);
    }
    assert(out@ =~= s@);
    out
}

/// `a` followed by `b`.
pub fn concat(a: &str, b: &str) -> (joined: String)
    ensures
        joined@ == a@ + b@,
{
    let mut out = String::from_str(a);
    out.append(b);
    out
}

/// A copy of an optional text.
pub fn duplicate_text(text: &Option<String>) -> (copy: Option<String>)
    ensures
        copy == *text,
{
    match text {
        Some(inner) => Some(inner.clone()),
        None => None,
    }
}

/// The characters of an optional text.
pub open spec fn text_view(text: Option<String>) -> Option<Seq<char>> {
    match text {
        Some(inner) => Some(inner@),
        None => None,
    }
}

/// Whether two optional texts are both absent or hold the same characters.
pub fn same_optional_text(a: &Option<String>, b: &Option<String>) -> (same: bool)
    ensures
        same == (text_view(*a) == text_view(*b)),
{
    match (a, b) {
        (Some(x), Some(y)) => *x == *y,
        (None, None) => true,
        _ => false,
    }
}

/// Whether `needle` occurs in `hay` as a run of consecutive characters.
/// Letters match only in the same case.
pub open spec fn contains_text(hay: Seq<char>, needle: Seq<char>) -> bool {
    exists|i: int|
        0 <= i && i + needle.len() <= hay.len() && #[trigger] hay.subrange(
            i,
            i + needle.len(),
        ) == needle
}

/// Tests whether `needle` occurs in `hay`.
pub fn occurs(hay: &Vec<char>, needle: &Vec<char>) -> (found: bool)
    ensures
        found == contains_text(hay@, needle@),
{
    if needle.len() > hay.len() {
        return false;
    }
    let last = hay.len() - needle.len();
    let mut at: usize = 0;
    while at <= last
        invariant
            at <= last + 1,
            last == hay.len() - needle.len(),
            needle.len() <= hay.len(),
            forall|k: int|
                0 <= k < at ==> #[trigger] hay@.subrange(k, k + needle.len()) != needle@,
        decreases last + 1 - at,
    {
        let mut same: usize = 0;
        let mut differs = false;
        while same < needle.len() && !differs
            invariant
                same <= needle.len(),
                at + needle.len() <= hay.len(),
                !differs ==> forall|m: int| 0 <= m < same ==> hay[at + m] == needle[m],
                differs ==> same < needle.len() && hay[at + same] != needle[same as int],
            decreases needle.len() - same + (if differs { 0int } else { 1int }),
        {
            if hay[at + same] == needle[same] {
                same += 1;
            } else {
                differs = true;
            }
        }
        if !differs {
            assert(hay@.subrange(at as int, at + needle.len()) =~= needle@);
            return true;
        }
        assert(hay@.subrange(at as int, at + needle.len())[same as int] != needle@[same as int]);
        at += 1;
    }
    assert forall|k: int| 0 <= k && k + needle.len() <= hay.len() implies #[trigger] hay@.subrange(
        k,
        k + needle.len(),
    ) != needle@ by {}
    false
}

} // verus!
