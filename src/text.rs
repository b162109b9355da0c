use vstd::prelude::*;
use vstd::std_specs::iter::IteratorSpec;

verus! {

/// `needle` occurs in `hay` as a contiguous run of characters.
pub open spec fn is_substring(needle: Seq<char>, hay: Seq<char>) -> bool {
    exists|i: int| 0 <= i <= hay.len() - needle.len() && #[trigger] hay.subrange(i, i + needle.len()) == needle
}

/// `needle` occurs in `hay` starting at position `i`.
pub open spec fn occurs_at(needle: Seq<char>, hay: Seq<char>, i: int) -> bool {
    &&& 0 <= i <= hay.len() - needle.len()
    &&& hay.subrange(i, i + needle.len()) == needle
}

/// Whether the characters at `hay[start..]` begin with `needle`.
pub(crate) fn matches_at(hay: &Vec<char>, needle: &Vec<char>, start: usize) -> (r: bool)
    requires
        start + needle.len() <= hay.len(),
    ensures
        r == (hay@.subrange(start as int, start + needle.len()) == needle@),
{
    let mut j: usize = 0;
    while j < needle.len()
        invariant
            start + needle.len() <= hay.len(),
            j <= needle.len(),
            forall|k: int| 0 <= k < j ==> hay@[start + k] == needle@[k],
        decreases needle.len() - j,
    {
        if hay[start + j] != needle[j] {
            assert(hay@.subrange(start as int, start + needle.len())[j as int] != needle@[j as int]);
            return false;
        }
        j = j + 1;
    }
    assert(hay@.subrange(start as int, start + needle.len()) =~= needle@);
    true
}

/// Whether `needle` occurs anywhere in `hay`; an empty `needle` occurs in
/// every `hay`.
pub fn contains_fragment(hay: &Vec<char>, needle: &Vec<char>) -> (r: bool)
    ensures
        r == is_substring(needle@, hay@),
{
    if needle.len() > hay.len() {
        return false;
    }
    let last: usize = hay.len() - needle.len();
    let mut i: usize = 0;
    loop
        invariant
            last == hay.len() - needle.len(),
            needle.len() <= hay.len(),
            i <= last,
            forall|k: int| 0 <= k < i ==> #[trigger] hay@.subrange(k, k + needle.len()) != needle@,
        decreases last - i,
    {
        if matches_at(hay, needle, i) {
            assert(occurs_at(needle@, hay@, i as int));
            return true;
        }
        if i == last {
            return false;
        }
        i = i + 1;
    }
}

/// Appends the characters of `src` to `out`.
pub(crate) fn push_all(out: &mut Vec<char>, src: &Vec<char>)
    ensures
        final(out)@ == old(out)@ + src@,
{
    let ghost start = out@;
    let mut i: usize = 0;
    while i < src.len()
        invariant
            i <= src.len(),
            out@ == start + src@.subrange(0, i as int),
        decreases src.len() - i,
    {
        out.push(src[i]);
        i = i + 1;
        assert(out@ =~= start + src@.subrange(0, i as int));
    }
    assert(src@.subrange(0, i as int) =~= src@);
}

/// The characters of `s`, in order.
pub(crate) fn chars_of(s: &str) -> (r: Vec<char>)
    ensures
        r@ == s@,
{
    broadcast use vstd::string::axiom_spec_iter, vstd::string::next_postcondition;
    let mut out: Vec<char> = Vec::new();
    let mut it = s.chars();
    loop
        invariant
            out@ + it.remaining() == s@,
            it.decrease() is Some,
        decreases it.decrease()->0,
    {
        match it.next() {
            Some(c) => {
                out.push(c);
            },
            None => {
                assert(out@ + Seq::<char>::empty() =~= out@);
                return out;
            },
        }
        assert(out@ + it.remaining() =~= s@);
    }
}

/// The string made of the characters of `v`, in order.
///
/// Relies on `String`'s `FromIterator<&char>`, which appends each character
/// in turn.
#[verifier::external_body]
pub(crate) fn string_from_chars(v: &Vec<char>) -> (r: String)
    ensures
        r@ == v@,
{
    v.iter().collect()
}

} // verus!
