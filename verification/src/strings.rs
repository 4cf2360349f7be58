//! Conversions between `String`/`&str` and character vectors, and small
//! verified helpers over character vectors. The label pipeline works on
//! `Vec<char>`, whose view is the same `Seq<char>` as a string's view.

use vstd::prelude::*;

verus! {

/// Relies on `str::chars`: the characters of a string slice, in order,
/// which are exactly the view of the slice.
#[verifier::external_body]
pub(crate) fn chars_of(s: &str) -> (r: Vec<char>)
    ensures
        r@ == s@,
{
    s.chars().collect()
}

/// Relies on `String`'s `FromIterator<char>`: collecting characters yields
/// the string whose characters they are, in order.
#[verifier::external_body]
pub(crate) fn string_of(cs: &Vec<char>) -> (r: String)
    ensures
        r@ == cs@,
{
    cs.iter().collect()
}

/// Appends every character of `add` to `out`, in order.
pub(crate) fn push_all(out: &mut Vec<char>, add: &Vec<char>)
    ensures
        final(out)@ == old(out)@ + add@,
{
    let mut k: usize = 0;
    while k < add.len()
        invariant
            k <= add@.len(),
            out@ == old(out)@ + add@.take(k as int),
        decreases add@.len() - k,
    {
        let ghost out0 = out@;
        out.push(add[k]);
        proof {
            assert(out@ =~= old(out)@ + add@.take(k + 1));
        }
        k += 1;
    }
    proof {
        assert(add@.take(add@.len() as int) =~= add@);
        assert(out@ =~= old(out)@ + add@);
    }
}

/// Whether two character vectors hold the same characters.
pub(crate) fn chars_eq(a: &Vec<char>, b: &Vec<char>) -> (r: bool)
    ensures
        r == (a@ == b@),
{
    if a.len() != b.len() {
        return false;
    }
    let mut k: usize = 0;
    while k < a.len()
        invariant
            a@.len() == b@.len(),
            k <= a@.len(),
            forall|j: int| 0 <= j < k ==> a@[j] == b@[j],
        decreases a@.len() - k,
    {
        if a[k] != b[k] {
            return false;
        }
        k += 1;
    }
    proof {
        assert(a@ =~= b@);
    }
    true
}

/// A copy of a character vector.
pub(crate) fn copy_chars(s: &Vec<char>) -> (r: Vec<char>)
    ensures
        r@ == s@,
{
    let mut out: Vec<char> = Vec::new();
    push_all(&mut out, s);
    proof {
        assert(out@ =~= s@);
    }
    out
}

} // verus!
