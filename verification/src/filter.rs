//! The edge filter interface: a pure predicate over the three raw term texts
//! of a relationship row, decided before any node, edge or color-cache entry
//! is created. The graph builder is written against this trait only.

use vstd::prelude::*;

use crate::strings::chars_of;

verus! {

/// A row filter. The decision must be a pure function of the three raw term
/// texts: `spec_decide` is that function, and `decide` computes it.
pub trait EdgeFilter {
    /// The decision as a mathematical function of the from-class, to-class
    /// and predicate term texts.
    spec fn spec_decide(&self, from: Seq<char>, to: Seq<char>, edge: Seq<char>) -> bool;

    /// Decides whether a row survives.
    fn decide(&self, from: &str, to: &str, edge: &str) -> (r: bool)
        ensures
            r == self.spec_decide(from@, to@, edge@),
    ;
}

/// The rows of `rows` that the filter keeps, in input order.
pub open spec fn surviving<F: EdgeFilter>(
    f: &F,
    rows: Seq<(Seq<char>, Seq<char>, Seq<char>)>,
) -> Seq<(Seq<char>, Seq<char>, Seq<char>)>
    decreases rows.len(),
{
    if rows.len() == 0 {
        rows
    } else {
        let rest = surviving(f, rows.drop_last());
        if f.spec_decide(rows.last().0, rows.last().1, rows.last().2) {
            rest.push(rows.last())
        } else {
            rest
        }
    }
}

/// Law (filter exclusion): a row the filter rejects contributes nothing —
/// the surviving sequence, and with it every node, edge and color-cache
/// entry derived from it, is the same as if the row had never been seen.
pub proof fn lemma_filter_exclusion<F: EdgeFilter>(
    f: &F,
    rows: Seq<(Seq<char>, Seq<char>, Seq<char>)>,
    i: int,
)
    requires
        0 <= i < rows.len(),
        !f.spec_decide(rows[i].0, rows[i].1, rows[i].2),
    ensures
        surviving(f, rows.remove(i)) == surviving(f, rows),
    decreases rows.len(),
{
    if i == rows.len() - 1 {
        assert(rows.remove(i) =~= rows.drop_last());
    } else {
        let shorter = rows.drop_last();
        assert(rows.remove(i).drop_last() =~= shorter.remove(i));
        assert(rows.remove(i).last() == rows.last());
        lemma_filter_exclusion(f, shorter, i);
    }
}

/// The filter never grows the row sequence.
pub proof fn lemma_surviving_len<F: EdgeFilter>(
    f: &F,
    rows: Seq<(Seq<char>, Seq<char>, Seq<char>)>,
)
    ensures
        surviving(f, rows).len() <= rows.len(),
    decreases rows.len(),
{
    if rows.len() > 0 {
        lemma_surviving_len(f, rows.drop_last());
    }
}

/// Accepts every row.
pub struct AcceptAll;

impl EdgeFilter for AcceptAll {
    open spec fn spec_decide(&self, from: Seq<char>, to: Seq<char>, edge: Seq<char>) -> bool {
        true
    }

    fn decide(&self, from: &str, to: &str, edge: &str) -> (r: bool) {
        true
    }
}

/// Whether `pat` occurs in `s` as a contiguous run of characters.
pub open spec fn contains_sub(s: Seq<char>, pat: Seq<char>) -> bool {
    exists|i: int|
        0 <= i && i + pat.len() <= s.len() && #[trigger] s.subrange(i, i + pat.len()) == pat
}

/// Keeps exactly the rows whose predicate term text holds the configured
/// needle as a substring.
pub struct EdgeContains {
    pub needle: Vec<char>,
}

impl EdgeFilter for EdgeContains {
    open spec fn spec_decide(&self, from: Seq<char>, to: Seq<char>, edge: Seq<char>) -> bool {
        contains_sub(edge, self.needle@)
    }

    fn decide(&self, from: &str, to: &str, edge: &str) -> (r: bool) {
        let e = chars_of(edge);
        contains_chars(&e, &self.needle)
    }
}

/// Whether `pat` occurs in `s`, by scanning every start position.
pub fn contains_chars(s: &Vec<char>, pat: &Vec<char>) -> (r: bool)
    ensures
        r == contains_sub(s@, pat@),
{
    if pat.len() == 0 {
        proof {
            let i0: int = 0;
            assert(s@.subrange(i0, i0 + pat@.len()) =~= pat@);
            assert(contains_sub(s@, pat@));
        }
        return true;
    }
    if pat.len() > s.len() {
        return false;
    }
    let mut i: usize = 0;
    while i <= s.len() - pat.len()
        invariant
            0 < pat@.len() <= s@.len(),
            i <= s@.len() - pat@.len() + 1,
            forall|j: int| 0 <= j < i ==> #[trigger] s@.subrange(j, j + pat@.len()) != pat@,
        decreases s@.len() - i,
    {
        if crate::normalize::match_at(s, i, pat) {
            return true;
        }
        i += 1;
    }
    proof {
        assert forall|j: int| 0 <= j && j + pat@.len() <= s@.len() implies #[trigger] s@.subrange(
            j,
            j + pat@.len(),
        ) != pat@ by {
            assert(j < i);
        }
    }
    false
}

} // verus!
