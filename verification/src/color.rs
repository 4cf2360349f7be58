//! Color resolution: an ordered list of (class IRI, color) rules. A class
//! term gets the color of the first rule it is ancestry-related to; a term
//! no rule matches gets the default color, white.

use vstd::prelude::*;

use crate::normalize::view_table;
use crate::strings::{chars_of, copy_chars, push_all};

verus! {

/// The default color of a class no rule matches: white.
pub open spec fn default_color() -> Seq<char> {
    "#ffffff"@
}

/// The color picked from the rules, given one ancestry answer per rule:
/// the color of the first rule whose answer is true, else the default.
pub open spec fn first_match_spec(
    answers: Seq<bool>,
    rules: Seq<(Seq<char>, Seq<char>)>,
) -> Seq<char>
    decreases answers.len(),
{
    if answers.len() == 0 || rules.len() == 0 {
        default_color()
    } else if answers[0] {
        rules[0].1
    } else {
        first_match_spec(answers.skip(1), rules.skip(1))
    }
}

/// Law (color precedence): when the first `i` answers are negative and
/// answer `i` is positive, the resolved color is rule `i`'s color — in
/// particular, of two rules that both match, the earlier one wins.
pub proof fn lemma_first_match_wins(answers: Seq<bool>, rules: Seq<(Seq<char>, Seq<char>)>, i: int)
    requires
        answers.len() == rules.len(),
        0 <= i < answers.len(),
        answers[i],
        forall|k: int| 0 <= k < i ==> !answers[k],
    ensures
        first_match_spec(answers, rules) == rules[i].1,
    decreases i,
{
    if i > 0 {
        lemma_first_match_wins(answers.skip(1), rules.skip(1), i - 1);
    }
}

/// A color is possible under some rules when it is the default or one of
/// the rules' colors.
pub open spec fn is_possible_color(c: Seq<char>, rules: Seq<(Seq<char>, Seq<char>)>) -> bool {
    c == default_color() || exists|i: int| 0 <= i < rules.len() && c == rules[i].1
}

/// Whatever the answers, the resolved color is the default or a rule color.
pub proof fn lemma_first_match_possible(answers: Seq<bool>, rules: Seq<(Seq<char>, Seq<char>)>)
    ensures
        is_possible_color(first_match_spec(answers, rules), rules),
    decreases answers.len(),
{
    if answers.len() == 0 || rules.len() == 0 {
    } else if answers[0] {
    } else {
        lemma_first_match_possible(answers.skip(1), rules.skip(1));
        let c = first_match_spec(answers.skip(1), rules.skip(1));
        if c != default_color() {
            let i = choose|i: int| 0 <= i < rules.skip(1).len() && c == rules.skip(1)[i].1;
            assert(rules[i + 1].1 == c);
        }
    }
}

/// The executable color of the answers: the first rule answered true wins,
/// white when none is.
pub fn first_match_color(answers: &Vec<bool>, rules: &Vec<(Vec<char>, Vec<char>)>) -> (r: Vec<
    char,
>)
    requires
        answers@.len() == rules@.len(),
    ensures
        r@ == first_match_spec(answers@, view_table(rules@)),
{
    let ghost vt = view_table(rules@);
    proof {
        assert(answers@.skip(0) =~= answers@);
        assert(vt.skip(0) =~= vt);
    }
    let mut i: usize = 0;
    while i < answers.len()
        invariant
            answers@.len() == rules@.len(),
            vt == view_table(rules@),
            i <= answers@.len(),
            first_match_spec(answers@, vt) == first_match_spec(
                answers@.skip(i as int),
                vt.skip(i as int),
            ),
        decreases answers@.len() - i,
    {
        proof {
            assert(answers@.skip(i as int)[0] == answers@[i as int]);
            assert(vt.skip(i as int)[0] == vt[i as int]);
        }
        if answers[i] {
            let c = copy_chars(&rules[i].1);
            proof {
                assert(vt[i as int].1 == rules@[i as int].1@);
            }
            return c;
        }
        proof {
            assert(answers@.skip(i as int).skip(1) =~= answers@.skip(i + 1));
            assert(vt.skip(i as int).skip(1) =~= vt.skip(i + 1));
        }
        i += 1;
    }
    proof {
        assert(first_match_spec(answers@.skip(i as int), vt.skip(i as int)) == default_color());
    }
    let r = chars_of("#ffffff");
    r
}

/// The labels of the cache entries, in insertion order.
pub open spec fn cache_keys(cache: Seq<(Seq<char>, Seq<char>)>) -> Seq<Seq<char>> {
    cache.map(|i: int, p: (Seq<char>, Seq<char>)| p.0)
}

/// The cache keys after looking every label up in order, adding an entry
/// for each label not yet present.
pub open spec fn keys_after(keys: Seq<Seq<char>>, labels: Seq<Seq<char>>) -> Seq<Seq<char>>
    decreases labels.len(),
{
    if labels.len() == 0 {
        keys
    } else {
        let k1 = keys_after(keys, labels.drop_last());
        if k1.contains(labels.last()) {
            k1
        } else {
            k1.push(labels.last())
        }
    }
}

/// Law (single resolution): folding labels into the cache keeps the keys
/// distinct, and the keys afterwards are the old ones together with the
/// labels — each distinct new label adds exactly one entry, and an entry is
/// only ever added by one resolution pass, so the ancestry resolution runs
/// at most once per label however often the label occurs.
pub proof fn lemma_cache_single_resolution(keys: Seq<Seq<char>>, labels: Seq<Seq<char>>)
    requires
        crate::graph::nodes_distinct(keys),
    ensures
        crate::graph::nodes_distinct(keys_after(keys, labels)),
        forall|l: Seq<char>|
            #[trigger] keys_after(keys, labels).contains(l) <==> keys.contains(l)
                || labels.contains(l),
        keys.len() <= keys_after(keys, labels).len() <= keys.len() + labels.len(),
    decreases labels.len(),
{
    if labels.len() == 0 {
    } else {
        lemma_cache_single_resolution(keys, labels.drop_last());
        let k1 = keys_after(keys, labels.drop_last());
        let k2 = keys_after(keys, labels);
        let last = labels.last();
        if !k1.contains(last) {
            assert(crate::graph::nodes_distinct(k2)) by {
                assert(forall|i: int| 0 <= i < k1.len() ==> k2[i] == k1[i]);
                assert(forall|i: int| 0 <= i < k1.len() ==> k1[i] != last) by {
                    assert forall|i: int| 0 <= i < k1.len() implies k1[i] != last by {
                        if k1[i] == last {
                            assert(k1.contains(last));
                        }
                    }
                }
            }
        }
        assert forall|l: Seq<char>|
            #[trigger] k2.contains(l) <==> keys.contains(l) || labels.contains(l) by {
            assert(k1.contains(l) <==> keys.contains(l) || labels.drop_last().contains(l));
            if labels.contains(l) {
                let w = choose|w: int| 0 <= w < labels.len() && labels[w] == l;
                if w < labels.len() - 1 {
                    assert(labels.drop_last()[w] == l);
                    assert(labels.drop_last().contains(l));
                }
            }
            if labels.drop_last().contains(l) {
                let w = choose|w: int|
                    0 <= w < labels.drop_last().len() && labels.drop_last()[w] == l;
                assert(labels[w] == l);
                assert(labels.contains(l));
            }
            assert(labels[labels.len() - 1] == last);
            if l == last {
                assert(labels.contains(l));
            }
            if !k1.contains(last) {
                assert(k2 == k1.push(last));
                assert(k2[k1.len() as int] == last);
                if k2.contains(l) {
                    let w = choose|w: int| 0 <= w < k2.len() && k2[w] == l;
                    if w < k1.len() {
                        assert(k1[w] == l);
                        assert(k1.contains(l));
                    }
                }
                if k1.contains(l) {
                    let w = choose|w: int| 0 <= w < k1.len() && k1[w] == l;
                    assert(k2[w] == l);
                    assert(k2.contains(l));
                }
            }
        }
    }
}

/// Whether the cache already holds a color for label `l`.
pub(crate) fn cache_lookup(colors: &Vec<(Vec<char>, Vec<char>)>, l: &Vec<char>) -> (r: bool)
    ensures
        r == cache_keys(view_table(colors@)).contains(l@),
{
    let ghost ck = cache_keys(view_table(colors@));
    let mut i: usize = 0;
    while i < colors.len()
        invariant
            ck == cache_keys(view_table(colors@)),
            i <= colors@.len(),
            forall|k: int| 0 <= k < i ==> ck[k] != l@,
        decreases colors@.len() - i,
    {
        proof {
            assert(ck[i as int] == colors@[i as int].0@);
        }
        if crate::strings::chars_eq(&colors[i].0, l) {
            proof {
                assert(ck.contains(l@));
            }
            return true;
        }
        i += 1;
    }
    proof {
        if ck.contains(l@) {
            let w = choose|w: int| 0 <= w < ck.len() && ck[w] == l@;
            assert(false);
        }
    }
    false
}

/// The ancestry question put to the store for one rule: whether `term` is
/// related to the rule's class IRI by the reflexive-transitive closure of
/// subclass-of and equivalent-class.
pub open spec fn ask_query_spec(term: Seq<char>, class: Seq<char>) -> Seq<char> {
    "PREFIX owl: <http://www.w3.org/2002/07/owl#> PREFIX rdfs: <http://www.w3.org/2000/01/rdf-schema#> ASK { "@
        + term + " (rdfs:subClassOf|owl:equivalentClass)* <"@ + class + "> }"@
}

/// Builds the ancestry query text for one term and one rule class.
pub fn build_ask_query(term: &Vec<char>, class: &Vec<char>) -> (q: Vec<char>)
    ensures
        q@ == ask_query_spec(term@, class@),
{
    let mut q = chars_of(
        "PREFIX owl: <http://www.w3.org/2002/07/owl#> PREFIX rdfs: <http://www.w3.org/2000/01/rdf-schema#> ASK { ",
    );
    push_all(&mut q, term);
    let mid = chars_of(" (rdfs:subClassOf|owl:equivalentClass)* <");
    push_all(&mut q, &mid);
    push_all(&mut q, class);
    let end = chars_of("> }");
    push_all(&mut q, &end);
    proof {
        assert(q@ =~= ask_query_spec(term@, class@));
    }
    q
}

} // verus!
