//! Term normalization: rewriting a raw RDF term text into a compact display
//! label by substituting namespace IRIs with short prefixes and trimming the
//! surrounding delimiters of IRI references and literals.

use vstd::prelude::*;

use crate::strings::{chars_of, push_all, string_of};

verus! {

/// Characters stripped from both ends of a rendered term: the angle brackets
/// of an IRI reference and the quotes of a literal.
pub open spec fn is_delim(c: char) -> bool {
    c == '<' || c == '>' || c == '"'
}

/// Leftmost, non-overlapping replacement of every occurrence of `pat` in `s`
/// by `rep`; replacement text is not rescanned. An empty pattern replaces
/// nothing.
pub open spec fn replace_all(s: Seq<char>, pat: Seq<char>, rep: Seq<char>) -> Seq<char>
    decreases s.len(),
{
    if pat.len() == 0 || s.len() < pat.len() {
        s
    } else if s.subrange(0, pat.len() as int) == pat {
        rep + replace_all(s.skip(pat.len() as int), pat, rep)
    } else {
        seq![s[0]] + replace_all(s.skip(1), pat, rep)
    }
}

/// Removes every leading delimiter, then every trailing delimiter.
pub open spec fn trim_delims(s: Seq<char>) -> Seq<char>
    decreases s.len(),
{
    if s.len() > 0 && is_delim(s[0]) {
        trim_delims(s.skip(1))
    } else if s.len() > 0 && is_delim(s[s.len() - 1]) {
        trim_delims(s.take(s.len() - 1))
    } else {
        s
    }
}

/// The substitutions of a prefix table, applied in table order: each entry
/// maps a namespace IRI to its replacement text.
pub open spec fn apply_table(s: Seq<char>, table: Seq<(Seq<char>, Seq<char>)>) -> Seq<char>
    decreases table.len(),
{
    if table.len() == 0 {
        s
    } else {
        apply_table(replace_all(s, table[0].0, table[0].1), table.skip(1))
    }
}

/// The normalized display label of a raw term text: every namespace of the
/// table substituted in order, then the surrounding delimiters trimmed.
pub open spec fn rewrite_spec(s: Seq<char>, table: Seq<(Seq<char>, Seq<char>)>) -> Seq<char> {
    trim_delims(apply_table(s, table))
}

/// The mathematical contents of an executable prefix table.
pub open spec fn view_table(t: Seq<(Vec<char>, Vec<char>)>) -> Seq<(Seq<char>, Seq<char>)> {
    t.map(|i: int, p: (Vec<char>, Vec<char>)| (p.0@, p.1@))
}

/// Law: normalization is a pure function of the term text — the same text
/// always rewrites to the same label, however often it is normalized.
pub proof fn lemma_rewrite_deterministic(
    a: Seq<char>,
    b: Seq<char>,
    table: Seq<(Seq<char>, Seq<char>)>,
)
    requires
        a == b,
    ensures
        rewrite_spec(a, table) == rewrite_spec(b, table),
{
}

/// Whether `pat` occurs in `s` starting at position `i`.
pub(crate) fn match_at(s: &Vec<char>, i: usize, pat: &Vec<char>) -> (r: bool)
    requires
        i + pat@.len() <= s@.len(),
    ensures
        r == (s@.subrange(i as int, i + pat@.len()) == pat@),
{
    let mut k: usize = 0;
    while k < pat.len()
        invariant
            i + pat@.len() <= s@.len(),
            k <= pat@.len(),
            forall|j: int| 0 <= j < k ==> s@[i + j] == pat@[j],
        decreases pat@.len() - k,
    {
        proof {
            assert(s@.len() == s.len());
            assert(i + k < s.len());
        }
        if s[i + k] != pat[k] {
            proof {
                assert(s@.subrange(i as int, i + pat@.len())[k as int] == s@[i + k]);
            }
            return false;
        }
        k += 1;
    }
    proof {
        assert(s@.subrange(i as int, i + pat@.len()) =~= pat@);
    }
    true
}

/// Replaces every occurrence of `pat` in `s` by `rep`, leftmost first,
/// without rescanning replacement text.
pub fn replace_chars(s: &Vec<char>, pat: &Vec<char>, rep: &Vec<char>) -> (r: Vec<char>)
    ensures
        r@ == replace_all(s@, pat@, rep@),
{
    let mut out: Vec<char> = Vec::new();
    if pat.len() == 0 {
        push_all(&mut out, s);
        proof {
            assert(out@ =~= s@);
        }
        return out;
    }
    proof {
        assert(s@.skip(0) =~= s@);
        assert(out@ =~= Seq::<char>::empty());
        assert(Seq::<char>::empty() + replace_all(s@, pat@, rep@) =~= replace_all(
            s@,
            pat@,
            rep@,
        ));
    }
    let mut i: usize = 0;
    while i < s.len()
        invariant
            i <= s@.len(),
            pat@.len() > 0,
            replace_all(s@, pat@, rep@) == out@ + replace_all(s@.skip(i as int), pat@, rep@),
        decreases s@.len() - i,
    {
        let ghost tail = s@.skip(i as int);
        if pat.len() <= s.len() - i && match_at(s, i, pat) {
            proof {
                assert(tail.subrange(0, pat@.len() as int) =~= s@.subrange(
                    i as int,
                    i + pat@.len(),
                ));
                assert(tail.skip(pat@.len() as int) =~= s@.skip(i + pat@.len()));
                assert(replace_all(tail, pat@, rep@) == rep@ + replace_all(
                    s@.skip(i + pat@.len()),
                    pat@,
                    rep@,
                ));
            }
            let ghost out0 = out@;
            push_all(&mut out, rep);
            proof {
                assert((out0 + rep@) + replace_all(s@.skip(i + pat@.len()), pat@, rep@)
                    =~= out0 + (rep@ + replace_all(s@.skip(i + pat@.len()), pat@, rep@)));
            }
            i += pat.len();
        } else {
            proof {
                assert(tail[0] == s@[i as int]);
                assert(tail.skip(1) =~= s@.skip(i + 1));
                if tail.len() >= pat@.len() {
                    assert(tail.subrange(0, pat@.len() as int) =~= s@.subrange(
                        i as int,
                        i + pat@.len(),
                    ));
                    assert(replace_all(tail, pat@, rep@) == seq![tail[0]] + replace_all(
                        tail.skip(1),
                        pat@,
                        rep@,
                    ));
                } else {
                    assert(replace_all(tail, pat@, rep@) == tail);
                    assert(replace_all(tail.skip(1), pat@, rep@) == tail.skip(1));
                    assert(tail =~= seq![tail[0]] + tail.skip(1));
                }
                assert(replace_all(tail, pat@, rep@) == seq![s@[i as int]] + replace_all(
                    s@.skip(i + 1),
                    pat@,
                    rep@,
                ));
            }
            let ghost out0 = out@;
            out.push(s[i]);
            proof {
                assert(out@ =~= out0 + seq![s@[i as int]]);
                assert((out0 + seq![s@[i as int]]) + replace_all(s@.skip(i + 1), pat@, rep@)
                    =~= out0 + (seq![s@[i as int]] + replace_all(s@.skip(i + 1), pat@, rep@)));
            }
            i += 1;
        }
    }
    proof {
        assert(s@.skip(s@.len() as int) =~= Seq::<char>::empty());
        assert(out@ + Seq::<char>::empty() =~= out@);
    }
    out
}

/// Trims every leading and trailing delimiter character from `s`.
pub fn trim_delim_chars(s: &Vec<char>) -> (r: Vec<char>)
    ensures
        r@ == trim_delims(s@),
{
    proof {
        assert(s@.skip(0) =~= s@);
    }
    let mut lo: usize = 0;
    while lo < s.len() && (s[lo] == '<' || s[lo] == '>' || s[lo] == '"')
        invariant
            lo <= s@.len(),
            trim_delims(s@) == trim_delims(s@.skip(lo as int)),
        decreases s@.len() - lo,
    {
        proof {
            assert(s@.skip(lo as int)[0] == s@[lo as int]);
            assert(s@.skip(lo as int).skip(1) =~= s@.skip(lo + 1));
        }
        lo += 1;
    }
    if lo == s.len() {
        proof {
            assert(s@.skip(lo as int) =~= Seq::<char>::empty());
        }
        let out: Vec<char> = Vec::new();
        proof {
            assert(out@ =~= trim_delims(s@));
        }
        return out;
    }
    proof {
        assert(s@.skip(lo as int) =~= s@.subrange(lo as int, s@.len() as int));
    }
    let mut hi: usize = s.len();
    while hi > lo + 1 && (s[hi - 1] == '<' || s[hi - 1] == '>' || s[hi - 1] == '"')
        invariant
            lo < hi <= s@.len(),
            !is_delim(s@[lo as int]),
            trim_delims(s@) == trim_delims(s@.subrange(lo as int, hi as int)),
        decreases hi,
    {
        proof {
            let sub = s@.subrange(lo as int, hi as int);
            assert(sub[0] == s@[lo as int]);
            assert(sub[sub.len() - 1] == s@[hi - 1]);
            assert(sub.take(sub.len() - 1) =~= s@.subrange(lo as int, hi - 1));
        }
        hi -= 1;
    }
    proof {
        let sub = s@.subrange(lo as int, hi as int);
        assert(sub[0] == s@[lo as int]);
        assert(sub[sub.len() - 1] == s@[hi - 1]);
        assert(trim_delims(sub) == sub);
    }
    let mut out: Vec<char> = Vec::new();
    let mut k: usize = lo;
    while k < hi
        invariant
            lo <= k <= hi <= s@.len(),
            out@ =~= s@.subrange(lo as int, k as int),
        decreases hi - k,
    {
        out.push(s[k]);
        proof {
            assert(out@ =~= s@.subrange(lo as int, k + 1));
        }
        k += 1;
    }
    proof {
        assert(out@ =~= s@.subrange(lo as int, hi as int));
    }
    out
}

proof fn lemma_apply_table_push(s: Seq<char>, t: Seq<(Seq<char>, Seq<char>)>, e: (Seq<char>, Seq<char>))
    ensures
        apply_table(s, t.push(e)) == replace_all(apply_table(s, t), e.0, e.1),
    decreases t.len(),
{
    if t.len() == 0 {
        assert(t.push(e)[0] == e);
        assert(t.push(e).skip(1) =~= Seq::<(Seq<char>, Seq<char>)>::empty());
        assert(apply_table(replace_all(s, e.0, e.1), Seq::<(Seq<char>, Seq<char>)>::empty())
            == replace_all(s, e.0, e.1));
        assert(apply_table(s, t) == s);
    } else {
        assert(t.push(e)[0] == t[0]);
        assert(t.push(e).skip(1) =~= t.skip(1).push(e));
        lemma_apply_table_push(replace_all(s, t[0].0, t[0].1), t.skip(1), e);
        assert(apply_table(s, t) == apply_table(replace_all(s, t[0].0, t[0].1), t.skip(1)));
        assert(apply_table(s, t.push(e)) == apply_table(
            replace_all(s, t[0].0, t[0].1),
            t.skip(1).push(e),
        ));
    }
}

/// Applies every substitution of the table in order, then trims delimiters:
/// the executable normalizer over character vectors.
pub fn rewrite_chars(s: &Vec<char>, table: &Vec<(Vec<char>, Vec<char>)>) -> (r: Vec<char>)
    ensures
        r@ == rewrite_spec(s@, view_table(table@)),
{
    let mut cur: Vec<char> = Vec::new();
    push_all(&mut cur, s);
    proof {
        assert(cur@ =~= s@);
        assert(view_table(table@).take(0) =~= Seq::<(Seq<char>, Seq<char>)>::empty());
    }
    let mut i: usize = 0;
    while i < table.len()
        invariant
            i <= table@.len(),
            cur@ == apply_table(s@, view_table(table@).take(i as int)),
        decreases table@.len() - i,
    {
        let next = replace_chars(&cur, &table[i].0, &table[i].1);
        proof {
            let vt = view_table(table@);
            assert(vt.take(i + 1) =~= vt.take(i as int).push(vt[i as int]));
            lemma_apply_table_push(s@, vt.take(i as int), vt[i as int]);
            assert(vt[i as int] == (table@[i as int].0@, table@[i as int].1@));
        }
        cur = next;
        i += 1;
    }
    proof {
        assert(view_table(table@).take(table@.len() as int) =~= view_table(table@));
    }
    trim_delim_chars(&cur)
}

/// The fixed namespace table: the brick, rdf and owl namespace IRIs, each
/// replaced by its short prefix followed by an underscore.
pub open spec fn default_prefixes_spec() -> Seq<(Seq<char>, Seq<char>)> {
    seq![
        ("https://brickschema.org/schema/Brick#"@, "brick_"@),
        ("http://www.w3.org/1999/02/22-rdf-syntax-ns#"@, "rdf_"@),
        ("http://www.w3.org/2002/07/owl#"@, "owl_"@),
    ]
}

/// Builds the fixed namespace table, an immutable configuration value
/// constructed at startup and passed into the normalizer.
pub fn default_prefixes() -> (r: Vec<(Vec<char>, Vec<char>)>)
    ensures
        view_table(r@) == default_prefixes_spec(),
{
    let mut v: Vec<(Vec<char>, Vec<char>)> = Vec::new();
    v.push((chars_of("https://brickschema.org/schema/Brick#"), chars_of("brick_")));
    v.push((chars_of("http://www.w3.org/1999/02/22-rdf-syntax-ns#"), chars_of("rdf_")));
    v.push((chars_of("http://www.w3.org/2002/07/owl#"), chars_of("owl_")));
    proof {
        assert(view_table(v@) =~= default_prefixes_spec());
    }
    v
}

/// Normalizes a raw term text into its display label: namespace substitution
/// in table order, then delimiter trimming.
pub fn rewrite_term(text: &str, table: &Vec<(Vec<char>, Vec<char>)>) -> (r: String)
    ensures
        r@ == rewrite_spec(text@, view_table(table@)),
{
    let cs = chars_of(text);
    let out = rewrite_chars(&cs, table);
    string_of(&out)
}

} // verus!
