//! Sequences of names, compared by their text, and the order-keeping
//! de-duplication that both state discovery and timeout analysis use.

use vstd::prelude::*;

verus! {

/// Some element of `s` has the text `x`.
pub open spec fn has_name(s: Seq<String>, x: Seq<char>) -> bool {
    exists|i: int| 0 <= i < s.len() && #[trigger] s[i]@ == x
}

/// `s` without repeated texts: each text is kept at its first occurrence.
pub open spec fn dedup_names(s: Seq<String>) -> Seq<String>
    decreases s.len(),
{
    if s.len() == 0 {
        Seq::empty()
    } else {
        let d = dedup_names(s.drop_last());
        if has_name(d, s.last()@) {
            d
        } else {
            d.push(s.last())
        }
    }
}

/// No two elements of `s` have the same text.
pub open spec fn names_distinct(s: Seq<String>) -> bool {
    forall|i: int, j: int| 0 <= i < s.len() && 0 <= j < s.len() && i != j ==> #[trigger] s[i]@ != #[trigger] s[j]@
}

/// De-duplication keeps exactly the texts of its input, each once, and only
/// elements that occur in its input.
pub proof fn lemma_dedup_names(s: Seq<String>)
    ensures
        forall|x: Seq<char>| #[trigger] has_name(dedup_names(s), x) <==> has_name(s, x),
        names_distinct(dedup_names(s)),
        forall|k: int| 0 <= k < dedup_names(s).len() ==> #[trigger] s.contains(dedup_names(s)[k]),
        dedup_names(s).len() <= s.len(),
    decreases s.len(),
{
    if s.len() > 0 {
        let p = s.drop_last();
        lemma_dedup_names(p);
        let d = dedup_names(p);
        assert(dedup_names(s) == (if has_name(d, s.last()@) { d } else { d.push(s.last()) }));
        assert forall|x: Seq<char>| #[trigger] has_name(dedup_names(s), x) <==> has_name(s, x) by {
            if has_name(s, x) {
                let i = choose|i: int| 0 <= i < s.len() && #[trigger] s[i]@ == x;
                if i < s.len() - 1 {
                    assert(p[i]@ == x);
                    assert(has_name(p, x));
                    assert(has_name(d, x));
                    let j = choose|j: int| 0 <= j < d.len() && #[trigger] d[j]@ == x;
                    assert(dedup_names(s)[j]@ == x);
                } else {
                    assert(s.last()@ == x);
                    if !has_name(d, x) {
                        assert(dedup_names(s)[d.len() as int]@ == x);
                    }
                }
            }
            if has_name(dedup_names(s), x) {
                let i = choose|i: int| 0 <= i < dedup_names(s).len() && #[trigger] dedup_names(s)[i]@ == x;
                if i < d.len() {
                    assert(d[i]@ == x);
                    assert(has_name(d, x));
                    assert(has_name(p, x));
                    let k = choose|k: int| 0 <= k < p.len() && #[trigger] p[k]@ == x;
                    assert(s[k]@ == x);
                } else {
                    assert(s[s.len() - 1]@ == x);
                }
            }
        }
        assert forall|k: int| 0 <= k < dedup_names(s).len() implies #[trigger] s.contains(dedup_names(s)[k]) by {
            if k < d.len() {
                assert(p.contains(d[k]));
                let m = choose|m: int| 0 <= m < p.len() && p[m] == d[k];
                assert(s[m] == d[k]);
            } else {
                assert(s[s.len() - 1] == dedup_names(s)[k]);
            }
        }
    }
}

/// `start` followed by the elements of `s` whose texts are not yet present,
/// each at its first occurrence.
pub open spec fn dedup_names_onto(start: Seq<String>, s: Seq<String>) -> Seq<String>
    decreases s.len(),
{
    if s.len() == 0 {
        start
    } else {
        let d = dedup_names_onto(start, s.drop_last());
        if has_name(d, s.last()@) {
            d
        } else {
            d.push(s.last())
        }
    }
}

/// Adding two runs of names one after the other is adding their
/// concatenation.
pub proof fn lemma_dedup_onto_concat(start: Seq<String>, a: Seq<String>, b: Seq<String>)
    ensures
        dedup_names_onto(start, a + b) == dedup_names_onto(dedup_names_onto(start, a), b),
    decreases b.len(),
{
    if b.len() == 0 {
        assert(a + b == a);
    } else {
        assert((a + b).drop_last() == a + b.drop_last());
        assert((a + b).last() == b.last());
        lemma_dedup_onto_concat(start, a, b.drop_last());
    }
}

/// Adding names to nothing is de-duplicating them.
pub proof fn lemma_dedup_onto_empty(s: Seq<String>)
    ensures
        dedup_names_onto(Seq::empty(), s) == dedup_names(s),
    decreases s.len(),
{
    if s.len() > 0 {
        lemma_dedup_onto_empty(s.drop_last());
    }
}

/// Whether some element of `v` has the text of `name`.
pub fn contains_name(v: &Vec<String>, name: &String) -> (b: bool)
    ensures
        b == has_name(v@, name@),
{
    let mut i: usize = 0;
    while i < v.len()
        invariant
            i <= v.len(),
            forall|k: int| 0 <= k < i ==> #[trigger] v@[k]@ != name@,
        decreases v.len() - i,
    {
        if v[i] == *name {
            return true;
        }
        i += 1;
    }
    false
}

/// Appends `name` to `v` unless `v` already holds its text.
pub fn push_name_once(v: &mut Vec<String>, name: &String)
    ensures
        final(v)@ == (if has_name(old(v)@, name@) { old(v)@ } else { old(v)@.push(*name) }),
{
    if !contains_name(v, name) {
        v.push(name.clone());
    }
}

} // verus!
