//! Ordering of characters and character sequences, and sorting of vectors.
//!
//! Strings are compared lexicographically by Unicode scalar value; every
//! output list of the normalizer is sorted by this order.

use vstd::prelude::*;
use vstd::relations::{sorted_by, total_ordering};
use vstd::seq_lib::lemma_sorted_unique;

verus! {

/// Order on single characters by Unicode scalar value.
pub open spec fn char_le(a: char, b: char) -> bool {
    a as int <= b as int
}

/// The character order as a function value, for `sort_by` and `sorted_by`.
pub open spec fn char_leq() -> spec_fn(char, char) -> bool {
    |a: char, b: char| char_le(a, b)
}

/// Lexicographic order on character sequences by scalar value.
pub open spec fn lex_le(a: Seq<char>, b: Seq<char>) -> bool
    decreases a.len(),
{
    if a.len() == 0 {
        true
    } else if b.len() == 0 {
        false
    } else if (a[0] as int) < (b[0] as int) {
        true
    } else if (b[0] as int) < (a[0] as int) {
        false
    } else {
        lex_le(a.drop_first(), b.drop_first())
    }
}

/// The lexicographic order as a function value, for `sort_by` and `sorted_by`.
pub open spec fn lex_leq() -> spec_fn(Seq<char>, Seq<char>) -> bool {
    |a: Seq<char>, b: Seq<char>| lex_le(a, b)
}

pub proof fn lemma_lex_le_reflexive(a: Seq<char>)
    ensures
        lex_le(a, a),
    decreases a.len(),
{
    if a.len() > 0 {
        lemma_lex_le_reflexive(a.drop_first());
    }
}

pub proof fn lemma_lex_le_total(a: Seq<char>, b: Seq<char>)
    ensures
        lex_le(a, b) || lex_le(b, a),
    decreases a.len(),
{
    if a.len() > 0 && b.len() > 0 && a[0] == b[0] {
        lemma_lex_le_total(a.drop_first(), b.drop_first());
    }
}

pub proof fn lemma_lex_le_antisymmetric(a: Seq<char>, b: Seq<char>)
    requires
        lex_le(a, b),
        lex_le(b, a),
    ensures
        a == b,
    decreases a.len(),
{
    if a.len() == 0 {
        assert(b.len() == 0);
        assert(a =~= b);
    } else {
        assert(b.len() > 0);
        assert(a[0] == b[0]);
        lemma_lex_le_antisymmetric(a.drop_first(), b.drop_first());
        assert(a =~= seq![a[0]] + a.drop_first());
        assert(b =~= seq![b[0]] + b.drop_first());
        assert(a =~= b);
    }
}

pub proof fn lemma_lex_le_transitive(a: Seq<char>, b: Seq<char>, c: Seq<char>)
    requires
        lex_le(a, b),
        lex_le(b, c),
    ensures
        lex_le(a, c),
    decreases a.len(),
{
    if a.len() > 0 && b.len() > 0 && c.len() > 0 && a[0] == b[0] && b[0] == c[0] {
        lemma_lex_le_transitive(a.drop_first(), b.drop_first(), c.drop_first());
    }
}

/// The lexicographic order is a total order, so sorting by it is
/// well-behaved and the sorted form of a multiset is unique.
pub proof fn lemma_lex_leq_total_ordering()
    ensures
        total_ordering(lex_leq()),
{
    let leq = lex_leq();
    assert forall|a: Seq<char>| #[trigger] leq(a, a) by {
        lemma_lex_le_reflexive(a);
    }
    assert forall|a: Seq<char>, b: Seq<char>| #[trigger] leq(a, b) && #[trigger] leq(b, a)
        implies a == b by {
        lemma_lex_le_antisymmetric(a, b);
    }
    assert forall|a: Seq<char>, b: Seq<char>, c: Seq<char>|
        #[trigger] leq(a, b) && #[trigger] leq(b, c) implies leq(a, c) by {
        lemma_lex_le_transitive(a, b, c);
    }
    assert forall|a: Seq<char>, b: Seq<char>| #[trigger] leq(a, b) || #[trigger] leq(b, a) by {
        lemma_lex_le_total(a, b);
    }
}

pub proof fn lemma_char_leq_total_ordering()
    ensures
        total_ordering(char_leq()),
{
}

/// Lexicographic comparison of two strings, by Unicode scalar value.
pub fn str_le(a: &str, b: &str) -> (r: bool)
    ensures
        r == lex_le(a@, b@),
{
    let a_len = a.unicode_len();
    let b_len = b.unicode_len();
    proof {
        assert(a@.skip(0) =~= a@);
        assert(b@.skip(0) =~= b@);
    }
    let mut i: usize = 0;
    loop
        invariant
            i <= a_len,
            i <= b_len,
            a_len == a@.len(),
            b_len == b@.len(),
            lex_le(a@, b@) == lex_le(a@.skip(i as int), b@.skip(i as int)),
        decreases a_len - i,
    {
        if i == a_len {
            return true;
        }
        if i == b_len {
            return false;
        }
        let ca = a.get_char(i);
        let cb = b.get_char(i);
        proof {
            assert(a@.skip(i as int)[0] == a@[i as int]);
            assert(b@.skip(i as int)[0] == b@[i as int]);
        }
        if ca < cb {
            return true;
        }
        if cb < ca {
            return false;
        }
        proof {
            assert(a@.skip(i as int).drop_first() =~= a@.skip(i as int + 1));
            assert(b@.skip(i as int).drop_first() =~= b@.skip(i as int + 1));
        }
        i = i + 1;
    }
}

/// Equality of two strings, as equality of their character sequences.
pub fn str_eq(a: &str, b: &str) -> (r: bool)
    ensures
        r == (a@ == b@),
{
    let a_len = a.unicode_len();
    let b_len = b.unicode_len();
    if a_len != b_len {
        proof {
            assert(a@ != b@);
        }
        return false;
    }
    let mut i: usize = 0;
    while i < a_len
        invariant
            i <= a_len,
            a_len == a@.len(),
            a_len == b@.len(),
            forall|j: int| 0 <= j < i ==> a@[j] == b@[j],
        decreases a_len - i,
    {
        if a.get_char(i) != b.get_char(i) {
            return false;
        }
        i = i + 1;
    }
    proof {
        assert(a@ =~= b@);
    }
    true
}

/// Whether a vector of strings holds a string with the given characters.
pub fn contains_str(v: &Vec<String>, s: &str) -> (r: bool)
    ensures
        r == v.deep_view().contains(s@),
{
    let mut i: usize = 0;
    while i < v.len()
        invariant
            i <= v.len(),
            forall|j: int| 0 <= j < i ==> v.deep_view()[j] != s@,
        decreases v.len() - i,
    {
        proof {
            assert(v.deep_view()[i as int] == v@[i as int]@);
        }
        if str_eq(v[i].as_str(), s) {
            proof {
                assert(v.deep_view()[i as int] == s@);
            }
            return true;
        }
        i = i + 1;
    }
    proof {
        assert(forall|j: int| 0 <= j < v.deep_view().len() ==> v.deep_view()[j] != s@);
    }
    false
}

/// Sorts a vector of strings by the lexicographic order.
pub fn sort_strings(v: &Vec<String>) -> (r: Vec<String>)
    ensures
        r.deep_view() == v.deep_view().sort_by(lex_leq()),
{
    broadcast use vstd::seq_lib::group_to_multiset_ensures;

    let mut out: Vec<String> = Vec::new();
    proof {
        assert(out.deep_view() =~= Seq::<Seq<char>>::empty());
        assert(v.deep_view().take(0) =~= Seq::<Seq<char>>::empty());
    }
    let mut i: usize = 0;
    while i < v.len()
        invariant
            i <= v.len(),
            sorted_by(out.deep_view(), lex_leq()),
            out.deep_view().to_multiset() == v.deep_view().take(i as int).to_multiset(),
        decreases v.len() - i,
    {
        let s = v[i].clone();
        proof {
            assert(s@ == v.deep_view()[i as int]);
        }
        let mut j: usize = 0;
        while j < out.len() && str_le(out[j].as_str(), s.as_str())
            invariant
                j <= out.len(),
                forall|k: int| 0 <= k < j ==> lex_le(out.deep_view()[k], s@),
            decreases out.len() - j,
        {
            proof {
                assert(out.deep_view()[j as int] == out@[j as int]@);
            }
            j = j + 1;
        }
        proof {
            if j < out.len() {
                assert(out.deep_view()[j as int] == out@[j as int]@);
                lemma_lex_le_total(out.deep_view()[j as int], s@);
                assert(lex_le(s@, out.deep_view()[j as int]));
            }
        }
        let ghost old_deep = out.deep_view();
        out.insert(j, s);
        proof {
            let new_deep = out.deep_view();
            assert(new_deep =~= old_deep.insert(j as int, s@));
            let jj = j as int;
            assert forall|p: int, q: int| 0 <= p < q < new_deep.len()
                implies #[trigger] lex_leq()(new_deep[p], new_deep[q]) by {
                if q < jj {
                    assert(lex_leq()(old_deep[p], old_deep[q]));
                } else if p < jj && q == jj {
                    assert(new_deep[p] == old_deep[p]);
                    assert(new_deep[q] == s@);
                    assert(lex_le(old_deep[p], s@));
                } else if p == jj && q > jj {
                    assert(new_deep[q] == old_deep[q - 1]);
                    assert(lex_le(s@, old_deep[jj]));
                    if q - 1 > jj {
                        assert(lex_leq()(old_deep[jj], old_deep[q - 1]));
                        lemma_lex_le_transitive(s@, old_deep[jj], old_deep[q - 1]);
                    }
                } else if p < jj && q > jj {
                    assert(new_deep[p] == old_deep[p]);
                    assert(new_deep[q] == old_deep[q - 1]);
                    assert(lex_le(old_deep[p], s@));
                    if q - 1 > p {
                        assert(lex_leq()(old_deep[p], old_deep[q - 1]));
                    } else {
                        lemma_lex_le_reflexive(old_deep[p]);
                    }
                } else {
                    assert(p > jj || (p == jj && q == jj));
                    assert(lex_leq()(old_deep[p - 1], old_deep[q - 1]));
                }
            }
            assert(new_deep.to_multiset() =~= old_deep.to_multiset().insert(s@)) by {
                vstd::seq_lib::to_multiset_insert(old_deep, j as int, s@);
            }
            let taken = v.deep_view().take(i as int);
            let t1 = v.deep_view().take(i as int + 1);
            assert(t1 =~= taken.push(s@));
            assert(t1.to_multiset() =~= taken.to_multiset().insert(s@)) by {
                vstd::seq_lib::to_multiset_build(taken, s@);
            }
            assert(new_deep.to_multiset() =~= t1.to_multiset());
        }
        i = i + 1;
    }
    proof {
        assert(v.deep_view().take(v.len() as int) =~= v.deep_view());
        lemma_lex_leq_total_ordering();
        v.deep_view().lemma_sort_by_ensures(lex_leq());
        lemma_sorted_unique(out.deep_view(), v.deep_view().sort_by(lex_leq()), lex_leq());
    }
    out
}

/// Sorts a vector of characters by scalar value.
pub fn sort_chars(v: &Vec<char>) -> (r: Vec<char>)
    ensures
        r@ == v@.sort_by(char_leq()),
{
    broadcast use vstd::seq_lib::group_to_multiset_ensures;

    let mut out: Vec<char> = Vec::new();
    proof {
        assert(out@ =~= Seq::<char>::empty());
        assert(v@.take(0) =~= Seq::<char>::empty());
    }
    let mut i: usize = 0;
    while i < v.len()
        invariant
            i <= v.len(),
            sorted_by(out@, char_leq()),
            out@.to_multiset() == v@.take(i as int).to_multiset(),
        decreases v.len() - i,
    {
        let c = v[i];
        let mut j: usize = 0;
        while j < out.len() && out[j] <= c
            invariant
                j <= out.len(),
                forall|k: int| 0 <= k < j ==> char_le(out@[k], c),
            decreases out.len() - j,
        {
            j = j + 1;
        }
        proof {
            if j < out.len() {
                assert(char_le(c, out@[j as int]));
            }
        }
        let ghost old_seq = out@;
        out.insert(j, c);
        proof {
            assert(out@ =~= old_seq.insert(j as int, c));
            let jj = j as int;
            assert forall|p: int, q: int| 0 <= p < q < out@.len()
                implies #[trigger] char_leq()(out@[p], out@[q]) by {
                if q < jj {
                    assert(char_leq()(old_seq[p], old_seq[q]));
                } else if p < jj && q == jj {
                    assert(char_le(old_seq[p], c));
                } else if p == jj && q > jj {
                    assert(char_le(c, old_seq[jj]));
                    if q - 1 > jj {
                        assert(char_leq()(old_seq[jj], old_seq[q - 1]));
                    }
                } else if p < jj && q > jj {
                    assert(char_le(old_seq[p], c));
                    if q - 1 > p {
                        assert(char_leq()(old_seq[p], old_seq[q - 1]));
                    }
                } else {
                    assert(p > jj);
                    assert(char_leq()(old_seq[p - 1], old_seq[q - 1]));
                }
            }
            assert(out@.to_multiset() =~= old_seq.to_multiset().insert(c)) by {
                vstd::seq_lib::to_multiset_insert(old_seq, j as int, c);
            }
            let taken = v@.take(i as int);
            let t1 = v@.take(i as int + 1);
            assert(t1 =~= taken.push(c));
            assert(t1.to_multiset() =~= taken.to_multiset().insert(c)) by {
                vstd::seq_lib::to_multiset_build(taken, c);
            }
            assert(out@.to_multiset() =~= t1.to_multiset());
        }
        i = i + 1;
    }
    proof {
        assert(v@.take(v.len() as int) =~= v@);
        lemma_char_leq_total_ordering();
        v@.lemma_sort_by_ensures(char_leq());
        lemma_sorted_unique(out@, v@.sort_by(char_leq()), char_leq());
    }
    out
}

} // verus!
