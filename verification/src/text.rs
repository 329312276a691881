//! String comparison helpers: equality and lexicographic order over the
//! character sequences of strings.

use vstd::prelude::*;

verus! {

/// Lexicographic strict order on character sequences, comparing by Unicode
/// scalar value. This is the order in which project and tag listings are
/// returned.
pub open spec fn lex_lt(a: Seq<char>, b: Seq<char>) -> bool
    decreases a.len(),
{
    if b.len() == 0 {
        false
    } else if a.len() == 0 {
        true
    } else if a[0] != b[0] {
        (a[0] as u32) < (b[0] as u32)
    } else {
        lex_lt(a.subrange(1, a.len() as int), b.subrange(1, b.len() as int))
    }
}

/// Whether two string slices hold the same characters.
pub fn str_eq(a: &str, b: &str) -> (r: bool)
    ensures
        r == (a@ == b@),
{
    let alen = a.unicode_len();
    let blen = b.unicode_len();
    if alen != blen {
        proof {
            assert(a@ != b@);
        }
        return false;
    }
    let mut i: usize = 0;
    while i < alen
        invariant
            alen == a@.len(),
            alen == b@.len(),
            0 <= i <= alen,
            forall|k: int| 0 <= k < i ==> a@[k] == b@[k],
        decreases alen - i,
    {
        if a.get_char(i) != b.get_char(i) {
            return false;
        }
        i = i + 1;
    }
    proof {
        assert(a@ =~= b@);
    }
    true
}

/// Whether `a` is strictly before `b` in lexicographic order.
pub fn str_lt(a: &str, b: &str) -> (r: bool)
    ensures
        r == lex_lt(a@, b@),
{
    let alen = a.unicode_len();
    let blen = b.unicode_len();
    let mut i: usize = 0;
    proof {
        assert(a@.subrange(0, alen as int) =~= a@);
        assert(b@.subrange(0, blen as int) =~= b@);
    }
    loop
        invariant
            alen == a@.len(),
            blen == b@.len(),
            0 <= i <= alen,
            0 <= i <= blen,
            lex_lt(a@, b@) == lex_lt(
                a@.subrange(i as int, alen as int),
                b@.subrange(i as int, blen as int),
            ),
        decreases alen - i,
    {
        if i >= blen {
            proof {
                assert(b@.subrange(i as int, blen as int).len() == 0);
            }
            return false;
        }
        if i >= alen {
            proof {
                assert(a@.subrange(i as int, alen as int).len() == 0);
                assert(b@.subrange(i as int, blen as int).len() > 0);
            }
            return true;
        }
        let ca = a.get_char(i);
        let cb = b.get_char(i);
        proof {
            let sa = a@.subrange(i as int, alen as int);
            let sb = b@.subrange(i as int, blen as int);
            assert(sa[0] == a@[i as int]);
            assert(sb[0] == b@[i as int]);
            assert(sa.subrange(1, sa.len() as int) =~= a@.subrange(i + 1, alen as int));
            assert(sb.subrange(1, sb.len() as int) =~= b@.subrange(i + 1, blen as int));
        }
        if ca != cb {
            return (ca as u32) < (cb as u32);
        }
        i = i + 1;
    }
}

/// Whether `s` is strictly sorted in lexicographic order (and therefore
/// free of duplicates).
pub open spec fn sorted_unique(s: Seq<Seq<char>>) -> bool {
    forall|i: int, j: int| 0 <= i < j < s.len() ==> lex_lt(s[i], s[j])
}

/// Distinct characters have distinct Unicode scalar values.
proof fn lemma_char_cast_distinct(c: char, d: char)
    requires
        c != d,
    ensures
        (c as u32) != (d as u32),
{
}

/// Lexicographic order is total: two distinct sequences compare strictly
/// in one direction.
pub proof fn lemma_lex_trichotomy(a: Seq<char>, b: Seq<char>)
    requires
        !lex_lt(a, b),
        a != b,
    ensures
        lex_lt(b, a),
    decreases a.len(),
{
    if b.len() == 0 {
        if a.len() == 0 {
            assert(a =~= b);
        }
        assert(lex_lt(b, a));
    } else if a.len() == 0 {
        assert(lex_lt(a, b));
    } else if a[0] != b[0] {
        assert(!((a[0] as u32) < (b[0] as u32)));
        lemma_char_cast_distinct(a[0], b[0]);
        assert(lex_lt(b, a));
    } else {
        let a1 = a.subrange(1, a.len() as int);
        let b1 = b.subrange(1, b.len() as int);
        if a1 == b1 {
            assert(a1.len() == b1.len());
            assert(a.len() == b.len());
            assert forall|i: int| 0 <= i < a.len() implies a[i] == b[i] by {
                if i > 0 {
                    assert(a[i] == a1[i - 1]);
                    assert(b[i] == b1[i - 1]);
                }
            }
            assert(a =~= b);
        }
        lemma_lex_trichotomy(a1, b1);
        assert(lex_lt(b, a));
    }
}

/// Lexicographic order is transitive.
pub proof fn lemma_lex_transitive(a: Seq<char>, b: Seq<char>, c: Seq<char>)
    requires
        lex_lt(a, b),
        lex_lt(b, c),
    ensures
        lex_lt(a, c),
    decreases a.len(),
{
    if c.len() == 0 {
        assert(!lex_lt(b, c));
    } else if a.len() == 0 {
    } else {
        assert(b.len() > 0);
        if a[0] == b[0] && b[0] == c[0] {
            lemma_lex_transitive(
                a.subrange(1, a.len() as int),
                b.subrange(1, b.len() as int),
                c.subrange(1, c.len() as int),
            );
        }
    }
}

/// Places `x` into the sorted duplicate-free list `v`, keeping it sorted
/// and duplicate-free; the resulting set of strings is the old set plus
/// `x`.
pub fn insert_unique_sorted(v: &mut Vec<String>, x: String)
    requires
        sorted_unique(old(v).deep_view()),
    ensures
        sorted_unique(final(v).deep_view()),
        forall|t: Seq<char>|
            final(v).deep_view().contains(t) <==> (old(v).deep_view().contains(t) || t == x@),
{
    let ghost dv = v.deep_view();
    let mut i: usize = 0;
    while i < v.len() && str_lt(v[i].as_str(), x.as_str())
        invariant
            0 <= i <= v@.len(),
            dv == v.deep_view(),
            dv.len() == v@.len(),
            forall|k: int| 0 <= k < i ==> lex_lt(dv[k], x@),
        decreases v@.len() - i,
    {
        proof {
            assert(dv[i as int] == v@[i as int]@);
        }
        i = i + 1;
    }
    if i < v.len() && str_eq(v[i].as_str(), x.as_str()) {
        proof {
            assert(dv[i as int] == v@[i as int]@);
            assert(dv.contains(x@));
        }
        return ;
    }
    proof {
        if i < dv.len() {
            assert(dv[i as int] == v@[i as int]@);
            lemma_lex_trichotomy(dv[i as int], x@);
        }
        assert forall|k: int| i <= k < dv.len() implies lex_lt(x@, dv[k]) by {
            if k > i {
                lemma_lex_transitive(x@, dv[i as int], dv[k]);
            }
        }
    }
    v.insert(i, x);
    proof {
        let ndv = v.deep_view();
        assert(ndv =~= dv.insert(i as int, x@));
        assert forall|p: int, q: int| 0 <= p < q < ndv.len() implies lex_lt(ndv[p], ndv[q]) by {
            if q < i {
                assert(ndv[p] == dv[p] && ndv[q] == dv[q]);
            } else if p > i {
                assert(ndv[p] == dv[p - 1] && ndv[q] == dv[q - 1]);
            } else if q == i {
                assert(ndv[p] == dv[p] && ndv[q] == x@);
            } else if p == i {
                assert(ndv[p] == x@ && ndv[q] == dv[q - 1]);
            } else {
                assert(ndv[p] == dv[p] && ndv[q] == dv[q - 1]);
                lemma_lex_transitive(dv[p], x@, dv[q - 1]);
            }
        }
        assert forall|t: Seq<char>| ndv.contains(t) implies (dv.contains(t) || t == x@) by {
            let k = choose|k: int| 0 <= k < ndv.len() && ndv[k] == t;
            if k < i {
                assert(dv[k] == t);
            } else if k > i {
                assert(dv[k - 1] == t);
            }
        }
        assert forall|t: Seq<char>| dv.contains(t) implies ndv.contains(t) by {
            let k = choose|k: int| 0 <= k < dv.len() && dv[k] == t;
            if k < i {
                assert(ndv[k] == t);
            } else {
                assert(ndv[k + 1] == t);
            }
        }
        assert(ndv.contains(x@)) by {
            assert(ndv[i as int] == x@);
        }
    }
}

/// Whether the list `v` holds a string with the same characters as `s`.
pub fn contains_string(v: &Vec<String>, s: &str) -> (r: bool)
    ensures
        r == v.deep_view().contains(s@),
{
    let mut i: usize = 0;
    while i < v.len()
        invariant
            0 <= i <= v@.len(),
            forall|k: int| 0 <= k < i ==> v@[k]@ != s@,
        decreases v@.len() - i,
    {
        if str_eq(v[i].as_str(), s) {
            proof {
                assert(v.deep_view()[i as int] == v@[i as int]@);
            }
            return true;
        }
        i = i + 1;
    }
    proof {
        assert(forall|k: int| 0 <= k < v.deep_view().len() ==> v.deep_view()[k] == v@[k]@);
    }
    false
}

} // verus!
