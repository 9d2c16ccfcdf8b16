//! Sorted directory listings. The filesystem hands over entry path strings in
//! arbitrary order; this module orders them lexicographically by character
//! code, the order Rust's own string comparison induces, and proves that the
//! result is sorted and a permutation of the input.

use vstd::prelude::*;
use vstd::string::StrSliceExecFns;

verus! {

/// Lexicographic order on character sequences, by code point. The empty
/// sequence comes first; otherwise the first differing position decides.
pub open spec fn lex_le(a: Seq<char>, b: Seq<char>) -> bool
    decreases a.len(),
{
    if a.len() == 0 {
        true
    } else if b.len() == 0 {
        false
    } else if (a[0] as u32) == (b[0] as u32) {
        lex_le(a.skip(1), b.skip(1))
    } else {
        (a[0] as u32) < (b[0] as u32)
    }
}

/// `lex_le` is total: of any two sequences, one comes no later than the other.
pub proof fn lemma_lex_le_total(a: Seq<char>, b: Seq<char>)
    ensures
        lex_le(a, b) || lex_le(b, a),
    decreases a.len(),
{
    if a.len() != 0 && b.len() != 0 && (a[0] as u32) == (b[0] as u32) {
        lemma_lex_le_total(a.skip(1), b.skip(1));
    }
}

/// `lex_le` is transitive.
pub proof fn lemma_lex_le_trans(a: Seq<char>, b: Seq<char>, c: Seq<char>)
    requires
        lex_le(a, b),
        lex_le(b, c),
    ensures
        lex_le(a, c),
    decreases a.len(),
{
    if a.len() != 0 && b.len() != 0 && c.len() != 0 && (a[0] as u32) == (b[0] as u32) && (b[0]
        as u32) == (c[0] as u32) {
        lemma_lex_le_trans(a.skip(1), b.skip(1), c.skip(1));
    }
}

/// A sequence of strings in nondecreasing `lex_le` order.
pub open spec fn sorted(s: Seq<String>) -> bool {
    forall|i: int, j: int| 0 <= i < j < s.len() ==> lex_le(s[i]@, s[j]@)
}

/// Compares two strings in the order of `lex_le`.
pub fn lex_le_strings(a: &str, b: &str) -> (res: bool)
    ensures
        res == lex_le(a@, b@),
{
    let a_len = a.unicode_len();
    let b_len = b.unicode_len();
    let mut i: usize = 0;
    proof {
        assert(a@.skip(0) =~= a@);
        assert(b@.skip(0) =~= b@);
    }
    loop
        invariant
            i <= a_len,
            i <= b_len,
            a_len == a@.len(),
            b_len == b@.len(),
            lex_le(a@, b@) == lex_le(a@.skip(i as int), b@.skip(i as int)),
        decreases a_len - i,
    {
        if i == a_len {
            return true;
        }
        if i == b_len {
            return false;
        }
        let ca = a.get_char(i) as u32;
        let cb = b.get_char(i) as u32;
        if ca == cb {
            proof {
                assert(a@.skip(i as int).skip(1) =~= a@.skip(i + 1));
                assert(b@.skip(i as int).skip(1) =~= b@.skip(i + 1));
            }
            i = i + 1;
        } else {
            return ca < cb;
        }
    }
}

/// Inserts one path into an already sorted vector, keeping it sorted.
fn insert_sorted(paths: &mut Vec<String>, x: String)
    requires
        sorted(old(paths)@),
    ensures
        sorted(final(paths)@),
        final(paths)@.to_multiset() == old(paths)@.to_multiset().insert(x),
{
    let mut j: usize = 0;
    while j < paths.len() && lex_le_strings(paths[j].as_str(), x.as_str())
        invariant
            j <= paths@.len(),
            paths@ == old(paths)@,
            forall|k: int| 0 <= k < j ==> lex_le(paths@[k]@, x@),
        decreases paths@.len() - j,
    {
        j = j + 1;
    }
    proof {
        if j < paths@.len() {
            lemma_lex_le_total(paths@[j as int]@, x@);
            assert forall|k: int| j <= k < paths@.len() implies lex_le(x@, paths@[k]@) by {
                if k > j {
                    lemma_lex_le_trans(x@, paths@[j as int]@, paths@[k]@);
                }
            }
        }
        vstd::seq_lib::to_multiset_insert(paths@, j as int, x);
    }
    let ghost before = paths@;
    let ghost pos = j as int;
    paths.insert(j, x);
    proof {
        let t = paths@;
        assert forall|p: int, q: int| 0 <= p < q < t.len() implies lex_le(t[p]@, t[q]@) by {
            if q < pos {
                assert(lex_le(before[p]@, before[q]@));
            } else if p < pos && q == pos {
                assert(lex_le(before[p]@, x@));
            } else if p < pos && q > pos {
                assert(lex_le(before[p]@, before[q - 1]@));
            } else if p == pos {
                assert(lex_le(x@, before[q - 1]@));
            } else {
                assert(lex_le(before[p - 1]@, before[q - 1]@));
            }
        }
    }
}

/// Sorts directory entry paths into lexicographic order. The result holds
/// exactly the given paths, each as often as it was given.
pub fn sort_paths(paths: Vec<String>) -> (res: Vec<String>)
    ensures
        sorted(res@),
        res@.to_multiset() == paths@.to_multiset(),
{
    let mut rest = paths;
    let mut res: Vec<String> = Vec::new();
    proof {
        vstd::seq_lib::to_multiset_len(res@);
        assert forall|e: String|
            res@.to_multiset().add(rest@.to_multiset()).count(e) == rest@.to_multiset().count(
                e,
            ) by {
            assert(res@.to_multiset().count(e) <= res@.to_multiset().len());
        }
        assert(res@.to_multiset().add(rest@.to_multiset()) =~= rest@.to_multiset());
    }
    while rest.len() > 0
        invariant
            sorted(res@),
            res@.to_multiset().add(rest@.to_multiset()) == paths@.to_multiset(),
        decreases rest@.len(),
    {
        let ghost rest_before = rest@;
        let x = rest.remove(0);
        insert_sorted(&mut res, x);
        proof {
            vstd::seq_lib::to_multiset_remove(rest_before, 0);
            vstd::seq_lib::to_multiset_contains(rest_before, x);
            assert(rest_before.contains(x));
            assert(rest_before.to_multiset().count(x) > 0);
            assert(res@.to_multiset().add(rest@.to_multiset()) =~= paths@.to_multiset());
        }
    }
    proof {
        vstd::seq_lib::to_multiset_len(rest@);
        assert forall|e: String|
            res@.to_multiset().add(rest@.to_multiset()).count(e) == res@.to_multiset().count(
                e,
            ) by {
            assert(rest@.to_multiset().count(e) <= rest@.to_multiset().len());
        }
        assert(res@.to_multiset().add(rest@.to_multiset()) =~= res@.to_multiset());
    }
    res
}

/// A permutation keeps entries distinct: when the paths handed over hold no
/// duplicate, neither does any reordering of them, so a sorted listing of
/// distinct entries is itself free of duplicates.
pub proof fn lemma_permutation_keeps_distinct(a: Seq<String>, b: Seq<String>)
    requires
        a.to_multiset() == b.to_multiset(),
        a.no_duplicates(),
    ensures
        b.no_duplicates(),
{
    a.lemma_multiset_has_no_duplicates();
    b.lemma_multiset_has_no_duplicates_conv();
}

} // verus!
