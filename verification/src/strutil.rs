//! String order and substring containment, the character-level groundwork for
//! key derivation and entry filtering.

use vstd::prelude::*;

verus! {

use vstd::multiset::Multiset;

/// Lexicographic "less or equal" on character sequences, ordering characters
/// by Unicode scalar value. This is the order `str` comparison uses, since
/// UTF-8 byte order agrees with scalar-value order.
pub open spec fn lex_le(a: Seq<char>, b: Seq<char>) -> bool
    decreases a.len(),
{
    if a.len() == 0 {
        true
    } else if b.len() == 0 {
        false
    } else if a[0] as u32 != b[0] as u32 {
        (a[0] as u32) < (b[0] as u32)
    } else {
        lex_le(a.drop_first(), b.drop_first())
    }
}

/// `pat` occurs in `s` starting at position `i`.
pub open spec fn is_substring_at(s: Seq<char>, pat: Seq<char>, i: int) -> bool {
    0 <= i && i + pat.len() <= s.len() && s.subrange(i, i + pat.len()) == pat
}

/// `pat` occurs somewhere in `s` (the empty sequence occurs in every `s`).
pub open spec fn has_substring(s: Seq<char>, pat: Seq<char>) -> bool {
    exists|i: int| is_substring_at(s, pat, i)
}

/// Any two character sequences are ordered one way or the other.
pub proof fn lemma_lex_le_total(a: Seq<char>, b: Seq<char>)
    ensures
        lex_le(a, b) || lex_le(b, a),
    decreases a.len(),
{
    if a.len() > 0 && b.len() > 0 && a[0] as u32 == b[0] as u32 {
        lemma_lex_le_total(a.drop_first(), b.drop_first());
    }
}

/// The lexicographic order is transitive.
pub proof fn lemma_lex_le_trans(a: Seq<char>, b: Seq<char>, c: Seq<char>)
    requires
        lex_le(a, b),
        lex_le(b, c),
    ensures
        lex_le(a, c),
    decreases a.len(),
{
    if a.len() > 0 && b.len() > 0 && c.len() > 0 && a[0] as u32 == b[0] as u32
        && b[0] as u32 == c[0] as u32 {
        lemma_lex_le_trans(a.drop_first(), b.drop_first(), c.drop_first());
    }
}

/// Sequences ordered both ways are equal.
pub proof fn lemma_lex_le_antisym(a: Seq<char>, b: Seq<char>)
    requires
        lex_le(a, b),
        lex_le(b, a),
    ensures
        a == b,
    decreases a.len(),
{
    if a.len() == 0 {
        assert(b.len() == 0);
        assert(a =~= b);
    } else {
        assert(b.len() > 0);
        assert(a[0] as u32 == b[0] as u32);
        vstd::utf8::char_u32_cast(a[0], a[0] as u32);
        vstd::utf8::char_u32_cast(b[0], b[0] as u32);
        assert(a[0] == b[0]);
        lemma_lex_le_antisym(a.drop_first(), b.drop_first());
        assert(a.len() == b.len()) by {
            assert(a.drop_first().len() == b.drop_first().len());
        }
        assert forall|i: int| 0 <= i < a.len() implies a[i] == b[i] by {
            if i > 0 {
                assert(a[i] == a.drop_first()[i - 1]);
                assert(b[i] == b.drop_first()[i - 1]);
            }
        }
        assert(a =~= b);
    }
}

/// Insert `x` into `s` in front of the first element that `x` is
/// `lex_le`-below.
pub open spec fn insert_str_sorted(x: Seq<char>, s: Seq<Seq<char>>) -> Seq<Seq<char>>
    decreases s.len(),
{
    if s.len() == 0 {
        seq![x]
    } else if lex_le(x, s[0]) {
        seq![x] + s
    } else {
        seq![s[0]] + insert_str_sorted(x, s.drop_first())
    }
}

/// Insertion sort by `lex_le`, inserting the elements left to right.
pub open spec fn sort_strs(s: Seq<Seq<char>>) -> Seq<Seq<char>>
    decreases s.len(),
{
    if s.len() == 0 {
        Seq::empty()
    } else {
        insert_str_sorted(s.last(), sort_strs(s.drop_last()))
    }
}

/// The elements of `s` joined with the separator `sep` between them.
pub open spec fn join_with(s: Seq<Seq<char>>, sep: char) -> Seq<char>
    decreases s.len(),
{
    if s.len() == 0 {
        Seq::empty()
    } else if s.len() == 1 {
        s[0]
    } else {
        s[0] + seq![sep] + join_with(s.drop_first(), sep)
    }
}

/// Inserting at the position the insertion-point conditions describe is what
/// `insert_str_sorted` does.
pub proof fn lemma_insert_str_sorted_at(x: Seq<char>, s: Seq<Seq<char>>, idx: int)
    requires
        0 <= idx <= s.len(),
        forall|j: int| 0 <= j < idx ==> !lex_le(x, s[j]),
        idx < s.len() ==> lex_le(x, s[idx]),
    ensures
        insert_str_sorted(x, s) == s.subrange(0, idx) + seq![x] + s.subrange(
            idx,
            s.len() as int,
        ),
    decreases s.len(),
{
    if s.len() == 0 {
        assert(s.subrange(0, 0) + seq![x] + s.subrange(0, 0) =~= seq![x]);
    } else if idx == 0 {
        assert(s.subrange(0, s.len() as int) =~= s);
        assert(s.subrange(0, 0) + seq![x] + s.subrange(0, s.len() as int) =~= seq![x] + s);
    } else {
        assert(!lex_le(x, s[0]));
        assert(forall|j: int|
            0 <= j < idx - 1 ==> !lex_le(x, #[trigger] s.drop_first()[j]));
        lemma_insert_str_sorted_at(x, s.drop_first(), idx - 1);
        assert(insert_str_sorted(x, s) =~= s.subrange(0, idx) + seq![x] + s.subrange(
            idx,
            s.len() as int,
        )) by {
            assert(forall|j: int|
                0 <= j < s.len() - 1 ==> #[trigger] s.drop_first()[j] == s[j + 1]);
        }
    }
}

/// `s` is sorted by `lex_le`.
pub open spec fn strs_sorted(s: Seq<Seq<char>>) -> bool {
    forall|i: int, j: int| 0 <= i <= j < s.len() ==> lex_le(s[i], s[j])
}

/// Inserting into a sorted sequence keeps it sorted and adds exactly the
/// new element.
pub proof fn lemma_insert_str_sorted_props(x: Seq<char>, s: Seq<Seq<char>>)
    requires
        strs_sorted(s),
    ensures
        strs_sorted(insert_str_sorted(x, s)),
        insert_str_sorted(x, s).to_multiset() == s.to_multiset().insert(x),
    decreases s.len(),
{
    broadcast use vstd::seq_lib::group_to_multiset_ensures;
    broadcast use vstd::multiset::group_multiset_axioms;

    let r = insert_str_sorted(x, s);
    lemma_lex_le_total(x, x);
    if s.len() == 0 {
        assert(r =~= Seq::<Seq<char>>::empty().push(x));
        assert(Seq::<Seq<char>>::empty().to_multiset() =~= Multiset::<Seq<char>>::empty());
        assert(r.to_multiset() =~= s.to_multiset().insert(x));
    } else if lex_le(x, s[0]) {
        assert(r =~= s.insert(0, x));
        assert forall|i: int, j: int| 0 <= i <= j < r.len() implies lex_le(r[i], r[j]) by {
            if i == 0 && j > 0 {
                lemma_lex_le_trans(x, s[0], s[j - 1]);
            }
        }
    } else {
        lemma_lex_le_total(x, s[0]);
        assert(lex_le(s[0], x));
        let rest = s.drop_first();
        assert(strs_sorted(rest)) by {
            assert(forall|i: int| 0 <= i < rest.len() ==> rest[i] == s[i + 1]);
        }
        lemma_insert_str_sorted_props(x, rest);
        let ri = insert_str_sorted(x, rest);
        assert(r =~= ri.insert(0, s[0]));
        assert(s =~= rest.insert(0, s[0]));
        assert(r.to_multiset() =~= s.to_multiset().insert(x)) by {
            assert(r.to_multiset() == ri.to_multiset().insert(s[0]));
            assert(s.to_multiset() == rest.to_multiset().insert(s[0]));
        }
        assert forall|i: int, j: int| 0 <= i <= j < r.len() implies lex_le(r[i], r[j]) by {
            if i == 0 && j > 0 {
                let v = ri[j - 1];
                assert(ri.contains(v));
                assert(ri.to_multiset().count(v) > 0);
                if v == x {
                } else {
                    assert(rest.to_multiset().count(v) > 0);
                    assert(rest.contains(v));
                    let k = choose|k: int| 0 <= k < rest.len() && rest[k] == v;
                    assert(lex_le(s[0], s[k + 1]));
                }
                assert(r[j] == v);
            } else if i > 0 {
                assert(lex_le(ri[i - 1], ri[j - 1]));
            }
        }
    }
}

/// The insertion sort sorts, and keeps exactly the members it was given.
pub proof fn lemma_sort_strs_props(s: Seq<Seq<char>>)
    ensures
        strs_sorted(sort_strs(s)),
        sort_strs(s).to_multiset() == s.to_multiset(),
    decreases s.len(),
{
    broadcast use vstd::seq_lib::group_to_multiset_ensures;

    if s.len() > 0 {
        lemma_sort_strs_props(s.drop_last());
        lemma_insert_str_sorted_props(s.last(), sort_strs(s.drop_last()));
        assert(s =~= s.drop_last().push(s.last()));
    }
}

/// Two sorted sequences with the same members are the same sequence.
pub proof fn lemma_sorted_strs_unique(a: Seq<Seq<char>>, b: Seq<Seq<char>>)
    requires
        strs_sorted(a),
        strs_sorted(b),
        a.to_multiset() == b.to_multiset(),
    ensures
        a == b,
    decreases a.len(),
{
    broadcast use vstd::seq_lib::group_to_multiset_ensures;
    broadcast use vstd::multiset::group_multiset_axioms;

    if a.len() == 0 {
        assert(b.to_multiset().len() == 0);
        assert(a =~= b);
    } else {
        assert(b.to_multiset().len() == a.len());
        assert(b.len() == a.len());
        assert(a.contains(a[0]));
        assert(a.to_multiset().count(a[0]) > 0);
        assert(b.to_multiset().count(a[0]) > 0);
        assert(b.contains(a[0]));
        let ib = choose|i: int| 0 <= i < b.len() && b[i] == a[0];
        assert(b.contains(b[0]));
        assert(b.to_multiset().count(b[0]) > 0);
        assert(a.to_multiset().count(b[0]) > 0);
        assert(a.contains(b[0]));
        let ia = choose|i: int| 0 <= i < a.len() && a[i] == b[0];
        assert(lex_le(a[0], b[0])) by {
            assert(lex_le(a[0], a[ia]));
        }
        assert(lex_le(b[0], a[0])) by {
            assert(lex_le(b[0], b[ib]));
        }
        lemma_lex_le_antisym(a[0], b[0]);
        let at = a.drop_first();
        let bt = b.drop_first();
        assert(at =~= a.remove(0));
        assert(bt =~= b.remove(0));
        assert(at.to_multiset() == a.to_multiset().remove(a[0]));
        assert(bt.to_multiset() == b.to_multiset().remove(b[0]));
        assert(strs_sorted(at)) by {
            assert(forall|i: int| 0 <= i < at.len() ==> at[i] == a[i + 1]);
        }
        assert(strs_sorted(bt)) by {
            assert(forall|i: int| 0 <= i < bt.len() ==> bt[i] == b[i + 1]);
        }
        lemma_sorted_strs_unique(at, bt);
        assert forall|i: int| 0 <= i < a.len() implies a[i] == b[i] by {
            if i > 0 {
                assert(a[i] == at[i - 1]);
                assert(b[i] == bt[i - 1]);
            }
        }
        assert(a =~= b);
    }
}

/// Appending one more element extends the join by a separator and that
/// element.
pub proof fn lemma_join_with_push(s: Seq<Seq<char>>, x: Seq<char>, sep: char)
    ensures
        join_with(s.push(x), sep) == if s.len() == 0 {
            x
        } else {
            join_with(s, sep) + seq![sep] + x
        },
    decreases s.len(),
{
    if s.len() == 0 {
        assert(s.push(x)[0] == x);
    } else {
        assert(s.push(x).drop_first() =~= s.drop_first().push(x));
        lemma_join_with_push(s.drop_first(), x, sep);
        assert(s.push(x)[0] == s[0]);
        if s.len() == 1 {
            assert(join_with(s.push(x), sep) == s[0] + seq![sep] + x);
            assert(join_with(s, sep) == s[0]);
        } else {
            assert(s[0] + seq![sep] + (join_with(s.drop_first(), sep) + seq![sep] + x) =~= (s[0]
                + seq![sep] + join_with(s.drop_first(), sep)) + seq![sep] + x);
        }
    }
}

/// Decides `lex_le` on two string slices, character by character.
pub fn lex_le_exec(a: &str, b: &str) -> (r: bool)
    ensures
        r == lex_le(a@, b@),
{
    let a_len = a.unicode_len();
    let b_len = b.unicode_len();
    let mut i: usize = 0;
    proof {
        assert(a@.skip(0) =~= a@);
        assert(b@.skip(0) =~= b@);
    }
    loop
        invariant
            a_len == a@.len(),
            b_len == b@.len(),
            i <= a_len,
            i <= b_len,
            lex_le(a@, b@) == lex_le(a@.skip(i as int), b@.skip(i as int)),
        decreases a_len - i,
    {
        if i >= a_len {
            return true;
        }
        if i >= b_len {
            return false;
        }
        let ca = a.get_char(i);
        let cb = b.get_char(i);
        if ca as u32 != cb as u32 {
            return (ca as u32) < (cb as u32);
        }
        proof {
            assert(a@.skip(i as int).drop_first() =~= a@.skip(i + 1));
            assert(b@.skip(i as int).drop_first() =~= b@.skip(i + 1));
        }
        i += 1;
    }
}

/// An owned copy of a string vector that provably keeps its contents.
pub fn clone_strings(v: &Vec<String>) -> (r: Vec<String>)
    ensures
        r@ == v@,
{
    let mut r: Vec<String> = Vec::new();
    let mut i: usize = 0;
    while i < v.len()
        invariant
            i <= v@.len(),
            r@ == v@.subrange(0, i as int),
        decreases v@.len() - i,
    {
        r.push(v[i].clone());
        proof {
            assert(r@ =~= v@.subrange(0, i + 1));
        }
        i += 1;
    }
    proof {
        assert(v@.subrange(0, v@.len() as int) =~= v@);
    }
    r
}

/// Decides equality of two string slices, character by character.
pub fn str_eq(a: &str, b: &str) -> (r: bool)
    ensures
        r == (a@ == b@),
{
    let a_len = a.unicode_len();
    let b_len = b.unicode_len();
    if a_len != b_len {
        return false;
    }
    let mut i: usize = 0;
    while i < a_len
        invariant
            a_len == a@.len(),
            a_len == b@.len(),
            i <= a_len,
            forall|j: int| 0 <= j < i ==> a@[j] == b@[j],
        decreases a_len - i,
    {
        let ca = a.get_char(i);
        let cb = b.get_char(i);
        if ca != cb {
            return false;
        }
        i += 1;
    }
    proof {
        assert(a@ =~= b@);
    }
    true
}

/// Decides whether `pat` occurs in `s` as a contiguous substring.
pub fn contains_substr(s: &str, pat: &str) -> (r: bool)
    ensures
        r == has_substring(s@, pat@),
{
    let n = s.unicode_len();
    let m = pat.unicode_len();
    if m > n {
        proof {
            assert(forall|i: int| !is_substring_at(s@, pat@, i));
        }
        return false;
    }
    if m == 0 {
        proof {
            assert(s@.subrange(0, 0) =~= pat@);
            assert(is_substring_at(s@, pat@, 0));
        }
        return true;
    }
    let mut i: usize = 0;
    while i <= n - m
        invariant
            n == s@.len(),
            m == pat@.len(),
            0 < m <= n,
            i <= n - m + 1,
            forall|j: int| 0 <= j < i ==> !is_substring_at(s@, pat@, j),
        decreases n - i,
    {
        let mut k: usize = 0;
        let mut mismatch = false;
        while k < m
            invariant
                n == s@.len(),
                m == pat@.len(),
                i + m <= n,
                k <= m,
                !mismatch ==> forall|j: int| 0 <= j < k ==> s@[i + j] == pat@[j],
                mismatch ==> !is_substring_at(s@, pat@, i as int),
            decreases m - k,
        {
            if !mismatch {
                let cs = s.get_char(i + k);
                let cp = pat.get_char(k);
                if cs as u32 != cp as u32 {
                    proof {
                        assert(s@.subrange(i as int, i + m as int)[k as int] == s@[i + k]);
                    }
                    mismatch = true;
                }
            }
            k += 1;
        }
        if !mismatch {
            proof {
                assert(s@.subrange(i as int, i + m as int) =~= pat@);
                assert(is_substring_at(s@, pat@, i as int));
            }
            return true;
        }
        i += 1;
    }
    proof {
        assert(forall|j: int| is_substring_at(s@, pat@, j) ==> 0 <= j && j <= n - m);
        assert(forall|j: int| 0 <= j <= n - m ==> !is_substring_at(s@, pat@, j));
    }
    false
}

/// The first position of `v` whose element `x` is `lex_le`-below, or
/// `v.len()` when there is none.
fn find_insert_pos(v: &Vec<String>, x: &String) -> (idx: usize)
    ensures
        idx <= v@.len(),
        forall|j: int| 0 <= j < idx ==> !lex_le(x@, v.deep_view()[j]),
        idx < v@.len() ==> lex_le(x@, v.deep_view()[idx as int]),
{
    let mut idx: usize = 0;
    while idx < v.len()
        invariant
            idx <= v@.len(),
            forall|j: int| 0 <= j < idx ==> !lex_le(x@, v.deep_view()[j]),
        decreases v@.len() - idx,
    {
        if lex_le_exec(x.as_str(), v[idx].as_str()) {
            return idx;
        }
        idx += 1;
    }
    idx
}

/// Inserts `x` into the sorted vector `v`, keeping it sorted.
fn insert_string_sorted(v: &mut Vec<String>, x: String)
    ensures
        final(v).deep_view() == insert_str_sorted(x@, old(v).deep_view()),
{
    let idx = find_insert_pos(v, &x);
    proof {
        lemma_insert_str_sorted_at(x@, v.deep_view(), idx as int);
    }
    v.insert(idx, x);
    proof {
        assert(final(v).deep_view() =~= old(v).deep_view().subrange(0, idx as int) + seq![x@]
            + old(v).deep_view().subrange(idx as int, old(v).deep_view().len() as int));
    }
}

/// Sorts the strings of `v` into `lex_le` order by insertion.
pub fn sort_strings(v: &Vec<String>) -> (r: Vec<String>)
    ensures
        r.deep_view() == sort_strs(v.deep_view()),
        strs_sorted(r.deep_view()),
        r.deep_view().to_multiset() == v.deep_view().to_multiset(),
{
    proof {
        lemma_sort_strs_props(v.deep_view());
    }
    let mut out: Vec<String> = Vec::new();
    let mut i: usize = 0;
    proof {
        assert(v.deep_view().subrange(0, 0) =~= Seq::<Seq<char>>::empty());
        assert(out.deep_view() =~= Seq::<Seq<char>>::empty());
    }
    while i < v.len()
        invariant
            i <= v@.len(),
            out.deep_view() == sort_strs(v.deep_view().subrange(0, i as int)),
        decreases v@.len() - i,
    {
        let x = v[i].clone();
        insert_string_sorted(&mut out, x);
        proof {
            let dv = v.deep_view();
            let prefix = dv.subrange(0, i as int);
            assert(dv.subrange(0, i + 1).drop_last() =~= prefix);
            assert(dv.subrange(0, i + 1).last() == dv[i as int]);
        }
        i += 1;
    }
    proof {
        assert(v.deep_view().subrange(0, v.deep_view().len() as int) =~= v.deep_view());
    }
    out
}

/// Joins the strings of `v` with a comma between neighbours.
pub fn join_comma(v: &Vec<String>) -> (r: String)
    ensures
        r@ == join_with(v.deep_view(), ','),
{
    proof {
        reveal_strlit(",");
    }
    let mut r = String::new();
    let mut i: usize = 0;
    proof {
        assert(v.deep_view().subrange(0, 0) =~= Seq::<Seq<char>>::empty());
    }
    while i < v.len()
        invariant
            i <= v@.len(),
            r@ == join_with(v.deep_view().subrange(0, i as int), ','),
            ","@ == seq![','],
        decreases v@.len() - i,
    {
        if i > 0 {
            r.append(",");
        }
        r.append(v[i].as_str());
        proof {
            let dv = v.deep_view();
            let prefix = dv.subrange(0, i as int);
            assert(dv.subrange(0, i + 1) =~= prefix.push(dv[i as int]));
            lemma_join_with_push(prefix, dv[i as int], ',');
        }
        i += 1;
    }
    proof {
        assert(v.deep_view().subrange(0, v.deep_view().len() as int) =~= v.deep_view());
    }
    r
}

} // verus!
