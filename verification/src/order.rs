//! Ordering of names: lexicographic comparison of character sequences and a
//! stable sort of name lists.
use vstd::prelude::*;
use crate::report::str_views;
use crate::text::to_chars;

verus! {

/// `a` comes before `b` or equals it, comparing characters by code point
/// from the left, a proper prefix first (the order of `str`, which is that of
/// its UTF-8 bytes).
pub open spec fn lex_le(a: Seq<char>, b: Seq<char>) -> bool
    decreases a.len(),
{
    if a.len() == 0 {
        true
    } else if b.len() == 0 {
        false
    } else if a[0] != b[0] {
        (a[0] as u32) < (b[0] as u32)
    } else {
        lex_le(a.drop_first(), b.drop_first())
    }
}

/// `x` put into `s` after every element that does not come after it and
/// before the rest that follows them at the end.
pub open spec fn insert_sorted(s: Seq<Seq<char>>, x: Seq<char>) -> Seq<Seq<char>>
    decreases s.len(),
{
    if s.len() == 0 {
        seq![x]
    } else if lex_le(s.last(), x) {
        s.push(x)
    } else {
        insert_sorted(s.drop_last(), x).push(s.last())
    }
}

/// The stable sort of `s` in lexicographic order (`slice::sort`).
pub open spec fn sort_spec(s: Seq<Seq<char>>) -> Seq<Seq<char>>
    decreases s.len(),
{
    if s.len() == 0 {
        Seq::empty()
    } else {
        insert_sorted(sort_spec(s.drop_last()), s.last())
    }
}

/// Whether `a` comes before `b` or equals it.
pub fn lex_le_exec(a: &Vec<char>, b: &Vec<char>) -> (r: bool)
    ensures
        r == lex_le(a@, b@),
{
    let mut i: usize = 0;
    proof {
        assert(a@.skip(0) =~= a@);
        assert(b@.skip(0) =~= b@);
    }
    while i < a.len() && i < b.len() && a[i] == b[i]
        invariant
            i <= a.len(),
            i <= b.len(),
            lex_le(a@, b@) == lex_le(a@.skip(i as int), b@.skip(i as int)),
        decreases a.len() - i,
    {
        proof {
            assert(a@.skip(i as int).drop_first() =~= a@.skip(i + 1));
            assert(b@.skip(i as int).drop_first() =~= b@.skip(i + 1));
        }
        i = i + 1;
    }
    proof {
        if i < a.len() {
            assert(a@.skip(i as int)[0] == a@[i as int]);
        }
        if i < b.len() {
            assert(b@.skip(i as int)[0] == b@[i as int]);
        }
    }
    if i == a.len() {
        true
    } else if i == b.len() {
        false
    } else {
        (a[i] as u32) < (b[i] as u32)
    }
}

proof fn lemma_insert_at(s: Seq<Seq<char>>, x: Seq<char>, j: int)
    requires
        0 <= j <= s.len(),
        forall|k: int| j <= k < s.len() ==> !lex_le(#[trigger] s[k], x),
        j == 0 || lex_le(s[j - 1], x),
    ensures
        insert_sorted(s, x) == s.insert(j, x),
    decreases s.len() - j,
{
    if s.len() == 0 {
        assert(s.insert(j, x) =~= seq![x]);
    } else if j == s.len() {
        assert(s.insert(j, x) =~= s.push(x));
    } else {
        assert(!lex_le(s.last(), x));
        let t = s.drop_last();
        assert forall|k: int| j <= k < t.len() implies !lex_le(#[trigger] t[k], x) by {
            assert(t[k] == s[k]);
        }
        lemma_insert_at(t, x, j);
        assert(t.insert(j, x).push(s.last()) =~= s.insert(j, x));
    }
}

/// Names in lexicographic order, equal names keeping their order.
pub fn sort_names(names: Vec<String>) -> (r: Vec<String>)
    ensures
        str_views(r@) == sort_spec(str_views(names@)),
{
    let ghost all = str_views(names@);
    let mut r: Vec<String> = Vec::new();
    let mut i: usize = 0;
    proof {
        assert(all.take(0) =~= Seq::<Seq<char>>::empty());
        assert(str_views(r@) =~= Seq::<Seq<char>>::empty());
    }
    while i < names.len()
        invariant
            i <= names.len(),
            all == str_views(names@),
            str_views(r@) == sort_spec(all.take(i as int)),
        decreases names.len() - i,
    {
        let x = to_chars(names[i].as_str());
        let ghost rs = str_views(r@);
        let mut j: usize = r.len();
        while j > 0 && !lex_le_exec(&to_chars(r[j - 1].as_str()), &x)
            invariant
                j <= r.len(),
                rs == str_views(r@),
                forall|k: int| j <= k < r.len() ==> !lex_le(#[trigger] rs[k], x@),
            decreases j,
        {
            j = j - 1;
        }
        proof {
            lemma_insert_at(rs, x@, j as int);
            assert(all.take(i + 1).drop_last() =~= all.take(i as int));
            assert(all.take(i + 1).last() == x@);
        }
        r.insert(j, names[i].clone());
        proof {
            assert(str_views(r@) =~= rs.insert(j as int, x@));
        }
        i = i + 1;
    }
    proof {
        assert(all.take(names.len() as int) =~= all);
    }
    r
}

/// Every name of `s` comes before or equals every later one.
pub open spec fn is_sorted(s: Seq<Seq<char>>) -> bool {
    forall|i: int, j: int| 0 <= i < j < s.len() ==> lex_le(#[trigger] s[i], #[trigger] s[j])
}

proof fn lemma_lex_total(a: Seq<char>, b: Seq<char>)
    ensures
        lex_le(a, b) || lex_le(b, a),
    decreases a.len(),
{
    if a.len() > 0 && b.len() > 0 {
        if a[0] == b[0] {
            lemma_lex_total(a.drop_first(), b.drop_first());
        } else {
            vstd::utf8::char_u32_cast(a[0], a[0] as u32);
            vstd::utf8::char_u32_cast(b[0], b[0] as u32);
        }
    }
}

proof fn lemma_lex_trans(a: Seq<char>, b: Seq<char>, c: Seq<char>)
    requires
        lex_le(a, b),
        lex_le(b, c),
    ensures
        lex_le(a, c),
    decreases a.len(),
{
    if a.len() > 0 && b.len() > 0 && c.len() > 0 && a[0] == b[0] && b[0] == c[0] {
        lemma_lex_trans(a.drop_first(), b.drop_first(), c.drop_first());
    }
}

proof fn lemma_insert_multiset(s: Seq<Seq<char>>, x: Seq<char>)
    ensures
        insert_sorted(s, x).to_multiset() =~= s.to_multiset().insert(x),
    decreases s.len(),
{
    broadcast use vstd::seq_lib::group_to_multiset_ensures;

    if s.len() == 0 {
        assert(seq![x] =~= Seq::<Seq<char>>::empty().push(x));
        assert(s =~= Seq::<Seq<char>>::empty());
    } else if lex_le(s.last(), x) {
    } else {
        let t = s.drop_last();
        lemma_insert_multiset(t, x);
        assert(t.push(s.last()) =~= s);
    }
}

proof fn lemma_insert_sorted(s: Seq<Seq<char>>, x: Seq<char>)
    requires
        is_sorted(s),
    ensures
        is_sorted(insert_sorted(s, x)),
    decreases s.len(),
{
    broadcast use vstd::seq_lib::group_to_multiset_ensures;

    if s.len() == 0 {
    } else if lex_le(s.last(), x) {
        let r = s.push(x);
        assert forall|i: int, j: int| 0 <= i < j < r.len() implies lex_le(
            #[trigger] r[i],
            #[trigger] r[j],
        ) by {
            if j == s.len() {
                if i < s.len() - 1 {
                    lemma_lex_trans(s[i], s.last(), x);
                }
            } else {
                assert(r[i] == s[i] && r[j] == s[j]);
            }
        }
    } else {
        let t = s.drop_last();
        let last = s.last();
        assert(is_sorted(t)) by {
            assert forall|i: int, j: int| 0 <= i < j < t.len() implies lex_le(
                #[trigger] t[i],
                #[trigger] t[j],
            ) by {
                assert(t[i] == s[i] && t[j] == s[j]);
            }
        }
        lemma_insert_sorted(t, x);
        lemma_insert_multiset(t, x);
        lemma_lex_total(last, x);
        let inner = insert_sorted(t, x);
        let r = inner.push(last);
        assert forall|i: int, j: int| 0 <= i < j < r.len() implies lex_le(
            #[trigger] r[i],
            #[trigger] r[j],
        ) by {
            if j == inner.len() {
                let y = inner[i];
                assert(inner.contains(y));
                assert(inner.to_multiset().count(y) > 0);
                if y != x {
                    assert(t.to_multiset().count(y) > 0);
                    assert(t.contains(y));
                    let k = choose|k: int| 0 <= k < t.len() && t[k] == y;
                    assert(s[k] == y);
                    assert(lex_le(s[k], s[s.len() - 1]));
                }
            } else {
                assert(r[i] == inner[i] && r[j] == inner[j]);
            }
        }
    }
}

/// Law: the sort gives the names in order, each as many times as given.
pub proof fn sort_names_sorted_permutation(s: Seq<Seq<char>>)
    ensures
        is_sorted(sort_spec(s)),
        sort_spec(s).to_multiset() == s.to_multiset(),
    decreases s.len(),
{
    broadcast use vstd::seq_lib::group_to_multiset_ensures;

    if s.len() > 0 {
        sort_names_sorted_permutation(s.drop_last());
        lemma_insert_sorted(sort_spec(s.drop_last()), s.last());
        lemma_insert_multiset(sort_spec(s.drop_last()), s.last());
        assert(s.drop_last().push(s.last()) =~= s);
    } else {
        assert(sort_spec(s) =~= s);
    }
}

} // verus!
