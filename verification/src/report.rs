//! Lines of the `key=value` report.
use vstd::prelude::*;
use crate::num::{dec, push_dec};
use crate::text::{push_chars, push_str, chars_to_string};

verus! {

/// `key=n`.
pub open spec fn count_line(key: Seq<char>, n: nat) -> Seq<char> {
    key + "="@ + dec(n)
}

/// `section.idx.field=value`.
pub open spec fn item_line(section: Seq<char>, idx: nat, field: Seq<char>, value: Seq<char>) -> Seq<
    char,
> {
    section + "."@ + dec(idx) + "."@ + field + "="@ + value
}

/// The line `key=n`.
pub fn make_count_line(key: &str, n: u64) -> (r: String)
    ensures
        r@ == count_line(key@, n as nat),
{
    let mut out: Vec<char> = Vec::new();
    push_str(&mut out, key);
    push_str(&mut out, "=");
    push_dec(&mut out, n);
    proof {
        assert(out@ =~= count_line(key@, n as nat));
    }
    chars_to_string(&out)
}

/// The line `section.idx.field=value`.
pub fn make_item_line(section: &str, idx: u64, field: &str, value: &Vec<char>) -> (r: String)
    ensures
        r@ == item_line(section@, idx as nat, field@, value@),
{
    let mut out: Vec<char> = Vec::new();
    push_str(&mut out, section);
    push_str(&mut out, ".");
    push_dec(&mut out, idx);
    push_str(&mut out, ".");
    push_str(&mut out, field);
    push_str(&mut out, "=");
    push_chars(&mut out, value);
    proof {
        assert(out@ =~= item_line(section@, idx as nat, field@, value@));
    }
    chars_to_string(&out)
}

/// The character sequences of a list of lines.
pub open spec fn str_views(v: Seq<String>) -> Seq<Seq<char>> {
    v.map_values(|s: String| s@)
}

/// `section.idx.sub.j.field=value`.
pub open spec fn sub_item_line(
    section: Seq<char>,
    idx: nat,
    sub: Seq<char>,
    j: nat,
    field: Seq<char>,
    value: Seq<char>,
) -> Seq<char> {
    section + "."@ + dec(idx) + "."@ + sub + "."@ + dec(j) + "."@ + field + "="@ + value
}

/// The line `section.idx.sub.j.field=value`.
pub fn make_sub_item_line(
    section: &str,
    idx: u64,
    sub: &str,
    j: u64,
    field: &str,
    value: &Vec<char>,
) -> (r: String)
    ensures
        r@ == sub_item_line(section@, idx as nat, sub@, j as nat, field@, value@),
{
    let mut out: Vec<char> = Vec::new();
    push_str(&mut out, section);
    push_str(&mut out, ".");
    push_dec(&mut out, idx);
    push_str(&mut out, ".");
    push_str(&mut out, sub);
    push_str(&mut out, ".");
    push_dec(&mut out, j);
    push_str(&mut out, ".");
    push_str(&mut out, field);
    push_str(&mut out, "=");
    push_chars(&mut out, value);
    proof {
        assert(out@ =~= sub_item_line(section@, idx as nat, sub@, j as nat, field@, value@));
    }
    chars_to_string(&out)
}

/// Appends a line.
pub fn push_line(out: &mut Vec<String>, line: String)
    ensures
        str_views(final(out)@) == str_views(old(out)@).push(line@),
{
    out.push(line);
    proof {
        assert(str_views(final(out)@) =~= str_views(old(out)@).push(line@));
    }
}

/// Blocks of `w` lines each, put one after another, make `w` lines per
/// block, and line `k` of block `i` stands at `w * i + k`.
pub proof fn lemma_blocks_at(s: Seq<Seq<Seq<char>>>, w: int, i: int, k: int)
    requires
        w >= 0,
        forall|j: int| 0 <= j < s.len() ==> (#[trigger] s[j]).len() == w,
        0 <= i < s.len(),
        0 <= k < w,
    ensures
        s.flatten().len() == w * s.len(),
        s.flatten()[w * i + k] == s[i][k],
    decreases s.len(),
{
    let t = s.drop_first();
    assert forall|j: int| 0 <= j < t.len() implies (#[trigger] t[j]).len() == w by {
        assert(t[j] == s[j + 1]);
    }
    let f = s.flatten();
    assert(f == s[0] + t.flatten());
    assert(s[0].len() == w);
    if i == 0 {
        if t.len() > 0 {
            lemma_blocks_at(t, w, 0, k);
        } else {
            assert(t.flatten() =~= Seq::<Seq<char>>::empty());
        }
        assert(w * s.len() == w + w * t.len()) by (nonlinear_arith)
            requires
                s.len() == t.len() + 1,
        ;
        assert(w * i + k == k);
        assert(f[k] == s[0][k]);
    } else {
        lemma_blocks_at(t, w, i - 1, k);
        assert(t[i - 1] == s[i]);
        assert(w * i + k == w + (w * (i - 1) + k)) by (nonlinear_arith);
        assert(w * s.len() == w + w * t.len()) by (nonlinear_arith)
            requires
                s.len() == t.len() + 1,
        ;
        assert(w * (i - 1) + k < w * t.len()) by (nonlinear_arith)
            requires
                0 <= i - 1 < t.len(),
                0 <= k < w,
        ;
        assert(f[w + (w * (i - 1) + k)] == t.flatten()[w * (i - 1) + k]);
    }
}

/// Appends the lines of `more`.
pub fn append_lines(out: &mut Vec<String>, more: Vec<String>)
    ensures
        str_views(final(out)@) == str_views(old(out)@) + str_views(more@),
{
    let n = more.len();
    let mut k: usize = 0;
    while k < n
        invariant
            n == more.len(),
            k <= n,
            str_views(out@) == str_views(old(out)@) + str_views(more@.take(k as int)),
        decreases n - k,
    {
        let line = more[k].clone();
        let ghost prev = out@;
        out.push(line);
        proof {
            assert(line@ == more@[k as int]@);
            assert(str_views(out@) =~= str_views(prev).push(line@));
            assert(str_views(more@.take(k + 1)) =~= str_views(more@.take(k as int)).push(line@));
            assert(more@.take(k + 1) =~= more@.take(k as int).push(more@[k as int]));
            assert(str_views(out@) =~= str_views(old(out)@) + str_views(more@.take(k + 1)));
        }
        k = k + 1;
    }
    proof {
        assert(more@.take(n as int) =~= more@);
    }
}

/// The lines a collector writes, and the error that stopped it, if any.
pub struct Report {
    pub lines: Vec<String>,
    pub error: Option<String>,
}

/// The error of a report as characters.
pub open spec fn error_view(e: Option<String>) -> Option<Seq<char>> {
    match e {
        Some(s) => Some(s@),
        None => None,
    }
}

/// What reading a directory gave: it is not a directory, it could not be
/// read (with the message), or its entries of interest, in report order.
pub enum Listing<T> {
    Missing,
    Failed(String),
    Entries(Vec<T>),
}

} // verus!
