//! Text primitives over sequences of characters: whitespace, trimming,
//! splitting into words and lines, and prefix tests.
use vstd::prelude::*;

verus! {

/// The characters of a string slice, in order.
pub fn to_chars(s: &str) -> (v: Vec<char>)
    ensures
        v@ == s@,
{
    let mut v: Vec<char> = Vec::new();
    for c in it: s.chars()
        invariant
            v@ == it.seq().take(it.index() as int),
            it.seq() == s@,
    {
        v.push(c);
    }
    v
}

/// `FromIterator<char> for String` (std): the string made of the given
/// characters, in order.
#[verifier::external_body]
pub(crate) fn chars_to_string(v: &Vec<char>) -> (s: String)
    ensures
        s@ == v@,
{
    v.iter().collect()
}

/// Appends the characters of `s` to `out`.
pub fn push_str(out: &mut Vec<char>, s: &str)
    ensures
        final(out)@ == old(out)@ + s@,
{
    let v = to_chars(s);
    let mut i: usize = 0;
    while i < v.len()
        invariant
            i <= v.len(),
            out@ == old(out)@ + v@.take(i as int),
        decreases v.len() - i,
    {
        out.push(v[i]);
        i = i + 1;
        proof {
            assert(v@.take(i as int) =~= v@.take(i - 1).push(v@[i - 1]));
        }
    }
    proof {
        assert(v@.take(v.len() as int) =~= v@);
    }
}

/// Appends the characters of `s` to `out`.
pub fn push_chars(out: &mut Vec<char>, s: &Vec<char>)
    ensures
        final(out)@ == old(out)@ + s@,
{
    let mut i: usize = 0;
    while i < s.len()
        invariant
            i <= s.len(),
            out@ == old(out)@ + s@.take(i as int),
        decreases s.len() - i,
    {
        out.push(s[i]);
        i = i + 1;
        proof {
            assert(s@.take(i as int) =~= s@.take(i - 1).push(s@[i - 1]));
        }
    }
    proof {
        assert(s@.take(s.len() as int) =~= s@);
    }
}

/// Unicode `White_Space`, the set that `char::is_whitespace` tests.
pub open spec fn is_ws(c: char) -> bool {
    let u = c as u32;
    ||| 0x09 <= u <= 0x0d
    ||| u == 0x20
    ||| u == 0x85
    ||| u == 0xa0
    ||| u == 0x1680
    ||| 0x2000 <= u <= 0x200a
    ||| u == 0x2028
    ||| u == 0x2029
    ||| u == 0x202f
    ||| u == 0x205f
    ||| u == 0x3000
}

/// Whether `c` is white space.
pub fn is_whitespace(c: char) -> (b: bool)
    ensures
        b == is_ws(c),
{
    let u = c as u32;
    (0x09 <= u && u <= 0x0d) || u == 0x20 || u == 0x85 || u == 0xa0 || u == 0x1680 || (0x2000
        <= u && u <= 0x200a) || u == 0x2028 || u == 0x2029 || u == 0x202f || u == 0x205f || u
        == 0x3000
}

/// Number of leading white-space characters.
pub open spec fn lead_ws(s: Seq<char>) -> nat
    decreases s.len(),
{
    if s.len() > 0 && is_ws(s[0]) {
        1 + lead_ws(s.drop_first())
    } else {
        0
    }
}

/// Number of trailing white-space characters.
pub open spec fn trail_ws(s: Seq<char>) -> nat
    decreases s.len(),
{
    if s.len() > 0 && is_ws(s.last()) {
        1 + trail_ws(s.drop_last())
    } else {
        0
    }
}

/// `s` without leading white space.
pub open spec fn trim_start(s: Seq<char>) -> Seq<char> {
    s.skip(lead_ws(s) as int)
}

/// `s` without trailing white space.
pub open spec fn trim_end(s: Seq<char>) -> Seq<char> {
    s.take(s.len() - trail_ws(s))
}

/// `s` without leading and trailing white space (`str::trim`).
pub open spec fn trim(s: Seq<char>) -> Seq<char> {
    trim_end(trim_start(s))
}

proof fn lemma_lead_ws(s: Seq<char>, i: int)
    requires
        0 <= i <= s.len(),
        forall|k: int| 0 <= k < i ==> is_ws(#[trigger] s[k]),
        i == s.len() || !is_ws(s[i]),
    ensures
        lead_ws(s) == i,
    decreases i,
{
    if i > 0 {
        lemma_lead_ws(s.drop_first(), i - 1);
    }
}

proof fn lemma_trail_ws(s: Seq<char>, j: int)
    requires
        0 <= j <= s.len(),
        forall|k: int| j <= k < s.len() ==> is_ws(#[trigger] s[k]),
        j == 0 || !is_ws(s[j - 1]),
    ensures
        trail_ws(s) == s.len() - j,
    decreases s.len() - j,
{
    if j < s.len() {
        lemma_trail_ws(s.drop_last(), j);
    }
}

/// The characters that `lead_ws` and `trail_ws` count are white space.
proof fn lemma_ws_ends(s: Seq<char>)
    ensures
        lead_ws(s) <= s.len(),
        trail_ws(s) <= s.len(),
        forall|k: int| 0 <= k < lead_ws(s) ==> is_ws(#[trigger] s[k]),
        forall|k: int| s.len() - trail_ws(s) <= k < s.len() ==> is_ws(#[trigger] s[k]),
    decreases s.len(),
{
    if s.len() > 0 {
        lemma_ws_ends(s.drop_first());
        lemma_ws_ends(s.drop_last());
        assert forall|k: int| 0 <= k < lead_ws(s) implies is_ws(#[trigger] s[k]) by {
            if k > 0 {
                assert(s[k] == s.drop_first()[k - 1]);
            }
        }
        assert forall|k: int| s.len() - trail_ws(s) <= k < s.len() implies is_ws(#[trigger] s[k]) by {
            if k < s.len() - 1 {
                assert(s[k] == s.drop_last()[k]);
            }
        }
    }
}

/// A character of `s` that is not white space is kept by `trim`, at the
/// returned position.
pub proof fn lemma_trim_keeps(s: Seq<char>, k: int) -> (j: int)
    requires
        0 <= k < s.len(),
        !is_ws(s[k]),
    ensures
        0 <= j < trim(s).len(),
        trim(s)[j] == s[k],
{
    lemma_ws_ends(s);
    let t = trim_start(s);
    lemma_ws_ends(t);
    let l = lead_ws(s) as int;
    assert(l <= k);
    assert(t[k - l] == s[k]);
    k - l
}

/// `s` without leading and trailing white space, as characters.
pub fn trim_chars(s: &Vec<char>) -> (r: Vec<char>)
    ensures
        r@ == trim(s@),
{
    let mut i: usize = 0;
    while i < s.len() && is_whitespace(s[i])
        invariant
            i <= s.len(),
            forall|k: int| 0 <= k < i ==> is_ws(#[trigger] s@[k]),
        decreases s.len() - i,
    {
        i = i + 1;
    }
    proof {
        lemma_lead_ws(s@, i as int);
    }
    let mut j: usize = s.len();
    while j > i && is_whitespace(s[j - 1])
        invariant
            i <= j <= s.len(),
            forall|k: int| j <= k < s.len() ==> is_ws(#[trigger] s@[k]),
        decreases j,
    {
        j = j - 1;
    }
    let ghost t = s@.skip(i as int);
    proof {
        lemma_trail_ws(t, j - i);
        assert(t.len() - trail_ws(t) == j - i);
    }
    let mut r: Vec<char> = Vec::new();
    let mut k: usize = i;
    while k < j
        invariant
            i <= k <= j <= s.len(),
            r@ == s@.subrange(i as int, k as int),
        decreases j - k,
    {
        r.push(s[k]);
        k = k + 1;
        proof {
            assert(r@ =~= s@.subrange(i as int, k as int));
        }
    }
    proof {
        assert(r@ =~= trim(s@));
    }
    r
}

/// `str::trim`: the string without leading and trailing white space.
pub fn trim_str(s: &str) -> (r: String)
    ensures
        r@ == trim(s@),
{
    let v = to_chars(s);
    chars_to_string(&trim_chars(&v))
}

/// Words of `s` still to come, after a partial word `cur`.
pub open spec fn words_from(s: Seq<char>, cur: Seq<char>) -> Seq<Seq<char>>
    decreases s.len(),
{
    if s.len() == 0 {
        if cur.len() > 0 {
            seq![cur]
        } else {
            seq![]
        }
    } else if is_ws(s[0]) {
        (if cur.len() > 0 {
            seq![cur]
        } else {
            seq![]
        }) + words_from(s.drop_first(), seq![])
    } else {
        words_from(s.drop_first(), cur.push(s[0]))
    }
}

/// The maximal runs of non-white-space characters of `s`
/// (`str::split_whitespace`).
pub open spec fn words(s: Seq<char>) -> Seq<Seq<char>> {
    words_from(s, seq![])
}

/// The words of `s`, in order.
pub fn split_whitespace(s: &Vec<char>) -> (r: Vec<Vec<char>>)
    ensures
        views(r@) == words(s@),
{
    let mut r: Vec<Vec<char>> = Vec::new();
    let mut cur: Vec<char> = Vec::new();
    let mut i: usize = 0;
    proof {
        assert(views(r@) =~= seq![]);
        assert(s@.skip(0) =~= s@);
    }
    while i < s.len()
        invariant
            i <= s.len(),
            views(r@) + words_from(s@.skip(i as int), cur@) == words(s@),
        decreases s.len() - i,
    {
        let c = s[i];
        let ghost rest = s@.skip(i as int);
        proof {
            assert(rest.drop_first() =~= s@.skip(i + 1));
        }
        if is_whitespace(c) {
            if cur.len() > 0 {
                let ghost old_r = views(r@);
            let ghost old_rv = r@;
                r.push(cur);
                proof {
                    assert(views(r@) =~= old_r.push(cur@)) by { assert(r@ =~= old_rv.push(r@.last())); }
                    assert(old_r + (seq![cur@] + words_from(s@.skip(i + 1), seq![])) =~= views(r@)
                        + words_from(s@.skip(i + 1), seq![]));
                }
                cur = Vec::new();
            } else {
                proof {
                    assert(seq![] + words_from(s@.skip(i + 1), seq![]) =~= words_from(
                        s@.skip(i + 1),
                        seq![],
                    ));
                }
                cur = Vec::new();
                proof {
                    assert(cur@ =~= seq![]);
                }
            }
        } else {
            cur.push(c);
        }
        i = i + 1;
    }
    proof {
        assert(s@.skip(i as int) =~= seq![]);
    }
    if cur.len() > 0 {
        let ghost old_r = views(r@);
            let ghost old_rv = r@;
        r.push(cur);
        proof {
            assert(views(r@) =~= old_r.push(cur@)) by { assert(r@ =~= old_rv.push(r@.last())); }
            assert(old_r + seq![cur@] =~= views(r@));
        }
    } else {
        proof {
            assert(views(r@) + seq![] =~= views(r@));
        }
    }
    r
}

/// The character sequences held by a sequence of vectors.
pub open spec fn views(v: Seq<Vec<char>>) -> Seq<Seq<char>> {
    v.map_values(|x: Vec<char>| x@)
}

/// `line` without one trailing carriage return.
pub open spec fn strip_cr(line: Seq<char>) -> Seq<char> {
    if line.len() > 0 && line.last() == '\r' {
        line.drop_last()
    } else {
        line
    }
}

/// Lines of `s` still to come, after a partial line `cur`.
pub open spec fn lines_from(s: Seq<char>, cur: Seq<char>) -> Seq<Seq<char>>
    decreases s.len(),
{
    if s.len() == 0 {
        if cur.len() > 0 {
            seq![cur]
        } else {
            seq![]
        }
    } else if s[0] == '\n' {
        seq![strip_cr(cur)] + lines_from(s.drop_first(), seq![])
    } else {
        lines_from(s.drop_first(), cur.push(s[0]))
    }
}

/// The lines of `s` (`str::lines`): split at each `\n`, a `\r` just before
/// the `\n` removed, and no empty line after a final `\n`.
pub open spec fn lines(s: Seq<char>) -> Seq<Seq<char>> {
    lines_from(s, seq![])
}

/// The line without one trailing carriage return.
fn strip_cr_chars(line: Vec<char>) -> (r: Vec<char>)
    ensures
        r@ == strip_cr(line@),
{
    let ghost orig = line@;
    let mut line = line;
    if line.len() > 0 && line[line.len() - 1] == '\r' {
        line.pop();
        proof {
            assert(line@ =~= orig.drop_last());
        }
    }
    line
}

/// The lines of `s`, in order.
pub fn split_lines(s: &Vec<char>) -> (r: Vec<Vec<char>>)
    ensures
        views(r@) == lines(s@),
{
    let mut r: Vec<Vec<char>> = Vec::new();
    let mut cur: Vec<char> = Vec::new();
    let mut i: usize = 0;
    proof {
        assert(views(r@) =~= seq![]);
        assert(s@.skip(0) =~= s@);
    }
    while i < s.len()
        invariant
            i <= s.len(),
            views(r@) + lines_from(s@.skip(i as int), cur@) == lines(s@),
        decreases s.len() - i,
    {
        let c = s[i];
        let ghost rest = s@.skip(i as int);
        proof {
            assert(rest.drop_first() =~= s@.skip(i + 1));
        }
        if c == '\n' {
            let ghost old_r = views(r@);
            let ghost old_rv = r@;
            let line = strip_cr_chars(cur);
            let ghost lv = line@;
            r.push(line);
            proof {
                assert(views(r@) =~= old_r.push(lv)) by { assert(r@ =~= old_rv.push(r@.last())); }
                assert(old_r + (seq![lv] + lines_from(s@.skip(i + 1), seq![])) =~= views(r@)
                    + lines_from(s@.skip(i + 1), seq![]));
            }
            cur = Vec::new();
            proof {
                assert(cur@ =~= seq![]);
            }
        } else {
            cur.push(c);
        }
        i = i + 1;
    }
    proof {
        assert(s@.skip(i as int) =~= seq![]);
    }
    if cur.len() > 0 {
        let ghost old_r = views(r@);
            let ghost old_rv = r@;
        r.push(cur);
        proof {
            assert(views(r@) =~= old_r.push(cur@)) by { assert(r@ =~= old_rv.push(r@.last())); }
            assert(old_r + seq![cur@] =~= views(r@));
        }
    } else {
        proof {
            assert(views(r@) + seq![] =~= views(r@));
        }
    }
    r
}

/// `s` begins with `p`.
pub open spec fn starts_with(s: Seq<char>, p: Seq<char>) -> bool {
    p.len() <= s.len() && s.take(p.len() as int) == p
}

/// `s` ends with `p`.
pub open spec fn ends_with(s: Seq<char>, p: Seq<char>) -> bool {
    p.len() <= s.len() && s.skip(s.len() - p.len()) == p
}

/// Whether `s` begins with `p`.
pub fn has_prefix(s: &Vec<char>, p: &Vec<char>) -> (b: bool)
    ensures
        b == starts_with(s@, p@),
{
    if p.len() > s.len() {
        return false;
    }
    let mut i: usize = 0;
    while i < p.len()
        invariant
            p.len() <= s.len(),
            i <= p.len(),
            forall|k: int| 0 <= k < i ==> s@[k] == p@[k],
        decreases p.len() - i,
    {
        if s[i] != p[i] {
            proof {
                assert(s@.take(p.len() as int)[i as int] != p@[i as int]);
            }
            return false;
        }
        i = i + 1;
    }
    proof {
        assert(s@.take(p.len() as int) =~= p@);
    }
    true
}

/// Whether `s` ends with `p`.
pub fn has_suffix(s: &Vec<char>, p: &Vec<char>) -> (b: bool)
    ensures
        b == ends_with(s@, p@),
{
    if p.len() > s.len() {
        return false;
    }
    let off = s.len() - p.len();
    let mut i: usize = 0;
    while i < p.len()
        invariant
            p.len() <= s.len(),
            off == s.len() - p.len(),
            i <= p.len(),
            forall|k: int| 0 <= k < i ==> s@[off + k] == p@[k],
        decreases p.len() - i,
    {
        if s[off + i] != p[i] {
            proof {
                assert(s@.skip(off as int)[i as int] != p@[i as int]);
            }
            return false;
        }
        i = i + 1;
    }
    proof {
        assert(s@.skip(off as int) =~= p@);
    }
    true
}

/// Whether the string begins with the literal `p`.
pub fn starts_with_str(s: &Vec<char>, p: &str) -> (b: bool)
    ensures
        b == starts_with(s@, p@),
{
    let pv = to_chars(p);
    has_prefix(s, &pv)
}

/// Whether the string ends with the literal `p`.
pub fn ends_with_str(s: &Vec<char>, p: &str) -> (b: bool)
    ensures
        b == ends_with(s@, p@),
{
    let pv = to_chars(p);
    has_suffix(s, &pv)
}

/// Whether the string is the literal `p`.
pub fn eq_str(s: &Vec<char>, p: &str) -> (b: bool)
    ensures
        b == (s@ == p@),
{
    let pv = to_chars(p);
    if s.len() != pv.len() {
        return false;
    }
    let r = has_prefix(s, &pv);
    proof {
        assert(s@.take(pv.len() as int) =~= s@);
    }
    r
}

/// `s` with every leading repetition of `p` removed (`str::trim_start_matches`).
pub open spec fn trim_start_matches(s: Seq<char>, p: Seq<char>) -> Seq<char>
    decreases s.len(),
{
    if p.len() > 0 && starts_with(s, p) {
        trim_start_matches(s.skip(p.len() as int), p)
    } else {
        s
    }
}

/// The characters of `s` from position `from` on.
pub fn skip_chars(s: &Vec<char>, from: usize) -> (r: Vec<char>)
    requires
        from <= s.len(),
    ensures
        r@ == s@.skip(from as int),
{
    subrange_chars(s, from, s.len())
}

/// The characters of `s` in positions `from..to`.
pub fn subrange_chars(s: &Vec<char>, from: usize, to: usize) -> (r: Vec<char>)
    requires
        from <= to <= s.len(),
    ensures
        r@ == s@.subrange(from as int, to as int),
{
    let mut r: Vec<char> = Vec::new();
    let mut k: usize = from;
    while k < to
        invariant
            from <= k <= to <= s.len(),
            r@ == s@.subrange(from as int, k as int),
        decreases to - k,
    {
        r.push(s[k]);
        k = k + 1;
        proof {
            assert(r@ =~= s@.subrange(from as int, k as int));
        }
    }
    r
}

/// `s` with every leading repetition of the literal `p` removed.
pub fn trim_start_matches_str(s: &Vec<char>, p: &str) -> (r: Vec<char>)
    ensures
        r@ == trim_start_matches(s@, p@),
{
    let pv = to_chars(p);
    let mut i: usize = 0;
    proof {
        assert(s@.skip(0) =~= s@);
    }
    while pv.len() > 0 && pv.len() <= s.len() - i && has_prefix(&skip_chars(s, i), &pv)
        invariant
            i <= s.len(),
            trim_start_matches(s@.skip(i as int), pv@) == trim_start_matches(s@, pv@),
        decreases s.len() - i,
    {
        proof {
            assert(s@.skip(i as int).skip(pv.len() as int) =~= s@.skip(i + pv.len()));
        }
        i = i + pv.len();
    }
    let r = skip_chars(s, i);
    proof {
        if pv.len() > 0 && pv.len() > s.len() - i {
            assert(!starts_with(s@.skip(i as int), pv@));
        }
    }
    r
}

/// Position of the first `c` in `s`.
pub open spec fn find_char(s: Seq<char>, c: char) -> Option<int>
    decreases s.len(),
{
    if s.len() == 0 {
        None
    } else if s[0] == c {
        Some(0)
    } else {
        match find_char(s.drop_first(), c) {
            Some(i) => Some(i + 1),
            None => None,
        }
    }
}

/// Position of the last `c` in `s`.
pub open spec fn rfind_char(s: Seq<char>, c: char) -> Option<int>
    decreases s.len(),
{
    if s.len() == 0 {
        None
    } else if s.last() == c {
        Some(s.len() - 1)
    } else {
        rfind_char(s.drop_last(), c)
    }
}

proof fn lemma_find_char(s: Seq<char>, c: char, i: int)
    requires
        0 <= i <= s.len(),
        forall|k: int| 0 <= k < i ==> #[trigger] s[k] != c,
    ensures
        i < s.len() && s[i] == c ==> find_char(s, c) == Some(i),
        i == s.len() ==> find_char(s, c) is None,
    decreases i,
{
    if i > 0 {
        lemma_find_char(s.drop_first(), c, i - 1);
    }
}

proof fn lemma_rfind_char(s: Seq<char>, c: char, j: int)
    requires
        0 <= j <= s.len(),
        forall|k: int| j <= k < s.len() ==> #[trigger] s[k] != c,
    ensures
        j > 0 && s[j - 1] == c ==> rfind_char(s, c) == Some(j - 1),
        j == 0 ==> rfind_char(s, c) is None,
    decreases s.len() - j,
{
    if j < s.len() {
        lemma_rfind_char(s.drop_last(), c, j);
    }
}

/// Where `find_char` and `rfind_char` give a position, `c` stands there.
pub proof fn lemma_found_char(s: Seq<char>, c: char)
    ensures
        find_char(s, c) matches Some(i) ==> 0 <= i < s.len() && s[i] == c,
        rfind_char(s, c) matches Some(j) ==> 0 <= j < s.len() && s[j] == c,
    decreases s.len(),
{
    if s.len() > 0 {
        lemma_found_char(s.drop_first(), c);
        lemma_found_char(s.drop_last(), c);
    }
}

/// Position of the first `c` in `s`.
pub fn find(s: &Vec<char>, c: char) -> (r: Option<usize>)
    ensures
        match r {
            Some(i) => find_char(s@, c) == Some(i as int) && i < s.len(),
            None => find_char(s@, c) is None,
        },
{
    let mut i: usize = 0;
    while i < s.len()
        invariant
            i <= s.len(),
            forall|k: int| 0 <= k < i ==> #[trigger] s@[k] != c,
        decreases s.len() - i,
    {
        if s[i] == c {
            proof {
                lemma_find_char(s@, c, i as int);
            }
            return Some(i);
        }
        i = i + 1;
    }
    proof {
        lemma_find_char(s@, c, i as int);
    }
    None
}

/// Position of the last `c` in `s`.
pub fn rfind(s: &Vec<char>, c: char) -> (r: Option<usize>)
    ensures
        match r {
            Some(i) => rfind_char(s@, c) == Some(i as int) && i < s.len(),
            None => rfind_char(s@, c) is None,
        },
{
    let mut j: usize = s.len();
    while j > 0
        invariant
            j <= s.len(),
            forall|k: int| j <= k < s.len() ==> #[trigger] s@[k] != c,
        decreases j,
    {
        if s[j - 1] == c {
            proof {
                lemma_rfind_char(s@, c, j as int);
            }
            return Some(j - 1);
        }
        j = j - 1;
    }
    proof {
        lemma_rfind_char(s@, c, 0);
    }
    None
}

/// `s` with every non-overlapping occurrence of `p`, from the left, replaced
/// by `r` (`str::replace`), for a non-empty `p`.
pub open spec fn replace_all(s: Seq<char>, p: Seq<char>, r: Seq<char>) -> Seq<char>
    decreases s.len(),
{
    if p.len() == 0 || s.len() == 0 {
        s
    } else if starts_with(s, p) {
        r + replace_all(s.skip(p.len() as int), p, r)
    } else {
        seq![s[0]] + replace_all(s.drop_first(), p, r)
    }
}

/// Whether `p` occurs in `s` at position `i`.
pub fn matches_at(s: &Vec<char>, i: usize, p: &Vec<char>) -> (b: bool)
    requires
        i <= s.len(),
    ensures
        b == starts_with(s@.skip(i as int), p@),
{
    if p.len() > s.len() - i {
        return false;
    }
    let mut k: usize = 0;
    while k < p.len()
        invariant
            i <= s.len(),
            p.len() <= s.len() - i,
            k <= p.len(),
            forall|j: int| 0 <= j < k ==> s@[i + j] == p@[j],
        decreases p.len() - k,
    {
        if s[i + k] != p[k] {
            proof {
                assert(s@.skip(i as int).take(p.len() as int)[k as int] != p@[k as int]);
            }
            return false;
        }
        k = k + 1;
    }
    proof {
        assert(s@.skip(i as int).take(p.len() as int) =~= p@);
    }
    true
}

/// `s` with every occurrence of the literal `p` replaced by the literal `r`.
pub fn replace_str(s: &Vec<char>, p: &str, r: &str) -> (out: Vec<char>)
    requires
        p@.len() > 0,
    ensures
        out@ == replace_all(s@, p@, r@),
{
    let pv = to_chars(p);
    let rv = to_chars(r);
    let mut out: Vec<char> = Vec::new();
    let mut i: usize = 0;
    proof {
        assert(s@.skip(0) =~= s@);
    }
    while i < s.len()
        invariant
            i <= s.len(),
            pv@ == p@,
            rv@ == r@,
            pv.len() > 0,
            out@ + replace_all(s@.skip(i as int), p@, r@) == replace_all(s@, p@, r@),
        decreases s.len() - i,
    {
        if matches_at(s, i, &pv) {
            push_chars(&mut out, &rv);
            proof {
                assert(s@.skip(i as int).skip(pv.len() as int) =~= s@.skip(i + pv.len()));
            }
            i = i + pv.len();
        } else {
            let c = s[i];
            out.push(c);
            proof {
                assert(s@.skip(i as int).drop_first() =~= s@.skip(i + 1));
                assert(s@.skip(i as int)[0] == c);
            }
            i = i + 1;
        }
    }
    proof {
        assert(s@.skip(i as int) =~= Seq::<char>::empty());
        assert(out@ + Seq::<char>::empty() =~= out@);
    }
    out
}

/// No character of `s` is `c`.
pub open spec fn lacks(s: Seq<char>, c: char) -> bool {
    forall|i: int| 0 <= i < s.len() ==> s[i] != c
}

/// A replacement finds nothing in a prefix that lacks the first character of
/// the pattern.
pub proof fn lemma_replace_all_skip_prefix(a: Seq<char>, t: Seq<char>, p: Seq<char>, r: Seq<char>)
    requires
        p.len() > 0,
        lacks(a, p[0]),
    ensures
        replace_all(a + t, p, r) == a + replace_all(t, p, r),
    decreases a.len(),
{
    if a.len() > 0 {
        let s = a + t;
        assert(s[0] == a[0]);
        assert(!starts_with(s, p)) by {
            if starts_with(s, p) {
                assert(s.take(p.len() as int)[0] == p[0]);
            }
        }
        assert(s.drop_first() =~= a.drop_first() + t);
        lemma_replace_all_skip_prefix(a.drop_first(), t, p, r);
        assert(seq![a[0]] + (a.drop_first() + replace_all(t, p, r)) =~= a + replace_all(t, p, r));
    } else {
        assert(a + t =~= t);
        assert(a + replace_all(t, p, r) =~= replace_all(t, p, r));
    }
}

/// A replacement leaves a text that lacks the first character of the pattern
/// unchanged.
pub proof fn lemma_replace_all_absent(a: Seq<char>, p: Seq<char>, r: Seq<char>)
    requires
        p.len() > 0,
        lacks(a, p[0]),
    ensures
        replace_all(a, p, r) == a,
{
    lemma_replace_all_skip_prefix(a, Seq::<char>::empty(), p, r);
    assert(a + Seq::<char>::empty() =~= a);
}

} // verus!
