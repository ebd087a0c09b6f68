//! CPU usage from two readings of `/proc/stat`.
use vstd::prelude::*;
use crate::num::{dec, or_zero, parse_dec, parse_u64, push_dec};
use crate::text::{lines, push_str, split_lines, split_whitespace, to_chars, chars_to_string, words};

verus! {

/// The first eight counters after the label of a `/proc/stat` CPU line, each
/// read as a `u64` or 0; fewer when the line has fewer words.
pub open spec fn stat_fields(line: Seq<char>) -> Seq<int> {
    let w = words(line);
    let n: int = if w.len() <= 1 {
        0
    } else if w.len() - 1 >= 8 {
        8
    } else {
        w.len() - 1
    };
    Seq::new(n as nat, |i: int| or_zero(parse_dec(w[i + 1], u64::MAX as int)))
}

/// Sum of the eight counters.
pub open spec fn stat_total(f: Seq<int>) -> int {
    f[0] + f[1] + f[2] + f[3] + f[4] + f[5] + f[6] + f[7]
}

/// What `parse_stat_line` gives: `None` when the line has fewer than eight
/// counters, else the total of the eight and the idle time (idle plus
/// iowait, the fourth and fifth).
pub open spec fn parse_stat_line_spec(line: Seq<char>) -> Option<(int, int)> {
    let f = stat_fields(line);
    if f.len() < 8 {
        None
    } else {
        Some((stat_total(f), f[3] + f[4]))
    }
}

/// The counters of a line sum without overflow.
pub open spec fn stat_line_fits(line: Seq<char>) -> bool {
    stat_fields(line).len() < 8 || stat_total(stat_fields(line)) <= u64::MAX
}

/// The counters of a CPU line, each read as a number or 0.
fn stat_fields_exec(line: &str) -> (r: Vec<u64>)
    ensures
        r@.len() == stat_fields(line@).len(),
        forall|i: int| 0 <= i < r@.len() ==> r@[i] == #[trigger] stat_fields(line@)[i],
{
    let w = split_whitespace(&to_chars(line));
    let ghost ws = words(line@);
    let mut r: Vec<u64> = Vec::new();
    let mut i: usize = 1;
    while i < w.len() && i <= 8
        invariant
            1 <= i <= w.len() || (w.len() == 0 && i == 1),
            i <= 9,
            crate::text::views(w@) == ws,
            r@.len() == i - 1,
            forall|k: int| 0 <= k < r@.len() ==> r@[k] == or_zero(parse_dec(ws[k + 1], u64::MAX as int)),
        decreases 9 - i,
    {
        let v = match parse_u64(&w[i]) {
            Some(v) => v,
            None => 0,
        };
        proof {
            assert(ws[i as int] == w@[i as int]@);
        }
        r.push(v);
        i = i + 1;
    }
    r
}

/// Whether the counters of the line sum without overflow.
pub fn stat_line_sums(line: &str) -> (b: bool)
    ensures
        b == stat_line_fits(line@),
{
    let f = stat_fields_exec(line);
    if f.len() < 8 {
        return true;
    }
    let t: u128 = f[0] as u128 + f[1] as u128 + f[2] as u128 + f[3] as u128 + f[4] as u128
        + f[5] as u128 + f[6] as u128 + f[7] as u128;
    t <= u64::MAX as u128
}

/// The total and idle counters of a `/proc/stat` CPU line.
pub fn parse_stat_line(line: &str) -> (r: Option<(u64, u64)>)
    requires
        stat_line_fits(line@),
    ensures
        match r {
            Some((t, i)) => parse_stat_line_spec(line@) == Some((t as int, i as int)),
            None => parse_stat_line_spec(line@) is None,
        },
{
    let f = stat_fields_exec(line);
    if f.len() < 8 {
        return None;
    }
    let total = f[0] + f[1] + f[2] + f[3] + f[4] + f[5] + f[6] + f[7];
    let idle = f[3] + f[4];
    Some((total, idle))
}

/// The first line of a `/proc/stat` text, or the error that its absence gives.
pub open spec fn first_line(stat: Seq<char>) -> Option<Seq<char>> {
    if lines(stat).len() > 0 {
        Some(lines(stat)[0])
    } else {
        None
    }
}

/// What reading one sample from a `/proc/stat` text gives: its first line's
/// total and idle counters; `empty /proc/stat` without a line, `failed to
/// parse /proc/stat` when the line has too few counters.
pub open spec fn sample_spec(stat: Seq<char>) -> Result<(int, int), Seq<char>> {
    match first_line(stat) {
        None => Err("empty /proc/stat"@),
        Some(l) => match parse_stat_line_spec(l) {
            Some(p) => Ok(p),
            None => Err("failed to parse /proc/stat"@),
        },
    }
}

/// The first line of the text sums without overflow.
pub open spec fn sample_fits(stat: Seq<char>) -> bool {
    match first_line(stat) {
        None => true,
        Some(l) => stat_line_fits(l),
    }
}

/// Whether the first line of the text sums without overflow.
pub fn sample_sums(stat: &str) -> (b: bool)
    ensures
        b == sample_fits(stat@),
{
    let ls = split_lines(&to_chars(stat));
    if ls.len() == 0 {
        return true;
    }
    proof {
        assert(crate::text::views(ls@)[0] == ls@[0]@);
    }
    stat_line_sums(chars_to_string(&ls[0]).as_str())
}

/// The total and idle counters of the first line of a `/proc/stat` text.
pub fn sample(stat: &str) -> (r: Result<(u64, u64), String>)
    requires
        sample_fits(stat@),
    ensures
        match (r, sample_spec(stat@)) {
            (Ok((t, i)), Ok((st, si))) => t == st && i == si,
            (Err(e), Err(se)) => e@ == se,
            _ => false,
        },
{
    let ls = split_lines(&to_chars(stat));
    if ls.len() == 0 {
        return Err(chars_to_string(&to_chars("empty /proc/stat")));
    }
    proof {
        assert(crate::text::views(ls@)[0] == ls@[0]@);
    }
    let first = chars_to_string(&ls[0]);
    match parse_stat_line(first.as_str()) {
        Some(p) => Ok(p),
        None => Err(chars_to_string(&to_chars("failed to parse /proc/stat"))),
    }
}

/// `a - b` modulo 2^64.
pub open spec fn wrap_sub(a: u64, b: u64) -> int {
    if a >= b {
        a - b
    } else {
        a - b + 0x1_0000_0000_0000_0000
    }
}

/// The busy share between two samples in whole percent: the busy part of the
/// total difference, times 100, over the total difference; 0 when the total
/// did not change.
pub open spec fn usage_spec(prev: (u64, u64), cur: (u64, u64)) -> int {
    let td = wrap_sub(cur.0, prev.0);
    let id = wrap_sub(cur.1, prev.1);
    if td > 0 {
        (td - id) * 100 / td
    } else {
        0
    }
}

/// The two samples give a percentage without overflow: the idle difference
/// does not exceed the total difference, and the busy part times 100 fits.
pub open spec fn usage_computable(prev: (u64, u64), cur: (u64, u64)) -> bool {
    let td = wrap_sub(cur.0, prev.0);
    let id = wrap_sub(cur.1, prev.1);
    td > 0 ==> (id <= td && (td - id) * 100 <= u64::MAX)
}

/// The report line `cpu.usage_percent=N` for two samples (total, idle).
pub fn usage_line(prev: (u64, u64), cur: (u64, u64)) -> (r: String)
    requires
        usage_computable(prev, cur),
    ensures
        r@ == "cpu.usage_percent="@ + dec(usage_spec(prev, cur) as nat),
{
    let td = cur.0.wrapping_sub(prev.0);
    let id = cur.1.wrapping_sub(prev.1);
    let mut out: Vec<char> = Vec::new();
    push_str(&mut out, "cpu.usage_percent=");
    if td > 0 {
        let usage = (td - id) * 100 / td;
        push_dec(&mut out, usage);
    } else {
        push_dec(&mut out, 0);
    }
    chars_to_string(&out)
}

/// Law: where the idle difference does not exceed the total difference, the
/// usage is a percentage, at most 100.
pub proof fn usage_at_most_100(prev: (u64, u64), cur: (u64, u64))
    requires
        wrap_sub(cur.1, prev.1) <= wrap_sub(cur.0, prev.0),
    ensures
        0 <= usage_spec(prev, cur) <= 100,
{
    let td = wrap_sub(cur.0, prev.0);
    let id = wrap_sub(cur.1, prev.1);
    if td > 0 {
        assert((td - id) * 100 / td <= 100) by (nonlinear_arith)
            requires
                0 <= id <= td,
                td > 0,
        ;
        assert((td - id) * 100 / td >= 0) by (nonlinear_arith)
            requires
                0 <= id <= td,
                td > 0,
        ;
    }
}

/// Law: when the total changed, the usage is the busy share of the total
/// change in whole percent, rounded down: `u * td <= (td - id) * 100 <
/// (u + 1) * td` for the total and idle changes `td` and `id` (taken modulo
/// 2^64); when it did not change, the usage is 0.
pub proof fn usage_rounds_down(prev: (u64, u64), cur: (u64, u64))
    ensures
        ({
            let td = wrap_sub(cur.0, prev.0);
            let id = wrap_sub(cur.1, prev.1);
            let u = usage_spec(prev, cur);
            &&& td > 0 ==> u * td <= (td - id) * 100 < (u + 1) * td
            &&& td == 0 ==> u == 0
        }),
{
    let td = wrap_sub(cur.0, prev.0);
    let id = wrap_sub(cur.1, prev.1);
    if td > 0 {
        let u = (td - id) * 100 / td;
        assert(u * td <= (td - id) * 100 < (u + 1) * td) by (nonlinear_arith)
            requires
                td > 0,
                u == (td - id) * 100 / td,
        ;
    }
}

/// Whether two samples give a percentage without overflow.
pub fn usage_ok(prev: (u64, u64), cur: (u64, u64)) -> (b: bool)
    ensures
        b == usage_computable(prev, cur),
{
    let td = cur.0.wrapping_sub(prev.0);
    let id = cur.1.wrapping_sub(prev.1);
    if td > 0 {
        id <= td && (td - id) <= u64::MAX / 100
    } else {
        true
    }
}

} // verus!
