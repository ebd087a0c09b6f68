//! Processes of `/proc`: their `stat`, `status` and `cmdline` files, counts
//! by state, and the largest by resident memory.
use vstd::prelude::*;
use vstd::utf8::{decode_utf8, valid_utf8};
use crate::num::{dec, or_zero, parse_dec, parse_u32, parse_u64, push_dec, unsigned_body};
use crate::report::{
    count_line, item_line, make_count_line, make_item_line, push_line, str_views,
};
use crate::text::{
    find, find_char, lemma_found_char, lemma_trim_keeps, lines, push_chars, push_str, rfind, rfind_char, skip_chars, split_lines,
    split_whitespace, starts_with, starts_with_str, subrange_chars, to_chars, chars_to_string, trim,
    trim_chars, views, words,
};

verus! {

/// What a process's `stat` file gives: its pid, command name, state, user
/// and system times, and start time.
pub struct ProcStat {
    pub pid: u32,
    pub comm: String,
    pub state: String,
    pub utime: u64,
    pub stime: u64,
    pub starttime: u64,
}

/// The fields after the command name of a `stat` text whose last `)` is at
/// `close`.
pub open spec fn stat_tokens(c: Seq<char>, close: int) -> Seq<Seq<char>> {
    words(trim(c.skip(close + 1)))
}

/// What `parse_stat` gives for a `stat` text: `None` without a `)`, without a
/// `(`, without a pid (a `u32`) before the first `(`, or with fewer than 20
/// fields after the last `)`; else the pid, the text between the first `(`
/// and the last `)`, and the fields 1, 12, 13 and 20 after it (the last
/// three read as `u64`, or 0).
pub open spec fn parse_stat_spec(c: Seq<char>) -> Option<
    (int, Seq<char>, Seq<char>, int, int, int),
> {
    match rfind_char(c, ')') {
        None => None,
        Some(close) => match find_char(c, '(') {
            None => None,
            Some(open) => match parse_dec(trim(c.take(open)), u32::MAX as int) {
                None => None,
                Some(pid) => {
                    let t = stat_tokens(c, close);
                    if t.len() < 20 {
                        None
                    } else {
                        Some(
                            (
                                pid,
                                c.subrange(open + 1, close),
                                t[0],
                                or_zero(parse_dec(t[11], u64::MAX as int)),
                                or_zero(parse_dec(t[12], u64::MAX as int)),
                                or_zero(parse_dec(t[19], u64::MAX as int)),
                            ),
                        )
                    }
                },
            },
        },
    }
}

/// In a `stat` text with a pid before its first `(`, that `(` comes before
/// the last `)`: the text before it holds digits, a sign and white space only.
proof fn lemma_stat_parens(c: Seq<char>, open: int, close: int)
    requires
        find_char(c, '(') == Some(open),
        rfind_char(c, ')') == Some(close),
        parse_dec(trim(c.take(open)), u32::MAX as int) is Some,
    ensures
        open < close,
{
    lemma_found_char(c, '(');
    lemma_found_char(c, ')');
    if close < open {
        let p = c.take(open);
        assert(p[close] == ')');
        let j = lemma_trim_keeps(p, close);
        let t = trim(p);
        let d = unsigned_body(t);
        if t.len() > 0 && t[0] == '+' {
            assert(d[j - 1] == t[j]);
        } else {
            assert(d[j] == t[j]);
        }
    }
}

fn u64_or_zero(s: &Vec<char>) -> (r: u64)
    ensures
        r == or_zero(parse_dec(s@, u64::MAX as int)),
{
    match parse_u64(s) {
        Some(v) => v,
        None => 0,
    }
}

/// The pid, command name, state and times of a process's `stat` text.
pub fn parse_stat(content: &str) -> (r: Option<ProcStat>)
    ensures
        match (r, parse_stat_spec(content@)) {
            (Some(p), Some(s)) => {
                &&& p.pid == s.0
                &&& p.comm@ == s.1
                &&& p.state@ == s.2
                &&& p.utime == s.3
                &&& p.stime == s.4
                &&& p.starttime == s.5
            },
            (None, None) => true,
            _ => false,
        },
{
    let c = to_chars(content);
    let close = match rfind(&c, ')') {
        Some(i) => i,
        None => return None,
    };
    let open = match find(&c, '(') {
        Some(i) => i,
        None => return None,
    };
    let head = trim_chars(&subrange_chars(&c, 0, open));
    proof {
        assert(c@.subrange(0, open as int) =~= c@.take(open as int));
    }
    let pid = match parse_u32(&head) {
        Some(p) => p,
        None => return None,
    };
    proof {
        lemma_stat_parens(c@, open as int, close as int);
    }
    let comm = subrange_chars(&c, open + 1, close);
    let rest = trim_chars(&skip_chars(&c, close + 1));
    let tokens = split_whitespace(&rest);
    if tokens.len() < 20 {
        return None;
    }
    let ghost t = stat_tokens(c@, close as int);
    proof {
        assert(t == views(tokens@));
        assert(t[0] == tokens@[0]@);
        assert(t[11] == tokens@[11]@);
        assert(t[12] == tokens@[12]@);
        assert(t[19] == tokens@[19]@);
    }
    let state = chars_to_string(&tokens[0]);
    let utime = u64_or_zero(&tokens[11]);
    let stime = u64_or_zero(&tokens[12]);
    let starttime = u64_or_zero(&tokens[19]);
    Some(ProcStat { pid, comm: chars_to_string(&comm), state, utime, stime, starttime })
}

/// The number in kB of the first line of `ls` that begins with `key` and has
/// a word after it: that word read as a `u64`, or 0; 0 when no line does.
pub open spec fn kb_field_from(ls: Seq<Seq<char>>, key: Seq<char>) -> int
    decreases ls.len(),
{
    if ls.len() == 0 {
        0
    } else if starts_with(ls[0], key) && words(trim(ls[0].skip(key.len() as int))).len() > 0 {
        or_zero(parse_dec(words(trim(ls[0].skip(key.len() as int)))[0], u64::MAX as int))
    } else {
        kb_field_from(ls.drop_first(), key)
    }
}

/// The kB figure of the `key` line of a `/proc` text such as `status` or
/// `meminfo`.
pub fn kb_field(content: &str, key: &str) -> (r: u64)
    ensures
        r == kb_field_from(lines(content@), key@),
{
    let ls = split_lines(&to_chars(content));
    let kv = to_chars(key);
    let ghost all = views(ls@);
    let mut i: usize = 0;
    proof {
        assert(all.skip(0) =~= all);
    }
    while i < ls.len()
        invariant
            i <= ls.len(),
            all == views(ls@),
            all == lines(content@),
            kv@ == key@,
            kb_field_from(all.skip(i as int), key@) == kb_field_from(all, key@),
        decreases ls.len() - i,
    {
        let line = &ls[i];
        proof {
            assert(all.skip(i as int)[0] == line@);
            assert(all.skip(i as int).drop_first() =~= all.skip(i + 1));
        }
        if starts_with_str(line, key) {
            let val = trim_chars(&skip_chars(line, kv.len()));
            let w = split_whitespace(&val);
            if w.len() > 0 {
                proof {
                    assert(views(w@)[0] == w@[0]@);
                }
                return u64_or_zero(&w[0]);
            }
        }
        i = i + 1;
    }
    0
}

/// The resident memory in kB that a `status` text gives (`VmRSS:`), or 0.
pub fn parse_status(content: &str) -> (r: u64)
    ensures
        r == kb_field_from(lines(content@), "VmRSS:"@),
{
    kb_field(content, "VmRSS:")
}

/// The total memory in kB that a `meminfo` text gives (`MemTotal:`), or 0.
pub fn total_memory_kb(content: &str) -> (r: u64)
    ensures
        r == kb_field_from(lines(content@), "MemTotal:"@),
{
    kb_field(content, "MemTotal:")
}

/// `s` with every NUL character made a space.
pub open spec fn nul_to_space(s: Seq<char>) -> Seq<char> {
    Seq::new(s.len(), |i: int| if s[i] == '\0' { ' ' } else { s[i] })
}

/// The command line shown for a decoded `cmdline` text: NULs made spaces,
/// then trimmed.
pub open spec fn cmdline_spec(text: Seq<char>) -> Seq<char> {
    trim(nul_to_space(text))
}

/// The name of what `String::from_utf8_lossy` gives for the bytes.
pub uninterp spec fn lossy_utf8(bytes: Seq<u8>) -> Seq<char>;

/// `String::from_utf8_lossy` (std): the characters that the bytes encode in
/// UTF-8, with U+FFFD in place of each invalid sequence. Stated: the result
/// is `lossy_utf8` of the bytes, and for valid UTF-8 it is what the bytes
/// decode to. The rules for replacing invalid sequences are left unsaid.
#[verifier::external_body]
fn from_utf8_lossy(bytes: &Vec<u8>) -> (s: String)
    ensures
        s@ == lossy_utf8(bytes@),
        valid_utf8(bytes@) ==> s@ == decode_utf8(bytes@),
{
    String::from_utf8_lossy(bytes.as_slice()).into_owned()
}

/// The command line from a decoded `cmdline` text: NULs made spaces, trimmed.
pub fn cmdline_from_text(text: &str) -> (r: String)
    ensures
        r@ == cmdline_spec(text@),
{
    let v = to_chars(text);
    let mut out: Vec<char> = Vec::new();
    let mut i: usize = 0;
    while i < v.len()
        invariant
            i <= v.len(),
            out@ == nul_to_space(v@).take(i as int),
        decreases v.len() - i,
    {
        let c = v[i];
        out.push(if c == '\0' { ' ' } else { c });
        i = i + 1;
        proof {
            assert(out@ =~= nul_to_space(v@).take(i as int));
        }
    }
    proof {
        assert(nul_to_space(v@).take(v.len() as int) =~= nul_to_space(v@));
    }
    chars_to_string(&trim_chars(&out))
}

/// What `read_cmdline` gives for the bytes of a `cmdline` file: nothing for
/// no bytes, else their lossy UTF-8 decoding with NULs made spaces, trimmed.
pub open spec fn read_cmdline_spec(bytes: Seq<u8>) -> Seq<char> {
    if bytes.len() == 0 {
        Seq::empty()
    } else {
        cmdline_spec(lossy_utf8(bytes))
    }
}

/// The command line of a process from the bytes of its `cmdline` file.
pub fn read_cmdline(data: &Vec<u8>) -> (r: String)
    ensures
        r@ == read_cmdline_spec(data@),
        valid_utf8(data@) ==> r@ == cmdline_spec(decode_utf8(data@)),
{
    if data.len() == 0 {
        proof {
            assert(decode_utf8(data@) =~= Seq::<char>::empty());
            assert(cmdline_spec(Seq::<char>::empty()) =~= Seq::<char>::empty());
        }
        return String::new();
    }
    let s = from_utf8_lossy(data);
    cmdline_from_text(s.as_str())
}

/// What the report keeps of a process.
pub struct ProcInfo {
    pub pid: u32,
    pub state: String,
    pub utime: u64,
    pub stime: u64,
    pub starttime: u64,
    pub vm_rss: u64,
    pub cmdline: String,
}

/// The command shown for a process: `[comm]` without a command line, else
/// its first 55 characters.
pub open spec fn display_cmd_spec(cmdline: Seq<char>, comm: Seq<char>) -> Seq<char> {
    if cmdline.len() == 0 {
        "["@ + comm + "]"@
    } else if cmdline.len() <= 55 {
        cmdline
    } else {
        cmdline.take(55)
    }
}

/// Law: without a command line a process is shown by its command name in
/// square brackets; with one, by the start of its command line, all of it
/// up to 55 characters and its first 55 characters beyond that.
pub proof fn display_cmd_shows_start(cmdline: Seq<char>, comm: Seq<char>)
    ensures
        cmdline.len() == 0 ==> display_cmd_spec(cmdline, comm) == seq!['['] + comm + seq![']'],
        cmdline.len() > 0 ==> {
            let d = display_cmd_spec(cmdline, comm);
            &&& d.len() == (if cmdline.len() < 55 {
                cmdline.len()
            } else {
                55
            })
            &&& d == cmdline.take(d.len() as int)
        },
{
    reveal_strlit("[");
    reveal_strlit("]");
    if cmdline.len() == 0 {
        assert(display_cmd_spec(cmdline, comm) =~= seq!['['] + comm + seq![']']);
    } else if cmdline.len() <= 55 {
        assert(cmdline.take(cmdline.len() as int) =~= cmdline);
    }
}

/// The command shown for a process.
pub fn display_cmd(cmdline: &str, comm: &str) -> (r: String)
    ensures
        r@ == display_cmd_spec(cmdline@, comm@),
{
    let v = to_chars(cmdline);
    if v.len() == 0 {
        let mut out: Vec<char> = Vec::new();
        push_str(&mut out, "[");
        push_str(&mut out, comm);
        push_str(&mut out, "]");
        chars_to_string(&out)
    } else if v.len() <= 55 {
        chars_to_string(&v)
    } else {
        let t = subrange_chars(&v, 0, 55);
        proof {
            assert(v@.subrange(0, 55) =~= v@.take(55));
        }
        chars_to_string(&t)
    }
}

/// What the files of the process directory `name` give: `None` when the
/// name is not a pid other than 0 (a `u32`), or there is no readable `stat`
/// text, or it does not parse; else the pid, the state and times of the
/// `stat` text, the resident memory of the `status` text, and the command
/// shown.
pub open spec fn proc_info_spec(
    name: Seq<char>,
    stat: Option<Seq<char>>,
    status: Seq<char>,
    cmdline: Seq<u8>,
) -> Option<(int, Seq<char>, int, int, int, int, Seq<char>)> {
    let pid = or_zero(parse_dec(name, u32::MAX as int));
    if pid == 0 {
        None
    } else {
        match stat {
            None => None,
            Some(c) => match parse_stat_spec(c) {
                None => None,
                Some(st) => Some(
                    (
                        pid,
                        st.2,
                        st.3,
                        st.4,
                        st.5,
                        kb_field_from(lines(status), "VmRSS:"@),
                        display_cmd_spec(read_cmdline_spec(cmdline), st.1),
                    ),
                ),
            },
        }
    }
}

/// What the report keeps of the process directory `name`, from the text of
/// its `stat` file (where it could be read), its `status` text and the bytes
/// of its `cmdline` file.
pub fn proc_info(name: &str, stat: &Option<String>, status: &str, cmdline: &Vec<u8>) -> (r: Option<ProcInfo>)
    ensures
        match (r, proc_info_spec(name@, match *stat { Some(c) => Some(c@), None => None }, status@, cmdline@)) {
            (Some(p), Some(s)) => {
                &&& p.pid == s.0
                &&& p.state@ == s.1
                &&& p.utime == s.2
                &&& p.stime == s.3
                &&& p.starttime == s.4
                &&& p.vm_rss == s.5
                &&& p.cmdline@ == s.6
            },
            (None, None) => true,
            _ => false,
        },
{
    let pid = match parse_u32(&to_chars(name)) {
        Some(p) => p,
        None => 0,
    };
    if pid == 0 {
        return None;
    }
    let st = match stat {
        Some(c) => match parse_stat(c.as_str()) {
            Some(st) => st,
            None => return None,
        },
        None => return None,
    };
    let vm_rss = parse_status(status);
    let cmd = read_cmdline(cmdline);
    let shown = display_cmd(cmd.as_str(), st.comm.as_str());
    Some(ProcInfo {
        pid,
        state: st.state,
        utime: st.utime,
        stime: st.stime,
        starttime: st.starttime,
        vm_rss,
        cmdline: shown,
    })
}

/// How a state letter is counted: 0 running (`R`), 1 sleeping (`S`, `D`),
/// 2 zombie (`Z`), 3 stopped (`T`, `t`), 4 none of these.
pub open spec fn state_class(s: Seq<char>) -> int {
    if s == "R"@ {
        0
    } else if s == "S"@ || s == "D"@ {
        1
    } else if s == "Z"@ {
        2
    } else if s == "T"@ || s == "t"@ {
        3
    } else {
        4
    }
}

/// Number of the processes of `ps` in state class `k`.
pub open spec fn count_class(ps: Seq<ProcInfo>, k: int) -> nat
    decreases ps.len(),
{
    if ps.len() == 0 {
        0
    } else {
        count_class(ps.drop_last(), k) + (if state_class(ps.last().state@) == k {
            1nat
        } else {
            0nat
        })
    }
}

/// The five count lines: the number of processes, then those running,
/// sleeping, zombie and stopped.
pub open spec fn summary_spec(ps: Seq<ProcInfo>) -> Seq<Seq<char>> {
    seq![
        count_line("process.total"@, ps.len()),
        count_line("process.running"@, count_class(ps, 0)),
        count_line("process.sleeping"@, count_class(ps, 1)),
        count_line("process.zombie"@, count_class(ps, 2)),
        count_line("process.stopped"@, count_class(ps, 3)),
    ]
}

proof fn lemma_count_is_filter(ps: Seq<ProcInfo>, k: int, pred: spec_fn(ProcInfo) -> bool)
    requires
        forall|p: ProcInfo| #[trigger] pred(p) <==> state_class(p.state@) == k,
    ensures
        count_class(ps, k) == ps.filter(pred).len(),
    decreases ps.len(),
{
    reveal_with_fuel(Seq::filter, 1);
    if ps.len() > 0 {
        lemma_count_is_filter(ps.drop_last(), k, pred);
        assert(pred(ps.last()) <==> state_class(ps.last().state@) == k);
    }
}

/// Law: the count lines give the number of processes, then those whose
/// state is `R` (running), `S` or `D` (sleeping), `Z` (zombie), and `T` or
/// `t` (stopped); processes in any other state count in the total only.
pub proof fn summary_counts_by_state(ps: Seq<ProcInfo>)
    ensures
        summary_spec(ps) == seq![
            count_line("process.total"@, ps.len()),
            count_line("process.running"@, ps.filter(|p: ProcInfo| p.state@ == "R"@).len()),
            count_line(
                "process.sleeping"@,
                ps.filter(|p: ProcInfo| p.state@ == "S"@ || p.state@ == "D"@).len(),
            ),
            count_line("process.zombie"@, ps.filter(|p: ProcInfo| p.state@ == "Z"@).len()),
            count_line(
                "process.stopped"@,
                ps.filter(|p: ProcInfo| p.state@ == "T"@ || p.state@ == "t"@).len(),
            ),
        ],
{
    reveal_strlit("R");
    reveal_strlit("S");
    reveal_strlit("D");
    reveal_strlit("Z");
    reveal_strlit("T");
    reveal_strlit("t");
    let fr = |p: ProcInfo| p.state@ == "R"@;
    let fs = |p: ProcInfo| p.state@ == "S"@ || p.state@ == "D"@;
    let fz = |p: ProcInfo| p.state@ == "Z"@;
    let ft = |p: ProcInfo| p.state@ == "T"@ || p.state@ == "t"@;
    assert forall|p: ProcInfo| #[trigger] fr(p) <==> state_class(p.state@) == 0 by {
        if p.state@ == "R"@ {
        } else if p.state@ == "S"@ || p.state@ == "D"@ {
        }
    }
    assert forall|p: ProcInfo| #[trigger] fs(p) <==> state_class(p.state@) == 1 by {
        if p.state@ == "R"@ {
            assert("R"@[0] != "S"@[0] && "R"@[0] != "D"@[0]);
        }
    }
    assert forall|p: ProcInfo| #[trigger] fz(p) <==> state_class(p.state@) == 2 by {
        if p.state@ == "R"@ {
            assert("R"@[0] != "Z"@[0]);
        } else if p.state@ == "S"@ {
            assert("S"@[0] != "Z"@[0]);
        } else if p.state@ == "D"@ {
            assert("D"@[0] != "Z"@[0]);
        }
    }
    assert forall|p: ProcInfo| #[trigger] ft(p) <==> state_class(p.state@) == 3 by {
        if p.state@ == "R"@ {
            assert("R"@[0] != "T"@[0] && "R"@[0] != "t"@[0]);
        } else if p.state@ == "S"@ {
            assert("S"@[0] != "T"@[0] && "S"@[0] != "t"@[0]);
        } else if p.state@ == "D"@ {
            assert("D"@[0] != "T"@[0] && "D"@[0] != "t"@[0]);
        } else if p.state@ == "Z"@ {
            assert("Z"@[0] != "T"@[0] && "Z"@[0] != "t"@[0]);
        }
    }
    lemma_count_is_filter(ps, 0, fr);
    lemma_count_is_filter(ps, 1, fs);
    lemma_count_is_filter(ps, 2, fz);
    lemma_count_is_filter(ps, 3, ft);
}

fn class_of(s: &String) -> (k: u8)
    ensures
        k == state_class(s@),
{
    let v = to_chars(s.as_str());
    if crate::text::eq_str(&v, "R") {
        0
    } else if crate::text::eq_str(&v, "S") || crate::text::eq_str(&v, "D") {
        1
    } else if crate::text::eq_str(&v, "Z") {
        2
    } else if crate::text::eq_str(&v, "T") || crate::text::eq_str(&v, "t") {
        3
    } else {
        4
    }
}

proof fn lemma_count_le(ps: Seq<ProcInfo>, k: int)
    ensures
        count_class(ps, k) <= ps.len(),
    decreases ps.len(),
{
    if ps.len() > 0 {
        lemma_count_le(ps.drop_last(), k);
    }
}

/// The count lines of the processes.
pub fn summary_lines(ps: &Vec<ProcInfo>) -> (r: Vec<String>)
    requires
        ps.len() <= u32::MAX,
    ensures
        str_views(r@) == summary_spec(ps@),
{
    let mut counts: [u32; 4] = [0, 0, 0, 0];
    let mut i: usize = 0;
    proof {
        assert(ps@.take(0) =~= Seq::<ProcInfo>::empty());
    }
    while i < ps.len()
        invariant
            i <= ps.len(),
            ps.len() <= u32::MAX,
            forall|k: int| 0 <= k < 4 ==> #[trigger] counts@[k] == count_class(ps@.take(i as int), k),
        decreases ps.len() - i,
    {
        proof {
            assert(ps@.take(i + 1).drop_last() =~= ps@.take(i as int));
            assert forall|k: int| 0 <= k < 4 implies count_class(ps@.take(i as int), k) <= i by {
                lemma_count_le(ps@.take(i as int), k);
            }
        }
        let k = class_of(&ps[i].state);
        if k < 4 {
            let c = counts[k as usize];
            counts[k as usize] = c + 1;
        }
        i = i + 1;
    }
    proof {
        assert(ps@.take(ps.len() as int) =~= ps@);
    }
    let mut r: Vec<String> = Vec::new();
    push_line(&mut r, make_count_line("process.total", ps.len() as u64));
    push_line(&mut r, make_count_line("process.running", counts[0] as u64));
    push_line(&mut r, make_count_line("process.sleeping", counts[1] as u64));
    push_line(&mut r, make_count_line("process.zombie", counts[2] as u64));
    push_line(&mut r, make_count_line("process.stopped", counts[3] as u64));
    proof {
        assert(str_views(r@) =~= summary_spec(ps@));
    }
    r
}

/// Positions, below `n`, of the processes with resident memory, in order.
pub open spec fn with_rss(ps: Seq<ProcInfo>, n: int) -> Seq<int>
    decreases n,
{
    if n <= 0 {
        Seq::empty()
    } else if ps[n - 1].vm_rss > 0 {
        with_rss(ps, n - 1).push(n - 1)
    } else {
        with_rss(ps, n - 1)
    }
}

/// `x` put into `order` after every position whose process has at least as
/// much resident memory, and before the rest that follows them at the end.
pub open spec fn insert_by_rss(ps: Seq<ProcInfo>, order: Seq<int>, x: int) -> Seq<int>
    decreases order.len(),
{
    if order.len() == 0 {
        seq![x]
    } else if ps[order.last()].vm_rss >= ps[x].vm_rss {
        order.push(x)
    } else {
        insert_by_rss(ps, order.drop_last(), x).push(order.last())
    }
}

/// The positions sorted by resident memory, largest first, keeping the order
/// of equal ones (a stable sort, as `sort_by` does).
pub open spec fn rss_sort(ps: Seq<ProcInfo>, idx: Seq<int>) -> Seq<int>
    decreases idx.len(),
{
    if idx.len() == 0 {
        Seq::empty()
    } else {
        insert_by_rss(ps, rss_sort(ps, idx.drop_last()), idx.last())
    }
}

/// The positions of the (at most) ten processes with the most resident
/// memory, largest first.
pub open spec fn top_mem_order(ps: Seq<ProcInfo>) -> Seq<int> {
    let r = rss_sort(ps, with_rss(ps, ps.len() as int));
    if r.len() <= 10 {
        r
    } else {
        r.take(10)
    }
}

/// The three lines of the process at rank `i`: pid, resident memory, command.
pub open spec fn top_mem_entry(i: nat, p: ProcInfo) -> Seq<Seq<char>> {
    seq![
        item_line("process.topmem"@, i, "pid"@, dec(p.pid as nat)),
        item_line("process.topmem"@, i, "mem"@, dec(p.vm_rss as nat)),
        item_line("process.topmem"@, i, "cmd"@, p.cmdline@),
    ]
}

/// The lines at rank `q` of `r` are those of the process at position `o[q]`.
pub open spec fn top_mem_at(r: Seq<String>, q: int, ps: Seq<ProcInfo>, o: Seq<int>) -> bool {
    &&& r[3 * q + 1]@ == top_mem_entry(q as nat, ps[o[q]])[0]
    &&& r[3 * q + 2]@ == top_mem_entry(q as nat, ps[o[q]])[1]
    &&& r[3 * q + 3]@ == top_mem_entry(q as nat, ps[o[q]])[2]
}

proof fn lemma_insert_rss_at(ps: Seq<ProcInfo>, s: Seq<int>, x: int, j: int)
    requires
        0 <= j <= s.len(),
        forall|k: int| j <= k < s.len() ==> ps[#[trigger] s[k]].vm_rss < ps[x].vm_rss,
        j == 0 || ps[s[j - 1]].vm_rss >= ps[x].vm_rss,
    ensures
        insert_by_rss(ps, s, x) == s.insert(j, x),
    decreases s.len() - j,
{
    if s.len() == 0 {
        assert(s.insert(j, x) =~= seq![x]);
    } else if j == s.len() {
        assert(s.insert(j, x) =~= s.push(x));
    } else {
        let t = s.drop_last();
        assert(ps[s[s.len() - 1]].vm_rss < ps[x].vm_rss);
        assert forall|k: int| j <= k < t.len() implies ps[#[trigger] t[k]].vm_rss < ps[x].vm_rss by {
            assert(t[k] == s[k]);
        }
        lemma_insert_rss_at(ps, t, x, j);
        assert(t.insert(j, x).push(s.last()) =~= s.insert(j, x));
    }
}

/// The positions, below `ps.len()`, of the processes with resident memory.
fn rss_positions(ps: &Vec<ProcInfo>) -> (r: Vec<usize>)
    ensures
        r@.map_values(|i: usize| i as int) == with_rss(ps@, ps.len() as int),
        forall|k: int| 0 <= k < r.len() ==> #[trigger] r@[k] < ps.len(),
{
    let mut r: Vec<usize> = Vec::new();
    let mut n: usize = 0;
    proof {
        assert(r@.map_values(|i: usize| i as int) =~= Seq::<int>::empty());
    }
    while n < ps.len()
        invariant
            n <= ps.len(),
            r@.map_values(|i: usize| i as int) == with_rss(ps@, n as int),
            forall|k: int| 0 <= k < r.len() ==> #[trigger] r@[k] < n,
        decreases ps.len() - n,
    {
        if ps[n].vm_rss > 0 {
            let ghost prev = r@;
            r.push(n);
            proof {
                assert(r@.map_values(|i: usize| i as int) =~= prev.map_values(|i: usize| i as int).push(n as int));
            }
        }
        n = n + 1;
    }
    r
}

/// The lines of the processes with the most resident memory: their number
/// (at most ten), then for each, largest first, its pid, resident memory in
/// kB and command.
pub fn top_mem_lines(ps: &Vec<ProcInfo>) -> (r: Vec<String>)
    ensures
        ({
            let o = top_mem_order(ps@);
            &&& r.len() == 3 * o.len() + 1
            &&& r@[0]@ == count_line("process.topmem_count"@, o.len())
            &&& forall|i: int| 0 <= i < o.len() ==> #[trigger] top_mem_at(r@, i, ps@, o)
        }),
{
    let pos = rss_positions(ps);
    let ghost all = pos@.map_values(|i: usize| i as int);
    let mut order: Vec<usize> = Vec::new();
    let mut i: usize = 0;
    proof {
        assert(all.take(0) =~= Seq::<int>::empty());
        assert(order@.map_values(|i: usize| i as int) =~= Seq::<int>::empty());
    }
    while i < pos.len()
        invariant
            i <= pos.len(),
            all == pos@.map_values(|i: usize| i as int),
            all == with_rss(ps@, ps.len() as int),
            forall|k: int| 0 <= k < pos.len() ==> #[trigger] pos@[k] < ps.len(),
            forall|k: int| 0 <= k < order.len() ==> #[trigger] order@[k] < ps.len(),
            order@.map_values(|i: usize| i as int) == rss_sort(ps@, all.take(i as int)),
        decreases pos.len() - i,
    {
        let x = pos[i];
        let ghost os = order@.map_values(|i: usize| i as int);
        let mut j: usize = order.len();
        while j > 0 && ps[order[j - 1]].vm_rss < ps[x].vm_rss
            invariant
                j <= order.len(),
                x < ps.len(),
                os == order@.map_values(|i: usize| i as int),
                forall|k: int| 0 <= k < order.len() ==> #[trigger] order@[k] < ps.len(),
                forall|k: int| j <= k < order.len() ==> ps@[#[trigger] os[k]].vm_rss < ps@[x as int].vm_rss,
            decreases j,
        {
            j = j - 1;
        }
        proof {
            lemma_insert_rss_at(ps@, os, x as int, j as int);
            assert(all.take(i + 1).drop_last() =~= all.take(i as int));
            assert(all.take(i + 1).last() == x as int);
        }
        order.insert(j, x);
        proof {
            assert(order@.map_values(|i: usize| i as int) =~= os.insert(j as int, x as int));
        }
        i = i + 1;
    }
    proof {
        assert(all.take(pos.len() as int) =~= all);
    }
    let ghost o = top_mem_order(ps@);
    let k: usize = if order.len() <= 10 { order.len() } else { 10 };
    let mut r: Vec<String> = Vec::new();
    r.push(make_count_line("process.topmem_count", k as u64));
    let mut t: usize = 0;
    while t < k
        invariant
            t <= k,
            k <= order.len(),
            o.len() == k,
            forall|q: int| 0 <= q < k ==> o[q] == order@[q] as int,
            forall|q: int| 0 <= q < order.len() ==> #[trigger] order@[q] < ps.len(),
            r.len() == 3 * t + 1,
            r@[0]@ == count_line("process.topmem_count"@, o.len()),
            forall|q: int| 0 <= q < t ==> #[trigger] top_mem_at(r@, q, ps@, o),
        decreases k - t,
    {
        let p = &ps[order[t]];
        let ghost prev = r@;
        let mut pid: Vec<char> = Vec::new();
        push_dec(&mut pid, p.pid as u64);
        let mut mem: Vec<char> = Vec::new();
        push_dec(&mut mem, p.vm_rss);
        r.push(make_item_line("process.topmem", t as u64, "pid", &pid));
        r.push(make_item_line("process.topmem", t as u64, "mem", &mem));
        r.push(make_item_line("process.topmem", t as u64, "cmd", &to_chars(p.cmdline.as_str())));
        proof {
            let e = top_mem_entry(t as nat, ps@[o[t as int]]);
            assert(r@[3 * t + 1]@ == e[0]);
            assert(r@[3 * t + 2]@ == e[1]);
            assert(r@[3 * t + 3]@ == e[2]);
            assert forall|q: int| 0 <= q < t + 1 implies #[trigger] top_mem_at(r@, q, ps@, o) by {
                if q < t {
                    assert(top_mem_at(prev, q, ps@, o));
                    assert(r@[3 * q + 1] == prev[3 * q + 1]);
                    assert(r@[3 * q + 2] == prev[3 * q + 2]);
                    assert(r@[3 * q + 3] == prev[3 * q + 3]);
                }
            }
        }
        t = t + 1;
    }
    r
}

/// The positions are in order of resident memory, largest first.
pub open spec fn rss_descending(ps: Seq<ProcInfo>, o: Seq<int>) -> bool {
    forall|i: int, j: int|
        0 <= i < j < o.len() ==> ps[#[trigger] o[i]].vm_rss >= ps[#[trigger] o[j]].vm_rss
}

proof fn lemma_insert_rss_multiset(ps: Seq<ProcInfo>, s: Seq<int>, x: int)
    ensures
        insert_by_rss(ps, s, x).to_multiset() =~= s.to_multiset().insert(x),
    decreases s.len(),
{
    broadcast use vstd::seq_lib::group_to_multiset_ensures;

    if s.len() == 0 {
        assert(seq![x] =~= Seq::<int>::empty().push(x));
        assert(s =~= Seq::<int>::empty());
    } else if ps[s.last()].vm_rss >= ps[x].vm_rss {
    } else {
        lemma_insert_rss_multiset(ps, s.drop_last(), x);
        assert(s.drop_last().push(s.last()) =~= s);
    }
}

proof fn lemma_insert_rss_sorted(ps: Seq<ProcInfo>, s: Seq<int>, x: int)
    requires
        rss_descending(ps, s),
    ensures
        rss_descending(ps, insert_by_rss(ps, s, x)),
    decreases s.len(),
{
    broadcast use vstd::seq_lib::group_to_multiset_ensures;

    if s.len() == 0 {
    } else if ps[s.last()].vm_rss >= ps[x].vm_rss {
        let r = s.push(x);
        assert forall|i: int, j: int| 0 <= i < j < r.len() implies ps[#[trigger] r[i]].vm_rss
            >= ps[#[trigger] r[j]].vm_rss by {
            if j == s.len() {
                if i < s.len() - 1 {
                    assert(ps[s[i]].vm_rss >= ps[s[s.len() - 1]].vm_rss);
                }
            } else {
                assert(r[i] == s[i] && r[j] == s[j]);
            }
        }
    } else {
        let t = s.drop_last();
        let last = s.last();
        assert(rss_descending(ps, t)) by {
            assert forall|i: int, j: int| 0 <= i < j < t.len() implies ps[#[trigger] t[i]].vm_rss
                >= ps[#[trigger] t[j]].vm_rss by {
                assert(t[i] == s[i] && t[j] == s[j]);
            }
        }
        lemma_insert_rss_sorted(ps, t, x);
        lemma_insert_rss_multiset(ps, t, x);
        let inner = insert_by_rss(ps, t, x);
        let r = inner.push(last);
        assert forall|i: int, j: int| 0 <= i < j < r.len() implies ps[#[trigger] r[i]].vm_rss
            >= ps[#[trigger] r[j]].vm_rss by {
            if j == inner.len() {
                let y = inner[i];
                assert(inner.contains(y));
                assert(inner.to_multiset().count(y) > 0);
                if y != x {
                    assert(t.to_multiset().count(y) > 0);
                    assert(t.contains(y));
                    let k = choose|k: int| 0 <= k < t.len() && t[k] == y;
                    assert(s[k] == y);
                    assert(ps[s[k]].vm_rss >= ps[s[s.len() - 1]].vm_rss);
                }
            } else {
                assert(r[i] == inner[i] && r[j] == inner[j]);
            }
        }
    }
}

/// Law: the sort by resident memory puts the positions in order, largest
/// first, each as many times as given.
pub proof fn rss_sort_ordered_permutation(ps: Seq<ProcInfo>, idx: Seq<int>)
    ensures
        rss_descending(ps, rss_sort(ps, idx)),
        rss_sort(ps, idx).to_multiset() == idx.to_multiset(),
    decreases idx.len(),
{
    broadcast use vstd::seq_lib::group_to_multiset_ensures;

    if idx.len() > 0 {
        rss_sort_ordered_permutation(ps, idx.drop_last());
        lemma_insert_rss_sorted(ps, rss_sort(ps, idx.drop_last()), idx.last());
        lemma_insert_rss_multiset(ps, rss_sort(ps, idx.drop_last()), idx.last());
        assert(idx.drop_last().push(idx.last()) =~= idx);
    } else {
        assert(rss_sort(ps, idx) =~= idx);
    }
}

proof fn lemma_with_rss(ps: Seq<ProcInfo>, n: int, k: int)
    requires
        0 <= n <= ps.len(),
        0 <= k < with_rss(ps, n).len(),
    ensures
        0 <= with_rss(ps, n)[k] < n,
        ps[with_rss(ps, n)[k]].vm_rss > 0,
    decreases n,
{
    if n > 0 {
        if ps[n - 1].vm_rss > 0 {
            if k < with_rss(ps, n - 1).len() {
                lemma_with_rss(ps, n - 1, k);
            }
        } else {
            lemma_with_rss(ps, n - 1, k);
        }
    }
}

/// Law: the processes listed by resident memory number at most ten, all
/// have resident memory, and come largest first.
pub proof fn top_mem_ranked(ps: Seq<ProcInfo>)
    ensures
        top_mem_order(ps).len() <= 10,
        forall|i: int|
            0 <= i < top_mem_order(ps).len() ==> 0 <= #[trigger] top_mem_order(ps)[i] < ps.len()
                && ps[top_mem_order(ps)[i]].vm_rss > 0,
        rss_descending(ps, top_mem_order(ps)),
{
    broadcast use vstd::seq_lib::group_to_multiset_ensures;

    let w = with_rss(ps, ps.len() as int);
    let r = rss_sort(ps, w);
    rss_sort_ordered_permutation(ps, w);
    let o = top_mem_order(ps);
    assert forall|i: int| 0 <= i < o.len() implies 0 <= #[trigger] o[i] < ps.len() && ps[o[i]].vm_rss
        > 0 by {
        assert(o[i] == r[i]);
        assert(r.contains(r[i]));
        assert(w.to_multiset().count(r[i]) > 0);
        assert(w.contains(r[i]));
        let k = choose|k: int| 0 <= k < w.len() && w[k] == r[i];
        lemma_with_rss(ps, ps.len() as int, k);
    }
    assert forall|i: int, j: int| 0 <= i < j < o.len() implies ps[#[trigger] o[i]].vm_rss
        >= ps[#[trigger] o[j]].vm_rss by {
        assert(o[i] == r[i] && o[j] == r[j]);
    }
}

proof fn lemma_insert_rss_len(ps: Seq<ProcInfo>, o: Seq<int>, x: int)
    ensures
        insert_by_rss(ps, o, x).len() == o.len() + 1,
    decreases o.len(),
{
    if o.len() > 0 {
        lemma_insert_rss_len(ps, o.drop_last(), x);
    }
}

proof fn lemma_rss_sort_len(ps: Seq<ProcInfo>, idx: Seq<int>)
    ensures
        rss_sort(ps, idx).len() == idx.len(),
    decreases idx.len(),
{
    if idx.len() > 0 {
        lemma_rss_sort_len(ps, idx.drop_last());
        lemma_insert_rss_len(ps, rss_sort(ps, idx.drop_last()), idx.last());
    }
}

proof fn lemma_with_rss_len(ps: Seq<ProcInfo>, n: int)
    requires
        0 <= n <= ps.len(),
    ensures
        with_rss(ps, n).len() == ps.take(n).filter(|p: ProcInfo| p.vm_rss > 0).len(),
    decreases n,
{
    reveal_with_fuel(Seq::filter, 1);
    if n > 0 {
        lemma_with_rss_len(ps, n - 1);
        assert(ps.take(n).drop_last() =~= ps.take(n - 1));
        assert(ps.take(n).last() == ps[n - 1]);
    } else {
        assert(ps.take(0) =~= Seq::<ProcInfo>::empty());
    }
}

/// Law: the memory top list has ten entries, or as many as there are
/// processes with resident memory when they are fewer.
pub proof fn top_mem_count(ps: Seq<ProcInfo>)
    ensures
        ({
            let n = ps.filter(|p: ProcInfo| p.vm_rss > 0).len();
            top_mem_order(ps).len() == if n < 10 {
                n
            } else {
                10
            }
        }),
{
    lemma_with_rss_len(ps, ps.len() as int);
    assert(ps.take(ps.len() as int) =~= ps);
    lemma_rss_sort_len(ps, with_rss(ps, ps.len() as int));
}

} // verus!
