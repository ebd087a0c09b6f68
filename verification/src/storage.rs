//! Block devices and file systems: sizes written for people, the disks and
//! partitions that `/sys/block` lists, the mount table, and the report lines.
use vstd::prelude::*;
use crate::num::{dec, zero_pad, push_dec, push_dec2, parse_dec, or_zero, parse_u64};
use crate::num::{lemma_dec_digits, lemma_zero_pad_dec_digits, is_dec_digit};
use crate::report::{sub_item_line, make_sub_item_line, count_line, item_line, str_views, push_line, make_item_line, make_count_line};
use crate::text::{eq_str, words, lines, views, split_lines, split_whitespace, subrange_chars, has_prefix, starts_with_str, trim_start_matches, trim_start_matches_str, starts_with, lacks, lemma_replace_all_skip_prefix, lemma_replace_all_absent, push_str, replace_all, replace_str, to_chars, chars_to_string, trim, trim_chars};

verus! {

/// `b` as a whole number of `unit`, a point, hundredths of `unit` in two
/// digits (rounded down), and `suffix`.
pub open spec fn scaled(b: nat, unit: nat, suffix: Seq<char>) -> Seq<char> {
    dec(b / unit) + "."@ + zero_pad(dec((b % unit) * 100 / unit), 2) + suffix
}

/// A byte count written for people, in the largest binary unit (TiB, GiB,
/// MiB, KiB) that it reaches, else in bytes.
pub open spec fn human_size_spec(b: nat) -> Seq<char> {
    if b >= 1099511627776 {
        scaled(b, 1099511627776, " TiB"@)
    } else if b >= 1073741824 {
        scaled(b, 1073741824, " GiB"@)
    } else if b >= 1048576 {
        scaled(b, 1048576, " MiB"@)
    } else if b >= 1024 {
        scaled(b, 1024, " KiB"@)
    } else {
        dec(b) + " B"@
    }
}

/// The short form: the long form with ` TiB`, ` GiB`, ` MiB`, ` KiB` and ` B`
/// replaced, in that order, by `T`, `G`, `M`, `K` and `B`.
pub open spec fn human_size_short_spec(b: nat) -> Seq<char> {
    replace_all(
        replace_all(
            replace_all(
                replace_all(replace_all(human_size_spec(b), " TiB"@, "T"@), " GiB"@, "G"@),
                " MiB"@,
                "M"@,
            ),
            " KiB"@,
            "K"@,
        ),
        " B"@,
        "B"@,
    )
}

fn push_scaled(out: &mut Vec<char>, b: u64, unit: u64, suffix: &str)
    requires
        unit > 0,
        unit <= 1099511627776,
    ensures
        final(out)@ == old(out)@ + scaled(b as nat, unit as nat, suffix@),
{
    let i = b / unit;
    let f = (b % unit) * 100 / unit;
    push_dec(out, i);
    push_str(out, ".");
    push_dec2(out, f);
    push_str(out, suffix);
    proof {
        assert(final(out)@ =~= old(out)@ + scaled(b as nat, unit as nat, suffix@));
    }
}

/// A byte count written for people, such as `1.50 GiB` or `512 B`.
pub fn human_size(bytes: u64) -> (r: String)
    ensures
        r@ == human_size_spec(bytes as nat),
{
    chars_to_string(&human_size_chars(bytes))
}

fn human_size_chars(bytes: u64) -> (r: Vec<char>)
    ensures
        r@ == human_size_spec(bytes as nat),
{
    let mut out: Vec<char> = Vec::new();
    if bytes >= 1099511627776 {
        push_scaled(&mut out, bytes, 1099511627776, " TiB");
    } else if bytes >= 1073741824 {
        push_scaled(&mut out, bytes, 1073741824, " GiB");
    } else if bytes >= 1048576 {
        push_scaled(&mut out, bytes, 1048576, " MiB");
    } else if bytes >= 1024 {
        push_scaled(&mut out, bytes, 1024, " KiB");
    } else {
        push_dec(&mut out, bytes);
        push_str(&mut out, " B");
    }
    proof {
        assert(out@ =~= human_size_spec(bytes as nat));
    }
    out
}

/// A byte count written shortly for people, such as `1.50G` or `512B`.
pub fn human_size_short(bytes: u64) -> (r: String)
    ensures
        r@ == human_size_short_spec(bytes as nat),
{
    let s = human_size_chars(bytes);
    proof {
        reveal_strlit(" TiB");
        reveal_strlit(" GiB");
        reveal_strlit(" MiB");
        reveal_strlit(" KiB");
        reveal_strlit(" B");
    }
    let s = replace_str(&s, " TiB", "T");
    let s = replace_str(&s, " GiB", "G");
    let s = replace_str(&s, " MiB", "M");
    let s = replace_str(&s, " KiB", "K");
    let s = replace_str(&s, " B", "B");
    chars_to_string(&s)
}

proof fn lemma_figures(b: nat, u: nat)
    requires
        u > 0,
    ensures
        (b / u) * u <= b < (b / u + 1) * u,
        ((b % u) * 100 / u) * u <= (b - (b / u) * u) * 100 < ((b % u) * 100 / u + 1) * u,
{
    let i = b / u;
    let r = b % u;
    let f = r * 100 / u;
    assert(b == i * u + r && 0 <= r < u) by (nonlinear_arith)
        requires
            u > 0,
            i == b / u,
            r == b % u,
    ;
    assert(i * u <= b < (i + 1) * u) by (nonlinear_arith)
        requires
            b == i * u + r,
            0 <= r < u,
    ;
    assert(f * u <= r * 100 < (f + 1) * u) by (nonlinear_arith)
        requires
            u > 0,
            r >= 0,
            f == r * 100 / u,
    ;
}

/// Law: a size written for people uses the largest of KiB, MiB, GiB and TiB
/// that the byte count reaches (plain bytes below 1024), and gives the whole
/// units and the hundredths of a unit both rounded down: the whole number
/// `i` of units of `u` bytes has `i * u <= b < (i + 1) * u`, and the
/// hundredths `f` of the rest have `f * u <= rest * 100 < (f + 1) * u`.
pub proof fn human_size_rounds_down(b: nat)
    ensures
        b < 1024 ==> human_size_spec(b) == dec(b) + " B"@,
        1024 <= b < 1048576 ==> exists|i: nat, f: nat|
            #![trigger dec(i), dec(f)]
            human_size_spec(b) == dec(i) + "."@ + zero_pad(dec(f), 2) + " KiB"@ && i * 1024 <= b < (i
                + 1) * 1024 && f * 1024 <= (b - i * 1024) * 100 < (f + 1) * 1024,
        1048576 <= b < 1073741824 ==> exists|i: nat, f: nat|
            #![trigger dec(i), dec(f)]
            human_size_spec(b) == dec(i) + "."@ + zero_pad(dec(f), 2) + " MiB"@ && i * 1048576 <= b < (i
                + 1) * 1048576 && f * 1048576 <= (b - i * 1048576) * 100 < (f + 1) * 1048576,
        1073741824 <= b < 1099511627776 ==> exists|i: nat, f: nat|
            #![trigger dec(i), dec(f)]
            human_size_spec(b) == dec(i) + "."@ + zero_pad(dec(f), 2) + " GiB"@ && i * 1073741824 <= b < (i
                + 1) * 1073741824 && f * 1073741824 <= (b - i * 1073741824) * 100 < (f + 1) * 1073741824,
        1099511627776 <= b ==> exists|i: nat, f: nat|
            #![trigger dec(i), dec(f)]
            human_size_spec(b) == dec(i) + "."@ + zero_pad(dec(f), 2) + " TiB"@ && i * 1099511627776 <= b < (i
                + 1) * 1099511627776 && f * 1099511627776 <= (b - i * 1099511627776) * 100 < (f + 1) * 1099511627776,
{
    if b >= 1099511627776 {
        lemma_figures(b, 1099511627776);
        let i = b / 1099511627776;
        let f = (b % 1099511627776) * 100 / 1099511627776;
        assert(human_size_spec(b) == dec(i) + "."@ + zero_pad(dec(f), 2) + " TiB"@);
    } else if b >= 1073741824 {
        lemma_figures(b, 1073741824);
        let i = b / 1073741824;
        let f = (b % 1073741824) * 100 / 1073741824;
        assert(human_size_spec(b) == dec(i) + "."@ + zero_pad(dec(f), 2) + " GiB"@);
    } else if b >= 1048576 {
        lemma_figures(b, 1048576);
        let i = b / 1048576;
        let f = (b % 1048576) * 100 / 1048576;
        assert(human_size_spec(b) == dec(i) + "."@ + zero_pad(dec(f), 2) + " MiB"@);
    } else if b >= 1024 {
        lemma_figures(b, 1024);
        let i = b / 1024;
        let f = (b % 1024) * 100 / 1024;
        assert(human_size_spec(b) == dec(i) + "."@ + zero_pad(dec(f), 2) + " KiB"@);
    }
}

/// The sector count that a `size` file holds: its trimmed text as a `u64`,
/// or 0.
pub open spec fn disk_sectors_spec(size_text: Seq<char>) -> int {
    or_zero(parse_dec(trim(size_text), u64::MAX as int))
}

/// The sector count in the text of a `size` file; 0 when it holds none.
pub fn disk_sectors(size_text: &str) -> (r: u64)
    ensures
        r == disk_sectors_spec(size_text@),
{
    let t = trim_chars(&to_chars(size_text));
    match parse_u64(&t) {
        Some(v) => v,
        None => 0,
    }
}

/// The byte count of a disk or partition: its sectors of 512 bytes.
pub fn disk_bytes(size_text: &str) -> (r: u64)
    requires
        disk_sectors_spec(size_text@) * 512 <= u64::MAX,
    ensures
        r == disk_sectors_spec(size_text@) * 512,
{
    disk_sectors(size_text) * 512
}

/// The figure of the long form: whole units, a point and hundredths.
pub open spec fn scaled_figure(b: nat, unit: nat) -> Seq<char> {
    dec(b / unit) + "."@ + zero_pad(dec((b % unit) * 100 / unit), 2)
}

/// The short form written directly: the figure followed by the letter of the
/// unit, or the byte count followed by `B`.
pub open spec fn human_size_compact(b: nat) -> Seq<char> {
    if b >= 1099511627776 {
        scaled_figure(b, 1099511627776) + "T"@
    } else if b >= 1073741824 {
        scaled_figure(b, 1073741824) + "G"@
    } else if b >= 1048576 {
        scaled_figure(b, 1048576) + "M"@
    } else if b >= 1024 {
        scaled_figure(b, 1024) + "K"@
    } else {
        dec(b) + "B"@
    }
}

proof fn lemma_figure_lacks_space(b: nat, unit: nat)
    requires
        unit > 0,
    ensures
        lacks(scaled_figure(b, unit), ' '),
{
    reveal_strlit(".");
    lemma_dec_digits(b / unit);
    lemma_zero_pad_dec_digits((b % unit) * 100 / unit, 2);
    let a = dec(b / unit);
    let z = zero_pad(dec((b % unit) * 100 / unit), 2);
    let f = scaled_figure(b, unit);
    assert forall|i: int| 0 <= i < f.len() implies f[i] != ' ' by {
        if i < a.len() {
            assert(f[i] == a[i]);
            assert(is_dec_digit(a[i]));
        } else if i == a.len() {
            assert(f[i] == '.');
        } else {
            assert(f[i] == z[i - a.len() - 1]);
            assert(is_dec_digit(z[i - a.len() - 1]));
        }
    }
}

proof fn lemma_replace_whole(p: Seq<char>, r: Seq<char>)
    requires
        p.len() > 0,
    ensures
        replace_all(p, p, r) == r,
{
    assert(p.take(p.len() as int) =~= p);
    assert(p.skip(p.len() as int) =~= Seq::<char>::empty());
    assert(replace_all(Seq::<char>::empty(), p, r) == Seq::<char>::empty());
    assert(r + Seq::<char>::empty() =~= r);
}

proof fn lemma_replace_other(x: Seq<char>, p: Seq<char>, r: Seq<char>)
    requires
        x.len() > 0,
        p.len() > 0,
        p[0] == ' ',
        !starts_with(x, p),
        lacks(x.drop_first(), ' '),
    ensures
        replace_all(x, p, r) == x,
{
    lemma_replace_all_absent(x.drop_first(), p, r);
    assert(seq![x[0]] + x.drop_first() =~= x);
}

/// One replacement of a unit pattern in `fig + x`, `x` a unit suffix.
proof fn lemma_replace_step(fig: Seq<char>, x: Seq<char>, p: Seq<char>, r: Seq<char>)
    requires
        lacks(fig, ' '),
        p.len() > 0,
        p[0] == ' ',
        x.len() > 0,
        lacks(x.drop_first(), ' '),
        x == p || !starts_with(x, p),
    ensures
        replace_all(fig + x, p, r) == fig + (if x == p {
            r
        } else {
            x
        }),
{
    lemma_replace_all_skip_prefix(fig, x, p, r);
    if x == p {
        lemma_replace_whole(p, r);
    } else {
        lemma_replace_other(x, p, r);
    }
}

proof fn lemma_lacks_concat(a: Seq<char>, b: Seq<char>, c: char)
    requires
        lacks(a, c),
        lacks(b, c),
    ensures
        lacks(a + b, c),
{
    assert forall|i: int| 0 <= i < (a + b).len() implies (a + b)[i] != c by {
        if i >= a.len() {
            assert((a + b)[i] == b[i - a.len()]);
        }
    }
}

proof fn lemma_short_of(fig: Seq<char>, suffix: Seq<char>, letter: Seq<char>)
    requires
        lacks(fig, ' '),
        suffix == " TiB"@ && letter == "T"@ || suffix == " GiB"@ && letter == "G"@ || suffix
            == " MiB"@ && letter == "M"@ || suffix == " KiB"@ && letter == "K"@ || suffix == " B"@
            && letter == "B"@,
    ensures
        replace_all(
            replace_all(
                replace_all(
                    replace_all(replace_all(fig + suffix, " TiB"@, "T"@), " GiB"@, "G"@),
                    " MiB"@,
                    "M"@,
                ),
                " KiB"@,
                "K"@,
            ),
            " B"@,
            "B"@,
        ) == fig + letter,
{
    reveal_strlit(" TiB");
    reveal_strlit(" GiB");
    reveal_strlit(" MiB");
    reveal_strlit(" KiB");
    reveal_strlit(" B");
    reveal_strlit("T");
    reveal_strlit("G");
    reveal_strlit("M");
    reveal_strlit("K");
    reveal_strlit("B");
    let pt = " TiB"@;
    let pg = " GiB"@;
    let pm = " MiB"@;
    let pk = " KiB"@;
    let pb = " B"@;
    assert(pt != pg && pt != pm && pt != pk && pt != pb) by {
        assert(pt[1] != pg[1] && pt[1] != pm[1] && pt[1] != pk[1] && pt[1] != pb[1]);
    }
    assert(pg != pm && pg != pk && pg != pb) by {
        assert(pg[1] != pm[1] && pg[1] != pk[1] && pg[1] != pb[1]);
    }
    assert(pm != pk && pm != pb) by {
        assert(pm[1] != pk[1] && pm[1] != pb[1]);
    }
    assert(pk != pb) by {
        assert(pk[1] != pb[1]);
    }
    assert(lacks(suffix.drop_first(), ' '));
    assert(lacks(letter, ' '));
    lemma_lacks_concat(fig, letter, ' ');
    // The suffix matches its own pattern only.
    assert(suffix == pt || !starts_with(suffix, pt)) by {
        if suffix != pt && starts_with(suffix, pt) {
            assert(suffix.take(4)[1] == pt[1]);
        }
    }
    assert(suffix == pg || !starts_with(suffix, pg)) by {
        if suffix != pg && starts_with(suffix, pg) {
            assert(suffix.take(4)[1] == pg[1]);
        }
    }
    assert(suffix == pm || !starts_with(suffix, pm)) by {
        if suffix != pm && starts_with(suffix, pm) {
            assert(suffix.take(4)[1] == pm[1]);
        }
    }
    assert(suffix == pk || !starts_with(suffix, pk)) by {
        if suffix != pk && starts_with(suffix, pk) {
            assert(suffix.take(4)[1] == pk[1]);
        }
    }
    assert(suffix == pb || !starts_with(suffix, pb)) by {
        if suffix != pb && starts_with(suffix, pb) {
            assert(suffix.take(2)[1] == pb[1]);
        }
    }
    lemma_replace_step(fig, suffix, pt, "T"@);
    let s1 = fig + (if suffix == pt { "T"@ } else { suffix });
    assert(replace_all(fig + suffix, pt, "T"@) == s1);
    if suffix == pt {
        assert(s1 == fig + letter);
        assert(lacks(s1, ' '));
        lemma_replace_all_absent(s1, pg, "G"@);
        lemma_replace_all_absent(s1, pm, "M"@);
        lemma_replace_all_absent(s1, pk, "K"@);
        lemma_replace_all_absent(s1, pb, "B"@);
    } else {
        lemma_replace_step(fig, suffix, pg, "G"@);
        let s2 = fig + (if suffix == pg { "G"@ } else { suffix });
        if suffix == pg {
            lemma_replace_all_absent(s2, pm, "M"@);
            lemma_replace_all_absent(s2, pk, "K"@);
            lemma_replace_all_absent(s2, pb, "B"@);
        } else {
            lemma_replace_step(fig, suffix, pm, "M"@);
            if suffix == pm {
                lemma_replace_all_absent(fig + "M"@, pk, "K"@);
                lemma_replace_all_absent(fig + "M"@, pb, "B"@);
            } else {
                lemma_replace_step(fig, suffix, pk, "K"@);
                if suffix == pk {
                    lemma_replace_all_absent(fig + "K"@, pb, "B"@);
                } else {
                    lemma_replace_step(fig, suffix, pb, "B"@);
                }
            }
        }
    }
}

/// Law: the short form of a size is the figure of the long form followed by
/// the first letter of its unit (`B` for plain bytes).
pub proof fn human_size_short_is_compact(b: nat)
    ensures
        human_size_short_spec(b) == human_size_compact(b),
{
    if b >= 1099511627776 {
        lemma_figure_lacks_space(b, 1099511627776);
        lemma_short_of(scaled_figure(b, 1099511627776), " TiB"@, "T"@);
        assert(human_size_spec(b) == scaled_figure(b, 1099511627776) + " TiB"@);
    } else if b >= 1073741824 {
        lemma_figure_lacks_space(b, 1073741824);
        lemma_short_of(scaled_figure(b, 1073741824), " GiB"@, "G"@);
        assert(human_size_spec(b) == scaled_figure(b, 1073741824) + " GiB"@);
    } else if b >= 1048576 {
        lemma_figure_lacks_space(b, 1048576);
        lemma_short_of(scaled_figure(b, 1048576), " MiB"@, "M"@);
        assert(human_size_spec(b) == scaled_figure(b, 1048576) + " MiB"@);
    } else if b >= 1024 {
        lemma_figure_lacks_space(b, 1024);
        lemma_short_of(scaled_figure(b, 1024), " KiB"@, "K"@);
        assert(human_size_spec(b) == scaled_figure(b, 1024) + " KiB"@);
    } else {
        lemma_dec_digits(b);
        assert(lacks(dec(b), ' ')) by {
            assert forall|i: int| 0 <= i < dec(b).len() implies dec(b)[i] != ' ' by {
                assert(is_dec_digit(dec(b)[i]));
            }
        }
        lemma_short_of(dec(b), " B"@, "B"@);
    }
}

/// The name of a virtual block device, which the report leaves out.
pub open spec fn is_virtual_disk_spec(name: Seq<char>) -> bool {
    ||| starts_with(name, "loop"@)
    ||| starts_with(name, "ram"@)
    ||| starts_with(name, "dm-"@)
    ||| starts_with(name, "zram"@)
    ||| starts_with(name, "nbd"@)
    ||| starts_with(name, "sr"@)
}

/// Whether `name` in `/sys/block` is a virtual device (loop, ram, dm-, zram,
/// nbd, sr).
pub fn is_virtual_disk(name: &str) -> (b: bool)
    ensures
        b == is_virtual_disk_spec(name@),
{
    let v = to_chars(name);
    starts_with_str(&v, "loop") || starts_with_str(&v, "ram") || starts_with_str(&v, "dm-")
        || starts_with_str(&v, "zram") || starts_with_str(&v, "nbd") || starts_with_str(&v, "sr")
}

/// Number of bytes of the UTF-8 encoding of `c` (`char::len_utf8`).
pub open spec fn utf8_width(c: char) -> nat {
    if (c as u32) < 0x80 {
        1
    } else if (c as u32) < 0x800 {
        2
    } else if (c as u32) < 0x10000 {
        3
    } else {
        4
    }
}

/// Number of bytes of the UTF-8 encoding of `s` (`str::len`).
pub open spec fn utf8_len(s: Seq<char>) -> nat
    decreases s.len(),
{
    if s.len() == 0 {
        0
    } else {
        utf8_len(s.drop_last()) + utf8_width(s.last())
    }
}

fn utf8_len_of(v: &Vec<char>) -> (n: u128)
    ensures
        n == utf8_len(v@),
{
    let mut n: u128 = 0;
    let mut i: usize = 0;
    while i < v.len()
        invariant
            i <= v.len(),
            n == utf8_len(v@.take(i as int)),
            n <= 4 * i,
        decreases v.len() - i,
    {
        let u = v[i] as u32;
        let w: u128 = if u < 0x80 {
            1
        } else if u < 0x800 {
            2
        } else if u < 0x10000 {
            3
        } else {
            4
        };
        proof {
            assert(v@.take(i + 1).drop_last() =~= v@.take(i as int));
        }
        n = n + w;
        i = i + 1;
    }
    proof {
        assert(v@.take(v.len() as int) =~= v@);
    }
    n
}

/// Whether `name` is that of a partition of `disk`: it begins with the
/// disk's name, is longer in bytes, and the character at the position given
/// by the disk name's length in bytes is a decimal digit (`sda1`), or, where
/// the disk's name ends in a digit, is `p` followed by a decimal digit
/// (`nvme0n1p1`, `mmcblk0p2`). For the ASCII names of block devices that
/// position is just after the disk's name.
pub open spec fn is_partition_spec(name: Seq<char>, disk: Seq<char>) -> bool {
    let n = utf8_len(disk) as int;
    &&& starts_with(name, disk)
    &&& utf8_len(name) > n
    &&& n < name.len()
    &&& {
        ||| is_dec_digit(name[n])
        ||| {
            &&& disk.len() > 0
            &&& is_dec_digit(disk.last())
            &&& name[n] == 'p'
            &&& n + 1 < name.len()
            &&& is_dec_digit(name[n + 1])
        }
    }
}

proof fn lemma_utf8_len_concat(a: Seq<char>, b: Seq<char>)
    ensures
        utf8_len(a + b) == utf8_len(a) + utf8_len(b),
        utf8_len(b) >= b.len(),
    decreases b.len(),
{
    if b.len() > 0 {
        lemma_utf8_len_concat(a, b.drop_last());
        assert((a + b).drop_last() =~= a + b.drop_last());
        assert((a + b).last() == b.last());
    } else {
        assert(a + b =~= a);
    }
}

proof fn lemma_utf8_len_ascii(s: Seq<char>)
    requires
        forall|i: int| 0 <= i < s.len() ==> (s[i] as u32) < 0x80,
    ensures
        utf8_len(s) == s.len(),
    decreases s.len(),
{
    if s.len() > 0 {
        lemma_utf8_len_ascii(s.drop_last());
    }
}

/// Law: for a disk with an ASCII name `d` (as block device names are), an
/// entry is one of its partitions exactly when its name is `d` followed by
/// a decimal digit and anything, or, where `d` ends in a digit, by `p`, a
/// decimal digit and anything; no other name is.
pub proof fn partitions_of_ascii_disk(name: Seq<char>, d: Seq<char>)
    requires
        forall|i: int| 0 <= i < d.len() ==> (d[i] as u32) < 0x80,
    ensures
        is_partition_spec(name, d) <==> {
            &&& name.len() > d.len()
            &&& name.take(d.len() as int) == d
            &&& {
                ||| '0' as u32 <= (name[d.len() as int] as u32) <= '9' as u32
                ||| {
                    &&& d.len() > 0
                    &&& '0' as u32 <= (d.last() as u32) <= '9' as u32
                    &&& name[d.len() as int] == 'p'
                    &&& name.len() > d.len() + 1
                    &&& '0' as u32 <= (name[d.len() + 1int] as u32) <= '9' as u32
                }
            }
        },
{
    lemma_utf8_len_ascii(d);
    if name.len() > d.len() && name.take(d.len() as int) == d {
        let r = name.skip(d.len() as int);
        assert(name =~= d + r);
        lemma_utf8_len_concat(d, r);
    }
}

fn is_digit_char(c: char) -> (b: bool)
    ensures
        b == is_dec_digit(c),
{
    let u = c as u32;
    48 <= u && u <= 57
}

/// Whether the entry `name` of a disk's directory is one of its partitions.
pub fn is_partition(name: &str, disk: &str) -> (b: bool)
    ensures
        b == is_partition_spec(name@, disk@),
{
    let nv = to_chars(name);
    let dv = to_chars(disk);
    if !has_prefix(&nv, &dv) {
        return false;
    }
    let nl = utf8_len_of(&nv);
    let dl = utf8_len_of(&dv);
    if nl <= dl || dl >= nv.len() as u128 {
        return false;
    }
    let n = dl as usize;
    if is_digit_char(nv[n]) {
        return true;
    }
    dv.len() > 0 && is_digit_char(dv[dv.len() - 1]) && nv[n] == 'p' && n + 1 < nv.len()
        && is_digit_char(nv[n + 1])
}

/// A mount table line's device name under `/dev/` and mount point: the first
/// two words, when the first with its leading `/dev/`s removed is not empty
/// and had one.
pub open spec fn mount_entry(line: Seq<char>) -> Option<(Seq<char>, Seq<char>)> {
    let w = words(line);
    if w.len() >= 2 {
        let name = trim_start_matches(w[0], "/dev/"@);
        if name.len() > 0 && name != w[0] {
            Some((name, w[1]))
        } else {
            None
        }
    } else {
        None
    }
}

/// Device name to mount point after the lines `ls`; a later line for a name
/// wins.
pub open spec fn mounts_map(ls: Seq<Seq<char>>) -> Map<Seq<char>, Seq<char>>
    decreases ls.len(),
{
    if ls.len() == 0 {
        Map::empty()
    } else {
        match mount_entry(ls.last()) {
            Some((k, v)) => mounts_map(ls.drop_last()).insert(k, v),
            None => mounts_map(ls.drop_last()),
        }
    }
}

/// The map that a list of (name, mount point) pairs makes, later pairs
/// winning.
pub open spec fn assoc(s: Seq<(Seq<char>, Seq<char>)>) -> Map<Seq<char>, Seq<char>>
    decreases s.len(),
{
    if s.len() == 0 {
        Map::empty()
    } else {
        assoc(s.drop_last()).insert(s.last().0, s.last().1)
    }
}

/// The pairs as character sequences.
pub open spec fn pairs_view(s: Seq<(String, String)>) -> Seq<(Seq<char>, Seq<char>)> {
    s.map_values(|e: (String, String)| (e.0@, e.1@))
}

/// Mount points by device name, from `/proc/mounts`.
pub struct Mounts {
    entries: Vec<(String, String)>,
}

impl View for Mounts {
    type V = Map<Seq<char>, Seq<char>>;

    closed spec fn view(&self) -> Map<Seq<char>, Seq<char>> {
        assoc(pairs_view(self.entries@))
    }
}

/// The device name and mount point of a mount table line, where it has them.
fn mount_entry_of(line: &Vec<char>) -> (r: Option<(Vec<char>, Vec<char>)>)
    ensures
        match r {
            Some((a, b)) => mount_entry(line@) == Some((a@, b@)),
            None => mount_entry(line@) is None,
        },
{
    let w = split_whitespace(line);
    if w.len() < 2 {
        return None;
    }
    let name = trim_start_matches_str(&w[0], "/dev/");
    if name.len() > 0 && !same_chars(&name, &w[0]) {
        Some((name, subrange_chars(&w[1], 0, w[1].len())))
    } else {
        None
    }
}

impl Mounts {
    /// The mount table that the text of `/proc/mounts` gives.
    pub fn parse(content: &str) -> (m: Mounts)
        ensures
            m@ == mounts_map(lines(content@)),
    {
        let text = to_chars(content);
        let ls = split_lines(&text);
        let ghost all = views(ls@);
        let mut entries: Vec<(String, String)> = Vec::new();
        let mut i: usize = 0;
        proof {
            assert(all.take(0) =~= Seq::<Seq<char>>::empty());
            assert(pairs_view(entries@) =~= Seq::empty());
        }
        while i < ls.len()
            invariant
                i <= ls.len(),
                all == views(ls@),
                all == lines(content@),
                assoc(pairs_view(entries@)) == mounts_map(all.take(i as int)),
            decreases ls.len() - i,
        {
            proof {
                assert(all.take(i + 1).drop_last() =~= all.take(i as int));
                assert(all.take(i + 1).last() == ls@[i as int]@);
            }
            match mount_entry_of(&ls[i]) {
                Some((k, v)) => {
                    let ghost prev = entries@;
                    entries.push((chars_to_string(&k), chars_to_string(&v)));
                    proof {
                        assert(pairs_view(entries@).drop_last() =~= pairs_view(prev));
                    }
                },
                None => {},
            }
            i = i + 1;
        }
        proof {
            assert(all.take(ls.len() as int) =~= all);
        }
        Mounts { entries }
    }

    /// The mount point of the device `name`, or an empty string.
    pub fn get(&self, name: &str) -> (r: String)
        ensures
            r@ == (if self@.contains_key(name@) {
                self@[name@]
            } else {
                Seq::<char>::empty()
            }),
    {
        let key = to_chars(name);
        let ghost s = pairs_view(self.entries@);
        let mut j: usize = self.entries.len();
        proof {
            assert(s.take(j as int) =~= s);
        }
        while j > 0
            invariant
                j <= self.entries.len(),
                s == pairs_view(self.entries@),
                key@ == name@,
                assoc(s.take(j as int)).contains_key(name@) == assoc(s).contains_key(name@),
                assoc(s).contains_key(name@) ==> assoc(s.take(j as int))[name@] == assoc(s)[name@],
            decreases j,
        {
            let e = &self.entries[j - 1];
            let ek = to_chars(e.0.as_str());
            proof {
                assert(s.take(j as int).drop_last() =~= s.take(j - 1));
                assert(s.take(j as int).last() == (e.0@, e.1@));
                assert(assoc(s.take(j as int)) == assoc(s.take(j - 1)).insert(e.0@, e.1@));
            }
            if same_chars(&ek, &key) {
                return e.1.clone();
            }
            j = j - 1;
        }
        String::new()
    }
}

/// Whether the two character vectors are equal.
pub fn same_chars(a: &Vec<char>, b: &Vec<char>) -> (r: bool)
    ensures
        r == (a@ == b@),
{
    if a.len() != b.len() {
        return false;
    }
    let r = has_prefix(a, b);
    proof {
        assert(a@.take(b.len() as int) =~= a@);
    }
    r
}

/// A pseudo file system type, which the file-system report leaves out.
pub open spec fn is_pseudo_fs_spec(t: Seq<char>) -> bool {
    ||| t == "tmpfs"@
    ||| t == "devtmpfs"@
    ||| t == "proc"@
    ||| t == "sysfs"@
    ||| t == "cgroup"@
    ||| t == "cgroup2"@
    ||| t == "efivarfs"@
    ||| t == "devpts"@
    ||| t == "pstore"@
    ||| t == "securityfs"@
    ||| t == "selinuxfs"@
    ||| t == "hugetlbfs"@
    ||| t == "mqueue"@
    ||| t == "debugfs"@
    ||| t == "tracefs"@
    ||| t == "configfs"@
    ||| t == "binfmt_misc"@
    ||| t == "autofs"@
    ||| t == "overlay"@
}

/// Whether `t` names a pseudo file system.
pub fn is_pseudo_fs(t: &Vec<char>) -> (b: bool)
    ensures
        b == is_pseudo_fs_spec(t@),
{
    eq_str(t, "tmpfs") || eq_str(t, "devtmpfs") || eq_str(t, "proc") || eq_str(t, "sysfs")
        || eq_str(t, "cgroup") || eq_str(t, "cgroup2") || eq_str(t, "efivarfs") || eq_str(
        t,
        "devpts",
    ) || eq_str(t, "pstore") || eq_str(t, "securityfs") || eq_str(t, "selinuxfs") || eq_str(
        t,
        "hugetlbfs",
    ) || eq_str(t, "mqueue") || eq_str(t, "debugfs") || eq_str(t, "tracefs") || eq_str(
        t,
        "configfs",
    ) || eq_str(t, "binfmt_misc") || eq_str(t, "autofs") || eq_str(t, "overlay")
}

/// The device and mount point of a mount table line that the file-system
/// report considers: four or more words, and a file system type that is not
/// a pseudo one.
pub open spec fn fs_candidate(line: Seq<char>) -> Option<(Seq<char>, Seq<char>)> {
    let w = words(line);
    if w.len() >= 4 && !is_pseudo_fs_spec(w[2]) {
        Some((w[0], w[1]))
    } else {
        None
    }
}

/// Law: a mount table line is considered for the file-system report
/// exactly when it has four or more words and its type, the third word, is
/// not one of the pseudo types `tmpfs`, `devtmpfs`, `proc`, `sysfs`,
/// `cgroup`, `cgroup2`, `efivarfs`, `devpts`, `pstore`, `securityfs`,
/// `selinuxfs`, `hugetlbfs`, `mqueue`, `debugfs`, `tracefs`, `configfs`,
/// `binfmt_misc`, `autofs` and `overlay` (so `ext4`, `xfs`, `btrfs`, `vfat`
/// and every other type are); it then gives its first two words, the device
/// and the mount point.
pub proof fn fs_candidate_by_type(line: Seq<char>)
    ensures
        ({
            let w = words(line);
            let t = w[2];
            &&& fs_candidate(line) is Some <==> w.len() >= 4 && !(t == "tmpfs"@ || t == "devtmpfs"@ || t == "proc"@ || t == "sysfs"@ || t == "cgroup"@ || t == "cgroup2"@ || t == "efivarfs"@ || t == "devpts"@ || t == "pstore"@ || t == "securityfs"@ || t == "selinuxfs"@ || t == "hugetlbfs"@ || t == "mqueue"@ || t == "debugfs"@ || t == "tracefs"@ || t == "configfs"@ || t == "binfmt_misc"@ || t == "autofs"@ || t == "overlay"@)
            &&& fs_candidate(line) is Some ==> fs_candidate(line) == Some((w[0], w[1]))
        }),
{
}

/// The candidates of the lines `ls`, in order.
pub open spec fn fs_candidates_spec(ls: Seq<Seq<char>>) -> Seq<(Seq<char>, Seq<char>)>
    decreases ls.len(),
{
    if ls.len() == 0 {
        Seq::empty()
    } else {
        match fs_candidate(ls.last()) {
            Some(c) => fs_candidates_spec(ls.drop_last()).push(c),
            None => fs_candidates_spec(ls.drop_last()),
        }
    }
}

/// The file systems that the text of `/proc/mounts` lists and the report
/// considers, as (device, mount point), in order.
pub fn fs_candidates(content: &str) -> (r: Vec<(String, String)>)
    ensures
        pairs_view(r@) == fs_candidates_spec(lines(content@)),
{
    let text = to_chars(content);
    let ls = split_lines(&text);
    let ghost all = views(ls@);
    let mut r: Vec<(String, String)> = Vec::new();
    let mut i: usize = 0;
    proof {
        assert(all.take(0) =~= Seq::<Seq<char>>::empty());
        assert(pairs_view(r@) =~= Seq::empty());
    }
    while i < ls.len()
        invariant
            i <= ls.len(),
            all == views(ls@),
            all == lines(content@),
            pairs_view(r@) == fs_candidates_spec(all.take(i as int)),
        decreases ls.len() - i,
    {
        proof {
            assert(all.take(i + 1).drop_last() =~= all.take(i as int));
            assert(all.take(i + 1).last() == ls@[i as int]@);
        }
        let w = split_whitespace(&ls[i]);
        if w.len() >= 4 && !is_pseudo_fs(&w[2]) {
            let ghost prev = r@;
            r.push((chars_to_string(&w[0]), chars_to_string(&w[1])));
            proof {
                assert(pairs_view(r@) =~= pairs_view(prev).push((w@[0]@, w@[1]@)));
            }
        }
        i = i + 1;
    }
    proof {
        assert(all.take(ls.len() as int) =~= all);
    }
    r
}

/// Sizes of a mounted file system in bytes: the total, the free space, and
/// the space available to unprivileged users.
pub struct VfsStat {
    pub total: u64,
    pub free: u64,
    pub avail: u64,
}

impl VfsStat {
    /// The sizes from the `statvfs` block counts and fragment size: the
    /// blocks, the free blocks (some of the blocks) and the blocks available,
    /// each times the fragment size.
    pub fn from_counts(blocks: u64, bfree: u64, bavail: u64, frsize: u64) -> (st: VfsStat)
        requires
            blocks * frsize <= u64::MAX,
            bfree <= blocks,
            bavail * frsize <= u64::MAX,
        ensures
            st.total == blocks * frsize,
            st.free == bfree * frsize,
            st.avail == bavail * frsize,
            st.free <= st.total,
    {
        proof {
            assert(bfree * frsize <= blocks * frsize) by (nonlinear_arith)
                requires
                    bfree <= blocks,
            ;
        }
        VfsStat { total: blocks * frsize, free: bfree * frsize, avail: bavail * frsize }
    }
}

/// Share of a file system in use, in whole percent (rounded down): the used
/// space (the total less the free space), times 100, over the total.
pub open spec fn use_pct_spec(total: u64, free: u64) -> u32 {
    (((total - free) * 100) / (total as int)) as u32
}

/// Law: where the free space does not exceed the total, the use percentage
/// of a file system is at most 100.
pub proof fn use_pct_at_most_100(total: u64, free: u64)
    requires
        0 < total,
        free <= total,
    ensures
        use_pct_spec(total, free) <= 100,
{
    let p = ((total - free) * 100) / (total as int);
    assert(0 <= p <= 100) by (nonlinear_arith)
        requires
            p == ((total - free) * 100) / (total as int),
            0 <= free <= total,
            total > 0,
    ;
}

/// Law: the use percentage is the share of the total that is not free, in
/// whole percent rounded down: `pct * total <= (total - free) * 100 <
/// (pct + 1) * total`.
pub proof fn use_pct_rounds_down(total: u64, free: u64)
    requires
        0 < total,
        free <= total,
    ensures
        use_pct_spec(total, free) * total <= (total - free) * 100 < (use_pct_spec(total, free) + 1)
            * total,
{
    let p = ((total - free) * 100) / (total as int);
    assert(p * total <= (total - free) * 100 < (p + 1) * total && 0 <= p <= 100) by (nonlinear_arith)
        requires
            p == ((total - free) * 100) / (total as int),
            0 <= free <= total,
            total > 0,
    ;
    assert(use_pct_spec(total, free) == p);
}

/// The six report lines of the file system at position `fidx`: its device,
/// total size, used size (the total less the free space), available size,
/// use percentage and mount point.
pub open spec fn fs_lines_spec(fidx: nat, device: Seq<char>, mount: Seq<char>, st: VfsStat) -> Seq<
    Seq<char>,
> {
    seq![
        item_line("fs"@, fidx, "filesystem"@, device),
        item_line("fs"@, fidx, "size"@, human_size_short_spec(st.total as nat)),
        item_line("fs"@, fidx, "used"@, human_size_short_spec((st.total - st.free) as nat)),
        item_line("fs"@, fidx, "avail"@, human_size_short_spec(st.avail as nat)),
        item_line("fs"@, fidx, "use_pct"@, dec(use_pct_spec(st.total, st.free) as nat)),
        item_line("fs"@, fidx, "mount"@, mount),
    ]
}

/// The file-system report lines for the candidates from position `i` on,
/// the first reported one numbered `fidx`, then the count line.
pub open spec fn fs_report_from(
    cands: Seq<(Seq<char>, Seq<char>)>,
    stats: Seq<VfsStat>,
    i: int,
    fidx: nat,
) -> Seq<Seq<char>>
    decreases cands.len() - i,
{
    if i >= cands.len() {
        seq![count_line("fs.count"@, fidx)]
    } else if stats[i].total == 0 {
        fs_report_from(cands, stats, i + 1, fidx)
    } else {
        fs_lines_spec(fidx, cands[i].0, cands[i].1, stats[i]) + fs_report_from(
            cands,
            stats,
            i + 1,
            fidx + 1,
        )
    }
}

/// The sizes that the report can take: a zero total (the file system is
/// passed over), or the free space not above the total and the percentage
/// computable.
pub open spec fn stat_ok(st: VfsStat) -> bool {
    st.total == 0 || (st.free <= st.total && (st.total - st.free) * 100 <= u64::MAX)
}

/// The file-system report: for each candidate with a non-zero total, in
/// order and numbered from 0, its device, sizes, use and mount point; then
/// the count.
pub fn fs_report(cands: &Vec<(String, String)>, stats: &Vec<VfsStat>) -> (r: Vec<String>)
    requires
        cands.len() == stats.len(),
        cands.len() <= u32::MAX,
        forall|i: int| 0 <= i < stats.len() ==> stat_ok(#[trigger] stats@[i]),
    ensures
        str_views(r@) == fs_report_from(pairs_view(cands@), stats@, 0, 0),
{
    let ghost cv = pairs_view(cands@);
    let mut r: Vec<String> = Vec::new();
    let mut fidx: u32 = 0;
    let mut i: usize = 0;
    proof {
        assert(str_views(r@) + fs_report_from(cv, stats@, 0, 0) =~= fs_report_from(cv, stats@, 0, 0));
    }
    while i < cands.len()
        invariant
            i <= cands.len(),
            cands.len() == stats.len(),
            cands.len() <= u32::MAX,
            fidx <= i,
            cv == pairs_view(cands@),
            forall|k: int| 0 <= k < stats.len() ==> stat_ok(#[trigger] stats@[k]),
            str_views(r@) + fs_report_from(cv, stats@, i as int, fidx as nat) == fs_report_from(
                cv,
                stats@,
                0,
                0,
            ),
        decreases cands.len() - i,
    {
        let st = &stats[i];
        if st.total != 0 {
            let ghost prev = str_views(r@);
            let dev = to_chars(cands[i].0.as_str());
            let mnt = to_chars(cands[i].1.as_str());
            let used = st.total - st.free;
            #[verifier::truncate]
            let pct = (used * 100 / st.total) as u32;
            push_line(&mut r, make_item_line("fs", fidx as u64, "filesystem", &dev));
            push_line(&mut r, make_item_line("fs", fidx as u64, "size", &to_chars(&human_size_short(st.total))));
            push_line(&mut r, make_item_line("fs", fidx as u64, "used", &to_chars(&human_size_short(used))));
            push_line(&mut r, make_item_line("fs", fidx as u64, "avail", &to_chars(&human_size_short(st.avail))));
            let mut pv: Vec<char> = Vec::new();
            push_dec(&mut pv, pct as u64);
            push_line(&mut r, make_item_line("fs", fidx as u64, "use_pct", &pv));
            push_line(&mut r, make_item_line("fs", fidx as u64, "mount", &mnt));
            proof {
                assert(pct == use_pct_spec(st.total, st.free));
                assert(str_views(r@) =~= prev + fs_lines_spec(fidx as nat, cv[i as int].0, cv[i as int].1, *st));
            }
            fidx = fidx + 1;
        }
        i = i + 1;
    }
    push_line(&mut r, make_count_line("fs.count", fidx as u64));
    proof {
        assert(str_views(r@) =~= fs_report_from(cv, stats@, 0, 0));
    }
    r
}

/// A partition: its name and the text of its `size` file.
pub struct Partition {
    pub name: String,
    pub size: String,
}

/// A disk of `/sys/block`: its name, the text of its `size` and
/// `device/model` files, and its partitions in report order.
pub struct Disk {
    pub name: String,
    pub size: String,
    pub model: String,
    pub partitions: Vec<Partition>,
}

/// The report lines of partition `j` of disk `i`: name, size, and the mount
/// point when it has one.
pub open spec fn partition_lines_spec(i: nat, j: nat, p: Partition, mounts: Map<Seq<char>, Seq<char>>) -> Seq<Seq<char>> {
    seq![
        sub_item_line("storage"@, i, "partition"@, j, "name"@, p.name@),
        sub_item_line("storage"@, i, "partition"@, j, "size"@, human_size_short_spec((disk_sectors_spec(p.size@) * 512) as nat)),
    ] + (if mounts.contains_key(p.name@) && mounts[p.name@].len() > 0 {
        seq![sub_item_line("storage"@, i, "partition"@, j, "mount"@, mounts[p.name@])]
    } else {
        seq![]
    })
}

/// The report lines of disk `i`: name, size, model when there is one, its
/// partitions, and their count.
pub open spec fn disk_lines_spec(i: nat, d: Disk, mounts: Map<Seq<char>, Seq<char>>) -> Seq<Seq<char>> {
    seq![
        item_line("storage"@, i, "name"@, d.name@),
        item_line("storage"@, i, "size"@, human_size_short_spec((disk_sectors_spec(d.size@) * 512) as nat)),
    ] + (if trim(d.model@).len() > 0 {
        seq![item_line("storage"@, i, "model"@, trim(d.model@))]
    } else {
        seq![]
    }) + Seq::new(d.partitions@.len(), |j: int| partition_lines_spec(i, j as nat, d.partitions@[j], mounts)).flatten()
        + seq![item_line("storage"@, i, "partition_count"@, dec(d.partitions@.len()))]
}

/// The disk report: the lines of each disk in order, numbered from 0, then
/// their count.
pub open spec fn disks_report_spec(disks: Seq<Disk>, mounts: Map<Seq<char>, Seq<char>>) -> Seq<Seq<char>> {
    Seq::new(disks.len(), |i: int| disk_lines_spec(i as nat, disks[i], mounts)).flatten() + seq![
        count_line("storage.count"@, disks.len()),
    ]
}

/// A size file whose sector count in bytes fits in 64 bits.
pub open spec fn size_ok(size: Seq<char>) -> bool {
    disk_sectors_spec(size) * 512 <= u64::MAX
}

/// A disk whose sizes fit and whose partitions can be counted.
pub open spec fn disk_ok(d: Disk) -> bool {
    &&& size_ok(d.size@)
    &&& d.partitions@.len() <= u32::MAX
    &&& forall|j: int| 0 <= j < d.partitions@.len() ==> size_ok(#[trigger] d.partitions@[j].size@)
}

fn partition_lines(i: u32, j: u32, p: &Partition, mounts: &Mounts) -> (r: Vec<String>)
    requires
        size_ok(p.size@),
    ensures
        str_views(r@) == partition_lines_spec(i as nat, j as nat, *p, mounts@),
{
    let mut r: Vec<String> = Vec::new();
    let name = to_chars(p.name.as_str());
    push_line(&mut r, make_sub_item_line("storage", i as u64, "partition", j as u64, "name", &name));
    let bytes = disk_bytes(p.size.as_str());
    push_line(&mut r, make_sub_item_line("storage", i as u64, "partition", j as u64, "size", &to_chars(&human_size_short(bytes))));
    let mount = mounts.get(p.name.as_str());
    if !mount.as_str().is_empty() {
        push_line(&mut r, make_sub_item_line("storage", i as u64, "partition", j as u64, "mount", &to_chars(mount.as_str())));
    }
    proof {
        assert(str_views(r@) =~= partition_lines_spec(i as nat, j as nat, *p, mounts@));
    }
    r
}

fn disk_lines(i: u32, d: &Disk, mounts: &Mounts) -> (r: Vec<String>)
    requires
        disk_ok(*d),
    ensures
        str_views(r@) == disk_lines_spec(i as nat, *d, mounts@),
{
    let mut r: Vec<String> = Vec::new();
    push_line(&mut r, make_item_line("storage", i as u64, "name", &to_chars(d.name.as_str())));
    let bytes = disk_bytes(d.size.as_str());
    push_line(&mut r, make_item_line("storage", i as u64, "size", &to_chars(&human_size_short(bytes))));
    let model = trim_chars(&to_chars(d.model.as_str()));
    if model.len() > 0 {
        push_line(&mut r, make_item_line("storage", i as u64, "model", &model));
    }
    let ghost head = str_views(r@);
    let ghost f = |j: int| partition_lines_spec(i as nat, j as nat, d.partitions@[j], mounts@);
    let mut j: u32 = 0;
    proof {
        assert(Seq::new(0, f).flatten() =~= Seq::<Seq<char>>::empty());
        assert(str_views(r@) =~= head + Seq::new(0, f).flatten());
    }
    while (j as usize) < d.partitions.len()
        invariant
            j <= d.partitions.len(),
            disk_ok(*d),
            f == (|j: int| partition_lines_spec(i as nat, j as nat, d.partitions@[j], mounts@)),
            str_views(r@) == head + Seq::new(j as nat, f).flatten(),
        decreases d.partitions.len() - j,
    {
        let ghost prev = str_views(r@);
        assert(size_ok(d.partitions@[j as int].size@));
        let more = partition_lines(i, j, &d.partitions[j as usize], mounts);
        crate::report::append_lines(&mut r, more);
        proof {
            assert(Seq::new((j + 1) as nat, f) =~= Seq::new(j as nat, f).push(f(j as int)));
            Seq::new(j as nat, f).lemma_flatten_push(f(j as int));
            assert(str_views(r@) =~= head + Seq::new((j + 1) as nat, f).flatten());
        }
        j = j + 1;
    }
    let mut cnt: Vec<char> = Vec::new();
    push_dec(&mut cnt, j as u64);
    push_line(&mut r, make_item_line("storage", i as u64, "partition_count", &cnt));
    proof {
        assert(str_views(r@) =~= disk_lines_spec(i as nat, *d, mounts@));
    }
    r
}

/// The disk report: for each disk, in order and numbered from 0, its name,
/// size, model, partitions with their sizes and mount points, and partition
/// count; then the disk count.
pub fn disks_report(disks: &Vec<Disk>, mounts: &Mounts) -> (r: Vec<String>)
    requires
        disks.len() <= u32::MAX,
        forall|i: int| 0 <= i < disks.len() ==> disk_ok(#[trigger] disks@[i]),
    ensures
        str_views(r@) == disks_report_spec(disks@, mounts@),
{
    let ghost f = |i: int| disk_lines_spec(i as nat, disks@[i], mounts@);
    let mut r: Vec<String> = Vec::new();
    let mut i: u32 = 0;
    proof {
        assert(Seq::new(0, f).flatten() =~= Seq::<Seq<char>>::empty());
        assert(str_views(r@) =~= Seq::new(0, f).flatten());
    }
    while (i as usize) < disks.len()
        invariant
            i <= disks.len(),
            disks.len() <= u32::MAX,
            forall|k: int| 0 <= k < disks.len() ==> disk_ok(#[trigger] disks@[k]),
            f == (|i: int| disk_lines_spec(i as nat, disks@[i], mounts@)),
            str_views(r@) == Seq::new(i as nat, f).flatten(),
        decreases disks.len() - i,
    {
        let more = disk_lines(i, &disks[i as usize], mounts);
        crate::report::append_lines(&mut r, more);
        proof {
            assert(Seq::new((i + 1) as nat, f) =~= Seq::new(i as nat, f).push(f(i as int)));
            Seq::new(i as nat, f).lemma_flatten_push(f(i as int));
        }
        i = i + 1;
    }
    push_line(&mut r, make_count_line("storage.count", i as u64));
    proof {
        assert(str_views(r@) =~= disks_report_spec(disks@, mounts@));
    }
    r
}

/// The storage report: the disk report, then the file-system report.
pub fn collect(
    disks: &Vec<Disk>,
    mounts: &Mounts,
    cands: &Vec<(String, String)>,
    stats: &Vec<VfsStat>,
) -> (r: Vec<String>)
    requires
        disks.len() <= u32::MAX,
        forall|i: int| 0 <= i < disks.len() ==> disk_ok(#[trigger] disks@[i]),
        cands.len() == stats.len(),
        cands.len() <= u32::MAX,
        forall|i: int| 0 <= i < stats.len() ==> stat_ok(#[trigger] stats@[i]),
    ensures
        str_views(r@) == disks_report_spec(disks@, mounts@) + fs_report_from(
            pairs_view(cands@),
            stats@,
            0,
            0,
        ),
{
    let mut r = disks_report(disks, mounts);
    let fs = fs_report(cands, stats);
    crate::report::append_lines(&mut r, fs);
    r
}

} // verus!
