//! Integers read from and written as text: decimal and hexadecimal, with the
//! acceptance rules of std's `from_str` and `from_str_radix`.
use vstd::prelude::*;

verus! {

/// `c` is one of `0`..`9`.
pub open spec fn is_dec_digit(c: char) -> bool {
    48 <= c as u32 <= 57
}

/// Value of a decimal digit.
pub open spec fn dec_digit(c: char) -> int {
    c as u32 - 48
}

/// `c` is one of `0`..`9`, `a`..`f`, `A`..`F`.
pub open spec fn is_hex_digit(c: char) -> bool {
    ||| 48 <= c as u32 <= 57
    ||| 97 <= c as u32 <= 102
    ||| 65 <= c as u32 <= 70
}

/// Value of a hexadecimal digit.
pub open spec fn hex_digit(c: char) -> int {
    if 48 <= c as u32 <= 57 {
        c as u32 - 48
    } else if 97 <= c as u32 <= 102 {
        c as u32 - 87
    } else {
        c as u32 - 55
    }
}

/// Every character of `s` is a decimal digit.
pub open spec fn all_dec(s: Seq<char>) -> bool {
    forall|i: int| 0 <= i < s.len() ==> is_dec_digit(#[trigger] s[i])
}

/// Every character of `s` is a hexadecimal digit.
pub open spec fn all_hex(s: Seq<char>) -> bool {
    forall|i: int| 0 <= i < s.len() ==> is_hex_digit(#[trigger] s[i])
}

/// The number that the decimal digits `s` write.
pub open spec fn dec_value(s: Seq<char>) -> int
    decreases s.len(),
{
    if s.len() == 0 {
        0
    } else {
        dec_value(s.drop_last()) * 10 + dec_digit(s.last())
    }
}

/// The number that the hexadecimal digits `s` write.
pub open spec fn hex_value(s: Seq<char>) -> int
    decreases s.len(),
{
    if s.len() == 0 {
        0
    } else {
        hex_value(s.drop_last()) * 16 + hex_digit(s.last())
    }
}

/// `s` without one leading `+`.
pub open spec fn unsigned_body(s: Seq<char>) -> Seq<char> {
    if s.len() > 0 && s[0] == '+' {
        s.drop_first()
    } else {
        s
    }
}

/// What `from_str` of an unsigned type with largest value `max` gives for `s`:
/// an optional `+`, then one or more decimal digits, of value at most `max`.
pub open spec fn parse_dec(s: Seq<char>, max: int) -> Option<int> {
    let d = unsigned_body(s);
    if d.len() > 0 && all_dec(d) && dec_value(d) <= max {
        Some(dec_value(d))
    } else {
        None
    }
}

/// What `from_str_radix(s, 16)` of an unsigned type with largest value `max`
/// gives: an optional `+`, then one or more hexadecimal digits, of value at
/// most `max`.
pub open spec fn parse_hex(s: Seq<char>, max: int) -> Option<int> {
    let d = unsigned_body(s);
    if d.len() > 0 && all_hex(d) && hex_value(d) <= max {
        Some(hex_value(d))
    } else {
        None
    }
}

/// What `from_str` of a signed type with range `min..=max` gives for `s`:
/// an optional sign, then one or more decimal digits, of value in range.
pub open spec fn parse_dec_signed(s: Seq<char>, min: int, max: int) -> Option<int> {
    if s.len() > 0 && s[0] == '-' {
        let d = s.drop_first();
        if d.len() > 0 && all_dec(d) && -dec_value(d) >= min {
            Some(-dec_value(d))
        } else {
            None
        }
    } else {
        parse_dec(s, max)
    }
}

/// The parsed value, or 0 where there is none (`parse().unwrap_or(0)`).
pub open spec fn or_zero(v: Option<int>) -> int {
    match v {
        Some(x) => x,
        None => 0,
    }
}

proof fn lemma_dec_value_nonneg(s: Seq<char>)
    requires
        all_dec(s),
    ensures
        dec_value(s) >= 0,
    decreases s.len(),
{
    if s.len() > 0 {
        assert(is_dec_digit(s[s.len() - 1]));
        lemma_dec_value_nonneg(s.drop_last());
    }
}

proof fn lemma_dec_value_prefix(s: Seq<char>, k: int)
    requires
        all_dec(s),
        0 <= k <= s.len(),
    ensures
        dec_value(s) >= dec_value(s.take(k)),
    decreases s.len(),
{
    if k < s.len() {
        assert(is_dec_digit(s[s.len() - 1]));
        lemma_dec_value_prefix(s.drop_last(), k);
        assert(s.drop_last().take(k) =~= s.take(k));
        lemma_dec_value_nonneg(s.drop_last());
    } else {
        assert(s.take(k) =~= s);
    }
}

proof fn lemma_hex_value_nonneg(s: Seq<char>)
    requires
        all_hex(s),
    ensures
        hex_value(s) >= 0,
    decreases s.len(),
{
    if s.len() > 0 {
        assert(is_hex_digit(s[s.len() - 1]));
        lemma_hex_value_nonneg(s.drop_last());
    }
}

proof fn lemma_hex_value_prefix(s: Seq<char>, k: int)
    requires
        all_hex(s),
        0 <= k <= s.len(),
    ensures
        hex_value(s) >= hex_value(s.take(k)),
    decreases s.len(),
{
    if k < s.len() {
        assert(is_hex_digit(s[s.len() - 1]));
        lemma_hex_value_prefix(s.drop_last(), k);
        assert(s.drop_last().take(k) =~= s.take(k));
        lemma_hex_value_nonneg(s.drop_last());
    } else {
        assert(s.take(k) =~= s);
    }
}

/// Value of the decimal digits `s[from..]`, when they are one or more
/// digits of value at most `max`.
fn dec_tail(s: &Vec<char>, from: usize, max: u64) -> (r: Option<u64>)
    requires
        from <= s.len(),
    ensures
        ({
            let d = s@.skip(from as int);
            match r {
                Some(v) => d.len() > 0 && all_dec(d) && dec_value(d) <= max && v == dec_value(d),
                None => !(d.len() > 0 && all_dec(d) && dec_value(d) <= max),
            }
        }),
{
    let ghost d = s@.skip(from as int);
    if from == s.len() {
        return None;
    }
    let mut v: u64 = 0;
    let mut i: usize = from;
    while i < s.len()
        invariant
            from <= i <= s.len(),
            d == s@.skip(from as int),
            all_dec(s@.subrange(from as int, i as int)),
            v == dec_value(s@.subrange(from as int, i as int)),
            v <= max,
        decreases s.len() - i,
    {
        let c = s[i];
        let u = c as u32;
        if u < 48 || u > 57 {
            proof {
                assert(d[i - from] == c);
            }
            return None;
        }
        let nv: u128 = (v as u128) * 10 + ((u - 48) as u128);
        let ghost pre = s@.subrange(from as int, i + 1);
        proof {
            assert(pre.drop_last() =~= s@.subrange(from as int, i as int));
            assert(all_dec(pre)) by {
                assert forall|k: int| 0 <= k < pre.len() implies is_dec_digit(#[trigger] pre[k]) by {
                    if k < pre.len() - 1 {
                        assert(pre[k] == s@.subrange(from as int, i as int)[k]);
                    }
                }
            }
        }
        if nv > max as u128 {
            proof {
                if d.len() > 0 && all_dec(d) {
                    assert(d.take(i + 1 - from) =~= pre);
                    lemma_dec_value_prefix(d, i + 1 - from);
                }
            }
            return None;
        }
        v = nv as u64;
        i = i + 1;
    }
    proof {
        assert(s@.subrange(from as int, i as int) =~= d);
    }
    Some(v)
}

/// Value of the hexadecimal digits `s[from..]`, when they are one or more
/// digits of value at most `max`.
fn hex_tail(s: &Vec<char>, from: usize, max: u64) -> (r: Option<u64>)
    requires
        from <= s.len(),
    ensures
        ({
            let d = s@.skip(from as int);
            match r {
                Some(v) => d.len() > 0 && all_hex(d) && hex_value(d) <= max && v == hex_value(d),
                None => !(d.len() > 0 && all_hex(d) && hex_value(d) <= max),
            }
        }),
{
    let ghost d = s@.skip(from as int);
    if from == s.len() {
        return None;
    }
    let mut v: u64 = 0;
    let mut i: usize = from;
    while i < s.len()
        invariant
            from <= i <= s.len(),
            d == s@.skip(from as int),
            all_hex(s@.subrange(from as int, i as int)),
            v == hex_value(s@.subrange(from as int, i as int)),
            v <= max,
        decreases s.len() - i,
    {
        let c = s[i];
        let u = c as u32;
        let dig: u32;
        if 48 <= u && u <= 57 {
            dig = u - 48;
        } else if 97 <= u && u <= 102 {
            dig = u - 87;
        } else if 65 <= u && u <= 70 {
            dig = u - 55;
        } else {
            proof {
                assert(d[i - from] == c);
            }
            return None;
        }
        let nv: u128 = (v as u128) * 16 + (dig as u128);
        let ghost pre = s@.subrange(from as int, i + 1);
        proof {
            assert(pre.drop_last() =~= s@.subrange(from as int, i as int));
            assert(all_hex(pre)) by {
                assert forall|k: int| 0 <= k < pre.len() implies is_hex_digit(#[trigger] pre[k]) by {
                    if k < pre.len() - 1 {
                        assert(pre[k] == s@.subrange(from as int, i as int)[k]);
                    }
                }
            }
        }
        if nv > max as u128 {
            proof {
                if d.len() > 0 && all_hex(d) {
                    assert(d.take(i + 1 - from) =~= pre);
                    lemma_hex_value_prefix(d, i + 1 - from);
                }
            }
            return None;
        }
        v = nv as u64;
        i = i + 1;
    }
    proof {
        assert(s@.subrange(from as int, i as int) =~= d);
    }
    Some(v)
}

/// Position where the digits begin after an optional `+`.
fn body_start(s: &Vec<char>) -> (k: usize)
    ensures
        k <= s.len(),
        s@.skip(k as int) == unsigned_body(s@),
{
    if s.len() > 0 && s[0] == '+' {
        proof {
            assert(s@.skip(1) =~= s@.drop_first());
        }
        1
    } else {
        proof {
            assert(s@.skip(0) =~= s@);
        }
        0
    }
}

/// `u64::from_str`.
pub fn parse_u64(s: &Vec<char>) -> (r: Option<u64>)
    ensures
        match r {
            Some(v) => parse_dec(s@, u64::MAX as int) == Some(v as int),
            None => parse_dec(s@, u64::MAX as int) is None,
        },
{
    let k = body_start(s);
    dec_tail(s, k, u64::MAX)
}

/// `u32::from_str`.
pub fn parse_u32(s: &Vec<char>) -> (r: Option<u32>)
    ensures
        match r {
            Some(v) => parse_dec(s@, u32::MAX as int) == Some(v as int),
            None => parse_dec(s@, u32::MAX as int) is None,
        },
{
    let k = body_start(s);
    match dec_tail(s, k, u32::MAX as u64) {
        Some(v) => Some(v as u32),
        None => None,
    }
}

/// `i64::from_str`.
pub fn parse_i64(s: &Vec<char>) -> (r: Option<i64>)
    ensures
        match r {
            Some(v) => parse_dec_signed(s@, i64::MIN as int, i64::MAX as int) == Some(v as int),
            None => parse_dec_signed(s@, i64::MIN as int, i64::MAX as int) is None,
        },
{
    if s.len() > 0 && s[0] == '-' {
        proof {
            assert(s@.skip(1) =~= s@.drop_first());
        }
        match dec_tail(s, 1, 0x8000_0000_0000_0000u64) {
            Some(v) => {
                let r: i128 = 0 - (v as i128);
                Some(r as i64)
            },
            None => None,
        }
    } else {
        let k = body_start(s);
        match dec_tail(s, k, i64::MAX as u64) {
            Some(v) => Some(v as i64),
            None => None,
        }
    }
}

/// `u16::from_str_radix(s, 16)`.
pub fn parse_hex_u16(s: &Vec<char>) -> (r: Option<u16>)
    ensures
        match r {
            Some(v) => parse_hex(s@, u16::MAX as int) == Some(v as int),
            None => parse_hex(s@, u16::MAX as int) is None,
        },
{
    let k = body_start(s);
    match hex_tail(s, k, u16::MAX as u64) {
        Some(v) => Some(v as u16),
        None => None,
    }
}

/// `u32::from_str_radix(s, 16)`.
pub fn parse_hex_u32(s: &Vec<char>) -> (r: Option<u32>)
    ensures
        match r {
            Some(v) => parse_hex(s@, u32::MAX as int) == Some(v as int),
            None => parse_hex(s@, u32::MAX as int) is None,
        },
{
    let k = body_start(s);
    match hex_tail(s, k, u32::MAX as u64) {
        Some(v) => Some(v as u32),
        None => None,
    }
}

/// The character of a decimal digit.
pub open spec fn dec_char(d: int) -> char {
    ((d + 48) as u8) as char
}

/// The character of a lower-case hexadecimal digit.
pub open spec fn hex_char(d: int) -> char {
    if d < 10 {
        ((d + 48) as u8) as char
    } else {
        ((d + 87) as u8) as char
    }
}

/// `n` written in decimal, without leading zeros (`{}`).
pub open spec fn dec(n: nat) -> Seq<char>
    decreases n,
{
    if n < 10 {
        seq![dec_char(n as int)]
    } else {
        dec(n / 10).push(dec_char((n % 10) as int))
    }
}

/// `n` written in decimal with a `-` when negative (`{}` of a signed integer).
pub open spec fn dec_signed(n: int) -> Seq<char> {
    if n < 0 {
        seq!['-'] + dec((-n) as nat)
    } else {
        dec(n as nat)
    }
}

/// `n` written in lower-case hexadecimal, without leading zeros (`{:x}`).
pub open spec fn hex(n: nat) -> Seq<char>
    decreases n,
{
    if n < 16 {
        seq![hex_char(n as int)]
    } else {
        hex(n / 16).push(hex_char((n % 16) as int))
    }
}

/// `s` with zeros put in front up to `width` characters (`{:0width$}`).
pub open spec fn zero_pad(s: Seq<char>, width: nat) -> Seq<char> {
    if s.len() < width {
        Seq::new((width - s.len()) as nat, |i: int| '0') + s
    } else {
        s
    }
}

/// Appends `n` in decimal.
pub fn push_dec(out: &mut Vec<char>, n: u64)
    ensures
        final(out)@ == old(out)@ + dec(n as nat),
    decreases n,
{
    if n >= 10 {
        push_dec(out, n / 10);
    }
    let d = (n % 10) as u8;
    out.push((d + 48) as char);
    proof {
        if n >= 10 {
            assert(dec(n as nat) == dec((n / 10) as nat).push(dec_char((n % 10) as int)));
        }
        assert(final(out)@ =~= old(out)@ + dec(n as nat));
    }
}

/// Appends `n` in decimal, with a `-` when negative.
pub fn push_dec_signed(out: &mut Vec<char>, n: i64)
    ensures
        final(out)@ == old(out)@ + dec_signed(n as int),
{
    if n < 0 {
        out.push('-');
        let m: i128 = 0 - (n as i128);
        push_dec(out, m as u64);
        proof {
            assert(final(out)@ =~= old(out)@ + dec_signed(n as int));
        }
    } else {
        push_dec(out, n as u64);
    }
}

/// Appends `n` in lower-case hexadecimal.
fn push_hex(out: &mut Vec<char>, n: u64)
    ensures
        final(out)@ == old(out)@ + hex(n as nat),
    decreases n,
{
    if n >= 16 {
        push_hex(out, n / 16);
    }
    let d = (n % 16) as u8;
    if d < 10 {
        out.push((d + 48) as char);
    } else {
        out.push((d + 87) as char);
    }
    proof {
        if n >= 16 {
            assert(hex(n as nat) == hex((n / 16) as nat).push(hex_char((n % 16) as int)));
        }
        assert(final(out)@ =~= old(out)@ + hex(n as nat));
    }
}

/// Appends `n` in lower-case hexadecimal, zero-padded to `width`.
pub fn push_hex_padded(out: &mut Vec<char>, n: u64, width: usize)
    requires
        width <= 64,
    ensures
        final(out)@ == old(out)@ + zero_pad(hex(n as nat), width as nat),
{
    let mut digits: Vec<char> = Vec::new();
    push_hex(&mut digits, n);
    let ghost h = hex(n as nat);
    assert(digits@ =~= h);
    let mut k: usize = digits.len();
    proof {
        assert(old(out)@ + Seq::new((k - digits.len()) as nat, |i: int| '0') =~= old(out)@);
    }
    while k < width
        invariant
            out@ == old(out)@ + Seq::new((k - digits.len()) as nat, |i: int| '0'),
            digits.len() <= k,
            k <= width || k == digits.len(),
            digits@ == h,
        decreases width - k,
    {
        out.push('0');
        k = k + 1;
        proof {
            assert(out@ =~= old(out)@ + Seq::new((k - digits.len()) as nat, |i: int| '0'));
        }
    }
    let ghost mid = out@;
    crate::text::push_chars(out, &digits);
    proof {
        if digits.len() < width {
            assert(k == width);
        } else {
            assert(k == digits.len());
            assert(Seq::new(0, |i: int| '0') =~= Seq::<char>::empty());
        }
        assert(final(out)@ =~= old(out)@ + zero_pad(h, width as nat));
    }
}

/// A decimal numeral has at least one digit, and exactly one below 10.
pub proof fn lemma_dec_len(n: nat)
    ensures
        dec(n).len() >= 1,
        n < 10 <==> dec(n).len() == 1,
    decreases n,
{
    if n >= 10 {
        lemma_dec_len(n / 10);
    }
}

/// Appends `n` in decimal, zero-padded to two digits (`{:02}`).
pub fn push_dec2(out: &mut Vec<char>, n: u64)
    ensures
        final(out)@ == old(out)@ + zero_pad(dec(n as nat), 2),
{
    proof {
        lemma_dec_len(n as nat);
    }
    if n < 10 {
        out.push('0');
        push_dec(out, n);
        proof {
            assert(Seq::new(1, |i: int| '0') =~= seq!['0']);
            assert(final(out)@ =~= old(out)@ + zero_pad(dec(n as nat), 2));
        }
    } else {
        push_dec(out, n);
    }
}

/// Every character of a decimal numeral is a digit.
pub proof fn lemma_dec_digits(n: nat)
    ensures
        all_dec(dec(n)),
    decreases n,
{
    if n >= 10 {
        lemma_dec_digits(n / 10);
        let d = dec(n / 10);
        assert(dec(n) == d.push(dec_char((n % 10) as int)));
        assert forall|i: int| 0 <= i < dec(n).len() implies is_dec_digit(#[trigger] dec(n)[i]) by {
            if i < d.len() {
                assert(dec(n)[i] == d[i]);
            }
        }
    }
}

/// Every character of a zero-padded decimal numeral is a digit.
pub proof fn lemma_zero_pad_dec_digits(n: nat, width: nat)
    ensures
        all_dec(zero_pad(dec(n), width)),
{
    lemma_dec_digits(n);
    let d = dec(n);
    if d.len() < width {
        let z = Seq::new((width - d.len()) as nat, |i: int| '0');
        assert forall|i: int| 0 <= i < zero_pad(d, width).len() implies is_dec_digit(
            #[trigger] zero_pad(d, width)[i],
        ) by {
            if i < z.len() {
                assert(zero_pad(d, width)[i] == z[i]);
            } else {
                assert(zero_pad(d, width)[i] == d[i - z.len()]);
            }
        }
    }
}

/// A digit value written by `hex_char` reads back as itself.
proof fn lemma_hex_char(d: int)
    requires
        0 <= d < 16,
    ensures
        is_hex_digit(hex_char(d)),
        hex_digit(hex_char(d)) == d,
{
    if d < 10 {
        assert(((d + 48) as u8) as char as u32 == d + 48);
    } else {
        assert(((d + 87) as u8) as char as u32 == d + 87);
    }
}

/// A hexadecimal numeral is made of hexadecimal digits and reads back as
/// the number it writes.
pub proof fn lemma_hex_round_trip(n: nat)
    ensures
        hex(n).len() >= 1,
        all_hex(hex(n)),
        hex_value(hex(n)) == n,
    decreases n,
{
    if n < 16 {
        lemma_hex_char(n as int);
        assert(hex(n).drop_last() =~= Seq::<char>::empty());
        assert(hex_value(Seq::<char>::empty()) == 0);
        assert(hex_value(hex(n)) == hex_value(hex(n).drop_last()) * 16 + hex_digit(hex(n).last()));
    } else {
        lemma_hex_round_trip(n / 16);
        lemma_hex_char((n % 16) as int);
        let h = hex(n / 16);
        assert(hex(n) == h.push(hex_char((n % 16) as int)));
        assert(hex(n).drop_last() =~= h);
        assert(hex_value(hex(n)) == hex_value(h) * 16 + hex_digit(hex_char((n % 16) as int)));
        assert(n == (n / 16) * 16 + n % 16);
        assert forall|i: int| 0 <= i < hex(n).len() implies is_hex_digit(#[trigger] hex(n)[i]) by {
            if i < h.len() {
                assert(hex(n)[i] == h[i]);
            }
        }
    }
}

/// Leading zeros do not change what hexadecimal digits read as.
proof fn lemma_hex_value_zeros(z: Seq<char>, s: Seq<char>)
    requires
        forall|i: int| 0 <= i < z.len() ==> z[i] == '0',
    ensures
        hex_value(z + s) == hex_value(s),
    decreases z.len() + s.len(),
{
    if s.len() > 0 {
        assert((z + s).drop_last() =~= z + s.drop_last());
        assert((z + s).last() == s.last());
        lemma_hex_value_zeros(z, s.drop_last());
    } else if z.len() > 0 {
        assert(z + s =~= z);
        assert(z.drop_last() + s =~= z.drop_last());
        lemma_hex_value_zeros(z.drop_last(), s);
        assert('0' as u32 == 48);
    } else {
        assert(z + s =~= s);
    }
}

/// A zero-padded hexadecimal numeral is made of hexadecimal digits, is at
/// least as long as the width and as one digit, and reads back as the number
/// it writes.
pub proof fn lemma_zero_pad_hex_round_trip(n: nat, width: nat)
    ensures
        zero_pad(hex(n), width).len() >= 1,
        zero_pad(hex(n), width).len() >= width,
        all_hex(zero_pad(hex(n), width)),
        hex_value(zero_pad(hex(n), width)) == n,
{
    lemma_hex_round_trip(n);
    let h = hex(n);
    if h.len() < width {
        let z = Seq::new((width - h.len()) as nat, |i: int| '0');
        lemma_hex_value_zeros(z, h);
        assert forall|i: int| 0 <= i < zero_pad(h, width).len() implies is_hex_digit(
            #[trigger] zero_pad(h, width)[i],
        ) by {
            if i < z.len() {
                assert(zero_pad(h, width)[i] == z[i]);
                assert('0' as u32 == 48);
            } else {
                assert(zero_pad(h, width)[i] == h[i - z.len()]);
            }
        }
    }
}

} // verus!
