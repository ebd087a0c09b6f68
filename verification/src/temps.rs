//! Temperatures of thermal zones and hwmon sensors.
use vstd::prelude::*;
use crate::num::{dec, dec_signed, push_dec, push_dec_signed, or_zero, parse_dec_signed, parse_i64};
use crate::report::{Listing, Report, error_view, count_line, item_line, str_views, push_line, make_item_line, make_count_line};
use crate::text::{ends_with, ends_with_str, push_str, subrange_chars, to_chars, chars_to_string, trim, trim_chars};

verus! {

/// `a / b` rounded toward zero, as Rust divides integers.
pub open spec fn trunc_div(a: int, b: int) -> int {
    if a >= 0 {
        a / b
    } else {
        -((-a) / b)
    }
}

/// `|a|`.
pub open spec fn abs(a: int) -> int {
    if a < 0 {
        -a
    } else {
        a
    }
}

/// Degrees Celsius with one decimal from millidegrees: the whole degrees
/// (rounded toward zero, so without sign between -1 and 0), a point, and the
/// tenths of the absolute value (rounded down).
pub open spec fn celsius_spec(m: int) -> Seq<char> {
    dec_signed(trunc_div(m, 1000)) + "."@ + dec(((abs(m) % 1000) / 100) as nat)
}

/// Law: a temperature of `m` millidegrees at or above zero is written as
/// whole degrees `w`, a point and one digit of tenths `t`, both rounded
/// down: `w * 1000 + t * 100 <= m < w * 1000 + (t + 1) * 100`.
pub proof fn celsius_rounds_down(m: int)
    requires
        m >= 0,
    ensures
        exists|w: nat, t: nat|
            #![trigger dec(w), dec(t)]
            celsius_spec(m) == dec_signed(w as int) + "."@ + dec(t) && t < 10 && w * 1000 + t * 100
                <= m < w * 1000 + (t + 1) * 100,
{
    let w = (m / 1000) as nat;
    let t = ((m % 1000) / 100) as nat;
    assert(w * 1000 + t * 100 <= m < w * 1000 + (t + 1) * 100 && t < 10) by (nonlinear_arith)
        requires
            m >= 0,
            w == m / 1000,
            t == (m % 1000) / 100,
    ;
    assert(celsius_spec(m) == dec_signed(w as int) + "."@ + dec(t));
}

/// Millidegrees Celsius written in degrees with one decimal, such as `45.5`.
pub fn millideg_to_celsius(millideg: i64) -> (r: String)
    requires
        millideg != i64::MIN,
    ensures
        r@ == celsius_spec(millideg as int),
{
    let int_part = millideg / 1000;
    let a: i64 = if millideg < 0 { -millideg } else { millideg };
    let frac_part = (a % 1000) / 100;
    let mut out: Vec<char> = Vec::new();
    push_dec_signed(&mut out, int_part);
    push_str(&mut out, ".");
    push_dec(&mut out, frac_part as u64);
    proof {
        assert(out@ =~= celsius_spec(millideg as int));
    }
    chars_to_string(&out)
}

/// A thermal zone: the text of its `temp` and `type` files.
pub struct Zone {
    pub temp: String,
    pub kind: String,
}

/// A sensor input file of a hwmon device: its name, its text, and the text
/// of its `_label` file where there is one.
pub struct SensorInput {
    pub file_name: String,
    pub value: String,
    pub label: Option<String>,
}

/// A hwmon device: its name and its sensor inputs of interest in report
/// order, or the message of the failure to read its directory.
pub struct HwmonDevice {
    pub name: String,
    pub inputs: Result<Vec<SensorInput>, String>,
}

/// A temperature in the text of a sysfs file: its trimmed text as an `i64`,
/// or 0.
pub open spec fn millideg_of(text: Seq<char>) -> int {
    or_zero(parse_dec_signed(trim(text), i64::MIN as int, i64::MAX as int))
}

/// The zone lines from zone `i` on, the first reported one numbered `idx`,
/// and the number after the last: a zone is reported, with its trimmed type
/// and its temperature, when the temperature is above 0.
pub open spec fn zones_from(zs: Seq<Zone>, i: int, idx: nat) -> (Seq<Seq<char>>, nat)
    decreases zs.len() - i,
{
    if i >= zs.len() || i < 0 {
        (seq![], idx)
    } else if millideg_of(zs[i].temp@) <= 0 {
        zones_from(zs, i + 1, idx)
    } else {
        let rest = zones_from(zs, i + 1, idx + 1);
        (
            seq![
                item_line("temp"@, idx, "name"@, trim(zs[i].kind@)),
                item_line("temp"@, idx, "celsius"@, celsius_spec(millideg_of(zs[i].temp@))),
            ] + rest.0,
            rest.1,
        )
    }
}

proof fn lemma_zones_count(zs: Seq<Zone>, i: int, idx: nat)
    requires
        0 <= i <= zs.len(),
    ensures
        zones_from(zs, i, idx).1 == idx + zs.skip(i).filter(|z: Zone| millideg_of(z.temp@) > 0).len(),
        zones_from(zs, i, idx).0.len() == 2 * zs.skip(i).filter(|z: Zone| millideg_of(z.temp@) > 0).len(),
    decreases zs.len() - i,
{
    let pred = |z: Zone| millideg_of(z.temp@) > 0;
    if i == zs.len() {
        assert(zs.skip(i) =~= Seq::<Zone>::empty());
        reveal_with_fuel(Seq::filter, 1);
    } else {
        assert(zs.skip(i) =~= seq![zs[i]] + zs.skip(i + 1));
        zs.skip(i + 1).lemma_filter_prepend(zs[i], pred);
        if millideg_of(zs[i].temp@) > 0 {
            lemma_zones_count(zs, i + 1, idx + 1);
        } else {
            lemma_zones_count(zs, i + 1, idx);
        }
    }
}

/// Law: the thermal zones reported, and counted in `temp.count`, are those
/// whose temperature is above zero, two lines each.
pub proof fn zones_reported_are_warm(zs: Seq<Zone>)
    ensures
        zones_from(zs, 0, 0).1 == zs.filter(|z: Zone| millideg_of(z.temp@) > 0).len(),
        zones_from(zs, 0, 0).0.len() == 2 * zs.filter(|z: Zone| millideg_of(z.temp@) > 0).len(),
{
    lemma_zones_count(zs, 0, 0);
    assert(zs.skip(0) =~= zs);
}

/// A sensor file name without its `_input` ending.
pub open spec fn stem_spec(name: Seq<char>) -> Seq<char> {
    if ends_with(name, "_input"@) {
        name.take(name.len() - "_input"@.len())
    } else {
        name
    }
}

/// The name of a sensor input file without its `_input` ending.
pub fn input_stem(name: &str) -> (r: String)
    ensures
        r@ == stem_spec(name@),
{
    let v = to_chars(name);
    if ends_with_str(&v, "_input") {
        let suffix = to_chars("_input");
        chars_to_string(&subrange_chars(&v, 0, v.len() - suffix.len()))
    } else {
        chars_to_string(&v)
    }
}

/// `prefix.hw.stem`, the key of a hwmon sensor.
pub open spec fn sensor_key(prefix: Seq<char>, hw: Seq<char>, file_name: Seq<char>) -> Seq<char> {
    prefix + "."@ + hw + "."@ + stem_spec(file_name)
}

/// The lines of a temperature input of hwmon device `hw`: its temperature
/// when above 0, and then its trimmed label when that is not empty.
pub open spec fn temp_input_lines(hw: Seq<char>, inp: SensorInput) -> Seq<Seq<char>> {
    let v = millideg_of(inp.value@);
    let key = sensor_key("temp.hwmon"@, hw, inp.file_name@);
    if v <= 0 {
        seq![]
    } else {
        seq![key + ".celsius="@ + celsius_spec(v)] + match inp.label {
            Some(l) => if trim(l@).len() > 0 {
                seq![key + ".label="@ + trim(l@)]
            } else {
                seq![]
            },
            None => seq![],
        }
    }
}

/// The lines of the temperature inputs from input `j` on.
pub open spec fn temp_inputs_from(hw: Seq<char>, inputs: Seq<SensorInput>, j: int) -> Seq<
    Seq<char>,
>
    decreases inputs.len() - j,
{
    if j >= inputs.len() || j < 0 {
        seq![]
    } else {
        temp_input_lines(hw, inputs[j]) + temp_inputs_from(hw, inputs, j + 1)
    }
}

/// The hwmon temperature lines from device `i` on, and the error of the
/// first device whose directory could not be read, where the lines stop.
pub open spec fn temp_hwmons_from(hws: Seq<HwmonDevice>, i: int) -> (Seq<Seq<char>>, Option<
    Seq<char>,
>)
    decreases hws.len() - i,
{
    if i >= hws.len() || i < 0 {
        (seq![], None)
    } else {
        match hws[i].inputs {
            Err(e) => (seq![], Some(e@)),
            Ok(inputs) => {
                let rest = temp_hwmons_from(hws, i + 1);
                (temp_inputs_from(hws[i].name@, inputs@, 0) + rest.0, rest.1)
            },
        }
    }
}

/// The temperature report: zone lines, hwmon lines, and the zone count; a
/// directory that could not be read stops it with its error.
pub open spec fn temps_report(zones: Listing<Zone>, hwmons: Listing<HwmonDevice>) -> (Seq<Seq<char>>, Option<Seq<char>>) {
    match zones {
        Listing::Failed(e) => (seq![], Some(e@)),
        _ => {
            let z = match zones {
                Listing::Entries(zs) => zones_from(zs@, 0, 0),
                _ => (seq![], 0),
            };
            match hwmons {
                Listing::Failed(e) => (z.0, Some(e@)),
                Listing::Entries(hws) => {
                    let h = temp_hwmons_from(hws@, 0);
                    match h.1 {
                        Some(e) => (z.0 + h.0, Some(e)),
                        None => (z.0 + h.0 + seq![count_line("temp.count"@, z.1)], None),
                    }
                },
                Listing::Missing => (z.0 + seq![count_line("temp.count"@, z.1)], None),
            }
        },
    }
}

fn millideg_value(text: &String) -> (r: i64)
    ensures
        r == millideg_of(text@),
{
    let t = trim_chars(&to_chars(text.as_str()));
    match parse_i64(&t) {
        Some(v) => v,
        None => 0,
    }
}

fn zone_lines(zs: &Vec<Zone>, out: &mut Vec<String>) -> (n: u32)
    requires
        zs.len() <= u32::MAX,
    ensures
        str_views(final(out)@) == str_views(old(out)@) + zones_from(zs@, 0, 0).0,
        n == zones_from(zs@, 0, 0).1,
{
    let mut idx: u32 = 0;
    let mut i: usize = 0;
    proof {
        assert(str_views(out@) + zones_from(zs@, 0, 0).0 =~= str_views(old(out)@) + zones_from(zs@, 0, 0).0);
    }
    while i < zs.len()
        invariant
            i <= zs.len(),
            zs.len() <= u32::MAX,
            idx <= i,
            str_views(out@) + zones_from(zs@, i as int, idx as nat).0 == str_views(old(out)@)
                + zones_from(zs@, 0, 0).0,
            zones_from(zs@, i as int, idx as nat).1 == zones_from(zs@, 0, 0).1,
        decreases zs.len() - i,
    {
        let v = millideg_value(&zs[i].temp);
        if v > 0 {
            let ghost prev = str_views(out@);
            let kind = trim_chars(&to_chars(zs[i].kind.as_str()));
            push_line(out, make_item_line("temp", idx as u64, "name", &kind));
            let c = to_chars(millideg_to_celsius(v).as_str());
            push_line(out, make_item_line("temp", idx as u64, "celsius", &c));
            proof {
                let rest = zones_from(zs@, i + 1, (idx + 1) as nat);
                assert(prev + zones_from(zs@, i as int, idx as nat).0 =~= str_views(out@) + rest.0);
            }
            idx = idx + 1;
        }
        i = i + 1;
    }
    idx
}

fn temp_input_lines_exec(hw: &String, inp: &SensorInput, out: &mut Vec<String>)
    ensures
        str_views(final(out)@) == str_views(old(out)@) + temp_input_lines(hw@, *inp),
{
    let v = millideg_value(&inp.value);
    if v <= 0 {
        proof {
            assert(str_views(old(out)@) + Seq::<Seq<char>>::empty() =~= str_views(old(out)@));
        }
        return;
    }
    let mut key: Vec<char> = Vec::new();
    push_str(&mut key, "temp.hwmon");
    push_str(&mut key, ".");
    push_str(&mut key, hw.as_str());
    push_str(&mut key, ".");
    push_str(&mut key, input_stem(inp.file_name.as_str()).as_str());
    let mut l1 = key.clone();
    push_str(&mut l1, ".celsius=");
    push_str(&mut l1, millideg_to_celsius(v).as_str());
    push_line(out, chars_to_string(&l1));
    match &inp.label {
        Some(l) => {
            let t = trim_chars(&to_chars(l.as_str()));
            if t.len() > 0 {
                let mut l2 = key.clone();
                push_str(&mut l2, ".label=");
                crate::text::push_chars(&mut l2, &t);
                push_line(out, chars_to_string(&l2));
            }
        },
        None => {},
    }
    proof {
        assert(str_views(final(out)@) =~= str_views(old(out)@) + temp_input_lines(hw@, *inp));
    }
}

/// The temperature report from the thermal zones and the hwmon devices, each
/// in report order.
pub fn collect(zones: &Listing<Zone>, hwmons: &Listing<HwmonDevice>) -> (r: Report)
    requires
        match zones {
            Listing::Entries(zs) => zs.len() <= u32::MAX,
            _ => true,
        },
    ensures
        str_views(r.lines@) == temps_report(*zones, *hwmons).0,
        error_view(r.error) == temps_report(*zones, *hwmons).1,
{
    let mut out: Vec<String> = Vec::new();
    let mut idx: u32 = 0;
    match zones {
        Listing::Failed(e) => {
            return Report { lines: out, error: Some(e.clone()) };
        },
        Listing::Entries(zs) => {
            idx = zone_lines(zs, &mut out);
        },
        Listing::Missing => {},
    }
    proof {
        assert(str_views(out@) =~= match *zones {
            Listing::Entries(zs) => zones_from(zs@, 0, 0).0,
            _ => seq![],
        });
    }
    match hwmons {
        Listing::Failed(e) => {
            return Report { lines: out, error: Some(e.clone()) };
        },
        Listing::Entries(hws) => {
            let ghost zl = str_views(out@);
            let mut i: usize = 0;
            proof {
                assert(zl + temp_hwmons_from(hws@, 0).0 =~= str_views(out@) + temp_hwmons_from(hws@, 0).0);
            }
            while i < hws.len()
                invariant
                    i <= hws.len(),
                    *hwmons == Listing::Entries(*hws),
                    zl == (match *zones {
                        Listing::Entries(zs) => zones_from(zs@, 0, 0).0,
                        _ => seq![],
                    }),
                    !(*zones is Failed),
                    str_views(out@) + temp_hwmons_from(hws@, i as int).0 == zl + temp_hwmons_from(hws@, 0).0,
                    temp_hwmons_from(hws@, i as int).1 == temp_hwmons_from(hws@, 0).1,
                decreases hws.len() - i,
            {
                let hw = &hws[i];
                match &hw.inputs {
                    Err(e) => {
                        proof {
                            assert(str_views(out@) + Seq::<Seq<char>>::empty() =~= str_views(out@));
                        }
                        return Report { lines: out, error: Some(e.clone()) };
                    },
                    Ok(inputs) => {
                        let ghost before = str_views(out@);
                        let mut j: usize = 0;
                        proof {
                            assert(before + temp_inputs_from(hw.name@, inputs@, 0) =~= str_views(out@) + temp_inputs_from(hw.name@, inputs@, 0));
                        }
                        while j < inputs.len()
                            invariant
                                j <= inputs.len(),
                                str_views(out@) + temp_inputs_from(hw.name@, inputs@, j as int) == before + temp_inputs_from(hw.name@, inputs@, 0),
                            decreases inputs.len() - j,
                        {
                            let ghost prev = str_views(out@);
                            temp_input_lines_exec(&hw.name, &inputs[j], &mut out);
                            proof {
                                assert(prev + temp_inputs_from(hw.name@, inputs@, j as int) =~= str_views(out@) + temp_inputs_from(hw.name@, inputs@, j + 1));
                            }
                            j = j + 1;
                        }
                        proof {
                            assert(before + temp_hwmons_from(hws@, i as int).0 =~= str_views(out@) + temp_hwmons_from(hws@, i + 1).0);
                        }
                    },
                }
                i = i + 1;
            }
        },
        Listing::Missing => {},
    }
    push_line(&mut out, make_count_line("temp.count", idx as u64));
    proof {
        assert(str_views(out@) =~= temps_report(*zones, *hwmons).0);
    }
    Report { lines: out, error: None }
}

} // verus!
