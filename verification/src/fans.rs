//! Fan speeds of hwmon sensors.
use vstd::prelude::*;
use crate::num::{dec, or_zero, parse_dec, parse_u32, push_dec};
use crate::report::{
    Listing, Report, count_line, error_view, item_line, make_count_line, make_item_line, push_line,
    str_views,
};
use crate::temps::{HwmonDevice, SensorInput, input_stem, sensor_key};
use crate::text::{push_chars, push_str, to_chars, chars_to_string, trim, trim_chars};

verus! {

/// A fan speed in the text of a sysfs file: its trimmed text as a `u32`, or 0.
pub open spec fn rpm_of(text: Seq<char>) -> int {
    or_zero(parse_dec(trim(text), u32::MAX as int))
}

/// The name under which fan number `fidx` is listed: its trimmed label when
/// that is not empty, else `Fan N` with N = `fidx` + 1.
pub open spec fn fan_display_name(label: Option<String>, fidx: nat) -> Seq<char> {
    match label {
        Some(l) => if trim(l@).len() > 0 {
            trim(l@)
        } else {
            "Fan "@ + dec(fidx + 1)
        },
        None => "Fan "@ + dec(fidx + 1),
    }
}

/// Law: a fan is listed by its trimmed label when that is not empty, and
/// otherwise as `Fan N`, N being its number counted from 1.
pub proof fn fan_name_by_label(label: Option<String>, fidx: nat)
    ensures
        label is Some && trim(label.unwrap()@).len() > 0 ==> fan_display_name(label, fidx) == trim(
            label.unwrap()@,
        ),
        !(label is Some && trim(label.unwrap()@).len() > 0) ==> fan_display_name(label, fidx)
            == seq!['F', 'a', 'n', ' '] + dec(fidx + 1),
{
    reveal_strlit("Fan ");
    assert("Fan "@ =~= seq!['F', 'a', 'n', ' ']);
}

/// The lines of a fan input of hwmon device `hw` that is numbered `fidx`
/// when it turns: its speed under its key, then its name and speed under
/// its number; none when its speed is 0.
pub open spec fn fan_input_lines(hw: Seq<char>, inp: SensorInput, fidx: nat) -> Seq<Seq<char>> {
    let rpm = rpm_of(inp.value@);
    if rpm == 0 {
        seq![]
    } else {
        seq![
            sensor_key("fan.hwmon"@, hw, inp.file_name@) + ".rpm="@ + dec(rpm as nat),
            item_line("fan"@, fidx, "name"@, fan_display_name(inp.label, fidx)),
            item_line("fan"@, fidx, "rpm"@, dec(rpm as nat)),
        ]
    }
}

/// The lines of the fan inputs from input `j` on, the first turning one
/// numbered `fidx`, and the number after the last.
pub open spec fn fan_inputs_from(hw: Seq<char>, inputs: Seq<SensorInput>, j: int, fidx: nat) -> (
    Seq<Seq<char>>,
    nat,
)
    decreases inputs.len() - j,
{
    if j >= inputs.len() || j < 0 {
        (seq![], fidx)
    } else {
        let next = if rpm_of(inputs[j].value@) == 0 {
            fidx
        } else {
            fidx + 1
        };
        let rest = fan_inputs_from(hw, inputs, j + 1, next);
        (fan_input_lines(hw, inputs[j], fidx) + rest.0, rest.1)
    }
}

/// The fan lines of the hwmon devices from device `i` on, the error of the
/// first device whose directory could not be read (where the lines stop),
/// and the number after the last fan.
pub open spec fn fan_hwmons_from(hws: Seq<HwmonDevice>, i: int, fidx: nat) -> (
    Seq<Seq<char>>,
    Option<Seq<char>>,
    nat,
)
    decreases hws.len() - i,
{
    if i >= hws.len() || i < 0 {
        (seq![], None, fidx)
    } else {
        match hws[i].inputs {
            Err(e) => (seq![], Some(e@), fidx),
            Ok(inputs) => {
                let own = fan_inputs_from(hws[i].name@, inputs@, 0, fidx);
                let rest = fan_hwmons_from(hws, i + 1, own.1);
                (own.0 + rest.0, rest.1, rest.2)
            },
        }
    }
}

/// The fan report: the lines of each turning fan, then the fan count; a
/// directory that could not be read stops it with its error.
pub open spec fn fans_report(hwmons: Listing<HwmonDevice>) -> (Seq<Seq<char>>, Option<Seq<char>>) {
    match hwmons {
        Listing::Missing => (seq![count_line("fan.count"@, 0)], None),
        Listing::Failed(e) => (seq![], Some(e@)),
        Listing::Entries(hws) => {
            let h = fan_hwmons_from(hws@, 0, 0);
            match h.1 {
                Some(e) => (h.0, Some(e)),
                None => (h.0 + seq![count_line("fan.count"@, h.2)], None),
            }
        },
    }
}

/// Number of sensor inputs of the devices from device `i` on.
pub open spec fn inputs_from(hws: Seq<HwmonDevice>, i: int) -> nat
    decreases hws.len() - i,
{
    if i >= hws.len() || i < 0 {
        0
    } else {
        (match hws[i].inputs {
            Ok(v) => v@.len(),
            Err(_) => 0,
        }) + inputs_from(hws, i + 1)
    }
}

/// Number of sensor inputs of all devices.
pub fn count_inputs(hws: &Vec<HwmonDevice>) -> (n: u64)
    ensures
        n == inputs_from(hws@, 0) || (n == u64::MAX && inputs_from(hws@, 0) >= u64::MAX),
{
    let mut n: u64 = 0;
    let mut i: usize = hws.len();
    while i > 0
        invariant
            i <= hws.len(),
            n == inputs_from(hws@, i as int) || (n == u64::MAX && inputs_from(hws@, i as int) >= u64::MAX),
        decreases i,
    {
        let own: usize = match &hws[i - 1].inputs {
            Ok(v) => v.len(),
            Err(_) => 0,
        };
        if n == u64::MAX || (own as u128) + (n as u128) >= u64::MAX as u128 {
            n = u64::MAX;
        } else {
            n = n + own as u64;
        }
        i = i - 1;
    }
    n
}

fn rpm_value(text: &String) -> (r: u32)
    ensures
        r == rpm_of(text@),
{
    let t = trim_chars(&to_chars(text.as_str()));
    match parse_u32(&t) {
        Some(v) => v,
        None => 0,
    }
}

fn fan_input_lines_exec(hw: &String, inp: &SensorInput, fidx: u32, out: &mut Vec<String>) -> (turning: bool)
    requires
        fidx < u32::MAX,
    ensures
        str_views(final(out)@) == str_views(old(out)@) + fan_input_lines(hw@, *inp, fidx as nat),
        turning == (rpm_of(inp.value@) != 0),
{
    let rpm = rpm_value(&inp.value);
    if rpm == 0 {
        proof {
            assert(str_views(old(out)@) + Seq::<Seq<char>>::empty() =~= str_views(old(out)@));
        }
        return false;
    }
    let mut rv: Vec<char> = Vec::new();
    push_dec(&mut rv, rpm as u64);
    let mut l1: Vec<char> = Vec::new();
    push_str(&mut l1, "fan.hwmon");
    push_str(&mut l1, ".");
    push_str(&mut l1, hw.as_str());
    push_str(&mut l1, ".");
    push_str(&mut l1, input_stem(inp.file_name.as_str()).as_str());
    push_str(&mut l1, ".rpm=");
    push_chars(&mut l1, &rv);
    push_line(out, chars_to_string(&l1));
    let mut display: Vec<char> = Vec::new();
    let mut labelled = false;
    match &inp.label {
        Some(l) => {
            let t = trim_chars(&to_chars(l.as_str()));
            if t.len() > 0 {
                display = t;
                labelled = true;
            }
        },
        None => {},
    }
    if !labelled {
        push_str(&mut display, "Fan ");
        push_dec(&mut display, fidx as u64 + 1);
    }
    proof {
        assert(display@ =~= fan_display_name(inp.label, fidx as nat));
    }
    push_line(out, make_item_line("fan", fidx as u64, "name", &display));
    push_line(out, make_item_line("fan", fidx as u64, "rpm", &rv));
    proof {
        assert(str_views(final(out)@) =~= str_views(old(out)@) + fan_input_lines(hw@, *inp, fidx as nat));
    }
    true
}

/// The fan report from the hwmon devices in report order.
pub fn collect(hwmons: &Listing<HwmonDevice>) -> (r: Report)
    requires
        match hwmons {
            Listing::Entries(hws) => inputs_from(hws@, 0) <= u32::MAX,
            _ => true,
        },
    ensures
        str_views(r.lines@) == fans_report(*hwmons).0,
        error_view(r.error) == fans_report(*hwmons).1,
{
    let mut out: Vec<String> = Vec::new();
    match hwmons {
        Listing::Missing => {
            push_line(&mut out, make_count_line("fan.count", 0));
            proof {
                assert(str_views(out@) =~= fans_report(*hwmons).0);
            }
            Report { lines: out, error: None }
        },
        Listing::Failed(e) => Report { lines: out, error: Some(e.clone()) },
        Listing::Entries(hws) => {
            let mut fidx: u32 = 0;
            let mut i: usize = 0;
            let ghost total = fan_hwmons_from(hws@, 0, 0);
            proof {
                assert(str_views(out@) + total.0 =~= total.0);
            }
            while i < hws.len()
                invariant
                    i <= hws.len(),
                    *hwmons == Listing::Entries(*hws),
                    total == fan_hwmons_from(hws@, 0, 0),
                    fidx + inputs_from(hws@, i as int) <= u32::MAX,
                    str_views(out@) + fan_hwmons_from(hws@, i as int, fidx as nat).0 == total.0,
                    fan_hwmons_from(hws@, i as int, fidx as nat).1 == total.1,
                    fan_hwmons_from(hws@, i as int, fidx as nat).2 == total.2,
                decreases hws.len() - i,
            {
                let hw = &hws[i];
                match &hw.inputs {
                    Err(e) => {
                        proof {
                            assert(str_views(out@) + Seq::<Seq<char>>::empty() =~= str_views(out@));
                        }
                        return Report { lines: out, error: Some(e.clone()) };
                    },
                    Ok(inputs) => {
                        let ghost start = fidx as nat;
                        let ghost before = str_views(out@);
                        let ghost own = fan_inputs_from(hw.name@, inputs@, 0, start);
                        let mut j: usize = 0;
                        proof {
                            assert(before + own.0 =~= str_views(out@) + own.0);
                        }
                        while j < inputs.len()
                            invariant
                                j <= inputs.len(),
                                fidx + (inputs.len() - j) + inputs_from(hws@, i + 1) <= u32::MAX,
                                own == fan_inputs_from(hw.name@, inputs@, 0, start),
                                str_views(out@) + fan_inputs_from(hw.name@, inputs@, j as int, fidx as nat).0
                                    == before + own.0,
                                fan_inputs_from(hw.name@, inputs@, j as int, fidx as nat).1 == own.1,
                            decreases inputs.len() - j,
                        {
                            let ghost prev = str_views(out@);
                            let turning = fan_input_lines_exec(&hw.name, &inputs[j], fidx, &mut out);
                            let ghost old_fidx = fidx;
                            if turning {
                                fidx = fidx + 1;
                            }
                            proof {
                                assert(prev + fan_inputs_from(hw.name@, inputs@, j as int, old_fidx as nat).0
                                    =~= str_views(out@) + fan_inputs_from(hw.name@, inputs@, j + 1, fidx as nat).0);
                            }
                            j = j + 1;
                        }
                        proof {
                            assert(before + fan_hwmons_from(hws@, i as int, start).0
                                =~= str_views(out@) + fan_hwmons_from(hws@, i + 1, fidx as nat).0);
                        }
                    },
                }
                i = i + 1;
            }
            push_line(&mut out, make_count_line("fan.count", fidx as u64));
            proof {
                assert(str_views(out@) =~= fans_report(*hwmons).0);
            }
            Report { lines: out, error: None }
        },
    }
}

} // verus!
