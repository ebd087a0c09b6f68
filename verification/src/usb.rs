//! USB devices of `/sys/bus/usb/devices`.
use vstd::prelude::*;
use crate::report::{
    count_line, item_line, lemma_blocks_at, make_count_line, make_item_line, push_line, str_views,
};
use crate::text::{push_chars, push_str, to_chars, trim, trim_chars};

verus! {

/// A USB device: the text of its `busnum`, `devnum`, `idVendor`,
/// `idProduct`, `product` and `manufacturer` files (empty where missing).
pub struct UsbDevice {
    pub busnum: String,
    pub devnum: String,
    pub id_vendor: String,
    pub id_product: String,
    pub product: String,
    pub manufacturer: String,
}

/// `vendor:product` of the trimmed ids.
pub open spec fn usb_id(d: UsbDevice) -> Seq<char> {
    trim(d.id_vendor@) + ":"@ + trim(d.id_product@)
}

/// The description of a device: manufacturer and product, or whichever of
/// them is not empty, or else its id.
pub open spec fn usb_description(d: UsbDevice) -> Seq<char> {
    let m = trim(d.manufacturer@);
    let p = trim(d.product@);
    if m.len() > 0 && p.len() > 0 {
        m + " "@ + p
    } else if p.len() > 0 {
        p
    } else if m.len() > 0 {
        m
    } else {
        usb_id(d)
    }
}

/// Law: a device is described by its manufacturer and product joined by a
/// space when it has both, by the one it has when it has one of them, and by
/// its `vendor:product` ids when it has neither (each trimmed).
pub proof fn usb_description_choice(d: UsbDevice)
    ensures
        ({
            let m = trim(d.manufacturer@);
            let p = trim(d.product@);
            let desc = usb_description(d);
            &&& m.len() > 0 && p.len() > 0 ==> desc == m + seq![' '] + p
            &&& m.len() == 0 && p.len() > 0 ==> desc == p
            &&& m.len() > 0 && p.len() == 0 ==> desc == m
            &&& m.len() == 0 && p.len() == 0 ==> desc == trim(d.id_vendor@) + seq![':'] + trim(
                d.id_product@,
            )
        }),
{
    reveal_strlit(" ");
    reveal_strlit(":");
}

/// The four lines of the device at position `idx`: bus, device number, id
/// and description.
pub open spec fn usb_lines_spec(idx: nat, d: UsbDevice) -> Seq<Seq<char>> {
    seq![
        item_line("usb"@, idx, "bus"@, trim(d.busnum@)),
        item_line("usb"@, idx, "device"@, trim(d.devnum@)),
        item_line("usb"@, idx, "id"@, usb_id(d)),
        item_line("usb"@, idx, "description"@, usb_description(d)),
    ]
}

fn trimmed(s: &String) -> (r: Vec<char>)
    ensures
        r@ == trim(s@),
{
    trim_chars(&to_chars(s.as_str()))
}

/// The description of a device.
pub fn description(d: &UsbDevice) -> (r: Vec<char>)
    ensures
        r@ == usb_description(*d),
{
    let m = trimmed(&d.manufacturer);
    let p = trimmed(&d.product);
    if m.len() > 0 && p.len() > 0 {
        let mut out = m;
        push_str(&mut out, " ");
        push_chars(&mut out, &p);
        out
    } else if p.len() > 0 {
        p
    } else if m.len() > 0 {
        m
    } else {
        let mut out = trimmed(&d.id_vendor);
        push_str(&mut out, ":");
        push_chars(&mut out, &trimmed(&d.id_product));
        out
    }
}

/// The USB report on the devices in the given order: the four lines of each,
/// numbered from 0, then their count.
pub open spec fn usb_report_spec(devices: Seq<UsbDevice>) -> Seq<Seq<char>> {
    Seq::new(devices.len(), |i: int| usb_lines_spec(i as nat, devices[i])).flatten() + seq![
        count_line("usb.count"@, devices.len()),
    ]
}

/// Where the lines of a device stand in the USB report: line `k` of device
/// `i` at `4 * i + k`, and the count line last, after four lines per device.
pub proof fn usb_report_at(devices: Seq<UsbDevice>, i: int, k: int)
    requires
        0 <= i < devices.len(),
        0 <= k < 4,
    ensures
        usb_report_spec(devices).len() == 4 * devices.len() + 1,
        usb_report_spec(devices)[4 * i + k] == usb_lines_spec(i as nat, devices[i])[k],
        usb_report_spec(devices)[4 * devices.len() as int] == count_line("usb.count"@, devices.len()),
{
    let s = Seq::new(devices.len(), |j: int| usb_lines_spec(j as nat, devices[j]));
    lemma_blocks_at(s, 4, i, k);
}

/// The USB report on the devices in the given order: four lines for each,
/// numbered from 0, then their count.
pub fn collect(devices: &Vec<UsbDevice>) -> (r: Vec<String>)
    requires
        devices.len() <= u32::MAX,
    ensures
        str_views(r@) == usb_report_spec(devices@),
{
    let ghost f = |i: int| usb_lines_spec(i as nat, devices@[i]);
    let mut r: Vec<String> = Vec::new();
    let mut i: usize = 0;
    proof {
        assert(Seq::new(0, f).flatten() =~= Seq::<Seq<char>>::empty());
        assert(str_views(r@) =~= Seq::new(0, f).flatten());
    }
    while i < devices.len()
        invariant
            i <= devices.len(),
            devices.len() <= u32::MAX,
            f == (|i: int| usb_lines_spec(i as nat, devices@[i])),
            str_views(r@) == Seq::new(i as nat, f).flatten(),
        decreases devices.len() - i,
    {
        let d = &devices[i];
        let mut id = trimmed(&d.id_vendor);
        push_str(&mut id, ":");
        push_chars(&mut id, &trimmed(&d.id_product));
        push_line(&mut r, make_item_line("usb", i as u64, "bus", &trimmed(&d.busnum)));
        push_line(&mut r, make_item_line("usb", i as u64, "device", &trimmed(&d.devnum)));
        push_line(&mut r, make_item_line("usb", i as u64, "id", &id));
        push_line(&mut r, make_item_line("usb", i as u64, "description", &description(d)));
        proof {
            assert(Seq::new((i + 1) as nat, f) =~= Seq::new(i as nat, f).push(f(i as int)));
            Seq::new(i as nat, f).lemma_flatten_push(f(i as int));
            assert(str_views(r@) =~= Seq::new((i + 1) as nat, f).flatten());
        }
        i = i + 1;
    }
    push_line(&mut r, make_count_line("usb.count", i as u64));
    proof {
        assert(str_views(r@) =~= usb_report_spec(devices@));
    }
    r
}

} // verus!
