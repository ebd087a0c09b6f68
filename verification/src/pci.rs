//! PCI devices: identifiers written in hexadecimal, class codes and their
//! names, the `pci.ids` vendor and device database, and the report lines.
use vstd::prelude::*;
use std::collections::HashMap;
use crate::num::{hex, parse_hex, or_zero, parse_hex_u16, parse_hex_u32, push_hex_padded, zero_pad};
use crate::report::{
    count_line, item_line, lemma_blocks_at, make_count_line, make_item_line, push_line, str_views,
};
use crate::text::{
    find, find_char, lines, push_chars, push_str, skip_chars, split_lines, starts_with,
    starts_with_str, subrange_chars, to_chars, chars_to_string, trim, trim_chars,
    trim_start_matches, trim_start_matches_str, views,
};

verus! {

broadcast use vstd::std_specs::hash::group_hash_axioms;

/// What `hex_u16` gives: `s` without its leading `0x`s, read as a
/// hexadecimal `u16`, or 0.
pub open spec fn hex_u16_spec(s: Seq<char>) -> int {
    or_zero(parse_hex(trim_start_matches(s, "0x"@), u16::MAX as int))
}

/// What `hex_u32` gives: `s` without its leading `0x`s, read as a
/// hexadecimal `u32`, or 0.
pub open spec fn hex_u32_spec(s: Seq<char>) -> int {
    or_zero(parse_hex(trim_start_matches(s, "0x"@), u32::MAX as int))
}

/// A sysfs identifier such as `0x8086` as a number; 0 when it is not one.
pub fn hex_u16(s: &str) -> (r: u16)
    ensures
        r == hex_u16_spec(s@),
{
    let v = to_chars(s);
    let body = trim_start_matches_str(&v, "0x");
    match parse_hex_u16(&body) {
        Some(x) => x,
        None => 0,
    }
}

/// A sysfs class code such as `0x030000` as a number; 0 when it is not one.
pub fn hex_u32(s: &str) -> (r: u32)
    ensures
        r == hex_u32_spec(s@),
{
    let v = to_chars(s);
    let body = trim_start_matches_str(&v, "0x");
    match parse_hex_u32(&body) {
        Some(x) => x,
        None => 0,
    }
}

/// `0x` and the digits of a zero-padded hexadecimal numeral lose exactly
/// their `0x` to `trim_start_matches`, and the digits read as the number.
proof fn lemma_read_0x(n: nat, width: nat, max: int)
    requires
        n <= max,
    ensures
        trim_start_matches("0x"@ + zero_pad(hex(n), width), "0x"@) == zero_pad(hex(n), width),
        parse_hex(zero_pad(hex(n), width), max) == Some(n as int),
{
    reveal_strlit("0x");
    crate::num::lemma_zero_pad_hex_round_trip(n, width);
    let t = zero_pad(hex(n), width);
    let p = "0x"@;
    let s = p + t;
    assert(s.take(2) =~= p);
    assert(s.skip(2) =~= t);
    assert(crate::num::is_hex_digit(t[0]));
    if t.len() >= 2 {
        assert(crate::num::is_hex_digit(t[1]));
        assert(t.take(2)[1] != p[1]);
    }
    assert(!starts_with(t, p));
    assert(starts_with(s, p));
    assert(trim_start_matches(s, p) == trim_start_matches(s.skip(p.len() as int), p));
    assert(trim_start_matches(t, p) == t);
    assert(crate::num::unsigned_body(t) == t);
}

/// Law: `hex_u16` reads back the `0x` form of a `u16`, with its digits
/// zero-padded to any width (`format!("0x{:04x}", v)` among them).
pub proof fn hex_u16_reads_0x_form(v: u16, width: nat)
    ensures
        hex_u16_spec("0x"@ + zero_pad(hex(v as nat), width)) == v,
{
    lemma_read_0x(v as nat, width, u16::MAX as int);
}

/// Law: `hex_u32` reads back the `0x` form of a `u32`, with its digits
/// zero-padded to any width (`format!("0x{:x}", v)` with no padding among
/// them).
pub proof fn hex_u32_reads_0x_form(v: u32, width: nat)
    ensures
        hex_u32_spec("0x"@ + zero_pad(hex(v as nat), width)) == v,
{
    lemma_read_0x(v as nat, width, u32::MAX as int);
}

/// Name of a PCI base class.
pub open spec fn base_class_spec(base: u8) -> Option<&'static str> {
    match base {
        0x00u8 => Some("Unclassified"),
        0x01u8 => Some("Mass storage controller"),
        0x02u8 => Some("Network controller"),
        0x03u8 => Some("Display controller"),
        0x04u8 => Some("Multimedia controller"),
        0x05u8 => Some("Memory controller"),
        0x06u8 => Some("Bridge"),
        0x07u8 => Some("Communication controller"),
        0x08u8 => Some("Generic system peripheral"),
        0x09u8 => Some("Input device controller"),
        0x0au8 => Some("Docking station"),
        0x0bu8 => Some("Processor"),
        0x0cu8 => Some("Serial bus controller"),
        0x0du8 => Some("Wireless controller"),
        0x0eu8 => Some("Intelligent controller"),
        0x0fu8 => Some("Satellite communications controller"),
        0x10u8 => Some("Encryption controller"),
        0x11u8 => Some("Signal processing controller"),
        0x12u8 => Some("Processing accelerators"),
        0x13u8 => Some("Non-essential instrumentation"),
        0x14u8 => Some("CXL"),
        0x40u8 => Some("Coherent accelerator"),
        0xffu8 => Some("Unassigned class"),
        _ => None,
    }
}

/// Name of a PCI subclass within its base class.
pub open spec fn sub_class_spec(base: u8, sub: u8) -> Option<&'static str> {
    match (base, sub) {
        (0x01u8, 0x00u8) => Some("SCSI storage controller"),
        (0x01u8, 0x01u8) => Some("IDE interface"),
        (0x01u8, 0x02u8) => Some("Floppy disk controller"),
        (0x01u8, 0x03u8) => Some("IPI bus controller"),
        (0x01u8, 0x04u8) => Some("RAID bus controller"),
        (0x01u8, 0x05u8) => Some("ATA compatible controller"),
        (0x01u8, 0x06u8) => Some("Serial ATA controller"),
        (0x01u8, 0x07u8) => Some("Serial Attached SCSI controller"),
        (0x01u8, 0x08u8) => Some("Non-Volatile memory controller"),
        (0x02u8, 0x00u8) => Some("Ethernet controller"),
        (0x02u8, 0x01u8) => Some("Token ring network controller"),
        (0x02u8, 0x02u8) => Some("FDDI network controller"),
        (0x02u8, 0x03u8) => Some("ATM network controller"),
        (0x02u8, 0x04u8) => Some("ISDN controller"),
        (0x02u8, 0x05u8) => Some("WorldFip controller"),
        (0x02u8, 0x06u8) => Some("PICMG controller"),
        (0x02u8, 0x07u8) => Some("Infiniband controller"),
        (0x02u8, 0x08u8) => Some("Fabric controller"),
        (0x03u8, 0x00u8) => Some("VGA compatible controller"),
        (0x03u8, 0x01u8) => Some("XGA compatible controller"),
        (0x03u8, 0x02u8) => Some("3D controller"),
        (0x03u8, 0x03u8) => Some("Display controller"),
        (0x04u8, 0x00u8) => Some("Video device"),
        (0x04u8, 0x01u8) => Some("Audio device"),
        (0x04u8, 0x02u8) => Some("Computer telephony device"),
        (0x04u8, 0x03u8) => Some("Audio device"),
        (0x06u8, 0x00u8) => Some("Host bridge"),
        (0x06u8, 0x01u8) => Some("ISA bridge"),
        (0x06u8, 0x02u8) => Some("EISA bridge"),
        (0x06u8, 0x03u8) => Some("MicroChannel bridge"),
        (0x06u8, 0x04u8) => Some("PCI bridge"),
        (0x06u8, 0x05u8) => Some("PCMCIA bridge"),
        (0x06u8, 0x06u8) => Some("NuBus bridge"),
        (0x06u8, 0x07u8) => Some("CardBus bridge"),
        (0x06u8, 0x08u8) => Some("RACEway bridge"),
        (0x06u8, 0x09u8) => Some("PCI to PCI bridge"),
        (0x06u8, 0x0au8) => Some("InfiniBand to PCI host bridge"),
        (0x07u8, 0x00u8) => Some("Serial controller"),
        (0x07u8, 0x01u8) => Some("Parallel controller"),
        (0x07u8, 0x02u8) => Some("Multiport serial controller"),
        (0x07u8, 0x03u8) => Some("Modem"),
        (0x07u8, 0x04u8) => Some("IEEE 1284 controller"),
        (0x07u8, 0x05u8) => Some("Smart card"),
        (0x08u8, 0x00u8) => Some("PIC"),
        (0x08u8, 0x01u8) => Some("DMA controller"),
        (0x08u8, 0x02u8) => Some("Timer"),
        (0x08u8, 0x03u8) => Some("RTC"),
        (0x08u8, 0x04u8) => Some("Generic PCI Hotplug controller"),
        (0x08u8, 0x05u8) => Some("SD host controller"),
        (0x08u8, 0x06u8) => Some("IOMMU"),
        (0x08u8, 0x07u8) => Some("Performance counter"),
        (0x0cu8, 0x00u8) => Some("USB controller"),
        (0x0cu8, 0x01u8) => Some("USB controller"),
        (0x0cu8, 0x02u8) => Some("USB controller"),
        (0x0cu8, 0x03u8) => Some("USB controller"),
        (0x0cu8, 0x04u8) => Some("USB controller"),
        (0x0cu8, 0x05u8) => Some("USB controller"),
        (0x0cu8, 0x06u8) => Some("USB controller"),
        (0x0cu8, 0x07u8) => Some("USB controller"),
        (0x0cu8, 0x08u8) => Some("USB controller"),
        (0x0cu8, 0x09u8) => Some("USB controller"),
        (0x0cu8, 0x10u8) => Some("SMBus"),
        (0x0cu8, 0x11u8) => Some("SMBus"),
        (0x0cu8, 0x12u8) => Some("SMBus"),
        (0x11u8, 0x00u8) => Some("DPIO"),
        (0x11u8, 0x01u8) => Some("Performance counters"),
        (0x11u8, 0x02u8) => Some("Communication synchronizer"),
        (0x11u8, 0x03u8) => Some("Signal processing management"),
        (0x11u8, 0x04u8) => Some("Signal processing accelerator"),
        _ => None,
    }
}

/// Name of a programming interface within its subclass.
pub open spec fn prog_if_spec(base: u8, sub: u8, prog: u8) -> Option<&'static str> {
    match (base, sub, prog) {
        (0x0cu8, 0x03u8, 0x00u8) => Some("Universal Host Controller Interface (UHCI)"),
        (0x0cu8, 0x03u8, 0x10u8) => Some("Open Host Controller Interface (OHCI)"),
        (0x0cu8, 0x03u8, 0x20u8) => Some("Enhanced Host Controller Interface (EHCI)"),
        (0x0cu8, 0x03u8, 0x30u8) => Some("xHCI"),
        (0x0cu8, 0x03u8, 0x40u8) => Some("xHCI"),
        (0x0cu8, 0x03u8, 0x80u8) => Some("USB host controller"),
        (0x01u8, 0x01u8, 0x8au8) => Some("PIATA (parallel transport)"),
        (0x01u8, 0x05u8, 0x20u8) => Some("Single DMA"),
        (0x01u8, 0x05u8, 0x30u8) => Some("Chained DMA"),
        (0x01u8, 0x06u8, 0x01u8) => Some("AHCI 1.0"),
        (0x06u8, 0x04u8, 0x00u8) => Some("Subtractive decode"),
        (0x06u8, 0x04u8, 0x01u8) => Some("Half bridge"),
        (0x06u8, 0x04u8, 0x80u8) => Some("Normal decode"),
        _ => None,
    }
}

fn base_class(base: u8) -> (r: Option<&'static str>)
    ensures
        r == base_class_spec(base),
{
    match base {
        0x00u8 => Some("Unclassified"),
        0x01u8 => Some("Mass storage controller"),
        0x02u8 => Some("Network controller"),
        0x03u8 => Some("Display controller"),
        0x04u8 => Some("Multimedia controller"),
        0x05u8 => Some("Memory controller"),
        0x06u8 => Some("Bridge"),
        0x07u8 => Some("Communication controller"),
        0x08u8 => Some("Generic system peripheral"),
        0x09u8 => Some("Input device controller"),
        0x0au8 => Some("Docking station"),
        0x0bu8 => Some("Processor"),
        0x0cu8 => Some("Serial bus controller"),
        0x0du8 => Some("Wireless controller"),
        0x0eu8 => Some("Intelligent controller"),
        0x0fu8 => Some("Satellite communications controller"),
        0x10u8 => Some("Encryption controller"),
        0x11u8 => Some("Signal processing controller"),
        0x12u8 => Some("Processing accelerators"),
        0x13u8 => Some("Non-essential instrumentation"),
        0x14u8 => Some("CXL"),
        0x40u8 => Some("Coherent accelerator"),
        0xffu8 => Some("Unassigned class"),
        _ => None,
    }
}

fn sub_class(base: u8, sub: u8) -> (r: Option<&'static str>)
    ensures
        r == sub_class_spec(base, sub),
{
    match (base, sub) {
        (0x01u8, 0x00u8) => Some("SCSI storage controller"),
        (0x01u8, 0x01u8) => Some("IDE interface"),
        (0x01u8, 0x02u8) => Some("Floppy disk controller"),
        (0x01u8, 0x03u8) => Some("IPI bus controller"),
        (0x01u8, 0x04u8) => Some("RAID bus controller"),
        (0x01u8, 0x05u8) => Some("ATA compatible controller"),
        (0x01u8, 0x06u8) => Some("Serial ATA controller"),
        (0x01u8, 0x07u8) => Some("Serial Attached SCSI controller"),
        (0x01u8, 0x08u8) => Some("Non-Volatile memory controller"),
        (0x02u8, 0x00u8) => Some("Ethernet controller"),
        (0x02u8, 0x01u8) => Some("Token ring network controller"),
        (0x02u8, 0x02u8) => Some("FDDI network controller"),
        (0x02u8, 0x03u8) => Some("ATM network controller"),
        (0x02u8, 0x04u8) => Some("ISDN controller"),
        (0x02u8, 0x05u8) => Some("WorldFip controller"),
        (0x02u8, 0x06u8) => Some("PICMG controller"),
        (0x02u8, 0x07u8) => Some("Infiniband controller"),
        (0x02u8, 0x08u8) => Some("Fabric controller"),
        (0x03u8, 0x00u8) => Some("VGA compatible controller"),
        (0x03u8, 0x01u8) => Some("XGA compatible controller"),
        (0x03u8, 0x02u8) => Some("3D controller"),
        (0x03u8, 0x03u8) => Some("Display controller"),
        (0x04u8, 0x00u8) => Some("Video device"),
        (0x04u8, 0x01u8) => Some("Audio device"),
        (0x04u8, 0x02u8) => Some("Computer telephony device"),
        (0x04u8, 0x03u8) => Some("Audio device"),
        (0x06u8, 0x00u8) => Some("Host bridge"),
        (0x06u8, 0x01u8) => Some("ISA bridge"),
        (0x06u8, 0x02u8) => Some("EISA bridge"),
        (0x06u8, 0x03u8) => Some("MicroChannel bridge"),
        (0x06u8, 0x04u8) => Some("PCI bridge"),
        (0x06u8, 0x05u8) => Some("PCMCIA bridge"),
        (0x06u8, 0x06u8) => Some("NuBus bridge"),
        (0x06u8, 0x07u8) => Some("CardBus bridge"),
        (0x06u8, 0x08u8) => Some("RACEway bridge"),
        (0x06u8, 0x09u8) => Some("PCI to PCI bridge"),
        (0x06u8, 0x0au8) => Some("InfiniBand to PCI host bridge"),
        (0x07u8, 0x00u8) => Some("Serial controller"),
        (0x07u8, 0x01u8) => Some("Parallel controller"),
        (0x07u8, 0x02u8) => Some("Multiport serial controller"),
        (0x07u8, 0x03u8) => Some("Modem"),
        (0x07u8, 0x04u8) => Some("IEEE 1284 controller"),
        (0x07u8, 0x05u8) => Some("Smart card"),
        (0x08u8, 0x00u8) => Some("PIC"),
        (0x08u8, 0x01u8) => Some("DMA controller"),
        (0x08u8, 0x02u8) => Some("Timer"),
        (0x08u8, 0x03u8) => Some("RTC"),
        (0x08u8, 0x04u8) => Some("Generic PCI Hotplug controller"),
        (0x08u8, 0x05u8) => Some("SD host controller"),
        (0x08u8, 0x06u8) => Some("IOMMU"),
        (0x08u8, 0x07u8) => Some("Performance counter"),
        (0x0cu8, 0x00u8) => Some("USB controller"),
        (0x0cu8, 0x01u8) => Some("USB controller"),
        (0x0cu8, 0x02u8) => Some("USB controller"),
        (0x0cu8, 0x03u8) => Some("USB controller"),
        (0x0cu8, 0x04u8) => Some("USB controller"),
        (0x0cu8, 0x05u8) => Some("USB controller"),
        (0x0cu8, 0x06u8) => Some("USB controller"),
        (0x0cu8, 0x07u8) => Some("USB controller"),
        (0x0cu8, 0x08u8) => Some("USB controller"),
        (0x0cu8, 0x09u8) => Some("USB controller"),
        (0x0cu8, 0x10u8) => Some("SMBus"),
        (0x0cu8, 0x11u8) => Some("SMBus"),
        (0x0cu8, 0x12u8) => Some("SMBus"),
        (0x11u8, 0x00u8) => Some("DPIO"),
        (0x11u8, 0x01u8) => Some("Performance counters"),
        (0x11u8, 0x02u8) => Some("Communication synchronizer"),
        (0x11u8, 0x03u8) => Some("Signal processing management"),
        (0x11u8, 0x04u8) => Some("Signal processing accelerator"),
        _ => None,
    }
}

fn prog_if(base: u8, sub: u8, prog: u8) -> (r: Option<&'static str>)
    ensures
        r == prog_if_spec(base, sub, prog),
{
    match (base, sub, prog) {
        (0x0cu8, 0x03u8, 0x00u8) => Some("Universal Host Controller Interface (UHCI)"),
        (0x0cu8, 0x03u8, 0x10u8) => Some("Open Host Controller Interface (OHCI)"),
        (0x0cu8, 0x03u8, 0x20u8) => Some("Enhanced Host Controller Interface (EHCI)"),
        (0x0cu8, 0x03u8, 0x30u8) => Some("xHCI"),
        (0x0cu8, 0x03u8, 0x40u8) => Some("xHCI"),
        (0x0cu8, 0x03u8, 0x80u8) => Some("USB host controller"),
        (0x01u8, 0x01u8, 0x8au8) => Some("PIATA (parallel transport)"),
        (0x01u8, 0x05u8, 0x20u8) => Some("Single DMA"),
        (0x01u8, 0x05u8, 0x30u8) => Some("Chained DMA"),
        (0x01u8, 0x06u8, 0x01u8) => Some("AHCI 1.0"),
        (0x06u8, 0x04u8, 0x00u8) => Some("Subtractive decode"),
        (0x06u8, 0x04u8, 0x01u8) => Some("Half bridge"),
        (0x06u8, 0x04u8, 0x80u8) => Some("Normal decode"),
        _ => None,
    }
}

/// Base class byte of a class code.
pub open spec fn class_base(class: u32) -> u8 {
    (class >> 16u32) as u8
}

/// Subclass byte of a class code.
pub open spec fn class_sub(class: u32) -> u8 {
    ((class >> 8u32) & 0xffu32) as u8
}

/// Programming-interface byte of a class code.
pub open spec fn class_prog(class: u32) -> u8 {
    (class & 0xffu32) as u8
}

/// The description of a class code: `Class xx` for an unknown base class,
/// the base class name when the subclass is unknown, else the subclass name,
/// followed by the programming interface in brackets when that is known.
pub open spec fn class_name_spec(class: u32) -> Seq<char> {
    let base = class_base(class);
    let sub = class_sub(class);
    let prog = class_prog(class);
    match base_class_spec(base) {
        None => "Class "@ + zero_pad(hex(base as nat), 2),
        Some(bn) => match sub_class_spec(base, sub) {
            None => bn@,
            Some(sn) => match prog_if_spec(base, sub, prog) {
                Some(p) => sn@ + " ("@ + p@ + ")"@,
                None => sn@,
            },
        },
    }
}

/// The description of a PCI class code.
pub fn class_name(class: u32) -> (r: String)
    ensures
        r@ == class_name_spec(class),
{
    #[verifier::truncate]
    let base = (class >> 16u32) as u8;
    #[verifier::truncate]
    let sub = ((class >> 8u32) & 0xffu32) as u8;
    #[verifier::truncate]
    let prog = (class & 0xffu32) as u8;
    let mut out: Vec<char> = Vec::new();
    match base_class(base) {
        None => {
            push_str(&mut out, "Class ");
            push_hex_padded(&mut out, base as u64, 2);
        },
        Some(bn) => match sub_class(base, sub) {
            None => {
                push_str(&mut out, bn);
            },
            Some(sn) => match prog_if(base, sub, prog) {
                Some(p) => {
                    push_str(&mut out, sn);
                    push_str(&mut out, " (");
                    push_str(&mut out, p);
                    push_str(&mut out, ")");
                },
                None => {
                    push_str(&mut out, sn);
                },
            },
        },
    }
    proof {
        assert(out@ =~= class_name_spec(class));
    }
    chars_to_string(&out)
}

/// Law: the description of every class code, given by its base class,
/// subclass and programming-interface bytes: `Class xx` for a base class
/// outside the table, the base class name for a subclass outside the table
/// (or a base class without subclasses), else the subclass name, followed by
/// the programming interface in brackets where the table has one.
#[verifier::rlimit(100)]
pub proof fn class_name_by_bytes(b: u8, s: u8, p: u8)
    ensures
        ({
            let c = ((b as u32) << 16u32) | ((s as u32) << 8u32) | (p as u32);
            &&& !(b == 0x00u8 || b == 0x01u8 || b == 0x02u8 || b == 0x03u8 || b == 0x04u8 || b == 0x05u8 || b == 0x06u8 || b == 0x07u8 || b == 0x08u8 || b == 0x09u8 || b == 0x0au8 || b == 0x0bu8 || b == 0x0cu8 || b == 0x0du8 || b == 0x0eu8 || b == 0x0fu8 || b == 0x10u8 || b == 0x11u8 || b == 0x12u8 || b == 0x13u8 || b == 0x14u8 || b == 0x40u8 || b == 0xffu8) ==> class_name_spec(c) == "Class "@ + zero_pad(hex(b as nat), 2)
            &&& b == 0x00u8 ==> class_name_spec(c) == "Unclassified"@
            &&& b == 0x01u8 && !(s == 0x00u8 || s == 0x01u8 || s == 0x02u8 || s == 0x03u8 || s == 0x04u8 || s == 0x05u8 || s == 0x06u8 || s == 0x07u8 || s == 0x08u8) ==> class_name_spec(c) == "Mass storage controller"@
            &&& b == 0x02u8 && !(s == 0x00u8 || s == 0x01u8 || s == 0x02u8 || s == 0x03u8 || s == 0x04u8 || s == 0x05u8 || s == 0x06u8 || s == 0x07u8 || s == 0x08u8) ==> class_name_spec(c) == "Network controller"@
            &&& b == 0x03u8 && !(s == 0x00u8 || s == 0x01u8 || s == 0x02u8 || s == 0x03u8) ==> class_name_spec(c) == "Display controller"@
            &&& b == 0x04u8 && !(s == 0x00u8 || s == 0x01u8 || s == 0x02u8 || s == 0x03u8) ==> class_name_spec(c) == "Multimedia controller"@
            &&& b == 0x05u8 ==> class_name_spec(c) == "Memory controller"@
            &&& b == 0x06u8 && !(s == 0x00u8 || s == 0x01u8 || s == 0x02u8 || s == 0x03u8 || s == 0x04u8 || s == 0x05u8 || s == 0x06u8 || s == 0x07u8 || s == 0x08u8 || s == 0x09u8 || s == 0x0au8) ==> class_name_spec(c) == "Bridge"@
            &&& b == 0x07u8 && !(s == 0x00u8 || s == 0x01u8 || s == 0x02u8 || s == 0x03u8 || s == 0x04u8 || s == 0x05u8) ==> class_name_spec(c) == "Communication controller"@
            &&& b == 0x08u8 && !(s == 0x00u8 || s == 0x01u8 || s == 0x02u8 || s == 0x03u8 || s == 0x04u8 || s == 0x05u8 || s == 0x06u8 || s == 0x07u8) ==> class_name_spec(c) == "Generic system peripheral"@
            &&& b == 0x09u8 ==> class_name_spec(c) == "Input device controller"@
            &&& b == 0x0au8 ==> class_name_spec(c) == "Docking station"@
            &&& b == 0x0bu8 ==> class_name_spec(c) == "Processor"@
            &&& b == 0x0cu8 && !(s == 0x00u8 || s == 0x01u8 || s == 0x02u8 || s == 0x03u8 || s == 0x04u8 || s == 0x05u8 || s == 0x06u8 || s == 0x07u8 || s == 0x08u8 || s == 0x09u8 || s == 0x10u8 || s == 0x11u8 || s == 0x12u8) ==> class_name_spec(c) == "Serial bus controller"@
            &&& b == 0x0du8 ==> class_name_spec(c) == "Wireless controller"@
            &&& b == 0x0eu8 ==> class_name_spec(c) == "Intelligent controller"@
            &&& b == 0x0fu8 ==> class_name_spec(c) == "Satellite communications controller"@
            &&& b == 0x10u8 ==> class_name_spec(c) == "Encryption controller"@
            &&& b == 0x11u8 && !(s == 0x00u8 || s == 0x01u8 || s == 0x02u8 || s == 0x03u8 || s == 0x04u8) ==> class_name_spec(c) == "Signal processing controller"@
            &&& b == 0x12u8 ==> class_name_spec(c) == "Processing accelerators"@
            &&& b == 0x13u8 ==> class_name_spec(c) == "Non-essential instrumentation"@
            &&& b == 0x14u8 ==> class_name_spec(c) == "CXL"@
            &&& b == 0x40u8 ==> class_name_spec(c) == "Coherent accelerator"@
            &&& b == 0xffu8 ==> class_name_spec(c) == "Unassigned class"@
            &&& b == 0x01u8 && s == 0x00u8 ==> class_name_spec(c) == "SCSI storage controller"@
            &&& b == 0x01u8 && s == 0x01u8 && p == 0x8au8 ==> class_name_spec(c) == "IDE interface (PIATA (parallel transport))"@
            &&& b == 0x01u8 && s == 0x01u8 && !(p == 0x8au8) ==> class_name_spec(c) == "IDE interface"@
            &&& b == 0x01u8 && s == 0x02u8 ==> class_name_spec(c) == "Floppy disk controller"@
            &&& b == 0x01u8 && s == 0x03u8 ==> class_name_spec(c) == "IPI bus controller"@
            &&& b == 0x01u8 && s == 0x04u8 ==> class_name_spec(c) == "RAID bus controller"@
            &&& b == 0x01u8 && s == 0x05u8 && p == 0x20u8 ==> class_name_spec(c) == "ATA compatible controller (Single DMA)"@
            &&& b == 0x01u8 && s == 0x05u8 && p == 0x30u8 ==> class_name_spec(c) == "ATA compatible controller (Chained DMA)"@
            &&& b == 0x01u8 && s == 0x05u8 && !(p == 0x20u8 || p == 0x30u8) ==> class_name_spec(c) == "ATA compatible controller"@
            &&& b == 0x01u8 && s == 0x06u8 && p == 0x01u8 ==> class_name_spec(c) == "Serial ATA controller (AHCI 1.0)"@
            &&& b == 0x01u8 && s == 0x06u8 && !(p == 0x01u8) ==> class_name_spec(c) == "Serial ATA controller"@
            &&& b == 0x01u8 && s == 0x07u8 ==> class_name_spec(c) == "Serial Attached SCSI controller"@
            &&& b == 0x01u8 && s == 0x08u8 ==> class_name_spec(c) == "Non-Volatile memory controller"@
            &&& b == 0x02u8 && s == 0x00u8 ==> class_name_spec(c) == "Ethernet controller"@
            &&& b == 0x02u8 && s == 0x01u8 ==> class_name_spec(c) == "Token ring network controller"@
            &&& b == 0x02u8 && s == 0x02u8 ==> class_name_spec(c) == "FDDI network controller"@
            &&& b == 0x02u8 && s == 0x03u8 ==> class_name_spec(c) == "ATM network controller"@
            &&& b == 0x02u8 && s == 0x04u8 ==> class_name_spec(c) == "ISDN controller"@
            &&& b == 0x02u8 && s == 0x05u8 ==> class_name_spec(c) == "WorldFip controller"@
            &&& b == 0x02u8 && s == 0x06u8 ==> class_name_spec(c) == "PICMG controller"@
            &&& b == 0x02u8 && s == 0x07u8 ==> class_name_spec(c) == "Infiniband controller"@
            &&& b == 0x02u8 && s == 0x08u8 ==> class_name_spec(c) == "Fabric controller"@
            &&& b == 0x03u8 && s == 0x00u8 ==> class_name_spec(c) == "VGA compatible controller"@
            &&& b == 0x03u8 && s == 0x01u8 ==> class_name_spec(c) == "XGA compatible controller"@
            &&& b == 0x03u8 && s == 0x02u8 ==> class_name_spec(c) == "3D controller"@
            &&& b == 0x03u8 && s == 0x03u8 ==> class_name_spec(c) == "Display controller"@
            &&& b == 0x04u8 && s == 0x00u8 ==> class_name_spec(c) == "Video device"@
            &&& b == 0x04u8 && s == 0x01u8 ==> class_name_spec(c) == "Audio device"@
            &&& b == 0x04u8 && s == 0x02u8 ==> class_name_spec(c) == "Computer telephony device"@
            &&& b == 0x04u8 && s == 0x03u8 ==> class_name_spec(c) == "Audio device"@
            &&& b == 0x06u8 && s == 0x00u8 ==> class_name_spec(c) == "Host bridge"@
            &&& b == 0x06u8 && s == 0x01u8 ==> class_name_spec(c) == "ISA bridge"@
            &&& b == 0x06u8 && s == 0x02u8 ==> class_name_spec(c) == "EISA bridge"@
            &&& b == 0x06u8 && s == 0x03u8 ==> class_name_spec(c) == "MicroChannel bridge"@
            &&& b == 0x06u8 && s == 0x04u8 && p == 0x00u8 ==> class_name_spec(c) == "PCI bridge (Subtractive decode)"@
            &&& b == 0x06u8 && s == 0x04u8 && p == 0x01u8 ==> class_name_spec(c) == "PCI bridge (Half bridge)"@
            &&& b == 0x06u8 && s == 0x04u8 && p == 0x80u8 ==> class_name_spec(c) == "PCI bridge (Normal decode)"@
            &&& b == 0x06u8 && s == 0x04u8 && !(p == 0x00u8 || p == 0x01u8 || p == 0x80u8) ==> class_name_spec(c) == "PCI bridge"@
            &&& b == 0x06u8 && s == 0x05u8 ==> class_name_spec(c) == "PCMCIA bridge"@
            &&& b == 0x06u8 && s == 0x06u8 ==> class_name_spec(c) == "NuBus bridge"@
            &&& b == 0x06u8 && s == 0x07u8 ==> class_name_spec(c) == "CardBus bridge"@
            &&& b == 0x06u8 && s == 0x08u8 ==> class_name_spec(c) == "RACEway bridge"@
            &&& b == 0x06u8 && s == 0x09u8 ==> class_name_spec(c) == "PCI to PCI bridge"@
            &&& b == 0x06u8 && s == 0x0au8 ==> class_name_spec(c) == "InfiniBand to PCI host bridge"@
            &&& b == 0x07u8 && s == 0x00u8 ==> class_name_spec(c) == "Serial controller"@
            &&& b == 0x07u8 && s == 0x01u8 ==> class_name_spec(c) == "Parallel controller"@
            &&& b == 0x07u8 && s == 0x02u8 ==> class_name_spec(c) == "Multiport serial controller"@
            &&& b == 0x07u8 && s == 0x03u8 ==> class_name_spec(c) == "Modem"@
            &&& b == 0x07u8 && s == 0x04u8 ==> class_name_spec(c) == "IEEE 1284 controller"@
            &&& b == 0x07u8 && s == 0x05u8 ==> class_name_spec(c) == "Smart card"@
            &&& b == 0x08u8 && s == 0x00u8 ==> class_name_spec(c) == "PIC"@
            &&& b == 0x08u8 && s == 0x01u8 ==> class_name_spec(c) == "DMA controller"@
            &&& b == 0x08u8 && s == 0x02u8 ==> class_name_spec(c) == "Timer"@
            &&& b == 0x08u8 && s == 0x03u8 ==> class_name_spec(c) == "RTC"@
            &&& b == 0x08u8 && s == 0x04u8 ==> class_name_spec(c) == "Generic PCI Hotplug controller"@
            &&& b == 0x08u8 && s == 0x05u8 ==> class_name_spec(c) == "SD host controller"@
            &&& b == 0x08u8 && s == 0x06u8 ==> class_name_spec(c) == "IOMMU"@
            &&& b == 0x08u8 && s == 0x07u8 ==> class_name_spec(c) == "Performance counter"@
            &&& b == 0x0cu8 && s == 0x00u8 ==> class_name_spec(c) == "USB controller"@
            &&& b == 0x0cu8 && s == 0x01u8 ==> class_name_spec(c) == "USB controller"@
            &&& b == 0x0cu8 && s == 0x02u8 ==> class_name_spec(c) == "USB controller"@
            &&& b == 0x0cu8 && s == 0x03u8 && p == 0x00u8 ==> class_name_spec(c) == "USB controller (Universal Host Controller Interface (UHCI))"@
            &&& b == 0x0cu8 && s == 0x03u8 && p == 0x10u8 ==> class_name_spec(c) == "USB controller (Open Host Controller Interface (OHCI))"@
            &&& b == 0x0cu8 && s == 0x03u8 && p == 0x20u8 ==> class_name_spec(c) == "USB controller (Enhanced Host Controller Interface (EHCI))"@
            &&& b == 0x0cu8 && s == 0x03u8 && p == 0x30u8 ==> class_name_spec(c) == "USB controller (xHCI)"@
            &&& b == 0x0cu8 && s == 0x03u8 && p == 0x40u8 ==> class_name_spec(c) == "USB controller (xHCI)"@
            &&& b == 0x0cu8 && s == 0x03u8 && p == 0x80u8 ==> class_name_spec(c) == "USB controller (USB host controller)"@
            &&& b == 0x0cu8 && s == 0x03u8 && !(p == 0x00u8 || p == 0x10u8 || p == 0x20u8 || p == 0x30u8 || p == 0x40u8 || p == 0x80u8) ==> class_name_spec(c) == "USB controller"@
            &&& b == 0x0cu8 && s == 0x04u8 ==> class_name_spec(c) == "USB controller"@
            &&& b == 0x0cu8 && s == 0x05u8 ==> class_name_spec(c) == "USB controller"@
            &&& b == 0x0cu8 && s == 0x06u8 ==> class_name_spec(c) == "USB controller"@
            &&& b == 0x0cu8 && s == 0x07u8 ==> class_name_spec(c) == "USB controller"@
            &&& b == 0x0cu8 && s == 0x08u8 ==> class_name_spec(c) == "USB controller"@
            &&& b == 0x0cu8 && s == 0x09u8 ==> class_name_spec(c) == "USB controller"@
            &&& b == 0x0cu8 && s == 0x10u8 ==> class_name_spec(c) == "SMBus"@
            &&& b == 0x0cu8 && s == 0x11u8 ==> class_name_spec(c) == "SMBus"@
            &&& b == 0x0cu8 && s == 0x12u8 ==> class_name_spec(c) == "SMBus"@
            &&& b == 0x11u8 && s == 0x00u8 ==> class_name_spec(c) == "DPIO"@
            &&& b == 0x11u8 && s == 0x01u8 ==> class_name_spec(c) == "Performance counters"@
            &&& b == 0x11u8 && s == 0x02u8 ==> class_name_spec(c) == "Communication synchronizer"@
            &&& b == 0x11u8 && s == 0x03u8 ==> class_name_spec(c) == "Signal processing management"@
            &&& b == 0x11u8 && s == 0x04u8 ==> class_name_spec(c) == "Signal processing accelerator"@
        }),
{
    let c = ((b as u32) << 16u32) | ((s as u32) << 8u32) | (p as u32);
    assert(class_base(((b as u32) << 16u32) | ((s as u32) << 8u32) | (p as u32)) == b) by (bit_vector);
    assert(class_sub(((b as u32) << 16u32) | ((s as u32) << 8u32) | (p as u32)) == s) by (bit_vector);
    assert(class_prog(((b as u32) << 16u32) | ((s as u32) << 8u32) | (p as u32)) == p) by (bit_vector);
    reveal_strlit(" (");
    reveal_strlit(")");
    reveal_strlit("AHCI 1.0");
    reveal_strlit("ATA compatible controller");
    reveal_strlit("ATA compatible controller (Chained DMA)");
    reveal_strlit("ATA compatible controller (Single DMA)");
    reveal_strlit("Chained DMA");
    reveal_strlit("Enhanced Host Controller Interface (EHCI)");
    reveal_strlit("Half bridge");
    reveal_strlit("IDE interface");
    reveal_strlit("IDE interface (PIATA (parallel transport))");
    reveal_strlit("Normal decode");
    reveal_strlit("Open Host Controller Interface (OHCI)");
    reveal_strlit("PCI bridge");
    reveal_strlit("PCI bridge (Half bridge)");
    reveal_strlit("PCI bridge (Normal decode)");
    reveal_strlit("PCI bridge (Subtractive decode)");
    reveal_strlit("PIATA (parallel transport)");
    reveal_strlit("Serial ATA controller");
    reveal_strlit("Serial ATA controller (AHCI 1.0)");
    reveal_strlit("Single DMA");
    reveal_strlit("Subtractive decode");
    reveal_strlit("USB controller");
    reveal_strlit("USB controller (Enhanced Host Controller Interface (EHCI))");
    reveal_strlit("USB controller (Open Host Controller Interface (OHCI))");
    reveal_strlit("USB controller (USB host controller)");
    reveal_strlit("USB controller (Universal Host Controller Interface (UHCI))");
    reveal_strlit("USB controller (xHCI)");
    reveal_strlit("USB host controller");
    reveal_strlit("Universal Host Controller Interface (UHCI)");
    reveal_strlit("xHCI");
}

/// The database as vendor id to vendor name and device id to device name.
pub type PciModel = Map<u16, (Seq<char>, Map<u16, Seq<char>>)>;

/// Device names of one vendor, as character sequences.
pub open spec fn names_view(d: Map<u16, String>) -> Map<u16, Seq<char>> {
    Map::new(|k: u16| d.contains_key(k), |k: u16| d[k]@)
}

/// Vendors and their devices, as character sequences.
pub open spec fn vendors_view(m: Map<u16, (String, HashMap<u16, String>)>) -> PciModel {
    Map::new(|k: u16| m.contains_key(k), |k: u16| (m[k].0@, names_view(m[k].1@)))
}

/// Vendor and device names from a `pci.ids` database.
pub struct PciDb {
    vendors: HashMap<u16, (String, HashMap<u16, String>)>,
}

impl View for PciDb {
    type V = PciModel;

    closed spec fn view(&self) -> PciModel {
        vendors_view(self.vendors@)
    }
}

/// `s` split at its first space: the part before and the part after.
pub open spec fn split_space(s: Seq<char>) -> Option<(Seq<char>, Seq<char>)> {
    match find_char(s, ' ') {
        Some(i) => Some((s.take(i), s.skip(i + 1))),
        None => None,
    }
}

/// What one line of `pci.ids` does to the database and the current vendor.
/// Empty lines and `#` comments do nothing. A line that does not begin with a
/// tab and reads `ID NAME`, ID in hexadecimal, sets vendor ID to NAME with no
/// devices and makes it current. A line with one leading tab that reads
/// `ID NAME` sets device ID of the current vendor to NAME. Lines with two
/// leading tabs, and lines that do not read so, do nothing.
pub open spec fn pci_step(db: PciModel, cur: Option<u16>, line: Seq<char>) -> (PciModel, Option<
    u16,
>) {
    if line.len() == 0 || line[0] == '#' {
        (db, cur)
    } else if line[0] != '\t' {
        match split_space(line) {
            Some((id, rest)) => match parse_hex(id, u16::MAX as int) {
                Some(v) => (db.insert(v as u16, (trim(rest), Map::empty())), Some(v as u16)),
                None => (db, cur),
            },
            None => (db, cur),
        }
    } else if line.len() >= 2 && line[1] == '\t' {
        (db, cur)
    } else {
        match cur {
            Some(vid) => match split_space(line.drop_first()) {
                Some((id, rest)) => match parse_hex(id, u16::MAX as int) {
                    Some(d) => if db.contains_key(vid) {
                        (db.insert(vid, (db[vid].0, db[vid].1.insert(d as u16, trim(rest)))), cur)
                    } else {
                        (db, cur)
                    },
                    None => (db, cur),
                },
                None => (db, cur),
            },
            None => (db, cur),
        }
    }
}

/// The database and current vendor after the lines `ls`.
pub open spec fn pci_fold(db: PciModel, cur: Option<u16>, ls: Seq<Seq<char>>) -> (PciModel, Option<
    u16,
>)
    decreases ls.len(),
{
    if ls.len() == 0 {
        (db, cur)
    } else {
        let (d, c) = pci_step(db, cur, ls[0]);
        pci_fold(d, c, ls.drop_first())
    }
}

/// The database after reading the text `content` of a `pci.ids` file into `db`.
pub open spec fn pci_parse(db: PciModel, content: Seq<char>) -> PciModel {
    pci_fold(db, None, lines(content)).0
}

/// Vendor name and device name that the database holds for the two ids.
pub open spec fn lookup_spec(db: PciModel, vendor_id: u16, device_id: u16) -> (Option<Seq<char>>, Option<Seq<char>>) {
    if db.contains_key(vendor_id) {
        (
            Some(db[vendor_id].0),
            if db[vendor_id].1.contains_key(device_id) {
                Some(db[vendor_id].1[device_id])
            } else {
                None
            },
        )
    } else {
        (None, None)
    }
}

/// Law: a vendor line `ID NAME` read into any database makes a lookup of
/// that vendor give the trimmed name and no device name, whatever was there
/// before, and makes the vendor current.
pub proof fn vendor_line_sets_vendor(
    db: PciModel,
    cur: Option<u16>,
    line: Seq<char>,
    id: Seq<char>,
    rest: Seq<char>,
    device_id: u16,
)
    requires
        line.len() > 0,
        line[0] != '#',
        line[0] != '\t',
        split_space(line) == Some((id, rest)),
        parse_hex(id, u16::MAX as int) is Some,
    ensures
        ({
            let v = parse_hex(id, u16::MAX as int).unwrap() as u16;
            let (after, next) = pci_step(db, cur, line);
            &&& lookup_spec(after, v, device_id) == (Some(trim(rest)), None::<Seq<char>>)
            &&& next == Some(v)
        }),
{
}

/// Law: a device line `<tab>ID NAME` read while a known vendor is current
/// makes a lookup of that vendor and device give the vendor's name and the
/// trimmed device name, and leaves the current vendor as it was.
pub proof fn device_line_sets_device(
    db: PciModel,
    vendor_id: u16,
    line: Seq<char>,
    id: Seq<char>,
    rest: Seq<char>,
)
    requires
        line.len() > 0,
        line[0] == '\t',
        !(line.len() >= 2 && line[1] == '\t'),
        db.contains_key(vendor_id),
        split_space(line.drop_first()) == Some((id, rest)),
        parse_hex(id, u16::MAX as int) is Some,
    ensures
        ({
            let d = parse_hex(id, u16::MAX as int).unwrap() as u16;
            let (after, next) = pci_step(db, Some(vendor_id), line);
            &&& lookup_spec(after, vendor_id, d) == (Some(db[vendor_id].0), Some(trim(rest)))
            &&& next == Some(vendor_id)
        }),
{
}

/// Law: empty lines, `#` comment lines and lines indented by two tabs
/// (subsystem entries) change neither the database nor the current vendor.
pub proof fn ignored_lines_change_nothing(db: PciModel, cur: Option<u16>, line: Seq<char>)
    requires
        line.len() == 0 || line[0] == '#' || (line.len() >= 2 && line[0] == '\t' && line[1]
            == '\t'),
    ensures
        pci_step(db, cur, line) == (db, cur),
{
}

/// Law: the description of a device is its class description, then, where
/// the database knows the vendor, `: ` and the vendor name, then a space and
/// the device name where it knows that too, else the two ids as
/// ` [vvvv:dddd]` in four lower-case hexadecimal digits each.
pub proof fn description_by_names(
    class_desc: Seq<char>,
    vn: Option<Seq<char>>,
    dn: Option<Seq<char>>,
    vid: u16,
    did: u16,
)
    ensures
        ({
            let ids = seq![' ', '['] + zero_pad(hex(vid as nat), 4) + seq![':'] + zero_pad(
                hex(did as nat),
                4,
            ) + seq![']'];
            let d = description_spec(class_desc, (vn, dn), vid, did);
            &&& vn is None ==> d == class_desc + ids
            &&& vn is Some && dn is Some ==> d == class_desc + seq![':', ' '] + vn.unwrap() + seq![' ']
                + dn.unwrap()
            &&& vn is Some && dn is None ==> d == class_desc + seq![':', ' '] + vn.unwrap() + ids
        }),
{
    reveal_strlit(" [");
    reveal_strlit(":");
    reveal_strlit("]");
    reveal_strlit(": ");
    reveal_strlit(" ");
    let ids = seq![' ', '['] + zero_pad(hex(vid as nat), 4) + seq![':'] + zero_pad(hex(did as nat), 4)
        + seq![']'];
    assert(ids_suffix(vid, did) =~= ids);
    match (vn, dn) {
        (Some(v), Some(x)) => {
            assert(description_spec(class_desc, (vn, dn), vid, did) =~= class_desc + seq![':', ' ']
                + v + seq![' '] + x);
        },
        (Some(v), None) => {
            assert(description_spec(class_desc, (vn, dn), vid, did) =~= class_desc + seq![':', ' ']
                + v + ids);
        },
        _ => {
            assert(description_spec(class_desc, (vn, dn), vid, did) =~= class_desc + ids);
        },
    }
}

/// Law: a device's slot is its name without a leading `0000:` domain, and
/// its whole name in any other domain.
pub proof fn slot_drops_domain_zero(name: Seq<char>)
    ensures
        name.len() >= 5 && name.take(5) == seq!['0', '0', '0', '0', ':'] ==> slot_spec(name)
            == name.skip(5),
        !(name.len() >= 5 && name.take(5) == seq!['0', '0', '0', '0', ':']) ==> slot_spec(name)
            == name,
{
    reveal_strlit("0000:");
    assert("0000:"@ =~= seq!['0', '0', '0', '0', ':']);
}

/// The vendor that a line of `pci.ids` declares: a line that is not empty,
/// not a `#` comment and not indented, reading `ID NAME` with ID a
/// hexadecimal `u16`.
pub open spec fn declared_vendor(line: Seq<char>) -> Option<u16> {
    if line.len() > 0 && line[0] != '#' && line[0] != '\t' {
        match split_space(line) {
            Some((id, _)) => match parse_hex(id, u16::MAX as int) {
                Some(v) => Some(v as u16),
                None => None,
            },
            None => None,
        }
    } else {
        None
    }
}

/// Some line of `ls` declares the vendor `v`.
pub open spec fn declares(ls: Seq<Seq<char>>, v: u16) -> bool {
    exists|i: int| 0 <= i < ls.len() && declared_vendor(#[trigger] ls[i]) == Some(v)
}

/// One line adds or overwrites the vendor it declares and makes it current;
/// any other line keeps the vendors and the current one, and changes no
/// vendor but the current one.
proof fn lemma_step_vendors(db: PciModel, cur: Option<u16>, line: Seq<char>)
    ensures
        ({
            let (d, c) = pci_step(db, cur, line);
            match declared_vendor(line) {
                Some(v) => {
                    &&& c == Some(v)
                    &&& d.dom() == db.dom().insert(v)
                    &&& forall|k: u16| k != v && db.contains_key(k) ==> d[k] == db[k]
                },
                None => {
                    &&& c == cur
                    &&& d.dom() == db.dom()
                    &&& forall|k: u16| Some(k) != cur && db.contains_key(k) ==> d[k] == db[k]
                },
            }
        }),
{
    let (d, c) = pci_step(db, cur, line);
    match declared_vendor(line) {
        Some(v) => {
            assert(d.dom() =~= db.dom().insert(v));
        },
        None => {
            assert(d.dom() =~= db.dom());
        },
    }
}

proof fn lemma_declares_split(ls: Seq<Seq<char>>, v: u16)
    requires
        ls.len() > 0,
    ensures
        declares(ls, v) <==> (declared_vendor(ls[0]) == Some(v) || declares(ls.drop_first(), v)),
{
    let t = ls.drop_first();
    if declares(ls, v) {
        let i = choose|i: int| 0 <= i < ls.len() && declared_vendor(#[trigger] ls[i]) == Some(v);
        if i > 0 {
            assert(t[i - 1] == ls[i]);
        }
    }
    if declares(t, v) {
        let i = choose|i: int| 0 <= i < t.len() && declared_vendor(#[trigger] t[i]) == Some(v);
        assert(ls[i + 1] == t[i]);
    }
    if declared_vendor(ls[0]) == Some(v) {
        assert(declared_vendor(ls[0]) == Some(v));
    }
}

proof fn lemma_fold_vendors(db: PciModel, cur: Option<u16>, ls: Seq<Seq<char>>)
    ensures
        forall|v: u16|
            #[trigger] pci_fold(db, cur, ls).0.contains_key(v) <==> db.contains_key(v) || declares(ls, v),
        forall|v: u16|
            db.contains_key(v) && !declares(ls, v) && cur != Some(v) ==> #[trigger] pci_fold(db, cur, ls).0[v]
                == db[v],
    decreases ls.len(),
{
    if ls.len() == 0 {
        assert forall|v: u16| !declares(ls, v) by {}
    } else {
        let (d, c) = pci_step(db, cur, ls[0]);
        let t = ls.drop_first();
        lemma_step_vendors(db, cur, ls[0]);
        lemma_fold_vendors(d, c, t);
        assert(pci_fold(db, cur, ls) == pci_fold(d, c, t));
        assert forall|v: u16| #[trigger] pci_fold(db, cur, ls).0.contains_key(v) <==> db.contains_key(v) || declares(ls, v) by {
            lemma_declares_split(ls, v);
        }
        assert forall|v: u16| db.contains_key(v) && !declares(ls, v) && cur != Some(v) implies #[trigger] pci_fold(db, cur, ls).0[v] == db[v] by {
            lemma_declares_split(ls, v);
        }
    }
}

/// Law: reading a `pci.ids` text into a database adds or overwrites exactly
/// the vendors that its lines declare: the vendors afterwards are those
/// before and those declared, and a vendor that no line declares keeps its
/// name and devices.
pub proof fn parse_keeps_undeclared_vendors(db: PciModel, content: Seq<char>)
    ensures
        forall|v: u16|
            #[trigger] pci_parse(db, content).contains_key(v) <==> db.contains_key(v) || declares(
                lines(content),
                v,
            ),
        forall|v: u16|
            db.contains_key(v) && !declares(lines(content), v) ==> #[trigger] pci_parse(db, content)[v]
                == db[v],
{
    lemma_fold_vendors(db, None, lines(content));
}

/// Position of the first space.
fn split_at_space(s: &Vec<char>) -> (r: Option<(Vec<char>, Vec<char>)>)
    ensures
        match r {
            Some((a, b)) => split_space(s@) == Some((a@, b@)),
            None => split_space(s@) is None,
        },
{
    match find(s, ' ') {
        Some(i) => {
            let a = subrange_chars(s, 0, i);
            let b = skip_chars(s, i + 1);
            proof {
                assert(a@ =~= s@.take(i as int));
            }
            Some((a, b))
        },
        None => None,
    }
}

impl PciDb {
    /// An empty database.
    pub fn new() -> (db: PciDb)
        ensures
            db@ == PciModel::empty(),
    {
        let db = PciDb { vendors: HashMap::new() };
        proof {
            assert(db@ =~= PciModel::empty());
        }
        db
    }

    /// Applies one line of `pci.ids`.
    fn step(&mut self, cur: Option<u16>, line: &Vec<char>) -> (next: Option<u16>)
        ensures
            (final(self)@, next) == pci_step(old(self)@, cur, line@),
    {
        if line.len() == 0 || line[0] == '#' {
            return cur;
        }
        if line[0] != '\t' {
            match split_at_space(line) {
                Some((id, rest)) => match parse_hex_u16(&id) {
                    Some(vid) => {
                        let name = chars_to_string(&trim_chars(&rest));
                        let devices: HashMap<u16, String> = HashMap::new();
                        proof {
                            assert(names_view(devices@) =~= Map::empty());
                        }
                        self.vendors.insert(vid, (name, devices));
                        proof {
                            assert(self@ =~= old(self)@.insert(vid, (trim(rest@), Map::empty())));
                        }
                        Some(vid)
                    },
                    None => cur,
                },
                None => cur,
            }
        } else if line.len() >= 2 && line[1] == '\t' {
            cur
        } else {
            match cur {
                Some(vid) => {
                    let tail = skip_chars(line, 1);
                    proof {
                        assert(tail@ =~= line@.drop_first());
                    }
                    match split_at_space(&tail) {
                        Some((id, rest)) => match parse_hex_u16(&id) {
                            Some(did) => {
                                let dname = chars_to_string(&trim_chars(&rest));
                                let ghost old_m = self.vendors@;
                                match self.vendors.remove(&vid) {
                                    Some(entry) => {
                                        let (vname, mut devices) = entry;
                                        devices.insert(did, dname);
                                        self.vendors.insert(vid, (vname, devices));
                                        proof {
                                            assert(old_m.contains_key(vid));
                                            assert(names_view(devices@) =~= names_view(
                                                old_m[vid].1@,
                                            ).insert(did, trim(rest@)));
                                            assert(self@ =~= old(self)@.insert(
                                                vid,
                                                (
                                                    old(self)@[vid].0,
                                                    old(self)@[vid].1.insert(did, trim(rest@)),
                                                ),
                                            ));
                                        }
                                    },
                                    None => {
                                        proof {
                                            assert(self.vendors@ =~= old_m);
                                        }
                                    },
                                }
                                cur
                            },
                            None => cur,
                        },
                        None => cur,
                    }
                },
                None => cur,
            }
        }
    }

    /// Reads the text of a `pci.ids` file into the database.
    pub fn parse(&mut self, content: &str)
        ensures
            final(self)@ == pci_parse(old(self)@, content@),
    {
        let text = to_chars(content);
        let ls = split_lines(&text);
        let ghost all = views(ls@);
        let mut cur: Option<u16> = None;
        let mut i: usize = 0;
        proof {
            assert(all.skip(0) =~= all);
        }
        while i < ls.len()
            invariant
                i <= ls.len(),
                all == views(ls@),
                all == lines(content@),
                pci_fold(self@, cur, all.skip(i as int)).0 == pci_parse(old(self)@, content@),
            decreases ls.len() - i,
        {
            proof {
                assert(all.skip(i as int).drop_first() =~= all.skip(i + 1));
                assert(all.skip(i as int)[0] == ls@[i as int]@);
            }
            cur = self.step(cur, &ls[i]);
            i = i + 1;
        }
    }

    /// Vendor name and device name for the two ids, where the database has them.
    pub fn lookup(&self, vendor_id: u16, device_id: u16) -> (r: (Option<&str>, Option<&str>))
        ensures
            match (r.0, lookup_spec(self@, vendor_id, device_id).0) {
                (Some(a), Some(b)) => a@ == b,
                (None, None) => true,
                _ => false,
            },
            match (r.1, lookup_spec(self@, vendor_id, device_id).1) {
                (Some(a), Some(b)) => a@ == b,
                (None, None) => true,
                _ => false,
            },
    {
        match self.vendors.get(&vendor_id) {
            Some(entry) => {
                let vn = entry.0.as_str();
                let dn = match entry.1.get(&device_id) {
                    Some(d) => Some(d.as_str()),
                    None => None,
                };
                (Some(vn), dn)
            },
            None => (None, None),
        }
    }
}

/// One entry of `/sys/bus/pci/devices`: its name and the text of its
/// `vendor`, `device` and `class` files.
pub struct PciDevice {
    pub name: String,
    pub vendor: String,
    pub device: String,
    pub class: String,
}

/// The slot of a device: its name without one leading `0000:` domain.
pub open spec fn slot_spec(name: Seq<char>) -> Seq<char> {
    if starts_with(name, "0000:"@) {
        name.skip("0000:"@.len() as int)
    } else {
        name
    }
}

/// ` [vvvv:dddd]`, the two ids in four hexadecimal digits.
pub open spec fn ids_suffix(vid: u16, did: u16) -> Seq<char> {
    " ["@ + zero_pad(hex(vid as nat), 4) + ":"@ + zero_pad(hex(did as nat), 4) + "]"@
}

/// The description of a device from its class description, the names that
/// the database has for it, and its ids.
pub open spec fn description_spec(
    class_desc: Seq<char>,
    names: (Option<Seq<char>>, Option<Seq<char>>),
    vid: u16,
    did: u16,
) -> Seq<char> {
    match names {
        (Some(vn), Some(dn)) => class_desc + ": "@ + vn + " "@ + dn,
        (Some(vn), None) => class_desc + ": "@ + vn + ids_suffix(vid, did),
        (None, _) => class_desc + ids_suffix(vid, did),
    }
}

/// Vendor id of a device entry.
pub open spec fn dev_vendor_id(dev: PciDevice) -> u16 {
    hex_u16_spec(trim(dev.vendor@)) as u16
}

/// Device id of a device entry.
pub open spec fn dev_device_id(dev: PciDevice) -> u16 {
    hex_u16_spec(trim(dev.device@)) as u16
}

/// Class code of a device entry.
pub open spec fn dev_class(dev: PciDevice) -> u32 {
    hex_u32_spec(trim(dev.class@)) as u32
}

/// The description line's value for a device entry.
pub open spec fn device_description_spec(db: PciModel, dev: PciDevice) -> Seq<char> {
    description_spec(
        class_name_spec(dev_class(dev)),
        lookup_spec(db, dev_vendor_id(dev), dev_device_id(dev)),
        dev_vendor_id(dev),
        dev_device_id(dev),
    )
}

/// The two report lines of the device at position `idx`.
pub open spec fn device_lines_spec(db: PciModel, idx: nat, dev: PciDevice) -> (Seq<char>, Seq<char>) {
    (
        item_line("pci"@, idx, "slot"@, slot_spec(dev.name@)),
        item_line("pci"@, idx, "description"@, device_description_spec(db, dev)),
    )
}

fn push_ids_suffix(out: &mut Vec<char>, vid: u16, did: u16)
    ensures
        final(out)@ == old(out)@ + ids_suffix(vid, did),
{
    push_str(out, " [");
    push_hex_padded(out, vid as u64, 4);
    push_str(out, ":");
    push_hex_padded(out, did as u64, 4);
    push_str(out, "]");
    proof {
        assert(final(out)@ =~= old(out)@ + ids_suffix(vid, did));
    }
}

/// The description of a device entry.
pub fn device_description(db: &PciDb, dev: &PciDevice) -> (r: Vec<char>)
    ensures
        r@ == device_description_spec(db@, *dev),
{
    let vendor_id = hex_u16(&trim_str_owned(&dev.vendor));
    let device_id = hex_u16(&trim_str_owned(&dev.device));
    let class_id = hex_u32(&trim_str_owned(&dev.class));
    let class_desc = to_chars(&class_name(class_id));
    let names = db.lookup(vendor_id, device_id);
    let mut out: Vec<char> = Vec::new();
    push_chars(&mut out, &class_desc);
    match names {
        (Some(vn), Some(dn)) => {
            push_str(&mut out, ": ");
            push_str(&mut out, vn);
            push_str(&mut out, " ");
            push_str(&mut out, dn);
        },
        (Some(vn), None) => {
            push_str(&mut out, ": ");
            push_str(&mut out, vn);
            push_ids_suffix(&mut out, vendor_id, device_id);
        },
        (None, _) => {
            push_ids_suffix(&mut out, vendor_id, device_id);
        },
    }
    proof {
        assert(out@ =~= device_description_spec(db@, *dev));
    }
    out
}

fn trim_str_owned(s: &String) -> (r: String)
    ensures
        r@ == trim(s@),
{
    crate::text::trim_str(s.as_str())
}

/// The slot of a device: its name without one leading `0000:` domain.
pub fn slot(name: &str) -> (r: Vec<char>)
    ensures
        r@ == slot_spec(name@),
{
    let v = to_chars(name);
    if starts_with_str(&v, "0000:") {
        let p = to_chars("0000:");
        skip_chars(&v, p.len())
    } else {
        v
    }
}

/// The two report lines of the device at position `idx`, as a sequence.
pub open spec fn device_block(db: PciModel, idx: nat, dev: PciDevice) -> Seq<Seq<char>> {
    seq![device_lines_spec(db, idx, dev).0, device_lines_spec(db, idx, dev).1]
}

/// The PCI report on the devices in the given order: the slot and
/// description lines of each, numbered from 0, then their count.
pub open spec fn pci_report_spec(db: PciModel, devices: Seq<PciDevice>) -> Seq<Seq<char>> {
    Seq::new(devices.len(), |i: int| device_block(db, i as nat, devices[i])).flatten() + seq![
        count_line("pci.count"@, devices.len()),
    ]
}

/// Where the lines of a device stand in the PCI report: its slot line at
/// `2 * i`, its description line at `2 * i + 1`, and the count line last.
pub proof fn pci_report_at(db: PciModel, devices: Seq<PciDevice>, i: int)
    requires
        0 <= i < devices.len(),
    ensures
        pci_report_spec(db, devices).len() == 2 * devices.len() + 1,
        pci_report_spec(db, devices)[2 * i] == device_lines_spec(db, i as nat, devices[i]).0,
        pci_report_spec(db, devices)[2 * i + 1] == device_lines_spec(db, i as nat, devices[i]).1,
        pci_report_spec(db, devices)[2 * devices.len() as int] == count_line(
            "pci.count"@,
            devices.len(),
        ),
{
    let s = Seq::new(devices.len(), |j: int| device_block(db, j as nat, devices[j]));
    lemma_blocks_at(s, 2, i, 0);
    lemma_blocks_at(s, 2, i, 1);
}

/// The report on PCI devices, listed in the given order: the slot and
/// description of each, then their count.
pub fn collect(devices: &Vec<PciDevice>, db: &PciDb) -> (r: Vec<String>)
    requires
        devices.len() <= u32::MAX,
    ensures
        str_views(r@) == pci_report_spec(db@, devices@),
{
    let ghost f = |i: int| device_block(db@, i as nat, devices@[i]);
    let mut r: Vec<String> = Vec::new();
    let mut i: usize = 0;
    proof {
        assert(Seq::new(0, f).flatten() =~= Seq::<Seq<char>>::empty());
        assert(str_views(r@) =~= Seq::new(0, f).flatten());
    }
    while i < devices.len()
        invariant
            i <= devices.len(),
            devices.len() <= u32::MAX,
            f == (|i: int| device_block(db@, i as nat, devices@[i])),
            str_views(r@) == Seq::new(i as nat, f).flatten(),
        decreases devices.len() - i,
    {
        let dev = &devices[i];
        let sl = slot(dev.name.as_str());
        let desc = device_description(db, dev);
        push_line(&mut r, make_item_line("pci", i as u64, "slot", &sl));
        push_line(&mut r, make_item_line("pci", i as u64, "description", &desc));
        proof {
            assert(Seq::new((i + 1) as nat, f) =~= Seq::new(i as nat, f).push(f(i as int)));
            Seq::new(i as nat, f).lemma_flatten_push(f(i as int));
            assert(str_views(r@) =~= Seq::new((i + 1) as nat, f).flatten());
        }
        i = i + 1;
    }
    push_line(&mut r, make_count_line("pci.count", i as u64));
    proof {
        assert(str_views(r@) =~= pci_report_spec(db@, devices@));
    }
    r
}

} // verus!
