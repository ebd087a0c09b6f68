use syslens_collect::pci::{class_name, collect, hex_u16, hex_u32, PciDb, PciDevice};

fn dev(name: &str, vendor: &str, device: &str, class: &str) -> PciDevice {
    PciDevice {
        name: name.to_string(),
        vendor: vendor.to_string(),
        device: device.to_string(),
        class: class.to_string(),
    }
}

const IDS: &str = "# comment\n\
8086  Intel Corporation\n\
\t1234  Some Controller\n\
\t\t8086 0001  Subsystem\n\
\t5678  Other Device  \n\
10de  NVIDIA Corporation\n\
\t1e84  TU104 [GeForce RTX 2070 SUPER]\n\
C 00  Unclassified device\n\
\t00  Non-VGA unclassified device\n";

#[test]
fn hex_ids_read_sysfs_values() {
    assert_eq!(hex_u16("0x8086"), 0x8086);
    assert_eq!(hex_u16("10de"), 0x10de);
    assert_eq!(hex_u16("0x"), 0);
    assert_eq!(hex_u16("zz"), 0);
    assert_eq!(hex_u16("0x10000"), 0);
    assert_eq!(hex_u32("0x030000"), 0x030000);
    assert_eq!(hex_u32("0x0x0c0330"), 0x0c0330);
}

#[test]
fn class_names() {
    assert_eq!(class_name(0x030000), "VGA compatible controller");
    assert_eq!(class_name(0x0c0330), "USB controller (xHCI)");
    assert_eq!(class_name(0x0c0300), "USB controller (Universal Host Controller Interface (UHCI))");
    assert_eq!(class_name(0x010601), "Serial ATA controller (AHCI 1.0)");
    assert_eq!(class_name(0x020080), "Ethernet controller");
    assert_eq!(class_name(0x028000), "Network controller");
    assert_eq!(class_name(0x990000), "Class 99");
    assert_eq!(class_name(0x160000), "Class 16");
    assert_eq!(class_name(0x050000), "Memory controller");
    assert_eq!(class_name(0x060400), "PCI bridge (Subtractive decode)");
    assert_eq!(class_name(0xff0000), "Unassigned class");
}

#[test]
fn database_lookup_after_parse() {
    let mut db = PciDb::new();
    db.parse(IDS);
    assert_eq!(db.lookup(0x8086, 0x1234), (Some("Intel Corporation"), Some("Some Controller")));
    assert_eq!(db.lookup(0x8086, 0x5678), (Some("Intel Corporation"), Some("Other Device")));
    assert_eq!(db.lookup(0x8086, 0x9999), (Some("Intel Corporation"), None));
    assert_eq!(db.lookup(0x10de, 0x1e84), (Some("NVIDIA Corporation"), Some("TU104 [GeForce RTX 2070 SUPER]")));
    assert_eq!(db.lookup(0x1234, 0x0001), (None, None));
    // A class header reads as vendor 0x000c and takes the subclass lines as devices.
    assert_eq!(db.lookup(0x000c, 0x0000), (Some("00  Unclassified device"), Some("Non-VGA unclassified device")));
}

#[test]
fn database_later_vendor_line_replaces() {
    let mut db = PciDb::new();
    db.parse("abcd  First\n\t0001  Dev\nabcd  Second\n");
    assert_eq!(db.lookup(0xabcd, 0x0001), (Some("Second"), None));
}

#[test]
fn device_lines_and_count() {
    let mut db = PciDb::new();
    db.parse(IDS);
    let devices = vec![
        dev("0000:00:02.0", "0x8086\n", "0x1234\n", "0x030000\n"),
        dev("0000:01:00.0", "0x8086", "0x4321", "0x020000"),
        dev("0001:02:00.0", "0x1af4", "0x1000", "0x990000"),
    ];
    let lines = collect(&devices, &db);
    assert_eq!(
        lines,
        vec![
            "pci.0.slot=00:02.0",
            "pci.0.description=VGA compatible controller: Intel Corporation Some Controller",
            "pci.1.slot=01:00.0",
            "pci.1.description=Ethernet controller: Intel Corporation [8086:4321]",
            "pci.2.slot=0001:02:00.0",
            "pci.2.description=Class 99 [1af4:1000]",
            "pci.count=3",
        ]
    );
}

#[test]
fn empty_device_list_counts_zero() {
    let db = PciDb::new();
    assert_eq!(collect(&Vec::new(), &db), vec!["pci.count=0"]);
}

#[test]
fn database_keeps_vendors_a_later_text_does_not_declare() {
    let mut db = PciDb::new();
    db.parse("abcd  First\n\t0001  Dev\n");
    db.parse("# another file\n1234  Second\n\t0002  Other\n");
    assert_eq!(db.lookup(0xabcd, 0x0001), (Some("First"), Some("Dev")));
    assert_eq!(db.lookup(0x1234, 0x0002), (Some("Second"), Some("Other")));
    assert_eq!(db.lookup(0xabcd, 0x0002), (Some("First"), None));
}

#[test]
fn hex_ids_read_back_their_0x_forms() {
    for v in [0u16, 1, 0x00ff, 0x8086, 0x10de, 0xffff] {
        assert_eq!(hex_u16(&format!("0x{:04x}", v)), v);
        assert_eq!(hex_u16(&format!("0x{:x}", v)), v);
    }
    for v in [0u32, 0x0c0330, 0x030000, 0xffff_ffff] {
        assert_eq!(hex_u32(&format!("0x{:x}", v)), v);
        assert_eq!(hex_u32(&format!("0x{:06x}", v)), v);
    }
}
