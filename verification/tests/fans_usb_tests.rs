use syslens_collect::fans::{collect, count_inputs};
use syslens_collect::report::Listing;
use syslens_collect::temps::{HwmonDevice, SensorInput};
use syslens_collect::usb::{collect as usb_collect, UsbDevice};

fn input(name: &str, value: &str, label: Option<&str>) -> SensorInput {
    SensorInput { file_name: name.to_string(), value: value.to_string(), label: label.map(String::from) }
}

#[test]
fn fan_report() {
    let hwmons = Listing::Entries(vec![
        HwmonDevice {
            name: "hwmon2".to_string(),
            inputs: Ok(vec![input("fan1_input", "1200\n", Some("CPU Fan\n")), input("fan2_input", "0", None)]),
        },
        HwmonDevice { name: "hwmon3".to_string(), inputs: Ok(vec![input("fan1_input", "800", Some(""))]) },
    ]);
    let r = collect(&hwmons);
    assert_eq!(
        r.lines,
        vec![
            "fan.hwmon.hwmon2.fan1.rpm=1200",
            "fan.0.name=CPU Fan",
            "fan.0.rpm=1200",
            "fan.hwmon.hwmon3.fan1.rpm=800",
            "fan.1.name=Fan 2",
            "fan.1.rpm=800",
            "fan.count=2",
        ]
    );
    assert_eq!(r.error, None);
}

#[test]
fn fan_report_edges() {
    let r = collect(&Listing::Missing);
    assert_eq!(r.lines, vec!["fan.count=0"]);
    let r = collect(&Listing::Failed("cannot read hwmon".to_string()));
    assert!(r.lines.is_empty());
    assert_eq!(r.error, Some("cannot read hwmon".to_string()));
    let hwmons = vec![
        HwmonDevice { name: "a".to_string(), inputs: Ok(vec![input("fan1_input", "5", None)]) },
        HwmonDevice { name: "b".to_string(), inputs: Err("cannot read b".to_string()) },
    ];
    assert_eq!(count_inputs(&hwmons), 1);
    let r = collect(&Listing::Entries(hwmons));
    assert_eq!(r.lines, vec!["fan.hwmon.a.fan1.rpm=5", "fan.0.name=Fan 1", "fan.0.rpm=5"]);
    assert_eq!(r.error, Some("cannot read b".to_string()));
}

fn usb(m: &str, p: &str) -> UsbDevice {
    UsbDevice {
        busnum: "1\n".to_string(),
        devnum: "3\n".to_string(),
        id_vendor: "046d\n".to_string(),
        id_product: "c52b\n".to_string(),
        product: p.to_string(),
        manufacturer: m.to_string(),
    }
}

#[test]
fn usb_report() {
    let devices = vec![usb("Logitech\n", "USB Receiver\n"), usb("", "Hub"), usb("Acme", ""), usb("", "")];
    let lines = usb_collect(&devices);
    assert_eq!(lines.len(), 17);
    assert_eq!(lines[0], "usb.0.bus=1");
    assert_eq!(lines[1], "usb.0.device=3");
    assert_eq!(lines[2], "usb.0.id=046d:c52b");
    assert_eq!(lines[3], "usb.0.description=Logitech USB Receiver");
    assert_eq!(lines[7], "usb.1.description=Hub");
    assert_eq!(lines[11], "usb.2.description=Acme");
    assert_eq!(lines[15], "usb.3.description=046d:c52b");
    assert_eq!(lines[16], "usb.count=4");
}
