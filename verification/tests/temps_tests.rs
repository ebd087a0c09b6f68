use syslens_collect::report::Listing;
use syslens_collect::temps::{collect, input_stem, millideg_to_celsius, HwmonDevice, SensorInput, Zone};

fn input(name: &str, value: &str, label: Option<&str>) -> SensorInput {
    SensorInput { file_name: name.to_string(), value: value.to_string(), label: label.map(String::from) }
}

#[test]
fn celsius_from_millidegrees() {
    assert_eq!(millideg_to_celsius(45500), "45.5");
    assert_eq!(millideg_to_celsius(45599), "45.5");
    assert_eq!(millideg_to_celsius(1000), "1.0");
    assert_eq!(millideg_to_celsius(999), "0.9");
    assert_eq!(millideg_to_celsius(0), "0.0");
    assert_eq!(millideg_to_celsius(-1500), "-1.5");
    assert_eq!(millideg_to_celsius(-500), "0.5");
}

#[test]
fn stems() {
    assert_eq!(input_stem("temp1_input"), "temp1");
    assert_eq!(input_stem("temp1"), "temp1");
}

#[test]
fn temperature_report() {
    let zones = Listing::Entries(vec![
        Zone { temp: "42000\n".to_string(), kind: "x86_pkg_temp\n".to_string() },
        Zone { temp: "0\n".to_string(), kind: "acpitz\n".to_string() },
        Zone { temp: "bad".to_string(), kind: "foo".to_string() },
        Zone { temp: "37500".to_string(), kind: "acpitz".to_string() },
    ]);
    let hwmons = Listing::Entries(vec![HwmonDevice {
        name: "hwmon0".to_string(),
        inputs: Ok(vec![
            input("temp1_input", "51250\n", Some("Package id 0\n")),
            input("temp2_input", "-5\n", Some("neg")),
            input("temp3_input", "40000", Some("  ")),
            input("temp4_input", "30000", None),
        ]),
    }]);
    let r = collect(&zones, &hwmons);
    assert_eq!(
        r.lines,
        vec![
            "temp.0.name=x86_pkg_temp",
            "temp.0.celsius=42.0",
            "temp.1.name=acpitz",
            "temp.1.celsius=37.5",
            "temp.hwmon.hwmon0.temp1.celsius=51.2",
            "temp.hwmon.hwmon0.temp1.label=Package id 0",
            "temp.hwmon.hwmon0.temp3.celsius=40.0",
            "temp.hwmon.hwmon0.temp4.celsius=30.0",
            "temp.count=2",
        ]
    );
    assert_eq!(r.error, None);
}

#[test]
fn temperature_report_errors() {
    let r = collect(&Listing::Failed("cannot read zones".to_string()), &Listing::Missing);
    assert!(r.lines.is_empty());
    assert_eq!(r.error, Some("cannot read zones".to_string()));

    let zones = Listing::Entries(vec![Zone { temp: "1000".to_string(), kind: "z".to_string() }]);
    let hwmons = Listing::Entries(vec![
        HwmonDevice { name: "hwmon0".to_string(), inputs: Ok(vec![input("temp1_input", "2000", None)]) },
        HwmonDevice { name: "hwmon1".to_string(), inputs: Err("cannot read hwmon1".to_string()) },
        HwmonDevice { name: "hwmon2".to_string(), inputs: Ok(vec![input("temp1_input", "3000", None)]) },
    ]);
    let r = collect(&zones, &hwmons);
    assert_eq!(
        r.lines,
        vec!["temp.0.name=z", "temp.0.celsius=1.0", "temp.hwmon.hwmon0.temp1.celsius=2.0"]
    );
    assert_eq!(r.error, Some("cannot read hwmon1".to_string()));

    let r = collect(&Listing::Missing, &Listing::Failed("cannot read hwmon".to_string()));
    assert!(r.lines.is_empty());
    assert_eq!(r.error, Some("cannot read hwmon".to_string()));
}

#[test]
fn temperature_report_without_sensors() {
    let r = collect(&Listing::Missing, &Listing::Missing);
    assert_eq!(r.lines, vec!["temp.count=0"]);
    assert_eq!(r.error, None);
}
