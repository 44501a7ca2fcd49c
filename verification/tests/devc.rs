use std::str::FromStr;

use fds_tbx::formats::devc::{
    DevcError, DeviceIdx, DeviceList, Devices, DevicesParsingError, JoinError, ParsingError,
};

fn seconds_per_unit(unit: String) -> Option<u32> {
    let text = format!("1 {}", unit);
    uom::si::f32::Time::from_str(&text).ok().map(|t| t.value.to_bits())
}

fn times_in_seconds(l: &DeviceList) -> Vec<f32> {
    let fac = f32::from_bits(l.time_unit_seconds);
    l.times.iter().map(|t| fac * t.parse::<f32>().unwrap()).collect()
}

fn read(text: &str) -> Result<DeviceList, ParsingError> {
    DeviceList::from_reader(text.as_bytes(), seconds_per_unit)
}

fn same_times(a: &DeviceList, b: &DeviceList) -> bool {
    times_in_seconds(a) == times_in_seconds(b)
}

#[test]
fn devc_basic_parsing() {
    let devices = read(
        r#"s, m3/s, C, 1/m
        Time,   Zuluft_1,   Abluft_1,   T_B01
        0.0E+0, 1.2E+3,     -2.3E-2,    4.1E-12
        "#,
    )
    .unwrap();

    assert_eq!(times_in_seconds(&devices), [0.0e0]);
    assert_eq!(devices.devices.len(), 3);

    assert_eq!(devices.get_device_by_name("Zuluft_1").unwrap().unit, "m3/s");
    assert_eq!(devices.get_device_by_name("Abluft_1").unwrap().unit, "C");
    assert_eq!(devices.get_device_by_name("T_B01").unwrap().unit, "1/m");

    assert_eq!(devices.devices[0].name, "Zuluft_1");
    assert_eq!(devices.devices[1].name, "Abluft_1");
    assert_eq!(devices.devices[2].name, "T_B01");

    let value = |name: &str| devices.get_device_by_name(name).unwrap().values[0].parse::<f32>().unwrap();
    assert_eq!(value("Zuluft_1"), 1.2e3);
    assert_eq!(value("Abluft_1"), -2.3e-2);
    assert_eq!(value("T_B01"), 4.1e-12);
}

#[test]
fn devc_time_unit() {
    let devices = read(
        r#"h
        Time
        1"#,
    )
    .unwrap();
    assert_eq!(times_in_seconds(&devices)[0], 3600.0);
}

#[test]
#[should_panic]
fn devc_time_unit_error() {
    read(
        r#"one of the time-units of all time
        Time
        1"#,
    )
    .unwrap();
}

#[test]
#[should_panic]
fn devc_missing_names() {
    read(r#"s"#).unwrap();
}

#[test]
#[should_panic]
fn devc_invalid_number() {
    read(
        r#"s
        Time
        a 'number'"#,
    )
    .unwrap();
}

#[test]
fn devc_errors_by_kind() {
    assert!(matches!(read(""), Err(ParsingError::MissingUnitsLine)));
    assert!(matches!(read("s"), Err(ParsingError::MissingNamesLine)));
    assert!(matches!(
        read("s, C\nTime"),
        Err(ParsingError::InvalidUnitsAndNamesCount { units_len: 2, names_len: 1 })
    ));
    match read("parsec\nTime\n1") {
        Err(ParsingError::InvalidTimeUnit(u)) => assert_eq!(u, "parsec"),
        r => panic!("unexpected {:?}", r),
    }
    assert!(matches!(read("s, C\nTime, T\n1, 2, 3"), Err(ParsingError::WrongValueCount(2, 2, 1))));
    assert!(matches!(read("s, C\nTime, T\n1, x"), Err(ParsingError::ParsingError(2, 1))));
    assert!(matches!(read("s, C\nTime, T\nx, 1"), Err(ParsingError::ParsingError(2, 0))));
}

#[test]
fn devc_rows_without_values_keep_the_time() {
    let l = read("s, C\nTime, T\n1\n2, 5").unwrap();
    assert_eq!(l.times, vec!["1".to_string(), "2".to_string()]);
    assert_eq!(l.devices[0].values, vec!["5".to_string()]);
}

#[test]
fn devc_lookups() {
    let l = read("s, C, K\nTime, A, B\n1, 2, 3").unwrap();
    assert_eq!(l.get_device_by_idx(DeviceIdx(1)).unwrap().name, "B");
    assert!(l.get_device_by_idx(DeviceIdx(2)).is_none());
    assert!(l.get_device_by_name("C").is_none());
    assert_eq!(l.iter_idx(), vec![DeviceIdx(0), DeviceIdx(1)]);
    let e = l.enumerate_device_readings();
    assert_eq!(e.len(), 2);
    assert_eq!(e[1].0, DeviceIdx(1));
    assert_eq!(e[1].1.unit, "K");
}

#[test]
fn devc_merge() {
    let a = read("s, C\nTime, A\n1, 2\n2, 3").unwrap();
    let b = read("s, K\nTime, B\n1.0, 4\n2, 5").unwrap();
    let m = DeviceList::merge(vec![a, b], same_times).unwrap();
    assert_eq!(m.devices.len(), 2);
    assert_eq!(m.devices[1].name, "B");
    let c = read("s, C\nTime, A\n1, 2").unwrap();
    let d = read("s, C\nTime, A\n7, 2").unwrap();
    assert!(matches!(DeviceList::merge(vec![c, d], same_times), Err(JoinError::TimeMismatch(1))));
    assert!(matches!(DeviceList::merge(vec![], same_times), Err(JoinError::EmptyVec)));
}

#[test]
fn devc_from_readers() {
    let files = vec![b"s, C\nTime, A\n1, 2".to_vec(), b"min, C\nTime, B\n1, 2".to_vec()];
    assert!(matches!(
        DeviceList::from_readers(&files, seconds_per_unit, same_times),
        Err(DevcError::JoinError(JoinError::TimeMismatch(1)))
    ));
    let files = vec![b"s, C\nTime, A\n60, 2".to_vec(), b"min, C\nTime, B\n1, 2".to_vec()];
    let l = DeviceList::from_readers(&files, seconds_per_unit, same_times).unwrap();
    assert_eq!(l.devices.len(), 2);
    let files = vec![b"s".to_vec()];
    assert!(matches!(
        DeviceList::from_readers(&files, seconds_per_unit, same_times),
        Err(DevcError::ParsingError(ParsingError::MissingNamesLine))
    ));
}

fn read_devices(text: &str) -> Result<Devices, DevicesParsingError> {
    Devices::from_reader(text.as_bytes(), seconds_per_unit)
}

fn device_times(d: &Devices) -> Vec<f32> {
    let fac = f32::from_bits(d.time_unit_seconds);
    d.times.iter().map(|t| fac * t.parse::<f32>().unwrap()).collect()
}

#[test]
fn devices_basic_parsing() {
    let devices = read_devices(
        r#"s, m3/s, C, 1/m
        Time,   Zuluft_1,   Abluft_1,   T_B01
        0.0E+0, 1.2E+3,     -2.3E-2,    4.1E-12
        "#,
    )
    .unwrap();

    assert_eq!(device_times(&devices), [0.0e0]);
    assert_eq!(devices.devices.len(), 3);

    assert_eq!(devices.devices[0].unit, "m3/s");
    assert_eq!(devices.devices[1].unit, "C");
    assert_eq!(devices.devices[2].unit, "1/m");

    assert_eq!(devices.devices[0].name, "Zuluft_1");
    assert_eq!(devices.devices[1].name, "Abluft_1");
    assert_eq!(devices.devices[2].name, "T_B01");

    assert_eq!(devices.devices[0].values[0].parse::<f32>().unwrap(), 1.2e3);
    assert_eq!(devices.devices[1].values[0].parse::<f32>().unwrap(), -2.3e-2);
    assert_eq!(devices.devices[2].values[0].parse::<f32>().unwrap(), 4.1e-12);
}

#[test]
fn devices_time_unit() {
    let devices = read_devices(
        r#"h
        Time
        1"#,
    )
    .unwrap();
    assert_eq!(device_times(&devices)[0] / 3600.0, 1.0);
}

#[test]
fn devices_errors() {
    match read_devices(
        r#"one of the time-units of all time
        Time
        1"#,
    ) {
        Err(DevicesParsingError::InvalidTimeUnit(u)) => assert_eq!(u, "one of the time-units of all time"),
        r => panic!("unexpected {:?}", r.map(|d| d.times)),
    }
    assert!(matches!(read_devices(r#"s"#), Err(DevicesParsingError::MissingNamesLine)));
    assert!(matches!(
        read_devices(
            r#"s
        Time
        a 'number'"#,
        ),
        Err(DevicesParsingError::ParsingError(2, 0))
    ));
}

#[test]
fn devc_from_records() {
    let rec = |fields: &[&str]| -> Result<Vec<String>, csv::Error> {
        Ok(fields.iter().map(|f| f.to_string()).collect())
    };
    let l = DeviceList::from_records(
        vec![rec(&["s", "C"]), rec(&["Time", "T_1"]), rec(&["0.5", "20.1"]), rec(&["1.5", "21.0"])],
        seconds_per_unit,
    )
    .unwrap();
    assert_eq!(l.times, ["0.5", "1.5"]);
    assert_eq!(l.devices.len(), 1);
    assert_eq!(l.devices[0].name, "T_1");
    assert_eq!(l.devices[0].unit, "C");
    assert_eq!(l.devices[0].values, ["20.1", "21.0"]);
    assert!(matches!(
        DeviceList::from_records(vec![rec(&["s"]), rec(&["Time"]), rec(&["1", "2"])], seconds_per_unit),
        Err(ParsingError::WrongValueCount(2, 1, 0))
    ));
}
