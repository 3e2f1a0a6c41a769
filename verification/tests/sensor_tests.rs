use gobridge::intern::InternTable;
use gobridge::sensorkey::{format_sensor_key, temperature_key};

#[test]
fn key_without_label_is_the_unit() {
    assert_eq!(format_sensor_key("coretemp", None), b"coretemp".to_vec());
}

#[test]
fn key_with_label_joins_and_lowercases() {
    assert_eq!(
        format_sensor_key("coretemp", Some("Core 0")),
        b"coretemp_core_0".to_vec()
    );
}

#[test]
fn key_label_spaces_become_underscores() {
    assert_eq!(
        format_sensor_key("acpitz", Some("CPU Package Temp")),
        b"acpitz_cpu_package_temp".to_vec()
    );
}

#[test]
fn key_label_already_lowercase_kept() {
    assert_eq!(
        format_sensor_key("nvme", Some("composite")),
        b"nvme_composite".to_vec()
    );
}

#[test]
fn equal_sensors_share_one_key_entry() {
    let mut t = InternTable::new();
    let v1 = temperature_key(&mut t, "coretemp", Some("Core 0"));
    let v2 = temperature_key(&mut t, "coretemp", Some("Core 0"));
    assert_eq!(v1, v2);
    assert_eq!(t.entry_count(), 1);
    assert_eq!(t.resolve(v1.id).as_slice(), b"coretemp_core_0");
}

#[test]
fn different_labels_get_distinct_keys() {
    let mut t = InternTable::new();
    let v1 = temperature_key(&mut t, "coretemp", Some("Core 0"));
    let v2 = temperature_key(&mut t, "coretemp", Some("Core 1"));
    assert_ne!(v1.id, v2.id);
    assert_eq!(t.entry_count(), 2);
}
