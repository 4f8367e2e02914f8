// Decoding tests: the fixed header layout, the sensor catalog, padding
// rules, and malformed buffers.

use hwinfo_steelseries_oled::error::HwinfoError;
use hwinfo_steelseries_oled::header::decode_header;
use hwinfo_steelseries_oled::snapshot::Hwinfo;

const HEADER_BYTES: usize = 44;
const SENSOR_ELEMENT_BYTES: usize = 392;
const READING_ELEMENT_BYTES: usize = 460;

fn push_u32(buf: &mut Vec<u8>, v: u32) {
    buf.extend_from_slice(&v.to_le_bytes());
}

fn push_i64(buf: &mut Vec<u8>, v: i64) {
    buf.extend_from_slice(&v.to_le_bytes());
}

fn push_f64(buf: &mut Vec<u8>, v: f64) {
    buf.extend_from_slice(&v.to_le_bytes());
}

fn push_padded(buf: &mut Vec<u8>, text: &[u8], width: usize) {
    assert!(text.len() <= width);
    buf.extend_from_slice(text);
    buf.extend_from_slice(&vec![0u8; width - text.len()]);
}

fn header(n_sensors: u32, n_readings: u32) -> Vec<u8> {
    let mut buf = Vec::new();
    push_u32(&mut buf, 0x53695748); // signature, opaque
    push_u32(&mut buf, 2); // version
    push_u32(&mut buf, 1); // revision
    push_i64(&mut buf, 1_700_000_000); // poll time
    push_u32(&mut buf, HEADER_BYTES as u32);
    push_u32(&mut buf, SENSOR_ELEMENT_BYTES as u32);
    push_u32(&mut buf, n_sensors);
    push_u32(&mut buf, HEADER_BYTES as u32 + n_sensors * SENSOR_ELEMENT_BYTES as u32);
    push_u32(&mut buf, READING_ELEMENT_BYTES as u32);
    push_u32(&mut buf, n_readings);
    buf
}

fn sensor_element(id: u32, inst: u32, name_orig: &[u8], name_user: &[u8]) -> Vec<u8> {
    let mut buf = Vec::new();
    push_u32(&mut buf, id);
    push_u32(&mut buf, inst);
    push_padded(&mut buf, name_orig, 128);
    push_padded(&mut buf, name_user, 128); // native-encoded user name; not read
    push_padded(&mut buf, name_user, 128); // UTF-8 user name; the catalog key
    assert_eq!(buf.len(), SENSOR_ELEMENT_BYTES);
    buf
}

fn reading_element(
    tag: u32,
    sensor_index: u32,
    reading_id: u32,
    label_user: &[u8],
    unit: &[u8],
    values: [f64; 4],
) -> Vec<u8> {
    let mut buf = Vec::new();
    push_u32(&mut buf, tag);
    push_u32(&mut buf, sensor_index);
    push_u32(&mut buf, reading_id);
    push_padded(&mut buf, label_user, 128); // native-encoded original label
    push_padded(&mut buf, label_user, 128); // native-encoded user label; not read
    push_padded(&mut buf, unit, 16); // native-encoded unit; not read
    for v in values {
        push_f64(&mut buf, v);
    }
    push_padded(&mut buf, label_user, 128); // UTF-8 user label; the reading key
    push_padded(&mut buf, unit, 16); // UTF-8 unit
    assert_eq!(buf.len(), READING_ELEMENT_BYTES);
    buf
}

fn build(sensors: &[Vec<u8>], readings: &[Vec<u8>]) -> Vec<u8> {
    let mut buf = header(sensors.len() as u32, readings.len() as u32);
    for s in sensors {
        buf.extend_from_slice(s);
    }
    for r in readings {
        buf.extend_from_slice(r);
    }
    buf
}

#[test]
fn header_fields_decode_exactly() {
    let buf = header(3, 7);
    let h = decode_header(&buf).unwrap();
    assert_eq!(h.dw_signature, 0x53695748);
    assert_eq!(h.dw_version, 2);
    assert_eq!(h.dw_revision, 1);
    assert_eq!(h.poll_time, 1_700_000_000);
    assert_eq!(h.dw_offset_of_sensor_section, 44);
    assert_eq!(h.dw_size_of_sensor_element, 392);
    assert_eq!(h.dw_num_sensor_elements, 3);
    assert_eq!(h.dw_offset_of_reading_section, 44 + 3 * 392);
    assert_eq!(h.dw_size_of_reading_element, 460);
    assert_eq!(h.dw_num_reading_elements, 7);
}

#[test]
fn header_too_short_is_decode_error() {
    let buf = vec![0u8; HEADER_BYTES - 1];
    assert_eq!(decode_header(&buf).unwrap_err(), HwinfoError::DecodeError);
    assert_eq!(Hwinfo::new(&buf).unwrap_err(), HwinfoError::DecodeError);
}

#[test]
fn empty_buffer_is_decode_error() {
    assert_eq!(Hwinfo::new(&[]).unwrap_err(), HwinfoError::DecodeError);
}

#[test]
fn catalog_has_one_entry_per_sensor() {
    let sensors = [
        sensor_element(10, 0, b"cpu0", b"CPU [#0]: AMD Ryzen"),
        sensor_element(11, 1, b"gpu0", b"GPU [#0]: NVIDIA"),
    ];
    let buf = build(&sensors, &[]);
    let hw = Hwinfo::new(&buf).unwrap();
    assert_eq!(hw.master_sensor_names.len(), 2);
    assert_eq!(hw.master_sensor_names[0], "CPU [#0]: AMD Ryzen");
    assert_eq!(hw.master_sensor_names[1], "GPU [#0]: NVIDIA");
    assert_eq!(hw.master_readings.sensors.len(), 2);
    assert_eq!(hw.master_readings.sensors[0].sensor.dw_sensor_id, 10);
    assert_eq!(hw.master_readings.sensors[0].sensor.name_orig, b"cpu0");
    assert!(hw.master_readings.sensors[0].reading.is_empty());
    assert!(hw.master_readings.sensors[1].reading.is_empty());
}

#[test]
fn name_field_trims_trailing_nuls_only() {
    // "CPU" padded with NULs to 128 bytes decodes to exactly "CPU":
    // no trailing NUL, no trailing whitespace.
    let sensors = [sensor_element(1, 0, b"orig", b"CPU")];
    let buf = build(&sensors, &[]);
    let hw = Hwinfo::new(&buf).unwrap();
    assert_eq!(hw.master_sensor_names[0], "CPU");
    assert_eq!(hw.master_sensor_names[0].len(), 3);

    // An embedded NUL is data, not padding: only the tail is stripped.
    let sensors = [sensor_element(1, 0, b"orig", b"A\0B")];
    let buf = build(&sensors, &[]);
    let hw = Hwinfo::new(&buf).unwrap();
    assert_eq!(hw.master_sensor_names[0], "A\0B");
}

#[test]
fn invalid_utf8_name_is_decode_error() {
    let sensors = [sensor_element(1, 0, b"orig", b"CPU \xb0bad")];
    let buf = build(&sensors, &[]);
    assert_eq!(Hwinfo::new(&buf).unwrap_err(), HwinfoError::DecodeError);
}

#[test]
fn sensor_section_past_buffer_end_is_decode_error() {
    // The header promises two sensors but the buffer holds only one.
    let mut buf = header(2, 0);
    buf.extend_from_slice(&sensor_element(1, 0, b"o", b"CPU"));
    assert_eq!(Hwinfo::new(&buf).unwrap_err(), HwinfoError::DecodeError);
}

#[test]
fn undersized_sensor_element_is_decode_error() {
    let mut buf = header(1, 0);
    // Shrink the declared element size below the fixed record layout.
    buf[24..28].copy_from_slice(&100u32.to_le_bytes());
    buf.extend_from_slice(&vec![0u8; 400]);
    assert_eq!(Hwinfo::new(&buf).unwrap_err(), HwinfoError::DecodeError);
}

#[test]
fn duplicate_sensor_names_collapse_to_one_entry() {
    let sensors = [
        sensor_element(1, 0, b"a", b"CPU"),
        sensor_element(2, 1, b"b", b"CPU"),
    ];
    let buf = build(&sensors, &[]);
    let hw = Hwinfo::new(&buf).unwrap();
    // Both build-order positions keep the name, but the catalog holds one
    // entry, overwritten by the later element.
    assert_eq!(hw.master_sensor_names.len(), 2);
    assert_eq!(hw.master_readings.sensors.len(), 1);
    assert_eq!(hw.master_readings.sensors[0].sensor.dw_sensor_id, 2);
}

#[test]
fn reading_decodes_with_values_and_unit() {
    let sensors = [sensor_element(1, 0, b"o", b"CPU")];
    let readings = [reading_element(
        1,
        0,
        77,
        b"CPU (Tctl/Tdie)",
        b"\xc2\xb0C",
        [42.5, 30.25, 95.0, 51.125],
    )];
    let buf = build(&sensors, &readings);
    let mut hw = Hwinfo::new(&buf).unwrap();
    hw.pull(&buf).unwrap();
    let rec = hw.get("CPU", "CPU (Tctl/Tdie)").unwrap();
    assert_eq!(rec.dw_reading_id, 77);
    assert_eq!(rec.unit, "°C");
    assert_eq!(f64::from_bits(rec.value_bits), 42.5);
    assert_eq!(f64::from_bits(rec.value_min_bits), 30.25);
    assert_eq!(f64::from_bits(rec.value_max_bits), 95.0);
    assert_eq!(f64::from_bits(rec.value_avg_bits), 51.125);
}

#[test]
fn unknown_reading_type_tag_is_decode_error() {
    let sensors = [sensor_element(1, 0, b"o", b"CPU")];
    let readings = [reading_element(9, 0, 1, b"L", b"u", [0.0; 4])];
    let buf = build(&sensors, &readings);
    let mut hw = Hwinfo::new(&buf).unwrap();
    assert_eq!(hw.pull(&buf).unwrap_err(), HwinfoError::DecodeError);
}

#[test]
fn reading_section_past_buffer_end_is_decode_error() {
    let sensors = [sensor_element(1, 0, b"o", b"CPU")];
    let mut buf = build(&sensors, &[]);
    // The header promises one reading element that is not there.
    buf[40..44].copy_from_slice(&1u32.to_le_bytes());
    let mut hw = Hwinfo::new(&buf).unwrap();
    assert_eq!(hw.pull(&buf).unwrap_err(), HwinfoError::DecodeError);
}

#[test]
fn reading_attaches_by_declared_position_not_id() {
    // Two sensors; each reading names its owner by position in build
    // order, whatever its numeric reading id says.
    let sensors = [
        sensor_element(100, 0, b"o", b"CPU [#0]: AMD Ryzen"),
        sensor_element(200, 0, b"o", b"GPU [#0]: NVIDIA"),
    ];
    let readings = [
        reading_element(1, 0, 900, b"CPU (Tctl/Tdie)", b"C", [55.0, 0.0, 0.0, 0.0]),
        reading_element(7, 1, 901, b"GPU Core Load", b"%", [12.0, 0.0, 0.0, 0.0]),
        reading_element(1, 1, 902, b"GPU Temperature", b"C", [47.0, 0.0, 0.0, 0.0]),
    ];
    let buf = build(&sensors, &readings);
    let mut hw = Hwinfo::new(&buf).unwrap();
    hw.pull(&buf).unwrap();
    let cpu = &hw.master_readings.sensors[0];
    let gpu = &hw.master_readings.sensors[1];
    assert_eq!(cpu.reading.len(), 1);
    assert_eq!(cpu.reading[0].label_user, "CPU (Tctl/Tdie)");
    assert_eq!(gpu.reading.len(), 2);
    assert_eq!(gpu.reading[0].label_user, "GPU Core Load");
    assert_eq!(gpu.reading[1].label_user, "GPU Temperature");
}

#[test]
fn reading_index_out_of_range_is_typed_error() {
    let sensors = [sensor_element(1, 0, b"o", b"CPU")];
    let readings = [reading_element(1, 1, 5, b"L", b"u", [0.0; 4])];
    let buf = build(&sensors, &readings);
    let mut hw = Hwinfo::new(&buf).unwrap();
    assert_eq!(hw.pull(&buf).unwrap_err(), HwinfoError::IndexOutOfRange);
}

#[test]
fn failed_pull_keeps_the_previous_snapshot() {
    let sensors = [sensor_element(1, 0, b"o", b"CPU")];
    let good = build(
        &sensors,
        &[reading_element(1, 0, 5, b"Load", b"%", [10.0, 1.0, 99.0, 50.0])],
    );
    let mut hw = Hwinfo::new(&good).unwrap();
    hw.pull(&good).unwrap();
    let before = hw.clone();
    // Second record of the bad poll is out of range; even the valid first
    // record must not be applied.
    let bad = build(
        &sensors,
        &[
            reading_element(1, 0, 5, b"Load", b"%", [70.0, 1.0, 99.0, 50.0]),
            reading_element(1, 9, 6, b"X", b"u", [0.0; 4]),
        ],
    );
    assert_eq!(hw.pull(&bad).unwrap_err(), HwinfoError::IndexOutOfRange);
    assert!(hw == before);
    assert_eq!(f64::from_bits(hw.get("CPU", "Load").unwrap().value_bits), 10.0);
}

#[test]
fn pull_twice_from_unchanged_buffer_is_deeply_equal() {
    let sensors = [
        sensor_element(1, 0, b"o", b"CPU"),
        sensor_element(2, 0, b"o", b"GPU"),
    ];
    let readings = [
        reading_element(1, 0, 1, b"CPU (Tctl/Tdie)", b"C", [55.5, 40.0, 90.0, 60.0]),
        reading_element(7, 1, 2, b"GPU Core Load", b"%", [12.5, 0.0, 100.0, 30.0]),
    ];
    let buf = build(&sensors, &readings);
    let mut hw = Hwinfo::new(&buf).unwrap();
    hw.pull(&buf).unwrap();
    let first = hw.clone();
    hw.pull(&buf).unwrap();
    assert!(hw == first);
}

#[test]
fn later_record_with_same_key_wins() {
    let sensors = [sensor_element(1, 0, b"o", b"CPU")];
    let readings = [
        reading_element(1, 0, 1, b"Core Clock", b"MHz", [1000.0, 0.0, 0.0, 0.0]),
        reading_element(1, 0, 2, b"Core Clock", b"MHz", [4200.0, 0.0, 0.0, 0.0]),
    ];
    let buf = build(&sensors, &readings);
    let mut hw = Hwinfo::new(&buf).unwrap();
    hw.pull(&buf).unwrap();
    let entry = &hw.master_readings.sensors[0];
    assert_eq!(entry.reading.len(), 1);
    let rec = hw.get("CPU", "Core Clock").unwrap();
    assert_eq!(rec.dw_reading_id, 2);
    assert_eq!(f64::from_bits(rec.value_bits), 4200.0);
}

#[test]
fn refreshed_reading_replaces_in_place() {
    let sensors = [sensor_element(1, 0, b"o", b"CPU")];
    let buf1 = build(
        &sensors,
        &[reading_element(1, 0, 1, b"Load", b"%", [10.0, 0.0, 0.0, 0.0])],
    );
    let buf2 = build(
        &sensors,
        &[reading_element(1, 0, 1, b"Load", b"%", [85.0, 0.0, 0.0, 0.0])],
    );
    let mut hw = Hwinfo::new(&buf1).unwrap();
    hw.pull(&buf1).unwrap();
    hw.pull(&buf2).unwrap();
    let entry = &hw.master_readings.sensors[0];
    assert_eq!(entry.reading.len(), 1);
    assert_eq!(f64::from_bits(entry.reading[0].value_bits), 85.0);
}

#[test]
fn get_is_exact_two_level_lookup() {
    let sensors = [
        sensor_element(1, 0, b"o", b"CPU [#0]: AMD Ryzen"),
        sensor_element(2, 0, b"o", b"GPU [#0]: NVIDIA GeForce"),
    ];
    let readings = [
        reading_element(1, 1, 7, b"GPU Temperature", b"C", [47.0, 30.0, 80.0, 50.0]),
        reading_element(1, 0, 8, b"CPU (Tctl/Tdie)", b"C", [55.0, 0.0, 0.0, 0.0]),
    ];
    let buf = build(&sensors, &readings);
    let mut hw = Hwinfo::new(&buf).unwrap();
    hw.pull(&buf).unwrap();
    let rec = hw.get("GPU [#0]: NVIDIA GeForce", "GPU Temperature").unwrap();
    assert_eq!(rec.dw_reading_id, 7);
    // No fuzzy matching: a substring of the sensor key finds nothing.
    assert!(hw.get("GPU [#0]", "GPU Temperature").is_none());
    assert!(hw.get("GPU [#0]: NVIDIA GeForce", "GPU Temp").is_none());
    assert!(hw.get("No Such Sensor", "GPU Temperature").is_none());
}

#[test]
fn find_collects_all_matches_and_find_first_one_of_them() {
    // Two sensors, each exposing a reading labeled "GPU Temperature".
    let sensors = [
        sensor_element(1, 0, b"o", b"GPU [#0]: NVIDIA"),
        sensor_element(2, 0, b"o", b"GPU [#1]: AMD"),
    ];
    let readings = [
        reading_element(1, 0, 1, b"GPU Temperature", b"C", [47.0, 0.0, 0.0, 0.0]),
        reading_element(1, 1, 2, b"GPU Temperature", b"C", [52.0, 0.0, 0.0, 0.0]),
    ];
    let buf = build(&sensors, &readings);
    let mut hw = Hwinfo::new(&buf).unwrap();
    hw.pull(&buf).unwrap();
    let all = hw.find("GPU Temperature").unwrap();
    assert_eq!(all.len(), 2);
    assert_eq!(all[0].dw_reading_id, 1);
    assert_eq!(all[1].dw_reading_id, 2);
    let first = hw.find_first("GPU Temperature").unwrap();
    assert!(first.dw_reading_id == 1 || first.dw_reading_id == 2);
    // The documented order is catalog build order, so it is the earlier one.
    assert_eq!(first.dw_reading_id, 1);
}

#[test]
fn find_matches_substrings_of_labels() {
    let sensors = [sensor_element(1, 0, b"o", b"CPU")];
    let readings = [
        reading_element(8, 0, 1, b"Total CPU Usage", b"%", [15.0, 0.0, 0.0, 0.0]),
        reading_element(8, 0, 2, b"Max CPU/Thread Usage", b"%", [80.0, 0.0, 0.0, 0.0]),
        reading_element(1, 0, 3, b"CPU (Tctl/Tdie)", b"C", [60.0, 0.0, 0.0, 0.0]),
    ];
    let buf = build(&sensors, &readings);
    let mut hw = Hwinfo::new(&buf).unwrap();
    hw.pull(&buf).unwrap();
    let usage = hw.find("Usage").unwrap();
    assert_eq!(usage.len(), 2);
    assert_eq!(hw.find_first("Usage").unwrap().dw_reading_id, 1);
    assert_eq!(hw.find("CPU").unwrap().len(), 3);
}

#[test]
fn find_on_no_match_is_lookup_not_found() {
    let sensors = [sensor_element(1, 0, b"o", b"CPU")];
    let readings = [reading_element(1, 0, 1, b"Load", b"%", [0.0; 4])];
    let buf = build(&sensors, &readings);
    let mut hw = Hwinfo::new(&buf).unwrap();
    hw.pull(&buf).unwrap();
    assert_eq!(hw.find("Voltage").unwrap_err(), HwinfoError::LookupNotFound);
    assert_eq!(
        hw.find_first("Voltage").unwrap_err(),
        HwinfoError::LookupNotFound
    );
}

#[test]
fn readings_for_duplicate_sensor_names_merge() {
    // Both build-order positions resolve to the same name, so their
    // readings land in the one surviving entry.
    let sensors = [
        sensor_element(1, 0, b"a", b"CPU"),
        sensor_element(2, 1, b"b", b"CPU"),
    ];
    let readings = [
        reading_element(1, 0, 1, b"Temp A", b"C", [1.0, 0.0, 0.0, 0.0]),
        reading_element(1, 1, 2, b"Temp B", b"C", [2.0, 0.0, 0.0, 0.0]),
    ];
    let buf = build(&sensors, &readings);
    let mut hw = Hwinfo::new(&buf).unwrap();
    hw.pull(&buf).unwrap();
    assert_eq!(hw.master_readings.sensors.len(), 1);
    let entry = &hw.master_readings.sensors[0];
    assert_eq!(entry.reading.len(), 2);
    assert!(hw.get("CPU", "Temp A").is_some());
    assert!(hw.get("CPU", "Temp B").is_some());
}
