use epifaneia::geometry::Entry;
use epifaneia::geometry::GeometryTree;
use epifaneia::geometry::Point;
use epifaneia::geometry::Record;
use epifaneia::geometry::encode;

fn num(v: f32) -> Entry {
    Entry::Num(v.to_bits())
}

fn point(vs: &[f32]) -> Point {
    Point::Values(vs.iter().map(|v| num(*v)).collect())
}

fn record(ps: Vec<Point>) -> Record {
    Record::Points(ps)
}

fn read_f32(bytes: &[u8], offset: usize) -> f32 {
    f32::from_le_bytes([bytes[offset], bytes[offset + 1], bytes[offset + 2], bytes[offset + 3]])
}

#[test]
fn non_array_input_yields_64_zero_bytes() {
    let out = encode(&GeometryTree::Other);
    assert_eq!(out, vec![0u8; 64]);
}

#[test]
fn empty_array_yields_64_zero_bytes() {
    let out = encode(&GeometryTree::Records(Vec::new()));
    assert_eq!(out, vec![0u8; 64]);
}

#[test]
fn records_without_numbers_yield_64_zero_bytes() {
    let tree = GeometryTree::Records(vec![
        Record::Other,
        record(vec![Point::Other, Point::Values(Vec::new())]),
        record(Vec::new()),
    ]);
    let out = encode(&tree);
    assert_eq!(out, vec![0u8; 64]);
}

#[test]
fn even_record_needs_no_padding() {
    let tree = GeometryTree::Records(vec![record(vec![point(&[1.0, 2.0])])]);
    let out = encode(&tree);
    assert_eq!(out.len(), 8);
    assert_eq!(&out[0..4], &1.0f32.to_le_bytes());
    assert_eq!(&out[4..8], &2.0f32.to_le_bytes());
}

#[test]
fn odd_record_is_padded_to_8_bytes() {
    let tree = GeometryTree::Records(vec![record(vec![point(&[1.0, 2.0, 3.0])])]);
    let out = encode(&tree);
    assert_eq!(out.len(), 16);
    assert_eq!(read_f32(&out, 0), 1.0);
    assert_eq!(read_f32(&out, 4), 2.0);
    assert_eq!(read_f32(&out, 8), 3.0);
    assert_eq!(&out[12..16], &[0u8; 4]);
}

#[test]
fn length_is_always_a_multiple_of_8() {
    let trees = [
        GeometryTree::Other,
        GeometryTree::Records(Vec::new()),
        GeometryTree::Records(vec![record(vec![point(&[5.5])])]),
        GeometryTree::Records(vec![record(vec![point(&[1.0, 2.0, 3.0, 4.0, 5.0])])]),
        GeometryTree::Records(vec![
            record(vec![point(&[1.0]), point(&[2.0, 3.0])]),
            record(vec![point(&[4.0])]),
        ]),
    ];
    for tree in trees.iter() {
        assert_eq!(encode(tree).len() % 8, 0);
    }
}

#[test]
fn round_trip_recovers_leaves_at_record_offsets() {
    // Two records: the first holds three leaves (region of 16 bytes), the
    // second holds two (region of 8 bytes).
    let tree = GeometryTree::Records(vec![
        record(vec![point(&[0.5, -1.25]), point(&[3.75])]),
        record(vec![point(&[42.0, -0.125])]),
    ]);
    let out = encode(&tree);
    assert_eq!(out.len(), 24);
    assert_eq!(read_f32(&out, 0), 0.5);
    assert_eq!(read_f32(&out, 4), -1.25);
    assert_eq!(read_f32(&out, 8), 3.75);
    // padding closes the first record's region at byte 16
    assert_eq!(&out[12..16], &[0u8; 4]);
    assert_eq!(read_f32(&out, 16), 42.0);
    assert_eq!(read_f32(&out, 20), -0.125);
}

#[test]
fn non_numeric_entries_and_non_array_members_are_skipped() {
    let tree = GeometryTree::Records(vec![
        record(vec![
            Point::Values(vec![num(7.0), Entry::Other, num(8.0)]),
            Point::Other,
        ]),
        Record::Other,
        record(vec![point(&[9.0])]),
    ]);
    let out = encode(&tree);
    // first record: two leaves, region of 8 bytes; the non-array record
    // contributes nothing; last record: one leaf padded to 8 bytes.
    assert_eq!(out.len(), 16);
    assert_eq!(read_f32(&out, 0), 7.0);
    assert_eq!(read_f32(&out, 4), 8.0);
    assert_eq!(read_f32(&out, 8), 9.0);
    assert_eq!(&out[12..16], &[0u8; 4]);
}
