//! The conversion algorithm: coordinate extraction from decoded
//! messages, and gap-based segmentation with the real great-circle
//! distances.

use drivetrain::convert::{
    extract_coordinate_from_record, extract_coordinates, segment_track,
    split_coordinates_on_gaps, FieldValue, FitField, FitMessage, TrackPoint,
};
use geo::{Distance, Haversine, Point};

const SEMI_PER_DEGREE: f64 = 2147483648.0 / 180.0;

fn track_point(lat_deg: f64, lon_deg: f64) -> TrackPoint {
    TrackPoint {
        lat_semicircles: (lat_deg * SEMI_PER_DEGREE) as i32,
        lon_semicircles: (lon_deg * SEMI_PER_DEGREE) as i32,
        altitude: None,
    }
}

fn degrees(semicircles: i32) -> f64 {
    semicircles as f64 * (180.0 / 2147483648.0)
}

/// The wide-gap flags of a coordinate list: whether each consecutive
/// pair is farther apart than 100 meters along the great circle.
fn wide_gaps(coords: &[TrackPoint]) -> Vec<bool> {
    coords
        .windows(2)
        .map(|w| {
            let a = Point::new(degrees(w[0].lon_semicircles), degrees(w[0].lat_semicircles));
            let b = Point::new(degrees(w[1].lon_semicircles), degrees(w[1].lat_semicircles));
            Haversine.distance(a, b) > 100.0
        })
        .collect()
}

fn record_message(fields: Vec<(&str, FieldValue)>) -> FitMessage {
    FitMessage {
        is_record: true,
        fields: fields
            .into_iter()
            .map(|(name, value)| FitField {
                name: String::from(name),
                value,
            })
            .collect(),
    }
}

#[test]
fn extracts_position_from_record() {
    let msg = record_message(vec![
        ("position_lat", FieldValue::SInt32(536870912)),
        ("position_long", FieldValue::SInt32(-268435456)),
        ("altitude", FieldValue::UInt16(3100)),
    ]);
    let p = extract_coordinate_from_record(&msg).unwrap();
    assert_eq!(p.lat_semicircles, 536870912);
    assert_eq!(p.lon_semicircles, -268435456);
    assert_eq!(p.altitude, Some(3100));
}

#[test]
fn missing_longitude_yields_no_position() {
    let msg = record_message(vec![("position_lat", FieldValue::SInt32(1))]);
    assert_eq!(extract_coordinate_from_record(&msg), None);
}

#[test]
fn wrong_value_variant_is_ignored() {
    let msg = record_message(vec![
        ("position_lat", FieldValue::UInt16(5)),
        ("position_long", FieldValue::SInt32(7)),
    ]);
    assert_eq!(extract_coordinate_from_record(&msg), None);
}

#[test]
fn later_field_occurrence_overrides_earlier() {
    let msg = record_message(vec![
        ("position_lat", FieldValue::SInt32(1)),
        ("position_long", FieldValue::SInt32(2)),
        ("position_lat", FieldValue::SInt32(3)),
    ]);
    let p = extract_coordinate_from_record(&msg).unwrap();
    assert_eq!(p.lat_semicircles, 3);
}

#[test]
fn non_record_messages_are_skipped() {
    let mut session = record_message(vec![
        ("position_lat", FieldValue::SInt32(1)),
        ("position_long", FieldValue::SInt32(2)),
    ]);
    session.is_record = false;
    let record = record_message(vec![
        ("position_lat", FieldValue::SInt32(3)),
        ("position_long", FieldValue::SInt32(4)),
    ]);
    let coords = extract_coordinates(&vec![session, record]);
    assert_eq!(coords.len(), 1);
    assert_eq!(coords[0].lat_semicircles, 3);
}

#[test]
fn one_wide_gap_makes_two_segments() {
    // Points roughly 11 m apart, then a jump of roughly 1.1 km.
    let coords = vec![
        track_point(47.0000, 8.0000),
        track_point(47.0001, 8.0000),
        track_point(47.0002, 8.0000),
        track_point(47.0102, 8.0000),
        track_point(47.0103, 8.0000),
    ];
    let wide = wide_gaps(&coords);
    assert_eq!(wide, vec![false, false, true, false]);
    let segs = segment_track(&coords, &wide).unwrap();
    assert_eq!(segs.len(), 2);
    assert_eq!(segs[0].len(), 3);
    assert_eq!(segs[1].len(), 2);
    assert_eq!(segs[0][0], coords[0]);
    assert_eq!(segs[1][0], coords[3]);
}

#[test]
fn no_wide_gap_makes_one_segment() {
    let coords = vec![
        track_point(47.0000, 8.0000),
        track_point(47.0001, 8.0000),
        track_point(47.0002, 8.0001),
    ];
    let wide = wide_gaps(&coords);
    assert_eq!(wide, vec![false, false]);
    let segs = segment_track(&coords, &wide).unwrap();
    assert_eq!(segs.len(), 1);
    assert_eq!(segs[0].len(), 3);
}

#[test]
fn fewer_than_two_coordinates_is_empty() {
    let one = vec![track_point(47.0, 8.0)];
    assert!(segment_track(&one, &wide_gaps(&one)).is_none());
    let none: Vec<TrackPoint> = Vec::new();
    assert!(segment_track(&none, &wide_gaps(&none)).is_none());
}

#[test]
fn all_segments_too_short_is_empty() {
    // Every consecutive pair is far apart: each point stands alone, and
    // single-point segments are dropped.
    let coords = vec![
        track_point(47.00, 8.00),
        track_point(47.01, 8.00),
        track_point(47.02, 8.00),
    ];
    let wide = wide_gaps(&coords);
    assert_eq!(wide, vec![true, true]);
    assert!(segment_track(&coords, &wide).is_none());
}

#[test]
fn short_leading_segment_is_dropped() {
    let coords = vec![
        track_point(47.0000, 8.0000),
        track_point(47.0100, 8.0000),
        track_point(47.0101, 8.0000),
    ];
    let wide = wide_gaps(&coords);
    assert_eq!(wide, vec![true, false]);
    let segs = split_coordinates_on_gaps(&coords, &wide);
    assert_eq!(segs.len(), 1);
    assert_eq!(segs[0].len(), 2);
    assert_eq!(segs[0][0], coords[1]);
}

/// Reduce decoded records to the library's message model, as the
/// surrounding service does before handing them over.
fn to_messages(records: Vec<fitparser::FitDataRecord>) -> Vec<FitMessage> {
    records
        .into_iter()
        .map(|record| FitMessage {
            is_record: record.kind() == fitparser::profile::MesgNum::Record,
            fields: record
                .into_vec()
                .into_iter()
                .map(|field| FitField {
                    name: field.name().to_string(),
                    value: match field.into_value() {
                        fitparser::Value::SInt32(v) => FieldValue::SInt32(v),
                        fitparser::Value::UInt16(v) => FieldValue::UInt16(v),
                        _ => FieldValue::Other,
                    },
                })
                .collect(),
        })
        .collect()
}

/// The CRC the recording format appends to its byte stream.
fn fit_crc(data: &[u8]) -> u16 {
    const TABLE: [u16; 16] = [
        0x0000, 0xCC01, 0xD801, 0x1400, 0xF001, 0x3C00, 0x2800, 0xE401, 0xA001, 0x6C00,
        0x7800, 0xB401, 0x5000, 0x9C01, 0x8801, 0x4400,
    ];
    let mut crc: u16 = 0;
    for byte in data {
        let mut tmp = TABLE[(crc & 0xF) as usize];
        crc = (crc >> 4) & 0x0FFF;
        crc = crc ^ tmp ^ TABLE[(byte & 0xF) as usize];
        tmp = TABLE[(crc & 0xF) as usize];
        crc = (crc >> 4) & 0x0FFF;
        crc = crc ^ tmp ^ TABLE[((byte >> 4) & 0xF) as usize];
    }
    crc
}

#[test]
fn decodes_a_minimal_recording() {
    // A 14-byte header, one definition and one data message for the
    // record kind (global number 20) carrying a position, and the CRC.
    let mut body: Vec<u8> = Vec::new();
    // Definition message, local type 0, little-endian, global 20, two fields.
    body.extend_from_slice(&[0x40, 0x00, 0x00, 20, 0x00, 2]);
    body.extend_from_slice(&[0, 4, 0x85]); // position_lat: sint32
    body.extend_from_slice(&[1, 4, 0x85]); // position_long: sint32
    // Data message, local type 0.
    body.push(0x00);
    body.extend_from_slice(&536870912i32.to_le_bytes());
    body.extend_from_slice(&(-268435456i32).to_le_bytes());

    let mut file: Vec<u8> = Vec::new();
    file.push(14); // header size
    file.push(0x10); // protocol version
    file.extend_from_slice(&2140u16.to_le_bytes()); // profile version
    file.extend_from_slice(&(body.len() as u32).to_le_bytes());
    file.extend_from_slice(b".FIT");
    let header_crc = fit_crc(&file);
    file.extend_from_slice(&header_crc.to_le_bytes());
    file.extend_from_slice(&body);
    let file_crc = fit_crc(&file);
    file.extend_from_slice(&file_crc.to_le_bytes());

    let records = fitparser::from_bytes(&file).expect("minimal recording should decode");
    let msgs = to_messages(records);
    let coords = extract_coordinates(&msgs);
    assert_eq!(coords.len(), 1);
    assert_eq!(coords[0].lat_semicircles, 536870912);
    assert_eq!(coords[0].lon_semicircles, -268435456);
    assert_eq!(coords[0].altitude, None);
}
