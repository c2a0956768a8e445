use anise::codec::parse_segments;
use anise::epoch::Epoch;
use anise::errors::DecodeErrorKind;
use anise::records::DistanceUnit;
use anise::records::Ephemeris;
use anise::records::InterpolationKind;
use anise::records::SplinePiece;
use anise::records::Splines;
use anise::records::TimeUnit;

fn sample_segment(name: &str, parent: u32) -> Ephemeris {
    Ephemeris {
        name: name.as_bytes().to_vec(),
        ref_epoch: Epoch { centuries: 0, nanoseconds: 12_345 },
        backward: false,
        parent_ephemeris_hash: parent,
        orientation_hash: 7,
        interpolation_kind: InterpolationKind::ChebyshevPositionOnly,
        distance_unit: DistanceUnit::Kilometer,
        time_unit: TimeUnit::Second,
        splines: Splines {
            degree: 1,
            pieces: vec![
                SplinePiece { window_start: 0, window_end: 100, coefficients: vec![1, 2, 3, 4, 5, 6] },
                SplinePiece { window_start: 100, window_end: 200, coefficients: vec![7, 8, 9, 10, 11, 12] },
            ],
        },
    }
}

#[test]
fn round_trip_identity() {
    let seg = sample_segment("Luna", 3);
    let bytes = seg.encode();
    let back = Ephemeris::decode(bytes.as_slice()).expect("canonical encoding must decode");
    assert_eq!(back, seg);
}

#[test]
fn encoded_len_matches_bytes_produced() {
    let seg = sample_segment("Earth Moon Barycenter", 0);
    let bytes = seg.encode();
    assert_eq!(seg.encoded_len(), bytes.len() as u64);
}

#[test]
fn decode_empty_buffer_is_truncated() {
    let empty: Vec<u8> = Vec::new();
    let err = Ephemeris::decode(empty.as_slice()).unwrap_err();
    assert_eq!(err.kind, DecodeErrorKind::Truncated);
    assert_eq!(err.offset, 0);
}

#[test]
fn decode_wrong_tag_is_tag_mismatch() {
    let seg = sample_segment("Venus", 0);
    let mut bytes = seg.encode();
    bytes[0] = 0x7F;
    let err = Ephemeris::decode(bytes.as_slice()).unwrap_err();
    assert_eq!(err.kind, DecodeErrorKind::TagMismatch);
    assert_eq!(err.offset, 0);
}

#[test]
fn decode_trailing_bytes_rejected() {
    let seg = sample_segment("Venus", 0);
    let mut bytes = seg.encode();
    let end = bytes.len();
    bytes.push(0);
    let err = Ephemeris::decode(bytes.as_slice()).unwrap_err();
    assert_eq!(err.kind, DecodeErrorKind::TrailingBytes);
    assert_eq!(err.offset, end);
}

#[test]
fn decode_bad_flag_byte_is_unsupported_value() {
    let seg = sample_segment("Venus", 0);
    let mut bytes = seg.encode();
    // the flag byte sits after: name tag+len+5 bytes, epoch tag+10 bytes, flag tag
    let flag_at = 3 + 5 + 11 + 1;
    assert_eq!(bytes[flag_at], 0);
    bytes[flag_at] = 9;
    let err = Ephemeris::decode(bytes.as_slice()).unwrap_err();
    assert_eq!(err.kind, DecodeErrorKind::UnsupportedValue);
}

#[test]
fn parse_two_records_back_to_back() {
    let a = sample_segment("Luna", 3);
    let b = sample_segment("Earth", 0);
    let mut bytes = a.encode();
    bytes.extend(b.encode());
    let segs = parse_segments(bytes.as_slice()).expect("two canonical records");
    assert_eq!(segs.len(), 2);
    assert_eq!(segs[0], a);
    assert_eq!(segs[1], b);
}

#[test]
fn hermite_payload_round_trips() {
    let mut seg = sample_segment("probe", 3);
    seg.interpolation_kind = InterpolationKind::HermitePositionVelocity;
    seg.backward = true;
    seg.ref_epoch = Epoch { centuries: -2, nanoseconds: 42 };
    seg.splines.degree = 0;
    seg.splines.pieces = vec![SplinePiece {
        window_start: -50,
        window_end: 50,
        coefficients: vec![11, 12, 13, 14, 15, 16],
    }];
    let bytes = seg.encode();
    let back = Ephemeris::decode(bytes.as_slice()).expect("canonical encoding must decode");
    assert_eq!(back, seg);
}

#[test]
fn decode_rejects_unordered_windows() {
    let mut seg = sample_segment("Venus", 0);
    seg.splines.pieces = vec![
        SplinePiece { window_start: 10, window_end: 20, coefficients: vec![1, 2, 3, 4, 5, 6] },
        SplinePiece { window_start: 0, window_end: 5, coefficients: vec![7, 8, 9, 10, 11, 12] },
    ];
    let bytes = seg.encode();
    let err = Ephemeris::decode(bytes.as_slice()).unwrap_err();
    assert_eq!(err.kind, DecodeErrorKind::UnsupportedValue);
}
