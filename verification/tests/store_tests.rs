use anise::epoch::Epoch;
use anise::errors::AniseError;
use anise::hashing::hash_name;
use anise::records::DistanceUnit;
use anise::records::Ephemeris;
use anise::records::InterpolationKind;
use anise::records::SplinePiece;
use anise::records::Splines;
use anise::records::TimeUnit;
use anise::store::Context;
use anise::store::validate_segment;

fn segment(name: &str, parent: u32, windows: &[(i64, i64)]) -> Ephemeris {
    let pieces = windows
        .iter()
        .map(|&(a, b)| SplinePiece { window_start: a, window_end: b, coefficients: vec![0; 6] })
        .collect();
    Ephemeris {
        name: name.as_bytes().to_vec(),
        ref_epoch: Epoch { centuries: 0, nanoseconds: 0 },
        backward: false,
        parent_ephemeris_hash: parent,
        orientation_hash: 1,
        interpolation_kind: InterpolationKind::ChebyshevPositionOnly,
        distance_unit: DistanceUnit::Kilometer,
        time_unit: TimeUnit::Second,
        splines: Splines { degree: 1, pieces },
    }
}

#[test]
fn build_indexes_bodies_by_name_hash() {
    let luna = segment("Luna", hash_name(b"Earth Moon Barycenter"), &[(0, 100)]);
    let emb = segment("Earth Moon Barycenter", 0, &[(0, 100)]);
    let mut buffer = luna.encode();
    buffer.extend(emb.encode());
    let ctx = Context::build_context(&vec![buffer]).expect("well-formed kernel");
    assert_eq!(ctx.bodies.len(), 2);
    let luna_idx = ctx.find_body(hash_name(b"Luna")).expect("Luna is loaded");
    assert_eq!(ctx.bodies[luna_idx].segments.len(), 1);
    assert_eq!(ctx.bodies[luna_idx].segments[0], luna);
    assert!(ctx.find_body(hash_name(b"Mars")).is_none());
}

#[test]
fn loading_again_appends_and_keeps_the_old_context() {
    let luna = segment("Luna", 3, &[(0, 100)]);
    let buffer = luna.encode();
    let ctx = Context::build_context(&vec![buffer.clone()]).expect("well-formed kernel");
    let ctx2 = ctx.load_additional(buffer.as_slice()).expect("same kernel again");
    // the older context is untouched; the newer one extends the body's list
    assert_eq!(ctx.bodies[0].segments.len(), 1);
    assert_eq!(ctx2.bodies.len(), 1);
    assert_eq!(ctx2.bodies[0].segments.len(), 2);
}

#[test]
fn malformed_buffer_is_rejected() {
    let garbage = vec![9u8, 9, 9];
    let ctx = Context::empty();
    match ctx.load_additional(garbage.as_slice()) {
        Err(AniseError::MalformedRecord(e)) => assert_eq!(e.offset, 0),
        other => panic!("expected a malformed-record error, got {other:?}"),
    }
}

#[test]
fn unordered_windows_fail_validation() {
    let bad = segment("Luna", 3, &[(50, 100), (0, 50)]);
    assert!(!validate_segment(&bad));
    let good = segment("Luna", 3, &[(0, 50), (50, 100)]);
    assert!(validate_segment(&good));
    // the codec itself refuses the unordered record, so loading the buffer
    // fails at the decode stage
    let buffer = bad.encode();
    let ctx = Context::empty();
    match ctx.load_additional(buffer.as_slice()) {
        Err(AniseError::MalformedRecord(e)) => {
            assert_eq!(e.kind, anise::errors::DecodeErrorKind::UnsupportedValue);
        }
        other => panic!("expected a malformed-record error, got {other:?}"),
    }
}

#[test]
fn coverage_boundary_is_inclusive_and_outside_fails() {
    // windows in seconds relative to the reference epoch
    let seg = segment("Luna", 3, &[(0, 100), (100, 200)]);
    let inside = Epoch { centuries: 0, nanoseconds: 150_000_000_000 };
    assert_eq!(seg.piece_for_epoch(&inside), Ok(1));
    let first = Epoch { centuries: 0, nanoseconds: 0 };
    assert_eq!(seg.piece_for_epoch(&first), Ok(0));
    let boundary = Epoch { centuries: 0, nanoseconds: 200_000_000_000 };
    assert_eq!(seg.piece_for_epoch(&boundary), Ok(1));
    let outside = Epoch { centuries: 0, nanoseconds: 200_000_000_001 };
    assert_eq!(seg.piece_for_epoch(&outside), Err(AniseError::OutOfCoverage(outside)));
}

#[test]
fn backward_records_measure_from_the_reference_epoch_backward() {
    let mut seg = segment("probe", 3, &[(0, 100)]);
    seg.backward = true;
    seg.ref_epoch = Epoch { centuries: 0, nanoseconds: 500_000_000_000 };
    let before = Epoch { centuries: 0, nanoseconds: 450_000_000_000 };
    assert_eq!(seg.piece_for_epoch(&before), Ok(0));
    let after = Epoch { centuries: 0, nanoseconds: 550_000_000_000 };
    assert!(seg.piece_for_epoch(&after).is_err());
}
