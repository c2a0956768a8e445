use anise::epoch::Epoch;
use anise::errors::AniseError;
use anise::frames::RefFrame;
use anise::hashing::hash_name;
use anise::records::DistanceUnit;
use anise::records::Ephemeris;
use anise::records::InterpolationKind;
use anise::records::SplinePiece;
use anise::records::Splines;
use anise::records::TimeUnit;
use anise::store::Context;

fn segment(name: &str, parent: u32, windows: &[(i64, i64)]) -> Ephemeris {
    let pieces = windows
        .iter()
        .map(|&(a, b)| SplinePiece { window_start: a, window_end: b, coefficients: vec![0; 6] })
        .collect();
    Ephemeris {
        name: name.as_bytes().to_vec(),
        ref_epoch: Epoch { centuries: 0, nanoseconds: 0 },
        backward: false,
        parent_ephemeris_hash: parent,
        orientation_hash: 1,
        interpolation_kind: InterpolationKind::ChebyshevPositionOnly,
        distance_unit: DistanceUnit::Kilometer,
        time_unit: TimeUnit::Second,
        splines: Splines { degree: 1, pieces },
    }
}

fn solar_system() -> Context {
    let root = hash_name(b"Solar System Barycenter");
    let venus = segment("Venus", root, &[(0, 1000)]);
    let emb = segment("Earth Moon Barycenter", root, &[(0, 1000)]);
    let luna = segment("Luna", hash_name(b"Earth Moon Barycenter"), &[(0, 1000)]);
    let mut buffer = venus.encode();
    buffer.extend(emb.encode());
    buffer.extend(luna.encode());
    Context::build_context(&vec![buffer]).expect("well-formed kernel")
}

#[test]
fn path_runs_through_the_common_ancestor() {
    let ctx = solar_system();
    let venus = RefFrame::from_ephem_orient(hash_name(b"Venus"), 1);
    let luna = RefFrame::from_ephem_orient(hash_name(b"Luna"), 1);
    let path = ctx.common_ephemeris_path(venus, luna).expect("shared root");
    assert_eq!(
        path,
        vec![
            hash_name(b"Venus"),
            hash_name(b"Solar System Barycenter"),
            hash_name(b"Earth Moon Barycenter"),
            hash_name(b"Luna"),
        ]
    );
}

#[test]
fn path_to_a_direct_ancestor_is_short() {
    let ctx = solar_system();
    let emb = RefFrame::from_ephem_orient(hash_name(b"Earth Moon Barycenter"), 1);
    let luna = RefFrame::from_ephem_orient(hash_name(b"Luna"), 1);
    let path = ctx.common_ephemeris_path(luna, emb).expect("parent and child");
    assert_eq!(path, vec![hash_name(b"Luna"), hash_name(b"Earth Moon Barycenter")]);
}

#[test]
fn disjoint_graphs_fail_with_unresolved_frame() {
    let a = segment("probe", hash_name(b"station"), &[(0, 100)]);
    let b = segment("rover", hash_name(b"base"), &[(0, 100)]);
    let mut buffer = a.encode();
    buffer.extend(b.encode());
    let ctx = Context::build_context(&vec![buffer]).expect("two unrelated bodies");
    let fa = RefFrame::from_ephem_orient(hash_name(b"probe"), 1);
    let fb = RefFrame::from_ephem_orient(hash_name(b"rover"), 1);
    match ctx.common_ephemeris_path(fa, fb) {
        Err(AniseError::UnresolvedFrame(_)) => {}
        other => panic!("expected an unresolved-frame error, got {other:?}"),
    }
}

#[test]
fn plan_signs_split_at_the_ancestor() {
    let ctx = solar_system();
    let venus = RefFrame::from_ephem_orient(hash_name(b"Venus"), 1);
    let luna = RefFrame::from_ephem_orient(hash_name(b"Luna"), 1);
    let epoch = Epoch { centuries: 0, nanoseconds: 500_000_000_000 };
    let (path, plan) = ctx.translation_plan(venus, luna, &epoch).expect("covered epoch");
    assert_eq!(path.len(), 4);
    assert_eq!(plan.len(), 3);
    // Venus hangs below the ancestor: its edge adds; the two edges down to
    // Luna subtract
    assert!(plan[0].positive);
    assert!(!plan[1].positive);
    assert!(!plan[2].positive);
}

#[test]
fn plan_fails_outside_coverage() {
    let ctx = solar_system();
    let venus = RefFrame::from_ephem_orient(hash_name(b"Venus"), 1);
    let luna = RefFrame::from_ephem_orient(hash_name(b"Luna"), 1);
    let late = Epoch { centuries: 0, nanoseconds: 2_000_000_000_000 };
    match ctx.translation_plan(venus, luna, &late) {
        Err(AniseError::OutOfCoverage(e)) => assert_eq!(e, late),
        other => panic!("expected an out-of-coverage error, got {other:?}"),
    }
}

#[test]
fn a_well_built_store_reports_well_formed() {
    let ctx = solar_system();
    assert!(ctx.is_well_formed());
    let empty = Context::empty();
    assert!(empty.is_well_formed());
}
