use anise::epoch::epoch_from_gregorian_utc_at_midnight;
use anise::frames::GeodeticRefFrame;
use anise::frames::RefFrame;
use anise::frames::ScalarBits;
use anise::hashing::hash_name;

fn luna_like() -> GeodeticRefFrame {
    GeodeticRefFrame {
        frame: RefFrame::from_ephem_orient(301, 1),
        mu_km3s: ScalarBits { bits: 4902.8_f64.to_bits() },
        equatorial_radius: Some(ScalarBits { bits: 1738.1_f64.to_bits() }),
        semi_major_radius: Some(ScalarBits { bits: 1738.1_f64.to_bits() }),
        flattening: Some(ScalarBits { bits: 0.0012_f64.to_bits() }),
    }
}

#[test]
fn geoid_requires_all_three_shape_constants() {
    let full = luna_like();
    assert!(full.is_geoid());

    let mut no_eq = luna_like();
    no_eq.equatorial_radius = None;
    assert!(!no_eq.is_geoid());

    let mut no_sm = luna_like();
    no_sm.semi_major_radius = None;
    assert!(!no_sm.is_geoid());

    let mut no_fl = luna_like();
    no_fl.flattening = None;
    assert!(!no_fl.is_geoid());
}

#[test]
fn mu_alone_never_implies_geoid() {
    let mut point_mass = luna_like();
    point_mass.equatorial_radius = None;
    point_mass.semi_major_radius = None;
    point_mass.flattening = None;
    assert!(!point_mass.is_geoid());
}

#[test]
fn hash_matches_compare_the_right_components() {
    let a = luna_like();
    assert!(a.ephem_origin_hash_match(301));
    assert!(!a.ephem_origin_hash_match(302));
    assert!(a.orient_origin_hash_match(1));
    assert!(!a.orient_origin_hash_match(2));

    let mut b = luna_like();
    b.frame = RefFrame::from_ephem_orient(301, 2);
    assert!(a.ephem_origin_match(b));
    assert!(!a.orient_origin_match(b));
}

#[test]
fn narrowing_discards_constants() {
    let g = luna_like();
    let f = RefFrame::from(g);
    assert_eq!(f, g.frame);
}

#[test]
fn name_hash_is_deterministic_and_separates_names() {
    let h1 = hash_name(b"Earth Moon Barycenter");
    let h2 = hash_name(b"Earth Moon Barycenter");
    let h3 = hash_name(b"Luna");
    assert_eq!(h1, h2);
    assert_ne!(h1, h3);
    assert_ne!(hash_name(b""), 0);
}

#[test]
fn gregorian_dates_order_their_epochs() {
    let a = epoch_from_gregorian_utc_at_midnight(2002, 2, 7).expect("valid date");
    let b = epoch_from_gregorian_utc_at_midnight(2002, 2, 8).expect("valid date");
    assert!(a.is_at_or_before(&b));
    assert!(!b.is_at_or_before(&a));
    // one civil day, allowing for the dynamical time scale's periodic terms
    let day = b.nanos_since(&a);
    assert!(day > 86_399_999_000_000 && day < 86_400_001_000_000);
}

#[test]
fn invalid_gregorian_date_is_rejected() {
    match epoch_from_gregorian_utc_at_midnight(2002, 13, 1) {
        Err(anise::errors::AniseError::InvalidDate { year, month, day }) => {
            assert_eq!((year, month, day), (2002, 13, 1));
        }
        other => panic!("expected an invalid-date error, got {other:?}"),
    }
}

#[test]
fn every_existing_date_in_range_converts() {
    assert!(epoch_from_gregorian_utc_at_midnight(2024, 2, 29).is_ok());
    assert!(epoch_from_gregorian_utc_at_midnight(2023, 2, 29).is_err());
    assert!(epoch_from_gregorian_utc_at_midnight(1, 1, 1).is_ok());
    assert!(epoch_from_gregorian_utc_at_midnight(9999, 12, 31).is_ok());
}
