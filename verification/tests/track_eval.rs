use keyframe_tracks::ease::EaseFunction;
use keyframe_tracks::track::Key;
use keyframe_tracks::track::Track;
use keyframe_tracks::track::TrackError;

fn key(value: i64, duration: i64) -> Key {
    Key { value, duration, ease: None }
}

fn eased_key(value: i64, duration: i64, ease: EaseFunction) -> Key {
    Key { value, duration, ease: Some(ease) }
}

// Values are fixed-point with 1000 units per 1.0 of the animated quantity.

#[test]
fn linear_two_key_scenario() {
    let track = Track::new(vec![key(0, 0), key(500_000, 10_000)]).unwrap();
    assert_eq!(track.value(0), Some(0));
    assert_eq!(track.value(5_000), Some(250_000));
    assert_eq!(track.value(10_000), Some(500_000));
    assert_eq!(track.value(20_000), Some(500_000));
}

#[test]
fn cubic_in_scenario() {
    let track = Track::new(vec![
        key(0, 0),
        eased_key(500_000, 10_000, EaseFunction::CubicIn),
    ])
    .unwrap();
    // lerp(0, 500, cubic_in(0.5)) = 500 * 0.125 = 62.5, not the linear 250.
    assert_eq!(track.value(5_000), Some(62_500));
    assert_ne!(track.value(5_000), Some(250_000));
}

#[test]
fn starts_at_first_key_value() {
    let track = Track::new(vec![
        key(7, 3),
        eased_key(100, 10, EaseFunction::QuinticInOut),
        key(-50, 4),
    ])
    .unwrap();
    assert_eq!(track.value(0), Some(7));
}

#[test]
fn holds_final_value_past_end() {
    let track = Track::new(vec![key(1, 5), key(10, 4), key(-3, 6)]).unwrap();
    // Timeline length is 4 + 6 = 10 (the first key's duration is not part of it).
    assert_eq!(track.value(10), Some(-3));
    assert_eq!(track.value(11), Some(-3));
    assert_eq!(track.value(1_000_000), Some(-3));
}

#[test]
fn short_tracks_produce_no_value() {
    let empty = Track::new(vec![]).unwrap();
    assert_eq!(empty.value(0), None);
    assert_eq!(empty.value(100), None);
    let single = Track::new(vec![key(42, 5)]).unwrap();
    assert_eq!(single.value(0), None);
    assert_eq!(single.value(3), None);
    assert_eq!(single.value(100), None);
}

#[test]
fn segment_boundaries_are_continuous() {
    let track = Track::new(vec![key(0, 0), key(10, 4), key(30, 6)]).unwrap();
    assert_eq!(track.value(4), Some(10));
    assert_eq!(track.value(10), Some(30));
    // Strictly inside the second segment: 10 + 20 * 3 / 6 = 20.
    assert_eq!(track.value(7), Some(20));
}

#[test]
fn identity_curve_matches_plain_linear() {
    let eased = Track::new(vec![
        key(0, 0),
        eased_key(100, 4, EaseFunction::QuadraticIn),
    ])
    .unwrap();
    let linear = Track::new(vec![key(0, 0), key(100, 4)]).unwrap();
    // quadratic_in(0.5) = 0.25, so the eased track reads 25 at half progress,
    // while substituting the identity remapping yields the plain-linear 50.
    assert_eq!(eased.value(2), Some(25));
    assert_eq!(linear.value(2), Some(50));
    assert_eq!(linear.value(2), Some(0 + 100 * 2 / 4));
}

#[test]
fn interpolation_rounds_toward_negative_infinity() {
    let track = Track::new(vec![key(0, 0), key(10, 3)]).unwrap();
    // 10 * 1 / 3 = 3.33.. rounds down to 3.
    assert_eq!(track.value(1), Some(3));
    let negative = Track::new(vec![key(-10, 0), key(-20, 4)]).unwrap();
    // -10 + (-10) * 1 / 4 = -12.5 rounds down to -13.
    assert_eq!(negative.value(1), Some(-13));
}

#[test]
fn eased_descending_segment() {
    let track = Track::new(vec![
        key(1000, 0),
        eased_key(0, 10, EaseFunction::CubicInOut),
    ])
    .unwrap();
    // cubic_in_out(0.2) = 4 * 0.2^3 = 0.032, so 1000 + (0 - 1000) * 0.032 = 968.
    assert_eq!(track.value(2), Some(968));
    // cubic_in_out(0.5) = 0.5 exactly.
    assert_eq!(track.value(5), Some(500));
    assert_eq!(track.value(10), Some(0));
}

#[test]
fn rejects_non_positive_duration_after_first_key() {
    let zero = Track::new(vec![key(0, 0), key(10, 0)]);
    assert!(matches!(zero, Err(TrackError::NonPositiveKeyDuration)));
    let negative = Track::new(vec![key(0, 0), key(10, 5), key(20, -1)]);
    assert!(matches!(negative, Err(TrackError::NonPositiveKeyDuration)));
}

#[test]
fn first_key_duration_is_not_validated() {
    // The first key's duration is never walked, so a zero there is accepted.
    let track = Track::new(vec![key(5, 0), key(10, 2)]);
    assert!(track.is_ok());
}

#[test]
fn rejection_message_is_descriptive() {
    let err = match Track::new(vec![key(0, 0), key(10, 0)]) {
        Err(e) => e,
        Ok(_) => panic!("expected the key list to be rejected"),
    };
    assert_eq!(err.message(), "key duration must be positive");
}
