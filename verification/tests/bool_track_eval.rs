use keyframe_tracks::bool_track::BoolKey;
use keyframe_tracks::bool_track::BoolTrack;
use keyframe_tracks::track::TrackError;

fn bkey(value: bool, duration: i64) -> BoolKey {
    BoolKey { value, duration }
}

#[test]
fn delayed_switch_scenario() {
    let track = BoolTrack::new(vec![bkey(false, 0), bkey(true, 5), bkey(false, 5)])
        .unwrap();
    // Inside the first real segment the previous value is still reported.
    assert_eq!(track.value(2), Some(false));
    // After crossing the first boundary the walk evaluates the next segment,
    // and only then reports the switched value.
    assert_eq!(track.value(6), Some(true));
    // Past the end the walk exhausts and reports the value held by the last
    // consumed segment, which introduced `false`.
    assert_eq!(track.value(11), Some(false));
}

#[test]
fn switch_is_one_segment_late() {
    let track = BoolTrack::new(vec![bkey(false, 0), bkey(true, 5), bkey(false, 5)])
        .unwrap();
    // At the first boundary the walk still stops inside segment one.
    assert_eq!(track.value(5), Some(false));
    // At the second boundary the walk stops inside segment two, reporting
    // the value introduced by the first real key.
    assert_eq!(track.value(10), Some(true));
}

#[test]
fn short_bool_tracks_produce_no_value() {
    let empty = BoolTrack::new(vec![]).unwrap();
    assert_eq!(empty.value(0), None);
    assert_eq!(empty.value(9), None);
    let single = BoolTrack::new(vec![bkey(true, 3)]).unwrap();
    assert_eq!(single.value(0), None);
    assert_eq!(single.value(100), None);
}

#[test]
fn bool_track_rejects_non_positive_duration_after_first_key() {
    let zero = BoolTrack::new(vec![bkey(false, 0), bkey(true, 0)]);
    assert!(matches!(zero, Err(TrackError::NonPositiveKeyDuration)));
    let negative = BoolTrack::new(vec![bkey(false, 0), bkey(true, 2), bkey(false, -3)]);
    assert!(matches!(negative, Err(TrackError::NonPositiveKeyDuration)));
}

#[test]
fn large_durations_are_accepted() {
    // Boolean keys carry no interpolation arithmetic, so durations may use
    // the full scalar range.
    let track = BoolTrack::new(vec![bkey(false, 0), bkey(true, i64::MAX)]).unwrap();
    assert_eq!(track.value(1), Some(false));
    assert_eq!(track.value(i64::MAX), Some(false));
}
