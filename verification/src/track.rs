//! Scalar keyframe tracks: an ordered list of keys evaluated against an
//! elapsed time by walking segments in order and interpolating inside the
//! segment the elapsed time falls in.

use vstd::prelude::*;
use crate::MAX_MAG;
use crate::Scalar;
use crate::ease::EaseFunction;
use crate::ease::ease_num;
use crate::ease::ease_den;
use crate::math::lemma_mul_bounds_abs;
use crate::math::lemma_mul_le_mono_right;
use vstd::arithmetic::div_mod::lemma_div_is_ordered;
use vstd::arithmetic::div_mod::lemma_div_multiples_vanish;

verus! {

/// One control point of a scalar timeline: the value reached at this key,
/// the duration of the segment leading into it from the previous key, and
/// the optional easing curve governing interpolation into it.
#[derive(Clone, Copy, Debug)]
pub struct Key {
    pub value: Scalar,
    pub duration: Scalar,
    pub ease: Option<EaseFunction>,
}

/// The error a track constructor reports when a key list is rejected.
#[derive(Clone, Copy, Debug, PartialEq, Eq, Structural)]
pub enum TrackError {
    /// A key other than the first has a non-positive duration, which would
    /// make the interpolation progress ratio undefined at evaluation time.
    NonPositiveKeyDuration,
}

impl TrackError {
    /// A descriptive condition for this rejection.
    pub fn message(&self) -> (m: &'static str)
        ensures
            m@ == "key duration must be positive"@,
    {
        "key duration must be positive"
    }
}

/// A key's value and duration are small enough for the interpolation
/// arithmetic to stay within 128-bit intermediates.
pub open spec fn key_in_range(k: Key) -> bool {
    &&& -MAX_MAG <= k.value <= MAX_MAG
    &&& -MAX_MAG <= k.duration <= MAX_MAG
}

/// A well-formed key list: every key is in range and every key after the
/// first has a positive duration.
pub open spec fn valid_keys(keys: Seq<Key>) -> bool {
    &&& forall|i: int| 0 <= i < keys.len() ==> key_in_range(#[trigger] keys[i])
    &&& forall|i: int| 1 <= i < keys.len() ==> (#[trigger] keys[i]).duration > 0
}

/// The value interpolated into a key: linear interpolation from `prev` to
/// `next` at progress `rem / dur`, remapped through the easing curve `e` if
/// one is present, with the final division rounding toward negative
/// infinity.
pub open spec fn spec_interpolate(
    prev: int,
    next: int,
    rem: int,
    dur: int,
    e: Option<EaseFunction>,
) -> int {
    let p = match e {
        Option::Some(f) => ease_num(f, rem, dur),
        Option::None => rem,
    };
    let q = match e {
        Option::Some(f) => ease_den(f, dur),
        Option::None => dur,
    };
    (prev * q + (next - prev) * p) / q
}

/// The segment walk from key index `i` onward, with `remaining` time left
/// and `held` the value recorded by the segments already consumed.  If the
/// remaining time exceeds the current key's duration the walk consumes the
/// segment, holds that key's value, and moves on; otherwise it stops and
/// interpolates between the previous key and the current one.  A walk that
/// exhausts the keys reports the held value.
pub open spec fn walk_from(keys: Seq<Key>, i: int, remaining: int, held: Option<int>)
    -> Option<int>
    decreases keys.len() - i,
{
    if i < 1 || i >= keys.len() {
        held
    } else {
        let k = keys[i];
        if remaining > k.duration {
            walk_from(keys, i + 1, remaining - k.duration, Option::Some(k.value as int))
        } else {
            Option::Some(spec_interpolate(
                keys[i - 1].value as int,
                k.value as int,
                remaining,
                k.duration as int,
                k.ease,
            ))
        }
    }
}

/// What evaluating a key list at an elapsed time yields: no value for an
/// empty list, otherwise the segment walk starting at the second key.
pub open spec fn spec_track_value(keys: Seq<Key>, elapsed: int) -> Option<int> {
    if keys.len() < 1 {
        Option::None
    } else {
        walk_from(keys, 1, elapsed, Option::None)
    }
}

/// An optional machine scalar seen as an optional mathematical integer.
pub open spec fn opt_scalar_as_int(o: Option<Scalar>) -> Option<int> {
    match o {
        Option::Some(v) => Option::Some(v as int),
        Option::None => Option::None,
    }
}

impl Key {
    /// The value interpolated into this key from `previous_key` when
    /// `duration` time remains inside this key's segment.
    pub fn interpolate(&self, previous_key: &Key, duration: Scalar) -> (r: Scalar)
        requires
            0 < self.duration <= MAX_MAG,
            0 <= duration <= self.duration,
            -MAX_MAG <= self.value <= MAX_MAG,
            -MAX_MAG <= previous_key.value <= MAX_MAG,
        ensures
            r == spec_interpolate(
                previous_key.value as int,
                self.value as int,
                duration as int,
                self.duration as int,
                self.ease,
            ),
            previous_key.value <= self.value
                ==> previous_key.value <= r <= self.value,
            self.value <= previous_key.value
                ==> self.value <= r <= previous_key.value,
    {
        let (p, q) = match self.ease {
            Option::Some(e) => e.eval(duration, self.duration),
            Option::None => (duration as i128, self.duration as i128),
        };
        let prev = previous_key.value as i128;
        let next = self.value as i128;
        let diff = next - prev;
        proof {
            lemma_mul_bounds_abs(
                prev as int, q as int, 1_000_000, 2_000_000_000_000_000_000_000_000_000_000);
            lemma_mul_bounds_abs(
                diff as int, p as int, 2_000_000, 2_000_000_000_000_000_000_000_000_000_000);
        }
        let x = prev * q + diff * p;
        let fd = crate::math::floor_div_i128(x, q);
        proof {
            assert(prev * q == q * prev) by (nonlinear_arith);
            assert((prev + diff) * q == q * (prev + diff)) by (nonlinear_arith);
            assert(prev * q + diff * q == (prev + diff) * q) by (nonlinear_arith);
            lemma_div_multiples_vanish(prev as int, q as int);
            lemma_div_multiples_vanish(prev as int + diff as int, q as int);
            if diff >= 0 {
                assert(0 <= diff * p) by (nonlinear_arith)
                    requires 0 <= diff, 0 <= p;
                lemma_mul_le_mono_right(diff as int, p as int, q as int);
                lemma_div_is_ordered(prev as int * q as int, x as int, q as int);
                lemma_div_is_ordered(x as int, (prev + diff) as int * q as int, q as int);
            } else {
                assert(diff * p <= 0) by (nonlinear_arith)
                    requires diff <= 0, 0 <= p;
                assert(diff * q <= diff * p) by (nonlinear_arith)
                    requires diff <= 0, p <= q;
                lemma_div_is_ordered((prev + diff) as int * q as int, x as int, q as int);
                lemma_div_is_ordered(x as int, prev as int * q as int, q as int);
            }
        }
        fd as i64
    }
}

/// An ordered, immutable list of scalar keys defining a piecewise curve
/// over elapsed time.
pub struct Track {
    keys: Vec<Key>,
}

impl View for Track {
    type V = Seq<Key>;

    closed spec fn view(&self) -> Seq<Key> {
        self.keys@
    }
}

impl Track {
    /// A track is well formed when its key list is.
    pub open spec fn wf(&self) -> bool {
        valid_keys(self@)
    }

    /// Builds a track from an ordered key list, rejecting any list in which
    /// a key other than the first has a non-positive duration.
    pub fn new(keys: Vec<Key>) -> (r: Result<Track, TrackError>)
        requires
            forall|i: int| 0 <= i < keys@.len() ==> key_in_range(#[trigger] keys@[i]),
        ensures
            match r {
                Ok(t) => t@ == keys@ && t.wf()
                    && (forall|i: int|
                        1 <= i < keys@.len() ==> (#[trigger] keys@[i]).duration > 0),
                Err(e) => e == TrackError::NonPositiveKeyDuration
                    && exists|i: int|
                        1 <= i < keys@.len() && (#[trigger] keys@[i]).duration <= 0,
            },
    {
        let n = keys.len();
        let mut i: usize = 1;
        while i < n
            invariant
                1 <= i,
                n == keys@.len(),
                forall|j: int| 1 <= j < i ==> (#[trigger] keys@[j]).duration > 0,
            decreases n - i,
        {
            if keys[i].duration <= 0 {
                return Err(TrackError::NonPositiveKeyDuration);
            }
            i = i + 1;
        }
        Ok(Track { keys })
    }

    /// Evaluates the track at an elapsed time.  No value is produced for a
    /// track of fewer than two keys or when the walk never enters a
    /// segment; past the end of the timeline the final key's value is held.
    pub fn value(&self, elapsed: Scalar) -> (r: Option<Scalar>)
        requires
            self.wf(),
            elapsed >= 0,
        ensures
            opt_scalar_as_int(r) == spec_track_value(self@, elapsed as int),
    {
        let n = self.keys.len();
        if n == 0 {
            return None;
        }
        let mut i: usize = 1;
        let mut remaining: i64 = elapsed;
        let mut held: Option<i64> = None;
        while i < n
            invariant
                self.wf(),
                1 <= i <= n,
                n == self@.len(),
                1 <= n,
                0 <= remaining,
                walk_from(self@, i as int, remaining as int, opt_scalar_as_int(held))
                    == spec_track_value(self@, elapsed as int),
            decreases n - i,
        {
            let k = self.keys[i];
            if remaining > k.duration {
                remaining = remaining - k.duration;
                held = Some(k.value);
                i = i + 1;
            } else {
                let prev = self.keys[i - 1];
                let v = k.interpolate(&prev, remaining);
                return Some(v);
            }
        }
        held
    }
}

/// Sum of the durations of keys 1 through `j`: the point on the timeline
/// at which segment `j` ends.  The first key's duration is not part of the
/// timeline.
pub open spec fn duration_sum(keys: Seq<Key>, j: int) -> int
    decreases j,
{
    if j <= 0 {
        0
    } else {
        duration_sum(keys, j - 1) + keys[j].duration
    }
}

proof fn lemma_duration_sum_monotone(keys: Seq<Key>, a: int, b: int)
    requires
        valid_keys(keys),
        0 <= a <= b,
        b < keys.len(),
    ensures
        duration_sum(keys, a) <= duration_sum(keys, b),
    decreases b - a,
{
    if a < b {
        lemma_duration_sum_monotone(keys, a, b - 1);
    }
}

proof fn lemma_walk_in_segment(keys: Seq<Key>, i: int, j: int, rem: int, held: Option<int>)
    requires
        valid_keys(keys),
        1 <= i <= j < keys.len(),
        rem <= duration_sum(keys, j) - duration_sum(keys, i - 1),
        i < j ==> rem > duration_sum(keys, j - 1) - duration_sum(keys, i - 1),
    ensures
        walk_from(keys, i, rem, held) == Option::Some(spec_interpolate(
            keys[j - 1].value as int,
            keys[j].value as int,
            rem - (duration_sum(keys, j - 1) - duration_sum(keys, i - 1)),
            keys[j].duration as int,
            keys[j].ease,
        )),
    decreases j - i,
{
    if i == j {
        assert(duration_sum(keys, j) == duration_sum(keys, j - 1) + keys[j].duration);
    } else {
        lemma_duration_sum_monotone(keys, i, j - 1);
        assert(duration_sum(keys, i) == duration_sum(keys, i - 1) + keys[i].duration);
        lemma_walk_in_segment(
            keys, i + 1, j, rem - keys[i].duration, Option::Some(keys[i].value as int));
    }
}

/// When the elapsed time falls inside segment `j` — after segment `j - 1`
/// ends and no later than segment `j` ends — the track's value is the
/// interpolation into key `j` at the time remaining within that segment.
pub proof fn lemma_track_value_in_segment(keys: Seq<Key>, j: int, elapsed: int)
    requires
        valid_keys(keys),
        1 <= j < keys.len(),
        0 <= elapsed <= duration_sum(keys, j),
        j > 1 ==> elapsed > duration_sum(keys, j - 1),
    ensures
        spec_track_value(keys, elapsed) == Option::Some(spec_interpolate(
            keys[j - 1].value as int,
            keys[j].value as int,
            elapsed - duration_sum(keys, j - 1),
            keys[j].duration as int,
            keys[j].ease,
        )),
{
    lemma_walk_in_segment(keys, 1, j, elapsed, Option::None);
}

/// At elapsed time zero a track of at least two keys reports exactly its
/// first key's value: the start of the first real segment.
pub proof fn lemma_value_at_start(keys: Seq<Key>)
    requires
        valid_keys(keys),
        2 <= keys.len(),
    ensures
        spec_track_value(keys, 0) == Option::Some(keys[0].value as int),
{
    lemma_track_value_in_segment(keys, 1, 0);
    let prev = keys[0].value as int;
    let next = keys[1].value as int;
    let d = keys[1].duration as int;
    match keys[1].ease {
        Option::Some(f) => {
            crate::ease::lemma_ease_at_zero(f, d);
            crate::ease::lemma_ease_den_pos(f, d);
            let p = ease_num(f, 0, d);
            let q = ease_den(f, d);
            assert(prev * q + (next - prev) * p == q * prev) by (nonlinear_arith)
                requires p == 0;
            lemma_div_multiples_vanish(prev, q);
        }
        Option::None => {
            assert(prev * d + (next - prev) * 0 == d * prev) by (nonlinear_arith);
            lemma_div_multiples_vanish(prev, d);
        }
    }
}

proof fn lemma_walk_past_end(keys: Seq<Key>, i: int, rem: int, held: Option<int>)
    requires
        valid_keys(keys),
        2 <= keys.len(),
        1 <= i <= keys.len(),
        i == keys.len() ==> held == Option::Some(keys[keys.len() - 1].value as int),
        rem > duration_sum(keys, keys.len() - 1) - duration_sum(keys, i - 1),
    ensures
        walk_from(keys, i, rem, held)
            == Option::Some(keys[keys.len() - 1].value as int),
    decreases keys.len() - i,
{
    let n = keys.len() as int;
    if i < n {
        lemma_duration_sum_monotone(keys, i, n - 1);
        assert(duration_sum(keys, i) == duration_sum(keys, i - 1) + keys[i].duration);
        lemma_walk_past_end(
            keys, i + 1, rem - keys[i].duration, Option::Some(keys[i].value as int));
    }
}

/// At or past the end of the timeline — an elapsed time at least the sum
/// of all segment durations — a track of at least two keys reports its
/// final key's value, and keeps doing so for every larger elapsed time.
pub proof fn lemma_value_holds_final(keys: Seq<Key>, elapsed: int)
    requires
        valid_keys(keys),
        2 <= keys.len(),
        elapsed >= duration_sum(keys, keys.len() - 1),
    ensures
        spec_track_value(keys, elapsed)
            == Option::Some(keys[keys.len() - 1].value as int),
{
    let n = keys.len() as int;
    if elapsed == duration_sum(keys, n - 1) {
        lemma_duration_sum_monotone(keys, 0, n - 2);
        assert(duration_sum(keys, n - 1) == duration_sum(keys, n - 2) + keys[n - 1].duration);
        lemma_track_value_in_segment(keys, n - 1, elapsed);
        let prev = keys[n - 2].value as int;
        let next = keys[n - 1].value as int;
        let d = keys[n - 1].duration as int;
        match keys[n - 1].ease {
            Option::Some(f) => {
                crate::ease::lemma_ease_at_full(f, d);
                crate::ease::lemma_ease_den_pos(f, d);
                let q = ease_den(f, d);
                assert(prev * q + (next - prev) * q == q * next) by (nonlinear_arith);
                lemma_div_multiples_vanish(next, q);
            }
            Option::None => {
                assert(prev * d + (next - prev) * d == d * next) by (nonlinear_arith);
                lemma_div_multiples_vanish(next, d);
            }
        }
    } else {
        lemma_walk_past_end(keys, 1, elapsed, Option::None);
    }
}

/// A track of fewer than two keys never produces a value, whatever the
/// elapsed time: the walk only ever reads keys after the first.
pub proof fn lemma_short_track_no_value(keys: Seq<Key>, elapsed: int)
    requires
        keys.len() < 2,
    ensures
        spec_track_value(keys, elapsed) == Option::<int>::None,
{
}

/// At the exact boundary between two segments a linear (un-eased) segment
/// reports the boundary key's value: consecutive segments join
/// continuously.
pub proof fn lemma_segment_boundary(keys: Seq<Key>, j: int)
    requires
        valid_keys(keys),
        1 <= j < keys.len(),
        keys[j].ease is None,
    ensures
        spec_track_value(keys, duration_sum(keys, j))
            == Option::Some(keys[j].value as int),
{
    lemma_duration_sum_monotone(keys, 0, j - 1);
    assert(duration_sum(keys, j) == duration_sum(keys, j - 1) + keys[j].duration);
    lemma_track_value_in_segment(keys, j, duration_sum(keys, j));
    let prev = keys[j - 1].value as int;
    let next = keys[j].value as int;
    let d = keys[j].duration as int;
    assert(prev * d + (next - prev) * d == d * next) by (nonlinear_arith);
    lemma_div_multiples_vanish(next, d);
}

proof fn lemma_duration_sum_same_durations(keys: Seq<Key>, keys2: Seq<Key>, t: int)
    requires
        keys.len() == keys2.len(),
        forall|i: int| 0 <= i < keys.len()
            ==> (#[trigger] keys[i]).duration == keys2[i].duration,
        t < keys.len(),
    ensures
        duration_sum(keys, t) == duration_sum(keys2, t),
    decreases t,
{
    if t > 0 {
        lemma_duration_sum_same_durations(keys, keys2, t - 1);
    }
}

/// Substituting the identity remapping (no easing curve) for whatever
/// curve key `j` names reproduces the plain linear interpolation result on
/// that segment, for any elapsed time inside it.
pub proof fn lemma_identity_ease_is_linear(keys: Seq<Key>, j: int, elapsed: int)
    requires
        valid_keys(keys),
        1 <= j < keys.len(),
        0 <= elapsed <= duration_sum(keys, j),
        j > 1 ==> elapsed > duration_sum(keys, j - 1),
    ensures
        ({
            let linear = Key { value: keys[j].value, duration: keys[j].duration,
                ease: Option::None };
            spec_track_value(keys.update(j, linear), elapsed) == Option::Some(
                (keys[j - 1].value as int * keys[j].duration
                    + (keys[j].value - keys[j - 1].value)
                        * (elapsed - duration_sum(keys, j - 1)))
                    / keys[j].duration as int)
        }),
{
    let linear = Key { value: keys[j].value, duration: keys[j].duration,
        ease: Option::None };
    let keys2 = keys.update(j, linear);
    assert(valid_keys(keys2)) by {
        assert forall|i: int| 0 <= i < keys2.len() implies key_in_range(#[trigger] keys2[i]) by {
            if i != j {
                assert(keys2[i] == keys[i]);
            }
        }
        assert forall|i: int| 1 <= i < keys2.len() implies (#[trigger] keys2[i]).duration > 0 by {
            if i != j {
                assert(keys2[i] == keys[i]);
            }
        }
    }
    assert forall|i: int| 0 <= i < keys.len()
        implies (#[trigger] keys[i]).duration == keys2[i].duration by {
        if i != j {
            assert(keys2[i] == keys[i]);
        }
    }
    lemma_duration_sum_same_durations(keys, keys2, j);
    lemma_duration_sum_same_durations(keys, keys2, j - 1);
    lemma_track_value_in_segment(keys2, j, elapsed);
}

} // verus!
