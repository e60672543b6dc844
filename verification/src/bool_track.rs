//! Boolean keyframe tracks: the same segment walk as scalar tracks, but
//! stepped rather than interpolated.  When the walk stops inside a segment
//! it reports the value held from before that segment, so the reported
//! boolean only switches to a key's value once the walk has fully consumed
//! the segment that introduced it.

use vstd::prelude::*;
use crate::Scalar;

verus! {

/// One control point of a boolean timeline: the value introduced by this
/// key and the duration of the segment leading into it.
#[derive(Clone, Copy, Debug)]
pub struct BoolKey {
    pub value: bool,
    pub duration: Scalar,
}

/// A well-formed boolean key list: every key after the first has a
/// positive duration.
pub open spec fn valid_bool_keys(keys: Seq<BoolKey>) -> bool {
    forall|i: int| 1 <= i < keys.len() ==> (#[trigger] keys[i]).duration > 0
}

/// The segment walk from key index `i` onward.  Unlike the scalar walk,
/// stopping inside a segment reports the previous key's value, not the
/// current key's: the switch to a key's value is delayed until its segment
/// has been fully consumed.
pub open spec fn bool_walk_from(keys: Seq<BoolKey>, i: int, remaining: int, held: Option<bool>)
    -> Option<bool>
    decreases keys.len() - i,
{
    if i < 1 || i >= keys.len() {
        held
    } else {
        let k = keys[i];
        if remaining > k.duration {
            bool_walk_from(keys, i + 1, remaining - k.duration, Option::Some(k.value))
        } else {
            Option::Some(keys[i - 1].value)
        }
    }
}

/// What evaluating a boolean key list at an elapsed time yields.
pub open spec fn spec_bool_track_value(keys: Seq<BoolKey>, elapsed: int) -> Option<bool> {
    if keys.len() < 1 {
        Option::None
    } else {
        bool_walk_from(keys, 1, elapsed, Option::None)
    }
}

/// An ordered, immutable list of boolean keys defining a stepped timeline.
pub struct BoolTrack {
    keys: Vec<BoolKey>,
}

impl View for BoolTrack {
    type V = Seq<BoolKey>;

    closed spec fn view(&self) -> Seq<BoolKey> {
        self.keys@
    }
}

impl BoolTrack {
    /// A boolean track is well formed when its key list is.
    pub open spec fn wf(&self) -> bool {
        valid_bool_keys(self@)
    }

    /// Builds a boolean track from an ordered key list, rejecting any list
    /// in which a key other than the first has a non-positive duration.
    pub fn new(keys: Vec<BoolKey>) -> (r: Result<BoolTrack, crate::track::TrackError>)
        ensures
            match r {
                Ok(t) => t@ == keys@ && t.wf(),
                Err(e) => e == crate::track::TrackError::NonPositiveKeyDuration
                    && exists|i: int|
                        1 <= i < keys@.len() && (#[trigger] keys@[i]).duration <= 0,
            },
    {
        let n = keys.len();
        let mut i: usize = 1;
        while i < n
            invariant
                1 <= i,
                n == keys@.len(),
                forall|j: int| 1 <= j < i ==> (#[trigger] keys@[j]).duration > 0,
            decreases n - i,
        {
            if keys[i].duration <= 0 {
                return Err(crate::track::TrackError::NonPositiveKeyDuration);
            }
            i = i + 1;
        }
        Ok(BoolTrack { keys })
    }

    /// Evaluates the track at an elapsed time.  No value is produced for a
    /// track of fewer than two keys; inside a segment the value held from
    /// before that segment is reported; past the end of the timeline the
    /// final key's value is held.
    pub fn value(&self, elapsed: Scalar) -> (r: Option<bool>)
        requires
            self.wf(),
            elapsed >= 0,
        ensures
            r == spec_bool_track_value(self@, elapsed as int),
    {
        let n = self.keys.len();
        if n == 0 {
            return None;
        }
        let mut i: usize = 1;
        let mut remaining: i64 = elapsed;
        let mut held: Option<bool> = None;
        while i < n
            invariant
                self.wf(),
                1 <= i <= n,
                n == self@.len(),
                1 <= n,
                0 <= remaining,
                bool_walk_from(self@, i as int, remaining as int, held)
                    == spec_bool_track_value(self@, elapsed as int),
            decreases n - i,
        {
            let k = self.keys[i];
            if remaining > k.duration {
                remaining = remaining - k.duration;
                held = Some(k.value);
                i = i + 1;
            } else {
                let prev = self.keys[i - 1];
                return Some(prev.value);
            }
        }
        held
    }
}

/// Sum of the durations of boolean keys 1 through `j`: the point on the
/// timeline at which segment `j` ends.
pub open spec fn bool_duration_sum(keys: Seq<BoolKey>, j: int) -> int
    decreases j,
{
    if j <= 0 {
        0
    } else {
        bool_duration_sum(keys, j - 1) + keys[j].duration
    }
}

proof fn lemma_bool_duration_sum_monotone(keys: Seq<BoolKey>, a: int, b: int)
    requires
        valid_bool_keys(keys),
        0 <= a <= b,
        b < keys.len(),
    ensures
        bool_duration_sum(keys, a) <= bool_duration_sum(keys, b),
    decreases b - a,
{
    if a < b {
        lemma_bool_duration_sum_monotone(keys, a, b - 1);
    }
}

proof fn lemma_bool_walk_in_segment(
    keys: Seq<BoolKey>,
    i: int,
    j: int,
    rem: int,
    held: Option<bool>,
)
    requires
        valid_bool_keys(keys),
        1 <= i <= j < keys.len(),
        rem <= bool_duration_sum(keys, j) - bool_duration_sum(keys, i - 1),
        i < j ==> rem > bool_duration_sum(keys, j - 1) - bool_duration_sum(keys, i - 1),
    ensures
        bool_walk_from(keys, i, rem, held) == Option::Some(keys[j - 1].value),
    decreases j - i,
{
    if i == j {
        assert(bool_duration_sum(keys, j) == bool_duration_sum(keys, j - 1) + keys[j].duration);
    } else {
        lemma_bool_duration_sum_monotone(keys, i, j - 1);
        assert(bool_duration_sum(keys, i) == bool_duration_sum(keys, i - 1) + keys[i].duration);
        lemma_bool_walk_in_segment(
            keys, i + 1, j, rem - keys[i].duration, Option::Some(keys[i].value));
    }
}

/// While the elapsed time is inside segment `j` — after segment `j - 1`
/// ends and no later than segment `j` ends — a boolean track still reports
/// the value held from before that segment, key `j - 1`'s value, not key
/// `j`'s: the switch to a key's value is delayed by one segment.
pub proof fn lemma_bool_delayed_switch(keys: Seq<BoolKey>, j: int, elapsed: int)
    requires
        valid_bool_keys(keys),
        1 <= j < keys.len(),
        0 <= elapsed <= bool_duration_sum(keys, j),
        j > 1 ==> elapsed > bool_duration_sum(keys, j - 1),
    ensures
        spec_bool_track_value(keys, elapsed) == Option::Some(keys[j - 1].value),
{
    lemma_bool_walk_in_segment(keys, 1, j, elapsed, Option::None);
}

proof fn lemma_bool_walk_past_end(keys: Seq<BoolKey>, i: int, rem: int, held: Option<bool>)
    requires
        valid_bool_keys(keys),
        2 <= keys.len(),
        1 <= i <= keys.len(),
        i == keys.len() ==> held == Option::Some(keys[keys.len() - 1].value),
        rem > bool_duration_sum(keys, keys.len() - 1) - bool_duration_sum(keys, i - 1),
    ensures
        bool_walk_from(keys, i, rem, held) == Option::Some(keys[keys.len() - 1].value),
    decreases keys.len() - i,
{
    let n = keys.len() as int;
    if i < n {
        lemma_bool_duration_sum_monotone(keys, i, n - 1);
        assert(bool_duration_sum(keys, i) == bool_duration_sum(keys, i - 1) + keys[i].duration);
        lemma_bool_walk_past_end(
            keys, i + 1, rem - keys[i].duration, Option::Some(keys[i].value));
    }
}

/// Strictly past the end of the timeline the walk exhausts the keys and a
/// boolean track reports its final key's value — the value recorded when
/// the last segment was consumed — and keeps doing so for every larger
/// elapsed time.
pub proof fn lemma_bool_value_holds_final(keys: Seq<BoolKey>, elapsed: int)
    requires
        valid_bool_keys(keys),
        2 <= keys.len(),
        elapsed > bool_duration_sum(keys, keys.len() - 1),
    ensures
        spec_bool_track_value(keys, elapsed)
            == Option::Some(keys[keys.len() - 1].value),
{
    lemma_bool_walk_past_end(keys, 1, elapsed, Option::None);
}

/// A boolean track of fewer than two keys never produces a value,
/// whatever the elapsed time.
pub proof fn lemma_bool_short_track_no_value(keys: Seq<BoolKey>, elapsed: int)
    requires
        keys.len() < 2,
    ensures
        spec_bool_track_value(keys, elapsed) == Option::<bool>::None,
{
}

} // verus!
