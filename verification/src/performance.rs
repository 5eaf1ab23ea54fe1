//! A meter of named points in time, for timing the stages of an iteration.

use vstd::prelude::*;

verus! {

/// Unit of the meter's timestamps.
#[derive(Clone, Copy, Debug, PartialEq, Eq, Structural)]
pub enum Setting {
    Ms,
    Micros,
}

impl Setting {
    /// The unit's label.
    pub fn format(&self) -> (r: String)
        ensures
            *self == Setting::Ms ==> r@ == "ms"@,
            *self == Setting::Micros ==> r@ == "micros"@,
    {
        match self {
            Setting::Ms => "ms".to_owned(),
            Setting::Micros => "micros".to_owned(),
        }
    }
}

impl Default for Setting {
    fn default() -> (r: Setting)
        ensures
            r == Setting::Ms,
    {
        Setting::Ms
    }
}

#[verifier::external_type_specification]
#[verifier::external_body]
pub struct ExSystemTime(std::time::SystemTime);

/// `std::time::SystemTime::now`: the system clock's current reading.
/// Nothing is promised of it: it is the time.
#[verifier::external_body]
fn system_time_now() -> std::time::SystemTime {
    std::time::SystemTime::now()
}

/// `SystemTime::duration_since(UNIX_EPOCH)`: the time elapsed from the Unix
/// epoch to the reading, `None` when the reading is earlier than the epoch.
/// Which it is depends on the clock, so nothing more is stated.
#[verifier::external_body]
fn elapsed_since_epoch(t: &std::time::SystemTime) -> Option<std::time::Duration> {
    t.duration_since(std::time::UNIX_EPOCH).ok()
}

/// `Duration::as_secs`: the whole seconds of a duration.
#[verifier::external_body]
fn whole_seconds(d: &std::time::Duration) -> u64 {
    d.as_secs()
}

/// `Duration::subsec_nanos`: the fractional part of a duration in
/// nanoseconds, which the documentation bounds below one second.
#[verifier::external_body]
fn fractional_nanos(d: &std::time::Duration) -> (r: u32)
    ensures
        r < 1_000_000_000,
{
    d.subsec_nanos()
}

/// The system clock as whole seconds and nanoseconds since the Unix
/// epoch; `None` when the clock reads earlier than the epoch.
fn clock_reading() -> (r: Option<(u64, u32)>)
    ensures
        r matches Some((_secs, nanos)) ==> nanos < 1_000_000_000,
{
    let now = system_time_now();
    match elapsed_since_epoch(&now) {
        Some(d) => Some((whole_seconds(&d), fractional_nanos(&d))),
        None => None,
    }
}

/// A clock reading of `secs` seconds and `nanos` nanoseconds, in whole
/// units of `setting`.
pub open spec fn reading_in(setting: Setting, secs: u64, nanos: u32) -> int {
    match setting {
        Setting::Ms => secs * 1000 + nanos / 1_000_000,
        Setting::Micros => secs * 1_000_000 + nanos / 1000,
    }
}

/// `t` is some clock reading, in whole units of `setting`.
pub open spec fn is_clock_reading(setting: Setting, t: u128) -> bool {
    exists|secs: u64, nanos: u32| nanos < 1_000_000_000 && t == #[trigger] reading_in(setting, secs, nanos)
}

/// A clock reading in whole units of `setting`.
pub fn timestamp_from(setting: Setting, secs: u64, nanos: u32) -> (r: u128)
    requires
        nanos < 1_000_000_000,
    ensures
        r == reading_in(setting, secs, nanos),
{
    match setting {
        Setting::Ms => secs as u128 * 1000 + (nanos / 1_000_000) as u128,
        Setting::Micros => secs as u128 * 1_000_000 + (nanos / 1000) as u128,
    }
}

/// Milliseconds since the Unix epoch on the system clock; `None` when the
/// clock reads earlier than the epoch.
pub fn current_timestamp_ms() -> (r: Option<u128>)
    ensures
        r matches Some(t) ==> is_clock_reading(Setting::Ms, t),
{
    match clock_reading() {
        Some((secs, nanos)) => Some(timestamp_from(Setting::Ms, secs, nanos)),
        None => None,
    }
}

/// Microseconds since the Unix epoch on the system clock; `None` when the
/// clock reads earlier than the epoch.
pub fn current_timestamp_micros() -> (r: Option<u128>)
    ensures
        r matches Some(t) ==> is_clock_reading(Setting::Micros, t),
{
    match clock_reading() {
        Some((secs, nanos)) => Some(timestamp_from(Setting::Micros, secs, nanos)),
        None => None,
    }
}

/// Named points in time, in the order they were taken.
#[derive(Debug)]
pub struct PerformanceMeter<'a> {
    /// Every point taken, in order; a later point under a tag supersedes an
    /// earlier one.
    points: Vec<(&'a str, u128)>,
    setting: Setting,
}

proof fn lemma_latest_has<'a>(points: Seq<(&'a str, u128)>, k: int)
    requires
        0 <= k < points.len(),
    ensures
        latest_times(points).contains_key(points[k].0@),
    decreases points.len(),
{
    if k < points.len() - 1 {
        lemma_latest_has(points.drop_last(), k);
        assert(points.drop_last()[k] == points[k]);
    }
}

/// The latest time recorded under each tag.
pub open spec fn latest_times<'a>(points: Seq<(&'a str, u128)>) -> Map<Seq<char>, u128>
    decreases points.len(),
{
    if points.len() == 0 {
        Map::empty()
    } else {
        latest_times(points.drop_last()).insert(points.last().0@, points.last().1)
    }
}

impl<'a> PerformanceMeter<'a> {
    /// The latest time recorded for each tag.
    pub closed spec fn times(&self) -> Map<Seq<char>, u128> {
        latest_times(self.points@)
    }

    /// The tags, in the order their points were taken.
    pub closed spec fn order(&self) -> Seq<Seq<char>> {
        self.points@.map_values(|e: (&'a str, u128)| e.0@)
    }

    /// The meter's unit.
    pub closed spec fn unit(&self) -> Setting {
        self.setting
    }

    /// A meter with no points.
    pub fn new(setting: Setting) -> (r: PerformanceMeter<'a>)
        ensures
            r.times() == Map::<Seq<char>, u128>::empty(),
            r.order() == Seq::<Seq<char>>::empty(),
            r.unit() == setting,
    {
        let r = PerformanceMeter { points: Vec::new(), setting };
        proof {
            assert(r.order() =~= Seq::<Seq<char>>::empty());
        }
        r
    }

    /// The meter's unit.
    pub fn setting(&self) -> (r: Setting)
        ensures
            r == self.unit(),
    {
        self.setting
    }

    /// The current time in the meter's unit; `None` when the clock reads
    /// earlier than the Unix epoch.
    pub fn timestamp(&self) -> (r: Option<u128>)
        ensures
            r matches Some(t) ==> is_clock_reading(self.unit(), t),
    {
        match self.setting {
            Setting::Ms => current_timestamp_ms(),
            Setting::Micros => current_timestamp_micros(),
        }
    }

    /// Records the time `t` under `tag`, replacing an earlier time under the
    /// same tag, and appends `tag` to the order.
    pub fn add_point_at(&mut self, tag: &'a str, t: u128)
        ensures
            final(self).times() == old(self).times().insert(tag@, t),
            final(self).order() == old(self).order().push(tag@),
            final(self).unit() == old(self).unit(),
    {
        let ghost before = self.points@;
        self.points.push((tag, t));
        proof {
            assert(self.points@.drop_last() =~= before);
            assert(self.order() =~= before.map_values(|e: (&'a str, u128)| e.0@).push(tag@));
        }
    }

    /// Records the current time, in the meter's unit, under `tag`, replacing
    /// an earlier time under the same tag, and appends `tag` to the order;
    /// `false`, and the meter unchanged, when the clock reads earlier than
    /// the Unix epoch.
    pub fn add_point(&mut self, tag: &'a str) -> (r: bool)
        ensures
            r ==> exists|t: u128|
                is_clock_reading(old(self).unit(), t) && #[trigger] final(self).times()
                    == old(self).times().insert(tag@, t),
            r ==> final(self).order() == old(self).order().push(tag@),
            !r ==> final(self).times() == old(self).times() && final(self).order() == old(
                self,
            ).order(),
            final(self).unit() == old(self).unit(),
    {
        let now = match self.timestamp() {
            Some(t) => t,
            None => {
                return false;
            },
        };
        self.add_point_at(tag, now);
        true
    }

    /// Forgets every point.
    pub fn clear(&mut self)
        ensures
            final(self).times() == Map::<Seq<char>, u128>::empty(),
            final(self).order() == Seq::<Seq<char>>::empty(),
            final(self).unit() == old(self).unit(),
    {
        self.points = Vec::new();
        proof {
            assert(self.order() =~= Seq::<Seq<char>>::empty());
        }
    }

    /// Whether the meter has a point and the time never goes back from one
    /// point to the next (by the latest time under each tag).
    pub open spec fn measurable(&self) -> bool {
        &&& self.order().len() >= 1
        &&& forall|i: int|
            0 <= i < self.order().len() - 1 ==> self.times()[#[trigger] self.order()[i]]
                <= self.times()[self.order()[i + 1]]
    }

    /// Whether the meter can be measured: it has a point and its time never
    /// goes back from one point to the next.
    pub fn is_measurable(&self) -> (r: bool)
        ensures
            r == self.measurable(),
    {
        self.checked_intervals().is_some()
    }

    /// For each pair of consecutive points, their tags and the time between
    /// them (later minus earlier, by the latest time under each tag).
    pub fn intervals(&self) -> (r: Vec<(&'a str, &'a str, u128)>)
        requires
            self.measurable(),
        ensures
            r@.len() == self.order().len() - 1,
            forall|i: int|
                #![trigger r@[i]]
                0 <= i < r@.len() ==> r@[i].0@ == self.order()[i] && r@[i].1@ == self.order()[i
                    + 1] && r@[i].2 == self.times()[self.order()[i + 1]] - self.times()[self.order()[i]],
    {
        match self.checked_intervals() {
            Some(v) => v,
            None => {
                proof {
                    assert(false);
                }
                Vec::new()
            },
        }
    }

    /// The intervals between consecutive points, `None` when the meter is
    /// not measurable.
    fn checked_intervals(&self) -> (r: Option<Vec<(&'a str, &'a str, u128)>>)
        ensures
            r is Some <==> self.measurable(),
            r matches Some(v) ==> {
                &&& v@.len() == self.order().len() - 1
                &&& forall|i: int|
                    #![trigger v@[i]]
                    0 <= i < v@.len() ==> v@[i].0@ == self.order()[i] && v@[i].1@
                        == self.order()[i + 1] && v@[i].2 == self.times()[self.order()[i + 1]]
                        - self.times()[self.order()[i]]
            },
    {
        let n = self.points.len();
        if n == 0 {
            return None;
        }
        proof {
            assert forall|k: int| 0 <= k < n implies self.times().contains_key(
                #[trigger] self.order()[k],
            ) by {
                lemma_latest_has(self.points@, k);
            }
        }
        let mut out: Vec<(&'a str, &'a str, u128)> = Vec::new();
        let mut i: usize = 0;
        while i < n - 1
            invariant
                n == self.points@.len(),
                n == self.order().len(),
                n >= 1,
                i <= n - 1,
                out@.len() == i,
                forall|k: int| 0 <= k < n ==> self.times().contains_key(#[trigger] self.order()[k]),
                forall|k: int|
                    0 <= k < i ==> self.times()[#[trigger] self.order()[k]] <= self.times()[self.order()[k
                        + 1]],
                forall|k: int|
                    #![trigger out@[k]]
                    0 <= k < i ==> out@[k].0@ == self.order()[k] && out@[k].1@
                        == self.order()[k + 1] && out@[k].2 == self.times()[self.order()[k + 1]]
                        - self.times()[self.order()[k]],
            decreases n - 1 - i,
        {
            let a = self.points[i].0;
            let b = self.points[i + 1].0;
            proof {
                assert(self.order()[i as int] == a@);
                assert(self.order()[i + 1] == b@);
            }
            let current = self.latest_time(a);
            let next = self.latest_time(b);
            if next < current {
                proof {
                    assert(self.times()[self.order()[i as int]] > self.times()[self.order()[i + 1]]);
                }
                return None;
            }
            out.push((a, b, next - current));
            i = i + 1;
        }
        Some(out)
    }

    /// The latest time recorded under a tag that has a point.
    fn latest_time(&self, tag: &str) -> (r: u128)
        requires
            self.times().contains_key(tag@),
        ensures
            r == self.times()[tag@],
    {
        let owned = tag.to_owned();
        let mut i: usize = self.points.len();
        proof {
            assert(self.points@.take(i as int) =~= self.points@);
        }
        while i > 0
            invariant
                i <= self.points@.len(),
                owned@ == tag@,
                self.times().contains_key(tag@),
                latest_times(self.points@.take(i as int)).contains_key(tag@),
                latest_times(self.points@.take(i as int))[tag@] == self.times()[tag@],
            decreases i,
        {
            let ghost prefix = self.points@.take(i as int);
            proof {
                assert(prefix.drop_last() =~= self.points@.take(i - 1));
                assert(prefix.last() == self.points@[i - 1]);
            }
            if self.points[i - 1].0.to_owned() == owned {
                return self.points[i - 1].1;
            }
            i = i - 1;
        }
        proof {
            assert(self.points@.take(0) =~= Seq::<(&'a str, u128)>::empty());
        }
        0
    }
}

} // verus!
