//! Lap timing and per-lap totals.
//!
//! Spans of time are counts of nanoseconds (`u128`). Reading the clock is the
//! only outside step; what is done with a reading is verified here.

use vstd::prelude::*;

verus! {

#[verifier::external_type_specification]
#[verifier::external_body]
pub struct ExInstant(std::time::Instant);

/// Relies on `std::time::Instant::now`: a reading of the monotonic clock.
#[verifier::external_body]
fn clock_now() -> (r: std::time::Instant) {
    std::time::Instant::now()
}

/// Relies on `std::time::Instant::elapsed`: the whole nanoseconds since `t`
/// (any value; the clock decides).
#[verifier::external_body]
fn nanos_since(t: &std::time::Instant) -> (r: u128) {
    t.elapsed().as_nanos()
}

/// `a + b`, or `u128::MAX` where that does not fit.
pub open spec fn sat_add(a: u128, b: u128) -> u128 {
    if a + b > u128::MAX {
        u128::MAX
    } else {
        (a + b) as u128
    }
}

/// `a - b`, or 0 where `b` is larger.
pub open spec fn sat_sub(a: u128, b: u128) -> u128 {
    if a >= b {
        (a - b) as u128
    } else {
        0
    }
}

/// A stopwatch: the start instant and the reading at the last lap.
pub struct StopWatch {
    timer: std::time::Instant,
    last_lap: u128,
}

impl StopWatch {
    /// The reading (nanoseconds since the start) at the last lap.
    pub closed spec fn last_lap(&self) -> u128 {
        self.last_lap
    }

    /// Starts a stopwatch; no lap is taken yet.
    pub fn start() -> (r: StopWatch)
        ensures
            r.last_lap() == 0,
    {
        StopWatch { timer: clock_now(), last_lap: 0 }
    }

    /// Records a lap at reading `now`: returns the span since the last lap
    /// (0 where `now` is earlier) and makes `now` the last lap.
    pub fn record_lap(&mut self, now: u128) -> (r: u128)
        ensures
            r == sat_sub(now, old(self).last_lap()),
            final(self).last_lap() == now,
    {
        let span = if now >= self.last_lap {
            now - self.last_lap
        } else {
            0
        };
        self.last_lap = now;
        span
    }

    /// Takes a lap now: the span since the last lap.
    pub fn lap_time(&mut self, lap: &str) -> (r: u128)
        ensures
            r == sat_sub(final(self).last_lap(), old(self).last_lap()),
    {
        let now = nanos_since(&self.timer);
        self.record_lap(now)
    }

    /// The span since the start, without taking a lap.
    pub fn check_time(&self, lap: &str) -> (r: u128) {
        nanos_since(&self.timer)
    }
}

/// How a span is best shown.
#[derive(Debug, Clone, Copy, PartialEq, Eq, Structural)]
pub enum TimeUnit {
    Micros,
    Millis,
    Seconds,
}

/// The unit a span of `micros` microseconds is shown in: microseconds below a
/// millisecond, milliseconds below a second, seconds above.
pub fn duration_unit(micros: u128) -> (r: TimeUnit)
    ensures
        r == (if micros < 1000 {
            TimeUnit::Micros
        } else if micros < 1000000 {
            TimeUnit::Millis
        } else {
            TimeUnit::Seconds
        }),
{
    if micros < 1000 {
        TimeUnit::Micros
    } else if micros < 1000000 {
        TimeUnit::Millis
    } else {
        TimeUnit::Seconds
    }
}

/// The total time of one named lap, and the number of its first appearance.
#[derive(Debug, Clone)]
pub struct LapTotal {
    pub name: String,
    pub id: u64,
    pub total: u128,
}

/// A lap total as plain values: name, id, total.
pub type LapView = (Seq<char>, u64, u128);

impl View for LapTotal {
    type V = LapView;

    open spec fn view(&self) -> LapView {
        (self.name@, self.id, self.total)
    }
}

/// The views of a sequence of lap totals.
pub open spec fn laps_view(s: Seq<LapTotal>) -> Seq<LapView> {
    s.map_values(|l: LapTotal| l@)
}

/// No two laps share a name.
pub open spec fn names_unique(s: Seq<LapView>) -> bool {
    forall|i: int, j: int| 0 <= i < s.len() && 0 <= j < s.len() && i != j ==> s[i].0 != s[j].0
}

/// Some lap is named `name`.
pub open spec fn has_lap(s: Seq<LapView>, name: Seq<char>) -> bool {
    exists|i: int| 0 <= i < s.len() && #[trigger] s[i].0 == name
}

/// The position of the lap named `name`.
pub open spec fn lap_index(s: Seq<LapView>, name: Seq<char>) -> int {
    choose|i: int| 0 <= i < s.len() && #[trigger] s[i].0 == name
}

/// The laps after adding `time` to lap `name`: its total grows where it is
/// known, else it comes last with id `next_id`.
pub open spec fn add_lap(s: Seq<LapView>, name: Seq<char>, next_id: u64, time: u128) -> Seq<
    LapView,
> {
    if has_lap(s, name) {
        let i = lap_index(s, name);
        s.update(i, (name, s[i].1, sat_add(s[i].2, time)))
    } else {
        s.push((name, next_id, time))
    }
}

/// The laps after merging `o` into `s`, one lap of `o` after the other: a
/// known lap keeps the smaller id and adds the totals, a new one comes last.
pub open spec fn merge_laps(s: Seq<LapView>, o: Seq<LapView>) -> Seq<LapView>
    decreases o.len(),
{
    if o.len() == 0 {
        s
    } else {
        merge_one(merge_laps(s, o.drop_last()), o.last())
    }
}

/// The laps after merging lap `l` into `t`: a known lap keeps the smaller id
/// and adds the totals, a new one comes last.
pub open spec fn merge_one(t: Seq<LapView>, l: LapView) -> Seq<LapView> {
    if has_lap(t, l.0) {
        let i = lap_index(t, l.0);
        t.update(i, (l.0, if t[i].1 <= l.1 { t[i].1 } else { l.1 }, sat_add(t[i].2, l.2)))
    } else {
        t.push(l)
    }
}

/// Ids never decrease along `s`.
pub open spec fn sorted_by_id(s: Seq<LapView>) -> bool {
    forall|i: int, j: int| 0 <= i < j < s.len() ==> s[i].1 <= s[j].1
}

/// Totals per lap name, in order of first appearance.
pub struct StopWatchStats {
    lap_totals: Vec<LapTotal>,
    max_id: u64,
}

impl StopWatchStats {
    /// The lap totals as plain values.
    pub closed spec fn laps(&self) -> Seq<LapView> {
        laps_view(self.lap_totals@)
    }

    /// The id of the last new lap.
    pub closed spec fn max_id(&self) -> u64 {
        self.max_id
    }

    pub open spec fn wf(&self) -> bool {
        names_unique(self.laps())
    }

    /// No laps yet.
    pub fn init() -> (r: StopWatchStats)
        ensures
            r.wf(),
            r.laps().len() == 0,
            r.max_id() == 0,
    {
        let r = StopWatchStats { lap_totals: Vec::new(), max_id: 0 };
        assert(r.laps() =~= Seq::<LapView>::empty());
        r
    }

    /// The position of the lap named `name`, if any.
    fn find(&self, name: &str) -> (r: Option<usize>)
        requires
            self.wf(),
        ensures
            match r {
                Some(i) => i < self.laps().len() && self.laps()[i as int].0 == name@ && lap_index(
                    self.laps(),
                    name@,
                ) == i,
                None => !has_lap(self.laps(), name@),
            },
    {
        let ghost s = self.laps();
        let mut i: usize = 0;
        while i < self.lap_totals.len()
            invariant
                s == self.laps(),
                names_unique(s),
                s.len() == self.lap_totals@.len(),
                i <= s.len(),
                forall|j: int| 0 <= j < i ==> #[trigger] s[j].0 != name@,
            decreases s.len() - i,
        {
            assert(s[i as int] == self.lap_totals@[i as int]@);
            if str_eq(self.lap_totals[i].name.as_str(), name) {
                proof {
                    assert(s[i as int].0 == name@);
                    assert(has_lap(s, name@));
                    let k = lap_index(s, name@);
                    if k != i as int {
                        assert(s[k].0 != s[i as int].0);
                    }
                }
                return Some(i);
            }
            i = i + 1;
        }
        None
    }

    /// Adds `time` to the total of lap `lap` (a new lap gets the next id) and
    /// returns the new total.
    pub fn store_lap(&mut self, lap: &str, time: u128) -> (r: u128)
        requires
            old(self).wf(),
        ensures
            final(self).wf(),
            final(self).laps() == add_lap(old(self).laps(), lap@, final(self).max_id(), time),
            has_lap(old(self).laps(), lap@) ==> final(self).max_id() == old(self).max_id() && r
                == sat_add(old(self).laps()[lap_index(old(self).laps(), lap@)].2, time),
            !has_lap(old(self).laps(), lap@) ==> final(self).max_id() == sat_add_u64(
                old(self).max_id(),
                1,
            ) && r == time,
    {
        let ghost s = self.laps();
        match self.find(lap) {
            Some(i) => {
                let total = self.lap_totals[i].total.saturating_add(time);
                let id = self.lap_totals[i].id;
                let rec = LapTotal { name: String::from_str(lap), id, total };
                self.lap_totals.set(i, rec);
                assert(self.laps() =~= s.update(i as int, (lap@, s[i as int].1, total)));
                total
            },
            None => {
                self.max_id = self.max_id.saturating_add(1);
                let rec = LapTotal { name: String::from_str(lap), id: self.max_id, total: time };
                self.lap_totals.push(rec);
                assert(self.laps() =~= s.push((lap@, self.max_id, time)));
                time
            },
        }
    }

    /// Merges lap `l` into these laps.
    fn merge_lap(&mut self, l: &LapTotal)
        requires
            old(self).wf(),
        ensures
            final(self).wf(),
            final(self).laps() == merge_one(old(self).laps(), l@),
            final(self).max_id() == old(self).max_id(),
    {
        let ghost s = self.laps();
        match self.find(l.name.as_str()) {
            Some(i) => {
                let cur_id = self.lap_totals[i].id;
                let id = if cur_id <= l.id {
                    cur_id
                } else {
                    l.id
                };
                let total = self.lap_totals[i].total.saturating_add(l.total);
                let rec = LapTotal { name: l.name.clone(), id, total };
                self.lap_totals.set(i, rec);
                assert(self.laps() =~= s.update(i as int, (l.name@, id, total)));
            },
            None => {
                let rec = LapTotal { name: l.name.clone(), id: l.id, total: l.total };
                self.lap_totals.push(rec);
                assert(self.laps() =~= s.push(l@));
            },
        }
    }

    /// The total of lap `lap`.
    pub fn lap_total(&self, lap: &str) -> (r: u128)
        requires
            self.wf(),
            has_lap(self.laps(), lap@),
        ensures
            r == self.laps()[lap_index(self.laps(), lap@)].2,
    {
        match self.find(lap) {
            Some(i) => self.lap_totals[i].total,
            None => 0,
        }
    }

    /// The width of the longest lap name, in characters (0 without laps).
    pub fn name_width(&self) -> (r: usize)
        ensures
            forall|i: int| 0 <= i < self.laps().len() ==> #[trigger] self.laps()[i].0.len() <= r,
            self.laps().len() == 0 ==> r == 0,
            self.laps().len() > 0 ==> exists|i: int|
                0 <= i < self.laps().len() && #[trigger] self.laps()[i].0.len() == r,
    {
        let ghost s = self.laps();
        let mut w: usize = 0;
        let mut i: usize = 0;
        while i < self.lap_totals.len()
            invariant
                s == self.laps(),
                s.len() == self.lap_totals@.len(),
                i <= s.len(),
                forall|j: int| 0 <= j < i ==> #[trigger] s[j].0.len() <= w,
                i == 0 ==> w == 0,
                i > 0 ==> exists|j: int| 0 <= j < i && #[trigger] s[j].0.len() == w,
            decreases s.len() - i,
        {
            assert(s[i as int] == self.lap_totals@[i as int]@);
            let n = self.lap_totals[i].name.as_str().unicode_len();
            let ghost old_w = w;
            if n > w || i == 0 {
                w = n;
                assert(s[i as int].0.len() == w);
            } else {
                let ghost j = choose|j: int| 0 <= j < i && #[trigger] s[j].0.len() == old_w;
                assert(s[j].0.len() == w);
            }
            i = i + 1;
        }
        w
    }

    /// The lap totals ordered by id (laps with equal ids keep their order).
    pub fn report(&self) -> (r: Vec<LapTotal>)
        ensures
            laps_view(r@).len() == self.laps().len(),
            sorted_by_id(laps_view(r@)),
            forall|x: LapView| #[trigger]
                laps_view(r@).contains(x) <==> self.laps().contains(x),
    {
        let ghost s = self.laps();
        let mut out: Vec<LapTotal> = Vec::new();
        let mut k: usize = 0;
        while k < self.lap_totals.len()
            invariant
                s == self.laps(),
                s.len() == self.lap_totals@.len(),
                k <= s.len(),
                laps_view(out@).len() == k,
                sorted_by_id(laps_view(out@)),
                forall|x: LapView| #[trigger]
                    laps_view(out@).contains(x) <==> s.subrange(0, k as int).contains(x),
            decreases s.len() - k,
        {
            let ghost o = laps_view(out@);
            let l = &self.lap_totals[k];
            assert(s[k as int] == l@);
            let mut p: usize = 0;
            while p < out.len() && out[p].id <= l.id
                invariant
                    o == laps_view(out@),
                    p <= o.len(),
                    forall|j: int| 0 <= j < p ==> #[trigger] o[j].1 <= l.id,
                decreases o.len() - p,
            {
                p = p + 1;
            }
            let rec = LapTotal { name: l.name.clone(), id: l.id, total: l.total };
            out.insert(p, rec);
            proof {
                let n = laps_view(out@);
                assert(n =~= o.insert(p as int, l@));
                o.insert_ensures(p as int, l@);
                assert forall|i: int, j: int| 0 <= i < j < n.len() implies n[i].1 <= n[j].1 by {
                    if j < p {
                    } else if j == p {
                    } else if i < p {
                        assert(n[j] == o[j - 1]);
                        if p < o.len() {
                            assert(o[p as int].1 > l.id);
                            if j - 1 > p {
                                assert(o[p as int].1 <= o[j - 1].1);
                            }
                        }
                    } else if i == p {
                        assert(n[j] == o[j - 1]);
                        assert(o[p as int].1 > l.id);
                        if j - 1 > p {
                            assert(o[p as int].1 <= o[j - 1].1);
                        }
                    } else {
                        assert(n[i] == o[i - 1]);
                        assert(n[j] == o[j - 1]);
                    }
                }
                assert(s.subrange(0, k + 1) =~= s.subrange(0, k as int).push(l@));
                assert forall|x: LapView| #[trigger] n.contains(x) <==> s.subrange(
                    0,
                    k + 1,
                ).contains(x) by {
                    lemma_push_contains(s.subrange(0, k as int), l@, x);
                    if n.contains(x) {
                        let i = choose|i: int| 0 <= i < n.len() && n[i] == x;
                        if i < p {
                            assert(o[i] == x);
                        } else if i > p {
                            assert(o[i - 1] == x);
                        }
                    }
                    if o.contains(x) {
                        let i = choose|i: int| 0 <= i < o.len() && o[i] == x;
                        if i < p {
                            assert(n[i] == x);
                        } else {
                            assert(n[i + 1] == x);
                        }
                    }
                    if x == l@ {
                        assert(n[p as int] == x);
                    }
                }
            }
            k = k + 1;
        }
        assert(s.subrange(0, s.len() as int) =~= s);
        out
    }
}

/// `a + b`, or `u64::MAX` where that does not fit.
pub open spec fn sat_add_u64(a: u64, b: u64) -> u64 {
    if a + b > u64::MAX {
        u64::MAX
    } else {
        (a + b) as u64
    }
}

/// Whether two strings hold the same characters.
fn str_eq(a: &str, b: &str) -> (r: bool)
    ensures
        r == (a@ == b@),
{
    let n = a.unicode_len();
    let m = b.unicode_len();
    if n != m {
        return false;
    }
    let mut i: usize = 0;
    while i < n
        invariant
            n == a@.len(),
            m == b@.len(),
            n == m,
            i <= n,
            forall|j: int| 0 <= j < i ==> a@[j] == b@[j],
        decreases n - i,
    {
        if a.get_char(i) != b.get_char(i) {
            return false;
        }
        i = i + 1;
    }
    assert(a@ =~= b@);
    true
}

/// A stopwatch with per-lap totals.
pub struct TimeKeeper {
    stop_watch: StopWatch,
    stats: StopWatchStats,
}

impl TimeKeeper {
    /// The lap totals as plain values.
    pub closed spec fn laps(&self) -> Seq<LapView> {
        self.stats.laps()
    }

    /// The id of the last new lap.
    pub closed spec fn max_id(&self) -> u64 {
        self.stats.max_id()
    }

    /// The reading at the last lap.
    pub closed spec fn last_lap(&self) -> u128 {
        self.stop_watch.last_lap()
    }

    pub closed spec fn wf(&self) -> bool {
        self.stats.wf()
    }

    /// Starts the stopwatch, with no laps.
    pub fn init() -> (r: TimeKeeper)
        ensures
            r.wf(),
            r.laps().len() == 0,
            r.max_id() == 0,
            r.last_lap() == 0,
    {
        TimeKeeper { stop_watch: StopWatch::start(), stats: StopWatchStats::init() }
    }

    /// Takes a lap now and adds its span to the total of `lap`; returns that total.
    pub fn lap(&mut self, lap: &str) -> (r: u128)
        requires
            old(self).wf(),
        ensures
            final(self).wf(),
            ({
                let t = sat_sub(final(self).last_lap(), old(self).last_lap());
                &&& final(self).laps() == add_lap(old(self).laps(), lap@, final(self).max_id(), t)
                &&& has_lap(old(self).laps(), lap@) ==> final(self).max_id() == old(self).max_id()
                    && r == sat_add(old(self).laps()[lap_index(old(self).laps(), lap@)].2, t)
                &&& !has_lap(old(self).laps(), lap@) ==> final(self).max_id() == sat_add_u64(
                    old(self).max_id(),
                    1,
                ) && r == t
            }),
    {
        let t = self.stop_watch.lap_time(lap);
        self.stats.store_lap(lap, t)
    }

    /// The total of lap `lap`.
    pub fn lap_totals(&self, lap: &str) -> (r: u128)
        requires
            self.wf(),
            has_lap(self.laps(), lap@),
        ensures
            r == self.laps()[lap_index(self.laps(), lap@)].2,
    {
        self.stats.lap_total(lap)
    }

    /// The lap totals ordered by id.
    pub fn totals(&self) -> (r: Vec<LapTotal>)
        ensures
            laps_view(r@).len() == self.laps().len(),
            sorted_by_id(laps_view(r@)),
            forall|x: LapView| #[trigger] laps_view(r@).contains(x) <==> self.laps().contains(x),
    {
        self.stats.report()
    }

    /// The width of the longest lap name.
    pub fn name_width(&self) -> (r: usize)
        ensures
            forall|i: int| 0 <= i < self.laps().len() ==> #[trigger] self.laps()[i].0.len() <= r,
            self.laps().len() == 0 ==> r == 0,
            self.laps().len() > 0 ==> exists|i: int|
                0 <= i < self.laps().len() && #[trigger] self.laps()[i].0.len() == r,
    {
        self.stats.name_width()
    }

    /// Merges the lap totals of `time_keeper` into these, lap after lap: a
    /// known lap keeps the smaller id and adds the totals, a new one comes last.
    pub fn merge(&mut self, time_keeper: TimeKeeper)
        requires
            old(self).wf(),
        ensures
            final(self).wf(),
            final(self).laps() == merge_laps(old(self).laps(), time_keeper.laps()),
            final(self).max_id() == old(self).max_id(),
            final(self).last_lap() == old(self).last_lap(),
    {
        let ghost o = time_keeper.laps();
        let other = &time_keeper.stats.lap_totals;
        let mut k: usize = 0;
        while k < other.len()
            invariant
                o == laps_view(other@),
                k <= o.len(),
                self.wf(),
                self.laps() == merge_laps(old(self).laps(), o.subrange(0, k as int)),
                self.max_id() == old(self).max_id(),
                self.last_lap() == old(self).last_lap(),
            decreases o.len() - k,
        {
            assert(o.subrange(0, k + 1).drop_last() =~= o.subrange(0, k as int));
            assert(o[k as int] == other@[k as int]@);
            self.stats.merge_lap(&other[k]);
            k = k + 1;
        }
        assert(o.subrange(0, o.len() as int) =~= o);
    }
}

proof fn lemma_push_contains<A>(s: Seq<A>, p: A, q: A)
    ensures
        s.push(p).contains(q) <==> (s.contains(q) || q == p),
{
    if s.contains(q) {
        let k = choose|k: int| 0 <= k < s.len() && s[k] == q;
        assert(s.push(p)[k] == q);
    }
    if q == p {
        assert(s.push(p)[s.len() as int] == q);
    }
    if s.push(p).contains(q) {
        let k = choose|k: int| 0 <= k < s.len() + 1 && s.push(p)[k] == q;
        if k < s.len() {
            assert(s[k] == q);
        }
    }
}

} // verus!
