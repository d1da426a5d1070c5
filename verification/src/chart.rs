//! A fixed-capacity, multi-series point window with running statistics.
//!
//! `ChartData` holds one age-ordered point sequence per series. All series
//! share a single capacity pool: when the pool is full, a push first evicts
//! the globally oldest point, whichever series holds it. Every push then ages
//! the whole window by shifting each `x` coordinate down one tick and appends
//! the new point at the fixed seed position, so a point drifts from the seed
//! down to the left edge of the axis by the time the window has filled.
//!
//! `x` coordinates count window ticks: the seed position equals the total
//! capacity, the x axis spans `[0, capacity]`, and one tick passes per push.
//! `y` values are carried in hundredths of the displayed unit, so formatting
//! with two decimal places is exact integer arithmetic.

use vstd::arithmetic::div_mod::{lemma_fundamental_div_mod, lemma_fundamental_div_mod_converse};
use vstd::prelude::*;

use crate::fmt::{fixed2_digits, fmt_fixed2, fmt_label, label_digits};

verus! {

/// Total number of points a chart may hold across all series combined.
pub const RESOLUTION: usize = 512;

/// Largest sample magnitude the buffer accepts, in hundredths of a unit.
/// Keeping samples inside this range keeps every derived quantity (axis
/// padding, fixed-point rendering) inside `i64`.
pub const Y_LIMIT: i64 = 1_000_000_000_000_000_000;

/// Minimum statistic before any point is stored: a high out-of-range
/// sentinel (100 units), so the very first push establishes real bounds.
pub const INITIAL_MIN: i64 = 10_000;

/// Maximum statistic before any point is stored.
pub const INITIAL_MAX: i64 = 0;

/// Which quantity a chart displays; decides titles and unit suffixes.
#[derive(Debug, Eq, PartialEq, Copy, Clone, Structural)]
pub enum ChartType {
    Voltage,
    EnergyRate,
    Temperature,
}

/// Unit preference for temperature-like quantities.
#[derive(Debug, Eq, PartialEq, Copy, Clone, Structural)]
pub enum Units {
    Human,
    Si,
}

/// Display color of one series, resolved to a terminal color by the renderer.
#[derive(Debug, Eq, PartialEq, Copy, Clone, Structural)]
pub enum ChartColor {
    Green,
    Red,
}

/// Charge state of the battery a chart belongs to; decides the energy-rate
/// chart's title and which of its series receives a sample.
#[derive(Debug, Eq, PartialEq, Copy, Clone, Structural)]
pub enum BatteryState {
    Unknown,
    Charging,
    Discharging,
    Empty,
    Full,
}

/// One stored sample: `x` is the age position in window ticks, `y` the value
/// in hundredths of a unit.
#[derive(Debug, Eq, PartialEq, Copy, Clone, Structural)]
pub struct Point {
    pub x: u64,
    pub y: i64,
}

/// The mathematical view of the stored series: one point sequence per series.
pub open spec fn sets_of(v: Seq<Vec<Point>>) -> Seq<Seq<Point>> {
    v.map_values(|s: Vec<Point>| s@)
}

/// `(i, j)` addresses a stored point: series `i`, position `j`.
pub open spec fn valid_cell(s: Seq<Seq<Point>>, i: int, j: int) -> bool {
    0 <= i < s.len() && 0 <= j < s[i].len()
}

/// Total number of points stored across all series.
pub open spec fn total_len(s: Seq<Seq<Point>>) -> int
    decreases s.len(),
{
    if s.len() == 0 {
        0
    } else {
        total_len(s.drop_last()) + s.last().len()
    }
}

/// Every stored `x` lies in the window `(cap - total, cap]`: the newest
/// possible position is the seed `cap`, and with at most `total` distinct
/// ages present nothing has drifted further than `total - 1` ticks.
pub open spec fn xs_in_window(s: Seq<Seq<Point>>, cap: int) -> bool {
    forall|i: int, j: int|
        #[trigger] valid_cell(s, i, j) ==> cap - total_len(s) < s[i][j].x as int <= cap
}

/// Within a series, points stand in age order: strictly increasing `x`, so
/// the front is the series's oldest point and the back its newest.
pub open spec fn series_ordered(s: Seq<Seq<Point>>) -> bool {
    forall|i: int, j1: int, j2: int|
        0 <= i < s.len() && 0 <= j1 < j2 < s[i].len() ==> (#[trigger] s[i][j1].x) < (
        #[trigger] s[i][j2].x)
}

/// Across all series, no two stored points share an `x`: each push creates
/// exactly one point per tick, so ages are pairwise distinct.
pub open spec fn xs_distinct(s: Seq<Seq<Point>>) -> bool {
    forall|i1: int, j1: int, i2: int, j2: int|
        #[trigger] valid_cell(s, i1, j1) && #[trigger] valid_cell(s, i2, j2) && (i1 != i2 || j1
            != j2) ==> s[i1][j1].x != s[i2][j2].x
}

/// Every stored `y` is within the accepted sample range.
pub open spec fn ys_bounded(s: Seq<Seq<Point>>) -> bool {
    forall|i: int, j: int|
        #[trigger] valid_cell(s, i, j) ==> -Y_LIMIT <= s[i][j].y <= Y_LIMIT
}

/// Some stored point has value `v`.
pub open spec fn has_y(s: Seq<Seq<Point>>, v: int) -> bool {
    exists|i: int, j: int| #[trigger] valid_cell(s, i, j) && s[i][j].y == v
}

/// `v` is the true minimum `y` over all stored points.
pub open spec fn is_min_y(s: Seq<Seq<Point>>, v: int) -> bool {
    has_y(s, v) && forall|i: int, j: int| #[trigger] valid_cell(s, i, j) ==> v <= s[i][j].y
}

/// `v` is the true maximum `y` over all stored points.
pub open spec fn is_max_y(s: Seq<Seq<Point>>, v: int) -> bool {
    has_y(s, v) && forall|i: int, j: int| #[trigger] valid_cell(s, i, j) ==> s[i][j].y <= v
}

/// The series an eviction removes from: the first series whose front point
/// has the smallest `x` among all series fronts (empty series skipped). The
/// window keeps ages pairwise distinct, so the minimum is in fact unique;
/// taking the first series encountered makes the choice deterministic
/// regardless.
pub open spec fn evict_index(s: Seq<Seq<Point>>) -> int
    decreases s.len(),
{
    if s.len() <= 1 {
        0
    } else {
        let e = evict_index(s.take(s.len() - 1));
        let last = s.len() - 1;
        if s[last].len() > 0 && (s[e].len() == 0 || s[last][0].x < s[e][0].x) {
            last
        } else {
            e
        }
    }
}

/// One series after the window ages a tick: every `x` shifted down by one.
pub open spec fn aged_series(s: Seq<Point>) -> Seq<Point> {
    Seq::new(s.len(), |j: int| Point { x: (s[j].x - 1) as u64, y: s[j].y })
}

/// The stored series after the eviction step of a push: when the pool is
/// full, the globally oldest point leaves its series; otherwise nothing
/// changes.
pub open spec fn trimmed_sets(s: Seq<Seq<Point>>, cap: int) -> Seq<Seq<Point>> {
    if total_len(s) == cap {
        s.update(evict_index(s), s[evict_index(s)].drop_first())
    } else {
        s
    }
}

/// The stored series after one push of `value` into series `index`, given
/// capacity `cap`: when the pool is full the globally oldest point is
/// removed first, then the whole window ages one tick, then the new point is
/// appended at the seed position `x = cap`.
pub open spec fn pushed_sets(s: Seq<Seq<Point>>, cap: int, index: int, value: i64) -> Seq<
    Seq<Point>,
> {
    let trimmed = trimmed_sets(s, cap);
    let aged = Seq::new(trimmed.len(), |i: int| aged_series(trimmed[i]));
    aged.update(index, aged[index].push(Point { x: cap as u64, y: value }))
}

/// A fixed-capacity, multi-series time-series window with running min/max
/// statistics, ready to drive a line chart.
#[derive(Debug)]
pub struct ChartData {
    /// Unit preference consulted when formatting temperature values.
    pub units: Units,
    /// The quantity this chart displays.
    pub chart_type: ChartType,
    /// Whether the chart currently holds meaningful data. A chart is
    /// disabled when its data source is absent; axis-bound queries then
    /// report degenerate bounds and formatted values report a sentinel.
    pub enabled: bool,
    /// Charge state of the owning battery, for the energy-rate title.
    pub battery_state: BatteryState,
    /// One age-ordered point sequence per series.
    pub points_sets: Vec<Vec<Point>>,
    /// Display color of each series, parallel to `points_sets`.
    pub colors: Vec<ChartColor>,
    /// The most recently pushed value, across any series.
    pub value_latest: i64,
    /// Minimum `y` over all stored points (`INITIAL_MIN` when none).
    pub value_min: i64,
    /// Maximum `y` over all stored points (`INITIAL_MAX` when none).
    pub value_max: i64,
    /// Shared bound on the total number of stored points.
    pub total_capacity: usize,
}

impl ChartData {
    /// The mathematical view of the stored series.
    pub open spec fn sets(self) -> Seq<Seq<Point>> {
        sets_of(self.points_sets@)
    }

    pub open spec fn capacity(self) -> int {
        self.total_capacity as int
    }

    pub open spec fn series_count(self) -> int {
        self.points_sets@.len() as int
    }

    pub open spec fn total_points(self) -> int {
        total_len(self.sets())
    }

    /// The structural window invariant together with exact statistics:
    /// bounded occupancy, age-ordered series, pairwise distinct ages inside
    /// the sliding window, and `value_min`/`value_max` equal to the true
    /// min/max over all stored points whenever any point is stored.
    pub open spec fn well_formed(self) -> bool {
        &&& 1 <= self.capacity()
        &&& self.colors@.len() == self.points_sets@.len()
        &&& total_len(self.sets()) <= self.capacity()
        &&& xs_in_window(self.sets(), self.capacity())
        &&& series_ordered(self.sets())
        &&& xs_distinct(self.sets())
        &&& ys_bounded(self.sets())
        &&& -Y_LIMIT <= self.value_latest <= Y_LIMIT
        &&& -Y_LIMIT <= self.value_min <= Y_LIMIT
        &&& -Y_LIMIT <= self.value_max <= Y_LIMIT
        &&& total_len(self.sets()) > 0 ==> is_min_y(self.sets(), self.value_min as int)
            && is_max_y(self.sets(), self.value_max as int)
    }

    /// Lower y-axis bound: one unit of padding below the minimum, floored,
    /// and clamped to no less than -1; degenerate 0 when disabled.
    pub open spec fn y_lower_spec(self) -> int {
        if self.enabled {
            let f = (self.value_min - 100) / 100;
            if f < 0 {
                -1
            } else {
                f
            }
        } else {
            0
        }
    }

    /// Upper y-axis bound: one unit of padding above the maximum, rounded
    /// up; degenerate 0 when disabled.
    pub open spec fn y_upper_spec(self) -> int {
        if self.enabled {
            (self.value_max + 199) / 100
        } else {
            0
        }
    }

    /// A chart over `colors.len()` series sharing a pool of `capacity`
    /// points, initially empty, enabled, with sentinel statistics.
    pub fn with_capacity(
        units: Units,
        chart_type: ChartType,
        colors: Vec<ChartColor>,
        capacity: usize,
    ) -> (r: ChartData)
        requires
            capacity >= 1,
        ensures
            r.well_formed(),
            r.units == units,
            r.chart_type == chart_type,
            r.enabled,
            r.battery_state == BatteryState::Unknown,
            r.colors == colors,
            r.sets().len() == colors@.len(),
            r.total_points() == 0,
            forall|i: int| 0 <= i < r.sets().len() ==> #[trigger] r.sets()[i] =~= Seq::<
                Point,
            >::empty(),
            r.value_latest == 0,
            r.value_min == INITIAL_MIN,
            r.value_max == INITIAL_MAX,
            r.total_capacity == capacity,
    {
        let mut points_sets: Vec<Vec<Point>> = Vec::new();
        let mut i: usize = 0;
        while i < colors.len()
            invariant
                i <= colors@.len(),
                points_sets@.len() == i as int,
                forall|k: int| 0 <= k < i as int ==> #[trigger] points_sets@[k]@.len() == 0,
            decreases colors@.len() - i,
        {
            points_sets.push(Vec::new());
            i += 1;
        }
        let r = ChartData {
            units,
            chart_type,
            enabled: true,
            battery_state: BatteryState::Unknown,
            points_sets,
            colors,
            value_latest: 0,
            value_min: INITIAL_MIN,
            value_max: INITIAL_MAX,
            total_capacity: capacity,
        };
        proof {
            lemma_total_len_all_empty(r.sets());
        }
        r
    }

    /// A chart with the design capacity shared by all live charts.
    pub fn new(units: Units, chart_type: ChartType, colors: Vec<ChartColor>) -> (r: ChartData)
        ensures
            r.well_formed(),
            r.units == units,
            r.chart_type == chart_type,
            r.enabled,
            r.battery_state == BatteryState::Unknown,
            r.colors == colors,
            r.sets().len() == colors@.len(),
            r.total_points() == 0,
            r.value_latest == 0,
            r.value_min == INITIAL_MIN,
            r.value_max == INITIAL_MAX,
            r.total_capacity == RESOLUTION,
    {
        ChartData::with_capacity(units, chart_type, colors, RESOLUTION)
    }

    /// Marks the chart's data source as present or absent. Stored points are
    /// kept either way; only the reported bounds and formatted value change.
    pub fn enabled(&mut self, value: bool)
        ensures
            *final(self) == (ChartData { enabled: value, ..*old(self) }),
            old(self).well_formed() ==> final(self).well_formed(),
    {
        self.enabled = value;
    }

    /// Records the owning battery's charge state for title selection.
    pub fn battery_state(&mut self, value: BatteryState)
        ensures
            *final(self) == (ChartData { battery_state: value, ..*old(self) }),
            old(self).well_formed() ==> final(self).well_formed(),
    {
        self.battery_state = value;
    }

    /// Fixed x-axis range: seed position down to the scroll-out edge. The
    /// axis is independent of the stored data.
    pub fn x_bounds(&self) -> (r: (u64, u64))
        ensures
            r.0 == 0,
            r.1 == self.total_capacity as u64,
    {
        (0, self.total_capacity as u64)
    }

    fn y_lower(&self) -> (r: i64)
        requires
            self.well_formed(),
        ensures
            r as int == self.y_lower_spec(),
    {
        if self.enabled {
            let f = floor_div100(self.value_min - 100);
            if f < 0 {
                -1
            } else {
                f
            }
        } else {
            0
        }
    }

    fn y_upper(&self) -> (r: i64)
        requires
            self.well_formed(),
        ensures
            r as int == self.y_upper_spec(),
    {
        if self.enabled {
            floor_div100(self.value_max + 199)
        } else {
            0
        }
    }

    /// Y-axis range in whole units: the padded true extremes when enabled,
    /// the degenerate range `[0, 0]` when disabled.
    pub fn y_bounds(&self) -> (r: (i64, i64))
        requires
            self.well_formed(),
        ensures
            r.0 as int == self.y_lower_spec(),
            r.1 as int == self.y_upper_spec(),
    {
        (self.y_lower(), self.y_upper())
    }

    /// The two y-axis bounds formatted as integers, `[lower, upper]`.
    pub fn y_labels(&self) -> (r: Vec<String>)
        requires
            self.well_formed(),
        ensures
            r@.len() == 2,
            r@[0]@ == label_digits(self.y_lower_spec()),
            r@[1]@ == label_digits(self.y_upper_spec()),
    {
        let mut r: Vec<String> = Vec::new();
        r.push(fmt_label(self.y_lower()));
        r.push(fmt_label(self.y_upper()));
        r
    }

    /// The chart title: the displayed quantity, phrased for the energy-rate
    /// chart after the battery's charge state.
    pub fn title(&self) -> (r: &'static str)
        ensures
            r@ == title_chars(self.chart_type, self.battery_state),
    {
        match self.chart_type {
            ChartType::Voltage => "Voltage",
            ChartType::EnergyRate => match self.battery_state {
                BatteryState::Charging => "Charging with",
                BatteryState::Discharging => "Discharging with",
                _ => "Consumption",
            },
            ChartType::Temperature => "Temperature",
        }
    }
}

impl ChartData {
    /// The number of points currently stored across all series.
    pub fn point_count(&self) -> (t: usize)
        requires
            total_len(self.sets()) <= usize::MAX,
        ensures
            t as int == total_len(self.sets()),
    {
        let ghost s = self.sets();
        let mut t: usize = 0;
        let mut i: usize = 0;
        while i < self.points_sets.len()
            invariant
                i as int <= s.len(),
                t as int == total_len(s.take(i as int)),
            decreases s.len() - i as int,
        {
            proof {
                lemma_total_len_take_step(s, i as int);
                lemma_total_len_take_le(s, i as int + 1);
                assert(s[i as int] == self.points_sets@[i as int]@);
            }
            t = t + self.points_sets[i].len();
            i += 1;
        }
        proof {
            assert(s.take(s.len() as int) =~= s);
        }
        t
    }

    /// The series index an eviction would remove from: the first series
    /// whose front point has the smallest `x` among all series fronts.
    fn find_oldest(&self) -> (e: usize)
        requires
            self.points_sets@.len() > 0,
        ensures
            e as int == evict_index(self.sets()),
            (e as int) < self.sets().len(),
    {
        let ghost s = self.sets();
        let mut e: usize = 0;
        let mut i: usize = 1;
        while i < self.points_sets.len()
            invariant
                1 <= i as int <= s.len(),
                (e as int) < i as int,
                e as int == evict_index(s.take(i as int)),
            decreases s.len() - i as int,
        {
            proof {
                assert(s.take(i as int + 1).take(i as int) =~= s.take(i as int));
                assert(forall|k: int|
                    0 <= k <= i as int ==> #[trigger] s.take(i as int + 1)[k] == s[k]);
                assert(s[i as int] == self.points_sets@[i as int]@);
                assert(s[e as int] == self.points_sets@[e as int]@);
            }
            let cur = &self.points_sets[i];
            let best = &self.points_sets[e];
            if !cur.is_empty() && (best.is_empty() || cur[0].x < best[0].x) {
                e = i;
            }
            i += 1;
        }
        proof {
            assert(s.take(s.len() as int) =~= s);
        }
        e
    }
    /// Accepts one sample for the series at `series_index`. Exactly in this
    /// order: when the pool is full, the globally oldest point is evicted;
    /// the whole window ages one tick; the sample is recorded as the latest
    /// value and appended at the seed position; and the min/max statistics
    /// are recomputed exactly over everything now stored.
    pub fn push(&mut self, value: i64, series_index: usize)
        requires
            old(self).well_formed(),
            (series_index as int) < old(self).series_count(),
            -Y_LIMIT <= value <= Y_LIMIT,
        ensures
            final(self).well_formed(),
            final(self).sets() == pushed_sets(
                old(self).sets(),
                old(self).capacity(),
                series_index as int,
                value,
            ),
            final(self).value_latest == value,
            final(self).total_points() == if old(self).total_points() == old(self).capacity() {
                old(self).capacity()
            } else {
                old(self).total_points() + 1
            },
            is_min_y(final(self).sets(), final(self).value_min as int),
            is_max_y(final(self).sets(), final(self).value_max as int),
            final(self).units == old(self).units,
            final(self).chart_type == old(self).chart_type,
            final(self).enabled == old(self).enabled,
            final(self).battery_state == old(self).battery_state,
            final(self).colors == old(self).colors,
            final(self).total_capacity == old(self).total_capacity,
            final(self).series_count() == old(self).series_count(),
    {
        let ghost s0 = self.sets();
        let ghost cap = self.capacity();
        proof {
            lemma_total_len_nonneg(s0);
            lemma_push_shape(s0, cap, series_index as int, value);
        }
        let total = self.point_count();

        // Eviction: when the pool is full, the globally oldest point leaves.
        if total == self.total_capacity {
            proof {
                if s0.len() == 0 {
                    assert(total_len(s0) == 0);
                }
                lemma_evicted_is_strict_min(s0);
            }
            let e = self.find_oldest();
            let ghost pv0 = self.points_sets@;
            let mut evicted_series = self.points_sets.remove(e);
            proof {
                assert(evicted_series@ == s0[e as int]);
            }
            evicted_series.remove(0);
            let ghost tvec = evicted_series;
            self.points_sets.insert(e, evicted_series);
            proof {
                pv0.remove_ensures(e as int);
                pv0.remove(e as int).insert_ensures(e as int, tvec);
                assert(tvec@ =~= s0[e as int].drop_first());
                assert forall|k: int|
                    0 <= k < trimmed_sets(s0, cap).len() implies #[trigger] self.points_sets@[k]@
                    == trimmed_sets(s0, cap)[k] by {
                    if k < e as int {
                        assert(self.points_sets@[k] == pv0[k]);
                    } else if k == e as int {
                        assert(self.points_sets@[k] == tvec);
                    } else {
                        assert(self.points_sets@[k] == pv0.remove(e as int)[k - 1]);
                        assert(pv0.remove(e as int)[k - 1] == pv0[k]);
                    }
                }
                assert(self.sets() =~= trimmed_sets(s0, cap));
            }
        }
        let ghost trimmed = trimmed_sets(s0, cap);
        proof {
            lemma_trimmed_shape(s0, cap);
            assert(self.sets() == trimmed);
        }

        // Aging: the whole window scrolls one tick towards the axis edge.
        let n = self.points_sets.len();
        let mut aged_sets: Vec<Vec<Point>> = Vec::new();
        let mut i: usize = 0;
        while i < n
            invariant
                n as int == trimmed.len(),
                self.sets() == trimmed,
                i as int <= trimmed.len(),
                aged_sets@.len() == i as int,
                forall|k: int|
                    0 <= k < i as int ==> #[trigger] aged_sets@[k]@ == aged_series(trimmed[k]),
            decreases trimmed.len() - i as int,
        {
            let row = series_row(&self.points_sets, i);
            let mut nv: Vec<Point> = Vec::new();
            let mut j: usize = 0;
            while j < row.len()
                invariant
                    row@ == trimmed[i as int],
                    (i as int) < trimmed.len(),
                    j as int <= trimmed[i as int].len(),
                    nv@ == aged_series(trimmed[i as int]).take(j as int),
                decreases row@.len() - j as int,
            {
                let p = row[j];
                proof {
                    assert(valid_cell(trimmed, i as int, j as int));
                }
                nv.push(Point { x: p.x - 1, y: p.y });
                proof {
                    assert(nv@ =~= aged_series(trimmed[i as int]).take(j as int + 1));
                }
                j += 1;
            }
            proof {
                assert(nv@ =~= aged_series(trimmed[i as int]));
            }
            aged_sets.push(nv);
            i += 1;
        }
        self.points_sets = aged_sets;
        let ghost s2 = Seq::new(trimmed.len(), |k: int| aged_series(trimmed[k]));
        proof {
            assert(self.sets() =~= s2);
        }

        // Record the sample and seed it at the window's newest position.
        self.value_latest = value;
        let seed: u64 = self.total_capacity as u64;
        let ghost pv1 = self.points_sets@;
        let mut target = self.points_sets.remove(series_index);
        target.push(Point { x: seed, y: value });
        let ghost tvec2 = target;
        self.points_sets.insert(series_index, target);
        proof {
            pv1.remove_ensures(series_index as int);
            pv1.remove(series_index as int).insert_ensures(series_index as int, tvec2);
            assert(tvec2@ == s2[series_index as int].push(Point { x: cap as u64, y: value }));
            let fin = pushed_sets(s0, cap, series_index as int, value);
            assert forall|k: int| 0 <= k < fin.len() implies #[trigger] self.points_sets@[k]@
                == fin[k] by {
                if k < series_index as int {
                    assert(self.points_sets@[k] == pv1[k]);
                } else if k == series_index as int {
                    assert(self.points_sets@[k] == tvec2);
                } else {
                    assert(self.points_sets@[k] == pv1.remove(series_index as int)[k - 1]);
                    assert(pv1.remove(series_index as int)[k - 1] == pv1[k]);
                }
            }
            assert(self.sets() =~= fin);
        }

        // Exact statistics over everything now stored.
        let stats = scan_stats(&self.points_sets);
        match stats {
            Some(mm) => {
                self.value_min = mm.0;
                self.value_max = mm.1;
            },
            None => {
                proof {
                    assert(false);
                }
            },
        }
        proof {
            let fs = self.sets();
            let (a0, b0) = choose|a: int, b: int|
                #[trigger] valid_cell(fs, a, b) && fs[a][b].y == self.value_min as int;
            assert(valid_cell(fs, a0, b0));
            let (a1, b1) = choose|a: int, b: int|
                #[trigger] valid_cell(fs, a, b) && fs[a][b].y == self.value_max as int;
            assert(valid_cell(fs, a1, b1));
        }
    }
}

/// `(i, j)` addresses a point the statistics scan has already visited when
/// it stands at series `a`, position `b`.
pub open spec fn prefix_cell(s: Seq<Seq<Point>>, a: int, b: int, i: int, j: int) -> bool {
    valid_cell(s, i, j) && (i < a || (i == a && j < b))
}

/// One full scan over all stored points: the exact minimum and maximum `y`,
/// or nothing when the window is empty.
fn scan_stats(points_sets: &Vec<Vec<Point>>) -> (r: Option<(i64, i64)>)
    ensures
        match r {
            Some(mm) => is_min_y(sets_of(points_sets@), mm.0 as int) && is_max_y(
                sets_of(points_sets@),
                mm.1 as int,
            ),
            None => total_len(sets_of(points_sets@)) == 0,
        },
{
    let ghost s = sets_of(points_sets@);
    let mut found = false;
    let mut mn: i64 = 0;
    let mut mx: i64 = 0;
    let mut i: usize = 0;
    while i < points_sets.len()
        invariant
            i as int <= s.len(),
            !found ==> forall|p: int, q: int| !(#[trigger] prefix_cell(s, i as int, 0, p, q)),
            found ==> exists|p: int, q: int|
                #[trigger] prefix_cell(s, i as int, 0, p, q) && s[p][q].y == mn as int,
            found ==> exists|p: int, q: int|
                #[trigger] prefix_cell(s, i as int, 0, p, q) && s[p][q].y == mx as int,
            forall|p: int, q: int|
                #[trigger] prefix_cell(s, i as int, 0, p, q) ==> mn as int <= s[p][q].y
                    <= mx as int,
        decreases s.len() - i as int,
    {
        let row = series_row(points_sets, i);
        proof {
            assert(s[i as int] == points_sets@[i as int]@);
        }
        let mut j: usize = 0;
        while j < row.len()
            invariant
                j as int <= s[i as int].len(),
                row@ == s[i as int],
                (i as int) < s.len(),
                !found ==> forall|p: int, q: int|
                    !(#[trigger] prefix_cell(s, i as int, j as int, p, q)),
                found ==> exists|p: int, q: int|
                    #[trigger] prefix_cell(s, i as int, j as int, p, q) && s[p][q].y == mn as int,
                found ==> exists|p: int, q: int|
                    #[trigger] prefix_cell(s, i as int, j as int, p, q) && s[p][q].y == mx as int,
                forall|p: int, q: int|
                    #[trigger] prefix_cell(s, i as int, j as int, p, q) ==> mn as int <= s[p][q].y
                        <= mx as int,
            decreases s[i as int].len() - j as int,
        {
            let y = row[j].y;
            let ghost old_found = found;
            let ghost old_mn = mn;
            let ghost old_mx = mx;
            if !found {
                found = true;
                mn = y;
                mx = y;
            } else {
                if y < mn {
                    mn = y;
                }
                if y > mx {
                    mx = y;
                }
            }
            proof {
                assert(valid_cell(s, i as int, j as int));
                assert(prefix_cell(s, i as int, j as int + 1, i as int, j as int));
                if old_found {
                    if mn == old_mn {
                        let (p0, q0) = choose|p: int, q: int|
                            #[trigger] prefix_cell(s, i as int, j as int, p, q) && s[p][q].y
                                == old_mn as int;
                        assert(prefix_cell(s, i as int, j as int + 1, p0, q0));
                    }
                    if mx == old_mx {
                        let (p0, q0) = choose|p: int, q: int|
                            #[trigger] prefix_cell(s, i as int, j as int, p, q) && s[p][q].y
                                == old_mx as int;
                        assert(prefix_cell(s, i as int, j as int + 1, p0, q0));
                    }
                }
                assert forall|p: int, q: int|
                    #[trigger] prefix_cell(s, i as int, j as int + 1, p, q) implies mn as int
                    <= s[p][q].y <= mx as int by {
                    if p == i as int && q == j as int {
                    } else {
                        assert(prefix_cell(s, i as int, j as int, p, q));
                    }
                }
            }
            j += 1;
        }
        proof {
            if found {
                let (p0, q0) = choose|p: int, q: int|
                    #[trigger] prefix_cell(s, i as int, s[i as int].len() as int, p, q)
                        && s[p][q].y == mn as int;
                assert(prefix_cell(s, i as int + 1, 0, p0, q0));
                let (p1, q1) = choose|p: int, q: int|
                    #[trigger] prefix_cell(s, i as int, s[i as int].len() as int, p, q)
                        && s[p][q].y == mx as int;
                assert(prefix_cell(s, i as int + 1, 0, p1, q1));
            }
            assert forall|p: int, q: int|
                #[trigger] prefix_cell(s, i as int + 1, 0, p, q) implies prefix_cell(
                s,
                i as int,
                s[i as int].len() as int,
                p,
                q,
            ) by {}
        }
        i += 1;
    }
    if found {
        proof {
            let (p0, q0) = choose|p: int, q: int|
                #[trigger] prefix_cell(s, s.len() as int, 0, p, q) && s[p][q].y == mn as int;
            assert(valid_cell(s, p0, q0));
            let (p1, q1) = choose|p: int, q: int|
                #[trigger] prefix_cell(s, s.len() as int, 0, p, q) && s[p][q].y == mx as int;
            assert(valid_cell(s, p1, q1));
            assert forall|p: int, q: int| #[trigger] valid_cell(s, p, q) implies mn as int
                <= s[p][q].y <= mx as int by {
                assert(prefix_cell(s, s.len() as int, 0, p, q));
            }
        }
        Some((mn, mx))
    } else {
        proof {
            assert forall|k: int| 0 <= k < s.len() implies (#[trigger] s[k]).len() == 0 by {
                if s[k].len() > 0 {
                    assert(prefix_cell(s, s.len() as int, 0, k, 0));
                }
            }
            lemma_total_len_all_empty(s);
        }
        None
    }
}

/// A borrow of one series, with its view pinned to the window's view.
fn series_row(points_sets: &Vec<Vec<Point>>, i: usize) -> (r: &Vec<Point>)
    requires
        (i as int) < points_sets@.len(),
    ensures
        r@ == sets_of(points_sets@)[i as int],
{
    &points_sets[i]
}

/// The unit suffix shown after a formatted value of a displayed quantity.
pub open spec fn suffix_chars(t: ChartType, u: Units) -> Seq<char> {
    match t {
        ChartType::Voltage => "V"@,
        ChartType::EnergyRate => "W"@,
        ChartType::Temperature => match u {
            Units::Human => "°C"@,
            Units::Si => "K"@,
        },
    }
}

impl ChartData {
    /// The latest value formatted to two decimal places with the chart's
    /// unit suffix, or the unavailable sentinel when the chart is disabled.
    pub open spec fn current_chars(self) -> Seq<char> {
        if self.enabled {
            fixed2_digits(self.value_latest as int) + " "@ + suffix_chars(
                self.chart_type,
                self.units,
            )
        } else {
            "NOT AVAILABLE"@
        }
    }

    /// The current value formatted with its proper unit, or the unavailable
    /// sentinel when the chart's data source is absent.
    pub fn current(&self) -> (r: String)
        requires
            self.well_formed(),
        ensures
            r@ == self.current_chars(),
    {
        if self.enabled {
            let mut s = fmt_fixed2(self.value_latest);
            s.append(" ");
            let suffix = match self.chart_type {
                ChartType::Voltage => volt_abbreviation(),
                ChartType::EnergyRate => watt_abbreviation(),
                ChartType::Temperature => match self.units {
                    Units::Human => degree_celsius_abbreviation(),
                    Units::Si => kelvin_abbreviation(),
                },
            };
            s.append(suffix.as_str());
            proof {
                assert(s@ =~= self.current_chars());
            }
            s
        } else {
            "NOT AVAILABLE".to_owned()
        }
    }

    /// The unit suffix of the y axis.
    pub fn y_title(&self) -> (r: String)
        ensures
            r@ == suffix_chars(self.chart_type, self.units),
    {
        match self.chart_type {
            ChartType::Voltage => volt_abbreviation(),
            ChartType::EnergyRate => watt_abbreviation(),
            ChartType::Temperature => match self.units {
                Units::Human => degree_celsius_abbreviation(),
                Units::Si => kelvin_abbreviation(),
            },
        }
    }

    /// Read-only views of each series's current point sequence with its
    /// display color, valid until the next push.
    pub fn points(&self) -> (r: Vec<(&Vec<Point>, ChartColor)>)
        requires
            self.colors@.len() == self.points_sets@.len(),
        ensures
            r@.len() == self.sets().len(),
            forall|i: int|
                0 <= i < r@.len() ==> (#[trigger] r@[i]).0@ == self.sets()[i] && r@[i].1
                    == self.colors@[i],
    {
        let mut r: Vec<(&Vec<Point>, ChartColor)> = Vec::new();
        let mut i: usize = 0;
        while i < self.points_sets.len()
            invariant
                i as int <= self.sets().len(),
                r@.len() == i as int,
                forall|k: int|
                    0 <= k < i as int ==> (#[trigger] r@[k]).0@ == self.sets()[k] && r@[k].1
                        == self.colors@[k],
            decreases self.sets().len() - i as int,
        {
            let row = series_row(&self.points_sets, i);
            let c = self.colors[i];
            r.push((row, c));
            i += 1;
        }
        r
    }
}

/// Relies on `battery::units::electric_potential::volt::abbreviation`, whose
/// SI definition in the underlying units library is the literal `"V"`.
#[verifier::external_body]
fn volt_abbreviation() -> (r: String)
    ensures
        r@ == "V"@,
{
    <battery::units::electric_potential::volt as battery::units::Unit>::abbreviation().to_owned()
}

/// Relies on `battery::units::power::watt::abbreviation`, whose SI
/// definition in the underlying units library is the literal `"W"`.
#[verifier::external_body]
fn watt_abbreviation() -> (r: String)
    ensures
        r@ == "W"@,
{
    <battery::units::power::watt as battery::units::Unit>::abbreviation().to_owned()
}

/// Relies on
/// `battery::units::thermodynamic_temperature::degree_celsius::abbreviation`,
/// whose SI definition in the underlying units library is the literal `"°C"`.
#[verifier::external_body]
fn degree_celsius_abbreviation() -> (r: String)
    ensures
        r@ == "°C"@,
{
    <battery::units::thermodynamic_temperature::degree_celsius as battery::units::Unit>::abbreviation().to_owned()
}

/// Relies on `battery::units::thermodynamic_temperature::kelvin::abbreviation`,
/// whose SI definition in the underlying units library is the literal `"K"`.
#[verifier::external_body]
fn kelvin_abbreviation() -> (r: String)
    ensures
        r@ == "K"@,
{
    <battery::units::thermodynamic_temperature::kelvin as battery::units::Unit>::abbreviation().to_owned()
}

/// The chart title for a displayed quantity and charge state.
pub open spec fn title_chars(t: ChartType, st: BatteryState) -> Seq<char> {
    match t {
        ChartType::Voltage => "Voltage"@,
        ChartType::EnergyRate => match st {
            BatteryState::Charging => "Charging with"@,
            BatteryState::Discharging => "Discharging with"@,
            _ => "Consumption"@,
        },
        ChartType::Temperature => "Temperature"@,
    }
}

/// Floor division by 100, exact over the whole accepted value range.
fn floor_div100(a: i64) -> (r: i64)
    requires
        -Y_LIMIT - 200 <= a as int <= Y_LIMIT + 200,
    ensures
        r as int == a as int / 100,
{
    if a >= 0 {
        let q = (a as u64) / 100;
        q as i64
    } else {
        let m = (-a) as u64;
        let q = m / 100;
        let rem = m % 100;
        proof {
            lemma_fundamental_div_mod(m as int, 100);
            if rem == 0 {
                lemma_fundamental_div_mod_converse(a as int, 100, -(q as int), 0);
            } else {
                lemma_fundamental_div_mod_converse(
                    a as int,
                    100,
                    -(q as int) - 1,
                    100 - rem as int,
                );
            }
        }
        if rem == 0 {
            -(q as i64)
        } else {
            -(q as i64) - 1
        }
    }
}

/// A window with only empty series stores nothing.
pub proof fn lemma_total_len_all_empty(s: Seq<Seq<Point>>)
    requires
        forall|k: int| 0 <= k < s.len() ==> #[trigger] s[k].len() == 0,
    ensures
        total_len(s) == 0,
    decreases s.len(),
{
    if s.len() > 0 {
        lemma_total_len_all_empty(s.drop_last());
    }
}

/// The total point count is never negative.
pub proof fn lemma_total_len_nonneg(s: Seq<Seq<Point>>)
    ensures
        total_len(s) >= 0,
    decreases s.len(),
{
    if s.len() > 0 {
        lemma_total_len_nonneg(s.drop_last());
    }
}

/// Counting one more series adds exactly its length.
pub proof fn lemma_total_len_take_step(s: Seq<Seq<Point>>, k: int)
    requires
        0 <= k < s.len(),
    ensures
        total_len(s.take(k + 1)) == total_len(s.take(k)) + s[k].len(),
{
    assert(s.take(k + 1).drop_last() =~= s.take(k));
    assert(s.take(k + 1).last() == s[k]);
}

/// A prefix of the series never stores more than the whole window.
pub proof fn lemma_total_len_take_le(s: Seq<Seq<Point>>, k: int)
    requires
        0 <= k <= s.len(),
    ensures
        total_len(s.take(k)) <= total_len(s),
    decreases s.len() - k,
{
    if k == s.len() {
        assert(s.take(k) =~= s);
    } else {
        lemma_total_len_take_step(s, k);
        lemma_total_len_take_le(s, k + 1);
    }
}

/// Replacing one series changes the total by the difference in lengths.
pub proof fn lemma_total_len_update(s: Seq<Seq<Point>>, e: int, t: Seq<Point>)
    requires
        0 <= e < s.len(),
    ensures
        total_len(s.update(e, t)) == total_len(s) - s[e].len() + t.len(),
    decreases s.len(),
{
    if e == s.len() - 1 {
        assert(s.update(e, t).drop_last() =~= s.drop_last());
        assert(s.update(e, t).last() == t);
    } else {
        assert(s.update(e, t).drop_last() =~= s.drop_last().update(e, t));
        assert(s.update(e, t).last() == s.last());
        lemma_total_len_update(s.drop_last(), e, t);
    }
}

/// A window that stores a point has a non-empty series.
pub proof fn lemma_nonempty_exists(s: Seq<Seq<Point>>)
    requires
        total_len(s) > 0,
    ensures
        exists|i: int| 0 <= i < s.len() && (#[trigger] s[i]).len() > 0,
    decreases s.len(),
{
    if s.last().len() > 0 {
        assert(s[s.len() - 1].len() > 0);
    } else {
        lemma_nonempty_exists(s.drop_last());
        let i = choose|i: int| 0 <= i < s.drop_last().len() && (#[trigger] s.drop_last()[i]).len()
            > 0;
        assert(s[i].len() > 0);
    }
}

/// The eviction target is a real series index.
pub proof fn lemma_evict_index_range(s: Seq<Seq<Point>>)
    requires
        s.len() > 0,
    ensures
        0 <= evict_index(s) < s.len(),
    decreases s.len(),
{
    if s.len() > 1 {
        lemma_evict_index_range(s.take(s.len() - 1));
    }
}

/// The eviction target is the first series whose front point carries the
/// smallest `x` among all series fronts.
pub proof fn lemma_evict_index_min(s: Seq<Seq<Point>>)
    requires
        s.len() > 0,
    ensures
        0 <= evict_index(s) < s.len(),
        forall|i: int|
            0 <= i < s.len() && (#[trigger] s[i]).len() > 0 ==> s[evict_index(s)].len() > 0,
        forall|i: int|
            0 <= i < s.len() && (#[trigger] s[i]).len() > 0 ==> s[evict_index(s)][0].x <= s[i][0].x,
        forall|i: int|
            0 <= i < evict_index(s) && (#[trigger] s[i]).len() > 0 ==> s[evict_index(s)][0].x
                < s[i][0].x,
    decreases s.len(),
{
    lemma_evict_index_range(s);
    if s.len() > 1 {
        let pre = s.take(s.len() - 1);
        lemma_evict_index_min(pre);
        let last = s.len() - 1;
        let ep = evict_index(pre);
        let e = evict_index(s);
        assert(forall|i: int| 0 <= i < pre.len() ==> #[trigger] pre[i] == s[i]);
        assert(e == if s[last].len() > 0 && (s[ep].len() == 0 || s[last][0].x < s[ep][0].x) {
            last
        } else {
            ep
        });
        assert forall|i: int|
            0 <= i < s.len() && (#[trigger] s[i]).len() > 0 implies s[e].len() > 0 && s[e][0].x
            <= s[i][0].x by {
            if i < last {
                assert(pre[i].len() > 0);
                assert(pre[ep].len() > 0);
                assert(pre[ep][0].x <= pre[i][0].x);
            }
        }
        assert forall|i: int|
            0 <= i < e && (#[trigger] s[i]).len() > 0 implies s[e][0].x < s[i][0].x by {
            assert(pre[i].len() > 0);
            assert(pre[ep].len() > 0);
            assert(pre[ep][0].x <= pre[i][0].x);
            if e == ep {
                assert(pre[ep][0].x < pre[i][0].x);
            }
        }
    }
}

/// Under the window invariant the evicted front is the unique global
/// minimum: strictly older than every other stored point.
pub proof fn lemma_evicted_is_strict_min(s: Seq<Seq<Point>>)
    requires
        s.len() > 0,
        total_len(s) > 0,
        series_ordered(s),
        xs_distinct(s),
    ensures
        0 <= evict_index(s) < s.len(),
        s[evict_index(s)].len() > 0,
        forall|i: int, j: int|
            #[trigger] valid_cell(s, i, j) && (i != evict_index(s) || j != 0) ==> s[evict_index(
                s,
            )][0].x < s[i][j].x,
{
    lemma_evict_index_min(s);
    lemma_nonempty_exists(s);
    let e = evict_index(s);
    let w = choose|i: int| 0 <= i < s.len() && (#[trigger] s[i]).len() > 0;
    assert(s[e].len() > 0);
    assert forall|i: int, j: int|
        #[trigger] valid_cell(s, i, j) && (i != e || j != 0) implies s[e][0].x < s[i][j].x by {
        assert(s[i].len() > 0);
        assert(s[e][0].x <= s[i][0].x);
        if j == 0 {
            assert(valid_cell(s, e, 0));
            assert(s[e][0].x != s[i][0].x);
        } else {
            assert(s[i][0].x < s[i][j].x);
        }
    }
}

/// After the eviction step every surviving point still fits the window and
/// sits strictly above the scroll-out edge, the series stay age-ordered with
/// pairwise distinct ages, and values stay in range.
pub proof fn lemma_trimmed_shape(s: Seq<Seq<Point>>, cap: int)
    requires
        1 <= cap,
        total_len(s) <= cap,
        xs_in_window(s, cap),
        series_ordered(s),
        xs_distinct(s),
        ys_bounded(s),
    ensures
        trimmed_sets(s, cap).len() == s.len(),
        total_len(trimmed_sets(s, cap)) == if total_len(s) == cap {
            cap - 1
        } else {
            total_len(s)
        },
        total_len(trimmed_sets(s, cap)) <= cap - 1,
        forall|i: int, j: int|
            #[trigger] valid_cell(trimmed_sets(s, cap), i, j) ==> {
                &&& cap - total_len(trimmed_sets(s, cap)) < trimmed_sets(s, cap)[i][j].x as int
                &&& 2 <= trimmed_sets(s, cap)[i][j].x as int <= cap
                &&& -Y_LIMIT <= trimmed_sets(s, cap)[i][j].y <= Y_LIMIT
            },
        series_ordered(trimmed_sets(s, cap)),
        xs_distinct(trimmed_sets(s, cap)),
{
    lemma_total_len_nonneg(s);
    let trimmed = trimmed_sets(s, cap);
    let evict = total_len(s) == cap;
    let e = evict_index(s);
    if evict {
        lemma_evicted_is_strict_min(s);
        lemma_total_len_update(s, e, s[e].drop_first());
    }
    let total1 = total_len(trimmed);

    // Every cell of the trimmed window is a surviving cell of the original,
    // shifted one slot forward in the evicted series.
    assert forall|i: int, j: int| #[trigger] valid_cell(trimmed, i, j) implies {
        &&& valid_cell(s, i, if evict && i == e { j + 1 } else { j })
        &&& trimmed[i][j] == s[i][if evict && i == e { j + 1 } else { j }]
    } by {
        if evict && i == e {
            assert(trimmed[e] == s[e].drop_first());
        }
    }

    assert forall|i: int, j: int| #[trigger] valid_cell(trimmed, i, j) implies {
        &&& cap - total1 < trimmed[i][j].x as int
        &&& 2 <= trimmed[i][j].x as int <= cap
        &&& -Y_LIMIT <= trimmed[i][j].y <= Y_LIMIT
    } by {
        let j0 = if evict && i == e { j + 1 } else { j };
        assert(valid_cell(s, i, j0));
        if evict {
            assert(valid_cell(s, e, 0));
            assert(s[e][0].x < s[i][j0].x);
        }
    }

    assert forall|i: int, j1: int, j2: int|
        0 <= i < trimmed.len() && 0 <= j1 < j2 < trimmed[i].len() implies (#[trigger] trimmed[i][j1].x)
        < (#[trigger] trimmed[i][j2].x) by {
        assert(valid_cell(trimmed, i, j1));
        assert(valid_cell(trimmed, i, j2));
        let a1 = if evict && i == e { j1 + 1 } else { j1 };
        let a2 = if evict && i == e { j2 + 1 } else { j2 };
        assert(valid_cell(s, i, a1));
        assert(valid_cell(s, i, a2));
        assert(s[i][a1].x < s[i][a2].x);
    }

    assert forall|i1: int, j1: int, i2: int, j2: int|
        #[trigger] valid_cell(trimmed, i1, j1) && #[trigger] valid_cell(trimmed, i2, j2) && (i1
            != i2 || j1 != j2) implies trimmed[i1][j1].x != trimmed[i2][j2].x by {
        let a1 = if evict && i1 == e { j1 + 1 } else { j1 };
        let a2 = if evict && i2 == e { j2 + 1 } else { j2 };
        assert(valid_cell(s, i1, a1));
        assert(valid_cell(s, i2, a2));
    }
}

/// One push keeps the whole window invariant: the occupancy stays within
/// capacity (growing by one only below it), ages stay ordered and pairwise
/// distinct inside the window, and stored values stay in range.
pub proof fn lemma_push_shape(s: Seq<Seq<Point>>, cap: int, index: int, value: i64)
    requires
        1 <= cap <= u64::MAX,
        total_len(s) <= cap,
        0 <= index < s.len(),
        xs_in_window(s, cap),
        series_ordered(s),
        xs_distinct(s),
        ys_bounded(s),
        -Y_LIMIT <= value <= Y_LIMIT,
    ensures
        pushed_sets(s, cap, index, value).len() == s.len(),
        total_len(pushed_sets(s, cap, index, value)) == if total_len(s) == cap {
            cap
        } else {
            total_len(s) + 1
        },
        xs_in_window(pushed_sets(s, cap, index, value), cap),
        series_ordered(pushed_sets(s, cap, index, value)),
        xs_distinct(pushed_sets(s, cap, index, value)),
        ys_bounded(pushed_sets(s, cap, index, value)),
{
    lemma_trimmed_shape(s, cap);
    let trimmed = trimmed_sets(s, cap);
    let total1 = total_len(trimmed);
    lemma_total_len_nonneg(trimmed);
    let aged = Seq::new(trimmed.len(), |i: int| aged_series(trimmed[i]));
    let p = Point { x: cap as u64, y: value };
    let fin = pushed_sets(s, cap, index, value);
    assert(fin == aged.update(index, aged[index].push(p)));

    assert(forall|k: int| 0 <= k < trimmed.len() ==> (#[trigger] aged[k]).len() == trimmed[k].len());
    lemma_total_len_same_shape(trimmed, aged);
    lemma_total_len_update(aged, index, aged[index].push(p));
    assert(total_len(fin) == total1 + 1);

    // Every cell of the new window is either the freshly seeded point or an
    // aged surviving cell.
    assert forall|i: int, j: int| #[trigger] valid_cell(fin, i, j) implies {
        if i == index && j == trimmed[index].len() {
            fin[i][j] == p
        } else {
            valid_cell(trimmed, i, j) && fin[i][j] == (Point {
                x: (trimmed[i][j].x - 1) as u64,
                y: trimmed[i][j].y,
            })
        }
    } by {
        if i == index {
            assert(fin[i] == aged[index].push(p));
        } else {
            assert(fin[i] == aged[i]);
        }
    }

    assert forall|i: int, j: int| #[trigger] valid_cell(fin, i, j) implies cap - total_len(fin)
        < fin[i][j].x as int <= cap && -Y_LIMIT <= fin[i][j].y <= Y_LIMIT by {
        if i == index && j == trimmed[index].len() {
        } else {
            assert(valid_cell(trimmed, i, j));
        }
    }

    assert forall|i: int, j1: int, j2: int|
        0 <= i < fin.len() && 0 <= j1 < j2 < fin[i].len() implies (#[trigger] fin[i][j1].x) < (
    #[trigger] fin[i][j2].x) by {
        assert(valid_cell(fin, i, j1));
        assert(valid_cell(fin, i, j2));
        if i == index && j2 == trimmed[index].len() {
            assert(valid_cell(trimmed, i, j1));
        } else {
            assert(valid_cell(trimmed, i, j1));
            assert(valid_cell(trimmed, i, j2));
            assert(trimmed[i][j1].x < trimmed[i][j2].x);
        }
    }

    assert forall|i1: int, j1: int, i2: int, j2: int|
        #[trigger] valid_cell(fin, i1, j1) && #[trigger] valid_cell(fin, i2, j2) && (i1 != i2 || j1
            != j2) implies fin[i1][j1].x != fin[i2][j2].x by {
        let new1 = i1 == index && j1 == trimmed[index].len();
        let new2 = i2 == index && j2 == trimmed[index].len();
        if new1 && !new2 {
            assert(valid_cell(trimmed, i2, j2));
        } else if !new1 && new2 {
            assert(valid_cell(trimmed, i1, j1));
        } else if !new1 && !new2 {
            assert(valid_cell(trimmed, i1, j1));
            assert(valid_cell(trimmed, i2, j2));
            assert(trimmed[i1][j1].x != trimmed[i2][j2].x);
        }
    }
}

/// Law: whatever sequence of pushes a chart has seen, the number of stored
/// points across all series never exceeds the shared capacity. `new`
/// establishes `well_formed`, every `push` preserves it, and a well-formed
/// chart is within capacity.
pub proof fn lemma_capacity_invariant(d: ChartData)
    requires
        d.well_formed(),
    ensures
        d.total_points() <= d.capacity(),
{
}

/// Law: one push shifts every surviving point's `x` down by exactly one
/// (global aging across all series) and seeds the new point at the window's
/// newest position with the pushed value.
pub proof fn lemma_push_ages_window(d: ChartData, index: int, value: i64)
    requires
        d.well_formed(),
        0 <= index < d.sets().len(),
    ensures
        forall|i: int, j: int|
            #[trigger] valid_cell(trimmed_sets(d.sets(), d.capacity()), i, j) ==> {
                let survivor = trimmed_sets(d.sets(), d.capacity())[i][j];
                let aged = pushed_sets(d.sets(), d.capacity(), index, value)[i][j];
                aged.x as int == survivor.x as int - 1 && aged.y == survivor.y
            },
        pushed_sets(d.sets(), d.capacity(), index, value)[index].last() == (Point {
            x: d.capacity() as u64,
            y: value,
        }),
{
    let s = d.sets();
    let cap = d.capacity();
    lemma_trimmed_shape(s, cap);
    let trimmed = trimmed_sets(s, cap);
    let aged = Seq::new(trimmed.len(), |i: int| aged_series(trimmed[i]));
    let fin = pushed_sets(s, cap, index, value);
    assert(fin[index].last() == (Point { x: cap as u64, y: value }));
    assert forall|i: int, j: int| #[trigger] valid_cell(trimmed, i, j) implies {
        let survivor = trimmed[i][j];
        let after = fin[i][j];
        after.x as int == survivor.x as int - 1 && after.y == survivor.y
    } by {
        if i == index {
            assert(fin[index] == aged[index].push(Point { x: cap as u64, y: value }));
            assert(fin[i][j] == aged[i][j]);
        } else {
            assert(fin[i] == aged[i]);
        }
    }
}

/// Law: in a well-formed chart the newest point of any non-empty series
/// carries that series's largest `x`.
pub proof fn lemma_newest_has_max_x(d: ChartData, i: int)
    requires
        d.well_formed(),
        0 <= i < d.sets().len(),
        d.sets()[i].len() > 0,
    ensures
        forall|j: int|
            0 <= j < d.sets()[i].len() ==> (#[trigger] d.sets()[i][j].x) <= d.sets()[i].last().x,
{
    let s = d.sets();
    assert forall|j: int| 0 <= j < s[i].len() implies (#[trigger] s[i][j].x) <= s[i].last().x by {
        if j < s[i].len() - 1 {
            assert(s[i][j].x < s[i][s[i].len() - 1].x);
        }
    }
}

/// Law: a push against a full pool removes exactly one point before aging
/// and inserting — the front of the eviction target's series, which is the
/// point with the globally smallest `x` — and total occupancy stays exactly
/// at capacity.
pub proof fn lemma_eviction_correct(d: ChartData, index: int, value: i64)
    requires
        d.well_formed(),
        d.total_points() == d.capacity(),
        0 <= index < d.sets().len(),
        -Y_LIMIT <= value <= Y_LIMIT,
    ensures
        d.sets()[evict_index(d.sets())].len() > 0,
        trimmed_sets(d.sets(), d.capacity()) == d.sets().update(
            evict_index(d.sets()),
            d.sets()[evict_index(d.sets())].drop_first(),
        ),
        total_len(trimmed_sets(d.sets(), d.capacity())) == d.capacity() - 1,
        total_len(pushed_sets(d.sets(), d.capacity(), index, value)) == d.capacity(),
        forall|i: int, j: int|
            #[trigger] valid_cell(d.sets(), i, j) && (i != evict_index(d.sets()) || j != 0)
                ==> d.sets()[evict_index(d.sets())][0].x < d.sets()[i][j].x,
{
    let s = d.sets();
    let cap = d.capacity();
    if s.len() == 0 {
        assert(total_len(s) == 0);
    }
    lemma_evicted_is_strict_min(s);
    lemma_trimmed_shape(s, cap);
    lemma_push_shape(s, cap, index, value);
}

/// Law: after every push of a non-empty chart, `value_min` and `value_max`
/// equal the true minimum and maximum of `y` over all currently stored
/// points: each is attained by a stored point and bounds every stored point.
pub proof fn lemma_minmax_exact(d: ChartData)
    requires
        d.well_formed(),
        d.total_points() > 0,
    ensures
        is_min_y(d.sets(), d.value_min as int),
        is_max_y(d.sets(), d.value_max as int),
{
}

/// Series of pairwise equal lengths store the same total.
pub proof fn lemma_total_len_same_shape(s: Seq<Seq<Point>>, t: Seq<Seq<Point>>)
    requires
        s.len() == t.len(),
        forall|i: int| 0 <= i < s.len() ==> #[trigger] t[i].len() == s[i].len(),
    ensures
        total_len(t) == total_len(s),
    decreases s.len(),
{
    if s.len() > 0 {
        assert(forall|i: int|
            0 <= i < s.drop_last().len() ==> #[trigger] t.drop_last()[i].len()
                == s.drop_last()[i].len());
        lemma_total_len_same_shape(s.drop_last(), t.drop_last());
        assert(t.last().len() == s.last().len());
    }
}


} // verus!
