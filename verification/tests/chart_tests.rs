//! Scenario tests for the multi-series window: capacity, aging, eviction,
//! statistics, and the formatted rendering surface.

use battchart::chart::{BatteryState, ChartColor, ChartData, ChartType, Point, Units};

fn single_series(capacity: usize) -> ChartData {
    ChartData::with_capacity(Units::Human, ChartType::Voltage, vec![ChartColor::Green], capacity)
}

/// Capacity 4, single series: push 1, 5, 3, 9, 2 (in hundredths). After the
/// fifth push exactly four points remain, the oldest (y = 1.00) is evicted,
/// and the statistics are min 2.00, max 9.00.
#[test]
fn single_series_eviction_scenario() {
    let mut d = single_series(4);
    for y in [100i64, 500, 300, 900, 200] {
        d.push(y, 0);
        assert!(d.point_count() <= 4);
    }
    assert_eq!(d.point_count(), 4);
    let points = d.points();
    assert_eq!(points.len(), 1);
    let set = points[0].0;
    assert_eq!(points[0].1, ChartColor::Green);
    let expected = vec![
        Point { x: 1, y: 500 },
        Point { x: 2, y: 300 },
        Point { x: 3, y: 900 },
        Point { x: 4, y: 200 },
    ];
    assert_eq!(*set, expected);
    assert_eq!(d.value_min, 200);
    assert_eq!(d.value_max, 900);
    assert_eq!(d.value_latest, 200);
}

/// Capacity 4, two series, alternating pushes: the total never exceeds 4 and
/// eviction removes from whichever series holds the globally oldest point.
#[test]
fn two_series_alternating_scenario() {
    let mut d = ChartData::with_capacity(
        Units::Human,
        ChartType::EnergyRate,
        vec![ChartColor::Green, ChartColor::Red],
        4,
    );
    let pushes = [(0usize, 1000i64), (1, 2000), (0, 1000), (1, 2000), (0, 1000)];
    for (series, y) in pushes {
        d.push(y, series);
        assert!(d.point_count() <= 4);
    }
    assert_eq!(d.point_count(), 4);
    let points = d.points();
    assert_eq!(points.len(), 2);
    // The fifth push found the pool full; the globally oldest point was the
    // front of series 0, so series 0 lost a point even though it was pushed.
    let s0: Vec<Point> = points[0].0.to_vec();
    let s1: Vec<Point> = points[1].0.to_vec();
    assert_eq!(s0, vec![Point { x: 2, y: 1000 }, Point { x: 4, y: 1000 }]);
    assert_eq!(s1, vec![Point { x: 1, y: 2000 }, Point { x: 3, y: 2000 }]);
    assert_eq!(points[0].1, ChartColor::Green);
    assert_eq!(points[1].1, ChartColor::Red);
}

/// A busy series starves a quiet one down to zero points over time.
#[test]
fn busy_series_starves_quiet_one() {
    let mut d = ChartData::with_capacity(
        Units::Human,
        ChartType::EnergyRate,
        vec![ChartColor::Green, ChartColor::Red],
        4,
    );
    d.push(2000, 1);
    for _ in 0..8 {
        d.push(1000, 0);
        assert!(d.point_count() <= 4);
    }
    let points = d.points();
    assert_eq!(points[1].0.len(), 0);
    assert_eq!(points[0].0.len(), 4);
}

/// The total stored count stays within capacity under a long run of pushes.
#[test]
fn capacity_never_exceeded() {
    let mut d = single_series(4);
    for i in 0..50i64 {
        d.push(i * 10, 0);
        assert!(d.point_count() <= 4);
    }
    assert_eq!(d.point_count(), 4);
}

/// Within a series, x is strictly increasing and the newest point has the
/// maximum x; successive pushes shift every surviving x down by exactly 1.
#[test]
fn age_ordering_holds() {
    let mut d = single_series(8);
    let mut previous: Vec<Point> = Vec::new();
    for y in [100i64, 200, 300, 400, 500] {
        d.push(y, 0);
        let points = d.points();
        let set: Vec<Point> = points[0].0.to_vec();
        for w in set.windows(2) {
            assert!(w[0].x < w[1].x);
        }
        let newest = set.last().unwrap();
        assert!(set.iter().all(|p| p.x <= newest.x));
        assert_eq!(newest.x, 8);
        assert_eq!(newest.y, y);
        // Global aging: every surviving old point drifted down by exactly 1.
        for (old, new) in previous.iter().zip(set.iter()) {
            assert_eq!(new.x, old.x - 1);
            assert_eq!(new.y, old.y);
        }
        previous = set;
    }
}

/// The stored statistics equal an independent scan over all series.
#[test]
fn minmax_matches_independent_scan() {
    let mut d = ChartData::with_capacity(
        Units::Human,
        ChartType::EnergyRate,
        vec![ChartColor::Green, ChartColor::Red],
        6,
    );
    let pushes = [(0usize, 700i64), (1, -250), (0, 40), (1, 9000), (0, -3), (1, 88), (0, 123)];
    for (series, y) in pushes {
        d.push(y, series);
        let mut seen: Vec<i64> = Vec::new();
        for (set, _) in d.points() {
            for p in set.iter() {
                seen.push(p.y);
            }
        }
        assert_eq!(d.value_min, *seen.iter().min().unwrap());
        assert_eq!(d.value_max, *seen.iter().max().unwrap());
    }
}

/// Axis bounds pad the true extremes by one unit: floor(min - 1) clamped to
/// at least -1, and ceil(max + 1).
#[test]
fn y_bounds_pad_the_extremes() {
    let mut d = single_series(4);
    d.push(200, 0);
    d.push(900, 0);
    assert_eq!(d.y_bounds(), (1, 10));
    assert_eq!(d.y_labels(), vec![" 1".to_string(), "10".to_string()]);

    // A minimum near zero clamps the lower bound to -1.
    let mut low = single_series(4);
    low.push(50, 0);
    assert_eq!(low.y_bounds(), (-1, 2));
    assert_eq!(low.y_labels(), vec!["-1".to_string(), " 2".to_string()]);

    // Any negative padded floor clamps to -1 as well.
    let mut negative = single_series(4);
    negative.push(-600, 0);
    assert_eq!(negative.y_bounds(), (-1, -5));
    assert_eq!(negative.y_labels(), vec!["-1".to_string(), "-5".to_string()]);
}

/// Before any push the sentinel statistics give the documented degenerate
/// axis: lower floor(100 - 1) = 99, upper ceil(0 + 1) = 1.
#[test]
fn empty_chart_bounds_use_sentinels() {
    let d = single_series(4);
    assert_eq!(d.value_min, 10_000);
    assert_eq!(d.value_max, 0);
    assert_eq!(d.y_bounds(), (99, 1));
    assert_eq!(d.current(), "0.00 V");
}

/// After exactly one stored point both statistics equal that point's value.
#[test]
fn single_point_has_no_spread() {
    let mut d = single_series(4);
    d.push(456, 0);
    assert_eq!(d.value_min, 456);
    assert_eq!(d.value_max, 456);
}

/// Disabled charts report degenerate bounds and the unavailable sentinel,
/// regardless of prior data; stored points are kept.
#[test]
fn disabled_state_bounds() {
    let mut d = single_series(4);
    d.push(200, 0);
    d.push(900, 0);
    d.enabled(false);
    assert_eq!(d.y_bounds(), (0, 0));
    assert_eq!(d.y_labels(), vec![" 0".to_string(), " 0".to_string()]);
    assert_eq!(d.current(), "NOT AVAILABLE");
    assert_eq!(d.point_count(), 2);
    d.enabled(true);
    assert_eq!(d.y_bounds(), (1, 10));
    assert_eq!(d.current(), "9.00 V");
}

/// The fixed x axis spans seed position down to the scroll-out edge.
#[test]
fn x_bounds_are_fixed() {
    let d = single_series(4);
    assert_eq!(d.x_bounds(), (0, 4));
    let full = ChartData::new(Units::Human, ChartType::Voltage, vec![ChartColor::Green]);
    assert_eq!(full.x_bounds(), (0, 512));
}

/// Values are formatted with two decimal places and the proper unit suffix.
#[test]
fn current_formats_with_units() {
    let mut voltage = single_series(4);
    voltage.push(1234, 0);
    assert_eq!(voltage.current(), "12.34 V");
    assert_eq!(voltage.y_title(), "V");

    let mut power =
        ChartData::with_capacity(Units::Human, ChartType::EnergyRate, vec![ChartColor::Green], 4);
    power.push(-307, 0);
    assert_eq!(power.current(), "-3.07 W");
    assert_eq!(power.y_title(), "W");

    let mut celsius =
        ChartData::with_capacity(Units::Human, ChartType::Temperature, vec![ChartColor::Green], 4);
    celsius.push(2500, 0);
    assert_eq!(celsius.current(), "25.00 °C");
    assert_eq!(celsius.y_title(), "°C");

    let mut kelvin =
        ChartData::with_capacity(Units::Si, ChartType::Temperature, vec![ChartColor::Green], 4);
    kelvin.push(29815, 0);
    assert_eq!(kelvin.current(), "298.15 K");
    assert_eq!(kelvin.y_title(), "K");
}

/// Titles follow the displayed quantity and, for energy rate, the state.
#[test]
fn titles_follow_state() {
    let mut d =
        ChartData::with_capacity(Units::Human, ChartType::EnergyRate, vec![ChartColor::Green], 4);
    assert_eq!(d.title(), "Consumption");
    d.battery_state(BatteryState::Charging);
    assert_eq!(d.title(), "Charging with");
    d.battery_state(BatteryState::Discharging);
    assert_eq!(d.title(), "Discharging with");
    d.battery_state(BatteryState::Full);
    assert_eq!(d.title(), "Consumption");

    let v = single_series(4);
    assert_eq!(v.title(), "Voltage");
    let t =
        ChartData::with_capacity(Units::Human, ChartType::Temperature, vec![ChartColor::Green], 4);
    assert_eq!(t.title(), "Temperature");
}

/// Reading accessors twice without an intervening push returns identical
/// results.
#[test]
fn reads_are_idempotent() {
    let mut d = single_series(4);
    d.push(200, 0);
    d.push(900, 0);
    assert_eq!(d.y_bounds(), d.y_bounds());
    assert_eq!(d.y_labels(), d.y_labels());
    assert_eq!(d.current(), d.current());
    assert_eq!(d.title(), d.title());
    assert_eq!(d.x_bounds(), d.x_bounds());
    assert_eq!(d.y_title(), d.y_title());
    assert_eq!(d.point_count(), d.point_count());
    let first: Vec<Vec<Point>> = d.points().iter().map(|(s, _)| s.to_vec()).collect();
    let second: Vec<Vec<Point>> = d.points().iter().map(|(s, _)| s.to_vec()).collect();
    assert_eq!(first, second);
}
