//! Tests of the per-battery view: sample routing, unit conversion, the
//! enabled flag of the temperature chart, and title selection.

use battchart::chart::{BatteryState, Units};
use battchart::view::{BatteryReading, View};

fn reading(
    voltage: i64,
    energy_rate: i64,
    state: BatteryState,
    temperature_celsius: Option<i64>,
) -> BatteryReading {
    BatteryReading { voltage, energy_rate, state, temperature_celsius }
}

fn fresh(units: Units) -> View {
    View::new(units, None, None, None)
}

/// One update routes each sample to its chart: voltage to the single voltage
/// series, energy rate to the state-picked series, temperature converted per
/// the unit preference.
#[test]
fn update_routes_samples() {
    let mut v = fresh(Units::Human);
    v.update(reading(1180, 2540, BatteryState::Discharging, Some(2500)));

    assert_eq!(v.voltage().current(), "11.80 V");
    assert_eq!(v.energy_rate().current(), "25.40 W");
    assert_eq!(v.temperature().current(), "25.00 °C");
    assert_eq!(v.energy_rate().title(), "Discharging with");

    // Discharging lands in the second (red) series.
    let sets = v.energy_rate().points();
    assert_eq!(sets[0].0.len(), 0);
    assert_eq!(sets[1].0.len(), 1);
    assert_eq!(sets[1].0[0].y, 2540);

    // Any other state lands in the first (green) series.
    v.update(reading(1180, 300, BatteryState::Charging, Some(2500)));
    let sets = v.energy_rate().points();
    assert_eq!(sets[0].0.len(), 1);
    assert_eq!(sets[1].0.len(), 1);
    assert_eq!(v.energy_rate().title(), "Charging with");
}

/// With SI units a Celsius reading is converted exactly to kelvins.
#[test]
fn update_converts_temperature_to_kelvin() {
    let mut v = fresh(Units::Si);
    v.update(reading(1180, 2540, BatteryState::Unknown, Some(2500)));
    assert_eq!(v.temperature().current(), "298.15 K");
    assert_eq!(v.temperature().value_latest, 29815);
}

/// A reading without a temperature disables the temperature chart and keeps
/// its stored points; a later reading with one re-enables it.
#[test]
fn missing_temperature_disables_chart() {
    let mut v = fresh(Units::Human);
    v.update(reading(1180, 2540, BatteryState::Unknown, Some(3000)));
    assert_eq!(v.temperature().point_count(), 1);

    v.update(reading(1180, 2540, BatteryState::Unknown, None));
    assert_eq!(v.temperature().current(), "NOT AVAILABLE");
    assert_eq!(v.temperature().y_bounds(), (0, 0));
    assert_eq!(v.temperature().point_count(), 1);

    v.update(reading(1180, 2540, BatteryState::Unknown, Some(3100)));
    assert_eq!(v.temperature().current(), "31.00 °C");
    assert_eq!(v.temperature().point_count(), 2);
}

/// The tab title prefers the model, then the vendor, then the serial number,
/// then a fixed fallback.
#[test]
fn title_prefers_model_then_vendor_then_serial() {
    let all = View::new(
        Units::Human,
        Some("Model X".to_string()),
        Some("ACME".to_string()),
        Some("SN-1".to_string()),
    );
    assert_eq!(all.title(), "Model X");

    let vendor_only = View::new(Units::Human, None, Some("ACME".to_string()), None);
    assert_eq!(vendor_only.title(), "ACME");

    let serial_only = View::new(Units::Human, None, None, Some("SN-1".to_string()));
    assert_eq!(serial_only.title(), "SN-1");

    let nothing = fresh(Units::Human);
    assert_eq!(nothing.title(), "Unknown battery");
}

/// The configured unit preference is reported back unchanged.
#[test]
fn config_reports_units() {
    assert_eq!(fresh(Units::Human).config(), Units::Human);
    assert_eq!(fresh(Units::Si).config(), Units::Si);
}

/// Repeated reads of a view's charts return identical results.
#[test]
fn view_reads_are_idempotent() {
    let mut v = fresh(Units::Human);
    v.update(reading(1180, 2540, BatteryState::Discharging, Some(2500)));
    assert_eq!(v.title(), v.title());
    assert_eq!(v.voltage().current(), v.voltage().current());
    assert_eq!(v.temperature().y_bounds(), v.temperature().y_bounds());
    assert_eq!(v.energy_rate().y_labels(), v.energy_rate().y_labels());
}
