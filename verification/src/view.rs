//! The content of one tab: the charts of one specific battery, and the
//! decisions taken on each refreshed reading — which chart and series every
//! sample lands in, the unit conversion for temperatures, and the tab title
//! drawn from the battery's identity.
//!
//! Reading the hardware itself is the caller's job: the caller refreshes the
//! battery, converts the reported quantities to hundredths of their display
//! units, and hands them over as one `BatteryReading` per tick.

use vstd::prelude::*;
use vstd::string::View as _;

use crate::chart::{
    pushed_sets, BatteryState, ChartColor, ChartData, ChartType, Units, Y_LIMIT,
};

verus! {

/// Offset between degrees Celsius and kelvins, in hundredths of a unit:
/// 0 degrees Celsius is exactly 273.15 kelvins.
pub const KELVIN_OFFSET: i64 = 27_315;

/// One refreshed set of battery readings, in hundredths of the displayed
/// units: volts, watts, and degrees Celsius. The temperature is absent on
/// hardware without a thermal sensor.
#[derive(Debug, Eq, PartialEq, Copy, Clone, Structural)]
pub struct BatteryReading {
    pub voltage: i64,
    pub energy_rate: i64,
    pub state: BatteryState,
    pub temperature_celsius: Option<i64>,
}

impl BatteryReading {
    /// The reading's values lie in the accepted sample range; a temperature
    /// stays far enough below the bound that the kelvin conversion fits too.
    pub open spec fn valid(self) -> bool {
        &&& -Y_LIMIT <= self.voltage <= Y_LIMIT
        &&& -Y_LIMIT <= self.energy_rate <= Y_LIMIT
        &&& match self.temperature_celsius {
            Some(c) => -Y_LIMIT <= c <= Y_LIMIT - KELVIN_OFFSET,
            None => true,
        }
    }
}

/// The energy-rate series a sample lands in: the second (red) series while
/// discharging, the first (green) otherwise.
pub open spec fn energy_rate_series(st: BatteryState) -> int {
    if st == BatteryState::Discharging {
        1
    } else {
        0
    }
}

/// The temperature sample pushed for a Celsius reading, by unit preference:
/// the value as given, or converted exactly to kelvins.
pub open spec fn temperature_sample(units: Units, celsius: i64) -> int {
    if units == Units::Si {
        celsius + KELVIN_OFFSET
    } else {
        celsius as int
    }
}

/// The charts of one battery: voltage and temperature with a single series
/// each, energy rate with one series per direction of flow.
pub struct View {
    /// Unit preference from the configuration.
    pub units: Units,
    /// The battery's model name, where the hardware reports one.
    pub model: Option<String>,
    /// The battery's vendor name, where the hardware reports one.
    pub vendor: Option<String>,
    /// The battery's serial number, where the hardware reports one.
    pub serial_number: Option<String>,
    pub voltage: ChartData,
    pub energy_rate: ChartData,
    pub temperature: ChartData,
}

impl View {
    /// Each chart is well formed, displays its own quantity with the view's
    /// unit preference, and has its fixed series count.
    pub open spec fn well_formed(self) -> bool {
        &&& self.voltage.well_formed()
        &&& self.voltage.series_count() == 1
        &&& self.voltage.chart_type == ChartType::Voltage
        &&& self.voltage.units == self.units
        &&& self.energy_rate.well_formed()
        &&& self.energy_rate.series_count() == 2
        &&& self.energy_rate.chart_type == ChartType::EnergyRate
        &&& self.energy_rate.units == self.units
        &&& self.temperature.well_formed()
        &&& self.temperature.series_count() == 1
        &&& self.temperature.chart_type == ChartType::Temperature
        &&& self.temperature.units == self.units
    }

    /// The tab title: the battery's model, else its vendor, else its serial
    /// number, else a fixed fallback.
    pub open spec fn title_chars(self) -> Seq<char> {
        match self.model {
            Some(m) => m@,
            None => match self.vendor {
                Some(v) => v@,
                None => match self.serial_number {
                    Some(sn) => sn@,
                    None => "Unknown battery"@,
                },
            },
        }
    }

    /// A view over one battery's identity, with three empty charts.
    pub fn new(
        units: Units,
        model: Option<String>,
        vendor: Option<String>,
        serial_number: Option<String>,
    ) -> (r: View)
        ensures
            r.well_formed(),
            r.units == units,
            r.model == model,
            r.vendor == vendor,
            r.serial_number == serial_number,
            r.voltage.total_points() == 0,
            r.energy_rate.total_points() == 0,
            r.temperature.total_points() == 0,
            r.voltage.enabled,
            r.energy_rate.enabled,
            r.temperature.enabled,
    {
        let voltage_colors = vec![ChartColor::Green];
        let energy_colors = vec![ChartColor::Green, ChartColor::Red];
        let temperature_colors = vec![ChartColor::Green];
        View {
            units,
            model,
            vendor,
            serial_number,
            voltage: ChartData::new(units, ChartType::Voltage, voltage_colors),
            energy_rate: ChartData::new(units, ChartType::EnergyRate, energy_colors),
            temperature: ChartData::new(units, ChartType::Temperature, temperature_colors),
        }
    }

    /// Takes one refreshed reading into the charts: the voltage sample lands
    /// in the voltage chart's only series, the energy-rate sample in the
    /// series picked by the charge state, and the temperature sample —
    /// converted per the unit preference — in the temperature chart, which
    /// is disabled instead whenever the reading carries no temperature.
    pub fn update(&mut self, reading: BatteryReading)
        requires
            old(self).well_formed(),
            reading.valid(),
        ensures
            final(self).well_formed(),
            final(self).units == old(self).units,
            final(self).model == old(self).model,
            final(self).vendor == old(self).vendor,
            final(self).serial_number == old(self).serial_number,
            final(self).voltage.sets() == pushed_sets(
                old(self).voltage.sets(),
                old(self).voltage.capacity(),
                0,
                reading.voltage,
            ),
            final(self).voltage.value_latest == reading.voltage,
            final(self).voltage.battery_state == reading.state,
            final(self).voltage.enabled == old(self).voltage.enabled,
            final(self).voltage.colors == old(self).voltage.colors,
            final(self).voltage.total_capacity == old(self).voltage.total_capacity,
            final(self).energy_rate.sets() == pushed_sets(
                old(self).energy_rate.sets(),
                old(self).energy_rate.capacity(),
                energy_rate_series(reading.state),
                reading.energy_rate,
            ),
            final(self).energy_rate.value_latest == reading.energy_rate,
            final(self).energy_rate.battery_state == reading.state,
            final(self).energy_rate.enabled == old(self).energy_rate.enabled,
            final(self).energy_rate.colors == old(self).energy_rate.colors,
            final(self).energy_rate.total_capacity == old(self).energy_rate.total_capacity,
            match reading.temperature_celsius {
                Some(c) => {
                    &&& final(self).temperature.sets() == pushed_sets(
                        old(self).temperature.sets(),
                        old(self).temperature.capacity(),
                        0,
                        (temperature_sample(old(self).units, c)) as i64,
                    )
                    &&& final(self).temperature.value_latest as int == temperature_sample(
                        old(self).units,
                        c,
                    )
                    &&& final(self).temperature.battery_state == reading.state
                    &&& final(self).temperature.enabled
                    &&& final(self).temperature.colors == old(self).temperature.colors
                    &&& final(self).temperature.total_capacity == old(
                        self,
                    ).temperature.total_capacity
                },
                None => final(self).temperature == (ChartData {
                    enabled: false,
                    ..old(self).temperature
                }),
            },
    {
        self.voltage.push(reading.voltage, 0);
        self.voltage.battery_state(reading.state);

        let index: usize = match reading.state {
            BatteryState::Discharging => 1,
            _ => 0,
        };
        self.energy_rate.push(reading.energy_rate, index);
        self.energy_rate.battery_state(reading.state);

        match reading.temperature_celsius {
            Some(c) => {
                let value = match self.units {
                    Units::Human => c,
                    Units::Si => c + KELVIN_OFFSET,
                };
                self.temperature.push(value, 0);
                self.temperature.battery_state(reading.state);
                self.temperature.enabled(true);
            },
            None => {
                self.temperature.enabled(false);
            },
        }
    }

    /// The tab title: model, else vendor, else serial number, else the fixed
    /// fallback.
    pub fn title(&self) -> (r: String)
        ensures
            r@ == self.title_chars(),
    {
        if let Some(m) = &self.model {
            return m.clone();
        }
        if let Some(v) = &self.vendor {
            return v.clone();
        }
        if let Some(sn) = &self.serial_number {
            return sn.clone();
        }
        "Unknown battery".to_owned()
    }

    pub fn voltage(&self) -> (r: &ChartData)
        ensures
            *r == self.voltage,
    {
        &self.voltage
    }

    pub fn energy_rate(&self) -> (r: &ChartData)
        ensures
            *r == self.energy_rate,
    {
        &self.energy_rate
    }

    pub fn temperature(&self) -> (r: &ChartData)
        ensures
            *r == self.temperature,
    {
        &self.temperature
    }

    /// The unit preference this view was configured with.
    pub fn config(&self) -> (r: Units)
        ensures
            r == self.units,
    {
        self.units
    }
}

} // verus!
