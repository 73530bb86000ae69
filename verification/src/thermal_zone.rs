//! The thermal zone counter of Windows.

use crate::float::{Double, Single};
use crate::metrics;
use vstd::prelude::*;

verus! {

/// The status of a call that succeeded.
pub const SUCCESS: u32 = 0;

/// The counter status of a valid value.
pub const VALID_DATA: u32 = 0;

/// The counter status of a valid value that is new since the last reading.
pub const NEW_DATA: u32 = 1;

/// What is to be done next to read the counter.
///
/// The first sample initializes the counter's instance; only with the second
/// one there is a value.
#[derive(Clone, Copy, Debug, PartialEq, Eq, Structural)]
pub enum ThermalZoneStep {
    OpenQuery,
    AddCounter,
    FirstSample,
    SecondSample,
    ReadValue,
    GiveUp,
}

impl ThermalZoneStep {
    /// What follows a step that succeeded.
    pub open spec fn successor(self) -> ThermalZoneStep {
        match self {
            ThermalZoneStep::OpenQuery => ThermalZoneStep::AddCounter,
            ThermalZoneStep::AddCounter => ThermalZoneStep::FirstSample,
            ThermalZoneStep::FirstSample => ThermalZoneStep::SecondSample,
            ThermalZoneStep::SecondSample => ThermalZoneStep::ReadValue,
            ThermalZoneStep::ReadValue => ThermalZoneStep::GiveUp,
            ThermalZoneStep::GiveUp => ThermalZoneStep::GiveUp,
        }
    }

    /// Whether the step gives a handle.
    pub open spec fn gives_handle(self) -> bool {
        self == ThermalZoneStep::OpenQuery || self == ThermalZoneStep::AddCounter
    }

    /// The step after this one, given the status of its call and whether the
    /// handle that it gives, if it gives one, is valid.
    pub open spec fn step_after(self, status: u32, valid_handle: bool) -> ThermalZoneStep {
        if status == SUCCESS && (valid_handle || !self.gives_handle()) {
            self.successor()
        } else {
            ThermalZoneStep::GiveUp
        }
    }

    /// The step after this one, given the status of its call and whether the
    /// handle that it gives, if it gives one, is valid.
    pub fn next(self, status: u32, valid_handle: bool) -> (step: ThermalZoneStep)
        ensures
            step == self.step_after(status, valid_handle),
    {
        if status != SUCCESS {
            return ThermalZoneStep::GiveUp;
        }
        match self {
            ThermalZoneStep::OpenQuery => if valid_handle {
                ThermalZoneStep::AddCounter
            } else {
                ThermalZoneStep::GiveUp
            },
            ThermalZoneStep::AddCounter => if valid_handle {
                ThermalZoneStep::FirstSample
            } else {
                ThermalZoneStep::GiveUp
            },
            ThermalZoneStep::FirstSample => ThermalZoneStep::SecondSample,
            ThermalZoneStep::SecondSample => ThermalZoneStep::ReadValue,
            ThermalZoneStep::ReadValue => ThermalZoneStep::GiveUp,
            ThermalZoneStep::GiveUp => ThermalZoneStep::GiveUp,
        }
    }
}

/// The degrees Celsius of a counter value in kelvins, if the call that read it
/// succeeded, the value is valid and the temperature plausible.
pub open spec fn counter_celsius(
    status: u32,
    counter_status: u32,
    kelvin: Double,
) -> Option<Single> {
    if status == SUCCESS && (counter_status == VALID_DATA || counter_status == NEW_DATA) {
        metrics::celsius_of(kelvin)
    } else {
        None
    }
}

/// The degrees Celsius of a counter value in kelvins, if the call that read it
/// succeeded, the value is valid and the temperature plausible.
pub fn counter_value(status: u32, counter_status: u32, kelvin: Double) -> (celsius: Option<Single>)
    ensures
        celsius == counter_celsius(status, counter_status, kelvin),
{
    if status == SUCCESS && (counter_status == VALID_DATA || counter_status == NEW_DATA) {
        metrics::kelvin_to_celsius(kelvin)
    } else {
        None
    }
}

} // verus!
