//! The entries of the control panel's navigation: one per pedal channel and one per other
//! device.
use vstd::prelude::*;

use crate::pedals::PedalInput;
use crate::DeviceStatus;

verus! {

/// One entry of the navigation.
#[derive(Debug, Clone, Copy, PartialEq, Eq, Structural)]
pub enum NavItem {
    Throttle,
    Brake,
    Clutch,
    Handbrake,
    Shifter,
}

/// The entry is one of the three pedal channels.
pub open spec fn is_pedal(item: NavItem) -> bool {
    item is Throttle || item is Brake || item is Clutch
}

impl NavItem {
    /// The text shown for the entry.
    pub fn label(&self) -> (s: &'static str)
        ensures
            *self is Throttle ==> s@ == "Throttle"@,
            *self is Brake ==> s@ == "Brake"@,
            *self is Clutch ==> s@ == "Clutch"@,
            *self is Handbrake ==> s@ == "Handbrake"@,
            *self is Shifter ==> s@ == "Shifter"@,
    {
        match self {
            NavItem::Throttle => "Throttle",
            NavItem::Brake => "Brake",
            NavItem::Clutch => "Clutch",
            NavItem::Handbrake => "Handbrake",
            NavItem::Shifter => "Shifter",
        }
    }

    /// Whether the device behind the entry is connected.
    pub fn is_connected(&self, status: &DeviceStatus) -> (b: bool)
        ensures
            is_pedal(*self) ==> b == status.pedals,
            *self is Handbrake ==> b == status.handbrake,
            *self is Shifter ==> b == status.shifter,
    {
        match self {
            NavItem::Throttle | NavItem::Brake | NavItem::Clutch => status.pedals,
            NavItem::Handbrake => status.handbrake,
            NavItem::Shifter => status.shifter,
        }
    }

    /// The raw value of the entry's pedal channel in `input`; 0 for the other devices.
    pub fn raw_value(&self, input: &PedalInput) -> (v: u16)
        ensures
            *self is Throttle ==> v == input.throttle,
            *self is Brake ==> v == input.brake,
            *self is Clutch ==> v == input.clutch,
            !is_pedal(*self) ==> v == 0,
    {
        match self {
            NavItem::Throttle => input.throttle,
            NavItem::Brake => input.brake,
            NavItem::Clutch => input.clutch,
            _ => 0,
        }
    }
}

} // verus!
