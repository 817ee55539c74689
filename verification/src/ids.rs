//! USB identifiers for the MECA EVO device family.
//! All devices share the Microchip vendor id; the product id selects the device.
use vstd::prelude::*;

verus! {

/// USB vendor id on all EVO devices (Microchip Technology Inc.).
pub const VENDOR_ID: u16 = 0x04D8;

/// One of the three EVO devices, identified by USB product id.
#[derive(Debug, Clone, Copy, PartialEq, Eq, Structural, Hash)]
pub enum DeviceKind {
    Pedals,
    Handbrake,
    Shifter,
}

/// The USB product id that the device of `kind` reports.
pub open spec fn spec_product_id(kind: DeviceKind) -> u16 {
    match kind {
        DeviceKind::Pedals => 0xEA35,
        DeviceKind::Handbrake => 0xEA34,
        DeviceKind::Shifter => 0xEA33,
    }
}

/// The device whose product id is `pid`, if any of the three has it.
pub open spec fn spec_from_product_id(pid: u16) -> Option<DeviceKind> {
    if pid == 0xEA35 {
        Some(DeviceKind::Pedals)
    } else if pid == 0xEA34 {
        Some(DeviceKind::Handbrake)
    } else if pid == 0xEA33 {
        Some(DeviceKind::Shifter)
    } else {
        None
    }
}

impl DeviceKind {
    /// The USB product id for this device.
    pub fn product_id(self) -> (pid: u16)
        ensures
            pid == spec_product_id(self),
    {
        match self {
            DeviceKind::Pedals => 0xEA35,
            DeviceKind::Handbrake => 0xEA34,
            DeviceKind::Shifter => 0xEA33,
        }
    }

    /// Maps a USB product id back to a device if it is a known one.
    pub fn from_product_id(pid: u16) -> (kind: Option<DeviceKind>)
        ensures
            kind == spec_from_product_id(pid),
    {
        match pid {
            0xEA35 => Some(DeviceKind::Pedals),
            0xEA34 => Some(DeviceKind::Handbrake),
            0xEA33 => Some(DeviceKind::Shifter),
            _ => None,
        }
    }
}

/// Every device is found again from its own product id.
pub proof fn lemma_product_id_roundtrip(kind: DeviceKind)
    ensures
        spec_from_product_id(spec_product_id(kind)) == Some(kind),
{
}

/// A product id that maps to a device is that device's product id.
pub proof fn lemma_from_product_id_inverse(pid: u16)
    ensures
        spec_from_product_id(pid) matches Some(kind) ==> spec_product_id(kind) == pid,
{
}

} // verus!
