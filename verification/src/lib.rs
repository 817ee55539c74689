//! Driver logic for the MECA EVO sim racing peripherals (load cell pedals, handbrake and
//! sequential shifter): the report formats, the 9-point response curve and the device
//! identifiers, each with a machine-checked contract.
//!
//! Each device has its own report layout; the only thing all three share at the API level is
//! reading input: [`InputDevice`]. Opening the USB devices and moving the bytes is left to the
//! caller, which hands the received bytes to the decoders here.
use vstd::prelude::*;

pub mod codec;
pub mod curve;
pub mod handbrake;
pub mod ids;
pub mod nav;
pub mod pedals;
pub mod poll;
pub mod shifter;
pub mod transport;

pub use ids::{DeviceKind, VENDOR_ID};
pub use nav::NavItem;
pub use pedals::PedalInput;
pub use shifter::Shift;

verus! {

/// The error type of `hidapi`, the USB HID layer that carries the reports.
#[verifier::external_type_specification]
#[verifier::external_body]
pub struct ExHidError(hidapi::HidError);

/// Covers everything that can go wrong when talking to an EVO device.
#[derive(Debug)]
pub enum Error {
    /// The `hidapi` layer failed.
    Hid(hidapi::HidError),
    /// No connected device matched the requested kind.
    DeviceNotFound(DeviceKind),
    /// A report was shorter than expected.
    ShortReport { expected: usize, got: usize },
}

impl From<hidapi::HidError> for Error {
    fn from(e: hidapi::HidError) -> (r: Self) {
        Error::Hid(e)
    }
}

impl vstd::std_specs::convert::FromSpecImpl<hidapi::HidError> for Error {
    open spec fn obeys_from_spec() -> bool {
        true
    }

    open spec fn from_spec(e: hidapi::HidError) -> Self {
        Error::Hid(e)
    }
}

/// A device that produces input reports. The report differs per device so each implementor
/// provides its own [`InputDevice::Input`] type.
///
/// Covers only reading input. Configuration (curves, deadzones, calibration) is on the
/// concrete types.
pub trait InputDevice {
    /// The decoded input this device produces (e.g. only 1 axis, shifter state).
    type Input;

    /// Reads and decodes the next input report.
    fn read_input(&mut self) -> Result<Self::Input, Error>;
}

/// Connection status of all three devices.
#[derive(Debug, Clone)]
pub struct DeviceStatus {
    pub pedals: bool,
    pub handbrake: bool,
    pub shifter: bool,
}

/// 1 for a connected device, 0 otherwise.
pub open spec fn count_of(b: bool) -> int {
    if b {
        1
    } else {
        0
    }
}

/// A USB device with vendor id `vid` and product id `pid` is the EVO device `kind`.
pub open spec fn is_device(vid: u16, pid: u16, kind: DeviceKind) -> bool {
    vid == VENDOR_ID && pid == ids::spec_product_id(kind)
}

/// Some device in `ids` (pairs of vendor and product id) is the EVO device `kind`.
pub open spec fn lists_device(ids: Seq<(u16, u16)>, kind: DeviceKind) -> bool {
    exists|i: int| 0 <= i < ids.len() && is_device(#[trigger] ids[i].0, ids[i].1, kind)
}

impl Default for DeviceStatus {
    /// No device connected.
    fn default() -> (s: Self)
        ensures
            !s.pedals && !s.handbrake && !s.shifter,
    {
        DeviceStatus { pedals: false, handbrake: false, shifter: false }
    }
}

impl DeviceStatus {
    /// Returns the number of connected devices.
    pub fn connected_count(&self) -> (n: u8)
        ensures
            n == count_of(self.pedals) + count_of(self.handbrake) + count_of(self.shifter),
            n <= 3,
    {
        let mut n: u8 = 0;
        if self.pedals {
            n = n + 1;
        }
        if self.handbrake {
            n = n + 1;
        }
        if self.shifter {
            n = n + 1;
        }
        n
    }

    /// The connection status of the three EVO devices among the enumerated USB devices
    /// `ids`, each given by its vendor and product id.
    pub fn from_device_ids(ids: &[(u16, u16)]) -> (s: Self)
        ensures
            s.pedals == lists_device(ids@, DeviceKind::Pedals),
            s.handbrake == lists_device(ids@, DeviceKind::Handbrake),
            s.shifter == lists_device(ids@, DeviceKind::Shifter),
    {
        let pedals_pid = DeviceKind::Pedals.product_id();
        let handbrake_pid = DeviceKind::Handbrake.product_id();
        let shifter_pid = DeviceKind::Shifter.product_id();
        let mut s = DeviceStatus { pedals: false, handbrake: false, shifter: false };
        let mut i: usize = 0;
        while i < ids.len()
            invariant
                i <= ids@.len(),
                pedals_pid == ids::spec_product_id(DeviceKind::Pedals),
                handbrake_pid == ids::spec_product_id(DeviceKind::Handbrake),
                shifter_pid == ids::spec_product_id(DeviceKind::Shifter),
                s.pedals == lists_device(ids@.take(i as int), DeviceKind::Pedals),
                s.handbrake == lists_device(ids@.take(i as int), DeviceKind::Handbrake),
                s.shifter == lists_device(ids@.take(i as int), DeviceKind::Shifter),
            decreases ids@.len() - i,
        {
            let (vid, pid) = ids[i];
            let ghost before = ids@.take(i as int);
            let ghost after = ids@.take(i + 1);
            proof {
                assert forall|j: int| 0 <= j < before.len() implies #[trigger] before[j] == after[j] by {}
                assert(after[i as int] == ids@[i as int]);
            }
            if vid == VENDOR_ID {
                if pid == pedals_pid {
                    s.pedals = true;
                }
                if pid == handbrake_pid {
                    s.handbrake = true;
                }
                if pid == shifter_pid {
                    s.shifter = true;
                }
            }
            proof {
                assert(s.pedals == lists_device(after, DeviceKind::Pedals)) by {
                    if lists_device(after, DeviceKind::Pedals) && !lists_device(before, DeviceKind::Pedals) {
                        let j = choose|j: int| 0 <= j < after.len() && is_device(#[trigger] after[j].0, after[j].1, DeviceKind::Pedals);
                        assert(j == i);
                    }
                    if lists_device(before, DeviceKind::Pedals) {
                        let j = choose|j: int| 0 <= j < before.len() && is_device(#[trigger] before[j].0, before[j].1, DeviceKind::Pedals);
                        assert(after[j] == before[j]);
                    }
                }
                assert(s.handbrake == lists_device(after, DeviceKind::Handbrake)) by {
                    if lists_device(after, DeviceKind::Handbrake) && !lists_device(before, DeviceKind::Handbrake) {
                        let j = choose|j: int| 0 <= j < after.len() && is_device(#[trigger] after[j].0, after[j].1, DeviceKind::Handbrake);
                        assert(j == i);
                    }
                    if lists_device(before, DeviceKind::Handbrake) {
                        let j = choose|j: int| 0 <= j < before.len() && is_device(#[trigger] before[j].0, before[j].1, DeviceKind::Handbrake);
                        assert(after[j] == before[j]);
                    }
                }
                assert(s.shifter == lists_device(after, DeviceKind::Shifter)) by {
                    if lists_device(after, DeviceKind::Shifter) && !lists_device(before, DeviceKind::Shifter) {
                        let j = choose|j: int| 0 <= j < after.len() && is_device(#[trigger] after[j].0, after[j].1, DeviceKind::Shifter);
                        assert(j == i);
                    }
                    if lists_device(before, DeviceKind::Shifter) {
                        let j = choose|j: int| 0 <= j < before.len() && is_device(#[trigger] before[j].0, before[j].1, DeviceKind::Shifter);
                        assert(after[j] == before[j]);
                    }
                }
            }
            i = i + 1;
        }
        proof {
            assert(ids@.take(ids@.len() as int) =~= ids@);
        }
        s
    }
}

} // verus!
