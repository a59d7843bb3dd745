//! Events by which the guest kernel announces devices.
use vstd::prelude::*;

verus! {

/// A kernel event.
#[derive(Clone, Debug, Default)]
pub struct Uevent {
    /// What happened to the device.
    pub action: String,
    /// The name of the device's node below `/dev`.
    pub devname: String,
    /// The device's path in sysfs, below `/sys`.
    pub devpath: String,
    /// The kernel subsystem that the device belongs to.
    pub subsystem: String,
    /// The name of a network device's interface.
    pub interface: String,
}

/// Tells the event that is waited for from all others.
pub trait UeventMatcher {
    /// Whether the event is the one waited for.
    spec fn accepts(&self, uev: Uevent) -> bool;

    /// Whether the event is the one waited for.
    fn is_match(&self, uev: &Uevent) -> (r: bool)
        ensures
            r == self.accepts(*uev),
    ;
}

} // verus!
