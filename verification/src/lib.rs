//! Device handling for an agent that runs inside a virtual machine.
//!
//! The agent is told which devices of the host a container should see. It waits
//! for the guest kernel to announce them, works out what they are called inside
//! the guest, and corrects the container's specification and environment so
//! that they speak of the guest's devices.
//!
//! Everything here computes on plain values. Where the work needs files, links
//! or kernel events, a function says what to look up next, and is called again
//! with what was found.
pub mod add;
pub mod ap;
pub mod env;
pub mod error;
pub mod handler;
pub mod info;
pub mod keymap;
pub mod laws;
pub mod linux_abi;
pub mod matcher;
pub mod numeral;
pub mod oci;
pub mod pci;
pub mod spec_devices;
pub mod sysfs;
pub mod text;
pub mod uevent;
pub mod wait;
