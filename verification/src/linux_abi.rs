//! Names that the Linux kernel and the container runtime use.
use vstd::prelude::*;

verus! {

/// Where sysfs is mounted.
pub const SYSFS_DIR: &'static str = "/sys";

/// The sysfs directory of the PCI bus.
pub const SYSFS_BUS_PCI_PATH: &'static str = "/sys/bus/pci";

/// The sysfs directory with a link for every network interface.
pub const SYSFS_NET_PATH: &'static str = "/sys/class/net";

/// Where device nodes live.
pub const SYSTEM_DEV_PATH: &'static str = "/dev";

/// The sysfs path of the PCI host bridge, below `SYSFS_DIR`.
pub const PCI_ROOT_BUS_PATH: &'static str = "/devices/pci0000:00";

/// The sysfs path of the adjunct processor bus, below `SYSFS_DIR`.
pub const AP_ROOT_BUS_PATH: &'static str = "/devices/ap";

/// Writing to this file makes the kernel scan the adjunct processor bus.
pub const AP_SCANS_PATH: &'static str = "/sys/bus/ap/scans";

/// Writing a number of seconds to this file sets how often the kernel scans the
/// adjunct processor bus by itself.
pub const AP_CONFIG_TIME_PATH: &'static str = "/sys/bus/ap/config_time";

/// The least number of seconds between two such scans.
pub const AP_RESCAN_SECONDS: u32 = 5;

/// The device node of the cryptographic device driver.
pub const Z9_CRYPT_DEV_PATH: &'static str = "/dev/z90crypt";

/// The action of a kernel event that announces a device.
pub const U_EVENT_ACTION_ADD: &'static str = "add";

/// The action of a kernel event that takes a device away.
pub const U_EVENT_ACTION_REMOVE: &'static str = "remove";

/// A virtio block device on the PCI bus.
pub const DRIVER_BLK_PCI_TYPE: &'static str = "blk";

/// A virtio block device on the channel subsystem.
pub const DRIVER_BLK_CCW_TYPE: &'static str = "blk-ccw";

/// A virtio block device that is mapped into memory.
pub const DRIVER_BLK_MMIO_TYPE: &'static str = "mmioblk";

/// A non-volatile memory module.
pub const DRIVER_NVDIMM_TYPE: &'static str = "nvdimm";

/// A SCSI disk.
pub const DRIVER_SCSI_TYPE: &'static str = "scsi";

/// A VFIO device on the PCI bus that the guest kernel drives itself.
pub const DRIVER_VFIO_PCI_GK_TYPE: &'static str = "vfio-pci-gk";

/// A VFIO device on the PCI bus that the container drives through VFIO.
pub const DRIVER_VFIO_PCI_TYPE: &'static str = "vfio-pci";

/// A VFIO adjunct processor device.
pub const DRIVER_VFIO_AP_TYPE: &'static str = "vfio-ap";

/// The sysfs path of the PCI host bridge, below `SYSFS_DIR`.
pub fn create_pci_root_bus_path() -> (r: String)
    ensures
        r@ == PCI_ROOT_BUS_PATH@,
{
    PCI_ROOT_BUS_PATH.to_owned()
}

} // verus!
