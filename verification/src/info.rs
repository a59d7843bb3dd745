//! What a device is inside the guest, and what that changes for a container.
use crate::error::{DeviceError, DeviceErrorView, Fault};
use crate::pci::Address;
use vstd::prelude::*;
use vstd::std_specs::convert::{FromSpecImpl, IntoSpec};

verus! {

/// The major part of a Linux device number.
pub open spec fn dev_major(dev: u64) -> u64 {
    ((dev >> 32) & 0xffff_f000u64) | ((dev >> 8) & 0x0000_0fffu64)
}

/// The minor part of a Linux device number.
pub open spec fn dev_minor(dev: u64) -> u64 {
    ((dev >> 12) & 0xffff_ff00u64) | (dev & 0x0000_00ffu64)
}

/// `major` of nix: the major part of a device number, which stands in two
/// runs of its bits.
pub assume_specification[ nix::sys::stat::major ](dev: u64) -> (r: u64)
    ensures
        r == dev_major(dev),
;

/// `minor` of nix: the minor part of a device number, which stands in two
/// runs of its bits.
pub assume_specification[ nix::sys::stat::minor ](dev: u64) -> (r: u64)
    ensures
        r == dev_minor(dev),
;

/// The two parts of a device number have at most thirty-two bits each, and
/// together they tell the number.
pub proof fn device_number_parts(a: u64, b: u64)
    ensures
        dev_major(a) <= 0xffff_ffff,
        dev_minor(a) <= 0xffff_ffff,
        dev_major(a) == dev_major(b) && dev_minor(a) == dev_minor(b) ==> a == b,
{
    assert(((a >> 32) & 0xffff_f000u64) | ((a >> 8) & 0x0000_0fffu64) <= 0xffff_ffff) by (bit_vector);
    assert(((a >> 12) & 0xffff_ff00u64) | (a & 0x0000_00ffu64) <= 0xffff_ffff) by (bit_vector);
    assert(((a >> 32) & 0xffff_f000u64) | ((a >> 8) & 0x0000_0fffu64) == ((b >> 32)
        & 0xffff_f000u64) | ((b >> 8) & 0x0000_0fffu64) && ((a >> 12) & 0xffff_ff00u64) | (a
        & 0x0000_00ffu64) == ((b >> 12) & 0xffff_ff00u64) | (b & 0x0000_00ffu64) ==> a == b)
        by (bit_vector);
}

/// What kind of file there is at a path.
#[derive(Clone, Copy, Debug, PartialEq, Eq, Structural)]
pub enum FileKind {
    Block,
    Char,
    Other,
}

/// What the file system says of a file.
#[derive(Clone, Copy, Debug, PartialEq, Eq, Structural)]
pub struct Metadata {
    /// The device that holds the file.
    pub dev: u64,
    /// The device that the file is, where it is one.
    pub rdev: u64,
    /// What kind of file it is.
    pub kind: FileKind,
}

/// What came of inspecting the file at a path.
#[derive(Clone, Copy, Debug, PartialEq, Eq, Structural)]
pub enum Inspection {
    /// There is no file.
    Missing,
    /// The file could not be inspected.
    Failed,
    /// The file was inspected.
    Found(Metadata),
}

/// A device inside the guest.
#[derive(Debug, Clone)]
pub struct DeviceInfo {
    /// Device type, "b" for block device and "c" for character device.
    pub cgroup_type: String,
    /// The major number of the device within the guest.
    pub guest_major: i64,
    /// The minor number of the device within the guest.
    pub guest_minor: i64,
}

/// A device inside the guest, as contracts see it.
#[verifier::ext_equal]
pub struct DeviceInfoView {
    pub cgroup_type: Seq<char>,
    pub guest_major: i64,
    pub guest_minor: i64,
}

impl View for DeviceInfo {
    type V = DeviceInfoView;

    open spec fn view(&self) -> DeviceInfoView {
        DeviceInfoView {
            cgroup_type: self.cgroup_type@,
            guest_major: self.guest_major,
            guest_minor: self.guest_minor,
        }
    }
}

/// The device with the number `dev`.
pub open spec fn numbered(cgroup_type: Seq<char>, dev: u64) -> DeviceInfoView {
    DeviceInfoView {
        cgroup_type,
        guest_major: dev_major(dev) as i64,
        guest_minor: dev_minor(dev) as i64,
    }
}

/// What an inspection of `vm_path` tells of the device: the device that the
/// file is, where it should be one, and otherwise the block device that holds
/// the file.
pub open spec fn device_inspected(
    vm_path: Seq<char>,
    is_rdev: bool,
    inspection: Inspection,
) -> Result<DeviceInfoView, DeviceErrorView> {
    match inspection {
        Inspection::Missing => Err(Fault::NoSuchPath { path: vm_path }),
        Inspection::Failed => Err(Fault::Unreadable { path: vm_path }),
        Inspection::Found(metadata) => if is_rdev {
            match metadata.kind {
                FileKind::Block => Ok(numbered("b"@, metadata.rdev)),
                FileKind::Char => Ok(numbered("c"@, metadata.rdev)),
                FileKind::Other => Err(Fault::NotADevice { path: vm_path }),
            }
        } else {
            Ok(numbered("b"@, metadata.dev))
        },
    }
}

impl DeviceInfo {
    /// Create a device info.
    ///
    /// # Arguments
    ///
    /// * `vm_path` - Device's vm path.
    /// * `is_rdev` - If the vm_path is a device, set to true. If the
    ///   vm_path is a file in a device, set to false.
    /// * `inspection` - What came of inspecting the file at `vm_path`.
    pub fn new(vm_path: &str, is_rdev: bool, inspection: Inspection) -> (r: Result<
        DeviceInfo,
        DeviceError,
    >)
        ensures
            match r {
                Ok(info) => device_inspected(vm_path@, is_rdev, inspection) == Ok::<
                    DeviceInfoView,
                    DeviceErrorView,
                >(info@),
                Err(e) => device_inspected(vm_path@, is_rdev, inspection) == Err::<
                    DeviceInfoView,
                    DeviceErrorView,
                >(e@),
            },
    {
        let metadata = match inspection {
            Inspection::Missing => {
                return Err(Fault::NoSuchPath { path: vm_path.to_owned() });
            },
            Inspection::Failed => {
                return Err(Fault::Unreadable { path: vm_path.to_owned() });
            },
            Inspection::Found(metadata) => metadata,
        };
        let cgroup_type: String;
        let devid: u64;
        if is_rdev {
            devid = metadata.rdev;
            match metadata.kind {
                FileKind::Block => {
                    cgroup_type = "b".to_owned();
                },
                FileKind::Char => {
                    cgroup_type = "c".to_owned();
                },
                FileKind::Other => {
                    return Err(Fault::NotADevice { path: vm_path.to_owned() });
                },
            }
        } else {
            devid = metadata.dev;
            cgroup_type = "b".to_owned();
        }
        proof {
            device_number_parts(devid, devid);
        }
        let guest_major = nix::sys::stat::major(devid) as i64;
        let guest_minor = nix::sys::stat::minor(devid) as i64;
        Ok(DeviceInfo { cgroup_type, guest_major, guest_minor })
    }
}

/// Represents the device-node and resource related updates to the OCI
/// spec needed for a particular device.
#[derive(Debug, Clone)]
pub struct DevUpdate {
    pub info: DeviceInfo,
    /// An optional new path to update the device to in the "inner" container
    /// specification.
    pub final_path: Option<String>,
}

/// An update, as contracts see it.
#[verifier::ext_equal]
pub struct DevUpdateView {
    pub info: DeviceInfoView,
    pub final_path: Option<Seq<char>>,
}

impl View for DevUpdate {
    type V = DevUpdateView;

    open spec fn view(&self) -> DevUpdateView {
        DevUpdateView {
            info: self.info@,
            final_path: match self.final_path {
                Some(path) => Some(path@),
                None => None,
            },
        }
    }
}

impl DevUpdate {
    /// The update that makes the device at `vm_path` known as `final_path`.
    pub fn new(vm_path: &str, final_path: &str, inspection: Inspection) -> (r: Result<
        DevUpdate,
        DeviceError,
    >)
        ensures
            match r {
                Ok(update) => update@.final_path == Some(final_path@) && device_inspected(
                    vm_path@,
                    true,
                    inspection,
                ) == Ok::<DeviceInfoView, DeviceErrorView>(update@.info),
                Err(e) => device_inspected(vm_path@, true, inspection) == Err::<
                    DeviceInfoView,
                    DeviceErrorView,
                >(e@),
            },
    {
        match DeviceInfo::new(vm_path, true, inspection) {
            Ok(info) => Ok(DevUpdate { info, final_path: Some(final_path.to_owned()) }),
            Err(e) => Err(e),
        }
    }
}

impl From<DeviceInfo> for DevUpdate {
    fn from(info: DeviceInfo) -> (r: Self) {
        DevUpdate { info, final_path: None }
    }
}

impl FromSpecImpl<DeviceInfo> for DevUpdate {
    open spec fn obeys_from_spec() -> bool {
        true
    }

    open spec fn from_spec(info: DeviceInfo) -> Self {
        DevUpdate { info, final_path: None }
    }
}

/// Represents the updates to the OCI spec needed for a particular device.
#[derive(Debug, Clone, Default)]
pub struct SpecUpdate {
    pub dev: Option<DevUpdate>,
    /// Optional corrections for PCI addresses.
    pub pci: Vec<(Address, Address)>,
}

/// The updates for a device, as contracts see them.
#[verifier::ext_equal]
pub struct SpecUpdateView {
    pub dev: Option<DevUpdateView>,
    pub pci: Seq<(Address, Address)>,
}

impl View for SpecUpdate {
    type V = SpecUpdateView;

    open spec fn view(&self) -> SpecUpdateView {
        SpecUpdateView {
            dev: match self.dev {
                Some(dev) => Some(dev@),
                None => None,
            },
            pci: self.pci@,
        }
    }
}

impl<T: Into<DevUpdate>> From<T> for SpecUpdate {
    fn from(dev: T) -> (r: Self)
        ensures
            r.dev is Some,
            T::obeys_into_spec() ==> r.dev == Some(dev.into_spec()),
            r.pci@.len() == 0,
    {
        SpecUpdate { dev: Some(dev.into()), pci: Vec::new() }
    }
}

impl<T: Into<DevUpdate>> FromSpecImpl<T> for SpecUpdate {
    open spec fn obeys_from_spec() -> bool {
        false
    }

    open spec fn from_spec(dev: T) -> Self {
        arbitrary()
    }
}

} // verus!
