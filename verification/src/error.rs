//! What can go wrong while devices are handled.
use crate::ap::ApError;
use crate::pci::{Address, PciError};
use vstd::prelude::*;

verus! {

/// A failure. `T` is a text and `L` a list of texts: `String` and
/// `Vec<String>` in running code, sequences of characters in contracts.
#[derive(Debug)]
pub enum Fault<T, L> {
    /// The driver that a PCI device is bound to could not be read.
    DriverUnreadable { dev: Address },
    /// A link could not be read.
    LinkUnreadable { path: T },
    /// The link to a device's IOMMU group does not end in a group number.
    GroupLink { path: T, target: T },
    /// A bridge should lead to exactly one bus.
    BusCount { dir: T, found: usize },
    /// The entry for a bridge's bus could not be read.
    BusUnreadable { dir: T },
    /// The name of a bridge's bus is no text.
    BusName { dir: T },
    /// The event that announced a PCI device does not end in its address.
    EventAddress { cause: PciError },
    /// An entry of the network directory links to no readable path.
    NetLink,
    /// The pattern that finds a network interface is no regular expression.
    NetPattern { pattern: T },
    /// There is no file at a device's path in the guest.
    NoSuchPath { path: T },
    /// A device's file could not be inspected.
    Unreadable { path: T },
    /// The file at a device's path is neither a block nor a character device.
    NotADevice { path: T },
    /// The specification has no `linux` section.
    NoLinux,
    /// A device type that the specification knows nothing of.
    DeviceType { name: T },
    /// Two updates ask for the same device number of the host to be replaced.
    ResourceConflict { major: i64, minor: i64 },
    /// There are updates for devices that the specification does not hold.
    MissingDevices { paths: L },
    /// An entry of the environment has no equals sign.
    EnvEntry { entry: T },
    /// An environment variable holds something else than PCI addresses.
    EnvAddress { name: T, cause: PciError },
    /// There is no guest address for a PCI address of the host.
    NoGuestAddress { host: Address },
    /// A VFIO option is not of the form `<host address>=<path>`.
    VfioOption { option: T },
    /// The host address in a VFIO option is none.
    VfioHost { cause: PciError },
    /// The path in a VFIO option is none.
    VfioPath { cause: PciError },
    /// A device has no IOMMU group.
    NoGroup { dev: Address },
    /// A device is not in the IOMMU group of the devices before it.
    OtherGroup { dev: Address, group: u32 },
    /// There is no device, hence no IOMMU group.
    NoVfioGroup,
    /// The machine has no adjunct processors.
    ApUnsupported,
    /// An option is no address of an adjunct processor queue.
    ApAddress { cause: ApError },
    /// Waiting for the adjunct processor queue that an option names ended without
    /// it.
    QueueLost { option: T },
    /// A device comes without a type.
    NoType,
    /// A device comes with neither an identifier nor a path.
    NoIdOrPath,
    /// A device comes without a path in the container.
    NoContainerPath,
    /// There is no handler for the type of a device.
    UnknownType { name: T },
    /// Two devices have the same path in the container.
    PathConflict { path: T },
    /// A PCI address of the host is given two addresses in the guest.
    AddressConflict { host: Address, guest: Address, other: Address },
}

/// A failure as running code sees it.
pub type DeviceError = Fault<String, Vec<String>>;

/// A failure as contracts see it.
pub type DeviceErrorView = Fault<Seq<char>, Seq<Seq<char>>>;

impl View for Fault<String, Vec<String>> {
    type V = Fault<Seq<char>, Seq<Seq<char>>>;

    open spec fn view(&self) -> Fault<Seq<char>, Seq<Seq<char>>> {
        match *self {
            Fault::DriverUnreadable { dev } => Fault::DriverUnreadable { dev },
            Fault::LinkUnreadable { path } => Fault::LinkUnreadable { path: path@ },
            Fault::GroupLink { path, target } => Fault::GroupLink { path: path@, target: target@ },
            Fault::BusCount { dir, found } => Fault::BusCount { dir: dir@, found },
            Fault::BusUnreadable { dir } => Fault::BusUnreadable { dir: dir@ },
            Fault::BusName { dir } => Fault::BusName { dir: dir@ },
            Fault::EventAddress { cause } => Fault::EventAddress { cause },
            Fault::NetLink => Fault::NetLink,
            Fault::NetPattern { pattern } => Fault::NetPattern { pattern: pattern@ },
            Fault::NoSuchPath { path } => Fault::NoSuchPath { path: path@ },
            Fault::Unreadable { path } => Fault::Unreadable { path: path@ },
            Fault::NotADevice { path } => Fault::NotADevice { path: path@ },
            Fault::NoLinux => Fault::NoLinux,
            Fault::DeviceType { name } => Fault::DeviceType { name: name@ },
            Fault::ResourceConflict { major, minor } => Fault::ResourceConflict { major, minor },
            Fault::MissingDevices { paths } => Fault::MissingDevices {
                paths: paths@.map_values(|p: String| p@),
            },
            Fault::EnvEntry { entry } => Fault::EnvEntry { entry: entry@ },
            Fault::EnvAddress { name, cause } => Fault::EnvAddress { name: name@, cause },
            Fault::NoGuestAddress { host } => Fault::NoGuestAddress { host },
            Fault::VfioOption { option } => Fault::VfioOption { option: option@ },
            Fault::VfioHost { cause } => Fault::VfioHost { cause },
            Fault::VfioPath { cause } => Fault::VfioPath { cause },
            Fault::NoGroup { dev } => Fault::NoGroup { dev },
            Fault::OtherGroup { dev, group } => Fault::OtherGroup { dev, group },
            Fault::NoVfioGroup => Fault::NoVfioGroup,
            Fault::ApUnsupported => Fault::ApUnsupported,
            Fault::ApAddress { cause } => Fault::ApAddress { cause },
            Fault::QueueLost { option } => Fault::QueueLost { option: option@ },
            Fault::NoType => Fault::NoType,
            Fault::NoIdOrPath => Fault::NoIdOrPath,
            Fault::NoContainerPath => Fault::NoContainerPath,
            Fault::UnknownType { name } => Fault::UnknownType { name: name@ },
            Fault::PathConflict { path } => Fault::PathConflict { path: path@ },
            Fault::AddressConflict { host, guest, other } => Fault::AddressConflict {
                host,
                guest,
                other,
            },
        }
    }
}

/// The outcome of a call without a value, as contracts see it.
pub open spec fn outcome(r: Result<(), DeviceError>) -> Result<(), DeviceErrorView> {
    match r {
        Ok(()) => Ok(()),
        Err(e) => Err(e@),
    }
}

} // verus!
