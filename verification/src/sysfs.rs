//! Finding PCI devices in sysfs and binding them to drivers.
use crate::error::{DeviceError, DeviceErrorView, Fault};
use crate::matcher::IommuGroup;
use crate::numeral::{bounded_value, parse_bounded};
use crate::pci::{slotfn_reads_back, Address, Path, SlotFn};
use crate::text::{chars_of, concat, last_piece, same_text, split, split_text};
use vstd::prelude::*;

verus! {

/// The path that one gets to by following `rel` from `base`. An absolute `rel`
/// leads there by itself.
pub open spec fn joined(base: Seq<char>, rel: Seq<char>) -> Seq<char> {
    if rel.len() > 0 && rel[0] == '/' {
        rel
    } else if base.len() == 0 || base.last() == '/' {
        base + rel
    } else {
        base + seq!['/'] + rel
    }
}

/// The path that one gets to by following `rel` from `base`.
pub fn path_join(base: &str, rel: &str) -> (r: String)
    ensures
        r@ == joined(base@, rel@),
{
    let base_chars = chars_of(base);
    let rel_chars = chars_of(rel);
    if rel_chars.len() > 0 && rel_chars[0] == '/' {
        return rel.to_owned();
    }
    let mut r = base.to_owned();
    if base_chars.len() > 0 && base_chars[base_chars.len() - 1] != '/' {
        r.push('/');
        assert(base@.push('/') =~= base@ + seq!['/']);
    }
    r.append(rel);
    r
}

/// The last of the parts of a path that names something: empty parts and single
/// dots do not. Two dots name a directory, but not by its own name.
pub open spec fn last_name(parts: Seq<Seq<char>>) -> Option<Seq<char>>
    decreases parts.len(),
{
    if parts.len() == 0 {
        None
    } else if parts.last().len() == 0 || parts.last() == seq!['.'] {
        last_name(parts.drop_last())
    } else if parts.last() == seq!['.', '.'] {
        None
    } else {
        Some(parts.last())
    }
}

/// The name of the file or directory that the path leads to.
pub open spec fn file_name_of(path: Seq<char>) -> Option<Seq<char>> {
    last_name(split(path, '/'))
}

/// The name of the file or directory that the path leads to.
pub fn file_name(path: &str) -> (r: Option<String>)
    ensures
        match r {
            Some(name) => file_name_of(path@) == Some(name@),
            None => file_name_of(path@) is None,
        },
{
    let parts = split_text(path, '/');
    let ghost views = parts@.map_values(|p: String| p@);
    let mut i: usize = parts.len();
    proof {
        reveal_strlit(".");
        reveal_strlit("..");
        assert("."@ =~= seq!['.']);
        assert(".."@ =~= seq!['.', '.']);
        assert(views.take(i as int) =~= views);
    }
    while i > 0
        invariant
            views == parts@.map_values(|p: String| p@),
            views == split(path@, '/'),
            "."@ == seq!['.'],
            ".."@ == seq!['.', '.'],
            i <= parts.len(),
            last_name(views.take(i as int)) == last_name(views),
        decreases i,
    {
        i = i - 1;
        proof {
            assert(views.take(i + 1).drop_last() =~= views.take(i as int));
            assert(views.take(i + 1).last() == parts@[i as int]@);
        }
        let part = parts[i].as_str();
        if !part.is_empty() && !same_text(part, ".") {
            if same_text(part, "..") {
                return None;
            }
            return Some(part.to_owned());
        }
    }
    None
}

/// What came of reading a symbolic link.
#[derive(Debug)]
pub enum LinkRead {
    /// There is no such link.
    Missing,
    /// The link could not be read.
    Failed,
    /// The link leads to this path.
    Target(String),
}

/// Where the PCI bus directory `syspci` shows the device.
pub open spec fn device_dir(syspci: Seq<char>, dev: Address) -> Seq<char> {
    joined(joined(syspci, "devices"@), dev.text())
}

/// Where the PCI bus directory `syspci` shows the device.
pub fn device_path(syspci: &str, dev: Address) -> (r: String)
    ensures
        r@ == device_dir(syspci@, dev),
{
    let devices = path_join(syspci, "devices");
    let name = dev.to_string();
    path_join(devices.as_str(), name.as_str())
}

/// What to do next in order to bind a PCI device to a driver.
#[derive(Debug)]
pub enum OverrideAction<T> {
    /// Write the driver's name to the device's override file.
    Override { path: T, text: T },
    /// Read the link to the driver that the device is bound to.
    ReadDriver { path: T },
    /// Write the device's address to the unbind file of its driver.
    Unbind { path: T, text: T },
    /// Write the device's address to the file that starts a probe.
    Probe { path: T, text: T },
    /// The device is bound.
    Done,
}

impl View for OverrideAction<String> {
    type V = OverrideAction<Seq<char>>;

    open spec fn view(&self) -> OverrideAction<Seq<char>> {
        match *self {
            OverrideAction::Override { path, text } => OverrideAction::Override {
                path: path@,
                text: text@,
            },
            OverrideAction::ReadDriver { path } => OverrideAction::ReadDriver { path: path@ },
            OverrideAction::Unbind { path, text } => OverrideAction::Unbind {
                path: path@,
                text: text@,
            },
            OverrideAction::Probe { path, text } => OverrideAction::Probe {
                path: path@,
                text: text@,
            },
            OverrideAction::Done => OverrideAction::Done,
        }
    }
}

/// How far the binding of a PCI device to a driver has come.
#[derive(Debug)]
pub enum OverrideEvent {
    /// Nothing has been done yet.
    Start,
    /// The driver's name is in the override file.
    Overridden,
    /// The link to the device's driver was read.
    Driver(LinkRead),
    /// The device was unbound from its driver.
    Unbound,
    /// A probe was started.
    Probed,
}

/// Where one writes the name of the driver that the device should have.
pub open spec fn override_path(syspci: Seq<char>, dev: Address) -> Seq<char> {
    joined(device_dir(syspci, dev), "driver_override"@)
}

/// The link to the driver that the device is bound to.
pub open spec fn driver_path(syspci: Seq<char>, dev: Address) -> Seq<char> {
    joined(device_dir(syspci, dev), "driver"@)
}

/// Where one writes the address of the device to unbind it from its driver.
pub open spec fn unbind_path(syspci: Seq<char>, dev: Address) -> Seq<char> {
    joined(driver_path(syspci, dev), "unbind"@)
}

/// Where one writes the address of the device to have it probed for a driver.
pub open spec fn probe_path(syspci: Seq<char>) -> Seq<char> {
    joined(syspci, "drivers_probe"@)
}

/// What to do next in order to bind the device to the driver.
pub open spec fn override_next(
    syspci: Seq<char>,
    dev: Address,
    drv: Seq<char>,
    event: OverrideEvent,
) -> Result<OverrideAction<Seq<char>>, DeviceErrorView> {
    let probe = OverrideAction::Probe { path: probe_path(syspci), text: dev.text() };
    match event {
        OverrideEvent::Start => Ok(
            OverrideAction::Override { path: override_path(syspci, dev), text: drv },
        ),
        OverrideEvent::Overridden => Ok(
            OverrideAction::ReadDriver { path: driver_path(syspci, dev) },
        ),
        OverrideEvent::Driver(LinkRead::Missing) => Ok(probe),
        OverrideEvent::Driver(LinkRead::Failed) => Err(Fault::DriverUnreadable { dev }),
        OverrideEvent::Driver(LinkRead::Target(target)) => if file_name_of(target@) == Some(drv) {
            Ok(OverrideAction::Done)
        } else {
            Ok(OverrideAction::Unbind { path: unbind_path(syspci, dev), text: dev.text() })
        },
        OverrideEvent::Unbound => Ok(probe),
        OverrideEvent::Probed => Ok(OverrideAction::Done),
    }
}

/// Force a given PCI device to bind to the given driver, does
/// basically the same thing as
///    driverctl set-override <PCI address> <driver>
///
/// Says what to do next, given how far the work has come.
pub fn pci_driver_override(syspci: &str, dev: Address, drv: &str, event: OverrideEvent) -> (r:
    Result<OverrideAction<String>, DeviceError>)
    ensures
        match r {
            Ok(action) => override_next(syspci@, dev, drv@, event) == Ok::<
                OverrideAction<Seq<char>>,
                DeviceErrorView,
            >(action@),
            Err(e) => override_next(syspci@, dev, drv@, event) == Err::<
                OverrideAction<Seq<char>>,
                DeviceErrorView,
            >(e@),
        },
{
    let devpath = device_path(syspci, dev);
    match event {
        OverrideEvent::Start => {
            let path = path_join(devpath.as_str(), "driver_override");
            Ok(OverrideAction::Override { path, text: drv.to_owned() })
        },
        OverrideEvent::Overridden => {
            let path = path_join(devpath.as_str(), "driver");
            Ok(OverrideAction::ReadDriver { path })
        },
        OverrideEvent::Driver(LinkRead::Failed) => Err(Fault::DriverUnreadable { dev }),
        OverrideEvent::Driver(LinkRead::Target(target)) => {
            if let Some(name) = file_name(target.as_str()) {
                if same_text(name.as_str(), drv) {
                    return Ok(OverrideAction::Done);
                }
            }
            let drvpath = path_join(devpath.as_str(), "driver");
            let path = path_join(drvpath.as_str(), "unbind");
            Ok(OverrideAction::Unbind { path, text: dev.to_string() })
        },
        OverrideEvent::Driver(LinkRead::Missing) | OverrideEvent::Unbound => {
            let path = path_join(syspci, "drivers_probe");
            Ok(OverrideAction::Probe { path, text: dev.to_string() })
        },
        OverrideEvent::Probed => Ok(OverrideAction::Done),
    }
}

/// What is written, file by file, from `event` on, when every write succeeds
/// and reading the link to the driver gives `driver`. The work ends after
/// `steps` steps at the latest.
pub open spec fn override_writes(
    syspci: Seq<char>,
    dev: Address,
    drv: Seq<char>,
    driver: LinkRead,
    event: OverrideEvent,
    steps: nat,
) -> Seq<(Seq<char>, Seq<char>)>
    decreases steps,
{
    if steps == 0 {
        Seq::empty()
    } else {
        let rest = (steps - 1) as nat;
        match override_next(syspci, dev, drv, event) {
            Ok(OverrideAction::Override { path, text }) => seq![(path, text)] + override_writes(
                syspci,
                dev,
                drv,
                driver,
                OverrideEvent::Overridden,
                rest,
            ),
            Ok(OverrideAction::ReadDriver { .. }) => override_writes(
                syspci,
                dev,
                drv,
                driver,
                OverrideEvent::Driver(driver),
                rest,
            ),
            Ok(OverrideAction::Unbind { path, text }) => seq![(path, text)] + override_writes(
                syspci,
                dev,
                drv,
                driver,
                OverrideEvent::Unbound,
                rest,
            ),
            Ok(OverrideAction::Probe { path, text }) => seq![(path, text)] + override_writes(
                syspci,
                dev,
                drv,
                driver,
                OverrideEvent::Probed,
                rest,
            ),
            _ => Seq::empty(),
        }
    }
}

/// The override file is always written first. A device that has the driver
/// already is left alone after that; one without a driver is probed; one with
/// another driver is unbound from it and then probed.
pub proof fn override_course(
    syspci: Seq<char>,
    dev: Address,
    drv: Seq<char>,
    driver: LinkRead,
    steps: nat,
)
    requires
        steps >= 5,
    ensures
        override_writes(syspci, dev, drv, driver, OverrideEvent::Start, steps) == {
            let overridden = (override_path(syspci, dev), drv);
            let unbound = (unbind_path(syspci, dev), dev.text());
            let probed = (probe_path(syspci), dev.text());
            match driver {
                LinkRead::Missing => seq![overridden, probed],
                LinkRead::Failed => seq![overridden],
                LinkRead::Target(target) => if file_name_of(target@) == Some(drv) {
                    seq![overridden]
                } else {
                    seq![overridden, unbound, probed]
                },
            }
        },
{
    reveal_with_fuel(override_writes, 6);
}

/// The link from the device to its IOMMU group.
pub open spec fn group_path(syspci: Seq<char>, dev: Address) -> Seq<char> {
    joined(device_dir(syspci, dev), "iommu_group"@)
}

/// The link from the device to its IOMMU group.
pub fn iommu_group_path(syspci: &str, dev: Address) -> (r: String)
    ensures
        r@ == group_path(syspci@, dev),
{
    let devpath = device_path(syspci, dev);
    path_join(devpath.as_str(), "iommu_group")
}

/// The IOMMU group that the link at `path` leads to.
pub open spec fn group_read(path: Seq<char>, read: LinkRead) -> Result<
    Option<IommuGroup>,
    DeviceErrorView,
> {
    match read {
        LinkRead::Missing => Ok(None),
        LinkRead::Failed => Err(Fault::LinkUnreadable { path }),
        LinkRead::Target(target) => {
            let unexpected = Err(Fault::GroupLink { path, target: target@ });
            match file_name_of(target@) {
                None => unexpected,
                Some(name) => match bounded_value(name, 10, u32::MAX as nat) {
                    None => unexpected,
                    Some(number) => Ok(Some(IommuGroup(number as u32))),
                },
            }
        },
    }
}

/// Determine the IOMMU group of a PCI device, given what came of reading the
/// link to it. A device without such a link has no group.
pub fn pci_iommu_group(syspci: &str, dev: Address, read: LinkRead) -> (r: Result<
    Option<IommuGroup>,
    DeviceError,
>)
    ensures
        match r {
            Ok(group) => group_read(group_path(syspci@, dev), read) == Ok::<
                Option<IommuGroup>,
                DeviceErrorView,
            >(group),
            Err(e) => group_read(group_path(syspci@, dev), read) == Err::<
                Option<IommuGroup>,
                DeviceErrorView,
            >(e@),
        },
{
    let path = iommu_group_path(syspci, dev);
    match read {
        LinkRead::Missing => Ok(None),
        LinkRead::Failed => Err(Fault::LinkUnreadable { path }),
        LinkRead::Target(target) => {
            if let Some(name) = file_name(target.as_str()) {
                let chars = chars_of(name.as_str());
                if let Some(number) = parse_bounded(chars.as_slice(), 10, u32::MAX) {
                    return Ok(Some(IommuGroup(number)));
                }
            }
            Err(Fault::GroupLink { path, target })
        },
    }
}

/// The number of the bus below the PCI host bridge.
pub const ROOT_BUS: &'static str = "0000:00";

/// What is below a bridge's directory of buses.
pub const BUS_DIR: &'static str = "/pci_bus";

/// An entry of a directory.
#[derive(Debug)]
pub enum DirEntry {
    /// An entry with this name.
    Name(String),
    /// An entry whose name is no text.
    NotText,
    /// An entry that could not be read.
    Failed,
}

/// What to do next in order to find a device in sysfs.
#[derive(Debug)]
pub enum WalkAction<T> {
    /// List the entries of this directory.
    List(T),
    /// The device is at this path below the PCI host bridge.
    Done(T),
}

impl View for WalkAction<String> {
    type V = WalkAction<Seq<char>>;

    open spec fn view(&self) -> WalkAction<Seq<char>> {
        match *self {
            WalkAction::List(dir) => WalkAction::List(dir@),
            WalkAction::Done(path) => WalkAction::Done(path@),
        }
    }
}

/// The one bus that a bridge's directory of buses holds.
pub open spec fn only_bus(listing: Seq<DirEntry>, dir: Seq<char>) -> Result<
    Seq<char>,
    DeviceErrorView,
> {
    if listing.len() != 1 {
        Err(Fault::BusCount { dir, found: listing.len() as usize })
    } else {
        match listing[0] {
            DirEntry::Name(name) => Ok(name@),
            DirEntry::NotText => Err(Fault::BusName { dir }),
            DirEntry::Failed => Err(Fault::BusUnreadable { dir }),
        }
    }
}

/// The part of a sysfs path for a slot on a bus.
pub open spec fn hop(bus: Seq<char>, slot: SlotFn) -> Seq<char> {
    seq!['/'] + bus + seq![':'] + slot.text()
}

/// Where sysfs shows the bridge's buses, for a bridge at `relpath`.
pub open spec fn bus_dir(root: Seq<char>, relpath: Seq<char>) -> Seq<char> {
    root + relpath + BUS_DIR@
}

/// The sysfs path, below the PCI host bridge, of slot `k` of the PCI path. The
/// bus of each slot but the first is the one that the listing of the bridge
/// before it gave.
pub open spec fn sysfs_path(
    root: Seq<char>,
    pcipath: Seq<SlotFn>,
    listings: Seq<Vec<DirEntry>>,
    k: nat,
) -> Result<Seq<char>, DeviceErrorView>
    decreases k,
{
    if k == 0 {
        Ok(hop(ROOT_BUS@, pcipath[0]))
    } else {
        match sysfs_path(root, pcipath, listings, (k - 1) as nat) {
            Err(e) => Err(e),
            Ok(relpath) => match only_bus(listings[k - 1]@, bus_dir(root, relpath)) {
                Err(e) => Err(e),
                Ok(bus) => Ok(relpath + hop(bus, pcipath[k as int])),
            },
        }
    }
}

/// What to do next in order to find the device, when the buses of the bridges
/// on the way were listed as far as `listings` goes.
pub open spec fn walk_next(
    root: Seq<char>,
    pcipath: Seq<SlotFn>,
    listings: Seq<Vec<DirEntry>>,
) -> Result<WalkAction<Seq<char>>, DeviceErrorView> {
    let last = (pcipath.len() - 1) as nat;
    let k = if listings.len() < last {
        listings.len()
    } else {
        last
    };
    match sysfs_path(root, pcipath, listings, k) {
        Err(e) => Err(e),
        Ok(relpath) => if k == last {
            Ok(WalkAction::Done(relpath))
        } else {
            Ok(WalkAction::List(bus_dir(root, relpath)))
        },
    }
}

/// The one bus that a bridge's directory of buses holds.
fn find_bus(listing: &Vec<DirEntry>, dir: String) -> (r: Result<String, DeviceError>)
    ensures
        match r {
            Ok(bus) => only_bus(listing@, dir@) == Ok::<Seq<char>, DeviceErrorView>(bus@),
            Err(e) => only_bus(listing@, dir@) == Err::<Seq<char>, DeviceErrorView>(e@),
        },
{
    if listing.len() != 1 {
        return Err(Fault::BusCount { dir, found: listing.len() });
    }
    match &listing[0] {
        DirEntry::Name(name) => Ok(name.clone()),
        DirEntry::NotText => Err(Fault::BusName { dir }),
        DirEntry::Failed => Err(Fault::BusUnreadable { dir }),
    }
}

/// Appends the part of a sysfs path for a slot on a bus.
fn extend_path(relpath: &mut String, bus: &str, slot: SlotFn)
    ensures
        final(relpath)@ == old(relpath)@ + hop(bus@, slot),
{
    let ghost before = relpath@;
    relpath.push('/');
    relpath.append(bus);
    relpath.push(':');
    let text = slot.to_string();
    relpath.append(text.as_str());
    assert(relpath@ =~= before + hop(bus@, slot));
}

/// Where sysfs shows the bridge's buses.
fn bus_dir_text(root: &str, relpath: &str) -> (r: String)
    ensures
        r@ == bus_dir(root@, relpath@),
{
    let mut r = concat(root, relpath);
    r.append(BUS_DIR);
    r
}

proof fn lemma_error_on_the_way(
    root: Seq<char>,
    pcipath: Seq<SlotFn>,
    listings: Seq<Vec<DirEntry>>,
    k: nat,
    m: nat,
)
    requires
        k <= m,
        sysfs_path(root, pcipath, listings, k) is Err,
    ensures
        sysfs_path(root, pcipath, listings, m) == sysfs_path(root, pcipath, listings, k),
    decreases m - k,
{
    if k < m {
        lemma_error_on_the_way(root, pcipath, listings, k, (m - 1) as nat);
    }
}

/// Fetches the sysfs path for a PCI path, relative to the sysfs path for the
/// PCI host bridge, based on the PCI path provided.
///
/// Says which directory to list next, or the path, given the listings of the
/// directories that it asked for before, in order.
pub fn pcipath_to_sysfs(
    root_bus_sysfs: &str,
    pcipath: &Path,
    listings: &Vec<Vec<DirEntry>>,
) -> (r: Result<WalkAction<String>, DeviceError>)
    ensures
        match r {
            Ok(action) => walk_next(root_bus_sysfs@, pcipath@, listings@) == Ok::<
                WalkAction<Seq<char>>,
                DeviceErrorView,
            >(action@),
            Err(e) => walk_next(root_bus_sysfs@, pcipath@, listings@) == Err::<
                WalkAction<Seq<char>>,
                DeviceErrorView,
            >(e@),
        },
{
    let last = pcipath.len() - 1;
    let k = if listings.len() < last {
        listings.len()
    } else {
        last
    };
    let mut relpath = String::new();
    extend_path(&mut relpath, ROOT_BUS, pcipath.get(0));
    assert(relpath@ =~= hop(ROOT_BUS@, pcipath@[0]));
    for i in 0..k
        invariant
            k <= last,
            k <= listings.len(),
            last + 1 == pcipath@.len(),
            walk_next(root_bus_sysfs@, pcipath@, listings@) is Err <==> sysfs_path(
                root_bus_sysfs@,
                pcipath@,
                listings@,
                k as nat,
            ) is Err,
            sysfs_path(root_bus_sysfs@, pcipath@, listings@, k as nat) matches Err(e)
                ==> walk_next(root_bus_sysfs@, pcipath@, listings@) == Err::<
                WalkAction<Seq<char>>,
                DeviceErrorView,
            >(e),
            sysfs_path(root_bus_sysfs@, pcipath@, listings@, i as nat) == Ok::<
                Seq<char>,
                DeviceErrorView,
            >(relpath@),
    {
        let dir = bus_dir_text(root_bus_sysfs, relpath.as_str());
        match find_bus(&listings[i], dir) {
            Ok(bus) => {
                extend_path(&mut relpath, bus.as_str(), pcipath.get(i + 1));
            },
            Err(e) => {
                proof {
                    lemma_error_on_the_way(
                        root_bus_sysfs@,
                        pcipath@,
                        listings@,
                        (i + 1) as nat,
                        k as nat,
                    );
                }
                return Err(e);
            },
        }
    }
    if k == last {
        Ok(WalkAction::Done(relpath))
    } else {
        let dir = bus_dir_text(root_bus_sysfs, relpath.as_str());
        Ok(WalkAction::List(dir))
    }
}

/// The path that leads through the slots, each on the bus at the same place.
pub open spec fn spelled(pcipath: Seq<SlotFn>, buses: Seq<Seq<char>>, k: nat) -> Seq<char>
    decreases k,
{
    if k == 0 {
        hop(buses[0], pcipath[0])
    } else {
        spelled(pcipath, buses, (k - 1) as nat) + hop(buses[k as int], pcipath[k as int])
    }
}

/// Whether the directory has one entry, and that entry has the name.
pub open spec fn only_entry(listing: Seq<DirEntry>, bus: Seq<char>) -> bool {
    listing.len() == 1 && match listing[0] {
        DirEntry::Name(name) => name@ == bus,
        _ => false,
    }
}

/// Where every bridge on the way leads to exactly one bus, the device is found
/// after one listing for each bridge, and its path names every slot on the bus
/// that the bridge before it leads to.
pub proof fn walk_arrives(
    root: Seq<char>,
    pcipath: Seq<SlotFn>,
    listings: Seq<Vec<DirEntry>>,
    buses: Seq<Seq<char>>,
)
    requires
        pcipath.len() >= 1,
        listings.len() == pcipath.len() - 1,
        buses.len() == pcipath.len(),
        buses[0] == ROOT_BUS@,
        forall|i: int|
            0 <= i < listings.len() ==> only_entry((#[trigger] listings[i])@, buses[i + 1]),
    ensures
        walk_next(root, pcipath, listings) == Ok::<WalkAction<Seq<char>>, DeviceErrorView>(
            WalkAction::Done(spelled(pcipath, buses, (pcipath.len() - 1) as nat)),
        ),
{
    lemma_walk_spells(root, pcipath, listings, buses, (pcipath.len() - 1) as nat);
}

proof fn lemma_walk_spells(
    root: Seq<char>,
    pcipath: Seq<SlotFn>,
    listings: Seq<Vec<DirEntry>>,
    buses: Seq<Seq<char>>,
    k: nat,
)
    requires
        k < pcipath.len(),
        listings.len() == pcipath.len() - 1,
        buses.len() == pcipath.len(),
        buses[0] == ROOT_BUS@,
        forall|i: int|
            0 <= i < listings.len() ==> only_entry((#[trigger] listings[i])@, buses[i + 1]),
    ensures
        sysfs_path(root, pcipath, listings, k) == Ok::<Seq<char>, DeviceErrorView>(
            spelled(pcipath, buses, k),
        ),
    decreases k,
{
    if k > 0 {
        lemma_walk_spells(root, pcipath, listings, buses, (k - 1) as nat);
        assert(only_entry(listings[k - 1]@, buses[k as int]));
    }
}

/// Once a device is found, further listings do not change its path.
pub proof fn walk_is_settled(
    root: Seq<char>,
    pcipath: Seq<SlotFn>,
    listings: Seq<Vec<DirEntry>>,
    more: Vec<DirEntry>,
)
    requires
        walk_next(root, pcipath, listings) matches Ok(WalkAction::Done(_)),
    ensures
        walk_next(root, pcipath, listings.push(more)) == walk_next(root, pcipath, listings),
{
    let last = (pcipath.len() - 1) as nat;
    lemma_same_prefix(root, pcipath, listings, more, last);
}

/// Whether no name in the listings holds a slash.
pub open spec fn plain_names(listings: Seq<Vec<DirEntry>>) -> bool {
    forall|i: int, j: int|
        0 <= i < listings.len() && 0 <= j < listings[i]@.len() ==> match #[trigger] listings[i]@[j] {
            DirEntry::Name(name) => !name@.contains('/'),
            _ => true,
        }
}

/// Where a device is found, so is every bridge on the way to it, with the same
/// listings, and the path of the bridge and a slash begin the path of the
/// device. Where no name of a bus holds a slash, each path has one part for
/// every slot, behind its leading slash.
pub proof fn bridges_come_first(
    root: Seq<char>,
    pcipath: Seq<SlotFn>,
    listings: Seq<Vec<DirEntry>>,
    path: Seq<char>,
    m: nat,
)
    requires
        1 <= m < pcipath.len(),
        walk_next(root, pcipath, listings) == Ok::<WalkAction<Seq<char>>, DeviceErrorView>(
            WalkAction::Done(path),
        ),
    ensures
        ({
            let found = walk_next(root, pcipath.take(m as int), listings);
            &&& found matches Ok(WalkAction::Done(bridge)) && (bridge + seq!['/']).is_prefix_of(path)
            &&& plain_names(listings) ==> {
                &&& split(path, '/').len() == pcipath.len() + 1
                &&& split(found->Ok_0->Done_0, '/').len() == m + 1
            }
        }),
{
    let last = (pcipath.len() - 1) as nat;
    let short = pcipath.take(m as int);
    lemma_beginning(root, pcipath, listings, m, (m - 1) as nat);
    lemma_longer(root, pcipath, listings, (m - 1) as nat, last);
    if plain_names(listings) {
        lemma_parts(root, pcipath, listings, last);
        lemma_parts(root, short, listings, (m - 1) as nat);
    }
}

/// The sysfs path of a slot depends on no slot behind it.
proof fn lemma_beginning(
    root: Seq<char>,
    pcipath: Seq<SlotFn>,
    listings: Seq<Vec<DirEntry>>,
    m: nat,
    k: nat,
)
    requires
        k < m <= pcipath.len(),
    ensures
        sysfs_path(root, pcipath.take(m as int), listings, k) == sysfs_path(
            root,
            pcipath,
            listings,
            k,
        ),
    decreases k,
{
    if k > 0 {
        lemma_beginning(root, pcipath, listings, m, (k - 1) as nat);
    }
}

/// The sysfs path of a slot, with a slash, begins that of every slot behind it.
proof fn lemma_longer(
    root: Seq<char>,
    pcipath: Seq<SlotFn>,
    listings: Seq<Vec<DirEntry>>,
    k: nat,
    n: nat,
)
    requires
        k < n,
        sysfs_path(root, pcipath, listings, n) is Ok,
    ensures
        sysfs_path(root, pcipath, listings, k) is Ok,
        (sysfs_path(root, pcipath, listings, k)->Ok_0 + seq!['/']).is_prefix_of(
            sysfs_path(root, pcipath, listings, n)->Ok_0,
        ),
    decreases n,
{
    let before = sysfs_path(root, pcipath, listings, (n - 1) as nat);
    let whole = sysfs_path(root, pcipath, listings, n)->Ok_0;
    if k + 1 < n {
        lemma_longer(root, pcipath, listings, k, (n - 1) as nat);
    }
    let start = sysfs_path(root, pcipath, listings, k)->Ok_0 + seq!['/'];
    assert(start =~= whole.subrange(0, start.len() as int)) by {
        if k + 1 < n {
            assert(start == before->Ok_0.subrange(0, start.len() as int));
        }
    }
}

/// A sysfs path has one part for every slot, behind its leading slash.
proof fn lemma_parts(
    root: Seq<char>,
    pcipath: Seq<SlotFn>,
    listings: Seq<Vec<DirEntry>>,
    k: nat,
)
    requires
        k < pcipath.len(),
        k <= listings.len(),
        plain_names(listings),
        sysfs_path(root, pcipath, listings, k) is Ok,
    ensures
        split(sysfs_path(root, pcipath, listings, k)->Ok_0, '/').len() == k + 2,
    decreases k,
{
    let path = sysfs_path(root, pcipath, listings, k)->Ok_0;
    slotfn_reads_back(pcipath[k as int]);
    let slot = pcipath[k as int].text();
    if k == 0 {
        reveal_strlit("0000:00");
        let part = ROOT_BUS@ + seq![':'] + slot;
        assert(!part.contains('/')) by {
            assert forall|i: int| 0 <= i < part.len() implies part[i] != '/' by {
                if i >= 8 {
                    assert(part[i] == slot[i - 8]);
                }
            }
        }
        let none = Seq::<char>::empty();
        last_piece(none, '/', part);
        assert(path =~= none + seq!['/'] + part);
        assert(split(none, '/').len() == 1);
    } else {
        lemma_parts(root, pcipath, listings, (k - 1) as nat);
        let head = sysfs_path(root, pcipath, listings, (k - 1) as nat)->Ok_0;
        let bus = only_bus(listings[k - 1]@, bus_dir(root, head))->Ok_0;
        let part = bus + seq![':'] + slot;
        assert(!bus.contains('/')) by {
            let entry = listings[k - 1]@[0];
            assert(match entry {
                DirEntry::Name(name) => !name@.contains('/'),
                _ => true,
            });
        }
        assert(!part.contains('/')) by {
            assert forall|i: int| 0 <= i < part.len() implies part[i] != '/' by {
                if i < bus.len() {
                    assert(part[i] == bus[i]);
                } else if i > bus.len() {
                    assert(part[i] == slot[i - bus.len() - 1]);
                }
            }
        }
        last_piece(head, '/', part);
        assert(path =~= head + seq!['/'] + part);
    }
}

proof fn lemma_same_prefix(
    root: Seq<char>,
    pcipath: Seq<SlotFn>,
    listings: Seq<Vec<DirEntry>>,
    more: Vec<DirEntry>,
    k: nat,
)
    requires
        k <= listings.len(),
    ensures
        sysfs_path(root, pcipath, listings.push(more), k) == sysfs_path(root, pcipath, listings, k),
    decreases k,
{
    if k > 0 {
        lemma_same_prefix(root, pcipath, listings, more, (k - 1) as nat);
    }
}

} // verus!
