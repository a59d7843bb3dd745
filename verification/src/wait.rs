//! Waiting until the guest kernel has announced a device.
use crate::error::{DeviceError, DeviceErrorView, Fault};
use crate::linux_abi::{PCI_ROOT_BUS_PATH, SYSFS_DIR, SYSTEM_DEV_PATH};
use crate::matcher::{IommuGroup, NetPciMatcher, PciMatcher, VfioMatcher};
use crate::numeral::hex;
use crate::pci::{address_denoted, address_reads_back, Address, Path, SlotFn};
use crate::sysfs::{hop, pcipath_to_sysfs, walk_next, DirEntry, WalkAction};
use crate::text::{concat, last_piece, split, split_text};
use crate::uevent::{Uevent, UeventMatcher};
use vstd::prelude::*;

verus! {

/// Where sysfs shows the PCI host bridge.
pub open spec fn root_bus_sysfs() -> Seq<char> {
    SYSFS_DIR@ + PCI_ROOT_BUS_PATH@
}

/// What to do next in order to learn the address of a PCI device. `T` is a
/// text, `M` tells the event that announces the device.
#[derive(Debug)]
pub enum PciWait<T, M> {
    /// List the entries of this directory.
    List(T),
    /// Wait for an event.
    Wait(M),
    /// The device is there, and this is its address.
    Done(Address),
}

impl View for PciWait<String, PciMatcher> {
    type V = PciWait<Seq<char>, Seq<char>>;

    open spec fn view(&self) -> PciWait<Seq<char>, Seq<char>> {
        match *self {
            PciWait::List(dir) => PciWait::List(dir@),
            PciWait::Wait(matcher) => PciWait::Wait(matcher.devpath@),
            PciWait::Done(addr) => PciWait::Done(addr),
        }
    }
}

/// The address at the end of an event's path.
pub open spec fn address_announced(devpath: Seq<char>) -> Result<Address, DeviceErrorView> {
    match address_denoted(split(devpath, '/').last()) {
        Ok(addr) => Ok(addr),
        Err(cause) => Err(Fault::EventAddress { cause }),
    }
}

/// What to do next in order to learn the address of the device, when the
/// bridges on the way were listed as far as `listings` goes, and `uev` is the
/// event that was waited for, once it came.
pub open spec fn pci_wait_next(
    pcipath: Seq<SlotFn>,
    listings: Seq<Vec<DirEntry>>,
    uev: Option<Uevent>,
) -> Result<PciWait<Seq<char>, Seq<char>>, DeviceErrorView> {
    match walk_next(root_bus_sysfs(), pcipath, listings) {
        Err(e) => Err(e),
        Ok(WalkAction::List(dir)) => Ok(PciWait::List(dir)),
        Ok(WalkAction::Done(relpath)) => match uev {
            None => Ok(PciWait::Wait(PCI_ROOT_BUS_PATH@ + relpath)),
            Some(uev) => match address_announced(uev.devpath@) {
                Ok(addr) => Ok(PciWait::Done(addr)),
                Err(e) => Err(e),
            },
        },
    }
}

/// The address at the end of an event's path.
fn announced_address(uev: &Uevent) -> (r: Result<Address, DeviceError>)
    ensures
        match r {
            Ok(addr) => address_announced(uev.devpath@) == Ok::<Address, DeviceErrorView>(addr),
            Err(e) => address_announced(uev.devpath@) == Err::<Address, DeviceErrorView>(e@),
        },
{
    let parts = split_text(uev.devpath.as_str(), '/');
    let last = parts.len() - 1;
    proof {
        let views = parts@.map_values(|p: String| p@);
        assert(views.last() == parts@[last as int]@);
    }
    match Address::from_str(parts[last].as_str()) {
        Ok(addr) => Ok(addr),
        Err(cause) => Err(Fault::EventAddress { cause }),
    }
}

/// Waits for the PCI device at the path, and gives its address in the guest.
///
/// Says what to do next, given the listings of the directories that it asked
/// for before, in order, and the event that it asked to wait for, once it came.
pub fn wait_for_pci_device(
    pcipath: &Path,
    listings: &Vec<Vec<DirEntry>>,
    uev: Option<Uevent>,
) -> (r: Result<PciWait<String, PciMatcher>, DeviceError>)
    ensures
        match r {
            Ok(action) => pci_wait_next(pcipath@, listings@, uev) == Ok::<
                PciWait<Seq<char>, Seq<char>>,
                DeviceErrorView,
            >(action@),
            Err(e) => pci_wait_next(pcipath@, listings@, uev) == Err::<
                PciWait<Seq<char>, Seq<char>>,
                DeviceErrorView,
            >(e@),
        },
{
    let root = concat(SYSFS_DIR, PCI_ROOT_BUS_PATH);
    match pcipath_to_sysfs(root.as_str(), pcipath, listings) {
        Err(e) => Err(e),
        Ok(WalkAction::List(dir)) => Ok(PciWait::List(dir)),
        Ok(WalkAction::Done(relpath)) => match uev {
            None => match PciMatcher::new(relpath.as_str()) {
                Ok(matcher) => Ok(PciWait::Wait(matcher)),
                Err(e) => Err(e),
            },
            Some(uev) => match announced_address(&uev) {
                Ok(addr) => Ok(PciWait::Done(addr)),
                Err(e) => Err(e),
            },
        },
    }
}

/// An event that announces the device at the end of the path gives its address:
/// the bus that the last bridge leads to, and the last slot of the path.
pub proof fn announced_device_is_on_the_path(
    pcipath: Seq<SlotFn>,
    listings: Seq<Vec<DirEntry>>,
    front: Seq<char>,
    addr: Address,
    matcher: PciMatcher,
    uev: Uevent,
)
    requires
        ({
            let bus = hex(addr.domain as nat, 4) + seq![':'] + hex(addr.bus as nat, 2);
            let relpath = front + hop(bus, addr.slotfn);
            &&& walk_next(root_bus_sysfs(), pcipath, listings) == Ok::<
                WalkAction<Seq<char>>,
                DeviceErrorView,
            >(WalkAction::Done(relpath))
            &&& matcher.devpath@ == PCI_ROOT_BUS_PATH@ + relpath
        }),
        matcher.accepts(uev),
    ensures
        pci_wait_next(pcipath, listings, Some(uev)) == Ok::<
            PciWait<Seq<char>, Seq<char>>,
            DeviceErrorView,
        >(PciWait::Done(addr)),
{
    let bus = hex(addr.domain as nat, 4) + seq![':'] + hex(addr.bus as nat, 2);
    let head = PCI_ROOT_BUS_PATH@ + front;
    address_reads_back(addr);
    assert(uev.devpath@ =~= head + seq!['/'] + addr.text());
    last_piece(head, '/', addr.text());
}

/// Whether `Regex::new` of regex accepts the pattern.
pub uninterp spec fn regex_valid(pattern: Seq<char>) -> bool;

/// What `Regex::is_match` of regex says of the text, for a pattern that is
/// accepted.
pub uninterp spec fn regex_finds(pattern: Seq<char>, text: Seq<char>) -> bool;

/// `Regex::new` and `Regex::is_match` of regex: whether the pattern matches
/// somewhere in the text; `None` where the pattern is not accepted. Both depend
/// on nothing but the pattern and the text.
#[verifier::external_body]
fn regex_is_match(pattern: &str, text: &str) -> (r: Option<bool>)
    ensures
        r == if regex_valid(pattern@) {
            Some(regex_finds(pattern@, text@))
        } else {
            None
        },
{
    match regex::Regex::new(pattern) {
        Ok(re) => Some(re.is_match(text)),
        Err(_) => None,
    }
}

/// How far the search for a network interface among those that are there has
/// come.
#[derive(Debug)]
pub enum NetScan {
    /// No entry of the network directory has been read yet.
    Start,
    /// An entry was read, and links to this path, if that is a text.
    Entry(Option<String>),
    /// There are no further entries.
    Exhausted,
    /// The event that was waited for came.
    Announced,
}

/// What to do next in order to wait for a network interface. `T` is a text, `M`
/// tells the event that announces the interface.
#[derive(Debug)]
pub enum NetWait<T, M> {
    /// List the entries of this directory.
    List(T),
    /// Read where the next entry of the network directory links to.
    ReadEntry,
    /// Wait for an event.
    Wait(M),
    /// The interface is there.
    Done,
}

impl View for NetWait<String, NetPciMatcher> {
    type V = NetWait<Seq<char>, Seq<char>>;

    open spec fn view(&self) -> NetWait<Seq<char>, Seq<char>> {
        match *self {
            NetWait::List(dir) => NetWait::List(dir@),
            NetWait::ReadEntry => NetWait::ReadEntry,
            NetWait::Wait(matcher) => NetWait::Wait(matcher.devpath@),
            NetWait::Done => NetWait::Done,
        }
    }
}

/// The pattern of the paths at which sysfs shows network interfaces of the
/// device at `devpath`.
pub open spec fn net_pattern(devpath: Seq<char>) -> Seq<char> {
    "[./]+"@ + devpath + "/[a-z0-9/]*net/[a-z0-9/]*"@
}

/// The path that was read last, where one was.
pub open spec fn scanned_text(scan: NetScan) -> Seq<char> {
    match scan {
        NetScan::Entry(Some(target)) => target@,
        _ => Seq::empty(),
    }
}

/// What to do next, when matching the pattern against the path that was read
/// last gave `found`, and the device is at `devpath`.
pub open spec fn net_scan_next(devpath: Seq<char>, scan: NetScan, found: Option<bool>) -> Result<
    NetWait<Seq<char>, Seq<char>>,
    DeviceErrorView,
> {
    match found {
        None => Err(Fault::NetPattern { pattern: net_pattern(devpath) }),
        Some(matches) => match scan {
            NetScan::Start => Ok(NetWait::ReadEntry),
            NetScan::Entry(None) => Err(Fault::NetLink),
            NetScan::Entry(Some(_)) => if matches {
                Ok(NetWait::Done)
            } else {
                Ok(NetWait::ReadEntry)
            },
            NetScan::Exhausted => Ok(NetWait::Wait(devpath)),
            NetScan::Announced => Ok(NetWait::Done),
        },
    }
}

/// What matching the pattern against the text gives.
pub open spec fn regex_outcome(pattern: Seq<char>, text: Seq<char>) -> Option<bool> {
    if regex_valid(pattern) {
        Some(regex_finds(pattern, text))
    } else {
        None
    }
}

/// What to do next in order to wait for the network interface of the device,
/// when the bridges on the way were listed as far as `listings` goes.
pub open spec fn net_wait_next(
    pcipath: Seq<SlotFn>,
    listings: Seq<Vec<DirEntry>>,
    scan: NetScan,
) -> Result<NetWait<Seq<char>, Seq<char>>, DeviceErrorView> {
    match walk_next(root_bus_sysfs(), pcipath, listings) {
        Err(e) => Err(e),
        Ok(WalkAction::List(dir)) => Ok(NetWait::List(dir)),
        Ok(WalkAction::Done(relpath)) => {
            let devpath = PCI_ROOT_BUS_PATH@ + relpath;
            net_scan_next(
                devpath,
                scan,
                regex_outcome(net_pattern(devpath), scanned_text(scan)),
            )
        },
    }
}

impl NetPciMatcher {
    /// The pattern of the paths at which sysfs shows the interfaces that are
    /// waited for.
    pub fn pattern(&self) -> (r: String)
        ensures
            r@ == net_pattern(self.devpath@),
    {
        let mut r = concat("[./]+", self.devpath.as_str());
        r.append("/[a-z0-9/]*net/[a-z0-9/]*");
        r
    }
}

/// Says what to do next, when matching the pattern against the path that was
/// read last gave `found`; `None` where the pattern is no regular expression.
pub fn scan_net_interfaces(matcher: NetPciMatcher, scan: &NetScan, found: Option<bool>) -> (r:
    Result<NetWait<String, NetPciMatcher>, DeviceError>)
    ensures
        match r {
            Ok(action) => net_scan_next(matcher.devpath@, *scan, found) == Ok::<
                NetWait<Seq<char>, Seq<char>>,
                DeviceErrorView,
            >(action@),
            Err(e) => net_scan_next(matcher.devpath@, *scan, found) == Err::<
                NetWait<Seq<char>, Seq<char>>,
                DeviceErrorView,
            >(e@),
        },
{
    match found {
        None => Err(Fault::NetPattern { pattern: matcher.pattern() }),
        Some(matches) => match scan {
            NetScan::Start => Ok(NetWait::ReadEntry),
            NetScan::Entry(None) => Err(Fault::NetLink),
            NetScan::Entry(Some(_)) => if matches {
                Ok(NetWait::Done)
            } else {
                Ok(NetWait::ReadEntry)
            },
            NetScan::Exhausted => Ok(NetWait::Wait(matcher)),
            NetScan::Announced => Ok(NetWait::Done),
        },
    }
}

/// Waits for the network interface of the PCI device at the path.
///
/// The interface may already be there, where the network was plugged in before
/// the agent listened for events, so the network directory is searched for it
/// first. Says what to do next, given the listings of the directories that it
/// asked for before, in order, and how far the search has come.
pub fn wait_for_net_interface(
    pcipath: &Path,
    listings: &Vec<Vec<DirEntry>>,
    scan: &NetScan,
) -> (r: Result<NetWait<String, NetPciMatcher>, DeviceError>)
    ensures
        match r {
            Ok(action) => net_wait_next(pcipath@, listings@, *scan) == Ok::<
                NetWait<Seq<char>, Seq<char>>,
                DeviceErrorView,
            >(action@),
            Err(e) => net_wait_next(pcipath@, listings@, *scan) == Err::<
                NetWait<Seq<char>, Seq<char>>,
                DeviceErrorView,
            >(e@),
        },
{
    let root = concat(SYSFS_DIR, PCI_ROOT_BUS_PATH);
    let relpath = match pcipath_to_sysfs(root.as_str(), pcipath, listings) {
        Err(e) => {
            return Err(e);
        },
        Ok(WalkAction::List(dir)) => {
            return Ok(NetWait::List(dir));
        },
        Ok(WalkAction::Done(relpath)) => relpath,
    };
    let matcher = NetPciMatcher::new(relpath.as_str());
    let pattern = matcher.pattern();
    let found = match scan {
        NetScan::Entry(Some(target)) => regex_is_match(pattern.as_str(), target.as_str()),
        _ => {
            let text = String::new();
            regex_is_match(pattern.as_str(), text.as_str())
        },
    };
    scan_net_interfaces(matcher, scan, found)
}

/// The event for a network interface is waited for only where all entries of
/// the network directory were searched.
pub proof fn net_search_comes_first(
    pcipath: Seq<SlotFn>,
    listings: Seq<Vec<DirEntry>>,
    scan: NetScan,
)
    requires
        net_wait_next(pcipath, listings, scan) matches Ok(NetWait::Wait(_)),
    ensures
        scan is Exhausted,
{
}

/// What to do next in order to learn the name of a device node. `T` is a text,
/// `M` tells the event that announces the node.
#[derive(Debug)]
pub enum NameWait<T, M> {
    /// Wait for an event.
    Wait(M),
    /// The node is there, and this is its path.
    Done(T),
}

impl View for NameWait<String, VfioMatcher> {
    type V = NameWait<Seq<char>, Seq<char>>;

    open spec fn view(&self) -> NameWait<Seq<char>, Seq<char>> {
        match *self {
            NameWait::Wait(matcher) => NameWait::Wait(matcher.syspath@),
            NameWait::Done(path) => NameWait::Done(path@),
        }
    }
}

/// The path of the device node with the name.
pub open spec fn node_path(devname: Seq<char>) -> Seq<char> {
    SYSTEM_DEV_PATH@ + "/"@ + devname
}

/// The path of the device node with the name.
pub fn device_node(devname: &str) -> (r: String)
    ensures
        r@ == node_path(devname@),
{
    let mut r = concat(SYSTEM_DEV_PATH, "/");
    r.append(devname);
    r
}

/// What to do next in order to learn the path of the group's device node, when
/// `uev` is the event that was waited for, once it came.
pub open spec fn name_wait_next(grp: IommuGroup, uev: Option<Uevent>) -> NameWait<
    Seq<char>,
    Seq<char>,
> {
    match uev {
        None => NameWait::Wait("/devices/virtual/vfio/"@ + grp.text()),
        Some(uev) => NameWait::Done(node_path(uev.devname@)),
    }
}

/// Waits for the device node of an IOMMU group, and gives its path.
///
/// Says what to do next, given the event that it asked to wait for, once it
/// came.
pub fn get_vfio_device_name(grp: IommuGroup, uev: Option<Uevent>) -> (r: NameWait<
    String,
    VfioMatcher,
>)
    ensures
        r@ == name_wait_next(grp, uev),
{
    match uev {
        None => NameWait::Wait(VfioMatcher::new(grp)),
        Some(uev) => NameWait::Done(device_node(uev.devname.as_str())),
    }
}

} // verus!
