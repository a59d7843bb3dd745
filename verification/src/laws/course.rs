//! Where things are looked for, and what follows from what is found there.
use crate::add::{add_next, addresses_added, devices_finished, update_taken, AddState};
use crate::env::env_translated;
use crate::error::{DeviceErrorView, Fault};
use crate::handler::{device_handler, Device, DeviceHandler};
use crate::info::SpecUpdate;
use crate::laws::formats::addresses_are_written_in_full;
use crate::laws::specs::{fresh_rules_are_left, one_rule_is_inserted};
use crate::linux_abi::{PCI_ROOT_BUS_PATH, SYSFS_DIR, SYSTEM_DEV_PATH};
use crate::matcher::IommuGroup;
use crate::numeral::{decimal, hex, hex_is_digits, unsigned_value};
use crate::oci::SpecView;
use crate::pci::{address_denoted, address_reads_back, Address, SlotFn};
use crate::spec_devices::{rule_inserted, spec_updated};
use crate::sysfs::{
    bus_dir, device_dir, driver_path, file_name_of, group_path, group_read, hop, joined, last_name,
    override_next, override_path, probe_path, sysfs_path, unbind_path, walk_next, DirEntry,
    LinkRead, OverrideAction, OverrideEvent, WalkAction,
};
use crate::text::{join, join_then_split, last_piece, split};
use crate::uevent::Uevent;
use crate::wait::{
    net_pattern, net_scan_next, name_wait_next, net_wait_next, node_path, pci_wait_next, regex_finds, regex_valid,
    root_bus_sysfs, NameWait, NetScan, NetWait, PciWait,
};
use vstd::prelude::*;

verus! {

/// A relative path is followed from its base, with one slash between them. An
/// absolute path leads where it says.
pub proof fn paths_are_followed(base: Seq<char>, rel: Seq<char>)
    ensures
        rel.len() > 0 && rel[0] == '/' ==> joined(base, rel) == rel,
        !(rel.len() > 0 && rel[0] == '/') && base.len() > 0 && base.last() != '/' ==> joined(
            base,
            rel,
        ) == base + "/"@ + rel,
        !(rel.len() > 0 && rel[0] == '/') && (base.len() == 0 || base.last() == '/') ==> joined(
            base,
            rel,
        ) == base + rel,
{
    reveal_strlit("/");
    assert("/"@ =~= seq!['/']);
}

/// The name of what a path leads to is what stands behind its last slash. A slash
/// at the end, or a single dot behind one, makes no difference. A path that ends
/// in two dots, or is empty, gives no name.
pub proof fn paths_end_in_names(path: Seq<char>, name: Seq<char>)
    requires
        !name.contains('/'),
        name.len() > 0,
        name != "."@,
        name != ".."@,
    ensures
        file_name_of(path + "/"@ + name) == Some(name),
        file_name_of(name) == Some(name),
        file_name_of(path + "/"@) == file_name_of(path),
        file_name_of(path + "/."@) == file_name_of(path),
        file_name_of(path + "/.."@) is None,
        file_name_of(Seq::empty()) is None,
        file_name_of("."@) is None,
        file_name_of(".."@) is None,
{
    reveal_strlit("/");
    reveal_strlit("/.");
    reveal_strlit("/..");
    reveal_strlit(".");
    reveal_strlit("..");
    assert("/"@ =~= seq!['/']);
    assert("."@ =~= seq!['.']);
    assert(".."@ =~= seq!['.', '.']);
    let none = Seq::<char>::empty();
    assert(path + "/"@ =~= path + seq!['/'] + none);
    assert(path + "/."@ =~= path + seq!['/'] + seq!['.']);
    assert(path + "/.."@ =~= path + seq!['/'] + seq!['.', '.']);
    last_piece(path, '/', name);
    last_piece(path, '/', none);
    last_piece(path, '/', seq!['.']);
    last_piece(path, '/', seq!['.', '.']);
    let front = split(path, '/');
    assert(front.push(none).drop_last() =~= front);
    assert(front.push(seq!['.']).drop_last() =~= front);
    lemma_plain(name);
    lemma_plain(none);
    lemma_plain(seq!['.']);
    lemma_plain(seq!['.', '.']);
    assert(seq![none].drop_last() =~= Seq::<Seq<char>>::empty());
    assert(seq![seq!['.']].drop_last() =~= Seq::<Seq<char>>::empty());
    reveal_with_fuel(last_name, 2);
}

proof fn lemma_plain(s: Seq<char>)
    requires
        !s.contains('/'),
    ensures
        split(s, '/') == seq![s],
{
    let parts = seq![s];
    assert(!parts[0].contains('/'));
    join_then_split(parts, '/');
    assert(join(parts, seq!['/']) == s);
}

/// The directory and a slash, if it does not end in one.
pub open spec fn with_slash(dir: Seq<char>) -> Seq<char> {
    if dir.len() == 0 || dir.last() == '/' {
        dir
    } else {
        dir + "/"@
    }
}

/// The directory of a PCI device, below the PCI bus directory.
pub open spec fn dir_of(syspci: Seq<char>, dev: Address) -> Seq<char> {
    with_slash(syspci) + "devices/"@ + dev.text()
}

/// Where the files and links of a PCI device are.
pub proof fn devices_have_directories(syspci: Seq<char>, dev: Address)
    ensures
        device_dir(syspci, dev) == dir_of(syspci, dev),
        override_path(syspci, dev) == dir_of(syspci, dev) + "/driver_override"@,
        driver_path(syspci, dev) == dir_of(syspci, dev) + "/driver"@,
        unbind_path(syspci, dev) == dir_of(syspci, dev) + "/driver/unbind"@,
        group_path(syspci, dev) == dir_of(syspci, dev) + "/iommu_group"@,
        probe_path(syspci) == with_slash(syspci) + "drivers_probe"@,
{
    reveal_strlit("/");
    reveal_strlit("devices/");
    reveal_strlit("devices");
    reveal_strlit("driver_override");
    reveal_strlit("/driver_override");
    reveal_strlit("driver");
    reveal_strlit("/driver");
    reveal_strlit("unbind");
    reveal_strlit("/driver/unbind");
    reveal_strlit("iommu_group");
    reveal_strlit("/iommu_group");
    reveal_strlit("drivers_probe");
    addresses_are_written_in_full(dev);
    hex_is_digits(dev.domain as nat, 4);
    let dir = dir_of(syspci, dev);
    assert(dev.text()[0] == hex(dev.domain as nat, 4)[0]);
    assert(dev.text()[0] != '/');
    assert(device_dir(syspci, dev) =~= dir);
    assert(dir.last() == dev.text().last());
    assert(dev.text().last() != '/') by {
        address_reads_back(dev);
        assert(dev.text().contains(dev.text()[11]));
    }
    assert(override_path(syspci, dev) =~= dir + "/driver_override"@);
    assert(driver_path(syspci, dev) =~= dir + "/driver"@);
    assert(unbind_path(syspci, dev) =~= dir + "/driver/unbind"@);
    assert(group_path(syspci, dev) =~= dir + "/iommu_group"@);
    assert(probe_path(syspci) =~= with_slash(syspci) + "drivers_probe"@);
}

/// What is done, step by step, to bind a PCI device to a driver, and where: the
/// driver's name goes to the override file, the link to the present driver is
/// read, a device with another driver is unbound from it, and one without the
/// driver is probed.
pub proof fn drivers_are_bound(
    syspci: Seq<char>,
    dev: Address,
    drv: Seq<char>,
    event: OverrideEvent,
)
    ensures
        override_next(syspci, dev, drv, event) == (match event {
            OverrideEvent::Start => Ok::<OverrideAction<Seq<char>>, DeviceErrorView>(
                OverrideAction::Override {
                    path: dir_of(syspci, dev) + "/driver_override"@,
                    text: drv,
                },
            ),
            OverrideEvent::Overridden => Ok(
                OverrideAction::ReadDriver { path: dir_of(syspci, dev) + "/driver"@ },
            ),
            OverrideEvent::Driver(LinkRead::Failed) => Err(Fault::DriverUnreadable { dev }),
            OverrideEvent::Driver(LinkRead::Target(target)) => if file_name_of(target@) == Some(
                drv,
            ) {
                Ok(OverrideAction::Done)
            } else {
                Ok(
                    OverrideAction::Unbind {
                        path: dir_of(syspci, dev) + "/driver/unbind"@,
                        text: dev.text(),
                    },
                )
            },
            OverrideEvent::Probed => Ok(OverrideAction::Done),
            _ => Ok(
                OverrideAction::Probe {
                    path: with_slash(syspci) + "drivers_probe"@,
                    text: dev.text(),
                },
            ),
        }),
{
    devices_have_directories(syspci, dev);
}

/// A device is in the group whose number its link ends in. Without a link it is in
/// none, and a link that ends in no number of 32 bits is an error.
pub proof fn groups_are_read(syspci: Seq<char>, dev: Address, read: LinkRead)
    ensures
        ({
            let path = dir_of(syspci, dev) + "/iommu_group"@;
            let result = group_read(group_path(syspci, dev), read);
            match read {
                LinkRead::Missing => result == Ok::<Option<IommuGroup>, DeviceErrorView>(None),
                LinkRead::Failed => result == Err::<Option<IommuGroup>, DeviceErrorView>(
                    Fault::LinkUnreadable { path },
                ),
                LinkRead::Target(target) => {
                    let name = file_name_of(target@);
                    let number = unsigned_value(name->0, 10);
                    &&& name is Some && number is Some && number->0 <= 0xffff_ffff ==> result
                        == Ok::<Option<IommuGroup>, DeviceErrorView>(
                        Some(IommuGroup(number->0 as u32)),
                    )
                    &&& name is None || number is None || number->0 > 0xffff_ffff ==> result
                        == Err::<Option<IommuGroup>, DeviceErrorView>(
                        Fault::GroupLink { path, target: target@ },
                    )
                },
            }
        }),
{
    devices_have_directories(syspci, dev);
}

/// The path below the PCI host bridge that leads through the slots up to slot `k`:
/// the first on bus 0000:00, each other on the bus that the bridge before it
/// leads to.
pub open spec fn way(pcipath: Seq<SlotFn>, buses: Seq<Seq<char>>, k: int) -> Seq<char>
    decreases k,
{
    if k <= 0 {
        "/0000:00:"@ + pcipath[0].text()
    } else {
        way(pcipath, buses, k - 1) + "/"@ + buses[k - 1] + ":"@ + pcipath[k].text()
    }
}

/// Whether the directory has one entry, and that one has the name.
pub open spec fn holds_only(listing: Seq<DirEntry>, name: Seq<char>) -> bool {
    listing.len() == 1 && listing[0] is Name && (listing[0]->Name_0)@ == name
}

proof fn lemma_way(
    root: Seq<char>,
    pcipath: Seq<SlotFn>,
    listings: Seq<Vec<DirEntry>>,
    buses: Seq<Seq<char>>,
    k: nat,
)
    requires
        k < pcipath.len(),
        k <= listings.len(),
        forall|i: int| 0 <= i < k ==> holds_only((#[trigger] listings[i])@, buses[i]),
    ensures
        sysfs_path(root, pcipath, listings, k) == Ok::<Seq<char>, DeviceErrorView>(
            way(pcipath, buses, k as int),
        ),
    decreases k,
{
    reveal_strlit("/0000:00:");
    reveal_strlit("0000:00");
    reveal_strlit("/");
    reveal_strlit(":");
    if k == 0 {
        assert(hop("0000:00"@, pcipath[0]) =~= "/0000:00:"@ + pcipath[0].text());
    } else {
        lemma_way(root, pcipath, listings, buses, (k - 1) as nat);
        let before = way(pcipath, buses, k - 1);
        assert(holds_only(listings[k - 1]@, buses[k - 1]));
        assert(before + hop(buses[k - 1], pcipath[k as int]) =~= before + "/"@ + buses[k - 1]
            + ":"@ + pcipath[k as int].text());
    }
}

/// The way to a device leads through its bridges. Where the first `m` bridges lead
/// to one bus each, the device is found if these are all bridges on the way.
/// Otherwise the buses of the next bridge are listed, and a bridge that does not
/// lead to one bus with a name that can be read is an error.
pub proof fn bridges_are_followed(
    root: Seq<char>,
    pcipath: Seq<SlotFn>,
    listings: Seq<Vec<DirEntry>>,
    buses: Seq<Seq<char>>,
    m: int,
)
    requires
        pcipath.len() >= 1,
        0 <= m <= pcipath.len() - 1,
        m <= listings.len(),
        forall|i: int| 0 <= i < m ==> holds_only((#[trigger] listings[i])@, buses[i]),
    ensures
        ({
            let result = walk_next(root, pcipath, listings);
            let here = way(pcipath, buses, m);
            let dir = root + here + "/pci_bus"@;
            &&& m == pcipath.len() - 1 ==> result == Ok::<WalkAction<Seq<char>>, DeviceErrorView>(
                WalkAction::Done(here),
            )
            &&& m < pcipath.len() - 1 && m == listings.len() ==> result == Ok::<
                WalkAction<Seq<char>>,
                DeviceErrorView,
            >(WalkAction::List(dir))
            &&& m < pcipath.len() - 1 && m < listings.len() && listings[m]@.len() != 1 ==> result
                == Err::<WalkAction<Seq<char>>, DeviceErrorView>(
                Fault::BusCount { dir, found: listings[m]@.len() as usize },
            )
            &&& m < pcipath.len() - 1 && m < listings.len() && listings[m]@.len() == 1
                && listings[m]@[0] is NotText ==> result == Err::<
                WalkAction<Seq<char>>,
                DeviceErrorView,
            >(Fault::BusName { dir })
            &&& m < pcipath.len() - 1 && m < listings.len() && listings[m]@.len() == 1
                && listings[m]@[0] is Failed ==> result == Err::<
                WalkAction<Seq<char>>,
                DeviceErrorView,
            >(Fault::BusUnreadable { dir })
        }),
{
    lemma_way(root, pcipath, listings, buses, m as nat);
    let here = way(pcipath, buses, m);
    assert(bus_dir(root, here) == root + here + "/pci_bus"@);
    let last = (pcipath.len() - 1) as nat;
    let k = if listings.len() < last {
        listings.len()
    } else {
        last
    };
    if m < k {
        assert(m < pcipath.len() - 1 && m < listings.len());
        if !(listings[m]@.len() == 1 && listings[m]@[0] is Name) {
            assert(sysfs_path(root, pcipath, listings, (m + 1) as nat) is Err);
            lemma_stops(root, pcipath, listings, (m + 1) as nat, k);
        }
    }
}

proof fn lemma_stops(
    root: Seq<char>,
    pcipath: Seq<SlotFn>,
    listings: Seq<Vec<DirEntry>>,
    k: nat,
    n: nat,
)
    requires
        k <= n,
        sysfs_path(root, pcipath, listings, k) is Err,
    ensures
        sysfs_path(root, pcipath, listings, n) == sysfs_path(root, pcipath, listings, k),
    decreases n - k,
{
    if k < n {
        lemma_stops(root, pcipath, listings, k, (n - 1) as nat);
    }
}

proof fn lemma_root()
    ensures
        root_bus_sysfs() == "/sys/devices/pci0000:00"@,
        PCI_ROOT_BUS_PATH@ == "/devices/pci0000:00"@,
{
    reveal_strlit("/sys");
    reveal_strlit("/devices/pci0000:00");
    reveal_strlit("/sys/devices/pci0000:00");
    assert(SYSFS_DIR@ + PCI_ROOT_BUS_PATH@ =~= "/sys/devices/pci0000:00"@);
}

/// A PCI device is first found in sysfs, then the event with its path is waited
/// for, and the address is what stands behind the last slash of the event's path.
pub proof fn pci_devices_are_awaited(
    pcipath: Seq<SlotFn>,
    listings: Seq<Vec<DirEntry>>,
    uev: Option<Uevent>,
    head: Seq<char>,
    tail: Seq<char>,
)
    requires
        !tail.contains('/'),
    ensures
        ({
            let result = pci_wait_next(pcipath, listings, uev);
            match walk_next("/sys/devices/pci0000:00"@, pcipath, listings) {
                Err(e) => result == Err::<PciWait<Seq<char>, Seq<char>>, DeviceErrorView>(e),
                Ok(WalkAction::List(dir)) => result == Ok::<
                    PciWait<Seq<char>, Seq<char>>,
                    DeviceErrorView,
                >(PciWait::List(dir)),
                Ok(WalkAction::Done(relpath)) => {
                    &&& uev is None ==> result == Ok::<
                        PciWait<Seq<char>, Seq<char>>,
                        DeviceErrorView,
                    >(PciWait::Wait("/devices/pci0000:00"@ + relpath))
                    &&& uev is Some && ((uev->0).devpath@ == head + "/"@ + tail || (uev->0).devpath@
                        == tail) ==> match address_denoted(tail) {
                        Ok(addr) => result == Ok::<
                            PciWait<Seq<char>, Seq<char>>,
                            DeviceErrorView,
                        >(PciWait::Done(addr)),
                        Err(cause) => result == Err::<
                            PciWait<Seq<char>, Seq<char>>,
                            DeviceErrorView,
                        >(Fault::EventAddress { cause }),
                    }
                },
            }
        }),
{
    lemma_root();
    reveal_strlit("/");
    assert("/"@ =~= seq!['/']);
    last_piece(head, '/', tail);
    lemma_plain(tail);
    assert(seq![tail].last() == tail);
}

/// The pattern by which the links to a device's network interfaces are told.
pub open spec fn interface_pattern(relpath: Seq<char>) -> Seq<char> {
    "[./]+"@ + ("/devices/pci0000:00"@ + relpath) + "/[a-z0-9/]*net/[a-z0-9/]*"@
}

/// A network interface is there when an entry of the network directory links to a
/// path that the pattern finds, or when it is announced. Entries are read until
/// there are no more, and only then the event is waited for.
pub proof fn net_interfaces_are_awaited(
    pcipath: Seq<SlotFn>,
    listings: Seq<Vec<DirEntry>>,
    scan: NetScan,
)
    ensures
        ({
            let result = net_wait_next(pcipath, listings, scan);
            match walk_next("/sys/devices/pci0000:00"@, pcipath, listings) {
                Err(e) => result == Err::<NetWait<Seq<char>, Seq<char>>, DeviceErrorView>(e),
                Ok(WalkAction::List(dir)) => result == Ok::<
                    NetWait<Seq<char>, Seq<char>>,
                    DeviceErrorView,
                >(NetWait::List(dir)),
                Ok(WalkAction::Done(relpath)) => {
                    let pattern = interface_pattern(relpath);
                    &&& !regex_valid(pattern) ==> result == Err::<
                        NetWait<Seq<char>, Seq<char>>,
                        DeviceErrorView,
                    >(Fault::NetPattern { pattern })
                    &&& regex_valid(pattern) ==> match scan {
                        NetScan::Start => result == Ok::<
                            NetWait<Seq<char>, Seq<char>>,
                            DeviceErrorView,
                        >(NetWait::ReadEntry),
                        NetScan::Entry(None) => result == Err::<
                            NetWait<Seq<char>, Seq<char>>,
                            DeviceErrorView,
                        >(Fault::NetLink),
                        NetScan::Entry(Some(target)) => result == Ok::<
                            NetWait<Seq<char>, Seq<char>>,
                            DeviceErrorView,
                        >(
                            if regex_finds(pattern, target@) {
                                NetWait::Done
                            } else {
                                NetWait::ReadEntry
                            },
                        ),
                        NetScan::Exhausted => result == Ok::<
                            NetWait<Seq<char>, Seq<char>>,
                            DeviceErrorView,
                        >(NetWait::Wait("/devices/pci0000:00"@ + relpath)),
                        NetScan::Announced => result == Ok::<
                            NetWait<Seq<char>, Seq<char>>,
                            DeviceErrorView,
                        >(NetWait::Done),
                    }
                },
            }
        }),
{
    lemma_root();
}

/// What a search for a network interface does next goes by whether the pattern
/// found the last link, and nothing else of it.
pub proof fn net_searches_go_by_what_was_found(
    devpath: Seq<char>,
    scan: NetScan,
    found: Option<bool>,
)
    ensures
        net_pattern(devpath) == "[./]+"@ + devpath + "/[a-z0-9/]*net/[a-z0-9/]*"@,
        found is None ==> net_scan_next(devpath, scan, found) == Err::<
            NetWait<Seq<char>, Seq<char>>,
            DeviceErrorView,
        >(Fault::NetPattern { pattern: "[./]+"@ + devpath + "/[a-z0-9/]*net/[a-z0-9/]*"@ }),
        found is Some ==> net_scan_next(devpath, scan, found) == (match scan {
            NetScan::Start => Ok::<NetWait<Seq<char>, Seq<char>>, DeviceErrorView>(
                NetWait::ReadEntry,
            ),
            NetScan::Entry(None) => Err(Fault::NetLink),
            NetScan::Entry(Some(_)) => if found->0 {
                Ok(NetWait::Done)
            } else {
                Ok(NetWait::ReadEntry)
            },
            NetScan::Exhausted => Ok(NetWait::Wait(devpath)),
            NetScan::Announced => Ok(NetWait::Done),
        }),
{
}

/// The node of an IOMMU group is announced by the event with the group's path, and
/// is the one in `/dev` with the name that the event gives.
pub proof fn group_nodes_are_awaited(group: IommuGroup, uev: Uevent)
    ensures
        name_wait_next(group, None) == NameWait::<Seq<char>, Seq<char>>::Wait(
            "/devices/virtual/vfio/"@ + decimal(group.0 as nat),
        ),
        name_wait_next(group, Some(uev)) == NameWait::<Seq<char>, Seq<char>>::Done(
            "/dev/"@ + uev.devname@,
        ),
        forall|devname: Seq<char>| #[trigger] node_path(devname) == "/dev/"@ + devname,
{
    reveal_strlit("/dev");
    reveal_strlit("/");
    reveal_strlit("/dev/");
    assert(SYSTEM_DEV_PATH@ + "/"@ =~= "/dev/"@);
}

/// Guest addresses are added one after the other, up to the first whose host
/// address has one already. That one replaces the other, and is an error.
pub proof fn addresses_are_added_in_turn(
    pcimap: Map<Address, Address>,
    pairs: Seq<(Address, Address)>,
    host: Address,
    guest: Address,
)
    ensures
        addresses_added(pcimap, Seq::empty()) == (pcimap, Ok::<(), DeviceErrorView>(())),
        ({
            let (before, result) = addresses_added(pcimap, pairs);
            let (after, outcome) = addresses_added(pcimap, pairs.push((host, guest)));
            &&& result is Err ==> after == before && outcome == result
            &&& result is Ok ==> after == before.insert(host, guest)
            &&& result is Ok && !before.contains_key(host) ==> outcome == Ok::<(), DeviceErrorView>(
                (),
            )
            &&& result is Ok && before.contains_key(host) ==> outcome == Err::<(), DeviceErrorView>(
                Fault::AddressConflict { host, guest, other: before[host] },
            )
        }),
{
    assert(pairs.push((host, guest)).drop_last() =~= pairs);
}

/// What is taken in of a device. Its guest addresses are added. A device inside
/// the guest is allowed, and is noted under its path in the container, unless
/// there is one already, which is an error.
pub proof fn updates_are_taken_in(state: AddState, device: Device, update: SpecUpdate)
    ensures
        ({
            let (after, result) = update_taken(state, device, update);
            let path = device.container_path@;
            let (map, added) = addresses_added(state.pcimap, update.pci@);
            let dev = update.dev->0;
            let (spec, ruled) = rule_inserted(state.spec, dev.info@, true, "rwm"@);
            &&& update.dev is None ==> {
                &&& after.spec == state.spec
                &&& after.updates == state.updates
                &&& after.paths == state.paths
                &&& after.pcimap == map
                &&& result == added
            }
            &&& update.dev is Some && state.updates.contains_key(path) ==> after == state && result
                == Err::<(), DeviceErrorView>(Fault::PathConflict { path })
            &&& update.dev is Some && !state.updates.contains_key(path) && ruled is Err ==> {
                &&& result == ruled
                &&& after.spec == state.spec
                &&& after.pcimap == state.pcimap
            }
            &&& update.dev is Some && !state.updates.contains_key(path) && ruled is Ok ==> {
                &&& after.spec == spec
                &&& after.updates == state.updates.insert(path, dev)
                &&& after.paths == state.paths.push(path)
                &&& after.pcimap == map
                &&& result == added
            }
        }),
{
    if update.dev is Some {
        one_rule_is_inserted(state.spec, (update.dev->0).info@, true, "rwm"@);
    }
}

/// How the specification is corrected in the end. An environment that cannot be
/// translated is an error, and nothing but a missing environment changes then.
/// Otherwise it is translated, and the devices and the rules that came with the
/// specification are updated, with the outcome of that.
pub proof fn specification_is_corrected(state: AddState)
    ensures
        ({
            let (after, result) = devices_finished(state);
            let (all, whole) = spec_updated(state.spec, state.updates, state.paths);
            let env = match state.spec.process->0 {
                Some(env) => env,
                None => Seq::empty(),
            };
            let (translated, checked) = env_translated(env, state.pcimap);
            let stuck = state.spec.process is Some && checked is Err;
            &&& stuck ==> {
                &&& result == checked
                &&& after.linux == state.spec.linux
                &&& after.process == Some(Some(env))
            }
            &&& !stuck ==> {
                &&& result == whole
                &&& after.process == (if state.spec.process is Some {
                    Some(Some(translated))
                } else {
                    None
                })
                &&& after.linux is Some == state.spec.linux is Some
                &&& after.linux is Some ==> after.linux->0.devices == all.linux->0.devices
                &&& after.linux is Some ==> match state.spec.linux->0.resources {
                    Some(Some(rules)) => {
                        let now = after.linux->0.resources->0->0;
                        &&& after.linux->0.resources is Some && after.linux->0.resources->0 is Some
                        &&& now.len() == rules.len()
                        &&& forall|r: int|
                            0 <= r < rules.len() ==> #[trigger] now[r] == (if r
                                + state.paths.len() < rules.len() {
                                all.linux->0.resources->0->0[r]
                            } else {
                                rules[r]
                            })
                    },
                    other => after.linux->0.resources == other,
                }
            }
        }),
{
    let env = match state.spec.process->0 {
        Some(env) => env,
        None => Seq::empty(),
    };
    let spec = if state.spec.process is Some {
        SpecView {
            process: Some(Some(env_translated(env, state.pcimap).0)),
            ..state.spec
        }
    } else {
        state.spec
    };
    fresh_rules_are_left(spec, state.updates, state.paths, state.paths.len());
}

/// What a call for the next device does. The updates that the last device came
/// back with are taken in; if that fails, the call fails. Then the next device is
/// checked and its handler named, or, behind the last device, the specification
/// is corrected.
pub proof fn devices_are_taken_one_by_one(
    devices: Seq<Device>,
    handled: int,
    state: AddState,
    update: Option<SpecUpdate>,
)
    requires
        0 <= handled <= devices.len(),
        update is Some ==> handled < devices.len(),
    ensures
        ({
            let (after, done, result) = add_next(devices, handled, state, update);
            let (mid, taken) = if update is Some {
                update_taken(state, devices[handled], update->0)
            } else {
                (state, Ok(()))
            };
            let next = if update is Some {
                handled + 1
            } else {
                handled
            };
            let (spec, finished) = devices_finished(mid);
            &&& done == next
            &&& taken matches Err(e) ==> after == mid && result == Err::<
                Option<DeviceHandler>,
                DeviceErrorView,
            >(e)
            &&& taken is Ok && next < devices.len() ==> {
                &&& after == mid
                &&& match device_handler(devices[next]) {
                    Ok(handler) => result == Ok::<Option<DeviceHandler>, DeviceErrorView>(
                        Some(handler),
                    ),
                    Err(e) => result == Err::<Option<DeviceHandler>, DeviceErrorView>(e),
                }
            }
            &&& taken is Ok && next == devices.len() ==> {
                &&& after.spec == spec
                &&& after.pcimap == mid.pcimap
                &&& match finished {
                    Ok(()) => result == Ok::<Option<DeviceHandler>, DeviceErrorView>(None),
                    Err(e) => result == Err::<Option<DeviceHandler>, DeviceErrorView>(e),
                }
            }
        }),
{
}

} // verus!
