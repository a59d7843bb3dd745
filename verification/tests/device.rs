use agent_device::ap;
use agent_device::env::update_env_pci;
use agent_device::handler::split_vfio_pci_option;
use agent_device::info::{DevUpdate, DeviceInfo, FileKind, Inspection, Metadata};
use agent_device::keymap::KeyMap;
use agent_device::linux_abi::{
    create_pci_root_bus_path, AP_ROOT_BUS_PATH, U_EVENT_ACTION_ADD, U_EVENT_ACTION_REMOVE,
};
use agent_device::matcher::{ApMatcher, IommuGroup, NetPciMatcher, VfioMatcher};
use agent_device::oci::{
    Linux, LinuxDevice, LinuxDeviceCgroup, LinuxDeviceType, LinuxResources, Spec,
};
use agent_device::pci;
use agent_device::spec_devices::{insert_devices_cgroup_rule, update_spec_devices, UpdateMap};
use agent_device::sysfs::{
    device_path, iommu_group_path, path_join, pci_driver_override, pci_iommu_group,
    pcipath_to_sysfs, DirEntry, LinkRead, OverrideAction, OverrideEvent, WalkAction,
};
use agent_device::uevent::{Uevent, UeventMatcher};
use nix::sys::stat;
use std::collections::HashMap;

const VM_ROOTFS: &str = "/";

// The device numbers of /dev/null, /dev/zero and /dev/full.
const NULL_RDEV: u64 = 0x103;
const ZERO_RDEV: u64 = 0x105;
const FULL_RDEV: u64 = 0x107;

// The device that holds the root directory.
const ROOT_DEV: u64 = 0xfd01;

fn inspect(path: &str) -> Inspection {
    let (rdev, kind) = match path {
        "/" => (0, FileKind::Other),
        "/dev/null" => (NULL_RDEV, FileKind::Char),
        "/dev/zero" => (ZERO_RDEV, FileKind::Char),
        "/dev/full" => (FULL_RDEV, FileKind::Char),
        _ => return Inspection::Missing,
    };
    Inspection::Found(Metadata {
        dev: ROOT_DEV,
        rdev,
        kind,
    })
}

fn info(vm_path: &str) -> DeviceInfo {
    DeviceInfo::new(vm_path, true, inspect(vm_path)).unwrap()
}

fn updates(list: Vec<(&str, DevUpdate)>) -> UpdateMap {
    let mut map: UpdateMap = KeyMap::new();
    for (path, update) in list {
        map.insert(path.to_string(), update);
    }
    map
}

fn device(path: &str, typ: LinuxDeviceType, major: i64, minor: i64) -> LinuxDevice {
    LinuxDevice {
        path: path.to_string(),
        typ,
        major,
        minor,
    }
}

fn rule(typ: Option<LinuxDeviceType>, major: i64, minor: i64) -> LinuxDeviceCgroup {
    LinuxDeviceCgroup {
        allow: false,
        typ,
        major: Some(major),
        minor: Some(minor),
        access: None,
    }
}

fn resources(rules: Vec<LinuxDeviceCgroup>) -> Option<LinuxResources> {
    Some(LinuxResources {
        devices: Some(rules),
    })
}

fn spec_of(devices: Vec<LinuxDevice>, resources: Option<LinuxResources>) -> Spec {
    Spec {
        linux: Some(Linux {
            devices: Some(devices),
            resources,
        }),
        process: None,
    }
}

fn devices_of(spec: &Spec) -> Vec<LinuxDevice> {
    spec.linux.clone().unwrap().devices.unwrap()
}

fn rules_of(spec: &Spec) -> Vec<LinuxDeviceCgroup> {
    spec.linux
        .clone()
        .unwrap()
        .resources
        .unwrap()
        .devices
        .unwrap()
}

#[test]
fn test_update_device_cgroup() {
    let mut spec = Spec {
        linux: Some(Linux {
            devices: None,
            resources: Some(LinuxResources { devices: None }),
        }),
        process: None,
    };

    let dev_info = DeviceInfo::new(VM_ROOTFS, false, inspect(VM_ROOTFS)).unwrap();
    insert_devices_cgroup_rule(&mut spec, &dev_info, false, "rw").unwrap();

    let devices = rules_of(&spec);
    assert_eq!(devices.len(), 1);

    let major = stat::major(ROOT_DEV) as i64;
    let minor = stat::minor(ROOT_DEV) as i64;

    assert_eq!(devices[0].major, Some(major));
    assert_eq!(devices[0].minor, Some(minor));
}

#[test]
fn test_update_spec_devices() {
    let (major, minor) = (7, 2);
    let mut spec = Spec {
        linux: None,
        process: None,
    };

    // vm_path empty
    let update = DeviceInfo::new("", true, inspect(""));
    assert!(update.is_err());

    // linux is empty
    let container_path = "/dev/null";
    let vm_path = "/dev/null";
    let res = update_spec_devices(
        &mut spec,
        updates(vec![(container_path, info(vm_path).into())]),
    );
    assert!(res.is_err());

    spec.linux = Some(Linux {
        devices: None,
        resources: None,
    });

    // linux.devices doesn't contain the updated device
    let res = update_spec_devices(
        &mut spec,
        updates(vec![(container_path, info(vm_path).into())]),
    );
    assert!(res.is_err());

    spec.linux.as_mut().unwrap().devices = Some(vec![device(
        "/dev/null2",
        LinuxDeviceType::A,
        major,
        minor,
    )]);

    // guest and host path are not the same
    let res = update_spec_devices(
        &mut spec,
        updates(vec![(container_path, info(vm_path).into())]),
    );
    assert!(
        res.is_err(),
        "container_path={:?} vm_path={:?} spec={:?}",
        container_path,
        vm_path,
        spec
    );

    spec.linux.as_mut().unwrap().devices.as_mut().unwrap()[0].path = container_path.to_string();

    // spec.linux.resources is empty
    let res = update_spec_devices(
        &mut spec,
        updates(vec![(container_path, info(vm_path).into())]),
    );
    assert!(res.is_ok());

    // update both devices and cgroup lists
    spec.linux.as_mut().unwrap().devices = Some(vec![device(
        container_path,
        LinuxDeviceType::A,
        major,
        minor,
    )]);
    spec.linux.as_mut().unwrap().resources = resources(vec![rule(None, major, minor)]);

    let res = update_spec_devices(
        &mut spec,
        updates(vec![(container_path, info(vm_path).into())]),
    );
    assert!(res.is_ok());
}

#[test]
fn test_update_spec_devices_guest_host_conflict() {
    let host_major_a = stat::major(NULL_RDEV) as i64;
    let host_minor_a = stat::minor(NULL_RDEV) as i64;
    let host_major_b = stat::major(ZERO_RDEV) as i64;
    let host_minor_b = stat::minor(ZERO_RDEV) as i64;

    let mut spec = spec_of(
        vec![
            device("/dev/a", LinuxDeviceType::C, host_major_a, host_minor_a),
            device("/dev/b", LinuxDeviceType::C, host_major_b, host_minor_b),
        ],
        resources(vec![
            rule(Some(LinuxDeviceType::C), host_major_a, host_minor_a),
            rule(Some(LinuxDeviceType::C), host_major_b, host_minor_b),
        ]),
    );

    let container_path_a = "/dev/a";
    let vm_path_a = "/dev/zero";

    let guest_major_a = stat::major(ZERO_RDEV) as i64;
    let guest_minor_a = stat::minor(ZERO_RDEV) as i64;

    let container_path_b = "/dev/b";
    let vm_path_b = "/dev/full";

    let guest_major_b = stat::major(FULL_RDEV) as i64;
    let guest_minor_b = stat::minor(FULL_RDEV) as i64;

    let specdevices = devices_of(&spec);
    assert_eq!(host_major_a, specdevices[0].major);
    assert_eq!(host_minor_a, specdevices[0].minor);
    assert_eq!(host_major_b, specdevices[1].major);
    assert_eq!(host_minor_b, specdevices[1].minor);

    let specresources_devices = rules_of(&spec);
    assert_eq!(Some(host_major_a), specresources_devices[0].major);
    assert_eq!(Some(host_minor_a), specresources_devices[0].minor);
    assert_eq!(Some(host_major_b), specresources_devices[1].major);
    assert_eq!(Some(host_minor_b), specresources_devices[1].minor);

    let res = update_spec_devices(
        &mut spec,
        updates(vec![
            (container_path_a, info(vm_path_a).into()),
            (container_path_b, info(vm_path_b).into()),
        ]),
    );
    assert!(res.is_ok());

    let specdevices = devices_of(&spec);
    assert_eq!(guest_major_a, specdevices[0].major);
    assert_eq!(guest_minor_a, specdevices[0].minor);
    assert_eq!(guest_major_b, specdevices[1].major);
    assert_eq!(guest_minor_b, specdevices[1].minor);

    let specresources_devices = rules_of(&spec);
    assert_eq!(Some(guest_major_a), specresources_devices[0].major);
    assert_eq!(Some(guest_minor_a), specresources_devices[0].minor);
    assert_eq!(Some(guest_major_b), specresources_devices[1].major);
    assert_eq!(Some(guest_minor_b), specresources_devices[1].minor);
}

#[test]
fn test_update_spec_devices_char_block_conflict() {
    let guest_major = stat::major(NULL_RDEV) as i64;
    let guest_minor = stat::minor(NULL_RDEV) as i64;
    let host_major: i64 = 99;
    let host_minor: i64 = 99;

    let mut spec = spec_of(
        vec![
            device("/dev/char", LinuxDeviceType::C, host_major, host_minor),
            device("/dev/block", LinuxDeviceType::B, host_major, host_minor),
        ],
        resources(vec![
            rule(Some(LinuxDeviceType::C), host_major, host_minor),
            rule(Some(LinuxDeviceType::B), host_major, host_minor),
        ]),
    );

    let container_path = "/dev/char";
    let vm_path = "/dev/null";

    let specresources_devices = rules_of(&spec);
    assert_eq!(Some(host_major), specresources_devices[0].major);
    assert_eq!(Some(host_minor), specresources_devices[0].minor);
    assert_eq!(Some(host_major), specresources_devices[1].major);
    assert_eq!(Some(host_minor), specresources_devices[1].minor);

    let res = update_spec_devices(
        &mut spec,
        updates(vec![(container_path, info(vm_path).into())]),
    );
    assert!(res.is_ok());

    // Only the char device, not the block device should be updated
    let specresources_devices = rules_of(&spec);
    assert_eq!(Some(guest_major), specresources_devices[0].major);
    assert_eq!(Some(guest_minor), specresources_devices[0].minor);
    assert_eq!(Some(host_major), specresources_devices[1].major);
    assert_eq!(Some(host_minor), specresources_devices[1].minor);
}

#[test]
fn test_update_spec_devices_final_path() {
    let guest_major = stat::major(NULL_RDEV) as i64;
    let guest_minor = stat::minor(NULL_RDEV) as i64;

    let container_path = "/dev/original";
    let host_major: i64 = 99;
    let host_minor: i64 = 99;

    let mut spec = spec_of(
        vec![device(
            container_path,
            LinuxDeviceType::C,
            host_major,
            host_minor,
        )],
        None,
    );

    let vm_path = "/dev/null";
    let final_path = "/dev/new";

    let res = update_spec_devices(
        &mut spec,
        updates(vec![(
            container_path,
            DevUpdate::new(vm_path, final_path, inspect(vm_path)).unwrap(),
        )]),
    );
    assert!(res.is_ok());

    let specdevices = devices_of(&spec);
    assert_eq!(guest_major, specdevices[0].major);
    assert_eq!(guest_minor, specdevices[0].minor);
    assert_eq!(final_path, specdevices[0].path);
}

#[test]
fn test_update_env_pci() {
    let example_map = [
        // Each is a host,guest pair of pci addresses
        ("0000:1a:01.0", "0000:01:01.0"),
        ("0000:1b:02.0", "0000:01:02.0"),
        // This one has the same host address as guest address
        // above, to test that we're not double-translating
        ("0000:01:01.0", "ffff:02:1f.7"),
    ];

    let pci_dev_info_original = r#"PCIDEVICE_x_INFO={"0000:1a:01.0":{"generic":{"deviceID":"0000:1a:01.0"}},"0000:1b:02.0":{"generic":{"deviceID":"0000:1b:02.0"}}}"#;
    let pci_dev_info_expected = r#"PCIDEVICE_x_INFO={"0000:01:01.0":{"generic":{"deviceID":"0000:01:01.0"}},"0000:01:02.0":{"generic":{"deviceID":"0000:01:02.0"}}}"#;
    let mut env = vec![
        "PCIDEVICE_x=0000:1a:01.0,0000:1b:02.0".to_string(),
        pci_dev_info_original.to_string(),
        "PCIDEVICE_y=0000:01:01.0".to_string(),
        "NOTAPCIDEVICE_blah=abcd:ef:01.0".to_string(),
    ];

    let mut pci_fixups: pci::PciMap = KeyMap::new();
    for (h, g) in example_map.iter() {
        pci_fixups.insert(
            pci::Address::from_str(h).unwrap(),
            pci::Address::from_str(g).unwrap(),
        );
    }

    let res = update_env_pci(&mut env, &pci_fixups);
    assert!(res.is_ok(), "error: {:?}", res.err().unwrap());

    assert_eq!(env[0], "PCIDEVICE_x=0000:01:01.0,0000:01:02.0");
    assert_eq!(env[1], pci_dev_info_expected);
    assert_eq!(env[2], "PCIDEVICE_y=ffff:02:1f.7");
    assert_eq!(env[3], "NOTAPCIDEVICE_blah=abcd:ef:01.0");
}

// Directories, each with the names of its entries.
type Tree = HashMap<String, Vec<String>>;

fn walk(root: &str, path: &pci::Path, tree: &Tree) -> Result<String, String> {
    let mut listings: Vec<Vec<DirEntry>> = Vec::new();
    loop {
        match pcipath_to_sysfs(root, path, &listings) {
            Ok(WalkAction::Done(relpath)) => return Ok(relpath),
            Ok(WalkAction::List(dir)) => match tree.get(&dir) {
                Some(names) => {
                    listings.push(names.iter().map(|n| DirEntry::Name(n.clone())).collect())
                }
                None => return Err(format!("no directory {}", dir)),
            },
            Err(e) => return Err(format!("{:?}", e)),
        }
    }
}

#[test]
fn test_pcipath_to_sysfs() {
    let rootbuspath = "/tmp/root";
    let mut tree: Tree = HashMap::new();

    let path2 = pci::Path::from_str("02").unwrap();
    let path23 = pci::Path::from_str("02/03").unwrap();
    let path234 = pci::Path::from_str("02/03/04").unwrap();

    let relpath = walk(rootbuspath, &path2, &tree);
    assert_eq!(relpath.unwrap(), "/0000:00:02.0");

    let relpath = walk(rootbuspath, &path23, &tree);
    assert!(relpath.is_err());

    let relpath = walk(rootbuspath, &path234, &tree);
    assert!(relpath.is_err());

    // The device at 0000:00:02.0
    let bridge2path = format!("{}{}", rootbuspath, "/0000:00:02.0");

    tree.insert(bridge2path.clone(), vec![]);

    let relpath = walk(rootbuspath, &path2, &tree);
    assert_eq!(relpath.unwrap(), "/0000:00:02.0");

    let relpath = walk(rootbuspath, &path23, &tree);
    assert!(relpath.is_err());

    let relpath = walk(rootbuspath, &path234, &tree);
    assert!(relpath.is_err());

    // 0000:00:02.0 is a bridge to bus 01
    let bridge2bus = "0000:01";
    tree.insert(
        format!("{}/pci_bus", bridge2path),
        vec![bridge2bus.to_string()],
    );

    let relpath = walk(rootbuspath, &path2, &tree);
    assert_eq!(relpath.unwrap(), "/0000:00:02.0");

    let relpath = walk(rootbuspath, &path23, &tree);
    assert_eq!(relpath.unwrap(), "/0000:00:02.0/0000:01:03.0");

    let relpath = walk(rootbuspath, &path234, &tree);
    assert!(relpath.is_err());

    // A bridge at 0000:01:03.0 to bus 02
    let bridge3path = format!("{}/0000:01:03.0", bridge2path);
    let bridge3bus = "0000:02";
    tree.insert(
        format!("{}/pci_bus", bridge3path),
        vec![bridge3bus.to_string()],
    );

    let relpath = walk(rootbuspath, &path2, &tree);
    assert_eq!(relpath.unwrap(), "/0000:00:02.0");

    let relpath = walk(rootbuspath, &path23, &tree);
    assert_eq!(relpath.unwrap(), "/0000:00:02.0/0000:01:03.0");

    let relpath = walk(rootbuspath, &path234, &tree);
    assert_eq!(relpath.unwrap(), "/0000:00:02.0/0000:01:03.0/0000:02:04.0");
}

#[test]
fn test_vfio_matcher() {
    let grpa = IommuGroup(1);
    let grpb = IommuGroup(22);

    let mut uev_a = Uevent::default();
    uev_a.action = U_EVENT_ACTION_ADD.to_string();
    uev_a.devname = format!("vfio/{}", grpa.to_string());
    uev_a.devpath = format!("/devices/virtual/vfio/{}", grpa.to_string());
    let matcher_a = VfioMatcher::new(grpa);

    let mut uev_b = uev_a.clone();
    uev_b.devpath = format!("/devices/virtual/vfio/{}", grpb.to_string());
    let matcher_b = VfioMatcher::new(grpb);

    assert!(matcher_a.is_match(&uev_a));
    assert!(matcher_b.is_match(&uev_b));
    assert!(!matcher_b.is_match(&uev_a));
    assert!(!matcher_a.is_match(&uev_b));
}

#[test]
fn test_net_pci_matcher() {
    let root_bus = create_pci_root_bus_path();
    let relpath_a = "/0000:00:02.0/0000:01:01.0";

    let mut uev_a = Uevent::default();
    uev_a.action = U_EVENT_ACTION_ADD.to_string();
    uev_a.devpath = format!("{}{}", root_bus, relpath_a);
    uev_a.subsystem = String::from("net");
    uev_a.interface = String::from("eth0");
    let matcher_a = NetPciMatcher::new(relpath_a);
    println!("Matcher a : {}", matcher_a.devpath);

    let relpath_b = "/0000:00:02.0/0000:01:02.0";
    let mut uev_b = uev_a.clone();
    uev_b.devpath = format!("{}{}", root_bus, relpath_b);
    let matcher_b = NetPciMatcher::new(relpath_b);

    assert!(matcher_a.is_match(&uev_a));
    assert!(matcher_b.is_match(&uev_b));
    assert!(!matcher_b.is_match(&uev_a));
    assert!(!matcher_a.is_match(&uev_b));

    let relpath_c = "/0000:00:02.0/0000:01:03.0";
    let net_substr = "/net/eth0";
    let mut uev_c = uev_a.clone();
    uev_c.devpath = format!("{}{}{}", root_bus, relpath_c, net_substr);
    let matcher_c = NetPciMatcher::new(relpath_c);

    assert!(matcher_c.is_match(&uev_c));
    assert!(!matcher_a.is_match(&uev_c));
    assert!(!matcher_b.is_match(&uev_c));
}

#[test]
fn test_split_vfio_pci_option() {
    assert_eq!(
        split_vfio_pci_option("0000:01:00.0=02/01"),
        Some(("0000:01:00.0", "02/01"))
    );
    assert_eq!(split_vfio_pci_option("0000:01:00.0=02/01=rubbish"), None);
    assert_eq!(split_vfio_pci_option("0000:01:00.0"), None);
}

// Binds the device, with the files that are written and the links that are
// there. Writing through the link of a device to its driver writes to the
// driver's file.
fn bind(
    syspci: &str,
    dev: pci::Address,
    drv: &str,
    files: &mut HashMap<String, String>,
    links: &HashMap<String, String>,
) {
    let mut event = OverrideEvent::Start;
    loop {
        event = match pci_driver_override(syspci, dev, drv, event).unwrap() {
            OverrideAction::Override { path, text } => {
                files.insert(path, text);
                OverrideEvent::Overridden
            }
            OverrideAction::ReadDriver { path } => OverrideEvent::Driver(match links.get(&path) {
                Some(target) => LinkRead::Target(target.clone()),
                None => LinkRead::Missing,
            }),
            OverrideAction::Unbind { path, text } => {
                let (link, name) = path.rsplit_once('/').unwrap();
                files.insert(path_join(&links[link], name), text);
                OverrideEvent::Unbound
            }
            OverrideAction::Probe { path, text } => {
                files.insert(path, text);
                OverrideEvent::Probed
            }
            OverrideAction::Done => return,
        };
    }
}

#[test]
fn test_pci_driver_override() {
    let syspci = "/tmp/pci"; // Stands for /sys/bus/pci
    let mut files: HashMap<String, String> = HashMap::new();
    let mut links: HashMap<String, String> = HashMap::new();

    let dev0 = pci::Address::new(0, 0, pci::SlotFn::new(0, 0).unwrap());
    let dev0path = device_path(syspci, dev0);
    let dev0drv = path_join(&dev0path, "driver");
    let dev0override = path_join(&dev0path, "driver_override");

    let drvapath = path_join(&path_join(syspci, "drivers"), "drv_a");
    let drvaunbind = path_join(&drvapath, "unbind");

    let probepath = path_join(syspci, "drivers_probe");

    // Start with dev0 being unbound
    bind(syspci, dev0, "drv_a", &mut files, &links);
    assert_eq!(files[&dev0override], "drv_a");
    assert_eq!(files[&probepath], dev0.to_string());

    // Now dev0 is attached to drv_a already
    links.insert(dev0drv, drvapath);
    files.remove(&probepath);

    bind(syspci, dev0, "drv_a", &mut files, &links); // no-op
    assert_eq!(files[&dev0override], "drv_a");
    assert!(!files.contains_key(&probepath));

    // Now try binding to a different driver
    bind(syspci, dev0, "drv_b", &mut files, &links);
    assert_eq!(files[&dev0override], "drv_b");
    assert_eq!(files[&probepath], dev0.to_string());
    assert_eq!(files[&drvaunbind], dev0.to_string());
}

#[test]
fn test_pci_iommu_group() {
    let syspci = "/tmp/sys/bus/pci";
    let mut links: HashMap<String, LinkRead> = HashMap::new();

    // dev0 has no group
    let dev0 = pci::Address::new(0, 0, pci::SlotFn::new(0, 0).unwrap());

    // dev1 is in group 12
    let dev1 = pci::Address::new(0, 1, pci::SlotFn::new(0, 0).unwrap());
    links.insert(
        path_join(&device_path(syspci, dev1), "iommu_group"),
        LinkRead::Target("../../../kernel/iommu_groups/12".to_string()),
    );

    // dev2 has a bogus group (dir instead of symlink)
    let dev2 = pci::Address::new(0, 2, pci::SlotFn::new(0, 0).unwrap());
    links.insert(
        path_join(&device_path(syspci, dev2), "iommu_group"),
        LinkRead::Failed,
    );

    let mut read = |dev: pci::Address| {
        links
            .remove(&iommu_group_path(syspci, dev))
            .unwrap_or(LinkRead::Missing)
    };

    // Test dev0
    assert!(pci_iommu_group(syspci, dev0, read(dev0)).unwrap().is_none());

    // Test dev1
    assert_eq!(
        pci_iommu_group(syspci, dev1, read(dev1)).unwrap(),
        Some(IommuGroup(12))
    );

    // Test dev2
    assert!(pci_iommu_group(syspci, dev2, read(dev2)).is_err());
}

#[test]
fn test_vfio_ap_matcher() {
    let subsystem = "ap";
    let card = "0a";
    let relpath = format!("{}.0001", card);

    let mut uev = Uevent::default();
    uev.action = U_EVENT_ACTION_ADD.to_string();
    uev.subsystem = subsystem.to_string();
    uev.devpath = format!("{}/card{}/{}", AP_ROOT_BUS_PATH, card, relpath);

    let ap_address = ap::Address::from_str(&relpath).unwrap();
    let matcher = ApMatcher::new(ap_address);

    assert!(matcher.is_match(&uev));

    let mut uev_remove = uev.clone();
    uev_remove.action = U_EVENT_ACTION_REMOVE.to_string();
    assert!(!matcher.is_match(&uev_remove));

    let mut uev_other_device = uev.clone();
    uev_other_device.devpath = format!("{}/card{}/{}.0002", AP_ROOT_BUS_PATH, card, card);
    assert!(!matcher.is_match(&uev_other_device));
}
