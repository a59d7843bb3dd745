use agent_device::add::{add_devices, AddAction, AddProgress};
use agent_device::ap::ApError;
use agent_device::env::update_env_pci;
use agent_device::error::Fault;
use agent_device::handler::{
    add_device, vfio_ap_device_handler, vfio_pci_device_handler, ApAction, ApAnswers, Device,
    DeviceHandler, VfioAction, VfioAnswers,
};
use agent_device::info::{
    DevUpdate, DeviceInfo, FileKind, Inspection, Metadata, SpecUpdate,
};
use agent_device::keymap::KeyMap;
use agent_device::linux_abi::{
    DRIVER_BLK_CCW_TYPE, DRIVER_BLK_MMIO_TYPE, DRIVER_BLK_PCI_TYPE, DRIVER_NVDIMM_TYPE,
    DRIVER_SCSI_TYPE, DRIVER_VFIO_AP_TYPE, DRIVER_VFIO_PCI_GK_TYPE, DRIVER_VFIO_PCI_TYPE,
};
use agent_device::matcher::{IommuGroup, NetPciMatcher};
use agent_device::oci::{
    Linux, LinuxDevice, LinuxDeviceCgroup, LinuxDeviceType, LinuxResources, Process, Spec,
};
use agent_device::pci::{Address, Path, PciError, PciMap};
use agent_device::spec_devices::{insert_devices_cgroup_rule, update_spec_devices, UpdateMap};
use agent_device::sysfs::{
    file_name, iommu_group_path, path_join, pci_driver_override, pci_iommu_group,
    pcipath_to_sysfs, DirEntry, LinkRead, OverrideAction, OverrideEvent, WalkAction,
};
use agent_device::uevent::{Uevent, UeventMatcher};
use agent_device::wait::{
    device_node, get_vfio_device_name, scan_net_interfaces, wait_for_net_interface,
    wait_for_pci_device, NameWait, NetScan, NetWait, PciWait,
};

fn addr(text: &str) -> Address {
    Address::from_str(text).unwrap()
}

fn name(text: &str) -> Vec<DirEntry> {
    vec![DirEntry::Name(text.to_string())]
}

fn found(dev: u64, rdev: u64, kind: FileKind) -> Inspection {
    Inspection::Found(Metadata { dev, rdev, kind })
}

fn info(cgroup_type: &str, major: i64, minor: i64) -> DeviceInfo {
    DeviceInfo {
        cgroup_type: cgroup_type.to_string(),
        guest_major: major,
        guest_minor: minor,
    }
}

fn device(path: &str, typ: LinuxDeviceType, major: i64, minor: i64) -> LinuxDevice {
    LinuxDevice {
        path: path.to_string(),
        typ,
        major,
        minor,
    }
}

fn rule(typ: Option<LinuxDeviceType>, major: Option<i64>, minor: Option<i64>) -> LinuxDeviceCgroup {
    LinuxDeviceCgroup {
        allow: true,
        typ,
        major,
        minor,
        access: Some("r".to_string()),
    }
}

fn spec(devices: Vec<LinuxDevice>, rules: Option<Vec<LinuxDeviceCgroup>>) -> Spec {
    Spec {
        linux: Some(Linux {
            devices: Some(devices),
            resources: Some(LinuxResources { devices: rules }),
        }),
        process: None,
    }
}

fn devices_of(spec: &Spec) -> Vec<LinuxDevice> {
    spec.linux.clone().unwrap().devices.unwrap()
}

fn rules_of(spec: &Spec) -> Vec<LinuxDeviceCgroup> {
    let linux = spec.linux.clone().unwrap();
    linux.resources.unwrap().devices.unwrap()
}

fn update_map(list: Vec<(&str, DevUpdate)>) -> UpdateMap {
    let mut map: UpdateMap = KeyMap::new();
    for (path, update) in list {
        map.insert(path.to_string(), update);
    }
    map
}

fn pci_map(list: &[(&str, &str)]) -> PciMap {
    let mut map: PciMap = KeyMap::new();
    for (host, guest) in list {
        map.insert(addr(host), addr(guest));
    }
    map
}

fn env(list: &[&str]) -> Vec<String> {
    list.iter().map(|e| e.to_string()).collect()
}

#[test]
fn map_keeps_its_keys_in_order() {
    let mut map: KeyMap<String, u8> = KeyMap::new();
    assert_eq!(map.len(), 0);
    assert_eq!(map.insert("b".to_string(), 1), None);
    assert_eq!(map.insert("a".to_string(), 2), None);
    assert_eq!(map.insert("c".to_string(), 3), None);
    assert_eq!(map.insert("a".to_string(), 4), Some(2));
    assert_eq!(map.len(), 3);
    assert_eq!(map.get(&"a".to_string()), Some(&4));
    assert!(!map.contains(&"d".to_string()));
    assert_eq!(map.entry(1), (&"a".to_string(), &4));
    assert_eq!(map.remove(&"b".to_string()), Some(1));
    assert_eq!(map.remove(&"b".to_string()), None);
    assert_eq!(map.entry(0), (&"a".to_string(), &4));
    assert_eq!(map.entry(1), (&"c".to_string(), &3));
}

#[test]
fn device_numbers_have_two_parts() {
    // Both parts of the number lie in two runs of bits.
    let rdev = 0x1234_5678_9abc_def0;
    let info = DeviceInfo::new("/dev/x", true, found(0, rdev, FileKind::Block)).unwrap();
    assert_eq!(info.cgroup_type, "b");
    assert_eq!(info.guest_major, 0x1234_5cde);
    assert_eq!(info.guest_minor, 0x6789_abf0);

    let info = DeviceInfo::new("/dev/null", true, found(5, 0x103, FileKind::Char)).unwrap();
    assert_eq!(info.cgroup_type, "c");
    assert_eq!((info.guest_major, info.guest_minor), (1, 3));

    // A file in a device stands for the block device that holds it.
    let info = DeviceInfo::new("/x", false, found(0xfd01, 0, FileKind::Other)).unwrap();
    assert_eq!(info.cgroup_type, "b");
    assert_eq!((info.guest_major, info.guest_minor), (0xfd, 1));
}

#[test]
fn device_info_needs_a_device() {
    assert!(matches!(
        DeviceInfo::new("", true, Inspection::Missing),
        Err(Fault::NoSuchPath { path }) if path == ""
    ));
    assert!(matches!(
        DeviceInfo::new("/x", false, Inspection::Failed),
        Err(Fault::Unreadable { path }) if path == "/x"
    ));
    assert!(matches!(
        DeviceInfo::new("/x", true, found(1, 2, FileKind::Other)),
        Err(Fault::NotADevice { path }) if path == "/x"
    ));
    assert!(matches!(
        DevUpdate::new("/x", "/y", Inspection::Missing),
        Err(Fault::NoSuchPath { path }) if path == "/x"
    ));
}

#[test]
fn updates_come_from_device_infos() {
    let update: DevUpdate = info("c", 1, 3).into();
    assert!(update.final_path.is_none());
    assert_eq!(update.info.guest_minor, 3);
    let update: SpecUpdate = info("c", 1, 3).into();
    assert_eq!(update.dev.unwrap().info.guest_major, 1);
    assert!(update.pci.is_empty());
    let update: SpecUpdate = DevUpdate::new("/a", "/b", found(0, 0x103, FileKind::Char))
        .unwrap()
        .into();
    assert_eq!(update.dev.unwrap().final_path.unwrap(), "/b");
}

#[test]
fn device_rules_are_added_behind_the_others() {
    let mut s = spec(vec![], Some(vec![rule(None, None, None)]));
    insert_devices_cgroup_rule(&mut s, &info("b", 8, 1), true, "rwm").unwrap();
    let rules = rules_of(&s);
    assert_eq!(rules.len(), 2);
    assert!(rules[1].allow);
    assert_eq!(rules[1].typ, Some(LinuxDeviceType::B));
    assert_eq!(rules[1].major, Some(8));
    assert_eq!(rules[1].minor, Some(1));
    assert_eq!(rules[1].access.as_deref(), Some("rwm"));

    // Every letter has its type.
    let letters = [
        ("a", LinuxDeviceType::A),
        ("b", LinuxDeviceType::B),
        ("c", LinuxDeviceType::C),
        ("u", LinuxDeviceType::U),
        ("p", LinuxDeviceType::P),
    ];
    for (letter, typ) in letters {
        let mut s = spec(vec![], None);
        insert_devices_cgroup_rule(&mut s, &info(letter, 8, 1), false, "r").unwrap();
        assert_eq!(rules_of(&s)[0].typ, Some(typ));
        assert!(!rules_of(&s)[0].allow);
    }
}

#[test]
fn device_rules_need_a_place_and_a_type() {
    let mut s = Spec {
        linux: None,
        process: None,
    };
    assert!(matches!(
        insert_devices_cgroup_rule(&mut s, &info("x", 1, 1), true, "r"),
        Err(Fault::NoLinux)
    ));
    for bad in ["", "B", "block", "x"] {
        let mut s = spec(vec![], None);
        assert!(matches!(
            insert_devices_cgroup_rule(&mut s, &info(bad, 1, 1), true, "r"),
            Err(Fault::DeviceType { name }) if name == bad
        ));
    }

    // Resources are made for the rule where there are none.
    let mut s = Spec {
        linux: Some(Linux {
            devices: None,
            resources: None,
        }),
        process: None,
    };
    insert_devices_cgroup_rule(&mut s, &info("c", 1, 3), true, "rwm").unwrap();
    let rules = rules_of(&s);
    assert_eq!(rules.len(), 1);
    assert!(rules[0].allow);
    assert_eq!(rules[0].typ, Some(LinuxDeviceType::C));
    assert_eq!((rules[0].major, rules[0].minor), (Some(1), Some(3)));
    assert_eq!(rules[0].access.as_deref(), Some("rwm"));
}

#[test]
fn first_device_with_a_path_is_updated() {
    let mut s = spec(
        vec![
            device("/dev/a", LinuxDeviceType::C, 1, 1),
            device("/dev/a", LinuxDeviceType::C, 2, 2),
            device("/dev/b", LinuxDeviceType::C, 3, 3),
        ],
        None,
    );
    update_spec_devices(&mut s, update_map(vec![("/dev/a", info("c", 9, 8).into())])).unwrap();
    let devices = devices_of(&s);
    assert_eq!((devices[0].major, devices[0].minor), (9, 8));
    assert_eq!((devices[1].major, devices[1].minor), (2, 2));
    assert_eq!((devices[2].major, devices[2].minor), (3, 3));
    assert_eq!(devices[0].path, "/dev/a");
}

#[test]
fn rules_follow_their_devices() {
    let mut s = spec(
        vec![device("/dev/a", LinuxDeviceType::A, 7, 2)],
        Some(vec![
            rule(None, Some(7), Some(2)),
            rule(Some(LinuxDeviceType::A), Some(7), Some(2)),
            rule(Some(LinuxDeviceType::C), Some(7), Some(2)),
            rule(None, Some(7), None),
            rule(None, None, Some(2)),
        ]),
    );
    update_spec_devices(&mut s, update_map(vec![("/dev/a", info("c", 1, 3).into())])).unwrap();
    let rules = rules_of(&s);
    let numbers: Vec<_> = rules.iter().map(|r| (r.major, r.minor)).collect();
    assert_eq!(
        numbers,
        vec![
            (Some(1), Some(3)),
            (Some(1), Some(3)),
            (Some(7), Some(2)),
            (Some(7), None),
            (None, Some(2)),
        ]
    );
    assert!(rules.iter().all(|r| r.allow && r.access.as_deref() == Some("r")));
    assert_eq!(rules[0].typ, None);
    assert_eq!(devices_of(&s)[0].typ, LinuxDeviceType::A);
}

#[test]
fn one_host_device_is_replaced_once() {
    let mut s = spec(
        vec![
            device("/dev/a", LinuxDeviceType::C, 1, 1),
            device("/dev/b", LinuxDeviceType::C, 1, 1),
            device("/dev/c", LinuxDeviceType::C, 2, 2),
        ],
        Some(vec![rule(Some(LinuxDeviceType::C), Some(1), Some(1))]),
    );
    let updates = update_map(vec![
        ("/dev/a", info("c", 5, 5).into()),
        ("/dev/b", info("c", 6, 6).into()),
        ("/dev/c", info("c", 7, 7).into()),
    ]);
    assert!(matches!(
        update_spec_devices(&mut s, updates),
        Err(Fault::ResourceConflict { major: 1, minor: 1 })
    ));
    let devices = devices_of(&s);
    assert_eq!((devices[0].major, devices[1].major, devices[2].major), (5, 6, 2));
    assert_eq!(rules_of(&s)[0].major, Some(1));
}

#[test]
fn updates_without_devices_are_named() {
    let mut s = spec(
        vec![device("/dev/a", LinuxDeviceType::C, 1, 1)],
        Some(vec![rule(Some(LinuxDeviceType::C), Some(1), Some(1))]),
    );
    let updates = update_map(vec![
        ("/dev/z", info("c", 5, 5).into()),
        ("/dev/a", info("c", 6, 6).into()),
        ("/dev/b", info("c", 7, 7).into()),
    ]);
    assert!(matches!(
        update_spec_devices(&mut s, updates),
        Err(Fault::MissingDevices { paths }) if paths == ["/dev/z", "/dev/b"]
    ));
    assert_eq!(devices_of(&s)[0].major, 6);
    assert_eq!(rules_of(&s)[0].major, Some(1));

    let mut s = Spec {
        linux: None,
        process: None,
    };
    assert!(matches!(
        update_spec_devices(&mut s, update_map(vec![])),
        Err(Fault::NoLinux)
    ));
}

#[test]
fn nothing_to_update_changes_nothing() {
    let mut s = spec(
        vec![device("/dev/a", LinuxDeviceType::C, 1, 1)],
        Some(vec![rule(Some(LinuxDeviceType::C), Some(1), Some(1))]),
    );
    let before = format!("{:?}", s);
    update_spec_devices(&mut s, update_map(vec![])).unwrap();
    assert_eq!(format!("{:?}", s), before);
}

#[test]
fn environment_must_be_translatable() {
    let map = pci_map(&[("0000:1a:01.0", "0000:01:01.0")]);

    let mut e = env(&["PCIDEVICE_x=0000:1a:01.0", "HOME", "PCIDEVICE_y=0000:1a:01.0"]);
    assert!(matches!(
        update_env_pci(&mut e, &map),
        Err(Fault::EnvEntry { entry }) if entry == "HOME"
    ));
    // The list before the fault is translated, the one behind it is not.
    assert_eq!(e, env(&["PCIDEVICE_x=0000:01:01.0", "HOME", "PCIDEVICE_y=0000:1a:01.0"]));

    let mut e = env(&["PCIDEVICE_x=0000:1a:01.0,rubbish"]);
    assert!(matches!(
        update_env_pci(&mut e, &map),
        Err(Fault::EnvAddress { name, cause: PciError::AddressFormat }) if name == "PCIDEVICE_x"
    ));
    assert_eq!(e, env(&["PCIDEVICE_x=0000:1a:01.0,rubbish"]));

    let mut e = env(&["PCIDEVICE_x="]);
    assert!(matches!(
        update_env_pci(&mut e, &map),
        Err(Fault::EnvAddress { cause: PciError::AddressFormat, .. })
    ));

    let mut e = env(&["PCIDEVICE_x=0000:01:01.0"]);
    assert!(matches!(
        update_env_pci(&mut e, &map),
        Err(Fault::NoGuestAddress { host }) if host == addr("0000:01:01.0")
    ));
}

#[test]
fn environment_keeps_what_it_does_not_know() {
    let map = pci_map(&[("0000:1a:01.0", "0000:01:01.0"), ("0000:1b:02.0", "0000:01:02.0")]);
    let mut e = env(&[
        "PCIDEVICE_x_INFO=0000:1a:01.0 and 0000:1b:02.0",
        "PCIDEVICE_x=0000:1a:01.0,0000:1a:01.0",
        "PCIDEVICE_y_INFO=0000:1a:01.0",
        "EMPTY=",
        "=",
        "A=B=C",
    ]);
    update_env_pci(&mut e, &map).unwrap();
    assert_eq!(
        e,
        env(&[
            // Details follow their own list, wherever it stands.
            "PCIDEVICE_x_INFO=0000:01:01.0 and 0000:1b:02.0",
            "PCIDEVICE_x=0000:01:01.0,0000:01:01.0",
            "PCIDEVICE_y_INFO=0000:1a:01.0",
            "EMPTY=",
            "=",
            "A=B=C",
        ])
    );
}

#[test]
fn last_list_of_a_name_decides_the_details() {
    let map = pci_map(&[("0000:1a:01.0", "0000:01:01.0"), ("0000:1b:02.0", "0000:01:02.0")]);
    let mut e = env(&[
        "PCIDEVICE_x=0000:1a:01.0",
        "PCIDEVICE_x=0000:1b:02.0",
        "PCIDEVICE_x_INFO=0000:1a:01.0 0000:1b:02.0",
    ]);
    update_env_pci(&mut e, &map).unwrap();
    assert_eq!(e[2], "PCIDEVICE_x_INFO=0000:1a:01.0 0000:01:02.0");
}

#[test]
fn swapped_addresses_are_translated_once() {
    let map = pci_map(&[("0000:01:01.0", "0000:01:02.0"), ("0000:01:02.0", "0000:01:01.0")]);
    let mut e = env(&[
        "PCIDEVICE_x=0000:01:01.0,0000:01:02.0",
        "PCIDEVICE_x_INFO=0000:01:01.0;0000:01:02.0",
    ]);
    update_env_pci(&mut e, &map).unwrap();
    assert_eq!(
        e,
        env(&[
            "PCIDEVICE_x=0000:01:02.0,0000:01:01.0",
            "PCIDEVICE_x_INFO=0000:01:02.0;0000:01:01.0",
        ])
    );
}

#[test]
fn addresses_may_be_written_in_other_ways() {
    // What is replaced in the details is the text of the list.
    let map = pci_map(&[("0000:1a:01.0", "0000:01:01.0")]);
    let mut e = env(&["PCIDEVICE_x=0:1A:1", "PCIDEVICE_x_INFO=0:1A:1 0000:1a:01.0"]);
    update_env_pci(&mut e, &map).unwrap();
    assert_eq!(e[0], "PCIDEVICE_x=0000:01:01.0");
    assert_eq!(e[1], "PCIDEVICE_x_INFO=0000:01:01.0 0000:1a:01.0");
}

#[test]
fn paths_are_joined_and_named() {
    assert_eq!(path_join("/sys/bus/pci", "devices"), "/sys/bus/pci/devices");
    assert_eq!(path_join("/sys/", "devices"), "/sys/devices");
    assert_eq!(path_join("", "devices"), "devices");
    assert_eq!(path_join("/sys", "/dev"), "/dev");
    assert_eq!(path_join("/sys", ""), "/sys/");
    for path in ["a/b", "/a", "a/", "a/.", "a/./", "..", "a/..", "/", "", ".", "a//"] {
        let expected = std::path::Path::new(path)
            .file_name()
            .map(|n| n.to_str().unwrap().to_string());
        assert_eq!(file_name(path), expected, "{}", path);
    }
    assert_eq!(file_name("../../drivers/vfio-pci").unwrap(), "vfio-pci");
}

#[test]
fn binding_takes_its_course() {
    let dev = addr("0000:00:02.0");
    let step = |event| pci_driver_override("/sys/bus/pci", dev, "drv", event);
    assert!(matches!(
        step(OverrideEvent::Start),
        Ok(OverrideAction::Override { path, text })
            if path == "/sys/bus/pci/devices/0000:00:02.0/driver_override" && text == "drv"
    ));
    assert!(matches!(
        step(OverrideEvent::Overridden),
        Ok(OverrideAction::ReadDriver { path })
            if path == "/sys/bus/pci/devices/0000:00:02.0/driver"
    ));
    assert!(matches!(
        step(OverrideEvent::Driver(LinkRead::Missing)),
        Ok(OverrideAction::Probe { path, text })
            if path == "/sys/bus/pci/drivers_probe" && text == "0000:00:02.0"
    ));
    assert!(matches!(
        step(OverrideEvent::Driver(LinkRead::Failed)),
        Err(Fault::DriverUnreadable { dev: d }) if d == dev
    ));
    assert!(matches!(
        step(OverrideEvent::Driver(LinkRead::Target("../../drivers/drv".to_string()))),
        Ok(OverrideAction::Done)
    ));
    assert!(matches!(
        step(OverrideEvent::Driver(LinkRead::Target("../../drivers/other".to_string()))),
        Ok(OverrideAction::Unbind { path, text })
            if path == "/sys/bus/pci/devices/0000:00:02.0/driver/unbind" && text == "0000:00:02.0"
    ));
    assert!(matches!(
        step(OverrideEvent::Unbound),
        Ok(OverrideAction::Probe { .. })
    ));
    assert!(matches!(step(OverrideEvent::Probed), Ok(OverrideAction::Done)));
}

#[test]
fn group_links_end_in_a_number() {
    let dev = addr("0000:00:02.0");
    let path = "/sys/bus/pci/devices/0000:00:02.0/iommu_group";
    assert_eq!(iommu_group_path("/sys/bus/pci", dev), path);
    for bad in ["../groups/x", "../groups/4294967296", "..", "../groups/-1"] {
        assert!(matches!(
            pci_iommu_group("/sys/bus/pci", dev, LinkRead::Target(bad.to_string())),
            Err(Fault::GroupLink { path: p, target }) if p == path && target == bad
        ));
    }
    assert!(matches!(
        pci_iommu_group("/sys/bus/pci", dev, LinkRead::Failed),
        Err(Fault::LinkUnreadable { path: p }) if p == path
    ));
    assert_eq!(
        pci_iommu_group("/sys/bus/pci", dev, LinkRead::Target("4294967295".to_string())).unwrap(),
        Some(IommuGroup(4294967295))
    );
}

#[test]
fn bridges_lead_to_one_bus() {
    let path = Path::from_str("02/03.1/04").unwrap();
    let dir = "/root/0000:00:02.0/pci_bus";
    assert!(matches!(
        pcipath_to_sysfs("/root", &path, &vec![]),
        Ok(WalkAction::List(d)) if d == dir
    ));
    assert!(matches!(
        pcipath_to_sysfs("/root", &path, &vec![name("0000:01")]),
        Ok(WalkAction::List(d)) if d == "/root/0000:00:02.0/0000:01:03.1/pci_bus"
    ));
    let walked = vec![name("0000:01"), name("0000:02")];
    assert!(matches!(
        pcipath_to_sysfs("/root", &path, &walked),
        Ok(WalkAction::Done(p)) if p == "/0000:00:02.0/0000:01:03.1/0000:02:04.0"
    ));
    // What comes after the device does not matter.
    let more = vec![name("0000:01"), name("0000:02"), vec![]];
    assert!(matches!(
        pcipath_to_sysfs("/root", &path, &more),
        Ok(WalkAction::Done(p)) if p == "/0000:00:02.0/0000:01:03.1/0000:02:04.0"
    ));
    // The bridges on the way have the beginnings of that path.
    let bridge = Path::from_str("02/03.1").unwrap();
    assert!(matches!(
        pcipath_to_sysfs("/root", &bridge, &walked),
        Ok(WalkAction::Done(p)) if p == "/0000:00:02.0/0000:01:03.1"
    ));
    assert!(matches!(
        pcipath_to_sysfs("/root", &path, &vec![vec![]]),
        Err(Fault::BusCount { dir: d, found: 0 }) if d == dir
    ));
    let two = vec![DirEntry::Name("a".to_string()), DirEntry::Failed];
    assert!(matches!(
        pcipath_to_sysfs("/root", &path, &vec![two]),
        Err(Fault::BusCount { dir: d, found: 2 }) if d == dir
    ));
    assert!(matches!(
        pcipath_to_sysfs("/root", &path, &vec![vec![DirEntry::NotText]]),
        Err(Fault::BusName { dir: d }) if d == dir
    ));
    assert!(matches!(
        pcipath_to_sysfs("/root", &path, &vec![vec![DirEntry::Failed]]),
        Err(Fault::BusUnreadable { dir: d }) if d == dir
    ));
}

#[test]
fn announced_pci_device_has_an_address() {
    let path = Path::from_str("02/03").unwrap();
    assert!(matches!(
        wait_for_pci_device(&path, &vec![], None),
        Ok(PciWait::List(d)) if d == "/sys/devices/pci0000:00/0000:00:02.0/pci_bus"
    ));
    let listings = vec![name("0000:01")];
    let matcher = match wait_for_pci_device(&path, &listings, None) {
        Ok(PciWait::Wait(matcher)) => matcher,
        other => panic!("{:?}", other),
    };
    let mut uev = Uevent::default();
    uev.devpath = "/devices/pci0000:00/0000:00:02.0/0000:01:03.0".to_string();
    assert!(matcher.is_match(&uev));
    assert!(matches!(
        wait_for_pci_device(&path, &listings, Some(uev)),
        Ok(PciWait::Done(a)) if a == addr("0000:01:03.0")
    ));

    // The bus of a bridge can have any name, but then there is no address.
    let mut uev = Uevent::default();
    uev.devpath = "/devices/pci0000:00/0000:00:02.0/bus:03.0".to_string();
    assert!(matches!(
        wait_for_pci_device(&path, &vec![name("bus")], Some(uev)),
        Err(Fault::EventAddress { cause: PciError::AddressFormat })
    ));
    assert!(matches!(
        wait_for_pci_device(&path, &vec![vec![]], None),
        Err(Fault::BusCount { found: 0, .. })
    ));
}

#[test]
fn net_interfaces_that_are_there_are_found() {
    let path = Path::from_str("02").unwrap();
    let listings = vec![];
    let scan = |scan: &NetScan| wait_for_net_interface(&path, &listings, scan);
    let entry = |target: &str| NetScan::Entry(Some(target.to_string()));

    assert!(matches!(scan(&NetScan::Start), Ok(NetWait::ReadEntry)));
    assert!(matches!(
        scan(&entry("../../devices/pci0000:00/0000:00:02.0/virtio1/net/eth0")),
        Ok(NetWait::Done)
    ));
    assert!(matches!(
        scan(&entry("../../devices/pci0000:00/0000:00:02.0/net/eth0")),
        Ok(NetWait::Done)
    ));
    assert!(matches!(
        scan(&entry("../../devices/pci0000:00/0000:00:03.0/virtio1/net/eth0")),
        Ok(NetWait::ReadEntry)
    ));
    assert!(matches!(
        scan(&entry("../../devices/virtual/net/lo")),
        Ok(NetWait::ReadEntry)
    ));
    // Something must come before the path of the device.
    assert!(matches!(
        scan(&entry("devices/pci0000:00/0000:00:02.0/net/eth0")),
        Ok(NetWait::ReadEntry)
    ));
    assert!(matches!(scan(&NetScan::Entry(None)), Err(Fault::NetLink)));
    assert!(matches!(
        scan(&NetScan::Exhausted),
        Ok(NetWait::Wait(m)) if m.devpath == "/devices/pci0000:00/0000:00:02.0"
    ));
    assert!(matches!(scan(&NetScan::Announced), Ok(NetWait::Done)));
}

#[test]
fn net_search_needs_the_device_and_a_pattern() {
    let path = Path::from_str("02/03").unwrap();
    assert!(matches!(
        wait_for_net_interface(&path, &vec![], &NetScan::Start),
        Ok(NetWait::List(d)) if d == "/sys/devices/pci0000:00/0000:00:02.0/pci_bus"
    ));
    assert!(matches!(
        wait_for_net_interface(&path, &vec![vec![]], &NetScan::Start),
        Err(Fault::BusCount { found: 0, .. })
    ));
    // The name of a bus can break the pattern.
    let pattern =
        "[./]+/devices/pci0000:00/0000:00:02.0/(:03.0/[a-z0-9/]*net/[a-z0-9/]*".to_string();
    assert!(matches!(
        wait_for_net_interface(&path, &vec![name("(")], &NetScan::Start),
        Err(Fault::NetPattern { pattern: p }) if p == pattern
    ));
}

#[test]
fn net_search_goes_by_what_was_found() {
    let matcher = || NetPciMatcher::new("/0000:00:02.0");
    assert_eq!(
        matcher().pattern(),
        "[./]+/devices/pci0000:00/0000:00:02.0/[a-z0-9/]*net/[a-z0-9/]*"
    );
    let entry = NetScan::Entry(Some("x".to_string()));
    assert!(matches!(
        scan_net_interfaces(matcher(), &entry, Some(true)),
        Ok(NetWait::Done)
    ));
    assert!(matches!(
        scan_net_interfaces(matcher(), &entry, Some(false)),
        Ok(NetWait::ReadEntry)
    ));
    assert!(matches!(
        scan_net_interfaces(matcher(), &NetScan::Exhausted, Some(true)),
        Ok(NetWait::Wait(_))
    ));
    assert!(matches!(
        scan_net_interfaces(matcher(), &entry, None),
        Err(Fault::NetPattern { .. })
    ));
}

#[test]
fn group_nodes_are_named_by_their_event() {
    assert_eq!(device_node("vfio/1"), "/dev/vfio/1");
    assert!(matches!(
        get_vfio_device_name(IommuGroup(7), None),
        NameWait::Wait(m) if m.syspath == "/devices/virtual/vfio/7"
    ));
    let mut uev = Uevent::default();
    uev.devname = "vfio/7".to_string();
    assert!(matches!(
        get_vfio_device_name(IommuGroup(7), Some(uev)),
        NameWait::Done(p) if p == "/dev/vfio/7"
    ));
}

fn vfio(type_: &str, options: &[&str]) -> Device {
    Device {
        id: "id".to_string(),
        type_: type_.to_string(),
        vm_path: String::new(),
        container_path: "/dev/vfio/1".to_string(),
        options: env(options),
    }
}

#[test]
fn vfio_devices_are_bound_one_after_the_other() {
    let dev = vfio("vfio-pci", &["0000:1a:01.0=02/03", "0000:1b:02.0=04"]);
    let mut answers = VfioAnswers::new();
    match vfio_pci_device_handler(&dev, &answers).unwrap() {
        VfioAction::Wait(path) => assert_eq!(path.len(), 2),
        other => panic!("{:?}", other),
    }
    answers.guests.push(addr("0000:01:03.0"));
    match vfio_pci_device_handler(&dev, &answers).unwrap() {
        VfioAction::Bind { syspci, dev, drv } => {
            assert_eq!(syspci, "/sys/bus/pci");
            assert_eq!(dev, addr("0000:01:03.0"));
            assert_eq!(drv, "vfio-pci");
        }
        other => panic!("{:?}", other),
    }
    answers.groups.push(Some(IommuGroup(3)));
    match vfio_pci_device_handler(&dev, &answers).unwrap() {
        VfioAction::Wait(path) => assert_eq!(path.get(0).slot(), 4),
        other => panic!("{:?}", other),
    }
    answers.guests.push(addr("0000:00:04.0"));
    assert!(matches!(
        vfio_pci_device_handler(&dev, &answers),
        Ok(VfioAction::Bind { dev, .. }) if dev == addr("0000:00:04.0")
    ));
    answers.groups.push(Some(IommuGroup(3)));
    assert!(matches!(
        vfio_pci_device_handler(&dev, &answers),
        Ok(VfioAction::Name(IommuGroup(3)))
    ));
    answers.vm_path = Some("/dev/vfio/3".to_string());
    assert!(matches!(
        vfio_pci_device_handler(&dev, &answers),
        Ok(VfioAction::Inspect(p)) if p == "/dev/vfio/3"
    ));
    answers.inspection = Some(found(0, 0xf403, FileKind::Char));
    match vfio_pci_device_handler(&dev, &answers).unwrap() {
        VfioAction::Done(update) => {
            assert_eq!(
                update.pci,
                vec![
                    (addr("0000:1a:01.0"), addr("0000:01:03.0")),
                    (addr("0000:1b:02.0"), addr("0000:00:04.0")),
                ]
            );
            let dev = update.dev.unwrap();
            assert_eq!(dev.final_path.unwrap(), "/dev/vfio/3");
            assert_eq!((dev.info.guest_major, dev.info.guest_minor), (0xf4, 3));
        }
        other => panic!("{:?}", other),
    }
    answers.inspection = Some(Inspection::Missing);
    assert!(matches!(
        vfio_pci_device_handler(&dev, &answers),
        Err(Fault::NoSuchPath { path }) if path == "/dev/vfio/3"
    ));
}

#[test]
fn vfio_devices_of_the_guest_kernel_are_not_bound() {
    let dev = vfio("vfio-pci-gk", &["0000:1a:01.0=02"]);
    let mut answers = VfioAnswers::new();
    answers.guests.push(addr("0000:00:02.0"));
    match vfio_pci_device_handler(&dev, &answers).unwrap() {
        VfioAction::Done(update) => {
            assert!(update.dev.is_none());
            assert_eq!(update.pci, vec![(addr("0000:1a:01.0"), addr("0000:00:02.0"))]);
        }
        other => panic!("{:?}", other),
    }
    assert!(matches!(
        vfio_pci_device_handler(&vfio("vfio-pci-gk", &[]), &VfioAnswers::new()),
        Ok(VfioAction::Done(update)) if update.pci.is_empty() && update.dev.is_none()
    ));
}

#[test]
fn vfio_devices_can_be_refused() {
    let start = VfioAnswers::new();
    assert!(matches!(
        vfio_pci_device_handler(&vfio("vfio-pci", &["0000:01:00.0"]), &start),
        Err(Fault::VfioOption { option }) if option == "0000:01:00.0"
    ));
    assert!(matches!(
        vfio_pci_device_handler(&vfio("vfio-pci", &["x=20"]), &start),
        Err(Fault::VfioHost { cause: PciError::AddressFormat })
    ));
    assert!(matches!(
        vfio_pci_device_handler(&vfio("vfio-pci", &["0000:01:00.0=20"]), &start),
        Err(Fault::VfioPath { cause: PciError::SlotRange })
    ));
    assert!(matches!(
        vfio_pci_device_handler(&vfio("vfio-pci", &[]), &start),
        Err(Fault::NoVfioGroup)
    ));

    let dev = vfio("vfio-pci", &["0000:1a:01.0=02", "0000:1b:02.0=04"]);
    let mut answers = VfioAnswers::new();
    answers.guests = vec![addr("0000:00:02.0"), addr("0000:00:04.0")];
    answers.groups = vec![Some(IommuGroup(3)), Some(IommuGroup(4))];
    assert!(matches!(
        vfio_pci_device_handler(&dev, &answers),
        Err(Fault::OtherGroup { dev, group: 3 }) if dev == addr("0000:00:04.0")
    ));
    answers.groups = vec![None];
    assert!(matches!(
        vfio_pci_device_handler(&dev, &answers),
        Err(Fault::NoGroup { dev }) if dev == addr("0000:00:02.0")
    ));
}

#[test]
fn queues_are_waited_for_after_a_scan() {
    let dev = vfio("vfio-ap", &["01.0002"]);
    let mut answers = ApAnswers::new();
    assert!(matches!(
        vfio_ap_device_handler(false, &dev, &answers),
        Err(Fault::ApUnsupported)
    ));
    assert!(matches!(
        vfio_ap_device_handler(true, &dev, &answers),
        Ok(ApAction::Pace { path, text }) if path == "/sys/bus/ap/config_time" && text == "5"
    ));
    answers.paced = true;
    assert!(matches!(
        vfio_ap_device_handler(true, &dev, &answers),
        Ok(ApAction::Scan { path, text }) if path == "/sys/bus/ap/scans" && text == "1"
    ));
    answers.scanned = true;
    assert!(matches!(
        vfio_ap_device_handler(true, &dev, &answers),
        Ok(ApAction::ExtendTimeout(5))
    ));
    answers.extended = true;
    assert!(matches!(
        vfio_ap_device_handler(true, &dev, &answers),
        Ok(ApAction::Wait(m)) if m.syspath == "/devices/ap/card01/01.0002"
    ));
    answers.announced = 1;
    assert!(matches!(
        vfio_ap_device_handler(true, &dev, &answers),
        Ok(ApAction::RestoreTimeout(5))
    ));
    answers.extended = false;
    assert!(matches!(
        vfio_ap_device_handler(true, &dev, &answers),
        Ok(ApAction::Inspect(p)) if p == "/dev/z90crypt"
    ));
    answers.inspection = Some(found(0, 0x0a3f, FileKind::Char));
    match vfio_ap_device_handler(true, &dev, &answers).unwrap() {
        ApAction::Done(update) => {
            assert!(update.pci.is_empty());
            let dev = update.dev.unwrap();
            assert_eq!(dev.final_path.unwrap(), "/dev/z90crypt");
            assert_eq!((dev.info.guest_major, dev.info.guest_minor), (10, 63));
        }
        other => panic!("{:?}", other),
    }
    answers.inspection = Some(found(0, 0, FileKind::Other));
    assert!(matches!(
        vfio_ap_device_handler(true, &dev, &answers),
        Err(Fault::NotADevice { .. })
    ));
}

#[test]
fn timeout_is_restored_when_queues_fail() {
    let dev = vfio("vfio-ap", &["01.0002", "zz.0002"]);
    let mut answers = ApAnswers::new();
    answers.paced = true;
    answers.scanned = true;
    answers.extended = true;
    answers.announced = 1;
    assert!(matches!(
        vfio_ap_device_handler(true, &dev, &answers),
        Ok(ApAction::RestoreTimeout(5))
    ));
    answers.extended = false;
    assert!(matches!(
        vfio_ap_device_handler(true, &dev, &answers),
        Err(Fault::ApAddress { cause: ApError::Adapter })
    ));

    answers.announced = 0;
    answers.lost = true;
    answers.extended = true;
    assert!(matches!(
        vfio_ap_device_handler(true, &dev, &answers),
        Ok(ApAction::RestoreTimeout(5))
    ));
    answers.extended = false;
    assert!(matches!(
        vfio_ap_device_handler(true, &dev, &answers),
        Err(Fault::QueueLost { option }) if option == "01.0002"
    ));
}

#[test]
fn devices_are_checked_before_they_are_handled() {
    let mut dev = Device::default();
    assert!(matches!(add_device(&dev), Err(Fault::NoType)));
    dev.type_ = "toaster".to_string();
    assert!(matches!(add_device(&dev), Err(Fault::NoIdOrPath)));
    dev.vm_path = "/dev/x".to_string();
    assert!(matches!(add_device(&dev), Err(Fault::NoContainerPath)));
    dev.container_path = "/dev/y".to_string();
    assert!(matches!(
        add_device(&dev),
        Err(Fault::UnknownType { name }) if name == "toaster"
    ));
    dev.vm_path = String::new();
    dev.id = "id".to_string();
    let types = [
        (DRIVER_BLK_PCI_TYPE, DeviceHandler::VirtioBlk),
        (DRIVER_BLK_CCW_TYPE, DeviceHandler::VirtioBlkCcw),
        (DRIVER_BLK_MMIO_TYPE, DeviceHandler::VirtioMmioBlk),
        (DRIVER_NVDIMM_TYPE, DeviceHandler::VirtioNvdimm),
        (DRIVER_SCSI_TYPE, DeviceHandler::VirtioScsi),
        (DRIVER_VFIO_PCI_GK_TYPE, DeviceHandler::VfioPci),
        (DRIVER_VFIO_PCI_TYPE, DeviceHandler::VfioPci),
        (DRIVER_VFIO_AP_TYPE, DeviceHandler::VfioAp),
    ];
    for (type_, handler) in types {
        dev.type_ = type_.to_string();
        assert_eq!(add_device(&dev).unwrap(), handler);
    }
}

fn plain(container_path: &str) -> Device {
    Device {
        id: "id".to_string(),
        type_: "blk".to_string(),
        vm_path: String::new(),
        container_path: container_path.to_string(),
        options: vec![],
    }
}

fn brings(dev: Option<DeviceInfo>, pairs: &[(&str, &str)]) -> SpecUpdate {
    SpecUpdate {
        dev: dev.map(DevUpdate::from),
        pci: pairs.iter().map(|(h, g)| (addr(h), addr(g))).collect(),
    }
}

// Adds the devices, each of which brings its updates.
fn add_all(
    devices: &Vec<Device>,
    s: &mut Spec,
    map: &mut PciMap,
    updates: Vec<SpecUpdate>,
) -> Result<Vec<DeviceHandler>, String> {
    let mut handlers = vec![];
    let mut updates = updates.into_iter();
    let mut progress = AddProgress::new();
    let mut update = None;
    loop {
        match add_devices(devices, s, map, progress, update) {
            Err(e) => return Err(format!("{:?}", e)),
            Ok(AddAction::Done) => return Ok(handlers),
            Ok(AddAction::Handle {
                handler,
                progress: next,
            }) => {
                handlers.push(handler);
                progress = next;
                update = updates.next();
            }
        }
    }
}

#[test]
fn devices_are_added() {
    let devices = vec![plain("/dev/a"), vfio("vfio-pci-gk", &[]), plain("/dev/b")];
    let mut s = spec(
        vec![
            device("/dev/a", LinuxDeviceType::B, 8, 1),
            device("/dev/b", LinuxDeviceType::B, 8, 2),
        ],
        Some(vec![rule(Some(LinuxDeviceType::B), Some(8), Some(2))]),
    );
    s.process = Some(Process {
        env: Some(env(&["PCIDEVICE_x=0000:1a:01.0"])),
    });
    let mut map = pci_map(&[("0000:1b:00.0", "0000:00:01.0")]);
    let handlers = add_all(
        &devices,
        &mut s,
        &mut map,
        vec![
            brings(Some(info("b", 254, 16)), &[]),
            brings(None, &[("0000:1a:01.0", "0000:00:02.0")]),
            brings(Some(info("b", 254, 32)), &[]),
        ],
    );
    assert_eq!(
        handlers.unwrap(),
        vec![
            DeviceHandler::VirtioBlk,
            DeviceHandler::VfioPci,
            DeviceHandler::VirtioBlk,
        ]
    );
    let devices = devices_of(&s);
    assert_eq!((devices[0].major, devices[0].minor), (254, 16));
    assert_eq!((devices[1].major, devices[1].minor), (254, 32));
    let rules = rules_of(&s);
    let numbers: Vec<_> = rules.iter().map(|r| (r.major, r.minor)).collect();
    assert_eq!(
        numbers,
        vec![
            (Some(254), Some(32)),
            (Some(254), Some(16)),
            (Some(254), Some(32)),
        ]
    );
    assert_eq!(rules[1].access.as_deref(), Some("rwm"));
    assert!(rules[1].allow);
    assert_eq!(map.get(&addr("0000:1a:01.0")), Some(&addr("0000:00:02.0")));
    assert_eq!(map.get(&addr("0000:1b:00.0")), Some(&addr("0000:00:01.0")));
    assert_eq!(
        s.process.unwrap().env.unwrap(),
        env(&["PCIDEVICE_x=0000:00:02.0"])
    );
}

#[test]
fn added_devices_stay_allowed() {
    // The number of one device in the guest is that of the other on the host.
    let devices = vec![plain("/dev/a"), plain("/dev/b")];
    let mut s = spec(
        vec![
            device("/dev/a", LinuxDeviceType::C, 1, 3),
            device("/dev/b", LinuxDeviceType::C, 1, 5),
        ],
        Some(vec![rule(Some(LinuxDeviceType::C), Some(1), Some(3))]),
    );
    add_all(
        &devices,
        &mut s,
        &mut pci_map(&[]),
        vec![
            brings(Some(info("c", 1, 5)), &[]),
            brings(Some(info("c", 1, 7)), &[]),
        ],
    )
    .unwrap();
    let rules = rules_of(&s);
    let minors: Vec<_> = rules.iter().map(|r| r.minor).collect();
    assert_eq!(minors, vec![Some(5), Some(5), Some(7)]);
    assert_eq!(rules[0].access.as_deref(), Some("r"));
    assert_eq!(rules[1].access.as_deref(), Some("rwm"));
    assert_eq!(rules[2].access.as_deref(), Some("rwm"));

    // A specification without resources gets the rules as well.
    let mut s = Spec {
        linux: Some(Linux {
            devices: Some(vec![device("/dev/a", LinuxDeviceType::C, 1, 3)]),
            resources: None,
        }),
        process: None,
    };
    add_all(
        &vec![plain("/dev/a")],
        &mut s,
        &mut pci_map(&[]),
        vec![brings(Some(info("c", 1, 3)), &[])],
    )
    .unwrap();
    assert_eq!(rules_of(&s).len(), 1);
    assert_eq!(rules_of(&s)[0].minor, Some(3));
}

#[test]
fn devices_with_one_path_are_refused() {
    let devices = vec![plain("/dev/a"), plain("/dev/a")];
    let mut s = spec(vec![device("/dev/a", LinuxDeviceType::B, 8, 1)], Some(vec![]));
    let mut map = pci_map(&[]);
    let r = add_all(
        &devices,
        &mut s,
        &mut map,
        vec![
            brings(Some(info("b", 254, 16)), &[]),
            brings(Some(info("b", 254, 32)), &[("0000:1a:01.0", "0000:00:02.0")]),
        ],
    );
    assert_eq!(r.unwrap_err(), "PathConflict { path: \"/dev/a\" }");
    assert_eq!(rules_of(&s).len(), 1);
    assert_eq!(devices_of(&s)[0].major, 8);
    assert_eq!(map.len(), 0);
}

#[test]
fn host_addresses_have_one_guest_address() {
    let devices = vec![plain("/dev/a")];
    let mut s = spec(vec![], None);
    let mut map = pci_map(&[("0000:1a:01.0", "0000:00:02.0")]);
    let mut progress = AddProgress::new();
    progress = match add_devices(&devices, &mut s, &mut map, progress, None) {
        Ok(AddAction::Handle { progress, .. }) => progress,
        _ => panic!("the device was not handled"),
    };
    let update = brings(
        None,
        &[
            ("0000:1b:00.0", "0000:00:03.0"),
            ("0000:1a:01.0", "0000:00:04.0"),
            ("0000:1c:00.0", "0000:00:05.0"),
        ],
    );
    match add_devices(&devices, &mut s, &mut map, progress, Some(update)) {
        Err(Fault::AddressConflict { host, guest, other }) => {
            assert_eq!(host, addr("0000:1a:01.0"));
            assert_eq!(guest, addr("0000:00:04.0"));
            assert_eq!(other, addr("0000:00:02.0"));
        }
        _ => panic!("the conflict was not found"),
    }
    // The pairs up to the conflict are in the map.
    assert_eq!(map.len(), 2);
    assert_eq!(map.get(&addr("0000:1a:01.0")), Some(&addr("0000:00:04.0")));
    assert!(!map.contains(&addr("0000:1c:00.0")));
}

#[test]
fn environment_is_translated_when_all_devices_are_handled() {
    let mut s = spec(vec![], None);
    s.process = Some(Process {
        env: Some(env(&["PCIDEVICE_x=0000:1a:01.0"])),
    });
    let r = add_all(&vec![], &mut s, &mut pci_map(&[]), vec![]);
    assert!(r.unwrap_err().starts_with("NoGuestAddress"));
    assert_eq!(
        s.process.unwrap().env.unwrap(),
        env(&["PCIDEVICE_x=0000:1a:01.0"])
    );

    // A process without an environment gets an empty one.
    let mut s = spec(vec![], None);
    s.process = Some(Process { env: None });
    add_all(&vec![], &mut s, &mut pci_map(&[]), vec![]).unwrap();
    assert_eq!(s.process.unwrap().env.unwrap().len(), 0);
}

#[test]
fn added_devices_must_be_in_the_specification() {
    let devices = vec![plain("/dev/a")];
    let mut s = spec(vec![], None);
    let r = add_all(
        &devices,
        &mut s,
        &mut pci_map(&[]),
        vec![brings(Some(info("b", 254, 16)), &[])],
    );
    assert_eq!(r.unwrap_err(), "MissingDevices { paths: [\"/dev/a\"] }");

    let mut s = Spec {
        linux: None,
        process: None,
    };
    let r = add_all(
        &devices,
        &mut s,
        &mut pci_map(&[]),
        vec![brings(Some(info("b", 254, 16)), &[])],
    );
    assert_eq!(r.unwrap_err(), "NoLinux");

    let mut bad = plain("/dev/a");
    bad.container_path = String::new();
    let r = add_all(&vec![bad], &mut spec(vec![], None), &mut pci_map(&[]), vec![]);
    assert_eq!(r.unwrap_err(), "NoContainerPath");
}
