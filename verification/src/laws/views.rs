//! Contracts speak of views. These say that a view leaves nothing out.
use crate::add::{add_state, AddProgress};
use crate::error::{outcome, DeviceError, DeviceErrorView, Fault};
use crate::handler::{ApAction, VfioAction};
use crate::info::{DevUpdate, DeviceInfo, SpecUpdate};
use crate::matcher::{ApMatcher, NetPciMatcher, PciMatcher, VfioMatcher};
use crate::oci::{
    device_views, rule_views, text_views, Linux, LinuxDevice, LinuxDeviceCgroup, LinuxResources,
    Process, Spec,
};
use crate::pci::{Address, Path, PciMap};
use crate::spec_devices::ResourceKey;
use crate::sysfs::{OverrideAction, WalkAction};
use crate::wait::{NameWait, NetWait, PciWait};
use vstd::prelude::*;
use vstd::std_specs::convert::FromSpec;

verus! {

/// The view of a text that may be missing.
pub open spec fn text_of(text: Option<String>) -> Option<Seq<char>> {
    match text {
        Some(text) => Some(text@),
        None => None,
    }
}

/// Lists of texts, devices and rules are seen element by element.
pub proof fn lists_are_seen_in_full(
    texts: Seq<String>,
    devices: Seq<LinuxDevice>,
    rules: Seq<LinuxDeviceCgroup>,
)
    ensures
        text_views(texts).len() == texts.len(),
        forall|i: int| 0 <= i < texts.len() ==> #[trigger] text_views(texts)[i] == texts[i]@,
        device_views(devices).len() == devices.len(),
        forall|i: int|
            0 <= i < devices.len() ==> #[trigger] device_views(devices)[i] == devices[i]@,
        rule_views(rules).len() == rules.len(),
        forall|i: int| 0 <= i < rules.len() ==> #[trigger] rule_views(rules)[i] == rules[i]@,
{
}

/// Devices and rules are seen with all their fields.
pub proof fn devices_and_rules_are_seen_in_full(device: LinuxDevice, rule: LinuxDeviceCgroup)
    ensures
        device@.path == device.path@,
        device@.typ == device.typ,
        device@.major == device.major,
        device@.minor == device.minor,
        rule@.allow == rule.allow,
        rule@.typ == rule.typ,
        rule@.major == rule.major,
        rule@.minor == rule.minor,
        rule@.access == text_of(rule.access),
{
}

/// A specification is seen with all its sections.
pub proof fn specifications_are_seen_in_full(
    spec: Spec,
    linux: Linux,
    resources: LinuxResources,
    process: Process,
)
    ensures
        spec@.linux is Some == spec.linux is Some,
        spec.linux is Some ==> spec@.linux->0 == (spec.linux->0)@,
        spec@.process is Some == spec.process is Some,
        spec.process is Some ==> spec@.process->0 == (spec.process->0)@,
        linux@.devices is Some == linux.devices is Some,
        linux.devices is Some ==> linux@.devices->0 == device_views((linux.devices->0)@),
        linux@.resources is Some == linux.resources is Some,
        linux.resources is Some ==> linux@.resources->0 == (linux.resources->0)@,
        resources@ is Some == resources.devices is Some,
        resources.devices is Some ==> resources@->0 == rule_views((resources.devices->0)@),
        process@ is Some == process.env is Some,
        process.env is Some ==> process@->0 == text_views((process.env->0)@),
{
}

/// Guest devices and updates are seen with all their fields.
pub proof fn updates_are_seen_in_full(info: DeviceInfo, dev: DevUpdate, update: SpecUpdate)
    ensures
        info@.cgroup_type == info.cgroup_type@,
        info@.guest_major == info.guest_major,
        info@.guest_minor == info.guest_minor,
        dev@.info == dev.info@,
        dev@.final_path == text_of(dev.final_path),
        update@.dev is Some == update.dev is Some,
        update.dev is Some ==> update@.dev->0 == (update.dev->0)@,
        update@.pci == update.pci@,
{
}

/// Two keys of a map are the same only where all their fields are.
pub proof fn keys_are_seen_in_full(addr: Address, key: ResourceKey)
    ensures
        addr@ == addr,
        key@.0 == key.typ@,
        key@.1 == key.major,
        key@.2 == key.minor,
{
}

/// A guest device makes an update that gives no new path.
pub proof fn updates_come_from_devices(info: DeviceInfo)
    ensures
        <DevUpdate as FromSpec<DeviceInfo>>::obeys_from_spec(),
        <DevUpdate as FromSpec<DeviceInfo>>::from_spec(info).info == info,
        <DevUpdate as FromSpec<DeviceInfo>>::from_spec(info).final_path is None,
{
}

/// What is known while devices are added is seen in full.
pub proof fn progress_is_seen_in_full(spec: Spec, pcimap: PciMap, progress: AddProgress)
    ensures
        add_state(spec, pcimap, progress).spec == spec@,
        add_state(spec, pcimap, progress).pcimap == pcimap@,
        add_state(spec, pcimap, progress).updates == progress.updates@,
        add_state(spec, pcimap, progress).paths == progress.updates.keys(),
{
}

/// Errors are seen as what they are, with all they tell.
pub proof fn errors_are_seen_in_full(e: DeviceError)
    ensures
        match e {
            Fault::DriverUnreadable { dev } => e@ == DeviceErrorView::DriverUnreadable { dev },
            Fault::LinkUnreadable { path } => e@ == DeviceErrorView::LinkUnreadable { path: path@ },
            Fault::GroupLink { path, target } => e@ == DeviceErrorView::GroupLink {
                path: path@,
                target: target@,
            },
            Fault::BusCount { dir, found } => e@ == DeviceErrorView::BusCount { dir: dir@, found },
            Fault::BusUnreadable { dir } => e@ == DeviceErrorView::BusUnreadable { dir: dir@ },
            Fault::BusName { dir } => e@ == DeviceErrorView::BusName { dir: dir@ },
            Fault::EventAddress { cause } => e@ == DeviceErrorView::EventAddress { cause },
            Fault::NetLink => e@ == DeviceErrorView::NetLink,
            Fault::NetPattern { pattern } => e@ == DeviceErrorView::NetPattern {
                pattern: pattern@,
            },
            Fault::NoSuchPath { path } => e@ == DeviceErrorView::NoSuchPath { path: path@ },
            Fault::Unreadable { path } => e@ == DeviceErrorView::Unreadable { path: path@ },
            Fault::NotADevice { path } => e@ == DeviceErrorView::NotADevice { path: path@ },
            Fault::NoLinux => e@ == DeviceErrorView::NoLinux,
            Fault::DeviceType { name } => e@ == DeviceErrorView::DeviceType { name: name@ },
            Fault::ResourceConflict { major, minor } => e@ == DeviceErrorView::ResourceConflict {
                major,
                minor,
            },
            Fault::MissingDevices { paths } => {
                &&& e@ is MissingDevices
                &&& e@->paths.len() == paths@.len()
                &&& forall|i: int| 0 <= i < paths@.len() ==> #[trigger] e@->paths[i] == paths@[i]@
            },
            Fault::EnvEntry { entry } => e@ == DeviceErrorView::EnvEntry { entry: entry@ },
            Fault::EnvAddress { name, cause } => e@ == DeviceErrorView::EnvAddress {
                name: name@,
                cause,
            },
            Fault::NoGuestAddress { host } => e@ == DeviceErrorView::NoGuestAddress { host },
            Fault::VfioOption { option } => e@ == DeviceErrorView::VfioOption { option: option@ },
            Fault::VfioHost { cause } => e@ == DeviceErrorView::VfioHost { cause },
            Fault::VfioPath { cause } => e@ == DeviceErrorView::VfioPath { cause },
            Fault::NoGroup { dev } => e@ == DeviceErrorView::NoGroup { dev },
            Fault::OtherGroup { dev, group } => e@ == DeviceErrorView::OtherGroup { dev, group },
            Fault::NoVfioGroup => e@ == DeviceErrorView::NoVfioGroup,
            Fault::ApUnsupported => e@ == DeviceErrorView::ApUnsupported,
            Fault::ApAddress { cause } => e@ == DeviceErrorView::ApAddress { cause },
            Fault::QueueLost { option } => e@ == DeviceErrorView::QueueLost { option: option@ },
            Fault::NoType => e@ == DeviceErrorView::NoType,
            Fault::NoIdOrPath => e@ == DeviceErrorView::NoIdOrPath,
            Fault::NoContainerPath => e@ == DeviceErrorView::NoContainerPath,
            Fault::UnknownType { name } => e@ == DeviceErrorView::UnknownType { name: name@ },
            Fault::PathConflict { path } => e@ == DeviceErrorView::PathConflict { path: path@ },
            Fault::AddressConflict { host, guest, other } => e@
                == DeviceErrorView::AddressConflict { host, guest, other },
        },
        outcome(Err(e)) == Err::<(), DeviceErrorView>(e@),
        outcome(Ok(())) == Ok::<(), DeviceErrorView>(()),
{
}

/// What to do next in sysfs is seen as what it is, with all it tells.
pub proof fn sysfs_steps_are_seen_in_full(
    bind: OverrideAction<String>,
    walk: WalkAction<String>,
)
    ensures
        match bind {
            OverrideAction::Override { path, text } => bind@ == OverrideAction::Override {
                path: path@,
                text: text@,
            },
            OverrideAction::ReadDriver { path } => bind@ == OverrideAction::ReadDriver {
                path: path@,
            },
            OverrideAction::Unbind { path, text } => bind@ == OverrideAction::Unbind {
                path: path@,
                text: text@,
            },
            OverrideAction::Probe { path, text } => bind@ == OverrideAction::Probe {
                path: path@,
                text: text@,
            },
            OverrideAction::Done => bind@ == OverrideAction::<Seq<char>>::Done,
        },
        match walk {
            WalkAction::List(dir) => walk@ == WalkAction::List(dir@),
            WalkAction::Done(path) => walk@ == WalkAction::Done(path@),
        },
{
}

/// What to wait for next is seen as what it is, with all it tells.
pub proof fn waits_are_seen_in_full(
    pci: PciWait<String, PciMatcher>,
    net: NetWait<String, NetPciMatcher>,
    node: NameWait<String, VfioMatcher>,
)
    ensures
        match pci {
            PciWait::List(dir) => pci@ == PciWait::<Seq<char>, Seq<char>>::List(dir@),
            PciWait::Wait(matcher) => pci@ == PciWait::<Seq<char>, Seq<char>>::Wait(
                matcher.devpath@,
            ),
            PciWait::Done(addr) => pci@ == PciWait::<Seq<char>, Seq<char>>::Done(addr),
        },
        match net {
            NetWait::List(dir) => net@ == NetWait::<Seq<char>, Seq<char>>::List(dir@),
            NetWait::ReadEntry => net@ == NetWait::<Seq<char>, Seq<char>>::ReadEntry,
            NetWait::Wait(matcher) => net@ == NetWait::<Seq<char>, Seq<char>>::Wait(
                matcher.devpath@,
            ),
            NetWait::Done => net@ == NetWait::<Seq<char>, Seq<char>>::Done,
        },
        match node {
            NameWait::Wait(matcher) => node@ == NameWait::<Seq<char>, Seq<char>>::Wait(
                matcher.syspath@,
            ),
            NameWait::Done(path) => node@ == NameWait::<Seq<char>, Seq<char>>::Done(path@),
        },
{
}

/// What to do next for a device is seen as what it is, with all it tells.
pub proof fn device_steps_are_seen_in_full(
    vfio: VfioAction<String, Path, SpecUpdate>,
    queue: ApAction<String, ApMatcher, SpecUpdate>,
)
    ensures
        match vfio {
            VfioAction::Wait(path) => vfio@ is Wait && vfio@->Wait_0 == path@,
            VfioAction::Bind { syspci, dev, drv } => {
                &&& vfio@ is Bind
                &&& vfio@->syspci == syspci@
                &&& vfio@->dev == dev
                &&& vfio@->drv == drv@
            },
            VfioAction::Name(group) => vfio@ is Name && vfio@->Name_0 == group,
            VfioAction::Inspect(path) => vfio@ is Inspect && vfio@->Inspect_0 == path@,
            VfioAction::Done(update) => vfio@ is Done && vfio@->Done_0 == update@,
        },
        match queue {
            ApAction::Pace { path, text } => {
                &&& queue@ is Pace
                &&& queue@->Pace_path == path@
                &&& queue@->Pace_text == text@
            },
            ApAction::Scan { path, text } => {
                &&& queue@ is Scan
                &&& queue@->Scan_path == path@
                &&& queue@->Scan_text == text@
            },
            ApAction::ExtendTimeout(seconds) => queue@ is ExtendTimeout && queue@->ExtendTimeout_0
                == seconds,
            ApAction::Wait(matcher) => queue@ is Wait && queue@->Wait_0 == matcher.syspath@,
            ApAction::RestoreTimeout(seconds) => queue@ is RestoreTimeout
                && queue@->RestoreTimeout_0 == seconds,
            ApAction::Inspect(path) => queue@ is Inspect && queue@->Inspect_0 == path@,
            ApAction::Done(update) => queue@ is Done && queue@->Done_0 == update@,
        },
{
}

} // verus!
