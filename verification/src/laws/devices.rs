//! What is found out about devices, and what is done for them in which order.
use crate::ap;
use crate::error::{DeviceErrorView, Fault};
use crate::handler::{
    ap_next, device_handler, option_cut, option_has_two_sides, options_next, vfio_next,
    vfio_option, ApAction, ApAnswers, Device, DeviceHandler, VfioAction, VfioAnswers,
};
use crate::info::{
    dev_major, dev_minor, device_inspected, device_number_parts, DeviceInfoView, FileKind,
    Inspection, SpecUpdateView,
};
use crate::laws::formats::queues_are_written_in_full;
use crate::linux_abi::{AP_ROOT_BUS_PATH, PCI_ROOT_BUS_PATH};
use crate::matcher::{
    ap_syspath, ApMatcher, IommuGroup, NetPciMatcher, PciMatcher, VfioMatcher,
};
use crate::numeral::{decimal, hex};
use crate::oci::text_views;
use crate::pci::{address_denoted, path_denoted, Address, SlotFn};
use crate::text::{join, join_then_split};
use crate::uevent::{Uevent, UeventMatcher};
use vstd::prelude::*;

verus! {

/// A device number is put together of twelve and twenty bits of its major part
/// and eight and twenty-four bits of its minor part.
pub proof fn device_numbers_are_put_together(major: u64, minor: u64, dev: u64)
    requires
        major <= 0xffff_ffff,
        minor <= 0xffff_ffff,
        dev == ((major & 0xffff_f000u64) << 32) | ((major & 0x0000_0fffu64) << 8) | ((minor
            & 0xffff_ff00u64) << 12) | (minor & 0x0000_00ffu64),
    ensures
        dev_major(dev) == major,
        dev_minor(dev) == minor,
{
    assert(((dev >> 32) & 0xffff_f000u64) | ((dev >> 8) & 0x0000_0fffu64) == major) by (bit_vector)
        requires
            major <= 0xffff_ffff,
            minor <= 0xffff_ffff,
            dev == ((major & 0xffff_f000u64) << 32) | ((major & 0x0000_0fffu64) << 8) | ((minor
                & 0xffff_ff00u64) << 12) | (minor & 0x0000_00ffu64),
    ;
    assert(((dev >> 12) & 0xffff_ff00u64) | (dev & 0x0000_00ffu64) == minor) by (bit_vector)
        requires
            major <= 0xffff_ffff,
            minor <= 0xffff_ffff,
            dev == ((major & 0xffff_f000u64) << 32) | ((major & 0x0000_0fffu64) << 8) | ((minor
                & 0xffff_ff00u64) << 12) | (minor & 0x0000_00ffu64),
    ;
}

/// Whether `info` is the device with the number `dev`, of the type `typ`.
pub open spec fn is_device(info: DeviceInfoView, typ: Seq<char>, dev: u64) -> bool {
    &&& info.cgroup_type == typ
    &&& info.guest_major == dev_major(dev)
    &&& info.guest_minor == dev_minor(dev)
}

/// What an inspection tells of a device. A node is the block or character device
/// with its own number, and no other file is a device. A file inside a device
/// stands for the block device that holds it. Without a file, or without being
/// able to inspect it, there is no device.
pub proof fn inspection_tells_the_device(
    vm_path: Seq<char>,
    is_rdev: bool,
    inspection: Inspection,
)
    ensures
        ({
            let result = device_inspected(vm_path, is_rdev, inspection);
            match inspection {
                Inspection::Missing => result == Err::<DeviceInfoView, DeviceErrorView>(
                    Fault::NoSuchPath { path: vm_path },
                ),
                Inspection::Failed => result == Err::<DeviceInfoView, DeviceErrorView>(
                    Fault::Unreadable { path: vm_path },
                ),
                Inspection::Found(file) => {
                    &&& is_rdev && file.kind == FileKind::Block ==> result is Ok && is_device(
                        result->Ok_0,
                        "b"@,
                        file.rdev,
                    )
                    &&& is_rdev && file.kind == FileKind::Char ==> result is Ok && is_device(
                        result->Ok_0,
                        "c"@,
                        file.rdev,
                    )
                    &&& is_rdev && file.kind == FileKind::Other ==> result == Err::<
                        DeviceInfoView,
                        DeviceErrorView,
                    >(Fault::NotADevice { path: vm_path })
                    &&& !is_rdev ==> result is Ok && is_device(result->Ok_0, "b"@, file.dev)
                },
            }
        }),
{
    if let Inspection::Found(file) = inspection {
        device_number_parts(file.dev, file.dev);
        device_number_parts(file.rdev, file.rdev);
    }
}

/// Whether the type is one that there is a handler for, and the handler is that
/// one.
pub open spec fn handles(type_: Seq<char>, handler: DeviceHandler) -> bool {
    match handler {
        DeviceHandler::VirtioBlk => type_ == "blk"@,
        DeviceHandler::VirtioBlkCcw => type_ == "blk-ccw"@,
        DeviceHandler::VirtioMmioBlk => type_ == "mmioblk"@,
        DeviceHandler::VirtioNvdimm => type_ == "nvdimm"@,
        DeviceHandler::VirtioScsi => type_ == "scsi"@,
        DeviceHandler::VfioPci => type_ == "vfio-pci"@ || type_ == "vfio-pci-gk"@,
        DeviceHandler::VfioAp => type_ == "vfio-ap"@,
    }
}

/// A device with a known type, an identifier or a path in the guest or both, and
/// a path in the container is accepted, with the handler of its type. Every other
/// device is refused, for the first of these that it lacks.
pub proof fn devices_are_accepted(device: Device)
    ensures
        ({
            let result = device_handler(device);
            let typed = device.type_@.len() > 0;
            let found = device.id@.len() > 0 || device.vm_path@.len() > 0;
            let placed = device.container_path@.len() > 0;
            &&& typed && found && placed ==> forall|h: DeviceHandler|
                #![trigger handles(device.type_@, h)]
                handles(device.type_@, h) ==> result == Ok::<DeviceHandler, DeviceErrorView>(h)
            &&& result matches Ok(h) ==> typed && found && placed && handles(device.type_@, h)
            &&& !typed ==> result == Err::<DeviceHandler, DeviceErrorView>(Fault::NoType)
            &&& typed && !found ==> result == Err::<DeviceHandler, DeviceErrorView>(
                Fault::NoIdOrPath,
            )
            &&& typed && found && !placed ==> result == Err::<DeviceHandler, DeviceErrorView>(
                Fault::NoContainerPath,
            )
            &&& typed && found && placed && (forall|h: DeviceHandler| !handles(device.type_@, h))
                ==> result == Err::<DeviceHandler, DeviceErrorView>(
                Fault::UnknownType { name: device.type_@ },
            )
        }),
{
    reveal_strlit("blk");
    reveal_strlit("blk-ccw");
    reveal_strlit("mmioblk");
    reveal_strlit("nvdimm");
    reveal_strlit("scsi");
    reveal_strlit("vfio-pci");
    reveal_strlit("vfio-pci-gk");
    reveal_strlit("vfio-ap");
    assert("blk"@[0] == 'b' && "blk-ccw"@[0] == 'b' && "mmioblk"@[0] == 'm' && "nvdimm"@[0] == 'n'
        && "scsi"@[0] == 's' && "vfio-pci"@[0] == 'v' && "vfio-pci-gk"@[0] == 'v' && "vfio-ap"@[0]
        == 'v');
    assert(device_handler(device) matches Ok(h) ==> handles(device.type_@, h));
    assert(handles("blk"@, DeviceHandler::VirtioBlk));
    if device_handler(device) matches Err(Fault::UnknownType { .. }) {
        assert forall|h: DeviceHandler| !handles(device.type_@, h) by {}
    }
}

/// The event that announces a PCI device is the one with its path, whatever else
/// the event says, and no other.
pub proof fn pci_event_is_recognised(relpath: Seq<char>, matcher: PciMatcher, uev: Uevent)
    requires
        matcher.devpath@ == PCI_ROOT_BUS_PATH@ + relpath,
    ensures
        matcher.accepts(uev) <==> uev.devpath@ == "/devices/pci0000:00"@ + relpath,
{
}

/// The event that announces a network interface of a PCI device is one that adds
/// an interface with a name, of the network subsystem, at or below the path of
/// the device, and no other.
pub proof fn net_event_is_recognised(relpath: Seq<char>, matcher: NetPciMatcher, uev: Uevent)
    requires
        matcher.devpath@ == PCI_ROOT_BUS_PATH@ + relpath,
    ensures
        matcher.accepts(uev) <==> {
            &&& ("/devices/pci0000:00"@ + relpath).is_prefix_of(uev.devpath@)
            &&& uev.subsystem@ == "net"@
            &&& uev.interface@.len() > 0
            &&& uev.action@ == "add"@
        },
{
}

/// The event that announces the node of an IOMMU group is the one with its path,
/// whatever else the event says, and no other.
pub proof fn vfio_event_is_recognised(group: IommuGroup, matcher: VfioMatcher, uev: Uevent)
    requires
        matcher.syspath@ == "/devices/virtual/vfio/"@ + group.text(),
    ensures
        matcher.accepts(uev) <==> uev.devpath@ == "/devices/virtual/vfio/"@ + decimal(
            group.0 as nat,
        ),
{
}

/// The path at which sysfs shows a queue.
pub open spec fn queue_path(address: ap::Address) -> Seq<char> {
    "/devices/ap/card"@ + hex(address.adapter_id as nat, 2) + "/"@ + hex(
        address.adapter_id as nat,
        2,
    ) + "."@ + hex(address.adapter_domain as nat, 4)
}

proof fn lemma_queue_path(address: ap::Address)
    ensures
        ap_syspath(address) == queue_path(address),
{
    reveal_strlit("/devices/ap/card");
    reveal_strlit("/devices/ap");
    reveal_strlit("/card");
    reveal_strlit("/");
    reveal_strlit(".");
    queues_are_written_in_full(address);
    assert(AP_ROOT_BUS_PATH@ + "/card"@ =~= "/devices/ap/card"@);
    assert("."@ =~= seq!['.']);
    assert(ap_syspath(address) =~= queue_path(address));
}

/// The event that announces a queue is one that adds it, with its path, and no
/// other.
pub proof fn queue_event_is_recognised(address: ap::Address, matcher: ApMatcher, uev: Uevent)
    requires
        matcher.syspath@ == ap_syspath(address),
    ensures
        matcher.accepts(uev) <==> uev.action@ == "add"@ && uev.devpath@ == queue_path(address),
{
    lemma_queue_path(address);
}

/// A VFIO option is a host address and a path with one equals sign between them.
/// The address is looked at first.
pub proof fn vfio_options_are_read(left: Seq<char>, right: Seq<char>)
    requires
        !left.contains('='),
        !right.contains('='),
    ensures
        ({
            let result = vfio_option(left + seq!['='] + right);
            &&& address_denoted(left) matches Err(cause) ==> result == Err::<
                (Address, Seq<SlotFn>),
                DeviceErrorView,
            >(Fault::VfioHost { cause })
            &&& address_denoted(left) is Ok && path_denoted(right) is Err ==> result == Err::<
                (Address, Seq<SlotFn>),
                DeviceErrorView,
            >(Fault::VfioPath { cause: path_denoted(right)->Err_0 })
            &&& address_denoted(left) is Ok && path_denoted(right) is Ok ==> result == Ok::<
                (Address, Seq<SlotFn>),
                DeviceErrorView,
            >((address_denoted(left)->Ok_0, path_denoted(right)->Ok_0))
        }),
{
    option_has_two_sides(left, right, left + seq!['='] + right);
}

/// An option without exactly one equals sign is no VFIO option.
pub proof fn vfio_options_have_one_equals_sign(parts: Seq<Seq<char>>)
    requires
        parts.len() >= 1,
        parts.len() != 2,
        forall|i: int| 0 <= i < parts.len() ==> !(#[trigger] parts[i]).contains('='),
    ensures
        vfio_option(join(parts, seq!['='])) == Err::<(Address, Seq<SlotFn>), DeviceErrorView>(
            Fault::VfioOption { option: join(parts, seq!['=']) },
        ),
        option_cut(join(parts, seq!['='])) is None,
{
    join_then_split(parts, '=');
}

/// Whether nothing is left to do for option `k`: it can be read, its device was
/// announced and, where the container drives it, is in the group of the devices
/// before it.
pub open spec fn settled(device: Device, answers: VfioAnswers, k: int) -> bool {
    let container = device.type_@ != "vfio-pci-gk"@;
    let groups = answers.groups@;
    &&& 0 <= k < device.options@.len()
    &&& vfio_option(device.options@[k]@) is Ok
    &&& k < answers.guests@.len()
    &&& container ==> {
        &&& k < groups.len()
        &&& groups[k] is Some
        &&& k > 0 ==> groups[k] == groups[k - 1]
    }
}

/// Whether the pairs are the host addresses of the options with the addresses of
/// the announced devices, in order.
pub open spec fn pairs_of(
    device: Device,
    answers: VfioAnswers,
    pairs: Seq<(Address, Address)>,
) -> bool {
    &&& pairs.len() == device.options@.len()
    &&& forall|k: int|
        0 <= k < pairs.len() ==> (#[trigger] pairs[k]).0 == vfio_option(
            device.options@[k]@,
        )->Ok_0.0 && pairs[k].1 == answers.guests@[k]
}

proof fn lemma_up_to(device: Device, answers: VfioAnswers, m: int)
    requires
        0 <= m <= device.options@.len(),
        forall|k: int| 0 <= k < m ==> settled(device, answers, k),
    ensures
        ({
            let options = text_views(device.options@);
            let container = device.type_@ != "vfio-pci-gk"@;
            options_next(options, container, answers.guests@, answers.groups@, 0) == options_next(
                options,
                container,
                answers.guests@,
                answers.groups@,
                m,
            )
        }),
    decreases m,
{
    if m > 0 {
        let options = text_views(device.options@);
        lemma_up_to(device, answers, m - 1);
        assert(settled(device, answers, m - 1));
        assert(options[m - 1] == device.options@[m - 1]@);
    }
}

/// What a VFIO device needs next, when nothing is left to do for the first `m`
/// options. The next device is waited for; one that the container drives is then
/// bound to the VFIO driver, and refused where it has no group or another one than
/// those before it.
pub proof fn vfio_devices_are_worked_through(device: Device, answers: VfioAnswers, m: int)
    requires
        0 <= m < device.options@.len(),
        forall|k: int| 0 <= k < m ==> settled(device, answers, k),
    ensures
        ({
            let result = vfio_next(device, answers);
            let container = device.type_@ != "vfio-pci-gk"@;
            let guests = answers.guests@;
            let groups = answers.groups@;
            match vfio_option(device.options@[m]@) {
                Err(e) => result == Err::<
                    VfioAction<Seq<char>, Seq<SlotFn>, SpecUpdateView>,
                    DeviceErrorView,
                >(e),
                Ok((_, path)) => {
                    &&& m >= guests.len() ==> result == Ok::<
                        VfioAction<Seq<char>, Seq<SlotFn>, SpecUpdateView>,
                        DeviceErrorView,
                    >(VfioAction::Wait(path))
                    &&& m < guests.len() && container && m >= groups.len() ==> result == Ok::<
                        VfioAction<Seq<char>, Seq<SlotFn>, SpecUpdateView>,
                        DeviceErrorView,
                    >(
                        VfioAction::Bind {
                            syspci: "/sys/bus/pci"@,
                            dev: guests[m],
                            drv: "vfio-pci"@,
                        },
                    )
                    &&& m < guests.len() && container && m < groups.len() && groups[m] is None
                        ==> result == Err::<
                        VfioAction<Seq<char>, Seq<SlotFn>, SpecUpdateView>,
                        DeviceErrorView,
                    >(Fault::NoGroup { dev: guests[m] })
                    &&& m < guests.len() && container && m < groups.len() && groups[m] is Some && m
                        > 0 && groups[m] != groups[m - 1] ==> result == Err::<
                        VfioAction<Seq<char>, Seq<SlotFn>, SpecUpdateView>,
                        DeviceErrorView,
                    >(Fault::OtherGroup { dev: guests[m], group: (groups[m - 1]->0).0 })
                },
            }
        }),
{
    let options = text_views(device.options@);
    let container = device.type_@ != "vfio-pci-gk"@;
    lemma_up_to(device, answers, m);
    assert(options[m] == device.options@[m]@);
}

/// What a VFIO device needs, or brings, when nothing is left to do for any of its
/// options. Where the guest kernel drives the device, it brings the addresses
/// alone. Where the container does, the node of the group is looked for and
/// inspected, and what it is, is brought as well, under the path of the node.
pub proof fn vfio_devices_are_described(device: Device, answers: VfioAnswers)
    requires
        forall|k: int| 0 <= k < device.options@.len() ==> settled(device, answers, k),
    ensures
        ({
            let result = vfio_next(device, answers);
            let container = device.type_@ != "vfio-pci-gk"@;
            let n = device.options@.len();
            &&& !container ==> {
                &&& result matches Ok(VfioAction::Done(update)) && update.dev is None && pairs_of(
                    device,
                    answers,
                    update.pci,
                )
            }
            &&& container && n == 0 ==> result == Err::<
                VfioAction<Seq<char>, Seq<SlotFn>, SpecUpdateView>,
                DeviceErrorView,
            >(Fault::NoVfioGroup)
            &&& container && n > 0 && answers.vm_path is None ==> result == Ok::<
                VfioAction<Seq<char>, Seq<SlotFn>, SpecUpdateView>,
                DeviceErrorView,
            >(VfioAction::Name(answers.groups@[0]->0))
            &&& container && n > 0 && answers.vm_path is Some && answers.inspection is None
                ==> result == Ok::<
                VfioAction<Seq<char>, Seq<SlotFn>, SpecUpdateView>,
                DeviceErrorView,
            >(VfioAction::Inspect((answers.vm_path->0)@))
            &&& container && n > 0 && answers.vm_path is Some && answers.inspection is Some ==> {
                let path = (answers.vm_path->0)@;
                match answers.inspection->0 {
                    Inspection::Missing => result == Err::<
                        VfioAction<Seq<char>, Seq<SlotFn>, SpecUpdateView>,
                        DeviceErrorView,
                    >(Fault::NoSuchPath { path }),
                    Inspection::Failed => result == Err::<
                        VfioAction<Seq<char>, Seq<SlotFn>, SpecUpdateView>,
                        DeviceErrorView,
                    >(Fault::Unreadable { path }),
                    Inspection::Found(file) => {
                        &&& file.kind == FileKind::Other ==> result == Err::<
                            VfioAction<Seq<char>, Seq<SlotFn>, SpecUpdateView>,
                            DeviceErrorView,
                        >(Fault::NotADevice { path })
                        &&& file.kind != FileKind::Other ==> {
                            &&& result is Ok && result->Ok_0 is Done
                            &&& pairs_of(device, answers, result->Ok_0->Done_0.pci)
                            &&& result->Ok_0->Done_0.dev is Some
                            &&& (result->Ok_0->Done_0.dev->0).final_path == Some(path)
                            &&& is_device(
                                (result->Ok_0->Done_0.dev->0).info,
                                if file.kind == FileKind::Char {
                                    "c"@
                                } else {
                                    "b"@
                                },
                                file.rdev,
                            )
                        }
                    },
                }
            }
        }),
{
    let options = text_views(device.options@);
    let n = options.len() as int;
    lemma_up_to(device, answers, n);
    assert forall|k: int| 0 <= k < n implies #[trigger] options[k] == device.options@[k]@ by {}
    if n > 0 && device.type_@ != "vfio-pci-gk"@ {
        lemma_one_group(device, answers, n - 1);
        if answers.vm_path is Some && answers.inspection is Some {
            inspection_tells_the_device(
                (answers.vm_path->0)@,
                true,
                answers.inspection->0,
            );
        }
    }
}

proof fn lemma_one_group(device: Device, answers: VfioAnswers, k: int)
    requires
        device.type_@ != "vfio-pci-gk"@,
        0 <= k < device.options@.len(),
        forall|i: int| 0 <= i < device.options@.len() ==> settled(device, answers, i),
    ensures
        answers.groups@[k] == answers.groups@[0],
        answers.groups@[0] is Some,
    decreases k,
{
    assert(settled(device, answers, k));
    assert(settled(device, answers, 0));
    if k > 0 {
        lemma_one_group(device, answers, k - 1);
    }
}

/// What an adjunct processor device needs next, or brings. The rescan time is set
/// and the bus is scanned. The queues are waited for in the order of the options,
/// with five seconds more, and these are taken off again before the device is
/// inspected or the work ends.
pub proof fn ap_devices_are_worked_through(supported: bool, device: Device, answers: ApAnswers)
    ensures
        ({
            let result = ap_next(supported, device, answers);
            let n = device.options@.len();
            let ready = supported && answers.paced && answers.scanned;
            let option = device.options@[answers.announced as int]@;
            let queue = ap::address_denoted(option);
            let waits = answers.announced < n && queue is Ok && !answers.lost;
            &&& !supported ==> result == Err::<
                ApAction<Seq<char>, Seq<char>, SpecUpdateView>,
                DeviceErrorView,
            >(Fault::ApUnsupported)
            &&& supported && !answers.paced ==> result == Ok::<
                ApAction<Seq<char>, Seq<char>, SpecUpdateView>,
                DeviceErrorView,
            >(ApAction::Pace { path: "/sys/bus/ap/config_time"@, text: "5"@ })
            &&& supported && answers.paced && !answers.scanned ==> result == Ok::<
                ApAction<Seq<char>, Seq<char>, SpecUpdateView>,
                DeviceErrorView,
            >(ApAction::Scan { path: "/sys/bus/ap/scans"@, text: "1"@ })
            &&& ready && waits && !answers.extended ==> result == Ok::<
                ApAction<Seq<char>, Seq<char>, SpecUpdateView>,
                DeviceErrorView,
            >(ApAction::ExtendTimeout(5))
            &&& ready && waits && answers.extended ==> result == Ok::<
                ApAction<Seq<char>, Seq<char>, SpecUpdateView>,
                DeviceErrorView,
            >(ApAction::Wait(queue_path(queue->Ok_0)))
            &&& ready && !waits && answers.extended ==> result == Ok::<
                ApAction<Seq<char>, Seq<char>, SpecUpdateView>,
                DeviceErrorView,
            >(ApAction::RestoreTimeout(5))
            &&& ready && !answers.extended && answers.announced < n && queue is Err ==> result
                == Err::<ApAction<Seq<char>, Seq<char>, SpecUpdateView>, DeviceErrorView>(
                Fault::ApAddress { cause: queue->Err_0 },
            )
            &&& ready && !answers.extended && answers.announced < n && queue is Ok && answers.lost
                ==> result == Err::<
                ApAction<Seq<char>, Seq<char>, SpecUpdateView>,
                DeviceErrorView,
            >(Fault::QueueLost { option })
            &&& ready && !answers.extended && answers.announced >= n ==> match answers.inspection {
                None => result == Ok::<
                    ApAction<Seq<char>, Seq<char>, SpecUpdateView>,
                    DeviceErrorView,
                >(ApAction::Inspect("/dev/z90crypt"@)),
                Some(Inspection::Missing) => result == Err::<
                    ApAction<Seq<char>, Seq<char>, SpecUpdateView>,
                    DeviceErrorView,
                >(Fault::NoSuchPath { path: "/dev/z90crypt"@ }),
                Some(Inspection::Failed) => result == Err::<
                    ApAction<Seq<char>, Seq<char>, SpecUpdateView>,
                    DeviceErrorView,
                >(Fault::Unreadable { path: "/dev/z90crypt"@ }),
                Some(Inspection::Found(file)) => {
                    &&& file.kind == FileKind::Other ==> result == Err::<
                        ApAction<Seq<char>, Seq<char>, SpecUpdateView>,
                        DeviceErrorView,
                    >(Fault::NotADevice { path: "/dev/z90crypt"@ })
                    &&& file.kind != FileKind::Other ==> {
                        &&& result is Ok && result->Ok_0 is Done
                        &&& result->Ok_0->Done_0.pci.len() == 0
                        &&& result->Ok_0->Done_0.dev is Some
                        &&& (result->Ok_0->Done_0.dev->0).final_path == Some("/dev/z90crypt"@)
                        &&& is_device(
                            (result->Ok_0->Done_0.dev->0).info,
                            if file.kind == FileKind::Char {
                                "c"@
                            } else {
                                "b"@
                            },
                            file.rdev,
                        )
                    }
                },
            }
        }),
{
    let options = text_views(device.options@);
    if answers.announced < options.len() {
        assert(options[answers.announced as int] == device.options@[answers.announced as int]@);
        if let Ok(address) = ap::address_denoted(options[answers.announced as int]) {
            lemma_queue_path(address);
        }
    }
    if let Some(inspection) = answers.inspection {
        inspection_tells_the_device("/dev/z90crypt"@, true, inspection);
    }
    assert(decimal(5) =~= "5"@) by {
        reveal_strlit("5");
    }
}

} // verus!
