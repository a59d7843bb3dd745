//! What each kind of device needs before a container can use it.
use crate::ap;
use crate::error::{DeviceError, DeviceErrorView, Fault};
use crate::info::{
    device_inspected, DevUpdate, DevUpdateView, Inspection, SpecUpdate, SpecUpdateView,
};
use crate::linux_abi::{
    AP_CONFIG_TIME_PATH, AP_RESCAN_SECONDS, AP_SCANS_PATH, DRIVER_BLK_CCW_TYPE,
    DRIVER_BLK_MMIO_TYPE, DRIVER_BLK_PCI_TYPE, DRIVER_NVDIMM_TYPE, DRIVER_SCSI_TYPE,
    DRIVER_VFIO_AP_TYPE, DRIVER_VFIO_PCI_GK_TYPE, DRIVER_VFIO_PCI_TYPE, SYSFS_BUS_PCI_PATH,
    Z9_CRYPT_DEV_PATH,
};
use crate::matcher::{ap_syspath, ApMatcher, IommuGroup};
use crate::numeral::{decimal, decimal_text};
use crate::oci::text_views;
use crate::pci::{address_denoted, path_denoted, Address, Path, SlotFn};
use crate::text::{join, join_then_split, same_text, split, split_text, split_then_join};
use vstd::prelude::*;

verus! {

/// A device that the container should get.
#[derive(Clone, Debug, Default)]
pub struct Device {
    pub id: String,
    /// What kind of device it is.
    pub type_: String,
    /// The path of the device inside the guest.
    pub vm_path: String,
    /// The path of the device inside the container.
    pub container_path: String,
    /// What else there is to know, depending on the kind of device.
    pub options: Vec<String>,
}

/// The two sides of an option of the form `<left>=<right>`.
pub open spec fn option_cut(option: Seq<char>) -> Option<(Seq<char>, Seq<char>)> {
    let sides = split(option, '=');
    if sides.len() == 2 {
        Some((sides[0], sides[1]))
    } else {
        None
    }
}

/// An option is cut exactly where it has one equals sign, and what the cut
/// gives are its two sides.
pub proof fn option_has_two_sides(left: Seq<char>, right: Seq<char>, option: Seq<char>)
    ensures
        option_cut(option) == Some((left, right)) <==> option == left + seq!['='] + right
            && !left.contains('=') && !right.contains('='),
{
    let sides = seq![left, right];
    assert(sides.drop_last() =~= seq![left]);
    assert(join(seq![left], seq!['=']) == left);
    assert(join(sides, seq!['=']) == left + seq!['='] + right);
    if option_cut(option) == Some((left, right)) {
        split_then_join(option, '=');
        assert(split(option, '=') =~= sides);
        assert(!split(option, '=')[0].contains('='));
        assert(!split(option, '=')[1].contains('='));
    }
    if option == left + seq!['='] + right && !left.contains('=') && !right.contains('=') {
        assert(!sides[0].contains('='));
        assert(!sides[1].contains('='));
        join_then_split(sides, '=');
    }
}

/// The two sides of an option with exactly one equals sign.
pub fn split_vfio_pci_option<'a>(opt: &'a str) -> (r: Option<(&'a str, &'a str)>)
    ensures
        match r {
            Some((hostbdf, path)) => option_cut(opt@) == Some((hostbdf@, path@)),
            None => option_cut(opt@) is None,
        },
{
    let sides = split_text(opt, '=');
    let ghost views = sides@.map_values(|p: String| p@);
    if sides.len() != 2 {
        return None;
    }
    let left = sides[0].as_str().unicode_len();
    let all = opt.unicode_len();
    proof {
        assert(views[0] == sides@[0]@);
        assert(views[1] == sides@[1]@);
        split_then_join(opt@, '=');
        assert(views.drop_last() =~= seq![views[0]]);
        assert(join(views.drop_last(), seq!['=']) == views[0]);
        assert(opt@ == views[0] + seq!['='] + views[1]);
        assert(opt@.subrange(0, left as int) =~= views[0]);
        assert(opt@.subrange(left + 1, all as int) =~= views[1]);
    }
    Some((opt.substring_char(0, left), opt.substring_char(left + 1, all)))
}

/// The driver that hands a PCI device through to a container.
pub const VFIO_PCI_DRIVER: &'static str = "vfio-pci";

/// The host address and the guest path of a VFIO option.
pub open spec fn vfio_option(option: Seq<char>) -> Result<
    (Address, Seq<SlotFn>),
    DeviceErrorView,
> {
    match option_cut(option) {
        None => Err(Fault::VfioOption { option }),
        Some((host, pcipath)) => match (address_denoted(host), path_denoted(pcipath)) {
            (Err(cause), _) => Err(Fault::VfioHost { cause }),
            (_, Err(cause)) => Err(Fault::VfioPath { cause }),
            (Ok(addr), Ok(path)) => Ok((addr, path)),
        },
    }
}

/// Reads a VFIO option.
fn read_vfio_option(opt: &String) -> (r: Result<(Address, Path), DeviceError>)
    ensures
        match r {
            Ok((addr, path)) => vfio_option(opt@) == Ok::<
                (Address, Seq<SlotFn>),
                DeviceErrorView,
            >((addr, path@)),
            Err(e) => vfio_option(opt@) == Err::<(Address, Seq<SlotFn>), DeviceErrorView>(e@),
        },
{
    match split_vfio_pci_option(opt.as_str()) {
        None => Err(Fault::VfioOption { option: opt.clone() }),
        Some((host, pcipath)) => match Address::from_str(host) {
            Err(cause) => Err(Fault::VfioHost { cause }),
            Ok(addr) => match Path::from_str(pcipath) {
                Err(cause) => Err(Fault::VfioPath { cause }),
                Ok(path) => Ok((addr, path)),
            },
        },
    }
}

/// What to do next for a VFIO device. `T` is a text, `P` a PCI path, `U` the
/// updates that the device brings.
#[derive(Debug)]
pub enum VfioAction<T, P, U> {
    /// Wait for the PCI device at the path, and learn its address.
    Wait(P),
    /// Bind the PCI device to the driver, in the PCI bus directory `syspci`, and
    /// learn its IOMMU group.
    Bind { syspci: T, dev: Address, drv: T },
    /// Learn the path of the group's device node.
    Name(IommuGroup),
    /// Inspect the file at the path.
    Inspect(T),
    /// The device is ready.
    Done(U),
}

impl View for VfioAction<String, Path, SpecUpdate> {
    type V = VfioAction<Seq<char>, Seq<SlotFn>, SpecUpdateView>;

    open spec fn view(&self) -> VfioAction<Seq<char>, Seq<SlotFn>, SpecUpdateView> {
        match *self {
            VfioAction::Wait(path) => VfioAction::Wait(path@),
            VfioAction::Bind { syspci, dev, drv } => VfioAction::Bind {
                syspci: syspci@,
                dev,
                drv: drv@,
            },
            VfioAction::Name(group) => VfioAction::Name(group),
            VfioAction::Inspect(path) => VfioAction::Inspect(path@),
            VfioAction::Done(update) => VfioAction::Done(update@),
        }
    }
}

/// What was learned so far about a VFIO device, in the order of its options.
#[derive(Debug)]
pub struct VfioAnswers {
    /// The addresses of the PCI devices that were waited for.
    pub guests: Vec<Address>,
    /// The IOMMU groups of the PCI devices that were bound.
    pub groups: Vec<Option<IommuGroup>>,
    /// The path of the group's device node.
    pub vm_path: Option<String>,
    /// What came of inspecting that node.
    pub inspection: Option<Inspection>,
}

impl VfioAnswers {
    /// Nothing was learned yet.
    pub fn new() -> (r: VfioAnswers)
        ensures
            r.guests@.len() == 0,
            r.groups@.len() == 0,
            r.vm_path is None,
            r.inspection is None,
    {
        VfioAnswers { guests: Vec::new(), groups: Vec::new(), vm_path: None, inspection: None }
    }
}

/// What to do next for the option at place `i`, which gives the path; `None` where
/// nothing is left to do for it. A device that the container drives itself must
/// be bound to the VFIO driver, and all of them must be in one IOMMU group.
pub open spec fn option_next(
    path: Seq<SlotFn>,
    in_guest: bool,
    guests: Seq<Address>,
    groups: Seq<Option<IommuGroup>>,
    i: int,
) -> Option<Result<VfioAction<Seq<char>, Seq<SlotFn>, SpecUpdateView>, DeviceErrorView>> {
    if i >= guests.len() {
        Some(Ok(VfioAction::Wait(path)))
    } else if !in_guest {
        None
    } else if i >= groups.len() {
        Some(
            Ok(
                VfioAction::Bind {
                    syspci: SYSFS_BUS_PCI_PATH@,
                    dev: guests[i],
                    drv: VFIO_PCI_DRIVER@,
                },
            ),
        )
    } else if groups[i] is None {
        Some(Err(Fault::NoGroup { dev: guests[i] }))
    } else if i > 0 && groups[i] != groups[i - 1] {
        Some(Err(Fault::OtherGroup { dev: guests[i], group: (groups[i - 1]->0).0 }))
    } else {
        None
    }
}

/// What to do next for the options from place `i` on; `None` where nothing is
/// left to do for them.
pub open spec fn options_next(
    options: Seq<Seq<char>>,
    in_guest: bool,
    guests: Seq<Address>,
    groups: Seq<Option<IommuGroup>>,
    i: int,
) -> Option<Result<VfioAction<Seq<char>, Seq<SlotFn>, SpecUpdateView>, DeviceErrorView>>
    decreases options.len() - i,
{
    if !(0 <= i < options.len()) {
        None
    } else {
        match vfio_option(options[i]) {
            Err(e) => Some(Err(e)),
            Ok((_, path)) => match option_next(path, in_guest, guests, groups, i) {
                Some(next) => Some(next),
                None => options_next(options, in_guest, guests, groups, i + 1),
            },
        }
    }
}

/// The host addresses of the first `n` options, each with its guest address.
pub open spec fn fixups(options: Seq<Seq<char>>, guests: Seq<Address>, n: nat) -> Seq<
    (Address, Address),
> {
    Seq::new(n, |i: int| (vfio_option(options[i])->Ok_0.0, guests[i]))
}

/// Whether the container drives the device itself.
pub open spec fn driven_in_container(device: Device) -> bool {
    device.type_@ != DRIVER_VFIO_PCI_GK_TYPE@
}

/// What to do next for a VFIO device, given what was learned so far.
pub open spec fn vfio_next(device: Device, answers: VfioAnswers) -> Result<
    VfioAction<Seq<char>, Seq<SlotFn>, SpecUpdateView>,
    DeviceErrorView,
> {
    let options = text_views(device.options@);
    let in_guest = driven_in_container(device);
    let pci = fixups(options, answers.guests@, options.len());
    match options_next(options, in_guest, answers.guests@, answers.groups@, 0) {
        Some(next) => next,
        None => if !in_guest {
            Ok(VfioAction::Done(SpecUpdateView { dev: None, pci }))
        } else if options.len() == 0 {
            Err(Fault::NoVfioGroup)
        } else {
            match (answers.vm_path, answers.inspection) {
                (None, _) => Ok(VfioAction::Name(answers.groups@[options.len() - 1]->0)),
                (Some(vm_path), None) => Ok(VfioAction::Inspect(vm_path@)),
                (Some(vm_path), Some(inspection)) => match device_inspected(
                    vm_path@,
                    true,
                    inspection,
                ) {
                    Err(e) => Err(e),
                    Ok(info) => Ok(
                        VfioAction::Done(
                            SpecUpdateView {
                                dev: Some(DevUpdateView { info, final_path: Some(vm_path@) }),
                                pci,
                            },
                        ),
                    ),
                },
            }
        },
    }
}

/// What is still to do for the option at place `i`, which gives the path.
fn check_option(
    pcipath: Path,
    vfio_in_guest: bool,
    answers: &VfioAnswers,
    i: usize,
) -> (r: Option<Result<VfioAction<String, Path, SpecUpdate>, DeviceError>>)
    requires
        vfio_in_guest && i > 0 ==> i <= answers.groups@.len() && answers.groups@[i - 1] is Some,
    ensures
        ({
            let next = option_next(
                pcipath@,
                vfio_in_guest,
                answers.guests@,
                answers.groups@,
                i as int,
            );
            match r {
                None => next is None,
                Some(Ok(action)) => next == Some(
                    Ok::<VfioAction<Seq<char>, Seq<SlotFn>, SpecUpdateView>, DeviceErrorView>(
                        action@,
                    ),
                ),
                Some(Err(e)) => next == Some(
                    Err::<VfioAction<Seq<char>, Seq<SlotFn>, SpecUpdateView>, DeviceErrorView>(e@),
                ),
            }
        }),
{
    if i >= answers.guests.len() {
        return Some(Ok(VfioAction::Wait(pcipath)));
    }
    let guestdev = answers.guests[i];
    if !vfio_in_guest {
        return None;
    }
    if i >= answers.groups.len() {
        return Some(
            Ok(
                VfioAction::Bind {
                    syspci: SYSFS_BUS_PCI_PATH.to_owned(),
                    dev: guestdev,
                    drv: VFIO_PCI_DRIVER.to_owned(),
                },
            ),
        );
    }
    // Devices must have an IOMMU group to be usable via VFIO
    let devgroup = match answers.groups[i] {
        Some(devgroup) => devgroup,
        None => {
            return Some(Err(Fault::NoGroup { dev: guestdev }));
        },
    };
    if i > 0 {
        if let Some(g) = answers.groups[i - 1] {
            if g != devgroup {
                return Some(Err(Fault::OtherGroup { dev: guestdev, group: g.0 }));
            }
        }
    }
    None
}

/// Pairs the host address of every option with its guest address, or says what
/// is still to do for the options.
fn collect_fixups(opts: &Vec<String>, vfio_in_guest: bool, answers: &VfioAnswers) -> (r: Result<
    Vec<(Address, Address)>,
    Result<VfioAction<String, Path, SpecUpdate>, DeviceError>,
>)
    ensures
        ({
            let options = text_views(opts@);
            let next = options_next(
                options,
                vfio_in_guest,
                answers.guests@,
                answers.groups@,
                0,
            );
            match r {
                Ok(pairs) => next is None && pairs@ == fixups(
                    options,
                    answers.guests@,
                    options.len(),
                ),
                Err(Ok(action)) => next == Some(
                    Ok::<VfioAction<Seq<char>, Seq<SlotFn>, SpecUpdateView>, DeviceErrorView>(
                        action@,
                    ),
                ),
                Err(Err(e)) => next == Some(
                    Err::<VfioAction<Seq<char>, Seq<SlotFn>, SpecUpdateView>, DeviceErrorView>(e@),
                ),
            }
        }),
{
    let mut pci_fixups: Vec<(Address, Address)> = Vec::new();
    let ghost options = text_views(opts@);
    for i in 0..opts.len()
        invariant
            options == text_views(opts@),
            options_next(options, vfio_in_guest, answers.guests@, answers.groups@, 0)
                == options_next(
                options,
                vfio_in_guest,
                answers.guests@,
                answers.groups@,
                i as int,
            ),
            pci_fixups@ == fixups(options, answers.guests@, i as nat),
            vfio_in_guest && i > 0 ==> i <= answers.groups@.len() && answers.groups@[i - 1] is Some,
    {
        assert(options[i as int] == opts@[i as int]@);
        let (host, pcipath) = match read_vfio_option(&opts[i]) {
            Ok(read) => read,
            Err(e) => {
                return Err(Err(e));
            },
        };
        if let Some(next) = check_option(pcipath, vfio_in_guest, answers, i) {
            return Err(next);
        }
        // collect PCI address mapping for both vfio-pci-gk and vfio-pci device
        pci_fixups.push((host, answers.guests[i]));
        assert(pci_fixups@ =~= fixups(options, answers.guests@, (i + 1) as nat));
    }
    Ok(pci_fixups)
}

/// Handles a VFIO device on the PCI bus.
///
/// device.options should have one entry for each PCI device in the VFIO group
/// Each option should have the form "DDDD:BB:DD.F=<pcipath>"
///     DDDD:BB:DD.F is the device's PCI address in the host
///     <pcipath> is a PCI path to the device in the guest
///
/// Says what to do next, given what was learned so far.
pub fn vfio_pci_device_handler(device: &Device, answers: &VfioAnswers) -> (r: Result<
    VfioAction<String, Path, SpecUpdate>,
    DeviceError,
>)
    ensures
        match r {
            Ok(action) => vfio_next(*device, *answers) == Ok::<
                VfioAction<Seq<char>, Seq<SlotFn>, SpecUpdateView>,
                DeviceErrorView,
            >(action@),
            Err(e) => vfio_next(*device, *answers) == Err::<
                VfioAction<Seq<char>, Seq<SlotFn>, SpecUpdateView>,
                DeviceErrorView,
            >(e@),
        },
{
    let vfio_in_guest = !same_text(device.type_.as_str(), DRIVER_VFIO_PCI_GK_TYPE);
    let ghost options = text_views(device.options@);
    let pci_fixups = match collect_fixups(&device.options, vfio_in_guest, answers) {
        Ok(pci_fixups) => pci_fixups,
        Err(next) => {
            return next;
        },
    };
    if !vfio_in_guest {
        return Ok(VfioAction::Done(SpecUpdate { dev: None, pci: pci_fixups }));
    }
    let count = device.options.len();
    if count == 0 {
        return Err(Fault::NoVfioGroup);
    }
    proof {
        lemma_options_done(options, true, answers.guests@, answers.groups@, 0, count - 1);
    }
    let group = match answers.groups[count - 1] {
        Some(group) => group,
        None => {
            return Err(Fault::NoVfioGroup);
        },
    };
    match (&answers.vm_path, answers.inspection) {
        (None, _) => Ok(VfioAction::Name(group)),
        (Some(vm_path), None) => Ok(VfioAction::Inspect(vm_path.clone())),
        (Some(vm_path), Some(inspection)) => match DevUpdate::new(
            vm_path.as_str(),
            vm_path.as_str(),
            inspection,
        ) {
            Err(e) => Err(e),
            Ok(update) => {
                assert(update@ =~= DevUpdateView {
                    info: update@.info,
                    final_path: Some(vm_path@),
                });
                Ok(VfioAction::Done(SpecUpdate { dev: Some(update), pci: pci_fixups }))
            },
        },
    }
}

proof fn lemma_options_done(
    options: Seq<Seq<char>>,
    in_guest: bool,
    guests: Seq<Address>,
    groups: Seq<Option<IommuGroup>>,
    i: int,
    k: int,
)
    requires
        options_next(options, in_guest, guests, groups, i) is None,
        0 <= i <= k < options.len(),
    ensures
        vfio_option(options[k]) is Ok,
        k < guests.len(),
        in_guest ==> k < groups.len() && groups[k] is Some,
        in_guest && k > 0 ==> groups[k] == groups[k - 1],
    decreases k - i,
{
    if i < k {
        lemma_options_done(options, in_guest, guests, groups, i + 1, k);
    }
}

proof fn lemma_options_are_no_end(
    options: Seq<Seq<char>>,
    in_guest: bool,
    guests: Seq<Address>,
    groups: Seq<Option<IommuGroup>>,
    i: int,
    update: SpecUpdateView,
)
    ensures
        options_next(options, in_guest, guests, groups, i) != Some(
            Ok::<VfioAction<Seq<char>, Seq<SlotFn>, SpecUpdateView>, DeviceErrorView>(
                VfioAction::Done(update),
            ),
        ),
    decreases options.len() - i,
{
    if 0 <= i < options.len() {
        lemma_options_are_no_end(options, in_guest, guests, groups, i + 1, update);
    }
}

/// A VFIO device that is ready brings a guest address for the host address of
/// every option, in order. Where the container drives the device, it also
/// brings the group's device node, under its own path, and all the PCI devices
/// are in one IOMMU group.
pub proof fn vfio_device_is_ready(device: Device, answers: VfioAnswers, update: SpecUpdateView)
    requires
        vfio_next(device, answers) == Ok::<
            VfioAction<Seq<char>, Seq<SlotFn>, SpecUpdateView>,
            DeviceErrorView,
        >(VfioAction::Done(update)),
    ensures
        ({
            let options = text_views(device.options@);
            &&& update.pci.len() == options.len()
            &&& options.len() <= answers.guests@.len()
            &&& forall|k: int|
                0 <= k < options.len() ==> {
                    &&& vfio_option(#[trigger] options[k]) is Ok
                    &&& update.pci[k] == (vfio_option(options[k])->Ok_0.0, answers.guests@[k])
                }
            &&& update.dev is Some == driven_in_container(device)
            &&& driven_in_container(device) ==> {
                &&& options.len() > 0
                &&& answers.vm_path is Some
                &&& (update.dev->0).final_path == Some((answers.vm_path->0)@)
                &&& options.len() <= answers.groups@.len()
                &&& answers.groups@[0] is Some
                &&& forall|k: int|
                    0 <= k < options.len() ==> #[trigger] answers.groups@[k] == answers.groups@[0]
            }
        }),
{
    let options = text_views(device.options@);
    let in_guest = driven_in_container(device);
    let groups = answers.groups@;
    lemma_options_are_no_end(options, in_guest, answers.guests@, groups, 0, update);
    if options.len() > 0 {
        lemma_options_done(options, in_guest, answers.guests@, groups, 0, options.len() - 1);
        lemma_options_done(options, in_guest, answers.guests@, groups, 0, 0);
    }
    assert forall|k: int| 0 <= k < options.len() implies vfio_option(
        #[trigger] options[k],
    ) is Ok by {
        lemma_options_done(options, in_guest, answers.guests@, groups, 0, k);
    }
    if in_guest {
        assert forall|k: int| 0 <= k < options.len() implies #[trigger] groups[k] == groups[0] by {
            lemma_one_group(options, answers.guests@, groups, k);
        }
    }
}

proof fn lemma_one_group(
    options: Seq<Seq<char>>,
    guests: Seq<Address>,
    groups: Seq<Option<IommuGroup>>,
    k: int,
)
    requires
        options_next(options, true, guests, groups, 0) is None,
        0 <= k < options.len(),
    ensures
        groups[k] == groups[0],
    decreases k,
{
    if k > 0 {
        lemma_options_done(options, true, guests, groups, 0, k);
        lemma_one_group(options, guests, groups, k - 1);
    }
}

proof fn lemma_options_in_turn(
    options: Seq<Seq<char>>,
    in_guest: bool,
    guests: Seq<Address>,
    groups: Seq<Option<IommuGroup>>,
    i: int,
    action: VfioAction<Seq<char>, Seq<SlotFn>, SpecUpdateView>,
)
    requires
        0 <= i <= guests.len(),
        in_guest ==> i <= groups.len(),
        options_next(options, in_guest, guests, groups, i) == Some(
            Ok::<VfioAction<Seq<char>, Seq<SlotFn>, SpecUpdateView>, DeviceErrorView>(action),
        ),
    ensures
        match action {
            VfioAction::Wait(path) => {
                &&& guests.len() < options.len()
                &&& vfio_option(options[guests.len() as int]) is Ok
                &&& vfio_option(options[guests.len() as int])->Ok_0.1 == path
                &&& in_guest ==> guests.len() <= groups.len()
            },
            VfioAction::Bind { syspci, dev, drv } => {
                &&& in_guest
                &&& groups.len() < guests.len()
                &&& dev == guests[groups.len() as int]
                &&& syspci == SYSFS_BUS_PCI_PATH@
                &&& drv == VFIO_PCI_DRIVER@
            },
            _ => false,
        },
    decreases options.len() - i,
{
    if i < options.len() && i < guests.len() && (!in_guest || i < groups.len()) {
        lemma_options_in_turn(options, in_guest, guests, groups, i + 1, action);
    }
}

/// The PCI devices of a VFIO device are taken in the order of the options. Each
/// is waited for at the path that its option gives, when all before it are
/// done. Only a device that the container drives is bound to a driver, and only
/// when it was announced. The group whose node is looked for is that of all the
/// devices.
pub proof fn vfio_devices_are_taken_in_turn(device: Device, answers: VfioAnswers)
    ensures
        ({
            let options = text_views(device.options@);
            let guests = answers.guests@;
            let groups = answers.groups@;
            match vfio_next(device, answers) {
                Ok(VfioAction::Wait(path)) => {
                    &&& guests.len() < options.len()
                    &&& vfio_option(options[guests.len() as int]) is Ok
                    &&& vfio_option(options[guests.len() as int])->Ok_0.1 == path
                    &&& driven_in_container(device) ==> guests.len() <= groups.len()
                },
                Ok(VfioAction::Bind { syspci, dev, drv }) => {
                    &&& driven_in_container(device)
                    &&& groups.len() < guests.len()
                    &&& dev == guests[groups.len() as int]
                    &&& syspci == SYSFS_BUS_PCI_PATH@
                    &&& drv == VFIO_PCI_DRIVER@
                },
                Ok(VfioAction::Name(group)) => {
                    &&& driven_in_container(device)
                    &&& 0 < options.len() <= groups.len()
                    &&& groups[0] == Some(group)
                },
                _ => true,
            }
        }),
{
    let options = text_views(device.options@);
    let in_guest = driven_in_container(device);
    match options_next(options, in_guest, answers.guests@, answers.groups@, 0) {
        Some(Ok(action)) => {
            lemma_options_in_turn(options, in_guest, answers.guests@, answers.groups@, 0, action);
        },
        Some(Err(_)) => {},
        None => {
            if in_guest && options.len() > 0 {
                let last = options.len() - 1;
                lemma_options_done(options, true, answers.guests@, answers.groups@, 0, last);
                lemma_one_group(options, answers.guests@, answers.groups@, last);
            }
        },
    }
}

/// What to do next for an adjunct processor device. `T` is a text, `M` tells
/// the event that announces a queue, `U` are the updates that the device
/// brings.
#[derive(Debug)]
pub enum ApAction<T, M, U> {
    /// Write the text to the file, so that the bus is scanned as often as can be.
    Pace { path: T, text: T },
    /// Write the text to the file, so that the bus is scanned.
    Scan { path: T, text: T },
    /// From now on, wait for announced devices that many seconds longer.
    ExtendTimeout(u32),
    /// Wait for an event.
    Wait(M),
    /// From now on, wait for announced devices that many seconds less.
    RestoreTimeout(u32),
    /// Inspect the file at the path.
    Inspect(T),
    /// The device is ready.
    Done(U),
}

impl View for ApAction<String, ApMatcher, SpecUpdate> {
    type V = ApAction<Seq<char>, Seq<char>, SpecUpdateView>;

    open spec fn view(&self) -> ApAction<Seq<char>, Seq<char>, SpecUpdateView> {
        match *self {
            ApAction::Pace { path, text } => ApAction::Pace { path: path@, text: text@ },
            ApAction::Scan { path, text } => ApAction::Scan { path: path@, text: text@ },
            ApAction::ExtendTimeout(seconds) => ApAction::ExtendTimeout(seconds),
            ApAction::RestoreTimeout(seconds) => ApAction::RestoreTimeout(seconds),
            ApAction::Wait(matcher) => ApAction::Wait(matcher.syspath@),
            ApAction::Inspect(path) => ApAction::Inspect(path@),
            ApAction::Done(update) => ApAction::Done(update@),
        }
    }
}

/// How far the work on an adjunct processor device has come.
#[derive(Debug)]
pub struct ApAnswers {
    /// Whether the bus is scanned as often as can be.
    pub paced: bool,
    /// Whether the bus was scanned.
    pub scanned: bool,
    /// Whether announced devices are waited for longer at present.
    pub extended: bool,
    /// How many queues were announced, in the order of the options.
    pub announced: usize,
    /// Whether waiting for the next queue ended without it.
    pub lost: bool,
    /// What came of inspecting the cryptographic device.
    pub inspection: Option<Inspection>,
}

impl ApAnswers {
    /// Nothing was done yet.
    pub fn new() -> (r: ApAnswers)
        ensures
            r == (ApAnswers {
                paced: false,
                scanned: false,
                extended: false,
                announced: 0,
                lost: false,
                inspection: None,
            }),
    {
        ApAnswers {
            paced: false,
            scanned: false,
            extended: false,
            announced: 0,
            lost: false,
            inspection: None,
        }
    }
}

/// The next queue to wait for, if there is one left, or why it cannot be waited
/// for.
pub open spec fn next_queue(options: Seq<Seq<char>>, answers: ApAnswers) -> Option<
    Result<ap::Address, DeviceErrorView>,
> {
    if answers.announced >= options.len() {
        None
    } else {
        let option = options[answers.announced as int];
        match ap::address_denoted(option) {
            Err(cause) => Some(Err(Fault::ApAddress { cause })),
            Ok(address) => if answers.lost {
                Some(Err(Fault::QueueLost { option }))
            } else {
                Some(Ok(address))
            },
        }
    }
}

/// What to do next for an adjunct processor device. First the bus is scanned,
/// then the queues that the options name are waited for, one after the other,
/// with more time than for other devices. That time is taken off again before
/// anything else is done.
pub open spec fn ap_next(supported: bool, device: Device, answers: ApAnswers) -> Result<
    ApAction<Seq<char>, Seq<char>, SpecUpdateView>,
    DeviceErrorView,
> {
    let queue = next_queue(text_views(device.options@), answers);
    if !supported {
        Err(Fault::ApUnsupported)
    } else if !answers.paced {
        Ok(
            ApAction::Pace {
                path: AP_CONFIG_TIME_PATH@,
                text: decimal(AP_RESCAN_SECONDS as nat),
            },
        )
    } else if !answers.scanned {
        Ok(ApAction::Scan { path: AP_SCANS_PATH@, text: "1"@ })
    } else if let Some(Ok(address)) = queue {
        if answers.extended {
            Ok(ApAction::Wait(ap_syspath(address)))
        } else {
            Ok(ApAction::ExtendTimeout(AP_RESCAN_SECONDS))
        }
    } else if answers.extended {
        Ok(ApAction::RestoreTimeout(AP_RESCAN_SECONDS))
    } else if let Some(Err(e)) = queue {
        Err(e)
    } else {
        match answers.inspection {
            None => Ok(ApAction::Inspect(Z9_CRYPT_DEV_PATH@)),
            Some(inspection) => match device_inspected(Z9_CRYPT_DEV_PATH@, true, inspection) {
                Err(e) => Err(e),
                Ok(info) => Ok(
                    ApAction::Done(
                        SpecUpdateView {
                            dev: Some(
                                DevUpdateView { info, final_path: Some(Z9_CRYPT_DEV_PATH@) },
                            ),
                            pci: Seq::empty(),
                        },
                    ),
                ),
            },
        }
    }
}

/// Reads the option for the next queue, if there is one left.
fn read_next_queue(options: &Vec<String>, answers: &ApAnswers) -> (r: Option<
    Result<ap::Address, DeviceError>,
>)
    ensures
        match r {
            None => next_queue(text_views(options@), *answers) is None,
            Some(Ok(address)) => next_queue(text_views(options@), *answers) == Some(
                Ok::<ap::Address, DeviceErrorView>(address),
            ),
            Some(Err(e)) => next_queue(text_views(options@), *answers) == Some(
                Err::<ap::Address, DeviceErrorView>(e@),
            ),
        },
{
    if answers.announced >= options.len() {
        return None;
    }
    let option = &options[answers.announced];
    assert(text_views(options@)[answers.announced as int] == option@);
    match ap::Address::from_str(option.as_str()) {
        Err(cause) => Some(Err(Fault::ApAddress { cause })),
        Ok(address) => if answers.lost {
            Some(Err(Fault::QueueLost { option: option.clone() }))
        } else {
            Some(Ok(address))
        },
    }
}

/// The VFIO AP (Adjunct Processor) device handler takes all the APQNs provided as device options
/// and awaits them. It sets the minimum AP rescan time of 5 seconds and temporarily adds that
/// amount to the hotplug timeout. Only some machines have adjunct processors: `supported`.
///
/// Says what to do next, given how far the work has come.
pub fn vfio_ap_device_handler(supported: bool, device: &Device, answers: &ApAnswers) -> (r: Result<
    ApAction<String, ApMatcher, SpecUpdate>,
    DeviceError,
>)
    ensures
        match r {
            Ok(action) => ap_next(supported, *device, *answers) == Ok::<
                ApAction<Seq<char>, Seq<char>, SpecUpdateView>,
                DeviceErrorView,
            >(action@),
            Err(e) => ap_next(supported, *device, *answers) == Err::<
                ApAction<Seq<char>, Seq<char>, SpecUpdateView>,
                DeviceErrorView,
            >(e@),
        },
{
    if !supported {
        return Err(Fault::ApUnsupported);
    }
    if !answers.paced {
        return Ok(
            ApAction::Pace {
                path: AP_CONFIG_TIME_PATH.to_owned(),
                text: decimal_text(AP_RESCAN_SECONDS),
            },
        );
    }
    // Force AP bus rescan
    if !answers.scanned {
        return Ok(ApAction::Scan { path: AP_SCANS_PATH.to_owned(), text: "1".to_owned() });
    }
    let queue = read_next_queue(&device.options, answers);
    if let Some(Ok(address)) = queue {
        return if answers.extended {
            Ok(ApAction::Wait(ApMatcher::new(address)))
        } else {
            Ok(ApAction::ExtendTimeout(AP_RESCAN_SECONDS))
        };
    }
    if answers.extended {
        return Ok(ApAction::RestoreTimeout(AP_RESCAN_SECONDS));
    }
    if let Some(Err(e)) = queue {
        return Err(e);
    }
    match answers.inspection {
        None => Ok(ApAction::Inspect(Z9_CRYPT_DEV_PATH.to_owned())),
        Some(inspection) => match DevUpdate::new(
            Z9_CRYPT_DEV_PATH,
            Z9_CRYPT_DEV_PATH,
            inspection,
        ) {
            Err(e) => Err(e),
            Ok(update) => {
                let done = SpecUpdate { dev: Some(update), pci: Vec::new() };
                assert(done@ =~= SpecUpdateView {
                    dev: Some(
                        DevUpdateView {
                            info: update@.info,
                            final_path: Some(Z9_CRYPT_DEV_PATH@),
                        },
                    ),
                    pci: Seq::empty(),
                });
                Ok(ApAction::Done(done))
            },
        },
    }
}

/// How many seconds announced devices are waited for at present, where it was
/// `timeout` before the work on the adjunct processor device began.
pub open spec fn timeout_in_force(timeout: nat, answers: ApAnswers) -> nat {
    if answers.extended {
        timeout + AP_RESCAN_SECONDS as nat
    } else {
        timeout
    }
}

/// What was done, after the action: the timeout is extended or restored.
pub open spec fn timeout_set(
    answers: ApAnswers,
    action: ApAction<Seq<char>, Seq<char>, SpecUpdateView>,
) -> ApAnswers {
    match action {
        ApAction::ExtendTimeout(_) => ApAnswers { extended: true, ..answers },
        ApAction::RestoreTimeout(_) => ApAnswers { extended: false, ..answers },
        _ => answers,
    }
}

/// Queues are waited for with five seconds more than the hotplug timeout, after
/// the rescan time was set and the bus was scanned. When the work ends, with the
/// device or with an error, the timeout is what it was.
pub proof fn ap_timeout_is_temporary(
    timeout: nat,
    device: Device,
    answers: ApAnswers,
)
    ensures
        match ap_next(true, device, answers) {
            Ok(ApAction::Wait(_)) => {
                &&& answers.paced && answers.scanned
                &&& timeout_in_force(timeout, answers) == timeout + 5
            },
            Ok(ApAction::ExtendTimeout(seconds)) => {
                let after = timeout_set(answers, ApAction::ExtendTimeout(seconds));
                timeout_in_force(timeout, after) == timeout_in_force(timeout, answers) + seconds
            },
            Ok(ApAction::RestoreTimeout(seconds)) => {
                let after = timeout_set(answers, ApAction::RestoreTimeout(seconds));
                timeout_in_force(timeout, after) == timeout_in_force(timeout, answers) - seconds
            },
            Ok(ApAction::Inspect(_)) => timeout_in_force(timeout, answers) == timeout,
            Ok(ApAction::Done(_)) => timeout_in_force(timeout, answers) == timeout,
            Ok(_) => true,
            Err(_) => timeout_in_force(timeout, answers) == timeout,
        },
{
}

/// An adjunct processor device is ready only after the rescan time was set, the
/// bus was scanned and a queue was announced for every option, and with the
/// hotplug timeout as it was. It brings the cryptographic device,
/// under its own path, and no PCI addresses.
pub proof fn ap_device_is_ready(
    supported: bool,
    device: Device,
    answers: ApAnswers,
    update: SpecUpdateView,
)
    requires
        ap_next(supported, device, answers) == Ok::<
            ApAction<Seq<char>, Seq<char>, SpecUpdateView>,
            DeviceErrorView,
        >(ApAction::Done(update)),
    ensures
        supported,
        answers.paced,
        answers.scanned,
        !answers.extended,
        answers.announced >= device.options@.len(),
        update.dev is Some,
        (update.dev->0).final_path == Some(Z9_CRYPT_DEV_PATH@),
        update.pci.len() == 0,
{
}

/// What handles a device.
#[derive(Clone, Copy, Debug, PartialEq, Eq, Structural)]
pub enum DeviceHandler {
    VirtioBlk,
    VirtioBlkCcw,
    VirtioMmioBlk,
    VirtioNvdimm,
    VirtioScsi,
    VfioPci,
    VfioAp,
}

/// The handler for a type of device.
pub open spec fn handler_for(type_: Seq<char>) -> Option<DeviceHandler> {
    if type_ == DRIVER_BLK_PCI_TYPE@ {
        Some(DeviceHandler::VirtioBlk)
    } else if type_ == DRIVER_BLK_CCW_TYPE@ {
        Some(DeviceHandler::VirtioBlkCcw)
    } else if type_ == DRIVER_BLK_MMIO_TYPE@ {
        Some(DeviceHandler::VirtioMmioBlk)
    } else if type_ == DRIVER_NVDIMM_TYPE@ {
        Some(DeviceHandler::VirtioNvdimm)
    } else if type_ == DRIVER_SCSI_TYPE@ {
        Some(DeviceHandler::VirtioScsi)
    } else if type_ == DRIVER_VFIO_PCI_GK_TYPE@ || type_ == DRIVER_VFIO_PCI_TYPE@ {
        Some(DeviceHandler::VfioPci)
    } else if type_ == DRIVER_VFIO_AP_TYPE@ {
        Some(DeviceHandler::VfioAp)
    } else {
        None
    }
}

/// The handler for a device. A device must have a type that there is a handler
/// for, an identifier or a path in the guest, and a path in the container.
pub open spec fn device_handler(device: Device) -> Result<DeviceHandler, DeviceErrorView> {
    if device.type_@.len() == 0 {
        Err(Fault::NoType)
    } else if device.id@.len() == 0 && device.vm_path@.len() == 0 {
        Err(Fault::NoIdOrPath)
    } else if device.container_path@.len() == 0 {
        Err(Fault::NoContainerPath)
    } else {
        match handler_for(device.type_@) {
            Some(handler) => Ok(handler),
            None => Err(Fault::UnknownType { name: device.type_@ }),
        }
    }
}

/// Checks a device, and says what handles it.
pub fn add_device(device: &Device) -> (r: Result<DeviceHandler, DeviceError>)
    ensures
        match r {
            Ok(handler) => device_handler(*device) == Ok::<DeviceHandler, DeviceErrorView>(handler),
            Err(e) => device_handler(*device) == Err::<DeviceHandler, DeviceErrorView>(e@),
        },
{
    let type_ = device.type_.as_str();
    if type_.is_empty() {
        return Err(Fault::NoType);
    }
    if device.id.as_str().is_empty() && device.vm_path.as_str().is_empty() {
        return Err(Fault::NoIdOrPath);
    }
    if device.container_path.as_str().is_empty() {
        return Err(Fault::NoContainerPath);
    }
    if same_text(type_, DRIVER_BLK_PCI_TYPE) {
        Ok(DeviceHandler::VirtioBlk)
    } else if same_text(type_, DRIVER_BLK_CCW_TYPE) {
        Ok(DeviceHandler::VirtioBlkCcw)
    } else if same_text(type_, DRIVER_BLK_MMIO_TYPE) {
        Ok(DeviceHandler::VirtioMmioBlk)
    } else if same_text(type_, DRIVER_NVDIMM_TYPE) {
        Ok(DeviceHandler::VirtioNvdimm)
    } else if same_text(type_, DRIVER_SCSI_TYPE) {
        Ok(DeviceHandler::VirtioScsi)
    } else if same_text(type_, DRIVER_VFIO_PCI_GK_TYPE) || same_text(type_, DRIVER_VFIO_PCI_TYPE) {
        Ok(DeviceHandler::VfioPci)
    } else if same_text(type_, DRIVER_VFIO_AP_TYPE) {
        Ok(DeviceHandler::VfioAp)
    } else {
        Err(Fault::UnknownType { name: device.type_.clone() })
    }
}

} // verus!
