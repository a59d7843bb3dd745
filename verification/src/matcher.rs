//! The kernel events that announce devices of each kind.
use crate::ap;
use crate::error::DeviceError;
use crate::linux_abi::{
    create_pci_root_bus_path, AP_ROOT_BUS_PATH, PCI_ROOT_BUS_PATH, U_EVENT_ACTION_ADD,
};
use crate::numeral::{decimal, decimal_reads_back, decimal_text, hex, hex_is_digits, hex_text};
use crate::text::{begins_with, same_text};
use crate::uevent::{Uevent, UeventMatcher};
use vstd::prelude::*;

verus! {

/// Represents an IOMMU group.
#[derive(Clone, Copy, Debug, PartialEq, Eq, Structural)]
pub struct IommuGroup(pub u32);

impl IommuGroup {
    /// The number of the group, in base ten.
    pub open spec fn text(self) -> Seq<char> {
        decimal(self.0 as nat)
    }

    /// The number of the group, in base ten.
    pub fn to_string(&self) -> (r: String)
        ensures
            r@ == self.text(),
    {
        decimal_text(self.0)
    }
}

/// Waits for the PCI device at one path.
#[derive(Debug)]
pub struct PciMatcher {
    pub devpath: String,
}

impl PciMatcher {
    /// Waits for the device at `relpath` below the PCI host bridge.
    pub fn new(relpath: &str) -> (r: Result<PciMatcher, DeviceError>)
        ensures
            r is Ok,
            r->Ok_0.devpath@ == PCI_ROOT_BUS_PATH@ + relpath@,
    {
        let mut devpath = create_pci_root_bus_path();
        devpath.append(relpath);
        Ok(PciMatcher { devpath })
    }
}

impl UeventMatcher for PciMatcher {
    open spec fn accepts(&self, uev: Uevent) -> bool {
        uev.devpath@ == self.devpath@
    }

    fn is_match(&self, uev: &Uevent) -> (r: bool) {
        uev.devpath == self.devpath
    }
}

/// Waits for the network interface of the PCI device at one path.
#[derive(Debug)]
pub struct NetPciMatcher {
    pub devpath: String,
}

impl NetPciMatcher {
    /// Waits for the interface of the device at `relpath` below the PCI host
    /// bridge.
    pub fn new(relpath: &str) -> (r: NetPciMatcher)
        ensures
            r.devpath@ == PCI_ROOT_BUS_PATH@ + relpath@,
    {
        let mut devpath = create_pci_root_bus_path();
        devpath.append(relpath);
        NetPciMatcher { devpath }
    }
}

impl UeventMatcher for NetPciMatcher {
    open spec fn accepts(&self, uev: Uevent) -> bool {
        &&& self.devpath@.is_prefix_of(uev.devpath@)
        &&& uev.subsystem@ == "net"@
        &&& uev.interface@.len() > 0
        &&& uev.action@ == "add"@
    }

    fn is_match(&self, uev: &Uevent) -> (r: bool) {
        begins_with(uev.devpath.as_str(), self.devpath.as_str()) && same_text(
            uev.subsystem.as_str(),
            "net",
        ) && !uev.interface.as_str().is_empty() && same_text(uev.action.as_str(), "add")
    }
}

/// Waits for the device node of one IOMMU group.
#[derive(Debug)]
pub struct VfioMatcher {
    pub syspath: String,
}

impl VfioMatcher {
    /// Waits for the device node of the group.
    pub fn new(grp: IommuGroup) -> (r: VfioMatcher)
        ensures
            r.syspath@ == "/devices/virtual/vfio/"@ + grp.text(),
    {
        let mut syspath = "/devices/virtual/vfio/".to_owned();
        let number = grp.to_string();
        syspath.append(number.as_str());
        VfioMatcher { syspath }
    }
}

impl UeventMatcher for VfioMatcher {
    open spec fn accepts(&self, uev: Uevent) -> bool {
        uev.devpath@ == self.syspath@
    }

    fn is_match(&self, uev: &Uevent) -> (r: bool) {
        uev.devpath == self.syspath
    }
}

/// Waits for one adjunct processor queue.
#[derive(Debug)]
pub struct ApMatcher {
    pub syspath: String,
}

/// Where sysfs shows the adjunct processor queue.
pub open spec fn ap_syspath(address: ap::Address) -> Seq<char> {
    AP_ROOT_BUS_PATH@ + "/card"@ + hex(address.adapter_id as nat, 2) + "/"@ + address.text()
}

impl ApMatcher {
    /// Waits for the queue with the address.
    pub fn new(address: ap::Address) -> (r: ApMatcher)
        ensures
            r.syspath@ == ap_syspath(address),
    {
        let mut syspath = AP_ROOT_BUS_PATH.to_owned();
        syspath.append("/card");
        let card = hex_text(address.adapter_id as u32, 2);
        syspath.append(card.as_str());
        syspath.append("/");
        let queue = address.to_string();
        syspath.append(queue.as_str());
        ApMatcher { syspath }
    }
}

impl UeventMatcher for ApMatcher {
    open spec fn accepts(&self, uev: Uevent) -> bool {
        uev.action@ == U_EVENT_ACTION_ADD@ && uev.devpath@ == self.syspath@
    }

    fn is_match(&self, uev: &Uevent) -> (r: bool) {
        same_text(uev.action.as_str(), U_EVENT_ACTION_ADD) && uev.devpath == self.syspath
    }
}

/// An event that announces the PCI device at one path announces none at
/// another path.
pub proof fn pci_devices_apart(a: PciMatcher, b: PciMatcher, uev: Uevent)
    requires
        a.accepts(uev),
        b.accepts(uev),
    ensures
        a.devpath@ == b.devpath@,
{
}

/// An event that announces the network interfaces of two PCI devices is one of
/// devices of which one lies below the other.
pub proof fn net_interfaces_apart(a: NetPciMatcher, b: NetPciMatcher, uev: Uevent)
    requires
        a.accepts(uev),
        b.accepts(uev),
    ensures
        a.devpath@.is_prefix_of(b.devpath@) || b.devpath@.is_prefix_of(a.devpath@),
{
    let x = a.devpath@;
    let y = b.devpath@;
    assert forall|i: int| 0 <= i < x.len() && i < y.len() implies x[i] == y[i] by {
        assert(x[i] == uev.devpath@.subrange(0, x.len() as int)[i]);
        assert(y[i] == uev.devpath@.subrange(0, y.len() as int)[i]);
    }
    if x.len() <= y.len() {
        assert(x =~= y.subrange(0, x.len() as int));
    } else {
        assert(y =~= x.subrange(0, y.len() as int));
    }
}

/// An event that announces the device node of one IOMMU group announces that
/// of no other.
pub proof fn vfio_groups_apart(g: IommuGroup, h: IommuGroup, a: VfioMatcher, b: VfioMatcher, uev: Uevent)
    requires
        a.syspath@ == "/devices/virtual/vfio/"@ + g.text(),
        b.syspath@ == "/devices/virtual/vfio/"@ + h.text(),
        a.accepts(uev),
        b.accepts(uev),
    ensures
        g == h,
{
    let n = "/devices/virtual/vfio/"@.len();
    assert(a.syspath@.skip(n as int) =~= g.text());
    assert(b.syspath@.skip(n as int) =~= h.text());
    decimal_reads_back(g.0 as nat);
    decimal_reads_back(h.0 as nat);
}

/// An event that announces one adjunct processor queue announces no other.
pub proof fn ap_queues_apart(g: ap::Address, h: ap::Address, a: ApMatcher, b: ApMatcher, uev: Uevent)
    requires
        a.syspath@ == ap_syspath(g),
        b.syspath@ == ap_syspath(h),
        a.accepts(uev),
        b.accepts(uev),
    ensures
        g == h,
{
    hex_is_digits(g.adapter_id as nat, 2);
    hex_is_digits(h.adapter_id as nat, 2);
    let n = AP_ROOT_BUS_PATH@.len() + "/card"@.len() + 2 + "/"@.len();
    assert(ap_syspath(g).skip(n as int) =~= g.text());
    assert(ap_syspath(h).skip(n as int) =~= h.text());
    ap::address_reads_back(g);
    ap::address_reads_back(h);
}

} // verus!
