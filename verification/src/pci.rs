//! PCI addresses and paths.
use crate::keymap::{Key, KeyMap};
use crate::numeral::{
    bounded_value, hex, hex_is_digits, hex_numeral_reads_back, hex_room, hex_text, parse_bounded,
    parse_signed_bounded, signed_value,
};
use crate::text::{chars_of, join, join_then_split, split, split_text};
use vstd::prelude::*;

verus! {

/// The highest slot number: the PCI standard reserves five bits for it.
pub const SLOT_MAX: u8 = 31;

/// The highest function number: the PCI standard reserves three bits for it.
pub const FUNCTION_MAX: u8 = 7;

/// Why a PCI slot, address or path was not accepted.
#[derive(Clone, Copy, Debug, PartialEq, Eq, Structural)]
pub enum PciError {
    /// The slot number is negative or above `SLOT_MAX`.
    SlotRange,
    /// The function number is negative or above `FUNCTION_MAX`.
    FunctionRange,
    /// Not of the form `SS` or `SS.F`.
    SlotFnFormat,
    /// Not of the form `DDDD:BB:SS.F`.
    AddressFormat,
    /// A part that should be a number in base sixteen is none, or is too large.
    Number,
    /// A path must have at least one element.
    EmptyPath,
}

/// A PCI function's slot (a.k.a. device) and function numbers, giving its
/// location on a single logical bus. The slot stands in the upper five bits,
/// the function in the lower three.
#[derive(Clone, Copy, Debug, PartialEq, Eq, Hash, Structural)]
pub struct SlotFn(pub u8);

/// The location of a PCI function within a system.
#[derive(Clone, Copy, Debug, PartialEq, Eq, Hash, Structural)]
pub struct Address {
    pub domain: u16,
    pub bus: u8,
    pub slotfn: SlotFn,
}

/// The slots of the bridges to pass, from the root bus down, and then the slot
/// of the device itself. A path is never empty.
#[derive(Debug)]
pub struct Path {
    slots: Vec<SlotFn>,
}

/// The slot and function with the given numbers, where they are in range.
pub open spec fn slotfn_of(slot: int, function: int) -> Result<SlotFn, PciError> {
    if !(0 <= slot <= SLOT_MAX) {
        Err(PciError::SlotRange)
    } else if !(0 <= function <= FUNCTION_MAX) {
        Err(PciError::FunctionRange)
    } else {
        Ok(SlotFn((slot * 8 + function) as u8))
    }
}

/// What the text `SS` or `SS.F` denotes; the function is zero where it is
/// left out.
pub open spec fn slotfn_denoted(s: Seq<char>) -> Result<SlotFn, PciError> {
    let parts = split(s, '.');
    if parts.len() > 2 {
        Err(PciError::SlotFnFormat)
    } else {
        match signed_value(parts[0], 16) {
            None => Err(PciError::Number),
            Some(slot) => if parts.len() == 1 {
                slotfn_of(slot, 0)
            } else {
                match signed_value(parts[1], 16) {
                    None => Err(PciError::Number),
                    Some(function) => slotfn_of(slot, function),
                }
            },
        }
    }
}

/// What the text `DDDD:BB:SS.F` denotes.
pub open spec fn address_denoted(s: Seq<char>) -> Result<Address, PciError> {
    let parts = split(s, ':');
    if parts.len() != 3 {
        Err(PciError::AddressFormat)
    } else {
        match (bounded_value(parts[0], 16, 0xffff), bounded_value(parts[1], 16, 0xff)) {
            (Some(domain), Some(bus)) => match slotfn_denoted(parts[2]) {
                Ok(slotfn) => Ok(Address { domain: domain as u16, bus: bus as u8, slotfn }),
                Err(e) => Err(e),
            },
            _ => Err(PciError::Number),
        }
    }
}

/// What the texts denote, one after the other; the first that denotes nothing
/// decides the error.
pub open spec fn slots_denoted(parts: Seq<Seq<char>>) -> Result<Seq<SlotFn>, PciError>
    decreases parts.len(),
{
    if parts.len() == 0 {
        Ok(Seq::empty())
    } else {
        match slots_denoted(parts.drop_last()) {
            Err(e) => Err(e),
            Ok(front) => match slotfn_denoted(parts.last()) {
                Err(e) => Err(e),
                Ok(slot) => Ok(front.push(slot)),
            },
        }
    }
}

/// What a text of slots, with a slash between each two, denotes.
pub open spec fn path_denoted(s: Seq<char>) -> Result<Seq<SlotFn>, PciError> {
    slots_denoted(split(s, '/'))
}

impl SlotFn {
    /// The slot number.
    pub open spec fn slot_number(self) -> nat {
        (self.0 / 8) as nat
    }

    /// The function number.
    pub open spec fn function_number(self) -> nat {
        (self.0 % 8) as nat
    }

    /// The text `SS.F`.
    pub open spec fn text(self) -> Seq<char> {
        hex(self.slot_number(), 2) + seq!['.'] + hex(self.function_number(), 1)
    }

    /// The slot and function with the given numbers.
    pub fn new(slot: i64, function: i64) -> (r: Result<SlotFn, PciError>)
        ensures
            r == slotfn_of(slot as int, function as int),
    {
        if slot < 0 || slot > SLOT_MAX as i64 {
            Err(PciError::SlotRange)
        } else if function < 0 || function > FUNCTION_MAX as i64 {
            Err(PciError::FunctionRange)
        } else {
            Ok(SlotFn((slot * 8 + function) as u8))
        }
    }

    /// The slot number.
    pub fn slot(&self) -> (r: u8)
        ensures
            r == self.slot_number(),
            r <= SLOT_MAX,
    {
        self.0 / 8
    }

    /// The function number.
    pub fn function(&self) -> (r: u8)
        ensures
            r == self.function_number(),
            r <= FUNCTION_MAX,
    {
        self.0 % 8
    }

    /// Reads `SS` or `SS.F`.
    pub fn from_str(s: &str) -> (r: Result<SlotFn, PciError>)
        ensures
            r == slotfn_denoted(s@),
    {
        let parts = split_text(s, '.');
        let ghost views = parts@.map_values(|p: String| p@);
        assert(views == split(s@, '.'));
        if parts.len() > 2 {
            return Err(PciError::SlotFnFormat);
        }
        assert(views[0] == parts@[0]@);
        let slot_chars = chars_of(parts[0].as_str());
        match parse_signed_bounded(slot_chars.as_slice(), 16, SLOT_MAX as u32) {
            None => Err(PciError::Number),
            Some(slot) => {
                let function: Option<u32> = if parts.len() == 1 {
                    Some(0)
                } else {
                    assert(views[1] == parts@[1]@);
                    let function_chars = chars_of(parts[1].as_str());
                    match parse_signed_bounded(
                        function_chars.as_slice(),
                        16,
                        FUNCTION_MAX as u32,
                    ) {
                        None => {
                            return Err(PciError::Number);
                        },
                        Some(function) => function,
                    }
                };
                match (slot, function) {
                    (None, _) => Err(PciError::SlotRange),
                    (_, None) => Err(PciError::FunctionRange),
                    (Some(slot), Some(function)) => SlotFn::new(slot as i64, function as i64),
                }
            },
        }
    }

    /// The text `SS.F`.
    pub fn to_string(&self) -> (r: String)
        ensures
            r@ == self.text(),
    {
        let mut r = hex_text(self.slot() as u32, 2);
        r.push('.');
        let function = hex_text(self.function() as u32, 1);
        r.append(function.as_str());
        assert(r@ =~= self.text());
        r
    }
}

impl Address {
    /// The text `DDDD:BB:SS.F`.
    pub open spec fn text(self) -> Seq<char> {
        hex(self.domain as nat, 4) + seq![':'] + hex(self.bus as nat, 2) + seq![':']
            + self.slotfn.text()
    }

    /// The address with the given parts.
    pub fn new(domain: u16, bus: u8, slotfn: SlotFn) -> (r: Address)
        ensures
            r == (Address { domain, bus, slotfn }),
    {
        Address { domain, bus, slotfn }
    }

    /// Reads `DDDD:BB:SS.F`.
    pub fn from_str(s: &str) -> (r: Result<Address, PciError>)
        ensures
            r == address_denoted(s@),
    {
        let parts = split_text(s, ':');
        let ghost views = parts@.map_values(|p: String| p@);
        assert(views == split(s@, ':'));
        if parts.len() != 3 {
            return Err(PciError::AddressFormat);
        }
        assert(views[0] == parts@[0]@);
        assert(views[1] == parts@[1]@);
        assert(views[2] == parts@[2]@);
        let domain_chars = chars_of(parts[0].as_str());
        let bus_chars = chars_of(parts[1].as_str());
        let domain = parse_bounded(domain_chars.as_slice(), 16, 0xffff);
        let bus = parse_bounded(bus_chars.as_slice(), 16, 0xff);
        match (domain, bus) {
            (Some(domain), Some(bus)) => match SlotFn::from_str(parts[2].as_str()) {
                Ok(slotfn) => Ok(Address { domain: domain as u16, bus: bus as u8, slotfn }),
                Err(e) => Err(e),
            },
            _ => Err(PciError::Number),
        }
    }

    /// The text `DDDD:BB:SS.F`.
    pub fn to_string(&self) -> (r: String)
        ensures
            r@ == self.text(),
    {
        let mut r = hex_text(self.domain as u32, 4);
        r.push(':');
        let bus = hex_text(self.bus as u32, 2);
        r.append(bus.as_str());
        r.push(':');
        let slotfn = self.slotfn.to_string();
        r.append(slotfn.as_str());
        assert(r@ =~= self.text());
        r
    }
}

impl View for Address {
    type V = Address;

    open spec fn view(&self) -> Address {
        *self
    }
}

impl Key for Address {
    fn same(&self, other: &Self) -> (r: bool) {
        *self == *other
    }
}

/// PCI addresses of the host, each with its address in the guest.
pub type PciMap = KeyMap<Address, Address>;

impl View for Path {
    type V = Seq<SlotFn>;

    closed spec fn view(&self) -> Seq<SlotFn> {
        self.slots@
    }
}

impl Path {
    #[verifier::type_invariant]
    spec fn not_empty(self) -> bool {
        self.slots@.len() >= 1
    }

    /// A path through the given slots.
    pub fn new(slots: Vec<SlotFn>) -> (r: Result<Path, PciError>)
        ensures
            slots@.len() == 0 <==> r == Err::<Path, PciError>(PciError::EmptyPath),
            slots@.len() > 0 ==> r is Ok && r->Ok_0@ == slots@,
    {
        if slots.len() == 0 {
            Err(PciError::EmptyPath)
        } else {
            Ok(Path { slots })
        }
    }

    /// How many slots the path has; at least one.
    pub fn len(&self) -> (r: usize)
        ensures
            r == self@.len(),
            r >= 1,
    {
        proof {
            use_type_invariant(self);
        }
        self.slots.len()
    }

    /// The slot at place `i`.
    pub fn get(&self, i: usize) -> (r: SlotFn)
        requires
            i < self@.len(),
        ensures
            r == self@[i as int],
    {
        self.slots[i]
    }

    /// Reads a text of slots with a slash between each two.
    pub fn from_str(s: &str) -> (r: Result<Path, PciError>)
        ensures
            match r {
                Ok(path) => path_denoted(s@) == Ok::<Seq<SlotFn>, PciError>(path@),
                Err(e) => path_denoted(s@) == Err::<Seq<SlotFn>, PciError>(e),
            },
    {
        let parts = split_text(s, '/');
        let ghost views = parts@.map_values(|p: String| p@);
        let mut slots: Vec<SlotFn> = Vec::new();
        assert(views.take(0) =~= Seq::empty());
        for i in 0..parts.len()
            invariant
                views == parts@.map_values(|p: String| p@),
                views == split(s@, '/'),
                slots@.len() == i,
                slots_denoted(views.take(i as int)) == Ok::<Seq<SlotFn>, PciError>(slots@),
        {
            proof {
                assert(views.take(i + 1).drop_last() =~= views.take(i as int));
                assert(views.take(i + 1).last() == parts@[i as int]@);
            }
            match SlotFn::from_str(parts[i].as_str()) {
                Ok(slot) => {
                    slots.push(slot);
                },
                Err(e) => {
                    proof {
                        lemma_first_error_stays(views, i + 1);
                    }
                    return Err(e);
                },
            }
        }
        assert(views.take(views.len() as int) =~= views);
        Path::new(slots)
    }
}

proof fn lemma_first_error_stays(parts: Seq<Seq<char>>, k: int)
    requires
        0 <= k <= parts.len(),
        slots_denoted(parts.take(k)) is Err,
    ensures
        slots_denoted(parts) == slots_denoted(parts.take(k)),
    decreases parts.len() - k,
{
    if k == parts.len() {
        assert(parts.take(k) =~= parts);
    } else {
        assert(parts.take(k + 1).drop_last() =~= parts.take(k));
        lemma_first_error_stays(parts, k + 1);
    }
}

/// Every slot number and function number is in range, and the two together
/// make up the slot and function.
pub proof fn slotfn_parts(sf: SlotFn)
    ensures
        slotfn_of(sf.slot_number() as int, sf.function_number() as int) == Ok::<
            SlotFn,
            PciError,
        >(sf),
{
}

proof fn lemma_hex_rooms()
    ensures
        hex_room(1) == 16,
        hex_room(2) == 256,
        hex_room(4) == 65536,
{
    reveal_with_fuel(hex_room, 5);
}

/// Reading the text of a slot and function gives it back, and it can stand in
/// an address, a path and a list with commas.
pub proof fn slotfn_reads_back(sf: SlotFn)
    ensures
        slotfn_denoted(sf.text()) == Ok::<SlotFn, PciError>(sf),
        !sf.text().contains(':'),
        !sf.text().contains('/'),
        !sf.text().contains(','),
{
    let slot = hex(sf.slot_number(), 2);
    let function = hex(sf.function_number(), 1);
    let parts = seq![slot, function];
    lemma_hex_rooms();
    hex_is_digits(sf.slot_number(), 2);
    hex_is_digits(sf.function_number(), 1);
    hex_numeral_reads_back(sf.slot_number(), 2);
    hex_numeral_reads_back(sf.function_number(), 1);
    assert(!parts[0].contains('.'));
    assert(!parts[1].contains('.'));
    join_then_split(parts, '.');
    assert(parts.drop_last() =~= seq![slot]);
    assert(join(seq![slot], seq!['.']) == slot);
    assert(join(parts, seq!['.']) =~= sf.text());
    slotfn_parts(sf);
}

/// Reading the text of an address gives it back, and it can stand in a path and
/// in a list with commas.
pub proof fn address_reads_back(addr: Address)
    ensures
        address_denoted(addr.text()) == Ok::<Address, PciError>(addr),
        !addr.text().contains('/'),
        !addr.text().contains(','),
{
    let domain = hex(addr.domain as nat, 4);
    let bus = hex(addr.bus as nat, 2);
    let parts = seq![domain, bus, addr.slotfn.text()];
    lemma_hex_rooms();
    hex_is_digits(addr.domain as nat, 4);
    hex_is_digits(addr.bus as nat, 2);
    hex_numeral_reads_back(addr.domain as nat, 4);
    hex_numeral_reads_back(addr.bus as nat, 2);
    slotfn_reads_back(addr.slotfn);
    assert(!parts[0].contains(':'));
    assert(!parts[1].contains(':'));
    join_then_split(parts, ':');
    assert(parts.drop_last() =~= seq![domain, bus]);
    assert(seq![domain, bus].drop_last() =~= seq![domain]);
    assert(join(seq![domain], seq![':']) == domain);
    assert(join(seq![domain, bus], seq![':']) == domain + seq![':'] + bus);
    assert(join(parts, seq![':']) =~= addr.text());
}

/// Two addresses with the same text are the same address.
pub proof fn address_text_is_unique(a: Address, b: Address)
    requires
        a.text() == b.text(),
    ensures
        a == b,
{
    address_reads_back(a);
    address_reads_back(b);
}

} // verus!
