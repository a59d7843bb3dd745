//! Addresses of adjunct processor queues.
use crate::numeral::{
    bounded_value, hex, hex_is_digits, hex_numeral_reads_back, hex_room, hex_text, parse_bounded,
};
use crate::text::{chars_of, join, join_then_split, split, split_text};
use vstd::prelude::*;

verus! {

/// Why the address of a queue was not accepted.
#[derive(Clone, Copy, Debug, PartialEq, Eq, Structural)]
pub enum ApError {
    /// Not of the form `<xx>.<xxxx>`.
    Format,
    /// The adapter is no number in base sixteen of at most eight bits.
    Adapter,
    /// The domain is no number in base sixteen of at most sixteen bits.
    Domain,
}

/// The address of an adjunct processor queue: its adapter and its domain.
#[derive(Clone, Copy, Debug, PartialEq, Eq, Structural)]
pub struct Address {
    pub adapter_id: u8,
    pub adapter_domain: u16,
}

/// What the text `<xx>.<xxxx>` denotes.
pub open spec fn address_denoted(s: Seq<char>) -> Result<Address, ApError> {
    let parts = split(s, '.');
    if parts.len() != 2 {
        Err(ApError::Format)
    } else {
        match (bounded_value(parts[0], 16, 0xff), bounded_value(parts[1], 16, 0xffff)) {
            (None, _) => Err(ApError::Adapter),
            (_, None) => Err(ApError::Domain),
            (Some(adapter), Some(domain)) => Ok(
                Address { adapter_id: adapter as u8, adapter_domain: domain as u16 },
            ),
        }
    }
}

impl Address {
    /// The text `<xx>.<xxxx>`.
    pub open spec fn text(self) -> Seq<char> {
        hex(self.adapter_id as nat, 2) + seq!['.'] + hex(self.adapter_domain as nat, 4)
    }

    /// The address with the given parts.
    pub fn new(adapter_id: u8, adapter_domain: u16) -> (r: Address)
        ensures
            r == (Address { adapter_id, adapter_domain }),
    {
        Address { adapter_id, adapter_domain }
    }

    /// Reads `<xx>.<xxxx>`.
    pub fn from_str(s: &str) -> (r: Result<Address, ApError>)
        ensures
            r == address_denoted(s@),
    {
        let parts = split_text(s, '.');
        let ghost views = parts@.map_values(|p: String| p@);
        assert(views == split(s@, '.'));
        if parts.len() != 2 {
            return Err(ApError::Format);
        }
        assert(views[0] == parts@[0]@);
        assert(views[1] == parts@[1]@);
        let adapter_chars = chars_of(parts[0].as_str());
        let domain_chars = chars_of(parts[1].as_str());
        let adapter = parse_bounded(adapter_chars.as_slice(), 16, 0xff);
        let domain = parse_bounded(domain_chars.as_slice(), 16, 0xffff);
        match (adapter, domain) {
            (None, _) => Err(ApError::Adapter),
            (_, None) => Err(ApError::Domain),
            (Some(adapter), Some(domain)) => Ok(
                Address { adapter_id: adapter as u8, adapter_domain: domain as u16 },
            ),
        }
    }

    /// The text `<xx>.<xxxx>`.
    pub fn to_string(&self) -> (r: String)
        ensures
            r@ == self.text(),
    {
        let mut r = hex_text(self.adapter_id as u32, 2);
        r.push('.');
        let domain = hex_text(self.adapter_domain as u32, 4);
        r.append(domain.as_str());
        assert(r@ =~= self.text());
        r
    }
}

/// Reading the text of an address gives it back.
pub proof fn address_reads_back(addr: Address)
    ensures
        address_denoted(addr.text()) == Ok::<Address, ApError>(addr),
{
    let adapter = hex(addr.adapter_id as nat, 2);
    let domain = hex(addr.adapter_domain as nat, 4);
    let parts = seq![adapter, domain];
    reveal_with_fuel(hex_room, 5);
    hex_is_digits(addr.adapter_id as nat, 2);
    hex_is_digits(addr.adapter_domain as nat, 4);
    hex_numeral_reads_back(addr.adapter_id as nat, 2);
    hex_numeral_reads_back(addr.adapter_domain as nat, 4);
    assert(!parts[0].contains('.'));
    assert(!parts[1].contains('.'));
    join_then_split(parts, '.');
    assert(parts.drop_last() =~= seq![adapter]);
    assert(join(seq![adapter], seq!['.']) == adapter);
    assert(join(parts, seq!['.']) =~= addr.text());
}

} // verus!
