//! What texts, numbers and addresses look like.
use crate::ap;
use crate::ap::ApError;
use crate::numeral::{
    bounded_value, decimal, digit_char, digit_value, digits_value, hex, hex_is_digits,
    signed_value, unsigned_value,
};
use crate::pci::{
    address_denoted, path_denoted, slotfn_denoted, slotfn_of, slots_denoted, Address, PciError,
    SlotFn,
};
use crate::text::{join, join_then_split, lead, lead_is_longest, replace_words, split};
use vstd::prelude::*;

verus! {

/// Texts are joined in order, with the separator between each two of them and
/// nowhere else.
pub proof fn joined_in_order(parts: Seq<Seq<char>>, last: Seq<char>, sep: Seq<char>)
    ensures
        join(Seq::empty(), sep) == Seq::<char>::empty(),
        parts.len() == 0 ==> join(parts.push(last), sep) == last,
        parts.len() > 0 ==> join(parts.push(last), sep) == join(parts, sep) + sep + last,
{
    assert(parts.push(last).drop_last() =~= parts);
}

/// A replacement goes through a text once, from the left. Where a word begins,
/// and no longer one does, what stands for it is put in, and the text behind the
/// word comes next. Where none begins, one character is kept.
pub proof fn replaced_from_the_left(
    s: Seq<char>,
    words: Seq<Seq<char>>,
    to: Seq<Seq<char>>,
    k: int,
)
    ensures
        replace_words(Seq::empty(), words, to) == Seq::<char>::empty(),
        ({
            &&& 0 <= k < words.len()
            &&& words[k].len() > 0
            &&& words[k].is_prefix_of(s)
            &&& forall|m: int|
                0 <= m < words.len() && (#[trigger] words[m]).is_prefix_of(s) ==> words[m].len()
                    <= words[k].len()
            &&& forall|m: int|
                0 <= m < words.len() && #[trigger] words[m] == words[k] ==> to[m] == to[k]
        }) ==> replace_words(s, words, to) == to[k] + replace_words(
            s.skip(words[k].len() as int),
            words,
            to,
        ),
        s.len() > 0 && (forall|m: int|
            0 <= m < words.len() && (#[trigger] words[m]).len() > 0 ==> !words[m].is_prefix_of(s))
            ==> replace_words(s, words, to) == seq![s[0]] + replace_words(s.skip(1), words, to),
{
    lead_is_longest(s, words);
    if 0 <= k < words.len() && words[k].len() > 0 && words[k].is_prefix_of(s) {
        let c = lead(s, words)->0;
        assert(lead(s, words) is Some);
        if words[c].len() == words[k].len() {
            assert(words[c] =~= words[k]);
        }
    }
}

/// The digits are `0` to `9` and then `a` to `f`, in either case.
pub proof fn digits_of_a_base(c: char, radix: nat, d: nat)
    requires
        radix <= 16,
    ensures
        digit_value(c, radix) == Some(d) <==> {
            &&& d < radix
            &&& c == "0123456789abcdef"@[d as int] || c == "0123456789ABCDEF"@[d as int]
        },
{
    reveal_strlit("0123456789abcdef");
    reveal_strlit("0123456789ABCDEF");
}

/// One more digit at the end of a number multiplies it by the base and adds the
/// digit.
pub proof fn digits_count_by_place(s: Seq<char>, c: char, radix: nat)
    ensures
        digits_value(Seq::empty(), radix) == Some(0nat),
        digits_value(s, radix) is Some && digit_value(c, radix) is Some ==> digits_value(
            s.push(c),
            radix,
        ) == Some(digits_value(s, radix)->0 * radix + digit_value(c, radix)->0),
        digits_value(s, radix) is None || digit_value(c, radix) is None ==> digits_value(
            s.push(c),
            radix,
        ) is None,
{
    assert(s.push(c).drop_last() =~= s);
}

/// A numeral is at least one digit, with or without a plus sign in front; a
/// signed one can have a minus sign instead.
pub proof fn numerals_have_digits(s: Seq<char>, radix: nat, max: nat)
    requires
        radix <= 16,
    ensures
        s.len() > 0 && digits_value(s, radix) is Some ==> unsigned_value(s, radix) == digits_value(
            s,
            radix,
        ),
        s.len() > 0 ==> unsigned_value(seq!['+'] + s, radix) == digits_value(s, radix),
        unsigned_value(Seq::empty(), radix) is None,
        unsigned_value(seq!['+'], radix) is None,
        digits_value(s, radix) is None && !(s.len() > 1 && s[0] == '+') ==> unsigned_value(
            s,
            radix,
        ) is None,
        bounded_value(s, radix, max) == (if unsigned_value(s, radix) is Some && unsigned_value(
            s,
            radix,
        )->0 <= max {
            unsigned_value(s, radix)
        } else {
            None
        }),
        !(s.len() > 0 && s[0] == '-') ==> signed_value(s, radix) == (match unsigned_value(s, radix) {
            Some(v) => Some(v as int),
            None => None,
        }),
        s.len() > 0 ==> signed_value(seq!['-'] + s, radix) == (match digits_value(s, radix) {
            Some(v) => Some(0 - v as int),
            None => None,
        }),
        signed_value(seq!['-'], radix) is None,
{
    assert((seq!['+'] + s).skip(1) =~= s);
    assert((seq!['-'] + s).skip(1) =~= s);
    assert(seq!['+'].skip(1) =~= Seq::<char>::empty());
    if s.len() > 0 && digits_value(s, radix) is Some {
        lemma_first_is_digit(s, radix);
    }
}

proof fn lemma_first_is_digit(s: Seq<char>, radix: nat)
    requires
        s.len() > 0,
        radix <= 16,
        digits_value(s, radix) is Some,
    ensures
        digit_value(s[0], radix) is Some,
        s[0] != '+' && s[0] != '-',
    decreases s.len(),
{
    if s.len() > 1 {
        lemma_first_is_digit(s.drop_last(), radix);
        assert(s.drop_last()[0] == s[0]);
    } else {
        assert(s.last() == s[0]);
    }
}

/// Numbers are written with small digits; in base ten without a zero in front.
pub proof fn numbers_are_written_plainly(n: nat, width: nat)
    ensures
        forall|i: int|
            0 <= i < hex(n, width).len() ==> "0123456789abcdef"@.contains(
                #[trigger] hex(n, width)[i],
            ),
        hex(n, width).len() == width,
        forall|i: int|
            0 <= i < decimal(n).len() ==> "0123456789"@.contains(#[trigger] decimal(n)[i]),
        decimal(n).len() > 0,
        n > 0 ==> decimal(n)[0] != '0',
        n == 0 ==> decimal(n) == seq!['0'],
{
    lemma_hex_digits(n, width);
    lemma_decimal_digits(n);
    hex_is_digits(n, width);
}

/// The last digit in base sixteen tells what is left of the number after a
/// division by sixteen, and the digits before it are those of the quotient.
pub proof fn hex_counts_by_place(n: nat, width: nat)
    ensures
        hex(n, 0) == Seq::<char>::empty(),
        hex(n, width + 1) == hex(n / 16, width).push("0123456789abcdef"@[(n % 16) as int]),
{
    reveal_strlit("0123456789abcdef");
    assert("0123456789abcdef"@[(n % 16) as int] == digit_char(n % 16));
}

proof fn lemma_hex_digits(n: nat, width: nat)
    ensures
        forall|i: int|
            0 <= i < hex(n, width).len() ==> "0123456789abcdef"@.contains(
                #[trigger] hex(n, width)[i],
            ),
    decreases width,
{
    reveal_strlit("0123456789abcdef");
    if width > 0 {
        lemma_hex_digits(n / 16, (width - 1) as nat);
        let d = (n % 16) as int;
        assert("0123456789abcdef"@[d] == digit_char(n % 16));
        let front = hex(n / 16, (width - 1) as nat);
        assert forall|i: int| 0 <= i < hex(n, width).len() implies "0123456789abcdef"@.contains(
            #[trigger] hex(n, width)[i],
        ) by {
            if i < front.len() {
                assert(hex(n, width)[i] == front[i]);
            }
        }
    }
}

proof fn lemma_decimal_digits(n: nat)
    ensures
        forall|i: int|
            0 <= i < decimal(n).len() ==> "0123456789"@.contains(#[trigger] decimal(n)[i]),
        decimal(n).len() > 0,
        n > 0 ==> decimal(n)[0] != '0',
        n == 0 ==> decimal(n) == seq!['0'],
    decreases n,
{
    reveal_strlit("0123456789");
    if n < 10 {
        assert("0123456789"@[n as int] == digit_char(n));
    } else {
        lemma_decimal_digits(n / 10);
        let d = (n % 10) as int;
        assert("0123456789"@[d] == digit_char(n % 10));
        let front = decimal(n / 10);
        assert forall|i: int| 0 <= i < decimal(n).len() implies "0123456789"@.contains(
            #[trigger] decimal(n)[i],
        ) by {
            if i < front.len() {
                assert(decimal(n)[i] == front[i]);
            }
        }
    }
}

/// There are 32 slots with eight functions each.
pub proof fn slots_have_ranges(slot: int, function: int)
    ensures
        slotfn_of(slot, function) is Ok <==> 0 <= slot < 32 && 0 <= function < 8,
        slotfn_of(slot, function) is Ok ==> (slotfn_of(slot, function)->Ok_0).0 == slot * 8
            + function,
        !(0 <= slot < 32) ==> slotfn_of(slot, function) == Err::<SlotFn, PciError>(
            PciError::SlotRange,
        ),
        0 <= slot < 32 && !(0 <= function < 8) ==> slotfn_of(slot, function) == Err::<
            SlotFn,
            PciError,
        >(PciError::FunctionRange),
{
}

proof fn lemma_one(a: Seq<char>, sep: char)
    requires
        !a.contains(sep),
    ensures
        split(a, sep) == seq![a],
{
    let parts = seq![a];
    assert(!parts[0].contains(sep));
    join_then_split(parts, sep);
    assert(join(parts, seq![sep]) == a);
}

proof fn lemma_two(a: Seq<char>, b: Seq<char>, sep: char)
    requires
        !a.contains(sep),
        !b.contains(sep),
    ensures
        split(a + seq![sep] + b, sep) == seq![a, b],
{
    let parts = seq![a, b];
    assert(!parts[0].contains(sep));
    assert(!parts[1].contains(sep));
    join_then_split(parts, sep);
    joined_in_order(seq![a], b, seq![sep]);
    assert(seq![a].push(b) =~= parts);
    assert(join(seq![a], seq![sep]) == a);
}

proof fn lemma_three(a: Seq<char>, b: Seq<char>, c: Seq<char>, sep: char)
    requires
        !a.contains(sep),
        !b.contains(sep),
        !c.contains(sep),
    ensures
        split(a + seq![sep] + b + seq![sep] + c, sep) == seq![a, b, c],
{
    let parts = seq![a, b, c];
    assert(!parts[0].contains(sep));
    assert(!parts[1].contains(sep));
    assert(!parts[2].contains(sep));
    join_then_split(parts, sep);
    joined_in_order(seq![a], b, seq![sep]);
    joined_in_order(seq![a, b], c, seq![sep]);
    assert(seq![a].push(b) =~= seq![a, b]);
    assert(seq![a, b].push(c) =~= parts);
    assert(join(seq![a], seq![sep]) == a);
}

/// A slot is written as its number in base sixteen, and a dot and the number of
/// the function where that is not zero or is to be named.
pub proof fn slot_texts(slot: Seq<char>, function: Seq<char>)
    requires
        !slot.contains('.'),
        !function.contains('.'),
    ensures
        slotfn_denoted(slot) == (match signed_value(slot, 16) {
            None => Err(PciError::Number),
            Some(s) => slotfn_of(s, 0),
        }),
        slotfn_denoted(slot + seq!['.'] + function) == (match (
            signed_value(slot, 16),
            signed_value(function, 16),
        ) {
            (Some(s), Some(f)) => slotfn_of(s, f),
            _ => Err(PciError::Number),
        }),
{
    lemma_one(slot, '.');
    lemma_two(slot, function, '.');
}

/// A text with more than one dot is no slot.
pub proof fn slots_have_one_dot(parts: Seq<Seq<char>>)
    requires
        parts.len() > 2,
        forall|i: int| 0 <= i < parts.len() ==> !(#[trigger] parts[i]).contains('.'),
    ensures
        slotfn_denoted(join(parts, seq!['.'])) == Err::<SlotFn, PciError>(PciError::SlotFnFormat),
{
    join_then_split(parts, '.');
}

/// An address is written as its domain, its bus and its slot, with colons between
/// them. The domain has sixteen bits and the bus eight.
pub proof fn address_texts(domain: Seq<char>, bus: Seq<char>, slot: Seq<char>)
    requires
        !domain.contains(':'),
        !bus.contains(':'),
        !slot.contains(':'),
    ensures
        ({
            let s = domain + seq![':'] + bus + seq![':'] + slot;
            let d = unsigned_value(domain, 16);
            let b = unsigned_value(bus, 16);
            &&& d is Some && d->0 <= 0xffff && b is Some && b->0 <= 0xff && slotfn_denoted(
                slot,
            ) is Ok ==> address_denoted(s) == Ok::<Address, PciError>(
                Address {
                    domain: d->0 as u16,
                    bus: b->0 as u8,
                    slotfn: slotfn_denoted(slot)->Ok_0,
                },
            )
            &&& d is None || d->0 > 0xffff || b is None || b->0 > 0xff ==> address_denoted(s)
                == Err::<Address, PciError>(PciError::Number)
            &&& d is Some && d->0 <= 0xffff && b is Some && b->0 <= 0xff && slotfn_denoted(
                slot,
            ) is Err ==> address_denoted(s) == Err::<Address, PciError>(
                slotfn_denoted(slot)->Err_0,
            )
        }),
{
    lemma_three(domain, bus, slot, ':');
}

/// A text without exactly two colons is no address.
pub proof fn addresses_have_two_colons(parts: Seq<Seq<char>>)
    requires
        parts.len() >= 1,
        parts.len() != 3,
        forall|i: int| 0 <= i < parts.len() ==> !(#[trigger] parts[i]).contains(':'),
    ensures
        address_denoted(join(parts, seq![':'])) == Err::<Address, PciError>(
            PciError::AddressFormat,
        ),
{
    join_then_split(parts, ':');
}

/// Addresses are written with four digits for the domain, two for the bus, two
/// for the slot and one for the function.
pub proof fn addresses_are_written_in_full(addr: Address)
    ensures
        addr.text() == hex(addr.domain as nat, 4) + seq![':'] + hex(addr.bus as nat, 2)
            + seq![':'] + hex((addr.slotfn.0 / 8) as nat, 2) + seq!['.'] + hex(
            (addr.slotfn.0 % 8) as nat,
            1,
        ),
        addr.text().len() == 12,
        addr.text()[4] == ':' && addr.text()[7] == ':' && addr.text()[10] == '.',
        addr.slotfn.text() == hex((addr.slotfn.0 / 8) as nat, 2) + seq!['.'] + hex(
            (addr.slotfn.0 % 8) as nat,
            1,
        ),
{
    hex_is_digits(addr.domain as nat, 4);
    hex_is_digits(addr.bus as nat, 2);
    hex_is_digits((addr.slotfn.0 / 8) as nat, 2);
    hex_is_digits((addr.slotfn.0 % 8) as nat, 1);
    assert(addr.text() =~= hex(addr.domain as nat, 4) + seq![':'] + hex(addr.bus as nat, 2)
        + seq![':'] + hex((addr.slotfn.0 / 8) as nat, 2) + seq!['.'] + hex(
        (addr.slotfn.0 % 8) as nat,
        1,
    ));
}

/// A path is written as its slots with a slash between each two. It is one where
/// each of them is a slot; otherwise the first that is none says why.
pub proof fn path_texts(parts: Seq<Seq<char>>)
    requires
        parts.len() >= 1,
        forall|i: int| 0 <= i < parts.len() ==> !(#[trigger] parts[i]).contains('/'),
    ensures
        ({
            let result = path_denoted(join(parts, seq!['/']));
            &&& (forall|i: int|
                0 <= i < parts.len() ==> slotfn_denoted(#[trigger] parts[i]) is Ok) ==> {
                &&& result is Ok
                &&& result->Ok_0.len() == parts.len()
                &&& forall|i: int|
                    0 <= i < parts.len() ==> result->Ok_0[i] == slotfn_denoted(
                        #[trigger] parts[i],
                    )->Ok_0
            }
            &&& forall|k: int|
                0 <= k < parts.len() && slotfn_denoted(#[trigger] parts[k]) is Err && (forall|i:
                    int|
                    0 <= i < k ==> slotfn_denoted(#[trigger] parts[i]) is Ok) ==> result == Err::<
                    Seq<SlotFn>,
                    PciError,
                >(slotfn_denoted(parts[k])->Err_0)
        }),
{
    join_then_split(parts, '/');
    lemma_slots(parts);
}

proof fn lemma_slots(parts: Seq<Seq<char>>)
    ensures
        ({
            let result = slots_denoted(parts);
            &&& (forall|i: int|
                0 <= i < parts.len() ==> slotfn_denoted(#[trigger] parts[i]) is Ok) ==> {
                &&& result is Ok
                &&& result->Ok_0.len() == parts.len()
                &&& forall|i: int|
                    0 <= i < parts.len() ==> result->Ok_0[i] == slotfn_denoted(
                        #[trigger] parts[i],
                    )->Ok_0
            }
            &&& forall|k: int|
                0 <= k < parts.len() && slotfn_denoted(#[trigger] parts[k]) is Err && (forall|i:
                    int|
                    0 <= i < k ==> slotfn_denoted(#[trigger] parts[i]) is Ok) ==> result == Err::<
                    Seq<SlotFn>,
                    PciError,
                >(slotfn_denoted(parts[k])->Err_0)
        }),
    decreases parts.len(),
{
    if parts.len() > 0 {
        let front = parts.drop_last();
        let result = slots_denoted(parts);
        lemma_slots(front);
        assert(parts.last() == parts[parts.len() - 1]);
        assert forall|i: int| 0 <= i < front.len() implies #[trigger] front[i] == parts[i] by {}
        if forall|i: int| 0 <= i < parts.len() ==> slotfn_denoted(#[trigger] parts[i]) is Ok {
            assert forall|i: int| 0 <= i < front.len() implies slotfn_denoted(
                #[trigger] front[i],
            ) is Ok by {
                assert(slotfn_denoted(parts[i]) is Ok);
            }
            assert forall|i: int| 0 <= i < parts.len() implies result->Ok_0[i] == slotfn_denoted(
                #[trigger] parts[i],
            )->Ok_0 by {
                if i < front.len() {
                    assert(slots_denoted(front)->Ok_0[i] == slotfn_denoted(front[i])->Ok_0);
                }
            }
        }
        assert forall|k: int|
            0 <= k < parts.len() && slotfn_denoted(#[trigger] parts[k]) is Err && (forall|i: int|
                0 <= i < k ==> slotfn_denoted(#[trigger] parts[i]) is Ok) implies result == Err::<
            Seq<SlotFn>,
            PciError,
        >(slotfn_denoted(parts[k])->Err_0) by {
            assert forall|i: int| 0 <= i < k && i < front.len() implies slotfn_denoted(
                #[trigger] front[i],
            ) is Ok by {
                assert(slotfn_denoted(parts[i]) is Ok);
            }
            if k < front.len() {
                assert(slotfn_denoted(front[k]) is Err);
            }
        }
    }
}

/// A queue is written as its adapter and its domain in base sixteen, with a dot
/// between them. The adapter has eight bits and the domain sixteen.
pub proof fn queue_texts(adapter: Seq<char>, domain: Seq<char>)
    requires
        !adapter.contains('.'),
        !domain.contains('.'),
    ensures
        ({
            let s = adapter + seq!['.'] + domain;
            let a = unsigned_value(adapter, 16);
            let d = unsigned_value(domain, 16);
            &&& a is Some && a->0 <= 0xff && d is Some && d->0 <= 0xffff ==> ap::address_denoted(s)
                == Ok::<ap::Address, ApError>(
                ap::Address { adapter_id: a->0 as u8, adapter_domain: d->0 as u16 },
            )
            &&& a is None || a->0 > 0xff ==> ap::address_denoted(s) == Err::<ap::Address, ApError>(
                ApError::Adapter,
            )
            &&& a is Some && a->0 <= 0xff && (d is None || d->0 > 0xffff) ==> ap::address_denoted(s)
                == Err::<ap::Address, ApError>(ApError::Domain)
        }),
{
    lemma_two(adapter, domain, '.');
}

/// A text without exactly one dot is no queue.
pub proof fn queues_have_one_dot(parts: Seq<Seq<char>>)
    requires
        parts.len() >= 1,
        parts.len() != 2,
        forall|i: int| 0 <= i < parts.len() ==> !(#[trigger] parts[i]).contains('.'),
    ensures
        ap::address_denoted(join(parts, seq!['.'])) == Err::<ap::Address, ApError>(ApError::Format),
{
    join_then_split(parts, '.');
}

/// Queues are written with two digits for the adapter and four for the domain.
pub proof fn queues_are_written_in_full(addr: ap::Address)
    ensures
        addr.text() == hex(addr.adapter_id as nat, 2) + seq!['.'] + hex(
            addr.adapter_domain as nat,
            4,
        ),
        addr.text().len() == 7,
        addr.text()[2] == '.',
{
    hex_is_digits(addr.adapter_id as nat, 2);
    hex_is_digits(addr.adapter_domain as nat, 4);
}

} // verus!
