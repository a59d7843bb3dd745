//! What translating a container's environment does to each of its entries.
use crate::env::{
    details_follow_their_list, details_without_list_stay, env_translated, faulty, first_faulty,
    guest_texts, holds_info, holds_list, hosts_in, last_list_for, list_for, list_translated,
    lists_are_translated_once, name_end, name_of, translation_keeps_name, value_of,
};
use crate::error::{DeviceErrorView, Fault};
use crate::pci::{address_denoted, Address};
use crate::text::{join, replace_words, set_apart, split, split_then_join, woven, woven_words_replaced};
use vstd::prelude::*;

verus! {

/// What an entry has before its first equals sign.
pub open spec fn var_name(entry: Seq<char>) -> Seq<char> {
    entry.take(entry.index_of_first('=')->0)
}

/// What an entry has behind its first equals sign.
pub open spec fn var_value(entry: Seq<char>) -> Seq<char> {
    entry.skip(entry.index_of_first('=')->0 + 1)
}

/// Whether the entry is a list of PCI devices.
pub open spec fn lists_devices(entry: Seq<char>) -> bool {
    &&& entry.contains('=')
    &&& "PCIDEVICE_"@.is_prefix_of(var_name(entry))
    &&& !"_INFO"@.is_suffix_of(var_name(entry))
}

/// Whether the entry holds details of PCI devices.
pub open spec fn details_devices(entry: Seq<char>) -> bool {
    &&& entry.contains('=')
    &&& "PCIDEVICE_"@.is_prefix_of(var_name(entry))
    &&& "_INFO"@.is_suffix_of(var_name(entry))
}

/// The parts of an entry's value between its commas.
pub open spec fn parts(entry: Seq<char>) -> Seq<Seq<char>> {
    split(var_value(entry), ',')
}

/// Whether the text is an address of the host that there is a guest address for.
pub open spec fn known(part: Seq<char>, pcimap: Map<Address, Address>) -> bool {
    address_denoted(part) is Ok && pcimap.contains_key(address_denoted(part)->Ok_0)
}

/// The guest addresses for the parts of an entry's value, as texts.
pub open spec fn guest_parts(entry: Seq<char>, pcimap: Map<Address, Address>) -> Seq<Seq<char>> {
    Seq::new(parts(entry).len(), |k: int| pcimap[address_denoted(parts(entry)[k])->Ok_0].text())
}

/// Whether the entry can be translated: it has an equals sign and, where it is a
/// list, all its parts are known.
pub open spec fn translatable(entry: Seq<char>, pcimap: Map<Address, Address>) -> bool {
    &&& entry.contains('=')
    &&& lists_devices(entry) ==> forall|k: int|
        0 <= k < parts(entry).len() ==> known(#[trigger] parts(entry)[k], pcimap)
}

/// A list as it should be in the guest.
pub open spec fn guest_list(entry: Seq<char>, pcimap: Map<Address, Address>) -> Seq<char> {
    var_name(entry) + seq!['='] + join(guest_parts(entry, pcimap), seq![','])
}

proof fn lemma_entry(entry: Seq<char>)
    ensures
        name_end(entry) is Some <==> entry.contains('='),
        entry.contains('=') ==> name_of(entry) == var_name(entry) && value_of(entry) == var_value(
            entry,
        ) && hosts_in(entry) == parts(entry),
        entry.contains('=') ==> (holds_list(name_of(entry)) <==> lists_devices(entry)),
        entry.contains('=') ==> (holds_info(name_of(entry)) <==> details_devices(entry)),
{
    entry.index_of_first_ensures('=');
}

proof fn lemma_guests(hosts: Seq<Seq<char>>, name: Seq<char>, pcimap: Map<Address, Address>)
    requires
        forall|k: int| 0 <= k < hosts.len() ==> known(#[trigger] hosts[k], pcimap),
    ensures
        guest_texts(hosts, name, pcimap) == Ok::<Seq<Seq<char>>, DeviceErrorView>(
            Seq::new(hosts.len(), |k: int| pcimap[address_denoted(hosts[k])->Ok_0].text()),
        ),
    decreases hosts.len(),
{
    let all = Seq::new(hosts.len(), |k: int| pcimap[address_denoted(hosts[k])->Ok_0].text());
    if hosts.len() == 0 {
        assert(all =~= Seq::empty());
    } else {
        let front = hosts.drop_last();
        assert forall|k: int| 0 <= k < front.len() implies known(#[trigger] front[k], pcimap) by {
            assert(front[k] == hosts[k]);
        }
        lemma_guests(front, name, pcimap);
        assert(known(hosts[hosts.len() - 1], pcimap));
        let some = Seq::new(front.len(), |k: int| pcimap[address_denoted(front[k])->Ok_0].text());
        assert(all =~= some.push(pcimap[address_denoted(hosts.last())->Ok_0].text()));
    }
}

proof fn lemma_guest_error(
    hosts: Seq<Seq<char>>,
    name: Seq<char>,
    pcimap: Map<Address, Address>,
    k: int,
)
    requires
        0 <= k < hosts.len(),
        forall|m: int| 0 <= m < k ==> known(#[trigger] hosts[m], pcimap),
        !known(hosts[k], pcimap),
    ensures
        guest_texts(hosts, name, pcimap) == Err::<Seq<Seq<char>>, DeviceErrorView>(
            match address_denoted(hosts[k]) {
                Err(cause) => Fault::EnvAddress { name, cause },
                Ok(host) => Fault::NoGuestAddress { host },
            },
        ),
    decreases hosts.len(),
{
    let front = hosts.drop_last();
    if k < front.len() {
        assert forall|m: int| 0 <= m < k implies known(#[trigger] front[m], pcimap) by {
            assert(front[m] == hosts[m]);
        }
        assert(front[k] == hosts[k]);
        lemma_guest_error(front, name, pcimap, k);
    } else {
        assert forall|m: int| 0 <= m < front.len() implies known(#[trigger] front[m], pcimap) by {
            assert(front[m] == hosts[m]);
        }
        lemma_guests(front, name, pcimap);
    }
}

proof fn lemma_faulty(env: Seq<Seq<char>>, pcimap: Map<Address, Address>, i: int)
    requires
        0 <= i < env.len(),
    ensures
        faulty(env, pcimap, i) <==> !translatable(env[i], pcimap),
        translatable(env[i], pcimap) ==> list_translated(env[i], pcimap) == Ok::<
            Seq<char>,
            DeviceErrorView,
        >(
            if lists_devices(env[i]) {
                guest_list(env[i], pcimap)
            } else {
                env[i]
            },
        ),
{
    let entry = env[i];
    lemma_entry(entry);
    if entry.contains('=') && lists_devices(entry) {
        let hosts = parts(entry);
        if translatable(entry, pcimap) {
            lemma_guests(hosts, var_name(entry), pcimap);
            assert(guest_parts(entry, pcimap) =~= Seq::new(
                hosts.len(),
                |k: int| pcimap[address_denoted(hosts[k])->Ok_0].text(),
            ));
        } else {
            let k = choose|k: int| 0 <= k < hosts.len() && !known(#[trigger] hosts[k], pcimap);
            let f = lemma_first_unknown(hosts, pcimap, k);
            lemma_guest_error(hosts, var_name(entry), pcimap, f);
        }
    }
}

proof fn lemma_first_unknown(hosts: Seq<Seq<char>>, pcimap: Map<Address, Address>, k: int) -> (f:
    int)
    requires
        0 <= k < hosts.len(),
        !known(hosts[k], pcimap),
    ensures
        0 <= f <= k,
        !known(hosts[f], pcimap),
        forall|m: int| 0 <= m < f ==> known(#[trigger] hosts[m], pcimap),
    decreases k,
{
    if exists|m: int| 0 <= m < k && !known(#[trigger] hosts[m], pcimap) {
        let m = choose|m: int| 0 <= m < k && !known(#[trigger] hosts[m], pcimap);
        lemma_first_unknown(hosts, pcimap, m)
    } else {
        k
    }
}

/// A translation succeeds exactly where every entry has an equals sign, and every
/// part of every list is an address that there is a guest address for.
pub proof fn translation_needs_guests(env: Seq<Seq<char>>, pcimap: Map<Address, Address>)
    ensures
        env_translated(env, pcimap).1 is Ok <==> forall|i: int|
            0 <= i < env.len() ==> translatable(#[trigger] env[i], pcimap),
        env_translated(env, pcimap).0.len() == env.len(),
{
    assert forall|i: int| 0 <= i < env.len() implies (faulty(env, pcimap, i) <==> !translatable(
        #[trigger] env[i],
        pcimap,
    )) by {
        lemma_faulty(env, pcimap, i);
    }
    if exists|i: int| faulty(env, pcimap, i) {
        let i = choose|i: int| faulty(env, pcimap, i);
        assert(!translatable(env[i], pcimap));
    } else {
        assert forall|i: int| 0 <= i < env.len() implies translatable(#[trigger] env[i], pcimap) by {
            assert(!faulty(env, pcimap, i));
        }
    }
}

/// After a translation that succeeds, an entry whose name begins with PCIDEVICE_
/// and does not end in _INFO has its name, as many parts as before, and in each
/// place the guest address for the address that stood there.
pub proof fn lists_hold_guest_addresses(
    env: Seq<Seq<char>>,
    pcimap: Map<Address, Address>,
    i: int,
)
    requires
        env_translated(env, pcimap).1 is Ok,
        0 <= i < env.len(),
        lists_devices(env[i]),
    ensures
        ({
            let after = env_translated(env, pcimap).0[i];
            &&& after == guest_list(env[i], pcimap)
            &&& after.contains('=')
            &&& var_name(after) == var_name(env[i])
            &&& parts(after).len() == parts(env[i]).len()
            &&& forall|k: int|
                0 <= k < parts(env[i]).len() ==> {
                    &&& known(#[trigger] parts(env[i])[k], pcimap)
                    &&& parts(after)[k] == pcimap[address_denoted(parts(env[i])[k])->Ok_0].text()
                }
        }),
{
    translation_needs_guests(env, pcimap);
    lemma_faulty(env, pcimap, i);
    lemma_entry(env[i]);
    let after = env_translated(env, pcimap).0[i];
    assert(after == list_translated(env[i], pcimap)->Ok_0);
    translation_keeps_name(env[i], pcimap);
    lemma_entry(after);
    split_then_join(var_value(env[i]), ',');
    lists_are_translated_once(env, pcimap, i, 0);
    assert forall|k: int| 0 <= k < parts(env[i]).len() implies known(
        #[trigger] parts(env[i])[k],
        pcimap,
    ) && parts(after)[k] == pcimap[address_denoted(parts(env[i])[k])->Ok_0].text() by {
        lists_are_translated_once(env, pcimap, i, k);
    }
}

/// Whether entry `j` is the last one called `name`.
pub open spec fn last_called(env: Seq<Seq<char>>, name: Seq<char>, j: int) -> bool {
    &&& 0 <= j < env.len()
    &&& env[j].contains('=')
    &&& var_name(env[j]) == name
    &&& forall|k: int|
        j < k < env.len() ==> !((#[trigger] env[k]).contains('=') && var_name(env[k]) == name)
}

/// After a translation that succeeds, an entry whose name is that of a list and
/// _INFO has the addresses of that list replaced by their guest addresses, in one
/// pass. Where they stand apart, nothing else of the entry changes. Of several
/// lists with one name, the last counts.
pub proof fn details_hold_guest_addresses(
    env: Seq<Seq<char>>,
    pcimap: Map<Address, Address>,
    i: int,
    j: int,
    pieces: Seq<Seq<char>>,
    marks: Seq<int>,
)
    requires
        env_translated(env, pcimap).1 is Ok,
        0 <= i < env.len(),
        0 <= j < env.len(),
        env[i].contains('='),
        lists_devices(env[j]),
        var_name(env[i]) == var_name(env[j]) + "_INFO"@,
        last_called(env, var_name(env[j]), j),
    ensures
        ({
            let after = env_translated(env, pcimap).0[i];
            let hosts = parts(env[j]);
            let guests = guest_parts(env[j], pcimap);
            &&& after == replace_words(env[i], hosts, guests)
            &&& (pieces.len() == marks.len() + 1 && env[i] == woven(pieces, marks, hosts) && (
            forall|m: int| 0 <= m < marks.len() ==> 0 <= #[trigger] marks[m] < hosts.len()) && (
            forall|k: int| 0 <= k < hosts.len() ==> set_apart(#[trigger] hosts[k], pieces)))
                ==> after == woven(pieces, marks, guests)
        }),
{
    let hosts = parts(env[j]);
    let guests = guest_parts(env[j], pcimap);
    let name = var_name(env[j]);
    let info = var_name(env[i]);
    translation_needs_guests(env, pcimap);
    lemma_entry(env[i]);
    lemma_entry(env[j]);
    lemma_faulty(env, pcimap, j);
    assert(holds_info(name_of(env[i]))) by {
        assert(info.subrange(info.len() - "_INFO"@.len(), info.len() as int) =~= "_INFO"@);
        assert(info.subrange(0, "PCIDEVICE_"@.len() as int) =~= name.subrange(
            0,
            "PCIDEVICE_"@.len() as int,
        ));
    }
    let n = env.len() as int;
    assert(last_list_for(env, info, j, n)) by {
        assert(list_for(env, info, j));
        assert forall|k: int| j < k < n implies !#[trigger] list_for(env, info, k) by {
            if list_for(env, info, k) {
                lemma_entry(env[k]);
                assert(translatable(env[k], pcimap));
                assert(name_of(env[k]) =~= info.take(info.len() - "_INFO"@.len()));
                assert(name =~= info.take(info.len() - "_INFO"@.len()));
            }
        }
    }
    details_follow_their_list(env, pcimap, i, j);
    lemma_guests(hosts, name, pcimap);
    assert(guests =~= Seq::new(
        hosts.len(),
        |k: int| pcimap[address_denoted(hosts[k])->Ok_0].text(),
    ));
    if pieces.len() == marks.len() + 1 && env[i] == woven(pieces, marks, hosts) && (forall|m: int|
        0 <= m < marks.len() ==> 0 <= #[trigger] marks[m] < hosts.len()) && (forall|k: int|
        0 <= k < hosts.len() ==> set_apart(#[trigger] hosts[k], pieces)) {
        assert forall|k: int| 0 <= k < hosts.len() implies (#[trigger] hosts[k]).len() > 0 by {
            assert(known(hosts[k], pcimap));
            if hosts[k].len() == 0 {
                assert(split(hosts[k], ':').len() == 1);
            }
        }
        woven_words_replaced(pieces, marks, hosts, guests);
    }
}

/// Whatever the outcome, an entry without an equals sign, or whose name does not
/// begin with PCIDEVICE_, is as it was. After a translation that succeeds, so are
/// details that no list goes with.
pub proof fn other_entries_stay(env: Seq<Seq<char>>, pcimap: Map<Address, Address>, i: int)
    requires
        0 <= i < env.len(),
    ensures
        ({
            let (after, result) = env_translated(env, pcimap);
            &&& !env[i].contains('=') ==> after[i] == env[i]
            &&& env[i].contains('=') && !"PCIDEVICE_"@.is_prefix_of(var_name(env[i])) ==> after[i]
                == env[i]
            &&& result is Ok && details_devices(env[i]) && (forall|j: int|
                0 <= j < env.len() ==> !(lists_devices(#[trigger] env[j]) && var_name(env[j])
                    + "_INFO"@ == var_name(env[i]))) ==> after[i] == env[i]
        }),
{
    lemma_entry(env[i]);
    if !env[i].contains('=') || !"PCIDEVICE_"@.is_prefix_of(var_name(env[i])) {
        crate::env::other_variables_stay(env, pcimap, i);
    } else if env_translated(env, pcimap).1 is Ok && details_devices(env[i]) && (forall|j: int|
        0 <= j < env.len() ==> !(lists_devices(#[trigger] env[j]) && var_name(env[j]) + "_INFO"@
            == var_name(env[i]))) {
        translation_needs_guests(env, pcimap);
        assert forall|j: int| !list_for(env, name_of(env[i]), j) by {
            if list_for(env, name_of(env[i]), j) {
                lemma_entry(env[j]);
                assert(translatable(env[j], pcimap));
                assert(lists_devices(env[j]));
            }
        }
        details_without_list_stay(env, pcimap, i);
    }
}

/// A translation that fails says what is wrong with the first entry that cannot be
/// translated: that it has no equals sign, or, of the first part that is not
/// known, why it is no address or which address has no guest address. The lists
/// before that entry are translated, and everything else is as it was.
pub proof fn first_fault_is_told(
    env: Seq<Seq<char>>,
    pcimap: Map<Address, Address>,
    i: int,
    k: int,
)
    requires
        0 <= i < env.len(),
        forall|m: int| 0 <= m < i ==> translatable(#[trigger] env[m], pcimap),
        !translatable(env[i], pcimap),
        env[i].contains('=') ==> 0 <= k < parts(env[i]).len() && !known(parts(env[i])[k], pcimap)
            && forall|m: int| 0 <= m < k ==> known(#[trigger] parts(env[i])[m], pcimap),
    ensures
        ({
            let (after, result) = env_translated(env, pcimap);
            let part = address_denoted(parts(env[i])[k]);
            &&& result == Err::<(), DeviceErrorView>(
                if !env[i].contains('=') {
                    Fault::EnvEntry { entry: env[i] }
                } else if part is Err {
                    Fault::EnvAddress { name: var_name(env[i]), cause: part->Err_0 }
                } else {
                    Fault::NoGuestAddress { host: part->Ok_0 }
                },
            )
            &&& forall|m: int|
                0 <= m < env.len() ==> #[trigger] after[m] == (if m < i && lists_devices(env[m]) {
                    guest_list(env[m], pcimap)
                } else {
                    env[m]
                })
        }),
{
    lemma_faulty(env, pcimap, i);
    lemma_entry(env[i]);
    assert forall|m: int| 0 <= m < i implies !#[trigger] faulty(env, pcimap, m) by {
        lemma_faulty(env, pcimap, m);
    }
    assert(first_faulty(env, pcimap, i));
    let f = choose|f: int| first_faulty(env, pcimap, f);
    assert(first_faulty(env, pcimap, f));
    assert(faulty(env, pcimap, f) && faulty(env, pcimap, i));
    assert(f == i);
    if env[i].contains('=') {
        assert(lists_devices(env[i]));
        lemma_guest_error(parts(env[i]), var_name(env[i]), pcimap, k);
    }
    let after = env_translated(env, pcimap).0;
    assert forall|m: int| 0 <= m < env.len() implies #[trigger] after[m] == (if m < i
        && lists_devices(env[m]) {
        guest_list(env[m], pcimap)
    } else {
        env[m]
    }) by {
        if m < i {
            lemma_faulty(env, pcimap, m);
        }
    }
}

} // verus!
