//! Corrects PCI addresses in a container's environment for the guest.
use crate::error::{outcome, DeviceError, DeviceErrorView, Fault};
use crate::keymap::KeyMap;
use crate::oci::text_views;
use crate::pci::{address_denoted, address_reads_back, Address, PciMap};
use crate::text::{
    begins_with, chars_of, finishes_with, first_place, join, join_text, join_then_split, occurs_in,
    replace_absent, replace_text, replace_words, set_apart, split, split_text, split_then_join,
    text_of, woven, woven_words_replaced,
};
use vstd::prelude::*;
use vstd::slice::slice_subrange;

verus! {

/// How the names of variables begin that are about PCI devices.
pub const PCI_PREFIX: &'static str = "PCIDEVICE_";

/// How the names of variables end that hold details about PCI devices.
pub const INFO_SUFFIX: &'static str = "_INFO";

/// Where the name of an entry ends: at its first equals sign.
pub open spec fn name_end(entry: Seq<char>) -> Option<int> {
    entry.index_of_first('=')
}

/// The name of an entry that has one.
pub open spec fn name_of(entry: Seq<char>) -> Seq<char> {
    entry.take(name_end(entry)->0)
}

/// The value of an entry that has a name.
pub open spec fn value_of(entry: Seq<char>) -> Seq<char> {
    entry.skip(name_end(entry)->0 + 1)
}

/// Whether a variable of that name holds a list of PCI addresses.
pub open spec fn holds_list(name: Seq<char>) -> bool {
    PCI_PREFIX@.is_prefix_of(name) && !INFO_SUFFIX@.is_suffix_of(name)
}

/// Whether a variable of that name holds details about PCI devices.
pub open spec fn holds_info(name: Seq<char>) -> bool {
    PCI_PREFIX@.is_prefix_of(name) && INFO_SUFFIX@.is_suffix_of(name)
}

/// The guest's address, as text, for a host address given as text.
pub open spec fn guest_text(
    host: Seq<char>,
    name: Seq<char>,
    pcimap: Map<Address, Address>,
) -> Result<Seq<char>, DeviceErrorView> {
    match address_denoted(host) {
        Err(cause) => Err(Fault::EnvAddress { name, cause }),
        Ok(addr) => if pcimap.contains_key(addr) {
            Ok(pcimap[addr].text())
        } else {
            Err(Fault::NoGuestAddress { host: addr })
        },
    }
}

/// The guest's addresses for host addresses, one for one; the first that has
/// none decides the error.
pub open spec fn guest_texts(
    hosts: Seq<Seq<char>>,
    name: Seq<char>,
    pcimap: Map<Address, Address>,
) -> Result<Seq<Seq<char>>, DeviceErrorView>
    decreases hosts.len(),
{
    if hosts.len() == 0 {
        Ok(Seq::empty())
    } else {
        match guest_texts(hosts.drop_last(), name, pcimap) {
            Err(e) => Err(e),
            Ok(front) => match guest_text(hosts.last(), name, pcimap) {
                Err(e) => Err(e),
                Ok(guest) => Ok(front.push(guest)),
            },
        }
    }
}

/// The host addresses in an entry's value, as texts.
pub open spec fn hosts_in(entry: Seq<char>) -> Seq<Seq<char>> {
    split(value_of(entry), ',')
}

/// An entry with the addresses in its list translated; another entry as it is.
pub open spec fn list_translated(
    entry: Seq<char>,
    pcimap: Map<Address, Address>,
) -> Result<Seq<char>, DeviceErrorView> {
    if name_end(entry) is None {
        Err(Fault::EnvEntry { entry })
    } else if !holds_list(name_of(entry)) {
        Ok(entry)
    } else {
        match guest_texts(hosts_in(entry), name_of(entry), pcimap) {
            Err(e) => Err(e),
            Ok(guests) => Ok(name_of(entry) + seq!['='] + join(guests, seq![','])),
        }
    }
}

/// The guest addresses for the host addresses in a list that can be translated,
/// as texts.
pub open spec fn guests_for(list: Seq<char>, pcimap: Map<Address, Address>) -> Seq<Seq<char>> {
    guest_texts(hosts_in(list), name_of(list), pcimap)->Ok_0
}

/// Details with every host address of the list replaced by its guest address, in
/// one pass.
pub open spec fn details_translated(
    details: Seq<char>,
    list: Seq<char>,
    pcimap: Map<Address, Address>,
) -> Seq<char> {
    replace_words(details, hosts_in(list), guests_for(list, pcimap))
}

/// Whether entry `i` holds the list of the devices that a variable called
/// `info` holds the details of.
pub open spec fn list_for(env: Seq<Seq<char>>, info: Seq<char>, i: int) -> bool {
    &&& 0 <= i < env.len()
    &&& holds_list(name_of(env[i]))
    &&& name_of(env[i]) + INFO_SUFFIX@ == info
}

/// Whether entry `i` is the last one before place `upto` that holds that list.
pub open spec fn last_list_for(env: Seq<Seq<char>>, info: Seq<char>, i: int, upto: int) -> bool {
    &&& i < upto
    &&& list_for(env, info, i)
    &&& forall|j: int| i < j < upto ==> !#[trigger] list_for(env, info, j)
}

/// Whether entry `i` cannot be translated.
pub open spec fn faulty(env: Seq<Seq<char>>, pcimap: Map<Address, Address>, i: int) -> bool {
    0 <= i < env.len() && list_translated(env[i], pcimap) is Err
}

/// Whether entry `i` is the first that cannot be translated.
pub open spec fn first_faulty(env: Seq<Seq<char>>, pcimap: Map<Address, Address>, i: int) -> bool {
    &&& faulty(env, pcimap, i)
    &&& forall|j: int| 0 <= j < i ==> !#[trigger] faulty(env, pcimap, j)
}

/// The environment with the lists before place `upto` translated.
pub open spec fn lists_translated(
    env: Seq<Seq<char>>,
    pcimap: Map<Address, Address>,
    upto: int,
) -> Seq<Seq<char>> {
    Seq::new(
        env.len(),
        |i: int|
            if i < upto {
                list_translated(env[i], pcimap)->Ok_0
            } else {
                env[i]
            },
    )
}

/// An entry of an environment that can be translated, after its translation. In
/// details, every address of the list that goes with them is replaced.
pub open spec fn entry_translated(
    env: Seq<Seq<char>>,
    pcimap: Map<Address, Address>,
    i: int,
) -> Seq<char> {
    let name = name_of(env[i]);
    if holds_info(name) && exists|j: int| last_list_for(env, name, j, env.len() as int) {
        let j = choose|j: int| last_list_for(env, name, j, env.len() as int);
        details_translated(env[i], env[j], pcimap)
    } else {
        list_translated(env[i], pcimap)->Ok_0
    }
}

/// The environment that the translation leaves behind, and its outcome. An
/// entry that cannot be translated ends it: the lists before that entry are
/// translated, all else is as it was.
pub open spec fn env_translated(env: Seq<Seq<char>>, pcimap: Map<Address, Address>) -> (
    Seq<Seq<char>>,
    Result<(), DeviceErrorView>,
) {
    if exists|i: int| faulty(env, pcimap, i) {
        let i = choose|i: int| first_faulty(env, pcimap, i);
        (
            lists_translated(env, pcimap, i),
            Err(list_translated(env[i], pcimap)->Err_0),
        )
    } else {
        (Seq::new(env.len(), |i: int| entry_translated(env, pcimap, i)), Ok(()))
    }
}

/// The host addresses of a list, and the guest addresses at the same places.
struct Pairs {
    hosts: Vec<String>,
    guests: Vec<String>,
}

/// Whether `pairs` holds the host addresses of the list with their guest
/// addresses.
spec fn pairs_up(pairs: Pairs, list: Seq<char>, pcimap: Map<Address, Address>) -> bool {
    &&& pairs.hosts@.len() == pairs.guests@.len()
    &&& text_views(pairs.hosts@) == hosts_in(list)
    &&& guest_texts(hosts_in(list), name_of(list), pcimap) == Ok::<Seq<Seq<char>>, DeviceErrorView>(
        text_views(pairs.guests@),
    )
}

proof fn lemma_guest_error_stays(
    hosts: Seq<Seq<char>>,
    name: Seq<char>,
    pcimap: Map<Address, Address>,
    k: int,
)
    requires
        0 <= k <= hosts.len(),
        guest_texts(hosts.take(k), name, pcimap) is Err,
    ensures
        guest_texts(hosts, name, pcimap) == guest_texts(hosts.take(k), name, pcimap),
    decreases hosts.len() - k,
{
    if k == hosts.len() {
        assert(hosts.take(k) =~= hosts);
    } else {
        assert(hosts.take(k + 1).drop_last() =~= hosts.take(k));
        lemma_guest_error_stays(hosts, name, pcimap, k + 1);
    }
}

/// Translates a list of host addresses, and pairs each of them with its guest
/// address.
fn translate_list(name: &str, value: &str, pcimap: &PciMap) -> (r: Result<Pairs, DeviceError>)
    requires
        pcimap.wf(),
    ensures
        match r {
            Ok(pairs) => {
                &&& pairs.hosts@.len() == pairs.guests@.len()
                &&& text_views(pairs.hosts@) == split(value@, ',')
                &&& guest_texts(split(value@, ','), name@, pcimap@) == Ok::<
                    Seq<Seq<char>>,
                    DeviceErrorView,
                >(text_views(pairs.guests@))
            },
            Err(e) => guest_texts(split(value@, ','), name@, pcimap@) == Err::<
                Seq<Seq<char>>,
                DeviceErrorView,
            >(e@),
        },
{
    let hosts = split_text(value, ',');
    let ghost views = text_views(hosts@);
    let mut guests: Vec<String> = Vec::new();
    proof {
        assert(views =~= hosts@.map_values(|p: String| p@));
        assert(views.take(0) =~= Seq::empty());
        assert(text_views(guests@) =~= Seq::empty());
    }
    for i in 0..hosts.len()
        invariant
            pcimap.wf(),
            views == text_views(hosts@),
            views == split(value@, ','),
            guests@.len() == i,
            guest_texts(views.take(i as int), name@, pcimap@) == Ok::<
                Seq<Seq<char>>,
                DeviceErrorView,
            >(text_views(guests@)),
    {
        proof {
            assert(views.take(i + 1).drop_last() =~= views.take(i as int));
            assert(views.take(i + 1).last() == hosts@[i as int]@);
        }
        let addr = match Address::from_str(hosts[i].as_str()) {
            Ok(addr) => addr,
            Err(cause) => {
                proof {
                    lemma_guest_error_stays(views, name@, pcimap@, i + 1);
                }
                return Err(Fault::EnvAddress { name: name.to_owned(), cause });
            },
        };
        let guest = match pcimap.get(&addr) {
            Some(guest) => guest.to_string(),
            None => {
                proof {
                    lemma_guest_error_stays(views, name@, pcimap@, i + 1);
                }
                return Err(Fault::NoGuestAddress { host: addr });
            },
        };
        let ghost before = text_views(guests@);
        guests.push(guest);
        assert(text_views(guests@) =~= before.push(guest@));
    }
    assert(views.take(views.len() as int) =~= views);
    Ok(Pairs { hosts, guests })
}

/// The name of an entry and its value.
fn cut_entry(entry: &str) -> (r: Option<(String, String)>)
    ensures
        match r {
            Some((name, value)) => name_end(entry@) is Some && name@ == name_of(entry@) && value@
                == value_of(entry@),
            None => name_end(entry@) is None,
        },
{
    let chars = chars_of(entry);
    let n = chars.len();
    match first_place(chars.as_slice(), '=') {
        None => None,
        Some(i) => {
            let name = text_of(slice_subrange(chars.as_slice(), 0, i));
            let value = text_of(slice_subrange(chars.as_slice(), i + 1, n));
            assert(name@ =~= name_of(entry@));
            assert(value@ =~= value_of(entry@));
            Some((name, value))
        },
    }
}

/// What is known of details before place `upto`: under the name of a variable,
/// the pairs of the last list that goes with it.
spec fn infos_known(
    infos: Map<Seq<char>, Pairs>,
    env: Seq<Seq<char>>,
    pcimap: Map<Address, Address>,
    upto: int,
) -> bool {
    &&& forall|n: Seq<char>| #[trigger]
        infos.contains_key(n) ==> exists|j: int| #[trigger]
            last_list_for(env, n, j, upto) && pairs_up(infos[n], env[j], pcimap)
    &&& forall|n: Seq<char>, j: int|
        j < upto && #[trigger] list_for(env, n, j) ==> infos.contains_key(n)
}

proof fn lemma_infos_other(
    infos: Map<Seq<char>, Pairs>,
    env: Seq<Seq<char>>,
    pcimap: Map<Address, Address>,
    i: int,
)
    requires
        infos_known(infos, env, pcimap, i),
        0 <= i < env.len(),
        !holds_list(name_of(env[i])),
    ensures
        infos_known(infos, env, pcimap, i + 1),
{
    assert forall|n: Seq<char>| #[trigger] infos.contains_key(n) implies exists|j: int| #[trigger]
        last_list_for(env, n, j, i + 1) && pairs_up(infos[n], env[j], pcimap) by {
        let j = choose|j: int| #[trigger]
            last_list_for(env, n, j, i) && pairs_up(infos[n], env[j], pcimap);
        assert(!list_for(env, n, i));
        assert(last_list_for(env, n, j, i + 1));
    }
}

proof fn lemma_infos_list(
    known: Map<Seq<char>, Pairs>,
    infos: Map<Seq<char>, Pairs>,
    env: Seq<Seq<char>>,
    pcimap: Map<Address, Address>,
    i: int,
)
    requires
        infos_known(known, env, pcimap, i),
        0 <= i < env.len(),
        holds_list(name_of(env[i])),
        ({
            let info = name_of(env[i]) + INFO_SUFFIX@;
            infos == known.insert(info, infos[info]) && pairs_up(infos[info], env[i], pcimap)
        }),
    ensures
        infos_known(infos, env, pcimap, i + 1),
{
    let info = name_of(env[i]) + INFO_SUFFIX@;
    assert(list_for(env, info, i));
    assert(last_list_for(env, info, i, i + 1));
    assert forall|n: Seq<char>| #[trigger] infos.contains_key(n) implies exists|j: int| #[trigger]
        last_list_for(env, n, j, i + 1) && pairs_up(infos[n], env[j], pcimap) by {
        if n != info {
            assert(known.contains_key(n));
            let j = choose|j: int| #[trigger]
                last_list_for(env, n, j, i) && pairs_up(known[n], env[j], pcimap);
            assert(!list_for(env, n, i));
            assert(last_list_for(env, n, j, i + 1));
        }
    }
}

proof fn lemma_first_faulty(env: Seq<Seq<char>>, pcimap: Map<Address, Address>, i: int)
    requires
        first_faulty(env, pcimap, i),
    ensures
        exists|j: int| faulty(env, pcimap, j),
        i == choose|j: int| first_faulty(env, pcimap, j),
{
    let j = choose|j: int| first_faulty(env, pcimap, j);
    assert(first_faulty(env, pcimap, j));
    assert(faulty(env, pcimap, i));
    assert(faulty(env, pcimap, j));
}

/// Translates the lists, and notes for the details which addresses go with
/// them.
fn translate_lists(env: &mut Vec<String>, pcimap: &PciMap) -> (r: Result<
    KeyMap<String, Pairs>,
    DeviceError,
>)
    requires
        pcimap.wf(),
    ensures
        ({
            let before = text_views(old(env)@);
            let after = text_views(final(env)@);
            match r {
                Ok(infos) => {
                    &&& forall|i: int| !#[trigger] faulty(before, pcimap@, i)
                    &&& after == lists_translated(before, pcimap@, before.len() as int)
                    &&& infos.wf()
                    &&& infos_known(infos@, before, pcimap@, before.len() as int)
                },
                Err(e) => exists|i: int|
                    {
                        &&& #[trigger] first_faulty(before, pcimap@, i)
                        &&& after == lists_translated(before, pcimap@, i)
                        &&& list_translated(before[i], pcimap@) == Err::<
                            Seq<char>,
                            DeviceErrorView,
                        >(e@)
                    },
            }
        }),
{
    let ghost before = text_views(env@);
    let mut infos: KeyMap<String, Pairs> = KeyMap::new();
    let mut i: usize = 0;
    assert(text_views(env@) =~= lists_translated(before, pcimap@, 0));
    while i < env.len()
        invariant
            pcimap.wf(),
            before == text_views(old(env)@),
            env@.len() == before.len(),
            i <= env.len(),
            text_views(env@) == lists_translated(before, pcimap@, i as int),
            forall|j: int| 0 <= j < i ==> !#[trigger] faulty(before, pcimap@, j),
            infos.wf(),
            infos_known(infos@, before, pcimap@, i as int),
        decreases env.len() - i,
    {
        let ghost prior = env@;
        let ghost known = infos@;
        let ghost entry = before[i as int];
        assert(text_views(env@)[i as int] == env@[i as int]@);
        assert(env@[i as int]@ == entry);
        let (name, value) = match cut_entry(env[i].as_str()) {
            Some(cut) => cut,
            None => {
                assert(first_faulty(before, pcimap@, i as int));
                return Err(Fault::EnvEntry { entry: env[i].clone() });
            },
        };
        if begins_with(name.as_str(), PCI_PREFIX) && !finishes_with(name.as_str(), INFO_SUFFIX) {
            let pairs = match translate_list(name.as_str(), value.as_str(), pcimap) {
                Ok(done) => done,
                Err(e) => {
                    assert(first_faulty(before, pcimap@, i as int));
                    return Err(e);
                },
            };
            let list = join_text(&pairs.guests, ",");
            let mut info = name.clone();
            info.append(INFO_SUFFIX);
            infos.insert(info, pairs);
            assert(infos@ == known.insert(name_of(entry) + INFO_SUFFIX@, pairs));
            let mut line = name;
            line.push('=');
            line.append(list.as_str());
            env.set(i, line);
            proof {
                reveal_strlit(",");
                assert(","@ =~= seq![',']);
                assert(line@ =~= list_translated(entry, pcimap@)->Ok_0);
                lemma_infos_list(known, infos@, before, pcimap@, i as int);
            }
        } else {
            proof {
                lemma_infos_other(infos@, before, pcimap@, i as int);
            }
        }
        proof {
            assert(list_translated(entry, pcimap@) == Ok::<Seq<char>, DeviceErrorView>(
                env@[i as int]@,
            ));
            assert forall|k: int| 0 <= k < env@.len() implies text_views(env@)[k]
                == lists_translated(before, pcimap@, i + 1)[k] by {
                assert(text_views(prior)[k] == prior[k]@);
            }
            assert(text_views(env@) =~= lists_translated(before, pcimap@, i + 1));
        }
        i = i + 1;
    }
    Ok(infos)
}

/// The translation of an entry keeps its name.
pub proof fn translation_keeps_name(entry: Seq<char>, pcimap: Map<Address, Address>)
    requires
        list_translated(entry, pcimap) is Ok,
    ensures
        name_end(list_translated(entry, pcimap)->Ok_0) == name_end(entry),
        name_end(entry) is Some,
        name_of(list_translated(entry, pcimap)->Ok_0) == name_of(entry),
{
    let after = list_translated(entry, pcimap)->Ok_0;
    entry.index_of_first_ensures('=');
    after.index_of_first_ensures('=');
    if holds_list(name_of(entry)) {
        let e = name_end(entry)->0;
        assert(after[e] == '=');
        let f = name_end(after)->0;
        if f < e {
            assert(after[f] == entry[f]);
        }
        assert(f == e);
        assert(name_of(after) =~= name_of(entry));
    }
}

proof fn lemma_last_list_unique(env: Seq<Seq<char>>, info: Seq<char>, i: int, j: int, upto: int)
    requires
        last_list_for(env, info, i, upto),
        last_list_for(env, info, j, upto),
    ensures
        i == j,
{
}

proof fn lemma_info_translated(
    infos: Map<Seq<char>, Pairs>,
    env: Seq<Seq<char>>,
    pcimap: Map<Address, Address>,
    i: int,
)
    requires
        infos_known(infos, env, pcimap, env.len() as int),
        0 <= i < env.len(),
        list_translated(env[i], pcimap) is Ok,
    ensures
        ({
            let name = name_of(env[i]);
            entry_translated(env, pcimap, i) == if holds_info(name) && infos.contains_key(name) {
                replace_words(
                    env[i],
                    text_views(infos[name].hosts@),
                    text_views(infos[name].guests@),
                )
            } else {
                list_translated(env[i], pcimap)->Ok_0
            }
        }),
        holds_info(name_of(env[i])) ==> list_translated(env[i], pcimap)->Ok_0 == env[i],
        infos.contains_key(name_of(env[i])) ==> infos[name_of(env[i])].hosts@.len()
            == infos[name_of(env[i])].guests@.len(),
{
    let name = name_of(env[i]);
    let n = env.len() as int;
    if holds_info(name) {
        if infos.contains_key(name) {
            let j = choose|j: int| #[trigger]
                last_list_for(env, name, j, n) && pairs_up(infos[name], env[j], pcimap);
            let k = choose|k: int| last_list_for(env, name, k, n);
            assert(last_list_for(env, name, k, n));
            lemma_last_list_unique(env, name, j, k, n);
        } else if exists|k: int| last_list_for(env, name, k, n) {
            let k = choose|k: int| last_list_for(env, name, k, n);
            assert(list_for(env, name, k));
        }
    }
}

/// Replaces the addresses in the details that were noted.
fn translate_infos(
    env: &mut Vec<String>,
    infos: &KeyMap<String, Pairs>,
    Ghost(before): Ghost<Seq<Seq<char>>>,
    Ghost(pcimap): Ghost<Map<Address, Address>>,
)
    requires
        forall|i: int| !#[trigger] faulty(before, pcimap, i),
        text_views(old(env)@) == lists_translated(before, pcimap, before.len() as int),
        infos.wf(),
        infos_known(infos@, before, pcimap, before.len() as int),
    ensures
        text_views(final(env)@) == Seq::new(
            before.len(),
            |i: int| entry_translated(before, pcimap, i),
        ),
{
    let mut i: usize = 0;
    proof {
        assert(text_views(env@).len() == env@.len());
        assert forall|k: int| 0 <= k < env@.len() implies (#[trigger] env@[k])@ == list_translated(
            before[k],
            pcimap,
        )->Ok_0 by {
            assert(text_views(env@)[k] == env@[k]@);
        }
    }
    while i < env.len()
        invariant
            forall|k: int| !#[trigger] faulty(before, pcimap, k),
            env@.len() == before.len(),
            i <= env.len(),
            infos.wf(),
            infos_known(infos@, before, pcimap, before.len() as int),
            forall|k: int|
                0 <= k < i ==> (#[trigger] env@[k])@ == entry_translated(before, pcimap, k),
            forall|k: int|
                i <= k < env@.len() ==> (#[trigger] env@[k])@ == list_translated(
                    before[k],
                    pcimap,
                )->Ok_0,
        decreases env.len() - i,
    {
        proof {
            assert(!faulty(before, pcimap, i as int));
            translation_keeps_name(before[i as int], pcimap);
            lemma_info_translated(infos@, before, pcimap, i as int);
        }
        if let Some((name, _)) = cut_entry(env[i].as_str()) {
            if begins_with(name.as_str(), PCI_PREFIX) && finishes_with(
                name.as_str(),
                INFO_SUFFIX,
            ) {
                if let Some(pairs) = infos.get(&name) {
                    proof {
                        assert(infos@.contains_key(name@));
                    }
                    let line = replace_text(env[i].as_str(), &pairs.hosts, &pairs.guests);
                    env.set(i, line);
                }
            }
        }
        i = i + 1;
    }
    assert(text_views(env@) =~= Seq::new(
        before.len(),
        |k: int| entry_translated(before, pcimap, k),
    ));
}

/// Alters PCI addresses in a set of environment variables to be correct for
/// the VM instead of the host. It is given a map of (host address => guest
/// address).
///
/// An SR-IOV device plugin may add two environment variables for one resource:
/// - PCIDEVICE_<prefix>_<resource-name>: a list of PCI device ids separated by comma
/// - PCIDEVICE_<prefix>_<resource-name>_INFO: detailed info in JSON for above PCI devices
///
/// Both hold information about the same set of PCI devices, and both are
/// updated.
pub fn update_env_pci(env: &mut Vec<String>, pcimap: &PciMap) -> (r: Result<(), DeviceError>)
    requires
        pcimap.wf(),
    ensures
        (text_views(final(env)@), outcome(r)) == env_translated(text_views(old(env)@), pcimap@),
{
    let ghost before = text_views(env@);
    match translate_lists(env, pcimap) {
        Err(e) => {
            proof {
                let i = choose|i: int|
                    {
                        &&& #[trigger] first_faulty(before, pcimap@, i)
                        &&& text_views(env@) == lists_translated(before, pcimap@, i)
                        &&& list_translated(before[i], pcimap@) == Err::<
                            Seq<char>,
                            DeviceErrorView,
                        >(e@)
                    };
                lemma_first_faulty(before, pcimap@, i);
            }
            Err(e)
        },
        Ok(infos) => {
            translate_infos(env, &infos, Ghost(before), Ghost(pcimap@));
            Ok(())
        },
    }
}

/// The translation neither adds nor takes away entries, and entries that are
/// not about PCI devices stay as they are, whatever the outcome.
pub proof fn other_variables_stay(env: Seq<Seq<char>>, pcimap: Map<Address, Address>, i: int)
    requires
        0 <= i < env.len(),
        name_end(env[i]) is None || !PCI_PREFIX@.is_prefix_of(name_of(env[i])),
    ensures
        env_translated(env, pcimap).0.len() == env.len(),
        env_translated(env, pcimap).0[i] == env[i],
{
    if exists|j: int| faulty(env, pcimap, j) {
        let j = choose|j: int| faulty(env, pcimap, j);
        let f = lemma_some_first_faulty(env, pcimap, j);
        lemma_first_faulty(env, pcimap, f);
        if i < f {
            assert(!faulty(env, pcimap, i));
        }
    } else {
        assert(!faulty(env, pcimap, i));
    }
}

proof fn lemma_some_first_faulty(env: Seq<Seq<char>>, pcimap: Map<Address, Address>, j: int) -> (f:
    int)
    requires
        faulty(env, pcimap, j),
    ensures
        first_faulty(env, pcimap, f),
        f <= j,
    decreases j,
{
    if exists|k: int| 0 <= k < j && faulty(env, pcimap, k) {
        let k = choose|k: int| 0 <= k < j && faulty(env, pcimap, k);
        lemma_some_first_faulty(env, pcimap, k)
    } else {
        j
    }
}

proof fn lemma_guests_of_hosts(
    hosts: Seq<Seq<char>>,
    name: Seq<char>,
    pcimap: Map<Address, Address>,
    k: int,
)
    requires
        guest_texts(hosts, name, pcimap) is Ok,
        0 <= k < hosts.len(),
    ensures
        guest_texts(hosts, name, pcimap)->Ok_0.len() == hosts.len(),
        guest_text(hosts[k], name, pcimap) == Ok::<Seq<char>, DeviceErrorView>(
            guest_texts(hosts, name, pcimap)->Ok_0[k],
        ),
    decreases hosts.len(),
{
    let front = hosts.drop_last();
    if front.len() > 0 {
        lemma_guests_of_hosts(
            front,
            name,
            pcimap,
            if k < front.len() {
                k
            } else {
                0
            },
        );
    } else {
        assert(guest_texts(front, name, pcimap)->Ok_0.len() == 0);
    }
    if k < front.len() {
        assert(front[k] == hosts[k]);
    }
}

/// After a translation that succeeds, a list has as many addresses as before,
/// and each of them is the guest address of the host address that stood in its
/// place. None is translated a second time.
pub proof fn lists_are_translated_once(
    env: Seq<Seq<char>>,
    pcimap: Map<Address, Address>,
    i: int,
    k: int,
)
    requires
        env_translated(env, pcimap).1 is Ok,
        0 <= i < env.len(),
        holds_list(name_of(env[i])),
        0 <= k < hosts_in(env[i]).len(),
    ensures
        ({
            let after = env_translated(env, pcimap).0[i];
            &&& name_of(after) == name_of(env[i])
            &&& hosts_in(after).len() == hosts_in(env[i]).len()
            &&& address_denoted(hosts_in(env[i])[k]) is Ok
            &&& pcimap.contains_key(address_denoted(hosts_in(env[i])[k])->Ok_0)
            &&& hosts_in(after)[k] == pcimap[address_denoted(hosts_in(env[i])[k])->Ok_0].text()
        }),
{
    assert(!faulty(env, pcimap, i));
    let entry = env[i];
    let hosts = hosts_in(entry);
    let after = env_translated(env, pcimap).0[i];
    assert(after == list_translated(entry, pcimap)->Ok_0);
    translation_keeps_name(entry, pcimap);
    split_then_join(value_of(entry), ',');
    let guests = guest_texts(hosts, name_of(entry), pcimap)->Ok_0;
    lemma_guests_of_hosts(hosts, name_of(entry), pcimap, k);
    assert forall|m: int| 0 <= m < guests.len() implies !(#[trigger] guests[m]).contains(',') by {
        lemma_guests_of_hosts(hosts, name_of(entry), pcimap, m);
        address_reads_back(pcimap[address_denoted(hosts[m])->Ok_0]);
    }
    join_then_split(guests, ',');
    entry.index_of_first_ensures('=');
    assert(value_of(after) =~= join(guests, seq![',']));
}

/// After a translation that succeeds, details that no list goes with are as
/// they were.
pub proof fn details_without_list_stay(env: Seq<Seq<char>>, pcimap: Map<Address, Address>, i: int)
    requires
        env_translated(env, pcimap).1 is Ok,
        0 <= i < env.len(),
        holds_info(name_of(env[i])),
        forall|j: int| !list_for(env, name_of(env[i]), j),
    ensures
        env_translated(env, pcimap).0[i] == env[i],
{
    assert(!faulty(env, pcimap, i));
}

/// After a translation that succeeds, details have every address of the list that
/// goes with them replaced by its guest address, and no address of another
/// list. Where several lists go with them, the last one counts.
pub proof fn details_follow_their_list(
    env: Seq<Seq<char>>,
    pcimap: Map<Address, Address>,
    i: int,
    j: int,
)
    requires
        env_translated(env, pcimap).1 is Ok,
        0 <= i < env.len(),
        holds_info(name_of(env[i])),
        last_list_for(env, name_of(env[i]), j, env.len() as int),
    ensures
        env_translated(env, pcimap).0[i] == details_translated(env[i], env[j], pcimap),
{
    assert(!faulty(env, pcimap, i));
    let n = env.len() as int;
    let k = choose|k: int| last_list_for(env, name_of(env[i]), k, n);
    assert(last_list_for(env, name_of(env[i]), k, n));
    lemma_last_list_unique(env, name_of(env[i]), j, k, n);
}

/// After a translation that succeeds, details in which the addresses of their
/// list stand apart have every one of them replaced by its guest address, once,
/// and nothing else changed.
pub proof fn details_are_translated_once(
    env: Seq<Seq<char>>,
    pcimap: Map<Address, Address>,
    i: int,
    j: int,
    pieces: Seq<Seq<char>>,
    marks: Seq<int>,
)
    requires
        env_translated(env, pcimap).1 is Ok,
        0 <= i < env.len(),
        holds_info(name_of(env[i])),
        last_list_for(env, name_of(env[i]), j, env.len() as int),
        pieces.len() == marks.len() + 1,
        forall|m: int| 0 <= m < marks.len() ==> 0 <= #[trigger] marks[m] < hosts_in(env[j]).len(),
        env[i] == woven(pieces, marks, hosts_in(env[j])),
        forall|k: int|
            0 <= k < hosts_in(env[j]).len() ==> set_apart(#[trigger] hosts_in(env[j])[k], pieces),
    ensures
        env_translated(env, pcimap).0[i] == woven(pieces, marks, guests_for(env[j], pcimap)),
        guests_for(env[j], pcimap).len() == hosts_in(env[j]).len(),
        forall|k: int|
            0 <= k < hosts_in(env[j]).len() ==> {
                let host = address_denoted(#[trigger] hosts_in(env[j])[k]);
                &&& host is Ok
                &&& pcimap.contains_key(host->Ok_0)
                &&& guests_for(env[j], pcimap)[k] == pcimap[host->Ok_0].text()
            },
{
    let hosts = hosts_in(env[j]);
    let guests = guests_for(env[j], pcimap);
    details_follow_their_list(env, pcimap, i, j);
    assert(list_for(env, name_of(env[i]), j));
    assert(!faulty(env, pcimap, j));
    split_then_join(value_of(env[j]), ',');
    lemma_guests_of_hosts(hosts, name_of(env[j]), pcimap, 0);
    assert forall|k: int| 0 <= k < hosts.len() implies {
        let host = address_denoted(#[trigger] hosts[k]);
        &&& host is Ok
        &&& pcimap.contains_key(host->Ok_0)
        &&& guests[k] == pcimap[host->Ok_0].text()
        &&& hosts[k].len() > 0
    } by {
        lemma_guests_of_hosts(hosts, name_of(env[j]), pcimap, k);
        if hosts[k].len() == 0 {
            assert(split(hosts[k], ':').len() == 1);
        }
    }
    woven_words_replaced(pieces, marks, hosts, guests);
}

/// After a translation that succeeds, details in which none of the addresses of
/// their list occurs are as they were.
pub proof fn details_without_address_stay(
    env: Seq<Seq<char>>,
    pcimap: Map<Address, Address>,
    i: int,
)
    requires
        env_translated(env, pcimap).1 is Ok,
        0 <= i < env.len(),
        holds_info(name_of(env[i])),
        forall|j: int, k: int|
            list_for(env, name_of(env[i]), j) && 0 <= k < hosts_in(env[j]).len() ==> !occurs_in(
                #[trigger] hosts_in(env[j])[k],
                env[i],
            ),
    ensures
        env_translated(env, pcimap).0[i] == env[i],
{
    assert(!faulty(env, pcimap, i));
    let name = name_of(env[i]);
    let n = env.len() as int;
    if exists|j: int| last_list_for(env, name, j, n) {
        let j = choose|j: int| last_list_for(env, name, j, n);
        assert(list_for(env, name, j));
        assert forall|k: int| 0 <= k < hosts_in(env[j]).len() implies !occurs_in(
            #[trigger] hosts_in(env[j])[k],
            env[i],
        ) by {}
        replace_absent(env[i], hosts_in(env[j]), guests_for(env[j], pcimap));
    }
}

/// A translation succeeds exactly where every entry has a name and every
/// address in a list has a guest address.
pub proof fn translation_succeeds(env: Seq<Seq<char>>, pcimap: Map<Address, Address>)
    ensures
        env_translated(env, pcimap).1 is Ok <==> forall|i: int|
            0 <= i < env.len() ==> {
                &&& name_end(#[trigger] env[i]) is Some
                &&& holds_list(name_of(env[i])) ==> forall|k: int|
                    0 <= k < hosts_in(env[i]).len() ==> {
                        let host = address_denoted(#[trigger] hosts_in(env[i])[k]);
                        host is Ok && pcimap.contains_key(host->Ok_0)
                    }
            },
{
    assert forall|i: int| 0 <= i < env.len() implies (!faulty(env, pcimap, i) <==> {
        &&& name_end(#[trigger] env[i]) is Some
        &&& holds_list(name_of(env[i])) ==> forall|k: int|
            0 <= k < hosts_in(env[i]).len() ==> {
                let host = address_denoted(#[trigger] hosts_in(env[i])[k]);
                host is Ok && pcimap.contains_key(host->Ok_0)
            }
    }) by {
        let hosts = hosts_in(env[i]);
        let name = name_of(env[i]);
        if guest_texts(hosts, name, pcimap) is Ok {
            assert forall|k: int| 0 <= k < hosts.len() implies {
                let host = address_denoted(#[trigger] hosts[k]);
                host is Ok && pcimap.contains_key(host->Ok_0)
            } by {
                lemma_guests_of_hosts(hosts, name, pcimap, k);
            }
        }
        if forall|k: int|
            0 <= k < hosts.len() ==> {
                let host = address_denoted(#[trigger] hosts[k]);
                host is Ok && pcimap.contains_key(host->Ok_0)
            } {
            lemma_all_hosts_known(hosts, name, pcimap);
        }
    }
    if env_translated(env, pcimap).1 is Ok {
        assert forall|i: int| 0 <= i < env.len() implies !faulty(env, pcimap, i) && name_end(
            #[trigger] env[i],
        ) is Some by {}
    } else {
        let j = choose|j: int| faulty(env, pcimap, j);
        assert(faulty(env, pcimap, j));
        assert(!(name_end(env[j]) is Some) || holds_list(name_of(env[j])));
    }
}

proof fn lemma_all_hosts_known(
    hosts: Seq<Seq<char>>,
    name: Seq<char>,
    pcimap: Map<Address, Address>,
)
    requires
        forall|k: int|
            0 <= k < hosts.len() ==> {
                let host = address_denoted(#[trigger] hosts[k]);
                host is Ok && pcimap.contains_key(host->Ok_0)
            },
    ensures
        guest_texts(hosts, name, pcimap) is Ok,
    decreases hosts.len(),
{
    if hosts.len() > 0 {
        let front = hosts.drop_last();
        assert forall|k: int| 0 <= k < front.len() implies {
            let host = address_denoted(#[trigger] front[k]);
            host is Ok && pcimap.contains_key(host->Ok_0)
        } by {
            assert(front[k] == hosts[k]);
        }
        lemma_all_hosts_known(front, name, pcimap);
        assert(hosts.last() == hosts[hosts.len() - 1]);
    }
}

} // verus!
