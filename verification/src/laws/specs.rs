//! What correcting a container's specification does to its devices and rules.
use crate::error::{DeviceErrorView, Fault};
use crate::info::{DevUpdate, DeviceInfoView};
use crate::oci::{
    type_letter, type_reads_back, LinuxDeviceCgroupView, LinuxDeviceType, LinuxDeviceView, SpecView,
};
use crate::spec_devices::{
    conflicts, devices_after, first_conflict, host_key, host_spec_updated, linux_updated, listed,
    missing, names, rule_after, rule_for, rule_inserted, rule_key, spec_updated, updated,
};
use vstd::prelude::*;

verus! {

/// Whether these are the devices of the specification.
pub open spec fn has_devices(spec: SpecView, devices: Seq<LinuxDeviceView>) -> bool {
    &&& spec.linux is Some
    &&& match spec.linux->0.devices {
        Some(list) => list == devices,
        None => devices.len() == 0,
    }
}

/// Whether there is an update for the path of device `i`, and no device before it
/// has that path.
pub open spec fn meant(
    devices: Seq<LinuxDeviceView>,
    updates: Map<Seq<char>, DevUpdate>,
    i: int,
) -> bool {
    &&& 0 <= i < devices.len()
    &&& updates.contains_key(devices[i].path)
    &&& forall|j: int| 0 <= j < i ==> (#[trigger] devices[j]).path != devices[i].path
}

/// Whether device `after` is device `before` with the numbers and the path of the
/// update.
pub open spec fn is_updated(
    before: LinuxDeviceView,
    update: DevUpdate,
    after: LinuxDeviceView,
) -> bool {
    &&& after.typ == before.typ
    &&& after.major == update.info.guest_major
    &&& after.minor == update.info.guest_minor
    &&& match update.final_path {
        Some(path) => after.path == path@,
        None => after.path == before.path,
    }
}

/// Whether the rule is on the type and the numbers of the device. A rule without
/// a type is one on all types.
pub open spec fn is_on(rule: LinuxDeviceCgroupView, device: LinuxDeviceView) -> bool {
    &&& rule.major == Some(device.major)
    &&& rule.minor == Some(device.minor)
    &&& match rule.typ {
        Some(typ) => typ == device.typ,
        None => device.typ == LinuxDeviceType::A,
    }
}

/// Whether no device has the path.
pub open spec fn unplaced(devices: Seq<LinuxDeviceView>, path: Seq<char>) -> bool {
    forall|i: int| 0 <= i < devices.len() ==> (#[trigger] devices[i]).path != path
}

/// Whether two devices that updates are meant for are one device of the host.
pub open spec fn clash(
    devices: Seq<LinuxDeviceView>,
    updates: Map<Seq<char>, DevUpdate>,
    i: int,
    j: int,
) -> bool {
    &&& i < j
    &&& meant(devices, updates, i)
    &&& meant(devices, updates, j)
    &&& devices[i].typ == devices[j].typ
    &&& devices[i].major == devices[j].major
    &&& devices[i].minor == devices[j].minor
}

proof fn lemma_same_type(a: LinuxDeviceType, b: LinuxDeviceType)
    ensures
        type_letter(a) == type_letter(b) <==> a == b,
{
    type_reads_back(a);
    type_reads_back(b);
}

proof fn lemma_conflict_is_clash(
    devices: Seq<LinuxDeviceView>,
    updates: Map<Seq<char>, DevUpdate>,
    j: int,
)
    ensures
        conflicts(devices, updates, j) <==> exists|i: int| 0 <= i && clash(devices, updates, i, j),
{
    if conflicts(devices, updates, j) {
        let i = choose|i: int|
            0 <= i < j && #[trigger] updated(devices, updates, i) && host_key(devices[i])
                == host_key(devices[j]);
        lemma_same_type(devices[i].typ, devices[j].typ);
        assert(clash(devices, updates, i, j));
    }
    if exists|i: int| 0 <= i && clash(devices, updates, i, j) {
        let i = choose|i: int| 0 <= i && clash(devices, updates, i, j);
        assert(updated(devices, updates, i));
        assert(updated(devices, updates, j));
        assert(host_key(devices[i]) == host_key(devices[j]));
    }
}

proof fn lemma_first_clash(
    devices: Seq<LinuxDeviceView>,
    updates: Map<Seq<char>, DevUpdate>,
    j: int,
) -> (f: int)
    requires
        conflicts(devices, updates, j),
    ensures
        first_conflict(devices, updates, f),
    decreases j,
{
    if exists|k: int| 0 <= k < j && conflicts(devices, updates, k) {
        let k = choose|k: int| 0 <= k < j && conflicts(devices, updates, k);
        lemma_first_clash(devices, updates, k)
    } else {
        j
    }
}

/// When an update succeeds, and what it says otherwise. It fails without a Linux
/// section; where two devices that updates are meant for are one device of the
/// host, with the numbers of the first device that is one too many; and where
/// there is no device for an update, with the paths of these updates in the
/// order in which they came in. In all other cases it succeeds.
pub proof fn update_outcome(
    spec: SpecView,
    devices: Seq<LinuxDeviceView>,
    updates: Map<Seq<char>, DevUpdate>,
    keys: Seq<Seq<char>>,
)
    requires
        spec.linux is Some ==> has_devices(spec, devices),
    ensures
        ({
            let result = spec_updated(spec, updates, keys).1;
            let clashing = exists|i: int, j: int| 0 <= i && clash(devices, updates, i, j);
            let lost = exists|k: int| 0 <= k < keys.len() && unplaced(devices, #[trigger] keys[k]);
            &&& spec.linux is None ==> result == Err::<(), DeviceErrorView>(Fault::NoLinux)
            &&& spec.linux is Some && clashing ==> exists|i: int, j: int|
                {
                    &&& 0 <= i && #[trigger] clash(devices, updates, i, j)
                    &&& forall|h: int, k: int| 0 <= h && k < j ==> !clash(devices, updates, h, k)
                    &&& result == Err::<(), DeviceErrorView>(
                        Fault::ResourceConflict { major: devices[j].major, minor: devices[j].minor },
                    )
                }
            &&& spec.linux is Some && !clashing && lost ==> result == Err::<
                (),
                DeviceErrorView,
            >(
                Fault::MissingDevices {
                    paths: keys.filter(|key: Seq<char>| unplaced(devices, key)),
                },
            )
            &&& spec.linux is Some && !clashing && !lost ==> result == Ok::<
                (),
                DeviceErrorView,
            >(())
        }),
{
    if spec.linux is Some {
        assert(listed(spec.linux->0) =~= devices);
        let own = |key: Seq<char>| unplaced(devices, key);
        let theirs = |key: Seq<char>| !names(devices, key);
        assert forall|key: Seq<char>| #[trigger] own(key) == theirs(key) by {
            if names(devices, key) {
                let i = choose|i: int|
                    0 <= i < devices.len() && (#[trigger] devices[i]).path == key;
                assert(devices[i].path == key);
            }
        }
        lemma_same_filter(keys, own, theirs);
        assert(missing(keys, devices) == keys.filter(own));
        assert forall|j: int| conflicts(devices, updates, j) <==> exists|i: int|
            0 <= i && clash(devices, updates, i, j) by {
            lemma_conflict_is_clash(devices, updates, j);
        }
        if exists|j: int| conflicts(devices, updates, j) {
            let j = choose|j: int| conflicts(devices, updates, j);
            let f = lemma_first_clash(devices, updates, j);
            let c = choose|c: int| first_conflict(devices, updates, c);
            assert(first_conflict(devices, updates, c));
            assert(conflicts(devices, updates, f) && conflicts(devices, updates, c));
            assert(c == f);
            let i = choose|i: int| 0 <= i && clash(devices, updates, i, c);
            assert(clash(devices, updates, i, c));
            assert forall|h: int, k: int| 0 <= h && k < c implies !clash(devices, updates, h, k) by {
                if clash(devices, updates, h, k) {
                    assert(conflicts(devices, updates, k));
                }
            }
        } else {
            assert forall|i: int, j: int| 0 <= i implies !clash(devices, updates, i, j) by {
                if clash(devices, updates, i, j) {
                    assert(conflicts(devices, updates, j));
                }
            }
            lemma_filter_empty(keys, own);
            if exists|k: int| 0 <= k < keys.len() && unplaced(devices, #[trigger] keys[k]) {
                let k = choose|k: int| 0 <= k < keys.len() && unplaced(devices, #[trigger] keys[k]);
                assert(own(keys[k]));
            }
        }
    }
}

proof fn lemma_same_filter<A>(s: Seq<A>, p: spec_fn(A) -> bool, q: spec_fn(A) -> bool)
    requires
        forall|a: A| #[trigger] p(a) == q(a),
    ensures
        s.filter(p) == s.filter(q),
    decreases s.len(),
{
    reveal(Seq::filter);
    if s.len() > 0 {
        lemma_same_filter(s.drop_last(), p, q);
        assert(p(s.last()) == q(s.last()));
    }
}

proof fn lemma_filter_empty<A>(s: Seq<A>, p: spec_fn(A) -> bool)
    ensures
        s.filter(p).len() > 0 <==> exists|k: int| 0 <= k < s.len() && p(#[trigger] s[k]),
    decreases s.len(),
{
    reveal(Seq::filter);
    if s.len() > 0 {
        let front = s.drop_last();
        lemma_filter_empty(front, p);
        assert(s.last() == s[s.len() - 1]);
        if exists|k: int| 0 <= k < front.len() && p(#[trigger] front[k]) {
            let k = choose|k: int| 0 <= k < front.len() && p(#[trigger] front[k]);
            assert(p(s[k]));
        }
        if exists|k: int| 0 <= k < s.len() && p(#[trigger] s[k]) {
            let k = choose|k: int| 0 <= k < s.len() && p(#[trigger] s[k]);
            if k < front.len() {
                assert(p(front[k]));
            }
        }
    }
}

/// An update that gets as far as the last device gives the first device with a
/// path that there is an update for the numbers of the guest and the new path,
/// and leaves every other device as it is. Nothing else of the specification
/// changes but the rules.
pub proof fn devices_get_guest_numbers(
    spec: SpecView,
    devices: Seq<LinuxDeviceView>,
    updates: Map<Seq<char>, DevUpdate>,
    keys: Seq<Seq<char>>,
)
    requires
        spec.linux is Some,
        spec.linux->0.devices == Some(devices),
        spec_updated(spec, updates, keys).1 matches Err(e) ==> e is MissingDevices,
    ensures
        ({
            let after = spec_updated(spec, updates, keys).0;
            let now = after.linux->0.devices->0;
            &&& after.process == spec.process
            &&& after.linux is Some && after.linux->0.devices is Some
            &&& now.len() == devices.len()
            &&& forall|i: int|
                meant(devices, updates, i) ==> is_updated(
                    #[trigger] devices[i],
                    updates[devices[i].path],
                    now[i],
                )
            &&& forall|i: int|
                0 <= i < devices.len() && !meant(devices, updates, i) ==> #[trigger] now[i]
                    == devices[i]
        }),
{
    lemma_no_conflict_unless(spec, devices, updates, keys);
    let now = spec_updated(spec, updates, keys).0.linux->0.devices->0;
    assert forall|i: int| meant(devices, updates, i) implies is_updated(
        #[trigger] devices[i],
        updates[devices[i].path],
        now[i],
    ) by {
        assert(updated(devices, updates, i));
    }
    assert forall|i: int|
        0 <= i < devices.len() && !meant(devices, updates, i) implies #[trigger] now[i]
        == devices[i] by {
        assert(!updated(devices, updates, i));
    }
}

proof fn lemma_no_conflict_unless(
    spec: SpecView,
    devices: Seq<LinuxDeviceView>,
    updates: Map<Seq<char>, DevUpdate>,
    keys: Seq<Seq<char>>,
)
    requires
        has_devices(spec, devices),
        spec_updated(spec, updates, keys).1 matches Err(e) ==> e is MissingDevices,
    ensures
        forall|i: int| !conflicts(devices, updates, i),
{
    assert(listed(spec.linux->0) =~= devices);
    if exists|i: int| conflicts(devices, updates, i) {
        assert(linux_updated(spec.linux->0, updates, keys, 0).1 is Err);
    }
}

/// An update that ends with a device that is one too many has treated the devices
/// up to that one as it would have otherwise, and none behind it.
pub proof fn clashing_update_stops(
    spec: SpecView,
    devices: Seq<LinuxDeviceView>,
    updates: Map<Seq<char>, DevUpdate>,
    keys: Seq<Seq<char>>,
    h: int,
    j: int,
)
    requires
        spec.linux is Some,
        spec.linux->0.devices == Some(devices),
        0 <= h,
        clash(devices, updates, h, j),
        forall|i: int, k: int| 0 <= i && k < j ==> !clash(devices, updates, i, k),
    ensures
        ({
            let after = spec_updated(spec, updates, keys).0;
            let now = after.linux->0.devices->0;
            &&& after.process == spec.process
            &&& after.linux->0.devices is Some
            &&& now.len() == devices.len()
            &&& forall|i: int|
                meant(devices, updates, i) && i <= j ==> is_updated(
                    #[trigger] devices[i],
                    updates[devices[i].path],
                    now[i],
                )
            &&& forall|i: int|
                0 <= i < devices.len() && (i > j || !meant(devices, updates, i))
                    ==> #[trigger] now[i] == devices[i]
        }),
{
    lemma_conflict_is_clash(devices, updates, j);
    assert forall|k: int| 0 <= k < j implies !#[trigger] conflicts(devices, updates, k) by {
        lemma_conflict_is_clash(devices, updates, k);
    }
    assert(first_conflict(devices, updates, j));
    let c = choose|c: int| first_conflict(devices, updates, c);
    assert(first_conflict(devices, updates, c));
    assert(conflicts(devices, updates, c) && conflicts(devices, updates, j));
    assert(c == j);
    let now = spec_updated(spec, updates, keys).0.linux->0.devices->0;
    assert(now == devices_after(devices, updates, j + 1));
    assert forall|i: int| meant(devices, updates, i) && i <= j implies is_updated(
        #[trigger] devices[i],
        updates[devices[i].path],
        now[i],
    ) by {
        assert(updated(devices, updates, i));
    }
    assert forall|i: int|
        0 <= i < devices.len() && (i > j || !meant(devices, updates, i)) implies #[trigger] now[i]
        == devices[i] by {
        if i <= j {
            assert(!updated(devices, updates, i));
        }
    }
}

/// After an update that succeeds, every rule on the host device of a device that
/// was updated is on that device's numbers in the guest, whatever it allows or
/// denies. Every other rule is as it was. Of no rule anything else changes.
pub proof fn rules_get_guest_numbers(
    spec: SpecView,
    devices: Seq<LinuxDeviceView>,
    rules: Seq<LinuxDeviceCgroupView>,
    updates: Map<Seq<char>, DevUpdate>,
    keys: Seq<Seq<char>>,
    r: int,
)
    requires
        has_devices(spec, devices),
        spec.linux->0.resources == Some(Some(rules)),
        spec_updated(spec, updates, keys).1 is Ok,
        0 <= r < rules.len(),
    ensures
        ({
            let after = spec_updated(spec, updates, keys).0.linux->0;
            let now = after.resources->0->0;
            &&& after.resources is Some && after.resources->0 is Some
            &&& now.len() == rules.len()
            &&& now[r].allow == rules[r].allow
            &&& now[r].typ == rules[r].typ
            &&& now[r].access == rules[r].access
            &&& forall|i: int|
                meant(devices, updates, i) && is_on(rules[r], #[trigger] devices[i]) ==> {
                    &&& now[r].major == Some(updates[devices[i].path].info.guest_major)
                    &&& now[r].minor == Some(updates[devices[i].path].info.guest_minor)
                }
            &&& (forall|i: int|
                meant(devices, updates, i) ==> !is_on(rules[r], #[trigger] devices[i]))
                ==> now[r] == rules[r]
        }),
{
    lemma_no_conflict_unless(spec, devices, updates, keys);
    assert(listed(spec.linux->0) =~= devices);
    let rule = rules[r];
    assert forall|i: int| rule_for(rule, devices, updates, i) <==> meant(devices, updates, i)
        && is_on(rule, devices[i]) by {
        lemma_rule_is_on(rule, devices[i]);
        assert(updated(devices, updates, i) == meant(devices, updates, i));
    }
    let now = spec_updated(spec, updates, keys).0.linux->0.resources->0->0;
    assert(now[r] == rule_after(rule, devices, updates));
    assert forall|i: int|
        meant(devices, updates, i) && is_on(rule, #[trigger] devices[i]) implies now[r].major
        == Some(updates[devices[i].path].info.guest_major) && now[r].minor == Some(
        updates[devices[i].path].info.guest_minor,
    ) by {
        assert(rule_for(rule, devices, updates, i));
        let c = choose|c: int| rule_for(rule, devices, updates, c);
        assert(rule_for(rule, devices, updates, c));
        lemma_rule_is_on(rule, devices[c]);
        if i < c {
            assert(clash(devices, updates, i, c));
            lemma_conflict_is_clash(devices, updates, c);
        } else if c < i {
            assert(clash(devices, updates, c, i));
            lemma_conflict_is_clash(devices, updates, i);
        }
    }
    if forall|i: int| meant(devices, updates, i) ==> !is_on(rule, #[trigger] devices[i]) {
        assert forall|i: int| !rule_for(rule, devices, updates, i) by {
            if rule_for(rule, devices, updates, i) {
                assert(is_on(rule, devices[i]));
            }
        }
    }
}

proof fn lemma_rule_is_on(rule: LinuxDeviceCgroupView, device: LinuxDeviceView)
    ensures
        rule_key(rule) == Some(host_key(device)) <==> is_on(rule, device),
{
    let typ = match rule.typ {
        Some(typ) => typ,
        None => LinuxDeviceType::A,
    };
    lemma_same_type(typ, device.typ);
}

/// An update that fails leaves all rules as they are, and no update makes or
/// takes away lists of devices or rules.
pub proof fn failed_update_keeps_rules(
    spec: SpecView,
    updates: Map<Seq<char>, DevUpdate>,
    keys: Seq<Seq<char>>,
)
    ensures
        ({
            let (after, result) = spec_updated(spec, updates, keys);
            &&& result is Err && spec.linux is Some ==> after.linux is Some
                && after.linux->0.resources == spec.linux->0.resources
            &&& spec.linux is None ==> after == spec
            &&& spec.linux is Some && spec.linux->0.devices is None ==> after.linux->0.devices is None
            &&& spec.linux is Some && spec.linux->0.resources is None
                ==> after.linux->0.resources is None
            &&& spec.linux is Some && spec.linux->0.resources == Some(
                None::<Seq<LinuxDeviceCgroupView>>,
            ) ==> after.linux->0.resources == spec.linux->0.resources
        }),
{
}

/// An update that is told that the last `fresh` rules speak of the guest already
/// differs from one that is not told so only in that it leaves these rules as
/// they are.
pub proof fn fresh_rules_are_left(
    spec: SpecView,
    updates: Map<Seq<char>, DevUpdate>,
    keys: Seq<Seq<char>>,
    fresh: nat,
)
    ensures
        ({
            let (after, result) = host_spec_updated(spec, updates, keys, fresh);
            let (all, whole) = spec_updated(spec, updates, keys);
            &&& result == whole
            &&& after.process == all.process
            &&& after.linux is Some == all.linux is Some
            &&& after.linux is Some ==> after.linux->0.devices == all.linux->0.devices
            &&& after.linux is Some ==> match (spec.linux->0.resources) {
                Some(Some(rules)) => {
                    let now = after.linux->0.resources->0->0;
                    &&& after.linux->0.resources is Some && after.linux->0.resources->0 is Some
                    &&& now.len() == rules.len()
                    &&& forall|r: int|
                        0 <= r < rules.len() ==> #[trigger] now[r] == (if r + fresh < rules.len() {
                            all.linux->0.resources->0->0[r]
                        } else {
                            rules[r]
                        })
                },
                other => after.linux->0.resources == other,
            }
        }),
{
}

/// Inserting a rule puts one rule, on the device's numbers and with what was asked
/// for, behind the rules that are there; nothing else changes. It succeeds exactly
/// where there is a Linux section and the device's type is one of the five
/// letters.
pub proof fn one_rule_is_inserted(
    spec: SpecView,
    info: DeviceInfoView,
    allow: bool,
    access: Seq<char>,
)
    ensures
        ({
            let (after, result) = rule_inserted(spec, info, allow, access);
            let known = info.cgroup_type == "a"@ || info.cgroup_type == "b"@ || info.cgroup_type
                == "c"@ || info.cgroup_type == "u"@ || info.cgroup_type == "p"@;
            let old_rules = match spec.linux->0.resources {
                Some(Some(rules)) => rules,
                _ => Seq::empty(),
            };
            let rules = after.linux->0.resources->0->0;
            &&& spec.linux is None ==> result == Err::<(), DeviceErrorView>(Fault::NoLinux)
            &&& spec.linux is Some && !known ==> result == Err::<(), DeviceErrorView>(
                Fault::DeviceType { name: info.cgroup_type },
            )
            &&& result is Err ==> after == spec
            &&& spec.linux is Some && known ==> {
                &&& result == Ok::<(), DeviceErrorView>(())
                &&& after.process == spec.process
                &&& after.linux is Some
                &&& after.linux->0.devices == spec.linux->0.devices
                &&& after.linux->0.resources is Some && after.linux->0.resources->0 is Some
                &&& rules.len() == old_rules.len() + 1
                &&& forall|r: int| 0 <= r < old_rules.len() ==> #[trigger] rules[r] == old_rules[r]
                &&& rules.last().allow == allow
                &&& rules.last().access == Some(access)
                &&& rules.last().major == Some(info.guest_major)
                &&& rules.last().minor == Some(info.guest_minor)
                &&& (info.cgroup_type == "a"@ ==> rules.last().typ == Some(LinuxDeviceType::A))
                &&& (info.cgroup_type == "b"@ ==> rules.last().typ == Some(LinuxDeviceType::B))
                &&& (info.cgroup_type == "c"@ ==> rules.last().typ == Some(LinuxDeviceType::C))
                &&& (info.cgroup_type == "u"@ ==> rules.last().typ == Some(LinuxDeviceType::U))
                &&& (info.cgroup_type == "p"@ ==> rules.last().typ == Some(LinuxDeviceType::P))
            }
        }),
{
    reveal_strlit("a");
    reveal_strlit("b");
    reveal_strlit("c");
    reveal_strlit("u");
    reveal_strlit("p");
    assert("a"@ =~= seq!['a']);
    assert("b"@ =~= seq!['b']);
    assert("c"@ =~= seq!['c']);
    assert("u"@ =~= seq!['u']);
    assert("p"@ =~= seq!['p']);
    assert("a"@[0] == 'a' && "b"@[0] == 'b' && "c"@[0] == 'c' && "u"@[0] == 'u' && "p"@[0] == 'p');
}

} // verus!
