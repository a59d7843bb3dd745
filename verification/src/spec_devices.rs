//! Corrects the devices of a container's specification for the guest.
use crate::error::{outcome, DeviceError, DeviceErrorView, Fault};
use crate::info::{DevUpdate, DeviceInfo, DeviceInfoView};
use crate::keymap::{Key, KeyMap};
use crate::oci::{
    default_type, device_views, name_of_type, parse_type, rule_views, type_letter, type_named,
    LinuxDevice, LinuxDeviceCgroup, LinuxDeviceCgroupView, LinuxDeviceType, LinuxDeviceView,
    LinuxResources, LinuxView, Spec, SpecView,
};
use vstd::prelude::*;

verus! {

/// Updates, each under the path of its device in the container.
pub type UpdateMap = KeyMap<String, DevUpdate>;

/// What a device rule names: the letter of a device type, a major and a minor
/// number.
pub struct ResourceKey {
    pub typ: String,
    pub major: i64,
    pub minor: i64,
}

impl View for ResourceKey {
    type V = (Seq<char>, i64, i64);

    open spec fn view(&self) -> (Seq<char>, i64, i64) {
        (self.typ@, self.major, self.minor)
    }
}

impl Key for ResourceKey {
    fn same(&self, other: &Self) -> (r: bool) {
        self.typ == other.typ && self.major == other.major && self.minor == other.minor
    }
}

/// Guest devices, each under the key of the host device that it stands for.
pub type ResourceMap = KeyMap<ResourceKey, DeviceInfo>;

/// Whether one of the devices has the path.
pub open spec fn names(devices: Seq<LinuxDeviceView>, path: Seq<char>) -> bool {
    exists|i: int| 0 <= i < devices.len() && (#[trigger] devices[i]).path == path
}

/// Whether device `i` is the one that the update for its path is meant for:
/// the first device with that path.
pub open spec fn updated(
    devices: Seq<LinuxDeviceView>,
    updates: Map<Seq<char>, DevUpdate>,
    i: int,
) -> bool {
    &&& 0 <= i < devices.len()
    &&& updates.contains_key(devices[i].path)
    &&& forall|j: int| 0 <= j < i ==> (#[trigger] devices[j]).path != devices[i].path
}

/// What a rule on the device names.
pub open spec fn host_key(d: LinuxDeviceView) -> (Seq<char>, i64, i64) {
    (type_letter(d.typ), d.major, d.minor)
}

/// Whether device `i` is updated and names the same host device as one updated
/// before it.
pub open spec fn conflicts(
    devices: Seq<LinuxDeviceView>,
    updates: Map<Seq<char>, DevUpdate>,
    i: int,
) -> bool {
    &&& updated(devices, updates, i)
    &&& exists|j: int|
        0 <= j < i && #[trigger] updated(devices, updates, j) && host_key(devices[j]) == host_key(
            devices[i],
        )
}

/// Whether device `i` is the first that conflicts with one before it.
pub open spec fn first_conflict(
    devices: Seq<LinuxDeviceView>,
    updates: Map<Seq<char>, DevUpdate>,
    i: int,
) -> bool {
    &&& conflicts(devices, updates, i)
    &&& forall|j: int| 0 <= j < i ==> !#[trigger] conflicts(devices, updates, j)
}

/// The device with its numbers in the guest and, where the update has one, its
/// new path.
pub open spec fn with_update(d: LinuxDeviceView, update: DevUpdate) -> LinuxDeviceView {
    LinuxDeviceView {
        path: match update.final_path {
            Some(path) => path@,
            None => d.path,
        },
        typ: d.typ,
        major: update.info.guest_major,
        minor: update.info.guest_minor,
    }
}

/// The devices after those before place `upto` had their updates.
pub open spec fn devices_after(
    devices: Seq<LinuxDeviceView>,
    updates: Map<Seq<char>, DevUpdate>,
    upto: int,
) -> Seq<LinuxDeviceView> {
    Seq::new(
        devices.len(),
        |i: int|
            if i < upto && updated(devices, updates, i) {
                with_update(devices[i], updates[devices[i].path])
            } else {
                devices[i]
            },
    )
}

/// What the rule names, where it names one device. A rule without a type is
/// one on all types.
pub open spec fn rule_key(rule: LinuxDeviceCgroupView) -> Option<(Seq<char>, i64, i64)> {
    match (rule.major, rule.minor) {
        (Some(major), Some(minor)) => Some(
            (
                type_letter(
                    match rule.typ {
                        Some(typ) => typ,
                        None => LinuxDeviceType::A,
                    },
                ),
                major,
                minor,
            ),
        ),
        _ => None,
    }
}

/// Whether the rule names the host device that updated device `i` stood for.
pub open spec fn rule_for(
    rule: LinuxDeviceCgroupView,
    devices: Seq<LinuxDeviceView>,
    updates: Map<Seq<char>, DevUpdate>,
    i: int,
) -> bool {
    updated(devices, updates, i) && rule_key(rule) == Some(host_key(devices[i]))
}

/// The rule, with the numbers in the guest of the updated device that it names,
/// if there is one. `devices` are those before the update.
pub open spec fn rule_after(
    rule: LinuxDeviceCgroupView,
    devices: Seq<LinuxDeviceView>,
    updates: Map<Seq<char>, DevUpdate>,
) -> LinuxDeviceCgroupView {
    if exists|i: int| rule_for(rule, devices, updates, i) {
        let i = choose|i: int| rule_for(rule, devices, updates, i);
        let info = updates[devices[i].path].info;
        LinuxDeviceCgroupView {
            major: Some(info.guest_major),
            minor: Some(info.guest_minor),
            ..rule
        }
    } else {
        rule
    }
}

/// The rules after the update.
pub open spec fn rules_after(
    rules: Seq<LinuxDeviceCgroupView>,
    devices: Seq<LinuxDeviceView>,
    updates: Map<Seq<char>, DevUpdate>,
) -> Seq<LinuxDeviceCgroupView> {
    rules.map_values(|rule: LinuxDeviceCgroupView| rule_after(rule, devices, updates))
}

/// The rules after an update that leaves the last `fresh` of them alone: these
/// speak of the guest already.
pub open spec fn host_rules_after(
    rules: Seq<LinuxDeviceCgroupView>,
    devices: Seq<LinuxDeviceView>,
    updates: Map<Seq<char>, DevUpdate>,
    fresh: nat,
) -> Seq<LinuxDeviceCgroupView> {
    Seq::new(
        rules.len(),
        |r: int|
            if r + fresh < rules.len() {
                rule_after(rules[r], devices, updates)
            } else {
                rules[r]
            },
    )
}

/// The devices of the section; none where it has no list of them.
pub open spec fn listed(linux: LinuxView) -> Seq<LinuxDeviceView> {
    match linux.devices {
        Some(devices) => devices,
        None => Seq::empty(),
    }
}

/// The paths for which there is an update but no device, in the order in which
/// the updates came in.
pub open spec fn missing(keys: Seq<Seq<char>>, devices: Seq<LinuxDeviceView>) -> Seq<Seq<char>> {
    keys.filter(|k: Seq<char>| !names(devices, k))
}

/// The section with the devices before place `upto` updated.
pub open spec fn with_devices(
    linux: LinuxView,
    updates: Map<Seq<char>, DevUpdate>,
    upto: int,
) -> LinuxView {
    LinuxView {
        devices: match linux.devices {
            Some(devices) => Some(devices_after(devices, updates, upto)),
            None => None,
        },
        resources: linux.resources,
    }
}

/// The section with its rules updated, but for the last `fresh` of them.
pub open spec fn with_rules(
    linux: LinuxView,
    devices: Seq<LinuxDeviceView>,
    updates: Map<Seq<char>, DevUpdate>,
    fresh: nat,
) -> LinuxView {
    LinuxView {
        devices: linux.devices,
        resources: match linux.resources {
            Some(Some(rules)) => Some(Some(host_rules_after(rules, devices, updates, fresh))),
            other => other,
        },
    }
}

/// The section that an update leaves behind, and its outcome. A conflict ends
/// the update with the device that caused it, and an update without a device
/// ends it before the rules. The last `fresh` rules speak of the guest already.
pub open spec fn linux_updated(
    linux: LinuxView,
    updates: Map<Seq<char>, DevUpdate>,
    keys: Seq<Seq<char>>,
    fresh: nat,
) -> (LinuxView, Result<(), DeviceErrorView>) {
    let devices = listed(linux);
    let all = with_devices(linux, updates, devices.len() as int);
    if exists|i: int| conflicts(devices, updates, i) {
        let i = choose|i: int| first_conflict(devices, updates, i);
        (
            with_devices(linux, updates, i + 1),
            Err(
                Fault::ResourceConflict { major: devices[i].major, minor: devices[i].minor },
            ),
        )
    } else if missing(keys, devices).len() > 0 {
        (all, Err(Fault::MissingDevices { paths: missing(keys, devices) }))
    } else {
        (with_rules(all, devices, updates, fresh), Ok(()))
    }
}

/// The specification that an update leaves behind, and its outcome.
pub open spec fn spec_updated(
    spec: SpecView,
    updates: Map<Seq<char>, DevUpdate>,
    keys: Seq<Seq<char>>,
) -> (SpecView, Result<(), DeviceErrorView>) {
    host_spec_updated(spec, updates, keys, 0)
}

/// The specification that an update leaves behind, and its outcome, where the
/// last `fresh` rules speak of the guest already.
pub open spec fn host_spec_updated(
    spec: SpecView,
    updates: Map<Seq<char>, DevUpdate>,
    keys: Seq<Seq<char>>,
    fresh: nat,
) -> (SpecView, Result<(), DeviceErrorView>) {
    match spec.linux {
        None => (spec, Err(Fault::NoLinux)),
        Some(linux) => {
            let (after, result) = linux_updated(linux, updates, keys, fresh);
            (SpecView { linux: Some(after), process: spec.process }, result)
        },
    }
}

proof fn lemma_remove_value_push<A>(s: Seq<A>, l: A, x: A)
    ensures
        l != x ==> s.push(l).remove_value(x) == s.remove_value(x).push(l),
        l == x && !s.contains(x) ==> s.push(l).remove_value(x) == s,
{
    let t = s.push(l);
    s.index_of_first_ensures(x);
    t.index_of_first_ensures(x);
    assert(t[s.len() as int] == l);
    if s.contains(x) {
        let i = s.index_of_first(x)->0;
        assert(t[i] == x);
        let j = t.index_of_first(x)->0;
        if j < i {
            assert(s[j] == t[j]);
        }
        assert(i == j);
        assert(l != x ==> t.remove(i) =~= s.remove(i).push(l));
    } else if l == x {
        let j = t.index_of_first(x)->0;
        if j < s.len() {
            assert(s[j] == t[j]);
        }
        assert(t.remove(j) =~= s);
    } else if t.contains(x) {
        let j = choose|j: int| 0 <= j < t.len() && t[j] == x;
        assert(s[j] == t[j]);
    }
}

proof fn lemma_filter_remove<A>(s: Seq<A>, p: spec_fn(A) -> bool, q: spec_fn(A) -> bool, x: A)
    requires
        s.no_duplicates(),
        forall|k: A| q(k) == (#[trigger] p(k) && k != x),
    ensures
        s.filter(q) == s.filter(p).remove_value(x),
    decreases s.len(),
{
    reveal(Seq::filter);
    if s.len() == 0 {
        s.index_of_first_ensures(x);
    } else {
        let front = s.drop_last();
        let l = s.last();
        assert(front.no_duplicates());
        lemma_filter_remove(front, p, q, x);
        lemma_remove_value_push(front.filter(p), l, x);
        assert(q(l) == (p(l) && l != x));
        if l == x && front.filter(p).contains(x) {
            front.lemma_filter_contains_rev(p, x);
            let j = choose|j: int| 0 <= j < front.len() && front[j] == x;
            assert(s[j] == s[s.len() - 1]);
        }
        if l == x {
            front.filter(p).index_of_first_ensures(x);
        }
    }
}

proof fn lemma_filter_true<A>(s: Seq<A>, p: spec_fn(A) -> bool)
    requires
        forall|i: int| 0 <= i < s.len() ==> p(#[trigger] s[i]),
    ensures
        s.filter(p) == s,
    decreases s.len(),
{
    reveal(Seq::filter);
    if s.len() > 0 {
        assert forall|i: int| 0 <= i < s.drop_last().len() implies p(
            #[trigger] s.drop_last()[i],
        ) by {
            assert(s.drop_last()[i] == s[i]);
        }
        lemma_filter_true(s.drop_last(), p);
        assert(p(s[s.len() - 1]));
        assert(s.drop_last().push(s.last()) =~= s);
    }
}

proof fn lemma_missing_start(keys: Seq<Seq<char>>, devices: Seq<LinuxDeviceView>)
    ensures
        missing(keys, devices.take(0)) == keys,
{
    lemma_filter_true(keys, |k: Seq<char>| !names(devices.take(0), k));
}

proof fn lemma_names_step(devices: Seq<LinuxDeviceView>, i: int, k: Seq<char>)
    requires
        0 <= i < devices.len(),
    ensures
        names(devices.take(i + 1), k) == (names(devices.take(i), k) || devices[i].path == k),
{
    let short = devices.take(i);
    let long = devices.take(i + 1);
    if names(short, k) {
        let j = choose|j: int| 0 <= j < short.len() && (#[trigger] short[j]).path == k;
        assert(long[j].path == k);
    }
    if devices[i].path == k {
        assert(long[i].path == k);
    }
    if names(long, k) {
        let j = choose|j: int| 0 <= j < long.len() && (#[trigger] long[j]).path == k;
        if j < i {
            assert(short[j].path == k);
        }
    }
}

proof fn lemma_missing_step(keys: Seq<Seq<char>>, devices: Seq<LinuxDeviceView>, i: int)
    requires
        keys.no_duplicates(),
        0 <= i < devices.len(),
    ensures
        missing(keys, devices.take(i + 1)) == missing(keys, devices.take(i)).remove_value(
            devices[i].path,
        ),
{
    let p = |k: Seq<char>| !names(devices.take(i), k);
    let q = |k: Seq<char>| !names(devices.take(i + 1), k);
    assert forall|k: Seq<char>| q(k) == (#[trigger] p(k) && k != devices[i].path) by {
        lemma_names_step(devices, i, k);
    }
    lemma_filter_remove(keys, p, q, devices[i].path);
}

/// The updates that are left when the devices before place `upto` have taken
/// theirs.
spec fn left_over(
    left: Map<Seq<char>, DevUpdate>,
    devices: Seq<LinuxDeviceView>,
    updates: Map<Seq<char>, DevUpdate>,
    upto: int,
) -> bool {
    &&& forall|k: Seq<char>| #[trigger]
        left.contains_key(k) <==> updates.contains_key(k) && !names(devices.take(upto), k)
    &&& forall|k: Seq<char>| #[trigger] left.contains_key(k) ==> left[k] == updates[k]
}

/// The guest devices that the updated devices before place `upto` stand for.
spec fn gathered(
    resources: Map<(Seq<char>, i64, i64), DeviceInfo>,
    devices: Seq<LinuxDeviceView>,
    updates: Map<Seq<char>, DevUpdate>,
    upto: int,
) -> bool {
    &&& forall|k: (Seq<char>, i64, i64)| #[trigger]
        resources.contains_key(k) ==> exists|j: int|
            0 <= j < upto && #[trigger] updated(devices, updates, j) && host_key(devices[j]) == k
    &&& forall|j: int|
        0 <= j < upto && #[trigger] updated(devices, updates, j) ==> resources.contains_key(
            host_key(devices[j]),
        ) && resources[host_key(devices[j])] == updates[devices[j].path].info
}

/// Device `i` is the one its update is meant for exactly where the update has
/// not been taken yet.
proof fn lemma_updated_at(
    left: Map<Seq<char>, DevUpdate>,
    devices: Seq<LinuxDeviceView>,
    updates: Map<Seq<char>, DevUpdate>,
    i: int,
)
    requires
        left_over(left, devices, updates, i),
        0 <= i < devices.len(),
    ensures
        updated(devices, updates, i) == left.contains_key(devices[i].path),
{
    let path = devices[i].path;
    let short = devices.take(i);
    if names(short, path) {
        let j = choose|j: int| 0 <= j < short.len() && (#[trigger] short[j]).path == path;
        assert(devices[j].path == path);
    } else {
        assert forall|j: int| 0 <= j < i implies (#[trigger] devices[j]).path != path by {
            assert(short[j] == devices[j]);
        }
    }
}

/// Gives each device its update, and gathers for which host devices they stood.
fn update_devices(
    devices: &mut Vec<LinuxDevice>,
    updates: &mut UpdateMap,
    resources: &mut ResourceMap,
) -> (r: Result<(), DeviceError>)
    requires
        old(updates).wf(),
        old(resources).wf(),
        old(resources)@ == Map::<(Seq<char>, i64, i64), DeviceInfo>::empty(),
    ensures
        final(updates).wf(),
        final(resources).wf(),
        ({
            let before = device_views(old(devices)@);
            let after = device_views(final(devices)@);
            let all = old(updates)@;
            match r {
                Ok(()) => {
                    &&& forall|i: int| !#[trigger] conflicts(before, all, i)
                    &&& after == devices_after(before, all, before.len() as int)
                    &&& final(updates).keys() == missing(old(updates).keys(), before)
                    &&& gathered(final(resources)@, before, all, before.len() as int)
                },
                Err(e) => exists|i: int|
                    {
                        &&& #[trigger] first_conflict(before, all, i)
                        &&& after == devices_after(before, all, i + 1)
                        &&& e@ == DeviceErrorView::ResourceConflict {
                            major: before[i].major,
                            minor: before[i].minor,
                        }
                    },
            }
        }),
{
    let ghost before = device_views(devices@);
    let ghost all = updates@;
    let ghost keys = updates.keys();
    let mut i: usize = 0;
    proof {
        updates.keys_of_view();
        lemma_missing_start(keys, before);
        assert(device_views(devices@) =~= devices_after(before, all, 0));
    }
    while i < devices.len()
        invariant
            before == device_views(old(devices)@),
            all == old(updates)@,
            keys == old(updates).keys(),
            keys.no_duplicates(),
            i <= devices.len(),
            devices@.len() == before.len(),
            updates.wf(),
            resources.wf(),
            device_views(devices@) == devices_after(before, all, i as int),
            left_over(updates@, before, all, i as int),
            updates.keys() == missing(keys, before.take(i as int)),
            gathered(resources@, before, all, i as int),
            forall|j: int| 0 <= j < i ==> !#[trigger] conflicts(before, all, j),
        decreases devices.len() - i,
    {
        let ghost here = devices@[i as int];
        let ghost prior = devices@;
        let ghost stock = updates@;
        let ghost known = resources@;
        proof {
            assert(device_views(devices@)[i as int] == here@);
            assert(here@ == before[i as int]);
            lemma_updated_at(updates@, before, all, i as int);
            lemma_missing_step(keys, before, i as int);
        }
        let key = ResourceKey {
            typ: name_of_type(devices[i].typ),
            major: devices[i].major,
            minor: devices[i].minor,
        };
        let host_major = devices[i].major;
        let host_minor = devices[i].minor;
        match updates.remove(&devices[i].path) {
            Some(update) => {
                let DevUpdate { info, final_path } = update;
                let device = &mut devices[i];
                device.major = info.guest_major;
                device.minor = info.guest_minor;
                if let Some(path) = final_path {
                    device.path = path;
                }
                proof {
                    let now = device_views(devices@);
                    assert(devices@ =~= prior.update(i as int, devices@[i as int]));
                    assert(devices@[i as int]@ == with_update(before[i as int], update));
                    assert forall|k: int| 0 <= k < now.len() implies now[k] == devices_after(
                        before,
                        all,
                        i + 1,
                    )[k] by {
                        if k != i {
                            assert(now[k] == prior[k]@);
                            assert(device_views(prior)[k] == prior[k]@);
                        }
                    }
                    assert(now =~= devices_after(before, all, i + 1));
                }
                let ghost host = key@;
                assert(host == host_key(before[i as int]));
                if resources.insert(key, info).is_some() {
                    proof {
                        assert(known.contains_key(host));
                        assert(conflicts(before, all, i as int));
                        assert(first_conflict(before, all, i as int));
                    }
                    return Err(
                        Fault::ResourceConflict { major: host_major, minor: host_minor },
                    );
                }
                proof {
                    assert forall|j: int|
                        0 <= j < i + 1 && #[trigger] updated(
                            before,
                            all,
                            j,
                        ) implies resources@.contains_key(host_key(before[j]))
                        && resources@[host_key(before[j])] == all[before[j].path].info by {
                        if j < i {
                            assert(known.contains_key(host_key(before[j])));
                        }
                    }
                    assert forall|k: (Seq<char>, i64, i64)| #[trigger]
                        resources@.contains_key(k) implies exists|j: int|
                        0 <= j < i + 1 && #[trigger] updated(before, all, j) && host_key(before[j])
                            == k by {
                        if k == host {
                            assert(updated(before, all, i as int));
                        } else {
                            assert(known.contains_key(k));
                        }
                    }
                    assert(!conflicts(before, all, i as int));
                }
            },
            None => {
                assert(device_views(devices@) =~= devices_after(before, all, i + 1));
            },
        }
        proof {
            assert forall|k: Seq<char>| #[trigger]
                updates@.contains_key(k) <==> all.contains_key(k) && !names(
                    before.take(i + 1),
                    k,
                ) by {
                lemma_names_step(before, i as int, k);
                assert(stock.contains_key(k) <==> all.contains_key(k) && !names(
                    before.take(i as int),
                    k,
                ));
            }
        }
        i = i + 1;
    }
    proof {
        assert(before.take(before.len() as int) =~= before);
    }
    Ok(())
}

/// The rule, with the numbers of the guest device that stands for the host
/// device that it names.
spec fn rule_found(
    rule: LinuxDeviceCgroupView,
    resources: Map<(Seq<char>, i64, i64), DeviceInfo>,
) -> LinuxDeviceCgroupView {
    match rule_key(rule) {
        Some(key) => if resources.contains_key(key) {
            LinuxDeviceCgroupView {
                major: Some(resources[key].guest_major),
                minor: Some(resources[key].guest_minor),
                ..rule
            }
        } else {
            rule
        },
        None => rule,
    }
}

proof fn lemma_rule_found(
    rule: LinuxDeviceCgroupView,
    resources: Map<(Seq<char>, i64, i64), DeviceInfo>,
    devices: Seq<LinuxDeviceView>,
    updates: Map<Seq<char>, DevUpdate>,
)
    requires
        gathered(resources, devices, updates, devices.len() as int),
    ensures
        rule_found(rule, resources) == rule_after(rule, devices, updates),
{
    if exists|i: int| rule_for(rule, devices, updates, i) {
        let i = choose|i: int| rule_for(rule, devices, updates, i);
        assert(updated(devices, updates, i));
    } else {
        match rule_key(rule) {
            Some(key) => {
                if resources.contains_key(key) {
                    let j = choose|j: int|
                        0 <= j < devices.len() && #[trigger] updated(devices, updates, j)
                            && host_key(devices[j]) == key;
                    assert(rule_for(rule, devices, updates, j));
                }
            },
            None => {},
        }
    }
}

/// Gives each rule but the last `fresh` the numbers of the guest device that it is
/// now about.
fn update_rules(rules: &mut Vec<LinuxDeviceCgroup>, resources: &ResourceMap, fresh: usize)
    requires
        resources.wf(),
    ensures
        rule_views(final(rules)@) == Seq::new(
            old(rules)@.len(),
            |r: int|
                if r + fresh < old(rules)@.len() {
                    rule_found(rule_views(old(rules)@)[r], resources@)
                } else {
                    rule_views(old(rules)@)[r]
                },
        ),
{
    let ghost before = rule_views(rules@);
    let count: usize = if fresh < rules.len() {
        rules.len() - fresh
    } else {
        0
    };
    let mut i: usize = 0;
    while i < count
        invariant
            resources.wf(),
            before == rule_views(old(rules)@),
            rules@.len() == before.len(),
            i <= count <= rules.len(),
            forall|k: int|
                0 <= k < i ==> (#[trigger] rules@[k])@ == rule_found(before[k], resources@),
            forall|k: int| i <= k < rules@.len() ==> (#[trigger] rules@[k])@ == before[k],
        decreases count - i,
    {
        let ghost prior = rules@;
        let typ = match rules[i].typ {
            Some(typ) => typ,
            None => default_type(),
        };
        assert(rules@[i as int]@ == before[i as int]);
        if let (Some(major), Some(minor)) = (rules[i].major, rules[i].minor) {
            let key = ResourceKey { typ: name_of_type(typ), major, minor };
            if let Some(info) = resources.get(&key) {
                let rule = &mut rules[i];
                rule.major = Some(info.guest_major);
                rule.minor = Some(info.guest_minor);
            }
        }
        assert(rules@ =~= prior.update(i as int, rules@[i as int]));
        assert(rules@[i as int]@ == rule_found(before[i as int], resources@));
        i = i + 1;
    }
    assert(rule_views(rules@) =~= Seq::new(
        before.len(),
        |r: int|
            if r + fresh < before.len() {
                rule_found(before[r], resources@)
            } else {
                before[r]
            },
    ));
}

/// Where there is a conflict, there is a first one, and only one first.
proof fn lemma_first_conflict(
    devices: Seq<LinuxDeviceView>,
    updates: Map<Seq<char>, DevUpdate>,
    i: int,
)
    requires
        first_conflict(devices, updates, i),
    ensures
        exists|j: int| conflicts(devices, updates, j),
        i == choose|j: int| first_conflict(devices, updates, j),
{
    let j = choose|j: int| first_conflict(devices, updates, j);
    assert(first_conflict(devices, updates, j));
    assert(conflicts(devices, updates, i));
    assert(conflicts(devices, updates, j));
}

/// The paths that there are updates for, in the order in which they came in.
fn paths_of(updates: &UpdateMap) -> (r: Vec<String>)
    requires
        updates.wf(),
    ensures
        r@.map_values(|p: String| p@) == updates.keys(),
{
    let mut r: Vec<String> = Vec::new();
    let n = updates.len();
    for i in 0..n
        invariant
            updates.wf(),
            n == updates.keys().len(),
            r@.map_values(|p: String| p@) == updates.keys().take(i as int),
    {
        let path = updates.entry(i).0.clone();
        let ghost taken = r@.map_values(|p: String| p@);
        r.push(path);
        proof {
            assert(r@.map_values(|p: String| p@) =~= taken.push(path@));
            assert(updates.keys().take(i + 1) =~= updates.keys().take(i as int).push(path@));
        }
    }
    assert(updates.keys().take(n as int) =~= updates.keys());
    r
}

/// Updates the device list in the OCI spec to make it have the details
/// appropriate for the VM, instead of the host. It is given a map of
/// (container_path => update) where:
///     container_path: the path to the device in the OCI spec as it came in
///     update: information on changes to make to the device
pub fn update_spec_devices(spec: &mut Spec, updates: UpdateMap) -> (r: Result<(), DeviceError>)
    requires
        updates.wf(),
    ensures
        (final(spec)@, outcome(r)) == spec_updated(old(spec)@, updates@, updates.keys()),
{
    update_host_spec(spec, updates, 0)
}

/// Updates the device list in the OCI spec, and its rules, but for the last
/// `fresh` of them, which speak of the guest already.
pub fn update_host_spec(spec: &mut Spec, updates: UpdateMap, fresh: usize) -> (r: Result<
    (),
    DeviceError,
>)
    requires
        updates.wf(),
    ensures
        (final(spec)@, outcome(r)) == host_spec_updated(
            old(spec)@,
            updates@,
            updates.keys(),
            fresh as nat,
        ),
{
    let mut updates = updates;
    let ghost all = updates@;
    let ghost keys = updates.keys();
    let ghost before = spec@;
    match &mut spec.linux {
        None => {
            return Err(Fault::NoLinux);
        },
        Some(linux) => {
            let ghost section = linux@;
            let ghost devices = listed(section);
            let mut resources: ResourceMap = KeyMap::new();
            match &mut linux.devices {
                None => {
                    proof {
                        lemma_missing_start(keys, devices);
                        assert(devices.take(0) =~= devices);
                    }
                },
                Some(list) => {
                    match update_devices(list, &mut updates, &mut resources) {
                        Err(e) => {
                            proof {
                                let i = choose|i: int|
                                    {
                                        &&& #[trigger] first_conflict(devices, all, i)
                                        &&& device_views(list@) == devices_after(
                                            devices,
                                            all,
                                            i + 1,
                                        )
                                        &&& e@ == DeviceErrorView::ResourceConflict {
                                            major: devices[i].major,
                                            minor: devices[i].minor,
                                        }
                                    };
                                lemma_first_conflict(devices, all, i);
                            }
                            return Err(e);
                        },
                        Ok(()) => {},
                    }
                },
            }
            // Make sure we applied all of our updates
            if updates.len() > 0 {
                let paths = paths_of(&updates);
                return Err(Fault::MissingDevices { paths });
            }
            if let Some(section_resources) = &mut linux.resources {
                if let Some(rules) = &mut section_resources.devices {
                    let ghost rules_before = rule_views(rules@);
                    update_rules(rules, &resources, fresh);
                    proof {
                        let now = host_rules_after(rules_before, devices, all, fresh as nat);
                        assert forall|k: int| 0 <= k < rules_before.len() implies rule_views(
                            rules@,
                        )[k] == now[k] by {
                            lemma_rule_found(rules_before[k], resources@, devices, all);
                        }
                        assert(rule_views(rules@) =~= now);
                    }
                }
            }
        },
    }
    Ok(())
}

/// The rule on access to the device.
pub open spec fn rule_on(
    info: DeviceInfoView,
    typ: LinuxDeviceType,
    allow: bool,
    access: Seq<char>,
) -> LinuxDeviceCgroupView {
    LinuxDeviceCgroupView {
        allow,
        typ: Some(typ),
        major: Some(info.guest_major),
        minor: Some(info.guest_minor),
        access: Some(access),
    }
}

/// The specification with one more device rule, behind those that it has, and
/// the outcome. A specification without resources gets some, for the rule.
pub open spec fn rule_inserted(
    spec: SpecView,
    info: DeviceInfoView,
    allow: bool,
    access: Seq<char>,
) -> (SpecView, Result<(), DeviceErrorView>) {
    match (spec.linux, type_named(info.cgroup_type)) {
        (None, _) => (spec, Err(Fault::NoLinux)),
        (_, None) => (spec, Err(Fault::DeviceType { name: info.cgroup_type })),
        (Some(linux), Some(typ)) => {
            let rule = rule_on(info, typ, allow, access);
            let rules = match linux.resources {
                Some(Some(rules)) => rules.push(rule),
                _ => seq![rule],
            };
            (
                SpecView {
                    linux: Some(
                        LinuxView { devices: linux.devices, resources: Some(Some(rules)) },
                    ),
                    process: spec.process,
                },
                Ok(()),
            )
        },
    }
}

/// Insert a devices cgroup rule to control access to device.
pub fn insert_devices_cgroup_rule(
    spec: &mut Spec,
    dev_info: &DeviceInfo,
    allow: bool,
    access: &str,
) -> (r: Result<(), DeviceError>)
    ensures
        (final(spec)@, outcome(r)) == rule_inserted(old(spec)@, dev_info@, allow, access@),
{
    match &mut spec.linux {
        None => {
            return Err(Fault::NoLinux);
        },
        Some(linux) => {
            let typ = match parse_type(dev_info.cgroup_type.as_str()) {
                Some(typ) => typ,
                None => {
                    return Err(Fault::DeviceType { name: dev_info.cgroup_type.clone() });
                },
            };
            let rule = LinuxDeviceCgroup {
                allow,
                typ: Some(typ),
                major: Some(dev_info.guest_major),
                minor: Some(dev_info.guest_minor),
                access: Some(access.to_owned()),
            };
            assert(rule@ =~= rule_on(dev_info@, typ, allow, access@));
            match &mut linux.resources {
                Some(resources) => match &mut resources.devices {
                    Some(rules) => {
                        let ghost before = rules@;
                        rules.push(rule);
                        assert(rule_views(rules@) =~= rule_views(before).push(rule@));
                    },
                    None => {
                        let mut rules: Vec<LinuxDeviceCgroup> = Vec::new();
                        rules.push(rule);
                        assert(rule_views(rules@) =~= seq![rule@]);
                        resources.devices = Some(rules);
                    },
                },
                None => {
                    let mut rules: Vec<LinuxDeviceCgroup> = Vec::new();
                    rules.push(rule);
                    assert(rule_views(rules@) =~= seq![rule@]);
                    linux.resources = Some(LinuxResources { devices: Some(rules) });
                },
            }
        },
    }
    Ok(())
}

/// An update neither adds nor takes away devices or rules, and changes neither
/// the process nor anything of a rule but its numbers nor the type of a device,
/// whatever its outcome.
pub proof fn update_keeps_the_rest(
    spec: SpecView,
    updates: Map<Seq<char>, DevUpdate>,
    keys: Seq<Seq<char>>,
)
    requires
        spec.linux is Some,
    ensures
        ({
            let before = spec.linux->0;
            let after_spec = spec_updated(spec, updates, keys).0;
            let after = after_spec.linux->0;
            &&& after_spec.linux is Some
            &&& after_spec.process == spec.process
            &&& after.devices is Some == before.devices is Some
            &&& listed(after).len() == listed(before).len()
            &&& forall|i: int|
                0 <= i < listed(before).len() ==> (#[trigger] listed(after)[i]).typ == listed(
                    before,
                )[i].typ
            &&& after.resources is Some == before.resources is Some
            &&& before.resources is Some ==> after.resources->0 is Some
                == before.resources->0 is Some
            &&& before.resources is Some && before.resources->0 is Some ==> {
                let rules = before.resources->0->0;
                let rules_now = after.resources->0->0;
                &&& rules_now.len() == rules.len()
                &&& forall|i: int|
                    0 <= i < rules.len() ==> {
                        &&& (#[trigger] rules_now[i]).allow == rules[i].allow
                        &&& rules_now[i].typ == rules[i].typ
                        &&& rules_now[i].access == rules[i].access
                    }
            }
        }),
{
}

/// A device whose path no update names is left as it is, whatever the outcome.
pub proof fn other_devices_stay(
    spec: SpecView,
    updates: Map<Seq<char>, DevUpdate>,
    keys: Seq<Seq<char>>,
    i: int,
)
    requires
        spec.linux is Some,
        0 <= i < listed(spec.linux->0).len(),
        !updates.contains_key(listed(spec.linux->0)[i].path),
    ensures
        listed(spec_updated(spec, updates, keys).0.linux->0)[i] == listed(spec.linux->0)[i],
{
}

/// An update that succeeds has given every path it names to a device, and that
/// device has the numbers of the guest and, where there is one, the new path.
pub proof fn every_update_lands(
    spec: SpecView,
    updates: Map<Seq<char>, DevUpdate>,
    keys: Seq<Seq<char>>,
    path: Seq<char>,
)
    requires
        updates.contains_key(path),
        keys.contains(path),
        spec_updated(spec, updates, keys).1 is Ok,
    ensures
        exists|i: int|
            {
                &&& 0 <= i < listed(spec.linux->0).len()
                &&& (#[trigger] listed(spec.linux->0)[i]).path == path
                &&& listed(spec_updated(spec, updates, keys).0.linux->0)[i] == with_update(
                    listed(spec.linux->0)[i],
                    updates[path],
                )
            },
{
    let devices = listed(spec.linux->0);
    assert(names(devices, path)) by {
        if !names(devices, path) {
            let p = |k: Seq<char>| !names(devices, k);
            let k = choose|k: int| 0 <= k < keys.len() && keys[k] == path;
            assert(p(keys[k]));
            keys.lemma_filter_contains(p, k);
            assert(keys.filter(p).contains(path));
        }
    }
    let i = lemma_first_named(devices, path);
    assert(updated(devices, updates, i));
}

proof fn lemma_first_named(devices: Seq<LinuxDeviceView>, path: Seq<char>) -> (i: int)
    requires
        names(devices, path),
    ensures
        0 <= i < devices.len(),
        devices[i].path == path,
        forall|j: int| 0 <= j < i ==> (#[trigger] devices[j]).path != path,
    decreases devices.len(),
{
    let front = devices.drop_last();
    if names(front, path) {
        let i = lemma_first_named(front, path);
        assert(devices[i] == front[i]);
        assert forall|j: int| 0 <= j < i implies (#[trigger] devices[j]).path != path by {
            assert(front[j] == devices[j]);
        }
        i
    } else {
        let last = devices.len() - 1;
        let k = choose|k: int| 0 <= k < devices.len() && (#[trigger] devices[k]).path == path;
        if k < last {
            assert(front[k].path == path);
        }
        assert forall|j: int| 0 <= j < last implies (#[trigger] devices[j]).path != path by {
            assert(front[j] == devices[j]);
        }
        last
    }
}

/// After an update that succeeds, a rule that named the host device of an
/// updated device names that device's numbers in the guest. It is not
/// translated a second time where these are the numbers of another host device.
pub proof fn rule_follows_its_device(
    spec: SpecView,
    updates: Map<Seq<char>, DevUpdate>,
    keys: Seq<Seq<char>>,
    rules: Seq<LinuxDeviceCgroupView>,
    r: int,
    i: int,
)
    requires
        spec.linux is Some,
        spec.linux->0.resources == Some(Some(rules)),
        spec_updated(spec, updates, keys).1 is Ok,
        0 <= r < rules.len(),
        rule_for(rules[r], listed(spec.linux->0), updates, i),
    ensures
        ({
            let after = spec_updated(spec, updates, keys).0.linux->0;
            let device = listed(after)[i];
            &&& after.resources is Some && after.resources->0 is Some
            &&& after.resources->0->0[r].major == Some(device.major)
            &&& after.resources->0->0[r].minor == Some(device.minor)
        }),
{
    let devices = listed(spec.linux->0);
    let j = choose|j: int| rule_for(rules[r], devices, updates, j);
    assert(rule_for(rules[r], devices, updates, j));
    assert(updated(devices, updates, i) && updated(devices, updates, j));
    assert(host_key(devices[i]) == host_key(devices[j]));
    if i < j {
        assert(conflicts(devices, updates, j));
    } else if j < i {
        assert(conflicts(devices, updates, i));
    }
    assert(i == j);
}

/// A rule that names no host device of an updated device is left as it is,
/// whatever the outcome. So is one that has the numbers of such a device but
/// another type.
pub proof fn other_rules_stay(
    spec: SpecView,
    updates: Map<Seq<char>, DevUpdate>,
    keys: Seq<Seq<char>>,
    rules: Seq<LinuxDeviceCgroupView>,
    r: int,
)
    requires
        spec.linux is Some,
        spec.linux->0.resources == Some(Some(rules)),
        0 <= r < rules.len(),
        forall|i: int| !rule_for(rules[r], listed(spec.linux->0), updates, i),
    ensures
        ({
            let after = spec_updated(spec, updates, keys).0.linux->0;
            &&& after.resources is Some && after.resources->0 is Some
            &&& after.resources->0->0[r] == rules[r]
        }),
{
}

/// Without updates, a specification with a Linux section is left as it is.
pub proof fn no_updates_no_change(spec: SpecView)
    requires
        spec.linux is Some,
    ensures
        spec_updated(spec, Map::empty(), Seq::empty()) == (spec, Ok::<(), DeviceErrorView>(())),
{
    let linux = spec.linux->0;
    let none = Map::<Seq<char>, DevUpdate>::empty();
    let devices = listed(linux);
    reveal(Seq::filter);
    assert(missing(Seq::empty(), devices).len() == 0);
    assert(devices_after(devices, none, devices.len() as int) =~= devices);
    if let Some(Some(rules)) = linux.resources {
        assert(host_rules_after(rules, devices, none, 0) =~= rules);
    }
}

} // verus!
