//! Adds devices to a container.
use crate::env::{env_translated, update_env_pci};
use crate::error::{outcome, DeviceError, DeviceErrorView, Fault};
use crate::handler::{add_device, device_handler, Device, DeviceHandler};
use crate::info::{DevUpdate, SpecUpdate};
use crate::keymap::KeyMap;
use crate::oci::{text_views, type_named, LinuxDeviceCgroupView, Spec, SpecView};
use crate::pci::{Address, PciMap};
use crate::spec_devices::{
    every_update_lands, host_rules_after, host_spec_updated, insert_devices_cgroup_rule, listed,
    rule_inserted, rule_on, rules_after, update_host_spec, with_update, UpdateMap,
};
use vstd::prelude::*;

verus! {

/// The map with the pairs added, one after the other, and the outcome. A host
/// address that has a guest address already ends it, with the new guest address
/// in place.
pub open spec fn addresses_added(
    pcimap: Map<Address, Address>,
    pairs: Seq<(Address, Address)>,
) -> (Map<Address, Address>, Result<(), DeviceErrorView>)
    decreases pairs.len(),
{
    if pairs.len() == 0 {
        (pcimap, Ok(()))
    } else {
        let (map, result) = addresses_added(pcimap, pairs.drop_last());
        let (host, guest) = pairs.last();
        if result is Err {
            (map, result)
        } else if map.contains_key(host) {
            (
                map.insert(host, guest),
                Err(Fault::AddressConflict { host, guest, other: map[host] }),
            )
        } else {
            (map.insert(host, guest), Ok(()))
        }
    }
}

/// Adds the pairs to the map.
fn insert_addresses(pcimap: &mut PciMap, pairs: &Vec<(Address, Address)>) -> (r: Result<
    (),
    DeviceError,
>)
    requires
        old(pcimap).wf(),
    ensures
        final(pcimap).wf(),
        (final(pcimap)@, outcome(r)) == addresses_added(old(pcimap)@, pairs@),
{
    let ghost before = pcimap@;
    assert(pairs@.take(0) =~= Seq::empty());
    for i in 0..pairs.len()
        invariant
            before == old(pcimap)@,
            pcimap.wf(),
            addresses_added(before, pairs@.take(i as int)) == (
                pcimap@,
                Ok::<(), DeviceErrorView>(()),
            ),
    {
        let (host, guest) = pairs[i];
        proof {
            assert(pairs@.take(i + 1).drop_last() =~= pairs@.take(i as int));
            assert(pairs@.take(i + 1).last() == (host, guest));
        }
        if let Some(other) = pcimap.insert(host, guest) {
            proof {
                lemma_conflict_stays(before, pairs@, i + 1);
            }
            return Err(Fault::AddressConflict { host, guest, other });
        }
    }
    assert(pairs@.take(pairs@.len() as int) =~= pairs@);
    Ok(())
}

proof fn lemma_conflict_stays(
    pcimap: Map<Address, Address>,
    pairs: Seq<(Address, Address)>,
    k: int,
)
    requires
        0 <= k <= pairs.len(),
        addresses_added(pcimap, pairs.take(k)).1 is Err,
    ensures
        addresses_added(pcimap, pairs) == addresses_added(pcimap, pairs.take(k)),
    decreases pairs.len() - k,
{
    if k == pairs.len() {
        assert(pairs.take(k) =~= pairs);
    } else {
        assert(pairs.take(k + 1).drop_last() =~= pairs.take(k));
        lemma_conflict_stays(pcimap, pairs, k + 1);
    }
}

/// What is known while devices are added.
#[verifier::ext_equal]
pub struct AddState {
    /// The container's specification.
    pub spec: SpecView,
    /// The guest addresses of PCI devices.
    pub pcimap: Map<Address, Address>,
    /// The updates for the devices of the specification.
    pub updates: Map<Seq<char>, DevUpdate>,
    /// The paths of these updates, in the order in which they came in.
    pub paths: Seq<Seq<char>>,
}

/// The state after the updates of one device are taken in, and the outcome. Two
/// devices must not have the same path in the container. The container may use
/// every device that is added.
pub open spec fn update_taken(state: AddState, device: Device, update: SpecUpdate) -> (
    AddState,
    Result<(), DeviceErrorView>,
) {
    let path = device.container_path@;
    let (mid, result) = match update.dev {
        None => (state, Ok(())),
        Some(dev) => if state.updates.contains_key(path) {
            (state, Err(Fault::PathConflict { path }))
        } else {
            let (spec, result) = rule_inserted(state.spec, dev.info@, true, "rwm"@);
            (
                AddState {
                    spec,
                    updates: state.updates.insert(path, dev),
                    paths: state.paths.push(path),
                    ..state
                },
                result,
            )
        },
    };
    if result is Err {
        (mid, result)
    } else {
        let (pcimap, result) = addresses_added(mid.pcimap, update.pci@);
        (AddState { pcimap, ..mid }, result)
    }
}

/// The environment of a process; empty where it has none.
pub open spec fn env_of(process: Option<Seq<Seq<char>>>) -> Seq<Seq<char>> {
    match process {
        Some(env) => env,
        None => Seq::empty(),
    }
}

/// The specification after all devices are handled, and the outcome. The
/// environment of the process is translated, if it can be, and stays as it is
/// otherwise. The rules that were added for the devices speak of the guest
/// already; those that the specification came with are updated.
pub open spec fn devices_finished(state: AddState) -> (SpecView, Result<(), DeviceErrorView>) {
    match state.spec.process {
        None => host_spec_updated(state.spec, state.updates, state.paths, state.paths.len()),
        Some(process) => {
            let env = env_of(process);
            let (translated, result) = env_translated(env, state.pcimap);
            if result is Err {
                (SpecView { process: Some(Some(env)), ..state.spec }, result)
            } else {
                host_spec_updated(
                    SpecView { process: Some(Some(translated)), ..state.spec },
                    state.updates,
                    state.paths,
                    state.paths.len(),
                )
            }
        },
    }
}

/// The devices that were handled so far.
pub struct AddProgress {
    /// How many devices were handled.
    pub handled: usize,
    /// What they change in the specification.
    pub updates: UpdateMap,
}

/// What to do next in order to add devices.
pub enum AddAction {
    /// Have the next device handled: the one behind those that were. Then go on
    /// with its updates.
    Handle { handler: DeviceHandler, progress: AddProgress },
    /// All devices are added.
    Done,
}

impl AddProgress {
    /// No device was handled yet.
    pub fn new() -> (r: AddProgress)
        ensures
            r.updates.wf(),
            r.handled == 0,
            r.updates@ == Map::<Seq<char>, DevUpdate>::empty(),
            r.updates.keys() == Seq::<Seq<char>>::empty(),
    {
        AddProgress { handled: 0, updates: KeyMap::new() }
    }
}

/// What is known while devices are added.
pub open spec fn add_state(spec: Spec, pcimap: PciMap, progress: AddProgress) -> AddState {
    AddState {
        spec: spec@,
        pcimap: pcimap@,
        updates: progress.updates@,
        paths: progress.updates.keys(),
    }
}

/// Takes in the updates of one device.
fn take_update(
    spec: &mut Spec,
    pcimap: &mut PciMap,
    progress: &mut AddProgress,
    device: &Device,
    update: SpecUpdate,
) -> (r: Result<(), DeviceError>)
    requires
        old(pcimap).wf(),
        old(progress).updates.wf(),
    ensures
        final(pcimap).wf(),
        final(progress).updates.wf(),
        final(progress).handled == old(progress).handled,
        ({
            let (state, result) = update_taken(
                add_state(*old(spec), *old(pcimap), *old(progress)),
                *device,
                update,
            );
            &&& outcome(r) == result
            &&& final(spec)@ == state.spec
            &&& final(pcimap)@ == state.pcimap
            &&& r is Ok ==> add_state(*final(spec), *final(pcimap), *final(progress)) == state
        }),
{
    let SpecUpdate { dev, pci } = update;
    if let Some(dev_update) = dev {
        if progress.updates.contains(&device.container_path) {
            return Err(Fault::PathConflict { path: device.container_path.clone() });
        }
        // Update cgroup to allow all devices added to guest.
        match insert_devices_cgroup_rule(spec, &dev_update.info, true, "rwm") {
            Ok(()) => {},
            Err(e) => {
                return Err(e);
            },
        }
        progress.updates.insert(device.container_path.clone(), dev_update);
    }
    insert_addresses(pcimap, &pci)
}

/// Translates the environment and updates the devices of the specification.
fn finish_devices(spec: &mut Spec, pcimap: &PciMap, updates: UpdateMap) -> (r: Result<
    (),
    DeviceError,
>)
    requires
        pcimap.wf(),
        updates.wf(),
    ensures
        (final(spec)@, outcome(r)) == devices_finished(
            AddState {
                spec: old(spec)@,
                pcimap: pcimap@,
                updates: updates@,
                paths: updates.keys(),
            },
        ),
{
    let fresh = updates.len();
    match &mut spec.process {
        None => {},
        Some(process) => {
            let mut env: Vec<String> = Vec::new();
            match &process.env {
                None => {
                    let none: Vec<String> = Vec::new();
                    assert(text_views(none@) =~= Seq::empty());
                    assert(text_views(env@) =~= Seq::empty());
                    process.env = Some(none);
                },
                Some(present) => {
                    for i in 0..present.len()
                        invariant
                            text_views(env@) == text_views(present@).take(i as int),
                    {
                        let ghost taken = text_views(env@);
                        env.push(present[i].clone());
                        proof {
                            assert(text_views(env@) =~= taken.push(present@[i as int]@));
                            assert(text_views(present@).take(i + 1) =~= text_views(
                                present@,
                            ).take(i as int).push(present@[i as int]@));
                        }
                    }
                    assert(text_views(present@).take(present@.len() as int) =~= text_views(
                        present@,
                    ));
                },
            }
            match update_env_pci(&mut env, pcimap) {
                Ok(()) => {
                    process.env = Some(env);
                },
                Err(e) => {
                    return Err(e);
                },
            }
        },
    }
    update_host_spec(spec, updates, fresh)
}

/// What is known after a call of `add_devices`, and what it says. `update` are
/// the updates of the device behind those that were handled, once it is.
pub open spec fn add_next(
    devices: Seq<Device>,
    handled: int,
    state: AddState,
    update: Option<SpecUpdate>,
) -> (AddState, int, Result<Option<DeviceHandler>, DeviceErrorView>) {
    let (mid, done, result) = if update is Some && handled < devices.len() {
        let (mid, result) = update_taken(state, devices[handled], update->0);
        (mid, handled + 1, result)
    } else {
        (state, handled, Ok(()))
    };
    match result {
        Err(e) => (mid, done, Err(e)),
        Ok(()) => if done < devices.len() {
            match device_handler(devices[done]) {
                Err(e) => (mid, done, Err(e)),
                Ok(handler) => (mid, done, Ok(Some(handler))),
            }
        } else {
            let (spec, result) = devices_finished(mid);
            (
                AddState { spec, ..mid },
                done,
                match result {
                    Err(e) => Err(e),
                    Ok(()) => Ok(None),
                },
            )
        },
    }
}

/// Adds devices to a container: each is handled, what the handlers found out is
/// taken in, and in the end the specification is corrected.
///
/// Says which handler to run next, given the updates that the handler for the
/// device before came back with. `spec` and `pcimap` are those that the call
/// before left behind.
pub fn add_devices(
    devices: &Vec<Device>,
    spec: &mut Spec,
    pcimap: &mut PciMap,
    progress: AddProgress,
    update: Option<SpecUpdate>,
) -> (r: Result<AddAction, DeviceError>)
    requires
        old(pcimap).wf(),
        progress.updates.wf(),
    ensures
        final(pcimap).wf(),
        ({
            let (state, handled, result) = add_next(
                devices@,
                progress.handled as int,
                add_state(*old(spec), *old(pcimap), progress),
                update,
            );
            &&& final(spec)@ == state.spec
            &&& final(pcimap)@ == state.pcimap
            &&& match r {
                Ok(AddAction::Handle { handler, progress: next }) => {
                    &&& result == Ok::<Option<DeviceHandler>, DeviceErrorView>(Some(handler))
                    &&& next.handled == handled
                    &&& next.updates.wf()
                    &&& next.updates@ == state.updates
                    &&& next.updates.keys() == state.paths
                },
                Ok(AddAction::Done) => result == Ok::<Option<DeviceHandler>, DeviceErrorView>(None),
                Err(e) => result == Err::<Option<DeviceHandler>, DeviceErrorView>(e@),
            }
        }),
{
    let mut progress = progress;
    if let Some(update) = update {
        if progress.handled < devices.len() {
            let device = &devices[progress.handled];
            match take_update(spec, pcimap, &mut progress, device, update) {
                Ok(()) => {},
                Err(e) => {
                    return Err(e);
                },
            }
            progress.handled = progress.handled + 1;
        }
    }
    if progress.handled < devices.len() {
        return match add_device(&devices[progress.handled]) {
            Ok(handler) => Ok(AddAction::Handle { handler, progress }),
            Err(e) => Err(e),
        };
    }
    match finish_devices(spec, pcimap, progress.updates) {
        Ok(()) => Ok(AddAction::Done),
        Err(e) => Err(e),
    }
}

/// Adding guest addresses succeeds only for host addresses that have none, each
/// coming once. It then changes none of those that are there.
pub proof fn addresses_are_kept_apart(
    pcimap: Map<Address, Address>,
    pairs: Seq<(Address, Address)>,
)
    requires
        addresses_added(pcimap, pairs).1 is Ok,
    ensures
        ({
            let map = addresses_added(pcimap, pairs).0;
            &&& forall|h: Address| #[trigger]
                pcimap.contains_key(h) ==> map.contains_key(h) && map[h] == pcimap[h]
            &&& forall|k: int|
                0 <= k < pairs.len() ==> {
                    &&& !pcimap.contains_key((#[trigger] pairs[k]).0)
                    &&& map.contains_key(pairs[k].0)
                    &&& map[pairs[k].0] == pairs[k].1
                }
            &&& forall|i: int, k: int|
                0 <= i < k < pairs.len() ==> (#[trigger] pairs[i]).0 != (#[trigger] pairs[k]).0
            &&& forall|h: Address| #[trigger]
                map.contains_key(h) ==> pcimap.contains_key(h) || exists|k: int|
                    0 <= k < pairs.len() && (#[trigger] pairs[k]).0 == h
        }),
    decreases pairs.len(),
{
    if pairs.len() > 0 {
        let front = pairs.drop_last();
        let last = pairs.len() - 1;
        addresses_are_kept_apart(pcimap, front);
        let mid = addresses_added(pcimap, front).0;
        let map = addresses_added(pcimap, pairs).0;
        assert(pairs[last] == pairs.last());
        assert forall|k: int| 0 <= k < pairs.len() implies {
            &&& !pcimap.contains_key((#[trigger] pairs[k]).0)
            &&& map.contains_key(pairs[k].0)
            &&& map[pairs[k].0] == pairs[k].1
        } by {
            if k < last {
                assert(front[k] == pairs[k]);
            }
        }
        assert forall|i: int, k: int| 0 <= i < k < pairs.len() implies (#[trigger] pairs[i]).0 != (
        #[trigger] pairs[k]).0 by {
            assert(front[i] == pairs[i]);
            if k < last {
                assert(front[k] == pairs[k]);
            }
        }
        assert forall|h: Address| #[trigger] map.contains_key(h) implies pcimap.contains_key(h)
            || exists|k: int| 0 <= k < pairs.len() && (#[trigger] pairs[k]).0 == h by {
            if mid.contains_key(h) && !pcimap.contains_key(h) {
                let k = choose|k: int| 0 <= k < front.len() && (#[trigger] front[k]).0 == h;
                assert(pairs[k].0 == h);
            }
        }
    }
}

/// The state after the updates of the first `k` devices are taken in, and the
/// outcome.
pub open spec fn all_taken(
    state: AddState,
    devices: Seq<Device>,
    updates: Seq<SpecUpdate>,
    k: nat,
) -> (AddState, Result<(), DeviceErrorView>)
    decreases k,
{
    if k == 0 {
        (state, Ok(()))
    } else {
        let (mid, result) = all_taken(state, devices, updates, (k - 1) as nat);
        if result is Err {
            (mid, result)
        } else {
            update_taken(mid, devices[k - 1], updates[k - 1])
        }
    }
}

/// Calling `add_devices` with the updates of one device after the other takes
/// them in one after the other, and after the last of them the specification is
/// corrected with all of them.
pub proof fn devices_are_added_in_turn(
    state: AddState,
    devices: Seq<Device>,
    updates: Seq<SpecUpdate>,
    k: nat,
)
    requires
        1 <= k <= devices.len(),
        updates.len() == devices.len(),
        all_taken(state, devices, updates, (k - 1) as nat).1 is Ok,
    ensures
        ({
            let before = all_taken(state, devices, updates, (k - 1) as nat).0;
            let (after, result) = all_taken(state, devices, updates, k);
            let next = add_next(devices, k - 1, before, Some(updates[k - 1]));
            &&& result is Err ==> next == (
                after,
                k as int,
                Err::<Option<DeviceHandler>, DeviceErrorView>(result->Err_0),
            )
            &&& result is Ok && k < devices.len() ==> next.0 == after && next.1 == k
            &&& result is Ok && k == devices.len() ==> next.0 == (AddState {
                spec: devices_finished(after).0,
                ..after
            })
            &&& result is Ok && k == devices.len() ==> (next.2 is Ok
                <==> devices_finished(after).1 is Ok)
        }),
{
}

/// The earlier devices had their updates taken in, where the later ones had.
proof fn lemma_taken_before(
    state: AddState,
    devices: Seq<Device>,
    updates: Seq<SpecUpdate>,
    i: nat,
    k: nat,
)
    requires
        i <= k,
        all_taken(state, devices, updates, k).1 is Ok,
    ensures
        all_taken(state, devices, updates, i).1 is Ok,
    decreases k - i,
{
    if i < k {
        lemma_taken_before(state, devices, updates, i, (k - 1) as nat);
    }
}

proof fn lemma_update_stays(
    state: AddState,
    devices: Seq<Device>,
    updates: Seq<SpecUpdate>,
    i: nat,
    k: nat,
)
    requires
        i < k <= devices.len(),
        updates.len() == devices.len(),
        all_taken(state, devices, updates, k).1 is Ok,
        updates[i as int].dev is Some,
    ensures
        ({
            let after = all_taken(state, devices, updates, k).0;
            let path = devices[i as int].container_path@;
            &&& after.updates.contains_key(path)
            &&& after.updates[path] == updates[i as int].dev->0
            &&& after.paths.contains(path)
        }),
    decreases k - i,
{
    let path = devices[i as int].container_path@;
    let mid = all_taken(state, devices, updates, (k - 1) as nat).0;
    let after = all_taken(state, devices, updates, k).0;
    if i + 1 < k {
        lemma_update_stays(state, devices, updates, i, (k - 1) as nat);
        let p = choose|p: int| 0 <= p < mid.paths.len() && mid.paths[p] == path;
        assert(after.paths[p] == path);
    } else {
        assert(after.paths[mid.paths.len() as int] == path);
    }
}

/// Two devices with the same path in the container are refused.
pub proof fn paths_are_kept_apart(
    state: AddState,
    devices: Seq<Device>,
    updates: Seq<SpecUpdate>,
    i: nat,
    j: nat,
    k: nat,
)
    requires
        i < j < k <= devices.len(),
        updates.len() == devices.len(),
        updates[i as int].dev is Some,
        updates[j as int].dev is Some,
        devices[i as int].container_path@ == devices[j as int].container_path@,
    ensures
        all_taken(state, devices, updates, k).1 is Err,
{
    if all_taken(state, devices, updates, k).1 is Ok {
        lemma_taken_before(state, devices, updates, j, k);
        lemma_taken_before(state, devices, updates, j + 1, k);
        lemma_update_stays(state, devices, updates, i, j);
    }
}

/// Whether one of the first `k` devices brought a guest address for the host
/// address.
pub open spec fn brought(updates: Seq<SpecUpdate>, k: nat, host: Address) -> bool {
    exists|i: int, p: int|
        0 <= i < k && 0 <= p < updates[i].pci@.len() && (#[trigger] updates[i].pci@[p]).0 == host
}

/// Every guest address that a device brought is in the map in the end, none that
/// was there before was replaced, and there are no others. No two devices, and
/// no two options of one, brought an address for the same host address.
pub proof fn guest_addresses_stay(
    state: AddState,
    devices: Seq<Device>,
    updates: Seq<SpecUpdate>,
    k: nat,
)
    requires
        k <= devices.len(),
        updates.len() == devices.len(),
        all_taken(state, devices, updates, k).1 is Ok,
    ensures
        ({
            let map = all_taken(state, devices, updates, k).0.pcimap;
            &&& forall|h: Address| #[trigger]
                state.pcimap.contains_key(h) ==> map.contains_key(h) && map[h] == state.pcimap[h]
            &&& forall|i: int, p: int|
                0 <= i < k && 0 <= p < updates[i].pci@.len() ==> {
                    let (host, guest) = #[trigger] updates[i].pci@[p];
                    &&& !state.pcimap.contains_key(host)
                    &&& map.contains_key(host)
                    &&& map[host] == guest
                }
            &&& forall|h: Address| #[trigger]
                map.contains_key(h) ==> state.pcimap.contains_key(h) || brought(updates, k, h)
            &&& forall|i: int, p: int, j: int, q: int|
                0 <= i < k && 0 <= j < k && 0 <= p < updates[i].pci@.len() && 0 <= q
                    < updates[j].pci@.len() && (i != j || p != q) ==> (
                #[trigger] updates[i].pci@[p]).0 != (#[trigger] updates[j].pci@[q]).0
        }),
    decreases k,
{
    if k > 0 {
        let last = k - 1;
        let mid = all_taken(state, devices, updates, last as nat).0;
        let map = all_taken(state, devices, updates, k).0.pcimap;
        guest_addresses_stay(state, devices, updates, last as nat);
        addresses_are_kept_apart(mid.pcimap, updates[last].pci@);
        assert(map == addresses_added(mid.pcimap, updates[last].pci@).0);
        assert forall|h: Address| #[trigger] state.pcimap.contains_key(h) implies map.contains_key(
            h,
        ) && map[h] == state.pcimap[h] by {
            assert(mid.pcimap.contains_key(h));
        }
        assert forall|i: int, p: int| 0 <= i < k && 0 <= p < updates[i].pci@.len() implies {
            let (host, guest) = #[trigger] updates[i].pci@[p];
            &&& !state.pcimap.contains_key(host)
            &&& map.contains_key(host)
            &&& map[host] == guest
        } by {
            let host = updates[i].pci@[p].0;
            if i < last {
                assert(mid.pcimap.contains_key(host));
            } else {
                assert(!mid.pcimap.contains_key(host));
                if state.pcimap.contains_key(host) {
                    assert(mid.pcimap.contains_key(host));
                }
            }
        }
        assert forall|h: Address| #[trigger] map.contains_key(h) implies state.pcimap.contains_key(
            h,
        ) || brought(updates, k, h) by {
            if mid.pcimap.contains_key(h) {
                if !state.pcimap.contains_key(h) {
                    let (i, p) = choose|i: int, p: int|
                        0 <= i < last && 0 <= p < updates[i].pci@.len() && (
                        #[trigger] updates[i].pci@[p]).0 == h;
                    assert(updates[i].pci@[p].0 == h);
                }
            } else {
                let pairs = updates[last].pci@;
                let p = choose|p: int| 0 <= p < pairs.len() && (#[trigger] pairs[p]).0 == h;
                assert(updates[last].pci@[p].0 == h);
            }
        }
        assert forall|i: int, p: int, j: int, q: int|
            0 <= i < k && 0 <= j < k && 0 <= p < updates[i].pci@.len() && 0 <= q
                < updates[j].pci@.len() && (i != j || p != q) implies (
        #[trigger] updates[i].pci@[p]).0 != (#[trigger] updates[j].pci@[q]).0 by {
            let a = updates[i].pci@[p].0;
            let b = updates[j].pci@[q].0;
            if i < last && j == last {
                assert(mid.pcimap.contains_key(a));
                assert(!mid.pcimap.contains_key(b));
            } else if i == last && j < last {
                assert(mid.pcimap.contains_key(b));
                assert(!mid.pcimap.contains_key(a));
            } else if i == last && j == last {
                let pairs = updates[last].pci@;
                if p < q {
                    assert(pairs[p].0 != pairs[q].0);
                } else {
                    assert(pairs[q].0 != pairs[p].0);
                }
            }
        }
    }
}

proof fn lemma_devices_stay(
    state: AddState,
    devices: Seq<Device>,
    updates: Seq<SpecUpdate>,
    k: nat,
)
    ensures
        ({
            let after = all_taken(state, devices, updates, k).0;
            &&& after.spec.process == state.spec.process
            &&& after.spec.linux is Some == state.spec.linux is Some
            &&& state.spec.linux is Some ==> after.spec.linux->0.devices
                == state.spec.linux->0.devices
        }),
    decreases k,
{
    if k > 0 {
        lemma_devices_stay(state, devices, updates, (k - 1) as nat);
    }
}

/// Where adding devices succeeds, the specification held a device for every
/// one that was updated, and that device now has the numbers of the guest and,
/// where there is one, the new path.
pub proof fn added_devices_land(
    state: AddState,
    devices: Seq<Device>,
    updates: Seq<SpecUpdate>,
    i: nat,
)
    requires
        updates.len() == devices.len(),
        i < devices.len(),
        updates[i as int].dev is Some,
        all_taken(state, devices, updates, devices.len()).1 is Ok,
        devices_finished(all_taken(state, devices, updates, devices.len()).0).1 is Ok,
    ensures
        ({
            let before = listed(state.spec.linux->0);
            let after = listed(
                devices_finished(
                    all_taken(state, devices, updates, devices.len()).0,
                ).0.linux->0,
            );
            exists|d: int|
                {
                    &&& 0 <= d < before.len()
                    &&& (#[trigger] before[d]).path == devices[i as int].container_path@
                    &&& after[d] == with_update(before[d], updates[i as int].dev->0)
                }
        }),
{
    let mid = all_taken(state, devices, updates, devices.len()).0;
    lemma_devices_stay(state, devices, updates, devices.len());
    lemma_update_stays(state, devices, updates, i, devices.len());
    let spec = translated_spec(mid);
    assert(devices_finished(mid) == host_spec_updated(
        spec,
        mid.updates,
        mid.paths,
        mid.paths.len(),
    ));
    every_update_lands(spec, mid.updates, mid.paths, devices[i as int].container_path@);
    assert(listed(spec.linux->0) == listed(state.spec.linux->0));
}

/// The specification with its environment translated.
spec fn translated_spec(state: AddState) -> SpecView {
    SpecView {
        process: match state.spec.process {
            Some(process) => Some(Some(env_translated(env_of(process), state.pcimap).0)),
            None => None,
        },
        ..state.spec
    }
}

/// Where adding devices succeeds, the environment of the process is the one that
/// `update_env_pci` makes of it with all the guest addresses that are known in
/// the end.
pub proof fn environment_is_translated(
    state: AddState,
    devices: Seq<Device>,
    updates: Seq<SpecUpdate>,
)
    requires
        all_taken(state, devices, updates, devices.len()).1 is Ok,
        devices_finished(all_taken(state, devices, updates, devices.len()).0).1 is Ok,
    ensures
        ({
            let mid = all_taken(state, devices, updates, devices.len()).0;
            let after = devices_finished(mid).0;
            match state.spec.process {
                None => after.process is None,
                Some(process) => {
                    let (env, result) = env_translated(env_of(process), mid.pcimap);
                    result is Ok && after.process == Some(Some(env))
                },
            }
        }),
{
    lemma_devices_stay(state, devices, updates, devices.len());
}

/// The device rules of the specification.
pub open spec fn rules_in(spec: SpecView) -> Seq<LinuxDeviceCgroupView> {
    match spec.linux {
        Some(linux) => match linux.resources {
            Some(Some(rules)) => rules,
            _ => Seq::empty(),
        },
        None => Seq::empty(),
    }
}

/// The rules that let the container use the first `k` devices, where they are
/// devices inside the guest.
pub open spec fn rules_granted(updates: Seq<SpecUpdate>, k: nat) -> Seq<LinuxDeviceCgroupView>
    decreases k,
{
    if k == 0 {
        Seq::empty()
    } else {
        let front = rules_granted(updates, (k - 1) as nat);
        match updates[k - 1].dev {
            None => front,
            Some(dev) => front.push(
                rule_on(dev.info@, type_named(dev.info@.cgroup_type)->0, true, "rwm"@),
            ),
        }
    }
}

proof fn lemma_rules_granted(
    state: AddState,
    devices: Seq<Device>,
    updates: Seq<SpecUpdate>,
    k: nat,
)
    requires
        all_taken(state, devices, updates, k).1 is Ok,
    ensures
        ({
            let after = all_taken(state, devices, updates, k).0;
            &&& rules_in(after.spec) == rules_in(state.spec) + rules_granted(updates, k)
            &&& after.paths.len() == state.paths.len() + rules_granted(updates, k).len()
        }),
    decreases k,
{
    if k == 0 {
        assert(rules_in(state.spec) + rules_granted(updates, 0) =~= rules_in(state.spec));
    } else {
        lemma_rules_granted(state, devices, updates, (k - 1) as nat);
        let mid = all_taken(state, devices, updates, (k - 1) as nat).0;
        let after = all_taken(state, devices, updates, k).0;
        match updates[k - 1].dev {
            None => {},
            Some(dev) => {
                let rule = rule_on(dev.info@, type_named(dev.info@.cgroup_type)->0, true, "rwm"@);
                assert(rules_in(after.spec) =~= rules_in(mid.spec).push(rule));
                assert(rules_in(after.spec) =~= rules_in(state.spec) + rules_granted(updates, k));
            },
        }
    }
}

/// Where a device is a device inside the guest, the rule on it is granted.
proof fn lemma_rule_is_granted(updates: Seq<SpecUpdate>, i: nat, k: nat)
    requires
        i < k,
        updates[i as int].dev is Some,
    ensures
        ({
            let info = (updates[i as int].dev->0).info@;
            rules_granted(updates, k).contains(
                rule_on(info, type_named(info.cgroup_type)->0, true, "rwm"@),
            )
        }),
    decreases k,
{
    let info = (updates[i as int].dev->0).info@;
    let rule = rule_on(info, type_named(info.cgroup_type)->0, true, "rwm"@);
    let front = rules_granted(updates, (k - 1) as nat);
    let all = rules_granted(updates, k);
    if i + 1 < k {
        lemma_rule_is_granted(updates, i, (k - 1) as nat);
        let r = choose|r: int| 0 <= r < front.len() && front[r] == rule;
        assert(all[r] == rule);
    } else {
        assert(all[front.len() as int] == rule);
    }
}

/// Where adding devices to a specification succeeds, its rules are those that it
/// came with, updated for the guest, and behind them one for every device inside
/// the guest that was added, by which the container may read, write and make
/// nodes of it.
pub proof fn added_devices_are_allowed(
    state: AddState,
    devices: Seq<Device>,
    updates: Seq<SpecUpdate>,
)
    requires
        state.paths.len() == 0,
        all_taken(state, devices, updates, devices.len()).1 is Ok,
        devices_finished(all_taken(state, devices, updates, devices.len()).0).1 is Ok,
    ensures
        ({
            let mid = all_taken(state, devices, updates, devices.len()).0;
            let after = rules_in(devices_finished(mid).0);
            &&& after == rules_after(
                rules_in(state.spec),
                listed(state.spec.linux->0),
                mid.updates,
            ) + rules_granted(updates, devices.len())
            &&& forall|i: int|
                0 <= i < devices.len() && (#[trigger] updates[i]).dev is Some ==> {
                    let info = (updates[i].dev->0).info@;
                    after.contains(rule_on(info, type_named(info.cgroup_type)->0, true, "rwm"@))
                }
        }),
{
    let n = devices.len();
    let mid = all_taken(state, devices, updates, n).0;
    let granted = rules_granted(updates, n);
    let came = rules_in(state.spec);
    let before = listed(state.spec.linux->0);
    let after = rules_in(devices_finished(mid).0);
    lemma_rules_granted(state, devices, updates, n);
    lemma_devices_stay(state, devices, updates, n);
    let spec = translated_spec(mid);
    assert(devices_finished(mid) == host_spec_updated(
        spec,
        mid.updates,
        mid.paths,
        mid.paths.len(),
    ));
    assert(rules_in(mid.spec) == came + granted);
    assert(after =~= host_rules_after(came + granted, before, mid.updates, granted.len()));
    let kept = rules_after(came, before, mid.updates);
    assert(after =~= kept + granted);
    assert forall|i: int| 0 <= i < n && (#[trigger] updates[i]).dev is Some implies {
        let info = (updates[i].dev->0).info@;
        after.contains(rule_on(info, type_named(info.cgroup_type)->0, true, "rwm"@))
    } by {
        let info = (updates[i].dev->0).info@;
        let rule = rule_on(info, type_named(info.cgroup_type)->0, true, "rwm"@);
        lemma_rule_is_granted(updates, i as nat, n);
        let r = choose|r: int| 0 <= r < granted.len() && granted[r] == rule;
        assert(after[kept.len() + r] == rule);
    }
}

} // verus!
