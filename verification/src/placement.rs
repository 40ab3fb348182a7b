//! Keeping the screen layout in step with the trust store: devices that
//! are no longer trusted leave the layout, newly trusted ones join it as
//! pending, and pending devices are placed on the first free cell, row by
//! row, where the layout stays valid.

use vstd::prelude::*;
use crate::topology::{
    find_at, find_device, has_device, id_index, in_bounds, placed_device, same_frame,
    validation_of, DeviceLayoutStatus, GridPosition, TopologyDevice, TopologyLayout,
};
use crate::trust::{TrustStore, TrustedDevice};

verus! {

/// The devices once `id` is placed at `p`.
pub open spec fn with_placement(devices: Seq<TopologyDevice>, id: u128, p: GridPosition) -> Seq<
    TopologyDevice,
> {
    devices.update(id_index(devices, id), placed_device(devices[id_index(devices, id)], p))
}

/// Placing `id` at `p` is allowed: the cell is on the grid, no other
/// device holds it, and the device is known.
pub open spec fn placement_allowed(
    width: i32,
    height: i32,
    devices: Seq<TopologyDevice>,
    id: u128,
    p: GridPosition,
) -> bool {
    &&& in_bounds(width, height, p)
    &&& !(exists|j: int|
        0 <= j < devices.len() && devices[j].device_id != id && devices[j].position == Some(p))
    &&& has_device(devices, id)
}

/// The devices once `id` is placed at the free cell `p`, where that keeps
/// the layout valid.
pub open spec fn try_cell(
    width: i32,
    height: i32,
    controller: u128,
    devices: Seq<TopologyDevice>,
    id: u128,
    p: GridPosition,
) -> Option<Seq<TopologyDevice>> {
    if find_at(devices, p) is Some {
        None
    } else if placement_allowed(width, height, devices, id, p) && validation_of(
        width,
        height,
        controller,
        with_placement(devices, id, p),
    ) is Ok {
        Some(with_placement(devices, id, p))
    } else {
        None
    }
}

/// The first cell, row by row from `(x, y)`, where `id` can be placed.
pub open spec fn scan_from(
    width: i32,
    height: i32,
    controller: u128,
    devices: Seq<TopologyDevice>,
    id: u128,
    y: int,
    x: int,
) -> Option<Seq<TopologyDevice>>
    decreases height - y, width - x,
{
    if y >= height || y < 0 || x < 0 {
        None
    } else if x >= width {
        scan_from(width, height, controller, devices, id, y + 1, 0)
    } else {
        match try_cell(
            width,
            height,
            controller,
            devices,
            id,
            GridPosition { x: x as i32, y: y as i32 },
        ) {
            Some(placed) => Some(placed),
            None => scan_from(width, height, controller, devices, id, y, x + 1),
        }
    }
}

/// The identifiers of the devices not yet on the grid, in order.
pub open spec fn pending_ids(devices: Seq<TopologyDevice>) -> Seq<u128>
    decreases devices.len(),
{
    if devices.len() == 0 {
        Seq::empty()
    } else if devices.last().position is None {
        pending_ids(devices.drop_last()).push(devices.last().device_id)
    } else {
        pending_ids(devices.drop_last())
    }
}

/// The devices once each of `ids` in turn is placed on the first cell
/// that keeps the layout valid; a device already placed, or for which no
/// cell is found, stays as it is.
pub open spec fn auto_placed(
    width: i32,
    height: i32,
    controller: u128,
    devices: Seq<TopologyDevice>,
    ids: Seq<u128>,
) -> Seq<TopologyDevice>
    decreases ids.len(),
{
    if ids.len() == 0 {
        devices
    } else {
        let before = auto_placed(width, height, controller, devices, ids.drop_last());
        let id = ids.last();
        if find_device(before, id) matches Some(d) && d.position is Some {
            before
        } else {
            match scan_from(width, height, controller, before, id, 0, 0) {
                Some(placed) => placed,
                None => before,
            }
        }
    }
}

/// A copy of a layout.
pub fn copy_layout(layout: &TopologyLayout) -> (copy: TopologyLayout)
    ensures
        same_frame(copy, *layout),
        copy.devices@ == layout.devices@,
{
    let mut devices: Vec<TopologyDevice> = Vec::new();
    let mut i: usize = 0;
    while i < layout.devices.len()
        invariant
            i <= layout.devices@.len(),
            devices@ == layout.devices@.take(i as int),
        decreases layout.devices@.len() - i,
    {
        let d = &layout.devices[i];
        devices.push(
            TopologyDevice {
                device_id: d.device_id,
                display_name: d.display_name.clone(),
                position: d.position,
                status: d.status,
            },
        );
        i += 1;
        assert(devices@ =~= layout.devices@.take(i as int));
    }
    assert(layout.devices@.take(layout.devices@.len() as int) =~= layout.devices@);
    let copy = TopologyLayout {
        version: layout.version,
        grid_width: layout.grid_width,
        grid_height: layout.grid_height,
        controller_device_id: layout.controller_device_id,
        devices,
    };
    copy
}

/// The layout with `id` placed on the first cell, row by row, where that
/// keeps it valid; none where no cell does.
fn first_valid_placement(layout: &TopologyLayout, id: u128) -> (r: Option<TopologyLayout>)
    ensures
        match scan_from(
            layout.grid_width,
            layout.grid_height,
            layout.controller_device_id,
            layout.devices@,
            id,
            0,
            0,
        ) {
            Some(placed) => r matches Some(c) && same_frame(c, *layout) && c.devices@ == placed,
            None => r is None,
        },
{
    let w = layout.grid_width;
    let h = layout.grid_height;
    let ghost ctrl = layout.controller_device_id;
    let ghost devices = layout.devices@;
    let ghost target = scan_from(w, h, ctrl, devices, id, 0, 0);
    if h <= 0 {
        return None;
    }
    let mut y: i32 = 0;
    while y < h
        invariant
            0 <= y <= h,
            h == layout.grid_height,
            w == layout.grid_width,
            devices == layout.devices@,
            ctrl == layout.controller_device_id,
            target == scan_from(w, h, ctrl, devices, id, 0, 0),
            target == scan_from(w, h, ctrl, devices, id, y as int, 0),
        decreases h - y,
    {
        let mut x: i32 = 0;
        while x < w
            invariant
                0 <= y < h,
                0 <= x,
                x <= w || w <= 0,
                h == layout.grid_height,
                w == layout.grid_width,
                devices == layout.devices@,
                ctrl == layout.controller_device_id,
                target == scan_from(w, h, ctrl, devices, id, 0, 0),
                target == scan_from(w, h, ctrl, devices, id, y as int, x as int),
            decreases w - x,
        {
            let position = GridPosition { x, y };
            if layout.device_at(position).is_some() {
                x += 1;
                continue;
            }
            let mut candidate = copy_layout(layout);
            let placed = candidate.place_device(id, position);
            if placed.is_ok() {
                if candidate.validate().is_ok() {
                    return Some(candidate);
                }
            }
            x += 1;
        }
        assert(scan_from(w, h, ctrl, devices, id, y as int, x as int) == scan_from(
            w,
            h,
            ctrl,
            devices,
            id,
            y as int + 1,
            0,
        ));
        y += 1;
    }
    None
}

/// The pending devices' identifiers, in order.
fn pending_device_ids(devices: &Vec<TopologyDevice>) -> (ids: Vec<u128>)
    ensures
        ids@ == pending_ids(devices@),
{
    let mut ids: Vec<u128> = Vec::new();
    let mut i: usize = 0;
    while i < devices.len()
        invariant
            i <= devices@.len(),
            ids@ == pending_ids(devices@.take(i as int)),
        decreases devices@.len() - i,
    {
        assert(devices@.take(i as int + 1).drop_last() =~= devices@.take(i as int));
        if devices[i].position.is_none() {
            ids.push(devices[i].device_id);
        }
        i += 1;
    }
    assert(devices@.take(devices@.len() as int) =~= devices@);
    ids
}

/// Places every pending device on the first free cell, row by row, where
/// the layout stays valid; a device for which no cell is found stays
/// pending.
pub fn auto_place_pending_topology_devices(layout: &mut TopologyLayout) -> (r: Result<(), String>)
    ensures
        r is Ok,
        same_frame(*final(layout), *old(layout)),
        final(layout).devices@ == auto_placed(
            old(layout).grid_width,
            old(layout).grid_height,
            old(layout).controller_device_id,
            old(layout).devices@,
            pending_ids(old(layout).devices@),
        ),
{
    let ids = pending_device_ids(&layout.devices);
    let ghost start = layout.devices@;
    let mut i: usize = 0;
    while i < ids.len()
        invariant
            i <= ids@.len(),
            same_frame(*layout, *old(layout)),
            start == old(layout).devices@,
            ids@ == pending_ids(start),
            layout.devices@ == auto_placed(
                layout.grid_width,
                layout.grid_height,
                layout.controller_device_id,
                start,
                ids@.take(i as int),
            ),
        decreases ids@.len() - i,
    {
        let id = ids[i];
        assert(ids@.take(i as int + 1).drop_last() =~= ids@.take(i as int));
        assert(ids@.take(i as int + 1).last() == id);
        let already = match layout.device(id) {
            Some(d) => d.position.is_some(),
            None => false,
        };
        if !already {
            match first_valid_placement(layout, id) {
                Some(candidate) => {
                    *layout = candidate;
                },
                None => {},
            }
        }
        i += 1;
    }
    assert(ids@.take(ids@.len() as int) =~= ids@);
    Ok(())
}

/// A search for a cell only ends on a valid layout.
proof fn lemma_scan_keeps_valid(
    width: i32,
    height: i32,
    controller: u128,
    devices: Seq<TopologyDevice>,
    id: u128,
    y: int,
    x: int,
)
    ensures
        scan_from(width, height, controller, devices, id, y, x) matches Some(placed)
            ==> validation_of(width, height, controller, placed) is Ok,
    decreases height - y, width - x,
{
    if y >= height || y < 0 || x < 0 {
    } else if x >= width {
        lemma_scan_keeps_valid(width, height, controller, devices, id, y + 1, 0);
    } else {
        lemma_scan_keeps_valid(width, height, controller, devices, id, y, x + 1);
    }
}

/// Placing pending devices keeps a valid layout valid.
pub proof fn lemma_auto_place_keeps_valid(
    width: i32,
    height: i32,
    controller: u128,
    devices: Seq<TopologyDevice>,
    ids: Seq<u128>,
)
    requires
        validation_of(width, height, controller, devices) is Ok,
    ensures
        validation_of(width, height, controller, auto_placed(width, height, controller, devices, ids))
            is Ok,
    decreases ids.len(),
{
    if ids.len() > 0 {
        lemma_auto_place_keeps_valid(width, height, controller, devices, ids.drop_last());
        let before = auto_placed(width, height, controller, devices, ids.drop_last());
        lemma_scan_keeps_valid(width, height, controller, before, ids.last(), 0, 0);
    }
}

/// Some unrevoked entry of the store has this identifier.
pub open spec fn is_trusted_id(trusted: Seq<TrustedDevice>, id: u128) -> bool {
    exists|i: int|
        0 <= i < trusted.len() && (#[trigger] trusted[i]).device_id == id
            && trusted[i].revoked_at_unix_ms is None
}

/// The devices that stay in the layout: the controller and the trusted
/// ones, in order.
pub open spec fn kept_devices(devices: Seq<TopologyDevice>, controller: u128, trusted: Seq<TrustedDevice>) -> Seq<
    TopologyDevice,
>
    decreases devices.len(),
{
    if devices.len() == 0 {
        devices
    } else {
        let rest = kept_devices(devices.drop_last(), controller, trusted);
        let d = devices.last();
        if d.device_id == controller || is_trusted_id(trusted, d.device_id) {
            rest.push(d)
        } else {
            rest
        }
    }
}

/// The devices once every trusted device missing from the layout has
/// joined it as pending, in the store's order.
pub open spec fn joined_devices(devices: Seq<TopologyDevice>, trusted: Seq<TrustedDevice>) -> Seq<
    TopologyDevice,
>
    decreases trusted.len(),
{
    if trusted.len() == 0 {
        devices
    } else {
        let before = joined_devices(devices, trusted.drop_last());
        let t = trusted.last();
        if t.revoked_at_unix_ms is None && !has_device(before, t.device_id) {
            before.push(
                TopologyDevice {
                    device_id: t.device_id,
                    display_name: t.display_name,
                    position: None,
                    status: DeviceLayoutStatus::Pending,
                },
            )
        } else {
            before
        }
    }
}

/// The layout's devices once it is brought in line with the trust store.
pub open spec fn synced_devices(layout: TopologyLayout, trusted: Seq<TrustedDevice>) -> Seq<
    TopologyDevice,
> {
    let joined = joined_devices(
        kept_devices(layout.devices@, layout.controller_device_id, trusted),
        trusted,
    );
    auto_placed(
        layout.grid_width,
        layout.grid_height,
        layout.controller_device_id,
        joined,
        pending_ids(joined),
    )
}

fn trusted_id(store: &TrustStore, id: u128) -> (b: bool)
    ensures
        b == is_trusted_id(store.devices@, id),
{
    let mut i: usize = 0;
    while i < store.devices.len()
        invariant
            i <= store.devices@.len(),
            forall|j: int|
                0 <= j < i ==> !((#[trigger] store.devices@[j]).device_id == id
                    && store.devices@[j].revoked_at_unix_ms is None),
        decreases store.devices@.len() - i,
    {
        if store.devices[i].device_id == id && store.devices[i].revoked_at_unix_ms.is_none() {
            assert(store.devices@[i as int].device_id == id);
            return true;
        }
        i += 1;
    }
    false
}

fn layout_has(devices: &Vec<TopologyDevice>, id: u128) -> (b: bool)
    ensures
        b == has_device(devices@, id),
{
    let mut i: usize = 0;
    while i < devices.len()
        invariant
            i <= devices@.len(),
            forall|j: int| 0 <= j < i ==> (#[trigger] devices@[j]).device_id != id,
        decreases devices@.len() - i,
    {
        if devices[i].device_id == id {
            assert(devices@[i as int].device_id == id);
            return true;
        }
        i += 1;
    }
    false
}

/// Brings the layout in line with the trust store: only the controller and
/// trusted devices stay, trusted devices missing from it join as pending,
/// and pending devices are placed where the layout stays valid.
pub fn sync_topology_with_trusted_devices(layout: &mut TopologyLayout, trust_store: &TrustStore) -> (r:
    Result<(), String>)
    ensures
        r is Ok,
        same_frame(*final(layout), *old(layout)),
        final(layout).devices@ == synced_devices(*old(layout), trust_store.devices@),
{
    let ghost initial = layout.devices@;
    let ghost trusted = trust_store.devices@;
    let controller = layout.controller_device_id;
    let mut kept: Vec<TopologyDevice> = Vec::new();
    let mut rest = copy_layout(layout).devices;
    let n = rest.len();
    let mut i: usize = 0;
    while i < n
        invariant
            n == initial.len(),
            i <= n,
            trusted == trust_store.devices@,
            controller == old(layout).controller_device_id,
            initial == old(layout).devices@,
            rest@ == initial.skip(i as int),
            kept@ == kept_devices(initial.take(i as int), controller, trusted),
        decreases n - i,
    {
        let d = rest.remove(0);
        assert(initial.take(i as int + 1).drop_last() =~= initial.take(i as int));
        assert(initial.take(i as int + 1).last() == d);
        assert(rest@ =~= initial.skip(i as int + 1));
        if d.device_id == controller || trusted_id(trust_store, d.device_id) {
            kept.push(d);
        }
        i += 1;
    }
    assert(initial.take(n as int) =~= initial);
    let ghost kept_all = kept@;
    let mut j: usize = 0;
    while j < trust_store.devices.len()
        invariant
            j <= trusted.len(),
            trusted == trust_store.devices@,
            kept@ == joined_devices(kept_all, trusted.take(j as int)),
        decreases trusted.len() - j,
    {
        let t = &trust_store.devices[j];
        assert(trusted.take(j as int + 1).drop_last() =~= trusted.take(j as int));
        assert(trusted.take(j as int + 1).last() == *t);
        if t.revoked_at_unix_ms.is_none() && !layout_has(&kept, t.device_id) {
            kept.push(
                TopologyDevice {
                    device_id: t.device_id,
                    display_name: t.display_name.clone(),
                    position: None,
                    status: DeviceLayoutStatus::Pending,
                },
            );
        }
        j += 1;
    }
    assert(trusted.take(trusted.len() as int) =~= trusted);
    layout.devices = kept;
    auto_place_pending_topology_devices(layout)
}

/// The devices without those with identifier `id`, in order.
pub open spec fn devices_without(devices: Seq<TopologyDevice>, id: u128) -> Seq<TopologyDevice>
    decreases devices.len(),
{
    if devices.len() == 0 {
        devices
    } else {
        let rest = devices_without(devices.drop_last(), id);
        if devices.last().device_id == id {
            rest
        } else {
            rest.push(devices.last())
        }
    }
}

/// Takes a device out of the layout, wherever it was placed.
pub fn remove_device_from_topology(layout: &mut TopologyLayout, device_id: u128)
    ensures
        same_frame(*final(layout), *old(layout)),
        final(layout).devices@ == devices_without(old(layout).devices@, device_id),
{
    let ghost all = layout.devices@;
    let mut kept: Vec<TopologyDevice> = Vec::new();
    let mut rest = copy_layout(layout).devices;
    let n = rest.len();
    let mut i: usize = 0;
    while i < n
        invariant
            n == all.len(),
            i <= n,
            all == old(layout).devices@,
            rest@ == all.skip(i as int),
            kept@ == devices_without(all.take(i as int), device_id),
        decreases n - i,
    {
        let d = rest.remove(0);
        assert(all.take(i as int + 1).drop_last() =~= all.take(i as int));
        assert(all.take(i as int + 1).last() == d);
        assert(rest@ =~= all.skip(i as int + 1));
        if d.device_id != device_id {
            kept.push(d);
        }
        i += 1;
    }
    assert(all.take(n as int) =~= all);
    layout.devices = kept;
}

/// Two device sequences that list the same identifiers in the same order.
pub open spec fn same_ids(a: Seq<TopologyDevice>, b: Seq<TopologyDevice>) -> bool {
    a.len() == b.len() && forall|i: int| 0 <= i < a.len() ==> (#[trigger] a[i]).device_id == b[i].device_id
}

proof fn lemma_same_ids_same_members(a: Seq<TopologyDevice>, b: Seq<TopologyDevice>, id: u128)
    requires
        same_ids(a, b),
    ensures
        has_device(a, id) == has_device(b, id),
{
    if has_device(a, id) {
        let i = choose|i: int| 0 <= i < a.len() && a[i].device_id == id;
        assert(b[i].device_id == id);
    }
    if has_device(b, id) {
        let i = choose|i: int| 0 <= i < b.len() && b[i].device_id == id;
        assert(a[i].device_id == id);
    }
}

proof fn lemma_scan_keeps_ids(
    width: i32,
    height: i32,
    controller: u128,
    devices: Seq<TopologyDevice>,
    id: u128,
    y: int,
    x: int,
)
    ensures
        scan_from(width, height, controller, devices, id, y, x) matches Some(placed) ==> same_ids(
            placed,
            devices,
        ),
    decreases height - y, width - x,
{
    if y >= height || y < 0 || x < 0 {
    } else if x >= width {
        lemma_scan_keeps_ids(width, height, controller, devices, id, y + 1, 0);
    } else {
        let p = GridPosition { x: x as i32, y: y as i32 };
        match try_cell(width, height, controller, devices, id, p) {
            Some(placed) => {
                crate::topology::lemma_id_index(devices, id);
                let k = id_index(devices, id);
                assert(has_device(devices, id));
                if k >= devices.len() {
                    let j = choose|j: int| 0 <= j < devices.len() && devices[j].device_id == id;
                    assert(false);
                }
                assert(same_ids(placed, devices));
            },
            None => {
                lemma_scan_keeps_ids(width, height, controller, devices, id, y, x + 1);
            },
        }
    }
}

proof fn lemma_auto_placed_keeps_ids(
    width: i32,
    height: i32,
    controller: u128,
    devices: Seq<TopologyDevice>,
    ids: Seq<u128>,
)
    ensures
        same_ids(auto_placed(width, height, controller, devices, ids), devices),
    decreases ids.len(),
{
    if ids.len() > 0 {
        lemma_auto_placed_keeps_ids(width, height, controller, devices, ids.drop_last());
        let before = auto_placed(width, height, controller, devices, ids.drop_last());
        lemma_scan_keeps_ids(width, height, controller, before, ids.last(), 0, 0);
    }
}

proof fn lemma_kept_members(
    devices: Seq<TopologyDevice>,
    controller: u128,
    trusted: Seq<TrustedDevice>,
    id: u128,
)
    ensures
        has_device(kept_devices(devices, controller, trusted), id) == (has_device(devices, id) && (
        id == controller || is_trusted_id(trusted, id))),
    decreases devices.len(),
{
    if devices.len() > 0 {
        let rest = devices.drop_last();
        lemma_kept_members(rest, controller, trusted, id);
        let kept_rest = kept_devices(rest, controller, trusted);
        let d = devices.last();
        if has_device(rest, id) {
            let i = choose|i: int| 0 <= i < rest.len() && rest[i].device_id == id;
            assert(devices[i].device_id == id);
        }
        if has_device(devices, id) && !has_device(rest, id) {
            let i = choose|i: int| 0 <= i < devices.len() && devices[i].device_id == id;
            if i < rest.len() {
                assert(rest[i].device_id == id);
            }
            assert(d.device_id == id);
        }
        if d.device_id == controller || is_trusted_id(trusted, d.device_id) {
            let pushed = kept_rest.push(d);
            if has_device(kept_rest, id) {
                let i = choose|i: int| 0 <= i < kept_rest.len() && kept_rest[i].device_id == id;
                assert(pushed[i].device_id == id);
            }
            if has_device(pushed, id) && !has_device(kept_rest, id) {
                let i = choose|i: int| 0 <= i < pushed.len() && pushed[i].device_id == id;
                if i < kept_rest.len() {
                    assert(kept_rest[i].device_id == id);
                }
            }
            assert(pushed[pushed.len() - 1] == d);
        }
    }
}

proof fn lemma_joined_members(devices: Seq<TopologyDevice>, trusted: Seq<TrustedDevice>, id: u128)
    ensures
        has_device(joined_devices(devices, trusted), id) == (has_device(devices, id)
            || is_trusted_id(trusted, id)),
    decreases trusted.len(),
{
    if trusted.len() > 0 {
        let prefix = trusted.drop_last();
        lemma_joined_members(devices, prefix, id);
        let before = joined_devices(devices, prefix);
        let t = trusted.last();
        if is_trusted_id(prefix, id) {
            let i = choose|i: int|
                0 <= i < prefix.len() && (#[trigger] prefix[i]).device_id == id
                    && prefix[i].revoked_at_unix_ms is None;
            assert(trusted[i] == prefix[i]);
        }
        if is_trusted_id(trusted, id) && !is_trusted_id(prefix, id) {
            let i = choose|i: int|
                0 <= i < trusted.len() && (#[trigger] trusted[i]).device_id == id
                    && trusted[i].revoked_at_unix_ms is None;
            if i < prefix.len() {
                assert(prefix[i] == trusted[i]);
            }
            assert(t.device_id == id);
        }
        if t.revoked_at_unix_ms is None && !has_device(before, t.device_id) {
            let added = TopologyDevice {
                device_id: t.device_id,
                display_name: t.display_name,
                position: None,
                status: DeviceLayoutStatus::Pending,
            };
            let pushed = before.push(added);
            if has_device(before, id) {
                let i = choose|i: int| 0 <= i < before.len() && before[i].device_id == id;
                assert(pushed[i].device_id == id);
            }
            if has_device(pushed, id) && !has_device(before, id) {
                let i = choose|i: int| 0 <= i < pushed.len() && pushed[i].device_id == id;
                if i < before.len() {
                    assert(before[i].device_id == id);
                }
            }
            assert(pushed[pushed.len() - 1] == added);
        } else if is_trusted_id(trusted, id) && !is_trusted_id(prefix, id) {
            assert(t.revoked_at_unix_ms is None);
        }
    }
}

/// After a sync the layout holds exactly the trusted devices, and the
/// controller where it held it before.
pub proof fn lemma_sync_keeps_exactly_trusted(
    layout: TopologyLayout,
    trusted: Seq<TrustedDevice>,
    id: u128,
)
    ensures
        has_device(synced_devices(layout, trusted), id) == (is_trusted_id(trusted, id) || (id
            == layout.controller_device_id && has_device(layout.devices@, id))),
{
    let kept = kept_devices(layout.devices@, layout.controller_device_id, trusted);
    let joined = joined_devices(kept, trusted);
    lemma_kept_members(layout.devices@, layout.controller_device_id, trusted, id);
    lemma_joined_members(kept, trusted, id);
    lemma_auto_placed_keeps_ids(
        layout.grid_width,
        layout.grid_height,
        layout.controller_device_id,
        joined,
        pending_ids(joined),
    );
    lemma_same_ids_same_members(synced_devices(layout, trusted), joined, id);
}

} // verus!
