//! The screen layout: devices placed on a small grid around the controller,
//! their neighbours, and the rules a layout must meet.

use vstd::prelude::*;
use crate::primitives::{signed_decimal_string, signed_decimal_text, uuid_string, uuid_text};

verus! {

pub const DEFAULT_GRID_WIDTH: i32 = 3;

pub const DEFAULT_GRID_HEIGHT: i32 = 3;

#[derive(Clone, Copy, Debug, PartialEq, Eq, Hash, Structural)]
pub struct GridPosition {
    pub x: i32,
    pub y: i32,
}

#[derive(Clone, Copy, Debug, PartialEq, Eq, Structural)]
pub enum DeviceLayoutStatus {
    Online,
    Offline,
    Pending,
}

#[derive(Clone, Copy, Debug, PartialEq, Eq, Structural)]
pub enum EdgeDirection {
    Up,
    Down,
    Left,
    Right,
}

#[derive(Clone, Debug, PartialEq, Eq)]
pub struct TopologyDevice {
    pub device_id: u128,
    pub display_name: String,
    pub position: Option<GridPosition>,
    pub status: DeviceLayoutStatus,
}

#[derive(Clone, Debug, PartialEq, Eq)]
pub struct TopologyLayout {
    pub version: u64,
    pub grid_width: i32,
    pub grid_height: i32,
    pub controller_device_id: u128,
    pub devices: Vec<TopologyDevice>,
}

#[derive(Clone, Debug, PartialEq, Eq)]
pub struct TopologyHotUpdate {
    pub previous_version: u64,
    pub next_version: u64,
    pub layout: TopologyLayout,
}

/// Why a layout, or a change to it, is refused.
#[derive(Clone, Copy, Debug, PartialEq, Eq, Structural)]
pub enum TopologyError {
    /// The position's column and row and the grid's width and height.
    OutOfBounds(i32, i32, i32, i32),
    /// The shared cell's column and row, the device placed there first and
    /// the device placed there again.
    Overlap(i32, i32, u128, u128),
    ControllerNotPlaced,
    Isolated,
    DeviceExists,
    PositionOccupied,
    DeviceNotFound,
}

/// The text `message` gives for each case.
pub open spec fn topology_error_text(e: TopologyError) -> Seq<char> {
    match e {
        TopologyError::OutOfBounds(x, y, w, h) => "topology position out of bounds: ("@
            + signed_decimal_text(x as int) + ", "@ + signed_decimal_text(y as int) + ") for "@
            + signed_decimal_text(w as int) + "x"@ + signed_decimal_text(h as int) + " grid"@,
        TopologyError::Overlap(x, y, first, again) => "topology devices overlap at ("@
            + signed_decimal_text(x as int) + ", "@ + signed_decimal_text(y as int) + "): "@
            + uuid_text(first) + " and "@ + uuid_text(again),
        TopologyError::ControllerNotPlaced => "controller device must be placed"@,
        TopologyError::Isolated => "topology contains isolated placed devices"@,
        TopologyError::DeviceExists => "device already exists in topology"@,
        TopologyError::PositionOccupied => "topology position is already occupied"@,
        TopologyError::DeviceNotFound => "device not found in topology"@,
    }
}

/// `text` with `tail` appended.
fn then(text: String, tail: &str) -> (out: String)
    ensures
        out@ == text@ + tail@,
{
    let mut out = text;
    out.append(tail);
    out
}

impl TopologyError {
    /// A human-readable description of the error.
    pub fn message(&self) -> (text: String)
        ensures
            text@ == topology_error_text(*self),
    {
        match self {
            TopologyError::OutOfBounds(x, y, w, h) => {
                let t = String::from_str("topology position out of bounds: (");
                let t = then(t, signed_decimal_string(*x).as_str());
                let t = then(t, ", ");
                let t = then(t, signed_decimal_string(*y).as_str());
                let t = then(t, ") for ");
                let t = then(t, signed_decimal_string(*w).as_str());
                let t = then(t, "x");
                let t = then(t, signed_decimal_string(*h).as_str());
                then(t, " grid")
            },
            TopologyError::Overlap(x, y, first, again) => {
                let t = String::from_str("topology devices overlap at (");
                let t = then(t, signed_decimal_string(*x).as_str());
                let t = then(t, ", ");
                let t = then(t, signed_decimal_string(*y).as_str());
                let t = then(t, "): ");
                let t = then(t, uuid_string(*first).as_str());
                let t = then(t, " and ");
                then(t, uuid_string(*again).as_str())
            },
            TopologyError::ControllerNotPlaced => String::from_str(
                "controller device must be placed",
            ),
            TopologyError::Isolated => String::from_str(
                "topology contains isolated placed devices",
            ),
            TopologyError::DeviceExists => String::from_str("device already exists in topology"),
            TopologyError::PositionOccupied => String::from_str(
                "topology position is already occupied",
            ),
            TopologyError::DeviceNotFound => String::from_str("device not found in topology"),
        }
    }
}

/// The device a borrowed option points at.
pub open spec fn opt_deref(o: Option<&TopologyDevice>) -> Option<TopologyDevice> {
    match o {
        Some(d) => Some(*d),
        None => None,
    }
}

pub open spec fn in_bounds(width: i32, height: i32, p: GridPosition) -> bool {
    0 <= p.x < width && 0 <= p.y < height
}

/// Index of the first device with the given identifier, or the length of
/// the sequence where there is none.
pub open spec fn id_index(devices: Seq<TopologyDevice>, id: u128) -> int
    decreases devices.len(),
{
    if devices.len() == 0 {
        0
    } else {
        let k = id_index(devices.drop_last(), id);
        if k < devices.len() - 1 {
            k
        } else if devices.last().device_id == id {
            devices.len() - 1
        } else {
            devices.len() as int
        }
    }
}

/// Index of the first device placed at `p`, or the length of the sequence.
pub open spec fn position_index(devices: Seq<TopologyDevice>, p: GridPosition) -> int
    decreases devices.len(),
{
    if devices.len() == 0 {
        0
    } else {
        let k = position_index(devices.drop_last(), p);
        if k < devices.len() - 1 {
            k
        } else if devices.last().position == Some(p) {
            devices.len() - 1
        } else {
            devices.len() as int
        }
    }
}

pub proof fn lemma_id_index(devices: Seq<TopologyDevice>, id: u128)
    ensures
        0 <= id_index(devices, id) <= devices.len(),
        id_index(devices, id) < devices.len() ==> devices[id_index(devices, id)].device_id == id,
        forall|j: int| 0 <= j < id_index(devices, id) ==> devices[j].device_id != id,
    decreases devices.len(),
{
    if devices.len() > 0 {
        lemma_id_index(devices.drop_last(), id);
        assert(forall|j: int| 0 <= j < devices.len() - 1 ==> devices.drop_last()[j] == devices[j]);
    }
}

pub proof fn lemma_position_index(devices: Seq<TopologyDevice>, p: GridPosition)
    ensures
        0 <= position_index(devices, p) <= devices.len(),
        position_index(devices, p) < devices.len() ==> devices[position_index(
            devices,
            p,
        )].position == Some(p),
        forall|j: int| 0 <= j < position_index(devices, p) ==> devices[j].position != Some(p),
    decreases devices.len(),
{
    if devices.len() > 0 {
        lemma_position_index(devices.drop_last(), p);
        assert(forall|j: int| 0 <= j < devices.len() - 1 ==> devices.drop_last()[j] == devices[j]);
    }
}

/// The devices not yet placed, in order.
pub open spec fn pending_of(devices: Seq<TopologyDevice>) -> Seq<TopologyDevice>
    decreases devices.len(),
{
    if devices.len() == 0 {
        Seq::empty()
    } else if devices.last().position is None {
        pending_of(devices.drop_last()).push(devices.last())
    } else {
        pending_of(devices.drop_last())
    }
}

/// The device with the given identifier, the first one where there are several.
pub open spec fn find_device(devices: Seq<TopologyDevice>, id: u128) -> Option<TopologyDevice> {
    let k = id_index(devices, id);
    if k < devices.len() {
        Some(devices[k])
    } else {
        None
    }
}

/// The device placed at `p`, the first one where there are several.
pub open spec fn find_at(devices: Seq<TopologyDevice>, p: GridPosition) -> Option<TopologyDevice> {
    let k = position_index(devices, p);
    if k < devices.len() {
        Some(devices[k])
    } else {
        None
    }
}

pub open spec fn has_device(devices: Seq<TopologyDevice>, id: u128) -> bool {
    exists|i: int| 0 <= i < devices.len() && devices[i].device_id == id
}

pub open spec fn position_taken(devices: Seq<TopologyDevice>, p: GridPosition) -> bool {
    exists|i: int| 0 <= i < devices.len() && devices[i].position == Some(p)
}

/// The cell one step from `p` in direction `d`, in unbounded coordinates.
pub open spec fn step(p: GridPosition, d: EdgeDirection) -> (int, int) {
    match d {
        EdgeDirection::Up => (p.x as int, p.y - 1),
        EdgeDirection::Down => (p.x as int, p.y + 1),
        EdgeDirection::Left => (p.x - 1, p.y as int),
        EdgeDirection::Right => (p.x + 1, p.y as int),
    }
}

/// The device next to `id` in direction `d`, if both are placed.
pub open spec fn neighbor_of(devices: Seq<TopologyDevice>, id: u128, d: EdgeDirection) -> Option<
    TopologyDevice,
> {
    match find_device(devices, id) {
        Some(dev) => match dev.position {
            Some(p) => {
                let t = step(p, d);
                if i32::MIN <= t.0 <= i32::MAX && i32::MIN <= t.1 <= i32::MAX {
                    find_at(devices, GridPosition { x: t.0 as i32, y: t.1 as i32 })
                } else {
                    None
                }
            },
            None => None,
        },
        None => None,
    }
}

/// Two layouts agree on everything but their devices.
pub open spec fn same_frame(a: TopologyLayout, b: TopologyLayout) -> bool {
    a.version == b.version && a.grid_width == b.grid_width && a.grid_height == b.grid_height
        && a.controller_device_id == b.controller_device_id
}

/// What `place_device` answers for a layout.
pub open spec fn place_outcome(layout: TopologyLayout, id: u128, p: GridPosition) -> Result<
    (),
    TopologyError,
> {
    if !in_bounds(layout.grid_width, layout.grid_height, p) {
        Err(TopologyError::OutOfBounds(p.x, p.y, layout.grid_width, layout.grid_height))
    } else if exists|j: int|
        0 <= j < layout.devices@.len() && layout.devices@[j].device_id != id
            && layout.devices@[j].position == Some(p) {
        Err(TopologyError::PositionOccupied)
    } else if !has_device(layout.devices@, id) {
        Err(TopologyError::DeviceNotFound)
    } else {
        Ok(())
    }
}

/// The device as `place_device` leaves it.
pub open spec fn placed_device(d: TopologyDevice, p: GridPosition) -> TopologyDevice {
    TopologyDevice {
        position: Some(p),
        status: if d.status == DeviceLayoutStatus::Pending {
            DeviceLayoutStatus::Online
        } else {
            d.status
        },
        ..d
    }
}

fn position_eq(a: Option<GridPosition>, p: GridPosition) -> (r: bool)
    ensures
        r == (a == Some(p)),
{
    match a {
        Some(q) => q.x == p.x && q.y == p.y,
        None => false,
    }
}

/// Fails with `OutOfBounds` unless `position` lies on a `width` by `height` grid.
pub fn ensure_in_bounds(width: i32, height: i32, position: GridPosition) -> (r: Result<
    (),
    TopologyError,
>)
    ensures
        r == (if in_bounds(width, height, position) {
            Ok(())
        } else {
            Err(TopologyError::OutOfBounds(position.x, position.y, width, height))
        }),
{
    if position.x < 0 || position.y < 0 || position.x >= width || position.y >= height {
        Err(TopologyError::OutOfBounds(position.x, position.y, width, height))
    } else {
        Ok(())
    }
}

/// The four cells next to `position`: above, below, left, right.
pub fn neighbors(position: GridPosition) -> (r: [GridPosition; 4])
    requires
        i32::MIN < position.x < i32::MAX,
        i32::MIN < position.y < i32::MAX,
    ensures
        r@[0].x == position.x && r@[0].y == position.y - 1,
        r@[1].x == position.x && r@[1].y == position.y + 1,
        r@[2].x == position.x - 1 && r@[2].y == position.y,
        r@[3].x == position.x + 1 && r@[3].y == position.y,
{
    [
        GridPosition { x: position.x, y: position.y - 1 },
        GridPosition { x: position.x, y: position.y + 1 },
        GridPosition { x: position.x - 1, y: position.y },
        GridPosition { x: position.x + 1, y: position.y },
    ]
}

/// Two cells share an edge.
pub open spec fn adjacent(a: GridPosition, b: GridPosition) -> bool {
    (a.x == b.x && (a.y - b.y == 1 || b.y - a.y == 1)) || (a.y == b.y && (a.x - b.x == 1 || b.x
        - a.x == 1))
}

/// The cells that hold a device.
pub open spec fn placed_set(devices: Seq<TopologyDevice>) -> Set<GridPosition> {
    Set::new(|p: GridPosition| position_taken(devices, p))
}

/// No step along an edge leads from `s` to an occupied cell outside `s`.
pub open spec fn closed_within(s: Set<GridPosition>, placed: Set<GridPosition>) -> bool {
    forall|p: GridPosition, q: GridPosition|
        #![trigger s.contains(p), placed.contains(q)]
        s.contains(p) && placed.contains(q) && adjacent(p, q) ==> s.contains(q)
}

/// Every occupied cell can be reached from `start` by steps between occupied
/// neighbouring cells: each set that holds `start` and is closed under such
/// steps holds all of them.
pub open spec fn connected_from(placed: Set<GridPosition>, start: GridPosition) -> bool {
    forall|s: Set<GridPosition>|
        #[trigger] closed_within(s, placed) && s.contains(start) ==> placed.subset_of(s)
}

/// The first placement fault met when going through the devices in order:
/// a position off the grid, or one that an earlier device already holds.
pub open spec fn placement_error(devices: Seq<TopologyDevice>, width: i32, height: i32) -> Option<
    TopologyError,
>
    decreases devices.len(),
{
    if devices.len() == 0 {
        None
    } else {
        match placement_error(devices.drop_last(), width, height) {
            Some(e) => Some(e),
            None => match devices.last().position {
                Some(p) => if !in_bounds(width, height, p) {
                    Some(TopologyError::OutOfBounds(p.x, p.y, width, height))
                } else if position_taken(devices.drop_last(), p) {
                    Some(
                        TopologyError::Overlap(
                            p.x,
                            p.y,
                            devices.drop_last()[position_index(devices.drop_last(), p)].device_id,
                            devices.last().device_id,
                        ),
                    )
                } else {
                    None
                },
                None => None,
            },
        }
    }
}

pub open spec fn controller_placed(devices: Seq<TopologyDevice>, controller: u128) -> bool {
    exists|i: int|
        0 <= i < devices.len() && devices[i].device_id == controller && devices[i].position is Some
}

/// What `validate` answers for a layout of the given grid, controller and
/// devices: the grid must have room, every placed device must lie on it and
/// hold a cell of its own, the controller must be placed, and every placed
/// device must be reachable from the controller through neighbouring placed
/// devices.
pub open spec fn validation_of(
    width: i32,
    height: i32,
    controller: u128,
    devices: Seq<TopologyDevice>,
) -> Result<(), TopologyError> {
    if !(0 < width && 0 < height) {
        Err(TopologyError::OutOfBounds(0, 0, width, height))
    } else {
        match placement_error(devices, width, height) {
            Some(e) => Err(e),
            None => if !controller_placed(devices, controller) {
                Err(TopologyError::ControllerNotPlaced)
            } else {
                match devices[id_index(devices, controller)].position {
                    None => Err(TopologyError::ControllerNotPlaced),
                    Some(start) => if connected_from(placed_set(devices), start) {
                        Ok(())
                    } else {
                        Err(TopologyError::Isolated)
                    },
                }
            },
        }
    }
}

/// What `validate` answers for a layout.
pub open spec fn validation_result(layout: TopologyLayout) -> Result<(), TopologyError> {
    validation_of(
        layout.grid_width,
        layout.grid_height,
        layout.controller_device_id,
        layout.devices@,
    )
}

/// Number of `false` entries.
pub open spec fn count_false(s: Seq<bool>) -> nat
    decreases s.len(),
{
    if s.len() == 0 {
        0
    } else {
        count_false(s.drop_last()) + if s.last() {
            0nat
        } else {
            1nat
        }
    }
}

pub proof fn lemma_count_false_update(s: Seq<bool>, j: int)
    requires
        0 <= j < s.len(),
        !s[j],
    ensures
        count_false(s.update(j, true)) + 1 == count_false(s),
    decreases s.len(),
{
    if j == s.len() - 1 {
        assert(s.update(j, true).drop_last() =~= s.drop_last());
    } else {
        assert(s.update(j, true).drop_last() =~= s.drop_last().update(j, true));
        lemma_count_false_update(s.drop_last(), j);
    }
}

pub proof fn lemma_placement_error_prefix(
    devices: Seq<TopologyDevice>,
    width: i32,
    height: i32,
    n: int,
)
    requires
        0 <= n <= devices.len(),
        placement_error(devices.take(n), width, height) is Some,
    ensures
        placement_error(devices, width, height) == placement_error(devices.take(n), width, height),
    decreases devices.len() - n,
{
    if n < devices.len() {
        assert(devices.take(n + 1).drop_last() =~= devices.take(n));
        lemma_placement_error_prefix(devices, width, height, n + 1);
    } else {
        assert(devices.take(n) =~= devices);
    }
}

/// The set of cells listed in a sequence.
pub open spec fn cells(s: Seq<GridPosition>) -> Set<GridPosition> {
    Set::new(|p: GridPosition| s.contains(p))
}

fn adjacent_exec(a: GridPosition, b: GridPosition) -> (r: bool)
    requires
        i32::MIN < a.x < i32::MAX,
        i32::MIN < a.y < i32::MAX,
    ensures
        r == adjacent(a, b),
{
    let around = neighbors(a);
    let mut k: usize = 0;
    while k < 4
        invariant
            k <= 4,
            around@.len() == 4,
            around@[0].x == a.x && around@[0].y == a.y - 1,
            around@[1].x == a.x && around@[1].y == a.y + 1,
            around@[2].x == a.x - 1 && around@[2].y == a.y,
            around@[3].x == a.x + 1 && around@[3].y == a.y,
            forall|m: int| 0 <= m < k ==> around@[m] != b,
        decreases 4 - k,
    {
        if around[k].x == b.x && around[k].y == b.y {
            assert(around@[k as int] == b);
            return true;
        }
        k += 1;
    }
    false
}

/// Whether every listed cell can be reached from `start` through listed
/// neighbouring cells.
fn connected(placed: &Vec<GridPosition>, start: GridPosition) -> (r: bool)
    requires
        placed@.contains(start),
        forall|a: int, b: int| 0 <= a < b < placed@.len() ==> placed@[a] != placed@[b],
        forall|a: int|
            0 <= a < placed@.len() ==> 0 <= (#[trigger] placed@[a]).x < i32::MAX && 0
                <= placed@[a].y < i32::MAX,
    ensures
        r == connected_from(cells(placed@), start),
{
    let ghost pset = cells(placed@);
    let n = placed.len();
    let mut s_idx: usize = 0;
    while s_idx < n && !(placed[s_idx].x == start.x && placed[s_idx].y == start.y)
        invariant
            s_idx <= n,
            n == placed@.len(),
            placed@.contains(start),
            forall|a: int| 0 <= a < s_idx ==> placed@[a] != start,
        decreases n - s_idx,
    {
        s_idx += 1;
    }
    if s_idx == n {
        let ghost w = choose|a: int| 0 <= a < placed@.len() && placed@[a] == start;
        assert(false);
    }
    let mut seen: Vec<bool> = Vec::new();
    let mut f: usize = 0;
    while f < n
        invariant
            f <= n,
            seen@.len() == f,
            forall|a: int| 0 <= a < f ==> !seen@[a],
        decreases n - f,
    {
        seen.push(false);
        f += 1;
    }
    proof {
        lemma_count_false_update(seen@, s_idx as int);
    }
    let ghost unseen = seen@;
    seen.set(s_idx, true);
    let mut queue: Vec<usize> = Vec::new();
    queue.push(s_idx);
    assert(placed@[s_idx as int] == start);
    assert forall|j: int| 0 <= j < n && #[trigger] seen@[j] implies exists|a: int|
        0 <= a < queue@.len() && queue@[a] == j by {
        assert(j == s_idx);
        assert(queue@[0] == j);
    }
    let mut head: usize = 0;
    while head < queue.len()
        invariant
            n == placed@.len(),
            pset == cells(placed@),
            seen@.len() == n,
            head <= queue@.len(),
            s_idx < n,
            placed@[s_idx as int] == start,
            seen@[s_idx as int],
            forall|a: int| 0 <= a < queue@.len() ==> (#[trigger] queue@[a]) < n,
            forall|a: int| 0 <= a < queue@.len() ==> seen@[#[trigger] queue@[a] as int],
            forall|j: int| 0 <= j < n && #[trigger] seen@[j] ==> exists|a: int|
                0 <= a < queue@.len() && queue@[a] == j,
            forall|a: int|
                0 <= a < placed@.len() ==> 0 <= (#[trigger] placed@[a]).x < i32::MAX && 0
                    <= placed@[a].y < i32::MAX,
            forall|s: Set<GridPosition>|
                #[trigger] closed_within(s, pset) && s.contains(start) ==> forall|j: int|
                    0 <= j < n && seen@[j] ==> s.contains(#[trigger] placed@[j]),
            forall|a: int, j: int|
                0 <= a < head && 0 <= j < n && adjacent(placed@[#[trigger] queue@[a] as int], #[trigger] placed@[j])
                    ==> seen@[j],
        decreases 2 * count_false(seen@) + queue@.len() - head,
    {
        let cur_idx = queue[head];
        let cur = placed[cur_idx];
        let ghost measure0 = 2 * count_false(seen@) + queue@.len();
        let mut j: usize = 0;
        while j < n
            invariant
                n == placed@.len(),
                pset == cells(placed@),
                seen@.len() == n,
                head < queue@.len(),
                queue@[head as int] == cur_idx,
                cur_idx < n,
                placed@[cur_idx as int] == cur,
                seen@[cur_idx as int],
                s_idx < n,
                placed@[s_idx as int] == start,
                seen@[s_idx as int],
                j <= n,
                2 * count_false(seen@) + queue@.len() <= measure0,
                forall|a: int| 0 <= a < queue@.len() ==> (#[trigger] queue@[a]) < n,
                forall|a: int| 0 <= a < queue@.len() ==> seen@[#[trigger] queue@[a] as int],
                forall|j2: int| 0 <= j2 < n && #[trigger] seen@[j2] ==> exists|a: int|
                    0 <= a < queue@.len() && queue@[a] == j2,
                forall|a: int|
                    0 <= a < placed@.len() ==> 0 <= (#[trigger] placed@[a]).x < i32::MAX && 0
                        <= placed@[a].y < i32::MAX,
                forall|s: Set<GridPosition>|
                    #[trigger] closed_within(s, pset) && s.contains(start) ==> forall|j2: int|
                        0 <= j2 < n && seen@[j2] ==> s.contains(#[trigger] placed@[j2]),
                forall|a: int, j2: int|
                    0 <= a < head && 0 <= j2 < n && adjacent(placed@[#[trigger] queue@[a] as int], #[trigger] placed@[j2])
                        ==> seen@[j2],
                forall|j2: int| 0 <= j2 < j && adjacent(cur, #[trigger] placed@[j2]) ==> seen@[j2],
            decreases n - j,
        {
            if !seen[j] && adjacent_exec(cur, placed[j]) {
                let ghost old_seen = seen@;
                let ghost old_queue = queue@;
                proof {
                    lemma_count_false_update(seen@, j as int);
                }
                seen.set(j, true);
                queue.push(j);
                assert forall|s: Set<GridPosition>|
                    #[trigger] closed_within(s, pset) && s.contains(start) implies forall|j2: int|
                        0 <= j2 < n && seen@[j2] ==> s.contains(#[trigger] placed@[j2]) by {
                    assert(s.contains(cur));
                    assert(pset.contains(placed@[j as int]));
                }
                assert forall|j2: int| 0 <= j2 < n && #[trigger] seen@[j2] implies exists|a: int|
                    0 <= a < queue@.len() && queue@[a] == j2 by {
                    if j2 == j {
                        assert(queue@[queue@.len() - 1] == j2);
                    } else {
                        assert(old_seen[j2]);
                        let a = choose|a: int| 0 <= a < old_queue.len() && old_queue[a] == j2;
                        assert(queue@[a] == j2);
                    }
                }
            }
            j += 1;
        }
        head += 1;
    }
    let mut all = true;
    let mut m: usize = 0;
    while m < n
        invariant
            m <= n,
            seen@.len() == n,
            all == (forall|a: int| 0 <= a < m ==> seen@[a]),
        decreases n - m,
    {
        if !seen[m] {
            all = false;
        }
        m += 1;
    }
    if all {
        assert forall|s: Set<GridPosition>|
            #[trigger] closed_within(s, pset) && s.contains(start) implies pset.subset_of(s) by {
            assert forall|p: GridPosition| pset.contains(p) implies s.contains(p) by {
                let j = choose|j: int| 0 <= j < placed@.len() && placed@[j] == p;
                assert(seen@[j]);
            }
        }
        true
    } else {
        let ghost reached = Set::new(
            |p: GridPosition| exists|j: int| 0 <= j < n && seen@[j] && placed@[j] == p,
        );
        assert(closed_within(reached, pset)) by {
            assert forall|p: GridPosition, q: GridPosition|
                reached.contains(p) && pset.contains(q) && adjacent(p, q) implies reached.contains(q) by {
                let j = choose|j: int| 0 <= j < n && seen@[j] && placed@[j] == p;
                let a = choose|a: int| 0 <= a < queue@.len() && queue@[a] == j;
                let j2 = choose|j2: int| 0 <= j2 < placed@.len() && placed@[j2] == q;
                assert(adjacent(placed@[queue@[a] as int], placed@[j2]));
                assert(seen@[j2]);
            }
        }
        assert(reached.contains(start)) by {
            assert(seen@[s_idx as int] && placed@[s_idx as int] == start);
        }
        let ghost missing = choose|a: int| 0 <= a < n && !seen@[a];
        assert(pset.contains(placed@[missing]));
        assert(!reached.contains(placed@[missing]));
        assert(!pset.subset_of(reached));
        false
    }
}

impl TopologyLayout {
    /// A fresh layout holding only the controller, placed online at the
    /// centre of the default grid.
    pub fn new(controller_device_id: u128, controller_name: String) -> (layout: Self)
        ensures
            layout.version == 1,
            layout.grid_width == DEFAULT_GRID_WIDTH,
            layout.grid_height == DEFAULT_GRID_HEIGHT,
            layout.controller_device_id == controller_device_id,
            layout.devices@ == initial_devices(controller_device_id, controller_name),
    {
        let mut devices = Vec::new();
        devices.push(
            TopologyDevice {
                device_id: controller_device_id,
                display_name: controller_name,
                position: Some(
                    GridPosition { x: DEFAULT_GRID_WIDTH / 2, y: DEFAULT_GRID_HEIGHT / 2 },
                ),
                status: DeviceLayoutStatus::Online,
            },
        );
        TopologyLayout {
            version: 1,
            grid_width: DEFAULT_GRID_WIDTH,
            grid_height: DEFAULT_GRID_HEIGHT,
            controller_device_id,
            devices,
        }
    }

    fn index_of(&self, device_id: u128) -> (k: usize)
        ensures
            k == id_index(self.devices@, device_id),
    {
        proof {
            lemma_id_index(self.devices@, device_id);
        }
        let mut i: usize = 0;
        while i < self.devices.len()
            invariant
                i <= self.devices@.len(),
                id_index(self.devices@.take(i as int), device_id) == i,
                forall|j: int| 0 <= j < i ==> self.devices@[j].device_id != device_id,
            decreases self.devices@.len() - i,
        {
            assert(self.devices@.take(i as int + 1).drop_last() =~= self.devices@.take(i as int));
            if self.devices[i].device_id == device_id {
                proof {
                    lemma_id_index_prefix(self.devices@, device_id, i as int + 1);
                }
                return i;
            }
            i += 1;
        }
        assert(self.devices@.take(i as int) =~= self.devices@);
        i
    }

    fn index_at(&self, position: GridPosition) -> (k: usize)
        ensures
            k == position_index(self.devices@, position),
    {
        let mut i: usize = 0;
        while i < self.devices.len()
            invariant
                i <= self.devices@.len(),
                position_index(self.devices@.take(i as int), position) == i,
            decreases self.devices@.len() - i,
        {
            assert(self.devices@.take(i as int + 1).drop_last() =~= self.devices@.take(i as int));
            if position_eq(self.devices[i].position, position) {
                proof {
                    lemma_position_index_prefix(self.devices@, position, i as int + 1);
                }
                return i;
            }
            i += 1;
        }
        assert(self.devices@.take(i as int) =~= self.devices@);
        i
    }

    /// The devices that are not yet placed, in layout order.
    pub fn pending_devices(&self) -> (pending: Vec<&TopologyDevice>)
        ensures
            pending@.map_values(|d: &TopologyDevice| *d) == pending_of(self.devices@),
    {
        let mut pending: Vec<&TopologyDevice> = Vec::new();
        let mut i: usize = 0;
        while i < self.devices.len()
            invariant
                i <= self.devices@.len(),
                pending@.map_values(|d: &TopologyDevice| *d) == pending_of(
                    self.devices@.take(i as int),
                ),
            decreases self.devices@.len() - i,
        {
            let ghost before = pending@;
            assert(self.devices@.take(i as int + 1).drop_last() =~= self.devices@.take(i as int));
            if self.devices[i].position.is_none() {
                pending.push(&self.devices[i]);
                assert(pending@.map_values(|d: &TopologyDevice| *d) =~= before.map_values(
                    |d: &TopologyDevice| *d,
                ).push(self.devices@[i as int]));
            }
            i += 1;
        }
        assert(self.devices@.take(i as int) =~= self.devices@);
        pending
    }

    /// The device placed at `position`, if any.
    pub fn device_at(&self, position: GridPosition) -> (found: Option<&TopologyDevice>)
        ensures
            opt_deref(found) == find_at(self.devices@, position),
    {
        let k = self.index_at(position);
        if k < self.devices.len() {
            Some(&self.devices[k])
        } else {
            None
        }
    }

    /// Adds a device that is known but not yet placed on the grid.
    pub fn add_pending_device(&mut self, device_id: u128, display_name: String) -> (r: Result<
        (),
        TopologyError,
    >)
        ensures
            has_device(old(self).devices@, device_id) ==> r == Err::<(), TopologyError>(
                TopologyError::DeviceExists,
            ) && *final(self) == *old(self),
            !has_device(old(self).devices@, device_id) ==> r is Ok && final(self).devices@
                == old(self).devices@.push(
                TopologyDevice {
                    device_id,
                    display_name,
                    position: None,
                    status: DeviceLayoutStatus::Pending,
                },
            ) && same_frame(*final(self), *old(self)),
    {
        let k = self.index_of(device_id);
        proof {
            lemma_id_index(self.devices@, device_id);
        }
        if k < self.devices.len() {
            return Err(TopologyError::DeviceExists);
        }
        self.devices.push(
            TopologyDevice {
                device_id,
                display_name,
                position: None,
                status: DeviceLayoutStatus::Pending,
            },
        );
        Ok(())
    }

    /// Places a device on the grid; a pending device comes online.
    pub fn place_device(&mut self, device_id: u128, position: GridPosition) -> (r: Result<
        (),
        TopologyError,
    >)
        ensures
            r == place_outcome(*old(self), device_id, position),
            r is Ok ==> final(self).devices@ == old(self).devices@.update(
                id_index(old(self).devices@, device_id),
                placed_device(old(self).devices@[id_index(old(self).devices@, device_id)], position),
            ),
            r is Err ==> final(self).devices@ == old(self).devices@,
            final(self).version == old(self).version,
            final(self).grid_width == old(self).grid_width,
            final(self).grid_height == old(self).grid_height,
            final(self).controller_device_id == old(self).controller_device_id,
    {
        if ensure_in_bounds(self.grid_width, self.grid_height, position).is_err() {
            return Err(
                TopologyError::OutOfBounds(position.x, position.y, self.grid_width, self.grid_height),
            );
        }
        let mut i: usize = 0;
        while i < self.devices.len()
            invariant
                i <= self.devices@.len(),
                *self == *old(self),
                in_bounds(self.grid_width, self.grid_height, position),
                forall|j: int|
                    0 <= j < i ==> !(self.devices@[j].device_id != device_id
                        && self.devices@[j].position == Some(position)),
            decreases self.devices@.len() - i,
        {
            if self.devices[i].device_id != device_id && position_eq(
                self.devices[i].position,
                position,
            ) {
                assert(self.devices@[i as int].device_id != device_id
                    && self.devices@[i as int].position == Some(position));
                return Err(TopologyError::PositionOccupied);
            }
            i += 1;
        }
        let k = self.index_of(device_id);
        proof {
            lemma_id_index(self.devices@, device_id);
        }
        if k >= self.devices.len() {
            return Err(TopologyError::DeviceNotFound);
        }
        self.devices[k].position = Some(position);
        if self.devices[k].status == DeviceLayoutStatus::Pending {
            self.devices[k].status = DeviceLayoutStatus::Online;
        }
        Ok(())
    }

    /// Marks a device offline; it keeps its place on the grid.
    pub fn mark_offline(&mut self, device_id: u128) -> (r: Result<(), TopologyError>)
        ensures
            has_device(old(self).devices@, device_id) ==> r is Ok && final(self).devices@
                == old(self).devices@.update(
                id_index(old(self).devices@, device_id),
                TopologyDevice {
                    status: DeviceLayoutStatus::Offline,
                    ..old(self).devices@[id_index(old(self).devices@, device_id)]
                },
            ),
            !has_device(old(self).devices@, device_id) ==> r == Err::<(), TopologyError>(
                TopologyError::DeviceNotFound,
            ) && final(self).devices@ == old(self).devices@,
            final(self).version == old(self).version,
            final(self).grid_width == old(self).grid_width,
            final(self).grid_height == old(self).grid_height,
            final(self).controller_device_id == old(self).controller_device_id,
    {
        let k = self.index_of(device_id);
        proof {
            lemma_id_index(self.devices@, device_id);
        }
        if k >= self.devices.len() {
            return Err(TopologyError::DeviceNotFound);
        }
        self.devices[k].status = DeviceLayoutStatus::Offline;
        Ok(())
    }

    /// Gives the device `device_id` a new display name; false where the
    /// layout has no such device, which then stays as it was.
    pub fn rename_device(&mut self, device_id: u128, display_name: String) -> (found: bool)
        ensures
            found == has_device(old(self).devices@, device_id),
            found ==> final(self).devices@ == old(self).devices@.update(
                id_index(old(self).devices@, device_id),
                TopologyDevice {
                    display_name,
                    ..old(self).devices@[id_index(old(self).devices@, device_id)]
                },
            ),
            !found ==> final(self).devices@ == old(self).devices@,
            final(self).version == old(self).version,
            final(self).grid_width == old(self).grid_width,
            final(self).grid_height == old(self).grid_height,
            final(self).controller_device_id == old(self).controller_device_id,
    {
        let k = self.index_of(device_id);
        proof {
            lemma_id_index(self.devices@, device_id);
        }
        if k >= self.devices.len() {
            return false;
        }
        self.devices[k].display_name = display_name;
        true
    }

    /// The device placed next to `device_id` in direction `direction`.
    pub fn neighbor(&self, device_id: u128, direction: EdgeDirection) -> (found: Option<
        &TopologyDevice,
    >)
        ensures
            opt_deref(found) == neighbor_of(self.devices@, device_id, direction),
    {
        let k = self.index_of(device_id);
        if k >= self.devices.len() {
            return None;
        }
        let position = match self.devices[k].position {
            Some(p) => p,
            None => return None,
        };
        let target = match direction {
            EdgeDirection::Up => {
                if position.y == i32::MIN {
                    return None;
                }
                GridPosition { x: position.x, y: position.y - 1 }
            },
            EdgeDirection::Down => {
                if position.y == i32::MAX {
                    return None;
                }
                GridPosition { x: position.x, y: position.y + 1 }
            },
            EdgeDirection::Left => {
                if position.x == i32::MIN {
                    return None;
                }
                GridPosition { x: position.x - 1, y: position.y }
            },
            EdgeDirection::Right => {
                if position.x == i32::MAX {
                    return None;
                }
                GridPosition { x: position.x + 1, y: position.y }
            },
        };
        self.device_at(target)
    }

    /// Checks the layout: see `validation_result`.
    pub fn validate(&self) -> (r: Result<(), TopologyError>)
        ensures
            r == validation_result(*self),
    {
        let width = self.grid_width;
        let height = self.grid_height;
        if ensure_in_bounds(width, height, GridPosition { x: 0, y: 0 }).is_err() {
            return Err(TopologyError::OutOfBounds(0, 0, width, height));
        }
        let ghost devices = self.devices@;
        let mut placed: Vec<GridPosition> = Vec::new();
        let mut owners: Vec<u128> = Vec::new();
        let mut i: usize = 0;
        while i < self.devices.len()
            invariant
                i <= devices.len(),
                devices == self.devices@,
                owners@.len() == placed@.len(),
                forall|a: int|
                    0 <= a < placed@.len() ==> position_index(devices.take(i as int), #[trigger] placed@[a])
                        < i && devices[position_index(devices.take(i as int), placed@[a])].device_id
                        == owners@[a],
                width == self.grid_width,
                height == self.grid_height,
                0 < width && 0 < height,
                placement_error(devices.take(i as int), width, height) is None,
                forall|q: GridPosition|
                    placed@.contains(q) <==> position_taken(devices.take(i as int), q),
                forall|a: int, b: int| 0 <= a < b < placed@.len() ==> placed@[a] != placed@[b],
                forall|a: int|
                    0 <= a < placed@.len() ==> in_bounds(width, height, #[trigger] placed@[a]),
            decreases devices.len() - i,
        {
            let ghost prefix = devices.take(i as int);
            assert(devices.take(i as int + 1).drop_last() =~= prefix);
            assert(devices.take(i as int + 1).last() == devices[i as int]);
            if let Some(p) = self.devices[i].position {
                if ensure_in_bounds(width, height, p).is_err() {
                    proof {
                        lemma_placement_error_prefix(devices, width, height, i as int + 1);
                    }
                    return Err(TopologyError::OutOfBounds(p.x, p.y, width, height));
                }
                let mut j: usize = 0;
                while j < placed.len()
                    invariant
                        j <= placed@.len(),
                        owners@.len() == placed@.len(),
                        forall|a: int|
                            0 <= a < placed@.len() ==> position_index(prefix, #[trigger] placed@[a]) < i
                                && devices[position_index(prefix, placed@[a])].device_id == owners@[a],
                        forall|a: int| 0 <= a < j ==> placed@[a] != p,
                        i < devices.len(),
                        devices == self.devices@,
                        width == self.grid_width,
                        height == self.grid_height,
                        prefix == devices.take(i as int),
                        devices.take(i as int + 1).drop_last() == prefix,
                        devices.take(i as int + 1).last() == devices[i as int],
                        devices[i as int].position == Some(p),
                        in_bounds(width, height, p),
                        placement_error(prefix, width, height) is None,
                        forall|q: GridPosition| placed@.contains(q) <==> position_taken(prefix, q),
                    decreases placed@.len() - j,
                {
                    if placed[j].x == p.x && placed[j].y == p.y {
                        assert(placed@[j as int] == p);
                        assert(placed@.contains(p));
                        let first = owners[j];
                        proof {
                            assert(position_index(prefix, placed@[j as int]) < i);
                            lemma_position_index(prefix, p);
                            assert(prefix.len() == i);
                            assert(prefix[position_index(prefix, p)] == devices[position_index(
                                prefix,
                                p,
                            )]);
                            lemma_placement_error_prefix(devices, width, height, i as int + 1);
                        }
                        return Err(TopologyError::Overlap(p.x, p.y, first, self.devices[i].device_id));
                    }
                    j += 1;
                }
                assert(!placed@.contains(p));
                let ghost before = placed@;
                let ghost before_owners = owners@;
                placed.push(p);
                owners.push(self.devices[i].device_id);
                proof {
                    let next = devices.take(i as int + 1);
                    assert(next.take(i as int) =~= prefix);
                    lemma_position_index(prefix, p);
                    assert(!position_taken(prefix, p));
                    assert forall|a: int| 0 <= a < placed@.len() implies position_index(
                        next,
                        #[trigger] placed@[a],
                    ) < i + 1 && devices[position_index(next, placed@[a])].device_id
                        == owners@[a] by {
                        if a < before.len() {
                            assert(placed@[a] == before[a]);
                            lemma_position_index_prefix(next, before[a], i as int);
                        } else {
                            if position_index(prefix, p) < i {
                                lemma_position_index(prefix, p);
                                assert(position_taken(prefix, p));
                            }
                        }
                    }
                }
                assert forall|q: GridPosition|
                    placed@.contains(q) <==> position_taken(
                        devices.take(i as int + 1),
                        q,
                    ) by {
                    if placed@.contains(q) {
                        if q != p {
                            let a = choose|a: int| 0 <= a < placed@.len() && placed@[a] == q;
                            assert(before[a] == q);
                            assert(before.contains(q));
                            let k = choose|k: int|
                                0 <= k < prefix.len() && prefix[k].position == Some(q);
                            assert(devices.take(i as int + 1)[k] == prefix[k]);
                        } else {
                            assert(devices.take(i as int + 1)[i as int].position == Some(q));
                        }
                    }
                    if position_taken(devices.take(i as int + 1), q) {
                        let k = choose|k: int|
                            0 <= k < i + 1 && (#[trigger] devices.take(i as int + 1)[k]).position == Some(q);
                        if k < i {
                            assert(prefix[k].position == Some(q));
                            assert(before.contains(q));
                            let a = choose|a: int| 0 <= a < before.len() && before[a] == q;
                            assert(placed@[a] == q);
                        } else {
                            assert(placed@[placed@.len() - 1] == q);
                        }
                    }
                }
            } else {
                assert forall|q: GridPosition|
                    placed@.contains(q) <==> position_taken(
                        devices.take(i as int + 1),
                        q,
                    ) by {
                    if position_taken(devices.take(i as int + 1), q) {
                        let k = choose|k: int|
                            0 <= k < i + 1 && (#[trigger] devices.take(i as int + 1)[k]).position == Some(q);
                        assert(prefix[k].position == Some(q));
                    }
                    if position_taken(prefix, q) {
                        let k = choose|k: int| 0 <= k < i && prefix[k].position == Some(q);
                        assert(devices.take(i as int + 1)[k].position == Some(q));
                    }
                }
            }
            i += 1;
        }
        assert(devices.take(devices.len() as int) =~= devices);
        let mut found = false;
        let mut c: usize = 0;
        while c < self.devices.len()
            invariant
                c <= devices.len(),
                devices == self.devices@,
                found == (exists|a: int|
                    0 <= a < c && devices[a].device_id == self.controller_device_id
                        && devices[a].position is Some),
            decreases devices.len() - c,
        {
            if self.devices[c].device_id == self.controller_device_id
                && self.devices[c].position.is_some() {
                found = true;
            }
            c += 1;
        }
        if !found {
            return Err(TopologyError::ControllerNotPlaced);
        }
        let k = self.index_of(self.controller_device_id);
        proof {
            lemma_id_index(devices, self.controller_device_id);
            let w = choose|a: int|
                0 <= a < devices.len() && devices[a].device_id == self.controller_device_id
                    && devices[a].position is Some;
            assert(k <= w);
        }
        let start = match self.devices[k].position {
            Some(p) => p,
            None => return Err(TopologyError::ControllerNotPlaced),
        };
        assert(placed@.contains(start)) by {
            assert(devices[k as int].position == Some(start));
        }
        assert(cells(placed@) =~= placed_set(devices));
        if connected(&placed, start) {
            Ok(())
        } else {
            Err(TopologyError::Isolated)
        }
    }

    /// The device with the given identifier, if any.
    pub fn device(&self, device_id: u128) -> (found: Option<&TopologyDevice>)
        ensures
            opt_deref(found) == find_device(self.devices@, device_id),
    {
        let k = self.index_of(device_id);
        if k < self.devices.len() {
            Some(&self.devices[k])
        } else {
            None
        }
    }
}

pub proof fn lemma_id_index_prefix(devices: Seq<TopologyDevice>, id: u128, n: int)
    requires
        0 <= n <= devices.len(),
        id_index(devices.take(n), id) < n,
    ensures
        id_index(devices, id) == id_index(devices.take(n), id),
    decreases devices.len() - n,
{
    if n < devices.len() {
        assert(devices.take(n + 1).drop_last() =~= devices.take(n));
        lemma_id_index_prefix(devices, id, n + 1);
    } else {
        assert(devices.take(n) =~= devices);
    }
}

pub proof fn lemma_position_index_prefix(devices: Seq<TopologyDevice>, p: GridPosition, n: int)
    requires
        0 <= n <= devices.len(),
        position_index(devices.take(n), p) < n,
    ensures
        position_index(devices, p) == position_index(devices.take(n), p),
    decreases devices.len() - n,
{
    if n < devices.len() {
        assert(devices.take(n + 1).drop_last() =~= devices.take(n));
        lemma_position_index_prefix(devices, p, n + 1);
    } else {
        assert(devices.take(n) =~= devices);
    }
}

} // verus!

verus! {

/// The devices of a fresh layout: the controller alone, online at the centre.
pub open spec fn initial_devices(controller: u128, name: String) -> Seq<TopologyDevice> {
    seq![
        TopologyDevice {
            device_id: controller,
            display_name: name,
            position: Some(grid_center()),
            status: DeviceLayoutStatus::Online,
        },
    ]
}

/// The cell at the centre of the default grid, where the controller sits.
pub open spec fn grid_center() -> GridPosition {
    GridPosition { x: 1, y: 1 }
}

/// A device taken off the grid and waiting to be placed again.
pub open spec fn unplaced(d: TopologyDevice) -> TopologyDevice {
    TopologyDevice { position: None, status: DeviceLayoutStatus::Pending, ..d }
}

/// One device moved onto the default grid, given the devices already moved:
/// the controller goes to the centre, another device keeps its cell when
/// that cell lies on the new grid and is still free, else it waits.
pub open spec fn migrate_one(
    prev: Seq<TopologyDevice>,
    d: TopologyDevice,
    controller: u128,
) -> TopologyDevice {
    if d.device_id == controller {
        placed_device(d, grid_center())
    } else {
        match d.position {
            Some(p) => if in_bounds(DEFAULT_GRID_WIDTH, DEFAULT_GRID_HEIGHT, p) && p != grid_center()
                && !position_taken(prev, p) {
                d
            } else {
                unplaced(d)
            },
            None => unplaced(d),
        }
    }
}

pub open spec fn migrate_devices(devices: Seq<TopologyDevice>, controller: u128) -> Seq<
    TopologyDevice,
>
    decreases devices.len(),
{
    if devices.len() == 0 {
        Seq::empty()
    } else {
        let prev = migrate_devices(devices.drop_last(), controller);
        prev.push(migrate_one(prev, devices.last(), controller))
    }
}

/// Every device but the controller taken off the grid.
pub open spec fn reset_devices(devices: Seq<TopologyDevice>, controller: u128) -> Seq<
    TopologyDevice,
> {
    devices.map_values(
        |d: TopologyDevice|
            if d.device_id == controller {
                d
            } else {
                unplaced(d)
            },
    )
}

/// The devices of a layout of another grid size moved onto the default
/// grid; where the cells kept do not form a valid layout, only the
/// controller stays placed.
pub open spec fn migrated_devices(layout: TopologyLayout) -> Seq<TopologyDevice> {
    let moved = migrate_devices(layout.devices@, layout.controller_device_id);
    if validation_of(
        DEFAULT_GRID_WIDTH,
        DEFAULT_GRID_HEIGHT,
        layout.controller_device_id,
        moved,
    ) is Ok {
        moved
    } else {
        reset_devices(moved, layout.controller_device_id)
    }
}

} // verus!

verus! {

/// Moves a layout of another grid size onto the default grid (see
/// `migrated_devices`); a layout of the default size is left as it is.
pub fn migrate_layout_to_default_grid(layout: TopologyLayout) -> (r: TopologyLayout)
    ensures
        layout.grid_width == DEFAULT_GRID_WIDTH && layout.grid_height == DEFAULT_GRID_HEIGHT
            ==> r == layout,
        !(layout.grid_width == DEFAULT_GRID_WIDTH && layout.grid_height == DEFAULT_GRID_HEIGHT)
            ==> r.grid_width == DEFAULT_GRID_WIDTH && r.grid_height == DEFAULT_GRID_HEIGHT
            && r.version == layout.version && r.controller_device_id == layout.controller_device_id
            && r.devices@ == migrated_devices(layout),
{
    if layout.grid_width == DEFAULT_GRID_WIDTH && layout.grid_height == DEFAULT_GRID_HEIGHT {
        return layout;
    }
    let ghost initial = layout.devices@;
    let ghost version = layout.version;
    let controller = layout.controller_device_id;
    let mut layout = layout;
    layout.grid_width = DEFAULT_GRID_WIDTH;
    layout.grid_height = DEFAULT_GRID_HEIGHT;
    let center = GridPosition { x: DEFAULT_GRID_WIDTH / 2, y: DEFAULT_GRID_HEIGHT / 2 };
    let mut i: usize = 0;
    while i < layout.devices.len()
        invariant
            i <= layout.devices@.len(),
            layout.devices@.len() == initial.len(),
            controller == layout.controller_device_id,
            center == grid_center(),
            layout.version == version,
            layout.grid_width == DEFAULT_GRID_WIDTH,
            layout.grid_height == DEFAULT_GRID_HEIGHT,
            layout.devices@.take(i as int) == migrate_devices(initial.take(i as int), controller),
            forall|j: int| i <= j < initial.len() ==> layout.devices@[j] == initial[j],
        decreases initial.len() - i,
    {
        let ghost prev = layout.devices@.take(i as int);
        assert(initial.take(i as int + 1).drop_last() =~= initial.take(i as int));
        if layout.devices[i].device_id == controller {
            layout.devices[i].position = Some(center);
            if layout.devices[i].status == DeviceLayoutStatus::Pending {
                layout.devices[i].status = DeviceLayoutStatus::Online;
            }
        } else {
            let keep = match layout.devices[i].position {
                Some(p) => {
                    if p.x >= 0 && p.y >= 0 && p.x < DEFAULT_GRID_WIDTH && p.y < DEFAULT_GRID_HEIGHT
                        && !(p.x == center.x && p.y == center.y) {
                        let mut taken = false;
                        let mut j: usize = 0;
                        while j < i
                            invariant
                                j <= i,
                                i < layout.devices@.len(),
                                prev == layout.devices@.take(i as int),
                                taken == (exists|a: int|
                                    0 <= a < j && prev[a].position == Some(p)),
                            decreases i - j,
                        {
                            assert(prev[j as int] == layout.devices@[j as int]);
                            if position_eq(layout.devices[j].position, p) {
                                taken = true;
                            }
                            j += 1;
                        }
                        !taken
                    } else {
                        false
                    }
                },
                None => false,
            };
            if !keep {
                layout.devices[i].position = None;
                layout.devices[i].status = DeviceLayoutStatus::Pending;
            }
        }
        assert(layout.devices@.take(i as int + 1) =~= prev.push(
            migrate_one(prev, initial[i as int], controller),
        ));
        assert(layout.devices@.take(i as int) =~= prev);
        i += 1;
    }
    assert(layout.devices@.take(i as int) =~= layout.devices@);
    assert(initial.take(i as int) =~= initial);
    let ghost moved = layout.devices@;
    if layout.validate().is_err() {
        let mut k: usize = 0;
        while k < layout.devices.len()
            invariant
                k <= layout.devices@.len(),
                layout.devices@.len() == moved.len(),
                controller == layout.controller_device_id,
                layout.version == version,
                layout.grid_width == DEFAULT_GRID_WIDTH,
                layout.grid_height == DEFAULT_GRID_HEIGHT,
                forall|j: int|
                    0 <= j < k ==> layout.devices@[j] == (if moved[j].device_id == controller {
                        moved[j]
                    } else {
                        unplaced(moved[j])
                    }),
                forall|j: int| k <= j < moved.len() ==> layout.devices@[j] == moved[j],
            decreases moved.len() - k,
        {
            if layout.devices[k].device_id != controller {
                layout.devices[k].position = None;
                layout.devices[k].status = DeviceLayoutStatus::Pending;
            }
            k += 1;
        }
        assert(layout.devices@ =~= reset_devices(moved, controller));
    }
    layout
}

/// Replaces the current layout with `next`, one version later, once `next`
/// passes validation.
pub fn apply_hot_update(current: &TopologyLayout, next: TopologyLayout) -> (r: Result<
    TopologyHotUpdate,
    TopologyError,
>)
    requires
        current.version < u64::MAX,
    ensures
        match r {
            Ok(update) => {
                &&& validation_of(
                    next.grid_width,
                    next.grid_height,
                    next.controller_device_id,
                    next.devices@,
                ) is Ok
                &&& update.previous_version == current.version
                &&& update.next_version == current.version + 1
                &&& update.layout.version == current.version + 1
                &&& update.layout.devices == next.devices
                &&& same_frame(
                    update.layout,
                    TopologyLayout { version: (current.version + 1) as u64, ..next },
                )
            },
            Err(e) => validation_of(
                next.grid_width,
                next.grid_height,
                next.controller_device_id,
                next.devices@,
            ) == Err::<(), TopologyError>(e),
        },
{
    let mut next = next;
    next.version = current.version + 1;
    match next.validate() {
        Ok(()) => Ok(
            TopologyHotUpdate {
                previous_version: current.version,
                next_version: next.version,
                layout: next,
            },
        ),
        Err(e) => Err(e),
    }
}

} // verus!

verus! {

/// Devices placed on distinct cells of the grid give no placement fault.
pub proof fn lemma_placement_ok(devices: Seq<TopologyDevice>, width: i32, height: i32)
    requires
        forall|i: int|
            0 <= i < devices.len() && (#[trigger] devices[i]).position is Some ==> in_bounds(
                width,
                height,
                devices[i].position.unwrap(),
            ),
        forall|i: int, j: int|
            0 <= i < j < devices.len() && (#[trigger] devices[i]).position is Some
                ==> (#[trigger] devices[j]).position != devices[i].position,
    ensures
        placement_error(devices, width, height) is None,
    decreases devices.len(),
{
    if devices.len() > 0 {
        let prev = devices.drop_last();
        assert(forall|i: int| 0 <= i < prev.len() ==> prev[i] == devices[i]);
        lemma_placement_ok(prev, width, height);
        if let Some(p) = devices.last().position {
            if position_taken(prev, p) {
                let k = choose|k: int| 0 <= k < prev.len() && prev[k].position == Some(p);
                assert(devices[k].position is Some);
                assert(devices[devices.len() - 1].position != devices[k].position);
            }
        }
    }
}

/// Validation looks only at the grid, the identifiers and the cells of the
/// devices: names and online states do not change its answer.
pub proof fn lemma_validation_ignores_status(
    width: i32,
    height: i32,
    controller: u128,
    a: Seq<TopologyDevice>,
    b: Seq<TopologyDevice>,
)
    requires
        a.len() == b.len(),
        forall|i: int|
            0 <= i < a.len() ==> (#[trigger] a[i]).device_id == b[i].device_id && a[i].position
                == b[i].position,
    ensures
        validation_of(width, height, controller, a) == validation_of(width, height, controller, b),
{
    lemma_same_cells(width, height, controller, a, b);
    lemma_id_index(a, controller);
    let k = id_index(a, controller);
    if controller_placed(a, controller) {
        let w = choose|w: int|
            0 <= w < a.len() && a[w].device_id == controller && a[w].position is Some;
        assert(k <= w);
        assert(a[k].position == b[k].position);
    }
}

proof fn lemma_same_cells(
    width: i32,
    height: i32,
    controller: u128,
    a: Seq<TopologyDevice>,
    b: Seq<TopologyDevice>,
)
    requires
        a.len() == b.len(),
        forall|i: int|
            0 <= i < a.len() ==> (#[trigger] a[i]).device_id == b[i].device_id && a[i].position
                == b[i].position,
    ensures
        placement_error(a, width, height) == placement_error(b, width, height),
        id_index(a, controller) == id_index(b, controller),
        placed_set(a) == placed_set(b),
        controller_placed(a, controller) == controller_placed(b, controller),
        forall|p: GridPosition| #[trigger] position_index(a, p) == position_index(b, p),
    decreases a.len(),
{
    if a.len() > 0 {
        lemma_same_cells(width, height, controller, a.drop_last(), b.drop_last());
        assert(a.last() == a[a.len() - 1]);
        if let Some(p) = a.last().position {
            lemma_position_index(a.drop_last(), p);
            let k = position_index(a.drop_last(), p);
            assert(k == position_index(b.drop_last(), p));
            if k < a.len() - 1 {
                assert(a.drop_last()[k] == a[k]);
                assert(b.drop_last()[k] == b[k]);
            }
        }
        assert forall|q: GridPosition| #[trigger] position_index(a, q) == position_index(b, q) by {
            assert(position_index(a.drop_last(), q) == position_index(b.drop_last(), q));
            assert(b.last() == b[b.len() - 1]);
        }
        assert(placed_set(a) =~= placed_set(b)) by {
            assert forall|p: GridPosition| position_taken(a, p) implies position_taken(b, p) by {
                let k = choose|k: int| 0 <= k < a.len() && a[k].position == Some(p);
                assert(b[k].position == Some(p));
            }
            assert forall|p: GridPosition| position_taken(b, p) implies position_taken(a, p) by {
                let k = choose|k: int| 0 <= k < b.len() && b[k].position == Some(p);
                assert(a[k].position == Some(p));
            }
        }
        let pa = a.drop_last();
        let pb = b.drop_last();
        assert forall|p: GridPosition| position_taken(pa, p) implies position_taken(pb, p) by {
            let k = choose|k: int| 0 <= k < pa.len() && pa[k].position == Some(p);
            assert(pb[k].position == Some(p));
        }
        assert forall|p: GridPosition| position_taken(pb, p) implies position_taken(pa, p) by {
            let k = choose|k: int| 0 <= k < pb.len() && pb[k].position == Some(p);
            assert(pa[k].position == Some(p));
        }
        if controller_placed(a, controller) {
            let k = choose|k: int|
                0 <= k < a.len() && a[k].device_id == controller && a[k].position is Some;
            assert(b[k].device_id == controller && b[k].position is Some);
        }
        if controller_placed(b, controller) {
            let k = choose|k: int|
                0 <= k < b.len() && b[k].device_id == controller && b[k].position is Some;
            assert(a[k].device_id == controller && a[k].position is Some);
        }
    } else {
        assert(placed_set(a) =~= placed_set(b));
    }
}

/// A fresh layout, with only the controller at the centre, is valid.
pub proof fn lemma_new_layout_is_valid(controller: u128, name: String)
    ensures
        validation_of(
            DEFAULT_GRID_WIDTH,
            DEFAULT_GRID_HEIGHT,
            controller,
            initial_devices(controller, name),
        ) is Ok,
{
    let devices = initial_devices(controller, name);
    lemma_placement_ok(devices, DEFAULT_GRID_WIDTH, DEFAULT_GRID_HEIGHT);
    assert(controller_placed(devices, controller)) by {
        assert(devices[0].device_id == controller && devices[0].position is Some);
    }
    lemma_id_index(devices, controller);
    assert(placed_set(devices) =~= set![grid_center()]) by {
        assert forall|p: GridPosition| position_taken(devices, p) implies p == grid_center() by {
            let k = choose|k: int| 0 <= k < devices.len() && devices[k].position == Some(p);
        }
        assert(devices[0].position == Some(grid_center()));
    }
}

/// Adding a device that waits to be placed keeps a valid layout valid.
pub proof fn lemma_pending_device_keeps_valid(
    width: i32,
    height: i32,
    controller: u128,
    devices: Seq<TopologyDevice>,
    id: u128,
    name: String,
)
    requires
        validation_of(width, height, controller, devices) is Ok,
        !has_device(devices, id),
    ensures
        validation_of(
            width,
            height,
            controller,
            devices.push(
                TopologyDevice {
                    device_id: id,
                    display_name: name,
                    position: None,
                    status: DeviceLayoutStatus::Pending,
                },
            ),
        ) is Ok,
{
    let next = devices.push(
        TopologyDevice {
            device_id: id,
            display_name: name,
            position: None,
            status: DeviceLayoutStatus::Pending,
        },
    );
    assert(next.drop_last() =~= devices);
    lemma_id_index(devices, controller);
    lemma_id_index(next, controller);
    assert(controller_placed(next, controller)) by {
        let k = choose|k: int|
            0 <= k < devices.len() && devices[k].device_id == controller
                && devices[k].position is Some;
        assert(next[k] == devices[k]);
    }
    assert(placed_set(next) =~= placed_set(devices)) by {
        assert forall|p: GridPosition| position_taken(next, p) implies position_taken(devices, p) by {
            let k = choose|k: int| 0 <= k < next.len() && next[k].position == Some(p);
            assert(devices[k] == next[k]);
        }
        assert forall|p: GridPosition| position_taken(devices, p) implies position_taken(next, p) by {
            let k = choose|k: int| 0 <= k < devices.len() && devices[k].position == Some(p);
            assert(devices[k] == next[k]);
        }
    }
}

/// Marking a device offline keeps its cell and the answer of validation.
pub proof fn lemma_offline_keeps_validation(
    width: i32,
    height: i32,
    controller: u128,
    devices: Seq<TopologyDevice>,
    id: u128,
)
    requires
        has_device(devices, id),
    ensures
        ({
            let k = id_index(devices, id);
            let next = devices.update(
                k,
                TopologyDevice { status: DeviceLayoutStatus::Offline, ..devices[k] },
            );
            &&& next[k].position == devices[k].position
            &&& validation_of(width, height, controller, next) == validation_of(
                width,
                height,
                controller,
                devices,
            )
        }),
{
    lemma_id_index(devices, id);
    let k = id_index(devices, id);
    let next = devices.update(k, TopologyDevice { status: DeviceLayoutStatus::Offline, ..devices[k] });
    lemma_validation_ignores_status(width, height, controller, next, devices);
}

/// Once `place_device` has put a device at `p`, looking up `p` finds that device.
pub proof fn lemma_placed_device_is_found(layout: TopologyLayout, id: u128, p: GridPosition)
    requires
        place_outcome(layout, id, p) is Ok,
    ensures
        ({
            let devices = layout.devices@;
            let k = id_index(devices, id);
            let next = devices.update(k, placed_device(devices[k], p));
            match find_at(next, p) {
                Some(d) => d.device_id == id && d.position == Some(p),
                None => false,
            }
        }),
{
    let devices = layout.devices@;
    lemma_id_index(devices, id);
    let k = id_index(devices, id);
    let next = devices.update(k, placed_device(devices[k], p));
    lemma_position_index(next, p);
    let m = position_index(next, p);
    assert(m <= k) by {
        if m > k {
            assert(next[k].position == Some(p));
        }
    }
    if m < next.len() {
        if next[m].device_id != id {
            assert(devices[m] == next[m]);
        }
    }
}

/// Placing a device on the cell next to a placed device in direction `d`
/// makes it that device's neighbour in direction `d`.
pub proof fn lemma_place_creates_neighbor(
    layout: TopologyLayout,
    id: u128,
    p: GridPosition,
    other: u128,
    d: EdgeDirection,
)
    requires
        place_outcome(layout, id, p) is Ok,
        other != id,
        match find_device(layout.devices@, other) {
            Some(dev) => match dev.position {
                Some(q) => step(q, d) == (p.x as int, p.y as int),
                None => false,
            },
            None => false,
        },
    ensures
        ({
            let devices = layout.devices@;
            let k = id_index(devices, id);
            let next = devices.update(k, placed_device(devices[k], p));
            match neighbor_of(next, other, d) {
                Some(n) => n.device_id == id && n.position == Some(p),
                None => false,
            }
        }),
{
    let devices = layout.devices@;
    lemma_id_index(devices, id);
    let k = id_index(devices, id);
    let next = devices.update(k, placed_device(devices[k], p));
    lemma_placed_device_is_found(layout, id, p);
    lemma_same_ids(devices, next, other);
    lemma_id_index(devices, other);
    let o = id_index(devices, other);
    assert(o != k);
    assert(next[o] == devices[o]);
}

proof fn lemma_same_ids(a: Seq<TopologyDevice>, b: Seq<TopologyDevice>, id: u128)
    requires
        a.len() == b.len(),
        forall|i: int| 0 <= i < a.len() ==> (#[trigger] a[i]).device_id == b[i].device_id,
    ensures
        id_index(a, id) == id_index(b, id),
    decreases a.len(),
{
    if a.len() > 0 {
        lemma_same_ids(a.drop_last(), b.drop_last(), id);
        assert(a.last() == a[a.len() - 1]);
    }
}

/// The layout to work with: a persisted one, moved onto the default grid
/// and validated; a fresh one around the controller where none was
/// persisted.
pub fn load_or_create_topology(
    persisted: Option<TopologyLayout>,
    controller_device_id: u128,
    controller_name: String,
) -> (r: Result<TopologyLayout, TopologyError>)
    ensures
        match persisted {
            None => r matches Ok(l) && l.version == 1 && l.grid_width == DEFAULT_GRID_WIDTH
                && l.grid_height == DEFAULT_GRID_HEIGHT && l.controller_device_id
                == controller_device_id && l.devices@ == initial_devices(
                controller_device_id,
                controller_name,
            ),
            Some(p) => {
                let migrated_view = if p.grid_width == DEFAULT_GRID_WIDTH && p.grid_height
                    == DEFAULT_GRID_HEIGHT {
                    p.devices@
                } else {
                    migrated_devices(p)
                };
                &&& r matches Ok(l) ==> l.grid_width == DEFAULT_GRID_WIDTH && l.grid_height
                    == DEFAULT_GRID_HEIGHT && l.version == p.version && l.controller_device_id
                    == p.controller_device_id && l.devices@ == migrated_view
                &&& r is Ok <==> validation_of(
                    DEFAULT_GRID_WIDTH,
                    DEFAULT_GRID_HEIGHT,
                    p.controller_device_id,
                    migrated_view,
                ) is Ok
                &&& r matches Err(e) ==> validation_of(
                    DEFAULT_GRID_WIDTH,
                    DEFAULT_GRID_HEIGHT,
                    p.controller_device_id,
                    migrated_view,
                ) == Err::<(), TopologyError>(e)
            },
        },
{
    match persisted {
        None => Ok(TopologyLayout::new(controller_device_id, controller_name)),
        Some(layout) => {
            let migrated = migrate_layout_to_default_grid(layout);
            match migrated.validate() {
                Ok(()) => Ok(migrated),
                Err(e) => Err(e),
            }
        },
    }
}


/// How moving onto the default grid treats each device: the device keeps
/// its identifier and name; the controller goes to the centre; any other
/// device keeps its cell and status or is taken off the grid as pending.
pub open spec fn migrated_from(m: TopologyDevice, d: TopologyDevice, controller: u128) -> bool {
    &&& m.device_id == d.device_id
    &&& m.display_name == d.display_name
    &&& d.device_id == controller ==> m == placed_device(d, grid_center())
    &&& d.device_id != controller ==> (m == d || m == unplaced(d))
}

proof fn lemma_migrate_devices_shape(devices: Seq<TopologyDevice>, controller: u128)
    ensures
        migrate_devices(devices, controller).len() == devices.len(),
        forall|i: int|
            0 <= i < devices.len() ==> migrated_from(
                #[trigger] migrate_devices(devices, controller)[i],
                devices[i],
                controller,
            ),
    decreases devices.len(),
{
    if devices.len() > 0 {
        lemma_migrate_devices_shape(devices.drop_last(), controller);
        let prev = migrate_devices(devices.drop_last(), controller);
        let m = migrate_devices(devices, controller);
        assert forall|i: int| 0 <= i < devices.len() implies migrated_from(
            #[trigger] m[i],
            devices[i],
            controller,
        ) by {
            if i < devices.len() - 1 {
                assert(m[i] == prev[i]);
                assert(devices.drop_last()[i] == devices[i]);
            }
        }
    }
}

/// Devices where only the controller, held once, is placed, at the centre.
spec fn only_controller_at_center(devices: Seq<TopologyDevice>, controller: u128) -> bool {
    &&& forall|i: int|
        0 <= i < devices.len() ==> (if (#[trigger] devices[i]).device_id == controller {
            devices[i].position == Some(grid_center())
        } else {
            devices[i].position is None
        })
    &&& forall|i: int, j: int|
        0 <= i < j < devices.len() && (#[trigger] devices[i]).device_id == controller ==> (
        #[trigger] devices[j]).device_id != controller
}

proof fn lemma_only_controller_placement(devices: Seq<TopologyDevice>, controller: u128)
    requires
        only_controller_at_center(devices, controller),
    ensures
        placement_error(devices, DEFAULT_GRID_WIDTH, DEFAULT_GRID_HEIGHT) is None,
        forall|p: GridPosition| position_taken(devices, p) ==> p == grid_center(),
    decreases devices.len(),
{
    if devices.len() > 0 {
        let rest = devices.drop_last();
        assert forall|i: int| 0 <= i < rest.len() implies rest[i] == devices[i] by {}
        assert(only_controller_at_center(rest, controller)) by {
            assert forall|i: int, j: int|
                0 <= i < j < rest.len() && (#[trigger] rest[i]).device_id == controller implies (
            #[trigger] rest[j]).device_id != controller by {
                assert(rest[i] == devices[i] && rest[j] == devices[j]);
            }
        }
        lemma_only_controller_placement(rest, controller);
        let last = devices.last();
        if last.position is Some {
            assert(last.device_id == controller);
            assert(!position_taken(rest, grid_center())) by {
                if position_taken(rest, grid_center()) {
                    let i = choose|i: int|
                        0 <= i < rest.len() && rest[i].position == Some(grid_center());
                    assert(devices[i].device_id == controller);
                    assert(devices[devices.len() - 1].device_id == controller);
                }
            }
        }
        assert forall|p: GridPosition| position_taken(devices, p) implies p == grid_center() by {
            let i = choose|i: int| 0 <= i < devices.len() && devices[i].position == Some(p);
            assert(devices[i].position == Some(p));
        }
    }
}

/// A layout held only by its controller, at the centre of the default
/// grid, passes validation.
proof fn lemma_only_controller_is_valid(devices: Seq<TopologyDevice>, controller: u128)
    requires
        only_controller_at_center(devices, controller),
        has_device(devices, controller),
    ensures
        validation_of(DEFAULT_GRID_WIDTH, DEFAULT_GRID_HEIGHT, controller, devices) is Ok,
{
    lemma_only_controller_placement(devices, controller);
    lemma_id_index(devices, controller);
    let w = choose|i: int| 0 <= i < devices.len() && devices[i].device_id == controller;
    assert(devices[w].position is Some);
    assert(controller_placed(devices, controller));
    let k = id_index(devices, controller);
    assert(k <= w);
    assert(devices[k].position == Some(grid_center()));
    let placed = placed_set(devices);
    assert forall|s: Set<GridPosition>|
        #[trigger] closed_within(s, placed) && s.contains(grid_center()) implies placed.subset_of(
        s,
    ) by {
        assert forall|p: GridPosition| placed.contains(p) implies s.contains(p) by {
            assert(position_taken(devices, p));
        }
    }
}

/// A layout of another grid size moved onto the default grid passes
/// validation, where one device of the layout is its controller; and each
/// device keeps its identifier and name, the controller goes to the centre,
/// and every other device keeps its cell and status or waits, unplaced.
pub proof fn lemma_migrated_layout_is_valid(layout: TopologyLayout)
    requires
        has_device(layout.devices@, layout.controller_device_id),
        forall|i: int, j: int|
            0 <= i < j < layout.devices@.len() && (#[trigger] layout.devices@[i]).device_id
                == layout.controller_device_id ==> (#[trigger] layout.devices@[j]).device_id
                != layout.controller_device_id,
    ensures
        validation_of(
            DEFAULT_GRID_WIDTH,
            DEFAULT_GRID_HEIGHT,
            layout.controller_device_id,
            migrated_devices(layout),
        ) is Ok,
        migrated_devices(layout).len() == layout.devices@.len(),
        forall|i: int|
            0 <= i < layout.devices@.len() ==> migrated_from(
                #[trigger] migrated_devices(layout)[i],
                layout.devices@[i],
                layout.controller_device_id,
            ),
{
    let c = layout.controller_device_id;
    let devices = layout.devices@;
    lemma_migrate_devices_shape(devices, c);
    let moved = migrate_devices(devices, c);
    let reset = reset_devices(moved, c);
    if validation_of(DEFAULT_GRID_WIDTH, DEFAULT_GRID_HEIGHT, c, moved) is Err {
        assert forall|i: int| 0 <= i < devices.len() implies migrated_from(
            #[trigger] reset[i],
            devices[i],
            c,
        ) by {
            assert(migrated_from(moved[i], devices[i], c));
        }
        assert(only_controller_at_center(reset, c)) by {
            assert forall|i: int, j: int|
                0 <= i < j < reset.len() && (#[trigger] reset[i]).device_id == c implies (
            #[trigger] reset[j]).device_id != c by {
                assert(migrated_from(moved[i], devices[i], c));
                assert(migrated_from(moved[j], devices[j], c));
                assert(devices[i].device_id == c);
            }
            assert forall|i: int| 0 <= i < reset.len() implies (if (#[trigger] reset[i]).device_id
                == c {
                reset[i].position == Some(grid_center())
            } else {
                reset[i].position is None
            }) by {
                assert(migrated_from(moved[i], devices[i], c));
            }
        }
        let w = choose|i: int| 0 <= i < devices.len() && devices[i].device_id == c;
        assert(migrated_from(moved[w], devices[w], c));
        assert(reset[w].device_id == c);
        lemma_only_controller_is_valid(reset, c);
    }
}

/// `path` walks from `start` to `p` through cells of `placed`, each step
/// to a neighbouring cell.
pub open spec fn is_walk(
    placed: Set<GridPosition>,
    start: GridPosition,
    p: GridPosition,
    path: Seq<GridPosition>,
) -> bool {
    &&& path.len() > 0
    &&& path[0] == start
    &&& path.last() == p
    &&& forall|k: int| 0 <= k < path.len() ==> placed.contains(#[trigger] path[k])
    &&& forall|k: int| 0 <= k < path.len() - 1 ==> adjacent(#[trigger] path[k], path[k + 1])
}

/// `p` can be reached from `start` by steps between neighbouring cells of
/// `placed`.
pub open spec fn reachable(placed: Set<GridPosition>, start: GridPosition, p: GridPosition) -> bool {
    exists|path: Seq<GridPosition>| is_walk(placed, start, p, path)
}

/// The rules of a layout, each on its own: the grid has room; every placed
/// device lies on it; no two devices share a cell; the first device with
/// the controller's identifier is placed; and every placed device can be
/// reached from the controller through neighbouring placed devices.
pub open spec fn plainly_valid(layout: TopologyLayout) -> bool {
    let devices = layout.devices@;
    let placed = placed_set(devices);
    &&& 0 < layout.grid_width && 0 < layout.grid_height
    &&& forall|i: int|
        0 <= i < devices.len() && (#[trigger] devices[i]).position is Some ==> in_bounds(
            layout.grid_width,
            layout.grid_height,
            devices[i].position->0,
        )
    &&& forall|i: int, j: int|
        0 <= i < j < devices.len() && (#[trigger] devices[i]).position is Some ==> (
        #[trigger] devices[j]).position != devices[i].position
    &&& find_device(devices, layout.controller_device_id) matches Some(d) && d.position is Some
    &&& forall|p: GridPosition|
        #[trigger] placed.contains(p) ==> reachable(
            placed,
            find_device(devices, layout.controller_device_id)->0.position->0,
            p,
        )
}

proof fn lemma_placement_error_plain(devices: Seq<TopologyDevice>, width: i32, height: i32)
    ensures
        placement_error(devices, width, height) is None <==> ((forall|i: int|
            0 <= i < devices.len() && (#[trigger] devices[i]).position is Some ==> in_bounds(
                width,
                height,
                devices[i].position->0,
            )) && (forall|i: int, j: int|
            0 <= i < j < devices.len() && (#[trigger] devices[i]).position is Some ==> (
            #[trigger] devices[j]).position != devices[i].position)),
    decreases devices.len(),
{
    if devices.len() > 0 {
        let rest = devices.drop_last();
        let n = devices.len() - 1;
        lemma_placement_error_plain(rest, width, height);
        assert forall|i: int| 0 <= i < rest.len() implies rest[i] == devices[i] by {}
        if placement_error(devices, width, height) is None {
            assert forall|i: int, j: int|
                0 <= i < j < devices.len() && (#[trigger] devices[i]).position is Some implies (
            #[trigger] devices[j]).position != devices[i].position by {
                if j == n {
                    assert(rest[i].position == devices[i].position);
                } else {
                    assert(rest[i] == devices[i] && rest[j] == devices[j]);
                }
            }
            assert forall|i: int|
                0 <= i < devices.len() && (#[trigger] devices[i]).position is Some implies in_bounds(
                width,
                height,
                devices[i].position->0,
            ) by {
                if i < n {
                    assert(rest[i] == devices[i]);
                }
            }
        } else {
            if placement_error(rest, width, height) is None {
                let p = devices.last().position->0;
                if in_bounds(width, height, p) {
                    let i = choose|i: int| 0 <= i < rest.len() && rest[i].position == Some(p);
                    assert(devices[i].position == Some(p));
                    assert(devices[n].position == Some(p));
                }
            } else {
                if forall|i: int, j: int|
                    0 <= i < j < devices.len() && (#[trigger] devices[i]).position is Some ==> (
                    #[trigger] devices[j]).position != devices[i].position {
                    assert forall|i: int, j: int|
                        0 <= i < j < rest.len() && (#[trigger] rest[i]).position is Some implies (
                    #[trigger] rest[j]).position != rest[i].position by {
                        assert(rest[i] == devices[i] && rest[j] == devices[j]);
                    }
                    assert(!forall|i: int|
                        0 <= i < rest.len() && (#[trigger] rest[i]).position is Some ==> in_bounds(
                            width,
                            height,
                            rest[i].position->0,
                        ));
                    let i = choose|i: int|
                        !(0 <= i < rest.len() && (#[trigger] rest[i]).position is Some ==> in_bounds(
                            width,
                            height,
                            rest[i].position->0,
                        ));
                    assert(devices[i] == rest[i]);
                }
            }
        }
    }
}

proof fn lemma_walk_stays_in_closed(
    placed: Set<GridPosition>,
    s: Set<GridPosition>,
    start: GridPosition,
    p: GridPosition,
    path: Seq<GridPosition>,
    k: int,
)
    requires
        is_walk(placed, start, p, path),
        closed_within(s, placed),
        s.contains(start),
        0 <= k < path.len(),
    ensures
        s.contains(path[k]),
    decreases k,
{
    if k > 0 {
        lemma_walk_stays_in_closed(placed, s, start, p, path, k - 1);
        assert(adjacent(path[k - 1], path[k]));
        assert(placed.contains(path[k]));
    }
}

proof fn lemma_connected_is_reachable(placed: Set<GridPosition>, start: GridPosition)
    requires
        placed.contains(start),
    ensures
        connected_from(placed, start) <==> forall|p: GridPosition|
            #[trigger] placed.contains(p) ==> reachable(placed, start, p),
{
    if connected_from(placed, start) {
        let r = Set::new(|p: GridPosition| reachable(placed, start, p));
        assert(is_walk(placed, start, start, seq![start]));
        assert(r.contains(start));
        assert forall|p: GridPosition, q: GridPosition|
            r.contains(p) && placed.contains(q) && adjacent(p, q) implies r.contains(q) by {
            let path = choose|path: Seq<GridPosition>| is_walk(placed, start, p, path);
            let longer = path.push(q);
            assert forall|k: int| 0 <= k < longer.len() - 1 implies adjacent(
                #[trigger] longer[k],
                longer[k + 1],
            ) by {
                if k < path.len() - 1 {
                    assert(adjacent(path[k], path[k + 1]));
                }
            }
            assert forall|k: int| 0 <= k < longer.len() implies placed.contains(
                #[trigger] longer[k],
            ) by {
                if k < path.len() {
                    assert(placed.contains(path[k]));
                }
            }
            assert(is_walk(placed, start, q, longer));
        }
        assert(closed_within(r, placed));
        assert forall|p: GridPosition| #[trigger] placed.contains(p) implies reachable(
            placed,
            start,
            p,
        ) by {
            assert(r.contains(p));
        }
    }
    if forall|p: GridPosition| #[trigger] placed.contains(p) ==> reachable(placed, start, p) {
        assert forall|s: Set<GridPosition>|
            #[trigger] closed_within(s, placed) && s.contains(start) implies placed.subset_of(
            s,
        ) by {
            assert forall|p: GridPosition| placed.contains(p) implies s.contains(p) by {
                let path = choose|path: Seq<GridPosition>| is_walk(placed, start, p, path);
                lemma_walk_stays_in_closed(placed, s, start, p, path, path.len() - 1);
            }
        }
    }
}

/// `validate` accepts a layout exactly where the layout keeps each of its
/// rules: the grid has room, every placed device lies on it, no two share
/// a cell, the first device with the controller's identifier is placed,
/// and every placed device can be reached from the controller through
/// neighbouring placed devices.
pub proof fn lemma_validation_is_plain(layout: TopologyLayout)
    ensures
        validation_result(layout) is Ok <==> plainly_valid(layout),
{
    let devices = layout.devices@;
    let c = layout.controller_device_id;
    lemma_placement_error_plain(devices, layout.grid_width, layout.grid_height);
    lemma_id_index(devices, c);
    let k = id_index(devices, c);
    if k < devices.len() && devices[k].position is Some {
        let start = devices[k].position->0;
        assert(placed_set(devices).contains(start));
        lemma_connected_is_reachable(placed_set(devices), start);
        assert(controller_placed(devices, c));
    }
    if controller_placed(devices, c) {
        let w = choose|i: int| 0 <= i < devices.len() && devices[i].device_id == c && devices[i].position is Some;
        assert(k <= w);
    }
}

/// A device's neighbour in each direction is the device in the cell next to
/// it that way: up is the row above (one lower `y`, row 0 being the top),
/// down the row below, left the column before and right the column after.
pub proof fn lemma_neighbor_directions(devices: Seq<TopologyDevice>, id: u128)
    requires
        find_device(devices, id) matches Some(d) && d.position is Some,
    ensures
        ({
            let p = find_device(devices, id)->0.position->0;
            &&& p.y > i32::MIN ==> neighbor_of(devices, id, EdgeDirection::Up) == find_at(
                devices,
                GridPosition { x: p.x, y: (p.y - 1) as i32 },
            )
            &&& p.y < i32::MAX ==> neighbor_of(devices, id, EdgeDirection::Down) == find_at(
                devices,
                GridPosition { x: p.x, y: (p.y + 1) as i32 },
            )
            &&& p.x > i32::MIN ==> neighbor_of(devices, id, EdgeDirection::Left) == find_at(
                devices,
                GridPosition { x: (p.x - 1) as i32, y: p.y },
            )
            &&& p.x < i32::MAX ==> neighbor_of(devices, id, EdgeDirection::Right) == find_at(
                devices,
                GridPosition { x: (p.x + 1) as i32, y: p.y },
            )
        }),
{
}

} // verus!
