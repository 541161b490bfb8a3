//! The one-shot snapshot of windows and monitors, and the monitor-local
//! regions derived from it.
use vstd::prelude::*;
use crate::geometry::{ClientRegion, region_contains, strictly_between};

verus! {

/// A window as the window manager reports it, in absolute coordinates.
#[derive(Clone, Debug)]
pub struct WindowRecord {
    pub address: String,
    pub title: String,
    pub initial_title: String,
    pub x: i16,
    pub y: i16,
    pub width: i16,
    pub height: i16,
    pub monitor: Option<i128>,
    pub workspace: i32,
    pub mapped: bool,
}

/// A monitor: identifier, absolute origin, pixel size and the workspace it shows.
#[derive(Clone, Copy, Debug)]
pub struct MonitorRecord {
    pub id: i128,
    pub x: i32,
    pub y: i32,
    pub width: u16,
    pub height: u16,
    pub active_workspace: i32,
}

/// No two monitors of the snapshot share an identifier.
pub open spec fn distinct_ids(ms: Seq<MonitorRecord>) -> bool {
    forall|i: int, j: int| 0 <= i < ms.len() && 0 <= j < ms.len() && i != j ==> ms[i].id != ms[j].id
}

/// Index of the first of the first `n` monitors with identifier `id`, or -1.
pub open spec fn first_monitor(ms: Seq<MonitorRecord>, id: i128, n: int) -> int
    decreases n,
{
    if n <= 0 {
        -1
    } else {
        let k = first_monitor(ms, id, n - 1);
        if k >= 0 {
            k
        } else if ms[n - 1].id == id {
            n - 1
        } else {
            -1
        }
    }
}

/// The window's workspace is the active workspace of some monitor.
pub open spec fn on_active_workspace(w: WindowRecord, ms: Seq<MonitorRecord>) -> bool {
    exists|j: int| 0 <= j < ms.len() && ms[j].active_workspace == w.workspace
}

/// The window takes part in the selection: mapped and on an active workspace.
pub open spec fn eligible(w: WindowRecord, ms: Seq<MonitorRecord>) -> bool {
    w.mapped && on_active_workspace(w, ms)
}

/// The window's region in absolute coordinates, tied to no monitor.
pub open spec fn absolute_region(w: WindowRecord, index: int) -> ClientRegion {
    ClientRegion {
        x: w.x as i64,
        y: w.y as i64,
        width: w.width,
        height: w.height,
        monitor: None,
        window: index as usize,
    }
}

/// The region of window `w` (at `index` in the snapshot): relative to its
/// owning monitor when it names one that exists, else absolute.
pub open spec fn region_of(w: WindowRecord, index: int, ms: Seq<MonitorRecord>) -> ClientRegion {
    match w.monitor {
        Some(id) => {
            let j = first_monitor(ms, id, ms.len() as int);
            if j >= 0 {
                ClientRegion {
                    x: (w.x as int - ms[j].x as int) as i64,
                    y: (w.y as int - ms[j].y as int) as i64,
                    width: w.width,
                    height: w.height,
                    monitor: Some(id),
                    window: index as usize,
                }
            } else {
                absolute_region(w, index)
            }
        },
        None => absolute_region(w, index),
    }
}

/// Regions of the eligible windows among the first `n`, in snapshot order.
pub open spec fn derived_regions(ws: Seq<WindowRecord>, ms: Seq<MonitorRecord>, n: int) -> Seq<ClientRegion>
    decreases n,
{
    if n <= 0 {
        Seq::empty()
    } else {
        let prev = derived_regions(ws, ms, n - 1);
        if eligible(ws[n - 1], ms) {
            prev.push(region_of(ws[n - 1], n - 1, ms))
        } else {
            prev
        }
    }
}

/// The regions among the first `n` that belong to monitor `id`, in order.
pub open spec fn regions_of_monitor(rs: Seq<ClientRegion>, id: i128, n: int) -> Seq<ClientRegion>
    decreases n,
{
    if n <= 0 {
        Seq::empty()
    } else {
        let prev = regions_of_monitor(rs, id, n - 1);
        if rs[n - 1].monitor == Some(id) {
            prev.push(rs[n - 1])
        } else {
            prev
        }
    }
}

/// The point lies inside the window's absolute open rectangle.
pub open spec fn window_contains(w: WindowRecord, px: int, py: int) -> bool {
    strictly_between(px, w.x as int, w.width as int) && strictly_between(py, w.y as int, w.height as int)
}

/// The first monitor with identifier `id`.
pub fn find_monitor(monitors: &Vec<MonitorRecord>, id: i128) -> (r: Option<usize>)
    ensures
        r is None <==> first_monitor(monitors@, id, monitors@.len() as int) < 0,
        r matches Some(j) ==> j as int == first_monitor(monitors@, id, monitors@.len() as int)
            && j < monitors@.len() && monitors@[j as int].id == id,
{
    let mut i: usize = 0;
    while i < monitors.len()
        invariant
            0 <= i <= monitors@.len(),
            first_monitor(monitors@, id, i as int) == -1,
        decreases monitors@.len() - i,
    {
        if monitors[i].id == id {
            assert(first_monitor(monitors@, id, i + 1) == i);
            proof { lemma_first_monitor_stays(monitors@, id, i + 1, monitors@.len() as int); }
            return Some(i);
        }
        i = i + 1;
    }
    None
}

/// Once found among the first `n`, the first match stays the same for every longer prefix.
proof fn lemma_first_monitor_stays(ms: Seq<MonitorRecord>, id: i128, n: int, m: int)
    requires
        n <= m,
        first_monitor(ms, id, n) >= 0,
    ensures
        first_monitor(ms, id, m) == first_monitor(ms, id, n),
    decreases m - n,
{
    if n < m {
        lemma_first_monitor_stays(ms, id, n, m - 1);
    }
}

/// Whether some monitor shows the window's workspace.
pub fn is_on_active_workspace(window: &WindowRecord, monitors: &Vec<MonitorRecord>) -> (r: bool)
    ensures
        r == on_active_workspace(*window, monitors@),
{
    let mut i: usize = 0;
    while i < monitors.len()
        invariant
            0 <= i <= monitors@.len(),
            forall|j: int| 0 <= j < i ==> monitors@[j].active_workspace != window.workspace,
        decreases monitors@.len() - i,
    {
        if monitors[i].active_workspace == window.workspace {
            return true;
        }
        i = i + 1;
    }
    false
}

/// The region of one window: moved into its owning monitor's coordinates
/// when that monitor is in the snapshot.
pub fn region_for(window: &WindowRecord, index: usize, monitors: &Vec<MonitorRecord>) -> (r: ClientRegion)
    ensures
        r == region_of(*window, index as int, monitors@),
{
    let absolute = ClientRegion {
        x: window.x as i64,
        y: window.y as i64,
        width: window.width,
        height: window.height,
        monitor: None,
        window: index,
    };
    match window.monitor {
        Some(id) => match find_monitor(monitors, id) {
            Some(j) => {
                ClientRegion {
                    x: window.x as i64 - monitors[j].x as i64,
                    y: window.y as i64 - monitors[j].y as i64,
                    width: window.width,
                    height: window.height,
                    monitor: Some(id),
                    window: index,
                }
            },
            None => absolute,
        },
        None => absolute,
    }
}

/// The regions of all mapped windows on an active workspace, in snapshot order.
pub fn derive_regions(windows: &Vec<WindowRecord>, monitors: &Vec<MonitorRecord>) -> (r: Vec<ClientRegion>)
    ensures
        r@ == derived_regions(windows@, monitors@, windows@.len() as int),
{
    let mut out: Vec<ClientRegion> = Vec::new();
    let mut i: usize = 0;
    while i < windows.len()
        invariant
            0 <= i <= windows@.len(),
            out@ == derived_regions(windows@, monitors@, i as int),
        decreases windows@.len() - i,
    {
        let w = &windows[i];
        if w.mapped && is_on_active_workspace(w, monitors) {
            let region = region_for(w, i, monitors);
            out.push(region);
        }
        i = i + 1;
    }
    out
}

/// The regions that belong to monitor `id`, in order.
pub fn regions_on_monitor(regions: &Vec<ClientRegion>, id: i128) -> (r: Vec<ClientRegion>)
    ensures
        r@ == regions_of_monitor(regions@, id, regions@.len() as int),
{
    let mut out: Vec<ClientRegion> = Vec::new();
    let mut i: usize = 0;
    while i < regions.len()
        invariant
            0 <= i <= regions@.len(),
            out@ == regions_of_monitor(regions@, id, i as int),
        decreases regions@.len() - i,
    {
        let region = regions[i];
        if region.monitor == Some(id) {
            out.push(region);
        }
        i = i + 1;
    }
    out
}

/// The first window whose absolute open rectangle holds the point: the
/// authoritative answer for a final pointer position.
pub fn select_window(windows: &Vec<WindowRecord>, px: i64, py: i64) -> (r: Option<usize>)
    ensures
        match r {
            Some(k) => k < windows@.len() && window_contains(windows@[k as int], px as int, py as int)
                && forall|j: int| 0 <= j < k ==> !window_contains(windows@[j], px as int, py as int),
            None => forall|j: int| 0 <= j < windows@.len() ==> !window_contains(windows@[j], px as int, py as int),
        },
{
    let mut i: usize = 0;
    while i < windows.len()
        invariant
            0 <= i <= windows@.len(),
            forall|j: int| 0 <= j < i ==> !window_contains(windows@[j], px as int, py as int),
        decreases windows@.len() - i,
    {
        let w = &windows[i];
        let x_in = (w.x as i64) < px && (px as i128) < w.x as i128 + w.width as i128;
        let y_in = (w.y as i64) < py && (py as i128) < w.y as i128 + w.height as i128;
        if x_in && y_in {
            return Some(i);
        }
        i = i + 1;
    }
    None
}

/// The derived region of a window owned by a monitor of the snapshot sits at
/// the window's absolute position minus that monitor's origin.
pub proof fn lemma_region_offset(ws: Seq<WindowRecord>, ms: Seq<MonitorRecord>, k: int, j: int)
    requires
        distinct_ids(ms),
        0 <= k < ws.len(),
        0 <= j < ms.len(),
        ws[k].monitor == Some(ms[j].id),
    ensures
        region_of(ws[k], k, ms).x == ws[k].x as int - ms[j].x as int,
        region_of(ws[k], k, ms).y == ws[k].y as int - ms[j].y as int,
        region_of(ws[k], k, ms).monitor == Some(ms[j].id),
{
    lemma_first_monitor_is(ms, ms[j].id, j, ms.len() as int);
}

/// With distinct identifiers, the first match for `ms[j].id` is `j`.
proof fn lemma_first_monitor_is(ms: Seq<MonitorRecord>, id: i128, j: int, n: int)
    requires
        distinct_ids(ms),
        0 <= j < ms.len(),
        ms[j].id == id,
        j < n <= ms.len(),
    ensures
        first_monitor(ms, id, n) == j,
    decreases n,
{
    if n > j + 1 {
        lemma_first_monitor_is(ms, id, j, n - 1);
    } else {
        lemma_first_monitor_absent(ms, id, j);
    }
}

/// No monitor before `j` carries the identifier of `ms[j]`.
proof fn lemma_first_monitor_absent(ms: Seq<MonitorRecord>, id: i128, n: int)
    requires
        distinct_ids(ms),
        0 <= n < ms.len(),
        ms[n].id == id,
    ensures
        first_monitor(ms, id, n) == -1,
{
    assert forall|m: int| 0 <= m <= n implies first_monitor(ms, id, m) == -1 by {
        lemma_first_monitor_absent_upto(ms, id, n, m);
    }
}

proof fn lemma_first_monitor_absent_upto(ms: Seq<MonitorRecord>, id: i128, n: int, m: int)
    requires
        distinct_ids(ms),
        0 <= n < ms.len(),
        ms[n].id == id,
        0 <= m <= n,
    ensures
        first_monitor(ms, id, m) == -1,
    decreases m,
{
    if m > 0 {
        lemma_first_monitor_absent_upto(ms, id, n, m - 1);
    }
}

} // verus!
