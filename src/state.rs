//! The selection session: every overlay surface, the capabilities that the
//! windowing system has announced, and where the pointer is. Each handler
//! decides what changes; the windowing work (binding, creating objects,
//! committing) is done by the caller, which hands the new handles back.
use vstd::prelude::*;
use crate::geometry::{ClientRegion, region_contains, is_inside_region};
use crate::snapshot::{
    WindowRecord, MonitorRecord, derive_regions, derived_regions, regions_on_monitor,
    regions_of_monitor,
};
use crate::buffer_surface::{
    BufferSurface, BaseSurfaceBuffer, InProcess, HasOutput, ReadyToDraw, advances,
};

verus! {

/// Everything one selection interaction needs, owned by the event loop.
#[derive(Debug)]
pub struct State {
    pub running: bool,
    /// One overlay per monitor, in the order the monitors were enumerated.
    pub buffer_surfaces: Vec<BufferSurface>,
    pub cursor_shape_manager: Option<u32>,
    pub layer_shell: Option<u32>,
    pub shm: Option<u32>,
    pub compositor: Option<u32>,
    /// How many outputs have been announced: the next one is paired with
    /// the monitor at this position.
    pub output_index: usize,
    /// The pointer position on the current surface, truncated to whole pixels.
    pub pointer_position: Option<(i64, i64)>,
    /// The monitor and the base surface that the pointer is over.
    pub pointer_surface: Option<(i128, u32)>,
}

/// Each overlay of `b` is the one of `a` or the stage right after it.
pub open spec fn surfaces_advance(a: Seq<BufferSurface>, b: Seq<BufferSurface>) -> bool {
    &&& b.len() == a.len()
    &&& forall|i: int| 0 <= i < a.len() ==> advances(#[trigger] a[i], b[i])
}

/// Positions among the first `n` overlays that are still in the first stage.
pub open spec fn pre_positions(ss: Seq<BufferSurface>, n: int) -> Seq<usize>
    decreases n,
{
    if n <= 0 {
        Seq::empty()
    } else {
        let prev = pre_positions(ss, n - 1);
        if ss[n - 1] is Pre {
            prev.push((n - 1) as usize)
        } else {
            prev
        }
    }
}

/// Position of the first of the first `n` overlays that belongs to monitor `id`, or -1.
pub open spec fn first_surface(ss: Seq<BufferSurface>, id: i128, n: int) -> int
    decreases n,
{
    if n <= 0 {
        -1
    } else {
        let k = first_surface(ss, id, n - 1);
        if k >= 0 {
            k
        } else if ss[n - 1].monitor() == id {
            n - 1
        } else {
            -1
        }
    }
}

/// Position of the first of the first `n` overlays whose base surface is `handle`, or -1.
pub open spec fn surface_with_handle(ss: Seq<BufferSurface>, handle: u32, n: int) -> int
    decreases n,
{
    if n <= 0 {
        -1
    } else {
        let k = surface_with_handle(ss, handle, n - 1);
        if k >= 0 {
            k
        } else if ss[n - 1].surface_handle() == Some(handle) {
            n - 1
        } else {
            -1
        }
    }
}

/// The region holds the point and belongs to monitor `m`.
pub open spec fn hovers(r: ClientRegion, x: int, y: int, m: i128) -> bool {
    region_contains(r, x, y) && r.monitor == Some(m)
}

/// Position of the first of the first `n` regions that hovers the point on monitor `m`, or -1.
pub open spec fn first_hover(rs: Seq<ClientRegion>, x: int, y: int, m: i128, n: int) -> int
    decreases n,
{
    if n <= 0 {
        -1
    } else {
        let k = first_hover(rs, x, y, m, n - 1);
        if k >= 0 {
            k
        } else if hovers(rs[n - 1], x, y, m) {
            n - 1
        } else {
            -1
        }
    }
}

proof fn lemma_hover_stays(rs: Seq<ClientRegion>, x: int, y: int, m: i128, n: int, l: int)
    requires
        n <= l,
        first_hover(rs, x, y, m, n) >= 0,
    ensures
        first_hover(rs, x, y, m, l) == first_hover(rs, x, y, m, n),
    decreases l - n,
{
    if n < l {
        lemma_hover_stays(rs, x, y, m, n, l - 1);
    }
}

/// No two overlays belong to the same monitor.
pub open spec fn distinct_monitors(ss: Seq<BufferSurface>) -> bool {
    forall|i: int, j: int| 0 <= i < ss.len() && 0 <= j < ss.len() && i != j
        ==> (#[trigger] ss[i]).monitor() != (#[trigger] ss[j]).monitor()
}

/// Overlays keep their monitors as they advance, so distinct monitors stay distinct.
pub proof fn lemma_advance_keeps_distinct(a: Seq<BufferSurface>, b: Seq<BufferSurface>)
    requires
        surfaces_advance(a, b),
        distinct_monitors(a),
    ensures
        distinct_monitors(b),
{
    assert forall|i: int, j: int| 0 <= i < b.len() && 0 <= j < b.len() && i != j
        implies (#[trigger] b[i]).monitor() != (#[trigger] b[j]).monitor() by {
        assert(advances(a[i], b[i]));
        assert(advances(a[j], b[j]));
    }
}

/// With distinct monitors, looking an overlay up by its monitor finds that
/// overlay: a configure for monitor `ss[j].monitor()` reaches overlay `j`.
pub proof fn lemma_monitor_finds_its_surface(ss: Seq<BufferSurface>, j: int)
    requires
        distinct_monitors(ss),
        0 <= j < ss.len(),
    ensures
        first_surface(ss, ss[j].monitor(), ss.len() as int) == j,
{
    lemma_first_surface_before(ss, j, j);
    assert(first_surface(ss, ss[j].monitor(), j + 1) == j);
    lemma_first_surface_stays(ss, ss[j].monitor(), j + 1, ss.len() as int);
}

proof fn lemma_first_surface_before(ss: Seq<BufferSurface>, j: int, n: int)
    requires
        distinct_monitors(ss),
        0 <= n <= j < ss.len(),
    ensures
        first_surface(ss, ss[j].monitor(), n) == -1,
    decreases n,
{
    if n > 0 {
        lemma_first_surface_before(ss, j, n - 1);
        assert(ss[n - 1].monitor() != ss[j].monitor());
    }
}

/// The fresh overlay of monitor `m`: first stage, with the regions on that monitor.
pub open spec fn fresh_surface(s: BufferSurface, m: MonitorRecord, rs: Seq<ClientRegion>) -> bool {
    &&& s is Pre
    &&& s.monitor() == m.id
    &&& s.dims() == (m.width, m.height)
    &&& s.clients() == regions_of_monitor(rs, m.id, rs.len() as int)
}

proof fn lemma_first_surface_range(ss: Seq<BufferSurface>, id: i128, n: int)
    ensures
        -1 <= first_surface(ss, id, n) < if n > 0 { n } else { 0 },
        first_surface(ss, id, n) >= 0 ==> ss[first_surface(ss, id, n)].monitor() == id,
    decreases n,
{
    if n > 0 {
        lemma_first_surface_range(ss, id, n - 1);
    }
}

proof fn lemma_first_surface_stays(ss: Seq<BufferSurface>, id: i128, n: int, m: int)
    requires
        n <= m,
        first_surface(ss, id, n) >= 0,
    ensures
        first_surface(ss, id, m) == first_surface(ss, id, n),
    decreases m - n,
{
    if n < m {
        lemma_first_surface_stays(ss, id, n, m - 1);
    }
}

proof fn lemma_handle_range(ss: Seq<BufferSurface>, h: u32, n: int)
    ensures
        -1 <= surface_with_handle(ss, h, n) < if n > 0 { n } else { 0 },
        surface_with_handle(ss, h, n) >= 0 ==> ss[surface_with_handle(ss, h, n)].surface_handle() == Some(h),
    decreases n,
{
    if n > 0 {
        lemma_handle_range(ss, h, n - 1);
    }
}

proof fn lemma_handle_stays(ss: Seq<BufferSurface>, h: u32, n: int, m: int)
    requires
        n <= m,
        surface_with_handle(ss, h, n) >= 0,
    ensures
        surface_with_handle(ss, h, m) == surface_with_handle(ss, h, n),
    decreases m - n,
{
    if n < m {
        lemma_handle_stays(ss, h, n, m - 1);
    }
}

/// The session for a snapshot: one fresh overlay per monitor, in order, each
/// with the regions of the windows on that monitor; no capability yet; no
/// pointer. Also returns the regions of all eligible windows.
pub fn create_state_and_region_bounds(
    clients: &Vec<WindowRecord>,
    monitors: &Vec<MonitorRecord>,
) -> (r: (State, Vec<ClientRegion>))
    ensures
        r.1@ == derived_regions(clients@, monitors@, clients@.len() as int),
        r.0.running,
        r.0.buffer_surfaces@.len() == monitors@.len(),
        forall|i: int| 0 <= i < monitors@.len()
            ==> fresh_surface(#[trigger] r.0.buffer_surfaces@[i], monitors@[i], r.1@),
        r.0.cursor_shape_manager is None,
        r.0.layer_shell is None,
        r.0.shm is None,
        r.0.compositor is None,
        r.0.output_index == 0,
        r.0.pointer_position is None,
        r.0.pointer_surface is None,
        r.0.wf(),
        crate::snapshot::distinct_ids(monitors@) ==> distinct_monitors(r.0.buffer_surfaces@),
{
    let regions = derive_regions(clients, monitors);
    let mut surfaces: Vec<BufferSurface> = Vec::new();
    let mut i: usize = 0;
    while i < monitors.len()
        invariant
            0 <= i <= monitors@.len(),
            surfaces@.len() == i,
            forall|j: int| 0 <= j < i ==> fresh_surface(#[trigger] surfaces@[j], monitors@[j], regions@),
        decreases monitors@.len() - i,
    {
        let m = monitors[i];
        let monitor_clients = regions_on_monitor(&regions, m.id);
        surfaces.push(BufferSurface::Pre(BaseSurfaceBuffer {
            monitor_id: m.id,
            monitor_size: (m.width, m.height),
            monitor_clients,
        }));
        i = i + 1;
    }
    let state = State {
        running: true,
        buffer_surfaces: surfaces,
        cursor_shape_manager: None,
        layer_shell: None,
        shm: None,
        compositor: None,
        output_index: 0,
        pointer_position: None,
        pointer_surface: None,
    };
    (state, regions)
}

impl State {
    /// Capabilities are never lost: an overlay past the first stage was
    /// built with the allocator and the compositor, and one bound to an
    /// output with the layer shell.
    pub open spec fn wf(&self) -> bool {
        forall|i: int| 0 <= i < self.buffer_surfaces@.len() ==> {
            let s = #[trigger] self.buffer_surfaces@[i];
            &&& (s.stage() >= 1 ==> self.shm is Some && self.compositor is Some)
            &&& (s.stage() >= 2 ==> self.layer_shell is Some)
        }
    }

    /// The parts of the session that a capability or pointer handler leaves alone.
    pub open spec fn same_pointer(&self, other: &State) -> bool {
        &&& other.running == self.running
        &&& other.pointer_position == self.pointer_position
        &&& other.pointer_surface == self.pointer_surface
    }

    /// The capabilities and the output counter are those of `other`.
    pub open spec fn same_capabilities(&self, other: &State) -> bool {
        &&& other.cursor_shape_manager == self.cursor_shape_manager
        &&& other.layer_shell == self.layer_shell
        &&& other.shm == self.shm
        &&& other.compositor == self.compositor
        &&& other.output_index == self.output_index
    }

    /// Takes the overlay at `i` out, leaving an empty first-stage one in its place.
    fn take_surface(&mut self, i: usize) -> (r: BufferSurface)
        requires
            i < old(self).buffer_surfaces@.len(),
        ensures
            r == old(self).buffer_surfaces@[i as int],
            final(self).buffer_surfaces@.len() == old(self).buffer_surfaces@.len(),
            forall|j: int| 0 <= j < old(self).buffer_surfaces@.len() && j != i
                ==> final(self).buffer_surfaces@[j] == old(self).buffer_surfaces@[j],
            final(self).same_pointer(old(self)),
            final(self).same_capabilities(old(self)),
    {
        let mut slot = BufferSurface::Pre(BaseSurfaceBuffer {
            monitor_id: 0,
            monitor_size: (0, 0),
            monitor_clients: Vec::new(),
        });
        core::mem::swap(&mut self.buffer_surfaces[i], &mut slot);
        slot
    }

    /// A drawable-surface factory was announced and bound as `compositor`.
    pub fn compositor_ready(&mut self, compositor: u32)
        ensures
            surfaces_advance(old(self).buffer_surfaces@, final(self).buffer_surfaces@),
            old(self).wf() ==> final(self).wf(),
            final(self).compositor == Some(compositor),
            final(self).cursor_shape_manager == old(self).cursor_shape_manager,
            final(self).layer_shell == old(self).layer_shell,
            final(self).shm == old(self).shm,
            final(self).output_index == old(self).output_index,
            final(self).buffer_surfaces@ == old(self).buffer_surfaces@,
            final(self).same_pointer(old(self)),
    {
        self.compositor = Some(compositor);
    }

    /// The layer-shell extension was announced and bound as `layer_shell`.
    pub fn layer_shell_ready(&mut self, layer_shell: u32)
        ensures
            surfaces_advance(old(self).buffer_surfaces@, final(self).buffer_surfaces@),
            old(self).wf() ==> final(self).wf(),
            final(self).layer_shell == Some(layer_shell),
            final(self).cursor_shape_manager == old(self).cursor_shape_manager,
            final(self).compositor == old(self).compositor,
            final(self).shm == old(self).shm,
            final(self).output_index == old(self).output_index,
            final(self).buffer_surfaces@ == old(self).buffer_surfaces@,
            final(self).same_pointer(old(self)),
    {
        self.layer_shell = Some(layer_shell);
    }

    /// The cursor-shape manager was announced and bound as `manager`.
    pub fn cursor_shape_ready(&mut self, manager: u32)
        ensures
            surfaces_advance(old(self).buffer_surfaces@, final(self).buffer_surfaces@),
            old(self).wf() ==> final(self).wf(),
            final(self).cursor_shape_manager == Some(manager),
            final(self).layer_shell == old(self).layer_shell,
            final(self).compositor == old(self).compositor,
            final(self).shm == old(self).shm,
            final(self).output_index == old(self).output_index,
            final(self).buffer_surfaces@ == old(self).buffer_surfaces@,
            final(self).same_pointer(old(self)),
    {
        self.cursor_shape_manager = Some(manager);
    }

    /// The shared-memory allocator was announced and bound as `shm`. Returns
    /// the positions of the overlays that are to get a placeholder buffer and
    /// a base surface now: every first-stage one, when the compositor is
    /// already known; none otherwise.
    pub fn shm_ready(&mut self, shm: u32) -> (r: Vec<usize>)
        ensures
            surfaces_advance(old(self).buffer_surfaces@, final(self).buffer_surfaces@),
            old(self).wf() ==> final(self).wf(),
            final(self).shm == Some(shm),
            final(self).cursor_shape_manager == old(self).cursor_shape_manager,
            final(self).layer_shell == old(self).layer_shell,
            final(self).compositor == old(self).compositor,
            final(self).output_index == old(self).output_index,
            final(self).buffer_surfaces@ == old(self).buffer_surfaces@,
            final(self).same_pointer(old(self)),
            r@ == if old(self).compositor is Some {
                pre_positions(old(self).buffer_surfaces@, old(self).buffer_surfaces@.len() as int)
            } else {
                Seq::empty()
            },
    {
        self.shm = Some(shm);
        let mut out: Vec<usize> = Vec::new();
        if self.compositor.is_some() {
            let mut i: usize = 0;
            while i < self.buffer_surfaces.len()
                invariant
                    0 <= i <= self.buffer_surfaces@.len(),
                    out@ == pre_positions(self.buffer_surfaces@, i as int),
                decreases self.buffer_surfaces@.len() - i,
            {
                if let BufferSurface::Pre(_) = &self.buffer_surfaces[i] {
                    out.push(i);
                }
                i = i + 1;
            }
        }
        out
    }

    /// `Pre` to `InProcess` for the overlay at `i`, with the placeholder
    /// `buffer` and the `base_surface` the caller created for it.
    pub fn promote_to_in_process(&mut self, i: usize, buffer: u32, base_surface: u32)
        requires
            i < old(self).buffer_surfaces@.len(),
            old(self).buffer_surfaces@[i as int] is Pre,
            old(self).shm is Some,
            old(self).compositor is Some,
        ensures
            old(self).wf() ==> final(self).wf(),
            surfaces_advance(old(self).buffer_surfaces@, final(self).buffer_surfaces@),
            final(self).buffer_surfaces@[i as int] is InProcess,
            final(self).buffer_surfaces@[i as int]->InProcess_0.buffer == buffer,
            final(self).buffer_surfaces@[i as int]->InProcess_0.base_surface == base_surface,
            forall|j: int| 0 <= j < old(self).buffer_surfaces@.len() && j != i
                ==> final(self).buffer_surfaces@[j] == old(self).buffer_surfaces@[j],
            final(self).same_pointer(old(self)),
            final(self).same_capabilities(old(self)),
    {
        let taken = self.take_surface(i);
        match taken {
            BufferSurface::Pre(pre) => {
                let next = InProcess::from_pre(pre, buffer, base_surface);
                self.buffer_surfaces.set(i, BufferSurface::InProcess(next));
            },
            _ => {
                assert(false);
            },
        }
    }

    /// An output was announced. Outputs carry no monitor identifier, so the
    /// n-th output announced is taken to be the n-th monitor enumerated: the
    /// counter moves on whatever else happens. Returns the position of the
    /// overlay to bind to this output now: the paired one, when the layer
    /// shell is known and that overlay is `InProcess`.
    pub fn output_ready(&mut self) -> (r: Option<usize>)
        requires
            old(self).output_index < usize::MAX,
        ensures
            surfaces_advance(old(self).buffer_surfaces@, final(self).buffer_surfaces@),
            old(self).wf() ==> final(self).wf(),
            final(self).output_index == old(self).output_index + 1,
            final(self).cursor_shape_manager == old(self).cursor_shape_manager,
            final(self).layer_shell == old(self).layer_shell,
            final(self).compositor == old(self).compositor,
            final(self).shm == old(self).shm,
            final(self).buffer_surfaces@ == old(self).buffer_surfaces@,
            final(self).same_pointer(old(self)),
            r == if old(self).layer_shell is Some && old(self).output_index < old(self).buffer_surfaces@.len()
                && old(self).buffer_surfaces@[old(self).output_index as int] is InProcess {
                Some(old(self).output_index)
            } else {
                None
            },
    {
        let k = self.output_index;
        self.output_index = k + 1;
        if self.layer_shell.is_some() && k < self.buffer_surfaces.len() {
            if let BufferSurface::InProcess(_) = &self.buffer_surfaces[k] {
                return Some(k);
            }
        }
        None
    }

    /// `InProcess` to `HasOutput` for the overlay at `i`: bound to `output`,
    /// with the layer surface `wlr_surface` that the caller requested for it.
    pub fn attach_output(&mut self, i: usize, output: u32, wlr_surface: u32)
        requires
            i < old(self).buffer_surfaces@.len(),
            old(self).buffer_surfaces@[i as int] is InProcess,
            old(self).layer_shell is Some,
        ensures
            old(self).wf() ==> final(self).wf(),
            surfaces_advance(old(self).buffer_surfaces@, final(self).buffer_surfaces@),
            final(self).buffer_surfaces@[i as int] is HasOutput,
            final(self).buffer_surfaces@[i as int]->HasOutput_0.wayland_output == output,
            final(self).buffer_surfaces@[i as int]->HasOutput_0.wlr_surface == wlr_surface,
            final(self).buffer_surfaces@[i as int]->HasOutput_0.base_surface
                == old(self).buffer_surfaces@[i as int]->InProcess_0.base_surface,
            final(self).buffer_surfaces@[i as int]->HasOutput_0.buffer
                == old(self).buffer_surfaces@[i as int]->InProcess_0.buffer,
            forall|j: int| 0 <= j < old(self).buffer_surfaces@.len() && j != i
                ==> final(self).buffer_surfaces@[j] == old(self).buffer_surfaces@[j],
            final(self).same_pointer(old(self)),
            final(self).same_capabilities(old(self)),
    {
        let taken = self.take_surface(i);
        match taken {
            BufferSurface::InProcess(in_process) => {
                let next = HasOutput::from_in_process(in_process, output, wlr_surface);
                self.buffer_surfaces.set(i, BufferSurface::HasOutput(next));
            },
            _ => {
                assert(false);
            },
        }
    }

    /// The position of the first overlay of monitor `id`.
    pub fn surface_of_monitor(&self, id: i128) -> (r: Option<usize>)
        ensures
            r is None <==> first_surface(self.buffer_surfaces@, id, self.buffer_surfaces@.len() as int) < 0,
            r matches Some(k) ==> k as int == first_surface(self.buffer_surfaces@, id, self.buffer_surfaces@.len() as int)
                && k < self.buffer_surfaces@.len(),
    {
        let mut i: usize = 0;
        while i < self.buffer_surfaces.len()
            invariant
                0 <= i <= self.buffer_surfaces@.len(),
                first_surface(self.buffer_surfaces@, id, i as int) == -1,
            decreases self.buffer_surfaces@.len() - i,
        {
            if self.buffer_surfaces[i].monitor_id() == id {
                proof {
                    lemma_first_surface_stays(self.buffer_surfaces@, id, i + 1, self.buffer_surfaces@.len() as int);
                }
                return Some(i);
            }
            i = i + 1;
        }
        None
    }

    /// The compositor configured the layer surface `layer_surface` of monitor
    /// `id`. With the allocator known, the monitor's first overlay moves from
    /// `HasOutput` to `ReadyToDraw`, or stays `ReadyToDraw`; its position is
    /// returned so that the caller acknowledges, paints and attaches. Nothing
    /// changes otherwise.
    pub fn configure(&mut self, id: i128, layer_surface: u32) -> (r: Option<usize>)
        ensures
            old(self).wf() ==> final(self).wf(),
            surfaces_advance(old(self).buffer_surfaces@, final(self).buffer_surfaces@),
            final(self).same_pointer(old(self)),
            final(self).same_capabilities(old(self)),
            ({
                let ss = old(self).buffer_surfaces@;
                let k = first_surface(ss, id, ss.len() as int);
                if old(self).shm is Some && k >= 0 && (ss[k] is HasOutput || ss[k] is ReadyToDraw) {
                    &&& r == Some(k as usize)
                    &&& final(self).buffer_surfaces@[k] is ReadyToDraw
                    &&& (ss[k] is HasOutput ==> {
                        let before = ss[k]->HasOutput_0;
                        let after = final(self).buffer_surfaces@[k]->ReadyToDraw_0;
                        &&& after.wlr_surface == layer_surface
                        &&& after.base_surface == before.base_surface
                        &&& after.buffer == before.buffer
                        &&& after.wayland_output == before.wayland_output
                    })
                    &&& (ss[k] is ReadyToDraw ==> final(self).buffer_surfaces@[k] == ss[k])
                    &&& forall|j: int| 0 <= j < ss.len() && j != k ==> final(self).buffer_surfaces@[j] == ss[j]
                } else {
                    &&& r is None
                    &&& final(self).buffer_surfaces@ == ss
                }
            }),
    {
        if self.shm.is_none() {
            return None;
        }
        let found = self.surface_of_monitor(id);
        proof {
            lemma_first_surface_range(self.buffer_surfaces@, id, self.buffer_surfaces@.len() as int);
        }
        match found {
            Some(k) => {
                match &self.buffer_surfaces[k] {
                    BufferSurface::ReadyToDraw(_) => {
                        return Some(k);
                    },
                    BufferSurface::HasOutput(_) => {},
                    _ => {
                        return None;
                    },
                }
                let taken = self.take_surface(k);
                match taken {
                    BufferSurface::HasOutput(has_output) => {
                        let next = ReadyToDraw::from_has_output(has_output, layer_surface);
                        self.buffer_surfaces.set(k, BufferSurface::ReadyToDraw(next));
                    },
                    _ => {
                        assert(false);
                    },
                }
                Some(k)
            },
            None => None,
        }
    }

    /// Records `buffer`, freshly painted and attached, as the buffer of the
    /// `ReadyToDraw` overlay at `i`.
    pub fn attach_buffer(&mut self, i: usize, buffer: u32)
        requires
            i < old(self).buffer_surfaces@.len(),
            old(self).buffer_surfaces@[i as int] is ReadyToDraw,
        ensures
            old(self).wf() ==> final(self).wf(),
            surfaces_advance(old(self).buffer_surfaces@, final(self).buffer_surfaces@),
            final(self).buffer_surfaces@[i as int] is ReadyToDraw,
            final(self).buffer_surfaces@[i as int]->ReadyToDraw_0.buffer == buffer,
            final(self).buffer_surfaces@[i as int]->ReadyToDraw_0.base_surface
                == old(self).buffer_surfaces@[i as int]->ReadyToDraw_0.base_surface,
            final(self).buffer_surfaces@[i as int]->ReadyToDraw_0.wayland_output
                == old(self).buffer_surfaces@[i as int]->ReadyToDraw_0.wayland_output,
            final(self).buffer_surfaces@[i as int]->ReadyToDraw_0.wlr_surface
                == old(self).buffer_surfaces@[i as int]->ReadyToDraw_0.wlr_surface,
            forall|j: int| 0 <= j < old(self).buffer_surfaces@.len() && j != i
                ==> final(self).buffer_surfaces@[j] == old(self).buffer_surfaces@[j],
            final(self).same_pointer(old(self)),
            final(self).same_capabilities(old(self)),
    {
        let taken = self.take_surface(i);
        match taken {
            BufferSurface::ReadyToDraw(mut ready) => {
                ready.buffer = buffer;
                self.buffer_surfaces.set(i, BufferSurface::ReadyToDraw(ready));
            },
            _ => {
                assert(false);
            },
        }
    }

    /// The position of the first overlay whose base surface is `surface`.
    pub fn surface_by_handle(&self, surface: u32) -> (r: Option<usize>)
        ensures
            r is None <==> surface_with_handle(self.buffer_surfaces@, surface, self.buffer_surfaces@.len() as int) < 0,
            r matches Some(k) ==> k as int == surface_with_handle(self.buffer_surfaces@, surface, self.buffer_surfaces@.len() as int)
                && k < self.buffer_surfaces@.len(),
    {
        let mut i: usize = 0;
        while i < self.buffer_surfaces.len()
            invariant
                0 <= i <= self.buffer_surfaces@.len(),
                surface_with_handle(self.buffer_surfaces@, surface, i as int) == -1,
            decreases self.buffer_surfaces@.len() - i,
        {
            if self.buffer_surfaces[i].base_surface() == Some(surface) {
                proof {
                    lemma_handle_stays(self.buffer_surfaces@, surface, i + 1, self.buffer_surfaces@.len() as int);
                }
                return Some(i);
            }
            i = i + 1;
        }
        None
    }

    /// The pointer entered `surface`. Tracks the overlay whose base surface
    /// it is, in whatever stage, and its monitor; tracks none when no overlay
    /// has it. Returns whether to set the crosshair cursor: only when a
    /// cursor-shape manager is known.
    pub fn pointer_enter(&mut self, surface: u32) -> (r: bool)
        ensures
            surfaces_advance(old(self).buffer_surfaces@, final(self).buffer_surfaces@),
            old(self).wf() ==> final(self).wf(),
            r == old(self).cursor_shape_manager is Some,
            ({
                let ss = old(self).buffer_surfaces@;
                let k = surface_with_handle(ss, surface, ss.len() as int);
                final(self).pointer_surface == if k >= 0 {
                    Some((ss[k].monitor(), surface))
                } else {
                    None::<(i128, u32)>
                }
            }),
            final(self).running == old(self).running,
            final(self).pointer_position == old(self).pointer_position,
            final(self).buffer_surfaces@ == old(self).buffer_surfaces@,
            final(self).same_capabilities(old(self)),
    {
        let found = self.surface_by_handle(surface);
        proof {
            lemma_handle_range(self.buffer_surfaces@, surface, self.buffer_surfaces@.len() as int);
        }
        self.pointer_surface = match found {
            Some(k) => Some((self.buffer_surfaces[k].monitor_id(), surface)),
            None => None,
        };
        self.cursor_shape_manager.is_some()
    }

    /// The pointer left the surface it was over.
    pub fn pointer_leave(&mut self)
        ensures
            surfaces_advance(old(self).buffer_surfaces@, final(self).buffer_surfaces@),
            old(self).wf() ==> final(self).wf(),
            final(self).pointer_surface is None,
            final(self).running == old(self).running,
            final(self).pointer_position == old(self).pointer_position,
            final(self).buffer_surfaces@ == old(self).buffer_surfaces@,
            final(self).same_capabilities(old(self)),
    {
        self.pointer_surface = None;
    }

    /// The pointer moved to `(x, y)` on its surface, truncated to whole pixels.
    pub fn pointer_motion(&mut self, x: i64, y: i64)
        ensures
            surfaces_advance(old(self).buffer_surfaces@, final(self).buffer_surfaces@),
            old(self).wf() ==> final(self).wf(),
            final(self).pointer_position == Some((x, y)),
            final(self).running == old(self).running,
            final(self).pointer_surface == old(self).pointer_surface,
            final(self).buffer_surfaces@ == old(self).buffer_surfaces@,
            final(self).same_capabilities(old(self)),
    {
        self.pointer_position = Some((x, y));
    }

    /// A pointer button was pressed or released: the interaction ends.
    pub fn pointer_button(&mut self)
        ensures
            surfaces_advance(old(self).buffer_surfaces@, final(self).buffer_surfaces@),
            old(self).wf() ==> final(self).wf(),
            !final(self).running,
            final(self).pointer_position == old(self).pointer_position,
            final(self).pointer_surface == old(self).pointer_surface,
            final(self).buffer_surfaces@ == old(self).buffer_surfaces@,
            final(self).same_capabilities(old(self)),
    {
        self.running = false;
    }

    /// The window under the pointer: the back-reference of the first region
    /// that contains the pointer position and belongs to the monitor the
    /// pointer is over. None without a position or a tracked surface, or
    /// when no region matches.
    pub fn hovered_client(&self, regions: &Vec<ClientRegion>) -> (r: Option<usize>)
        ensures
            r == if self.pointer_position is Some && self.pointer_surface is Some {
                let (x, y) = self.pointer_position->0;
                let (m, _) = self.pointer_surface->0;
                let k = first_hover(regions@, x as int, y as int, m, regions@.len() as int);
                if k >= 0 {
                    Some(regions@[k].window)
                } else {
                    None
                }
            } else {
                None
            },
    {
        match (self.pointer_position, self.pointer_surface) {
            (Some((x, y)), Some((m, _))) => {
                let mut i: usize = 0;
                while i < regions.len()
                    invariant
                        0 <= i <= regions@.len(),
                        first_hover(regions@, x as int, y as int, m, i as int) == -1,
                        self.pointer_position == Some((x, y)),
                        self.pointer_surface matches Some((sm, _)) && sm == m,
                    decreases regions@.len() - i,
                {
                    let region = regions[i];
                    let on_monitor = match region.monitor {
                        Some(rm) => rm == m,
                        None => false,
                    };
                    if on_monitor && is_inside_region(x, y, &region) {
                        proof {
                            lemma_hover_stays(regions@, x as int, y as int, m, i + 1, regions@.len() as int);
                        }
                        return Some(region.window);
                    }
                    i = i + 1;
                }
                None
            },
            _ => None,
        }
    }
}

/// The stage of overlay `i` after step `k` of a run.
pub open spec fn stage_at(trace: Seq<Seq<BufferSurface>>, k: int, i: int) -> nat {
    trace[k][i].stage()
}

/// Each step of the run moves every overlay forward by at most one stage.
pub open spec fn run_advances(trace: Seq<Seq<BufferSurface>>) -> bool {
    forall|k: int| 0 <= k < trace.len() - 1 ==> surfaces_advance(#[trigger] trace[k], trace[k + 1])
}

/// Overlay stages never skip and never go back: along a run of handlers
/// that starts with overlay `i` in the first stage, the stages seen for it
/// never decrease, and every stage up to the one it has reached was seen on
/// the way. So what is observed is a prefix of `Pre`, `InProcess`,
/// `HasOutput`, `ReadyToDraw`.
pub proof fn lemma_stages_in_order(trace: Seq<Seq<BufferSurface>>, i: int)
    requires
        trace.len() > 0,
        run_advances(trace),
        0 <= i < trace[0].len(),
        trace[0][i] is Pre,
    ensures
        forall|k: int| 0 <= k < trace.len() ==> i < (#[trigger] trace[k]).len(),
        forall|a: int, b: int| 0 <= a <= b < trace.len() ==> stage_at(trace, a, i) <= stage_at(trace, b, i),
        stage_at(trace, 0, i) == 0,
        forall|k: int| 0 <= k < trace.len() - 1 ==> #[trigger] stage_at(trace, k + 1, i) == stage_at(trace, k, i)
            || stage_at(trace, k + 1, i) == stage_at(trace, k, i) + 1,
        forall|k: int| 0 <= k < trace.len() ==> #[trigger] stage_at(trace, k, i) <= 3,
{
    lemma_stages_upto(trace, i, trace.len() as int);
}

proof fn lemma_stages_upto(trace: Seq<Seq<BufferSurface>>, i: int, n: int)
    requires
        1 <= n <= trace.len(),
        run_advances(trace),
        0 <= i < trace[0].len(),
        trace[0][i] is Pre,
    ensures
        forall|k: int| 0 <= k < n ==> i < (#[trigger] trace[k]).len(),
        forall|a: int, b: int| 0 <= a <= b < n ==> stage_at(trace, a, i) <= stage_at(trace, b, i),
        forall|k: int| 0 <= k < n - 1 ==> #[trigger] stage_at(trace, k + 1, i) == stage_at(trace, k, i)
            || stage_at(trace, k + 1, i) == stage_at(trace, k, i) + 1,
        forall|k: int| 0 <= k < n ==> #[trigger] stage_at(trace, k, i) <= 3,
    decreases n,
{
    if n > 1 {
        lemma_stages_upto(trace, i, n - 1);
        let p = n - 2;
        assert(surfaces_advance(trace[p], trace[p + 1]));
        assert(advances(trace[p][i], trace[p + 1][i]));
        assert forall|k: int| 0 <= k < n implies i < (#[trigger] trace[k]).len() by {
            if k == n - 1 {
                assert(i < trace[p].len());
            }
        }
        assert forall|a: int, b: int| 0 <= a <= b < n implies stage_at(trace, a, i) <= stage_at(trace, b, i) by {
            if b == n - 1 && a < b {
                assert(stage_at(trace, a, i) <= stage_at(trace, p, i));
            }
        }
    }
}

/// How many of the first `k` announcements were outputs.
pub open spec fn outputs_before(is_output: Seq<bool>, k: int) -> int
    decreases k,
{
    if k <= 0 {
        0
    } else {
        outputs_before(is_output, k - 1) + if is_output[k - 1] { 1int } else { 0int }
    }
}

/// Outputs pair with monitors in enumeration order: along a run that starts
/// from a fresh session, where an output announcement moves the counter on
/// by one and every other announcement or event leaves it alone, the n-th
/// output announced meets the counter at n, so it is paired with the n-th
/// monitor, whatever else is interleaved.
pub proof fn lemma_outputs_pair_in_order(trace: Seq<State>, is_output: Seq<bool>)
    requires
        trace.len() == is_output.len() + 1,
        trace[0].output_index == 0,
        forall|k: int| 0 <= k < is_output.len() ==> (#[trigger] trace[k + 1]).output_index == trace[k].output_index
            + if is_output[k] { 1int } else { 0int },
    ensures
        forall|k: int| 0 <= k < is_output.len() && #[trigger] is_output[k]
            ==> trace[k].output_index == outputs_before(is_output, k),
{
    lemma_counter_counts(trace, is_output, is_output.len() as int);
}

proof fn lemma_counter_counts(trace: Seq<State>, is_output: Seq<bool>, n: int)
    requires
        0 <= n <= is_output.len(),
        trace.len() == is_output.len() + 1,
        trace[0].output_index == 0,
        forall|k: int| 0 <= k < is_output.len() ==> (#[trigger] trace[k + 1]).output_index == trace[k].output_index
            + if is_output[k] { 1int } else { 0int },
    ensures
        forall|k: int| 0 <= k <= n ==> (#[trigger] trace[k]).output_index == outputs_before(is_output, k),
    decreases n,
{
    if n > 0 {
        lemma_counter_counts(trace, is_output, n - 1);
        let k = n - 1;
        assert(trace[k + 1].output_index == trace[k].output_index + if is_output[k] { 1int } else { 0int });
    }
}

} // verus!
