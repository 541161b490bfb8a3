//! The per-monitor overlay surface and its forward-only lifecycle:
//! no resources (`Pre`), a placeholder buffer and a base surface
//! (`InProcess`), bound to an output with a layer surface requested
//! (`HasOutput`), configured and painted (`ReadyToDraw`).
//!
//! Windowing-system objects are referred to by their protocol handle.
use vstd::prelude::*;
use crate::geometry::ClientRegion;
use crate::render::{paint, painted};

verus! {

/// What is known of a monitor's overlay before any windowing resource exists.
#[derive(Debug)]
pub struct BaseSurfaceBuffer {
    pub monitor_id: i128,
    pub monitor_size: (u16, u16),
    pub monitor_clients: Vec<ClientRegion>,
}

/// An overlay with a placeholder buffer and a base surface, not yet on an output.
#[derive(Debug)]
pub struct InProcess {
    pub monitor_id: i128,
    pub size: (u16, u16),
    pub buffer: u32,
    pub base_surface: u32,
    pub monitor_clients: Vec<ClientRegion>,
}

/// An overlay bound to an output, its layer surface requested and awaiting configuration.
#[derive(Debug)]
pub struct HasOutput {
    pub monitor_id: i128,
    pub wayland_output: u32,
    pub size: (u16, u16),
    pub buffer: u32,
    pub base_surface: u32,
    pub wlr_surface: u32,
    pub monitor_clients: Vec<ClientRegion>,
}

/// A configured overlay that has been painted and takes pointer events.
#[derive(Debug)]
pub struct ReadyToDraw {
    pub monitor_id: i128,
    pub wayland_output: u32,
    pub size: (u16, u16),
    pub buffer: u32,
    pub base_surface: u32,
    pub wlr_surface: u32,
    pub monitor_clients: Vec<ClientRegion>,
}

/// One monitor's overlay in one of its four stages.
#[derive(Debug)]
pub enum BufferSurface {
    Pre(BaseSurfaceBuffer),
    InProcess(InProcess),
    HasOutput(HasOutput),
    ReadyToDraw(ReadyToDraw),
}

impl BufferSurface {
    /// Position of the stage in the lifecycle, from 0 to 3.
    pub open spec fn stage(&self) -> nat {
        match self {
            BufferSurface::Pre(_) => 0,
            BufferSurface::InProcess(_) => 1,
            BufferSurface::HasOutput(_) => 2,
            BufferSurface::ReadyToDraw(_) => 3,
        }
    }

    /// The monitor the overlay belongs to.
    pub open spec fn monitor(&self) -> i128 {
        match self {
            BufferSurface::Pre(p) => p.monitor_id,
            BufferSurface::InProcess(p) => p.monitor_id,
            BufferSurface::HasOutput(p) => p.monitor_id,
            BufferSurface::ReadyToDraw(p) => p.monitor_id,
        }
    }

    /// The overlay's pixel size.
    pub open spec fn dims(&self) -> (u16, u16) {
        match self {
            BufferSurface::Pre(p) => p.monitor_size,
            BufferSurface::InProcess(p) => p.size,
            BufferSurface::HasOutput(p) => p.size,
            BufferSurface::ReadyToDraw(p) => p.size,
        }
    }

    /// The regions of the monitor's windows.
    pub open spec fn clients(&self) -> Seq<ClientRegion> {
        match self {
            BufferSurface::Pre(p) => p.monitor_clients@,
            BufferSurface::InProcess(p) => p.monitor_clients@,
            BufferSurface::HasOutput(p) => p.monitor_clients@,
            BufferSurface::ReadyToDraw(p) => p.monitor_clients@,
        }
    }

    /// The base surface's handle, once there is one.
    pub open spec fn surface_handle(&self) -> Option<u32> {
        match self {
            BufferSurface::Pre(_) => None,
            BufferSurface::InProcess(p) => Some(p.base_surface),
            BufferSurface::HasOutput(p) => Some(p.base_surface),
            BufferSurface::ReadyToDraw(p) => Some(p.base_surface),
        }
    }

    /// The buffer's handle, once there is one.
    pub open spec fn buffer_handle(&self) -> Option<u32> {
        match self {
            BufferSurface::Pre(_) => None,
            BufferSurface::InProcess(p) => Some(p.buffer),
            BufferSurface::HasOutput(p) => Some(p.buffer),
            BufferSurface::ReadyToDraw(p) => Some(p.buffer),
        }
    }

    /// The bound output's handle, once there is one.
    pub open spec fn output_handle(&self) -> Option<u32> {
        match self {
            BufferSurface::HasOutput(p) => Some(p.wayland_output),
            BufferSurface::ReadyToDraw(p) => Some(p.wayland_output),
            _ => None,
        }
    }

    /// The monitor the overlay belongs to.
    pub fn monitor_id(&self) -> (r: i128)
        ensures
            r == self.monitor(),
    {
        match self {
            BufferSurface::Pre(p) => p.monitor_id,
            BufferSurface::InProcess(p) => p.monitor_id,
            BufferSurface::HasOutput(p) => p.monitor_id,
            BufferSurface::ReadyToDraw(p) => p.monitor_id,
        }
    }

    /// The base surface's handle, once there is one.
    pub fn base_surface(&self) -> (r: Option<u32>)
        ensures
            r == self.surface_handle(),
    {
        match self {
            BufferSurface::Pre(_) => None,
            BufferSurface::InProcess(p) => Some(p.base_surface),
            BufferSurface::HasOutput(p) => Some(p.base_surface),
            BufferSurface::ReadyToDraw(p) => Some(p.base_surface),
        }
    }
}

/// `b` is `a` or the stage right after it, for the same monitor, size and
/// regions. A base surface or an output, once there, is kept; a step to the
/// next stage keeps the buffer too.
pub open spec fn advances(a: BufferSurface, b: BufferSurface) -> bool {
    &&& b.monitor() == a.monitor()
    &&& b.dims() == a.dims()
    &&& b.clients() == a.clients()
    &&& (b.stage() == a.stage() || b.stage() == a.stage() + 1)
    &&& (a.stage() >= 1 ==> b.surface_handle() == a.surface_handle())
    &&& (a.stage() >= 2 ==> b.output_handle() == a.output_handle())
    &&& (a.stage() >= 1 && b.stage() == a.stage() + 1 ==> b.buffer_handle() == a.buffer_handle())
}

impl InProcess {
    /// `Pre` to `InProcess`: the placeholder buffer and the base surface now exist.
    pub fn from_pre(pre: BaseSurfaceBuffer, buffer: u32, base_surface: u32) -> (r: InProcess)
        ensures
            r.monitor_id == pre.monitor_id,
            r.size == pre.monitor_size,
            r.monitor_clients@ == pre.monitor_clients@,
            r.buffer == buffer,
            r.base_surface == base_surface,
    {
        InProcess {
            monitor_id: pre.monitor_id,
            size: pre.monitor_size,
            buffer,
            base_surface,
            monitor_clients: pre.monitor_clients,
        }
    }
}

impl HasOutput {
    /// `InProcess` to `HasOutput`: bound to `output`, with the layer surface `wlr_surface` requested.
    pub fn from_in_process(in_process: InProcess, output: u32, wlr_surface: u32) -> (r: HasOutput)
        ensures
            r.monitor_id == in_process.monitor_id,
            r.size == in_process.size,
            r.monitor_clients@ == in_process.monitor_clients@,
            r.buffer == in_process.buffer,
            r.base_surface == in_process.base_surface,
            r.wayland_output == output,
            r.wlr_surface == wlr_surface,
    {
        HasOutput {
            monitor_id: in_process.monitor_id,
            wayland_output: output,
            size: in_process.size,
            buffer: in_process.buffer,
            base_surface: in_process.base_surface,
            wlr_surface,
            monitor_clients: in_process.monitor_clients,
        }
    }
}

impl ReadyToDraw {
    /// `HasOutput` to `ReadyToDraw`, on the compositor's configure of `layer_surface`.
    pub fn from_has_output(has_output: HasOutput, layer_surface: u32) -> (r: ReadyToDraw)
        ensures
            r.monitor_id == has_output.monitor_id,
            r.size == has_output.size,
            r.monitor_clients@ == has_output.monitor_clients@,
            r.buffer == has_output.buffer,
            r.base_surface == has_output.base_surface,
            r.wayland_output == has_output.wayland_output,
            r.wlr_surface == layer_surface,
    {
        ReadyToDraw {
            monitor_id: has_output.monitor_id,
            wayland_output: has_output.wayland_output,
            size: has_output.size,
            buffer: has_output.buffer,
            base_surface: has_output.base_surface,
            wlr_surface: layer_surface,
            monitor_clients: has_output.monitor_clients,
        }
    }

    /// The pixels to attach: the monitor's regions painted at the overlay's size.
    pub fn actually_draw_buffer_surface(&self) -> (r: Vec<u8>)
        ensures
            r@ == painted(self.size.0 as int, self.size.1 as int, self.monitor_clients@),
    {
        paint(self.size.0, self.size.1, &self.monitor_clients)
    }
}

} // verus!
