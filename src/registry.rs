//! Recognising the windowing system's global announcements by interface name.
use vstd::prelude::*;

verus! {

/// The kinds of global object that the session reacts to.
#[derive(Clone, Copy, Debug, PartialEq, Eq, Structural)]
pub enum Global {
    /// The drawable-surface factory.
    Compositor,
    /// The shared-memory allocator.
    Shm,
    Seat,
    Pointer,
    Keyboard,
    CursorShapeManager,
    CursorShapeDevice,
    Output,
    /// The layer-shell extension.
    LayerShell,
    LayerSurface,
    /// Anything else: ignored.
    Other,
}

/// The kind of the global announced under interface name `name`.
pub open spec fn global_of(name: Seq<char>) -> Global {
    if name == "wl_compositor"@ {
        Global::Compositor
    } else if name == "wl_shm"@ {
        Global::Shm
    } else if name == "wl_seat"@ {
        Global::Seat
    } else if name == "wl_pointer"@ {
        Global::Pointer
    } else if name == "wl_keyboard"@ {
        Global::Keyboard
    } else if name == "wp_cursor_shape_manager_v1"@ {
        Global::CursorShapeManager
    } else if name == "wp_cursor_shape_device_v1"@ {
        Global::CursorShapeDevice
    } else if name == "wl_output"@ {
        Global::Output
    } else if name == "zwlr_layer_shell_v1"@ {
        Global::LayerShell
    } else if name == "zwlr_layer_surface_v1"@ {
        Global::LayerSurface
    } else {
        Global::Other
    }
}

/// Whether two strings hold the same characters.
pub fn same_text(a: &str, b: &str) -> (r: bool)
    ensures
        r == (a@ == b@),
{
    let n = a.unicode_len();
    if n != b.unicode_len() {
        return false;
    }
    let mut i: usize = 0;
    while i < n
        invariant
            n == a@.len(),
            n == b@.len(),
            0 <= i <= n,
            forall|j: int| 0 <= j < i ==> a@[j] == b@[j],
        decreases n - i,
    {
        if a.get_char(i) != b.get_char(i) {
            return false;
        }
        i = i + 1;
    }
    assert(a@ =~= b@);
    true
}

/// Classifies a global announcement by its interface name.
pub fn global_kind(interface: &str) -> (r: Global)
    ensures
        r == global_of(interface@),
{
    if same_text(interface, "wl_compositor") {
        Global::Compositor
    } else if same_text(interface, "wl_shm") {
        Global::Shm
    } else if same_text(interface, "wl_seat") {
        Global::Seat
    } else if same_text(interface, "wl_pointer") {
        Global::Pointer
    } else if same_text(interface, "wl_keyboard") {
        Global::Keyboard
    } else if same_text(interface, "wp_cursor_shape_manager_v1") {
        Global::CursorShapeManager
    } else if same_text(interface, "wp_cursor_shape_device_v1") {
        Global::CursorShapeDevice
    } else if same_text(interface, "wl_output") {
        Global::Output
    } else if same_text(interface, "zwlr_layer_shell_v1") {
        Global::LayerShell
    } else if same_text(interface, "zwlr_layer_surface_v1") {
        Global::LayerSurface
    } else {
        Global::Other
    }
}

} // verus!
