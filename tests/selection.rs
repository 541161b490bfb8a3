use hyprselect::buffer_surface::BufferSurface;
use hyprselect::geometry::{is_inside_region, ClientRegion};
use hyprselect::registry::{global_kind, Global};
use hyprselect::snapshot::{derive_regions, select_window, MonitorRecord, WindowRecord};
use hyprselect::state::{create_state_and_region_bounds, State};

fn window(address: &str, x: i16, y: i16, w: i16, h: i16, monitor: Option<i128>, workspace: i32) -> WindowRecord {
    WindowRecord {
        address: address.to_string(),
        title: format!("title {address}"),
        initial_title: format!("initial {address}"),
        x,
        y,
        width: w,
        height: h,
        monitor,
        workspace,
        mapped: true,
    }
}

fn monitor(id: i128, x: i32, y: i32, w: u16, h: u16, workspace: i32) -> MonitorRecord {
    MonitorRecord { id, x, y, width: w, height: h, active_workspace: workspace }
}

fn stage(s: &BufferSurface) -> u8 {
    match s {
        BufferSurface::Pre(_) => 0,
        BufferSurface::InProcess(_) => 1,
        BufferSurface::HasOutput(_) => 2,
        BufferSurface::ReadyToDraw(_) => 3,
    }
}

fn region(x: i64, y: i64, w: i16, h: i16) -> ClientRegion {
    ClientRegion { x, y, width: w, height: h, monitor: Some(0), window: 0 }
}

/// Brings the overlay of the first monitor to `ReadyToDraw`.
fn make_interactive(state: &mut State) {
    state.compositor_ready(1);
    let todo = state.shm_ready(2);
    assert_eq!(todo, vec![0]);
    state.promote_to_in_process(0, 10, 11);
    state.layer_shell_ready(3);
    assert_eq!(state.output_ready(), Some(0));
    state.attach_output(0, 20, 21);
    assert_eq!(state.configure(0, 21), Some(0));
    state.attach_buffer(0, 30);
    assert_eq!(stage(&state.buffer_surfaces[0]), 3);
}

#[test]
fn region_is_relative_to_owning_monitor() {
    let monitors = vec![monitor(0, 0, 0, 1920, 1080, 1), monitor(1, 1920, 100, 1280, 1024, 2)];
    let windows = vec![window("a", 2000, 300, 50, 60, Some(1), 2), window("b", -5, 7, 10, 10, Some(0), 1)];
    let regions = derive_regions(&windows, &monitors);
    assert_eq!(regions.len(), 2);
    assert_eq!((regions[0].x, regions[0].y), (80, 200));
    assert_eq!(regions[0].monitor, Some(1));
    assert_eq!(regions[0].window, 0);
    assert_eq!((regions[1].x, regions[1].y), (-5, 7));
    assert_eq!((regions[1].width, regions[1].height), (10, 10));
}

#[test]
fn region_without_known_monitor_stays_absolute() {
    let monitors = vec![monitor(0, 100, 100, 800, 600, 1)];
    let windows = vec![window("a", 150, 160, 50, 60, None, 1), window("b", 150, 160, 50, 60, Some(9), 1)];
    let regions = derive_regions(&windows, &monitors);
    assert_eq!(regions.len(), 2);
    for r in &regions {
        assert_eq!((r.x, r.y), (150, 160));
        assert_eq!(r.monitor, None);
    }
}

#[test]
fn unmapped_and_inactive_windows_are_left_out() {
    let monitors = vec![monitor(0, 0, 0, 800, 600, 1)];
    let mut hidden = window("hidden", 1, 1, 5, 5, Some(0), 1);
    hidden.mapped = false;
    let windows = vec![hidden, window("elsewhere", 1, 1, 5, 5, Some(0), 4), window("shown", 1, 1, 5, 5, Some(0), 1)];
    let regions = derive_regions(&windows, &monitors);
    assert_eq!(regions.len(), 1);
    assert_eq!(regions[0].window, 2);
}

#[test]
fn containment_excludes_edges() {
    let r = region(0, 0, 10, 10);
    assert!(!is_inside_region(0, 5, &r));
    assert!(is_inside_region(5, 5, &r));
    assert!(!is_inside_region(10, 5, &r));
    assert!(!is_inside_region(5, 0, &r));
    assert!(!is_inside_region(5, 10, &r));
    assert!(is_inside_region(9, 9, &r));
}

#[test]
fn stages_move_forward_one_at_a_time() {
    let monitors = vec![monitor(0, 0, 0, 4, 4, 1)];
    let (mut state, _) = create_state_and_region_bounds(&Vec::new(), &monitors);
    let mut seen = vec![stage(&state.buffer_surfaces[0])];
    // Outputs and the layer shell arrive before the allocator here.
    state.layer_shell_ready(3);
    seen.push(stage(&state.buffer_surfaces[0]));
    assert_eq!(state.output_ready(), None);
    seen.push(stage(&state.buffer_surfaces[0]));
    state.compositor_ready(1);
    let todo = state.shm_ready(2);
    for i in todo {
        state.promote_to_in_process(i, 10, 11);
    }
    seen.push(stage(&state.buffer_surfaces[0]));
    assert_eq!(state.configure(0, 21), None);
    seen.push(stage(&state.buffer_surfaces[0]));
    assert_eq!(seen, vec![0, 0, 0, 1, 1]);
    // The output was counted although it could not be bound.
    assert_eq!(state.output_index, 1);
}

#[test]
fn allocator_before_compositor_binds_nothing() {
    let monitors = vec![monitor(0, 0, 0, 4, 4, 1)];
    let (mut state, _) = create_state_and_region_bounds(&Vec::new(), &monitors);
    assert!(state.shm_ready(2).is_empty());
    state.compositor_ready(1);
    assert_eq!(stage(&state.buffer_surfaces[0]), 0);
}

#[test]
fn configure_keeps_the_handles() {
    let monitors = vec![monitor(0, 0, 0, 4, 4, 1)];
    let (mut state, _) = create_state_and_region_bounds(&Vec::new(), &monitors);
    make_interactive(&mut state);
    match &state.buffer_surfaces[0] {
        BufferSurface::ReadyToDraw(r) => {
            assert_eq!((r.base_surface, r.wayland_output, r.wlr_surface, r.buffer), (11, 20, 21, 30));
        }
        _ => panic!("overlay should be ready to draw"),
    }
    // The pointer still finds the overlay by its base surface.
    state.pointer_enter(11);
    assert_eq!(state.pointer_surface, Some((0, 11)));
}

#[test]
fn full_lifecycle_reaches_ready_to_draw() {
    let monitors = vec![monitor(0, 0, 0, 4, 4, 1)];
    let (mut state, _) = create_state_and_region_bounds(&Vec::new(), &monitors);
    make_interactive(&mut state);
    // A second configure keeps the stage.
    assert_eq!(state.configure(0, 21), Some(0));
    assert_eq!(stage(&state.buffer_surfaces[0]), 3);
}

#[test]
fn outputs_pair_with_monitors_in_enumeration_order() {
    let monitors = vec![monitor(7, 0, 0, 4, 4, 1), monitor(3, 4, 0, 4, 4, 2)];
    let (mut state, _) = create_state_and_region_bounds(&Vec::new(), &monitors);
    state.compositor_ready(1);
    for i in state.shm_ready(2) {
        state.promote_to_in_process(i, 10 + i as u32, 20 + i as u32);
    }
    state.layer_shell_ready(3);
    let first = state.output_ready();
    state.cursor_shape_ready(4);
    state.pointer_motion(1, 1);
    let second = state.output_ready();
    assert_eq!(first, Some(0));
    assert_eq!(second, Some(1));
    state.attach_output(0, 100, 101);
    state.attach_output(1, 200, 201);
    match (&state.buffer_surfaces[0], &state.buffer_surfaces[1]) {
        (BufferSurface::HasOutput(a), BufferSurface::HasOutput(b)) => {
            assert_eq!((a.monitor_id, a.wayland_output), (7, 100));
            assert_eq!((b.monitor_id, b.wayland_output), (3, 200));
        }
        _ => panic!("both overlays should have an output"),
    }
}

#[test]
fn end_to_end_selection() {
    let monitors = vec![monitor(0, 0, 0, 1920, 1080, 1)];
    let windows = vec![window("0xabc", 100, 100, 200, 150, Some(0), 1)];
    let (mut state, regions) = create_state_and_region_bounds(&windows, &monitors);
    make_interactive(&mut state);
    assert!(!state.pointer_enter(11));
    assert_eq!(state.pointer_surface, Some((0, 11)));
    state.pointer_motion(150, 150);
    assert_eq!(state.hovered_client(&regions), Some(0));
    state.pointer_button();
    assert!(!state.running);
    let (x, y) = state.pointer_position.unwrap();
    let chosen = select_window(&windows, x, y);
    assert_eq!(chosen.map(|k| windows[k].address.as_str()), Some("0xabc"));
}

#[test]
fn end_to_end_no_selection() {
    let monitors = vec![monitor(0, 0, 0, 1920, 1080, 1)];
    let windows = vec![window("0xabc", 100, 100, 200, 150, Some(0), 1)];
    let (mut state, regions) = create_state_and_region_bounds(&windows, &monitors);
    make_interactive(&mut state);
    state.pointer_enter(11);
    state.pointer_motion(5, 5);
    assert_eq!(state.hovered_client(&regions), None);
    state.pointer_button();
    let (x, y) = state.pointer_position.unwrap();
    assert_eq!(select_window(&windows, x, y), None);
}

#[test]
fn hover_needs_the_pointer_monitor() {
    let monitors = vec![monitor(0, 0, 0, 800, 600, 1), monitor(1, 800, 0, 800, 600, 1)];
    let windows = vec![window("right", 900, 100, 200, 200, Some(1), 1)];
    let (mut state, regions) = create_state_and_region_bounds(&windows, &monitors);
    state.compositor_ready(1);
    for i in state.shm_ready(2) {
        state.promote_to_in_process(i, 10 + i as u32, 20 + i as u32);
    }
    state.pointer_motion(150, 150);
    assert_eq!(state.hovered_client(&regions), None);
    state.pointer_enter(20);
    assert_eq!(state.pointer_surface, Some((0, 20)));
    assert_eq!(state.hovered_client(&regions), None);
    state.pointer_enter(21);
    assert_eq!(state.pointer_surface, Some((1, 21)));
    assert_eq!(state.hovered_client(&regions), Some(0));
    state.pointer_leave();
    assert_eq!(state.hovered_client(&regions), None);
}

#[test]
fn enter_on_unknown_surface_tracks_nothing() {
    let monitors = vec![monitor(0, 0, 0, 800, 600, 1)];
    let (mut state, _) = create_state_and_region_bounds(&Vec::new(), &monitors);
    state.cursor_shape_ready(9);
    assert!(state.pointer_enter(55));
    assert_eq!(state.pointer_surface, None);
}

#[test]
fn final_selection_uses_absolute_open_rectangles() {
    let windows = vec![window("a", 0, 0, 10, 10, None, 1), window("b", 5, 5, 10, 10, None, 1)];
    assert_eq!(select_window(&windows, 10, 10), Some(1));
    assert_eq!(select_window(&windows, 7, 7), Some(0));
    assert_eq!(select_window(&windows, 15, 15), None);
}

#[test]
fn globals_are_recognised_by_name() {
    assert_eq!(global_kind("wl_shm"), Global::Shm);
    assert_eq!(global_kind("wl_compositor"), Global::Compositor);
    assert_eq!(global_kind("wl_output"), Global::Output);
    assert_eq!(global_kind("zwlr_layer_shell_v1"), Global::LayerShell);
    assert_eq!(global_kind("wl_seat"), Global::Seat);
    assert_eq!(global_kind("wp_cursor_shape_manager_v1"), Global::CursorShapeManager);
    assert_eq!(global_kind("wl_shm_pool"), Global::Other);
    assert_eq!(global_kind(""), Global::Other);
}
