use epifaneia::session::SessionAction;
use epifaneia::session::SessionEvent;
use epifaneia::session::SessionState;

#[test]
fn drag_delta_is_cursor_minus_press_position() {
    let mut s = SessionState::new();
    s.step(&SessionEvent::CursorMoved { x: 10, y: 20 });
    s.step(&SessionEvent::MouseInput { left: true, pressed: true });
    s.step(&SessionEvent::CursorMoved { x: 13, y: 25 });
    assert_eq!(s.interaction.mouse_delta(), (3, 5));
}

#[test]
fn delta_is_zero_while_button_is_up() {
    let mut s = SessionState::new();
    s.step(&SessionEvent::CursorMoved { x: 10, y: 20 });
    s.step(&SessionEvent::MouseInput { left: true, pressed: true });
    s.step(&SessionEvent::CursorMoved { x: 13, y: 25 });
    s.step(&SessionEvent::MouseInput { left: true, pressed: false });
    assert_eq!(s.interaction.mouse_delta(), (0, 0));
    s.step(&SessionEvent::CursorMoved { x: -40, y: 7 });
    assert_eq!(s.interaction.mouse_delta(), (0, 0));
}

#[test]
fn non_left_buttons_are_ignored() {
    let mut s = SessionState::new();
    s.step(&SessionEvent::CursorMoved { x: 10, y: 20 });
    let act = s.step(&SessionEvent::MouseInput { left: false, pressed: true });
    assert!(matches!(act, SessionAction::Idle));
    assert!(!s.interaction.pressed);
    assert_eq!(s.interaction.mouse_delta(), (0, 0));
}

#[test]
fn resize_only_reconfigures_the_surface() {
    let mut s = SessionState::new();
    let act = s.step(&SessionEvent::Resized { width: 800, height: 600 });
    match act {
        SessionAction::Reconfigure { width, height } => {
            assert_eq!((width, height), (800, 600));
        },
        _ => panic!("resize must reconfigure"),
    }
    assert_eq!(s.refinement.resolution, 32);
    assert!(!s.interaction.pressed);
}

#[test]
fn close_request_exits_and_drained_queue_requests_redraw() {
    let mut s = SessionState::new();
    assert!(matches!(s.step(&SessionEvent::CloseRequested), SessionAction::Exit));
    assert!(matches!(s.step(&SessionEvent::EventsCleared), SessionAction::RequestRedraw));
    assert!(matches!(s.step(&SessionEvent::Other), SessionAction::Idle));
}

#[test]
fn redraw_renders_at_current_resolution_with_current_drag() {
    let mut s = SessionState::new();
    s.step(&SessionEvent::CursorMoved { x: 10, y: 20 });
    s.step(&SessionEvent::MouseInput { left: true, pressed: true });
    s.step(&SessionEvent::CursorMoved { x: 13, y: 25 });
    let act = s.step(&SessionEvent::RedrawRequested { frame_available: true });
    match act {
        SessionAction::Render { sdf_resolution, mouse_dx, mouse_dy } => {
            assert_eq!(sdf_resolution, Some(32));
            assert_eq!((mouse_dx, mouse_dy), (3, 5));
        },
        _ => panic!("an available frame must be drawn"),
    }
    assert_eq!(s.refinement.resolution, 64);
}

#[test]
fn redraw_after_convergence_reuses_the_cached_texture() {
    let mut s = SessionState::new();
    for _ in 0..6 {
        s.step(&SessionEvent::RedrawRequested { frame_available: true });
    }
    let act = s.step(&SessionEvent::RedrawRequested { frame_available: true });
    match act {
        SessionAction::Render { sdf_resolution, .. } => assert_eq!(sdf_resolution, None),
        _ => panic!("the frame must still be composited"),
    }
}

#[test]
fn unavailable_frame_leaves_all_state_unchanged() {
    let mut s = SessionState::new();
    s.step(&SessionEvent::CursorMoved { x: 10, y: 20 });
    s.step(&SessionEvent::MouseInput { left: true, pressed: true });
    s.step(&SessionEvent::RedrawRequested { frame_available: true });
    let act = s.step(&SessionEvent::RedrawRequested { frame_available: false });
    assert!(matches!(act, SessionAction::Idle));
    assert_eq!(s.refinement.resolution, 64);
    assert!(s.interaction.pressed);
    assert_eq!((s.interaction.cursor_x, s.interaction.cursor_y), (10, 20));
    assert_eq!((s.interaction.press_x, s.interaction.press_y), (10, 20));
}
