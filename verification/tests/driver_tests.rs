use rui::commands::CommandInfo;
use rui::event::Key;
use rui::event::LogicalEvent;
use rui::event::MouseButton;
use rui::event::RawEvent;
use rui::event::RawKey;
use rui::event::RawMouseButton;
use rui::event_loop::Action;
use rui::event_loop::EventLoopDriver;
use rui::menu::CommandMap;
use rui::menu::build_menubar;

fn driver() -> EventLoopDriver {
    EventLoopDriver::new(800, 600, CommandMap::new())
}

#[test]
fn close_request_exits_and_terminates() {
    let mut d = driver();
    let actions = d.handle_raw_event(RawEvent::CloseRequested);
    assert_eq!(actions.len(), 1);
    assert!(matches!(actions[0], Action::Exit));
    assert!(!d.running);
}

#[test]
fn resize_clamps_to_one() {
    let mut d = driver();
    let actions = d.handle_raw_event(RawEvent::Resized { width: 0, height: 0 });
    assert_eq!(d.config.width, 1);
    assert_eq!(d.config.height, 1);
    assert_eq!(actions.len(), 2);
    assert!(matches!(actions[0], Action::Reconfigure(c) if c.width == 1 && c.height == 1));
    assert!(matches!(actions[1], Action::RequestRedraw));
}

#[test]
fn resize_keeps_positive_dimensions() {
    let mut d = driver();
    let _ = d.handle_raw_event(RawEvent::Resized { width: 1024, height: 768 });
    assert_eq!(d.config.width, 1024);
    assert_eq!(d.config.height, 768);
}

#[test]
fn resize_to_largest_size_kept() {
    let mut d = driver();
    let _ = d.handle_raw_event(RawEvent::Resized { width: u32::MAX, height: u32::MAX });
    assert_eq!(d.config.width, u32::MAX);
    assert_eq!(d.config.height, u32::MAX);
}

#[test]
fn cursor_at_origin_maps_to_top_of_surface() {
    let mut d = driver();
    // Device origin is the top-left corner; logical y is the full surface
    // height because the vertical axis flips.
    let _ = d.handle_raw_event(RawEvent::CursorMoved { x: 0, y: 0, scale_milli: 1000 });
    assert_eq!(d.cursor.x, 0);
    assert_eq!(d.cursor.y, 600_000);
}

#[test]
fn user_wake_drains_queue() {
    let mut d = driver();
    let actions = d.handle_raw_event(RawEvent::UserWake);
    assert_eq!(actions.len(), 1);
    assert!(matches!(actions[0], Action::DrainWorkQueue));
}

#[test]
fn main_events_cleared_updates_and_redraw_renders() {
    let mut d = driver();
    let actions = d.handle_raw_event(RawEvent::MainEventsCleared);
    assert!(matches!(actions[0], Action::Update));
    let actions = d.handle_raw_event(RawEvent::RedrawRequested);
    assert!(matches!(actions[0], Action::Render));
}

#[test]
fn cursor_move_translates_and_flips() {
    let mut d = driver();
    // 100 device pixels right, 50 down, scale factor 2, surface 600 high:
    // logical x is 50, logical y is (600 - 50) / 2 = 275, in thousandths.
    let e = RawEvent::CursorMoved { x: 100_000, y: 50_000, scale_milli: 2000 };
    let actions = d.handle_raw_event(e);
    assert_eq!(d.cursor.x, 50_000);
    assert_eq!(d.cursor.y, 275_000);
    assert!(matches!(
        actions[0],
        Action::Dispatch(LogicalEvent::PointerMove { id: 0, position })
            if position.x == 50_000 && position.y == 275_000
    ));
}

#[test]
fn cursor_move_is_idempotent() {
    let mut d = driver();
    let e = RawEvent::CursorMoved { x: 123_456, y: 78_900, scale_milli: 1500 };
    let _ = d.handle_raw_event(e);
    let first = d.cursor;
    let _ = d.handle_raw_event(e);
    assert_eq!(d.cursor, first);
}

#[test]
fn press_then_release_same_position_and_id() {
    let mut d = driver();
    let _ = d.handle_raw_event(RawEvent::CursorMoved { x: 10_000, y: 20_000, scale_milli: 1000 });
    let at = d.cursor;
    let down = d.handle_raw_event(RawEvent::MouseInput {
        pressed: true,
        button: RawMouseButton::Left,
    });
    assert!(matches!(d.mouse_button, Some(MouseButton::Left)));
    let up = d.handle_raw_event(RawEvent::MouseInput {
        pressed: false,
        button: RawMouseButton::Left,
    });
    assert!(d.mouse_button.is_none());
    assert!(matches!(
        down[0],
        Action::Dispatch(LogicalEvent::PointerDown { id: 0, position }) if position == at
    ));
    assert!(matches!(
        up[0],
        Action::Dispatch(LogicalEvent::PointerUp { id: 0, position }) if position == at
    ));
}

#[test]
fn middle_button_tracks_center() {
    let mut d = driver();
    let _ = d.handle_raw_event(RawEvent::MouseInput {
        pressed: true,
        button: RawMouseButton::Middle,
    });
    assert!(matches!(d.mouse_button, Some(MouseButton::Center)));
}

#[test]
fn other_button_silently_ignored() {
    let mut d = driver();
    let actions = d.handle_raw_event(RawEvent::MouseInput {
        pressed: true,
        button: RawMouseButton::Other,
    });
    assert!(d.mouse_button.is_none());
    assert!(actions.is_empty());
    let actions = d.handle_raw_event(RawEvent::MouseInput {
        pressed: false,
        button: RawMouseButton::Other,
    });
    assert!(d.mouse_button.is_none());
    assert!(actions.is_empty());
}

#[test]
fn key_press_maps_to_logical_key() {
    let mut d = driver();
    let actions = d.handle_raw_event(RawEvent::KeyboardInput {
        pressed: true,
        key: RawKey::Enter,
    });
    assert!(matches!(actions[0], Action::Dispatch(LogicalEvent::KeyPress(Key::Enter))));
    let actions = d.handle_raw_event(RawEvent::KeyboardInput {
        pressed: true,
        key: RawKey::Character('q'),
    });
    assert!(matches!(
        actions[0],
        Action::Dispatch(LogicalEvent::KeyPress(Key::Character('q')))
    ));
}

#[test]
fn key_release_and_unidentified_ignored() {
    let mut d = driver();
    let actions = d.handle_raw_event(RawEvent::KeyboardInput {
        pressed: false,
        key: RawKey::Enter,
    });
    assert!(actions.is_empty());
    let actions = d.handle_raw_event(RawEvent::KeyboardInput {
        pressed: true,
        key: RawKey::Unidentified,
    });
    assert!(actions.is_empty());
}

#[test]
fn modifiers_overwrite_state_silently() {
    let mut d = driver();
    let actions = d.handle_raw_event(RawEvent::ModifiersChanged {
        shift: true,
        control: false,
        alt: true,
        command: false,
    });
    assert!(actions.is_empty());
    assert!(d.key_mods.shift);
    assert!(!d.key_mods.control);
    assert!(d.key_mods.alt);
    assert!(!d.key_mods.command);
}

#[test]
fn menu_activation_resolves_command_path() {
    let commands = vec![CommandInfo { path: "File:New".to_string(), key: None }];
    let mut map = CommandMap::new();
    let menu = build_menubar(&commands, &mut map);
    let id = menu
        .ops
        .iter()
        .find_map(|op| match op {
            rui::menu::MenuOp::Item { id, .. } => Some(*id),
            _ => None,
        })
        .unwrap();
    let mut d = EventLoopDriver::new(800, 600, map);
    let actions = d.handle_raw_event(RawEvent::MenuEvent { id });
    assert_eq!(actions.len(), 1);
    assert!(matches!(
        &actions[0],
        Action::Dispatch(LogicalEvent::Command(path)) if path == "File:New"
    ));
}

#[test]
fn menu_activation_unknown_identity_ignored() {
    let commands = vec![CommandInfo { path: "File:New".to_string(), key: None }];
    let mut map = CommandMap::new();
    let _menu = build_menubar(&commands, &mut map);
    let mut d = EventLoopDriver::new(800, 600, map);
    let actions = d.handle_raw_event(RawEvent::MenuEvent { id: 424242 });
    assert!(actions.is_empty());
}
