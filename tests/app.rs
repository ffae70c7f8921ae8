use keynav_wayland::app::{App, ButtonState, PointerCommand};
use keynav_wayland::config::{
    default_config, parse_config, KeynavAction, MouseButton, RawConfig, TokenLookup, MOD_INVALID,
};
use keynav_wayland::geometry::{Fraction, Region, SCALE};
use keynav_wayland::render::{PixelFormat, RenderManager};

const RETURN: u32 = 0xff0d;
const H: u32 = 0x68;

fn surface() -> RenderManager {
    RenderManager::init(PixelFormat::Argb32, 100, 100, Some(400)).unwrap()
}

/// Binds each name to a key symbol as a layout with one modifier would.
fn bind(app: &mut App) {
    let lookups: Vec<Vec<TokenLookup>> = app
        .pending_config()
        .unwrap()
        .mappings
        .iter()
        .map(|(names, _)| {
            names
                .iter()
                .map(|n| match n.as_str() {
                    "Shift" => TokenLookup { mod_index: 0, keysym: 0 },
                    "Return" => TokenLookup { mod_index: MOD_INVALID, keysym: RETURN },
                    "h" => TokenLookup { mod_index: MOD_INVALID, keysym: H },
                    other => TokenLookup { mod_index: MOD_INVALID, keysym: 0x1000 + other.len() as u32 },
                })
                .collect()
        })
        .collect();
    app.bind_layout(&lookups).unwrap();
}

fn motion(x: u32, y: u32) -> PointerCommand {
    PointerCommand::MotionAbsolute { x, y, x_extent: 10000, y_extent: 10000 }
}

fn button(code: u32, state: ButtonState) -> PointerCommand {
    PointerCommand::Button { code, state }
}

#[test]
fn center_as_fixed_point() {
    let mut app = App::new(default_config(), surface());
    assert_eq!(app.get_center_as_fixed_point(), (5000, 5000, 10000));
    let mut r = surface();
    r.update_active_region(Region { x: 250_000_000, y: 250_000_000, width: 500_000_000, height: 500_000_000 });
    let app2 = App::new(default_config(), r);
    assert_eq!(app2.get_center_as_fixed_point(), (5000, 5000, 10000));
    app.cut_left(Fraction { ticks: 500_000_000 });
    assert_eq!(app.get_center_as_fixed_point(), (2500, 5000, 10000));
}

#[test]
fn center_rounds_to_nearest() {
    let mut r = surface();
    r.update_active_region(Region { x: 60_000, y: 12_345, width: 10_000_000, height: 10_000_000 });
    let app = App::new(default_config(), r);
    assert_eq!(app.get_center_as_fixed_point(), (51, 50, 10000));
}

#[test]
fn return_warps_clicks_and_ends() {
    let raw = parse_config("Return warp, click 1, end".to_string()).unwrap();
    let mut app = App::new(raw, surface());
    bind(&mut app);
    let cmds = app.handle_keyboard_event(0, RETURN, true);
    assert_eq!(
        cmds,
        vec![
            motion(5000, 5000),
            PointerCommand::Frame,
            motion(5000, 5000),
            PointerCommand::Frame,
            button(0x110, ButtonState::Pressed),
            PointerCommand::Frame,
            button(0x110, ButtonState::Released),
            PointerCommand::Frame,
        ]
    );
    assert!(app.should_end());
}

#[test]
fn cut_left_twice_quarters_the_width() {
    let raw = parse_config("h cut-left".to_string()).unwrap();
    let mut app = App::new(raw, surface());
    bind(&mut app);
    assert!(app.handle_keyboard_event(0, H, true).is_empty());
    assert!(app.handle_keyboard_event(0, H, false).is_empty());
    assert!(app.handle_keyboard_event(0, H, true).is_empty());
    assert_eq!(app.renderer().get_active_region().width, 250_000_000);
    assert!(!app.should_end());
}

#[test]
fn keys_before_binding_do_nothing() {
    let mut app = App::new(default_config(), surface());
    assert!(app.handle_keyboard_event(0, RETURN, true).is_empty());
    assert!(!app.should_end());
    bind(&mut app);
    assert!(app.pending_config().is_none());
    assert!(app.handle_keyboard_event(0, 0x7777, true).is_empty());
    assert!(app.handle_keyboard_event(0, RETURN, false).is_empty());
    assert!(!app.should_end());
    assert_eq!(app.bind_layout(&vec![]), Ok(()));
    assert!(!app.handle_keyboard_event(0, RETURN, true).is_empty());
    assert!(app.should_end());
}

#[test]
fn shift_h_moves_left() {
    let mut app = App::new(default_config(), surface());
    bind(&mut app);
    app.handle_keyboard_event(0, H, true);
    app.move_right(Fraction { ticks: 1_000_000_000 });
    assert_eq!(app.renderer().get_active_region().x, 500_000_000);
    app.handle_keyboard_event(1, H, true);
    assert_eq!(app.renderer().get_active_region().x, 0);
}

#[test]
fn drag_toggles_the_button() {
    let mut app = App::new(RawConfig { mappings: vec![] }, surface());
    let mut out = Vec::new();
    app.drag(&mut out, MouseButton::Right);
    app.drag(&mut out, MouseButton::Right);
    app.drag(&mut out, MouseButton::Left);
    assert_eq!(
        out,
        vec![
            motion(5000, 5000),
            PointerCommand::Frame,
            button(0x111, ButtonState::Pressed),
            PointerCommand::Frame,
            motion(5000, 5000),
            PointerCommand::Frame,
            button(0x111, ButtonState::Released),
            PointerCommand::Frame,
            motion(5000, 5000),
            PointerCommand::Frame,
            button(0x110, ButtonState::Pressed),
            PointerCommand::Frame,
        ]
    );
}

#[test]
fn double_click_and_warp() {
    let app = App::new(RawConfig { mappings: vec![] }, surface());
    let mut out = Vec::new();
    app.warp(&mut out);
    assert_eq!(out, vec![motion(5000, 5000), PointerCommand::Frame]);
    out.clear();
    app.double_click(&mut out, MouseButton::Middle);
    assert_eq!(out.len(), 12);
    assert_eq!(out[2], button(0x112, ButtonState::Pressed));
    assert_eq!(out[10], button(0x112, ButtonState::Released));
}

#[test]
fn cursor_zoom_centres_on_the_pointer() {
    let mut app = App::new(RawConfig { mappings: vec![] }, surface());
    app.set_pointer_pos(50, 20);
    app.cursor_zoom(10, 20);
    assert_eq!(
        app.renderer().get_active_region(),
        Region { x: 450_000_000, y: 100_000_000, width: 100_000_000, height: 200_000_000 }
    );
    app.set_pointer_pos(1, 1);
    app.cursor_zoom(10, 10);
    assert_eq!(app.renderer().get_active_region().x, 450_000_000);
    let mut out = Vec::new();
    app.execute(KeynavAction::Click(None), &mut out);
    assert_eq!(out[0], motion(5000, 2000));
}

#[test]
fn resize_through_the_controller() {
    let mut app = App::new(RawConfig { mappings: vec![] }, surface());
    assert_eq!(app.set_bounds(200, 150, Some(800)), Ok(()));
    assert_eq!(app.renderer().get_buf_size(), 120_000);
    assert_eq!(app.renderer().get_active_region().width, SCALE);
    app.end();
    assert!(app.should_end());
}
