//! The controller: it owns the configuration, the surface's bookkeeping, the
//! pointer's last position and the state of each dragged button, and turns
//! key presses into changes of the active region and pointer commands.
use vstd::prelude::*;

use crate::config::{
    lookups_match, resolve, Config, KeynavAction, MouseButton, RawConfig, ResolveError,
    TokenLookup,
};
use crate::geometry::{
    candidate, cut_down, cut_down_rect, cut_left, cut_left_rect, cut_right, cut_right_rect, cut_up,
    cut_up_rect, move_down, move_down_rect, move_left, move_left_rect, move_right, move_right_rect,
    move_up, move_up_rect, Fraction, Rect, Region, SCALE,
};
use crate::render::{surface_ok, updated, FramebufferError, RenderManager, Surface};

verus! {

/// The denominator of the fixed-point coordinates sent to the pointer.
pub const EXTENT: u32 = 10000;

/// The fraction a cut uses when none is given, in ticks: one half.
pub const DEFAULT_CUT: u64 = 500_000_000;

/// The fraction a move uses when none is given, in ticks: one.
pub const DEFAULT_MOVE: u64 = 1_000_000_000;

/// Whether a button is held down.
#[derive(Clone, Copy, Debug, PartialEq, Eq, Structural)]
pub enum ButtonState {
    Pressed,
    Released,
}

/// The last state that a drag left each button in.
#[derive(Clone, Copy, Debug, PartialEq, Eq, Structural)]
pub struct DragState {
    pub left: ButtonState,
    pub right: ButtonState,
    pub middle: ButtonState,
}

impl DragState {
    pub open spec fn state_of(self, b: MouseButton) -> ButtonState {
        match b {
            MouseButton::Left => self.left,
            MouseButton::Right => self.right,
            MouseButton::Middle => self.middle,
        }
    }

    pub open spec fn with(self, b: MouseButton, s: ButtonState) -> DragState {
        match b {
            MouseButton::Left => DragState { left: s, ..self },
            MouseButton::Right => DragState { right: s, ..self },
            MouseButton::Middle => DragState { middle: s, ..self },
        }
    }

    /// Every button released.
    pub fn new() -> (r: DragState)
        ensures
            r.left == ButtonState::Released,
            r.right == ButtonState::Released,
            r.middle == ButtonState::Released,
    {
        DragState {
            left: ButtonState::Released,
            right: ButtonState::Released,
            middle: ButtonState::Released,
        }
    }

    pub fn get(&self, b: MouseButton) -> (r: ButtonState)
        ensures
            r == self.state_of(b),
    {
        match b {
            MouseButton::Left => self.left,
            MouseButton::Right => self.right,
            MouseButton::Middle => self.middle,
        }
    }

    pub fn set(&mut self, b: MouseButton, s: ButtonState)
        ensures
            *final(self) == old(self).with(b, s),
    {
        match b {
            MouseButton::Left => self.left = s,
            MouseButton::Right => self.right = s,
            MouseButton::Middle => self.middle = s,
        }
    }
}

/// One command for the virtual pointer.
#[derive(Clone, Copy, Debug, PartialEq, Eq, Structural)]
pub enum PointerCommand {
    /// Move to `(x / x_extent, y / y_extent)` of the output.
    MotionAbsolute { x: u32, y: u32, x_extent: u32, y_extent: u32 },
    /// Press or release the button with the given input-event code.
    Button { code: u32, state: ButtonState },
    /// Ends a group of commands that the receiver applies together.
    Frame,
}

/// The configuration before and after it is bound to a key layout.
#[derive(Clone, Debug)]
pub enum ConfigState {
    Unresolved(RawConfig),
    Resolved(Config),
}

/// The state of the controller, apart from its configuration.
pub ghost struct Controller {
    pub surface: Surface,
    pub pointer: (i32, i32),
    pub drag: DragState,
    pub should_end: bool,
}

/// The fixed-point position of the middle of `[a, a + len)` ticks: the
/// position times `EXTENT`, rounded to the nearest integer (halves up), and
/// held to the range of `u32`.
pub open spec fn fixed_coord(a: int, len: int) -> u32 {
    let v = ((2 * a + len) * (EXTENT as int) + SCALE) / (2 * SCALE as int);
    if v > u32::MAX {
        u32::MAX
    } else {
        v as u32
    }
}

/// The centre of a region as fixed-point coordinates and their denominator.
pub open spec fn fixed_center(r: Region) -> (u32, u32, u32) {
    (fixed_coord(r.x as int, r.width as int), fixed_coord(r.y as int, r.height as int), EXTENT)
}

pub open spec fn motion_to(r: Region) -> PointerCommand {
    PointerCommand::MotionAbsolute {
        x: fixed_center(r).0,
        y: fixed_center(r).1,
        x_extent: EXTENT,
        y_extent: EXTENT,
    }
}

pub open spec fn warp_commands(r: Region) -> Seq<PointerCommand> {
    seq![motion_to(r), PointerCommand::Frame]
}

pub open spec fn click_commands(r: Region, b: MouseButton) -> Seq<PointerCommand> {
    seq![
        motion_to(r),
        PointerCommand::Frame,
        PointerCommand::Button { code: b.code(), state: ButtonState::Pressed },
        PointerCommand::Frame,
        PointerCommand::Button { code: b.code(), state: ButtonState::Released },
        PointerCommand::Frame,
    ]
}

/// The state that a drag puts a button in: pressed, unless it was pressed.
pub open spec fn toggled(s: ButtonState) -> ButtonState {
    match s {
        ButtonState::Pressed => ButtonState::Released,
        ButtonState::Released => ButtonState::Pressed,
    }
}

pub open spec fn drag_commands(r: Region, b: MouseButton, s: ButtonState) -> Seq<PointerCommand> {
    seq![
        motion_to(r),
        PointerCommand::Frame,
        PointerCommand::Button { code: b.code(), state: s },
        PointerCommand::Frame,
    ]
}

/// The region that a zoom around the pointer offers: `width` by `height`
/// device pixels centred on the pointer; none where the surface is empty or
/// the pointer lies before its origin.
pub open spec fn zoom_rect(s: Surface, pointer: (i32, i32), width: u32, height: u32) -> Option<Rect> {
    if s.width == 0 || s.height == 0 || pointer.0 < 0 || pointer.1 < 0 {
        None
    } else {
        let zw = width * SCALE / s.width;
        let zh = height * SCALE / s.height;
        Some(
            Rect {
                x: pointer.0 * SCALE / s.width - zw / 2,
                y: pointer.1 * SCALE / s.height - zh / 2,
                width: zw,
                height: zh,
            },
        )
    }
}

/// The surface after offering a candidate region (none: nothing offered).
pub open spec fn offer(s: Surface, c: Option<Region>) -> Surface {
    match c {
        Some(r) => updated(s, r),
        None => s,
    }
}

pub open spec fn with_surface(st: Controller, s: Surface) -> Controller {
    Controller { surface: s, ..st }
}

pub open spec fn fraction_or(f: Option<Fraction>, d: u64) -> int {
    match f {
        Some(f) => f.ticks as int,
        None => d as int,
    }
}

/// What one action does: the new state and the pointer commands it sends.
pub open spec fn apply_action(st: Controller, a: KeynavAction) -> (Controller, Seq<PointerCommand>) {
    let r = st.surface.region;
    match a {
        KeynavAction::CutLeft(f) => (
            with_surface(st, offer(st.surface, candidate(cut_left_rect(r@, fraction_or(f, DEFAULT_CUT))))),
            Seq::empty(),
        ),
        KeynavAction::CutRight(f) => (
            with_surface(st, offer(st.surface, candidate(cut_right_rect(r@, fraction_or(f, DEFAULT_CUT))))),
            Seq::empty(),
        ),
        KeynavAction::CutUp(f) => (
            with_surface(st, offer(st.surface, candidate(cut_up_rect(r@, fraction_or(f, DEFAULT_CUT))))),
            Seq::empty(),
        ),
        KeynavAction::CutDown(f) => (
            with_surface(st, offer(st.surface, candidate(cut_down_rect(r@, fraction_or(f, DEFAULT_CUT))))),
            Seq::empty(),
        ),
        KeynavAction::MoveLeft(f) => (
            with_surface(st, offer(st.surface, candidate(move_left_rect(r@, fraction_or(f, DEFAULT_MOVE))))),
            Seq::empty(),
        ),
        KeynavAction::MoveRight(f) => (
            with_surface(st, offer(st.surface, candidate(move_right_rect(r@, fraction_or(f, DEFAULT_MOVE))))),
            Seq::empty(),
        ),
        KeynavAction::MoveUp(f) => (
            with_surface(st, offer(st.surface, candidate(move_up_rect(r@, fraction_or(f, DEFAULT_MOVE))))),
            Seq::empty(),
        ),
        KeynavAction::MoveDown(f) => (
            with_surface(st, offer(st.surface, candidate(move_down_rect(r@, fraction_or(f, DEFAULT_MOVE))))),
            Seq::empty(),
        ),
        KeynavAction::CursorZoom { width, height } => (
            with_surface(
                st,
                match zoom_rect(st.surface, st.pointer, width, height) {
                    Some(z) => offer(st.surface, candidate(z)),
                    None => st.surface,
                },
            ),
            Seq::empty(),
        ),
        KeynavAction::Warp => (st, warp_commands(r)),
        KeynavAction::Click(b) => (
            st,
            click_commands(r, match b { Some(b) => b, None => MouseButton::Left }),
        ),
        KeynavAction::DoubleClick(b) => {
            let b = match b { Some(b) => b, None => MouseButton::Left };
            (st, click_commands(r, b) + click_commands(r, b))
        },
        KeynavAction::DragButton(b) => {
            let s = toggled(st.drag.state_of(b));
            (Controller { drag: st.drag.with(b, s), ..st }, drag_commands(r, b, s))
        },
        KeynavAction::End => (Controller { should_end: true, ..st }, Seq::empty()),
    }
}

/// The first `n` actions run in order: the final state and every command
/// sent, in order.
pub open spec fn apply_actions(st: Controller, acts: Seq<KeynavAction>, n: int) -> (
    Controller,
    Seq<PointerCommand>,
)
    decreases n,
{
    if n <= 0 {
        (st, Seq::empty())
    } else {
        let (mid, cmds) = apply_actions(st, acts, n - 1);
        let (last, more) = apply_action(mid, acts[n - 1]);
        (last, cmds + more)
    }
}

fn fraction_or_default(f: Option<Fraction>, d: u64) -> (r: Fraction)
    ensures
        r.ticks == fraction_or(f, d),
{
    match f {
        Some(f) => f,
        None => Fraction { ticks: d },
    }
}

fn button_or_left(b: Option<MouseButton>) -> (r: MouseButton)
    ensures
        r == (match b {
            Some(b) => b,
            None => MouseButton::Left,
        }),
{
    match b {
        Some(b) => b,
        None => MouseButton::Left,
    }
}

fn center_coord(a: i64, len: i64) -> (r: u32)
    requires
        0 <= a < SCALE,
        0 < len,
    ensures
        r == fixed_coord(a as int, len as int),
{
    let sum: u128 = 2 * (a as u128) + len as u128;
    let v: u128 = (sum * 10000 + 1_000_000_000) / 2_000_000_000;
    if v > u32::MAX as u128 {
        u32::MAX
    } else {
        v as u32
    }
}

/// The controller of the overlay.
pub struct App {
    config: ConfigState,
    pointer_pos: (i32, i32),
    button_state: DragState,
    should_end: bool,
    renderer: RenderManager,
}

impl View for App {
    type V = Controller;

    closed spec fn view(&self) -> Controller {
        Controller {
            surface: self.renderer@,
            pointer: self.pointer_pos,
            drag: self.button_state,
            should_end: self.should_end,
        }
    }
}

/// The state with every button released, the pointer at the origin, and no
/// end requested.
pub open spec fn initial(s: Surface) -> Controller {
    Controller {
        surface: s,
        pointer: (0, 0),
        drag: DragState {
            left: ButtonState::Released,
            right: ButtonState::Released,
            middle: ButtonState::Released,
        },
        should_end: false,
    }
}

impl App {
    pub open spec fn wf(&self) -> bool {
        surface_ok(self@.surface)
    }

    /// Whether the configuration has been bound to a layout.
    pub closed spec fn is_resolved(&self) -> bool {
        self.config is Resolved
    }

    /// The resolved table (empty before binding).
    pub closed spec fn table(&self) -> Map<(u32, u32), Seq<KeynavAction>> {
        match self.config {
            ConfigState::Resolved(c) => c@,
            ConfigState::Unresolved(_) => Map::empty(),
        }
    }

    /// The configuration that awaits a layout (empty after binding).
    pub closed spec fn pending(&self) -> Seq<(Seq<Seq<char>>, Seq<KeynavAction>)> {
        match self.config {
            ConfigState::Unresolved(r) => r@,
            ConfigState::Resolved(_) => Seq::empty(),
        }
    }

    pub open spec fn same_config(&self, other: &App) -> bool {
        &&& self.is_resolved() == other.is_resolved()
        &&& self.table() == other.table()
        &&& self.pending() == other.pending()
    }

    /// A controller for a configuration that awaits its layout, over the given
    /// surface.
    pub fn new(config: RawConfig, renderer: RenderManager) -> (r: App)
        requires
            renderer.wf(),
        ensures
            r.wf(),
            !r.is_resolved(),
            r.pending() == config@,
            r@ == initial(renderer@),
    {
        App {
            config: ConfigState::Unresolved(config),
            pointer_pos: (0, 0),
            button_state: DragState::new(),
            should_end: false,
            renderer,
        }
    }

    /// Asks the run loop to stop.
    pub fn end(&mut self)
        ensures
            final(self)@ == (Controller { should_end: true, ..old(self)@ }),
            final(self).same_config(old(self)),
    {
        self.should_end = true;
    }

    pub fn should_end(&self) -> (r: bool)
        ensures
            r == self@.should_end,
    {
        self.should_end
    }

    pub fn renderer(&self) -> (r: &RenderManager)
        ensures
            r@ == self@.surface,
    {
        &self.renderer
    }

    /// Records where the pointer entered the surface, in surface pixels.
    pub fn set_pointer_pos(&mut self, x: i32, y: i32)
        ensures
            final(self)@ == (Controller { pointer: (x, y), ..old(self)@ }),
            final(self).same_config(old(self)),
    {
        self.pointer_pos = (x, y);
    }

    /// Resizes the surface (see `RenderManager::set_bounds`).
    pub fn set_bounds(&mut self, width: u32, height: u32, stride: Option<i32>) -> (r: Result<
        (),
        FramebufferError,
    >)
        requires
            old(self).wf(),
        ensures
            final(self).wf(),
            final(self).same_config(old(self)),
            r is Ok <==> (stride is Some && stride->Some_0 >= 0 && stride->Some_0 * height
                <= u32::MAX),
            r is Ok ==> final(self)@ == (Controller {
                surface: Surface {
                    width: width as int,
                    height: height as int,
                    stride: stride->Some_0 as int,
                    ..old(self)@.surface
                },
                ..old(self)@
            }),
            r is Err ==> final(self)@ == old(self)@,
            r is Err ==> r == Err::<(), _>(
                if stride is None || stride->Some_0 < 0 {
                    FramebufferError::NoStride
                } else {
                    FramebufferError::TooLarge
                },
            ),
    {
        self.renderer.set_bounds(width, height, stride)
    }

    /// The centre of the active region as fixed-point coordinates `(x, y)`
    /// over the denominator `EXTENT`, which is the third value.
    pub fn get_center_as_fixed_point(&self) -> (r: (u32, u32, u32))
        requires
            self.wf(),
        ensures
            r == fixed_center(self@.surface.region),
    {
        let rect = self.renderer.get_active_region();
        (center_coord(rect.x, rect.width), center_coord(rect.y, rect.height), EXTENT)
    }

    /// Offers a candidate region to the surface (none: nothing offered).
    fn offer_region(&mut self, c: Option<Region>)
        requires
            old(self).wf(),
        ensures
            final(self).wf(),
            final(self).same_config(old(self)),
            final(self)@ == with_surface(old(self)@, offer(old(self)@.surface, c)),
    {
        match c {
            Some(r) => self.renderer.update_active_region(r),
            None => {},
        }
    }

    /// Keeps the left edge and scales the width by `x`.
    pub fn cut_left(&mut self, x: Fraction)
        requires
            old(self).wf(),
        ensures
            final(self).wf(),
            final(self).same_config(old(self)),
            final(self)@ == apply_action(old(self)@, KeynavAction::CutLeft(Some(x))).0,
    {
        let rect = self.renderer.get_active_region();
        self.offer_region(cut_left(rect, x));
    }

    /// Keeps the bottom edge and scales the height by `x`.
    pub fn cut_down(&mut self, x: Fraction)
        requires
            old(self).wf(),
        ensures
            final(self).wf(),
            final(self).same_config(old(self)),
            final(self)@ == apply_action(old(self)@, KeynavAction::CutDown(Some(x))).0,
    {
        let rect = self.renderer.get_active_region();
        self.offer_region(cut_down(rect, x));
    }

    /// Keeps the top edge and scales the height by `x`.
    pub fn cut_up(&mut self, x: Fraction)
        requires
            old(self).wf(),
        ensures
            final(self).wf(),
            final(self).same_config(old(self)),
            final(self)@ == apply_action(old(self)@, KeynavAction::CutUp(Some(x))).0,
    {
        let rect = self.renderer.get_active_region();
        self.offer_region(cut_up(rect, x));
    }

    /// Keeps the right edge and scales the width by `x`.
    pub fn cut_right(&mut self, x: Fraction)
        requires
            old(self).wf(),
        ensures
            final(self).wf(),
            final(self).same_config(old(self)),
            final(self)@ == apply_action(old(self)@, KeynavAction::CutRight(Some(x))).0,
    {
        let rect = self.renderer.get_active_region();
        self.offer_region(cut_right(rect, x));
    }

    /// Shifts the region right by `x` times its width.
    pub fn move_right(&mut self, x: Fraction)
        requires
            old(self).wf(),
        ensures
            final(self).wf(),
            final(self).same_config(old(self)),
            final(self)@ == apply_action(old(self)@, KeynavAction::MoveRight(Some(x))).0,
    {
        let rect = self.renderer.get_active_region();
        self.offer_region(move_right(rect, x));
    }

    /// Shifts the region left by `x` times its width.
    pub fn move_left(&mut self, x: Fraction)
        requires
            old(self).wf(),
        ensures
            final(self).wf(),
            final(self).same_config(old(self)),
            final(self)@ == apply_action(old(self)@, KeynavAction::MoveLeft(Some(x))).0,
    {
        let rect = self.renderer.get_active_region();
        self.offer_region(move_left(rect, x));
    }

    /// Shifts the region up by `x` times its height.
    pub fn move_up(&mut self, x: Fraction)
        requires
            old(self).wf(),
        ensures
            final(self).wf(),
            final(self).same_config(old(self)),
            final(self)@ == apply_action(old(self)@, KeynavAction::MoveUp(Some(x))).0,
    {
        let rect = self.renderer.get_active_region();
        self.offer_region(move_up(rect, x));
    }

    /// Shifts the region down by `x` times its height.
    pub fn move_down(&mut self, x: Fraction)
        requires
            old(self).wf(),
        ensures
            final(self).wf(),
            final(self).same_config(old(self)),
            final(self)@ == apply_action(old(self)@, KeynavAction::MoveDown(Some(x))).0,
    {
        let rect = self.renderer.get_active_region();
        self.offer_region(move_down(rect, x));
    }

    /// Offers a region of `width` by `height` device pixels centred on the
    /// pointer's last position.
    pub fn cursor_zoom(&mut self, width: u32, height: u32)
        requires
            old(self).wf(),
        ensures
            final(self).wf(),
            final(self).same_config(old(self)),
            final(self)@ == apply_action(
                old(self)@,
                KeynavAction::CursorZoom { width, height },
            ).0,
    {
        let w = self.renderer.get_width();
        let h = self.renderer.get_height();
        let (px, py) = self.pointer_pos;
        if w == 0 || h == 0 || px < 0 || py < 0 {
            return;
        }
        let zw: u64 = (width as u64) * (SCALE as u64) / (w as u64);
        let zh: u64 = (height as u64) * (SCALE as u64) / (h as u64);
        let cx: u64 = (px as u64) * (SCALE as u64) / (w as u64);
        let cy: u64 = (py as u64) * (SCALE as u64) / (h as u64);
        let cand = Region {
            x: cx as i64 - (zw / 2) as i64,
            y: cy as i64 - (zh / 2) as i64,
            width: zw as i64,
            height: zh as i64,
        };
        self.offer_region(Some(cand));
    }

    fn push_motion(&self, out: &mut Vec<PointerCommand>)
        requires
            self.wf(),
        ensures
            final(out)@ == old(out)@.push(motion_to(self@.surface.region)),
    {
        let (x, y, extent) = self.get_center_as_fixed_point();
        out.push(PointerCommand::MotionAbsolute { x, y, x_extent: extent, y_extent: extent });
    }

    /// Moves the pointer to the centre of the active region.
    pub fn warp(&self, out: &mut Vec<PointerCommand>)
        requires
            self.wf(),
        ensures
            final(out)@ == old(out)@ + warp_commands(self@.surface.region),
    {
        self.push_motion(out);
        out.push(PointerCommand::Frame);
        assert(final(out)@ =~= old(out)@ + warp_commands(self@.surface.region));
    }

    /// Moves to the centre of the active region, then presses and releases
    /// the button, each in a frame of its own.
    pub fn click(&self, out: &mut Vec<PointerCommand>, btn: MouseButton)
        requires
            self.wf(),
        ensures
            final(out)@ == old(out)@ + click_commands(self@.surface.region, btn),
    {
        let code = btn.to_code();
        self.push_motion(out);
        out.push(PointerCommand::Frame);
        out.push(PointerCommand::Button { code, state: ButtonState::Pressed });
        out.push(PointerCommand::Frame);
        out.push(PointerCommand::Button { code, state: ButtonState::Released });
        out.push(PointerCommand::Frame);
        assert(final(out)@ =~= old(out)@ + click_commands(self@.surface.region, btn));
    }

    /// Two clicks of the button.
    pub fn double_click(&self, out: &mut Vec<PointerCommand>, btn: MouseButton)
        requires
            self.wf(),
        ensures
            final(out)@ == old(out)@ + (click_commands(self@.surface.region, btn) + click_commands(
                self@.surface.region,
                btn,
            )),
    {
        let ghost start = out@;
        self.click(out, btn);
        self.click(out, btn);
        assert(out@ =~= start + (click_commands(self@.surface.region, btn) + click_commands(
            self@.surface.region,
            btn,
        )));
    }

    /// Moves to the centre of the active region, then presses the button,
    /// or releases it where the last drag left it pressed.
    pub fn drag(&mut self, out: &mut Vec<PointerCommand>, btn: MouseButton)
        requires
            old(self).wf(),
        ensures
            final(self).wf(),
            final(self).same_config(old(self)),
            final(self)@ == apply_action(old(self)@, KeynavAction::DragButton(btn)).0,
            final(out)@ == old(out)@ + apply_action(old(self)@, KeynavAction::DragButton(btn)).1,
    {
        let state = match self.button_state.get(btn) {
            ButtonState::Pressed => ButtonState::Released,
            ButtonState::Released => ButtonState::Pressed,
        };
        self.button_state.set(btn, state);
        let code = btn.to_code();
        self.push_motion(out);
        out.push(PointerCommand::Frame);
        out.push(PointerCommand::Button { code, state });
        out.push(PointerCommand::Frame);
        assert(final(out)@ =~= old(out)@ + drag_commands(old(self)@.surface.region, btn, state));
    }

    /// Runs one action.
    pub fn execute(&mut self, action: KeynavAction, out: &mut Vec<PointerCommand>)
        requires
            old(self).wf(),
        ensures
            final(self).wf(),
            final(self).same_config(old(self)),
            final(self)@ == apply_action(old(self)@, action).0,
            final(out)@ == old(out)@ + apply_action(old(self)@, action).1,
    {
        match action {
            KeynavAction::CursorZoom { width, height } => self.cursor_zoom(width, height),
            KeynavAction::CutRight(x) => self.cut_right(fraction_or_default(x, DEFAULT_CUT)),
            KeynavAction::CutLeft(x) => self.cut_left(fraction_or_default(x, DEFAULT_CUT)),
            KeynavAction::CutUp(x) => self.cut_up(fraction_or_default(x, DEFAULT_CUT)),
            KeynavAction::CutDown(x) => self.cut_down(fraction_or_default(x, DEFAULT_CUT)),
            KeynavAction::MoveRight(x) => self.move_right(fraction_or_default(x, DEFAULT_MOVE)),
            KeynavAction::MoveLeft(x) => self.move_left(fraction_or_default(x, DEFAULT_MOVE)),
            KeynavAction::MoveUp(x) => self.move_up(fraction_or_default(x, DEFAULT_MOVE)),
            KeynavAction::MoveDown(x) => self.move_down(fraction_or_default(x, DEFAULT_MOVE)),
            KeynavAction::Click(x) => self.click(out, button_or_left(x)),
            KeynavAction::DragButton(x) => self.drag(out, x),
            KeynavAction::DoubleClick(x) => self.double_click(out, button_or_left(x)),
            KeynavAction::Warp => self.warp(out),
            KeynavAction::End => self.end(),
        }
        assert(apply_action(old(self)@, action).1 == Seq::<PointerCommand>::empty() ==> old(out)@
            + apply_action(old(self)@, action).1 =~= old(out)@);
    }

    /// The configuration that awaits a layout, if it has not been bound yet.
    pub fn pending_config(&self) -> (r: Option<&RawConfig>)
        ensures
            r is Some == !self.is_resolved(),
            r is Some ==> r->Some_0@ == self.pending(),
    {
        match &self.config {
            ConfigState::Unresolved(raw) => Some(raw),
            ConfigState::Resolved(_) => None,
        }
    }

    /// Binds the configuration to a key layout, which `lookups` describes
    /// name by name (see `Config::from_raw_config`). Binding happens once:
    /// after it a new layout leaves the table as it is. On an error the
    /// configuration stays unbound.
    pub fn bind_layout(&mut self, lookups: &Vec<Vec<TokenLookup>>) -> (r: Result<(), ResolveError>)
        requires
            old(self).wf(),
            !old(self).is_resolved() ==> lookups_match(
                old(self).pending(),
                lookups@.map_values(|l: Vec<TokenLookup>| l@),
            ),
        ensures
            final(self).wf(),
            final(self)@ == old(self)@,
            old(self).is_resolved() ==> r is Ok && final(self).same_config(old(self)),
            !old(self).is_resolved() ==> match r {
                Ok(()) => {
                    &&& final(self).is_resolved()
                    &&& resolve(old(self).pending(), lookups@.map_values(|l: Vec<TokenLookup>| l@))
                        == Ok::<_, ResolveError>(final(self).table())
                },
                Err(e) => {
                    &&& final(self).same_config(old(self))
                    &&& resolve(old(self).pending(), lookups@.map_values(|l: Vec<TokenLookup>| l@))
                        == Err::<Map<(u32, u32), Seq<KeynavAction>>, _>(e)
                },
            },
    {
        let resolved = match &self.config {
            ConfigState::Unresolved(raw) => Some(Config::from_raw_config(raw, lookups)),
            ConfigState::Resolved(_) => None,
        };
        match resolved {
            None => Ok(()),
            Some(Ok(c)) => {
                self.config = ConfigState::Resolved(c);
                Ok(())
            },
            Some(Err(e)) => Err(e),
        }
    }

    /// Handles one key event, given the modifier mask in effect after it and
    /// the key symbol of the key. A press of a combination that the resolved
    /// table binds runs its actions in order and returns the pointer commands
    /// they send; a release, an unbound combination, or a press before the
    /// configuration is bound changes nothing.
    pub fn handle_keyboard_event(&mut self, mask: u32, keysym: u32, pressed: bool) -> (r: Vec<
        PointerCommand,
    >)
        requires
            old(self).wf(),
        ensures
            final(self).wf(),
            final(self).same_config(old(self)),
            if pressed && old(self).is_resolved() && old(self).table().contains_key((mask, keysym)) {
                let acts = old(self).table()[(mask, keysym)];
                (final(self)@, r@) == apply_actions(old(self)@, acts, acts.len() as int)
            } else {
                final(self)@ == old(self)@ && r@ == Seq::<PointerCommand>::empty()
            },
    {
        let mut out: Vec<PointerCommand> = Vec::new();
        if !pressed {
            return out;
        }
        let found = match &self.config {
            ConfigState::Resolved(c) => c.lookup(mask, keysym),
            ConfigState::Unresolved(_) => None,
        };
        let actions = match found {
            None => {
                return out;
            },
            Some(a) => a,
        };
        let ghost start = self@;
        let ghost resolved = self.is_resolved();
        let ghost table = self.table();
        let ghost pending = self.pending();
        let mut i: usize = 0;
        assert(out@ =~= Seq::<PointerCommand>::empty());
        while i < actions.len()
            invariant
                i <= actions@.len(),
                self.wf(),
                self.is_resolved() == resolved,
                self.table() == table,
                self.pending() == pending,
                (self@, out@) == apply_actions(start, actions@, i as int),
            decreases actions@.len() - i,
        {
            self.execute(actions[i], &mut out);
            i = i + 1;
        }
        out
    }
}

} // verus!