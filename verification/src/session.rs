use vstd::prelude::*;
use crate::refine::RedrawPlan;
use crate::refine::RefinementState;
use crate::refine::MIN_RESOLUTION;
use crate::refine::clamped;
use crate::refine::next_resolution;
use crate::refine::renders_at;
use crate::refine::valid_resolution;

verus! {

/// Cursor and left-button state, mutated only by window events and read by
/// each redraw to compute the drag vector.
pub struct InteractionState {
    pub cursor_x: i32,
    pub cursor_y: i32,
    pub press_x: i32,
    pub press_y: i32,
    pub pressed: bool,
}

/// The drag vector's first component: current cursor minus the cursor at
/// press time while the left button is held, zero otherwise.
pub open spec fn delta_x(i: InteractionState) -> int {
    if i.pressed {
        i.cursor_x - i.press_x
    } else {
        0
    }
}

/// The drag vector's second component.
pub open spec fn delta_y(i: InteractionState) -> int {
    if i.pressed {
        i.cursor_y - i.press_y
    } else {
        0
    }
}

impl InteractionState {
    pub fn new() -> (s: Self)
        ensures
            s == (InteractionState {
                cursor_x: 0,
                cursor_y: 0,
                press_x: 0,
                press_y: 0,
                pressed: false,
            }),
    {
        InteractionState { cursor_x: 0, cursor_y: 0, press_x: 0, press_y: 0, pressed: false }
    }

    /// The drag vector fed to the offscreen pass, recomputed every redraw.
    pub fn mouse_delta(&self) -> (d: (i64, i64))
        ensures
            d.0 == delta_x(*self),
            d.1 == delta_y(*self),
    {
        if self.pressed {
            (
                self.cursor_x as i64 - self.press_x as i64,
                self.cursor_y as i64 - self.press_y as i64,
            )
        } else {
            (0i64, 0i64)
        }
    }
}

/// A window-system event, as the session consumes it.
pub enum SessionEvent {
    /// The window was resized to the given physical size.
    Resized { width: u32, height: u32 },
    /// The cursor moved to the given physical position.
    CursorMoved { x: i32, y: i32 },
    /// A mouse button changed state; only the left button is meaningful.
    MouseInput { left: bool, pressed: bool },
    /// The user asked to close the window.
    CloseRequested,
    /// A redraw is due; the flag says whether a presentable frame could be
    /// acquired.
    RedrawRequested { frame_available: bool },
    /// The event queue drained; the loop keeps the animation going by
    /// asking for another redraw.
    EventsCleared,
    /// Any event the session ignores.
    Other,
}

/// What the surrounding event loop must do after one event is absorbed.
pub enum SessionAction {
    /// Reconfigure the surface to the new size.
    Reconfigure { width: u32, height: u32 },
    /// Run the offscreen pass at the given resolution (reuse the cached
    /// texture when `None`) with the given drag vector, then composite the
    /// result to the frame and present it.
    Render { sdf_resolution: Option<u32>, mouse_dx: i64, mouse_dy: i64 },
    /// Ask the window system for another redraw.
    RequestRedraw,
    /// Leave the event loop.
    Exit,
    /// Nothing to do.
    Idle,
}

/// Everything the event loop carries across events.
pub struct SessionState {
    pub interaction: InteractionState,
    pub refinement: RefinementState,
}

impl SessionState {
    pub open spec fn wf(self) -> bool {
        valid_resolution(self.refinement.resolution)
    }

    pub fn new() -> (s: Self)
        ensures
            s.wf(),
            s.refinement.resolution == MIN_RESOLUTION,
            !s.interaction.pressed,
            s.interaction.cursor_x == 0 && s.interaction.cursor_y == 0,
            s.interaction.press_x == 0 && s.interaction.press_y == 0,
    {
        SessionState { interaction: InteractionState::new(), refinement: RefinementState::new() }
    }

    /// Absorbs one event: mutates the interaction or refinement state as
    /// the event dictates and says what the loop must do next.
    pub fn step(&mut self, event: &SessionEvent) -> (action: SessionAction)
        requires
            old(self).wf(),
        ensures
            final(self).wf(),
            (*event) matches (SessionEvent::Resized { width, height }) ==> *final(self) == *old(
                self,
            ) && action == (SessionAction::Reconfigure { width, height }),
            (*event) matches (SessionEvent::CursorMoved { x, y }) ==> final(self).interaction == (
            InteractionState {
                cursor_x: x,
                cursor_y: y,
                ..old(self).interaction
            }) && final(self).refinement == old(self).refinement && action == SessionAction::Idle,
            (*event) matches (SessionEvent::MouseInput { left, pressed }) && left && pressed
                ==> final(self).interaction == (InteractionState {
                press_x: old(self).interaction.cursor_x,
                press_y: old(self).interaction.cursor_y,
                pressed: true,
                ..old(self).interaction
            }) && final(self).refinement == old(self).refinement && action == SessionAction::Idle,
            (*event) matches (SessionEvent::MouseInput { left, pressed }) && left && !pressed
                ==> final(self).interaction == (InteractionState {
                pressed: false,
                ..old(self).interaction
            }) && final(self).refinement == old(self).refinement && action == SessionAction::Idle,
            (*event) matches (SessionEvent::MouseInput { left, pressed }) && !left ==> *final(self)
                == *old(self) && action == SessionAction::Idle,
            *event == SessionEvent::CloseRequested ==> *final(self) == *old(self) && action
                == SessionAction::Exit,
            *event == SessionEvent::EventsCleared ==> *final(self) == *old(self) && action
                == SessionAction::RequestRedraw,
            *event == SessionEvent::Other ==> *final(self) == *old(self) && action
                == SessionAction::Idle,
            (*event) matches (SessionEvent::RedrawRequested { frame_available })
                && !frame_available ==> *final(self) == *old(self) && action == SessionAction::Idle,
            (*event) matches (SessionEvent::RedrawRequested { frame_available }) && frame_available
                ==> final(self).interaction == old(self).interaction
                && final(self).refinement.resolution == next_resolution(
                old(self).refinement.resolution,
            ) && action
                == (SessionAction::Render {
                sdf_resolution: if renders_at(old(self).refinement.resolution) {
                    Some(clamped(old(self).refinement.resolution))
                } else {
                    None
                },
                mouse_dx: delta_x(old(self).interaction) as i64,
                mouse_dy: delta_y(old(self).interaction) as i64,
            }),
    {
        match event {
            SessionEvent::Resized { width, height } => SessionAction::Reconfigure {
                width: *width,
                height: *height,
            },
            SessionEvent::CursorMoved { x, y } => {
                self.interaction.cursor_x = *x;
                self.interaction.cursor_y = *y;
                SessionAction::Idle
            },
            SessionEvent::MouseInput { left, pressed } => {
                if *left {
                    if *pressed {
                        self.interaction.press_x = self.interaction.cursor_x;
                        self.interaction.press_y = self.interaction.cursor_y;
                        self.interaction.pressed = true;
                    } else {
                        self.interaction.pressed = false;
                    }
                }
                SessionAction::Idle
            },
            SessionEvent::CloseRequested => SessionAction::Exit,
            SessionEvent::EventsCleared => SessionAction::RequestRedraw,
            SessionEvent::Other => SessionAction::Idle,
            SessionEvent::RedrawRequested { frame_available } => {
                let plan: RedrawPlan = self.refinement.on_redraw(*frame_available);
                if plan.composite {
                    let d = self.interaction.mouse_delta();
                    SessionAction::Render {
                        sdf_resolution: plan.sdf_resolution,
                        mouse_dx: d.0,
                        mouse_dy: d.1,
                    }
                } else {
                    SessionAction::Idle
                }
            },
        }
    }
}

} // verus!
