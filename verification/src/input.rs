use vstd::prelude::*;

verus! {

/// The pointer state of the input machine: idle, pressed at a point, or
/// dragging the selection.
#[derive(Debug, Clone, Copy, PartialEq, Eq, Structural)]
pub enum MouseState {
    Idle,
    MouseDown(i64, i64),
    DraggingMovement,
}

/// A pointer event from the host. Move events carry deltas from the last
/// position, not absolute coordinates.
#[derive(Debug, Clone, Copy, PartialEq, Eq, Structural)]
pub enum InputEvent {
    MouseDown { x: i64, y: i64 },
    MouseUp,
    MouseMove { delta_x: i64, delta_y: i64 },
}

/// What a move event does to the pointer state: a press turns into a drag
/// once one event's delta exceeds the five-pixel threshold; idle and
/// dragging states are unchanged.
pub open spec fn spec_after_movement(s: MouseState, dx: int, dy: int) -> MouseState {
    match s {
        MouseState::MouseDown(_, _) => if dx * dx + dy * dy > 25 {
            MouseState::DraggingMovement
        } else {
            s
        },
        _ => s,
    }
}

impl MouseState {
    /// Feeds one move event's delta into the pointer state.
    pub fn update_from_movement(&mut self, delta_x: i64, delta_y: i64)
        ensures
            *final(self) == spec_after_movement(*old(self), delta_x as int, delta_y as int),
    {
        match *self {
            MouseState::MouseDown(_, _) => {
                let big = delta_x > 5 || delta_x < -5 || delta_y > 5 || delta_y < -5;
                if big {
                    proof {
                        assert(delta_x * delta_x + delta_y * delta_y > 25) by (nonlinear_arith)
                            requires delta_x > 5 || delta_x < -5 || delta_y > 5 || delta_y < -5;
                    }
                    *self = MouseState::DraggingMovement;
                } else {
                    proof {
                        assert(0 <= delta_x * delta_x <= 25 && 0 <= delta_y * delta_y
                            <= 25) by (nonlinear_arith)
                            requires -5 <= delta_x <= 5 && -5 <= delta_y <= 5;
                    }
                    if delta_x * delta_x + delta_y * delta_y > 25 {
                        *self = MouseState::DraggingMovement;
                    }
                }
            },
            _ => {},
        }
    }
}

} // verus!
