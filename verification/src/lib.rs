//! Workspace navigation for a tiling window manager.
//!
//! From a snapshot of the compositor's layout — the focused workspace, the
//! workspace numbers on the focused output, the numbers reserved on other
//! outputs, and the visible workspace of each output in position order — the
//! library computes the single destination workspace number for one
//! navigation request: a direction along one of two axes (workspaces of the
//! focused output, or outputs), under a small policy that controls
//! gap-walking and the creation of new workspace numbers.

pub mod laws;
pub mod nav;
pub mod state;

use vstd::prelude::*;

verus! {

/// Direction of one navigation step.
#[derive(Clone, Copy, Debug, PartialEq, Eq, Structural)]
pub enum Direction {
    Prev,
    Next,
}

/// The axis a navigation step moves along.
#[derive(Clone, Copy, Debug, PartialEq, Eq, Structural)]
pub enum To {
    Workspace,
    Output,
}

/// What the caller intends to do with the destination.
#[derive(Clone, Copy, Debug, PartialEq, Eq, Structural)]
pub enum Do {
    MoveFocusTo,
    MoveContainerTo,
}

/// A request value that is none of the accepted words.
#[derive(Clone, Copy, Debug, PartialEq, Eq, Structural)]
pub enum ParseError {
    InvalidPolicyArgument,
}

/// Policy flags for workspace-axis cycling; both default to off.
#[derive(Clone, Copy, Debug, PartialEq, Eq, Structural)]
pub struct Policy {
    /// Cycle through the dense range from 1 to the focused output's maximum
    /// instead of only the numbers that exist there.
    pub walk_into_gaps: bool,
    /// Disable creation entirely: cycling only ever visits existing
    /// candidates and wraps at the ends.
    pub static_behaviour: bool,
}

/// One parsed invocation: what to do, along which axis, in which direction,
/// under which policy.
#[derive(Clone, Copy, Debug)]
pub struct Opt {
    pub command: Do,
    pub to: To,
    pub dir: Direction,
    pub policy: Policy,
}

impl Do {
    /// Parses the command word: "move-focus-to" or "move-container-to".
    pub fn from_str(s: &str) -> (r: Result<Do, ParseError>)
        ensures
            r == Ok::<Do, ParseError>(Do::MoveFocusTo) <==> s@ == "move-focus-to"@,
            r == Ok::<Do, ParseError>(Do::MoveContainerTo) <==> s@ == "move-container-to"@,
            r is Err <==> s@ != "move-focus-to"@ && s@ != "move-container-to"@,
    {
        proof {
            reveal_strlit("move-focus-to");
            reveal_strlit("move-container-to");
            assert("move-focus-to"@.len() == 13);
            assert("move-container-to"@.len() == 17);
        }
        let owned: String = s.to_owned();
        let focus: String = "move-focus-to".to_owned();
        let container: String = "move-container-to".to_owned();
        if owned == focus {
            Ok(Do::MoveFocusTo)
        } else if owned == container {
            Ok(Do::MoveContainerTo)
        } else {
            Err(ParseError::InvalidPolicyArgument)
        }
    }
}

/// The destination workspace number for one request: workspace-axis cycling
/// for `To::Workspace`, output-axis cycling for `To::Output`.
pub fn pick_destination(wm_state: &state::WindowManagerState, opt: &Opt) -> (r: i32)
    requires
        opt.to == To::Workspace && !opt.policy.static_behaviour
            ==> wm_state.max_workspace_on_focused_output
            + wm_state.workspaces_on_unfocused_outputs@.len() + 1 <= i32::MAX,
    ensures
        match opt.to {
            To::Workspace => nav::is_workspace_destination(*wm_state, opt.policy, opt.dir, r),
            To::Output => r == nav::output_destination(*wm_state, opt.dir),
        },
{
    match opt.to {
        To::Workspace => wm_state.cycle_through_workspaces_on_focused_output(
            opt.policy,
            opt.dir,
        ),
        To::Output => wm_state.cycle_through_outputs(opt.dir),
    }
}

} // verus!
