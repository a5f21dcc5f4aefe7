use swaycycle::state::{
    BoundaryPolicy, OutputSummary, SnapshotError, WindowManagerState, WorkspaceSummary,
};
use swaycycle::{pick_destination, Direction, Do, Opt, ParseError, Policy, To};

fn out(x_pos: i64, y_pos: i64, name_id: u64) -> OutputSummary {
    OutputSummary { x_pos, y_pos, name_id }
}

fn ws(number: i32, output_id: u64, focused: bool, visible: bool, empty: bool) -> WorkspaceSummary {
    WorkspaceSummary { number, output_id, focused, visible, empty }
}

#[test]
fn snapshot_from_a_two_output_layout() {
    // Output 1 sits left of output 0; the focused output is 0.
    let outputs = vec![out(1920, 0, 0), out(0, 0, 1)];
    let workspaces = vec![
        ws(5, 0, false, false, false),
        ws(1, 1, false, true, false),
        ws(3, 0, true, true, false),
        ws(8, 1, false, false, true),
    ];
    let st =
        WindowManagerState::from_summaries(Some(0), &outputs, &workspaces, BoundaryPolicy::MaxWorkspace)
            .unwrap();
    assert_eq!(st.current_workspace, 3);
    assert_eq!(st.workspaces_on_focused_output, vec![3, 5]);
    assert_eq!(st.workspaces_on_unfocused_outputs, vec![1, 8]);
    assert_eq!(st.max_workspace_on_focused_output, 5);
    // The max-numbered workspace (5) is not empty.
    assert!(!st.boundary_workspace_empty);
    // Outputs ordered by x position: output 1 (x=0) first, then output 0;
    // their visible workspaces are 1 and 3.
    assert_eq!(st.visible_workspace_per_output, vec![1, 3]);
}

#[test]
fn snapshot_boundary_follows_the_chosen_policy() {
    let outputs = vec![out(0, 0, 0)];
    let workspaces = vec![
        ws(2, 0, true, true, false),
        ws(9, 0, false, false, true),
    ];
    let max = WindowManagerState::from_summaries(
        Some(0),
        &outputs,
        &workspaces,
        BoundaryPolicy::MaxWorkspace,
    )
    .unwrap();
    // The maximum-numbered workspace 9 is empty.
    assert!(max.boundary_workspace_empty);
    let cur = WindowManagerState::from_summaries(
        Some(0),
        &outputs,
        &workspaces,
        BoundaryPolicy::CurrentWorkspace,
    )
    .unwrap();
    // The current workspace 2 is not.
    assert!(!cur.boundary_workspace_empty);
}

#[test]
fn snapshot_sorts_and_deduplicates_focused_numbers() {
    let outputs = vec![out(0, 0, 0)];
    let workspaces = vec![
        ws(7, 0, false, false, false),
        ws(2, 0, true, true, false),
        ws(7, 0, false, false, false),
        ws(4, 0, false, false, false),
    ];
    let st =
        WindowManagerState::from_summaries(Some(0), &outputs, &workspaces, BoundaryPolicy::MaxWorkspace)
            .unwrap();
    assert_eq!(st.workspaces_on_focused_output, vec![2, 4, 7]);
    assert_eq!(st.max_workspace_on_focused_output, 7);
}

#[test]
fn snapshot_drops_reserved_numbers_that_exist_on_the_focused_output() {
    // A number reported on both sides counts as the focused output's.
    let outputs = vec![out(0, 0, 0), out(100, 0, 1)];
    let workspaces = vec![
        ws(2, 0, true, true, false),
        ws(2, 1, false, true, false),
        ws(6, 1, false, false, false),
    ];
    let st =
        WindowManagerState::from_summaries(Some(0), &outputs, &workspaces, BoundaryPolicy::MaxWorkspace)
            .unwrap();
    assert_eq!(st.workspaces_on_focused_output, vec![2]);
    assert_eq!(st.workspaces_on_unfocused_outputs, vec![6]);
}

#[test]
fn snapshot_orders_outputs_by_y_when_x_ties() {
    let outputs = vec![out(0, 1080, 0), out(0, 0, 1)];
    let workspaces = vec![
        ws(1, 0, true, true, false),
        ws(2, 1, false, true, false),
    ];
    let st =
        WindowManagerState::from_summaries(Some(0), &outputs, &workspaces, BoundaryPolicy::MaxWorkspace)
            .unwrap();
    assert_eq!(st.visible_workspace_per_output, vec![2, 1]);
}

#[test]
fn snapshot_skips_outputs_without_a_visible_workspace() {
    let outputs = vec![out(0, 0, 0), out(100, 0, 1), out(200, 0, 2)];
    let workspaces = vec![
        ws(1, 0, true, true, false),
        ws(4, 1, false, false, false),
        ws(9, 2, false, true, false),
    ];
    let st =
        WindowManagerState::from_summaries(Some(0), &outputs, &workspaces, BoundaryPolicy::MaxWorkspace)
            .unwrap();
    assert_eq!(st.visible_workspace_per_output, vec![1, 9]);
}

#[test]
fn snapshot_fails_without_a_focused_output() {
    let outputs = vec![out(0, 0, 0)];
    let workspaces = vec![ws(1, 0, true, true, false)];
    let r =
        WindowManagerState::from_summaries(None, &outputs, &workspaces, BoundaryPolicy::MaxWorkspace);
    assert!(matches!(r, Err(SnapshotError::NoFocusedOutput)));
}

#[test]
fn snapshot_fails_when_the_focused_output_has_no_workspaces() {
    let outputs = vec![out(0, 0, 0), out(100, 0, 1)];
    let workspaces = vec![ws(1, 1, true, true, false)];
    let r =
        WindowManagerState::from_summaries(Some(0), &outputs, &workspaces, BoundaryPolicy::MaxWorkspace);
    assert!(matches!(r, Err(SnapshotError::EmptyFocusedWorkspaceSet)));
}

#[test]
fn snapshot_fails_without_a_focused_workspace() {
    let outputs = vec![out(0, 0, 0)];
    let workspaces = vec![ws(1, 0, false, true, false)];
    let r =
        WindowManagerState::from_summaries(Some(0), &outputs, &workspaces, BoundaryPolicy::MaxWorkspace);
    assert!(matches!(r, Err(SnapshotError::NoFocusedWorkspace)));
}

#[test]
fn snapshot_fails_when_the_focused_workspace_is_elsewhere() {
    let outputs = vec![out(0, 0, 0), out(100, 0, 1)];
    let workspaces = vec![
        ws(1, 0, false, true, false),
        ws(2, 1, true, true, false),
    ];
    let r =
        WindowManagerState::from_summaries(Some(0), &outputs, &workspaces, BoundaryPolicy::MaxWorkspace);
    assert!(matches!(r, Err(SnapshotError::FocusedWorkspaceElsewhere)));
}

#[test]
fn output_axis_wraps_both_ways() {
    // Visible workspaces per output [1, 3, 8]: "next" from 8 wraps to 1,
    // "prev" from 1 wraps to 8.
    let s = WindowManagerState {
        current_workspace: 8,
        workspaces_on_focused_output: vec![8],
        workspaces_on_unfocused_outputs: vec![1, 3],
        max_workspace_on_focused_output: 8,
        boundary_workspace_empty: false,
        visible_workspace_per_output: vec![1, 3, 8],
    };
    assert_eq!(s.cycle_through_outputs(Direction::Next), 1);
    let s2 = WindowManagerState { current_workspace: 1, ..s };
    assert_eq!(s2.cycle_through_outputs(Direction::Prev), 8);
}

#[test]
fn output_axis_moves_to_the_neighbour() {
    let s = WindowManagerState {
        current_workspace: 3,
        workspaces_on_focused_output: vec![3],
        workspaces_on_unfocused_outputs: vec![1, 8],
        max_workspace_on_focused_output: 3,
        boundary_workspace_empty: false,
        visible_workspace_per_output: vec![1, 3, 8],
    };
    assert_eq!(s.cycle_through_outputs(Direction::Next), 8);
    assert_eq!(s.cycle_through_outputs(Direction::Prev), 1);
}

#[test]
fn output_axis_falls_back_to_the_current_workspace() {
    // The current workspace is absent from the visible list: no-op.
    let s = WindowManagerState {
        current_workspace: 9,
        workspaces_on_focused_output: vec![9],
        workspaces_on_unfocused_outputs: vec![2, 5],
        max_workspace_on_focused_output: 9,
        boundary_workspace_empty: false,
        visible_workspace_per_output: vec![2, 5],
    };
    assert_eq!(s.cycle_through_outputs(Direction::Next), 9);
    assert_eq!(s.cycle_through_outputs(Direction::Prev), 9);
}

#[test]
fn pick_destination_dispatches_on_the_axis() {
    let s = WindowManagerState {
        current_workspace: 2,
        workspaces_on_focused_output: vec![2, 5],
        workspaces_on_unfocused_outputs: vec![9],
        max_workspace_on_focused_output: 5,
        boundary_workspace_empty: false,
        visible_workspace_per_output: vec![2, 9],
    };
    let pol = Policy { walk_into_gaps: false, static_behaviour: false };
    let on_workspaces = Opt {
        command: Do::MoveFocusTo,
        to: To::Workspace,
        dir: Direction::Next,
        policy: pol,
    };
    assert_eq!(pick_destination(&s, &on_workspaces), 5);
    let on_outputs = Opt { command: Do::MoveFocusTo, to: To::Output, dir: Direction::Next, policy: pol };
    assert_eq!(pick_destination(&s, &on_outputs), 9);
}

#[test]
fn snapshot_feeds_navigation_end_to_end() {
    // Two outputs; cycling "next" from the focused output's maximum with a
    // non-empty boundary creates the next free number, skipping the one
    // reserved on the other output.
    let outputs = vec![out(0, 0, 0), out(1920, 0, 1)];
    let workspaces = vec![
        ws(3, 0, true, true, false),
        ws(4, 1, false, true, false),
    ];
    let st =
        WindowManagerState::from_summaries(Some(0), &outputs, &workspaces, BoundaryPolicy::MaxWorkspace)
            .unwrap();
    let request = Opt {
        command: Do::MoveFocusTo,
        to: To::Workspace,
        dir: Direction::Next,
        policy: Policy { walk_into_gaps: false, static_behaviour: false },
    };
    assert_eq!(pick_destination(&st, &request), 5);
}

#[test]
fn creation_reaches_the_largest_representable_number() {
    let st = WindowManagerState {
        current_workspace: i32::MAX - 1,
        workspaces_on_focused_output: vec![i32::MAX - 1],
        workspaces_on_unfocused_outputs: vec![],
        max_workspace_on_focused_output: i32::MAX - 1,
        boundary_workspace_empty: false,
        visible_workspace_per_output: vec![],
    };
    let request = Opt {
        command: Do::MoveFocusTo,
        to: To::Workspace,
        dir: Direction::Next,
        policy: Policy { walk_into_gaps: false, static_behaviour: false },
    };
    assert_eq!(pick_destination(&st, &request), i32::MAX);
}

#[test]
fn command_words_parse() {
    assert_eq!(Do::from_str("move-focus-to"), Ok(Do::MoveFocusTo));
    assert_eq!(Do::from_str("move-container-to"), Ok(Do::MoveContainerTo));
    assert_eq!(Do::from_str("move-anything"), Err(ParseError::InvalidPolicyArgument));
    assert_eq!(Do::from_str(""), Err(ParseError::InvalidPolicyArgument));
}
