//! Laws of the navigation rules, stated and proved once for all snapshots.

use crate::nav::{
    candidate_seq, gap_candidate_seq, is_first_free_above, is_first_free_below,
    is_workspace_destination, lemma_interval_in_seq_bound, no_free_below,
};
use crate::state::{strictly_sorted, WindowManagerState};
use crate::{Direction, Policy};
use vstd::prelude::*;

verus! {

/// The gap-walking candidate list holds exactly the numbers from 1 to max
/// that are not reserved, in strictly ascending order.
pub proof fn lemma_gap_candidates_exact(max: i32, reserved: Seq<i32>)
    ensures
        strictly_sorted(gap_candidate_seq(max, reserved)),
        forall|j: int|
            0 <= j < gap_candidate_seq(max, reserved).len() ==> 1 <= #[trigger] gap_candidate_seq(
                max,
                reserved,
            )[j] <= max && !reserved.contains(gap_candidate_seq(max, reserved)[j]),
        forall|n: i32|
            1 <= n <= max && !reserved.contains(n) ==> gap_candidate_seq(max, reserved).contains(
                n,
            ),
    decreases max,
{
    if max < 1 {
    } else {
        lemma_gap_candidates_exact((max - 1) as i32, reserved);
        let rest = gap_candidate_seq((max - 1) as i32, reserved);
        assert forall|n: i32|
            1 <= n <= max && !reserved.contains(n) implies gap_candidate_seq(
            max,
            reserved,
        ).contains(n) by {
            if n <= max - 1 {
                let j = choose|j: int| 0 <= j < rest.len() && rest[j] == n;
                assert(gap_candidate_seq(max, reserved)[j] == n);
            } else {
                assert(gap_candidate_seq(max, reserved).last() == n);
            }
        }
    }
}

/// No collision: whatever the policy and direction, a destination the
/// workspace-axis rule yields is never a number reserved on an unfocused
/// output. In particular, a synthesized number never collides, and
/// gap-walking never lands on a reserved number.
pub proof fn lemma_destination_avoids_reserved(
    s: WindowManagerState,
    pol: Policy,
    dir: Direction,
    d: i32,
)
    requires
        s.well_formed(),
        is_workspace_destination(s, pol, dir, d),
    ensures
        !s.reserved().contains(d),
{
    let c = candidate_seq(s, pol);
    let r = s.reserved();
    if pol.walk_into_gaps {
        lemma_gap_candidates_exact(
            s.max_workspace_on_focused_output,
            s.workspaces_on_unfocused_outputs@,
        );
    }
    c.index_of_first_ensures(s.current_workspace);
    match c.index_of_first(s.current_workspace) {
        None => {
            assert(s.focused_nums().contains(d));
        },
        Some(i) => {
            assert(0 <= i < c.len());
            assert forall|j: int| 0 <= j < c.len() implies !r.contains(#[trigger] c[j]) by {
                if !pol.walk_into_gaps {
                    assert(s.focused_nums().contains(c[j]));
                }
            }
        },
    }
}

/// Totality: for any snapshot, policy and direction, the workspace-axis
/// rule names at least one destination (the machine-width bound only keeps
/// a synthesized number representable).
pub proof fn lemma_destination_exists(s: WindowManagerState, pol: Policy, dir: Direction)
    requires
        !pol.static_behaviour ==> s.max_workspace_on_focused_output
            + s.workspaces_on_unfocused_outputs@.len() + 1 <= i32::MAX,
    ensures
        exists|d: i32| is_workspace_destination(s, pol, dir, d),
{
    let c = candidate_seq(s, pol);
    let r = s.reserved();
    let max = s.max_workspace_on_focused_output;
    let rs = s.workspaces_on_unfocused_outputs@;
    c.index_of_first_ensures(s.current_workspace);
    match c.index_of_first(s.current_workspace) {
        None => {
            assert(is_workspace_destination(s, pol, dir, s.current_workspace));
        },
        Some(i) => {
            assert(0 <= i < c.len());
            let rset = rs.to_set();
            match dir {
                Direction::Next => {
                    if i + 1 < c.len() {
                        assert(is_workspace_destination(s, pol, dir, c[i + 1]));
                    } else if pol.static_behaviour || (s.boundary_workspace_empty && c.len()
                        > 1) {
                        assert(is_workspace_destination(s, pol, dir, c[0]));
                    } else {
                        lemma_first_free_above_exists(max, rs);
                        let d = choose|d: i32| is_first_free_above(max, rset, d);
                        assert(is_workspace_destination(s, pol, dir, d));
                    }
                },
                Direction::Prev => {
                    if i > 0 {
                        assert(is_workspace_destination(s, pol, dir, c[i - 1]));
                    } else if pol.static_behaviour {
                        assert(is_workspace_destination(s, pol, dir, c[c.len() - 1]));
                    } else if s.boundary_workspace_empty || c.len() == 1 {
                        lemma_free_below_cases(c[0], rs);
                        if no_free_below(c[0], r) {
                            lemma_first_free_above_exists(max, rs);
                            let d = choose|d: i32| is_first_free_above(max, rset, d);
                            assert(is_workspace_destination(s, pol, dir, d));
                        } else {
                            let lo = c[0];
                            let d = choose|d: i32| is_first_free_below(lo, rset, d);
                            assert(is_workspace_destination(s, pol, dir, d));
                        }
                    } else {
                        lemma_first_free_above_exists(max, rs);
                        let d = choose|d: i32| is_first_free_above(max, rset, d);
                        assert(is_workspace_destination(s, pol, dir, d));
                    }
                },
            }
        },
    }
}

/// The workspace-axis rule is deterministic: two numbers that both satisfy
/// the destination rule are the same number.
pub proof fn lemma_destination_unique(
    s: WindowManagerState,
    pol: Policy,
    dir: Direction,
    d1: i32,
    d2: i32,
)
    requires
        is_workspace_destination(s, pol, dir, d1),
        is_workspace_destination(s, pol, dir, d2),
    ensures
        d1 == d2,
{
    let r = s.reserved();
    let max = s.max_workspace_on_focused_output;
    if d1 != d2 {
        if is_first_free_above(max, r, d1) && is_first_free_above(max, r, d2) {
            if d1 < d2 {
                assert(r.contains(d1));
            } else {
                assert(r.contains(d2));
            }
        }
        let c = candidate_seq(s, pol);
        if c.index_of_first(s.current_workspace) matches Some(i) && dir == Direction::Prev {
            let lo = c[0];
            if is_first_free_below(lo, r, d1) && is_first_free_below(lo, r, d2) {
                if d1 < d2 {
                    assert(r.contains(d1));
                } else {
                    assert(r.contains(d2));
                }
            }
        }
    }
}

/// Round trip: with gap-walking off and static behaviour on, one step
/// "next" followed by one step "prev" returns to the original workspace.
/// `s2` is the snapshot after the first step: same focused-output numbers,
/// the first destination now current.
pub proof fn lemma_static_round_trip(
    s: WindowManagerState,
    s2: WindowManagerState,
    pol: Policy,
    d: i32,
    d2: i32,
)
    requires
        s.well_formed(),
        !pol.walk_into_gaps,
        pol.static_behaviour,
        is_workspace_destination(s, pol, Direction::Next, d),
        s2.workspaces_on_focused_output@ == s.workspaces_on_focused_output@,
        s2.current_workspace == d,
        is_workspace_destination(s2, pol, Direction::Prev, d2),
    ensures
        d2 == s.current_workspace,
{
    let c = s.focused_nums();
    c.index_of_first_ensures(s.current_workspace);
    let i = c.index_of_first(s.current_workspace).unwrap();
    let k: int = if i + 1 < c.len() {
        i + 1
    } else {
        0
    };
    assert(c[k] == d);
    assert(c.contains(d));
    c.index_of_first_ensures(d);
    let j = c.index_of_first(d).unwrap();
    assert(c[j] == c[k]);
    assert(j == k);
}

/// The first free number above `start0` exists whenever it is
/// representable: scanning from `n` upward, the reserved list is too short
/// to block every probe.
proof fn lemma_first_free_above_exists_from(start0: i32, r: Seq<i32>, n: i32)
    requires
        start0 < n,
        n <= start0 + r.len() + 1,
        start0 + r.len() + 1 <= i32::MAX,
        forall|m: i32| start0 < m < n ==> r.contains(m),
    ensures
        exists|d: i32| is_first_free_above(start0, r.to_set(), d),
    decreases start0 + 1 + r.len() - n,
{
    if !r.contains(n) {
        assert(is_first_free_above(start0, r.to_set(), n));
    } else {
        lemma_interval_in_seq_bound(r, (start0 + 1) as i32, n);
        lemma_first_free_above_exists_from(start0, r, (n + 1) as i32);
    }
}

proof fn lemma_first_free_above_exists(start: i32, r: Seq<i32>)
    requires
        start + r.len() + 1 <= i32::MAX,
    ensures
        exists|d: i32| is_first_free_above(start, r.to_set(), d),
{
    lemma_first_free_above_exists_from(start, r, (start + 1) as i32);
}

/// Scanning downward from just below `lo` either finds a first free number
/// or every number in [1, lo) is reserved.
proof fn lemma_free_below_cases(lo: i32, r: Seq<i32>)
    ensures
        no_free_below(lo, r.to_set()) || exists|d: i32|
            is_first_free_below(lo, r.to_set(), d),
    decreases lo,
{
    let rset = r.to_set();
    let lom1 = (lo - 1) as i32;
    if lo <= 1 {
    } else if !r.contains(lom1) {
        assert(is_first_free_below(lo, rset, lom1));
    } else {
        lemma_free_below_cases(lom1, r);
        if exists|d: i32| is_first_free_below(lom1, rset, d) {
            let d = choose|d: i32| is_first_free_below(lom1, rset, d);
            assert(is_first_free_below(lo, rset, d));
        }
    }
}

} // verus!
