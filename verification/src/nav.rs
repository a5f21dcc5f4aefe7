//! The navigation engine: pure rules from a snapshot and a policy to the
//! destination workspace number.
//!
//! One navigation step builds an ordered candidate list — the numbers on the
//! focused output, or, when gap-walking, the whole range from 1 to their
//! maximum with reserved numbers left out — locates the current workspace in
//! it, and moves one position. At the list's ends the policy decides between
//! wrapping around and synthesizing a fresh number that collides with no
//! workspace reserved on an unfocused output.

use crate::state::{vec_contains, WindowManagerState};
use crate::{Direction, Policy};
use vstd::prelude::*;

verus! {

/// The element of `s` one step after the first occurrence of `cur`, wrapping
/// past the end to the front; `cur` itself when it does not occur.
pub open spec fn cyclic_successor(s: Seq<i32>, cur: i32) -> i32 {
    match s.index_of_first(cur) {
        Some(i) => s[(i + 1) % (s.len() as int)],
        None => cur,
    }
}

/// `d` is the smallest number strictly above `start` that is not reserved.
pub open spec fn is_first_free_above(start: i32, reserved: Set<i32>, d: i32) -> bool {
    &&& d > start
    &&& !reserved.contains(d)
    &&& forall|m: i32| start < m < d ==> reserved.contains(m)
}

/// `d` is the first free number scanning downward from just below `lo`,
/// never below 1.
pub open spec fn is_first_free_below(lo: i32, reserved: Set<i32>, d: i32) -> bool {
    &&& 1 <= d < lo
    &&& !reserved.contains(d)
    &&& forall|m: i32| d < m < lo ==> reserved.contains(m)
}

/// Every number in [1, lo) is reserved: scanning downward finds nothing.
pub open spec fn no_free_below(lo: i32, reserved: Set<i32>) -> bool {
    forall|m: i32| 1 <= m < lo ==> reserved.contains(m)
}

/// The dense candidate range for gap-walking: every number in 1..=max that
/// is not reserved on an unfocused output, ascending; empty when max < 1.
pub open spec fn gap_candidate_seq(max: i32, reserved: Seq<i32>) -> Seq<i32>
    decreases max,
{
    if max < 1 {
        Seq::empty()
    } else {
        let rest = gap_candidate_seq((max - 1) as i32, reserved);
        if !reserved.contains(max) {
            rest.push(max)
        } else {
            rest
        }
    }
}

/// The ordered candidate list one workspace-axis step cycles over.
pub open spec fn candidate_seq(s: WindowManagerState, pol: Policy) -> Seq<i32> {
    if pol.walk_into_gaps {
        gap_candidate_seq(
            s.max_workspace_on_focused_output,
            s.workspaces_on_unfocused_outputs@,
        )
    } else {
        s.focused_nums()
    }
}

/// The workspace-axis destination rule. With the current workspace at
/// position `i` of the candidate list:
///
/// - an interior step moves to the neighbouring candidate;
/// - under static behaviour the ends wrap around, and nothing is ever
///   created;
/// - otherwise, "next" past the last candidate wraps to the first when the
///   boundary workspace is empty and more than one candidate exists, and
///   synthesizes the first free number above the maximum when not;
/// - "prev" below the first candidate synthesizes a new leading number —
///   scanning downward from just below it, skipping reserved numbers, never
///   below 1 — when the boundary workspace is empty or it is the only
///   candidate, and falls back to trailing synthesis when no leading number
///   is free or the boundary workspace is not empty.
///
/// A current workspace absent from the candidate list is returned unchanged.
pub open spec fn is_workspace_destination(
    s: WindowManagerState,
    pol: Policy,
    dir: Direction,
    d: i32,
) -> bool {
    let c = candidate_seq(s, pol);
    let r = s.reserved();
    let max = s.max_workspace_on_focused_output;
    match c.index_of_first(s.current_workspace) {
        None => d == s.current_workspace,
        Some(i) => match dir {
            Direction::Next => {
                if i + 1 < c.len() {
                    d == c[i + 1]
                } else if pol.static_behaviour {
                    d == c[0]
                } else if s.boundary_workspace_empty && c.len() > 1 {
                    d == c[0]
                } else {
                    is_first_free_above(max, r, d)
                }
            },
            Direction::Prev => {
                if i > 0 {
                    d == c[i - 1]
                } else if pol.static_behaviour {
                    d == c[c.len() - 1]
                } else if s.boundary_workspace_empty || c.len() == 1 {
                    if no_free_below(c[0], r) {
                        is_first_free_above(max, r, d)
                    } else {
                        is_first_free_below(c[0], r, d)
                    }
                } else {
                    is_first_free_above(max, r, d)
                }
            },
        },
    }
}

/// The output-axis destination rule: the visible workspace of the
/// neighbouring output in position order, wrapping at the ends; the current
/// workspace unchanged when it is not in the visible list.
pub open spec fn output_destination(s: WindowManagerState, dir: Direction) -> i32 {
    match dir {
        Direction::Next => cyclic_successor(
            s.visible_workspace_per_output@,
            s.current_workspace,
        ),
        Direction::Prev => cyclic_successor(
            s.visible_workspace_per_output@.reverse(),
            s.current_workspace,
        ),
    }
}

/// The index of the first occurrence of `x` in `v`.
pub(crate) fn find_first(v: &Vec<i32>, x: i32) -> (r: Option<usize>)
    ensures
        match r {
            Some(i) => v@.index_of_first(x) == Some(i as int),
            None => v@.index_of_first(x) is None,
        },
{
    let mut i: usize = 0;
    while i < v.len()
        invariant
            0 <= i <= v@.len(),
            forall|k: int| 0 <= k < i ==> v@[k] != x,
        decreases v@.len() - i,
    {
        if v[i] == x {
            proof {
                v@.index_of_first_ensures(x);
                assert(v@.contains(x));
            }
            return Some(i);
        }
        i = i + 1;
    }
    proof {
        v@.index_of_first_ensures(x);
        if v@.contains(x) {
            let k = choose|k: int| 0 <= k < v@.len() && v@[k] == x;
            assert(false);
        }
    }
    None
}

/// The reverse of `v`.
pub(crate) fn reversed(v: &Vec<i32>) -> (r: Vec<i32>)
    ensures
        r@ == v@.reverse(),
{
    let mut r: Vec<i32> = Vec::new();
    let mut i: usize = v.len();
    while i > 0
        invariant
            0 <= i <= v@.len(),
            r@.len() == v@.len() - i,
            forall|k: int| 0 <= k < r@.len() ==> r@[k] == v@[v@.len() - 1 - k],
        decreases i,
    {
        i = i - 1;
        r.push(v[i]);
    }
    proof {
        assert(r@ =~= v@.reverse());
    }
    r
}

/// If every number in the closed interval [lo, hi] occurs in `r`, the
/// interval is no longer than `r`.
pub(crate) proof fn lemma_interval_in_seq_bound(r: Seq<i32>, lo: i32, hi: i32)
    requires
        lo <= hi,
        forall|m: i32| lo <= m <= hi ==> r.contains(m),
    ensures
        hi - lo + 1 <= r.len(),
{
    broadcast use vstd::seq_lib::seq_to_set_is_finite;

    let ints = r.map_values(|x: i32| x as int);
    let iset = vstd::set_lib::set_int_range(lo as int, hi as int + 1);
    assert forall|m: int| iset.contains(m) implies ints.to_set().contains(m) by {
        assert(r.contains(m as i32));
        let k = choose|k: int| 0 <= k < r.len() && r[k] == (m as i32);
        assert(ints[k] == m);
    }
    vstd::set_lib::lemma_int_range(lo as int, hi as int + 1);
    ints.lemma_cardinality_of_set();
    vstd::set_lib::lemma_len_subset(iset, ints.to_set());
}

/// The smallest number strictly above `start` that is not reserved.
pub(crate) fn first_free_above(start: i32, reserved: &Vec<i32>) -> (r: i32)
    requires
        start + reserved@.len() + 1 <= i32::MAX,
    ensures
        is_first_free_above(start, reserved@.to_set(), r),
{
    let mut n: i32 = start + 1;
    loop
        invariant
            start < n <= start + 1 + reserved@.len(),
            start + reserved@.len() + 1 <= i32::MAX,
            forall|m: i32| start < m < n ==> reserved@.contains(m),
        decreases start + 1 + reserved@.len() - n,
    {
        if !vec_contains(reserved, n) {
            return n;
        }
        proof {
            lemma_interval_in_seq_bound(reserved@, (start + 1) as i32, n);
        }
        n = n + 1;
    }
}

/// The first free number scanning downward from just below `lo`, floor 1;
/// `None` when every number in [1, lo) is reserved.
pub(crate) fn first_free_below(lo: i32, reserved: &Vec<i32>) -> (r: Option<i32>)
    ensures
        match r {
            Some(d) => is_first_free_below(lo, reserved@.to_set(), d),
            None => no_free_below(lo, reserved@.to_set()),
        },
{
    if lo <= 1 {
        return None;
    }
    let mut n: i32 = lo - 1;
    loop
        invariant
            1 <= n < lo,
            forall|m: i32| n < m < lo ==> reserved@.contains(m),
        decreases n,
    {
        if !vec_contains(reserved, n) {
            return Some(n);
        }
        if n == 1 {
            return None;
        }
        n = n - 1;
    }
}

/// The gap-walking candidate list: 1..=max with reserved numbers left out.
pub(crate) fn gap_candidates(max: i32, reserved: &Vec<i32>) -> (c: Vec<i32>)
    ensures
        c@ == gap_candidate_seq(max, reserved@),
{
    let mut c: Vec<i32> = Vec::new();
    if max < 1 {
        proof {
            assert(c@ =~= gap_candidate_seq(max, reserved@));
        }
        return c;
    }
    let mut k: i64 = 1;
    proof {
        assert(c@ =~= gap_candidate_seq(0, reserved@));
    }
    while k <= max as i64
        invariant
            1 <= k <= max as i64 + 1,
            max >= 1,
            c@ == gap_candidate_seq((k - 1) as i32, reserved@),
        decreases max as i64 + 1 - k,
    {
        let n: i32 = k as i32;
        if !vec_contains(reserved, n) {
            c.push(n);
        }
        proof {
            assert(gap_candidate_seq(n, reserved@) == if !reserved@.contains(n) {
                gap_candidate_seq((n - 1) as i32, reserved@).push(n)
            } else {
                gap_candidate_seq((n - 1) as i32, reserved@)
            });
        }
        k = k + 1;
    }
    c
}

impl WindowManagerState {
    /// The candidate one step after the first occurrence of the current
    /// workspace, wrapping past the end to the front; the current workspace
    /// itself when it does not occur in `candidates`.
    pub fn next_workspace(&self, candidates: &Vec<i32>) -> (r: i32)
        ensures
            r == cyclic_successor(candidates@, self.current_workspace),
    {
        match find_first(candidates, self.current_workspace) {
            None => self.current_workspace,
            Some(i) => {
                proof {
                    candidates@.index_of_first_ensures(self.current_workspace);
                }
                let len = candidates.len();
                if i + 1 < len {
                    proof {
                        vstd::arithmetic::div_mod::lemma_small_mod(
                            (i + 1) as nat,
                            len as nat,
                        );
                    }
                    candidates[i + 1]
                } else {
                    proof {
                        vstd::arithmetic::div_mod::lemma_mod_self_0(len as int);
                    }
                    candidates[0]
                }
            },
        }
    }

    /// One workspace-axis step over an already built candidate list.
    fn cycle_candidates(&self, c: &Vec<i32>, pol: Policy, dir: Direction) -> (r: i32)
        requires
            c@ == candidate_seq(*self, pol),
            !pol.static_behaviour ==> self.max_workspace_on_focused_output
                + self.workspaces_on_unfocused_outputs@.len() + 1 <= i32::MAX,
        ensures
            is_workspace_destination(*self, pol, dir, r),
    {
        match find_first(c, self.current_workspace) {
            None => self.current_workspace,
            Some(i) => match dir {
                Direction::Next => {
                    proof {
                        c@.index_of_first_ensures(self.current_workspace);
                    }
                    let len = c.len();
                    if i + 1 < len {
                        c[i + 1]
                    } else if pol.static_behaviour {
                        c[0]
                    } else if self.boundary_workspace_empty && c.len() > 1 {
                        c[0]
                    } else {
                        first_free_above(
                            self.max_workspace_on_focused_output,
                            &self.workspaces_on_unfocused_outputs,
                        )
                    }
                },
                Direction::Prev => {
                    proof {
                        c@.index_of_first_ensures(self.current_workspace);
                    }
                    if i > 0 {
                        c[i - 1]
                    } else if pol.static_behaviour {
                        c[c.len() - 1]
                    } else if self.boundary_workspace_empty || c.len() == 1 {
                        match first_free_below(c[0], &self.workspaces_on_unfocused_outputs) {
                            Some(d) => d,
                            None => first_free_above(
                                self.max_workspace_on_focused_output,
                                &self.workspaces_on_unfocused_outputs,
                            ),
                        }
                    } else {
                        first_free_above(
                            self.max_workspace_on_focused_output,
                            &self.workspaces_on_unfocused_outputs,
                        )
                    }
                },
            },
        }
    }

    /// The destination along the workspace axis, under the given policy.
    pub fn cycle_through_workspaces_on_focused_output(
        &self,
        pol: Policy,
        dir: Direction,
    ) -> (r: i32)
        requires
            !pol.static_behaviour ==> self.max_workspace_on_focused_output
                + self.workspaces_on_unfocused_outputs@.len() + 1 <= i32::MAX,
        ensures
            is_workspace_destination(*self, pol, dir, r),
    {
        if pol.walk_into_gaps {
            let c = gap_candidates(
                self.max_workspace_on_focused_output,
                &self.workspaces_on_unfocused_outputs,
            );
            self.cycle_candidates(&c, pol, dir)
        } else {
            self.cycle_candidates(&self.workspaces_on_focused_output, pol, dir)
        }
    }

    /// The destination along the output axis.
    pub fn cycle_through_outputs(&self, dir: Direction) -> (r: i32)
        ensures
            r == output_destination(*self, dir),
    {
        match dir {
            Direction::Next => self.next_workspace(&self.visible_workspace_per_output),
            Direction::Prev => {
                let rev = reversed(&self.visible_workspace_per_output);
                self.next_workspace(&rev)
            },
        }
    }
}

} // verus!
