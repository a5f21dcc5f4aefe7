//! The navigation snapshot: a compact, immutable reduction of the
//! compositor's current layout, rebuilt fresh on every invocation.

use vstd::prelude::*;

verus! {

/// One physical display, reduced to what navigation needs: its position and
/// an integer identifier standing for its unique name. The caller assigns
/// one identifier per distinct output name.
#[derive(Clone, Copy, Debug)]
pub struct OutputSummary {
    pub x_pos: i64,
    pub y_pos: i64,
    pub name_id: u64,
}

/// One workspace as the compositor reports it.
#[derive(Clone, Copy, Debug)]
pub struct WorkspaceSummary {
    /// The compositor-assigned workspace number: not necessarily contiguous,
    /// not necessarily positive.
    pub number: i32,
    /// The name identifier of the output owning this workspace.
    pub output_id: u64,
    /// Whether this workspace is the focused one.
    pub focused: bool,
    /// Whether this workspace is currently visible on its output.
    pub visible: bool,
    /// Whether this workspace holds no windows.
    pub empty: bool,
}

/// Which workspace's emptiness gates wrap-versus-create at the boundary:
/// the maximum-numbered workspace of the focused output, or the currently
/// focused workspace itself. Both conventions occur in the wild; the choice
/// is made explicit here.
#[derive(Clone, Copy, Debug, PartialEq, Eq, Structural)]
pub enum BoundaryPolicy {
    MaxWorkspace,
    CurrentWorkspace,
}

/// Why a snapshot could not be built: the compositor reported a layout in
/// which no well-defined destination exists.
#[derive(Clone, Copy, Debug, PartialEq, Eq, Structural)]
pub enum SnapshotError {
    /// No output is marked focused.
    NoFocusedOutput,
    /// The focused output reports zero workspaces.
    EmptyFocusedWorkspaceSet,
    /// No workspace is marked focused.
    NoFocusedWorkspace,
    /// The focused workspace does not belong to the focused output.
    FocusedWorkspaceElsewhere,
}

/// The navigation snapshot: everything the navigation rules read.
#[derive(Debug)]
pub struct WindowManagerState {
    /// Number of the focused workspace.
    pub current_workspace: i32,
    /// Workspace numbers on the focused output, strictly ascending.
    pub workspaces_on_focused_output: Vec<i32>,
    /// Workspace numbers on all other outputs: reserved, never to be reused.
    pub workspaces_on_unfocused_outputs: Vec<i32>,
    /// The largest number in `workspaces_on_focused_output`.
    pub max_workspace_on_focused_output: i32,
    /// Whether the boundary workspace (as chosen by the `BoundaryPolicy`)
    /// holds no windows; gates wraparound versus creation.
    pub boundary_workspace_empty: bool,
    /// For each output in order of its position, the number of its visible
    /// workspace; outputs with none visible are skipped.
    pub visible_workspace_per_output: Vec<i32>,
}

/// A sequence of numbers in strictly ascending order.
pub open spec fn strictly_sorted(s: Seq<i32>) -> bool {
    forall|i: int, j: int| 0 <= i < j < s.len() ==> s[i] < s[j]
}

impl WindowManagerState {
    /// The workspace numbers of the focused output, as a sequence.
    pub open spec fn focused_nums(self) -> Seq<i32> {
        self.workspaces_on_focused_output@
    }

    /// The numbers reserved on unfocused outputs, as a set.
    pub open spec fn reserved(self) -> Set<i32> {
        self.workspaces_on_unfocused_outputs@.to_set()
    }

    /// The invariants the snapshot builder establishes: the focused output
    /// has at least one workspace, its numbers are strictly ascending, the
    /// current workspace is among them, the recorded maximum is their last,
    /// and no number is simultaneously on the focused output and reserved
    /// elsewhere.
    pub open spec fn well_formed(self) -> bool {
        &&& self.focused_nums().len() > 0
        &&& strictly_sorted(self.focused_nums())
        &&& self.focused_nums().contains(self.current_workspace)
        &&& self.max_workspace_on_focused_output == self.focused_nums().last()
        &&& forall|n: i32| self.focused_nums().contains(n) ==> !self.reserved().contains(n)
    }
}

/// Whether `x` occurs in `v`.
pub(crate) fn vec_contains(v: &Vec<i32>, x: i32) -> (r: bool)
    ensures
        r == v@.contains(x),
{
    let mut i: usize = 0;
    while i < v.len()
        invariant
            0 <= i <= v@.len(),
            forall|k: int| 0 <= k < i ==> v@[k] != x,
        decreases v@.len() - i,
    {
        if v[i] == x {
            return true;
        }
        i = i + 1;
    }
    false
}

/// Inserts `x` into the strictly sorted vector `v`, keeping it strictly
/// sorted; a number already present is kept once.
pub(crate) fn insert_unique_sorted(v: &mut Vec<i32>, x: i32)
    requires
        strictly_sorted(old(v)@),
    ensures
        strictly_sorted(final(v)@),
        final(v)@.to_set() == old(v)@.to_set().insert(x),
{
    let mut i: usize = 0;
    while i < v.len() && v[i] < x
        invariant
            0 <= i <= v@.len(),
            v@ == old(v)@,
            forall|k: int| 0 <= k < i ==> v@[k] < x,
        decreases v@.len() - i,
    {
        i = i + 1;
    }
    if i < v.len() && v[i] == x {
        proof {
            assert(v@.to_set() =~= old(v)@.to_set().insert(x));
        }
        return ;
    }
    v.insert(i, x);
    proof {
        let s = old(v)@;
        let t = v@;
        assert(t =~= s.take(i as int).push(x) + s.skip(i as int));
        assert forall|a: int, b: int| 0 <= a < b < t.len() implies t[a] < t[b] by {
            if a < i && b > i {
                assert(s[a] < x);
                assert(t[b] == s[b - 1]);
            } else if a == i && b > i {
                assert(t[b] == s[b - 1]);
            } else if a < i && b == i {
                assert(s[a] < x);
            }
        }
        assert(t.to_set() =~= s.to_set().insert(x)) by {
            assert forall|n: i32| t.to_set().contains(n) implies s.to_set().contains(n)
                || n == x by {
                let k = choose|k: int| 0 <= k < t.len() && t[k] == n;
                if k < i {
                    assert(s[k] == n);
                } else if k > i {
                    assert(s[k - 1] == n);
                }
            }
            assert forall|n: i32| s.to_set().contains(n) implies t.to_set().contains(n) by {
                let k = choose|k: int| 0 <= k < s.len() && s[k] == n;
                if k < i {
                    assert(t[k] == n);
                } else {
                    assert(t[k + 1] == n);
                }
            }
            assert(t[i as int] == x);
        }
    }
}

/// Positional order of outputs: x-coordinate first, then y, then the name
/// identifier as a final tie-break, mirroring order by unique name.
pub open spec fn output_le(a: OutputSummary, b: OutputSummary) -> bool {
    ||| a.x_pos < b.x_pos
    ||| (a.x_pos == b.x_pos && a.y_pos < b.y_pos)
    ||| (a.x_pos == b.x_pos && a.y_pos == b.y_pos && a.name_id <= b.name_id)
}

/// `output_le` as a relation value, for use with sequence sorting.
pub open spec fn output_order() -> spec_fn(OutputSummary, OutputSummary) -> bool {
    |a: OutputSummary, b: OutputSummary| output_le(a, b)
}

pub proof fn lemma_output_order_total()
    ensures
        vstd::relations::total_ordering(output_order()),
{
}

/// The first workspace marked focused, in report order.
pub open spec fn first_focused(wss: Seq<WorkspaceSummary>) -> Option<WorkspaceSummary>
    decreases wss.len(),
{
    if wss.len() == 0 {
        None
    } else if wss.first().focused {
        Some(wss.first())
    } else {
        first_focused(wss.drop_first())
    }
}

/// The number of the first workspace visible on the output named `oid`.
pub open spec fn first_visible_num(wss: Seq<WorkspaceSummary>, oid: u64) -> Option<i32>
    decreases wss.len(),
{
    if wss.len() == 0 {
        None
    } else if wss.first().visible && wss.first().output_id == oid {
        Some(wss.first().number)
    } else {
        first_visible_num(wss.drop_first(), oid)
    }
}

/// The emptiness flag of the first workspace numbered `num` on output `oid`.
pub open spec fn first_empty_flag(wss: Seq<WorkspaceSummary>, oid: u64, num: i32) -> Option<
    bool,
>
    decreases wss.len(),
{
    if wss.len() == 0 {
        None
    } else if wss.first().output_id == oid && wss.first().number == num {
        Some(wss.first().empty)
    } else {
        first_empty_flag(wss.drop_first(), oid, num)
    }
}

/// The set of workspace numbers living on output `oid`.
pub open spec fn nums_on_output(wss: Seq<WorkspaceSummary>, oid: u64) -> Set<i32> {
    Set::new(
        |n: i32|
            exists|j: int|
                0 <= j < wss.len() && wss[j].output_id == oid && wss[j].number == n,
    )
}

/// The numbers of workspaces on outputs other than `oid`, in report order,
/// leaving out any number that also occurs in `wset`: a number belongs to
/// exactly one output, so a number reported on both sides is treated as
/// owned by the focused output.
pub open spec fn reserved_seq(wss: Seq<WorkspaceSummary>, oid: u64, wset: Set<i32>) -> Seq<
    i32,
>
    decreases wss.len(),
{
    if wss.len() == 0 {
        Seq::empty()
    } else {
        let rest = reserved_seq(wss.drop_first(), oid, wset);
        if wss.first().output_id != oid && !wset.contains(wss.first().number) {
            seq![wss.first().number] + rest
        } else {
            rest
        }
    }
}

/// For each output in `outs` order, the number of its first visible
/// workspace; outputs with none visible contribute nothing.
pub open spec fn visible_seq(outs: Seq<OutputSummary>, wss: Seq<WorkspaceSummary>) -> Seq<
    i32,
>
    decreases outs.len(),
{
    if outs.len() == 0 {
        Seq::empty()
    } else {
        let rest = visible_seq(outs.drop_first(), wss);
        match first_visible_num(wss, outs.first().name_id) {
            Some(n) => seq![n] + rest,
            None => rest,
        }
    }
}

pub proof fn lemma_first_focused_witness(wss: Seq<WorkspaceSummary>)
    requires
        first_focused(wss) is Some,
    ensures
        exists|j: int|
            0 <= j < wss.len() && wss[j] == first_focused(wss).unwrap() && wss[j].focused,
    decreases wss.len(),
{
    if wss.len() == 0 {
    } else if wss.first().focused {
        assert(wss[0] == first_focused(wss).unwrap());
    } else {
        lemma_first_focused_witness(wss.drop_first());
        let j = choose|j: int|
            0 <= j < wss.drop_first().len() && wss.drop_first()[j] == first_focused(
                wss.drop_first(),
            ).unwrap() && wss.drop_first()[j].focused;
        assert(wss[j + 1] == wss.drop_first()[j]);
    }
}

pub proof fn lemma_reserved_seq_excludes(wss: Seq<WorkspaceSummary>, oid: u64, wset: Set<i32>)
    ensures
        forall|n: i32| reserved_seq(wss, oid, wset).contains(n) ==> !wset.contains(n),
    decreases wss.len(),
{
    if wss.len() == 0 {
    } else {
        lemma_reserved_seq_excludes(wss.drop_first(), oid, wset);
        let rest = reserved_seq(wss.drop_first(), oid, wset);
        if wss.first().output_id != oid && !wset.contains(wss.first().number) {
            assert forall|n: i32| reserved_seq(wss, oid, wset).contains(n) implies !wset.contains(
                n,
            ) by {
                let k = choose|k: int|
                    0 <= k < reserved_seq(wss, oid, wset).len() && reserved_seq(wss, oid, wset)[k]
                        == n;
                if k > 0 {
                    assert(rest[k - 1] == n);
                }
            }
        }
    }
}

pub proof fn lemma_empty_flag_some(wss: Seq<WorkspaceSummary>, oid: u64, num: i32)
    requires
        exists|j: int| 0 <= j < wss.len() && wss[j].output_id == oid && wss[j].number == num,
    ensures
        first_empty_flag(wss, oid, num) is Some,
    decreases wss.len(),
{
    if wss.len() == 0 {
    } else if wss.first().output_id == oid && wss.first().number == num {
    } else {
        let j = choose|j: int|
            0 <= j < wss.len() && wss[j].output_id == oid && wss[j].number == num;
        assert(wss.drop_first()[j - 1] == wss[j]);
        lemma_empty_flag_some(wss.drop_first(), oid, num);
    }
}

/// The first workspace marked focused, scanning in report order.
pub(crate) fn find_focused_ws(wss: &Vec<WorkspaceSummary>) -> (r: Option<WorkspaceSummary>)
    ensures
        r == first_focused(wss@),
{
    let mut i: usize = 0;
    proof {
        assert(wss@.skip(0) =~= wss@);
    }
    while i < wss.len()
        invariant
            0 <= i <= wss@.len(),
            first_focused(wss@) == first_focused(wss@.skip(i as int)),
        decreases wss@.len() - i,
    {
        proof {
            assert(wss@.skip(i as int).first() == wss@[i as int]);
        }
        if wss[i].focused {
            return Some(wss[i]);
        }
        proof {
            assert(wss@.skip(i as int).drop_first() =~= wss@.skip(i + 1));
        }
        i = i + 1;
    }
    None
}

/// The number of the first workspace visible on output `oid`.
pub(crate) fn find_visible_num(wss: &Vec<WorkspaceSummary>, oid: u64) -> (r: Option<i32>)
    ensures
        r == first_visible_num(wss@, oid),
{
    let mut i: usize = 0;
    proof {
        assert(wss@.skip(0) =~= wss@);
    }
    while i < wss.len()
        invariant
            0 <= i <= wss@.len(),
            first_visible_num(wss@, oid) == first_visible_num(wss@.skip(i as int), oid),
        decreases wss@.len() - i,
    {
        proof {
            assert(wss@.skip(i as int).first() == wss@[i as int]);
        }
        if wss[i].visible && wss[i].output_id == oid {
            return Some(wss[i].number);
        }
        proof {
            assert(wss@.skip(i as int).drop_first() =~= wss@.skip(i + 1));
        }
        i = i + 1;
    }
    None
}

/// The emptiness flag of the first workspace numbered `num` on output `oid`.
pub(crate) fn find_empty_flag(wss: &Vec<WorkspaceSummary>, oid: u64, num: i32) -> (r: Option<
    bool,
>)
    ensures
        r == first_empty_flag(wss@, oid, num),
{
    let mut i: usize = 0;
    proof {
        assert(wss@.skip(0) =~= wss@);
    }
    while i < wss.len()
        invariant
            0 <= i <= wss@.len(),
            first_empty_flag(wss@, oid, num) == first_empty_flag(wss@.skip(i as int), oid, num),
        decreases wss@.len() - i,
    {
        proof {
            assert(wss@.skip(i as int).first() == wss@[i as int]);
        }
        if wss[i].output_id == oid && wss[i].number == num {
            return Some(wss[i].empty);
        }
        proof {
            assert(wss@.skip(i as int).drop_first() =~= wss@.skip(i + 1));
        }
        i = i + 1;
    }
    None
}

/// The workspace numbers on output `oid`, strictly ascending.
pub(crate) fn collect_focused_nums(wss: &Vec<WorkspaceSummary>, oid: u64) -> (w: Vec<i32>)
    ensures
        strictly_sorted(w@),
        w@.to_set() == nums_on_output(wss@, oid),
{
    let mut w: Vec<i32> = Vec::new();
    let mut i: usize = 0;
    while i < wss.len()
        invariant
            0 <= i <= wss@.len(),
            strictly_sorted(w@),
            w@.to_set() == nums_on_output(wss@.take(i as int), oid),
        decreases wss@.len() - i,
    {
        let ghost pre = w@.to_set();
        if wss[i].output_id == oid {
            insert_unique_sorted(&mut w, wss[i].number);
        }
        proof {
            let t0 = wss@.take(i as int);
            let t1 = wss@.take(i + 1);
            assert(t1.drop_last() =~= t0);
            assert(t1.last() == wss@[i as int]);
            if wss@[i as int].output_id == oid {
                assert(w@.to_set() =~= nums_on_output(t1, oid)) by {
                    assert forall|n: i32| nums_on_output(t1, oid).contains(n) implies pre.insert(
                        wss@[i as int].number,
                    ).contains(n) by {
                        let j = choose|j: int|
                            0 <= j < t1.len() && t1[j].output_id == oid && t1[j].number == n;
                        if j < i {
                            assert(t0[j] == t1[j]);
                        }
                    }
                    assert forall|n: i32|
                        pre.insert(wss@[i as int].number).contains(n) implies nums_on_output(
                        t1,
                        oid,
                    ).contains(n) by {
                        if pre.contains(n) {
                            let j = choose|j: int|
                                0 <= j < t0.len() && t0[j].output_id == oid && t0[j].number == n;
                            assert(t1[j] == t0[j]);
                        } else {
                            assert(t1[i as int].number == n);
                        }
                    }
                }
            } else {
                assert(w@.to_set() =~= nums_on_output(t1, oid)) by {
                    assert forall|n: i32| nums_on_output(t1, oid).contains(n) implies pre.contains(
                        n,
                    ) by {
                        let j = choose|j: int|
                            0 <= j < t1.len() && t1[j].output_id == oid && t1[j].number == n;
                        assert(j < i);
                        assert(t0[j] == t1[j]);
                    }
                    assert forall|n: i32| pre.contains(n) implies nums_on_output(t1, oid).contains(
                        n,
                    ) by {
                        let j = choose|j: int|
                            0 <= j < t0.len() && t0[j].output_id == oid && t0[j].number == n;
                        assert(t1[j] == t0[j]);
                    }
                }
            }
        }
        i = i + 1;
    }
    proof {
        assert(wss@.take(wss@.len() as int) =~= wss@);
    }
    w
}

/// The reserved numbers: workspaces on other outputs, with any number also
/// present in `w` left out.
pub(crate) fn collect_reserved(wss: &Vec<WorkspaceSummary>, oid: u64, w: &Vec<i32>) -> (r: Vec<
    i32,
>)
    ensures
        r@ == reserved_seq(wss@, oid, w@.to_set()),
{
    let ghost wset = w@.to_set();
    let mut r: Vec<i32> = Vec::new();
    let mut i: usize = 0;
    proof {
        assert(wss@.skip(0) =~= wss@);
        assert(Seq::<i32>::empty() + reserved_seq(wss@, oid, wset) =~= reserved_seq(
            wss@,
            oid,
            wset,
        ));
    }
    while i < wss.len()
        invariant
            0 <= i <= wss@.len(),
            wset == w@.to_set(),
            r@ + reserved_seq(wss@.skip(i as int), oid, wset) == reserved_seq(wss@, oid, wset),
        decreases wss@.len() - i,
    {
        proof {
            assert(wss@.skip(i as int).first() == wss@[i as int]);
            assert(wss@.skip(i as int).drop_first() =~= wss@.skip(i + 1));
        }
        let ghost pre = r@;
        if wss[i].output_id != oid && !vec_contains(w, wss[i].number) {
            r.push(wss[i].number);
            proof {
                assert(r@ + reserved_seq(wss@.skip(i + 1), oid, wset) =~= pre + (seq![
                    wss@[i as int].number,
                ] + reserved_seq(wss@.skip(i + 1), oid, wset)));
            }
        }
        i = i + 1;
    }
    proof {
        assert(wss@.skip(wss@.len() as int) =~= Seq::<WorkspaceSummary>::empty());
        assert(r@ =~= r@ + Seq::<i32>::empty());
    }
    r
}

/// For each output of the already position-sorted `outs`, the number of its
/// visible workspace, outputs with none visible skipped.
pub(crate) fn collect_visible(outs: &Vec<OutputSummary>, wss: &Vec<WorkspaceSummary>) -> (v: Vec<
    i32,
>)
    ensures
        v@ == visible_seq(outs@, wss@),
{
    let mut v: Vec<i32> = Vec::new();
    let mut i: usize = 0;
    proof {
        assert(outs@.skip(0) =~= outs@);
        assert(Seq::<i32>::empty() + visible_seq(outs@, wss@) =~= visible_seq(outs@, wss@));
    }
    while i < outs.len()
        invariant
            0 <= i <= outs@.len(),
            v@ + visible_seq(outs@.skip(i as int), wss@) == visible_seq(outs@, wss@),
        decreases outs@.len() - i,
    {
        proof {
            assert(outs@.skip(i as int).first() == outs@[i as int]);
            assert(outs@.skip(i as int).drop_first() =~= outs@.skip(i + 1));
        }
        let ghost pre = v@;
        match find_visible_num(wss, outs[i].name_id) {
            Some(n) => {
                v.push(n);
                proof {
                    assert(v@ + visible_seq(outs@.skip(i + 1), wss@) =~= pre + (seq![n]
                        + visible_seq(outs@.skip(i + 1), wss@)));
                }
            },
            None => {},
        }
        i = i + 1;
    }
    proof {
        assert(outs@.skip(outs@.len() as int) =~= Seq::<OutputSummary>::empty());
        assert(v@ =~= v@ + Seq::<i32>::empty());
    }
    v
}

/// `output_le` as executable comparison.
pub(crate) fn output_le_exec(a: &OutputSummary, b: &OutputSummary) -> (r: bool)
    ensures
        r == output_le(*a, *b),
{
    a.x_pos < b.x_pos || (a.x_pos == b.x_pos && a.y_pos < b.y_pos) || (a.x_pos == b.x_pos
        && a.y_pos == b.y_pos && a.name_id <= b.name_id)
}

/// Sorts outputs by position: x ascending, then y, then name identifier.
pub(crate) fn sort_outputs(outs: &Vec<OutputSummary>) -> (r: Vec<OutputSummary>)
    ensures
        r@ == outs@.sort_by(output_order()),
{
    let mut r: Vec<OutputSummary> = Vec::new();
    let mut i: usize = 0;
    proof {
        broadcast use vstd::seq_lib::group_to_multiset_ensures;

        assert(outs@.take(0) =~= Seq::<OutputSummary>::empty());
        assert(r@.to_multiset() =~= outs@.take(0).to_multiset());
    }
    while i < outs.len()
        invariant
            0 <= i <= outs@.len(),
            vstd::relations::sorted_by(r@, output_order()),
            r@.to_multiset() == outs@.take(i as int).to_multiset(),
        decreases outs@.len() - i,
    {
        let o = outs[i];
        let mut k: usize = 0;
        while k < r.len() && output_le_exec(&r[k], &o)
            invariant
                0 <= k <= r@.len(),
                forall|m: int| 0 <= m < k ==> output_le(r@[m], o),
            decreases r@.len() - k,
        {
            k = k + 1;
        }
        let ghost pre = r@;
        r.insert(k, o);
        proof {
            broadcast use vstd::seq_lib::group_to_multiset_ensures;

            let ord = output_order();
            assert(outs@.take(i + 1).drop_last() =~= outs@.take(i as int));
            assert(outs@.take(i + 1).last() == outs@[i as int]);
            assert(outs@.take(i + 1) =~= outs@.take(i as int).push(outs@[i as int]));
            assert(r@.to_multiset() =~= outs@.take(i + 1).to_multiset());
            assert forall|a: int, b: int| 0 <= a < b < r@.len() implies ord(r@[a], r@[b]) by {
                if a < k && b > k {
                    assert(r@[b] == pre[b - 1]);
                    assert(ord(pre[a], o));
                } else if a == k && b > k {
                    assert(r@[b] == pre[b - 1]);
                    if k < pre.len() {
                        assert(!output_le(pre[k as int], o));
                        assert(output_le(o, pre[k as int]));
                        if b - 1 > k {
                            assert(ord(pre[k as int], pre[b - 1]));
                        }
                    }
                } else if a < k && b == k {
                    assert(ord(pre[a], o));
                } else if a > k || b < k {
                    assert(r@[a] == pre[a - (if a > k { 1int } else { 0int })]);
                }
            }
        }
        i = i + 1;
    }
    proof {
        assert(outs@.take(outs@.len() as int) =~= outs@);
        lemma_output_order_total();
        outs@.lemma_sort_by_ensures(output_order());
        vstd::seq_lib::lemma_sorted_unique(r@, outs@.sort_by(output_order()), output_order());
    }
    r
}

/// What a successfully built snapshot holds, given the focused output `f`
/// and the focused workspace `w`.
pub open spec fn is_snapshot_for(
    st: WindowManagerState,
    f: u64,
    outs: Seq<OutputSummary>,
    wss: Seq<WorkspaceSummary>,
    boundary: BoundaryPolicy,
    w: WorkspaceSummary,
) -> bool {
    let bnum = match boundary {
        BoundaryPolicy::MaxWorkspace => st.max_workspace_on_focused_output,
        BoundaryPolicy::CurrentWorkspace => st.current_workspace,
    };
    &&& st.current_workspace == w.number
    &&& strictly_sorted(st.focused_nums())
    &&& st.focused_nums().to_set() == nums_on_output(wss, f)
    &&& st.workspaces_on_unfocused_outputs@ == reserved_seq(wss, f, nums_on_output(wss, f))
    &&& st.max_workspace_on_focused_output == st.focused_nums().last()
    &&& Some(st.boundary_workspace_empty) == first_empty_flag(wss, f, bnum)
    &&& st.visible_workspace_per_output@ == visible_seq(outs.sort_by(output_order()), wss)
}

/// The builder's whole contract: which error comes on which input, and what
/// the snapshot holds on success.
pub open spec fn snapshot_spec(
    focused_output: Option<u64>,
    outs: Seq<OutputSummary>,
    wss: Seq<WorkspaceSummary>,
    boundary: BoundaryPolicy,
    r: Result<WindowManagerState, SnapshotError>,
) -> bool {
    match focused_output {
        None => r == Err::<WindowManagerState, SnapshotError>(SnapshotError::NoFocusedOutput),
        Some(f) => if nums_on_output(wss, f) =~= Set::<i32>::empty() {
            r == Err::<WindowManagerState, SnapshotError>(SnapshotError::EmptyFocusedWorkspaceSet)
        } else {
            match first_focused(wss) {
                None => r == Err::<WindowManagerState, SnapshotError>(
                    SnapshotError::NoFocusedWorkspace,
                ),
                Some(w) => if w.output_id != f {
                    r == Err::<WindowManagerState, SnapshotError>(
                        SnapshotError::FocusedWorkspaceElsewhere,
                    )
                } else {
                    r matches Ok(st) && is_snapshot_for(st, f, outs, wss, boundary, w)
                },
            }
        },
    }
}

impl WindowManagerState {
    /// Builds the navigation snapshot from the compositor's reports: the
    /// focused output's name identifier (if any output is focused), the
    /// output list, and the workspace list. Fails exactly when the layout is
    /// inconsistent: no focused output, no workspace on the focused output,
    /// no focused workspace, or a focused workspace owned by another output.
    pub fn from_summaries(
        focused_output: Option<u64>,
        outputs: &Vec<OutputSummary>,
        workspaces: &Vec<WorkspaceSummary>,
        boundary: BoundaryPolicy,
    ) -> (r: Result<WindowManagerState, SnapshotError>)
        ensures
            snapshot_spec(focused_output, outputs@, workspaces@, boundary, r),
            r matches Ok(st) ==> st.well_formed(),
    {
        let f: u64 = match focused_output {
            Some(f) => f,
            None => {
                return Err(SnapshotError::NoFocusedOutput);
            },
        };
        let focused_nums = collect_focused_nums(workspaces, f);
        if focused_nums.len() == 0 {
            proof {
                assert(focused_nums@.to_set() =~= Set::<i32>::empty());
            }
            return Err(SnapshotError::EmptyFocusedWorkspaceSet);
        }
        proof {
            assert(focused_nums@.to_set().contains(focused_nums@[0]));
            assert(!(nums_on_output(workspaces@, f) =~= Set::<i32>::empty()));
        }
        let wfoc: WorkspaceSummary = match find_focused_ws(workspaces) {
            Some(w) => w,
            None => {
                return Err(SnapshotError::NoFocusedWorkspace);
            },
        };
        if wfoc.output_id != f {
            return Err(SnapshotError::FocusedWorkspaceElsewhere);
        }
        let reserved = collect_reserved(workspaces, f, &focused_nums);
        let max = focused_nums[focused_nums.len() - 1];
        let bnum = match boundary {
            BoundaryPolicy::MaxWorkspace => max,
            BoundaryPolicy::CurrentWorkspace => wfoc.number,
        };
        proof {
            lemma_first_focused_witness(workspaces@);
            assert(nums_on_output(workspaces@, f).contains(wfoc.number));
            assert(focused_nums@.to_set().contains(max));
            assert(nums_on_output(workspaces@, f).contains(bnum));
            lemma_empty_flag_some(workspaces@, f, bnum);
        }
        let flag: bool = match find_empty_flag(workspaces, f, bnum) {
            Some(b) => b,
            None => false,
        };
        let sorted_outs = sort_outputs(outputs);
        let visible = collect_visible(&sorted_outs, workspaces);
        let st = WindowManagerState {
            current_workspace: wfoc.number,
            workspaces_on_focused_output: focused_nums,
            workspaces_on_unfocused_outputs: reserved,
            max_workspace_on_focused_output: max,
            boundary_workspace_empty: flag,
            visible_workspace_per_output: visible,
        };
        proof {
            lemma_reserved_seq_excludes(workspaces@, f, st.focused_nums().to_set());
            assert(st.focused_nums().contains(st.current_workspace));
            assert forall|n: i32| st.focused_nums().contains(n) implies !st.reserved().contains(
                n,
            ) by {
                if st.reserved().contains(n) {
                    assert(st.workspaces_on_unfocused_outputs@.contains(n));
                    assert(st.focused_nums().to_set().contains(n));
                }
            }
        }
        Ok(st)
    }
}

} // verus!
