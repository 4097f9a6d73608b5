//! The decisions of the quest steps editor: which steps are selected, in which order
//! they are stacked on screen, and how a click on a step's input or output changes
//! the connections between steps. Drawing and pointer geometry stay with the
//! caller, which reports what was clicked, dragged or crossed.
use vstd::prelude::*;
use crate::quest::{connections_added, connections_removed, empty_step, QuestStep, QuestStepView};
use crate::vec_util::copy_vec;

verus! {

/// How the editor is connecting or disconnecting steps.
#[derive(Clone, Debug, PartialEq, Eq, PartialOrd, Ord)]
pub enum NodeEditorConnectionState {
    /// Nothing is under way.
    Idle,
    /// A connection is being drawn from the output of a step.
    CreatingFrom(usize),
    /// A connection from step `from` into step `to` is to be made.
    CreateFrom { from: usize, to: usize },
    /// A connection is being drawn from the input of a step.
    CreatingTo(usize),
    /// Every connection out of a step is being removed.
    RemoveConnectionsTo(usize),
    /// The listed connections (step, step it comes from) are being removed.
    RemoveConnections(Vec<(usize, usize)>),
}

impl Default for NodeEditorConnectionState {
    fn default() -> (r: Self)
        ensures
            r is Idle,
    {
        NodeEditorConnectionState::Idle
    }
}

/// What the editor does once the input of a frame is read.
#[derive(Clone, Copy, Debug, PartialEq, Eq, Structural)]
pub enum NodeAction {
    /// Nothing to do.
    Idle,
    /// Draw the step at this stack position on top of the others.
    MoveToStackTop(usize),
    /// Delete the selected steps.
    DeleteNodes,
    /// Add an empty step.
    AddNode,
}

/// The values of the steps.
pub open spec fn step_views(s: Seq<QuestStep>) -> Seq<QuestStepView> {
    s.map_values(|q: QuestStep| q@)
}

/// The step list after dropping the connection from step `i`, a stack position that
/// may be out of the range of step numbers.
pub open spec fn without_input(prev: Seq<u32>, i: usize) -> Seq<u32> {
    if i <= u32::MAX {
        connections_removed(prev, i as u32)
    } else {
        prev
    }
}

/// A step with other incoming connections.
pub open spec fn with_prev(s: QuestStepView, prev: Seq<u32>) -> QuestStepView {
    QuestStepView { prev_steps: prev, ..s }
}

/// The steps after the listed connections (step, step it comes from) are dropped,
/// in order.
pub open spec fn pairs_removed(steps: Seq<QuestStepView>, pairs: Seq<(usize, usize)>) -> Seq<QuestStepView>
    decreases pairs.len(),
{
    if pairs.len() == 0 {
        steps
    } else {
        let s = pairs_removed(steps, pairs.drop_last());
        let (f, p) = pairs.last();
        s.update(f as int, with_prev(s[f as int], without_input(s[f as int].prev_steps, p)))
    }
}

/// The steps after the connection state has been applied for a frame.
pub open spec fn steps_after_state(state: NodeEditorConnectionState, steps: Seq<QuestStepView>) -> Seq<QuestStepView> {
    match state {
        NodeEditorConnectionState::RemoveConnectionsTo(i) => steps.map_values(
            |s: QuestStepView| with_prev(s, without_input(s.prev_steps, i)),
        ),
        NodeEditorConnectionState::RemoveConnections(v) => pairs_removed(steps, v@),
        NodeEditorConnectionState::CreateFrom { from, to } => if to < steps.len() {
            steps.update(to as int, with_prev(steps[to as int], connections_added(steps[to as int].prev_steps, from as u32)))
        } else {
            steps
        },
        _ => steps,
    }
}

/// The connection state after the input of step `node` is clicked.
pub open spec fn state_after_input_click(state: NodeEditorConnectionState, node: usize) -> NodeEditorConnectionState {
    match state {
        NodeEditorConnectionState::Idle => NodeEditorConnectionState::CreatingTo(node),
        NodeEditorConnectionState::CreatingFrom(_) => NodeEditorConnectionState::Idle,
        NodeEditorConnectionState::CreatingTo(_) => NodeEditorConnectionState::Idle,
        _ => state,
    }
}

/// The steps after the input of step `node` is clicked: a connection drawn from
/// another step's output is made into `node`.
pub open spec fn steps_after_input_click(
    state: NodeEditorConnectionState,
    node: usize,
    steps: Seq<QuestStepView>,
) -> Seq<QuestStepView> {
    match state {
        NodeEditorConnectionState::CreatingFrom(ii) => if ii != node {
            steps.update(node as int, with_prev(steps[node as int], connections_added(steps[node as int].prev_steps, ii as u32)))
        } else {
            steps
        },
        _ => steps,
    }
}

/// The connection state after the output of step `node` is clicked.
pub open spec fn state_after_output_click(state: NodeEditorConnectionState, node: usize) -> NodeEditorConnectionState {
    match state {
        NodeEditorConnectionState::Idle => NodeEditorConnectionState::CreatingFrom(node),
        NodeEditorConnectionState::CreatingFrom(_) => NodeEditorConnectionState::Idle,
        NodeEditorConnectionState::CreatingTo(ii) => if ii != node {
            NodeEditorConnectionState::CreateFrom { from: node, to: ii }
        } else {
            NodeEditorConnectionState::Idle
        },
        _ => state,
    }
}

/// Whether a connection state can be applied to `len` steps: the removed pairs name
/// existing steps, and a connection to be made names a step number.
pub open spec fn state_applicable(state: NodeEditorConnectionState, len: nat) -> bool {
    match state {
        NodeEditorConnectionState::RemoveConnections(v) => forall|k: int| 0 <= k < v@.len() ==> (#[trigger] v@[k]).0 < len,
        NodeEditorConnectionState::CreateFrom { from, to } => from <= u32::MAX,
        _ => true,
    }
}

/// The selection after each step of `hits` has been boxed in order, starting from
/// `sel`.
pub open spec fn box_steps(sel: Seq<usize>, hits: Seq<usize>, alt: bool, shift: bool) -> Seq<usize>
    decreases hits.len(),
{
    if hits.len() == 0 {
        sel
    } else {
        let p = box_steps(sel, hits.drop_last(), alt, shift);
        let h = hits.last();
        if alt {
            p.filter(|v: usize| v != h)
        } else if !shift || !p.contains(h) {
            p.push(h)
        } else {
            p
        }
    }
}

/// The selection after a box covers `hits`: a plain box first empties it.
pub open spec fn box_selection(sel: Seq<usize>, hits: Seq<usize>, alt: bool, shift: bool) -> Seq<usize> {
    box_steps(if !shift && !alt { Seq::<usize>::empty() } else { sel }, hits, alt, shift)
}

/// Dropping an element keeps a sequence free of repeats.
pub proof fn lemma_filter_no_duplicates(s: Seq<usize>, pred: spec_fn(usize) -> bool)
    requires
        s.no_duplicates(),
    ensures
        s.filter(pred).no_duplicates(),
    decreases s.len(),
{
    reveal(Seq::filter);
    if s.len() > 0 {
        let d = s.drop_last();
        assert(d.no_duplicates()) by {
            assert forall|i: int, j: int| 0 <= i < d.len() && 0 <= j < d.len() && i != j implies d[i] != d[j] by {
                assert(d[i] == s[i] && d[j] == s[j]);
            }
        }
        lemma_filter_no_duplicates(d, pred);
        let f = d.filter(pred);
        if pred(s.last()) {
            if f.contains(s.last()) {
                d.lemma_filter_contains_rev(pred, s.last());
                let k = choose|k: int| 0 <= k < d.len() && d[k] == s.last();
                assert(s[k] == s[s.len() - 1]);
            }
            let g = f.push(s.last());
            assert forall|i: int, j: int| 0 <= i < g.len() && 0 <= j < g.len() && i != j implies g[i] != g[j] by {
                if i < f.len() && j < f.len() {
                    assert(g[i] == f[i] && g[j] == f[j]);
                } else if i == f.len() {
                    assert(g[j] == f[j]);
                    assert(f.contains(f[j]));
                } else {
                    assert(g[i] == f[i]);
                    assert(f.contains(f[i]));
                }
            }
        }
    }
}

/// Whether position `p` holds the first occurrence of its value.
pub open spec fn is_first(s: Seq<usize>, p: int) -> bool {
    forall|j: int| 0 <= j < p ==> s[j] != s[p]
}

/// The stack positions below `upto` of the selected steps (first occurrences), in
/// ascending order.
pub open spec fn deleted_positions(stack: Seq<usize>, sel: Seq<usize>, upto: int) -> Seq<usize>
    decreases upto,
{
    if upto <= 0 {
        seq![]
    } else {
        let p = deleted_positions(stack, sel, upto - 1);
        let q = upto - 1;
        if sel.contains(stack[q]) && is_first(stack, q) {
            p.push(q as usize)
        } else {
            p
        }
    }
}

/// The stack after the entry at `idx` is removed and the step numbers above the
/// removed one are moved down by one.
pub open spec fn renumbered_after(stack: Seq<usize>, idx: int) -> Seq<usize> {
    let n = stack[idx];
    stack.remove(idx).map_values(|v: usize| if v > n { (v - 1) as usize } else { v })
}

/// The stack after the entries at the ascending positions `pos` are removed, the
/// highest position first.
pub open spec fn remove_positions(stack: Seq<usize>, pos: Seq<usize>) -> Seq<usize>
    decreases pos.len(),
{
    if pos.len() == 0 {
        stack
    } else {
        remove_positions(renumbered_after(stack, pos.last() as int), pos.drop_last())
    }
}

/// The stack after the selected steps are deleted.
pub open spec fn stack_after_delete(stack: Seq<usize>, sel: Seq<usize>) -> Seq<usize> {
    remove_positions(stack, deleted_positions(stack, sel, stack.len() as int))
}

/// Whether a sequence is in ascending order.
pub open spec fn ascending(s: Seq<usize>) -> bool {
    forall|i: int, j: int| 0 <= i < j < s.len() ==> s[i] <= s[j]
}

/// The deleted positions ascend strictly and lie below `upto`.
pub proof fn lemma_deleted_positions(stack: Seq<usize>, sel: Seq<usize>, upto: int)
    requires
        upto <= stack.len(),
        upto <= usize::MAX,
    ensures
        forall|i: int, j: int|
            0 <= i < j < deleted_positions(stack, sel, upto).len() ==> deleted_positions(stack, sel, upto)[i]
                < deleted_positions(stack, sel, upto)[j],
        forall|i: int|
            0 <= i < deleted_positions(stack, sel, upto).len() ==> deleted_positions(stack, sel, upto)[i] < upto,
        forall|i: int|
            0 <= i < deleted_positions(stack, sel, upto).len() ==> deleted_positions(stack, sel, upto)[i]
                + (deleted_positions(stack, sel, upto).len() - i) <= upto,
    decreases upto,
{
    if upto > 0 {
        lemma_deleted_positions(stack, sel, upto - 1);
        let p = deleted_positions(stack, sel, upto - 1);
        let q = upto - 1;
        if sel.contains(stack[q]) && is_first(stack, q) {
            let r = p.push(q as usize);
            assert(deleted_positions(stack, sel, upto) == r);
            assert forall|i: int, j: int| 0 <= i < j < r.len() implies r[i] < r[j] by {
                if j < p.len() {
                    assert(r[i] == p[i] && r[j] == p[j]);
                } else {
                    assert(r[i] == p[i]);
                }
            }
            assert forall|i: int| 0 <= i < r.len() implies r[i] < upto && r[i] + (r.len() - i) <= upto by {
                if i < p.len() {
                    assert(r[i] == p[i]);
                }
            }
        }
    }
}

/// The elements of `v` in ascending order.
pub fn sorted_copy(v: &Vec<usize>) -> (r: Vec<usize>)
    ensures
        ascending(r@),
        r@.to_multiset() == v@.to_multiset(),
{
    let mut r: Vec<usize> = Vec::new();
    let mut i: usize = 0;
    proof {
        assert(v@.take(0) =~= Seq::<usize>::empty());
    }
    while i < v.len()
        invariant
            i <= v@.len(),
            ascending(r@),
            r@.to_multiset() == v@.take(i as int).to_multiset(),
        decreases v@.len() - i,
    {
        let x = v[i];
        let mut pos: usize = 0;
        while pos < r.len() && r[pos] <= x
            invariant
                pos <= r@.len(),
                forall|k: int| 0 <= k < pos ==> r@[k] <= x,
            decreases r@.len() - pos,
        {
            pos += 1;
        }
        let ghost before = r@;
        r.insert(pos, x);
        proof {
            broadcast use vstd::seq_lib::group_to_multiset_ensures;
            assert(r@ == before.insert(pos as int, x));
            assert(r@.to_multiset() == before.to_multiset().insert(x));
            assert(v@.take(i as int).push(x).to_multiset() == v@.take(i as int).to_multiset().insert(x));
            assert forall|a: int, b: int| 0 <= a < b < r@.len() implies r@[a] <= r@[b] by {
                if a < pos && b < pos {
                    assert(r@[a] == before[a] && r@[b] == before[b]);
                } else if a < pos && b == pos {
                    assert(r@[a] == before[a]);
                } else if a < pos {
                    assert(r@[a] == before[a] && r@[b] == before[b - 1]);
                } else if a == pos {
                    assert(r@[b] == before[b - 1]);
                    assert(before[pos as int] > x);
                } else {
                    assert(r@[a] == before[a - 1] && r@[b] == before[b - 1]);
                }
            }
            assert(v@.take(i + 1) =~= v@.take(i as int).push(x));
        }
        i += 1;
    }
    proof {
        assert(v@.take(v@.len() as int) =~= v@);
    }
    r
}

/// Whether `x` occurs in `v`.
pub fn contains_index(v: &Vec<usize>, x: usize) -> (r: bool)
    ensures
        r == v@.contains(x),
{
    let mut i: usize = 0;
    while i < v.len()
        invariant
            i <= v@.len(),
            forall|k: int| 0 <= k < i ==> v@[k] != x,
        decreases v@.len() - i,
    {
        if v[i] == x {
            return true;
        }
        i += 1;
    }
    false
}

/// The elements of `v` other than `x`, in order.
pub fn without_index(v: &Vec<usize>, x: usize) -> (r: Vec<usize>)
    ensures
        r@ == v@.filter(|y: usize| y != x),
{
    let mut r: Vec<usize> = Vec::new();
    let mut i: usize = 0;
    while i < v.len()
        invariant
            i <= v@.len(),
            r@ == v@.take(i as int).filter(|y: usize| y != x),
        decreases v@.len() - i,
    {
        proof {
            assert(v@.take(i + 1).drop_last() =~= v@.take(i as int));
            reveal(Seq::filter);
        }
        if v[i] != x {
            r.push(v[i]);
        }
        i += 1;
    }
    proof {
        assert(v@.take(v@.len() as int) =~= v@);
    }
    r
}

/// The editor's state between frames. The selection never names a step twice.
pub struct StepsEditorState {
    action: NodeAction,
    state: NodeEditorConnectionState,
    selected_nodes: Vec<usize>,
    stack: Vec<usize>,
}

/// The value of the editor's state.
pub struct StepsEditorView {
    pub action: NodeAction,
    pub state: NodeEditorConnectionState,
    pub selected: Seq<usize>,
    pub stack: Seq<usize>,
}

impl View for StepsEditorState {
    type V = StepsEditorView;

    closed spec fn view(&self) -> StepsEditorView {
        StepsEditorView {
            action: self.action,
            state: self.state,
            selected: self.selected_nodes@,
            stack: self.stack@,
        }
    }
}

impl StepsEditorState {
    /// The selection names no step twice.
    pub open spec fn wf(&self) -> bool {
        self@.selected.no_duplicates()
    }

    /// An editor with nothing selected, stacked or under way.
    pub fn new() -> (r: Self)
        ensures
            r.wf(),
            r@.action == NodeAction::Idle,
            r@.state is Idle,
            r@.selected == Seq::<usize>::empty(),
            r@.stack == Seq::<usize>::empty(),
    {
        StepsEditorState {
            action: NodeAction::Idle,
            state: NodeEditorConnectionState::Idle,
            selected_nodes: Vec::new(),
            stack: Vec::new(),
        }
    }

    /// The pending action.
    pub fn action(&self) -> (r: NodeAction)
        ensures
            r == self@.action,
    {
        self.action
    }

    /// The connection state.
    pub fn state(&self) -> (r: &NodeEditorConnectionState)
        ensures
            *r == self@.state,
    {
        &self.state
    }

    /// The selected steps, in the order they were selected.
    pub fn selected_nodes(&self) -> (r: Vec<usize>)
        ensures
            r@ == self@.selected,
    {
        copy_vec(&self.selected_nodes)
    }

    /// The steps in drawing order, the last on top.
    pub fn stack(&self) -> (r: Vec<usize>)
        ensures
            r@ == self@.stack,
    {
        copy_vec(&self.stack)
    }

    /// Whether `node` is selected.
    pub fn is_selected(&self, node: usize) -> (r: bool)
        ensures
            r == self@.selected.contains(node),
    {
        contains_index(&self.selected_nodes, node)
    }

    /// Restacks the steps in their own order, and clears the selection, where the
    /// stack does not hold one entry per step.
    pub fn sync_stack(&mut self, n: usize)
        requires
            old(self).wf(),
        ensures
            final(self).wf(),
            old(self)@.stack.len() != n ==> final(self)@.stack == Seq::new(n as nat, |i: int| i as usize)
                && final(self)@.selected == Seq::<usize>::empty(),
            old(self)@.stack.len() == n ==> final(self)@.stack == old(self)@.stack
                && final(self)@.selected == old(self)@.selected,
            final(self)@.state == old(self)@.state,
            final(self)@.action == old(self)@.action,
    {
        if self.stack.len() != n {
            self.selected_nodes.clear();
            let mut s: Vec<usize> = Vec::new();
            let mut i: usize = 0;
            while i < n
                invariant
                    i <= n,
                    s@ =~= Seq::new(i as nat, |k: int| k as usize),
                decreases n - i,
            {
                s.push(i);
                i += 1;
            }
            self.stack = s;
        }
    }

    /// Whether a connection is under way (the state is not `Idle`).
    pub fn is_connecting(&self) -> (r: bool)
        ensures
            r == !(self@.state is Idle),
    {
        match self.state {
            NodeEditorConnectionState::Idle => false,
            _ => true,
        }
    }

    /// Abandons the connection under way.
    pub fn cancel_connection(&mut self)
        requires
            old(self).wf(),
        ensures
            final(self).wf(),
            final(self)@ == (StepsEditorView { state: NodeEditorConnectionState::Idle, ..old(self)@ }),
    {
        self.state = NodeEditorConnectionState::Idle;
    }

    /// Applies the connection state to the steps, as each frame does: removals are
    /// made again every frame until the state changes, and a connection to be made
    /// into an existing step is made once, which ends the state.
    pub fn apply_connection_state(&mut self, nodes: &mut Vec<QuestStep>)
        requires
            old(self).wf(),
            state_applicable(old(self)@.state, old(nodes)@.len()),
        ensures
            final(self).wf(),
            step_views(final(nodes)@) == steps_after_state(old(self)@.state, step_views(old(nodes)@)),
            final(self)@ == (match old(self)@.state {
                NodeEditorConnectionState::CreateFrom { from, to } => if to < old(nodes)@.len() {
                    StepsEditorView { state: NodeEditorConnectionState::Idle, ..old(self)@ }
                } else {
                    old(self)@
                },
                _ => old(self)@,
            }),
    {
        let ghost steps0 = step_views(nodes@);
        match &self.state {
            NodeEditorConnectionState::RemoveConnectionsTo(i) => {
                let i = *i;
                let n = nodes.len();
                let mut k: usize = 0;
                while k < n
                    invariant
                        k <= n,
                        n == nodes@.len(),
                        steps0.len() == n,
                        step_views(nodes@) =~= Seq::new(
                            n as nat,
                            |j: int| if j < k { with_prev(steps0[j], without_input(steps0[j].prev_steps, i)) } else { steps0[j] },
                        ),
                    decreases n - k,
                {
                    let ghost before = step_views(nodes@);
                    proof {
                        assert(before[k as int] == steps0[k as int]);
                    }
                    if i <= 0xffff_ffffusize {
                        nodes[k].remove_input_connection(i as u32);
                    }
                    proof {
                        assert(step_views(nodes@) =~= before.update(
                            k as int,
                            with_prev(steps0[k as int], without_input(steps0[k as int].prev_steps, i)),
                        ));
                    }
                    k += 1;
                }
            },
            NodeEditorConnectionState::RemoveConnections(v) => {
                let mut k: usize = 0;
                proof {
                    assert(v@.take(0) =~= Seq::<(usize, usize)>::empty());
                }
                while k < v.len()
                    invariant
                        k <= v@.len(),
                        nodes@.len() == steps0.len(),
                        forall|j: int| 0 <= j < v@.len() ==> (#[trigger] v@[j]).0 < steps0.len(),
                        step_views(nodes@) == pairs_removed(steps0, v@.take(k as int)),
                    decreases v@.len() - k,
                {
                    let (f, p) = v[k];
                    proof {
                        assert(v@.take(k + 1).drop_last() =~= v@.take(k as int));
                        assert(v@.take(k + 1).last() == v@[k as int]);
                    }
                    if p <= 0xffff_ffffusize {
                        nodes[f].remove_input_connection(p as u32);
                    }
                    proof {
                        assert(step_views(nodes@) =~= pairs_removed(steps0, v@.take(k + 1)));
                    }
                    k += 1;
                }
                proof {
                    assert(v@.take(v@.len() as int) =~= v@);
                }
            },
            NodeEditorConnectionState::CreateFrom { from, to } => {
                let from = *from;
                let to = *to;
                if to < nodes.len() {
                    nodes[to].add_connection(from as u32);
                    self.state = NodeEditorConnectionState::Idle;
                    proof {
                        assert(step_views(nodes@) =~= steps_after_state(old(self)@.state, steps0));
                    }
                }
            },
            _ => {},
        }
    }

    /// A step is dragged without Alt (with Alt it moves alone and the selection
    /// stays): it joins the selection, which Shift keeps and no Shift empties first.
    pub fn node_dragged(&mut self, node: usize, shift: bool)
        requires
            old(self).wf(),
        ensures
            final(self).wf(),
            final(self)@.selected == (if old(self)@.selected.contains(node) {
                old(self)@.selected
            } else if shift {
                old(self)@.selected.push(node)
            } else {
                seq![node]
            }),
            final(self)@.stack == old(self)@.stack,
            final(self)@.state == old(self)@.state,
            final(self)@.action == old(self)@.action,
    {
        if !contains_index(&self.selected_nodes, node) {
            if !shift {
                self.selected_nodes.clear();
            }
            self.selected_nodes.push(node);
            proof {
                if !shift {
                    assert(self.selected_nodes@ =~= seq![node]);
                }
            }
        }
    }

    /// A step at stack position `stack_index` is clicked: it is to be drawn on top,
    /// and Alt takes it out of the selection, Shift adds it, and a plain click
    /// selects it alone.
    pub fn node_clicked(&mut self, stack_index: usize, node: usize, alt: bool, shift: bool)
        requires
            old(self).wf(),
        ensures
            final(self).wf(),
            final(self)@.action == NodeAction::MoveToStackTop(stack_index),
            final(self)@.selected == (if alt {
                old(self)@.selected.filter(|v: usize| v != node)
            } else if shift && !old(self)@.selected.contains(node) {
                old(self)@.selected.push(node)
            } else {
                seq![node]
            }),
            final(self)@.stack == old(self)@.stack,
            final(self)@.state == old(self)@.state,
    {
        self.action = NodeAction::MoveToStackTop(stack_index);
        if alt {
            let r = without_index(&self.selected_nodes, node);
            proof {
                lemma_filter_no_duplicates(self.selected_nodes@, |v: usize| v != node);
            }
            self.selected_nodes = r;
        } else if shift && !contains_index(&self.selected_nodes, node) {
            self.selected_nodes.push(node);
        } else {
            self.selected_nodes.clear();
            self.selected_nodes.push(node);
            proof {
                assert(self.selected_nodes@ =~= seq![node]);
            }
        }
    }

    /// The input of a step is dragged: a connection is drawn from it.
    pub fn input_dragged(&mut self, node: usize)
        requires
            old(self).wf(),
        ensures
            final(self).wf(),
            final(self)@ == (StepsEditorView { state: NodeEditorConnectionState::CreatingTo(node), ..old(self)@ }),
    {
        self.state = NodeEditorConnectionState::CreatingTo(node);
    }

    /// The output of a step is dragged: a connection is drawn from it.
    pub fn output_dragged(&mut self, node: usize)
        requires
            old(self).wf(),
        ensures
            final(self).wf(),
            final(self)@ == (StepsEditorView { state: NodeEditorConnectionState::CreatingFrom(node), ..old(self)@ }),
    {
        self.state = NodeEditorConnectionState::CreatingFrom(node);
    }

    /// The output of a step is clicked with the secondary button: its outgoing
    /// connections are to be removed.
    pub fn output_secondary_clicked(&mut self, node: usize)
        requires
            old(self).wf(),
        ensures
            final(self).wf(),
            final(self)@ == (StepsEditorView { state: NodeEditorConnectionState::RemoveConnectionsTo(node), ..old(self)@ }),
    {
        self.state = NodeEditorConnectionState::RemoveConnectionsTo(node);
    }

    /// The input of step `node` is clicked: it starts a connection into the step, or
    /// completes one drawn from another step's output, or cancels one drawn from
    /// an input.
    pub fn input_clicked(&mut self, node: usize, nodes: &mut Vec<QuestStep>)
        requires
            old(self).wf(),
            node < old(nodes)@.len(),
            old(self)@.state matches NodeEditorConnectionState::CreatingFrom(ii) ==> ii <= u32::MAX,
        ensures
            final(self).wf(),
            final(self)@ == (StepsEditorView { state: state_after_input_click(old(self)@.state, node), ..old(self)@ }),
            step_views(final(nodes)@) == steps_after_input_click(old(self)@.state, node, step_views(old(nodes)@)),
    {
        let ghost steps0 = step_views(nodes@);
        match &self.state {
            NodeEditorConnectionState::Idle => {
                self.state = NodeEditorConnectionState::CreatingTo(node);
            },
            NodeEditorConnectionState::CreatingFrom(ii) => {
                let ii = *ii;
                if ii != node {
                    nodes[node].add_connection(ii as u32);
                    proof {
                        assert(step_views(nodes@) =~= steps0.update(
                            node as int,
                            with_prev(old(nodes)@[node as int]@, connections_added(old(nodes)@[node as int].prev_steps@, ii as u32)),
                        ));
                    }
                }
                self.state = NodeEditorConnectionState::Idle;
            },
            NodeEditorConnectionState::CreatingTo(_) => {
                self.state = NodeEditorConnectionState::Idle;
            },
            _ => {},
        }
    }

    /// The input of step `node` is clicked with the secondary button: every
    /// connection into it is removed.
    pub fn input_secondary_clicked(&self, node: usize, nodes: &mut Vec<QuestStep>)
        requires
            node < old(nodes)@.len(),
        ensures
            step_views(final(nodes)@) == step_views(old(nodes)@).update(
                node as int,
                with_prev(old(nodes)@[node as int]@, Seq::<u32>::empty()),
            ),
    {
        let ghost steps0 = step_views(nodes@);
        nodes[node].remove_all_input_connection();
        proof {
            assert(step_views(nodes@) =~= steps0.update(
                node as int,
                with_prev(old(nodes)@[node as int]@, Seq::<u32>::empty()),
            ));
        }
    }

    /// The output of step `node` is clicked: it starts a connection out of the step,
    /// or completes one drawn from another step's input (the connection is made on
    /// the next frame), or cancels one drawn from an output.
    pub fn output_clicked(&mut self, node: usize)
        requires
            old(self).wf(),
        ensures
            final(self).wf(),
            final(self)@ == (StepsEditorView { state: state_after_output_click(old(self)@.state, node), ..old(self)@ }),
    {
        match &self.state {
            NodeEditorConnectionState::Idle => {
                self.state = NodeEditorConnectionState::CreatingFrom(node);
            },
            NodeEditorConnectionState::CreatingFrom(_) => {
                self.state = NodeEditorConnectionState::Idle;
            },
            NodeEditorConnectionState::CreatingTo(ii) => {
                let ii = *ii;
                if ii != node {
                    self.state = NodeEditorConnectionState::CreateFrom { from: node, to: ii };
                } else {
                    self.state = NodeEditorConnectionState::Idle;
                }
            },
            _ => {},
        }
    }

    /// The disconnecting line was released: the connections it crossed (step, step it
    /// comes from) are to be removed, where there are any.
    pub fn disconnect(&mut self, crossed: Vec<(usize, usize)>)
        requires
            old(self).wf(),
        ensures
            final(self).wf(),
            crossed@.len() == 0 ==> final(self)@ == old(self)@,
            crossed@.len() > 0 ==> (final(self)@.state matches NodeEditorConnectionState::RemoveConnections(v) && v@ == crossed@),
            crossed@.len() > 0 ==> final(self)@ == (StepsEditorView { state: final(self)@.state, ..old(self)@ }),
    {
        if crossed.len() > 0 {
            self.state = NodeEditorConnectionState::RemoveConnections(crossed);
        }
    }

    /// Delete was pressed: the selected steps are to be deleted.
    pub fn request_delete(&mut self)
        requires
            old(self).wf(),
        ensures
            final(self).wf(),
            final(self)@ == (StepsEditorView { action: NodeAction::DeleteNodes, ..old(self)@ }),
    {
        self.action = NodeAction::DeleteNodes;
    }

    /// A was pressed: a step is to be added.
    pub fn request_add(&mut self)
        requires
            old(self).wf(),
        ensures
            final(self).wf(),
            final(self)@ == (StepsEditorView { action: NodeAction::AddNode, ..old(self)@ }),
    {
        self.action = NodeAction::AddNode;
    }

    /// Ctrl+A was pressed: every one of the `n` steps is selected, in order.
    pub fn select_all(&mut self, n: usize)
        requires
            old(self).wf(),
        ensures
            final(self).wf(),
            final(self)@ == (StepsEditorView { selected: Seq::new(n as nat, |i: int| i as usize), ..old(self)@ }),
    {
        let mut s: Vec<usize> = Vec::new();
        let mut i: usize = 0;
        while i < n
            invariant
                i <= n,
                s@ =~= Seq::new(i as nat, |k: int| k as usize),
            decreases n - i,
        {
            s.push(i);
            i += 1;
        }
        self.selected_nodes = s;
    }

    /// Escape was pressed, or the empty canvas clicked: nothing is selected.
    pub fn clear_selection(&mut self)
        requires
            old(self).wf(),
        ensures
            final(self).wf(),
            final(self)@ == (StepsEditorView { selected: Seq::<usize>::empty(), ..old(self)@ }),
    {
        self.selected_nodes.clear();
    }

    /// A selection box covers the steps `hits`, in step order: Alt takes them out of
    /// the selection, Shift adds those not yet selected, and a plain box selects
    /// exactly them.
    pub fn box_select(&mut self, hits: &Vec<usize>, alt: bool, shift: bool)
        requires
            old(self).wf(),
            hits@.no_duplicates(),
        ensures
            final(self).wf(),
            final(self)@.selected == box_selection(old(self)@.selected, hits@, alt, shift),
            final(self)@.stack == old(self)@.stack,
            final(self)@.state == old(self)@.state,
            final(self)@.action == old(self)@.action,
    {
        if !shift && !alt {
            self.selected_nodes.clear();
        }
        let ghost start = self.selected_nodes@;
        let mut i: usize = 0;
        proof {
            assert(hits@.take(0) =~= Seq::<usize>::empty());
        }
        while i < hits.len()
            invariant
                i <= hits@.len(),
                hits@.no_duplicates(),
                start == (if !shift && !alt { Seq::<usize>::empty() } else { old(self)@.selected }),
                self.selected_nodes@ == box_steps(start, hits@.take(i as int), alt, shift),
                self.selected_nodes@.no_duplicates(),
                !shift && !alt ==> forall|k: int| 0 <= k < self.selected_nodes@.len() ==> hits@.take(i as int).contains(#[trigger] self.selected_nodes@[k]),
                self.stack@ == old(self)@.stack,
                self.state == old(self)@.state,
                self.action == old(self)@.action,
            decreases hits@.len() - i,
        {
            let h = hits[i];
            let ghost prev_take = hits@.take(i as int);
            proof {
                assert(hits@.take(i + 1).drop_last() =~= prev_take);
                assert(hits@.take(i + 1).last() == h);
            }
            if alt {
                let r = without_index(&self.selected_nodes, h);
                proof {
                    lemma_filter_no_duplicates(self.selected_nodes@, |v: usize| v != h);
                }
                self.selected_nodes = r;
            } else if !shift || !contains_index(&self.selected_nodes, h) {
                proof {
                    if !shift {
                        assert(!self.selected_nodes@.contains(h)) by {
                            if self.selected_nodes@.contains(h) {
                                let k = choose|k: int| 0 <= k < self.selected_nodes@.len() && self.selected_nodes@[k] == h;
                                assert(prev_take.contains(self.selected_nodes@[k]));
                                let w = choose|w: int| 0 <= w < prev_take.len() && prev_take[w] == h;
                                assert(hits@[w] == hits@[i as int]);
                            }
                        }
                    }
                }
                self.selected_nodes.push(h);
                proof {
                    if !shift && !alt {
                        assert forall|k: int| 0 <= k < self.selected_nodes@.len() implies hits@.take(i + 1).contains(#[trigger] self.selected_nodes@[k]) by {
                            if k < self.selected_nodes@.len() - 1 {
                                let w = choose|w: int| 0 <= w < prev_take.len() && prev_take[w] == self.selected_nodes@[k];
                                assert(hits@.take(i + 1)[w] == prev_take[w]);
                            } else {
                                assert(hits@.take(i + 1)[i as int] == h);
                            }
                        }
                    }
                }
            } else {
                proof {
                    if !shift && !alt {
                        assert forall|k: int| 0 <= k < self.selected_nodes@.len() implies hits@.take(i + 1).contains(#[trigger] self.selected_nodes@[k]) by {
                            let w = choose|w: int| 0 <= w < prev_take.len() && prev_take[w] == self.selected_nodes@[k];
                            assert(hits@.take(i + 1)[w] == prev_take[w]);
                        }
                    }
                }
            }
            i += 1;
        }
        proof {
            assert(hits@.take(hits@.len() as int) =~= hits@);
        }
    }

    /// Carries out the pending action and clears it: a step is drawn on top, the
    /// selected steps are deleted from the stack (the steps above each deleted one
    /// move down a number) and the selection is emptied, or an empty step is added
    /// on top. Where steps are deleted, returns their numbers in ascending order, for
    /// the quest to remove them.
    pub fn handle_node_action(&mut self, nodes: &mut Vec<QuestStep>) -> (r: Option<Vec<usize>>)
        requires
            old(self).wf(),
            old(self)@.action matches NodeAction::MoveToStackTop(idx) ==> idx < old(self)@.stack.len(),
        ensures
            final(self).wf(),
            final(self)@.action == NodeAction::Idle,
            final(self)@.state == old(self)@.state,
            match old(self)@.action {
                NodeAction::MoveToStackTop(idx) => {
                    &&& r is None
                    &&& final(self)@.stack == old(self)@.stack.remove(idx as int).push(old(self)@.stack[idx as int])
                    &&& final(self)@.selected == old(self)@.selected
                    &&& final(nodes)@ == old(nodes)@
                },
                NodeAction::DeleteNodes => {
                    &&& r is Some
                    &&& ascending(r.unwrap()@)
                    &&& r.unwrap()@.to_multiset() == old(self)@.selected.to_multiset()
                    &&& final(self)@.stack == stack_after_delete(old(self)@.stack, old(self)@.selected)
                    &&& final(self)@.selected == Seq::<usize>::empty()
                    &&& final(nodes)@ == old(nodes)@
                },
                NodeAction::AddNode => {
                    &&& r is None
                    &&& final(self)@.stack == old(self)@.stack.push(old(nodes)@.len() as usize)
                    &&& final(self)@.selected == old(self)@.selected
                    &&& step_views(final(nodes)@) == step_views(old(nodes)@).push(empty_step())
                },
                NodeAction::Idle => {
                    &&& r is None
                    &&& final(self)@.stack == old(self)@.stack
                    &&& final(self)@.selected == old(self)@.selected
                    &&& final(nodes)@ == old(nodes)@
                },
            },
    {
        let r = match self.action {
            NodeAction::MoveToStackTop(idx) => {
                let t = self.stack.remove(idx);
                self.stack.push(t);
                None
            },
            NodeAction::DeleteNodes => {
                let sorted = sorted_copy(&self.selected_nodes);
                self.delete_selected_from_stack();
                self.selected_nodes.clear();
                Some(sorted)
            },
            NodeAction::AddNode => {
                let ghost steps0 = step_views(nodes@);
                self.stack.push(nodes.len());
                let step = QuestStep::default();
                nodes.push(step);
                proof {
                    assert(step_views(nodes@) =~= steps0.push(empty_step()));
                }
                None
            },
            NodeAction::Idle => None,
        };
        self.action = NodeAction::Idle;
        r
    }

    fn delete_selected_from_stack(&mut self)
        requires
            old(self).wf(),
        ensures
            final(self).wf(),
            final(self)@ == (StepsEditorView {
                stack: stack_after_delete(old(self)@.stack, old(self)@.selected),
                ..old(self)@
            }),
    {
        let ghost stack0 = self.stack@;
        let ghost sel = self.selected_nodes@;
        let len = self.stack.len();
        // the stack positions of the selected steps, ascending
        let mut pos: Vec<usize> = Vec::new();
        let mut p: usize = 0;
        while p < len
            invariant
                p <= len,
                len == stack0.len(),
                self.stack@ == stack0,
                self.selected_nodes@ == sel,
                pos@ == deleted_positions(stack0, sel, p as int),
            decreases len - p,
        {
            let x = self.stack[p];
            let mut first = true;
            let mut j: usize = 0;
            while j < p
                invariant
                    j <= p < len,
                    len == stack0.len(),
                    self.stack@ == stack0,
                    x == stack0[p as int],
                    first <==> forall|k: int| 0 <= k < j ==> stack0[k] != x,
                decreases p - j,
            {
                if self.stack[j] == x {
                    first = false;
                }
                j += 1;
            }
            if first && contains_index(&self.selected_nodes, x) {
                pos.push(p);
            }
            p += 1;
        }
        proof {
            lemma_deleted_positions(stack0, sel, len as int);
        }
        let mut stack: Vec<usize> = Vec::new();
        std::mem::swap(&mut stack, &mut self.stack);
        let m = pos.len();
        proof {
            assert(pos@.take(m as int) =~= pos@);
        }
        let ghost all_pos = pos@;
        let mut k: usize = 0;
        while k < m
            invariant
                k <= m,
                m == all_pos.len(),
                pos@ == all_pos,
                len == stack0.len(),
                all_pos == deleted_positions(stack0, sel, len as int),
                forall|i: int, j: int| 0 <= i < j < all_pos.len() ==> all_pos[i] < all_pos[j],
                forall|i: int| 0 <= i < all_pos.len() ==> all_pos[i] + (all_pos.len() - i) <= len,
                stack@.len() == len - k,
                remove_positions(stack0, all_pos) == remove_positions(stack@, all_pos.take(m - k)),
            decreases m - k,
        {
            let idx = pos[m - 1 - k];
            let ghost cur = stack@;
            proof {
                assert(all_pos.take(m - k).last() == idx);
                assert(all_pos.take(m - k).drop_last() =~= all_pos.take(m - k - 1));
            }
            let n_idx = stack[idx];
            stack.remove(idx);
            let ghost removed = stack@;
            let l2 = stack.len();
            let mut q: usize = 0;
            while q < l2
                invariant
                    q <= l2,
                    l2 == removed.len(),
                    stack@.len() == l2,
                    forall|t: int|
                        0 <= t < l2 ==> (#[trigger] stack@[t]) == (if t < q {
                            if removed[t] > n_idx { (removed[t] - 1) as usize } else { removed[t] }
                        } else {
                            removed[t]
                        }),
                decreases l2 - q,
            {
                let v = stack[q];
                if v > n_idx {
                    stack.set(q, v - 1);
                }
                q += 1;
            }
            proof {
                assert(stack@ =~= renumbered_after(cur, idx as int));
            }
            k += 1;
        }
        proof {
            assert(all_pos.take(0) =~= Seq::<usize>::empty());
            assert(stack@ == remove_positions(stack0, all_pos));
        }
        self.stack = stack;
    }
}

/// Whether the stack holds each of the step numbers `0..len` exactly once.
pub open spec fn is_permutation(s: Seq<usize>) -> bool {
    &&& s.no_duplicates()
    &&& forall|i: int| 0 <= i < s.len() ==> (#[trigger] s[i]) < s.len()
}

proof fn lemma_renumbered_permutation(s: Seq<usize>, idx: int)
    requires
        is_permutation(s),
        0 <= idx < s.len(),
    ensures
        is_permutation(renumbered_after(s, idx)),
        renumbered_after(s, idx).len() == s.len() - 1,
{
    let n = s[idx];
    let t = s.remove(idx);
    let r = renumbered_after(s, idx);
    assert forall|i: int| 0 <= i < t.len() implies (#[trigger] t[i]) != n && t[i] < s.len() by {
        if i < idx {
            assert(t[i] == s[i]);
        } else {
            assert(t[i] == s[i + 1]);
        }
    }
    assert(t.no_duplicates()) by {
        assert forall|i: int, j: int| 0 <= i < t.len() && 0 <= j < t.len() && i != j implies t[i] != t[j] by {
            let si = if i < idx { i } else { i + 1 };
            let sj = if j < idx { j } else { j + 1 };
            assert(t[i] == s[si] && t[j] == s[sj]);
        }
    }
    assert forall|i: int| 0 <= i < r.len() implies (#[trigger] r[i]) < r.len() by {
        assert(t[i] != n);
    }
    assert forall|i: int, j: int| 0 <= i < r.len() && 0 <= j < r.len() && i != j implies r[i] != r[j] by {
        assert(t[i] != t[j]);
        assert(t[i] != n && t[j] != n);
    }
}

proof fn lemma_remove_positions_permutation(s: Seq<usize>, pos: Seq<usize>)
    requires
        is_permutation(s),
        forall|i: int, j: int| 0 <= i < j < pos.len() ==> pos[i] < pos[j],
        forall|i: int| 0 <= i < pos.len() ==> pos[i] < s.len(),
    ensures
        is_permutation(remove_positions(s, pos)),
        remove_positions(s, pos).len() == s.len() - pos.len(),
    decreases pos.len(),
{
    if pos.len() > 0 {
        let idx = pos.last() as int;
        lemma_renumbered_permutation(s, idx);
        let d = pos.drop_last();
        assert forall|i: int| 0 <= i < d.len() implies d[i] < s.len() - 1 by {
            assert(d[i] == pos[i]);
            assert(pos[i] < pos[pos.len() - 1]);
        }
        assert forall|i: int, j: int| 0 <= i < j < d.len() implies d[i] < d[j] by {
            assert(d[i] == pos[i] && d[j] == pos[j]);
        }
        lemma_remove_positions_permutation(renumbered_after(s, idx), d);
    }
}

/// Deleting selected steps keeps the stack a permutation: where it held each step
/// number `0..n` once, afterwards it holds each of the numbers that remain once.
pub proof fn law_delete_keeps_stack_permutation(stack: Seq<usize>, sel: Seq<usize>)
    requires
        is_permutation(stack),
        stack.len() <= usize::MAX,
    ensures
        is_permutation(stack_after_delete(stack, sel)),
        stack_after_delete(stack, sel).len() <= stack.len(),
{
    lemma_deleted_positions(stack, sel, stack.len() as int);
    lemma_remove_positions_permutation(stack, deleted_positions(stack, sel, stack.len() as int));
}

/// Moving a step to the top of the stack, or adding a step on top of a stack that
/// holds every step, keeps the stack a permutation of the steps.
pub proof fn law_move_and_add_keep_stack_permutation(stack: Seq<usize>, idx: int)
    requires
        is_permutation(stack),
        0 <= idx < stack.len(),
        stack.len() < usize::MAX,
    ensures
        is_permutation(stack.remove(idx).push(stack[idx])),
        is_permutation(stack.push(stack.len() as usize)),
{
    let m = stack.remove(idx).push(stack[idx]);
    assert forall|i: int| 0 <= i < m.len() implies (#[trigger] m[i]) == stack[if i < idx { i } else if i < m.len() - 1 { i + 1 } else { idx }] by {}
    assert forall|i: int, j: int| 0 <= i < m.len() && 0 <= j < m.len() && i != j implies m[i] != m[j] by {
        let si = if i < idx { i } else if i < m.len() - 1 { i + 1 } else { idx };
        let sj = if j < idx { j } else if j < m.len() - 1 { j + 1 } else { idx };
        assert(m[i] == stack[si] && m[j] == stack[sj]);
    }
    let a = stack.push(stack.len() as usize);
    assert forall|i: int, j: int| 0 <= i < a.len() && 0 <= j < a.len() && i != j implies a[i] != a[j] by {
        if i < stack.len() && j < stack.len() {
            assert(a[i] == stack[i] && a[j] == stack[j]);
        } else if i < stack.len() {
            assert(a[i] == stack[i]);
        } else {
            assert(a[j] == stack[j]);
        }
    }
    assert forall|i: int| 0 <= i < a.len() implies (#[trigger] a[i]) < a.len() by {
        if i < stack.len() {
            assert(a[i] == stack[i]);
        }
    }
}

/// A connection can be made in either click order: clicking the output of step
/// `from` and then the input of step `to`, or the input of `to`, then the output of
/// `from`, and letting a frame apply the state, connects `from` into `to` and leaves
/// the editor idle.
pub proof fn law_connect_in_either_order(steps: Seq<QuestStepView>, from: usize, to: usize)
    requires
        from != to,
        to < steps.len(),
        from <= u32::MAX,
    ensures
        ({
            let s1 = state_after_output_click(NodeEditorConnectionState::Idle, from);
            &&& state_after_input_click(s1, to) is Idle
            &&& steps_after_input_click(s1, to, steps) == steps.update(
                to as int,
                with_prev(steps[to as int], connections_added(steps[to as int].prev_steps, from as u32)),
            )
        }),
        ({
            let s1 = state_after_input_click(NodeEditorConnectionState::Idle, to);
            let s2 = state_after_output_click(s1, from);
            &&& steps_after_input_click(NodeEditorConnectionState::Idle, to, steps) == steps
            &&& s2 == NodeEditorConnectionState::CreateFrom { from, to }
            &&& state_applicable(s2, steps.len())
            &&& steps_after_state(s2, steps) == steps.update(
                to as int,
                with_prev(steps[to as int], connections_added(steps[to as int].prev_steps, from as u32)),
            )
        }),
{
}

} // verus!
