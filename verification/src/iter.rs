use vstd::prelude::*;

use crate::component::{lemma_seq_sum_concat, seq_size_sum, spec_component, spec_components,
    spec_content_size, Component, ComponentView};
use crate::content::Content;

verus! {

/// The order in which a flat traversal runs through a component tree.
#[derive(Clone, Copy, Debug, PartialEq, Eq)]
pub enum IterOrder {
    /// Depth-first order: a node is followed by all of its descendants, left
    /// to right, before any of its siblings. This is on-screen reading order.
    DepthFirst,
    /// Breadth-first order: all nodes of one depth come before any node of
    /// the next depth, left to right within a level.
    BreadthFirst,
}

impl Default for IterOrder {
    /// The default order is depth-first, the usual reading order.
    fn default() -> (r: Self)
        ensures
            r == IterOrder::DepthFirst,
    {
        IterOrder::DepthFirst
    }
}

/// The children a flat traversal descends into from a node: the node's
/// translation arguments (when requested, and the content is localized)
/// followed by the ordinary children.
pub open spec fn spec_traversal_children(c: ComponentView, translate_args: bool) -> Seq<
    ComponentView,
> {
    if translate_args && c.content is Translation {
        c.content->Translation_with + c.extra
    } else {
        c.extra
    }
}

proof fn lemma_traversal_children_size(c: ComponentView, translate_args: bool)
    ensures
        seq_size_sum(spec_traversal_children(c, translate_args)) < spec_content_size(c),
{
    if translate_args && c.content is Translation {
        lemma_seq_sum_concat(c.content->Translation_with, c.extra);
    }
}

/// The depth-first visit order of a tree model: the node itself, then each
/// traversal child's depth-first order in turn.
pub open spec fn spec_depth_first(c: ComponentView, translate_args: bool) -> Seq<ComponentView>
    decreases spec_content_size(c), 0int,
    via spec_depth_first_decreases
{
    seq![c] + spec_depth_first_list(spec_traversal_children(c, translate_args), translate_args)
}

#[via_fn]
proof fn spec_depth_first_decreases(c: ComponentView, translate_args: bool) {
    lemma_traversal_children_size(c, translate_args);
}

/// The depth-first visit order of a forest: each tree's depth-first order in
/// turn.
pub open spec fn spec_depth_first_list(s: Seq<ComponentView>, translate_args: bool) -> Seq<
    ComponentView,
>
    decreases seq_size_sum(s), s.len(),
    via spec_depth_first_list_decreases
{
    if s.len() == 0 {
        Seq::empty()
    } else {
        spec_depth_first(s[0], translate_args) + spec_depth_first_list(
            s.subrange(1, s.len() as int),
            translate_args,
        )
    }
}

#[via_fn]
proof fn spec_depth_first_list_decreases(s: Seq<ComponentView>, translate_args: bool) {
    if s.len() > 0 {
        assert(seq_size_sum(s) == spec_content_size(s[0]) + seq_size_sum(
            s.subrange(1, s.len() as int),
        ));
    }
}

/// The breadth-first visit order of a forest, taken as a work queue: the
/// first tree's root, then the rest of the queue with the root's traversal
/// children appended.
pub open spec fn spec_breadth_first(q: Seq<ComponentView>, translate_args: bool) -> Seq<
    ComponentView,
>
    decreases seq_size_sum(q),
    via spec_breadth_first_decreases
{
    if q.len() == 0 {
        Seq::empty()
    } else {
        seq![q[0]] + spec_breadth_first(
            q.subrange(1, q.len() as int) + spec_traversal_children(q[0], translate_args),
            translate_args,
        )
    }
}

#[via_fn]
proof fn spec_breadth_first_decreases(q: Seq<ComponentView>, translate_args: bool) {
    if q.len() > 0 {
        assert(seq_size_sum(q) == spec_content_size(q[0]) + seq_size_sum(
            q.subrange(1, q.len() as int),
        ));
        lemma_traversal_children_size(q[0], translate_args);
        lemma_seq_sum_concat(
            q.subrange(1, q.len() as int),
            spec_traversal_children(q[0], translate_args),
        );
    }
}

/// The depth-first order of a forest concatenation is the concatenation of
/// the orders.
pub proof fn lemma_depth_first_list_concat(a: Seq<ComponentView>, b: Seq<ComponentView>, ta: bool)
    ensures
        spec_depth_first_list(a + b, ta) == spec_depth_first_list(a, ta) + spec_depth_first_list(
            b,
            ta,
        ),
    decreases a.len(),
{
    if a.len() == 0 {
        assert(a + b =~= b);
        assert(spec_depth_first_list(a + b, ta) =~= spec_depth_first_list(a, ta)
            + spec_depth_first_list(b, ta));
    } else {
        assert((a + b)[0] == a[0]);
        assert((a + b).subrange(1, (a + b).len() as int) =~= a.subrange(1, a.len() as int) + b);
        lemma_depth_first_list_concat(a.subrange(1, a.len() as int), b, ta);
        assert(spec_depth_first_list(a + b, ta) =~= spec_depth_first_list(a, ta)
            + spec_depth_first_list(b, ta));
    }
}

/// A flat, restartable traversal over an owned snapshot of a component tree.
/// The traversal yields each visited node in the chosen order; it does not
/// preserve information about the tree's shape.
#[derive(Debug)]
pub struct FlatIterator {
    /// The pending work queue: trees whose nodes are still to be yielded.
    pub queue: Vec<Component>,
    /// The traversal order.
    pub order: IterOrder,
    /// Whether translation arguments are spliced into the traversal.
    pub include_translate_args: bool,
}

impl FlatIterator {
    /// The nodes this traversal has yet to yield, in order.
    pub open spec fn remaining(&self) -> Seq<ComponentView> {
        match self.order {
            IterOrder::DepthFirst => spec_depth_first_list(
                spec_components(self.queue@),
                self.include_translate_args,
            ),
            IterOrder::BreadthFirst => spec_breadth_first(
                spec_components(self.queue@),
                self.include_translate_args,
            ),
        }
    }

    /// Starts a traversal of the given tree, depth-first, without translation
    /// arguments.
    pub fn new(root: &Component) -> (r: FlatIterator)
        ensures
            r.order == IterOrder::DepthFirst,
            !r.include_translate_args,
            r.remaining() == spec_depth_first(spec_component(*root), false),
    {
        let mut queue: Vec<Component> = Vec::new();
        queue.push(root.clone());
        let r = FlatIterator { queue, order: IterOrder::DepthFirst, include_translate_args: false };
        proof {
            broadcast use crate::component::lemma_spec_components;

            let views = spec_components(r.queue@);
            assert(views =~= seq![spec_component(*root)]);
            assert(views.subrange(1, 1) =~= Seq::<ComponentView>::empty());
            assert(spec_depth_first_list(views, false) == spec_depth_first(views[0], false)
                + spec_depth_first_list(views.subrange(1, 1), false));
            assert(spec_depth_first_list(Seq::<ComponentView>::empty(), false)
                == Seq::<ComponentView>::empty());
            assert(r.remaining() =~= spec_depth_first(spec_component(*root), false));
        }
        r
    }

    /// Includes translation arguments in the traversal: when a visited node's
    /// content is localized, its arguments are traversed before its ordinary
    /// children.
    pub fn with_translate_args(self) -> (r: FlatIterator)
        ensures
            r.queue@ == self.queue@,
            r.order == self.order,
            r.include_translate_args,
    {
        FlatIterator { include_translate_args: true, ..self }
    }

    /// Sets the traversal order.
    pub fn with_order(self, order: IterOrder) -> (r: FlatIterator)
        ensures
            r.queue@ == self.queue@,
            r.order == order,
            r.include_translate_args == self.include_translate_args,
    {
        FlatIterator { order, ..self }
    }

    /// Yields the next node of the traversal, or `None` when every node has
    /// been yielded. The yielded component is a snapshot of the visited node,
    /// children included.
    #[verifier::loop_isolation(false)]
    pub fn next(&mut self) -> (r: Option<Component>)
        ensures
            final(self).order == old(self).order,
            final(self).include_translate_args == old(self).include_translate_args,
            old(self).remaining().len() == 0 ==> r is None && final(self).remaining() == old(
                self,
            ).remaining(),
            old(self).remaining().len() > 0 ==> r is Some && spec_component(r->0) == old(
                self,
            ).remaining()[0] && final(self).remaining() == old(self).remaining().skip(1),
    {
        proof {
            broadcast use crate::component::lemma_spec_components;

        }
        if self.queue.len() == 0 {
            proof {
                assert(spec_components(self.queue@) =~= Seq::<ComponentView>::empty());
            }
            return None;
        }
        let ghost q0 = spec_components(old(self).queue@);
        let item = self.queue.remove(0);
        let ghost v0 = spec_component(item);
        proof {
            assert(q0[0] == v0);
            assert(self.queue@ =~= old(self).queue@.subrange(1, old(self).queue@.len() as int));
            assert(spec_components(self.queue@) =~= q0.subrange(1, q0.len() as int));
        }
        let ghost rest_views = spec_components(self.queue@);
        let children = traversal_children(&item, self.include_translate_args);
        let ghost child_views = spec_components(children@);
        match self.order {
            IterOrder::DepthFirst => {
                let mut new_queue = children;
                let mut tail: Vec<Component> = Vec::new();
                core::mem::swap(&mut self.queue, &mut tail);
                new_queue.append(&mut tail);
                self.queue = new_queue;
                proof {
                    let ta = self.include_translate_args;
                    assert(spec_components(self.queue@) =~= child_views + rest_views);
                    lemma_depth_first_list_concat(child_views, rest_views, ta);
                    assert(spec_depth_first(v0, ta) == seq![v0] + spec_depth_first_list(
                        child_views,
                        ta,
                    ));
                    assert(spec_depth_first_list(q0, ta) == spec_depth_first(v0, ta)
                        + spec_depth_first_list(rest_views, ta));
                    assert(final(self).remaining() =~= old(self).remaining().skip(1));
                }
            },
            IterOrder::BreadthFirst => {
                let mut children = children;
                self.queue.append(&mut children);
                proof {
                    assert(spec_components(self.queue@) =~= rest_views + child_views);
                    assert(final(self).remaining() =~= old(self).remaining().skip(1));
                }
            },
        }
        Some(item)
    }
}

/// Clones the children a flat traversal descends into from a node: its
/// translation arguments when requested and present, then its ordinary
/// children.
#[verifier::loop_isolation(false)]
fn traversal_children(c: &Component, translate_args: bool) -> (r: Vec<Component>)
    ensures
        spec_components(r@) == spec_traversal_children(spec_component(*c), translate_args),
{
    proof {
        broadcast use crate::component::lemma_spec_components;

    }
    let mut out: Vec<Component> = Vec::new();
    let ghost target = spec_traversal_children(spec_component(*c), translate_args);
    if translate_args {
        match &c.content {
            Content::Translation { with, .. } => {
                proof {
                    broadcast use crate::component::lemma_spec_components;

                    assert(c.content->Translation_with == *with);
                    assert(spec_component(*c).content->Translation_with == spec_components(with@));
                }
                let mut i: usize = 0;
                while i < with.len()
                    invariant
                        0 <= i <= with@.len(),
                        out@.len() == i,
                        forall|j: int| 0 <= j < i ==> spec_component(out@[j]) == spec_component(
                            with@[j],
                        ),
                    decreases with@.len() - i,
                {
                    out.push(with[i].clone());
                    i += 1;
                }
            },
            _ => {},
        }
    }
    let ghost prefix_len = out@.len() as int;
    proof {
        broadcast use crate::component::lemma_spec_components;

        assert(spec_component(*c).extra == spec_components(c.extra@));
        assert(target.len() == prefix_len + c.extra@.len());
        assert(forall|j: int| 0 <= j < prefix_len ==> spec_component(out@[j]) == target[j]);
    }
    let mut i: usize = 0;
    while i < c.extra.len()
        invariant
            0 <= i <= c.extra@.len(),
            out@.len() == prefix_len + i,
            forall|j: int| 0 <= j < prefix_len + i ==> spec_component(out@[j]) == target[j],
            prefix_len + c.extra@.len() == target.len(),
        decreases c.extra@.len() - i,
    {
        out.push(c.extra[i].clone());
        proof {
            broadcast use crate::component::lemma_spec_components;

            assert(target[prefix_len + i] == spec_component(c.extra@[i as int]));
        }
        i += 1;
    }
    proof {
        broadcast use crate::component::lemma_spec_components;

        assert(spec_components(out@) =~= target);
    }
    out
}

/// A structure-preserving traversal over an owned snapshot of a component
/// tree: it yields a push event when a node is first reached, then the events
/// of each child in order, then a pop event for the node.
#[derive(Debug)]
pub struct VisitingIterator {
    /// The pending events: a push event stands for the whole subtree visit
    /// still to come; a pop event is yielded as it is.
    pub queue: Vec<Visit>,
}

/// One step of a structure-preserving traversal.
#[derive(Debug, PartialEq, Eq)]
pub enum Visit {
    /// A node has been reached; its children's events follow.
    Push(Component),
    /// A node and all of its descendants have been traversed.
    Pop(Component),
}

/// The mathematical model of a [`Visit`] step.
#[verifier::ext_equal]
pub enum VisitView {
    /// Model of a push step.
    Push(ComponentView),
    /// Model of a pop step.
    Pop(ComponentView),
}

/// The model of a visit step.
pub open spec fn spec_visit(v: Visit) -> VisitView {
    match v {
        Visit::Push(c) => VisitView::Push(spec_component(c)),
        Visit::Pop(c) => VisitView::Pop(spec_component(c)),
    }
}

impl Clone for Visit {
    /// Clones the step; the copy has the same model.
    fn clone(&self) -> (r: Self)
        ensures
            spec_visit(r) == spec_visit(*self),
    {
        match self {
            Visit::Push(c) => Visit::Push(c.clone()),
            Visit::Pop(c) => Visit::Pop(c.clone()),
        }
    }
}

/// The full event order of a tree model: push the node, traverse each child,
/// pop the node.
pub open spec fn spec_visit_events(c: ComponentView) -> Seq<VisitView>
    decreases spec_content_size(c), 0int,
    via spec_visit_events_decreases
{
    seq![VisitView::Push(c)] + spec_visit_events_list(c.extra) + seq![VisitView::Pop(c)]
}

#[via_fn]
proof fn spec_visit_events_decreases(c: ComponentView) {
    if c.content is Translation {
        lemma_seq_sum_concat(c.content->Translation_with, c.extra);
    }
}

/// The event orders of a forest, concatenated.
pub open spec fn spec_visit_events_list(s: Seq<ComponentView>) -> Seq<VisitView>
    decreases seq_size_sum(s), s.len(),
    via spec_visit_events_list_decreases
{
    if s.len() == 0 {
        Seq::empty()
    } else {
        spec_visit_events(s[0]) + spec_visit_events_list(s.subrange(1, s.len() as int))
    }
}

#[via_fn]
proof fn spec_visit_events_list_decreases(s: Seq<ComponentView>) {
    if s.len() > 0 {
        assert(seq_size_sum(s) == spec_content_size(s[0]) + seq_size_sum(
            s.subrange(1, s.len() as int),
        ));
    }
}

/// The events still owed by a pending queue: a push entry stands for its
/// node's whole event order; a pop entry stands for itself.
pub open spec fn spec_pending_events(s: Seq<Visit>) -> Seq<VisitView>
    decreases s,
{
    if s.len() == 0 {
        Seq::empty()
    } else {
        (match s[0] {
            Visit::Push(c) => spec_visit_events(spec_component(c)),
            Visit::Pop(c) => seq![VisitView::Pop(spec_component(c))],
        }) + spec_pending_events(s.subrange(1, s.len() as int))
    }
}

/// The events of a queue concatenation are the events of the parts.
proof fn lemma_pending_events_concat(a: Seq<Visit>, b: Seq<Visit>)
    ensures
        spec_pending_events(a + b) == spec_pending_events(a) + spec_pending_events(b),
    decreases a.len(),
{
    if a.len() == 0 {
        assert(a + b =~= b);
        assert(spec_pending_events(a + b) =~= spec_pending_events(a) + spec_pending_events(b));
    } else {
        assert((a + b)[0] == a[0]);
        assert((a + b).subrange(1, (a + b).len() as int) =~= a.subrange(1, a.len() as int) + b);
        lemma_pending_events_concat(a.subrange(1, a.len() as int), b);
        assert(spec_pending_events(a + b) =~= spec_pending_events(a) + spec_pending_events(b));
    }
}

impl VisitingIterator {
    /// The events this traversal has yet to yield, in order.
    pub open spec fn remaining(&self) -> Seq<VisitView> {
        spec_pending_events(self.queue@)
    }

    /// Starts a structure-preserving traversal of the given tree.
    pub fn new(root: &Component) -> (r: VisitingIterator)
        ensures
            r.remaining() == spec_visit_events(spec_component(*root)),
    {
        let mut queue: Vec<Visit> = Vec::new();
        queue.push(Visit::Push(root.clone()));
        let r = VisitingIterator { queue };
        proof {
            assert(r.queue@.subrange(1, 1) =~= Seq::<Visit>::empty());
            assert(spec_pending_events(Seq::<Visit>::empty()) == Seq::<VisitView>::empty());
            assert(r.remaining() =~= spec_visit_events(spec_component(*root)));
        }
        r
    }

    /// Yields the next event of the traversal, or `None` when every event
    /// has been yielded. The component in the event is a snapshot of the
    /// visited node, children included.
    #[verifier::loop_isolation(false)]
    pub fn next(&mut self) -> (r: Option<Visit>)
        ensures
            old(self).remaining().len() == 0 ==> r is None && final(self).remaining() == old(
                self,
            ).remaining(),
            old(self).remaining().len() > 0 ==> r is Some && spec_visit(r->0) == old(
                self,
            ).remaining()[0] && final(self).remaining() == old(self).remaining().skip(1),
    {
        if self.queue.len() == 0 {
            proof {
                assert(old(self).remaining() =~= Seq::<VisitView>::empty());
            }
            return None;
        }
        let ghost q0 = old(self).queue@;
        let op = self.queue.remove(0);
        proof {
            assert(self.queue@ =~= q0.subrange(1, q0.len() as int));
        }
        let ghost rest = self.queue@;
        match &op {
            Visit::Push(item) => {
                let ghost v = spec_component(*item);
                // The node's pop event comes after all of its children.
                let mut expansion: Vec<Visit> = Vec::new();
                let mut i: usize = 0;
                while i < item.extra.len()
                    invariant
                        0 <= i <= item.extra@.len(),
                        expansion@.len() == i,
                        forall|j: int| 0 <= j < i ==> spec_visit(expansion@[j])
                            == VisitView::Push(spec_component(item.extra@[j])),
                    decreases item.extra@.len() - i,
                {
                    expansion.push(Visit::Push(item.extra[i].clone()));
                    i += 1;
                }
                expansion.push(Visit::Pop(item.clone()));
                let ghost exp = expansion@;
                let mut tail: Vec<Visit> = Vec::new();
                core::mem::swap(&mut self.queue, &mut tail);
                let mut new_queue = expansion;
                new_queue.append(&mut tail);
                self.queue = new_queue;
                proof {
                    broadcast use crate::component::lemma_spec_components;

                    assert(self.queue@ =~= exp + rest);
                    assert(v.extra == spec_components(item.extra@));
                    lemma_pending_events_concat(exp, rest);
                    lemma_pending_push_expansion(exp, v, spec_component(*item));
                    assert(final(self).remaining() =~= old(self).remaining().skip(1));
                }
            },
            Visit::Pop(_) => {
                proof {
                    assert(final(self).remaining() =~= old(self).remaining().skip(1));
                }
            },
        }
        Some(op)
    }
}

/// A queue holding push entries for each child of a node, then a pop entry
/// for the node, owes exactly the children's event orders followed by the pop
/// event.
proof fn lemma_pending_push_expansion(exp: Seq<Visit>, v: ComponentView, w: ComponentView)
    requires
        exp.len() > 0,
        exp[exp.len() - 1] matches Visit::Pop(p) && spec_component(p) == w,
        v.extra.len() == exp.len() - 1,
        forall|j: int| 0 <= j < exp.len() - 1 ==> spec_visit(exp[j]) == VisitView::Push(v.extra[j]),
    ensures
        spec_pending_events(exp) == spec_visit_events_list(v.extra) + seq![VisitView::Pop(w)],
    decreases exp.len(),
{
    if exp.len() == 1 {
        assert(exp.subrange(1, 1) =~= Seq::<Visit>::empty());
        assert(v.extra =~= Seq::<ComponentView>::empty());
        assert(spec_pending_events(Seq::<Visit>::empty()) == Seq::<VisitView>::empty());
        assert(spec_visit_events_list(v.extra) == Seq::<VisitView>::empty());
        assert(spec_pending_events(exp) =~= spec_visit_events_list(v.extra) + seq![
            VisitView::Pop(w),
        ]);
    } else {
        let rest = exp.subrange(1, exp.len() as int);
        let v_rest = ComponentView { extra: v.extra.subrange(1, v.extra.len() as int), ..v };
        assert(rest[rest.len() - 1] == exp[exp.len() - 1]);
        assert forall|j: int| 0 <= j < rest.len() - 1 implies spec_visit(rest[j])
            == VisitView::Push(v_rest.extra[j]) by {
            assert(rest[j] == exp[j + 1]);
        }
        lemma_pending_push_expansion(rest, v_rest, w);
        assert(spec_visit(exp[0]) == VisitView::Push(v.extra[0]));
        assert(exp[0] is Push);
        assert(spec_component(exp[0]->Push_0) == v.extra[0]);
        assert(spec_pending_events(exp) == spec_visit_events(spec_component(exp[0]->Push_0))
            + spec_pending_events(rest));
        assert(v_rest.extra == v.extra.subrange(1, v.extra.len() as int));
        assert(spec_visit_events_list(v.extra) == spec_visit_events(v.extra[0])
            + spec_visit_events_list(v.extra.subrange(1, v.extra.len() as int)));
        assert(spec_pending_events(rest) == spec_visit_events_list(v_rest.extra) + seq![
            VisitView::Pop(w),
        ]);
        assert(spec_pending_events(exp) =~= spec_visit_events(v.extra[0]) + (
        spec_visit_events_list(v_rest.extra) + seq![VisitView::Pop(w)]));
        assert(spec_visit_events_list(v.extra) + seq![VisitView::Pop(w)] =~= spec_visit_events(
            v.extra[0],
        ) + (spec_visit_events_list(v_rest.extra) + seq![VisitView::Pop(w)]));
        assert(spec_pending_events(exp) =~= spec_visit_events_list(v.extra) + seq![
            VisitView::Pop(w),
        ]);
    }
}

impl Component {
    /// Starts a flat traversal of this tree, depth-first by default. The
    /// traversal works on a snapshot: later changes to this component do not
    /// affect it, and a fresh traversal can be started at any time.
    pub fn iter(&self) -> (r: FlatIterator)
        ensures
            r.order == IterOrder::DepthFirst,
            !r.include_translate_args,
            r.remaining() == spec_depth_first(spec_component(*self), false),
    {
        FlatIterator::new(self)
    }

    /// Starts a structure-preserving traversal of this tree, yielding push
    /// and pop events so a consumer can track ancestry itself.
    pub fn visit(&self) -> (r: VisitingIterator)
        ensures
            r.remaining() == spec_visit_events(spec_component(*self)),
    {
        VisitingIterator::new(self)
    }
}

} // verus!
