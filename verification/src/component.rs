use vstd::prelude::*;

use crate::content::{spec_content, Content, ContentView};
use crate::style::{blank_style_view, spec_merge, spec_style, Style, StyleView, TextColor};

verus! {

/// A text component: a tree node combining a content payload, an inheritable
/// style, and an ordered list of child components. When displayed, a tree is
/// written out depth-first.
#[derive(Debug, PartialEq, Eq)]
pub struct Component {
    /// The component's content payload.
    pub content: Content,
    /// The component's style.
    pub style: Style,
    /// The component's children, read left to right when rendering.
    pub extra: Vec<Component>,
}

/// The mathematical model of a [`Component`] tree.
#[verifier::ext_equal]
pub struct ComponentView {
    /// Model of the content payload.
    pub content: ContentView,
    /// Model of the style.
    pub style: StyleView,
    /// Models of the children, in order.
    pub extra: Seq<ComponentView>,
}

/// The model of a component tree.
pub open spec fn spec_component(c: Component) -> ComponentView
    decreases c,
{
    ComponentView {
        content: spec_content(c.content),
        style: spec_style(c.style),
        extra: spec_components(c.extra@),
    }
}

/// The models of a sequence of components, in order.
pub open spec fn spec_components(v: Seq<Component>) -> Seq<ComponentView>
    decreases v,
{
    if v.len() == 0 {
        Seq::empty()
    } else {
        seq![spec_component(v[0])] + spec_components(v.subrange(1, v.len() as int))
    }
}

/// The models of a sequence of components are the models of its members, in
/// order.
pub broadcast proof fn lemma_spec_components(v: Seq<Component>)
    ensures
        (#[trigger] spec_components(v)).len() == v.len(),
        forall|i: int| 0 <= i < v.len() ==> spec_components(v)[i] == spec_component(v[i]),
    decreases v.len(),
{
    if v.len() > 0 {
        let rest = v.subrange(1, v.len() as int);
        lemma_spec_components(rest);
        assert forall|i: int| 0 <= i < v.len() implies spec_components(v)[i] == spec_component(
            v[i],
        ) by {
            if i > 0 {
                assert(spec_components(v)[i] == spec_components(rest)[i - 1]);
                assert(rest[i - 1] == v[i]);
            }
        }
    }
}

/// The number of content nodes in a tree model: the node itself, its
/// children, and, for localized content, its translation arguments.
pub open spec fn spec_content_size(c: ComponentView) -> nat
    decreases c,
{
    1 + seq_size_sum(c.extra) + if c.content is Translation {
        seq_size_sum(c.content->Translation_with)
    } else {
        0
    }
}

/// The summed content sizes of a sequence of tree models.
pub open spec fn seq_size_sum(s: Seq<ComponentView>) -> nat
    decreases s,
{
    if s.len() == 0 {
        0
    } else {
        spec_content_size(s[0]) + seq_size_sum(s.subrange(1, s.len() as int))
    }
}

impl Component {
    /// Creates a component with the provided content, a blank style and no
    /// children.
    pub fn new(content: Content) -> (r: Component)
        ensures
            spec_component(r) == (ComponentView {
                content: spec_content(content),
                style: blank_style_view(),
                extra: Seq::empty(),
            }),
    {
        let r = Component { content, style: Style::blank(), extra: Vec::new() };
        proof {
                broadcast use lemma_spec_components;
            assert(spec_component(r) =~= ComponentView {
                content: spec_content(r.content),
                style: blank_style_view(),
                extra: Seq::empty(),
            });
        }
        r
    }

    /// Creates a text component with no styling and no children.
    pub fn text(text: &str) -> (r: Component)
        ensures
            spec_component(r) == (ComponentView {
                content: ContentView::Text(text@),
                style: blank_style_view(),
                extra: Seq::empty(),
            }),
    {
        Component::new(Content::Text(String::from_str(text)))
    }

    /// Creates a keybind component. The key identifies a button binding; the
    /// client shows the button that the action is bound to.
    pub fn keybind(key: &str) -> (r: Component)
        ensures
            spec_component(r) == (ComponentView {
                content: ContentView::Keybind(key@),
                style: blank_style_view(),
                extra: Seq::empty(),
            }),
    {
        Component::new(Content::Keybind(String::from_str(key)))
    }

    /// Creates a score component from an entry name, an objective name, and
    /// the resolved score value.
    pub fn score(name: &str, objective: &str, value: &str) -> (r: Component)
        ensures
            spec_component(r) == (ComponentView {
                content: ContentView::Score { name: name@, objective: objective@, value: value@ },
                style: blank_style_view(),
                extra: Seq::empty(),
            }),
    {
        Component::new(
            Content::Score {
                name: String::from_str(name),
                objective: String::from_str(objective),
                value: String::from_str(value),
            },
        )
    }

    /// Creates a translation component from a translation key and the
    /// components interpolated into its argument slots.
    pub fn translate(key: &str, with: Vec<Component>) -> (r: Component)
        ensures
            spec_component(r) == (ComponentView {
                content: ContentView::Translation { key: key@, with: spec_components(with@) },
                style: blank_style_view(),
                extra: Seq::empty(),
            }),
    {
        let ghost with_view = spec_components(with@);
        let r = Component::new(Content::Translation { key: String::from_str(key), with });
        proof {
                broadcast use lemma_spec_components;
            assert(spec_component(r) =~= ComponentView {
                content: ContentView::Translation { key: key@, with: with_view },
                style: blank_style_view(),
                extra: Seq::empty(),
            });
        }
        r
    }

    /// Creates an empty component: no content, but it may still carry a style
    /// and children.
    pub fn empty() -> (r: Component)
        ensures
            spec_component(r) == (ComponentView {
                content: ContentView::Empty,
                style: blank_style_view(),
                extra: Seq::empty(),
            }),
    {
        Component::new(Content::Empty)
    }

    /// Appends children to this component, in order, after any existing ones.
    #[verifier::loop_isolation(false)]
    pub fn append(&mut self, extra: Vec<Component>)
        ensures
            spec_component(*final(self)) == (ComponentView {
                extra: spec_component(*old(self)).extra + spec_components(extra@),
                ..spec_component(*old(self))
            }),
    {
        let ghost appended = spec_components(extra@);
        let mut rest = extra;
        let mut i: usize = 0;
        proof {
            broadcast use lemma_spec_components;
            assert(appended == spec_components(rest@));
            assert(spec_component(*self).extra =~= spec_component(*old(self)).extra + appended.take(
                0,
            ));
        }
        while i < rest.len()
            invariant
                0 <= i <= rest.len(),
                appended.len() == rest@.len(),
                forall|j: int| i <= j < rest@.len() ==> appended[j] == spec_component(rest@[j]),
                spec_component(*self).content == spec_component(*old(self)).content,
                spec_component(*self).style == spec_component(*old(self)).style,
                spec_component(*self).extra == spec_component(*old(self)).extra + appended.take(
                    i as int,
                ),
            decreases rest.len() - i,
        {
            let ghost before = spec_component(*self).extra;
            let ghost vb = self.extra@;
            proof {
                broadcast use lemma_spec_components;
                assert(before == spec_components(vb));
            }
            let c = rest[i].clone();
            self.extra.push(c);
            proof {
                broadcast use lemma_spec_components;
                assert(spec_component(*self).extra == spec_components(self.extra@));
                assert(appended == spec_components(rest@));
                assert(appended.take(i + 1) =~= appended.take(i as int).push(appended[i as int]));
                assert(spec_component(*self).extra =~= before.push(appended[i as int]));
            }
            i += 1;
        }
        proof {
                broadcast use lemma_spec_components;
            assert(appended.take(rest@.len() as int) =~= appended);
            assert(spec_component(*self) =~= ComponentView {
                extra: spec_component(*old(self)).extra + appended,
                ..spec_component(*old(self))
            });
        }
    }

    /// Appends children to this component and passes the component back: the
    /// builder form of [`Component::append`].
    pub fn with_extra(self, extra: Vec<Component>) -> (r: Component)
        ensures
            spec_component(r) == (ComponentView {
                extra: spec_component(self).extra + spec_components(extra@),
                ..spec_component(self)
            }),
    {
        let mut this = self;
        this.append(extra);
        this
    }

    /// Removes all of this component's children.
    pub fn clear_extra(&mut self)
        ensures
            spec_component(*final(self)) == (ComponentView {
                extra: Seq::empty(),
                ..spec_component(*old(self))
            }),
    {
        self.extra.clear();
        proof {
                broadcast use lemma_spec_components;
            assert(spec_component(*self) =~= ComponentView {
                extra: Seq::empty(),
                ..spec_component(*old(self))
            });
        }
    }

    /// Removes all of this component's children and returns them, in order.
    pub fn take_extra(&mut self) -> (r: Vec<Component>)
        ensures
            spec_components(r@) == spec_component(*old(self)).extra,
            spec_component(*final(self)) == (ComponentView {
                extra: Seq::empty(),
                ..spec_component(*old(self))
            }),
    {
        let mut target: Vec<Component> = Vec::new();
        core::mem::swap(&mut self.extra, &mut target);
        proof {
                broadcast use lemma_spec_components;
            assert(spec_component(*self) =~= ComponentView {
                extra: Seq::empty(),
                ..spec_component(*old(self))
            });
        }
        target
    }

    /// The number of content nodes in this tree, counting the node itself,
    /// its descendants, and translation arguments. Saturates at the largest
    /// machine integer in the (unreachable in practice) case of a larger
    /// count.
    #[verifier::loop_isolation(false)]
    pub fn content_size(&self) -> (r: usize)
        ensures
            r <= spec_content_size(spec_component(*self)),
            spec_content_size(spec_component(*self)) <= usize::MAX ==> r == spec_content_size(
                spec_component(*self),
            ),
        decreases *self,
    {
        let own: usize = 1;
        let mut total: usize = own;
        let ghost me = spec_component(*self);
        let mut i: usize = 0;
        proof {
            broadcast use lemma_spec_components;
            assert(me.extra == spec_components(self.extra@));
            assert(me.extra.take(0) =~= Seq::<ComponentView>::empty());
        }
        while i < self.extra.len()
            invariant
                0 <= i <= self.extra@.len(),
                me == spec_component(*self),
                me.extra.len() == self.extra@.len(),
                total <= 1 + seq_size_sum(me.extra.take(i as int)),
                1 + seq_size_sum(me.extra.take(i as int)) <= usize::MAX ==> total == 1
                    + seq_size_sum(me.extra.take(i as int)),
            decreases self.extra@.len() - i,
        {
            proof {
                broadcast use lemma_spec_components;
                assert(decreases_to!(*self => self.extra@[i as int]));
            }
            let child_size = self.extra[i].content_size();
            proof {
                broadcast use lemma_spec_components;
                lemma_seq_sum_take_step(me.extra, i as int);
                assert(me.extra == spec_components(self.extra@));
                assert(spec_component(self.extra@[i as int]) == me.extra[i as int]);
            }
            total = saturating_add(total, child_size);
            i += 1;
        }
        proof {
                broadcast use lemma_spec_components;
            assert(me.extra.take(me.extra.len() as int) =~= me.extra);
        }
        let r = match &self.content {
            Content::Translation { with, .. } => {
                let ghost args = me.content->Translation_with;
                let mut args_total: usize = 0;
                let mut j: usize = 0;
                proof {
                    broadcast use lemma_spec_components;
                    assert(self.content->Translation_with == *with);
                    assert(args == spec_components(with@));
                    assert(args.take(0) =~= Seq::<ComponentView>::empty());
                }
                while j < with.len()
                    invariant
                        0 <= j <= with@.len(),
                        args == spec_components(with@),
                        args.len() == with@.len(),
                        args_total <= seq_size_sum(args.take(j as int)),
                        seq_size_sum(args.take(j as int)) <= usize::MAX ==> args_total
                            == seq_size_sum(args.take(j as int)),
                    decreases with@.len() - j,
                {
                    proof {
                        broadcast use lemma_spec_components;
                        assert(self.content->Translation_with == *with);
                        assert(decreases_to!(*self => self.content->Translation_with@[j as int]));
                    }
                    let arg_size = with[j].content_size();
                    proof {
                        broadcast use lemma_spec_components;
                        lemma_seq_sum_take_step(args, j as int);
                        assert(args == spec_components(with@));
                        assert(spec_component(with@[j as int]) == args[j as int]);
                    }
                    args_total = saturating_add(args_total, arg_size);
                    j += 1;
                }
                proof {
                broadcast use lemma_spec_components;
                    assert(args.take(args.len() as int) =~= args);
                }
                saturating_add(total, args_total)
            },
            _ => total,
        };
        r
    }

    /// The text of this component, excluding its children: the content's
    /// string when it is text, and `None` otherwise.
    pub fn shallow_text(&self) -> (r: Option<&str>)
        ensures
            match r {
                Some(t) => spec_component(*self).content == ContentView::Text(t@),
                None => !(spec_component(*self).content is Text),
            },
    {
        match &self.content {
            Content::Text(text) => Some(text.as_str()),
            _ => None,
        }
    }

    /// Flattens a component whose content is empty by splicing its first
    /// child's content up into it: the styles merge (the child's set fields
    /// win), the first child's own children come first, and the remaining
    /// children stay, in order. A component with content, or without
    /// children, is returned unchanged.
    pub fn flattened(self) -> (r: Component)
        ensures
            spec_component(r) == spec_flattened(spec_component(self)),
    {
        let keep = !matches!(self.content, Content::Empty) || self.extra.len() == 0;
        if keep {
            return self;
        }
        let ghost me = spec_component(self);
        let Component { content: _, style, extra } = self;
        let ghost orig = extra@;
        proof {
            broadcast use lemma_spec_components;
            assert(me.extra == spec_components(orig));
        }
        let mut rest = extra;
        let first = rest.remove(0);
        let ghost first_view = spec_component(first);
        let Component { content: first_content, style: first_style, extra: first_extra } = first;
        let mut style = style;
        style.merge(&first_style);
        let ghost rest_view = rest@;
        let mut new_extra = first_extra;
        new_extra.append(&mut rest);
        let r = Component { content: first_content, style, extra: new_extra };
        proof {
            broadcast use lemma_spec_components;
            assert(first_view == me.extra[0]);
            assert(rest_view == orig.remove(0));
            assert(orig.remove(0) =~= orig.skip(1));
            assert(spec_component(r).extra == spec_components(new_extra@));
            assert(first_view.extra == spec_components(first_extra@));
            assert(spec_component(r).extra =~= first_view.extra + me.extra.skip(1));
            assert(spec_component(r) =~= spec_flattened(me));
        }
        r
    }
}

/// The flattening of a tree model: when the root's content is empty and it
/// has at least one child, the first child's content replaces the root's, the
/// styles merge with the child's fields winning, and the root's children
/// become the first child's children followed by the remaining ones.
pub open spec fn spec_flattened(c: ComponentView) -> ComponentView {
    if c.content is Empty && c.extra.len() > 0 {
        let first = c.extra[0];
        ComponentView {
            content: first.content,
            style: spec_merge(c.style, first.style),
            extra: first.extra + c.extra.skip(1),
        }
    } else {
        c
    }
}

/// The full flattening of a tree model: the flattening step applied until
/// the root has content of its own or no children are left.
pub open spec fn spec_flatten_all(c: ComponentView) -> ComponentView
    decreases spec_content_size(c),
    via spec_flatten_all_decreases
{
    if c.content is Empty && c.extra.len() > 0 {
        spec_flatten_all(spec_flattened(c))
    } else {
        c
    }
}

#[via_fn]
proof fn spec_flatten_all_decreases(c: ComponentView) {
    if c.content is Empty && c.extra.len() > 0 {
        lemma_flattened_size(c);
    }
}

/// Flattening an empty-content root with children loses exactly one node
/// from the content count.
pub proof fn lemma_flattened_size(c: ComponentView)
    requires
        c.content is Empty,
        c.extra.len() > 0,
    ensures
        spec_content_size(spec_flattened(c)) < spec_content_size(c),
{
    let first = c.extra[0];
    let rest = c.extra.subrange(1, c.extra.len() as int);
    assert(seq_size_sum(c.extra) == spec_content_size(first) + seq_size_sum(rest));
    assert(c.extra.skip(1) =~= rest);
    lemma_seq_sum_concat(first.extra, rest);
}

/// Adds two machine integers, saturating at the largest value.
fn saturating_add(a: usize, b: usize) -> (r: usize)
    ensures
        r <= a + b,
        a + b <= usize::MAX ==> r == a + b,
        r >= a,
        r >= b,
{
    if a <= usize::MAX - b {
        a + b
    } else {
        usize::MAX
    }
}

/// The summed content sizes of a concatenation are the sums of the parts.
pub proof fn lemma_seq_sum_concat(a: Seq<ComponentView>, b: Seq<ComponentView>)
    ensures
        seq_size_sum(a + b) == seq_size_sum(a) + seq_size_sum(b),
    decreases a.len(),
{
    if a.len() == 0 {
        assert(a + b =~= b);
    } else {
        assert((a + b)[0] == a[0]);
        assert((a + b).subrange(1, (a + b).len() as int) =~= a.subrange(1, a.len() as int) + b);
        lemma_seq_sum_concat(a.subrange(1, a.len() as int), b);
    }
}

/// Every tree model counts at least one content node.
pub proof fn lemma_content_size_pos(c: ComponentView)
    ensures
        spec_content_size(c) >= 1,
{
}

proof fn lemma_seq_sum_push(s: Seq<ComponentView>, x: ComponentView)
    ensures
        seq_size_sum(s.push(x)) == seq_size_sum(s) + spec_content_size(x),
    decreases s.len(),
{
    if s.len() == 0 {
        reveal_with_fuel(seq_size_sum, 3);
        assert(s.push(x)[0] == x);
        assert(s.push(x).subrange(1, 1) =~= Seq::<ComponentView>::empty());
    } else {
        assert(s.push(x)[0] == s[0]);
        assert(s.push(x).subrange(1, s.push(x).len() as int) =~= s.subrange(
            1,
            s.len() as int,
        ).push(x));
        lemma_seq_sum_push(s.subrange(1, s.len() as int), x);
    }
}

proof fn lemma_seq_sum_take_step(s: Seq<ComponentView>, i: int)
    requires
        0 <= i < s.len(),
    ensures
        seq_size_sum(s.take(i + 1)) == seq_size_sum(s.take(i)) + spec_content_size(s[i]),
{
    assert(s.take(i + 1) =~= s.take(i).push(s[i]));
    lemma_seq_sum_push(s.take(i), s[i]);
}

impl Clone for Component {
    /// Clones the tree; the copy has the same model.
    #[verifier::loop_isolation(false)]
    fn clone(&self) -> (r: Self)
        ensures
            spec_component(r) == spec_component(*self),
        decreases *self,
    {
        let mut children: Vec<Component> = Vec::new();
        let mut i: usize = 0;
        while i < self.extra.len()
            invariant
                0 <= i <= self.extra@.len(),
                children@.len() == i,
                forall|j: int| 0 <= j < i ==> spec_component(children@[j]) == spec_component(
                    self.extra@[j],
                ),
            decreases self.extra@.len() - i,
        {
            proof {
                broadcast use lemma_spec_components;
                assert(decreases_to!(*self => self.extra@[i as int]));
            }
            children.push(self.extra[i].clone());
            i += 1;
        }
        let r = Component {
            content: self.content.clone(),
            style: self.style.clone(),
            extra: children,
        };
        proof {
            broadcast use lemma_spec_components;
            assert(spec_component(r).extra == spec_components(children@));
            assert(spec_component(*self).extra == spec_components(self.extra@));
            assert(spec_component(r).extra =~= spec_component(*self).extra);
            assert(spec_component(r) =~= spec_component(*self));
        }
        r
    }
}

impl Default for Component {
    /// The default component is empty.
    fn default() -> (r: Self)
        ensures
            spec_component(r) == (ComponentView {
                content: ContentView::Empty,
                style: blank_style_view(),
                extra: Seq::empty(),
            }),
    {
        Component::empty()
    }
}


impl Component {
    /// Sets this component's `bold` flag.
    pub fn bold(&mut self, state: bool)
        ensures
            spec_component(*final(self)) == (ComponentView {
                style: StyleView { bold: Some(state), ..spec_component(*old(self)).style },
                ..spec_component(*old(self))
            }),
    {
        self.style.bold = Some(state);
        proof {
            assert(spec_component(*self) =~= ComponentView {
                style: StyleView { bold: Some(state), ..spec_component(*old(self)).style },
                ..spec_component(*old(self))
            });
        }
    }

    /// Sets the `bold` flag and passes the component back.
    pub fn with_bold(self, state: bool) -> (r: Component)
        ensures
            spec_component(r) == (ComponentView {
                style: StyleView { bold: Some(state), ..spec_component(self).style },
                ..spec_component(self)
            }),
    {
        let mut this = self;
        this.bold(state);
        this
    }

    /// Sets this component's `italic` flag.
    pub fn italic(&mut self, state: bool)
        ensures
            spec_component(*final(self)) == (ComponentView {
                style: StyleView { italic: Some(state), ..spec_component(*old(self)).style },
                ..spec_component(*old(self))
            }),
    {
        self.style.italic = Some(state);
        proof {
            assert(spec_component(*self) =~= ComponentView {
                style: StyleView { italic: Some(state), ..spec_component(*old(self)).style },
                ..spec_component(*old(self))
            });
        }
    }

    /// Sets the `italic` flag and passes the component back.
    pub fn with_italic(self, state: bool) -> (r: Component)
        ensures
            spec_component(r) == (ComponentView {
                style: StyleView { italic: Some(state), ..spec_component(self).style },
                ..spec_component(self)
            }),
    {
        let mut this = self;
        this.italic(state);
        this
    }

    /// Sets this component's color.
    pub fn color(&mut self, color: TextColor)
        ensures
            spec_component(*final(self)) == (ComponentView {
                style: StyleView { color: Some(color), ..spec_component(*old(self)).style },
                ..spec_component(*old(self))
            }),
    {
        self.style.color = Some(color);
        proof {
            assert(spec_component(*self) =~= ComponentView {
                style: StyleView { color: Some(color), ..spec_component(*old(self)).style },
                ..spec_component(*old(self))
            });
        }
    }

    /// Sets the color and passes the component back.
    pub fn with_color(self, color: TextColor) -> (r: Component)
        ensures
            spec_component(r) == (ComponentView {
                style: StyleView { color: Some(color), ..spec_component(self).style },
                ..spec_component(self)
            }),
    {
        let mut this = self;
        this.color(color);
        this
    }
}


impl Component {
    /// Sets this component's `underlined` flag.
    pub fn underlined(&mut self, state: bool)
        ensures
            spec_component(*final(self)) == (ComponentView {
                style: StyleView { underlined: Some(state), ..spec_component(*old(self)).style },
                ..spec_component(*old(self))
            }),
    {
        self.style.underlined = Some(state);
        proof {
            assert(spec_component(*self) =~= ComponentView {
                style: StyleView { underlined: Some(state), ..spec_component(*old(self)).style },
                ..spec_component(*old(self))
            });
        }
    }

    /// Sets the `underlined` flag and passes the component back.
    pub fn with_underlined(self, state: bool) -> (r: Component)
        ensures
            spec_component(r) == (ComponentView {
                style: StyleView { underlined: Some(state), ..spec_component(self).style },
                ..spec_component(self)
            }),
    {
        let mut this = self;
        this.underlined(state);
        this
    }

    /// Sets this component's `strikethrough` flag.
    pub fn strikethrough(&mut self, state: bool)
        ensures
            spec_component(*final(self)) == (ComponentView {
                style: StyleView { strikethrough: Some(state), ..spec_component(*old(self)).style },
                ..spec_component(*old(self))
            }),
    {
        self.style.strikethrough = Some(state);
        proof {
            assert(spec_component(*self) =~= ComponentView {
                style: StyleView { strikethrough: Some(state), ..spec_component(*old(self)).style },
                ..spec_component(*old(self))
            });
        }
    }

    /// Sets the `strikethrough` flag and passes the component back.
    pub fn with_strikethrough(self, state: bool) -> (r: Component)
        ensures
            spec_component(r) == (ComponentView {
                style: StyleView { strikethrough: Some(state), ..spec_component(self).style },
                ..spec_component(self)
            }),
    {
        let mut this = self;
        this.strikethrough(state);
        this
    }

    /// Sets this component's `obfuscated` flag.
    pub fn obfuscated(&mut self, state: bool)
        ensures
            spec_component(*final(self)) == (ComponentView {
                style: StyleView { obfuscated: Some(state), ..spec_component(*old(self)).style },
                ..spec_component(*old(self))
            }),
    {
        self.style.obfuscated = Some(state);
        proof {
            assert(spec_component(*self) =~= ComponentView {
                style: StyleView { obfuscated: Some(state), ..spec_component(*old(self)).style },
                ..spec_component(*old(self))
            });
        }
    }

    /// Sets the `obfuscated` flag and passes the component back.
    pub fn with_obfuscated(self, state: bool) -> (r: Component)
        ensures
            spec_component(r) == (ComponentView {
                style: StyleView { obfuscated: Some(state), ..spec_component(self).style },
                ..spec_component(self)
            }),
    {
        let mut this = self;
        this.obfuscated(state);
        this
    }

    /// Sets this component's `font`.
    pub fn font(&mut self, state: &str)
        ensures
            spec_component(*final(self)) == (ComponentView {
                style: StyleView { font: Some(state@), ..spec_component(*old(self)).style },
                ..spec_component(*old(self))
            }),
    {
        self.style.font = Some(String::from_str(state));
        proof {
            assert(spec_component(*self) =~= ComponentView {
                style: StyleView { font: Some(state@), ..spec_component(*old(self)).style },
                ..spec_component(*old(self))
            });
        }
    }

    /// Sets the `font` and passes the component back.
    pub fn with_font(self, state: &str) -> (r: Component)
        ensures
            spec_component(r) == (ComponentView {
                style: StyleView { font: Some(state@), ..spec_component(self).style },
                ..spec_component(self)
            }),
    {
        let mut this = self;
        this.font(state);
        this
    }

    /// Sets this component's `insertion`.
    pub fn insertion(&mut self, state: &str)
        ensures
            spec_component(*final(self)) == (ComponentView {
                style: StyleView { insertion: Some(state@), ..spec_component(*old(self)).style },
                ..spec_component(*old(self))
            }),
    {
        self.style.insertion = Some(String::from_str(state));
        proof {
            assert(spec_component(*self) =~= ComponentView {
                style: StyleView { insertion: Some(state@), ..spec_component(*old(self)).style },
                ..spec_component(*old(self))
            });
        }
    }

    /// Sets the `insertion` and passes the component back.
    pub fn with_insertion(self, state: &str) -> (r: Component)
        ensures
            spec_component(r) == (ComponentView {
                style: StyleView { insertion: Some(state@), ..spec_component(self).style },
                ..spec_component(self)
            }),
    {
        let mut this = self;
        this.insertion(state);
        this
    }

    /// Sets this component's click action.
    pub fn click_event(&mut self, event: crate::event::ClickEvent)
        ensures
            spec_component(*final(self)) == (ComponentView {
                style: StyleView {
                    click_event: Some(crate::event::spec_click_event(event)),
                    ..spec_component(*old(self)).style
                },
                ..spec_component(*old(self))
            }),
    {
        let ghost ev = crate::event::spec_click_event(event);
        self.style.click_event = Some(event);
        proof {
            assert(spec_component(*self) =~= ComponentView {
                style: StyleView { click_event: Some(ev), ..spec_component(*old(self)).style },
                ..spec_component(*old(self))
            });
        }
    }

    /// Sets the click action and passes the component back.
    pub fn with_click_event(self, event: crate::event::ClickEvent) -> (r: Component)
        ensures
            spec_component(r) == (ComponentView {
                style: StyleView { click_event: Some(crate::event::spec_click_event(event)), ..spec_component(self).style },
                ..spec_component(self)
            }),
    {
        let mut this = self;
        this.click_event(event);
        this
    }

    /// Sets this component's hover action.
    pub fn hover_event(&mut self, event: crate::event::HoverEvent)
        ensures
            spec_component(*final(self)) == (ComponentView {
                style: StyleView {
                    hover_event: Some(crate::event::spec_hover_event(event)),
                    ..spec_component(*old(self)).style
                },
                ..spec_component(*old(self))
            }),
    {
        let ghost ev = crate::event::spec_hover_event(event);
        self.style.hover_event = Some(event);
        proof {
            assert(spec_component(*self) =~= ComponentView {
                style: StyleView { hover_event: Some(ev), ..spec_component(*old(self)).style },
                ..spec_component(*old(self))
            });
        }
    }

    /// Sets the hover action and passes the component back.
    pub fn with_hover_event(self, event: crate::event::HoverEvent) -> (r: Component)
        ensures
            spec_component(r) == (ComponentView {
                style: StyleView { hover_event: Some(crate::event::spec_hover_event(event)), ..spec_component(self).style },
                ..spec_component(self)
            }),
    {
        let mut this = self;
        this.hover_event(event);
        this
    }

    /// Clears this component's `bold` field, so it is inherited again.
    pub fn clear_bold(&mut self)
        ensures
            spec_component(*final(self)) == (ComponentView {
                style: StyleView { bold: None, ..spec_component(*old(self)).style },
                ..spec_component(*old(self))
            }),
    {
        self.style.bold = None;
        proof {
            assert(spec_component(*self) =~= ComponentView {
                style: StyleView { bold: None, ..spec_component(*old(self)).style },
                ..spec_component(*old(self))
            });
        }
    }

    /// Clears this component's `italic` field, so it is inherited again.
    pub fn clear_italic(&mut self)
        ensures
            spec_component(*final(self)) == (ComponentView {
                style: StyleView { italic: None, ..spec_component(*old(self)).style },
                ..spec_component(*old(self))
            }),
    {
        self.style.italic = None;
        proof {
            assert(spec_component(*self) =~= ComponentView {
                style: StyleView { italic: None, ..spec_component(*old(self)).style },
                ..spec_component(*old(self))
            });
        }
    }

    /// Clears this component's `underlined` field, so it is inherited again.
    pub fn clear_underlined(&mut self)
        ensures
            spec_component(*final(self)) == (ComponentView {
                style: StyleView { underlined: None, ..spec_component(*old(self)).style },
                ..spec_component(*old(self))
            }),
    {
        self.style.underlined = None;
        proof {
            assert(spec_component(*self) =~= ComponentView {
                style: StyleView { underlined: None, ..spec_component(*old(self)).style },
                ..spec_component(*old(self))
            });
        }
    }

    /// Clears this component's `strikethrough` field, so it is inherited again.
    pub fn clear_strikethrough(&mut self)
        ensures
            spec_component(*final(self)) == (ComponentView {
                style: StyleView { strikethrough: None, ..spec_component(*old(self)).style },
                ..spec_component(*old(self))
            }),
    {
        self.style.strikethrough = None;
        proof {
            assert(spec_component(*self) =~= ComponentView {
                style: StyleView { strikethrough: None, ..spec_component(*old(self)).style },
                ..spec_component(*old(self))
            });
        }
    }

    /// Clears this component's `obfuscated` field, so it is inherited again.
    pub fn clear_obfuscated(&mut self)
        ensures
            spec_component(*final(self)) == (ComponentView {
                style: StyleView { obfuscated: None, ..spec_component(*old(self)).style },
                ..spec_component(*old(self))
            }),
    {
        self.style.obfuscated = None;
        proof {
            assert(spec_component(*self) =~= ComponentView {
                style: StyleView { obfuscated: None, ..spec_component(*old(self)).style },
                ..spec_component(*old(self))
            });
        }
    }

    /// Clears this component's `font` field, so it is inherited again.
    pub fn clear_font(&mut self)
        ensures
            spec_component(*final(self)) == (ComponentView {
                style: StyleView { font: None, ..spec_component(*old(self)).style },
                ..spec_component(*old(self))
            }),
    {
        self.style.font = None;
        proof {
            assert(spec_component(*self) =~= ComponentView {
                style: StyleView { font: None, ..spec_component(*old(self)).style },
                ..spec_component(*old(self))
            });
        }
    }

    /// Clears this component's `color` field, so it is inherited again.
    pub fn clear_color(&mut self)
        ensures
            spec_component(*final(self)) == (ComponentView {
                style: StyleView { color: None, ..spec_component(*old(self)).style },
                ..spec_component(*old(self))
            }),
    {
        self.style.color = None;
        proof {
            assert(spec_component(*self) =~= ComponentView {
                style: StyleView { color: None, ..spec_component(*old(self)).style },
                ..spec_component(*old(self))
            });
        }
    }

    /// Clears this component's `insertion` field, so it is inherited again.
    pub fn clear_insertion(&mut self)
        ensures
            spec_component(*final(self)) == (ComponentView {
                style: StyleView { insertion: None, ..spec_component(*old(self)).style },
                ..spec_component(*old(self))
            }),
    {
        self.style.insertion = None;
        proof {
            assert(spec_component(*self) =~= ComponentView {
                style: StyleView { insertion: None, ..spec_component(*old(self)).style },
                ..spec_component(*old(self))
            });
        }
    }

    /// Clears this component's `click_event` field, so it is inherited again.
    pub fn clear_click_event(&mut self)
        ensures
            spec_component(*final(self)) == (ComponentView {
                style: StyleView { click_event: None, ..spec_component(*old(self)).style },
                ..spec_component(*old(self))
            }),
    {
        self.style.click_event = None;
        proof {
            assert(spec_component(*self) =~= ComponentView {
                style: StyleView { click_event: None, ..spec_component(*old(self)).style },
                ..spec_component(*old(self))
            });
        }
    }

    /// Clears this component's `hover_event` field, so it is inherited again.
    pub fn clear_hover_event(&mut self)
        ensures
            spec_component(*final(self)) == (ComponentView {
                style: StyleView { hover_event: None, ..spec_component(*old(self)).style },
                ..spec_component(*old(self))
            }),
    {
        self.style.hover_event = None;
        proof {
            assert(spec_component(*self) =~= ComponentView {
                style: StyleView { hover_event: None, ..spec_component(*old(self)).style },
                ..spec_component(*old(self))
            });
        }
    }
}

} // verus!
