use vstd::prelude::*;

use crate::component::{spec_component, spec_components, Component, ComponentView};

verus! {

/// The content payload of a component: a closed tagged union, one variant per
/// component type.
#[derive(Debug, PartialEq, Eq)]
pub enum Content {
    /// Plain text content: a raw display string.
    Text(String),
    /// A keybind reference: an action identifier whose bound button is shown.
    Keybind(String),
    /// A scoreboard score reference plus its resolved display value.
    Score {
        /// The entry name: a player name or unique identifier.
        name: String,
        /// The objective the score comes from.
        objective: String,
        /// The resolved score value; defaults to the empty string when a
        /// serial form omits it.
        value: String,
    },
    /// Localized content: a translation key and the components interpolated
    /// into its argument slots.
    Translation {
        /// The translation key identifier.
        key: String,
        /// The interpolated argument components, in slot order.
        with: Vec<Component>,
    },
    /// No payload: a structural-only node.
    Empty,
}

/// The mathematical model of a [`Content`] payload.
#[verifier::ext_equal]
pub enum ContentView {
    /// Model of text content.
    Text(Seq<char>),
    /// Model of a keybind reference.
    Keybind(Seq<char>),
    /// Model of a score reference.
    Score {
        /// Model of the entry name.
        name: Seq<char>,
        /// Model of the objective name.
        objective: Seq<char>,
        /// Model of the resolved value.
        value: Seq<char>,
    },
    /// Model of localized content.
    Translation {
        /// Model of the translation key.
        key: Seq<char>,
        /// Models of the argument components.
        with: Seq<ComponentView>,
    },
    /// Model of an empty payload.
    Empty,
}

/// The model of a content payload.
pub open spec fn spec_content(c: Content) -> ContentView
    decreases c,
{
    match c {
        Content::Text(t) => ContentView::Text(t@),
        Content::Keybind(k) => ContentView::Keybind(k@),
        Content::Score { name, objective, value } => ContentView::Score {
            name: name@,
            objective: objective@,
            value: value@,
        },
        Content::Translation { key, .. } => ContentView::Translation {
            key: key@,
            with: spec_components(c->Translation_with@),
        },
        Content::Empty => ContentView::Empty,
    }
}

/// The shallow display form of a content model: text is itself; a keybind is
/// `[key]`; a score is its value; a translation is `<key:arg1:arg2:...>` with
/// each argument rendered by its own shallow form; empty contributes nothing.
pub open spec fn spec_shallow(c: ContentView) -> Seq<char>
    decreases c,
{
    match c {
        ContentView::Text(t) => t,
        ContentView::Keybind(k) => seq!['['] + k + seq![']'],
        ContentView::Score { value, .. } => value,
        ContentView::Translation { key, .. } => seq!['<'] + key + spec_shallow_args(
            c->Translation_with,
        ) + seq!['>'],
        ContentView::Empty => Seq::empty(),
    }
}

/// The shallow display form of a translation's arguments: for each argument
/// in order, a `:` followed by the shallow form of its content.
pub open spec fn spec_shallow_args(s: Seq<ComponentView>) -> Seq<char>
    decreases s,
{
    if s.len() == 0 {
        Seq::empty()
    } else {
        seq![':'] + spec_shallow(s[0].content) + spec_shallow_args(s.subrange(1, s.len() as int))
    }
}

proof fn lemma_shallow_args_push(s: Seq<ComponentView>, x: ComponentView)
    ensures
        spec_shallow_args(s.push(x)) == spec_shallow_args(s) + seq![':'] + spec_shallow(x.content),
    decreases s.len(),
{
    if s.len() == 0 {
        reveal_with_fuel(spec_shallow_args, 3);
        assert(s.push(x)[0] == x);
        assert(s.push(x).subrange(1, 1) =~= Seq::<ComponentView>::empty());
        assert(spec_shallow_args(s.push(x)) =~= spec_shallow_args(s) + seq![':'] + spec_shallow(
            x.content,
        ));
    } else {
        assert(s.push(x)[0] == s[0]);
        assert(s.push(x).subrange(1, s.push(x).len() as int) =~= s.subrange(
            1,
            s.len() as int,
        ).push(x));
        lemma_shallow_args_push(s.subrange(1, s.len() as int), x);
        assert(spec_shallow_args(s.push(x)) =~= spec_shallow_args(s) + seq![':'] + spec_shallow(
            x.content,
        ));
    }
}

impl Content {
    /// The shallow display string of this content.
    #[verifier::loop_isolation(false)]
    pub fn to_display_string(&self) -> (r: String)
        ensures
            r@ == spec_shallow(spec_content(*self)),
        decreases *self,
    {
        match self {
            Content::Text(t) => t.clone(),
            Content::Keybind(k) => {
                let mut out = String::from_str("[");
                out.append(k.as_str());
                out.append("]");
                proof {
                broadcast use crate::component::lemma_spec_components;
                    reveal_strlit("[");
                    reveal_strlit("]");
                    assert(out@ =~= spec_shallow(spec_content(*self)));
                }
                out
            },
            Content::Score { value, .. } => value.clone(),
            Content::Translation { key, with } => {
                let mut out = String::from_str("<");
                out.append(key.as_str());
                let ghost args = spec_content(*self)->Translation_with;
                let mut i: usize = 0;
                proof {
                    broadcast use crate::component::lemma_spec_components;
                    reveal_strlit("<");
                    assert((*self)->Translation_with == *with);
                    assert(args == spec_components(with@));
                    assert(args.take(0) =~= Seq::<ComponentView>::empty());
                    assert(out@ =~= "<"@ + key@ + spec_shallow_args(args.take(0)));
                }
                while i < with.len()
                    invariant
                        0 <= i <= with@.len(),
                        args == spec_content(*self)->Translation_with,
                        args == spec_components(with@),
                        args.len() == with@.len(),
                        out@ == "<"@ + key@ + spec_shallow_args(args.take(i as int)),
                    decreases with@.len() - i,
                {
                    out.append(":");
                    proof {
                        broadcast use crate::component::lemma_spec_components;
                        assert((*self)->Translation_with == *with);
                        assert(decreases_to!(*self => (*self)->Translation_with@[i as int]));
                        assert(decreases_to!(
                            (*self)->Translation_with@[i as int]
                            => (*self)->Translation_with@[i as int].content));
                    }
                    let arg = &with[i];
                    let piece = arg.content.to_display_string();
                    out.append(piece.as_str());
                    proof {
                broadcast use crate::component::lemma_spec_components;
                        reveal_strlit(":");
                        assert(args.take(i + 1) =~= args.take(i as int).push(args[i as int]));
                        lemma_shallow_args_push(args.take(i as int), args[i as int]);
                        assert(args[i as int].content == spec_content(with@[i as int].content));
                        assert(out@ =~= "<"@ + key@ + spec_shallow_args(args.take(i + 1)));
                    }
                    i += 1;
                }
                out.append(">");
                proof {
                broadcast use crate::component::lemma_spec_components;
                    reveal_strlit("<");
                    reveal_strlit(">");
                    assert(args.take(with@.len() as int) =~= args);
                    assert(out@ =~= spec_shallow(spec_content(*self)));
                }
                out
            },
            Content::Empty => String::new(),
        }
    }
}

impl Clone for Content {
    /// Clones the content; the copy has the same model.
    #[verifier::loop_isolation(false)]
    fn clone(&self) -> (r: Self)
        ensures
            spec_content(r) == spec_content(*self),
        decreases *self,
    {
        match self {
            Content::Text(t) => Content::Text(t.clone()),
            Content::Keybind(k) => Content::Keybind(k.clone()),
            Content::Score { name, objective, value } => Content::Score {
                name: name.clone(),
                objective: objective.clone(),
                value: value.clone(),
            },
            Content::Translation { key, with } => {
                let mut args: Vec<Component> = Vec::new();
                let mut i: usize = 0;
                while i < with.len()
                    invariant
                        0 <= i <= with@.len(),
                        args@.len() == i,
                        forall|j: int| 0 <= j < i ==> spec_component(args@[j]) == spec_component(
                            with@[j],
                        ),
                    decreases with@.len() - i,
                {
                    proof {
                        broadcast use crate::component::lemma_spec_components;
                        assert((*self)->Translation_with == *with);
                        assert(decreases_to!(*self => (*self)->Translation_with@[i as int]));
                    }
                    args.push(with[i].clone());
                    i += 1;
                }
                let r = Content::Translation { key: key.clone(), with: args };
                proof {
                    broadcast use crate::component::lemma_spec_components;
                    assert((*self)->Translation_with == *with);
                    assert(spec_content(r)->Translation_with == spec_components(args@));
                    assert(spec_content(*self)->Translation_with == spec_components(with@));
                    assert(spec_content(r)->Translation_with =~= spec_content(
                        *self,
                    )->Translation_with);
                    assert(spec_content(r) =~= spec_content(*self));
                }
                r
            },
            Content::Empty => Content::Empty,
        }
    }
}

impl Default for Content {
    /// The default content is empty.
    fn default() -> (r: Self)
        ensures
            spec_content(r) == ContentView::Empty,
    {
        Content::Empty
    }
}

} // verus!
