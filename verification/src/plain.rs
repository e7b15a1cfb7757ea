use vstd::prelude::*;

use crate::component::{lemma_seq_sum_concat, seq_size_sum, spec_component, spec_components,
    spec_content_size, Component, ComponentView};
use crate::content::{spec_shallow, ContentView};
use crate::style::blank_style_view;

verus! {

/// A codec that flattens a component tree to a display string without any
/// formatting. Each node contributes the shallow form of its content, in
/// depth-first order; styles and tree shape are dropped. Decoding therefore
/// cannot recover structure: it always produces a single text component.
#[derive(Clone, Copy, Debug, PartialEq, Eq)]
pub struct PlainTextCodec;

/// The plain-text form of a tree model: the shallow form of the node's
/// content, then each child's plain-text form, in order.
pub open spec fn spec_plain(c: ComponentView) -> Seq<char>
    decreases spec_content_size(c), 0int,
    via spec_plain_decreases
{
    spec_shallow(c.content) + spec_plain_list(c.extra)
}

#[via_fn]
proof fn spec_plain_decreases(c: ComponentView) {
    if c.content is Translation {
        lemma_seq_sum_concat(c.content->Translation_with, c.extra);
    }
}

/// The plain-text forms of a forest, concatenated.
pub open spec fn spec_plain_list(s: Seq<ComponentView>) -> Seq<char>
    decreases seq_size_sum(s), s.len(),
    via spec_plain_list_decreases
{
    if s.len() == 0 {
        Seq::empty()
    } else {
        spec_plain(s[0]) + spec_plain_list(s.subrange(1, s.len() as int))
    }
}

#[via_fn]
proof fn spec_plain_list_decreases(s: Seq<ComponentView>) {
    if s.len() > 0 {
        assert(seq_size_sum(s) == spec_content_size(s[0]) + seq_size_sum(
            s.subrange(1, s.len() as int),
        ));
    }
}

impl PlainTextCodec {
    /// Encodes a component tree as its plain display text. Never fails.
    pub fn serialize(self, component: &Component) -> (r: String)
        ensures
            r@ == spec_plain(spec_component(*component)),
    {
        let mut out = String::new();
        encode_plain(component, &mut out);
        out
    }

    /// Decodes a string as a single text component with a blank style and no
    /// children. Structure and styling cannot be recovered. Never fails.
    pub fn deserialize(self, value: &str) -> (r: Component)
        ensures
            spec_component(r) == (ComponentView {
                content: ContentView::Text(value@),
                style: blank_style_view(),
                extra: Seq::empty(),
            }),
    {
        Component::text(value)
    }
}

/// Appends the plain-text form of one tree to the output.
#[verifier::loop_isolation(false)]
fn encode_plain(c: &Component, out: &mut String)
    ensures
        final(out)@ == old(out)@ + spec_plain(spec_component(*c)),
    decreases spec_content_size(spec_component(*c)),
{
    let piece = c.content.to_display_string();
    out.append(piece.as_str());
    let ghost me = spec_component(*c);
    let mut i: usize = 0;
    proof {
        broadcast use crate::component::lemma_spec_components;

        assert(me.extra == spec_components(c.extra@));
        assert(spec_plain_list(me.extra.take(0)) == Seq::<char>::empty()) by {
            assert(me.extra.take(0) =~= Seq::<ComponentView>::empty());
        }
        assert(out@ =~= old(out)@ + spec_shallow(me.content) + spec_plain_list(me.extra.take(0)));
    }
    while i < c.extra.len()
        invariant
            0 <= i <= c.extra@.len(),
            out@ == old(out)@ + spec_shallow(me.content) + spec_plain_list(me.extra.take(i as int)),
        decreases c.extra@.len() - i,
    {
        proof {
            broadcast use crate::component::lemma_spec_components;

            assert(spec_component(c.extra@[i as int]) == me.extra[i as int]);
            assert(decreases_to!(*c => c.extra@[i as int]));
            lemma_content_size_child(me, i as int);
        }
        encode_plain(&c.extra[i], out);
        proof {
            lemma_plain_list_take_step(me.extra, i as int);
        }
        i += 1;
    }
    proof {
        assert(me.extra.take(me.extra.len() as int) =~= me.extra);
    }
}

/// A child's content size is below its parent's.
proof fn lemma_content_size_child(c: ComponentView, i: int)
    requires
        0 <= i < c.extra.len(),
    ensures
        spec_content_size(c.extra[i]) < spec_content_size(c),
{
    lemma_seq_sum_contains(c.extra, i);
}

/// One member's content size is at most the forest's sum.
proof fn lemma_seq_sum_contains(s: Seq<ComponentView>, i: int)
    requires
        0 <= i < s.len(),
    ensures
        spec_content_size(s[i]) <= seq_size_sum(s),
    decreases i,
{
    if i == 0 {
    } else {
        lemma_seq_sum_contains(s.subrange(1, s.len() as int), i - 1);
        assert(s.subrange(1, s.len() as int)[i - 1] == s[i]);
    }
}

proof fn lemma_plain_list_take_step(s: Seq<ComponentView>, i: int)
    requires
        0 <= i < s.len(),
    ensures
        spec_plain_list(s.take(i + 1)) == spec_plain_list(s.take(i)) + spec_plain(s[i]),
{
    assert(s.take(i + 1) =~= s.take(i).push(s[i]));
    lemma_plain_list_push(s.take(i), s[i]);
}

proof fn lemma_plain_list_push(s: Seq<ComponentView>, x: ComponentView)
    ensures
        spec_plain_list(s.push(x)) == spec_plain_list(s) + spec_plain(x),
    decreases s.len(),
{
    if s.len() == 0 {
        assert(s.push(x)[0] == x);
        assert(s.push(x).subrange(1, 1) =~= Seq::<ComponentView>::empty());
        assert(spec_plain_list(s.push(x).subrange(1, 1)) == Seq::<char>::empty());
        assert(spec_plain_list(s) == Seq::<char>::empty());
        assert(spec_plain_list(s.push(x)) =~= spec_plain_list(s) + spec_plain(x));
    } else {
        assert(s.push(x)[0] == s[0]);
        assert(s.push(x).subrange(1, s.push(x).len() as int) =~= s.subrange(
            1,
            s.len() as int,
        ).push(x));
        lemma_plain_list_push(s.subrange(1, s.len() as int), x);
        assert(spec_plain_list(s.push(x)) =~= spec_plain_list(s) + spec_plain(x));
    }
}


/// The plain-text form of a bare text component is exactly its own string;
/// with the decoder's contract, which returns precisely the text component
/// of its input, a bare text component therefore survives a plain-text
/// encode and decode unchanged.
pub proof fn lemma_plain_text_round_trip(s: Seq<char>)
    ensures
        spec_plain(
            ComponentView {
                content: ContentView::Text(s),
                style: blank_style_view(),
                extra: Seq::empty(),
            },
        ) == s,
{
    let c = ComponentView {
        content: ContentView::Text(s),
        style: blank_style_view(),
        extra: Seq::empty(),
    };
    assert(spec_plain_list(c.extra) == Seq::<char>::empty());
    assert(spec_plain(c) =~= s);
}

} // verus!
