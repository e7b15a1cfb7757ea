use vstd::prelude::*;

use crate::chars::{chars_string, push_char, str_chars};
use crate::component::{lemma_flattened_size, lemma_seq_sum_concat, seq_size_sum, spec_component,
    spec_components, spec_content_size, spec_flatten_all, Component, ComponentView};
use crate::content::{Content, ContentView};
use crate::style::{blank_style_view, spec_color_code, spec_color_of_code, spec_merge, spec_style,
    Style, StyleView, TextColor};

verus! {

/// A codec for the legacy control-code text format: a string interleaving
/// literal text with two-character codes, each the control character followed
/// by a color digit (`0`-`9`, `a`-`f`), a formatting letter (`l`, `o`, `n`,
/// `m`, `k`), or the reset letter `r`.
///
/// The codec is parameterized by its control character; the game historically
/// uses `§`, and `&` is a common alternative.
///
/// Only named colors have a legacy code. An RGB color in a tree being encoded
/// has no code of its own: it contributes nothing to the output and, since no
/// code is emitted, does not reset the client's formatting state either.
#[derive(Clone, Copy, Debug, PartialEq, Eq)]
pub struct LegacyCodec {
    /// The control character that introduces each code.
    pub control: char,
}

impl LegacyCodec {
    /// A codec using the given control character.
    pub fn new(control: char) -> (r: LegacyCodec)
        ensures
            r.control == control,
    {
        LegacyCodec { control }
    }

    /// The codec variant using the section sign, the character the game
    /// itself uses.
    pub fn section() -> (r: LegacyCodec)
        ensures
            r.control == '§',
    {
        LegacyCodec { control: '§' }
    }

    /// The codec variant using the ampersand.
    pub fn ampersand() -> (r: LegacyCodec)
        ensures
            r.control == '&',
    {
        LegacyCodec { control: '&' }
    }

    /// Encodes a component tree in the legacy format: for each node in
    /// depth-first order, its color code if its own style names a color, then
    /// one code per formatting flag to apply, then its text. A color code
    /// resets the client's formatting, so when one is emitted the node's full
    /// effective style is re-applied rather than only its own flags.
    /// Never fails.
    pub fn serialize(&self, component: &Component) -> (r: String)
        ensures
            r@ == spec_legacy_encode(spec_component(*component), self.control),
    {
        let mut out = String::new();
        let blank = Style::blank();
        encode_legacy(component, &blank, self.control, &mut out);
        out
    }

    /// Decodes a legacy-format string. A synthetic reset code is prepended so
    /// that every segment starts with a code; the string is then split on the
    /// control character, and each non-empty segment becomes one flat child:
    /// a color code yields that color with every formatting flag cleared, a
    /// formatting letter yields that one flag, `r` yields the full reset
    /// style, and any other leading character leaves the whole segment as
    /// literal text with a blank style. The children hang off one synthetic
    /// empty root, which is then flattened until it carries content of its
    /// own, so a single run does not leave a wrapper node. Never fails.
    #[verifier::loop_isolation(false)]
    pub fn deserialize(&self, value: &str) -> (r: Component)
        ensures
            spec_component(r) == spec_legacy_decode(value@, self.control),
    {
        let chars = str_chars(value);
        let mut full: Vec<char> = Vec::new();
        full.push(self.control);
        full.push('r');
        full.extend_from_slice(chars.as_slice());
        proof {
            assert(full@ =~= seq![self.control, 'r'] + value@);
        }
        let segments = split_chars(&full, self.control);
        let ghost seg_views = spec_vec_views(segments@);
        let mut children: Vec<Component> = Vec::new();
        let mut i: usize = 0;
        proof {
            broadcast use crate::component::lemma_spec_components;

            assert(seg_views.take(0) =~= Seq::<Seq<char>>::empty());
            assert(spec_components(children@) =~= spec_segments_children(seg_views.take(0)));
        }
        while i < segments.len()
            invariant
                0 <= i <= segments@.len(),
                seg_views.len() == segments@.len(),
                spec_components(children@) == spec_segments_children(seg_views.take(i as int)),
            decreases segments@.len() - i,
        {
            let seg = &segments[i];
            let ghost before = spec_components(children@);
            if seg.len() > 0 {
                let child = segment_component(seg);
                children.push(child);
                proof {
                    broadcast use crate::component::lemma_spec_components;

                    assert(spec_components(children@) =~= before.push(
                        spec_segment_component(seg_views[i as int]),
                    ));
                }
            }
            proof {
                lemma_segments_children_take_step(seg_views, i as int);
                assert(spec_components(children@) =~= spec_segments_children(
                    seg_views.take(i + 1),
                ));
            }
            i += 1;
        }
        proof {
            assert(seg_views.take(seg_views.len() as int) =~= seg_views);
        }
        let root = Component { content: Content::Empty, style: Style::blank(), extra: children };
        proof {
            broadcast use crate::component::lemma_spec_components;

            assert(spec_component(root) =~= ComponentView {
                content: ContentView::Empty,
                style: blank_style_view(),
                extra: spec_segments_children(seg_views),
            });
        }
        flatten_fully(root)
    }
}

/// Applies the flattening step until the root has content of its own or no
/// children are left.
fn flatten_fully(c: Component) -> (r: Component)
    ensures
        spec_component(r) == spec_flatten_all(spec_component(c)),
    decreases spec_content_size(spec_component(c)),
{
    let is_empty = matches!(c.content, Content::Empty);
    if is_empty && c.extra.len() > 0 {
        proof {
            broadcast use crate::component::lemma_spec_components;

            assert(spec_component(c).content is Empty);
            assert(spec_component(c).extra.len() > 0);
            lemma_flattened_size(spec_component(c));
        }
        let f = c.flattened();
        flatten_fully(f)
    } else {
        proof {
            broadcast use crate::component::lemma_spec_components;

            if is_empty {
                assert(spec_component(c).extra.len() == 0);
            } else {
                assert(!(spec_component(c).content is Empty));
            }
        }
        c
    }
}

/// The legacy encoding of a whole tree: its root encoded with nothing
/// inherited.
pub open spec fn spec_legacy_encode(c: ComponentView, s: char) -> Seq<char> {
    spec_legacy_node(c, blank_style_view(), s)
}

/// The format codes a style emits, in fixed order: bold `l`, italic `o`,
/// underlined `n`, strikethrough `m`, obfuscated `k`, each only when the
/// flag is set to true.
pub open spec fn spec_format_codes(st: StyleView, s: char) -> Seq<char> {
    (if st.bold == Some(true) {
        seq![s, 'l']
    } else {
        Seq::empty()
    }) + (if st.italic == Some(true) {
        seq![s, 'o']
    } else {
        Seq::empty()
    }) + (if st.underlined == Some(true) {
        seq![s, 'n']
    } else {
        Seq::empty()
    }) + (if st.strikethrough == Some(true) {
        seq![s, 'm']
    } else {
        Seq::empty()
    }) + (if st.obfuscated == Some(true) {
        seq![s, 'k']
    } else {
        Seq::empty()
    })
}

/// The legacy encoding of one node under an inherited style: its color code
/// when its own style names a color with a legacy code, then the format codes
/// of the style to apply, then its text content, then its children, each
/// encoded under the node's effective style. When a color code was emitted
/// the style to apply is the full effective style, because the code resets
/// the client's formatting; otherwise it is the node's own style.
pub open spec fn spec_legacy_node(c: ComponentView, inherited: StyleView, s: char) -> Seq<char>
    decreases spec_content_size(c), 0int,
    via spec_legacy_node_decreases
{
    let active = spec_merge(inherited, c.style);
    let code_part = match c.style.color {
        Some(col) => match spec_color_code(col) {
            Some(code) => seq![s, code],
            None => Seq::empty(),
        },
        None => Seq::empty(),
    };
    let to_apply = if code_part.len() > 0 {
        active
    } else {
        c.style
    };
    code_part + spec_format_codes(to_apply, s) + (match c.content {
        ContentView::Text(t) => t,
        _ => Seq::empty(),
    }) + spec_legacy_list(c.extra, active, s)
}

#[via_fn]
proof fn spec_legacy_node_decreases(c: ComponentView, inherited: StyleView, s: char) {
    if c.content is Translation {
        lemma_seq_sum_concat(c.content->Translation_with, c.extra);
    }
}

/// The legacy encodings of a forest under one inherited style, concatenated.
pub open spec fn spec_legacy_list(children: Seq<ComponentView>, inherited: StyleView, s: char) -> Seq<
    char,
>
    decreases seq_size_sum(children), children.len(),
    via spec_legacy_list_decreases
{
    if children.len() == 0 {
        Seq::empty()
    } else {
        spec_legacy_node(children[0], inherited, s) + spec_legacy_list(
            children.subrange(1, children.len() as int),
            inherited,
            s,
        )
    }
}

#[via_fn]
proof fn spec_legacy_list_decreases(children: Seq<ComponentView>, inherited: StyleView, s: char) {
    if children.len() > 0 {
        assert(seq_size_sum(children) == spec_content_size(children[0]) + seq_size_sum(
            children.subrange(1, children.len() as int),
        ));
    }
}

/// Appends the format codes of a style to the output.
fn emit_format_codes(st: &Style, s: char, out: &mut String)
    ensures
        final(out)@ == old(out)@ + spec_format_codes(spec_style(*st), s),
{
    if matches!(st.bold, Some(true)) {
        push_char(out, s);
        push_char(out, 'l');
    }
    if matches!(st.italic, Some(true)) {
        push_char(out, s);
        push_char(out, 'o');
    }
    if matches!(st.underlined, Some(true)) {
        push_char(out, s);
        push_char(out, 'n');
    }
    if matches!(st.strikethrough, Some(true)) {
        push_char(out, s);
        push_char(out, 'm');
    }
    if matches!(st.obfuscated, Some(true)) {
        push_char(out, s);
        push_char(out, 'k');
    }
    proof {
        assert(out@ =~= old(out)@ + spec_format_codes(spec_style(*st), s));
    }
}

/// Appends the legacy encoding of one tree under an inherited style.
#[verifier::loop_isolation(false)]
#[verifier::rlimit(60)]
fn encode_legacy(c: &Component, inherited: &Style, s: char, out: &mut String)
    ensures
        final(out)@ == old(out)@ + spec_legacy_node(spec_component(*c), spec_style(*inherited), s),
    decreases spec_content_size(spec_component(*c)),
{
    let ghost me = spec_component(*c);
    let ghost inh = spec_style(*inherited);
    let mut active = inherited.clone();
    active.merge(&c.style);
    let ghost active_view = spec_merge(inh, me.style);
    let emitted_code = match &c.style.color {
        Some(col) => match col.color_code() {
            Some(code) => {
                push_char(out, s);
                push_char(out, code);
                true
            },
            None => false,
        },
        None => false,
    };
    if emitted_code {
        emit_format_codes(&active, s, out);
    } else {
        emit_format_codes(&c.style, s, out);
    }
    match &c.content {
        Content::Text(t) => {
            out.append(t.as_str());
        },
        _ => {},
    }
    let ghost head = old(out)@ + (match me.style.color {
        Some(col) => match spec_color_code(col) {
            Some(code) => seq![s, code],
            None => Seq::empty(),
        },
        None => Seq::empty(),
    }) + spec_format_codes(
        if me.style.color is Some && spec_color_code(me.style.color->0) is Some {
            active_view
        } else {
            me.style
        },
        s,
    ) + (match me.content {
        ContentView::Text(t) => t,
        _ => Seq::empty(),
    });
    proof {
        broadcast use crate::component::lemma_spec_components;

        assert(me.extra == spec_components(c.extra@));
        assert(out@ =~= head);
        assert(spec_legacy_list(me.extra.take(0), active_view, s) == Seq::<char>::empty()) by {
            assert(me.extra.take(0) =~= Seq::<ComponentView>::empty());
        }
    }
    let mut i: usize = 0;
    while i < c.extra.len()
        invariant
            0 <= i <= c.extra@.len(),
            out@ == head + spec_legacy_list(me.extra.take(i as int), active_view, s),
        decreases c.extra@.len() - i,
    {
        proof {
            broadcast use crate::component::lemma_spec_components;

            assert(spec_component(c.extra@[i as int]) == me.extra[i as int]);
            assert(decreases_to!(*c => c.extra@[i as int]));
            lemma_legacy_child_size(me, i as int);
        }
        encode_legacy(&c.extra[i], &active, s, out);
        proof {
            lemma_legacy_list_take_step(me.extra, active_view, s, i as int);
        }
        i += 1;
    }
    proof {
        assert(me.extra.take(me.extra.len() as int) =~= me.extra);
        assert(out@ =~= old(out)@ + spec_legacy_node(me, inh, s));
    }
}

proof fn lemma_legacy_child_size(c: ComponentView, i: int)
    requires
        0 <= i < c.extra.len(),
    ensures
        spec_content_size(c.extra[i]) < spec_content_size(c),
{
    lemma_legacy_sum_contains(c.extra, i);
}

proof fn lemma_legacy_sum_contains(s: Seq<ComponentView>, i: int)
    requires
        0 <= i < s.len(),
    ensures
        spec_content_size(s[i]) <= seq_size_sum(s),
    decreases i,
{
    if i > 0 {
        lemma_legacy_sum_contains(s.subrange(1, s.len() as int), i - 1);
        assert(s.subrange(1, s.len() as int)[i - 1] == s[i]);
    }
}

proof fn lemma_legacy_list_take_step(s: Seq<ComponentView>, inh: StyleView, sep: char, i: int)
    requires
        0 <= i < s.len(),
    ensures
        spec_legacy_list(s.take(i + 1), inh, sep) == spec_legacy_list(s.take(i), inh, sep)
            + spec_legacy_node(s[i], inh, sep),
{
    assert(s.take(i + 1) =~= s.take(i).push(s[i]));
    lemma_legacy_list_push(s.take(i), s[i], inh, sep);
}

proof fn lemma_legacy_list_push(s: Seq<ComponentView>, x: ComponentView, inh: StyleView, sep: char)
    ensures
        spec_legacy_list(s.push(x), inh, sep) == spec_legacy_list(s, inh, sep) + spec_legacy_node(
            x,
            inh,
            sep,
        ),
    decreases s.len(),
{
    if s.len() == 0 {
        assert(s.push(x)[0] == x);
        assert(s.push(x).subrange(1, 1) =~= Seq::<ComponentView>::empty());
        assert(spec_legacy_list(s.push(x).subrange(1, 1), inh, sep) == Seq::<char>::empty());
        assert(spec_legacy_list(s, inh, sep) == Seq::<char>::empty());
        assert(spec_legacy_list(s.push(x), inh, sep) =~= spec_legacy_list(s, inh, sep)
            + spec_legacy_node(x, inh, sep));
    } else {
        assert(s.push(x)[0] == s[0]);
        assert(s.push(x).subrange(1, s.push(x).len() as int) =~= s.subrange(
            1,
            s.len() as int,
        ).push(x));
        lemma_legacy_list_push(s.subrange(1, s.len() as int), x, inh, sep);
        assert(spec_legacy_list(s.push(x), inh, sep) =~= spec_legacy_list(s, inh, sep)
            + spec_legacy_node(x, inh, sep));
    }
}

/// The reset style: every formatting flag cleared and the color forced to
/// white; all other fields untouched.
pub open spec fn resetting_style_view() -> StyleView {
    StyleView {
        bold: Some(false),
        italic: Some(false),
        underlined: Some(false),
        strikethrough: Some(false),
        obfuscated: Some(false),
        font: None,
        color: Some(TextColor::White),
        insertion: None,
        click_event: None,
        hover_event: None,
    }
}

/// The reset style as a value.
fn resetting_style() -> (r: Style)
    ensures
        spec_style(r) == resetting_style_view(),
{
    let r = Style {
        bold: Some(false),
        italic: Some(false),
        underlined: Some(false),
        strikethrough: Some(false),
        obfuscated: Some(false),
        font: None,
        color: Some(TextColor::White),
        insertion: None,
        click_event: None,
        hover_event: None,
    };
    proof {
        assert(spec_style(r) =~= resetting_style_view());
    }
    r
}

/// The position of the first occurrence of a character, if any.
pub open spec fn spec_find_char(s: Seq<char>, ch: char) -> Option<int>
    decreases s.len(),
{
    if s.len() == 0 {
        None
    } else if s[0] == ch {
        Some(0)
    } else {
        match spec_find_char(s.skip(1), ch) {
            Some(i) => Some(i + 1),
            None => None,
        }
    }
}

proof fn lemma_find_char_bounds(s: Seq<char>, ch: char)
    ensures
        spec_find_char(s, ch) matches Some(i) ==> 0 <= i < s.len() && s[i] == ch,
    decreases s.len(),
{
    if s.len() > 0 && s[0] != ch {
        lemma_find_char_bounds(s.skip(1), ch);
    }
}

/// The segments of a sequence split on a character: the separators are
/// dropped, and each maximal (possibly empty) run between them is one
/// segment.
pub open spec fn spec_split_char(s: Seq<char>, ch: char) -> Seq<Seq<char>>
    decreases s.len(),
    via spec_split_char_decreases
{
    match spec_find_char(s, ch) {
        Some(i) => seq![s.take(i)] + spec_split_char(s.skip(i + 1), ch),
        None => seq![s],
    }
}

#[via_fn]
proof fn spec_split_char_decreases(s: Seq<char>, ch: char) {
    lemma_find_char_bounds(s, ch);
}

proof fn lemma_find_char_prefix(a: Seq<char>, b: Seq<char>, ch: char)
    requires
        forall|j: int| 0 <= j < a.len() ==> a[j] != ch,
    ensures
        spec_find_char(a + seq![ch] + b, ch) == Some(a.len() as int),
    decreases a.len(),
{
    let s = a + seq![ch] + b;
    if a.len() == 0 {
        assert(s[0] == ch);
    } else {
        assert(s[0] == a[0]);
        assert(s.skip(1) =~= a.skip(1) + seq![ch] + b);
        assert(forall|j: int| 0 <= j < a.skip(1).len() ==> a.skip(1)[j] != ch);
        lemma_find_char_prefix(a.skip(1), b, ch);
    }
}

proof fn lemma_find_char_none(a: Seq<char>, ch: char)
    requires
        forall|j: int| 0 <= j < a.len() ==> a[j] != ch,
    ensures
        spec_find_char(a, ch) is None,
    decreases a.len(),
{
    if a.len() > 0 {
        assert(forall|j: int| 0 <= j < a.skip(1).len() ==> a.skip(1)[j] != ch);
        lemma_find_char_none(a.skip(1), ch);
    }
}

/// Splitting a separator-free prefix, a separator, and a tail yields the
/// prefix as one segment, then the split of the tail.
proof fn lemma_split_at_sep(a: Seq<char>, b: Seq<char>, ch: char)
    requires
        forall|j: int| 0 <= j < a.len() ==> a[j] != ch,
    ensures
        spec_split_char(a + seq![ch] + b, ch) == seq![a] + spec_split_char(b, ch),
{
    let s = a + seq![ch] + b;
    lemma_find_char_prefix(a, b, ch);
    assert(s.take(a.len() as int) =~= a);
    assert(s.skip(a.len() as int + 1) =~= b);
}

/// Splitting a separator-free sequence yields it as the single segment.
proof fn lemma_split_no_sep(a: Seq<char>, ch: char)
    requires
        forall|j: int| 0 <= j < a.len() ==> a[j] != ch,
    ensures
        spec_split_char(a, ch) == seq![a],
{
    lemma_find_char_none(a, ch);
}

/// The views of a sequence of character vectors.
pub open spec fn spec_vec_views(s: Seq<Vec<char>>) -> Seq<Seq<char>> {
    Seq::new(s.len(), |i: int| s[i]@)
}

/// Splits a character vector on a separator character.
#[verifier::loop_isolation(false)]
fn split_chars(v: &Vec<char>, sep: char) -> (r: Vec<Vec<char>>)
    ensures
        spec_vec_views(r@) == spec_split_char(v@, sep),
{
    let mut segs: Vec<Vec<char>> = Vec::new();
    let mut cur: Vec<char> = Vec::new();
    let mut i: usize = 0;
    proof {
        assert(cur@ + v@.skip(0) =~= v@);
        assert(spec_vec_views(segs@) =~= Seq::<Seq<char>>::empty());
        assert(spec_split_char(v@, sep) =~= spec_vec_views(segs@) + spec_split_char(
            cur@ + v@.skip(0),
            sep,
        ));
    }
    while i < v.len()
        invariant
            0 <= i <= v@.len(),
            forall|j: int| 0 <= j < cur@.len() ==> cur@[j] != sep,
            spec_split_char(v@, sep) == spec_vec_views(segs@) + spec_split_char(
                cur@ + v@.skip(i as int),
                sep,
            ),
        decreases v@.len() - i,
    {
        let c = v[i];
        proof {
            assert(v@.skip(i as int) =~= seq![v@[i as int]] + v@.skip(i + 1));
        }
        if c == sep {
            proof {
                assert(cur@ + v@.skip(i as int) =~= cur@ + seq![sep] + v@.skip(i + 1));
                lemma_split_at_sep(cur@, v@.skip(i + 1), sep);
            }
            let ghost segs_before = spec_vec_views(segs@);
            let ghost cur_view = cur@;
            segs.push(cur);
            cur = Vec::new();
            proof {
                assert(spec_vec_views(segs@) =~= segs_before.push(cur_view));
                assert(cur@ + v@.skip(i + 1) =~= v@.skip(i + 1));
                assert(spec_split_char(v@, sep) =~= spec_vec_views(segs@) + spec_split_char(
                    cur@ + v@.skip(i + 1),
                    sep,
                ));
            }
        } else {
            let ghost cur_before = cur@;
            cur.push(c);
            proof {
                assert(cur@ + v@.skip(i + 1) =~= cur_before + v@.skip(i as int));
            }
        }
        i += 1;
    }
    proof {
        assert(cur@ + v@.skip(v@.len() as int) =~= cur@);
        lemma_split_no_sep(cur@, sep);
    }
    let ghost segs_before = spec_vec_views(segs@);
    let ghost last = cur@;
    segs.push(cur);
    proof {
        assert(spec_vec_views(segs@) =~= segs_before.push(last));
        assert(spec_vec_views(segs@) =~= spec_split_char(v@, sep));
    }
    segs
}

/// The style and remaining text a segment stands for, read from its leading
/// character: a color digit yields that color with all flags cleared, a
/// formatting letter yields that single flag, `r` yields the reset style, and
/// anything else leaves the whole segment as text under a blank style.
pub open spec fn spec_segment(seg: Seq<char>) -> (StyleView, Seq<char>) {
    if seg.len() == 0 {
        (blank_style_view(), seg)
    } else {
        let code = seg[0];
        match spec_color_of_code(code) {
            Some(col) => (
                StyleView { color: Some(col), ..resetting_style_view() },
                seg.skip(1),
            ),
            None => if code == 'l' {
                (StyleView { bold: Some(true), ..blank_style_view() }, seg.skip(1))
            } else if code == 'o' {
                (StyleView { italic: Some(true), ..blank_style_view() }, seg.skip(1))
            } else if code == 'n' {
                (StyleView { underlined: Some(true), ..blank_style_view() }, seg.skip(1))
            } else if code == 'm' {
                (StyleView { strikethrough: Some(true), ..blank_style_view() }, seg.skip(1))
            } else if code == 'k' {
                (StyleView { obfuscated: Some(true), ..blank_style_view() }, seg.skip(1))
            } else if code == 'r' {
                (resetting_style_view(), seg.skip(1))
            } else {
                (blank_style_view(), seg)
            },
        }
    }
}

/// The flat component a non-empty segment stands for: its computed style and
/// its remaining text, which collapses to empty content when there is none.
pub open spec fn spec_segment_component(seg: Seq<char>) -> ComponentView {
    let (style, text) = spec_segment(seg);
    ComponentView {
        content: if text.len() == 0 {
            ContentView::Empty
        } else {
            ContentView::Text(text)
        },
        style: style,
        extra: Seq::empty(),
    }
}

/// The flat children a segment list stands for: one component per non-empty
/// segment, in order.
pub open spec fn spec_segments_children(segs: Seq<Seq<char>>) -> Seq<ComponentView>
    decreases segs.len(),
{
    if segs.len() == 0 {
        Seq::empty()
    } else {
        (if segs[0].len() == 0 {
            Seq::empty()
        } else {
            seq![spec_segment_component(segs[0])]
        }) + spec_segments_children(segs.subrange(1, segs.len() as int))
    }
}

proof fn lemma_segments_children_push(segs: Seq<Seq<char>>, x: Seq<char>)
    ensures
        spec_segments_children(segs.push(x)) == spec_segments_children(segs) + (if x.len() == 0 {
            Seq::empty()
        } else {
            seq![spec_segment_component(x)]
        }),
    decreases segs.len(),
{
    if segs.len() == 0 {
        assert(segs.push(x)[0] == x);
        assert(segs.push(x).subrange(1, 1) =~= Seq::<Seq<char>>::empty());
        assert(spec_segments_children(segs.push(x).subrange(1, 1)) =~= Seq::<
            ComponentView,
        >::empty());
        assert(spec_segments_children(segs) =~= Seq::<ComponentView>::empty());
        assert(spec_segments_children(segs.push(x)) =~= spec_segments_children(segs) + (if x.len()
            == 0 {
            Seq::<ComponentView>::empty()
        } else {
            seq![spec_segment_component(x)]
        }));
    } else {
        assert(segs.push(x)[0] == segs[0]);
        assert(segs.push(x).subrange(1, segs.push(x).len() as int) =~= segs.subrange(
            1,
            segs.len() as int,
        ).push(x));
        lemma_segments_children_push(segs.subrange(1, segs.len() as int), x);
        assert(spec_segments_children(segs.push(x)) =~= spec_segments_children(segs) + (if x.len()
            == 0 {
            Seq::<ComponentView>::empty()
        } else {
            seq![spec_segment_component(x)]
        }));
    }
}

proof fn lemma_segments_children_take_step(segs: Seq<Seq<char>>, i: int)
    requires
        0 <= i < segs.len(),
    ensures
        spec_segments_children(segs.take(i + 1)) == spec_segments_children(segs.take(i)) + (
        if segs[i].len() == 0 {
            Seq::empty()
        } else {
            seq![spec_segment_component(segs[i])]
        }),
{
    assert(segs.take(i + 1) =~= segs.take(i).push(segs[i]));
    lemma_segments_children_push(segs.take(i), segs[i]);
}

/// The decoding of a legacy-format string: a synthetic reset code is
/// prepended, the whole is split on the control character, each non-empty
/// segment becomes one flat child, and the resulting synthetic root is
/// flattened until it carries content of its own or runs out of children.
pub open spec fn spec_legacy_decode(input: Seq<char>, s: char) -> ComponentView {
    let segs = spec_split_char(seq![s, 'r'] + input, s);
    spec_flatten_all(
        ComponentView {
            content: ContentView::Empty,
            style: blank_style_view(),
            extra: spec_segments_children(segs),
        },
    )
}

/// The characters of a vector from a position on.
#[verifier::loop_isolation(false)]
fn vec_suffix(v: &Vec<char>, from: usize) -> (r: Vec<char>)
    requires
        from <= v@.len(),
    ensures
        r@ == v@.skip(from as int),
{
    let mut out: Vec<char> = Vec::new();
    let mut i: usize = from;
    while i < v.len()
        invariant
            from <= i <= v@.len(),
            out@ =~= v@.subrange(from as int, i as int),
        decreases v@.len() - i,
    {
        out.push(v[i]);
        proof {
            assert(out@ =~= v@.subrange(from as int, i + 1));
        }
        i += 1;
    }
    proof {
        assert(v@.subrange(from as int, v@.len() as int) =~= v@.skip(from as int));
    }
    out
}

/// Builds the flat component a non-empty segment stands for.
fn segment_component(seg: &Vec<char>) -> (r: Component)
    requires
        seg@.len() > 0,
    ensures
        spec_component(r) == spec_segment_component(seg@),
{
    let code = seg[0];
    let style: Style;
    let start: usize;
    match TextColor::from_color_code(code) {
        Some(col) => {
            style = Style { color: Some(col), ..resetting_style() };
            start = 1;
        },
        None => {
            if code == 'l' {
                style = Style::bold(true);
                start = 1;
            } else if code == 'o' {
                style = Style::italic(true);
                start = 1;
            } else if code == 'n' {
                style = Style::underlined(true);
                start = 1;
            } else if code == 'm' {
                style = Style::strikethrough(true);
                start = 1;
            } else if code == 'k' {
                style = Style::obfuscated(true);
                start = 1;
            } else if code == 'r' {
                style = resetting_style();
                start = 1;
            } else {
                style = Style::blank();
                start = 0;
            }
        },
    }
    let text = vec_suffix(seg, start);
    let content = if text.len() == 0 {
        Content::Empty
    } else {
        Content::Text(chars_string(&text))
    };
    let r = Component { content, style, extra: Vec::new() };
    proof {
        broadcast use crate::component::lemma_spec_components;

        if start == 0 {
            assert(seg@.skip(0) =~= seg@);
        }
        assert(spec_style(r.style) =~= spec_segment(seg@).0);
        assert(spec_component(r) =~= spec_segment_component(seg@));
    }
    r
}

} // verus!
