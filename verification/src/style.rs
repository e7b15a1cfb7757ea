use vstd::prelude::*;

use crate::component::Component;
use crate::event::{spec_click_event, spec_hover_event, ClickEvent, ClickEventView, HoverEvent,
    HoverEventView};

verus! {

/// A text color: one of sixteen named colors, or an arbitrary 24-bit RGB value.
///
/// Named colors carry a single-character legacy code; RGB colors do not.
/// In the structured serial form, named colors are written in `snake_case`
/// and RGB colors as `#RRGGBB` with uppercase hex digits.
#[derive(Clone, Copy, Debug, PartialEq, Eq)]
pub enum TextColor {
    /// Named color `black` (code `0`).
    Black,
    /// Named color `dark_blue` (code `1`).
    DarkBlue,
    /// Named color `dark_green` (code `2`).
    DarkGreen,
    /// Named color `dark_aqua` (code `3`).
    DarkAqua,
    /// Named color `dark_red` (code `4`).
    DarkRed,
    /// Named color `dark_purple` (code `5`).
    DarkPurple,
    /// Named color `gold` (code `6`).
    Gold,
    /// Named color `gray` (code `7`).
    Gray,
    /// Named color `dark_gray` (code `8`).
    DarkGray,
    /// Named color `blue` (code `9`).
    Blue,
    /// Named color `green` (code `a`).
    Green,
    /// Named color `aqua` (code `b`).
    Aqua,
    /// Named color `red` (code `c`).
    Red,
    /// Named color `light_purple` (code `d`).
    LightPurple,
    /// Named color `yellow` (code `e`).
    Yellow,
    /// Named color `white` (code `f`).
    White,
    /// An arbitrary RGB color. The most significant byte is the red channel,
    /// then green, then blue. Only values up to `0xFFFFFF` can be encoded by
    /// the structured codec.
    Hex(u32),
}

/// The single-character legacy code of a named color, or `None` for an RGB
/// color, which has no legacy code.
pub open spec fn spec_color_code(c: TextColor) -> Option<char> {
    match c {
        TextColor::Black => Some('0'),
        TextColor::DarkBlue => Some('1'),
        TextColor::DarkGreen => Some('2'),
        TextColor::DarkAqua => Some('3'),
        TextColor::DarkRed => Some('4'),
        TextColor::DarkPurple => Some('5'),
        TextColor::Gold => Some('6'),
        TextColor::Gray => Some('7'),
        TextColor::DarkGray => Some('8'),
        TextColor::Blue => Some('9'),
        TextColor::Green => Some('a'),
        TextColor::Aqua => Some('b'),
        TextColor::Red => Some('c'),
        TextColor::LightPurple => Some('d'),
        TextColor::Yellow => Some('e'),
        TextColor::White => Some('f'),
        TextColor::Hex(_) => None,
    }
}

/// The named color of a legacy code character, or `None` when the character
/// is not a color code.
pub open spec fn spec_color_of_code(code: char) -> Option<TextColor> {
    match code {
        '0' => Some(TextColor::Black),
        '1' => Some(TextColor::DarkBlue),
        '2' => Some(TextColor::DarkGreen),
        '3' => Some(TextColor::DarkAqua),
        '4' => Some(TextColor::DarkRed),
        '5' => Some(TextColor::DarkPurple),
        '6' => Some(TextColor::Gold),
        '7' => Some(TextColor::Gray),
        '8' => Some(TextColor::DarkGray),
        '9' => Some(TextColor::Blue),
        'a' => Some(TextColor::Green),
        'b' => Some(TextColor::Aqua),
        'c' => Some(TextColor::Red),
        'd' => Some(TextColor::LightPurple),
        'e' => Some(TextColor::Yellow),
        'f' => Some(TextColor::White),
        _ => None,
    }
}

impl TextColor {
    /// The single-character legacy code of this color, or `None` for an RGB
    /// color.
    pub fn color_code(&self) -> (r: Option<char>)
        ensures
            r == spec_color_code(*self),
    {
        match self {
            TextColor::Black => Some('0'),
            TextColor::DarkBlue => Some('1'),
            TextColor::DarkGreen => Some('2'),
            TextColor::DarkAqua => Some('3'),
            TextColor::DarkRed => Some('4'),
            TextColor::DarkPurple => Some('5'),
            TextColor::Gold => Some('6'),
            TextColor::Gray => Some('7'),
            TextColor::DarkGray => Some('8'),
            TextColor::Blue => Some('9'),
            TextColor::Green => Some('a'),
            TextColor::Aqua => Some('b'),
            TextColor::Red => Some('c'),
            TextColor::LightPurple => Some('d'),
            TextColor::Yellow => Some('e'),
            TextColor::White => Some('f'),
            TextColor::Hex(_) => None,
        }
    }

    /// The named color a legacy code character stands for, or `None` when the
    /// character is not a color code.
    pub fn from_color_code(code: char) -> (r: Option<TextColor>)
        ensures
            r == spec_color_of_code(code),
    {
        match code {
            '0' => Some(TextColor::Black),
            '1' => Some(TextColor::DarkBlue),
            '2' => Some(TextColor::DarkGreen),
            '3' => Some(TextColor::DarkAqua),
            '4' => Some(TextColor::DarkRed),
            '5' => Some(TextColor::DarkPurple),
            '6' => Some(TextColor::Gold),
            '7' => Some(TextColor::Gray),
            '8' => Some(TextColor::DarkGray),
            '9' => Some(TextColor::Blue),
            'a' => Some(TextColor::Green),
            'b' => Some(TextColor::Aqua),
            'c' => Some(TextColor::Red),
            'd' => Some(TextColor::LightPurple),
            'e' => Some(TextColor::Yellow),
            'f' => Some(TextColor::White),
            _ => None,
        }
    }
}

/// A component's style: a record of independent optional attributes. An unset
/// field is inherited from the parent component when rendering.
#[derive(Debug, PartialEq, Eq)]
pub struct Style {
    /// Whether this component renders in bold.
    pub bold: Option<bool>,
    /// Whether this component renders in italics.
    pub italic: Option<bool>,
    /// Whether this component is underlined.
    pub underlined: Option<bool>,
    /// Whether this component renders with strikethrough.
    pub strikethrough: Option<bool>,
    /// Whether this component renders as obfuscated (scrambled) text.
    pub obfuscated: Option<bool>,
    /// The font identifier used to render this component.
    pub font: Option<String>,
    /// The color this component renders with.
    pub color: Option<TextColor>,
    /// Text inserted into the chat bar when the component is shift-clicked.
    pub insertion: Option<String>,
    /// The action run when the component is clicked.
    pub click_event: Option<ClickEvent>,
    /// The content shown when the component is hovered.
    pub hover_event: Option<HoverEvent>,
}

/// The mathematical model of a [`Style`].
#[verifier::ext_equal]
pub struct StyleView {
    /// Model of the `bold` flag.
    pub bold: Option<bool>,
    /// Model of the `italic` flag.
    pub italic: Option<bool>,
    /// Model of the `underlined` flag.
    pub underlined: Option<bool>,
    /// Model of the `strikethrough` flag.
    pub strikethrough: Option<bool>,
    /// Model of the `obfuscated` flag.
    pub obfuscated: Option<bool>,
    /// Model of the font identifier.
    pub font: Option<Seq<char>>,
    /// Model of the color.
    pub color: Option<TextColor>,
    /// Model of the insertion text.
    pub insertion: Option<Seq<char>>,
    /// Model of the click action.
    pub click_event: Option<ClickEventView>,
    /// Model of the hover action.
    pub hover_event: Option<HoverEventView>,
}

/// The model of a style: each field mapped to its mathematical value.
pub open spec fn spec_style(s: Style) -> StyleView
    decreases s,
{
    StyleView {
        bold: s.bold,
        italic: s.italic,
        underlined: s.underlined,
        strikethrough: s.strikethrough,
        obfuscated: s.obfuscated,
        font: match s.font {
            Some(f) => Some(f@),
            None => None,
        },
        color: s.color,
        insertion: match s.insertion {
            Some(i) => Some(i@),
            None => None,
        },
        click_event: match s.click_event {
            Some(e) => Some(spec_click_event(e)),
            None => None,
        },
        hover_event: match s.hover_event {
            Some(e) => Some(spec_hover_event(e)),
            None => None,
        },
    }
}

/// The blank style model: every field unset.
pub open spec fn blank_style_view() -> StyleView {
    StyleView {
        bold: None,
        italic: None,
        underlined: None,
        strikethrough: None,
        obfuscated: None,
        font: None,
        color: None,
        insertion: None,
        click_event: None,
        hover_event: None,
    }
}

/// Whether every field of a style model is unset.
pub open spec fn spec_is_blank(s: StyleView) -> bool {
    s == blank_style_view()
}

/// The merge of two style models: every field of `overlay`, if set, overrides
/// the corresponding field of `base`; unset fields of `overlay` leave `base`'s
/// value untouched.
pub open spec fn spec_merge(base: StyleView, overlay: StyleView) -> StyleView {
    StyleView {
        bold: if overlay.bold is Some {
            overlay.bold
        } else {
            base.bold
        },
        italic: if overlay.italic is Some {
            overlay.italic
        } else {
            base.italic
        },
        underlined: if overlay.underlined is Some {
            overlay.underlined
        } else {
            base.underlined
        },
        strikethrough: if overlay.strikethrough is Some {
            overlay.strikethrough
        } else {
            base.strikethrough
        },
        obfuscated: if overlay.obfuscated is Some {
            overlay.obfuscated
        } else {
            base.obfuscated
        },
        font: if overlay.font is Some {
            overlay.font
        } else {
            base.font
        },
        color: if overlay.color is Some {
            overlay.color
        } else {
            base.color
        },
        insertion: if overlay.insertion is Some {
            overlay.insertion
        } else {
            base.insertion
        },
        click_event: if overlay.click_event is Some {
            overlay.click_event
        } else {
            base.click_event
        },
        hover_event: if overlay.hover_event is Some {
            overlay.hover_event
        } else {
            base.hover_event
        },
    }
}

impl Style {
    /// A blank style: every field unset. This is also the default style.
    pub fn blank() -> (r: Style)
        ensures
            spec_style(r) == blank_style_view(),
    {
        Style {
            bold: None,
            italic: None,
            underlined: None,
            strikethrough: None,
            obfuscated: None,
            font: None,
            color: None,
            insertion: None,
            click_event: None,
            hover_event: None,
        }
    }

    /// A style with only the `bold` field set.
    pub fn bold(state: bool) -> (r: Style)
        ensures
            spec_style(r) == (StyleView { bold: Some(state), ..blank_style_view() }),
    {
        Style { bold: Some(state), ..Style::blank() }
    }

    /// A style with only the `italic` field set.
    pub fn italic(state: bool) -> (r: Style)
        ensures
            spec_style(r) == (StyleView { italic: Some(state), ..blank_style_view() }),
    {
        Style { italic: Some(state), ..Style::blank() }
    }

    /// A style with only the `underlined` field set.
    pub fn underlined(state: bool) -> (r: Style)
        ensures
            spec_style(r) == (StyleView { underlined: Some(state), ..blank_style_view() }),
    {
        Style { underlined: Some(state), ..Style::blank() }
    }

    /// A style with only the `strikethrough` field set.
    pub fn strikethrough(state: bool) -> (r: Style)
        ensures
            spec_style(r) == (StyleView { strikethrough: Some(state), ..blank_style_view() }),
    {
        Style { strikethrough: Some(state), ..Style::blank() }
    }

    /// A style with only the `obfuscated` field set.
    pub fn obfuscated(state: bool) -> (r: Style)
        ensures
            spec_style(r) == (StyleView { obfuscated: Some(state), ..blank_style_view() }),
    {
        Style { obfuscated: Some(state), ..Style::blank() }
    }

    /// A style with only the `color` field set.
    pub fn color(color: TextColor) -> (r: Style)
        ensures
            spec_style(r) == (StyleView { color: Some(color), ..blank_style_view() }),
    {
        Style { color: Some(color), ..Style::blank() }
    }

    /// Whether this style is blank: every field unset.
    pub fn is_blank(&self) -> (r: bool)
        ensures
            r == spec_is_blank(spec_style(*self)),
    {
        let r = self.bold.is_none() && self.italic.is_none() && self.underlined.is_none()
            && self.strikethrough.is_none() && self.obfuscated.is_none() && self.font.is_none()
            && self.color.is_none() && self.insertion.is_none() && self.click_event.is_none()
            && self.hover_event.is_none();
        proof {
            if r {
                assert(spec_style(*self) =~= blank_style_view());
            }
        }
        r
    }

    /// Merges `src` into this style: every field of `src`, if set, overrides
    /// the corresponding field here; unset fields of `src` change nothing.
    /// This models style inheritance: a node's effective style is the merge of
    /// every ancestor's style, from the root down, with its own style last, so
    /// the nearest set value wins.
    pub fn merge(&mut self, src: &Style)
        ensures
            spec_style(*final(self)) == spec_merge(spec_style(*old(self)), spec_style(*src)),
    {
        if let Some(v) = &src.bold {
            self.bold = Some(*v);
        }
        if let Some(v) = &src.italic {
            self.italic = Some(*v);
        }
        if let Some(v) = &src.underlined {
            self.underlined = Some(*v);
        }
        if let Some(v) = &src.strikethrough {
            self.strikethrough = Some(*v);
        }
        if let Some(v) = &src.obfuscated {
            self.obfuscated = Some(*v);
        }
        if let Some(v) = &src.font {
            self.font = Some(v.clone());
        }
        if let Some(v) = &src.color {
            self.color = Some(*v);
        }
        if let Some(v) = &src.insertion {
            self.insertion = Some(v.clone());
        }
        if let Some(v) = &src.click_event {
            self.click_event = Some(v.clone());
        }
        if let Some(v) = &src.hover_event {
            self.hover_event = Some(v.clone());
        }
        proof {
            assert(spec_style(*self) =~= spec_merge(spec_style(*old(self)), spec_style(*src)));
        }
    }

    /// Clears this style, resetting every field to unset.
    pub fn clear(&mut self)
        ensures
            spec_style(*final(self)) == blank_style_view(),
    {
        *self = Style::blank();
        proof {
            assert(spec_style(*self) =~= blank_style_view());
        }
    }
}

impl Clone for Style {
    /// Clones the style; the copy has the same model.
    fn clone(&self) -> (r: Self)
        ensures
            spec_style(r) == spec_style(*self),
        decreases *self,
    {
        let r = Style {
            bold: self.bold,
            italic: self.italic,
            underlined: self.underlined,
            strikethrough: self.strikethrough,
            obfuscated: self.obfuscated,
            font: match &self.font {
                Some(f) => Some(f.clone()),
                None => None,
            },
            color: self.color,
            insertion: match &self.insertion {
                Some(s) => Some(s.clone()),
                None => None,
            },
            click_event: match &self.click_event {
                Some(e) => Some(e.clone()),
                None => None,
            },
            hover_event: match &self.hover_event {
                Some(e) => Some(e.clone()),
                None => None,
            },
        };
        proof {
            assert(spec_style(r) =~= spec_style(*self));
        }
        r
    }
}

impl Default for Style {
    /// The default style is blank.
    fn default() -> (r: Self)
        ensures
            spec_style(r) == blank_style_view(),
    {
        Style::blank()
    }
}

/// Every field of a merged style is the overlay's value when set there, and
/// the base's value otherwise; merging the blank style with itself is blank.
pub proof fn lemma_merge_field_precedence(a: StyleView, b: StyleView)
    ensures
        spec_merge(a, b).bold == (if b.bold is Some { b.bold } else { a.bold }),
        spec_merge(a, b).italic == (if b.italic is Some { b.italic } else { a.italic }),
        spec_merge(a, b).underlined == (if b.underlined is Some { b.underlined } else { a.underlined }),
        spec_merge(a, b).strikethrough == (if b.strikethrough is Some {
            b.strikethrough
        } else {
            a.strikethrough
        }),
        spec_merge(a, b).obfuscated == (if b.obfuscated is Some { b.obfuscated } else { a.obfuscated }),
        spec_merge(a, b).font == (if b.font is Some { b.font } else { a.font }),
        spec_merge(a, b).color == (if b.color is Some { b.color } else { a.color }),
        spec_merge(a, b).insertion == (if b.insertion is Some { b.insertion } else { a.insertion }),
        spec_merge(a, b).click_event == (if b.click_event is Some {
            b.click_event
        } else {
            a.click_event
        }),
        spec_merge(a, b).hover_event == (if b.hover_event is Some {
            b.hover_event
        } else {
            a.hover_event
        }),
        spec_is_blank(spec_merge(blank_style_view(), blank_style_view())),
{
    assert(spec_merge(blank_style_view(), blank_style_view()) =~= blank_style_view());
}

} // verus!
