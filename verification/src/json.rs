use vstd::prelude::*;

use crate::component::{spec_component, Component, ComponentView};
use crate::content::ContentView;
use crate::event::{ClickEventView, EntityHoverView, HoverEventView, ItemHoverView};
use crate::key::{spec_key_string, KeyView};
use crate::style::{blank_style_view, spec_is_blank, spec_style, Style, StyleView, TextColor};

verus! {

/// The error of a structured encode: some color in the tree is an RGB value
/// above the 24-bit range.
#[derive(Clone, Copy, Debug, PartialEq, Eq)]
pub enum EncodeError {
    /// An RGB color value exceeds `0xFFFFFF` and has no serial form.
    ColorOutOfRange,
}

/// The error of a structured decode: the input is not a well-formed serial
/// component.
#[derive(Clone, Copy, Debug, PartialEq, Eq)]
pub enum DecodeError {
    /// The input is not in the structured serial language.
    Malformed,
}

/// The decimal digit character of a value below ten.
pub open spec fn spec_dec_digit(d: int) -> char {
    if d == 0 {
        '0'
    } else if d == 1 {
        '1'
    } else if d == 2 {
        '2'
    } else if d == 3 {
        '3'
    } else if d == 4 {
        '4'
    } else if d == 5 {
        '5'
    } else if d == 6 {
        '6'
    } else if d == 7 {
        '7'
    } else if d == 8 {
        '8'
    } else {
        '9'
    }
}

/// The uppercase hex digit character of a value below sixteen.
pub open spec fn spec_hex_digit(d: int) -> char {
    if d < 10 {
        spec_dec_digit(d)
    } else if d == 10 {
        'A'
    } else if d == 11 {
        'B'
    } else if d == 12 {
        'C'
    } else if d == 13 {
        'D'
    } else if d == 14 {
        'E'
    } else {
        'F'
    }
}

/// The lowercase hex digit character of a value below sixteen.
pub open spec fn spec_hex_digit_lower(d: int) -> char {
    if d < 10 {
        spec_dec_digit(d)
    } else if d == 10 {
        'a'
    } else if d == 11 {
        'b'
    } else if d == 12 {
        'c'
    } else if d == 13 {
        'd'
    } else if d == 14 {
        'e'
    } else {
        'f'
    }
}

/// The decimal digits of a non-negative value, most significant first.
pub open spec fn spec_nat_chars(n: int) -> Seq<char>
    decreases n,
{
    if n < 10 {
        seq![spec_dec_digit(n)]
    } else {
        spec_nat_chars(n / 10) + seq![spec_dec_digit(n % 10)]
    }
}

/// The decimal form of an integer: a minus sign for negative values, then
/// the digits of the magnitude.
pub open spec fn spec_int_chars(n: int) -> Seq<char> {
    if n < 0 {
        seq!['-'] + spec_nat_chars(-n)
    } else {
        spec_nat_chars(n)
    }
}

/// A fixed number of hex digits of a value, most significant first,
/// lowercase.
pub open spec fn spec_hex_fixed_lower(v: int, digits: nat) -> Seq<char>
    decreases digits,
{
    if digits == 0 {
        Seq::empty()
    } else {
        spec_hex_fixed_lower(v / 16, (digits - 1) as nat) + seq![spec_hex_digit_lower(v % 16)]
    }
}

/// A fixed number of hex digits of a value, most significant first,
/// uppercase.
pub open spec fn spec_hex_fixed(v: int, digits: nat) -> Seq<char>
    decreases digits,
{
    if digits == 0 {
        Seq::empty()
    } else {
        spec_hex_fixed(v / 16, (digits - 1) as nat) + seq![spec_hex_digit(v % 16)]
    }
}

/// The serial form of a 128-bit identifier: thirty-two lowercase hex digits
/// in five hyphen-separated groups of 8, 4, 4, 4 and 12.
pub open spec fn spec_uuid_chars(v: int) -> Seq<char> {
    let h = spec_hex_fixed_lower(v, 32);
    h.subrange(0, 8) + seq!['-'] + h.subrange(8, 12) + seq!['-'] + h.subrange(12, 16) + seq!['-']
        + h.subrange(16, 20) + seq!['-'] + h.subrange(20, 32)
}

/// The serial name of a named color, in snake case.
pub open spec fn spec_color_name(c: TextColor) -> Seq<char> {
    match c {
        TextColor::Black => "black"@,
        TextColor::DarkBlue => "dark_blue"@,
        TextColor::DarkGreen => "dark_green"@,
        TextColor::DarkAqua => "dark_aqua"@,
        TextColor::DarkRed => "dark_red"@,
        TextColor::DarkPurple => "dark_purple"@,
        TextColor::Gold => "gold"@,
        TextColor::Gray => "gray"@,
        TextColor::DarkGray => "dark_gray"@,
        TextColor::Blue => "blue"@,
        TextColor::Green => "green"@,
        TextColor::Aqua => "aqua"@,
        TextColor::Red => "red"@,
        TextColor::LightPurple => "light_purple"@,
        TextColor::Yellow => "yellow"@,
        TextColor::White => "white"@,
        TextColor::Hex(v) => seq!['#'] + spec_hex_fixed(v as int, 6),
    }
}

/// The escape of one character inside a quoted string: quote and backslash
/// are backslash-escaped, control characters become `\u00XX` with uppercase
/// hex, and every other character stands for itself.
pub open spec fn spec_esc_char(c: char) -> Seq<char> {
    if c == '"' {
        seq!['\\', '"']
    } else if c == '\\' {
        seq!['\\', '\\']
    } else if 0 <= (c as int) < 32 {
        seq!['\\', 'u', '0', '0', spec_hex_digit((c as int) / 16), spec_hex_digit((c as int) % 16)]
    } else {
        seq![c]
    }
}

/// The escaped body of a quoted string.
pub open spec fn spec_escape(s: Seq<char>) -> Seq<char>
    decreases s.len(),
{
    if s.len() == 0 {
        Seq::empty()
    } else {
        spec_esc_char(s[0]) + spec_escape(s.subrange(1, s.len() as int))
    }
}

/// A quoted, escaped string.
pub open spec fn spec_quoted(s: Seq<char>) -> Seq<char> {
    seq!['"'] + spec_escape(s) + seq!['"']
}

/// The serial form of a boolean.
pub open spec fn spec_bool_chars(b: bool) -> Seq<char> {
    if b {
        "true"@
    } else {
        "false"@
    }
}

/// Whether every RGB color in a tree, its hover contents included, is within
/// the 24-bit range the serial form can carry.
pub open spec fn spec_wf_component(c: ComponentView) -> bool
    decreases c,
{
    spec_wf_style(c.style) && spec_wf_list(c.extra) && (c.content is Translation
        ==> spec_wf_list(c.content->Translation_with))
}

/// Whether a style's colors, its hover contents included, are within range.
pub open spec fn spec_wf_style(s: StyleView) -> bool
    decreases s,
{
    spec_wf_color(s.color) && (match s.hover_event {
        Some(h) => spec_wf_hover(h),
        None => true,
    })
}

/// Whether an optional color is within range.
pub open spec fn spec_wf_color(c: Option<TextColor>) -> bool {
    match c {
        Some(TextColor::Hex(v)) => v <= 0xFFFFFF,
        _ => true,
    }
}

/// Whether a hover action's colors are within range.
pub open spec fn spec_wf_hover(h: HoverEventView) -> bool
    decreases h,
{
    match h {
        HoverEventView::ShowText(c) => spec_wf_component(*c),
        HoverEventView::ShowItem(_) => true,
        HoverEventView::ShowEntity(e) => spec_wf_component(*e.name),
    }
}

/// Whether every tree of a forest is within range.
pub open spec fn spec_wf_list(s: Seq<ComponentView>) -> bool
    decreases s,
{
    if s.len() == 0 {
        true
    } else {
        spec_wf_component(s[0]) && spec_wf_list(s.subrange(1, s.len() as int))
    }
}

/// Whether a tree compacts to a bare string: text content, a blank style,
/// and no children.
pub open spec fn spec_compactable(c: ComponentView) -> bool {
    c.content is Text && spec_is_blank(c.style) && c.extra.len() == 0
}

/// The structured serial form of a tree: a bare quoted string when the tree
/// compacts, else an object holding the set style fields, the content
/// fields, and a non-empty child array, in that order.
pub open spec fn spec_encode_component(c: ComponentView) -> Seq<char>
    decreases c, 2int,
{
    if spec_compactable(c) {
        spec_quoted(c.content->Text_0)
    } else {
        seq!['{'] + spec_join_comma(spec_component_pieces(c)) + seq!['}']
    }
}

/// The `"key":value` pieces of a tree's object form, in order: each set
/// style field, the content fields, then the child array when non-empty.
pub open spec fn spec_component_pieces(c: ComponentView) -> Seq<Seq<char>>
    decreases c, 1int,
{
    spec_bool_piece("bold"@, c.style.bold) + spec_bool_piece("italic"@, c.style.italic)
        + spec_bool_piece("underlined"@, c.style.underlined) + spec_bool_piece(
        "strikethrough"@,
        c.style.strikethrough,
    ) + spec_bool_piece("obfuscated"@, c.style.obfuscated) + spec_string_piece(
        "font"@,
        c.style.font,
    ) + (match c.style.color {
        Some(col) => seq![spec_quoted("color"@) + seq![':'] + spec_quoted(spec_color_name(col))],
        None => Seq::empty(),
    }) + spec_string_piece("insertion"@, c.style.insertion) + (match c.style.click_event {
        Some(e) => seq![spec_quoted("clickEvent"@) + seq![':'] + spec_click_chars(e)],
        None => Seq::empty(),
    }) + (match c.style.hover_event {
        Some(e) => seq![spec_quoted("hoverEvent"@) + seq![':'] + spec_hover_chars(e)],
        None => Seq::empty(),
    }) + spec_content_pieces(c.content) + (if c.extra.len() == 0 {
        Seq::empty()
    } else {
        seq![spec_quoted("extra"@) + seq![':'] + seq!['['] + spec_encode_list(c.extra) + seq![']']]
    })
}

/// The piece of one optional boolean field.
pub open spec fn spec_bool_piece(name: Seq<char>, v: Option<bool>) -> Seq<Seq<char>> {
    match v {
        Some(b) => seq![spec_quoted(name) + seq![':'] + spec_bool_chars(b)],
        None => Seq::empty(),
    }
}

/// The piece of one optional string field.
pub open spec fn spec_string_piece(name: Seq<char>, v: Option<Seq<char>>) -> Seq<Seq<char>> {
    match v {
        Some(s) => seq![spec_quoted(name) + seq![':'] + spec_quoted(s)],
        None => Seq::empty(),
    }
}

/// The content fields of a tree's object form: `text`, `keybind`, a nested
/// `score` object, `translate` with its optional argument array, or nothing
/// for empty content.
pub open spec fn spec_content_pieces(c: ContentView) -> Seq<Seq<char>>
    decreases c,
{
    match c {
        ContentView::Text(t) => seq![spec_quoted("text"@) + seq![':'] + spec_quoted(t)],
        ContentView::Keybind(k) => seq![spec_quoted("keybind"@) + seq![':'] + spec_quoted(k)],
        ContentView::Score { name, objective, value } => seq![
            spec_quoted("score"@) + seq![':'] + seq!['{'] + spec_quoted("name"@) + seq![':']
                + spec_quoted(name) + seq![','] + spec_quoted("objective"@) + seq![':']
                + spec_quoted(objective) + seq![','] + spec_quoted("value"@) + seq![':']
                + spec_quoted(value) + seq!['}'],
        ],
        ContentView::Translation { key, .. } => seq![
            spec_quoted("translate"@) + seq![':'] + spec_quoted(key),
        ] + (if c->Translation_with.len() == 0 {
            Seq::empty()
        } else {
            seq![
                spec_quoted("with"@) + seq![':'] + seq!['['] + spec_encode_list(
                    c->Translation_with,
                ) + seq![']'],
            ]
        }),
        ContentView::Empty => Seq::empty(),
    }
}

/// The serial form of a click action: an object with its `action` name and
/// its `value`, a string except for a page number.
pub open spec fn spec_click_chars(e: ClickEventView) -> Seq<char> {
    seq!['{'] + spec_quoted("action"@) + seq![':'] + (match e {
        ClickEventView::RunCommand(cmd) => spec_quoted("run_command"@) + seq![','] + spec_quoted(
            "value"@,
        ) + seq![':'] + spec_quoted(cmd),
        ClickEventView::SuggestCommand(cmd) => spec_quoted("suggest_command"@) + seq![',']
            + spec_quoted("value"@) + seq![':'] + spec_quoted(cmd),
        ClickEventView::ChangePage(p) => spec_quoted("change_page"@) + seq![','] + spec_quoted(
            "value"@,
        ) + seq![':'] + spec_int_chars(p),
        ClickEventView::CopyToClipboard(t) => spec_quoted("copy_to_clipboard"@) + seq![',']
            + spec_quoted("value"@) + seq![':'] + spec_quoted(t),
    }) + seq!['}']
}

/// The serial form of a hover action: an object with its `action` name and
/// its `contents`: a full component for shown text, an item object with key,
/// count and optional tag, or an entity object with identifier, display-name
/// component and type key.
pub open spec fn spec_hover_chars(e: HoverEventView) -> Seq<char>
    decreases e,
{
    seq!['{'] + spec_quoted("action"@) + seq![':'] + (match e {
        HoverEventView::ShowText(c) => spec_quoted("show_text"@) + seq![','] + spec_quoted(
            "contents"@,
        ) + seq![':'] + spec_encode_component(*c),
        HoverEventView::ShowItem(h) => spec_quoted("show_item"@) + seq![','] + spec_quoted(
            "contents"@,
        ) + seq![':'] + spec_item_chars(h),
        HoverEventView::ShowEntity(h) => spec_quoted("show_entity"@) + seq![','] + spec_quoted(
            "contents"@,
        ) + seq![':'] + spec_entity_chars(*h),
    }) + seq!['}']
}

/// The serial form of an item hover's contents.
pub open spec fn spec_item_chars(h: ItemHoverView) -> Seq<char> {
    seq!['{'] + spec_quoted("id"@) + seq![':'] + spec_quoted(spec_key_string(h.id)) + seq![',']
        + spec_quoted("count"@) + seq![':'] + spec_int_chars(h.count) + (match h.tag {
        Some(t) => seq![','] + spec_quoted("tag"@) + seq![':'] + spec_quoted(t),
        None => Seq::empty(),
    }) + seq!['}']
}

/// The serial form of an entity hover's contents.
pub open spec fn spec_entity_chars(h: EntityHoverView) -> Seq<char>
    decreases h,
{
    seq!['{'] + spec_quoted("id"@) + seq![':'] + spec_quoted(spec_uuid_chars(h.id as int)) + seq![
        ',',
    ] + spec_quoted("name"@) + seq![':'] + spec_encode_component(*h.name) + seq![','] + spec_quoted(
        "type"@,
    ) + seq![':'] + spec_quoted(spec_key_string(h.entity_type)) + seq!['}']
}

/// The comma-separated serial forms of a forest's members.
pub open spec fn spec_encode_list(s: Seq<ComponentView>) -> Seq<char>
    decreases s, 3int,
{
    if s.len() == 0 {
        Seq::empty()
    } else if s.len() == 1 {
        spec_encode_component(s[0])
    } else {
        spec_encode_component(s[0]) + seq![','] + spec_encode_list(s.subrange(1, s.len() as int))
    }
}

/// Pieces joined with commas.
pub open spec fn spec_join_comma(pieces: Seq<Seq<char>>) -> Seq<char>
    decreases pieces.len(),
{
    if pieces.len() == 0 {
        Seq::empty()
    } else if pieces.len() == 1 {
        pieces[0]
    } else {
        pieces[0] + seq![','] + spec_join_comma(pieces.subrange(1, pieces.len() as int))
    }
}


/// The decimal digit character of a small value.
fn dec_digit_char(d: u64) -> (r: char)
    requires
        d < 10,
    ensures
        r == spec_dec_digit(d as int),
{
    if d == 0 {
        '0'
    } else if d == 1 {
        '1'
    } else if d == 2 {
        '2'
    } else if d == 3 {
        '3'
    } else if d == 4 {
        '4'
    } else if d == 5 {
        '5'
    } else if d == 6 {
        '6'
    } else if d == 7 {
        '7'
    } else if d == 8 {
        '8'
    } else {
        '9'
    }
}

/// The hex digit character of a small value, in the chosen case.
fn hex_digit_char(d: u64, upper: bool) -> (r: char)
    requires
        d < 16,
    ensures
        upper ==> r == spec_hex_digit(d as int),
        !upper ==> r == spec_hex_digit_lower(d as int),
{
    if d < 10 {
        dec_digit_char(d)
    } else if d == 10 {
        if upper {
            'A'
        } else {
            'a'
        }
    } else if d == 11 {
        if upper {
            'B'
        } else {
            'b'
        }
    } else if d == 12 {
        if upper {
            'C'
        } else {
            'c'
        }
    } else if d == 13 {
        if upper {
            'D'
        } else {
            'd'
        }
    } else if d == 14 {
        if upper {
            'E'
        } else {
            'e'
        }
    } else {
        if upper {
            'F'
        } else {
            'f'
        }
    }
}

/// Appends the decimal digits of a non-negative value.
fn emit_nat(n: u64, out: &mut String)
    ensures
        final(out)@ == old(out)@ + spec_nat_chars(n as int),
    decreases n,
{
    if n < 10 {
        crate::chars::push_char(out, dec_digit_char(n));
    } else {
        emit_nat(n / 10, out);
        crate::chars::push_char(out, dec_digit_char(n % 10));
    }
}

/// Appends the decimal form of an integer.
fn emit_int(n: i32, out: &mut String)
    ensures
        final(out)@ == old(out)@ + spec_int_chars(n as int),
{
    let wide: i64 = n as i64;
    if wide < 0 {
        crate::chars::push_char(out, '-');
        emit_nat((-wide) as u64, out);
        proof {
            assert(out@ =~= old(out)@ + spec_int_chars(n as int));
        }
    } else {
        emit_nat(wide as u64, out);
    }
}

/// Appends a fixed number of hex digits of a value, most significant first.
fn emit_hex_fixed(v: u128, digits: u32, upper: bool, out: &mut String)
    ensures
        upper ==> final(out)@ == old(out)@ + spec_hex_fixed(v as int, digits as nat),
        !upper ==> final(out)@ == old(out)@ + spec_hex_fixed_lower(v as int, digits as nat),
        final(out)@.len() == old(out)@.len() + digits,
    decreases digits,
{
    if digits > 0 {
        emit_hex_fixed(v / 16, digits - 1, upper, out);
        crate::chars::push_char(out, hex_digit_char((v % 16) as u64, upper));
    }
}

proof fn lemma_escape_push(s: Seq<char>, c: char)
    ensures
        spec_escape(s.push(c)) == spec_escape(s) + spec_esc_char(c),
    decreases s.len(),
{
    if s.len() == 0 {
        assert(s.push(c)[0] == c);
        assert(s.push(c).subrange(1, 1) =~= Seq::<char>::empty());
        assert(spec_escape(s.push(c).subrange(1, 1)) == Seq::<char>::empty());
        assert(spec_escape(s) == Seq::<char>::empty());
        assert(spec_escape(s.push(c)) =~= spec_escape(s) + spec_esc_char(c));
    } else {
        assert(s.push(c)[0] == s[0]);
        assert(s.push(c).subrange(1, s.push(c).len() as int) =~= s.subrange(
            1,
            s.len() as int,
        ).push(c));
        lemma_escape_push(s.subrange(1, s.len() as int), c);
        assert(spec_escape(s.push(c)) =~= spec_escape(s) + spec_esc_char(c));
    }
}

/// Appends the escape of one character.
fn emit_escaped_char(c: char, out: &mut String)
    ensures
        final(out)@ == old(out)@ + spec_esc_char(c),
{
    if c == '"' {
        crate::chars::push_char(out, '\\');
        crate::chars::push_char(out, '"');
    } else if c == '\\' {
        crate::chars::push_char(out, '\\');
        crate::chars::push_char(out, '\\');
    } else if (c as u32) < 32 {
        crate::chars::push_char(out, '\\');
        crate::chars::push_char(out, 'u');
        crate::chars::push_char(out, '0');
        crate::chars::push_char(out, '0');
        crate::chars::push_char(out, hex_digit_char(((c as u32) / 16) as u64, true));
        crate::chars::push_char(out, hex_digit_char(((c as u32) % 16) as u64, true));
        proof {
            assert(out@ =~= old(out)@ + spec_esc_char(c));
        }
    } else {
        crate::chars::push_char(out, c);
        proof {
            assert(out@ =~= old(out)@ + spec_esc_char(c));
        }
    }
}

/// Appends a quoted, escaped string.
#[verifier::loop_isolation(false)]
fn emit_quoted(s: &str, out: &mut String)
    ensures
        final(out)@ == old(out)@ + spec_quoted(s@),
{
    crate::chars::push_char(out, '"');
    let n = s.unicode_len();
    let mut i: usize = 0;
    proof {
        assert(s@.take(0) =~= Seq::<char>::empty());
        assert(out@ =~= old(out)@ + seq!['"'] + spec_escape(s@.take(0)));
    }
    while i < n
        invariant
            0 <= i <= n,
            n == s@.len(),
            out@ == old(out)@ + seq!['"'] + spec_escape(s@.take(i as int)),
        decreases n - i,
    {
        emit_escaped_char(s.get_char(i), out);
        proof {
            assert(s@.take(i + 1) =~= s@.take(i as int).push(s@[i as int]));
            lemma_escape_push(s@.take(i as int), s@[i as int]);
        }
        i += 1;
    }
    crate::chars::push_char(out, '"');
    proof {
        assert(s@.take(n as int) =~= s@);
        assert(out@ =~= old(out)@ + spec_quoted(s@));
    }
}

/// Appends the serial form of a boolean.
fn emit_bool(b: bool, out: &mut String)
    ensures
        final(out)@ == old(out)@ + spec_bool_chars(b),
{
    if b {
        out.append("true");
    } else {
        out.append("false");
    }
}

/// Appends the serial name of a color.
fn emit_color(col: &TextColor, out: &mut String)
    ensures
        final(out)@ == old(out)@ + spec_color_name(*col),
{
    match col {
        TextColor::Black => out.append("black"),
        TextColor::DarkBlue => out.append("dark_blue"),
        TextColor::DarkGreen => out.append("dark_green"),
        TextColor::DarkAqua => out.append("dark_aqua"),
        TextColor::DarkRed => out.append("dark_red"),
        TextColor::DarkPurple => out.append("dark_purple"),
        TextColor::Gold => out.append("gold"),
        TextColor::Gray => out.append("gray"),
        TextColor::DarkGray => out.append("dark_gray"),
        TextColor::Blue => out.append("blue"),
        TextColor::Green => out.append("green"),
        TextColor::Aqua => out.append("aqua"),
        TextColor::Red => out.append("red"),
        TextColor::LightPurple => out.append("light_purple"),
        TextColor::Yellow => out.append("yellow"),
        TextColor::White => out.append("white"),
        TextColor::Hex(v) => {
            crate::chars::push_char(out, '#');
            emit_hex_fixed(*v as u128, 6, true, out);
            proof {
                assert(out@ =~= old(out)@ + spec_color_name(*col));
            }
        },
    }
}

/// Appends the serial form of a 128-bit identifier.
fn emit_uuid(v: u128, out: &mut String)
    ensures
        final(out)@ == old(out)@ + spec_uuid_chars(v as int),
{
    let mut h = String::new();
    emit_hex_fixed(v, 32, false, &mut h);
    let hs = h.as_str();
    out.append(hs.substring_char(0, 8));
    crate::chars::push_char(out, '-');
    out.append(hs.substring_char(8, 12));
    crate::chars::push_char(out, '-');
    out.append(hs.substring_char(12, 16));
    crate::chars::push_char(out, '-');
    out.append(hs.substring_char(16, 20));
    crate::chars::push_char(out, '-');
    out.append(hs.substring_char(20, 32));
    proof {
        assert(out@ =~= old(out)@ + spec_uuid_chars(v as int));
    }
}


/// The views of a sequence of strings.
pub open spec fn spec_string_views(s: Seq<String>) -> Seq<Seq<char>> {
    Seq::new(s.len(), |i: int| s[i]@)
}

proof fn lemma_join_push(ps: Seq<Seq<char>>, x: Seq<char>)
    ensures
        spec_join_comma(ps.push(x)) == if ps.len() == 0 {
            x
        } else {
            spec_join_comma(ps) + seq![','] + x
        },
    decreases ps.len(),
{
    if ps.len() == 0 {
        assert(ps.push(x)[0] == x);
        assert(spec_join_comma(ps.push(x)) == x);
    } else {
        assert(ps.push(x)[0] == ps[0]);
        assert(ps.push(x).subrange(1, ps.push(x).len() as int) =~= ps.subrange(
            1,
            ps.len() as int,
        ).push(x));
        lemma_join_push(ps.subrange(1, ps.len() as int), x);
        if ps.len() == 1 {
            assert(spec_join_comma(ps.push(x)) =~= spec_join_comma(ps) + seq![','] + x);
        } else {
            assert(spec_join_comma(ps.push(x)) =~= spec_join_comma(ps) + seq![','] + x);
        }
    }
}

/// Appends the pieces joined with commas.
#[verifier::loop_isolation(false)]
fn emit_join(pieces: &Vec<String>, out: &mut String)
    ensures
        final(out)@ == old(out)@ + spec_join_comma(spec_string_views(pieces@)),
{
    let ghost views = spec_string_views(pieces@);
    let mut i: usize = 0;
    proof {
        assert(views.take(0) =~= Seq::<Seq<char>>::empty());
        assert(out@ =~= old(out)@ + spec_join_comma(views.take(0)));
    }
    while i < pieces.len()
        invariant
            0 <= i <= pieces@.len(),
            views.len() == pieces@.len(),
            out@ == old(out)@ + spec_join_comma(views.take(i as int)),
        decreases pieces@.len() - i,
    {
        if i > 0 {
            crate::chars::push_char(out, ',');
        }
        out.append(pieces[i].as_str());
        proof {
            assert(views.take(i + 1) =~= views.take(i as int).push(views[i as int]));
            lemma_join_push(views.take(i as int), views[i as int]);
            assert(views[i as int] == pieces@[i as int]@);
            assert(out@ =~= old(out)@ + spec_join_comma(views.take(i + 1)));
        }
        i += 1;
    }
    proof {
        assert(views.take(views.len() as int) =~= views);
    }
}

/// Pushes one piece.
fn push_piece(pieces: &mut Vec<String>, p: String)
    ensures
        spec_string_views(final(pieces)@) == spec_string_views(old(pieces)@) + seq![p@],
{
    pieces.push(p);
    proof {
        assert(spec_string_views(pieces@) =~= spec_string_views(old(pieces)@) + seq![p@]);
    }
}

/// Pushes the piece of one optional boolean field.
fn push_bool_piece(pieces: &mut Vec<String>, name: &str, v: &Option<bool>)
    ensures
        spec_string_views(final(pieces)@) == spec_string_views(old(pieces)@) + spec_bool_piece(
            name@,
            *v,
        ),
{
    match v {
        Some(b) => {
            let mut p = String::new();
            emit_quoted(name, &mut p);
            crate::chars::push_char(&mut p, ':');
            emit_bool(*b, &mut p);
            proof {
                assert(p@ =~= spec_quoted(name@) + seq![':'] + spec_bool_chars(*b));
            }
            push_piece(pieces, p);
        },
        None => {
            proof {
                assert(spec_string_views(pieces@) =~= spec_string_views(old(pieces)@)
                    + spec_bool_piece(name@, *v));
            }
        },
    }
}

/// Pushes the piece of one optional string field.
fn push_string_piece(pieces: &mut Vec<String>, name: &str, v: &Option<String>)
    ensures
        spec_string_views(final(pieces)@) == spec_string_views(old(pieces)@) + spec_string_piece(
            name@,
            match *v {
                Some(s) => Some(s@),
                None => None,
            },
        ),
{
    match v {
        Some(text) => {
            let mut p = String::new();
            emit_quoted(name, &mut p);
            crate::chars::push_char(&mut p, ':');
            emit_quoted(text.as_str(), &mut p);
            proof {
                assert(p@ =~= spec_quoted(name@) + seq![':'] + spec_quoted(text@));
            }
            push_piece(pieces, p);
        },
        None => {
            proof {
                assert(spec_string_views(pieces@) =~= spec_string_views(old(pieces)@)
                    + spec_string_piece(
                    name@,
                    match *v {
                        Some(s) => Some(s@),
                        None => None,
                    },
                ));
            }
        },
    }
}

/// Appends the serial form of a click action.
#[verifier::rlimit(100)]
fn emit_click(e: &crate::event::ClickEvent, out: &mut String)
    ensures
        final(out)@ == old(out)@ + spec_click_chars(crate::event::spec_click_event(*e)),
{
    crate::chars::push_char(out, '{');
    emit_quoted("action", out);
    crate::chars::push_char(out, ':');
    match e {
        crate::event::ClickEvent::RunCommand(cmd) => {
            emit_quoted("run_command", out);
            crate::chars::push_char(out, ',');
            emit_quoted("value", out);
            crate::chars::push_char(out, ':');
            emit_quoted(cmd.as_str(), out);
        },
        crate::event::ClickEvent::SuggestCommand(cmd) => {
            emit_quoted("suggest_command", out);
            crate::chars::push_char(out, ',');
            emit_quoted("value", out);
            crate::chars::push_char(out, ':');
            emit_quoted(cmd.as_str(), out);
        },
        crate::event::ClickEvent::ChangePage(p) => {
            emit_quoted("change_page", out);
            crate::chars::push_char(out, ',');
            emit_quoted("value", out);
            crate::chars::push_char(out, ':');
            emit_int(*p, out);
        },
        crate::event::ClickEvent::CopyToClipboard(t) => {
            emit_quoted("copy_to_clipboard", out);
            crate::chars::push_char(out, ',');
            emit_quoted("value", out);
            crate::chars::push_char(out, ':');
            emit_quoted(t.as_str(), out);
        },
    }
    crate::chars::push_char(out, '}');
    proof {
        assert(out@ =~= old(out)@ + spec_click_chars(crate::event::spec_click_event(*e)));
    }
}

/// Appends the serial form of an item hover's contents.
fn emit_item(h: &crate::event::ItemHover, out: &mut String)
    ensures
        final(out)@ == old(out)@ + spec_item_chars(crate::event::spec_item_hover(*h)),
{
    crate::chars::push_char(out, '{');
    emit_quoted("id", out);
    crate::chars::push_char(out, ':');
    let key_text = h.id.to_full_string();
    emit_quoted(key_text.as_str(), out);
    crate::chars::push_char(out, ',');
    emit_quoted("count", out);
    crate::chars::push_char(out, ':');
    emit_int(h.count, out);
    match &h.tag {
        Some(t) => {
            crate::chars::push_char(out, ',');
            emit_quoted("tag", out);
            crate::chars::push_char(out, ':');
            emit_quoted(t.as_str(), out);
        },
        None => {},
    }
    crate::chars::push_char(out, '}');
    proof {
        assert(out@ =~= old(out)@ + spec_item_chars(crate::event::spec_item_hover(*h)));
    }
}

/// Appends the serial form of an entity hover's contents.
fn emit_entity(h: &crate::event::EntityHover, out: &mut String)
    ensures
        final(out)@ == old(out)@ + spec_entity_chars(crate::event::spec_entity_hover(*h)),
    decreases *h,
{
    crate::chars::push_char(out, '{');
    emit_quoted("id", out);
    crate::chars::push_char(out, ':');
    let mut id_text = String::new();
    crate::chars::push_char(&mut id_text, '"');
    emit_uuid(h.id, &mut id_text);
    crate::chars::push_char(&mut id_text, '"');
    proof {
        lemma_uuid_no_escape(h.id as int);
        assert(id_text@ =~= spec_quoted(spec_uuid_chars(h.id as int)));
    }
    out.append(id_text.as_str());
    crate::chars::push_char(out, ',');
    emit_quoted("name", out);
    crate::chars::push_char(out, ':');
    encode_component(&h.name, out);
    crate::chars::push_char(out, ',');
    emit_quoted("type", out);
    crate::chars::push_char(out, ':');
    let key_text = h.entity_type.to_full_string();
    emit_quoted(key_text.as_str(), out);
    crate::chars::push_char(out, '}');
    proof {
        assert(out@ =~= old(out)@ + spec_entity_chars(crate::event::spec_entity_hover(*h)));
    }
}

/// An identifier's serial characters need no escaping: they are hex digits
/// and hyphens.
proof fn lemma_uuid_no_escape(v: int)
    ensures
        spec_escape(spec_uuid_chars(v)) == spec_uuid_chars(v),
{
    lemma_hex_lower_plain(v, 32);
    lemma_escape_plain(spec_uuid_chars(v));
}

/// Hex digit characters are ordinary printable characters.
proof fn lemma_hex_lower_plain(v: int, digits: nat)
    ensures
        forall|j: int|
            0 <= j < spec_hex_fixed_lower(v, digits).len()
                ==> is_plain_char(#[trigger] spec_hex_fixed_lower(v, digits)[j]),
        spec_hex_fixed_lower(v, digits).len() == digits,
    decreases digits,
{
    if digits > 0 {
        lemma_hex_lower_plain(v / 16, (digits - 1) as nat);
    }
}

/// Whether a character passes through a quoted string unescaped.
pub open spec fn is_plain_char(c: char) -> bool {
    c != '"' && c != '\\' && (c as int) >= 32
}

/// Escaping a sequence of ordinary characters changes nothing.
proof fn lemma_escape_plain(s: Seq<char>)
    requires
        forall|j: int| 0 <= j < s.len() ==> is_plain_char(#[trigger] s[j]),
    ensures
        spec_escape(s) == s,
    decreases s.len(),
{
    if s.len() > 0 {
        assert(forall|j: int|
            0 <= j < s.subrange(1, s.len() as int).len() ==> is_plain_char(
                #[trigger] s.subrange(1, s.len() as int)[j],
            ));
        lemma_escape_plain(s.subrange(1, s.len() as int));
        assert(spec_escape(s) =~= s);
    }
}


/// Appends the serial form of a hover action.
#[verifier::rlimit(100)]
fn emit_hover(e: &crate::event::HoverEvent, out: &mut String)
    ensures
        final(out)@ == old(out)@ + spec_hover_chars(crate::event::spec_hover_event(*e)),
    decreases *e,
{
    crate::chars::push_char(out, '{');
    emit_quoted("action", out);
    crate::chars::push_char(out, ':');
    match e {
        crate::event::HoverEvent::ShowText(c) => {
            emit_quoted("show_text", out);
            crate::chars::push_char(out, ',');
            emit_quoted("contents", out);
            crate::chars::push_char(out, ':');
            encode_component(&**c, out);
        },
        crate::event::HoverEvent::ShowItem(h) => {
            emit_quoted("show_item", out);
            crate::chars::push_char(out, ',');
            emit_quoted("contents", out);
            crate::chars::push_char(out, ':');
            emit_item(&**h, out);
        },
        crate::event::HoverEvent::ShowEntity(h) => {
            emit_quoted("show_entity", out);
            crate::chars::push_char(out, ',');
            emit_quoted("contents", out);
            crate::chars::push_char(out, ':');
            emit_entity(&**h, out);
        },
    }
    crate::chars::push_char(out, '}');
    proof {
        assert(out@ =~= old(out)@ + spec_hover_chars(crate::event::spec_hover_event(*e)));
    }
}

proof fn lemma_encode_list_push(s: Seq<ComponentView>, x: ComponentView)
    ensures
        spec_encode_list(s.push(x)) == if s.len() == 0 {
            spec_encode_component(x)
        } else {
            spec_encode_list(s) + seq![','] + spec_encode_component(x)
        },
    decreases s.len(),
{
    if s.len() == 0 {
        assert(s.push(x)[0] == x);
    } else {
        assert(s.push(x)[0] == s[0]);
        assert(s.push(x).subrange(1, s.push(x).len() as int) =~= s.subrange(
            1,
            s.len() as int,
        ).push(x));
        lemma_encode_list_push(s.subrange(1, s.len() as int), x);
        if s.len() == 1 {
            assert(spec_encode_list(s.push(x)) =~= spec_encode_list(s) + seq![',']
                + spec_encode_component(x));
        } else {
            assert(spec_encode_list(s.push(x)) =~= spec_encode_list(s) + seq![',']
                + spec_encode_component(x));
        }
    }
}

/// Appends the comma-separated serial forms of a forest.
#[verifier::loop_isolation(false)]
fn encode_list(children: &Vec<Component>, out: &mut String)
    ensures
        final(out)@ == old(out)@ + spec_encode_list(crate::component::spec_components(children@)),
    decreases *children,
{
    let ghost views = crate::component::spec_components(children@);
    let mut i: usize = 0;
    proof {
        broadcast use crate::component::lemma_spec_components;

        assert(views.take(0) =~= Seq::<ComponentView>::empty());
        assert(out@ =~= old(out)@ + spec_encode_list(views.take(0)));
    }
    while i < children.len()
        invariant
            0 <= i <= children@.len(),
            views == crate::component::spec_components(children@),
            views.len() == children@.len(),
            out@ == old(out)@ + spec_encode_list(views.take(i as int)),
        decreases children@.len() - i,
    {
        if i > 0 {
            crate::chars::push_char(out, ',');
        }
        proof {
            broadcast use crate::component::lemma_spec_components;

            assert(decreases_to!(*children => children@[i as int]));
        }
        encode_component(&children[i], out);
        proof {
            broadcast use crate::component::lemma_spec_components;

            assert(views.take(i + 1) =~= views.take(i as int).push(views[i as int]));
            lemma_encode_list_push(views.take(i as int), views[i as int]);
            assert(views[i as int] == spec_component(children@[i as int]));
            assert(out@ =~= old(out)@ + spec_encode_list(views.take(i + 1)));
        }
        i += 1;
    }
    proof {
        assert(views.take(views.len() as int) =~= views);
    }
}

/// Appends the structured serial form of a component tree.
#[verifier::loop_isolation(false)]
#[verifier::rlimit(100)]
#[verifier::spinoff_prover]
fn encode_component(c: &Component, out: &mut String)
    ensures
        final(out)@ == old(out)@ + spec_encode_component(spec_component(*c)),
    decreases *c,
{
    let ghost me = spec_component(*c);
    let compact = match &c.content {
        crate::content::Content::Text(_) => c.style.is_blank() && c.extra.len() == 0,
        _ => false,
    };
    if compact {
        if let crate::content::Content::Text(t) = &c.content {
            emit_quoted(t.as_str(), out);
            proof {
                assert(spec_compactable(me));
                assert(out@ =~= old(out)@ + spec_encode_component(me));
            }
        }
        return;
    }
    proof {
        assert(!spec_compactable(me));
    }
    crate::chars::push_char(out, '{');
    let mut pieces: Vec<String> = Vec::new();
    proof {
        assert(spec_string_views(pieces@) =~= Seq::<Seq<char>>::empty());
    }
    push_bool_piece(&mut pieces, "bold", &c.style.bold);
    push_bool_piece(&mut pieces, "italic", &c.style.italic);
    push_bool_piece(&mut pieces, "underlined", &c.style.underlined);
    push_bool_piece(&mut pieces, "strikethrough", &c.style.strikethrough);
    push_bool_piece(&mut pieces, "obfuscated", &c.style.obfuscated);
    push_string_piece(&mut pieces, "font", &c.style.font);
    match &c.style.color {
        Some(col) => {
            let mut p = String::new();
            emit_quoted("color", &mut p);
            crate::chars::push_char(&mut p, ':');
            crate::chars::push_char(&mut p, '"');
            emit_color(col, &mut p);
            crate::chars::push_char(&mut p, '"');
            proof {
                lemma_color_name_no_escape(*col);
                assert(p@ =~= spec_quoted("color"@) + seq![':'] + spec_quoted(
                    spec_color_name(*col),
                ));
            }
            push_piece(&mut pieces, p);
        },
        None => {},
    }
    push_string_piece(&mut pieces, "insertion", &c.style.insertion);
    match &c.style.click_event {
        Some(e) => {
            let mut p = String::new();
            emit_quoted("clickEvent", &mut p);
            crate::chars::push_char(&mut p, ':');
            emit_click(e, &mut p);
            proof {
                assert(p@ =~= spec_quoted("clickEvent"@) + seq![':'] + spec_click_chars(
                    crate::event::spec_click_event(*e),
                ));
            }
            push_piece(&mut pieces, p);
        },
        None => {},
    }
    match &c.style.hover_event {
        Some(e) => {
            let mut p = String::new();
            emit_quoted("hoverEvent", &mut p);
            crate::chars::push_char(&mut p, ':');
            emit_hover(e, &mut p);
            proof {
                assert(p@ =~= spec_quoted("hoverEvent"@) + seq![':'] + spec_hover_chars(
                    crate::event::spec_hover_event(*e),
                ));
            }
            push_piece(&mut pieces, p);
        },
        None => {},
    }
    let ghost style_views = spec_string_views(pieces@);
    proof {
        assert(style_views =~= spec_bool_piece("bold"@, me.style.bold) + spec_bool_piece(
            "italic"@,
            me.style.italic,
        ) + spec_bool_piece("underlined"@, me.style.underlined) + spec_bool_piece(
            "strikethrough"@,
            me.style.strikethrough,
        ) + spec_bool_piece("obfuscated"@, me.style.obfuscated) + spec_string_piece(
            "font"@,
            me.style.font,
        ) + (match me.style.color {
            Some(col) => seq![
                spec_quoted("color"@) + seq![':'] + spec_quoted(spec_color_name(col)),
            ],
            None => Seq::<Seq<char>>::empty(),
        }) + spec_string_piece("insertion"@, me.style.insertion) + (match me.style.click_event {
            Some(e) => seq![spec_quoted("clickEvent"@) + seq![':'] + spec_click_chars(e)],
            None => Seq::<Seq<char>>::empty(),
        }) + (match me.style.hover_event {
            Some(e) => seq![spec_quoted("hoverEvent"@) + seq![':'] + spec_hover_chars(e)],
            None => Seq::<Seq<char>>::empty(),
        }));
    }
    match &c.content {
        crate::content::Content::Text(t) => {
            let mut p = String::new();
            emit_quoted("text", &mut p);
            crate::chars::push_char(&mut p, ':');
            emit_quoted(t.as_str(), &mut p);
            proof {
                assert(p@ =~= spec_quoted("text"@) + seq![':'] + spec_quoted(t@));
            }
            push_piece(&mut pieces, p);
        },
        crate::content::Content::Keybind(k) => {
            let mut p = String::new();
            emit_quoted("keybind", &mut p);
            crate::chars::push_char(&mut p, ':');
            emit_quoted(k.as_str(), &mut p);
            proof {
                assert(p@ =~= spec_quoted("keybind"@) + seq![':'] + spec_quoted(k@));
            }
            push_piece(&mut pieces, p);
        },
        crate::content::Content::Score { name, objective, value } => {
            let mut p = String::new();
            emit_quoted("score", &mut p);
            crate::chars::push_char(&mut p, ':');
            crate::chars::push_char(&mut p, '{');
            emit_quoted("name", &mut p);
            crate::chars::push_char(&mut p, ':');
            emit_quoted(name.as_str(), &mut p);
            crate::chars::push_char(&mut p, ',');
            emit_quoted("objective", &mut p);
            crate::chars::push_char(&mut p, ':');
            emit_quoted(objective.as_str(), &mut p);
            crate::chars::push_char(&mut p, ',');
            emit_quoted("value", &mut p);
            crate::chars::push_char(&mut p, ':');
            emit_quoted(value.as_str(), &mut p);
            crate::chars::push_char(&mut p, '}');
            proof {
                assert(p@ =~= spec_quoted("score"@) + seq![':'] + seq!['{'] + spec_quoted("name"@)
                    + seq![':'] + spec_quoted(name@) + seq![','] + spec_quoted("objective"@)
                    + seq![':'] + spec_quoted(objective@) + seq![','] + spec_quoted("value"@)
                    + seq![':'] + spec_quoted(value@) + seq!['}']);
            }
            push_piece(&mut pieces, p);
        },
        crate::content::Content::Translation { key, with } => {
            let mut p = String::new();
            emit_quoted("translate", &mut p);
            crate::chars::push_char(&mut p, ':');
            emit_quoted(key.as_str(), &mut p);
            proof {
                assert(p@ =~= spec_quoted("translate"@) + seq![':'] + spec_quoted(key@));
            }
            push_piece(&mut pieces, p);
            if with.len() > 0 {
                let mut q = String::new();
                emit_quoted("with", &mut q);
                crate::chars::push_char(&mut q, ':');
                crate::chars::push_char(&mut q, '[');
                proof {
                    assert(decreases_to!(*c => c.content->Translation_with));
                }
                encode_list(with, &mut q);
                crate::chars::push_char(&mut q, ']');
                proof {
                    assert(q@ =~= spec_quoted("with"@) + seq![':'] + seq!['['] + spec_encode_list(
                        crate::component::spec_components(with@),
                    ) + seq![']']);
                }
                push_piece(&mut pieces, q);
            }
        },
        crate::content::Content::Empty => {},
    }
    proof {
        broadcast use crate::component::lemma_spec_components;

        assert(spec_string_views(pieces@) =~= style_views + spec_content_pieces(me.content));
    }
    let ghost before_extra = spec_string_views(pieces@);
    if c.extra.len() > 0 {
        let mut q = String::new();
        emit_quoted("extra", &mut q);
        crate::chars::push_char(&mut q, ':');
        crate::chars::push_char(&mut q, '[');
        encode_list(&c.extra, &mut q);
        crate::chars::push_char(&mut q, ']');
        proof {
            assert(q@ =~= spec_quoted("extra"@) + seq![':'] + seq!['['] + spec_encode_list(
                me.extra,
            ) + seq![']']);
        }
        push_piece(&mut pieces, q);
    }
    proof {
        assert(spec_string_views(pieces@) =~= spec_component_pieces(me));
    }
    emit_join(&pieces, out);
    crate::chars::push_char(out, '}');
    proof {
        assert(out@ =~= old(out)@ + spec_encode_component(me));
    }
}

/// A color's serial name needs no escaping.
proof fn lemma_color_name_no_escape(c: TextColor)
    ensures
        spec_escape(spec_color_name(c)) == spec_color_name(c),
{
    match c {
        TextColor::Hex(v) => {
            lemma_hex_plain(v as int, 6);
            lemma_escape_plain(spec_color_name(c));
        },
        _ => {
            lemma_color_literal_plain(c);
            lemma_escape_plain(spec_color_name(c));
        },
    }
}

/// Uppercase hex digit characters are ordinary printable characters.
proof fn lemma_hex_plain(v: int, digits: nat)
    ensures
        forall|j: int|
            0 <= j < spec_hex_fixed(v, digits).len()
                ==> is_plain_char(#[trigger] spec_hex_fixed(v, digits)[j]),
        spec_hex_fixed(v, digits).len() == digits,
    decreases digits,
{
    if digits > 0 {
        lemma_hex_plain(v / 16, (digits - 1) as nat);
    }
}

/// The characters of a named color's name are ordinary.
proof fn lemma_color_literal_plain(c: TextColor)
    requires
        !(c is Hex),
    ensures
        forall|j: int|
            0 <= j < spec_color_name(c).len() ==> is_plain_char(#[trigger] spec_color_name(c)[j]),
{
    reveal_strlit("black");
    reveal_strlit("dark_blue");
    reveal_strlit("dark_green");
    reveal_strlit("dark_aqua");
    reveal_strlit("dark_red");
    reveal_strlit("dark_purple");
    reveal_strlit("gold");
    reveal_strlit("gray");
    reveal_strlit("dark_gray");
    reveal_strlit("blue");
    reveal_strlit("green");
    reveal_strlit("aqua");
    reveal_strlit("red");
    reveal_strlit("light_purple");
    reveal_strlit("yellow");
    reveal_strlit("white");
}


/// The control character of a small code point. Only code points below 32
/// arise here, from `\u00XX` escapes.
pub open spec fn spec_control_char(v: int) -> char {
    if v == 0 {
        '\u{0}'
    } else if v == 1 {
        '\u{1}'
    } else if v == 2 {
        '\u{2}'
    } else if v == 3 {
        '\u{3}'
    } else if v == 4 {
        '\u{4}'
    } else if v == 5 {
        '\u{5}'
    } else if v == 6 {
        '\u{6}'
    } else if v == 7 {
        '\u{7}'
    } else if v == 8 {
        '\u{8}'
    } else if v == 9 {
        '\u{9}'
    } else if v == 10 {
        '\u{a}'
    } else if v == 11 {
        '\u{b}'
    } else if v == 12 {
        '\u{c}'
    } else if v == 13 {
        '\u{d}'
    } else if v == 14 {
        '\u{e}'
    } else if v == 15 {
        '\u{f}'
    } else if v == 16 {
        '\u{10}'
    } else if v == 17 {
        '\u{11}'
    } else if v == 18 {
        '\u{12}'
    } else if v == 19 {
        '\u{13}'
    } else if v == 20 {
        '\u{14}'
    } else if v == 21 {
        '\u{15}'
    } else if v == 22 {
        '\u{16}'
    } else if v == 23 {
        '\u{17}'
    } else if v == 24 {
        '\u{18}'
    } else if v == 25 {
        '\u{19}'
    } else if v == 26 {
        '\u{1a}'
    } else if v == 27 {
        '\u{1b}'
    } else if v == 28 {
        '\u{1c}'
    } else if v == 29 {
        '\u{1d}'
    } else if v == 30 {
        '\u{1e}'
    } else {
        '\u{1f}'
    }
}

/// The numeric value of a hex digit character, upper or lower case, or
/// nothing for any other character.
pub open spec fn spec_hex_digit_value(c: char) -> Option<int> {
    if c == '0' {
        Some(0int)
    } else if c == '1' {
        Some(1int)
    } else if c == '2' {
        Some(2int)
    } else if c == '3' {
        Some(3int)
    } else if c == '4' {
        Some(4int)
    } else if c == '5' {
        Some(5int)
    } else if c == '6' {
        Some(6int)
    } else if c == '7' {
        Some(7int)
    } else if c == '8' {
        Some(8int)
    } else if c == '9' {
        Some(9int)
    } else if c == 'a' || c == 'A' {
        Some(10int)
    } else if c == 'b' || c == 'B' {
        Some(11int)
    } else if c == 'c' || c == 'C' {
        Some(12int)
    } else if c == 'd' || c == 'D' {
        Some(13int)
    } else if c == 'e' || c == 'E' {
        Some(14int)
    } else if c == 'f' || c == 'F' {
        Some(15int)
    } else {
        None
    }
}

/// Whether every character of a sequence is a hex digit.
pub open spec fn spec_all_hex(s: Seq<char>) -> bool {
    forall|j: int| 0 <= j < s.len() ==> spec_hex_digit_value(#[trigger] s[j]) is Some
}

/// The value of a sequence of hex digits, most significant first.
pub open spec fn spec_hex_value(s: Seq<char>) -> int
    decreases s.len(),
{
    if s.len() == 0 {
        0
    } else {
        spec_hex_value(s.drop_last()) * 16 + (match spec_hex_digit_value(s.last()) {
            Some(d) => d,
            None => 0,
        })
    }
}

/// The decimal digit value of a character, or nothing.
pub open spec fn spec_dec_digit_value(c: char) -> Option<int> {
    if c == '0' {
        Some(0int)
    } else if c == '1' {
        Some(1int)
    } else if c == '2' {
        Some(2int)
    } else if c == '3' {
        Some(3int)
    } else if c == '4' {
        Some(4int)
    } else if c == '5' {
        Some(5int)
    } else if c == '6' {
        Some(6int)
    } else if c == '7' {
        Some(7int)
    } else if c == '8' {
        Some(8int)
    } else if c == '9' {
        Some(9int)
    } else {
        None
    }
}

/// The body of a quoted string from after the opening quote: the unescaped
/// characters up to the closing quote, and the rest after it. Accepts the
/// escapes the encoder emits, the common short escapes, and `\u00XX` for
/// code points below 32; any other escape, or a missing closing quote, is
/// malformed.
pub open spec fn spec_parse_str_body(s: Seq<char>) -> Option<(Seq<char>, Seq<char>)>
    decreases s.len(),
{
    if s.len() == 0 {
        None
    } else if s[0] == '"' {
        Some((Seq::empty(), s.subrange(1, s.len() as int)))
    } else if s[0] == '\\' {
        if s.len() < 2 {
            None
        } else {
            let e = s[1];
            if e == 'u' {
                if s.len() < 6 {
                    None
                } else {
                    let h = s.subrange(2, 6);
                    if spec_all_hex(h) && spec_hex_value(h) < 32 {
                        match spec_parse_str_body(s.subrange(6, s.len() as int)) {
                            Some((body, rest)) => Some(
                                (seq![spec_control_char(spec_hex_value(h))] + body, rest),
                            ),
                            None => None,
                        }
                    } else {
                        None
                    }
                }
            } else {
                let unescaped: Option<char> = if e == '"' {
                    Some('"')
                } else if e == '\\' {
                    Some('\\')
                } else if e == '/' {
                    Some('/')
                } else if e == 'n' {
                    Some('\n')
                } else if e == 't' {
                    Some('\t')
                } else if e == 'r' {
                    Some('\r')
                } else if e == 'b' {
                    Some('\u{8}')
                } else if e == 'f' {
                    Some('\u{c}')
                } else {
                    None
                };
                match unescaped {
                    Some(c) => match spec_parse_str_body(s.subrange(2, s.len() as int)) {
                        Some((body, rest)) => Some((seq![c] + body, rest)),
                        None => None,
                    },
                    None => None,
                }
            }
        }
    } else {
        match spec_parse_str_body(s.subrange(1, s.len() as int)) {
            Some((body, rest)) => Some((seq![s[0]] + body, rest)),
            None => None,
        }
    }
}

/// A quoted string from the start of the input: the unescaped body and the
/// rest after the closing quote.
pub open spec fn spec_parse_string(s: Seq<char>) -> Option<(Seq<char>, Seq<char>)> {
    if s.len() > 0 && s[0] == '"' {
        spec_parse_str_body(s.subrange(1, s.len() as int))
    } else {
        None
    }
}

/// A boolean literal from the start of the input.
pub open spec fn spec_parse_bool(s: Seq<char>) -> Option<(bool, Seq<char>)> {
    if s.len() >= 4 && s.subrange(0, 4) == "true"@ {
        Some((true, s.subrange(4, s.len() as int)))
    } else if s.len() >= 5 && s.subrange(0, 5) == "false"@ {
        Some((false, s.subrange(5, s.len() as int)))
    } else {
        None
    }
}

/// A run of decimal digits from the start of the input, left to right, with
/// the value accumulated so far.
pub open spec fn spec_parse_digits(s: Seq<char>, acc: int) -> (int, Seq<char>)
    decreases s.len(),
{
    if s.len() > 0 && spec_dec_digit_value(s[0]) is Some {
        spec_parse_digits(
            s.subrange(1, s.len() as int),
            acc * 10 + spec_dec_digit_value(s[0])->0,
        )
    } else {
        (acc, s)
    }
}

/// A 32-bit signed integer literal from the start of the input: an optional
/// minus sign and at least one digit; out-of-range values are malformed.
pub open spec fn spec_parse_int(s: Seq<char>) -> Option<(int, Seq<char>)> {
    let negative = s.len() > 0 && s[0] == '-';
    let t = if negative {
        s.subrange(1, s.len() as int)
    } else {
        s
    };
    if t.len() > 0 && spec_dec_digit_value(t[0]) is Some {
        let (magnitude, rest) = spec_parse_digits(t, 0);
        let value = if negative {
            -magnitude
        } else {
            magnitude
        };
        if -0x8000_0000 <= value < 0x8000_0000 {
            Some((value, rest))
        } else {
            None
        }
    } else {
        None
    }
}

/// The color a serial color string stands for: one of the sixteen names, or
/// `#` followed by one to six hex digits.
pub open spec fn spec_parse_color(text: Seq<char>) -> Option<TextColor> {
    if text == "black"@ {
        Some(TextColor::Black)
    } else if text == "dark_blue"@ {
        Some(TextColor::DarkBlue)
    } else if text == "dark_green"@ {
        Some(TextColor::DarkGreen)
    } else if text == "dark_aqua"@ {
        Some(TextColor::DarkAqua)
    } else if text == "dark_red"@ {
        Some(TextColor::DarkRed)
    } else if text == "dark_purple"@ {
        Some(TextColor::DarkPurple)
    } else if text == "gold"@ {
        Some(TextColor::Gold)
    } else if text == "gray"@ {
        Some(TextColor::Gray)
    } else if text == "dark_gray"@ {
        Some(TextColor::DarkGray)
    } else if text == "blue"@ {
        Some(TextColor::Blue)
    } else if text == "green"@ {
        Some(TextColor::Green)
    } else if text == "aqua"@ {
        Some(TextColor::Aqua)
    } else if text == "red"@ {
        Some(TextColor::Red)
    } else if text == "light_purple"@ {
        Some(TextColor::LightPurple)
    } else if text == "yellow"@ {
        Some(TextColor::Yellow)
    } else if text == "white"@ {
        Some(TextColor::White)
    } else if text.len() >= 2 && text.len() <= 7 && text[0] == '#' && spec_all_hex(
        text.subrange(1, text.len() as int),
    ) {
        Some(TextColor::Hex(spec_hex_value(text.subrange(1, text.len() as int)) as u32))
    } else {
        None
    }
}

/// The 128-bit identifier a serial identifier string stands for: thirty-two
/// hex digits in five hyphen-separated groups of 8, 4, 4, 4 and 12.
pub open spec fn spec_parse_uuid(text: Seq<char>) -> Option<int> {
    if text.len() == 36 && text[8] == '-' && text[13] == '-' && text[18] == '-' && text[23] == '-' {
        let h = text.subrange(0, 8) + text.subrange(9, 13) + text.subrange(14, 18) + text.subrange(
            19,
            23,
        ) + text.subrange(24, 36);
        if spec_all_hex(h) {
            Some(spec_hex_value(h))
        } else {
            None
        }
    } else {
        None
    }
}


/// The fields collected while parsing a component object, each present at
/// most once.
#[verifier::ext_equal]
pub struct FieldAccView {
    /// The `bold` field, if seen.
    pub bold: Option<bool>,
    /// The `italic` field, if seen.
    pub italic: Option<bool>,
    /// The `underlined` field, if seen.
    pub underlined: Option<bool>,
    /// The `strikethrough` field, if seen.
    pub strikethrough: Option<bool>,
    /// The `obfuscated` field, if seen.
    pub obfuscated: Option<bool>,
    /// The `font` field, if seen.
    pub font: Option<Seq<char>>,
    /// The `color` field, if seen.
    pub color: Option<TextColor>,
    /// The `insertion` field, if seen.
    pub insertion: Option<Seq<char>>,
    /// The `clickEvent` field, if seen.
    pub click: Option<ClickEventView>,
    /// The `hoverEvent` field, if seen.
    pub hover: Option<HoverEventView>,
    /// The `text` field, if seen.
    pub text: Option<Seq<char>>,
    /// The `keybind` field, if seen.
    pub keybind: Option<Seq<char>>,
    /// The `score` fields, if seen: name, objective and value.
    pub score: Option<(Seq<char>, Seq<char>, Seq<char>)>,
    /// The `translate` field, if seen.
    pub translate: Option<Seq<char>>,
    /// The `with` field, if seen.
    pub with_args: Option<Seq<ComponentView>>,
    /// The `extra` field, if seen.
    pub extra: Option<Seq<ComponentView>>,
}

/// An accumulator with no field seen yet.
pub open spec fn empty_acc() -> FieldAccView {
    FieldAccView {
        bold: None,
        italic: None,
        underlined: None,
        strikethrough: None,
        obfuscated: None,
        font: None,
        color: None,
        insertion: None,
        click: None,
        hover: None,
        text: None,
        keybind: None,
        score: None,
        translate: None,
        with_args: None,
        extra: None,
    }
}

/// The component the collected fields stand for: the style from the style
/// fields; the content from the single content group present, with empty
/// content when none is; the children from `extra`. More than one content
/// group, or arguments without a translation key, is malformed.
pub open spec fn spec_assemble(acc: FieldAccView) -> Option<ComponentView> {
    let content_count = (if acc.text is Some {
        1int
    } else {
        0int
    }) + (if acc.keybind is Some {
        1int
    } else {
        0int
    }) + (if acc.score is Some {
        1int
    } else {
        0int
    }) + (if acc.translate is Some {
        1int
    } else {
        0int
    });
    if content_count > 1 || (acc.with_args is Some && acc.translate is None) {
        None
    } else {
        let content = if acc.text is Some {
            ContentView::Text(acc.text->0)
        } else if acc.keybind is Some {
            ContentView::Keybind(acc.keybind->0)
        } else if acc.score is Some {
            ContentView::Score {
                name: (acc.score->0).0,
                objective: (acc.score->0).1,
                value: (acc.score->0).2,
            }
        } else if acc.translate is Some {
            ContentView::Translation {
                key: acc.translate->0,
                with: match acc.with_args {
                    Some(w) => w,
                    None => Seq::empty(),
                },
            }
        } else {
            ContentView::Empty
        };
        Some(
            ComponentView {
                content: content,
                style: StyleView {
                    bold: acc.bold,
                    italic: acc.italic,
                    underlined: acc.underlined,
                    strikethrough: acc.strikethrough,
                    obfuscated: acc.obfuscated,
                    font: acc.font,
                    color: acc.color,
                    insertion: acc.insertion,
                    click_event: acc.click,
                    hover_event: acc.hover,
                },
                extra: match acc.extra {
                    Some(e) => e,
                    None => Seq::empty(),
                },
            },
        )
    }
}

/// A serial component from the start of the input: a bare quoted string, or
/// an object of style, content and child fields in any order.
pub open spec fn spec_parse_component(s: Seq<char>) -> Option<(ComponentView, Seq<char>)>
    decreases s.len(), 4int,
{
    if s.len() == 0 {
        None
    } else if s[0] == '"' {
        match spec_parse_string(s) {
            Some((text, rest)) => Some(
                (
                    ComponentView {
                        content: ContentView::Text(text),
                        style: blank_style_view(),
                        extra: Seq::empty(),
                    },
                    rest,
                ),
            ),
            None => None,
        }
    } else if s[0] == '{' {
        if s.len() >= 2 && s[1] == '}' {
            match spec_assemble(empty_acc()) {
                Some(c) => Some((c, s.subrange(2, s.len() as int))),
                None => None,
            }
        } else {
            match spec_parse_fields(s.subrange(1, s.len() as int), empty_acc()) {
                Some((acc, rest)) => match spec_assemble(acc) {
                    Some(c) => Some((c, rest)),
                    None => None,
                },
                None => None,
            }
        }
    } else {
        None
    }
}

/// One or more `"key":value` fields, comma-separated and ended by a closing
/// brace: each key is dispatched to its field parser and recorded; a
/// repeated or unknown key is malformed.
pub open spec fn spec_parse_fields(s: Seq<char>, acc: FieldAccView) -> Option<
    (FieldAccView, Seq<char>),
>
    decreases s.len(), 5int,
{
    match spec_parse_string(s) {
        Some((key, r1)) => {
            if r1.len() == 0 || r1[0] != ':' || r1.len() >= s.len() {
                None
            } else {
                let r2 = r1.subrange(1, r1.len() as int);
                match spec_parse_field_value(r2, key, acc) {
                    Some((acc2, r3)) => {
                        if r3.len() >= r2.len() {
                            None
                        } else if r3.len() > 0 && r3[0] == ',' {
                            spec_parse_fields(r3.subrange(1, r3.len() as int), acc2)
                        } else if r3.len() > 0 && r3[0] == '}' {
                            Some((acc2, r3.subrange(1, r3.len() as int)))
                        } else {
                            None
                        }
                    },
                    None => None,
                }
            }
        },
        None => None,
    }
}

/// The payload of one field, dispatched on its key, recorded into the
/// accumulator. A key seen twice, or an unknown key, is malformed.
pub open spec fn spec_parse_field_value(s: Seq<char>, key: Seq<char>, acc: FieldAccView) -> Option<
    (FieldAccView, Seq<char>),
>
    decreases s.len(), 6int,
{
    if key == "bold"@ {
        match spec_parse_bool(s) {
            Some((b, rest)) => if acc.bold is None {
                Some((FieldAccView { bold: Some(b), ..acc }, rest))
            } else {
                None
            },
            None => None,
        }
    } else if key == "italic"@ {
        match spec_parse_bool(s) {
            Some((b, rest)) => if acc.italic is None {
                Some((FieldAccView { italic: Some(b), ..acc }, rest))
            } else {
                None
            },
            None => None,
        }
    } else if key == "underlined"@ {
        match spec_parse_bool(s) {
            Some((b, rest)) => if acc.underlined is None {
                Some((FieldAccView { underlined: Some(b), ..acc }, rest))
            } else {
                None
            },
            None => None,
        }
    } else if key == "strikethrough"@ {
        match spec_parse_bool(s) {
            Some((b, rest)) => if acc.strikethrough is None {
                Some((FieldAccView { strikethrough: Some(b), ..acc }, rest))
            } else {
                None
            },
            None => None,
        }
    } else if key == "obfuscated"@ {
        match spec_parse_bool(s) {
            Some((b, rest)) => if acc.obfuscated is None {
                Some((FieldAccView { obfuscated: Some(b), ..acc }, rest))
            } else {
                None
            },
            None => None,
        }
    } else if key == "font"@ {
        match spec_parse_string(s) {
            Some((t, rest)) => if acc.font is None {
                Some((FieldAccView { font: Some(t), ..acc }, rest))
            } else {
                None
            },
            None => None,
        }
    } else if key == "color"@ {
        match spec_parse_string(s) {
            Some((t, rest)) => match spec_parse_color(t) {
                Some(col) => if acc.color is None {
                    Some((FieldAccView { color: Some(col), ..acc }, rest))
                } else {
                    None
                },
                None => None,
            },
            None => None,
        }
    } else if key == "insertion"@ {
        match spec_parse_string(s) {
            Some((t, rest)) => if acc.insertion is None {
                Some((FieldAccView { insertion: Some(t), ..acc }, rest))
            } else {
                None
            },
            None => None,
        }
    } else if key == "clickEvent"@ {
        match spec_parse_click(s) {
            Some((e, rest)) => if acc.click is None {
                Some((FieldAccView { click: Some(e), ..acc }, rest))
            } else {
                None
            },
            None => None,
        }
    } else if key == "hoverEvent"@ {
        match spec_parse_hover(s) {
            Some((e, rest)) => if acc.hover is None {
                Some((FieldAccView { hover: Some(e), ..acc }, rest))
            } else {
                None
            },
            None => None,
        }
    } else if key == "text"@ {
        match spec_parse_string(s) {
            Some((t, rest)) => if acc.text is None {
                Some((FieldAccView { text: Some(t), ..acc }, rest))
            } else {
                None
            },
            None => None,
        }
    } else if key == "keybind"@ {
        match spec_parse_string(s) {
            Some((t, rest)) => if acc.keybind is None {
                Some((FieldAccView { keybind: Some(t), ..acc }, rest))
            } else {
                None
            },
            None => None,
        }
    } else if key == "score"@ {
        match spec_parse_score(s) {
            Some((sc, rest)) => if acc.score is None {
                Some((FieldAccView { score: Some(sc), ..acc }, rest))
            } else {
                None
            },
            None => None,
        }
    } else if key == "translate"@ {
        match spec_parse_string(s) {
            Some((t, rest)) => if acc.translate is None {
                Some((FieldAccView { translate: Some(t), ..acc }, rest))
            } else {
                None
            },
            None => None,
        }
    } else if key == "with"@ {
        match spec_parse_array(s) {
            Some((items, rest)) => if acc.with_args is None {
                Some((FieldAccView { with_args: Some(items), ..acc }, rest))
            } else {
                None
            },
            None => None,
        }
    } else if key == "extra"@ {
        match spec_parse_array(s) {
            Some((items, rest)) => if acc.extra is None {
                Some((FieldAccView { extra: Some(items), ..acc }, rest))
            } else {
                None
            },
            None => None,
        }
    } else {
        None
    }
}

/// A component array: `[` then components separated by commas, or nothing,
/// then `]`.
pub open spec fn spec_parse_array(s: Seq<char>) -> Option<(Seq<ComponentView>, Seq<char>)>
    decreases s.len(), 3int,
{
    if s.len() >= 1 && s[0] == '[' {
        if s.len() >= 2 && s[1] == ']' {
            Some((Seq::empty(), s.subrange(2, s.len() as int)))
        } else {
            spec_parse_elements(s.subrange(1, s.len() as int))
        }
    } else {
        None
    }
}

/// One or more components separated by commas and ended by a closing
/// bracket.
pub open spec fn spec_parse_elements(s: Seq<char>) -> Option<(Seq<ComponentView>, Seq<char>)>
    decreases s.len(), 8int,
{
    match spec_parse_component(s) {
        Some((c, r1)) => {
            if r1.len() >= s.len() {
                None
            } else if r1.len() > 0 && r1[0] == ',' {
                match spec_parse_elements(r1.subrange(1, r1.len() as int)) {
                    Some((items, rest)) => Some((seq![c] + items, rest)),
                    None => None,
                }
            } else if r1.len() > 0 && r1[0] == ']' {
                Some((seq![c], r1.subrange(1, r1.len() as int)))
            } else {
                None
            }
        },
        None => None,
    }
}

/// A click action object: its action name, then its value, a string except
/// for a page number.
#[verifier::opaque]
pub open spec fn spec_parse_click(s: Seq<char>) -> Option<(ClickEventView, Seq<char>)> {
    if s.len() >= 1 && s[0] == '{' {
        match spec_parse_string(s.subrange(1, s.len() as int)) {
            Some((k1, r1)) => {
                if k1 == "action"@ && r1.len() > 0 && r1[0] == ':' {
                    match spec_parse_string(r1.subrange(1, r1.len() as int)) {
                        Some((action, r2)) => {
                            if r2.len() > 0 && r2[0] == ',' {
                                match spec_parse_string(r2.subrange(1, r2.len() as int)) {
                                    Some((k2, r3)) => {
                                        if k2 == "value"@ && r3.len() > 0 && r3[0] == ':' {
                                            let r4 = r3.subrange(1, r3.len() as int);
                                            if action == "change_page"@ {
                                                match spec_parse_int(r4) {
                                                    Some((p, r5)) => if r5.len() > 0 && r5[0]
                                                        == '}' {
                                                        Some(
                                                            (
                                                                ClickEventView::ChangePage(p),
                                                                r5.subrange(1, r5.len() as int),
                                                            ),
                                                        )
                                                    } else {
                                                        None
                                                    },
                                                    None => None,
                                                }
                                            } else {
                                                match spec_parse_string(r4) {
                                                    Some((v, r5)) => if r5.len() > 0 && r5[0]
                                                        == '}' {
                                                        let rest = r5.subrange(1, r5.len() as int);
                                                        if action == "run_command"@ {
                                                            Some(
                                                                (
                                                                    ClickEventView::RunCommand(v),
                                                                    rest,
                                                                ),
                                                            )
                                                        } else if action == "suggest_command"@ {
                                                            Some(
                                                                (
                                                                    ClickEventView::SuggestCommand(
                                                                        v,
                                                                    ),
                                                                    rest,
                                                                ),
                                                            )
                                                        } else if action == "copy_to_clipboard"@ {
                                                            Some(
                                                                (
                                                                    ClickEventView::CopyToClipboard(
                                                                        v,
                                                                    ),
                                                                    rest,
                                                                ),
                                                            )
                                                        } else {
                                                            None
                                                        }
                                                    } else {
                                                        None
                                                    },
                                                    None => None,
                                                }
                                            }
                                        } else {
                                            None
                                        }
                                    },
                                    None => None,
                                }
                            } else {
                                None
                            }
                        },
                        None => None,
                    }
                } else {
                    None
                }
            },
            None => None,
        }
    } else {
        None
    }
}

/// A score object: its entry name, its objective, and optionally its value,
/// which defaults to the empty string when absent.
#[verifier::opaque]
pub open spec fn spec_parse_score(s: Seq<char>) -> Option<
    ((Seq<char>, Seq<char>, Seq<char>), Seq<char>),
> {
    if s.len() >= 1 && s[0] == '{' {
        match spec_parse_named_string(s.subrange(1, s.len() as int), "name"@) {
            Some((name, r1)) => {
                if r1.len() > 0 && r1[0] == ',' {
                    match spec_parse_named_string(r1.subrange(1, r1.len() as int), "objective"@) {
                        Some((objective, r2)) => {
                            if r2.len() > 0 && r2[0] == '}' {
                                Some(
                                    (
                                        (name, objective, Seq::empty()),
                                        r2.subrange(1, r2.len() as int),
                                    ),
                                )
                            } else if r2.len() > 0 && r2[0] == ',' {
                                match spec_parse_named_string(
                                    r2.subrange(1, r2.len() as int),
                                    "value"@,
                                ) {
                                    Some((value, r3)) => if r3.len() > 0 && r3[0] == '}' {
                                        Some(
                                            (
                                                (name, objective, value),
                                                r3.subrange(1, r3.len() as int),
                                            ),
                                        )
                                    } else {
                                        None
                                    },
                                    None => None,
                                }
                            } else {
                                None
                            }
                        },
                        None => None,
                    }
                } else {
                    None
                }
            },
            None => None,
        }
    } else {
        None
    }
}

/// A `"key":"string"` pair with a fixed expected key.
pub open spec fn spec_parse_named_string(s: Seq<char>, key: Seq<char>) -> Option<
    (Seq<char>, Seq<char>),
> {
    match spec_parse_string(s) {
        Some((k, r1)) => {
            if k == key && r1.len() > 0 && r1[0] == ':' {
                spec_parse_string(r1.subrange(1, r1.len() as int))
            } else {
                None
            }
        },
        None => None,
    }
}

/// A hover action object: its action name, then its contents: a component
/// for shown text, an item object, or an entity object.
pub open spec fn spec_parse_hover(s: Seq<char>) -> Option<(HoverEventView, Seq<char>)>
    decreases s.len(), 2int,
{
    if s.len() >= 1 && s[0] == '{' {
        match spec_parse_string(s.subrange(1, s.len() as int)) {
            Some((k1, r1)) => {
                if k1 == "action"@ && r1.len() > 0 && r1[0] == ':' {
                    match spec_parse_string(r1.subrange(1, r1.len() as int)) {
                        Some((action, r2)) => {
                            if r2.len() > 0 && r2[0] == ',' {
                                match spec_parse_string(r2.subrange(1, r2.len() as int)) {
                                    Some((k2, r3)) => {
                                        if k2 == "contents"@ && r3.len() > 0 && r3[0] == ':'
                                            && r3.len() < s.len() {
                                            let r4 = r3.subrange(1, r3.len() as int);
                                            if action == "show_text"@ {
                                                match spec_parse_component(r4) {
                                                    Some((c, r5)) => if r5.len() > 0 && r5[0]
                                                        == '}' {
                                                        Some(
                                                            (
                                                                HoverEventView::ShowText(
                                                                    Box::new(c),
                                                                ),
                                                                r5.subrange(1, r5.len() as int),
                                                            ),
                                                        )
                                                    } else {
                                                        None
                                                    },
                                                    None => None,
                                                }
                                            } else if action == "show_item"@ {
                                                match spec_parse_item(r4) {
                                                    Some((h, r5)) => if r5.len() > 0 && r5[0]
                                                        == '}' {
                                                        Some(
                                                            (
                                                                HoverEventView::ShowItem(h),
                                                                r5.subrange(1, r5.len() as int),
                                                            ),
                                                        )
                                                    } else {
                                                        None
                                                    },
                                                    None => None,
                                                }
                                            } else if action == "show_entity"@ {
                                                match spec_parse_entity(r4) {
                                                    Some((h, r5)) => if r5.len() > 0 && r5[0]
                                                        == '}' {
                                                        Some(
                                                            (
                                                                HoverEventView::ShowEntity(
                                                                    Box::new(h),
                                                                ),
                                                                r5.subrange(1, r5.len() as int),
                                                            ),
                                                        )
                                                    } else {
                                                        None
                                                    },
                                                    None => None,
                                                }
                                            } else {
                                                None
                                            }
                                        } else {
                                            None
                                        }
                                    },
                                    None => None,
                                }
                            } else {
                                None
                            }
                        },
                        None => None,
                    }
                } else {
                    None
                }
            },
            None => None,
        }
    } else {
        None
    }
}

/// An item hover contents object: the material key, then optionally the
/// stack count, defaulting to one, then optionally the carried tag.
#[verifier::opaque]
pub open spec fn spec_parse_item(s: Seq<char>) -> Option<(ItemHoverView, Seq<char>)> {
    if s.len() >= 1 && s[0] == '{' {
        match spec_parse_named_string(s.subrange(1, s.len() as int), "id"@) {
            Some((id_text, r1)) => {
                let id = crate::key::spec_parse_key(id_text);
                if r1.len() > 0 && r1[0] == '}' {
                    Some(
                        (
                            ItemHoverView { id: id, count: 1, tag: None },
                            r1.subrange(1, r1.len() as int),
                        ),
                    )
                } else if r1.len() > 0 && r1[0] == ',' {
                    match spec_parse_string(r1.subrange(1, r1.len() as int)) {
                        Some((k2, r2)) => {
                            if k2 == "count"@ && r2.len() > 0 && r2[0] == ':' {
                                match spec_parse_int(r2.subrange(1, r2.len() as int)) {
                                    Some((count, r3)) => {
                                        if r3.len() > 0 && r3[0] == '}' {
                                            Some(
                                                (
                                                    ItemHoverView { id: id, count: count, tag: None },
                                                    r3.subrange(1, r3.len() as int),
                                                ),
                                            )
                                        } else if r3.len() > 0 && r3[0] == ',' {
                                            match spec_parse_named_string(
                                                r3.subrange(1, r3.len() as int),
                                                "tag"@,
                                            ) {
                                                Some((tag, r4)) => if r4.len() > 0 && r4[0] == '}' {
                                                    Some(
                                                        (
                                                            ItemHoverView {
                                                                id: id,
                                                                count: count,
                                                                tag: Some(tag),
                                                            },
                                                            r4.subrange(1, r4.len() as int),
                                                        ),
                                                    )
                                                } else {
                                                    None
                                                },
                                                None => None,
                                            }
                                        } else {
                                            None
                                        }
                                    },
                                    None => None,
                                }
                            } else {
                                None
                            }
                        },
                        None => None,
                    }
                } else {
                    None
                }
            },
            None => None,
        }
    } else {
        None
    }
}

/// An entity hover contents object: the identifier, the display-name
/// component, and the entity type key.
pub open spec fn spec_parse_entity(s: Seq<char>) -> Option<(EntityHoverView, Seq<char>)>
    decreases s.len(), 10int,
{
    if s.len() >= 1 && s[0] == '{' {
        match spec_parse_named_string(s.subrange(1, s.len() as int), "id"@) {
            Some((id_text, r1)) => {
                match spec_parse_uuid(id_text) {
                    Some(id) => {
                        if r1.len() > 0 && r1[0] == ',' && r1.len() < s.len() {
                            match spec_parse_string(r1.subrange(1, r1.len() as int)) {
                                Some((k2, r2)) => {
                                    if k2 == "name"@ && r2.len() > 0 && r2[0] == ':' && r2.len()
                                        < s.len() {
                                        match spec_parse_component(
                                            r2.subrange(1, r2.len() as int),
                                        ) {
                                            Some((name, r3)) => {
                                                if r3.len() > 0 && r3[0] == ',' {
                                                    match spec_parse_named_string(
                                                        r3.subrange(1, r3.len() as int),
                                                        "type"@,
                                                    ) {
                                                        Some((ty, r4)) => if r4.len() > 0 && r4[0]
                                                            == '}' {
                                                            Some(
                                                                (
                                                                    EntityHoverView {
                                                                        id: id as u128,
                                                                        name: Box::new(name),
                                                                        entity_type:
                                                                            crate::key::spec_parse_key(
                                                                            ty,
                                                                        ),
                                                                    },
                                                                    r4.subrange(
                                                                        1,
                                                                        r4.len() as int,
                                                                    ),
                                                                ),
                                                            )
                                                        } else {
                                                            None
                                                        },
                                                        None => None,
                                                    }
                                                } else {
                                                    None
                                                }
                                            },
                                            None => None,
                                        }
                                    } else {
                                        None
                                    }
                                },
                                None => None,
                            }
                        } else {
                            None
                        }
                    },
                    None => None,
                }
            },
            None => None,
        }
    } else {
        None
    }
}

/// The decoding of a structured serial string: a whole serial component with
/// nothing left over.
pub open spec fn spec_decode_component(s: Seq<char>) -> Option<ComponentView> {
    match spec_parse_component(s) {
        Some((c, rest)) => if rest.len() == 0 {
            Some(c)
        } else {
            None
        },
        None => None,
    }
}


/// Whether the characters at a position match a literal exactly.
#[verifier::loop_isolation(false)]
fn match_lit(v: &Vec<char>, pos: usize, lit: &str) -> (r: bool)
    requires
        pos <= v@.len(),
    ensures
        r == (pos + lit@.len() <= v@.len() && v@.subrange(
            pos as int,
            pos + lit@.len(),
        ) == lit@),
{
    let n = lit.unicode_len();
    if v.len() - pos < n {
        return false;
    }
    let mut i: usize = 0;
    while i < n
        invariant
            0 <= i <= n,
            n == lit@.len(),
            pos + n <= v@.len(),
            forall|j: int| 0 <= j < i ==> v@[pos + j] == lit@[j],
        decreases n - i,
    {
        if v[pos + i] != lit.get_char(i) {
            proof {
                assert(v@.subrange(pos as int, pos + lit@.len())[i as int] != lit@[i as int]);
            }
            return false;
        }
        i += 1;
    }
    proof {
        assert(v@.subrange(pos as int, pos + lit@.len()) =~= lit@);
    }
    true
}

/// The numeric value of a hex digit character, either case.
fn hex_value_char(c: char) -> (r: Option<u8>)
    ensures
        match r {
            Some(d) => spec_hex_digit_value(c) == Some(d as int) && d < 16,
            None => spec_hex_digit_value(c) is None,
        },
{
    if c == '0' {
        Some(0)
    } else if c == '1' {
        Some(1)
    } else if c == '2' {
        Some(2)
    } else if c == '3' {
        Some(3)
    } else if c == '4' {
        Some(4)
    } else if c == '5' {
        Some(5)
    } else if c == '6' {
        Some(6)
    } else if c == '7' {
        Some(7)
    } else if c == '8' {
        Some(8)
    } else if c == '9' {
        Some(9)
    } else if c == 'a' || c == 'A' {
        Some(10)
    } else if c == 'b' || c == 'B' {
        Some(11)
    } else if c == 'c' || c == 'C' {
        Some(12)
    } else if c == 'd' || c == 'D' {
        Some(13)
    } else if c == 'e' || c == 'E' {
        Some(14)
    } else if c == 'f' || c == 'F' {
        Some(15)
    } else {
        None
    }
}

/// The decimal value of a digit character.
fn dec_value_char(c: char) -> (r: Option<u8>)
    ensures
        match r {
            Some(d) => spec_dec_digit_value(c) == Some(d as int) && d < 10,
            None => spec_dec_digit_value(c) is None,
        },
{
    if c == '0' {
        Some(0)
    } else if c == '1' {
        Some(1)
    } else if c == '2' {
        Some(2)
    } else if c == '3' {
        Some(3)
    } else if c == '4' {
        Some(4)
    } else if c == '5' {
        Some(5)
    } else if c == '6' {
        Some(6)
    } else if c == '7' {
        Some(7)
    } else if c == '8' {
        Some(8)
    } else if c == '9' {
        Some(9)
    } else {
        None
    }
}

/// The control character of a code point below 32.
fn control_char(vl: u8) -> (r: char)
    requires
        vl < 32,
    ensures
        r == spec_control_char(vl as int),
{
    if vl == 0 {
        '\u{0}'
    } else if vl == 1 {
        '\u{1}'
    } else if vl == 2 {
        '\u{2}'
    } else if vl == 3 {
        '\u{3}'
    } else if vl == 4 {
        '\u{4}'
    } else if vl == 5 {
        '\u{5}'
    } else if vl == 6 {
        '\u{6}'
    } else if vl == 7 {
        '\u{7}'
    } else if vl == 8 {
        '\u{8}'
    } else if vl == 9 {
        '\u{9}'
    } else if vl == 10 {
        '\u{a}'
    } else if vl == 11 {
        '\u{b}'
    } else if vl == 12 {
        '\u{c}'
    } else if vl == 13 {
        '\u{d}'
    } else if vl == 14 {
        '\u{e}'
    } else if vl == 15 {
        '\u{f}'
    } else if vl == 16 {
        '\u{10}'
    } else if vl == 17 {
        '\u{11}'
    } else if vl == 18 {
        '\u{12}'
    } else if vl == 19 {
        '\u{13}'
    } else if vl == 20 {
        '\u{14}'
    } else if vl == 21 {
        '\u{15}'
    } else if vl == 22 {
        '\u{16}'
    } else if vl == 23 {
        '\u{17}'
    } else if vl == 24 {
        '\u{18}'
    } else if vl == 25 {
        '\u{19}'
    } else if vl == 26 {
        '\u{1a}'
    } else if vl == 27 {
        '\u{1b}'
    } else if vl == 28 {
        '\u{1c}'
    } else if vl == 29 {
        '\u{1d}'
    } else if vl == 30 {
        '\u{1e}'
    } else {
        '\u{1f}'
    }
}

/// Reads a quoted string's body from after the opening quote, returning the
/// unescaped characters and the position after the closing quote.
#[verifier::rlimit(100)]
#[verifier::spinoff_prover]
fn parse_str_body(v: &Vec<char>, pos: usize) -> (r: Option<(Vec<char>, usize)>)
    requires
        pos <= v@.len(),
    ensures
        r matches Some(p) ==> spec_parse_str_body(v@.skip(pos as int)) == Some(
            (p.0@, v@.skip(p.1 as int)),
        ) && pos <= p.1 <= v@.len(),
        r is None ==> spec_parse_str_body(v@.skip(pos as int)) is None,
    decreases v@.len() - pos,
{
    let ghost s = v@.skip(pos as int);
    if pos >= v.len() {
        return None;
    }
    let c = v[pos];
    proof {
        assert(s[0] == v@[pos as int]);
    }
    if c == '"' {
        let out: Vec<char> = Vec::new();
        proof {
            assert(v@.skip(pos + 1) =~= s.subrange(1, s.len() as int));
            assert(spec_parse_str_body(s) == Some((out@, v@.skip(pos + 1))));
        }
        return Some((out, pos + 1));
    }
    if c == '\\' {
        if pos + 1 >= v.len() {
            return None;
        }
        let e = v[pos + 1];
        proof {
            assert(s[1] == v@[pos + 1]);
        }
        if e == 'u' {
            if v.len() - pos < 6 {
                return None;
            }
            let ghost h = s.subrange(2, 6);
            proof {
                assert(h[0] == v@[pos + 2]);
                assert(h[1] == v@[pos + 3]);
                assert(h[2] == v@[pos + 4]);
                assert(h[3] == v@[pos + 5]);
            }
            let a0 = match hex_value_char(v[pos + 2]) {
                Some(d) => d,
                None => {
                    proof {
                        assert(!spec_all_hex(h)) by {
                            assert(spec_hex_digit_value(h[0]) is None);
                        }
                    }
                    return None;
                },
            };
            let a1 = match hex_value_char(v[pos + 3]) {
                Some(d) => d,
                None => {
                    proof {
                        assert(!spec_all_hex(h)) by {
                            assert(spec_hex_digit_value(h[1]) is None);
                        }
                    }
                    return None;
                },
            };
            let a2 = match hex_value_char(v[pos + 4]) {
                Some(d) => d,
                None => {
                    proof {
                        assert(!spec_all_hex(h)) by {
                            assert(spec_hex_digit_value(h[2]) is None);
                        }
                    }
                    return None;
                },
            };
            let a3 = match hex_value_char(v[pos + 5]) {
                Some(d) => d,
                None => {
                    proof {
                        assert(!spec_all_hex(h)) by {
                            assert(spec_hex_digit_value(h[3]) is None);
                        }
                    }
                    return None;
                },
            };
            let value: u32 = (a0 as u32) * 4096 + (a1 as u32) * 256 + (a2 as u32) * 16 + (
            a3 as u32);
            proof {
                assert(spec_hex_value(Seq::<char>::empty()) == 0);
                assert(s.subrange(2, 3).drop_last() =~= Seq::<char>::empty());
                assert(s.subrange(2, 3).last() == h[0]);
                assert(spec_hex_value(s.subrange(2, 3)) == a0 as int);
                assert(s.subrange(2, 4).drop_last() =~= s.subrange(2, 3));
                assert(s.subrange(2, 4).last() == h[1]);
                assert(spec_hex_value(s.subrange(2, 4)) == (a0 as int) * 16 + (a1 as int));
                assert(s.subrange(2, 5).drop_last() =~= s.subrange(2, 4));
                assert(s.subrange(2, 5).last() == h[2]);
                assert(spec_hex_value(s.subrange(2, 5)) == ((a0 as int) * 16 + (a1 as int)) * 16
                    + (a2 as int));
                assert(h.drop_last() =~= s.subrange(2, 5));
                assert(h.last() == h[3]);
                assert(spec_hex_value(h) == value);
                assert(spec_all_hex(h));
            }
            if value < 32 {
                let ch = control_char(value as u8);
                proof {
                    assert(v@.skip(pos + 6) =~= s.subrange(6, s.len() as int));
                }
                match parse_str_body(v, pos + 6) {
                    Some((body, np)) => {
                        let mut body = body;
                        let ghost ob = body@;
                        body.insert(0, ch);
                        proof {
                            assert(v@.skip(pos + 6) =~= s.subrange(6, s.len() as int));
                            assert(body@ =~= seq![spec_control_char(spec_hex_value(h))] + ob);
                            assert(spec_parse_str_body(s) == Some((body@, v@.skip(np as int))));
                        }
                        return Some((body, np));
                    },
                    None => None,
                }
            } else {
                None
            }
        } else {
            let unescaped: Option<char> = if e == '"' {
                Some('"')
            } else if e == '\\' {
                Some('\\')
            } else if e == '/' {
                Some('/')
            } else if e == 'n' {
                Some('\n')
            } else if e == 't' {
                Some('\t')
            } else if e == 'r' {
                Some('\r')
            } else if e == 'b' {
                Some('\u{8}')
            } else if e == 'f' {
                Some('\u{c}')
            } else {
                None
            };
            match unescaped {
                Some(ch) => {
                    proof {
                        assert(v@.skip(pos + 2) =~= s.subrange(2, s.len() as int));
                    }
                    match parse_str_body(v, pos + 2) {
                        Some((body, np)) => {
                            let mut body = body;
                            let ghost ob = body@;
                            body.insert(0, ch);
                            proof {
                                assert(v@.skip(pos + 2) =~= s.subrange(2, s.len() as int));
                                assert(body@ =~= seq![ch] + ob);
                                assert(spec_parse_str_body(s) == Some((body@, v@.skip(np as int))));
                            }
                            return Some((body, np));
                        },
                        None => None,
                    }
                },
                None => None,
            }
        }
    } else {
        proof {
            assert(v@.skip(pos + 1) =~= s.subrange(1, s.len() as int));
        }
        match parse_str_body(v, pos + 1) {
            Some((body, np)) => {
                let mut body = body;
                let ghost ob = body@;
                body.insert(0, c);
                proof {
                    assert(v@.skip(pos + 1) =~= s.subrange(1, s.len() as int));
                    assert(body@ =~= seq![c] + ob);
                    assert(spec_parse_str_body(s) == Some((body@, v@.skip(np as int))));
                }
                return Some((body, np));
            },
            None => None,
        }
    }
}

/// Reads a quoted string, returning its unescaped text and the position
/// after the closing quote.
fn parse_string(v: &Vec<char>, pos: usize) -> (r: Option<(String, usize)>)
    requires
        pos <= v@.len(),
    ensures
        match r {
            Some(p) => spec_parse_string(v@.skip(pos as int)) == Some(
                (p.0@, v@.skip(p.1 as int)),
            ) && pos <= p.1 <= v@.len(),
            None => spec_parse_string(v@.skip(pos as int)) is None,
        },
{
    let ghost s = v@.skip(pos as int);
    if pos >= v.len() {
        return None;
    }
    if v[pos] != '"' {
        proof {
            assert(s[0] == v@[pos as int]);
        }
        return None;
    }
    proof {
        assert(s[0] == v@[pos as int]);
        assert(v@.skip(pos + 1) =~= s.subrange(1, s.len() as int));
    }
    match parse_str_body(v, pos + 1) {
        Some((body, np)) => Some((crate::chars::chars_string(&body), np)),
        None => None,
    }
}

/// Reads a boolean literal.
fn parse_bool(v: &Vec<char>, pos: usize) -> (r: Option<(bool, usize)>)
    requires
        pos <= v@.len(),
    ensures
        match r {
            Some(p) => spec_parse_bool(v@.skip(pos as int)) == Some(
                (p.0, v@.skip(p.1 as int)),
            ) && pos <= p.1 <= v@.len(),
            None => spec_parse_bool(v@.skip(pos as int)) is None,
        },
{
    let ghost s = v@.skip(pos as int);
    proof {
        reveal_strlit("true");
        reveal_strlit("false");
    }
    let n = v.len();
    if match_lit(v, pos, "true") {
        proof {
            reveal_strlit("true");
            assert(pos + 4 <= n);
            assert(s.subrange(0, 4) =~= v@.subrange(pos as int, pos + 4));
            assert(v@.skip(pos + 4) =~= s.subrange(4, s.len() as int));
        }
        Some((true, pos + 4))
    } else if match_lit(v, pos, "false") {
        proof {
            reveal_strlit("true");
            reveal_strlit("false");
            assert(pos + 5 <= n);
            assert(s.subrange(0, 5) =~= v@.subrange(pos as int, pos + 5));
            assert(v@.skip(pos + 5) =~= s.subrange(5, s.len() as int));
            assert(s.len() >= 4 && s.subrange(0, 4) == "true"@ ==> false) by {
                if s.len() >= 4 && s.subrange(0, 4) == "true"@ {
                    assert(s.subrange(0, 5)[0] == s.subrange(0, 4)[0]);
                    assert(s[0] == 't' && s[0] == 'f');
                }
            }
        }
        Some((false, pos + 5))
    } else {
        proof {
            reveal_strlit("true");
            reveal_strlit("false");
            if s.len() >= 4 && s.subrange(0, 4) == "true"@ {
                assert(v@.subrange(pos as int, pos + 4) =~= s.subrange(0, 4));
            }
            if s.len() >= 5 && s.subrange(0, 5) == "false"@ {
                assert(v@.subrange(pos as int, pos + 5) =~= s.subrange(0, 5));
            }
        }
        None
    }
}


/// Sixteen to a power.
pub open spec fn pow16(n: int) -> int
    decreases n,
{
    if n <= 0 {
        1
    } else {
        16 * pow16(n - 1)
    }
}

proof fn lemma_pow16_add(a: int, b: int)
    requires
        a >= 0,
        b >= 0,
    ensures
        pow16(a + b) == pow16(a) * pow16(b),
    decreases b,
{
    if b == 0 {
    } else {
        lemma_pow16_add(a, b - 1);
        assert(16 * (pow16(a) * pow16(b - 1)) == pow16(a) * (16 * pow16(b - 1)))
            by (nonlinear_arith);
    }
}

proof fn lemma_pow16_mono(a: int, b: int)
    requires
        0 <= a <= b,
    ensures
        pow16(a) <= pow16(b),
    decreases b - a,
{
    if a < b {
        lemma_pow16_mono(a, b - 1);
        assert(pow16(b - 1) >= 1) by {
            lemma_pow16_pos(b - 1);
        }
    }
}

proof fn lemma_pow16_pos(n: int)
    ensures
        pow16(n) >= 1,
    decreases n,
{
    if n > 0 {
        lemma_pow16_pos(n - 1);
    }
}

/// The value of a run of hex digits is below sixteen to its length.
proof fn lemma_hex_value_bound(s: Seq<char>)
    requires
        spec_all_hex(s),
    ensures
        0 <= spec_hex_value(s) < pow16(s.len() as int),
    decreases s.len(),
{
    if s.len() > 0 {
        assert(spec_all_hex(s.drop_last())) by {
            assert(forall|j: int|
                0 <= j < s.drop_last().len() ==> #[trigger] s.drop_last()[j] == s[j]);
        }
        lemma_hex_value_bound(s.drop_last());
    }
}

proof fn lemma_pow16_32()
    ensures
        pow16(6) == 0x100_0000,
        pow16(31) == 0x1000_0000_0000_0000_0000_0000_0000_0000,
        pow16(32) == 0x1_0000_0000_0000_0000_0000_0000_0000_0000,
{
    reveal_with_fuel(pow16, 8);
    assert(pow16(4) == 0x1_0000);
    assert(pow16(6) == 0x100_0000);
    assert(pow16(7) == 0x1000_0000);
    lemma_pow16_add(4, 4);
    assert(pow16(8) == 0x1_0000_0000);
    lemma_pow16_add(8, 8);
    assert(pow16(16) == 0x1_0000_0000_0000_0000);
    lemma_pow16_add(16, 16);
    assert(pow16(32) == 0x1_0000_0000_0000_0000_0000_0000_0000_0000);
    lemma_pow16_add(16, 15);
    lemma_pow16_add(8, 7);
    assert(pow16(15) == 0x1000_0000_0000_0000);
    assert(pow16(31) == 0x1000_0000_0000_0000_0000_0000_0000_0000);
}

proof fn lemma_digits_monotone(s: Seq<char>, a: int)
    requires
        a >= 0,
    ensures
        spec_parse_digits(s, a).0 >= a,
    decreases s.len(),
{
    if s.len() > 0 && spec_dec_digit_value(s[0]) is Some {
        lemma_digits_monotone(s.subrange(1, s.len() as int), a * 10 + spec_dec_digit_value(s[0])->0);
    }
}

/// Reads a 32-bit signed integer literal.
#[verifier::loop_isolation(false)]
fn parse_int(v: &Vec<char>, pos: usize) -> (r: Option<(i32, usize)>)
    requires
        pos <= v@.len(),
    ensures
        r matches Some(p) ==> spec_parse_int(v@.skip(pos as int)) == Some(
            (p.0 as int, v@.skip(p.1 as int)),
        ) && pos <= p.1 <= v@.len(),
        r is None ==> spec_parse_int(v@.skip(pos as int)) is None,
{
    let ghost s = v@.skip(pos as int);
    let negative = pos < v.len() && v[pos] == '-';
    proof {
        if pos < v@.len() {
            assert(s[0] == v@[pos as int]);
        }
    }
    let start = if negative {
        pos + 1
    } else {
        pos
    };
    let ghost t = v@.skip(start as int);
    proof {
        if negative {
            assert(t =~= s.subrange(1, s.len() as int));
        } else {
            assert(t =~= s);
        }
    }
    if start >= v.len() {
        return None;
    }
    proof {
        assert(t[0] == v@[start as int]);
    }
    match dec_value_char(v[start]) {
        Some(_) => {},
        None => {
            return None;
        },
    }
    let mut i = start;
    let mut acc: u64 = 0;
    let mut over = false;
    while i < v.len()
        invariant
            start <= i <= v@.len(),
            !over ==> acc <= 0x8000_0000 && spec_parse_digits(t, 0) == spec_parse_digits(
                v@.skip(i as int),
                acc as int,
            ),
            over ==> spec_parse_digits(t, 0).0 > 0x8000_0000,
        decreases v@.len() - i,
    {
        proof {
            assert(v@.skip(i as int)[0] == v@[i as int]);
        }
        let d = match dec_value_char(v[i]) {
            Some(d) => d,
            None => {
                break ;
            },
        };
        if !over {
            let next = acc * 10 + (d as u64);
            proof {
                assert(v@.skip(i as int).subrange(1, v@.skip(i as int).len() as int) =~= v@.skip(
                    i + 1,
                ));
            }
            if next > 0x8000_0000 {
                proof {
                    lemma_digits_monotone(v@.skip(i + 1), next as int);
                }
                over = true;
            } else {
                acc = next;
            }
        }
        i += 1;
    }
    proof {
        if i < v@.len() {
            assert(v@.skip(i as int)[0] == v@[i as int]);
        }
    }
    if over {
        return None;
    }
    proof {
        assert(spec_parse_digits(v@.skip(i as int), acc as int) == (acc as int, v@.skip(i as int)));
    }
    if negative {
        if acc > 0x8000_0000 {
            return None;
        }
        let value: i64 = -(acc as i64);
        Some((value as i32, i))
    } else {
        if acc > 0x7FFF_FFFF {
            return None;
        }
        Some((acc as i32, i))
    }
}


/// Whether a string equals a literal, character for character.
#[verifier::loop_isolation(false)]
fn str_eq_lit(s: &str, lit: &str) -> (r: bool)
    ensures
        r == (s@ == lit@),
{
    let n = s.unicode_len();
    let m = lit.unicode_len();
    if n != m {
        return false;
    }
    let mut i: usize = 0;
    while i < n
        invariant
            0 <= i <= n,
            n == s@.len(),
            n == lit@.len(),
            forall|j: int| 0 <= j < i ==> s@[j] == lit@[j],
        decreases n - i,
    {
        if s.get_char(i) != lit.get_char(i) {
            return false;
        }
        i += 1;
    }
    proof {
        assert(s@ =~= lit@);
    }
    true
}

/// Reads the color a serial color string stands for.
#[verifier::loop_isolation(false)]
fn parse_color_text(text: &str) -> (r: Option<TextColor>)
    ensures
        r == spec_parse_color(text@),
{
    if str_eq_lit(text, "black") {
        return Some(TextColor::Black);
    }
    if str_eq_lit(text, "dark_blue") {
        return Some(TextColor::DarkBlue);
    }
    if str_eq_lit(text, "dark_green") {
        return Some(TextColor::DarkGreen);
    }
    if str_eq_lit(text, "dark_aqua") {
        return Some(TextColor::DarkAqua);
    }
    if str_eq_lit(text, "dark_red") {
        return Some(TextColor::DarkRed);
    }
    if str_eq_lit(text, "dark_purple") {
        return Some(TextColor::DarkPurple);
    }
    if str_eq_lit(text, "gold") {
        return Some(TextColor::Gold);
    }
    if str_eq_lit(text, "gray") {
        return Some(TextColor::Gray);
    }
    if str_eq_lit(text, "dark_gray") {
        return Some(TextColor::DarkGray);
    }
    if str_eq_lit(text, "blue") {
        return Some(TextColor::Blue);
    }
    if str_eq_lit(text, "green") {
        return Some(TextColor::Green);
    }
    if str_eq_lit(text, "aqua") {
        return Some(TextColor::Aqua);
    }
    if str_eq_lit(text, "red") {
        return Some(TextColor::Red);
    }
    if str_eq_lit(text, "light_purple") {
        return Some(TextColor::LightPurple);
    }
    if str_eq_lit(text, "yellow") {
        return Some(TextColor::Yellow);
    }
    if str_eq_lit(text, "white") {
        return Some(TextColor::White);
    }
    let chars = crate::chars::str_chars(text);
    let n = chars.len();
    if n < 2 || n > 7 {
        return None;
    }
    if chars[0] != '#' {
        return None;
    }
    let ghost digits = text@.subrange(1, text@.len() as int);
    let mut acc: u32 = 0;
    let mut i: usize = 1;
    proof {
        lemma_pow16_32();
        assert(digits.take(0) =~= Seq::<char>::empty());
    }
    while i < n
        invariant
            1 <= i <= n,
            n == text@.len(),
            n == chars@.len(),
            chars@ == text@,
            2 <= n <= 7,
            digits == text@.subrange(1, text@.len() as int),
            acc == spec_hex_value(digits.take(i - 1)),
            spec_all_hex(digits.take(i - 1)),
            acc < pow16(i - 1),
            pow16(6) == 0x100_0000,
        decreases n - i,
    {
        let d = match hex_value_char(chars[i]) {
            Some(d) => d,
            None => {
                proof {
                    assert(digits[i - 1] == text@[i as int]);
                    assert(!spec_all_hex(digits)) by {
                        assert(spec_hex_digit_value(digits[i - 1]) is None);
                    }
                }
                return None;
            },
        };
        proof {
            assert(digits[i - 1] == text@[i as int]);
            assert(digits.take(i as int).drop_last() =~= digits.take(i - 1));
            assert(digits.take(i as int).last() == digits[i - 1]);
            lemma_pow16_mono(i as int, 6);
            assert(pow16(i as int) == 16 * pow16(i - 1));
        }
        acc = acc * 16 + (d as u32);
        i += 1;
    }
    proof {
        assert(digits.take(n - 1) =~= digits);
    }
    Some(TextColor::Hex(acc))
}

/// Appends the characters of a range of a vector.
#[verifier::loop_isolation(false)]
fn push_range(dst: &mut Vec<char>, src: &Vec<char>, a: usize, b: usize)
    requires
        a <= b <= src@.len(),
    ensures
        final(dst)@ == old(dst)@ + src@.subrange(a as int, b as int),
{
    let mut i = a;
    proof {
        assert(old(dst)@ + src@.subrange(a as int, a as int) =~= old(dst)@);
    }
    while i < b
        invariant
            a <= i <= b,
            b <= src@.len(),
            dst@ == old(dst)@ + src@.subrange(a as int, i as int),
        decreases b - i,
    {
        dst.push(src[i]);
        proof {
            assert(src@.subrange(a as int, i + 1) =~= src@.subrange(a as int, i as int).push(
                src@[i as int],
            ));
        }
        i += 1;
    }
}

/// Reads the 128-bit identifier a serial identifier string stands for.
#[verifier::loop_isolation(false)]
#[verifier::rlimit(100)]
fn parse_uuid_text(text: &str) -> (r: Option<u128>)
    ensures
        match r {
            Some(id) => spec_parse_uuid(text@) == Some(id as int),
            None => spec_parse_uuid(text@) is None,
        },
{
    let chars = crate::chars::str_chars(text);
    if chars.len() != 36 {
        return None;
    }
    if chars[8] != '-' || chars[13] != '-' || chars[18] != '-' || chars[23] != '-' {
        return None;
    }
    let mut hvec: Vec<char> = Vec::new();
    push_range(&mut hvec, &chars, 0, 8);
    push_range(&mut hvec, &chars, 9, 13);
    push_range(&mut hvec, &chars, 14, 18);
    push_range(&mut hvec, &chars, 19, 23);
    push_range(&mut hvec, &chars, 24, 36);
    let ghost h = text@.subrange(0, 8) + text@.subrange(9, 13) + text@.subrange(14, 18)
        + text@.subrange(19, 23) + text@.subrange(24, 36);
    proof {
        assert(hvec@ =~= h);
        lemma_pow16_32();
    }
    let n = hvec.len();
    let mut acc: u128 = 0;
    let mut i: usize = 0;
    proof {
        assert(h.take(0) =~= Seq::<char>::empty());
    }
    while i < n
        invariant
            0 <= i <= n,
            n == 32,
            hvec@ == h,
            h.len() == 32,
            acc == spec_hex_value(h.take(i as int)),
            spec_all_hex(h.take(i as int)),
            acc < pow16(i as int),
            pow16(31) == 0x1000_0000_0000_0000_0000_0000_0000_0000,
            pow16(32) == 0x1_0000_0000_0000_0000_0000_0000_0000_0000,
        decreases n - i,
    {
        let d = match hex_value_char(hvec[i]) {
            Some(d) => d,
            None => {
                proof {
                    assert(!spec_all_hex(h)) by {
                        assert(spec_hex_digit_value(h[i as int]) is None);
                    }
                }
                return None;
            },
        };
        proof {
            assert(h.take(i + 1).drop_last() =~= h.take(i as int));
            assert(h.take(i + 1).last() == h[i as int]);
            lemma_pow16_mono(i + 1, 32);
            assert(pow16(i + 1) == 16 * pow16(i as int));
        }
        acc = acc * 16 + (d as u128);
        i += 1;
    }
    proof {
        assert(h.take(32) =~= h);
    }
    Some(acc)
}

/// Reads a `"key":"string"` pair with a fixed expected key.
fn parse_named_string(v: &Vec<char>, pos: usize, key: &str) -> (r: Option<(String, usize)>)
    requires
        pos <= v@.len(),
    ensures
        r matches Some(p) ==> spec_parse_named_string(v@.skip(pos as int), key@) == Some(
            (p.0@, v@.skip(p.1 as int)),
        ) && pos <= p.1 <= v@.len(),
        r is None ==> spec_parse_named_string(v@.skip(pos as int), key@) is None,
{
    let ghost s = v@.skip(pos as int);
    match parse_string(v, pos) {
        Some((k, p1)) => {
            if !str_eq_lit(k.as_str(), key) {
                return None;
            }
            let ghost r1 = v@.skip(p1 as int);
            if p1 >= v.len() {
                return None;
            }
            proof {
                assert(r1[0] == v@[p1 as int]);
            }
            if v[p1] != ':' {
                return None;
            }
            proof {
                assert(v@.skip(p1 + 1) =~= r1.subrange(1, r1.len() as int));
            }
            parse_string(v, p1 + 1)
        },
        None => None,
    }
}


/// Reads a score contents object.
#[verifier::rlimit(100)]
#[verifier::spinoff_prover]
fn parse_score(v: &Vec<char>, pos: usize) -> (r: Option<((String, String, String), usize)>)
    requires
        pos <= v@.len(),
    ensures
        r matches Some(p) ==> spec_parse_score(v@.skip(pos as int)) == Some(
            ((p.0.0@, p.0.1@, p.0.2@), v@.skip(p.1 as int)),
        ) && pos <= p.1 <= v@.len(),
        r is None ==> spec_parse_score(v@.skip(pos as int)) is None,
{
    reveal(spec_parse_score);
    let ghost s = v@.skip(pos as int);
    if pos >= v.len() {
        return None;
    }
    proof {
        assert(s[0] == v@[pos as int]);
    }
    if v[pos] != '{' {
        return None;
    }
    proof {
        assert(v@.skip(pos + 1) =~= s.subrange(1, s.len() as int));
    }
    let (name, p1) = match parse_named_string(v, pos + 1, "name") {
        Some(p) => p,
        None => {
            return None;
        },
    };
    let ghost r1 = v@.skip(p1 as int);
    if p1 >= v.len() {
        return None;
    }
    proof {
        assert(r1[0] == v@[p1 as int]);
    }
    if v[p1] != ',' {
        return None;
    }
    proof {
        assert(v@.skip(p1 + 1) =~= r1.subrange(1, r1.len() as int));
    }
    let (objective, p2) = match parse_named_string(v, p1 + 1, "objective") {
        Some(p) => p,
        None => {
            return None;
        },
    };
    let ghost r2 = v@.skip(p2 as int);
    if p2 >= v.len() {
        return None;
    }
    proof {
        assert(r2[0] == v@[p2 as int]);
    }
    if v[p2] == '}' {
        let value = String::new();
        return Some(((name, objective, value), p2 + 1));
    }
    if v[p2] != ',' {
        return None;
    }
    proof {
        assert(v@.skip(p2 + 1) =~= r2.subrange(1, r2.len() as int));
    }
    let (value, p3) = match parse_named_string(v, p2 + 1, "value") {
        Some(p) => p,
        None => {
            return None;
        },
    };
    let ghost r3 = v@.skip(p3 as int);
    if p3 >= v.len() {
        return None;
    }
    proof {
        assert(r3[0] == v@[p3 as int]);
    }
    if v[p3] != '}' {
        return None;
    }
    Some(((name, objective, value), p3 + 1))
}

/// Reads a click action object.
#[verifier::rlimit(100)]
#[verifier::spinoff_prover]
fn parse_click(v: &Vec<char>, pos: usize) -> (r: Option<(crate::event::ClickEvent, usize)>)
    requires
        pos <= v@.len(),
    ensures
        r matches Some(p) ==> spec_parse_click(v@.skip(pos as int)) == Some(
            (crate::event::spec_click_event(p.0), v@.skip(p.1 as int)),
        ) && pos <= p.1 <= v@.len(),
        r is None ==> spec_parse_click(v@.skip(pos as int)) is None,
{
    reveal(spec_parse_click);
    let ghost s = v@.skip(pos as int);
    if pos >= v.len() {
        return None;
    }
    proof {
        assert(s[0] == v@[pos as int]);
    }
    if v[pos] != '{' {
        return None;
    }
    proof {
        assert(v@.skip(pos + 1) =~= s.subrange(1, s.len() as int));
    }
    let (k1, p1) = match parse_string(v, pos + 1) {
        Some(p) => p,
        None => {
            return None;
        },
    };
    if !str_eq_lit(k1.as_str(), "action") {
        return None;
    }
    let ghost r1 = v@.skip(p1 as int);
    if p1 >= v.len() {
        return None;
    }
    proof {
        assert(r1[0] == v@[p1 as int]);
    }
    if v[p1] != ':' {
        return None;
    }
    proof {
        assert(v@.skip(p1 + 1) =~= r1.subrange(1, r1.len() as int));
    }
    let (action, p2) = match parse_string(v, p1 + 1) {
        Some(p) => p,
        None => {
            return None;
        },
    };
    let ghost r2 = v@.skip(p2 as int);
    if p2 >= v.len() {
        return None;
    }
    proof {
        assert(r2[0] == v@[p2 as int]);
    }
    if v[p2] != ',' {
        return None;
    }
    proof {
        assert(v@.skip(p2 + 1) =~= r2.subrange(1, r2.len() as int));
    }
    let (k2, p3) = match parse_string(v, p2 + 1) {
        Some(p) => p,
        None => {
            return None;
        },
    };
    if !str_eq_lit(k2.as_str(), "value") {
        return None;
    }
    let ghost r3 = v@.skip(p3 as int);
    if p3 >= v.len() {
        return None;
    }
    proof {
        assert(r3[0] == v@[p3 as int]);
    }
    if v[p3] != ':' {
        return None;
    }
    proof {
        assert(v@.skip(p3 + 1) =~= r3.subrange(1, r3.len() as int));
    }
    let p4 = p3 + 1;
    if str_eq_lit(action.as_str(), "change_page") {
        let (page, p5) = match parse_int(v, p4) {
            Some(p) => p,
            None => {
                return None;
            },
        };
        let ghost r5 = v@.skip(p5 as int);
        if p5 >= v.len() {
            return None;
        }
        proof {
            assert(r5[0] == v@[p5 as int]);
        }
        if v[p5] != '}' {
            return None;
        }
        return Some((crate::event::ClickEvent::ChangePage(page), p5 + 1));
    }
    let (value, p5) = match parse_string(v, p4) {
        Some(p) => p,
        None => {
            return None;
        },
    };
    let ghost r5 = v@.skip(p5 as int);
    if p5 >= v.len() {
        return None;
    }
    proof {
        assert(r5[0] == v@[p5 as int]);
    }
    if v[p5] != '}' {
        return None;
    }
    if str_eq_lit(action.as_str(), "run_command") {
        return Some((crate::event::ClickEvent::RunCommand(value), p5 + 1));
    }
    if str_eq_lit(action.as_str(), "suggest_command") {
        return Some((crate::event::ClickEvent::SuggestCommand(value), p5 + 1));
    }
    if str_eq_lit(action.as_str(), "copy_to_clipboard") {
        return Some((crate::event::ClickEvent::CopyToClipboard(value), p5 + 1));
    }
    None
}

/// Reads an item hover contents object.
#[verifier::rlimit(100)]
#[verifier::spinoff_prover]
fn parse_item(v: &Vec<char>, pos: usize) -> (r: Option<(crate::event::ItemHover, usize)>)
    requires
        pos <= v@.len(),
    ensures
        r matches Some(p) ==> spec_parse_item(v@.skip(pos as int)) == Some(
            (crate::event::spec_item_hover(p.0), v@.skip(p.1 as int)),
        ) && pos <= p.1 <= v@.len(),
        r is None ==> spec_parse_item(v@.skip(pos as int)) is None,
{
    reveal(spec_parse_item);
    let ghost s = v@.skip(pos as int);
    if pos >= v.len() {
        return None;
    }
    proof {
        assert(s[0] == v@[pos as int]);
    }
    if v[pos] != '{' {
        return None;
    }
    proof {
        assert(v@.skip(pos + 1) =~= s.subrange(1, s.len() as int));
    }
    let (id_text, p1) = match parse_named_string(v, pos + 1, "id") {
        Some(p) => p,
        None => {
            return None;
        },
    };
    let id = crate::key::Key::parse(id_text.as_str());
    let ghost r1 = v@.skip(p1 as int);
    if p1 >= v.len() {
        return None;
    }
    proof {
        assert(r1[0] == v@[p1 as int]);
    }
    if v[p1] == '}' {
        return Some((crate::event::ItemHover { id, count: 1, tag: None }, p1 + 1));
    }
    if v[p1] != ',' {
        return None;
    }
    proof {
        assert(v@.skip(p1 + 1) =~= r1.subrange(1, r1.len() as int));
    }
    let (k2, p2) = match parse_string(v, p1 + 1) {
        Some(p) => p,
        None => {
            return None;
        },
    };
    if !str_eq_lit(k2.as_str(), "count") {
        return None;
    }
    let ghost r2 = v@.skip(p2 as int);
    if p2 >= v.len() {
        return None;
    }
    proof {
        assert(r2[0] == v@[p2 as int]);
    }
    if v[p2] != ':' {
        return None;
    }
    proof {
        assert(v@.skip(p2 + 1) =~= r2.subrange(1, r2.len() as int));
    }
    let (count, p3) = match parse_int(v, p2 + 1) {
        Some(p) => p,
        None => {
            return None;
        },
    };
    let ghost r3 = v@.skip(p3 as int);
    if p3 >= v.len() {
        return None;
    }
    proof {
        assert(r3[0] == v@[p3 as int]);
    }
    if v[p3] == '}' {
        return Some((crate::event::ItemHover { id, count, tag: None }, p3 + 1));
    }
    if v[p3] != ',' {
        return None;
    }
    proof {
        assert(v@.skip(p3 + 1) =~= r3.subrange(1, r3.len() as int));
    }
    let (tag, p4) = match parse_named_string(v, p3 + 1, "tag") {
        Some(p) => p,
        None => {
            return None;
        },
    };
    let ghost r4 = v@.skip(p4 as int);
    if p4 >= v.len() {
        return None;
    }
    proof {
        assert(r4[0] == v@[p4 as int]);
    }
    if v[p4] != '}' {
        return None;
    }
    Some((crate::event::ItemHover { id, count, tag: Some(tag) }, p4 + 1))
}


/// The fields collected while reading a component object.
struct FieldAcc {
    /// The `bold` field, if seen.
    bold: Option<bool>,
    /// The `italic` field, if seen.
    italic: Option<bool>,
    /// The `underlined` field, if seen.
    underlined: Option<bool>,
    /// The `strikethrough` field, if seen.
    strikethrough: Option<bool>,
    /// The `obfuscated` field, if seen.
    obfuscated: Option<bool>,
    /// The `font` field, if seen.
    font: Option<String>,
    /// The `color` field, if seen.
    color: Option<TextColor>,
    /// The `insertion` field, if seen.
    insertion: Option<String>,
    /// The `clickEvent` field, if seen.
    click: Option<crate::event::ClickEvent>,
    /// The `hoverEvent` field, if seen.
    hover: Option<crate::event::HoverEvent>,
    /// The `text` field, if seen.
    text: Option<String>,
    /// The `keybind` field, if seen.
    keybind: Option<String>,
    /// The `score` fields, if seen.
    score: Option<(String, String, String)>,
    /// The `translate` field, if seen.
    translate: Option<String>,
    /// The `with` field, if seen.
    with_args: Option<Vec<Component>>,
    /// The `extra` field, if seen.
    extra: Option<Vec<Component>>,
}

/// The model of a field accumulator.
spec fn acc_view(a: FieldAcc) -> FieldAccView {
    FieldAccView {
        bold: a.bold,
        italic: a.italic,
        underlined: a.underlined,
        strikethrough: a.strikethrough,
        obfuscated: a.obfuscated,
        font: match a.font {
            Some(f) => Some(f@),
            None => None,
        },
        color: a.color,
        insertion: match a.insertion {
            Some(t) => Some(t@),
            None => None,
        },
        click: match a.click {
            Some(e) => Some(crate::event::spec_click_event(e)),
            None => None,
        },
        hover: match a.hover {
            Some(e) => Some(crate::event::spec_hover_event(e)),
            None => None,
        },
        text: match a.text {
            Some(t) => Some(t@),
            None => None,
        },
        keybind: match a.keybind {
            Some(t) => Some(t@),
            None => None,
        },
        score: match a.score {
            Some(sc) => Some((sc.0@, sc.1@, sc.2@)),
            None => None,
        },
        translate: match a.translate {
            Some(t) => Some(t@),
            None => None,
        },
        with_args: match a.with_args {
            Some(w) => Some(crate::component::spec_components(w@)),
            None => None,
        },
        extra: match a.extra {
            Some(e) => Some(crate::component::spec_components(e@)),
            None => None,
        },
    }
}

/// An accumulator with no field seen yet.
fn new_acc() -> (r: FieldAcc)
    ensures
        acc_view(r) == empty_acc(),
{
    let r = FieldAcc {
        bold: None,
        italic: None,
        underlined: None,
        strikethrough: None,
        obfuscated: None,
        font: None,
        color: None,
        insertion: None,
        click: None,
        hover: None,
        text: None,
        keybind: None,
        score: None,
        translate: None,
        with_args: None,
        extra: None,
    };
    proof {
        assert(acc_view(r) =~= empty_acc());
    }
    r
}

/// Builds the component the collected fields stand for.
#[verifier::rlimit(100)]
#[verifier::spinoff_prover]
fn assemble(acc: FieldAcc) -> (r: Option<Component>)
    ensures
        match r {
            Some(c) => spec_assemble(acc_view(acc)) == Some(spec_component(c)),
            None => spec_assemble(acc_view(acc)) is None,
        },
{
    let FieldAcc {
        bold,
        italic,
        underlined,
        strikethrough,
        obfuscated,
        font,
        color,
        insertion,
        click,
        hover,
        text,
        keybind,
        score,
        translate,
        with_args,
        extra,
    } = acc;
    let mut content_count: u32 = 0;
    if text.is_some() {
        content_count = content_count + 1;
    }
    if keybind.is_some() {
        content_count = content_count + 1;
    }
    if score.is_some() {
        content_count = content_count + 1;
    }
    if translate.is_some() {
        content_count = content_count + 1;
    }
    if content_count > 1 {
        return None;
    }
    if with_args.is_some() && translate.is_none() {
        return None;
    }
    let content = if let Some(t) = text {
        crate::content::Content::Text(t)
    } else if let Some(k) = keybind {
        crate::content::Content::Keybind(k)
    } else if let Some(sc) = score {
        crate::content::Content::Score { name: sc.0, objective: sc.1, value: sc.2 }
    } else if let Some(key) = translate {
        crate::content::Content::Translation {
            key,
            with: match with_args {
                Some(w) => w,
                None => Vec::new(),
            },
        }
    } else {
        crate::content::Content::Empty
    };
    let style = Style {
        bold,
        italic,
        underlined,
        strikethrough,
        obfuscated,
        font,
        color,
        insertion,
        click_event: click,
        hover_event: hover,
    };
    let c = Component {
        content,
        style,
        extra: match extra {
            Some(e) => e,
            None => Vec::new(),
        },
    };
    proof {
        broadcast use crate::component::lemma_spec_components;

        assert(spec_assemble(acc_view(acc)) is Some);
        assert(spec_component(c).style =~~= spec_assemble(acc_view(acc))->0.style);
        assert(spec_component(c).extra =~~= spec_assemble(acc_view(acc))->0.extra);
        let av = acc_view(acc);
        assert(crate::component::spec_components(Seq::<Component>::empty()) =~= Seq::<
            ComponentView,
        >::empty());
        if av.text is Some {
            assert(spec_component(c).content =~~= spec_assemble(av)->0.content);
        } else if av.keybind is Some {
            assert(spec_component(c).content =~~= spec_assemble(av)->0.content);
        } else if av.score is Some {
            assert(spec_component(c).content =~~= spec_assemble(av)->0.content);
        } else if av.translate is Some {
            assert(spec_component(c).content =~~= spec_assemble(av)->0.content);
        } else {
            assert(spec_component(c).content =~~= spec_assemble(av)->0.content);
        }
        assert(spec_component(c).content =~~= spec_assemble(acc_view(acc))->0.content);
        assert(spec_component(c) =~~= spec_assemble(acc_view(acc))->0);
    }
    Some(c)
}


/// Reads one field's payload, dispatched on its key, into the accumulator.
#[verifier::rlimit(100)]
#[verifier::spinoff_prover]
fn parse_field_value(v: &Vec<char>, pos: usize, key: &str, acc: FieldAcc) -> (r: Option<
    (FieldAcc, usize),
>)
    requires
        pos <= v@.len(),
    ensures
        r matches Some(p) ==> spec_parse_field_value(v@.skip(pos as int), key@, acc_view(acc))
            == Some((acc_view(p.0), v@.skip(p.1 as int))) && pos <= p.1 <= v@.len(),
        r is None ==> spec_parse_field_value(v@.skip(pos as int), key@, acc_view(acc)) is None,
    decreases v@.len() - pos, 6int,
{
    reveal(spec_parse_field_value);
    let ghost av = acc_view(acc);
    if str_eq_lit(key, "bold") {
        match parse_bool(v, pos) {
            Some((b, np)) => {
                if acc.bold.is_some() {
                    return None;
                }
                let acc2 = FieldAcc { bold: Some(b), ..acc };
                proof {
                    assert(acc_view(acc2) =~= FieldAccView { bold: Some(b), ..av });
                }
                Some((acc2, np))
            },
            None => None,
        }
    } else if str_eq_lit(key, "italic") {
        match parse_bool(v, pos) {
            Some((b, np)) => {
                if acc.italic.is_some() {
                    return None;
                }
                let acc2 = FieldAcc { italic: Some(b), ..acc };
                proof {
                    assert(acc_view(acc2) =~= FieldAccView { italic: Some(b), ..av });
                }
                Some((acc2, np))
            },
            None => None,
        }
    } else if str_eq_lit(key, "underlined") {
        match parse_bool(v, pos) {
            Some((b, np)) => {
                if acc.underlined.is_some() {
                    return None;
                }
                let acc2 = FieldAcc { underlined: Some(b), ..acc };
                proof {
                    assert(acc_view(acc2) =~= FieldAccView { underlined: Some(b), ..av });
                }
                Some((acc2, np))
            },
            None => None,
        }
    } else if str_eq_lit(key, "strikethrough") {
        match parse_bool(v, pos) {
            Some((b, np)) => {
                if acc.strikethrough.is_some() {
                    return None;
                }
                let acc2 = FieldAcc { strikethrough: Some(b), ..acc };
                proof {
                    assert(acc_view(acc2) =~= FieldAccView { strikethrough: Some(b), ..av });
                }
                Some((acc2, np))
            },
            None => None,
        }
    } else if str_eq_lit(key, "obfuscated") {
        match parse_bool(v, pos) {
            Some((b, np)) => {
                if acc.obfuscated.is_some() {
                    return None;
                }
                let acc2 = FieldAcc { obfuscated: Some(b), ..acc };
                proof {
                    assert(acc_view(acc2) =~= FieldAccView { obfuscated: Some(b), ..av });
                }
                Some((acc2, np))
            },
            None => None,
        }
    } else if str_eq_lit(key, "font") {
        match parse_string(v, pos) {
            Some((t, np)) => {
                if acc.font.is_some() {
                    return None;
                }
                let ghost tv = t@;
                let acc2 = FieldAcc { font: Some(t), ..acc };
                proof {
                    assert(acc_view(acc2) =~= FieldAccView { font: Some(tv), ..av });
                }
                Some((acc2, np))
            },
            None => None,
        }
    } else if str_eq_lit(key, "color") {
        match parse_string(v, pos) {
            Some((t, np)) => {
                match parse_color_text(t.as_str()) {
                    Some(col) => {
                        if acc.color.is_some() {
                            return None;
                        }
                        let acc2 = FieldAcc { color: Some(col), ..acc };
                        proof {
                            assert(acc_view(acc2) =~= FieldAccView { color: Some(col), ..av });
                        }
                        Some((acc2, np))
                    },
                    None => None,
                }
            },
            None => None,
        }
    } else if str_eq_lit(key, "insertion") {
        match parse_string(v, pos) {
            Some((t, np)) => {
                if acc.insertion.is_some() {
                    return None;
                }
                let ghost tv = t@;
                let acc2 = FieldAcc { insertion: Some(t), ..acc };
                proof {
                    assert(acc_view(acc2) =~= FieldAccView { insertion: Some(tv), ..av });
                }
                Some((acc2, np))
            },
            None => None,
        }
    } else if str_eq_lit(key, "clickEvent") {
        match parse_click(v, pos) {
            Some((e, np)) => {
                if acc.click.is_some() {
                    return None;
                }
                let ghost ev = crate::event::spec_click_event(e);
                let acc2 = FieldAcc { click: Some(e), ..acc };
                proof {
                    assert(acc_view(acc2) =~= FieldAccView { click: Some(ev), ..av });
                }
                Some((acc2, np))
            },
            None => None,
        }
    } else if str_eq_lit(key, "hoverEvent") {
        match parse_hover(v, pos) {
            Some((e, np)) => {
                if acc.hover.is_some() {
                    return None;
                }
                let ghost ev = crate::event::spec_hover_event(e);
                let acc2 = FieldAcc { hover: Some(e), ..acc };
                proof {
                    assert(acc_view(acc2) =~= FieldAccView { hover: Some(ev), ..av });
                }
                Some((acc2, np))
            },
            None => None,
        }
    } else if str_eq_lit(key, "text") {
        match parse_string(v, pos) {
            Some((t, np)) => {
                if acc.text.is_some() {
                    return None;
                }
                let ghost tv = t@;
                let acc2 = FieldAcc { text: Some(t), ..acc };
                proof {
                    assert(acc_view(acc2) =~= FieldAccView { text: Some(tv), ..av });
                }
                Some((acc2, np))
            },
            None => None,
        }
    } else if str_eq_lit(key, "keybind") {
        match parse_string(v, pos) {
            Some((t, np)) => {
                if acc.keybind.is_some() {
                    return None;
                }
                let ghost tv = t@;
                let acc2 = FieldAcc { keybind: Some(t), ..acc };
                proof {
                    assert(acc_view(acc2) =~= FieldAccView { keybind: Some(tv), ..av });
                }
                Some((acc2, np))
            },
            None => None,
        }
    } else if str_eq_lit(key, "score") {
        match parse_score(v, pos) {
            Some((sc, np)) => {
                if acc.score.is_some() {
                    return None;
                }
                let ghost sv = (sc.0@, sc.1@, sc.2@);
                let acc2 = FieldAcc { score: Some(sc), ..acc };
                proof {
                    assert(acc_view(acc2) =~= FieldAccView { score: Some(sv), ..av });
                }
                Some((acc2, np))
            },
            None => None,
        }
    } else if str_eq_lit(key, "translate") {
        match parse_string(v, pos) {
            Some((t, np)) => {
                if acc.translate.is_some() {
                    return None;
                }
                let ghost tv = t@;
                let acc2 = FieldAcc { translate: Some(t), ..acc };
                proof {
                    assert(acc_view(acc2) =~= FieldAccView { translate: Some(tv), ..av });
                }
                Some((acc2, np))
            },
            None => None,
        }
    } else if str_eq_lit(key, "with") {
        match parse_array(v, pos) {
            Some((items, np)) => {
                if acc.with_args.is_some() {
                    return None;
                }
                let ghost iv = crate::component::spec_components(items@);
                let acc2 = FieldAcc { with_args: Some(items), ..acc };
                proof {
                    assert(acc_view(acc2) =~= FieldAccView { with_args: Some(iv), ..av });
                }
                Some((acc2, np))
            },
            None => None,
        }
    } else if str_eq_lit(key, "extra") {
        match parse_array(v, pos) {
            Some((items, np)) => {
                if acc.extra.is_some() {
                    return None;
                }
                let ghost iv = crate::component::spec_components(items@);
                let acc2 = FieldAcc { extra: Some(items), ..acc };
                proof {
                    assert(acc_view(acc2) =~= FieldAccView { extra: Some(iv), ..av });
                }
                Some((acc2, np))
            },
            None => None,
        }
    } else {
        None
    }
}

/// Reads comma-separated fields up to the closing brace.
#[verifier::spinoff_prover]
fn parse_fields(v: &Vec<char>, pos: usize, acc: FieldAcc) -> (r: Option<(FieldAcc, usize)>)
    requires
        pos <= v@.len(),
    ensures
        r matches Some(p) ==> spec_parse_fields(v@.skip(pos as int), acc_view(acc)) == Some(
            (acc_view(p.0), v@.skip(p.1 as int)),
        ) && pos <= p.1 <= v@.len(),
        r is None ==> spec_parse_fields(v@.skip(pos as int), acc_view(acc)) is None,
    decreases v@.len() - pos, 5int,
{
    let ghost s = v@.skip(pos as int);
    let ghost av = acc_view(acc);
    let (key, p1) = match parse_string(v, pos) {
        Some(p) => p,
        None => {
            return None;
        },
    };
    let ghost r1 = v@.skip(p1 as int);
    if p1 >= v.len() {
        return None;
    }
    proof {
        assert(r1[0] == v@[p1 as int]);
    }
    if v[p1] != ':' {
        return None;
    }
    if p1 <= pos {
        return None;
    }
    proof {
        assert(v@.skip(p1 + 1) =~= r1.subrange(1, r1.len() as int));
    }
    let (acc2, p3) = match parse_field_value(v, p1 + 1, key.as_str(), acc) {
        Some(p) => p,
        None => {
            proof {
                assert(spec_parse_string(s) == Some((key@, r1)));
                assert(spec_parse_field_value(v@.skip(p1 + 1), key@, av) is None);
                assert(spec_parse_field_value(
                    r1.subrange(1, r1.len() as int),
                    key@,
                    av,
                ) is None);
                reveal_with_fuel(spec_parse_fields, 2);
                assert(spec_parse_fields(s, av) is None);
            }
            return None;
        },
    };
    let ghost r3 = v@.skip(p3 as int);
    if p3 <= p1 + 1 {
        return None;
    }
    if p3 >= v.len() {
        return None;
    }
    proof {
        assert(r3[0] == v@[p3 as int]);
    }
    if v[p3] == ',' {
        proof {
            assert(v@.skip(p3 + 1) =~= r3.subrange(1, r3.len() as int));
        }
        parse_fields(v, p3 + 1, acc2)
    } else if v[p3] == '}' {
        proof {
            assert(v@.skip(p3 + 1) =~= r3.subrange(1, r3.len() as int));
        }
        Some((acc2, p3 + 1))
    } else {
        None
    }
}

/// Reads a component array.
fn parse_array(v: &Vec<char>, pos: usize) -> (r: Option<(Vec<Component>, usize)>)
    requires
        pos <= v@.len(),
    ensures
        r matches Some(p) ==> spec_parse_array(v@.skip(pos as int)) == Some(
            (crate::component::spec_components(p.0@), v@.skip(p.1 as int)),
        ) && pos <= p.1 <= v@.len(),
        r is None ==> spec_parse_array(v@.skip(pos as int)) is None,
    decreases v@.len() - pos, 3int,
{
    let ghost s = v@.skip(pos as int);
    if pos >= v.len() {
        return None;
    }
    proof {
        assert(s[0] == v@[pos as int]);
    }
    if v[pos] != '[' {
        return None;
    }
    if pos + 1 < v.len() && v[pos + 1] == ']' {
        let out: Vec<Component> = Vec::new();
        proof {
            broadcast use crate::component::lemma_spec_components;

            assert(s[1] == v@[pos + 1]);
            assert(v@.skip(pos + 2) =~= s.subrange(2, s.len() as int));
            assert(crate::component::spec_components(out@) =~= Seq::<ComponentView>::empty());
        }
        return Some((out, pos + 2));
    }
    proof {
        if pos + 1 < v@.len() {
            assert(s[1] == v@[pos + 1]);
        }
        assert(v@.skip(pos + 1) =~= s.subrange(1, s.len() as int));
    }
    parse_elements(v, pos + 1)
}

/// Reads one or more components separated by commas, up to the closing
/// bracket.
fn parse_elements(v: &Vec<char>, pos: usize) -> (r: Option<(Vec<Component>, usize)>)
    requires
        pos <= v@.len(),
    ensures
        r matches Some(p) ==> spec_parse_elements(v@.skip(pos as int)) == Some(
            (crate::component::spec_components(p.0@), v@.skip(p.1 as int)),
        ) && pos <= p.1 <= v@.len(),
        r is None ==> spec_parse_elements(v@.skip(pos as int)) is None,
    decreases v@.len() - pos, 8int,
{
    let ghost s = v@.skip(pos as int);
    let (c, p1) = match parse_component(v, pos) {
        Some(p) => p,
        None => {
            return None;
        },
    };
    let ghost r1 = v@.skip(p1 as int);
    if p1 <= pos {
        proof {
                    assert(r1.len() >= s.len());
            assert(spec_parse_elements(s) is None);
        }
        return None;
    }
    if p1 >= v.len() {
        proof {
            assert(r1.len() == 0);
            assert(spec_parse_component(s) == Some((spec_component(c), r1)));
            assert(spec_parse_elements(s) is None);
        }
        return None;
    }
    proof {
        assert(r1[0] == v@[p1 as int]);
    }
    if v[p1] == ',' {
        proof {
            assert(v@.skip(p1 + 1) =~= r1.subrange(1, r1.len() as int));
        }
        match parse_elements(v, p1 + 1) {
            Some((items, np)) => {
                let mut items = items;
                let ghost iv = items@;
                items.insert(0, c);
                proof {
                    broadcast use crate::component::lemma_spec_components;

                    assert(items@ =~= seq![items@[0]] + iv);
                    assert(crate::component::spec_components(items@) =~= seq![spec_component(c)]
                        + crate::component::spec_components(iv));
                }
                Some((items, np))
            },
            None => None,
        }
    } else if v[p1] == ']' {
        let mut items: Vec<Component> = Vec::new();
        items.push(c);
        proof {
            broadcast use crate::component::lemma_spec_components;

            assert(v@.skip(p1 + 1) =~= r1.subrange(1, r1.len() as int));
            assert(crate::component::spec_components(items@) =~= seq![spec_component(c)]);
        }
        Some((items, p1 + 1))
    } else {
        None
    }
}

/// Reads a hover action object.
#[verifier::rlimit(100)]
#[verifier::spinoff_prover]
fn parse_hover(v: &Vec<char>, pos: usize) -> (r: Option<(crate::event::HoverEvent, usize)>)
    requires
        pos <= v@.len(),
    ensures
        r matches Some(p) ==> spec_parse_hover(v@.skip(pos as int)) == Some(
            (crate::event::spec_hover_event(p.0), v@.skip(p.1 as int)),
        ) && pos <= p.1 <= v@.len(),
        r is None ==> spec_parse_hover(v@.skip(pos as int)) is None,
    decreases v@.len() - pos, 2int,
{
    let ghost s = v@.skip(pos as int);
    if pos >= v.len() {
        return None;
    }
    proof {
        assert(s[0] == v@[pos as int]);
    }
    if v[pos] != '{' {
        return None;
    }
    proof {
        assert(v@.skip(pos + 1) =~= s.subrange(1, s.len() as int));
    }
    let (k1, p1) = match parse_string(v, pos + 1) {
        Some(p) => p,
        None => {
            return None;
        },
    };
    if !str_eq_lit(k1.as_str(), "action") {
        return None;
    }
    let ghost r1 = v@.skip(p1 as int);
    if p1 >= v.len() {
        return None;
    }
    proof {
        assert(r1[0] == v@[p1 as int]);
    }
    if v[p1] != ':' {
        return None;
    }
    proof {
        assert(v@.skip(p1 + 1) =~= r1.subrange(1, r1.len() as int));
    }
    let (action, p2) = match parse_string(v, p1 + 1) {
        Some(p) => p,
        None => {
            return None;
        },
    };
    let ghost r2 = v@.skip(p2 as int);
    if p2 >= v.len() {
        return None;
    }
    proof {
        assert(r2[0] == v@[p2 as int]);
    }
    if v[p2] != ',' {
        return None;
    }
    proof {
        assert(v@.skip(p2 + 1) =~= r2.subrange(1, r2.len() as int));
    }
    let (k2, p3) = match parse_string(v, p2 + 1) {
        Some(p) => p,
        None => {
            return None;
        },
    };
    if !str_eq_lit(k2.as_str(), "contents") {
        return None;
    }
    let ghost r3 = v@.skip(p3 as int);
    if p3 >= v.len() {
        return None;
    }
    proof {
        assert(r3[0] == v@[p3 as int]);
    }
    if v[p3] != ':' {
        return None;
    }
    if p3 <= pos {
        return None;
    }
    proof {
        assert(v@.skip(p3 + 1) =~= r3.subrange(1, r3.len() as int));
    }
    let p4 = p3 + 1;
    if str_eq_lit(action.as_str(), "show_text") {
        let (c, p5) = match parse_component(v, p4) {
            Some(p) => p,
            None => {
                return None;
            },
        };
        let ghost r5 = v@.skip(p5 as int);
        if p5 >= v.len() {
            return None;
        }
        proof {
            assert(r5[0] == v@[p5 as int]);
        }
        if v[p5] != '}' {
            return None;
        }
        return Some((crate::event::HoverEvent::ShowText(Box::new(c)), p5 + 1));
    }
    if str_eq_lit(action.as_str(), "show_item") {
        let (h, p5) = match parse_item(v, p4) {
            Some(p) => p,
            None => {
                return None;
            },
        };
        let ghost r5 = v@.skip(p5 as int);
        if p5 >= v.len() {
            return None;
        }
        proof {
            assert(r5[0] == v@[p5 as int]);
        }
        if v[p5] != '}' {
            return None;
        }
        return Some((crate::event::HoverEvent::ShowItem(Box::new(h)), p5 + 1));
    }
    if str_eq_lit(action.as_str(), "show_entity") {
        let (h, p5) = match parse_entity(v, p4) {
            Some(p) => p,
            None => {
                return None;
            },
        };
        let ghost r5 = v@.skip(p5 as int);
        if p5 >= v.len() {
            return None;
        }
        proof {
            assert(r5[0] == v@[p5 as int]);
        }
        if v[p5] != '}' {
            return None;
        }
        return Some((crate::event::HoverEvent::ShowEntity(Box::new(h)), p5 + 1));
    }
    None
}

/// Reads an entity hover contents object.
#[verifier::rlimit(100)]
#[verifier::spinoff_prover]
fn parse_entity(v: &Vec<char>, pos: usize) -> (r: Option<(crate::event::EntityHover, usize)>)
    requires
        pos <= v@.len(),
    ensures
        r matches Some(p) ==> spec_parse_entity(v@.skip(pos as int)) == Some(
            (crate::event::spec_entity_hover(p.0), v@.skip(p.1 as int)),
        ) && pos <= p.1 <= v@.len(),
        r is None ==> spec_parse_entity(v@.skip(pos as int)) is None,
    decreases v@.len() - pos, 10int,
{
    let ghost s = v@.skip(pos as int);
    if pos >= v.len() {
        return None;
    }
    proof {
        assert(s[0] == v@[pos as int]);
    }
    if v[pos] != '{' {
        return None;
    }
    proof {
        assert(v@.skip(pos + 1) =~= s.subrange(1, s.len() as int));
    }
    let (id_text, p1) = match parse_named_string(v, pos + 1, "id") {
        Some(p) => p,
        None => {
            return None;
        },
    };
    let id = match parse_uuid_text(id_text.as_str()) {
        Some(id) => id,
        None => {
            return None;
        },
    };
    let ghost r1 = v@.skip(p1 as int);
    if p1 >= v.len() {
        return None;
    }
    proof {
        assert(r1[0] == v@[p1 as int]);
    }
    if v[p1] != ',' {
        return None;
    }
    if p1 <= pos {
        return None;
    }
    proof {
        assert(v@.skip(p1 + 1) =~= r1.subrange(1, r1.len() as int));
    }
    let (k2, p2) = match parse_string(v, p1 + 1) {
        Some(p) => p,
        None => {
            return None;
        },
    };
    if !str_eq_lit(k2.as_str(), "name") {
        return None;
    }
    let ghost r2 = v@.skip(p2 as int);
    if p2 >= v.len() {
        return None;
    }
    proof {
        assert(r2[0] == v@[p2 as int]);
    }
    if v[p2] != ':' {
        return None;
    }
    if p2 <= pos {
        return None;
    }
    proof {
        assert(v@.skip(p2 + 1) =~= r2.subrange(1, r2.len() as int));
    }
    let (name, p3) = match parse_component(v, p2 + 1) {
        Some(p) => p,
        None => {
            return None;
        },
    };
    let ghost r3 = v@.skip(p3 as int);
    if p3 >= v.len() {
        return None;
    }
    proof {
        assert(r3[0] == v@[p3 as int]);
    }
    if v[p3] != ',' {
        return None;
    }
    proof {
        assert(v@.skip(p3 + 1) =~= r3.subrange(1, r3.len() as int));
    }
    let (ty, p4) = match parse_named_string(v, p3 + 1, "type") {
        Some(p) => p,
        None => {
            return None;
        },
    };
    let ghost r4 = v@.skip(p4 as int);
    if p4 >= v.len() {
        return None;
    }
    proof {
        assert(r4[0] == v@[p4 as int]);
    }
    if v[p4] != '}' {
        return None;
    }
    let entity_type = crate::key::Key::parse(ty.as_str());
    let h = crate::event::EntityHover { id, name, entity_type };
    proof {
        assert(crate::event::spec_entity_hover(h) =~= (spec_parse_entity(s)->0).0);
    }
    Some((h, p4 + 1))
}

/// Reads a serial component: a bare quoted string or an object.
#[verifier::rlimit(100)]
#[verifier::spinoff_prover]
fn parse_component(v: &Vec<char>, pos: usize) -> (r: Option<(Component, usize)>)
    requires
        pos <= v@.len(),
    ensures
        r matches Some(p) ==> spec_parse_component(v@.skip(pos as int)) == Some(
            (spec_component(p.0), v@.skip(p.1 as int)),
        ) && pos <= p.1 <= v@.len(),
        r is None ==> spec_parse_component(v@.skip(pos as int)) is None,
    decreases v@.len() - pos, 4int,
{
    let ghost s = v@.skip(pos as int);
    if pos >= v.len() {
        return None;
    }
    proof {
        assert(s[0] == v@[pos as int]);
    }
    let c0 = v[pos];
    if c0 == '"' {
        match parse_string(v, pos) {
            Some((text, np)) => {
                let c = Component::text(text.as_str());
                Some((c, np))
            },
            None => None,
        }
    } else if c0 == '{' {
        if pos + 1 < v.len() && v[pos + 1] == '}' {
            proof {
                assert(s[1] == v@[pos + 1]);
                assert(v@.skip(pos + 2) =~= s.subrange(2, s.len() as int));
            }
            match assemble(new_acc()) {
                Some(c) => Some((c, pos + 2)),
                None => None,
            }
        } else {
            proof {
                if pos + 1 < v@.len() {
                    assert(s[1] == v@[pos + 1]);
                }
                assert(v@.skip(pos + 1) =~= s.subrange(1, s.len() as int));
            }
            match parse_fields(v, pos + 1, new_acc()) {
                Some((acc, p1)) => {
                    match assemble(acc) {
                        Some(c) => Some((c, p1)),
                        None => None,
                    }
                },
                None => None,
            }
        }
    } else {
        None
    }
}



proof fn lemma_wf_list_push(s: Seq<ComponentView>, x: ComponentView)
    ensures
        spec_wf_list(s.push(x)) == (spec_wf_list(s) && spec_wf_component(x)),
    decreases s.len(),
{
    if s.len() == 0 {
        assert(s.push(x)[0] == x);
        assert(s.push(x).subrange(1, 1) =~= Seq::<ComponentView>::empty());
        assert(spec_wf_list(s.push(x).subrange(1, 1)));
        assert(spec_wf_list(s));
    } else {
        assert(s.push(x)[0] == s[0]);
        assert(s.push(x).subrange(1, s.push(x).len() as int) =~= s.subrange(
            1,
            s.len() as int,
        ).push(x));
        lemma_wf_list_push(s.subrange(1, s.len() as int), x);
    }
}

/// Whether every color in this tree is within the range the structured form
/// can carry.
#[verifier::loop_isolation(false)]
#[verifier::rlimit(100)]
#[verifier::spinoff_prover]
fn check_wf(c: &Component) -> (r: bool)
    ensures
        r == spec_wf_component(spec_component(*c)),
    decreases *c,
{
    let ghost me = spec_component(*c);
    let color_ok = match &c.style.color {
        Some(TextColor::Hex(hv)) => *hv <= 0xFFFFFF,
        _ => true,
    };
    proof {
        assert(color_ok == spec_wf_color(me.style.color));
    }
    let hover_ok = match &c.style.hover_event {
        Some(h) => {
            match h {
                crate::event::HoverEvent::ShowText(b) => {
                    let ok = check_wf(&**b);
                    proof {
                        assert(ok == spec_wf_hover(crate::event::spec_hover_event(*h)));
                    }
                    ok
                },
                crate::event::HoverEvent::ShowItem(_) => true,
                crate::event::HoverEvent::ShowEntity(e) => {
                    let ok = check_wf(&e.name);
                    proof {
                        assert(ok == spec_wf_hover(crate::event::spec_hover_event(*h)));
                    }
                    ok
                },
            }
        },
        None => true,
    };
    proof {
        assert(hover_ok == (match me.style.hover_event {
            Some(h) => spec_wf_hover(h),
            None => true,
        }));
        assert(spec_wf_style(me.style) == (color_ok && hover_ok));
    }
    let mut children_ok = true;
    let mut i: usize = 0;
    proof {
        broadcast use crate::component::lemma_spec_components;

        assert(me.extra == crate::component::spec_components(c.extra@));
        assert(me.extra.take(0) =~= Seq::<ComponentView>::empty());
        assert(spec_wf_list(me.extra.take(0)));
    }
    while i < c.extra.len()
        invariant
            0 <= i <= c.extra@.len(),
            children_ok == spec_wf_list(me.extra.take(i as int)),
        decreases c.extra@.len() - i,
    {
        proof {
            broadcast use crate::component::lemma_spec_components;

            assert(decreases_to!(*c => c.extra@[i as int]));
            assert(me.extra[i as int] == spec_component(c.extra@[i as int]));
        }
        let ok = check_wf(&c.extra[i]);
        proof {
            assert(me.extra.take(i + 1) =~= me.extra.take(i as int).push(me.extra[i as int]));
            lemma_wf_list_push(me.extra.take(i as int), me.extra[i as int]);
        }
        children_ok = children_ok && ok;
        i += 1;
    }
    proof {
        assert(me.extra.take(me.extra.len() as int) =~= me.extra);
        assert(children_ok == spec_wf_list(me.extra));
    }
    let mut args_ok = true;
    match &c.content {
        crate::content::Content::Translation { with, .. } => {
            let ghost args = me.content->Translation_with;
            let mut j: usize = 0;
            proof {
                broadcast use crate::component::lemma_spec_components;

                assert(c.content->Translation_with == *with);
                assert(args == crate::component::spec_components(with@));
                assert(args.take(0) =~= Seq::<ComponentView>::empty());
                assert(spec_wf_list(args.take(0)));
            }
            while j < with.len()
                invariant
                    0 <= j <= with@.len(),
                    args_ok == spec_wf_list(args.take(j as int)),
                decreases with@.len() - j,
            {
                proof {
                    broadcast use crate::component::lemma_spec_components;

                    assert(c.content->Translation_with == *with);
                    assert(decreases_to!(*c => c.content->Translation_with@[j as int]));
                    assert(args[j as int] == spec_component(with@[j as int]));
                }
                let ok = check_wf(&with[j]);
                proof {
                    assert(args.take(j + 1) =~= args.take(j as int).push(args[j as int]));
                    lemma_wf_list_push(args.take(j as int), args[j as int]);
                }
                args_ok = args_ok && ok;
                j += 1;
            }
            proof {
                assert(args.take(args.len() as int) =~= args);
                assert(args_ok == spec_wf_list(args));
            }
        },
        _ => {},
    }
    proof {
        assert(args_ok == (if me.content is Translation {
            spec_wf_list(me.content->Translation_with)
        } else {
            true
        }));
        assert((color_ok && hover_ok && children_ok && args_ok) == spec_wf_component(me));
    }
    color_ok && hover_ok && children_ok && args_ok
}

/// A codec for the structured serial text form: a lossless, order-preserving
/// mapping between component trees and a compact object notation. A tree
/// with text content, a blank style and no children encodes as a bare quoted
/// string; any other tree encodes as an object of its set style fields, its
/// content fields, and its child array. Decoding accepts either form, with
/// the object's fields in any order.
#[derive(Clone, Copy, Debug, PartialEq, Eq)]
pub struct JsonCodec;

impl JsonCodec {
    /// Encodes a component tree, failing exactly when some RGB color in the
    /// tree exceeds the 24-bit range.
    pub fn serialize(self, component: &Component) -> (r: Result<String, EncodeError>)
        ensures
            spec_wf_component(spec_component(*component)) ==> (r matches Ok(s) && s@
                == spec_encode_component(spec_component(*component))),
            !spec_wf_component(spec_component(*component)) ==> (r matches Err(e) && e
                == EncodeError::ColorOutOfRange),
    {
        if !check_wf(component) {
            return Err(EncodeError::ColorOutOfRange);
        }
        let mut out = String::new();
        encode_component(component, &mut out);
        Ok(out)
    }

    /// Decodes a structured serial string, failing exactly when the input is
    /// not one whole serial component.
    pub fn deserialize(self, value: &str) -> (r: Result<Component, DecodeError>)
        ensures
            match r {
                Ok(c) => spec_decode_component(value@) == Some(spec_component(c)),
                Err(e) => spec_decode_component(value@) is None && e == DecodeError::Malformed,
            },
    {
        let chars = crate::chars::str_chars(value);
        proof {
            assert(chars@.skip(0) =~= value@);
        }
        match parse_component(&chars, 0) {
            Some((c, np)) => {
                if np == chars.len() {
                    proof {
                        assert(chars@.skip(np as int).len() == 0);
                    }
                    Ok(c)
                } else {
                    proof {
                        assert(chars@.skip(np as int).len() > 0);
                    }
                    Err(DecodeError::Malformed)
                }
            },
            None => Err(DecodeError::Malformed),
        }
    }
}


proof fn lemma_hex_digit_value_inverse(d: int)
    requires
        0 <= d < 16,
    ensures
        spec_hex_digit_value(spec_hex_digit(d)) == Some(d),
{
}

/// Reading a quoted string's encoded body back yields the original text and
/// the characters after the closing quote.
proof fn lemma_escape_parse(s: Seq<char>, tail: Seq<char>)
    ensures
        spec_parse_str_body(spec_escape(s) + seq!['"'] + tail) == Some((s, tail)),
    decreases s.len(),
{
    let full = spec_escape(s) + seq!['"'] + tail;
    if s.len() == 0 {
        assert(spec_escape(s) == Seq::<char>::empty());
        assert(full[0] == '"');
        assert(full.subrange(1, full.len() as int) =~= tail);
    } else {
        let c = s[0];
        let rest = s.subrange(1, s.len() as int);
        lemma_escape_parse(rest, tail);
        let sub = spec_escape(rest) + seq!['"'] + tail;
        assert(spec_escape(s) == spec_esc_char(c) + spec_escape(rest));
        if c == '"' {
            assert(full[0] == '\\');
            assert(full[1] == '"');
            assert(full.subrange(2, full.len() as int) =~= sub);
            assert(seq![c] + rest =~= s);
        } else if c == '\\' {
            assert(full[0] == '\\');
            assert(full[1] == '\\');
            assert(full.subrange(2, full.len() as int) =~= sub);
            assert(seq![c] + rest =~= s);
        } else if 0 <= (c as int) < 32 {
            assert(full[0] == '\\');
            assert(full[1] == 'u');
            assert(full.len() >= 6);
            let h = full.subrange(2, 6);
            assert(h[0] == '0');
            assert(h[1] == '0');
            assert(h[2] == spec_hex_digit((c as int) / 16));
            assert(h[3] == spec_hex_digit((c as int) % 16));
            lemma_hex_digit_value_inverse(0);
            lemma_hex_digit_value_inverse((c as int) / 16);
            lemma_hex_digit_value_inverse((c as int) % 16);
            assert(spec_all_hex(h)) by {
                assert(forall|j: int|
                    0 <= j < 4 ==> spec_hex_digit_value(#[trigger] h[j]) is Some);
            }
            assert(spec_hex_value(Seq::<char>::empty()) == 0);
            assert(h.subrange(0, 1).drop_last() =~= Seq::<char>::empty());
            assert(h.subrange(0, 1).last() == h[0]);
            assert(spec_hex_value(h.subrange(0, 1)) == 0);
            assert(h.subrange(0, 2).drop_last() =~= h.subrange(0, 1));
            assert(h.subrange(0, 2).last() == h[1]);
            assert(spec_hex_value(h.subrange(0, 2)) == 0);
            assert(h.subrange(0, 3).drop_last() =~= h.subrange(0, 2));
            assert(h.subrange(0, 3).last() == h[2]);
            assert(spec_hex_value(h.subrange(0, 3)) == (c as int) / 16);
            assert(h.drop_last() =~= h.subrange(0, 3));
            assert(h.last() == h[3]);
            assert(spec_hex_value(h) == ((c as int) / 16) * 16 + (c as int) % 16);
            assert(spec_hex_value(h) == c as int);
            assert(spec_control_char(c as int) == c);
            assert(full.subrange(6, full.len() as int) =~= sub);
            assert(seq![spec_control_char(spec_hex_value(h))] + rest =~= s);
        } else {
            assert(full[0] == c);
            assert(full.subrange(1, full.len() as int) =~= sub);
            assert(seq![c] + rest =~= s);
        }
    }
}

/// Reading back a quoted string yields the original text.
pub proof fn lemma_quoted_round_trip(s: Seq<char>, tail: Seq<char>)
    ensures
        spec_parse_string(spec_quoted(s) + tail) == Some((s, tail)),
{
    let full = spec_quoted(s) + tail;
    assert(full[0] == '"');
    assert(full.subrange(1, full.len() as int) =~= spec_escape(s) + seq!['"'] + tail);
    lemma_escape_parse(s, tail);
}

/// A bare text component survives the structured codec for every string:
/// encoding compacts it to a quoted, escaped string, and decoding that
/// string yields the same component back.
pub proof fn lemma_structured_text_round_trip(s: Seq<char>)
    ensures
        spec_decode_component(
            spec_encode_component(
                ComponentView {
                    content: ContentView::Text(s),
                    style: blank_style_view(),
                    extra: Seq::empty(),
                },
            ),
        ) == Some(
            ComponentView {
                content: ContentView::Text(s),
                style: blank_style_view(),
                extra: Seq::empty(),
            },
        ),
{
    let c = ComponentView {
        content: ContentView::Text(s),
        style: blank_style_view(),
        extra: Seq::empty(),
    };
    assert(spec_compactable(c));
    let enc = spec_encode_component(c);
    assert(enc == spec_quoted(s));
    lemma_quoted_round_trip(s, Seq::<char>::empty());
    assert(spec_quoted(s) + Seq::<char>::empty() =~= spec_quoted(s));
    assert(spec_parse_string(enc) == Some((s, Seq::<char>::empty())));
    assert(enc[0] == '"');
    assert(spec_parse_component(enc) == Some((c, Seq::<char>::empty())));
    assert(spec_decode_component(enc) == Some(c));
}

} // verus!
