//! A data model and codec library for tree-structured rich text components.
//!
//! A [`Component`] is a tree node carrying a content payload ([`Content`]),
//! an inheritable visual [`Style`], and an ordered list of child components.
//! The library builds such trees, merges styles by inheritance, traverses
//! trees in defined orders, and converts them to and from serial
//! representations: a structured, lossless text form, a legacy control-code
//! text form, and a lossy plain-text form.

mod chars;
mod component;
mod content;
mod event;
mod iter;
mod json;
mod key;
mod legacy;
mod plain;
mod style;

pub use component::{lemma_flattened_size, spec_component, spec_components, spec_content_size,
    spec_flatten_all, spec_flattened, Component,
    ComponentView};
pub use content::{spec_content, spec_shallow, Content, ContentView};
pub use event::{spec_click_event, spec_entity_hover, spec_hover_event, spec_item_hover, ClickEvent,
    ClickEventView, EntityHover, EntityHoverView, HoverEvent, HoverEventView, ItemHover,
    ItemHoverView};
pub use iter::{lemma_depth_first_list_concat, spec_breadth_first, spec_depth_first,
    spec_depth_first_list, spec_pending_events, spec_traversal_children, spec_visit,
    spec_visit_events, spec_visit_events_list, FlatIterator, IterOrder, Visit, VisitView,
    VisitingIterator};
pub use legacy::{resetting_style_view, spec_find_char, spec_format_codes, spec_legacy_decode,
    spec_legacy_encode, spec_legacy_list, spec_legacy_node, spec_segment, spec_segment_component,
    spec_segments_children, spec_split_char, spec_vec_views, LegacyCodec};
pub use plain::{lemma_plain_text_round_trip, spec_plain, spec_plain_list, PlainTextCodec};
pub use json::{lemma_quoted_round_trip, lemma_structured_text_round_trip, spec_assemble, spec_bool_chars, spec_color_name, spec_compactable,
    spec_decode_component, spec_encode_component, spec_escape, spec_hex_fixed, spec_int_chars,
    spec_parse_color, spec_parse_component, spec_parse_string, spec_parse_uuid, spec_quoted,
    spec_uuid_chars, spec_wf_component, spec_wf_style, DecodeError, EncodeError, FieldAccView,
    JsonCodec};
pub use key::{spec_key, spec_key_compact, spec_key_string, spec_namespace, spec_parse_key, Key,
    KeyView};
pub use style::{blank_style_view, lemma_merge_field_precedence, spec_color_code,
    spec_color_of_code, spec_is_blank, spec_merge, spec_style, Style, StyleView, TextColor};
