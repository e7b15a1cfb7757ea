use typewheel::{Component, IterOrder, Key, LegacyCodec, PlainTextCodec, Style, TextColor};

fn deeply_nested() -> Component {
    Component::text("a").with_extra(vec![
        Component::text("b").with_extra(vec![Component::text("c"), Component::text("d")]),
        Component::text("e").with_extra(vec![
            Component::text("f").with_extra(vec![Component::text("g"), Component::text("h")]),
        ]),
    ])
}

#[test]
fn encode_color_codes() {
    let component = Component::text("hello ")
        .with_bold(true)
        .with_color(TextColor::Green)
        .with_extra(vec![Component::text("world").with_color(TextColor::Blue)]);

    let codec = LegacyCodec::section();
    assert_eq!(codec.serialize(&component), "\u{a7}a\u{a7}lhello \u{a7}9\u{a7}lworld");
}

#[test]
fn namespace_elision() {
    assert_eq!(Key::minecraft("stone".to_string()).stored_namespace(), None);
    assert_eq!(Key::new("minecraft".to_string(), "air".to_string()).stored_namespace(), None);
    assert_eq!(
        Key::new("bukkit".to_string(), "help".to_string()).stored_namespace(),
        Some("bukkit")
    );
}

#[test]
fn depth_first_iter() {
    let component = deeply_nested();
    let mut iter = component.iter();
    let expected = ["a", "b", "c", "d", "e", "f", "g", "h"];
    for e in expected {
        let node = iter.next().unwrap();
        assert_eq!(node.shallow_text(), Some(e));
    }
    assert!(iter.next().is_none());
}

#[test]
fn breadth_first_iter() {
    let component = deeply_nested();
    let mut iter = component.iter().with_order(IterOrder::BreadthFirst);
    let expected = ["a", "b", "e", "c", "d", "f", "g", "h"];
    for e in expected {
        let node = iter.next().unwrap();
        assert_eq!(node.shallow_text(), Some(e));
    }
    assert!(iter.next().is_none());
}

#[test]
fn plain_text_flattening() {
    let component = Component::text("hello ")
        .with_bold(true)
        .with_extra(vec![Component::text("world").with_italic(true)]);
    let codec = PlainTextCodec;
    assert_eq!(codec.serialize(&component), "hello world");
    assert_eq!(codec.deserialize("hello world"), Component::text("hello world"));
}

#[test]
fn legacy_decode_flattens() {
    let codec = LegacyCodec::section();
    let decoded = codec.deserialize("\u{a7}lhello");
    assert_eq!(decoded.style.bold, Some(true));
    assert_eq!(decoded.shallow_text(), Some("hello"));
    assert!(decoded.extra.is_empty());
}

#[test]
fn style_merge_overlay_wins() {
    let mut style = Style::bold(true);
    style.underlined = Some(true);
    let mut overlay = Style::bold(false);
    overlay.italic = Some(true);
    style.merge(&overlay);
    assert_eq!(style.bold, Some(false));
    assert_eq!(style.italic, Some(true));
    assert_eq!(style.underlined, Some(true));
    assert!(Style::blank().is_blank());
}

#[test]
fn compacting_serial() {
    let codec = typewheel::JsonCodec;
    assert_eq!(codec.serialize(&Component::text("hello world")).unwrap(), "\"hello world\"");

    // A styled component is not compacted.
    assert_eq!(
        codec.serialize(&Component::text("hello bold").with_bold(true)).unwrap(),
        "{\"bold\":true,\"text\":\"hello bold\"}"
    );
}

#[test]
fn general_serial() {
    let codec = typewheel::JsonCodec;
    let component = Component::text("hello ")
        .with_bold(true)
        .with_color(TextColor::Green)
        .with_extra(vec![Component::text("world")
            .with_italic(true)
            .with_color(TextColor::Blue)]);

    let encoded = codec.serialize(&component).unwrap();
    assert_eq!(
        encoded,
        "{\"bold\":true,\"color\":\"green\",\"text\":\"hello \",\
         \"extra\":[{\"italic\":true,\"color\":\"blue\",\"text\":\"world\"}]}"
            .replace("         ", "")
    );
    assert_eq!(codec.deserialize(&encoded).unwrap(), component);
}

#[test]
fn color_serial() {
    let codec = typewheel::JsonCodec;

    let purple = Component::text("x").with_color(TextColor::LightPurple);
    assert_eq!(
        codec.serialize(&purple).unwrap(),
        "{\"color\":\"light_purple\",\"text\":\"x\"}"
    );

    let hex = Component::text("x").with_color(TextColor::Hex(0x000123));
    assert_eq!(codec.serialize(&hex).unwrap(), "{\"color\":\"#000123\",\"text\":\"x\"}");

    // The 24-bit range is enforced on encode.
    let wide = Component::text("x").with_color(TextColor::Hex(u32::MAX));
    assert_eq!(codec.serialize(&wide), Err(typewheel::EncodeError::ColorOutOfRange));
}

#[test]
fn hex_color_round_trip() {
    let codec = typewheel::JsonCodec;
    let component = Component::text("x").with_color(TextColor::Hex(0xAABBCC));
    let encoded = codec.serialize(&component).unwrap();
    assert_eq!(encoded, "{\"color\":\"#AABBCC\",\"text\":\"x\"}");

    let decoded = codec.deserialize(&encoded).unwrap();
    assert_eq!(decoded.style.color, Some(TextColor::Hex(0xAABBCC)));

    // A malformed color string is rejected.
    assert!(codec.deserialize("{\"color\":\"AABBCC\",\"text\":\"x\"}").is_err());
    assert!(codec.deserialize("{\"color\":\"#AABBZZ\",\"text\":\"x\"}").is_err());
}

#[test]
fn structured_round_trip() {
    let codec = typewheel::JsonCodec;
    let component = Component::translate(
        "chat.type.text",
        vec![Component::text("player"), Component::score("p", "kills", "3")],
    )
    .with_bold(true)
    .with_extra(vec![
        Component::keybind("key.jump").with_italic(true),
        Component::text("tail"),
    ]);

    let encoded = codec.serialize(&component).unwrap();
    assert_eq!(codec.deserialize(&encoded).unwrap(), component);
}

#[test]
fn bare_string_decode() {
    let codec = typewheel::JsonCodec;
    assert_eq!(codec.deserialize("\"hi\"").unwrap(), Component::text("hi"));
    assert!(codec.deserialize("\"unterminated").is_err());
    assert!(codec.deserialize("hi").is_err());
    assert!(codec.deserialize("\"hi\"x").is_err());
}

#[test]
fn string_escape_round_trip() {
    let codec = typewheel::JsonCodec;
    let component = Component::text("a\"b\\c\nd");
    let encoded = codec.serialize(&component).unwrap();
    assert_eq!(encoded, "\"a\\\"b\\\\c\\u000Ad\"");
    assert_eq!(codec.deserialize(&encoded).unwrap(), component);
}

#[test]
fn plain_round_trip_for_text() {
    let codec = PlainTextCodec;
    let s = "ordinary text";
    let encoded = codec.serialize(&Component::text(s));
    assert_eq!(codec.deserialize(&encoded), Component::text(s));
}

#[test]
fn content_size_counts_nodes() {
    assert_eq!(deeply_nested().content_size(), 8);
    let t = Component::translate("key", vec![Component::text("a"), Component::text("b")]);
    assert_eq!(t.content_size(), 3);
}

#[test]
fn take_and_clear_extra() {
    let mut component = Component::text("hello ").with_extra(vec![Component::text("world")]);
    let removed = component.take_extra();
    assert_eq!(removed.first(), Some(&Component::text("world")));
    assert!(component.extra.is_empty());

    let mut component = Component::text("hello ").with_extra(vec![Component::text("world")]);
    component.clear_extra();
    assert!(component.extra.is_empty());
}

#[test]
fn key_strings() {
    let key = Key::minecraft("stone".to_string());
    assert_eq!(key.to_full_string(), "minecraft:stone");
    assert_eq!(key.to_compact_string(), "stone");
    assert_eq!(key.parts(), ("minecraft", "stone"));

    let key = Key::new("bukkit".to_string(), "help".to_string());
    assert_eq!(key.to_full_string(), "bukkit:help");
    assert_eq!(key.to_compact_string(), "bukkit:help");
    assert_eq!(key.value(), "help");
    assert_eq!(key.namespace(), "bukkit");

    let parsed = Key::parse("bukkit:help");
    assert_eq!(parsed, Key::new("bukkit".to_string(), "help".to_string()));
    assert_eq!(Key::parse("stone"), Key::minecraft("stone".to_string()));
}

#[test]
fn legacy_ampersand_variant() {
    let component = Component::text("hello").with_bold(true);
    let codec = LegacyCodec::ampersand();
    assert_eq!(codec.serialize(&component), "&lhello");
    let custom = LegacyCodec::new('$');
    assert_eq!(custom.serialize(&component), "$lhello");
}

#[test]
fn legacy_decode_literal_text() {
    let codec = LegacyCodec::section();
    // An unrecognized code character leaves the segment as literal text.
    let decoded = codec.deserialize("\u{a7}zkeep");
    assert_eq!(decoded.shallow_text(), Some("zkeep"));
    assert!(decoded.extra.is_empty());
}
