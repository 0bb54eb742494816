use glance_anki::color::{fallback_color_shades, hex_to_rgb};
use glance_anki::config::Config;

#[test]
fn hex_colours() {
    assert_eq!(hex_to_rgb("#ff8000"), Ok((255, 128, 0)));
    assert_eq!(hex_to_rgb("FF8000"), Ok((255, 128, 0)));
    assert_eq!(hex_to_rgb("##aBcDeF"), Ok((0xab, 0xcd, 0xef)));
    assert_eq!(hex_to_rgb("#+f+f+f"), Ok((15, 15, 15)));
    assert_eq!(hex_to_rgb("#ff800"), Err(()));
    assert_eq!(hex_to_rgb("#ff80000"), Err(()));
    assert_eq!(hex_to_rgb("#gg0000"), Err(()));
    assert_eq!(hex_to_rgb("#-f0000"), Err(()));
    assert_eq!(hex_to_rgb(""), Err(()));
    // Six bytes, the first two one character.
    assert_eq!(hex_to_rgb("\u{e9}abcd"), Err(()));
}

#[test]
fn hex_roundtrip() {
    for (r, g, b) in [(0u8, 0u8, 0u8), (255, 255, 255), (18, 52, 86), (171, 205, 239)] {
        let text = format!("#{:02x}{:02x}{:02x}", r, g, b);
        assert_eq!(hex_to_rgb(&text), Ok((r, g, b)));
        let upper = format!("{:02X}{:02X}{:02X}", r, g, b);
        assert_eq!(hex_to_rgb(&upper), Ok((r, g, b)));
        let upper_hash = format!("#{:02X}{:02X}{:02X}", r, g, b);
        assert_eq!(hex_to_rgb(&upper_hash), Ok((r, g, b)));
        let lower = format!("{:02x}{:02x}{:02x}", r, g, b);
        assert_eq!(hex_to_rgb(&lower), Ok((r, g, b)));
    }
}

#[test]
fn fallback_shades() {
    assert_eq!(
        fallback_color_shades("#101010"),
        vec!["#101010", "hsl(0, 0%, 70%)", "hsl(0, 0%, 50%)", "hsl(0, 0%, 35%)", "hsl(0, 0%, 20%)"]
    );
}

#[test]
fn config_defaults_and_values() {
    let c = Config::from_env(None, None, None);
    assert_eq!(c.collection_path, "collection.anki2");
    assert_eq!(c.port, 8080);
    assert_eq!(c.default_days, 30);
    let c = Config::from_env(Some("/tmp/c.anki2".to_string()), Some("9000"), Some("7"));
    assert_eq!(c.collection_path, "/tmp/c.anki2");
    assert_eq!(c.port, 9000);
    assert_eq!(c.default_days, 7);
    let c = Config::from_env(None, Some("70000"), Some("-1"));
    assert_eq!(c.port, 8080);
    assert_eq!(c.default_days, 30);
}
