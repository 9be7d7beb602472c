use tailchatter::client::state::AppMode;
use tailchatter::client::ui::{name_color_index, parse_port, server_button_label};

#[test]
fn ports_parse_like_u16() {
    assert_eq!(parse_port("42069"), Some(42069));
    assert_eq!(parse_port("+80"), Some(80));
    assert_eq!(parse_port("0"), Some(0));
    assert_eq!(parse_port("65535"), Some(65535));
    assert_eq!(parse_port("0065535"), Some(65535));
    assert_eq!(parse_port("65536"), None);
    assert_eq!(parse_port("99999999999999999999999"), None);
    assert_eq!(parse_port(""), None);
    assert_eq!(parse_port("+"), None);
    assert_eq!(parse_port("-1"), None);
    assert_eq!(parse_port("8a"), None);
    assert_eq!(parse_port(" 80"), None);
    for text in ["1", "+7", "443", "65535", "65536", "", "x", "++1", "٣"] {
        assert_eq!(parse_port(text), text.parse::<u16>().ok(), "{text}");
    }
}

#[test]
fn name_colours_follow_the_hash() {
    assert_eq!(name_color_index("", 6), 0);
    assert_eq!(name_color_index("a", 6), 1);
    assert_eq!(name_color_index("ab", 6), 3);
    for name in ["alice", "bob", "a-very-long-handle-indeed", "é"] {
        let h = name.bytes().fold(0u64, |acc, b| acc.wrapping_add(b as u64).wrapping_mul(31));
        assert_eq!(name_color_index(name, 6), (h as usize) % 6);
    }
}

#[test]
fn server_button_labels() {
    assert_eq!(server_button_label(true, AppMode::Login), "Rejoin Chat");
    assert_eq!(server_button_label(true, AppMode::Chat), "Stop Server");
    assert_eq!(server_button_label(false, AppMode::Login), "Start Server & Join Chat");
    assert_eq!(server_button_label(false, AppMode::Chat), "Start Server & Join Chat");
}
