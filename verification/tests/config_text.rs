use ghostty_config::config_text::{parse_config_text, serialize_config};
use ghostty_config::model::ConfigEntry;

#[test]
fn test_roundtrip() {
    let content = "# My config\nfont-size = 14\n\n# Theme\ntheme = Dracula\n";
    let config = parse_config_text("/tmp/test".to_string(), content);
    assert_eq!(config.entries.len(), 5);
    assert_eq!(config.get("font-size"), Some("14"));
    assert_eq!(config.get("theme"), Some("Dracula"));
}

#[test]
fn test_read_preserves_comments() {
    let content = "# Comment line\nfont-size = 14\n";
    let config = parse_config_text("/tmp/test".to_string(), content);
    assert_eq!(config.entries.len(), 2);
    assert!(matches!(&config.entries[0], ConfigEntry::Comment(c) if c == "# Comment line"));
}

#[test]
fn test_read_preserves_blank_lines() {
    let content = "font-size = 14\n\n\ntheme = Dracula\n";
    let config = parse_config_text("/tmp/test".to_string(), content);
    // 1 kv + 2 blanks + 1 kv = 4
    assert_eq!(config.entries.len(), 4);
    assert!(matches!(&config.entries[1], ConfigEntry::BlankLine));
    assert!(matches!(&config.entries[2], ConfigEntry::BlankLine));
}

#[test]
fn test_read_unparseable_line_becomes_comment() {
    let content = "some random text\nfont-size = 14\n";
    let config = parse_config_text("/tmp/test".to_string(), content);
    assert!(matches!(&config.entries[0], ConfigEntry::Comment(c) if c == "some random text"));
}

#[test]
fn test_write_and_read_back() {
    let mut config = parse_config_text("/tmp/test".to_string(), "");
    config.entries.push(ConfigEntry::Comment("# Generated config".to_string()));
    config.entries.push(ConfigEntry::BlankLine);
    config.entries.push(ConfigEntry::KeyValue {
        key: "font-size".to_string(),
        value: "16".to_string(),
    });
    config.entries.push(ConfigEntry::KeyValue {
        key: "theme".to_string(),
        value: "Dracula".to_string(),
    });

    let written = serialize_config(&config);

    let read_back = parse_config_text("/tmp/test".to_string(), written.as_str());
    assert_eq!(read_back.get("font-size"), Some("16"));
    assert_eq!(read_back.get("theme"), Some("Dracula"));
    assert_eq!(read_back.entries.len(), 4);
}

#[test]
fn test_write_preserves_formatting() {
    let content = "# My settings\nfont-size = 14\n\n# Colors\nbackground = #1e1e2e\n";
    let config = parse_config_text("/tmp/test".to_string(), content);
    let written = serialize_config(&config);
    assert_eq!(written, content);
}

#[test]
fn test_set_then_write_roundtrip() {
    let mut config = ghostty_config::model::UserConfig::new("/tmp/test".to_string());
    config.set("font-size", "14");
    config.set("theme", "Dracula");
    let written = serialize_config(&config);

    let read_back = parse_config_text("/tmp/test".to_string(), written.as_str());
    assert_eq!(read_back.get("font-size"), Some("14"));
    assert_eq!(read_back.get("theme"), Some("Dracula"));
}

#[test]
fn test_key_value_lines_are_normalized_on_write() {
    let content = "font-size=14\n";
    let config = parse_config_text("/tmp/test".to_string(), content);
    let written = serialize_config(&config);
    assert_eq!(written, "font-size = 14\n");
}
