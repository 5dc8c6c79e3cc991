use ghostty_config::model::{
    Category, ConfigEntry, ConfigOption, ConfigSchema, ConfigValueType, UserConfig,
};

// --- ConfigValueType ---

#[test]
fn test_config_value_type_display() {
    assert_eq!(ConfigValueType::Boolean.label(), "boolean");
    assert_eq!(ConfigValueType::Integer.label(), "integer");
    assert_eq!(ConfigValueType::Float.label(), "float");
    assert_eq!(ConfigValueType::Color.label(), "color");
    assert_eq!(ConfigValueType::Enum(vec![]).label(), "enum");
    assert_eq!(ConfigValueType::Text.label(), "text");
    assert_eq!(ConfigValueType::Font.label(), "font");
    assert_eq!(ConfigValueType::Path.label(), "path");
    assert_eq!(ConfigValueType::Keybind.label(), "keybind");
    assert_eq!(ConfigValueType::Palette.label(), "palette");
    assert_eq!(ConfigValueType::CommaSeparated(Box::new(ConfigValueType::Text)).label(), "comma-separated");
}

// --- Category ---

#[test]
fn test_category_all_returns_all_variants() {
    let all = Category::all();
    assert_eq!(all.len(), 16);
}

#[test]
fn test_category_slug_roundtrip() {
    for cat in Category::all() {
        let slug = cat.slug();
        assert!(!slug.is_empty());
        // Slug should be lowercase and contain only alphanumeric chars or hyphens
        assert!(slug.chars().all(|c| c.is_alphanumeric() || c == '-'));
    }
}

#[test]
fn test_category_display_name_nonempty() {
    for cat in Category::all() {
        assert!(!cat.display_name().is_empty());
    }
}

#[test]
fn test_category_icon_nonempty() {
    for cat in Category::all() {
        assert!(!cat.icon().is_empty());
    }
}

#[test]
fn test_category_equality() {
    assert_eq!(Category::Fonts, Category::Fonts);
    assert_ne!(Category::Fonts, Category::Colors);
}

// --- ConfigSchema ---

#[test]
fn model_test_schema_find_option() {
    let schema = ConfigSchema {
        options: vec![
            ConfigOption {
                key: "font-size".to_string(),
                default_value: "13".to_string(),
                documentation: "Font size".to_string(),
                value_type: ConfigValueType::Float,
                category: Category::Fonts,
                is_repeatable: false,
            },
            ConfigOption {
                key: "theme".to_string(),
                default_value: "".to_string(),
                documentation: "Theme".to_string(),
                value_type: ConfigValueType::Text,
                category: Category::Appearance,
                is_repeatable: false,
            },
        ],
    };
    assert!(schema.find_option("font-size").is_some());
    assert!(schema.find_option("theme").is_some());
    assert!(schema.find_option("nonexistent").is_none());
}

#[test]
fn model_test_schema_options_for_category() {
    let schema = ConfigSchema {
        options: vec![
            ConfigOption {
                key: "font-size".to_string(),
                default_value: "13".to_string(),
                documentation: "".to_string(),
                value_type: ConfigValueType::Float,
                category: Category::Fonts,
                is_repeatable: false,
            },
            ConfigOption {
                key: "font-thicken".to_string(),
                default_value: "false".to_string(),
                documentation: "".to_string(),
                value_type: ConfigValueType::Boolean,
                category: Category::Fonts,
                is_repeatable: false,
            },
            ConfigOption {
                key: "theme".to_string(),
                default_value: "".to_string(),
                documentation: "".to_string(),
                value_type: ConfigValueType::Text,
                category: Category::Appearance,
                is_repeatable: false,
            },
        ],
    };
    let font_opts = schema.options_for_category(&Category::Fonts);
    assert_eq!(font_opts.len(), 2);
    let appearance_opts = schema.options_for_category(&Category::Appearance);
    assert_eq!(appearance_opts.len(), 1);
    let cursor_opts = schema.options_for_category(&Category::Cursor);
    assert_eq!(cursor_opts.len(), 0);
}

// --- UserConfig ---

#[test]
fn test_user_config_new_is_empty() {
    let config = UserConfig::new("/tmp/test".to_string());
    assert!(config.entries.is_empty());
    assert_eq!(config.get("anything"), None);
}

#[test]
fn test_user_config_set_and_get() {
    let mut config = UserConfig::new("/tmp/test".to_string());
    config.set("font-size", "14");
    assert_eq!(config.get("font-size"), Some("14"));
}

#[test]
fn test_user_config_set_overwrites() {
    let mut config = UserConfig::new("/tmp/test".to_string());
    config.set("font-size", "14");
    config.set("font-size", "16");
    assert_eq!(config.get("font-size"), Some("16"));
    // Should still have only 1 entry
    assert_eq!(config.all_set_values().len(), 1);
}

#[test]
fn test_user_config_remove() {
    let mut config = UserConfig::new("/tmp/test".to_string());
    config.set("font-size", "14");
    config.set("theme", "Dracula");
    config.remove("font-size");
    assert_eq!(config.get("font-size"), None);
    assert_eq!(config.get("theme"), Some("Dracula"));
}

#[test]
fn test_user_config_get_all() {
    let mut config = UserConfig::new("/tmp/test".to_string());
    config.entries.push(ConfigEntry::KeyValue {
        key: "keybind".to_string(),
        value: "ctrl+a=select_all".to_string(),
    });
    config.entries.push(ConfigEntry::KeyValue {
        key: "keybind".to_string(),
        value: "ctrl+c=copy".to_string(),
    });
    let all = config.get_all("keybind");
    assert_eq!(all.len(), 2);
    assert_eq!(all[0], "ctrl+a=select_all");
    assert_eq!(all[1], "ctrl+c=copy");
}

#[test]
fn test_user_config_get_returns_last_occurrence() {
    let mut config = UserConfig::new("/tmp/test".to_string());
    config.entries.push(ConfigEntry::KeyValue {
        key: "keybind".to_string(),
        value: "first".to_string(),
    });
    config.entries.push(ConfigEntry::KeyValue {
        key: "keybind".to_string(),
        value: "second".to_string(),
    });
    assert_eq!(config.get("keybind"), Some("second"));
}

#[test]
fn test_user_config_all_set_values() {
    let mut config = UserConfig::new("/tmp/test".to_string());
    config.entries.push(ConfigEntry::Comment("# comment".to_string()));
    config.set("font-size", "14");
    config.entries.push(ConfigEntry::BlankLine);
    config.set("theme", "Dracula");

    let values = config.all_set_values();
    assert_eq!(values.len(), 2);
    assert!(values.contains(&("font-size", "14")));
    assert!(values.contains(&("theme", "Dracula")));
}

#[test]
fn test_user_config_remove_preserves_comments() {
    let mut config = UserConfig::new("/tmp/test".to_string());
    config.entries.push(ConfigEntry::Comment("# header".to_string()));
    config.set("font-size", "14");
    config.entries.push(ConfigEntry::BlankLine);
    config.set("theme", "Dracula");

    config.remove("font-size");
    // Comment and blank line should still be there
    assert!(matches!(&config.entries[0], ConfigEntry::Comment(_)));
    assert_eq!(config.get("font-size"), None);
    assert_eq!(config.get("theme"), Some("Dracula"));
}

#[test]
fn test_user_config_remove_deletes_every_occurrence() {
    let mut config = UserConfig::new("/tmp/test".to_string());
    config.entries.push(ConfigEntry::KeyValue { key: "keybind".to_string(), value: "a".to_string() });
    config.entries.push(ConfigEntry::KeyValue { key: "theme".to_string(), value: "Dracula".to_string() });
    config.entries.push(ConfigEntry::KeyValue { key: "keybind".to_string(), value: "b".to_string() });
    config.remove("keybind");
    assert_eq!(config.get("keybind"), None);
    assert!(config.get_all("keybind").is_empty());
    // The remaining entry keeps its place
    assert_eq!(config.all_set_values(), vec![("theme", "Dracula")]);
}

#[test]
fn test_user_config_set_twice_is_idempotent() {
    let mut once = UserConfig::new("/tmp/test".to_string());
    once.set("font-size", "14");
    let mut twice = UserConfig::new("/tmp/test".to_string());
    twice.set("font-size", "14");
    twice.set("font-size", "14");
    assert_eq!(once.all_set_values(), twice.all_set_values());
    assert_eq!(twice.all_set_values().len(), 1);
}
