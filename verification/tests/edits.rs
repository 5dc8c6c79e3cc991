use ghostty_config::fonts::font_matches;
use ghostty_config::model::{
    add_keybind_entry, apply_edit, effective_value, remove_keybind_entry, Category, ConfigEntry,
    ConfigOption, ConfigSchema, ConfigValueType, FontFamily, ThemeInfo, UserConfig,
};
use ghostty_config::themes::theme_matches;

fn schema_with_font_size() -> ConfigSchema {
    ConfigSchema {
        options: vec![ConfigOption {
            key: "font-size".to_string(),
            default_value: "13".to_string(),
            documentation: "".to_string(),
            value_type: ConfigValueType::Float,
            category: Category::Fonts,
            is_repeatable: false,
        }],
    }
}

#[test]
fn test_apply_edit_sets_nondefault_value() {
    let schema = schema_with_font_size();
    let mut config = UserConfig::new("/tmp/test".to_string());
    apply_edit(&mut config, &schema, "font-size", " 16 ");
    assert_eq!(config.get("font-size"), Some("16"));
}

#[test]
fn test_apply_edit_empty_value_removes() {
    let schema = schema_with_font_size();
    let mut config = UserConfig::new("/tmp/test".to_string());
    config.set("font-size", "16");
    apply_edit(&mut config, &schema, "font-size", "   ");
    assert_eq!(config.get("font-size"), None);
}

#[test]
fn test_apply_edit_default_value_removes() {
    let schema = schema_with_font_size();
    let mut config = UserConfig::new("/tmp/test".to_string());
    config.set("font-size", "16");
    apply_edit(&mut config, &schema, "font-size", "13");
    assert_eq!(config.get("font-size"), None);
}

#[test]
fn test_effective_value_prefers_set_value() {
    let schema = schema_with_font_size();
    let mut config = UserConfig::new("/tmp/test".to_string());
    config.set("font-size", "16");
    assert_eq!(effective_value(&config, &schema, "font-size"), "16");
}

#[test]
fn test_effective_value_falls_back_to_default() {
    let schema = schema_with_font_size();
    let config = UserConfig::new("/tmp/test".to_string());
    assert_eq!(effective_value(&config, &schema, "font-size"), "13");
    assert_eq!(effective_value(&config, &schema, "unknown"), "");
}

#[test]
fn test_add_keybind_entry_appends_trimmed_pair() {
    let mut config = UserConfig::new("/tmp/test".to_string());
    assert!(add_keybind_entry(&mut config, " ctrl+c ", " copy "));
    assert_eq!(config.get_all("keybind"), vec!["ctrl+c=copy"]);
}

#[test]
fn test_add_keybind_entry_rejects_blank_sides() {
    let mut config = UserConfig::new("/tmp/test".to_string());
    assert!(!add_keybind_entry(&mut config, "  ", "copy"));
    assert!(!add_keybind_entry(&mut config, "ctrl+c", ""));
    assert!(config.entries.is_empty());
}

#[test]
fn test_remove_keybind_entry_removes_only_matching() {
    let mut config = UserConfig::new("/tmp/test".to_string());
    config.entries.push(ConfigEntry::KeyValue {
        key: "keybind".to_string(),
        value: "ctrl+c=copy".to_string(),
    });
    config.entries.push(ConfigEntry::KeyValue {
        key: "keybind".to_string(),
        value: "ctrl+v=paste".to_string(),
    });
    remove_keybind_entry(&mut config, "ctrl+c", "copy");
    assert_eq!(config.get_all("keybind"), vec!["ctrl+v=paste"]);
}

fn theme(name: &str, is_dark: bool) -> ThemeInfo {
    ThemeInfo {
        name: name.to_string(),
        background: "#000000".to_string(),
        foreground: "#ffffff".to_string(),
        palette: vec![String::new(); 16],
        is_dark,
        cursor_color: None,
        selection_background: None,
    }
}

#[test]
fn test_theme_matches_search_and_filter() {
    let dracula = theme("Dracula", true);
    let latte = theme("Catppuccin Latte", false);
    assert!(theme_matches(&dracula, "", "all"));
    assert!(theme_matches(&dracula, "drac", "all"));
    assert!(!theme_matches(&dracula, "latte", "all"));
    assert!(theme_matches(&dracula, "", "dark"));
    assert!(!theme_matches(&dracula, "", "light"));
    assert!(theme_matches(&latte, "", "light"));
    assert!(!theme_matches(&latte, "", "dark"));
}

#[test]
fn test_font_matches_search_is_case_insensitive() {
    let font = FontFamily { name: "JetBrains Mono".to_string(), styles: vec![] };
    assert!(font_matches(&font, ""));
    assert!(font_matches(&font, "jetbrains"));
    assert!(!font_matches(&font, "menlo"));
}
