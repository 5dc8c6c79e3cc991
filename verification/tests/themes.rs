use ghostty_config::themes::{is_dark_color, parse_theme_text, sort_themes};

#[test]
fn test_is_dark_color_black() {
    assert!(is_dark_color("#000000"));
}

#[test]
fn test_is_dark_color_white() {
    assert!(!is_dark_color("#ffffff"));
}

#[test]
fn test_is_dark_color_dark_blue() {
    assert!(is_dark_color("#1e1e2e"));
}

#[test]
fn test_is_dark_color_light_gray() {
    assert!(!is_dark_color("#f0f0f0"));
}

#[test]
fn test_is_dark_color_without_hash() {
    assert!(is_dark_color("000000"));
    assert!(!is_dark_color("ffffff"));
}

#[test]
fn test_is_dark_color_short_hex() {
    // Short hex should default to dark
    assert!(is_dark_color("#abc"));
}

#[test]
fn test_parse_theme_file_basic() {
    let content = "background = #1e1e2e\nforeground = #cdd6f4\npalette = 0=#45475a\npalette = 1=#f38ba8\n";
    let theme = parse_theme_text("test", content);
    assert_eq!(theme.background, "#1e1e2e");
    assert_eq!(theme.foreground, "#cdd6f4");
    assert!(theme.is_dark);
    assert_eq!(theme.palette[0], "#45475a");
    assert_eq!(theme.palette[1], "#f38ba8");
}

#[test]
fn test_parse_theme_file_with_cursor_and_selection() {
    let content = "background = #ffffff\nforeground = #000000\ncursor-color = #ff0000\nselection-background = #aaaaaa\n";
    let theme = parse_theme_text("test", content);
    assert_eq!(theme.background, "#ffffff");
    assert!(!theme.is_dark);
    assert_eq!(theme.cursor_color, Some("#ff0000".to_string()));
    assert_eq!(theme.selection_background, Some("#aaaaaa".to_string()));
}

#[test]
fn test_parse_theme_file_skips_comments() {
    let content = "# This is a comment\nbackground = #000000\n# Another comment\nforeground = #ffffff\n";
    let theme = parse_theme_text("test", content);
    assert_eq!(theme.background, "#000000");
    assert_eq!(theme.foreground, "#ffffff");
}

#[test]
fn test_parse_theme_file_defaults() {
    // Empty content should use defaults
    let content = "";
    let theme = parse_theme_text("test", content);
    assert_eq!(theme.background, "#000000"); // default
    assert_eq!(theme.foreground, "#ffffff"); // default
    assert!(theme.is_dark);
    assert_eq!(theme.cursor_color, None);
    assert_eq!(theme.selection_background, None);
}

#[test]
fn test_parse_theme_file_palette_bounds() {
    let content = "palette = 15=#abcdef\npalette = 16=#ignore\n";
    let theme = parse_theme_text("test", content);
    assert_eq!(theme.palette[15], "#abcdef");
    // palette[16] doesn't exist (only 16 entries)
    assert_eq!(theme.palette.len(), 16);
}

#[test]
fn test_sort_themes_is_case_insensitive() {
    let themes = vec![
        parse_theme_text("Zenburn", ""),
        parse_theme_text("ayu", ""),
        parse_theme_text("Dracula", ""),
    ];
    let sorted = sort_themes(&themes);
    let names: Vec<&str> = sorted.iter().map(|t| t.name.as_str()).collect();
    assert_eq!(names, vec!["ayu", "Dracula", "Zenburn"]);
}
