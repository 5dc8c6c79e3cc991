use ghostty_config::model::{Category, ConfigValueType};
use ghostty_config::parser::parse_show_config;

#[test]
fn test_parse_basic() {
    let input = "# The font size.\nfont-size = 13\n\n# Enable bold.\nfont-thicken = false\n";
    let schema = parse_show_config(input).unwrap();
    assert_eq!(schema.options.len(), 2);
    assert_eq!(schema.options[0].key, "font-size");
    assert_eq!(schema.options[0].default_value, "13");
    assert_eq!(schema.options[1].key, "font-thicken");
    assert_eq!(schema.options[1].default_value, "false");
}

#[test]
fn test_parse_empty_default() {
    let input = "# The font family.\nfont-family = \n";
    let schema = parse_show_config(input).unwrap();
    assert_eq!(schema.options[0].key, "font-family");
    assert_eq!(schema.options[0].default_value, "");
}

#[test]
fn test_parse_multiline_docs() {
    let input = "# Line one.\n#\n# Line two with detail.\n#\n# Line three.\nsome-key = value\n";
    let schema = parse_show_config(input).unwrap();
    assert_eq!(schema.options.len(), 1);
    assert!(schema.options[0].documentation.contains("Line one."));
    assert!(schema.options[0].documentation.contains("Line three."));
}

#[test]
fn test_parse_no_docs() {
    let input = "bare-key = 42\n";
    let schema = parse_show_config(input).unwrap();
    assert_eq!(schema.options[0].key, "bare-key");
    assert_eq!(schema.options[0].documentation, "");
}

#[test]
fn test_parse_boolean_type_inferred() {
    let input = "# Doc.\nfont-thicken = false\n";
    let schema = parse_show_config(input).unwrap();
    assert!(matches!(schema.options[0].value_type, ConfigValueType::Boolean));
}

#[test]
fn test_parse_keybind_type() {
    let input = "# Doc.\nkeybind = \n";
    let schema = parse_show_config(input).unwrap();
    assert!(matches!(schema.options[0].value_type, ConfigValueType::Keybind));
    assert!(schema.options[0].is_repeatable);
}

#[test]
fn test_parse_palette_type() {
    let input = "# Doc.\npalette = \n";
    let schema = parse_show_config(input).unwrap();
    assert!(matches!(schema.options[0].value_type, ConfigValueType::Palette));
    assert!(schema.options[0].is_repeatable);
}

#[test]
fn parser_test_schema_find_option() {
    let input = "# A.\nfoo = 1\n# B.\nbar = 2\n";
    let schema = parse_show_config(input).unwrap();
    assert!(schema.find_option("foo").is_some());
    assert!(schema.find_option("bar").is_some());
    assert!(schema.find_option("baz").is_none());
}

#[test]
fn parser_test_schema_options_for_category() {
    let input = "# Doc.\nfont-size = 13\n# Doc.\nfont-thicken = false\n# Doc.\ncursor-style = block\n";
    let schema = parse_show_config(input).unwrap();
    let font_opts = schema.options_for_category(&Category::Fonts);
    assert!(font_opts.len() >= 2);
    assert!(font_opts.iter().all(|o| o.key.starts_with("font-")));
}

#[test]
fn test_parse_many_options() {
    // Simulate realistic output with multiple entries
    let input = "# The font families.\nfont-family =\n\n# Bold font.\nfont-family-bold =\n\n# Font size.\nfont-size = 13\n\n# Background color.\nbackground = #1e1e2e\n\n# Theme name.\ntheme =\n\n# A boolean.\nfont-thicken = false\n\n# A keybind.\nkeybind =\n";
    let schema = parse_show_config(input).unwrap();
    assert_eq!(schema.options.len(), 7);
}

#[test]
fn test_parse_dedup_prefers_documented_occurrence() {
    // A key appearing first undocumented and then documented yields one
    // option carrying the documentation from the second occurrence.
    let input = "font-family = \n\n# The font families.\nfont-family = mono\n";
    let schema = parse_show_config(input).unwrap();
    assert_eq!(schema.options.len(), 1);
    assert_eq!(schema.options[0].key, "font-family");
    assert_eq!(schema.options[0].default_value, "mono");
    assert_eq!(schema.options[0].documentation, "The font families.");
}

#[test]
fn test_parse_dedup_drops_undocumented_repeat() {
    let input = "# The font families.\nfont-family = mono\n\nfont-family = \n";
    let schema = parse_show_config(input).unwrap();
    assert_eq!(schema.options.len(), 1);
    assert_eq!(schema.options[0].default_value, "mono");
    assert_eq!(schema.options[0].documentation, "The font families.");
}
