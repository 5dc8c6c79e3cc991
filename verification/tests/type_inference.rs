use ghostty_config::model::ConfigValueType;
use ghostty_config::type_inference::{infer_type, is_repeatable};

#[test]
fn test_boolean_inference() {
    assert!(matches!(infer_type("font-thicken", "false", ""), ConfigValueType::Boolean));
    assert!(matches!(infer_type("bold-is-bright", "true", ""), ConfigValueType::Boolean));
}

#[test]
fn test_color_inference() {
    assert!(matches!(infer_type("background", "", ""), ConfigValueType::Color));
    assert!(matches!(infer_type("foreground", "", ""), ConfigValueType::Color));
    assert!(matches!(infer_type("cursor-color", "#f0f0f0", ""), ConfigValueType::Color));
    assert!(matches!(infer_type("selection-foreground", "", ""), ConfigValueType::Color));
    assert!(matches!(infer_type("bold-color", "", ""), ConfigValueType::Color));
}

#[test]
fn test_font_inference() {
    assert!(matches!(infer_type("font-family", "", ""), ConfigValueType::Font));
    assert!(matches!(infer_type("font-family-bold", "", ""), ConfigValueType::Font));
    assert!(matches!(infer_type("font-family-italic", "", ""), ConfigValueType::Font));
    assert!(matches!(infer_type("font-family-bold-italic", "", ""), ConfigValueType::Font));
}

#[test]
fn test_keybind_inference() {
    assert!(matches!(infer_type("keybind", "", ""), ConfigValueType::Keybind));
}

#[test]
fn test_palette_inference() {
    assert!(matches!(infer_type("palette", "", ""), ConfigValueType::Palette));
}

#[test]
fn test_integer_inference() {
    assert!(matches!(infer_type("scrollback-limit", "10000", ""), ConfigValueType::Integer));
    assert!(matches!(infer_type("font-thicken-strength", "255", ""), ConfigValueType::Integer));
}

#[test]
fn test_float_inference() {
    assert!(matches!(infer_type("font-size", "13", ""), ConfigValueType::Float)); // manual override
    assert!(matches!(infer_type("faint-opacity", "0.5", ""), ConfigValueType::Float));
    assert!(matches!(infer_type("unknown-float", "1.5", ""), ConfigValueType::Float));
}

#[test]
fn test_path_inference() {
    assert!(matches!(infer_type("config-file", "", ""), ConfigValueType::Path));
    assert!(matches!(infer_type("working-directory", "", ""), ConfigValueType::Path));
    assert!(matches!(infer_type("custom-shader", "", ""), ConfigValueType::Path));
}

#[test]
fn test_enum_extraction_from_docs() {
    let docs = "Valid values:\n\n  * `block` - A block cursor\n  * `bar` - A bar cursor\n  * `underline` - An underline cursor\n";
    assert!(
        matches!(infer_type("cursor-style", "block", docs), ConfigValueType::Enum(v) if v.len() == 3)
    );
}

#[test]
fn test_enum_skips_examples() {
    let docs = "  * `e.g. something` - skip\n  * `value one` - skip spaces\n";
    // These should not be extracted as enum values
    let result = infer_type("some-key", "", docs);
    assert!(matches!(result, ConfigValueType::Text));
}

#[test]
fn test_text_fallback() {
    assert!(matches!(infer_type("unknown-key", "", ""), ConfigValueType::Text));
    assert!(matches!(infer_type("title", "my title", ""), ConfigValueType::Text));
}

#[test]
fn test_repeatable_keys() {
    assert!(is_repeatable("keybind"));
    assert!(is_repeatable("palette"));
    assert!(is_repeatable("font-family"));
    assert!(is_repeatable("font-feature"));
    assert!(is_repeatable("config-file"));
    assert!(!is_repeatable("font-size"));
    assert!(!is_repeatable("theme"));
    assert!(!is_repeatable("background"));
}

#[test]
fn test_manual_overrides() {
    assert!(matches!(infer_type("font-size", "13", ""), ConfigValueType::Float));
    assert!(matches!(infer_type("window-padding-balance", "false", ""), ConfigValueType::Boolean));
    assert!(matches!(infer_type("adjust-cell-width", "", ""), ConfigValueType::Text));
}

#[test]
fn test_enum_needs_two_distinct_values() {
    // Two bullets with the same token offer only one distinct value.
    let docs = "  * `on` - enable\n  * `on` - also enable\n";
    assert!(matches!(infer_type("some-key", "", docs), ConfigValueType::Text));
}

#[test]
fn test_enum_values_keep_documentation_order() {
    let docs = "  * `zeta` - last letter\n  * `alpha` - first letter\n";
    match infer_type("some-key", "", docs) {
        ConfigValueType::Enum(v) => {
            assert_eq!(v, vec!["zeta".to_string(), "alpha".to_string()]);
        }
        other => panic!("expected an enum, got {}", other.label()),
    }
}

#[test]
fn test_integer_inference_rejects_overflow() {
    // A default too large for i64 is not an integer.
    assert!(matches!(infer_type("some-key", "99999999999999999999", ""), ConfigValueType::Text));
    assert!(matches!(infer_type("some-key", "9223372036854775807", ""), ConfigValueType::Integer));
    assert!(matches!(infer_type("some-key", "-9223372036854775808", ""), ConfigValueType::Integer));
}

#[test]
fn test_float_inference_accepts_exponents() {
    assert!(matches!(infer_type("some-key", "1.5e3", ""), ConfigValueType::Float));
    assert!(matches!(infer_type("some-key", ".5", ""), ConfigValueType::Float));
    assert!(matches!(infer_type("some-key", "1.2.3", ""), ConfigValueType::Text));
}
