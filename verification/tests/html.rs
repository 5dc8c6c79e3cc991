use ghostty_config::html::{
    default_palette_color, palette_override, toast_html, toast_with_badge, unsaved_badge_oob,
};

#[test]
fn test_toast_html_success() {
    let html = toast_html("Saved!", false);
    assert!(html.contains("bg-emerald-500"));
    assert!(html.contains("Saved!"));
    assert!(!html.contains("bg-amber-500"));
}

#[test]
fn test_toast_html_error() {
    let html = toast_html("Error occurred", true);
    assert!(html.contains("bg-amber-500"));
    assert!(html.contains("Error occurred"));
    assert!(!html.contains("bg-emerald-500"));
}

#[test]
fn test_unsaved_badge_oob_zero() {
    let html = unsaved_badge_oob(0);
    assert!(html.contains("unsaved-badge"));
    assert!(html.contains("hx-swap-oob"));
    // Should not contain the count badge
    assert!(!html.contains("bg-red-500"));
}

#[test]
fn test_unsaved_badge_oob_nonzero() {
    let html = unsaved_badge_oob(3);
    assert!(html.contains("unsaved-badge"));
    assert!(html.contains("hx-swap-oob"));
    assert!(html.contains("bg-red-500"));
    assert!(html.contains("3"));
}

#[test]
fn test_toast_with_badge() {
    let html = toast_with_badge("Updated", false, 2);
    // Should contain both the toast and the badge
    assert!(html.contains("Updated"));
    assert!(html.contains("bg-emerald-500"));
    assert!(html.contains("unsaved-badge"));
    assert!(html.contains("2"));
}

#[test]
fn test_unsaved_badge_multi_digit_count() {
    let html = unsaved_badge_oob(42);
    assert!(html.contains(">42</span>"));
}

#[test]
fn test_default_palette_color_table() {
    assert_eq!(default_palette_color(0), "#21222c");
    assert_eq!(default_palette_color(2), "#50fa7b");
    assert_eq!(default_palette_color(15), "#ffffff");
    assert_eq!(default_palette_color(99), "#ffffff");
}

#[test]
fn test_palette_override_picks_matching_slot() {
    let values = vec!["0=#111111", "2 = #222222", "2=#999999"];
    assert_eq!(palette_override(&values, 2), Some("#222222".to_string()));
    assert_eq!(palette_override(&values, 0), Some("#111111".to_string()));
    assert_eq!(palette_override(&values, 5), None);
}
