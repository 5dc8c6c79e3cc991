use ghostty_config::categorize::categorize_key;
use ghostty_config::model::Category;

#[test]
fn test_exact_matches() {
    assert_eq!(categorize_key("theme"), Category::Appearance);
    assert_eq!(categorize_key("keybind"), Category::Keybindings);
    assert_eq!(categorize_key("palette"), Category::Colors);
    assert_eq!(categorize_key("config-file"), Category::Advanced);
    assert_eq!(categorize_key("term"), Category::Terminal);
    assert_eq!(categorize_key("enquiry-response"), Category::Terminal);
    assert_eq!(categorize_key("title"), Category::Window);
    assert_eq!(categorize_key("class"), Category::GTKLinux);
    assert_eq!(categorize_key("scrollback-limit"), Category::Scrollback);
    assert_eq!(categorize_key("link"), Category::Mouse);
}

#[test]
fn test_font_prefix() {
    assert_eq!(categorize_key("font-size"), Category::Fonts);
    assert_eq!(categorize_key("font-family"), Category::Fonts);
    assert_eq!(categorize_key("font-thicken"), Category::Fonts);
    assert_eq!(categorize_key("font-family-bold"), Category::Fonts);
}

#[test]
fn test_cursor_prefix() {
    assert_eq!(categorize_key("cursor-style"), Category::Cursor);
    assert_eq!(categorize_key("cursor-color"), Category::Cursor);
}

#[test]
fn test_mouse_prefix() {
    assert_eq!(categorize_key("mouse-hide-while-typing"), Category::Mouse);
    assert_eq!(categorize_key("click-repeat-timeout"), Category::Mouse);
}

#[test]
fn test_clipboard_prefix() {
    assert_eq!(categorize_key("clipboard-read"), Category::Clipboard);
    assert_eq!(categorize_key("copy-on-select"), Category::Clipboard);
}

#[test]
fn test_shell_keys() {
    assert_eq!(categorize_key("shell-integration"), Category::Shell);
    assert_eq!(categorize_key("command"), Category::Shell);
    assert_eq!(categorize_key("wait-after-command"), Category::Shell);
}

#[test]
fn test_window_prefix() {
    assert_eq!(categorize_key("window-padding-x"), Category::Window);
    assert_eq!(categorize_key("resize-overlay"), Category::Window);
    assert_eq!(categorize_key("confirm-close-surface"), Category::Window);
}

#[test]
fn test_background_prefix() {
    assert_eq!(categorize_key("background"), Category::Background);
    assert_eq!(categorize_key("background-opacity"), Category::Background);
}

#[test]
fn test_color_keys() {
    assert_eq!(categorize_key("foreground"), Category::Colors);
    assert_eq!(categorize_key("selection-foreground"), Category::Colors);
    assert_eq!(categorize_key("bold-color"), Category::Colors);
    assert_eq!(categorize_key("bold-is-bright"), Category::Colors);
    assert_eq!(categorize_key("minimum-contrast"), Category::Colors);
}

#[test]
fn test_macos_prefix() {
    assert_eq!(categorize_key("macos-titlebar-style"), Category::MacOS);
    assert_eq!(categorize_key("auto-update"), Category::MacOS);
}

#[test]
fn test_gtk_linux_prefix() {
    assert_eq!(categorize_key("gtk-titlebar"), Category::GTKLinux);
    assert_eq!(categorize_key("adw-toolbar-style"), Category::GTKLinux);
    assert_eq!(categorize_key("linux-cgroup"), Category::GTKLinux);
}

#[test]
fn test_scrollback_prefix() {
    assert_eq!(categorize_key("scroll-speed"), Category::Scrollback);
}

#[test]
fn test_input_prefix() {
    assert_eq!(categorize_key("input-mode"), Category::Input);
    assert_eq!(categorize_key("vt-kam-allowed"), Category::Input);
}

#[test]
fn test_adjust_keys_are_fonts() {
    assert_eq!(categorize_key("adjust-cell-width"), Category::Fonts);
    assert_eq!(categorize_key("adjust-cell-height"), Category::Fonts);
    assert_eq!(categorize_key("adjust-font-baseline"), Category::Fonts);
    assert_eq!(categorize_key("adjust-underline-position"), Category::Fonts);
}

#[test]
fn test_appearance_keys() {
    assert_eq!(categorize_key("unfocused-split-fill"), Category::Appearance);
    // split-color contains "color" so it matches Colors before Appearance
    assert_eq!(categorize_key("split-color"), Category::Colors);
}

#[test]
fn test_advanced_keys() {
    // osc-color-report-format contains "color" so it matches Colors
    assert_eq!(categorize_key("osc-color-report-format"), Category::Colors);
    assert_eq!(categorize_key("custom-shader"), Category::Advanced);
    assert_eq!(categorize_key("image-storage-limit"), Category::Advanced);
}

#[test]
fn test_unknown_key_defaults_to_advanced() {
    assert_eq!(categorize_key("totally-unknown-key"), Category::Advanced);
}
