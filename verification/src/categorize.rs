//! The categorizer: maps a config key to exactly one UI category. The
//! rules form an ordered list and the first match wins; the order is
//! load-bearing, since an ambiguous key (say, one that holds `color`
//! inside an appearance-family name) must take the earlier rule's
//! category.

use vstd::prelude::*;

use crate::chars::{chars_of, contains_chars, contains_seq, starts_with_chars, str_eq};
use crate::model::Category;

verus! {

/// The exact-match table, consulted before any prefix rule.
pub open spec fn spec_exact_category(key: Seq<char>) -> Option<Category> {
    if key == "theme"@ {
        Some(Category::Appearance)
    } else if key == "keybind"@ {
        Some(Category::Keybindings)
    } else if key == "palette"@ {
        Some(Category::Colors)
    } else if key == "config-file"@ {
        Some(Category::Advanced)
    } else if key == "term"@ || key == "enquiry-response"@ {
        Some(Category::Terminal)
    } else if key == "title"@ {
        Some(Category::Window)
    } else if key == "class"@ || key == "x11-instance-name"@ {
        Some(Category::GTKLinux)
    } else if key == "scrollback-limit"@ {
        Some(Category::Scrollback)
    } else if key == "link"@ || key == "link-url"@ {
        Some(Category::Mouse)
    } else {
        None
    }
}

/// The category of `key`: the exact-match table first, then the ordered
/// prefix and substring rules, first match wins, `Advanced` as the
/// fallback. Note that the substring rule for `color` stands before the
/// appearance and advanced rules, so a key such as `split-color` or
/// `osc-color-report-format` takes `Colors`.
pub open spec fn spec_categorize(key: Seq<char>) -> Category {
    match spec_exact_category(key) {
        Some(c) => c,
        None => spec_categorize_by_rules(key),
    }
}

/// The ordered prefix and substring rules past the exact-match table.
pub open spec fn spec_categorize_by_rules(key: Seq<char>) -> Category {
    if "font-"@.is_prefix_of(key) {
        Category::Fonts
    } else if "cursor-"@.is_prefix_of(key) {
        Category::Cursor
    } else if "mouse-"@.is_prefix_of(key) || "click-"@.is_prefix_of(key) {
        Category::Mouse
    } else if "clipboard-"@.is_prefix_of(key) || "copy-on-select"@.is_prefix_of(key) {
        Category::Clipboard
    } else if "shell-"@.is_prefix_of(key) || key == "command"@ || key == "wait-after-command"@
        || key == "initial-command"@ {
        Category::Shell
    } else if "window-"@.is_prefix_of(key) || "resize-"@.is_prefix_of(key)
        || "fullscreen"@.is_prefix_of(key) || key == "confirm-close-surface"@ {
        Category::Window
    } else if "background"@.is_prefix_of(key) {
        Category::Background
    } else if "foreground"@.is_prefix_of(key) || "selection-"@.is_prefix_of(key) || contains_seq(
        key,
        "color"@,
    ) || key == "bold-is-bright"@ || key == "minimum-contrast"@ || key == "palette"@ || key
        == "invert-selection-fg-bg"@ || key == "bold-color"@ || key == "faint-opacity"@ {
        Category::Colors
    } else if "macos-"@.is_prefix_of(key) || "auto-update"@.is_prefix_of(key) || key
        == "quick-terminal-position"@ || "quick-terminal"@.is_prefix_of(key) {
        Category::MacOS
    } else if "gtk-"@.is_prefix_of(key) || "adw-"@.is_prefix_of(key) || "linux-"@.is_prefix_of(
        key,
    ) {
        Category::GTKLinux
    } else if "scrollback"@.is_prefix_of(key) || "scroll-"@.is_prefix_of(key) {
        Category::Scrollback
    } else if "input-"@.is_prefix_of(key) || key == "vt-kam-allowed"@
        || "desktop-notifications"@.is_prefix_of(key) {
        Category::Input
    } else if key == "adjust-cell-width"@ || key == "adjust-cell-height"@ || key
        == "adjust-font-baseline"@ || key == "adjust-underline-position"@ || key
        == "adjust-underline-thickness"@ || key == "adjust-strikethrough-position"@ || key
        == "adjust-strikethrough-thickness"@ || key == "adjust-overline-position"@ || key
        == "adjust-overline-thickness"@ || key == "adjust-cursor-thickness"@ || key
        == "adjust-cursor-height"@ || key == "adjust-box-thickness"@ {
        Category::Fonts
    } else if key == "unfocused-split-fill"@ || key == "split-color"@
        || "unfocused-split"@.is_prefix_of(key) {
        Category::Appearance
    } else if key == "osc-color-report-format"@ || key == "abnormal-command-exit-runtime"@ || key
        == "image-storage-limit"@ || key == "custom-shader"@ || key == "custom-shader-animation"@
        || "grapheme-"@.is_prefix_of(key) || "freetype-"@.is_prefix_of(key) || key
        == "async-backend"@ {
        Category::Advanced
    } else if key == "minimum-contrast"@ || key == "bold-is-bright"@ || "cell-"@.is_prefix_of(key)
        || "focus-"@.is_prefix_of(key) || "unfocused-"@.is_prefix_of(key) {
        Category::Appearance
    } else {
        Category::Advanced
    }
}

/// Assigns a category to a config key. Pure, total, and first-match
/// ordered as `spec_categorize` lays the rules out.
pub fn categorize_key(key: &str) -> (r: Category)
    ensures
        r == spec_categorize(key@),
{
    if str_eq(key, "theme") {
        return Category::Appearance;
    }
    if str_eq(key, "keybind") {
        return Category::Keybindings;
    }
    if str_eq(key, "palette") {
        return Category::Colors;
    }
    if str_eq(key, "config-file") {
        return Category::Advanced;
    }
    if str_eq(key, "term") || str_eq(key, "enquiry-response") {
        return Category::Terminal;
    }
    if str_eq(key, "title") {
        return Category::Window;
    }
    if str_eq(key, "class") || str_eq(key, "x11-instance-name") {
        return Category::GTKLinux;
    }
    if str_eq(key, "scrollback-limit") {
        return Category::Scrollback;
    }
    if str_eq(key, "link") || str_eq(key, "link-url") {
        return Category::Mouse;
    }
    let kc = chars_of(key);
    let k = kc.as_slice();
    if starts_with_chars(k, chars_of("font-").as_slice()) {
        return Category::Fonts;
    }
    if starts_with_chars(k, chars_of("cursor-").as_slice()) {
        return Category::Cursor;
    }
    if starts_with_chars(k, chars_of("mouse-").as_slice()) || starts_with_chars(
        k,
        chars_of("click-").as_slice(),
    ) {
        return Category::Mouse;
    }
    if starts_with_chars(k, chars_of("clipboard-").as_slice()) || starts_with_chars(
        k,
        chars_of("copy-on-select").as_slice(),
    ) {
        return Category::Clipboard;
    }
    if starts_with_chars(k, chars_of("shell-").as_slice()) || str_eq(key, "command") || str_eq(
        key,
        "wait-after-command",
    ) || str_eq(key, "initial-command") {
        return Category::Shell;
    }
    if starts_with_chars(k, chars_of("window-").as_slice()) || starts_with_chars(
        k,
        chars_of("resize-").as_slice(),
    ) || starts_with_chars(k, chars_of("fullscreen").as_slice()) || str_eq(
        key,
        "confirm-close-surface",
    ) {
        return Category::Window;
    }
    if starts_with_chars(k, chars_of("background").as_slice()) {
        return Category::Background;
    }
    if starts_with_chars(k, chars_of("foreground").as_slice()) || starts_with_chars(
        k,
        chars_of("selection-").as_slice(),
    ) || contains_chars(k, chars_of("color").as_slice()) || str_eq(key, "bold-is-bright")
        || str_eq(key, "minimum-contrast") || str_eq(key, "palette") || str_eq(
        key,
        "invert-selection-fg-bg",
    ) || str_eq(key, "bold-color") || str_eq(key, "faint-opacity") {
        return Category::Colors;
    }
    if starts_with_chars(k, chars_of("macos-").as_slice()) || starts_with_chars(
        k,
        chars_of("auto-update").as_slice(),
    ) || str_eq(key, "quick-terminal-position") || starts_with_chars(
        k,
        chars_of("quick-terminal").as_slice(),
    ) {
        return Category::MacOS;
    }
    if starts_with_chars(k, chars_of("gtk-").as_slice()) || starts_with_chars(
        k,
        chars_of("adw-").as_slice(),
    ) || starts_with_chars(k, chars_of("linux-").as_slice()) {
        return Category::GTKLinux;
    }
    if starts_with_chars(k, chars_of("scrollback").as_slice()) || starts_with_chars(
        k,
        chars_of("scroll-").as_slice(),
    ) {
        return Category::Scrollback;
    }
    if starts_with_chars(k, chars_of("input-").as_slice()) || str_eq(key, "vt-kam-allowed")
        || starts_with_chars(k, chars_of("desktop-notifications").as_slice()) {
        return Category::Input;
    }
    if str_eq(key, "adjust-cell-width") || str_eq(key, "adjust-cell-height") || str_eq(
        key,
        "adjust-font-baseline",
    ) || str_eq(key, "adjust-underline-position") || str_eq(key, "adjust-underline-thickness")
        || str_eq(key, "adjust-strikethrough-position") || str_eq(
        key,
        "adjust-strikethrough-thickness",
    ) || str_eq(key, "adjust-overline-position") || str_eq(key, "adjust-overline-thickness")
        || str_eq(key, "adjust-cursor-thickness") || str_eq(key, "adjust-cursor-height") || str_eq(
        key,
        "adjust-box-thickness",
    ) {
        return Category::Fonts;
    }
    if str_eq(key, "unfocused-split-fill") || str_eq(key, "split-color") || starts_with_chars(
        k,
        chars_of("unfocused-split").as_slice(),
    ) {
        return Category::Appearance;
    }
    if str_eq(key, "osc-color-report-format") || str_eq(key, "abnormal-command-exit-runtime")
        || str_eq(key, "image-storage-limit") || str_eq(key, "custom-shader") || str_eq(
        key,
        "custom-shader-animation",
    ) || starts_with_chars(k, chars_of("grapheme-").as_slice()) || starts_with_chars(
        k,
        chars_of("freetype-").as_slice(),
    ) || str_eq(key, "async-backend") {
        return Category::Advanced;
    }
    if str_eq(key, "minimum-contrast") || str_eq(key, "bold-is-bright") || starts_with_chars(
        k,
        chars_of("cell-").as_slice(),
    ) || starts_with_chars(k, chars_of("focus-").as_slice()) || starts_with_chars(
        k,
        chars_of("unfocused-").as_slice(),
    ) {
        return Category::Appearance;
    }
    Category::Advanced
}

} // verus!
