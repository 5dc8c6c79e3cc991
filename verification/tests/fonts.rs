use ghostty_config::fonts::parse_font_list;

#[test]
fn test_parse_font_list() {
    let input = "Menlo\n  Menlo Bold\n  Menlo Regular\n\nMonaco\n  Monaco\n";
    let fonts = parse_font_list(input);
    assert_eq!(fonts.len(), 2);
    assert_eq!(fonts[0].name, "Menlo");
    assert_eq!(fonts[0].styles.len(), 2);
    assert_eq!(fonts[1].name, "Monaco");
}

#[test]
fn test_parse_font_list_empty() {
    let fonts = parse_font_list("");
    assert!(fonts.is_empty());
}

#[test]
fn test_parse_font_list_single_family() {
    let input = "JetBrains Mono\n  JetBrains Mono Regular\n  JetBrains Mono Bold\n  JetBrains Mono Italic\n";
    let fonts = parse_font_list(input);
    assert_eq!(fonts.len(), 1);
    assert_eq!(fonts[0].name, "JetBrains Mono");
    assert_eq!(fonts[0].styles.len(), 3);
}

#[test]
fn test_parse_font_list_sorted() {
    let input = "Zapfino\n  Zapfino Regular\n\nArial\n  Arial Regular\n\nMenlo\n  Menlo Regular\n";
    let fonts = parse_font_list(input);
    assert_eq!(fonts.len(), 3);
    // Should be sorted alphabetically (case-insensitive)
    assert_eq!(fonts[0].name, "Arial");
    assert_eq!(fonts[1].name, "Menlo");
    assert_eq!(fonts[2].name, "Zapfino");
}

#[test]
fn test_parse_font_list_no_trailing_newline() {
    let input = "Menlo\n  Menlo Bold\n  Menlo Regular";
    let fonts = parse_font_list(input);
    assert_eq!(fonts.len(), 1);
    assert_eq!(fonts[0].name, "Menlo");
    assert_eq!(fonts[0].styles.len(), 2);
}

#[test]
fn test_parse_font_list_family_no_styles() {
    // Family with no indented style lines, followed by blank
    let input = "SomeFont\n\nAnotherFont\n  AnotherFont Regular\n";
    let fonts = parse_font_list(input);
    assert_eq!(fonts.len(), 2);
    assert_eq!(fonts[1].name, "SomeFont");
    assert!(fonts[1].styles.is_empty());
}

#[test]
fn test_parse_font_list_sort_is_case_insensitive() {
    // Byte order would put "B-font" before "a-font"; the sort lowercases first.
    let input = "B-font\n  B-font Regular\n\na-font\n  a-font Regular\n";
    let fonts = parse_font_list(input);
    assert_eq!(fonts.len(), 2);
    assert_eq!(fonts[0].name, "a-font");
    assert_eq!(fonts[1].name, "B-font");
}
