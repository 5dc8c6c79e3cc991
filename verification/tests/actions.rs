use ghostty_config::actions::parse_action_list;

#[test]
fn test_parse_action_list_basic() {
    let input = "copy\npaste\nnew_window\nclose_surface\n";
    let actions = parse_action_list(input);
    assert_eq!(actions.len(), 4);
    assert_eq!(actions[0], "copy");
    assert_eq!(actions[3], "close_surface");
}

#[test]
fn test_parse_action_list_empty() {
    let actions = parse_action_list("");
    assert!(actions.is_empty());
}

#[test]
fn test_parse_action_list_skips_blank_lines() {
    let input = "copy\n\npaste\n\n";
    let actions = parse_action_list(input);
    assert_eq!(actions.len(), 2);
}

#[test]
fn test_parse_action_list_trims_whitespace() {
    let input = "  copy  \n  paste  \n";
    let actions = parse_action_list(input);
    assert_eq!(actions[0], "copy");
    assert_eq!(actions[1], "paste");
}
