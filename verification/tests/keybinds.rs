use ghostty_config::keybinds::parse_keybind_list;

#[test]
fn test_parse_keybind_list_basic() {
    let input = "keybind = ctrl+c=copy\nkeybind = ctrl+v=paste\n";
    let keybinds = parse_keybind_list(input);
    assert_eq!(keybinds.len(), 2);
    assert_eq!(keybinds[0].trigger, "ctrl+c");
    assert_eq!(keybinds[0].action, "copy");
    assert_eq!(keybinds[1].trigger, "ctrl+v");
    assert_eq!(keybinds[1].action, "paste");
}

#[test]
fn test_parse_keybind_list_empty() {
    let keybinds = parse_keybind_list("");
    assert!(keybinds.is_empty());
}

#[test]
fn test_parse_keybind_list_skips_blank_lines() {
    let input = "keybind = ctrl+c=copy\n\n\nkeybind = ctrl+v=paste\n";
    let keybinds = parse_keybind_list(input);
    assert_eq!(keybinds.len(), 2);
}

#[test]
fn test_parse_keybind_list_complex_trigger() {
    let input = "keybind = ctrl+shift+n=new_window\n";
    let keybinds = parse_keybind_list(input);
    assert_eq!(keybinds.len(), 1);
    assert_eq!(keybinds[0].trigger, "ctrl+shift+n");
    assert_eq!(keybinds[0].action, "new_window");
}

#[test]
fn test_parse_keybind_list_action_with_params() {
    // Some actions have parameters after a colon
    let input = "keybind = ctrl+1=goto_tab:1\n";
    let keybinds = parse_keybind_list(input);
    assert_eq!(keybinds.len(), 1);
    assert_eq!(keybinds[0].trigger, "ctrl+1");
    assert_eq!(keybinds[0].action, "goto_tab:1");
}
