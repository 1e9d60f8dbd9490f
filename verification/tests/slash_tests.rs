use forge_display::menu::MenuItems;
use forge_display::menu::SlashCommand;
use forge_display::menu::menu_visible_for;

#[test]
fn test_slash_command_to_string() {
    let fixture = SlashCommand::Agent;
    let actual = fixture.name();
    let expected = "agent";
    assert_eq!(actual, expected);
}

#[test]
fn test_slash_command_from_string() {
    let fixture = "forge";
    let actual = SlashCommand::from_name(fixture).unwrap();
    let expected = SlashCommand::Forge;
    assert_eq!(actual, expected);
}

#[test]
fn test_slash_command_description() {
    let fixture = SlashCommand::Agent;
    let actual = fixture.description();
    let expected = "Switch between different AI agents.";
    assert_eq!(actual, expected);
}

#[test]
fn test_enum_iteration() {
    let fixture = SlashCommand::all();
    let actual = fixture.len();
    let expected = 14;
    assert_eq!(actual, expected);
}

#[test]
fn test_demonstration_of_slash_command_usage() {
    let fixture = "forge";
    let actual = SlashCommand::from_name(fixture).unwrap();
    let expected = SlashCommand::Forge;
    assert_eq!(actual, expected);

    let fixture = SlashCommand::Agent;
    let actual = fixture.description();
    let expected = "Switch between different AI agents.";
    assert_eq!(actual, expected);
}

#[test]
fn test_fuzzy_matches_exact() {
    let fixture = SlashCommand::Agent;
    let actual = fixture.fuzzy_matches("agent");
    let expected = true;
    assert_eq!(actual, expected);
}

#[test]
fn test_fuzzy_matches_partial() {
    let fixture = SlashCommand::Agent;
    let actual = fixture.fuzzy_matches("ag");
    let expected = true;
    assert_eq!(actual, expected);
}

#[test]
fn test_fuzzy_matches_scattered() {
    let fixture = SlashCommand::Update;
    let actual = fixture.fuzzy_matches("udt");
    let expected = true;
    assert_eq!(actual, expected);
}

#[test]
fn test_fuzzy_matches_case_insensitive() {
    let fixture = SlashCommand::Agent;
    let actual = fixture.fuzzy_matches("AGENT");
    let expected = true;
    assert_eq!(actual, expected);
}

#[test]
fn test_fuzzy_matches_no_match() {
    let fixture = SlashCommand::Agent;
    let actual = fixture.fuzzy_matches("xyz");
    let expected = false;
    assert_eq!(actual, expected);
}

#[test]
fn test_fuzzy_matches_empty_query() {
    let fixture = SlashCommand::Agent;
    let actual = fixture.fuzzy_matches("");
    let expected = true;
    assert_eq!(actual, expected);
}

#[test]
fn test_fuzzy_filter() {
    let fixture = "ag";
    let actual = SlashCommand::fuzzy_filter(fixture);
    let expected = vec![SlashCommand::Agent];
    assert_eq!(actual, expected);
}

#[test]
fn test_fuzzy_filter_multiple_matches() {
    let fixture = "e";
    let actual = SlashCommand::fuzzy_filter(fixture);
    let expected_count = 8;
    assert_eq!(actual.len(), expected_count);
    assert!(actual.contains(&SlashCommand::Help));
    assert!(actual.contains(&SlashCommand::Exit));
    assert!(actual.contains(&SlashCommand::Agent));
    assert!(actual.contains(&SlashCommand::Model));
    assert!(actual.contains(&SlashCommand::Muse));
    assert!(actual.contains(&SlashCommand::Update));
    assert!(actual.contains(&SlashCommand::Forge));
    assert!(actual.contains(&SlashCommand::New));
}

#[test]
fn test_fuzzy_filter_no_matches() {
    let fixture = "xyz";
    let actual = SlashCommand::fuzzy_filter(fixture);
    let expected = vec![];
    assert_eq!(actual, expected);
}

#[test]
fn test_from_name_unknown() {
    assert_eq!(SlashCommand::from_name("nothing"), None);
    assert_eq!(SlashCommand::from_name("AGENT"), None);
}

#[test]
fn test_menu_visibility_rules() {
    // normal mode always shows the menu
    assert!(menu_visible_for(true, ""));
    assert!(menu_visible_for(true, "anything"));
    // insert mode: only a slash search with matches shows it
    assert!(!menu_visible_for(false, "hello"));
    assert!(menu_visible_for(false, "/exit"));
    assert!(menu_visible_for(false, "/"));
    assert!(!menu_visible_for(false, "/xyz"));
    assert!(!menu_visible_for(false, ""));
}

#[test]
fn test_menu_items_catalog() {
    let items = MenuItems::new();
    assert_eq!(items.count(), 14);
    let list = items.to_vec();
    assert_eq!(list.len(), 14);
    assert_eq!(list[0].title, "Agent");
    assert_eq!(list[0].description, "Switch between different agents");
    assert_eq!(list[0].shortcut, 'a');
    assert_eq!(list[13].title, "Update");
    assert_eq!(list[13].shortcut, 'p');
}
