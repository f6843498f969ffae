use nextboot_boot::ui::{
    default_menu_selection, default_plugin_choice, file_name_of, has_duplicate_filename, menu_label,
    menu_timeout_for_selection, plugin_choice_step, plugin_choice_timeout, should_prompt_for_plugin_choice,
    valid_plugin_choice, ChoiceStep, MenuInput,
};

#[test]
fn plugin_choices_prompt_unless_settled() {
    assert!(!should_prompt_for_plugin_choice(Some(1), None, 0));
    assert!(!should_prompt_for_plugin_choice(Some(2), None, 2));
    assert!(should_prompt_for_plugin_choice(Some(2), Some(5), 2));
    assert!(should_prompt_for_plugin_choice(Some(3), None, 2));
    assert!(should_prompt_for_plugin_choice(None, None, 1));
    assert_eq!(valid_plugin_choice(Some(0), 2), Some(0));
    assert_eq!(valid_plugin_choice(Some(3), 2), None);
    assert_eq!(default_plugin_choice(Some(2), 3), 2);
    assert_eq!(default_plugin_choice(None, 3), 1);
    assert_eq!(default_plugin_choice(Some(9), 0), 0);
    assert_eq!(plugin_choice_timeout(Some(0)), None);
    assert_eq!(plugin_choice_timeout(Some(7)), Some(7));
    assert_eq!(plugin_choice_timeout(None), None);
}

#[test]
fn plugin_choice_keys_move_within_the_entries() {
    assert_eq!(plugin_choice_step(0, 2, MenuInput::Up), ChoiceStep::Highlight(2));
    assert_eq!(plugin_choice_step(1, 2, MenuInput::Up), ChoiceStep::Highlight(0));
    assert_eq!(plugin_choice_step(2, 2, MenuInput::Down), ChoiceStep::Highlight(0));
    assert_eq!(plugin_choice_step(0, 2, MenuInput::Down), ChoiceStep::Highlight(1));
    assert_eq!(plugin_choice_step(1, 2, MenuInput::PageUp), ChoiceStep::Highlight(0));
    assert_eq!(plugin_choice_step(1, 2, MenuInput::End), ChoiceStep::Highlight(2));
    assert_eq!(plugin_choice_step(1, 2, MenuInput::Enter), ChoiceStep::Choose(1));
    assert_eq!(plugin_choice_step(1, 2, MenuInput::Escape), ChoiceStep::Cancel);
    assert_eq!(plugin_choice_step(0, 2, MenuInput::Char('2')), ChoiceStep::Highlight(2));
    assert_eq!(plugin_choice_step(0, 2, MenuInput::Char('3')), ChoiceStep::Highlight(0));
    assert_eq!(plugin_choice_step(1, 2, MenuInput::Char('x')), ChoiceStep::Highlight(1));
    assert_eq!(plugin_choice_step(1, 2, MenuInput::Other), ChoiceStep::Highlight(1));
}

#[test]
fn menu_starts_on_the_default_image() {
    assert_eq!(default_menu_selection(&[false, true, true]), 1);
    assert_eq!(default_menu_selection(&[false, false]), 0);
    assert_eq!(default_menu_selection(&[]), 0);
    assert_eq!(menu_timeout_for_selection(&[None, Some(5), Some(9)], 2), Some(9));
    assert_eq!(menu_timeout_for_selection(&[None, Some(5), None], 2), Some(5));
    assert_eq!(menu_timeout_for_selection(&[None, None], 7), None);
}

#[test]
fn entries_are_labelled_by_file_name() {
    assert_eq!(file_name_of("/iso/win11.iso"), "win11.iso");
    assert_eq!(file_name_of("plain.iso"), "plain.iso");
    assert_eq!(file_name_of("/dir/"), "");
    let paths = vec!["/a/x.iso".to_string(), "/b/x.iso".to_string(), "/c/y.iso".to_string()];
    assert!(has_duplicate_filename(&paths, "x.iso"));
    assert!(!has_duplicate_filename(&paths, "y.iso"));
    assert_eq!(menu_label("/a/x.iso", None, true, 12), "x.iso [vol 12]");
    assert_eq!(menu_label("/a/x.iso", None, true, 0), "x.iso [vol 0]");
    assert_eq!(menu_label("/c/y.iso", None, false, 3), "y.iso");
    assert_eq!(menu_label("/c/y.iso", Some("Windows 11"), true, 3), "Windows 11");
}
