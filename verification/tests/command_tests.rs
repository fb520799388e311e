use git_lineage::command::Command;

#[test]
fn test_command_parsing() {
    assert_eq!(Command::from_string("next_panel").unwrap(), Command::NextPanel);
    assert_eq!(Command::from_string("tab").unwrap(), Command::NextPanel);
    assert_eq!(Command::from_string("up").unwrap(), Command::NavigateUp);
    assert_eq!(Command::from_string("search:a").unwrap(), Command::SearchInput('a'));

    assert!(Command::from_string("invalid").is_err());
    assert!(Command::from_string("").is_err());
    assert!(Command::from_string("down,up,quit").is_err());
}

#[test]
fn test_command_to_string() {
    assert_eq!(Command::NextPanel.to_string(), "next_panel");
    assert_eq!(Command::SearchInput('x').to_string(), "search:x");
    assert_eq!(Command::ToggleDiff.to_string(), "toggle_diff");
}

#[test]
fn command_round_trip_through_text() {
    let cmds = vec![
        Command::NextPanel,
        Command::PreviousPanel,
        Command::Quit,
        Command::InspectorPageDown,
        Command::SearchInput('z'),
        Command::ToggleDiff,
    ];
    for c in cmds {
        let text = c.to_string();
        assert_eq!(Command::from_string(&text).unwrap(), c);
    }
}

#[test]
fn sequences_of_commands_round_trip_through_text() {
    let seq = Command::Sequence(vec![
        Command::StartSearch,
        Command::SearchInput('Q'),
        Command::SearchInput('/'),
        Command::SearchBackspace,
        Command::EndSearch,
        Command::GoToBottom,
    ]);
    let text = seq.to_string();
    assert_eq!(text, "sequence:[start_search,search:Q,search:/,search_backspace,end_search,goto_bottom]");
    assert_eq!(Command::from_string(&text).unwrap(), seq);
    let empty = Command::Sequence(vec![]);
    assert_eq!(Command::from_string(&empty.to_string()).unwrap(), empty);
}

#[test]
fn search_inputs_of_any_character_round_trip() {
    for ch in ['é', 'Σ', 'K', ',', ' ', 'Z', '日'] {
        let c = Command::SearchInput(ch);
        assert_eq!(Command::from_string(&c.to_string()).unwrap(), c);
    }
    let seq = Command::Sequence(vec![Command::SearchInput('ß'), Command::SearchInput('İ'), Command::NextPanel]);
    assert_eq!(Command::from_string(&seq.to_string()).unwrap(), seq);
}
