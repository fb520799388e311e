use git_lineage::app::{App, PanelFocus};
use git_lineage::command::Command;
use git_lineage::executor::Executor;
use git_lineage::test_config::TestConfig;

fn config() -> TestConfig {
    TestConfig::from_app(&App::new())
}

#[test]
fn three_panel_switches_come_back() {
    for start in [PanelFocus::Navigator, PanelFocus::History, PanelFocus::Inspector] {
        let mut c = config();
        c.active_panel = start;
        c.cursor_line = usize::MAX;
        let a = Executor::execute(&c, Command::NextPanel);
        let expected = match start {
            PanelFocus::Navigator => PanelFocus::History,
            PanelFocus::History => PanelFocus::Inspector,
            PanelFocus::Inspector => PanelFocus::Navigator,
        };
        assert_eq!(a.config.active_panel, expected);
        assert_eq!(a.status_message, Some(format!("Switched to {:?} panel", expected)));
        assert_eq!(a.config.status_message, format!("Switched to {:?} panel", expected));
        let back = Executor::execute(&a.config, Command::PreviousPanel);
        assert_eq!(back.config.active_panel, start);
        let b = Executor::execute(&a.config, Command::NextPanel);
        let d = Executor::execute(&b.config, Command::NextPanel);
        assert_eq!(d.config.active_panel, start);
        assert!(!d.should_quit);
    }
}

#[test]
fn backspace_undoes_search_input() {
    let mut c = config();
    c.active_panel = PanelFocus::Navigator;
    c.in_search_mode = true;
    c.search_query = "ma".to_string();
    let a = Executor::execute(&c, Command::SearchInput('é'));
    assert_eq!(a.config.search_query, "maé");
    assert_eq!(a.status_message, Some("Search: maé".to_string()));
    let b = Executor::execute(&a.config, Command::SearchBackspace);
    assert_eq!(b.config.search_query, "ma");
    assert_eq!(b.status_message, Some("Search: ma".to_string()));
}

#[test]
fn search_input_outside_search_mode_changes_nothing() {
    let mut c = config();
    c.active_panel = PanelFocus::Navigator;
    c.in_search_mode = false;
    let a = Executor::execute(&c, Command::SearchInput('x'));
    assert_eq!(a.config.search_query, "");
    assert_eq!(a.status_message, None);
}

#[test]
fn only_commands_that_count_past_the_limit_do_not_fit() {
    let mut c = config();
    c.cursor_line = usize::MAX - 5;
    c.active_panel = PanelFocus::Navigator;
    assert!(Executor::fits_command(&c, &Command::InspectorPageDown));
    c.active_panel = PanelFocus::Inspector;
    assert!(!Executor::fits_command(&c, &Command::InspectorPageDown));
    assert!(Executor::fits_command(&c, &Command::PreviousChange));
    assert!(Executor::fits_command(&c, &Command::InspectorDown));
    c.cursor_line = usize::MAX;
    assert!(!Executor::fits_command(&c, &Command::PreviousChange));
    let r = Executor::execute(&c, Command::InspectorHome);
    assert_eq!(r.config.cursor_line, 0);

    let seq = Command::Sequence(vec![Command::InspectorHome, Command::InspectorPageDown]);
    assert!(Executor::fits_command(&c, &seq));
    let r = Executor::execute(&c, seq);
    assert_eq!(r.config.cursor_line, 0);
    let stop = Command::Sequence(vec![Command::Quit, Command::InspectorPageDown]);
    assert!(Executor::fits_command(&c, &stop));
    let bad = Command::Sequence(vec![Command::InspectorDown, Command::PreviousChange]);
    assert!(!Executor::fits_command(&c, &bad));

    c.cursor_column = usize::MAX;
    assert!(!Executor::fits_command(&c, &Command::InspectorRight));
    c.active_panel = PanelFocus::History;
    assert!(Executor::fits_command(&c, &Command::InspectorRight));
}
