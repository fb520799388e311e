use git_lineage::cli::{Cli, Commands};
use git_lineage::config::{KeybindingConfig, LayoutConfig};

#[test]
fn layout_defaults() {
    let l = LayoutConfig::default();
    assert_eq!(l.left_panel_width, 35);
    assert_eq!(l.file_navigator_height, 50);
    assert!(l.show_line_numbers);
    assert_eq!(l.tab_size, 4);
}

#[test]
fn key_defaults() {
    let k = KeybindingConfig::default();
    assert_eq!(k.quit, 'q');
    assert_eq!(k.next_panel, '\t');
    assert_eq!(k.previous_change, 'p');
    assert_eq!(k.next_change, 'n');
    assert_eq!(k.toggle_diff, 'd');
    assert_eq!(k.search, '/');
    assert_eq!(k.goto_top, 'g');
    assert_eq!(k.goto_bottom, 'G');
}

#[test]
fn no_command_runs_the_interface() {
    assert_eq!(Cli { command: None }.into_command(), Commands::Run);
    let c = Commands::SaveState { output: Some("state.json".to_string()) };
    assert_eq!(Cli { command: Some(c.clone()) }.into_command(), c);
}
