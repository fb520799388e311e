use git_lineage::app::{App, CommitInfo, PanelFocus};
use git_lineage::navigator::NavigatorState;
use git_lineage::tasks::{Effect, Key, Task};
use git_lineage::tree::{FileTree, TreeNode};

fn commits(n: usize) -> Vec<CommitInfo> {
    (0..n)
        .map(|i| CommitInfo {
            hash: format!("{:040}", i),
            short_hash: format!("{:08}", i),
            author: "A".to_string(),
            date: "2023-01-01".to_string(),
            subject: format!("commit {}", i),
        })
        .collect()
}

fn app_with_tree() -> App {
    let mut app = App::new();
    let mut tree = FileTree::new();
    let mut src = TreeNode::new_dir("src".to_string(), "src".to_string());
    src.add_child(TreeNode::new_file("main.rs".to_string(), "src/main.rs".to_string()));
    tree.root.push(src);
    tree.root.push(TreeNode::new_file("README.md".to_string(), "README.md".to_string()));
    app.navigator = NavigatorState::new(tree);
    app
}

#[test]
fn q_quits_and_tab_cycles() {
    let mut app = App::new();
    let (handled, effect) = app.handle_event(Key::Tab);
    assert!(handled);
    assert!(matches!(effect, Effect::Nothing));
    assert_eq!(app.ui.active_panel, PanelFocus::History);
    app.handle_event(Key::BackTab);
    assert_eq!(app.ui.active_panel, PanelFocus::Navigator);
    let (handled, _) = app.handle_event(Key::Char('q'));
    assert!(handled);
    assert!(app.should_quit);
}

#[test]
fn digits_focus_panels() {
    let mut app = App::new();
    app.handle_event(Key::Char('3'));
    assert_eq!(app.ui.active_panel, PanelFocus::Inspector);
    app.handle_event(Key::Char('2'));
    assert_eq!(app.ui.active_panel, PanelFocus::History);
    app.handle_event(Key::Char('1'));
    assert_eq!(app.ui.active_panel, PanelFocus::Navigator);
}

#[test]
fn enter_on_a_file_loads_its_history() {
    let mut app = app_with_tree();
    app.handle_event(Key::Down);
    app.handle_event(Key::Down);
    assert_eq!(app.navigator.get_selection(), Some("README.md".to_string()));
    let (handled, effect) = app.handle_event(Key::Enter);
    assert!(handled);
    assert_eq!(app.active_file_context, Some("README.md".to_string()));
    assert_eq!(app.ui.active_panel, PanelFocus::History);
    assert!(app.ui.is_loading);
    assert_eq!(app.ui.status_message, "Loading history for README.md...");
    assert!(matches!(
        effect,
        Effect::Run(Task::LoadCommitHistoryStreaming { ref file_path }) if file_path == "README.md"
    ));
}

#[test]
fn enter_on_a_directory_toggles_it() {
    let mut app = app_with_tree();
    app.handle_event(Key::Down);
    assert_eq!(app.navigator.get_selection(), Some("src".to_string()));
    let (_, effect) = app.handle_event(Key::Enter);
    assert!(matches!(effect, Effect::Nothing));
    assert_eq!(app.ui.active_panel, PanelFocus::Navigator);
    assert_eq!(app.navigator.build_view_model().items.len(), 3);
}

#[test]
fn typing_in_search_mode_builds_the_query() {
    let mut app = app_with_tree();
    app.handle_event(Key::Char('/'));
    assert!(app.navigator.is_searching());
    app.handle_event(Key::Char('m'));
    app.handle_event(Key::Char('a'));
    app.handle_event(Key::Char('x'));
    assert_eq!(app.navigator.get_search_query(), "max");
    app.handle_event(Key::Backspace);
    assert_eq!(app.navigator.get_search_query(), "ma");
    // While searching, 'q' is typed into the query and Tab stays in the panel.
    app.handle_event(Key::Char('q'));
    assert_eq!(app.navigator.get_search_query(), "maq");
    assert!(!app.should_quit);
    app.handle_event(Key::Tab);
    assert_eq!(app.ui.active_panel, PanelFocus::Navigator);
    // Esc ends the search without quitting.
    app.handle_event(Key::Esc);
    assert!(!app.navigator.is_searching());
    assert!(!app.should_quit);
    // Outside a search, Esc quits.
    app.handle_event(Key::Esc);
    assert!(app.should_quit);
}

#[test]
fn history_keys_switch_commits() {
    let mut app = App::new();
    app.active_file_context = Some("src/main.rs".to_string());
    app.history.commit_list = commits(3);
    app.history.history_complete = true;
    app.ui.active_panel = PanelFocus::History;
    let (_, effect) = app.handle_event(Key::Down);
    assert_eq!(app.history.selected_commit_index, Some(0));
    assert!(matches!(effect, Effect::LoadContent { .. }));
    let (_, effect) = app.handle_event(Key::Down);
    assert_eq!(app.history.selected_commit_index, Some(1));
    assert_eq!(app.history.selected_commit_hash, Some(format!("{:040}", 1)));
    assert!(matches!(
        effect,
        Effect::LoadContent { ref commit_hash, ref file_path }
            if *commit_hash == format!("{:040}", 1) && file_path == "src/main.rs"
    ));
    app.handle_event(Key::Up);
    assert_eq!(app.history.selected_commit_index, Some(0));
    app.handle_event(Key::Char('['));
    assert_eq!(app.history.selected_commit_index, Some(1));
    app.handle_event(Key::Char(']'));
    assert_eq!(app.history.selected_commit_index, Some(0));
    app.handle_event(Key::Enter);
    assert_eq!(app.ui.active_panel, PanelFocus::Inspector);
}

#[test]
fn moving_past_the_last_commit_asks_for_more() {
    let mut app = App::new();
    app.active_file_context = Some("src/main.rs".to_string());
    app.history.commit_list = commits(2);
    app.history.selected_commit_index = Some(1);
    app.history.next_chunk_offset = 2;
    app.ui.active_panel = PanelFocus::History;
    let (handled, effect) = app.handle_event(Key::Down);
    assert!(handled);
    assert!(app.history.is_loading_more);
    assert_eq!(app.ui.status_message, "Loading more commits...");
    assert!(matches!(
        effect,
        Effect::Run(Task::LoadCommitHistoryProgressive { ref file_path, chunk_size: 50, start_offset: 2 })
            if file_path == "src/main.rs"
    ));
    let (_, again) = app.handle_event(Key::Down);
    assert!(matches!(again, Effect::Nothing));
}

#[test]
fn inspector_cursor_moves_within_the_file() {
    let mut app = App::new();
    app.ui.active_panel = PanelFocus::Inspector;
    app.inspector.current_content = (0..30).map(|i| format!("line {}", i)).collect();
    app.inspector.visible_height = 10;
    app.handle_event(Key::Down);
    assert_eq!(app.inspector.cursor_line, 1);
    app.handle_event(Key::PageDown);
    assert_eq!(app.inspector.cursor_line, 9);
    app.handle_event(Key::End);
    assert_eq!(app.inspector.cursor_line, 29);
    app.handle_event(Key::Down);
    assert_eq!(app.inspector.cursor_line, 29);
    app.handle_event(Key::Char('g'));
    assert_eq!(app.inspector.cursor_line, 0);
    app.handle_event(Key::Up);
    assert_eq!(app.inspector.cursor_line, 0);
    app.handle_event(Key::Char('G'));
    assert_eq!(app.inspector.cursor_line, 29);
    app.handle_event(Key::PageUp);
    assert_eq!(app.inspector.cursor_line, 21);
    app.handle_event(Key::Home);
    assert_eq!(app.inspector.cursor_line, 0);
    app.handle_event(Key::Right);
    app.handle_event(Key::Right);
    app.handle_event(Key::Left);
    assert_eq!(app.inspector.scroll_horizontal, 1);
}

#[test]
fn next_change_is_searched_from_the_cursor() {
    let mut app = App::new();
    app.ui.active_panel = PanelFocus::Inspector;
    app.active_file_context = Some("src/main.rs".to_string());
    app.history.selected_commit_hash = Some("abc12345".to_string());
    app.inspector.cursor_line = 4;
    let (handled, effect) = app.handle_event(Key::Char('n'));
    assert!(handled);
    assert!(app.ui.is_loading);
    assert_eq!(app.ui.status_message, "Searching for next change...");
    assert!(matches!(
        effect,
        Effect::Run(Task::FindNextChange { ref file_path, ref current_commit, line_number: 4 })
            if file_path == "src/main.rs" && current_commit == "abc12345"
    ));
    let (_, _) = app.handle_event(Key::Char('p'));
    assert_eq!(app.ui.status_message, "Searching for previous change...");
}

#[test]
fn diff_view_asks_for_the_parent_commit() {
    let mut app = App::new();
    app.ui.active_panel = PanelFocus::Inspector;
    app.active_file_context = Some("src/main.rs".to_string());
    app.history.selected_commit_hash = Some("abc12345def".to_string());
    let (_, effect) = app.handle_event(Key::Char('d'));
    assert!(app.inspector.show_diff_view);
    assert!(matches!(
        effect,
        Effect::FindParent { ref commit_hash, ref file_path }
            if commit_hash == "abc12345def" && file_path == "src/main.rs"
    ));
    let task = app.apply_parent_commit(
        &"abc12345def".to_string(),
        &"src/main.rs".to_string(),
        Ok(Some("fff".to_string())),
    );
    assert!(matches!(task, Some(Task::GenerateDiff { ref parent_commit, .. }) if parent_commit == "fff"));
    assert_eq!(app.inspector.parent_commit_hash, Some("fff".to_string()));
    assert!(app.ui.is_loading);

    let mut root = App::new();
    root.inspector.show_diff_view = true;
    let none = root.apply_parent_commit(&"abc12345".to_string(), &"f".to_string(), Ok(None));
    assert!(none.is_none());
    assert!(!root.inspector.show_diff_view);
    assert_eq!(root.ui.status_message, "No parent commit - this is the initial commit");
}

#[test]
fn finishing_a_commit_switch_shows_the_text() {
    let mut app = App::new();
    app.inspector.cursor_line = 3;
    app.finish_commit_switch(
        &"c1".to_string(),
        &"f.rs".to_string(),
        Ok(vec!["a".to_string(), "b".to_string()]),
        &Err("no earlier commit".to_string()),
    );
    assert_eq!(app.inspector.current_content, vec!["a".to_string(), "b".to_string()]);
    assert_eq!(app.inspector.cursor_line, 0);
    assert_eq!(app.ui.status_message, "Positioned cursor at top of file");
    assert_eq!(app.last_commit_for_mapping, Some("c1".to_string()));

    app.finish_commit_switch(&"c2".to_string(), &"f.rs".to_string(), Err("gone".to_string()), &Err("x".to_string()));
    assert!(app.inspector.current_content.is_empty());
    assert_eq!(app.ui.status_message, "Error loading file: gone");
    assert_eq!(app.last_commit_for_mapping, Some("c2".to_string()));
}
