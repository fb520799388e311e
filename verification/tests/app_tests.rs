use git_lineage::app::{App, CommitInfo, PanelFocus};
use git_lineage::navigator::{NavigatorEvent, NavigatorState};
use git_lineage::tasks::{handle_task_result, Effect, TaskResult};
use git_lineage::test_config::TestConfig;
use git_lineage::tree::{FileTree, TreeNode};

fn create_test_file_tree() -> FileTree {
    let mut tree = FileTree::new();
    tree.root.push(TreeNode::new_file("main.rs".to_string(), "src/main.rs".to_string()));
    tree.root.push(TreeNode::new_file("lib.rs".to_string(), "src/lib.rs".to_string()));
    tree.root.push(TreeNode::new_file("test.rs".to_string(), "tests/test.rs".to_string()));
    tree
}

fn create_test_commits() -> Vec<CommitInfo> {
    vec![
        CommitInfo {
            hash: "abc123def456".to_string(),
            short_hash: "abc123".to_string(),
            author: "Alice Developer".to_string(),
            date: "2023-01-01".to_string(),
            subject: "Initial commit".to_string(),
        },
        CommitInfo {
            hash: "def456ghi789".to_string(),
            short_hash: "def456".to_string(),
            author: "Bob Coder".to_string(),
            date: "2023-01-02".to_string(),
            subject: "Add feature".to_string(),
        },
    ]
}

fn create_test_app() -> App {
    let mut app = App::new();
    let mut tree = FileTree::new();
    tree.root.push(TreeNode::new_file("main.rs".to_string(), "src/main.rs".to_string()));
    app.navigator = NavigatorState::new(tree);
    app.history.commit_list = vec![CommitInfo {
        hash: "abc123".to_string(),
        short_hash: "abc123".to_string(),
        author: "Test Author".to_string(),
        date: "2023-01-01".to_string(),
        subject: "Test commit".to_string(),
    }];
    app
}

fn not_found() -> Result<(String, String), String> {
    Err("file not found at commit".to_string())
}

#[test]
fn test_new_app_default_state() {
    let app = App::new();

    assert_eq!(app.ui.active_panel, PanelFocus::Navigator);
    assert!(!app.should_quit);
    assert!(!app.navigator.is_searching());
    assert_eq!(app.navigator.get_search_query(), "");
    assert_eq!(app.navigator.get_selection(), None);
    let view_model = app.navigator.build_view_model();
    assert_eq!(view_model.scroll_offset, 0);
    assert_eq!(view_model.cursor_position, 0);
    assert!(app.history.commit_list.is_empty());
    assert_eq!(app.history.selected_commit_hash, None);
    assert!(app.inspector.current_content.is_empty());
    assert_eq!(app.inspector.current_blame, None);
    assert_eq!(app.inspector.scroll_vertical, 0);
    assert_eq!(app.inspector.scroll_horizontal, 0);
    assert_eq!(app.inspector.cursor_line, 0);
    assert_eq!(app.inspector.cursor_column, 0);
    assert!(!app.inspector.show_diff_view);
    assert_eq!(app.ui.status_message, "Ready");
    assert!(!app.ui.is_loading);
}

#[test]
fn test_from_test_config_basic() {
    let mut config = TestConfig::default();
    config.active_panel = PanelFocus::History;
    config.status_message = "Test status".to_string();
    config.is_loading = true;

    let app = App::from_test_config(&config);

    assert_eq!(app.ui.active_panel, PanelFocus::History);
    assert_eq!(app.ui.status_message, "Test status");
    assert!(app.ui.is_loading);
    assert!(!app.should_quit);
}

#[test]
fn test_from_test_config_with_file_tree() {
    let mut config = TestConfig::default();
    config.file_tree = create_test_file_tree();
    config.search_query = "test search".to_string();
    config.in_search_mode = true;

    let mut app = App::from_test_config(&config);

    assert_eq!(app.navigator.get_search_query(), "test search");
    assert!(app.navigator.is_searching());
    app.navigator.handle_event(NavigatorEvent::EndSearch).unwrap();
    assert_eq!(app.navigator.build_view_model().items.len(), 3);
}

#[test]
fn test_from_test_config_with_commits() {
    let mut config = TestConfig::default();
    config.commit_list = create_test_commits();
    config.selected_commit_index = Some(1);

    let app = App::from_test_config(&config);

    assert_eq!(app.history.commit_list.len(), 2);
    assert_eq!(app.history.selected_commit_index, Some(1));
    assert_eq!(app.history.selected_commit_hash, Some("def456ghi789".to_string()));
}

#[test]
fn test_from_test_config_with_content() {
    let mut config = TestConfig::default();
    config.current_content = vec!["line 1".to_string(), "line 2".to_string()];
    config.inspector_scroll_vertical = 5;
    config.inspector_scroll_horizontal = 10;
    config.cursor_line = 2;
    config.cursor_column = 15;
    config.show_diff_view = true;

    let app = App::from_test_config(&config);

    assert_eq!(app.inspector.current_content.len(), 2);
    assert_eq!(app.inspector.scroll_vertical, 5);
    assert_eq!(app.inspector.scroll_horizontal, 10);
    assert_eq!(app.inspector.cursor_line, 2);
    assert_eq!(app.inspector.cursor_column, 15);
    assert!(app.inspector.show_diff_view);
}

#[test]
fn test_from_test_config_invalid_commit_index() {
    let mut config = TestConfig::default();
    config.commit_list = create_test_commits();
    config.selected_commit_index = Some(10);

    let app = App::from_test_config(&config);

    assert_eq!(app.history.selected_commit_index, None);
    assert_eq!(app.history.selected_commit_hash, None);
}

#[test]
fn test_from_test_config_with_empty_commit_list() {
    let mut config = TestConfig::default();
    config.commit_list = vec![];
    config.selected_commit_index = Some(0);

    let app = App::from_test_config(&config);

    assert_eq!(app.history.selected_commit_index, None);
    assert_eq!(app.history.selected_commit_hash, None);
}

#[test]
fn test_next_panel_from_navigator() {
    let mut app = App::new();
    app.ui.active_panel = PanelFocus::Navigator;
    app.next_panel();
    assert_eq!(app.ui.active_panel, PanelFocus::History);
}

#[test]
fn test_next_panel_from_history() {
    let mut app = App::new();
    app.ui.active_panel = PanelFocus::History;
    app.next_panel();
    assert_eq!(app.ui.active_panel, PanelFocus::Inspector);
}

#[test]
fn test_next_panel_from_inspector() {
    let mut app = App::new();
    app.ui.active_panel = PanelFocus::Inspector;
    app.next_panel();
    assert_eq!(app.ui.active_panel, PanelFocus::Navigator);
}

#[test]
fn test_previous_panel_from_navigator() {
    let mut app = App::new();
    app.ui.active_panel = PanelFocus::Navigator;
    app.previous_panel();
    assert_eq!(app.ui.active_panel, PanelFocus::Inspector);
}

#[test]
fn test_previous_panel_from_history() {
    let mut app = App::new();
    app.ui.active_panel = PanelFocus::History;
    app.previous_panel();
    assert_eq!(app.ui.active_panel, PanelFocus::Navigator);
}

#[test]
fn test_previous_panel_from_inspector() {
    let mut app = App::new();
    app.ui.active_panel = PanelFocus::Inspector;
    app.previous_panel();
    assert_eq!(app.ui.active_panel, PanelFocus::History);
}

#[test]
fn three_steps_forward_come_back_to_the_same_panel() {
    let mut app = App::new();
    for start in [PanelFocus::Navigator, PanelFocus::History, PanelFocus::Inspector] {
        app.ui.active_panel = start;
        app.next_panel();
        app.next_panel();
        app.next_panel();
        assert_eq!(app.ui.active_panel, start);
        app.next_panel();
        app.previous_panel();
        assert_eq!(app.ui.active_panel, start);
    }
}

#[test]
fn test_save_and_restore_cursor_position() {
    let mut app = App::new();
    let file_path = "test.txt";
    let commit_hash = "abc123";

    app.inspector.cursor_line = 5;
    app.save_cursor_position(commit_hash, file_path);
    app.inspector.cursor_line = 10;

    let restored = app.restore_cursor_position(commit_hash, file_path);
    assert_eq!(restored, Some(5));

    let not_found = app.restore_cursor_position("different_hash", file_path);
    assert_eq!(not_found, None);

    let not_found_file = app.restore_cursor_position(commit_hash, "other.txt");
    assert_eq!(not_found_file, None);
}

#[test]
fn saving_again_replaces_the_earlier_position() {
    let mut app = App::new();
    app.inspector.cursor_line = 5;
    app.save_cursor_position("abc", "f.rs");
    app.inspector.cursor_line = 9;
    app.save_cursor_position("abc", "f.rs");
    assert_eq!(app.restore_cursor_position("abc", "f.rs"), Some(9));
}

#[test]
fn test_get_mapped_line_same_commit() {
    let app = App::new();
    let commit_hash = "abc123";
    let mapped_line = app.get_mapped_line(commit_hash, commit_hash, 10, &not_found());
    assert_eq!(mapped_line, 10);
}

#[test]
fn test_apply_smart_cursor_positioning_no_previous_commit() {
    let mut app = App::new();
    let commit_hash = "abc123";
    app.inspector.current_content = vec!["line 0".to_string(), "line 1".to_string(), "line 2".to_string()];

    let message = app.apply_smart_cursor_positioning(commit_hash, "test.txt", &not_found());
    assert_eq!(app.inspector.cursor_line, 0);
    assert_eq!(app.last_commit_for_mapping, None);
    assert_eq!(message, "Positioned cursor at top of file");
}

#[test]
fn test_apply_smart_cursor_positioning_with_saved_position() {
    let mut app = App::new();
    let commit_hash = "abc123";
    app.inspector.current_content = vec!["line 0".to_string(), "line 1".to_string(), "line 2".to_string()];

    app.save_cursor_position(commit_hash, "test.txt");
    app.inspector.cursor_line = 2;

    let message = app.apply_smart_cursor_positioning(commit_hash, "test.txt", &not_found());
    assert_eq!(app.inspector.cursor_line, 0);
    assert_eq!(message, "Restored cursor to saved position (line 1)");
}

#[test]
fn test_apply_smart_cursor_positioning_bounds_checking() {
    let mut app = App::new();
    let commit_hash = "abc123";
    app.inspector.current_content = vec!["line 0".to_string()];

    app.inspector.cursor_line = 100;
    app.save_cursor_position(commit_hash, "test.txt");

    let message = app.apply_smart_cursor_positioning(commit_hash, "test.txt", &not_found());
    assert_eq!(app.inspector.cursor_line, 0);
    assert!(message.contains("Restored cursor to saved position"));
}

#[test]
fn test_get_mapped_line_with_empty_file() {
    let mut app = App::new();
    app.inspector.current_content = vec![];
    let mapped_line = app.get_mapped_line("commit1", "commit2", 5, &not_found());
    assert_eq!(mapped_line, 0);
}

#[test]
fn test_get_mapped_line_with_single_line_file() {
    let mut app = App::new();
    app.inspector.current_content = vec!["single line".to_string()];
    assert_eq!(app.get_mapped_line("commit1", "commit2", 0, &not_found()), 0);
    assert_eq!(app.get_mapped_line("commit1", "commit2", 5, &not_found()), 0);
    assert_eq!(app.get_mapped_line("commit1", "commit2", 100, &not_found()), 0);
}

#[test]
fn test_get_mapped_line_boundary_conditions() {
    let mut app = App::new();
    app.inspector.current_content = (0..5).map(|i| format!("line {}", i)).collect();
    let len = app.inspector.current_content.len();
    assert!(app.get_mapped_line("commit1", "commit2", 0, &not_found()) < len);
    assert!(app.get_mapped_line("commit1", "commit2", 4, &not_found()) < len);
    assert!(app.get_mapped_line("commit1", "commit2", 100, &not_found()) < len);
}

#[test]
fn test_get_mapped_line_proportional_fallback_bounds() {
    let mut app = App::new();
    app.inspector.current_content = vec!["line 0".to_string(), "line 1".to_string()];
    let mapped_line = app.get_mapped_line("commit1", "commit2", 1000, &not_found());
    assert!(mapped_line < app.inspector.current_content.len());
}

#[test]
fn test_get_mapped_line_zero_line_input() {
    let mut app = App::new();
    app.inspector.current_content = vec!["line 0".to_string(), "line 1".to_string(), "line 2".to_string()];
    let mapped_line = app.get_mapped_line("commit1", "commit2", 0, &not_found());
    assert!(mapped_line < app.inspector.current_content.len());
}

#[test]
fn test_get_mapped_line_large_file_simulation() {
    let mut app = App::new();
    app.inspector.current_content = (0..100).map(|i| format!("line {}", i)).collect();
    let len = app.inspector.current_content.len();
    assert!(app.get_mapped_line("commit1", "commit2", 25, &not_found()) < len);
    assert!(app.get_mapped_line("commit1", "commit2", 50, &not_found()) < len);
    assert!(app.get_mapped_line("commit1", "commit2", 75, &not_found()) < len);
}

#[test]
fn test_get_mapped_line_manual_proportional_fallback_empty_content() {
    let mut app = App::new();
    app.inspector.current_content = vec![];
    assert_eq!(app.get_mapped_line("commit1", "commit2", 10, &not_found()), 0);
}

#[test]
fn test_get_mapped_line_manual_proportional_fallback_calculation() {
    let mut app = App::new();
    app.inspector.current_content = (0..4).map(|i| format!("line {}", i)).collect();
    let len = app.inspector.current_content.len();
    assert!(app.get_mapped_line("commit1", "commit2", 2, &not_found()) < len);
    assert!(app.get_mapped_line("commit1", "commit2", 8, &not_found()) < len);
}

#[test]
fn fallback_scales_the_line_to_the_shown_file() {
    let mut app = App::new();
    app.inspector.current_content = (0..4).map(|i| format!("line {}", i)).collect();
    // 8 of an assumed 9 lines is 3 of 4 after truncation.
    assert_eq!(app.get_mapped_line("commit1", "commit2", 8, &not_found()), 3);
    // line 2 of an assumed 4 lines stays 2.
    assert_eq!(app.get_mapped_line("commit1", "commit2", 2, &not_found()), 2);
}

#[test]
fn mapping_through_the_diff_follows_the_moved_line() {
    let mut app = App::new();
    app.inspector.current_content = vec!["new".to_string(), "a".to_string(), "b".to_string()];
    let contents = Ok(("a\nb\n".to_string(), "new\na\nb\n".to_string()));
    assert_eq!(app.get_mapped_line("c1", "c2", 1, &contents), 2);
    assert_eq!(app.get_mapped_line("c1", "c2", 0, &contents), 1);
}

#[test]
fn smart_positioning_after_a_commit_maps_the_cursor() {
    let mut app = App::new();
    app.inspector.current_content = vec!["new".to_string(), "a".to_string(), "b".to_string()];
    app.last_commit_for_mapping = Some("c1".to_string());
    app.inspector.cursor_line = 1;
    let contents = Ok(("a\nb\n".to_string(), "new\na\nb\n".to_string()));
    let message = app.apply_smart_cursor_positioning("c2", "f.txt", &contents);
    assert_eq!(app.inspector.cursor_line, 2);
    assert_eq!(message, "Line 2 \u{2192} 3 (same content)");
}

#[test]
fn test_handle_commit_history_loaded_race_condition_protection() {
    let mut app = create_test_app();
    app.ui.is_loading = true;

    app.history.commit_list.clear();
    app.history.selected_commit_index = None;

    app.active_file_context = None;

    let commits = vec![CommitInfo {
        hash: "stale123".to_string(),
        short_hash: "stale123".to_string(),
        author: "Stale Author".to_string(),
        date: "2023-01-01".to_string(),
        subject: "Stale commit from previous file".to_string(),
    }];

    let stale_result = TaskResult::CommitHistoryLoaded {
        file_path: "old_file.rs".to_string(),
        commits: commits.clone(),
    };

    handle_task_result(&mut app, stale_result);

    assert!(!app.ui.is_loading);
    assert_eq!(app.history.commit_list.len(), 0);
    assert_eq!(app.history.selected_commit_index, None);
    assert!(app.ui.status_message.contains("ignored"));

    app.active_file_context = Some("current_file.rs".to_string());
    app.ui.is_loading = true;

    let valid_result = TaskResult::CommitHistoryLoaded {
        file_path: "current_file.rs".to_string(),
        commits: commits.clone(),
    };

    let effect = handle_task_result(&mut app, valid_result);

    assert_eq!(app.history.commit_list.len(), 1);
    assert_eq!(app.history.selected_commit_index, Some(0));
    assert!(
        app.ui.status_message.contains("Loaded 1 commits")
            || app.ui.status_message.contains("Failed to load content")
            || app.ui.status_message.contains("Error loading file content")
    );
    assert!(matches!(
        effect,
        Effect::LoadContent { ref commit_hash, ref file_path }
            if commit_hash == "stale123" && file_path == "current_file.rs"
    ));
}

#[test]
fn test_handle_file_tree_loaded() {
    let mut app = create_test_app();
    app.ui.is_loading = true;

    let mut tree = FileTree::new();
    tree.root.push(TreeNode::new_file("test.rs".to_string(), "test.rs".to_string()));

    handle_task_result(&mut app, TaskResult::FileTreeLoaded { files: tree });

    assert!(!app.ui.is_loading);
    let view_model = app.navigator.build_view_model();
    assert_eq!(view_model.items.len(), 1);
    assert_eq!(view_model.scroll_offset, 0);
    assert_eq!(view_model.cursor_position, 0);
    assert!(app.ui.status_message.contains("File tree loaded"));
}

#[test]
fn test_handle_commit_history_loaded_empty() {
    let mut app = create_test_app();
    app.ui.is_loading = true;
    app.active_file_context = Some("empty_file.rs".to_string());

    let effect = handle_task_result(
        &mut app,
        TaskResult::CommitHistoryLoaded { file_path: "empty_file.rs".to_string(), commits: vec![] },
    );

    assert!(!app.ui.is_loading);
    assert_eq!(app.history.commit_list.len(), 0);
    assert_eq!(app.history.selected_commit_index, None);
    assert!(app.ui.status_message.contains("No commits found"));
    assert!(matches!(effect, Effect::Nothing));
}

#[test]
fn test_handle_next_change_found() {
    let mut app = create_test_app();
    app.ui.is_loading = true;
    app.ui.active_panel = PanelFocus::Navigator;

    handle_task_result(&mut app, TaskResult::NextChangeFound { commit_hash: "abc123".to_string() });

    assert!(!app.ui.is_loading);
    assert_eq!(app.history.selected_commit_index, Some(0));
    assert_eq!(app.ui.active_panel, PanelFocus::History);
    assert!(app.ui.status_message.contains("Found next change"));
}

#[test]
fn test_handle_next_change_found_commit_not_in_history() {
    let mut app = create_test_app();
    app.ui.is_loading = true;

    handle_task_result(&mut app, TaskResult::NextChangeFound { commit_hash: "nonexistent".to_string() });

    assert!(!app.ui.is_loading);
    assert!(app.ui.status_message.contains("commit not in history"));
}

#[test]
fn test_handle_next_change_not_found() {
    let mut app = create_test_app();
    app.ui.is_loading = true;

    handle_task_result(&mut app, TaskResult::NextChangeNotFound);

    assert!(!app.ui.is_loading);
    assert!(app.ui.status_message.contains("No subsequent changes found"));
}

#[test]
fn test_handle_error_result() {
    let mut app = create_test_app();
    app.ui.is_loading = true;

    handle_task_result(&mut app, TaskResult::Error { message: "Test error message".to_string() });

    assert!(!app.ui.is_loading);
    assert!(app.ui.status_message.contains("Error: Test error message"));
}

#[test]
fn config_round_trip_keeps_the_recorded_fields() {
    let config = TestConfig::default();
    let app = App::from_test_config(&config);
    let back = TestConfig::from_app(&app);
    assert_eq!(back.active_panel, config.active_panel);
    assert_eq!(back.commit_list.len(), config.commit_list.len());
    assert_eq!(back.selected_commit_index, config.selected_commit_index);
    assert_eq!(back.current_content, config.current_content);
    assert_eq!(back.cursor_line, config.cursor_line);
    assert_eq!(back.cursor_column, config.cursor_column);
    assert_eq!(back.status_message, config.status_message);
    assert_eq!(back.is_loading, config.is_loading);
}

#[test]
fn the_cursor_stays_within_the_shown_file() {
    let mut app = App::new();
    app.inspector.current_content = vec!["a".to_string(), "b".to_string()];
    app.last_commit_for_mapping = Some("c1".to_string());
    app.inspector.cursor_line = 1;
    let contents = Ok(("a\nb\n".to_string(), "x\ny\nz\nw\na\nb\n".to_string()));
    let message = app.apply_smart_cursor_positioning("c2", "f.txt", &contents);
    assert_eq!(app.inspector.cursor_line, 1);
    assert_eq!(message, "Cursor position unchanged");

    app.inspector.current_content = vec![];
    app.inspector.cursor_line = 7;
    app.apply_smart_cursor_positioning("c3", "f.txt", &not_found());
    assert_eq!(app.inspector.cursor_line, 0);
}

#[test]
fn every_task_result_ends_the_loading_state() {
    let results = vec![
        TaskResult::CommitHistoryLoaded { file_path: "f.rs".to_string(), commits: create_test_commits() },
        TaskResult::CommitHistoryLoaded { file_path: "other.rs".to_string(), commits: vec![] },
        TaskResult::NextChangeNotFound,
        TaskResult::NextChangeFound { commit_hash: "missing".to_string() },
        TaskResult::Error { message: "boom".to_string() },
    ];
    for result in results {
        let mut app = App::new();
        app.active_file_context = Some("f.rs".to_string());
        app.ui.is_loading = true;
        handle_task_result(&mut app, result);
        assert!(!app.ui.is_loading);
    }
}
