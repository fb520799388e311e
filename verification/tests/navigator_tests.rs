use git_lineage::navigator::{NavigatorEvent, NavigatorState};
use git_lineage::tree::{FileTree, TreeNode};

fn create_test_tree() -> FileTree {
    let mut tree = FileTree::new();

    let mut src_dir = TreeNode::new_dir("src".to_string(), "src".to_string());
    src_dir.add_child(TreeNode::new_file("main.rs".to_string(), "src/main.rs".to_string()));
    src_dir.add_child(TreeNode::new_file("lib.rs".to_string(), "src/lib.rs".to_string()));

    let mut utils_dir = TreeNode::new_dir("utils".to_string(), "src/utils".to_string());
    utils_dir.add_child(TreeNode::new_file("helpers.rs".to_string(), "src/utils/helpers.rs".to_string()));
    src_dir.add_child(utils_dir);

    tree.root.push(src_dir);
    tree.root.push(TreeNode::new_file("README.md".to_string(), "README.md".to_string()));
    tree.root.push(TreeNode::new_file("Cargo.toml".to_string(), "Cargo.toml".to_string()));

    tree.root.sort_by(|a, b| match (a.is_dir, b.is_dir) {
        (true, false) => std::cmp::Ordering::Less,
        (false, true) => std::cmp::Ordering::Greater,
        _ => a.name.cmp(&b.name),
    });

    tree
}

fn some(p: &str) -> Option<String> {
    Some(p.to_string())
}

#[test]
fn test_navigator_state_creation() {
    let tree = create_test_tree();
    let navigator = NavigatorState::new(tree);

    assert!(!navigator.is_searching());
    assert_eq!(navigator.get_search_query(), "");
    assert_eq!(navigator.get_selection(), None);
}

#[test]
fn test_browsing_navigation() {
    let tree = create_test_tree();
    let mut navigator = NavigatorState::new(tree);

    let changed = navigator.handle_event(NavigatorEvent::NavigateDown).unwrap();
    assert!(changed);
    assert_eq!(navigator.get_selection(), some("src"));

    let changed = navigator.handle_event(NavigatorEvent::NavigateDown).unwrap();
    assert!(changed);
    assert_eq!(navigator.get_selection(), some("Cargo.toml"));

    let changed = navigator.handle_event(NavigatorEvent::NavigateUp).unwrap();
    assert!(changed);
    assert_eq!(navigator.get_selection(), some("src"));
}

#[test]
fn test_directory_expansion() {
    let tree = create_test_tree();
    let mut navigator = NavigatorState::new(tree);

    navigator.handle_event(NavigatorEvent::SelectFile("src".to_string())).unwrap();

    let changed = navigator.handle_event(NavigatorEvent::ExpandSelected).unwrap();
    assert!(changed);

    let view_model = navigator.build_view_model();
    let src_item = view_model.items.iter().find(|item| item.path == "src").unwrap();
    assert!(src_item.is_expanded);

    assert!(view_model.items.iter().any(|item| item.path == "src/main.rs"));
    assert!(view_model.items.iter().any(|item| item.path == "src/lib.rs"));
    assert!(view_model.items.iter().any(|item| item.path == "src/utils"));
}

#[test]
fn test_search_mode_basic() {
    let tree = create_test_tree();
    let mut navigator = NavigatorState::new(tree);

    let changed = navigator.handle_event(NavigatorEvent::StartSearch).unwrap();
    assert!(changed);
    assert!(navigator.is_searching());
    assert_eq!(navigator.get_search_query(), "");

    let changed = navigator.handle_event(NavigatorEvent::UpdateSearchQuery("main".to_string())).unwrap();
    assert!(changed);
    assert_eq!(navigator.get_search_query(), "main");

    let view_model = navigator.build_view_model();
    assert!(view_model.items.iter().any(|item| item.path == "src/main.rs"));

    let changed = navigator.handle_event(NavigatorEvent::EndSearch).unwrap();
    assert!(changed);
    assert!(!navigator.is_searching());
}

#[test]
fn test_search_preserves_browsing_context() {
    let tree = create_test_tree();
    let mut navigator = NavigatorState::new(tree);

    navigator.handle_event(NavigatorEvent::SelectFile("README.md".to_string())).unwrap();
    navigator.handle_event(NavigatorEvent::ToggleExpanded("src".to_string())).unwrap();

    let original_selection = navigator.get_selection();
    let original_view = navigator.build_view_model();

    navigator.handle_event(NavigatorEvent::StartSearch).unwrap();
    navigator.handle_event(NavigatorEvent::UpdateSearchQuery("cargo".to_string())).unwrap();

    navigator.handle_event(NavigatorEvent::EndSearch).unwrap();

    assert_eq!(navigator.get_selection(), original_selection);
    assert!(!navigator.is_searching());

    let restored_view = navigator.build_view_model();

    let src_expanded_original = original_view
        .items
        .iter()
        .find(|item| item.path == "src")
        .map(|item| item.is_expanded)
        .unwrap_or(false);

    let src_expanded_restored = restored_view
        .items
        .iter()
        .find(|item| item.path == "src")
        .map(|item| item.is_expanded)
        .unwrap_or(false);

    assert_eq!(src_expanded_original, src_expanded_restored);
}

#[test]
fn test_search_navigation() {
    let tree = create_test_tree();
    let mut navigator = NavigatorState::new(tree);

    navigator.handle_event(NavigatorEvent::StartSearch).unwrap();
    navigator.handle_event(NavigatorEvent::UpdateSearchQuery("rs".to_string())).unwrap();

    let view_model = navigator.build_view_model();
    assert!(!view_model.items.is_empty());

    assert_eq!(view_model.cursor_position, 0);
    let first_selection = navigator.get_selection();

    navigator.handle_event(NavigatorEvent::NavigateDown).unwrap();
    let second_selection = navigator.get_selection();

    assert_ne!(first_selection, second_selection);

    navigator.handle_event(NavigatorEvent::NavigateUp).unwrap();
    assert_eq!(navigator.get_selection(), first_selection);
}

#[test]
fn test_search_empty_query() {
    let tree = create_test_tree();
    let mut navigator = NavigatorState::new(tree);

    navigator.handle_event(NavigatorEvent::StartSearch).unwrap();
    navigator.handle_event(NavigatorEvent::UpdateSearchQuery("".to_string())).unwrap();

    let view_model = navigator.build_view_model();
    assert!(!view_model.items.is_empty());
    assert!(view_model.items.len() >= 3);
    assert!(view_model.is_searching);
    assert_eq!(view_model.search_query, "");
    assert_eq!(navigator.get_selection(), Some(view_model.items[0].path.clone()));
}

#[test]
fn test_search_no_results() {
    let tree = create_test_tree();
    let mut navigator = NavigatorState::new(tree);

    navigator.handle_event(NavigatorEvent::StartSearch).unwrap();
    navigator.handle_event(NavigatorEvent::UpdateSearchQuery("nonexistent".to_string())).unwrap();

    let view_model = navigator.build_view_model();
    assert!(view_model.items.is_empty());
    assert_eq!(navigator.get_selection(), None);
}

#[test]
fn test_direct_file_selection() {
    let tree = create_test_tree();
    let mut navigator = NavigatorState::new(tree);

    let target_path = "Cargo.toml".to_string();
    navigator.handle_event(NavigatorEvent::SelectFile(target_path.clone())).unwrap();

    assert_eq!(navigator.get_selection(), Some(target_path));

    let view_model = navigator.build_view_model();
    let selected_item = view_model.items.iter().find(|item| item.is_selected);
    assert!(selected_item.is_some());
    assert_eq!(selected_item.unwrap().path, "Cargo.toml");
}

#[test]
fn test_toggle_expansion() {
    let tree = create_test_tree();
    let mut navigator = NavigatorState::new(tree);

    let src_path = "src".to_string();

    let view_model = navigator.build_view_model();
    let src_item = view_model.items.iter().find(|item| item.path == src_path);
    assert!(!src_item.unwrap().is_expanded);

    navigator.handle_event(NavigatorEvent::ToggleExpanded(src_path.clone())).unwrap();
    let view_model = navigator.build_view_model();
    let src_item = view_model.items.iter().find(|item| item.path == src_path);
    assert!(src_item.unwrap().is_expanded);

    navigator.handle_event(NavigatorEvent::ToggleExpanded(src_path.clone())).unwrap();
    let view_model = navigator.build_view_model();
    let src_item = view_model.items.iter().find(|item| item.path == src_path);
    assert!(!src_item.unwrap().is_expanded);
}

#[test]
fn test_view_model_structure() {
    let tree = create_test_tree();
    let mut navigator = NavigatorState::new(tree);

    let view_model = navigator.build_view_model();
    assert!(!view_model.is_searching);
    assert_eq!(view_model.search_query, "");
    assert!(!view_model.items.is_empty());

    for item in &view_model.items {
        assert_eq!(item.depth, 0);
    }

    navigator.handle_event(NavigatorEvent::StartSearch).unwrap();
    navigator.handle_event(NavigatorEvent::UpdateSearchQuery("main".to_string())).unwrap();

    let search_view_model = navigator.build_view_model();
    assert!(search_view_model.is_searching);
    assert_eq!(search_view_model.search_query, "main");

    let src_item = search_view_model.items.iter().find(|item| item.path == "src");
    let main_item = search_view_model.items.iter().find(|item| item.path == "src/main.rs");

    if let Some(src_item) = src_item {
        assert_eq!(src_item.depth, 0);
    }
    if let Some(main_item) = main_item {
        assert_eq!(main_item.depth, 1);
    }
}

#[test]
fn test_nested_directory_expansion() {
    let tree = create_test_tree();
    let mut navigator = NavigatorState::new(tree);

    navigator.handle_event(NavigatorEvent::ToggleExpanded("src".to_string())).unwrap();
    navigator.handle_event(NavigatorEvent::ToggleExpanded("src/utils".to_string())).unwrap();

    let view_model = navigator.build_view_model();

    let helpers_item = view_model.items.iter().find(|item| item.path == "src/utils/helpers.rs");
    assert!(helpers_item.is_some());
    assert_eq!(helpers_item.unwrap().depth, 2);

    let src_item = view_model.items.iter().find(|item| item.path == "src");
    assert_eq!(src_item.unwrap().depth, 0);

    let utils_item = view_model.items.iter().find(|item| item.path == "src/utils");
    assert_eq!(utils_item.unwrap().depth, 1);
}

#[test]
fn test_start_search_shows_browsing_items() {
    let tree = create_test_tree();
    let mut navigator = NavigatorState::new(tree);

    navigator.handle_event(NavigatorEvent::StartSearch).unwrap();

    let view_model = navigator.build_view_model();

    assert!(view_model.is_searching);
    assert_eq!(view_model.search_query, "");
    assert!(!view_model.items.is_empty());

    assert!(view_model.items.iter().any(|item| item.path == "src"));
    assert!(view_model.items.iter().any(|item| item.path == "README.md"));
    assert!(view_model.items.iter().any(|item| item.path == "Cargo.toml"));

    assert!(!view_model.items.iter().any(|item| item.path == "src/main.rs"));
}

#[test]
fn search_then_end_search_restores_the_browsing_mode() {
    let tree = create_test_tree();
    let mut navigator = NavigatorState::new(tree);
    navigator.handle_event(NavigatorEvent::SelectFile("src".to_string())).unwrap();
    let before = navigator.build_view_model();
    navigator.handle_event(NavigatorEvent::StartSearch).unwrap();
    navigator.handle_event(NavigatorEvent::UpdateSearchQuery("help".to_string())).unwrap();
    navigator.handle_event(NavigatorEvent::NavigateDown).unwrap();
    navigator.handle_event(NavigatorEvent::EndSearch).unwrap();
    assert_eq!(navigator.build_view_model(), before);
}

#[test]
fn toggling_twice_gives_back_the_view() {
    let tree = create_test_tree();
    let mut navigator = NavigatorState::new(tree);
    let before = navigator.build_view_model();
    navigator.handle_event(NavigatorEvent::ToggleExpanded("src".to_string())).unwrap();
    assert_ne!(navigator.build_view_model(), before);
    navigator.handle_event(NavigatorEvent::ToggleExpanded("src".to_string())).unwrap();
    assert_eq!(navigator.build_view_model(), before);
}

#[test]
fn fuzzy_search_keeps_matching_files_with_their_directories() {
    let tree = create_test_tree();
    let mut navigator = NavigatorState::new(tree);
    navigator.handle_event(NavigatorEvent::StartSearch).unwrap();
    navigator.handle_event(NavigatorEvent::UpdateSearchQuery("helpers".to_string())).unwrap();
    let view_model = navigator.build_view_model();
    let paths: Vec<&str> = view_model.items.iter().map(|i| i.path.as_str()).collect();
    assert_eq!(paths, vec!["src", "src/utils", "src/utils/helpers.rs"]);
    assert_eq!(navigator.get_selection(), some("src"));
    assert!(navigator.is_path_directory("src/utils"));
    assert!(!navigator.is_path_directory("src/utils/helpers.rs"));
}

#[test]
fn expansion_and_selection_compare_paths_by_components() {
    let mut navigator = NavigatorState::new(create_test_tree());
    navigator.handle_event(NavigatorEvent::ToggleExpanded("src".to_string())).unwrap();
    let rows = navigator.build_view_model().items.len();
    assert_eq!(rows, 6);
    // Another spelling of the same path collapses it again.
    navigator.handle_event(NavigatorEvent::ToggleExpanded("src/".to_string())).unwrap();
    assert_eq!(navigator.build_view_model().items.len(), 3);
    // Expanding a directory selected under another spelling shows its rows.
    navigator.handle_event(NavigatorEvent::SelectFile("./src".to_string())).unwrap();
    navigator.handle_event(NavigatorEvent::ToggleExpanded("src//".to_string())).unwrap();
    let view = navigator.build_view_model();
    assert_eq!(view.items.len(), 6);
    assert!(view.items[0].is_expanded);
    navigator.handle_event(NavigatorEvent::SelectFile("src//".to_string())).unwrap();
    let view = navigator.build_view_model();
    assert!(view.items[0].is_selected);
    assert_eq!(view.cursor_position, 0);
}
