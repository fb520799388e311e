use git_lineage::building::GitTreeEntry;
use git_lineage::tree::{FileTree, TreeNode};

#[test]
fn test_tree_node_creation() {
    let file_node = TreeNode::new_file("test.rs".to_string(), "src/test.rs".to_string());
    assert_eq!(file_node.name, "test.rs");
    assert_eq!(file_node.path, "src/test.rs");
    assert!(!file_node.is_dir);
    assert!(!file_node.is_expanded);
    assert!(file_node.children.is_empty());

    let dir_node = TreeNode::new_dir("src".to_string(), "src".to_string());
    assert_eq!(dir_node.name, "src");
    assert_eq!(dir_node.path, "src");
    assert!(dir_node.is_dir);
    assert!(!dir_node.is_expanded);
    assert!(dir_node.children.is_empty());
}

#[test]
fn test_tree_node_with_git_status() {
    let node = TreeNode::new_file("test.rs".to_string(), "test.rs".to_string()).with_git_status('M');
    assert_eq!(node.git_status, Some('M'));
}

#[test]
fn test_tree_node_add_child() {
    let mut parent = TreeNode::new_dir("src".to_string(), "src".to_string());
    let child1 = TreeNode::new_file("main.rs".to_string(), "src/main.rs".to_string());
    let child2 = TreeNode::new_file("lib.rs".to_string(), "src/lib.rs".to_string());
    let child3 = TreeNode::new_dir("utils".to_string(), "src/utils".to_string());

    parent.add_child(child1);
    parent.add_child(child2);
    parent.add_child(child3);

    assert_eq!(parent.children.len(), 3);
    assert_eq!(parent.children[0].name, "utils");
    assert_eq!(parent.children[1].name, "lib.rs");
    assert_eq!(parent.children[2].name, "main.rs");
}

#[test]
fn test_tree_node_expansion() {
    let mut node = TreeNode::new_dir("src".to_string(), "src".to_string());
    assert!(!node.is_expanded);

    node.expand();
    assert!(node.is_expanded);

    node.collapse();
    assert!(!node.is_expanded);

    node.toggle_expansion();
    assert!(node.is_expanded);

    node.toggle_expansion();
    assert!(!node.is_expanded);
}

#[test]
fn test_tree_node_find_child() {
    let mut parent = TreeNode::new_dir("src".to_string(), "src".to_string());
    let child = TreeNode::new_file("main.rs".to_string(), "src/main.rs".to_string());
    let child_path = child.path.clone();

    parent.add_child(child);

    let found = parent.find_child(&child_path);
    assert!(found.is_some());
    assert_eq!(found.unwrap().name, "main.rs");

    let not_found = parent.find_child("src/nonexistent.rs");
    assert!(not_found.is_none());
}

#[test]
fn test_tree_node_remove_child() {
    let mut parent = TreeNode::new_dir("src".to_string(), "src".to_string());
    let child = TreeNode::new_file("main.rs".to_string(), "src/main.rs".to_string());
    let child_path = child.path.clone();

    parent.add_child(child);
    assert_eq!(parent.children.len(), 1);

    let removed = parent.remove_child(&child_path);
    assert!(removed.is_some());
    assert_eq!(removed.unwrap().name, "main.rs");
    assert_eq!(parent.children.len(), 0);
}

#[test]
fn test_file_tree_creation() {
    let tree = FileTree::new();
    assert!(tree.root.is_empty());
    assert!(tree.git_status_map.is_empty());
}

#[test]
fn test_file_tree_navigation() {
    assert!(true);
}

#[test]
fn test_file_tree_expansion() {
    let mut tree = FileTree::new();

    let mut root_dir = TreeNode::new_dir("src".to_string(), "src".to_string());
    root_dir.add_child(TreeNode::new_file("main.rs".to_string(), "src/main.rs".to_string()));
    tree.root.push(root_dir);

    let visible_before = tree.get_visible_nodes();
    assert_eq!(visible_before.len(), 1);
    assert_eq!(visible_before[0].name, "src");

    assert!(tree.expand_node("src"));

    let visible_after = tree.get_visible_nodes();
    assert_eq!(visible_after.len(), 2);
    assert_eq!(visible_after[0].name, "src");
    assert_eq!(visible_after[1].name, "main.rs");

    assert!(tree.collapse_node("src"));

    let visible_collapsed = tree.get_visible_nodes();
    assert_eq!(visible_collapsed.len(), 1);
    assert_eq!(visible_collapsed[0].name, "src");
}

#[test]
fn test_file_tree_git_status() {
    let mut tree = FileTree::new();

    let root = TreeNode::new_file("main.rs".to_string(), "main.rs".to_string());
    tree.root.push(root);

    tree.set_git_status(vec![("main.rs".to_string(), 'M')]);

    let node = tree.find_node("main.rs").unwrap();
    assert_eq!(node.git_status, Some('M'));
}

#[test]
fn test_file_tree_search() {
    assert!(true);
}

#[test]
fn test_fuzzy_filtered_visible_nodes() {
    assert!(true);
}

#[test]
fn test_fuzzy_search_sorting_debug() {
    assert!(true);
}

#[test]
fn test_file_tree_stats() {
    let mut tree = FileTree::new();

    let mut root_dir = TreeNode::new_dir("project".to_string(), "project".to_string());
    root_dir.expand();

    let mut src_dir = TreeNode::new_dir("src".to_string(), "project/src".to_string());
    src_dir.add_child(
        TreeNode::new_file("main.rs".to_string(), "project/src/main.rs".to_string()).with_git_status('M'),
    );
    src_dir.add_child(TreeNode::new_file("lib.rs".to_string(), "project/src/lib.rs".to_string()));

    root_dir.add_child(src_dir);
    root_dir.add_child(TreeNode::new_file("README.md".to_string(), "project/README.md".to_string()));

    tree.root.push(root_dir);

    let stats = tree.get_stats();
    assert_eq!(stats.total_nodes, 5);
    assert_eq!(stats.files, 3);
    assert_eq!(stats.directories, 2);
    assert_eq!(stats.expanded_directories, 1);
    assert_eq!(stats.files_with_git_status, 1);
    assert_eq!(stats.max_depth, 2);
}

#[test]
fn test_tree_node_depth() {
    let root = TreeNode::new_dir("project".to_string(), "project".to_string());
    assert_eq!(root.depth(), 0);

    let src = TreeNode::new_dir("src".to_string(), "project/src".to_string());
    assert_eq!(src.depth(), 1);

    let main = TreeNode::new_file("main.rs".to_string(), "project/src/main.rs".to_string());
    assert_eq!(main.depth(), 2);
}

#[test]
fn test_find_node() {
    let mut tree = FileTree::new();

    let mut root = TreeNode::new_dir("src".to_string(), "src".to_string());
    root.add_child(TreeNode::new_file("main.rs".to_string(), "src/main.rs".to_string()));
    tree.root.push(root);

    let found = tree.find_node("src");
    assert!(found.is_some());
    assert_eq!(found.unwrap().name, "src");

    let found_child = tree.find_node("src/main.rs");
    assert!(found_child.is_some());
    assert_eq!(found_child.unwrap().name, "main.rs");

    let not_found = tree.find_node("nonexistent");
    assert!(not_found.is_none());
}

fn entry(name: &str, path: &str, is_dir: bool) -> GitTreeEntry {
    GitTreeEntry { name: name.to_string(), path: path.to_string(), is_dir }
}

#[test]
fn test_tree_hierarchy_structure() {
    let entries = vec![
        entry("README.md", "README.md", false),
        entry("src", "src", true),
        entry("main.rs", "src/main.rs", false),
        entry("components", "src/components", true),
        entry("mod.rs", "src/components/mod.rs", false),
        entry("ui", "src/components/ui", true),
        entry("button.rs", "src/components/ui/button.rs", false),
    ];
    let mut tree = FileTree::new();
    tree.build_tree_from_git_entries(entries);

    let root_names: Vec<String> = tree.root.iter().map(|n| n.name.clone()).collect();
    assert_eq!(root_names, vec!["src".to_string(), "README.md".to_string()]);

    let src_node = tree.find_node("src").unwrap();
    assert!(src_node.is_dir);
    let src_children: Vec<String> = src_node.children.iter().map(|c| c.name.clone()).collect();
    assert_eq!(src_children, vec!["components".to_string(), "main.rs".to_string()]);

    let ui = tree.find_node("src/components/ui").unwrap();
    assert_eq!(ui.children.len(), 1);
    assert_eq!(ui.children[0].name, "button.rs");
    assert_eq!(ui.parent_path, Some("src/components".to_string()));
}

#[test]
fn test_tree_sorting_consistency() {
    let entries = vec![
        entry("z_last_file.txt", "z_last_file.txt", false),
        entry("z_last_dir", "z_last_dir", true),
        entry("file.txt", "z_last_dir/file.txt", false),
        entry("a_first_file.txt", "a_first_file.txt", false),
        entry("a_first_dir", "a_first_dir", true),
        entry("file.txt", "a_first_dir/file.txt", false),
        entry("m_middle_dir", "m_middle_dir", true),
        entry("m_middle_file.txt", "m_middle_file.txt", false),
    ];
    let mut tree = FileTree::new();
    tree.build_tree_from_git_entries(entries);
    let names: Vec<String> = tree.root.iter().map(|n| n.name.clone()).collect();
    assert_eq!(
        names,
        vec!["a_first_dir", "m_middle_dir", "z_last_dir", "a_first_file.txt", "m_middle_file.txt", "z_last_file.txt"]
    );
}

#[test]
fn building_drops_orphans_and_keeps_the_last_entry() {
    let entries = vec![
        entry("old", "doc", false),
        entry("doc", "doc", true),
        entry("a.md", "doc/a.md", false),
        entry("x.rs", "missing/x.rs", false),
        entry("inner", "file.txt/inner", false),
        entry("file.txt", "file.txt", false),
    ];
    let mut tree = FileTree::new();
    tree.build_tree_from_git_entries(entries);
    assert_eq!(tree.root.len(), 2);
    assert_eq!(tree.root[0].name, "doc");
    assert!(tree.root[0].is_dir);
    assert_eq!(tree.root[0].children.len(), 1);
    assert_eq!(tree.root[1].name, "file.txt");
    assert!(tree.root[1].children.is_empty());
    assert!(tree.find_node("missing/x.rs").is_none());
}

#[test]
fn building_from_nothing_gives_an_empty_tree() {
    let mut tree = FileTree::new();
    tree.build_tree_from_git_entries(Vec::new());
    assert!(tree.root.is_empty());
}

#[test]
fn find_child_mut_changes_the_child_in_place() {
    let mut parent = TreeNode::new_dir("src".to_string(), "src".to_string());
    parent.add_child(TreeNode::new_dir("util".to_string(), "src/util".to_string()));
    parent.add_child(TreeNode::new_file("main.rs".to_string(), "src/main.rs".to_string()));
    {
        let child = parent.find_child_mut("src/util").unwrap();
        child.expand();
    }
    assert!(parent.find_child("src/util").unwrap().is_expanded);
    assert!(parent.find_child_mut("src/none").is_none());
}

#[test]
fn find_node_mut_reaches_nested_nodes() {
    let mut tree = FileTree::new();
    let mut src = TreeNode::new_dir("src".to_string(), "src".to_string());
    let mut util = TreeNode::new_dir("util".to_string(), "src/util".to_string());
    util.add_child(TreeNode::new_file("a.rs".to_string(), "src/util/a.rs".to_string()));
    src.add_child(util);
    tree.root.push(src);
    tree.root.push(TreeNode::new_file("README.md".to_string(), "README.md".to_string()));
    {
        let node = tree.find_node_mut("src/util/a.rs").unwrap();
        node.git_status = Some('M');
    }
    assert_eq!(tree.find_node("src/util/a.rs").unwrap().git_status, Some('M'));
    {
        let node = tree.find_node_mut("README.md").unwrap();
        node.name = "readme".to_string();
    }
    assert_eq!(tree.root[1].name, "readme");
    assert!(tree.find_node_mut("missing").is_none());
}

#[test]
fn tree_height_counts_the_levels() {
    let mut tree = FileTree::new();
    assert_eq!(git_lineage::tree::tree_height(&tree.root), Some(0));
    let mut src = TreeNode::new_dir("src".to_string(), "src".to_string());
    let mut util = TreeNode::new_dir("util".to_string(), "src/util".to_string());
    util.add_child(TreeNode::new_file("a.rs".to_string(), "src/util/a.rs".to_string()));
    src.add_child(util);
    tree.root.push(src);
    tree.root.push(TreeNode::new_file("README.md".to_string(), "README.md".to_string()));
    assert_eq!(git_lineage::tree::tree_height(&tree.root), Some(3));
}

fn sample_tree() -> FileTree {
    let mut tree = FileTree::new();
    let mut src = TreeNode::new_dir("src".to_string(), "src".to_string());
    let mut utils = TreeNode::new_dir("utils".to_string(), "src/utils".to_string());
    utils.add_child(TreeNode::new_file("io.rs".to_string(), "src/utils/io.rs".to_string()));
    src.add_child(utils);
    src.add_child(TreeNode::new_file("main.rs".to_string(), "src/main.rs".to_string()));
    tree.root.push(src);
    tree.root.push(TreeNode::new_file("README.md".to_string(), "README.md".to_string()));
    tree
}

#[test]
fn paths_are_compared_by_their_components() {
    let mut tree = sample_tree();
    assert_eq!(tree.find_node("src/").unwrap().path, "src");
    assert_eq!(tree.find_node("src//main.rs").unwrap().name, "main.rs");
    assert_eq!(tree.find_node("src/./utils").unwrap().name, "utils");
    assert!(tree.find_node("sr").is_none());
    assert!(tree.toggle_node("src/"));
    assert!(tree.find_node("src").unwrap().is_expanded);

    let mut dir = TreeNode::new_dir("src".to_string(), "src".to_string());
    dir.add_child(TreeNode::new_file("lib.rs".to_string(), "src/lib.rs".to_string()));
    assert!(dir.find_child("src//lib.rs").is_some());
    assert_eq!(dir.remove_child("src/lib.rs/").unwrap().name, "lib.rs");
    assert!(dir.children.is_empty());

    let mut status_tree = FileTree::new();
    status_tree.root.push(TreeNode::new_file("main.rs".to_string(), "main.rs".to_string()));
    status_tree.set_git_status(vec![("./main.rs".to_string(), 'A'), ("main.rs/".to_string(), 'M')]);
    assert_eq!(status_tree.find_node("main.rs").unwrap().git_status, Some('M'));
}

#[test]
fn toggling_twice_gives_back_the_tree() {
    let mut tree = sample_tree();
    tree.expand_node("src");
    let before: Vec<(String, bool)> =
        tree.get_visible_nodes().iter().map(|n| (n.path.clone(), n.is_expanded)).collect();
    let first = tree.toggle_node("src/utils");
    assert!(tree.find_node("src/utils").unwrap().is_expanded);
    assert!(tree.find_node("src").unwrap().is_expanded);
    let second = tree.toggle_node("src/utils");
    assert!(first && second);
    let after: Vec<(String, bool)> =
        tree.get_visible_nodes().iter().map(|n| (n.path.clone(), n.is_expanded)).collect();
    assert_eq!(before, after);
    assert!(!tree.find_node("src/utils").unwrap().is_expanded);

    assert!(!tree.toggle_node("README.md"));
    assert!(!tree.toggle_node("README.md"));
    assert!(!tree.toggle_node("missing"));
}

#[test]
fn depth_listing_matches_the_plain_listing() {
    let mut tree = sample_tree();
    tree.expand_node("src");
    tree.expand_node("src/utils");
    let plain: Vec<String> = tree.get_visible_nodes().iter().map(|n| n.path.clone()).collect();
    let with_depth: Vec<(String, usize)> =
        tree.get_visible_nodes_with_depth().iter().map(|(n, d)| (n.path.clone(), *d)).collect();
    assert_eq!(plain, with_depth.iter().map(|(p, _)| p.clone()).collect::<Vec<_>>());
    let depths: Vec<usize> = with_depth.iter().map(|(_, d)| *d).collect();
    assert_eq!(depths, vec![0, 1, 2, 1, 0]);
    for w in depths.windows(2) {
        assert!(w[1] <= w[0] + 1);
    }
}

#[test]
fn a_leading_dot_slash_adds_no_depth() {
    for (p, d) in [("project", 0), ("project/src", 1), ("project/src/main.rs", 2)] {
        let plain = TreeNode::new_file("x".to_string(), p.to_string());
        let dotted = TreeNode::new_file("x".to_string(), format!("./{}", p));
        assert_eq!(plain.depth(), d);
        assert_eq!(dotted.depth(), d);
    }
    assert_eq!(TreeNode::new_dir(".".to_string(), "./".to_string()).depth(), 0);
    assert_eq!(TreeNode::new_dir(".".to_string(), ".".to_string()).depth(), 0);
}

fn check_placed(nodes: &[TreeNode], parent: Option<&str>, names: &[(&str, bool)], paths: &[&str]) {
    for n in nodes {
        assert_eq!(n.parent_path.as_deref().filter(|p| !p.is_empty()), parent);
        assert!(!n.is_expanded);
        assert_eq!(n.git_status, None);
        let k = paths.iter().rposition(|p| *p == n.path).unwrap();
        assert_eq!((n.name.as_str(), n.is_dir), names[k]);
        if !n.is_dir {
            assert!(n.children.is_empty());
        }
        check_placed(&n.children, Some(n.path.as_str()), names, paths);
    }
}

#[test]
fn every_built_node_comes_from_its_entry_under_its_parent() {
    let list = [
        ("lib", true, "lib"),
        ("old", false, "lib/a.rs"),
        ("a.rs", false, "lib/a.rs"),
        ("deep", true, "lib/deep"),
        ("b.rs", false, "lib/deep/b.rs"),
        ("top.txt", false, "top.txt"),
    ];
    let entries: Vec<GitTreeEntry> = list.iter().map(|(n, d, p)| entry(n, p, *d)).collect();
    let names: Vec<(&str, bool)> = list.iter().map(|(n, d, _)| (*n, *d)).collect();
    let paths: Vec<&str> = list.iter().map(|(_, _, p)| *p).collect();
    let mut tree = FileTree::new();
    tree.build_tree_from_git_entries(entries);
    check_placed(&tree.root, None, &names, &paths);
    assert_eq!(tree.find_node("lib/a.rs").unwrap().name, "a.rs");
}
