//! A complete description of what the panels show, used to set up and to
//! record states of the application.

use vstd::prelude::*;
use vstd::string::StringExecFns;
use crate::app::{
    commit_views, copy_commits, copy_opt_text, copy_texts, text_views, App, CommitInfo, CommitView, HistoryState,
    InspectorState, PanelFocus, UIState,
};
use crate::listing::expanded_paths;
use crate::navigator::{
    next_mode, query_of, view_model_of, EventView, ModeView, NavigatorEvent, NavigatorState, NavigatorView,
};
use crate::tree::{opt_text, visible_bound, FileTree, FileTreeView, TreeNode};

verus! {

/// The state of the panels, as plain values.
#[derive(Debug)]
pub struct TestConfig {
    pub active_panel: PanelFocus,
    pub file_tree: FileTree,
    pub selected_file_navigator_index: Option<usize>,
    pub search_query: String,
    pub in_search_mode: bool,
    pub commit_list: Vec<CommitInfo>,
    pub selected_commit_index: Option<usize>,
    pub current_content: Vec<String>,
    pub cursor_line: usize,
    pub cursor_column: usize,
    pub inspector_scroll_vertical: u16,
    pub inspector_scroll_horizontal: u16,
    pub show_diff_view: bool,
    pub status_message: String,
    pub is_loading: bool,
    pub selected_commit_hash: Option<String>,
}

/// The value of a configuration.
pub struct ConfigView {
    pub active_panel: PanelFocus,
    pub file_tree: FileTreeView,
    pub selected_file_navigator_index: Option<usize>,
    pub search_query: Seq<char>,
    pub in_search_mode: bool,
    pub commit_list: Seq<CommitView>,
    pub selected_commit_index: Option<usize>,
    pub current_content: Seq<Seq<char>>,
    pub cursor_line: usize,
    pub cursor_column: usize,
    pub inspector_scroll_vertical: u16,
    pub inspector_scroll_horizontal: u16,
    pub show_diff_view: bool,
    pub status_message: Seq<char>,
    pub is_loading: bool,
    pub selected_commit_hash: Option<Seq<char>>,
}

impl View for TestConfig {
    type V = ConfigView;

    open spec fn view(&self) -> ConfigView {
        ConfigView {
            active_panel: self.active_panel,
            file_tree: self.file_tree@,
            selected_file_navigator_index: self.selected_file_navigator_index,
            search_query: self.search_query@,
            in_search_mode: self.in_search_mode,
            commit_list: commit_views(self.commit_list@),
            selected_commit_index: self.selected_commit_index,
            current_content: text_views(self.current_content@),
            cursor_line: self.cursor_line,
            cursor_column: self.cursor_column,
            inspector_scroll_vertical: self.inspector_scroll_vertical,
            inspector_scroll_horizontal: self.inspector_scroll_horizontal,
            show_diff_view: self.show_diff_view,
            status_message: self.status_message@,
            is_loading: self.is_loading,
            selected_commit_hash: opt_text(self.selected_commit_hash),
        }
    }
}

fn commit(hash: &str, short_hash: &str, author: &str, date: &str, subject: &str) -> (r: CommitInfo)
    ensures
        r@ == (CommitView { hash: hash@, short_hash: short_hash@, author: author@, date: date@, subject: subject@ }),
{
    CommitInfo {
        hash: String::from_str(hash),
        short_hash: String::from_str(short_hash),
        author: String::from_str(author),
        date: String::from_str(date),
        subject: String::from_str(subject),
    }
}

impl TestConfig {
    /// A copy of the configuration.
    pub fn duplicate(&self) -> (r: Self)
        ensures
            r@ == self@,
    {
        TestConfig {
            active_panel: self.active_panel,
            file_tree: self.file_tree.duplicate(),
            selected_file_navigator_index: self.selected_file_navigator_index,
            search_query: self.search_query.clone(),
            in_search_mode: self.in_search_mode,
            commit_list: copy_commits(&self.commit_list),
            selected_commit_index: self.selected_commit_index,
            current_content: copy_texts(&self.current_content),
            cursor_line: self.cursor_line,
            cursor_column: self.cursor_column,
            inspector_scroll_vertical: self.inspector_scroll_vertical,
            inspector_scroll_horizontal: self.inspector_scroll_horizontal,
            show_diff_view: self.show_diff_view,
            status_message: self.status_message.clone(),
            is_loading: self.is_loading,
            selected_commit_hash: copy_opt_text(&self.selected_commit_hash),
        }
    }
}

impl Default for TestConfig {
    /// A small sample state: a `src` directory with `lib.rs` and `main.rs`,
    /// `Cargo.toml`, three commits with the first selected, and an eight-line
    /// file with the cursor on its fourth line.
    fn default() -> (r: Self)
        ensures
            r@.active_panel == PanelFocus::Navigator,
            r@.file_tree.root.len() == 2,
            r@.file_tree.root[0].path == "src"@,
            r@.file_tree.root[0].is_dir,
            r@.file_tree.root[0].is_expanded,
            r@.file_tree.root[0].children.len() == 2,
            r@.file_tree.root[1].path == "Cargo.toml"@,
            r@.file_tree.root[1].git_status == Some('M'),
            r@.selected_file_navigator_index == Some(0usize),
            r@.search_query.len() == 0,
            !r@.in_search_mode,
            r@.commit_list.len() == 3,
            r@.commit_list[0].hash == "a1b2c3d4e5f6789012345678901234567890abcd"@,
            r@.commit_list[0].short_hash == "a1b2c3d"@,
            r@.commit_list[1].short_hash == "b2c3d4e"@,
            r@.commit_list[2].short_hash == "c3d4e5f"@,
            r@.selected_commit_index == Some(0usize),
            r@.current_content.len() == 8,
            r@.current_content[0] == "use std::io;"@,
            r@.current_content[7] == "}"@,
            r@.cursor_line == 3,
            r@.cursor_column == 4,
            r@.inspector_scroll_vertical == 0,
            r@.inspector_scroll_horizontal == 0,
            !r@.show_diff_view,
            r@.status_message == "Ready"@,
            !r@.is_loading,
            r@.selected_commit_hash == Some("a1b2c3d4e5f6789012345678901234567890abcd"@),
    {
        let mut file_tree = FileTree::new();
        let mut src_dir = TreeNode::new_dir(String::from_str("src"), String::from_str("src"));
        src_dir.expand();
        src_dir.add_child(
            TreeNode::new_file(String::from_str("main.rs"), String::from_str("src/main.rs")).with_git_status('M'),
        );
        src_dir.add_child(
            TreeNode::new_file(String::from_str("lib.rs"), String::from_str("src/lib.rs")).with_git_status('A'),
        );
        let cargo_toml = TreeNode::new_file(String::from_str("Cargo.toml"), String::from_str("Cargo.toml")).with_git_status('M');
        proof {
            crate::tree::lemma_node_views_len(file_tree.root@);
            reveal_with_fuel(crate::tree::sorted_nodes, 3);
            crate::tree::lemma_node_views_push(file_tree.root@, src_dir);
        }
        file_tree.root.push(src_dir);
        proof {
            crate::tree::lemma_node_views_push(file_tree.root@, cargo_toml);
        }
        file_tree.root.push(cargo_toml);
        let mut commit_list: Vec<CommitInfo> = Vec::new();
        commit_list.push(commit("a1b2c3d4e5f6789012345678901234567890abcd", "a1b2c3d", "John Doe", "2 hours ago", "Add new feature"));
        commit_list.push(commit("b2c3d4e5f6789012345678901234567890abcdef", "b2c3d4e", "Jane Smith", "1 day ago", "Fix bug in parser"));
        commit_list.push(commit("c3d4e5f6789012345678901234567890abcdef01", "c3d4e5f", "Bob Johnson", "3 days ago", "Initial commit"));
        let mut current_content: Vec<String> = Vec::new();
        current_content.push(String::from_str("use std::io;"));
        current_content.push(String::from_str(""));
        current_content.push(String::from_str("fn main() {"));
        current_content.push(String::from_str("    println!(\"Hello, world!\");"));
        current_content.push(String::from_str("    let mut input = String::new();"));
        current_content.push(String::from_str("    io::stdin().read_line(&mut input).expect(\"Failed to read line\");"));
        current_content.push(String::from_str("    println!(\"You entered: {}\", input.trim());"));
        current_content.push(String::from_str("}"));
        TestConfig {
            active_panel: PanelFocus::Navigator,
            file_tree,
            selected_file_navigator_index: Some(0),
            search_query: String::new(),
            in_search_mode: false,
            commit_list,
            selected_commit_index: Some(0),
            current_content,
            cursor_line: 3,
            cursor_column: 4,
            inspector_scroll_vertical: 0,
            inspector_scroll_horizontal: 0,
            show_diff_view: false,
            status_message: String::from_str("Ready"),
            is_loading: false,
            selected_commit_hash: Some(String::from_str("a1b2c3d4e5f6789012345678901234567890abcd")),
        }
    }
}

/// The navigator mode that a configuration sets up: browsing the tree with
/// its own expansion, then, in search mode, searching for the query.
pub open spec fn config_mode(c: ConfigView) -> ModeView {
    let browsing = ModeView::Browsing { selection: None, expanded: expanded_paths(c.file_tree.root), scroll_offset: 0 };
    if c.in_search_mode {
        next_mode(c.file_tree.root, next_mode(c.file_tree.root, browsing, EventView::StartSearch),
            EventView::UpdateSearchQuery(c.search_query))
    } else {
        browsing
    }
}

/// Whether `app` is the application that the configuration `c` sets up.
pub open spec fn set_up_from(app: App, c: ConfigView) -> bool {
    let valid = c.selected_commit_index matches Some(i) && i < c.commit_list.len();
    &&& app.ui.active_panel == c.active_panel
    &&& app.ui.status_message@ == c.status_message
    &&& app.ui.is_loading == c.is_loading
    &&& !app.should_quit
    &&& app.active_file_context is None
    &&& app.per_commit_cursor_positions@.len() == 0
    &&& app.last_commit_for_mapping is None
    &&& app.navigator@ == (NavigatorView { tree: c.file_tree, mode: config_mode(c) })
    &&& commit_views(app.history.commit_list@) == c.commit_list
    &&& app.history.selected_commit_index == (if valid { c.selected_commit_index } else { None })
    &&& opt_text(app.history.selected_commit_hash) == (if valid {
        Some(c.commit_list[c.selected_commit_index.unwrap() as int].hash)
    } else {
        None
    })
    &&& !app.history.is_loading_more
    &&& !app.history.history_complete
    &&& app.history.next_chunk_offset == 0
    &&& text_views(app.inspector.current_content@) == c.current_content
    &&& app.inspector.current_blame is None
    &&& app.inspector.scroll_vertical == c.inspector_scroll_vertical
    &&& app.inspector.scroll_horizontal == c.inspector_scroll_horizontal
    &&& app.inspector.visible_height == 20
    &&& app.inspector.cursor_line == c.cursor_line
    &&& app.inspector.cursor_column == c.cursor_column
    &&& app.inspector.show_diff_view == c.show_diff_view
    &&& app.inspector.diff_lines is None
    &&& app.inspector.parent_commit_hash is None
    &&& app.active_background_tasks == 0
}

/// The configuration that records `app`; the tree itself is not recorded.
pub open spec fn recorded(app: App, c: ConfigView) -> bool {
    let vm = view_model_of(app.navigator@.tree.root, app.navigator@.mode);
    &&& c.active_panel == app.ui.active_panel
    &&& c.file_tree.root.len() == 0
    &&& c.file_tree.statuses.len() == 0
    &&& c.file_tree.repo_root.len() == 0
    &&& c.selected_file_navigator_index == Some(vm.cursor_position)
    &&& c.search_query == vm.search_query
    &&& c.in_search_mode == vm.is_searching
    &&& c.commit_list == commit_views(app.history.commit_list@)
    &&& c.selected_commit_index == app.history.selected_commit_index
    &&& c.current_content == text_views(app.inspector.current_content@)
    &&& c.cursor_line == app.inspector.cursor_line
    &&& c.cursor_column == app.inspector.cursor_column
    &&& c.inspector_scroll_vertical == app.inspector.scroll_vertical
    &&& c.inspector_scroll_horizontal == app.inspector.scroll_horizontal
    &&& c.show_diff_view == app.inspector.show_diff_view
    &&& c.status_message == app.ui.status_message@
    &&& c.is_loading == app.ui.is_loading
    &&& c.selected_commit_hash == opt_text(app.history.selected_commit_hash)
}

impl TestConfig {
    /// Records the state of the application.
    pub fn from_app(app: &App) -> (r: Self)
        ensures
            recorded(*app, r@),
    {
        let vm = app.navigator.build_view_model();
        TestConfig {
            active_panel: app.ui.active_panel,
            file_tree: FileTree::new(),
            selected_file_navigator_index: Some(vm.cursor_position),
            search_query: vm.search_query,
            in_search_mode: vm.is_searching,
            commit_list: copy_commits(&app.history.commit_list),
            selected_commit_index: app.history.selected_commit_index,
            current_content: copy_texts(&app.inspector.current_content),
            cursor_line: app.inspector.cursor_line,
            cursor_column: app.inspector.cursor_column,
            inspector_scroll_vertical: app.inspector.scroll_vertical,
            inspector_scroll_horizontal: app.inspector.scroll_horizontal,
            show_diff_view: app.inspector.show_diff_view,
            status_message: app.ui.status_message.clone(),
            is_loading: app.ui.is_loading,
            selected_commit_hash: copy_opt_text(&app.history.selected_commit_hash),
        }
    }
}

impl App {
    /// The application in the state that `config` describes.
    pub fn from_test_config(config: &TestConfig) -> (r: Self)
        requires
            visible_bound(config@.file_tree.root) <= usize::MAX,
        ensures
            set_up_from(r, config@),
    {
        let mut navigator = NavigatorState::new(config.file_tree.duplicate());
        if config.in_search_mode {
            let _ = navigator.handle_event(NavigatorEvent::StartSearch);
            let _ = navigator.handle_event(NavigatorEvent::UpdateSearchQuery(config.search_query.clone()));
        }
        let commit_list = copy_commits(&config.commit_list);
        let (selected_commit_index, selected_commit_hash) = match config.selected_commit_index {
            Some(i) => if i < commit_list.len() {
                assert(commit_list@[i as int]@ == commit_views(commit_list@)[i as int]);
                (Some(i), Some(commit_list[i].hash.clone()))
            } else {
                (None, None)
            },
            None => (None, None),
        };
        App {
            should_quit: false,
            active_file_context: None,
            per_commit_cursor_positions: Vec::new(),
            last_commit_for_mapping: None,
            navigator,
            history: HistoryState {
                commit_list,
                selected_commit_index,
                selected_commit_hash,
                is_loading_more: false,
                history_complete: false,
                next_chunk_offset: 0,
            },
            inspector: InspectorState {
                current_content: copy_texts(&config.current_content),
                current_blame: None,
                scroll_vertical: config.inspector_scroll_vertical,
                scroll_horizontal: config.inspector_scroll_horizontal,
                visible_height: 20,
                cursor_line: config.cursor_line,
                cursor_column: config.cursor_column,
                show_diff_view: config.show_diff_view,
                diff_lines: None,
                parent_commit_hash: None,
            },
            ui: UIState {
                active_panel: config.active_panel,
                status_message: config.status_message.clone(),
                is_loading: config.is_loading,
            },
            active_background_tasks: 0,
        }
    }
}

/// Recording an application set up from a configuration gives back what
/// the configuration says of the panels: the focus, the commits, the
/// selected commit when it is one of them, the inspector's content, cursor,
/// scrolling and diff view, the status and loading flag, and whether a
/// search is on.
pub proof fn law_config_round_trip(app: App, c: ConfigView, rec: ConfigView)
    requires
        set_up_from(app, c),
        recorded(app, rec),
    ensures
        rec.active_panel == c.active_panel,
        rec.commit_list == c.commit_list,
        (c.selected_commit_index matches Some(i) && i < c.commit_list.len()) ==> rec.selected_commit_index == c.selected_commit_index,
        rec.current_content == c.current_content,
        rec.cursor_line == c.cursor_line,
        rec.cursor_column == c.cursor_column,
        rec.inspector_scroll_vertical == c.inspector_scroll_vertical,
        rec.inspector_scroll_horizontal == c.inspector_scroll_horizontal,
        rec.show_diff_view == c.show_diff_view,
        rec.status_message == c.status_message,
        rec.is_loading == c.is_loading,
        rec.in_search_mode == c.in_search_mode,
        c.in_search_mode ==> rec.search_query == c.search_query,
{
}

} // verus!
