//! The state of the three panels and the types that they share.

use vstd::prelude::*;
use crate::navigator::NavigatorState;
use crate::text::str_eq;
use crate::tree::{opt_text, visible_bound, FileTree};

verus! {

/// The panel that has the keyboard focus.
#[derive(Debug, Clone, Copy, PartialEq, Eq, Structural)]
pub enum PanelFocus {
    Navigator,
    History,
    Inspector,
}

/// The panel after `p` in the order Navigator, History, Inspector, wrapping round.
pub open spec fn next_focus(p: PanelFocus) -> PanelFocus {
    match p {
        PanelFocus::Navigator => PanelFocus::History,
        PanelFocus::History => PanelFocus::Inspector,
        PanelFocus::Inspector => PanelFocus::Navigator,
    }
}

/// The panel before `p` in the same order.
pub open spec fn previous_focus(p: PanelFocus) -> PanelFocus {
    match p {
        PanelFocus::Navigator => PanelFocus::Inspector,
        PanelFocus::History => PanelFocus::Navigator,
        PanelFocus::Inspector => PanelFocus::History,
    }
}

/// The panel after `p`.
pub fn focus_after(p: PanelFocus) -> (r: PanelFocus)
    ensures
        r == next_focus(p),
{
    match p {
        PanelFocus::Navigator => PanelFocus::History,
        PanelFocus::History => PanelFocus::Inspector,
        PanelFocus::Inspector => PanelFocus::Navigator,
    }
}

/// The panel before `p`.
pub fn focus_before(p: PanelFocus) -> (r: PanelFocus)
    ensures
        r == previous_focus(p),
{
    match p {
        PanelFocus::Navigator => PanelFocus::Inspector,
        PanelFocus::History => PanelFocus::Navigator,
        PanelFocus::Inspector => PanelFocus::History,
    }
}

/// A plain description of a file or directory, with its children.
#[derive(Debug)]
pub struct FileTreeNode {
    pub name: String,
    pub path: String,
    pub is_dir: bool,
    pub git_status: Option<char>,
    pub children: Vec<FileTreeNode>,
}

/// One commit in the history of a file.
#[derive(Debug, Clone)]
pub struct CommitInfo {
    pub hash: String,
    pub short_hash: String,
    pub author: String,
    pub date: String,
    pub subject: String,
}

/// The value of a commit: its texts as character sequences.
pub struct CommitView {
    pub hash: Seq<char>,
    pub short_hash: Seq<char>,
    pub author: Seq<char>,
    pub date: Seq<char>,
    pub subject: Seq<char>,
}

impl View for CommitInfo {
    type V = CommitView;

    open spec fn view(&self) -> CommitView {
        CommitView {
            hash: self.hash@,
            short_hash: self.short_hash@,
            author: self.author@,
            date: self.date@,
            subject: self.subject@,
        }
    }
}

/// The values of a list of commits.
pub open spec fn commit_views(v: Seq<CommitInfo>) -> Seq<CommitView> {
    v.map_values(|c: CommitInfo| c@)
}

/// The values of a list of texts.
pub open spec fn text_views(v: Seq<String>) -> Seq<Seq<char>> {
    v.map_values(|s: String| s@)
}

impl CommitInfo {
    /// A copy of the commit.
    pub fn duplicate(&self) -> (r: Self)
        ensures
            r@ == self@,
    {
        CommitInfo {
            hash: self.hash.clone(),
            short_hash: self.short_hash.clone(),
            author: self.author.clone(),
            date: self.date.clone(),
            subject: self.subject.clone(),
        }
    }
}

/// A copy of a list of commits.
pub fn copy_commits(v: &Vec<CommitInfo>) -> (r: Vec<CommitInfo>)
    ensures
        commit_views(r@) == commit_views(v@),
{
    let mut r: Vec<CommitInfo> = Vec::new();
    let mut i: usize = 0;
    while i < v.len()
        invariant
            i <= v@.len(),
            r@.len() == i,
            forall|j: int| 0 <= j < i ==> #[trigger] r@[j]@ == v@[j]@,
        decreases v@.len() - i,
    {
        let c = v[i].duplicate();
        r.push(c);
        i = i + 1;
    }
    assert(commit_views(r@) =~= commit_views(v@));
    r
}

/// A copy of a list of texts.
pub fn copy_texts(v: &Vec<String>) -> (r: Vec<String>)
    ensures
        text_views(r@) == text_views(v@),
{
    let mut r: Vec<String> = Vec::new();
    let mut i: usize = 0;
    while i < v.len()
        invariant
            i <= v@.len(),
            r@.len() == i,
            forall|j: int| 0 <= j < i ==> #[trigger] r@[j]@ == v@[j]@,
        decreases v@.len() - i,
    {
        let c = v[i].clone();
        r.push(c);
        i = i + 1;
    }
    assert(text_views(r@) =~= text_views(v@));
    r
}

/// A copy of an optional text.
pub fn copy_opt_text(o: &Option<String>) -> (r: Option<String>)
    ensures
        crate::tree::opt_text(r) == crate::tree::opt_text(*o),
{
    match o {
        Some(s) => Some(s.clone()),
        None => None,
    }
}

/// The state of the history panel.
#[derive(Debug)]
pub struct HistoryState {
    pub commit_list: Vec<CommitInfo>,
    pub selected_commit_index: Option<usize>,
    pub selected_commit_hash: Option<String>,
    pub is_loading_more: bool,
    pub history_complete: bool,
    pub next_chunk_offset: usize,
}

/// The state of the code inspector panel.
#[derive(Debug)]
pub struct InspectorState {
    pub current_content: Vec<String>,
    pub current_blame: Option<String>,
    pub scroll_vertical: u16,
    pub scroll_horizontal: u16,
    pub visible_height: usize,
    pub cursor_line: usize,
    pub cursor_column: usize,
    pub show_diff_view: bool,
    pub diff_lines: Option<Vec<String>>,
    pub parent_commit_hash: Option<String>,
}

/// What the whole window shows besides the panels.
#[derive(Debug)]
pub struct UIState {
    pub active_panel: PanelFocus,
    pub status_message: String,
    pub is_loading: bool,
}

/// The state of the application: the three panels, the file whose history
/// is shown, and the cursor line remembered per commit and file.
#[derive(Debug)]
pub struct App {
    pub should_quit: bool,
    pub active_file_context: Option<String>,
    pub per_commit_cursor_positions: Vec<(String, String, usize)>,
    pub last_commit_for_mapping: Option<String>,
    pub navigator: NavigatorState,
    pub history: HistoryState,
    pub inspector: InspectorState,
    pub ui: UIState,
    pub active_background_tasks: usize,
}

/// The cursor line remembered for a commit and a file: the last one saved.
pub open spec fn position_lookup(v: Seq<(String, String, usize)>, commit: Seq<char>, path: Seq<char>) -> Option<usize>
    decreases v.len(),
{
    if v.len() == 0 {
        None
    } else if v.last().0@ == commit && v.last().1@ == path {
        Some(v.last().2)
    } else {
        position_lookup(v.drop_last(), commit, path)
    }
}

/// The first line of the inspector's view after making the cursor visible:
/// unchanged when there is no content, no room, or the cursor is already in
/// view; else scrolled so that the cursor is the first or the last line shown.
pub open spec fn scroll_to_cursor(content_len: nat, visible_height: usize, scroll: u16, cursor: usize) -> u16 {
    let visible = if visible_height >= 2 { visible_height - 2 } else { 0 };
    if content_len == 0 || visible == 0 {
        scroll
    } else if cursor < scroll {
        cursor as u16
    } else if cursor >= scroll + visible {
        (if cursor >= visible - 1 { cursor - (visible - 1) } else { 0 }) as u16
    } else {
        scroll
    }
}

impl HistoryState {
    /// An empty history.
    pub fn new() -> (r: Self)
        ensures
            r.commit_list@.len() == 0,
            r.selected_commit_index is None,
            r.selected_commit_hash is None,
            !r.is_loading_more,
            !r.history_complete,
            r.next_chunk_offset == 0,
    {
        HistoryState {
            commit_list: Vec::new(),
            selected_commit_index: None,
            selected_commit_hash: None,
            is_loading_more: false,
            history_complete: false,
            next_chunk_offset: 0,
        }
    }

    /// Forgets the history of the previous file.
    pub fn reset_for_new_file(&mut self)
        ensures
            final(self).commit_list@.len() == 0,
            final(self).selected_commit_index is None,
            final(self).selected_commit_hash is None,
            !final(self).is_loading_more,
            !final(self).history_complete,
            final(self).next_chunk_offset == 0,
    {
        self.commit_list = Vec::new();
        self.selected_commit_index = None;
        self.selected_commit_hash = None;
        self.is_loading_more = false;
        self.history_complete = false;
        self.next_chunk_offset = 0;
    }
}

impl InspectorState {
    /// An empty inspector, twenty lines high.
    pub fn new() -> (r: Self)
        ensures
            r.current_content@.len() == 0,
            r.current_blame is None,
            r.scroll_vertical == 0,
            r.scroll_horizontal == 0,
            r.visible_height == 20,
            r.cursor_line == 0,
            r.cursor_column == 0,
            !r.show_diff_view,
            r.diff_lines is None,
            r.parent_commit_hash is None,
    {
        InspectorState {
            current_content: Vec::new(),
            current_blame: None,
            scroll_vertical: 0,
            scroll_horizontal: 0,
            visible_height: 20,
            cursor_line: 0,
            cursor_column: 0,
            show_diff_view: false,
            diff_lines: None,
            parent_commit_hash: None,
        }
    }
}

impl UIState {
    /// The navigator focused and the status "Ready".
    pub fn new() -> (r: Self)
        ensures
            r.active_panel == PanelFocus::Navigator,
            r.status_message@ == "Ready"@,
            !r.is_loading,
    {
        UIState { active_panel: PanelFocus::Navigator, status_message: "Ready".to_string(), is_loading: false }
    }
}

impl App {
    /// The application with an empty tree, no history and nothing loaded.
    pub fn new() -> (r: Self)
        ensures
            !r.should_quit,
            r.active_file_context is None,
            r.per_commit_cursor_positions@.len() == 0,
            r.last_commit_for_mapping is None,
            r.navigator@.tree.root.len() == 0,
            r.navigator@.mode == (crate::navigator::ModeView::Browsing {
                selection: None,
                expanded: crate::listing::expanded_paths(r.navigator@.tree.root),
                scroll_offset: 0,
            }),
            r.history.commit_list@.len() == 0,
            r.history.selected_commit_index is None,
            r.history.selected_commit_hash is None,
            r.inspector.current_content@.len() == 0,
            r.inspector.cursor_line == 0,
            r.inspector.visible_height == 20,
            r.ui.active_panel == PanelFocus::Navigator,
            r.ui.status_message@ == "Ready"@,
            !r.ui.is_loading,
            r.active_background_tasks == 0,
    {
        let tree = FileTree::new();
        assert(visible_bound(tree@.root) == 0);
        App {
            should_quit: false,
            active_file_context: None,
            per_commit_cursor_positions: Vec::new(),
            last_commit_for_mapping: None,
            navigator: NavigatorState::new(tree),
            history: HistoryState::new(),
            inspector: InspectorState::new(),
            ui: UIState::new(),
            active_background_tasks: 0,
        }
    }

    /// Moves the focus to the next panel.
    pub fn next_panel(&mut self)
        ensures
            *final(self) == (App { ui: UIState { active_panel: next_focus(old(self).ui.active_panel), ..old(self).ui }, ..*old(self) }),
    {
        self.ui.active_panel = focus_after(self.ui.active_panel);
    }

    /// Moves the focus to the previous panel.
    pub fn previous_panel(&mut self)
        ensures
            *final(self) == (App { ui: UIState { active_panel: previous_focus(old(self).ui.active_panel), ..old(self).ui }, ..*old(self) }),
    {
        self.ui.active_panel = focus_before(self.ui.active_panel);
    }

    /// The file whose history and content are shown.
    pub fn get_active_file(&self) -> (r: Option<String>)
        ensures
            opt_text(r) == opt_text(self.active_file_context),
    {
        copy_opt_text(&self.active_file_context)
    }

    /// Counts one more task running in the background.
    pub fn start_background_task(&mut self)
        ensures
            final(self).active_background_tasks == (if old(self).active_background_tasks < usize::MAX {
                old(self).active_background_tasks + 1
            } else {
                old(self).active_background_tasks as int
            }),
            *final(self) == (App { active_background_tasks: final(self).active_background_tasks, ..*old(self) }),
    {
        self.active_background_tasks = self.active_background_tasks.saturating_add(1);
    }

    /// Remembers the inspector's cursor line for a commit and a file.
    pub fn save_cursor_position(&mut self, commit_hash: &str, file_path: &str)
        ensures
            final(self).per_commit_cursor_positions@.drop_last() == old(self).per_commit_cursor_positions@,
            final(self).per_commit_cursor_positions@.len() == old(self).per_commit_cursor_positions@.len() + 1,
            final(self).per_commit_cursor_positions@.last().0@ == commit_hash@,
            final(self).per_commit_cursor_positions@.last().1@ == file_path@,
            final(self).per_commit_cursor_positions@.last().2 == old(self).inspector.cursor_line,
            *final(self) == (App { per_commit_cursor_positions: final(self).per_commit_cursor_positions, ..*old(self) }),
    {
        let e = (commit_hash.to_string(), file_path.to_string(), self.inspector.cursor_line);
        self.per_commit_cursor_positions.push(e);
        assert(self.per_commit_cursor_positions@.drop_last() =~= old(self).per_commit_cursor_positions@);
    }

    /// The cursor line remembered for a commit and a file, if any.
    pub fn restore_cursor_position(&self, commit_hash: &str, file_path: &str) -> (r: Option<usize>)
        ensures
            r == position_lookup(self.per_commit_cursor_positions@, commit_hash@, file_path@),
    {
        let v = &self.per_commit_cursor_positions;
        let mut i = v.len();
        assert(v@.subrange(0, i as int) =~= v@);
        while i > 0
            invariant
                i <= v@.len(),
                v@ == self.per_commit_cursor_positions@,
                position_lookup(v@, commit_hash@, file_path@) == position_lookup(v@.subrange(0, i as int), commit_hash@, file_path@),
            decreases i,
        {
            let e = &v[i - 1];
            let ghost pre = v@.subrange(0, i as int);
            assert(pre.last() == v@[i - 1]);
            assert(pre.drop_last() =~= v@.subrange(0, i - 1));
            if str_eq(e.0.as_str(), commit_hash) && str_eq(e.1.as_str(), file_path) {
                assert(position_lookup(pre, commit_hash@, file_path@) == Some(e.2));
                return Some(e.2);
            }
            i = i - 1;
        }
        None
    }

    /// Scrolls the inspector so that the cursor line is in view.
    pub fn ensure_inspector_cursor_visible(&mut self)
        ensures
            *final(self) == (App {
                inspector: InspectorState {
                    scroll_vertical: scroll_to_cursor(old(self).inspector.current_content@.len(),
                        old(self).inspector.visible_height, old(self).inspector.scroll_vertical,
                        old(self).inspector.cursor_line),
                    ..old(self).inspector
                },
                ..*old(self)
            }),
    {
        if self.inspector.current_content.len() == 0 {
            return;
        }
        let visible = self.inspector.visible_height.saturating_sub(2);
        if visible == 0 {
            return;
        }
        let top = self.inspector.scroll_vertical as usize;
        let cursor = self.inspector.cursor_line;
        if cursor < top {
            self.inspector.scroll_vertical = cursor as u16;
        } else if cursor - top >= visible {
            self.inspector.scroll_vertical = cursor.saturating_sub(visible - 1) as u16;
        }
    }
}

/// What is saved for a commit and a file is what a later restore gives back,
/// until it is saved again.
pub proof fn law_restore_after_save(v: Seq<(String, String, usize)>, e: (String, String, usize), commit: Seq<char>, path: Seq<char>)
    ensures
        position_lookup(v.push(e), e.0@, e.1@) == Some(e.2),
        (commit != e.0@ || path != e.1@) ==> position_lookup(v.push(e), commit, path) == position_lookup(v, commit, path),
{
    assert(v.push(e).drop_last() =~= v);
}

/// Once the inspector has scrolled to the cursor, the cursor line is among
/// the lines shown, whenever there is content, room for a line, and the
/// line number fits the scroll position's type.
pub proof fn law_cursor_visible_after_scroll(content_len: nat, visible_height: usize, scroll: u16, cursor: usize)
    requires
        content_len > 0,
        visible_height > 2,
        cursor <= u16::MAX,
    ensures
        scroll_to_cursor(content_len, visible_height, scroll, cursor) <= cursor,
        cursor < scroll_to_cursor(content_len, visible_height, scroll, cursor) + (visible_height - 2),
{
}

/// Moving the focus forward and back, in either order, returns to the same
/// panel, and three steps forward go round once.
pub proof fn law_focus_cycle(p: PanelFocus)
    ensures
        previous_focus(next_focus(p)) == p,
        next_focus(previous_focus(p)) == p,
        next_focus(next_focus(next_focus(p))) == p,
{
}

} // verus!
