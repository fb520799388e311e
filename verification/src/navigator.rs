//! The navigator panel as a state machine: browsing the tree with its own
//! expansion state, and a search mode that keeps the browsing state to
//! return to.

use vstd::prelude::*;
use crate::app::{copy_opt_text, copy_texts, text_views};
use crate::listing::{
    browse_items, browse_node, browse_rows, contains_path, expanded_list, expanded_paths, holds_path, insert_path, insert_text,
    item_of, item_views, remove_path, selects, without_path, same_list, same_texts, search_listing, search_rows, text_set, ItemView,
};
use crate::search::{build_search_tree_structure, dir_at, is_dir_at, search_structure};
use crate::text::{chars_of, str_eq};
use crate::tree::{opt_text, parent_of, path_equal, path_parent, same_path, visible_bound, FileTree, FileTreeView, NodeView};

verus! {

/// What the navigator can be asked to do.
#[derive(Debug, Clone, PartialEq, Eq)]
pub enum NavigatorEvent {
    SelectFile(String),
    StartSearch,
    UpdateSearchQuery(String),
    EndSearch,
    NavigateUp,
    NavigateDown,
    ToggleExpanded(String),
    ExpandSelected,
    CollapseSelected,
}

/// The two modes of the navigator.
#[derive(Debug)]
pub enum NavigatorMode {
    Browsing {
        selection: Option<String>,
        expanded: Vec<String>,
        scroll_offset: usize,
    },
    Searching {
        query: String,
        results: Vec<String>,
        selected_index: Option<usize>,
        saved_browsing: Box<NavigatorMode>,
    },
}

/// A row of the navigator as it is drawn.
#[derive(Debug, Clone, PartialEq, Eq)]
pub struct VisibleItem {
    pub path: String,
    pub name: String,
    pub depth: usize,
    pub is_selected: bool,
    pub is_expanded: bool,
    pub is_dir: bool,
    pub git_status: Option<char>,
}

/// What the navigator panel draws.
#[derive(Debug, Clone, PartialEq, Eq)]
pub struct NavigatorViewModel {
    pub items: Vec<VisibleItem>,
    pub scroll_offset: usize,
    pub cursor_position: usize,
    pub search_query: String,
    pub is_searching: bool,
}

/// The navigator: the file tree and the current mode.
#[derive(Debug)]
pub struct NavigatorState {
    tree: FileTree,
    mode: NavigatorMode,
}

/// The value of a mode: the expanded directories as a set.
pub enum ModeView {
    Browsing { selection: Option<Seq<char>>, expanded: Set<Seq<char>>, scroll_offset: usize },
    Searching { query: Seq<char>, results: Seq<Seq<char>>, selected_index: Option<usize>, saved_browsing: Box<ModeView> },
}

/// The value of a mode.
pub open spec fn mode_view(m: NavigatorMode) -> ModeView
    decreases m,
{
    match m {
        NavigatorMode::Browsing { selection, expanded, scroll_offset } => ModeView::Browsing {
            selection: opt_text(selection),
            expanded: text_set(expanded@),
            scroll_offset,
        },
        NavigatorMode::Searching { query, results, selected_index, saved_browsing } => ModeView::Searching {
            query: query@,
            results: text_views(results@),
            selected_index,
            saved_browsing: Box::new(mode_view(*saved_browsing)),
        },
    }
}

/// The value of an event.
pub enum EventView {
    SelectFile(Seq<char>),
    StartSearch,
    UpdateSearchQuery(Seq<char>),
    EndSearch,
    NavigateUp,
    NavigateDown,
    ToggleExpanded(Seq<char>),
    ExpandSelected,
    CollapseSelected,
}

/// The value of an event.
pub open spec fn event_view(e: NavigatorEvent) -> EventView {
    match e {
        NavigatorEvent::SelectFile(p) => EventView::SelectFile(p@),
        NavigatorEvent::StartSearch => EventView::StartSearch,
        NavigatorEvent::UpdateSearchQuery(q) => EventView::UpdateSearchQuery(q@),
        NavigatorEvent::EndSearch => EventView::EndSearch,
        NavigatorEvent::NavigateUp => EventView::NavigateUp,
        NavigatorEvent::NavigateDown => EventView::NavigateDown,
        NavigatorEvent::ToggleExpanded(p) => EventView::ToggleExpanded(p@),
        NavigatorEvent::ExpandSelected => EventView::ExpandSelected,
        NavigatorEvent::CollapseSelected => EventView::CollapseSelected,
    }
}

/// The paths of a list of rows.
pub open spec fn item_paths(v: Seq<ItemView>) -> Seq<Seq<char>> {
    v.map_values(|x: ItemView| x.path)
}

/// The first position at or after `i` of a row with path `p`.
pub open spec fn index_from(v: Seq<ItemView>, p: Seq<char>, i: int) -> Option<int>
    decreases v.len() - i,
{
    if i < 0 || i >= v.len() {
        None
    } else if same_path(v[i].path, p) {
        Some(i)
    } else {
        index_from(v, p, i + 1)
    }
}

/// The selection after moving down among the rows `items`.
pub open spec fn next_item(items: Seq<ItemView>, sel: Option<Seq<char>>) -> Option<Seq<char>> {
    if items.len() == 0 {
        None
    } else {
        match sel {
            Some(s) => match index_from(items, s, 0) {
                Some(i) => if i < items.len() - 1 { Some(items[i + 1].path) } else { Some(s) },
                None => None,
            },
            None => Some(items[0].path),
        }
    }
}

/// The selection after moving up among the rows `items`.
pub open spec fn previous_item(items: Seq<ItemView>, sel: Option<Seq<char>>) -> Option<Seq<char>> {
    if items.len() == 0 {
        None
    } else {
        match sel {
            Some(s) => match index_from(items, s, 0) {
                Some(i) => if i > 0 { Some(items[i - 1].path) } else { Some(s) },
                None => None,
            },
            None => Some(items[0].path),
        }
    }
}

/// The selected result after moving up among `n` results: the one above,
/// or the last when none or the first was selected.
pub open spec fn search_up(sel: Option<usize>, n: nat) -> Option<usize> {
    match sel {
        Some(i) => if i > 0 { Some((i - 1) as usize) } else if n > 0 { Some((n - 1) as usize) } else { None },
        None => if n > 0 { Some((n - 1) as usize) } else { None },
    }
}

/// The selected result after moving down among `n` results, wrapping round.
pub open spec fn search_down(sel: Option<usize>, n: nat) -> Option<usize> {
    match sel {
        Some(i) => Some(((i + 1) % (if n > 1 { n as int } else { 1int })) as usize),
        None => if n > 0 { Some(0) } else { None },
    }
}

/// The first result selected, if there is any.
pub open spec fn first_of(res: Seq<Seq<char>>) -> Option<usize> {
    if res.len() == 0 { None } else { Some(0) }
}

/// The paths of the rows shown while browsing.
pub open spec fn browse_paths(root: Seq<NodeView>, ex: Set<Seq<char>>, sel: Option<Seq<char>>) -> Seq<Seq<char>> {
    item_paths(browse_items(root, 0, ex, sel))
}

/// The results for the query `q`, searching from the saved browsing mode.
pub open spec fn results_for(root: Seq<NodeView>, saved: ModeView, q: Seq<char>) -> Seq<Seq<char>> {
    if q.len() == 0 {
        match saved {
            ModeView::Browsing { selection, expanded, .. } => browse_paths(root, expanded, selection),
            _ => Seq::empty(),
        }
    } else {
        search_structure(root, q)
    }
}

/// The mode after the event `e`, for the tree `root`.
pub open spec fn next_mode(root: Seq<NodeView>, m: ModeView, e: EventView) -> ModeView {
    match m {
        ModeView::Browsing { selection, expanded, scroll_offset } => match e {
            EventView::StartSearch => {
                let res = browse_paths(root, expanded, selection);
                ModeView::Searching { query: Seq::empty(), results: res, selected_index: first_of(res), saved_browsing: Box::new(m) }
            },
            EventView::NavigateUp => ModeView::Browsing {
                selection: previous_item(browse_items(root, 0, expanded, selection), selection),
                expanded,
                scroll_offset: 0,
            },
            EventView::NavigateDown => ModeView::Browsing {
                selection: next_item(browse_items(root, 0, expanded, selection), selection),
                expanded,
                scroll_offset: 0,
            },
            EventView::ToggleExpanded(p) => ModeView::Browsing {
                selection,
                expanded: if holds_path(expanded, p) { without_path(expanded, p) } else { expanded.insert(p) },
                scroll_offset,
            },
            EventView::SelectFile(p) => ModeView::Browsing { selection: Some(p), expanded, scroll_offset: 0 },
            EventView::ExpandSelected => match selection {
                Some(s) => if dir_at(root, s) {
                    ModeView::Browsing {
                        selection,
                        expanded: if holds_path(expanded, s) { expanded } else { expanded.insert(s) },
                        scroll_offset,
                    }
                } else {
                    m
                },
                None => m,
            },
            EventView::CollapseSelected => match selection {
                Some(s) => if dir_at(root, s) {
                    ModeView::Browsing { selection, expanded: without_path(expanded, s), scroll_offset }
                } else {
                    m
                },
                None => m,
            },
            _ => m,
        },
        ModeView::Searching { query, results, selected_index, saved_browsing } => match e {
            EventView::EndSearch => *saved_browsing,
            EventView::UpdateSearchQuery(q) => {
                let res = results_for(root, *saved_browsing, q);
                ModeView::Searching { query: q, results: res, selected_index: first_of(res), saved_browsing }
            },
            EventView::NavigateUp => ModeView::Searching {
                query,
                results,
                selected_index: search_up(selected_index, results.len()),
                saved_browsing,
            },
            EventView::NavigateDown => ModeView::Searching {
                query,
                results,
                selected_index: search_down(selected_index, results.len()),
                saved_browsing,
            },
            _ => m,
        },
    }
}

/// A mode whose selected result, in search mode, is one of the results.
pub open spec fn mode_wf(m: ModeView) -> bool
    decreases m,
{
    match m {
        ModeView::Browsing { .. } => true,
        ModeView::Searching { results, selected_index, saved_browsing, .. } => {
            &&& (selected_index matches Some(i) ==> i < results.len())
            &&& mode_wf(*saved_browsing)
        },
    }
}

/// The value of the navigator: the tree and the mode.
pub struct NavigatorView {
    pub tree: FileTreeView,
    pub mode: ModeView,
}

impl View for NavigatorState {
    type V = NavigatorView;

    closed spec fn view(&self) -> NavigatorView {
        NavigatorView { tree: self.tree@, mode: mode_view(self.mode) }
    }
}

/// A copy of a mode.
fn copy_mode(m: &NavigatorMode) -> (r: NavigatorMode)
    ensures
        mode_view(r) == mode_view(*m),
    decreases m,
{
    match m {
        NavigatorMode::Browsing { selection, expanded, scroll_offset } => NavigatorMode::Browsing {
            selection: copy_opt_text(selection),
            expanded: copy_texts(expanded),
            scroll_offset: *scroll_offset,
        },
        NavigatorMode::Searching { query, results, selected_index, saved_browsing } => NavigatorMode::Searching {
            query: query.clone(),
            results: copy_texts(results),
            selected_index: *selected_index,
            saved_browsing: Box::new(copy_mode(&**saved_browsing)),
        },
    }
}

/// Whether two optional texts are equal.
fn same_opt_text(a: &Option<String>, b: &Option<String>) -> (r: bool)
    ensures
        r == (opt_text(*a) == opt_text(*b)),
{
    match (a, b) {
        (Some(x), Some(y)) => str_eq(x.as_str(), y.as_str()),
        (None, None) => true,
        _ => false,
    }
}

/// Whether two modes have the same value.
fn same_mode(a: &NavigatorMode, b: &NavigatorMode) -> (r: bool)
    ensures
        r == (mode_view(*a) == mode_view(*b)),
    decreases a,
{
    match (a, b) {
        (
            NavigatorMode::Browsing { selection: s1, expanded: e1, scroll_offset: o1 },
            NavigatorMode::Browsing { selection: s2, expanded: e2, scroll_offset: o2 },
        ) => {
            same_opt_text(s1, s2) && same_texts(e1, e2) && *o1 == *o2
        },
        (
            NavigatorMode::Searching { query: q1, results: r1, selected_index: i1, saved_browsing: b1 },
            NavigatorMode::Searching { query: q2, results: r2, selected_index: i2, saved_browsing: b2 },
        ) => {
            str_eq(q1.as_str(), q2.as_str()) && same_list(r1, r2) && *i1 == *i2 && same_mode(&**b1, &**b2)
        },
        _ => false,
    }
}

/// The paths of a list of rows.
fn row_paths(items: &Vec<VisibleItem>) -> (r: Vec<String>)
    ensures
        text_views(r@) == item_paths(item_views(items@)),
{
    let mut out: Vec<String> = Vec::new();
    let mut i: usize = 0;
    while i < items.len()
        invariant
            i <= items@.len(),
            text_views(out@) == item_paths(item_views(items@.subrange(0, i as int))),
        decreases items@.len() - i,
    {
        let ghost prev = out@;
        out.push(items[i].path.clone());
        assert(text_views(out@) =~= text_views(prev).push(items@[i as int].path@));
        assert(item_paths(item_views(items@.subrange(0, i + 1))) =~= item_paths(item_views(items@.subrange(0, i as int))).push(items@[i as int].path@));
        i = i + 1;
    }
    assert(items@.subrange(0, items@.len() as int) =~= items@);
    out
}

/// The first position of a row with path `p`.
fn position_of_path(items: &Vec<VisibleItem>, p: &str) -> (r: Option<usize>)
    ensures
        match r {
            Some(i) => index_from(item_views(items@), p@, 0) == Some(i as int),
            None => index_from(item_views(items@), p@, 0) is None,
        },
        r matches Some(i) ==> i < items@.len(),
{
    let ghost v = item_views(items@);
    let mut i: usize = 0;
    while i < items.len()
        invariant
            i <= items@.len(),
            v == item_views(items@),
            index_from(v, p@, 0) == index_from(v, p@, i as int),
        decreases items@.len() - i,
    {
        if path_equal(items[i].path.as_str(), p) {
            return Some(i);
        }
        i = i + 1;
    }
    None
}

/// The selection after moving down among `items`.
fn find_next_item(items: &Vec<VisibleItem>, sel: &Option<String>) -> (r: Option<String>)
    ensures
        opt_text(r) == next_item(item_views(items@), opt_text(*sel)),
{
    if items.len() == 0 {
        return None;
    }
    match sel {
        Some(s) => match position_of_path(items, s.as_str()) {
            Some(i) => {
                if i < items.len() - 1 {
                    Some(items[i + 1].path.clone())
                } else {
                    Some(s.clone())
                }
            },
            None => None,
        },
        None => Some(items[0].path.clone()),
    }
}

/// The selection after moving up among `items`.
fn find_previous_item(items: &Vec<VisibleItem>, sel: &Option<String>) -> (r: Option<String>)
    ensures
        opt_text(r) == previous_item(item_views(items@), opt_text(*sel)),
{
    if items.len() == 0 {
        return None;
    }
    match sel {
        Some(s) => match position_of_path(items, s.as_str()) {
            Some(i) => {
                if i > 0 {
                    Some(items[i - 1].path.clone())
                } else {
                    Some(s.clone())
                }
            },
            None => None,
        },
        None => Some(items[0].path.clone()),
    }
}

/// Whether the text is empty.
fn is_empty_text(q: &String) -> (r: bool)
    ensures
        r == (q@.len() == 0),
{
    let qc = chars_of(q.as_str());
    qc.len() == 0
}

/// The first result selected, if there is any.
fn first_index(res: &Vec<String>) -> (r: Option<usize>)
    ensures
        r == first_of(text_views(res@)),
{
    if res.len() == 0 { None } else { Some(0) }
}

impl NavigatorState {
    #[verifier::type_invariant]
    spec fn inv(self) -> bool {
        &&& visible_bound(self.tree@.root) <= usize::MAX
        &&& mode_wf(mode_view(self.mode))
    }

    /// The paths of the rows shown while browsing with `expanded` and `selection`.
    fn browsing_paths(&self, expanded: &Vec<String>, selection: &Option<String>) -> (r: Vec<String>)
        ensures
            text_views(r@) == browse_paths(self@.tree.root, text_set(expanded@), opt_text(*selection)),
    {
        proof {
            use_type_invariant(self);
        }
        let items = browse_rows(&self.tree.root, expanded, selection);
        row_paths(&items)
    }

    /// The mode after starting a search: the rows shown while browsing become
    /// the results, and the browsing mode is saved.
    fn on_start_search(&self) -> (r: NavigatorMode)
        ensures
            mode_view(r) == next_mode(self@.tree.root, self@.mode, EventView::StartSearch),
    {
        proof {
            use_type_invariant(self);
            reveal_with_fuel(mode_view, 2);
        }
        match &self.mode {
            NavigatorMode::Browsing { selection, expanded, scroll_offset } => {
                let results = self.browsing_paths(expanded, selection);
                let sel = first_index(&results);
                let saved = NavigatorMode::Browsing {
                    selection: copy_opt_text(selection),
                    expanded: copy_texts(expanded),
                    scroll_offset: *scroll_offset,
                };
                NavigatorMode::Searching {
                    query: String::new(),
                    results,
                    selected_index: sel,
                    saved_browsing: Box::new(saved),
                }
            },
            _ => copy_mode(&self.mode),
        }
    }

    /// The mode after ending a search: the saved browsing mode.
    fn on_end_search(&self) -> (r: NavigatorMode)
        ensures
            mode_view(r) == next_mode(self@.tree.root, self@.mode, EventView::EndSearch),
    {
        proof {
            use_type_invariant(self);
        }
        match &self.mode {
            NavigatorMode::Searching { saved_browsing, .. } => copy_mode(&**saved_browsing),
            _ => copy_mode(&self.mode),
        }
    }

    /// The mode after a new query: the results for it, the first one selected.
    fn on_query(&self, q: String) -> (r: NavigatorMode)
        ensures
            mode_view(r) == next_mode(self@.tree.root, self@.mode, EventView::UpdateSearchQuery(q@)),
    {
        proof {
            use_type_invariant(self);
            reveal_with_fuel(mode_view, 2);
        }
        match &self.mode {
            NavigatorMode::Searching { saved_browsing, .. } => {
                let results = if is_empty_text(&q) {
                    match &**saved_browsing {
                        NavigatorMode::Browsing { selection, expanded, .. } => self.browsing_paths(expanded, selection),
                        _ => {
                            let v: Vec<String> = Vec::new();
                            assert(text_views(v@) =~= Seq::<Seq<char>>::empty());
                            v
                        },
                    }
                } else {
                    build_search_tree_structure(&self.tree, q.as_str())
                };
                let sel = first_index(&results);
                NavigatorMode::Searching {
                    query: q,
                    results,
                    selected_index: sel,
                    saved_browsing: Box::new(copy_mode(&**saved_browsing)),
                }
            },
            _ => copy_mode(&self.mode),
        }
    }

    /// The mode after moving up.
    fn on_up(&self) -> (r: NavigatorMode)
        ensures
            mode_view(r) == next_mode(self@.tree.root, self@.mode, EventView::NavigateUp),
    {
        proof {
            use_type_invariant(self);
        }
        match &self.mode {
            NavigatorMode::Browsing { selection, expanded, .. } => {
                let items = browse_rows(&self.tree.root, expanded, selection);
                NavigatorMode::Browsing {
                    selection: find_previous_item(&items, selection),
                    expanded: copy_texts(expanded),
                    scroll_offset: 0,
                }
            },
            NavigatorMode::Searching { query, results, selected_index, saved_browsing } => {
                let n = results.len();
                let idx = match selected_index {
                    Some(i) => if *i > 0 { Some(*i - 1) } else if n > 0 { Some(n - 1) } else { None },
                    None => if n > 0 { Some(n - 1) } else { None },
                };
                NavigatorMode::Searching {
                    query: query.clone(),
                    results: copy_texts(results),
                    selected_index: idx,
                    saved_browsing: Box::new(copy_mode(&**saved_browsing)),
                }
            },
        }
    }

    /// The mode after moving down.
    fn on_down(&self) -> (r: NavigatorMode)
        ensures
            mode_view(r) == next_mode(self@.tree.root, self@.mode, EventView::NavigateDown),
    {
        proof {
            use_type_invariant(self);
        }
        match &self.mode {
            NavigatorMode::Browsing { selection, expanded, .. } => {
                let items = browse_rows(&self.tree.root, expanded, selection);
                NavigatorMode::Browsing {
                    selection: find_next_item(&items, selection),
                    expanded: copy_texts(expanded),
                    scroll_offset: 0,
                }
            },
            NavigatorMode::Searching { query, results, selected_index, saved_browsing } => {
                let n = results.len();
                let idx = match selected_index {
                    Some(i) => {
                        let m: usize = if n > 1 { n } else { 1 };
                        Some((*i + 1) % m)
                    },
                    None => if n > 0 { Some(0) } else { None },
                };
                NavigatorMode::Searching {
                    query: query.clone(),
                    results: copy_texts(results),
                    selected_index: idx,
                    saved_browsing: Box::new(copy_mode(&**saved_browsing)),
                }
            },
        }
    }

    /// The mode after flipping the expansion of `p` while browsing.
    fn on_toggle(&self, p: String) -> (r: NavigatorMode)
        ensures
            mode_view(r) == next_mode(self@.tree.root, self@.mode, EventView::ToggleExpanded(p@)),
    {
        proof {
            use_type_invariant(self);
        }
        match &self.mode {
            NavigatorMode::Browsing { selection, expanded, scroll_offset } => {
                let new_expanded = if contains_path(expanded, p.as_str()) {
                    remove_path(expanded, p.as_str())
                } else {
                    let mut e = copy_texts(expanded);
                    insert_path(&mut e, &p);
                    e
                };
                NavigatorMode::Browsing {
                    selection: copy_opt_text(selection),
                    expanded: new_expanded,
                    scroll_offset: *scroll_offset,
                }
            },
            _ => copy_mode(&self.mode),
        }
    }

    /// The mode after selecting `p` while browsing.
    fn on_select(&self, p: String) -> (r: NavigatorMode)
        ensures
            mode_view(r) == next_mode(self@.tree.root, self@.mode, EventView::SelectFile(p@)),
    {
        proof {
            use_type_invariant(self);
        }
        match &self.mode {
            NavigatorMode::Browsing { expanded, .. } => NavigatorMode::Browsing {
                selection: Some(p),
                expanded: copy_texts(expanded),
                scroll_offset: 0,
            },
            _ => copy_mode(&self.mode),
        }
    }

    /// The mode after expanding the selected directory.
    fn on_expand(&self) -> (r: NavigatorMode)
        ensures
            mode_view(r) == next_mode(self@.tree.root, self@.mode, EventView::ExpandSelected),
    {
        proof {
            use_type_invariant(self);
        }
        match &self.mode {
            NavigatorMode::Browsing { selection: Some(sel), expanded, scroll_offset } => {
                if is_dir_at(&self.tree, sel.as_str()) {
                    let mut e = copy_texts(expanded);
                    insert_path(&mut e, sel);
                    NavigatorMode::Browsing {
                        selection: Some(sel.clone()),
                        expanded: e,
                        scroll_offset: *scroll_offset,
                    }
                } else {
                    copy_mode(&self.mode)
                }
            },
            _ => copy_mode(&self.mode),
        }
    }

    /// The mode after collapsing the selected directory.
    fn on_collapse(&self) -> (r: NavigatorMode)
        ensures
            mode_view(r) == next_mode(self@.tree.root, self@.mode, EventView::CollapseSelected),
    {
        proof {
            use_type_invariant(self);
        }
        match &self.mode {
            NavigatorMode::Browsing { selection: Some(sel), expanded, scroll_offset } => {
                if is_dir_at(&self.tree, sel.as_str()) {
                    NavigatorMode::Browsing {
                        selection: Some(sel.clone()),
                        expanded: remove_path(expanded, sel.as_str()),
                        scroll_offset: *scroll_offset,
                    }
                } else {
                    copy_mode(&self.mode)
                }
            },
            _ => copy_mode(&self.mode),
        }
    }

    /// The mode after `event`.
    fn next(&self, event: NavigatorEvent) -> (r: NavigatorMode)
        ensures
            mode_view(r) == next_mode(self@.tree.root, self@.mode, event_view(event)),
    {
        match event {
            NavigatorEvent::StartSearch => self.on_start_search(),
            NavigatorEvent::EndSearch => self.on_end_search(),
            NavigatorEvent::UpdateSearchQuery(q) => self.on_query(q),
            NavigatorEvent::NavigateUp => self.on_up(),
            NavigatorEvent::NavigateDown => self.on_down(),
            NavigatorEvent::ToggleExpanded(p) => self.on_toggle(p),
            NavigatorEvent::SelectFile(p) => self.on_select(p),
            NavigatorEvent::ExpandSelected => self.on_expand(),
            NavigatorEvent::CollapseSelected => self.on_collapse(),
        }
    }
}

/// The mode after any event keeps the selected result among the results.
pub proof fn lemma_next_mode_wf(root: Seq<NodeView>, m: ModeView, e: EventView)
    requires
        mode_wf(m),
    ensures
        mode_wf(next_mode(root, m, e)),
{
    match m {
        ModeView::Searching { query, results, selected_index, saved_browsing } => {
            match selected_index {
                Some(i) => {
                    let n = results.len();
                    if n > 1 {
                        assert((i + 1) % (n as int) < n) by (nonlinear_arith)
                            requires n > 1;
                    }
                },
                None => {},
            }
        },
        _ => {},
    }
}

/// The selection of a mode: the selected path while browsing, the selected
/// result in search mode.
pub open spec fn selection_of(m: ModeView) -> Option<Seq<char>> {
    match m {
        ModeView::Browsing { selection, .. } => selection,
        ModeView::Searching { results, selected_index, .. } => match selected_index {
            Some(i) => if i < results.len() { Some(results[i as int]) } else { None },
            None => None,
        },
    }
}

/// The query of a mode; empty while browsing.
pub open spec fn query_of(m: ModeView) -> Seq<char> {
    match m {
        ModeView::Searching { query, .. } => query,
        _ => Seq::empty(),
    }
}

/// The directory above `p` that search mode shows expanded: its parent,
/// unless that is the empty path or `.`.
pub open spec fn shown_parent(p: Seq<char>) -> Option<Seq<char>> {
    match parent_of(p) {
        Some(q) => if q.len() == 0 || q == seq!['.'] { None } else { Some(q) },
        None => None,
    }
}

/// The directories expanded in search mode: the shown parents of the results.
pub open spec fn search_expanded(res: Seq<Seq<char>>) -> Set<Seq<char>> {
    Set::new(|x: Seq<char>| exists|k: int| 0 <= k < res.len() && #[trigger] shown_parent(res[k]) == Some(x))
}

/// The value of a view model.
pub struct ViewModelView {
    pub items: Seq<ItemView>,
    pub scroll_offset: usize,
    pub cursor_position: usize,
    pub search_query: Seq<char>,
    pub is_searching: bool,
}

impl View for NavigatorViewModel {
    type V = ViewModelView;

    open spec fn view(&self) -> ViewModelView {
        ViewModelView {
            items: item_views(self.items@),
            scroll_offset: self.scroll_offset,
            cursor_position: self.cursor_position,
            search_query: self.search_query@,
            is_searching: self.is_searching,
        }
    }
}

/// What the navigator draws for the tree `root` in mode `m`.
pub open spec fn view_model_of(root: Seq<NodeView>, m: ModeView) -> ViewModelView {
    match m {
        ModeView::Browsing { selection, expanded, scroll_offset } => {
            let items = browse_items(root, 0, expanded, selection);
            ViewModelView {
                items,
                scroll_offset,
                cursor_position: match selection {
                    Some(s) => match index_from(items, s, 0) {
                        Some(i) => i as usize,
                        None => 0,
                    },
                    None => 0,
                },
                search_query: Seq::empty(),
                is_searching: false,
            }
        },
        ModeView::Searching { query, results, selected_index, .. } => ViewModelView {
            items: search_listing(root, search_expanded(results), results.to_set(), selected_index),
            scroll_offset: 0,
            cursor_position: match selected_index {
                Some(i) => i,
                None => 0,
            },
            search_query: query,
            is_searching: true,
        },
    }
}

/// The directories that search mode shows expanded for `results`.
fn expanded_for_results(results: &Vec<String>) -> (r: Vec<String>)
    ensures
        text_set(r@) == search_expanded(text_views(results@)),
{
    let ghost rv = text_views(results@);
    let mut out: Vec<String> = Vec::new();
    let mut i: usize = 0;
    while i < results.len()
        invariant
            i <= results@.len(),
            rv == text_views(results@),
            forall|x: Seq<char>| text_set(out@).contains(x) <==>
                (exists|k: int| 0 <= k < i && #[trigger] shown_parent(rv[k]) == Some(x)),
        decreases results@.len() - i,
    {
        assert(rv[i as int] == results@[i as int]@);
        let ghost prev = out@;
        match path_parent(results[i].as_str()) {
            Some(q) => {
                let qc = chars_of(q.as_str());
                let is_dot = qc.len() == 1 && qc[0] == '.';
                assert(is_dot == (q@ == seq!['.'])) by {
                    if qc@.len() == 1 && qc@[0] == '.' {
                        assert(q@ =~= seq!['.']);
                    }
                }
                if !(qc.len() == 0 || is_dot) {
                    insert_text(&mut out, &q);
                }
            },
            None => {},
        }
        assert forall|x: Seq<char>| text_set(out@).contains(x) <==>
            (exists|k: int| 0 <= k < i + 1 && #[trigger] shown_parent(rv[k]) == Some(x)) by {
            match shown_parent(rv[i as int]) {
                Some(q) => {
                    assert(text_set(out@) == text_set(prev).insert(q));
                },
                None => {
                    assert(out@ == prev);
                },
            }
            if exists|k: int| 0 <= k < i + 1 && #[trigger] shown_parent(rv[k]) == Some(x) {
                let k = choose|k: int| 0 <= k < i + 1 && #[trigger] shown_parent(rv[k]) == Some(x);
                if k < i {
                    assert(text_set(prev).contains(x));
                }
            }
            if text_set(prev).contains(x) {
                let k = choose|k: int| 0 <= k < i && #[trigger] shown_parent(rv[k]) == Some(x);
                assert(0 <= k < i + 1);
            }
        }
        i = i + 1;
    }
    assert(text_set(out@) =~= search_expanded(rv));
    out
}

impl NavigatorState {
    /// A navigator over `tree`, browsing with nothing selected and the
    /// directories that the tree has expanded.
    pub fn new(tree: FileTree) -> (r: Self)
        requires
            visible_bound(tree@.root) <= usize::MAX,
        ensures
            r@.tree == tree@,
            r@.mode == (ModeView::Browsing { selection: None, expanded: expanded_paths(tree@.root), scroll_offset: 0 }),
    {
        let expanded = expanded_list(&tree.root);
        NavigatorState {
            tree,
            mode: NavigatorMode::Browsing { selection: None, expanded, scroll_offset: 0 },
        }
    }

    /// Handles an event; the result says whether the mode changed.
    pub fn handle_event(&mut self, event: NavigatorEvent) -> (r: Result<bool, String>)
        ensures
            final(self)@.tree == old(self)@.tree,
            final(self)@.mode == next_mode(old(self)@.tree.root, old(self)@.mode, event_view(event)),
            r == Ok::<bool, String>(old(self)@.mode != final(self)@.mode),
    {
        proof {
            use_type_invariant(&*self);
            lemma_next_mode_wf(self@.tree.root, self@.mode, event_view(event));
        }
        let new_mode = self.next(event);
        let changed = !same_mode(&self.mode, &new_mode);
        self.mode = new_mode;
        Ok(changed)
    }

    /// The selected path: the selection while browsing, the selected result
    /// in search mode.
    pub fn get_selection(&self) -> (r: Option<String>)
        ensures
            opt_text(r) == selection_of(self@.mode),
    {
        match &self.mode {
            NavigatorMode::Browsing { selection, .. } => copy_opt_text(selection),
            NavigatorMode::Searching { results, selected_index, .. } => match selected_index {
                Some(i) => if *i < results.len() { Some(results[*i].clone()) } else { None },
                None => None,
            },
        }
    }

    /// Whether the tree has a directory at `p`.
    pub fn is_path_directory(&self, p: &str) -> (r: bool)
        ensures
            r == dir_at(self@.tree.root, p@),
    {
        is_dir_at(&self.tree, p)
    }

    /// Whether the navigator is in search mode.
    pub fn is_searching(&self) -> (r: bool)
        ensures
            r == (self@.mode is Searching),
    {
        match &self.mode {
            NavigatorMode::Searching { .. } => true,
            _ => false,
        }
    }

    /// The search query; empty while browsing.
    pub fn get_search_query(&self) -> (r: String)
        ensures
            r@ == query_of(self@.mode),
    {
        match &self.mode {
            NavigatorMode::Searching { query, .. } => query.clone(),
            _ => String::new(),
        }
    }

    /// What the navigator panel draws.
    pub fn build_view_model(&self) -> (r: NavigatorViewModel)
        ensures
            r@ == view_model_of(self@.tree.root, self@.mode),
    {
        proof {
            use_type_invariant(self);
        }
        match &self.mode {
            NavigatorMode::Browsing { selection, expanded, scroll_offset } => {
                let items = browse_rows(&self.tree.root, expanded, selection);
                let cursor = match selection {
                    Some(s) => match position_of_path(&items, s.as_str()) {
                        Some(i) => i,
                        None => 0,
                    },
                    None => 0,
                };
                NavigatorViewModel {
                    items,
                    scroll_offset: *scroll_offset,
                    cursor_position: cursor,
                    search_query: String::new(),
                    is_searching: false,
                }
            },
            NavigatorMode::Searching { query, results, selected_index, .. } => {
                let ex = expanded_for_results(results);
                let items = search_rows(&self.tree.root, &ex, results, *selected_index);
                NavigatorViewModel {
                    items,
                    scroll_offset: 0,
                    cursor_position: match selected_index {
                        Some(i) => *i,
                        None => 0,
                    },
                    search_query: query.clone(),
                    is_searching: true,
                }
            },
        }
    }
}

/// The mode after the events `es`, one after another.
pub open spec fn run_events(root: Seq<NodeView>, m: ModeView, es: Seq<EventView>) -> ModeView
    decreases es.len(),
{
    if es.len() == 0 {
        m
    } else {
        next_mode(root, run_events(root, m, es.drop_last()), es.last())
    }
}

/// Search mode keeps the browsing state it started from: whatever events
/// come after starting a search, short of ending it, ending the search gives
/// back the browsing mode exactly as it was.
pub proof fn law_search_restores_browsing(root: Seq<NodeView>, m: ModeView, es: Seq<EventView>)
    requires
        m is Browsing,
        forall|i: int| 0 <= i < es.len() ==> !(#[trigger] es[i] is EndSearch),
    ensures
        run_events(root, next_mode(root, m, EventView::StartSearch), es.push(EventView::EndSearch)) == m,
    decreases es.len(),
{
    lemma_search_keeps_saved(root, m, es);
    assert(es.push(EventView::EndSearch).drop_last() =~= es);
}

proof fn lemma_search_keeps_saved(root: Seq<NodeView>, m: ModeView, es: Seq<EventView>)
    requires
        m is Browsing,
        forall|i: int| 0 <= i < es.len() ==> !(#[trigger] es[i] is EndSearch),
    ensures
        run_events(root, next_mode(root, m, EventView::StartSearch), es) matches ModeView::Searching { saved_browsing, .. }
            && *saved_browsing == m,
    decreases es.len(),
{
    if es.len() > 0 {
        assert forall|i: int| 0 <= i < es.drop_last().len() implies !(#[trigger] es.drop_last()[i] is EndSearch) by {
            assert(es.drop_last()[i] == es[i]);
        }
        lemma_search_keeps_saved(root, m, es.drop_last());
        assert(!(es[es.len() - 1] is EndSearch));
    }
}

/// Expanding the selected directory while browsing puts its path among the
/// expanded ones and keeps every other expanded path and the selection;
/// expanding or collapsing what is not a directory changes nothing;
/// selecting a path selects it and keeps the expanded paths; and toggling a
/// path expands it exactly when it was not expanded.
pub proof fn law_expand_and_select(root: Seq<NodeView>, s: Seq<char>, p: Seq<char>, expanded: Set<Seq<char>>, scroll_offset: usize)
    ensures
        ({
            let m = ModeView::Browsing { selection: Some(s), expanded, scroll_offset };
            &&& dir_at(root, s) ==> (next_mode(root, m, EventView::ExpandSelected)
                matches ModeView::Browsing { selection, expanded: e2, scroll_offset: o2 }
                && selection == Some(s)
                && o2 == scroll_offset
                && holds_path(e2, s)
                && (forall|e: Seq<char>| #[trigger] expanded.contains(e) ==> e2.contains(e)))
            &&& !dir_at(root, s) ==> next_mode(root, m, EventView::ExpandSelected) == m
                && next_mode(root, m, EventView::CollapseSelected) == m
            &&& next_mode(root, m, EventView::SelectFile(p)) == (ModeView::Browsing { selection: Some(p), expanded, scroll_offset: 0 })
            &&& next_mode(root, m, EventView::ToggleExpanded(p))
                matches ModeView::Browsing { selection: sel3, expanded: e3, scroll_offset: o3 }
                && sel3 == Some(s)
                && o3 == scroll_offset
                && (holds_path(e3, p) <==> !holds_path(expanded, p))
        }),
{
    assert(same_path(s, s));
    assert(same_path(p, p));
    if !holds_path(expanded, p) {
        assert(expanded.insert(p).contains(p));
    } else {
        assert(!holds_path(without_path(expanded, p), p));
    }
    if !holds_path(expanded, s) {
        assert(expanded.insert(s).contains(s));
    }
}

/// Collapsing the selected directory while browsing takes every spelling of
/// its path out of the expanded set and keeps the other expanded paths and
/// the selection; expanding a collapsed directory and collapsing it again
/// gives back the mode with the expanded set as it was.
pub proof fn law_collapse_selected(root: Seq<NodeView>, s: Seq<char>, expanded: Set<Seq<char>>, scroll_offset: usize)
    requires
        dir_at(root, s),
    ensures
        next_mode(root, ModeView::Browsing { selection: Some(s), expanded, scroll_offset }, EventView::CollapseSelected)
            matches ModeView::Browsing { selection, expanded: e2, scroll_offset: o2 }
            && selection == Some(s)
            && o2 == scroll_offset
            && !holds_path(e2, s)
            && (forall|e: Seq<char>| #[trigger] expanded.contains(e) && !same_path(e, s) ==> e2.contains(e))
            && (forall|e: Seq<char>| #[trigger] e2.contains(e) ==> expanded.contains(e)),
        !holds_path(expanded, s) ==> ({
            let m = ModeView::Browsing { selection: Some(s), expanded, scroll_offset };
            next_mode(root, next_mode(root, m, EventView::ExpandSelected), EventView::CollapseSelected) == m
        }),
{
    let w = without_path(expanded, s);
    assert(!holds_path(w, s));
    if !holds_path(expanded, s) {
        let x = expanded.insert(s);
        assert(same_path(s, s));
        assert(without_path(x, s) =~= expanded);
    }
}

/// Toggling the expansion of the same path twice while browsing gives back
/// the mode as it was, when the expanded set holds no other spelling of the
/// path than the path itself.
pub proof fn law_toggle_twice(root: Seq<NodeView>, m: ModeView, p: Seq<char>)
    requires
        m matches ModeView::Browsing { expanded, .. }
            && forall|e: Seq<char>| #[trigger] expanded.contains(e) && same_path(e, p) ==> e == p,
    ensures
        next_mode(root, next_mode(root, m, EventView::ToggleExpanded(p)), EventView::ToggleExpanded(p)) == m,
{
    match m {
        ModeView::Browsing { selection, expanded, scroll_offset } => {
            assert(same_path(p, p));
            if holds_path(expanded, p) {
                let e = choose|e: Seq<char>| #[trigger] expanded.contains(e) && same_path(e, p);
                assert(e == p);
                let w = without_path(expanded, p);
                assert(w =~= expanded.remove(p));
                assert(!holds_path(w, p));
                assert(w.insert(p) =~= expanded);
            } else {
                let x = expanded.insert(p);
                assert(x.contains(p));
                assert(holds_path(x, p));
                assert(without_path(x, p) =~= expanded);
            }
        },
        _ => {},
    }
}

proof fn lemma_paths_concat(a: Seq<ItemView>, b: Seq<ItemView>)
    ensures
        item_paths(a + b) == item_paths(a) + item_paths(b),
{
    assert(item_paths(a + b) =~= item_paths(a) + item_paths(b));
}

proof fn lemma_browse_paths_any_selection(s: Seq<NodeView>, d: int, ex: Set<Seq<char>>, a: Option<Seq<char>>, b: Option<Seq<char>>)
    ensures
        item_paths(browse_items(s, d, ex, a)) == item_paths(browse_items(s, d, ex, b)),
    decreases s, 1int,
{
    if s.len() > 0 {
        lemma_browse_paths_any_selection(s.drop_last(), d, ex, a, b);
        lemma_node_paths_any_selection(s.last(), d, ex, a, b);
        lemma_paths_concat(browse_items(s.drop_last(), d, ex, a), browse_node(s.last(), d, ex, a));
        lemma_paths_concat(browse_items(s.drop_last(), d, ex, b), browse_node(s.last(), d, ex, b));
    }
}

proof fn lemma_node_paths_any_selection(n: NodeView, d: int, ex: Set<Seq<char>>, a: Option<Seq<char>>, b: Option<Seq<char>>)
    ensures
        item_paths(browse_node(n, d, ex, a)) == item_paths(browse_node(n, d, ex, b)),
    decreases n, 0int,
{
    let ia = item_of(n, d, selects(a, n.path), holds_path(ex, n.path));
    let ib = item_of(n, d, selects(b, n.path), holds_path(ex, n.path));
    if n.is_dir && holds_path(ex, n.path) {
        lemma_browse_paths_any_selection(n.children, d + 1, ex, a, b);
        lemma_paths_concat(seq![ia], browse_items(n.children, d + 1, ex, a));
        lemma_paths_concat(seq![ib], browse_items(n.children, d + 1, ex, b));
        assert(item_paths(seq![ia]) =~= item_paths(seq![ib]));
    } else {
        assert(item_paths(seq![ia]) =~= item_paths(seq![ib]));
    }
}

proof fn lemma_index_from_paths(v: Seq<ItemView>, w: Seq<ItemView>, p: Seq<char>, i: int)
    requires
        item_paths(v) == item_paths(w),
    ensures
        index_from(v, p, i) == index_from(w, p, i),
    decreases v.len() - i,
{
    assert(v.len() == item_paths(v).len() && w.len() == item_paths(w).len());
    if 0 <= i < v.len() {
        assert(item_paths(v)[i] == v[i].path && item_paths(w)[i] == w[i].path);
        lemma_index_from_paths(v, w, p, i + 1);
    }
}

/// Moving down and then up while browsing comes back to the selected row,
/// when it is shown, under the selection's own spelling, and not the last
/// one, and the row below it is the first with its path.
pub proof fn law_down_then_up(root: Seq<NodeView>, expanded: Set<Seq<char>>, s: Seq<char>, scroll_offset: usize)
    requires
        ({
            let items = browse_items(root, 0, expanded, Some(s));
            index_from(items, s, 0) matches Some(i) && i < items.len() - 1 && items[i].path == s
                && index_from(items, items[i + 1].path, 0) == Some(i + 1)
        }),
    ensures
        ({
            let m = ModeView::Browsing { selection: Some(s), expanded, scroll_offset };
            next_mode(root, next_mode(root, m, EventView::NavigateDown), EventView::NavigateUp)
                == (ModeView::Browsing { selection: Some(s), expanded, scroll_offset: 0 })
        }),
{
    let items = browse_items(root, 0, expanded, Some(s));
    let i = index_from(items, s, 0).unwrap();
    lemma_index_from_found(items, s, 0);
    let t = items[i + 1].path;
    let items2 = browse_items(root, 0, expanded, Some(t));
    lemma_browse_paths_any_selection(root, 0, expanded, Some(s), Some(t));
    lemma_index_from_paths(items, items2, t, 0);
    assert(items.len() == item_paths(items).len() && items2.len() == item_paths(items2).len());
    assert(item_paths(items)[i] == items[i].path && item_paths(items2)[i] == items2[i].path);
}

proof fn lemma_index_from_found(v: Seq<ItemView>, p: Seq<char>, i: int)
    requires
        index_from(v, p, i) is Some,
    ensures
        ({
            let k = index_from(v, p, i).unwrap();
            i <= k < v.len() && same_path(v[k].path, p)
        }),
    decreases v.len() - i,
{
    if 0 <= i < v.len() && !same_path(v[i].path, p) {
        lemma_index_from_found(v, p, i + 1);
    }
}

} // verus!
