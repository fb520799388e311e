//! The work that the application hands to the background worker and to the
//! event loop, and what comes back.

use vstd::prelude::*;
use crate::app::{commit_views, App, CommitInfo, CommitView, HistoryState, InspectorState, PanelFocus, UIState};
use crate::events::commit_switch;
use crate::navigator::{next_mode, EventView, ModeView, NavigatorState, NavigatorView};
use crate::listing::expanded_paths;
use crate::search::{file_name_of, path_file_name};
use crate::text::{concat_str, decimal, decimal_string, str_eq};
use crate::tree::{opt_text, visible_bound, FileTree};

verus! {

/// A key as the application reads it.
#[derive(Debug, Clone, Copy, PartialEq, Eq, Structural)]
pub enum Key {
    Char(char),
    Tab,
    BackTab,
    Enter,
    Esc,
    Backspace,
    Up,
    Down,
    Left,
    Right,
    Home,
    End,
    PageUp,
    PageDown,
    Delete,
}

/// Work for the background worker.
#[derive(Debug)]
pub enum Task {
    LoadFileTree,
    LoadCommitHistory { file_path: String },
    LoadCommitHistoryProgressive { file_path: String, chunk_size: usize, start_offset: usize },
    LoadCommitHistoryStreaming { file_path: String },
    FindNextChange { file_path: String, current_commit: String, line_number: usize },
    GenerateDiff { file_path: String, current_commit: String, parent_commit: String },
}

/// What the background worker sends back.
#[derive(Debug)]
pub enum TaskResult {
    FileTreeLoaded { files: FileTree },
    CommitHistoryLoaded { file_path: String, commits: Vec<CommitInfo> },
    CommitHistoryChunkLoaded { file_path: String, commits: Vec<CommitInfo>, is_complete: bool, chunk_offset: usize },
    CommitFound { file_path: String, commit: CommitInfo, total_commits_so_far: usize },
    CommitHistoryComplete { file_path: String, total_commits: usize },
    FileContentLoaded { content: Vec<String>, blame_info: Option<String> },
    NextChangeFound { commit_hash: String },
    NextChangeNotFound,
    Error { message: String },
}

/// What the event loop has to do after the application handled an event.
#[derive(Debug)]
pub enum Effect {
    /// Nothing more.
    Nothing,
    /// Hand a task to the background worker.
    Run(Task),
    /// Load the file's text at the commit, then finish the commit switch.
    LoadContent { commit_hash: String, file_path: String },
    /// Look up the parent of the commit, then go on with the diff view.
    FindParent { commit_hash: String, file_path: String },
}

/// The value of a task.
pub enum TaskView {
    LoadFileTree,
    LoadCommitHistory { file_path: Seq<char> },
    LoadCommitHistoryProgressive { file_path: Seq<char>, chunk_size: usize, start_offset: usize },
    LoadCommitHistoryStreaming { file_path: Seq<char> },
    FindNextChange { file_path: Seq<char>, current_commit: Seq<char>, line_number: usize },
    GenerateDiff { file_path: Seq<char>, current_commit: Seq<char>, parent_commit: Seq<char> },
}

impl View for Task {
    type V = TaskView;

    open spec fn view(&self) -> TaskView {
        match *self {
            Task::LoadFileTree => TaskView::LoadFileTree,
            Task::LoadCommitHistory { file_path } => TaskView::LoadCommitHistory { file_path: file_path@ },
            Task::LoadCommitHistoryProgressive { file_path, chunk_size, start_offset } =>
                TaskView::LoadCommitHistoryProgressive { file_path: file_path@, chunk_size, start_offset },
            Task::LoadCommitHistoryStreaming { file_path } => TaskView::LoadCommitHistoryStreaming { file_path: file_path@ },
            Task::FindNextChange { file_path, current_commit, line_number } =>
                TaskView::FindNextChange { file_path: file_path@, current_commit: current_commit@, line_number },
            Task::GenerateDiff { file_path, current_commit, parent_commit } =>
                TaskView::GenerateDiff { file_path: file_path@, current_commit: current_commit@, parent_commit: parent_commit@ },
        }
    }
}

/// The value of an effect.
pub enum EffectView {
    Nothing,
    Run(TaskView),
    LoadContent { commit_hash: Seq<char>, file_path: Seq<char> },
    FindParent { commit_hash: Seq<char>, file_path: Seq<char> },
}

impl View for Effect {
    type V = EffectView;

    open spec fn view(&self) -> EffectView {
        match *self {
            Effect::Nothing => EffectView::Nothing,
            Effect::Run(t) => EffectView::Run(t@),
            Effect::LoadContent { commit_hash, file_path } => EffectView::LoadContent { commit_hash: commit_hash@, file_path: file_path@ },
            Effect::FindParent { commit_hash, file_path } => EffectView::FindParent { commit_hash: commit_hash@, file_path: file_path@ },
        }
    }
}

/// Whether a result for `file_path` is still about the file being shown.
pub open spec fn still_relevant(app: App, file_path: Seq<char>) -> bool {
    opt_text(app.active_file_context) == Some(file_path)
}

/// The file name of the file being shown, empty when there is none.
pub open spec fn active_file_name(app: App) -> Seq<char> {
    match app.active_file_context {
        Some(f) => match file_name_of(f@) {
            Some(n) => n,
            None => Seq::empty(),
        },
        None => Seq::empty(),
    }
}

/// The status after `n` commits were loaded.
pub open spec fn loaded_message(n: nat) -> Seq<char> {
    if n == 0 {
        "No commits found for this file"@
    } else {
        "Loaded "@ + decimal(n) + " commits"@
    }
}

/// The position of the first commit with hash `h`.
pub open spec fn commit_position(v: Seq<CommitInfo>, h: Seq<char>, i: int) -> Option<int>
    decreases v.len() - i,
{
    if i < 0 || i >= v.len() {
        None
    } else if v[i].hash@ == h {
        Some(i)
    } else {
        commit_position(v, h, i + 1)
    }
}

/// The application once a result arrived: no longer loading.
pub open spec fn settled(old: App) -> App {
    App { ui: UIState { is_loading: false, ..old.ui }, ..old }
}

/// A loaded history of `commits` (not empty) shown with the status `msg`,
/// then the first commit selected and switched to, leads to `new`.
pub open spec fn history_switch(old: App, commits: Vec<CommitInfo>, msg: String, new: App, eff: EffectView) -> bool {
    let base = settled(old);
    let loaded = App {
        history: HistoryState { commit_list: commits, selected_commit_index: Some(0), ..old.history },
        ui: UIState { status_message: msg, ..base.ui },
        ..base
    };
    msg@ == loaded_message(commits@.len()) && commit_switch(loaded, new, eff)
}

/// The first chunk `commits` replaces the history; when it is not empty its
/// first commit is switched to (giving `after`); marking the chunk loaded
/// then leads to `new`.
pub open spec fn chunk_applied(old: App, commits: Vec<CommitInfo>, is_complete: bool, after: App, new: App, eff: EffectView) -> bool {
    let n = commits@.len();
    let pre = App {
        history: HistoryState {
            commit_list: commits,
            next_chunk_offset: n as usize,
            selected_commit_index: if n == 0 { None } else { Some(0) },
            ..old.history
        },
        ..settled(old)
    };
    &&& (n == 0 ==> after == pre && eff is Nothing)
    &&& (n > 0 ==> commit_switch(pre, after, eff))
    &&& new == (App {
        history: HistoryState { history_complete: is_complete, is_loading_more: false, ..after.history },
        ui: UIState { status_message: new.ui.status_message, ..after.ui },
        ..after
    })
}

/// The first commit found is selected and switched to (giving `after`),
/// and the new status then leads to `new`.
pub open spec fn found_applied(old: App, after: App, new: App, eff: EffectView) -> bool {
    let pre = App {
        history: HistoryState { commit_list: new.history.commit_list, selected_commit_index: Some(0), ..old.history },
        ..settled(old)
    };
    commit_switch(pre, after, eff) && new == (App { ui: UIState { status_message: new.ui.status_message, ..after.ui }, ..after })
}

/// How a result of the background worker changes the application (`old`
/// to `new`), and what it asks for next. Every result ends the loading state.
pub open spec fn task_result_step(old: App, result: TaskResult, new: App, eff: EffectView) -> bool {
    let base = App { ui: UIState { is_loading: false, ..old.ui }, ..old };
    match result {
        TaskResult::FileTreeLoaded { files } => {
            &&& eff is Nothing
            &&& new.navigator@ == (NavigatorView {
                tree: files@,
                mode: next_mode(files@.root, ModeView::Browsing { selection: None, expanded: expanded_paths(files@.root), scroll_offset: 0 },
                    EventView::NavigateDown),
            })
            &&& new.ui.status_message@ == "File tree loaded"@
            &&& new == (App { navigator: new.navigator, ui: UIState { status_message: new.ui.status_message, ..base.ui }, ..base })
        },
        TaskResult::CommitHistoryLoaded { file_path, commits } => if still_relevant(old, file_path@) {
            let n = commits@.len();
            let loaded = App {
                history: HistoryState { commit_list: commits, selected_commit_index: if n == 0 { None } else { Some(0) }, ..old.history },
                ..base
            };
            if n == 0 {
                &&& eff is Nothing
                &&& new.ui.status_message@ == loaded_message(n)
                &&& new == (App { ui: UIState { status_message: new.ui.status_message, ..loaded.ui }, ..loaded })
            } else {
                exists|msg: String| #[trigger] history_switch(old, commits, msg, new, eff)
            }
        } else {
            &&& eff is Nothing
            &&& new.ui.status_message@ == "Async result ignored (file context changed)"@
            &&& new == (App { ui: UIState { status_message: new.ui.status_message, ..base.ui }, ..base })
        },
        TaskResult::CommitHistoryChunkLoaded { file_path, commits, is_complete, chunk_offset } => if still_relevant(old, file_path@) {
            let n = if chunk_offset == 0 { commits@.len() } else { old.history.commit_list@.len() + commits@.len() };
            &&& new.ui.status_message@ == (if n == 0 {
                "No commits found for this file"@
            } else if is_complete {
                "Loaded "@ + decimal(n as nat) + " commits"@
            } else {
                "Loaded "@ + decimal(n as nat) + " commits (loading more...)"@
            })
            &&& if chunk_offset == 0 {
                let pre = App {
                    history: HistoryState {
                        commit_list: commits,
                        next_chunk_offset: n as usize,
                        selected_commit_index: if n == 0 { None } else { Some(0) },
                        ..old.history
                    },
                    ..base
                };
                exists|after: App| #[trigger] chunk_applied(old, commits, is_complete, after, new, eff)
            } else {
                &&& eff is Nothing
                &&& new.history.commit_list@ == old.history.commit_list@ + commits@
                &&& new == (App {
                    history: HistoryState {
                        commit_list: new.history.commit_list,
                        next_chunk_offset: n as usize,
                        history_complete: is_complete,
                        is_loading_more: false,
                        ..old.history
                    },
                    ui: UIState { status_message: new.ui.status_message, ..base.ui },
                    ..base
                })
            }
        } else {
            &&& eff is Nothing
            &&& new.ui.status_message@ == "Async result ignored (file context changed)"@
            &&& new == (App { ui: UIState { status_message: new.ui.status_message, ..base.ui }, ..base })
        },
        TaskResult::CommitFound { file_path, commit, total_commits_so_far } => if still_relevant(old, file_path@) {
            let pre = App {
                history: HistoryState {
                    commit_list: new.history.commit_list,
                    selected_commit_index: if total_commits_so_far == 1 { Some(0) } else { old.history.selected_commit_index },
                    ..old.history
                },
                ..base
            };
            &&& new.history.commit_list@ == old.history.commit_list@.push(commit)
            &&& new.ui.status_message@ == active_file_name(old) + " loaded ("@ + decimal(total_commits_so_far as nat) + " commits found...)"@
            &&& if total_commits_so_far == 1 {
                exists|after: App| #[trigger] found_applied(old, after, new, eff)
            } else {
                eff is Nothing && new == (App { ui: UIState { status_message: new.ui.status_message, ..pre.ui }, ..pre })
            }
        } else {
            eff is Nothing && new == base
        },
        TaskResult::CommitHistoryComplete { file_path, total_commits } => if still_relevant(old, file_path@) {
            &&& eff is Nothing
            &&& new.ui.status_message@ == (if total_commits == 0 {
                active_file_name(old) + " loaded (no commit history)"@
            } else {
                active_file_name(old) + " loaded ("@ + decimal(total_commits as nat) + " commits)"@
            })
            &&& new == (App {
                history: HistoryState { history_complete: true, is_loading_more: false, ..old.history },
                ui: UIState { status_message: new.ui.status_message, ..base.ui },
                ..base
            })
        } else {
            eff is Nothing && new == base
        },
        TaskResult::FileContentLoaded { content, .. } => {
            &&& eff is Nothing
            &&& new.ui.status_message@ == "File content loaded"@
            &&& new == (App {
                inspector: InspectorState { current_content: content, ..old.inspector },
                ui: UIState { status_message: new.ui.status_message, ..base.ui },
                ..base
            })
        },
        TaskResult::NextChangeFound { commit_hash } => {
            &&& eff is Nothing
            &&& match commit_position(old.history.commit_list@, commit_hash@, 0) {
                Some(i) => {
                    &&& new.ui.status_message@ == "Found next change"@
                    &&& new == (App {
                        history: HistoryState { selected_commit_index: Some(i as usize), ..old.history },
                        ui: UIState { status_message: new.ui.status_message, active_panel: PanelFocus::History, ..base.ui },
                        ..base
                    })
                },
                None => {
                    &&& new.ui.status_message@ == "Next change found but commit not in history"@
                    &&& new == (App { ui: UIState { status_message: new.ui.status_message, ..base.ui }, ..base })
                },
            }
        },
        TaskResult::NextChangeNotFound => {
            &&& eff is Nothing
            &&& new.ui.status_message@ == "No subsequent changes found for this line"@
            &&& new == (App { ui: UIState { status_message: new.ui.status_message, ..base.ui }, ..base })
        },
        TaskResult::Error { message } => {
            &&& eff is Nothing
            &&& new.ui.status_message@ == "Error: "@ + message@
            &&& new == (App { ui: UIState { status_message: new.ui.status_message, ..base.ui }, ..base })
        },
    }
}

/// A commit is found at or after `i` exactly when one of those commits has
/// the hash.
proof fn lemma_commit_position_none(v: Seq<CommitInfo>, h: Seq<char>, i: int)
    requires
        0 <= i,
    ensures
        commit_position(v, h, i) is None <==> forall|j: int| i <= j < v.len() ==> #[trigger] v[j].hash@ != h,
    decreases v.len() - i,
{
    if i < v.len() {
        lemma_commit_position_none(v, h, i + 1);
        if v[i].hash@ != h {
            assert forall|j: int| i <= j < v.len() && (forall|k: int| i + 1 <= k < v.len() ==> #[trigger] v[k].hash@ != h)
                implies v[j].hash@ != h by {
                if j > i {
                    assert(i + 1 <= j);
                }
            }
        }
    }
}

/// Switching to a commit leaves the loading state as it was.
proof fn lemma_switch_keeps_loading(old: App, new: App, eff: EffectView)
    requires
        commit_switch(old, new, eff),
    ensures
        new.ui.is_loading == old.ui.is_loading,
{
}

/// Whatever the background worker sends, the application is no longer
/// loading afterwards. An error is shown as "Error: " and its message; a
/// search for the next change that found none says so, and one whose commit
/// is not in the history says that.
pub proof fn law_task_result_statuses(old: App, result: TaskResult, new: App, eff: EffectView)
    requires
        task_result_step(old, result, new, eff),
    ensures
        !new.ui.is_loading,
        result matches TaskResult::Error { message } ==> new.ui.status_message@ == "Error: "@ + message@,
        result is NextChangeNotFound ==> new.ui.status_message@ == "No subsequent changes found for this line"@,
        result matches TaskResult::NextChangeFound { commit_hash } ==> (
            (forall|j: int| 0 <= j < old.history.commit_list@.len()
                ==> #[trigger] old.history.commit_list@[j].hash@ != commit_hash@)
            ==> new.ui.status_message@ == "Next change found but commit not in history"@),
{
    match result {
        TaskResult::CommitHistoryLoaded { file_path, commits } => {
            if still_relevant(old, file_path@) && commits@.len() > 0 {
                let msg = choose|msg: String| #[trigger] history_switch(old, commits, msg, new, eff);
                let base = settled(old);
                let loaded = App {
                    history: HistoryState { commit_list: commits, selected_commit_index: Some(0), ..old.history },
                    ui: UIState { status_message: msg, ..base.ui },
                    ..base
                };
                lemma_switch_keeps_loading(loaded, new, eff);
            }
        },
        TaskResult::CommitHistoryChunkLoaded { file_path, commits, is_complete, chunk_offset } => {
            if still_relevant(old, file_path@) && chunk_offset == 0 {
                let after = choose|after: App| #[trigger] chunk_applied(old, commits, is_complete, after, new, eff);
                let n = commits@.len();
                let pre = App {
                    history: HistoryState {
                        commit_list: commits,
                        next_chunk_offset: n as usize,
                        selected_commit_index: if n == 0 { None } else { Some(0) },
                        ..old.history
                    },
                    ..settled(old)
                };
                if n > 0 {
                    lemma_switch_keeps_loading(pre, after, eff);
                }
            }
        },
        TaskResult::CommitFound { file_path, commit, total_commits_so_far } => {
            if still_relevant(old, file_path@) && total_commits_so_far == 1 {
                let after = choose|after: App| #[trigger] found_applied(old, after, new, eff);
                let pre = App {
                    history: HistoryState { commit_list: new.history.commit_list, selected_commit_index: Some(0), ..old.history },
                    ..settled(old)
                };
                lemma_switch_keeps_loading(pre, after, eff);
            }
        },
        TaskResult::NextChangeFound { commit_hash } => {
            lemma_commit_position_none(old.history.commit_list@, commit_hash@, 0);
        },
        _ => {},
    }
}

/// Whether a result for `file_path` is still about the file being shown.
fn is_relevant(app: &App, file_path: &str) -> (r: bool)
    ensures
        r == still_relevant(*app, file_path@),
{
    match &app.active_file_context {
        Some(f) => str_eq(f.as_str(), file_path),
        None => false,
    }
}

/// The file name of the file being shown, empty when there is none.
fn file_name_shown(app: &App) -> (r: String)
    ensures
        r@ == active_file_name(*app),
{
    match &app.active_file_context {
        Some(f) => match path_file_name(f.as_str()) {
            Some(n) => n,
            None => String::new(),
        },
        None => String::new(),
    }
}

/// "Loaded n commits", or that none were found.
fn loaded_status(n: usize) -> (r: String)
    ensures
        r@ == loaded_message(n as nat),
{
    if n == 0 {
        "No commits found for this file".to_string()
    } else {
        let m = concat_str("Loaded ", decimal_string(n).as_str());
        concat_str(m.as_str(), " commits")
    }
}

/// The position of the first commit with hash `h`.
fn find_commit(v: &Vec<CommitInfo>, h: &str) -> (r: Option<usize>)
    ensures
        match r {
            Some(i) => commit_position(v@, h@, 0) == Some(i as int),
            None => commit_position(v@, h@, 0) is None,
        },
{
    let mut i: usize = 0;
    while i < v.len()
        invariant
            i <= v@.len(),
            commit_position(v@, h@, 0) == commit_position(v@, h@, i as int),
        decreases v@.len() - i,
    {
        if str_eq(v[i].hash.as_str(), h) {
            return Some(i);
        }
        i = i + 1;
    }
    None
}

fn on_file_tree(app: &mut App, files: FileTree) -> (r: Effect)
    requires
        visible_bound(files@.root) <= usize::MAX,
    ensures
        task_result_step(*old(app), TaskResult::FileTreeLoaded { files }, *final(app), r@),
{
    app.ui.is_loading = false;
    let ghost start = *old(app);
    let mut nav = NavigatorState::new(files);
    let _ = nav.handle_event(crate::navigator::NavigatorEvent::NavigateDown);
    app.navigator = nav;
    app.ui.status_message = "File tree loaded".to_string();
    Effect::Nothing
}

fn on_history_loaded(app: &mut App, file_path: String, commits: Vec<CommitInfo>) -> (r: Effect)
    ensures
        task_result_step(*old(app), TaskResult::CommitHistoryLoaded { file_path, commits }, *final(app), r@),
{
    app.ui.is_loading = false;
    let ghost start = *old(app);
    if is_relevant(app, file_path.as_str()) {
        let n = commits.len();
        let ghost cv = commits;
        app.history.commit_list = commits;
        app.history.selected_commit_index = if n == 0 { None } else { Some(0) };
        app.ui.status_message = loaded_status(n);
        if n > 0 {
            let ghost loaded = *app;
            let e = app.update_code_inspector_for_commit();
            assert(history_switch(start, cv, loaded.ui.status_message, *app, e@));
            e
        } else {
            Effect::Nothing
        }
    } else {
        app.ui.status_message = "Async result ignored (file context changed)".to_string();
        Effect::Nothing
    }
}

fn on_history_chunk(app: &mut App, file_path: String, commits: Vec<CommitInfo>, is_complete: bool, chunk_offset: usize) -> (r: Effect)
    ensures
        task_result_step(*old(app), TaskResult::CommitHistoryChunkLoaded { file_path, commits, is_complete, chunk_offset }, *final(app), r@),
{
    app.ui.is_loading = false;
    let ghost start = *old(app);
    if is_relevant(app, file_path.as_str()) {
        let mut eff = Effect::Nothing;
        let ghost mut pre = *app;
        let ghost cv = commits;
        if chunk_offset == 0 {
            app.history.commit_list = commits;
            let n = app.history.commit_list.len();
            app.history.next_chunk_offset = n;
            app.history.selected_commit_index = if n == 0 { None } else { Some(0) };
            proof {
                pre = *app;
            }
            if n > 0 {
                eff = app.update_code_inspector_for_commit();
                assert(commit_switch(pre, *app, eff@));
            }
        } else {
            let mut more = commits;
            app.history.commit_list.append(&mut more);
            app.history.next_chunk_offset = app.history.commit_list.len();
        }
        let ghost after = *app;
        app.history.history_complete = is_complete;
        app.history.is_loading_more = false;
        let n = app.history.commit_list.len();
        app.ui.status_message = if n == 0 {
            "No commits found for this file".to_string()
        } else if is_complete {
            let m = concat_str("Loaded ", decimal_string(n).as_str());
            concat_str(m.as_str(), " commits")
        } else {
            let m = concat_str("Loaded ", decimal_string(n).as_str());
            concat_str(m.as_str(), " commits (loading more...)")
        };
        proof {
            if chunk_offset == 0 {
                assert(chunk_applied(start, cv, is_complete, after, *app, eff@));
            }
        }
        eff
    } else {
        app.ui.status_message = "Async result ignored (file context changed)".to_string();
        Effect::Nothing
    }
}

fn on_commit_found(app: &mut App, file_path: String, commit: CommitInfo, total_commits_so_far: usize) -> (r: Effect)
    ensures
        task_result_step(*old(app), TaskResult::CommitFound { file_path, commit, total_commits_so_far }, *final(app), r@),
{
    app.ui.is_loading = false;
    let ghost start = *old(app);
    if is_relevant(app, file_path.as_str()) {
        let name = file_name_shown(app);
        app.history.commit_list.push(commit);
        let mut eff = Effect::Nothing;
        let ghost mut pre = *app;
        if total_commits_so_far == 1 {
            app.history.selected_commit_index = Some(0);
            proof {
                pre = *app;
            }
            eff = app.update_code_inspector_for_commit();
            assert(commit_switch(pre, *app, eff@));
        }
        let ghost after = *app;
        let m1 = concat_str(name.as_str(), " loaded (");
        let m2 = concat_str(m1.as_str(), decimal_string(total_commits_so_far).as_str());
        app.ui.status_message = concat_str(m2.as_str(), " commits found...)");
        proof {
            if total_commits_so_far == 1 {
                assert(found_applied(start, after, *app, eff@));
            }
        }
        eff
    } else {
        Effect::Nothing
    }
}

fn on_history_complete(app: &mut App, file_path: String, total_commits: usize) -> (r: Effect)
    ensures
        task_result_step(*old(app), TaskResult::CommitHistoryComplete { file_path, total_commits }, *final(app), r@),
{
    app.ui.is_loading = false;
    let ghost start = *old(app);
    if is_relevant(app, file_path.as_str()) {
        let name = file_name_shown(app);
        app.history.history_complete = true;
        app.history.is_loading_more = false;
        app.ui.status_message = if total_commits == 0 {
            concat_str(name.as_str(), " loaded (no commit history)")
        } else {
            let m1 = concat_str(name.as_str(), " loaded (");
            let m2 = concat_str(m1.as_str(), decimal_string(total_commits).as_str());
            concat_str(m2.as_str(), " commits)")
        };
    }
    Effect::Nothing
}

fn on_content(app: &mut App, content: Vec<String>, blame_info: Option<String>) -> (r: Effect)
    ensures
        task_result_step(*old(app), TaskResult::FileContentLoaded { content, blame_info }, *final(app), r@),
{
    app.ui.is_loading = false;
    let ghost start = *old(app);
    app.inspector.current_content = content;
    app.ui.status_message = "File content loaded".to_string();
    Effect::Nothing
}

fn on_next_change(app: &mut App, commit_hash: String) -> (r: Effect)
    ensures
        task_result_step(*old(app), TaskResult::NextChangeFound { commit_hash }, *final(app), r@),
{
    app.ui.is_loading = false;
    let ghost start = *old(app);
    match find_commit(&app.history.commit_list, commit_hash.as_str()) {
        Some(i) => {
            app.history.selected_commit_index = Some(i);
            app.ui.active_panel = PanelFocus::History;
            app.ui.status_message = "Found next change".to_string();
        },
        None => {
            app.ui.status_message = "Next change found but commit not in history".to_string();
        },
    }
    Effect::Nothing
}

fn on_no_next_change(app: &mut App) -> (r: Effect)
    ensures
        task_result_step(*old(app), TaskResult::NextChangeNotFound, *final(app), r@),
{
    app.ui.is_loading = false;
    let ghost start = *old(app);
    app.ui.status_message = "No subsequent changes found for this line".to_string();
    Effect::Nothing
}

fn on_error(app: &mut App, message: String) -> (r: Effect)
    ensures
        task_result_step(*old(app), TaskResult::Error { message }, *final(app), r@),
{
    app.ui.is_loading = false;
    let ghost start = *old(app);
    app.ui.status_message = concat_str("Error: ", message.as_str());
    Effect::Nothing
}

/// Applies a result of the background worker to the application. Returns
/// what the event loop has to do next: the content to load when a commit
/// was selected.
pub fn handle_task_result(app: &mut App, result: TaskResult) -> (r: Effect)
    requires
        result matches TaskResult::FileTreeLoaded { files } ==> visible_bound(files@.root) <= usize::MAX,
    ensures
        task_result_step(*old(app), result, *final(app), r@),
{
    match result {
        TaskResult::FileTreeLoaded { files } => on_file_tree(app, files),
        TaskResult::CommitHistoryLoaded { file_path, commits } => on_history_loaded(app, file_path, commits),
        TaskResult::CommitHistoryChunkLoaded { file_path, commits, is_complete, chunk_offset } => on_history_chunk(app, file_path, commits, is_complete, chunk_offset),
        TaskResult::CommitFound { file_path, commit, total_commits_so_far } => on_commit_found(app, file_path, commit, total_commits_so_far),
        TaskResult::CommitHistoryComplete { file_path, total_commits } => on_history_complete(app, file_path, total_commits),
        TaskResult::FileContentLoaded { content, blame_info } => on_content(app, content, blame_info),
        TaskResult::NextChangeFound { commit_hash } => on_next_change(app, commit_hash),
        TaskResult::NextChangeNotFound => on_no_next_change(app),
        TaskResult::Error { message } => on_error(app, message),
    }
}

} // verus!
