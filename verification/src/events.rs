//! What the keys do: the global keys, then the keys of the focused panel,
//! then the keys that work everywhere. Work that needs the repository or the
//! background worker comes back as an `Effect` for the event loop.

use vstd::prelude::*;
use crate::app::{next_focus, previous_focus, scroll_to_cursor, App, InspectorState, PanelFocus};
use crate::tasks::{Effect, EffectView, Key, Task, TaskView};
use crate::text::{byte_prefix, byte_prefix_chars, chars_of, concat_str, string_of};
use crate::app::{copy_opt_text, copy_texts, position_lookup, text_views, HistoryState, UIState};
use crate::navigator::{next_mode, query_of, selection_of, EventView, ModeView, NavigatorEvent, NavigatorView};
use crate::search::dir_at;
use crate::text::push_char;
use crate::positioning::{contents_view, smart_position};
use crate::tree::opt_text;

verus! {

/// The last line index of `len` lines, 0 when there are none.
pub open spec fn last_index(len: nat) -> int {
    if len > 0 { len - 1 } else { 0 }
}

/// The lines that a page key moves: the inspector's height without its borders.
pub open spec fn page_size(vh: usize) -> int {
    if vh >= 2 { vh - 2 } else { 0 }
}

/// Where a key moves the inspector's cursor, or `None` for a key that
/// leaves it (and the scroll position) alone.
pub open spec fn cursor_move(key: Key, cursor: usize, len: nat, vh: usize) -> Option<int> {
    match key {
        Key::Up => if cursor > 0 { Some(cursor - 1) } else { None },
        Key::Down => if cursor < last_index(len) { Some(cursor + 1) } else { None },
        Key::PageUp => Some(if cursor >= page_size(vh) { cursor - page_size(vh) } else { 0 }),
        Key::PageDown => Some(if cursor + page_size(vh) < last_index(len) { cursor + page_size(vh) } else { last_index(len) }),
        Key::Home => Some(0),
        Key::End => Some(last_index(len)),
        Key::Char(c) => if c == 'g' { Some(0) } else if c == 'G' { Some(last_index(len)) } else { None },
        _ => None,
    }
}

/// The keys that the code inspector handles.
pub open spec fn inspector_key(key: Key) -> bool {
    match key {
        Key::Up | Key::Down | Key::PageUp | Key::PageDown | Key::Home | Key::End | Key::Left | Key::Right => true,
        Key::Char(c) => c == 'g' || c == 'G' || c == 'd',
        _ => false,
    }
}

impl App {
    /// Moves the inspector's cursor for a movement key and scrolls it into view.
    fn move_inspector_cursor(&mut self, key: Key)
        ensures
            match cursor_move(key, old(self).inspector.cursor_line, old(self).inspector.current_content@.len(), old(self).inspector.visible_height) {
                Some(c) => {
                    &&& final(self).inspector.cursor_line == c
                    &&& final(self).inspector.scroll_vertical == scroll_to_cursor(old(self).inspector.current_content@.len(),
                        old(self).inspector.visible_height, old(self).inspector.scroll_vertical, c as usize)
                },
                None => {
                    &&& final(self).inspector.cursor_line == old(self).inspector.cursor_line
                    &&& final(self).inspector.scroll_vertical == old(self).inspector.scroll_vertical
                },
            },
            *final(self) == (App {
                inspector: InspectorState {
                    cursor_line: final(self).inspector.cursor_line,
                    scroll_vertical: final(self).inspector.scroll_vertical,
                    ..old(self).inspector
                },
                ..*old(self)
            }),
    {
        let len = self.inspector.current_content.len();
        let last: usize = if len > 0 { len - 1 } else { 0 };
        let vh = self.inspector.visible_height;
        let page: usize = if vh >= 2 { vh - 2 } else { 0 };
        let cursor = self.inspector.cursor_line;
        let target: Option<usize> = match key {
            Key::Up => if cursor > 0 { Some(cursor - 1) } else { None },
            Key::Down => if cursor < last { Some(cursor + 1) } else { None },
            Key::PageUp => Some(if cursor >= page { cursor - page } else { 0 }),
            Key::PageDown => Some(if page < last && cursor < last - page { cursor + page } else { last }),
            Key::Home => Some(0),
            Key::End => Some(last),
            Key::Char(c) => if c == 'g' { Some(0) } else if c == 'G' { Some(last) } else { None },
            _ => None,
        };
        match target {
            Some(c) => {
                self.inspector.cursor_line = c;
                self.ensure_inspector_cursor_visible();
            },
            None => {},
        }
    }
}

/// The status shown while the diff of `file` at `commit` against its parent loads.
pub open spec fn diff_loading_message(file: Seq<char>, commit: Seq<char>) -> Seq<char> {
    "Loading diff view for "@ + file + " at "@ + byte_prefix(commit, 8).unwrap() + "..."@
}

/// What a key does in the code inspector (`old` to `new`), whether it was
/// handled, and what it asks for.
pub open spec fn code_inspector_step(old: App, new: App, key: Key, handled: bool, eff: EffectView) -> bool {
    &&& (old.ui.active_panel != PanelFocus::Inspector || !inspector_key(key) ==> {
        &&& !handled
        &&& eff is Nothing
        &&& new == old
    })
    &&& (old.ui.active_panel == PanelFocus::Inspector && inspector_key(key) ==> {
        &&& handled
        &&& key == Key::Left ==> eff is Nothing && new == (App {
            inspector: InspectorState {
                scroll_horizontal: (if old.inspector.scroll_horizontal > 0 { old.inspector.scroll_horizontal - 1 } else { 0 }) as u16,
                ..old.inspector
            },
            ..old
        })
        &&& key == Key::Right ==> eff is Nothing && new == (App {
            inspector: InspectorState { scroll_horizontal: (old.inspector.scroll_horizontal + 1) as u16, ..old.inspector },
            ..old
        })
        &&& key == Key::Char('d') ==> diff_toggle(old, new, eff)
        &&& key != Key::Left && key != Key::Right && key != Key::Char('d') ==> {
            &&& eff is Nothing
            &&& match cursor_move(key, old.inspector.cursor_line, old.inspector.current_content@.len(), old.inspector.visible_height) {
                Some(c) => {
                    &&& new.inspector.cursor_line == c
                    &&& new.inspector.scroll_vertical == scroll_to_cursor(old.inspector.current_content@.len(),
                        old.inspector.visible_height, old.inspector.scroll_vertical, c as usize)
                },
                None => {
                    &&& new.inspector.cursor_line == old.inspector.cursor_line
                    &&& new.inspector.scroll_vertical == old.inspector.scroll_vertical
                },
            }
            &&& new == (App {
                inspector: InspectorState {
                    cursor_line: new.inspector.cursor_line,
                    scroll_vertical: new.inspector.scroll_vertical,
                    ..old.inspector
                },
                ..old
            })
        }
    })
}

/// What the keys `p` and `n` do in the inspector.
pub open spec fn change_search_step(old: App, new: App, key: Key, handled: bool, eff: EffectView) -> bool {
    &&& (old.ui.active_panel != PanelFocus::Inspector || (key != Key::Char('p') && key != Key::Char('n')) ==> {
        &&& !handled
        &&& eff is Nothing
        &&& new == old
    })
    &&& (old.ui.active_panel == PanelFocus::Inspector && (key == Key::Char('p') || key == Key::Char('n')) ==> {
        &&& handled
        &&& match (old.active_file_context, old.history.selected_commit_hash) {
            (Some(f), Some(c)) => {
                &&& eff == EffectView::Run(TaskView::FindNextChange {
                    file_path: f@, current_commit: c@, line_number: old.inspector.cursor_line,
                })
                &&& new.ui.is_loading
                &&& new.ui.status_message@ == (if key == Key::Char('p') {
                    "Searching for previous change..."@
                } else {
                    "Searching for next change..."@
                })
                &&& new.active_background_tasks == (if old.active_background_tasks < usize::MAX {
                    old.active_background_tasks + 1
                } else {
                    old.active_background_tasks as int
                })
                &&& new == (App {
                    ui: UIState { is_loading: true, status_message: new.ui.status_message, ..old.ui },
                    active_background_tasks: new.active_background_tasks,
                    ..old
                })
            },
            _ => {
                &&& eff is Nothing
                &&& new == old
            },
        }
    })
}

/// What `d` does to the diff view (`old` to `new`) and what it asks for.
pub open spec fn diff_toggle(old: App, new: App, eff: EffectView) -> bool {
    &&& (!old.inspector.show_diff_view && old.inspector.diff_lines is None
        && old.history.selected_commit_hash is Some && old.active_file_context is Some ==> {
        &&& eff == (EffectView::FindParent {
            commit_hash: old.history.selected_commit_hash.unwrap()@,
            file_path: old.active_file_context.unwrap()@,
        })
        &&& new == (App { inspector: InspectorState { show_diff_view: true, ..old.inspector }, ..old })
    })
    &&& (!old.inspector.show_diff_view && old.inspector.diff_lines is None
        && !(old.history.selected_commit_hash is Some && old.active_file_context is Some) ==> {
        &&& eff is Nothing
        &&& new.ui.status_message@ == "No file or commit selected for diff view"@
        &&& new == (App { ui: UIState { status_message: new.ui.status_message, ..old.ui }, ..old })
    })
    &&& (!old.inspector.show_diff_view && old.inspector.diff_lines is Some ==> {
        &&& eff is Nothing
        &&& new.ui.status_message@ == "Switched to diff view"@
        &&& new == (App {
            inspector: InspectorState { show_diff_view: true, ..old.inspector },
            ui: UIState { status_message: new.ui.status_message, ..old.ui },
            ..old
        })
    })
    &&& (old.inspector.show_diff_view ==> {
        &&& eff is Nothing
        &&& new.ui.status_message@ == "Switched to full file view"@
        &&& new == (App {
            inspector: InspectorState { show_diff_view: false, ..old.inspector },
            ui: UIState { status_message: new.ui.status_message, ..old.ui },
            ..old
        })
    })
}

impl App {
    /// Flips between the diff view and the full file. Turning the diff view
    /// on without a diff asks for the parent commit, or is undone when no
    /// commit or file is selected.
    fn toggle_diff_view(&mut self) -> (r: Effect)
        ensures
            diff_toggle(*old(self), *final(self), r@),
    {
        self.inspector.show_diff_view = !self.inspector.show_diff_view;
        if self.inspector.show_diff_view {
            if self.inspector.diff_lines.is_none() {
                match (&self.history.selected_commit_hash, &self.active_file_context) {
                    (Some(c), Some(f)) => {
                        return Effect::FindParent { commit_hash: c.clone(), file_path: f.clone() };
                    },
                    _ => {
                        self.ui.status_message = "No file or commit selected for diff view".to_string();
                        self.inspector.show_diff_view = false;
                    },
                }
            } else {
                self.ui.status_message = "Switched to diff view".to_string();
            }
        } else {
            self.ui.status_message = "Switched to full file view".to_string();
        }
        Effect::Nothing
    }

    /// Goes on with the diff view once the parent of `commit_hash` was looked
    /// up: with a parent, the diff is to be generated; without one, or on an
    /// error, the diff view is turned off again.
    pub fn apply_parent_commit(&mut self, commit_hash: &String, file_path: &String, lookup: Result<Option<String>, String>) -> (r: Option<Task>)
        requires
            lookup matches Ok(Some(_)) ==> byte_prefix(commit_hash@, 8) is Some,
            lookup matches Ok(Some(_)) ==> old(self).active_background_tasks < usize::MAX,
        ensures
            match lookup {
                Ok(Some(p)) => {
                    &&& r matches Some(t) && t@ == (TaskView::GenerateDiff { file_path: file_path@, current_commit: commit_hash@, parent_commit: p@ })
                    &&& opt_text(final(self).inspector.parent_commit_hash) == Some(p@)
                    &&& final(self).ui.status_message@ == diff_loading_message(file_path@, commit_hash@)
                    &&& final(self).ui.is_loading
                    &&& final(self).active_background_tasks == old(self).active_background_tasks + 1
                    &&& final(self).inspector.show_diff_view == old(self).inspector.show_diff_view
                },
                Ok(None) => {
                    &&& r is None
                    &&& final(self).ui.status_message@ == "No parent commit - this is the initial commit"@
                    &&& !final(self).inspector.show_diff_view
                    &&& final(self).inspector.parent_commit_hash == old(self).inspector.parent_commit_hash
                    &&& final(self).ui.is_loading == old(self).ui.is_loading
                    &&& final(self).active_background_tasks == old(self).active_background_tasks
                },
                Err(e) => {
                    &&& r is None
                    &&& final(self).ui.status_message@ == "Failed to get parent commit: "@ + e@
                    &&& !final(self).inspector.show_diff_view
                    &&& final(self).inspector.parent_commit_hash == old(self).inspector.parent_commit_hash
                    &&& final(self).ui.is_loading == old(self).ui.is_loading
                    &&& final(self).active_background_tasks == old(self).active_background_tasks
                },
            },
            final(self).ui.active_panel == old(self).ui.active_panel,
            final(self).inspector.current_content == old(self).inspector.current_content,
            final(self).inspector.cursor_line == old(self).inspector.cursor_line,
            final(self).history == old(self).history,
            final(self).navigator == old(self).navigator,
    {
        match lookup {
            Ok(Some(parent)) => {
                self.inspector.parent_commit_hash = Some(parent.clone());
                let cc = chars_of(commit_hash.as_str());
                let short = match byte_prefix_chars(cc.as_slice(), 8) {
                    Some(v) => string_of(v.as_slice()),
                    None => String::new(),
                };
                let m1 = concat_str("Loading diff view for ", file_path.as_str());
                let m2 = concat_str(m1.as_str(), " at ");
                let m3 = concat_str(m2.as_str(), short.as_str());
                self.ui.status_message = concat_str(m3.as_str(), "...");
                self.ui.is_loading = true;
                self.active_background_tasks = self.active_background_tasks + 1;
                Some(Task::GenerateDiff { file_path: file_path.clone(), current_commit: commit_hash.clone(), parent_commit: parent })
            },
            Ok(None) => {
                self.ui.status_message = "No parent commit - this is the initial commit".to_string();
                self.inspector.show_diff_view = false;
                None
            },
            Err(e) => {
                self.ui.status_message = concat_str("Failed to get parent commit: ", e.as_str());
                self.inspector.show_diff_view = false;
                None
            },
        }
    }

    /// The keys of the code inspector: cursor movement, horizontal scrolling
    /// and the diff view. Returns whether the key was handled.
    pub fn handle_code_inspector_event(&mut self, key: Key) -> (r: (bool, Effect))
        requires
            old(self).ui.active_panel == PanelFocus::Inspector && key == Key::Right ==> old(self).inspector.scroll_horizontal < u16::MAX,
        ensures
            code_inspector_step(*old(self), *final(self), key, r.0, r.1@),
    {
        if self.ui.active_panel != PanelFocus::Inspector {
            return (false, Effect::Nothing);
        }
        match key {
            Key::Left => {
                self.inspector.scroll_horizontal = if self.inspector.scroll_horizontal > 0 { self.inspector.scroll_horizontal - 1 } else { 0 };
                (true, Effect::Nothing)
            },
            Key::Right => {
                self.inspector.scroll_horizontal = self.inspector.scroll_horizontal + 1;
                (true, Effect::Nothing)
            },
            Key::Char('d') => {
                let e = self.toggle_diff_view();
                (true, e)
            },
            Key::Up | Key::Down | Key::PageUp | Key::PageDown | Key::Home | Key::End | Key::Char('g') | Key::Char('G') => {
                self.move_inspector_cursor(key);
                (true, Effect::Nothing)
            },
            _ => (false, Effect::Nothing),
        }
    }

    /// The keys that look for the previous or next change of the cursor line.
    /// Returns whether the key was handled.
    pub fn handle_inspector_event(&mut self, key: Key) -> (r: (bool, Effect))
        ensures
            change_search_step(*old(self), *final(self), key, r.0, r.1@),
    {
        if self.ui.active_panel != PanelFocus::Inspector {
            return (false, Effect::Nothing);
        }
        let previous = match key {
            Key::Char('p') => true,
            Key::Char('n') => false,
            _ => {
                return (false, Effect::Nothing);
            },
        };
        let task = match (&self.active_file_context, &self.history.selected_commit_hash) {
            (Some(f), Some(c)) => Task::FindNextChange {
                file_path: f.clone(),
                current_commit: c.clone(),
                line_number: self.inspector.cursor_line,
            },
            _ => {
                return (true, Effect::Nothing);
            },
        };
        self.start_background_task();
        self.ui.is_loading = true;
        self.ui.status_message = if previous {
            "Searching for previous change...".to_string()
        } else {
            "Searching for next change...".to_string()
        };
        (true, Effect::Run(task))
    }
}

/// How selecting another commit changes the application (`old` to `new`)
/// and what it asks for: the commit's hash becomes the selected one, the
/// diff is dropped, the cursor line is saved for the previous commit, and
/// the file's text at the commit is to be loaded.
pub open spec fn commit_switch(old: App, new: App, eff: EffectView) -> bool {
    match old.history.selected_commit_index {
        Some(i) if i < old.history.commit_list@.len() => {
            let h = old.history.commit_list@[i as int].hash;
            let ui = if old.inspector.show_diff_view {
                UIState { status_message: new.ui.status_message, ..old.ui }
            } else {
                old.ui
            };
            &&& opt_text(new.history.selected_commit_hash) == Some(h@)
            &&& old.inspector.show_diff_view ==> new.ui.status_message@ == "Diff view cleared - press 'd' to regenerate"@
            &&& new == (App {
                history: HistoryState { selected_commit_hash: new.history.selected_commit_hash, ..old.history },
                inspector: InspectorState { diff_lines: None, parent_commit_hash: None, show_diff_view: false, ..old.inspector },
                ui: ui,
                per_commit_cursor_positions: new.per_commit_cursor_positions,
                ..old
            })
            &&& match old.active_file_context {
                Some(f) => {
                    &&& eff == (EffectView::LoadContent { commit_hash: h@, file_path: f@ })
                    &&& match old.last_commit_for_mapping {
                        Some(lc) => {
                            &&& new.per_commit_cursor_positions@.drop_last() == old.per_commit_cursor_positions@
                            &&& new.per_commit_cursor_positions@.len() == old.per_commit_cursor_positions@.len() + 1
                            &&& new.per_commit_cursor_positions@.last().0@ == lc@
                            &&& new.per_commit_cursor_positions@.last().1@ == f@
                            &&& new.per_commit_cursor_positions@.last().2 == old.inspector.cursor_line
                        },
                        None => new.per_commit_cursor_positions == old.per_commit_cursor_positions,
                    }
                },
                None => eff is Nothing && new.per_commit_cursor_positions == old.per_commit_cursor_positions,
            }
        },
        _ => eff is Nothing && new == old,
    }
}

impl App {
    /// Shows the selected commit: records its hash, drops the diff, saves
    /// the cursor line for the previous commit and asks for the file's text.
    pub fn update_code_inspector_for_commit(&mut self) -> (r: Effect)
        ensures
            commit_switch(*old(self), *final(self), r@),
    {
        let sel = match self.history.selected_commit_index {
            Some(i) => i,
            None => {
                return Effect::Nothing;
            },
        };
        if sel >= self.history.commit_list.len() {
            return Effect::Nothing;
        }
        let hash = self.history.commit_list[sel].hash.clone();
        self.history.selected_commit_hash = Some(hash.clone());
        self.inspector.diff_lines = None;
        self.inspector.parent_commit_hash = None;
        if self.inspector.show_diff_view {
            self.inspector.show_diff_view = false;
            self.ui.status_message = "Diff view cleared - press 'd' to regenerate".to_string();
        }
        match self.get_active_file() {
            Some(f) => {
                match &self.last_commit_for_mapping {
                    Some(lc) => {
                        let lc2 = lc.clone();
                        self.save_cursor_position(lc2.as_str(), f.as_str());
                    },
                    None => {},
                }
                Effect::LoadContent { commit_hash: hash, file_path: f }
            },
            None => Effect::Nothing,
        }
    }

    /// Finishes showing a commit once the file's text at it was loaded (or
    /// not): the text is shown, the cursor placed by `apply_smart_cursor_positioning`
    /// and scrolled into view, and the commit becomes the one to map from next.
    pub fn finish_commit_switch(
        &mut self,
        commit_hash: &String,
        file_path: &String,
        loaded: Result<Vec<String>, String>,
        contents: &Result<(String, String), String>,
    )
        requires
            old(self).last_commit_for_mapping is Some ==> old(self).inspector.cursor_line < usize::MAX,
        ensures
            opt_text(final(self).last_commit_for_mapping) == Some(commit_hash@),
            match loaded {
                Ok(content) => {
                    let (c, m) = smart_position(opt_text(old(self).last_commit_for_mapping),
                        position_lookup(old(self).per_commit_cursor_positions@, commit_hash@, file_path@),
                        old(self).inspector.cursor_line, content@.len() as int, commit_hash@, contents_view(*contents));
                    &&& final(self).inspector.current_content == content
                    &&& final(self).inspector.scroll_horizontal == 0
                    &&& final(self).inspector.cursor_line == c
                    &&& final(self).ui.status_message@ == m
                    &&& final(self).inspector.scroll_vertical == scroll_to_cursor(content@.len(),
                        old(self).inspector.visible_height, old(self).inspector.scroll_vertical, c as usize)
                },
                Err(e) => {
                    &&& final(self).inspector.current_content@.len() == 0
                    &&& final(self).ui.status_message@ == "Error loading file: "@ + e@
                    &&& final(self).inspector.cursor_line == old(self).inspector.cursor_line
                },
            },
            final(self).history == old(self).history,
            final(self).navigator == old(self).navigator,
            final(self).active_file_context == old(self).active_file_context,
            final(self).per_commit_cursor_positions == old(self).per_commit_cursor_positions,
            final(self).ui.active_panel == old(self).ui.active_panel,
    {
        match loaded {
            Ok(content) => {
                self.inspector.current_content = content;
                self.inspector.scroll_horizontal = 0;
                let msg = self.apply_smart_cursor_positioning(commit_hash.as_str(), file_path.as_str(), contents);
                self.ui.status_message = msg;
                self.ensure_inspector_cursor_visible();
            },
            Err(e) => {
                self.inspector.current_content = Vec::new();
                self.ui.status_message = concat_str("Error loading file: ", e.as_str());
            },
        }
        self.last_commit_for_mapping = Some(commit_hash.clone());
    }
}

/// The number of commits asked for at a time when more history is loaded.
pub const HISTORY_CHUNK_SIZE: usize = 50;

/// How asking for more history changes the application and what it asks
/// for; `r` is whether the request was taken up.
pub open spec fn more_history(old: App, new: App, r: bool, eff: EffectView) -> bool {
    if old.history.is_loading_more || old.history.history_complete {
        !r && eff is Nothing && new == old
    } else {
        &&& r
        &&& match old.active_file_context {
            Some(f) => {
                &&& eff == EffectView::Run(TaskView::LoadCommitHistoryProgressive {
                    file_path: f@, chunk_size: HISTORY_CHUNK_SIZE, start_offset: old.history.next_chunk_offset,
                })
                &&& new.ui.status_message@ == "Loading more commits..."@
                &&& new.active_background_tasks == (if old.active_background_tasks < usize::MAX {
                    old.active_background_tasks + 1
                } else {
                    old.active_background_tasks as int
                })
                &&& new == (App {
                    history: HistoryState { is_loading_more: true, ..old.history },
                    ui: UIState { status_message: new.ui.status_message, ..old.ui },
                    active_background_tasks: new.active_background_tasks,
                    ..old
                })
            },
            None => eff is Nothing && new == old,
        }
    }
}

/// How starting to load the history of the selected file changes the
/// application (`old` to `new`) and what it asks for.
pub open spec fn history_load(old: App, new: App, eff: EffectView) -> bool {
    &&& match selection_of(old.navigator@.mode) {
        Some(p) => {
            &&& eff == EffectView::Run(TaskView::LoadCommitHistoryStreaming { file_path: p })
            &&& new.history.commit_list@.len() == 0
            &&& new.history.selected_commit_index is None
            &&& new.history.selected_commit_hash is None
            &&& !new.history.is_loading_more
            &&& !new.history.history_complete
            &&& new.history.next_chunk_offset == 0
            &&& new.ui.is_loading
            &&& new.ui.status_message@ == "Loading history for "@ + p + "..."@
            &&& new.active_background_tasks == (if old.active_background_tasks < usize::MAX {
                old.active_background_tasks + 1
            } else {
                old.active_background_tasks as int
            })
            &&& new.inspector == old.inspector
        },
        None => {
            &&& eff is Nothing
            &&& new.history.commit_list@.len() == 0
            &&& new.history.selected_commit_index is None
            &&& new.history.selected_commit_hash is None
            &&& new.inspector.current_content@.len() == 0
            &&& new.ui.status_message@ == "No file selected for history"@
            &&& new.ui.is_loading == old.ui.is_loading
            &&& new.active_background_tasks == old.active_background_tasks
        },
    }
    &&& new.navigator == old.navigator
    &&& new.active_file_context == old.active_file_context
    &&& new.ui.active_panel == old.ui.active_panel
    &&& new.should_quit == old.should_quit
}

/// What a key does in the history panel.
pub open spec fn history_step(old: App, new: App, key: Key, handled: bool, eff: EffectView) -> bool {
    &&& (old.ui.active_panel != PanelFocus::History || !(key == Key::Up || key == Key::Down || key == Key::Enter) ==> {
        &&& !handled
        &&& eff is Nothing
        &&& new == old
    })
    &&& (old.ui.active_panel == PanelFocus::History && (key == Key::Up || key == Key::Down || key == Key::Enter) ==> {
        let len = old.history.commit_list@.len();
        &&& handled
        &&& key == Key::Enter ==> eff is Nothing
            && new == (App { ui: UIState { active_panel: PanelFocus::Inspector, ..old.ui }, ..old })
        &&& key == Key::Up ==> match old.history.selected_commit_index {
            Some(i) => if i > 0 {
                commit_switch(App { history: HistoryState { selected_commit_index: Some((i - 1) as usize), ..old.history }, ..old },
                    new, eff)
            } else {
                eff is Nothing && new == old
            },
            None => if len > 0 {
                commit_switch(App { history: HistoryState { selected_commit_index: Some(0), ..old.history }, ..old },
                    new, eff)
            } else {
                eff is Nothing && new == old
            },
        }
        &&& key == Key::Down ==> match old.history.selected_commit_index {
            Some(i) => if i < len - 1 {
                commit_switch(App { history: HistoryState { selected_commit_index: Some((i + 1) as usize), ..old.history }, ..old },
                    new, eff)
            } else {
                exists|taken: bool| more_history(old, new, taken, eff)
            },
            None => if len > 0 {
                commit_switch(App { history: HistoryState { selected_commit_index: Some(0), ..old.history }, ..old },
                    new, eff)
            } else {
                eff is Nothing && new == old
            },
        }
    })
}

/// What the keys that work in every panel do.
pub open spec fn navigation_step(old: App, new: App, key: Key, handled: bool, eff: EffectView) -> bool {
    &&& (key == Key::Char('1') ==> handled && eff is Nothing
        && new == (App { ui: UIState { active_panel: PanelFocus::Navigator, ..old.ui }, ..old }))
    &&& (key == Key::Char('2') ==> handled && eff is Nothing
        && new == (App { ui: UIState { active_panel: PanelFocus::History, ..old.ui }, ..old }))
    &&& (key == Key::Char('3') ==> handled && eff is Nothing
        && new == (App { ui: UIState { active_panel: PanelFocus::Inspector, ..old.ui }, ..old }))
    &&& (key == Key::Char('[') ==> handled && (match old.history.selected_commit_index {
        Some(i) => if i < old.history.commit_list@.len() - 1 {
            commit_switch(App { history: HistoryState { selected_commit_index: Some((i + 1) as usize), ..old.history }, ..old },
                new, eff)
        } else {
            eff is Nothing && new == old
        },
        None => eff is Nothing && new == old,
    }))
    &&& (key == Key::Char(']') ==> handled && (match old.history.selected_commit_index {
        Some(i) => if i > 0 {
            commit_switch(App { history: HistoryState { selected_commit_index: Some((i - 1) as usize), ..old.history }, ..old },
                new, eff)
        } else {
            eff is Nothing && new == old
        },
        None => eff is Nothing && new == old,
    }))
    &&& (!(key == Key::Char('1') || key == Key::Char('2') || key == Key::Char('3') || key == Key::Char('[') || key == Key::Char(']'))
        ==> !handled && eff is Nothing && new == old)
}

impl App {
    /// Starts loading the history of the file selected in the navigator; with
    /// nothing selected, clears the history and the inspector.
    pub fn load_commit_history_for_selected_file(&mut self) -> (r: Effect)
        ensures
            history_load(*old(self), *final(self), r@),
    {
        match self.navigator.get_selection() {
            Some(p) => {
                self.history.reset_for_new_file();
                self.start_background_task();
                self.ui.is_loading = true;
                let m1 = concat_str("Loading history for ", p.as_str());
                self.ui.status_message = concat_str(m1.as_str(), "...");
                Effect::Run(Task::LoadCommitHistoryStreaming { file_path: p })
            },
            None => {
                self.history.commit_list = Vec::new();
                self.history.selected_commit_index = None;
                self.history.selected_commit_hash = None;
                self.inspector.current_content = Vec::new();
                self.ui.status_message = "No file selected for history".to_string();
                Effect::Nothing
            },
        }
    }

    /// Asks for the next chunk of the active file's history, unless it is
    /// complete or already being loaded.
    pub fn load_more_commit_history(&mut self) -> (r: (bool, Effect))
        ensures
            more_history(*old(self), *final(self), r.0, r.1@),
    {
        if self.history.is_loading_more || self.history.history_complete {
            return (false, Effect::Nothing);
        }
        match self.get_active_file() {
            Some(f) => {
                let start = self.history.next_chunk_offset;
                self.start_background_task();
                self.history.is_loading_more = true;
                self.ui.status_message = "Loading more commits...".to_string();
                (true, Effect::Run(Task::LoadCommitHistoryProgressive {
                    file_path: f,
                    chunk_size: HISTORY_CHUNK_SIZE,
                    start_offset: start,
                }))
            },
            None => (true, Effect::Nothing),
        }
    }

    /// Selects the commit at `index` and shows it.
    fn select_commit(&mut self, index: usize) -> (r: Effect)
        ensures
            commit_switch(App { history: HistoryState { selected_commit_index: Some(index), ..old(self).history }, ..*old(self) },
                *final(self), r@),
    {
        self.history.selected_commit_index = Some(index);
        self.update_code_inspector_for_commit()
    }

    /// The keys of the history panel: moving through the commits, loading
    /// more at the end of the list, and Enter to go to the inspector.
    pub fn handle_history_event(&mut self, key: Key) -> (r: (bool, Effect))
        requires
            old(self).ui.active_panel == PanelFocus::History && key == Key::Down
                && old(self).history.selected_commit_index is Some ==> old(self).history.commit_list@.len() > 0,
        ensures
            history_step(*old(self), *final(self), key, r.0, r.1@),
    {
        if self.ui.active_panel != PanelFocus::History {
            return (false, Effect::Nothing);
        }
        let len = self.history.commit_list.len();
        match key {
            Key::Up => {
                match self.history.selected_commit_index {
                    Some(i) => {
                        if i > 0 {
                            let e = self.select_commit(i - 1);
                            return (true, e);
                        }
                        (true, Effect::Nothing)
                    },
                    None => {
                        if len > 0 {
                            let e = self.select_commit(0);
                            return (true, e);
                        }
                        (true, Effect::Nothing)
                    },
                }
            },
            Key::Down => {
                match self.history.selected_commit_index {
                    Some(i) => {
                        if i < len - 1 {
                            let e = self.select_commit(i + 1);
                            (true, e)
                        } else {
                            let (_taken, e) = self.load_more_commit_history();
                            (true, e)
                        }
                    },
                    None => {
                        if len > 0 {
                            let e = self.select_commit(0);
                            return (true, e);
                        }
                        (true, Effect::Nothing)
                    },
                }
            },
            Key::Enter => {
                self.ui.active_panel = PanelFocus::Inspector;
                (true, Effect::Nothing)
            },
            _ => (false, Effect::Nothing),
        }
    }

    /// The keys that work in every panel: 1, 2 and 3 focus a panel, `[` and
    /// `]` select the older or the younger commit.
    pub fn handle_navigation_event(&mut self, key: Key) -> (r: (bool, Effect))
        requires
            key == Key::Char('[') && old(self).history.selected_commit_index is Some ==> old(self).history.commit_list@.len() > 0,
        ensures
            navigation_step(*old(self), *final(self), key, r.0, r.1@),
    {
        match key {
            Key::Char('1') => {
                self.ui.active_panel = PanelFocus::Navigator;
                (true, Effect::Nothing)
            },
            Key::Char('2') => {
                self.ui.active_panel = PanelFocus::History;
                (true, Effect::Nothing)
            },
            Key::Char('3') => {
                self.ui.active_panel = PanelFocus::Inspector;
                (true, Effect::Nothing)
            },
            Key::Char('[') => {
                match self.history.selected_commit_index {
                    Some(i) => {
                        if i < self.history.commit_list.len() - 1 {
                            let e = self.select_commit(i + 1);
                            return (true, e);
                        }
                        (true, Effect::Nothing)
                    },
                    None => (true, Effect::Nothing),
                }
            },
            Key::Char(']') => {
                match self.history.selected_commit_index {
                    Some(i) => {
                        if i > 0 {
                            let e = self.select_commit(i - 1);
                            return (true, e);
                        }
                        (true, Effect::Nothing)
                    },
                    None => (true, Effect::Nothing),
                }
            },
            _ => (false, Effect::Nothing),
        }
    }
}

/// The navigator event that a key stands for in mode `m`: in search mode,
/// Esc and Enter end the search and typing edits the query; otherwise the
/// arrows move and fold, and `/` starts a search. Enter while browsing is
/// handled on its own.
pub open spec fn navigator_key_event(m: ModeView, key: Key) -> Option<EventView> {
    if (m is Searching) && (key == Key::Esc || key == Key::Enter) {
        Some(EventView::EndSearch)
    } else if (m is Searching) && (key is Char) {
        Some(EventView::UpdateSearchQuery(query_of(m).push(key->Char_0)))
    } else if (m is Searching) && key == Key::Backspace {
        Some(EventView::UpdateSearchQuery(if query_of(m).len() > 0 { query_of(m).drop_last() } else { query_of(m) }))
    } else {
        match key {
            Key::Up => Some(EventView::NavigateUp),
            Key::Down => Some(EventView::NavigateDown),
            Key::Left => Some(EventView::CollapseSelected),
            Key::Right => Some(EventView::ExpandSelected),
            Key::Char(c) => if c == '/' { Some(EventView::StartSearch) } else { None },
            _ => None,
        }
    }
}

/// What a key does in the navigator panel.
pub open spec fn navigator_step(old: App, new: App, key: Key, handled: bool, eff: EffectView) -> bool {
    let root = old.navigator@.tree.root;
    let m = old.navigator@.mode;
    if old.ui.active_panel != PanelFocus::Navigator {
        !handled && eff is Nothing && new == old
    } else {
        match navigator_key_event(m, key) {
            Some(ev) => {
                &&& handled
                &&& eff is Nothing
                &&& new.navigator@ == (NavigatorView { tree: old.navigator@.tree, mode: next_mode(root, m, ev) })
                &&& new == (App { navigator: new.navigator, ..old })
            },
            None => if key == Key::Enter {
                &&& handled
                &&& match selection_of(m) {
                    Some(sel) => if dir_at(root, sel) {
                        &&& eff is Nothing
                        &&& new.navigator@ == (NavigatorView {
                            tree: old.navigator@.tree,
                            mode: next_mode(root, m, EventView::ToggleExpanded(sel)),
                        })
                        &&& new == (App { navigator: new.navigator, ..old })
                    } else {
                        &&& opt_text(new.active_file_context) == Some(sel)
                        &&& new.ui.active_panel == PanelFocus::History
                        &&& exists|mid: App| #[trigger] history_load(
                            App { active_file_context: new.active_file_context, ..old }, mid, eff)
                            && new == (App { ui: UIState { active_panel: PanelFocus::History, ..mid.ui }, ..mid })
                    },
                    None => eff is Nothing && new == old,
                }
            } else {
                !handled && eff is Nothing && new == old
            },
        }
    }
}

/// The query with its last character removed, if it has one.
fn query_without_last(q: String) -> (r: String)
    ensures
        r@ == (if q@.len() > 0 { q@.drop_last() } else { q@ }),
{
    let qc = chars_of(q.as_str());
    if qc.len() == 0 {
        return q;
    }
    let n = qc.len() - 1;
    let mut out = String::new();
    let mut i: usize = 0;
    while i < n
        invariant
            n == qc@.len() - 1,
            i <= n,
            out@ == qc@.subrange(0, i as int),
        decreases n - i,
    {
        push_char(&mut out, qc[i]);
        assert(qc@.subrange(0, i + 1) =~= qc@.subrange(0, i as int).push(qc@[i as int]));
        i = i + 1;
    }
    assert(qc@.drop_last() =~= qc@.subrange(0, n as int));
    out
}

impl App {
    /// Hands a navigator event to the navigator.
    fn navigate(&mut self, ev: NavigatorEvent)
        ensures
            final(self).navigator@ == (NavigatorView {
                tree: old(self).navigator@.tree,
                mode: next_mode(old(self).navigator@.tree.root, old(self).navigator@.mode, crate::navigator::event_view(ev)),
            }),
            *final(self) == (App { navigator: final(self).navigator, ..*old(self) }),
    {
        let _ = self.navigator.handle_event(ev);
    }

    /// The keys of the navigator panel. Returns whether the key was handled.
    pub fn handle_navigator_event(&mut self, key: Key) -> (r: (bool, Effect))
        ensures
            navigator_step(*old(self), *final(self), key, r.0, r.1@),
    {
        if self.ui.active_panel != PanelFocus::Navigator {
            return (false, Effect::Nothing);
        }
        if self.navigator.is_searching() {
            match key {
                Key::Esc | Key::Enter => {
                    self.navigate(NavigatorEvent::EndSearch);
                    return (true, Effect::Nothing);
                },
                Key::Char(c) => {
                    let mut q = self.navigator.get_search_query();
                    push_char(&mut q, c);
                    self.navigate(NavigatorEvent::UpdateSearchQuery(q));
                    return (true, Effect::Nothing);
                },
                Key::Backspace => {
                    let q = query_without_last(self.navigator.get_search_query());
                    self.navigate(NavigatorEvent::UpdateSearchQuery(q));
                    return (true, Effect::Nothing);
                },
                _ => {},
            }
        }
        match key {
            Key::Up => {
                self.navigate(NavigatorEvent::NavigateUp);
                (true, Effect::Nothing)
            },
            Key::Down => {
                self.navigate(NavigatorEvent::NavigateDown);
                (true, Effect::Nothing)
            },
            Key::Left => {
                self.navigate(NavigatorEvent::CollapseSelected);
                (true, Effect::Nothing)
            },
            Key::Right => {
                self.navigate(NavigatorEvent::ExpandSelected);
                (true, Effect::Nothing)
            },
            Key::Char('/') => {
                self.navigate(NavigatorEvent::StartSearch);
                (true, Effect::Nothing)
            },
            Key::Enter => {
                match self.navigator.get_selection() {
                    Some(sel) => {
                        if self.navigator.is_path_directory(sel.as_str()) {
                            self.navigate(NavigatorEvent::ToggleExpanded(sel));
                            (true, Effect::Nothing)
                        } else {
                            self.active_file_context = Some(sel);
                            let ghost before = *self;
                            let e = self.load_commit_history_for_selected_file();
                            let ghost mid = *self;
                            self.ui.active_panel = PanelFocus::History;
                            assert(history_load(before, mid, e@));
                            (true, e)
                        }
                    },
                    None => (true, Effect::Nothing),
                }
            },
            _ => (false, Effect::Nothing),
        }
    }
}

/// What a key does in the focused panel: in the inspector, the code
/// inspector's keys first, then the keys that look for changes.
pub open spec fn panel_step(old: App, new: App, key: Key, handled: bool, eff: EffectView) -> bool {
    match old.ui.active_panel {
        PanelFocus::Navigator => navigator_step(old, new, key, handled, eff),
        PanelFocus::History => history_step(old, new, key, handled, eff),
        PanelFocus::Inspector => exists|m1: App, h1: bool, e1: EffectView|
            #[trigger] code_inspector_step(old, m1, key, h1, e1) && (if h1 {
                new == m1 && handled && eff == e1
            } else {
                change_search_step(m1, new, key, handled, eff)
            }),
    }
}

/// Whether the navigator is searching, so that typed keys belong to the query.
pub open spec fn in_search(app: App) -> bool {
    app.navigator@.mode is Searching
}

/// What a key does to the application. Outside a search, `q` and Esc quit
/// and Tab and Shift-Tab move the focus; every other key, and every key
/// during a search, goes to the focused panel and, when it does not take
/// it, to the keys that work everywhere.
pub open spec fn key_step(old: App, new: App, key: Key, handled: bool, eff: EffectView) -> bool {
    if !in_search(old) && (key == Key::Char('q') || key == Key::Esc) {
        handled && eff is Nothing && new == (App { should_quit: true, ..old })
    } else if !in_search(old) && key == Key::Tab {
        handled && eff is Nothing && new == (App { ui: UIState { active_panel: next_focus(old.ui.active_panel), ..old.ui }, ..old })
    } else if !in_search(old) && key == Key::BackTab {
        handled && eff is Nothing && new == (App { ui: UIState { active_panel: previous_focus(old.ui.active_panel), ..old.ui }, ..old })
    } else {
        exists|mid: App, h: bool, e: EffectView| #[trigger] panel_step(old, mid, key, h, e) && (if h {
            new == mid && handled && eff == e
        } else {
            navigation_step(mid, new, key, handled, eff)
        })
    }
}

/// The inputs on which the keys work without running past a limit: moving
/// right in the inspector needs room in the scroll position, and moving
/// down the history or to an older commit needs a list when one is selected.
pub open spec fn key_ok(app: App, key: Key) -> bool {
    &&& app.ui.active_panel == PanelFocus::Inspector && key == Key::Right ==> app.inspector.scroll_horizontal < u16::MAX
    &&& (app.ui.active_panel == PanelFocus::History && key == Key::Down) || key == Key::Char('[')
        ==> (app.history.selected_commit_index is Some ==> app.history.commit_list@.len() > 0)
}

impl App {
    /// Handles a key. Returns whether it was handled and what the event loop
    /// has to do next.
    pub fn handle_event(&mut self, key: Key) -> (r: (bool, Effect))
        requires
            key_ok(*old(self), key),
        ensures
            key_step(*old(self), *final(self), key, r.0, r.1@),
    {
        if !self.navigator.is_searching() {
            match key {
                Key::Char('q') | Key::Esc => {
                    self.should_quit = true;
                    return (true, Effect::Nothing);
                },
                Key::Tab => {
                    self.next_panel();
                    return (true, Effect::Nothing);
                },
                Key::BackTab => {
                    self.previous_panel();
                    return (true, Effect::Nothing);
                },
                _ => {},
            }
        }
        let ghost start = *self;
        let (handled, eff) = match self.ui.active_panel {
            PanelFocus::Navigator => self.handle_navigator_event(key),
            PanelFocus::History => self.handle_history_event(key),
            PanelFocus::Inspector => {
                let (h1, e1) = self.handle_code_inspector_event(key);
                let ghost m1 = *self;
                let ghost ev1 = e1@;
                if h1 {
                    assert(code_inspector_step(start, m1, key, h1, ev1));
                    (h1, e1)
                } else {
                    let (h2, e2) = self.handle_inspector_event(key);
                    assert(code_inspector_step(start, m1, key, h1, ev1));
                    (h2, e2)
                }
            },
        };
        let ghost mid = *self;
        let ghost mid_eff = eff@;
        assert(panel_step(start, mid, key, handled, mid_eff));
        if handled {
            return (true, eff);
        }
        assert(mid == start);
        self.handle_navigation_event(key)
    }
}

} // verus!
