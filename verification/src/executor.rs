//! Running commands against a configuration: the scripted counterpart of the
//! key handlers, producing the next configuration and a status message.

use vstd::prelude::*;
use vstd::string::StringExecFns;
use crate::app::{focus_after, focus_before, next_focus, previous_focus, PanelFocus};
use crate::command::Command;
use crate::test_config::{ConfigView, TestConfig};
use crate::text::{concat_str, decimal, decimal_string, push_char};

verus! {

/// What running a command gives: the next configuration, the status message
/// if the command set one, and whether the application should quit.
#[derive(Debug)]
pub struct ExecutionResult {
    pub config: TestConfig,
    pub status_message: Option<String>,
    pub should_quit: bool,
}

/// The value of an execution result.
pub struct Outcome {
    pub config: ConfigView,
    pub message: Option<Seq<char>>,
    pub quit: bool,
}

/// Runs commands against configurations.
pub struct Executor;

/// `a - b`, or 0 when `b` is larger.
pub open spec fn sat_sub(a: int, b: int) -> int {
    if a >= b { a - b } else { 0 }
}

/// The message of a panel switch.
pub open spec fn switched_message(p: PanelFocus) -> Seq<char> {
    match p {
        PanelFocus::Navigator => "Switched to Navigator panel"@,
        PanelFocus::History => "Switched to History panel"@,
        PanelFocus::Inspector => "Switched to Inspector panel"@,
    }
}

/// The outcome that changes nothing and sets no message.
pub open spec fn unchanged(c: ConfigView) -> Outcome {
    Outcome { config: c, message: None, quit: false }
}

/// History up: the previous commit, or the first one when none is selected.
pub open spec fn history_up(c: ConfigView) -> Outcome {
    match c.selected_commit_index {
        Some(cur) => if cur > 0 {
            let i = (cur - 1) as usize;
            Outcome {
                config: ConfigView { selected_commit_index: Some(i), ..c },
                message: if i < c.commit_list.len() { Some("Selected commit: "@ + c.commit_list[i as int].short_hash) } else { None },
                quit: false,
            }
        } else {
            unchanged(c)
        },
        None => if c.commit_list.len() > 0 {
            Outcome {
                config: ConfigView { selected_commit_index: Some(0usize), ..c },
                message: Some("Selected commit: "@ + c.commit_list[0].short_hash),
                quit: false,
            }
        } else {
            unchanged(c)
        },
    }
}

/// History down: the next commit, or the first one when none is selected.
pub open spec fn history_down(c: ConfigView) -> Outcome {
    match c.selected_commit_index {
        Some(cur) => if cur < sat_sub(c.commit_list.len() as int, 1) {
            let i = (cur + 1) as usize;
            Outcome {
                config: ConfigView { selected_commit_index: Some(i), ..c },
                message: Some("Selected commit: "@ + c.commit_list[i as int].short_hash),
                quit: false,
            }
        } else {
            unchanged(c)
        },
        None => if c.commit_list.len() > 0 {
            Outcome {
                config: ConfigView { selected_commit_index: Some(0usize), ..c },
                message: Some("Selected commit: "@ + c.commit_list[0].short_hash),
                quit: false,
            }
        } else {
            unchanged(c)
        },
    }
}

/// Selecting the highlighted commit: only a message.
pub open spec fn select_commit(c: ConfigView) -> Outcome {
    match c.selected_commit_index {
        Some(i) => if i < c.commit_list.len() {
            Outcome { config: c, message: Some("Viewing commit: "@ + c.commit_list[i as int].short_hash), quit: false }
        } else {
            unchanged(c)
        },
        None => unchanged(c),
    }
}

/// One line up, scrolling up when the cursor leaves the view.
pub open spec fn inspector_up(c: ConfigView) -> Outcome {
    if c.cursor_line > 0 {
        let l = (c.cursor_line - 1) as usize;
        Outcome {
            config: ConfigView {
                cursor_line: l,
                inspector_scroll_vertical: if l < c.inspector_scroll_vertical { l as u16 } else { c.inspector_scroll_vertical },
                ..c
            },
            message: Some("Line: "@ + decimal((l + 1) as nat)),
            quit: false,
        }
    } else {
        unchanged(c)
    }
}

/// One line down, unless on the last line.
pub open spec fn inspector_down(c: ConfigView) -> Outcome {
    if c.cursor_line < sat_sub(c.current_content.len() as int, 1) {
        let l = (c.cursor_line + 1) as usize;
        Outcome {
            config: ConfigView { cursor_line: l, ..c },
            message: Some("Line: "@ + decimal((l + 1) as nat)),
            quit: false,
        }
    } else {
        unchanged(c)
    }
}

/// Ten lines up, the view starting at the cursor.
pub open spec fn inspector_page_up(c: ConfigView) -> Outcome {
    let l = sat_sub(c.cursor_line as int, 10) as usize;
    Outcome {
        config: ConfigView { cursor_line: l, inspector_scroll_vertical: l as u16, ..c },
        message: Some("Page up - Line: "@ + decimal((l + 1) as nat)),
        quit: false,
    }
}

/// Ten lines down, at most to the last line.
pub open spec fn inspector_page_down(c: ConfigView) -> Outcome {
    let last = sat_sub(c.current_content.len() as int, 1);
    let l = (if c.cursor_line + 10 < last { c.cursor_line + 10 } else { last }) as usize;
    Outcome {
        config: ConfigView { cursor_line: l, ..c },
        message: Some("Page down - Line: "@ + decimal((l + 1) as nat)),
        quit: false,
    }
}

/// What one command does to a configuration, before the status message is
/// recorded; a sequence is handled by `run_command`.
pub open spec fn step(c: ConfigView, cmd: Command) -> Outcome {
    let nav = c.active_panel == PanelFocus::Navigator;
    let hist = c.active_panel == PanelFocus::History;
    let insp = c.active_panel == PanelFocus::Inspector;
    match cmd {
        Command::Quit => Outcome { config: c, message: Some("Goodbye!"@), quit: true },
        Command::NextPanel => {
            let p = next_focus(c.active_panel);
            Outcome { config: ConfigView { active_panel: p, ..c }, message: Some(switched_message(p)), quit: false }
        },
        Command::PreviousPanel => {
            let p = previous_focus(c.active_panel);
            Outcome { config: ConfigView { active_panel: p, ..c }, message: Some(switched_message(p)), quit: false }
        },
        Command::StartSearch => if nav {
            Outcome {
                config: ConfigView { in_search_mode: true, search_query: Seq::empty(), ..c },
                message: Some("Search mode activated"@),
                quit: false,
            }
        } else {
            unchanged(c)
        },
        Command::EndSearch => if nav && c.in_search_mode {
            Outcome {
                config: ConfigView { in_search_mode: false, search_query: Seq::empty(), ..c },
                message: Some("Search mode deactivated"@),
                quit: false,
            }
        } else {
            unchanged(c)
        },
        Command::SearchInput(ch) => if nav && c.in_search_mode {
            let q = c.search_query.push(ch);
            Outcome { config: ConfigView { search_query: q, ..c }, message: Some("Search: "@ + q), quit: false }
        } else {
            unchanged(c)
        },
        Command::SearchBackspace => if nav && c.in_search_mode {
            let q = if c.search_query.len() > 0 { c.search_query.drop_last() } else { c.search_query };
            Outcome { config: ConfigView { search_query: q, ..c }, message: Some("Search: "@ + q), quit: false }
        } else {
            unchanged(c)
        },
        Command::HistoryUp => if hist { history_up(c) } else { unchanged(c) },
        Command::HistoryDown => if hist { history_down(c) } else { unchanged(c) },
        Command::SelectCommit => if hist { select_commit(c) } else { unchanged(c) },
        Command::InspectorUp => if insp { inspector_up(c) } else { unchanged(c) },
        Command::InspectorDown => if insp { inspector_down(c) } else { unchanged(c) },
        Command::InspectorPageUp => if insp { inspector_page_up(c) } else { unchanged(c) },
        Command::InspectorPageDown => if insp { inspector_page_down(c) } else { unchanged(c) },
        Command::InspectorHome => if insp {
            Outcome {
                config: ConfigView { cursor_line: 0, inspector_scroll_vertical: 0, ..c },
                message: Some("Moved to beginning of file"@),
                quit: false,
            }
        } else {
            unchanged(c)
        },
        Command::InspectorEnd => if insp {
            Outcome {
                config: ConfigView { cursor_line: sat_sub(c.current_content.len() as int, 1) as usize, ..c },
                message: Some("Moved to end of file"@),
                quit: false,
            }
        } else {
            unchanged(c)
        },
        Command::InspectorLeft => if insp {
            let col = sat_sub(c.cursor_column as int, 1) as usize;
            Outcome { config: ConfigView { cursor_column: col, ..c }, message: Some("Column: "@ + decimal(col as nat)), quit: false }
        } else {
            unchanged(c)
        },
        Command::InspectorRight => if insp {
            let col = (c.cursor_column + 1) as usize;
            Outcome { config: ConfigView { cursor_column: col, ..c }, message: Some("Column: "@ + decimal(col as nat)), quit: false }
        } else {
            unchanged(c)
        },
        Command::GoToTop => if insp {
            Outcome {
                config: ConfigView { cursor_line: 0, inspector_scroll_vertical: 0, ..c },
                message: Some("Moved to top"@),
                quit: false,
            }
        } else {
            unchanged(c)
        },
        Command::GoToBottom => if insp {
            Outcome {
                config: ConfigView { cursor_line: sat_sub(c.current_content.len() as int, 1) as usize, ..c },
                message: Some("Moved to bottom"@),
                quit: false,
            }
        } else {
            unchanged(c)
        },
        Command::PreviousChange => if insp {
            Outcome { config: c, message: Some("Previous change for line "@ + decimal((c.cursor_line + 1) as nat)), quit: false }
        } else {
            unchanged(c)
        },
        Command::NextChange => if insp {
            Outcome {
                config: ConfigView { is_loading: true, ..c },
                message: Some("Searching for next change..."@),
                quit: false,
            }
        } else {
            unchanged(c)
        },
        Command::ToggleDiff => if insp {
            let d = !c.show_diff_view;
            Outcome {
                config: ConfigView { show_diff_view: d, ..c },
                message: Some(if d { "Switched to diff view"@ } else { "Switched to full file view"@ }),
                quit: false,
            }
        } else {
            unchanged(c)
        },
        _ => unchanged(c),
    }
}

/// The outcome with its message, if any, recorded as the status message.
pub open spec fn record_message(o: Outcome) -> Outcome {
    match o.message {
        Some(m) => Outcome { config: ConfigView { status_message: m, ..o.config }, ..o },
        None => o,
    }
}

/// What `Executor::execute` gives for a configuration and a command.
pub open spec fn run_command(c: ConfigView, cmd: Command) -> Outcome
    decreases cmd,
{
    match cmd {
        Command::Sequence(v) => record_message(run_sequence(c, v@, None)),
        _ => record_message(step(c, cmd)),
    }
}

/// The commands of a sequence run in order, each on the result of the one
/// before; the last message set stands, and a quit ends the sequence.
pub open spec fn run_sequence(c: ConfigView, cmds: Seq<Command>, msg: Option<Seq<char>>) -> Outcome
    decreases cmds,
{
    if cmds.len() == 0 {
        Outcome { config: c, message: msg, quit: false }
    } else {
        let r = run_command(c, cmds[0]);
        let m = if r.message is Some { r.message } else { msg };
        if r.quit {
            Outcome { config: r.config, message: m, quit: true }
        } else {
            run_sequence(r.config, cmds.drop_first(), m)
        }
    }
}

/// How many times `InspectorRight` occurs in a command, sequences included.
pub open spec fn right_count(cmd: Command) -> nat
    decreases cmd,
{
    match cmd {
        Command::InspectorRight => 1,
        Command::Sequence(v) => rights_in(v@),
        _ => 0,
    }
}

/// How many times `InspectorRight` occurs in a list of commands.
pub open spec fn rights_in(cmds: Seq<Command>) -> nat
    decreases cmds,
{
    if cmds.len() == 0 { 0 } else { right_count(cmds[0]) + rights_in(cmds.drop_first()) }
}

/// Whether running `cmd` on `c` stays within the machine's `usize`: on the
/// inspector, paging down adds ten to the cursor line, the previous change
/// names the line after the cursor's, and moving right adds one to the
/// column; a sequence fits when each of its commands fits the configuration
/// that the commands before it left, up to a quit.
pub open spec fn fits(c: ConfigView, cmd: Command) -> bool
    decreases cmd,
{
    let insp = c.active_panel == PanelFocus::Inspector;
    match cmd {
        Command::InspectorPageDown => insp ==> c.cursor_line + 10 <= usize::MAX,
        Command::PreviousChange => insp ==> c.cursor_line + 1 <= usize::MAX,
        Command::InspectorRight => insp ==> c.cursor_column + 1 <= usize::MAX,
        Command::Sequence(v) => fits_all(c, v@),
        _ => true,
    }
}

/// Whether the commands fit when run in order from `c`, up to a quit.
pub open spec fn fits_all(c: ConfigView, cmds: Seq<Command>) -> bool
    decreases cmds,
{
    if cmds.len() == 0 {
        true
    } else {
        let r = run_command(c, cmds[0]);
        fits(c, cmds[0]) && (r.quit || fits_all(r.config, cmds.drop_first()))
    }
}

/// The larger of the cursor line and the last line: no command moves the
/// cursor beyond it.
pub open spec fn max_line(c: ConfigView) -> int {
    let last = sat_sub(c.current_content.len() as int, 1);
    if c.cursor_line > last { c.cursor_line as int } else { last }
}

fn line_message(prefix: &str, n: usize) -> (r: String)
    ensures
        r@ == prefix@ + decimal(n as nat),
{
    let d = decimal_string(n);
    concat_str(prefix, d.as_str())
}

impl ExecutionResult {
    /// The value of the result.
    pub open spec fn outcome(&self) -> Outcome {
        Outcome {
            config: self.config@,
            message: crate::tree::opt_text(self.status_message),
            quit: self.should_quit,
        }
    }
}

impl Executor {
    /// Runs a command against a configuration and returns the next one, the
    /// status message that the command set, and whether to quit; a set
    /// message also becomes the configuration's status message.
    pub fn execute(config: &TestConfig, command: Command) -> (r: ExecutionResult)
        requires
            fits(config@, command),
        ensures
            r.outcome() == run_command(config@, command),
            r.config@.current_content == config@.current_content,
            r.config@.cursor_line <= max_line(config@),
            r.config@.cursor_column <= config@.cursor_column + right_count(command),
    {
        Self::run(config, &command)
    }

    /// Whether `command` can run against `config` within the machine's
    /// `usize`, as `execute` asks.
    pub fn fits_command(config: &TestConfig, command: &Command) -> (r: bool)
        ensures
            r == fits(config@, *command),
        decreases *command,
    {
        let insp = config.active_panel == PanelFocus::Inspector;
        match command {
            Command::InspectorPageDown => !insp || config.cursor_line <= usize::MAX - 10,
            Command::PreviousChange => !insp || config.cursor_line < usize::MAX,
            Command::InspectorRight => !insp || config.cursor_column < usize::MAX,
            Command::Sequence(commands) => {
                let ghost all = commands@;
                let mut cur = config.duplicate();
                let mut i: usize = 0;
                assert(all.subrange(0, all.len() as int) =~= all);
                while i < commands.len()
                    invariant
                        all == commands@,
                        *command == Command::Sequence(*commands),
                        i <= all.len(),
                        fits_all(config@, all) == fits_all(cur@, all.subrange(i as int, all.len() as int)),
                    decreases all.len() - i,
                {
                    let ghost tail = all.subrange(i as int, all.len() as int);
                    proof {
                        assert(tail[0] == all[i as int]);
                        assert(tail.drop_first() =~= all.subrange(i + 1, all.len() as int));
                        assert(decreases_to!(*command => (*command)->Sequence_0));
                        assert(decreases_to!((*command)->Sequence_0 => all));
                        assert(decreases_to!(all => all[i as int]));
                    }
                    if !Self::fits_command(&cur, &commands[i]) {
                        return false;
                    }
                    let res = Self::run(&cur, &commands[i]);
                    if res.should_quit {
                        return true;
                    }
                    cur = res.config;
                    i = i + 1;
                }
                true
            }
            _ => true,
        }
    }

    fn run(config: &TestConfig, command: &Command) -> (r: ExecutionResult)
        requires
            fits(config@, *command),
        ensures
            r.outcome() == run_command(config@, *command),
            r.config@.current_content == config@.current_content,
            r.config@.cursor_line <= max_line(config@),
            r.config@.cursor_column <= config@.cursor_column + right_count(*command),
        decreases *command,
    {
        let mut new_config = config.duplicate();
        let mut status_message: Option<String> = None;
        let mut should_quit = false;
        match command {
            Command::Sequence(commands) => {
                let ghost all = commands@;
                let n = commands.len();
                let mut i: usize = 0;
                proof {
                    assert(all.subrange(0, all.len() as int) =~= all);
                }
                while i < n && !should_quit
                    invariant
                        n == all.len(),
                        *command == Command::Sequence(*commands),
                        all == commands@,
                        i <= n,
                        !should_quit ==> run_sequence(config@, all, None) == run_sequence(new_config@, all.subrange(i as int, n as int), crate::tree::opt_text(status_message)),
                        should_quit ==> run_sequence(config@, all, None) == (Outcome { config: new_config@, message: crate::tree::opt_text(status_message), quit: true }),
                        !should_quit ==> fits_all(new_config@, all.subrange(i as int, n as int)),
                        new_config@.current_content == config@.current_content,
                        new_config@.cursor_line <= max_line(config@),
                        new_config@.cursor_column + rights_in(all.subrange(i as int, n as int)) <= config@.cursor_column + rights_in(all),
                    decreases n - i,
                {
                    let ghost tail = all.subrange(i as int, n as int);
                    proof {
                        assert(tail[0] == all[i as int]);
                        assert(tail.drop_first() =~= all.subrange(i + 1, n as int));
                        assert(decreases_to!(*command => (*command)->Sequence_0));
                        assert(decreases_to!((*command)->Sequence_0 => all));
                        assert(decreases_to!(all => all[i as int]));
                        assert(rights_in(tail) == right_count(all[i as int]) + rights_in(tail.drop_first()));
                        assert(max_line(new_config@) <= max_line(config@));
                    }
                    let result = Self::run(&new_config, &commands[i]);
                    new_config = result.config;
                    if result.status_message.is_some() {
                        status_message = result.status_message;
                    }
                    if result.should_quit {
                        should_quit = true;
                    }
                    i = i + 1;
                }
                proof {
                    if !should_quit {
                        assert(all.subrange(i as int, n as int).len() == 0);
                    }
                }
            }
            other => {
                let (m, q) = Self::step_exec(&mut new_config, simple_copy(other));
                status_message = m;
                should_quit = q;
            }
        }
        match &status_message {
            Some(msg) => {
                new_config.status_message = msg.clone();
            }
            None => {}
        }
        ExecutionResult { config: new_config, status_message, should_quit }
    }
}

/// A copy of a command that is not a sequence.
fn simple_copy(c: &Command) -> (r: Command)
    requires
        !(*c is Sequence),
    ensures
        r == *c,
{
    match c {
        Command::NextPanel => Command::NextPanel,
        Command::PreviousPanel => Command::PreviousPanel,
        Command::Quit => Command::Quit,
        Command::NavigateUp => Command::NavigateUp,
        Command::NavigateDown => Command::NavigateDown,
        Command::ExpandNode => Command::ExpandNode,
        Command::CollapseNode => Command::CollapseNode,
        Command::SelectFile => Command::SelectFile,
        Command::StartSearch => Command::StartSearch,
        Command::EndSearch => Command::EndSearch,
        Command::SearchInput(ch) => Command::SearchInput(*ch),
        Command::SearchBackspace => Command::SearchBackspace,
        Command::HistoryUp => Command::HistoryUp,
        Command::HistoryDown => Command::HistoryDown,
        Command::SelectCommit => Command::SelectCommit,
        Command::InspectorUp => Command::InspectorUp,
        Command::InspectorDown => Command::InspectorDown,
        Command::InspectorPageUp => Command::InspectorPageUp,
        Command::InspectorPageDown => Command::InspectorPageDown,
        Command::InspectorHome => Command::InspectorHome,
        Command::InspectorEnd => Command::InspectorEnd,
        Command::InspectorLeft => Command::InspectorLeft,
        Command::InspectorRight => Command::InspectorRight,
        Command::GoToTop => Command::GoToTop,
        Command::GoToBottom => Command::GoToBottom,
        Command::PreviousChange => Command::PreviousChange,
        Command::NextChange => Command::NextChange,
        Command::ToggleDiff => Command::ToggleDiff,
        Command::Sequence(_) => Command::NextPanel,
    }
}

/// The message of a panel switch.
fn switched_text(p: PanelFocus) -> (r: String)
    ensures
        r@ == switched_message(p),
{
    match p {
        PanelFocus::Navigator => String::from_str("Switched to Navigator panel"),
        PanelFocus::History => String::from_str("Switched to History panel"),
        PanelFocus::Inspector => String::from_str("Switched to Inspector panel"),
    }
}

/// `s` without its last character, if it has one.
fn drop_last_char(s: &String) -> (r: String)
    ensures
        r@ == (if s@.len() > 0 { s@.drop_last() } else { s@ }),
{
    let v = crate::text::chars_of(s.as_str());
    if v.len() > 0 {
        let w = crate::text::slice_chars(v.as_slice(), 0, v.len() - 1);
        crate::text::string_of(w.as_slice())
    } else {
        crate::text::string_of(v.as_slice())
    }
}

/// The bounds that every single command keeps.
pub open spec fn keeps_bounds(c: ConfigView, d: ConfigView, cmd: Command) -> bool {
    &&& d.current_content == c.current_content
    &&& d.cursor_line <= max_line(c)
    &&& d.cursor_column <= c.cursor_column + right_count(cmd)
}

impl Executor {
    fn history_exec(config: &mut TestConfig, cmd: Command) -> (r: Option<String>)
        requires
            cmd is HistoryUp || cmd is HistoryDown || cmd is SelectCommit,
        ensures
            (Outcome { config: final(config)@, message: crate::tree::opt_text(r), quit: false })
                == (match cmd {
                    Command::HistoryUp => history_up(old(config)@),
                    Command::HistoryDown => history_down(old(config)@),
                    _ => select_commit(old(config)@),
                }),
    {
        proof {
            assert(crate::app::commit_views(config.commit_list@).len() == config.commit_list@.len());
        }
        match cmd {
            Command::HistoryUp => {
                match config.selected_commit_index {
                    Some(current) => {
                        if current > 0 {
                            config.selected_commit_index = Some(current - 1);
                            if current - 1 < config.commit_list.len() {
                                let c = &config.commit_list[current - 1];
                                return Some(concat_str("Selected commit: ", c.short_hash.as_str()));
                            }
                        }
                        None
                    }
                    None => {
                        if config.commit_list.len() > 0 {
                            config.selected_commit_index = Some(0);
                            Some(concat_str("Selected commit: ", config.commit_list[0].short_hash.as_str()))
                        } else {
                            None
                        }
                    }
                }
            }
            Command::HistoryDown => {
                match config.selected_commit_index {
                    Some(current) => {
                        let last = if config.commit_list.len() >= 1 { config.commit_list.len() - 1 } else { 0 };
                        if current < last {
                            config.selected_commit_index = Some(current + 1);
                            let c = &config.commit_list[current + 1];
                            return Some(concat_str("Selected commit: ", c.short_hash.as_str()));
                        }
                        None
                    }
                    None => {
                        if config.commit_list.len() > 0 {
                            config.selected_commit_index = Some(0);
                            Some(concat_str("Selected commit: ", config.commit_list[0].short_hash.as_str()))
                        } else {
                            None
                        }
                    }
                }
            }
            _ => {
                match config.selected_commit_index {
                    Some(index) => {
                        if index < config.commit_list.len() {
                            let c = &config.commit_list[index];
                            Some(concat_str("Viewing commit: ", c.short_hash.as_str()))
                        } else {
                            None
                        }
                    }
                    None => None,
                }
            }
        }
    }

    fn inspector_exec(config: &mut TestConfig, cmd: Command) -> (r: Option<String>)
        requires
            cmd is InspectorUp || cmd is InspectorDown || cmd is InspectorPageUp || cmd is InspectorPageDown,
            cmd is InspectorPageDown ==> old(config)@.cursor_line + 10 <= usize::MAX,
        ensures
            (Outcome { config: final(config)@, message: crate::tree::opt_text(r), quit: false })
                == (match cmd {
                    Command::InspectorUp => inspector_up(old(config)@),
                    Command::InspectorDown => inspector_down(old(config)@),
                    Command::InspectorPageUp => inspector_page_up(old(config)@),
                    _ => inspector_page_down(old(config)@),
                }),
    {
        proof {
            assert(crate::app::text_views(config.current_content@).len() == config.current_content@.len());
        }
        let last = if config.current_content.len() >= 1 { config.current_content.len() - 1 } else { 0 };
        match cmd {
            Command::InspectorUp => {
                if config.cursor_line > 0 {
                    config.cursor_line = config.cursor_line - 1;
                    if config.cursor_line < config.inspector_scroll_vertical as usize {
                        config.inspector_scroll_vertical = config.cursor_line as u16;
                    }
                    Some(line_message("Line: ", config.cursor_line + 1))
                } else {
                    None
                }
            }
            Command::InspectorDown => {
                if config.cursor_line < last {
                    config.cursor_line = config.cursor_line + 1;
                    Some(line_message("Line: ", config.cursor_line + 1))
                } else {
                    None
                }
            }
            Command::InspectorPageUp => {
                config.cursor_line = if config.cursor_line >= 10 { config.cursor_line - 10 } else { 0 };
                config.inspector_scroll_vertical = config.cursor_line as u16;
                Some(line_message("Page up - Line: ", config.cursor_line + 1))
            }
            _ => {
                let target = config.cursor_line + 10;
                config.cursor_line = if target < last { target } else { last };
                Some(line_message("Page down - Line: ", config.cursor_line + 1))
            }
        }
    }

    fn step_exec(config: &mut TestConfig, cmd: Command) -> (r: (Option<String>, bool))
        requires
            !(cmd is Sequence),
            fits(old(config)@, cmd),
        ensures
            (Outcome { config: final(config)@, message: crate::tree::opt_text(r.0), quit: r.1 }) == step(old(config)@, cmd),
            keeps_bounds(old(config)@, final(config)@, cmd),
    {
        let nav = config.active_panel == PanelFocus::Navigator;
        let hist = config.active_panel == PanelFocus::History;
        let insp = config.active_panel == PanelFocus::Inspector;
        proof {
            assert(crate::app::text_views(config.current_content@).len() == config.current_content@.len());
        }
        let last = if config.current_content.len() >= 1 { config.current_content.len() - 1 } else { 0 };
        match cmd {
            Command::Quit => (Some(String::from_str("Goodbye!")), true),
            Command::NextPanel => {
                config.active_panel = focus_after(config.active_panel);
                (Some(switched_text(config.active_panel)), false)
            }
            Command::PreviousPanel => {
                config.active_panel = focus_before(config.active_panel);
                (Some(switched_text(config.active_panel)), false)
            }
            Command::StartSearch => {
                if nav {
                    config.in_search_mode = true;
                    config.search_query = String::new();
                    (Some(String::from_str("Search mode activated")), false)
                } else {
                    (None, false)
                }
            }
            Command::EndSearch => {
                if nav && config.in_search_mode {
                    config.in_search_mode = false;
                    config.search_query = String::new();
                    (Some(String::from_str("Search mode deactivated")), false)
                } else {
                    (None, false)
                }
            }
            Command::SearchInput(ch) => {
                if nav && config.in_search_mode {
                    push_char(&mut config.search_query, ch);
                    (Some(concat_str("Search: ", config.search_query.as_str())), false)
                } else {
                    (None, false)
                }
            }
            Command::SearchBackspace => {
                if nav && config.in_search_mode {
                    config.search_query = drop_last_char(&config.search_query);
                    (Some(concat_str("Search: ", config.search_query.as_str())), false)
                } else {
                    (None, false)
                }
            }
            Command::HistoryUp => {
                if hist { (Self::history_exec(config, Command::HistoryUp), false) } else { (None, false) }
            }
            Command::HistoryDown => {
                if hist { (Self::history_exec(config, Command::HistoryDown), false) } else { (None, false) }
            }
            Command::SelectCommit => {
                if hist { (Self::history_exec(config, Command::SelectCommit), false) } else { (None, false) }
            }
            Command::InspectorUp => {
                if insp { (Self::inspector_exec(config, Command::InspectorUp), false) } else { (None, false) }
            }
            Command::InspectorDown => {
                if insp { (Self::inspector_exec(config, Command::InspectorDown), false) } else { (None, false) }
            }
            Command::InspectorPageUp => {
                if insp { (Self::inspector_exec(config, Command::InspectorPageUp), false) } else { (None, false) }
            }
            Command::InspectorPageDown => {
                if insp { (Self::inspector_exec(config, Command::InspectorPageDown), false) } else { (None, false) }
            }
            Command::InspectorHome => {
                if insp {
                    config.cursor_line = 0;
                    config.inspector_scroll_vertical = 0;
                    (Some(String::from_str("Moved to beginning of file")), false)
                } else {
                    (None, false)
                }
            }
            Command::InspectorEnd => {
                if insp {
                    config.cursor_line = last;
                    (Some(String::from_str("Moved to end of file")), false)
                } else {
                    (None, false)
                }
            }
            Command::InspectorLeft => {
                if insp {
                    config.cursor_column = if config.cursor_column >= 1 { config.cursor_column - 1 } else { 0 };
                    (Some(line_message("Column: ", config.cursor_column)), false)
                } else {
                    (None, false)
                }
            }
            Command::InspectorRight => {
                if insp {
                    config.cursor_column = config.cursor_column + 1;
                    (Some(line_message("Column: ", config.cursor_column)), false)
                } else {
                    (None, false)
                }
            }
            Command::GoToTop => {
                if insp {
                    config.cursor_line = 0;
                    config.inspector_scroll_vertical = 0;
                    (Some(String::from_str("Moved to top")), false)
                } else {
                    (None, false)
                }
            }
            Command::GoToBottom => {
                if insp {
                    config.cursor_line = last;
                    (Some(String::from_str("Moved to bottom")), false)
                } else {
                    (None, false)
                }
            }
            Command::PreviousChange => {
                if insp {
                    (Some(line_message("Previous change for line ", config.cursor_line + 1)), false)
                } else {
                    (None, false)
                }
            }
            Command::NextChange => {
                if insp {
                    config.is_loading = true;
                    (Some(String::from_str("Searching for next change...")), false)
                } else {
                    (None, false)
                }
            }
            Command::ToggleDiff => {
                if insp {
                    config.show_diff_view = !config.show_diff_view;
                    if config.show_diff_view {
                        (Some(String::from_str("Switched to diff view")), false)
                    } else {
                        (Some(String::from_str("Switched to full file view")), false)
                    }
                } else {
                    (None, false)
                }
            }
            _ => (None, false),
        }
    }
}

/// Switching panels runs through the three panels in turn, from any
/// configuration: `NextPanel` names the panel it switched to, three of them
/// come back to the panel one started from, and `PreviousPanel` undoes one.
pub proof fn law_panel_cycle(c: ConfigView)
    ensures
        fits(c, Command::NextPanel),
        ({
            let a = run_command(c, Command::NextPanel);
            let b = run_command(a.config, Command::NextPanel);
            let d = run_command(b.config, Command::NextPanel);
            &&& a.config.active_panel == next_focus(c.active_panel)
            &&& a.message == Some(switched_message(a.config.active_panel))
            &&& a.config.status_message == switched_message(a.config.active_panel)
            &&& fits(a.config, Command::PreviousPanel)
            &&& run_command(a.config, Command::PreviousPanel).config.active_panel == c.active_panel
            &&& d.config.active_panel == c.active_panel
        }),
{
    crate::app::law_focus_cycle(c.active_panel);
}

/// In search mode on the navigator, typing a character appends it to the
/// query and shows the query; a backspace then gives back the query as it
/// was.
pub proof fn law_search_backspace_undoes_input(c: ConfigView, ch: char)
    requires
        c.active_panel == PanelFocus::Navigator,
        c.in_search_mode,
    ensures
        fits(c, Command::SearchInput(ch)),
        ({
            let a = run_command(c, Command::SearchInput(ch));
            &&& a.config.search_query == c.search_query.push(ch)
            &&& a.message == Some("Search: "@ + a.config.search_query)
            &&& fits(a.config, Command::SearchBackspace)
            &&& run_command(a.config, Command::SearchBackspace).config.search_query == c.search_query
        }),
{
    assert(c.search_query.push(ch).drop_last() =~= c.search_query);
}

} // verus!
