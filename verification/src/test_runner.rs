//! Scripts for driving the application without a terminal: one command per
//! line (`key:down`, `char:a`, `wait`, `wait:100`, `assert:panel:value`,
//! `screenshot:file`), directives that switch between waiting and not
//! waiting after each command, and the assertions on the application state.

use vstd::prelude::*;
use crate::app::{App, PanelFocus};
use crate::navigator::{query_of, selection_of, view_model_of, ModeView};
use crate::tasks::Key;
use crate::text::{
    all_ascii, ascii_lower_char, ascii_prefix_len, chars_of, concat_str, lemma_ascii_prefix_at_least, contains_run, contains_str, decimal, decimal_string, ends_with, has_prefix, has_suffix,
    lines_chars, lines_of, parse_bool, parse_bool_spec, parse_u64, parse_u64_spec, parse_usize, parse_usize_spec, slice_chars,
    split_chars, split_on, starts_with, str_eq, string_of, to_lowercase, trim, trim_chars, is_ws, is_whitespace,
    unicode_lowercase, views_of,
};
use crate::tree::opt_text;
use crate::command::lowered;

verus! {

/// What a script command does.
#[derive(Debug, Clone, Copy, PartialEq, Eq, Structural)]
pub enum CommandType {
    Key,
    Char,
    Wait,
    Assert,
    SetImmediate,
    SetSettle,
    Screenshot,
}

/// One command of a script; `immediate` commands are not followed by a wait
/// for the application to settle.
#[derive(Debug)]
pub struct TestCommand {
    pub command_type: CommandType,
    pub value: String,
    pub immediate: bool,
}

/// A parsed script.
#[derive(Debug)]
pub struct TestScript {
    pub commands: Vec<TestCommand>,
    pub initial_settle: bool,
}

/// A script and the state of running it.
#[derive(Debug)]
pub struct TestRunner {
    pub script: TestScript,
    pub current_command: usize,
    pub immediate_mode: bool,
    pub max_settle_time_secs: u64,
    pub overwrite_mode: bool,
    pub screenshot_base_dir: Option<String>,
}

/// The value of a command.
pub struct CommandView {
    pub command_type: CommandType,
    pub value: Seq<char>,
    pub immediate: bool,
}

impl View for TestCommand {
    type V = CommandView;

    open spec fn view(&self) -> CommandView {
        CommandView { command_type: self.command_type, value: self.value@, immediate: self.immediate }
    }
}

/// The values of a list of commands.
pub open spec fn command_views(v: Seq<TestCommand>) -> Seq<CommandView> {
    v.map_values(|c: TestCommand| c@)
}

/// What a trimmed line of a script holds.
pub enum LineKind {
    Skip,
    Immediate,
    Settle,
    NoInitialSettle,
    Command { command_type: CommandType, value: Seq<char>, always_waits: bool },
    Invalid,
}

/// The part of `l` after the prefix `p`.
pub open spec fn after_prefix(l: Seq<char>, p: Seq<char>) -> Seq<char> {
    l.subrange(p.len() as int, l.len() as int)
}

/// What the trimmed line `l` holds: nothing (empty or a comment), a
/// directive, a command with its value, or nothing valid.
pub open spec fn line_kind(l: Seq<char>) -> LineKind {
    if l.len() == 0 || has_prefix(l, "#"@) {
        LineKind::Skip
    } else if l == "immediate"@ {
        LineKind::Immediate
    } else if l == "settle_mode"@ {
        LineKind::Settle
    } else if l == "no_initial_settle"@ {
        LineKind::NoInitialSettle
    } else if has_prefix(l, "key:"@) {
        LineKind::Command { command_type: CommandType::Key, value: after_prefix(l, "key:"@), always_waits: false }
    } else if has_prefix(l, "char:"@) {
        LineKind::Command { command_type: CommandType::Char, value: after_prefix(l, "char:"@), always_waits: false }
    } else if l == "wait"@ || l == "settle"@ {
        LineKind::Command { command_type: CommandType::Wait, value: Seq::empty(), always_waits: true }
    } else if has_prefix(l, "wait:"@) {
        LineKind::Command { command_type: CommandType::Wait, value: after_prefix(l, "wait:"@), always_waits: true }
    } else if has_prefix(l, "assert:"@) {
        LineKind::Command { command_type: CommandType::Assert, value: after_prefix(l, "assert:"@), always_waits: false }
    } else if has_prefix(l, "screenshot:"@) {
        LineKind::Command { command_type: CommandType::Screenshot, value: after_prefix(l, "screenshot:"@), always_waits: false }
    } else {
        LineKind::Invalid
    }
}

/// Where the trailing comment of a line starts: the first `#` at or after
/// `i` that follows white space; the line's length when there is none.
pub open spec fn comment_from(s: Seq<char>, i: int) -> int
    decreases s.len() - i,
{
    if i < 0 || i >= s.len() {
        s.len() as int
    } else if i > 0 && s[i] == '#' && is_ws(s[i - 1]) {
        i
    } else {
        comment_from(s, i + 1)
    }
}

/// A script line without its trailing comment (` # ...`).
pub open spec fn without_comment(s: Seq<char>) -> Seq<char> {
    s.subrange(0, comment_from(s, 0))
}

/// The state of reading a script: the commands so far, whether commands are
/// immediate, and whether the run starts by settling.
pub struct ScriptState {
    pub commands: Seq<CommandView>,
    pub immediate: bool,
    pub initial_settle: bool,
}

/// The script read from `lines`, or the first invalid line: its index and
/// its trimmed text. A `#` after white space starts a comment that runs to
/// the end of the line.
pub open spec fn read_script(lines: Seq<Seq<char>>) -> Result<ScriptState, (nat, Seq<char>)>
    decreases lines.len(),
{
    if lines.len() == 0 {
        Ok(ScriptState { commands: Seq::empty(), immediate: false, initial_settle: true })
    } else {
        match read_script(lines.drop_last()) {
            Err(e) => Err(e),
            Ok(st) => {
                let l = trim(without_comment(lines.last()));
                match line_kind(l) {
                    LineKind::Skip => Ok(st),
                    LineKind::Immediate => Ok(ScriptState { immediate: true, ..st }),
                    LineKind::Settle => Ok(ScriptState { immediate: false, ..st }),
                    LineKind::NoInitialSettle => Ok(ScriptState { initial_settle: false, ..st }),
                    LineKind::Command { command_type, value, always_waits } => Ok(ScriptState {
                        commands: st.commands.push(CommandView {
                            command_type,
                            value,
                            immediate: if always_waits { false } else { st.immediate },
                        }),
                        ..st
                    }),
                    LineKind::Invalid => Err(((lines.len() - 1) as nat, l)),
                }
            },
        }
    }
}

/// The error for the invalid line at index `k` with text `l`.
pub open spec fn invalid_line_message(k: nat, l: Seq<char>) -> Seq<char> {
    "Invalid command on line "@ + decimal(k + 1) + ": "@ + l
}

/// The key named by `name` once lowered, as the script's `key:` commands
/// name them; a single ASCII character names itself.
pub open spec fn key_named(l: Seq<char>) -> Option<Key> {
    if l == "tab"@ {
        Some(Key::Tab)
    } else if l == "enter"@ {
        Some(Key::Enter)
    } else if l == "esc"@ || l == "escape"@ {
        Some(Key::Esc)
    } else if l == "space"@ {
        Some(Key::Char(' '))
    } else if l == "up"@ {
        Some(Key::Up)
    } else if l == "down"@ {
        Some(Key::Down)
    } else if l == "left"@ {
        Some(Key::Left)
    } else if l == "right"@ {
        Some(Key::Right)
    } else if l == "home"@ {
        Some(Key::Home)
    } else if l == "end"@ {
        Some(Key::End)
    } else if l == "pageup"@ {
        Some(Key::PageUp)
    } else if l == "pagedown"@ {
        Some(Key::PageDown)
    } else if l == "backspace"@ {
        Some(Key::Backspace)
    } else if l == "delete"@ {
        Some(Key::Delete)
    } else if l.len() == 1 && (l[0] as u32) < 128 {
        Some(Key::Char(l[0]))
    } else {
        None
    }
}

/// The name `Debug` gives a panel.
pub open spec fn panel_name(p: PanelFocus) -> Seq<char> {
    match p {
        PanelFocus::Navigator => "Navigator"@,
        PanelFocus::History => "History"@,
        PanelFocus::Inspector => "Inspector"@,
    }
}

/// A boolean check of a property: the error `e` when the expected value is
/// not a boolean.
pub open spec fn bool_check(expected: Seq<char>, actual: bool, e: Seq<char>) -> Result<bool, Seq<char>> {
    match parse_bool_spec(expected) {
        Some(b) => Ok(actual == b),
        None => Err(e),
    }
}

/// A numeric check of a property: the error `e` when the expected value is
/// not a number.
pub open spec fn count_check(expected: Seq<char>, actual: int, e: Seq<char>) -> Result<bool, Seq<char>> {
    match parse_usize_spec(expected) {
        Some(n) => Ok(actual == n),
        None => Err(e),
    }
}

/// The outcome of the assertion `a` (`property:value`) on the application.
pub open spec fn assertion_outcome(app: App, a: Seq<char>) -> Result<bool, Seq<char>> {
    let parts = split_on(a, ':');
    if parts.len() != 2 {
        Err("Assertion must be in format 'property:value'"@)
    } else {
        let property = parts[0];
        let expected = parts[1];
        let vm = view_model_of(app.navigator@.tree.root, app.navigator@.mode);
        if property == "active_panel"@ {
            Ok(panel_name(app.ui.active_panel) == expected)
        } else if property == "should_quit"@ {
            bool_check(expected, app.should_quit, "should_quit expects boolean value"@)
        } else if property == "is_loading"@ {
            bool_check(expected, app.ui.is_loading, "is_loading expects boolean value"@)
        } else if property == "status_contains"@ {
            Ok(contains_run(app.ui.status_message@, expected))
        } else if property == "cursor_line"@ {
            count_check(expected, app.inspector.cursor_line as int, "cursor_line expects numeric value"@)
        } else if property == "content_lines"@ {
            count_check(expected, app.inspector.current_content@.len() as int, "content_lines expects numeric value"@)
        } else if property == "has_file_selected"@ {
            bool_check(expected, selection_of(app.navigator@.mode) is Some, "has_file_selected expects boolean value"@)
        } else if property == "visible_files_count"@ {
            count_check(expected, vm.items.len() as int, "visible_files_count expects numeric value"@)
        } else if property == "is_searching"@ {
            bool_check(expected, vm.is_searching, "is_searching expects boolean value"@)
        } else if property == "search_query"@ {
            Ok(vm.search_query == expected)
        } else if property == "selected_file"@ {
            match selection_of(app.navigator@.mode) {
                Some(p) => Ok(p == expected),
                None => Ok(expected == "none"@ || expected.len() == 0),
            }
        } else {
            Err("Unknown assertion property: "@ + property)
        }
    }
}

/// A classified line, as the reader holds it.
enum Line {
    Skip,
    Immediate,
    Settle,
    NoInitialSettle,
    Command(CommandType, Vec<char>, bool),
    Invalid,
}

/// Whether the classified line `e` is the kind `k`.
spec fn line_is(e: Line, k: LineKind) -> bool {
    match e {
        Line::Skip => k is Skip,
        Line::Immediate => k is Immediate,
        Line::Settle => k is Settle,
        Line::NoInitialSettle => k is NoInitialSettle,
        Line::Command(t, v, w) => k == (LineKind::Command { command_type: t, value: v@, always_waits: w }),
        Line::Invalid => k is Invalid,
    }
}

/// The part of `l` after the prefix `p`.
fn rest_after(l: &[char], p: &str) -> (r: Vec<char>)
    requires
        has_prefix(l@, p@),
    ensures
        r@ == after_prefix(l@, p@),
{
    let pc = chars_of(p);
    slice_chars(l, pc.len(), l.len())
}

fn starts_comment(s: &[char], i: usize) -> (r: bool)
    requires
        i < s@.len(),
    ensures
        r == (i > 0 && s@[i as int] == '#' && is_ws(s@[i - 1])),
{
    i > 0 && s[i] == '#' && is_whitespace(s[i - 1])
}

/// The line `s` without its trailing comment.
fn strip_comment(s: &[char]) -> (r: Vec<char>)
    ensures
        r@ == without_comment(s@),
{
    let mut i: usize = 0;
    while i < s.len() && !starts_comment(s, i)
        invariant
            i <= s@.len(),
            comment_from(s@, 0) == comment_from(s@, i as int),
        decreases s@.len() - i,
    {
        i = i + 1;
    }
    slice_chars(s, 0, i)
}

/// Classifies a trimmed line.
fn classify(l: &[char]) -> (r: Line)
    ensures
        line_is(r, line_kind(l@)),
{
    let ls = string_of(l);
    if l.len() == 0 || starts_with(l, "#") {
        Line::Skip
    } else if str_eq(ls.as_str(), "immediate") {
        Line::Immediate
    } else if str_eq(ls.as_str(), "settle_mode") {
        Line::Settle
    } else if str_eq(ls.as_str(), "no_initial_settle") {
        Line::NoInitialSettle
    } else if starts_with(l, "key:") {
        Line::Command(CommandType::Key, rest_after(l, "key:"), false)
    } else if starts_with(l, "char:") {
        Line::Command(CommandType::Char, rest_after(l, "char:"), false)
    } else if str_eq(ls.as_str(), "wait") || str_eq(ls.as_str(), "settle") {
        let empty: Vec<char> = Vec::new();
        assert(empty@ =~= Seq::<char>::empty());
        Line::Command(CommandType::Wait, empty, true)
    } else if starts_with(l, "wait:") {
        Line::Command(CommandType::Wait, rest_after(l, "wait:"), true)
    } else if starts_with(l, "assert:") {
        Line::Command(CommandType::Assert, rest_after(l, "assert:"), false)
    } else if starts_with(l, "screenshot:") {
        Line::Command(CommandType::Screenshot, rest_after(l, "screenshot:"), false)
    } else {
        Line::Invalid
    }
}

impl TestRunner {
    /// An empty script that starts by settling, with a five second limit on
    /// settling.
    pub fn new() -> (r: Self)
        ensures
            r.script.commands@.len() == 0,
            r.script.initial_settle,
            r.current_command == 0,
            !r.immediate_mode,
            r.max_settle_time_secs == 5,
            !r.overwrite_mode,
            r.screenshot_base_dir is None,
    {
        TestRunner {
            script: TestScript { commands: Vec::new(), initial_settle: true },
            current_command: 0,
            immediate_mode: false,
            max_settle_time_secs: 5,
            overwrite_mode: false,
            screenshot_base_dir: None,
        }
    }

    /// Reads a script, one command per line; fails on the first line that
    /// is neither empty, a comment, a directive nor a command.
    pub fn from_string(content: &str) -> (r: Result<Self, String>)
        ensures
            match read_script(lines_of(content@)) {
                Ok(st) => r matches Ok(t) && {
                    &&& command_views(t.script.commands@) == st.commands
                    &&& t.script.initial_settle == st.initial_settle
                    &&& t.current_command == 0
                    &&& !t.immediate_mode
                    &&& t.max_settle_time_secs == 5
                    &&& !t.overwrite_mode
                    &&& t.screenshot_base_dir is None
                },
                Err((k, l)) => r matches Err(e) && e@ == invalid_line_message(k, l),
            },
    {
        let cc = chars_of(content);
        let lines = lines_chars(cc.as_slice());
        let ghost lv = views_of(lines@);
        let mut commands: Vec<TestCommand> = Vec::new();
        let mut immediate = false;
        let mut initial_settle = true;
        let mut i: usize = 0;
        assert(lv.subrange(0, 0) =~= Seq::<Seq<char>>::empty());
        assert(command_views(commands@) =~= Seq::<CommandView>::empty());
        while i < lines.len()
            invariant
                i <= lines@.len(),
                lv == views_of(lines@),
                lv == lines_of(content@),
                read_script(lv.subrange(0, i as int)) == Ok::<ScriptState, (nat, Seq<char>)>(ScriptState {
                    commands: command_views(commands@),
                    immediate,
                    initial_settle,
                }),
            decreases lines@.len() - i,
        {
            let body = strip_comment(lines[i].as_slice());
            let l = trim_chars(body.as_slice());
            let ghost pre = lv.subrange(0, i as int);
            proof {
                assert(lv.subrange(0, i + 1).drop_last() =~= pre);
                assert(lv.subrange(0, i + 1).last() == lines@[i as int]@);
            }
            match classify(l.as_slice()) {
                Line::Skip => {},
                Line::Immediate => {
                    immediate = true;
                },
                Line::Settle => {
                    immediate = false;
                },
                Line::NoInitialSettle => {
                    initial_settle = false;
                },
                Line::Command(t, v, always_waits) => {
                    let cmd = TestCommand {
                        command_type: t,
                        value: string_of(v.as_slice()),
                        immediate: if always_waits { false } else { immediate },
                    };
                    let ghost prev = commands@;
                    commands.push(cmd);
                    assert(command_views(commands@) =~= command_views(prev).push(cmd@));
                },
                Line::Invalid => {
                    let m1 = concat_str("Invalid command on line ", decimal_string(i + 1).as_str());
                    let m2 = concat_str(m1.as_str(), ": ");
                    let ls = string_of(l.as_slice());
                    proof {
                        assert(lv.subrange(0, i + 1).len() == i + 1);
                        assert(read_script(lv.subrange(0, i + 1)) == Err::<ScriptState, (nat, Seq<char>)>((i as nat, l@)));
                        lemma_read_script_err(lv, (i + 1) as int, i as nat, l@);
                    }
                    return Err(concat_str(m2.as_str(), ls.as_str()));
                },
            }
            i = i + 1;
        }
        assert(lv.subrange(0, lv.len() as int) =~= lv);
        Ok(TestRunner {
            script: TestScript { commands, initial_settle },
            current_command: 0,
            immediate_mode: false,
            max_settle_time_secs: 5,
            overwrite_mode: false,
            screenshot_base_dir: None,
        })
    }

    /// The key named in a `key:` command.
    pub fn parse_key_event(&self, key_str: &str) -> (r: Result<Key, String>)
        ensures
            match key_named(unicode_lowercase(key_str@)) {
                Some(k) => r == Ok::<Key, String>(k),
                None => r matches Err(e) && e@ == "Unknown key: "@ + key_str@,
            },
            match key_named(lowered(key_str@)) {
                Some(k) => r == Ok::<Key, String>(k),
                None => r matches Err(e) && e@ == "Unknown key: "@ + key_str@,
            },
    {
        let lower = to_lowercase(key_str);
        proof {
            lemma_ascii_prefix_at_least(key_str@, 0);
            let k = ascii_prefix_len(key_str@) as int;
            let pre = key_str@.subrange(0, k).map_values(|c: char| ascii_lower_char(c));
            assert(pre.len() == k);
            assert(lower@.subrange(0, pre.len() as int) == pre);
            assert(lower@ =~= pre + lower@.subrange(pre.len() as int, lower@.len() as int));
            if !all_ascii(key_str@) {
                assert(lower@ == lowered(key_str@));
            }
        }
        let l = lower.as_str();
        if str_eq(l, "tab") {
            Ok(Key::Tab)
        } else if str_eq(l, "enter") {
            Ok(Key::Enter)
        } else if str_eq(l, "esc") || str_eq(l, "escape") {
            Ok(Key::Esc)
        } else if str_eq(l, "space") {
            Ok(Key::Char(' '))
        } else if str_eq(l, "up") {
            Ok(Key::Up)
        } else if str_eq(l, "down") {
            Ok(Key::Down)
        } else if str_eq(l, "left") {
            Ok(Key::Left)
        } else if str_eq(l, "right") {
            Ok(Key::Right)
        } else if str_eq(l, "home") {
            Ok(Key::Home)
        } else if str_eq(l, "end") {
            Ok(Key::End)
        } else if str_eq(l, "pageup") {
            Ok(Key::PageUp)
        } else if str_eq(l, "pagedown") {
            Ok(Key::PageDown)
        } else if str_eq(l, "backspace") {
            Ok(Key::Backspace)
        } else if str_eq(l, "delete") {
            Ok(Key::Delete)
        } else {
            let lc = chars_of(l);
            if lc.len() == 1 && (lc[0] as u32) < 128 {
                Ok(Key::Char(lc[0]))
            } else {
                Err(concat_str("Unknown key: ", key_str))
            }
        }
    }
}

/// Each key name of the script language names its own key, whatever its
/// case; and a single ASCII character that is not an upper-case letter
/// names the key of that character.
pub proof fn law_key_names()
    ensures
        key_named("tab"@) == Some(Key::Tab),
        key_named("enter"@) == Some(Key::Enter),
        key_named("esc"@) == Some(Key::Esc),
        key_named("escape"@) == Some(Key::Esc),
        key_named("space"@) == Some(Key::Char(' ')),
        key_named("up"@) == Some(Key::Up),
        key_named("down"@) == Some(Key::Down),
        key_named("left"@) == Some(Key::Left),
        key_named("right"@) == Some(Key::Right),
        key_named("home"@) == Some(Key::Home),
        key_named("end"@) == Some(Key::End),
        key_named("pageup"@) == Some(Key::PageUp),
        key_named("pagedown"@) == Some(Key::PageDown),
        key_named("backspace"@) == Some(Key::Backspace),
        key_named("delete"@) == Some(Key::Delete),
        key_named(lowered("TAB"@)) == Some(Key::Tab),
        key_named(lowered("ENTER"@)) == Some(Key::Enter),
        key_named(lowered("ESC"@)) == Some(Key::Esc),
        key_named(lowered("ESCAPE"@)) == Some(Key::Esc),
        key_named(lowered("SPACE"@)) == Some(Key::Char(' ')),
        key_named(lowered("UP"@)) == Some(Key::Up),
        key_named(lowered("DOWN"@)) == Some(Key::Down),
        key_named(lowered("LEFT"@)) == Some(Key::Left),
        key_named(lowered("RIGHT"@)) == Some(Key::Right),
        key_named(lowered("HOME"@)) == Some(Key::Home),
        key_named(lowered("END"@)) == Some(Key::End),
        key_named(lowered("PAGEUP"@)) == Some(Key::PageUp),
        key_named(lowered("PAGEDOWN"@)) == Some(Key::PageDown),
        key_named(lowered("BACKSPACE"@)) == Some(Key::Backspace),
        key_named(lowered("DELETE"@)) == Some(Key::Delete),
        forall|c: char| (c as u32) < 128 && !('A' <= c && c <= 'Z') ==> #[trigger] key_named(seq![c]) == Some(Key::Char(c)),
{
    assert(key_named("tab"@) == Some(Key::Tab)) by {
        reveal_strlit("tab");
        assert("tab"@ =~= seq!['t', 'a', 'b']);
    }
    assert(key_named("enter"@) == Some(Key::Enter)) by {
        reveal_strlit("tab");
        assert("tab"@ =~= seq!['t', 'a', 'b']);
        reveal_strlit("enter");
        assert("enter"@ =~= seq!['e', 'n', 't', 'e', 'r']);
    }
    assert(key_named("esc"@) == Some(Key::Esc)) by {
        reveal_strlit("tab");
        assert("tab"@ =~= seq!['t', 'a', 'b']);
        reveal_strlit("enter");
        assert("enter"@ =~= seq!['e', 'n', 't', 'e', 'r']);
        reveal_strlit("esc");
        assert("esc"@ =~= seq!['e', 's', 'c']);
    }
    assert(key_named("escape"@) == Some(Key::Esc)) by {
        reveal_strlit("tab");
        assert("tab"@ =~= seq!['t', 'a', 'b']);
        reveal_strlit("enter");
        assert("enter"@ =~= seq!['e', 'n', 't', 'e', 'r']);
        reveal_strlit("esc");
        assert("esc"@ =~= seq!['e', 's', 'c']);
        reveal_strlit("escape");
        assert("escape"@ =~= seq!['e', 's', 'c', 'a', 'p', 'e']);
    }
    assert(key_named("space"@) == Some(Key::Char(' '))) by {
        reveal_strlit("tab");
        assert("tab"@ =~= seq!['t', 'a', 'b']);
        reveal_strlit("enter");
        assert("enter"@ =~= seq!['e', 'n', 't', 'e', 'r']);
        reveal_strlit("esc");
        assert("esc"@ =~= seq!['e', 's', 'c']);
        reveal_strlit("escape");
        assert("escape"@ =~= seq!['e', 's', 'c', 'a', 'p', 'e']);
        reveal_strlit("space");
        assert("space"@ =~= seq!['s', 'p', 'a', 'c', 'e']);
    }
    assert(key_named("up"@) == Some(Key::Up)) by {
        reveal_strlit("tab");
        assert("tab"@ =~= seq!['t', 'a', 'b']);
        reveal_strlit("enter");
        assert("enter"@ =~= seq!['e', 'n', 't', 'e', 'r']);
        reveal_strlit("esc");
        assert("esc"@ =~= seq!['e', 's', 'c']);
        reveal_strlit("escape");
        assert("escape"@ =~= seq!['e', 's', 'c', 'a', 'p', 'e']);
        reveal_strlit("space");
        assert("space"@ =~= seq!['s', 'p', 'a', 'c', 'e']);
        reveal_strlit("up");
        assert("up"@ =~= seq!['u', 'p']);
    }
    assert(key_named("down"@) == Some(Key::Down)) by {
        reveal_strlit("tab");
        assert("tab"@ =~= seq!['t', 'a', 'b']);
        reveal_strlit("enter");
        assert("enter"@ =~= seq!['e', 'n', 't', 'e', 'r']);
        reveal_strlit("esc");
        assert("esc"@ =~= seq!['e', 's', 'c']);
        reveal_strlit("escape");
        assert("escape"@ =~= seq!['e', 's', 'c', 'a', 'p', 'e']);
        reveal_strlit("space");
        assert("space"@ =~= seq!['s', 'p', 'a', 'c', 'e']);
        reveal_strlit("up");
        assert("up"@ =~= seq!['u', 'p']);
        reveal_strlit("down");
        assert("down"@ =~= seq!['d', 'o', 'w', 'n']);
    }
    assert(key_named("left"@) == Some(Key::Left)) by {
        reveal_strlit("tab");
        assert("tab"@ =~= seq!['t', 'a', 'b']);
        reveal_strlit("enter");
        assert("enter"@ =~= seq!['e', 'n', 't', 'e', 'r']);
        reveal_strlit("esc");
        assert("esc"@ =~= seq!['e', 's', 'c']);
        reveal_strlit("escape");
        assert("escape"@ =~= seq!['e', 's', 'c', 'a', 'p', 'e']);
        reveal_strlit("space");
        assert("space"@ =~= seq!['s', 'p', 'a', 'c', 'e']);
        reveal_strlit("up");
        assert("up"@ =~= seq!['u', 'p']);
        reveal_strlit("down");
        assert("down"@ =~= seq!['d', 'o', 'w', 'n']);
        reveal_strlit("left");
        assert("left"@ =~= seq!['l', 'e', 'f', 't']);
    }
    assert(key_named("right"@) == Some(Key::Right)) by {
        reveal_strlit("tab");
        assert("tab"@ =~= seq!['t', 'a', 'b']);
        reveal_strlit("enter");
        assert("enter"@ =~= seq!['e', 'n', 't', 'e', 'r']);
        reveal_strlit("esc");
        assert("esc"@ =~= seq!['e', 's', 'c']);
        reveal_strlit("escape");
        assert("escape"@ =~= seq!['e', 's', 'c', 'a', 'p', 'e']);
        reveal_strlit("space");
        assert("space"@ =~= seq!['s', 'p', 'a', 'c', 'e']);
        reveal_strlit("up");
        assert("up"@ =~= seq!['u', 'p']);
        reveal_strlit("down");
        assert("down"@ =~= seq!['d', 'o', 'w', 'n']);
        reveal_strlit("left");
        assert("left"@ =~= seq!['l', 'e', 'f', 't']);
        reveal_strlit("right");
        assert("right"@ =~= seq!['r', 'i', 'g', 'h', 't']);
    }
    assert(key_named("home"@) == Some(Key::Home)) by {
        reveal_strlit("tab");
        assert("tab"@ =~= seq!['t', 'a', 'b']);
        reveal_strlit("enter");
        assert("enter"@ =~= seq!['e', 'n', 't', 'e', 'r']);
        reveal_strlit("esc");
        assert("esc"@ =~= seq!['e', 's', 'c']);
        reveal_strlit("escape");
        assert("escape"@ =~= seq!['e', 's', 'c', 'a', 'p', 'e']);
        reveal_strlit("space");
        assert("space"@ =~= seq!['s', 'p', 'a', 'c', 'e']);
        reveal_strlit("up");
        assert("up"@ =~= seq!['u', 'p']);
        reveal_strlit("down");
        assert("down"@ =~= seq!['d', 'o', 'w', 'n']);
        reveal_strlit("left");
        assert("left"@ =~= seq!['l', 'e', 'f', 't']);
        reveal_strlit("right");
        assert("right"@ =~= seq!['r', 'i', 'g', 'h', 't']);
        reveal_strlit("home");
        assert("home"@ =~= seq!['h', 'o', 'm', 'e']);
    }
    assert(key_named("end"@) == Some(Key::End)) by {
        reveal_strlit("tab");
        assert("tab"@ =~= seq!['t', 'a', 'b']);
        reveal_strlit("enter");
        assert("enter"@ =~= seq!['e', 'n', 't', 'e', 'r']);
        reveal_strlit("esc");
        assert("esc"@ =~= seq!['e', 's', 'c']);
        reveal_strlit("escape");
        assert("escape"@ =~= seq!['e', 's', 'c', 'a', 'p', 'e']);
        reveal_strlit("space");
        assert("space"@ =~= seq!['s', 'p', 'a', 'c', 'e']);
        reveal_strlit("up");
        assert("up"@ =~= seq!['u', 'p']);
        reveal_strlit("down");
        assert("down"@ =~= seq!['d', 'o', 'w', 'n']);
        reveal_strlit("left");
        assert("left"@ =~= seq!['l', 'e', 'f', 't']);
        reveal_strlit("right");
        assert("right"@ =~= seq!['r', 'i', 'g', 'h', 't']);
        reveal_strlit("home");
        assert("home"@ =~= seq!['h', 'o', 'm', 'e']);
        reveal_strlit("end");
        assert("end"@ =~= seq!['e', 'n', 'd']);
    }
    assert(key_named("pageup"@) == Some(Key::PageUp)) by {
        reveal_strlit("tab");
        assert("tab"@ =~= seq!['t', 'a', 'b']);
        reveal_strlit("enter");
        assert("enter"@ =~= seq!['e', 'n', 't', 'e', 'r']);
        reveal_strlit("esc");
        assert("esc"@ =~= seq!['e', 's', 'c']);
        reveal_strlit("escape");
        assert("escape"@ =~= seq!['e', 's', 'c', 'a', 'p', 'e']);
        reveal_strlit("space");
        assert("space"@ =~= seq!['s', 'p', 'a', 'c', 'e']);
        reveal_strlit("up");
        assert("up"@ =~= seq!['u', 'p']);
        reveal_strlit("down");
        assert("down"@ =~= seq!['d', 'o', 'w', 'n']);
        reveal_strlit("left");
        assert("left"@ =~= seq!['l', 'e', 'f', 't']);
        reveal_strlit("right");
        assert("right"@ =~= seq!['r', 'i', 'g', 'h', 't']);
        reveal_strlit("home");
        assert("home"@ =~= seq!['h', 'o', 'm', 'e']);
        reveal_strlit("end");
        assert("end"@ =~= seq!['e', 'n', 'd']);
        reveal_strlit("pageup");
        assert("pageup"@ =~= seq!['p', 'a', 'g', 'e', 'u', 'p']);
    }
    assert(key_named("pagedown"@) == Some(Key::PageDown)) by {
        reveal_strlit("tab");
        assert("tab"@ =~= seq!['t', 'a', 'b']);
        reveal_strlit("enter");
        assert("enter"@ =~= seq!['e', 'n', 't', 'e', 'r']);
        reveal_strlit("esc");
        assert("esc"@ =~= seq!['e', 's', 'c']);
        reveal_strlit("escape");
        assert("escape"@ =~= seq!['e', 's', 'c', 'a', 'p', 'e']);
        reveal_strlit("space");
        assert("space"@ =~= seq!['s', 'p', 'a', 'c', 'e']);
        reveal_strlit("up");
        assert("up"@ =~= seq!['u', 'p']);
        reveal_strlit("down");
        assert("down"@ =~= seq!['d', 'o', 'w', 'n']);
        reveal_strlit("left");
        assert("left"@ =~= seq!['l', 'e', 'f', 't']);
        reveal_strlit("right");
        assert("right"@ =~= seq!['r', 'i', 'g', 'h', 't']);
        reveal_strlit("home");
        assert("home"@ =~= seq!['h', 'o', 'm', 'e']);
        reveal_strlit("end");
        assert("end"@ =~= seq!['e', 'n', 'd']);
        reveal_strlit("pageup");
        assert("pageup"@ =~= seq!['p', 'a', 'g', 'e', 'u', 'p']);
        reveal_strlit("pagedown");
        assert("pagedown"@ =~= seq!['p', 'a', 'g', 'e', 'd', 'o', 'w', 'n']);
    }
    assert(key_named("backspace"@) == Some(Key::Backspace)) by {
        reveal_strlit("tab");
        assert("tab"@ =~= seq!['t', 'a', 'b']);
        reveal_strlit("enter");
        assert("enter"@ =~= seq!['e', 'n', 't', 'e', 'r']);
        reveal_strlit("esc");
        assert("esc"@ =~= seq!['e', 's', 'c']);
        reveal_strlit("escape");
        assert("escape"@ =~= seq!['e', 's', 'c', 'a', 'p', 'e']);
        reveal_strlit("space");
        assert("space"@ =~= seq!['s', 'p', 'a', 'c', 'e']);
        reveal_strlit("up");
        assert("up"@ =~= seq!['u', 'p']);
        reveal_strlit("down");
        assert("down"@ =~= seq!['d', 'o', 'w', 'n']);
        reveal_strlit("left");
        assert("left"@ =~= seq!['l', 'e', 'f', 't']);
        reveal_strlit("right");
        assert("right"@ =~= seq!['r', 'i', 'g', 'h', 't']);
        reveal_strlit("home");
        assert("home"@ =~= seq!['h', 'o', 'm', 'e']);
        reveal_strlit("end");
        assert("end"@ =~= seq!['e', 'n', 'd']);
        reveal_strlit("pageup");
        assert("pageup"@ =~= seq!['p', 'a', 'g', 'e', 'u', 'p']);
        reveal_strlit("pagedown");
        assert("pagedown"@ =~= seq!['p', 'a', 'g', 'e', 'd', 'o', 'w', 'n']);
        reveal_strlit("backspace");
        assert("backspace"@ =~= seq!['b', 'a', 'c', 'k', 's', 'p', 'a', 'c', 'e']);
    }
    assert(key_named("delete"@) == Some(Key::Delete)) by {
        reveal_strlit("tab");
        assert("tab"@ =~= seq!['t', 'a', 'b']);
        reveal_strlit("enter");
        assert("enter"@ =~= seq!['e', 'n', 't', 'e', 'r']);
        reveal_strlit("esc");
        assert("esc"@ =~= seq!['e', 's', 'c']);
        reveal_strlit("escape");
        assert("escape"@ =~= seq!['e', 's', 'c', 'a', 'p', 'e']);
        reveal_strlit("space");
        assert("space"@ =~= seq!['s', 'p', 'a', 'c', 'e']);
        reveal_strlit("up");
        assert("up"@ =~= seq!['u', 'p']);
        reveal_strlit("down");
        assert("down"@ =~= seq!['d', 'o', 'w', 'n']);
        reveal_strlit("left");
        assert("left"@ =~= seq!['l', 'e', 'f', 't']);
        reveal_strlit("right");
        assert("right"@ =~= seq!['r', 'i', 'g', 'h', 't']);
        reveal_strlit("home");
        assert("home"@ =~= seq!['h', 'o', 'm', 'e']);
        reveal_strlit("end");
        assert("end"@ =~= seq!['e', 'n', 'd']);
        reveal_strlit("pageup");
        assert("pageup"@ =~= seq!['p', 'a', 'g', 'e', 'u', 'p']);
        reveal_strlit("pagedown");
        assert("pagedown"@ =~= seq!['p', 'a', 'g', 'e', 'd', 'o', 'w', 'n']);
        reveal_strlit("backspace");
        assert("backspace"@ =~= seq!['b', 'a', 'c', 'k', 's', 'p', 'a', 'c', 'e']);
        reveal_strlit("delete");
        assert("delete"@ =~= seq!['d', 'e', 'l', 'e', 't', 'e']);
    }
    assert(lowered("TAB"@) =~= "tab"@) by {
        reveal_strlit("TAB");
        assert("TAB"@ =~= seq!['T', 'A', 'B']);
        reveal_strlit("tab");
        assert("tab"@ =~= seq!['t', 'a', 'b']);
        assert(all_ascii("TAB"@));
    }
    assert(lowered("ENTER"@) =~= "enter"@) by {
        reveal_strlit("ENTER");
        assert("ENTER"@ =~= seq!['E', 'N', 'T', 'E', 'R']);
        reveal_strlit("enter");
        assert("enter"@ =~= seq!['e', 'n', 't', 'e', 'r']);
        assert(all_ascii("ENTER"@));
    }
    assert(lowered("ESC"@) =~= "esc"@) by {
        reveal_strlit("ESC");
        assert("ESC"@ =~= seq!['E', 'S', 'C']);
        reveal_strlit("esc");
        assert("esc"@ =~= seq!['e', 's', 'c']);
        assert(all_ascii("ESC"@));
    }
    assert(lowered("ESCAPE"@) =~= "escape"@) by {
        reveal_strlit("ESCAPE");
        assert("ESCAPE"@ =~= seq!['E', 'S', 'C', 'A', 'P', 'E']);
        reveal_strlit("escape");
        assert("escape"@ =~= seq!['e', 's', 'c', 'a', 'p', 'e']);
        assert(all_ascii("ESCAPE"@));
    }
    assert(lowered("SPACE"@) =~= "space"@) by {
        reveal_strlit("SPACE");
        assert("SPACE"@ =~= seq!['S', 'P', 'A', 'C', 'E']);
        reveal_strlit("space");
        assert("space"@ =~= seq!['s', 'p', 'a', 'c', 'e']);
        assert(all_ascii("SPACE"@));
    }
    assert(lowered("UP"@) =~= "up"@) by {
        reveal_strlit("UP");
        assert("UP"@ =~= seq!['U', 'P']);
        reveal_strlit("up");
        assert("up"@ =~= seq!['u', 'p']);
        assert(all_ascii("UP"@));
    }
    assert(lowered("DOWN"@) =~= "down"@) by {
        reveal_strlit("DOWN");
        assert("DOWN"@ =~= seq!['D', 'O', 'W', 'N']);
        reveal_strlit("down");
        assert("down"@ =~= seq!['d', 'o', 'w', 'n']);
        assert(all_ascii("DOWN"@));
    }
    assert(lowered("LEFT"@) =~= "left"@) by {
        reveal_strlit("LEFT");
        assert("LEFT"@ =~= seq!['L', 'E', 'F', 'T']);
        reveal_strlit("left");
        assert("left"@ =~= seq!['l', 'e', 'f', 't']);
        assert(all_ascii("LEFT"@));
    }
    assert(lowered("RIGHT"@) =~= "right"@) by {
        reveal_strlit("RIGHT");
        assert("RIGHT"@ =~= seq!['R', 'I', 'G', 'H', 'T']);
        reveal_strlit("right");
        assert("right"@ =~= seq!['r', 'i', 'g', 'h', 't']);
        assert(all_ascii("RIGHT"@));
    }
    assert(lowered("HOME"@) =~= "home"@) by {
        reveal_strlit("HOME");
        assert("HOME"@ =~= seq!['H', 'O', 'M', 'E']);
        reveal_strlit("home");
        assert("home"@ =~= seq!['h', 'o', 'm', 'e']);
        assert(all_ascii("HOME"@));
    }
    assert(lowered("END"@) =~= "end"@) by {
        reveal_strlit("END");
        assert("END"@ =~= seq!['E', 'N', 'D']);
        reveal_strlit("end");
        assert("end"@ =~= seq!['e', 'n', 'd']);
        assert(all_ascii("END"@));
    }
    assert(lowered("PAGEUP"@) =~= "pageup"@) by {
        reveal_strlit("PAGEUP");
        assert("PAGEUP"@ =~= seq!['P', 'A', 'G', 'E', 'U', 'P']);
        reveal_strlit("pageup");
        assert("pageup"@ =~= seq!['p', 'a', 'g', 'e', 'u', 'p']);
        assert(all_ascii("PAGEUP"@));
    }
    assert(lowered("PAGEDOWN"@) =~= "pagedown"@) by {
        reveal_strlit("PAGEDOWN");
        assert("PAGEDOWN"@ =~= seq!['P', 'A', 'G', 'E', 'D', 'O', 'W', 'N']);
        reveal_strlit("pagedown");
        assert("pagedown"@ =~= seq!['p', 'a', 'g', 'e', 'd', 'o', 'w', 'n']);
        assert(all_ascii("PAGEDOWN"@));
    }
    assert(lowered("BACKSPACE"@) =~= "backspace"@) by {
        reveal_strlit("BACKSPACE");
        assert("BACKSPACE"@ =~= seq!['B', 'A', 'C', 'K', 'S', 'P', 'A', 'C', 'E']);
        reveal_strlit("backspace");
        assert("backspace"@ =~= seq!['b', 'a', 'c', 'k', 's', 'p', 'a', 'c', 'e']);
        assert(all_ascii("BACKSPACE"@));
    }
    assert(lowered("DELETE"@) =~= "delete"@) by {
        reveal_strlit("DELETE");
        assert("DELETE"@ =~= seq!['D', 'E', 'L', 'E', 'T', 'E']);
        reveal_strlit("delete");
        assert("delete"@ =~= seq!['d', 'e', 'l', 'e', 't', 'e']);
        assert(all_ascii("DELETE"@));
    }
    assert forall|c: char| (c as u32) < 128 && !('A' <= c && c <= 'Z') implies #[trigger] key_named(seq![c]) == Some(Key::Char(c)) by {
        reveal_strlit("tab");
        assert("tab"@ =~= seq!['t', 'a', 'b']);
        reveal_strlit("enter");
        assert("enter"@ =~= seq!['e', 'n', 't', 'e', 'r']);
        reveal_strlit("esc");
        assert("esc"@ =~= seq!['e', 's', 'c']);
        reveal_strlit("escape");
        assert("escape"@ =~= seq!['e', 's', 'c', 'a', 'p', 'e']);
        reveal_strlit("space");
        assert("space"@ =~= seq!['s', 'p', 'a', 'c', 'e']);
        reveal_strlit("up");
        assert("up"@ =~= seq!['u', 'p']);
        reveal_strlit("down");
        assert("down"@ =~= seq!['d', 'o', 'w', 'n']);
        reveal_strlit("left");
        assert("left"@ =~= seq!['l', 'e', 'f', 't']);
        reveal_strlit("right");
        assert("right"@ =~= seq!['r', 'i', 'g', 'h', 't']);
        reveal_strlit("home");
        assert("home"@ =~= seq!['h', 'o', 'm', 'e']);
        reveal_strlit("end");
        assert("end"@ =~= seq!['e', 'n', 'd']);
        reveal_strlit("pageup");
        assert("pageup"@ =~= seq!['p', 'a', 'g', 'e', 'u', 'p']);
        reveal_strlit("pagedown");
        assert("pagedown"@ =~= seq!['p', 'a', 'g', 'e', 'd', 'o', 'w', 'n']);
        reveal_strlit("backspace");
        assert("backspace"@ =~= seq!['b', 'a', 'c', 'k', 's', 'p', 'a', 'c', 'e']);
        reveal_strlit("delete");
        assert("delete"@ =~= seq!['d', 'e', 'l', 'e', 't', 'e']);
    }
}

/// Once a prefix of the lines holds an invalid line, the whole script fails
/// on that line.
proof fn lemma_read_script_err(lines: Seq<Seq<char>>, j: int, k: nat, l: Seq<char>)
    requires
        0 <= j <= lines.len(),
        read_script(lines.subrange(0, j)) == Err::<ScriptState, (nat, Seq<char>)>((k, l)),
    ensures
        read_script(lines) == Err::<ScriptState, (nat, Seq<char>)>((k, l)),
    decreases lines.len() - j,
{
    if j < lines.len() {
        assert(lines.subrange(0, j + 1).drop_last() =~= lines.subrange(0, j));
        lemma_read_script_err(lines, j + 1, k, l);
    } else {
        assert(lines.subrange(0, j) =~= lines);
    }
}

/// The name `Debug` gives a panel.
fn panel_text(p: PanelFocus) -> (r: String)
    ensures
        r@ == panel_name(p),
{
    match p {
        PanelFocus::Navigator => "Navigator".to_string(),
        PanelFocus::History => "History".to_string(),
        PanelFocus::Inspector => "Inspector".to_string(),
    }
}

/// A boolean check with its error.
fn check_bool(expected: &str, actual: bool, e: &str) -> (r: Result<bool, String>)
    ensures
        match bool_check(expected@, actual, e@) {
            Ok(b) => r == Ok::<bool, String>(b),
            Err(m) => r matches Err(x) && x@ == m,
        },
{
    match parse_bool(expected) {
        Some(b) => Ok(actual == b),
        None => Err(e.to_string()),
    }
}

/// A numeric check with its error.
fn check_count(expected: &[char], actual: usize, e: &str) -> (r: Result<bool, String>)
    ensures
        match count_check(expected@, actual as int, e@) {
            Ok(b) => r == Ok::<bool, String>(b),
            Err(m) => r matches Err(x) && x@ == m,
        },
{
    match parse_usize(expected) {
        Some(n) => Ok(actual == n),
        None => Err(e.to_string()),
    }
}

impl TestRunner {
    /// Evaluates an assertion `property:value` on the application.
    pub fn evaluate_assertion(&self, app: &App, assertion: &str) -> (r: Result<bool, String>)
        ensures
            match assertion_outcome(*app, assertion@) {
                Ok(b) => r == Ok::<bool, String>(b),
                Err(m) => r matches Err(x) && x@ == m,
            },
    {
        let ac = chars_of(assertion);
        let parts = split_chars(ac.as_slice(), ':');
        if parts.len() != 2 {
            assert(views_of(parts@).len() == parts@.len());
            return Err("Assertion must be in format 'property:value'".to_string());
        }
        assert(views_of(parts@)[0] == parts@[0]@);
        assert(views_of(parts@)[1] == parts@[1]@);
        let property = string_of(parts[0].as_slice());
        let expected_chars = &parts[1];
        let expected = string_of(expected_chars.as_slice());
        let p = property.as_str();
        let e = expected.as_str();
        if str_eq(p, "active_panel") {
            let actual = panel_text(app.ui.active_panel);
            Ok(str_eq(actual.as_str(), e))
        } else if str_eq(p, "should_quit") {
            check_bool(e, app.should_quit, "should_quit expects boolean value")
        } else if str_eq(p, "is_loading") {
            check_bool(e, app.ui.is_loading, "is_loading expects boolean value")
        } else if str_eq(p, "status_contains") {
            let sc = chars_of(app.ui.status_message.as_str());
            Ok(contains_str(sc.as_slice(), expected_chars.as_slice()))
        } else if str_eq(p, "cursor_line") {
            check_count(expected_chars.as_slice(), app.inspector.cursor_line, "cursor_line expects numeric value")
        } else if str_eq(p, "content_lines") {
            check_count(expected_chars.as_slice(), app.inspector.current_content.len(), "content_lines expects numeric value")
        } else if str_eq(p, "has_file_selected") {
            let sel = app.navigator.get_selection();
            check_bool(e, sel.is_some(), "has_file_selected expects boolean value")
        } else if str_eq(p, "visible_files_count") {
            let vm = app.navigator.build_view_model();
            assert(vm@.items.len() == vm.items@.len());
            check_count(expected_chars.as_slice(), vm.items.len(), "visible_files_count expects numeric value")
        } else if str_eq(p, "is_searching") {
            let vm = app.navigator.build_view_model();
            check_bool(e, vm.is_searching, "is_searching expects boolean value")
        } else if str_eq(p, "search_query") {
            let vm = app.navigator.build_view_model();
            Ok(str_eq(vm.search_query.as_str(), e))
        } else if str_eq(p, "selected_file") {
            match app.navigator.get_selection() {
                Some(path) => Ok(str_eq(path.as_str(), e)),
                None => Ok(str_eq(e, "none") || expected_chars.len() == 0),
            }
        } else {
            Err(concat_str("Unknown assertion property: ", p))
        }
    }
}

/// What running one command asks the event loop to do.
#[derive(Debug)]
pub enum RunStep {
    /// Send the key to the application.
    Key(Key),
    /// Send the character to the application.
    Char(char),
    /// Wait for the application to settle.
    Settle,
    /// Wait this many milliseconds.
    Sleep(u64),
    /// Evaluate the assertion.
    Assert(String),
    /// Take the screenshot, or compare it with the saved one.
    Screenshot(String),
    /// Switch immediate mode on or off.
    SetImmediate(bool),
    /// Stop the run with this error.
    Abort(String),
}

/// The value of a step.
pub enum StepView {
    Key(Key),
    Char(char),
    Settle,
    Sleep(u64),
    Assert(Seq<char>),
    Screenshot(Seq<char>),
    SetImmediate(bool),
    Abort(Seq<char>),
}

impl View for RunStep {
    type V = StepView;

    open spec fn view(&self) -> StepView {
        match *self {
            RunStep::Key(k) => StepView::Key(k),
            RunStep::Char(c) => StepView::Char(c),
            RunStep::Settle => StepView::Settle,
            RunStep::Sleep(ms) => StepView::Sleep(ms),
            RunStep::Assert(a) => StepView::Assert(a@),
            RunStep::Screenshot(f) => StepView::Screenshot(f@),
            RunStep::SetImmediate(b) => StepView::SetImmediate(b),
            RunStep::Abort(e) => StepView::Abort(e@),
        }
    }
}

/// The milliseconds of a timed wait: a number, with or without the unit `ms`.
pub open spec fn wait_millis(v: Seq<char>) -> Option<u64> {
    if has_suffix(v, "ms"@) {
        parse_u64_spec(v.subrange(0, v.len() - 2))
    } else {
        parse_u64_spec(v)
    }
}

/// The step for a command.
pub open spec fn step_for(c: CommandView) -> StepView {
    match c.command_type {
        CommandType::Key => match key_named(unicode_lowercase(c.value)) {
            Some(k) => StepView::Key(k),
            None => StepView::Abort("Unknown key: "@ + c.value),
        },
        CommandType::Char => if c.value.len() > 0 {
            StepView::Char(c.value[0])
        } else {
            StepView::Abort("Empty character command"@)
        },
        CommandType::Wait => if c.value.len() == 0 {
            StepView::Settle
        } else {
            match wait_millis(c.value) {
                Some(ms) => StepView::Sleep(ms),
                None => StepView::Abort("Invalid wait duration: "@ + c.value),
            }
        },
        CommandType::Assert => StepView::Assert(c.value),
        CommandType::Screenshot => StepView::Screenshot(c.value),
        CommandType::SetImmediate => StepView::SetImmediate(true),
        CommandType::SetSettle => StepView::SetImmediate(false),
    }
}

/// The counts and errors of a run.
#[derive(Debug)]
pub struct RunTally {
    pub events_processed: usize,
    pub assertions_passed: usize,
    pub assertions_failed: usize,
    pub errors: Vec<String>,
}

/// The outcome of a run.
#[derive(Debug)]
pub struct TestResult {
    pub duration_ms: u64,
    pub events_processed: usize,
    pub assertions_passed: usize,
    pub assertions_failed: usize,
    pub errors: Vec<String>,
    pub success: bool,
}

/// What taking a screenshot shown as `shown` ends in: in overwrite mode the
/// file is written and that is reported; else the screen `content` is
/// compared with the file's text `existing` (`None` when it could not be
/// read), and only the same text passes.
pub open spec fn screenshot_outcome(
    overwrite: bool,
    content: Seq<char>,
    existing: Option<Seq<char>>,
    shown: Seq<char>,
) -> Result<Seq<char>, Seq<char>> {
    if overwrite {
        Ok("📸 Screenshot saved to: "@ + shown)
    } else {
        match existing {
            Some(e) => if e == content {
                Ok("✅ Screenshot verification passed: "@ + shown)
            } else {
                Err("❌ Screenshot verification failed: "@ + shown
                    + ". Content differs from expected. Use --overwrite to update."@)
            },
            None => Err("❌ Screenshot verification failed: "@ + shown + " does not exist. Use --overwrite to create."@),
        }
    }
}

/// The value of a result of two texts.
pub open spec fn text_result(r: Result<String, String>) -> Result<Seq<char>, Seq<char>> {
    match r {
        Ok(m) => Ok(m@),
        Err(e) => Err(e@),
    }
}

impl TestRunner {
    /// What taking a screenshot ends in, given the screen `content`, the text
    /// `existing` of the screenshot file (`None` when it could not be read)
    /// and the file's name `shown`: the message to print, or the error.
    pub fn screenshot_verdict(&self, content: &str, existing: Option<&str>, shown: &str) -> (r: Result<String, String>)
        ensures
            text_result(r) == screenshot_outcome(self.overwrite_mode, content@,
                match existing { Some(e) => Some(e@), None => None }, shown@),
    {
        if self.overwrite_mode {
            return Ok(concat_str("📸 Screenshot saved to: ", shown));
        }
        match existing {
            Some(e) => {
                if str_eq(e, content) {
                    Ok(concat_str("✅ Screenshot verification passed: ", shown))
                } else {
                    let m = concat_str("❌ Screenshot verification failed: ", shown);
                    Err(m.concat(". Content differs from expected. Use --overwrite to update."))
                }
            },
            None => {
                let m = concat_str("❌ Screenshot verification failed: ", shown);
                Err(m.concat(" does not exist. Use --overwrite to create."))
            },
        }
    }
}

impl TestRunner {
    /// What running the command at `index` asks for.
    pub fn plan_command(&self, index: usize) -> (r: RunStep)
        requires
            index < self.script.commands@.len(),
        ensures
            r@ == step_for(self.script.commands@[index as int]@),
    {
        let cmd = &self.script.commands[index];
        match cmd.command_type {
            CommandType::Key => match self.parse_key_event(cmd.value.as_str()) {
                Ok(k) => RunStep::Key(k),
                Err(e) => RunStep::Abort(e),
            },
            CommandType::Char => {
                let vc = chars_of(cmd.value.as_str());
                if vc.len() > 0 {
                    RunStep::Char(vc[0])
                } else {
                    RunStep::Abort("Empty character command".to_string())
                }
            },
            CommandType::Wait => {
                let vc = chars_of(cmd.value.as_str());
                if vc.len() == 0 {
                    RunStep::Settle
                } else {
                    let millis = if ends_with(vc.as_slice(), "ms") {
                        proof {
                            reveal_strlit("ms");
                        }
                        let digits = slice_chars(vc.as_slice(), 0, vc.len() - 2);
                        parse_u64(digits.as_slice())
                    } else {
                        parse_u64(vc.as_slice())
                    };
                    match millis {
                        Some(ms) => RunStep::Sleep(ms),
                        None => RunStep::Abort(concat_str("Invalid wait duration: ", cmd.value.as_str())),
                    }
                }
            },
            CommandType::Assert => RunStep::Assert(cmd.value.clone()),
            CommandType::Screenshot => RunStep::Screenshot(cmd.value.clone()),
            CommandType::SetImmediate => RunStep::SetImmediate(true),
            CommandType::SetSettle => RunStep::SetImmediate(false),
        }
    }

    /// Whether the run waits for the application to settle after the
    /// command at `index`: unless it is immediate or itself a wait.
    pub fn settles_after(&self, index: usize) -> (r: bool)
        requires
            index < self.script.commands@.len(),
        ensures
            r == (!self.script.commands@[index as int].immediate
                && self.script.commands@[index as int].command_type != CommandType::Wait),
    {
        let cmd = &self.script.commands[index];
        !cmd.immediate && cmd.command_type != CommandType::Wait
    }
}

impl RunTally {
    /// Nothing counted yet.
    pub fn new() -> (r: Self)
        ensures
            r.events_processed == 0,
            r.assertions_passed == 0,
            r.assertions_failed == 0,
            r.errors@.len() == 0,
    {
        RunTally { events_processed: 0, assertions_passed: 0, assertions_failed: 0, errors: Vec::new() }
    }

    /// Counts an event that the application handled, or records its error
    /// after `prefix`.
    pub fn record_event(&mut self, outcome: Result<(), String>, prefix: &str)
        requires
            old(self).events_processed < usize::MAX,
        ensures
            match outcome {
                Ok(()) => final(self).events_processed == old(self).events_processed + 1
                    && final(self).errors == old(self).errors,
                Err(e) => final(self).events_processed == old(self).events_processed
                    && final(self).errors@.len() == old(self).errors@.len() + 1
                    && final(self).errors@.drop_last() == old(self).errors@
                    && final(self).errors@.last()@ == prefix@ + e@,
            },
            final(self).assertions_passed == old(self).assertions_passed,
            final(self).assertions_failed == old(self).assertions_failed,
    {
        match outcome {
            Ok(()) => {
                self.events_processed = self.events_processed + 1;
            },
            Err(e) => {
                self.errors.push(concat_str(prefix, e.as_str()));
                assert(self.errors@.drop_last() =~= old(self).errors@);
            },
        }
    }

    /// Records an error after `prefix`.
    pub fn record_error(&mut self, prefix: &str, e: &str)
        ensures
            final(self).errors@.len() == old(self).errors@.len() + 1,
            final(self).errors@.drop_last() == old(self).errors@,
            final(self).errors@.last()@ == prefix@ + e@,
            final(self).events_processed == old(self).events_processed,
            final(self).assertions_passed == old(self).assertions_passed,
            final(self).assertions_failed == old(self).assertions_failed,
    {
        self.errors.push(concat_str(prefix, e));
        assert(self.errors@.drop_last() =~= old(self).errors@);
    }

    /// Counts the outcome of the assertion `assertion`: passed, failed, or
    /// failed with an error.
    pub fn record_assertion(&mut self, assertion: &str, outcome: Result<bool, String>)
        requires
            old(self).assertions_passed < usize::MAX,
            old(self).assertions_failed < usize::MAX,
        ensures
            match outcome {
                Ok(true) => final(self).assertions_passed == old(self).assertions_passed + 1
                    && final(self).assertions_failed == old(self).assertions_failed
                    && final(self).errors == old(self).errors,
                Ok(false) => final(self).assertions_passed == old(self).assertions_passed
                    && final(self).assertions_failed == old(self).assertions_failed + 1
                    && final(self).errors@.drop_last() == old(self).errors@
                    && final(self).errors@.len() == old(self).errors@.len() + 1
                    && final(self).errors@.last()@ == "Assertion failed: "@ + assertion@,
                Err(e) => final(self).assertions_passed == old(self).assertions_passed
                    && final(self).assertions_failed == old(self).assertions_failed + 1
                    && final(self).errors@.drop_last() == old(self).errors@
                    && final(self).errors@.len() == old(self).errors@.len() + 1
                    && final(self).errors@.last()@ == "Assertion error: "@ + e@,
            },
            final(self).events_processed == old(self).events_processed,
    {
        match outcome {
            Ok(true) => {
                self.assertions_passed = self.assertions_passed + 1;
            },
            Ok(false) => {
                self.assertions_failed = self.assertions_failed + 1;
                self.record_error("Assertion failed: ", assertion);
            },
            Err(e) => {
                self.assertions_failed = self.assertions_failed + 1;
                self.record_error("Assertion error: ", e.as_str());
            },
        }
    }

    /// The result of the run: it succeeds when no assertion failed and no
    /// error was recorded.
    pub fn finish(self, duration_ms: u64) -> (r: TestResult)
        ensures
            r.duration_ms == duration_ms,
            r.events_processed == self.events_processed,
            r.assertions_passed == self.assertions_passed,
            r.assertions_failed == self.assertions_failed,
            r.errors == self.errors,
            r.success == (self.assertions_failed == 0 && self.errors@.len() == 0),
    {
        let success = self.assertions_failed == 0 && self.errors.len() == 0;
        TestResult {
            duration_ms,
            events_processed: self.events_processed,
            assertions_passed: self.assertions_passed,
            assertions_failed: self.assertions_failed,
            errors: self.errors,
            success,
        }
    }
}

} // verus!
