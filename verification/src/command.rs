//! The command language of the scripted front end: parsing a command from its
//! text and writing it back.

use vstd::prelude::*;
use crate::text::{
    all_ascii, ascii_lower_char, ascii_prefix_len, chars_eq, lemma_ascii_prefix_at_least, lemma_ascii_prefix_is, chars_of, concat_str, ends_with, first_index, has_prefix, has_suffix, is_ws,
    lemma_first_index_bound, lemma_first_index_is, lemma_split_append, lemma_split_single, push_char, slice_chars, split_chars, split_on, starts_with, string_of,
    to_lowercase, trim, trim_chars, trim_end, trim_start, unicode_lowercase, views_of,
};

verus! {

/// Every command that a user or a script can give.
#[derive(Debug, PartialEq, Eq)]
pub enum Command {
    NextPanel,
    PreviousPanel,
    Quit,
    NavigateUp,
    NavigateDown,
    ExpandNode,
    CollapseNode,
    SelectFile,
    StartSearch,
    EndSearch,
    SearchInput(char),
    SearchBackspace,
    HistoryUp,
    HistoryDown,
    SelectCommit,
    InspectorUp,
    InspectorDown,
    InspectorPageUp,
    InspectorPageDown,
    InspectorHome,
    InspectorEnd,
    InspectorLeft,
    InspectorRight,
    GoToTop,
    GoToBottom,
    PreviousChange,
    NextChange,
    ToggleDiff,
    Sequence(Vec<Command>),
}

/// The command that a keyword (already lowercased) names, if any.
pub open spec fn keyword_command(k: Seq<char>) -> Option<Command> {
    if k == "next_panel"@ || k == "tab"@ { Some(Command::NextPanel) }
    else if k == "previous_panel"@ || k == "shift_tab"@ { Some(Command::PreviousPanel) }
    else if k == "quit"@ || k == "q"@ { Some(Command::Quit) }
    else if k == "navigate_up"@ || k == "up"@ { Some(Command::NavigateUp) }
    else if k == "navigate_down"@ || k == "down"@ { Some(Command::NavigateDown) }
    else if k == "expand"@ || k == "right"@ { Some(Command::ExpandNode) }
    else if k == "collapse"@ || k == "left"@ { Some(Command::CollapseNode) }
    else if k == "select_file"@ || k == "enter"@ { Some(Command::SelectFile) }
    else if k == "start_search"@ || k == "/"@ { Some(Command::StartSearch) }
    else if k == "end_search"@ || k == "escape"@ { Some(Command::EndSearch) }
    else if k == "search_backspace"@ || k == "backspace"@ { Some(Command::SearchBackspace) }
    else if k == "history_up"@ { Some(Command::HistoryUp) }
    else if k == "history_down"@ { Some(Command::HistoryDown) }
    else if k == "select_commit"@ { Some(Command::SelectCommit) }
    else if k == "inspector_up"@ { Some(Command::InspectorUp) }
    else if k == "inspector_down"@ { Some(Command::InspectorDown) }
    else if k == "inspector_page_up"@ || k == "page_up"@ { Some(Command::InspectorPageUp) }
    else if k == "inspector_page_down"@ || k == "page_down"@ { Some(Command::InspectorPageDown) }
    else if k == "inspector_home"@ || k == "home"@ { Some(Command::InspectorHome) }
    else if k == "inspector_end"@ || k == "end"@ { Some(Command::InspectorEnd) }
    else if k == "inspector_left"@ { Some(Command::InspectorLeft) }
    else if k == "inspector_right"@ { Some(Command::InspectorRight) }
    else if k == "goto_top"@ || k == "g"@ { Some(Command::GoToTop) }
    else if k == "goto_bottom"@ || k == "shift_g"@ { Some(Command::GoToBottom) }
    else if k == "previous_change"@ || k == "p"@ { Some(Command::PreviousChange) }
    else if k == "next_change"@ || k == "n"@ { Some(Command::NextChange) }
    else if k == "toggle_diff"@ || k == "d"@ { Some(Command::ToggleDiff) }
    else { None }
}

/// Whether `s` is a single search input: `search:` and at least one character.
pub open spec fn is_search_text(s: Seq<char>) -> bool {
    has_prefix(s, "search:"@) && s.len() > "search:"@.len()
}

/// Whether `s` has the shape of a sequence: `sequence:[`, a body and `]`.
pub open spec fn is_sequence_text(s: Seq<char>) -> bool {
    has_prefix(s, "sequence:["@) && has_suffix(s, "]"@)
}

/// The body of a sequence text, between `sequence:[` and the final `]`.
pub open spec fn sequence_body(s: Seq<char>) -> Seq<char> {
    s.subrange("sequence:["@.len() as int, s.len() - 1)
}

/// The error that parsing `s` ends in, or `None` when it succeeds.
pub open spec fn parse_error(s: Seq<char>) -> Option<Seq<char>>
    decreases s.len(), 1nat, 0nat,
{
    if simple_command(s) is Some {
        None
    } else if is_sequence_text(s) {
        let body = sequence_body(s);
        if body.len() == 0 {
            None
        } else {
            parts_error(split_on(body, ','), s.len())
        }
    } else {
        Some("Unknown command: "@ + s)
    }
}

/// The error of the first part of a sequence that does not parse.
pub open spec fn parts_error(parts: Seq<Seq<char>>, bound: nat) -> Option<Seq<char>>
    decreases bound, 0nat, parts.len(),
{
    if parts.len() == 0 {
        None
    } else if trim(parts[0]).len() < bound {
        match parse_error(trim(parts[0])) {
            Some(e) => Some("Invalid command in sequence '"@ + trim(parts[0]) + "': "@ + e),
            None => parts_error(parts.drop_first(), bound),
        }
    } else {
        None
    }
}

/// The lowercase form of `s` that keywords are matched against, as
/// `str::to_lowercase` gives it: its ASCII prefix with `A`..`Z` lowered,
/// then what the mapping gives for the rest.
pub open spec fn lowered(s: Seq<char>) -> Seq<char> {
    if all_ascii(s) {
        s.map_values(|c: char| ascii_lower_char(c))
    } else {
        let k = ascii_prefix_len(s) as int;
        let u = unicode_lowercase(s);
        s.subrange(0, k).map_values(|c: char| ascii_lower_char(c)) + u.subrange(k, u.len() as int)
    }
}

/// The command that `s` names directly, without the sequence form: a keyword
/// in any case, or `search:` and a character.
pub open spec fn simple_command(s: Seq<char>) -> Option<Command> {
    if keyword_command(lowered(s)) is Some {
        keyword_command(lowered(s))
    } else if is_search_text(s) {
        Some(Command::SearchInput(s["search:"@.len() as int]))
    } else {
        None
    }
}

/// Whether parsing `s` gives the command `c`.
pub open spec fn parses_to(s: Seq<char>, c: Command) -> bool
    decreases s.len(), 1nat, 0nat,
{
    if simple_command(s) is Some {
        c == simple_command(s)->Some_0
    } else if is_sequence_text(s) {
        let body = sequence_body(s);
        &&& c is Sequence
        &&& body.len() == 0 ==> c->Sequence_0@.len() == 0
        &&& body.len() > 0 ==> parts_parse_to(split_on(body, ','), c->Sequence_0@, s.len())
    } else {
        false
    }
}

/// Whether the trimmed parts of a sequence parse to the given commands, one each.
pub open spec fn parts_parse_to(parts: Seq<Seq<char>>, cmds: Seq<Command>, bound: nat) -> bool
    decreases bound, 0nat, parts.len(),
{
    if parts.len() == 0 {
        cmds.len() == 0
    } else if trim(parts[0]).len() < bound {
        &&& cmds.len() > 0
        &&& parses_to(trim(parts[0]), cmds[0])
        &&& parts_parse_to(parts.drop_first(), cmds.drop_first(), bound)
    } else {
        false
    }
}

/// The text of a command, as `Command::to_string` writes it.
pub open spec fn command_text(c: Command) -> Seq<char>
    decreases c,
{
    match c {
        Command::NextPanel => "next_panel"@,
        Command::PreviousPanel => "previous_panel"@,
        Command::Quit => "quit"@,
        Command::NavigateUp => "navigate_up"@,
        Command::NavigateDown => "navigate_down"@,
        Command::ExpandNode => "expand"@,
        Command::CollapseNode => "collapse"@,
        Command::SelectFile => "select_file"@,
        Command::StartSearch => "start_search"@,
        Command::EndSearch => "end_search"@,
        Command::SearchInput(ch) => "search:"@.push(ch),
        Command::SearchBackspace => "search_backspace"@,
        Command::HistoryUp => "history_up"@,
        Command::HistoryDown => "history_down"@,
        Command::SelectCommit => "select_commit"@,
        Command::InspectorUp => "inspector_up"@,
        Command::InspectorDown => "inspector_down"@,
        Command::InspectorPageUp => "inspector_page_up"@,
        Command::InspectorPageDown => "inspector_page_down"@,
        Command::InspectorHome => "inspector_home"@,
        Command::InspectorEnd => "inspector_end"@,
        Command::InspectorLeft => "inspector_left"@,
        Command::InspectorRight => "inspector_right"@,
        Command::GoToTop => "goto_top"@,
        Command::GoToBottom => "goto_bottom"@,
        Command::PreviousChange => "previous_change"@,
        Command::NextChange => "next_change"@,
        Command::ToggleDiff => "toggle_diff"@,
        Command::Sequence(v) => "sequence:["@ + joined_texts(v@) + "]"@,
    }
}

/// The texts of the commands, joined by commas.
pub open spec fn joined_texts(cs: Seq<Command>) -> Seq<char>
    decreases cs,
{
    if cs.len() == 0 {
        Seq::empty()
    } else if cs.len() == 1 {
        command_text(cs[0])
    } else {
        joined_texts(cs.drop_last()) + ","@ + command_text(cs.last())
    }
}

fn is_lit(k: &[char], lit: &str) -> (r: bool)
    ensures
        r == (k@ == lit@),
{
    let l = chars_of(lit);
    chars_eq(k, l.as_slice())
}

fn keyword_lookup(k: &[char]) -> (r: Option<Command>)
    ensures
        r == keyword_command(k@),
{
    if is_lit(k, "next_panel") || is_lit(k, "tab") { Some(Command::NextPanel) }
    else if is_lit(k, "previous_panel") || is_lit(k, "shift_tab") { Some(Command::PreviousPanel) }
    else if is_lit(k, "quit") || is_lit(k, "q") { Some(Command::Quit) }
    else if is_lit(k, "navigate_up") || is_lit(k, "up") { Some(Command::NavigateUp) }
    else if is_lit(k, "navigate_down") || is_lit(k, "down") { Some(Command::NavigateDown) }
    else if is_lit(k, "expand") || is_lit(k, "right") { Some(Command::ExpandNode) }
    else if is_lit(k, "collapse") || is_lit(k, "left") { Some(Command::CollapseNode) }
    else if is_lit(k, "select_file") || is_lit(k, "enter") { Some(Command::SelectFile) }
    else if is_lit(k, "start_search") || is_lit(k, "/") { Some(Command::StartSearch) }
    else if is_lit(k, "end_search") || is_lit(k, "escape") { Some(Command::EndSearch) }
    else if is_lit(k, "search_backspace") || is_lit(k, "backspace") { Some(Command::SearchBackspace) }
    else if is_lit(k, "history_up") { Some(Command::HistoryUp) }
    else if is_lit(k, "history_down") { Some(Command::HistoryDown) }
    else if is_lit(k, "select_commit") { Some(Command::SelectCommit) }
    else if is_lit(k, "inspector_up") { Some(Command::InspectorUp) }
    else if is_lit(k, "inspector_down") { Some(Command::InspectorDown) }
    else if is_lit(k, "inspector_page_up") || is_lit(k, "page_up") { Some(Command::InspectorPageUp) }
    else if is_lit(k, "inspector_page_down") || is_lit(k, "page_down") { Some(Command::InspectorPageDown) }
    else if is_lit(k, "inspector_home") || is_lit(k, "home") { Some(Command::InspectorHome) }
    else if is_lit(k, "inspector_end") || is_lit(k, "end") { Some(Command::InspectorEnd) }
    else if is_lit(k, "inspector_left") { Some(Command::InspectorLeft) }
    else if is_lit(k, "inspector_right") { Some(Command::InspectorRight) }
    else if is_lit(k, "goto_top") || is_lit(k, "g") { Some(Command::GoToTop) }
    else if is_lit(k, "goto_bottom") || is_lit(k, "shift_g") { Some(Command::GoToBottom) }
    else if is_lit(k, "previous_change") || is_lit(k, "p") { Some(Command::PreviousChange) }
    else if is_lit(k, "next_change") || is_lit(k, "n") { Some(Command::NextChange) }
    else if is_lit(k, "toggle_diff") || is_lit(k, "d") { Some(Command::ToggleDiff) }
    else { None }
}

proof fn lemma_split_parts_short(s: Seq<char>, c: char)
    ensures
        forall|i: int| 0 <= i < split_on(s, c).len() ==> #[trigger] split_on(s, c)[i].len() <= s.len(),
    decreases s.len(),
{
    lemma_first_index_bound(s, c);
    let k = first_index(s, c);
    if k < s.len() {
        let rest = s.subrange(k as int + 1, s.len() as int);
        lemma_split_parts_short(rest, c);
        assert forall|i: int| 0 <= i < split_on(s, c).len() implies #[trigger] split_on(s, c)[i].len() <= s.len() by {
            if i > 0 {
                assert(split_on(s, c)[i] == split_on(rest, c)[i - 1]);
            }
        }
    }
}

proof fn lemma_trim_shorter(s: Seq<char>)
    ensures
        trim(s).len() <= s.len(),
{
    lemma_trim_start_shorter(s);
    lemma_trim_end_shorter(trim_start(s));
}

proof fn lemma_trim_start_shorter(s: Seq<char>)
    ensures
        trim_start(s).len() <= s.len(),
    decreases s.len(),
{
    if s.len() > 0 && is_ws(s[0]) {
        lemma_trim_start_shorter(s.drop_first());
    }
}

proof fn lemma_trim_end_shorter(s: Seq<char>)
    ensures
        trim_end(s).len() <= s.len(),
    decreases s.len(),
{
    if s.len() > 0 && is_ws(s.last()) {
        lemma_trim_end_shorter(s.drop_last());
    }
}

proof fn lemma_parts_parse_push(parts: Seq<Seq<char>>, cmds: Seq<Command>, x: Seq<char>, c: Command, bound: nat)
    requires
        parts_parse_to(parts, cmds, bound),
        trim(x).len() < bound,
        parses_to(trim(x), c),
    ensures
        parts_parse_to(parts.push(x), cmds.push(c), bound),
    decreases parts.len(),
{
    if parts.len() == 0 {
        assert(parts.push(x).drop_first() =~= Seq::<Seq<char>>::empty());
        assert(cmds.push(c).drop_first() =~= Seq::<Command>::empty());
        assert(parts.push(x)[0] == x);
        assert(cmds.push(c)[0] == c);
        assert(parts_parse_to(Seq::<Seq<char>>::empty(), Seq::<Command>::empty(), bound));
    } else {
        lemma_parts_parse_push(parts.drop_first(), cmds.drop_first(), x, c, bound);
        assert(parts.push(x).drop_first() =~= parts.drop_first().push(x));
        assert(cmds.push(c).drop_first() =~= cmds.drop_first().push(c));
        assert(parts.push(x)[0] == parts[0]);
        assert(cmds.push(c)[0] == cmds[0]);
    }
}

proof fn lemma_simple_parses(s: Seq<char>, c: Command)
    requires
        simple_command(s) == Some(c),
    ensures
        parse_error(s) is None,
        parses_to(s, c),
{
}

proof fn lemma_parts_error_head(parts: Seq<Seq<char>>, bound: nat)
    requires
        parts.len() > 0,
        trim(parts[0]).len() < bound,
    ensures
        parts_error(parts, bound) == match parse_error(trim(parts[0])) {
            Some(e) => Some("Invalid command in sequence '"@ + trim(parts[0]) + "': "@ + e),
            None => parts_error(parts.drop_first(), bound),
        },
{
}

proof fn lemma_parse_error_sequence(s: Seq<char>)
    requires
        simple_command(s) is None,
        is_sequence_text(s),
        sequence_body(s).len() > 0,
    ensures
        parse_error(s) == parts_error(split_on(sequence_body(s), ','), s.len()),
{
}

/// A text without `A`..`Z` and without other characters than ASCII is its
/// own lowercase form.
proof fn lemma_lowered_plain(s: Seq<char>)
    requires
        forall|i: int| 0 <= i < s.len() ==> (#[trigger] s[i] as u32) < 128 && !('A' <= s[i] && s[i] <= 'Z'),
    ensures
        lowered(s) == s,
{
    assert(s.map_values(|c: char| ascii_lower_char(c)) =~= s);
}

/// The keywords, revealed.
proof fn lemma_keywords_revealed()
    ensures
        "next_panel"@ == seq!['n', 'e', 'x', 't', '_', 'p', 'a', 'n', 'e', 'l'],
        "tab"@ == seq!['t', 'a', 'b'],
        "previous_panel"@ == seq!['p', 'r', 'e', 'v', 'i', 'o', 'u', 's', '_', 'p', 'a', 'n', 'e', 'l'],
        "shift_tab"@ == seq!['s', 'h', 'i', 'f', 't', '_', 't', 'a', 'b'],
        "quit"@ == seq!['q', 'u', 'i', 't'],
        "q"@ == seq!['q'],
        "navigate_up"@ == seq!['n', 'a', 'v', 'i', 'g', 'a', 't', 'e', '_', 'u', 'p'],
        "up"@ == seq!['u', 'p'],
        "navigate_down"@ == seq!['n', 'a', 'v', 'i', 'g', 'a', 't', 'e', '_', 'd', 'o', 'w', 'n'],
        "down"@ == seq!['d', 'o', 'w', 'n'],
        "expand"@ == seq!['e', 'x', 'p', 'a', 'n', 'd'],
        "right"@ == seq!['r', 'i', 'g', 'h', 't'],
        "collapse"@ == seq!['c', 'o', 'l', 'l', 'a', 'p', 's', 'e'],
        "left"@ == seq!['l', 'e', 'f', 't'],
        "select_file"@ == seq!['s', 'e', 'l', 'e', 'c', 't', '_', 'f', 'i', 'l', 'e'],
        "enter"@ == seq!['e', 'n', 't', 'e', 'r'],
        "start_search"@ == seq!['s', 't', 'a', 'r', 't', '_', 's', 'e', 'a', 'r', 'c', 'h'],
        "/"@ == seq!['/'],
        "end_search"@ == seq!['e', 'n', 'd', '_', 's', 'e', 'a', 'r', 'c', 'h'],
        "escape"@ == seq!['e', 's', 'c', 'a', 'p', 'e'],
        "search_backspace"@ == seq!['s', 'e', 'a', 'r', 'c', 'h', '_', 'b', 'a', 'c', 'k', 's', 'p', 'a', 'c', 'e'],
        "backspace"@ == seq!['b', 'a', 'c', 'k', 's', 'p', 'a', 'c', 'e'],
        "history_up"@ == seq!['h', 'i', 's', 't', 'o', 'r', 'y', '_', 'u', 'p'],
        "history_down"@ == seq!['h', 'i', 's', 't', 'o', 'r', 'y', '_', 'd', 'o', 'w', 'n'],
        "select_commit"@ == seq!['s', 'e', 'l', 'e', 'c', 't', '_', 'c', 'o', 'm', 'm', 'i', 't'],
        "inspector_up"@ == seq!['i', 'n', 's', 'p', 'e', 'c', 't', 'o', 'r', '_', 'u', 'p'],
        "inspector_down"@ == seq!['i', 'n', 's', 'p', 'e', 'c', 't', 'o', 'r', '_', 'd', 'o', 'w', 'n'],
        "inspector_page_up"@ == seq!['i', 'n', 's', 'p', 'e', 'c', 't', 'o', 'r', '_', 'p', 'a', 'g', 'e', '_', 'u', 'p'],
        "page_up"@ == seq!['p', 'a', 'g', 'e', '_', 'u', 'p'],
        "inspector_page_down"@ == seq!['i', 'n', 's', 'p', 'e', 'c', 't', 'o', 'r', '_', 'p', 'a', 'g', 'e', '_', 'd', 'o', 'w', 'n'],
        "page_down"@ == seq!['p', 'a', 'g', 'e', '_', 'd', 'o', 'w', 'n'],
        "inspector_home"@ == seq!['i', 'n', 's', 'p', 'e', 'c', 't', 'o', 'r', '_', 'h', 'o', 'm', 'e'],
        "home"@ == seq!['h', 'o', 'm', 'e'],
        "inspector_end"@ == seq!['i', 'n', 's', 'p', 'e', 'c', 't', 'o', 'r', '_', 'e', 'n', 'd'],
        "end"@ == seq!['e', 'n', 'd'],
        "inspector_left"@ == seq!['i', 'n', 's', 'p', 'e', 'c', 't', 'o', 'r', '_', 'l', 'e', 'f', 't'],
        "inspector_right"@ == seq!['i', 'n', 's', 'p', 'e', 'c', 't', 'o', 'r', '_', 'r', 'i', 'g', 'h', 't'],
        "goto_top"@ == seq!['g', 'o', 't', 'o', '_', 't', 'o', 'p'],
        "g"@ == seq!['g'],
        "goto_bottom"@ == seq!['g', 'o', 't', 'o', '_', 'b', 'o', 't', 't', 'o', 'm'],
        "shift_g"@ == seq!['s', 'h', 'i', 'f', 't', '_', 'g'],
        "previous_change"@ == seq!['p', 'r', 'e', 'v', 'i', 'o', 'u', 's', '_', 'c', 'h', 'a', 'n', 'g', 'e'],
        "p"@ == seq!['p'],
        "next_change"@ == seq!['n', 'e', 'x', 't', '_', 'c', 'h', 'a', 'n', 'g', 'e'],
        "n"@ == seq!['n'],
        "toggle_diff"@ == seq!['t', 'o', 'g', 'g', 'l', 'e', '_', 'd', 'i', 'f', 'f'],
        "d"@ == seq!['d'],
{
    reveal_strlit("next_panel");
    reveal_strlit("tab");
    reveal_strlit("previous_panel");
    reveal_strlit("shift_tab");
    reveal_strlit("quit");
    reveal_strlit("q");
    reveal_strlit("navigate_up");
    reveal_strlit("up");
    reveal_strlit("navigate_down");
    reveal_strlit("down");
    reveal_strlit("expand");
    reveal_strlit("right");
    reveal_strlit("collapse");
    reveal_strlit("left");
    reveal_strlit("select_file");
    reveal_strlit("enter");
    reveal_strlit("start_search");
    reveal_strlit("/");
    reveal_strlit("end_search");
    reveal_strlit("escape");
    reveal_strlit("search_backspace");
    reveal_strlit("backspace");
    reveal_strlit("history_up");
    reveal_strlit("history_down");
    reveal_strlit("select_commit");
    reveal_strlit("inspector_up");
    reveal_strlit("inspector_down");
    reveal_strlit("inspector_page_up");
    reveal_strlit("page_up");
    reveal_strlit("inspector_page_down");
    reveal_strlit("page_down");
    reveal_strlit("inspector_home");
    reveal_strlit("home");
    reveal_strlit("inspector_end");
    reveal_strlit("end");
    reveal_strlit("inspector_left");
    reveal_strlit("inspector_right");
    reveal_strlit("goto_top");
    reveal_strlit("g");
    reveal_strlit("goto_bottom");
    reveal_strlit("shift_g");
    reveal_strlit("previous_change");
    reveal_strlit("p");
    reveal_strlit("next_change");
    reveal_strlit("n");
    reveal_strlit("toggle_diff");
    reveal_strlit("d");
}

/// Each keyword command's text parses back to it.
proof fn lemma_keyword_round_trip(c: Command)
    requires
        !(c is SearchInput),
        !(c is Sequence),
    ensures
        simple_command(command_text(c)) == Some(c),
{
    lemma_keywords_revealed();
    let t = command_text(c);
    assert forall|i: int| 0 <= i < t.len() implies (#[trigger] t[i] as u32) < 128 && !('A' <= t[i] && t[i] <= 'Z') by {}
    lemma_lowered_plain(t);
}

/// A search input parses back to it.
proof fn lemma_search_round_trip(ch: char)
    ensures
        simple_command(command_text(Command::SearchInput(ch))) == Some(Command::SearchInput(ch)),
{
    lemma_keywords_revealed();
    reveal_strlit("search:");
    let t = command_text(Command::SearchInput(ch));
    assert(t =~= seq!['s', 'e', 'a', 'r', 'c', 'h', ':', ch]);
    let l = lowered(t);
    if (ch as u32) < 128 {
        assert(all_ascii(t));
        assert(l.len() == 8 && l[6] == ':');
    } else {
        lemma_ascii_prefix_is(t, 7);
        assert(l.len() >= 7 && l[6] == ':');
    }
    assert(keyword_command(l) is None);
    assert(t.subrange(0, 7) =~= "search:"@);
    assert(is_search_text(t));
}

/// The texts of the commands, one each.
pub open spec fn texts_of(cs: Seq<Command>) -> Seq<Seq<char>> {
    cs.map_values(|x: Command| command_text(x))
}

/// A command that a sequence can hold and give back: not a sequence, and a
/// search input that is neither a comma nor white space.
pub open spec fn plain_command(c: Command) -> bool {
    &&& !(c is Sequence)
    &&& (c matches Command::SearchInput(ch) ==> ch != ',' && !is_ws(ch))
}

/// The commands whose text parses back to them: every command that is not
/// a sequence, and a sequence of plain commands.
pub open spec fn round_trips(c: Command) -> bool {
    match c {
        Command::Sequence(v) => forall|i: int| 0 <= i < v@.len() ==> #[trigger] plain_command(v@[i]),
        _ => true,
    }
}

/// The text of a plain command parses back to it, holds no comma and is
/// its own trimmed form.
proof fn lemma_plain_text(c: Command)
    requires
        plain_command(c),
    ensures
        simple_command(command_text(c)) == Some(c),
        command_text(c).len() > 0,
        forall|i: int| 0 <= i < command_text(c).len() ==> #[trigger] command_text(c)[i] != ',',
        trim(command_text(c)) == command_text(c),
{
    let t = command_text(c);
    lemma_keywords_revealed();
    reveal_strlit("search:");
    match c {
        Command::SearchInput(ch) => {
            lemma_search_round_trip(ch);
            assert(t =~= seq!['s', 'e', 'a', 'r', 'c', 'h', ':', ch]);
        },
        _ => {
            lemma_keyword_round_trip(c);
        },
    }
    assert(!is_ws(t[0]));
    assert(!is_ws(t.last()));
    assert(trim_start(t) == t);
    assert(trim_end(t) == t);
}

/// The texts of plain commands, joined by commas, split back into the texts.
proof fn lemma_joined_split(cs: Seq<Command>)
    requires
        cs.len() > 0,
        forall|i: int| 0 <= i < cs.len() ==> #[trigger] plain_command(cs[i]),
    ensures
        split_on(joined_texts(cs), ',') == texts_of(cs),
    decreases cs.len(),
{
    lemma_plain_text(cs.last());
    if cs.len() == 1 {
        lemma_split_single(command_text(cs[0]), ',');
        assert(texts_of(cs) =~= seq![command_text(cs[0])]);
    } else {
        let d = cs.drop_last();
        assert forall|i: int| 0 <= i < d.len() implies #[trigger] plain_command(d[i]) by {
            assert(d[i] == cs[i]);
        }
        lemma_joined_split(d);
        reveal_strlit(",");
        assert(","@ =~= seq![',']);
        lemma_split_append(joined_texts(d), command_text(cs.last()), ',');
        assert(texts_of(cs)
            =~= texts_of(d) + seq![command_text(cs.last())]);
    }
}

/// Plain commands' texts, each shorter than `bound`, parse to the commands,
/// and to no others.
proof fn lemma_parts_parse(cs: Seq<Command>, bound: nat)
    requires
        forall|i: int| 0 <= i < cs.len() ==> #[trigger] plain_command(cs[i]),
        forall|i: int| 0 <= i < cs.len() ==> #[trigger] command_text(cs[i]).len() < bound,
    ensures
        parts_parse_to(texts_of(cs), cs, bound),
        parts_error(texts_of(cs), bound) is None,
        forall|ds: Seq<Command>| #[trigger] parts_parse_to(texts_of(cs), ds, bound) ==> ds == cs,
    decreases cs.len(),
{
    let parts = texts_of(cs);
    if cs.len() > 0 {
        let rest = cs.drop_first();
        assert forall|i: int| 0 <= i < rest.len() implies #[trigger] plain_command(rest[i]) by {
            assert(rest[i] == cs[i + 1]);
        }
        assert forall|i: int| 0 <= i < rest.len() implies #[trigger] command_text(rest[i]).len() < bound by {
            assert(rest[i] == cs[i + 1]);
        }
        lemma_parts_parse(rest, bound);
        assert(parts.drop_first() =~= texts_of(rest));
        assert(plain_command(cs[0]));
        assert(command_text(cs[0]).len() < bound);
        lemma_plain_text(cs[0]);
        assert(parts[0] == command_text(cs[0]));
        lemma_simple_parses(command_text(cs[0]), cs[0]);
        assert forall|ds: Seq<Command>| parts_parse_to(parts, ds, bound) implies ds == cs by {
            assert(parses_to(trim(parts[0]), ds[0]));
            assert(ds[0] == cs[0]);
            assert(parts_parse_to(parts.drop_first(), ds.drop_first(), bound));
            assert(parts_parse_to(texts_of(rest), ds.drop_first(), bound));
            assert(ds.drop_first() == rest);
            assert(ds =~= cs) by {
                assert forall|i: int| 0 <= i < ds.len() implies ds[i] == cs[i] by {
                    if i > 0 {
                        assert(ds[i] == ds.drop_first()[i - 1]);
                    }
                }
            }
        }
    } else {
        assert forall|ds: Seq<Command>| parts_parse_to(parts, ds, bound) implies ds == cs by {
            assert(ds =~= cs);
        }
    }
}

/// The text of a non-empty sequence of plain commands is not empty.
proof fn lemma_joined_nonempty(cs: Seq<Command>)
    requires
        cs.len() > 0,
        forall|i: int| 0 <= i < cs.len() ==> #[trigger] plain_command(cs[i]),
    ensures
        joined_texts(cs).len() > 0,
{
    lemma_plain_text(cs.last());
    assert(plain_command(cs[cs.len() - 1]));
    if cs.len() > 1 {
        reveal_strlit(",");
    }
}

/// Writing a command as text and parsing that text gives the command back,
/// and no other: for every command that is not a sequence, and for every
/// sequence of plain commands (not sequences, and search inputs that are
/// neither a comma nor white space).
pub proof fn law_command_round_trip(c: Command)
    requires
        round_trips(c),
    ensures
        parse_error(command_text(c)) is None,
        parses_to(command_text(c), c),
        !(c is Sequence) ==> forall|d: Command| #[trigger] parses_to(command_text(c), d) ==> d == c,
        c matches Command::Sequence(v) ==> forall|d: Command| #[trigger] parses_to(command_text(c), d)
            ==> (d is Sequence && d->Sequence_0@ == v@),
{
    match c {
        Command::Sequence(v) => {
            let cs = v@;
            let t = command_text(c);
            let body = joined_texts(cs);
            lemma_keywords_revealed();
            reveal_strlit("sequence:[");
            reveal_strlit("]");
            reveal_strlit("search:");
            assert(t == "sequence:["@ + body + "]"@);
            assert(sequence_body(t) =~= body);
            assert(t.subrange(0, 10) =~= "sequence:["@);
            assert(t.subrange(t.len() - 1, t.len() as int) =~= "]"@);
            assert(is_sequence_text(t));
            assert(!has_prefix(t, "search:"@)) by {
                assert(t[2] == 'q');
            }
            if cs.len() > 0 {
                lemma_joined_nonempty(cs);
            }
            let l = lowered(t);
            assert forall|j: int| 0 <= j < 10 implies (#[trigger] t[j] as u32) < 128 by {
                assert(t[j] == "sequence:["@[j]);
            }
            lemma_ascii_prefix_at_least(t, 10);
            assert(l[8] == ':' && l.len() >= 10);
            assert(keyword_command(l) is None);
            assert(simple_command(t) is None);
            if cs.len() == 0 {
                assert(body.len() == 0);
                assert forall|d: Command| #[trigger] parses_to(t, d) implies (d is Sequence && d->Sequence_0@ == cs) by {
                    assert(d->Sequence_0@ =~= cs);
                }
            } else {
                assert(body.len() > 0);
                lemma_joined_split(cs);
                lemma_split_parts_short(body, ',');
                let parts = split_on(body, ',');
                assert forall|i: int| 0 <= i < cs.len() implies #[trigger] command_text(cs[i]).len() < t.len() by {
                    assert(parts[i] == command_text(cs[i]));
                }
                lemma_parts_parse(cs, t.len());
                assert forall|d: Command| #[trigger] parses_to(t, d) implies (d is Sequence && d->Sequence_0@ == cs) by {
                    assert(parts_parse_to(texts_of(cs), d->Sequence_0@, t.len()));
                }
            }
        },
        Command::SearchInput(ch) => {
            lemma_search_round_trip(ch);
        },
        _ => {
            lemma_keyword_round_trip(c);
        },
    }
}

impl Command {
    /// Parses a command from its text. A keyword is recognised whatever its
    /// case; `search:` followed by a character is a search input; and
    /// `sequence:[..]` holds commands separated by commas, each trimmed.
    pub fn from_string(s: &str) -> (r: Result<Command, String>)
        ensures
            match r {
                Ok(c) => parse_error(s@) is None && parses_to(s@, c),
                Err(e) => parse_error(s@) == Some(e@),
            },
        decreases s@.len(),
    {
        let lower = to_lowercase(s);
        proof {
            lemma_ascii_prefix_at_least(s@, 0);
            let k = ascii_prefix_len(s@) as int;
            let pre = s@.subrange(0, k).map_values(|c: char| ascii_lower_char(c));
            assert(pre.len() == k);
            assert(lower@.subrange(0, pre.len() as int) == pre);
            assert(lower@ =~= pre + lower@.subrange(pre.len() as int, lower@.len() as int));
            if !all_ascii(s@) {
                assert(lower@ == lowered(s@));
            }
        }
        let lc = chars_of(lower.as_str());
        if let Some(c) = keyword_lookup(lc.as_slice()) {
            proof {
                lemma_simple_parses(s@, c);
            }
            return Ok(c);
        }
        let sc = chars_of(s);
        proof {
            reveal_strlit("search:");
            reveal_strlit("sequence:[");
            reveal_strlit("]");
        }
        assert("search:"@.len() == 7);
        assert("sequence:["@.len() == 10);
        assert("sequence:["@[9] == '[');
        assert("]"@.len() == 1);
        assert("]"@[0] == ']');
        assert(keyword_command(lowered(s@)) is None);
        if starts_with(sc.as_slice(), "search:") && sc.len() > 7 {
            assert(is_search_text(s@));
            assert(parse_error(s@) is None);
            let c = Command::SearchInput(sc[7]);
            proof {
                lemma_simple_parses(s@, c);
            }
            return Ok(c);
        }
        if starts_with(sc.as_slice(), "sequence:[") && ends_with(sc.as_slice(), "]") {
            let n = sc.len();
            assert(sc@.subrange(0, 10)[9] == '[');
            assert(sc@.subrange(n - 1, n as int)[0] == ']');
            assert(n >= 11);
            let body = slice_chars(sc.as_slice(), 10, n - 1);
            if body.len() == 0 {
                return Ok(Command::Sequence(Vec::new()));
            }
            let parts = split_chars(body.as_slice(), ',');
            let ghost pv = views_of(parts@);
            let ghost bound = s@.len();
            proof {
                lemma_split_parts_short(body@, ',');
                assert(pv.subrange(0, pv.len() as int) =~= pv);
                assert(pv.subrange(0, 0) =~= Seq::<Seq<char>>::empty());
            }
            let mut commands: Vec<Command> = Vec::new();
            let mut i: usize = 0;
            while i < parts.len()
                invariant
                    pv == views_of(parts@),
                    pv == split_on(body@, ','),
                    body@ == sequence_body(s@),
                    body@.len() > 0,
                    simple_command(s@) is None,
                    is_sequence_text(s@),
                    bound == s@.len(),
                    body@.len() + 11 == bound,
                    forall|j: int| 0 <= j < pv.len() ==> #[trigger] pv[j].len() <= body@.len(),
                    i <= parts@.len(),
                    parts_parse_to(pv.subrange(0, i as int), commands@, bound),
                    parts_error(pv, bound) == parts_error(pv.subrange(i as int, pv.len() as int), bound),
                decreases parts@.len() - i,
            {
                let t = trim_chars(parts[i].as_slice());
                let ts = string_of(t.as_slice());
                proof {
                    lemma_trim_shorter(pv[i as int]);
                    assert(pv[i as int] == parts@[i as int]@);
                    let rest = pv.subrange(i as int, pv.len() as int);
                    assert(rest[0] == pv[i as int]);
                    assert(rest.drop_first() =~= pv.subrange(i + 1, pv.len() as int));
                }
                match Command::from_string(ts.as_str()) {
                    Ok(cmd) => {
                        proof {
                            lemma_parts_parse_push(pv.subrange(0, i as int), commands@, pv[i as int], cmd, bound);
                            assert(pv.subrange(0, i as int).push(pv[i as int]) =~= pv.subrange(0, i + 1));
                        }
                        commands.push(cmd);
                    }
                    Err(e) => {
                        proof {
                            let rest = pv.subrange(i as int, pv.len() as int);
                            assert(trim(rest[0]) == ts@);
                            lemma_parts_error_head(rest, bound);
                            lemma_parse_error_sequence(s@);
                        }
                        let m1 = concat_str("Invalid command in sequence '", ts.as_str());
                        let m2 = m1.concat("': ");
                        let m3 = m2.concat(e.as_str());
                        assert(m3@ =~= "Invalid command in sequence '"@ + ts@ + "': "@ + e@);
                        return Err(m3);
                    }
                }
                i = i + 1;
            }
            return Ok(Command::Sequence(commands));
        }
        Err(concat_str("Unknown command: ", s))
    }

    /// The text of the command: its keyword, `search:` and the character, or
    /// the texts of a sequence between `sequence:[` and `]`, separated by commas.
    pub fn to_string(&self) -> (r: String)
        ensures
            r@ == command_text(*self),
        decreases self,
    {
        match self {
            Command::NextPanel => String::from_str("next_panel"),
            Command::PreviousPanel => String::from_str("previous_panel"),
            Command::Quit => String::from_str("quit"),
            Command::NavigateUp => String::from_str("navigate_up"),
            Command::NavigateDown => String::from_str("navigate_down"),
            Command::ExpandNode => String::from_str("expand"),
            Command::CollapseNode => String::from_str("collapse"),
            Command::SelectFile => String::from_str("select_file"),
            Command::StartSearch => String::from_str("start_search"),
            Command::EndSearch => String::from_str("end_search"),
            Command::SearchInput(ch) => {
                let mut s = String::from_str("search:");
                push_char(&mut s, *ch);
                s
            }
            Command::SearchBackspace => String::from_str("search_backspace"),
            Command::HistoryUp => String::from_str("history_up"),
            Command::HistoryDown => String::from_str("history_down"),
            Command::SelectCommit => String::from_str("select_commit"),
            Command::InspectorUp => String::from_str("inspector_up"),
            Command::InspectorDown => String::from_str("inspector_down"),
            Command::InspectorPageUp => String::from_str("inspector_page_up"),
            Command::InspectorPageDown => String::from_str("inspector_page_down"),
            Command::InspectorHome => String::from_str("inspector_home"),
            Command::InspectorEnd => String::from_str("inspector_end"),
            Command::InspectorLeft => String::from_str("inspector_left"),
            Command::InspectorRight => String::from_str("inspector_right"),
            Command::GoToTop => String::from_str("goto_top"),
            Command::GoToBottom => String::from_str("goto_bottom"),
            Command::PreviousChange => String::from_str("previous_change"),
            Command::NextChange => String::from_str("next_change"),
            Command::ToggleDiff => String::from_str("toggle_diff"),
            Command::Sequence(commands) => {
                let mut body = String::new();
                let mut i: usize = 0;
                while i < commands.len()
                    invariant
                        i <= commands@.len(),
                        *self == Command::Sequence(*commands),
                        body@ == joined_texts(commands@.subrange(0, i as int)),
                    decreases commands@.len() - i,
                {
                    assert(decreases_to!(*self => (*self)->Sequence_0));
                    assert(decreases_to!((*self)->Sequence_0 => (*self)->Sequence_0@));
                    assert(decreases_to!((*self)->Sequence_0@ => commands@[i as int]));
                    let t = commands[i].to_string();
                    proof {
                        let pre = commands@.subrange(0, i + 1);
                        assert(pre.drop_last() =~= commands@.subrange(0, i as int));
                        assert(pre.last() == commands@[i as int]);
                    }
                    if i > 0 {
                        body.append(",");
                    }
                    body.append(t.as_str());
                    i = i + 1;
                }
                assert(commands@.subrange(0, commands@.len() as int) =~= commands@);
                let r = concat_str("sequence:[", body.as_str());
                r.concat("]")
            }
        }
    }
}

} // verus!
