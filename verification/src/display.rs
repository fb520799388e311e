//! The text that the three panels and the status bar show: row labels,
//! titles, placeholders, the line-number gutter, the kind of each code line
//! for highlighting, and the screen read back as text.

use vstd::prelude::*;
use crate::app::{App, PanelFocus};
use crate::listing::ItemView;
use crate::navigator::VisibleItem;
use crate::search::{file_name_of, path_file_name};
use crate::text::{
    byte_prefix, chars_of, concat_str, decimal, decimal_string, has_prefix,
    push_char, starts_with, string_of, trim, trim_chars,
};
use crate::tree::opt_text;

verus! {

/// `n` spaces.
pub open spec fn blanks(n: nat) -> Seq<char> {
    Seq::new(n, |i: int| ' ')
}

/// A string of `n` spaces.
pub fn spaces(n: usize) -> (r: String)
    ensures
        r@ == blanks(n as nat),
{
    let mut s = String::new();
    let mut i: usize = 0;
    while i < n
        invariant
            i <= n,
            s@ == blanks(i as nat),
        decreases n - i,
    {
        push_char(&mut s, ' ');
        i = i + 1;
        assert(s@ =~= blanks(i as nat));
    }
    s
}

/// The mark shown before a file for its Git status: the status when it is
/// one of `M`, `A`, `D` and `?`, else a space.
pub open spec fn status_mark(g: Option<char>) -> char {
    match g {
        Some(c) => if c == 'M' || c == 'A' || c == 'D' || c == '?' { c } else { ' ' },
        None => ' ',
    }
}

/// The label of a navigator row: indented by two spaces a level, a
/// directory with its expansion arrow, a file with its status mark.
pub open spec fn row_label_of(it: ItemView) -> Seq<char> {
    let ind = blanks((it.depth * 2) as nat);
    if it.is_dir {
        ind + (if it.is_expanded { "\u{25bc}"@ } else { "\u{25b6}"@ }) + " "@ + it.name
    } else if status_mark(it.git_status) == ' ' {
        ind + "  "@ + it.name
    } else {
        ind + seq![status_mark(it.git_status)] + " "@ + it.name
    }
}

/// The label of a navigator row.
pub fn row_label(item: &VisibleItem) -> (r: String)
    requires
        item.depth * 2 <= usize::MAX,
    ensures
        r@ == row_label_of(item@),
{
    let ind = spaces(item.depth * 2);
    proof {
        reveal_strlit("\u{25bc}");
        reveal_strlit("\u{25b6}");
        reveal_strlit(" ");
        reveal_strlit("  ");
    }
    if item.is_dir {
        let arrow = if item.is_expanded { "\u{25bc}" } else { "\u{25b6}" };
        let a = concat_str(ind.as_str(), arrow);
        let b = concat_str(a.as_str(), " ");
        concat_str(b.as_str(), item.name.as_str())
    } else {
        let mark = match item.git_status {
            Some(c) => if c == 'M' || c == 'A' || c == 'D' || c == '?' { c } else { ' ' },
            None => ' ',
        };
        if mark == ' ' {
            let a = concat_str(ind.as_str(), "  ");
            concat_str(a.as_str(), item.name.as_str())
        } else {
            let mut a = ind;
            push_char(&mut a, mark);
            let b = concat_str(a.as_str(), " ");
            concat_str(b.as_str(), item.name.as_str())
        }
    }
}

/// `s` followed by spaces up to `width` characters; `s` itself when it is
/// not shorter.
pub open spec fn padded(s: Seq<char>, width: nat) -> Seq<char> {
    if s.len() < width { s + blanks((width - s.len()) as nat) } else { s }
}

/// `s` filled with spaces up to `width` characters, for a row highlighted
/// across the panel.
pub fn pad_to_width(s: &str, width: usize) -> (r: String)
    ensures
        r@ == padded(s@, width as nat),
{
    let n = s.unicode_len();
    if n < width {
        let fill = spaces(width - n);
        concat_str(s, fill.as_str())
    } else {
        let cs = chars_of(s);
        string_of(&cs)
    }
}

/// The title of the navigator panel, which shows the query while
/// searching or while a query is set.
pub open spec fn navigator_title_of(searching: bool, query: Seq<char>) -> Seq<char> {
    if searching || query.len() > 0 {
        " File Navigator (Search: "@ + query + ") "@
    } else {
        " File Navigator "@
    }
}

/// The title of the navigator panel.
pub fn navigator_title(searching: bool, query: &str) -> (r: String)
    ensures
        r@ == navigator_title_of(searching, query@),
{
    proof {
        reveal_strlit(" File Navigator (Search: ");
        reveal_strlit(") ");
        reveal_strlit(" File Navigator ");
    }
    if searching || query.unicode_len() > 0 {
        let a = concat_str(" File Navigator (Search: ", query);
        concat_str(a.as_str(), ") ")
    } else {
        String::from_str(" File Navigator ")
    }
}

/// The file name of the file being shown, empty when it has none.
pub open spec fn shown_name(f: Seq<char>) -> Seq<char> {
    match file_name_of(f) {
        Some(n) => n,
        None => Seq::empty(),
    }
}

fn name_of_path(f: &str) -> (r: String)
    ensures
        r@ == shown_name(f@),
{
    match path_file_name(f) {
        Some(n) => n,
        None => String::new(),
    }
}

/// The title of the history panel: the shown file's name with the number
/// of commits and whether more are being loaded or remain.
pub open spec fn history_title_of(app: App) -> Seq<char> {
    match app.active_file_context {
        Some(f) => {
            let head = " Commit History ("@ + shown_name(f@) + ") - "@;
            if app.history.is_loading_more && !app.history.history_complete {
                head + "Loading... "@
            } else if !app.history.history_complete {
                head + decimal(app.history.commit_list@.len()) + " commits (loading more...) "@
            } else {
                head + decimal(app.history.commit_list@.len()) + " commits "@
            }
        },
        None => " Commit History "@,
    }
}

/// The line under the commits while the history is not complete.
pub open spec fn history_footer_of(app: App) -> Option<Seq<char>> {
    if app.history.history_complete {
        None
    } else if app.history.is_loading_more {
        Some("Loading more commits..."@)
    } else {
        Some("More commits available (scroll to load)"@)
    }
}

/// The title of the code inspector: the diff view, or the file's name and
/// the commit's short hash when both are known.
pub open spec fn inspector_title_of(app: App) -> Seq<char> {
    if app.inspector.show_diff_view {
        " Code Inspector (Diff View) "@
    } else {
        match (app.active_file_context, app.history.selected_commit_hash) {
            (Some(f), Some(h)) => " Code Inspector - "@ + shown_name(f@) + " @ "@ + byte_prefix(h@, 8).unwrap() + " "@,
            _ => " Code Inspector "@,
        }
    }
}

/// What the inspector says in place of an empty file: why there is
/// nothing to show. `None` when there is content or a diff to show.
pub open spec fn inspector_placeholder_of(app: App) -> Option<Seq<char>> {
    if app.inspector.current_content@.len() > 0 || app.inspector.show_diff_view {
        None
    } else if app.active_file_context is None {
        Some("Select a file to view its content"@)
    } else if app.history.selected_commit_hash is None {
        Some("Select a commit to view file content at that point"@)
    } else if app.ui.is_loading {
        Some("Loading file content..."@)
    } else {
        Some("No content available for selected file/commit"@)
    }
}

/// The status bar's message, marked while something is loading.
pub open spec fn status_text_of(app: App) -> Seq<char> {
    if app.ui.is_loading {
        "Loading... | "@ + app.ui.status_message@
    } else {
        app.ui.status_message@
    }
}

/// The key help of the focused panel.
pub open spec fn help_text_of(p: PanelFocus) -> Seq<char> {
    match p {
        PanelFocus::Navigator => "Tab: Switch panel | 1/2/3: Direct panel focus | []: Older/Younger commit | /: Search | \u{2191}\u{2193}: Navigate | \u{2192}\u{2190}: Expand/Collapse"@,
        PanelFocus::History => "Tab: Switch panel | 1/2/3: Direct panel focus | []: Older/Younger commit | \u{2191}\u{2193}: Navigate | Enter: Select commit"@,
        PanelFocus::Inspector => "Tab: Switch panel | 1/2/3: Direct panel focus | []: Older/Younger commit | \u{2191}\u{2193}: Navigate | p: Previous change | n: Next change | d: Toggle diff"@,
    }
}

impl App {
    /// The title of the history panel.
    pub fn history_title(&self) -> (r: String)
        ensures
            r@ == history_title_of(*self),
    {
        proof {
            reveal_strlit(" Commit History (");
            reveal_strlit(") - ");
            reveal_strlit("Loading... ");
            reveal_strlit(" commits (loading more...) ");
            reveal_strlit(" commits ");
            reveal_strlit(" Commit History ");
        }
        match &self.active_file_context {
            Some(f) => {
                let name = name_of_path(f.as_str());
                let a = concat_str(" Commit History (", name.as_str());
                let head = concat_str(a.as_str(), ") - ");
                if self.history.is_loading_more && !self.history.history_complete {
                    concat_str(head.as_str(), "Loading... ")
                } else {
                    let n = decimal_string(self.history.commit_list.len());
                    let b = concat_str(head.as_str(), n.as_str());
                    if !self.history.history_complete {
                        concat_str(b.as_str(), " commits (loading more...) ")
                    } else {
                        concat_str(b.as_str(), " commits ")
                    }
                }
            },
            None => String::from_str(" Commit History "),
        }
    }

    /// The line under the commits while more history remains.
    pub fn history_footer(&self) -> (r: Option<String>)
        ensures
            opt_text(r) == history_footer_of(*self),
    {
        proof {
            reveal_strlit("Loading more commits...");
            reveal_strlit("More commits available (scroll to load)");
        }
        if self.history.history_complete {
            None
        } else if self.history.is_loading_more {
            Some(String::from_str("Loading more commits..."))
        } else {
            Some(String::from_str("More commits available (scroll to load)"))
        }
    }

    /// The title of the code inspector.
    pub fn inspector_title(&self) -> (r: String)
        requires
            !self.inspector.show_diff_view && self.active_file_context is Some ==> match self.history.selected_commit_hash {
                Some(h) => byte_prefix(h@, 8) is Some,
                None => true,
            },
        ensures
            r@ == inspector_title_of(*self),
    {
        proof {
            reveal_strlit(" Code Inspector (Diff View) ");
            reveal_strlit(" Code Inspector - ");
            reveal_strlit(" @ ");
            reveal_strlit(" ");
            reveal_strlit(" Code Inspector ");
        }
        if self.inspector.show_diff_view {
            return String::from_str(" Code Inspector (Diff View) ");
        }
        match (&self.active_file_context, &self.history.selected_commit_hash) {
            (Some(f), Some(h)) => {
                let name = name_of_path(f.as_str());
                let short = crate::history::short_hash(h.as_str());
                let a = concat_str(" Code Inspector - ", name.as_str());
                let b = concat_str(a.as_str(), " @ ");
                let c = concat_str(b.as_str(), short.as_str());
                concat_str(c.as_str(), " ")
            },
            _ => String::from_str(" Code Inspector "),
        }
    }

    /// Why the inspector is empty, when it is.
    pub fn inspector_placeholder(&self) -> (r: Option<String>)
        ensures
            opt_text(r) == inspector_placeholder_of(*self),
    {
        proof {
            reveal_strlit("Select a file to view its content");
            reveal_strlit("Select a commit to view file content at that point");
            reveal_strlit("Loading file content...");
            reveal_strlit("No content available for selected file/commit");
        }
        if self.inspector.current_content.len() > 0 || self.inspector.show_diff_view {
            None
        } else if self.active_file_context.is_none() {
            Some(String::from_str("Select a file to view its content"))
        } else if self.history.selected_commit_hash.is_none() {
            Some(String::from_str("Select a commit to view file content at that point"))
        } else if self.ui.is_loading {
            Some(String::from_str("Loading file content..."))
        } else {
            Some(String::from_str("No content available for selected file/commit"))
        }
    }

    /// The status bar's message.
    pub fn status_text(&self) -> (r: String)
        ensures
            r@ == status_text_of(*self),
    {
        proof {
            reveal_strlit("Loading... | ");
        }
        if self.ui.is_loading {
            concat_str("Loading... | ", self.ui.status_message.as_str())
        } else {
            let cs = chars_of(self.ui.status_message.as_str());
            string_of(&cs)
        }
    }
}

/// The key help shown for the focused panel.
pub fn help_text(p: PanelFocus) -> (r: String)
    ensures
        r@ == help_text_of(p),
{
    proof {
        reveal_strlit("Tab: Switch panel | 1/2/3: Direct panel focus | []: Older/Younger commit | /: Search | \u{2191}\u{2193}: Navigate | \u{2192}\u{2190}: Expand/Collapse");
        reveal_strlit("Tab: Switch panel | 1/2/3: Direct panel focus | []: Older/Younger commit | \u{2191}\u{2193}: Navigate | Enter: Select commit");
        reveal_strlit("Tab: Switch panel | 1/2/3: Direct panel focus | []: Older/Younger commit | \u{2191}\u{2193}: Navigate | p: Previous change | n: Next change | d: Toggle diff");
    }
    match p {
        PanelFocus::Navigator => String::from_str("Tab: Switch panel | 1/2/3: Direct panel focus | []: Older/Younger commit | /: Search | \u{2191}\u{2193}: Navigate | \u{2192}\u{2190}: Expand/Collapse"),
        PanelFocus::History => String::from_str("Tab: Switch panel | 1/2/3: Direct panel focus | []: Older/Younger commit | \u{2191}\u{2193}: Navigate | Enter: Select commit"),
        PanelFocus::Inspector => String::from_str("Tab: Switch panel | 1/2/3: Direct panel focus | []: Older/Younger commit | \u{2191}\u{2193}: Navigate | p: Previous change | n: Next change | d: Toggle diff"),
    }
}

/// The gutter before line `index` (counted from 0) of the inspector: its
/// number from 1, right-aligned in four columns, and a space.
pub open spec fn gutter_of(index: nat) -> Seq<char> {
    let d = decimal(index + 1);
    (if d.len() < 4 { blanks((4 - d.len()) as nat) + d } else { d }) + " "@
}

/// The gutter before line `index` of the inspector.
pub fn gutter(index: usize) -> (r: String)
    requires
        index < usize::MAX,
    ensures
        r@ == gutter_of(index as nat),
{
    proof {
        reveal_strlit(" ");
    }
    let d = decimal_string(index + 1);
    let n = d.unicode_len();
    let num = if n < 4 {
        let fill = spaces(4 - n);
        concat_str(fill.as_str(), d.as_str())
    } else {
        d
    };
    concat_str(num.as_str(), " ")
}

/// The position of the last `c` in `s`.
pub open spec fn last_index_of(s: Seq<char>, c: char) -> Option<int>
    decreases s.len(),
{
    if s.len() == 0 {
        None
    } else if s.last() == c {
        Some(s.len() - 1)
    } else {
        last_index_of(s.drop_last(), c)
    }
}

/// The extension of a file name as `Path::extension` documents it: none
/// without an embedded `.` or when the only `.` begins the name, else the
/// part after the last `.`.
pub open spec fn extension_in(name: Seq<char>) -> Option<Seq<char>> {
    match last_index_of(name, '.') {
        Some(k) => if k == 0 { None } else { Some(name.skip(k + 1)) },
        None => None,
    }
}

/// Calls `Path::extension` on the path written `p`, turned back into text.
/// By its documentation the extension is taken from the file name
/// (`file_name_of`): absent without a file name, without an embedded `.`,
/// or when the name begins with its only `.`; else the part after the last `.`.
#[verifier::external_body]
fn path_extension(p: &str) -> (r: Option<String>)
    ensures
        opt_text(r) == match file_name_of(p@) {
            Some(n) => extension_in(n),
            None => None,
        },
{
    std::path::Path::new(p).extension().map(|e| e.to_string_lossy().into_owned())
}

/// How a line of code is highlighted.
#[derive(Debug, Clone, Copy, PartialEq, Eq, Structural)]
pub enum LineKind {
    Comment,
    Text,
    Keyword,
    Plain,
}

/// Whether the trimmed line `t` starts with one of the keywords that open a
/// declaration in files with extension `ext`.
pub open spec fn keyword_line(ext: Seq<char>, t: Seq<char>) -> bool {
    if ext == "rs"@ {
        has_prefix(t, "use "@) || has_prefix(t, "pub "@) || has_prefix(t, "fn "@)
            || has_prefix(t, "struct "@) || has_prefix(t, "enum "@) || has_prefix(t, "impl "@)
    } else if ext == "js"@ || ext == "ts"@ {
        has_prefix(t, "function "@) || has_prefix(t, "const "@) || has_prefix(t, "let "@)
            || has_prefix(t, "var "@) || has_prefix(t, "import "@) || has_prefix(t, "export "@)
    } else if ext == "py"@ {
        has_prefix(t, "def "@) || has_prefix(t, "class "@) || has_prefix(t, "import "@)
            || has_prefix(t, "from "@)
    } else {
        false
    }
}

/// The highlighting of a line of the file at path `file`: a comment when it
/// starts with `//`, `#` or `/*`; text when it holds a quote; a keyword line
/// by the file's extension; else plain.
pub open spec fn line_kind_of(line: Seq<char>, file: Option<Seq<char>>) -> LineKind {
    let t = trim(line);
    if has_prefix(t, "//"@) || has_prefix(t, "#"@) || has_prefix(t, "/*"@) {
        LineKind::Comment
    } else if t.contains('"') || t.contains('\'') {
        LineKind::Text
    } else {
        let ext = match file {
            Some(f) => match file_name_of(f) {
                Some(n) => extension_in(n),
                None => None,
            },
            None => None,
        };
        match ext {
            Some(e) => if keyword_line(e, t) { LineKind::Keyword } else { LineKind::Plain },
            None => LineKind::Plain,
        }
    }
}

fn has_quote(t: &[char]) -> (r: bool)
    ensures
        r == (t@.contains('"') || t@.contains('\'')),
{
    let mut i: usize = 0;
    while i < t.len()
        invariant
            i <= t@.len(),
            forall|j: int| 0 <= j < i ==> t@[j] != '"' && t@[j] != '\'',
        decreases t@.len() - i,
    {
        if t[i] == '"' || t[i] == '\'' {
            return true;
        }
        i = i + 1;
    }
    false
}

fn keyword_start(ext: &str, t: &[char]) -> (r: bool)
    ensures
        r == keyword_line(ext@, t@),
{
    proof {
        reveal_strlit("rs");
        reveal_strlit("js");
        reveal_strlit("ts");
        reveal_strlit("py");
    }
    let e = chars_of(ext);
    let rs = chars_of("rs");
    let js = chars_of("js");
    let ts = chars_of("ts");
    let py = chars_of("py");
    if crate::text::chars_eq(&e, &rs) {
        starts_with(t, "use ") || starts_with(t, "pub ") || starts_with(t, "fn ")
            || starts_with(t, "struct ") || starts_with(t, "enum ") || starts_with(t, "impl ")
    } else if crate::text::chars_eq(&e, &js) || crate::text::chars_eq(&e, &ts) {
        starts_with(t, "function ") || starts_with(t, "const ") || starts_with(t, "let ")
            || starts_with(t, "var ") || starts_with(t, "import ") || starts_with(t, "export ")
    } else if crate::text::chars_eq(&e, &py) {
        starts_with(t, "def ") || starts_with(t, "class ") || starts_with(t, "import ")
            || starts_with(t, "from ")
    } else {
        false
    }
}

/// How a line of the file at `file` is highlighted.
pub fn line_kind(line: &str, file: &Option<String>) -> (r: LineKind)
    ensures
        r == line_kind_of(line@, opt_text(*file)),
{
    let cs = chars_of(line);
    let t = trim_chars(&cs);
    if starts_with(&t, "//") || starts_with(&t, "#") || starts_with(&t, "/*") {
        return LineKind::Comment;
    }
    if has_quote(&t) {
        return LineKind::Text;
    }
    match file {
        Some(f) => match path_extension(f.as_str()) {
            Some(e) => if keyword_start(e.as_str(), &t) { LineKind::Keyword } else { LineKind::Plain },
            None => LineKind::Plain,
        },
        None => LineKind::Plain,
    }
}

/// A cell of the screen as it is written out: its symbol, a space when it
/// has none.
pub open spec fn cell_text(sym: Seq<char>) -> Seq<char> {
    if sym.len() == 0 { " "@ } else { sym }
}

/// The cells of a row written out one after another.
pub open spec fn row_text(row: Seq<Seq<char>>) -> Seq<char>
    decreases row.len(),
{
    if row.len() == 0 { Seq::empty() } else { row_text(row.drop_last()) + cell_text(row.last()) }
}

/// The screen written out row by row, each row ended by a line break.
pub open spec fn grid_text_of(rows: Seq<Seq<Seq<char>>>) -> Seq<char>
    decreases rows.len(),
{
    if rows.len() == 0 { Seq::empty() } else { grid_text_of(rows.drop_last()) + row_text(rows.last()) + "\n"@ }
}

/// The values of a grid of cell symbols.
pub open spec fn grid_views(rows: Seq<Vec<String>>) -> Seq<Seq<Seq<char>>> {
    rows.map_values(|r: Vec<String>| r@.map_values(|c: String| c@))
}

/// The screen, given as the symbols of its cells row by row, written out as
/// text: a space for an empty cell, a line break after each row.
pub fn grid_text(rows: &Vec<Vec<String>>) -> (r: String)
    ensures
        r@ == grid_text_of(grid_views(rows@)),
{
    proof {
        reveal_strlit(" ");
        reveal_strlit("\n");
    }
    let ghost g = grid_views(rows@);
    let mut out = String::new();
    let mut y: usize = 0;
    while y < rows.len()
        invariant
            y <= rows@.len(),
            g == grid_views(rows@),
            out@ == grid_text_of(g.subrange(0, y as int)),
        decreases rows@.len() - y,
    {
        let row = &rows[y];
        let ghost rv = g[y as int];
        assert(rv == row@.map_values(|c: String| c@));
        let mut x: usize = 0;
        let ghost before = out@;
        while x < row.len()
            invariant
                x <= row@.len(),
                rv == row@.map_values(|c: String| c@),
                out@ == before + row_text(rv.subrange(0, x as int)),
            decreases row@.len() - x,
        {
            let sym = &row[x];
            if sym.unicode_len() == 0 {
                out = concat_str(out.as_str(), " ");
            } else {
                out = concat_str(out.as_str(), sym.as_str());
            }
            proof {
                assert(rv.subrange(0, x + 1).drop_last() =~= rv.subrange(0, x as int));
                assert(rv[x as int] == row@[x as int]@);
            }
            x = x + 1;
        }
        out = concat_str(out.as_str(), "\n");
        proof {
            assert(rv.subrange(0, rv.len() as int) =~= rv);
            assert(g.subrange(0, y + 1).drop_last() =~= g.subrange(0, y as int));
        }
        y = y + 1;
    }
    assert(g.subrange(0, rows@.len() as int) =~= g);
    out
}

/// The character shown for a cell of the headless screen: the first of its
/// symbol, a space when it has none, and the block cursor where the visible
/// cursor stands.
pub open spec fn screen_char(sym: Seq<char>, at_cursor: bool) -> char {
    if at_cursor { '\u{2588}' } else if sym.len() == 0 { ' ' } else { sym[0] }
}

/// The characters of row `y` of the headless screen.
pub open spec fn screen_row(row: Seq<Seq<char>>, y: int, cursor: Option<(u16, u16)>) -> Seq<char> {
    Seq::new(row.len(), |x: int| screen_char(row[x], cursor == Some((x as u16, y as u16))))
}

/// The headless screen as text: a character a cell, rows separated by line
/// breaks.
pub open spec fn screen_text_of(rows: Seq<Seq<Seq<char>>>, cursor: Option<(u16, u16)>) -> Seq<char>
    decreases rows.len(),
{
    if rows.len() == 0 {
        Seq::empty()
    } else if rows.len() == 1 {
        screen_row(rows[0], 0, cursor)
    } else {
        screen_text_of(rows.drop_last(), cursor) + "\n"@ + screen_row(rows.last(), rows.len() - 1, cursor)
    }
}

/// The headless screen, given as the symbols of its cells row by row (at
/// most 65536 rows of 65536 cells), written out with the cursor shown where
/// it stands when it is visible.
pub fn screen_text(rows: &Vec<Vec<String>>, cursor: Option<(u16, u16)>, cursor_visible: bool) -> (r: String)
    requires
        rows@.len() <= 65536,
        forall|y: int| 0 <= y < rows@.len() ==> #[trigger] rows@[y]@.len() <= 65536,
    ensures
        r@ == screen_text_of(grid_views(rows@), if cursor_visible { cursor } else { None }),
{
    proof {
        reveal_strlit("\n");
    }
    let cur = if cursor_visible { cursor } else { None };
    let ghost g = grid_views(rows@);
    let mut out = String::new();
    let mut y: usize = 0;
    while y < rows.len()
        invariant
            y <= rows@.len() <= 65536,
            forall|k: int| 0 <= k < rows@.len() ==> #[trigger] rows@[k]@.len() <= 65536,
            g == grid_views(rows@),
            out@ == screen_text_of(g.subrange(0, y as int), cur),
        decreases rows@.len() - y,
    {
        let row = &rows[y];
        let ghost rv = g[y as int];
        assert(rv == row@.map_values(|c: String| c@));
        if y > 0 {
            out = concat_str(out.as_str(), "\n");
        }
        let ghost before = out@;
        let mut x: usize = 0;
        while x < row.len()
            invariant
                x <= row@.len() <= 65536,
                y < 65536,
                rv == row@.map_values(|c: String| c@),
                out@ == before + screen_row(rv, y as int, cur).subrange(0, x as int),
            decreases row@.len() - x,
        {
            let sym = &row[x];
            let at = match cur {
                Some((cx, cy)) => cx as usize == x && cy as usize == y,
                None => false,
            };
            let c = if at {
                '\u{2588}'
            } else if sym.unicode_len() == 0 {
                ' '
            } else {
                sym.get_char(0)
            };
            proof {
                assert(rv[x as int] == row@[x as int]@);
                assert(x as u16 as usize == x);
                assert(y as u16 as usize == y);
                assert(c == screen_char(rv[x as int], cur == Some((x as u16, y as u16))));
            }
            push_char(&mut out, c);
            proof {
                assert(screen_row(rv, y as int, cur).subrange(0, x + 1) =~= screen_row(rv, y as int, cur).subrange(0, x as int).push(c));
            }
            x = x + 1;
        }
        proof {
            assert(screen_row(rv, y as int, cur).subrange(0, rv.len() as int) =~= screen_row(rv, y as int, cur));
            let gy = g.subrange(0, y + 1);
            assert(gy.drop_last() =~= g.subrange(0, y as int));
            if y == 0 {
                assert(before =~= Seq::<char>::empty());
                assert(out@ =~= screen_row(gy[0], 0, cur));
            }
        }
        y = y + 1;
    }
    assert(g.subrange(0, rows@.len() as int) =~= g);
    out
}

} // verus!
