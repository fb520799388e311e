use git_lineage::app::{App, PanelFocus};
use git_lineage::display::{
    grid_text, gutter, help_text, line_kind, navigator_title, pad_to_width, row_label, screen_text,
    spaces, LineKind,
};
use git_lineage::navigator::VisibleItem;

fn item(name: &str, depth: usize, is_dir: bool, expanded: bool, status: Option<char>) -> VisibleItem {
    VisibleItem {
        path: name.to_string(),
        name: name.to_string(),
        depth,
        is_selected: false,
        is_expanded: expanded,
        is_dir,
        git_status: status,
    }
}

#[test]
fn row_labels_indent_and_mark() {
    assert_eq!(row_label(&item("src", 0, true, false, None)), "\u{25b6} src");
    assert_eq!(row_label(&item("src", 1, true, true, None)), "  \u{25bc} src");
    assert_eq!(row_label(&item("a.rs", 0, false, false, None)), "  a.rs");
    assert_eq!(row_label(&item("a.rs", 2, false, false, Some('M'))), "    M a.rs");
    assert_eq!(row_label(&item("a.rs", 0, false, false, Some('X'))), "  a.rs");
    assert_eq!(row_label(&item("a.rs", 0, false, false, Some('?'))), "? a.rs");
}

#[test]
fn padding_fills_to_the_width() {
    assert_eq!(pad_to_width("ab", 5), "ab   ");
    assert_eq!(pad_to_width("abcdef", 3), "abcdef");
    assert_eq!(spaces(3), "   ");
}

#[test]
fn titles() {
    assert_eq!(navigator_title(false, ""), " File Navigator ");
    assert_eq!(navigator_title(true, ""), " File Navigator (Search: ) ");
    assert_eq!(navigator_title(false, "ma"), " File Navigator (Search: ma) ");

    let mut app = App::new();
    assert_eq!(app.history_title(), " Commit History ");
    assert_eq!(app.inspector_title(), " Code Inspector ");
    assert_eq!(app.inspector_placeholder().unwrap(), "Select a file to view its content");
    app.active_file_context = Some("src/main.rs".to_string());
    assert_eq!(app.history_title(), " Commit History (main.rs) - 0 commits (loading more...) ");
    app.history.is_loading_more = true;
    assert_eq!(app.history_title(), " Commit History (main.rs) - Loading... ");
    assert_eq!(app.history_footer().unwrap(), "Loading more commits...");
    app.history.is_loading_more = false;
    app.history.history_complete = true;
    assert_eq!(app.history_title(), " Commit History (main.rs) - 0 commits ");
    assert_eq!(app.history_footer(), None);
    assert_eq!(app.inspector_placeholder().unwrap(), "Select a commit to view file content at that point");
    app.history.selected_commit_hash = Some("a1b2c3d4e5f6".to_string());
    assert_eq!(app.inspector_title(), " Code Inspector - main.rs @ a1b2c3d4 ");
    app.ui.is_loading = true;
    assert_eq!(app.inspector_placeholder().unwrap(), "Loading file content...");
    assert_eq!(app.status_text(), "Loading... | Ready");
    app.ui.is_loading = false;
    assert_eq!(app.inspector_placeholder().unwrap(), "No content available for selected file/commit");
    assert_eq!(app.status_text(), "Ready");
    app.inspector.current_content = vec!["x".to_string()];
    assert_eq!(app.inspector_placeholder(), None);
    app.inspector.show_diff_view = true;
    assert_eq!(app.inspector_title(), " Code Inspector (Diff View) ");
}

#[test]
fn help_texts_name_the_panel_keys() {
    assert!(help_text(PanelFocus::Navigator).contains("/: Search"));
    assert!(help_text(PanelFocus::History).contains("Enter: Select commit"));
    assert!(help_text(PanelFocus::Inspector).contains("d: Toggle diff"));
}

#[test]
fn gutter_is_right_aligned() {
    assert_eq!(gutter(0), "   1 ");
    assert_eq!(gutter(41), "  42 ");
    assert_eq!(gutter(12344), "12345 ");
}

#[test]
fn line_kinds() {
    let rs = Some("src/main.rs".to_string());
    let py = Some("tool.py".to_string());
    assert_eq!(line_kind("  // note", &rs), LineKind::Comment);
    assert_eq!(line_kind("# title", &None), LineKind::Comment);
    assert_eq!(line_kind("let s = \"x\";", &rs), LineKind::Text);
    assert_eq!(line_kind("pub fn main() {", &rs), LineKind::Keyword);
    assert_eq!(line_kind("pub fn main() {", &py), LineKind::Plain);
    assert_eq!(line_kind("def f():", &py), LineKind::Keyword);
    assert_eq!(line_kind("const x = 1;", &Some("a.ts".to_string())), LineKind::Keyword);
    assert_eq!(line_kind("fn x()", &Some(".rs".to_string())), LineKind::Plain);
    assert_eq!(line_kind("x + 1", &rs), LineKind::Plain);
}

#[test]
fn the_screen_as_text() {
    let rows = vec![
        vec!["a".to_string(), "".to_string(), "b".to_string()],
        vec!["c".to_string(), "d".to_string(), "".to_string()],
    ];
    assert_eq!(grid_text(&rows), "a b\ncd \n");
    assert_eq!(screen_text(&rows, Some((1, 1)), false), "a b\ncd ");
    assert_eq!(screen_text(&rows, Some((1, 1)), true), "a b\nc\u{2588} ");
}
