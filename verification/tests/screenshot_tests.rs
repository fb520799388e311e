use ratatui::{backend::TestBackend, text::Text, widgets::{Block, Borders, Paragraph}, Terminal};
use git_lineage::screenshot::{compare_screenshots, generate_diff};

#[test]
fn test_compare_screenshots() {
    let screenshot1 = "line1\nline2\nline3";
    let screenshot2 = "line1\nline2\nline3";
    let screenshot3 = "line1\nline2\nDIFFERENT";

    assert!(compare_screenshots(screenshot1, screenshot2));
    assert!(!compare_screenshots(screenshot1, screenshot3));

    let with_trailing = "line1  \nline2\t\nline3   ";
    let without_trailing = "line1\nline2\nline3";
    assert!(compare_screenshots(with_trailing, without_trailing));
}

#[test]
fn test_generate_diff() {
    let actual = "line1\nDIFFERENT\nline3";
    let expected = "line1\nline2\nline3";

    let diff = generate_diff(actual, expected);
    assert!(diff.contains("Screenshot comparison failed"));
    assert!(diff.contains("Line 2"));
    assert!(diff.contains("-line2"));
    assert!(diff.contains("+DIFFERENT"));
}

#[test]
fn diff_of_unequal_lengths_lists_missing_lines() {
    let diff = generate_diff("a\nb", "a");
    assert_eq!(diff, "Screenshot comparison failed:\n--- Expected\n+++ Actual\n@@ Line 2 @@\n-\n+b\n");
    assert!(!compare_screenshots("a\nb", "a"));
    assert!(compare_screenshots("", ""));
}

#[test]
fn test_buffer_to_string() {
    let backend = TestBackend::new(10, 3);
    let mut terminal = Terminal::new(backend).unwrap();
    terminal
        .draw(|frame| {
            let paragraph = Paragraph::new(Text::from("Test")).block(Block::default().borders(Borders::ALL));
            frame.render_widget(paragraph, frame.area());
        })
        .unwrap();
    let buffer = terminal.backend().buffer().clone();
    let area = *buffer.area();
    let rows: Vec<Vec<String>> = (0..area.height)
        .map(|y| (0..area.width).map(|x| buffer[(x, y)].symbol().to_string()).collect())
        .collect();
    let result = git_lineage::display::grid_text(&rows);
    assert!(result.contains("Test"));
    assert!(result.len() > 0);
}
