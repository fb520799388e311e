use git_lineage::line_mapping::{decode_file_content, LineMappingError};
use git_lineage::line_mapping::{map_lines_between_commits, LineMapping};

#[test]
fn test_identity_mapping() {
    let mapping = LineMapping::identity(5);

    assert_eq!(mapping.old_file_size, 5);
    assert_eq!(mapping.new_file_size, 5);

    for i in 0..5 {
        assert_eq!(mapping.map_line(i), Some(i));
        assert_eq!(mapping.reverse_map_line(i), Some(i));
    }
}

#[test]
fn test_proportional_mapping() {
    let mapping = LineMapping::new(10, 20);

    assert_eq!(mapping.proportional_map(0), 0);
    assert_eq!(mapping.proportional_map(5), 10);
    assert_eq!(mapping.proportional_map(9), 18);
}

#[test]
fn test_nearest_mapped_line() {
    let mut mapping = LineMapping::new(10, 10);

    mapping.mapping[0] = Some(0);
    mapping.mapping[1] = None;
    mapping.mapping[2] = None;
    mapping.mapping[3] = Some(1);
    mapping.mapping[4] = Some(2);

    assert_eq!(mapping.find_nearest_mapped_line(1, 3), Some(0));
    assert_eq!(mapping.find_nearest_mapped_line(2, 3), Some(1));
}

#[test]
fn test_same_commit_mapping() {
    let content = "line 1\nline 2\nline 3\n";
    let mapping = map_lines_between_commits("abc", "abc", content, content);
    assert_eq!(mapping.old_file_size, 3);
    assert_eq!(mapping.new_file_size, 3);
    for i in 0..3 {
        assert_eq!(mapping.map_line(i), Some(i));
    }
}

#[test]
fn test_simple_line_addition() {
    let content1 = "line 1\nline 2\nline 3\n";
    let content2 = "line 1\nNEW LINE\nline 2\nline 3\n";
    let mapping = map_lines_between_commits("c1", "c2", content1, content2);

    assert_eq!(mapping.old_file_size, 3);
    assert_eq!(mapping.new_file_size, 4);
    assert_eq!(mapping.map_line(0), Some(0));
    assert_eq!(mapping.map_line(1), Some(2));
    assert_eq!(mapping.map_line(2), Some(3));
    assert_eq!(mapping.reverse_map_line(0), Some(0));
    assert_eq!(mapping.reverse_map_line(1), None);
    assert_eq!(mapping.reverse_map_line(2), Some(1));
    assert_eq!(mapping.reverse_map_line(3), Some(2));
}

#[test]
fn test_line_deletion() {
    let content1 = "line 1\nDELETE ME\nline 2\nline 3\n";
    let content2 = "line 1\nline 2\nline 3\n";
    let mapping = map_lines_between_commits("c1", "c2", content1, content2);

    assert_eq!(mapping.old_file_size, 4);
    assert_eq!(mapping.new_file_size, 3);
    assert_eq!(mapping.map_line(0), Some(0));
    assert_eq!(mapping.map_line(1), None);
    assert_eq!(mapping.map_line(2), Some(1));
    assert_eq!(mapping.map_line(3), Some(2));
}

#[test]
fn test_empty_file_handling() {
    let mapping = map_lines_between_commits("c1", "c2", "", "line 1\nline 2\n");
    assert_eq!(mapping.old_file_size, 0);
    assert_eq!(mapping.new_file_size, 2);
    assert_eq!(mapping.reverse_map_line(0), None);
    assert_eq!(mapping.reverse_map_line(1), None);
}

fn lines(s: &str) -> Vec<String> {
    s.lines().map(|l| l.to_string()).collect()
}

#[test]
fn test_exact_content_fallback_single_match() {
    let content1 = "line 1\nUNIQUE_LINE\nline 2\nline 3\n";
    let content2 = "line 1\nline 2\nUNIQUE_LINE\nline 3\n";
    let mapping = map_lines_between_commits("c1", "c2", content1, content2);
    let result = mapping.find_exact_content_match(1, &lines(content1), &lines(content2));
    assert_eq!(result, Some(2));
}

#[test]
fn test_exact_content_fallback_no_match() {
    let content1 = "line 1\nDELETED_LINE\nline 2\n";
    let content2 = "line 1\nline 2\n";
    let mapping = map_lines_between_commits("c1", "c2", content1, content2);
    assert_eq!(mapping.find_exact_content_match(1, &lines(content1), &lines(content2)), None);
}

#[test]
fn test_exact_content_fallback_multiple_matches() {
    let content1 = "line 1\nDUPLICATE\nline 2\n";
    let content2 = "line 1\nDUPLICATE\nDUPLICATE\nline 2\n";
    let mapping = map_lines_between_commits("c1", "c2", content1, content2);
    assert_eq!(mapping.find_exact_content_match(1, &lines(content1), &lines(content2)), None);
}

#[test]
fn test_exact_content_fallback_whitespace_sensitivity() {
    let content1 = "line 1\nLINE_WITH_SPACE \nline 2\n";
    let content2 = "line 1\nLINE_WITH_SPACE\nline 2\n";
    let mapping = map_lines_between_commits("c1", "c2", content1, content2);
    assert_eq!(mapping.find_exact_content_match(1, &lines(content1), &lines(content2)), None);
}

#[test]
fn test_content_aware_nearest_neighbor_success() {
    let content1 = "line_A\nline_B\nTARGET_LINE\nline_C\nline_D\n";
    let content2 = "line_A\nline_B\nINSERTED_LINE\nTARGET_LINE\nline_C\nline_D\n";
    let mapping = map_lines_between_commits("c1", "c2", content1, content2);
    let r = mapping.find_content_aware_nearest_mapped_line(2, 2, &lines(content1), &lines(content2));
    assert_eq!(r, Some(3));
}

#[test]
fn test_content_aware_nearest_neighbor_rejects_wrong_content() {
    let content1 = "line_A\nTARGET_LINE\nline_B\nline_C\n";
    let content2 = "line_A\nCOMPLETELY_DIFFERENT\nline_B\nline_C\n";
    let mapping = map_lines_between_commits("c1", "c2", content1, content2);
    let r = mapping.find_content_aware_nearest_mapped_line(1, 2, &lines(content1), &lines(content2));
    assert_eq!(r, None);
}

#[test]
fn proportional_map_rounds_to_nearest_line() {
    let mapping = LineMapping::new(3, 10);
    // 1 * 10 / 3 = 3.33 -> 3, 2 * 10 / 3 = 6.67 -> 7
    assert_eq!(mapping.proportional_map(1), 3);
    assert_eq!(mapping.proportional_map(2), 7);
    let empty = LineMapping::new(0, 10);
    assert_eq!(empty.proportional_map(4), 0);
}

#[test]
fn map_line_past_the_end_is_none() {
    let mapping = LineMapping::identity(2);
    assert_eq!(mapping.map_line(2), None);
    assert_eq!(mapping.reverse_map_line(7), None);
}

#[test]
fn mapping_agrees_both_ways_and_keeps_order() {
    let m = git_lineage::line_mapping::map_lines_between_commits(
        "c1",
        "c2",
        "a\nb\nc\nd\n",
        "x\na\nc\ny\nd\n",
    );
    for (i, target) in m.mapping.iter().enumerate() {
        if let Some(j) = target {
            assert_eq!(m.reverse_mapping[*j], Some(i));
        }
    }
    let mapped: Vec<usize> = m.mapping.iter().flatten().cloned().collect();
    assert!(mapped.windows(2).all(|w| w[0] < w[1]));
    assert_eq!(m.mapping, vec![Some(1), None, Some(2), Some(4)]);
}

#[test]
fn file_content_is_refused_when_binary_or_not_utf8() {
    assert_eq!(decode_file_content("a.txt", b"h\xc3\xa9llo".to_vec()), Ok("h\u{e9}llo".to_string()));
    assert_eq!(
        decode_file_content("b.bin", vec![b'a', 0, b'b']),
        Err(LineMappingError::BinaryFile { path: "b.bin".to_string() })
    );
    assert_eq!(
        decode_file_content("c.txt", vec![0xff, 0xfe]),
        Err(LineMappingError::BinaryFile { path: "c.txt".to_string() })
    );
}

#[test]
fn proportional_positions_keep_their_order() {
    let mapping = LineMapping::new(7, 3);
    let positions: Vec<usize> = (0..12).map(|l| mapping.proportional_map(l)).collect();
    for w in positions.windows(2) {
        assert!(w[0] <= w[1]);
    }
    assert!(positions.iter().all(|p| *p <= 2));
    assert_eq!(positions[0], 0);
    assert_eq!(positions[11], 2);
}
