use git_lineage::app::CommitInfo;
use git_lineage::history::{
    blob_lines, commit_timestamp, file_changed, normalized_path, parse_i64, short_hash, ChunkStep,
    HistoryChunk,
};

fn commit(h: &str) -> CommitInfo {
    CommitInfo {
        hash: h.to_string(),
        short_hash: h.to_string(),
        author: "A".to_string(),
        date: "2023-01-01".to_string(),
        subject: "s".to_string(),
    }
}

fn run_chunk(all: &[&str], size: usize, start: usize) -> (Vec<String>, bool) {
    let mut chunk = HistoryChunk::new(size, start);
    for h in all {
        match chunk.step() {
            ChunkStep::Skip => chunk.skip(),
            ChunkStep::Take => chunk.take(commit(h)),
            ChunkStep::Stop => {
                return (chunk.into_commits().into_iter().map(|c| c.hash).collect(), false)
            }
        }
    }
    (chunk.into_commits().into_iter().map(|c| c.hash).collect(), true)
}

#[test]
fn leading_dot_slash_is_dropped() {
    assert_eq!(normalized_path("./src/main.rs"), "src/main.rs");
    assert_eq!(normalized_path("src/main.rs"), "src/main.rs");
    assert_eq!(normalized_path("."), ".");
    assert_eq!(normalized_path("../x"), "../x");
}

#[test]
fn a_root_commit_changed_the_file_when_it_has_it() {
    assert!(file_changed(&Some("aa".to_string()), &vec![]));
    assert!(!file_changed(&None, &vec![]));
}

#[test]
fn a_commit_changed_the_file_when_a_parent_differs() {
    let id = |s: &str| Some(s.to_string());
    assert!(!file_changed(&id("aa"), &vec![id("aa")]));
    assert!(file_changed(&id("aa"), &vec![id("bb")]));
    assert!(file_changed(&id("aa"), &vec![None]));
    assert!(file_changed(&None, &vec![id("aa")]));
    assert!(!file_changed(&None, &vec![None, None]));
    assert!(file_changed(&id("aa"), &vec![id("aa"), id("bb")]));
}

#[test]
fn author_time_gives_its_first_word_as_seconds() {
    assert_eq!(commit_timestamp("1751295482 -0400"), 1751295482);
    assert_eq!(commit_timestamp("  -12 +0000"), -12);
    assert_eq!(commit_timestamp(""), 0);
    assert_eq!(commit_timestamp("soon -0400"), 0);
    assert_eq!(commit_timestamp("+7"), 7);
}

#[test]
fn i64_parsing_follows_str_parse() {
    let p = |s: &str| parse_i64(&s.chars().collect::<Vec<char>>());
    for s in ["0", "-0", "+5", "-5", "9223372036854775807", "-9223372036854775808", "9223372036854775808", "-9223372036854775809", "-", "+", "-+5", "", "1a", " 1"] {
        assert_eq!(p(s), s.parse::<i64>().ok(), "{}", s);
    }
}

#[test]
fn short_hash_is_the_first_eight_characters() {
    assert_eq!(short_hash("a1b2c3d4e5f6789012345678901234567890abcd"), "a1b2c3d4");
    assert_eq!(short_hash("12345678"), "12345678");
}

#[test]
fn a_chunk_is_a_window_of_the_history() {
    let all = ["c1", "c2", "c3", "c4", "c5"];
    assert_eq!(run_chunk(&all, 2, 0), (vec!["c1".to_string(), "c2".to_string()], false));
    assert_eq!(run_chunk(&all, 2, 2), (vec!["c3".to_string(), "c4".to_string()], false));
    assert_eq!(run_chunk(&all, 2, 4), (vec!["c5".to_string()], true));
    assert_eq!(run_chunk(&all, 2, 3), (vec!["c4".to_string(), "c5".to_string()], true));
    assert_eq!(run_chunk(&all, 2, 9), (vec![], true));
    assert_eq!(run_chunk(&all, 0, 1), (vec![], false));
}

#[test]
fn chunks_one_after_another_give_the_whole_history() {
    let all = ["c1", "c2", "c3", "c4", "c5", "c6", "c7"];
    let mut got = Vec::new();
    let mut offset = 0;
    loop {
        let (chunk, complete) = run_chunk(&all, 3, offset);
        offset += chunk.len();
        got.extend(chunk);
        if complete {
            break;
        }
    }
    assert_eq!(got, all.iter().map(|s| s.to_string()).collect::<Vec<_>>());
}

#[test]
fn blob_lines_split_and_replace_invalid_bytes() {
    assert_eq!(blob_lines(b"a\r\nb\nc"), vec!["a", "b", "c"]);
    assert_eq!(blob_lines(b"x\xffy\n"), vec!["x\u{fffd}y"]);
    assert!(blob_lines(b"").is_empty());
}
