use gitanalyzer::batcher::CommitBatcher;
use gitanalyzer::models::{CommitForAnalysis, CommitStats, FileForAnalysis};

fn file(name: &str, diff_len: usize) -> FileForAnalysis {
    FileForAnalysis {
        filename: name.to_string(),
        language: None,
        diff: "x".repeat(diff_len),
        additions: 1,
        deletions: 0,
    }
}

fn commit(sha: &str, message: &str, files: Vec<FileForAnalysis>) -> CommitForAnalysis {
    CommitForAnalysis {
        sha: sha.to_string(),
        repository: "o/r".to_string(),
        message: message.to_string(),
        stats: CommitStats { additions: 1, deletions: 0, total: 1 },
        files_changed: files,
        committed_at: 0,
    }
}

/// A commit whose estimated cost is exactly `tokens` (at least 101).
fn costing(sha: &str, tokens: usize) -> CommitForAnalysis {
    let chars = (tokens - 100) * 4;
    commit(sha, "", vec![file("a.rs", chars - 4)])
}

#[test]
fn estimate_is_quarter_of_characters_plus_overhead() {
    let b = CommitBatcher::new(10_000);
    let c = commit("1", "abcd", vec![file("x.rs", 8), file("y.md", 0)]);
    assert_eq!(b.estimate_commit_tokens(&c), (4 + 4 + 8 + 4) / 4 + 100);
    assert_eq!(b.estimate_commit_tokens(&costing("2", 3000)), 3000);
}

#[test]
fn budget_is_window_less_reserve() {
    assert_eq!(CommitBatcher::new(200_000).available_tokens(), 196_000);
    assert_eq!(CommitBatcher::new(3_000).available_tokens(), 0);
}

#[test]
fn greedy_packing_with_room_for_two() {
    let b = CommitBatcher::new(10_000);
    let batches = b.create_batches(vec![costing("c1", 3000), costing("c2", 3000), costing("c3", 3000)]);
    let shas: Vec<Vec<String>> = batches.iter().map(|x| x.iter().map(|c| c.sha.clone()).collect()).collect();
    assert_eq!(shas, vec![vec!["c1".to_string(), "c2".to_string()], vec!["c3".to_string()]]);
}

#[test]
fn greedy_packing_under_five_thousand() {
    let b = CommitBatcher::new(9_000);
    let batches = b.create_batches(vec![costing("c1", 3000), costing("c2", 3000), costing("c3", 3000)]);
    let shas: Vec<Vec<String>> = batches.iter().map(|x| x.iter().map(|c| c.sha.clone()).collect()).collect();
    assert_eq!(shas, vec![vec!["c1".to_string()], vec!["c2".to_string()], vec!["c3".to_string()]]);
}

#[test]
fn oversized_commit_gets_its_own_batch() {
    let b = CommitBatcher::new(4_500);
    let batches = b.create_batches(vec![costing("a", 200), costing("big", 900), costing("b", 200)]);
    let shas: Vec<Vec<String>> = batches.iter().map(|x| x.iter().map(|c| c.sha.clone()).collect()).collect();
    assert_eq!(shas, vec![vec!["a".to_string()], vec!["big".to_string()], vec!["b".to_string()]]);
    let big = &batches[1][0];
    assert!(big.files_changed[0].diff.ends_with("\n... [truncated]"));
}

#[test]
fn empty_input_gives_no_batches() {
    let b = CommitBatcher::new(10_000);
    assert!(b.create_batches(Vec::new()).is_empty());
}

#[test]
fn lock_file_gives_way_to_source() {
    let b = CommitBatcher::new(10_000);
    let c = commit("1", "", vec![file("Cargo.lock", 3000), file("main.rs", 500)]);
    let t = b.truncate_commit(c, 200);
    assert_eq!(t.files_changed.len(), 1);
    assert_eq!(t.files_changed[0].filename, "main.rs");
    assert_eq!(t.files_changed[0].diff.len(), 500);
}

#[test]
fn truncated_diff_fits_pool_and_is_marked() {
    let b = CommitBatcher::new(10_000);
    let c = commit("1", "msg", vec![file("src/lib.rs", 5000), file("README.md", 100)]);
    let t = b.truncate_commit(c, 300);
    let pool = 300 * 4 - (3 + 200);
    assert_eq!(t.files_changed.len(), 1);
    let d = &t.files_changed[0].diff;
    assert!(d.ends_with("\n... [truncated]"));
    let kept = d.len() - "\n... [truncated]".len();
    assert_eq!(kept, pool - ("src/lib.rs".len() + 50));
}

#[test]
fn priorities_follow_extensions() {
    let b = CommitBatcher::new(10_000);
    assert_eq!(b.file_priority("src/main.RS"), 100);
    assert_eq!(b.file_priority("App.tsx"), 90);
    assert_eq!(b.file_priority("schema.sql"), 80);
    assert_eq!(b.file_priority("config.yaml"), 50);
    assert_eq!(b.file_priority("Makefile"), 40);
    assert_eq!(b.file_priority("notes.md"), 30);
    assert_eq!(b.file_priority("yarn.lock"), 0);
}

#[test]
fn priority_lowercases_the_extension_fully() {
    let b = CommitBatcher::new(10_000);
    assert_eq!(b.file_priority("\u{212A}t"), 100);
    assert_eq!(b.file_priority("Main.\u{212A}T"), 100);
}
