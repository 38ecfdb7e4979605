use gitanalyzer::config::{Config, PipelineConfig};
use gitanalyzer::error::Error;
use gitanalyzer::ingest::{analysis_context, has_file_changes, pair_by_index, prepare_commit_for_analysis, select_repositories};
use gitanalyzer::models::{Commit, CommitAuthor, CommitDetails, CommitStats, FileChange, Repository, RepositoryOwner};
use gitanalyzer::paging::{cap_items, has_next_page, page_url, should_fetch_more};
use gitanalyzer::prompts::{AnalysisContext, AnalysisRequest};
use gitanalyzer::quota::{parse_decimal, Gate, RateLimitState};
use gitanalyzer::models::{CommitForAnalysis, FileForAnalysis};

fn repo(name: &str, fork: bool, description: Option<&str>) -> Repository {
    Repository {
        id: 1,
        name: name.to_string(),
        full_name: format!("me/{}", name),
        description: description.map(|d| d.to_string()),
        language: Some("Rust".to_string()),
        stargazers_count: 0,
        forks_count: 0,
        fork,
        created_at: 0,
        updated_at: 0,
        owner: RepositoryOwner { login: "me".to_string() },
    }
}

fn fetched_commit(files: Option<Vec<FileChange>>) -> Commit {
    Commit {
        sha: "abcdef1234567890".to_string(),
        commit: CommitDetails {
            message: "Fix parser\r\nDetails".to_string(),
            author: CommitAuthor { name: "Me".to_string(), email: "me@example.com".to_string(), date: 1_700_000_000 },
        },
        stats: None,
        files,
    }
}

fn change(name: &str, patch: Option<&str>) -> FileChange {
    FileChange {
        filename: name.to_string(),
        status: "modified".to_string(),
        additions: 3,
        deletions: 1,
        patch: patch.map(|p| p.to_string()),
    }
}

#[test]
fn quota_reset_ahead_makes_the_caller_wait() {
    let mut s = RateLimitState::new(1_000);
    s.remaining = 0;
    s.reset_at = Some(5_000 + 2_000);
    assert_eq!(s.before_call(5_000), Gate::Wait(2_000));
    assert_eq!(s.before_call(7_000), Gate::Proceed);
    assert_eq!(s.requests_this_minute, 1);
    assert_eq!(s.minute_start, 1_000);
}

#[test]
fn window_cap_delays_the_thirty_first_call() {
    let mut s = RateLimitState::new(0);
    for _ in 0..30 {
        assert_eq!(s.before_call(10_000), Gate::Proceed);
    }
    assert_eq!(s.before_call(10_000), Gate::Wait(50_000));
    assert_eq!(s.before_call(60_000), Gate::Proceed);
    assert_eq!(s.requests_this_minute, 1);
}

#[test]
fn quota_headers_are_recorded() {
    let mut s = RateLimitState::new(0);
    s.apply_quota_headers(Some("0"), Some("1000005"), 1_000_000, 500);
    assert_eq!(s.remaining, 0);
    assert_eq!(s.reset_at, Some(5_500));
    let before = s;
    s.apply_quota_headers(Some("lots"), Some("1"), 1_000_000, 500);
    assert_eq!(s, before);
    s.apply_quota_headers(Some("+42"), None, 1_000_000, 500);
    assert_eq!(s.remaining, 42);
    assert_eq!(s.reset_at, Some(5_500));
}

#[test]
fn decimal_parsing() {
    assert_eq!(parse_decimal("4999", u32::MAX as u64), Some(4999));
    assert_eq!(parse_decimal("+7", 10), Some(7));
    assert_eq!(parse_decimal("11", 10), None);
    assert_eq!(parse_decimal("", 10), None);
    assert_eq!(parse_decimal("+", 10), None);
    assert_eq!(parse_decimal("-1", 10), None);
    assert_eq!(parse_decimal("4294967296", u32::MAX as u64), None);
}

#[test]
fn paging_decisions() {
    assert_eq!(page_url("https://h/users/me/repos?type=owner", 100, 2), "https://h/users/me/repos?type=owner&per_page=100&page=2");
    assert_eq!(page_url("https://h/x", 50, 1), "https://h/x?per_page=50&page=1");
    assert!(has_next_page(Some("<https://h?page=2>; rel=\"next\", <https://h?page=9>; rel=\"last\"")));
    assert!(!has_next_page(Some("<https://h?page=1>; rel=\"prev\"")));
    assert!(!has_next_page(None));
    assert!(should_fetch_more(true, 100, 100, 100, None));
    assert!(!should_fetch_more(true, 99, 100, 99, None));
    assert!(!should_fetch_more(false, 100, 100, 100, None));
    assert!(!should_fetch_more(true, 100, 100, 200, Some(150)));
    let mut items = vec![1, 2, 3, 4];
    cap_items(&mut items, 3);
    assert_eq!(items, vec![1, 2, 3]);
}

#[test]
fn forks_are_left_out_unless_asked_for() {
    let repos = vec![repo("a", false, None), repo("b", true, None), repo("c", false, None)];
    let kept: Vec<String> = select_repositories(repos.clone(), false).into_iter().map(|r| r.name).collect();
    assert_eq!(kept, vec!["a".to_string(), "c".to_string()]);
    assert_eq!(select_repositories(repos, true).len(), 3);
}

#[test]
fn commits_are_prepared_for_analysis() {
    assert!(!has_file_changes(&fetched_commit(None)));
    assert!(!has_file_changes(&fetched_commit(Some(Vec::new()))));
    let c = fetched_commit(Some(vec![change("src/lib.rs", Some("+fn a() {}")), change("logo.png", None)]));
    assert!(has_file_changes(&c));
    let p = prepare_commit_for_analysis(&repo("a", false, None), &c);
    assert_eq!(p.repository, "me/a");
    assert_eq!(p.files_changed.len(), 1);
    assert_eq!(p.files_changed[0].language, Some("Rust".to_string()));
    assert_eq!(p.files_changed[0].diff, "+fn a() {}");
    assert_eq!(p.stats, CommitStats { additions: 0, deletions: 0, total: 0 });
    assert_eq!(p.committed_at, 1_700_000_000);
}

#[test]
fn context_comes_from_the_first_matching_repository() {
    let fetched = vec![(repo("a", false, Some("first")), fetched_commit(None)), (repo("a", false, Some("second")), fetched_commit(None))];
    let ctx = analysis_context("me/a", &fetched);
    assert_eq!(ctx.repository_description, Some("first".to_string()));
    assert_eq!(ctx.primary_language, Some("Rust".to_string()));
    let none = analysis_context("me/z", &fetched);
    assert_eq!(none.repository_name, "me/z");
    assert!(none.repository_description.is_none());
}

#[test]
fn prompt_lists_commits_and_caps_diffs() {
    let commit = CommitForAnalysis {
        sha: "abcdef1234567890".to_string(),
        repository: "me/a".to_string(),
        message: "Fix parser\r\nDetails".to_string(),
        stats: CommitStats { additions: 3, deletions: 1, total: 4 },
        files_changed: vec![FileForAnalysis {
            filename: "src/lib.rs".to_string(),
            language: Some("Rust".to_string()),
            diff: "y".repeat(3005),
            additions: 3,
            deletions: 1,
        }],
        committed_at: 0,
    };
    let ctx = AnalysisContext { repository_name: "me/a".to_string(), repository_description: Some("A tool".to_string()), primary_language: None };
    let req = AnalysisRequest::new(vec![commit], ctx);
    let p = req.to_prompt();
    let expected = format!(
        "Analyze the following 1 commit(s) from repository 'me/a' (A tool):\n\n## Commit: abcdef12\nMessage: Fix parser\nStats: +3 -1\n\n### File: src/lib.rs (Rust)\n```\n{}...\n[truncated]\n```\n\n\nProvide your analysis as JSON:\n",
        "y".repeat(3000)
    );
    assert_eq!(p, expected);
    assert_eq!(req.estimate_tokens(), (19 + 10 + 3005) / 4);
}

#[test]
fn configuration_from_settings() {
    match Config::from_settings(None, Some("k"), None, None, None, None) {
        Err(Error::Config(m)) => assert_eq!(m, "GITHUB_TOKEN environment variable not set"),
        other => panic!("unexpected {:?}", other),
    }
    match Config::from_settings(Some("t"), None, None, None, None, None) {
        Err(Error::Config(m)) => assert_eq!(m, "ANTHROPIC_API_KEY environment variable not set"),
        other => panic!("unexpected {:?}", other),
    }
    let c = Config::from_settings(Some("t"), Some("k"), None, Some("oops"), Some("TRUE"), Some("8")).unwrap();
    assert_eq!(c.database_path, "gitanalyzer.db");
    assert_eq!(c.max_commits_per_repo, 100);
    assert!(c.include_forks);
    assert_eq!(c.concurrency_limit, 8);
    let p = PipelineConfig::from(&c);
    assert_eq!(p, PipelineConfig { max_commits_per_repo: 100, include_forks: true, concurrency_limit: 8 });
}

#[test]
fn retryable_errors() {
    assert!(Error::RateLimited(3).is_retryable());
    assert!(Error::Network("reset".to_string()).is_retryable());
    assert!(!Error::ParseError("x".to_string()).is_retryable());
}

#[test]
fn pairs_follow_index_order() {
    let pairs = pair_by_index(vec![1, 2, 3], vec!["a", "b"]);
    assert_eq!(pairs, vec![(1, "a"), (2, "b")]);
    assert!(pair_by_index(Vec::<u8>::new(), vec![1]).is_empty());
}
