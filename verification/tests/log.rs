use gitat::error::GitError;
use gitat::log::{get_log, parse_log, CommitInfo};
use gitat::runner::MockRunner;

#[test]
fn test_parse_empty_log() {
    let result = parse_log("").unwrap();
    assert!(result.is_empty());
}

#[test]
fn test_parse_single_commit() {
    let input = "abc123def456\x1fabc123d\x1f\x1fHEAD -> main\x1fJohn Doe\x1f2026-04-03 10:00:00 +0900\x1ffeat: initial commit\x1e";
    let result = parse_log(input).unwrap();
    assert_eq!(result.len(), 1);
    assert_eq!(result[0].hash, "abc123def456");
    assert_eq!(result[0].short_hash, "abc123d");
    assert_eq!(result[0].author, "John Doe");
    assert_eq!(result[0].message, "feat: initial commit");
    assert_eq!(result[0].refs, vec!["HEAD -> main"]);
    assert!(result[0].parent_hashes.is_empty());
}

#[test]
fn test_parse_commit_with_parents() {
    let input = "abc123\x1fabc\x1fdef456 ghi789\x1f\x1fAlice\x1f2026-04-03\x1fmerge\x1e";
    let result = parse_log(input).unwrap();
    assert_eq!(result[0].parent_hashes, vec!["def456", "ghi789"]);
}

#[test]
fn test_parse_multiple_commits() {
    let input = "aaa\x1fa\x1f\x1fHEAD\x1fBob\x1f2026-04-03\x1ffirst\x1ebbb\x1fb\x1faaa\x1f\x1fBob\x1f2026-04-02\x1fsecond\x1e";
    let result = parse_log(input).unwrap();
    assert_eq!(result.len(), 2);
    assert_eq!(result[0].message, "first");
    assert_eq!(result[1].message, "second");
}

#[test]
fn refs_are_split_at_commas() {
    let input = "h\x1fs\x1f\x1fHEAD -> main, origin/main, tag: v1\x1fA\x1fd\x1fm\x1e";
    let result = parse_log(input).unwrap();
    assert_eq!(result[0].refs, vec!["HEAD -> main", "origin/main", "tag: v1"]);
    assert_eq!(result[0].date, "d");
}

#[test]
fn record_with_too_few_fields_is_an_error() {
    let result = parse_log("abc\x1fdef\x1e");
    match result {
        Err(GitError::ParseError(m)) => assert_eq!(m, "expected 7 fields, got 2: abc\x1fdef"),
        other => panic!("unexpected result: {other:?}"),
    }
}

#[test]
fn get_log_asks_for_the_limit() {
    let runner = MockRunner::new().with_response(
        "log --max-count=5 --format=%H\x1f%h\x1f%P\x1f%D\x1f%an\x1f%ai\x1f%s\x1e",
        "aaa\x1fa\x1f\x1f\x1fBob\x1f2026\x1fonly\x1e",
    );
    let result = get_log(&runner, 5).unwrap();
    assert_eq!(result.len(), 1);
    assert_eq!(result[0].message, "only");
}

#[test]
fn log_records_read_back_their_commits() {
    let commits = vec![
        CommitInfo {
            hash: "a1".to_string(),
            short_hash: "a".to_string(),
            author: "Ann".to_string(),
            date: "2026-01-02".to_string(),
            message: "fix: thing".to_string(),
            refs: vec!["HEAD -> main".to_string(), "tag: v1".to_string()],
            parent_hashes: vec!["b2".to_string(), "c3".to_string()],
        },
        CommitInfo {
            hash: "b2".to_string(),
            short_hash: "b".to_string(),
            author: "Bo".to_string(),
            date: "2026-01-01".to_string(),
            message: String::new(),
            refs: vec![],
            parent_hashes: vec![],
        },
    ];
    let mut text = String::new();
    for c in &commits {
        let fields = [
            c.hash.clone(),
            c.short_hash.clone(),
            c.parent_hashes.join(" "),
            c.refs.join(", "),
            c.author.clone(),
            c.date.clone(),
            c.message.clone(),
        ];
        text.push_str(&fields.join("\x1f"));
        text.push('\x1e');
    }
    assert_eq!(parse_log(&text).unwrap(), commits);
}
