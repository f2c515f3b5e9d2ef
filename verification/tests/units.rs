use logbox::collector::{flush, SharedBuffer, BATCH_SIZE};
use logbox::db::{open_memory_db, LogEntry, Session, Stats};
use logbox::display::{log_line, prefix_bytes, session_line, stats_lines};
use logbox::git::{
    branch_from_git, dir_name_or_root, name_from_remote, needs_repo_root, repo_name_from_git,
    value_from_git,
};
use logbox::fold::{contains_chars_ci, starts_with_chars_ci};
use logbox::number::{i64_to_string, parse_i64};
use logbox::paths::db_path;
use logbox::service::{ListLogsRequest, ListSessionsRequest, SearchLogsRequest};
use logbox::since::{
    parse_since, parse_since_at, read_since, since_instant_at, since_is_accepted, since_needs_clock,
    SinceForm, TimeUnit,
};
use logbox::text::{str_lt, to_chars, trim_chars};

fn chars(s: &str) -> Vec<char> {
    s.chars().collect()
}

fn has(t: &str, p: &str) -> bool {
    contains_chars_ci(&chars(t), &chars(p))
}

fn starts(t: &str, p: &str) -> bool {
    starts_with_chars_ci(&chars(t), &chars(p))
}

#[test]
fn test_parse_since_relative() {
    // Just test that relative times produce a timestamp (can't assert exact value)
    assert!(parse_since("1h").is_some());
    assert!(parse_since("30m").is_some());
    assert!(parse_since("2d").is_some());
    assert!(parse_since("60s").is_some());
}

#[test]
fn test_parse_since_iso8601() {
    let ts = "2026-03-28T10:00:00+00:00";
    assert_eq!(parse_since(ts), Some(ts.to_string()));
}

#[test]
fn test_parse_since_invalid() {
    assert!(parse_since("abc").is_none());
    assert!(parse_since("").is_none());
    assert!(parse_since("1x").is_none());
}

#[test]
fn parse_since_trims_and_counts_back() {
    assert_eq!(parse_since("  2026-03-28T10:00:00Z \n"), Some("2026-03-28T10:00:00Z".to_string()));
    let back = parse_since("1h").unwrap();
    // a relative span is written as an RFC 3339 timestamp, not echoed
    assert_ne!(back, "1h");
    assert!(back.contains('T'));
    assert!(back.ends_with("+00:00"));
    assert!(parse_since(" -5m ").is_some());
    assert!(parse_since("+2d").is_some());
    assert!(parse_since("h").is_none());
    assert!(parse_since("1.5h").is_none());
}

#[test]
fn since_at_a_given_clock() {
    // 2026-03-28T10:00:00Z
    let now = Some((1_774_692_000i64, 0u32));
    assert_eq!(parse_since_at("1h", now), Some("2026-03-28T09:00:00+00:00".to_string()));
    assert_eq!(parse_since_at("90m", Some((1_774_692_000, 500_000_000))), Some("2026-03-28T08:30:00.500+00:00".to_string()));
    assert_eq!(parse_since_at("-1d", now), Some("2026-03-29T10:00:00+00:00".to_string()));
    assert_eq!(parse_since_at(" 2026-03-28T12:00:00+02:00 ", now), Some("2026-03-28T12:00:00+02:00".to_string()));
    assert_eq!(parse_since_at("1x", now), None);
    assert_eq!(since_instant_at("2026-03-28T12:00:00+02:00", now), Some((1_774_692_000, 0)));
    assert_eq!(since_instant_at("2026-03-28T10:00:00.25Z", now), Some((1_774_692_000, 250_000_000)));
    assert_eq!(since_instant_at("30s", now), Some((1_774_691_970, 0)));
    assert_eq!(since_instant_at("abc", now), None);
    // no clock reading: a span names nothing, a timestamp still names itself
    assert_eq!(parse_since_at("1h", None), None);
    assert_eq!(since_instant_at("1h", None), None);
    assert_eq!(since_instant_at("2026-03-28T10:00:00Z", None), Some((1_774_692_000, 0)));
    // an instant outside the representable years has no text
    assert_eq!(parse_since_at("-106751991167d", now), None);
    assert_eq!(since_instant_at("-100000d", now), Some((1_774_692_000 + 8_640_000_000, 0)));
    assert!(since_needs_clock(" 2h"));
    assert!(!since_needs_clock("2026-03-28T10:00:00Z"));
    assert!(!since_needs_clock("abc"));
}

#[test]
fn since_acceptance() {
    assert!(since_is_accepted("1h"));
    assert!(since_is_accepted(""));
    assert!(since_is_accepted("garbage"));
    // the text is cut before its last byte, which must therefore be a whole character
    assert!(!since_is_accepted("1é"));
    // spans beyond what a duration holds
    assert!(since_is_accepted("9223372036854775s"));
    assert!(!since_is_accepted("9223372036854776s"));
    assert!(since_is_accepted("-106751991167d"));
    assert!(!since_is_accepted("106751991168d"));
}

#[test]
fn since_forms() {
    assert_eq!(
        read_since(" 2026-03-28T10:00:00Z\n", true),
        SinceForm::Timestamp("2026-03-28T10:00:00Z".to_string())
    );
    assert_eq!(read_since("1h", false), SinceForm::Span(1, TimeUnit::Hours));
    assert_eq!(read_since(" 30m ", false), SinceForm::Span(30, TimeUnit::Minutes));
    assert_eq!(read_since("-5s", false), SinceForm::Span(-5, TimeUnit::Seconds));
    assert_eq!(read_since("+2d", false), SinceForm::Span(2, TimeUnit::Days));
    assert_eq!(read_since("1x", false), SinceForm::Unrecognized);
    assert_eq!(read_since("", false), SinceForm::Unrecognized);
    assert_eq!(read_since("1.5h", false), SinceForm::Unrecognized);
}

#[test]
fn keyword_matching() {
    assert!(has("An ERROR here", "err"));
    assert!(!has("An EROR here", "err"));
    assert!(has("anything", ""));
    assert!(has("", ""));
    assert!(!has("", "x"));
    // no character is a wildcard
    assert!(!has("abc", "a_c"));
    assert!(has("a_c", "A_C"));
    assert!(!has("500 errors", "50%"));
    assert!(has("upload 50% done", "50%"));
    // non-ASCII letters match only themselves
    assert!(!has("É", "é"));
    assert!(!has("café", "É"));
    assert!(has("café", "CAF"));
    assert!(starts("ABCdef", "abc"));
    assert!(!starts("xabc", "abc"));
    assert!(!starts("ab", "abc"));
    assert!(starts("e30d239", ""));
    assert!(!starts("e30d239", "%"));
}

#[test]
fn decimal_numbers() {
    assert_eq!(parse_i64(&chars("123")), Some(123));
    assert_eq!(parse_i64(&chars("-42")), Some(-42));
    assert_eq!(parse_i64(&chars("+7")), Some(7));
    assert_eq!(parse_i64(&chars("9223372036854775807")), Some(i64::MAX));
    assert_eq!(parse_i64(&chars("-9223372036854775808")), Some(i64::MIN));
    assert_eq!(parse_i64(&chars("9223372036854775808")), None);
    assert_eq!(parse_i64(&chars("99999999999999999999999")), None);
    assert_eq!(parse_i64(&chars("-")), None);
    assert_eq!(parse_i64(&chars("")), None);
    assert_eq!(parse_i64(&chars("1 ")), None);
    assert_eq!(parse_i64(&chars("--1")), None);
    assert_eq!(i64_to_string(0), "0");
    assert_eq!(i64_to_string(-1205), "-1205");
    assert_eq!(i64_to_string(i64::MIN), i64::MIN.to_string());
    assert_eq!(i64_to_string(i64::MAX), i64::MAX.to_string());
}

#[test]
fn trimming_and_order() {
    let t: String = trim_chars(&chars("\u{3000}\t hi there \u{a0}\n")).into_iter().collect();
    assert_eq!(t, "hi there");
    assert_eq!(to_chars("héllo"), chars("héllo"));
    assert!(str_lt("2026-03-28T10", "2026-03-28T11"));
    assert!(str_lt("abc", "abcd"));
    assert!(!str_lt("abc", "abc"));
    assert!(str_lt("z", "é"));
}

#[test]
fn database_path() {
    assert_eq!(db_path("/home/me"), "/home/me/.logbox/logs.db");
    assert_eq!(db_path("/home/me/"), "/home/me/.logbox/logs.db");
    assert_eq!(db_path(""), ".logbox/logs.db");
}

#[test]
fn git_values() {
    assert_eq!(branch_from_git(true, "main\n"), Some("main".to_string()));
    assert_eq!(branch_from_git(true, "HEAD\n"), None);
    assert_eq!(branch_from_git(true, "  \n"), None);
    assert_eq!(branch_from_git(false, "main\n"), None);
    assert_eq!(value_from_git(true, "e30d2391ab\n"), Some("e30d2391ab".to_string()));
    assert_eq!(value_from_git(true, ""), None);
}

#[test]
fn remote_names() {
    assert_eq!(name_from_remote(true, "git@github.com:org/repo.git\n"), Some("org/repo".to_string()));
    assert_eq!(name_from_remote(true, "https://github.com/org/repo.git\n"), Some("org/repo".to_string()));
    assert_eq!(name_from_remote(true, "https://github.com/org/repo.git.git"), Some("org/repo".to_string()));
    assert_eq!(name_from_remote(true, "https://host/x"), Some("host/x".to_string()));
    assert_eq!(name_from_remote(true, "/local/path/repo"), None);
    assert_eq!(name_from_remote(false, "git@github.com:org/repo.git"), None);
}

#[test]
fn repo_root_only_when_remote_gives_no_name() {
    assert!(!needs_repo_root(&None));
    assert!(!needs_repo_root(&Some((true, "git@github.com:org/repo.git\n".to_string()))));
    assert!(needs_repo_root(&Some((false, String::new()))));
    assert!(needs_repo_root(&Some((true, "/some/dir".to_string()))));
}

#[test]
fn root_directory_names() {
    assert_eq!(dir_name_or_root(Some("proj".to_string()), "/home/u/proj".to_string()), "proj");
    assert_eq!(dir_name_or_root(None, "/".to_string()), "/");
}

#[test]
fn repo_name_falls_back_to_root() {
    assert_eq!(
        repo_name_from_git(Some((false, String::new())), Some("/home/u/proj".to_string())),
        Some("proj".to_string())
    );
    assert_eq!(
        repo_name_from_git(Some((true, "/some/dir".to_string())), Some("/home/u/proj/".to_string())),
        Some("proj".to_string())
    );
    assert_eq!(repo_name_from_git(Some((false, String::new())), Some("/".to_string())), Some("/".to_string()));
    assert_eq!(repo_name_from_git(Some((false, String::new())), None), None);
    assert_eq!(repo_name_from_git(None, Some("/home/u/proj".to_string())), None);
    assert_eq!(
        repo_name_from_git(Some((true, "git@h:o/r".to_string())), Some("/x".to_string())),
        Some("o/r".to_string())
    );
}

#[test]
fn output_lines() {
    let e = LogEntry {
        id: 1,
        session_id: "0123456789abcdef".into(),
        timestamp: "2026-03-28T10:00:01+00:00".into(),
        line: "GET / 200".into(),
        branch: Some("main".into()),
    };
    assert_eq!(log_line(&e).unwrap(), "01234567 2026-03-28T10:00:01+00:00 [main]  GET / 200");
    let short = LogEntry { session_id: "abc".into(), branch: None, ..e };
    assert!(log_line(&short).is_none());
    assert_eq!(prefix_bytes("ééééé", 8), Some("éééé".to_string()));
    assert_eq!(prefix_bytes("aéééé", 8), None);

    let s = Session {
        id: "sess-0001-xyz".into(),
        repo: None,
        branch: Some("main".into()),
        commit_sha: Some("abc1234def".into()),
        started_at: "2026-03-28T10:00:00+00:00".into(),
        last_log_at: None,
        cwd: None,
        log_count: 12,
    };
    assert_eq!(
        session_line(&s).unwrap(),
        "sess-000 | (no repo) @ main (abc1234) | started 2026-03-28T10:00:00+00:00 | last log (no logs) | 12 lines"
    );
    let no_sha = Session { commit_sha: None, ..s };
    assert!(session_line(&no_sha).unwrap().contains("(-------)"));

    let st = Stats {
        session_id: "sess-1".into(),
        repo: Some("org/repo".into()),
        branch: None,
        commit_sha: None,
        started_at: "2026".into(),
        total_lines: 5,
        first_log: Some("a".into()),
        last_log: None,
    };
    assert_eq!(
        stats_lines(&st),
        vec![
            "Session:    sess-1",
            "Repo:       org/repo",
            "Branch:     (no branch)",
            "Commit:     (unknown)",
            "Started:    2026",
            "Lines:      5",
            "First log:  a",
        ]
    );
}

#[test]
fn buffer_batches() {
    let mut b = SharedBuffer::new();
    assert!(b.is_idle());
    let mut woke = 0;
    for i in 0..BATCH_SIZE {
        if b.push_line(format!("t{}", i), format!("line {}", i)) {
            woke += 1;
        }
    }
    assert_eq!(woke, 1);
    assert!(!b.is_idle());
    let (batch, done) = b.take_batch();
    assert_eq!(batch.len(), BATCH_SIZE);
    assert_eq!(batch[0].1, "line 0");
    assert_eq!(batch[99].1, "line 99");
    assert!(!done);
    assert!(b.is_idle());
    b.push_line("t".into(), "last".into());
    b.finish();
    assert!(!b.is_idle());
    let (batch, done) = b.take_batch();
    assert_eq!(batch.len(), 1);
    assert!(done);
    assert!(!b.is_idle());
}

#[test]
fn flush_writes_and_clears() {
    let mut conn = open_memory_db();
    conn.add_session("s", None, None, None, "2026", None).unwrap();
    let mut buf: Vec<(String, String)> = vec![("t1".into(), "a".into()), ("t2".into(), "b".into())];
    flush(&mut conn, "s", &mut buf).unwrap();
    assert!(buf.is_empty());
    assert_eq!(conn.log_count(), 2);
    flush(&mut conn, "s", &mut buf).unwrap();
    assert_eq!(conn.log_count(), 2);
}

#[test]
fn request_defaults() {
    let f = ListLogsRequest { session_id: None, branch: None, since: None, until: None, limit: None, offset: None }
        .into_filters();
    assert_eq!((f.limit, f.offset), (50, 0));
    let (p, f) = SearchLogsRequest {
        pattern: "ERROR".into(), branch: None, session_id: None, since: None, until: None, limit: None,
    }
    .into_filters();
    assert_eq!((p.as_str(), f.limit), ("ERROR", 100));
    let f = ListSessionsRequest { branch: None, commit: Some("abc".into()), since: None, limit: Some(3) }
        .into_filters();
    assert_eq!((f.limit, f.commit.as_deref()), (3, Some("abc")));
    let f = ListSessionsRequest { branch: None, commit: None, since: None, limit: None }.into_filters();
    assert_eq!(f.limit, 20);
}
