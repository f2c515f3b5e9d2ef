use logbox::db::{
    create_session, insert_logs_batch, list_logs, list_sessions, open_memory_db, search_logs,
    session_stats, LogStore, LogsFilters, SearchFilters, SessionFilters, StoreError,
};

fn setup() -> LogStore {
    let mut conn = open_memory_db();
    // Create two sessions
    conn.add_session(
        "sess-1",
        Some("org/repo"),
        Some("main"),
        Some("abc1234"),
        "2026-03-28T10:00:00+00:00",
        Some("/tmp"),
    )
    .unwrap();
    conn.add_session(
        "sess-2",
        Some("org/repo"),
        Some("feat/login"),
        Some("def5678"),
        "2026-03-28T12:00:00+00:00",
        Some("/tmp"),
    )
    .unwrap();

    // Insert logs for sess-1
    let logs: Vec<(String, String)> = vec![
        ("2026-03-28T10:00:01+00:00".into(), "server started on port 3000".into()),
        ("2026-03-28T10:00:02+00:00".into(), "GET /api/health 200".into()),
        ("2026-03-28T10:00:03+00:00".into(), "ERROR: connection refused to database".into()),
        ("2026-03-28T10:00:04+00:00".into(), "GET /api/users 200 12ms".into()),
        ("2026-03-28T10:00:05+00:00".into(), "POST /api/users 201 45ms".into()),
    ];
    insert_logs_batch(&mut conn, "sess-1", &logs).unwrap();

    // Insert logs for sess-2
    let logs2: Vec<(String, String)> = vec![
        ("2026-03-28T12:00:01+00:00".into(), "server started on port 3000".into()),
        ("2026-03-28T12:00:02+00:00".into(), "GET /api/health 200".into()),
        ("2026-03-28T12:00:03+00:00".into(), "connected to database successfully".into()),
    ];
    insert_logs_batch(&mut conn, "sess-2", &logs2).unwrap();

    conn
}

fn search_all(limit: u32) -> SearchFilters {
    SearchFilters { branch: None, session_id: None, since: None, until: None, limit }
}

#[test]
fn db_test_search_finds_keyword() {
    let conn = setup();
    let results = search_logs(&conn, "ERROR", &SearchFilters {
        branch: None, session_id: None, since: None, until: None, limit: 100,
    });
    assert_eq!(results.len(), 1);
    assert!(results[0].line.contains("ERROR"));
}

#[test]
fn db_test_search_case_insensitive() {
    let conn = setup();
    let results = search_logs(&conn, "error", &SearchFilters {
        branch: None, session_id: None, since: None, until: None, limit: 100,
    });
    assert_eq!(results.len(), 1);
    assert!(results[0].line.contains("ERROR"));
}

#[test]
fn test_search_multiple_matches() {
    let conn = setup();
    let results = search_logs(&conn, "200", &SearchFilters {
        branch: None, session_id: None, since: None, until: None, limit: 100,
    });
    assert_eq!(results.len(), 3); // GET health + GET users in sess-1, GET health in sess-2
}

#[test]
fn db_test_search_respects_limit() {
    let conn = setup();
    let results = search_logs(&conn, "200", &SearchFilters {
        branch: None, session_id: None, since: None, until: None, limit: 2,
    });
    assert_eq!(results.len(), 2);
}

#[test]
fn test_search_filter_by_session() {
    let conn = setup();
    let results = search_logs(&conn, "200", &SearchFilters {
        branch: None, session_id: Some("sess-1".into()), since: None, until: None, limit: 100,
    });
    assert_eq!(results.len(), 2);
    assert!(results.iter().all(|r| r.session_id == "sess-1"));
}

#[test]
fn test_search_filter_by_branch() {
    let conn = setup();
    let results = search_logs(&conn, "server started", &SearchFilters {
        branch: Some("main".into()), session_id: None, since: None, until: None, limit: 100,
    });
    assert_eq!(results.len(), 1);
    assert_eq!(results[0].session_id, "sess-1");
}

#[test]
fn db_test_search_no_results() {
    let conn = setup();
    let results = search_logs(&conn, "nonexistent string xyz", &SearchFilters {
        branch: None, session_id: None, since: None, until: None, limit: 100,
    });
    assert_eq!(results.len(), 0);
}

#[test]
fn test_search_filter_by_since() {
    let conn = setup();
    let results = search_logs(&conn, "server started", &SearchFilters {
        branch: None, session_id: None,
        since: Some("2026-03-28T11:00:00+00:00".into()),
        until: None, limit: 100,
    });
    assert_eq!(results.len(), 1);
    assert_eq!(results[0].session_id, "sess-2");
}

#[test]
fn test_search_filter_by_until() {
    let conn = setup();
    let results = search_logs(&conn, "server started", &SearchFilters {
        branch: None, session_id: None, since: None,
        until: Some("2026-03-28T11:00:00+00:00".into()),
        limit: 100,
    });
    assert_eq!(results.len(), 1);
    assert_eq!(results[0].session_id, "sess-1");
}

#[test]
fn test_list_logs_returns_newest_first() {
    let conn = setup();
    let results = list_logs(&conn, &LogsFilters {
        session_id: Some("sess-1".into()), branch: None,
        since: None, until: None, limit: 50, offset: 0,
    });
    assert_eq!(results.len(), 5);
    assert!(results[0].line.contains("POST")); // newest
    assert!(results[4].line.contains("server started")); // oldest
}

#[test]
fn test_list_logs_pagination() {
    let conn = setup();
    let page1 = list_logs(&conn, &LogsFilters {
        session_id: Some("sess-1".into()), branch: None,
        since: None, until: None, limit: 2, offset: 0,
    });
    let page2 = list_logs(&conn, &LogsFilters {
        session_id: Some("sess-1".into()), branch: None,
        since: None, until: None, limit: 2, offset: 2,
    });
    assert_eq!(page1.len(), 2);
    assert_eq!(page2.len(), 2);
    assert_ne!(page1[0].id, page2[0].id);
}

#[test]
fn test_list_logs_time_range() {
    let conn = setup();
    let results = list_logs(&conn, &LogsFilters {
        session_id: None, branch: None,
        since: Some("2026-03-28T10:00:02+00:00".into()),
        until: Some("2026-03-28T10:00:04+00:00".into()),
        limit: 50, offset: 0,
    });
    assert_eq!(results.len(), 3); // 10:00:02, 10:00:03, 10:00:04
}

#[test]
fn test_list_sessions() {
    let conn = setup();
    let sessions = list_sessions(&conn, &SessionFilters {
        branch: None, commit: None, since: None, limit: 20,
    });
    assert_eq!(sessions.len(), 2);
    // Newest first
    assert_eq!(sessions[0].id, "sess-2");
    assert_eq!(sessions[1].id, "sess-1");
}

#[test]
fn test_list_sessions_filter_by_branch() {
    let conn = setup();
    let sessions = list_sessions(&conn, &SessionFilters {
        branch: Some("feat/login".into()), commit: None, since: None, limit: 20,
    });
    assert_eq!(sessions.len(), 1);
    assert_eq!(sessions[0].branch.as_deref(), Some("feat/login"));
}

#[test]
fn test_list_sessions_filter_by_commit_prefix() {
    let conn = setup();
    let sessions = list_sessions(&conn, &SessionFilters {
        branch: None, commit: Some("abc".into()), since: None, limit: 20,
    });
    assert_eq!(sessions.len(), 1);
    assert_eq!(sessions[0].id, "sess-1");
}

#[test]
fn test_list_sessions_includes_log_count() {
    let conn = setup();
    let sessions = list_sessions(&conn, &SessionFilters {
        branch: None, commit: None, since: None, limit: 20,
    });
    assert_eq!(sessions[0].log_count, 3); // sess-2
    assert_eq!(sessions[1].log_count, 5); // sess-1
}

#[test]
fn test_list_sessions_includes_last_log_at() {
    let conn = setup();
    let sessions = list_sessions(&conn, &SessionFilters {
        branch: None, commit: None, since: None, limit: 20,
    });
    assert_eq!(sessions[1].last_log_at.as_deref(), Some("2026-03-28T10:00:05+00:00"));
}

#[test]
fn test_session_stats_latest() {
    let conn = setup();
    let stats = session_stats(&conn, None).unwrap();
    assert_eq!(stats.session_id, "sess-2"); // latest
    assert_eq!(stats.total_lines, 3);
    assert_eq!(stats.branch.as_deref(), Some("feat/login"));
    assert_eq!(stats.commit_sha.as_deref(), Some("def5678"));
}

#[test]
fn test_session_stats_specific() {
    let conn = setup();
    let stats = session_stats(&conn, Some("sess-1")).unwrap();
    assert_eq!(stats.total_lines, 5);
    assert_eq!(stats.first_log.as_deref(), Some("2026-03-28T10:00:01+00:00"));
    assert_eq!(stats.last_log.as_deref(), Some("2026-03-28T10:00:05+00:00"));
}

#[test]
fn test_session_stats_nonexistent() {
    let conn = setup();
    assert!(session_stats(&conn, Some("nonexistent")).is_none());
}

// --- further cases ---

#[test]
fn search_keyword_characters_stand_for_themselves() {
    let mut conn = setup();
    let extra: Vec<(String, String)> = vec![
        ("2026-03-28T12:00:04+00:00".into(), "upload 50% done".into()),
        ("2026-03-28T12:00:05+00:00".into(), "read user_id".into()),
    ];
    insert_logs_batch(&mut conn, "sess-2", &extra).unwrap();
    // `_` and `%` are ordinary characters of the keyword
    assert!(search_logs(&conn, "GET /api/_sers", &search_all(100)).is_empty());
    assert!(search_logs(&conn, "server%3000", &search_all(100)).is_empty());
    let pct = search_logs(&conn, "50%", &search_all(100));
    assert_eq!(pct.len(), 1);
    assert_eq!(pct[0].line, "upload 50% done");
    let us = search_logs(&conn, "USER_ID", &search_all(100));
    assert_eq!(us.len(), 1);
    assert_eq!(us[0].line, "read user_id");
    assert!(search_logs(&conn, "%", &search_all(100)).len() == 1);
}

#[test]
fn search_results_are_newest_first() {
    let conn = setup();
    let results = search_logs(&conn, "200", &search_all(100));
    let stamps: Vec<&str> = results.iter().map(|r| r.timestamp.as_str()).collect();
    assert_eq!(
        stamps,
        vec!["2026-03-28T12:00:02+00:00", "2026-03-28T10:00:04+00:00", "2026-03-28T10:00:02+00:00"]
    );
    assert_eq!(results[0].branch.as_deref(), Some("feat/login"));
}

#[test]
fn search_case_insensitive_law_on_values() {
    let conn = setup();
    let upper = search_logs(&conn, "SERVER STARTED", &search_all(100));
    let lower = search_logs(&conn, "server started", &search_all(100));
    let ids_u: Vec<i64> = upper.iter().map(|r| r.id).collect();
    let ids_l: Vec<i64> = lower.iter().map(|r| r.id).collect();
    assert_eq!(ids_u, ids_l);
    assert_eq!(ids_u.len(), 2);
}

#[test]
fn pages_concatenate() {
    let conn = setup();
    let f = |limit, offset| LogsFilters {
        session_id: None, branch: None, since: None, until: None, limit, offset,
    };
    let a = list_logs(&conn, &f(3, 1));
    let b = list_logs(&conn, &f(2, 4));
    let whole = list_logs(&conn, &f(5, 1));
    let ab: Vec<i64> = a.iter().chain(b.iter()).map(|e| e.id).collect();
    let w: Vec<i64> = whole.iter().map(|e| e.id).collect();
    assert_eq!(ab, w);
    assert_eq!(w.len(), 5);
}

#[test]
fn offset_past_end_is_empty() {
    let conn = setup();
    let r = list_logs(&conn, &LogsFilters {
        session_id: None, branch: None, since: None, until: None, limit: 10, offset: 8,
    });
    assert!(r.is_empty());
}

#[test]
fn list_logs_branch_filter() {
    let conn = setup();
    let r = list_logs(&conn, &LogsFilters {
        session_id: None, branch: Some("feat/login".into()), since: None, until: None,
        limit: 50, offset: 0,
    });
    assert_eq!(r.len(), 3);
    assert!(r.iter().all(|e| e.session_id == "sess-2"));
}

#[test]
fn logs_without_session_are_not_listed() {
    let mut conn = setup();
    let orphan: Vec<(String, String)> = vec![("2026-03-28T13:00:00+00:00".into(), "ghost line".into())];
    insert_logs_batch(&mut conn, "no-such-session", &orphan).unwrap();
    assert_eq!(conn.log_count(), 9);
    let all = list_logs(&conn, &LogsFilters {
        session_id: None, branch: None, since: None, until: None, limit: 50, offset: 0,
    });
    assert_eq!(all.len(), 8);
    assert!(search_logs(&conn, "ghost", &search_all(10)).is_empty());
}

#[test]
fn batch_ids_are_consecutive_and_counts_grow() {
    let mut conn = setup();
    assert_eq!(conn.last_log_id(), 8);
    let more: Vec<(String, String)> = vec![
        ("2026-03-28T10:00:06+00:00".into(), "one".into()),
        ("2026-03-28T10:00:07+00:00".into(), "two".into()),
    ];
    insert_logs_batch(&mut conn, "sess-1", &more).unwrap();
    assert_eq!(conn.last_log_id(), 10);
    let stats = session_stats(&conn, Some("sess-1")).unwrap();
    assert_eq!(stats.total_lines, 7);
    assert_eq!(stats.last_log.as_deref(), Some("2026-03-28T10:00:07+00:00"));
    let newest = list_logs(&conn, &LogsFilters {
        session_id: Some("sess-1".into()), branch: None, since: None, until: None,
        limit: 2, offset: 0,
    });
    assert_eq!(newest[0].id, 10);
    assert_eq!(newest[0].line, "two");
    assert_eq!(newest[1].id, 9);
}

#[test]
fn equal_timestamps_newest_id_first() {
    let mut conn = open_memory_db();
    conn.add_session("s", None, None, None, "2026-01-01T00:00:00+00:00", None).unwrap();
    let same: Vec<(String, String)> = vec![
        ("2026-01-01T00:00:01+00:00".into(), "a".into()),
        ("2026-01-01T00:00:01+00:00".into(), "b".into()),
    ];
    insert_logs_batch(&mut conn, "s", &same).unwrap();
    let r = list_logs(&conn, &LogsFilters {
        session_id: None, branch: None, since: None, until: None, limit: 10, offset: 0,
    });
    assert_eq!(r[0].line, "b");
    assert_eq!(r[1].line, "a");
}

#[test]
fn out_of_order_timestamps_are_sorted() {
    let mut conn = open_memory_db();
    conn.add_session("s", None, None, None, "2026-01-01T00:00:00+00:00", None).unwrap();
    let lines: Vec<(String, String)> = vec![
        ("2026-01-01T00:00:03+00:00".into(), "third".into()),
        ("2026-01-01T00:00:01+00:00".into(), "first".into()),
        ("2026-01-01T00:00:02+00:00".into(), "second".into()),
    ];
    insert_logs_batch(&mut conn, "s", &lines).unwrap();
    let r = list_logs(&conn, &LogsFilters {
        session_id: None, branch: None, since: None, until: None, limit: 10, offset: 0,
    });
    let texts: Vec<&str> = r.iter().map(|e| e.line.as_str()).collect();
    assert_eq!(texts, vec!["third", "second", "first"]);
    let stats = session_stats(&conn, Some("s")).unwrap();
    assert_eq!(stats.first_log.as_deref(), Some("2026-01-01T00:00:01+00:00"));
    assert_eq!(stats.last_log.as_deref(), Some("2026-01-01T00:00:03+00:00"));
}

#[test]
fn duplicate_session_is_refused() {
    let mut conn = setup();
    let r = conn.add_session("sess-1", None, None, None, "2026-03-29T00:00:00+00:00", None);
    assert_eq!(r, Err(StoreError::DuplicateSession));
    assert_eq!(conn.session_count(), 2);
    assert_eq!(create_session(&mut conn, "sess-2", None, None, None, None), Err(StoreError::DuplicateSession));
}

#[test]
fn created_session_reads_back() {
    let mut conn = open_memory_db();
    conn.add_session("old", None, None, None, "2000-01-01T00:00:00+00:00", None).unwrap();
    create_session(&mut conn, "sess-3", Some("org/other"), Some("dev"), Some("0123456"), Some("/w")).unwrap();
    let stats = session_stats(&conn, Some("sess-3")).unwrap();
    assert_eq!(stats.total_lines, 0);
    assert_eq!(stats.repo.as_deref(), Some("org/other"));
    assert_eq!(stats.branch.as_deref(), Some("dev"));
    assert!(stats.first_log.is_none());
    assert!(stats.last_log.is_none());
    // started now, in RFC 3339
    assert!(stats.started_at.starts_with("20"));
    assert!(stats.started_at.contains('T'));
    // started after the fixed sessions, so it is the latest
    assert_eq!(session_stats(&conn, None).unwrap().session_id, "sess-3");
    let listed = list_sessions(&conn, &SessionFilters { branch: None, commit: None, since: None, limit: 1 });
    assert_eq!(listed.len(), 1);
    assert_eq!(listed[0].id, "sess-3");
    assert_eq!(listed[0].log_count, 0);
    assert!(listed[0].last_log_at.is_none());
}

#[test]
fn listing_agrees_with_stats() {
    let conn = setup();
    let listed = list_sessions(&conn, &SessionFilters { branch: None, commit: None, since: None, limit: 20 });
    for s in &listed {
        let st = session_stats(&conn, Some(&s.id)).unwrap();
        assert_eq!(st.total_lines, s.log_count);
        assert_eq!(st.last_log, s.last_log_at);
        assert_eq!(st.branch, s.branch);
    }
}

#[test]
fn session_since_filter() {
    let conn = setup();
    let s = list_sessions(&conn, &SessionFilters {
        branch: None, commit: None, since: Some("2026-03-28T11:00:00+00:00".into()), limit: 20,
    });
    assert_eq!(s.len(), 1);
    assert_eq!(s[0].id, "sess-2");
}

#[test]
fn commit_prefix_is_case_insensitive() {
    let conn = setup();
    let s = list_sessions(&conn, &SessionFilters {
        branch: None, commit: Some("DEF".into()), since: None, limit: 20,
    });
    assert_eq!(s.len(), 1);
    assert_eq!(s[0].id, "sess-2");
}

#[test]
fn empty_store_has_no_stats() {
    let conn = open_memory_db();
    assert!(session_stats(&conn, None).is_none());
    assert!(list_sessions(&conn, &SessionFilters { branch: None, commit: None, since: None, limit: 5 }).is_empty());
}

#[test]
fn ids_run_out() {
    let mut conn = open_memory_db();
    conn.restore_log(logbox::db::LogRow {
        id: i64::MAX,
        session_id: "s".into(),
        timestamp: "t".into(),
        line: "l".into(),
    })
    .unwrap();
    let one: Vec<(String, String)> = vec![("t2".into(), "x".into())];
    assert_eq!(insert_logs_batch(&mut conn, "s", &one), Err(StoreError::Full));
    assert_eq!(conn.log_count(), 1);
    // an empty batch still succeeds
    assert_eq!(insert_logs_batch(&mut conn, "s", &[]), Ok(()));
}

#[test]
fn restore_refuses_stale_numbers() {
    let mut conn = open_memory_db();
    let row = |id: i64| logbox::db::LogRow {
        id,
        session_id: "s".into(),
        timestamp: "t".into(),
        line: "l".into(),
    };
    conn.restore_log(row(5)).unwrap();
    assert_eq!(conn.restore_log(row(5)), Err(StoreError::StaleRowNumber));
    assert_eq!(conn.restore_log(row(3)), Err(StoreError::StaleRowNumber));
    conn.restore_log(row(9)).unwrap();
    assert_eq!(conn.last_log_id(), 9);
    let srow = |rowid: i64, id: &str| logbox::db::SessionRow {
        rowid,
        id: id.into(),
        repo: None,
        branch: None,
        commit_sha: None,
        started_at: "2026".into(),
        cwd: None,
    };
    conn.restore_session(srow(2, "a")).unwrap();
    assert_eq!(conn.restore_session(srow(3, "a")), Err(StoreError::DuplicateSession));
    assert_eq!(conn.restore_session(srow(2, "b")), Err(StoreError::StaleRowNumber));
    assert_eq!(conn.find_session("a").unwrap().rowid, 2);
    assert!(conn.find_session("b").is_none());
}

#[test]
fn commit_prefix_characters_stand_for_themselves() {
    let conn = setup();
    let none = list_sessions(&conn, &SessionFilters {
        branch: None, commit: Some("%".into()), since: None, limit: 20,
    });
    assert!(none.is_empty());
    let none = list_sessions(&conn, &SessionFilters {
        branch: None, commit: Some("ab_".into()), since: None, limit: 20,
    });
    assert!(none.is_empty());
    let all = list_sessions(&conn, &SessionFilters {
        branch: None, commit: Some(String::new()), since: None, limit: 20,
    });
    assert_eq!(all.len(), 2);
}

#[test]
fn time_bounds_compare_instants() {
    let conn = setup();
    // 12:00 at +02:00 is 10:00 UTC: every line of both sessions is at or after it
    let after = list_logs(&conn, &LogsFilters {
        session_id: None, branch: None, since: Some("2026-03-28T12:00:00+02:00".into()),
        until: None, limit: 50, offset: 0,
    });
    assert_eq!(after.len(), 8);
    let upto = list_logs(&conn, &LogsFilters {
        session_id: None, branch: None, since: None,
        until: Some("2026-03-28T05:00:03-05:00".into()), limit: 50, offset: 0,
    });
    assert_eq!(upto.len(), 3);
    let found = search_logs(&conn, "server started", &SearchFilters {
        branch: None, session_id: None, since: Some("2026-03-28T13:00:00+02:00".into()),
        until: None, limit: 100,
    });
    assert_eq!(found.len(), 1);
    assert_eq!(found[0].session_id, "sess-2");
    let sessions = list_sessions(&conn, &SessionFilters {
        branch: None, commit: None, since: Some("2026-03-28T12:30:00+02:00".into()), limit: 20,
    });
    assert_eq!(sessions.len(), 1);
    assert_eq!(sessions[0].id, "sess-2");
    // fractional seconds count
    let frac = list_logs(&conn, &LogsFilters {
        session_id: None, branch: None, since: Some("2026-03-28T10:00:04.5Z".into()),
        until: None, limit: 50, offset: 0,
    });
    assert_eq!(frac.len(), 4);
}

#[test]
fn relative_bounds_count_from_the_clock() {
    let conn = setup();
    let f = |since: Option<&str>, until: Option<&str>| LogsFilters {
        session_id: None, branch: None, since: since.map(String::from),
        until: until.map(String::from), limit: 50, offset: 0,
    };
    // a century ago, and a century ahead, of whatever the clock reads
    assert_eq!(list_logs(&conn, &f(Some("36500d"), None)).len(), 8);
    assert!(list_logs(&conn, &f(Some("-36500d"), None)).is_empty());
    assert_eq!(list_logs(&conn, &f(None, Some("-36500d"))).len(), 8);
    assert!(list_logs(&conn, &f(None, Some("36500d"))).is_empty());
}

#[test]
fn created_session_starts_now_in_utc() {
    let mut conn = open_memory_db();
    create_session(&mut conn, "s", None, None, None, None).unwrap();
    let st = session_stats(&conn, Some("s")).unwrap();
    assert!(st.started_at.ends_with("+00:00"));
    assert!(st.started_at.len() >= 25);
    let listed = list_sessions(&conn, &SessionFilters {
        branch: None, commit: None, since: Some("1h".into()), limit: 5,
    });
    assert_eq!(listed.len(), 1);
}
