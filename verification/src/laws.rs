//! Properties of the library as a whole, stated over the model and proved.
use vstd::prelude::*;
use crate::fold::{ascii_lower, char_matches, starts_with_ci, contains_ci};
use crate::model::{
    LogQuery, LogV, SessionV, LogEntryV, StoreV, matching_entry, matching_newest_first, page,
    log_query_result, entry_matches, joined, session_of, store_wf, log_before, insert_sorted,
    logs_of, insert_lines, insert_batch_spec, stats_of, SessionQuery, SessionSummaryV, StatsV,
    session_before, has_session, add_session_spec, first_log_at, last_log_at, summarize,
    session_matches, matching_sessions_newest_first, session_query_result, latest_session_id,
    session_stats_result,
};
use crate::text::{seq_lt, seq_le, trim_seq, is_white_space};
use crate::instant::{rfc3339_instant, instant_le, min_timestamp, max_timestamp, utc_rfc3339};
use crate::since::{since_instant, since_text};
use crate::number::{parse_i64_spec, int_decimal};
use crate::db::{
    SearchFilters, LogsFilters, SessionFilters, search_query, logs_query, sessions_query, bound_at,
};
use crate::display::{stats_lines_spec, or_text};
use crate::git::{remote_name, last_index, git_suffix, strip_git_suffix, has_scheme, url_name};

verus! {

/// `s` with every ASCII letter in lower case.
pub open spec fn lower_seq(s: Seq<char>) -> Seq<char> {
    s.map_values(|c: char| ascii_lower(c))
}

proof fn lemma_char_matches_lower(p: char, t: char)
    ensures
        char_matches(p, t) == char_matches(ascii_lower(p), ascii_lower(t)),
        char_matches(p, t) == char_matches(ascii_lower(p), t),
        ascii_lower(ascii_lower(p)) == ascii_lower(p),
{
}

/// Lower-casing the keyword, the text, or both never changes whether the text starts with the
/// keyword.
proof fn lemma_starts_with_lower(u: Seq<char>, p: Seq<char>)
    ensures
        starts_with_ci(u, p) == starts_with_ci(lower_seq(u), lower_seq(p)),
        starts_with_ci(u, p) == starts_with_ci(u, lower_seq(p)),
{
    if starts_with_ci(u, p) {
        assert forall|k: int| 0 <= k < p.len() implies #[trigger] char_matches(
            lower_seq(p)[k],
            lower_seq(u)[k],
        ) by {
            lemma_char_matches_lower(p[k], u[k]);
        }
        assert forall|k: int| 0 <= k < p.len() implies #[trigger] char_matches(
            lower_seq(p)[k],
            u[k],
        ) by {
            lemma_char_matches_lower(p[k], u[k]);
        }
    }
    if starts_with_ci(lower_seq(u), lower_seq(p)) {
        assert forall|k: int| 0 <= k < p.len() implies #[trigger] char_matches(p[k], u[k]) by {
            lemma_char_matches_lower(p[k], u[k]);
            assert(char_matches(lower_seq(p)[k], lower_seq(u)[k]));
        }
    }
    if starts_with_ci(u, lower_seq(p)) {
        assert forall|k: int| 0 <= k < p.len() implies #[trigger] char_matches(p[k], u[k]) by {
            lemma_char_matches_lower(p[k], u[k]);
            assert(char_matches(lower_seq(p)[k], u[k]));
        }
    }
}

/// Keyword matching ignores the case of ASCII letters: lower-casing the keyword, or both the
/// keyword and the text, never changes whether the text contains the keyword.
pub proof fn law_keyword_match_ignores_ascii_case(t: Seq<char>, p: Seq<char>)
    ensures
        contains_ci(t, p) == contains_ci(lower_seq(t), lower_seq(p)),
        contains_ci(t, p) == contains_ci(t, lower_seq(p)),
{
    assert forall|i: int| 0 <= i <= t.len() implies (#[trigger] starts_with_ci(t.skip(i), p)
        == starts_with_ci(lower_seq(t).skip(i), lower_seq(p)) && starts_with_ci(t.skip(i), p)
        == starts_with_ci(t.skip(i), lower_seq(p))) by {
        assert(lower_seq(t).skip(i) =~= lower_seq(t.skip(i)));
        lemma_starts_with_lower(t.skip(i), p);
    }
    if contains_ci(lower_seq(t), lower_seq(p)) {
        let i = choose|i: int|
            0 <= i <= lower_seq(t).len() && #[trigger] starts_with_ci(
                lower_seq(t).skip(i),
                lower_seq(p),
            );
        assert(starts_with_ci(t.skip(i), p));
    }
    if contains_ci(t, lower_seq(p)) {
        let i = choose|i: int| 0 <= i <= t.len() && #[trigger] starts_with_ci(t.skip(i), lower_seq(p));
        assert(starts_with_ci(t.skip(i), p));
    }
}

/// Two queries that accept the same entries select the same entries.
proof fn lemma_same_matching(sessions: Seq<SessionV>, logs: Seq<LogV>, q1: LogQuery, q2: LogQuery)
    requires
        forall|e: LogEntryV| #[trigger] entry_matches(e, q1) == entry_matches(e, q2),
    ensures
        matching_newest_first(sessions, logs, q1) == matching_newest_first(sessions, logs, q2),
    decreases logs.len(),
{
    if logs.len() > 0 {
        lemma_same_matching(sessions, logs.drop_first(), q1, q2);
        match joined(sessions, logs[0]) {
            Some(e) => {
                assert(entry_matches(e, q1) == entry_matches(e, q2));
            },
            None => {},
        }
    }
}

/// Searching is case-insensitive: a search for `pattern` returns exactly what a search for
/// its lower-case form returns, whatever the other conditions, limit and offset.
pub proof fn law_search_ignores_pattern_case(
    st: StoreV,
    pattern: Seq<char>,
    q: LogQuery,
    limit: int,
    offset: int,
)
    requires
        q.pattern == Some(pattern),
    ensures
        log_query_result(st, q, limit, offset) == log_query_result(
            st,
            LogQuery { pattern: Some(lower_seq(pattern)), ..q },
            limit,
            offset,
        ),
{
    let q2 = LogQuery { pattern: Some(lower_seq(pattern)), ..q };
    assert forall|e: LogEntryV| #[trigger] entry_matches(e, q) == entry_matches(e, q2) by {
        law_keyword_match_ignores_ascii_case(e.line, pattern);
    }
    lemma_same_matching(st.sessions, st.logs, q, q2);
}

/// Time bounds compare instants, not text: two bounds that name the same instant (such as
/// `2026-03-28T12:00:00+02:00` and `2026-03-28T10:00:00Z`) select the same lines, whatever
/// the other conditions, limit and offset.
pub proof fn law_bounds_naming_one_instant_agree(
    st: StoreV,
    q: LogQuery,
    since1: Seq<char>,
    since2: Seq<char>,
    now: Option<(int, int)>,
    limit: int,
    offset: int,
)
    requires
        rfc3339_instant(trim_seq(since1)) is Some,
        rfc3339_instant(trim_seq(since1)) == rfc3339_instant(trim_seq(since2)),
    ensures
        log_query_result(st, LogQuery { since: since_instant(since1, now), ..q }, limit, offset)
            == log_query_result(st, LogQuery { since: since_instant(since2, now), ..q }, limit, offset),
{
    assert(since_instant(since1, now) == since_instant(since2, now));
}

/// `LIMIT`/`OFFSET` pages fit together: the page of `l1` rows at `offset` followed by the
/// page of `l2` rows at `offset + l1` is the page of `l1 + l2` rows at `offset`.
pub proof fn law_pages_concatenate(st: StoreV, q: LogQuery, offset: int, l1: int, l2: int)
    requires
        0 <= offset,
        0 <= l1,
        0 <= l2,
    ensures
        log_query_result(st, q, l1, offset) + log_query_result(st, q, l2, offset + l1)
            == log_query_result(st, q, l1 + l2, offset),
{
    let s = matching_newest_first(st.sessions, st.logs, q);
    assert(page(s, offset, l1) + page(s, offset + l1, l2) =~= page(s, offset, l1 + l2));
}

/// A query never returns more rows than its limit.
pub proof fn law_limit_respected(st: StoreV, q: LogQuery, limit: int, offset: int)
    requires
        0 <= offset,
        0 <= limit,
    ensures
        log_query_result(st, q, limit, offset).len() <= limit,
{
}

/// Entry `a` is older than entry `b`: earlier timestamp, or the smaller id at equal ones.
pub open spec fn entry_before(a: LogEntryV, b: LogEntryV) -> bool {
    seq_lt(a.timestamp, b.timestamp) || (a.timestamp == b.timestamp && a.id < b.id)
}

/// `e` is the line of one of `logs`, joined with its session.
pub open spec fn from_stored_log(sessions: Seq<SessionV>, logs: Seq<LogV>, e: LogEntryV) -> bool {
    exists|k: int| 0 <= k < logs.len() && joined(sessions, #[trigger] logs[k]) == Some(e)
}

/// Rows in strictly ascending `log_before` order.
pub open spec fn logs_ascending(logs: Seq<LogV>) -> bool {
    forall|i: int, j: int| 0 <= i < j < logs.len() ==> log_before(#[trigger] logs[i], #[trigger] logs[j])
}

proof fn lemma_matching_shape(sessions: Seq<SessionV>, logs: Seq<LogV>, q: LogQuery)
    requires
        logs_ascending(logs),
    ensures
        forall|i: int| 0 <= i < matching_newest_first(sessions, logs, q).len() ==> from_stored_log(
            sessions,
            logs,
            #[trigger] matching_newest_first(sessions, logs, q)[i],
        ),
        forall|i: int| 0 <= i < matching_newest_first(sessions, logs, q).len() ==> entry_matches(
            #[trigger] matching_newest_first(sessions, logs, q)[i],
            q,
        ),
        forall|i: int, j: int|
            0 <= i < j < matching_newest_first(sessions, logs, q).len() ==> entry_before(
                #[trigger] matching_newest_first(sessions, logs, q)[j],
                #[trigger] matching_newest_first(sessions, logs, q)[i],
            ),
    decreases logs.len(),
{
    if logs.len() > 0 {
        let t = logs.drop_first();
        assert(logs_ascending(t)) by {
            assert forall|i: int, j: int| 0 <= i < j < t.len() implies log_before(
                #[trigger] t[i],
                #[trigger] t[j],
            ) by {
                assert(log_before(logs[i + 1], logs[j + 1]));
            }
        }
        lemma_matching_shape(sessions, t, q);
        let rest = matching_newest_first(sessions, t, q);
        let r = matching_newest_first(sessions, logs, q);
        assert forall|i: int| 0 <= i < rest.len() implies from_stored_log(sessions, logs, #[trigger] rest[i]) by {
            assert(from_stored_log(sessions, t, rest[i]));
            let k = choose|k: int| 0 <= k < t.len() && joined(sessions, #[trigger] t[k]) == Some(rest[i]);
            assert(logs[k + 1] == t[k]);
        }
        match matching_entry(sessions, logs[0], q) {
            Some(e) => {
                assert(r == rest.push(e));
                assert(joined(sessions, logs[0]) == Some(e));
                assert forall|i: int| 0 <= i < rest.len() implies entry_before(e, #[trigger] rest[i]) by {
                    let k = choose|k: int| 0 <= k < t.len() && joined(sessions, #[trigger] t[k]) == Some(rest[i]);
                    assert(log_before(logs[0], logs[k + 1]));
                }
                assert forall|i: int| 0 <= i < r.len() implies from_stored_log(sessions, logs, #[trigger] r[i]) by {
                    if i == rest.len() {
                        assert(joined(sessions, logs[0]) == Some(r[i]));
                    } else {
                        assert(r[i] == rest[i]);
                    }
                }
                assert forall|i: int, j: int| 0 <= i < j < r.len() implies entry_before(
                    #[trigger] r[j],
                    #[trigger] r[i],
                ) by {
                    if j == rest.len() {
                        assert(entry_before(e, rest[i]));
                    } else {
                        assert(entry_before(rest[j], rest[i]));
                    }
                }
                assert forall|i: int| 0 <= i < r.len() implies entry_matches(#[trigger] r[i], q) by {
                    if i < rest.len() {
                        assert(r[i] == rest[i]);
                    }
                }
            },
            None => {
                assert(r == rest);
            },
        }
    }
}

/// Log queries return rows newest first (by timestamp, then by id), and every row is the
/// line of a stored log, joined with its session, that meets every condition of the query.
pub proof fn law_log_results_newest_first_and_matching(
    st: StoreV,
    q: LogQuery,
    limit: int,
    offset: int,
)
    requires
        store_wf(st),
        0 <= offset,
        0 <= limit,
    ensures
        forall|i: int, j: int|
            0 <= i < j < log_query_result(st, q, limit, offset).len() ==> entry_before(
                #[trigger] log_query_result(st, q, limit, offset)[j],
                #[trigger] log_query_result(st, q, limit, offset)[i],
            ),
        forall|i: int|
            0 <= i < log_query_result(st, q, limit, offset).len() ==> entry_matches(
                #[trigger] log_query_result(st, q, limit, offset)[i],
                q,
            ),
        forall|i: int|
            0 <= i < log_query_result(st, q, limit, offset).len() ==> from_stored_log(
                st.sessions,
                st.logs,
                #[trigger] log_query_result(st, q, limit, offset)[i],
            ),
{
    let all = matching_newest_first(st.sessions, st.logs, q);
    lemma_matching_shape(st.sessions, st.logs, q);
    let r = log_query_result(st, q, limit, offset);
    if offset < all.len() {
        assert forall|i: int| 0 <= i < r.len() implies #[trigger] r[i] == all[offset + i] by {}
        assert forall|i: int| 0 <= i < r.len() implies from_stored_log(st.sessions, st.logs, #[trigger] r[i]) by {
            assert(r[i] == all[offset + i]);
        }
        assert forall|i: int, j: int| 0 <= i < j < r.len() implies entry_before(
            #[trigger] r[j],
            #[trigger] r[i],
        ) by {
            assert(r[i] == all[offset + i]);
            assert(r[j] == all[offset + j]);
        }
        assert forall|i: int| 0 <= i < r.len() implies entry_matches(#[trigger] r[i], q) by {
            assert(r[i] == all[offset + i]);
        }
    }
}

/// Inserting a row adds it to the logs of its session and leaves the other sessions' logs
/// as they were.
proof fn lemma_logs_of_insert(s: Seq<LogV>, r: LogV, sid: Seq<char>)
    ensures
        logs_of(insert_sorted(s, r, |a: LogV, b: LogV| log_before(a, b)), sid).len() == logs_of(
            s,
            sid,
        ).len() + if r.session_id == sid {
            1int
        } else {
            0int
        },
    decreases s.len(),
{
    let before = |a: LogV, b: LogV| log_before(a, b);
    if s.len() == 0 || before(s.last(), r) {
        assert(s.push(r).drop_last() =~= s);
    } else {
        let t = s.drop_last();
        lemma_logs_of_insert(t, r, sid);
        let u = insert_sorted(t, r, before);
        assert(u.push(s.last()).drop_last() =~= u);
        assert(s.drop_last() =~= t);
    }
}

proof fn lemma_logs_of_insert_lines(
    logs: Seq<LogV>,
    session_id: Seq<char>,
    lines: Seq<(Seq<char>, Seq<char>)>,
    first_id: int,
    sid: Seq<char>,
)
    ensures
        logs_of(insert_lines(logs, session_id, lines, first_id), sid).len() == logs_of(
            logs,
            sid,
        ).len() + if session_id == sid {
            lines.len() as int
        } else {
            0int
        },
    decreases lines.len(),
{
    if lines.len() > 0 {
        lemma_logs_of_insert_lines(logs, session_id, lines.drop_last(), first_id, sid);
        let row = LogV {
            id: first_id + lines.len() - 1,
            session_id,
            timestamp: lines.last().0,
            line: lines.last().1,
        };
        lemma_logs_of_insert(insert_lines(logs, session_id, lines.drop_last(), first_id), row, sid);
    }
}

/// A batch insert adds exactly its lines to its session's line count and no line to any
/// other session's count; the figures of an existing session grow by the batch size.
pub proof fn law_batch_adds_to_counts(
    st: StoreV,
    session_id: Seq<char>,
    lines: Seq<(Seq<char>, Seq<char>)>,
    sid: Seq<char>,
)
    ensures
        logs_of(insert_batch_spec(st, session_id, lines).logs, sid).len() == logs_of(
            st.logs,
            sid,
        ).len() + if session_id == sid {
            lines.len() as int
        } else {
            0int
        },
        stats_of(st, sid) is Some ==> stats_of(insert_batch_spec(st, session_id, lines), sid) is Some
            && stats_of(insert_batch_spec(st, session_id, lines), sid).unwrap().total_lines
            == stats_of(st, sid).unwrap().total_lines + if session_id == sid {
            lines.len() as int
        } else {
            0int
        },
{
    lemma_logs_of_insert_lines(st.logs, session_id, lines, st.last_log_id + 1, sid);
}

proof fn lemma_insert_sorted_contains<A>(s: Seq<A>, r: A, before: spec_fn(A, A) -> bool, x: A)
    requires
        x == r || s.contains(x),
    ensures
        insert_sorted(s, r, before).contains(x),
    decreases s.len(),
{
    if s.len() == 0 || before(s.last(), r) {
        if x == r {
            assert(s.push(r)[s.len() as int] == r);
        } else {
            let k = choose|k: int| 0 <= k < s.len() && s[k] == x;
            assert(s.push(r)[k] == x);
        }
    } else {
        let t = s.drop_last();
        let u = insert_sorted(t, r, before);
        if x == s.last() {
            assert(u.push(s.last())[u.len() as int] == x);
        } else {
            if x != r {
                let k = choose|k: int| 0 <= k < s.len() && s[k] == x;
                assert(t[k] == x);
            }
            lemma_insert_sorted_contains(t, r, before, x);
            let k = choose|k: int| 0 <= k < u.len() && u[k] == x;
            assert(u.push(s.last())[k] == x);
        }
    }
}

proof fn lemma_insert_lines_contains(
    logs: Seq<LogV>,
    session_id: Seq<char>,
    lines: Seq<(Seq<char>, Seq<char>)>,
    first_id: int,
    k: int,
)
    requires
        0 <= k < lines.len(),
    ensures
        insert_lines(logs, session_id, lines, first_id).contains(
            LogV {
                id: first_id + k,
                session_id,
                timestamp: lines[k].0,
                line: lines[k].1,
            },
        ),
    decreases lines.len(),
{
    let before = |a: LogV, b: LogV| log_before(a, b);
    let x = LogV { id: first_id + k, session_id, timestamp: lines[k].0, line: lines[k].1 };
    let prev = insert_lines(logs, session_id, lines.drop_last(), first_id);
    let row = LogV {
        id: first_id + lines.len() - 1,
        session_id,
        timestamp: lines.last().0,
        line: lines.last().1,
    };
    if k == lines.len() - 1 {
        lemma_insert_sorted_contains(prev, row, before, x);
    } else {
        lemma_insert_lines_contains(logs, session_id, lines.drop_last(), first_id, k);
        assert(lines.drop_last()[k] == lines[k]);
        lemma_insert_sorted_contains(prev, row, before, x);
    }
}

/// Every line of a batch is stored: the `k`-th line gets id `last_log_id + 1 + k` and the
/// batch's session, timestamp and text.
pub proof fn law_batch_lines_stored(
    st: StoreV,
    session_id: Seq<char>,
    lines: Seq<(Seq<char>, Seq<char>)>,
    k: int,
)
    requires
        0 <= k < lines.len(),
    ensures
        insert_batch_spec(st, session_id, lines).logs.contains(
            LogV {
                id: st.last_log_id + 1 + k,
                session_id,
                timestamp: lines[k].0,
                line: lines[k].1,
            },
        ),
{
    lemma_insert_lines_contains(st.logs, session_id, lines, st.last_log_id + 1, k);
}

/// Looking up an id that only the new row carries finds the new row; other ids find what
/// they found before.
proof fn lemma_session_of_insert(s: Seq<SessionV>, r: SessionV, x: Seq<char>)
    requires
        forall|i: int| 0 <= i < s.len() ==> (#[trigger] s[i]).id != r.id,
    ensures
        session_of(insert_sorted(s, r, |a: SessionV, b: SessionV| session_before(a, b)), x) == if x
            == r.id {
            Some(r)
        } else {
            session_of(s, x)
        },
    decreases s.len(),
{
    let before = |a: SessionV, b: SessionV| session_before(a, b);
    if s.len() == 0 || before(s.last(), r) {
        assert(s.push(r).drop_last() =~= s);
        if x == r.id {
        } else {
        }
    } else {
        let t = s.drop_last();
        lemma_session_of_insert(t, r, x);
        let u = insert_sorted(t, r, before);
        assert(u.push(s.last()).drop_last() =~= u);
        assert(s.last().id != r.id);
        if x == s.last().id {
        }
    }
}

/// A newly created session can be read back: its figures show the values it was created
/// with, and as line count the lines already carrying its id (none, unless lines were
/// stored for that id beforehand).
pub proof fn law_created_session_has_stats(
    st: StoreV,
    id: Seq<char>,
    repo: Option<Seq<char>>,
    branch: Option<Seq<char>>,
    commit_sha: Option<Seq<char>>,
    started_at: Seq<char>,
    cwd: Option<Seq<char>>,
)
    requires
        store_wf(st),
        !has_session(st, id),
    ensures
        stats_of(add_session_spec(st, id, repo, branch, commit_sha, started_at, cwd), id) == Some(
            StatsV {
                session_id: id,
                repo,
                branch,
                commit_sha,
                started_at,
                total_lines: logs_of(st.logs, id).len() as int,
                first_log: first_log_at(st.logs, id),
                last_log: last_log_at(st.logs, id),
            },
        ),
{
    let row = SessionV {
        rowid: st.last_session_rowid + 1,
        id,
        repo,
        branch,
        commit_sha,
        started_at,
        cwd,
    };
    assert forall|i: int| 0 <= i < st.sessions.len() implies (#[trigger] st.sessions[i]).id != row.id by {
        if st.sessions[i].id == id {
            assert(has_session(st, id));
        }
    }
    lemma_session_of_insert(st.sessions, row, id);
}

/// In a list of sessions with distinct ids, looking up one of them finds it.
proof fn lemma_session_of_finds(s: Seq<SessionV>, k: int)
    requires
        0 <= k < s.len(),
        forall|i: int, j: int|
            0 <= i < s.len() && 0 <= j < s.len() && i != j ==> #[trigger] s[i].id != #[trigger] s[j].id,
    ensures
        session_of(s, s[k].id) == Some(s[k]),
    decreases s.len(),
{
    if k < s.len() - 1 {
        let t = s.drop_last();
        assert(s[k].id != s[s.len() - 1].id);
        assert forall|i: int, j: int|
            0 <= i < t.len() && 0 <= j < t.len() && i != j implies #[trigger] t[i].id != #[trigger] t[j].id by {
            assert(s[i].id != s[j].id);
        }
        lemma_session_of_finds(t, k);
        assert(t[k] == s[k]);
    }
}

/// `e` summarizes one of `sessions`.
pub open spec fn summarizes_stored(sessions: Seq<SessionV>, logs: Seq<LogV>, e: SessionSummaryV) -> bool {
    exists|k: int| 0 <= k < sessions.len() && summarize(#[trigger] sessions[k], logs) == e
}

proof fn lemma_session_matching_shape(sessions: Seq<SessionV>, logs: Seq<LogV>, q: SessionQuery)
    ensures
        forall|i: int| 0 <= i < matching_sessions_newest_first(sessions, logs, q).len()
            ==> summarizes_stored(
            sessions,
            logs,
            #[trigger] matching_sessions_newest_first(sessions, logs, q)[i],
        ),
        sessions.len() > 0 && session_matches(sessions.last(), q) ==> matching_sessions_newest_first(
            sessions,
            logs,
            q,
        ).len() > 0 && matching_sessions_newest_first(sessions, logs, q)[0] == summarize(
            sessions.last(),
            logs,
        ),
    decreases sessions.len(),
{
    if sessions.len() > 0 {
        let t = sessions.drop_first();
        lemma_session_matching_shape(t, logs, q);
        let rest = matching_sessions_newest_first(t, logs, q);
        let r = matching_sessions_newest_first(sessions, logs, q);
        assert forall|i: int| 0 <= i < rest.len() implies summarizes_stored(sessions, logs, #[trigger] rest[i]) by {
            assert(summarizes_stored(t, logs, rest[i]));
            let k = choose|k: int| 0 <= k < t.len() && summarize(#[trigger] t[k], logs) == rest[i];
            assert(sessions[k + 1] == t[k]);
        }
        if session_matches(sessions[0], q) {
            assert(r == rest.push(summarize(sessions[0], logs)));
            assert forall|i: int| 0 <= i < r.len() implies summarizes_stored(sessions, logs, #[trigger] r[i]) by {
                if i < rest.len() {
                    assert(r[i] == rest[i]);
                } else {
                    assert(summarize(sessions[0], logs) == r[i]);
                }
            }
        } else {
            assert(r == rest);
        }
        if sessions.len() > 1 {
            assert(t.last() == sessions.last());
        } else {
            assert(rest.len() == 0);
        }
    }
}

/// The session query that matches every session.
pub open spec fn all_sessions_query() -> SessionQuery {
    SessionQuery { branch: None, commit_prefix: None, since: None }
}

/// The first session listed without filters is the latest one, the one whose figures
/// `session_stats` gives when no id is passed; its figures agree with the listing.
pub proof fn law_latest_session_listed_first(st: StoreV, limit: int)
    requires
        store_wf(st),
        st.sessions.len() > 0,
        limit >= 1,
    ensures
        session_query_result(st, all_sessions_query(), limit).len() > 0,
        Some(session_query_result(st, all_sessions_query(), limit)[0].id) == latest_session_id(st),
        session_stats_result(st, None) == stats_of(
            st,
            session_query_result(st, all_sessions_query(), limit)[0].id,
        ),
{
    let q = all_sessions_query();
    lemma_session_matching_shape(st.sessions, st.logs, q);
    let all = matching_sessions_newest_first(st.sessions, st.logs, q);
    let r = session_query_result(st, q, limit);
    assert(r[0] == all[0]);
}

/// Every session that `list_sessions` returns has figures, and they agree with the listing:
/// the same fields, `total_lines` equal to `log_count`, `last_log` equal to `last_log_at`.
pub proof fn law_listing_agrees_with_stats(st: StoreV, q: SessionQuery, limit: int, i: int)
    requires
        store_wf(st),
        0 <= limit,
        0 <= i < session_query_result(st, q, limit).len(),
    ensures
        ({
            let e = session_query_result(st, q, limit)[i];
            &&& stats_of(st, e.id) is Some
            &&& stats_of(st, e.id).unwrap().total_lines == e.log_count
            &&& stats_of(st, e.id).unwrap().last_log == e.last_log_at
            &&& stats_of(st, e.id).unwrap().repo == e.repo
            &&& stats_of(st, e.id).unwrap().branch == e.branch
            &&& stats_of(st, e.id).unwrap().commit_sha == e.commit_sha
            &&& stats_of(st, e.id).unwrap().started_at == e.started_at
        }),
{
    lemma_session_matching_shape(st.sessions, st.logs, q);
    let all = matching_sessions_newest_first(st.sessions, st.logs, q);
    let r = session_query_result(st, q, limit);
    assert(r[i] == all[i]);
    assert(summarizes_stored(st.sessions, st.logs, all[i]));
    let k = choose|k: int| 0 <= k < st.sessions.len() && summarize(#[trigger] st.sessions[k], st.logs) == all[i];
    lemma_session_of_finds(st.sessions, k);
}

/// The logs of one session, kept in the order of `logs`, hold every log of that session.
proof fn lemma_logs_of_shape(logs: Seq<LogV>, sid: Seq<char>)
    requires
        logs_ascending(logs),
    ensures
        logs_ascending(logs_of(logs, sid)),
        forall|k: int| 0 <= k < logs.len() && (#[trigger] logs[k]).session_id == sid ==> logs_of(logs, sid).contains(logs[k]),
        forall|k: int| 0 <= k < logs_of(logs, sid).len() ==> logs.contains(#[trigger] logs_of(logs, sid)[k]),
    decreases logs.len(),
{
    if logs.len() > 0 {
        let t = logs.drop_last();
        assert(logs_ascending(t)) by {
            assert forall|i: int, j: int| 0 <= i < j < t.len() implies log_before(
                #[trigger] t[i],
                #[trigger] t[j],
            ) by {
                assert(log_before(logs[i], logs[j]));
            }
        }
        lemma_logs_of_shape(t, sid);
        let m = logs_of(t, sid);
        let r = logs_of(logs, sid);
        assert forall|k: int| 0 <= k < m.len() implies logs.contains(#[trigger] m[k]) by {
            assert(t.contains(m[k]));
            let j = choose|j: int| 0 <= j < t.len() && t[j] == m[k];
            assert(logs[j] == m[k]);
        }
        if logs.last().session_id == sid {
            assert(r == m.push(logs.last()));
            assert forall|i: int, j: int| 0 <= i < j < r.len() implies log_before(
                #[trigger] r[i],
                #[trigger] r[j],
            ) by {
                if j == m.len() {
                    assert(logs.contains(m[i]));
                    let a = choose|a: int| 0 <= a < logs.len() && logs[a] == m[i];
                    let b = choose|b: int| 0 <= b < t.len() && t[b] == m[i];
                    assert(log_before(logs[b], logs[logs.len() - 1]));
                } else {
                    assert(r[i] == m[i] && r[j] == m[j]);
                }
            }
            assert forall|k: int| 0 <= k < logs.len() && (#[trigger] logs[k]).session_id == sid implies r.contains(logs[k]) by {
                if k == logs.len() - 1 {
                    assert(r[m.len() as int] == logs[k]);
                } else {
                    assert(t[k] == logs[k]);
                    assert(m.contains(logs[k]));
                    let j = choose|j: int| 0 <= j < m.len() && m[j] == logs[k];
                    assert(r[j] == logs[k]);
                }
            }
            assert forall|k: int| 0 <= k < r.len() implies logs.contains(#[trigger] r[k]) by {
                if k == m.len() {
                    assert(logs[logs.len() - 1] == r[k]);
                } else {
                    assert(r[k] == m[k]);
                }
            }
        } else {
            assert(r == m);
            assert forall|k: int| 0 <= k < logs.len() && (#[trigger] logs[k]).session_id == sid implies r.contains(logs[k]) by {
                assert(k != logs.len() - 1);
                assert(t[k] == logs[k]);
            }
        }
    }
}

/// The timestamps that a session's figures report are the extremes of its logs: no log
/// of the session is older than `first_log` or newer than `last_log`, and both are
/// present exactly when the session has logs.
pub proof fn law_first_and_last_log_are_extremes(st: StoreV, sid: Seq<char>, k: int)
    requires
        store_wf(st),
        0 <= k < st.logs.len(),
        st.logs[k].session_id == sid,
    ensures
        first_log_at(st.logs, sid) is Some,
        last_log_at(st.logs, sid) is Some,
        seq_le(first_log_at(st.logs, sid).unwrap(), st.logs[k].timestamp),
        seq_le(st.logs[k].timestamp, last_log_at(st.logs, sid).unwrap()),
{
    lemma_logs_of_shape(st.logs, sid);
    let m = logs_of(st.logs, sid);
    assert(m.contains(st.logs[k]));
    let j = choose|j: int| 0 <= j < m.len() && m[j] == st.logs[k];
    if j > 0 {
        assert(log_before(m[0], m[j]));
    }
    if j < m.len() - 1 {
        assert(log_before(m[j], m[m.len() - 1]));
    }
}

/// The seconds in one unit named by the letter that ends a relative span: `s`, `m`, `h`, `d`.
pub open spec fn letter_seconds(letter: char) -> int {
    if letter == 's' {
        1
    } else if letter == 'm' {
        60
    } else if letter == 'h' {
        3600
    } else {
        86400
    }
}

/// `s` is a relative span, once trimmed: the decimal number `n` followed by one of the
/// letters `s`, `m`, `h`, `d`, and not a timestamp that `parse_from_rfc3339` reads.
pub open spec fn is_span(s: Seq<char>, n: int) -> bool {
    let t = trim_seq(s);
    &&& t.len() > 0
    &&& parse_i64_spec(t.drop_last()) == Some(n)
    &&& (t.last() == 's' || t.last() == 'm' || t.last() == 'h' || t.last() == 'd')
    &&& rfc3339_instant(t) is None
}

/// A relative bound counts back from the clock's reading by its number of units: `n`
/// followed by `s`, `m`, `h` or `d` names the instant `n` seconds, minutes, hours or days
/// before the reading, with the reading's nanoseconds; it names nothing when the clock could
/// not be read; and its text is the UTC timestamp of that same instant, wherever `chrono`
/// represents it.
pub proof fn law_span_counts_back_from_clock(s: Seq<char>, c: (int, int), n: int)
    requires
        is_span(s, n),
    ensures
        since_instant(s, Some(c)) == Some((c.0 - n * letter_seconds(trim_seq(s).last()), c.1)),
        since_instant(s, None) is None,
        since_instant(s, Some(c)) matches Some(i) ==> (min_timestamp() <= i.0 <= max_timestamp()
            ==> since_text(s, Some(c)) == Some(utc_rfc3339(i.0, i.1))),
        since_instant(s, Some(c)) matches Some(i) ==> (!(min_timestamp() <= i.0 <= max_timestamp())
            ==> since_text(s, Some(c)) is None),
{
}

/// The text of a time bound names the instant `x` when the clock reads `c`: an RFC 3339
/// timestamp names its own instant, and `n` followed by `s`, `m`, `h` or `d` names the
/// instant `n` seconds, minutes, hours or days before the reading.
pub open spec fn bound_names(b: Seq<char>, c: (int, int), x: (int, int)) -> bool {
    ||| rfc3339_instant(trim_seq(b)) == Some(x)
    ||| exists|n: int|
        #[trigger] is_span(b, n) && x == (c.0 - n * letter_seconds(trim_seq(b).last()), c.1)
}

/// A bound that names an instant is resolved to that instant.
proof fn lemma_bound_resolves_to_named(b: Seq<char>, c: (int, int), x: (int, int))
    requires
        bound_names(b, c, x),
    ensures
        bound_at(Some(b), Some(c)) == Some(x),
{
    if rfc3339_instant(trim_seq(b)) != Some(x) {
        let n = choose|n: int|
            #[trigger] is_span(b, n) && x == (c.0 - n * letter_seconds(trim_seq(b).last()), c.1);
        law_span_counts_back_from_clock(b, c, n);
    }
}

/// The timestamp `ts` names an instant no earlier than `x`.
pub open spec fn not_before(ts: Seq<char>, x: (int, int)) -> bool {
    rfc3339_instant(ts) matches Some(i) && instant_le(x, i)
}

/// The timestamp `ts` names an instant no later than `y`.
pub open spec fn not_after(ts: Seq<char>, y: (int, int)) -> bool {
    rfc3339_instant(ts) matches Some(i) && instant_le(i, y)
}

/// Every entry of a log query meets its conditions.
proof fn lemma_results_meet_query(st: StoreV, q: LogQuery, limit: int, offset: int, k: int)
    requires
        store_wf(st),
        0 <= offset,
        0 <= limit,
        0 <= k < log_query_result(st, q, limit, offset).len(),
    ensures
        entry_matches(log_query_result(st, q, limit, offset)[k], q),
{
    law_log_results_newest_first_and_matching(st, q, limit, offset);
}

/// A search returns only lines within its time bounds (`--last 1h`, or timestamps with any
/// offset): when `since` names the instant `x` at the clock reading `c`, the timestamp of
/// every line returned names an instant no earlier than `x`; when `until` names `y`, no later
/// than `y`.
pub proof fn law_search_keeps_within_bounds(
    st: StoreV,
    pattern: Seq<char>,
    filters: &SearchFilters,
    c: (int, int),
    x: (int, int),
    y: (int, int),
    limit: int,
    k: int,
)
    requires
        store_wf(st),
        0 <= limit,
        0 <= k < log_query_result(st, search_query(pattern, filters, Some(c)), limit, 0).len(),
    ensures
        ({
            let e = log_query_result(st, search_query(pattern, filters, Some(c)), limit, 0)[k];
            &&& filters.since is Some && bound_names(filters.since.unwrap()@, c, x) ==> not_before(
                e.timestamp,
                x,
            )
            &&& filters.until is Some && bound_names(filters.until.unwrap()@, c, y) ==> not_after(
                e.timestamp,
                y,
            )
        }),
{
    lemma_results_meet_query(st, search_query(pattern, filters, Some(c)), limit, 0, k);
    if filters.since is Some && bound_names(filters.since.unwrap()@, c, x) {
        lemma_bound_resolves_to_named(filters.since.unwrap()@, c, x);
    }
    if filters.until is Some && bound_names(filters.until.unwrap()@, c, y) {
        lemma_bound_resolves_to_named(filters.until.unwrap()@, c, y);
    }
}

/// Browsing returns only lines within its time bounds (`--since 2h --until 1h`, or
/// timestamps with any offset): when `since` names the instant `x` at the clock reading `c`,
/// the timestamp of every line returned names an instant no earlier than `x`; when `until`
/// names `y`, no later than `y`.
pub proof fn law_browse_keeps_within_bounds(
    st: StoreV,
    filters: &LogsFilters,
    c: (int, int),
    x: (int, int),
    y: (int, int),
    k: int,
)
    requires
        store_wf(st),
        0 <= k < log_query_result(
            st,
            logs_query(filters, Some(c)),
            filters.limit as int,
            filters.offset as int,
        ).len(),
    ensures
        ({
            let e = log_query_result(
                st,
                logs_query(filters, Some(c)),
                filters.limit as int,
                filters.offset as int,
            )[k];
            &&& filters.since is Some && bound_names(filters.since.unwrap()@, c, x) ==> not_before(
                e.timestamp,
                x,
            )
            &&& filters.until is Some && bound_names(filters.until.unwrap()@, c, y) ==> not_after(
                e.timestamp,
                y,
            )
        }),
{
    lemma_results_meet_query(
        st,
        logs_query(filters, Some(c)),
        filters.limit as int,
        filters.offset as int,
        k,
    );
    if filters.since is Some && bound_names(filters.since.unwrap()@, c, x) {
        lemma_bound_resolves_to_named(filters.since.unwrap()@, c, x);
    }
    if filters.until is Some && bound_names(filters.until.unwrap()@, c, y) {
        lemma_bound_resolves_to_named(filters.until.unwrap()@, c, y);
    }
}

/// `e` summarizes a stored session that meets the query.
pub open spec fn summarizes_match(
    sessions: Seq<SessionV>,
    logs: Seq<LogV>,
    q: SessionQuery,
    e: SessionSummaryV,
) -> bool {
    exists|j: int|
        0 <= j < sessions.len() && session_matches(sessions[j], q) && #[trigger] summarize(
            sessions[j],
            logs,
        ) == e
}

/// Every listed session is the summary of a stored session that meets the query.
proof fn lemma_listed_sessions_match(sessions: Seq<SessionV>, logs: Seq<LogV>, q: SessionQuery)
    ensures
        forall|i: int|
            0 <= i < matching_sessions_newest_first(sessions, logs, q).len() ==> summarizes_match(
                sessions,
                logs,
                q,
                #[trigger] matching_sessions_newest_first(sessions, logs, q)[i],
            ),
    decreases sessions.len(),
{
    if sessions.len() > 0 {
        let t = sessions.drop_first();
        lemma_listed_sessions_match(t, logs, q);
        let rest = matching_sessions_newest_first(t, logs, q);
        let r = matching_sessions_newest_first(sessions, logs, q);
        assert forall|i: int| 0 <= i < r.len() implies summarizes_match(
            sessions,
            logs,
            q,
            #[trigger] r[i],
        ) by {
            if i < rest.len() {
                assert(r[i] == rest[i]);
                assert(summarizes_match(t, logs, q, rest[i]));
                let j = choose|j: int|
                    0 <= j < t.len() && session_matches(t[j], q) && #[trigger] summarize(t[j], logs)
                        == rest[i];
                assert(sessions[j + 1] == t[j]);
                assert(summarize(sessions[j + 1], logs) == r[i]);
            } else {
                assert(session_matches(sessions[0], q));
                assert(r[i] == summarize(sessions[0], logs));
            }
        }
    }
}

/// Listing sessions keeps only sessions started within the time bound (`--since 1h`, or a
/// timestamp with any offset): when `since` names the instant `x` at the clock reading `c`,
/// the start time of every session listed names an instant no earlier than `x`.
pub proof fn law_sessions_started_within_bound(
    st: StoreV,
    filters: &SessionFilters,
    c: (int, int),
    x: (int, int),
    k: int,
)
    requires
        filters.since matches Some(b) && bound_names(b@, c, x),
        0 <= k < session_query_result(st, sessions_query(filters, Some(c)), filters.limit as int).len(),
    ensures
        not_before(
            session_query_result(st, sessions_query(filters, Some(c)), filters.limit as int)[k].started_at,
            x,
        ),
{
    lemma_bound_resolves_to_named(filters.since.unwrap()@, c, x);
    let q = sessions_query(filters, Some(c));
    let all = matching_sessions_newest_first(st.sessions, st.logs, q);
    lemma_listed_sessions_match(st.sessions, st.logs, q);
    let r = session_query_result(st, q, filters.limit as int);
    assert(r[k] == all[k]);
    assert(summarizes_match(st.sessions, st.logs, q, all[k]));
    let j = choose|j: int|
        0 <= j < st.sessions.len() && session_matches(st.sessions[j], q) && #[trigger] summarize(
            st.sessions[j],
            st.logs,
        ) == all[k];
    assert(summarize(st.sessions[j], st.logs).started_at == st.sessions[j].started_at);
}

/// The figures of a session are printed each after its own label: the session id, the repo,
/// branch and commit (or a placeholder), the start time and the line count, then the first
/// log's time where there is one, and last the last log's time where there is one.
pub proof fn law_stats_lines_show_each_field(st: StatsV)
    ensures
        ({
            let lines = stats_lines_spec(st);
            let extra = (if st.first_log is Some { 1int } else { 0int }) + (if st.last_log is Some {
                1int
            } else {
                0int
            });
            &&& lines.len() == 6 + extra
            &&& lines[0] == "Session:    "@ + st.session_id
            &&& lines[1] == "Repo:       "@ + or_text(st.repo, "(no repo)"@)
            &&& lines[2] == "Branch:     "@ + or_text(st.branch, "(no branch)"@)
            &&& lines[3] == "Commit:     "@ + or_text(st.commit_sha, "(unknown)"@)
            &&& lines[4] == "Started:    "@ + st.started_at
            &&& lines[5] == "Lines:      "@ + int_decimal(st.total_lines)
            &&& st.first_log matches Some(f) ==> lines[6] == "First log:  "@ + f
            &&& st.last_log matches Some(l) ==> lines[lines.len() - 1] == "Last log:   "@ + l
        }),
{
}

/// The last `c` in `s` is at `i`.
proof fn lemma_last_index_at(s: Seq<char>, c: char, i: int)
    requires
        0 <= i < s.len(),
        s[i] == c,
        forall|j: int| i < j < s.len() ==> s[j] != c,
    ensures
        last_index(s, c) == Some(i),
    decreases s.len(),
{
    if s.last() != c {
        assert(i < s.len() - 1);
        lemma_last_index_at(s.drop_last(), c, i);
    }
}

/// Trailing white space is trimmed away, down to a last character that is not white space.
proof fn lemma_trim_end_white_tail(x: Seq<char>, tail: Seq<char>)
    requires
        x.len() > 0,
        !is_white_space(x.last()),
        forall|k: int| 0 <= k < tail.len() ==> is_white_space(#[trigger] tail[k]),
    ensures
        crate::text::trim_end_seq(x + tail) == x,
    decreases tail.len(),
{
    if tail.len() == 0 {
        assert(x + tail =~= x);
    } else {
        assert((x + tail).last() == tail.last());
        assert((x + tail).drop_last() =~= x + tail.drop_last());
        lemma_trim_end_white_tail(x, tail.drop_last());
    }
}

/// A remote URL with a scheme (`https://`, `ssh://`, `http://`, `git://`, ...) gives its last
/// two path segments as the repository name, without the `.git` suffix: the scheme `sch`
/// holds no `/`, `:` or white space, the host `h`, the owner `o` and the repository `r` hold
/// no `/`, `r` does not itself end in `.git`, and `git` may print white space after the URL.
pub proof fn law_url_remote_gives_last_two_segments(
    sch: Seq<char>,
    h: Seq<char>,
    o: Seq<char>,
    r: Seq<char>,
    tail: Seq<char>,
)
    requires
        forall|k: int|
            0 <= k < sch.len() ==> #[trigger] sch[k] != '/' && sch[k] != ':' && !is_white_space(
                sch[k],
            ),
        forall|k: int| 0 <= k < h.len() ==> #[trigger] h[k] != '/',
        forall|k: int| 0 <= k < o.len() ==> #[trigger] o[k] != '/',
        forall|k: int| 0 <= k < r.len() ==> #[trigger] r[k] != '/',
        !(r.len() >= 4 && r.subrange(r.len() - 4, r.len() as int) == git_suffix()),
        forall|k: int| 0 <= k < tail.len() ==> is_white_space(#[trigger] tail[k]),
    ensures
        remote_name(
            true,
            sch + seq![':', '/', '/'] + h + seq!['/'] + o + seq!['/'] + r + git_suffix() + tail,
        ) == Some(o + seq!['/'] + r),
{
    let rest = sch + seq![':', '/', '/'] + h + seq!['/'] + o;
    let p = rest + seq!['/'] + r;
    let g = p + git_suffix();
    let u = g + tail;
    assert(u =~= sch + seq![':', '/', '/'] + h + seq!['/'] + o + seq!['/'] + r + git_suffix() + tail);
    // trimming leaves the URL with its suffix
    assert(u.len() > 0 && !is_white_space(u[0])) by {
        if sch.len() > 0 {
            assert(u[0] == sch[0]);
        } else {
            assert(u[0] == ':');
        }
    }
    assert(crate::text::trim_start_seq(u) == u);
    assert(g.last() == 't');
    lemma_trim_end_white_tail(g, tail);
    assert(trim_seq(u) == g);
    // one `.git` comes off, and no more
    assert(g.subrange(g.len() - 4, g.len() as int) =~= git_suffix());
    assert(g.subrange(0, g.len() - 4) =~= p);
    assert(p.len() >= 4 ==> p.subrange(p.len() - 4, p.len() as int) != git_suffix()) by {
        if p.len() >= 4 {
            let w = p.subrange(p.len() - 4, p.len() as int);
            if r.len() >= 4 {
                assert(w =~= r.subrange(r.len() - 4, r.len() as int));
            } else {
                let k = 3 - r.len();
                assert(w[k] == '/');
                assert(git_suffix()[k] != '/');
            }
        }
    }
    assert(strip_git_suffix(p) == p);
    assert(strip_git_suffix(g) == p);
    // it has a scheme
    assert(p[sch.len() as int] == ':' && p[sch.len() + 1int] == '/' && p[sch.len() + 2int] == '/');
    assert(has_scheme(p));
    // the last two `/`-separated pieces
    let k2 = rest.len() as int;
    assert(p[k2] == '/');
    assert forall|j: int| k2 < j < p.len() implies p[j] != '/' by {
        assert(p[j] == r[j - k2 - 1]);
    }
    lemma_last_index_at(p, '/', k2);
    assert(p.subrange(0, k2) =~= rest);
    assert(p.subrange(k2 + 1, p.len() as int) =~= r);
    let k1 = rest.len() - o.len() - 1;
    assert(rest[k1] == '/');
    assert forall|j: int| k1 < j < rest.len() implies rest[j] != '/' by {
        assert(rest[j] == o[j - k1 - 1]);
    }
    lemma_last_index_at(rest, '/', k1);
    assert(rest.subrange(k1 + 1, rest.len() as int) =~= o);
    assert(url_name(p) == Some(o + seq!['/'] + r));
}

} // verus!
