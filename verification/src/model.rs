//! The mathematical model of the log database: its rows, their order, and what each query
//! returns.
use vstd::prelude::*;
use crate::text::seq_lt;
use crate::fold::{contains_ci, starts_with_ci};
use crate::instant::{rfc3339_instant, instant_le};

verus! {

/// A row of the `sessions` table: one run of the collector.
pub struct SessionV {
    /// The table's internal row number, which breaks ties between equal start times.
    pub rowid: int,
    pub id: Seq<char>,
    pub repo: Option<Seq<char>>,
    pub branch: Option<Seq<char>>,
    pub commit_sha: Option<Seq<char>>,
    pub started_at: Seq<char>,
    pub cwd: Option<Seq<char>>,
}

/// A row of the `logs` table: one captured line.
pub struct LogV {
    pub id: int,
    pub session_id: Seq<char>,
    pub timestamp: Seq<char>,
    pub line: Seq<char>,
}

/// The whole database. Sessions are kept in ascending `(started_at, rowid)` order and logs
/// in ascending `(timestamp, id)` order, so that "newest first" reads them backwards.
pub struct StoreV {
    pub sessions: Seq<SessionV>,
    pub logs: Seq<LogV>,
    /// The largest session row number handed out so far.
    pub last_session_rowid: int,
    /// The largest log id handed out so far (ids are never reused).
    pub last_log_id: int,
}

/// A log line as the log queries return it, with the branch of its session.
pub struct LogEntryV {
    pub id: int,
    pub session_id: Seq<char>,
    pub timestamp: Seq<char>,
    pub line: Seq<char>,
    pub branch: Option<Seq<char>>,
}

/// A session as `list_sessions` returns it.
pub struct SessionSummaryV {
    pub id: Seq<char>,
    pub repo: Option<Seq<char>>,
    pub branch: Option<Seq<char>>,
    pub commit_sha: Option<Seq<char>>,
    pub started_at: Seq<char>,
    pub last_log_at: Option<Seq<char>>,
    pub cwd: Option<Seq<char>>,
    pub log_count: int,
}

/// Summary figures for one session, as `session_stats` returns them.
pub struct StatsV {
    pub session_id: Seq<char>,
    pub repo: Option<Seq<char>>,
    pub branch: Option<Seq<char>>,
    pub commit_sha: Option<Seq<char>>,
    pub started_at: Seq<char>,
    pub total_lines: int,
    pub first_log: Option<Seq<char>>,
    pub last_log: Option<Seq<char>>,
}

/// Log `a` sorts before log `b`: older timestamp first, and the smaller id first among equal
/// timestamps.
pub open spec fn log_before(a: LogV, b: LogV) -> bool {
    seq_lt(a.timestamp, b.timestamp) || (a.timestamp == b.timestamp && a.id < b.id)
}

/// Session `a` sorts before session `b`: earlier start first, the smaller row number first
/// among equal start times.
pub open spec fn session_before(a: SessionV, b: SessionV) -> bool {
    seq_lt(a.started_at, b.started_at) || (a.started_at == b.started_at && a.rowid < b.rowid)
}

/// `s` with `r` placed after every element that sorts before it: scanning back from the end,
/// `r` goes right after the last element that precedes it.
pub open spec fn insert_sorted<A>(s: Seq<A>, r: A, before: spec_fn(A, A) -> bool) -> Seq<A>
    decreases s.len(),
{
    if s.len() == 0 || before(s.last(), r) {
        s.push(r)
    } else {
        insert_sorted(s.drop_last(), r, before).push(s.last())
    }
}

/// Well-formedness of the database: ids unique and within the counters, rows in order.
pub open spec fn store_wf(st: StoreV) -> bool {
    &&& 0 <= st.last_log_id <= i64::MAX
    &&& 0 <= st.last_session_rowid <= i64::MAX
    &&& st.logs.len() <= st.last_log_id
    &&& st.sessions.len() <= st.last_session_rowid
    &&& forall|i: int| 0 <= i < st.logs.len() ==> 1 <= #[trigger] st.logs[i].id <= st.last_log_id
    &&& forall|i: int, j: int|
        0 <= i < st.logs.len() && 0 <= j < st.logs.len() && i != j ==> #[trigger] st.logs[i].id
            != #[trigger] st.logs[j].id
    &&& forall|i: int, j: int|
        0 <= i < j < st.logs.len() ==> log_before(#[trigger] st.logs[i], #[trigger] st.logs[j])
    &&& forall|i: int|
        0 <= i < st.sessions.len() ==> 1 <= #[trigger] st.sessions[i].rowid
            <= st.last_session_rowid
    &&& forall|i: int, j: int|
        0 <= i < st.sessions.len() && 0 <= j < st.sessions.len() && i != j
            ==> #[trigger] st.sessions[i].rowid != #[trigger] st.sessions[j].rowid
    &&& forall|i: int, j: int|
        0 <= i < st.sessions.len() && 0 <= j < st.sessions.len() && i != j
            ==> #[trigger] st.sessions[i].id != #[trigger] st.sessions[j].id
    &&& forall|i: int, j: int|
        0 <= i < j < st.sessions.len() ==> session_before(
            #[trigger] st.sessions[i],
            #[trigger] st.sessions[j],
        )
}

/// The empty database.
pub open spec fn empty_store() -> StoreV {
    StoreV { sessions: Seq::empty(), logs: Seq::empty(), last_session_rowid: 0, last_log_id: 0 }
}

/// Some session already has the id `id`.
pub open spec fn has_session(st: StoreV, id: Seq<char>) -> bool {
    exists|i: int| 0 <= i < st.sessions.len() && #[trigger] st.sessions[i].id == id
}

/// The database after adding a session with the next row number.
pub open spec fn add_session_spec(
    st: StoreV,
    id: Seq<char>,
    repo: Option<Seq<char>>,
    branch: Option<Seq<char>>,
    commit_sha: Option<Seq<char>>,
    started_at: Seq<char>,
    cwd: Option<Seq<char>>,
) -> StoreV {
    let row = SessionV {
        rowid: st.last_session_rowid + 1,
        id,
        repo,
        branch,
        commit_sha,
        started_at,
        cwd,
    };
    StoreV {
        sessions: insert_sorted(st.sessions, row, |a: SessionV, b: SessionV| session_before(a, b)),
        last_session_rowid: st.last_session_rowid + 1,
        ..st
    }
}

/// The logs after inserting `lines` (timestamp, text) for `session_id`, the `k`-th getting
/// id `first_id + k`.
pub open spec fn insert_lines(
    logs: Seq<LogV>,
    session_id: Seq<char>,
    lines: Seq<(Seq<char>, Seq<char>)>,
    first_id: int,
) -> Seq<LogV>
    decreases lines.len(),
{
    if lines.len() == 0 {
        logs
    } else {
        let row = LogV {
            id: first_id + lines.len() - 1,
            session_id,
            timestamp: lines.last().0,
            line: lines.last().1,
        };
        insert_sorted(
            insert_lines(logs, session_id, lines.drop_last(), first_id),
            row,
            |a: LogV, b: LogV| log_before(a, b),
        )
    }
}

/// The database after a batch insert of `lines` for `session_id`.
pub open spec fn insert_batch_spec(
    st: StoreV,
    session_id: Seq<char>,
    lines: Seq<(Seq<char>, Seq<char>)>,
) -> StoreV {
    StoreV {
        logs: insert_lines(st.logs, session_id, lines, st.last_log_id + 1),
        last_log_id: st.last_log_id + lines.len(),
        ..st
    }
}

/// The session with id `sid`, looked up from the newest row backwards (ids are unique in a
/// well-formed database, so the direction does not matter).
pub open spec fn session_of(sessions: Seq<SessionV>, sid: Seq<char>) -> Option<SessionV>
    decreases sessions.len(),
{
    if sessions.len() == 0 {
        None
    } else if sessions.last().id == sid {
        Some(sessions.last())
    } else {
        session_of(sessions.drop_last(), sid)
    }
}

/// The conditions of a log query. `pattern` is a keyword that the line must contain, letter
/// case aside; `session_id` and `branch` are equalities; `since` and `until` are inclusive
/// bounds on the instant of the timestamp. `None` means no condition.
pub struct LogQuery {
    pub pattern: Option<Seq<char>>,
    pub session_id: Option<Seq<char>>,
    pub branch: Option<Seq<char>>,
    pub since: Option<(int, int)>,
    pub until: Option<(int, int)>,
}

/// The timestamp `ts` names an instant at or after `bound` (a timestamp that is not RFC 3339
/// names no instant and meets no bound).
pub open spec fn at_or_after(ts: Seq<char>, bound: (int, int)) -> bool {
    match rfc3339_instant(ts) {
        Some(i) => instant_le(bound, i),
        None => false,
    }
}

/// The timestamp `ts` names an instant at or before `bound`.
pub open spec fn at_or_before(ts: Seq<char>, bound: (int, int)) -> bool {
    match rfc3339_instant(ts) {
        Some(i) => instant_le(i, bound),
        None => false,
    }
}

/// A log joined with its session, when the session exists (an inner join).
pub open spec fn joined(sessions: Seq<SessionV>, l: LogV) -> Option<LogEntryV> {
    match session_of(sessions, l.session_id) {
        Some(s) => Some(
            LogEntryV {
                id: l.id,
                session_id: l.session_id,
                timestamp: l.timestamp,
                line: l.line,
                branch: s.branch,
            },
        ),
        None => None,
    }
}

/// A joined log meets every condition of the query.
pub open spec fn entry_matches(e: LogEntryV, q: LogQuery) -> bool {
    &&& match q.pattern {
        Some(p) => contains_ci(e.line, p),
        None => true,
    }
    &&& match q.session_id {
        Some(s) => e.session_id == s,
        None => true,
    }
    &&& match q.branch {
        Some(b) => e.branch == Some(b),
        None => true,
    }
    &&& match q.since {
        Some(b) => at_or_after(e.timestamp, b),
        None => true,
    }
    &&& match q.until {
        Some(b) => at_or_before(e.timestamp, b),
        None => true,
    }
}

/// The joined entry of a log when it meets the query.
pub open spec fn matching_entry(sessions: Seq<SessionV>, l: LogV, q: LogQuery) -> Option<
    LogEntryV,
> {
    match joined(sessions, l) {
        Some(e) => if entry_matches(e, q) {
            Some(e)
        } else {
            None
        },
        None => None,
    }
}

/// The entries of `logs` that meet the query, newest first (`logs` ascending).
pub open spec fn matching_newest_first(sessions: Seq<SessionV>, logs: Seq<LogV>, q: LogQuery) -> Seq<
    LogEntryV,
>
    decreases logs.len(),
{
    if logs.len() == 0 {
        Seq::empty()
    } else {
        let rest = matching_newest_first(sessions, logs.drop_first(), q);
        match matching_entry(sessions, logs[0], q) {
            Some(e) => rest.push(e),
            None => rest,
        }
    }
}

/// `LIMIT limit OFFSET offset` applied to `s`.
pub open spec fn page<A>(s: Seq<A>, offset: int, limit: int) -> Seq<A> {
    if offset >= s.len() {
        Seq::empty()
    } else if offset + limit >= s.len() {
        s.subrange(offset, s.len() as int)
    } else {
        s.subrange(offset, offset + limit)
    }
}

/// What a log query returns: matching entries, newest first, paged.
pub open spec fn log_query_result(st: StoreV, q: LogQuery, limit: int, offset: int) -> Seq<
    LogEntryV,
> {
    page(matching_newest_first(st.sessions, st.logs, q), offset, limit)
}

/// The logs of session `sid`, in ascending order.
pub open spec fn logs_of(logs: Seq<LogV>, sid: Seq<char>) -> Seq<LogV>
    decreases logs.len(),
{
    if logs.len() == 0 {
        Seq::empty()
    } else if logs.last().session_id == sid {
        logs_of(logs.drop_last(), sid).push(logs.last())
    } else {
        logs_of(logs.drop_last(), sid)
    }
}

/// The latest timestamp of session `sid`'s logs, if it has any.
pub open spec fn last_log_at(logs: Seq<LogV>, sid: Seq<char>) -> Option<Seq<char>> {
    let mine = logs_of(logs, sid);
    if mine.len() == 0 {
        None
    } else {
        Some(mine.last().timestamp)
    }
}

/// The earliest timestamp of session `sid`'s logs, if it has any.
pub open spec fn first_log_at(logs: Seq<LogV>, sid: Seq<char>) -> Option<Seq<char>> {
    let mine = logs_of(logs, sid);
    if mine.len() == 0 {
        None
    } else {
        Some(mine[0].timestamp)
    }
}

/// The conditions of a session query: branch equality, a prefix that the commit must start
/// with (letter case aside), and an inclusive lower bound on the instant of the start time.
pub struct SessionQuery {
    pub branch: Option<Seq<char>>,
    pub commit_prefix: Option<Seq<char>>,
    pub since: Option<(int, int)>,
}

/// A session meets every condition of the query.
pub open spec fn session_matches(s: SessionV, q: SessionQuery) -> bool {
    &&& match q.branch {
        Some(b) => s.branch == Some(b),
        None => true,
    }
    &&& match q.commit_prefix {
        Some(p) => match s.commit_sha {
            Some(c) => starts_with_ci(c, p),
            None => false,
        },
        None => true,
    }
    &&& match q.since {
        Some(b) => at_or_after(s.started_at, b),
        None => true,
    }
}

/// A session with its log figures.
pub open spec fn summarize(s: SessionV, logs: Seq<LogV>) -> SessionSummaryV {
    SessionSummaryV {
        id: s.id,
        repo: s.repo,
        branch: s.branch,
        commit_sha: s.commit_sha,
        started_at: s.started_at,
        last_log_at: last_log_at(logs, s.id),
        cwd: s.cwd,
        log_count: logs_of(logs, s.id).len() as int,
    }
}

/// The sessions of `sessions` that meet the query, newest first (`sessions` ascending).
pub open spec fn matching_sessions_newest_first(
    sessions: Seq<SessionV>,
    logs: Seq<LogV>,
    q: SessionQuery,
) -> Seq<SessionSummaryV>
    decreases sessions.len(),
{
    if sessions.len() == 0 {
        Seq::empty()
    } else {
        let rest = matching_sessions_newest_first(sessions.drop_first(), logs, q);
        if session_matches(sessions[0], q) {
            rest.push(summarize(sessions[0], logs))
        } else {
            rest
        }
    }
}

/// What `list_sessions` returns: matching sessions, newest first, at most `limit`.
pub open spec fn session_query_result(st: StoreV, q: SessionQuery, limit: int) -> Seq<
    SessionSummaryV,
> {
    page(matching_sessions_newest_first(st.sessions, st.logs, q), 0, limit)
}

/// The id of the most recently started session.
pub open spec fn latest_session_id(st: StoreV) -> Option<Seq<char>> {
    if st.sessions.len() == 0 {
        None
    } else {
        Some(st.sessions.last().id)
    }
}

/// The figures of session `sid`, if it exists.
pub open spec fn stats_of(st: StoreV, sid: Seq<char>) -> Option<StatsV> {
    match session_of(st.sessions, sid) {
        Some(s) => Some(
            StatsV {
                session_id: sid,
                repo: s.repo,
                branch: s.branch,
                commit_sha: s.commit_sha,
                started_at: s.started_at,
                total_lines: logs_of(st.logs, sid).len() as int,
                first_log: first_log_at(st.logs, sid),
                last_log: last_log_at(st.logs, sid),
            },
        ),
        None => None,
    }
}

/// What `session_stats` returns: the figures of the given session, or of the latest one.
pub open spec fn session_stats_result(st: StoreV, sid: Option<Seq<char>>) -> Option<StatsV> {
    match sid {
        Some(id) => stats_of(st, id),
        None => match latest_session_id(st) {
            Some(id) => stats_of(st, id),
            None => None,
        },
    }
}

/// Where `insert_sorted` places `r`: at `p`, when everything before `p` precedes `r` (the
/// last of them at least) and nothing from `p` on does.
pub proof fn lemma_insert_sorted_at<A>(s: Seq<A>, r: A, before: spec_fn(A, A) -> bool, p: int)
    requires
        0 <= p <= s.len(),
        p == 0 || before(s[p - 1], r),
        forall|k: int| p <= k < s.len() ==> !before(#[trigger] s[k], r),
    ensures
        insert_sorted(s, r, before) == s.insert(p, r),
    decreases s.len(),
{
    if p == s.len() {
        assert(s.push(r) =~= s.insert(p, r));
    } else {
        assert(!before(s[s.len() - 1], r));
        let t = s.drop_last();
        lemma_insert_sorted_at(t, r, before, p);
        assert(t.insert(p, r).push(s.last()) =~= s.insert(p, r));
    }
}

/// `log_before` is transitive.
pub proof fn lemma_log_before_transitive(a: LogV, b: LogV, c: LogV)
    requires
        log_before(a, b),
        log_before(b, c),
    ensures
        log_before(a, c),
{
    if seq_lt(a.timestamp, b.timestamp) && seq_lt(b.timestamp, c.timestamp) {
        crate::text::lemma_seq_lt_transitive(a.timestamp, b.timestamp, c.timestamp);
    }
}

/// Logs with different ids are ordered one way or the other, and never both ways.
pub proof fn lemma_log_before_total(a: LogV, b: LogV)
    requires
        a.id != b.id,
    ensures
        log_before(a, b) || log_before(b, a),
        !(log_before(a, b) && log_before(b, a)),
{
    crate::text::lemma_seq_lt_total(a.timestamp, b.timestamp);
    crate::text::lemma_seq_lt_asymmetric(a.timestamp, b.timestamp);
    crate::text::lemma_seq_lt_irreflexive(a.timestamp);
}

/// `session_before` is transitive.
pub proof fn lemma_session_before_transitive(a: SessionV, b: SessionV, c: SessionV)
    requires
        session_before(a, b),
        session_before(b, c),
    ensures
        session_before(a, c),
{
    if seq_lt(a.started_at, b.started_at) && seq_lt(b.started_at, c.started_at) {
        crate::text::lemma_seq_lt_transitive(a.started_at, b.started_at, c.started_at);
    }
}

/// Sessions with different row numbers are ordered one way or the other, never both ways.
pub proof fn lemma_session_before_total(a: SessionV, b: SessionV)
    requires
        a.rowid != b.rowid,
    ensures
        session_before(a, b) || session_before(b, a),
        !(session_before(a, b) && session_before(b, a)),
{
    crate::text::lemma_seq_lt_total(a.started_at, b.started_at);
    crate::text::lemma_seq_lt_asymmetric(a.started_at, b.started_at);
    crate::text::lemma_seq_lt_irreflexive(a.started_at);
}

} // verus!
