//! The log database: sessions and captured lines, and the queries over them.
use vstd::prelude::*;
use crate::model::{
    SessionV, LogV, StoreV, log_before, session_before, insert_sorted, store_wf, empty_store,
    has_session, add_session_spec, insert_batch_spec, session_of, lemma_insert_sorted_at,
    lemma_log_before_transitive, lemma_log_before_total, lemma_session_before_transitive,
    lemma_session_before_total, LogEntryV, SessionSummaryV, StatsV, LogQuery, SessionQuery,
    joined, matching_entry, matching_newest_first, page, log_query_result,
    logs_of, last_log_at, first_log_at, session_matches, summarize,
    matching_sessions_newest_first, session_query_result, session_stats_result,
};
use crate::fold::{contains_chars_ci, starts_with_chars_ci};
use crate::instant::{
    opt_instant, clock_reading, clock_outcome, utc_rfc3339, utc_form, clock_now, utc_text,
    instant_of, instant_not_after,
};
use crate::text::to_chars;
use crate::since::{since_accepted, since_instant, since_reads_clock, since_instant_at, since_needs_clock};
use crate::text::{copy_str, copy_opt, opt_view, str_eq, str_lt};

verus! {

/// A stored session.
pub struct SessionRow {
    pub rowid: i64,
    pub id: String,
    pub repo: Option<String>,
    pub branch: Option<String>,
    pub commit_sha: Option<String>,
    pub started_at: String,
    pub cwd: Option<String>,
}

impl View for SessionRow {
    type V = SessionV;

    open spec fn view(&self) -> SessionV {
        SessionV {
            rowid: self.rowid as int,
            id: self.id@,
            repo: opt_view(self.repo),
            branch: opt_view(self.branch),
            commit_sha: opt_view(self.commit_sha),
            started_at: self.started_at@,
            cwd: opt_view(self.cwd),
        }
    }
}

/// A stored log line.
pub struct LogRow {
    pub id: i64,
    pub session_id: String,
    pub timestamp: String,
    pub line: String,
}

impl View for LogRow {
    type V = LogV;

    open spec fn view(&self) -> LogV {
        LogV {
            id: self.id as int,
            session_id: self.session_id@,
            timestamp: self.timestamp@,
            line: self.line@,
        }
    }
}

/// Why a write was refused.
#[derive(Debug, Clone, Copy, PartialEq, Eq)]
pub enum StoreError {
    /// A session with this id already exists (the id is the table's primary key).
    DuplicateSession,
    /// No row number or id is left.
    Full,
    /// A restored row's number is not above every number handed out so far.
    StaleRowNumber,
    /// The system clock could not be read as a time (it reads before 1970, or beyond the
    /// years that dates are kept for).
    NoClock,
}

/// The log database: every session and every captured line.
pub struct LogStore {
    sessions: Vec<SessionRow>,
    logs: Vec<LogRow>,
    last_session_rowid: i64,
    last_log_id: i64,
}

impl View for LogStore {
    type V = StoreV;

    closed spec fn view(&self) -> StoreV {
        StoreV {
            sessions: self.sessions@.map_values(|r: SessionRow| r@),
            logs: self.logs@.map_values(|r: LogRow| r@),
            last_session_rowid: self.last_session_rowid as int,
            last_log_id: self.last_log_id as int,
        }
    }
}

/// A copy of a session row.
pub fn copy_session_row(r: &SessionRow) -> (out: SessionRow)
    ensures
        out@ == r@,
{
    SessionRow {
        rowid: r.rowid,
        id: copy_str(r.id.as_str()),
        repo: copy_opt(&r.repo),
        branch: copy_opt(&r.branch),
        commit_sha: copy_opt(&r.commit_sha),
        started_at: copy_str(r.started_at.as_str()),
        cwd: copy_opt(&r.cwd),
    }
}

/// An owned copy of an optional borrowed string.
pub fn owned_opt(s: Option<&str>) -> (out: Option<String>)
    ensures
        out.is_some() == s.is_some(),
        s.is_some() ==> out.unwrap()@ == s.unwrap()@,
{
    match s {
        Some(v) => Some(copy_str(v)),
        None => None,
    }
}

/// The view of an optional borrowed string.
pub open spec fn opt_str_view(s: Option<&str>) -> Option<Seq<char>> {
    match s {
        Some(v) => Some(v@),
        None => None,
    }
}

/// Whether log row `a` sorts before log row `b`.
fn log_row_before(a: &LogRow, b: &LogRow) -> (r: bool)
    ensures
        r == log_before(a@, b@),
{
    if str_lt(a.timestamp.as_str(), b.timestamp.as_str()) {
        true
    } else if str_eq(a.timestamp.as_str(), b.timestamp.as_str()) {
        a.id < b.id
    } else {
        false
    }
}

/// Whether session row `a` sorts before session row `b`.
fn session_row_before(a: &SessionRow, b: &SessionRow) -> (r: bool)
    ensures
        r == session_before(a@, b@),
{
    if str_lt(a.started_at.as_str(), b.started_at.as_str()) {
        true
    } else if str_eq(a.started_at.as_str(), b.started_at.as_str()) {
        a.rowid < b.rowid
    } else {
        false
    }
}

/// Placing a log whose id differs from every other keeps the rows sorted.
proof fn lemma_insert_log_keeps_order(s: Seq<LogV>, r: LogV, p: int)
    requires
        0 <= p <= s.len(),
        forall|i: int, j: int| 0 <= i < j < s.len() ==> log_before(#[trigger] s[i], #[trigger] s[j]),
        forall|i: int| 0 <= i < s.len() ==> (#[trigger] s[i]).id != r.id,
        p == 0 || log_before(s[p - 1], r),
        forall|k: int| p <= k < s.len() ==> !log_before(#[trigger] s[k], r),
    ensures
        forall|i: int, j: int|
            0 <= i < j < s.insert(p, r).len() ==> log_before(
                #[trigger] s.insert(p, r)[i],
                #[trigger] s.insert(p, r)[j],
            ),
{
    let t = s.insert(p, r);
    assert forall|i: int, j: int| 0 <= i < j < t.len() implies log_before(
        #[trigger] t[i],
        #[trigger] t[j],
    ) by {
        if i < p && j == p {
            if i < p - 1 {
                lemma_log_before_transitive(s[i], s[p - 1], r);
            }
        } else if i == p {
            lemma_log_before_total(s[j - 1], r);
        } else if i < p && j > p {
            lemma_log_before_total(s[j - 1], r);
            if p > 0 {
                if i < p - 1 {
                    lemma_log_before_transitive(s[i], s[p - 1], r);
                }
                lemma_log_before_transitive(s[i], r, s[j - 1]);
            } else {
            }
        }
    }
}

/// Placing a session whose row number differs from every other keeps the rows sorted.
proof fn lemma_insert_session_keeps_order(s: Seq<SessionV>, r: SessionV, p: int)
    requires
        0 <= p <= s.len(),
        forall|i: int, j: int|
            0 <= i < j < s.len() ==> session_before(#[trigger] s[i], #[trigger] s[j]),
        forall|i: int| 0 <= i < s.len() ==> (#[trigger] s[i]).rowid != r.rowid,
        p == 0 || session_before(s[p - 1], r),
        forall|k: int| p <= k < s.len() ==> !session_before(#[trigger] s[k], r),
    ensures
        forall|i: int, j: int|
            0 <= i < j < s.insert(p, r).len() ==> session_before(
                #[trigger] s.insert(p, r)[i],
                #[trigger] s.insert(p, r)[j],
            ),
{
    let t = s.insert(p, r);
    assert forall|i: int, j: int| 0 <= i < j < t.len() implies session_before(
        #[trigger] t[i],
        #[trigger] t[j],
    ) by {
        if i < p && j == p {
            if i < p - 1 {
                lemma_session_before_transitive(s[i], s[p - 1], r);
            }
        } else if i == p {
            lemma_session_before_total(s[j - 1], r);
        } else if i < p && j > p {
            lemma_session_before_total(s[j - 1], r);
            if i < p - 1 {
                lemma_session_before_transitive(s[i], s[p - 1], r);
            }
            lemma_session_before_transitive(s[i], r, s[j - 1]);
        }
    }
}

impl LogStore {
    /// The database invariant holds.
    pub open spec fn wf(&self) -> bool {
        store_wf(self@)
    }

    /// Every store is well-formed: its ids are unique and within its counters, and its rows
    /// are in order.
    #[verifier::type_invariant]
    spec fn store_is_wf(self) -> bool {
        store_wf(self@)
    }

    /// Places a log row among the others in `(timestamp, id)` order.
    fn insert_log_row(&mut self, row: LogRow)
        requires
            old(self).wf(),
            old(self)@.last_log_id < row.id,
            row.id <= i64::MAX,
        ensures
            final(self).wf(),
            final(self)@ == (StoreV {
                logs: insert_sorted(old(self)@.logs, row@, |a: LogV, b: LogV| log_before(a, b)),
                last_log_id: row.id as int,
                ..old(self)@
            }),
    {
        let ghost old_logs = self@.logs;
        let mut p = self.logs.len();
        while p > 0 && !log_row_before(&self.logs[p - 1], &row)
            invariant
                p <= self.logs@.len(),
                self.logs@.map_values(|r: LogRow| r@) == old_logs,
                forall|k: int| p <= k < old_logs.len() ==> !log_before(#[trigger] old_logs[k], row@),
            decreases p,
        {
            p = p - 1;
        }
        proof {
            let before = |a: LogV, b: LogV| log_before(a, b);
            assert forall|k: int| p <= k < old_logs.len() implies !before(#[trigger] old_logs[k], row@) by {}
            lemma_insert_sorted_at(old_logs, row@, before, p as int);
            assert forall|i: int| 0 <= i < old_logs.len() implies (#[trigger] old_logs[i]).id != row@.id by {}
            lemma_insert_log_keeps_order(old_logs, row@, p as int);
        }
        let mut logs: Vec<LogRow> = Vec::new();
        std::mem::swap(&mut logs, &mut self.logs);
        self.last_log_id = row.id;
        logs.insert(p, row);
        assert(logs@.map_values(|r: LogRow| r@) =~= old_logs.insert(p as int, row@));
        self.logs = logs;
    }

    /// Places a session row among the others in `(started_at, rowid)` order.
    fn insert_session_row(&mut self, row: SessionRow)
        requires
            old(self).wf(),
            old(self)@.last_session_rowid < row.rowid,
            !has_session(old(self)@, row.id@),
        ensures
            final(self).wf(),
            final(self)@ == (StoreV {
                sessions: insert_sorted(
                    old(self)@.sessions,
                    row@,
                    |a: SessionV, b: SessionV| session_before(a, b),
                ),
                last_session_rowid: row.rowid as int,
                ..old(self)@
            }),
    {
        let ghost old_sessions = self@.sessions;
        let mut p = self.sessions.len();
        while p > 0 && !session_row_before(&self.sessions[p - 1], &row)
            invariant
                p <= self.sessions@.len(),
                self.sessions@.map_values(|r: SessionRow| r@) == old_sessions,
                forall|k: int|
                    p <= k < old_sessions.len() ==> !session_before(#[trigger] old_sessions[k], row@),
            decreases p,
        {
            p = p - 1;
        }
        proof {
            let before = |a: SessionV, b: SessionV| session_before(a, b);
            assert forall|k: int| p <= k < old_sessions.len() implies !before(
                #[trigger] old_sessions[k],
                row@,
            ) by {}
            lemma_insert_sorted_at(old_sessions, row@, before, p as int);
            assert forall|i: int| 0 <= i < old_sessions.len() implies (
            #[trigger] old_sessions[i]).rowid != row@.rowid by {}
            lemma_insert_session_keeps_order(old_sessions, row@, p as int);
        }
        let mut sessions: Vec<SessionRow> = Vec::new();
        std::mem::swap(&mut sessions, &mut self.sessions);
        self.last_session_rowid = row.rowid;
        sessions.insert(p, row);
        assert(sessions@.map_values(|r: SessionRow| r@) =~= old_sessions.insert(
            p as int,
            row@,
        ));
        proof {
            let s = sessions@.map_values(|r: SessionRow| r@);
            assert forall|i: int, j: int|
                0 <= i < s.len() && 0 <= j < s.len() && i != j implies #[trigger] s[i].id
                != #[trigger] s[j].id by {
                if i == p as int {
                    assert(s[j] == old_sessions[if j < p { j } else { j - 1 }]);
                } else if j == p as int {
                    assert(s[i] == old_sessions[if i < p { i } else { i - 1 }]);
                }
            }
        }
        self.sessions = sessions;
    }

    /// Whether a session with this id exists.
    pub fn has_session(&self, id: &str) -> (r: bool)
        ensures
            r == has_session(self@, id@),
    {
        let mut i: usize = 0;
        while i < self.sessions.len()
            invariant
                i <= self.sessions@.len(),
                forall|k: int| 0 <= k < i ==> (#[trigger] self@.sessions[k]).id != id@,
            decreases self.sessions@.len() - i,
        {
            if str_eq(self.sessions[i].id.as_str(), id) {
                assert(self@.sessions[i as int].id == id@);
                return true;
            }
            i = i + 1;
        }
        false
    }

    /// Adds a session started at `started_at`, with the next row number. Refused when the id
    /// is taken or no row number is left.
    pub fn add_session(
        &mut self,
        id: &str,
        repo: Option<&str>,
        branch: Option<&str>,
        commit_sha: Option<&str>,
        started_at: &str,
        cwd: Option<&str>,
    ) -> (r: Result<(), StoreError>)
        ensures
            r is Ok ==> final(self)@ == add_session_spec(
                old(self)@,
                id@,
                opt_str_view(repo),
                opt_str_view(branch),
                opt_str_view(commit_sha),
                started_at@,
                opt_str_view(cwd),
            ),
            r is Ok <==> !has_session(old(self)@, id@) && old(self)@.last_session_rowid
                < i64::MAX,
            r == Err::<(), StoreError>(StoreError::DuplicateSession) <==> has_session(
                old(self)@,
                id@,
            ),
            r == Err::<(), StoreError>(StoreError::Full) <==> !has_session(old(self)@, id@)
                && old(self)@.last_session_rowid == i64::MAX,
            r is Err ==> final(self)@ == old(self)@,
    {
        proof {
            use_type_invariant(&*self);
        }
        if self.has_session(id) {
            return Err(StoreError::DuplicateSession);
        }
        if self.last_session_rowid == i64::MAX {
            return Err(StoreError::Full);
        }
        let row = SessionRow {
            rowid: self.last_session_rowid + 1,
            id: copy_str(id),
            repo: owned_opt(repo),
            branch: owned_opt(branch),
            commit_sha: owned_opt(commit_sha),
            started_at: copy_str(started_at),
            cwd: owned_opt(cwd),
        };
        self.insert_session_row(row);
        Ok(())
    }

    /// Adds a session row read back from storage, keeping its row number.
    pub fn restore_session(&mut self, row: SessionRow) -> (r: Result<(), StoreError>)
        ensures
            r is Ok <==> !has_session(old(self)@, row.id@) && old(self)@.last_session_rowid
                < row.rowid,
            r == Err::<(), StoreError>(StoreError::DuplicateSession) <==> has_session(
                old(self)@,
                row.id@,
            ),
            r == Err::<(), StoreError>(StoreError::StaleRowNumber) <==> !has_session(
                old(self)@,
                row.id@,
            ) && row.rowid <= old(self)@.last_session_rowid,
            r is Ok ==> final(self)@ == (StoreV {
                sessions: insert_sorted(
                    old(self)@.sessions,
                    row@,
                    |a: SessionV, b: SessionV| session_before(a, b),
                ),
                last_session_rowid: row.rowid as int,
                ..old(self)@
            }),
            r is Err ==> final(self)@ == old(self)@,
    {
        proof {
            use_type_invariant(&*self);
        }
        if self.has_session(row.id.as_str()) {
            return Err(StoreError::DuplicateSession);
        }
        if row.rowid <= self.last_session_rowid {
            return Err(StoreError::StaleRowNumber);
        }
        self.insert_session_row(row);
        Ok(())
    }

    /// Adds a log row read back from storage, keeping its id.
    pub fn restore_log(&mut self, row: LogRow) -> (r: Result<(), StoreError>)
        ensures
            r is Ok <==> old(self)@.last_log_id < row.id,
            r is Err ==> r == Err::<(), StoreError>(StoreError::StaleRowNumber),
            r is Ok ==> final(self)@ == (StoreV {
                logs: insert_sorted(old(self)@.logs, row@, |a: LogV, b: LogV| log_before(a, b)),
                last_log_id: row.id as int,
                ..old(self)@
            }),
            r is Err ==> final(self)@ == old(self)@,
    {
        proof {
            use_type_invariant(&*self);
        }
        if row.id <= self.last_log_id {
            return Err(StoreError::StaleRowNumber);
        }
        self.insert_log_row(row);
        Ok(())
    }

    /// The session with this id, if there is one.
    pub fn find_session(&self, id: &str) -> (r: Option<SessionRow>)
        ensures
            r matches Some(s) ==> session_of(self@.sessions, id@) == Some(s@),
            r is None ==> session_of(self@.sessions, id@) is None,
    {
        proof {
            use_type_invariant(self);
        }
        let mut i = self.sessions.len();
        assert(self@.sessions.subrange(0, i as int) =~= self@.sessions);
        while i > 0
            invariant
                i <= self.sessions@.len(),
                session_of(self@.sessions.subrange(0, i as int), id@) == session_of(
                    self@.sessions,
                    id@,
                ),
            decreases i,
        {
            let ghost sub = self@.sessions.subrange(0, i as int);
            assert(sub.drop_last() =~= self@.sessions.subrange(0, i - 1));
            if str_eq(self.sessions[i - 1].id.as_str(), id) {
                return Some(copy_session_row(&self.sessions[i - 1]));
            }
            i = i - 1;
        }
        None
    }

    /// The number of stored sessions.
    pub fn session_count(&self) -> (n: usize)
        ensures
            n == self@.sessions.len(),
    {
        self.sessions.len()
    }

    /// The number of stored log lines.
    pub fn log_count(&self) -> (n: usize)
        ensures
            n == self@.logs.len(),
    {
        self.logs.len()
    }

    /// The largest log id handed out so far.
    pub fn last_log_id(&self) -> (n: i64)
        ensures
            n == self@.last_log_id,
    {
        self.last_log_id
    }
}

/// An empty database with both tables created.
pub fn open_memory_db() -> (r: LogStore)
    ensures
        r.wf(),
        r@ == empty_store(),
{
    let r = LogStore { sessions: Vec::new(), logs: Vec::new(), last_session_rowid: 0, last_log_id: 0 };
    assert(r@.sessions =~= Seq::<SessionV>::empty());
    assert(r@.logs =~= Seq::<LogV>::empty());
    r
}

/// Records a new session started now, as the collector does when it begins: its start time
/// is the UTC RFC 3339 text of the clock's reading. The clock is read first; where it cannot
/// be read, nothing is written and the error is `NoClock`.
pub fn create_session(
    conn: &mut LogStore,
    id: &str,
    repo: Option<&str>,
    branch: Option<&str>,
    commit_sha: Option<&str>,
    cwd: Option<&str>,
) -> (r: Result<(), StoreError>)
    ensures
        r is Ok ==> exists|now: (int, int)|
            clock_reading(now) && utc_form(utc_rfc3339(now.0, now.1)) && #[trigger] final(conn)@
                == add_session_spec(
                old(conn)@,
                id@,
                opt_str_view(repo),
                opt_str_view(branch),
                opt_str_view(commit_sha),
                utc_rfc3339(now.0, now.1),
                opt_str_view(cwd),
            ),
        r != Err::<(), StoreError>(StoreError::NoClock) ==> {
            &&& r is Ok <==> !has_session(old(conn)@, id@) && old(conn)@.last_session_rowid
                < i64::MAX
            &&& r == Err::<(), StoreError>(StoreError::DuplicateSession) <==> has_session(
                old(conn)@,
                id@,
            )
            &&& r == Err::<(), StoreError>(StoreError::Full) <==> !has_session(old(conn)@, id@)
                && old(conn)@.last_session_rowid == i64::MAX
        },
        r is Err ==> final(conn)@ == old(conn)@,
{
    proof {
        use_type_invariant(&*conn);
    }
    let now = match clock_now() {
        Some(c) => c,
        None => return Err(StoreError::NoClock),
    };
    let started_at = match utc_text(now.0, now.1) {
        Some(t) => t,
        None => {
            assert(false);
            String::new()
        },
    };
    let r = conn.add_session(id, repo, branch, commit_sha, started_at.as_str(), cwd);
    proof {
        let nv = (now.0 as int, now.1 as int);
        if r is Ok {
            assert(conn@ == add_session_spec(
                old(conn)@,
                id@,
                opt_str_view(repo),
                opt_str_view(branch),
                opt_str_view(commit_sha),
                utc_rfc3339(nv.0, nv.1),
                opt_str_view(cwd),
            ));
            assert(clock_reading(nv) && utc_form(utc_rfc3339(nv.0, nv.1)));
        }
    }
    r
}

/// The (timestamp, line) pairs of a batch as plain values.
pub open spec fn lines_view(lines: Seq<(String, String)>) -> Seq<(Seq<char>, Seq<char>)> {
    lines.map_values(|p: (String, String)| (p.0@, p.1@))
}

/// Inserts a batch of (timestamp, line) pairs for a session in one transaction: either all
/// lines are stored, with consecutive fresh ids in the given order, or none is (when the ids
/// would run out).
pub fn insert_logs_batch(conn: &mut LogStore, session_id: &str, lines: &[(String, String)]) -> (r:
    Result<(), StoreError>)
    ensures
        r is Ok <==> old(conn)@.last_log_id + lines@.len() <= i64::MAX,
        r is Ok ==> final(conn)@ == insert_batch_spec(old(conn)@, session_id@, lines_view(lines@)),
        r is Err ==> r == Err::<(), StoreError>(StoreError::Full) && final(conn)@ == old(conn)@,
{
    proof {
        use_type_invariant(&*conn);
    }
    let n = lines.len();
    if n as u64 > i64::MAX as u64 || conn.last_log_id as u64 + n as u64 > i64::MAX as u64 {
        return Err(StoreError::Full);
    }
    let ghost st0 = conn@;
    let ghost all = lines_view(lines@);
    let mut i: usize = 0;
    while i < n
        invariant
            n == lines@.len(),
            i <= n,
            all == lines_view(lines@),
            st0.last_log_id + n <= i64::MAX,
            conn.wf(),
            conn@ == insert_batch_spec(st0, session_id@, all.take(i as int)),
        decreases n - i,
    {
        let row = LogRow {
            id: conn.last_log_id + 1,
            session_id: copy_str(session_id),
            timestamp: copy_str(lines[i].0.as_str()),
            line: copy_str(lines[i].1.as_str()),
        };
        proof {
            assert(all.take(i + 1).drop_last() =~= all.take(i as int));
            assert(all.take(i + 1).last() == (lines@[i as int].0@, lines@[i as int].1@));
        }
        conn.insert_log_row(row);
        i = i + 1;
    }
    assert(all.take(n as int) =~= all);
    Ok(())
}


/// A log line as the log queries return it.
#[derive(Debug)]
pub struct LogEntry {
    pub id: i64,
    pub session_id: String,
    pub timestamp: String,
    pub line: String,
    pub branch: Option<String>,
}

impl View for LogEntry {
    type V = LogEntryV;

    open spec fn view(&self) -> LogEntryV {
        LogEntryV {
            id: self.id as int,
            session_id: self.session_id@,
            timestamp: self.timestamp@,
            line: self.line@,
            branch: opt_view(self.branch),
        }
    }
}

/// A session with its log figures, as `list_sessions` returns it.
#[derive(Debug)]
pub struct Session {
    pub id: String,
    pub repo: Option<String>,
    pub branch: Option<String>,
    pub commit_sha: Option<String>,
    pub started_at: String,
    pub last_log_at: Option<String>,
    pub cwd: Option<String>,
    pub log_count: i64,
}

impl View for Session {
    type V = SessionSummaryV;

    open spec fn view(&self) -> SessionSummaryV {
        SessionSummaryV {
            id: self.id@,
            repo: opt_view(self.repo),
            branch: opt_view(self.branch),
            commit_sha: opt_view(self.commit_sha),
            started_at: self.started_at@,
            last_log_at: opt_view(self.last_log_at),
            cwd: opt_view(self.cwd),
            log_count: self.log_count as int,
        }
    }
}

/// Summary figures of one session.
#[derive(Debug)]
pub struct Stats {
    pub session_id: String,
    pub repo: Option<String>,
    pub branch: Option<String>,
    pub commit_sha: Option<String>,
    pub started_at: String,
    pub total_lines: i64,
    pub first_log: Option<String>,
    pub last_log: Option<String>,
}

impl View for Stats {
    type V = StatsV;

    open spec fn view(&self) -> StatsV {
        StatsV {
            session_id: self.session_id@,
            repo: opt_view(self.repo),
            branch: opt_view(self.branch),
            commit_sha: opt_view(self.commit_sha),
            started_at: self.started_at@,
            total_lines: self.total_lines as int,
            first_log: opt_view(self.first_log),
            last_log: opt_view(self.last_log),
        }
    }
}

/// Filters of `search_logs`.
pub struct SearchFilters {
    pub branch: Option<String>,
    pub session_id: Option<String>,
    pub since: Option<String>,
    pub until: Option<String>,
    pub limit: u32,
}

/// Filters of `list_logs`.
pub struct LogsFilters {
    pub session_id: Option<String>,
    pub branch: Option<String>,
    pub since: Option<String>,
    pub until: Option<String>,
    pub limit: u32,
    pub offset: u32,
}

/// Filters of `list_sessions`.
pub struct SessionFilters {
    pub branch: Option<String>,
    pub commit: Option<String>,
    pub since: Option<String>,
    pub limit: u32,
}

/// The views of a list of log entries.
pub open spec fn entries_view(v: Seq<LogEntry>) -> Seq<LogEntryV> {
    v.map_values(|e: LogEntry| e@)
}

/// The views of a list of sessions.
pub open spec fn sessions_view(v: Seq<Session>) -> Seq<SessionSummaryV> {
    v.map_values(|e: Session| e@)
}

/// The view of optional stats.
pub open spec fn stats_view(s: Option<Stats>) -> Option<StatsV> {
    match s {
        Some(v) => Some(v@),
        None => None,
    }
}

/// The instant that a time-bound filter names, given what a read of the clock gave; no filter
/// names none.
pub open spec fn bound_at(filter: Option<Seq<char>>, now: Option<(int, int)>) -> Option<(int, int)> {
    match filter {
        Some(s) => since_instant(s, now),
        None => None,
    }
}

/// A time-bound filter depends on the clock.
pub open spec fn bound_reads_clock(filter: Option<Seq<char>>) -> bool {
    match filter {
        Some(s) => since_reads_clock(s),
        None => false,
    }
}

/// A time-bound filter is absent or accepted by `parse_since`.
pub open spec fn bound_accepted(filter: Option<String>) -> bool {
    match filter {
        Some(s) => since_accepted(s@),
        None => true,
    }
}

/// Executable form of a log query.
struct LogQueryArgs {
    pattern: Option<Vec<char>>,
    session_id: Option<String>,
    branch: Option<String>,
    since: Option<(i64, u32)>,
    until: Option<(i64, u32)>,
}

impl View for LogQueryArgs {
    type V = LogQuery;

    closed spec fn view(&self) -> LogQuery {
        LogQuery {
            pattern: match self.pattern {
                Some(p) => Some(p@),
                None => None,
            },
            session_id: opt_view(self.session_id),
            branch: opt_view(self.branch),
            since: opt_instant(self.since),
            until: opt_instant(self.until),
        }
    }
}

/// Running a query over the newest `n - k` logs gives a prefix of running it over all.
proof fn lemma_matching_prefix(sessions: Seq<SessionV>, logs: Seq<LogV>, q: LogQuery, j: int, k: int)
    requires
        0 <= j <= k <= logs.len(),
    ensures
        matching_newest_first(sessions, logs.subrange(j, logs.len() as int), q).len()
            >= matching_newest_first(sessions, logs.subrange(k, logs.len() as int), q).len(),
        matching_newest_first(sessions, logs.subrange(j, logs.len() as int), q).take(
            matching_newest_first(sessions, logs.subrange(k, logs.len() as int), q).len() as int,
        ) == matching_newest_first(sessions, logs.subrange(k, logs.len() as int), q),
    decreases k - j,
{
    let n = logs.len() as int;
    let b = matching_newest_first(sessions, logs.subrange(k, n), q);
    if j == k {
        assert(b.take(b.len() as int) =~= b);
    } else {
        lemma_matching_prefix(sessions, logs, q, j + 1, k);
        assert(logs.subrange(j, n).drop_first() =~= logs.subrange(j + 1, n));
        let c = matching_newest_first(sessions, logs.subrange(j + 1, n), q);
        let a = matching_newest_first(sessions, logs.subrange(j, n), q);
        assert(c.take(b.len() as int) == b);
        if matching_entry(sessions, logs[j], q) is Some {
            assert(a == c.push(matching_entry(sessions, logs[j], q).unwrap()));
            assert(a.take(b.len() as int) =~= c.take(b.len() as int));
        } else {
            assert(a == c);
        }
    }
}

/// Running a session query over the newest sessions gives a prefix of running it over all.
proof fn lemma_session_matching_prefix(
    sessions: Seq<SessionV>,
    logs: Seq<LogV>,
    q: SessionQuery,
    j: int,
    k: int,
)
    requires
        0 <= j <= k <= sessions.len(),
    ensures
        matching_sessions_newest_first(sessions.subrange(j, sessions.len() as int), logs, q).len()
            >= matching_sessions_newest_first(
            sessions.subrange(k, sessions.len() as int),
            logs,
            q,
        ).len(),
        matching_sessions_newest_first(sessions.subrange(j, sessions.len() as int), logs, q).take(
            matching_sessions_newest_first(
                sessions.subrange(k, sessions.len() as int),
                logs,
                q,
            ).len() as int,
        ) == matching_sessions_newest_first(sessions.subrange(k, sessions.len() as int), logs, q),
    decreases k - j,
{
    let n = sessions.len() as int;
    let b = matching_sessions_newest_first(sessions.subrange(k, n), logs, q);
    if j == k {
        assert(b.take(b.len() as int) =~= b);
    } else {
        lemma_session_matching_prefix(sessions, logs, q, j + 1, k);
        assert(sessions.subrange(j, n).drop_first() =~= sessions.subrange(j + 1, n));
        let c = matching_sessions_newest_first(sessions.subrange(j + 1, n), logs, q);
        let a = matching_sessions_newest_first(sessions.subrange(j, n), logs, q);
        if session_matches(sessions[j], q) {
            assert(a == c.push(summarize(sessions[j], logs)));
            assert(a.take(b.len() as int) =~= c.take(b.len() as int));
        } else {
            assert(a == c);
        }
    }
}

/// A page only looks at the first `offset + limit` elements.
proof fn lemma_page_of_prefix<A>(a: Seq<A>, b: Seq<A>, offset: int, limit: int)
    requires
        0 <= offset,
        0 <= limit,
        a.len() <= b.len(),
        b.take(a.len() as int) == a,
        a.len() >= offset + limit || a.len() == b.len(),
    ensures
        page(a, offset, limit) == page(b, offset, limit),
{
    if a.len() == b.len() {
        assert(a =~= b);
    } else {
        if offset < a.len() {
            assert(page(a, offset, limit) =~= page(b, offset, limit));
        }
    }
}

/// `LIMIT limit OFFSET offset` of a vector's elements.
fn page_vec<T>(v: Vec<T>, offset: u32, limit: u32) -> (out: Vec<T>)
    ensures
        out@ == page(v@, offset as int, limit as int),
{
    let n = v.len();
    let off = offset as usize;
    if off >= n {
        return Vec::new();
    }
    let end: usize = if (n - off) as u64 <= limit as u64 {
        n
    } else {
        off + limit as usize
    };
    let ghost old_v = v@;
    let mut v = v;
    v.truncate(end);
    let out = v.split_off(off);
    assert(out@ =~= page(old_v, offset as int, limit as int));
    out
}

impl LogStore {
    /// The session that a log row belongs to, as `session_of` finds it.
    fn session_index(&self, sid: &str) -> (r: Option<usize>)
        requires
            self.wf(),
        ensures
            r matches Some(i) ==> i < self@.sessions.len() && session_of(self@.sessions, sid@)
                == Some(self@.sessions[i as int]),
            r is None ==> session_of(self@.sessions, sid@) is None,
    {
        let mut i = self.sessions.len();
        assert(self@.sessions.subrange(0, i as int) =~= self@.sessions);
        while i > 0
            invariant
                i <= self.sessions@.len(),
                session_of(self@.sessions.subrange(0, i as int), sid@) == session_of(
                    self@.sessions,
                    sid@,
                ),
            decreases i,
        {
            let ghost sub = self@.sessions.subrange(0, i as int);
            assert(sub.drop_last() =~= self@.sessions.subrange(0, i - 1));
            if str_eq(self.sessions[i - 1].id.as_str(), sid) {
                return Some(i - 1);
            }
            i = i - 1;
        }
        None
    }

    /// The log row joined with its session, when it meets the query.
    fn matching_entry_of(&self, l: &LogRow, q: &LogQueryArgs) -> (r: Option<LogEntry>)
        requires
            self.wf(),
        ensures
            r matches Some(e) ==> matching_entry(self@.sessions, l@, q@) == Some(e@),
            r is None ==> matching_entry(self@.sessions, l@, q@) is None,
    {
        let si = match self.session_index(l.session_id.as_str()) {
            Some(i) => i,
            None => return None,
        };
        let s = &self.sessions[si];
        let ghost e = joined(self@.sessions, l@).unwrap();
        match &q.pattern {
            Some(p) => {
                let line = to_chars(l.line.as_str());
                if !contains_chars_ci(&line, p) {
                    return None;
                }
            },
            None => {},
        }
        match &q.session_id {
            Some(sid) => {
                if !str_eq(l.session_id.as_str(), sid.as_str()) {
                    return None;
                }
            },
            None => {},
        }
        match &q.branch {
            Some(b) => match &s.branch {
                Some(sb) => {
                    if !str_eq(sb.as_str(), b.as_str()) {
                        return None;
                    }
                },
                None => {
                    return None;
                },
            },
            None => {},
        }
        if q.since.is_some() || q.until.is_some() {
            let at = match instant_of(l.timestamp.as_str()) {
                Some(i) => i,
                None => return None,
            };
            match q.since {
                Some(b) => {
                    if !instant_not_after(b, at) {
                        return None;
                    }
                },
                None => {},
            }
            match q.until {
                Some(b) => {
                    if !instant_not_after(at, b) {
                        return None;
                    }
                },
                None => {},
            }
        }
        Some(
            LogEntry {
                id: l.id,
                session_id: copy_str(l.session_id.as_str()),
                timestamp: copy_str(l.timestamp.as_str()),
                line: copy_str(l.line.as_str()),
                branch: copy_opt(&s.branch),
            },
        )
    }

    /// Runs a log query: matching entries, newest first, `LIMIT limit OFFSET offset`.
    fn run_log_query(&self, q: &LogQueryArgs, limit: u32, offset: u32) -> (r: Vec<LogEntry>)
        requires
            self.wf(),
        ensures
            entries_view(r@) == log_query_result(self@, q@, limit as int, offset as int),
    {
        let n = self.logs.len();
        let cap: u64 = limit as u64 + offset as u64;
        let ghost logs = self@.logs;
        let ghost sessions = self@.sessions;
        let mut found: Vec<LogEntry> = Vec::new();
        let mut k = n;
        assert(logs.subrange(n as int, n as int) =~= Seq::<LogV>::empty());
        while k > 0 && (found.len() as u64) < cap
            invariant
                n == self.logs@.len(),
                logs == self@.logs,
                sessions == self@.sessions,
                self.wf(),
                k <= n,
                entries_view(found@) == matching_newest_first(
                    sessions,
                    logs.subrange(k as int, n as int),
                    q@,
                ),
            decreases k,
        {
            assert(logs.subrange(k - 1, n as int).drop_first() =~= logs.subrange(
                k as int,
                n as int,
            ));
            assert(logs.subrange(k - 1, n as int)[0] == logs[k - 1]);
            assert(self.logs@[k - 1]@ == logs[k - 1]);
            match self.matching_entry_of(&self.logs[k - 1], q) {
                Some(e) => {
                    found.push(e);
                    assert(entries_view(found@) =~= matching_newest_first(
                        sessions,
                        logs.subrange(k as int, n as int),
                        q@,
                    ).push(e@));
                },
                None => {},
            }
            k = k - 1;
        }
        proof {
            lemma_matching_prefix(sessions, logs, q@, 0, k as int);
            assert(logs.subrange(0, n as int) =~= logs);
            lemma_page_of_prefix(
                entries_view(found@),
                matching_newest_first(sessions, logs, q@),
                offset as int,
                limit as int,
            );
        }
        let out = page_vec(found, offset, limit);
        proof {
            let fv = entries_view(found@);
            assert(entries_view(out@) =~= page(fv, offset as int, limit as int));
        }
        out
    }
}

/// The instant that a time-bound filter names, given what a read of the clock gave.
fn resolve_bound(filter: &Option<String>, now: Option<(i64, u32)>) -> (r: Option<(i64, u32)>)
    requires
        bound_accepted(*filter),
        clock_outcome(opt_instant(now)),
    ensures
        opt_instant(r) == bound_at(opt_view(*filter), opt_instant(now)),
{
    match filter {
        Some(s) => since_instant_at(s.as_str(), now),
        None => None,
    }
}

/// Whether a time-bound filter depends on the clock.
fn bound_needs_clock(filter: &Option<String>) -> (r: bool)
    ensures
        r == bound_reads_clock(opt_view(*filter)),
{
    match filter {
        Some(s) => since_needs_clock(s.as_str()),
        None => false,
    }
}

/// Reads the clock when one of two time-bound filters depends on it; otherwise the clock is
/// left unread (`None`).
fn clock_for(a: &Option<String>, b: &Option<String>) -> (now: Option<(i64, u32)>)
    ensures
        clock_outcome(opt_instant(now)),
{
    if bound_needs_clock(a) || bound_needs_clock(b) {
        clock_now()
    } else {
        None
    }
}

/// The log query that `list_logs` runs given what a read of the clock gave.
pub open spec fn logs_query(filters: &LogsFilters, now: Option<(int, int)>) -> LogQuery {
    LogQuery {
        pattern: None,
        session_id: opt_view(filters.session_id),
        branch: opt_view(filters.branch),
        since: bound_at(opt_view(filters.since), now),
        until: bound_at(opt_view(filters.until), now),
    }
}

/// The log query that `search_logs` runs given what a read of the clock gave.
pub open spec fn search_query(
    pattern: Seq<char>,
    filters: &SearchFilters,
    now: Option<(int, int)>,
) -> LogQuery {
    LogQuery {
        pattern: Some(pattern),
        session_id: opt_view(filters.session_id),
        branch: opt_view(filters.branch),
        since: bound_at(opt_view(filters.since), now),
        until: bound_at(opt_view(filters.until), now),
    }
}

/// The session query that `list_sessions` runs given what a read of the clock gave.
pub open spec fn sessions_query(filters: &SessionFilters, now: Option<(int, int)>) -> SessionQuery {
    SessionQuery {
        branch: opt_view(filters.branch),
        commit_prefix: opt_view(filters.commit),
        since: bound_at(opt_view(filters.since), now),
    }
}

/// `list_logs` given what a read of the clock gave (`now`): the logs of existing sessions that meet the
/// filters, newest first, `LIMIT limit OFFSET offset`.
pub fn list_logs_at(conn: &LogStore, filters: &LogsFilters, now: Option<(i64, u32)>) -> (r: Vec<LogEntry>)
    requires
        bound_accepted(filters.since),
        bound_accepted(filters.until),
        clock_outcome(opt_instant(now)),
    ensures
        entries_view(r@) == log_query_result(
            conn@,
            logs_query(filters, opt_instant(now)),
            filters.limit as int,
            filters.offset as int,
        ),
{
    proof {
        use_type_invariant(conn);
    }
    let q = LogQueryArgs {
        pattern: None,
        session_id: copy_opt(&filters.session_id),
        branch: copy_opt(&filters.branch),
        since: resolve_bound(&filters.since, now),
        until: resolve_bound(&filters.until, now),
    };
    conn.run_log_query(&q, filters.limit, filters.offset)
}

/// Browses log lines: those of existing sessions that meet the filters, newest first,
/// `LIMIT limit OFFSET offset`. `since`/`until` are inclusive bounds on the instant of each
/// line's timestamp, given as RFC 3339 timestamps (any offset) or as spans (`1h`, `30m`,
/// `2d`, `60s`) before the clock's reading; a bound that is neither is ignored.
pub fn list_logs(conn: &LogStore, filters: &LogsFilters) -> (r: Vec<LogEntry>)
    requires
        bound_accepted(filters.since),
        bound_accepted(filters.until),
    ensures
        exists|now: Option<(int, int)>|
            clock_outcome(now) && #[trigger] entries_view(r@) == log_query_result(
                conn@,
                logs_query(filters, now),
                filters.limit as int,
                filters.offset as int,
            ),
{
    proof {
        use_type_invariant(conn);
    }
    let now = clock_for(&filters.since, &filters.until);
    let r = list_logs_at(conn, filters, now);
    r
}

/// `search_logs` given what a read of the clock gave (`now`): the logs of existing sessions whose line
/// contains `pattern` (letter case aside) and that meet the filters, newest first, at most
/// `limit`.
pub fn search_logs_at(conn: &LogStore, pattern: &str, filters: &SearchFilters, now: Option<(i64, u32)>) -> (r:
    Vec<LogEntry>)
    requires
        bound_accepted(filters.since),
        bound_accepted(filters.until),
        clock_outcome(opt_instant(now)),
    ensures
        entries_view(r@) == log_query_result(
            conn@,
            search_query(pattern@, filters, opt_instant(now)),
            filters.limit as int,
            0,
        ),
{
    proof {
        use_type_invariant(conn);
    }
    let q = LogQueryArgs {
        pattern: Some(to_chars(pattern)),
        session_id: copy_opt(&filters.session_id),
        branch: copy_opt(&filters.branch),
        since: resolve_bound(&filters.since, now),
        until: resolve_bound(&filters.until, now),
    };
    conn.run_log_query(&q, filters.limit, 0)
}

/// Finds log lines that contain the keyword `pattern`, case-insensitively for ASCII letters
/// (every character of the keyword stands for itself), among the logs of existing sessions
/// that meet the filters, newest first, at most `limit`. Time bounds as for `list_logs`.
pub fn search_logs(conn: &LogStore, pattern: &str, filters: &SearchFilters) -> (r: Vec<LogEntry>)
    requires
        bound_accepted(filters.since),
        bound_accepted(filters.until),
    ensures
        exists|now: Option<(int, int)>|
            clock_outcome(now) && #[trigger] entries_view(r@) == log_query_result(
                conn@,
                search_query(pattern@, filters, now),
                filters.limit as int,
                0,
            ),
{
    proof {
        use_type_invariant(conn);
    }
    let now = clock_for(&filters.since, &filters.until);
    let r = search_logs_at(conn, pattern, filters, now);
    r
}

/// The number of logs of a session is at most the number of logs.
proof fn lemma_logs_of_len(logs: Seq<LogV>, sid: Seq<char>)
    ensures
        logs_of(logs, sid).len() <= logs.len(),
    decreases logs.len(),
{
    if logs.len() > 0 {
        lemma_logs_of_len(logs.drop_last(), sid);
    }
}

impl LogStore {
    /// The number of logs of session `sid` and their first and last timestamps.
    fn log_figures(&self, sid: &str) -> (r: (i64, Option<String>, Option<String>))
        requires
            self.wf(),
        ensures
            r.0 == logs_of(self@.logs, sid@).len(),
            opt_view(r.1) == first_log_at(self@.logs, sid@),
            opt_view(r.2) == last_log_at(self@.logs, sid@),
    {
        let ghost logs = self@.logs;
        let n = self.logs.len();
        let mut count: i64 = 0;
        let mut first: Option<String> = None;
        let mut last: Option<String> = None;
        let mut i: usize = 0;
        assert(logs.take(0) =~= Seq::<LogV>::empty());
        while i < n
            invariant
                n == logs.len(),
                logs == self@.logs,
                self.wf(),
                i <= n,
                count == logs_of(logs.take(i as int), sid@).len(),
                opt_view(first) == first_log_at(logs.take(i as int), sid@),
                opt_view(last) == last_log_at(logs.take(i as int), sid@),
            decreases n - i,
        {
            proof {
                assert(logs.take(i + 1).drop_last() =~= logs.take(i as int));
                assert(logs.take(i + 1).last() == logs[i as int]);
                lemma_logs_of_len(logs.take(i as int), sid@);
            }
            let l = &self.logs[i];
            assert(l@ == logs[i as int]);
            if str_eq(l.session_id.as_str(), sid) {
                if count == 0 {
                    first = Some(copy_str(l.timestamp.as_str()));
                }
                last = Some(copy_str(l.timestamp.as_str()));
                count = count + 1;
                proof {
                    let before = logs_of(logs.take(i as int), sid@);
                    let after = logs_of(logs.take(i + 1), sid@);
                    assert(after == before.push(logs[i as int]));
                    if before.len() > 0 {
                        assert(after[0] == before[0]);
                    }
                }
            }
            i = i + 1;
        }
        assert(logs.take(n as int) =~= logs);
        (count, first, last)
    }

    /// A session with its log figures.
    fn summary_of(&self, s: &SessionRow) -> (r: Session)
        requires
            self.wf(),
        ensures
            r@ == summarize(s@, self@.logs),
    {
        let (count, _first, last) = self.log_figures(s.id.as_str());
        Session {
            id: copy_str(s.id.as_str()),
            repo: copy_opt(&s.repo),
            branch: copy_opt(&s.branch),
            commit_sha: copy_opt(&s.commit_sha),
            started_at: copy_str(s.started_at.as_str()),
            last_log_at: last,
            cwd: copy_opt(&s.cwd),
            log_count: count,
        }
    }

    /// Whether a session meets a session query.
    fn session_meets(
        &self,
        s: &SessionRow,
        branch: &Option<String>,
        commit_prefix: &Option<Vec<char>>,
        since: Option<(i64, u32)>,
    ) -> (r: bool)
        ensures
            r == session_matches(
                s@,
                SessionQuery {
                    branch: opt_view(*branch),
                    commit_prefix: match *commit_prefix {
                        Some(p) => Some(p@),
                        None => None,
                    },
                    since: opt_instant(since),
                },
            ),
    {
        match branch {
            Some(b) => match &s.branch {
                Some(sb) => {
                    if !str_eq(sb.as_str(), b.as_str()) {
                        return false;
                    }
                },
                None => {
                    return false;
                },
            },
            None => {},
        }
        match commit_prefix {
            Some(p) => match &s.commit_sha {
                Some(c) => {
                    let cc = to_chars(c.as_str());
                    if !starts_with_chars_ci(&cc, p) {
                        return false;
                    }
                },
                None => {
                    return false;
                },
            },
            None => {},
        }
        match since {
            Some(b) => match instant_of(s.started_at.as_str()) {
                Some(at) => instant_not_after(b, at),
                None => false,
            },
            None => true,
        }
    }
}

/// `list_sessions` given what a read of the clock gave (`now`): the sessions that meet the filters, newest
/// first, at most `limit`, each with its log count and the timestamp of its latest log.
pub fn list_sessions_at(conn: &LogStore, filters: &SessionFilters, now: Option<(i64, u32)>) -> (r: Vec<
    Session,
>)
    requires
        bound_accepted(filters.since),
        clock_outcome(opt_instant(now)),
    ensures
        sessions_view(r@) == session_query_result(
            conn@,
            sessions_query(filters, opt_instant(now)),
            filters.limit as int,
        ),
{
    proof {
        use_type_invariant(conn);
    }
    let since = resolve_bound(&filters.since, now);
    let commit_prefix: Option<Vec<char>> = match &filters.commit {
        Some(c) => Some(to_chars(c.as_str())),
        None => None,
    };
    let ghost q = sessions_query(filters, opt_instant(now));
    let ghost sessions = conn@.sessions;
    let ghost logs = conn@.logs;
    let n = conn.sessions.len();
    let cap: u64 = filters.limit as u64;
    let mut found: Vec<Session> = Vec::new();
    let mut k = n;
    assert(sessions.subrange(n as int, n as int) =~= Seq::<SessionV>::empty());
    while k > 0 && (found.len() as u64) < cap
        invariant
            n == conn.sessions@.len(),
            sessions == conn@.sessions,
            logs == conn@.logs,
            conn.wf(),
            q == (SessionQuery {
                branch: opt_view(filters.branch),
                commit_prefix: match commit_prefix {
                    Some(p) => Some(p@),
                    None => None,
                },
                since: opt_instant(since),
            }),
            k <= n,
            sessions_view(found@) == matching_sessions_newest_first(
                sessions.subrange(k as int, n as int),
                logs,
                q,
            ),
        decreases k,
    {
        assert(sessions.subrange(k - 1, n as int).drop_first() =~= sessions.subrange(
            k as int,
            n as int,
        ));
        assert(sessions.subrange(k - 1, n as int)[0] == sessions[k - 1]);
        assert(conn.sessions@[k - 1]@ == sessions[k - 1]);
        let s = &conn.sessions[k - 1];
        if conn.session_meets(s, &filters.branch, &commit_prefix, since) {
            let summary = conn.summary_of(s);
            found.push(summary);
            assert(sessions_view(found@) =~= matching_sessions_newest_first(
                sessions.subrange(k as int, n as int),
                logs,
                q,
            ).push(summary@));
        }
        k = k - 1;
    }
    proof {
        lemma_session_matching_prefix(sessions, logs, q, 0, k as int);
        assert(sessions.subrange(0, n as int) =~= sessions);
        lemma_page_of_prefix(
            sessions_view(found@),
            matching_sessions_newest_first(sessions, logs, q),
            0,
            filters.limit as int,
        );
    }
    let out = page_vec(found, 0, filters.limit);
    proof {
        let fv = sessions_view(found@);
        assert(sessions_view(out@) =~= page(fv, 0, filters.limit as int));
    }
    out
}

/// Lists recorded sessions that meet the filters, newest first, at most `limit`, each with
/// its log count and the timestamp of its latest log. `commit` matches as a prefix of the
/// commit, case-insensitively for ASCII letters; `since` is an inclusive lower bound on the
/// instant of the start time, given as for `list_logs`.
pub fn list_sessions(conn: &LogStore, filters: &SessionFilters) -> (r: Vec<Session>)
    requires
        bound_accepted(filters.since),
    ensures
        exists|now: Option<(int, int)>|
            clock_outcome(now) && #[trigger] sessions_view(r@) == session_query_result(
                conn@,
                sessions_query(filters, now),
                filters.limit as int,
            ),
{
    proof {
        use_type_invariant(conn);
    }
    let now = clock_for(&filters.since, &None);
    let r = list_sessions_at(conn, filters, now);
    r
}

/// Summary figures of a session: the one given, or else the most recently started one.
/// `None` when that session does not exist.
pub fn session_stats(conn: &LogStore, session_id: Option<&str>) -> (r: Option<Stats>)
    ensures
        stats_view(r) == session_stats_result(conn@, opt_str_view(session_id)),
{
    proof {
        use_type_invariant(conn);
    }
    let sid: String = match session_id {
        Some(id) => copy_str(id),
        None => {
            let n = conn.sessions.len();
            if n == 0 {
                return None;
            }
            assert(conn.sessions@[n - 1]@ == conn@.sessions.last());
            copy_str(conn.sessions[n - 1].id.as_str())
        },
    };
    let s = match conn.find_session(sid.as_str()) {
        Some(s) => s,
        None => return None,
    };
    let (total, first, last) = conn.log_figures(sid.as_str());
    Some(
        Stats {
            session_id: sid,
            repo: s.repo,
            branch: s.branch,
            commit_sha: s.commit_sha,
            started_at: s.started_at,
            total_lines: total,
            first_log: first,
            last_log: last,
        },
    )
}

} // verus!
