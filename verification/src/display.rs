//! The text lines that the command line prints for logs, sessions and stats.
use vstd::prelude::*;
use vstd::string::StringExecFns;
use crate::db::{LogEntry, Session, Stats};
use crate::model::{LogEntryV, SessionSummaryV, StatsV};
use crate::number::{int_decimal, i64_to_string};
use crate::text::{to_chars, copy_str, string_from_range};
use crate::text::{utf8_width, width};

verus! {

/// The characters that make up the first `n` bytes of `s` in UTF-8, as `&s[..n]` gives
/// them; `None` where that slice panics (fewer bytes, or `n` inside a character).
pub open spec fn byte_prefix(s: Seq<char>, n: int) -> Option<Seq<char>>
    decreases s.len(),
{
    if n == 0 {
        Some(Seq::empty())
    } else if s.len() == 0 || utf8_width(s[0]) > n {
        None
    } else {
        match byte_prefix(s.drop_first(), n - utf8_width(s[0])) {
            Some(p) => Some(seq![s[0]] + p),
            None => None,
        }
    }
}

/// The first `n` bytes of `s`, or `None` where slicing `&s[..n]` would panic.
pub fn prefix_bytes(s: &str, n: usize) -> (r: Option<String>)
    ensures
        r matches Some(p) ==> byte_prefix(s@, n as int) == Some(p@),
        r is None ==> byte_prefix(s@, n as int) is None,
{
    let chars = to_chars(s);
    let mut k: usize = 0;
    let mut left: usize = n;
    assert(chars@.subrange(0, 0) =~= Seq::<char>::empty());
    assert(chars@.subrange(0, chars@.len() as int) =~= s@);
    proof {
        match byte_prefix(s@, n as int) {
            Some(p) => {
                assert(chars@.subrange(0, 0) + p =~= p);
            },
            None => {},
        }
    }
    while left > 0
        invariant
            k <= chars@.len(),
            left <= n,
            byte_prefix(s@, n as int) == match byte_prefix(chars@.subrange(k as int, chars@.len() as int), left as int) {
                Some(p) => Some(chars@.subrange(0, k as int) + p),
                None => None,
            },
            chars@ == s@,
        decreases left,
    {
        let ghost rest = chars@.subrange(k as int, chars@.len() as int);
        if k == chars.len() {
            return None;
        }
        let w = width(chars[k]);
        if w > left {
            return None;
        }
        proof {
            assert(rest[0] == chars@[k as int]);
            assert(rest.drop_first() =~= chars@.subrange(k + 1, chars@.len() as int));
            match byte_prefix(rest.drop_first(), left - w) {
                Some(p) => {
                    assert(chars@.subrange(0, k as int) + (seq![rest[0]] + p) =~= chars@.subrange(
                        0,
                        k + 1,
                    ) + p);
                },
                None => {},
            }
        }
        left = left - w;
        k = k + 1;
    }
    proof {
        let rest = chars@.subrange(k as int, chars@.len() as int);
        assert(chars@.subrange(0, k as int) + Seq::<char>::empty() =~= chars@.subrange(0, k as int));
    }
    Some(string_from_range(&chars, 0, k))
}

/// ` [<branch>]` for a session with a branch, nothing otherwise.
pub open spec fn branch_suffix(branch: Option<Seq<char>>) -> Seq<char> {
    match branch {
        Some(b) => " ["@ + b + "]"@,
        None => Seq::empty(),
    }
}

/// The line printed for a log entry: `<id[..8]> <timestamp>[ [branch]]  <line>`; `None`
/// where the id slice panics.
pub open spec fn log_line_spec(e: LogEntryV) -> Option<Seq<char>> {
    match byte_prefix(e.session_id, 8) {
        Some(p) => Some(p + " "@ + e.timestamp + branch_suffix(e.branch) + "  "@ + e.line),
        None => None,
    }
}

/// The line printed for a log entry by `logs` and `search`.
pub fn log_line(e: &LogEntry) -> (r: Option<String>)
    ensures
        r matches Some(s) ==> log_line_spec(e@) == Some(s@),
        r is None ==> log_line_spec(e@) is None,
{
    let mut out = match prefix_bytes(e.session_id.as_str(), 8) {
        Some(p) => p,
        None => return None,
    };
    out.append(" ");
    out.append(e.timestamp.as_str());
    match &e.branch {
        Some(b) => {
            out.append(" [");
            out.append(b.as_str());
            out.append("]");
        },
        None => {},
    }
    out.append("  ");
    out.append(e.line.as_str());
    proof {
        let p = byte_prefix(e.session_id@, 8).unwrap();
        assert(out@ =~= p + " "@ + e.timestamp@ + branch_suffix(e@.branch) + "  "@ + e.line@);
    }
    Some(out)
}

/// An optional text, or a placeholder.
pub open spec fn or_text(v: Option<Seq<char>>, d: Seq<char>) -> Seq<char> {
    match v {
        Some(x) => x,
        None => d,
    }
}

fn text_or(v: &Option<String>, d: &str) -> (r: String)
    ensures
        r@ == or_text(crate::text::opt_view(*v), d@),
{
    match v {
        Some(x) => copy_str(x.as_str()),
        None => copy_str(d),
    }
}

/// The line printed for a session by `sessions`:
/// `<id[..8]> | <repo> @ <branch> (<sha[..7]>) | started <t> | last log <t> | <n> lines`,
/// with placeholders for missing values; `None` where an id or commit slice panics.
pub open spec fn session_line_spec(s: SessionSummaryV) -> Option<Seq<char>> {
    let sha = match s.commit_sha {
        Some(c) => byte_prefix(c, 7),
        None => Some("-------"@),
    };
    match (sha, byte_prefix(s.id, 8)) {
        (Some(sha), Some(id)) => Some(
            id + " | "@ + or_text(s.repo, "(no repo)"@) + " @ "@ + or_text(s.branch, "(no branch)"@)
                + " ("@ + sha + ") | started "@ + s.started_at + " | last log "@ + or_text(
                s.last_log_at,
                "(no logs)"@,
            ) + " | "@ + int_decimal(s.log_count) + " lines"@,
        ),
        _ => None,
    }
}

/// The line printed for a session by `sessions`.
pub fn session_line(s: &Session) -> (r: Option<String>)
    ensures
        r matches Some(x) ==> session_line_spec(s@) == Some(x@),
        r is None ==> session_line_spec(s@) is None,
{
    let sha = match &s.commit_sha {
        Some(c) => match prefix_bytes(c.as_str(), 7) {
            Some(p) => p,
            None => return None,
        },
        None => copy_str("-------"),
    };
    let mut out = match prefix_bytes(s.id.as_str(), 8) {
        Some(p) => p,
        None => return None,
    };
    let repo = text_or(&s.repo, "(no repo)");
    let branch = text_or(&s.branch, "(no branch)");
    let last = text_or(&s.last_log_at, "(no logs)");
    let count = i64_to_string(s.log_count);
    out.append(" | ");
    out.append(repo.as_str());
    out.append(" @ ");
    out.append(branch.as_str());
    out.append(" (");
    out.append(sha.as_str());
    out.append(") | started ");
    out.append(s.started_at.as_str());
    out.append(" | last log ");
    out.append(last.as_str());
    out.append(" | ");
    out.append(count.as_str());
    out.append(" lines");
    proof {
        let v = s@;
        let sha_v = match v.commit_sha {
            Some(c) => byte_prefix(c, 7),
            None => Some("-------"@),
        };
        assert(sha_v == Some(sha@));
        let id = byte_prefix(v.id, 8).unwrap();
        assert(out@ =~= id + " | "@ + or_text(v.repo, "(no repo)"@) + " @ "@ + or_text(
            v.branch,
            "(no branch)"@,
        ) + " ("@ + sha@ + ") | started "@ + v.started_at + " | last log "@ + or_text(
            v.last_log_at,
            "(no logs)"@,
        ) + " | "@ + int_decimal(v.log_count) + " lines"@);
    }
    Some(out)
}

/// The lines printed for a session's figures by `stats`.
pub open spec fn stats_lines_spec(st: StatsV) -> Seq<Seq<char>> {
    let base = seq![
        "Session:    "@ + st.session_id,
        "Repo:       "@ + or_text(st.repo, "(no repo)"@),
        "Branch:     "@ + or_text(st.branch, "(no branch)"@),
        "Commit:     "@ + or_text(st.commit_sha, "(unknown)"@),
        "Started:    "@ + st.started_at,
        "Lines:      "@ + int_decimal(st.total_lines),
    ];
    let with_first = match st.first_log {
        Some(f) => base.push("First log:  "@ + f),
        None => base,
    };
    match st.last_log {
        Some(l) => with_first.push("Last log:   "@ + l),
        None => with_first,
    }
}

/// `label` followed by `value`.
fn labelled(label: &str, value: &str) -> (r: String)
    ensures
        r@ == label@ + value@,
{
    let mut out = copy_str(label);
    out.append(value);
    out
}

/// The lines printed for a session's figures by `stats`.
pub fn stats_lines(st: &Stats) -> (r: Vec<String>)
    ensures
        r@.map_values(|s: String| s@) == stats_lines_spec(st@),
{
    let mut out: Vec<String> = Vec::new();
    out.push(labelled("Session:    ", st.session_id.as_str()));
    let repo = text_or(&st.repo, "(no repo)");
    out.push(labelled("Repo:       ", repo.as_str()));
    let branch = text_or(&st.branch, "(no branch)");
    out.push(labelled("Branch:     ", branch.as_str()));
    let commit = text_or(&st.commit_sha, "(unknown)");
    out.push(labelled("Commit:     ", commit.as_str()));
    out.push(labelled("Started:    ", st.started_at.as_str()));
    let lines = i64_to_string(st.total_lines);
    out.push(labelled("Lines:      ", lines.as_str()));
    let ghost base = out@.map_values(|s: String| s@);
    match &st.first_log {
        Some(f) => out.push(labelled("First log:  ", f.as_str())),
        None => {},
    }
    let ghost with_first = out@.map_values(|s: String| s@);
    match &st.last_log {
        Some(l) => out.push(labelled("Last log:   ", l.as_str())),
        None => {},
    }
    proof {
        let v = st@;
        let b = seq![
            "Session:    "@ + v.session_id,
            "Repo:       "@ + or_text(v.repo, "(no repo)"@),
            "Branch:     "@ + or_text(v.branch, "(no branch)"@),
            "Commit:     "@ + or_text(v.commit_sha, "(unknown)"@),
            "Started:    "@ + v.started_at,
            "Lines:      "@ + int_decimal(v.total_lines),
        ];
        assert(base =~= b);
        let wf = match v.first_log {
            Some(f) => b.push("First log:  "@ + f),
            None => b,
        };
        assert(with_first =~= wf);
        assert(out@.map_values(|s: String| s@) =~= stats_lines_spec(v));
    }
    out
}

} // verus!
