//! Where the database file lives.
use vstd::prelude::*;
use vstd::string::StringExecFns;
use crate::text::copy_str;

verus! {

/// Appending a relative component to a path, as `PathBuf::push` does on Unix: a `/` goes
/// between them unless the path is empty or already ends in `/`.
pub open spec fn path_join(base: Seq<char>, part: Seq<char>) -> Seq<char> {
    if base.len() == 0 {
        part
    } else if base.last() == '/' {
        base + part
    } else {
        base + seq!['/'] + part
    }
}

/// The database file under a home directory: `<home>/.logbox/logs.db`.
pub open spec fn db_path_spec(home: Seq<char>) -> Seq<char> {
    path_join(path_join(home, ".logbox"@), "logs.db"@)
}

/// Appends a relative component to a path.
fn join(base: String, part: &str) -> (out: String)
    ensures
        out@ == path_join(base@, part@),
{
    let chars = crate::text::to_chars(base.as_str());
    if chars.len() == 0 {
        return copy_str(part);
    }
    let mut out = base;
    if chars[chars.len() - 1] != '/' {
        out.push('/');
    }
    out.append(part);
    out
}

/// The path of the database file, given the home directory.
pub fn db_path(home: &str) -> (out: String)
    ensures
        out@ == db_path_spec(home@),
{
    let dir = join(copy_str(home), ".logbox");
    join(dir, "logs.db")
}

} // verus!
