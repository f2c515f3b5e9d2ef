//! Reading what `git` prints: the branch, the commit, the repository root and the
//! repository's name.
use vstd::prelude::*;
use crate::text::{to_chars, trim_chars, trim_seq, string_from_chars, string_from_range, opt_view};

verus! {

/// What a `git` command printed that is worth keeping: its trimmed output when the command
/// succeeded and printed something.
pub open spec fn git_value(success: bool, stdout: Seq<char>) -> Option<Seq<char>> {
    if !success || trim_seq(stdout).len() == 0 {
        None
    } else {
        Some(trim_seq(stdout))
    }
}

/// The text `HEAD`, which `git rev-parse --abbrev-ref HEAD` prints on a detached head.
pub open spec fn head_text() -> Seq<char> {
    seq!['H', 'E', 'A', 'D']
}

/// The current branch from `git rev-parse --abbrev-ref HEAD`; none on a detached head.
pub open spec fn branch_value(success: bool, stdout: Seq<char>) -> Option<Seq<char>> {
    match git_value(success, stdout) {
        Some(b) => if b == head_text() {
            None
        } else {
            Some(b)
        },
        None => None,
    }
}

/// The trimmed output of a successful `git` command that printed something.
pub fn value_from_git(success: bool, stdout: &str) -> (r: Option<String>)
    ensures
        opt_view(r) == git_value(success, stdout@),
{
    if !success {
        return None;
    }
    let chars = to_chars(stdout);
    let t = trim_chars(&chars);
    if t.len() == 0 {
        None
    } else {
        Some(string_from_chars(&t))
    }
}

/// The current branch from the output of `git rev-parse --abbrev-ref HEAD`.
pub fn branch_from_git(success: bool, stdout: &str) -> (r: Option<String>)
    ensures
        opt_view(r) == branch_value(success, stdout@),
{
    match value_from_git(success, stdout) {
        Some(b) => {
            let chars = to_chars(b.as_str());
            let is_head = chars.len() == 4 && chars[0] == 'H' && chars[1] == 'E' && chars[2] == 'A'
                && chars[3] == 'D';
            if is_head {
                assert(b@ =~= head_text());
                None
            } else {
                assert(b@ != head_text());
                Some(b)
            }
        },
        None => None,
    }
}

/// The suffix `.git`.
pub open spec fn git_suffix() -> Seq<char> {
    seq!['.', 'g', 'i', 't']
}

/// `s` without every trailing `.git`, as `trim_end_matches(".git")` gives it.
pub open spec fn strip_git_suffix(s: Seq<char>) -> Seq<char>
    decreases s.len(),
{
    if s.len() >= 4 && s.subrange(s.len() - 4, s.len() as int) == git_suffix() {
        strip_git_suffix(s.subrange(0, s.len() - 4))
    } else {
        s
    }
}

/// The position of the last `c` in `s`.
pub open spec fn last_index(s: Seq<char>, c: char) -> Option<int>
    decreases s.len(),
{
    if s.len() == 0 {
        None
    } else if s.last() == c {
        Some(s.len() - 1)
    } else {
        last_index(s.drop_last(), c)
    }
}

/// `s` holds `://`, the separator of a URL scheme.
pub open spec fn has_scheme(s: Seq<char>) -> bool {
    exists|i: int| 0 <= i && i + 3 <= s.len() && #[trigger] s[i] == ':' && s[i + 1] == '/' && s[i + 2] == '/'
}

/// The name that `rsplitn(3, '/')` yields as `parts[1]/parts[0]`: the last two
/// `/`-separated pieces, or none when there is no `/`.
pub open spec fn url_name(s: Seq<char>) -> Option<Seq<char>> {
    match last_index(s, '/') {
        None => None,
        Some(i) => {
            let rest = s.subrange(0, i);
            let after = s.subrange(i + 1, s.len() as int);
            match last_index(rest, '/') {
                None => Some(rest + seq!['/'] + after),
                Some(j) => Some(rest.subrange(j + 1, rest.len() as int) + seq!['/'] + after),
            }
        },
    }
}

/// The name after the last `:` of an SSH remote (`git@host:org/repo`).
pub open spec fn ssh_name(s: Seq<char>) -> Option<Seq<char>> {
    match last_index(s, ':') {
        None => None,
        Some(i) => Some(s.subrange(i + 1, s.len() as int)),
    }
}

/// The repository name read from `git remote get-url origin`: `org/repo` from an HTTPS or
/// SSH URL, without trailing `.git`.
pub open spec fn remote_name(success: bool, stdout: Seq<char>) -> Option<Seq<char>> {
    if !success {
        None
    } else {
        let clean = strip_git_suffix(trim_seq(stdout));
        if has_scheme(clean) {
            url_name(clean)
        } else {
            ssh_name(clean)
        }
    }
}

/// The position of the last `c` among `s[..end]`.
fn find_last(s: &Vec<char>, end: usize, c: char) -> (r: Option<usize>)
    requires
        end <= s@.len(),
    ensures
        r matches Some(i) ==> i < end && last_index(s@.subrange(0, end as int), c) == Some(i as int),
        r is None ==> last_index(s@.subrange(0, end as int), c) is None,
{
    let mut k = end;
    while k > 0
        invariant
            k <= end <= s@.len(),
            last_index(s@.subrange(0, k as int), c) == last_index(s@.subrange(0, end as int), c),
        decreases k,
    {
        assert(s@.subrange(0, k as int).drop_last() =~= s@.subrange(0, k - 1));
        if s[k - 1] == c {
            return Some(k - 1);
        }
        k = k - 1;
    }
    None
}

/// The repository name from the output of `git remote get-url origin`.
pub fn name_from_remote(success: bool, stdout: &str) -> (r: Option<String>)
    ensures
        opt_view(r) == remote_name(success, stdout@),
{
    if !success {
        return None;
    }
    let chars = to_chars(stdout);
    let t = trim_chars(&chars);
    // strip every trailing ".git"
    let mut end = t.len();
    assert(t@.subrange(0, end as int) =~= t@);
    while end >= 4 && t[end - 4] == '.' && t[end - 3] == 'g' && t[end - 2] == 'i' && t[end - 1]
        == 't'
        invariant
            end <= t@.len(),
            strip_git_suffix(t@.subrange(0, end as int)) == strip_git_suffix(t@),
        decreases end,
    {
        let ghost s = t@.subrange(0, end as int);
        assert(s.subrange(s.len() - 4, s.len() as int) =~= git_suffix());
        assert(s.subrange(0, s.len() - 4) =~= t@.subrange(0, end - 4));
        end = end - 4;
    }
    let ghost clean = t@.subrange(0, end as int);
    proof {
        if clean.len() >= 4 {
            if clean.subrange(clean.len() - 4, clean.len() as int) == git_suffix() {
                assert(clean[clean.len() - 4] == git_suffix()[0]);
                assert(clean[clean.len() - 3] == git_suffix()[1]);
                assert(clean[clean.len() - 2] == git_suffix()[2]);
                assert(clean[clean.len() - 1] == git_suffix()[3]);
            }
        }
        assert(strip_git_suffix(clean) == clean);
    }
    // look for "://"
    let mut scheme = false;
    let mut i: usize = 0;
    while end >= 3 && i <= end - 3
        invariant
            end <= t@.len(),
            i <= end,
            clean == t@.subrange(0, end as int),
            !scheme ==> forall|k: int| 0 <= k < i && k + 3 <= end ==> !(#[trigger] clean[k] == ':' && clean[k + 1] == '/' && clean[k + 2] == '/'),
            scheme ==> has_scheme(clean),
        decreases end - i,
    {
        if t[i] == ':' && t[i + 1] == '/' && t[i + 2] == '/' {
            assert(clean[i as int] == ':' && clean[i + 1] == '/' && clean[i + 2] == '/');
            scheme = true;
        }
        i = i + 1;
    }
    assert(!scheme ==> !has_scheme(clean));
    if scheme {
        match find_last(&t, end, '/') {
            None => None,
            Some(i) => {
                proof {
                    assert(clean.subrange(0, i as int) =~= t@.subrange(0, i as int));
                }
                let mut name = match find_last(&t, i, '/') {
                    None => string_from_range(&t, 0, i),
                    Some(j) => string_from_range(&t, j + 1, i),
                };
                name.push('/');
                let after = string_from_range(&t, i + 1, end);
                let mut k: usize = 0;
                let ghost prefix = name@;
                let after_chars = to_chars(after.as_str());
                while k < after_chars.len()
                    invariant
                        k <= after_chars@.len(),
                        name@ == prefix + after_chars@.subrange(0, k as int),
                    decreases after_chars@.len() - k,
                {
                    name.push(after_chars[k]);
                    k = k + 1;
                    assert(name@ =~= prefix + after_chars@.subrange(0, k as int));
                }
                proof {
                    assert(after_chars@.subrange(0, after_chars@.len() as int) =~= after_chars@);
                    let rest = clean.subrange(0, i as int);
                    assert(rest =~= t@.subrange(0, i as int));
                    assert(clean.subrange(i + 1, clean.len() as int) =~= t@.subrange(i + 1, end as int));
                    match last_index(rest, '/') {
                        None => {
                            assert(rest + seq!['/'] + t@.subrange(i + 1, end as int) =~= name@);
                        },
                        Some(j) => {
                            assert(rest.subrange(j + 1, rest.len() as int) =~= t@.subrange(j + 1, i as int));
                            assert(rest.subrange(j + 1, rest.len() as int) + seq!['/'] + t@.subrange(
                                i + 1,
                                end as int,
                            ) =~= name@);
                        },
                    }
                }
                Some(name)
            },
        }
    } else {
        match find_last(&t, end, ':') {
            None => None,
            Some(i) => {
                let r = string_from_range(&t, i + 1, end);
                assert(clean.subrange(i + 1, clean.len() as int) =~= t@.subrange(i + 1, end as int));
                Some(r)
            },
        }
    }
}

/// What `Path::file_name` gives for a path: its last component, unless that is `..` or the
/// path has none. It depends on the text alone.
pub uninterp spec fn path_file_name(path: Seq<char>) -> Option<Seq<char>>;

/// `std::path::Path::new(path).file_name()`, turned back into a `String`; the result is
/// named `path_file_name` and nothing more is claimed of it (a `&str` path is valid
/// UTF-8, so the lossy conversion keeps it whole).
#[verifier::external_body]
fn file_name_of(path: &str) -> (r: Option<String>)
    ensures
        opt_view(r) == path_file_name(path@),
{
    std::path::Path::new(path).file_name().map(|n| n.to_string_lossy().to_string())
}

/// Whether the repository name needs the repository root: the remote command ran but gave
/// no name.
pub fn needs_repo_root(remote: &Option<(bool, String)>) -> (r: bool)
    ensures
        r == match *remote {
            Some((ok, out)) => remote_name(ok, out@) is None,
            None => false,
        },
{
    match remote {
        Some((ok, out)) => name_from_remote(*ok, out.as_str()).is_none(),
        None => false,
    }
}

/// The name of a repository root directory, given what `Path::file_name` gave for it
/// (`file_name`): that last component, or the root itself where there is none.
pub fn dir_name_or_root(file_name: Option<String>, root: String) -> (r: String)
    ensures
        r@ == match opt_view(file_name) {
            Some(f) => f,
            None => root@,
        },
{
    match file_name {
        Some(f) => f,
        None => root,
    }
}

/// The repository name: from the remote URL when the remote command ran and gave one,
/// else the last component of the repository root (or the root itself). `None` when the
/// remote command could not be run at all.
pub open spec fn repo_name_value(remote: Option<(bool, Seq<char>)>, root: Option<Seq<char>>) -> Option<
    Seq<char>,
> {
    match remote {
        None => None,
        Some((ok, out)) => match remote_name(ok, out) {
            Some(n) => Some(n),
            None => match root {
                Some(r) => match path_file_name(r) {
                    Some(f) => Some(f),
                    None => Some(r),
                },
                None => None,
            },
        },
    }
}

/// The repository name from the output of `git remote get-url origin` (`None` when the
/// command could not run) and the repository root.
pub fn repo_name_from_git(remote: Option<(bool, String)>, root: Option<String>) -> (r: Option<String>)
    ensures
        opt_view(r) == repo_name_value(
            match remote {
                Some((ok, out)) => Some((ok, out@)),
                None => None,
            },
            opt_view(root),
        ),
{
    match remote {
        None => None,
        Some((ok, out)) => match name_from_remote(ok, out.as_str()) {
            Some(n) => Some(n),
            None => match root {
                Some(r) => {
                    let name = file_name_of(r.as_str());
                    Some(dir_name_or_root(name, r))
                },
                None => None,
            },
        },
    }
}

} // verus!
