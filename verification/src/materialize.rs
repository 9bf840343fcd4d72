//! Pure decision helpers for the materialization collaborators — the code
//! outside this crate that clones repositories, downloads URLs and runs
//! scripts. What can be computed from plain values is settled here, under
//! contract; the collaborators only perform the I/O.

use vstd::prelude::*;
use vstd::string::StrSliceExecFns;

verus! {

/// The argument list of a shallow clone of `repo` into `dest`, naming the
/// branch when one is configured.
pub fn git_clone_args(repo: &str, dest: &str, branch: &Option<String>) -> (r: Vec<String>)
    ensures
        branch matches Some(b) ==> r.deep_view() == seq![
            "clone"@,
            "--depth=1"@,
            "--branch"@,
            b@,
            repo@,
            dest@,
        ],
        branch is None ==> r.deep_view() == seq!["clone"@, "--depth=1"@, repo@, dest@],
{
    let mut r: Vec<String> = Vec::new();
    r.push("clone".to_owned());
    r.push("--depth=1".to_owned());
    match branch {
        Some(b) => {
            r.push("--branch".to_owned());
            r.push(b.clone());
        },
        None => {},
    }
    r.push(repo.to_owned());
    r.push(dest.to_owned());
    proof {
        match branch {
            Some(b) => {
                assert(r.deep_view() =~= seq![
                    "clone"@,
                    "--depth=1"@,
                    "--branch"@,
                    b@,
                    repo@,
                    dest@,
                ]);
            },
            None => {
                assert(r.deep_view() =~= seq!["clone"@, "--depth=1"@, repo@, dest@]);
            },
        }
    }
    r
}

/// A character that counts as blank when deciding whether a script is
/// empty: space, tab, newline, carriage return.
pub open spec fn is_blank_char(c: char) -> bool {
    c == ' ' || c == '\t' || c == '\n' || c == '\r'
}

/// Whether a script holds nothing but blanks. Such a script is rejected
/// before anything is run.
pub fn script_is_blank(s: &str) -> (r: bool)
    ensures
        r == forall|i: int| 0 <= i < s@.len() ==> is_blank_char(#[trigger] s@[i]),
{
    let n = s.unicode_len();
    let mut i: usize = 0;
    while i < n
        invariant
            i <= n,
            n == s@.len(),
            forall|k: int| 0 <= k < i ==> is_blank_char(#[trigger] s@[k]),
        decreases n - i,
    {
        let c = s.get_char(i);
        if !(c == ' ' || c == '\t' || c == '\n' || c == '\r') {
            return false;
        }
        i += 1;
    }
    true
}

/// Whether an HTTP status code reports success: the 2xx range, as the
/// download step accepts it.
pub fn http_status_is_success(code: u16) -> (r: bool)
    ensures
        r == (200 <= code && code < 300),
{
    200 <= code && code < 300
}

} // verus!
