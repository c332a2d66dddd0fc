//! The revision history of the scanned files: the state of the repository,
//! the outcomes of queries to the history tool, and the attribution of
//! occurrences.

pub mod attribution;
pub mod porcelain;

pub use attribution::{add_blame, blame_args, blame_range, blame_requests, BlameRequest};
pub use porcelain::{parse_blame_porcelain, BlameInfo, BlameMap, BlameRecord, BlameSpan};

use crate::text::{
    chars_of, equals_str, join, option_view, string_of, string_views, trim, trim_chars,
};
use vstd::prelude::*;
use vstd::string::StringExecFns;

verus! {

/// The state of a repository at the time of a scan.
#[derive(Debug, PartialEq, Eq)]
pub struct GitMeta {
    /// The top-level directory of the working tree.
    pub repo_root: String,
    /// The identifier of the revision that is checked out.
    pub head_sha: String,
    /// The symbolic name of what is checked out; `None` when the head is
    /// detached.
    pub head_ref: Option<String>,
    /// Whether the working tree differs from the revision checked out.
    pub is_dirty: bool,
}

/// The mathematical content of a [`GitMeta`].
pub struct GitMetaView {
    pub repo_root: Seq<char>,
    pub head_sha: Seq<char>,
    pub head_ref: Option<Seq<char>>,
    pub is_dirty: bool,
}

impl View for GitMeta {
    type V = GitMetaView;

    open spec fn view(&self) -> GitMetaView {
        GitMetaView {
            repo_root: self.repo_root@,
            head_sha: self.head_sha@,
            head_ref: option_view(self.head_ref),
            is_dirty: self.is_dirty,
        }
    }
}

/// A failed query to the history tool.
#[derive(Debug, PartialEq, Eq)]
pub enum GitError {
    /// The tool could not be started.
    Run { message: String },
    /// The tool ended with a failure status.
    CommandFailed { cmd: String, stderr: String },
    /// The tool's output was no valid UTF-8 text.
    OutputUtf8 { message: String },
}

impl GitError {
    /// The text of the message shown to the user.
    pub open spec fn message_text(&self) -> Seq<char> {
        match self {
            GitError::Run { message } => "failed to run git: "@ + message@,
            GitError::CommandFailed { cmd, stderr } => "git command failed ("@ + cmd@ + "): "@
                + stderr@,
            GitError::OutputUtf8 { message } => "git output was not valid utf-8: "@ + message@,
        }
    }

    /// The message shown to the user.
    pub fn message(&self) -> (r: String)
        ensures
            r@ == self.message_text(),
    {
        match self {
            GitError::Run { message } => {
                let mut r = "failed to run git: ".to_owned();
                r.append(message.as_str());
                r
            },
            GitError::CommandFailed { cmd, stderr } => {
                let mut r = "git command failed (".to_owned();
                r.append(cmd.as_str());
                r.append("): ");
                r.append(stderr.as_str());
                r
            },
            GitError::OutputUtf8 { message } => {
                let mut r = "git output was not valid utf-8: ".to_owned();
                r.append(message.as_str());
                r
            },
        }
    }
}

/// The text of a string without surrounding white space.
pub fn trimmed(text: &str) -> (r: String)
    ensures
        r@ == trim(text@),
{
    let chars = chars_of(text);
    let kept = trim_chars(&chars);
    string_of(&kept)
}

/// The command line that a query stands for: `git` and the arguments,
/// separated by spaces.
pub open spec fn command_line(args: Seq<Seq<char>>) -> Seq<char> {
    "git "@ + join(args, " "@)
}

/// The command line of a query.
pub fn command_text(args: &Vec<String>) -> (r: String)
    ensures
        r@ == command_line(string_views(args@)),
{
    let ghost parts = string_views(args@);
    let mut r = "git ".to_owned();
    let mut i: usize = 0;
    assert(parts.take(0) == Seq::<Seq<char>>::empty());
    assert(r@ == "git "@ + join(parts.take(0), " "@));
    while i < args.len()
        invariant
            i <= args.len(),
            parts == string_views(args@),
            r@ == "git "@ + join(parts.take(i as int), " "@),
        decreases args.len() - i,
    {
        if i > 0 {
            r.append(" ");
        }
        r.append(args[i].as_str());
        assert(parts.take(i as int + 1).drop_last() == parts.take(i as int));
        assert(parts.take(i as int + 1).last() == args@[i as int]@);
        assert(r@ == "git "@ + join(parts.take(i as int + 1), " "@));
        i = i + 1;
    }
    assert(parts.take(args.len() as int) == parts);
    r
}

/// What a finished query gives: on success the standard output without
/// surrounding white space; on failure the command line and the trimmed
/// error output. Output that is no valid UTF-8 text, given here as the
/// message of the decoding failure, is an error of its own.
pub fn command_outcome(
    args: &Vec<String>,
    success: bool,
    stdout: Result<String, String>,
    stderr: Result<String, String>,
) -> (r: Result<String, GitError>)
    ensures
        match r {
            Ok(text) => success && stdout is Ok && text@ == trim(stdout->Ok_0@),
            Err(GitError::CommandFailed { cmd, stderr: shown }) => {
                &&& !success
                &&& stderr is Ok
                &&& shown@ == trim(stderr->Ok_0@)
                &&& cmd@ == command_line(string_views(args@))
            },
            Err(GitError::OutputUtf8 { message }) => if success {
                stdout == Err::<String, String>(message)
            } else {
                stderr == Err::<String, String>(message)
            },
            Err(GitError::Run { .. }) => false,
        },
{
    if !success {
        match stderr {
            Ok(err) => Err(
                GitError::CommandFailed { cmd: command_text(args), stderr: trimmed(err.as_str()) },
            ),
            Err(message) => Err(GitError::OutputUtf8 { message }),
        }
    } else {
        match stdout {
            Ok(out) => Ok(trimmed(out.as_str())),
            Err(message) => Err(GitError::OutputUtf8 { message }),
        }
    }
}

/// A question put to the history tool about the repository as a whole.
#[derive(Clone, Copy, Debug, PartialEq, Eq, Structural)]
pub enum RepoQuery {
    /// Whether the scan root lies in a working tree.
    InsideWorkTree,
    /// The top-level directory of the working tree.
    TopLevel,
    /// The identifier of the revision that is checked out.
    HeadRevision,
    /// The symbolic name of what is checked out.
    HeadName,
    /// The short status of the working tree.
    Status,
}

/// The arguments with which the history tool answers a question.
pub open spec fn query_arguments(query: RepoQuery) -> Seq<Seq<char>> {
    match query {
        RepoQuery::InsideWorkTree => seq!["rev-parse"@, "--is-inside-work-tree"@],
        RepoQuery::TopLevel => seq!["rev-parse"@, "--show-toplevel"@],
        RepoQuery::HeadRevision => seq!["rev-parse"@, "HEAD"@],
        RepoQuery::HeadName => seq!["rev-parse"@, "--abbrev-ref"@, "HEAD"@],
        RepoQuery::Status => seq!["status"@, "--porcelain"@],
    }
}

/// The arguments with which the history tool is asked `query`.
pub fn query_args(query: RepoQuery) -> (r: Vec<String>)
    ensures
        string_views(r@) == query_arguments(query),
{
    let mut r: Vec<String> = Vec::new();
    match query {
        RepoQuery::InsideWorkTree => {
            r.push("rev-parse".to_owned());
            r.push("--is-inside-work-tree".to_owned());
        },
        RepoQuery::TopLevel => {
            r.push("rev-parse".to_owned());
            r.push("--show-toplevel".to_owned());
        },
        RepoQuery::HeadRevision => {
            r.push("rev-parse".to_owned());
            r.push("HEAD".to_owned());
        },
        RepoQuery::HeadName => {
            r.push("rev-parse".to_owned());
            r.push("--abbrev-ref".to_owned());
            r.push("HEAD".to_owned());
        },
        RepoQuery::Status => {
            r.push("status".to_owned());
            r.push("--porcelain".to_owned());
        },
    }
    assert(string_views(r@) =~= query_arguments(query));
    r
}

/// The symbolic name of the head: none when the tool reports the literal
/// `HEAD`, which stands for a detached head, or nothing at all.
pub open spec fn head_ref_of(abbrev_ref: Seq<char>) -> Option<Seq<char>> {
    if abbrev_ref == "HEAD"@ || abbrev_ref.len() == 0 {
        None
    } else {
        Some(abbrev_ref)
    }
}

/// The repository state that four answers of the history tool describe.
pub open spec fn git_meta_of(
    toplevel: Seq<char>,
    head_sha: Seq<char>,
    abbrev_ref: Seq<char>,
    status: Seq<char>,
) -> GitMetaView {
    GitMetaView {
        repo_root: toplevel,
        head_sha,
        head_ref: head_ref_of(abbrev_ref),
        is_dirty: status.len() > 0,
    }
}

/// Puts the repository state together from the outcomes of four queries:
/// the top-level directory, the head revision, the head's symbolic name and
/// the short status. The first failed query, in that order, is the error.
pub fn collect_git_meta(
    toplevel: Result<String, GitError>,
    head_sha: Result<String, GitError>,
    abbrev_ref: Result<String, GitError>,
    status: Result<String, GitError>,
) -> (r: Result<GitMeta, GitError>)
    ensures
        match toplevel {
            Err(e) => r == Err::<GitMeta, GitError>(e),
            Ok(t) => match head_sha {
                Err(e) => r == Err::<GitMeta, GitError>(e),
                Ok(h) => match abbrev_ref {
                    Err(e) => r == Err::<GitMeta, GitError>(e),
                    Ok(a) => match status {
                        Err(e) => r == Err::<GitMeta, GitError>(e),
                        Ok(s) => r matches Ok(meta) && meta@ == git_meta_of(t@, h@, a@, s@),
                    },
                },
            },
        },
{
    let repo_root = match toplevel {
        Ok(t) => t,
        Err(e) => {
            return Err(e);
        },
    };
    let head = match head_sha {
        Ok(h) => h,
        Err(e) => {
            return Err(e);
        },
    };
    let name = match abbrev_ref {
        Ok(a) => a,
        Err(e) => {
            return Err(e);
        },
    };
    let state = match status {
        Ok(s) => s,
        Err(e) => {
            return Err(e);
        },
    };
    let name_chars = chars_of(name.as_str());
    let head_ref = if equals_str(&name_chars, "HEAD") || name_chars.len() == 0 {
        None
    } else {
        Some(name)
    };
    let is_dirty = !state.as_str().is_empty();
    Ok(GitMeta { repo_root, head_sha: head, head_ref, is_dirty })
}

} // verus!
