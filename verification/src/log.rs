//! The log of a branch: its commits since its parent.

use vstd::prelude::*;
use crate::stack::{Stack, has_name, idx_of};
use crate::output::MessageKind;
use crate::text::{push_str, push_string, string_from_chars, take_chars, trim, trim_chars, chars_of};

verus! {

/// One commit of the log.
#[derive(Debug, Clone)]
pub struct CommitInfo {
    /// The first seven characters of the hash.
    pub hash: String,
    pub message: String,
    pub author: String,
}

/// The log of a branch.
#[derive(Debug, Clone)]
pub struct LogResult {
    pub commits: Vec<CommitInfo>,
    pub branch: String,
    pub parent: String,
}

/// Refuses to show a log when the stack is empty.
pub fn check_stack_not_empty(stack: &Stack) -> (r: Result<(), String>)
    ensures
        r is Err <==> stack.branches@.len() == 0,
        r matches Err(m) ==> m@ == "No branches in stack. Use `rung create <name>` to add one."@,
{
    if stack.is_empty() {
        Err(String::from_str("No branches in stack. Use `rung create <name>` to add one."))
    } else {
        Ok(())
    }
}

/// The parent whose commits the log starts from; refused for a branch
/// outside the stack or without a parent.
pub fn log_parent(stack: &Stack, branch: &String) -> (r: Result<String, String>)
    ensures
        r is Ok <==> (has_name(stack.branches@, branch@) && stack.branches@[idx_of(stack.branches@, branch@)].parent is Some),
        r matches Ok(p) ==> Some(p) == stack.branches@[idx_of(stack.branches@, branch@)].parent,
        r matches Err(m) ==> m@ == (if has_name(stack.branches@, branch@) {
            "Branch '"@ + branch@ + "' has no parent branch"@
        } else {
            "Branch '"@ + branch@ + "' is not in stack"@
        }),
{
    match stack.find_index(branch) {
        None => {
            let mut m: Vec<char> = Vec::new();
            push_str(&mut m, "Branch '");
            push_string(&mut m, branch);
            push_str(&mut m, "' is not in stack");
            Err(string_from_chars(&m))
        },
        Some(i) => match &stack.branches[i].parent {
            Some(p) => Ok(p.clone()),
            None => {
                let mut m: Vec<char> = Vec::new();
                push_str(&mut m, "Branch '");
                push_string(&mut m, branch);
                push_str(&mut m, "' has no parent branch");
                Err(string_from_chars(&m))
            },
        },
    }
}

/// The parent whose commits the log of `branch` starts from, checked in
/// order: the stack must hold a branch, then `branch` must be in it and
/// have a parent.
pub fn log_base(stack: &Stack, branch: &String) -> (r: Result<String, String>)
    ensures
        stack.branches@.len() == 0 ==> (r matches Err(m) && m@
            == "No branches in stack. Use `rung create <name>` to add one."@),
        stack.branches@.len() > 0 ==> (r is Ok <==> (has_name(stack.branches@, branch@)
            && stack.branches@[idx_of(stack.branches@, branch@)].parent is Some)),
        stack.branches@.len() > 0 ==> (r matches Ok(p) ==> Some(p) == stack.branches@[idx_of(
            stack.branches@,
            branch@,
        )].parent),
        stack.branches@.len() > 0 ==> (r matches Err(m) ==> m@ == (if has_name(stack.branches@, branch@) {
            "Branch '"@ + branch@ + "' has no parent branch"@
        } else {
            "Branch '"@ + branch@ + "' is not in stack"@
        })),
{
    match check_stack_not_empty(stack) {
        Err(m) => Err(m),
        Ok(()) => log_parent(stack, branch),
    }
}

/// A commit of the log: the first seven characters of its hash, its
/// message trimmed (empty when it has none), its author ("unknown" when it
/// has no name).
pub fn commit_entry(id: &String, message: Option<String>, author: Option<String>) -> (c: CommitInfo)
    ensures
        c.hash@ == (if id@.len() <= 7 { id@ } else { id@.take(7) }),
        c.message@ == (match message {
            Some(m) => trim(m@),
            None => Seq::empty(),
        }),
        c.author@ == (match author {
            Some(a) => a@,
            None => "unknown"@,
        }),
{
    let hash = take_chars(id.as_str(), 7);
    let msg = match message {
        Some(m) => {
            let v = chars_of(m.as_str());
            let t = trim_chars(&v);
            string_from_chars(&t)
        },
        None => String::new(),
    };
    let author = match author {
        Some(a) => a,
        None => String::from_str("unknown"),
    };
    CommitInfo { hash, message: msg, author }
}

/// `s` padded with spaces to `w` characters.
pub open spec fn pad(s: Seq<char>, w: nat) -> Seq<char> {
    if s.len() >= w {
        s
    } else {
        s + Seq::new((w - s.len()) as nat, |i: int| ' ')
    }
}

/// Appends `s` padded with spaces to `w` characters.
fn push_padded(v: &mut Vec<char>, s: &String, w: usize)
    ensures
        final(v)@ == old(v)@ + pad(s@, w as nat),
{
    push_string(v, s);
    let n = s.as_str().unicode_len();
    let mut k: usize = n;
    while k < w
        invariant
            n == s@.len(),
            n <= k <= w || (k == n && n >= w),
            v@ == old(v)@ + s@ + Seq::new((k - n) as nat, |i: int| ' '),
        decreases w - k,
    {
        v.push(' ');
        k += 1;
        assert(v@ =~= old(v)@ + s@ + Seq::new((k - n) as nat, |i: int| ' '));
    }
    proof {
        if n >= w {
            assert(v@ =~= old(v)@ + s@);
        } else {
            assert(v@ =~= old(v)@ + pad(s@, w as nat));
        }
    }
}

/// The line of a commit: its hash padded to ten characters, its message
/// padded to twenty-five, five spaces and its author.
pub open spec fn commit_line(c: CommitInfo) -> Seq<char> {
    pad(c.hash@, 10) + seq![' '] + pad(c.message@, 25) + seq![' ', ' ', ' ', ' ', ' '] + c.author@
}

/// The lines of the commits, in order.
pub fn commit_lines(commits: &Vec<CommitInfo>) -> (r: Vec<String>)
    ensures
        r@.len() == commits@.len(),
        forall|i: int| 0 <= i < r@.len() ==> (#[trigger] r@[i])@ == commit_line(commits@[i]),
{
    let mut r: Vec<String> = Vec::new();
    let mut i: usize = 0;
    while i < commits.len()
        invariant
            i <= commits@.len(),
            r@.len() == i,
            forall|j: int| 0 <= j < i ==> (#[trigger] r@[j])@ == commit_line(commits@[j]),
        decreases commits@.len() - i,
    {
        let c = &commits[i];
        let mut v: Vec<char> = Vec::new();
        push_padded(&mut v, &c.hash, 10);
        v.push(' ');
        push_padded(&mut v, &c.message, 25);
        let mut k: usize = 0;
        while k < 5
            invariant
                k <= 5,
                v@ == pad(c.hash@, 10) + seq![' '] + pad(c.message@, 25) + Seq::new(k as nat, |j: int| ' '),
            decreases 5 - k,
        {
            v.push(' ');
            k += 1;
            assert(v@ =~= pad(c.hash@, 10) + seq![' '] + pad(c.message@, 25) + Seq::new(k as nat, |j: int| ' '));
        }
        push_string(&mut v, &c.author);
        assert(v@ =~= commit_line(*c));
        r.push(string_from_chars(&v));
        i += 1;
    }
    r
}

/// How the log is shown.
#[derive(Debug)]
pub enum LogOutput {
    /// A warning alone.
    Warning(String),
    /// The log as JSON.
    Json,
    /// One line per commit.
    Lines(Vec<String>),
}

/// Decides how to show the log of the current branch: as JSON when asked;
/// else one line per commit, or a warning when there is none.
pub fn run(json: bool, log: &LogResult) -> (r: LogOutput)
    ensures
        json ==> r is Json,
        !json && log.commits@.len() == 0 ==> (r matches LogOutput::Warning(m) && m@ == "Current branch has no commits"@),
        !json && log.commits@.len() > 0 ==> (r matches LogOutput::Lines(v) && v@.len() == log.commits@.len()
            && forall|i: int| 0 <= i < v@.len() ==> (#[trigger] v@[i])@ == commit_line(log.commits@[i])),
{
    if log.commits.len() == 0 && !json {
        return LogOutput::Warning(String::from_str("Current branch has no commits"));
    }
    if json {
        LogOutput::Json
    } else {
        LogOutput::Lines(commit_lines(&log.commits))
    }
}

} // verus!
