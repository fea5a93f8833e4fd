//! Creating a branch on top of the current one.

use vstd::prelude::*;
use crate::stack::{Stack, StackBranch, has_name, idx_of, depth};
use crate::output::MessageKind;
use crate::adopt::depth_message;
use crate::text::{push_str, push_string, string_from_chars, decimal};

verus! {

/// The outcome of creating a branch.
#[derive(Debug)]
pub struct CreateResult {
    pub branch_name: String,
    pub parent_name: String,
    pub commit_created: bool,
    pub commit_message: Option<String>,
    /// The depth of the branch in the stack after creation.
    pub stack_depth: usize,
}

/// The name of the new branch: the one given, else the one made from the
/// commit message (`slug`); one of them is needed.
pub fn create_branch_name(name: Option<&str>, slug: Option<String>) -> (r: Result<String, String>)
    ensures
        name matches Some(n) ==> (r matches Ok(x) && x@ == n@),
        name is None && slug is Some ==> r == Ok::<String, String>(slug->0),
        name is None && slug is None ==> (r matches Err(m) && m@ == "Either a branch name or --message must be provided"@),
{
    match name {
        Some(n) => Ok(String::from_str(n)),
        None => match slug {
            Some(s) => Ok(s),
            None => Err(String::from_str("Either a branch name or --message must be provided")),
        },
    }
}

/// Refuses a commit message from which no name could be made (`slug` is
/// what was made of it, when one was given).
pub fn check_message_slug(slug: &Option<String>) -> (r: Result<(), String>)
    ensures
        r is Err <==> (slug matches Some(s) && s@.len() == 0),
        r matches Err(m) ==> m@ == "Commit message must contain at least one alphanumeric character"@,
{
    match slug {
        Some(s) => if s.as_str().is_empty() {
            Err(String::from_str("Commit message must contain at least one alphanumeric character"))
        } else {
            Ok(())
        },
        None => Ok(()),
    }
}

/// Refuses a branch name that git already has.
pub fn check_new_branch(name: &String, exists: bool) -> (r: Result<(), String>)
    ensures
        r is Err <==> exists,
        r matches Err(m) ==> m@ == "Branch '"@ + name@ + "' already exists"@,
{
    if exists {
        let mut m: Vec<char> = Vec::new();
        push_str(&mut m, "Branch '");
        push_string(&mut m, name);
        push_str(&mut m, "' already exists");
        Err(string_from_chars(&m))
    } else {
        Ok(())
    }
}

/// What to do towards the first commit of a new branch.
#[derive(Debug, Clone, Copy, PartialEq, Eq, Structural)]
pub enum CommitStep {
    /// Commit what is staged.
    Commit,
    /// Stage every change, then look again.
    StageAll,
    /// Make no commit.
    Skip,
}

/// The first step: commit staged changes; with none, stage the changes
/// if the working directory has any.
pub fn first_commit_step(has_staged: bool, is_clean: bool) -> (r: CommitStep)
    ensures
        r == (if has_staged {
            CommitStep::Commit
        } else if is_clean {
            CommitStep::Skip
        } else {
            CommitStep::StageAll
        }),
{
    if has_staged {
        CommitStep::Commit
    } else if is_clean {
        CommitStep::Skip
    } else {
        CommitStep::StageAll
    }
}

/// The step after staging: commit if anything got staged.
pub fn after_staging(has_staged: bool) -> (r: CommitStep)
    ensures
        r == (if has_staged { CommitStep::Commit } else { CommitStep::Skip }),
{
    if has_staged {
        CommitStep::Commit
    } else {
        CommitStep::Skip
    }
}

/// Records the new branch on its parent and reports it.
pub fn record_created(
    stack: &mut Stack,
    name: &String,
    parent: &String,
    commit_message: Option<String>,
) -> (r: CreateResult)
    requires
        old(stack).wf(),
    ensures
        ({
            let b = StackBranch { name: *name, parent: Some(*parent), pr: None };
            let bs = old(stack).branches@;
            &&& has_name(bs, name@) ==> final(stack).branches@ == bs.update(idx_of(bs, name@), b)
            &&& !has_name(bs, name@) ==> final(stack).branches@ == bs.push(b)
        }),
        final(stack).merged@ == old(stack).merged@,
        final(stack).wf(),
        r.branch_name == *name,
        r.parent_name == *parent,
        r.commit_created == commit_message is Some,
        r.commit_message == commit_message,
        r.stack_depth == depth(final(stack).branches@, name@, final(stack).branches@.len() as nat),
{
    stack.add_branch(StackBranch { name: name.clone(), parent: Some(parent.clone()), pr: None });
    let d = stack.depth(name);
    CreateResult {
        branch_name: name.clone(),
        parent_name: parent.clone(),
        commit_created: commit_message.is_some(),
        commit_message,
        stack_depth: d,
    }
}

/// The messages of a dry run: the branch that would be created and, when a
/// commit message was given, whether a commit would be made.
pub fn create_dry_run_report(name: &String, parent: &String, message: Option<&str>, is_clean: bool, has_staged: bool) -> (r: Vec<(MessageKind, String)>)
    ensures
        r@[0].0 == MessageKind::Info,
        r@[0].1@ == "Would create branch '"@ + name@ + "' with parent '"@ + parent@ + "'"@,
        message is None ==> r@.len() == 1,
        message matches Some(m) ==> r@.len() == 2 && r@[1] == (if is_clean {
            (MessageKind::Warn, r@[1].1)
        } else if has_staged {
            (MessageKind::Info, r@[1].1)
        } else {
            (MessageKind::Warn, r@[1].1)
        }) && r@[1].1@ == (if is_clean {
            "Working directory is clean - branch would be created without commit"@
        } else if has_staged {
            "Would create commit with message: "@ + m@
        } else {
            "No staged changes - branch would be created without commit (unstaged/untracked files exist)"@
        }),
{
    let mut r: Vec<(MessageKind, String)> = Vec::new();
    let mut m: Vec<char> = Vec::new();
    push_str(&mut m, "Would create branch '");
    push_string(&mut m, name);
    push_str(&mut m, "' with parent '");
    push_string(&mut m, parent);
    push_str(&mut m, "'");
    r.push((MessageKind::Info, string_from_chars(&m)));
    match message {
        Some(msg) => {
            if is_clean {
                r.push((MessageKind::Warn, String::from_str("Working directory is clean - branch would be created without commit")));
            } else if has_staged {
                let mut l: Vec<char> = Vec::new();
                push_str(&mut l, "Would create commit with message: ");
                push_str(&mut l, msg);
                r.push((MessageKind::Info, string_from_chars(&l)));
            } else {
                r.push((MessageKind::Warn, String::from_str("No staged changes - branch would be created without commit (unstaged/untracked files exist)")));
            }
        },
        None => {},
    }
    r
}

/// The note on the commit after creating a branch, when a message was
/// given: the commit made, or why none was.
pub open spec fn commit_note(result: CreateResult, message_given: bool, is_clean: bool) -> Option<(MessageKind, Seq<char>)> {
    if !message_given {
        None
    } else if result.commit_created {
        match result.commit_message {
            Some(msg) => Some((MessageKind::Info, "Created commit: "@ + msg@)),
            None => None,
        }
    } else if is_clean {
        Some((MessageKind::Warn, "Working directory is clean - branch created without commit"@))
    } else {
        Some((MessageKind::Warn, "No staged changes to commit (untracked files may exist)"@))
    }
}

/// The messages after creating a branch: the note on the commit, what was
/// created, and its depth when it is stacked on another branch of the
/// stack. `is_clean` is whether the working directory is clean afterwards.
pub fn create_report(result: &CreateResult, message_given: bool, is_clean: bool) -> (r: Vec<(MessageKind, String)>)
    ensures
        ({
            let note = commit_note(*result, message_given, is_clean);
            let c: int = if note is Some { 1 } else { 0 };
            let d: int = if result.stack_depth > 1 { 1 } else { 0 };
            &&& r@.len() == c + 1 + d
            &&& note matches Some((k, t)) ==> r@[0].0 == k && r@[0].1@ == t
            &&& r@[c].0 == MessageKind::Success
            &&& r@[c].1@ == "Created branch '"@ + result.branch_name@ + "' with parent '"@ + result.parent_name@ + "'"@
            &&& d == 1 ==> r@[c + 1].0 == MessageKind::Info && r@[c + 1].1@ == "Stack depth: "@ + decimal(
                result.stack_depth as nat,
            )
        }),
{
    let mut r: Vec<(MessageKind, String)> = Vec::new();
    if message_given {
        if result.commit_created {
            match &result.commit_message {
                Some(msg) => {
                    let mut l: Vec<char> = Vec::new();
                    push_str(&mut l, "Created commit: ");
                    push_string(&mut l, msg);
                    r.push((MessageKind::Info, string_from_chars(&l)));
                },
                None => {},
            }
        } else if is_clean {
            r.push((MessageKind::Warn, String::from_str("Working directory is clean - branch created without commit")));
        } else {
            r.push((MessageKind::Warn, String::from_str("No staged changes to commit (untracked files may exist)")));
        }
    }
    let mut m: Vec<char> = Vec::new();
    push_str(&mut m, "Created branch '");
    push_string(&mut m, &result.branch_name);
    push_str(&mut m, "' with parent '");
    push_string(&mut m, &result.parent_name);
    push_str(&mut m, "'");
    r.push((MessageKind::Success, string_from_chars(&m)));
    if result.stack_depth > 1 {
        r.push((MessageKind::Info, depth_message(result.stack_depth)));
    }
    r
}

} // verus!
