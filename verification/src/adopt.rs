//! Adopting: bringing an existing branch into the stack.

use vstd::prelude::*;
use crate::stack::{Stack, StackBranch, has_name, idx_of, names, depth};
use crate::output::MessageKind;
use crate::text::{push_str, push_string, push_all, string_from_chars, decimal, decimal_usize};

verus! {

/// The outcome of adopting a branch.
#[derive(Debug)]
pub struct AdoptResult {
    pub branch_name: String,
    pub parent_name: String,
    /// The depth of the branch in the stack after adoption.
    pub stack_depth: usize,
}

/// The branches a new branch can be adopted onto: the base branch, then
/// every branch of the stack.
pub fn parent_choices(stack: &Stack, base: &String) -> (r: Vec<String>)
    ensures
        r@.len() == stack.branches@.len() + 1,
        r@[0] == *base,
        forall|i: int| 0 <= i < stack.branches@.len() ==> #[trigger] r@[i + 1] == stack.branches@[i].name,
{
    let mut r: Vec<String> = Vec::new();
    r.push(base.clone());
    let mut i: usize = 0;
    while i < stack.branches.len()
        invariant
            i <= stack.branches@.len(),
            r@.len() == i + 1,
            r@[0] == *base,
            forall|j: int| 0 <= j < i ==> #[trigger] r@[j + 1] == stack.branches@[j].name,
        decreases stack.branches@.len() - i,
    {
        r.push(stack.branches[i].name.clone());
        i += 1;
    }
    r
}

/// The parent taken without asking: the only choice, when there is one.
pub fn only_choice(choices: &Vec<String>) -> (r: Option<String>)
    ensures
        choices@.len() == 1 ==> r == Some(choices@[0]),
        choices@.len() != 1 ==> r is None,
{
    if choices.len() == 1 {
        Some(choices[0].clone())
    } else {
        None
    }
}

/// Why a parent is refused, if it is: it must be the base branch or a
/// branch of the stack.
pub open spec fn parent_refusal(bs: Seq<StackBranch>, base: Seq<char>, parent: Seq<char>, parent_in_git: bool) -> Option<Seq<char>> {
    if parent == base || has_name(bs, parent) {
        None
    } else if !parent_in_git {
        Some("Parent branch '"@ + parent + "' does not exist"@)
    } else {
        Some("Parent branch '"@ + parent + "' is not in the stack. Add it first with `rung adopt "@ + parent
            + "` or use the base branch '"@ + base + "'"@)
    }
}

/// Checks the parent of an adopted branch; `parent_in_git` is whether it
/// exists as a git branch.
pub fn validate_parent(stack: &Stack, base: &String, parent: &String, parent_in_git: bool) -> (r: Result<(), String>)
    ensures
        match parent_refusal(stack.branches@, base@, parent@, parent_in_git) {
            None => r is Ok,
            Some(m) => r matches Err(e) && e@ == m,
        },
{
    if *parent == *base || stack.contains(parent) {
        return Ok(());
    }
    let mut m: Vec<char> = Vec::new();
    push_str(&mut m, "Parent branch '");
    push_string(&mut m, parent);
    if !parent_in_git {
        push_str(&mut m, "' does not exist");
    } else {
        push_str(&mut m, "' is not in the stack. Add it first with `rung adopt ");
        push_string(&mut m, parent);
        push_str(&mut m, "` or use the base branch '");
        push_string(&mut m, base);
        push_str(&mut m, "'");
    }
    Err(string_from_chars(&m))
}

/// Adopts `branch` onto `parent`: a branch on the base branch is recorded
/// without a parent. Refused when the branch is already in the stack or
/// the parent is not valid.
pub fn adopt_branch(stack: &mut Stack, base: &String, branch: &String, parent: &String, parent_in_git: bool) -> (r: Result<AdoptResult, String>)
    requires
        old(stack).wf(),
    ensures
        ({
            let bs = old(stack).branches@;
            let added = StackBranch {
                name: *branch,
                parent: if parent@ == base@ { None } else { Some(*parent) },
                pr: None,
            };
            &&& has_name(bs, branch@) ==> (r matches Err(m) && m@ == "Branch '"@ + branch@ + "' is already in the stack"@)
            &&& !has_name(bs, branch@) ==> match parent_refusal(bs, base@, parent@, parent_in_git) {
                Some(m) => r matches Err(e) && e@ == m,
                None => r is Ok,
            }
            &&& r is Err ==> final(stack).branches@ == bs
            &&& r matches Ok(res) ==> final(stack).branches@ == bs.push(added) && res.branch_name == *branch
                && res.parent_name == *parent && res.stack_depth == depth(
                final(stack).branches@,
                branch@,
                final(stack).branches@.len() as nat,
            )
        }),
        final(stack).merged@ == old(stack).merged@,
        final(stack).wf(),
{
    if stack.contains(branch) {
        let mut m: Vec<char> = Vec::new();
        push_str(&mut m, "Branch '");
        push_string(&mut m, branch);
        push_str(&mut m, "' is already in the stack");
        return Err(string_from_chars(&m));
    }
    match validate_parent(stack, base, parent, parent_in_git) {
        Err(e) => {
            return Err(e);
        },
        Ok(()) => {},
    }
    let p = if *parent == *base { None } else { Some(parent.clone()) };
    stack.add_branch(StackBranch { name: branch.clone(), parent: p, pr: None });
    let d = stack.depth(branch);
    Ok(AdoptResult { branch_name: branch.clone(), parent_name: parent.clone(), stack_depth: d })
}

/// The messages after adopting a branch: what was adopted, and its depth
/// when it is stacked on another branch of the stack.
pub fn adopt_report(result: &AdoptResult) -> (r: Vec<(MessageKind, String)>)
    ensures
        r@.len() == (if result.stack_depth > 1 { 2int } else { 1int }),
        r@[0].0 == MessageKind::Success,
        r@[0].1@ == "Adopted branch '"@ + result.branch_name@ + "' with parent '"@ + result.parent_name@ + "'"@,
        result.stack_depth > 1 ==> r@[1].0 == MessageKind::Info && r@[1].1@ == "Stack depth: "@ + decimal(
            result.stack_depth as nat,
        ),
{
    let mut r: Vec<(MessageKind, String)> = Vec::new();
    let mut m: Vec<char> = Vec::new();
    push_str(&mut m, "Adopted branch '");
    push_string(&mut m, &result.branch_name);
    push_str(&mut m, "' with parent '");
    push_string(&mut m, &result.parent_name);
    push_str(&mut m, "'");
    r.push((MessageKind::Success, string_from_chars(&m)));
    if result.stack_depth > 1 {
        r.push((MessageKind::Info, depth_message(result.stack_depth)));
    }
    r
}

/// "Stack depth: " and the depth.
pub fn depth_message(d: usize) -> (r: String)
    ensures
        r@ == "Stack depth: "@ + decimal(d as nat),
{
    let mut m: Vec<char> = Vec::new();
    push_str(&mut m, "Stack depth: ");
    let n = decimal_usize(d);
    push_all(&mut m, &n);
    string_from_chars(&m)
}

} // verus!
