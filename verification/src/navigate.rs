//! Moving to the child or the parent of the current branch.

use vstd::prelude::*;
use crate::stack::{Stack, StackBranch, parent_of, is_child_of, lemma_filter_sub, lemma_idx_of_unique};
use crate::text::{push_str, push_string, string_from_chars};

verus! {

/// Where a move in the stack leads.
#[derive(Debug)]
pub enum Navigation {
    /// Switch to this branch.
    Switch(String),
    /// Stay, and say why.
    Stay(String),
    /// The branch has several children: list them, and refuse to choose.
    Ambiguous(Vec<String>),
}

/// The message after switching to a branch.
pub fn switched_message(branch: &String) -> (r: String)
    ensures
        r@ == "Switched to '"@ + branch@ + "'"@,
{
    let mut m: Vec<char> = Vec::new();
    push_str(&mut m, "Switched to '");
    push_string(&mut m, branch);
    push_str(&mut m, "'");
    string_from_chars(&m)
}

/// The warning before listing the children to choose from.
pub fn ambiguous_message(current: &String) -> (r: String)
    ensures
        r@ == "'"@ + current@ + "' has multiple children. Choose one:"@,
{
    let mut m: Vec<char> = Vec::new();
    push_str(&mut m, "'");
    push_string(&mut m, current);
    push_str(&mut m, "' has multiple children. Choose one:");
    string_from_chars(&m)
}

/// Moving down: to the only child of the current branch; nowhere when it
/// has none; a choice for the user when it has several.
pub fn run_next(stack: &Stack, current: &String) -> (r: Navigation)
    ensures
        ({
            let kids = stack.branches@.filter(is_child_of(current@));
            &&& kids.len() == 0 ==> (r matches Navigation::Stay(m) && m@ == "'"@ + current@ + "' has no children in the stack"@)
            &&& kids.len() == 1 ==> (r matches Navigation::Switch(b) && b == kids[0].name)
            &&& kids.len() > 1 ==> (r matches Navigation::Ambiguous(v) && v@.len() == kids.len()
                && forall|i: int| 0 <= i < kids.len() ==> #[trigger] v@[i] == kids[i].name)
        }),
{
    let kids = stack.children_of(current);
    if kids.len() == 0 {
        let mut m: Vec<char> = Vec::new();
        push_str(&mut m, "'");
        push_string(&mut m, current);
        push_str(&mut m, "' has no children in the stack");
        Navigation::Stay(string_from_chars(&m))
    } else if kids.len() == 1 {
        Navigation::Switch(kids[0].name.clone())
    } else {
        let mut v: Vec<String> = Vec::new();
        let mut i: usize = 0;
        while i < kids.len()
            invariant
                i <= kids@.len(),
                v@.len() == i,
                forall|j: int| 0 <= j < i ==> #[trigger] v@[j] == kids@[j].name,
            decreases kids@.len() - i,
        {
            v.push(kids[i].name.clone());
            i += 1;
        }
        Navigation::Ambiguous(v)
    }
}

/// Moving up: to the parent of the current branch, unless it has none in
/// the stack.
pub fn run_prev(stack: &Stack, current: &String) -> (r: Navigation)
    ensures
        parent_of(stack.branches@, current@) matches Some(p) ==> (r matches Navigation::Switch(b) && b@ == p),
        parent_of(stack.branches@, current@) is None ==> (r matches Navigation::Stay(m)
            && m@ == "'"@ + current@ + "' has no parent in the stack (it's a root branch)"@),
{
    match stack.parent_of(current) {
        Some(p) => Navigation::Switch(p),
        None => {
            let mut m: Vec<char> = Vec::new();
            push_str(&mut m, "'");
            push_string(&mut m, current);
            push_str(&mut m, "' has no parent in the stack (it's a root branch)");
            Navigation::Stay(string_from_chars(&m))
        },
    }
}

/// Moving down and then up comes back: when `run_next` from `current`
/// switches to its only child, `run_prev` from that child switches back to
/// `current`.
pub proof fn next_then_prev_returns(stack: Stack, current: Seq<char>)
    requires
        stack.wf(),
        stack.branches@.filter(is_child_of(current)).len() == 1,
    ensures
        parent_of(stack.branches@, stack.branches@.filter(is_child_of(current))[0].name@) == Some(current),
{
    let bs = stack.branches@;
    let kids = bs.filter(is_child_of(current));
    lemma_filter_sub(bs, is_child_of(current));
    assert(kids.contains(kids[0]));
    let i = choose|i: int| 0 <= i < bs.len() && bs[i] == kids[0];
    lemma_idx_of_unique(bs, i);
}

} // verus!
