//! Merging a branch's pull request: which child pull requests move to the
//! merged branch's parent, how the stack changes afterwards, and how each
//! descendant is rebased.

use vstd::prelude::*;
use crate::stack::{
    Stack, StackBranch, has_name, idx_of, parent_of, names, is_desc, parents_first, opt_str,
    clone_opt_string, is_child_of, lemma_filter_take_step,
};
use crate::text::{push_str, push_string, push_all, string_from_chars, str_to_lowercase, lower_of, decimal, decimal_chars};

verus! {

/// What happened to one descendant of the merged branch.
#[derive(Debug, Clone)]
pub struct DescendantResult {
    pub branch: String,
    pub rebased: bool,
    pub pr_updated: bool,
}

/// How the forge merges a pull request.
#[derive(Debug, Clone, Copy, PartialEq, Eq, Structural)]
pub enum MergeMethod {
    Squash,
    Merge,
    Rebase,
}

/// All branches stacked, directly or not, on `root`, parents before their
/// children.
pub fn collect_descendants(stack: &Stack, root: &String) -> (r: Vec<String>)
    requires
        stack.wf(),
    ensures
        names(r@).no_duplicates(),
        forall|d: Seq<char>|
            #![trigger names(r@).contains(d)]
            names(r@).contains(d) <==> (is_desc(stack.branches@, d, root@) && d != root@),
        parents_first(stack.branches@, r@, root@),
{
    stack.descendant_names(root)
}

/// The message refusing an unknown merge method.
pub open spec fn invalid_method_message(method: Seq<char>) -> Seq<char> {
    "Invalid merge method: "@ + method + ". Use squash, merge, or rebase."@
}

/// The merge method named by `lower`, the lowercase form of `method`.
pub fn merge_method_from_lowercase(lower: &String, method: &str) -> (r: Result<MergeMethod, String>)
    ensures
        lower@ == "squash"@ <==> r == Ok::<MergeMethod, String>(MergeMethod::Squash),
        lower@ == "merge"@ <==> r == Ok::<MergeMethod, String>(MergeMethod::Merge),
        lower@ == "rebase"@ <==> r == Ok::<MergeMethod, String>(MergeMethod::Rebase),
        r matches Err(m) ==> m@ == invalid_method_message(method@),
{
    proof {
        reveal_strlit("squash");
        reveal_strlit("merge");
        reveal_strlit("rebase");
        assert("squash"@.len() == 6 && "merge"@.len() == 5 && "rebase"@.len() == 6);
        assert("squash"@[0] != "rebase"@[0]);
    }
    if *lower == String::from_str("squash") {
        Ok(MergeMethod::Squash)
    } else if *lower == String::from_str("merge") {
        Ok(MergeMethod::Merge)
    } else if *lower == String::from_str("rebase") {
        Ok(MergeMethod::Rebase)
    } else {
        let mut m: Vec<char> = Vec::new();
        push_str(&mut m, "Invalid merge method: ");
        push_str(&mut m, method);
        push_str(&mut m, ". Use squash, merge, or rebase.");
        Err(string_from_chars(&m))
    }
}

/// Reads a merge method, ignoring case.
pub fn parse_merge_method(method: &str) -> (r: Result<MergeMethod, String>)
    ensures
        lower_of(method@) == "squash"@ <==> r == Ok::<MergeMethod, String>(MergeMethod::Squash),
        lower_of(method@) == "merge"@ <==> r == Ok::<MergeMethod, String>(MergeMethod::Merge),
        lower_of(method@) == "rebase"@ <==> r == Ok::<MergeMethod, String>(MergeMethod::Rebase),
        r matches Err(m) ==> m@ == invalid_method_message(method@),
{
    let lower = str_to_lowercase(method);
    merge_method_from_lowercase(&lower, method)
}

/// The pull request to merge for the current branch, and the branch's
/// parent in the stack.
pub fn merge_target(stack: &Stack, current: &String) -> (r: Result<(u64, Option<String>), String>)
    ensures
        r is Ok <==> (has_name(stack.branches@, current@) && stack.branches@[idx_of(stack.branches@, current@)].pr is Some),
        r matches Ok((pr, parent)) ==> Some(pr) == stack.branches@[idx_of(stack.branches@, current@)].pr
            && parent == stack.branches@[idx_of(stack.branches@, current@)].parent,
        r matches Err(m) ==> (if has_name(stack.branches@, current@) {
            m@ == "No PR associated with branch '"@ + current@ + "'. Run `rung submit` first."@
        } else {
            m@ == "Branch '"@ + current@ + "' not in stack"@
        }),
{
    match stack.find_index(current) {
        None => {
            let mut m: Vec<char> = Vec::new();
            push_str(&mut m, "Branch '");
            push_string(&mut m, current);
            push_str(&mut m, "' not in stack");
            Err(string_from_chars(&m))
        },
        Some(i) => match stack.branches[i].pr {
            Some(pr) => Ok((pr, clone_opt_string(&stack.branches[i].parent))),
            None => {
                let mut m: Vec<char> = Vec::new();
                push_str(&mut m, "No PR associated with branch '");
                push_string(&mut m, current);
                push_str(&mut m, "'. Run `rung submit` first.");
                Err(string_from_chars(&m))
            },
        },
    }
}

/// Refuses a pull request the forge reports as not mergeable; `state` is
/// the forge's word for why, when it gives one.
pub fn check_mergeable(pr_number: u64, mergeable: Option<bool>, state: &Option<String>) -> (r: Result<(), String>)
    ensures
        r is Ok <==> mergeable != Some(false),
        r matches Err(m) ==> m@ == "PR #"@ + decimal(pr_number as nat) + " is not mergeable. State: "@ + (match state {
            Some(s) => s@,
            None => "unknown"@,
        }),
{
    if mergeable == Some(false) {
        let mut m: Vec<char> = Vec::new();
        push_str(&mut m, "PR #");
        let d = decimal_chars(pr_number);
        push_all(&mut m, &d);
        push_str(&mut m, " is not mergeable. State: ");
        match state {
            Some(s) => push_string(&mut m, s),
            None => push_str(&mut m, "unknown"),
        }
        Err(string_from_chars(&m))
    } else {
        Ok(())
    }
}

/// The branch the merged branch's children move to: its parent in the
/// stack, or else the base of its pull request.
pub fn merge_parent(stack_parent: &Option<String>, pr_base: &String) -> (r: String)
    ensures
        r == (match stack_parent {
            Some(p) => *p,
            None => *pr_base,
        }),
{
    match stack_parent {
        Some(p) => p.clone(),
        None => pr_base.clone(),
    }
}

/// The parent of `name` in the stack, or `default` when it has none.
pub open spec fn parent_or(bs: Seq<StackBranch>, name: Seq<char>, default: Seq<char>) -> Seq<char> {
    match parent_of(bs, name) {
        Some(p) => p,
        None => default,
    }
}

/// Every name in `ds` is a branch of the stack.
pub open spec fn all_in_stack(bs: Seq<StackBranch>, ds: Seq<String>) -> bool {
    forall|k: int| 0 <= k < ds.len() ==> has_name(bs, (#[trigger] ds[k])@)
}

/// The message for the first name of `ds` that is not in the stack.
pub open spec fn missing_message(bs: Seq<StackBranch>, ds: Seq<String>, m: Seq<char>) -> bool {
    exists|k: int|
        0 <= k < ds.len() && !has_name(bs, (#[trigger] ds[k])@) && all_in_stack(bs, ds.take(k))
            && m == "Branch '"@ + ds[k]@ + "' not found in stack"@
}

/// The pull requests of the direct children of `current` among `ds`, in
/// order: they are moved to `parent` before `current` is merged.
pub open spec fn child_prs(bs: Seq<StackBranch>, current: Seq<char>, parent: Seq<char>, ds: Seq<String>) -> Seq<u64>
    decreases ds.len(),
{
    if ds.len() == 0 {
        Seq::empty()
    } else {
        let n = ds.len() - 1;
        let prev = child_prs(bs, current, parent, ds.take(n));
        let b = bs[idx_of(bs, ds[n]@)];
        if parent_or(bs, ds[n]@, parent) == current && b.pr is Some {
            prev.push(b.pr->0)
        } else {
            prev
        }
    }
}

/// One more name of `ds` found in the stack.
proof fn lemma_all_in_stack_step(bs: Seq<StackBranch>, ds: Seq<String>, i: int)
    requires
        0 <= i < ds.len(),
        all_in_stack(bs, ds.take(i)),
        has_name(bs, ds[i]@),
    ensures
        all_in_stack(bs, ds.take(i + 1)),
{
    assert forall|k: int| 0 <= k < i + 1 implies has_name(bs, (#[trigger] ds.take(i + 1)[k])@) by {
        if k < i {
            assert(ds.take(i + 1)[k] == ds.take(i)[k]);
        }
    }
}

/// The message for a missing branch.
fn not_found_message(name: &String) -> (m: String)
    ensures
        m@ == "Branch '"@ + name@ + "' not found in stack"@,
{
    let mut m: Vec<char> = Vec::new();
    push_str(&mut m, "Branch '");
    push_string(&mut m, name);
    push_str(&mut m, "' not found in stack");
    string_from_chars(&m)
}

/// The pull requests to move from `current` to `parent` before the merge,
/// each with the base it had, for a rollback: those of the direct children
/// of `current` among the descendants `ds`.
pub fn child_pr_shifts(stack: &Stack, current: &String, parent: &String, ds: &Vec<String>) -> (r: Result<Vec<(u64, String)>, String>)
    ensures
        r is Ok <==> all_in_stack(stack.branches@, ds@),
        r matches Ok(v) ==> v@.len() == child_prs(stack.branches@, current@, parent@, ds@).len()
            && forall|k: int| 0 <= k < v@.len() ==> (#[trigger] v@[k]).0 == child_prs(stack.branches@, current@, parent@, ds@)[k]
                && v@[k].1@ == current@,
        r matches Err(m) ==> missing_message(stack.branches@, ds@, m@),
{
    let ghost bs = stack.branches@;
    let mut out: Vec<(u64, String)> = Vec::new();
    let n = ds.len();
    let mut i: usize = 0;
    while i < n
        invariant
            bs == stack.branches@,
            n == ds@.len(),
            i <= n,
            all_in_stack(bs, ds@.take(i as int)),
            out@.len() == child_prs(bs, current@, parent@, ds@.take(i as int)).len(),
            forall|k: int| 0 <= k < out@.len() ==> (#[trigger] out@[k]).0 == child_prs(bs, current@, parent@, ds@.take(i as int))[k]
                && out@[k].1@ == current@,
        decreases n - i,
    {
        let ghost prev = child_prs(bs, current@, parent@, ds@.take(i as int));
        proof {
            assert(ds@.take(i + 1).take(i as int) =~= ds@.take(i as int));
            assert(ds@.take(i + 1)[i as int] == ds@[i as int]);
        }
        match stack.find_index(&ds[i]) {
            None => {
                let m = not_found_message(&ds[i]);
                proof {
                    assert(!has_name(bs, ds@[i as int]@));
                    assert(missing_message(bs, ds@, m@));
                }
                return Err(m);
            },
            Some(j) => {
                let sp = match &stack.branches[j].parent {
                    Some(p) => p.clone(),
                    None => parent.clone(),
                };
                assert(sp@ == parent_or(bs, ds@[i as int]@, parent@));
                if sp == *current {
                    match stack.branches[j].pr {
                        Some(pr) => {
                            out.push((pr, current.clone()));
                        },
                        None => {},
                    }
                }
                proof {
                    lemma_all_in_stack_step(bs, ds@, i as int);
                }
            },
        }
        i += 1;
    }
    assert(ds@.take(n as int) =~= ds@);
    Ok(out)
}

/// The stack with every child of `current` moved onto `parent`.
pub open spec fn children_moved(bs: Seq<StackBranch>, current: Seq<char>, parent: String) -> Seq<StackBranch> {
    bs.map_values(|b: StackBranch| if opt_str(b.parent) == Some(current) {
        StackBranch { name: b.name, parent: Some(parent), pr: b.pr }
    } else {
        b
    })
}

/// The number of branches of `bs` stacked directly on `p`.
pub open spec fn child_count(bs: Seq<StackBranch>, p: Seq<char>) -> nat {
    bs.filter(is_child_of(p)).len()
}

/// The stack after `current` was merged: its children move onto `parent`,
/// it leaves the active branches for the merged records, and the merged
/// records are forgotten once no active branch is left. Returns how many
/// children moved; fails, as the original state shows no merge, when
/// `current` is not in the stack or has no pull request.
pub fn update_stack_after_merge(stack: &mut Stack, current: &String, parent: &String) -> (r: Result<usize, String>)
    requires
        old(stack).wf(),
    ensures
        ({
            let moved = children_moved(old(stack).branches@, current@, *parent);
            let i = idx_of(old(stack).branches@, current@);
            &&& r is Ok <==> (has_name(old(stack).branches@, current@) && old(stack).branches@[i].pr is Some)
            &&& r matches Ok(n) ==> n == child_count(old(stack).branches@, current@)
                && final(stack).branches@ == moved.remove(i)
                && (moved.remove(i).len() == 0 ==> final(stack).merged@.len() == 0)
                && (moved.remove(i).len() > 0 ==> final(stack).merged@.len() == old(stack).merged@.len() + 1
                    && final(stack).merged@.drop_last() == old(stack).merged@
                    && final(stack).merged@.last().name@ == current@)
            &&& r matches Err(m) ==> m@ == "Branch '"@ + current@ + "' missing from stack"@
        }),
        final(stack).wf(),
{
    let ghost bs = stack.branches@;
    let n = stack.branches.len();
    let mut count: usize = 0;
    let mut moved: Vec<StackBranch> = Vec::new();
    let mut i: usize = 0;
    while i < n
        invariant
            bs == stack.branches@,
            n == bs.len(),
            i <= n,
            count == child_count(bs.take(i as int), current@),
            count <= i,
            moved@ == children_moved(bs.take(i as int), current@, *parent),
        decreases n - i,
    {
        let b = &stack.branches[i];
        let child = match &b.parent {
            Some(p) => *p == *current,
            None => false,
        };
        proof {
            lemma_filter_take_step(bs, is_child_of(current@), i as int);
        }
        if child {
            moved.push(StackBranch { name: b.name.clone(), parent: Some(parent.clone()), pr: b.pr });
            count += 1;
        } else {
            moved.push(b.duplicate());
        }
        i += 1;
        proof {
            assert(moved@ =~= children_moved(bs.take(i as int), current@, *parent));
        }
    }
    proof {
        assert(bs.take(n as int) =~= bs);
        assert forall|x: int, y: int| 0 <= x < moved@.len() && 0 <= y < moved@.len() && x != y implies
            #[trigger] moved@[x].name@ != #[trigger] moved@[y].name@ by {
            assert(moved@[x].name == bs[x].name);
            assert(moved@[y].name == bs[y].name);
        }
    }
    stack.branches = moved;
    match stack.mark_merged(current) {
        None => {
            let mut m: Vec<char> = Vec::new();
            push_str(&mut m, "Branch '");
            push_string(&mut m, current);
            push_str(&mut m, "' missing from stack");
            proof {
                let mv = children_moved(bs, current@, *parent);
                assert forall|k: int| 0 <= k < bs.len() implies (#[trigger] mv[k]).name == bs[k].name && mv[k].pr == bs[k].pr by {}
                assert(has_name(bs, current@) ==> has_name(mv, current@) && idx_of(mv, current@) == idx_of(bs, current@)) by {
                    if has_name(bs, current@) {
                        crate::stack::lemma_idx_of_unique(mv, idx_of(bs, current@));
                    }
                }
                assert(has_name(mv, current@) ==> has_name(bs, current@)) by {
                    if has_name(mv, current@) {
                        let k = idx_of(mv, current@);
                        assert(mv[k].name == bs[k].name);
                    }
                }
            }
            Err(string_from_chars(&m))
        },
        Some(_) => {
            proof {
                let mv = children_moved(bs, current@, *parent);
                assert forall|k: int| 0 <= k < bs.len() implies (#[trigger] mv[k]).name == bs[k].name && mv[k].pr == bs[k].pr by {}
                let k = idx_of(mv, current@);
                assert(mv[k].name == bs[k].name);
                crate::stack::lemma_idx_of_unique(bs, k);
            }
            let ghost merged_before = stack.merged@;
            stack.clear_merged_if_empty();
            Ok(count)
        },
    }
}

/// How one descendant of the merged branch is rebased.
#[derive(Debug, Clone)]
pub struct DescendantStep {
    pub branch: String,
    /// The branch whose tip it moves onto.
    pub new_base: String,
    /// Whether that tip is read from the remote (the merged branch's parent,
    /// which the forge has just changed).
    pub base_from_remote: bool,
    /// The branch whose tip, from before the merge, it moves away from.
    pub old_base: String,
    /// The pull request whose base becomes `new_base`: that of a deeper
    /// descendant (direct children were moved before the merge).
    pub pr_to_update: Option<u64>,
}

/// The rebase of descendant `d` after `current` was merged into `parent`.
pub open spec fn descendant_step_ok(bs: Seq<StackBranch>, current: Seq<char>, parent: Seq<char>, d: Seq<char>, s: DescendantStep) -> bool {
    let sp = parent_or(bs, d, parent);
    let nb = if sp == current { parent } else { sp };
    &&& s.branch@ == d
    &&& s.new_base@ == nb
    &&& s.base_from_remote == (nb == parent)
    &&& s.old_base@ == sp
    &&& s.pr_to_update == (if sp != current { bs[idx_of(bs, d)].pr } else { None })
}

/// The rebase of each descendant in `ds` after `current` was merged into
/// `parent`.
pub fn descendant_steps(stack: &Stack, current: &String, parent: &String, ds: &Vec<String>) -> (r: Result<Vec<DescendantStep>, String>)
    ensures
        r is Ok <==> all_in_stack(stack.branches@, ds@),
        r matches Ok(v) ==> v@.len() == ds@.len() && forall|k: int| 0 <= k < v@.len()
            ==> descendant_step_ok(stack.branches@, current@, parent@, ds@[k]@, #[trigger] v@[k]),
        r matches Err(m) ==> missing_message(stack.branches@, ds@, m@),
{
    let ghost bs = stack.branches@;
    let mut out: Vec<DescendantStep> = Vec::new();
    let n = ds.len();
    let mut i: usize = 0;
    while i < n
        invariant
            bs == stack.branches@,
            n == ds@.len(),
            i <= n,
            all_in_stack(bs, ds@.take(i as int)),
            out@.len() == i,
            forall|k: int| 0 <= k < i ==> descendant_step_ok(bs, current@, parent@, ds@[k]@, #[trigger] out@[k]),
        decreases n - i,
    {
        match stack.find_index(&ds[i]) {
            None => {
                let m = not_found_message(&ds[i]);
                proof {
                    assert(!has_name(bs, ds@[i as int]@));
                    assert(missing_message(bs, ds@, m@));
                }
                return Err(m);
            },
            Some(j) => {
                let sp = match &stack.branches[j].parent {
                    Some(p) => p.clone(),
                    None => parent.clone(),
                };
                let direct = sp == *current;
                let new_base = if direct { parent.clone() } else { sp.clone() };
                let from_remote = new_base == *parent;
                let pr_to_update = if direct { None } else { stack.branches[j].pr };
                out.push(DescendantStep { branch: ds[i].clone(), new_base, base_from_remote: from_remote, old_base: sp, pr_to_update });
                proof {
                    lemma_all_in_stack_step(bs, ds@, i as int);
                }
            },
        }
        i += 1;
    }
    assert(ds@.take(n as int) =~= ds@);
    Ok(out)
}

/// The outcome for a descendant that was rebased and pushed; `pr_updated`
/// tells whether the forge accepted the new base of its pull request.
pub fn descendant_result(step: &DescendantStep, pr_updated: bool) -> (r: DescendantResult)
    ensures
        r.branch == step.branch,
        r.rebased,
        r.pr_updated == (step.pr_to_update is Some && pr_updated),
{
    DescendantResult { branch: step.branch.clone(), rebased: true, pr_updated: step.pr_to_update.is_some() && pr_updated }
}

/// The number of descendants that were rebased.
pub open spec fn rebased_count(rs: Seq<DescendantResult>) -> nat {
    rs.filter(was_rebased()).len()
}

/// Descendants that were rebased.
pub open spec fn was_rebased() -> spec_fn(DescendantResult) -> bool {
    |r: DescendantResult| r.rebased
}

/// Counts the descendants that were rebased.
pub fn count_rebased(results: &Vec<DescendantResult>) -> (n: usize)
    ensures
        n == rebased_count(results@),
{
    let ghost rs = results@;
    let mut n: usize = 0;
    let mut i: usize = 0;
    while i < results.len()
        invariant
            rs == results@,
            i <= rs.len(),
            n == rebased_count(rs.take(i as int)),
            n <= i,
        decreases rs.len() - i,
    {
        proof {
            lemma_filter_take_step(rs, was_rebased(), i as int);
        }
        if results[i].rebased {
            n += 1;
        }
        i += 1;
    }
    assert(rs.take(rs.len() as int) =~= rs);
    n
}

/// The messages announcing the pull requests moved to `parent` before the
/// merge.
pub fn relink_messages(shifts: &Vec<(u64, String)>, parent: &String) -> (r: Vec<String>)
    ensures
        r@.len() == shifts@.len(),
        forall|i: int| 0 <= i < r@.len() ==> (#[trigger] r@[i])@ == "Relinking PR #"@ + decimal(shifts@[i].0 as nat)
            + " to '"@ + parent@ + "' before merge..."@,
{
    let mut r: Vec<String> = Vec::new();
    let mut i: usize = 0;
    while i < shifts.len()
        invariant
            i <= shifts@.len(),
            r@.len() == i,
            forall|j: int| 0 <= j < i ==> (#[trigger] r@[j])@ == "Relinking PR #"@ + decimal(shifts@[j].0 as nat)
                + " to '"@ + parent@ + "' before merge..."@,
        decreases shifts@.len() - i,
    {
        let mut v: Vec<char> = Vec::new();
        push_str(&mut v, "Relinking PR #");
        let d = decimal_chars(shifts[i].0);
        push_all(&mut v, &d);
        push_str(&mut v, " to '");
        push_string(&mut v, parent);
        push_str(&mut v, "' before merge...");
        r.push(string_from_chars(&v));
        i += 1;
    }
    r
}

/// The lines about one rebased descendant: that it was rebased and pushed,
/// and that its pull request got the new base, when it did.
pub open spec fn descendant_lines_of(d: DescendantResult) -> Seq<Seq<char>> {
    (if d.rebased { seq!["  Rebased and pushed "@ + d.branch@] } else { Seq::empty() }) + (if d.pr_updated {
        seq!["  Updated PR base for "@ + d.branch@]
    } else {
        Seq::empty()
    })
}

/// All lines about the rebased descendants, in order.
pub open spec fn all_descendant_lines(ds: Seq<DescendantResult>) -> Seq<Seq<char>>
    decreases ds.len(),
{
    if ds.len() == 0 {
        Seq::empty()
    } else {
        all_descendant_lines(ds.drop_last()) + descendant_lines_of(ds.last())
    }
}

/// The lines about the rebased descendants.
pub fn descendant_lines(results: &Vec<DescendantResult>) -> (r: Vec<String>)
    ensures
        names(r@) == all_descendant_lines(results@),
{
    let mut r: Vec<String> = Vec::new();
    let mut i: usize = 0;
    while i < results.len()
        invariant
            i <= results@.len(),
            names(r@) == all_descendant_lines(results@.take(i as int)),
        decreases results@.len() - i,
    {
        let d = &results[i];
        let ghost before = r@;
        assert(results@.take(i + 1).drop_last() =~= results@.take(i as int));
        assert(results@.take(i + 1).last() == results@[i as int]);
        if d.rebased {
            let mut v: Vec<char> = Vec::new();
            push_str(&mut v, "  Rebased and pushed ");
            push_string(&mut v, &d.branch);
            r.push(string_from_chars(&v));
        }
        if d.pr_updated {
            let mut v: Vec<char> = Vec::new();
            push_str(&mut v, "  Updated PR base for ");
            push_string(&mut v, &d.branch);
            r.push(string_from_chars(&v));
        }
        assert(names(r@) =~= names(before) + descendant_lines_of(*d));
        i += 1;
    }
    assert(results@.take(results@.len() as int) =~= results@);
    r
}

/// A merge only moves the children of the merged branch: after it, every
/// remaining branch keeps its name and its pull request number, each child
/// of the merged branch sits on the merged branch's parent, and every other
/// branch keeps its parent.
pub proof fn merge_keeps_prs(bs: Seq<StackBranch>, current: Seq<char>, parent: String, i: int)
    requires
        0 <= i < bs.len(),
    ensures
        children_moved(bs, current, parent).remove(i).len() == bs.remove(i).len(),
        forall|k: int| 0 <= k < bs.remove(i).len() ==> {
            let after = #[trigger] children_moved(bs, current, parent).remove(i)[k];
            let before = bs.remove(i)[k];
            &&& after.name == before.name
            &&& after.pr == before.pr
            &&& opt_str(before.parent) == Some(current) ==> after.parent == Some(parent)
            &&& opt_str(before.parent) != Some(current) ==> after.parent == before.parent
        },
{
    let mv = children_moved(bs, current, parent);
    assert forall|k: int| 0 <= k < bs.remove(i).len() implies {
        let after = #[trigger] mv.remove(i)[k];
        let before = bs.remove(i)[k];
        &&& after.name == before.name
        &&& after.pr == before.pr
        &&& opt_str(before.parent) == Some(current) ==> after.parent == Some(parent)
        &&& opt_str(before.parent) != Some(current) ==> after.parent == before.parent
    } by {
        let q = if k < i { k } else { k + 1 };
        assert(mv.remove(i)[k] == mv[q]);
        assert(bs.remove(i)[k] == bs[q]);
    }
}

/// After a merge, no branch is left on the merged branch: every child of
/// the merged branch moved onto its parent, and the merged branch itself
/// left the active branches.
pub proof fn merge_leaves_no_children(bs: Seq<StackBranch>, current: Seq<char>, parent: String, i: int)
    requires
        parent@ != current,
        0 <= i < bs.len(),
    ensures
        forall|k: int| 0 <= k < children_moved(bs, current, parent).remove(i).len() ==> opt_str(
            (#[trigger] children_moved(bs, current, parent).remove(i)[k]).parent,
        ) != Some(current),
{
    let mv = children_moved(bs, current, parent);
    assert forall|k: int| 0 <= k < mv.remove(i).len() implies opt_str((#[trigger] mv.remove(i)[k]).parent) != Some(current) by {
        let j = if k < i { k } else { k + 1 };
        assert(mv.remove(i)[k] == mv[j]);
    }
}

} // verus!
