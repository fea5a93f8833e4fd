//! Restacking: moving a branch, and optionally its descendants, onto
//! another parent.

use vstd::prelude::*;
use crate::stack::{
    Stack, StackBranch, StackError, opt_str, names, has_name, idx_of, is_desc, parent_of,
    clone_opt_string, parents_first, acyclic, reparented, restack_keeps_stack_acyclic,
};
use crate::text::{push_str, push_string, string_from_chars};
use crate::output::MessageKind;

verus! {

/// Errors of a restack.
#[derive(Debug)]
pub enum RestackError {
    /// A rebase stopped on conflicts in the given files.
    Conflict { branch: String, files: Vec<String> },
    /// Any other failure, with its message.
    Other(String),
}

impl RestackError {
    /// The message describing the error.
    pub fn message(&self) -> (r: String)
        ensures
            match self {
                RestackError::Conflict { branch, .. } => r@ == "Rebase conflict in '"@ + branch@ + "'"@,
                RestackError::Other(m) => r@ == m@,
            },
    {
        match self {
            RestackError::Conflict { branch, .. } => {
                let mut m: Vec<char> = Vec::new();
                push_str(&mut m, "Rebase conflict in '");
                push_string(&mut m, branch);
                push_str(&mut m, "'");
                string_from_chars(&m)
            },
            RestackError::Other(m) => m.clone(),
        }
    }
}

/// What to restack.
#[derive(Debug, Clone)]
pub struct RestackConfig {
    pub target_branch: String,
    pub new_parent: String,
    pub include_children: bool,
}

/// A branch whose local and remote tips have both moved on.
#[derive(Debug, Clone)]
pub struct DivergenceInfo {
    pub branch: String,
    pub ahead: usize,
    pub behind: usize,
}

impl DivergenceInfo {
    /// A copy of this record.
    pub fn duplicate(&self) -> (d: DivergenceInfo)
        ensures
            d == *self,
    {
        DivergenceInfo { branch: self.branch.clone(), ahead: self.ahead, behind: self.behind }
    }
}

/// A copy of a list of divergence records.
pub fn clone_divergences(v: &Vec<DivergenceInfo>) -> (r: Vec<DivergenceInfo>)
    ensures
        r@ == v@,
{
    let mut r: Vec<DivergenceInfo> = Vec::new();
    let mut i: usize = 0;
    while i < v.len()
        invariant
            i <= v@.len(),
            r@ == v@.take(i as int),
        decreases v@.len() - i,
    {
        r.push(v[i].duplicate());
        i += 1;
        assert(r@ =~= v@.take(i as int));
    }
    assert(v@.take(i as int) =~= v@);
    r
}

/// How a local branch relates to its remote counterpart.
#[derive(Debug, Clone, Copy, PartialEq, Eq, Structural)]
pub enum RemoteDivergence {
    InSync,
    Ahead { commits: usize },
    Behind { commits: usize },
    Diverged { ahead: usize, behind: usize },
    NoRemote,
}

/// The plan of a restack.
#[derive(Debug, Clone)]
pub struct RestackPlan {
    pub target_branch: String,
    pub new_parent: String,
    pub old_parent: Option<String>,
    pub branches_to_rebase: Vec<String>,
    pub needs_rebase: bool,
    pub diverged: Vec<DivergenceInfo>,
}

/// The outcome of a restack.
#[derive(Debug, Clone)]
pub struct RestackResult {
    pub target_branch: String,
    pub old_parent: Option<String>,
    pub new_parent: String,
    pub branches_rebased: Vec<String>,
    pub diverged_branches: Vec<DivergenceInfo>,
}

/// What the checks before a restack decided.
#[derive(Debug)]
pub enum RestackCheck {
    /// The branch already has that parent: nothing to do.
    AlreadyBased { old_parent: Option<String> },
    /// The restack can go ahead.
    Proceed { old_parent: Option<String> },
}

/// Why a restack is refused, if it is: the target is not in the stack,
/// the new parent is neither in the stack nor in git, or the move would
/// make a branch its own ancestor.
pub open spec fn restack_refusal(bs: Seq<StackBranch>, target: Seq<char>, new_parent: Seq<char>, parent_in_git: bool) -> Option<Seq<char>> {
    if !has_name(bs, target) {
        Some("Branch '"@ + target + "' is not in the stack"@)
    } else if !has_name(bs, new_parent) && !parent_in_git {
        Some("Branch '"@ + new_parent + "' does not exist"@)
    } else if new_parent == target || is_desc(bs, new_parent, target) {
        Some("Cannot restack '"@ + target + "' onto '"@ + new_parent + "': would create a cycle"@)
    } else {
        None
    }
}

/// A restack that the checks let through never makes a branch its own
/// ancestor: the new parent is neither the target nor any branch stacked,
/// directly or not, on the target; so a stack without cycles, with the
/// target moved onto the new parent, is still without cycles.
pub proof fn allowed_restack_keeps_acyclic(
    before: Stack,
    after: Stack,
    target: Seq<char>,
    new_parent: Seq<char>,
    parent_in_git: bool,
)
    requires
        before.wf(),
        acyclic(before.branches@),
        reparented(before.branches@, after.branches@, target, new_parent),
        restack_refusal(before.branches@, target, new_parent, parent_in_git) is None,
    ensures
        new_parent != target,
        !is_desc(before.branches@, new_parent, target),
        acyclic(after.branches@),
{
    restack_keeps_stack_acyclic(before, after, target, new_parent);
}

/// The checks refuse a restack only when the target is not in the stack,
/// the new parent exists neither in the stack nor in git, or the new parent
/// is the target or stacked (directly or not) on it.
pub proof fn restack_refused_only_for_cause(bs: Seq<StackBranch>, target: Seq<char>, new_parent: Seq<char>, parent_in_git: bool)
    ensures
        restack_refusal(bs, target, new_parent, parent_in_git) is Some <==> (!has_name(bs, target) || (!has_name(
            bs,
            new_parent,
        ) && !parent_in_git) || new_parent == target || is_desc(bs, new_parent, target)),
{
}

/// Checks a restack before any git work: `parent_in_git` is whether the new
/// parent exists as a git branch.
pub fn check_restack(stack: &Stack, config: &RestackConfig, parent_in_git: bool) -> (r: Result<RestackCheck, RestackError>)
    requires
        stack.wf(),
    ensures
        ({
            let bs = stack.branches@;
            let refusal = restack_refusal(bs, config.target_branch@, config.new_parent@, parent_in_git);
            match r {
                Err(RestackError::Other(m)) => refusal == Some(m@),
                Err(RestackError::Conflict { .. }) => false,
                Ok(RestackCheck::AlreadyBased { old_parent }) => refusal is None && opt_str(old_parent)
                    == parent_of_target(bs, config.target_branch@) && opt_str(old_parent) == Some(config.new_parent@),
                Ok(RestackCheck::Proceed { old_parent }) => refusal is None && opt_str(old_parent)
                    == parent_of_target(bs, config.target_branch@) && opt_str(old_parent) != Some(config.new_parent@),
            }
        }),
{
    let t = &config.target_branch;
    let np = &config.new_parent;
    let idx = match stack.find_index(t) {
        Some(i) => i,
        None => {
            let mut m: Vec<char> = Vec::new();
            push_str(&mut m, "Branch '");
            push_string(&mut m, t);
            push_str(&mut m, "' is not in the stack");
            return Err(RestackError::Other(string_from_chars(&m)));
        },
    };
    let old_parent = clone_opt_string(&stack.branches[idx].parent);
    if !stack.contains(np) && !parent_in_git {
        let mut m: Vec<char> = Vec::new();
        push_str(&mut m, "Branch '");
        push_string(&mut m, np);
        push_str(&mut m, "' does not exist");
        return Err(RestackError::Other(string_from_chars(&m)));
    }
    if stack.would_create_cycle(t, np) {
        let mut m: Vec<char> = Vec::new();
        push_str(&mut m, "Cannot restack '");
        push_string(&mut m, t);
        push_str(&mut m, "' onto '");
        push_string(&mut m, np);
        push_str(&mut m, "': would create a cycle");
        return Err(RestackError::Other(string_from_chars(&m)));
    }
    let same = match &old_parent {
        Some(p) => *p == *np,
        None => false,
    };
    if same {
        Ok(RestackCheck::AlreadyBased { old_parent })
    } else {
        Ok(RestackCheck::Proceed { old_parent })
    }
}

/// The parent recorded for the target (`None` when it has none or is not in
/// the stack).
pub open spec fn parent_of_target(bs: Seq<StackBranch>, t: Seq<char>) -> Option<Seq<char>> {
    if has_name(bs, t) { opt_str(bs[idx_of(bs, t)].parent) } else { None }
}

/// The branches a restack rebases: the target, then, with
/// `include_children`, all its descendants, parents before children.
pub fn rebase_list(stack: &Stack, config: &RestackConfig) -> (r: Vec<String>)
    requires
        stack.wf(),
    ensures
        r@.len() >= 1,
        r@[0]@ == config.target_branch@,
        !config.include_children ==> r@.len() == 1,
        config.include_children ==> forall|d: Seq<char>|
            #![trigger names(r@.drop_first()).contains(d)]
            names(r@.drop_first()).contains(d) <==> (is_desc(stack.branches@, d, config.target_branch@)
                && d != config.target_branch@),
        config.include_children ==> parents_first(stack.branches@, r@.drop_first(), config.target_branch@),
        names(r@.drop_first()).no_duplicates(),
{
    let mut r: Vec<String> = Vec::new();
    r.push(config.target_branch.clone());
    if config.include_children {
        let desc = stack.descendant_names(&config.target_branch);
        let n = desc.len();
        let mut i: usize = 0;
        while i < n
            invariant
                n == desc@.len(),
                i <= n,
                r@.len() == i + 1,
                r@[0]@ == config.target_branch@,
                forall|k: int| 0 <= k < i ==> #[trigger] r@[k + 1] == desc@[k],
            decreases n - i,
        {
            r.push(desc[i].clone());
            i += 1;
        }
        assert(r@.drop_first() =~= desc@);
    } else {
        assert(names(r@.drop_first()) =~= Seq::<Seq<char>>::empty());
    }
    r
}

/// The branches among `branches` that diverged from their remote
/// counterparts, in order; `remote[i]` is how the `i`-th branch relates to
/// its remote one (`None` when that could not be told).
pub open spec fn diverged_list(branches: Seq<String>, remote: Seq<Option<RemoteDivergence>>) -> Seq<DivergenceInfo>
    decreases branches.len(),
{
    if branches.len() == 0 {
        Seq::empty()
    } else {
        let n = branches.len() - 1;
        let prev = diverged_list(branches.take(n), remote.take(n));
        match remote[n] {
            Some(RemoteDivergence::Diverged { ahead, behind }) => prev.push(
                DivergenceInfo { branch: branches[n], ahead, behind },
            ),
            _ => prev,
        }
    }
}

/// The branches that diverged from their remote counterparts.
pub fn check_divergence(branches: &Vec<String>, remote: &Vec<Option<RemoteDivergence>>) -> (r: Vec<DivergenceInfo>)
    requires
        remote@.len() == branches@.len(),
    ensures
        r@ == diverged_list(branches@, remote@),
{
    let n = branches.len();
    let mut r: Vec<DivergenceInfo> = Vec::new();
    let mut i: usize = 0;
    while i < n
        invariant
            n == branches@.len(),
            remote@.len() == n,
            i <= n,
            r@ == diverged_list(branches@.take(i as int), remote@.take(i as int)),
        decreases n - i,
    {
        assert(branches@.take(i + 1).take(i as int) =~= branches@.take(i as int));
        assert(remote@.take(i + 1).take(i as int) =~= remote@.take(i as int));
        match remote[i] {
            Some(RemoteDivergence::Diverged { ahead, behind }) => {
                r.push(DivergenceInfo { branch: branches[i].clone(), ahead, behind });
            },
            _ => {},
        }
        i += 1;
    }
    assert(branches@.take(n as int) =~= branches@);
    assert(remote@.take(n as int) =~= remote@);
    r
}

/// The plan when the branch already sits on the requested parent: nothing
/// to rebase.
pub fn unchanged_plan(config: &RestackConfig, old_parent: Option<String>) -> (p: RestackPlan)
    ensures
        p.target_branch@ == config.target_branch@,
        p.new_parent@ == config.new_parent@,
        p.old_parent == old_parent,
        p.branches_to_rebase@.len() == 0,
        !p.needs_rebase,
        p.diverged@.len() == 0,
{
    RestackPlan {
        target_branch: config.target_branch.clone(),
        new_parent: config.new_parent.clone(),
        old_parent,
        branches_to_rebase: Vec::new(),
        needs_rebase: false,
        diverged: Vec::new(),
    }
}

/// The plan of a restack that moves the branch: a rebase is needed unless
/// the new parent's tip (`parent_commit`) already is the merge base of the
/// two branches; `branches` are the branches to rebase and `remote[i]` how
/// the `i`-th of them relates to its remote counterpart.
pub fn plan_restack(
    config: &RestackConfig,
    old_parent: Option<String>,
    merge_base: &String,
    parent_commit: &String,
    branches: Vec<String>,
    remote: &Vec<Option<RemoteDivergence>>,
) -> (p: RestackPlan)
    requires
        remote@.len() == branches@.len(),
    ensures
        p.target_branch@ == config.target_branch@,
        p.new_parent@ == config.new_parent@,
        p.old_parent == old_parent,
        p.needs_rebase == (merge_base@ != parent_commit@),
        p.branches_to_rebase@ == branches@,
        p.diverged@ == diverged_list(branches@, remote@),
{
    let needs_rebase = *merge_base != *parent_commit;
    let diverged = check_divergence(&branches, remote);
    RestackPlan {
        target_branch: config.target_branch.clone(),
        new_parent: config.new_parent.clone(),
        old_parent,
        branches_to_rebase: branches,
        needs_rebase,
        diverged,
    }
}

/// The saved progress of a restack, so that an interrupted one can be
/// continued or aborted.
#[derive(Debug, Clone)]
pub struct RestackState {
    pub backup_id: String,
    pub target_branch: String,
    pub new_parent: String,
    pub old_parent: Option<String>,
    pub original_branch: String,
    /// The branch being rebased; empty when none is.
    pub current_branch: String,
    pub completed: Vec<String>,
    pub remaining: Vec<String>,
    pub stack_updated: bool,
    pub diverged_branches: Vec<DivergenceInfo>,
}

/// The branches still to rebase: the current one, if any, then the rest.
pub open spec fn pending(s: RestackState) -> Seq<String> {
    if s.current_branch@.len() == 0 {
        s.remaining@
    } else {
        seq![s.current_branch] + s.remaining@
    }
}

/// No branch name in `v` is empty.
pub open spec fn all_named(v: Seq<String>) -> bool {
    forall|i: int| 0 <= i < v.len() ==> (#[trigger] v[i])@.len() > 0
}

/// `b` is `a` after one branch was rebased: the current branch is done and
/// the next one, if any, becomes current.
pub open spec fn advanced(a: RestackState, b: RestackState) -> bool {
    &&& b.completed@ == (if a.current_branch@.len() == 0 {
        a.completed@
    } else {
        a.completed@.push(a.current_branch)
    })
    &&& a.remaining@.len() == 0 ==> b.current_branch@.len() == 0 && b.remaining@.len() == 0
    &&& a.remaining@.len() > 0 ==> b.current_branch == a.remaining@[0] && b.remaining@ == a.remaining@.drop_first()
    &&& b.backup_id == a.backup_id
    &&& b.target_branch == a.target_branch
    &&& b.new_parent == a.new_parent
    &&& b.old_parent == a.old_parent
    &&& b.original_branch == a.original_branch
    &&& b.stack_updated == a.stack_updated
    &&& b.diverged_branches == a.diverged_branches
}

impl RestackState {
    /// A restack about to rebase `branches` in order.
    pub fn new(
        backup_id: String,
        target_branch: String,
        new_parent: String,
        old_parent: Option<String>,
        original_branch: String,
        branches: Vec<String>,
        diverged_branches: Vec<DivergenceInfo>,
    ) -> (s: RestackState)
        ensures
            s.backup_id == backup_id,
            s.target_branch == target_branch,
            s.new_parent == new_parent,
            s.old_parent == old_parent,
            s.original_branch == original_branch,
            branches@.len() == 0 ==> s.current_branch@.len() == 0 && s.remaining@.len() == 0,
            branches@.len() > 0 ==> s.current_branch == branches@[0] && s.remaining@ == branches@.drop_first(),
            s.completed@.len() == 0,
            !s.stack_updated,
            s.diverged_branches == diverged_branches,
    {
        let mut remaining = branches;
        let current_branch = if remaining.len() > 0 {
            remaining.remove(0)
        } else {
            String::new()
        };
        RestackState {
            backup_id,
            target_branch,
            new_parent,
            old_parent,
            original_branch,
            current_branch,
            completed: Vec::new(),
            remaining,
            stack_updated: false,
            diverged_branches,
        }
    }

    /// Whether every branch has been rebased.
    pub fn is_complete(&self) -> (r: bool)
        ensures
            r == (self.current_branch@.len() == 0 && self.remaining@.len() == 0),
    {
        self.current_branch.as_str().is_empty() && self.remaining.len() == 0
    }

    /// Records that the current branch was rebased and moves to the next.
    pub fn advance(&mut self)
        ensures
            advanced(*old(self), *final(self)),
    {
        if !self.current_branch.as_str().is_empty() {
            let done = self.current_branch.clone();
            self.completed.push(done);
        }
        if self.remaining.len() > 0 {
            self.current_branch = self.remaining.remove(0);
        } else {
            self.current_branch = String::new();
        }
    }

    /// Records that the stack now holds the new parent.
    pub fn mark_stack_updated(&mut self)
        ensures
            final(self).stack_updated,
            *final(self) == (RestackState { stack_updated: true, ..*old(self) }),
    {
        self.stack_updated = true;
    }
}

/// A restack makes progress and loses nothing: when no branch name is
/// empty, one step moves exactly one branch from the pending ones to the
/// completed ones, keeping their order.
pub proof fn restack_advance_keeps_order(a: RestackState, b: RestackState)
    requires
        advanced(a, b),
        all_named(a.remaining@),
        a.current_branch@.len() > 0,
    ensures
        b.completed@ + pending(b) == a.completed@ + pending(a),
        pending(b).len() + 1 == pending(a).len(),
        b.completed@.len() == a.completed@.len() + 1,
{
    if a.remaining@.len() > 0 {
        assert(a.remaining@[0]@.len() > 0);
        assert(pending(b) =~= a.remaining@);
    } else {
        assert(pending(b) =~= Seq::<String>::empty());
    }
    assert(b.completed@ + pending(b) =~= a.completed@ + pending(a));
}

/// A restack starts with every planned branch pending and none completed.
pub proof fn restack_starts_with_all_pending(s: RestackState, branches: Seq<String>)
    requires
        branches.len() == 0 ==> s.current_branch@.len() == 0 && s.remaining@.len() == 0,
        branches.len() > 0 ==> s.current_branch == branches[0] && s.remaining@ == branches.drop_first(),
        s.completed@.len() == 0,
        all_named(branches),
    ensures
        s.completed@ + pending(s) == branches,
{
    if branches.len() > 0 {
        assert(branches[0]@.len() > 0);
        assert(pending(s) =~= branches);
    } else {
        assert(pending(s) =~= branches);
    }
    assert(s.completed@ + pending(s) =~= branches);
}

/// The state of a restack that is about to run: `backup_id` names the saved
/// tips of the planned branches.
pub fn start_restack(plan: &RestackPlan, original_branch: &String, backup_id: String) -> (s: RestackState)
    ensures
        s.backup_id == backup_id,
        s.target_branch == plan.target_branch,
        s.new_parent == plan.new_parent,
        s.old_parent == plan.old_parent,
        s.original_branch == *original_branch,
        plan.branches_to_rebase@.len() == 0 ==> s.current_branch@.len() == 0 && s.remaining@.len() == 0,
        plan.branches_to_rebase@.len() > 0 ==> s.current_branch == plan.branches_to_rebase@[0]
            && s.remaining@ == plan.branches_to_rebase@.drop_first(),
        s.completed@.len() == 0,
        !s.stack_updated,
        s.diverged_branches@ == plan.diverged@,
{
    RestackState::new(
        backup_id,
        plan.target_branch.clone(),
        plan.new_parent.clone(),
        clone_opt_string(&plan.old_parent),
        original_branch.clone(),
        plan.branches_to_rebase.clone(),
        clone_divergences(&plan.diverged),
    )
}

/// Carries out a plan that needs no rebase: the stack records the new
/// parent at once, and the returned state is already complete.
pub fn apply_without_rebase(stack: &mut Stack, plan: &RestackPlan, original_branch: &String) -> (r: Result<RestackState, StackError>)
    ensures
        r is Ok <==> has_name(old(stack).branches@, plan.target_branch@),
        r is Err ==> final(stack).branches@ == old(stack).branches@,
        r is Ok ==> reparented_to(old(stack).branches@, final(stack).branches@, plan.target_branch@, plan.new_parent),
        final(stack).merged@ == old(stack).merged@,
        old(stack).wf() ==> final(stack).wf(),
        r matches Ok(s) ==> ({
            &&& s.backup_id@.len() == 0
            &&& s.target_branch == plan.target_branch
            &&& s.new_parent == plan.new_parent
            &&& s.old_parent == plan.old_parent
            &&& s.original_branch == *original_branch
            &&& s.current_branch@.len() == 0
            &&& s.completed@ == seq![plan.target_branch]
            &&& s.remaining@.len() == 0
            &&& s.stack_updated
            &&& s.diverged_branches@ == plan.diverged@
        }),
{
    match stack.reparent(&plan.target_branch, Some(plan.new_parent.clone())) {
        Err(e) => Err(e),
        Ok(()) => {
            let mut completed: Vec<String> = Vec::new();
            completed.push(plan.target_branch.clone());
            Ok(RestackState {
                backup_id: String::new(),
                target_branch: plan.target_branch.clone(),
                new_parent: plan.new_parent.clone(),
                old_parent: clone_opt_string(&plan.old_parent),
                original_branch: original_branch.clone(),
                current_branch: String::new(),
                completed,
                remaining: Vec::new(),
                stack_updated: true,
                diverged_branches: clone_divergences(&plan.diverged),
            })
        },
    }
}

/// `bs2` is `bs` with the branch named `t` given the parent `p`, all else
/// unchanged.
pub open spec fn reparented_to(bs: Seq<StackBranch>, bs2: Seq<StackBranch>, t: Seq<char>, p: String) -> bool {
    let i = idx_of(bs, t);
    bs2 == bs.update(i, StackBranch { name: bs[i].name, parent: Some(p), pr: bs[i].pr })
}

/// The next thing a running restack does.
#[derive(Debug)]
pub enum RestackStep {
    /// Every branch is rebased: finish.
    Finish,
    /// Check out `branch` and rebase it onto the tip of `onto`.
    Rebase { branch: String, onto: String },
}

/// What a branch is rebased onto: the new parent for the moved branch; for
/// one of its descendants, its parent in the stack (the moved branch when it
/// has none recorded).
pub open spec fn rebase_onto(bs: Seq<StackBranch>, s: RestackState) -> Seq<char> {
    if s.current_branch@ == s.target_branch@ {
        s.new_parent@
    } else {
        match parent_of(bs, s.current_branch@) {
            Some(p) => p,
            None => s.target_branch@,
        }
    }
}

/// Decides the next step of a running restack.
pub fn next_restack_step(stack: &Stack, state: &RestackState) -> (r: RestackStep)
    ensures
        state.current_branch@.len() == 0 ==> r is Finish,
        state.current_branch@.len() > 0 ==> (r matches RestackStep::Rebase { branch, onto }
            && branch@ == state.current_branch@ && onto@ == rebase_onto(stack.branches@, *state)),
{
    if state.is_complete() || state.current_branch.as_str().is_empty() {
        return RestackStep::Finish;
    }
    let onto = if state.current_branch == state.target_branch {
        state.new_parent.clone()
    } else {
        match stack.parent_of(&state.current_branch) {
            Some(p) => p,
            None => state.target_branch.clone(),
        }
    };
    RestackStep::Rebase { branch: state.current_branch.clone(), onto }
}

/// How a rebase went.
#[derive(Debug)]
pub enum RebaseOutcome {
    Done,
    /// It stopped on conflicts in these files.
    Conflict(Vec<String>),
    /// It failed for another reason, given by the message.
    Failed(String),
}

/// Records the outcome of rebasing the current branch: on success the
/// restack moves on; a conflict stops it where it is (it can be continued);
/// any other failure stops it for good (the branches are then restored).
pub fn record_rebase(state: &mut RestackState, outcome: RebaseOutcome) -> (r: Result<(), RestackError>)
    ensures
        match outcome {
            RebaseOutcome::Done => r is Ok && advanced(*old(state), *final(state)),
            RebaseOutcome::Conflict(files) => *final(state) == *old(state) && r == Err::<(), RestackError>(
                RestackError::Conflict { branch: old(state).current_branch, files },
            ),
            RebaseOutcome::Failed(m) => *final(state) == *old(state) && r == Err::<(), RestackError>(
                RestackError::Other(m),
            ),
        },
{
    match outcome {
        RebaseOutcome::Done => {
            state.advance();
            Ok(())
        },
        RebaseOutcome::Conflict(files) => Err(RestackError::Conflict { branch: state.current_branch.clone(), files }),
        RebaseOutcome::Failed(m) => Err(RestackError::Other(m)),
    }
}

/// Finishes a restack: the stack records the new parent (unless an earlier
/// run already did), and the result reports what was rebased.
pub fn finalize_restack(stack: &mut Stack, state: &mut RestackState) -> (r: Result<RestackResult, StackError>)
    ensures
        old(state).stack_updated ==> r is Ok && final(stack).branches@ == old(stack).branches@ && *final(state) == *old(state),
        !old(state).stack_updated ==> (r is Ok <==> has_name(old(stack).branches@, old(state).target_branch@)),
        !old(state).stack_updated && r is Ok ==> reparented_to(
            old(stack).branches@,
            final(stack).branches@,
            old(state).target_branch@,
            old(state).new_parent,
        ) && *final(state) == (RestackState { stack_updated: true, ..*old(state) }),
        r is Err ==> final(stack).branches@ == old(stack).branches@ && *final(state) == *old(state),
        final(stack).merged@ == old(stack).merged@,
        old(stack).wf() ==> final(stack).wf(),
        r matches Ok(res) ==> ({
            &&& res.target_branch == old(state).target_branch
            &&& res.old_parent == old(state).old_parent
            &&& res.new_parent == old(state).new_parent
            &&& res.branches_rebased@ == old(state).completed@
            &&& res.diverged_branches@ == old(state).diverged_branches@
        }),
{
    if !state.stack_updated {
        match stack.reparent(&state.target_branch, Some(state.new_parent.clone())) {
            Err(e) => {
                return Err(e);
            },
            Ok(()) => {},
        }
        state.mark_stack_updated();
    }
    Ok(RestackResult {
        target_branch: state.target_branch.clone(),
        old_parent: clone_opt_string(&state.old_parent),
        new_parent: state.new_parent.clone(),
        branches_rebased: state.completed.clone(),
        diverged_branches: clone_divergences(&state.diverged_branches),
    })
}

/// Whether the user is taken back to the branch they started on after a
/// restack: unless it is the moved branch itself.
pub fn returns_to_original(original_branch: &String, state: &RestackState) -> (r: bool)
    ensures
        r == (original_branch@ != state.target_branch@),
{
    *original_branch != state.target_branch
}

/// The result reported when a restack is aborted: nothing counts as rebased.
pub fn aborted_result(state: &RestackState) -> (r: RestackResult)
    ensures
        r.target_branch == state.target_branch,
        r.old_parent == state.old_parent,
        r.new_parent == state.new_parent,
        r.branches_rebased@.len() == 0,
        r.diverged_branches@.len() == 0,
{
    RestackResult {
        target_branch: state.target_branch.clone(),
        old_parent: clone_opt_string(&state.old_parent),
        new_parent: state.new_parent.clone(),
        branches_rebased: Vec::new(),
        diverged_branches: Vec::new(),
    }
}

/// Refuses to abort or continue when no restack is in progress; `action`
/// is "abort" or "continue".
pub fn require_restack_in_progress(in_progress: bool, action: &str) -> (r: Result<(), RestackError>)
    ensures
        in_progress <==> r is Ok,
        r matches Err(RestackError::Other(m)) ==> m@ == "No restack in progress to "@ + action@,
        !(r matches Err(RestackError::Conflict { .. })),
{
    if in_progress {
        Ok(())
    } else {
        let mut m: Vec<char> = Vec::new();
        push_str(&mut m, "No restack in progress to ");
        push_str(&mut m, action);
        Err(RestackError::Other(string_from_chars(&m)))
    }
}

/// The message for a saved restack whose rebase is no longer running.
pub open spec fn stale_restack_message() -> Seq<char> {
    "Restack state exists but no rebase in progress (process may have crashed).\nRun `rung restack --abort` to clean up and restore branches."@
}

/// Refuses to continue a restack whose saved state names a branch being
/// rebased while git runs no rebase: the process that ran it must have
/// stopped.
pub fn check_not_stale(state: &RestackState, rebasing: bool) -> (r: Result<(), RestackError>)
    ensures
        r is Ok <==> (rebasing || state.current_branch@.len() == 0),
        r is Err ==> (r matches Err(RestackError::Other(m)) && m@ == stale_restack_message()),
{
    if !rebasing && !state.current_branch.as_str().is_empty() {
        let m = String::from_str("Restack state exists but no rebase in progress (process may have crashed).\nRun `rung restack --abort` to clean up and restore branches.");
        proof {
            reveal_strlit("Restack state exists but no rebase in progress (process may have crashed).\nRun `rung restack --abort` to clean up and restore branches.");
        }
        Err(RestackError::Other(m))
    } else {
        Ok(())
    }
}

/// The options of the restack command.
#[derive(Debug, Clone)]
pub struct RestackOptions {
    pub json: bool,
    pub branch: Option<String>,
    pub onto: Option<String>,
    pub dry_run: bool,
    pub continue_: bool,
    pub abort: bool,
    pub include_children: bool,
    pub force: bool,
}

/// How a restack run was asked to go.
#[derive(Debug, Clone, Copy, PartialEq, Eq, Structural)]
pub enum RestackMode {
    Start,
    Continue,
    Abort,
}

/// The mode the flags ask for; both `--continue` and `--abort` are refused.
pub fn restack_mode(opts: &RestackOptions) -> (r: Result<RestackMode, String>)
    ensures
        opts.continue_ && opts.abort <==> r is Err,
        r matches Err(m) ==> m@ == "Cannot use --continue and --abort together"@,
        r matches Ok(m) ==> m == (if opts.abort {
            RestackMode::Abort
        } else if opts.continue_ {
            RestackMode::Continue
        } else {
            RestackMode::Start
        }),
{
    if opts.continue_ && opts.abort {
        Err(String::from_str("Cannot use --continue and --abort together"))
    } else if opts.abort {
        Ok(RestackMode::Abort)
    } else if opts.continue_ {
        Ok(RestackMode::Continue)
    } else {
        Ok(RestackMode::Start)
    }
}

/// Refuses to start a restack while another one is in progress.
pub fn check_no_restack(in_progress: bool) -> (r: Result<(), String>)
    ensures
        r is Err <==> in_progress,
        r matches Err(m) ==> m@ == "Restack already in progress - use --continue to resume or --abort to cancel"@,
{
    if in_progress {
        Err(String::from_str("Restack already in progress - use --continue to resume or --abort to cancel"))
    } else {
        Ok(())
    }
}

/// The entry offered for a branch when choosing a new parent: its name,
/// and its pull request after " #".
pub open spec fn parent_option(b: StackBranch) -> Seq<char> {
    match b.pr {
        Some(n) => b.name@ + " #"@ + crate::text::decimal(n as nat),
        None => b.name@,
    }
}

/// The branches that can become the new parent of `target`: all but the
/// target itself and its descendants, in stack order.
pub open spec fn parent_candidates(bs: Seq<StackBranch>, target: Seq<char>) -> Seq<StackBranch> {
    bs.filter(|b: StackBranch| b.name@ != target && !is_desc(bs, b.name@, target))
}

/// The entries to choose a new parent from; refused with `--json`, which
/// cannot prompt, and when no branch qualifies.
pub fn parent_options(stack: &Stack, target: &String, json: bool) -> (r: Result<Vec<String>, String>)
    requires
        stack.wf(),
    ensures
        json ==> (r matches Err(m) && m@ == "--onto is required when using --json"@),
        !json && parent_candidates(stack.branches@, target@).len() == 0 ==> (r matches Err(m)
            && m@ == "No valid parent branches available in the stack"@),
        !json && parent_candidates(stack.branches@, target@).len() > 0 ==> (r matches Ok(v) && v@.len()
            == parent_candidates(stack.branches@, target@).len() && forall|i: int| 0 <= i < v@.len()
            ==> (#[trigger] v@[i])@ == parent_option(parent_candidates(stack.branches@, target@)[i])),
{
    if json {
        return Err(String::from_str("--onto is required when using --json"));
    }
    let ghost bs = stack.branches@;
    let ghost f = |b: StackBranch| b.name@ != target@ && !is_desc(bs, b.name@, target@);
    let desc = stack.descendant_names(target);
    let mut out: Vec<String> = Vec::new();
    let n = stack.branches.len();
    let mut i: usize = 0;
    while i < n
        invariant
            bs == stack.branches@,
            n == bs.len(),
            i <= n,
            f == (|b: StackBranch| b.name@ != target@ && !is_desc(bs, b.name@, target@)),
            forall|d: Seq<char>| #![trigger names(desc@).contains(d)]
                names(desc@).contains(d) <==> (is_desc(bs, d, target@) && d != target@),
            out@.len() == bs.take(i as int).filter(f).len(),
            forall|k: int| 0 <= k < out@.len() ==> (#[trigger] out@[k])@ == parent_option(bs.take(i as int).filter(f)[k]),
        decreases n - i,
    {
        proof {
            crate::stack::lemma_filter_take_step(bs, f, i as int);
        }
        let b = &stack.branches[i];
        let keep = b.name != *target && !crate::stack::contains_name(&desc, &b.name);
        if keep {
            let mut v: Vec<char> = Vec::new();
            push_string(&mut v, &b.name);
            match b.pr {
                Some(pr) => {
                    push_str(&mut v, " #");
                    let d = crate::text::decimal_chars(pr);
                    crate::text::push_all(&mut v, &d);
                },
                None => {},
            }
            out.push(string_from_chars(&v));
        }
        i += 1;
    }
    assert(bs.take(n as int) =~= bs);
    assert(parent_candidates(bs, target@) == bs.filter(f));
    if out.len() == 0 {
        return Err(String::from_str("No valid parent branches available in the stack"));
    }
    Ok(out)
}

/// The first whitespace-separated word of `s`, if it has one.
pub open spec fn first_word(s: Seq<char>) -> Option<Seq<char>>
    decreases s.len(),
{
    if s.len() == 0 {
        None
    } else if crate::text::is_ws(s[0]) {
        first_word(s.drop_first())
    } else {
        Some(leading_run(s))
    }
}

/// The characters of `s` before its first whitespace.
pub open spec fn leading_run(s: Seq<char>) -> Seq<char>
    decreases s.len(),
{
    if s.len() == 0 || crate::text::is_ws(s[0]) {
        Seq::empty()
    } else {
        seq![s[0]] + leading_run(s.drop_first())
    }
}

/// The branch named by a chosen entry: its first word.
pub fn parent_from_selection(selection: &str) -> (r: Option<String>)
    ensures
        match first_word(selection@) {
            None => r is None,
            Some(w) => r matches Some(b) && b@ == w,
        },
{
    let s = crate::text::chars_of(selection);
    let n = s.len();
    let mut i: usize = 0;
    assert(s@.subrange(0, n as int) =~= s@);
    while i < n && crate::text::char_is_whitespace(s[i])
        invariant
            s@ == selection@,
            n == s@.len(),
            i <= n,
            first_word(s@) == first_word(s@.subrange(i as int, n as int)),
        decreases n - i,
    {
        assert(s@.subrange(i as int, n as int).drop_first() =~= s@.subrange(i + 1, n as int));
        i += 1;
    }
    if i == n {
        assert(s@.subrange(i as int, n as int) =~= Seq::<char>::empty());
        return None;
    }
    assert(s@.subrange(i as int, n as int)[0] == s@[i as int]);
    let start = i;
    let mut w: Vec<char> = Vec::new();
    while i < n && !crate::text::char_is_whitespace(s[i])
        invariant
            s@ == selection@,
            n == s@.len(),
            start <= i <= n,
            w@ + leading_run(s@.subrange(i as int, n as int)) == leading_run(s@.subrange(start as int, n as int)),
        decreases n - i,
    {
        let ghost rest = s@.subrange(i as int, n as int);
        assert(rest.drop_first() =~= s@.subrange(i + 1, n as int));
        assert(rest[0] == s@[i as int]);
        w.push(s[i]);
        i += 1;
        assert(w@ + leading_run(s@.subrange(i as int, n as int)) =~= leading_run(s@.subrange(start as int, n as int)));
    }
    proof {
        let rest = s@.subrange(i as int, n as int);
        if i < n {
            assert(rest[0] == s@[i as int]);
        }
        assert(leading_run(rest) =~= Seq::<char>::empty());
        assert(w@ =~= leading_run(s@.subrange(start as int, n as int)));
    }
    Some(string_from_chars(&w))
}

/// What the restack command does once the plan is known.
#[derive(Debug, Clone, Copy, PartialEq, Eq, Structural)]
pub enum RestackDecision {
    /// The branch already sits on the new parent.
    AlreadyBased,
    /// Only the stack changes: the branch already contains the new parent.
    TopologyOnly,
    /// Show what would happen.
    DryRun,
    /// Stop: branches diverged from their remote counterparts.
    Diverged,
    /// Rebase.
    Proceed,
}

/// Decides what to do with a plan: nothing when the branch already sits on
/// the new parent; only update the stack when no rebase is needed; show
/// the plan on a dry run; stop when branches diverged from their remote
/// counterparts, unless forced; else rebase.
pub fn decide_restack(plan: &RestackPlan, dry_run: bool, force: bool) -> (r: RestackDecision)
    ensures
        r == (if opt_str(plan.old_parent) == Some(plan.new_parent@) && plan.branches_to_rebase@.len() == 0 {
            RestackDecision::AlreadyBased
        } else if !plan.needs_rebase {
            RestackDecision::TopologyOnly
        } else if dry_run {
            RestackDecision::DryRun
        } else if plan.diverged@.len() > 0 && !force {
            RestackDecision::Diverged
        } else {
            RestackDecision::Proceed
        }),
{
    let same = match &plan.old_parent {
        Some(p) => *p == plan.new_parent,
        None => false,
    };
    if same && plan.branches_to_rebase.len() == 0 {
        RestackDecision::AlreadyBased
    } else if !plan.needs_rebase {
        RestackDecision::TopologyOnly
    } else if dry_run {
        RestackDecision::DryRun
    } else if plan.diverged.len() > 0 && !force {
        RestackDecision::Diverged
    } else {
        RestackDecision::Proceed
    }
}

/// A parent name as shown: "(base)" when there is none.
pub open spec fn shown_parent(p: Option<String>) -> Seq<char> {
    match p {
        Some(x) => x@,
        None => "(base)"@,
    }
}

/// Appends a parent as shown.
fn push_shown_parent(v: &mut Vec<char>, p: &Option<String>)
    ensures
        final(v)@ == old(v)@ + shown_parent(*p),
{
    match p {
        Some(x) => push_string(v, x),
        None => push_str(v, "(base)"),
    }
}

/// The message when the branch already sits on the new parent.
pub fn already_based_message(target: &String, old_parent: &Option<String>) -> (r: String)
    ensures
        r@ == "'"@ + target@ + "' is already a child of '"@ + shown_parent(*old_parent) + "'"@,
{
    let mut v: Vec<char> = Vec::new();
    push_str(&mut v, "'");
    push_string(&mut v, target);
    push_str(&mut v, "' is already a child of '");
    push_shown_parent(&mut v, old_parent);
    push_str(&mut v, "'");
    string_from_chars(&v)
}

/// The messages when only the stack changes.
pub fn topology_messages(target: &String, new_parent: &String, dry_run: bool) -> (r: Vec<(MessageKind, String)>)
    ensures
        r@.len() == 2,
        dry_run ==> r@[0].0 == MessageKind::Info && r@[0].1@ == "Dry run - no changes made"@ && r@[1].0
            == MessageKind::Detail && r@[1].1@ == "'"@ + target@ + "' is already based on '"@ + new_parent@
            + "' - only stack topology would be updated"@,
        !dry_run ==> r@[0].0 == MessageKind::Success && r@[0].1@ == "Updated stack: '"@ + target@
            + "' now has parent '"@ + new_parent@ + "'"@ && r@[1].0 == MessageKind::Detail && r@[1].1@
            == "No rebase needed - branch was already based on new parent"@,
{
    let mut r: Vec<(MessageKind, String)> = Vec::new();
    let mut v: Vec<char> = Vec::new();
    if dry_run {
        r.push((MessageKind::Info, String::from_str("Dry run - no changes made")));
        push_str(&mut v, "'");
        push_string(&mut v, target);
        push_str(&mut v, "' is already based on '");
        push_string(&mut v, new_parent);
        push_str(&mut v, "' - only stack topology would be updated");
        r.push((MessageKind::Detail, string_from_chars(&v)));
    } else {
        push_str(&mut v, "Updated stack: '");
        push_string(&mut v, target);
        push_str(&mut v, "' now has parent '");
        push_string(&mut v, new_parent);
        push_str(&mut v, "'");
        r.push((MessageKind::Success, string_from_chars(&v)));
        r.push((MessageKind::Detail, String::from_str("No rebase needed - branch was already based on new parent")));
    }
    r
}

/// The messages of a dry run that would rebase.
pub fn dry_run_messages(target: &String, old_parent: &Option<String>, new_parent: &String) -> (r: Vec<(MessageKind, String)>)
    ensures
        r@.len() == 2,
        r@[0].0 == MessageKind::Info && r@[0].1@ == "Dry run - no changes made"@,
        r@[1].0 == MessageKind::Detail && r@[1].1@ == "Would restack '"@ + target@ + "' from '"@ + shown_parent(
            *old_parent,
        ) + "' onto '"@ + new_parent@ + "'"@,
{
    let mut r: Vec<(MessageKind, String)> = Vec::new();
    r.push((MessageKind::Info, String::from_str("Dry run - no changes made")));
    let mut v: Vec<char> = Vec::new();
    push_str(&mut v, "Would restack '");
    push_string(&mut v, target);
    push_str(&mut v, "' from '");
    push_shown_parent(&mut v, old_parent);
    push_str(&mut v, "' onto '");
    push_string(&mut v, new_parent);
    push_str(&mut v, "'");
    r.push((MessageKind::Detail, string_from_chars(&v)));
    r
}

/// The messages when branches diverged: a warning for each, then two
/// hints; the restack then fails with "Restack aborted: branches have
/// diverged from remote".
pub fn diverged_messages(diverged: &Vec<DivergenceInfo>) -> (r: Vec<(MessageKind, String)>)
    ensures
        r@.len() == diverged@.len() + 2,
        forall|i: int| 0 <= i < diverged@.len() ==> (#[trigger] r@[i]).0 == MessageKind::Warn && r@[i].1@
            == crate::status::diverged_warning(diverged@[i].branch@, diverged@[i].ahead, diverged@[i].behind),
        r@[diverged@.len() as int].0 == MessageKind::Detail,
        r@[diverged@.len() as int].1@ == "  Use --force to proceed anyway"@,
        r@[diverged@.len() as int + 1].0 == MessageKind::Detail,
        r@[diverged@.len() as int + 1].1@ == "  (rebased branches will need force-push to update remote)"@,
{
    let mut r: Vec<(MessageKind, String)> = Vec::new();
    let mut i: usize = 0;
    while i < diverged.len()
        invariant
            i <= diverged@.len(),
            r@.len() == i,
            forall|j: int| 0 <= j < i ==> (#[trigger] r@[j]).0 == MessageKind::Warn && r@[j].1@
                == crate::status::diverged_warning(diverged@[j].branch@, diverged@[j].ahead, diverged@[j].behind),
        decreases diverged@.len() - i,
    {
        let d = &diverged[i];
        let mut v: Vec<char> = Vec::new();
        push_string(&mut v, &d.branch);
        push_str(&mut v, " has diverged from remote (");
        let a = crate::text::decimal_usize(d.ahead);
        crate::text::push_all(&mut v, &a);
        push_str(&mut v, " ahead, ");
        let b = crate::text::decimal_usize(d.behind);
        crate::text::push_all(&mut v, &b);
        push_str(&mut v, " behind)");
        r.push((MessageKind::Warn, string_from_chars(&v)));
        i += 1;
    }
    r.push((MessageKind::Detail, String::from_str("  Use --force to proceed anyway")));
    r.push((MessageKind::Detail, String::from_str("  (rebased branches will need force-push to update remote)")));
    r
}

/// The message before rebasing: with descendants, how many.
pub fn start_message(target: &String, new_parent: &String, include_children: bool, count: usize) -> (r: String)
    ensures
        include_children && count > 1 ==> r@ == "Restacking '"@ + target@ + "' and "@ + crate::text::decimal(
            (count - 1) as nat,
        ) + " descendant(s) onto '"@ + new_parent@ + "'..."@,
        !(include_children && count > 1) ==> r@ == "Restacking '"@ + target@ + "' onto '"@ + new_parent@ + "'..."@,
{
    let mut v: Vec<char> = Vec::new();
    push_str(&mut v, "Restacking '");
    push_string(&mut v, target);
    if include_children && count > 1 {
        push_str(&mut v, "' and ");
        let d = crate::text::decimal_usize(count - 1);
        crate::text::push_all(&mut v, &d);
        push_str(&mut v, " descendant(s) onto '");
    } else {
        push_str(&mut v, "' onto '");
    }
    push_string(&mut v, new_parent);
    push_str(&mut v, "'...");
    string_from_chars(&v)
}

/// The message after a restack: with descendants, how many.
pub fn done_message(result: &RestackResult) -> (r: String)
    ensures
        result.branches_rebased@.len() > 1 ==> r@ == "Restacked '"@ + result.target_branch@ + "' and "@
            + crate::text::decimal((result.branches_rebased@.len() - 1) as nat) + " descendant(s) onto '"@
            + result.new_parent@ + "'"@,
        result.branches_rebased@.len() <= 1 ==> r@ == "Restacked '"@ + result.target_branch@ + "' onto '"@
            + result.new_parent@ + "'"@,
{
    let mut v: Vec<char> = Vec::new();
    push_str(&mut v, "Restacked '");
    push_string(&mut v, &result.target_branch);
    let n = result.branches_rebased.len();
    if n > 1 {
        push_str(&mut v, "' and ");
        let d = crate::text::decimal_usize(n - 1);
        crate::text::push_all(&mut v, &d);
        push_str(&mut v, " descendant(s) onto '");
    } else {
        push_str(&mut v, "' onto '");
    }
    push_string(&mut v, &result.new_parent);
    push_str(&mut v, "'");
    string_from_chars(&v)
}

/// The lines after a rebase conflict: how to go on or back, then the
/// conflicting files, when known, after a rule.
pub fn conflict_lines(files: &Vec<String>) -> (r: Vec<(MessageKind, String)>)
    ensures
        r@.len() == 7 + (if files@.len() > 0 { files@.len() + 2 } else { 0 }),
        r@[0] == (MessageKind::Error, r@[0].1) && r@[0].1@ == "Rebase conflict detected"@,
        r@[1].1@ == "Resolve conflicts, then run:"@,
        r@[2].1@ == "  git add <resolved-files>"@,
        r@[3].1@ == "  rung restack --continue"@,
        r@[4].1@.len() == 0,
        r@[5].1@ == "Or abort and restore with:"@,
        r@[6].1@ == "  rung restack --abort"@,
        forall|i: int| 1 <= i < 7 ==> (#[trigger] r@[i]).0 == MessageKind::Detail,
        files@.len() > 0 ==> r@[7].0 == MessageKind::Rule && r@[8].0 == MessageKind::Detail && r@[8].1@
            == "Conflicting files:"@ && forall|i: int| 0 <= i < files@.len() ==> (#[trigger] r@[i + 9]).0
            == MessageKind::Detail && r@[i + 9].1@ == "  "@ + files@[i]@,
{
    let mut r: Vec<(MessageKind, String)> = Vec::new();
    r.push((MessageKind::Error, String::from_str("Rebase conflict detected")));
    r.push((MessageKind::Detail, String::from_str("Resolve conflicts, then run:")));
    r.push((MessageKind::Detail, String::from_str("  git add <resolved-files>")));
    r.push((MessageKind::Detail, String::from_str("  rung restack --continue")));
    r.push((MessageKind::Detail, String::new()));
    r.push((MessageKind::Detail, String::from_str("Or abort and restore with:")));
    r.push((MessageKind::Detail, String::from_str("  rung restack --abort")));
    if files.len() > 0 {
        r.push((MessageKind::Rule, crate::output::rule_line()));
        r.push((MessageKind::Detail, String::from_str("Conflicting files:")));
        let mut i: usize = 0;
        while i < files.len()
            invariant
                i <= files@.len(),
                files@.len() > 0,
                r@.len() == 9 + i,
                r@[0] == (MessageKind::Error, r@[0].1) && r@[0].1@ == "Rebase conflict detected"@,
                r@[1].1@ == "Resolve conflicts, then run:"@,
                r@[2].1@ == "  git add <resolved-files>"@,
                r@[3].1@ == "  rung restack --continue"@,
                r@[4].1@.len() == 0,
                r@[5].1@ == "Or abort and restore with:"@,
                r@[6].1@ == "  rung restack --abort"@,
                forall|j: int| 1 <= j < 7 ==> (#[trigger] r@[j]).0 == MessageKind::Detail,
                r@[7].0 == MessageKind::Rule && r@[8].0 == MessageKind::Detail && r@[8].1@ == "Conflicting files:"@,
                forall|j: int| 0 <= j < i ==> (#[trigger] r@[j + 9]).0 == MessageKind::Detail && r@[j + 9].1@
                    == "  "@ + files@[j]@,
            decreases files@.len() - i,
        {
            let mut v: Vec<char> = Vec::new();
            push_str(&mut v, "  ");
            push_string(&mut v, &files[i]);
            r.push((MessageKind::Detail, string_from_chars(&v)));
            i += 1;
        }
    }
    r
}

} // verus!
