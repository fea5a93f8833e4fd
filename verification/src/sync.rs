//! Syncing the stack with the forge: which pull requests were merged
//! elsewhere, which ones point at the wrong base, and which bases to fix.

use vstd::prelude::*;
use crate::doctor::PrState;
use crate::stack::{Stack, StackBranch, opt_str};
use crate::text::{push_str, push_string, push_all, string_from_chars, decimal, decimal_usize, take_chars};
use crate::output::MessageKind;

verus! {

/// Above this many pull requests, they are fetched in one batched query
/// rather than one request each.
pub const BATCH_THRESHOLD: usize = 5;

/// Whether `n` pull requests are fetched in one batch.
pub fn use_batch(n: usize) -> (r: bool)
    ensures
        r == (n > BATCH_THRESHOLD),
{
    n > BATCH_THRESHOLD
}

/// What the forge reports of a pull request.
#[derive(Debug, Clone)]
pub struct PullRequest {
    pub number: u64,
    pub title: String,
    pub body: Option<String>,
    pub state: PrState,
    pub base_branch: String,
    pub head_branch: String,
    pub html_url: String,
    pub mergeable: Option<bool>,
    pub mergeable_state: Option<String>,
    pub draft: bool,
}

/// A pull request that was merged outside of this tool.
#[derive(Debug, Clone)]
pub struct ExternalMergeInfo {
    pub branch_name: String,
    pub pr_number: u64,
    pub merged_into: String,
}

/// A branch whose parent changes, with its pull request if it has one.
#[derive(Debug, Clone)]
pub struct ReparentedBranch {
    pub name: String,
    pub old_parent: String,
    pub new_parent: String,
    pub pr_number: Option<u64>,
}

/// A merged branch found while syncing.
#[derive(Debug, Clone)]
pub struct ReconciledMerge {
    pub name: String,
    pub pr_number: u64,
    pub merged_into: String,
}

/// What syncing with the forge found and changed.
#[derive(Debug, Clone)]
pub struct ReconcileResult {
    pub merged: Vec<ReconciledMerge>,
    /// Children of merged branches moved onto the branch they merged into.
    pub reparented: Vec<ReparentedBranch>,
    /// Open pull requests whose base did not match the stack.
    pub repaired: Vec<ReparentedBranch>,
}

impl ReconcileResult {
    /// Nothing found.
    pub fn empty() -> (r: ReconcileResult)
        ensures
            r.merged@.len() == 0,
            r.reparented@.len() == 0,
            r.repaired@.len() == 0,
    {
        ReconcileResult { merged: Vec::new(), reparented: Vec::new(), repaired: Vec::new() }
    }
}

/// The result of a push of one branch.
#[derive(Debug, Clone)]
pub struct PushInfo {
    pub branch: String,
    pub success: bool,
}

/// The base a pull request should have: the branch's parent in the stack,
/// or the stack's base branch.
pub open spec fn expected_base(stack_parent: Option<Seq<char>>, base_branch: Seq<char>) -> Seq<char> {
    match stack_parent {
        Some(p) => p,
        None => base_branch,
    }
}

/// Sorts one fetched pull request: a merged one is recorded as merged into
/// its base; an open one whose base is not the expected one is recorded as
/// needing its base corrected; a closed one is ignored.
pub fn process_pr_result(
    pr: &PullRequest,
    branch_name: &str,
    stack_parent: Option<&String>,
    pr_number: u64,
    base_branch: &str,
    merged_prs: &mut Vec<ExternalMergeInfo>,
    ghost_parents: &mut Vec<ReparentedBranch>,
)
    ensures
        ({
            let expected = expected_base(
                match stack_parent {
                    Some(p) => Some(p@),
                    None => None,
                },
                base_branch@,
            );
            match pr.state {
                PrState::Merged => {
                    &&& final(merged_prs)@ == old(merged_prs)@.push(final(merged_prs)@.last())
                    &&& final(merged_prs)@.last().branch_name@ == branch_name@
                    &&& final(merged_prs)@.last().pr_number == pr_number
                    &&& final(merged_prs)@.last().merged_into == pr.base_branch
                    &&& final(ghost_parents)@ == old(ghost_parents)@
                },
                PrState::Open => {
                    &&& final(merged_prs)@ == old(merged_prs)@
                    &&& pr.base_branch@ == expected ==> final(ghost_parents)@ == old(ghost_parents)@
                    &&& pr.base_branch@ != expected ==> {
                        &&& final(ghost_parents)@ == old(ghost_parents)@.push(final(ghost_parents)@.last())
                        &&& final(ghost_parents)@.last().name@ == branch_name@
                        &&& final(ghost_parents)@.last().old_parent == pr.base_branch
                        &&& final(ghost_parents)@.last().new_parent@ == expected
                        &&& final(ghost_parents)@.last().pr_number == Some(pr_number)
                    }
                },
                PrState::Closed => {
                    &&& final(merged_prs)@ == old(merged_prs)@
                    &&& final(ghost_parents)@ == old(ghost_parents)@
                },
            }
        }),
{
    match pr.state {
        PrState::Merged => {
            merged_prs.push(
                ExternalMergeInfo {
                    branch_name: String::from_str(branch_name),
                    pr_number,
                    merged_into: pr.base_branch.clone(),
                },
            );
        },
        PrState::Open => {
            let expected = match stack_parent {
                Some(p) => p.clone(),
                None => String::from_str(base_branch),
            };
            if pr.base_branch != expected {
                ghost_parents.push(
                    ReparentedBranch {
                        name: String::from_str(branch_name),
                        old_parent: pr.base_branch.clone(),
                        new_parent: expected,
                        pr_number: Some(pr_number),
                    },
                );
            }
        },
        PrState::Closed => {},
    }
}

/// The branches of the stack that have a pull request, in stack order,
/// each with its parent and the pull request's number.
pub open spec fn with_prs(bs: Seq<StackBranch>) -> Seq<StackBranch> {
    bs.filter(has_pr())
}

/// Branches that have a pull request.
pub open spec fn has_pr() -> spec_fn(StackBranch) -> bool {
    |b: StackBranch| b.pr is Some
}

/// The branches that have a pull request, with their parents and numbers.
pub fn branches_with_prs(stack: &Stack) -> (r: Vec<(String, Option<String>, u64)>)
    ensures
        r@.len() == with_prs(stack.branches@).len(),
        forall|k: int| 0 <= k < r@.len() ==> {
            let b = #[trigger] with_prs(stack.branches@)[k];
            &&& r@[k].0 == b.name
            &&& r@[k].1 == b.parent
            &&& Some(r@[k].2) == b.pr
        },
{
    let ghost bs = stack.branches@;
    let ghost f = has_pr();
    let mut out: Vec<(String, Option<String>, u64)> = Vec::new();
    let n = stack.branches.len();
    let mut i: usize = 0;
    while i < n
        invariant
            bs == stack.branches@,
            n == bs.len(),
            i <= n,
            f == has_pr(),
            out@.len() == bs.take(i as int).filter(f).len(),
            forall|k: int| 0 <= k < out@.len() ==> {
                let b = #[trigger] bs.take(i as int).filter(f)[k];
                &&& out@[k].0 == b.name
                &&& out@[k].1 == b.parent
                &&& Some(out@[k].2) == b.pr
            },
        decreases n - i,
    {
        proof {
            crate::stack::lemma_filter_take_step(bs, f, i as int);
        }
        let b = &stack.branches[i];
        match b.pr {
            Some(pr) => {
                out.push((b.name.clone(), crate::stack::clone_opt_string(&b.parent), pr));
            },
            None => {},
        }
        i += 1;
    }
    assert(bs.take(n as int) =~= bs);
    out
}

/// Sorts every fetched pull request: `fetched[i]` is what the forge
/// returned for the `i`-th entry (`None` when it could not be fetched,
/// which skips the entry).
pub fn sort_fetched_prs(
    entries: &Vec<(String, Option<String>, u64)>,
    fetched: &Vec<Option<PullRequest>>,
    base_branch: &str,
) -> (r: (Vec<ExternalMergeInfo>, Vec<ReparentedBranch>))
    requires
        fetched@.len() == entries@.len(),
    ensures
        r.0@.len() == merged_found(entries@, fetched@).len(),
        forall|k: int| 0 <= k < r.0@.len() ==> merge_view(#[trigger] r.0@[k]) == merged_found(entries@, fetched@)[k],
        r.1@.len() == ghosts_found(entries@, fetched@, base_branch@).len(),
        forall|k: int| 0 <= k < r.1@.len() ==> ghost_view(#[trigger] r.1@[k]) == ghosts_found(entries@, fetched@, base_branch@)[k],
{
    let mut merged: Vec<ExternalMergeInfo> = Vec::new();
    let mut ghosts: Vec<ReparentedBranch> = Vec::new();
    let n = entries.len();
    let mut i: usize = 0;
    while i < n
        invariant
            n == entries@.len(),
            fetched@.len() == n,
            i <= n,
            merged@.len() == merged_found(entries@.take(i as int), fetched@.take(i as int)).len(),
            forall|k: int| 0 <= k < merged@.len() ==> merge_view(#[trigger] merged@[k]) == merged_found(
                entries@.take(i as int),
                fetched@.take(i as int),
            )[k],
            ghosts@.len() == ghosts_found(entries@.take(i as int), fetched@.take(i as int), base_branch@).len(),
            forall|k: int| 0 <= k < ghosts@.len() ==> ghost_view(#[trigger] ghosts@[k]) == ghosts_found(
                entries@.take(i as int),
                fetched@.take(i as int),
                base_branch@,
            )[k],
        decreases n - i,
    {
        proof {
            assert(entries@.take(i + 1).take(i as int) =~= entries@.take(i as int));
            assert(fetched@.take(i + 1).take(i as int) =~= fetched@.take(i as int));
            assert(entries@.take(i + 1)[i as int] == entries@[i as int]);
            assert(fetched@.take(i + 1)[i as int] == fetched@[i as int]);
        }
        let ghost g0 = ghosts@;
        let ghost m0 = merged@;
        match &fetched[i] {
            Some(pr) => {
                let e = &entries[i];
                process_pr_result(pr, e.0.as_str(), e.1.as_ref(), e.2, base_branch, &mut merged, &mut ghosts);
                proof {
                    if ghosts@.len() > g0.len() {
                        assert(ghosts@[g0.len() as int] == ghosts@.last());
                    }
                    if merged@.len() > m0.len() {
                        assert(merged@[m0.len() as int] == merged@.last());
                    }
                    assert forall|k: int| 0 <= k < merged@.len() implies merge_view(#[trigger] merged@[k]) == merged_found(
                        entries@.take(i + 1),
                        fetched@.take(i + 1),
                    )[k] by {
                        if k < m0.len() {
                            assert(merged@[k] == m0[k]);
                        }
                    }
                    assert forall|k: int| 0 <= k < ghosts@.len() implies ghost_view(#[trigger] ghosts@[k]) == ghosts_found(
                        entries@.take(i + 1),
                        fetched@.take(i + 1),
                        base_branch@,
                    )[k] by {
                        if k < g0.len() {
                            assert(ghosts@[k] == g0[k]);
                        }
                    }
                }
            },
            None => {},
        }
        i += 1;
    }
    assert(entries@.take(n as int) =~= entries@);
    assert(fetched@.take(n as int) =~= fetched@);
    (merged, ghosts)
}

/// A merge as plain values: branch, pull request, branch merged into.
pub open spec fn merge_view(m: ExternalMergeInfo) -> (Seq<char>, u64, Seq<char>) {
    (m.branch_name@, m.pr_number, m.merged_into@)
}

/// The merged pull requests among the fetched ones, in order.
pub open spec fn merged_found(entries: Seq<(String, Option<String>, u64)>, fetched: Seq<Option<PullRequest>>) -> Seq<(Seq<char>, u64, Seq<char>)>
    decreases entries.len(),
{
    if entries.len() == 0 {
        Seq::empty()
    } else {
        let n = entries.len() - 1;
        let prev = merged_found(entries.take(n), fetched.take(n));
        match fetched[n] {
            Some(pr) => if pr.state == PrState::Merged {
                prev.push((entries[n].0@, entries[n].2, pr.base_branch@))
            } else {
                prev
            },
            None => prev,
        }
    }
}

/// A base correction as plain values: branch, old base, new base, pull
/// request.
pub open spec fn ghost_view(r: ReparentedBranch) -> (Seq<char>, Seq<char>, Seq<char>, Option<u64>) {
    (r.name@, r.old_parent@, r.new_parent@, r.pr_number)
}

/// The open pull requests among the fetched ones whose base is not the one
/// the stack expects, in order, with the base they should have.
pub open spec fn ghosts_found(
    entries: Seq<(String, Option<String>, u64)>,
    fetched: Seq<Option<PullRequest>>,
    base_branch: Seq<char>,
) -> Seq<(Seq<char>, Seq<char>, Seq<char>, Option<u64>)>
    decreases entries.len(),
{
    if entries.len() == 0 {
        Seq::empty()
    } else {
        let n = entries.len() - 1;
        let prev = ghosts_found(entries.take(n), fetched.take(n), base_branch);
        let expected = expected_base(opt_str(entries[n].1), base_branch);
        match fetched[n] {
            Some(pr) => if pr.state == PrState::Open && pr.base_branch@ != expected {
                prev.push((entries[n].0@, pr.base_branch@, expected, Some(entries[n].2)))
            } else {
                prev
            },
            None => prev,
        }
    }
}

/// The base changes to make on the forge: those of the moved and the
/// repaired branches that have a pull request, in that order, as pull
/// request, new base and old base.
pub open spec fn base_updates(r: ReconcileResult) -> Seq<(u64, Seq<char>, Seq<char>)> {
    updates_of(r.reparented@ + r.repaired@)
}

/// The base changes for the branches of `v` that have a pull request.
pub open spec fn updates_of(v: Seq<ReparentedBranch>) -> Seq<(u64, Seq<char>, Seq<char>)>
    decreases v.len(),
{
    if v.len() == 0 {
        Seq::empty()
    } else {
        let n = v.len() - 1;
        let prev = updates_of(v.take(n));
        match v[n].pr_number {
            Some(pr) => prev.push((pr, v[n].new_parent@, v[n].old_parent@)),
            None => prev,
        }
    }
}

/// Branches with a pull request.
pub open spec fn has_pr_number() -> spec_fn(ReparentedBranch) -> bool {
    |b: ReparentedBranch| b.pr_number is Some
}

/// One base change per branch of `v` with a pull request.
proof fn lemma_updates_len(v: Seq<ReparentedBranch>)
    ensures
        updates_of(v).len() == v.filter(has_pr_number()).len(),
    decreases v.len(),
{
    if v.len() > 0 {
        let n = v.len() - 1;
        lemma_updates_len(v.take(n));
        assert(v.take(n).push(v[n]) =~= v);
        v.take(n).lemma_filter_push(v[n], has_pr_number());
    }
}

/// The base changes for a prefix of `v` begin the base changes for `v`.
proof fn lemma_updates_prefix(v: Seq<ReparentedBranch>, k: int)
    requires
        0 <= k <= v.len(),
    ensures
        updates_of(v.take(k)).len() <= updates_of(v).len(),
        forall|j: int| 0 <= j < updates_of(v.take(k)).len() ==> #[trigger] updates_of(v)[j] == updates_of(v.take(k))[j],
    decreases v.len(),
{
    if k == v.len() {
        assert(v.take(k) =~= v);
    } else {
        let n = v.len() - 1;
        let w = v.take(n);
        assert(w.take(k) =~= v.take(k));
        lemma_updates_prefix(w, k);
    }
}

/// The branch at position `i` of `v`, when it has a pull request, gives the
/// base change at the position counting the branches with one before it.
proof fn lemma_updates_entry(v: Seq<ReparentedBranch>, i: int)
    requires
        0 <= i < v.len(),
        v[i].pr_number is Some,
    ensures
        updates_of(v.take(i)).len() < updates_of(v).len(),
        updates_of(v)[updates_of(v.take(i)).len() as int] == (v[i].pr_number->0, v[i].new_parent@, v[i].old_parent@),
{
    let t = v.take(i + 1);
    assert(t.take(i) =~= v.take(i));
    assert(t[i] == v[i]);
    lemma_updates_prefix(v, i + 1);
}

/// Every moved and every repaired branch with a pull request gets a base
/// change on the forge, from its old parent to its new one: first those of
/// the moved branches, then those of the repaired ones; and there is no
/// other change.
pub proof fn base_updates_cover_prs(r: ReconcileResult)
    ensures
        base_updates(r).len() == r.reparented@.filter(has_pr_number()).len() + r.repaired@.filter(
            has_pr_number(),
        ).len(),
        forall|i: int|
            0 <= i < r.reparented@.len() && (#[trigger] r.reparented@[i]).pr_number is Some ==> exists|j: int|
                0 <= j < r.reparented@.filter(has_pr_number()).len() && base_updates(r)[j] == (
                    r.reparented@[i].pr_number->0,
                    r.reparented@[i].new_parent@,
                    r.reparented@[i].old_parent@,
                ),
        forall|i: int|
            0 <= i < r.repaired@.len() && (#[trigger] r.repaired@[i]).pr_number is Some ==> exists|j: int|
                r.reparented@.filter(has_pr_number()).len() <= j < base_updates(r).len() && base_updates(r)[j] == (
                    r.repaired@[i].pr_number->0,
                    r.repaired@[i].new_parent@,
                    r.repaired@[i].old_parent@,
                ),
{
    let a = r.reparented@;
    let b = r.repaired@;
    let v = a + b;
    lemma_updates_len(v);
    lemma_updates_len(a);
    lemma_updates_len(b);
    Seq::filter_distributes_over_add(a, b, has_pr_number());
    assert(v.take(a.len() as int) =~= a);
    assert forall|i: int| 0 <= i < a.len() && (#[trigger] a[i]).pr_number is Some implies exists|j: int|
        0 <= j < a.filter(has_pr_number()).len() && base_updates(r)[j] == (a[i].pr_number->0, a[i].new_parent@, a[i].old_parent@) by {
        lemma_updates_entry(a, i);
        lemma_updates_prefix(v, a.len() as int);
        let j = updates_of(a.take(i)).len() as int;
        assert(base_updates(r)[j] == updates_of(a)[j]);
        assert(0 <= j < a.filter(has_pr_number()).len());
    }
    assert forall|i: int| 0 <= i < b.len() && (#[trigger] b[i]).pr_number is Some implies exists|j: int|
        a.filter(has_pr_number()).len() <= j < base_updates(r).len() && base_updates(r)[j] == (b[i].pr_number->0, b[i].new_parent@, b[i].old_parent@) by {
        let vi = a.len() + i;
        assert(v[vi] == b[i]);
        lemma_updates_entry(v, vi);
        lemma_updates_prefix(v.take(vi), a.len() as int);
        assert(v.take(vi).take(a.len() as int) =~= a);
        let j = updates_of(v.take(vi)).len() as int;
        assert(a.filter(has_pr_number()).len() <= j < base_updates(r).len());
        assert(base_updates(r)[j] == (b[i].pr_number->0, b[i].new_parent@, b[i].old_parent@));
    }
}

impl ReparentedBranch {
    /// A copy of this record.
    pub fn duplicate(&self) -> (r: ReparentedBranch)
        ensures
            r == *self,
    {
        ReparentedBranch {
            name: self.name.clone(),
            old_parent: self.old_parent.clone(),
            new_parent: self.new_parent.clone(),
            pr_number: self.pr_number,
        }
    }
}

/// The moved branches, then the repaired ones.
fn all_reparented(result: &ReconcileResult) -> (r: Vec<ReparentedBranch>)
    ensures
        r@ == result.reparented@ + result.repaired@,
{
    let mut r: Vec<ReparentedBranch> = Vec::new();
    let mut i: usize = 0;
    while i < result.reparented.len()
        invariant
            i <= result.reparented@.len(),
            r@ == result.reparented@.take(i as int),
        decreases result.reparented@.len() - i,
    {
        r.push(result.reparented[i].duplicate());
        i += 1;
        assert(r@ =~= result.reparented@.take(i as int));
    }
    assert(result.reparented@.take(i as int) =~= result.reparented@);
    let mut j: usize = 0;
    while j < result.repaired.len()
        invariant
            j <= result.repaired@.len(),
            r@ == result.reparented@ + result.repaired@.take(j as int),
        decreases result.repaired@.len() - j,
    {
        r.push(result.repaired[j].duplicate());
        j += 1;
        assert(r@ =~= result.reparented@ + result.repaired@.take(j as int));
    }
    assert(result.repaired@.take(j as int) =~= result.repaired@);
    r
}

/// The base changes to make on the forge after a sync.
pub fn pr_base_updates(result: &ReconcileResult) -> (r: Vec<(u64, String, String)>)
    ensures
        r@.len() == base_updates(*result).len(),
        forall|k: int| 0 <= k < r@.len() ==> {
            let u = #[trigger] base_updates(*result)[k];
            r@[k].0 == u.0 && r@[k].1@ == u.1 && r@[k].2@ == u.2
        },
{
    let all_v = all_reparented(result);
    let ghost all = all_v@;
    let mut out: Vec<(u64, String, String)> = Vec::new();
    let n = all_v.len();
    let mut i: usize = 0;
    while i < n
        invariant
            all == all_v@,
            all == result.reparented@ + result.repaired@,
            n == all.len(),
            i <= n,
            out@.len() == updates_of(all.take(i as int)).len(),
            forall|k: int| 0 <= k < out@.len() ==> {
                let u = #[trigger] updates_of(all.take(i as int))[k];
                out@[k].0 == u.0 && out@[k].1@ == u.1 && out@[k].2@ == u.2
            },
        decreases n - i,
    {
        let r = &all_v[i];
        proof {
            assert(all.take(i + 1).take(i as int) =~= all.take(i as int));
            assert(all.take(i + 1)[i as int] == all[i as int]);
        }
        let ghost o0 = out@;
        match r.pr_number {
            Some(pr) => {
                out.push((pr, r.new_parent.clone(), r.old_parent.clone()));
                proof {
                    assert forall|k: int| 0 <= k < out@.len() implies {
                        let u = #[trigger] updates_of(all.take(i + 1))[k];
                        out@[k].0 == u.0 && out@[k].1@ == u.1 && out@[k].2@ == u.2
                    } by {
                        if k < o0.len() {
                            assert(out@[k] == o0[k]);
                        }
                    }
                }
            },
            None => {},
        }
        i += 1;
    }
    assert(all.take(n as int) =~= all);
    out
}

/// Whether a pull request's base must be changed: not when the forge
/// already reports the wanted base (`current` is what it reports, `None`
/// when that could not be fetched).
pub fn needs_base_update(current: &Option<String>, new_base: &String) -> (r: bool)
    ensures
        r == !(current matches Some(c) && c@ == new_base@),
{
    match current {
        Some(c) => *c != *new_base,
        None => true,
    }
}

/// How a sync run was asked to go.
#[derive(Debug, Clone, Copy, PartialEq, Eq, Structural)]
pub enum SyncMode {
    Start,
    Continue,
    Abort,
}

/// The mode the flags ask for; both at once are refused.
pub fn sync_mode(continue_: bool, abort: bool) -> (r: Result<SyncMode, String>)
    ensures
        continue_ && abort <==> r is Err,
        r matches Err(m) ==> m@ == "Cannot use --continue and --abort together"@,
        r matches Ok(m) ==> m == (if abort {
            SyncMode::Abort
        } else if continue_ {
            SyncMode::Continue
        } else {
            SyncMode::Start
        }),
{
    if continue_ && abort {
        Err(String::from_str("Cannot use --continue and --abort together"))
    } else if abort {
        Ok(SyncMode::Abort)
    } else if continue_ {
        Ok(SyncMode::Continue)
    } else {
        Ok(SyncMode::Start)
    }
}

/// Refuses to continue or abort a sync that is not running, and to start
/// one while another is.
pub fn check_sync_progress(mode: SyncMode, in_progress: bool) -> (r: Result<(), String>)
    ensures
        r is Ok <==> (if mode == SyncMode::Start { !in_progress } else { in_progress }),
        r matches Err(m) ==> m@ == (match mode {
            SyncMode::Start => "Sync already in progress - use --continue to resume or --abort to cancel"@,
            SyncMode::Continue => "No sync in progress to continue"@,
            SyncMode::Abort => "No sync in progress to abort"@,
        }),
{
    match mode {
        SyncMode::Start => if in_progress {
            Err(String::from_str("Sync already in progress - use --continue to resume or --abort to cancel"))
        } else {
            Ok(())
        },
        SyncMode::Continue => if in_progress {
            Ok(())
        } else {
            Err(String::from_str("No sync in progress to continue"))
        },
        SyncMode::Abort => if in_progress {
            Ok(())
        } else {
            Err(String::from_str("No sync in progress to abort"))
        },
    }
}

/// The base branch of a sync: the one given with `--base`; else it is asked
/// of the forge (`Ok(None)`), which needs a GitHub origin.
pub fn base_branch_choice(base: Option<&str>, has_github_origin: bool) -> (r: Result<Option<String>, String>)
    ensures
        base matches Some(b) ==> (r matches Ok(Some(x)) && x@ == b@),
        base is None && has_github_origin ==> r == Ok::<Option<String>, String>(None),
        base is None && !has_github_origin ==> (r matches Err(m)
            && m@ == "No GitHub origin remote detected. Use --base <branch> to specify manually."@),
{
    match base {
        Some(b) => Ok(Some(String::from_str(b))),
        None => if has_github_origin {
            Ok(None)
        } else {
            Err(String::from_str("No GitHub origin remote detected. Use --base <branch> to specify manually."))
        },
    }
}

/// The pushes that succeeded.
pub open spec fn pushed_count(v: Seq<PushInfo>) -> nat {
    v.filter(push_ok()).len()
}

/// Pushes that succeeded.
pub open spec fn push_ok() -> spec_fn(PushInfo) -> bool {
    |p: PushInfo| p.success
}

/// Counts the pushes that succeeded.
pub fn count_pushed(results: &Vec<PushInfo>) -> (n: usize)
    ensures
        n == pushed_count(results@),
{
    let ghost v = results@;
    let mut n: usize = 0;
    let mut i: usize = 0;
    while i < results.len()
        invariant
            v == results@,
            i <= v.len(),
            n == pushed_count(v.take(i as int)),
            n <= i,
        decreases v.len() - i,
    {
        proof {
            crate::stack::lemma_filter_take_step(v, push_ok(), i as int);
        }
        if results[i].success {
            n += 1;
        }
        i += 1;
    }
    assert(v.take(v.len() as int) =~= v);
    n
}

/// How a sync of the branches ended.
#[derive(Debug, Clone)]
pub enum SyncResult {
    AlreadySynced,
    Complete { branches_rebased: usize, backup_id: String },
    Paused { at_branch: String, conflict_files: Vec<String>, backup_id: String },
}

/// The status reported by a sync.
#[derive(Debug, Clone, Copy, PartialEq, Eq, Structural)]
pub enum SyncStatus {
    AlreadySynced,
    Complete,
    Conflict,
    Aborted,
}

/// The machine-readable report of a sync.
#[derive(Debug, Clone)]
pub struct SyncOutput {
    pub status: SyncStatus,
    pub branches_rebased: Option<usize>,
    pub backup_id: Option<String>,
    pub conflict_branch: Option<String>,
    pub conflict_files: Vec<String>,
    pub github_auth_unavailable: bool,
}

/// The report of an aborted sync.
pub fn aborted_output() -> (o: SyncOutput)
    ensures
        o.status == SyncStatus::Aborted,
        o.branches_rebased is None,
        o.backup_id is None,
        o.conflict_branch is None,
        o.conflict_files@.len() == 0,
        !o.github_auth_unavailable,
{
    SyncOutput {
        status: SyncStatus::Aborted,
        branches_rebased: None,
        backup_id: None,
        conflict_branch: None,
        conflict_files: Vec::new(),
        github_auth_unavailable: false,
    }
}

/// A backup id as shown: its first eight characters.
pub open spec fn short_id(id: Seq<char>) -> Seq<char> {
    if id.len() <= 8 {
        id
    } else {
        id.take(8)
    }
}

/// The report of a sync, and the messages that tell it: up to date;
/// synced, with how many branches and the backup; or stopped on a
/// conflict, with the files and how to go on.
pub fn handle_sync_result(result: SyncResult, github_auth_unavailable: bool) -> (r: (SyncOutput, Vec<(MessageKind, String)>))
    ensures
        r.0.github_auth_unavailable == github_auth_unavailable,
        match result {
            SyncResult::AlreadySynced => {
                &&& r.0.status == SyncStatus::AlreadySynced
                &&& r.0.branches_rebased == Some(0usize)
                &&& r.0.backup_id is None && r.0.conflict_branch is None && r.0.conflict_files@.len() == 0
                &&& r.1@.len() == 1 && r.1@[0].0 == MessageKind::Success
                &&& r.1@[0].1@ == "Stack is already up-to-date"@
            },
            SyncResult::Complete { branches_rebased, backup_id } => {
                &&& r.0.status == SyncStatus::Complete
                &&& r.0.branches_rebased == Some(branches_rebased)
                &&& r.0.backup_id == Some(backup_id)
                &&& r.0.conflict_branch is None && r.0.conflict_files@.len() == 0
                &&& r.1@.len() == 1 && r.1@[0].0 == MessageKind::Success
                &&& r.1@[0].1@ == "Synced "@ + decimal(branches_rebased as nat) + " branches (backup: "@ + short_id(
                    backup_id@,
                ) + ")"@
            },
            SyncResult::Paused { at_branch, conflict_files, backup_id } => {
                let n = conflict_files@.len() as int;
                &&& r.0.status == SyncStatus::Conflict
                &&& r.0.branches_rebased is None
                &&& r.0.backup_id == Some(backup_id)
                &&& r.0.conflict_branch == Some(at_branch)
                &&& r.0.conflict_files@ == conflict_files@
                &&& r.1@.len() == n + 5
                &&& r.1@[0].0 == MessageKind::Warn && r.1@[0].1@ == "Conflict in branch '"@ + at_branch@ + "'"@
                &&& r.1@[1].0 == MessageKind::Info && r.1@[1].1@ == "Conflicting files:"@
                &&& forall|i: int| 0 <= i < n ==> (#[trigger] r.1@[i + 2]).0 == MessageKind::Essential
                    && r.1@[i + 2].1@ == seq![' ', ' ', '→', ' '] + conflict_files@[i]@
                &&& r.1@[n + 2].0 == MessageKind::Essential && r.1@[n + 2].1@.len() == 0
                &&& r.1@[n + 3].0 == MessageKind::Info && r.1@[n + 3].1@ == "Resolve conflicts, then run: rung sync --continue"@
                &&& r.1@[n + 4].0 == MessageKind::Info && r.1@[n + 4].1@ == "Or abort with: rung sync --abort"@
            },
        },
{
    let mut lines: Vec<(MessageKind, String)> = Vec::new();
    match result {
        SyncResult::AlreadySynced => {
            lines.push((MessageKind::Success, String::from_str("Stack is already up-to-date")));
            (SyncOutput {
                status: SyncStatus::AlreadySynced,
                branches_rebased: Some(0),
                backup_id: None,
                conflict_branch: None,
                conflict_files: Vec::new(),
                github_auth_unavailable,
            }, lines)
        },
        SyncResult::Complete { branches_rebased, backup_id } => {
            let mut v: Vec<char> = Vec::new();
            push_str(&mut v, "Synced ");
            let d = crate::text::decimal_usize(branches_rebased);
            crate::text::push_all(&mut v, &d);
            push_str(&mut v, " branches (backup: ");
            let short = crate::text::take_chars(backup_id.as_str(), 8);
            crate::text::push_string(&mut v, &short);
            push_str(&mut v, ")");
            lines.push((MessageKind::Success, string_from_chars(&v)));
            (SyncOutput {
                status: SyncStatus::Complete,
                branches_rebased: Some(branches_rebased),
                backup_id: Some(backup_id),
                conflict_branch: None,
                conflict_files: Vec::new(),
                github_auth_unavailable,
            }, lines)
        },
        SyncResult::Paused { at_branch, conflict_files, backup_id } => {
            let mut v: Vec<char> = Vec::new();
            push_str(&mut v, "Conflict in branch '");
            crate::text::push_string(&mut v, &at_branch);
            push_str(&mut v, "'");
            lines.push((MessageKind::Warn, string_from_chars(&v)));
            lines.push((MessageKind::Info, String::from_str("Conflicting files:")));
            let mut i: usize = 0;
            while i < conflict_files.len()
                invariant
                    i <= conflict_files@.len(),
                    lines@.len() == i + 2,
                    lines@[0].0 == MessageKind::Warn && lines@[0].1@ == "Conflict in branch '"@ + at_branch@ + "'"@,
                    lines@[1].0 == MessageKind::Info && lines@[1].1@ == "Conflicting files:"@,
                    forall|j: int| 0 <= j < i ==> (#[trigger] lines@[j + 2]).0 == MessageKind::Essential
                        && lines@[j + 2].1@ == seq![' ', ' ', '→', ' '] + conflict_files@[j]@,
                decreases conflict_files@.len() - i,
            {
                let mut f: Vec<char> = Vec::new();
                f.push(' ');
                f.push(' ');
                f.push('→');
                f.push(' ');
                crate::text::push_string(&mut f, &conflict_files[i]);
                assert(f@ =~= seq![' ', ' ', '→', ' '] + conflict_files@[i as int]@);
                lines.push((MessageKind::Essential, string_from_chars(&f)));
                i += 1;
            }
            lines.push((MessageKind::Essential, String::new()));
            lines.push((MessageKind::Info, String::from_str("Resolve conflicts, then run: rung sync --continue")));
            lines.push((MessageKind::Info, String::from_str("Or abort with: rung sync --abort")));
            (SyncOutput {
                status: SyncStatus::Conflict,
                branches_rebased: None,
                backup_id: Some(backup_id),
                conflict_branch: Some(at_branch),
                conflict_files,
                github_auth_unavailable,
            }, lines)
        },
    }
}

/// The message about a merged pull request found while syncing.
pub open spec fn merged_line(m: ReconciledMerge) -> Seq<char> {
    "PR #"@ + decimal(m.pr_number as nat) + " ("@ + m.name@ + ") merged into "@ + m.merged_into@
}

/// The message about a branch moved onto the branch its parent merged into.
pub open spec fn reparented_line(r: ReparentedBranch) -> Seq<char> {
    "Re-parented "@ + r.name@ + seq![' ', '→', ' '] + r.new_parent@ + " (was "@ + r.old_parent@ + ")"@
}

/// The message about a pull request whose base is corrected.
pub open spec fn ghost_line(r: ReparentedBranch) -> Seq<char> {
    "Ghost parent: "@ + (match r.pr_number {
        Some(n) => "PR #"@ + decimal(n as nat),
        None => "no PR"@,
    }) + " ("@ + r.name@ + ") base was '"@ + r.old_parent@ + "', correcting to '"@ + r.new_parent@ + "'"@
}

/// The messages about what syncing with the forge found: merged pull
/// requests, moved branches, corrected bases, in that order.
pub fn print_reconcile_results(result: &ReconcileResult) -> (r: Vec<(MessageKind, String)>)
    ensures
        ({
            let a = result.merged@.len() as int;
            let b = result.reparented@.len() as int;
            let c = result.repaired@.len() as int;
            &&& r@.len() == a + b + c
            &&& forall|i: int| 0 <= i < a ==> (#[trigger] r@[i]).0 == MessageKind::Success && r@[i].1@ == merged_line(
                result.merged@[i],
            )
            &&& forall|i: int| 0 <= i < b ==> (#[trigger] r@[a + i]).0 == MessageKind::Info && r@[a + i].1@
                == reparented_line(result.reparented@[i])
            &&& forall|i: int| 0 <= i < c ==> (#[trigger] r@[a + b + i]).0 == MessageKind::Warn && r@[a + b + i].1@
                == ghost_line(result.repaired@[i])
        }),
{
    let mut r: Vec<(MessageKind, String)> = Vec::new();
    let a = result.merged.len();
    let mut i: usize = 0;
    while i < a
        invariant
            a == result.merged@.len(),
            i <= a,
            r@.len() == i,
            forall|j: int| 0 <= j < i ==> (#[trigger] r@[j]).0 == MessageKind::Success && r@[j].1@ == merged_line(
                result.merged@[j],
            ),
        decreases a - i,
    {
        let m = &result.merged[i];
        let mut v: Vec<char> = Vec::new();
        push_str(&mut v, "PR #");
        let d = crate::text::decimal_chars(m.pr_number);
        crate::text::push_all(&mut v, &d);
        push_str(&mut v, " (");
        crate::text::push_string(&mut v, &m.name);
        push_str(&mut v, ") merged into ");
        crate::text::push_string(&mut v, &m.merged_into);
        r.push((MessageKind::Success, string_from_chars(&v)));
        i += 1;
    }
    let b = result.reparented.len();
    let mut j: usize = 0;
    while j < b
        invariant
            a == result.merged@.len(),
            b == result.reparented@.len(),
            j <= b,
            r@.len() == a + j,
            forall|k: int| 0 <= k < a ==> (#[trigger] r@[k]).0 == MessageKind::Success && r@[k].1@ == merged_line(
                result.merged@[k],
            ),
            forall|k: int| 0 <= k < j ==> (#[trigger] r@[a + k]).0 == MessageKind::Info && r@[a + k].1@
                == reparented_line(result.reparented@[k]),
        decreases b - j,
    {
        let x = &result.reparented[j];
        let mut v: Vec<char> = Vec::new();
        push_str(&mut v, "Re-parented ");
        crate::text::push_string(&mut v, &x.name);
        v.push(' ');
        v.push('→');
        v.push(' ');
        crate::text::push_string(&mut v, &x.new_parent);
        push_str(&mut v, " (was ");
        crate::text::push_string(&mut v, &x.old_parent);
        push_str(&mut v, ")");
        assert(v@ =~= reparented_line(*x));
        r.push((MessageKind::Info, string_from_chars(&v)));
        j += 1;
    }
    let c = result.repaired.len();
    let mut k: usize = 0;
    while k < c
        invariant
            a == result.merged@.len(),
            b == result.reparented@.len(),
            c == result.repaired@.len(),
            k <= c,
            r@.len() == a + b + k,
            forall|q: int| 0 <= q < a ==> (#[trigger] r@[q]).0 == MessageKind::Success && r@[q].1@ == merged_line(
                result.merged@[q],
            ),
            forall|q: int| 0 <= q < b ==> (#[trigger] r@[a + q]).0 == MessageKind::Info && r@[a + q].1@
                == reparented_line(result.reparented@[q]),
            forall|q: int| 0 <= q < k ==> (#[trigger] r@[a + b + q]).0 == MessageKind::Warn && r@[a + b + q].1@
                == ghost_line(result.repaired@[q]),
        decreases c - k,
    {
        let x = &result.repaired[k];
        let mut v: Vec<char> = Vec::new();
        push_str(&mut v, "Ghost parent: ");
        match x.pr_number {
            Some(n) => {
                push_str(&mut v, "PR #");
                let d = crate::text::decimal_chars(n);
                crate::text::push_all(&mut v, &d);
            },
            None => push_str(&mut v, "no PR"),
        }
        push_str(&mut v, " (");
        crate::text::push_string(&mut v, &x.name);
        push_str(&mut v, ") base was '");
        crate::text::push_string(&mut v, &x.old_parent);
        push_str(&mut v, "', correcting to '");
        crate::text::push_string(&mut v, &x.new_parent);
        push_str(&mut v, "'");
        assert(v@ =~= ghost_line(*x));
        r.push((MessageKind::Warn, string_from_chars(&v)));
        k += 1;
    }
    r
}

/// A branch the sync plan rebases, and the commit it goes onto.
#[derive(Debug, Clone)]
pub struct SyncAction {
    pub branch: String,
    pub new_base: String,
}

/// The lines of a sync dry run: how many merged pull requests were found
/// (when any), and the branches to rebase with the first eight characters
/// of the commit each goes onto (when any).
pub fn sync_dry_run_lines(actions: &Vec<SyncAction>, merged_count: usize) -> (r: Vec<(MessageKind, String)>)
    ensures
        ({
            let m: int = if merged_count > 0 { 1 } else { 0 };
            let n = actions@.len() as int;
            &&& r@.len() == 1 + m + (if n > 0 { n + 1 } else { 0 })
            &&& r@[0].0 == MessageKind::Info && r@[0].1@ == "Dry run - would perform the following:"@
            &&& m == 1 ==> r@[1].0 == MessageKind::Essential && r@[1].1@ == "  Merged PRs detected: "@ + decimal(
                merged_count as nat,
            )
            &&& n > 0 ==> r@[1 + m].0 == MessageKind::Essential && r@[1 + m].1@ == "  Branches to rebase:"@
            &&& forall|i: int| 0 <= i < n ==> (#[trigger] r@[2 + m + i]).0 == MessageKind::Essential && r@[2 + m
                + i].1@ == seq![' ', ' ', ' ', ' ', '→', ' '] + actions@[i].branch@ + " (onto "@ + short_id(
                actions@[i].new_base@,
            ) + ")"@
        }),
{
    let mut r: Vec<(MessageKind, String)> = Vec::new();
    r.push((MessageKind::Info, String::from_str("Dry run - would perform the following:")));
    if merged_count > 0 {
        let mut v: Vec<char> = Vec::new();
        push_str(&mut v, "  Merged PRs detected: ");
        let d = crate::text::decimal_usize(merged_count);
        crate::text::push_all(&mut v, &d);
        r.push((MessageKind::Essential, string_from_chars(&v)));
    }
    let ghost m: int = if merged_count > 0 { 1 } else { 0 };
    if actions.len() > 0 {
        r.push((MessageKind::Essential, String::from_str("  Branches to rebase:")));
        let mut i: usize = 0;
        while i < actions.len()
            invariant
                m == (if merged_count > 0 { 1int } else { 0int }),
                i <= actions@.len(),
                actions@.len() > 0,
                r@.len() == 2 + m + i,
                r@[0].0 == MessageKind::Info && r@[0].1@ == "Dry run - would perform the following:"@,
                m == 1 ==> r@[1].0 == MessageKind::Essential && r@[1].1@ == "  Merged PRs detected: "@ + decimal(
                    merged_count as nat,
                ),
                r@[1 + m].0 == MessageKind::Essential && r@[1 + m].1@ == "  Branches to rebase:"@,
                forall|j: int| 0 <= j < i ==> (#[trigger] r@[2 + m + j]).0 == MessageKind::Essential && r@[2 + m
                    + j].1@ == seq![' ', ' ', ' ', ' ', '→', ' '] + actions@[j].branch@ + " (onto "@ + short_id(
                    actions@[j].new_base@,
                ) + ")"@,
            decreases actions@.len() - i,
        {
            let a = &actions[i];
            let mut v: Vec<char> = Vec::new();
            v.push(' ');
            v.push(' ');
            v.push(' ');
            v.push(' ');
            v.push('→');
            v.push(' ');
            crate::text::push_string(&mut v, &a.branch);
            push_str(&mut v, " (onto ");
            let short = crate::text::take_chars(a.new_base.as_str(), 8);
            crate::text::push_string(&mut v, &short);
            push_str(&mut v, ")");
            assert(v@ =~= seq![' ', ' ', ' ', ' ', '→', ' '] + a.branch@ + " (onto "@ + short_id(a.new_base@) + ")"@);
            r.push((MessageKind::Essential, string_from_chars(&v)));
            i += 1;
        }
    }
    r
}

/// The messages after base changes on the forge: one per moved or
/// repaired branch that has a pull request.
pub fn print_pr_updates(result: &ReconcileResult) -> (r: Vec<(MessageKind, String)>)
    ensures
        r@.len() == base_updates(*result).len(),
        forall|k: int| 0 <= k < r@.len() ==> (#[trigger] r@[k]).0 == MessageKind::Success && r@[k].1@ == "Updated PR #"@
            + decimal(base_updates(*result)[k].0 as nat) + " base: "@ + base_updates(*result)[k].2 + seq![' ', '→', ' ']
            + base_updates(*result)[k].1,
{
    let ups = pr_base_updates(result);
    let mut r: Vec<(MessageKind, String)> = Vec::new();
    let mut i: usize = 0;
    while i < ups.len()
        invariant
            ups@.len() == base_updates(*result).len(),
            forall|k: int| 0 <= k < ups@.len() ==> {
                let u = #[trigger] base_updates(*result)[k];
                ups@[k].0 == u.0 && ups@[k].1@ == u.1 && ups@[k].2@ == u.2
            },
            i <= ups@.len(),
            r@.len() == i,
            forall|k: int| 0 <= k < i ==> (#[trigger] r@[k]).0 == MessageKind::Success && r@[k].1@ == "Updated PR #"@
                + decimal(base_updates(*result)[k].0 as nat) + " base: "@ + base_updates(*result)[k].2 + seq![' ', '→', ' ']
                + base_updates(*result)[k].1,
        decreases ups@.len() - i,
    {
        let u = &ups[i];
        let ghost bu = base_updates(*result)[i as int];
        let mut v: Vec<char> = Vec::new();
        push_str(&mut v, "Updated PR #");
        let d = crate::text::decimal_chars(u.0);
        crate::text::push_all(&mut v, &d);
        push_str(&mut v, " base: ");
        crate::text::push_string(&mut v, &u.2);
        v.push(' ');
        v.push('→');
        v.push(' ');
        crate::text::push_string(&mut v, &u.1);
        assert(v@ =~= "Updated PR #"@ + decimal(bu.0 as nat) + " base: "@ + bu.2 + seq![' ', '→', ' '] + bu.1);
        r.push((MessageKind::Success, string_from_chars(&v)));
        i += 1;
    }
    r
}

/// The message after restoring the branches from the backup of the last
/// sync: how many, and the backup's short id.
pub fn undo_message(branches_restored: usize, backup_id: &String) -> (r: String)
    ensures
        r@ == "Restored "@ + decimal(branches_restored as nat) + " branches from backup "@ + short_id(backup_id@),
{
    let mut v: Vec<char> = Vec::new();
    push_str(&mut v, "Restored ");
    let d = decimal_usize(branches_restored);
    push_all(&mut v, &d);
    push_str(&mut v, " branches from backup ");
    let s = take_chars(backup_id.as_str(), 8);
    push_string(&mut v, &s);
    string_from_chars(&v)
}


// === The phases of a sync ===

/// What a sync was asked to do and what it found before loading the stack.
#[derive(Debug, Clone, Copy, PartialEq, Eq, Structural)]
pub struct SyncFlags {
    /// Only show what would be done.
    pub dry_run: bool,
    /// Leave the branches unpushed.
    pub no_push: bool,
    /// A forge client is at hand.
    pub has_forge: bool,
    /// Reconciling found pull requests whose base must change.
    pub has_base_updates: bool,
}

/// Where a sync stands between two pieces of outside work.
#[derive(Debug, Clone, Copy, PartialEq, Eq, Structural)]
pub enum SyncPhase {
    /// Merged pull requests were reconciled and stale branches removed;
    /// the stack is being loaded.
    Reconciled(SyncFlags),
    /// The stack holds branches; the sync plan is being made.
    Loaded(SyncFlags),
    /// The plan is being carried out.
    Planned(SyncFlags),
    /// The branches are synced (`already_synced`: nothing needed a rebase)
    /// and the pull request bases are being updated.
    BasesUpdating { flags: SyncFlags, already_synced: bool },
    /// The branches are being pushed.
    Pushing { already_synced: bool },
    /// Nothing is left to do.
    Finished,
}

/// What the outside work of the last step gave.
#[derive(Debug, Clone, Copy, PartialEq, Eq, Structural)]
pub enum SyncEvent {
    /// The stack was loaded; whether it holds no branch.
    StackLoaded { empty: bool },
    /// The sync plan was made; whether it holds no branch.
    PlanMade { empty: bool },
    /// The plan was carried out; whether it stopped on a conflict.
    Executed { paused: bool },
    /// The requested work is done.
    StepDone,
}

/// The next piece of outside work.
#[derive(Debug, Clone, Copy, PartialEq, Eq, Structural)]
pub enum SyncStep {
    /// Make the sync plan.
    MakePlan,
    /// Rebase the branches of the plan.
    Execute,
    /// Update the bases of the pull requests on the forge.
    UpdatePrBases,
    /// Push the stack's branches.
    Push,
    /// Say that the stack holds no branch (nothing was rebased), and stop.
    ReportEmpty,
    /// Show the plan without carrying it out, and stop.
    ShowDryRun,
    /// Report the result of the sync, and stop: up to date when
    /// `already_synced`, else what carrying out the plan gave.
    Report { already_synced: bool },
    /// The event does not belong to the phase: nothing to do.
    Idle,
}

/// After the branches are synced: update the pull request bases when a
/// forge is at hand and there are bases to change, then push unless told
/// not to, then report.
pub open spec fn after_sync(f: SyncFlags, already_synced: bool) -> (SyncPhase, SyncStep) {
    if f.has_forge && f.has_base_updates {
        (SyncPhase::BasesUpdating { flags: f, already_synced }, SyncStep::UpdatePrBases)
    } else {
        after_bases(f, already_synced)
    }
}

/// After the pull request bases: push unless told not to, then report.
pub open spec fn after_bases(f: SyncFlags, already_synced: bool) -> (SyncPhase, SyncStep) {
    if !f.no_push {
        (SyncPhase::Pushing { already_synced }, SyncStep::Push)
    } else {
        (SyncPhase::Finished, SyncStep::Report { already_synced })
    }
}

fn continue_after_bases(f: SyncFlags, already_synced: bool) -> (r: (SyncPhase, SyncStep))
    ensures
        r == after_bases(f, already_synced),
{
    if !f.no_push {
        (SyncPhase::Pushing { already_synced }, SyncStep::Push)
    } else {
        (SyncPhase::Finished, SyncStep::Report { already_synced })
    }
}

fn continue_after_sync(f: SyncFlags, already_synced: bool) -> (r: (SyncPhase, SyncStep))
    ensures
        r == after_sync(f, already_synced),
{
    if f.has_forge && f.has_base_updates {
        (SyncPhase::BasesUpdating { flags: f, already_synced }, SyncStep::UpdatePrBases)
    } else {
        continue_after_bases(f, already_synced)
    }
}

/// The decisions of a sync once the forge was reconciled: from the phase
/// and what the last outside work gave, the next phase and the work to do.
/// An empty stack finishes with nothing rebased; a dry run shows its plan
/// and stops; an empty plan is already synced and runs nothing; a sync
/// stopped on a conflict is reported before any push or pull request
/// update; a sync that completed updates the pull request bases when a
/// forge is at hand, then pushes unless told not to, then reports.
pub fn next_sync_step(state: SyncPhase, event: SyncEvent) -> (r: (SyncPhase, SyncStep))
    ensures
        match (state, event) {
            (SyncPhase::Reconciled(f), SyncEvent::StackLoaded { empty }) => if empty {
                r == (SyncPhase::Finished, SyncStep::ReportEmpty)
            } else {
                r == (SyncPhase::Loaded(f), SyncStep::MakePlan)
            },
            (SyncPhase::Loaded(f), SyncEvent::PlanMade { empty }) => if f.dry_run {
                r == (SyncPhase::Finished, SyncStep::ShowDryRun)
            } else if empty {
                r == after_sync(f, true)
            } else {
                r == (SyncPhase::Planned(f), SyncStep::Execute)
            },
            (SyncPhase::Planned(f), SyncEvent::Executed { paused }) => if paused {
                r == (SyncPhase::Finished, SyncStep::Report { already_synced: false })
            } else {
                r == after_sync(f, false)
            },
            (SyncPhase::BasesUpdating { flags, already_synced }, SyncEvent::StepDone) =>
                r == after_bases(flags, already_synced),
            (SyncPhase::Pushing { already_synced }, SyncEvent::StepDone) =>
                r == (SyncPhase::Finished, SyncStep::Report { already_synced }),
            _ => r == (state, SyncStep::Idle),
        },
{
    match (state, event) {
        (SyncPhase::Reconciled(f), SyncEvent::StackLoaded { empty }) => if empty {
            (SyncPhase::Finished, SyncStep::ReportEmpty)
        } else {
            (SyncPhase::Loaded(f), SyncStep::MakePlan)
        },
        (SyncPhase::Loaded(f), SyncEvent::PlanMade { empty }) => if f.dry_run {
            (SyncPhase::Finished, SyncStep::ShowDryRun)
        } else if empty {
            continue_after_sync(f, true)
        } else {
            (SyncPhase::Planned(f), SyncStep::Execute)
        },
        (SyncPhase::Planned(f), SyncEvent::Executed { paused }) => if paused {
            (SyncPhase::Finished, SyncStep::Report { already_synced: false })
        } else {
            continue_after_sync(f, false)
        },
        (SyncPhase::BasesUpdating { flags, already_synced }, SyncEvent::StepDone) =>
            continue_after_bases(flags, already_synced),
        (SyncPhase::Pushing { already_synced }, SyncEvent::StepDone) =>
            (SyncPhase::Finished, SyncStep::Report { already_synced }),
        _ => (state, SyncStep::Idle),
    }
}

/// Whether reconciling found pull requests whose base must change on the
/// forge: children of merged branches, or bases that did not match.
pub fn has_base_updates(result: &ReconcileResult) -> (r: bool)
    ensures
        r == (result.reparented@.len() > 0 || result.repaired@.len() > 0),
{
    result.reparented.len() > 0 || result.repaired.len() > 0
}

} // verus!
