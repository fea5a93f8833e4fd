//! The status of the stack: how each branch stands against its parent and
//! its remote counterpart, and the tree view that shows it.

use vstd::prelude::*;
use crate::stack::{Stack, StackBranch, has_name, opt_str, clone_opt_string};
use crate::restack::RemoteDivergence;
use crate::doctor::PrState;
use crate::output::{
    MessageKind, PrStatus, painted, paint_green, paint_yellow, paint_red, paint_dimmed, paint_bold,
    branch_name, pr_ref, rule_line, shown_name, shown_pr,
};
use crate::text::{push_str, push_string, push_all, string_from_chars, decimal, decimal_usize};

verus! {

/// How a branch stands against its parent.
#[derive(Debug, Clone)]
pub enum BranchState {
    /// It contains its parent's tip.
    Synced,
    /// Its parent has moved on by this many commits.
    Diverged { commits_behind: usize },
    /// A rebase stopped on conflicts in these files.
    Conflict { files: Vec<String> },
    /// It or its parent is gone from the repository.
    Detached,
}

/// How a branch stands against its remote counterpart, as reported.
#[derive(Debug, Clone, Copy, PartialEq, Eq, Structural)]
pub enum RemoteDivergenceInfo {
    InSync,
    Ahead { commits: usize },
    Behind { commits: usize },
    Diverged { ahead: usize, behind: usize },
    NoRemote,
}

impl RemoteDivergenceInfo {
    /// The report of a divergence.
    pub fn from_divergence(d: &RemoteDivergence) -> (r: RemoteDivergenceInfo)
        ensures
            r == (match *d {
                RemoteDivergence::InSync => RemoteDivergenceInfo::InSync,
                RemoteDivergence::Ahead { commits } => RemoteDivergenceInfo::Ahead { commits },
                RemoteDivergence::Behind { commits } => RemoteDivergenceInfo::Behind { commits },
                RemoteDivergence::Diverged { ahead, behind } => RemoteDivergenceInfo::Diverged { ahead, behind },
                RemoteDivergence::NoRemote => RemoteDivergenceInfo::NoRemote,
            }),
    {
        match d {
            RemoteDivergence::InSync => RemoteDivergenceInfo::InSync,
            RemoteDivergence::Ahead { commits } => RemoteDivergenceInfo::Ahead { commits: *commits },
            RemoteDivergence::Behind { commits } => RemoteDivergenceInfo::Behind { commits: *commits },
            RemoteDivergence::Diverged { ahead, behind } => RemoteDivergenceInfo::Diverged { ahead: *ahead, behind: *behind },
            RemoteDivergence::NoRemote => RemoteDivergenceInfo::NoRemote,
        }
    }
}

impl<'a> From<&'a RemoteDivergence> for RemoteDivergenceInfo {
    /// The report of a divergence.
    fn from(d: &'a RemoteDivergence) -> (r: RemoteDivergenceInfo) {
        RemoteDivergenceInfo::from_divergence(d)
    }
}

impl<'a> vstd::std_specs::convert::FromSpecImpl<&'a RemoteDivergence> for RemoteDivergenceInfo {
    open spec fn obeys_from_spec() -> bool {
        true
    }

    open spec fn from_spec(d: &'a RemoteDivergence) -> RemoteDivergenceInfo {
        match *d {
            RemoteDivergence::InSync => RemoteDivergenceInfo::InSync,
            RemoteDivergence::Ahead { commits } => RemoteDivergenceInfo::Ahead { commits },
            RemoteDivergence::Behind { commits } => RemoteDivergenceInfo::Behind { commits },
            RemoteDivergence::Diverged { ahead, behind } => RemoteDivergenceInfo::Diverged { ahead, behind },
            RemoteDivergence::NoRemote => RemoteDivergenceInfo::NoRemote,
        }
    }
}

/// What the status reports of one branch.
#[derive(Debug, Clone)]
pub struct BranchStatusInfo {
    pub name: String,
    pub parent: Option<String>,
    pub state: BranchState,
    pub pr: Option<u64>,
    pub is_current: bool,
    pub remote_divergence: Option<RemoteDivergenceInfo>,
}

/// The status of the whole stack.
#[derive(Debug, Clone)]
pub struct StackStatus {
    pub branches: Vec<BranchStatusInfo>,
    pub current_branch: Option<String>,
}

impl StackStatus {
    /// No branches and no current branch.
    pub fn empty() -> (s: StackStatus)
        ensures
            s.branches@.len() == 0,
            s.current_branch is None,
    {
        StackStatus { branches: Vec::new(), current_branch: None }
    }

    /// Whether no branch is reported.
    pub fn is_empty(&self) -> (r: bool)
        ensures
            r == (self.branches@.len() == 0),
    {
        self.branches.len() == 0
    }
}

/// The state of a branch as far as the existence of branches decides it: a
/// branch without parent is synced; one whose parent or itself is gone is
/// detached; otherwise (`None`) the commits decide.
pub fn compute_branch_state(branch: &StackBranch, parent_exists: bool, branch_exists: bool) -> (r: Option<BranchState>)
    ensures
        branch.parent is None ==> r matches Some(BranchState::Synced),
        branch.parent is Some && (!parent_exists || !branch_exists) ==> r matches Some(BranchState::Detached),
        branch.parent is Some && parent_exists && branch_exists ==> r is None,
{
    match &branch.parent {
        None => Some(BranchState::Synced),
        Some(_) => if !parent_exists || !branch_exists {
            Some(BranchState::Detached)
        } else {
            None
        },
    }
}

/// The state from the commits: synced when the parent's tip is the merge
/// base of the branch and its parent; else behind by the commits from the
/// merge base to the parent's tip.
pub fn state_from_commits(merge_base: &String, parent_commit: &String, commits_behind: usize) -> (r: BranchState)
    ensures
        merge_base@ == parent_commit@ ==> r matches BranchState::Synced,
        merge_base@ != parent_commit@ ==> (r matches BranchState::Diverged { commits_behind: n } && n == commits_behind),
{
    if *merge_base == *parent_commit {
        BranchState::Synced
    } else {
        BranchState::Diverged { commits_behind }
    }
}

/// The report of branch `b` given its state, its remote divergence and the
/// current branch.
pub open spec fn status_of(b: StackBranch, state: BranchState, remote: Option<RemoteDivergence>, current: Option<String>, s: BranchStatusInfo) -> bool {
    &&& s.name == b.name
    &&& s.parent == b.parent
    &&& s.state == state
    &&& s.pr == b.pr
    &&& s.is_current == (opt_str(current) == Some(b.name@))
    &&& s.remote_divergence == (match remote {
        Some(RemoteDivergence::InSync) => Some(RemoteDivergenceInfo::InSync),
        Some(RemoteDivergence::Ahead { commits }) => Some(RemoteDivergenceInfo::Ahead { commits }),
        Some(RemoteDivergence::Behind { commits }) => Some(RemoteDivergenceInfo::Behind { commits }),
        Some(RemoteDivergence::Diverged { ahead, behind }) => Some(RemoteDivergenceInfo::Diverged { ahead, behind }),
        Some(RemoteDivergence::NoRemote) => Some(RemoteDivergenceInfo::NoRemote),
        None => None,
    })
}

/// The status of the stack: `states[i]` is the state of the `i`-th branch
/// and `remote[i]` how it relates to its remote counterpart (`None` when
/// that could not be told).
pub fn compute_status(stack: &Stack, current: Option<String>, states: Vec<BranchState>, remote: &Vec<Option<RemoteDivergence>>) -> (s: StackStatus)
    requires
        states@.len() == stack.branches@.len(),
        remote@.len() == stack.branches@.len(),
    ensures
        s.current_branch == current,
        s.branches@.len() == stack.branches@.len(),
        forall|i: int| 0 <= i < s.branches@.len() ==> status_of(
            stack.branches@[i],
            states@[i],
            remote@[i],
            current,
            #[trigger] s.branches@[i],
        ),
{
    let n = stack.branches.len();
    let mut states = states;
    let ghost st = states@;
    let mut out: Vec<BranchStatusInfo> = Vec::new();
    let mut i: usize = n;
    assert(states@ =~= st.take(n as int));
    let mut rev: Vec<BranchStatusInfo> = Vec::new();
    // States are taken from the back, so the reports are built last first.
    while i > 0
        invariant
            n == stack.branches@.len(),
            st.len() == n,
            remote@.len() == n,
            i <= n,
            states@ == st.take(i as int),
            rev@.len() == n - i,
            forall|k: int| 0 <= k < n - i ==> status_of(
                stack.branches@[n - 1 - k],
                st[n - 1 - k],
                remote@[n - 1 - k],
                current,
                #[trigger] rev@[k],
            ),
        decreases i,
    {
        let state = states.pop().unwrap();
        proof {
            assert(st.take(i as int)[i - 1] == state);
            assert(states@ =~= st.take(i - 1));
        }
        i -= 1;
        let b = &stack.branches[i];
        let is_current = match &current {
            Some(c) => *c == b.name,
            None => false,
        };
        let rd = match &remote[i] {
            Some(d) => Some(RemoteDivergenceInfo::from_divergence(d)),
            None => None,
        };
        rev.push(BranchStatusInfo {
            name: b.name.clone(),
            parent: clone_opt_string(&b.parent),
            state,
            pr: b.pr,
            is_current,
            remote_divergence: rd,
        });
    }
    while rev.len() > 0
        invariant
            n == stack.branches@.len(),
            st.len() == n,
            remote@.len() == n,
            out@.len() + rev@.len() == n,
            forall|k: int| 0 <= k < rev@.len() ==> status_of(
                stack.branches@[n - 1 - k],
                st[n - 1 - k],
                remote@[n - 1 - k],
                current,
                #[trigger] rev@[k],
            ),
            forall|k: int| 0 <= k < out@.len() ==> status_of(
                stack.branches@[k],
                st[k],
                remote@[k],
                current,
                #[trigger] out@[k],
            ),
        decreases rev@.len(),
    {
        let ghost r0 = rev@;
        let x = rev.pop().unwrap();
        proof {
            assert(x == r0[r0.len() - 1]);
            assert forall|k: int| 0 <= k < rev@.len() implies status_of(
                stack.branches@[n - 1 - k],
                st[n - 1 - k],
                remote@[n - 1 - k],
                current,
                #[trigger] rev@[k],
            ) by {
                assert(rev@[k] == r0[k]);
            }
        }
        out.push(x);
    }
    StackStatus { branches: out, current_branch: current }
}

/// The state of a pull request as shown: merged and closed as such, an
/// open draft as a draft, any other as open.
pub fn display_status(state: PrState, draft: bool) -> (r: PrStatus)
    ensures
        r == (match state {
            PrState::Merged => PrStatus::Merged,
            PrState::Closed => PrStatus::Closed,
            PrState::Open => if draft { PrStatus::Draft } else { PrStatus::Open },
        }),
{
    match state {
        PrState::Merged => PrStatus::Merged,
        PrState::Closed => PrStatus::Closed,
        PrState::Open => if draft { PrStatus::Draft } else { PrStatus::Open },
    }
}

/// The word for a shown state, as the JSON output gives it.
pub fn pr_state_label(status: PrStatus) -> (r: String)
    ensures
        r@ == (match status {
            PrStatus::Open => "open"@,
            PrStatus::Draft => "draft"@,
            PrStatus::Merged => "merged"@,
            PrStatus::Closed => "closed"@,
        }),
{
    match status {
        PrStatus::Open => String::from_str("open"),
        PrStatus::Draft => String::from_str("draft"),
        PrStatus::Merged => String::from_str("merged"),
        PrStatus::Closed => String::from_str("closed"),
    }
}

/// The compact text of a remote divergence, before colouring.
pub open spec fn divergence_text(d: RemoteDivergenceInfo) -> Option<Seq<char>> {
    match d {
        RemoteDivergenceInfo::InSync | RemoteDivergenceInfo::NoRemote => None,
        RemoteDivergenceInfo::Ahead { commits } => Some(seq!['('] + decimal(commits as nat) + seq!['↑', ')']),
        RemoteDivergenceInfo::Behind { commits } => Some(seq!['('] + decimal(commits as nat) + seq!['↓', ')']),
        RemoteDivergenceInfo::Diverged { ahead, behind } => Some(
            seq!['('] + decimal(ahead as nat) + seq!['↑', ' '] + decimal(behind as nat) + seq!['↓', ')'],
        ),
    }
}

/// A compact mark for a remote divergence: commits ahead dimmed, commits
/// behind (or both) in yellow; nothing when in sync or without remote.
pub fn remote_divergence_indicator(d: &RemoteDivergenceInfo) -> (r: Option<String>)
    ensures
        divergence_text(*d) is None <==> r is None,
        r matches Some(s) ==> painted(s@, divergence_text(*d)->0, if d is Ahead {
            seq!['2']
        } else {
            seq!['3', '3']
        }),
{
    let mut v: Vec<char> = Vec::new();
    match d {
        RemoteDivergenceInfo::InSync | RemoteDivergenceInfo::NoRemote => None,
        RemoteDivergenceInfo::Ahead { commits } => {
            v.push('(');
            let n = decimal_usize(*commits);
            push_all(&mut v, &n);
            v.push('↑');
            v.push(')');
            assert(v@ =~= seq!['('] + decimal(*commits as nat) + seq!['↑', ')']);
            let t = string_from_chars(&v);
            Some(paint_dimmed(t.as_str()))
        },
        RemoteDivergenceInfo::Behind { commits } => {
            v.push('(');
            let n = decimal_usize(*commits);
            push_all(&mut v, &n);
            v.push('↓');
            v.push(')');
            assert(v@ =~= seq!['('] + decimal(*commits as nat) + seq!['↓', ')']);
            let t = string_from_chars(&v);
            Some(paint_yellow(t.as_str()))
        },
        RemoteDivergenceInfo::Diverged { ahead, behind } => {
            v.push('(');
            let a = decimal_usize(*ahead);
            push_all(&mut v, &a);
            v.push('↑');
            v.push(' ');
            let b = decimal_usize(*behind);
            push_all(&mut v, &b);
            v.push('↓');
            v.push(')');
            assert(v@ =~= seq!['('] + decimal(*ahead as nat) + seq!['↑', ' '] + decimal(*behind as nat) + seq!['↓', ')']);
            let t = string_from_chars(&v);
            Some(paint_yellow(t.as_str()))
        },
    }
}

/// How a branch state is marked: a green dot when synced, a yellow dot with
/// the commits behind when diverged, a red dot on conflict, a dimmed circle
/// when detached.
pub open spec fn shown_state(state: BranchState, r: Seq<char>) -> bool {
    match state {
        BranchState::Synced => painted(r, seq!['●'], seq!['3', '2']),
        BranchState::Diverged { commits_behind } => exists|m: Seq<char>|
            painted(m, seq!['●'], seq!['3', '3']) && r == m + seq![' ', '('] + decimal(commits_behind as nat)
                + seq!['↓', ')'],
        BranchState::Conflict { .. } => painted(r, seq!['●'], seq!['3', '1']),
        BranchState::Detached => painted(r, seq!['○'], seq!['2']),
    }
}

/// The mark of a branch state: a green dot when synced, a yellow dot with
/// the commits behind when diverged, a red dot on conflict, a dimmed circle
/// when detached.
pub fn state_indicator(state: &BranchState) -> (r: String)
    ensures
        shown_state(*state, r@),
{
    proof {
        reveal_strlit("●");
        reveal_strlit("○");
        assert("●"@ =~= seq!['●']);
        assert("○"@ =~= seq!['○']);
    }
    match state {
        BranchState::Synced => paint_green("●"),
        BranchState::Diverged { commits_behind } => {
            let dot = paint_yellow("●");
            let mut v: Vec<char> = Vec::new();
            push_string(&mut v, &dot);
            v.push(' ');
            v.push('(');
            let n = decimal_usize(*commits_behind);
            push_all(&mut v, &n);
            v.push('↓');
            v.push(')');
            let r = string_from_chars(&v);
            proof {
                assert(r@ =~= dot@ + seq![' ', '('] + decimal(*commits_behind as nat) + seq!['↓', ')']);
                assert(painted(dot@, seq!['●'], seq!['3', '3']));
            }
            r
        },
        BranchState::Conflict { .. } => paint_red("●"),
        BranchState::Detached => paint_dimmed("○"),
    }
}

/// A branch of the tree view with the shown state of its pull request.
#[derive(Debug, Clone)]
pub struct BranchWithPrStatus {
    pub info: BranchStatusInfo,
    pub pr_state: Option<String>,
    pub display_status: Option<PrStatus>,
}

/// How the parent is shown after a branch: an arrow and the dimmed name;
/// nothing for a branch without parent.
pub open spec fn shown_parent(parent: Option<String>, r: Seq<char>) -> bool {
    match parent {
        None => r.len() == 0,
        Some(p) => exists|dp: Seq<char>| painted(dp, p@, seq!['2']) && r == seq![' ', '←', ' '] + dp,
    }
}

/// How the remote divergence is shown after a branch: a space and its
/// coloured mark; nothing when there is no mark.
pub open spec fn shown_divergence(d: Option<RemoteDivergenceInfo>, r: Seq<char>) -> bool {
    match d {
        None => r.len() == 0,
        Some(x) => match divergence_text(x) {
            None => r.len() == 0,
            Some(text) => exists|s: Seq<char>|
                painted(s, text, if x is Ahead { seq!['2'] } else { seq!['3', '3'] }) && r == seq![' '] + s,
        },
    }
}

/// The line of branch `b` in the tree view.
pub open spec fn row_text(b: BranchWithPrStatus, r: Seq<char>) -> bool {
    exists|icon: Seq<char>, name: Seq<char>, pr: Seq<char>, parent: Seq<char>, div: Seq<char>|
        #![trigger shown_state(b.info.state, icon), shown_name(b.info.name@, b.info.is_current, name), shown_pr(b.info.pr, b.display_status, pr), shown_parent(b.info.parent, parent), shown_divergence(b.info.remote_divergence, div)]
        r == seq![' ', ' '] + icon + seq![' '] + name + seq![' '] + pr + parent + div
            && shown_state(b.info.state, icon)
            && shown_name(b.info.name@, b.info.is_current, name)
            && shown_pr(b.info.pr, b.display_status, pr)
            && shown_parent(b.info.parent, parent)
            && shown_divergence(b.info.remote_divergence, div)
}

/// The line of one branch in the tree view: its state mark, its name, its
/// pull request reference, its parent after an arrow (dimmed), and its
/// remote divergence mark.
pub fn tree_row(b: &BranchWithPrStatus) -> (r: String)
    ensures
        row_text(*b, r@),
{
    let icon = state_indicator(&b.info.state);
    let name = branch_name(b.info.name.as_str(), b.info.is_current);
    let pr = pr_ref(b.info.pr, b.display_status);
    let mut parent: Vec<char> = Vec::new();
    match &b.info.parent {
        Some(p) => {
            let dp = paint_dimmed(p.as_str());
            parent.push(' ');
            parent.push('←');
            parent.push(' ');
            push_string(&mut parent, &dp);
            proof {
                assert(parent@ =~= seq![' ', '←', ' '] + dp@);
            }
        },
        None => {},
    }
    let mut div: Vec<char> = Vec::new();
    match &b.info.remote_divergence {
        Some(d) => match remote_divergence_indicator(d) {
            Some(s) => {
                div.push(' ');
                push_string(&mut div, &s);
            },
            None => {},
        },
        None => {},
    }
    let mut v: Vec<char> = Vec::new();
    v.push(' ');
    v.push(' ');
    push_string(&mut v, &icon);
    v.push(' ');
    push_string(&mut v, &name);
    v.push(' ');
    push_string(&mut v, &pr);
    push_all(&mut v, &parent);
    push_all(&mut v, &div);
    let r = string_from_chars(&v);
    proof {
        assert(r@ =~= seq![' ', ' '] + icon@ + seq![' '] + name@ + seq![' '] + pr@ + parent@ + div@);
        assert(shown_state(b.info.state, icon@));
        assert(shown_name(b.info.name@, b.info.is_current, name@));
        assert(shown_pr(b.info.pr, b.display_status, pr@));
        assert(shown_parent(b.info.parent, parent@));
        assert(shown_divergence(b.info.remote_divergence, div@));
    }
    r
}

/// The branches that diverged from their remote counterparts, with how
/// far: the warnings after the tree.
pub open spec fn diverged_rows(rows: Seq<BranchWithPrStatus>) -> Seq<(Seq<char>, usize, usize)>
    decreases rows.len(),
{
    if rows.len() == 0 {
        Seq::empty()
    } else {
        let n = rows.len() - 1;
        let prev = diverged_rows(rows.take(n));
        match rows[n].info.remote_divergence {
            Some(RemoteDivergenceInfo::Diverged { ahead, behind }) => prev.push((rows[n].info.name@, ahead, behind)),
            _ => prev,
        }
    }
}

/// The warning for a branch that diverged from its remote counterpart.
pub open spec fn diverged_warning(name: Seq<char>, ahead: usize, behind: usize) -> Seq<char> {
    name + " has diverged from remote ("@ + decimal(ahead as nat) + " ahead, "@ + decimal(behind as nat) + " behind)"@
}

/// The legend under the tree: the three coloured dots and what they mean.
pub open spec fn legend_text(r: Seq<char>) -> bool {
    exists|g: Seq<char>, y: Seq<char>, d: Seq<char>|
        painted(g, seq!['●'], seq!['3', '2']) && painted(y, seq!['●'], seq!['3', '3']) && painted(d, seq!['●'], seq!['3', '1'])
            && r == "  "@ + g + " synced  "@ + y + " needs sync  "@ + d + " conflict"@
}

/// The lines of the tree view of the stack, each with how it is printed:
/// a blank line, the bold title, a rule, one line per branch, a rule, a
/// blank line, the legend, a blank line; then, when branches diverged
/// from their remote counterparts, a warning for each and a hint.
pub fn print_tree(rows: &Vec<BranchWithPrStatus>) -> (r: Vec<(MessageKind, String)>)
    ensures
        ({
            let n = rows@.len() as int;
            let d = diverged_rows(rows@);
            let dl = d.len() as int;
            &&& r@.len() == n + 7 + (if dl > 0 { dl + 2 } else { 0 })
            &&& r@[0].0 == MessageKind::Essential && r@[0].1@.len() == 0
            &&& r@[1].0 == MessageKind::Essential && exists|t: Seq<char>| painted(t, "Stack"@, seq!['1']) && r@[1].1@ == seq![' ', ' '] + t
            &&& r@[2].0 == MessageKind::Rule
            &&& forall|i: int| 0 <= i < n ==> (#[trigger] r@[i + 3]).0 == MessageKind::Essential
                && row_text(rows@[i], r@[i + 3].1@)
            &&& r@[n + 3].0 == MessageKind::Rule
            &&& r@[n + 4].0 == MessageKind::Essential && r@[n + 4].1@.len() == 0
            &&& r@[n + 5].0 == MessageKind::Essential && legend_text(r@[n + 5].1@)
            &&& r@[n + 6].0 == MessageKind::Essential && r@[n + 6].1@.len() == 0
            &&& forall|k: int| 0 <= k < dl ==> (#[trigger] r@[n + 7 + k]).0 == MessageKind::Warn
                && r@[n + 7 + k].1@ == diverged_warning(d[k].0, d[k].1, d[k].2)
            &&& dl > 0 ==> r@[n + 7 + dl].0 == MessageKind::Detail
                && r@[n + 7 + dl].1@ == "  Run `rung submit --force` to safely update (uses --force-with-lease)"@
                && r@[n + 8 + dl].0 == MessageKind::Essential && r@[n + 8 + dl].1@.len() == 0
        }),
{
    let mut r: Vec<(MessageKind, String)> = Vec::new();
    r.push((MessageKind::Essential, String::new()));
    let title = paint_bold("Stack");
    let mut t: Vec<char> = Vec::new();
    t.push(' ');
    t.push(' ');
    push_string(&mut t, &title);
    let ts = string_from_chars(&t);
    assert(ts@ =~= seq![' ', ' '] + title@);
    r.push((MessageKind::Essential, ts));
    r.push((MessageKind::Rule, rule_line()));
    let n = rows.len();
    let mut i: usize = 0;
    while i < n
        invariant
            n == rows@.len(),
            i <= n,
            r@.len() == i + 3,
            r@[0].0 == MessageKind::Essential && r@[0].1@.len() == 0,
            r@[1].0 == MessageKind::Essential && r@[1].1@ == seq![' ', ' '] + title@,
            painted(title@, "Stack"@, seq!['1']),
            r@[2].0 == MessageKind::Rule,
            forall|j: int| 0 <= j < i ==> (#[trigger] r@[j + 3]).0 == MessageKind::Essential
                && row_text(rows@[j], r@[j + 3].1@),
        decreases n - i,
    {
        r.push((MessageKind::Essential, tree_row(&rows[i])));
        i += 1;
    }
    r.push((MessageKind::Rule, rule_line()));
    r.push((MessageKind::Essential, String::new()));
    let mut legend: Vec<char> = Vec::new();
    push_str(&mut legend, "  ");
    let g = paint_green("●");
    push_string(&mut legend, &g);
    push_str(&mut legend, " synced  ");
    let y = paint_yellow("●");
    push_string(&mut legend, &y);
    push_str(&mut legend, " needs sync  ");
    let rd = paint_red("●");
    push_string(&mut legend, &rd);
    push_str(&mut legend, " conflict");
    let legend_line = string_from_chars(&legend);
    proof {
        reveal_strlit("●");
        assert("●"@ =~= seq!['●']);
        assert(legend_line@ =~= "  "@ + g@ + " synced  "@ + y@ + " needs sync  "@ + rd@ + " conflict"@);
        assert(legend_text(legend_line@));
    }
    r.push((MessageKind::Essential, legend_line));
    r.push((MessageKind::Essential, String::new()));
    let ghost base = r@;
    let mut k: usize = 0;
    while k < n
        invariant
            n == rows@.len(),
            k <= n,
            base.len() == n + 7,
            r@.len() == n + 7 + diverged_rows(rows@.take(k as int)).len(),
            forall|j: int| 0 <= j < n + 7 ==> #[trigger] r@[j] == base[j],
            forall|j: int| 0 <= j < diverged_rows(rows@.take(k as int)).len() ==> (#[trigger] r@[n + 7 + j]).0
                == MessageKind::Warn && r@[n + 7 + j].1@ == diverged_warning(
                diverged_rows(rows@.take(k as int))[j].0,
                diverged_rows(rows@.take(k as int))[j].1,
                diverged_rows(rows@.take(k as int))[j].2,
            ),
        decreases n - k,
    {
        proof {
            assert(rows@.take(k + 1).take(k as int) =~= rows@.take(k as int));
            assert(rows@.take(k + 1)[k as int] == rows@[k as int]);
        }
        match &rows[k].info.remote_divergence {
            Some(RemoteDivergenceInfo::Diverged { ahead, behind }) => {
                let mut w: Vec<char> = Vec::new();
                push_string(&mut w, &rows[k].info.name);
                push_str(&mut w, " has diverged from remote (");
                let a = decimal_usize(*ahead);
                push_all(&mut w, &a);
                push_str(&mut w, " ahead, ");
                let b = decimal_usize(*behind);
                push_all(&mut w, &b);
                push_str(&mut w, " behind)");
                r.push((MessageKind::Warn, string_from_chars(&w)));
            },
            _ => {},
        }
        k += 1;
    }
    assert(rows@.take(n as int) =~= rows@);
    let mut any = false;
    let mut j: usize = 0;
    while j < n
        invariant
            n == rows@.len(),
            j <= n,
            any == (diverged_rows(rows@.take(j as int)).len() > 0),
        decreases n - j,
    {
        proof {
            assert(rows@.take(j + 1).take(j as int) =~= rows@.take(j as int));
            assert(rows@.take(j + 1)[j as int] == rows@[j as int]);
        }
        match &rows[j].info.remote_divergence {
            Some(RemoteDivergenceInfo::Diverged { .. }) => {
                any = true;
            },
            _ => {},
        }
        j += 1;
    }
    if any {
        r.push((MessageKind::Detail, String::from_str("  Run `rung submit --force` to safely update (uses --force-with-lease)")));
        r.push((MessageKind::Essential, String::new()));
    }
    proof {
        assert(exists|t: Seq<char>| painted(t, "Stack"@, seq!['1']) && r@[1].1@ == seq![' ', ' '] + t) by {
            assert(painted(title@, "Stack"@, seq!['1']) && r@[1].1@ == seq![' ', ' '] + title@);
        }
    }
    r
}

/// The word for a number of pull requests.
pub fn pr_noun(count: usize) -> (r: String)
    ensures
        r@ == (if count == 1 { "PR"@ } else { "PRs"@ }),
{
    if count == 1 {
        String::from_str("PR")
    } else {
        String::from_str("PRs")
    }
}

/// The state and draft flag that the forge reported for pull request `n`,
/// from the pull requests it returned (each number once).
pub open spec fn lookup_pr(fetched: Seq<(u64, PrState, bool)>, n: u64) -> Option<(PrState, bool)>
    decreases fetched.len(),
{
    if fetched.len() == 0 {
        None
    } else if fetched[0].0 == n {
        Some((fetched[0].1, fetched[0].2))
    } else {
        lookup_pr(fetched.drop_first(), n)
    }
}

/// The state and draft flag reported for pull request `n`.
fn find_pr(fetched: &Vec<(u64, PrState, bool)>, n: u64) -> (r: Option<(PrState, bool)>)
    ensures
        r == lookup_pr(fetched@, n),
{
    let mut i: usize = 0;
    assert(fetched@.skip(0) =~= fetched@);
    while i < fetched.len()
        invariant
            i <= fetched@.len(),
            lookup_pr(fetched@, n) == lookup_pr(fetched@.skip(i as int), n),
        decreases fetched@.len() - i,
    {
        proof {
            assert(fetched@.skip(i as int).drop_first() =~= fetched@.skip(i + 1));
            assert(fetched@.skip(i as int)[0] == fetched@[i as int]);
        }
        if fetched[i].0 == n {
            return Some((fetched[i].1, fetched[i].2));
        }
        i += 1;
    }
    None
}

/// A branch of the status with the shown state of its pull request, when
/// the forge reported on it: merged, closed, draft or open, and the word
/// for it.
pub fn with_pr_status(info: BranchStatusInfo, fetched: &Vec<(u64, PrState, bool)>) -> (r: BranchWithPrStatus)
    ensures
        r.info == info,
        match info.pr {
            Some(n) => match lookup_pr(fetched@, n) {
                Some((state, draft)) => {
                    let s = match state {
                        PrState::Merged => PrStatus::Merged,
                        PrState::Closed => PrStatus::Closed,
                        PrState::Open => if draft { PrStatus::Draft } else { PrStatus::Open },
                    };
                    &&& r.display_status == Some(s)
                    &&& r.pr_state matches Some(w) && w@ == (match s {
                        PrStatus::Open => "open"@,
                        PrStatus::Draft => "draft"@,
                        PrStatus::Merged => "merged"@,
                        PrStatus::Closed => "closed"@,
                    })
                },
                None => r.display_status is None && r.pr_state is None,
            },
            None => r.display_status is None && r.pr_state is None,
        },
{
    let found = match info.pr {
        Some(n) => find_pr(fetched, n),
        None => None,
    };
    match found {
        Some((state, draft)) => {
            let s = display_status(state, draft);
            let w = pr_state_label(s);
            BranchWithPrStatus { info, pr_state: Some(w), display_status: Some(s) }
        },
        None => BranchWithPrStatus { info, pr_state: None, display_status: None },
    }
}

/// The pull request numbers of the stack's branches, in stack order.
pub fn stack_pr_numbers(stack: &Stack) -> (r: Vec<u64>)
    ensures
        r@ == stack.branches@.filter(|b: StackBranch| b.pr is Some).map_values(|b: StackBranch| b.pr->0),
{
    let ghost pred = |b: StackBranch| b.pr is Some;
    let mut r: Vec<u64> = Vec::new();
    let mut i: usize = 0;
    while i < stack.branches.len()
        invariant
            i <= stack.branches@.len(),
            pred == (|b: StackBranch| b.pr is Some),
            r@ == stack.branches@.take(i as int).filter(pred).map_values(|b: StackBranch| b.pr->0),
        decreases stack.branches@.len() - i,
    {
        proof {
            crate::stack::lemma_filter_take_step(stack.branches@, pred, i as int);
        }
        match stack.branches[i].pr {
            Some(n) => {
                r.push(n);
                proof {
                    assert(stack.branches@.take(i + 1).filter(pred).map_values(|b: StackBranch| b.pr->0) =~= stack.branches@.take(
                        i as int,
                    ).filter(pred).map_values(|b: StackBranch| b.pr->0).push(n));
                }
            },
            None => {},
        }
        i += 1;
    }
    assert(stack.branches@.take(stack.branches@.len() as int) =~= stack.branches@);
    r
}

/// The message before asking the forge about the pull requests.
pub fn fetching_message(count: usize) -> (r: String)
    ensures
        r@ == "Fetching status for "@ + decimal(count as nat) + " "@ + (if count == 1 { "PR"@ } else { "PRs"@ }) + "..."@,
{
    let mut v: Vec<char> = Vec::new();
    push_str(&mut v, "Fetching status for ");
    let d = decimal_usize(count);
    push_all(&mut v, &d);
    push_str(&mut v, " ");
    let noun = pr_noun(count);
    push_string(&mut v, &noun);
    push_str(&mut v, "...");
    string_from_chars(&v)
}

} // verus!
