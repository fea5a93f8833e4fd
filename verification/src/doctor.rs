//! Diagnosis of the repository and of the stack (`rung doctor`).

use vstd::prelude::*;
use crate::stack::{
    Stack, StackBranch, opt_str, lemma_filter_take_step, has_name, names, reaches, anc, parent_of,
    contains_name, lemma_anc_add, acyclic,
};
use crate::text::{push_str, push_string, string_from_chars, decimal, decimal_usize, decimal_chars, push_all};


verus! {

/// How bad an issue is.
#[derive(Debug, Clone, Copy, PartialEq, Eq, Structural)]
pub enum Severity {
    Error,
    Warning,
}

/// An issue found by the doctor.
#[derive(Debug, Clone)]
pub struct Issue {
    pub severity: Severity,
    pub message: String,
    pub suggestion: Option<String>,
}

impl Issue {
    /// An error issue.
    pub fn error(message: &str) -> (r: Issue)
        ensures
            r.severity == Severity::Error,
            r.message@ == message@,
            r.suggestion is None,
    {
        Issue { severity: Severity::Error, message: String::from_str(message), suggestion: None }
    }

    /// A warning issue.
    pub fn warning(message: &str) -> (r: Issue)
        ensures
            r.severity == Severity::Warning,
            r.message@ == message@,
            r.suggestion is None,
    {
        Issue { severity: Severity::Warning, message: String::from_str(message), suggestion: None }
    }

    /// The issue with a suggestion attached.
    pub fn with_suggestion(self, suggestion: &str) -> (r: Issue)
        ensures
            r.severity == self.severity,
            r.message == self.message,
            opt_str(r.suggestion) == Some(suggestion@),
    {
        Issue { severity: self.severity, message: self.message, suggestion: Some(String::from_str(suggestion)) }
    }
}

/// Whether the issue is of the given severity.
pub open spec fn is_sev(sev: Severity) -> spec_fn(Issue) -> bool {
    |i: Issue| i.severity == sev
}

/// Issues of one category of checks.
#[derive(Debug)]
pub struct CheckResult {
    pub issues: Vec<Issue>,
}

impl Default for CheckResult {
    fn default() -> (r: CheckResult)
        ensures
            r.issues@.len() == 0,
    {
        CheckResult { issues: Vec::new() }
    }
}

/// Whether some issue of `issues` has severity `sev`.
pub fn any_of_severity(issues: &Vec<Issue>, sev: Severity) -> (r: bool)
    ensures
        r == exists|i: int| 0 <= i < issues@.len() && #[trigger] issues@[i].severity == sev,
{
    let n = issues.len();
    let mut i: usize = 0;
    while i < n
        invariant
            n == issues@.len(),
            i <= n,
            forall|j: int| 0 <= j < i ==> #[trigger] issues@[j].severity != sev,
        decreases n - i,
    {
        if issues[i].severity == sev {
            return true;
        }
        i += 1;
    }
    false
}

impl CheckResult {
    /// Whether some issue is an error.
    pub fn has_errors(&self) -> (r: bool)
        ensures
            r == exists|i: int| 0 <= i < self.issues@.len() && #[trigger] self.issues@[i].severity == Severity::Error,
    {
        any_of_severity(&self.issues, Severity::Error)
    }

    /// Whether some issue is a warning.
    pub fn has_warnings(&self) -> (r: bool)
        ensures
            r == exists|i: int| 0 <= i < self.issues@.len() && #[trigger] self.issues@[i].severity == Severity::Warning,
    {
        any_of_severity(&self.issues, Severity::Warning)
    }

    /// Whether there is no issue at all.
    pub fn is_clean(&self) -> (r: bool)
        ensures
            r == (self.issues@.len() == 0),
    {
        self.issues.len() == 0
    }
}

/// The report of every category of checks.
#[derive(Debug)]
pub struct DiagnosticReport {
    pub git_state: CheckResult,
    pub stack_integrity: CheckResult,
    pub sync_state: CheckResult,
    pub github: CheckResult,
}

impl Default for DiagnosticReport {
    fn default() -> (r: DiagnosticReport)
        ensures
            r.all_seq().len() == 0,
    {
        let r = DiagnosticReport {
            git_state: CheckResult { issues: Vec::new() },
            stack_integrity: CheckResult { issues: Vec::new() },
            sync_state: CheckResult { issues: Vec::new() },
            github: CheckResult { issues: Vec::new() },
        };
        assert(r.all_seq() =~= Seq::<Issue>::empty());
        r
    }
}

/// The number of issues of severity `sev` in `issues`.
pub fn count_of_severity(issues: &Vec<&Issue>, sev: Severity) -> (r: usize)
    ensures
        r == deref_issues(issues@).filter(is_sev(sev)).len(),
{
    let ghost s = deref_issues(issues@);
    let n = issues.len();
    let mut count: usize = 0;
    let mut i: usize = 0;
    while i < n
        invariant
            n == issues@.len(),
            s == deref_issues(issues@),
            i <= n,
            count == s.take(i as int).filter(is_sev(sev)).len(),
            count <= i,
        decreases n - i,
    {
        proof {
            lemma_filter_take_step(s, is_sev(sev), i as int);
        }
        if issues[i].severity == sev {
            count += 1;
        }
        i += 1;
    }
    assert(s.take(n as int) =~= s);
    count
}

/// The issues that the references point to.
pub open spec fn deref_issues(v: Seq<&Issue>) -> Seq<Issue> {
    v.map_values(|r: &Issue| *r)
}

/// Appends references to every issue of `issues`.
fn push_refs<'a>(out: &mut Vec<&'a Issue>, issues: &'a Vec<Issue>)
    ensures
        deref_issues(final(out)@) == deref_issues(old(out)@) + issues@,
{
    let n = issues.len();
    let mut i: usize = 0;
    while i < n
        invariant
            n == issues@.len(),
            i <= n,
            deref_issues(out@) == deref_issues(old(out)@) + issues@.take(i as int),
        decreases n - i,
    {
        let ghost before = out@;
        out.push(&issues[i]);
        proof {
            assert(deref_issues(out@) =~= deref_issues(before).push(issues@[i as int]));
            assert(issues@.take(i + 1) =~= issues@.take(i as int).push(issues@[i as int]));
            assert(deref_issues(out@) =~= deref_issues(old(out)@) + issues@.take(i + 1));
        }
        i += 1;
    }
    assert(issues@.take(n as int) =~= issues@);
}

impl DiagnosticReport {
    /// Every issue, category by category.
    pub open spec fn all_seq(&self) -> Seq<Issue> {
        self.git_state.issues@ + self.stack_integrity.issues@ + self.sync_state.issues@
            + self.github.issues@
    }

    /// Every issue, category by category: git state, stack integrity, sync
    /// state, then the forge.
    pub fn all_issues(&self) -> (r: Vec<&Issue>)
        ensures
            deref_issues(r@) == self.all_seq(),
    {
        let mut r: Vec<&Issue> = Vec::new();
        assert(deref_issues(r@) =~= Seq::<Issue>::empty());
        push_refs(&mut r, &self.git_state.issues);
        push_refs(&mut r, &self.stack_integrity.issues);
        push_refs(&mut r, &self.sync_state.issues);
        push_refs(&mut r, &self.github.issues);
        assert(deref_issues(r@) =~= self.all_seq());
        r
    }

    /// The number of errors over all categories.
    pub fn error_count(&self) -> (r: usize)
        ensures
            r == self.all_seq().filter(is_sev(Severity::Error)).len(),
    {
        let all = self.all_issues();
        count_of_severity(&all, Severity::Error)
    }

    /// The number of warnings over all categories.
    pub fn warning_count(&self) -> (r: usize)
        ensures
            r == self.all_seq().filter(is_sev(Severity::Warning)).len(),
    {
        let all = self.all_issues();
        count_of_severity(&all, Severity::Warning)
    }

    /// Whether no category holds an error or a warning.
    pub fn is_healthy(&self) -> (r: bool)
        ensures
            r == (self.all_seq().len() == 0),
    {
        let e = self.error_count();
        let w = self.warning_count();
        proof {
            lemma_sev_counts(self.all_seq());
        }
        e == 0 && w == 0
    }
}

/// Every issue is an error or a warning, so the two counts add up to all.
pub proof fn lemma_sev_counts(s: Seq<Issue>)
    ensures
        s.filter(is_sev(Severity::Error)).len() + s.filter(is_sev(Severity::Warning)).len() == s.len(),
    decreases s.len(),
{
    reveal(Seq::filter);
    if s.len() > 0 {
        lemma_sev_counts(s.drop_last());
    }
}


/// What an issue says.
pub struct IssueView {
    pub severity: Severity,
    pub message: Seq<char>,
    pub suggestion: Option<Seq<char>>,
}

/// The view of an issue.
pub open spec fn iview(i: Issue) -> IssueView {
    IssueView { severity: i.severity, message: i.message@, suggestion: opt_str(i.suggestion) }
}

/// The views of issues.
pub open spec fn iviews(s: Seq<Issue>) -> Seq<IssueView> {
    s.map_values(|i: Issue| iview(i))
}

/// An issue view.
pub open spec fn iv(severity: Severity, message: Seq<char>, suggestion: Option<Seq<char>>) -> IssueView {
    IssueView { severity, message, suggestion }
}

/// The issues that the git state check reports: uncommitted changes (also
/// when the working directory could not be inspected), a detached HEAD, a
/// rebase in progress.
pub open spec fn git_state_issues(clean: Option<bool>, on_branch: bool, rebasing: bool) -> Seq<IssueView> {
    let a = if clean != Some(true) {
        seq![iv(Severity::Warning, "Working directory has uncommitted changes"@,
            Some("Commit or stash changes before running rung commands"@))]
    } else {
        seq![]
    };
    let b = if !on_branch {
        seq![iv(Severity::Error, "HEAD is detached (not on a branch)"@,
            Some("Checkout a branch with `git checkout <branch>`"@))]
    } else {
        seq![]
    };
    let c = if rebasing {
        seq![iv(Severity::Error, "Rebase in progress"@,
            Some("Complete or abort the rebase before running rung commands"@))]
    } else {
        seq![]
    };
    a + b + c
}

/// Checks the state of the repository: `clean` is whether the working
/// directory is clean (`None` when it could not be inspected), `on_branch`
/// whether HEAD is on a branch, `rebasing` whether a rebase is in progress.
pub fn check_git_state(clean: Option<bool>, on_branch: bool, rebasing: bool) -> (r: CheckResult)
    ensures
        iviews(r.issues@) == git_state_issues(clean, on_branch, rebasing),
{
    let mut issues: Vec<Issue> = Vec::new();
    let is_clean = match clean {
        Some(c) => c,
        None => false,
    };
    if !is_clean {
        issues.push(
            Issue::warning("Working directory has uncommitted changes").with_suggestion(
                "Commit or stash changes before running rung commands",
            ),
        );
    }
    if !on_branch {
        issues.push(
            Issue::error("HEAD is detached (not on a branch)").with_suggestion(
                "Checkout a branch with `git checkout <branch>`",
            ),
        );
    }
    if rebasing {
        issues.push(
            Issue::error("Rebase in progress").with_suggestion(
                "Complete or abort the rebase before running rung commands",
            ),
        );
    }
    assert(iviews(issues@) =~= git_state_issues(clean, on_branch, rebasing));
    CheckResult { issues }
}

/// The issue, if any, that the integrity check reports for one branch:
/// missing from git, or stacked on a parent found neither in git nor in the
/// stack.
pub open spec fn branch_integrity_issue(bs: Seq<StackBranch>, existing: Seq<Seq<char>>, b: StackBranch) -> Seq<IssueView> {
    if !existing.contains(b.name@) {
        seq![iv(Severity::Warning, "Branch '"@ + b.name@ + "' in stack but not in git"@,
            Some("Run `rung sync` to clean up stale branches"@))]
    } else {
        match opt_str(b.parent) {
            Some(p) => if !existing.contains(p) && !has_name(bs, p) {
                seq![iv(Severity::Error, "Branch '"@ + b.name@ + "' has missing parent '"@ + p + "'"@,
                    Some("Run `rung sync` to re-parent orphaned branches"@))]
            } else {
                seq![]
            },
            None => seq![],
        }
    }
}

/// Following parents from `x` comes back to `x` within `n` steps, through
/// branches of the stack.
pub open spec fn cycles_within(bs: Seq<StackBranch>, x: Seq<char>, n: nat) -> bool {
    exists|k: nat| 1 <= k <= n && #[trigger] reaches(bs, x, x, k)
}

/// The issue, if any, that the cycle check reports for one branch.
pub open spec fn branch_cycle_issue(bs: Seq<StackBranch>, b: StackBranch) -> Seq<IssueView> {
    if cycles_within(bs, b.name@, bs.len() as nat) {
        seq![iv(Severity::Error, "Circular dependency detected involving '"@ + b.name@ + "'"@, None)]
    } else {
        seq![]
    }
}

/// The integrity issues of the first `k` branches.
pub open spec fn integrity_issues(bs: Seq<StackBranch>, existing: Seq<Seq<char>>, k: int) -> Seq<IssueView>
    decreases k,
{
    if k <= 0 {
        seq![]
    } else {
        integrity_issues(bs, existing, k - 1) + branch_integrity_issue(bs, existing, bs[k - 1])
    }
}

/// The cycle issues of the first `k` branches.
pub open spec fn cycle_issues(bs: Seq<StackBranch>, k: int) -> Seq<IssueView>
    decreases k,
{
    if k <= 0 {
        seq![]
    } else {
        cycle_issues(bs, k - 1) + branch_cycle_issue(bs, bs[k - 1])
    }
}

/// A stack whose branches all exist in git, whose parents exist in git or
/// in the stack, and in which no branch is its own ancestor, passes the
/// integrity check: no issue at all.
pub proof fn integrity_clean(bs: Seq<StackBranch>, existing: Seq<Seq<char>>)
    requires
        acyclic(bs),
        forall|i: int| 0 <= i < bs.len() ==> existing.contains(#[trigger] bs[i].name@),
        forall|i: int|
            0 <= i < bs.len() ==> (#[trigger] opt_str(bs[i].parent) matches Some(p) ==> existing.contains(p)
                || has_name(bs, p)),
    ensures
        integrity_issues(bs, existing, bs.len() as int) + cycle_issues(bs, bs.len() as int) == Seq::<IssueView>::empty(),
{
    lemma_no_issues_upto(bs, existing, bs.len() as int);
    assert(Seq::<IssueView>::empty() + Seq::<IssueView>::empty() =~= Seq::<IssueView>::empty());
}

/// The first `k` branches give no integrity or cycle issue.
proof fn lemma_no_issues_upto(bs: Seq<StackBranch>, existing: Seq<Seq<char>>, k: int)
    requires
        0 <= k <= bs.len(),
        acyclic(bs),
        forall|i: int| 0 <= i < bs.len() ==> existing.contains(#[trigger] bs[i].name@),
        forall|i: int|
            0 <= i < bs.len() ==> (#[trigger] opt_str(bs[i].parent) matches Some(p) ==> existing.contains(p)
                || has_name(bs, p)),
    ensures
        integrity_issues(bs, existing, k) == Seq::<IssueView>::empty(),
        cycle_issues(bs, k) == Seq::<IssueView>::empty(),
    decreases k,
{
    if k > 0 {
        lemma_no_issues_upto(bs, existing, k - 1);
        let b = bs[k - 1];
        assert(existing.contains(b.name@));
        let _ = opt_str(bs[k - 1].parent);
        assert(branch_integrity_issue(bs, existing, b) =~= Seq::<IssueView>::empty());
        if cycles_within(bs, b.name@, bs.len() as nat) {
            let j = choose|j: nat| 1 <= j <= bs.len() && #[trigger] reaches(bs, b.name@, b.name@, j);
            assert(!reaches(bs, b.name@, b.name@, j));
        }
        assert(branch_cycle_issue(bs, b) =~= Seq::<IssueView>::empty());
        assert(integrity_issues(bs, existing, k) =~= Seq::<IssueView>::empty());
        assert(cycle_issues(bs, k) =~= Seq::<IssueView>::empty());
    }
}

/// Pushing one issue extends the views by its view.
pub proof fn lemma_iviews_push(s: Seq<Issue>, i: Issue)
    ensures
        iviews(s.push(i)) == iviews(s).push(iview(i)),
{
    assert(iviews(s.push(i)) =~= iviews(s).push(iview(i)));
}

/// No return within `k` steps and no parent after `k` steps: no return at all.
pub proof fn lemma_no_return_after_end(bs: Seq<StackBranch>, name: Seq<char>, cur: Seq<char>, k: nat, n: nat)
    requires
        anc(bs, name, k) == Some(cur),
        parent_of(bs, cur) is None,
        forall|j: nat| 1 <= j <= k ==> !#[trigger] reaches(bs, name, name, j),
    ensures
        forall|j: nat| 1 <= j <= n ==> !#[trigger] reaches(bs, name, name, j),
{
    assert forall|j: nat| 1 <= j <= n implies !#[trigger] reaches(bs, name, name, j) by {
        if j > k {
            lemma_anc_add(bs, name, k, (j - k) as nat);
            assert(anc(bs, cur, (j - k) as nat) == None::<Seq<char>>);
        }
    }
}

/// One more step to a parent other than `name`.
pub proof fn lemma_no_return_step(bs: Seq<StackBranch>, name: Seq<char>, cur: Seq<char>, p: Seq<char>, k: nat)
    requires
        anc(bs, name, k) == Some(cur),
        parent_of(bs, cur) == Some(p),
        forall|j: nat| 1 <= j <= k ==> !#[trigger] reaches(bs, name, name, j),
    ensures
        anc(bs, name, k + 1) == Some(p),
        p != name ==> forall|j: nat| 1 <= j <= k + 1 ==> !#[trigger] reaches(bs, name, name, j),
        p == name ==> reaches(bs, name, name, k + 1),
{
    lemma_anc_add(bs, name, k, 1);
    assert(anc(bs, p, 0) == Some(p));
    assert(anc(bs, cur, 1) == Some(p));
    if p != name {
        assert forall|j: nat| 1 <= j <= k + 1 implies !#[trigger] reaches(bs, name, name, j) by {
            if j == k + 1 {
                assert(anc(bs, name, j) == Some(p));
            }
        }
    }
}

/// Whether following parents from `name` comes back to it within as many
/// steps as the stack has branches.
pub fn has_circular_dependency(stack: &Stack, name: &String) -> (r: bool)
    ensures
        r == cycles_within(stack.branches@, name@, stack.branches@.len() as nat),
{
    let ghost bs = stack.branches@;
    let n = stack.branches.len();
    let mut cur = name.clone();
    let mut k: usize = 0;
    while k < n
        invariant
            bs == stack.branches@,
            n == bs.len(),
            k <= n,
            anc(bs, name@, k as nat) == Some(cur@),
            forall|j: nat| 1 <= j <= k ==> !#[trigger] reaches(bs, name@, name@, j),
        decreases n - k,
    {
        match stack.parent_of(&cur) {
            None => {
                proof {
                    lemma_no_return_after_end(bs, name@, cur@, k as nat, n as nat);
                }
                return false;
            },
            Some(p) => {
                proof {
                    lemma_no_return_step(bs, name@, cur@, p@, k as nat);
                }
                k += 1;
                if p == *name {
                    return true;
                }
                cur = p;
            },
        }
    }
    false
}

/// Checks that every branch of the stack exists in git, that every parent
/// exists in git or in the stack, and that no branch is its own ancestor.
/// `existing` lists the local branches of the repository.
pub fn check_stack_integrity(stack: &Stack, existing: &Vec<String>) -> (r: CheckResult)
    ensures
        iviews(r.issues@) == integrity_issues(stack.branches@, names(existing@), stack.branches@.len() as int)
            + cycle_issues(stack.branches@, stack.branches@.len() as int),
{
    let ghost bs = stack.branches@;
    let ghost ex = names(existing@);
    let n = stack.branches.len();
    let mut issues: Vec<Issue> = Vec::new();
    let mut i: usize = 0;
    while i < n
        invariant
            bs == stack.branches@,
            ex == names(existing@),
            n == bs.len(),
            i <= n,
            iviews(issues@) == integrity_issues(bs, ex, i as int),
        decreases n - i,
    {
        let b = &stack.branches[i];
        let ghost before = issues@;
        if !contains_name(existing, &b.name) {
            let mut m: Vec<char> = Vec::new();
            push_str(&mut m, "Branch '");
            push_string(&mut m, &b.name);
            push_str(&mut m, "' in stack but not in git");
            let msg = string_from_chars(&m);
            let issue = Issue::warning(msg.as_str()).with_suggestion("Run `rung sync` to clean up stale branches");
            issues.push(issue);
            proof {
                lemma_iviews_push(before, issue);
                assert(m@ == "Branch '"@ + b.name@ + "' in stack but not in git"@);
            }
        } else {
            match &b.parent {
                Some(p) => {
                    if !contains_name(existing, p) && !stack.contains(p) {
                        let mut m: Vec<char> = Vec::new();
                        push_str(&mut m, "Branch '");
                        push_string(&mut m, &b.name);
                        push_str(&mut m, "' has missing parent '");
                        push_string(&mut m, p);
                        push_str(&mut m, "'");
                        let msg = string_from_chars(&m);
                        let issue = Issue::error(msg.as_str()).with_suggestion("Run `rung sync` to re-parent orphaned branches");
                        issues.push(issue);
                        proof {
                            lemma_iviews_push(before, issue);
                        }
                    }
                },
                None => {},
            }
        }
        proof {
            assert(integrity_issues(bs, ex, i + 1) == integrity_issues(bs, ex, i as int) + branch_integrity_issue(bs, ex, bs[i as int]));
            assert(iviews(issues@) =~= integrity_issues(bs, ex, i + 1));
        }
        i += 1;
    }
    let ghost part1 = iviews(issues@);
    let mut i: usize = 0;
    while i < n
        invariant
            bs == stack.branches@,
            n == bs.len(),
            i <= n,
            part1 == integrity_issues(bs, ex, n as int),
            iviews(issues@) == part1 + cycle_issues(bs, i as int),
        decreases n - i,
    {
        let b = &stack.branches[i];
        let ghost before = issues@;
        if has_circular_dependency(stack, &b.name) {
            let mut m: Vec<char> = Vec::new();
            push_str(&mut m, "Circular dependency detected involving '");
            push_string(&mut m, &b.name);
            push_str(&mut m, "'");
            let msg = string_from_chars(&m);
            let issue = Issue::error(msg.as_str());
            issues.push(issue);
            proof {
                lemma_iviews_push(before, issue);
            }
        }
        proof {
            assert(cycle_issues(bs, i + 1) == cycle_issues(bs, i as int) + branch_cycle_issue(bs, bs[i as int]));
            assert(iviews(issues@) =~= part1 + cycle_issues(bs, i + 1));
        }
        i += 1;
    }
    CheckResult { issues }
}


/// The branches whose relation to their parent the sync check looks at:
/// each stack branch that exists in git, with its parent (the base branch
/// when it has none), when the parent exists in git too.
pub open spec fn sync_pairs(bs: Seq<StackBranch>, existing: Seq<Seq<char>>, base: Seq<char>, k: int) -> Seq<(Seq<char>, Seq<char>)>
    decreases k,
{
    if k <= 0 {
        seq![]
    } else {
        let b = bs[k - 1];
        let parent = match opt_str(b.parent) {
            Some(p) => p,
            None => base,
        };
        if existing.contains(b.name@) && existing.contains(parent) {
            sync_pairs(bs, existing, base, k - 1).push((b.name@, parent))
        } else {
            sync_pairs(bs, existing, base, k - 1)
        }
    }
}

/// Each pair the sync check compares is a branch of the stack with its own
/// recorded parent, or with the base branch when it records none, both
/// existing in git; and every branch of the stack that exists in git is
/// compared with its recorded parent, or with the base branch when it
/// records none, when that one exists in git.
pub proof fn sync_pairs_use_recorded_parents(bs: Seq<StackBranch>, existing: Seq<Seq<char>>, base: Seq<char>, k: int)
    requires
        0 <= k <= bs.len(),
    ensures
        forall|j: int| 0 <= j < sync_pairs(bs, existing, base, k).len() ==> exists|i: int|
            0 <= i < k && #[trigger] sync_pairs(bs, existing, base, k)[j] == (bs[i].name@, sync_pairs(
                bs,
                existing,
                base,
                k,
            )[j].1) && (opt_str(bs[i].parent) == Some(sync_pairs(bs, existing, base, k)[j].1) || (bs[i].parent is None
                && sync_pairs(bs, existing, base, k)[j].1 == base)) && existing.contains(bs[i].name@)
                && existing.contains(sync_pairs(bs, existing, base, k)[j].1),
        forall|i: int|
            0 <= i < k && existing.contains(#[trigger] bs[i].name@) && (opt_str(bs[i].parent) matches Some(p)
                && existing.contains(p)) ==> sync_pairs(bs, existing, base, k).contains(
                (bs[i].name@, opt_str(bs[i].parent)->0),
            ),
        forall|i: int|
            0 <= i < k && existing.contains(#[trigger] bs[i].name@) && bs[i].parent is None && existing.contains(base)
                ==> sync_pairs(bs, existing, base, k).contains((bs[i].name@, base)),
    decreases k,
{
    if k > 0 {
        sync_pairs_use_recorded_parents(bs, existing, base, k - 1);
        let prev = sync_pairs(bs, existing, base, k - 1);
        let cur = sync_pairs(bs, existing, base, k);
        assert forall|j: int| 0 <= j < cur.len() implies exists|i: int|
            0 <= i < k && #[trigger] cur[j] == (bs[i].name@, cur[j].1) && (opt_str(bs[i].parent) == Some(cur[j].1) || (
            bs[i].parent is None && cur[j].1 == base)) && existing.contains(bs[i].name@) && existing.contains(cur[j].1) by {
            if j < prev.len() {
                assert(cur[j] == prev[j]);
                let i = choose|i: int|
                    0 <= i < k - 1 && #[trigger] prev[j] == (bs[i].name@, prev[j].1) && (opt_str(bs[i].parent) == Some(prev[j].1) || (
                    bs[i].parent is None && prev[j].1 == base)) && existing.contains(bs[i].name@) && existing.contains(prev[j].1);
                assert(0 <= i < k);
            } else {
                assert(0 <= k - 1 < k);
            }
        }
        assert forall|i: int|
            0 <= i < k && existing.contains(#[trigger] bs[i].name@) && (opt_str(bs[i].parent) matches Some(p)
                && existing.contains(p)) implies cur.contains((bs[i].name@, opt_str(bs[i].parent)->0)) by {
            if i < k - 1 {
                let j = choose|j: int| 0 <= j < prev.len() && prev[j] == (bs[i].name@, opt_str(bs[i].parent)->0);
                assert(cur[j] == prev[j]);
            } else {
                assert(cur[cur.len() - 1] == (bs[i].name@, opt_str(bs[i].parent)->0));
            }
        }
        assert forall|i: int|
            0 <= i < k && existing.contains(#[trigger] bs[i].name@) && bs[i].parent is None && existing.contains(base)
                implies cur.contains((bs[i].name@, base)) by {
            if i < k - 1 {
                let j = choose|j: int| 0 <= j < prev.len() && prev[j] == (bs[i].name@, base);
                assert(cur[j] == prev[j]);
            } else {
                assert(cur[cur.len() - 1] == (bs[i].name@, base));
            }
        }
    }
}

/// The views of pairs of strings.
pub open spec fn pair_views(v: Seq<(String, String)>) -> Seq<(Seq<char>, Seq<char>)> {
    v.map_values(|x: (String, String)| (x.0@, x.1@))
}

/// The (branch, parent) pairs that the sync check compares; `existing`
/// lists the local branches and `base` is the base branch.
pub fn sync_check_pairs(stack: &Stack, existing: &Vec<String>, base: &String) -> (r: Vec<(String, String)>)
    ensures
        pair_views(r@) == sync_pairs(stack.branches@, names(existing@), base@, stack.branches@.len() as int),
{
    let ghost bs = stack.branches@;
    let n = stack.branches.len();
    let mut r: Vec<(String, String)> = Vec::new();
    let mut i: usize = 0;
    while i < n
        invariant
            bs == stack.branches@,
            n == bs.len(),
            i <= n,
            pair_views(r@) == sync_pairs(bs, names(existing@), base@, i as int),
        decreases n - i,
    {
        let b = &stack.branches[i];
        let parent = match &b.parent {
            Some(p) => p.clone(),
            None => base.clone(),
        };
        let ghost before = r@;
        if contains_name(existing, &b.name) && contains_name(existing, &parent) {
            r.push((b.name.clone(), parent));
            assert(pair_views(r@) =~= pair_views(before).push((b.name@, parent@)));
        }
        i += 1;
    }
    r
}

/// The number of `true` values.
pub open spec fn count_true(v: Seq<bool>) -> nat
    decreases v.len(),
{
    if v.len() == 0 {
        0
    } else {
        count_true(v.drop_last()) + if v.last() { 1nat } else { 0nat }
    }
}

/// The issues that the sync check reports: a sync in progress, and how
/// many branches are behind their parent.
pub open spec fn sync_state_issues(in_progress: bool, behind: Seq<bool>) -> Seq<IssueView> {
    let a = if in_progress {
        seq![iv(Severity::Warning, "Sync operation in progress"@,
            Some("Run `rung sync --continue` or `rung sync --abort`"@))]
    } else {
        seq![]
    };
    let b = if count_true(behind) > 0 {
        seq![iv(Severity::Warning, decimal(count_true(behind)) + " branch(es) behind their parent"@,
            Some("Run `rung sync` to rebase"@))]
    } else {
        seq![]
    };
    a + b
}

/// Checks the sync state: `in_progress` is whether a sync is in progress,
/// `behind[i]` whether the `i`-th pair of `sync_check_pairs` has a branch
/// that does not contain its parent's tip.
pub fn check_sync_state(in_progress: bool, behind: &Vec<bool>) -> (r: CheckResult)
    ensures
        iviews(r.issues@) == sync_state_issues(in_progress, behind@),
{
    let mut issues: Vec<Issue> = Vec::new();
    if in_progress {
        issues.push(
            Issue::warning("Sync operation in progress").with_suggestion(
                "Run `rung sync --continue` or `rung sync --abort`",
            ),
        );
    }
    let n = behind.len();
    let mut count: usize = 0;
    let mut i: usize = 0;
    while i < n
        invariant
            n == behind@.len(),
            i <= n,
            count == count_true(behind@.take(i as int)),
            count <= i,
        decreases n - i,
    {
        assert(behind@.take(i + 1).drop_last() =~= behind@.take(i as int));
        if behind[i] {
            count += 1;
        }
        i += 1;
    }
    assert(behind@.take(n as int) =~= behind@);
    if count > 0 {
        let mut m = decimal_usize(count);
        push_str(&mut m, " branch(es) behind their parent");
        let msg = string_from_chars(&m);
        issues.push(Issue::warning(msg.as_str()).with_suggestion("Run `rung sync` to rebase"));
    }
    assert(iviews(issues@) =~= sync_state_issues(in_progress, behind@));
    CheckResult { issues }
}

/// The state of a pull request on the forge.
#[derive(Debug, Clone, Copy, PartialEq, Eq, Structural)]
pub enum PrState {
    Open,
    Closed,
    Merged,
}

/// How far the doctor got in reaching the forge.
#[derive(Debug, Clone, Copy, PartialEq, Eq, Structural)]
pub enum ForgeAccess {
    /// No credentials could be found.
    AuthFailed,
    /// The repository has no `origin` remote.
    NoOrigin,
    /// `origin` is not a GitHub repository.
    NotGitHub,
    /// The requests could not be run.
    NoRuntime,
    /// Pull requests were looked up.
    Ready,
}

/// The word for a pull request state.
pub open spec fn pr_state_word(s: PrState) -> Seq<char> {
    match s {
        PrState::Closed => "closed"@,
        PrState::Merged => "merged"@,
        PrState::Open => "open"@,
    }
}

/// The issue, if any, for the pull request of one branch; `fetched` is its
/// state, `None` when it could not be fetched.
pub open spec fn pr_issue(b: StackBranch, fetched: Option<PrState>) -> Seq<IssueView> {
    match b.pr {
        None => seq![],
        Some(n) => match fetched {
            Some(state) => if state != PrState::Open {
                seq![iv(Severity::Warning, "PR #"@ + decimal(n as nat) + " for '"@ + b.name@ + "' is "@
                    + pr_state_word(state) + " (not open)"@,
                    Some("Run `rung sync` to clean up or merge the branch"@))]
            } else {
                seq![]
            },
            None => seq![iv(Severity::Warning, "Could not fetch PR #"@ + decimal(n as nat) + " for '"@
                + b.name@ + "'"@, None)],
        },
    }
}

/// The pull request issues of the first `k` branches.
pub open spec fn pr_issues(bs: Seq<StackBranch>, fetched: Seq<Option<PrState>>, k: int) -> Seq<IssueView>
    decreases k,
{
    if k <= 0 {
        seq![]
    } else {
        pr_issues(bs, fetched, k - 1) + pr_issue(bs[k - 1], fetched[k - 1])
    }
}

/// The issues that the forge check reports.
pub open spec fn github_issues(access: ForgeAccess, bs: Seq<StackBranch>, fetched: Seq<Option<PrState>>) -> Seq<IssueView> {
    match access {
        ForgeAccess::AuthFailed => seq![iv(Severity::Error, "GitHub authentication failed"@,
            Some("Set GITHUB_TOKEN or authenticate with `gh auth login`"@))],
        ForgeAccess::NoOrigin => seq![iv(Severity::Warning, "No origin remote configured"@, None)],
        ForgeAccess::NotGitHub => seq![iv(Severity::Warning, "Origin is not a GitHub repository"@, None)],
        ForgeAccess::NoRuntime => seq![],
        ForgeAccess::Ready => pr_issues(bs, fetched, bs.len() as int),
    }
}

/// Checks the pull requests of the stack: `fetched[i]` is the state of the
/// pull request of the `i`-th branch (`None` when it could not be fetched;
/// ignored for a branch without one).
pub fn check_github(access: ForgeAccess, stack: &Stack, fetched: &Vec<Option<PrState>>) -> (r: CheckResult)
    requires
        access == ForgeAccess::Ready ==> fetched@.len() == stack.branches@.len(),
    ensures
        iviews(r.issues@) == github_issues(access, stack.branches@, fetched@),
{
    let mut issues: Vec<Issue> = Vec::new();
    match access {
        ForgeAccess::AuthFailed => {
            issues.push(
                Issue::error("GitHub authentication failed").with_suggestion(
                    "Set GITHUB_TOKEN or authenticate with `gh auth login`",
                ),
            );
            assert(iviews(issues@) =~= github_issues(access, stack.branches@, fetched@));
            return CheckResult { issues };
        },
        ForgeAccess::NoOrigin => {
            issues.push(Issue::warning("No origin remote configured"));
            assert(iviews(issues@) =~= github_issues(access, stack.branches@, fetched@));
            return CheckResult { issues };
        },
        ForgeAccess::NotGitHub => {
            issues.push(Issue::warning("Origin is not a GitHub repository"));
            assert(iviews(issues@) =~= github_issues(access, stack.branches@, fetched@));
            return CheckResult { issues };
        },
        ForgeAccess::NoRuntime => {
            assert(iviews(issues@) =~= github_issues(access, stack.branches@, fetched@));
            return CheckResult { issues };
        },
        ForgeAccess::Ready => {},
    }
    let ghost bs = stack.branches@;
    let n = stack.branches.len();
    let mut i: usize = 0;
    assert(iviews(issues@) =~= pr_issues(bs, fetched@, 0));
    while i < n
        invariant
            bs == stack.branches@,
            n == bs.len(),
            fetched@.len() == n,
            i <= n,
            iviews(issues@) == pr_issues(bs, fetched@, i as int),
        decreases n - i,
    {
        let b = &stack.branches[i];
        let ghost before = issues@;
        match b.pr {
            None => {},
            Some(num) => {
                match fetched[i] {
                    Some(state) => {
                        if state != PrState::Open {
                            let word = match state {
                                PrState::Closed => "closed",
                                PrState::Merged => "merged",
                                PrState::Open => "open",
                            };
                            let mut m: Vec<char> = Vec::new();
                            push_str(&mut m, "PR #");
                            let d = decimal_chars(num);
                            push_all(&mut m, &d);
                            push_str(&mut m, " for '");
                            push_string(&mut m, &b.name);
                            push_str(&mut m, "' is ");
                            push_str(&mut m, word);
                            push_str(&mut m, " (not open)");
                            let msg = string_from_chars(&m);
                            let issue = Issue::warning(msg.as_str()).with_suggestion(
                                "Run `rung sync` to clean up or merge the branch",
                            );
                            issues.push(issue);
                            proof {
                                lemma_iviews_push(before, issue);
                            }
                        }
                    },
                    None => {
                        let mut m: Vec<char> = Vec::new();
                        push_str(&mut m, "Could not fetch PR #");
                        let d = decimal_chars(num);
                        push_all(&mut m, &d);
                        push_str(&mut m, " for '");
                        push_string(&mut m, &b.name);
                        push_str(&mut m, "'");
                        let msg = string_from_chars(&m);
                        let issue = Issue::warning(msg.as_str());
                        issues.push(issue);
                        proof {
                            lemma_iviews_push(before, issue);
                        }
                    },
                }
            },
        }
        proof {
            assert(pr_issues(bs, fetched@, i + 1) == pr_issues(bs, fetched@, i as int) + pr_issue(bs[i as int], fetched@[i as int]));
            assert(iviews(issues@) =~= pr_issues(bs, fetched@, i + 1));
        }
        i += 1;
    }
    CheckResult { issues }
}

/// The closing line of the doctor's report: no severity and "No issues
/// found!" when there are none; otherwise the counts, as an error when
/// some issue is an error and as a warning otherwise.
pub fn summary_line(report: &DiagnosticReport) -> (r: (Option<Severity>, String))
    ensures
        ({
            let e = report.all_seq().filter(is_sev(Severity::Error)).len();
            let w = report.all_seq().filter(is_sev(Severity::Warning)).len();
            &&& e == 0 && w == 0 ==> r.0 is None && r.1@ == "No issues found!"@
            &&& e + w > 0 ==> r.0 == Some(if e > 0 { Severity::Error } else { Severity::Warning })
                && r.1@ == "Found "@ + decimal((e + w) as nat) + " issue(s) ("@ + decimal(e as nat)
                + " error(s), "@ + decimal(w as nat) + " warning(s))"@
        }),
{
    let all = report.all_issues();
    let e = count_of_severity(&all, Severity::Error);
    let w = count_of_severity(&all, Severity::Warning);
    proof {
        lemma_sev_counts(report.all_seq());
        assert(deref_issues(all@).len() == all@.len());
    }
    let total_len = all.len();
    assert(e + w == total_len);
    if e == 0 && w == 0 {
        return (None, String::from_str("No issues found!"));
    }
    let mut m: Vec<char> = Vec::new();
    push_str(&mut m, "Found ");
    let total = decimal_usize(e + w);
    push_all(&mut m, &total);
    push_str(&mut m, " issue(s) (");
    let de = decimal_usize(e);
    push_all(&mut m, &de);
    push_str(&mut m, " error(s), ");
    let dw = decimal_usize(w);
    push_all(&mut m, &dw);
    push_str(&mut m, " warning(s))");
    let sev = if e > 0 { Severity::Error } else { Severity::Warning };
    (Some(sev), string_from_chars(&m))
}

/// Some issue has this severity.
pub open spec fn has_severity(issues: Seq<Issue>, sev: Severity) -> bool {
    exists|i: int| 0 <= i < issues.len() && #[trigger] issues[i].severity == sev
}

/// The mark after a check: a red cross with errors, a yellow warning sign
/// with warnings only, a green tick otherwise; after a space.
pub fn status_mark(result: &CheckResult) -> (r: String)
    ensures
        exists|m: Seq<char>| r@ == seq![' '] + m && (if has_severity(result.issues@, Severity::Error) {
            crate::output::painted(m, seq!['✗'], seq!['3', '1'])
        } else if has_severity(result.issues@, Severity::Warning) {
            crate::output::painted(m, seq!['⚠'], seq!['3', '3'])
        } else {
            crate::output::painted(m, seq!['✓'], seq!['3', '2'])
        }),
{
    proof {
        reveal_strlit("✗");
        reveal_strlit("⚠");
        reveal_strlit("✓");
        assert("✗"@ =~= seq!['✗']);
        assert("⚠"@ =~= seq!['⚠']);
        assert("✓"@ =~= seq!['✓']);
    }
    let m = if result.has_errors() {
        crate::output::paint_red("✗")
    } else if result.has_warnings() {
        crate::output::paint_yellow("⚠")
    } else {
        crate::output::paint_green("✓")
    };
    let mut v: Vec<char> = Vec::new();
    v.push(' ');
    push_string(&mut v, &m);
    let r = string_from_chars(&v);
    proof {
        assert(r@ =~= seq![' '] + m@);
    }
    r
}

/// The lines for one issue: its mark and message, then its suggestion
/// after a dimmed arrow, when it has one.
pub fn issue_lines(issue: &Issue) -> (r: Vec<String>)
    ensures
        r@.len() == (if issue.suggestion is Some { 2int } else { 1int }),
        exists|m: Seq<char>| r@[0]@ == seq![' ', ' '] + m + seq![' '] + issue.message@ && (match issue.severity {
            Severity::Error => crate::output::painted(m, seq!['✗'], seq!['3', '1']),
            Severity::Warning => crate::output::painted(m, seq!['⚠'], seq!['3', '3']),
        }),
        issue.suggestion matches Some(sg) ==> exists|a: Seq<char>| r@[1]@ == seq![' ', ' ', ' ', ' '] + a + seq![' '] + sg@
            && crate::output::painted(a, seq!['→'], seq!['2']),
{
    proof {
        reveal_strlit("✗");
        reveal_strlit("⚠");
        reveal_strlit("→");
        assert("✗"@ =~= seq!['✗']);
        assert("⚠"@ =~= seq!['⚠']);
        assert("→"@ =~= seq!['→']);
    }
    let icon = match issue.severity {
        Severity::Error => crate::output::paint_red("✗"),
        Severity::Warning => crate::output::paint_yellow("⚠"),
    };
    let mut v: Vec<char> = Vec::new();
    v.push(' ');
    v.push(' ');
    push_string(&mut v, &icon);
    v.push(' ');
    push_string(&mut v, &issue.message);
    let first = string_from_chars(&v);
    proof {
        assert(first@ =~= seq![' ', ' '] + icon@ + seq![' '] + issue.message@);
    }
    let mut r: Vec<String> = Vec::new();
    r.push(first);
    match &issue.suggestion {
        Some(sg) => {
            let a = crate::output::paint_dimmed("→");
            let mut w: Vec<char> = Vec::new();
            w.push(' ');
            w.push(' ');
            w.push(' ');
            w.push(' ');
            push_string(&mut w, &a);
            w.push(' ');
            push_string(&mut w, sg);
            let second = string_from_chars(&w);
            proof {
                assert(second@ =~= seq![' ', ' ', ' ', ' '] + a@ + seq![' '] + sg@);
            }
            r.push(second);
        },
        None => {},
    }
    r
}

} // verus!
