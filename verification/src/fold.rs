//! Folding: combining a chain of adjacent branches into one.

use vstd::prelude::*;
use crate::stack::{
    Stack, StackBranch, StackError, has_name, idx_of, parent_of, names, is_child_of, not_named,
    clone_opt_string, contains_name, lemma_filter_take_step, names_unique, lemma_idx_of_unique,
    lemma_filter_sub, lemma_filter_keeps_unique,
};
use vstd::set_lib::lemma_len_subset;
use crate::text::{push_str, push_string, push_all, string_from_chars, decimal_usize, decimal};

verus! {

/// A branch that can be folded, with its number of commits.
#[derive(Debug, Clone)]
pub struct FoldBranchInfo {
    pub name: String,
    pub commit_count: usize,
    pub pr: Option<u64>,
}

/// What to fold: `branches_to_fold`, in parent-to-child order, go into
/// `target_branch`, the bottom of the chain, which then sits on
/// `new_parent`.
#[derive(Debug, Clone)]
pub struct FoldConfig {
    pub target_branch: String,
    pub branches_to_fold: Vec<String>,
    pub new_parent: String,
}

/// The branches around the current one that a fold can combine.
#[derive(Debug, Clone)]
pub struct FoldAnalysis {
    pub parent_branch: Option<String>,
    /// The chain of single children below the current branch.
    pub children: Vec<FoldBranchInfo>,
}

/// The outcome of a fold.
#[derive(Debug, Clone)]
pub struct FoldResult {
    pub target_branch: String,
    pub total_commits: usize,
    pub branches_folded: Vec<String>,
    pub prs_to_close: Vec<u64>,
}

/// The only child of `x`, if it has exactly one.
pub open spec fn only_child(bs: Seq<StackBranch>, x: Seq<char>) -> Option<StackBranch> {
    let c = bs.filter(is_child_of(x));
    if c.len() == 1 {
        Some(c[0])
    } else {
        None
    }
}

/// Following only children down from `x`, at most `fuel` steps: the chain
/// of branches that can be folded into `x`.
pub open spec fn fold_chain(bs: Seq<StackBranch>, x: Seq<char>, fuel: nat) -> Seq<StackBranch>
    decreases fuel,
{
    if fuel == 0 {
        Seq::empty()
    } else {
        match only_child(bs, x) {
            Some(c) => seq![c] + fold_chain(bs, c.name@, (fuel - 1) as nat),
            None => Seq::empty(),
        }
    }
}

/// The chain of single children below `name`, top down; it stops at a
/// branch with no child or with several, and never runs longer than the
/// stack.
pub fn foldable_chain(stack: &Stack, name: &String) -> (r: Vec<StackBranch>)
    ensures
        r@ == fold_chain(stack.branches@, name@, stack.branches@.len() as nat),
{
    let ghost bs = stack.branches@;
    let n = stack.branches.len();
    let mut out: Vec<StackBranch> = Vec::new();
    let mut cur = name.clone();
    let mut k: usize = 0;
    let mut done = false;
    while k < n && !done
        invariant
            bs == stack.branches@,
            n == bs.len(),
            k <= n,
            out@ + fold_chain(bs, cur@, (n - k) as nat) == fold_chain(bs, name@, n as nat),
            done ==> fold_chain(bs, cur@, (n - k) as nat) == Seq::<StackBranch>::empty(),
        decreases 2 * (n - k) + (if done { 0int } else { 1int }),
    {
        let kids = stack.children_of(&cur);
        if kids.len() != 1 {
            done = true;
        } else {
            let c = kids[0].duplicate();
            proof {
                assert(only_child(bs, cur@) == Some(c));
                assert(fold_chain(bs, cur@, (n - k) as nat) == seq![c] + fold_chain(bs, c.name@, (n - k - 1) as nat));
                assert(out@.push(c) + fold_chain(bs, c.name@, (n - k - 1) as nat) =~= out@ + (seq![c] + fold_chain(
                    bs,
                    c.name@,
                    (n - k - 1) as nat,
                )));
            }
            cur = c.name.clone();
            out.push(c);
            k += 1;
        }
    }
    proof {
        assert(out@ + Seq::<StackBranch>::empty() =~= out@);
    }
    out
}

/// The parent of `name` and the chain that can be folded into it.
pub fn analyze_fold(stack: &Stack, name: &String) -> (r: Result<(Option<String>, Vec<StackBranch>), String>)
    ensures
        r is Ok <==> has_name(stack.branches@, name@),
        r matches Ok((p, chain)) ==> p == stack.branches@[idx_of(stack.branches@, name@)].parent
            && chain@ == fold_chain(stack.branches@, name@, stack.branches@.len() as nat),
        r matches Err(m) ==> m@ == "Branch '"@ + name@ + "' not found in stack"@,
{
    match stack.find_index(name) {
        None => {
            let mut m: Vec<char> = Vec::new();
            push_str(&mut m, "Branch '");
            push_string(&mut m, name);
            push_str(&mut m, "' not found in stack");
            Err(string_from_chars(&m))
        },
        Some(i) => Ok((clone_opt_string(&stack.branches[i].parent), foldable_chain(stack, name))),
    }
}

/// The analysis of a fold: `counts[i]` is the number of commits of the
/// `i`-th branch of the chain.
pub fn fold_analysis(parent: Option<String>, chain: &Vec<StackBranch>, counts: &Vec<usize>) -> (a: FoldAnalysis)
    requires
        counts@.len() == chain@.len(),
    ensures
        a.parent_branch == parent,
        a.children@.len() == chain@.len(),
        forall|i: int| 0 <= i < chain@.len() ==> (#[trigger] a.children@[i]).name == chain@[i].name
            && a.children@[i].commit_count == counts@[i] && a.children@[i].pr == chain@[i].pr,
{
    let mut children: Vec<FoldBranchInfo> = Vec::new();
    let mut i: usize = 0;
    while i < chain.len()
        invariant
            counts@.len() == chain@.len(),
            i <= chain@.len(),
            children@.len() == i,
            forall|j: int| 0 <= j < i ==> (#[trigger] children@[j]).name == chain@[j].name
                && children@[j].commit_count == counts@[j] && children@[j].pr == chain@[j].pr,
        decreases chain@.len() - i,
    {
        children.push(FoldBranchInfo { name: chain[i].name.clone(), commit_count: counts[i], pr: chain[i].pr });
        i += 1;
    }
    FoldAnalysis { parent_branch: parent, children }
}

/// Folds the current branch into its parent: the parent is the target and
/// moves onto its own parent (or the default branch).
pub fn into_parent_config(analysis: &FoldAnalysis, stack: &Stack, current: &String, default_branch: &String) -> (r: Result<FoldConfig, String>)
    ensures
        r is Ok <==> (analysis.parent_branch matches Some(p) && has_name(stack.branches@, p@)),
        r matches Err(m) ==> (if analysis.parent_branch is None {
            m@ == "Current branch has no parent in the stack"@
        } else {
            m@ == "Parent branch not found in stack"@
        }),
        r matches Ok(c) ==> ({
            let p = analysis.parent_branch->0;
            let pb = stack.branches@[idx_of(stack.branches@, p@)];
            &&& c.target_branch == p
            &&& c.branches_to_fold@ == seq![*current]
            &&& c.new_parent == (match pb.parent {
                Some(g) => g,
                None => *default_branch,
            })
        }),
{
    match &analysis.parent_branch {
        None => Err(String::from_str("Current branch has no parent in the stack")),
        Some(p) => match stack.find_index(p) {
            None => Err(String::from_str("Parent branch not found in stack")),
            Some(i) => {
                let new_parent = match &stack.branches[i].parent {
                    Some(g) => g.clone(),
                    None => default_branch.clone(),
                };
                let mut fold: Vec<String> = Vec::new();
                fold.push(current.clone());
                Ok(FoldConfig { target_branch: p.clone(), branches_to_fold: fold, new_parent })
            },
        },
    }
}

/// The names of the analysed children.
fn child_names(analysis: &FoldAnalysis) -> (r: Vec<String>)
    ensures
        r@.len() == analysis.children@.len(),
        forall|i: int| 0 <= i < r@.len() ==> #[trigger] r@[i] == analysis.children@[i].name,
{
    let mut r: Vec<String> = Vec::new();
    let mut i: usize = 0;
    while i < analysis.children.len()
        invariant
            i <= analysis.children@.len(),
            r@.len() == i,
            forall|j: int| 0 <= j < i ==> #[trigger] r@[j] == analysis.children@[j].name,
        decreases analysis.children@.len() - i,
    {
        r.push(analysis.children[i].name.clone());
        i += 1;
    }
    r
}

/// Folds the chain of children into the current branch, which stays on its
/// parent (or the default branch).
pub fn include_children_config(analysis: &FoldAnalysis, current: &String, default_branch: &String) -> (r: Result<FoldConfig, String>)
    ensures
        r is Ok <==> analysis.children@.len() > 0,
        r matches Err(m) ==> m@ == "Current branch has no children to fold"@,
        r matches Ok(c) ==> ({
            &&& c.target_branch == *current
            &&& c.branches_to_fold@.len() == analysis.children@.len()
            &&& forall|i: int| 0 <= i < c.branches_to_fold@.len() ==> #[trigger] c.branches_to_fold@[i]
                == analysis.children@[i].name
            &&& c.new_parent == (match analysis.parent_branch {
                Some(p) => p,
                None => *default_branch,
            })
        }),
{
    if analysis.children.len() == 0 {
        return Err(String::from_str("Current branch has no children to fold"));
    }
    let branches_to_fold = child_names(analysis);
    let new_parent = match &analysis.parent_branch {
        Some(p) => p.clone(),
        None => default_branch.clone(),
    };
    Ok(FoldConfig { target_branch: current.clone(), branches_to_fold, new_parent })
}

/// Folds the chosen children (by their positions in the analysis) into the
/// current branch.
pub fn chosen_children_config(analysis: &FoldAnalysis, current: &String, chosen: &Vec<usize>, default_branch: &String) -> (r: Option<FoldConfig>)
    requires
        forall|k: int| 0 <= k < chosen@.len() ==> (#[trigger] chosen@[k]) < analysis.children@.len(),
    ensures
        r is None <==> chosen@.len() == 0,
        r matches Some(c) ==> ({
            &&& c.target_branch == *current
            &&& c.branches_to_fold@.len() == chosen@.len()
            &&& forall|k: int| 0 <= k < chosen@.len() ==> #[trigger] c.branches_to_fold@[k]
                == analysis.children@[chosen@[k] as int].name
            &&& c.new_parent == (match analysis.parent_branch {
                Some(p) => p,
                None => *default_branch,
            })
        }),
{
    if chosen.len() == 0 {
        return None;
    }
    let mut fold: Vec<String> = Vec::new();
    let mut k: usize = 0;
    while k < chosen.len()
        invariant
            forall|j: int| 0 <= j < chosen@.len() ==> (#[trigger] chosen@[j]) < analysis.children@.len(),
            k <= chosen@.len(),
            fold@.len() == k,
            forall|j: int| 0 <= j < k ==> #[trigger] fold@[j] == analysis.children@[chosen@[j] as int].name,
        decreases chosen@.len() - k,
    {
        fold.push(analysis.children[chosen[k]].name.clone());
        k += 1;
    }
    let new_parent = match &analysis.parent_branch {
        Some(p) => p.clone(),
        None => default_branch.clone(),
    };
    Some(FoldConfig { target_branch: current.clone(), branches_to_fold: fold, new_parent })
}

/// `x` is one of the names given.
pub open spec fn listed(ls: Seq<String>, x: Seq<char>) -> bool {
    names(ls).contains(x)
}

/// The parent of `x` is one of the names given.
pub open spec fn parent_listed(bs: Seq<StackBranch>, ls: Seq<String>, x: Seq<char>) -> bool {
    match parent_of(bs, x) {
        Some(p) => listed(ls, p),
        None => false,
    }
}

/// Scanning the first `k` given names for the root of the chain (the one
/// whose parent is not given): fails at the first name not in the stack or
/// at a second root; else the position of the root, if one was seen.
pub open spec fn root_scan(bs: Seq<StackBranch>, ls: Seq<String>, k: nat) -> Result<Option<int>, Seq<char>>
    decreases k,
{
    if k == 0 {
        Ok(None)
    } else {
        match root_scan(bs, ls, (k - 1) as nat) {
            Err(m) => Err(m),
            Ok(r) => {
                let x = ls[k - 1]@;
                if !has_name(bs, x) {
                    Err("Branch '"@ + x + "' not found in stack"@)
                } else if !parent_listed(bs, ls, x) {
                    if r is Some {
                        Err("Branches must form a single parent-child chain"@)
                    } else {
                        Ok(Some(k - 1))
                    }
                } else {
                    Ok(r)
                }
            },
        }
    }
}

/// A position as a mathematical integer.
pub open spec fn opt_int(o: Option<usize>) -> Option<int> {
    match o {
        Some(i) => Some(i as int),
        None => None,
    }
}

/// One more step of the scan, over a name that is in the stack.
proof fn lemma_root_scan_step(bs: Seq<StackBranch>, ls: Seq<String>, k: nat, r: Option<int>)
    requires
        k < ls.len(),
        root_scan(bs, ls, k) == Ok::<Option<int>, Seq<char>>(r),
        has_name(bs, ls[k as int]@),
    ensures
        root_scan(bs, ls, k + 1) == (if !parent_listed(bs, ls, ls[k as int]@) {
            if r is Some {
                Err::<Option<int>, Seq<char>>("Branches must form a single parent-child chain"@)
            } else {
                Ok(Some(k as int))
            }
        } else {
            Ok(r)
        }),
{
}

/// Once the scan fails, it fails the same way to the end.
proof fn lemma_root_scan_err(bs: Seq<StackBranch>, ls: Seq<String>, k: nat, e: Seq<char>)
    requires
        root_scan(bs, ls, k) == Err::<Option<int>, Seq<char>>(e),
        k <= ls.len(),
    ensures
        root_scan(bs, ls, ls.len()) == Err::<Option<int>, Seq<char>>(e),
    decreases ls.len() - k,
{
    if k < ls.len() {
        assert(root_scan(bs, ls, k + 1) == Err::<Option<int>, Seq<char>>(e));
        lemma_root_scan_err(bs, ls, k + 1, e);
    }
}

/// Given branches stacked directly on `x`.
pub open spec fn listed_children(bs: Seq<StackBranch>, ls: Seq<String>, x: Seq<char>) -> Seq<StackBranch> {
    bs.filter(is_child_of(x)).filter(listed_pred(ls))
}

/// Branches whose names are given.
pub open spec fn listed_pred(ls: Seq<String>) -> spec_fn(StackBranch) -> bool {
    |b: StackBranch| listed(ls, b.name@)
}

/// Walking down from `x` through given children, taking at most `fuel`
/// branches: `None` when a branch has two given children.
pub open spec fn chain_from(bs: Seq<StackBranch>, ls: Seq<String>, x: Seq<char>, fuel: nat) -> Option<Seq<Seq<char>>>
    decreases fuel,
{
    if fuel == 0 {
        Some(Seq::empty())
    } else {
        let kids = listed_children(bs, ls, x);
        if kids.len() > 1 {
            None
        } else if kids.len() == 1 {
            match chain_from(bs, ls, kids[0].name@, (fuel - 1) as nat) {
                Some(rest) => Some(seq![x] + rest),
                None => None,
            }
        } else {
            Some(seq![x])
        }
    }
}

/// What folding the given branches amounts to: the chain they form, top
/// down, whose first branch is the target; or why they form none.
pub open spec fn specified_fold(bs: Seq<StackBranch>, ls: Seq<String>) -> Result<Seq<Seq<char>>, Seq<char>> {
    if ls.len() < 2 {
        Err("At least two branches must be specified for folding"@)
    } else {
        match root_scan(bs, ls, ls.len()) {
            Err(m) => Err(m),
            Ok(None) => Err("Could not determine root of branch chain"@),
            Ok(Some(r)) => match chain_from(bs, ls, ls[r]@, ls.len()) {
                None => Err("Branches must form a linear chain (no branching)"@),
                Some(chain) => if chain.len() != ls.len() {
                    Err("Branches must form a connected chain"@)
                } else {
                    Ok(chain)
                },
            },
        }
    }
}

/// The given names, in the order `c`, form one chain of branches of the
/// stack: no name is given twice; the names of `c` are the given ones, none
/// twice; each is a branch of the stack stacked on the one before it; and
/// the first is not stacked on a given name.
#[verifier::opaque]
pub open spec fn forms_chain(bs: Seq<StackBranch>, ls: Seq<String>, c: Seq<Seq<char>>) -> bool {
    &&& names(ls).no_duplicates()
    &&& c.len() == ls.len()
    &&& c.no_duplicates()
    &&& forall|x: Seq<char>| listed(ls, x) <==> c.contains(x)
    &&& forall|k: int| 0 <= k < c.len() ==> has_name(bs, #[trigger] c[k])
    &&& forall|k: int| 0 < k < c.len() ==> parent_of(bs, #[trigger] c[k]) == Some(c[k - 1])
    &&& c.len() > 0 && !parent_listed(bs, ls, c[0])
}

/// The given children of `x` are branches of the stack stacked on `x` whose
/// names are given.
proof fn lemma_listed_child(bs: Seq<StackBranch>, ls: Seq<String>, x: Seq<char>, i: int)
    requires
        names_unique(bs),
        0 <= i < listed_children(bs, ls, x).len(),
    ensures
        has_name(bs, listed_children(bs, ls, x)[i].name@),
        parent_of(bs, listed_children(bs, ls, x)[i].name@) == Some(x),
        listed(ls, listed_children(bs, ls, x)[i].name@),
{
    let f = bs.filter(is_child_of(x));
    let e = listed_children(bs, ls, x)[i];
    lemma_filter_sub(f, listed_pred(ls));
    assert(f.filter(listed_pred(ls)).contains(e));
    lemma_filter_sub(bs, is_child_of(x));
    assert(f.contains(e));
    let m = choose|m: int| 0 <= m < bs.len() && bs[m] == e;
    lemma_idx_of_unique(bs, m);
}

/// A chain of given branches, each stacked on the one before, whose first
/// is not stacked on a given name, holds no name twice.
proof fn lemma_chain_no_dup(bs: Seq<StackBranch>, ls: Seq<String>, c: Seq<Seq<char>>, i: int)
    requires
        c.len() > 0,
        forall|k: int| 0 <= k < c.len() ==> listed(ls, #[trigger] c[k]),
        forall|k: int| 0 < k < c.len() ==> parent_of(bs, #[trigger] c[k]) == Some(c[k - 1]),
        !parent_listed(bs, ls, c[0]),
        0 <= i < c.len(),
    ensures
        forall|j: int| i < j < c.len() ==> c[i] != #[trigger] c[j],
    decreases i,
{
    if i > 0 {
        lemma_chain_no_dup(bs, ls, c, i - 1);
    }
    assert forall|j: int| i < j < c.len() implies c[i] != #[trigger] c[j] by {
        if c[i] == c[j] {
            assert(parent_of(bs, c[j]) == Some(c[j - 1]));
            assert(listed(ls, c[j - 1]));
            if i > 0 {
                assert(parent_of(bs, c[i]) == Some(c[i - 1]));
                assert(c[i - 1] == c[j - 1]);
            }
        }
    }
}

/// A sequence of distinct names as long as `l`, all of them in `l`, has the
/// same names as `l`, and then `l` has no name twice.
proof fn lemma_same_names(l: Seq<Seq<char>>, c: Seq<Seq<char>>)
    requires
        c.no_duplicates(),
        c.len() == l.len(),
        forall|i: int| 0 <= i < c.len() ==> l.contains(#[trigger] c[i]),
    ensures
        l.no_duplicates(),
        forall|x: Seq<char>| l.contains(x) <==> c.contains(x),
{
    vstd::seq_lib::seq_to_set_is_finite(l);
    vstd::seq_lib::seq_to_set_is_finite(c);
    c.unique_seq_to_set();
    l.lemma_cardinality_of_set();
    assert(c.to_set().subset_of(l.to_set())) by {
        assert forall|x: Seq<char>| c.to_set().contains(x) implies l.to_set().contains(x) by {
            let i = choose|i: int| 0 <= i < c.len() && c[i] == x;
            assert(l.contains(c[i]));
        }
    }
    lemma_len_subset(c.to_set(), l.to_set());
    l.lemma_no_dup_set_cardinality();
    assert forall|x: Seq<char>| l.contains(x) implies c.contains(x) by {
        if !c.contains(x) {
            assert(l.to_set().contains(x));
            assert(c.to_set().subset_of(l.to_set().remove(x)));
            lemma_len_subset(c.to_set(), l.to_set().remove(x));
        }
    }
}

/// Along a chain formed by the given names, the given children of a name
/// are the next name alone, and the last name has none.
proof fn lemma_chain_children(bs: Seq<StackBranch>, ls: Seq<String>, c: Seq<Seq<char>>, m: int)
    requires
        names_unique(bs),
        forms_chain(bs, ls, c),
        0 <= m < c.len(),
    ensures
        m + 1 < c.len() ==> listed_children(bs, ls, c[m]).len() == 1 && listed_children(bs, ls, c[m])[0].name@
            == c[m + 1],
        m + 1 == c.len() ==> listed_children(bs, ls, c[m]).len() == 0,
{
    reveal(forms_chain);
    let x = c[m];
    let lc = listed_children(bs, ls, x);
    assert(listed(ls, x)) by {
        assert(c.contains(c[m]));
    }
    assert forall|i: int| 0 <= i < lc.len() implies m + 1 < c.len() && (#[trigger] lc[i]).name@ == c[m + 1] by {
        lemma_listed_child(bs, ls, x, i);
        let e = lc[i].name@;
        assert(c.contains(e));
        let q = choose|q: int| 0 <= q < c.len() && c[q] == e;
        if q == 0 {
            assert(parent_listed(bs, ls, c[0]));
        } else {
            assert(parent_of(bs, c[q]) == Some(c[q - 1]));
            assert(c[q - 1] == c[m]);
            if q - 1 != m {
                assert(c.no_duplicates());
            }
        }
    }
    if m + 1 < c.len() {
        let y = c[m + 1];
        assert(has_name(bs, y));
        let i1 = choose|i1: int| 0 <= i1 < bs.len() && #[trigger] bs[i1].name@ == y;
        lemma_idx_of_unique(bs, i1);
        assert(parent_of(bs, y) == Some(x));
        let f = bs.filter(is_child_of(x));
        assert(is_child_of(x)(bs[i1]));
        bs.lemma_filter_contains(is_child_of(x), i1);
        let k1 = choose|k1: int| 0 <= k1 < f.len() && f[k1] == bs[i1];
        assert(listed(ls, y)) by {
            assert(c.contains(c[m + 1]));
        }
        assert(listed_pred(ls)(f[k1]));
        f.lemma_filter_contains(listed_pred(ls), k1);
        assert(lc.len() >= 1);
        lemma_filter_keeps_unique(bs, is_child_of(x));
        lemma_filter_keeps_unique(f, listed_pred(ls));
        if lc.len() >= 2 {
            assert(lc[0].name@ == lc[1].name@);
        }
    } else {
        if lc.len() > 0 {
            assert(lc[0].name@ == lc[0].name@);
        }
    }
}

/// The given children of `x`, in stack order.
fn given_children(stack: &Stack, ls: &Vec<String>, x: &String) -> (r: Vec<StackBranch>)
    ensures
        r@ == listed_children(stack.branches@, ls@, x@),
{
    let kids = stack.children_of(x);
    let ghost ks = kids@;
    let mut r: Vec<StackBranch> = Vec::new();
    let mut i: usize = 0;
    while i < kids.len()
        invariant
            ks == kids@,
            i <= ks.len(),
            r@ == ks.take(i as int).filter(listed_pred(ls@)),
        decreases ks.len() - i,
    {
        proof {
            lemma_filter_take_step(ks, listed_pred(ls@), i as int);
        }
        if contains_name(ls, &kids[i].name) {
            r.push(kids[i].duplicate());
        }
        i += 1;
    }
    assert(ks.take(ks.len() as int) =~= ks);
    r
}

/// No chain is formed by the given names.
pub open spec fn no_chain(bs: Seq<StackBranch>, ls: Seq<String>) -> bool {
    forall|c: Seq<Seq<char>>| !#[trigger] forms_chain(bs, ls, c)
}

/// Along a chain formed by the given names, a given name not stacked on a
/// given name is the first of the chain.
proof fn lemma_chain_top(bs: Seq<StackBranch>, ls: Seq<String>, c: Seq<Seq<char>>, x: Seq<char>)
    requires
        forms_chain(bs, ls, c),
        listed(ls, x),
        !parent_listed(bs, ls, x),
    ensures
        x == c[0],
        c.len() == ls.len(),
{
    reveal(forms_chain);
    assert(c.contains(x));
    let q = choose|q: int| 0 <= q < c.len() && c[q] == x;
    if q > 0 {
        assert(parent_of(bs, c[q]) == Some(c[q - 1]));
        assert(c.contains(c[q - 1]));
    }
}

/// When the chain chosen among those the given names form is none, they
/// form none.
proof fn lemma_no_chain_of_choice(bs: Seq<StackBranch>, ls: Seq<String>, c0: Seq<Seq<char>>)
    requires
        c0 == choose|c: Seq<Seq<char>>| forms_chain(bs, ls, c),
        !forms_chain(bs, ls, c0),
    ensures
        no_chain(bs, ls),
{
    assert forall|c: Seq<Seq<char>>| !#[trigger] forms_chain(bs, ls, c) by {
        if forms_chain(bs, ls, c) {
            assert(exists|c: Seq<Seq<char>>| forms_chain(bs, ls, c));
        }
    }
}

/// A given name that is not a branch of the stack forms no chain.
proof fn lemma_no_chain_missing(bs: Seq<StackBranch>, ls: Seq<String>, k: int)
    requires
        0 <= k < ls.len(),
        !has_name(bs, ls[k]@),
    ensures
        no_chain(bs, ls),
{
    reveal(forms_chain);
    assert forall|c: Seq<Seq<char>>| !#[trigger] forms_chain(bs, ls, c) by {
        if forms_chain(bs, ls, c) {
            assert(names(ls)[k] == ls[k]@);
            assert(listed(ls, ls[k]@));
            let q = choose|q: int| 0 <= q < c.len() && c[q] == ls[k]@;
            assert(has_name(bs, c[q]));
        }
    }
}

/// Two given names not stacked on given names form no chain.
proof fn lemma_no_chain_two_tops(bs: Seq<StackBranch>, ls: Seq<String>, i: int, k: int)
    requires
        0 <= i < ls.len(),
        0 <= k < ls.len(),
        i != k,
        !parent_listed(bs, ls, ls[i]@),
        !parent_listed(bs, ls, ls[k]@),
    ensures
        no_chain(bs, ls),
{
    assert forall|c: Seq<Seq<char>>| !#[trigger] forms_chain(bs, ls, c) by {
        if forms_chain(bs, ls, c) {
            assert(names(ls)[i] == ls[i]@);
            assert(names(ls)[k] == ls[k]@);
            lemma_chain_top(bs, ls, c, ls[i]@);
            lemma_chain_top(bs, ls, c, ls[k]@);
            reveal(forms_chain);
            assert(names(ls).no_duplicates());
        }
    }
}

/// Given names all stacked on given names form no chain.
proof fn lemma_no_chain_no_top(bs: Seq<StackBranch>, ls: Seq<String>)
    requires
        forall|j: int| 0 <= j < ls.len() ==> parent_listed(bs, ls, #[trigger] ls[j]@),
    ensures
        no_chain(bs, ls),
{
    reveal(forms_chain);
    assert forall|c: Seq<Seq<char>>| !#[trigger] forms_chain(bs, ls, c) by {
        if forms_chain(bs, ls, c) {
            assert(c.contains(c[0]));
            let q = choose|q: int| 0 <= q < names(ls).len() && names(ls)[q] == c[0];
            assert(ls[q]@ == c[0]);
            assert(parent_listed(bs, ls, ls[q]@));
        }
    }
}

/// The walk down from the root, as long as the given names, each a given
/// branch of the stack stacked on the one before, forms the chain.
proof fn lemma_walk_forms_chain(bs: Seq<StackBranch>, ls: Seq<String>, c: Seq<Seq<char>>)
    requires
        c.len() == ls.len(),
        c.len() > 0,
        forall|t: int| 0 <= t < c.len() ==> has_name(bs, #[trigger] c[t]) && listed(ls, c[t]),
        forall|t: int| 0 < t < c.len() ==> parent_of(bs, #[trigger] c[t]) == Some(c[t - 1]),
        !parent_listed(bs, ls, c[0]),
    ensures
        forms_chain(bs, ls, c),
{
    reveal(forms_chain);
    assert forall|t: int| 0 <= t < c.len() implies listed(ls, #[trigger] c[t]) by {}
    assert(c.no_duplicates()) by {
        assert forall|i: int, j: int| 0 <= i < c.len() && 0 <= j < c.len() && i != j implies c[i] != c[j] by {
            if i < j {
                lemma_chain_no_dup(bs, ls, c, i);
            } else {
                lemma_chain_no_dup(bs, ls, c, j);
            }
        }
    }
    assert forall|i: int| 0 <= i < c.len() implies names(ls).contains(#[trigger] c[i]) by {
        assert(listed(ls, c[i]));
    }
    lemma_same_names(names(ls), c);
}

/// Along the chain, when the walk has taken the first `m` names and stands
/// at the `m`-th, it takes that one and moves to the next, or stops after
/// the last.
proof fn lemma_walk_step(bs: Seq<StackBranch>, ls: Seq<String>, c: Seq<Seq<char>>, taken: Seq<Seq<char>>, m: int)
    requires
        names_unique(bs),
        forms_chain(bs, ls, c),
        0 <= m < c.len(),
        taken == c.take(m),
    ensures
        taken.push(c[m]) == c.take(m + 1),
        m + 1 < c.len() ==> listed_children(bs, ls, c[m]).len() == 1 && listed_children(bs, ls, c[m])[0].name@
            == c[m + 1],
        m + 1 == c.len() ==> listed_children(bs, ls, c[m]).len() == 0,
        c.len() == ls.len(),
{
    lemma_chain_children(bs, ls, c, m);
    assert(taken.push(c[m]) =~= c.take(m + 1));
    reveal(forms_chain);
}

/// What a walk down from the root `x` has taken (`on`) and where it stands
/// (`cur`, unless `done`): given branches of the stack, each stacked on the
/// one before.
#[verifier::opaque]
pub open spec fn walk_facts(bs: Seq<StackBranch>, ls: Seq<String>, x: Seq<char>, on: Seq<Seq<char>>, cur: Seq<char>, done: bool) -> bool {
    &&& on.len() == 0 ==> !done && cur == x
    &&& on.len() > 0 ==> on[0] == x
    &&& forall|t: int| 0 <= t < on.len() ==> has_name(bs, #[trigger] on[t]) && listed(ls, on[t])
    &&& forall|t: int| 0 < t < on.len() ==> parent_of(bs, #[trigger] on[t]) == Some(on[t - 1])
    &&& !done ==> has_name(bs, cur) && listed(ls, cur)
    &&& !done && on.len() > 0 ==> parent_of(bs, cur) == Some(on.last())
}

/// The walk keeps to the chain `c`: it has taken its first names and stands
/// at the next one, or has taken all of them.
#[verifier::opaque]
pub open spec fn walk_follows(c: Seq<Seq<char>>, on: Seq<Seq<char>>, cur: Seq<char>, done: bool) -> bool {
    &&& on == c.take(on.len() as int)
    &&& !done ==> on.len() < c.len() && cur == c[on.len() as int]
    &&& done ==> on.len() == c.len()
}

/// The walk starts at the root.
proof fn lemma_walk_start(bs: Seq<StackBranch>, ls: Seq<String>, x: Seq<char>)
    requires
        has_name(bs, x),
        listed(ls, x),
    ensures
        walk_facts(bs, ls, x, seq![], x, false),
{
    reveal(walk_facts);
}

/// Taking `cur` and moving to its given child `nxt`, or stopping there.
proof fn lemma_walk_take(
    bs: Seq<StackBranch>,
    ls: Seq<String>,
    x: Seq<char>,
    on: Seq<Seq<char>>,
    cur: Seq<char>,
    nxt: Seq<char>,
    stop: bool,
)
    requires
        walk_facts(bs, ls, x, on, cur, false),
        !stop ==> has_name(bs, nxt) && listed(ls, nxt) && parent_of(bs, nxt) == Some(cur),
    ensures
        walk_facts(bs, ls, x, on.push(cur), nxt, stop),
{
    reveal(walk_facts);
    let on2 = on.push(cur);
    assert forall|t: int| 0 <= t < on2.len() implies has_name(bs, #[trigger] on2[t]) && listed(ls, on2[t]) by {
        if t < on.len() {
            assert(on2[t] == on[t]);
        }
    }
    assert forall|t: int| 0 < t < on2.len() implies parent_of(bs, #[trigger] on2[t]) == Some(on2[t - 1]) by {
        if t < on.len() {
            assert(on2[t] == on[t] && on2[t - 1] == on[t - 1]);
        }
    }
}

/// A finished walk that took as many names as were given forms the chain.
proof fn lemma_walk_done(bs: Seq<StackBranch>, ls: Seq<String>, x: Seq<char>, on: Seq<Seq<char>>, cur: Seq<char>)
    requires
        walk_facts(bs, ls, x, on, cur, true),
        on.len() == ls.len(),
        on.len() > 0,
        !parent_listed(bs, ls, x),
    ensures
        forms_chain(bs, ls, on),
{
    reveal(walk_facts);
    lemma_walk_forms_chain(bs, ls, on);
}

/// A walk that keeps to a chain takes its next name, and the given children
/// of the name it stands at are at most one: the next name of the chain.
proof fn lemma_follow_step(
    bs: Seq<StackBranch>,
    ls: Seq<String>,
    c: Seq<Seq<char>>,
    on: Seq<Seq<char>>,
    cur: Seq<char>,
)
    requires
        names_unique(bs),
        forms_chain(bs, ls, c),
        walk_follows(c, on, cur, false),
    ensures
        listed_children(bs, ls, cur).len() <= 1,
        listed_children(bs, ls, cur).len() == 1 ==> walk_follows(
            c,
            on.push(cur),
            listed_children(bs, ls, cur)[0].name@,
            false,
        ),
        listed_children(bs, ls, cur).len() == 0 ==> walk_follows(c, on.push(cur), cur, true),
        on.len() + 1 <= c.len(),
        c.len() == ls.len(),
{
    reveal(walk_follows);
    lemma_walk_step(bs, ls, c, on, on.len() as int);
}

/// A walk that keeps to a chain as long as the given names ends having
/// taken them all.
proof fn lemma_follow_len(c: Seq<Seq<char>>, on: Seq<Seq<char>>, cur: Seq<char>, done: bool)
    requires
        walk_follows(c, on, cur, done),
    ensures
        !done ==> on.len() < c.len(),
        done ==> on.len() == c.len(),
{
    reveal(walk_follows);
}

/// Scans the given names (at least two) for the root of their chain: the
/// one name not stacked on a given name. Each name must be a branch of the
/// stack, and there must be exactly one root.
#[verifier::rlimit(60)]
fn scan_root(stack: &Stack, ls: &Vec<String>) -> (r: Result<usize, String>)
    requires
        ls@.len() >= 2,
    ensures
        match r {
            Ok(r0) => {
                &&& root_scan(stack.branches@, ls@, ls@.len()) == Ok::<Option<int>, Seq<char>>(Some(r0 as int))
                &&& r0 < ls@.len()
                &&& forall|j: int| 0 <= j < ls@.len() ==> has_name(stack.branches@, #[trigger] ls@[j]@)
                &&& forall|j: int| 0 <= j < ls@.len() ==> (parent_listed(stack.branches@, ls@, #[trigger] ls@[j]@) <==> j != r0)
            },
            Err(e) => specified_fold(stack.branches@, ls@) == Err::<Seq<Seq<char>>, Seq<char>>(e@)
                && no_chain(stack.branches@, ls@),
        },
{
    let ghost bs = stack.branches@;
    let n = ls.len();
    let mut root: Option<usize> = None;
    let mut k: usize = 0;
    while k < n
        invariant
            bs == stack.branches@,
            n == ls@.len(),
            k <= n,
            root_scan(bs, ls@, k as nat) == Ok::<Option<int>, Seq<char>>(opt_int(root)),
            root matches Some(i) ==> i < k,
            n >= 2,
            forall|j: int| 0 <= j < k ==> has_name(bs, #[trigger] ls@[j]@),
            forall|j: int| 0 <= j < k ==> (parent_listed(bs, ls@, #[trigger] ls@[j]@) <==> opt_int(root) != Some(j)),
        decreases n - k,
    {
        match stack.find_index(&ls[k]) {
            None => {
                let mut m: Vec<char> = Vec::new();
                push_str(&mut m, "Branch '");
                push_string(&mut m, &ls[k]);
                push_str(&mut m, "' not found in stack");
                let e = string_from_chars(&m);
                proof {
                    lemma_root_scan_err(bs, ls@, (k + 1) as nat, e@);
                    assert(root_scan(bs, ls@, ls@.len()) == Err::<Option<int>, Seq<char>>(e@));
                    assert(specified_fold(bs, ls@) == Err::<Seq<Seq<char>>, Seq<char>>(e@));
                    lemma_no_chain_missing(bs, ls@, k as int);
                }
                return Err(e);
            },
            Some(j) => {
                let parent_in_list = match &stack.branches[j].parent {
                    Some(p) => contains_name(ls, p),
                    None => false,
                };
                proof {
                    assert(parent_listed(bs, ls@, ls@[k as int]@) == parent_in_list);
                    lemma_root_scan_step(bs, ls@, k as nat, opt_int(root));
                }
                if !parent_in_list {
                    if root.is_some() {
                        let e = String::from_str("Branches must form a single parent-child chain");
                        proof {
                            lemma_root_scan_err(bs, ls@, (k + 1) as nat, e@);
                            lemma_no_chain_two_tops(bs, ls@, root->0 as int, k as int);
                        }
                        return Err(e);
                    }
                    root = Some(k);
                }
            },
        }
        k += 1;
    }
    match root {
        None => {
            proof {
                lemma_no_chain_no_top(bs, ls@);
            }
            Err(String::from_str("Could not determine root of branch chain"))
        },
        Some(r0) => Ok(r0),
    }
}

/// Walks down from the root through the given children, as long as the
/// given names: each name must have at most one given child, and the walk
/// must take every given name.
#[verifier::rlimit(80)]
fn walk_chain(stack: &Stack, ls: &Vec<String>, r0: usize) -> (r: Result<Vec<String>, String>)
    requires
        ls@.len() >= 2,
        root_scan(stack.branches@, ls@, ls@.len()) == Ok::<Option<int>, Seq<char>>(Some(r0 as int)),
        r0 < ls@.len(),
        forall|j: int| 0 <= j < ls@.len() ==> has_name(stack.branches@, #[trigger] ls@[j]@),
        forall|j: int| 0 <= j < ls@.len() ==> (parent_listed(stack.branches@, ls@, #[trigger] ls@[j]@) <==> j != r0),
    ensures
        match r {
            Ok(v) => v@.len() == ls@.len() && specified_fold(stack.branches@, ls@) == Ok::<Seq<Seq<char>>, Seq<char>>(names(v@))
                && (stack.wf() ==> forms_chain(stack.branches@, ls@, names(v@))),
            Err(e) => specified_fold(stack.branches@, ls@) == Err::<Seq<Seq<char>>, Seq<char>>(e@)
                && (stack.wf() ==> no_chain(stack.branches@, ls@)),
        },
{
    let ghost bs = stack.branches@;
    let n = ls.len();
    proof {
        assert(names(ls@)[r0 as int] == ls@[r0 as int]@);
    }
    let ghost c0 = choose|c: Seq<Seq<char>>| forms_chain(bs, ls@, c);
    let ghost hc = stack.wf() && forms_chain(bs, ls@, c0);
    let ghost x = ls@[r0 as int]@;
    proof {
        if hc {
            lemma_chain_top(bs, ls@, c0, x);
            reveal(walk_follows);
            assert(c0.take(0) =~= Seq::<Seq<char>>::empty());
            lemma_walk_step(bs, ls@, c0, seq![], 0);
        }
        lemma_walk_start(bs, ls@, x);
    }
    let mut ordered: Vec<String> = Vec::new();
    let mut current = ls[r0].clone();
    let mut done = false;
    proof {
        assert(names(ordered@) =~= Seq::<Seq<char>>::empty());
        assert(has_name(bs, ls@[r0 as int]@));
        if hc {
            reveal(walk_follows);
        }
    }
    while ordered.len() < n && !done
        invariant
            bs == stack.branches@,
            n == ls@.len(),
            ordered@.len() <= n,
            r0 < n,
            n >= 2,
            root_scan(bs, ls@, n as nat) == Ok::<Option<int>, Seq<char>>(Some(r0 as int)),
            !done ==> chain_from(bs, ls@, ls@[r0 as int]@, n as nat) == (match chain_from(
                bs,
                ls@,
                current@,
                (n - ordered@.len()) as nat,
            ) {
                Some(rest) => Some(names(ordered@) + rest),
                None => None,
            }),
            done ==> chain_from(bs, ls@, ls@[r0 as int]@, n as nat) == Some(names(ordered@)),
            x == ls@[r0 as int]@,
            stack.wf() ==> walk_facts(bs, ls@, x, names(ordered@), current@, done),
            c0 == choose|c: Seq<Seq<char>>| forms_chain(bs, ls@, c),
            hc == (stack.wf() && forms_chain(bs, ls@, c0)),
            hc ==> walk_follows(c0, names(ordered@), current@, done),
        decreases 2 * (n - ordered@.len()) + (if done { 0int } else { 1int }),
    {
        let ghost fuel = (n - ordered@.len()) as nat;
        let ghost before = ordered@;
        let ghost cur0 = current@;
        ordered.push(current.clone());
        let kids = given_children(stack, ls, &current);
        proof {
            crate::stack::lemma_names_push(before, ordered@.last());
            assert(names(ordered@) == names(before).push(cur0));
            if hc {
                lemma_follow_step(bs, ls@, c0, names(before), cur0);
            }
        }
        if kids.len() > 1 {
            proof {
                if stack.wf() {
                    lemma_no_chain_of_choice(bs, ls@, c0);
                }
            }
            return Err(String::from_str("Branches must form a linear chain (no branching)"));
        }
        if kids.len() == 1 {
            current = kids[0].name.clone();
            proof {
                assert(names(before) + (seq![cur0] + Seq::<Seq<char>>::empty()) =~= names(ordered@));
                match chain_from(bs, ls@, current@, (fuel - 1) as nat) {
                    Some(rest) => {
                        assert(names(before) + (seq![cur0] + rest) =~= names(ordered@) + rest);
                    },
                    None => {},
                }
                if stack.wf() {
                    lemma_listed_child(bs, ls@, cur0, 0);
                    lemma_walk_take(bs, ls@, x, names(before), cur0, current@, false);
                }
            }
        } else {
            done = true;
            proof {
                assert(names(before) + seq![cur0] =~= names(ordered@));
                if stack.wf() {
                    lemma_walk_take(bs, ls@, x, names(before), cur0, cur0, true);
                }
            }
        }
    }
    proof {
        if !done {
            assert(names(ordered@) + Seq::<Seq<char>>::empty() =~= names(ordered@));
        }
    }
    if ordered.len() != n {
        proof {
            if hc {
                lemma_follow_len(c0, names(ordered@), current@, done);
                reveal(forms_chain);
            }
            if stack.wf() {
                lemma_no_chain_of_choice(bs, ls@, c0);
            }
        }
        return Err(String::from_str("Branches must form a connected chain"));
    }
    proof {
        if stack.wf() {
            if !done {
                reveal(walk_facts);
                lemma_walk_take(bs, ls@, x, names(ordered@).drop_last(), names(ordered@).last(), current@, true);
            }
            lemma_walk_done(bs, ls@, x, names(ordered@), current@);
        }
    }
    Ok(ordered)
}

/// Folds the given branches, which must form one chain of adjacent
/// branches: the top one is the target and stays on its parent (or the
/// default branch); the others are folded into it. With distinct branch
/// names in the stack, it succeeds exactly when the given names form one
/// chain, and then the target and the folded branches are that chain in
/// order, parent first.
pub fn specified_branches_config(stack: &Stack, ls: &Vec<String>, default_branch: &String) -> (r: Result<FoldConfig, String>)
    ensures
        ({
            let bs = stack.branches@;
            match specified_fold(bs, ls@) {
                Err(m) => r matches Err(e) && e@ == m,
                Ok(chain) => r matches Ok(c) && c.target_branch@ == chain[0] && names(c.branches_to_fold@)
                    == chain.drop_first() && c.new_parent@ == (match parent_of(bs, chain[0]) {
                    Some(p) => p,
                    None => default_branch@,
                }),
            }
        }),
        stack.wf() ==> (r is Ok <==> ls@.len() >= 2 && exists|c: Seq<Seq<char>>|
            forms_chain(stack.branches@, ls@, c)),
        stack.wf() ==> (r matches Ok(cfg) ==> forms_chain(
            stack.branches@,
            ls@,
            seq![cfg.target_branch@] + names(cfg.branches_to_fold@),
        )),
{
    let ghost bs = stack.branches@;
    if ls.len() < 2 {
        return Err(String::from_str("At least two branches must be specified for folding"));
    }
    let r0 = match scan_root(stack, ls) {
        Err(e) => return Err(e),
        Ok(r0) => r0,
    };
    let mut ordered = match walk_chain(stack, ls, r0) {
        Err(e) => return Err(e),
        Ok(v) => v,
    };
    let ghost full = ordered@;
    let target = ordered.remove(0);
    proof {
        assert(names(ordered@) =~= names(full).drop_first());
        assert(target@ == names(full)[0]);
        assert(seq![target@] + names(ordered@) =~= names(full));
    }
    let new_parent = match stack.parent_of(&target) {
        Some(p) => p,
        None => default_branch.clone(),
    };
    Ok(FoldConfig { target_branch: target, branches_to_fold: ordered, new_parent })
}

/// Refuses to start a fold while another operation is half done.
pub fn check_fold_blockers(fold: bool, sync: bool, restack: bool, split: bool) -> (r: Result<(), String>)
    ensures
        r is Ok <==> !fold && !sync && !restack && !split,
        r matches Err(m) ==> m@ == (if fold {
            "A fold is already in progress.\nUse --abort to cancel."@
        } else if sync {
            "A sync is in progress. Complete or abort it first."@
        } else if restack {
            "A restack is in progress. Complete or abort it first."@
        } else {
            "A split is in progress. Complete or abort it first."@
        }),
{
    if fold {
        Err(String::from_str("A fold is already in progress.\nUse --abort to cancel."))
    } else if sync {
        Err(String::from_str("A sync is in progress. Complete or abort it first."))
    } else if restack {
        Err(String::from_str("A restack is in progress. Complete or abort it first."))
    } else if split {
        Err(String::from_str("A split is in progress. Complete or abort it first."))
    } else {
        Ok(())
    }
}

/// The entries of the fold menu.
pub open spec fn fold_menu_entries(parent: Option<String>, children: Seq<Seq<char>>, current: Seq<char>) -> Seq<Seq<char>> {
    let a: Seq<Seq<char>> = if parent is Some {
        seq!["Fold into parent (merge "@ + current + " into parent)"@]
    } else {
        Seq::empty()
    };
    let b: Seq<Seq<char>> = if children.len() > 0 {
        seq!["Fold children ("@ + crate::text::join(children, ", "@) + ") into "@ + current]
    } else {
        Seq::empty()
    };
    a + b
}

/// The names of the analysed children.
pub open spec fn child_names_of(a: FoldAnalysis) -> Seq<Seq<char>> {
    a.children@.map_values(|c: FoldBranchInfo| c.name@)
}

/// The choices offered when no fold was asked for: fold into the parent,
/// fold the children, cancel; an error when there is nothing to fold.
pub fn fold_menu(analysis: &FoldAnalysis, current: &String) -> (r: Result<Vec<String>, String>)
    ensures
        ({
            let entries = fold_menu_entries(analysis.parent_branch, child_names_of(*analysis), current@);
            &&& r is Ok <==> entries.len() > 0
            &&& r matches Err(m) ==> m@ == "No branches available to fold (need parent or children in stack)"@
            &&& r matches Ok(v) ==> crate::stack::names(v@) == entries.push("Cancel"@)
        }),
{
    let ghost entries = fold_menu_entries(analysis.parent_branch, child_names_of(*analysis), current@);
    let mut options: Vec<String> = Vec::new();
    if analysis.parent_branch.is_some() {
        let mut m: Vec<char> = Vec::new();
        push_str(&mut m, "Fold into parent (merge ");
        push_string(&mut m, current);
        push_str(&mut m, " into parent)");
        options.push(string_from_chars(&m));
    }
    if analysis.children.len() > 0 {
        let names = child_names(analysis);
        proof {
            assert(crate::stack::names(names@) =~= child_names_of(*analysis));
        }
        let mut m: Vec<char> = Vec::new();
        push_str(&mut m, "Fold children (");
        let joined = crate::text::join_strings(&names, ", ");
        push_all(&mut m, &joined);
        push_str(&mut m, ") into ");
        push_string(&mut m, current);
        options.push(string_from_chars(&m));
    }
    if options.len() == 0 {
        return Err(String::from_str("No branches available to fold (need parent or children in stack)"));
    }
    assert(crate::stack::names(options@) =~= entries);
    options.push(String::from_str("Cancel"));
    proof {
        crate::stack::lemma_names_push(options@.drop_last(), options@.last());
        assert(options@.drop_last().push(options@.last()) =~= options@);
    }
    Ok(options)
}

/// A fold picked from the menu.
#[derive(Debug, Clone, Copy, PartialEq, Eq, Structural)]
pub enum FoldChoice {
    IntoParent,
    Children,
}

/// The fold a menu entry stands for; `None` for "Cancel" or any other
/// entry.
pub fn fold_choice(selection: &str) -> (r: Option<FoldChoice>)
    ensures
        r == (if selection@ == "Cancel"@ {
            None
        } else if crate::text::starts_with(selection@, "Fold into parent"@) {
            Some(FoldChoice::IntoParent)
        } else if crate::text::starts_with(selection@, "Fold children"@) {
            Some(FoldChoice::Children)
        } else {
            None
        }),
{
    if String::from_str(selection) == String::from_str("Cancel") {
        None
    } else if crate::text::has_prefix(selection, "Fold into parent") {
        Some(FoldChoice::IntoParent)
    } else if crate::text::has_prefix(selection, "Fold children") {
        Some(FoldChoice::Children)
    } else {
        None
    }
}

/// The entry for a child in the multiple choice of children.
pub open spec fn child_option(c: FoldBranchInfo) -> Seq<char> {
    c.name@ + " ("@ + crate::text::decimal(c.commit_count as nat) + " commits)"@
}

/// The entries of the multiple choice of children: each with its number of
/// commits.
pub fn children_options(analysis: &FoldAnalysis) -> (r: Vec<String>)
    ensures
        r@.len() == analysis.children@.len(),
        forall|i: int| 0 <= i < r@.len() ==> (#[trigger] r@[i])@ == child_option(analysis.children@[i]),
{
    let mut r: Vec<String> = Vec::new();
    let mut i: usize = 0;
    while i < analysis.children.len()
        invariant
            i <= analysis.children@.len(),
            r@.len() == i,
            forall|j: int| 0 <= j < i ==> (#[trigger] r@[j])@ == child_option(analysis.children@[j]),
        decreases analysis.children@.len() - i,
    {
        let c = &analysis.children[i];
        let mut m: Vec<char> = Vec::new();
        push_string(&mut m, &c.name);
        push_str(&mut m, " (");
        let d = decimal_usize(c.commit_count);
        push_all(&mut m, &d);
        push_str(&mut m, " commits)");
        r.push(string_from_chars(&m));
        i += 1;
    }
    r
}

/// The pull requests of the given branches that are in the stack, in
/// order: they are to be closed once the branches are folded away.
pub open spec fn prs_of(bs: Seq<StackBranch>, ls: Seq<String>) -> Seq<u64>
    decreases ls.len(),
{
    if ls.len() == 0 {
        Seq::empty()
    } else {
        let n = ls.len() - 1;
        let prev = prs_of(bs, ls.take(n));
        if has_name(bs, ls[n]@) && bs[idx_of(bs, ls[n]@)].pr is Some {
            prev.push(bs[idx_of(bs, ls[n]@)].pr->0)
        } else {
            prev
        }
    }
}

/// The pull requests to close after folding the given branches.
#[verifier::spinoff_prover]
pub fn prs_to_close(stack: &Stack, ls: &Vec<String>) -> (r: Vec<u64>)
    ensures
        r@ == prs_of(stack.branches@, ls@),
{
    let mut r: Vec<u64> = Vec::new();
    let mut i: usize = 0;
    while i < ls.len()
        invariant
            i <= ls@.len(),
            r@ == prs_of(stack.branches@, ls@.take(i as int)),
        decreases ls@.len() - i,
    {
        proof {
            assert(ls@.take(i + 1).take(i as int) =~= ls@.take(i as int));
            assert(ls@.take(i + 1)[i as int] == ls@[i as int]);
        }
        match stack.find_index(&ls[i]) {
            Some(j) => match stack.branches[j].pr {
                Some(pr) => r.push(pr),
                None => {},
            },
            None => {},
        }
        i += 1;
    }
    assert(ls@.take(ls@.len() as int) =~= ls@);
    r
}

/// Why the stack could not be folded.
#[derive(Debug)]
pub enum FoldStackError {
    /// No branch was given to fold.
    NothingToFold,
    /// The target is not in the stack.
    Stack(StackError),
}

/// The stack after folding: the target sits on the new parent, the
/// children of the last folded branch sit on the target, and the folded
/// branches are gone.
pub open spec fn folded_stack(bs: Seq<StackBranch>, target: String, folded: Seq<String>, new_parent: String) -> Seq<StackBranch> {
    fold_moved(bs, target, folded.last()@, new_parent).filter(not_listed(folded))
}

/// The stack with the children of `last` moved onto `target` and `target`
/// moved onto `new_parent`.
pub open spec fn fold_moved(bs: Seq<StackBranch>, target: String, last: Seq<char>, new_parent: String) -> Seq<StackBranch> {
    bs.map_values(|b: StackBranch| StackBranch {
        name: b.name,
        parent: if crate::stack::opt_str(b.parent) == Some(last) {
            Some(target)
        } else if b.name@ == target@ {
            Some(new_parent)
        } else {
            b.parent
        },
        pr: b.pr,
    })
}

/// Branches whose names are not among the given ones.
pub open spec fn not_listed(ls: Seq<String>) -> spec_fn(StackBranch) -> bool {
    |b: StackBranch| !listed(ls, b.name@)
}

/// Folds the configured branches in the stack.
pub fn apply_fold_to_stack(stack: &mut Stack, config: &FoldConfig) -> (r: Result<(), FoldStackError>)
    requires
        old(stack).wf(),
    ensures
        r matches Err(FoldStackError::NothingToFold) <==> config.branches_to_fold@.len() == 0,
        r matches Err(FoldStackError::Stack(_)) <==> config.branches_to_fold@.len() > 0 && !has_name(
            old(stack).branches@,
            config.target_branch@,
        ),
        r is Ok ==> final(stack).branches@ == folded_stack(
            old(stack).branches@,
            config.target_branch,
            config.branches_to_fold@,
            config.new_parent,
        ),
        r is Err ==> final(stack).branches@ == old(stack).branches@,
        final(stack).merged@ == old(stack).merged@,
        final(stack).wf(),
{
    let n_fold = config.branches_to_fold.len();
    if n_fold == 0 {
        return Err(FoldStackError::NothingToFold);
    }
    if !stack.contains(&config.target_branch) {
        return Err(FoldStackError::Stack(StackError::BranchNotFound(config.target_branch.clone())));
    }
    let last = &config.branches_to_fold[n_fold - 1];
    let ghost bs = stack.branches@;
    let ghost moved = fold_moved(bs, config.target_branch, last@, config.new_parent);
    let n = stack.branches.len();
    let mut kept: Vec<StackBranch> = Vec::new();
    let mut i: usize = 0;
    while i < n
        invariant
            bs == stack.branches@,
            n == bs.len(),
            i <= n,
            moved.len() == n,
            moved == fold_moved(bs, config.target_branch, last@, config.new_parent),
            last@ == config.branches_to_fold@.last()@,
            kept@ == moved.take(i as int).filter(not_listed(config.branches_to_fold@)),
        decreases n - i,
    {
        proof {
            lemma_filter_take_step(moved, not_listed(config.branches_to_fold@), i as int);
        }
        let b = &stack.branches[i];
        if !contains_name(&config.branches_to_fold, &b.name) {
            let to_last = match &b.parent {
                Some(p) => *p == *last,
                None => false,
            };
            let parent = if to_last {
                Some(config.target_branch.clone())
            } else if b.name == config.target_branch {
                Some(config.new_parent.clone())
            } else {
                clone_opt_string(&b.parent)
            };
            kept.push(StackBranch { name: b.name.clone(), parent, pr: b.pr });
        }
        i += 1;
    }
    proof {
        assert(moved.take(n as int) =~= moved);
        assert forall|x: int, y: int| 0 <= x < moved.len() && 0 <= y < moved.len() && x != y implies
            #[trigger] moved[x].name@ != #[trigger] moved[y].name@ by {
            assert(moved[x].name == bs[x].name);
            assert(moved[y].name == bs[y].name);
        }
        crate::stack::lemma_filter_keeps_unique(moved, not_listed(config.branches_to_fold@));
    }
    stack.branches = kept;
    Ok(())
}

/// The branch checked out after a fold: the one the user was on, unless it
/// was folded away or no longer exists; the target otherwise.
pub fn fold_checkout_branch(config: &FoldConfig, original: &String, original_exists: bool) -> (r: String)
    ensures
        r == (if listed(config.branches_to_fold@, original@) {
            config.target_branch
        } else if original_exists {
            *original
        } else {
            config.target_branch
        }),
{
    if contains_name(&config.branches_to_fold, original) {
        config.target_branch.clone()
    } else if original_exists {
        original.clone()
    } else {
        config.target_branch.clone()
    }
}

/// "#" and the number of each pull request, joined by ", ".
pub open spec fn pr_list(prs: Seq<u64>) -> Seq<char> {
    crate::text::join(prs.map_values(|p: u64| seq!['#'] + decimal(p as nat)), ", "@)
}

/// The lines after a fold: what was folded into what and how many commits
/// the result has, each removed branch, and the pull requests to close
/// (with a hint) when there are any.
pub fn print_fold_result(result: &FoldResult) -> (r: Vec<(crate::output::MessageKind, String)>)
    ensures
        ({
            let n = result.branches_folded@.len() as int;
            let p: int = if result.prs_to_close@.len() > 0 { 2 } else { 0 };
            &&& r@.len() == 1 + n + p
            &&& r@[0].0 == crate::output::MessageKind::Success
            &&& r@[0].1@ == "Folded "@ + decimal(n as nat) + " branch(es) into '"@ + result.target_branch@ + "' ("@
                + decimal(result.total_commits as nat) + " commits)"@
            &&& forall|i: int| 0 <= i < n ==> (#[trigger] r@[1 + i]).0 == crate::output::MessageKind::Detail
                && r@[1 + i].1@ == seq![' ', ' ', '•', ' '] + "removed "@ + result.branches_folded@[i]@
            &&& p == 2 ==> r@[1 + n].0 == crate::output::MessageKind::Info && r@[1 + n].1@ == "PRs to close: "@
                + pr_list(result.prs_to_close@) && r@[2 + n].0 == crate::output::MessageKind::Detail && r@[2 + n].1@
                == "Run `rung submit` to update PRs"@
        }),
{
    let mut r: Vec<(crate::output::MessageKind, String)> = Vec::new();
    let mut v: Vec<char> = Vec::new();
    push_str(&mut v, "Folded ");
    let d = decimal_usize(result.branches_folded.len());
    push_all(&mut v, &d);
    push_str(&mut v, " branch(es) into '");
    push_string(&mut v, &result.target_branch);
    push_str(&mut v, "' (");
    let c = decimal_usize(result.total_commits);
    push_all(&mut v, &c);
    push_str(&mut v, " commits)");
    r.push((crate::output::MessageKind::Success, string_from_chars(&v)));
    let n = result.branches_folded.len();
    let mut i: usize = 0;
    while i < n
        invariant
            n == result.branches_folded@.len(),
            i <= n,
            r@.len() == 1 + i,
            r@[0].0 == crate::output::MessageKind::Success,
            r@[0].1@ == "Folded "@ + decimal(n as nat) + " branch(es) into '"@ + result.target_branch@ + "' ("@
                + decimal(result.total_commits as nat) + " commits)"@,
            forall|j: int| 0 <= j < i ==> (#[trigger] r@[1 + j]).0 == crate::output::MessageKind::Detail
                && r@[1 + j].1@ == seq![' ', ' ', '•', ' '] + "removed "@ + result.branches_folded@[j]@,
        decreases n - i,
    {
        let mut w: Vec<char> = Vec::new();
        w.push(' ');
        w.push(' ');
        w.push('•');
        w.push(' ');
        push_str(&mut w, "removed ");
        push_string(&mut w, &result.branches_folded[i]);
        assert(w@ =~= seq![' ', ' ', '•', ' '] + "removed "@ + result.branches_folded@[i as int]@);
        r.push((crate::output::MessageKind::Detail, string_from_chars(&w)));
        i += 1;
    }
    if result.prs_to_close.len() > 0 {
        let mut parts: Vec<Vec<char>> = Vec::new();
        let mut k: usize = 0;
        while k < result.prs_to_close.len()
            invariant
                k <= result.prs_to_close@.len(),
                parts@.len() == k,
                forall|j: int| 0 <= j < k ==> (#[trigger] parts@[j])@ == seq!['#'] + decimal(result.prs_to_close@[j] as nat),
            decreases result.prs_to_close@.len() - k,
        {
            let mut pv: Vec<char> = Vec::new();
            pv.push('#');
            let dd = crate::text::decimal_chars(result.prs_to_close[k]);
            push_all(&mut pv, &dd);
            parts.push(pv);
            k += 1;
        }
        let joined = crate::text::join_chars(&parts, ", ");
        proof {
            assert(parts@.map_values(|l: Vec<char>| l@) =~= result.prs_to_close@.map_values(|p: u64| seq!['#'] + decimal(p as nat)));
        }
        let mut l: Vec<char> = Vec::new();
        push_str(&mut l, "PRs to close: ");
        push_all(&mut l, &joined);
        r.push((crate::output::MessageKind::Info, string_from_chars(&l)));
        r.push((crate::output::MessageKind::Detail, String::from_str("Run `rung submit` to update PRs")));
    }
    r
}

/// The lines of a fold dry run: how many branches would be folded into
/// what, then each of them.
pub fn fold_dry_run_lines(config: &FoldConfig) -> (r: Vec<(crate::output::MessageKind, String)>)
    ensures
        ({
            let n = config.branches_to_fold@.len() as int;
            &&& r@.len() == n + 2
            &&& r@[0].0 == crate::output::MessageKind::Info && r@[0].1@ == "Would fold "@ + decimal(n as nat)
                + " branch(es) into '"@ + config.target_branch@ + "'"@
            &&& r@[1].0 == crate::output::MessageKind::Detail && r@[1].1@ == "Branches to fold:"@
            &&& forall|i: int| 0 <= i < n ==> (#[trigger] r@[2 + i]).0 == crate::output::MessageKind::Detail
                && r@[2 + i].1@ == "  "@ + config.branches_to_fold@[i]@
        }),
{
    let mut r: Vec<(crate::output::MessageKind, String)> = Vec::new();
    let mut v: Vec<char> = Vec::new();
    push_str(&mut v, "Would fold ");
    let n = config.branches_to_fold.len();
    let d = decimal_usize(n);
    push_all(&mut v, &d);
    push_str(&mut v, " branch(es) into '");
    push_string(&mut v, &config.target_branch);
    push_str(&mut v, "'");
    r.push((crate::output::MessageKind::Info, string_from_chars(&v)));
    r.push((crate::output::MessageKind::Detail, String::from_str("Branches to fold:")));
    let mut i: usize = 0;
    while i < n
        invariant
            n == config.branches_to_fold@.len(),
            i <= n,
            r@.len() == 2 + i,
            r@[0].0 == crate::output::MessageKind::Info && r@[0].1@ == "Would fold "@ + decimal(n as nat)
                + " branch(es) into '"@ + config.target_branch@ + "'"@,
            r@[1].0 == crate::output::MessageKind::Detail && r@[1].1@ == "Branches to fold:"@,
            forall|j: int| 0 <= j < i ==> (#[trigger] r@[2 + j]).0 == crate::output::MessageKind::Detail
                && r@[2 + j].1@ == "  "@ + config.branches_to_fold@[j]@,
        decreases n - i,
    {
        let mut w: Vec<char> = Vec::new();
        push_str(&mut w, "  ");
        push_string(&mut w, &config.branches_to_fold[i]);
        r.push((crate::output::MessageKind::Detail, string_from_chars(&w)));
        i += 1;
    }
    r
}

/// The message before asking to confirm a fold.
pub fn fold_confirm_message(config: &FoldConfig) -> (r: String)
    ensures
        r@ == "Will fold ["@ + crate::text::join(names(config.branches_to_fold@), ", "@) + "] into '"@
            + config.target_branch@ + "'"@,
{
    let mut v: Vec<char> = Vec::new();
    push_str(&mut v, "Will fold [");
    let j = crate::text::join_strings(&config.branches_to_fold, ", ");
    push_all(&mut v, &j);
    push_str(&mut v, "] into '");
    push_string(&mut v, &config.target_branch);
    push_str(&mut v, "'");
    string_from_chars(&v)
}

/// The options of the fold command.
#[derive(Debug, Clone)]
pub struct FoldOptions {
    pub dry_run: bool,
    pub abort: bool,
    pub json: bool,
    /// Fold the current branch into its parent.
    pub into_parent: bool,
    /// Fold the children into the current branch.
    pub include_children: bool,
    /// The branches to fold, which must be adjacent.
    pub branches: Vec<String>,
}

/// Which fold the options ask for.
#[derive(Debug, Clone, Copy, PartialEq, Eq, Structural)]
pub enum FoldRequest {
    IntoParent,
    IncludeChildren,
    Specified,
    /// Ask the user.
    Interactive,
}

/// The fold asked for: into the parent, the children, the given branches,
/// in that order of precedence; else the user is asked.
pub fn fold_request(opts: &FoldOptions) -> (r: FoldRequest)
    ensures
        r == (if opts.into_parent {
            FoldRequest::IntoParent
        } else if opts.include_children {
            FoldRequest::IncludeChildren
        } else if opts.branches@.len() > 0 {
            FoldRequest::Specified
        } else {
            FoldRequest::Interactive
        }),
{
    if opts.into_parent {
        FoldRequest::IntoParent
    } else if opts.include_children {
        FoldRequest::IncludeChildren
    } else if opts.branches.len() > 0 {
        FoldRequest::Specified
    } else {
        FoldRequest::Interactive
    }
}

/// After a fold, none of the folded branches is left in the stack, and the
/// children of the last folded branch sit on the target.
pub proof fn fold_removes_folded(bs: Seq<StackBranch>, target: String, folded: Seq<String>, new_parent: String)
    requires
        folded.len() > 0,
        !listed(folded, target@),
        new_parent@ != folded.last()@,
    ensures
        forall|k: int| 0 <= k < folded_stack(bs, target, folded, new_parent).len() ==> !listed(
            folded,
            (#[trigger] folded_stack(bs, target, folded, new_parent)[k]).name@,
        ),
        forall|k: int| 0 <= k < folded_stack(bs, target, folded, new_parent).len() ==> crate::stack::opt_str(
            (#[trigger] folded_stack(bs, target, folded, new_parent)[k]).parent,
        ) != Some(folded.last()@),
{
    let mv = fold_moved(bs, target, folded.last()@, new_parent);
    let out = mv.filter(not_listed(folded));
    crate::stack::lemma_filter_sub(mv, not_listed(folded));
    assert forall|k: int| 0 <= k < out.len() implies !listed(folded, (#[trigger] out[k]).name@)
        && crate::stack::opt_str(out[k].parent) != Some(folded.last()@) by {
        assert(out.contains(out[k]));
        let j = choose|j: int| 0 <= j < mv.len() && mv[j] == out[k];
        assert(not_listed(folded)(out[k]));
        assert(folded.contains(folded.last()));
        assert(names(folded)[folded.len() - 1] == folded.last()@);
        if crate::stack::opt_str(out[k].parent) == Some(folded.last()@) {
            // a branch moved onto the target has the target as parent, which
            // then would be the last folded branch, a listed name
            let b = bs[j];
            if crate::stack::opt_str(b.parent) == Some(folded.last()@) {
                assert(out[k].parent == Some(target));
                assert(target@ == folded.last()@);
                assert(names(folded)[folded.len() - 1] == target@);
                assert(listed(folded, target@));
            } else if b.name@ == target@ {
                assert(out[k].parent == Some(new_parent));
            } else {
                assert(out[k].parent == b.parent);
            }
        }
    }
}

/// Refuses to abort when no fold is in progress.
pub fn require_fold_in_progress(in_progress: bool) -> (r: Result<(), String>)
    ensures
        r is Ok <==> in_progress,
        r matches Err(m) ==> m@ == "No fold in progress"@,
{
    if in_progress {
        Ok(())
    } else {
        Err(String::from_str("No fold in progress"))
    }
}

} // verus!
