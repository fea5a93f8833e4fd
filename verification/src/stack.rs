//! The stack: the branches that rung manages, each with an optional parent
//! branch and an optional pull request number.

use vstd::prelude::*;
use vstd::set_lib::*;

verus! {

/// Errors from changing the stack.
#[derive(Debug)]
pub enum StackError {
    /// No branch of that name is in the stack.
    BranchNotFound(String),
}

/// A branch managed by rung.
pub struct StackBranch {
    /// The branch name.
    pub name: String,
    /// The branch it is stacked on. `None` for a branch based directly on
    /// the repository's base branch.
    pub parent: Option<String>,
    /// The number of its pull request, once one exists.
    pub pr: Option<u64>,
}

/// A branch whose pull request was merged; kept so that the stack comments
/// on pull requests can still show it.
pub struct MergedBranch {
    pub name: String,
    pub parent: Option<String>,
    pub pr: u64,
}

/// The stack of branches.
pub struct Stack {
    pub branches: Vec<StackBranch>,
    pub merged: Vec<MergedBranch>,
}

/// The view of an optional string.
pub open spec fn opt_str(o: Option<String>) -> Option<Seq<char>> {
    match o {
        Some(s) => Some(s@),
        None => None,
    }
}

/// Copies an optional string.
pub fn clone_opt_string(o: &Option<String>) -> (r: Option<String>)
    ensures
        r == *o,
{
    match o {
        Some(s) => Some(s.clone()),
        None => None,
    }
}

impl StackBranch {
    /// A new branch without a pull request.
    pub fn new(name: String, parent: Option<String>) -> (b: StackBranch)
        ensures
            b.name@ == name@,
            opt_str(b.parent) == opt_str(parent),
            b.pr is None,
    {
        StackBranch { name, parent, pr: None }
    }

    /// Copies the branch.
    pub fn duplicate(&self) -> (b: StackBranch)
        ensures
            b == *self,
    {
        StackBranch { name: self.name.clone(), parent: clone_opt_string(&self.parent), pr: self.pr }
    }
}

/// Whether a branch named `name` is in `bs`.
pub open spec fn has_name(bs: Seq<StackBranch>, name: Seq<char>) -> bool {
    exists|i: int| 0 <= i < bs.len() && #[trigger] bs[i].name@ == name
}

/// The position of the branch named `name` in `bs` (the first one, were
/// there several), or -1.
pub open spec fn idx_of(bs: Seq<StackBranch>, name: Seq<char>) -> int {
    if has_name(bs, name) {
        choose|i: int|
            0 <= i < bs.len() && bs[i].name@ == name && (forall|j: int|
                0 <= j < i ==> #[trigger] bs[j].name@ != name)
    } else {
        -1
    }
}

/// No two branches share a name.
pub open spec fn names_unique(bs: Seq<StackBranch>) -> bool {
    forall|i: int, j: int|
        0 <= i < bs.len() && 0 <= j < bs.len() && i != j ==> #[trigger] bs[i].name@
            != #[trigger] bs[j].name@
}

/// The parent recorded for the branch named `name`, if it is in `bs` and
/// has one.
pub open spec fn parent_of(bs: Seq<StackBranch>, name: Seq<char>) -> Option<Seq<char>> {
    if has_name(bs, name) {
        opt_str(bs[idx_of(bs, name)].parent)
    } else {
        None
    }
}

/// The branch reached from `x` by following parents `k` times.
pub open spec fn anc(bs: Seq<StackBranch>, x: Seq<char>, k: nat) -> Option<Seq<char>>
    decreases k,
{
    if k == 0 {
        Some(x)
    } else {
        match parent_of(bs, x) {
            Some(p) => anc(bs, p, (k - 1) as nat),
            None => None,
        }
    }
}

/// Following parents from `d` at least once reaches `r`, after `k` steps.
pub open spec fn reaches(bs: Seq<StackBranch>, d: Seq<char>, r: Seq<char>, k: nat) -> bool {
    k >= 1 && anc(bs, d, k) == Some(r)
}

/// `d` is a branch of the stack stacked, directly or not, on `r`.
pub open spec fn is_desc(bs: Seq<StackBranch>, d: Seq<char>, r: Seq<char>) -> bool {
    has_name(bs, d) && exists|k: nat| #[trigger] reaches(bs, d, r, k)
}

/// The first position holds the name, and every earlier one another name.
pub proof fn lemma_idx_of_first(bs: Seq<StackBranch>, i: int)
    requires
        0 <= i < bs.len(),
        forall|j: int| 0 <= j < i ==> #[trigger] bs[j].name@ != bs[i].name@,
    ensures
        idx_of(bs, bs[i].name@) == i,
{
    let name = bs[i].name@;
    assert(has_name(bs, name));
    let c = idx_of(bs, name);
    if c < i {
    } else if c > i {
        assert(bs[i].name@ == name);
    }
}

/// With unique names, the position of a branch is found from its name.
pub proof fn lemma_idx_of_unique(bs: Seq<StackBranch>, i: int)
    requires
        names_unique(bs),
        0 <= i < bs.len(),
    ensures
        idx_of(bs, bs[i].name@) == i,
        parent_of(bs, bs[i].name@) == opt_str(bs[i].parent),
{
    assert forall|j: int| 0 <= j < i implies #[trigger] bs[j].name@ != bs[i].name@ by {}
    lemma_idx_of_first(bs, i);
}


/// Every branch of `bs` stacked on a processed name (other than `root`) is
/// marked.
pub open spec fn children_marked(
    bs: Seq<StackBranch>,
    root: Seq<char>,
    processed: Set<Seq<char>>,
    marked: Seq<bool>,
) -> bool {
    forall|p: Seq<char>, i: int|
        #![trigger processed.contains(p), bs[i]]
        processed.contains(p) && 0 <= i < bs.len() && opt_str(bs[i].parent) == Some(p)
            && bs[i].name@ != root ==> marked[i]
}

/// Names of the sequence of strings.
pub open spec fn names(v: Seq<String>) -> Seq<Seq<char>> {
    v.map_values(|s: String| s@)
}

/// Whether `x` is one of the strings of `v`.
pub fn contains_name(v: &Vec<String>, x: &String) -> (r: bool)
    ensures
        r == names(v@).contains(x@),
{
    let n = v.len();
    let mut i: usize = 0;
    while i < n
        invariant
            n == v@.len(),
            i <= n,
            forall|j: int| 0 <= j < i ==> #[trigger] v@[j]@ != x@,
        decreases n - i,
    {
        if v[i] == *x {
            assert(names(v@)[i as int] == x@);
            return true;
        }
        i += 1;
    }
    proof {
        if names(v@).contains(x@) {
            let k = choose|k: int| 0 <= k < names(v@).len() && names(v@)[k] == x@;
            assert(v@[k]@ == x@);
        }
    }
    false
}

/// Going `k` steps up from the parent of `c` is going `k + 1` steps up from `c`.
pub proof fn lemma_anc_step(bs: Seq<StackBranch>, c: Seq<char>, p: Seq<char>, k: nat)
    requires
        parent_of(bs, c) == Some(p),
    ensures
        anc(bs, c, k + 1) == anc(bs, p, k),
{
}

/// A branch reached by at least one parent step has a parent.
pub proof fn lemma_reaches_parent(bs: Seq<StackBranch>, d: Seq<char>, r: Seq<char>, k: nat)
    requires
        reaches(bs, d, r, k),
    ensures
        parent_of(bs, d) is Some,
        anc(bs, parent_of(bs, d)->0, (k - 1) as nat) == Some(r),
        has_name(bs, d),
{
}

/// When every processed name has its children marked and every marked branch
/// is processed, each descendant of `root` is marked.
pub proof fn lemma_desc_marked(
    bs: Seq<StackBranch>,
    root: Seq<char>,
    processed: Set<Seq<char>>,
    marked: Seq<bool>,
    d: Seq<char>,
    k: nat,
)
    requires
        names_unique(bs),
        marked.len() == bs.len(),
        processed.contains(root),
        children_marked(bs, root, processed, marked),
        forall|i: int| 0 <= i < bs.len() && #[trigger] marked[i] ==> processed.contains(bs[i].name@),
        reaches(bs, d, root, k),
        d != root,
    ensures
        marked[idx_of(bs, d)],
    decreases k,
{
    lemma_reaches_parent(bs, d, root, k);
    let p = parent_of(bs, d)->0;
    let i = idx_of(bs, d);
    assert(bs[i].name@ == d);
    assert(opt_str(bs[i].parent) == Some(p));
    if p == root {
        assert(processed.contains(p));
    } else {
        assert((k - 1) as nat >= 1) by {
            if k == 1 {
                assert(anc(bs, p, 0) == Some(p));
            }
        }
        assert(reaches(bs, p, root, (k - 1) as nat));
        lemma_desc_marked(bs, root, processed, marked, p, (k - 1) as nat);
        let j = idx_of(bs, p);
        lemma_reaches_parent(bs, p, root, (k - 1) as nat);
        assert(bs[j].name@ == p);
        assert(processed.contains(p));
    }
}


/// Output names and marks agree: each output name is the name of a marked
/// branch, and each marked branch's name is output.
pub open spec fn backed(bs: Seq<StackBranch>, out: Seq<String>, marked: Seq<bool>) -> bool {
    &&& forall|k: int|
        #![trigger out[k]]
        0 <= k < out.len() ==> exists|j: int|
            0 <= j < bs.len() && marked[j] && #[trigger] bs[j].name@ == out[k]@
    &&& forall|j: int| 0 <= j < bs.len() && #[trigger] marked[j] ==> names(out).contains(bs[j].name@)
}

/// Each output name is stacked on `root` or on an earlier output name.
pub open spec fn parents_first(bs: Seq<StackBranch>, out: Seq<String>, root: Seq<char>) -> bool {
    forall|k: int|
        #![trigger out[k]]
        0 <= k < out.len() ==> parent_of(bs, out[k]@) == Some(root) || exists|j: int|
            0 <= j < k && parent_of(bs, out[k]@) == Some(#[trigger] out[j]@)
}

/// Each output name is a descendant of `root`, other than `root`.
pub open spec fn all_desc(bs: Seq<StackBranch>, out: Seq<String>, root: Seq<char>) -> bool {
    forall|k: int| #![trigger out[k]] 0 <= k < out.len() ==> is_desc(bs, out[k]@, root) && out[k]@ != root
}

/// Each marked branch is processed or waiting in the queue.
pub open spec fn marked_pending(
    bs: Seq<StackBranch>,
    marked: Seq<bool>,
    processed: Set<Seq<char>>,
    queue: Seq<String>,
) -> bool {
    forall|j: int|
        0 <= j < bs.len() && #[trigger] marked[j] ==> processed.contains(bs[j].name@) || names(
            queue,
        ).contains(bs[j].name@)
}

/// Each queued name is `root` or an output name.
pub open spec fn queue_known(queue: Seq<String>, out: Seq<String>, root: Seq<char>) -> bool {
    forall|q: int| #![trigger queue[q]] 0 <= q < queue.len() ==> queue[q]@ == root || names(out).contains(queue[q]@)
}

/// Each processed name is `root` or an output name.
pub open spec fn processed_known(processed: Set<Seq<char>>, out: Seq<String>, root: Seq<char>) -> bool {
    forall|p: Seq<char>| #[trigger] processed.contains(p) ==> p == root || names(out).contains(p)
}

/// The names of a pushed sequence.
pub proof fn lemma_names_push(v: Seq<String>, s: String)
    ensures
        names(v.push(s)) == names(v).push(s@),
        forall|x: Seq<char>| names(v).contains(x) ==> #[trigger] names(v.push(s)).contains(x),
        names(v.push(s)).contains(s@),
{
    assert(names(v.push(s)) =~= names(v).push(s@));
    assert forall|x: Seq<char>| names(v).contains(x) implies #[trigger] names(v.push(s)).contains(x) by {
        let k = choose|k: int| 0 <= k < names(v).len() && names(v)[k] == x;
        assert(names(v.push(s))[k] == x);
    }
    assert(names(v.push(s))[v.len() as int] == s@);
}

/// Pushing a fresh branch keeps outputs and marks in agreement.
pub proof fn lemma_backed_push(bs: Seq<StackBranch>, out: Seq<String>, marked: Seq<bool>, i: int, s: String)
    requires
        backed(bs, out, marked),
        marked.len() == bs.len(),
        0 <= i < bs.len(),
        s@ == bs[i].name@,
    ensures
        backed(bs, out.push(s), marked.update(i, true)),
{
    lemma_names_push(out, s);
    let out2 = out.push(s);
    let m2 = marked.update(i, true);
    assert forall|k: int| #![trigger out2[k]] 0 <= k < out2.len() implies exists|j: int|
        0 <= j < bs.len() && m2[j] && #[trigger] bs[j].name@ == out2[k]@ by {
        if k < out.len() {
            assert(out2[k] == out[k]);
            let j = choose|j: int| 0 <= j < bs.len() && marked[j] && #[trigger] bs[j].name@ == out[k]@;
            assert(m2[j]);
        } else {
            assert(m2[i]);
        }
    }
    assert forall|j: int| 0 <= j < bs.len() && #[trigger] m2[j] implies names(out2).contains(bs[j].name@) by {
        if j != i {
            assert(marked[j]);
        }
    }
}

/// Pushing a name onto the queue keeps the queued and processed names known.
pub proof fn lemma_known_push(
    bs: Seq<StackBranch>,
    marked: Seq<bool>,
    processed: Set<Seq<char>>,
    queue: Seq<String>,
    out: Seq<String>,
    root: Seq<char>,
    i: int,
    s: String,
)
    requires
        marked.len() == bs.len(),
        0 <= i < bs.len(),
        s@ == bs[i].name@,
        queue_known(queue, out, root),
        processed_known(processed, out, root),
        marked_pending(bs, marked, processed, queue),
    ensures
        queue_known(queue.push(s), out.push(s), root),
        processed_known(processed, out.push(s), root),
        marked_pending(bs, marked.update(i, true), processed, queue.push(s)),
{
    lemma_names_push(out, s);
    lemma_names_push(queue, s);
    let q2 = queue.push(s);
    assert forall|q: int| #![trigger q2[q]] 0 <= q < q2.len() implies q2[q]@ == root || names(out.push(s)).contains(q2[q]@) by {
        if q < queue.len() {
            assert(q2[q] == queue[q]);
        }
    }
    let m2 = marked.update(i, true);
    assert forall|j: int| 0 <= j < bs.len() && #[trigger] m2[j] implies processed.contains(bs[j].name@) || names(q2).contains(bs[j].name@) by {
        if j != i {
            assert(marked[j]);
        }
    }
}


/// Branches stacked directly on `name`.
pub open spec fn is_child_of(name: Seq<char>) -> spec_fn(StackBranch) -> bool {
    |b: StackBranch| opt_str(b.parent) == Some(name)
}

/// Branches not named `name`.
pub open spec fn not_named(name: Seq<char>) -> spec_fn(StackBranch) -> bool {
    |b: StackBranch| b.name@ != name
}

/// Filtering one more element of a prefix.
pub proof fn lemma_filter_take_step<A>(s: Seq<A>, pred: spec_fn(A) -> bool, i: int)
    requires
        0 <= i < s.len(),
    ensures
        s.take(i + 1).filter(pred) == if pred(s[i]) {
            s.take(i).filter(pred).push(s[i])
        } else {
            s.take(i).filter(pred)
        },
{
    assert(s.take(i + 1) =~= s.take(i).push(s[i]));
    s.take(i).lemma_filter_push(s[i], pred);
}

/// A filtered sequence only holds elements of the original.
pub proof fn lemma_filter_sub<A>(s: Seq<A>, pred: spec_fn(A) -> bool)
    ensures
        forall|x: A| #[trigger] s.filter(pred).contains(x) ==> s.contains(x) && pred(x),
        forall|i: int| 0 <= i < s.len() && pred(s[i]) ==> #[trigger] s.filter(pred).contains(s[i]),
    decreases s.len(),
{
    reveal(Seq::filter);
    if s.len() > 0 {
        lemma_filter_sub(s.drop_last(), pred);
        assert forall|x: A| #[trigger] s.filter(pred).contains(x) implies s.contains(x) && pred(x) by {
            if s.drop_last().filter(pred).contains(x) {
                let k = choose|k: int| 0 <= k < s.drop_last().len() && s.drop_last()[k] == x;
                assert(s[k] == x);
            } else {
                assert(x == s.last());
                assert(s[s.len() - 1] == x);
            }
        }
        assert forall|i: int| 0 <= i < s.len() && pred(s[i]) implies #[trigger] s.filter(pred).contains(s[i]) by {
            if i < s.len() - 1 {
                assert(s.drop_last()[i] == s[i]);
                assert(s.drop_last().filter(pred).contains(s[i]));
                let k = choose|k: int| 0 <= k < s.drop_last().filter(pred).len() && s.drop_last().filter(pred)[k] == s[i];
                assert(s.filter(pred)[k] == s[i]);
            } else {
                assert(s.filter(pred)[s.filter(pred).len() - 1] == s[i]);
            }
        }
    }
}

/// Filtering keeps names unique.
pub proof fn lemma_filter_keeps_unique(bs: Seq<StackBranch>, pred: spec_fn(StackBranch) -> bool)
    requires
        names_unique(bs),
    ensures
        names_unique(bs.filter(pred)),
    decreases bs.len(),
{
    reveal(Seq::filter);
    if bs.len() > 0 {
        let init = bs.drop_last();
        assert(names_unique(init)) by {
            assert forall|i: int, j: int| 0 <= i < init.len() && 0 <= j < init.len() && i != j implies #[trigger] init[i].name@ != #[trigger] init[j].name@ by {
                assert(init[i] == bs[i] && init[j] == bs[j]);
            }
        }
        lemma_filter_keeps_unique(init, pred);
        if pred(bs.last()) {
            lemma_filter_sub(init, pred);
            let f = init.filter(pred);
            let g = f.push(bs.last());
            assert forall|i: int, j: int| 0 <= i < g.len() && 0 <= j < g.len() && i != j implies #[trigger] g[i].name@ != #[trigger] g[j].name@ by {
                if i < f.len() && j < f.len() {
                    assert(g[i] == f[i] && g[j] == f[j]);
                } else if i < f.len() {
                    assert(f.contains(f[i]));
                    let k = choose|k: int| 0 <= k < init.len() && init[k] == f[i];
                    assert(bs[k] == f[i]);
                    assert(g[j] == bs[bs.len() - 1]);
                } else {
                    assert(f.contains(f[j]));
                    let k = choose|k: int| 0 <= k < init.len() && init[k] == f[j];
                    assert(bs[k] == f[j]);
                    assert(g[i] == bs[bs.len() - 1]);
                }
            }
        }
    }
}


/// `bs2` is `bs` with the branch named `t` moved onto `p`; nothing else
/// changes.
pub open spec fn reparented(bs: Seq<StackBranch>, bs2: Seq<StackBranch>, t: Seq<char>, p: Seq<char>) -> bool {
    &&& bs2.len() == bs.len()
    &&& forall|i: int| 0 <= i < bs.len() ==> #[trigger] bs2[i].name@ == bs[i].name@ && bs2[i].pr == bs[i].pr
    &&& forall|i: int| 0 <= i < bs.len() && bs[i].name@ == t ==> opt_str(#[trigger] bs2[i].parent) == Some(p)
    &&& forall|i: int| 0 <= i < bs.len() && bs[i].name@ != t ==> opt_str(#[trigger] bs2[i].parent) == opt_str(bs[i].parent)
}

/// No branch is its own ancestor.
pub open spec fn acyclic(bs: Seq<StackBranch>) -> bool {
    forall|x: Seq<char>, k: nat| !#[trigger] reaches(bs, x, x, k)
}

/// The number of branches of the stack on the path from `x` up to the base
/// (`x` included), following at most `fuel` parents.
pub open spec fn depth(bs: Seq<StackBranch>, x: Seq<char>, fuel: nat) -> nat
    decreases fuel,
{
    if fuel == 0 || !has_name(bs, x) {
        0
    } else {
        match parent_of(bs, x) {
            Some(p) => 1 + depth(bs, p, (fuel - 1) as nat),
            None => 1,
        }
    }
}

/// Going `a + b` steps up is going `a` steps, then `b`.
pub proof fn lemma_anc_add(bs: Seq<StackBranch>, y: Seq<char>, a: nat, b: nat)
    ensures
        anc(bs, y, a + b) == match anc(bs, y, a) {
            Some(z) => anc(bs, z, b),
            None => None,
        },
    decreases a,
{
    if a > 0 {
        match parent_of(bs, y) {
            Some(q) => {
                lemma_anc_add(bs, q, (a - 1) as nat, b);
                assert((a + b - 1) as nat == (a - 1) as nat + b);
            },
            None => {},
        }
    }
}

/// Parents in the moved stack.
pub proof fn lemma_reparented_parent(bs: Seq<StackBranch>, bs2: Seq<StackBranch>, t: Seq<char>, p: Seq<char>, x: Seq<char>)
    requires
        names_unique(bs),
        reparented(bs, bs2, t, p),
    ensures
        has_name(bs2, x) == has_name(bs, x),
        names_unique(bs2),
        parent_of(bs2, x) == if x == t && has_name(bs, t) { Some(p) } else { parent_of(bs, x) },
{
    assert(names_unique(bs2)) by {
        assert forall|i: int, j: int| 0 <= i < bs2.len() && 0 <= j < bs2.len() && i != j implies #[trigger] bs2[i].name@ != #[trigger] bs2[j].name@ by {
            assert(bs2[i].name@ == bs[i].name@);
            assert(bs2[j].name@ == bs[j].name@);
        }
    }
    if has_name(bs, x) {
        let i = choose|i: int| 0 <= i < bs.len() && #[trigger] bs[i].name@ == x;
        assert(bs2[i].name@ == x);
        lemma_idx_of_unique(bs, i);
        lemma_idx_of_unique(bs2, i);
    }
    if has_name(bs2, x) {
        let i = choose|i: int| 0 <= i < bs2.len() && #[trigger] bs2[i].name@ == x;
        assert(bs[i].name@ == x);
    }
}

/// Walks that avoid `t` are the same in both stacks.
pub proof fn lemma_reparented_walk(bs: Seq<StackBranch>, bs2: Seq<StackBranch>, t: Seq<char>, p: Seq<char>, y: Seq<char>, m: nat)
    requires
        names_unique(bs),
        reparented(bs, bs2, t, p),
        forall|j: nat| j < m ==> #[trigger] anc(bs2, y, j) != Some(t),
    ensures
        anc(bs2, y, m) == anc(bs, y, m),
    decreases m,
{
    if m > 0 {
        assert(anc(bs2, y, 0) != Some(t));
        lemma_reparented_parent(bs, bs2, t, p, y);
        match parent_of(bs, y) {
            Some(q) => {
                assert forall|j: nat| j < (m - 1) as nat implies #[trigger] anc(bs2, q, j) != Some(t) by {
                    lemma_anc_step(bs2, y, q, j);
                    assert(anc(bs2, y, j + 1) != Some(t));
                }
                lemma_reparented_walk(bs, bs2, t, p, q, (m - 1) as nat);
            },
            None => {},
        }
    }
}

/// The first step at which a walk reaches `t`, if it does within `m` steps.
pub proof fn lemma_first_hit(bs2: Seq<StackBranch>, y: Seq<char>, t: Seq<char>, m: nat) -> (i: nat)
    requires
        exists|j: nat| j < m && #[trigger] anc(bs2, y, j) == Some(t),
    ensures
        i < m,
        anc(bs2, y, i) == Some(t),
        forall|j: nat| j < i ==> #[trigger] anc(bs2, y, j) != Some(t),
    decreases m,
{
    if exists|j: nat| j < (m - 1) as nat && #[trigger] anc(bs2, y, j) == Some(t) {
        lemma_first_hit(bs2, y, t, (m - 1) as nat)
    } else {
        let j = choose|j: nat| j < m && #[trigger] anc(bs2, y, j) == Some(t);
        assert(j == (m - 1) as nat);
        j
    }
}


/// Whether a merged branch named `name` is recorded.
pub open spec fn has_merged(ms: Seq<MergedBranch>, name: Seq<char>) -> bool {
    exists|i: int| 0 <= i < ms.len() && #[trigger] ms[i].name@ == name
}

/// The first merged record named `name`, or -1.
pub open spec fn merged_idx(ms: Seq<MergedBranch>, name: Seq<char>) -> int {
    if has_merged(ms, name) {
        choose|i: int|
            0 <= i < ms.len() && ms[i].name@ == name && (forall|j: int|
                0 <= j < i ==> #[trigger] ms[j].name@ != name)
    } else {
        -1
    }
}

/// The first position of a merged record holding the name.
pub proof fn lemma_merged_idx_first(ms: Seq<MergedBranch>, i: int)
    requires
        0 <= i < ms.len(),
        forall|j: int| 0 <= j < i ==> #[trigger] ms[j].name@ != ms[i].name@,
    ensures
        merged_idx(ms, ms[i].name@) == i,
{
    let name = ms[i].name@;
    assert(has_merged(ms, name));
    let c = merged_idx(ms, name);
    if c > i {
        assert(ms[i].name@ == name);
    }
}

impl Stack {
    /// The stack is well formed: no two branches share a name.
    pub open spec fn wf(&self) -> bool {
        names_unique(self.branches@)
    }

    /// An empty stack.
    pub fn new() -> (s: Stack)
        ensures
            s.branches@.len() == 0,
            s.merged@.len() == 0,
            s.wf(),
    {
        Stack { branches: Vec::new(), merged: Vec::new() }
    }

    /// Whether the stack holds no branches.
    pub fn is_empty(&self) -> (r: bool)
        ensures
            r == (self.branches@.len() == 0),
    {
        self.branches.len() == 0
    }

    /// The position of the branch named `name`.
    pub fn find_index(&self, name: &String) -> (r: Option<usize>)
        ensures
            match r {
                Some(i) => i < self.branches@.len() && self.branches@[i as int].name@ == name@
                    && i == idx_of(self.branches@, name@),
                None => !has_name(self.branches@, name@),
            },
    {
        let n = self.branches.len();
        let mut i: usize = 0;
        while i < n
            invariant
                n == self.branches@.len(),
                i <= n,
                forall|j: int| 0 <= j < i ==> #[trigger] self.branches@[j].name@ != name@,
            decreases n - i,
        {
            if self.branches[i].name == *name {
                proof {
                    lemma_idx_of_first(self.branches@, i as int);
                }
                return Some(i);
            }
            i += 1;
        }
        None
    }

    /// Whether a branch named `name` is in the stack.
    pub fn contains(&self, name: &String) -> (r: bool)
        ensures
            r == has_name(self.branches@, name@),
    {
        self.find_index(name).is_some()
    }

    /// The parent of the branch named `name`, if it is in the stack and has
    /// one.
    pub fn parent_of(&self, name: &String) -> (r: Option<String>)
        ensures
            opt_str(r) == parent_of(self.branches@, name@),
    {
        match self.find_index(name) {
            Some(i) => clone_opt_string(&self.branches[i].parent),
            None => None,
        }
    }

    /// The names of all branches stacked, directly or not, on `root`, parents
    /// before their children. `root` itself is never among them.
    pub fn descendant_names(&self, root: &String) -> (res: Vec<String>)
        requires
            self.wf(),
        ensures
            names(res@).no_duplicates(),
            forall|d: Seq<char>|
                #![trigger names(res@).contains(d)]
                names(res@).contains(d) <==> (is_desc(self.branches@, d, root@) && d != root@),
            parents_first(self.branches@, res@, root@),
    {
        let ghost bs = self.branches@;
        let n = self.branches.len();
        let mut marked: Vec<bool> = Vec::new();
        while marked.len() < n
            invariant
                marked@.len() <= n,
                forall|i: int| 0 <= i < marked@.len() ==> !#[trigger] marked@[i],
            decreases n - marked@.len(),
        {
            marked.push(false);
        }
        let mut out: Vec<String> = Vec::new();
        let mut queue: Vec<String> = Vec::new();
        queue.push(root.clone());
        let ghost mut processed: Set<Seq<char>> = Set::empty();
        let ghost mut mset: Set<int> = Set::empty();
        proof {
            lemma_int_range(0, n as int);
            assert(names(queue@)[0] == root@);
            assert(names(out@) =~= Seq::<Seq<char>>::empty());
        }
        while queue.len() > 0
            invariant
                self.wf(),
                bs == self.branches@,
                n == bs.len(),
                marked@.len() == n,
                mset.finite(),
                mset.subset_of(set_int_range(0, n as int)),
                set_int_range(0, n as int).finite(),
                set_int_range(0, n as int).len() == n,
                forall|i: int| 0 <= i < n ==> (#[trigger] marked@[i] <==> mset.contains(i)),
                out@.len() == mset.len(),
                backed(bs, out@, marked@),
                names(out@).no_duplicates(),
                all_desc(bs, out@, root@),
                parents_first(bs, out@, root@),
                processed_known(processed, out@, root@),
                children_marked(bs, root@, processed, marked@),
                marked_pending(bs, marked@, processed, queue@),
                processed.contains(root@) || names(queue@).contains(root@),
                queue_known(queue@, out@, root@),
            decreases n - out@.len(), queue@.len(),
        {
            assert(out@.len() <= n) by {
                lemma_len_subset(mset, set_int_range(0, n as int));
            }
            let ghost queue_before = queue@;
            let parent = queue.pop().unwrap();
            proof {
                assert(queue_before == queue@.push(parent));
                lemma_names_push(queue@, parent);
                assert forall|x: Seq<char>| names(queue_before).contains(x) && x != parent@ implies #[trigger] names(queue@).contains(x) by {
                    let q = choose|q: int| 0 <= q < queue_before.len() && names(queue_before)[q] == x;
                    assert(q < queue@.len());
                    assert(names(queue@)[q] == x);
                }
                assert(queue_before[queue@.len() as int] == parent);
                processed = processed.insert(parent@);
                assert forall|q: int| #![trigger queue@[q]] 0 <= q < queue@.len() implies queue@[q]@ == root@ || names(out@).contains(queue@[q]@) by {
                    assert(queue@[q] == queue_before[q]);
                }
            }
            let ghost out0 = out@;
            let ghost qlen0 = queue@.len();
            let mut i: usize = 0;
            while i < n
                invariant
                    self.wf(),
                    bs == self.branches@,
                    n == bs.len(),
                    i <= n,
                    marked@.len() == n,
                    mset.finite(),
                    mset.subset_of(set_int_range(0, n as int)),
                    forall|j: int| 0 <= j < n ==> (#[trigger] marked@[j] <==> mset.contains(j)),
                    out@.len() == mset.len(),
                    out0.len() <= out@.len(),
                    queue@.len() + out0.len() == qlen0 + out@.len(),
                    forall|k: int| 0 <= k < out0.len() ==> #[trigger] out@[k] == out0[k],
                    backed(bs, out@, marked@),
                    names(out@).no_duplicates(),
                    all_desc(bs, out@, root@),
                    parents_first(bs, out@, root@),
                    processed.contains(parent@),
                    parent@ == root@ || names(out0).contains(parent@),
                    processed_known(processed, out@, root@),
                    forall|p: Seq<char>, j: int|
                        #![trigger processed.contains(p), bs[j]]
                        processed.contains(p) && p != parent@ && 0 <= j < bs.len()
                            && opt_str(bs[j].parent) == Some(p) && bs[j].name@ != root@ ==> marked@[j],
                    forall|j: int|
                        #![trigger bs[j]]
                        0 <= j < i && opt_str(bs[j].parent) == Some(parent@) && bs[j].name@ != root@
                            ==> marked@[j],
                    marked_pending(bs, marked@, processed, queue@),
                    processed.contains(root@) || names(queue@).contains(root@),
                    queue_known(queue@, out@, root@),
                decreases n - i,
            {
                let b = &self.branches[i];
                let is_child = match &b.parent {
                    Some(p) => *p == parent,
                    None => false,
                };
                if is_child && !marked[i] && b.name != *root {
                    let nm = b.name.clone();
                    proof {
                        lemma_idx_of_unique(bs, i as int);
                        // the new name is not yet in the output
                        if names(out@).contains(nm@) {
                            let k = choose|k: int| 0 <= k < out@.len() && names(out@)[k] == nm@;
                            assert(out@[k]@ == nm@);
                            let j = choose|j: int| 0 <= j < n && marked@[j] && #[trigger] bs[j].name@ == out@[k]@;
                            assert(j == i);
                        }
                        // the new name descends from root
                        if parent@ == root@ {
                            assert(anc(bs, parent@, 0) == Some(root@));
                            lemma_anc_step(bs, nm@, parent@, 0);
                            assert(reaches(bs, nm@, root@, 1));
                        } else {
                            let kk = choose|kk: int| 0 <= kk < out0.len() && names(out0)[kk] == parent@;
                            assert(out@[kk] == out0[kk]);
                            assert(is_desc(bs, out@[kk]@, root@));
                            let m = choose|m: nat| #[trigger] reaches(bs, parent@, root@, m);
                            lemma_anc_step(bs, nm@, parent@, m);
                            assert(reaches(bs, nm@, root@, m + 1));
                        }
                        lemma_backed_push(bs, out@, marked@, i as int, nm);
                        lemma_known_push(bs, marked@, processed, queue@, out@, root@, i as int, nm);
                        lemma_names_push(out@, nm);
                        lemma_names_push(queue@, nm);
                        let out2 = out@.push(nm);
                        assert forall|k: int| #![trigger out2[k]] 0 <= k < out2.len() implies
                            parent_of(bs, out2[k]@) == Some(root@) || exists|j: int|
                            0 <= j < k && parent_of(bs, out2[k]@) == Some(#[trigger] out2[j]@) by {
                            if k < out@.len() {
                                assert(out2[k] == out@[k]);
                                if parent_of(bs, out@[k]@) != Some(root@) {
                                    let j = choose|j: int| 0 <= j < k && parent_of(bs, out@[k]@) == Some(#[trigger] out@[j]@);
                                    assert(out2[j] == out@[j]);
                                }
                            } else if parent@ != root@ {
                                let kk = choose|kk: int| 0 <= kk < out0.len() && names(out0)[kk] == parent@;
                                assert(out2[kk] == out0[kk]);
                            }
                        }
                        assert forall|k: int| #![trigger out2[k]] 0 <= k < out2.len() implies is_desc(bs, out2[k]@, root@) && out2[k]@ != root@ by {
                            if k < out@.len() {
                                assert(out2[k] == out@[k]);
                            }
                        }
                        if !processed.contains(root@) {
                            let q = choose|q: int| 0 <= q < queue@.len() && names(queue@)[q] == root@;
                            assert(names(queue@.push(nm))[q] == root@);
                        }
                    }
                    marked.set(i, true);
                    out.push(nm);
                    queue.push(b.name.clone());
                    proof {
                        mset = mset.insert(i as int);
                    }
                }
                i += 1;
            }
            assert(out@.len() <= n) by {
                lemma_len_subset(mset, set_int_range(0, n as int));
            }
        }
        proof {
            assert forall|d: Seq<char>|
                #![trigger names(out@).contains(d)]
                names(out@).contains(d) <==> (is_desc(bs, d, root@) && d != root@) by {
                if names(out@).contains(d) {
                    let k = choose|k: int| 0 <= k < out@.len() && names(out@)[k] == d;
                    assert(out@[k]@ == d);
                }
                if is_desc(bs, d, root@) && d != root@ {
                    let k = choose|k: nat| #[trigger] reaches(bs, d, root@, k);
                    lemma_desc_marked(bs, root@, processed, marked@, d, k);
                    let i = idx_of(bs, d);
                    assert(bs[i].name@ == d);
                }
            }
        }
        out
    }

    /// The branches stacked directly on `name`, in stack order.
    pub fn children_of(&self, name: &String) -> (res: Vec<StackBranch>)
        ensures
            res@ == self.branches@.filter(is_child_of(name@)),
    {
        let n = self.branches.len();
        let mut res: Vec<StackBranch> = Vec::new();
        let mut i: usize = 0;
        while i < n
            invariant
                n == self.branches@.len(),
                i <= n,
                res@ == self.branches@.take(i as int).filter(is_child_of(name@)),
            decreases n - i,
        {
            proof {
                lemma_filter_take_step(self.branches@, is_child_of(name@), i as int);
            }
            let b = &self.branches[i];
            let child = match &b.parent {
                Some(p) => *p == *name,
                None => false,
            };
            if child {
                res.push(b.duplicate());
            }
            i += 1;
        }
        assert(self.branches@.take(n as int) =~= self.branches@);
        res
    }

    /// Sets the parent of the branch named `name`.
    pub fn reparent(&mut self, name: &String, new_parent: Option<String>) -> (r: Result<(), StackError>)
        ensures
            r is Ok <==> has_name(old(self).branches@, name@),
            r is Ok ==> final(self).branches@ == old(self).branches@.update(
                idx_of(old(self).branches@, name@),
                StackBranch {
                    name: old(self).branches@[idx_of(old(self).branches@, name@)].name,
                    parent: new_parent,
                    pr: old(self).branches@[idx_of(old(self).branches@, name@)].pr,
                },
            ),
            r is Ok && new_parent is Some && old(self).wf() ==> reparented(
                old(self).branches@,
                final(self).branches@,
                name@,
                new_parent->0@,
            ),
            r is Err ==> final(self).branches@ == old(self).branches@,
            final(self).merged@ == old(self).merged@,
            old(self).wf() ==> final(self).wf(),
    {
        match self.find_index(name) {
            Some(i) => {
                let b = StackBranch {
                    name: self.branches[i].name.clone(),
                    parent: new_parent,
                    pr: self.branches[i].pr,
                };
                self.branches.set(i, b);
                proof {
                    let bs = old(self).branches@;
                    let cs = self.branches@;
                    if old(self).wf() {
                        assert forall|x: int| 0 <= x < bs.len() && bs[x].name@ == name@ implies x == i by {}
                    }
                    assert forall|x: int, y: int| old(self).wf() && 0 <= x < cs.len() && 0 <= y < cs.len() && x != y implies #[trigger] cs[x].name@ != #[trigger] cs[y].name@ by {
                        assert(cs[x].name@ == bs[x].name@);
                        assert(cs[y].name@ == bs[y].name@);
                    }
                }
                Ok(())
            },
            None => Err(StackError::BranchNotFound(name.clone())),
        }
    }

    /// Removes every branch named `name`.
    pub fn remove_branch(&mut self, name: &String)
        ensures
            final(self).branches@ == old(self).branches@.filter(not_named(name@)),
            final(self).merged@ == old(self).merged@,
            old(self).wf() ==> final(self).wf(),
    {
        let ghost bs = self.branches@;
        let n = self.branches.len();
        let mut kept: Vec<StackBranch> = Vec::new();
        let mut i: usize = 0;
        while i < n
            invariant
                bs == self.branches@,
                n == bs.len(),
                i <= n,
                kept@ == bs.take(i as int).filter(not_named(name@)),
            decreases n - i,
        {
            proof {
                lemma_filter_take_step(bs, not_named(name@), i as int);
            }
            if self.branches[i].name != *name {
                kept.push(self.branches[i].duplicate());
            }
            i += 1;
        }
        assert(bs.take(n as int) =~= bs);
        self.branches = kept;
        proof {
            if old(self).wf() {
                lemma_filter_keeps_unique(bs, not_named(name@));
            }
        }
    }

    /// Adds a branch; a branch already in the stack under the same name is
    /// replaced in place.
    pub fn add_branch(&mut self, branch: StackBranch)
        ensures
            has_name(old(self).branches@, branch.name@) ==> final(self).branches@ == old(self).branches@.update(
                idx_of(old(self).branches@, branch.name@),
                branch,
            ),
            !has_name(old(self).branches@, branch.name@) ==> final(self).branches@ == old(self).branches@.push(branch),
            final(self).merged@ == old(self).merged@,
            old(self).wf() ==> final(self).wf(),
    {
        let ghost bs = self.branches@;
        match self.find_index(&branch.name) {
            Some(i) => {
                self.branches.set(i, branch);
                proof {
                    let cs = self.branches@;
                    assert forall|x: int, y: int| old(self).wf() && 0 <= x < cs.len() && 0 <= y < cs.len() && x != y implies #[trigger] cs[x].name@ != #[trigger] cs[y].name@ by {
                        assert(cs[x].name@ == bs[x].name@);
                        assert(cs[y].name@ == bs[y].name@);
                    }
                }
            },
            None => {
                let ghost b = branch;
                self.branches.push(branch);
                proof {
                    let cs = self.branches@;
                    assert forall|x: int, y: int| old(self).wf() && 0 <= x < cs.len() && 0 <= y < cs.len() && x != y implies #[trigger] cs[x].name@ != #[trigger] cs[y].name@ by {
                        if x < bs.len() && y < bs.len() {
                            assert(cs[x] == bs[x] && cs[y] == bs[y]);
                        } else if x < bs.len() {
                            assert(cs[x] == bs[x]);
                        } else {
                            assert(cs[y] == bs[y]);
                        }
                    }
                }
            },
        }
    }

    /// Whether moving `target` onto `new_parent` would make a branch its
    /// own ancestor: `new_parent` is `target` or stacked on it.
    pub fn would_create_cycle(&self, target: &String, new_parent: &String) -> (r: bool)
        requires
            self.wf(),
        ensures
            r == (new_parent@ == target@ || is_desc(self.branches@, new_parent@, target@)),
    {
        if *new_parent == *target {
            return true;
        }
        let desc = self.descendant_names(target);
        let n = desc.len();
        let mut i: usize = 0;
        while i < n
            invariant
                n == desc@.len(),
                i <= n,
                forall|j: int| 0 <= j < i ==> #[trigger] desc@[j]@ != new_parent@,
                forall|d: Seq<char>|
                    #![trigger names(desc@).contains(d)]
                    names(desc@).contains(d) <==> (is_desc(self.branches@, d, target@) && d != target@),
            decreases n - i,
        {
            if desc[i] == *new_parent {
                assert(names(desc@)[i as int] == new_parent@);
                assert(names(desc@).contains(new_parent@));
                return true;
            }
            i += 1;
        }
        proof {
            if names(desc@).contains(new_parent@) {
                let k = choose|k: int| 0 <= k < names(desc@).len() && names(desc@)[k] == new_parent@;
                assert(desc@[k]@ == new_parent@);
            }
        }
        false
    }
    /// The position of the merged record named `name`.
    pub fn find_merged(&self, name: &String) -> (r: Option<usize>)
        ensures
            match r {
                Some(i) => i < self.merged@.len() && self.merged@[i as int].name@ == name@
                    && i == merged_idx(self.merged@, name@),
                None => !has_merged(self.merged@, name@),
            },
    {
        let n = self.merged.len();
        let mut i: usize = 0;
        while i < n
            invariant
                n == self.merged@.len(),
                i <= n,
                forall|j: int| 0 <= j < i ==> #[trigger] self.merged@[j].name@ != name@,
            decreases n - i,
        {
            if self.merged[i].name == *name {
                proof {
                    lemma_merged_idx_first(self.merged@, i as int);
                }
                return Some(i);
            }
            i += 1;
        }
        None
    }

    /// Moves the branch named `name` from the active branches to the merged
    /// records. Nothing changes when no such branch is in the stack or it
    /// has no pull request; the record is returned otherwise.
    pub fn mark_merged(&mut self, name: &String) -> (r: Option<MergedBranch>)
        ensures
            ({
                let bs = old(self).branches@;
                let i = idx_of(bs, name@);
                r is Some <==> (has_name(bs, name@) && bs[i].pr is Some)
            }),
            r is Some ==> ({
                let bs = old(self).branches@;
                let i = idx_of(bs, name@);
                &&& final(self).branches@ == bs.remove(i)
                &&& final(self).merged@ == old(self).merged@.push(r->0)
                &&& r->0.name@ == name@
                &&& opt_str(r->0.parent) == opt_str(bs[i].parent)
                &&& Some(r->0.pr) == bs[i].pr
            }),
            r is None ==> final(self).branches@ == old(self).branches@ && final(self).merged@
                == old(self).merged@,
            old(self).wf() ==> final(self).wf(),
    {
        let ghost bs = self.branches@;
        match self.find_index(name) {
            Some(i) => {
                match self.branches[i].pr {
                    Some(pr) => {
                        let b = self.branches.remove(i);
                        let m = MergedBranch { name: b.name, parent: b.parent, pr };
                        let ghost mm = m;
                        let out = MergedBranch { name: m.name.clone(), parent: clone_opt_string(&m.parent), pr };
                        self.merged.push(m);
                        proof {
                            let cs = self.branches@;
                            assert forall|x: int, y: int| old(self).wf() && 0 <= x < cs.len() && 0 <= y < cs.len() && x != y implies #[trigger] cs[x].name@ != #[trigger] cs[y].name@ by {
                                let x0 = if x < i { x } else { x + 1 };
                                let y0 = if y < i { y } else { y + 1 };
                                assert(cs[x] == bs[x0]);
                                assert(cs[y] == bs[y0]);
                            }
                        }
                        Some(out)
                    },
                    None => None,
                }
            },
            None => None,
        }
    }

    /// Forgets the merged records once no active branch is left.
    pub fn clear_merged_if_empty(&mut self)
        ensures
            final(self).branches@ == old(self).branches@,
            old(self).branches@.len() == 0 ==> final(self).merged@.len() == 0,
            old(self).branches@.len() > 0 ==> final(self).merged@ == old(self).merged@,
    {
        if self.branches.len() == 0 {
            self.merged = Vec::new();
        }
    }

    /// The number of stack branches on the path from `name` up to the base,
    /// `name` included: 1 for a branch stacked on the base branch, 0 for a
    /// name that is not in the stack.
    pub fn depth(&self, name: &String) -> (d: usize)
        ensures
            d == depth(self.branches@, name@, self.branches@.len() as nat),
    {
        let ghost bs = self.branches@;
        let n = self.branches.len();
        let mut d: usize = 0;
        let mut cur = name.clone();
        while d < n
            invariant
                bs == self.branches@,
                n == bs.len(),
                d <= n,
                depth(bs, name@, n as nat) == d + depth(bs, cur@, (n - d) as nat),
            decreases n - d,
        {
            match self.find_index(&cur) {
                None => {
                    return d;
                },
                Some(i) => {
                    let next = clone_opt_string(&self.branches[i].parent);
                    d += 1;
                    match next {
                        Some(p) => {
                            cur = p;
                        },
                        None => {
                            return d;
                        },
                    }
                },
            }
        }
        d
    }

}


/// Moving a branch onto a parent that is neither the branch itself nor one
/// of its descendants never makes a branch its own ancestor: a stack
/// without cycles stays without cycles after a restack.
pub proof fn restack_keeps_stack_acyclic(before: Stack, after: Stack, target: Seq<char>, new_parent: Seq<char>)
    requires
        before.wf(),
        acyclic(before.branches@),
        reparented(before.branches@, after.branches@, target, new_parent),
        !(new_parent == target || is_desc(before.branches@, new_parent, target)),
    ensures
        acyclic(after.branches@),
        after.wf(),
{
    let bs = before.branches@;
    let bs2 = after.branches@;
    let t = target;
    let p = new_parent;
    lemma_reparented_parent(bs, bs2, t, p, t);
    // From the new parent, the walk never comes back to the moved branch.
    assert forall|j: nat| #[trigger] anc(bs2, p, j) != Some(t) by {
        if anc(bs2, p, j) == Some(t) {
            assert(exists|jj: nat| jj < j + 1 && #[trigger] anc(bs2, p, jj) == Some(t));
            let i = lemma_first_hit(bs2, p, t, j + 1);
            lemma_reparented_walk(bs, bs2, t, p, p, i);
            if i == 0 {
                assert(anc(bs2, p, 0) == Some(p));
            } else {
                assert(reaches(bs, p, t, i));
                assert(has_name(bs, p)) by {
                    lemma_reaches_parent(bs, p, t, i);
                }
            }
        }
    }
    assert forall|x: Seq<char>, k: nat| !#[trigger] reaches(bs2, x, x, k) by {
        if reaches(bs2, x, x, k) {
            if exists|j: nat| j < k && #[trigger] anc(bs2, x, j) == Some(t) {
                let i = lemma_first_hit(bs2, x, t, k);
                lemma_reparented_walk(bs, bs2, t, p, x, i);
                // after reaching t, one step to p, then the old walk
                lemma_anc_add(bs2, x, i, (k - i) as nat);
                assert(anc(bs2, t, (k - i) as nat) == Some(x));
                lemma_anc_step(bs2, t, p, (k - i - 1) as nat);
                assert(anc(bs2, p, (k - i - 1) as nat) == Some(x));
                assert forall|j: nat| j < (k - i - 1) as nat implies #[trigger] anc(bs2, p, j) != Some(t) by {}
                lemma_reparented_walk(bs, bs2, t, p, p, (k - i - 1) as nat);
                lemma_anc_add(bs, p, (k - i - 1) as nat, i);
                assert(anc(bs, p, (k - 1) as nat) == Some(t));
                if k == 1 {
                    assert(i == 0);
                    assert(x == t);
                    assert(anc(bs2, t, 1) == Some(p));
                } else {
                    assert(reaches(bs, p, t, (k - 1) as nat));
                    lemma_reaches_parent(bs, p, t, (k - 1) as nat);
                    assert(is_desc(bs, p, t));
                }
            } else {
                lemma_reparented_walk(bs, bs2, t, p, x, k);
                assert(reaches(bs, x, x, k));
            }
        }
    }
}

} // verus!
