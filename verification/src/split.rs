//! Splitting: dividing a branch into a chain of branches, one per group of
//! commits.

use vstd::prelude::*;
use crate::stack::{Stack, StackBranch, StackError, has_name, idx_of, clone_opt_string};
use crate::text::{
    push_str, push_string, push_all, string_from_chars, str_to_lowercase, lower_of, is_alnum, is_ws,
    words, words_state, lemma_words_step, join, join_chars, decimal, decimal_usize, take_chars,
    char_is_alphanumeric, char_is_whitespace, chars_of, lemma_words_empty, lemma_words_nonempty, lemma_join_len,
    all_ascii, ascii_lower, lemma_join_chars, is_ascii_char, chars_all,
};

verus! {

/// A commit that can start a new branch.
#[derive(Debug, Clone)]
pub struct CommitInfo {
    pub oid: String,
    /// The first eight characters of the hash.
    pub short_sha: String,
    /// The first line of the message.
    pub summary: String,
}

/// Where a new branch starts: the commit it points to, that commit's
/// summary, and the branch's name.
#[derive(Debug, Clone)]
pub struct SplitPoint {
    pub commit_sha: String,
    pub message: String,
    pub branch_name: String,
}

/// What to split.
#[derive(Debug, Clone)]
pub struct SplitConfig {
    pub source_branch: String,
    pub parent_branch: String,
    pub split_points: Vec<SplitPoint>,
}

/// The commits of a branch that a split can divide, oldest first.
#[derive(Debug, Clone)]
pub struct SplitAnalysis {
    pub source_branch: String,
    pub parent_branch: String,
    pub commits: Vec<CommitInfo>,
}

/// The outcome of a split.
#[derive(Debug, Clone)]
pub struct SplitResult {
    pub source_branch: String,
    pub branches_created: Vec<String>,
}

/// The parent of the branch to split; a branch outside the stack or without
/// a parent cannot be split.
pub fn split_parent(stack: &Stack, branch: &String) -> (r: Result<String, String>)
    ensures
        r is Ok <==> (has_name(stack.branches@, branch@) && stack.branches@[idx_of(stack.branches@, branch@)].parent is Some),
        r matches Ok(p) ==> Some(p) == stack.branches@[idx_of(stack.branches@, branch@)].parent,
        r matches Err(m) ==> m@ == (if has_name(stack.branches@, branch@) {
            "Cannot split a root branch (no parent)"@
        } else {
            "Branch '"@ + branch@ + "' not found in stack"@
        }),
{
    match stack.find_index(branch) {
        None => {
            let mut m: Vec<char> = Vec::new();
            push_str(&mut m, "Branch '");
            push_string(&mut m, branch);
            push_str(&mut m, "' not found in stack");
            Err(string_from_chars(&m))
        },
        Some(i) => match &stack.branches[i].parent {
            Some(p) => Ok(p.clone()),
            None => Err(String::from_str("Cannot split a root branch (no parent)")),
        },
    }
}

/// A commit as offered for splitting: its hash, the hash's first eight
/// characters, and the first line of its message ("(no message)" when it
/// has none).
pub fn commit_info(sha: String, summary: Option<String>) -> (c: CommitInfo)
    ensures
        c.oid == sha,
        c.short_sha@ == (if sha@.len() <= 8 { sha@ } else { sha@.take(8) }),
        c.summary@ == (match summary {
            Some(s) => s@,
            None => "(no message)"@,
        }),
{
    let short_sha = take_chars(sha.as_str(), 8);
    let summary = match summary {
        Some(s) => s,
        None => String::from_str("(no message)"),
    };
    CommitInfo { oid: sha, short_sha, summary }
}

/// The analysis of a branch: the commits come newest first from the
/// repository and are offered oldest first.
pub fn split_analysis(source: &String, parent: String, newest_first: Vec<CommitInfo>) -> (a: SplitAnalysis)
    ensures
        a.source_branch == *source,
        a.parent_branch == parent,
        a.commits@ == newest_first@.reverse(),
{
    let mut rest = newest_first;
    let ghost all = rest@;
    let mut commits: Vec<CommitInfo> = Vec::new();
    while rest.len() > 0
        invariant
            all == rest@ + commits@.reverse(),
        decreases rest@.len(),
    {
        let ghost r0 = rest@;
        let c = rest.pop().unwrap();
        proof {
            assert(commits@.push(c).reverse() =~= seq![c] + commits@.reverse());
            assert(r0 =~= rest@.push(c));
        }
        commits.push(c);
        proof {
            assert(all =~= rest@ + commits@.reverse());
        }
    }
    proof {
        assert(all =~= commits@.reverse());
        assert(all.reverse() =~= commits@);
    }
    SplitAnalysis { source_branch: source.clone(), parent_branch: parent, commits }
}

/// Whether a branch can be split: it needs at least two commits. Even then
/// the split itself is refused, as its interactive part is not written yet.
pub fn check_splittable(analysis: &SplitAnalysis, branch: &String) -> (r: Result<(), String>)
    ensures
        r is Err,
        r matches Err(m) ==> m@ == (if analysis.commits@.len() == 0 {
            "No commits to split - branch is already at parent"@
        } else if analysis.commits@.len() == 1 {
            "Only one commit on branch - nothing to split"@
        } else {
            "Split not yet implemented for branch '"@ + branch@ + "' ("@ + decimal(analysis.commits@.len() as nat)
                + " commits)"@
        }),
{
    let n = analysis.commits.len();
    if n == 0 {
        return Err(String::from_str("No commits to split - branch is already at parent"));
    }
    if n == 1 {
        return Err(String::from_str("Only one commit on branch - nothing to split"));
    }
    let mut m: Vec<char> = Vec::new();
    push_str(&mut m, "Split not yet implemented for branch '");
    push_string(&mut m, branch);
    push_str(&mut m, "' (");
    let d = decimal_usize(n);
    push_all(&mut m, &d);
    push_str(&mut m, " commits)");
    Err(string_from_chars(&m))
}

/// Refuses to start a split while another operation is half done.
pub fn check_split_blockers(split: bool, sync: bool, restack: bool) -> (r: Result<(), String>)
    ensures
        r is Ok <==> !split && !sync && !restack,
        r matches Err(m) ==> m@ == (if split {
            "A split is already in progress.\nUse --continue to resume or --abort to cancel."@
        } else if sync {
            "A sync is in progress. Complete or abort it first."@
        } else {
            "A restack is in progress. Complete or abort it first."@
        }),
{
    if split {
        Err(String::from_str("A split is already in progress.\nUse --continue to resume or --abort to cancel."))
    } else if sync {
        Err(String::from_str("A sync is in progress. Complete or abort it first."))
    } else if restack {
        Err(String::from_str("A restack is in progress. Complete or abort it first."))
    } else {
        Ok(())
    }
}

/// The lines that show what a split would do.
pub fn split_dry_run_lines(analysis: &SplitAnalysis, branch: &String) -> (r: Vec<String>)
    ensures
        r@.len() == analysis.commits@.len() + 2,
        r@[0]@ == "Would split '"@ + branch@ + "' ("@ + decimal(analysis.commits@.len() as nat)
            + " commits) into multiple branches"@,
        r@[1]@ == "Commits:"@,
        forall|i: int| 0 <= i < analysis.commits@.len() ==> (#[trigger] r@[i + 2])@ == "  "@
            + analysis.commits@[i].short_sha@ + " "@ + analysis.commits@[i].summary@,
{
    let mut r: Vec<String> = Vec::new();
    let mut m: Vec<char> = Vec::new();
    push_str(&mut m, "Would split '");
    push_string(&mut m, branch);
    push_str(&mut m, "' (");
    let d = decimal_usize(analysis.commits.len());
    push_all(&mut m, &d);
    push_str(&mut m, " commits) into multiple branches");
    r.push(string_from_chars(&m));
    r.push(String::from_str("Commits:"));
    let mut i: usize = 0;
    while i < analysis.commits.len()
        invariant
            i <= analysis.commits@.len(),
            r@.len() == i + 2,
            r@[0]@ == "Would split '"@ + branch@ + "' ("@ + decimal(analysis.commits@.len() as nat)
                + " commits) into multiple branches"@,
            r@[1]@ == "Commits:"@,
            forall|j: int| 0 <= j < i ==> (#[trigger] r@[j + 2])@ == "  "@ + analysis.commits@[j].short_sha@
                + " "@ + analysis.commits@[j].summary@,
        decreases analysis.commits@.len() - i,
    {
        let c = &analysis.commits[i];
        let mut l: Vec<char> = Vec::new();
        push_str(&mut l, "  ");
        push_string(&mut l, &c.short_sha);
        push_str(&mut l, " ");
        push_string(&mut l, &c.summary);
        r.push(string_from_chars(&l));
        i += 1;
    }
    r
}

/// A character of a summary as it counts for a branch name: letters,
/// digits and spaces stay, anything else becomes a space.
pub open spec fn clean_char(c: char) -> char {
    if is_alnum(c) || c == ' ' {
        c
    } else {
        ' '
    }
}

/// The maximal runs of alphanumeric characters of `s`, in order.
pub open spec fn alnum_runs(s: Seq<char>) -> Seq<Seq<char>>
    decreases s.len(),
{
    if s.len() == 0 {
        seq![]
    } else {
        let init = s.drop_last();
        let w = alnum_runs(init);
        if !is_alnum(s.last()) {
            w
        } else if init.len() > 0 && is_alnum(init.last()) {
            w.update(w.len() - 1, w.last().push(s.last()))
        } else {
            w.push(seq![s.last()])
        }
    }
}

/// At most the first four of the runs.
pub open spec fn first_four(w: Seq<Seq<char>>) -> Seq<Seq<char>> {
    if w.len() <= 4 {
        w
    } else {
        w.take(4)
    }
}

/// When no alphanumeric character is whitespace, the words of the cleaned
/// text are the alphanumeric runs of the text.
proof fn lemma_clean_words(s: Seq<char>)
    requires
        forall|i: int| 0 <= i < s.len() ==> (is_alnum(#[trigger] s[i]) ==> !is_ws(s[i])),
    ensures
        words(s.map_values(|c: char| clean_char(c))) == alnum_runs(s),
    decreases s.len(),
{
    if s.len() > 0 {
        let init = s.drop_last();
        let cl = s.map_values(|c: char| clean_char(c));
        assert(cl.drop_last() =~= init.map_values(|c: char| clean_char(c)));
        assert forall|i: int| 0 <= i < init.len() implies (is_alnum(#[trigger] init[i]) ==> !is_ws(init[i])) by {
            assert(init[i] == s[i]);
        }
        lemma_clean_words(init);
        assert(is_ws(' '));
        assert(cl.last() == clean_char(s.last()));
        assert(is_alnum(s[s.len() - 1]) ==> !is_ws(s[s.len() - 1]));
        if init.len() > 0 {
            assert(cl.drop_last().last() == clean_char(init.last()));
            assert(is_alnum(s[init.len() - 1]) ==> !is_ws(s[init.len() - 1]));
            assert(init.last() == s[init.len() - 1]);
        }
    }
}

/// The first four words of the cleaned summary.
pub open spec fn name_words(summary: Seq<char>) -> Seq<Seq<char>> {
    let w = words(summary.map_values(|c: char| clean_char(c)));
    if w.len() <= 4 {
        w
    } else {
        w.take(4)
    }
}

/// The words of the summary joined by dashes, before lowercasing.
pub open spec fn joined_name(summary: Seq<char>) -> Seq<char> {
    join(name_words(summary), "-"@)
}

/// The name used when the summary gives none: the prefix, "-part-" and the
/// position counted from one.
pub open spec fn fallback_name(prefix: Seq<char>, index: nat) -> Seq<char> {
    prefix + "-part-"@ + decimal(index + 1)
}

/// The suggested name from the lowercased words: the words, unless there
/// were none.
pub fn suggestion_from_lowercase(lower: String, fallback_prefix: &str, index: usize) -> (r: String)
    requires
        index < usize::MAX,
    ensures
        r@ == (if lower@.len() == 0 { fallback_name(fallback_prefix@, index as nat) } else { lower@ }),
{
    if lower.as_str().is_empty() {
        let mut m: Vec<char> = Vec::new();
        push_str(&mut m, fallback_prefix);
        push_str(&mut m, "-part-");
        let d = decimal_usize(index + 1);
        push_all(&mut m, &d);
        string_from_chars(&m)
    } else {
        lower
    }
}

/// A branch name suggested by a commit summary: its first four words, made
/// of letters and digits, in lowercase and joined by dashes; when it has no
/// such word (no letter or digit at all), the fallback prefix numbered by
/// `index` (from one).
pub fn suggest_branch_name(summary: &str, fallback_prefix: &str, index: usize) -> (r: String)
    requires
        index < usize::MAX,
    ensures
        name_words(summary@) == first_four(alnum_runs(summary@)),
        name_words(summary@).len() == 0 <==> forall|i: int| 0 <= i < summary@.len() ==> !is_alnum(#[trigger] summary@[i]),
        r@ == (if name_words(summary@).len() == 0 {
            fallback_name(fallback_prefix@, index as nat)
        } else {
            lower_of(joined_name(summary@))
        }),
        all_ascii(summary@) ==> r@ == (if name_words(summary@).len() == 0 {
            fallback_name(fallback_prefix@, index as nat)
        } else {
            joined_name(summary@).map_values(|c: char| ascii_lower(c))
        }),
{
    let s = chars_of(summary);
    let ghost cl = summary@.map_values(|c: char| clean_char(c));
    let n = s.len();
    let mut ws: Vec<Vec<char>> = Vec::new();
    let mut cur: Vec<char> = Vec::new();
    let ghost mut done: Seq<Seq<char>> = seq![];
    let mut j: usize = 0;
    assert(words(cl.take(0)) =~= Seq::<Seq<char>>::empty());
    while j < n
        invariant
            n == s@.len(),
            s@ == summary@,
            cl == summary@.map_values(|c: char| clean_char(c)),
            cl.len() == n,
            j <= n,
            words_state(cl.take(j as int), done, cur@),
            done =~= ws@.map_values(|l: Vec<char>| l@),
            forall|k: int| 0 <= k < j ==> (is_alnum(#[trigger] summary@[k]) ==> !is_ws(summary@[k])),
            all_ascii(summary@) ==> all_ascii(cur@) && forall|k: int| 0 <= k < ws@.len() ==> all_ascii(#[trigger] ws@[k]@),
        decreases n - j,
    {
        let c0 = s[j];
        let alnum = char_is_alphanumeric(c0);
        let keep = alnum || c0 == ' ';
        let c = if keep { c0 } else { ' ' };
        assert(c == cl[j as int]);
        proof {
            lemma_words_step(cl, j as int, done, cur@);
        }
        if char_is_whitespace(c) {
            if cur.len() > 0 {
                proof {
                    done = done.push(cur@);
                }
                ws.push(cur);
                cur = Vec::new();
                proof {
                    assert(done =~= ws@.map_values(|l: Vec<char>| l@));
                }
            }
        } else {
            cur.push(c);
        }
        j += 1;
    }
    assert(cl.take(n as int) =~= cl);
    proof {
        lemma_clean_words(summary@);
        lemma_words_empty(cl);
        assert forall|i: int| 0 <= i < n implies (is_ws(#[trigger] cl[i]) <==> !is_alnum(summary@[i])) by {
            assert(cl[i] == clean_char(summary@[i]));
            assert(is_ws(' '));
        }
        if words(cl).len() == 0 {
            assert forall|i: int| 0 <= i < summary@.len() implies !is_alnum(#[trigger] summary@[i]) by {
                assert(is_ws(cl[i]));
            }
        }
        if forall|i: int| 0 <= i < summary@.len() ==> !is_alnum(#[trigger] summary@[i]) {
            assert forall|i: int| 0 <= i < cl.len() implies is_ws(#[trigger] cl[i]) by {
                assert(!is_alnum(summary@[i]));
            }
        }
        lemma_words_nonempty(cl);
    }
    if cur.len() > 0 {
        proof {
            done = done.push(cur@);
        }
        ws.push(cur);
        proof {
            assert(done =~= ws@.map_values(|l: Vec<char>| l@));
        }
    }
    assert(done == words(cl));
    let mut first: Vec<Vec<char>> = Vec::new();
    let mut k: usize = 0;
    while k < ws.len() && k < 4
        invariant
            k <= ws@.len(),
            k <= 4,
            first@.len() == k,
            forall|i: int| 0 <= i < k ==> (#[trigger] first@[i])@ == ws@[i]@,
            all_ascii(summary@) ==> forall|i: int| 0 <= i < ws@.len() ==> all_ascii(#[trigger] ws@[i]@),
        decreases 4 - k,
    {
        let mut w: Vec<char> = Vec::new();
        push_all(&mut w, &ws[k]);
        assert(w@ =~= ws@[k as int]@);
        first.push(w);
        k += 1;
    }
    proof {
        assert(first@.map_values(|l: Vec<char>| l@) =~= done.take(k as int));
        if done.len() <= 4 {
            assert(done.take(k as int) =~= done);
        }
        assert(first@.map_values(|l: Vec<char>| l@) =~= name_words(summary@));
    }
    proof {
        if all_ascii(summary@) {
            let fw = first@.map_values(|l: Vec<char>| l@);
            assert forall|i: int| 0 <= i < fw.len() implies all_ascii(#[trigger] fw[i]) by {
                assert(fw[i] == ws@[i]@);
            }
            assert(all_ascii("-"@)) by {
                reveal_strlit("-");
            }
            let q = |c: char| is_ascii_char(c);
            assert forall|i: int| 0 <= i < fw.len() implies chars_all(#[trigger] fw[i], q) by {
                assert(all_ascii(fw[i]));
            }
            lemma_join_chars(fw, "-"@, q);
            assert(chars_all(join(fw, "-"@), q));
        }
    }
    let joined = join_chars(&first, "-");
    let joined_s = string_from_chars(&joined);
    let lower = str_to_lowercase(joined_s.as_str());
    proof {
        let nw = name_words(summary@);
        assert(joined_s@ == joined_name(summary@));
        if nw.len() > 0 {
            assert(nw.last() == words(cl)[nw.len() - 1]);
            lemma_join_len(nw, "-"@);
        }
    }
    suggestion_from_lowercase(lower, fallback_prefix, index)
}

/// A stack branch stacked on `parent`.
pub open spec fn split_branch(name: String, parent: String) -> StackBranch {
    StackBranch { name, parent: Some(parent), pr: None }
}

/// Adding a branch: it replaces one of the same name, or comes last.
pub open spec fn upsert(bs: Seq<StackBranch>, b: StackBranch) -> Seq<StackBranch> {
    if has_name(bs, b.name@) {
        bs.update(idx_of(bs, b.name@), b)
    } else {
        bs.push(b)
    }
}

/// The stack after adding the first `k` split points, each on the previous
/// one and the first on `parent`.
pub open spec fn split_added(bs: Seq<StackBranch>, points: Seq<SplitPoint>, parent: String, k: nat) -> Seq<StackBranch>
    decreases k,
{
    if k == 0 {
        bs
    } else {
        let prev_parent = if k == 1 { parent } else { points[k - 2].branch_name };
        upsert(split_added(bs, points, parent, (k - 1) as nat), split_branch(points[k - 1].branch_name, prev_parent))
    }
}

/// Records a split in the stack: each new branch is stacked on the previous
/// one (the first on the parent), and the source branch moves onto the
/// last new branch. Returns the names of the new branches.
pub fn apply_split_to_stack(stack: &mut Stack, config: &SplitConfig) -> (r: Result<Vec<String>, StackError>)
    requires
        old(stack).wf(),
    ensures
        ({
            let pts = config.split_points@;
            let added = split_added(old(stack).branches@, pts, config.parent_branch, pts.len());
            &&& pts.len() == 0 ==> r is Ok && final(stack).branches@ == old(stack).branches@
            &&& pts.len() > 0 ==> (r is Ok <==> has_name(added, config.source_branch@))
            &&& pts.len() > 0 && r is Ok ==> final(stack).branches@ == added.update(
                idx_of(added, config.source_branch@),
                StackBranch {
                    name: added[idx_of(added, config.source_branch@)].name,
                    parent: Some(pts.last().branch_name),
                    pr: added[idx_of(added, config.source_branch@)].pr,
                },
            )
            &&& pts.len() > 0 && r is Err ==> final(stack).branches@ == added
            &&& r matches Ok(v) ==> v@.len() == pts.len() && forall|i: int| 0 <= i < pts.len() ==> #[trigger] v@[i]
                == pts[i].branch_name
        }),
        final(stack).merged@ == old(stack).merged@,
        final(stack).wf(),
{
    let ghost bs = stack.branches@;
    let n = config.split_points.len();
    let mut created: Vec<String> = Vec::new();
    let mut previous = config.parent_branch.clone();
    let mut i: usize = 0;
    while i < n
        invariant
            n == config.split_points@.len(),
            i <= n,
            stack.wf(),
            stack.merged@ == old(stack).merged@,
            bs == old(stack).branches@,
            stack.branches@ == split_added(bs, config.split_points@, config.parent_branch, i as nat),
            previous == (if i == 0 { config.parent_branch } else { config.split_points@[i - 1].branch_name }),
            created@.len() == i,
            forall|j: int| 0 <= j < i ==> #[trigger] created@[j] == config.split_points@[j].branch_name,
        decreases n - i,
    {
        let p = &config.split_points[i];
        let b = StackBranch { name: p.branch_name.clone(), parent: Some(previous.clone()), pr: None };
        stack.add_branch(b);
        created.push(p.branch_name.clone());
        previous = p.branch_name.clone();
        i += 1;
    }
    if n > 0 {
        match stack.reparent(&config.source_branch, Some(previous)) {
            Err(e) => {
                return Err(e);
            },
            Ok(()) => {},
        }
    }
    Ok(created)
}

/// The options of the split command.
#[derive(Debug, Clone)]
pub struct SplitOptions {
    pub dry_run: bool,
    pub continue_: bool,
    pub abort: bool,
    pub json: bool,
    /// The branch to split; the current one when not given.
    pub branch: Option<String>,
}

/// The branch to split: the one given, else the current one.
pub fn split_target(opts: &SplitOptions, current: &String) -> (r: String)
    ensures
        r == (match opts.branch {
            Some(b) => b,
            None => *current,
        }),
{
    match &opts.branch {
        Some(b) => b.clone(),
        None => current.clone(),
    }
}

/// Refuses to abort when no split is in progress.
pub fn require_split_in_progress(in_progress: bool) -> (r: Result<(), String>)
    ensures
        r is Ok <==> in_progress,
        r matches Err(m) ==> m@ == "No split in progress"@,
{
    if in_progress {
        Ok(())
    } else {
        Err(String::from_str("No split in progress"))
    }
}

} // verus!
