//! Absorbing staged changes into the commits of the stack: how the plan is
//! reported, grouped by target commit, and what the command decides.

use vstd::prelude::*;
use crate::stack::{names, contains_name, lemma_filter_take_step, lemma_filter_sub};
use crate::sync::short_id;
use crate::output::MessageKind;
use crate::text::{chars_of, push_str, push_string, push_all, string_from_chars, take_chars, decimal, decimal_usize};

verus! {

/// The order of strings by their characters: the first differing
/// character decides, and a proper prefix comes first.
pub open spec fn lex_lt(a: Seq<char>, b: Seq<char>) -> bool
    decreases a.len(),
{
    if b.len() == 0 {
        false
    } else if a.len() == 0 {
        true
    } else if a[0] != b[0] {
        a[0] < b[0]
    } else {
        lex_lt(a.drop_first(), b.drop_first())
    }
}

/// No string comes before itself.
pub proof fn lemma_lex_irreflexive(a: Seq<char>)
    ensures
        !lex_lt(a, a),
    decreases a.len(),
{
    if a.len() > 0 {
        lemma_lex_irreflexive(a.drop_first());
    }
}

/// Of two different strings, one comes before the other.
pub proof fn lemma_lex_total(a: Seq<char>, b: Seq<char>)
    requires
        a != b,
    ensures
        lex_lt(a, b) || lex_lt(b, a),
    decreases a.len(),
{
    if a.len() > 0 && b.len() > 0 && a[0] == b[0] {
        if a.drop_first() == b.drop_first() {
            assert(a =~= seq![a[0]] + a.drop_first());
            assert(b =~= seq![b[0]] + b.drop_first());
        }
        lemma_lex_total(a.drop_first(), b.drop_first());
    } else if a.len() == 0 && b.len() == 0 {
        assert(a =~= b);
    }
}

/// The order is transitive.
pub proof fn lemma_lex_trans(a: Seq<char>, b: Seq<char>, c: Seq<char>)
    requires
        lex_lt(a, b),
        lex_lt(b, c),
    ensures
        lex_lt(a, c),
    decreases a.len(),
{
    if a.len() > 0 && b.len() > 0 && c.len() > 0 && a[0] == b[0] && b[0] == c[0] {
        lemma_lex_trans(a.drop_first(), b.drop_first(), c.drop_first());
    }
}

/// The order is asymmetric.
pub proof fn lemma_lex_asym(a: Seq<char>, b: Seq<char>)
    requires
        lex_lt(a, b),
    ensures
        !lex_lt(b, a),
{
    if lex_lt(b, a) {
        lemma_lex_trans(a, b, a);
        lemma_lex_irreflexive(a);
    }
}

/// Whether `a` comes before `b`.
pub fn lex_less(a: &String, b: &String) -> (r: bool)
    ensures
        r == lex_lt(a@, b@),
{
    let x = chars_of(a.as_str());
    let y = chars_of(b.as_str());
    let mut i: usize = 0;
    assert(a@.skip(0) =~= a@ && b@.skip(0) =~= b@);
    while i < x.len() && i < y.len()
        invariant
            x@ == a@,
            y@ == b@,
            i <= x@.len(),
            i <= y@.len(),
            lex_lt(a@, b@) == lex_lt(a@.skip(i as int), b@.skip(i as int)),
        decreases x@.len() - i,
    {
        if x[i] != y[i] {
            return x[i] < y[i];
        }
        proof {
            assert(a@.skip(i as int).drop_first() =~= a@.skip(i + 1));
            assert(b@.skip(i as int).drop_first() =~= b@.skip(i + 1));
        }
        i += 1;
    }
    i < y.len()
}

/// Keys in strictly increasing order.
pub open spec fn sorted_keys(keys: Seq<Seq<char>>) -> bool {
    forall|i: int, j: int| 0 <= i < j < keys.len() ==> lex_lt(#[trigger] keys[i], #[trigger] keys[j])
}

/// Two sequences in strictly increasing order with the same elements are
/// the same sequence.
pub proof fn lemma_sorted_keys_unique(k1: Seq<Seq<char>>, k2: Seq<Seq<char>>)
    requires
        sorted_keys(k1),
        sorted_keys(k2),
        forall|k: Seq<char>| k1.contains(k) <==> k2.contains(k),
    ensures
        k1 == k2,
    decreases k1.len(),
{
    if k1.len() == 0 {
        if k2.len() > 0 {
            assert(k2.contains(k2[0]));
        }
        assert(k1 =~= k2);
    } else {
        assert(k1.contains(k1[0]));
        let j = choose|j: int| 0 <= j < k2.len() && k2[j] == k1[0];
        assert(k2.contains(k2[0]));
        let i = choose|i: int| 0 <= i < k1.len() && k1[i] == k2[0];
        if j > 0 {
            assert(lex_lt(k2[0], k2[j]));
            if i == 0 {
                lemma_lex_irreflexive(k1[0]);
            } else {
                assert(lex_lt(k1[0], k1[i]));
                lemma_lex_asym(k1[0], k2[0]);
            }
        }
        assert(k1[0] == k2[0]);
        let t1 = k1.drop_first();
        let t2 = k2.drop_first();
        assert forall|i: int, j: int| 0 <= i < j < t1.len() implies lex_lt(#[trigger] t1[i], #[trigger] t1[j]) by {
            assert(lex_lt(k1[i + 1], k1[j + 1]));
        }
        assert forall|i: int, j: int| 0 <= i < j < t2.len() implies lex_lt(#[trigger] t2[i], #[trigger] t2[j]) by {
            assert(lex_lt(k2[i + 1], k2[j + 1]));
        }
        assert forall|k: Seq<char>| t1.contains(k) <==> t2.contains(k) by {
            if t1.contains(k) {
                let a = choose|a: int| 0 <= a < t1.len() && t1[a] == k;
                assert(lex_lt(k1[0], k1[a + 1]));
                assert(k1.contains(k));
                let b = choose|b: int| 0 <= b < k2.len() && k2[b] == k;
                if b == 0 {
                    lemma_lex_irreflexive(k);
                }
                assert(t2[b - 1] == k);
            }
            if t2.contains(k) {
                let a = choose|a: int| 0 <= a < t2.len() && t2[a] == k;
                assert(lex_lt(k2[0], k2[a + 1]));
                assert(k2.contains(k));
                let b = choose|b: int| 0 <= b < k1.len() && k1[b] == k;
                if b == 0 {
                    lemma_lex_irreflexive(k);
                }
                assert(t1[b - 1] == k);
            }
        }
        lemma_sorted_keys_unique(t1, t2);
        assert(k1 =~= seq![k1[0]] + t1);
        assert(k2 =~= seq![k2[0]] + t2);
    }
}

/// A hunk to absorb: the file it changes and the commit of the stack it
/// goes into, with that commit's message.
#[derive(Debug, Clone)]
pub struct AbsorbAction {
    pub file_path: String,
    pub target_commit: String,
    pub target_message: String,
}

/// Whether some action targets the commit `k`.
pub open spec fn is_target(acts: Seq<AbsorbAction>, k: Seq<char>) -> bool {
    exists|i: int| 0 <= i < acts.len() && #[trigger] acts[i].target_commit@ == k
}

/// The target commits of the actions, each once, in increasing order.
pub fn sorted_targets(actions: &Vec<AbsorbAction>) -> (keys: Vec<String>)
    ensures
        sorted_keys(names(keys@)),
        forall|k: Seq<char>| #[trigger] names(keys@).contains(k) <==> is_target(actions@, k),
{
    // The distinct targets, in the order they are met.
    let mut rest: Vec<String> = Vec::new();
    let mut i: usize = 0;
    while i < actions.len()
        invariant
            i <= actions@.len(),
            forall|a: int, b: int| 0 <= a < rest@.len() && 0 <= b < rest@.len() && a != b ==> #[trigger] rest@[a]@ != #[trigger] rest@[b]@,
            forall|k: Seq<char>| #[trigger] names(rest@).contains(k) <==> is_target(actions@.take(i as int), k),
        decreases actions@.len() - i,
    {
        let t = &actions[i].target_commit;
        let ghost before = rest@;
        let known = contains_name(&rest, t);
        if !known {
            rest.push(t.clone());
        }
        proof {
            let p = actions@.take(i + 1);
            let q = actions@.take(i as int);
            assert(p[i as int].target_commit@ == t@);
            assert forall|w: int| 0 <= w < i implies #[trigger] p[w] == q[w] by {}
            if known {
                assert(rest@ == before);
                assert forall|k: Seq<char>| #[trigger] names(rest@).contains(k) <==> is_target(p, k) by {
                    if is_target(p, k) {
                        let w = choose|w: int| 0 <= w < p.len() && #[trigger] p[w].target_commit@ == k;
                        if w < i {
                            assert(q[w].target_commit@ == k);
                            assert(is_target(q, k));
                        }
                    }
                    if names(rest@).contains(k) {
                        assert(is_target(q, k));
                        let w = choose|w: int| 0 <= w < q.len() && #[trigger] q[w].target_commit@ == k;
                        assert(p[w].target_commit@ == k);
                    }
                }
            } else {
                assert(rest@.drop_last() =~= before);
                assert(rest@.last()@ == t@);
                assert forall|a: int| 0 <= a < before.len() implies #[trigger] before[a]@ != t@ by {
                    assert(names(before)[a] == before[a]@);
                }
                assert(names(rest@) =~= names(before).push(t@));
                assert forall|k: Seq<char>| #[trigger] names(rest@).contains(k) <==> is_target(p, k) by {
                    if is_target(p, k) {
                        let w = choose|w: int| 0 <= w < p.len() && #[trigger] p[w].target_commit@ == k;
                        if w < i {
                            assert(q[w].target_commit@ == k);
                            assert(is_target(q, k));
                            assert(names(before).contains(k));
                            let a = choose|a: int| 0 <= a < names(before).len() && names(before)[a] == k;
                            assert(names(rest@)[a] == k);
                        } else {
                            assert(names(rest@)[before.len() as int] == k);
                        }
                    }
                    if names(rest@).contains(k) {
                        let a = choose|a: int| 0 <= a < names(rest@).len() && names(rest@)[a] == k;
                        if a < before.len() {
                            assert(names(before)[a] == k);
                            assert(names(before).contains(k));
                            assert(is_target(q, k));
                            let w = choose|w: int| 0 <= w < q.len() && #[trigger] q[w].target_commit@ == k;
                            assert(p[w].target_commit@ == k);
                        } else {
                            assert(p[i as int].target_commit@ == k);
                        }
                    }
                }
            }
        }
        i += 1;
    }
    assert(actions@.take(actions@.len() as int) =~= actions@);
    // Selection: the least remaining target goes next.
    let mut keys: Vec<String> = Vec::new();
    while rest.len() > 0
        invariant
            forall|a: int, b: int| 0 <= a < rest@.len() && 0 <= b < rest@.len() && a != b ==> #[trigger] rest@[a]@ != #[trigger] rest@[b]@,
            sorted_keys(names(keys@)),
            forall|a: int, b: int| 0 <= a < keys@.len() && 0 <= b < rest@.len() ==> lex_lt(#[trigger] keys@[a]@, #[trigger] rest@[b]@),
            forall|k: Seq<char>| names(keys@).contains(k) || names(rest@).contains(k) <==> is_target(actions@, k),
        decreases rest@.len(),
    {
        let mut best: usize = 0;
        let mut j: usize = 1;
        while j < rest.len()
            invariant
                forall|a: int, b: int| 0 <= a < rest@.len() && 0 <= b < rest@.len() && a != b ==> #[trigger] rest@[a]@ != #[trigger] rest@[b]@,
                rest@.len() > 0,
                best < j <= rest@.len(),
                forall|b: int| 0 <= b < j && b != best ==> lex_lt(rest@[best as int]@, #[trigger] rest@[b]@),
            decreases rest@.len() - j,
        {
            if lex_less(&rest[j], &rest[best]) {
                proof {
                    assert forall|b: int| 0 <= b < j + 1 && b != j implies lex_lt(rest@[j as int]@, #[trigger] rest@[b]@) by {
                        if b != best {
                            lemma_lex_trans(rest@[j as int]@, rest@[best as int]@, rest@[b]@);
                        }
                    }
                }
                best = j;
            } else {
                proof {
                    lemma_lex_total(rest@[j as int]@, rest@[best as int]@);
                }
            }
            j += 1;
        }
        let ghost r0 = rest@;
        let ghost k0 = keys@;
        let m = rest.remove(best);
        proof {
            assert(rest@ == r0.remove(best as int));
            assert forall|a: int| 0 <= a < rest@.len() implies (#[trigger] rest@[a]) == (if a < best {
                r0[a]
            } else {
                r0[a + 1]
            }) by {}
        }
        keys.push(m);
        proof {
            assert(names(keys@) =~= names(k0).push(m@));
            assert forall|a: int, b: int| 0 <= a < b < names(keys@).len() implies lex_lt(#[trigger] names(keys@)[a], #[trigger] names(keys@)[b]) by {
                if b == k0.len() {
                    assert(lex_lt(k0[a]@, r0[best as int]@));
                } else {
                    assert(names(k0)[a] == k0[a]@);
                }
            }
            assert forall|a: int, b: int| 0 <= a < keys@.len() && 0 <= b < rest@.len() implies lex_lt(#[trigger] keys@[a]@, #[trigger] rest@[b]@) by {
                let rb = if b < best { b } else { b + 1 };
                assert(rest@[b] == r0[rb]);
                if a == k0.len() {
                    assert(rb != best);
                } else {
                    assert(keys@[a] == k0[a]);
                }
            }
            assert forall|a: int, b: int| 0 <= a < rest@.len() && 0 <= b < rest@.len() && a != b implies #[trigger] rest@[a]@ != #[trigger] rest@[b]@ by {
                let ra = if a < best { a } else { a + 1 };
                let rb = if b < best { b } else { b + 1 };
                assert(rest@[a] == r0[ra]);
                assert(rest@[b] == r0[rb]);
            }
            assert forall|k: Seq<char>| names(keys@).contains(k) || names(rest@).contains(k) <==> is_target(actions@, k) by {
                if names(keys@).contains(k) || names(rest@).contains(k) {
                    if names(keys@).contains(k) {
                        let a = choose|a: int| 0 <= a < names(keys@).len() && names(keys@)[a] == k;
                        if a < k0.len() {
                            assert(names(k0)[a] == k);
                            assert(names(k0).contains(k));
                        } else {
                            assert(names(r0)[best as int] == k);
                            assert(names(r0).contains(k));
                        }
                    } else {
                        let a = choose|a: int| 0 <= a < names(rest@).len() && names(rest@)[a] == k;
                        let ra = if a < best { a } else { a + 1 };
                        assert(names(r0)[ra] == k);
                        assert(names(r0).contains(k));
                    }
                }
                if is_target(actions@, k) {
                    if names(k0).contains(k) {
                        let a = choose|a: int| 0 <= a < names(k0).len() && names(k0)[a] == k;
                        assert(names(keys@)[a] == k);
                    } else {
                        assert(names(r0).contains(k));
                        let a = choose|a: int| 0 <= a < names(r0).len() && names(r0)[a] == k;
                        if a == best {
                            assert(names(keys@)[k0.len() as int] == k);
                        } else {
                            let na = if a < best { a } else { a - 1 };
                            assert(names(rest@)[na] == k);
                        }
                    }
                }
            }
        }
    }
    proof {
        assert forall|k: Seq<char>| #[trigger] names(keys@).contains(k) <==> is_target(actions@, k) by {
            if names(rest@).contains(k) {
                let a = choose|a: int| 0 <= a < names(rest@).len() && names(rest@)[a] == k;
            }
        }
    }
    keys
}

/// Selects the actions that target the commit `k`.
pub open spec fn targeting(k: Seq<char>) -> spec_fn(AbsorbAction) -> bool {
    |a: AbsorbAction| a.target_commit@ == k
}

/// The line of one absorbed hunk.
pub open spec fn hunk_line(a: AbsorbAction) -> Seq<char> {
    "    → "@ + a.file_path@
}

/// The lines of the hunks `g` that go into commit `k`: the short commit id,
/// the message of the commit and the number of hunks, then one line per
/// hunk.
pub open spec fn group_lines(k: Seq<char>, g: Seq<AbsorbAction>) -> Seq<Seq<char>> {
    seq!["  "@ + short_id(k) + " "@ + g[0].target_message@ + " ("@ + decimal(g.len()) + " hunk(s))"@]
        + g.map_values(|a: AbsorbAction| hunk_line(a))
}

/// The lines of the plan, one group per commit of `keys`, in that order.
pub open spec fn plan_lines(keys: Seq<Seq<char>>, acts: Seq<AbsorbAction>) -> Seq<Seq<char>>
    decreases keys.len(),
{
    if keys.len() == 0 {
        seq![]
    } else {
        plan_lines(keys.drop_last(), acts) + group_lines(keys.last(), acts.filter(targeting(keys.last())))
    }
}

/// The lines of the hunks that go into commit `key`.
fn group_of(actions: &Vec<AbsorbAction>, key: &String) -> (r: Vec<String>)
    requires
        is_target(actions@, key@),
    ensures
        names(r@) == group_lines(key@, actions@.filter(targeting(key@))),
{
    let ghost pred = targeting(key@);
    let mut files: Vec<String> = Vec::new();
    let mut count: usize = 0;
    let mut first: String = String::new();
    let mut i: usize = 0;
    while i < actions.len()
        invariant
            pred == targeting(key@),
            i <= actions@.len(),
            count == actions@.take(i as int).filter(pred).len(),
            count <= i,
            names(files@) == actions@.take(i as int).filter(pred).map_values(|a: AbsorbAction| hunk_line(a)),
            count > 0 ==> first@ == actions@.take(i as int).filter(pred)[0].target_message@,
        decreases actions@.len() - i,
    {
        proof {
            lemma_filter_take_step(actions@, pred, i as int);
        }
        if actions[i].target_commit == *key {
            if count == 0 {
                first = actions[i].target_message.clone();
            }
            let mut v: Vec<char> = Vec::new();
            push_str(&mut v, "    → ");
            push_string(&mut v, &actions[i].file_path);
            let ghost f0 = files@;
            files.push(string_from_chars(&v));
            count += 1;
            proof {
                let g = actions@.take(i + 1).filter(pred);
                assert(g == actions@.take(i as int).filter(pred).push(actions@[i as int]));
                assert(names(files@) =~= names(f0).push(hunk_line(actions@[i as int])));
                assert(g.map_values(|a: AbsorbAction| hunk_line(a)) =~= actions@.take(i as int).filter(pred).map_values(
                    |a: AbsorbAction| hunk_line(a),
                ).push(hunk_line(actions@[i as int])));
            }
        }
        i += 1;
    }
    proof {
        assert(actions@.take(actions@.len() as int) =~= actions@);
        let w = choose|w: int| 0 <= w < actions@.len() && #[trigger] actions@[w].target_commit@ == key@;
        lemma_filter_sub(actions@, pred);
        assert(actions@.filter(pred).contains(actions@[w]));
    }
    let mut head: Vec<char> = Vec::new();
    push_str(&mut head, "  ");
    let short = take_chars(key.as_str(), 8);
    push_string(&mut head, &short);
    push_str(&mut head, " ");
    push_string(&mut head, &first);
    push_str(&mut head, " (");
    let d = decimal_usize(count);
    push_all(&mut head, &d);
    push_str(&mut head, " hunk(s))");
    let mut r: Vec<String> = Vec::new();
    r.push(string_from_chars(&head));
    let ghost h = r@;
    let ghost fv = files@;
    r.append(&mut files);
    proof {
        assert(r@ =~= h + fv);
        assert(names(r@) =~= names(h) + names(fv));
    }
    r
}

/// The plan as printed: the hunks grouped by the commit they go into, the
/// commits in increasing order of their ids, each group with its header
/// line and one line per hunk in plan order.
pub fn absorb_plan_lines(actions: &Vec<AbsorbAction>) -> (r: Vec<String>)
    ensures
        exists|keys: Seq<Seq<char>>|
            sorted_keys(keys) && (forall|k: Seq<char>| #[trigger] keys.contains(k) <==> is_target(actions@, k))
                && names(r@) == plan_lines(keys, actions@),
{
    let keys = sorted_targets(actions);
    let mut r: Vec<String> = Vec::new();
    let mut i: usize = 0;
    while i < keys.len()
        invariant
            i <= keys@.len(),
            forall|k: Seq<char>| #[trigger] names(keys@).contains(k) <==> is_target(actions@, k),
            names(r@) == plan_lines(names(keys@).take(i as int), actions@),
        decreases keys@.len() - i,
    {
        proof {
            assert(names(keys@)[i as int] == keys@[i as int]@);
            assert(names(keys@).contains(keys@[i as int]@));
        }
        let mut g = group_of(actions, &keys[i]);
        let ghost r0 = r@;
        let ghost gv = g@;
        r.append(&mut g);
        proof {
            let t1 = names(keys@).take(i + 1);
            assert(t1.drop_last() =~= names(keys@).take(i as int));
            assert(t1.last() == keys@[i as int]@);
            assert(r@ =~= r0 + gv);
            assert(names(r@) =~= names(r0) + names(gv));
        }
        i += 1;
    }
    proof {
        assert(names(keys@).take(keys@.len() as int) =~= names(keys@));
    }
    r
}

/// Why a hunk could not be absorbed.
#[derive(Debug, Clone)]
pub enum UnmapReason {
    /// The file is new.
    NewFile,
    /// The hunk only inserts lines, so no line can be blamed.
    InsertOnly,
    /// The changed lines come from several commits.
    MultipleCommits,
    /// The blamed commit is not in the stack.
    CommitNotInStack,
    /// The blamed commit is already on the base branch.
    CommitOnBaseBranch,
    /// Blaming failed, with this error.
    BlameError(String),
}

/// A hunk that could not be absorbed.
#[derive(Debug, Clone)]
pub struct UnmappedHunk {
    pub file_path: String,
    pub reason: UnmapReason,
}

/// The words for a reason.
pub open spec fn reason_text(r: UnmapReason) -> Seq<char> {
    match r {
        UnmapReason::NewFile => "new file"@,
        UnmapReason::InsertOnly => "insert-only (no lines to blame)"@,
        UnmapReason::MultipleCommits => "multiple commits touched these lines"@,
        UnmapReason::CommitNotInStack => "target commit not in stack"@,
        UnmapReason::CommitOnBaseBranch => "target commit already on base branch"@,
        UnmapReason::BlameError(e) => "blame error: "@ + e@,
    }
}

/// The words for a reason.
pub fn unmap_reason_text(r: &UnmapReason) -> (s: String)
    ensures
        s@ == reason_text(*r),
{
    match r {
        UnmapReason::NewFile => String::from_str("new file"),
        UnmapReason::InsertOnly => String::from_str("insert-only (no lines to blame)"),
        UnmapReason::MultipleCommits => String::from_str("multiple commits touched these lines"),
        UnmapReason::CommitNotInStack => String::from_str("target commit not in stack"),
        UnmapReason::CommitOnBaseBranch => String::from_str("target commit already on base branch"),
        UnmapReason::BlameError(e) => {
            let mut v: Vec<char> = Vec::new();
            push_str(&mut v, "blame error: ");
            push_string(&mut v, e);
            string_from_chars(&v)
        },
    }
}

/// Messages as plain text, with how each is printed.
pub open spec fn texts(v: Seq<(MessageKind, String)>) -> Seq<(MessageKind, Seq<char>)> {
    v.map_values(|p: (MessageKind, String)| (p.0, p.1@))
}

/// Appending a message appends its text.
pub proof fn lemma_texts_push(v: Seq<(MessageKind, String)>, x: (MessageKind, String))
    ensures
        texts(v.push(x)) == texts(v).push((x.0, x.1@)),
{
    assert(texts(v.push(x)) =~= texts(v).push((x.0, x.1@)));
}

/// The line of a hunk that could not be absorbed.
pub open spec fn unmapped_line(u: UnmappedHunk) -> (MessageKind, Seq<char>) {
    (MessageKind::Detail, "  "@ + u.file_path@ + " ("@ + reason_text(u.reason) + ")"@)
}

/// The details of the plan, each printed as a detail.
pub open spec fn as_details(lines: Seq<Seq<char>>) -> Seq<(MessageKind, Seq<char>)> {
    lines.map_values(|l: Seq<char>| (MessageKind::Detail, l))
}

/// What the absorb command reports before any change, and whether it goes
/// on to create the fixup commits (`Ok(true)`), stops (`Ok(false)`), or
/// fails (`Err`): without anything to absorb it says so and stops; the
/// hunks that cannot be absorbed are listed with their reasons; when none
/// can be absorbed it fails; otherwise it shows the plan, and stops there
/// on a dry run.
pub open spec fn absorb_report_spec(
    acts: Seq<AbsorbAction>,
    unmapped: Seq<UnmappedHunk>,
    dry_run: bool,
    plan: Seq<Seq<char>>,
) -> (Seq<(MessageKind, Seq<char>)>, Result<bool, Seq<char>>) {
    if acts.len() == 0 && unmapped.len() == 0 {
        (seq![(MessageKind::Info, "Staged changes present but no absorbable hunks found"@)], Ok(false))
    } else {
        let um = if unmapped.len() > 0 {
            seq![(MessageKind::Warn, decimal(unmapped.len()) + " hunk(s) could not be absorbed:"@)]
                + unmapped.map_values(|u: UnmappedHunk| unmapped_line(u)) + seq![(MessageKind::Detail, seq![])]
        } else {
            seq![]
        };
        if acts.len() == 0 {
            (um, Err("All staged hunks could not be mapped to target commits"@))
        } else {
            let shown = um + seq![(MessageKind::Info, decimal(acts.len()) + " hunk(s) will be absorbed:"@)]
                + as_details(plan);
            if dry_run {
                (shown + seq![(MessageKind::Info, "Dry run - no changes made"@)], Ok(false))
            } else {
                (shown, Ok(true))
            }
        }
    }
}

/// What the absorb command reports before any change, and whether it goes
/// on to create the fixup commits.
pub fn absorb_report(actions: &Vec<AbsorbAction>, unmapped: &Vec<UnmappedHunk>, dry_run: bool) -> (r: (
    Vec<(MessageKind, String)>,
    Result<bool, String>,
))
    ensures
        exists|plan: Seq<Seq<char>>|
            {
                &&& (exists|keys: Seq<Seq<char>>|
                    sorted_keys(keys) && (forall|k: Seq<char>| #[trigger] keys.contains(k) <==> is_target(actions@, k))
                        && plan == plan_lines(keys, actions@))
                &&& texts(r.0@) == absorb_report_spec(actions@, unmapped@, dry_run, plan).0
                &&& (match (r.1, absorb_report_spec(actions@, unmapped@, dry_run, plan).1) {
                    (Ok(a), Ok(b)) => a == b,
                    (Err(a), Err(b)) => a@ == b,
                    _ => false,
                })
            },
{
    let mut out: Vec<(MessageKind, String)> = Vec::new();
    let plan = absorb_plan_lines(actions);
    let ghost pv = names(plan@);
    if actions.len() == 0 && unmapped.len() == 0 {
        out.push((MessageKind::Info, String::from_str("Staged changes present but no absorbable hunks found")));
        proof {
            assert(texts(out@) =~= absorb_report_spec(actions@, unmapped@, dry_run, pv).0);
        }
        return (out, Ok(false));
    }
    if unmapped.len() > 0 {
        let mut v = decimal_usize(unmapped.len());
        push_str(&mut v, " hunk(s) could not be absorbed:");
        out.push((MessageKind::Warn, string_from_chars(&v)));
        let mut j: usize = 0;
        while j < unmapped.len()
            invariant
                j <= unmapped@.len(),
                unmapped@.len() > 0,
                texts(out@) == seq![(MessageKind::Warn, decimal(unmapped@.len()) + " hunk(s) could not be absorbed:"@)]
                    + unmapped@.take(j as int).map_values(|u: UnmappedHunk| unmapped_line(u)),
            decreases unmapped@.len() - j,
        {
            let mut l: Vec<char> = Vec::new();
            push_str(&mut l, "  ");
            push_string(&mut l, &unmapped[j].file_path);
            push_str(&mut l, " (");
            let reason = unmap_reason_text(&unmapped[j].reason);
            push_string(&mut l, &reason);
            push_str(&mut l, ")");
            let ghost o0 = out@;
            let line = string_from_chars(&l);
            out.push((MessageKind::Detail, line));
            proof {
                lemma_texts_push(o0, (MessageKind::Detail, line));
                assert(line@ =~= unmapped_line(unmapped@[j as int]).1);
                assert(unmapped@.take(j + 1).map_values(|u: UnmappedHunk| unmapped_line(u)) =~= unmapped@.take(
                    j as int,
                ).map_values(|u: UnmappedHunk| unmapped_line(u)).push(unmapped_line(unmapped@[j as int])));
                assert(texts(out@) =~= seq![(MessageKind::Warn, decimal(unmapped@.len()) + " hunk(s) could not be absorbed:"@)]
                    + unmapped@.take(j + 1).map_values(|u: UnmappedHunk| unmapped_line(u)));
            }
            j += 1;
        }
        out.push((MessageKind::Detail, String::new()));
        proof {
            assert(unmapped@.take(unmapped@.len() as int) =~= unmapped@);
        }
    }
    let ghost um = texts(out@);
    proof {
        let spec_um = if unmapped@.len() > 0 {
            seq![(MessageKind::Warn, decimal(unmapped@.len()) + " hunk(s) could not be absorbed:"@)]
                + unmapped@.map_values(|u: UnmappedHunk| unmapped_line(u)) + seq![(MessageKind::Detail, Seq::<char>::empty())]
        } else {
            seq![]
        };
        assert(um =~= spec_um);
    }
    if actions.len() == 0 {
        return (out, Err(String::from_str("All staged hunks could not be mapped to target commits")));
    }
    let mut v = decimal_usize(actions.len());
    push_str(&mut v, " hunk(s) will be absorbed:");
    out.push((MessageKind::Info, string_from_chars(&v)));
    let ghost base = texts(out@);
    let mut k: usize = 0;
    while k < plan.len()
        invariant
            k <= plan@.len(),
            pv == names(plan@),
            texts(out@) == base + as_details(pv.take(k as int)),
        decreases plan@.len() - k,
    {
        let ghost o0 = out@;
        let line = plan[k].clone();
        out.push((MessageKind::Detail, line));
        proof {
            lemma_texts_push(o0, (MessageKind::Detail, line));
            assert(pv[k as int] == line@);
            assert(as_details(pv.take(k + 1)) =~= as_details(pv.take(k as int)).push((MessageKind::Detail, pv[k as int])));
            assert(texts(out@) =~= base + as_details(pv.take(k + 1)));
        }
        k += 1;
    }
    proof {
        assert(pv.take(plan@.len() as int) =~= pv);
    }
    if dry_run {
        let ghost o0 = out@;
        let line = String::from_str("Dry run - no changes made");
        out.push((MessageKind::Info, line));
        proof {
            lemma_texts_push(o0, (MessageKind::Info, line));
            assert(texts(out@) =~= absorb_report_spec(actions@, unmapped@, dry_run, pv).0);
        }
        return (out, Ok(false));
    }
    proof {
        assert(texts(out@) =~= absorb_report_spec(actions@, unmapped@, dry_run, pv).0);
    }
    (out, Ok(true))
}

/// The messages after the fixup commits were created: how many, and, when
/// there are any, how to fold them in.
pub fn absorb_done_lines(fixups_created: usize) -> (r: Vec<(MessageKind, String)>)
    ensures
        r@.len() == (if fixups_created > 0 { 2int } else { 1int }),
        r@[0].0 == MessageKind::Success,
        r@[0].1@ == "Created "@ + decimal(fixups_created as nat) + " fixup commit(s)"@,
        fixups_created > 0 ==> r@[1].0 == MessageKind::Info
            && r@[1].1@ == "Run `git rebase -i --autosquash` to apply the fixups"@,
{
    let mut v: Vec<char> = Vec::new();
    push_str(&mut v, "Created ");
    let d = decimal_usize(fixups_created);
    push_all(&mut v, &d);
    push_str(&mut v, " fixup commit(s)");
    let mut r: Vec<(MessageKind, String)> = Vec::new();
    r.push((MessageKind::Success, string_from_chars(&v)));
    if fixups_created > 0 {
        r.push((MessageKind::Info, String::from_str("Run `git rebase -i --autosquash` to apply the fixups")));
    }
    r
}

} // verus!
