//! Submitting the stack: which pull requests get created or updated, their
//! titles, and the navigation comment posted on each of them.

use vstd::prelude::*;
use crate::stack::{
    Stack, StackBranch, MergedBranch, opt_str, names, has_name, idx_of, lemma_filter_take_step,
    clone_opt_string, has_merged, merged_idx, contains_name, lemma_names_push, lemma_idx_of_unique,
    parent_of, anc, reaches, is_desc, acyclic, names_unique, lemma_anc_add,
};
use vstd::set_lib::{lemma_len_subset, set_int_range, lemma_int_range};
use crate::text::{
    lines, lines_of, trim, trim_end, trim_chars, trim_end_chars, join_chars,
    is_ws, upper_of, words, words_state, lemma_words_step, join, lemma_join_push, char_is_whitespace,
    char_to_uppercase, chars_of, push_all, push_str, push_string, string_from_chars, decimal,
    decimal_chars, decimal_usize, contains_chars, has_substring, all_ascii, is_ascii_char, chars_all,
    lemma_join_chars, lemma_words_chars, lemma_words_of_join, lemma_words_nonempty,
};

use crate::output::MessageKind;

verus! {

/// Marker that identifies rung's stack comment among the comments of a
/// pull request.
pub const STACK_COMMENT_MARKER: &'static str = "<!-- rung-stack -->";

/// A planned action for one branch.
#[derive(Debug, Clone)]
pub enum PlannedBranchAction {
    /// Push the branch and update the base of its existing pull request.
    Update { branch: String, pr_number: u64, pr_url: String, base: String },
    /// Push the branch and open a pull request.
    Create { branch: String, title: String, body: String, base: String, draft: bool },
}

/// What submitting the stack will do, branch by branch.
#[derive(Debug, Clone)]
pub struct SubmitPlan {
    pub actions: Vec<PlannedBranchAction>,
}

/// Whether the action opens a pull request.
pub open spec fn is_create(a: PlannedBranchAction) -> bool {
    a is Create
}

/// Selects the actions that open a pull request.
pub open spec fn create_pred() -> spec_fn(PlannedBranchAction) -> bool {
    |a: PlannedBranchAction| is_create(a)
}

/// Selects the actions that update a pull request.
pub open spec fn update_pred() -> spec_fn(PlannedBranchAction) -> bool {
    |a: PlannedBranchAction| is_update(a)
}

/// Whether the action updates a pull request.
pub open spec fn is_update(a: PlannedBranchAction) -> bool {
    a is Update
}

impl SubmitPlan {
    /// A plan with no action.
    pub fn empty() -> (p: SubmitPlan)
        ensures
            p.actions@.len() == 0,
    {
        SubmitPlan { actions: Vec::new() }
    }

    /// The number of pull requests the plan opens.
    pub fn count_creates(&self) -> (r: usize)
        ensures
            r == self.actions@.filter(create_pred()).len(),
    {
        let ghost pred = create_pred();
        let n = self.actions.len();
        let mut count: usize = 0;
        let mut i: usize = 0;
        while i < n
            invariant
                n == self.actions@.len(),
                i <= n,
                count <= i,
                pred == create_pred(),
                count == self.actions@.take(i as int).filter(pred).len(),
            decreases n - i,
        {
            proof {
                lemma_filter_take_step(self.actions@, pred, i as int);
            }
            let hit = match &self.actions[i] {
                PlannedBranchAction::Create { .. } => true,
                PlannedBranchAction::Update { .. } => false,
            };
            assert(hit == pred(self.actions@[i as int]));
            if hit {
                count += 1;
            }
            i += 1;
        }
        assert(self.actions@.take(n as int) =~= self.actions@);
        count
    }

    /// The number of pull requests the plan updates.
    pub fn count_updates(&self) -> (r: usize)
        ensures
            r == self.actions@.filter(update_pred()).len(),
    {
        let ghost pred = update_pred();
        let n = self.actions.len();
        let mut count: usize = 0;
        let mut i: usize = 0;
        while i < n
            invariant
                n == self.actions@.len(),
                i <= n,
                count <= i,
                pred == update_pred(),
                count == self.actions@.take(i as int).filter(pred).len(),
            decreases n - i,
        {
            proof {
                lemma_filter_take_step(self.actions@, pred, i as int);
            }
            let hit = match &self.actions[i] {
                PlannedBranchAction::Update { .. } => true,
                PlannedBranchAction::Create { .. } => false,
            };
            assert(hit == pred(self.actions@[i as int]));
            if hit {
                count += 1;
            }
            i += 1;
        }
        assert(self.actions@.take(n as int) =~= self.actions@);
        count
    }

    /// Whether the plan has no action.
    pub fn is_empty(&self) -> (r: bool)
        ensures
            r == (self.actions@.len() == 0),
    {
        self.actions.len() == 0
    }
}

/// Every action opens or updates a pull request, so the two counts add up.
pub proof fn submit_counts_add_up(plan: SubmitPlan)
    ensures
        plan.actions@.filter(create_pred()).len() + plan.actions@.filter(
            update_pred(),
        ).len() == plan.actions@.len(),
{
    lemma_create_update_counts(plan.actions@);
}

/// The creates and updates of a sequence of actions add up to its length.
pub proof fn lemma_create_update_counts(s: Seq<PlannedBranchAction>)
    ensures
        s.filter(create_pred()).len() + s.filter(update_pred()).len() == s.len(),
    decreases s.len(),
{
    reveal(Seq::filter);
    if s.len() > 0 {
        lemma_create_update_counts(s.drop_last());
    }
}

/// Result of submitting one branch.
#[derive(Debug, Clone)]
pub struct BranchSubmitResult {
    pub branch: String,
    pub pr_number: u64,
    pub pr_url: String,
    pub action: SubmitAction,
}

/// Whether a pull request was opened or updated.
#[derive(Debug, Clone, Copy, PartialEq, Eq, Structural)]
pub enum SubmitAction {
    Created,
    Updated,
}

/// Settings of a submit.
pub struct SubmitConfig {
    /// Open pull requests as drafts.
    pub draft: bool,
    /// Title for the pull request of the current branch.
    pub custom_title: Option<String>,
    /// The branch checked out.
    pub current_branch: Option<String>,
    /// The base branch.
    pub default_branch: String,
}

// === Titles ===

/// The part of `s` after its last `/` (all of `s` when it has none).
pub open spec fn after_last_slash(s: Seq<char>) -> Seq<char>
    decreases s.len(),
{
    if s.len() == 0 {
        s
    } else if s.last() == '/' {
        seq![]
    } else {
        after_last_slash(s.drop_last()).push(s.last())
    }
}

/// `s` with each `-` and `_` replaced by a space.
pub open spec fn dashes_to_spaces(s: Seq<char>) -> Seq<char> {
    s.map_values(|c: char| if c == '-' || c == '_' { ' ' } else { c })
}

/// The word with its first character in upper case.
pub open spec fn capitalize(w: Seq<char>) -> Seq<char> {
    if w.len() == 0 {
        w
    } else {
        upper_of(w[0]) + w.drop_first()
    }
}

/// The capitalized words, joined by spaces.
pub open spec fn title_of_words(ws: Seq<Seq<char>>) -> Seq<char> {
    join(ws.map_values(|w: Seq<char>| capitalize(w)), seq![' '])
}

/// The pull request title made from a branch name: the last `/` segment,
/// with `-` and `_` as spaces, each word capitalized, words joined by
/// single spaces.
pub open spec fn title_from_branch(name: Seq<char>) -> Seq<char> {
    title_of_words(words(dashes_to_spaces(after_last_slash(name))))
}

/// `char::to_uppercase` on an ASCII character: a lowercase letter becomes
/// its uppercase letter, any other character stays.
pub open spec fn ascii_upper(c: char) -> char {
    if 'a' <= c <= 'z' {
        ((c as u32) - 32) as char
    } else {
        c
    }
}

/// `capitalize` on ASCII text.
pub open spec fn capitalize_ascii(w: Seq<char>) -> Seq<char> {
    if w.len() == 0 {
        w
    } else {
        seq![ascii_upper(w[0])] + w.drop_first()
    }
}

/// `title_of_words` on ASCII words.
pub open spec fn ascii_title_of_words(ws: Seq<Seq<char>>) -> Seq<char> {
    join(ws.map_values(|w: Seq<char>| capitalize_ascii(w)), seq![' '])
}

/// `title_from_branch` on an ASCII branch name.
pub open spec fn ascii_title(name: Seq<char>) -> Seq<char> {
    ascii_title_of_words(words(dashes_to_spaces(after_last_slash(name))))
}

/// The part after the last `/` ends the text and holds no `/`.
proof fn lemma_after_last_slash(s: Seq<char>)
    ensures
        after_last_slash(s).len() <= s.len(),
        after_last_slash(s) == s.subrange(s.len() - after_last_slash(s).len(), s.len() as int),
        forall|i: int| 0 <= i < after_last_slash(s).len() ==> #[trigger] after_last_slash(s)[i] != '/',
    decreases s.len(),
{
    if s.len() > 0 {
        let init = s.drop_last();
        lemma_after_last_slash(init);
        let a = after_last_slash(init);
        if s.last() == '/' {
            assert(after_last_slash(s) =~= s.subrange(s.len() as int, s.len() as int));
        } else {
            assert(a.push(s.last()) =~= s.subrange(s.len() - a.len() - 1, s.len() as int));
            assert forall|i: int| 0 <= i < a.len() + 1 implies #[trigger] a.push(s.last())[i] != '/' by {
                if i < a.len() {
                    assert(a.push(s.last())[i] == a[i]);
                }
            }
        }
    }
}

/// Text without `/` is its own last segment.
proof fn lemma_after_last_slash_none(t: Seq<char>)
    requires
        forall|i: int| 0 <= i < t.len() ==> #[trigger] t[i] != '/',
    ensures
        after_last_slash(t) == t,
    decreases t.len(),
{
    if t.len() > 0 {
        let init = t.drop_last();
        assert forall|i: int| 0 <= i < init.len() implies #[trigger] init[i] != '/' by {
            assert(init[i] == t[i]);
        }
        lemma_after_last_slash_none(init);
        assert(t.last() == t[t.len() - 1]);
        assert(init.push(t.last()) =~= t);
    }
}

/// The characters a title word is made of: ASCII, no whitespace, and none
/// of `/`, `-` and `_`.
pub open spec fn title_char(c: char) -> bool {
    is_ascii_char(c) && !is_ws(c) && c != '/' && c != '-' && c != '_'
}

/// Capitalizing a word of title characters keeps it a word of title
/// characters, and capitalizing it again changes nothing.
proof fn lemma_capitalize_ascii(w: Seq<char>)
    requires
        w.len() > 0,
        chars_all(w, |c: char| title_char(c)),
    ensures
        capitalize_ascii(w).len() == w.len(),
        chars_all(capitalize_ascii(w), |c: char| title_char(c)),
        capitalize_ascii(capitalize_ascii(w)) == capitalize_ascii(w),
{
    let c = w[0];
    let u = ascii_upper(c);
    assert(title_char(c));
    if 'a' <= c <= 'z' {
        assert('A' <= u <= 'Z');
    }
    assert(title_char(u));
    assert(ascii_upper(u) == u);
    let x = capitalize_ascii(w);
    assert(x[0] == u);
    assert forall|i: int| 0 <= i < x.len() implies title_char(#[trigger] x[i]) by {
        if i > 0 {
            assert(x[i] == w[i]);
        }
    }
    assert(capitalize_ascii(x) =~= x);
}

/// For a branch name of ASCII characters, the title is ASCII and holds no
/// `/`, `-` or `_`; it is its own words separated by single spaces; and a
/// title made from it is itself. So `generate_title` of a title it returned
/// for an ASCII name returns that title unchanged.
pub proof fn ascii_title_is_stable(name: Seq<char>)
    requires
        all_ascii(name),
    ensures
        chars_all(ascii_title(name), |c: char| c == ' ' || title_char(c)),
        all_ascii(ascii_title(name)),
        join(words(ascii_title(name)), seq![' ']) == ascii_title(name),
        ascii_title(ascii_title(name)) == ascii_title(name),
{
    let a = after_last_slash(name);
    lemma_after_last_slash(name);
    let x = dashes_to_spaces(a);
    let p = |c: char| is_ascii_char(c) && c != '/' && c != '-' && c != '_';
    assert forall|i: int| 0 <= i < x.len() implies (!is_ws(#[trigger] x[i]) ==> p(x[i])) by {
        let k = name.len() - a.len() + i;
        assert(a[i] == name[k]);
        assert(is_ascii_char(name[k]));
        assert(a[i] != '/');
        assert(is_ws(' '));
    }
    lemma_words_chars(x, p);
    lemma_words_nonempty(x);
    let ws = words(x);
    let f = |w: Seq<char>| capitalize_ascii(w);
    let cs = ws.map_values(f);
    assert forall|k: int| 0 <= k < cs.len() implies (#[trigger] cs[k]).len() > 0
        && chars_all(cs[k], |c: char| title_char(c)) && capitalize_ascii(cs[k]) == cs[k] by {
        assert(ws[k].len() > 0);
        assert(chars_all(ws[k], |c: char| p(c) && !is_ws(c)));
        assert forall|i: int| 0 <= i < ws[k].len() implies title_char(#[trigger] ws[k][i]) by {
            assert((|c: char| p(c) && !is_ws(c))(ws[k][i]));
        }
        lemma_capitalize_ascii(ws[k]);
    }
    let t = join(cs, seq![' ']);
    assert(t == ascii_title(name));
    let q = |c: char| c == ' ' || title_char(c);
    assert forall|k: int| 0 <= k < cs.len() implies chars_all(#[trigger] cs[k], q) by {
        assert(chars_all(cs[k], |c: char| title_char(c)));
        assert forall|i: int| 0 <= i < cs[k].len() implies q(#[trigger] cs[k][i]) by {
            assert((|c: char| title_char(c))(cs[k][i]));
        }
    }
    assert(chars_all(seq![' '], q)) by {
        assert(seq![' '][0] == ' ');
    }
    lemma_join_chars(cs, seq![' '], q);
    assert forall|i: int| 0 <= i < t.len() implies is_ascii_char(#[trigger] t[i]) && t[i] != '/' && t[i] != '-' && t[i] != '_' by {
        assert(q(t[i]));
    }
    assert forall|k: int| 0 <= k < cs.len() implies chars_all(#[trigger] cs[k], |c: char| !is_ws(c)) by {
        assert(chars_all(cs[k], |c: char| title_char(c)));
        assert forall|i: int| 0 <= i < cs[k].len() implies !is_ws(#[trigger] cs[k][i]) by {
            assert((|c: char| title_char(c))(cs[k][i]));
        }
    }
    lemma_words_of_join(cs);
    lemma_after_last_slash_none(t);
    assert(dashes_to_spaces(t) =~= t);
    assert(cs.map_values(f) =~= cs);
}

/// Appends a capitalized word.
fn push_capitalized(out: &mut Vec<char>, w: &Vec<char>)
    requires
        w@.len() > 0,
    ensures
        final(out)@ == old(out)@ + capitalize(w@),
        all_ascii(w@) ==> final(out)@ == old(out)@ + capitalize_ascii(w@),
{
    let up = char_to_uppercase(w[0]);
    push_all(out, &up);
    let n = w.len();
    let mut i: usize = 1;
    while i < n
        invariant
            n == w@.len(),
            1 <= i <= n,
            out@ == old(out)@ + upper_of(w@[0]) + w@.subrange(1, i as int),
        decreases n - i,
    {
        out.push(w[i]);
        i += 1;
        assert(out@ =~= old(out)@ + upper_of(w@[0]) + w@.subrange(1, i as int));
    }
    assert(w@.subrange(1, n as int) =~= w@.drop_first());
    proof {
        if all_ascii(w@) {
            assert(is_ascii_char(w@[0]));
            assert(upper_of(w@[0]) == seq![ascii_upper(w@[0])]);
        }
    }
}

/// ASCII title of the words read so far, with one more word.
proof fn lemma_ascii_title_push(done: Seq<Seq<char>>, w: Seq<char>)
    ensures
        ascii_title_of_words(done.push(w)) == if done.len() == 0 {
            capitalize_ascii(w)
        } else {
            ascii_title_of_words(done) + seq![' '] + capitalize_ascii(w)
        },
{
    let f = |x: Seq<char>| capitalize_ascii(x);
    assert(done.push(w).map_values(f) =~= done.map_values(f).push(capitalize_ascii(w)));
    lemma_join_push(done.map_values(f), seq![' '], capitalize_ascii(w));
}

/// Title of the words read so far, with one more word.
proof fn lemma_title_push(done: Seq<Seq<char>>, w: Seq<char>)
    ensures
        title_of_words(done.push(w)) == if done.len() == 0 {
            capitalize(w)
        } else {
            title_of_words(done) + seq![' '] + capitalize(w)
        },
{
    let f = |x: Seq<char>| capitalize(x);
    assert(done.push(w).map_values(f) =~= done.map_values(f).push(capitalize(w)));
    lemma_join_push(done.map_values(f), seq![' '], capitalize(w));
}

/// The pull request title made from a branch name, such as "Add Auth" for
/// "feature/add-auth".
pub fn generate_title(branch_name: &str) -> (r: String)
    ensures
        r@ == title_from_branch(branch_name@),
        all_ascii(branch_name@) ==> r@ == ascii_title(branch_name@),
{
    let s = chars_of(branch_name);
    let n = s.len();
    // the last segment
    let mut seg: Vec<char> = Vec::new();
    let mut i: usize = 0;
    while i < n
        invariant
            n == s@.len(),
            i <= n,
            seg@ == after_last_slash(s@.take(i as int)),
            s@ == branch_name@,
            all_ascii(branch_name@) ==> all_ascii(seg@),
        decreases n - i,
    {
        assert(s@.take(i + 1).drop_last() =~= s@.take(i as int));
        if s[i] == '/' {
            seg = Vec::new();
            assert(seg@ =~= after_last_slash(s@.take(i + 1)));
        } else {
            seg.push(s[i]);
        }
        i += 1;
    }
    assert(s@.take(n as int) =~= s@);
    let ghost sp = dashes_to_spaces(seg@);
    let m = seg.len();
    let mut out: Vec<char> = Vec::new();
    let mut cur: Vec<char> = Vec::new();
    let ghost mut done: Seq<Seq<char>> = seq![];
    let mut have = false;
    let mut j: usize = 0;
    assert(words(sp.take(0)) =~= Seq::<Seq<char>>::empty());
    while j < m
        invariant
            m == seg@.len(),
            sp == dashes_to_spaces(seg@),
            sp.len() == m,
            j <= m,
            words_state(sp.take(j as int), done, cur@),
            out@ == title_of_words(done),
            have == (done.len() > 0),
            all_ascii(branch_name@) ==> all_ascii(seg@) && all_ascii(cur@) && out@ == ascii_title_of_words(done),
        decreases m - j,
    {
        let c0 = seg[j];
        let c = if c0 == '-' || c0 == '_' { ' ' } else { c0 };
        assert(c == sp[j as int]);
        proof {
            lemma_words_step(sp, j as int, done, cur@);
        }
        if char_is_whitespace(c) {
            if cur.len() > 0 {
                proof {
                    lemma_title_push(done, cur@);
                    lemma_ascii_title_push(done, cur@);
                }
                if have {
                    out.push(' ');
                }
                push_capitalized(&mut out, &cur);
                proof {
                    done = done.push(cur@);
                }
                have = true;
                cur = Vec::new();
            }
        } else {
            cur.push(c);
        }
        j += 1;
    }
    assert(sp.take(m as int) =~= sp);
    if cur.len() > 0 {
        proof {
            lemma_title_push(done, cur@);
            lemma_ascii_title_push(done, cur@);
        }
        if have {
            out.push(' ');
        }
        push_capitalized(&mut out, &cur);
        proof {
            done = done.push(cur@);
        }
    }
    string_from_chars(&out)
}


// === Pull request text ===

/// The lines after the leading blank ones.
pub open spec fn skip_blank(ls: Seq<Seq<char>>) -> Seq<Seq<char>>
    decreases ls.len(),
{
    if ls.len() > 0 && trim(ls[0]).len() == 0 {
        skip_blank(ls.drop_first())
    } else {
        ls
    }
}

/// The title and body of the pull request of a branch, from the message of
/// its tip commit (`None` when it could not be read): the first line,
/// trimmed, is the title; the lines after it, without the leading blank
/// ones, joined and without trailing whitespace, are the body. Without a
/// message or with an empty title, the title is made from the branch name
/// and the body is empty.
pub open spec fn pr_text(message: Option<Seq<char>>, branch: Seq<char>) -> (Seq<char>, Seq<char>) {
    match message {
        Some(m) => {
            let ls = lines(m);
            let title = if ls.len() > 0 { trim(ls[0]) } else { seq![] };
            if title.len() > 0 {
                (title, trim_end(join(skip_blank(ls.drop_first()), seq!['\n'])))
            } else {
                (title_from_branch(branch), seq![])
            }
        },
        None => (title_from_branch(branch), seq![]),
    }
}

/// The title and body of the pull request of `branch_name`, from the
/// message of its tip commit.
pub fn pr_title_and_body(message: &Option<String>, branch_name: &str) -> (r: (String, String))
    ensures
        (r.0@, r.1@) == pr_text(opt_str(*message), branch_name@),
{
    match message {
        Some(m) => {
            let chars = chars_of(m.as_str());
            let ls = lines_of(&chars);
            let ghost lv = ls@.map_values(|l: Vec<char>| l@);
            let title: Vec<char> = if ls.len() > 0 { trim_chars(&ls[0]) } else { Vec::new() };
            if title.len() > 0 {
                let n = ls.len();
                let mut k: usize = 1;
                while k < n && trim_chars(&ls[k]).len() == 0
                    invariant
                        n == ls@.len(),
                        lv == ls@.map_values(|l: Vec<char>| l@),
                        1 <= k <= n,
                        skip_blank(lv.drop_first()) == skip_blank(lv.subrange(k as int, n as int)),
                    decreases n - k,
                {
                    assert(lv.subrange(k as int, n as int).drop_first() =~= lv.subrange(k + 1, n as int));
                    k += 1;
                }
                let mut rest: Vec<Vec<char>> = Vec::new();
                let mut i = k;
                while i < n
                    invariant
                        n == ls@.len(),
                        lv == ls@.map_values(|l: Vec<char>| l@),
                        k <= i <= n,
                        rest@.map_values(|l: Vec<char>| l@) == lv.subrange(k as int, i as int),
                    decreases n - i,
                {
                    let ghost before = rest@;
                    let mut line: Vec<char> = Vec::new();
                    push_all(&mut line, &ls[i]);
                    assert(line@ =~= ls@[i as int]@);
                    assert(lv[i as int] == ls@[i as int]@);
                    rest.push(line);
                    assert(rest@.map_values(|l: Vec<char>| l@) =~= before.map_values(|l: Vec<char>| l@).push(lv[i as int]));
                    assert(rest@.map_values(|l: Vec<char>| l@) =~= lv.subrange(k as int, i + 1));
                    i += 1;
                }
                proof {
                    let tail = lv.subrange(k as int, n as int);
                    if k < n {
                        assert(tail[0] == lv[k as int]);
                    }
                    assert(skip_blank(tail) == tail);
                    assert(lv.subrange(1, n as int) =~= lv.drop_first());
                    assert(lv.drop_first() =~= lv.subrange(1, n as int));
                }
                let joined = join_chars(&rest, "\n");
                proof {
                    reveal_strlit("\n");
                    assert("\n"@ =~= seq!['\n']);
                }
                let body = trim_end_chars(&joined);
                (string_from_chars(&title), string_from_chars(&body))
            } else {
                (generate_title(branch_name), String::new())
            }
        },
        None => (generate_title(branch_name), String::new()),
    }
}

// === Planning ===

/// What a planned action says.
pub enum ActionView {
    Update { branch: Seq<char>, pr_number: u64, pr_url: Seq<char>, base: Seq<char> },
    Create { branch: Seq<char>, title: Seq<char>, body: Seq<char>, base: Seq<char>, draft: bool },
}

/// The view of a planned action.
pub open spec fn aview(a: PlannedBranchAction) -> ActionView {
    match a {
        PlannedBranchAction::Update { branch, pr_number, pr_url, base } => ActionView::Update {
            branch: branch@,
            pr_number,
            pr_url: pr_url@,
            base: base@,
        },
        PlannedBranchAction::Create { branch, title, body, base, draft } => ActionView::Create {
            branch: branch@,
            title: title@,
            body: body@,
            base: base@,
            draft,
        },
    }
}

/// The address of a pull request on GitHub.
pub open spec fn pr_url_of(owner: Seq<char>, repo: Seq<char>, n: u64) -> Seq<char> {
    "https://github.com/"@ + owner + "/"@ + repo + "/pull/"@ + decimal(n as nat)
}

/// The view of a found pull request (number and address).
pub open spec fn found_view(f: Option<(u64, String)>) -> Option<(u64, Seq<char>)> {
    match f {
        Some((n, u)) => Some((n, u@)),
        None => None,
    }
}

/// The action planned for one branch. `message` is its tip commit message;
/// `found` the open pull request found for it on the forge, looked up for
/// a branch that records none.
pub open spec fn planned_action(
    b: StackBranch,
    draft: bool,
    custom_title: Option<Seq<char>>,
    current: Option<Seq<char>>,
    default_branch: Seq<char>,
    owner: Seq<char>,
    repo: Seq<char>,
    message: Option<Seq<char>>,
    found: Option<(u64, Seq<char>)>,
) -> ActionView {
    let base = match opt_str(b.parent) {
        Some(p) => p,
        None => default_branch,
    };
    let (t, body) = pr_text(message, b.name@);
    let title = if current == Some(b.name@) && custom_title is Some { custom_title->0 } else { t };
    match b.pr {
        Some(n) => ActionView::Update { branch: b.name@, pr_number: n, pr_url: pr_url_of(owner, repo, n), base },
        None => match found {
            Some((n, url)) => ActionView::Update { branch: b.name@, pr_number: n, pr_url: url, base },
            None => ActionView::Create { branch: b.name@, title, body, base, draft },
        },
    }
}

/// The custom title only goes to the current branch. For any other branch
/// the planned action is the same whatever the custom title, and a pull
/// request it opens is titled from the branch's commit message (or its
/// name); a pull request opened for the current branch gets the custom
/// title when one is given. Whatever the titles, a pull request is opened
/// exactly for a branch that records none and has none on the forge.
pub proof fn custom_title_only_for_current(
    b: StackBranch,
    draft: bool,
    custom_title: Option<Seq<char>>,
    current: Option<Seq<char>>,
    default_branch: Seq<char>,
    owner: Seq<char>,
    repo: Seq<char>,
    message: Option<Seq<char>>,
    found: Option<(u64, Seq<char>)>,
)
    ensures
        current != Some(b.name@) ==> planned_action(b, draft, custom_title, current, default_branch, owner, repo, message, found)
            == planned_action(b, draft, None, current, default_branch, owner, repo, message, found),
        current != Some(b.name@) ==> (planned_action(b, draft, custom_title, current, default_branch, owner, repo, message, found)
            matches ActionView::Create { title, .. } ==> title == pr_text(message, b.name@).0),
        current == Some(b.name@) && custom_title is Some ==> (planned_action(b, draft, custom_title, current, default_branch, owner, repo, message, found)
            matches ActionView::Create { title, .. } ==> title == custom_title->0),
        planned_action(b, draft, custom_title, current, default_branch, owner, repo, message, found) is Create
            <==> (b.pr is None && found is None),
{
}

/// The plan for the whole stack, branch by branch: `messages[i]` and
/// `found[i]` are what the repository and the forge answered for the
/// `i`-th branch.
pub fn create_plan(
    stack: &Stack,
    config: &SubmitConfig,
    owner: &String,
    repo: &String,
    messages: &Vec<Option<String>>,
    found: &Vec<Option<(u64, String)>>,
) -> (plan: SubmitPlan)
    requires
        messages@.len() == stack.branches@.len(),
        found@.len() == stack.branches@.len(),
    ensures
        plan.actions@.len() == stack.branches@.len(),
        forall|i: int|
            0 <= i < stack.branches@.len() ==> aview(#[trigger] plan.actions@[i]) == planned_action(
                stack.branches@[i],
                config.draft,
                opt_str(config.custom_title),
                opt_str(config.current_branch),
                config.default_branch@,
                owner@,
                repo@,
                opt_str(messages@[i]),
                found_view(found@[i]),
            ),
{
    let n = stack.branches.len();
    let mut actions: Vec<PlannedBranchAction> = Vec::new();
    let mut i: usize = 0;
    while i < n
        invariant
            n == stack.branches@.len(),
            messages@.len() == n,
            found@.len() == n,
            i <= n,
            actions@.len() == i,
            forall|j: int|
                0 <= j < i ==> aview(#[trigger] actions@[j]) == planned_action(
                    stack.branches@[j],
                    config.draft,
                    opt_str(config.custom_title),
                    opt_str(config.current_branch),
                    config.default_branch@,
                    owner@,
                    repo@,
                    opt_str(messages@[j]),
                    found_view(found@[j]),
                ),
        decreases n - i,
    {
        let b = &stack.branches[i];
        let base = match &b.parent {
            Some(p) => p.clone(),
            None => config.default_branch.clone(),
        };
        let (t, body) = pr_title_and_body(&messages[i], b.name.as_str());
        let is_current = match &config.current_branch {
            Some(c) => *c == b.name,
            None => false,
        };
        let title = match &config.custom_title {
            Some(c) => if is_current { c.clone() } else { t },
            None => t,
        };
        let action = match b.pr {
            Some(num) => {
                let mut u: Vec<char> = Vec::new();
                push_str(&mut u, "https://github.com/");
                push_string(&mut u, owner);
                push_str(&mut u, "/");
                push_string(&mut u, repo);
                push_str(&mut u, "/pull/");
                let d = decimal_chars(num);
                push_all(&mut u, &d);
                PlannedBranchAction::Update { branch: b.name.clone(), pr_number: num, pr_url: string_from_chars(&u), base }
            },
            None => match &found[i] {
                Some(f) => PlannedBranchAction::Update {
                    branch: b.name.clone(),
                    pr_number: f.0,
                    pr_url: f.1.clone(),
                    base,
                },
                None => PlannedBranchAction::Create {
                    branch: b.name.clone(),
                    title,
                    body,
                    base,
                    draft: config.draft,
                },
            },
        };
        actions.push(action);
        i += 1;
    }
    SubmitPlan { actions }
}

/// Records the pull request number of `branch` after it was submitted. With
/// `keep_existing`, a number the branch already has is kept.
pub fn record_pr(stack: &mut Stack, branch: &String, pr_number: u64, keep_existing: bool)
    ensures
        final(stack).merged@ == old(stack).merged@,
        old(stack).wf() ==> final(stack).wf(),
        !has_name(old(stack).branches@, branch@) ==> final(stack).branches@ == old(stack).branches@,
        has_name(old(stack).branches@, branch@) ==> ({
            let bs = old(stack).branches@;
            let i = idx_of(bs, branch@);
            final(stack).branches@ == bs.update(i, StackBranch {
                pr: if keep_existing && bs[i].pr is Some { bs[i].pr } else { Some(pr_number) },
                ..bs[i]
            })
        }),
{
    match stack.find_index(branch) {
        Some(i) => {
            let old_pr = stack.branches[i].pr;
            let keep = keep_existing && old_pr.is_some();
            if !keep {
                let b = StackBranch {
                    name: stack.branches[i].name.clone(),
                    parent: clone_opt_string(&stack.branches[i].parent),
                    pr: Some(pr_number),
                };
                let ghost bs = stack.branches@;
                stack.branches.set(i, b);
                proof {
                    let cs = stack.branches@;
                    assert forall|x: int, y: int| old(stack).wf() && 0 <= x < cs.len() && 0 <= y < cs.len() && x != y implies #[trigger] cs[x].name@ != #[trigger] cs[y].name@ by {
                        assert(cs[x].name@ == bs[x].name@);
                        assert(cs[y].name@ == bs[y].name@);
                    }
                }
            } else {
                assert(stack.branches@ =~= stack.branches@.update(i as int, stack.branches@[i as int]));
            }
        },
        None => {},
    }
}


/// The outcome of submitting one planned branch, once it was pushed. An
/// update reports its pull request as updated. A creation reports the pull
/// request `found` on the forge since the plan was made (its base is then
/// updated) as updated; otherwise the one `created`, as created.
pub fn submit_outcome(action: &PlannedBranchAction, found: Option<(u64, String)>, created: Option<(u64, String)>) -> (r: BranchSubmitResult)
    requires
        action is Create && found is None ==> created is Some,
    ensures
        match *action {
            PlannedBranchAction::Update { branch, pr_number, pr_url, .. } => r.branch == branch
                && r.pr_number == pr_number && r.pr_url == pr_url && r.action == SubmitAction::Updated,
            PlannedBranchAction::Create { branch, .. } => r.branch == branch && match found {
                Some((n, u)) => r.pr_number == n && r.pr_url == u && r.action == SubmitAction::Updated,
                None => created matches Some((n, u)) && r.pr_number == n && r.pr_url == u
                    && r.action == SubmitAction::Created,
            },
        },
{
    match action {
        PlannedBranchAction::Update { branch, pr_number, pr_url, .. } => BranchSubmitResult {
            branch: branch.clone(),
            pr_number: *pr_number,
            pr_url: pr_url.clone(),
            action: SubmitAction::Updated,
        },
        PlannedBranchAction::Create { branch, .. } => match found {
            Some((n, u)) => BranchSubmitResult { branch: branch.clone(), pr_number: n, pr_url: u, action: SubmitAction::Updated },
            None => {
                let (n, u) = created.unwrap();
                BranchSubmitResult { branch: branch.clone(), pr_number: n, pr_url: u, action: SubmitAction::Created }
            },
        },
    }
}

/// The request sent to the forge for one pushed branch.
#[derive(Debug, Clone)]
pub enum PrRequest {
    /// Set the base of an existing pull request.
    Retarget { number: u64, base: String },
    /// Open a pull request of `head` onto `base`.
    Open { title: String, body: String, head: String, base: String, draft: bool },
}

/// The request for a planned branch once it was pushed. A planned update
/// retargets its pull request. A planned creation retargets the pull
/// request `existing` on the forge for the branch, if one was opened since
/// the plan was made, and otherwise opens one with the planned title, body,
/// base and draft flag.
pub fn pr_request(action: &PlannedBranchAction, existing: Option<u64>) -> (r: PrRequest)
    ensures
        match *action {
            PlannedBranchAction::Update { pr_number, base, .. } => r == (PrRequest::Retarget { number: pr_number, base }),
            PlannedBranchAction::Create { branch, title, body, base, draft } => match existing {
                Some(n) => r == (PrRequest::Retarget { number: n, base }),
                None => r == (PrRequest::Open { title, body, head: branch, base, draft }),
            },
        },
{
    match action {
        PlannedBranchAction::Update { pr_number, base, .. } => PrRequest::Retarget { number: *pr_number, base: base.clone() },
        PlannedBranchAction::Create { branch, title, body, base, draft } => match existing {
            Some(n) => PrRequest::Retarget { number: n, base: base.clone() },
            None => PrRequest::Open {
                title: title.clone(),
                body: body.clone(),
                head: branch.clone(),
                base: base.clone(),
                draft: *draft,
            },
        },
    }
}

/// Whether a submitted branch keeps a pull request number it already has:
/// only for a planned update (a pull request found while planning); a
/// creation records the pull request it opened or found.
pub fn keeps_existing_pr(action: &PlannedBranchAction) -> (r: bool)
    ensures
        r == (*action is Update),
{
    match action {
        PlannedBranchAction::Update { .. } => true,
        PlannedBranchAction::Create { .. } => false,
    }
}

// === Stack comments ===

/// The parent of `x` for the stack comment: the parent of the active
/// branch, or else the parent of the merged record.
pub open spec fn any_parent(bs: Seq<StackBranch>, ms: Seq<MergedBranch>, x: Seq<char>) -> Option<Seq<char>> {
    let a = if has_name(bs, x) { opt_str(bs[idx_of(bs, x)].parent) } else { None };
    if a is Some {
        a
    } else if has_merged(ms, x) {
        opt_str(ms[merged_idx(ms, x)].parent)
    } else {
        None
    }
}

/// One step up for the stack comment: the parent, when it is an active or
/// a merged branch.
pub open spec fn up_step(bs: Seq<StackBranch>, ms: Seq<MergedBranch>, x: Seq<char>) -> Option<Seq<char>> {
    match any_parent(bs, ms, x) {
        Some(p) => if has_name(bs, p) || has_merged(ms, p) { Some(p) } else { None },
        None => None,
    }
}

/// The walk up from `current`: `current`, then the ancestors, nearest first.
pub open spec fn walk_at(current: Seq<char>, up: Seq<String>, k: int) -> Seq<char> {
    if k == 0 { current } else { up[k - 1]@ }
}

/// `up` lists the ancestors of `current`, nearest first: each is the step up
/// from the one before; the walk stops where there is no step up, or at the
/// first name met a second time (which is listed).
pub open spec fn is_up_walk(bs: Seq<StackBranch>, ms: Seq<MergedBranch>, current: Seq<char>, up: Seq<String>) -> bool {
    let a = up.len() as int;
    &&& forall|k: int| 0 <= k < a ==> up_step(bs, ms, #[trigger] walk_at(current, up, k)) == Some(walk_at(current, up, k + 1))
    &&& forall|j: int, k: int| 0 <= j < k < a ==> #[trigger] walk_at(current, up, j) != #[trigger] walk_at(current, up, k)
    &&& (exists|j: int| 0 <= j < a && walk_at(current, up, j) == #[trigger] walk_at(current, up, a))
        || up_step(bs, ms, walk_at(current, up, a)) is None
}

/// The names of the active and merged branches, with `current`.
pub open spec fn universe(bs: Seq<StackBranch>, ms: Seq<MergedBranch>, current: Seq<char>) -> Set<Seq<char>> {
    bs.map_values(|b: StackBranch| b.name@).to_set() + ms.map_values(|m: MergedBranch| m.name@).to_set()
        + set![current]
}

/// An active or merged name belongs to the universe.
proof fn lemma_in_universe(bs: Seq<StackBranch>, ms: Seq<MergedBranch>, current: Seq<char>, p: Seq<char>)
    requires
        has_name(bs, p) || has_merged(ms, p),
    ensures
        universe(bs, ms, current).contains(p),
{
    if has_name(bs, p) {
        let i = choose|i: int| 0 <= i < bs.len() && #[trigger] bs[i].name@ == p;
        assert(bs.map_values(|b: StackBranch| b.name@)[i] == p);
    } else {
        let i = choose|i: int| 0 <= i < ms.len() && #[trigger] ms[i].name@ == p;
        assert(ms.map_values(|m: MergedBranch| m.name@)[i] == p);
    }
}

/// The parent for the stack comment of `x`.
fn any_parent_exec(stack: &Stack, x: &String) -> (r: Option<String>)
    ensures
        opt_str(r) == any_parent(stack.branches@, stack.merged@, x@),
{
    let from_active = match stack.find_index(x) {
        Some(i) => clone_opt_string(&stack.branches[i].parent),
        None => None,
    };
    match from_active {
        Some(p) => Some(p),
        None => match stack.find_merged(x) {
            Some(j) => clone_opt_string(&stack.merged[j].parent),
            None => None,
        },
    }
}

/// The ancestors of `current` for the stack comment, nearest first.
#[verifier::rlimit(80)]
pub fn up_walk(stack: &Stack, current: &String) -> (up: Vec<String>)
    ensures
        is_up_walk(stack.branches@, stack.merged@, current@, up@),
{
    let ghost bs = stack.branches@;
    let ghost ms = stack.merged@;
    let ghost u = universe(bs, ms, current@);
    proof {
        vstd::seq_lib::seq_to_set_is_finite(bs.map_values(|b: StackBranch| b.name@));
        vstd::seq_lib::seq_to_set_is_finite(ms.map_values(|m: MergedBranch| m.name@));
    }
    let mut up: Vec<String> = Vec::new();
    let mut cur = current.clone();
    let mut visited: Vec<String> = Vec::new();
    let ghost mut vset: Set<Seq<char>> = Set::empty();
    loop
        invariant_except_break
            bs == stack.branches@,
            ms == stack.merged@,
            u == universe(bs, ms, current@),
            u.finite(),
            vset.finite(),
            vset.subset_of(u),
            vset.len() == up@.len(),
            cur@ == walk_at(current@, up@, up@.len() as int),
            u.contains(cur@),
            forall|x: Seq<char>| vset.contains(x) <==> names(visited@).contains(x),
            forall|k: int| 0 <= k < up@.len() ==> #[trigger] vset.contains(walk_at(current@, up@, k)),
            forall|x: Seq<char>| vset.contains(x) ==> exists|k: int| 0 <= k < up@.len() && walk_at(current@, up@, k) == x,
            forall|k: int| 0 <= k < up@.len() ==> up_step(bs, ms, #[trigger] walk_at(current@, up@, k)) == Some(walk_at(current@, up@, k + 1)),
            forall|j: int, k: int| 0 <= j < k < up@.len() ==> #[trigger] walk_at(current@, up@, j) != #[trigger] walk_at(current@, up@, k),
        ensures
            is_up_walk(bs, ms, current@, up@),
        decreases u.len() - vset.len(),
    {
        if contains_name(&visited, &cur) {
            proof {
                let a = up@.len() as int;
                assert(vset.contains(cur@));
                let k = choose|k: int| 0 <= k < a && walk_at(current@, up@, k) == cur@;
                assert(walk_at(current@, up@, k) == walk_at(current@, up@, a));
            }
            break;
        }
        let ghost a = up@.len() as int;
        proof {
            lemma_names_push(visited@, cur);
            assert(!vset.contains(cur@));
            lemma_len_subset(vset.insert(cur@), u);
            assert forall|j: int| 0 <= j < a implies walk_at(current@, up@, j) != #[trigger] walk_at(current@, up@, a) by {
                assert(vset.contains(walk_at(current@, up@, j)));
            }
        }
        let ghost vis0 = visited@;
        visited.push(cur.clone());
        proof {
            lemma_names_push(vis0, cur);
            vset = vset.insert(cur@);
            assert forall|x: Seq<char>| vset.contains(x) <==> names(visited@).contains(x) by {
                if names(visited@).contains(x) && x != cur@ {
                    let q = choose|q: int| 0 <= q < names(visited@).len() && names(visited@)[q] == x;
                    assert(q < vis0.len());
                    assert(names(vis0)[q] == x);
                }
            }
        }
        let parent = any_parent_exec(stack, &cur);
        match parent {
            None => {
                break;
            },
            Some(p) => {
                if stack.contains(&p) || stack.find_merged(&p).is_some() {
                    let ghost up0 = up@;
                    up.push(p.clone());
                    proof {
                        assert forall|k: int| 0 <= k <= a implies #[trigger] walk_at(current@, up@, k) == walk_at(current@, up0, k) by {}
                        assert(walk_at(current@, up@, a + 1) == p@);
                        lemma_in_universe(bs, ms, current@, p@);
                        assert forall|x: Seq<char>| vset.contains(x) implies exists|k: int| 0 <= k < up@.len() && walk_at(current@, up@, k) == x by {
                            if x == walk_at(current@, up0, a) {
                                assert(walk_at(current@, up@, a) == x);
                            } else {
                                let k = choose|k: int| 0 <= k < a && walk_at(current@, up0, k) == x;
                                assert(walk_at(current@, up@, k) == x);
                            }
                        }
                    }
                    cur = p;
                } else {
                    break;
                }
            },
        }
    }
    up
}


/// `chain` starts with the ancestors of `current`, farthest first, then
/// `current`; each later name is an active branch stacked on an earlier
/// name and met once; every active branch stacked on a name of the chain is
/// in it.
pub open spec fn is_branch_chain(
    bs: Seq<StackBranch>,
    ms: Seq<MergedBranch>,
    current: Seq<char>,
    up: Seq<String>,
    chain: Seq<String>,
) -> bool {
    &&& is_up_walk(bs, ms, current, up)
    &&& chain_head(current, up, chain)
    &&& chain_tail(bs, up.len() as int, chain)
    &&& children_in(bs, chain)
}

/// `chain` starts with `up` reversed, then `current`.
pub open spec fn chain_head(current: Seq<char>, up: Seq<String>, chain: Seq<String>) -> bool {
    let a = up.len() as int;
    &&& chain.len() >= a + 1
    &&& forall|k: int| 0 <= k < a ==> #[trigger] chain[k] == up[a - 1 - k]
    &&& chain[a]@ == current
}

/// Each name after the first `a + 1` is an active branch stacked on an
/// earlier name, and differs from every earlier name.
pub open spec fn chain_tail(bs: Seq<StackBranch>, a: int, chain: Seq<String>) -> bool {
    forall|t: int|
        #![trigger chain[t]]
        a < t < chain.len() ==> has_name(bs, chain[t]@) && (exists|j: int|
            0 <= j < t && parent_of(bs, chain[t]@) == Some(#[trigger] chain[j]@)) && (forall|j: int|
            0 <= j < t ==> #[trigger] chain[j]@ != chain[t]@)
}

/// Every active branch stacked on a name of `chain` is in `chain`.
pub open spec fn children_in(bs: Seq<StackBranch>, chain: Seq<String>) -> bool {
    forall|i: int, j: int|
        0 <= i < bs.len() && 0 <= j < chain.len() && opt_str(bs[i].parent) == Some(#[trigger] chain[j]@)
            ==> names(chain).contains(#[trigger] bs[i].name@)
}

/// The branches after the `a + 1` first ones come breadth first: `src[t]`
/// is the first position of the parent of the `t`-th name, and the names
/// are ordered by that position, then by their place in the stack.
pub open spec fn bfs_order(bs: Seq<StackBranch>, a: int, chain: Seq<String>, src: Seq<int>) -> bool {
    &&& src.len() == chain.len()
    &&& forall|t: int|
        #![trigger src[t]]
        a < t < chain.len() ==> 0 <= src[t] < t && parent_of(bs, chain[t]@) == Some(chain[src[t]]@) && (forall|j: int|
            0 <= j < src[t] ==> #[trigger] chain[j]@ != chain[src[t]]@)
    &&& forall|t: int, u: int|
        #![trigger src[t], src[u]]
        a < t < u < chain.len() ==> src[t] < src[u] || (src[t] == src[u] && idx_of(bs, chain[t]@) < idx_of(
            bs,
            chain[u]@,
        ))
}

/// With no merged records, a step up is a step to the parent, taken when
/// the parent is a branch of the stack.
proof fn lemma_up_step_active(bs: Seq<StackBranch>, ms: Seq<MergedBranch>, x: Seq<char>)
    requires
        ms.len() == 0,
    ensures
        up_step(bs, ms, x) == match parent_of(bs, x) {
            Some(p) => if has_name(bs, p) { Some(p) } else { None },
            None => None,
        },
{
    assert(!has_merged(ms, x));
    if let Some(p) = any_parent(bs, ms, x) {
        assert(!has_merged(ms, p));
    }
}

/// Following parents from the `j`-th name of an up walk for `m - j` steps
/// reaches the `m`-th.
proof fn lemma_walk_anc(bs: Seq<StackBranch>, ms: Seq<MergedBranch>, current: Seq<char>, up: Seq<String>, j: int, m: int)
    requires
        ms.len() == 0,
        is_up_walk(bs, ms, current, up),
        0 <= j <= m <= up.len(),
    ensures
        anc(bs, walk_at(current, up, j), (m - j) as nat) == Some(walk_at(current, up, m)),
    decreases m - j,
{
    if j < m {
        lemma_walk_anc(bs, ms, current, up, j + 1, m);
        let x = walk_at(current, up, j);
        assert(up_step(bs, ms, x) == Some(walk_at(current, up, j + 1)));
        lemma_up_step_active(bs, ms, x);
        assert(parent_of(bs, x) == Some(walk_at(current, up, j + 1)));
        assert(((m - j) as nat - 1) as nat == (m - (j + 1)) as nat);
    }
}

/// A branch stacked on `r` or on a descendant of `r` is a descendant of `r`.
proof fn lemma_child_desc(bs: Seq<StackBranch>, x: Seq<char>, y: Seq<char>, r: Seq<char>)
    requires
        has_name(bs, x),
        parent_of(bs, x) == Some(y),
        y == r || is_desc(bs, y, r),
    ensures
        is_desc(bs, x, r),
{
    if y == r {
        assert(anc(bs, y, 0) == Some(y));
        assert(reaches(bs, x, r, 1));
    } else {
        let k = choose|k: nat| #[trigger] reaches(bs, y, r, k);
        assert((k + 1 - 1) as nat == k);
        assert(reaches(bs, x, r, k + 1));
    }
}

/// Every descendant of the first name of a branch chain is in the chain.
proof fn lemma_desc_in_chain(bs: Seq<StackBranch>, chain: Seq<String>, d: Seq<char>, k: nat)
    requires
        names_unique(bs),
        chain.len() > 0,
        children_in(bs, chain),
        has_name(bs, d),
        reaches(bs, d, chain[0]@, k),
    ensures
        names(chain).contains(d),
    decreases k,
{
    let i = choose|i: int| 0 <= i < bs.len() && #[trigger] bs[i].name@ == d;
    lemma_idx_of_unique(bs, i);
    let p = parent_of(bs, d)->0;
    assert(opt_str(bs[i].parent) == Some(p));
    if k == 1 {
        assert(anc(bs, p, 0) == Some(p));
        assert(p == chain[0]@);
        assert(names(chain).contains(bs[i].name@));
    } else {
        assert(reaches(bs, p, chain[0]@, (k - 1) as nat));
        assert(parent_of(bs, p) is Some);
        lemma_desc_in_chain(bs, chain, p, (k - 1) as nat);
        let j = choose|j: int| 0 <= j < names(chain).len() && names(chain)[j] == p;
        assert(chain[j]@ == p);
        assert(names(chain).contains(bs[i].name@));
    }
}

/// Each name of a chain after the first descends from the first, when the
/// first `a + 1` names reach the first by following parents and each later
/// one is stacked on an earlier one.
proof fn lemma_chain_in_tree(bs: Seq<StackBranch>, a: int, chain: Seq<String>, x: int)
    requires
        0 <= a < chain.len(),
        forall|i: int| 0 <= i <= a ==> has_name(bs, #[trigger] chain[i]@)
            && anc(bs, chain[i]@, i as nat) == Some(chain[0]@),
        chain_tail(bs, a, chain),
        0 < x < chain.len(),
    ensures
        is_desc(bs, chain[x]@, chain[0]@),
    decreases x,
{
    if x <= a {
        assert(has_name(bs, chain[x]@));
        assert(reaches(bs, chain[x]@, chain[0]@, x as nat));
    } else {
        let j = choose|j: int| 0 <= j < x && parent_of(bs, chain[x]@) == Some(#[trigger] chain[j]@);
        if j > 0 {
            lemma_chain_in_tree(bs, a, chain, j);
        }
        lemma_child_desc(bs, chain[x]@, chain[j]@, chain[0]@);
    }
}

/// The chain that `build_branch_chain` returns for a branch of an acyclic
/// stack with no merged records: first the ancestors of the branch within
/// the stack, the one whose parent is not in the stack first, each the
/// parent of the next, then the branch itself; then its descendants, each
/// after its parent. No name occurs twice, and the names are exactly the
/// first one and its descendants in the stack.
pub proof fn branch_chain_law(
    bs: Seq<StackBranch>,
    ms: Seq<MergedBranch>,
    current: Seq<char>,
    up: Seq<String>,
    chain: Seq<String>,
)
    requires
        names_unique(bs),
        acyclic(bs),
        ms.len() == 0,
        has_name(bs, current),
        is_branch_chain(bs, ms, current, up, chain),
    ensures
        chain[up.len() as int]@ == current,
        forall|i: int| 0 <= i <= up.len() ==> has_name(bs, #[trigger] chain[i]@)
            && anc(bs, current, (up.len() - i) as nat) == Some(chain[i]@),
        forall|i: int| 0 <= i < up.len() ==> parent_of(bs, #[trigger] chain[i + 1]@) == Some(chain[i]@),
        match parent_of(bs, chain[0]@) {
            Some(p) => !has_name(bs, p),
            None => true,
        },
        forall|t: int| up.len() < t < chain.len() ==> exists|j: int| 0 <= j < t
            && parent_of(bs, #[trigger] chain[t]@) == Some(chain[j]@),
        forall|i: int, j: int| 0 <= i < j < chain.len() ==> #[trigger] chain[i]@ != #[trigger] chain[j]@,
        forall|d: Seq<char>| names(chain).contains(d) <==> (d == chain[0]@ || is_desc(bs, d, chain[0]@)),
{
    let a = up.len() as int;
    assert forall|i: int| 0 <= i <= a implies chain[i]@ == walk_at(current, up, a - i) by {
        if i < a {
            assert(chain[i] == up[a - 1 - i]);
        }
    }
    // The walk does not come back to a name met before.
    assert forall|j: int| 0 <= j < a implies walk_at(current, up, j) != #[trigger] walk_at(current, up, a) by {
        lemma_walk_anc(bs, ms, current, up, j, a);
        if walk_at(current, up, j) == walk_at(current, up, a) {
            assert(reaches(bs, walk_at(current, up, j), walk_at(current, up, j), (a - j) as nat));
        }
    }
    assert(up_step(bs, ms, walk_at(current, up, a)) is None);
    lemma_up_step_active(bs, ms, walk_at(current, up, a));
    assert forall|i: int| 0 <= i <= a implies has_name(bs, #[trigger] chain[i]@)
        && anc(bs, current, (a - i) as nat) == Some(chain[i]@) by {
        assert(chain[i]@ == walk_at(current, up, a - i));
        lemma_walk_anc(bs, ms, current, up, 0, a - i);
        if i < a {
            let y = walk_at(current, up, a - i - 1);
            assert(up_step(bs, ms, y) == Some(walk_at(current, up, a - i)));
            lemma_up_step_active(bs, ms, y);
        }
    }
    assert forall|i: int| 0 <= i < a implies parent_of(bs, #[trigger] chain[i + 1]@) == Some(chain[i]@) by {
        assert(chain[i]@ == walk_at(current, up, a - i));
        assert(chain[i + 1]@ == walk_at(current, up, a - i - 1));
        let y = walk_at(current, up, a - i - 1);
        assert(up_step(bs, ms, y) == Some(walk_at(current, up, a - i)));
        lemma_up_step_active(bs, ms, y);
    }
    assert forall|i: int, j: int| 0 <= i < j < chain.len() implies #[trigger] chain[i]@ != #[trigger] chain[j]@ by {
        if j > a {
            assert(chain[j]@ != chain[i]@);
        } else {
            assert(chain[i]@ == walk_at(current, up, a - i));
            assert(chain[j]@ == walk_at(current, up, a - j));
            if i > 0 {
                assert(walk_at(current, up, a - j) != walk_at(current, up, a - i));
            }
        }
    }
    assert forall|i: int| 0 <= i <= a implies has_name(bs, #[trigger] chain[i]@)
        && anc(bs, chain[i]@, i as nat) == Some(chain[0]@) by {
        assert(anc(bs, current, (a - i) as nat) == Some(chain[i]@));
        assert(anc(bs, current, (a - 0) as nat) == Some(chain[0]@));
        lemma_anc_add(bs, current, (a - i) as nat, i as nat);
        assert((a - i) as nat + i as nat == (a - 0) as nat);
    }
    assert forall|d: Seq<char>| names(chain).contains(d) <==> (d == chain[0]@ || is_desc(bs, d, chain[0]@)) by {
        if names(chain).contains(d) {
            let x = choose|x: int| 0 <= x < names(chain).len() && names(chain)[x] == d;
            assert(chain[x]@ == d);
            if x > 0 {
                lemma_chain_in_tree(bs, a, chain, x);
            }
        }
        if d == chain[0]@ {
            assert(names(chain)[0] == d);
        } else if is_desc(bs, d, chain[0]@) {
            let k = choose|k: nat| #[trigger] reaches(bs, d, chain[0]@, k);
            lemma_desc_in_chain(bs, chain, d, k);
        }
    }
}

/// The chain of branches shown in the stack comment of `current_name`.
pub fn build_branch_chain(stack: &Stack, current_name: &String) -> (chain: Vec<String>)
    requires
        stack.wf(),
    ensures
        exists|up: Seq<String>| is_branch_chain(stack.branches@, stack.merged@, current_name@, up, chain@),
        exists|up: Seq<String>, src: Seq<int>|
            is_branch_chain(stack.branches@, stack.merged@, current_name@, up, chain@) && bfs_order(
                stack.branches@,
                up.len() as int,
                chain@,
                src,
            ),
{
    let ghost bs = stack.branches@;
    let ghost ms = stack.merged@;
    let up = up_walk(stack, current_name);
    let a = up.len();
    let mut chain: Vec<String> = Vec::new();
    let mut k: usize = 0;
    while k < a
        invariant
            a == up@.len(),
            k <= a,
            chain@.len() == k,
            forall|x: int| 0 <= x < k ==> #[trigger] chain@[x] == up@[a - 1 - x],
        decreases a - k,
    {
        chain.push(up[a - 1 - k].clone());
        k += 1;
    }
    chain.push(current_name.clone());
    let n = stack.branches.len();
    let ghost mut pushed: Set<int> = Set::empty();
    let ghost mut src: Seq<int> = Seq::new(chain@.len(), |k: int| 0int);
    proof {
        lemma_int_range(0, n as int);
    }
    let mut i: usize = 0;
    while i < chain.len()
        invariant
            stack.wf(),
            bs == stack.branches@,
            ms == stack.merged@,
            n == bs.len(),
            a == up@.len(),
            is_up_walk(bs, ms, current_name@, up@),
            chain@.len() >= a + 1,
            forall|x: int| 0 <= x < a ==> #[trigger] chain@[x] == up@[a - 1 - x],
            chain@[a as int]@ == current_name@,
            i <= chain@.len(),
            pushed.finite(),
            pushed.subset_of(set_int_range(0, n as int)),
            set_int_range(0, n as int).finite(),
            set_int_range(0, n as int).len() == n,
            chain@.len() == a + 1 + pushed.len(),
            forall|x: int| #[trigger] pushed.contains(x) ==> names(chain@).contains(bs[x].name@),
            forall|t: int|
                #![trigger chain@[t]]
                a < t < chain@.len() ==> has_name(bs, chain@[t]@) && (exists|j: int|
                    0 <= j < t && parent_of(bs, chain@[t]@) == Some(#[trigger] chain@[j]@)) && (forall|j: int|
                    0 <= j < t ==> #[trigger] chain@[j]@ != chain@[t]@),
            forall|x: int, j: int|
                0 <= x < n && 0 <= j < i && opt_str(bs[x].parent) == Some(#[trigger] chain@[j]@)
                    ==> names(chain@).contains(#[trigger] bs[x].name@),
            src.len() == chain@.len(),
            forall|t: int|
                #![trigger src[t]]
                a < t < chain@.len() ==> 0 <= src[t] < i && src[t] < t && parent_of(bs, chain@[t]@) == Some(
                    chain@[src[t]]@,
                ) && (forall|j: int| 0 <= j < src[t] ==> #[trigger] chain@[j]@ != chain@[src[t]]@),
            forall|t: int, u: int|
                #![trigger src[t], src[u]]
                a < t < u < chain@.len() ==> src[t] < src[u] || (src[t] == src[u] && idx_of(bs, chain@[t]@) < idx_of(
                    bs,
                    chain@[u]@,
                )),
        decreases a + 1 + n - i,
    {
        proof {
            lemma_len_subset(pushed, set_int_range(0, n as int));
        }
        let parent_name = chain[i].clone();
        let mut x: usize = 0;
        while x < n
            invariant
                stack.wf(),
                bs == stack.branches@,
                n == bs.len(),
                a == up@.len(),
                chain@.len() >= a + 1,
                forall|y: int| 0 <= y < a ==> #[trigger] chain@[y] == up@[a - 1 - y],
                chain@[a as int]@ == current_name@,
                i < chain@.len(),
                chain@[i as int]@ == parent_name@,
                x <= n,
                pushed.finite(),
                pushed.subset_of(set_int_range(0, n as int)),
                chain@.len() == a + 1 + pushed.len(),
                forall|y: int| #[trigger] pushed.contains(y) ==> names(chain@).contains(bs[y].name@),
                forall|t: int|
                    #![trigger chain@[t]]
                    a < t < chain@.len() ==> has_name(bs, chain@[t]@) && (exists|j: int|
                        0 <= j < t && parent_of(bs, chain@[t]@) == Some(#[trigger] chain@[j]@)) && (forall|j: int|
                        0 <= j < t ==> #[trigger] chain@[j]@ != chain@[t]@),
                forall|y: int, j: int|
                    0 <= y < n && 0 <= j < i && opt_str(bs[y].parent) == Some(#[trigger] chain@[j]@)
                        ==> names(chain@).contains(#[trigger] bs[y].name@),
                forall|y: int|
                    0 <= y < x && opt_str(bs[y].parent) == Some(parent_name@)
                        ==> names(chain@).contains(#[trigger] bs[y].name@),
                src.len() == chain@.len(),
                forall|t: int|
                    #![trigger src[t]]
                    a < t < chain@.len() ==> 0 <= src[t] <= i && src[t] < t && parent_of(bs, chain@[t]@) == Some(
                        chain@[src[t]]@,
                    ) && (forall|j: int| 0 <= j < src[t] ==> #[trigger] chain@[j]@ != chain@[src[t]]@),
                forall|t: int|
                    #![trigger src[t]]
                    a < t < chain@.len() && src[t] == i ==> idx_of(bs, chain@[t]@) < x,
                forall|t: int, u: int|
                    #![trigger src[t], src[u]]
                    a < t < u < chain@.len() ==> src[t] < src[u] || (src[t] == src[u] && idx_of(bs, chain@[t]@)
                        < idx_of(bs, chain@[u]@)),
            decreases n - x,
        {
            let b = &stack.branches[x];
            let child = match &b.parent {
                Some(p) => *p == parent_name,
                None => false,
            };
            if child && !contains_name(&chain, &b.name) {
                let ghost c0 = chain@;
                proof {
                    lemma_idx_of_unique(bs, x as int);
                    lemma_names_push(c0, b.name);
                    assert(!pushed.contains(x as int));
                    assert(bs[x as int].name@ == b.name@);
                    assert(has_name(bs, b.name@));
                }
                proof {
                    assert forall|j: int| 0 <= j < i implies #[trigger] c0[j]@ != c0[i as int]@ by {
                        if c0[j]@ == c0[i as int]@ {
                            assert(opt_str(bs[x as int].parent) == Some(c0[j]@));
                            assert(names(c0).contains(bs[x as int].name@));
                        }
                    }
                }
                let ghost s0 = src;
                chain.push(b.name.clone());
                proof {
                    src = src.push(i as int);
                    let t1 = c0.len() as int;
                    assert(idx_of(bs, chain@[t1]@) == x);
                    assert forall|t: int|
                        #![trigger src[t]]
                        a < t < chain@.len() implies 0 <= src[t] <= i && src[t] < t && parent_of(bs, chain@[t]@) == Some(
                            chain@[src[t]]@,
                        ) && (forall|j: int| 0 <= j < src[t] ==> #[trigger] chain@[j]@ != chain@[src[t]]@) by {
                        if t < t1 {
                            assert(chain@[t] == c0[t] && src[t] == s0[t]);
                            assert(chain@[s0[t]] == c0[s0[t]]);
                            assert forall|j: int| 0 <= j < src[t] implies #[trigger] chain@[j]@ != chain@[src[t]]@ by {
                                assert(chain@[j] == c0[j]);
                            }
                        } else {
                            assert(chain@[i as int] == c0[i as int]);
                            assert forall|j: int| 0 <= j < src[t] implies #[trigger] chain@[j]@ != chain@[src[t]]@ by {
                                assert(chain@[j] == c0[j]);
                            }
                        }
                    }
                    assert forall|t: int|
                        #![trigger src[t]]
                        a < t < chain@.len() && src[t] == i implies idx_of(bs, chain@[t]@) < x + 1 by {
                        if t < t1 {
                            assert(chain@[t] == c0[t] && src[t] == s0[t]);
                        }
                    }
                    assert forall|t: int, u: int|
                        #![trigger src[t], src[u]]
                        a < t < u < chain@.len() implies src[t] < src[u] || (src[t] == src[u] && idx_of(bs, chain@[t]@)
                            < idx_of(bs, chain@[u]@)) by {
                        assert(chain@[t] == c0[t] && src[t] == s0[t]);
                        if u < t1 {
                            assert(chain@[u] == c0[u] && src[u] == s0[u]);
                        }
                    }
                }
                proof {
                    pushed = pushed.insert(x as int);
                    let t0 = c0.len() as int;
                    assert(chain@[t0]@ == b.name@);
                    assert(parent_of(bs, chain@[t0]@) == Some(chain@[i as int]@));
                    assert forall|j: int| 0 <= j < t0 implies #[trigger] chain@[j]@ != chain@[t0]@ by {
                        assert(chain@[j] == c0[j]);
                        if c0[j]@ == b.name@ {
                            assert(names(c0)[j] == b.name@);
                        }
                    }
                    assert forall|t: int|
                        #![trigger chain@[t]]
                        a < t < chain@.len() implies has_name(bs, chain@[t]@) && (exists|j: int|
                            0 <= j < t && parent_of(bs, chain@[t]@) == Some(#[trigger] chain@[j]@)) && (forall|j: int|
                            0 <= j < t ==> #[trigger] chain@[j]@ != chain@[t]@) by {
                        if t < t0 {
                            assert(chain@[t] == c0[t]);
                            let j = choose|j: int| 0 <= j < t && parent_of(bs, c0[t]@) == Some(#[trigger] c0[j]@);
                            assert(chain@[j] == c0[j]);
                            assert forall|j2: int| 0 <= j2 < t implies #[trigger] chain@[j2]@ != chain@[t]@ by {
                                assert(chain@[j2] == c0[j2]);
                            }
                        }
                    }
                    assert forall|y: int| #[trigger] pushed.contains(y) implies names(chain@).contains(bs[y].name@) by {}
                }
            }
            x += 1;
        }
        i += 1;
    }
    proof {
        assert(is_branch_chain(bs, ms, current_name@, up@, chain@));
        assert(bfs_order(bs, a as int, chain@, src));
    }
    chain
}


/// The line of the stack comment for `name`; `current` is the branch whose
/// pull request carries the comment.
#[verifier::opaque]
pub open spec fn comment_line(bs: Seq<StackBranch>, ms: Seq<MergedBranch>, name: Seq<char>, current: Seq<char>) -> Seq<char> {
    let pointer = if name == current { " 👈"@ } else { ""@ };
    if has_merged(ms, name) {
        "* ~~**#"@ + decimal(ms[merged_idx(ms, name)].pr as nat) + "**~~ ✓"@ + pointer + "\n"@
    } else if has_name(bs, name) {
        match bs[idx_of(bs, name)].pr {
            Some(n) => "* **#"@ + decimal(n as nat) + "**"@ + pointer + "\n"@,
            None => "* *(pending)* `"@ + name + "`"@ + pointer + "\n"@,
        }
    } else {
        seq![]
    }
}

/// The lines for the last `m` names of the chain, last name first.
pub open spec fn comment_lines(bs: Seq<StackBranch>, ms: Seq<MergedBranch>, chain: Seq<String>, current: Seq<char>, m: int) -> Seq<char>
    decreases m,
{
    if m <= 0 {
        seq![]
    } else {
        comment_lines(bs, ms, chain, current, m - 1) + comment_line(bs, ms, chain[chain.len() - m]@, current)
    }
}

/// The first branch whose pull request is `pr`, or -1.
pub open spec fn idx_with_pr(bs: Seq<StackBranch>, pr: u64) -> int {
    if exists|i: int| 0 <= i < bs.len() && #[trigger] bs[i].pr == Some(pr) {
        choose|i: int|
            0 <= i < bs.len() && bs[i].pr == Some(pr) && (forall|j: int| 0 <= j < i ==> #[trigger] bs[j].pr != Some(pr))
    } else {
        -1
    }
}

/// The base shown at the bottom of the stack comment, from a walk up the
/// active branches `w` that starts at the branch carrying the comment: each
/// name is the active parent of the one before; the walk ends at the first
/// name met twice (base branch shown), at a branch without parent (base
/// branch shown) or at a branch whose parent is not active (that parent
/// shown).
pub open spec fn is_base_walk(bs: Seq<StackBranch>, w: Seq<Seq<char>>, base: Seq<char>, default_branch: Seq<char>) -> bool {
    let a = w.len() - 1;
    &&& w.len() >= 1
    &&& forall|k: int| 0 <= k < a ==> parent_of(bs, #[trigger] w[k]) == Some(w[k + 1]) && has_name(bs, w[k + 1])
    &&& forall|j: int, k: int| 0 <= j < k < a ==> #[trigger] w[j] != #[trigger] w[k]
    &&& has_name(bs, w[a])
    &&& if exists|j: int| 0 <= j < a && #[trigger] w[j] == w[a] {
        base == default_branch
    } else {
        match parent_of(bs, w[a]) {
            None => base == default_branch,
            Some(p) => !has_name(bs, p) && base == p,
        }
    }
}

/// The base shown at the bottom of the stack comment of the branch at
/// position `start`.
pub fn comment_base(stack: &Stack, start: usize, default_branch: &String) -> (r: String)
    requires
        stack.wf(),
        start < stack.branches@.len(),
    ensures
        exists|w: Seq<Seq<char>>| w[0] == stack.branches@[start as int].name@ && is_base_walk(stack.branches@, w, r@, default_branch@),
{
    let ghost bs = stack.branches@;
    let n = stack.branches.len();
    let ghost u = bs.map_values(|b: StackBranch| b.name@).to_set();
    proof {
        vstd::seq_lib::seq_to_set_is_finite(bs.map_values(|b: StackBranch| b.name@));
        assert(bs.map_values(|b: StackBranch| b.name@)[start as int] == bs[start as int].name@);
        lemma_idx_of_unique(bs, start as int);
    }
    let mut cur = stack.branches[start].name.clone();
    let mut visited: Vec<String> = Vec::new();
    let ghost mut w: Seq<Seq<char>> = seq![cur@];
    let ghost mut vset: Set<Seq<char>> = Set::empty();
    loop
        invariant_except_break
            stack.wf(),
            bs == stack.branches@,
            u == bs.map_values(|b: StackBranch| b.name@).to_set(),
            u.finite(),
            vset.finite(),
            vset.subset_of(u),
            w.len() == vset.len() + 1,
            w[0] == bs[start as int].name@,
            w[w.len() - 1] == cur@,
            has_name(bs, cur@),
            u.contains(cur@),
            forall|x: Seq<char>| vset.contains(x) <==> names(visited@).contains(x),
            forall|k: int| 0 <= k < w.len() - 1 ==> #[trigger] vset.contains(w[k]),
            forall|x: Seq<char>| vset.contains(x) ==> exists|k: int| 0 <= k < w.len() - 1 && w[k] == x,
            forall|k: int| 0 <= k < w.len() - 1 ==> parent_of(bs, #[trigger] w[k]) == Some(w[k + 1]) && has_name(bs, w[k + 1]),
            forall|j: int, k: int| 0 <= j < k < w.len() - 1 ==> #[trigger] w[j] != #[trigger] w[k],
        ensures
            w[0] == bs[start as int].name@,
            is_base_walk(bs, w, cur@, default_branch@),
        decreases u.len() - vset.len(),
    {
        let ghost a = w.len() - 1;
        if contains_name(&visited, &cur) {
            proof {
                assert(vset.contains(cur@));
                let k = choose|k: int| 0 <= k < a && w[k] == cur@;
                assert(w[k] == w[a]);
            }
            cur = default_branch.clone();
            break;
        }
        proof {
            assert(!vset.contains(cur@));
            lemma_len_subset(vset.insert(cur@), u);
            assert forall|j: int| 0 <= j < a implies #[trigger] w[j] != w[a] by {
                assert(vset.contains(w[j]));
            }
        }
        let ghost vis0 = visited@;
        visited.push(cur.clone());
        proof {
            lemma_names_push(vis0, cur);
            vset = vset.insert(cur@);
            assert forall|x: Seq<char>| vset.contains(x) <==> names(visited@).contains(x) by {
                if names(visited@).contains(x) && x != cur@ {
                    let q = choose|q: int| 0 <= q < names(visited@).len() && names(visited@)[q] == x;
                    assert(q < vis0.len());
                    assert(names(vis0)[q] == x);
                }
            }
        }
        match stack.parent_of(&cur) {
            None => {
                cur = default_branch.clone();
                break;
            },
            Some(p) => {
                if stack.contains(&p) {
                    proof {
                        let w0 = w;
                        w = w.push(p@);
                        let i = choose|i: int| 0 <= i < bs.len() && #[trigger] bs[i].name@ == p@;
                        assert(bs.map_values(|b: StackBranch| b.name@)[i] == p@);
                        assert forall|x: Seq<char>| vset.contains(x) implies exists|k: int| 0 <= k < w.len() - 1 && w[k] == x by {
                            if x == w0[a] {
                                assert(w[a] == x);
                            } else {
                                let k = choose|k: int| 0 <= k < a && w0[k] == x;
                                assert(w[k] == x);
                            }
                        }
                        assert forall|k: int| 0 <= k < w.len() - 1 implies #[trigger] vset.contains(w[k]) by {
                            if k < a {
                                assert(w[k] == w0[k]);
                            }
                        }
                        assert forall|k: int| 0 <= k < w.len() - 1 implies parent_of(bs, #[trigger] w[k]) == Some(w[k + 1]) && has_name(bs, w[k + 1]) by {
                            if k < a {
                                assert(w[k] == w0[k] && w[k + 1] == w0[k + 1]);
                            }
                        }
                        assert forall|j: int, k: int| 0 <= j < k < w.len() - 1 implies #[trigger] w[j] != #[trigger] w[k] by {
                            assert(w[j] == w0[j] && w[k] == w0[k]);
                        }
                    }
                    cur = p;
                } else {
                    cur = p;
                    break;
                }
            },
        }
    }
    cur
}


/// The first branch whose pull request is `pr`.
pub fn find_by_pr(stack: &Stack, pr: u64) -> (r: Option<usize>)
    ensures
        match r {
            Some(i) => i == idx_with_pr(stack.branches@, pr) && i < stack.branches@.len(),
            None => idx_with_pr(stack.branches@, pr) == -1,
        },
{
    let n = stack.branches.len();
    let mut i: usize = 0;
    while i < n
        invariant
            n == stack.branches@.len(),
            i <= n,
            forall|j: int| 0 <= j < i ==> #[trigger] stack.branches@[j].pr != Some(pr),
        decreases n - i,
    {
        if stack.branches[i].pr == Some(pr) {
            proof {
                let bs = stack.branches@;
                let c = idx_with_pr(bs, pr);
                assert(bs[i as int].pr == Some(pr));
                if c > i {
                    assert(bs[i as int].pr == Some(pr));
                }
            }
            return Some(i);
        }
        i += 1;
    }
    None
}

/// The pointer after the line of the branch carrying the comment.
fn pointer_text(is_current: bool) -> (r: &'static str)
    ensures
        r@ == if is_current { " 👈"@ } else { ""@ },
{
    if is_current { " 👈" } else { "" }
}

/// The line of the stack comment for `name`.
#[verifier::rlimit(30)]
fn push_comment_line(out: &mut Vec<char>, stack: &Stack, name: &String, current: &String)
    ensures
        final(out)@ == old(out)@ + comment_line(stack.branches@, stack.merged@, name@, current@),
{
    reveal(comment_line);
    let ptr = pointer_text(*name == *current);
    let mut line: Vec<char> = Vec::new();
    match stack.find_merged(name) {
        Some(j) => {
            push_str(&mut line, "* ~~**#");
            let d = decimal_chars(stack.merged[j].pr);
            push_all(&mut line, &d);
            push_str(&mut line, "**~~ ✓");
            push_str(&mut line, ptr);
            push_str(&mut line, "\n");
            assert(line@ =~= "* ~~**#"@ + d@ + "**~~ ✓"@ + ptr@ + "\n"@);
        },
        None => match stack.find_index(name) {
            Some(i) => match stack.branches[i].pr {
                Some(num) => {
                    push_str(&mut line, "* **#");
                    let d = decimal_chars(num);
                    push_all(&mut line, &d);
                    push_str(&mut line, "**");
                    push_str(&mut line, ptr);
                    push_str(&mut line, "\n");
                    assert(line@ =~= "* **#"@ + d@ + "**"@ + ptr@ + "\n"@);
                },
                None => {
                    push_str(&mut line, "* *(pending)* `");
                    push_string(&mut line, name);
                    push_str(&mut line, "`");
                    push_str(&mut line, ptr);
                    push_str(&mut line, "\n");
                    assert(line@ =~= "* *(pending)* `"@ + name@ + "`"@ + ptr@ + "\n"@);
                },
            },
            None => {
                assert(line@ =~= Seq::<char>::empty());
            },
        },
    }
    assert(line@ == comment_line(stack.branches@, stack.merged@, name@, current@));
    push_all(out, &line);
}

/// The text at the end of every stack comment.
pub open spec fn comment_footer() -> Seq<char> {
    "\n---\n*Managed by [rung](https://github.com/auswm85/rung)*"@
}

/// The comment body `b` is rung's stack comment: it holds the marker.
pub open spec fn is_stack_comment(b: Option<String>) -> bool {
    b matches Some(t) && contains_chars(t@, STACK_COMMENT_MARKER@)
}

/// The position of rung's stack comment among the bodies of the comments of
/// a pull request: the first body holding the marker, or `None` when no
/// body holds it (a comment without a body holds none).
pub fn find_stack_comment(bodies: &Vec<Option<String>>) -> (r: Option<usize>)
    ensures
        match r {
            Some(i) => i < bodies@.len() && is_stack_comment(bodies@[i as int])
                && forall|j: int| 0 <= j < i ==> !is_stack_comment(#[trigger] bodies@[j]),
            None => forall|j: int| 0 <= j < bodies@.len() ==> !is_stack_comment(#[trigger] bodies@[j]),
        },
{
    let mut i: usize = 0;
    while i < bodies.len()
        invariant
            i <= bodies@.len(),
            forall|j: int| 0 <= j < i ==> !is_stack_comment(#[trigger] bodies@[j]),
        decreases bodies@.len() - i,
    {
        match &bodies[i] {
            Some(t) => {
                if has_substring(t.as_str(), STACK_COMMENT_MARKER) {
                    return Some(i);
                }
            },
            None => {},
        }
        i += 1;
    }
    None
}

/// The stack comment `r` for the pull request `current_pr`, given the chain
/// of branches around the branch carrying it and the base shown.
pub open spec fn comment_ok(
    bs: Seq<StackBranch>,
    ms: Seq<MergedBranch>,
    current_pr: u64,
    default_branch: Seq<char>,
    up: Seq<String>,
    chain: Seq<String>,
    base: Seq<char>,
    r: Seq<char>,
) -> bool {
    let i = idx_with_pr(bs, current_pr);
    let current = if i >= 0 { bs[i].name@ } else { ""@ };
    &&& is_branch_chain(bs, ms, current, up, chain)
    &&& if i >= 0 {
        exists|w: Seq<Seq<char>>| w[0] == bs[i].name@ && #[trigger] is_base_walk(bs, w, base, default_branch)
    } else {
        base == default_branch
    }
    &&& r == "<!-- rung-stack -->"@ + "\n"@ + comment_lines(bs, ms, chain, current, chain.len() as int) + "* `"@
        + base + "`\n"@ + comment_footer()
}

/// The stack comment for the pull request `current_pr`: the marker, one
/// line per branch of the chain around the branch carrying it (descendants
/// first, the base last), and a footer.
pub fn generate_stack_comment(stack: &Stack, current_pr: u64, default_branch: &String) -> (r: String)
    requires
        stack.wf(),
    ensures
        exists|up: Seq<String>, chain: Seq<String>, base: Seq<char>|
            #[trigger] comment_ok(stack.branches@, stack.merged@, current_pr, default_branch@, up, chain, base, r@),
{
    let ghost bs = stack.branches@;
    let ghost ms = stack.merged@;
    let found = find_by_pr(stack, current_pr);
    let current = match found {
        Some(i) => stack.branches[i].name.clone(),
        None => String::from_str(""),
    };
    let chain = build_branch_chain(stack, &current);
    let mut out: Vec<char> = Vec::new();
    push_str(&mut out, STACK_COMMENT_MARKER);
    push_str(&mut out, "\n");
    let ghost head = out@;
    let m = chain.len();
    let mut k: usize = 0;
    while k < m
        invariant
            m == chain@.len(),
            k <= m,
            out@ == head + comment_lines(bs, ms, chain@, current@, k as int),
            bs == stack.branches@,
            ms == stack.merged@,
        decreases m - k,
    {
        push_comment_line(&mut out, stack, &chain[m - 1 - k], &current);
        k += 1;
    }
    let base = match found {
        Some(i) => comment_base(stack, i, default_branch),
        None => default_branch.clone(),
    };
    push_str(&mut out, "* `");
    push_string(&mut out, &base);
    push_str(&mut out, "`\n");
    push_str(&mut out, "\n---\n*Managed by [rung](https://github.com/auswm85/rung)*");
    proof {
        let i = idx_with_pr(bs, current_pr);
        let cur = if i >= 0 { bs[i].name@ } else { ""@ };
        assert(current@ == cur);
        let up = choose|up: Seq<String>| is_branch_chain(bs, ms, current@, up, chain@);
        assert(out@ =~= "<!-- rung-stack -->"@ + "\n"@ + comment_lines(bs, ms, chain@, cur, chain@.len() as int)
            + "* `"@ + base@ + "`\n"@ + comment_footer());
        assert(is_branch_chain(bs, ms, cur, up, chain@));
        assert(comment_ok(bs, ms, current_pr, default_branch@, up, chain@, base@, out@));
    }
    string_from_chars(&out)
}

/// The line of the stack comment for the active branch `name`: its pull
/// request number, or "pending" with its name; with the pointer when it
/// carries the comment.
pub open spec fn active_line(bs: Seq<StackBranch>, name: Seq<char>, pointed: bool) -> Seq<char> {
    let pointer = if pointed { " 👈"@ } else { ""@ };
    match bs[idx_of(bs, name)].pr {
        Some(n) => "* **#"@ + decimal(n as nat) + "**"@ + pointer + "\n"@,
        None => "* *(pending)* `"@ + name + "`"@ + pointer + "\n"@,
    }
}

/// The active lines of the names of `chain`, last name first, the line of
/// `current` with the pointer.
pub open spec fn active_lines(bs: Seq<StackBranch>, chain: Seq<String>, current: Seq<char>) -> Seq<Seq<char>> {
    Seq::new(
        chain.len(),
        |k: int| active_line(bs, chain[chain.len() - 1 - k]@, chain[chain.len() - 1 - k]@ == current),
    )
}

/// With no merged records, the line of an active branch is its active line.
proof fn lemma_comment_line_active(bs: Seq<StackBranch>, ms: Seq<MergedBranch>, name: Seq<char>, current: Seq<char>)
    requires
        ms.len() == 0,
        has_name(bs, name),
    ensures
        comment_line(bs, ms, name, current) == active_line(bs, name, name == current),
{
    reveal(comment_line);
    assert(!has_merged(ms, name));
}

/// The lines for the last `m` names of a chain of active branches, with no
/// merged records, are the first `m` active lines.
#[verifier::spinoff_prover]
#[verifier::rlimit(30)]
proof fn lemma_comment_lines_active(
    bs: Seq<StackBranch>,
    ms: Seq<MergedBranch>,
    chain: Seq<String>,
    current: Seq<char>,
    m: int,
)
    requires
        ms.len() == 0,
        0 <= m <= chain.len(),
        forall|k: int| 0 <= k < chain.len() ==> has_name(bs, #[trigger] chain[k]@),
    ensures
        comment_lines(bs, ms, chain, current, m) == active_lines(bs, chain, current).take(m).flatten_alt(),
    decreases m,
{
    let ls = active_lines(bs, chain, current).take(m);
    if m > 0 {
        lemma_comment_lines_active(bs, ms, chain, current, m - 1);
        assert(ls.drop_last() =~= active_lines(bs, chain, current).take(m - 1));
        let name = chain[chain.len() - m]@;
        assert(has_name(bs, name));
        lemma_comment_line_active(bs, ms, name, current);
        assert(ls.last() == active_line(bs, name, name == current));
    } else {
        assert(ls =~= Seq::<Seq<char>>::empty());
    }
}

/// Following the parents from `x` reaches at most one branch of the stack
/// whose parent is not a branch of the stack.
proof fn lemma_top_unique(bs: Seq<StackBranch>, x: Seq<char>, i: nat, j: nat, y: Seq<char>, z: Seq<char>)
    requires
        anc(bs, x, i) == Some(y),
        anc(bs, x, j) == Some(z),
        has_name(bs, y),
        has_name(bs, z),
        parent_of(bs, y) matches Some(p) ==> !has_name(bs, p),
        parent_of(bs, z) matches Some(p) ==> !has_name(bs, p),
    ensures
        y == z,
{
    if i < j {
        lemma_top_above(bs, x, i, j, y);
    } else if j < i {
        lemma_top_above(bs, x, j, i, z);
    }
}

/// Past a branch of the stack whose parent is not in the stack, following
/// parents reaches no branch of the stack.
proof fn lemma_top_above(bs: Seq<StackBranch>, x: Seq<char>, i: nat, j: nat, y: Seq<char>)
    requires
        i < j,
        anc(bs, x, i) == Some(y),
        parent_of(bs, y) matches Some(p) ==> !has_name(bs, p),
    ensures
        anc(bs, x, j) matches Some(z) ==> !has_name(bs, z),
{
    let d = (j - i) as nat;
    lemma_anc_add(bs, x, i, d);
    assert(i + d == j);
    assert(anc(bs, x, j) == anc(bs, y, d));
    match parent_of(bs, y) {
        Some(p) => {
            assert(anc(bs, y, d) == anc(bs, p, (d - 1) as nat));
            assert(!has_name(bs, p));
            if d > 1 {
                assert(parent_of(bs, p) is None);
            }
        },
        None => {},
    }
}

/// Along a base walk, the `k`-th name is reached from the first by
/// following `k` parents.
proof fn lemma_base_walk_anc(bs: Seq<StackBranch>, w: Seq<Seq<char>>, base: Seq<char>, default_branch: Seq<char>, k: int)
    requires
        is_base_walk(bs, w, base, default_branch),
        0 <= k < w.len(),
    ensures
        anc(bs, w[0], k as nat) == Some(w[k]),
    decreases k,
{
    if k > 0 {
        lemma_base_walk_anc(bs, w, base, default_branch, k - 1);
        assert(parent_of(bs, w[k - 1]) == Some(w[k]));
        lemma_anc_add(bs, w[0], (k - 1) as nat, 1);
        assert(anc(bs, w[k], 0) == Some(w[k]));
        assert((k - 1) as nat + 1 == k as nat);
    }
}

/// The stack comment for the pull request of the branch `bs[b]`, in an
/// acyclic stack with no merged records where no other branch has that
/// pull request: the marker line; then one line per name of the branch
/// chain of `bs[b]`, last name first, each its pull request number or
/// "pending" with its name, and only the line of `bs[b]` with the
/// pointer; then the base, which is the parent of the farthest ancestor of
/// `bs[b]` within the stack, or the default branch when that one has no
/// parent; then the footer.
pub proof fn stack_comment_layout(
    bs: Seq<StackBranch>,
    ms: Seq<MergedBranch>,
    current_pr: u64,
    default_branch: Seq<char>,
    up: Seq<String>,
    chain: Seq<String>,
    base: Seq<char>,
    r: Seq<char>,
    b: int,
)
    requires
        names_unique(bs),
        acyclic(bs),
        ms.len() == 0,
        0 <= b < bs.len(),
        bs[b].pr == Some(current_pr),
        forall|j: int| 0 <= j < bs.len() && #[trigger] bs[j].pr == Some(current_pr) ==> j == b,
        comment_ok(bs, ms, current_pr, default_branch, up, chain, base, r),
    ensures
        is_branch_chain(bs, ms, bs[b].name@, up, chain),
        forall|k: int| 0 <= k < chain.len() ==> (#[trigger] chain[k]@ == bs[b].name@ <==> k == up.len()),
        base == match parent_of(bs, chain[0]@) {
            Some(p) => p,
            None => default_branch,
        },
        r == "<!-- rung-stack -->"@ + "\n"@ + active_lines(bs, chain, bs[b].name@).flatten() + "* `"@ + base
            + "`\n"@ + comment_footer(),
{
    let i = idx_with_pr(bs, current_pr);
    assert(bs[b].pr == Some(current_pr));
    assert(i == b);
    let current = bs[b].name@;
    assert(has_name(bs, current));
    branch_chain_law(bs, ms, current, up, chain);
    let a = up.len() as int;
    assert forall|k: int| 0 <= k < chain.len() implies has_name(bs, #[trigger] chain[k]@) by {
        if k > a {
            assert(names(chain)[k] == chain[k]@);
            assert(names(chain).contains(chain[k]@));
        }
    }
    assert forall|k: int| 0 <= k < chain.len() implies (#[trigger] chain[k]@ == current <==> k == a) by {
        if k < a {
            assert(chain[k]@ != chain[a]@);
        } else if k > a {
            assert(chain[a]@ != chain[k]@);
        }
    }
    lemma_comment_lines_active(bs, ms, chain, current, chain.len() as int);
    let al = active_lines(bs, chain, current);
    assert(al.take(chain.len() as int) =~= al);
    al.lemma_flatten_and_flatten_alt_are_equivalent();
    let w = choose|w: Seq<Seq<char>>| w[0] == bs[i].name@ && #[trigger] is_base_walk(bs, w, base, default_branch);
    let e = w.len() - 1;
    lemma_base_walk_anc(bs, w, base, default_branch, e);
    assert(!exists|j: int| 0 <= j < e && #[trigger] w[j] == w[e]) by {
        if exists|j: int| 0 <= j < e && #[trigger] w[j] == w[e] {
            let j = choose|j: int| 0 <= j < e && #[trigger] w[j] == w[e];
            lemma_base_walk_anc(bs, w, base, default_branch, j);
            lemma_anc_add(bs, w[0], j as nat, (e - j) as nat);
            assert(j as nat + (e - j) as nat == e as nat);
            assert(reaches(bs, w[j], w[j], (e - j) as nat));
        }
    }
    assert(anc(bs, current, (a - 0) as nat) == Some(chain[0]@));
    lemma_top_unique(bs, current, e as nat, a as nat, w[e], chain[0]@);
}



// === Reports ===

/// The lines about the pull requests a plan updates.
pub open spec fn update_lines(acts: Seq<PlannedBranchAction>) -> Seq<Seq<char>>
    decreases acts.len(),
{
    if acts.len() == 0 {
        seq![]
    } else {
        let rest = update_lines(acts.drop_last());
        match acts.last() {
            PlannedBranchAction::Update { branch, pr_number, .. } => rest.push(
                "  - "@ + branch@ + " (PR #"@ + decimal(pr_number as nat) + ")"@,
            ),
            PlannedBranchAction::Create { .. } => rest,
        }
    }
}

/// The lines about the pull requests a plan opens.
pub open spec fn create_lines(acts: Seq<PlannedBranchAction>, default_branch: Seq<char>) -> Seq<Seq<char>>
    decreases acts.len(),
{
    if acts.len() == 0 {
        seq![]
    } else {
        let rest = create_lines(acts.drop_last(), default_branch);
        match acts.last() {
            PlannedBranchAction::Create { branch, base, .. } => rest.push(
                "  - "@ + branch@ + " → "@ + (if base@.len() == 0 { default_branch } else { base@ }),
            ),
            PlannedBranchAction::Update { .. } => rest,
        }
    }
}

/// The lines of the dry-run report of a non-empty plan.
pub open spec fn dry_run_lines(acts: Seq<PlannedBranchAction>, default_branch: Seq<char>) -> Seq<Seq<char>> {
    let u = update_lines(acts);
    let c = create_lines(acts, default_branch);
    let a = if u.len() > 0 {
        seq!["→ Would push "@ + decimal(u.len()) + " branches:"@] + u + seq![seq![]]
    } else {
        seq![]
    };
    let b = if c.len() > 0 {
        seq!["→ Would create "@ + decimal(c.len()) + " new PRs for branches:"@] + c + seq![seq![]]
    } else {
        seq![]
    };
    a + b + seq!["(dry run - no changes made)"@]
}

/// The dry-run report of a plan: for an empty plan, `false` and "No
/// branches to submit" (an information line); otherwise `true` and the
/// lines saying which branches would be pushed and which pull requests
/// opened (output that is always printed).
pub fn dry_run_summary(plan: &SubmitPlan, default_branch: &String) -> (r: (bool, String))
    ensures
        plan.actions@.len() == 0 ==> !r.0 && r.1@ == "No branches to submit"@,
        plan.actions@.len() > 0 ==> r.0 && r.1@ == join(dry_run_lines(plan.actions@, default_branch@), seq!['\n']),
{
    if plan.is_empty() {
        return (false, String::from_str("No branches to submit"));
    }
    let ghost acts = plan.actions@;
    let n = plan.actions.len();
    let mut ups: Vec<Vec<char>> = Vec::new();
    let mut crs: Vec<Vec<char>> = Vec::new();
    let mut i: usize = 0;
    while i < n
        invariant
            acts == plan.actions@,
            n == acts.len(),
            i <= n,
            ups@.map_values(|l: Vec<char>| l@) == update_lines(acts.take(i as int)),
            crs@.map_values(|l: Vec<char>| l@) == create_lines(acts.take(i as int), default_branch@),
            ups@.len() <= i,
            crs@.len() <= i,
        decreases n - i,
    {
        assert(acts.take(i + 1).drop_last() =~= acts.take(i as int));
        assert(acts.take(i + 1).last() == acts[i as int]);
        let ghost u0 = ups@;
        let ghost c0 = crs@;
        match &plan.actions[i] {
            PlannedBranchAction::Update { branch, pr_number, .. } => {
                let mut l: Vec<char> = Vec::new();
                push_str(&mut l, "  - ");
                push_string(&mut l, branch);
                push_str(&mut l, " (PR #");
                let d = decimal_chars(*pr_number);
                push_all(&mut l, &d);
                push_str(&mut l, ")");
                ups.push(l);
                assert(ups@.map_values(|l: Vec<char>| l@) =~= u0.map_values(|l: Vec<char>| l@).push(ups@[u0.len() as int]@));
            },
            PlannedBranchAction::Create { branch, base, .. } => {
                let mut l: Vec<char> = Vec::new();
                push_str(&mut l, "  - ");
                push_string(&mut l, branch);
                push_str(&mut l, " → ");
                if base.as_str().unicode_len() == 0 {
                    push_string(&mut l, default_branch);
                } else {
                    push_string(&mut l, base);
                }
                crs.push(l);
                assert(crs@.map_values(|l: Vec<char>| l@) =~= c0.map_values(|l: Vec<char>| l@).push(crs@[c0.len() as int]@));
            },
        }
        i += 1;
    }
    assert(acts.take(n as int) =~= acts);
    let mut parts: Vec<Vec<char>> = Vec::new();
    let ghost uv = update_lines(acts);
    let ghost cv = create_lines(acts, default_branch@);
    if ups.len() > 0 {
        let mut h: Vec<char> = Vec::new();
        push_str(&mut h, "→ Would push ");
        let d = decimal_usize(ups.len());
        push_all(&mut h, &d);
        push_str(&mut h, " branches:");
        parts.push(h);
        let mut j: usize = 0;
        while j < ups.len()
            invariant
                j <= ups@.len(),
                parts@.len() == 1 + j,
                forall|x: int| 0 <= x < j ==> #[trigger] parts@[1 + x]@ == ups@[x]@,
                parts@[0]@ == "→ Would push "@ + decimal(ups@.len() as nat) + " branches:"@,
            decreases ups@.len() - j,
        {
            let mut l: Vec<char> = Vec::new();
            push_all(&mut l, &ups[j]);
            parts.push(l);
            j += 1;
        }
        parts.push(Vec::new());
        proof {
            let m = parts@.map_values(|l: Vec<char>| l@);
            let uvv = ups@.map_values(|l: Vec<char>| l@);
            let a = seq!["→ Would push "@ + decimal(uvv.len()) + " branches:"@] + uvv + seq![seq![]];
            assert(m.len() == a.len());
            assert forall|k: int| 0 <= k < m.len() implies m[k] == a[k] by {
                if k == 0 {
                } else if k <= ups@.len() {
                    assert(parts@[1 + (k - 1)]@ == ups@[k - 1]@);
                } else {
                    assert(parts@[k]@ =~= Seq::<char>::empty());
                }
            }
            assert(m =~= a);
        }
    }
    let ghost p1 = parts@;
    let ghost uvv = ups@.map_values(|l: Vec<char>| l@);
    let ghost cvv = crs@.map_values(|l: Vec<char>| l@);
    let ghost a_part = if uvv.len() > 0 {
        seq!["→ Would push "@ + decimal(uvv.len()) + " branches:"@] + uvv + seq![seq![]]
    } else {
        seq![]
    };
    assert(p1.map_values(|l: Vec<char>| l@) =~= a_part);
    if crs.len() > 0 {
        let mut h: Vec<char> = Vec::new();
        push_str(&mut h, "→ Would create ");
        let d = decimal_usize(crs.len());
        push_all(&mut h, &d);
        push_str(&mut h, " new PRs for branches:");
        parts.push(h);
        let mut j: usize = 0;
        while j < crs.len()
            invariant
                j <= crs@.len(),
                parts@.len() == p1.len() + 1 + j,
                forall|x: int| 0 <= x < p1.len() ==> #[trigger] parts@[x] == p1[x],
                forall|x: int| 0 <= x < j ==> #[trigger] parts@[p1.len() + 1 + x]@ == crs@[x]@,
                parts@[p1.len() as int]@ == "→ Would create "@ + decimal(crs@.len() as nat) + " new PRs for branches:"@,
            decreases crs@.len() - j,
        {
            let mut l: Vec<char> = Vec::new();
            push_all(&mut l, &crs[j]);
            parts.push(l);
            j += 1;
        }
        parts.push(Vec::new());
        proof {
            let m = parts@.map_values(|l: Vec<char>| l@);
            let m1 = p1.map_values(|l: Vec<char>| l@);
            let cvv = crs@.map_values(|l: Vec<char>| l@);
            let b = seq!["→ Would create "@ + decimal(cvv.len()) + " new PRs for branches:"@] + cvv + seq![seq![]];
            assert(m.len() == m1.len() + b.len());
            assert forall|k: int| 0 <= k < m.len() implies m[k] == (m1 + b)[k] by {
                if k < p1.len() {
                    assert(parts@[k] == p1[k]);
                } else if k == p1.len() {
                } else if k <= p1.len() + crs@.len() {
                    let x = k - p1.len() - 1;
                    assert(parts@[p1.len() + 1 + x]@ == crs@[x]@);
                } else {
                    assert(parts@[k]@ =~= Seq::<char>::empty());
                }
            }
            assert(m =~= m1 + b);
        }
    }
    let ghost b_part = if cvv.len() > 0 {
        seq!["→ Would create "@ + decimal(cvv.len()) + " new PRs for branches:"@] + cvv + seq![seq![]]
    } else {
        seq![]
    };
    assert(parts@.map_values(|l: Vec<char>| l@) =~= a_part + b_part);
    let mut last: Vec<char> = Vec::new();
    push_str(&mut last, "(dry run - no changes made)");
    parts.push(last);
    proof {
        let pv = parts@.map_values(|l: Vec<char>| l@);
        assert(pv =~= dry_run_lines(acts, default_branch@));
    }
    let text = join_chars(&parts, "\n");
    proof {
        reveal_strlit("\n");
        assert("\n"@ =~= seq!['\n']);
    }
    (true, string_from_chars(&text))
}

/// The closing line of a submit: `true` and "Done! PRs: …" with the numbers
/// of pull requests created and updated when there are any; `false` and "No
/// changes to submit" otherwise.
pub fn submit_summary(created: usize, updated: usize) -> (r: (bool, String))
    ensures
        created == 0 && updated == 0 ==> !r.0 && r.1@ == "No changes to submit"@,
        created > 0 || updated > 0 ==> r.0 && r.1@ == "Done! PRs: "@ + join(
            (if created > 0 { seq![decimal(created as nat) + " created"@] } else { seq![] }) + (if updated > 0 {
                seq![decimal(updated as nat) + " updated"@]
            } else {
                seq![]
            }),
            ", "@,
        ),
{
    if created == 0 && updated == 0 {
        return (false, String::from_str("No changes to submit"));
    }
    let mut parts: Vec<Vec<char>> = Vec::new();
    if created > 0 {
        let mut p = decimal_usize(created);
        push_str(&mut p, " created");
        parts.push(p);
    }
    if updated > 0 {
        let mut p = decimal_usize(updated);
        push_str(&mut p, " updated");
        parts.push(p);
    }
    let mut out: Vec<char> = Vec::new();
    push_str(&mut out, "Done! PRs: ");
    let j = join_chars(&parts, ", ");
    push_all(&mut out, &j);
    proof {
        let pv = parts@.map_values(|l: Vec<char>| l@);
        assert(pv =~= (if created > 0 { seq![decimal(created as nat) + " created"@] } else { seq![] }) + (if updated > 0 {
            seq![decimal(updated as nat) + " updated"@]
        } else {
            seq![]
        }));
    }
    (true, string_from_chars(&out))
}

/// The message refusing to submit a stack that is out of sync with the
/// base branch; `affected` are the branches that need rebasing.
pub open spec fn out_of_sync_message(base: Seq<char>, affected: Seq<Seq<char>>) -> Seq<char> {
    "Stack is out of sync with "@ + base + ". "@ + decimal(affected.len()) + " branch(es) need rebasing: "@
        + join(affected, ", "@)
        + "\n\n→ Run `rung sync` to update the stack\n→ Use `--force` to push without syncing (may create conflicts)"@
}

/// Refuses to submit when branches need rebasing onto the base branch.
pub fn validate_sync_state(base: &String, affected: &Vec<String>) -> (r: Result<(), String>)
    ensures
        r is Ok <==> affected@.len() == 0,
        r matches Err(m) ==> m@ == out_of_sync_message(base@, names(affected@)),
{
    if affected.len() == 0 {
        return Ok(());
    }
    let mut v: Vec<char> = Vec::new();
    push_str(&mut v, "Stack is out of sync with ");
    push_string(&mut v, base);
    push_str(&mut v, ". ");
    let d = decimal_usize(affected.len());
    push_all(&mut v, &d);
    push_str(&mut v, " branch(es) need rebasing: ");
    let j = crate::text::join_strings(affected, ", ");
    push_all(&mut v, &j);
    push_str(&mut v, "\n\n→ Run `rung sync` to update the stack\n→ Use `--force` to push without syncing (may create conflicts)");
    proof {
        assert(names(affected@).len() == affected@.len());
    }
    Err(string_from_chars(&v))
}

/// The numbers of pull requests created and updated among the results.
pub open spec fn result_counts(rs: Seq<BranchSubmitResult>) -> (nat, nat)
    decreases rs.len(),
{
    if rs.len() == 0 {
        (0, 0)
    } else {
        let (c, u) = result_counts(rs.drop_last());
        match rs.last().action {
            SubmitAction::Created => (c + 1, u),
            SubmitAction::Updated => (c, u + 1),
        }
    }
}

/// Counts the pull requests created and updated.
pub fn count_results(results: &Vec<BranchSubmitResult>) -> (r: (usize, usize))
    ensures
        r.0 == result_counts(results@).0,
        r.1 == result_counts(results@).1,
{
    let mut c: usize = 0;
    let mut u: usize = 0;
    let mut i: usize = 0;
    while i < results.len()
        invariant
            i <= results@.len(),
            c == result_counts(results@.take(i as int)).0,
            u == result_counts(results@.take(i as int)).1,
            c + u == i,
        decreases results@.len() - i,
    {
        assert(results@.take(i + 1).drop_last() =~= results@.take(i as int));
        match results[i].action {
            SubmitAction::Created => {
                c += 1;
            },
            SubmitAction::Updated => {
                u += 1;
            },
        }
        i += 1;
    }
    assert(results@.take(results@.len() as int) =~= results@);
    (c, u)
}

/// A branch of the dry-run report: the pull request an update keeps, or
/// the base a new pull request would target.
#[derive(Debug, Clone)]
pub struct PlannedBranchInfo {
    pub branch: String,
    pub pr_number: Option<u64>,
    pub pr_url: Option<String>,
    pub target_base: Option<String>,
    pub action: SubmitAction,
}

/// The machine-readable report of a dry run.
#[derive(Debug, Clone)]
pub struct DryRunOutput {
    pub prs_would_create: usize,
    pub prs_would_update: usize,
    pub branches: Vec<PlannedBranchInfo>,
    pub dry_run: bool,
}

/// The report entry of a planned action: an update names its pull request
/// and address, a creation the base it would target.
pub open spec fn planned_info(a: PlannedBranchAction, i: PlannedBranchInfo) -> bool {
    match a {
        PlannedBranchAction::Update { branch, pr_number, pr_url, .. } => {
            &&& i.branch == branch
            &&& i.pr_number == Some(pr_number)
            &&& i.pr_url == Some(pr_url)
            &&& i.target_base is None
            &&& i.action == SubmitAction::Updated
        },
        PlannedBranchAction::Create { branch, base, .. } => {
            &&& i.branch == branch
            &&& i.pr_number is None
            &&& i.pr_url is None
            &&& i.target_base == Some(base)
            &&& i.action == SubmitAction::Created
        },
    }
}

/// The report entry of one planned action.
pub fn planned_branch_info(a: &PlannedBranchAction) -> (i: PlannedBranchInfo)
    ensures
        planned_info(*a, i),
{
    match a {
        PlannedBranchAction::Update { branch, pr_number, pr_url, .. } => PlannedBranchInfo {
            branch: branch.clone(),
            pr_number: Some(*pr_number),
            pr_url: Some(pr_url.clone()),
            target_base: None,
            action: SubmitAction::Updated,
        },
        PlannedBranchAction::Create { branch, base, .. } => PlannedBranchInfo {
            branch: branch.clone(),
            pr_number: None,
            pr_url: None,
            target_base: Some(base.clone()),
            action: SubmitAction::Created,
        },
    }
}

/// The machine-readable report of a dry run: the numbers of pull requests
/// that would be opened and updated, and one entry per planned action, in
/// plan order.
pub fn dry_run_output(plan: &SubmitPlan) -> (o: DryRunOutput)
    ensures
        o.prs_would_create == plan.actions@.filter(create_pred()).len(),
        o.prs_would_update == plan.actions@.filter(update_pred()).len(),
        o.dry_run,
        o.branches@.len() == plan.actions@.len(),
        forall|k: int| 0 <= k < o.branches@.len() ==> planned_info(plan.actions@[k], #[trigger] o.branches@[k]),
{
    let mut branches: Vec<PlannedBranchInfo> = Vec::new();
    let mut i: usize = 0;
    while i < plan.actions.len()
        invariant
            i <= plan.actions@.len(),
            branches@.len() == i,
            forall|k: int| 0 <= k < i ==> planned_info(plan.actions@[k], #[trigger] branches@[k]),
        decreases plan.actions@.len() - i,
    {
        let info = planned_branch_info(&plan.actions[i]);
        branches.push(info);
        i += 1;
    }
    DryRunOutput {
        prs_would_create: plan.count_creates(),
        prs_would_update: plan.count_updates(),
        branches,
        dry_run: true,
    }
}

/// The progress line of a submitted branch: "  Created PR #n: url" as a
/// success, or "  Updated PR #n" as information.
pub fn result_line(r: &BranchSubmitResult) -> (l: (MessageKind, String))
    ensures
        r.action == SubmitAction::Created ==> l.0 == MessageKind::Success
            && l.1@ == "  Created PR #"@ + decimal(r.pr_number as nat) + ": "@ + r.pr_url@,
        r.action == SubmitAction::Updated ==> l.0 == MessageKind::Info
            && l.1@ == "  Updated PR #"@ + decimal(r.pr_number as nat),
{
    let mut v: Vec<char> = Vec::new();
    match r.action {
        SubmitAction::Created => {
            push_str(&mut v, "  Created PR #");
            let d = decimal_chars(r.pr_number);
            push_all(&mut v, &d);
            push_str(&mut v, ": ");
            push_string(&mut v, &r.pr_url);
            (MessageKind::Success, string_from_chars(&v))
        },
        SubmitAction::Updated => {
            push_str(&mut v, "  Updated PR #");
            let d = decimal_chars(r.pr_number);
            push_all(&mut v, &d);
            (MessageKind::Info, string_from_chars(&v))
        },
    }
}

/// The warning before pushing a branch that diverged from its remote
/// counterpart, with the hint to force the push; nothing when forcing or
/// reporting as JSON.
pub fn diverged_push_warning(branch: &String, ahead: usize, behind: usize, force: bool, json: bool) -> (r: Vec<(MessageKind, String)>)
    ensures
        (force || json) ==> r@.len() == 0,
        !(force || json) ==> r@.len() == 2 && r@[0].0 == MessageKind::Warn
            && r@[0].1@ == branch@ + " has diverged from remote ("@ + decimal(ahead as nat) + " ahead, "@
                + decimal(behind as nat) + " behind)"@
            && r@[1].0 == MessageKind::Detail
            && r@[1].1@ == "  Use --force to safely update (uses --force-with-lease)"@,
{
    let mut r: Vec<(MessageKind, String)> = Vec::new();
    if force || json {
        return r;
    }
    let mut v: Vec<char> = Vec::new();
    push_string(&mut v, branch);
    push_str(&mut v, " has diverged from remote (");
    let a = decimal_usize(ahead);
    push_all(&mut v, &a);
    push_str(&mut v, " ahead, ");
    let b = decimal_usize(behind);
    push_all(&mut v, &b);
    push_str(&mut v, " behind)");
    r.push((MessageKind::Warn, string_from_chars(&v)));
    r.push((MessageKind::Detail, String::from_str("  Use --force to safely update (uses --force-with-lease)")));
    r
}

} // verus!
