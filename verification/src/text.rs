//! Text helpers: characters of strings, decimal numbers, splitting into
//! words and joining with a separator.

use vstd::prelude::*;

verus! {

/// Whether `c` has the Unicode `White_Space` property: the ASCII tab, line
/// feed, vertical tab, form feed, carriage return and space, next line,
/// no-break space, Ogham space mark, the spaces from en quad to hair space,
/// line and paragraph separators, narrow no-break space, medium
/// mathematical space and ideographic space.
pub open spec fn is_ws(c: char) -> bool {
    let u = c as u32;
    (0x9 <= u <= 0xd) || u == 0x20 || u == 0x85 || u == 0xa0 || u == 0x1680 || (0x2000 <= u <= 0x200a)
        || u == 0x2028 || u == 0x2029 || u == 0x202f || u == 0x205f || u == 0x3000
}

/// What `char::is_alphanumeric` answers for `c` (the Unicode `Alphabetic`
/// or `Numeric` properties).
pub uninterp spec fn is_alnum(c: char) -> bool;

/// The characters that `char::to_uppercase` yields for `c`.
pub uninterp spec fn upper_of(c: char) -> Seq<char>;

/// The string that `str::to_lowercase` returns for `s`.
pub uninterp spec fn lower_of(s: Seq<char>) -> Seq<char>;

/// Whether `c` is whitespace, as `char::is_whitespace` answers: the
/// characters with the `White_Space` property.
pub fn char_is_whitespace(c: char) -> (r: bool)
    ensures
        r == is_ws(c),
        (c == ' ' || c == '\t' || c == '\n' || c == '\r' || c == '\x0b' || c == '\x0c') ==> r,
        (('a' <= c <= 'z') || ('A' <= c <= 'Z') || ('0' <= c <= '9')) ==> !r,
{
    let u = c as u32;
    (0x9 <= u && u <= 0xd) || u == 0x20 || u == 0x85 || u == 0xa0 || u == 0x1680 || (0x2000 <= u && u <= 0x200a)
        || u == 0x2028 || u == 0x2029 || u == 0x202f || u == 0x205f || u == 0x3000
}

/// `char::is_alphanumeric`: true for ASCII letters and digits, false for
/// the other ASCII characters; otherwise the Unicode properties.
#[verifier::external_body]
pub(crate) fn char_is_alphanumeric(c: char) -> (r: bool)
    ensures
        r == is_alnum(c),
        (c as u32) < 128 ==> (r <==> (('a' <= c <= 'z') || ('A' <= c <= 'Z') || ('0' <= c <= '9'))),
        r ==> !is_ws(c),
{
    c.is_alphanumeric()
}

/// `char::to_uppercase`, collected: an ASCII lowercase letter becomes its
/// uppercase letter, any other ASCII character stays as it is.
#[verifier::external_body]
pub(crate) fn char_to_uppercase(c: char) -> (r: Vec<char>)
    ensures
        r@ == upper_of(c),
        'a' <= c <= 'z' ==> r@ == seq![((c as u32) - 32) as char],
        (c as u32) < 128 && !('a' <= c <= 'z') ==> r@ == seq![c],
{
    c.to_uppercase().collect()
}

/// `c` is an ASCII character.
pub open spec fn is_ascii_char(c: char) -> bool {
    (c as u32) < 128
}

/// Every character of `s` is ASCII.
pub open spec fn all_ascii(s: Seq<char>) -> bool {
    forall|i: int| 0 <= i < s.len() ==> is_ascii_char(#[trigger] s[i])
}

/// Every character of `s` satisfies `p`.
pub open spec fn chars_all(s: Seq<char>, p: spec_fn(char) -> bool) -> bool {
    forall|i: int| 0 <= i < s.len() ==> p(#[trigger] s[i])
}

/// Joining words whose characters all satisfy `p` with a separator whose
/// characters satisfy `p` gives text whose characters all satisfy `p`.
pub proof fn lemma_join_chars(list: Seq<Seq<char>>, sep: Seq<char>, p: spec_fn(char) -> bool)
    requires
        chars_all(sep, p),
        forall|k: int| 0 <= k < list.len() ==> chars_all(#[trigger] list[k], p),
    ensures
        chars_all(join(list, sep), p),
    decreases list.len(),
{
    if list.len() > 1 {
        let init = list.drop_last();
        assert forall|k: int| 0 <= k < init.len() implies chars_all(#[trigger] init[k], p) by {
            assert(init[k] == list[k]);
        }
        lemma_join_chars(init, sep, p);
        assert(chars_all(list[list.len() - 1], p));
        let a = join(init, sep) + sep;
        assert forall|i: int| 0 <= i < a.len() implies p(#[trigger] a[i]) by {
            if i >= join(init, sep).len() {
                assert(a[i] == sep[i - join(init, sep).len()]);
            }
        }
        let b = a + list.last();
        assert forall|i: int| 0 <= i < b.len() implies p(#[trigger] b[i]) by {
            if i >= a.len() {
                assert(b[i] == list.last()[i - a.len()]);
            } else {
                assert(b[i] == a[i]);
            }
        }
    } else if list.len() == 1 {
        assert(chars_all(list[0], p));
    }
}

/// The characters of the words of `s` are characters of `s` that are not
/// whitespace: when each such character satisfies `p`, so does each
/// character of each word.
pub proof fn lemma_words_chars(s: Seq<char>, p: spec_fn(char) -> bool)
    requires
        forall|i: int| 0 <= i < s.len() ==> (!is_ws(#[trigger] s[i]) ==> p(s[i])),
    ensures
        forall|k: int| 0 <= k < words(s).len() ==> chars_all(#[trigger] words(s)[k], |c: char| p(c) && !is_ws(c)),
    decreases s.len(),
{
    if s.len() > 0 {
        let init = s.drop_last();
        assert forall|i: int| 0 <= i < init.len() implies (!is_ws(#[trigger] init[i]) ==> p(init[i])) by {
            assert(init[i] == s[i]);
        }
        lemma_words_chars(init, p);
        let q = |c: char| p(c) && !is_ws(c);
        let w = words(init);
        let c = s.last();
        assert(c == s[s.len() - 1]);
        if is_ws(c) {
        } else if init.len() > 0 && !is_ws(init.last()) {
            lemma_words_empty(init);
            assert(!is_ws(init[init.len() - 1]));
            let w2 = w.update(w.len() - 1, w.last().push(c));
            assert(chars_all(w[w.len() - 1], q));
            assert forall|k: int| 0 <= k < w2.len() implies chars_all(#[trigger] w2[k], q) by {
                if k < w.len() - 1 {
                    assert(w2[k] == w[k]);
                } else {
                    let x = w.last().push(c);
                    assert(w2[k] == x);
                    assert forall|i: int| 0 <= i < x.len() implies q(#[trigger] x[i]) by {
                        if i < w.last().len() {
                            assert(x[i] == w.last()[i]);
                        }
                    }
                }
            }
        } else {
            let w2 = w.push(seq![c]);
            assert forall|k: int| 0 <= k < w2.len() implies chars_all(#[trigger] w2[k], q) by {
                if k < w.len() {
                    assert(w2[k] == w[k]);
                } else {
                    assert(w2[k] == seq![c]);
                    assert(seq![c][0] == c);
                }
            }
        }
    }
}

/// Appending a word after whitespace (or at the start) adds it to the words.
pub proof fn lemma_words_append(a: Seq<char>, b: Seq<char>)
    requires
        a.len() == 0 || is_ws(a.last()),
        b.len() > 0,
        forall|i: int| 0 <= i < b.len() ==> !is_ws(#[trigger] b[i]),
    ensures
        words(a + b) == words(a).push(b),
    decreases b.len(),
{
    let ab = a + b;
    let c = b.last();
    assert(c == b[b.len() - 1]);
    assert(ab.last() == c);
    if b.len() == 1 {
        assert(ab.drop_last() =~= a);
        assert(seq![c] =~= b);
    } else {
        let b1 = b.drop_last();
        assert forall|i: int| 0 <= i < b1.len() implies !is_ws(#[trigger] b1[i]) by {
            assert(b1[i] == b[i]);
        }
        lemma_words_append(a, b1);
        assert(ab.drop_last() =~= a + b1);
        assert((a + b1).last() == b1[b1.len() - 1]);
        let w = words(a + b1);
        assert(w.update(w.len() - 1, w.last().push(c)) =~= words(a).push(b1.push(c)));
        assert(b1.push(c) =~= b);
    }
}

/// Words that are not empty and hold no whitespace, joined by single
/// spaces, are the words of the result.
pub proof fn lemma_words_of_join(list: Seq<Seq<char>>)
    requires
        forall|k: int| 0 <= k < list.len() ==> (#[trigger] list[k]).len() > 0,
        forall|k: int| 0 <= k < list.len() ==> chars_all(#[trigger] list[k], |c: char| !is_ws(c)),
    ensures
        words(join(list, seq![' '])) == list,
    decreases list.len(),
{
    if list.len() == 0 {
        assert(words(join(list, seq![' '])) =~= list);
    } else {
        let x = list.last();
        assert(x.len() > 0 && chars_all(x, |c: char| !is_ws(c))) by {
            assert(x == list[list.len() - 1]);
        }
        assert forall|i: int| 0 <= i < x.len() implies !is_ws(#[trigger] x[i]) by {
            assert(chars_all(x, |c: char| !is_ws(c)));
        }
        if list.len() == 1 {
            lemma_words_append(seq![], x);
            assert(seq![] + x =~= x);
            assert(words(Seq::<char>::empty()) =~= Seq::<Seq<char>>::empty());
            assert(Seq::<Seq<char>>::empty().push(x) =~= list);
        } else {
            let init = list.drop_last();
            assert forall|k: int| 0 <= k < init.len() implies (#[trigger] init[k]).len() > 0 by {
                assert(init[k] == list[k]);
            }
            assert forall|k: int| 0 <= k < init.len() implies chars_all(#[trigger] init[k], |c: char| !is_ws(c)) by {
                assert(init[k] == list[k]);
            }
            lemma_words_of_join(init);
            let a = join(init, seq![' ']) + seq![' '];
            assert(a.drop_last() =~= join(init, seq![' ']));
            assert(is_ws(' '));
            assert(a.last() == ' ');
            assert(words(a) == words(join(init, seq![' '])));
            lemma_words_append(a, x);
            assert(init.push(x) =~= list);
        }
    }
}

/// An ASCII uppercase letter becomes its lowercase letter; any other
/// character stays as it is.
pub open spec fn ascii_lower(c: char) -> char {
    if 'A' <= c <= 'Z' {
        ((c as u32) + 32) as char
    } else {
        c
    }
}

/// `str::to_lowercase`: on ASCII text, each uppercase letter becomes its
/// lowercase letter and every other character stays.
#[verifier::external_body]
pub(crate) fn str_to_lowercase(s: &str) -> (r: String)
    ensures
        r@ == lower_of(s@),
        r@.len() == 0 <==> s@.len() == 0,
        all_ascii(s@) ==> r@ == s@.map_values(|c: char| ascii_lower(c)),
{
    s.to_lowercase()
}

/// The string made of the given characters (`FromIterator<char>` for
/// `String`).
#[verifier::external_body]
pub(crate) fn string_from_chars(v: &Vec<char>) -> (s: String)
    ensures
        s@ == v@,
{
    v.iter().collect()
}

/// The characters of a string.
pub fn chars_of(s: &str) -> (v: Vec<char>)
    ensures
        v@ == s@,
{
    let n = s.unicode_len();
    let mut v: Vec<char> = Vec::new();
    let mut i: usize = 0;
    while i < n
        invariant
            n == s@.len(),
            i <= n,
            v@ == s@.take(i as int),
        decreases n - i,
    {
        let c = s.get_char(i);
        v.push(c);
        i += 1;
        assert(v@ =~= s@.take(i as int));
    }
    assert(s@.take(n as int) =~= s@);
    v
}

/// Appends the characters of `w` to `v`.
pub fn push_all(v: &mut Vec<char>, w: &Vec<char>)
    ensures
        final(v)@ == old(v)@ + w@,
{
    let n = w.len();
    let mut i: usize = 0;
    while i < n
        invariant
            n == w@.len(),
            i <= n,
            v@ == old(v)@ + w@.take(i as int),
        decreases n - i,
    {
        v.push(w[i]);
        i += 1;
        assert(v@ =~= old(v)@ + w@.take(i as int));
    }
    assert(w@.take(n as int) =~= w@);
}

/// Appends the characters of `s` to `v`.
pub fn push_str(v: &mut Vec<char>, s: &str)
    ensures
        final(v)@ == old(v)@ + s@,
{
    let w = chars_of(s);
    push_all(v, &w);
}

/// Appends the characters of `s` to `v`.
pub fn push_string(v: &mut Vec<char>, s: &String)
    ensures
        final(v)@ == old(v)@ + s@,
{
    push_str(v, s.as_str());
}

/// The decimal digits of `n`.
pub fn decimal_usize(n: usize) -> (v: Vec<char>)
    ensures
        v@ == decimal(n as nat),
{
    decimal_chars(n as u64)
}

/// The decimal digits of `n`.
pub open spec fn decimal(n: nat) -> Seq<char>
    decreases n,
{
    if n < 10 {
        seq![digit(n)]
    } else {
        decimal(n / 10).push(digit(n % 10))
    }
}

/// The decimal digit for `d` below ten.
pub open spec fn digit(d: nat) -> char {
    (('0' as u32) + d) as char
}

/// The decimal digits of `n`.
pub fn decimal_chars(n: u64) -> (v: Vec<char>)
    ensures
        v@ == decimal(n as nat),
    decreases n,
{
    if n < 10 {
        let d = ((48u64 + n) as u8) as char;
        assert(d == digit(n as nat));
        let mut v: Vec<char> = Vec::new();
        v.push(d);
        assert(v@ =~= seq![digit(n as nat)]);
        v
    } else {
        let mut v = decimal_chars(n / 10);
        let d = ((48u64 + n % 10) as u8) as char;
        assert(d == digit((n % 10) as nat));
        v.push(d);
        v
    }
}

/// The maximal runs of characters of `s` that are not whitespace, in order
/// (what `str::split_whitespace` yields).
pub open spec fn words(s: Seq<char>) -> Seq<Seq<char>>
    decreases s.len(),
{
    if s.len() == 0 {
        seq![]
    } else {
        let init = s.drop_last();
        let w = words(init);
        if is_ws(s.last()) {
            w
        } else if init.len() > 0 && !is_ws(init.last()) {
            w.update(w.len() - 1, w.last().push(s.last()))
        } else {
            w.push(seq![s.last()])
        }
    }
}

/// The words of a prefix end with the word being read, if any.
pub open spec fn words_state(s: Seq<char>, done: Seq<Seq<char>>, cur: Seq<char>) -> bool {
    &&& words(s) == if cur.len() > 0 { done.push(cur) } else { done }
    &&& (cur.len() > 0 <==> (s.len() > 0 && !is_ws(s.last())))
}

/// Reading one more character.
pub proof fn lemma_words_step(s: Seq<char>, i: int, done: Seq<Seq<char>>, cur: Seq<char>)
    requires
        0 <= i < s.len(),
        words_state(s.take(i), done, cur),
    ensures
        is_ws(s[i]) && cur.len() > 0 ==> words_state(s.take(i + 1), done.push(cur), seq![]),
        is_ws(s[i]) && cur.len() == 0 ==> words_state(s.take(i + 1), done, cur),
        !is_ws(s[i]) ==> words_state(s.take(i + 1), done, cur.push(s[i])),
{
    let t = s.take(i + 1);
    assert(t.drop_last() =~= s.take(i));
    assert(t.last() == s[i]);
    if !is_ws(s[i]) && cur.len() > 0 {
        let w = words(s.take(i));
        assert(w == done.push(cur));
        assert(w.update(w.len() - 1, w.last().push(s[i])) =~= done.push(cur.push(s[i])));
    }
    if !is_ws(s[i]) && cur.len() == 0 {
        assert(seq![s[i]] =~= cur.push(s[i]));
    }
}

/// A text has no word exactly when all its characters are whitespace.
pub proof fn lemma_words_empty(s: Seq<char>)
    ensures
        words(s).len() == 0 <==> forall|i: int| 0 <= i < s.len() ==> is_ws(#[trigger] s[i]),
    decreases s.len(),
{
    if s.len() > 0 {
        let init = s.drop_last();
        lemma_words_empty(init);
        assert forall|i: int| 0 <= i < init.len() implies init[i] == s[i] by {}
        if !is_ws(s.last()) {
            assert(!is_ws(s[s.len() - 1]));
        } else {
            assert forall|i: int| 0 <= i < s.len() && (forall|j: int| 0 <= j < init.len() ==> is_ws(#[trigger] init[j])) implies is_ws(#[trigger] s[i]) by {
                if i < init.len() {
                    assert(is_ws(init[i]));
                }
            }
        }
    }
}

/// Every word has at least one character.
pub proof fn lemma_words_nonempty(s: Seq<char>)
    ensures
        forall|k: int| 0 <= k < words(s).len() ==> (#[trigger] words(s)[k]).len() > 0,
    decreases s.len(),
{
    if s.len() > 0 {
        let init = s.drop_last();
        lemma_words_nonempty(init);
        let w = words(init);
        if is_ws(s.last()) {
        } else if init.len() > 0 && !is_ws(init.last()) {
            lemma_words_empty(init);
            assert(!is_ws(init[init.len() - 1]));
            let w2 = w.update(w.len() - 1, w.last().push(s.last()));
            assert forall|k: int| 0 <= k < w2.len() implies (#[trigger] w2[k]).len() > 0 by {
                if k < w.len() - 1 {
                    assert(w2[k] == w[k]);
                }
            }
        } else {
            let w2 = w.push(seq![s.last()]);
            assert forall|k: int| 0 <= k < w2.len() implies (#[trigger] w2[k]).len() > 0 by {
                if k < w.len() {
                    assert(w2[k] == w[k]);
                }
            }
        }
    }
}

/// Joined words end with the last word.
pub proof fn lemma_join_len(list: Seq<Seq<char>>, sep: Seq<char>)
    requires
        list.len() > 0,
    ensures
        join(list, sep).len() >= list.last().len(),
{
}

/// Words joined with a separator between consecutive ones.
pub open spec fn join(list: Seq<Seq<char>>, sep: Seq<char>) -> Seq<char>
    decreases list.len(),
{
    if list.len() == 0 {
        seq![]
    } else if list.len() == 1 {
        list[0]
    } else {
        join(list.drop_last(), sep) + sep + list.last()
    }
}

/// Joining one more word.
pub proof fn lemma_join_push(list: Seq<Seq<char>>, sep: Seq<char>, x: Seq<char>)
    ensures
        join(list.push(x), sep) == if list.len() == 0 { x } else { join(list, sep) + sep + x },
{
    assert(list.push(x).drop_last() =~= list);
    if list.len() == 0 {
        assert(list.push(x)[0] == x);
    }
}

/// The text without one trailing `\r`.
pub open spec fn strip_cr(c: Seq<char>) -> Seq<char> {
    if c.len() > 0 && c.last() == '\r' {
        c.drop_last()
    } else {
        c
    }
}

/// Reading `s` line by line: the lines ended by `\n` (without the `\n` and
/// one `\r` before it), and the text after the last `\n`.
pub open spec fn line_split(s: Seq<char>) -> (Seq<Seq<char>>, Seq<char>)
    decreases s.len(),
{
    if s.len() == 0 {
        (seq![], seq![])
    } else {
        let (d, c) = line_split(s.drop_last());
        if s.last() == '\n' {
            (d.push(strip_cr(c)), seq![])
        } else {
            (d, c.push(s.last()))
        }
    }
}

/// The lines of `s`, as `str::lines` yields them: split at `\n` or `\r\n`;
/// the last line ending is optional.
pub open spec fn lines(s: Seq<char>) -> Seq<Seq<char>> {
    let (d, c) = line_split(s);
    if c.len() > 0 {
        d.push(c)
    } else {
        d
    }
}

/// The lines of a string (`str::lines`).
pub fn lines_of(s: &Vec<char>) -> (r: Vec<Vec<char>>)
    ensures
        r@.map_values(|l: Vec<char>| l@) == lines(s@),
{
    let n = s.len();
    let mut done: Vec<Vec<char>> = Vec::new();
    let mut cur: Vec<char> = Vec::new();
    let mut i: usize = 0;
    while i < n
        invariant
            n == s@.len(),
            i <= n,
            line_split(s@.take(i as int)) == (done@.map_values(|l: Vec<char>| l@), cur@),
        decreases n - i,
    {
        assert(s@.take(i + 1).drop_last() =~= s@.take(i as int));
        let c = s[i];
        if c == '\n' {
            let ghost before = done@;
            let ghost cv = cur@;
            let mut line = cur;
            let k = line.len();
            if k > 0 && line[k - 1] == '\r' {
                line.pop();
            }
            assert(line@ =~= strip_cr(cv));
            done.push(line);
            cur = Vec::new();
            assert(done@.map_values(|l: Vec<char>| l@) =~= before.map_values(|l: Vec<char>| l@).push(strip_cr(cv)));
        } else {
            cur.push(c);
        }
        i += 1;
    }
    assert(s@.take(n as int) =~= s@);
    let ghost d = done@;
    if cur.len() > 0 {
        done.push(cur);
        assert(done@.map_values(|l: Vec<char>| l@) =~= d.map_values(|l: Vec<char>| l@).push(done@[d.len() as int]@));
    }
    done
}


/// `s` without its leading whitespace.
pub open spec fn trim_start(s: Seq<char>) -> Seq<char>
    decreases s.len(),
{
    if s.len() > 0 && is_ws(s[0]) {
        trim_start(s.drop_first())
    } else {
        s
    }
}

/// `s` without its trailing whitespace.
pub open spec fn trim_end(s: Seq<char>) -> Seq<char>
    decreases s.len(),
{
    if s.len() > 0 && is_ws(s.last()) {
        trim_end(s.drop_last())
    } else {
        s
    }
}

/// `s` without leading and trailing whitespace (`str::trim`).
pub open spec fn trim(s: Seq<char>) -> Seq<char> {
    trim_end(trim_start(s))
}

/// Leading whitespace up to `a`.
pub proof fn lemma_trim_start_at(s: Seq<char>, a: int)
    requires
        0 <= a <= s.len(),
        forall|j: int| 0 <= j < a ==> is_ws(#[trigger] s[j]),
        a == s.len() || !is_ws(s[a]),
    ensures
        trim_start(s) == s.subrange(a, s.len() as int),
    decreases a,
{
    if a == 0 {
        assert(s.subrange(0, s.len() as int) =~= s);
    } else {
        let t = s.drop_first();
        assert forall|j: int| 0 <= j < a - 1 implies is_ws(#[trigger] t[j]) by {
            assert(t[j] == s[j + 1]);
        }
        if a - 1 < t.len() {
            assert(t[a - 1] == s[a]);
        }
        lemma_trim_start_at(t, a - 1);
        assert(t.subrange(a - 1, t.len() as int) =~= s.subrange(a, s.len() as int));
    }
}

/// Trailing whitespace from `b` on.
pub proof fn lemma_trim_end_at(s: Seq<char>, b: int)
    requires
        0 <= b <= s.len(),
        forall|j: int| b <= j < s.len() ==> is_ws(#[trigger] s[j]),
        b == 0 || !is_ws(s[b - 1]),
    ensures
        trim_end(s) == s.subrange(0, b),
    decreases s.len() - b,
{
    if b == s.len() {
        assert(s.subrange(0, b) =~= s);
    } else {
        let t = s.drop_last();
        assert forall|j: int| b <= j < t.len() implies is_ws(#[trigger] t[j]) by {
            assert(t[j] == s[j]);
        }
        if b > 0 {
            assert(t[b - 1] == s[b - 1]);
        }
        assert(is_ws(s[s.len() - 1]));
        lemma_trim_end_at(t, b);
        assert(t.subrange(0, b) =~= s.subrange(0, b));
    }
}

/// `v` without its leading whitespace.
pub fn trim_start_chars(v: &Vec<char>) -> (r: Vec<char>)
    ensures
        r@ == trim_start(v@),
{
    let n = v.len();
    let mut a: usize = 0;
    while a < n && char_is_whitespace(v[a])
        invariant
            n == v@.len(),
            a <= n,
            forall|j: int| 0 <= j < a ==> is_ws(#[trigger] v@[j]),
        decreases n - a,
    {
        a += 1;
    }
    proof {
        lemma_trim_start_at(v@, a as int);
    }
    let mut r: Vec<char> = Vec::new();
    let mut i = a;
    while i < n
        invariant
            n == v@.len(),
            a <= i <= n,
            r@ == v@.subrange(a as int, i as int),
        decreases n - i,
    {
        r.push(v[i]);
        i += 1;
        assert(r@ =~= v@.subrange(a as int, i as int));
    }
    r
}

/// `v` without its trailing whitespace.
pub fn trim_end_chars(v: &Vec<char>) -> (r: Vec<char>)
    ensures
        r@ == trim_end(v@),
{
    let n = v.len();
    let mut b: usize = n;
    while b > 0 && char_is_whitespace(v[b - 1])
        invariant
            n == v@.len(),
            b <= n,
            forall|j: int| b <= j < n ==> is_ws(#[trigger] v@[j]),
        decreases b,
    {
        b -= 1;
    }
    proof {
        lemma_trim_end_at(v@, b as int);
    }
    let mut r: Vec<char> = Vec::new();
    let mut i: usize = 0;
    while i < b
        invariant
            n == v@.len(),
            b <= n,
            i <= b,
            r@ == v@.subrange(0, i as int),
        decreases b - i,
    {
        r.push(v[i]);
        i += 1;
        assert(r@ =~= v@.subrange(0, i as int));
    }
    r
}

/// `v` without leading and trailing whitespace.
pub fn trim_chars(v: &Vec<char>) -> (r: Vec<char>)
    ensures
        r@ == trim(v@),
{
    let t = trim_start_chars(v);
    trim_end_chars(&t)
}

/// The lists joined with `sep` between consecutive ones.
pub fn join_chars(list: &Vec<Vec<char>>, sep: &str) -> (r: Vec<char>)
    ensures
        r@ == join(list@.map_values(|l: Vec<char>| l@), sep@),
{
    let ghost ls = list@.map_values(|l: Vec<char>| l@);
    let n = list.len();
    let mut r: Vec<char> = Vec::new();
    let mut i: usize = 0;
    assert(ls.take(0) =~= Seq::<Seq<char>>::empty());
    while i < n
        invariant
            n == list@.len(),
            ls == list@.map_values(|l: Vec<char>| l@),
            i <= n,
            r@ == join(ls.take(i as int), sep@),
        decreases n - i,
    {
        proof {
            lemma_join_push(ls.take(i as int), sep@, ls[i as int]);
            assert(ls.take(i + 1) =~= ls.take(i as int).push(ls[i as int]));
        }
        if i > 0 {
            push_str(&mut r, sep);
        }
        push_all(&mut r, &list[i]);
        i += 1;
    }
    assert(ls.take(n as int) =~= ls);
    r
}

/// The strings joined with `sep` between consecutive ones.
pub fn join_strings(list: &Vec<String>, sep: &str) -> (r: Vec<char>)
    ensures
        r@ == join(crate::stack::names(list@), sep@),
{
    let ghost ls = crate::stack::names(list@);
    let n = list.len();
    let mut r: Vec<char> = Vec::new();
    let mut i: usize = 0;
    assert(ls.take(0) =~= Seq::<Seq<char>>::empty());
    while i < n
        invariant
            n == list@.len(),
            ls == crate::stack::names(list@),
            i <= n,
            r@ == join(ls.take(i as int), sep@),
        decreases n - i,
    {
        proof {
            lemma_join_push(ls.take(i as int), sep@, ls[i as int]);
            assert(ls.take(i + 1) =~= ls.take(i as int).push(ls[i as int]));
        }
        if i > 0 {
            push_str(&mut r, sep);
        }
        push_string(&mut r, &list[i]);
        i += 1;
    }
    assert(ls.take(n as int) =~= ls);
    r
}

/// `p` is a prefix of `s`.
pub open spec fn starts_with(s: Seq<char>, p: Seq<char>) -> bool {
    p.len() <= s.len() && s.take(p.len() as int) == p
}

/// Whether `s` starts with `p`.
pub fn has_prefix(s: &str, p: &str) -> (r: bool)
    ensures
        r == starts_with(s@, p@),
{
    let a = chars_of(s);
    let b = chars_of(p);
    if b.len() > a.len() {
        return false;
    }
    let mut i: usize = 0;
    while i < b.len()
        invariant
            a@ == s@,
            b@ == p@,
            b@.len() <= a@.len(),
            i <= b@.len(),
            forall|j: int| 0 <= j < i ==> a@[j] == b@[j],
        decreases b@.len() - i,
    {
        if a[i] != b[i] {
            assert(s@.take(p@.len() as int)[i as int] != p@[i as int]);
            return false;
        }
        i += 1;
    }
    assert(s@.take(p@.len() as int) =~= p@);
    true
}

/// `p` occurs in `s` starting at position `i`.
pub open spec fn occurs_at(s: Seq<char>, p: Seq<char>, i: int) -> bool {
    0 <= i && i + p.len() <= s.len() && s.subrange(i, i + p.len()) == p
}

/// `p` occurs somewhere in `s`.
pub open spec fn contains_chars(s: Seq<char>, p: Seq<char>) -> bool {
    exists|i: int| occurs_at(s, p, i)
}

/// Whether `b` occurs in `a` starting at `i`.
fn chars_occur_at(a: &Vec<char>, b: &Vec<char>, i: usize) -> (r: bool)
    requires
        i + b@.len() <= a@.len(),
    ensures
        r == occurs_at(a@, b@, i as int),
{
    let mut j: usize = 0;
    while j < b.len()
        invariant
            i + b@.len() <= a@.len(),
            a@.len() == a.len(),
            j <= b@.len(),
            forall|k: int| 0 <= k < j ==> a@[i + k] == b@[k],
        decreases b@.len() - j,
    {
        if a[i + j] != b[j] {
            assert(a@.subrange(i as int, i + b@.len())[j as int] != b@[j as int]);
            return false;
        }
        j += 1;
    }
    assert(a@.subrange(i as int, i + b@.len()) =~= b@);
    true
}

/// Whether `p` occurs in `s`.
pub fn has_substring(s: &str, p: &str) -> (r: bool)
    ensures
        r == contains_chars(s@, p@),
{
    let a = chars_of(s);
    let b = chars_of(p);
    if b.len() > a.len() {
        assert(forall|i: int| !occurs_at(s@, p@, i));
        return false;
    }
    let last = a.len() - b.len();
    let mut i: usize = 0;
    while i < last
        invariant
            a@ == s@,
            b@ == p@,
            last == a@.len() - b@.len(),
            b@.len() <= a@.len(),
            i <= last,
            forall|k: int| 0 <= k < i ==> !occurs_at(s@, p@, k),
        decreases last - i,
    {
        if chars_occur_at(&a, &b, i) {
            assert(occurs_at(s@, p@, i as int));
            return true;
        }
        i += 1;
    }
    if chars_occur_at(&a, &b, last) {
        assert(occurs_at(s@, p@, last as int));
        return true;
    }
    assert forall|k: int| !occurs_at(s@, p@, k) by {
        if occurs_at(s@, p@, k) {
            assert(0 <= k <= last);
        }
    }
    false
}

/// The first `n` characters of `s` (all of them when it is shorter).
pub fn take_chars(s: &str, n: usize) -> (r: String)
    ensures
        r@ == (if s@.len() <= n { s@ } else { s@.take(n as int) }),
{
    let a = chars_of(s);
    let mut v: Vec<char> = Vec::new();
    let mut i: usize = 0;
    while i < a.len() && i < n
        invariant
            a@ == s@,
            i <= a@.len(),
            i <= n,
            v@ == s@.take(i as int),
        decreases a@.len() - i,
    {
        v.push(a[i]);
        i += 1;
        assert(v@ =~= s@.take(i as int));
    }
    proof {
        if s@.len() <= n {
            assert(s@.take(i as int) =~= s@);
        }
    }
    string_from_chars(&v)
}

} // verus!
