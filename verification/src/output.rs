//! Terminal output: which messages show, and how lines are coloured.
//!
//! Colours come from the `colored` crate, which leaves text plain when
//! colours are off (no terminal, `NO_COLOR`, and so on); the contracts of
//! the painting functions hold either way.

use vstd::prelude::*;
use colored::Colorize;
use crate::text::{push_str, push_string, push_all, string_from_chars, decimal};

verus! {

/// The reset sequence that ends a coloured span.
pub open spec fn reset_code() -> Seq<char> {
    seq!['\x1B', '[', '0', 'm']
}

/// `t` holds no reset sequence.
pub open spec fn no_reset(t: Seq<char>) -> bool {
    forall|i: int| 0 <= i <= t.len() - 4 ==> #[trigger] t.subrange(i, i + 4) != reset_code()
}

/// `r` is `t` painted with the style `code`: `t` itself when colours are
/// off; else, for a `t` without reset sequences, `t` between the style's
/// escape sequence and the reset sequence.
pub open spec fn painted(r: Seq<char>, t: Seq<char>, code: Seq<char>) -> bool {
    r == t || (no_reset(t) ==> r == seq!['\x1B', '['] + code + seq!['m'] + t + reset_code())
}

/// `Colorize::green`, displayed.
#[verifier::external_body]
pub(crate) fn paint_green(t: &str) -> (r: String)
    ensures
        painted(r@, t@, seq!['3', '2']),
{
    t.green().to_string()
}

/// `Colorize::red`, displayed.
#[verifier::external_body]
pub(crate) fn paint_red(t: &str) -> (r: String)
    ensures
        painted(r@, t@, seq!['3', '1']),
{
    t.red().to_string()
}

/// `Colorize::yellow`, displayed.
#[verifier::external_body]
pub(crate) fn paint_yellow(t: &str) -> (r: String)
    ensures
        painted(r@, t@, seq!['3', '3']),
{
    t.yellow().to_string()
}

/// `Colorize::blue`, displayed.
#[verifier::external_body]
pub(crate) fn paint_blue(t: &str) -> (r: String)
    ensures
        painted(r@, t@, seq!['3', '4']),
{
    t.blue().to_string()
}

/// `Colorize::cyan`, displayed.
#[verifier::external_body]
pub(crate) fn paint_cyan(t: &str) -> (r: String)
    ensures
        painted(r@, t@, seq!['3', '6']),
{
    t.cyan().to_string()
}

/// `Colorize::cyan` then `bold`, displayed: bold comes first in the escape
/// sequence.
#[verifier::external_body]
pub(crate) fn paint_cyan_bold(t: &str) -> (r: String)
    ensures
        painted(r@, t@, seq!['1', ';', '3', '6']),
{
    t.cyan().bold().to_string()
}

/// `Colorize::bold`, displayed.
#[verifier::external_body]
pub(crate) fn paint_bold(t: &str) -> (r: String)
    ensures
        painted(r@, t@, seq!['1']),
{
    t.bold().to_string()
}

/// `Colorize::dimmed`, displayed.
#[verifier::external_body]
pub(crate) fn paint_dimmed(t: &str) -> (r: String)
    ensures
        painted(r@, t@, seq!['2']),
{
    t.dimmed().to_string()
}

/// The kinds of messages.
#[derive(Debug, Clone, Copy, PartialEq, Eq, Structural)]
pub enum MessageKind {
    Success,
    Error,
    Warn,
    Info,
    /// An indented detail line.
    Detail,
    /// Output meant for other programs, such as a URL.
    Essential,
    /// A horizontal rule.
    Rule,
    /// Plain text on the error stream, which always shows.
    ErrorText,
}

/// Whether messages are kept to the essential ones.
#[derive(Debug, Clone, Copy)]
pub struct Output {
    quiet: bool,
}

/// Errors, warnings and essential output always show; the rest not in
/// quiet mode.
pub open spec fn shown(quiet: bool, kind: MessageKind) -> bool {
    match kind {
        MessageKind::Error | MessageKind::Warn | MessageKind::Essential | MessageKind::ErrorText => true,
        _ => !quiet,
    }
}

impl Output {
    /// Output that is not quiet.
    pub fn new() -> (o: Output)
        ensures
            !o.quiet_spec(),
    {
        Output { quiet: false }
    }

    /// Whether quiet mode is on.
    pub closed spec fn quiet_spec(&self) -> bool {
        self.quiet
    }

    /// Turns quiet mode on or off.
    pub fn set_quiet(&mut self, quiet: bool)
        ensures
            final(self).quiet_spec() == quiet,
    {
        self.quiet = quiet;
    }

    /// Whether quiet mode is on.
    pub fn is_quiet(&self) -> (r: bool)
        ensures
            r == self.quiet_spec(),
    {
        self.quiet
    }

    /// Whether a message of this kind shows.
    pub fn shows(&self, kind: MessageKind) -> (r: bool)
        ensures
            r == shown(self.quiet_spec(), kind),
    {
        match kind {
            MessageKind::Error | MessageKind::Warn | MessageKind::Essential | MessageKind::ErrorText => true,
            _ => !self.quiet,
        }
    }
}

/// Errors, warnings and plain error text go to the error stream; the rest
/// to standard output.
pub open spec fn on_error_stream(kind: MessageKind) -> bool {
    kind == MessageKind::Error || kind == MessageKind::Warn || kind == MessageKind::ErrorText
}

/// Whether a message of this kind is written to the error stream.
pub fn to_stderr(kind: MessageKind) -> (r: bool)
    ensures
        r == on_error_stream(kind),
{
    match kind {
        MessageKind::Error | MessageKind::Warn | MessageKind::ErrorText => true,
        _ => false,
    }
}

/// The symbol that leads a message of this kind, with its colour code;
/// detail, essential and rule lines have none.
pub open spec fn mark_of(kind: MessageKind) -> Option<(Seq<char>, Seq<char>)> {
    match kind {
        MessageKind::Success => Some((seq!['✓'], seq!['3', '2'])),
        MessageKind::Error => Some((seq!['✗'], seq!['3', '1'])),
        MessageKind::Warn => Some((seq!['!'], seq!['3', '3'])),
        MessageKind::Info => Some((seq!['→'], seq!['3', '4'])),
        _ => None,
    }
}

/// The line printed for a message: its coloured symbol, a space and the
/// text; detail, essential and rule lines are the text alone.
pub fn message_line(kind: MessageKind, msg: &str) -> (r: String)
    ensures
        match mark_of(kind) {
            Some((sym, code)) => exists|m: Seq<char>| painted(m, sym, code) && r@ == m + seq![' '] + msg@,
            None => r@ == msg@,
        },
{
    proof {
        reveal_strlit("✓");
        reveal_strlit("✗");
        reveal_strlit("!");
        reveal_strlit("→");
        assert("✓"@ =~= seq!['✓']);
        assert("✗"@ =~= seq!['✗']);
        assert("!"@ =~= seq!['!']);
        assert("→"@ =~= seq!['→']);
    }
    let mark = match kind {
        MessageKind::Success => paint_green("✓"),
        MessageKind::Error => paint_red("✗"),
        MessageKind::Warn => paint_yellow("!"),
        MessageKind::Info => paint_blue("→"),
        _ => {
            return String::from_str(msg);
        },
    };
    let mut v: Vec<char> = Vec::new();
    push_string(&mut v, &mark);
    v.push(' ');
    push_str(&mut v, msg);
    let r = string_from_chars(&v);
    proof {
        let (sym, code) = mark_of(kind)->0;
        assert(painted(mark@, sym, code));
        assert(r@ =~= mark@ + seq![' '] + msg@);
    }
    r
}

/// Fifty horizontal bars.
pub open spec fn bars() -> Seq<char> {
    Seq::new(50, |i: int| '─')
}

/// The horizontal rule: fifty bars, dimmed.
pub fn rule_line() -> (r: String)
    ensures
        painted(r@, bars(), seq!['2']),
{
    let mut v: Vec<char> = Vec::new();
    let mut i: usize = 0;
    while i < 50
        invariant
            i <= 50,
            v@ == Seq::new(i as nat, |k: int| '─'),
        decreases 50 - i,
    {
        v.push('─');
        i += 1;
        assert(v@ =~= Seq::new(i as nat, |k: int| '─'));
    }
    let s = string_from_chars(&v);
    paint_dimmed(s.as_str())
}

/// How a branch name is listed: the current one marked with a cyan arrow
/// and in bold cyan, the others indented.
pub open spec fn shown_name(name: Seq<char>, is_current: bool, r: Seq<char>) -> bool {
    if is_current {
        exists|a: Seq<char>, b: Seq<char>|
            painted(a, seq!['▶'], seq!['3', '6']) && painted(b, name, seq!['1', ';', '3', '6']) && r == a + seq![' ']
                + b
    } else {
        r == seq![' ', ' '] + name
    }
}

/// A branch name as listed: the current one marked with a cyan arrow and in
/// bold cyan, the others indented.
pub fn branch_name(name: &str, is_current: bool) -> (r: String)
    ensures
        shown_name(name@, is_current, r@),
{
    let mut v: Vec<char> = Vec::new();
    if is_current {
        let a = paint_cyan("▶");
        let b = paint_cyan_bold(name);
        proof {
            reveal_strlit("▶");
            assert("▶"@ =~= seq!['▶']);
        }
        push_string(&mut v, &a);
        v.push(' ');
        push_string(&mut v, &b);
        let r = string_from_chars(&v);
        proof {
            assert(r@ =~= a@ + seq![' '] + b@);
            assert(painted(a@, seq!['▶'], seq!['3', '6']) && painted(b@, name@, seq!['1', ';', '3', '6']));
        }
        return r;
    } else {
        v.push(' ');
        v.push(' ');
        push_str(&mut v, name);
        assert(v@ =~= seq![' ', ' '] + name@);
    }
    string_from_chars(&v)
}

/// The state of a pull request as shown.
#[derive(Debug, Clone, Copy, PartialEq, Eq, Structural)]
pub enum PrStatus {
    Open,
    Draft,
    Merged,
    Closed,
}

/// The colour code of a pull request reference: none for an open one.
pub open spec fn pr_code(status: Option<PrStatus>) -> Option<Seq<char>> {
    match status {
        Some(PrStatus::Open) => None,
        Some(PrStatus::Draft) => Some(seq!['3', '3']),
        Some(PrStatus::Merged) => Some(seq!['3', '2']),
        Some(PrStatus::Closed) => Some(seq!['3', '1']),
        None => Some(seq!['2']),
    }
}

/// How a pull request reference is shown: "#" and its number, coloured by
/// its state; empty without a pull request.
pub open spec fn shown_pr(number: Option<u64>, status: Option<PrStatus>, r: Seq<char>) -> bool {
    match number {
        None => r.len() == 0,
        Some(n) => match pr_code(status) {
            None => r == seq!['#'] + decimal(n as nat),
            Some(code) => painted(r, seq!['#'] + decimal(n as nat), code),
        },
    }
}

/// A pull request reference, "#" and its number, coloured by its state:
/// plain when open, yellow as a draft, green when merged, red when closed,
/// dimmed when unknown; empty without a pull request.
pub fn pr_ref(number: Option<u64>, status: Option<PrStatus>) -> (r: String)
    ensures
        shown_pr(number, status, r@),
{
    let n = match number {
        None => {
            return String::new();
        },
        Some(n) => n,
    };
    let mut v: Vec<char> = Vec::new();
    v.push('#');
    let d = crate::text::decimal_chars(n);
    push_all(&mut v, &d);
    assert(v@ =~= seq!['#'] + decimal(n as nat));
    let text = string_from_chars(&v);
    match status {
        Some(PrStatus::Open) => text,
        Some(PrStatus::Draft) => paint_yellow(text.as_str()),
        Some(PrStatus::Merged) => paint_green(text.as_str()),
        Some(PrStatus::Closed) => paint_red(text.as_str()),
        None => paint_dimmed(text.as_str()),
    }
}

/// The lines printed when a command needs a branch but HEAD is detached.
pub fn detached_head_lines() -> (r: Vec<(MessageKind, String)>)
    ensures
        r@.len() == 7,
        r@[0].0 == MessageKind::Error && r@[0].1@ == "Cannot run this command in detached HEAD state."@,
        r@[1].1@.len() == 0,
        r@[2].1@ == "You are not on any branch. To fix this:"@,
        r@[3].1@ == "  1. Create a new branch: git checkout -b <branch-name>"@,
        r@[4].1@ == "  2. Or return to an existing branch: git checkout <branch-name>"@,
        r@[5].1@.len() == 0,
        r@[6].1@ == "Run `rung status` after switching to a branch."@,
        forall|i: int| 1 <= i < 7 ==> (#[trigger] r@[i]).0 == MessageKind::ErrorText,
{
    let mut r: Vec<(MessageKind, String)> = Vec::new();
    r.push((MessageKind::Error, String::from_str("Cannot run this command in detached HEAD state.")));
    r.push((MessageKind::ErrorText, String::new()));
    r.push((MessageKind::ErrorText, String::from_str("You are not on any branch. To fix this:")));
    r.push((MessageKind::ErrorText, String::from_str("  1. Create a new branch: git checkout -b <branch-name>")));
    r.push((MessageKind::ErrorText, String::from_str("  2. Or return to an existing branch: git checkout <branch-name>")));
    r.push((MessageKind::ErrorText, String::new()));
    r.push((MessageKind::ErrorText, String::from_str("Run `rung status` after switching to a branch.")));
    r
}

} // verus!
