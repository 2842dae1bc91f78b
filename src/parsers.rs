//! Primitive recognisers shared by the grammar rules. Each one consumes a
//! prefix of a [`Fragment`] through a single `split_at` and hands back the
//! remaining input together with what it recognised.

use vstd::prelude::*;
use vstd::string::*;
use crate::fragment::Fragment;

verus! {

/// Why a grammar rule did not match.
#[derive(Clone, Copy, Debug, PartialEq, Eq, Structural)]
pub enum FailureKind {
    /// A fixed piece of text was expected and is absent.
    Tag,
    /// A digit was expected and is absent.
    Digit,
    /// The recognised digits do not fit in the value type.
    Conversion,
    /// An operand of an expression is absent.
    Operand,
}

/// A failed parse: where it failed, and why.
#[derive(Clone, Copy, Debug)]
pub struct ParseFailure<'s> {
    pub at: Fragment<'s>,
    pub kind: FailureKind,
}

/// Numeric value of an ASCII digit or letter (letters count from 10 in
/// either case); 36 for any other character.
pub open spec fn digit_value(c: char) -> nat {
    if '0' <= c && c <= '9' {
        (c as nat - '0' as nat) as nat
    } else if 'a' <= c && c <= 'z' {
        (c as nat - 'a' as nat + 10) as nat
    } else if 'A' <= c && c <= 'Z' {
        (c as nat - 'A' as nat + 10) as nat
    } else {
        36
    }
}

/// `c` is a digit in base `radix`.
pub open spec fn is_digit(c: char, radix: nat) -> bool {
    digit_value(c) < radix
}

/// `c` is a digit in base `radix` or the digit-group separator `_`.
pub open spec fn is_digit_or_sep(c: char, radix: nat) -> bool {
    is_digit(c, radix) || c == '_'
}

/// End of the run of digits and separators of `s` that starts at `i`.
pub open spec fn run_end(s: Seq<char>, i: nat, radix: nat) -> nat
    decreases s.len() - i,
{
    if i < s.len() && is_digit_or_sep(s[i as int], radix) {
        run_end(s, i + 1, radix)
    } else {
        i
    }
}

/// `s` begins with `p`.
pub open spec fn starts_with(s: Seq<char>, p: Seq<char>) -> bool {
    p.len() <= s.len() && s.take(p.len() as int) == p
}

/// Computes [`digit_value`].
pub fn char_digit_value(c: char) -> (r: u32)
    ensures
        r as nat == digit_value(c),
{
    if '0' <= c && c <= '9' {
        (c as u32) - ('0' as u32)
    } else if 'a' <= c && c <= 'z' {
        (c as u32) - ('a' as u32) + 10
    } else if 'A' <= c && c <= 'Z' {
        (c as u32) - ('A' as u32) + 10
    } else {
        36
    }
}

/// Computes [`is_digit_or_sep`].
pub fn is_digit_or_sep_exec(c: char, radix: u32) -> (r: bool)
    ensures
        r == is_digit_or_sep(c, radix as nat),
{
    c == '_' || char_digit_value(c) < radix
}

/// Recognises the exact text `lit` at the start of `input`.
/// On success returns the remaining input and the matched fragment.
pub fn tag<'s>(input: Fragment<'s>, lit: &str) -> (r: Result<(Fragment<'s>, Fragment<'s>), ParseFailure<'s>>)
    ensures
        r is Ok <==> starts_with(input@, lit@),
        r matches Ok((rest, matched)) ==> Fragment::is_split_of(matched, rest, input, lit@.len()),
        r matches Err(e) ==> e.at == input && e.kind == FailureKind::Tag,
{
    let n = lit.unicode_len();
    let len = input.len();
    if n > len {
        return Err(ParseFailure { at: input, kind: FailureKind::Tag });
    }
    let mut i: usize = 0;
    while i < n
        invariant
            n == lit@.len(),
            n <= len == input@.len(),
            i <= n,
            forall|j: int| 0 <= j < i ==> input@[j] == lit@[j],
        decreases n - i,
    {
        if input.char_at(i) != lit.get_char(i) {
            return Err(ParseFailure { at: input, kind: FailureKind::Tag });
        }
        i = i + 1;
    }
    assert(input@.take(n as int) =~= lit@);
    let (matched, rest) = input.split_at(n);
    Ok((rest, matched))
}

/// Whether `input` begins with a digit in base `radix`. Consumes nothing.
pub fn peek_digit(input: &Fragment, radix: u32) -> (r: bool)
    ensures
        r == (input@.len() > 0 && is_digit(input@[0], radix as nat)),
{
    if input.is_empty() {
        false
    } else {
        char_digit_value(input.char_at(0)) < radix
    }
}

/// Consumes the longest run of digits in base `radix` and separators at the
/// start of `input`, possibly empty. Returns the remaining input and the run.
pub fn digit_run<'s>(input: Fragment<'s>, radix: u32) -> (r: (Fragment<'s>, Fragment<'s>))
    ensures
        Fragment::is_split_of(r.1, r.0, input, run_end(input@, 0, radix as nat)),
        forall|j: int| 0 <= j < r.1@.len() ==> is_digit_or_sep(#[trigger] r.1@[j], radix as nat),
{
    let len = input.len();
    let mut i: usize = 0;
    while i < len && is_digit_or_sep_exec(input.char_at(i), radix)
        invariant
            len == input@.len(),
            i <= len,
            run_end(input@, 0, radix as nat) == run_end(input@, i as nat, radix as nat),
            forall|j: int| 0 <= j < i ==> is_digit_or_sep(#[trigger] input@[j], radix as nat),
        decreases len - i,
    {
        i = i + 1;
    }
    let (run, rest) = input.split_at(i);
    (rest, run)
}

} // verus!
