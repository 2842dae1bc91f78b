//! Numeric literals: binary (`0b`), hexadecimal (`0x`) and decimal, with `_`
//! allowed as a separator between digits.

use vstd::prelude::*;
use vstd::string::*;
use crate::ast::{Expression, NumLit};
use crate::fragment::Fragment;
use crate::parsers::{
    FailureKind, ParseFailure, digit_run, peek_digit, tag, digit_value, is_digit,
    is_digit_or_sep, run_end,
};

verus! {

#[verifier::external_type_specification]
#[verifier::external_body]
pub struct ExParseIntError(std::num::ParseIntError);

/// The number written by the digits `s` in base `radix`, most significant first.
pub open spec fn value_of(s: Seq<char>, radix: nat) -> nat
    decreases s.len(),
{
    if s.len() == 0 {
        0
    } else {
        value_of(s.drop_last(), radix) * radix + digit_value(s.last())
    }
}

/// `s` with every separator `_` removed.
pub open spec fn without_separators(s: Seq<char>) -> Seq<char>
    decreases s.len(),
{
    if s.len() == 0 {
        s
    } else if s.last() == '_' {
        without_separators(s.drop_last())
    } else {
        without_separators(s.drop_last()).push(s.last())
    }
}

/// Every character of `s` is a digit in base `radix`.
pub open spec fn all_digits(s: Seq<char>, radix: nat) -> bool {
    forall|i: int| 0 <= i < s.len() ==> is_digit(#[trigger] s[i], radix)
}

/// How reading `s` as an unsigned integer in base `radix` turns out: digits,
/// after an optional leading `+`, give their value when it fits in a `u128`;
/// no digits, or a character that is no digit (a leading `+` aside), give an
/// error.
pub open spec fn reads_as(s: Seq<char>, radix: nat, r: Result<u128, std::num::ParseIntError>) -> bool {
    &&& (s.len() > 0 && all_digits(s, radix)) ==> ((r is Ok) == (value_of(s, radix) <= u128::MAX))
    &&& (s.len() > 0 && all_digits(s, radix) && r is Ok) ==> r->Ok_0 as nat == value_of(s, radix)
    &&& s.len() == 0 ==> r is Err
    &&& (exists|i: int| 0 <= i < s.len() && !is_digit(#[trigger] s[i], radix) && !(i == 0 && s[i] == '+')) ==> r is Err
    &&& s == seq!['+'] ==> r is Err
    &&& (s.len() > 1 && s[0] == '+' && all_digits(s.skip(1), radix)) ==> ((r is Ok) == (value_of(s.skip(1), radix) <= u128::MAX))
    &&& (s.len() > 1 && s[0] == '+' && all_digits(s.skip(1), radix) && r is Ok) ==> r->Ok_0 as nat == value_of(s.skip(1), radix)
}

/// Relies on `u128::from_str_radix`: it reads an optional `+` and then one or
/// more digits of `radix` (ASCII digits, then letters of either case), and
/// fails on anything else or when the value does not fit in a `u128`.
/// It panics on a radix outside `2..=36`.
#[verifier::external_body]
fn u128_from_str_radix(s: &str, radix: u32) -> (r: Result<u128, std::num::ParseIntError>)
    requires
        2 <= radix <= 36,
    ensures
        reads_as(s@, radix as nat, r),
{
    u128::from_str_radix(s, radix)
}

/// Length of the prefix that announces base `radix`.
pub open spec fn prefix_len(radix: nat) -> nat {
    if radix == 2 || radix == 16 {
        2
    } else {
        0
    }
}

/// `t` begins with the prefix of base `radix` (`0b`, `0x`, or nothing for decimal).
pub open spec fn has_prefix(t: Seq<char>, radix: nat) -> bool {
    if radix == 2 {
        t.len() >= 2 && t[0] == '0' && t[1] == 'b'
    } else if radix == 16 {
        t.len() >= 2 && t[0] == '0' && t[1] == 'x'
    } else {
        true
    }
}

/// `t` begins with a literal of base `radix`: its prefix, then a digit.
pub open spec fn form_matches(t: Seq<char>, radix: nat) -> bool {
    has_prefix(t, radix) && t.len() > prefix_len(radix) && is_digit(t[prefix_len(radix) as int], radix)
}

/// Where the literal of base `radix` at the start of `t` ends.
pub open spec fn form_end(t: Seq<char>, radix: nat) -> nat {
    run_end(t, prefix_len(radix), radix)
}

/// The value of the literal of base `radix` at the start of `t`.
pub open spec fn form_value(t: Seq<char>, radix: nat) -> nat {
    value_of(without_separators(t.subrange(prefix_len(radix) as int, form_end(t, radix) as int)), radix)
}

/// The base that the text `t` commits a numeric literal to: binary after
/// `0b`, hexadecimal after `0x`, decimal otherwise.
pub open spec fn num_lit_radix(t: Seq<char>) -> nat {
    if has_prefix(t, 2) {
        2
    } else if has_prefix(t, 16) {
        16
    } else {
        10
    }
}

/// The numeric literal at the start of `t`, as the number of characters it
/// covers and its value; `None` where there is none (a `0b` or `0x` prefix
/// with no digit of its base after it included) or it exceeds `u128::MAX`.
pub open spec fn num_lit_spec(t: Seq<char>) -> Option<(nat, nat)> {
    let r = num_lit_radix(t);
    if form_matches(t, r) && form_value(t, r) <= u128::MAX {
        Some((form_end(t, r), form_value(t, r)))
    } else {
        None
    }
}

/// The literal of base `radix` at the start of `t`, as [`NumLit::parse`]
/// would take it were that base the only one tried.
pub open spec fn form_spec(t: Seq<char>, radix: nat) -> Option<(nat, nat)> {
    if form_matches(t, radix) && form_value(t, radix) <= u128::MAX {
        Some((form_end(t, radix), form_value(t, radix)))
    } else {
        None
    }
}

/// Why reading a literal of base `radix` from `t` fails.
pub open spec fn form_failure(t: Seq<char>, radix: nat) -> FailureKind {
    if form_matches(t, radix) {
        FailureKind::Conversion
    } else if has_prefix(t, radix) {
        FailureKind::Digit
    } else {
        FailureKind::Tag
    }
}

proof fn lemma_run_end_skip(s: Seq<char>, p: nat, i: nat, radix: nat)
    requires
        p <= s.len(),
    ensures
        run_end(s.skip(p as int), i, radix) + p == run_end(s, i + p, radix),
    decreases s.len() - p - i,
{
    if i + p < s.len() {
        assert(s.skip(p as int)[i as int] == s[(i + p) as int]);
        lemma_run_end_skip(s, p, i + 1, radix);
    }
}

proof fn lemma_run_end_bounds(s: Seq<char>, i: nat, radix: nat)
    requires
        i <= s.len(),
    ensures
        i <= run_end(s, i, radix) <= s.len(),
        forall|j: int| i <= j < run_end(s, i, radix) ==> is_digit_or_sep(#[trigger] s[j], radix),
        run_end(s, i, radix) == s.len() || !is_digit_or_sep(s[run_end(s, i, radix) as int], radix),
    decreases s.len() - i,
{
    if i < s.len() && is_digit_or_sep(s[i as int], radix) {
        lemma_run_end_bounds(s, i + 1, radix);
    }
}

/// Removing the separators from a run of digits and separators leaves digits
/// only, and at least one where the run starts with a digit.
proof fn lemma_strip_run(s: Seq<char>, radix: nat)
    requires
        radix <= 36,
        forall|j: int| 0 <= j < s.len() ==> is_digit_or_sep(#[trigger] s[j], radix),
    ensures
        all_digits(without_separators(s), radix),
        without_separators(s).len() <= s.len(),
        s.len() > 0 && is_digit(s[0], radix) ==> without_separators(s).len() > 0,
    decreases s.len(),
{
    if s.len() > 0 {
        let d = s.drop_last();
        assert forall|j: int| 0 <= j < d.len() implies is_digit_or_sep(#[trigger] d[j], radix) by {
            assert(d[j] == s[j]);
        }
        lemma_strip_run(d, radix);
        if s.len() == 1 {
            assert(s.last() == s[0]);
            assert(without_separators(d).len() == 0);
            if is_digit(s[0], radix) {
                assert(digit_value('_') == 36);
                assert(s.last() != '_');
                assert(without_separators(s) == without_separators(d).push(s.last()));
            }
        } else {
            assert(d[0] == s[0]);
        }
    }
}

proof fn lemma_run_end_take(t: Seq<char>, n: nat, i: nat, radix: nat)
    requires
        i <= n <= t.len(),
        forall|j: int| i <= j < n ==> is_digit_or_sep(#[trigger] t[j], radix),
    ensures
        run_end(t.take(n as int), i, radix) == n,
    decreases n - i,
{
    if i < n {
        assert(t.take(n as int)[i as int] == t[i as int]);
        lemma_run_end_take(t, n, i + 1, radix);
    }
}

/// A numeric literal reads the same from its own text as from the text it
/// was found at the start of.
pub proof fn lemma_num_lit_own_text(t: Seq<char>, len: nat, value: nat)
    requires
        num_lit_spec(t) == Some((len, value)),
    ensures
        num_lit_spec(t.take(len as int)) == Some((len, value)),
{
    let r = num_lit_radix(t);
    let p = prefix_len(r);
    let n = form_end(t, r);
    lemma_run_end_bounds(t, p, r);
    assert(n > p);
    let u = t.take(n as int);
    lemma_run_end_take(t, n, p, r);
    assert(u.subrange(p as int, n as int) =~= t.subrange(p as int, n as int));
    assert(u[p as int] == t[p as int]);
    if n >= 2 {
        assert(u[0] == t[0] && u[1] == t[1]);
    }
    assert(num_lit_radix(u) == r);
}

proof fn lemma_run_end_exact(t: Seq<char>, i: nat, n: nat, radix: nat)
    requires
        i <= n <= t.len(),
        forall|j: int| i <= j < n ==> is_digit_or_sep(#[trigger] t[j], radix),
        n == t.len() || !is_digit_or_sep(t[n as int], radix),
    ensures
        run_end(t, i, radix) == n,
    decreases n - i,
{
    if i < n {
        lemma_run_end_exact(t, i + 1, n, radix);
    }
}

/// The prefix that announces base `radix`.
pub open spec fn prefix_of(radix: nat) -> Seq<char> {
    if radix == 2 {
        seq!['0', 'b']
    } else if radix == 16 {
        seq!['0', 'x']
    } else {
        seq![]
    }
}

/// A literal written as the prefix of its base followed by digits and
/// separators of that base, the first a digit, is read whole, and its value
/// is that of its digits with the separators removed (where that value fits
/// in a `u128`).
pub proof fn lemma_literal_reads_whole(radix: nat, body: Seq<char>)
    requires
        radix == 2 || radix == 10 || radix == 16,
        body.len() > 0,
        is_digit(body[0], radix),
        forall|j: int| 0 <= j < body.len() ==> is_digit_or_sep(#[trigger] body[j], radix),
        value_of(without_separators(body), radix) <= u128::MAX,
    ensures
        num_lit_spec(prefix_of(radix) + body) == Some(
            ((prefix_of(radix).len() + body.len()) as nat, value_of(without_separators(body), radix)),
        ),
{
    let t = prefix_of(radix) + body;
    let p = prefix_len(radix);
    assert(prefix_of(radix).len() == p);
    assert forall|j: int| p <= j < t.len() implies is_digit_or_sep(#[trigger] t[j], radix) by {
        assert(t[j] == body[j - p]);
    }
    lemma_run_end_exact(t, p, t.len(), radix);
    assert(t.subrange(p as int, t.len() as int) =~= body);
    assert(t[p as int] == body[0]);
    assert(digit_value('b') == 11 && digit_value('x') == 33);
    if radix == 10 && t.len() > 2 {
        assert(t[1] == body[1]);
        assert(is_digit_or_sep(t[1], 10));
    }
    assert(num_lit_radix(t) == radix);
}

/// A prefix followed by no digit of its base is no literal of that base.
pub proof fn lemma_prefix_without_digit(radix: nat, rest: Seq<char>)
    requires
        radix == 2 || radix == 10 || radix == 16,
        rest.len() == 0 || !is_digit(rest[0], radix),
    ensures
        form_spec(prefix_of(radix) + rest, radix) is None,
{
    let t = prefix_of(radix) + rest;
    if t.len() > prefix_len(radix) {
        assert(t[prefix_len(radix) as int] == rest[0]);
    }
}

/// Reading a numeric literal's own text back (its prefix dropped, its
/// separators removed, in the base its text announces) gives its value.
pub proof fn lemma_num_lit_round_trip(t: Seq<char>, len: nat, value: nat)
    requires
        num_lit_spec(t) == Some((len, value)),
    ensures
        num_lit_radix(t.take(len as int)) == num_lit_radix(t),
        value_of(
            without_separators(t.take(len as int).skip(prefix_len(num_lit_radix(t)) as int)),
            num_lit_radix(t),
        ) == value,
{
    let u = t.take(len as int);
    let r = num_lit_radix(t);
    lemma_num_lit_own_text(t, len, value);
    lemma_run_end_bounds(t, prefix_len(r), r);
    assert(u.skip(prefix_len(r) as int) =~= u.subrange(prefix_len(r) as int, len as int));
}

/// Text that cannot continue a numeric literal is left as it is after it:
/// the literal is read the same with that text after it. The text must not
/// begin with a digit or separator of the literal's base, nor turn a lone
/// `0` into a `0b` or `0x` prefix.
pub proof fn lemma_trailing_text_untouched(lit: Seq<char>, trailing: Seq<char>, value: nat)
    requires
        num_lit_spec(lit) == Some((lit.len(), value)),
        trailing.len() == 0 || !is_digit_or_sep(trailing[0], num_lit_radix(lit)),
        !(lit == seq!['0'] && trailing.len() > 0 && (trailing[0] == 'b' || trailing[0] == 'x')),
    ensures
        num_lit_spec(lit + trailing) == Some((lit.len(), value)),
        (lit + trailing).skip(lit.len() as int) == trailing,
{
    let t = lit + trailing;
    let r = num_lit_radix(lit);
    let p = prefix_len(r);
    let n = lit.len();
    lemma_run_end_bounds(lit, p, r);
    assert forall|j: int| p <= j < n implies is_digit_or_sep(#[trigger] t[j], r) by {
        assert(t[j] == lit[j]);
    }
    if trailing.len() > 0 {
        assert(t[n as int] == trailing[0]);
    }
    lemma_run_end_exact(t, p, n, r);
    assert(t.subrange(p as int, n as int) =~= lit.subrange(p as int, n as int));
    assert(t[p as int] == lit[p as int]);
    assert(digit_value('b') == 11 && digit_value('x') == 33);
    if n >= 2 {
        assert(t[0] == lit[0] && t[1] == lit[1]);
    } else {
        assert(t[0] == lit[0]);
        if lit[0] == '0' {
            assert(lit =~= seq!['0']);
        }
    }
    assert(num_lit_radix(t) == r);
    assert(t.skip(n as int) =~= trailing);
}

/// Numeric literals of equal value are structurally equal, whatever text
/// and position they were parsed from.
pub proof fn lemma_equal_values_equal_literals(a: NumLit, b: NumLit)
    requires
        a.inner == b.inner,
    ensures
        NumLit::spec_ast_eq(a, b),
        Expression::spec_ast_eq(Expression::NumLit(a), Expression::NumLit(b)),
{
}

impl<'s> NumLit<'s> {
    /// A literal of value `num` parsed from `frag`.
    pub fn new(frag: Fragment<'s>, num: u128) -> (r: Self)
        ensures
            r.frag == frag,
            r.inner == num,
    {
        Self { frag, inner: num }
    }

    /// Reads hexadecimal digits.
    pub fn from_hex(input: &str) -> (r: Result<u128, std::num::ParseIntError>)
        ensures
            reads_as(input@, 16, r),
    {
        u128_from_str_radix(input, 16)
    }

    /// Reads decimal digits.
    pub fn from_dec(input: &str) -> (r: Result<u128, std::num::ParseIntError>)
        ensures
            reads_as(input@, 10, r),
    {
        u128_from_str_radix(input, 10)
    }

    /// Reads binary digits.
    pub fn from_bin(input: &str) -> (r: Result<u128, std::num::ParseIntError>)
        ensures
            reads_as(input@, 2, r),
    {
        u128_from_str_radix(input, 2)
    }

    /// Removes every `_`.
    pub fn clear_underscores(input: &str) -> (r: String)
        ensures
            r@ == without_separators(input@),
    {
        let n = input.unicode_len();
        let mut res = String::new();
        let mut i: usize = 0;
        while i < n
            invariant
                n == input@.len(),
                i <= n,
                res@ == without_separators(input@.take(i as int)),
            decreases n - i,
        {
            let c = input.get_char(i);
            assert(input@.take(i + 1).drop_last() =~= input@.take(i as int));
            if c != '_' {
                let one = input.substring_char(i, i + 1);
                assert(one@ =~= seq![c]);
                res.append(one);
            }
            i = i + 1;
        }
        assert(input@.take(n as int) =~= input@);
        res
    }

    /// Reads a literal of base `radix` (2, 10 or 16) at the start of `input`.
    /// Returns the remaining input, the literal's fragment and its value.
    fn primary(input: Fragment<'s>, radix: u32) -> (r: Result<(Fragment<'s>, Fragment<'s>, u128), ParseFailure<'s>>)
        requires
            radix == 2 || radix == 10 || radix == 16,
        ensures
            r is Ok <==> form_spec(input@, radix as nat) is Some,
            r matches Ok((rest, frag, v)) ==> form_spec(input@, radix as nat) == Some((frag@.len(), v as nat))
                && Fragment::is_split_of(frag, rest, input, frag@.len()),
            r matches Err(e) ==> e.at == input && e.kind == form_failure(input@, radix as nat),
    {
        let p: usize = if radix == 10 { 0 } else { 2 };
        let ghost t = input@;
        proof {
            reveal_strlit("0b");
            reveal_strlit("0x");
            if radix == 2 && has_prefix(t, 2) {
                assert(t.take(2) =~= "0b"@);
            }
            if radix == 16 && has_prefix(t, 16) {
                assert(t.take(2) =~= "0x"@);
            }
        }
        let after = if radix == 2 {
            match tag(input, "0b") {
                Ok((rest, m)) => {
                    assert(m@[0] == t[0] && m@[1] == t[1]);
                    rest
                },
                Err(e) => { return Err(e); }
            }
        } else if radix == 16 {
            match tag(input, "0x") {
                Ok((rest, m)) => {
                    assert(m@[0] == t[0] && m@[1] == t[1]);
                    rest
                },
                Err(e) => { return Err(e); }
            }
        } else {
            input
        };
        assert(after@ =~= t.skip(p as int));
        if !peek_digit(&after, radix) {
            return Err(ParseFailure { at: input, kind: FailureKind::Digit });
        }
        let (after_run, run) = digit_run(after, radix);
        let ghost end = form_end(t, radix as nat);
        proof {
            lemma_run_end_skip(t, p as nat, 0, radix as nat);
            lemma_run_end_bounds(t, p as nat, radix as nat);
            assert(run@ =~= t.subrange(p as int, end as int));
            lemma_strip_run(run@, radix as nat);
        }
        let cleaned = Self::clear_underscores(run.text());
        let conv = if radix == 2 {
            Self::from_bin(cleaned.as_str())
        } else if radix == 16 {
            Self::from_hex(cleaned.as_str())
        } else {
            Self::from_dec(cleaned.as_str())
        };
        match conv {
            Ok(v) => {
                let (frag, rest) = input.split_at(input.len() - after_run.len());
                Ok((rest, frag, v))
            },
            Err(_) => Err(ParseFailure { at: input, kind: FailureKind::Conversion }),
        }
    }

    /// Reads a hexadecimal literal such as `0xFF_FF`.
    pub fn hex_primary(input: Fragment<'s>) -> (r: Result<(Fragment<'s>, u128), ParseFailure<'s>>)
        ensures
            r is Ok <==> form_spec(input@, 16) is Some,
            r matches Ok((rest, v)) ==> form_spec(input@, 16) == Some(((rest.lo() - input.lo()) as nat, v as nat))
                && Fragment::is_rest_of(rest, input, (rest.lo() - input.lo()) as nat),
            r matches Err(e) ==> e.at == input && e.kind == form_failure(input@, 16),
    {
        match Self::primary(input, 16) {
            Ok((rest, _, v)) => Ok((rest, v)),
            Err(e) => Err(e),
        }
    }

    /// Reads a binary literal such as `0b10_10`.
    pub fn bin_primary(input: Fragment<'s>) -> (r: Result<(Fragment<'s>, u128), ParseFailure<'s>>)
        ensures
            r is Ok <==> form_spec(input@, 2) is Some,
            r matches Ok((rest, v)) ==> form_spec(input@, 2) == Some(((rest.lo() - input.lo()) as nat, v as nat))
                && Fragment::is_rest_of(rest, input, (rest.lo() - input.lo()) as nat),
            r matches Err(e) ==> e.at == input && e.kind == form_failure(input@, 2),
    {
        match Self::primary(input, 2) {
            Ok((rest, _, v)) => Ok((rest, v)),
            Err(e) => Err(e),
        }
    }

    /// Reads a decimal literal such as `1_000`.
    pub fn dec_primary(input: Fragment<'s>) -> (r: Result<(Fragment<'s>, u128), ParseFailure<'s>>)
        ensures
            r is Ok <==> form_spec(input@, 10) is Some,
            r matches Ok((rest, v)) ==> form_spec(input@, 10) == Some(((rest.lo() - input.lo()) as nat, v as nat))
                && Fragment::is_rest_of(rest, input, (rest.lo() - input.lo()) as nat),
            r matches Err(e) ==> e.at == input && e.kind == form_failure(input@, 10),
    {
        match Self::primary(input, 10) {
            Ok((rest, _, v)) => Ok((rest, v)),
            Err(e) => Err(e),
        }
    }

    /// Parses a numeric literal: binary, hexadecimal, then decimal. A `0b` or
    /// `0x` prefix commits the literal to its base: without a digit of that
    /// base after it, or with a value too large for a `u128`, the literal fails.
    pub fn parse(input: Fragment<'s>) -> (r: Result<(Fragment<'s>, NumLit<'s>), ParseFailure<'s>>)
        ensures
            r is Ok <==> num_lit_spec(input@) is Some,
            r matches Ok((rest, n)) ==> num_lit_spec(input@) == Some((n.frag@.len(), n.inner as nat))
                && Fragment::is_split_of(n.frag, rest, input, n.frag@.len()),
            r matches Err(e) ==> e.at == input && e.kind == (if form_matches(input@, num_lit_radix(input@)) {
                FailureKind::Conversion
            } else {
                FailureKind::Digit
            }),
    {
        match Self::primary(input, 2) {
            Ok((rest, frag, v)) => { return Ok((rest, Self::new(frag, v))); },
            Err(e) => {
                if !(e.kind == FailureKind::Tag) {
                    return Err(e);
                }
            },
        }
        match Self::primary(input, 16) {
            Ok((rest, frag, v)) => { return Ok((rest, Self::new(frag, v))); },
            Err(e) => {
                if !(e.kind == FailureKind::Tag) {
                    return Err(e);
                }
            },
        }
        match Self::primary(input, 10) {
            Ok((rest, frag, v)) => Ok((rest, Self::new(frag, v))),
            Err(e) => Err(e),
        }
    }

    /// The fragment the literal was parsed from.
    pub fn get_fragment_reference(&self) -> (r: &Fragment<'s>)
        ensures
            *r == self.frag,
    {
        &self.frag
    }

    /// Structural equality: the values alone are compared.
    pub fn ast_eq(fst: &Self, snd: &Self) -> (r: bool)
        ensures
            r == Self::spec_ast_eq(*fst, *snd),
    {
        fst.inner == snd.inner
    }
}

} // verus!
