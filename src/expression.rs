//! Expressions: literals combined by binary operators, with `*`, `/`, `%`
//! binding tighter than `+`, `-`, and left grouping within a level.

use vstd::prelude::*;
use crate::ast::{BinaryExpression, BinaryOperator, BooleanLit, Expression, NumLit};
use crate::boolean_lit::{bool_lit_spec, lemma_bool_lit_own_text};
use crate::fragment::Fragment;
use crate::num_lit::{lemma_num_lit_own_text, num_lit_radix, num_lit_spec, prefix_len};
use crate::parsers::{FailureKind, ParseFailure, digit_value, is_digit, starts_with};

verus! {

/// Whitespace allowed around an operator.
pub open spec fn is_ws(c: char) -> bool {
    c == ' ' || c == '\t' || c == '\n' || c == '\r'
}

/// The character that writes `op`.
pub open spec fn op_char(op: BinaryOperator) -> char {
    match op {
        BinaryOperator::Add => '+',
        BinaryOperator::Sub => '-',
        BinaryOperator::Mul => '*',
        BinaryOperator::Div => '/',
        BinaryOperator::Mod => '%',
    }
}

/// Precedence level of `op`: 1 for `+` and `-`, 0 for the tighter `*`, `/`, `%`.
pub open spec fn op_level(op: BinaryOperator) -> nat {
    match op {
        BinaryOperator::Add | BinaryOperator::Sub => 1,
        _ => 0,
    }
}

/// How loosely `e` binds: 0 for a literal, one more than its operator's
/// level for a binary expression.
pub open spec fn binding(e: Expression) -> nat {
    match e {
        Expression::BinaryExpression(b) => op_level(b.op) + 1,
        _ => 0,
    }
}

/// `g` is the operator `op` with whitespace on either side.
pub open spec fn is_op_gap(g: Seq<char>, op: BinaryOperator) -> bool {
    exists|k: int|
        0 <= k < g.len() && #[trigger] g[k] == op_char(op) && (forall|j: int| 0 <= j < k ==> is_ws(#[trigger] g[j]))
            && (forall|j: int| k < j < g.len() ==> is_ws(#[trigger] g[j]))
}

/// `t` begins with a literal that can stand as an operand.
pub open spec fn is_operand_start(t: Seq<char>) -> bool {
    num_lit_spec(t) is Some || bool_lit_spec(t) is Some
}

/// The operator that the character `c` writes, if any.
pub open spec fn op_of(c: char) -> Option<BinaryOperator> {
    if c == '+' {
        Some(BinaryOperator::Add)
    } else if c == '-' {
        Some(BinaryOperator::Sub)
    } else if c == '*' {
        Some(BinaryOperator::Mul)
    } else if c == '/' {
        Some(BinaryOperator::Div)
    } else if c == '%' {
        Some(BinaryOperator::Mod)
    } else {
        None
    }
}

/// Length of the literal that `t` begins with.
pub open spec fn lit_len(t: Seq<char>) -> nat {
    match num_lit_spec(t) {
        Some((n, _)) => n,
        None => match bool_lit_spec(t) {
            Some((n, _)) => n,
            None => 0,
        },
    }
}

/// `s` holds whitespace up to position `a`, there an operator of precedence
/// at most `level`, whitespace up to position `c`, and from there an operand.
pub open spec fn continues_at(s: Seq<char>, level: nat, a: int, c: int) -> bool {
    &&& 0 <= a < c <= s.len()
    &&& forall|j: int| 0 <= j < a ==> is_ws(#[trigger] s[j])
    &&& op_of(s[a]) is Some
    &&& op_level(op_of(s[a])->Some_0) <= level
    &&& forall|j: int| a < j < c ==> is_ws(#[trigger] s[j])
    &&& is_operand_start(s.skip(c))
}

/// `s` begins with an operator of precedence at most `level` and an operand
/// after it, with whitespace around the operator.
pub open spec fn continues(s: Seq<char>, level: nat) -> bool {
    exists|a: int, c: int| continues_at(s, level, a, c)
}

/// An operand never begins with whitespace.
proof fn lemma_operand_start_not_ws(t: Seq<char>)
    requires
        is_operand_start(t),
    ensures
        t.len() > 0 && !is_ws(t[0]),
{
    if num_lit_spec(t) is Some {
        let r = num_lit_radix(t);
        assert(is_digit(t[prefix_len(r) as int], r));
        assert(digit_value(' ') == 36 && digit_value('\t') == 36 && digit_value('\n') == 36
            && digit_value('\r') == 36);
        if prefix_len(r) == 2 {
            assert(t[0] == '0');
        }
    } else {
        assert(t[0] == seq!['t', 'r', 'u', 'e'][0] || t[0] == seq!['f', 'a', 'l', 's', 'e'][0]) by {
            if starts_with(t, seq!['t', 'r', 'u', 'e']) {
                assert(t.take(4)[0] == t[0]);
            } else {
                assert(t.take(5)[0] == t[0]);
            }
        }
    }
}

/// Where a run of whitespace of length `wa` that cannot be extended starts
/// `s`, an operator that continues `s` stands right after it, and where a
/// second such run follows the operator up to `wc`, the operand starts at `wc`.
proof fn lemma_continuation_positions(s: Seq<char>, level: nat, a: int, c: int, wa: int, wc: int)
    requires
        continues_at(s, level, a, c),
        0 <= wa <= s.len(),
        forall|j: int| 0 <= j < wa ==> is_ws(#[trigger] s[j]),
        wa == s.len() || !is_ws(s[wa]),
        wa < wc <= s.len(),
        forall|j: int| wa < j < wc ==> is_ws(#[trigger] s[j]),
        wc == s.len() || !is_ws(s[wc]),
    ensures
        a == wa,
        c == wc,
{
    if a < wa {
        assert(is_ws(s[a]));
    }
    if a > wa {
        assert(is_ws(s[wa]));
    }
    lemma_operand_start_not_ws(s.skip(c));
    assert(s.skip(c)[0] == s[c]);
    if c < wc {
        assert(is_ws(s[c]));
    }
    if c > wc {
        assert(is_ws(s[wc]));
    }
}

/// An operator that stands first in `s`, past whitespace that cannot be extended,
/// stands right after that whitespace.
proof fn lemma_operator_position(s: Seq<char>, level: nat, a: int, c: int, wa: int)
    requires
        continues_at(s, level, a, c),
        0 <= wa <= s.len(),
        forall|j: int| 0 <= j < wa ==> is_ws(#[trigger] s[j]),
        wa == s.len() || !is_ws(s[wa]),
    ensures
        a == wa,
{
    if a < wa {
        assert(is_ws(s[a]));
    }
    if a > wa {
        assert(is_ws(s[wa]));
    }
}

/// `e` is a faithful reading of the text it covers: each literal's payload is
/// what its own text says, each binary expression spans its left operand, the
/// operator between whitespace, and its right operand, and the tree obeys
/// the precedence levels and left grouping.
pub open spec fn expr_valid(e: Expression) -> bool
    decreases e,
{
    match e {
        Expression::NumLit(n) => num_lit_spec(n.frag@) == Some((n.frag@.len(), n.inner as nat)),
        Expression::BooleanLit(b) => bool_lit_spec(b.frag@) == Some((b.frag@.len(), b.inner)),
        Expression::BinaryExpression(b) => {
            let l = b.left.frag();
            let r = b.right.frag();
            &&& expr_valid(*b.left)
            &&& expr_valid(*b.right)
            &&& binding(*b.left) <= binding(e)
            &&& binding(*b.right) < binding(e)
            &&& l.buffer() == b.frag.buffer()
            &&& r.buffer() == b.frag.buffer()
            &&& l.lo() == b.frag.lo()
            &&& r.hi() == b.frag.hi()
            &&& l.hi() <= r.lo()
            &&& is_op_gap(b.frag.buffer().subrange(l.hi() as int, r.lo() as int), b.op)
        },
    }
}

/// `e`, parsed from `input`, covers a prefix of it and `rest` is what follows.
pub open spec fn parsed_from(e: Expression, rest: Fragment, input: Fragment) -> bool {
    &&& expr_valid(e)
    &&& Fragment::is_split_of(e.frag(), rest, input, e.frag()@.len())
}

/// Consumes the whitespace at the start of `input`; returns the rest and the
/// whitespace.
fn skip_ws<'s>(input: Fragment<'s>) -> (r: (Fragment<'s>, Fragment<'s>))
    ensures
        Fragment::is_split_of(r.1, r.0, input, r.1@.len()),
        forall|j: int| 0 <= j < r.1@.len() ==> is_ws(#[trigger] r.1@[j]),
        r.0@.len() == 0 || !is_ws(r.0@[0]),
{
    let len = input.len();
    let mut i: usize = 0;
    while i < len && is_ws_exec(input.char_at(i))
        invariant
            len == input@.len(),
            i <= len,
            forall|j: int| 0 <= j < i ==> is_ws(#[trigger] input@[j]),
        decreases len - i,
    {
        i = i + 1;
    }
    let (ws, rest) = input.split_at(i);
    (rest, ws)
}

/// Computes [`is_ws`].
fn is_ws_exec(c: char) -> (r: bool)
    ensures
        r == is_ws(c),
{
    c == ' ' || c == '\t' || c == '\n' || c == '\r'
}

/// The operator of precedence `level` that `input` begins with, if any.
fn op_at(input: &Fragment, level: u8) -> (r: Option<BinaryOperator>)
    ensures
        r matches Some(op) ==> input@.len() > 0 && input@[0] == op_char(op) && op_of(input@[0]) == Some(op)
            && op_level(op) == level,
        r is None ==> !(input@.len() > 0 && op_of(input@[0]) is Some && op_level(op_of(input@[0])->Some_0) == level),
{
    if input.is_empty() {
        return None;
    }
    let c = input.char_at(0);
    if level == 1 {
        if c == '+' {
            Some(BinaryOperator::Add)
        } else if c == '-' {
            Some(BinaryOperator::Sub)
        } else {
            None
        }
    } else if level == 0 {
        if c == '*' {
            Some(BinaryOperator::Mul)
        } else if c == '/' {
            Some(BinaryOperator::Div)
        } else if c == '%' {
            Some(BinaryOperator::Mod)
        } else {
            None
        }
    } else {
        None
    }
}

impl<'s> Expression<'s> {
    /// Parses a literal operand: a numeric literal, else a boolean literal.
    fn operand(input: Fragment<'s>) -> (r: Result<(Fragment<'s>, Expression<'s>), ParseFailure<'s>>)
        ensures
            r is Ok <==> is_operand_start(input@),
            r matches Ok((rest, e)) ==> parsed_from(e, rest, input) && binding(e) == 0
                && e.frag()@.len() == lit_len(input@),
            r matches Err(f) ==> f.at == input && f.kind == FailureKind::Operand,
    {
        match NumLit::parse(input) {
            Ok((rest, n)) => {
                proof { lemma_num_lit_own_text(input@, n.frag@.len(), n.inner as nat); }
                return Ok((rest, Expression::NumLit(n)));
            },
            Err(_) => {},
        }
        match BooleanLit::parse(input) {
            Ok((rest, b)) => {
                proof { lemma_bool_lit_own_text(input@, b.frag@.len(), b.inner); }
                Ok((rest, Expression::BooleanLit(b)))
            },
            Err(_) => Err(ParseFailure { at: input, kind: FailureKind::Operand }),
        }
    }

    /// Parses a chain of operands joined by operators of precedence `level`
    /// (each operand a chain of the level below), grouping to the left, and
    /// stops before the first operator not followed by an operand.
    #[verifier::rlimit(60)]
    fn parse_level(input: Fragment<'s>, level: u8) -> (r: Result<(Fragment<'s>, Expression<'s>), ParseFailure<'s>>)
        requires
            level <= 1,
        ensures
            r is Ok <==> is_operand_start(input@),
            r matches Ok((rest, e)) ==> parsed_from(e, rest, input) && binding(e) <= level + 1,
            r matches Ok((rest, e)) ==> !continues(rest@, level as nat),
            r matches Ok((rest, e)) ==> (binding(e) == 0 ==> e.frag()@.len() == lit_len(input@)),
            r matches Ok((rest, e)) ==> (binding(e) > 0 ==> continues(input@.skip(lit_len(input@) as int), level as nat)),
            r matches Err(f) ==> f.at == input && f.kind == FailureKind::Operand,
        decreases level,
    {
        let first = if level == 0 {
            Self::operand(input)
        } else {
            Self::parse_level(input, level - 1)
        };
        let (mut rest, mut acc) = match first {
            Ok(x) => x,
            Err(e) => { return Err(e); },
        };
        let ghost first_rest = input@.skip(lit_len(input@) as int);
        proof {
            if binding(acc) > 0 && level == 1 {
                let (a, c) = choose|a: int, c: int| continues_at(first_rest, 0, a, c);
                assert(continues_at(first_rest, 1, a, c));
            }
        }
        loop
            invariant
                level <= 1,
                is_operand_start(input@),
                parsed_from(acc, rest, input),
                binding(acc) <= level + 1,
                first_rest == input@.skip(lit_len(input@) as int),
                binding(acc) == 0 ==> acc.frag()@.len() == lit_len(input@),
                level == 1 ==> !continues(rest@, 0),
                binding(acc) > 0 ==> continues(first_rest, level as nat),
            ensures
                parsed_from(acc, rest, input),
                binding(acc) <= level + 1,
                binding(acc) == 0 ==> acc.frag()@.len() == lit_len(input@),
                !continues(rest@, level as nat),
                binding(acc) > 0 ==> continues(first_rest, level as nat),
            decreases rest@.len(),
        {
            let (after_ws, ws1) = skip_ws(rest);
            let ghost sr = rest@;
            let ghost wa = ws1@.len() as int;
            proof {
                assert forall|j: int| 0 <= j < wa implies is_ws(#[trigger] sr[j]) by {
                    assert(sr[j] == ws1@[j]);
                }
                if wa < sr.len() {
                    assert(sr[wa] == after_ws@[0]);
                }
            }
            let op = match op_at(&after_ws, level) {
                Some(op) => op,
                None => {
                    proof {
                        if continues(sr, level as nat) {
                            let (a, c) = choose|a: int, c: int| continues_at(sr, level as nat, a, c);
                            lemma_operator_position(sr, level as nat, a, c, wa);
                            assert(sr[a] == after_ws@[0]);
                            if level == 1 {
                                assert(continues_at(sr, 0, a, c));
                            }
                        }
                    }
                    break;
                },
            };
            let (_, after_op) = after_ws.split_at(1);
            let (after_ws2, ws2) = skip_ws(after_op);
            let next = if level == 0 {
                Self::operand(after_ws2)
            } else {
                Self::parse_level(after_ws2, level - 1)
            };
            let ghost wc = wa + 1 + ws2@.len();
            proof {
                assert(after_op@ =~= sr.skip(wa + 1));
                assert forall|j: int| wa < j < wc implies is_ws(#[trigger] sr[j]) by {
                    assert(sr[j] == ws2@[j - wa - 1]);
                }
                if wc < sr.len() {
                    assert(sr[wc] == after_ws2@[0]);
                }
                assert(after_ws2@ =~= sr.skip(wc));
                assert(sr[wa] == after_ws@[0]);
            }
            let (r2, rhs) = match next {
                Ok(x) => x,
                Err(_) => {
                    proof {
                        if continues(sr, level as nat) {
                            let (a, c) = choose|a: int, c: int| continues_at(sr, level as nat, a, c);
                            lemma_continuation_positions(sr, level as nat, a, c, wa, wc);
                        }
                    }
                    break;
                },
            };
            proof {
                if binding(acc) == 0 {
                    assert(sr =~= first_rest);
                    assert(continues_at(sr, level as nat, wa, wc));
                }
            }
            let consumed = input.len() - r2.len();
            let (frag, rest2) = input.split_at(consumed);
            proof {
                let buf = input.buffer();
                let lhi = acc.frag().hi();
                let rlo = rhs.frag().lo();
                let a = wa;
                let g = buf.subrange(lhi as int, rlo as int);
                assert(rest.lo() == lhi);
                assert(rlo == lhi + a + 1 + ws2@.len());
                assert forall|j: int| 0 <= j < a implies is_ws(#[trigger] g[j]) by {
                    assert(g[j] == ws1@[j]);
                }
                assert(g[a] == after_ws@[0]);
                assert forall|j: int| a < j < g.len() implies is_ws(#[trigger] g[j]) by {
                    assert(g[j] == ws2@[j - a - 1]);
                }
                assert(is_op_gap(g, op));
            }
            proof {
                assert(rest2@ =~= r2@);
            }
            acc = Expression::BinaryExpression(
                BinaryExpression { frag, left: Box::new(acc), op, right: Box::new(rhs) },
            );
            rest = rest2;
        }
        Ok((rest, acc))
    }

    /// Parses the longest expression at the start of `input`: literals joined
    /// by binary operators.
    pub fn parse(input: Fragment<'s>) -> (r: Result<(Fragment<'s>, Expression<'s>), ParseFailure<'s>>)
        ensures
            r is Ok <==> is_operand_start(input@),
            r matches Ok((rest, e)) ==> parsed_from(e, rest, input),
            r matches Ok((rest, e)) ==> (binding(e) > 0 <==> continues(input@.skip(lit_len(input@) as int), 1)),
            r matches Ok((rest, e)) ==> !continues(rest@, 1),
            r matches Err(f) ==> f.at == input && f.kind == FailureKind::Operand,
    {
        let r = Self::parse_level(input, 1);
        proof {
            if r is Ok && binding(r->Ok_0.1) == 0 {
                assert(r->Ok_0.0@ =~= input@.skip(lit_len(input@) as int));
            }
        }
        r
    }
}

impl<'s> BinaryExpression<'s> {
    /// Parses the longest expression at the start of `input`, which must hold
    /// at least one binary operator: its first literal must be followed by an
    /// operator and another operand.
    pub fn parse(input: Fragment<'s>) -> (r: Result<(Fragment<'s>, Expression<'s>), ParseFailure<'s>>)
        ensures
            r is Ok <==> is_operand_start(input@) && continues(input@.skip(lit_len(input@) as int), 1),
            r matches Ok((rest, e)) ==> e is BinaryExpression && parsed_from(e, rest, input),
            r matches Ok((rest, e)) ==> !continues(rest@, 1),
            r matches Err(f) ==> f.at == input && f.kind == FailureKind::Operand,
    {
        match Expression::parse(input) {
            Ok((rest, e)) => {
                if let Expression::BinaryExpression(_) = e {
                    Ok((rest, e))
                } else {
                    Err(ParseFailure { at: input, kind: FailureKind::Operand })
                }
            },
            Err(f) => Err(f),
        }
    }

    /// Structural equality: same operator and structurally equal operands.
    pub fn ast_eq(fst: &Self, snd: &Self) -> (r: bool)
        ensures
            r == (fst.op == snd.op && Expression::spec_ast_eq(*fst.left, *snd.left)
                && Expression::spec_ast_eq(*fst.right, *snd.right)),
    {
        fst.op == snd.op && Expression::ast_eq(&fst.left, &snd.left) && Expression::ast_eq(&fst.right, &snd.right)
    }
}

impl<'s> From<NumLit<'s>> for Expression<'s> {
    /// The literal as an expression.
    fn from(n: NumLit<'s>) -> Expression<'s> {
        Expression::NumLit(n)
    }
}

impl<'s> vstd::std_specs::convert::FromSpecImpl<NumLit<'s>> for Expression<'s> {
    open spec fn obeys_from_spec() -> bool {
        true
    }

    open spec fn from_spec(n: NumLit<'s>) -> Expression<'s> {
        Expression::NumLit(n)
    }
}

impl<'s> BooleanLit<'s> {
    /// The literal as an expression.
    pub fn create_expr(self) -> (r: Expression<'s>)
        ensures
            r == Expression::BooleanLit(self),
    {
        Expression::BooleanLit(self)
    }
}

} // verus!
