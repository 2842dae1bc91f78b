//! The boolean literals `true` and `false`.

use vstd::prelude::*;
use crate::ast::BooleanLit;
use crate::fragment::Fragment;
use crate::parsers::{FailureKind, ParseFailure, starts_with, tag};

verus! {

/// The boolean literal at the start of `t`, as the number of characters it
/// covers and its value; `None` where there is none.
pub open spec fn bool_lit_spec(t: Seq<char>) -> Option<(nat, bool)> {
    if starts_with(t, seq!['t', 'r', 'u', 'e']) {
        Some((4, true))
    } else if starts_with(t, seq!['f', 'a', 'l', 's', 'e']) {
        Some((5, false))
    } else {
        None
    }
}

/// A boolean literal reads the same from its own text as from the text it
/// was found at the start of.
pub proof fn lemma_bool_lit_own_text(t: Seq<char>, len: nat, value: bool)
    requires
        bool_lit_spec(t) == Some((len, value)),
    ensures
        bool_lit_spec(t.take(len as int)) == Some((len, value)),
{
    let u = t.take(len as int);
    assert(u.take(len as int) =~= u);
    if !value {
        assert(u[0] == 'f');
    }
}

/// The keywords `true` and `false` are read whole, as the value they name.
pub proof fn lemma_boolean_keywords()
    ensures
        bool_lit_spec(seq!['t', 'r', 'u', 'e']) == Some((4nat, true)),
        bool_lit_spec(seq!['f', 'a', 'l', 's', 'e']) == Some((5nat, false)),
{
    assert(seq!['t', 'r', 'u', 'e'].take(4) =~= seq!['t', 'r', 'u', 'e']);
    assert(seq!['f', 'a', 'l', 's', 'e'].take(5) =~= seq!['f', 'a', 'l', 's', 'e']);
    assert(seq!['f', 'a', 'l', 's', 'e'][0] == 'f');
}

/// Text after a boolean keyword is left as it is: the keyword is read the
/// same with any text after it.
pub proof fn lemma_bool_trailing_text_untouched(lit: Seq<char>, trailing: Seq<char>, value: bool)
    requires
        bool_lit_spec(lit) == Some((lit.len(), value)),
    ensures
        bool_lit_spec(lit + trailing) == Some((lit.len(), value)),
        (lit + trailing).skip(lit.len() as int) == trailing,
{
    let t = lit + trailing;
    assert(t.take(lit.len() as int) =~= lit);
    assert(lit.take(lit.len() as int) =~= lit);
    if value {
        assert(t.take(4) =~= lit.take(4));
    } else {
        assert(t.take(5) =~= lit.take(5));
        assert(t[0] == lit[0]);
        assert(lit[0] == 'f');
    }
    assert(t.skip(lit.len() as int) =~= trailing);
}

impl<'s> BooleanLit<'s> {
    /// Literal representing a true value.
    pub const TRUE: &'static str = "true";

    /// Literal representing a false value.
    pub const FALSE: &'static str = "false";

    /// A literal of value `val` parsed from `fr`.
    pub fn new(fr: Fragment<'s>, val: bool) -> (r: Self)
        ensures
            r.frag == fr,
            r.inner == val,
    {
        Self { frag: fr, inner: val }
    }

    /// Recognises `true` or `false`; returns the remaining input, the
    /// keyword's fragment and its value.
    fn parser_inner(inp: Fragment<'s>) -> (r: Result<(Fragment<'s>, Fragment<'s>, bool), ParseFailure<'s>>)
        ensures
            r is Ok <==> bool_lit_spec(inp@) is Some,
            r matches Ok((rest, frag, v)) ==> bool_lit_spec(inp@) == Some((frag@.len(), v))
                && Fragment::is_split_of(frag, rest, inp, frag@.len()),
            r matches Err(e) ==> e.at == inp && e.kind == FailureKind::Tag,
    {
        proof {
            reveal_strlit("true");
            reveal_strlit("false");
            assert("true"@ =~= seq!['t', 'r', 'u', 'e']);
            assert("false"@ =~= seq!['f', 'a', 'l', 's', 'e']);
        }
        match tag(inp, "true") {
            Ok((rest, frag)) => Ok((rest, frag, true)),
            Err(_) => match tag(inp, "false") {
                Ok((rest, frag)) => Ok((rest, frag, false)),
                Err(e) => Err(e),
            },
        }
    }

    /// Parses a boolean literal.
    pub fn parse(input: Fragment<'s>) -> (r: Result<(Fragment<'s>, BooleanLit<'s>), ParseFailure<'s>>)
        ensures
            r is Ok <==> bool_lit_spec(input@) is Some,
            r matches Ok((rest, b)) ==> bool_lit_spec(input@) == Some((b.frag@.len(), b.inner))
                && Fragment::is_split_of(b.frag, rest, input, b.frag@.len()),
            r matches Err(e) ==> e.at == input && e.kind == FailureKind::Tag,
    {
        match Self::parser_inner(input) {
            Ok((rest, fr, v)) => Ok((rest, Self::new(fr, v))),
            Err(e) => Err(e),
        }
    }

    /// The fragment the literal was parsed from.
    pub fn get_fragment(&self) -> (r: Fragment<'s>)
        ensures
            r == self.frag,
    {
        self.frag
    }

    /// Structural equality: the values alone are compared.
    pub fn ast_eq(fst: &Self, snd: &Self) -> (r: bool)
        ensures
            r == Self::spec_ast_eq(*fst, *snd),
    {
        fst.inner == snd.inner
    }
}

} // verus!
