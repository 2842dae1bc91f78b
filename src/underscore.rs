//! The wildcard pattern `_`.

use vstd::prelude::*;
use crate::ast::UnderscorePattern;
use crate::fragment::Fragment;
use crate::parsers::{FailureKind, ParseFailure, tag};

verus! {

/// Any two underscore patterns are structurally equal, wherever they were
/// parsed from.
pub proof fn lemma_underscores_equal(a: UnderscorePattern, b: UnderscorePattern)
    ensures
        UnderscorePattern::spec_ast_eq(a, b),
{
}

impl<'s> UnderscorePattern<'s> {
    /// The text of the pattern.
    pub const UNDERSCORE: &'static str = "_";

    /// Parses an underscore.
    pub fn parse(input: Fragment<'s>) -> (r: Result<(Fragment<'s>, Self), ParseFailure<'s>>)
        ensures
            r is Ok <==> (input@.len() > 0 && input@[0] == '_'),
            r matches Ok((rest, u)) ==> Fragment::is_split_of(u.frag, rest, input, 1),
            r matches Err(e) ==> e.at == input && e.kind == FailureKind::Tag,
    {
        proof {
            reveal_strlit("_");
            if input@.len() > 0 && input@[0] == '_' {
                assert(input@.take(1) =~= "_"@);
            }
        }
        match tag(input, "_") {
            Ok((rest, frag)) => {
                assert(frag@[0] == input@[0]);
                Ok((rest, Self { frag }))
            },
            Err(e) => Err(e),
        }
    }

    /// The fragment the pattern was parsed from.
    pub fn get_fragment(&self) -> (r: Fragment<'s>)
        ensures
            r == self.frag,
    {
        self.frag
    }

    /// Structural equality: any two underscores are equal.
    pub fn ast_eq(fst: &Self, snd: &Self) -> (r: bool)
        ensures
            r == Self::spec_ast_eq(*fst, *snd),
    {
        true
    }
}

} // verus!
