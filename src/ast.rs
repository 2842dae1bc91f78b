//! The AST node model. Every node keeps the fragment it was parsed from
//! beside its payload.

use vstd::prelude::*;
use crate::fragment::Fragment;

verus! {

/// An unsigned integer literal.
#[derive(Clone, Copy, Debug)]
pub struct NumLit<'s> {
    pub frag: Fragment<'s>,
    pub inner: u128,
}

/// The literal `true` or `false`.
#[derive(Clone, Copy, Debug)]
pub struct BooleanLit<'s> {
    pub frag: Fragment<'s>,
    pub inner: bool,
}

/// The wildcard pattern `_`.
#[derive(Clone, Copy, Debug)]
pub struct UnderscorePattern<'s> {
    pub frag: Fragment<'s>,
}

/// A binary operator. `*`, `/` and `%` bind tighter than `+` and `-`;
/// operators of one level group to the left.
#[derive(Clone, Copy, Debug, PartialEq, Eq, Structural)]
pub enum BinaryOperator {
    Add,
    Sub,
    Mul,
    Div,
    Mod,
}

/// `left op right`.
#[derive(Debug)]
pub struct BinaryExpression<'s> {
    pub frag: Fragment<'s>,
    pub left: Box<Expression<'s>>,
    pub op: BinaryOperator,
    pub right: Box<Expression<'s>>,
}

/// An expression.
#[derive(Debug)]
pub enum Expression<'s> {
    NumLit(NumLit<'s>),
    BooleanLit(BooleanLit<'s>),
    BinaryExpression(BinaryExpression<'s>),
}

impl<'s> Expression<'s> {
    /// The fragment the expression was parsed from.
    pub open spec fn frag(self) -> Fragment<'s> {
        match self {
            Expression::NumLit(n) => n.frag,
            Expression::BooleanLit(b) => b.frag,
            Expression::BinaryExpression(b) => b.frag,
        }
    }

    /// Structural equality: same shape, operators and literal values,
    /// whatever the fragments.
    pub open spec fn spec_ast_eq(fst: Self, snd: Self) -> bool
        decreases fst,
    {
        match fst {
            Expression::NumLit(x) => match snd {
                Expression::NumLit(y) => NumLit::spec_ast_eq(x, y),
                _ => false,
            },
            Expression::BooleanLit(x) => match snd {
                Expression::BooleanLit(y) => BooleanLit::spec_ast_eq(x, y),
                _ => false,
            },
            Expression::BinaryExpression(x) => match snd {
                Expression::BinaryExpression(y) => x.op == y.op
                    && Self::spec_ast_eq(*x.left, *y.left)
                    && Self::spec_ast_eq(*x.right, *y.right),
                _ => false,
            },
        }
    }

    /// The fragment the expression was parsed from.
    pub fn get_fragment(&self) -> (r: Fragment<'s>)
        ensures
            r == self.frag(),
    {
        match self {
            Expression::NumLit(n) => n.frag,
            Expression::BooleanLit(b) => b.frag,
            Expression::BinaryExpression(b) => b.frag,
        }
    }

    /// Computes [`Expression::spec_ast_eq`].
    pub fn ast_eq(fst: &Self, snd: &Self) -> (r: bool)
        ensures
            r == Self::spec_ast_eq(*fst, *snd),
        decreases fst,
    {
        match fst {
            Expression::NumLit(x) => match snd {
                Expression::NumLit(y) => x.inner == y.inner,
                _ => false,
            },
            Expression::BooleanLit(x) => match snd {
                Expression::BooleanLit(y) => x.inner == y.inner,
                _ => false,
            },
            Expression::BinaryExpression(x) => match snd {
                Expression::BinaryExpression(y) => x.op == y.op
                    && Self::ast_eq(&x.left, &y.left)
                    && Self::ast_eq(&x.right, &y.right),
                _ => false,
            },
        }
    }
}

impl<'s> NumLit<'s> {
    /// Structural equality of numeric literals: equal values, wherever
    /// and however they were written.
    pub open spec fn spec_ast_eq(fst: Self, snd: Self) -> bool {
        fst.inner == snd.inner
    }
}

impl<'s> BooleanLit<'s> {
    /// Structural equality of boolean literals: equal values.
    pub open spec fn spec_ast_eq(fst: Self, snd: Self) -> bool {
        fst.inner == snd.inner
    }
}

impl<'s> UnderscorePattern<'s> {
    /// Structural equality of underscore patterns: always.
    pub open spec fn spec_ast_eq(fst: Self, snd: Self) -> bool {
        true
    }
}

} // verus!
