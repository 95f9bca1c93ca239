//! The operator / binding-power table: a pure function from a token (and
//! whether it stands in prefix position) to the role it plays in the
//! expression engine and its (left, right) binding powers.

use vstd::prelude::*;
use crate::ast::{InfixOperator, Operator, PrefixOperator};
use crate::token::{Token, TokenV};

verus! {

/// The role a token plays in the expression engine: a bare literal or
/// identifier, a grouping delimiter, or an operator that opens a frame.
#[derive(Debug, Clone, Copy, PartialEq, Eq)]
pub enum BpKind {
    /// A literal or identifier: it becomes the current frame's accumulated
    /// left-hand expression at once.
    Atom,
    /// An opening parenthesis: a grouping sentinel, never an operator node.
    Group,
    /// A closing parenthesis: pops exactly the frame its partner opened.
    Close,
    /// An ordinary operator.
    Op(Operator),
}

/// The binding-power table. Left-associative binary operators carry a right
/// power one above their left power; prefix operators carry a maximal left
/// power so that they never serve as an infix operand; the grouping
/// parentheses are sentinels; a literal carries the sentinel pair (99, 100)
/// so that it terminates a frame rather than competing for precedence.
pub open spec fn binding_power_v(t: TokenV, prefix: bool) -> Option<(BpKind, (u8, u8))> {
    match t {
        TokenV::Int(_) => if prefix {
            Some((BpKind::Atom, (99u8, 100u8)))
        } else {
            None
        },
        TokenV::Boolean(_) => if prefix {
            Some((BpKind::Atom, (99u8, 100u8)))
        } else {
            None
        },
        TokenV::Ident(_) => if prefix {
            Some((BpKind::Atom, (99u8, 100u8)))
        } else {
            None
        },
        TokenV::LeftParen => if prefix {
            Some((BpKind::Group, (99u8, 0u8)))
        } else {
            None
        },
        TokenV::RightParen => Some((BpKind::Close, (0u8, 100u8))),
        TokenV::Assign => if prefix {
            None
        } else {
            Some((BpKind::Op(Operator::Infix(InfixOperator::Assign)), (5u8, 4u8)))
        },
        TokenV::Equal => if prefix {
            None
        } else {
            Some((BpKind::Op(Operator::Infix(InfixOperator::Equal)), (8u8, 9u8)))
        },
        TokenV::NotEqual => if prefix {
            None
        } else {
            Some((BpKind::Op(Operator::Infix(InfixOperator::NotEqual)), (8u8, 9u8)))
        },
        TokenV::GreaterThan => if prefix {
            None
        } else {
            Some((BpKind::Op(Operator::Infix(InfixOperator::GreaterThan)), (10u8, 11u8)))
        },
        TokenV::LowerThan => if prefix {
            None
        } else {
            Some((BpKind::Op(Operator::Infix(InfixOperator::LowerThan)), (10u8, 11u8)))
        },
        TokenV::GreaterThanOrEqualTo => if prefix {
            None
        } else {
            Some((BpKind::Op(Operator::Infix(InfixOperator::GreaterThanOrEqual)), (10u8, 11u8)))
        },
        TokenV::LowerThanOrEqualTo => if prefix {
            None
        } else {
            Some((BpKind::Op(Operator::Infix(InfixOperator::LowerThanOrEqual)), (10u8, 11u8)))
        },
        TokenV::Plus => if prefix {
            Some((BpKind::Op(Operator::Prefix(PrefixOperator::Plus)), (99u8, 18u8)))
        } else {
            Some((BpKind::Op(Operator::Infix(InfixOperator::Plus)), (12u8, 13u8)))
        },
        TokenV::Minus => if prefix {
            Some((BpKind::Op(Operator::Prefix(PrefixOperator::Minus)), (99u8, 18u8)))
        } else {
            Some((BpKind::Op(Operator::Infix(InfixOperator::Minus)), (12u8, 13u8)))
        },
        TokenV::Asterisk => if prefix {
            None
        } else {
            Some((BpKind::Op(Operator::Infix(InfixOperator::Mul)), (14u8, 15u8)))
        },
        TokenV::Slash => if prefix {
            None
        } else {
            Some((BpKind::Op(Operator::Infix(InfixOperator::Div)), (14u8, 15u8)))
        },
        TokenV::Bang => if prefix {
            Some((BpKind::Op(Operator::Prefix(PrefixOperator::Bang)), (99u8, 19u8)))
        } else {
            None
        },
        _ => None,
    }
}

/// The executable binding-power table.
pub fn binding_power(t: &Token, prefix: bool) -> (r: Option<(BpKind, (u8, u8))>)
    ensures
        r == binding_power_v(t@, prefix),
{
    match t {
        Token::Int(_) => if prefix {
            Some((BpKind::Atom, (99, 100)))
        } else {
            None
        },
        Token::Boolean(_) => if prefix {
            Some((BpKind::Atom, (99, 100)))
        } else {
            None
        },
        Token::Ident(_) => if prefix {
            Some((BpKind::Atom, (99, 100)))
        } else {
            None
        },
        Token::LeftParen => if prefix {
            Some((BpKind::Group, (99, 0)))
        } else {
            None
        },
        Token::RightParen => Some((BpKind::Close, (0, 100))),
        Token::Assign => if prefix {
            None
        } else {
            Some((BpKind::Op(Operator::Infix(InfixOperator::Assign)), (5, 4)))
        },
        Token::Equal => if prefix {
            None
        } else {
            Some((BpKind::Op(Operator::Infix(InfixOperator::Equal)), (8, 9)))
        },
        Token::NotEqual => if prefix {
            None
        } else {
            Some((BpKind::Op(Operator::Infix(InfixOperator::NotEqual)), (8, 9)))
        },
        Token::GreaterThan => if prefix {
            None
        } else {
            Some((BpKind::Op(Operator::Infix(InfixOperator::GreaterThan)), (10, 11)))
        },
        Token::LowerThan => if prefix {
            None
        } else {
            Some((BpKind::Op(Operator::Infix(InfixOperator::LowerThan)), (10, 11)))
        },
        Token::GreaterThanOrEqualTo => if prefix {
            None
        } else {
            Some((BpKind::Op(Operator::Infix(InfixOperator::GreaterThanOrEqual)), (10, 11)))
        },
        Token::LowerThanOrEqualTo => if prefix {
            None
        } else {
            Some((BpKind::Op(Operator::Infix(InfixOperator::LowerThanOrEqual)), (10, 11)))
        },
        Token::Plus => if prefix {
            Some((BpKind::Op(Operator::Prefix(PrefixOperator::Plus)), (99, 18)))
        } else {
            Some((BpKind::Op(Operator::Infix(InfixOperator::Plus)), (12, 13)))
        },
        Token::Minus => if prefix {
            Some((BpKind::Op(Operator::Prefix(PrefixOperator::Minus)), (99, 18)))
        } else {
            Some((BpKind::Op(Operator::Infix(InfixOperator::Minus)), (12, 13)))
        },
        Token::Asterisk => if prefix {
            None
        } else {
            Some((BpKind::Op(Operator::Infix(InfixOperator::Mul)), (14, 15)))
        },
        Token::Slash => if prefix {
            None
        } else {
            Some((BpKind::Op(Operator::Infix(InfixOperator::Div)), (14, 15)))
        },
        Token::Bang => if prefix {
            Some((BpKind::Op(Operator::Prefix(PrefixOperator::Bang)), (99, 19)))
        } else {
            None
        },
        _ => None,
    }
}

} // verus!
