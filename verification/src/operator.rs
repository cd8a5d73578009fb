//! Operators of the expression language and their fixed attributes.

use vstd::prelude::*;

verus! {

/// Grouping direction of an arithmetic operator among equals in precedence.
#[derive(Clone, Copy, Debug, PartialEq, Eq, Structural)]
pub enum Associativity {
    Left,
    Right,
}

/// The five binary arithmetic operators.
#[derive(Clone, Copy, Debug, PartialEq, Eq, Structural)]
pub enum ArithmeticOperator {
    Plus,
    Minus,
    Asterisk,
    ForwardSlash,
    Power,
}

/// An operator token: either a binary arithmetic operator or a structural
/// parenthesis, which carries no precedence or associativity.
#[derive(Clone, Copy, Debug, PartialEq, Eq, Structural)]
pub enum Operator {
    ArithmeticOperator(ArithmeticOperator),
    LeftParenthesis,
    RightParenthesis,
}

/// Binding strength of an arithmetic operator: addition and subtraction
/// bind weakest, then multiplication and division, then exponentiation.
pub open spec fn spec_precedence(op: ArithmeticOperator) -> u8 {
    match op {
        ArithmeticOperator::Plus => 2,
        ArithmeticOperator::Minus => 2,
        ArithmeticOperator::Asterisk => 3,
        ArithmeticOperator::ForwardSlash => 3,
        ArithmeticOperator::Power => 4,
    }
}

/// All arithmetic operators group to the left except exponentiation,
/// which groups to the right.
pub open spec fn spec_associativity(op: ArithmeticOperator) -> Associativity {
    match op {
        ArithmeticOperator::Power => Associativity::Right,
        _ => Associativity::Left,
    }
}

impl ArithmeticOperator {
    /// The operator's fixed precedence.
    pub fn precedence(&self) -> (p: u8)
        ensures
            p == spec_precedence(*self),
    {
        match self {
            ArithmeticOperator::Plus => 2,
            ArithmeticOperator::Minus => 2,
            ArithmeticOperator::Asterisk => 3,
            ArithmeticOperator::ForwardSlash => 3,
            ArithmeticOperator::Power => 4,
        }
    }

    /// The operator's fixed associativity.
    pub fn associativity(&self) -> (a: Associativity)
        ensures
            a == spec_associativity(*self),
    {
        match self {
            ArithmeticOperator::Power => Associativity::Right,
            _ => Associativity::Left,
        }
    }
}

/// The operator denoted by a single-character token, if any.
pub open spec fn spec_operator_of_char(c: char) -> Option<Operator> {
    if c == '+' {
        Some(Operator::ArithmeticOperator(ArithmeticOperator::Plus))
    } else if c == '-' {
        Some(Operator::ArithmeticOperator(ArithmeticOperator::Minus))
    } else if c == '*' {
        Some(Operator::ArithmeticOperator(ArithmeticOperator::Asterisk))
    } else if c == '/' {
        Some(Operator::ArithmeticOperator(ArithmeticOperator::ForwardSlash))
    } else if c == '^' {
        Some(Operator::ArithmeticOperator(ArithmeticOperator::Power))
    } else if c == '(' {
        Some(Operator::LeftParenthesis)
    } else if c == ')' {
        Some(Operator::RightParenthesis)
    } else {
        None
    }
}

/// The operator denoted by a single-character token, if any.
pub fn operator_of_char(c: char) -> (r: Option<Operator>)
    ensures
        r == spec_operator_of_char(c),
{
    match c {
        '+' => Some(Operator::ArithmeticOperator(ArithmeticOperator::Plus)),
        '-' => Some(Operator::ArithmeticOperator(ArithmeticOperator::Minus)),
        '*' => Some(Operator::ArithmeticOperator(ArithmeticOperator::Asterisk)),
        '/' => Some(Operator::ArithmeticOperator(ArithmeticOperator::ForwardSlash)),
        '^' => Some(Operator::ArithmeticOperator(ArithmeticOperator::Power)),
        '(' => Some(Operator::LeftParenthesis),
        ')' => Some(Operator::RightParenthesis),
        _ => None,
    }
}

} // verus!
