//! The syntax tree of an expression and its evaluation.

use vstd::prelude::*;
use crate::error::ArithmeticError;
use crate::token::Operator;

verus! {

/// A node of the syntax tree. Every node owns its children.
#[derive(Debug, PartialEq, Eq)]
pub enum Expression {
    /// A number, such as `7`.
    Number(i64),
    /// A negation, such as `-7`. The operator is always `Negative`.
    Unary(Operator, Box<Expression>),
    /// An operation on two operands, such as `3 * 4`. The operator is never
    /// `Negative`.
    Binary(Operator, Box<Expression>, Box<Expression>),
}

/// An exact result as a 64-bit value, where it is one.
pub open spec fn in_range(v: int) -> Result<i64, ArithmeticError> {
    if i64::MIN <= v <= i64::MAX {
        Ok(v as i64)
    } else {
        Err(ArithmeticError::Overflow)
    }
}

/// The quotient of `a` by `b`, rounded towards zero.
pub open spec fn truncated_quotient(a: int, b: int) -> int
    recommends
        b != 0,
{
    if a >= 0 {
        if b > 0 {
            a / b
        } else {
            -(a / (-b))
        }
    } else {
        if b > 0 {
            -((-a) / b)
        } else {
            (-a) / (-b)
        }
    }
}

/// The result of a binary operator on two values.
pub open spec fn apply_binary(op: Operator, a: int, b: int) -> Result<i64, ArithmeticError>
    recommends
        op != Operator::Negative,
{
    match op {
        Operator::Add => in_range(a + b),
        Operator::Subtract => in_range(a - b),
        Operator::Multiply => in_range(a * b),
        Operator::Divide => if b == 0 {
            Err(ArithmeticError::DivisionByZero)
        } else {
            in_range(truncated_quotient(a, b))
        },
        Operator::Negative => arbitrary(),
    }
}

impl Expression {
    /// Whether every operator of the tree stands where it may: `Negative` in
    /// all unary nodes and in no binary node.
    pub open spec fn well_formed(self) -> bool
        decreases self,
    {
        match self {
            Expression::Number(_) => true,
            Expression::Unary(op, operand) => op == Operator::Negative && operand.well_formed(),
            Expression::Binary(op, left, right) => op != Operator::Negative && left.well_formed()
                && right.well_formed(),
        }
    }

    /// The value of the tree. Operands are evaluated before the operation
    /// that joins them, the left one first, and the first failure is the
    /// result.
    pub open spec fn value(self) -> Result<i64, ArithmeticError>
        recommends
            self.well_formed(),
        decreases self,
    {
        match self {
            Expression::Number(n) => Ok(n),
            Expression::Unary(_, operand) => match operand.value() {
                Ok(v) => in_range(-v),
                Err(e) => Err(e),
            },
            Expression::Binary(op, left, right) => match left.value() {
                Ok(a) => match right.value() {
                    Ok(b) => apply_binary(op, a as int, b as int),
                    Err(e) => Err(e),
                },
                Err(e) => Err(e),
            },
        }
    }

    /// Evaluates the tree.
    ///
    /// Division rounds towards zero. A division by zero and a result outside
    /// the range of `i64` are reported, not computed.
    pub fn eval(&self) -> (r: Result<i64, ArithmeticError>)
        requires
            self.well_formed(),
        ensures
            r == self.value(),
        decreases self,
    {
        match self {
            Expression::Number(n) => Ok(*n),
            Expression::Unary(_, operand) => {
                let v = match operand.eval() {
                    Ok(v) => v,
                    Err(e) => {
                        return Err(e);
                    },
                };
                match 0i64.checked_sub(v) {
                    Some(negated) => Ok(negated),
                    None => Err(ArithmeticError::Overflow),
                }
            },
            Expression::Binary(op, left, right) => {
                let a = match left.eval() {
                    Ok(a) => a,
                    Err(e) => {
                        return Err(e);
                    },
                };
                let b = match right.eval() {
                    Ok(b) => b,
                    Err(e) => {
                        return Err(e);
                    },
                };
                let exact = match op {
                    Operator::Add => a.checked_add(b),
                    Operator::Subtract => a.checked_sub(b),
                    Operator::Multiply => a.checked_mul(b),
                    // a division: a well-formed binary node holds no `Negative`
                    _ => {
                        if b == 0 {
                            return Err(ArithmeticError::DivisionByZero);
                        }
                        a.checked_div(b)
                    },
                };
                match exact {
                    Some(v) => Ok(v),
                    None => Err(ArithmeticError::Overflow),
                }
            },
        }
    }
}

} // verus!
