//! Expression trees and their printed form.

use vstd::prelude::*;
use vstd::string::StringExecFns;
use crate::token::Token;

verus! {

/// A literal value. A number is held as the numeral that prints it.
pub enum LiteralValue {
    Number(String),
    String(String),
    Boolean(bool),
    Nil,
}

impl LiteralValue {
    /// The printed form of the value: a number as its numeral, a string
    /// between double quotes, a boolean as `true` or `false`, and `nil`.
    pub open spec fn rendered(self) -> Seq<char> {
        match self {
            LiteralValue::Number(n) => n@,
            LiteralValue::String(s) => seq!['"'] + s@ + seq!['"'],
            LiteralValue::Boolean(b) => if b {
                "true"@
            } else {
                "false"@
            },
            LiteralValue::Nil => "nil"@,
        }
    }

    pub fn to_string(self) -> (text: String)
        ensures
            text@ == self.rendered(),
    {
        match self {
            LiteralValue::Number(n) => n,
            LiteralValue::String(s) => {
                let mut text = String::new();
                text.push('"');
                text.append(s.as_str());
                text.push('"');
                assert(text@ =~= seq!['"'] + s@ + seq!['"']);
                text
            },
            LiteralValue::Boolean(b) => if b {
                String::from_str("true")
            } else {
                String::from_str("false")
            },
            LiteralValue::Nil => String::from_str("nil"),
        }
    }
}

/// An expression tree.
pub enum Expr {
    Binary { left: Box<Expr>, operator: Token, right: Box<Expr> },
    Grouping { expression: Box<Expr> },
    Literal { value: LiteralValue },
    Unary { operator: Token, right: Box<Expr> },
}

impl Expr {
    /// The printed form of the tree, fully parenthesised: a binary expression
    /// as `(left op right)`, a unary one as `(op right)` without a space, a
    /// grouping as its expression between parentheses, and a literal as its
    /// value prints.
    pub open spec fn rendered(self) -> Seq<char>
        decreases self,
    {
        match self {
            Expr::Binary { left, operator, right } => seq!['('] + left.rendered() + seq![' ']
                + operator.lexeme@ + seq![' '] + right.rendered() + seq![')'],
            Expr::Grouping { expression } => seq!['('] + expression.rendered() + seq![')'],
            Expr::Literal { value } => value.rendered(),
            Expr::Unary { operator, right } => seq!['('] + operator.lexeme@ + right.rendered()
                + seq![')'],
        }
    }

    pub fn to_string(self) -> (text: String)
        ensures
            text@ == self.rendered(),
        decreases self,
    {
        match self {
            Expr::Binary { left, operator, right } => {
                let mut text = String::new();
                text.push('(');
                text.append((*left).to_string().as_str());
                text.push(' ');
                text.append(operator.lexeme.as_str());
                text.push(' ');
                text.append((*right).to_string().as_str());
                text.push(')');
                assert(text@ =~= seq!['('] + left.rendered() + seq![' '] + operator.lexeme@
                    + seq![' '] + right.rendered() + seq![')']);
                text
            },
            Expr::Grouping { expression } => {
                let mut text = String::new();
                text.push('(');
                text.append((*expression).to_string().as_str());
                text.push(')');
                assert(text@ =~= seq!['('] + expression.rendered() + seq![')']);
                text
            },
            Expr::Literal { value } => value.to_string(),
            Expr::Unary { operator, right } => {
                let mut text = String::new();
                text.push('(');
                text.append(operator.lexeme.as_str());
                text.append((*right).to_string().as_str());
                text.push(')');
                assert(text@ =~= seq!['('] + operator.lexeme@ + right.rendered() + seq![')']);
                text
            },
        }
    }
}

} // verus!
