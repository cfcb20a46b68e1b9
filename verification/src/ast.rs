//! The syntax tree: expressions, statements and the binding strength of
//! operators, each with its mathematical value.

use core::cmp::Ordering;
use vstd::prelude::*;
use vstd::std_specs::cmp::{PartialEqSpecImpl, PartialOrdSpecImpl};

verus! {

/// A name, as written in the source text.
#[derive(Debug)]
pub struct Identifier(pub String);

impl View for Identifier {
    type V = Seq<char>;

    open spec fn view(&self) -> Seq<char> {
        self.0@
    }
}

impl PartialEq for Identifier {
    /// Two identifiers are equal when they are spelled alike.
    fn eq(&self, other: &Identifier) -> (equal: bool) {
        self.0 == other.0
    }
}

impl PartialEqSpecImpl for Identifier {
    open spec fn obeys_eq_spec() -> bool {
        true
    }

    open spec fn eq_spec(&self, other: &Identifier) -> bool {
        self@ == other@
    }
}

impl Clone for Identifier {
    fn clone(&self) -> (copy: Identifier)
        ensures
            copy@ == self@,
    {
        Identifier(self.0.clone())
    }
}

/// An operator written before its operand.
#[derive(Debug, Clone, Copy, PartialEq, Eq, Structural)]
pub enum Prefix {
    Not,
    Plus,
    Minus,
}

/// An operator written between its operands.
#[derive(Debug, Clone, Copy, PartialEq, Eq, Structural)]
pub enum Infix {
    Plus,
    Minus,
    Divide,
    Multiply,
    Eq,
    NotEq,
    GTE,
    GT,
    LTE,
    LT,
}

/// A literal value.
#[derive(Debug, Clone, Copy, PartialEq, Eq, Structural)]
pub enum Literal {
    Int(i64),
}

/// An expression. Each node owns its operands.
#[derive(Debug)]
pub enum Expression {
    Identifier(Identifier),
    Literal(Literal),
    Prefix(Prefix, Box<Expression>),
    Infix(Infix, Box<Expression>, Box<Expression>),
}

/// The mathematical value of an [`Expression`].
pub enum SpecExpression {
    Identifier(Seq<char>),
    Literal(Literal),
    Prefix(Prefix, Box<SpecExpression>),
    Infix(Infix, Box<SpecExpression>, Box<SpecExpression>),
}

impl Expression {
    /// The mathematical value of this expression: the same tree, with each
    /// name as a sequence of characters.
    pub open spec fn value(&self) -> SpecExpression
        decreases self,
    {
        match self {
            Expression::Identifier(name) => SpecExpression::Identifier(name@),
            Expression::Literal(literal) => SpecExpression::Literal(*literal),
            Expression::Prefix(operator, operand) => SpecExpression::Prefix(
                *operator,
                Box::new(operand.value()),
            ),
            Expression::Infix(operator, left, right) => SpecExpression::Infix(
                *operator,
                Box::new(left.value()),
                Box::new(right.value()),
            ),
        }
    }
}

impl View for Expression {
    type V = SpecExpression;

    open spec fn view(&self) -> SpecExpression {
        self.value()
    }
}

impl PartialEq for Expression {
    /// Two expressions are equal when they are the same tree.
    fn eq(&self, other: &Expression) -> (equal: bool)
        decreases self,
    {
        match (self, other) {
            (Expression::Identifier(a), Expression::Identifier(b)) => *a == *b,
            (Expression::Literal(a), Expression::Literal(b)) => *a == *b,
            (Expression::Prefix(op_a, a), Expression::Prefix(op_b, b)) => {
                *op_a == *op_b && (**a).eq(&**b)
            },
            (Expression::Infix(op_a, left_a, right_a), Expression::Infix(op_b, left_b, right_b))
            => {
                *op_a == *op_b && (**left_a).eq(&**left_b) && (**right_a).eq(&**right_b)
            },
            _ => false,
        }
    }
}

impl PartialEqSpecImpl for Expression {
    open spec fn obeys_eq_spec() -> bool {
        true
    }

    open spec fn eq_spec(&self, other: &Expression) -> bool {
        self@ == other@
    }
}

impl Clone for Expression {
    fn clone(&self) -> (copy: Expression)
        ensures
            copy@ == self@,
        decreases self,
    {
        match self {
            Expression::Identifier(name) => Expression::Identifier(name.clone()),
            Expression::Literal(literal) => Expression::Literal(*literal),
            Expression::Prefix(operator, operand) => Expression::Prefix(
                *operator,
                Box::new((**operand).clone()),
            ),
            Expression::Infix(operator, left, right) => Expression::Infix(
                *operator,
                Box::new((**left).clone()),
                Box::new((**right).clone()),
            ),
        }
    }
}

/// A statement.
#[derive(Debug)]
pub enum Statement {
    Let(Identifier, Expression),
    Return(Expression),
    Expression(Expression),
}

/// The mathematical value of a [`Statement`].
pub enum SpecStatement {
    Let(Seq<char>, SpecExpression),
    Return(SpecExpression),
    Expression(SpecExpression),
}

impl View for Statement {
    type V = SpecStatement;

    open spec fn view(&self) -> SpecStatement {
        match self {
            Statement::Let(name, value) => SpecStatement::Let(name@, value@),
            Statement::Return(value) => SpecStatement::Return(value@),
            Statement::Expression(expression) => SpecStatement::Expression(expression@),
        }
    }
}

impl PartialEq for Statement {
    /// Two statements are equal when they are of the same form and hold the
    /// same name and expression.
    fn eq(&self, other: &Statement) -> (equal: bool) {
        match (self, other) {
            (Statement::Let(name_a, a), Statement::Let(name_b, b)) => *name_a == *name_b && *a
                == *b,
            (Statement::Return(a), Statement::Return(b)) => *a == *b,
            (Statement::Expression(a), Statement::Expression(b)) => *a == *b,
            _ => false,
        }
    }
}

impl PartialEqSpecImpl for Statement {
    open spec fn obeys_eq_spec() -> bool {
        true
    }

    open spec fn eq_spec(&self, other: &Statement) -> bool {
        self@ == other@
    }
}

impl Clone for Statement {
    fn clone(&self) -> (copy: Statement)
        ensures
            copy@ == self@,
    {
        match self {
            Statement::Let(name, value) => Statement::Let(name.clone(), value.clone()),
            Statement::Return(value) => Statement::Return(value.clone()),
            Statement::Expression(expression) => Statement::Expression(expression.clone()),
        }
    }
}

/// The statements of a source text, in source order.
pub type Program = Vec<Statement>;

/// The values of the statements of a program, in the same order.
pub open spec fn program_view(program: Seq<Statement>) -> Seq<SpecStatement> {
    Seq::new(program.len(), |i: int| program[i]@)
}

/// How strongly an operator binds its operands, from weakest to strongest.
#[derive(Debug, Clone, Copy, PartialEq, Eq, Structural)]
pub enum Precedence {
    Lowest,
    Equals,
    LessGreater,
    Sum,
    Product,
    Prefix,
    Call,
}

impl Precedence {
    /// The place of this precedence in the order, counted from `Lowest` at 0.
    #[verifier::when_used_as_spec(spec_level)]
    pub fn level(&self) -> (level: u8)
        ensures
            level == self.spec_level(),
    {
        match self {
            Precedence::Lowest => 0,
            Precedence::Equals => 1,
            Precedence::LessGreater => 2,
            Precedence::Sum => 3,
            Precedence::Product => 4,
            Precedence::Prefix => 5,
            Precedence::Call => 6,
        }
    }

    /// The place of this precedence in the order, counted from `Lowest` at 0.
    pub open spec fn spec_level(&self) -> u8 {
        match self {
            Precedence::Lowest => 0,
            Precedence::Equals => 1,
            Precedence::LessGreater => 2,
            Precedence::Sum => 3,
            Precedence::Product => 4,
            Precedence::Prefix => 5,
            Precedence::Call => 6,
        }
    }
}

impl PartialOrd for Precedence {
    /// Precedences are ordered by their level.
    fn partial_cmp(&self, other: &Precedence) -> (order: Option<Ordering>) {
        let a = self.level();
        let b = other.level();
        if a < b {
            Some(Ordering::Less)
        } else if a == b {
            Some(Ordering::Equal)
        } else {
            Some(Ordering::Greater)
        }
    }
}

impl PartialOrdSpecImpl for Precedence {
    open spec fn obeys_partial_cmp_spec() -> bool {
        true
    }

    open spec fn partial_cmp_spec(&self, other: &Precedence) -> Option<Ordering> {
        if self.spec_level() < other.spec_level() {
            Some(Ordering::Less)
        } else if self.spec_level() == other.spec_level() {
            Some(Ordering::Equal)
        } else {
            Some(Ordering::Greater)
        }
    }
}

} // verus!
