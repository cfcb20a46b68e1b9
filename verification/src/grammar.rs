//! What holds of the parser on every token sequence, and on those that are
//! well formed: statements of the three forms, each closed by a semicolon.
//!
//! On every token sequence parsing comes to an end, and an expression that
//! parses is written by the very tokens it was parsed from and groups them
//! by binding strength. On a well-formed sequence every statement parses.

use crate::ast::{Infix, Literal, Precedence, SpecExpression, SpecStatement};
use crate::parser::{
    expression, infix_chain, infix_of, operand, precedence_of, prefix_of, program_from,
    statement, token_at, tokens_left, ExpressionOutcome,
};
use crate::token::SpecToken;
use vstd::prelude::*;

verus! {

/// Whether `token` is a name or a number.
pub open spec fn is_atom(token: SpecToken) -> bool {
    token is IDENT || token is INT
}

/// Whether a well-formed expression starts at index `i` and a semicolon
/// closes it: operands with an infix operator between each two, where an
/// operand is a name or a number after any number of prefix operators.
pub open spec fn well_formed_expression(tokens: Seq<SpecToken>, i: nat) -> bool
    decreases tokens_left(tokens, i),
{
    let token = token_at(tokens, i);
    if is_atom(token) {
        let next = token_at(tokens, i + 1);
        next == SpecToken::SEMICOLON || (infix_of(next) is Some && well_formed_expression(
            tokens,
            i + 2,
        ))
    } else if prefix_of(token) is Some {
        well_formed_expression(tokens, i + 1)
    } else {
        false
    }
}

/// Whether the closing semicolon is at index `i`, or an infix operator with
/// the rest of a well-formed expression after it.
pub open spec fn well_formed_rest(tokens: Seq<SpecToken>, i: nat) -> bool {
    let token = token_at(tokens, i);
    token == SpecToken::SEMICOLON || (infix_of(token) is Some && well_formed_expression(
        tokens,
        i + 1,
    ))
}

/// The distance from index `i` to the first semicolon at or after it, or to
/// the end where there is none.
pub open spec fn to_semicolon(tokens: Seq<SpecToken>, i: nat) -> nat
    decreases tokens_left(tokens, i),
{
    if i >= tokens.len() || tokens[i as int] == SpecToken::SEMICOLON {
        0
    } else {
        1 + to_semicolon(tokens, i + 1)
    }
}

/// Whether a well-formed statement starts at index `i`: `let`, a name, `=`
/// and an expression; `return` and an expression; or an expression; each
/// closed by a semicolon.
pub open spec fn well_formed_statement(tokens: Seq<SpecToken>, i: nat) -> bool {
    match token_at(tokens, i) {
        SpecToken::LET => {
            &&& token_at(tokens, i + 1) is IDENT
            &&& token_at(tokens, i + 2) == SpecToken::ASSIGN
            &&& well_formed_expression(tokens, i + 3)
        },
        SpecToken::RETURN => well_formed_expression(tokens, i + 1),
        _ => well_formed_expression(tokens, i),
    }
}

/// Whether the tokens from index `i` to the end are well-formed statements
/// and nothing else.
pub open spec fn well_formed_program(tokens: Seq<SpecToken>, i: nat) -> bool
    decreases tokens_left(tokens, i),
{
    token_at(tokens, i) == SpecToken::EOF || (well_formed_statement(tokens, i)
        && well_formed_program(tokens, i + to_semicolon(tokens, i) + 1))
}

/// The number of statements from index `i` to the end, where each statement
/// reaches to the next semicolon.
pub open spec fn statement_count(tokens: Seq<SpecToken>, i: nat) -> nat
    decreases tokens_left(tokens, i),
{
    if token_at(tokens, i) == SpecToken::EOF {
        0
    } else {
        1 + statement_count(tokens, i + to_semicolon(tokens, i) + 1)
    }
}

/// Every infix operator binds more strongly than `Lowest` and less strongly
/// than a prefix operator, and every token that is no infix operator has the
/// precedence `Lowest`, among them the semicolon, `EOF` and the parentheses.
/// So an expression parsed at `Lowest` takes in every operator that follows
/// an operand, and at every precedence it ends before a token that is none.
pub proof fn lemma_infix_operators_bind(token: SpecToken)
    ensures
        infix_of(token) is Some ==> Precedence::Lowest.level() < precedence_of(token).level(),
        infix_of(token) is Some ==> precedence_of(token).level() < Precedence::Prefix.level(),
        infix_of(token) is None <==> precedence_of(token) == Precedence::Lowest,
        infix_of(token) is Some <==> (token == SpecToken::EQ || token == SpecToken::NotEq || token
            == SpecToken::LT || token == SpecToken::GT || token == SpecToken::PLUS || token
            == SpecToken::MINUS || token == SpecToken::SLASH || token == SpecToken::ASTERISK),
{
}

/// An operand of a well-formed expression parses, holds no semicolon, and
/// has the rest of the expression after it.
proof fn lemma_operand_parses(tokens: Seq<SpecToken>, i: nat)
    requires
        well_formed_expression(tokens, i),
    ensures
        operand(tokens, i).expression is Some,
        well_formed_rest(tokens, i + operand(tokens, i).moved + 1),
        to_semicolon(tokens, i) == operand(tokens, i).moved + 1 + to_semicolon(
            tokens,
            i + operand(tokens, i).moved + 1,
        ),
    decreases tokens_left(tokens, i), 1nat,
{
    let token = token_at(tokens, i);
    if is_atom(token) {
    } else {
        lemma_expression_parses(tokens, i + 1, Precedence::Prefix);
    }
}

/// A chain of infix operators in a well-formed expression parses, holds no
/// semicolon, has the rest of the expression after it, and ends before the
/// first operator that does not bind more strongly than `precedence`.
proof fn lemma_infix_chain_parses(
    tokens: Seq<SpecToken>,
    i: nat,
    left: SpecExpression,
    moved: nat,
    precedence: Precedence,
)
    requires
        well_formed_rest(tokens, i + moved + 1),
    ensures
        ({
            let out = infix_chain(tokens, i, left, moved, precedence);
            let next = token_at(tokens, i + out.moved + 1);
            &&& out.expression is Some
            &&& out.moved >= moved
            &&& well_formed_rest(tokens, i + out.moved + 1)
            &&& to_semicolon(tokens, i + moved + 1) == out.moved - moved + to_semicolon(
                tokens,
                i + out.moved + 1,
            )
            &&& infix_of(next) is Some ==> precedence_of(next).level() <= precedence.level()
        }),
    decreases tokens_left(tokens, i + moved), 0nat,
{
    let next = token_at(tokens, i + moved + 1);
    if infix_of(next) is Some && precedence.level() < precedence_of(next).level() {
        let right = expression(tokens, i + moved + 2, precedence_of(next));
        lemma_expression_parses(tokens, i + moved + 2, precedence_of(next));
        lemma_infix_chain_parses(
            tokens,
            i,
            SpecExpression::Infix(
                infix_of(next)->0,
                Box::new(left),
                Box::new(right.expression->0),
            ),
            moved + 2 + right.moved,
            precedence,
        );
    }
}

/// A well-formed expression parses at every precedence, holds no semicolon,
/// has the rest of the expression after it, and ends before the first
/// operator that does not bind more strongly than `precedence`.
proof fn lemma_expression_parses(tokens: Seq<SpecToken>, i: nat, precedence: Precedence)
    requires
        well_formed_expression(tokens, i),
    ensures
        ({
            let out = expression(tokens, i, precedence);
            let next = token_at(tokens, i + out.moved + 1);
            &&& out.expression is Some
            &&& well_formed_rest(tokens, i + out.moved + 1)
            &&& to_semicolon(tokens, i) == out.moved + 1 + to_semicolon(
                tokens,
                i + out.moved + 1,
            )
            &&& infix_of(next) is Some ==> precedence_of(next).level() <= precedence.level()
        }),
    decreases tokens_left(tokens, i), 2nat,
{
    lemma_operand_parses(tokens, i);
    let first = operand(tokens, i);
    lemma_infix_chain_parses(tokens, i, first.expression->0, first.moved, precedence);
}

/// A well-formed expression, parsed at the lowest precedence, is parsed up
/// to the semicolon that closes it.
pub proof fn lemma_well_formed_expression_parses(tokens: Seq<SpecToken>, i: nat)
    requires
        well_formed_expression(tokens, i),
    ensures
        expression(tokens, i, Precedence::Lowest).expression is Some,
        expression(tokens, i, Precedence::Lowest).moved + 1 == to_semicolon(tokens, i),
        token_at(tokens, i + to_semicolon(tokens, i)) == SpecToken::SEMICOLON,
{
    lemma_expression_parses(tokens, i, Precedence::Lowest);
    let out = expression(tokens, i, Precedence::Lowest);
    lemma_infix_operators_bind(token_at(tokens, i + out.moved + 1));
}

/// A well-formed statement parses without a diagnostic, and parsing stops at
/// the semicolon that closes it.
pub proof fn lemma_well_formed_statement_parses(tokens: Seq<SpecToken>, i: nat)
    requires
        well_formed_statement(tokens, i),
    ensures
        statement(tokens, i).statement is Some,
        statement(tokens, i).error is None,
        statement(tokens, i).moved == to_semicolon(tokens, i),
        token_at(tokens, i + to_semicolon(tokens, i)) == SpecToken::SEMICOLON,
{
    match token_at(tokens, i) {
        SpecToken::LET => {
            lemma_well_formed_expression_parses(tokens, i + 3);
            assert(to_semicolon(tokens, i + 2) == 1 + to_semicolon(tokens, i + 3));
            assert(to_semicolon(tokens, i + 1) == 1 + to_semicolon(tokens, i + 2));
            assert(to_semicolon(tokens, i) == 1 + to_semicolon(tokens, i + 1));
        },
        SpecToken::RETURN => {
            lemma_well_formed_expression_parses(tokens, i + 1);
            assert(to_semicolon(tokens, i) == 1 + to_semicolon(tokens, i + 1));
        },
        _ => {
            lemma_well_formed_expression_parses(tokens, i);
        },
    }
}

/// Of tokens that are well-formed statements and nothing else, every
/// statement parses: the program holds as many statements as the tokens do,
/// and there is no diagnostic.
pub proof fn lemma_well_formed_program_parses(tokens: Seq<SpecToken>, i: nat)
    requires
        well_formed_program(tokens, i),
    ensures
        program_from(tokens, i).statements.len() == statement_count(tokens, i),
        program_from(tokens, i).errors == Seq::<Seq<char>>::empty(),
    decreases tokens_left(tokens, i),
{
    if token_at(tokens, i) != SpecToken::EOF {
        lemma_well_formed_statement_parses(tokens, i);
        lemma_well_formed_program_parses(tokens, i + to_semicolon(tokens, i) + 1);
        let rest = program_from(tokens, i + to_semicolon(tokens, i) + 1);
        assert(program_from(tokens, i).errors =~= rest.errors);
    }
}

/// The number of tokens that write an expression.
pub open spec fn width(expression: SpecExpression) -> nat
    decreases expression,
{
    match expression {
        SpecExpression::Identifier(_) => 1,
        SpecExpression::Literal(_) => 1,
        SpecExpression::Prefix(_, operand) => 1 + width(*operand),
        SpecExpression::Infix(_, left, right) => width(*left) + 1 + width(*right),
    }
}

/// Whether the tokens from index `i` write `expression`: a name or a number
/// by its token, a prefix operator before its operand, an infix operator
/// between its operands, with nothing left out and nothing between.
pub open spec fn written_at(expression: SpecExpression, tokens: Seq<SpecToken>, i: nat) -> bool
    decreases expression,
{
    match expression {
        SpecExpression::Identifier(name) => token_at(tokens, i) == SpecToken::IDENT(name),
        SpecExpression::Literal(Literal::Int(value)) => token_at(tokens, i) == SpecToken::INT(
            value,
        ),
        SpecExpression::Prefix(operator, operand) => {
            &&& prefix_of(token_at(tokens, i)) == Some(operator)
            &&& written_at(*operand, tokens, i + 1)
        },
        SpecExpression::Infix(operator, left, right) => {
            &&& written_at(*left, tokens, i)
            &&& infix_of(token_at(tokens, i + width(*left))) == Some(operator)
            &&& written_at(*right, tokens, i + width(*left) + 1)
        },
    }
}

/// The precedence of an infix operator.
pub open spec fn infix_precedence(operator: Infix) -> Precedence {
    match operator {
        Infix::Eq | Infix::NotEq => Precedence::Equals,
        Infix::GTE | Infix::GT | Infix::LTE | Infix::LT => Precedence::LessGreater,
        Infix::Plus | Infix::Minus => Precedence::Sum,
        Infix::Divide | Infix::Multiply => Precedence::Product,
    }
}

/// How strongly an expression holds together as an operand: an infix
/// expression as strongly as its operator binds, any other expression more
/// strongly than any operator.
pub open spec fn binding(expression: SpecExpression) -> int {
    match expression {
        SpecExpression::Infix(operator, _, _) => infix_precedence(operator).level() as int,
        _ => Precedence::Call.level() + 1,
    }
}

/// Whether `expression` groups its operators by binding strength.
///
/// The operand of a prefix operator is no infix expression: a prefix
/// operator binds more strongly than every infix operator. The right operand
/// of an infix operator holds together more strongly than the operator
/// binds, the left operand at least as strongly: a stronger operator groups
/// first, and operators of one precedence group to the left.
pub open spec fn grouped(expression: SpecExpression) -> bool
    decreases expression,
{
    match expression {
        SpecExpression::Identifier(_) => true,
        SpecExpression::Literal(_) => true,
        SpecExpression::Prefix(_, operand) => {
            &&& !(*operand is Infix)
            &&& grouped(*operand)
        },
        SpecExpression::Infix(operator, left, right) => {
            &&& binding(*left) >= infix_precedence(operator).level()
            &&& binding(*right) > infix_precedence(operator).level()
            &&& grouped(*left)
            &&& grouped(*right)
        },
    }
}

/// What holds of an expression `e` parsed at index `i` with `moved` as the
/// distance to its last token: the tokens from `i` write it, up to that last
/// token; it groups its operators by binding strength; it holds together
/// more strongly than `precedence`; and the token after it is no infix
/// operator that binds more strongly than `precedence`.
pub open spec fn parsed_well(
    tokens: Seq<SpecToken>,
    i: nat,
    precedence: Precedence,
    e: SpecExpression,
    moved: nat,
) -> bool {
    let next = token_at(tokens, i + moved + 1);
    &&& written_at(e, tokens, i)
    &&& width(e) == moved + 1
    &&& grouped(e)
    &&& binding(e) > precedence.level()
    &&& infix_of(next) is Some ==> precedence_of(next).level() <= precedence.level()
}

/// A token that writes an infix operator has the precedence of that
/// operator.
pub proof fn lemma_infix_precedence(token: SpecToken)
    ensures
        infix_of(token) matches Some(operator) ==> precedence_of(token) == infix_precedence(
            operator,
        ),
{
}

proof fn lemma_operand_shape(tokens: Seq<SpecToken>, i: nat)
    ensures
        operand(tokens, i).expression matches Some(e) ==> {
            &&& written_at(e, tokens, i)
            &&& width(e) == operand(tokens, i).moved + 1
            &&& grouped(e)
            &&& !(e is Infix)
        },
    decreases tokens_left(tokens, i), 1nat,
{
    let token = token_at(tokens, i);
    if !is_atom(token) && prefix_of(token) is Some {
        lemma_expression_shape(tokens, i + 1, Precedence::Prefix);
    }
}

proof fn lemma_infix_chain_shape(
    tokens: Seq<SpecToken>,
    i: nat,
    left: SpecExpression,
    moved: nat,
    precedence: Precedence,
)
    requires
        written_at(left, tokens, i),
        width(left) == moved + 1,
        grouped(left),
        binding(left) > precedence.level(),
        infix_of(token_at(tokens, i + moved + 1)) is Some ==> precedence_of(
            token_at(tokens, i + moved + 1),
        ).level() <= binding(left),
    ensures
        infix_chain(tokens, i, left, moved, precedence).expression matches Some(e) ==> parsed_well(
            tokens,
            i,
            precedence,
            e,
            infix_chain(tokens, i, left, moved, precedence).moved,
        ),
    decreases tokens_left(tokens, i + moved), 0nat,
{
    let next = token_at(tokens, i + moved + 1);
    if infix_of(next) is Some && precedence.level() < precedence_of(next).level() {
        let right = expression(tokens, i + moved + 2, precedence_of(next));
        lemma_expression_shape(tokens, i + moved + 2, precedence_of(next));
        lemma_infix_precedence(next);
        if right.expression is Some {
            let joined = SpecExpression::Infix(
                infix_of(next)->0,
                Box::new(left),
                Box::new(right.expression->0),
            );
            lemma_infix_chain_shape(tokens, i, joined, moved + 2 + right.moved, precedence);
        }
    }
}

/// An expression that parses is written by the tokens it was parsed from,
/// from the first to the last, and groups its operators by binding strength:
/// a prefix operator binds more strongly than every infix operator, a
/// stronger infix operator groups before a weaker one, and operators of one
/// precedence group to the left.
pub proof fn lemma_expression_shape(tokens: Seq<SpecToken>, i: nat, precedence: Precedence)
    ensures
        expression(tokens, i, precedence).expression matches Some(e) ==> parsed_well(
            tokens,
            i,
            precedence,
            e,
            expression(tokens, i, precedence).moved,
        ),
    decreases tokens_left(tokens, i), 2nat,
{
    lemma_operand_shape(tokens, i);
    let first = operand(tokens, i);
    if first.expression is Some {
        lemma_infix_chain_shape(tokens, i, first.expression->0, first.moved, precedence);
    }
}

/// The operand with which an expression starts: the leftmost operand of an
/// infix expression, and any other expression itself.
pub open spec fn first_operand(expression: SpecExpression) -> SpecExpression
    decreases expression,
{
    match expression {
        SpecExpression::Infix(_, left, _) => first_operand(*left),
        _ => expression,
    }
}

/// Every expression is written by at least one token, and no more tokens
/// write its first operand than write the expression.
proof fn lemma_width(expression: SpecExpression)
    ensures
        1 <= width(first_operand(expression)) <= width(expression),
        !(first_operand(expression) is Infix),
    decreases expression,
{
    match expression {
        SpecExpression::Infix(_, left, right) => {
            lemma_width(*left);
            lemma_width(*right);
        },
        SpecExpression::Prefix(_, operand) => {
            lemma_width(*operand);
        },
        _ => {},
    }
}

/// Where the tokens from index `i` write a grouped expression `e`, and the
/// token after it is no infix operator that binds more strongly than `e`
/// holds together, the operand parsed at `i` is the first operand of `e`,
/// and the chain of infix operators after that operand grows into `e` at
/// every precedence below the binding of `e`.
proof fn lemma_chain_reaches(
    tokens: Seq<SpecToken>,
    i: nat,
    e: SpecExpression,
    precedence: Precedence,
)
    requires
        written_at(e, tokens, i),
        grouped(e),
        infix_of(token_at(tokens, i + width(e))) is Some ==> precedence_of(
            token_at(tokens, i + width(e)),
        ).level() <= binding(e),
        precedence.level() < binding(e),
    ensures
        operand(tokens, i) == (ExpressionOutcome {
            expression: Some(first_operand(e)),
            moved: (width(first_operand(e)) - 1) as nat,
        }),
        infix_chain(
            tokens,
            i,
            first_operand(e),
            (width(first_operand(e)) - 1) as nat,
            precedence,
        ) == infix_chain(tokens, i, e, (width(e) - 1) as nat, precedence),
    decreases e, 0nat,
{
    lemma_width(e);
    match e {
        SpecExpression::Identifier(_) => {},
        SpecExpression::Literal(_) => {},
        SpecExpression::Prefix(operator, inner) => {
            let x = *inner;
            lemma_width(x);
            lemma_infix_operators_bind(token_at(tokens, i + 1 + width(x)));
            lemma_parsed_well_is_parsed(
                tokens,
                i + 1,
                Precedence::Prefix,
                x,
                (width(x) - 1) as nat,
            );
        },
        SpecExpression::Infix(operator, left, right) => {
            let l = *left;
            let r = *right;
            lemma_width(l);
            lemma_width(r);
            let sign = token_at(tokens, i + width(l));
            lemma_infix_precedence(sign);
            lemma_chain_reaches(tokens, i, l, precedence);
            lemma_parsed_well_is_parsed(
                tokens,
                i + width(l) + 1,
                infix_precedence(operator),
                r,
                (width(r) - 1) as nat,
            );
        },
    }
}

/// The parser finds every expression that the tokens write: where a grouped
/// expression is written from index `i`, holds together more strongly than
/// `precedence`, and is followed by no infix operator that binds more
/// strongly than `precedence`, parsing at `i` gives that expression. With
/// [`lemma_expression_shape`], an expression is parsed if and only if it is
/// written and grouped so, and there is one such expression at most.
pub proof fn lemma_parsed_well_is_parsed(
    tokens: Seq<SpecToken>,
    i: nat,
    precedence: Precedence,
    e: SpecExpression,
    moved: nat,
)
    requires
        parsed_well(tokens, i, precedence, e, moved),
    ensures
        expression(tokens, i, precedence) == (ExpressionOutcome { expression: Some(e), moved }),
    decreases e, 1nat,
{
    lemma_chain_reaches(tokens, i, e, precedence);
}

/// A statement that parses holds the expression that the tokens after its
/// first words write, grouped by binding strength; a `let` holds the name
/// after `let`.
pub proof fn lemma_statement_shape(tokens: Seq<SpecToken>, i: nat)
    ensures
        match statement(tokens, i).statement {
            Some(SpecStatement::Let(name, value)) => {
                &&& token_at(tokens, i) == SpecToken::LET
                &&& token_at(tokens, i + 1) == SpecToken::IDENT(name)
                &&& token_at(tokens, i + 2) == SpecToken::ASSIGN
                &&& written_at(value, tokens, i + 3)
                &&& grouped(value)
            },
            Some(SpecStatement::Return(value)) => {
                &&& token_at(tokens, i) == SpecToken::RETURN
                &&& written_at(value, tokens, i + 1)
                &&& grouped(value)
            },
            Some(SpecStatement::Expression(value)) => {
                &&& written_at(value, tokens, i)
                &&& grouped(value)
            },
            None => true,
        },
{
    lemma_expression_shape(tokens, i, Precedence::Lowest);
    lemma_expression_shape(tokens, i + 1, Precedence::Lowest);
    lemma_expression_shape(tokens, i + 3, Precedence::Lowest);
}

/// Parsing an expression stays within the tokens: it stops at the end at the
/// latest, and an expression ends on a token.
pub proof fn lemma_expression_bounds(tokens: Seq<SpecToken>, i: nat, precedence: Precedence)
    ensures
        i <= tokens.len() ==> i + expression(tokens, i, precedence).moved <= tokens.len(),
        expression(tokens, i, precedence).expression is Some ==> i + expression(
            tokens,
            i,
            precedence,
        ).moved < tokens.len(),
    decreases tokens_left(tokens, i), 2nat,
{
    lemma_operand_bounds(tokens, i);
    let first = operand(tokens, i);
    if first.expression is Some {
        lemma_infix_chain_bounds(tokens, i, first.expression->0, first.moved, precedence);
    }
}

proof fn lemma_operand_bounds(tokens: Seq<SpecToken>, i: nat)
    ensures
        i <= tokens.len() ==> i + operand(tokens, i).moved <= tokens.len(),
        operand(tokens, i).expression is Some ==> i + operand(tokens, i).moved < tokens.len(),
    decreases tokens_left(tokens, i), 1nat,
{
    let token = token_at(tokens, i);
    if !is_atom(token) && prefix_of(token) is Some {
        lemma_expression_bounds(tokens, i + 1, Precedence::Prefix);
    }
}

proof fn lemma_infix_chain_bounds(
    tokens: Seq<SpecToken>,
    i: nat,
    left: SpecExpression,
    moved: nat,
    precedence: Precedence,
)
    requires
        i + moved < tokens.len(),
    ensures
        i + infix_chain(tokens, i, left, moved, precedence).moved <= tokens.len(),
        infix_chain(tokens, i, left, moved, precedence).expression is Some ==> i + infix_chain(
            tokens,
            i,
            left,
            moved,
            precedence,
        ).moved < tokens.len(),
    decreases tokens_left(tokens, i + moved), 0nat,
{
    let next = token_at(tokens, i + moved + 1);
    if infix_of(next) is Some && precedence.level() < precedence_of(next).level() {
        let right = expression(tokens, i + moved + 2, precedence_of(next));
        lemma_expression_bounds(tokens, i + moved + 2, precedence_of(next));
        if right.expression is Some {
            lemma_infix_chain_bounds(
                tokens,
                i,
                SpecExpression::Infix(
                    infix_of(next)->0,
                    Box::new(left),
                    Box::new(right.expression->0),
                ),
                moved + 2 + right.moved,
                precedence,
            );
        }
    }
}

/// Parsing a statement stays within the tokens, and gives a statement or a
/// diagnostic or neither, never both.
pub proof fn lemma_statement_bounds(tokens: Seq<SpecToken>, i: nat)
    requires
        i < tokens.len(),
    ensures
        i + statement(tokens, i).moved <= tokens.len(),
        !(statement(tokens, i).statement is Some && statement(tokens, i).error is Some),
{
    lemma_expression_bounds(tokens, i, Precedence::Lowest);
    lemma_expression_bounds(tokens, i + 1, Precedence::Lowest);
    lemma_expression_bounds(tokens, i + 3, Precedence::Lowest);
}

/// Parsing comes to an end on every token sequence: it stops at an `EOF` no
/// more than one place after the last token, and on the way gives no more
/// statements and diagnostics together than there are tokens.
pub proof fn lemma_program_bounds(tokens: Seq<SpecToken>, i: nat)
    ensures
        token_at(tokens, i + program_from(tokens, i).moved) == SpecToken::EOF,
        i <= tokens.len() ==> i + program_from(tokens, i).moved <= tokens.len() + 1,
        program_from(tokens, i).statements.len() + program_from(tokens, i).errors.len()
            <= tokens_left(tokens, i),
    decreases tokens_left(tokens, i),
{
    if token_at(tokens, i) != SpecToken::EOF {
        lemma_statement_bounds(tokens, i);
        let first = statement(tokens, i);
        lemma_program_bounds(tokens, i + first.moved + 1);
    }
}

} // verus!
