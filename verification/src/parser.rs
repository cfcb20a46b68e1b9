//! The parser: statements and expressions from a sequence of tokens, with
//! operators bound by precedence.
//!
//! The model is a family of functions over a token sequence and an index into
//! it. [`expression`] gives the expression that starts at an index,
//! [`statement`] the statement, and [`program_from`] the statements and
//! diagnostics from an index to the end. Beyond its end a token sequence
//! reads as `EOF`.

use crate::ast::{
    program_view, Expression, Identifier, Infix, Literal, Precedence, Prefix, Program,
    SpecExpression, SpecStatement, Statement,
};
use crate::lexer::{lemma_eof_repeats, lexeme_at, tokens_from, Lexer};
use crate::token::{SpecToken, Token};
use vstd::prelude::*;

verus! {

/// The token at index `i`, or `EOF` beyond the end.
pub open spec fn token_at(tokens: Seq<SpecToken>, i: nat) -> SpecToken {
    if i < tokens.len() {
        tokens[i as int]
    } else {
        SpecToken::EOF
    }
}

/// The number of tokens from index `i` to the end.
pub open spec fn tokens_left(tokens: Seq<SpecToken>, i: nat) -> nat {
    if i < tokens.len() {
        (tokens.len() - i) as nat
    } else {
        0
    }
}

/// The tokens from index `i` to the end.
pub open spec fn tokens_after(tokens: Seq<SpecToken>, i: nat) -> Seq<SpecToken> {
    if i <= tokens.len() {
        tokens.subrange(i as int, tokens.len() as int)
    } else {
        Seq::empty()
    }
}

/// The precedence of a token as an infix operator: that of each of the eight
/// operators `==`, `!=`, `<`, `>`, `+`, `-`, `/` and `*`, and `Lowest` for
/// every other token.
pub open spec fn precedence_of(token: SpecToken) -> Precedence {
    match token {
        SpecToken::EQ | SpecToken::NotEq => Precedence::Equals,
        SpecToken::LT | SpecToken::GT => Precedence::LessGreater,
        SpecToken::PLUS | SpecToken::MINUS => Precedence::Sum,
        SpecToken::SLASH | SpecToken::ASTERISK => Precedence::Product,
        _ => Precedence::Lowest,
    }
}

/// The prefix operator that a token writes, if it writes one.
pub open spec fn prefix_of(token: SpecToken) -> Option<Prefix> {
    match token {
        SpecToken::BANG => Some(Prefix::Not),
        SpecToken::PLUS => Some(Prefix::Plus),
        SpecToken::MINUS => Some(Prefix::Minus),
        _ => None,
    }
}

/// The infix operator that a token writes, if it writes one.
pub open spec fn infix_of(token: SpecToken) -> Option<Infix> {
    match token {
        SpecToken::PLUS => Some(Infix::Plus),
        SpecToken::MINUS => Some(Infix::Minus),
        SpecToken::SLASH => Some(Infix::Divide),
        SpecToken::ASTERISK => Some(Infix::Multiply),
        SpecToken::EQ => Some(Infix::Eq),
        SpecToken::NotEq => Some(Infix::NotEq),
        SpecToken::LT => Some(Infix::LT),
        SpecToken::GT => Some(Infix::GT),
        _ => None,
    }
}

/// The diagnostic for a token that cannot start an expression.
pub open spec fn no_prefix_message(token: SpecToken) -> Seq<char> {
    "no prefix parser function for "@ + token.describe() + " found"@
}

/// The diagnostic for a token `got` found where `want` had to follow.
pub open spec fn peek_mismatch_message(want: SpecToken, got: SpecToken) -> Seq<char> {
    "next token: want="@ + want.describe() + ", got="@ + got.describe()
}

/// No diagnostic or one, as a sequence.
pub open spec fn optional(message: Option<Seq<char>>) -> Seq<Seq<char>> {
    match message {
        Some(text) => seq![text],
        None => Seq::empty(),
    }
}

/// The value of an expression that may be absent.
pub open spec fn expression_view(expression: Option<Expression>) -> Option<SpecExpression> {
    match expression {
        Some(e) => Some(e@),
        None => None,
    }
}

/// The value of a statement that may be absent.
pub open spec fn statement_view(statement: Option<Statement>) -> Option<SpecStatement> {
    match statement {
        Some(s) => Some(s@),
        None => None,
    }
}

/// What parsing an expression at an index comes to.
///
/// With an expression, `moved` is the distance from the index to the last
/// token of the expression. Without one, it is the distance to the token that
/// cannot start an expression.
pub struct ExpressionOutcome {
    pub expression: Option<SpecExpression>,
    pub moved: nat,
}

impl ExpressionOutcome {
    /// The diagnostic of an outcome at index `i`: none with an expression,
    /// else the one for the token that cannot start an expression.
    pub open spec fn error(self, tokens: Seq<SpecToken>, i: nat) -> Option<Seq<char>> {
        match self.expression {
            Some(_) => None,
            None => Some(no_prefix_message(token_at(tokens, i + self.moved))),
        }
    }
}

/// The expression that starts at index `i` and takes in each following infix
/// operator that binds more strongly than `precedence`, with its right
/// operand.
pub open spec fn expression(
    tokens: Seq<SpecToken>,
    i: nat,
    precedence: Precedence,
) -> ExpressionOutcome
    decreases tokens_left(tokens, i), 2nat,
{
    let first = operand(tokens, i);
    match first.expression {
        Some(left) => infix_chain(tokens, i, left, first.moved, precedence),
        None => first,
    }
}

/// The operand at index `i`: a name, a number, or a prefix operator with the
/// operand after it, which takes in no infix operator.
pub open spec fn operand(tokens: Seq<SpecToken>, i: nat) -> ExpressionOutcome
    decreases tokens_left(tokens, i), 1nat,
{
    match token_at(tokens, i) {
        SpecToken::IDENT(name) => ExpressionOutcome {
            expression: Some(SpecExpression::Identifier(name)),
            moved: 0,
        },
        SpecToken::INT(value) => ExpressionOutcome {
            expression: Some(SpecExpression::Literal(Literal::Int(value))),
            moved: 0,
        },
        token => match prefix_of(token) {
            Some(operator) => {
                let inner = expression(tokens, i + 1, Precedence::Prefix);
                ExpressionOutcome {
                    expression: match inner.expression {
                        Some(e) => Some(SpecExpression::Prefix(operator, Box::new(e))),
                        None => None,
                    },
                    moved: inner.moved + 1,
                }
            },
            None => ExpressionOutcome { expression: None, moved: 0 },
        },
    }
}

/// The expression that grows from `left`, which ends `moved` tokens after
/// index `i`, by each following infix operator that binds more strongly than
/// `precedence`. The right operand of an operator takes in what binds more
/// strongly than that operator, so operators of one precedence group to the
/// left.
pub open spec fn infix_chain(
    tokens: Seq<SpecToken>,
    i: nat,
    left: SpecExpression,
    moved: nat,
    precedence: Precedence,
) -> ExpressionOutcome
    decreases tokens_left(tokens, i + moved), 0nat,
{
    let next = token_at(tokens, i + moved + 1);
    match infix_of(next) {
        Some(operator) if precedence.level() < precedence_of(next).level() => {
            let right = expression(tokens, i + moved + 2, precedence_of(next));
            match right.expression {
                Some(e) => infix_chain(
                    tokens,
                    i,
                    SpecExpression::Infix(operator, Box::new(left), Box::new(e)),
                    moved + 2 + right.moved,
                    precedence,
                ),
                None => ExpressionOutcome { expression: None, moved: moved + 2 + right.moved },
            }
        },
        _ => ExpressionOutcome { expression: Some(left), moved },
    }
}

/// What parsing a statement at an index comes to: the statement, if there is
/// one; the diagnostic, if one is given; and the distance from the index to
/// the token at which parsing stops.
pub struct StatementOutcome {
    pub statement: Option<SpecStatement>,
    pub error: Option<Seq<char>>,
    pub moved: nat,
}

/// One more where a semicolon follows index `i`, to take it in.
pub open spec fn semicolon_after(tokens: Seq<SpecToken>, i: nat) -> nat {
    if token_at(tokens, i + 1) == SpecToken::SEMICOLON {
        1
    } else {
        0
    }
}

/// The statement `let name = value` at index `i`, with the semicolon after
/// it if there is one.
///
/// Without a name after `let` there is no statement and no diagnostic.
/// Without `=` after the name there is no statement, and the diagnostic
/// names `=` and the token found.
pub open spec fn let_statement(tokens: Seq<SpecToken>, i: nat) -> StatementOutcome {
    match token_at(tokens, i + 1) {
        SpecToken::IDENT(name) => {
            if token_at(tokens, i + 2) == SpecToken::ASSIGN {
                let value = expression(tokens, i + 3, Precedence::Lowest);
                match value.expression {
                    Some(e) => StatementOutcome {
                        statement: Some(SpecStatement::Let(name, e)),
                        error: None,
                        moved: 3 + value.moved + semicolon_after(tokens, i + 3 + value.moved),
                    },
                    None => StatementOutcome {
                        statement: None,
                        error: value.error(tokens, i + 3),
                        moved: 3 + value.moved,
                    },
                }
            } else {
                StatementOutcome {
                    statement: None,
                    error: Some(
                        peek_mismatch_message(SpecToken::ASSIGN, token_at(tokens, i + 2)),
                    ),
                    moved: 1,
                }
            }
        },
        _ => StatementOutcome { statement: None, error: None, moved: 0 },
    }
}

/// The statement `return value` at index `i`, with the semicolon after it if
/// there is one.
pub open spec fn return_statement(tokens: Seq<SpecToken>, i: nat) -> StatementOutcome {
    if token_at(tokens, i) == SpecToken::RETURN {
        let value = expression(tokens, i + 1, Precedence::Lowest);
        match value.expression {
            Some(e) => StatementOutcome {
                statement: Some(SpecStatement::Return(e)),
                error: None,
                moved: 1 + value.moved + semicolon_after(tokens, i + 1 + value.moved),
            },
            None => StatementOutcome {
                statement: None,
                error: value.error(tokens, i + 1),
                moved: 1 + value.moved,
            },
        }
    } else {
        StatementOutcome { statement: None, error: None, moved: 0 }
    }
}

/// The expression at index `i` as a statement, with the semicolon after it
/// if there is one.
pub open spec fn expression_statement(tokens: Seq<SpecToken>, i: nat) -> StatementOutcome {
    let value = expression(tokens, i, Precedence::Lowest);
    match value.expression {
        Some(e) => StatementOutcome {
            statement: Some(SpecStatement::Expression(e)),
            error: None,
            moved: value.moved + semicolon_after(tokens, i + value.moved),
        },
        None => StatementOutcome {
            statement: None,
            error: value.error(tokens, i),
            moved: value.moved,
        },
    }
}

/// The statement at index `i`, of the form that its first token calls for.
pub open spec fn statement(tokens: Seq<SpecToken>, i: nat) -> StatementOutcome {
    match token_at(tokens, i) {
        SpecToken::LET => let_statement(tokens, i),
        SpecToken::RETURN => return_statement(tokens, i),
        _ => expression_statement(tokens, i),
    }
}

/// What parsing from an index to the end comes to: the statements in source
/// order, the diagnostics in the order given, and the distance from the index
/// to the `EOF` at which parsing stops.
pub struct ProgramOutcome {
    pub statements: Seq<SpecStatement>,
    pub errors: Seq<Seq<char>>,
    pub moved: nat,
}

/// The statements and diagnostics from index `i` to the end.
///
/// Statements are parsed one after another until the token at hand is `EOF`.
/// Each starts one token after the place where the one before stopped, with
/// or without a statement.
pub open spec fn program_from(tokens: Seq<SpecToken>, i: nat) -> ProgramOutcome
    decreases tokens_left(tokens, i),
{
    if token_at(tokens, i) == SpecToken::EOF {
        ProgramOutcome { statements: Seq::empty(), errors: Seq::empty(), moved: 0 }
    } else {
        let first = statement(tokens, i);
        let rest = program_from(tokens, i + first.moved + 1);
        ProgramOutcome {
            statements: match first.statement {
                Some(s) => seq![s] + rest.statements,
                None => rest.statements,
            },
            errors: optional(first.error) + rest.errors,
            moved: first.moved + 1 + rest.moved,
        }
    }
}

/// The texts of a list of diagnostics.
pub open spec fn texts(messages: Seq<String>) -> Seq<Seq<char>> {
    Seq::new(messages.len(), |i: int| messages[i]@)
}

/// The prefix operator that a token writes, if it writes one.
fn prefix(token: &Token) -> (operator: Option<Prefix>)
    ensures
        operator == prefix_of(token@),
{
    match token {
        Token::BANG => Some(Prefix::Not),
        Token::PLUS => Some(Prefix::Plus),
        Token::MINUS => Some(Prefix::Minus),
        _ => None,
    }
}

/// The infix operator that a token writes, if it writes one.
fn infix(token: &Token) -> (operator: Option<Infix>)
    ensures
        operator == infix_of(token@),
{
    match token {
        Token::PLUS => Some(Infix::Plus),
        Token::MINUS => Some(Infix::Minus),
        Token::SLASH => Some(Infix::Divide),
        Token::ASTERISK => Some(Infix::Multiply),
        Token::EQ => Some(Infix::Eq),
        Token::NotEq => Some(Infix::NotEq),
        Token::LT => Some(Infix::LT),
        Token::GT => Some(Infix::GT),
        _ => None,
    }
}

/// A parser over the tokens of a tokenizer, with the token at hand, the one
/// after it, and the diagnostics given so far.
pub struct Parser<'a> {
    lexer: Lexer<'a>,
    current_token: Token,
    peek_token: Token,
    errors: Vec<String>,
    tokens: Ghost<Seq<SpecToken>>,
    cursor: Ghost<nat>,
}

impl<'a> Parser<'a> {
    /// The tokens that the parser reads, from the first to the last before
    /// the end of the input.
    pub closed spec fn tokens(&self) -> Seq<SpecToken> {
        self.tokens@
    }

    /// The index of the token at hand.
    pub closed spec fn cursor(&self) -> nat {
        self.cursor@
    }

    /// The diagnostics given so far.
    pub closed spec fn errors(&self) -> Seq<Seq<char>> {
        texts(self.errors@)
    }

    /// The token at hand and the one after it are those at the cursor, and
    /// the tokenizer stands after both.
    pub closed spec fn wf(&self) -> bool {
        &&& self.current_token@ == token_at(self.tokens@, self.cursor@)
        &&& self.peek_token@ == token_at(self.tokens@, self.cursor@ + 1)
        &&& self.lexer.remaining() == tokens_after(self.tokens@, self.cursor@ + 2)
    }

    /// A parser at the first of the tokens that `lexer` has still to give.
    pub fn new(lexer: Lexer<'a>) -> (parser: Parser<'a>)
        ensures
            parser.wf(),
            parser.tokens() == lexer.remaining(),
            parser.cursor() == 0,
            parser.errors() == Seq::<Seq<char>>::empty(),
    {
        let ghost tokens = lexer.remaining();
        let ghost bytes = lexer.bytes();
        let ghost start = lexer.position();
        let mut lexer = lexer;
        let current_token = lexer.next_token();
        let ghost middle = lexer.position();
        let peek_token = lexer.next_token();
        proof {
            lemma_unfold_tokens(bytes, start);
            lemma_unfold_tokens(bytes, middle);
            assert(tokens_after(tokens, 1) =~= tokens_from(bytes, middle));
            assert(tokens_after(tokens, 2) =~= lexer.remaining());
        }
        let parser = Parser {
            lexer,
            current_token,
            peek_token,
            errors: Vec::new(),
            tokens: Ghost(tokens),
            cursor: Ghost(0),
        };
        assert(parser.errors() =~= Seq::<Seq<char>>::empty());
        parser
    }

    /// Parses statements up to the end of the input and returns those that
    /// parsed, in source order. A statement that fails to parse is left out,
    /// with a diagnostic where one is called for, and parsing goes on one
    /// token after the place where it stopped.
    pub fn parse(&mut self) -> (program: Program)
        requires
            old(self).wf(),
        ensures
            final(self).wf(),
            final(self).tokens() == old(self).tokens(),
            program_view(program@) == program_from(
                old(self).tokens(),
                old(self).cursor(),
            ).statements,
            final(self).errors() == old(self).errors() + program_from(
                old(self).tokens(),
                old(self).cursor(),
            ).errors,
            final(self).cursor() == old(self).cursor() + program_from(
                old(self).tokens(),
                old(self).cursor(),
            ).moved,
    {
        let mut program: Program = Vec::new();
        let ghost tokens = self.tokens();
        let ghost whole = program_from(tokens, self.cursor());
        assert(program_view(program@) + whole.statements =~= whole.statements);
        assert(self.errors() + whole.errors =~= old(self).errors() + whole.errors);
        while !self.current_token_is(Token::EOF)
            invariant
                self.wf(),
                self.tokens() == tokens,
                program_view(program@) + program_from(tokens, self.cursor()).statements
                    == whole.statements,
                self.errors() + program_from(tokens, self.cursor()).errors == old(self).errors()
                    + whole.errors,
                self.cursor() + program_from(tokens, self.cursor()).moved == old(self).cursor()
                    + whole.moved,
            decreases tokens_left(tokens, self.cursor()),
        {
            let ghost here = self.cursor();
            let ghost before = self.errors();
            let ghost parsed = program_view(program@);
            let ghost first = statement(tokens, here);
            let ghost rest = program_from(tokens, here + first.moved + 1);
            match self.parse_statement() {
                Some(statement) => {
                    program.push(statement);
                    assert(program_view(program@) =~= parsed + seq![statement@]);
                    assert(program_view(program@) + rest.statements =~= parsed + (seq![
                        statement@,
                    ] + rest.statements));
                },
                None => {},
            }
            self.next_token();
            assert(self.errors() + rest.errors =~= before + (optional(first.error) + rest.errors));
        }
        assert(program_view(program@) + Seq::<SpecStatement>::empty() =~= program_view(program@));
        assert(self.errors() + Seq::<Seq<char>>::empty() =~= self.errors());
        program
    }

    /// The diagnostics given so far, in the order given.
    pub fn get_errors(self) -> (errors: Vec<String>)
        ensures
            texts(errors@) == self.errors(),
    {
        self.errors
    }

    /// Records that `tok` had to follow and another token does.
    fn peek_error(&mut self, tok: Token)
        requires
            old(self).wf(),
        ensures
            final(self).wf(),
            final(self).tokens() == old(self).tokens(),
            final(self).cursor() == old(self).cursor(),
            final(self).errors() == old(self).errors().push(
                peek_mismatch_message(
                    tok@,
                    token_at(old(self).tokens(), old(self).cursor() + 1),
                ),
            ),
    {
        let mut message = String::from_str("next token: want=");
        message.append(tok.describe().as_str());
        message.append(", got=");
        message.append(self.peek_token.describe().as_str());
        self.errors.push(message);
        assert(self.errors() =~= old(self).errors().push(message@));
    }

    /// Parses the statement at the token at hand.
    fn parse_statement(&mut self) -> (result: Option<Statement>)
        requires
            old(self).wf(),
        ensures
            final(self).wf(),
            final(self).tokens() == old(self).tokens(),
            statement_view(result) == statement(old(self).tokens(), old(self).cursor()).statement,
            final(self).cursor() == old(self).cursor() + statement(
                old(self).tokens(),
                old(self).cursor(),
            ).moved,
            final(self).errors() == old(self).errors() + optional(
                statement(old(self).tokens(), old(self).cursor()).error,
            ),
    {
        match self.current_token {
            Token::LET => self.parse_let_statement(),
            Token::RETURN => self.parse_return_statement(),
            _ => self.parse_expression_statement(),
        }
    }

    /// Parses `let name = value`, and takes in the semicolon after it if
    /// there is one.
    fn parse_let_statement(&mut self) -> (result: Option<Statement>)
        requires
            old(self).wf(),
        ensures
            final(self).wf(),
            final(self).tokens() == old(self).tokens(),
            statement_view(result) == let_statement(
                old(self).tokens(),
                old(self).cursor(),
            ).statement,
            final(self).cursor() == old(self).cursor() + let_statement(
                old(self).tokens(),
                old(self).cursor(),
            ).moved,
            final(self).errors() == old(self).errors() + optional(
                let_statement(old(self).tokens(), old(self).cursor()).error,
            ),
    {
        let ghost before = self.errors();
        match self.peek_token {
            Token::IDENT(_) => self.next_token(),
            _ => {
                assert(before + Seq::<Seq<char>>::empty() =~= before);
                return None;
            },
        }
        let name = match self.parse_identifier() {
            Some(name) => name,
            None => {
                return None;
            },
        };
        if !self.expect_peek(Token::ASSIGN) {
            assert(self.errors() =~= before + optional(
                let_statement(old(self).tokens(), old(self).cursor()).error,
            ));
            return None;
        }
        self.next_token();
        let value = match self.parse_expression(Precedence::Lowest) {
            Some(value) => value,
            None => {
                return None;
            },
        };
        if self.peek_token_is(&Token::SEMICOLON) {
            self.next_token();
        }
        assert(before + Seq::<Seq<char>>::empty() =~= before);
        Some(Statement::Let(name, value))
    }

    /// Parses `return value`, and takes in the semicolon after it if there
    /// is one.
    fn parse_return_statement(&mut self) -> (result: Option<Statement>)
        requires
            old(self).wf(),
        ensures
            final(self).wf(),
            final(self).tokens() == old(self).tokens(),
            statement_view(result) == return_statement(
                old(self).tokens(),
                old(self).cursor(),
            ).statement,
            final(self).cursor() == old(self).cursor() + return_statement(
                old(self).tokens(),
                old(self).cursor(),
            ).moved,
            final(self).errors() == old(self).errors() + optional(
                return_statement(old(self).tokens(), old(self).cursor()).error,
            ),
    {
        let ghost before = self.errors();
        assert(before + Seq::<Seq<char>>::empty() =~= before);
        if !self.current_token_is(Token::RETURN) {
            return None;
        }
        self.next_token();
        let value = match self.parse_expression(Precedence::Lowest) {
            Some(value) => value,
            None => {
                return None;
            },
        };
        if self.peek_token_is(&Token::SEMICOLON) {
            self.next_token();
        }
        Some(Statement::Return(value))
    }

    /// Parses an expression as a statement, and takes in the semicolon after
    /// it if there is one.
    fn parse_expression_statement(&mut self) -> (result: Option<Statement>)
        requires
            old(self).wf(),
        ensures
            final(self).wf(),
            final(self).tokens() == old(self).tokens(),
            statement_view(result) == expression_statement(
                old(self).tokens(),
                old(self).cursor(),
            ).statement,
            final(self).cursor() == old(self).cursor() + expression_statement(
                old(self).tokens(),
                old(self).cursor(),
            ).moved,
            final(self).errors() == old(self).errors() + optional(
                expression_statement(old(self).tokens(), old(self).cursor()).error,
            ),
    {
        let ghost before = self.errors();
        assert(before + Seq::<Seq<char>>::empty() =~= before);
        let expression = match self.parse_expression(Precedence::Lowest) {
            Some(expression) => expression,
            None => {
                return None;
            },
        };
        if self.peek_token_is(&Token::SEMICOLON) {
            self.next_token();
        }
        Some(Statement::Expression(expression))
    }

    /// The token at hand as a name, if it is one.
    fn parse_identifier(&self) -> (name: Option<Identifier>)
        ensures
            match self.current_token@ {
                SpecToken::IDENT(text) => name matches Some(n) && n@ == text,
                _ => name is None,
            },
    {
        match &self.current_token {
            Token::IDENT(ident) => Some(Identifier(ident.clone())),
            _ => None,
        }
    }

    /// Parses the expression at the token at hand, with each following infix
    /// operator that binds more strongly than `precedence`.
    fn parse_expression(&mut self, precedence: Precedence) -> (result: Option<Expression>)
        requires
            old(self).wf(),
        ensures
            final(self).wf(),
            final(self).tokens() == old(self).tokens(),
            expression_view(result) == expression(
                old(self).tokens(),
                old(self).cursor(),
                precedence,
            ).expression,
            final(self).cursor() == old(self).cursor() + expression(
                old(self).tokens(),
                old(self).cursor(),
                precedence,
            ).moved,
            final(self).errors() == old(self).errors() + optional(
                expression(old(self).tokens(), old(self).cursor(), precedence).error(
                    old(self).tokens(),
                    old(self).cursor(),
                ),
            ),
        decreases tokens_left(old(self).tokens(), old(self).cursor()), 2nat,
    {
        let ghost tokens = self.tokens();
        let ghost start = self.cursor();
        let ghost before = self.errors();
        let ghost whole = expression(tokens, start, precedence);
        assert(before + Seq::<Seq<char>>::empty() =~= before);
        let first = match self.current_token {
            Token::IDENT(_) => self.parse_identifier_expression(),
            Token::INT(_) => self.parse_integer_literal_expression(),
            Token::BANG | Token::PLUS | Token::MINUS => self.parse_prefix_expression(),
            _ => {
                let mut message = String::from_str("no prefix parser function for ");
                message.append(self.current_token.describe().as_str());
                message.append(" found");
                self.errors.push(message);
                assert(self.errors() =~= before.push(message@));
                assert(before.push(message@) =~= before + seq![message@]);
                return None;
            },
        };
        let mut left = match first {
            Some(left) => left,
            None => {
                return None;
            },
        };
        let ghost mut moved = operand(tokens, start).moved;
        while !self.peek_token_is(&Token::SEMICOLON) && precedence < self.peek_precedence()
            invariant
                self.wf(),
                self.tokens() == tokens,
                self.errors() == before,
                self.cursor() == start + moved,
                tokens == old(self).tokens(),
                start == old(self).cursor(),
                before == old(self).errors(),
                whole == expression(tokens, start, precedence),
                infix_chain(tokens, start, left@, moved, precedence) == whole,
            decreases tokens_left(tokens, self.cursor()),
        {
            match infix(&self.peek_token) {
                Some(_) => {
                    self.next_token();
                    let ghost right = expression(
                        tokens,
                        start + moved + 2,
                        precedence_of(token_at(tokens, start + moved + 1)),
                    );
                    match self.parse_infix_expression(left) {
                        Some(joined) => {
                            left = joined;
                            proof {
                                moved = moved + 2 + right.moved;
                            }
                        },
                        None => {
                            return None;
                        },
                    }
                },
                None => {
                    return Some(left);
                },
            }
        }
        Some(left)
    }

    /// With an infix operator at hand, parses its right operand and joins it
    /// with `left`. With another token at hand there is no expression.
    fn parse_infix_expression(&mut self, left: Expression) -> (result: Option<Expression>)
        requires
            old(self).wf(),
        ensures
            final(self).wf(),
            final(self).tokens() == old(self).tokens(),
            match infix_of(token_at(old(self).tokens(), old(self).cursor())) {
                Some(operator) => {
                    let right = expression(
                        old(self).tokens(),
                        old(self).cursor() + 1,
                        precedence_of(token_at(old(self).tokens(), old(self).cursor())),
                    );
                    &&& expression_view(result) == match right.expression {
                        Some(e) => Some(
                            SpecExpression::Infix(operator, Box::new(left@), Box::new(e)),
                        ),
                        None => None,
                    }
                    &&& final(self).cursor() == old(self).cursor() + 1 + right.moved
                    &&& final(self).errors() == old(self).errors() + optional(
                        right.error(old(self).tokens(), old(self).cursor() + 1),
                    )
                },
                None => {
                    &&& result is None
                    &&& final(self).cursor() == old(self).cursor()
                    &&& final(self).errors() == old(self).errors()
                },
            },
        decreases tokens_left(old(self).tokens(), old(self).cursor()), 1nat,
    {
        let operator = match infix(&self.current_token) {
            Some(operator) => operator,
            None => {
                return None;
            },
        };
        let precedence = self.token_to_precedence(&self.current_token);
        self.next_token();
        match self.parse_expression(precedence) {
            Some(right) => Some(Expression::Infix(operator, Box::new(left), Box::new(right))),
            None => None,
        }
    }

    /// The name at hand as an expression.
    fn parse_identifier_expression(&self) -> (result: Option<Expression>)
        ensures
            match self.current_token@ {
                SpecToken::IDENT(text) => expression_view(result) == Some(
                    SpecExpression::Identifier(text),
                ),
                _ => result is None,
            },
    {
        match self.parse_identifier() {
            Some(ident) => Some(Expression::Identifier(ident)),
            None => None,
        }
    }

    /// The number at hand as an expression.
    fn parse_integer_literal_expression(&self) -> (result: Option<Expression>)
        ensures
            match self.current_token@ {
                SpecToken::INT(value) => expression_view(result) == Some(
                    SpecExpression::Literal(Literal::Int(value)),
                ),
                _ => result is None,
            },
    {
        match self.current_token {
            Token::INT(value) => Some(Expression::Literal(Literal::Int(value))),
            _ => None,
        }
    }

    /// With a prefix operator at hand, parses its operand and puts the
    /// operator before it. With another token at hand there is no expression.
    fn parse_prefix_expression(&mut self) -> (result: Option<Expression>)
        requires
            old(self).wf(),
        ensures
            final(self).wf(),
            final(self).tokens() == old(self).tokens(),
            match prefix_of(token_at(old(self).tokens(), old(self).cursor())) {
                Some(operator) => {
                    let inner = expression(
                        old(self).tokens(),
                        old(self).cursor() + 1,
                        Precedence::Prefix,
                    );
                    &&& expression_view(result) == match inner.expression {
                        Some(e) => Some(SpecExpression::Prefix(operator, Box::new(e))),
                        None => None,
                    }
                    &&& final(self).cursor() == old(self).cursor() + 1 + inner.moved
                    &&& final(self).errors() == old(self).errors() + optional(
                        inner.error(old(self).tokens(), old(self).cursor() + 1),
                    )
                },
                None => {
                    &&& result is None
                    &&& final(self).cursor() == old(self).cursor()
                    &&& final(self).errors() == old(self).errors()
                },
            },
        decreases tokens_left(old(self).tokens(), old(self).cursor()), 1nat,
    {
        let operator = match prefix(&self.current_token) {
            Some(operator) => operator,
            None => {
                return None;
            },
        };
        self.next_token();
        match self.parse_expression(Precedence::Prefix) {
            Some(operand) => Some(Expression::Prefix(operator, Box::new(operand))),
            None => None,
        }
    }

    /// Moves on by one token: the one after it becomes the one at hand, and the
    /// tokenizer gives the next.
    fn next_token(&mut self)
        requires
            old(self).wf(),
        ensures
            final(self).wf(),
            final(self).tokens() == old(self).tokens(),
            final(self).cursor() == old(self).cursor() + 1,
            final(self).errors() == old(self).errors(),
    {
        let ghost bytes = self.lexer.bytes();
        let ghost position = self.lexer.position();
        let mut next = self.lexer.next_token();
        proof {
            let tokens = self.tokens@;
            let behind = tokens_after(tokens, self.cursor@ + 2);
            lemma_unfold_tokens(bytes, position);
            if next@ == SpecToken::EOF {
                assert(behind.len() == 0);
            } else {
                assert(behind.len() > 0);
                assert(behind[0] == next@);
                assert(tokens_after(tokens, self.cursor@ + 3) =~= behind.subrange(
                    1,
                    behind.len() as int,
                ));
            }
            assert(tokens_after(tokens, self.cursor@ + 3) =~= self.lexer.remaining());
        }
        core::mem::swap(&mut self.peek_token, &mut next);
        self.current_token = next;
        self.cursor = Ghost(self.cursor@ + 1);
    }

    /// Moves on by one token if the one after the one at hand is `tok`.
    /// Else records the mismatch and stays.
    fn expect_peek(&mut self, tok: Token) -> (found: bool)
        requires
            old(self).wf(),
        ensures
            final(self).wf(),
            final(self).tokens() == old(self).tokens(),
            found == (token_at(old(self).tokens(), old(self).cursor() + 1) == tok@),
            found ==> final(self).cursor() == old(self).cursor() + 1 && final(self).errors()
                == old(self).errors(),
            !found ==> final(self).cursor() == old(self).cursor() && final(self).errors() == old(
                self,
            ).errors().push(
                peek_mismatch_message(
                    tok@,
                    token_at(old(self).tokens(), old(self).cursor() + 1),
                ),
            ),
    {
        if self.peek_token_is(&tok) {
            self.next_token();
            true
        } else {
            self.peek_error(tok);
            false
        }
    }

    /// Whether the token after the one at hand is `tok`.
    fn peek_token_is(&self, tok: &Token) -> (same: bool)
        ensures
            same == (self.peek_token@ == tok@),
    {
        self.peek_token == *tok
    }

    /// The precedence of the token after the one at hand.
    fn peek_precedence(&self) -> (precedence: Precedence)
        ensures
            precedence == precedence_of(self.peek_token@),
    {
        self.token_to_precedence(&self.peek_token)
    }

    /// The precedence of `tok` as an infix operator; `Lowest` for every
    /// token that is none of the eight operators.
    fn token_to_precedence(&self, tok: &Token) -> (precedence: Precedence)
        ensures
            precedence == precedence_of(tok@),
    {
        match tok {
            Token::EQ | Token::NotEq => Precedence::Equals,
            Token::LT | Token::GT => Precedence::LessGreater,
            Token::PLUS | Token::MINUS => Precedence::Sum,
            Token::SLASH | Token::ASTERISK => Precedence::Product,
            _ => Precedence::Lowest,
        }
    }

    /// Whether the token at hand is `tok`.
    fn current_token_is(&self, tok: Token) -> (same: bool)
        ensures
            same == (self.current_token@ == tok@),
    {
        self.current_token == tok
    }
}

/// The tokens from a position are the token there and the tokens after it,
/// or none where that token is `EOF`.
proof fn lemma_unfold_tokens(bytes: Seq<u8>, pos: nat)
    ensures
        lexeme_at(bytes, pos).token == SpecToken::EOF ==> tokens_from(bytes, pos)
            == Seq::<SpecToken>::empty() && tokens_from(bytes, lexeme_at(bytes, pos).end)
            == Seq::<SpecToken>::empty(),
        lexeme_at(bytes, pos).token != SpecToken::EOF ==> tokens_from(bytes, pos) == seq![
            lexeme_at(bytes, pos).token,
        ] + tokens_from(bytes, lexeme_at(bytes, pos).end),
{
    if lexeme_at(bytes, pos).token == SpecToken::EOF {
        lemma_eof_repeats(bytes, pos);
    }
}

} // verus!
