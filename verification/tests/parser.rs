use monkey::ast::{Expression, Identifier, Infix, Literal, Precedence, Prefix, Program, Statement};
use monkey::lexer::Lexer;
use monkey::parser::Parser;
use monkey::token::Token;

fn parse_all(input: &str) -> (Program, Vec<String>) {
    let mut parser = Parser::new(Lexer::new(input));
    let program = parser.parse();
    (program, parser.get_errors())
}

fn name(name: &str) -> Expression {
    Expression::Identifier(Identifier(String::from(name)))
}

fn num(value: i64) -> Expression {
    Expression::Literal(Literal::Int(value))
}

fn pre(operator: Prefix, operand: Expression) -> Expression {
    Expression::Prefix(operator, Box::new(operand))
}

fn bin(operator: Infix, left: Expression, right: Expression) -> Expression {
    Expression::Infix(operator, Box::new(left), Box::new(right))
}

#[test]
fn test_parse() {
    let mut parser = Parser::new(Lexer::new(
        r#"
let x = 5;
let y = 10;"#,
    ));

    let program = parser.parse();

    assert_eq!(
        program.get(0).unwrap().to_owned(),
        Statement::Let(
            Identifier("x".to_string()),
            Expression::Literal(Literal::Int(5))
        )
    );

    let mut parser = Parser::new(Lexer::new(r#"let x 5;"#));
    parser.parse();
    let errors = parser.get_errors();
    println!("{:?}", errors);
    assert_eq!(errors.len(), 1);
}

#[test]
fn test_return_statements() {
    let mut parser = Parser::new(Lexer::new(
        r#"
return 5;
return 10;
return 993322;"#,
    ));

    parser.parse();
    println!("{:?}", parser.get_errors());
}

#[test]
fn test_prefix() {
    let mut parser = Parser::new(Lexer::new(
        r#"
!5;
-15;"#,
    ));
    let program = parser.parse();

    assert_eq!(
        program.get(0).unwrap().to_owned(),
        Statement::Expression(Expression::Prefix(
            Prefix::Not,
            Box::new(Expression::Literal(Literal::Int(5)))
        ))
    );
    assert_eq!(
        program.get(1).unwrap().to_owned(),
        Statement::Expression(Expression::Prefix(
            Prefix::Minus,
            Box::new(Expression::Literal(Literal::Int(15)))
        ))
    );
}

#[test]
fn test_infix() {
    let mut parser = Parser::new(Lexer::new(
        r#"
5 + 5;
5 - 5;
5 * 5;
5 / 5;
5 > 5;
5 < 5;
5 == 5;
5 != 5;"#,
    ));
    let program = parser.parse();
    let expects = vec![
        Infix::Plus,
        Infix::Minus,
        Infix::Multiply,
        Infix::Divide,
        Infix::GT,
        Infix::LT,
        Infix::Eq,
        Infix::NotEq,
    ];

    for (i, infix) in expects.iter().enumerate() {
        assert_eq!(
            program.get(i).unwrap().to_owned(),
            Statement::Expression(Expression::Infix(
                infix.to_owned(),
                Box::new(Expression::Literal(Literal::Int(5))),
                Box::new(Expression::Literal(Literal::Int(5))),
            ))
        );
    }
}

#[test]
fn test_precedence() {
    let mut parser = Parser::new(Lexer::new(
        r#"
-a * b;
!-a;
a + b + c;"#,
    ));
    let program = parser.parse();

    assert_eq!(
        program.get(0).unwrap().to_owned(),
        Statement::Expression(Expression::Infix(
            Infix::Multiply,
            Box::new(Expression::Prefix(
                Prefix::Minus,
                Box::new(Expression::Identifier(Identifier(String::from("a"))))
            )),
            Box::new(Expression::Identifier(Identifier(String::from("b"))))
        ))
    );
    assert_eq!(
        program.get(1).unwrap().to_owned(),
        Statement::Expression(Expression::Prefix(
            Prefix::Not,
            Box::new(Expression::Prefix(
                Prefix::Minus,
                Box::new(Expression::Identifier(Identifier(String::from("a"))))
            ),),
        ))
    );

    assert_eq!(
        program.get(2).unwrap().to_owned(),
        Statement::Expression(Expression::Infix(
            Infix::Plus,
            Box::new(Expression::Infix(
                Infix::Plus,
                Box::new(Expression::Identifier(Identifier(String::from("a")))),
                Box::new(Expression::Identifier(Identifier(String::from("b")))),
            )),
            Box::new(Expression::Identifier(Identifier(String::from("c"))))
        ))
    );
}

#[test]
fn prefix_binds_tighter_than_product() {
    let (program, errors) = parse_all("-a * b;");
    assert_eq!(
        program,
        vec![Statement::Expression(bin(
            Infix::Multiply,
            pre(Prefix::Minus, name("a")),
            name("b")
        ))]
    );
    assert!(errors.is_empty());
}

#[test]
fn equal_precedence_groups_to_the_left() {
    let (program, errors) = parse_all("a + b + c;");
    assert_eq!(
        program,
        vec![Statement::Expression(bin(
            Infix::Plus,
            bin(Infix::Plus, name("a"), name("b")),
            name("c")
        ))]
    );
    assert!(errors.is_empty());
    let (program, _) = parse_all("a - b + c - d");
    assert_eq!(
        program,
        vec![Statement::Expression(bin(
            Infix::Minus,
            bin(
                Infix::Plus,
                bin(Infix::Minus, name("a"), name("b")),
                name("c")
            ),
            name("d")
        ))]
    );
}

#[test]
fn product_binds_tighter_than_sum() {
    let (program, _) = parse_all("a + b * c;");
    assert_eq!(
        program,
        vec![Statement::Expression(bin(
            Infix::Plus,
            name("a"),
            bin(Infix::Multiply, name("b"), name("c"))
        ))]
    );
    let (program, _) = parse_all("a * b + c;");
    assert_eq!(
        program,
        vec![Statement::Expression(bin(
            Infix::Plus,
            bin(Infix::Multiply, name("a"), name("b")),
            name("c")
        ))]
    );
    let (program, _) = parse_all("a + b / c - d;");
    assert_eq!(
        program,
        vec![Statement::Expression(bin(
            Infix::Minus,
            bin(
                Infix::Plus,
                name("a"),
                bin(Infix::Divide, name("b"), name("c"))
            ),
            name("d")
        ))]
    );
}

#[test]
fn comparison_binds_weaker_than_arithmetic() {
    let (program, errors) = parse_all("1 + 2 == 3 * 1 < 4;");
    assert_eq!(
        program,
        vec![Statement::Expression(bin(
            Infix::Eq,
            bin(Infix::Plus, num(1), num(2)),
            bin(
                Infix::LT,
                bin(Infix::Multiply, num(3), num(1)),
                num(4)
            )
        ))]
    );
    assert!(errors.is_empty());
    let (program, _) = parse_all("a > b != c < d");
    assert_eq!(
        program,
        vec![Statement::Expression(bin(
            Infix::NotEq,
            bin(Infix::GT, name("a"), name("b")),
            bin(Infix::LT, name("c"), name("d"))
        ))]
    );
}

#[test]
fn prefix_operators_nest_and_follow_infix_operators() {
    let (program, errors) = parse_all("a + -b; !-+c; 1 - -1;");
    assert_eq!(
        program,
        vec![
            Statement::Expression(bin(
                Infix::Plus,
                name("a"),
                pre(Prefix::Minus, name("b"))
            )),
            Statement::Expression(pre(
                Prefix::Not,
                pre(Prefix::Minus, pre(Prefix::Plus, name("c")))
            )),
            Statement::Expression(bin(
                Infix::Minus,
                num(1),
                pre(Prefix::Minus, num(1))
            )),
        ]
    );
    assert!(errors.is_empty());
}

#[test]
fn missing_assign_gives_one_diagnostic() {
    let (program, errors) = parse_all("let x 5;");
    assert_eq!(
        errors,
        vec![String::from("next token: want=ASSIGN, got=INT(5)")]
    );
    // The `let` is dropped; parsing goes on after the name, where `5;` is a
    // statement of its own.
    assert_eq!(program, vec![Statement::Expression(num(5))]);
}

#[test]
fn missing_assign_names_the_token_found() {
    let (_, errors) = parse_all("let x y;");
    assert_eq!(
        errors,
        vec![String::from("next token: want=ASSIGN, got=IDENT(\"y\")")]
    );
    let (program, errors) = parse_all("let x");
    assert_eq!(
        errors,
        vec![String::from("next token: want=ASSIGN, got=EOF")]
    );
    assert!(program.is_empty());
    // Parsing goes on at the semicolon, which starts no expression.
    let (program, errors) = parse_all("let x;");
    assert_eq!(
        errors,
        vec![
            String::from("next token: want=ASSIGN, got=SEMICOLON"),
            String::from("no prefix parser function for SEMICOLON found"),
        ]
    );
    assert!(program.is_empty());
}

#[test]
fn let_without_name_gives_no_diagnostic() {
    let (program, errors) = parse_all("let 5;");
    assert!(errors.is_empty());
    assert_eq!(program, vec![Statement::Expression(num(5))]);
    let (program, errors) = parse_all("let");
    assert!(errors.is_empty());
    assert!(program.is_empty());
}

#[test]
fn let_holds_the_expression_after_assign() {
    let (program, errors) = parse_all("let x = 5;\nlet y = 10;\nlet z = x + y * 2;");
    assert_eq!(
        program,
        vec![
            Statement::Let(Identifier(String::from("x")), num(5)),
            Statement::Let(Identifier(String::from("y")), num(10)),
            Statement::Let(
                Identifier(String::from("z")),
                bin(
                    Infix::Plus,
                    name("x"),
                    bin(Infix::Multiply, name("y"), num(2))
                )
            ),
        ]
    );
    assert!(errors.is_empty());
}

#[test]
fn return_holds_the_expression_after_it() {
    let (program, errors) = parse_all("return 5;\nreturn 10;\nreturn 993322;\nreturn -a * b;");
    assert_eq!(
        program,
        vec![
            Statement::Return(num(5)),
            Statement::Return(num(10)),
            Statement::Return(num(993322)),
            Statement::Return(bin(
                Infix::Multiply,
                pre(Prefix::Minus, name("a")),
                name("b")
            )),
        ]
    );
    assert!(errors.is_empty());
}

#[test]
fn semicolon_is_optional_at_the_end() {
    let (program, errors) = parse_all("a + b");
    assert_eq!(
        program,
        vec![Statement::Expression(bin(
            Infix::Plus,
            name("a"),
            name("b")
        ))]
    );
    assert!(errors.is_empty());
    let (program, errors) = parse_all("let x = 5");
    assert_eq!(
        program,
        vec![Statement::Let(Identifier(String::from("x")), num(5))]
    );
    assert!(errors.is_empty());
    let (program, errors) = parse_all("return 7");
    assert_eq!(program, vec![Statement::Return(num(7))]);
    assert!(errors.is_empty());
}

#[test]
fn statements_without_semicolons_follow_one_another() {
    let (program, errors) = parse_all("a b");
    assert_eq!(
        program,
        vec![
            Statement::Expression(name("a")),
            Statement::Expression(name("b"))
        ]
    );
    assert!(errors.is_empty());
}

#[test]
fn token_without_prefix_rule_gives_a_diagnostic() {
    let (program, errors) = parse_all(";");
    assert!(program.is_empty());
    assert_eq!(
        errors,
        vec![String::from("no prefix parser function for SEMICOLON found")]
    );
    let (program, errors) = parse_all("true;");
    assert!(program.is_empty());
    assert_eq!(
        errors,
        vec![
            String::from("no prefix parser function for BOOL(true) found"),
            String::from("no prefix parser function for SEMICOLON found"),
        ]
    );
}

#[test]
fn missing_operand_drops_the_statement() {
    let (program, errors) = parse_all("5 + ;");
    assert!(program.is_empty());
    assert_eq!(
        errors,
        vec![String::from("no prefix parser function for SEMICOLON found")]
    );
    let (program, errors) = parse_all("return ;");
    assert!(program.is_empty());
    assert_eq!(
        errors,
        vec![String::from("no prefix parser function for SEMICOLON found")]
    );
    let (program, errors) = parse_all("let x = ;");
    assert!(program.is_empty());
    assert_eq!(
        errors,
        vec![String::from("no prefix parser function for SEMICOLON found")]
    );
    let (program, errors) = parse_all("-");
    assert!(program.is_empty());
    assert_eq!(
        errors,
        vec![String::from("no prefix parser function for EOF found")]
    );
}

#[test]
fn operator_after_a_failed_operand_does_not_crash() {
    let (program, errors) = parse_all("5 + * + 3;");
    assert_eq!(
        errors,
        vec![String::from("no prefix parser function for ASTERISK found")]
    );
    assert_eq!(program, vec![Statement::Expression(pre(Prefix::Plus, num(3)))]);
}

#[test]
fn parsing_goes_on_after_a_failed_statement() {
    let (program, errors) = parse_all("let x 5; let y = 2; ) return 1;");
    assert_eq!(
        program,
        vec![
            Statement::Expression(num(5)),
            Statement::Let(Identifier(String::from("y")), num(2)),
            Statement::Return(num(1)),
        ]
    );
    assert_eq!(
        errors,
        vec![
            String::from("next token: want=ASSIGN, got=INT(5)"),
            String::from("no prefix parser function for RPAREN found"),
        ]
    );
}

#[test]
fn token_that_is_no_operator_ends_the_expression() {
    let (program, errors) = parse_all("a (");
    assert_eq!(program, vec![Statement::Expression(name("a"))]);
    assert_eq!(
        errors,
        vec![String::from("no prefix parser function for LPAREN found")]
    );
    let (program, errors) = parse_all("a ) b");
    assert_eq!(
        program,
        vec![
            Statement::Expression(name("a")),
            Statement::Expression(name("b"))
        ]
    );
    assert_eq!(
        errors,
        vec![String::from("no prefix parser function for RPAREN found")]
    );
}

#[test]
fn unrecognized_characters_alone_end_with_diagnostics() {
    let (program, errors) = parse_all("@@@");
    assert!(program.is_empty());
    assert_eq!(
        errors,
        vec![
            String::from("no prefix parser function for ILLEGAL found"),
            String::from("no prefix parser function for ILLEGAL found"),
            String::from("no prefix parser function for ILLEGAL found"),
        ]
    );
    let (program, errors) = parse_all("\u{e9}#\0~");
    assert!(program.is_empty());
    assert_eq!(errors.len(), 5);
}

#[test]
fn number_out_of_range_is_a_diagnostic() {
    let (program, errors) = parse_all("let x = 9223372036854775808;");
    assert!(program.is_empty());
    assert_eq!(
        errors,
        vec![
            String::from("no prefix parser function for ILLEGAL found"),
            String::from("no prefix parser function for SEMICOLON found"),
        ]
    );
}

#[test]
fn empty_input_is_an_empty_program() {
    let (program, errors) = parse_all("");
    assert!(program.is_empty());
    assert!(errors.is_empty());
    let (program, errors) = parse_all("  \n\t ");
    assert!(program.is_empty());
    assert!(errors.is_empty());
}

#[test]
fn well_formed_statements_all_parse() {
    let input = "let a = 1; return a + 2; a * -3; let b = !a == b; b; return -b; 1 < 2 != 3 > 4;";
    let (program, errors) = parse_all(input);
    assert_eq!(program.len(), 7);
    assert!(errors.is_empty());
    assert_eq!(input.matches(';').count(), 7);
}

#[test]
fn parsing_again_at_the_end_adds_nothing() {
    let mut parser = Parser::new(Lexer::new("a; ;"));
    let first = parser.parse();
    let second = parser.parse();
    assert_eq!(first, vec![Statement::Expression(name("a"))]);
    assert!(second.is_empty());
    assert_eq!(
        parser.get_errors(),
        vec![String::from("no prefix parser function for SEMICOLON found")]
    );
}

#[test]
fn parser_starts_where_the_lexer_stands() {
    let mut lexer = Lexer::new("let x = 5;");
    lexer.next_token();
    lexer.next_token();
    lexer.next_token();
    let mut parser = Parser::new(lexer);
    assert_eq!(parser.parse(), vec![Statement::Expression(num(5))]);
    assert!(parser.get_errors().is_empty());
}

#[test]
fn precedences_are_ordered() {
    let order = [
        Precedence::Lowest,
        Precedence::Equals,
        Precedence::LessGreater,
        Precedence::Sum,
        Precedence::Product,
        Precedence::Prefix,
        Precedence::Call,
    ];
    for (i, low) in order.iter().enumerate() {
        assert_eq!(low.level() as usize, i);
        for (j, high) in order.iter().enumerate() {
            assert_eq!(low < high, i < j);
            assert_eq!(low == high, i == j);
            assert_eq!(low >= high, i >= j);
        }
    }
}

#[test]
fn trees_compare_and_clone() {
    let tree = bin(
        Infix::Plus,
        pre(Prefix::Not, name("a")),
        bin(Infix::Multiply, num(2), name("b")),
    );
    assert_eq!(tree.clone(), tree);
    assert_ne!(
        tree,
        bin(
            Infix::Plus,
            pre(Prefix::Not, name("a")),
            bin(Infix::Multiply, num(2), name("c")),
        )
    );
    assert_ne!(name("a"), num(1));
    assert_ne!(
        bin(Infix::Plus, num(1), num(2)),
        bin(Infix::Minus, num(1), num(2))
    );
    let statement = Statement::Let(Identifier(String::from("x")), tree.clone());
    assert_eq!(statement.clone(), statement);
    assert_ne!(statement, Statement::Return(tree.clone()));
    assert_ne!(Statement::Return(tree.clone()), Statement::Expression(tree));
    assert_eq!(
        Identifier(String::from("x")).clone(),
        Identifier(String::from("x"))
    );
}

fn written(expression: &Expression, out: &mut Vec<Token>) {
    match expression {
        Expression::Identifier(Identifier(text)) => out.push(Token::IDENT(text.clone())),
        Expression::Literal(Literal::Int(value)) => out.push(Token::INT(*value)),
        Expression::Prefix(operator, operand) => {
            out.push(match operator {
                Prefix::Not => Token::BANG,
                Prefix::Plus => Token::PLUS,
                Prefix::Minus => Token::MINUS,
            });
            written(operand, out);
        }
        Expression::Infix(operator, left, right) => {
            written(left, out);
            out.push(match operator {
                Infix::Plus => Token::PLUS,
                Infix::Minus => Token::MINUS,
                Infix::Divide => Token::SLASH,
                Infix::Multiply => Token::ASTERISK,
                Infix::Eq => Token::EQ,
                Infix::NotEq => Token::NotEq,
                Infix::GT => Token::GT,
                Infix::LT => Token::LT,
                Infix::GTE | Infix::LTE => unreachable!(),
            });
            written(right, out);
        }
    }
}

fn strength(operator: &Infix) -> u8 {
    match operator {
        Infix::Eq | Infix::NotEq => 1,
        Infix::GTE | Infix::GT | Infix::LTE | Infix::LT => 2,
        Infix::Plus | Infix::Minus => 3,
        Infix::Divide | Infix::Multiply => 4,
    }
}

fn binding(expression: &Expression) -> u8 {
    match expression {
        Expression::Infix(operator, _, _) => strength(operator),
        _ => 7,
    }
}

fn grouped(expression: &Expression) -> bool {
    match expression {
        Expression::Identifier(_) | Expression::Literal(_) => true,
        Expression::Prefix(_, operand) => {
            !matches!(**operand, Expression::Infix(_, _, _)) && grouped(operand)
        }
        Expression::Infix(operator, left, right) => {
            binding(left) >= strength(operator)
                && binding(right) > strength(operator)
                && grouped(left)
                && grouped(right)
        }
    }
}

#[test]
fn expression_is_written_by_its_tokens_and_grouped() {
    let inputs = [
        "a",
        "-a * b",
        "a + b + c",
        "a + b * c - d / e",
        "!-a == b != c < d > e + f * -g",
        "1 * 2 + 3 * 4 == 5 - -6",
        "a < b < c == d + e + f * g * h",
    ];
    for input in inputs {
        let (program, errors) = parse_all(input);
        assert!(errors.is_empty());
        assert_eq!(program.len(), 1);
        let mut tokens = Vec::new();
        match &program[0] {
            Statement::Expression(expression) => {
                written(expression, &mut tokens);
                assert!(grouped(expression));
            }
            _ => panic!("an expression statement"),
        }
        let mut lexer = Lexer::new(input);
        for token in tokens {
            assert_eq!(lexer.next_token(), token);
        }
        assert_eq!(lexer.next_token(), Token::EOF);
    }
}

#[test]
fn no_more_statements_and_diagnostics_than_tokens() {
    let inputs = [
        "",
        ";",
        ";;;",
        "let",
        "let x",
        "let x =",
        "let x = 1",
        "a b c d",
        "- - -",
        "return return return",
        "let let let = = =",
        "5 + * + 3;",
        "(a)",
        "@ # $",
    ];
    for input in inputs {
        let mut count = 0;
        let mut lexer = Lexer::new(input);
        while lexer.next_token() != Token::EOF {
            count += 1;
        }
        let (program, errors) = parse_all(input);
        assert!(program.len() + errors.len() <= count);
    }
}

#[test]
fn statements_of_each_form_count_by_their_semicolons() {
    let statements = ["let a = 1;", "return a;", "a + 1;", "let b = -a * 2;", "return !b;", "b;"];
    let mut input = String::new();
    for (n, statement) in statements.iter().enumerate() {
        input.push_str(statement);
        input.push('\n');
        let (program, errors) = parse_all(&input);
        assert_eq!(program.len(), n + 1);
        assert!(errors.is_empty());
    }
}

#[test]
fn left_parenthesis_binds_nothing() {
    let (program, errors) = parse_all("a + b ( c");
    assert_eq!(
        program,
        vec![
            Statement::Expression(bin(Infix::Plus, name("a"), name("b"))),
            Statement::Expression(name("c")),
        ]
    );
    assert_eq!(
        errors,
        vec![String::from("no prefix parser function for LPAREN found")]
    );
    let (program, errors) = parse_all("-a ( * b;");
    assert_eq!(
        program,
        vec![
            Statement::Expression(pre(Prefix::Minus, name("a"))),
            Statement::Expression(name("b")),
        ]
    );
    assert_eq!(
        errors,
        vec![
            String::from("no prefix parser function for LPAREN found"),
            String::from("no prefix parser function for ASTERISK found"),
        ]
    );
    let (program, errors) = parse_all("let x = 1 (;");
    assert_eq!(
        program,
        vec![Statement::Let(Identifier(String::from("x")), num(1))]
    );
    assert_eq!(
        errors,
        vec![
            String::from("no prefix parser function for LPAREN found"),
            String::from("no prefix parser function for SEMICOLON found"),
        ]
    );
}
