use vader::lexer::VaderLexer;
use vader::parser::VaderParser;
use vader::{AstNode, LexError, ParseError, Token, TokenType, VaderValue};

fn number(value: f64) -> VaderValue {
    VaderValue::Number(value.to_bits())
}

fn lex(code: &str) -> Result<Vec<Token>, LexError> {
    let mut lexer = VaderLexer::new(code);
    let values: Vec<u64> = lexer
        .numerals()
        .iter()
        .map(|numeral| numeral.parse::<f64>().map(f64::to_bits).unwrap_or(0))
        .collect();
    lexer.tokenize(&values)
}

fn kinds(code: &str) -> Vec<TokenType> {
    lex(code).unwrap().into_iter().map(|token| token.token_type).collect()
}

fn name(word: &str) -> TokenType {
    TokenType::Identifier(word.to_string())
}

fn keyword(word: &str) -> TokenType {
    TokenType::Keyword(word.to_string())
}

fn parse(code: &str) -> Result<Vec<AstNode>, ParseError> {
    let mut parser = VaderParser::new(lex(code).unwrap());
    parser.parse()
}

fn variable(word: &str) -> AstNode {
    AstNode::Variable { name: word.to_string() }
}

fn literal(value: f64) -> AstNode {
    AstNode::Literal { value: number(value) }
}

fn binary(left: AstNode, operator: &str, right: AstNode) -> AstNode {
    AstNode::BinaryOp { left: Box::new(left), operator: operator.to_string(), right: Box::new(right) }
}

#[test]
fn test_tokenize_simple() {
    let tokens = lex("decir \"Hola mundo\"").unwrap();

    assert_eq!(tokens.len(), 3);
    assert!(matches!(tokens[0].token_type, TokenType::Keyword(_)));
    assert!(matches!(tokens[1].token_type, TokenType::String(_)));
    assert!(matches!(tokens[2].token_type, TokenType::Eof));
}

#[test]
fn test_tokenize_numbers() {
    let tokens = lex("42 3.14").unwrap();

    assert_eq!(tokens.len(), 3);
    assert!(matches!(tokens[0].token_type, TokenType::Number(bits) if bits == 42.0f64.to_bits()));
    assert!(matches!(tokens[1].token_type, TokenType::Number(bits) if bits == 3.14f64.to_bits()));
}

#[test]
fn test_tokenize_operators() {
    let tokens = lex("+ - * / == +=").unwrap();

    assert_eq!(tokens.len(), 7);
    assert!(matches!(tokens[0].token_type, TokenType::Plus));
    assert!(matches!(tokens[1].token_type, TokenType::Minus));
    assert!(matches!(tokens[2].token_type, TokenType::Multiply));
    assert!(matches!(tokens[3].token_type, TokenType::Divide));
    assert!(matches!(tokens[4].token_type, TokenType::Equal));
    assert!(matches!(tokens[5].token_type, TokenType::PlusAssign));
}

#[test]
fn test_parse_simple_expression() {
    let tokens = lex("2 + 3").unwrap();
    let mut parser = VaderParser::new(tokens);
    let ast = parser.parse().unwrap();

    assert_eq!(ast.len(), 1);
}

#[test]
fn every_token_kind_of_punctuation_is_read() {
    assert_eq!(
        kinds("+ += - -= -> * / % = == < <= > >= ! != , ; : . ( ) [ ] { }"),
        vec![
            TokenType::Plus,
            TokenType::PlusAssign,
            TokenType::Minus,
            TokenType::MinusAssign,
            TokenType::Arrow,
            TokenType::Multiply,
            TokenType::Divide,
            TokenType::Modulo,
            TokenType::Assign,
            TokenType::Equal,
            TokenType::Less,
            TokenType::LessEqual,
            TokenType::Greater,
            TokenType::GreaterEqual,
            TokenType::Bang,
            TokenType::NotEqual,
            TokenType::Comma,
            TokenType::Semicolon,
            TokenType::Colon,
            TokenType::Dot,
            TokenType::LeftParen,
            TokenType::RightParen,
            TokenType::LeftBracket,
            TokenType::RightBracket,
            TokenType::LeftBrace,
            TokenType::RightBrace,
            TokenType::Eof,
        ]
    );
}

#[test]
fn keywords_of_both_languages_are_read() {
    for word in [
        "si", "sino", "mientras", "para", "en", "funcion", "clase", "retornar", "decir", "nulo",
        "if", "else", "while", "for", "in", "function", "class", "return", "print", "null",
    ] {
        assert_eq!(kinds(word), vec![keyword(word), TokenType::Eof], "{}", word);
    }
    assert_eq!(kinds("verdadero true"), vec![
        TokenType::Boolean(true),
        TokenType::Boolean(true),
        TokenType::Eof
    ]);
    assert_eq!(kinds("falso false"), vec![
        TokenType::Boolean(false),
        TokenType::Boolean(false),
        TokenType::Eof
    ]);
    assert_eq!(kinds("no not and or"), vec![
        TokenType::Not,
        TokenType::Not,
        TokenType::And,
        TokenType::Or,
        TokenType::Eof
    ]);
    assert_eq!(kinds("sinos _x x1 Si"), vec![
        name("sinos"),
        name("_x"),
        name("x1"),
        name("Si"),
        TokenType::Eof
    ]);
}

#[test]
fn y_and_o_are_names_before_an_assignment() {
    assert_eq!(kinds("y = 3")[0], name("y"));
    assert_eq!(kinds("o=3")[0], name("o"));
    assert_eq!(kinds("(a) y = 3")[3], name("y"));
    assert_eq!(kinds(") o \t == 3")[1], name("o"));
}

#[test]
fn y_and_o_are_operators_after_a_closing_parenthesis() {
    assert_eq!(kinds("(a)y b")[3], TokenType::And);
    assert_eq!(kinds("(a)o b")[3], TokenType::Or);
    assert_eq!(kinds("(a) y b")[3], TokenType::And);
    assert_eq!(kinds("(a)  o b")[3], TokenType::Or);
    assert_eq!(kinds("(a)y")[3], TokenType::And);
}

#[test]
fn y_and_o_are_operators_between_spaces_before_an_opening_parenthesis() {
    assert_eq!(kinds("a y (b)")[1], TokenType::And);
    assert_eq!(kinds("a o   (b)")[1], TokenType::Or);
    assert_eq!(kinds("a y(b)")[1], name("y"));
    assert_eq!(kinds("a\ty (b)")[1], name("y"));
}

#[test]
fn y_and_o_are_names_elsewhere() {
    assert_eq!(kinds("a y b")[1], name("y"));
    assert_eq!(kinds("y")[0], name("y"));
    assert_eq!(kinds("o + 1")[0], name("o"));
    assert_eq!(kinds("(x > y)")[3], name("y"));
    assert_eq!(kinds("a    y b")[1], name("y"));
    assert_eq!(kinds("yo oy")[0], name("yo"));
}

#[test]
fn the_contextual_rule_reads_a_comparison_joined_by_y() {
    assert_eq!(
        kinds("(x > y) y (x != y)"),
        vec![
            TokenType::LeftParen,
            name("x"),
            TokenType::Greater,
            name("y"),
            TokenType::RightParen,
            TokenType::And,
            TokenType::LeftParen,
            name("x"),
            TokenType::NotEqual,
            name("y"),
            TokenType::RightParen,
            TokenType::Eof,
        ]
    );
}

#[test]
fn tokens_carry_their_text_and_their_place() {
    let tokens = lex("x = 10\n  decir \"a\\n\"").unwrap();
    let places: Vec<(String, usize, usize)> =
        tokens.iter().map(|t| (t.lexeme.clone(), t.line, t.column)).collect();
    assert_eq!(
        places,
        vec![
            ("x".to_string(), 1, 1),
            ("=".to_string(), 1, 3),
            ("10".to_string(), 1, 5),
            ("\n".to_string(), 1, 7),
            ("decir".to_string(), 2, 3),
            ("\"a\\n\"".to_string(), 2, 9),
            ("".to_string(), 2, 14),
        ]
    );
    assert_eq!(tokens[5].token_type, TokenType::String("a\n".to_string()));
    assert_eq!(tokens[3].token_type, TokenType::Newline);
    assert_eq!(tokens[4].describe(), "decir at 2:3");
}

#[test]
fn escapes_are_resolved() {
    assert_eq!(
        kinds(r#""a\tb\r\\\"\q""#)[0],
        TokenType::String("a\tb\r\\\"q".to_string())
    );
    assert_eq!(kinds("\"\"")[0], TokenType::String(String::new()));
    assert_eq!(kinds("\"día ñ\"")[0], TokenType::String("día ñ".to_string()));
}

#[test]
fn comments_are_left_out() {
    assert_eq!(kinds("1 // uno\n2"), vec![
        TokenType::Number(1.0f64.to_bits()),
        TokenType::Newline,
        TokenType::Number(2.0f64.to_bits()),
        TokenType::Eof,
    ]);
    assert_eq!(kinds("// solo"), vec![TokenType::Eof]);
    let mut lexer = VaderLexer::new("//  hola  \nx");
    let token = lexer.next_token(None).unwrap().unwrap();
    assert_eq!(token.token_type, TokenType::Comment("hola".to_string()));
    assert_eq!(token.lexeme, "//  hola  ");
}

#[test]
fn white_space_is_passed_over() {
    assert_eq!(kinds(" \t\r x \u{a0}\u{3000} "), vec![name("x"), TokenType::Eof]);
    assert_eq!(kinds(""), vec![TokenType::Eof]);
    assert_eq!(kinds("\n\n"), vec![TokenType::Newline, TokenType::Newline, TokenType::Eof]);
}

#[test]
fn the_last_token_is_always_eof() {
    for code in ["", "x", "x = 1\n", "si a:\n  b\n", "// c"] {
        let tokens = lex(code).unwrap();
        assert_eq!(tokens.last().unwrap().token_type, TokenType::Eof);
        let before = &tokens[..tokens.len() - 1];
        assert!(before.iter().all(|token| token.token_type != TokenType::Eof));
        assert!(tokens.iter().all(|token| token.line >= 1 && token.column >= 1));
    }
}

#[test]
fn each_lexical_error_has_an_input() {
    assert_eq!(lex("x = @"), Err(LexError::UnexpectedChar('@', 4)));
    assert_eq!(lex("ñ"), Err(LexError::UnexpectedChar('ñ', 0)));
    assert_eq!(lex("\"abc"), Err(LexError::UnterminatedString(4)));
    assert_eq!(lex("x \"a\\"), Err(LexError::UnterminatedString(5)));
    assert_eq!(lex("1.2.3"), Err(LexError::InvalidNumber("1.2.3".to_string())));
    assert_eq!(lex("1..2"), Err(LexError::InvalidNumber("1..2".to_string())));
    let mut lexer = VaderLexer::new("1 2");
    assert_eq!(
        lexer.tokenize(&vec![1.0f64.to_bits()]),
        Err(LexError::InvalidNumber("2".to_string()))
    );
}

#[test]
fn lexical_errors_have_their_diagnostics() {
    assert_eq!(
        LexError::UnexpectedChar('@', 4).message(),
        "Carácter inesperado: '@' en posición 4"
    );
    assert_eq!(LexError::UnterminatedString(12).message(), "String sin cerrar en posición 12");
    assert_eq!(LexError::InvalidNumber("1.2.3".to_string()).message(), "Número inválido: '1.2.3'");
    assert_eq!(
        LexError::UnterminatedComment(0).message(),
        "Comentario sin cerrar en posición 0"
    );
}

#[test]
fn numerals_are_listed_in_their_order() {
    let lexer = VaderLexer::new("x = 1.5 + 20 // 3\n\"4\" 5.");
    assert_eq!(lexer.numerals(), vec!["1.5", "20", "5."]);
    let lexer = VaderLexer::new("1 @ 2");
    assert_eq!(lexer.numerals(), vec!["1"]);
    assert_eq!(kinds("5. 007")[0], TokenType::Number(5.0f64.to_bits()));
    assert_eq!(kinds("5. 007")[1], TokenType::Number(7.0f64.to_bits()));
}

#[test]
fn the_lexer_reads_piece_by_piece() {
    let mut lexer = VaderLexer::new("  abc \"x\" // c\n9");
    lexer.skip_whitespace();
    assert_eq!(lexer.peek_next_non_space(), Some('a'));
    assert_eq!(lexer.read_identifier(), "abc");
    assert_eq!(lexer.peek_next_non_space(), Some('"'));
    lexer.skip_whitespace();
    assert_eq!(lexer.read_string(), Ok("x".to_string()));
    lexer.skip_whitespace();
    lexer.advance();
    assert_eq!(lexer.read_comment(), "c");
    lexer.advance();
    assert_eq!(lexer.read_number(Some(7)), Ok(7));
    assert_eq!(lexer.peek_next_non_space(), None);
    assert_eq!(lexer.next_token(None), Ok(None));
}

#[test]
fn operators_bind_by_their_precedence() {
    assert_eq!(
        parse("1 + 2 * 3").unwrap(),
        vec![binary(literal(1.0), "+", binary(literal(2.0), "*", literal(3.0)))]
    );
    assert_eq!(
        parse("1 - 2 - 3").unwrap(),
        vec![binary(binary(literal(1.0), "-", literal(2.0)), "-", literal(3.0))]
    );
    assert_eq!(
        parse("a or b and c == d < e + f % g").unwrap(),
        vec![binary(
            variable("a"),
            "o",
            binary(
                variable("b"),
                "y",
                binary(
                    variable("c"),
                    "==",
                    binary(
                        variable("d"),
                        "<",
                        binary(variable("e"), "+", binary(variable("f"), "%", variable("g")))
                    )
                )
            )
        )]
    );
    assert_eq!(
        parse("(1 + 2) * 3").unwrap(),
        vec![binary(binary(literal(1.0), "+", literal(2.0)), "*", literal(3.0))]
    );
    assert_eq!(
        parse("no -a").unwrap(),
        vec![AstNode::UnaryOp {
            operator: "not".to_string(),
            operand: Box::new(AstNode::UnaryOp {
                operator: "-".to_string(),
                operand: Box::new(variable("a"))
            })
        }]
    );
    assert_eq!(
        parse("a >= b != c <= d").unwrap(),
        vec![binary(
            binary(variable("a"), ">=", variable("b")),
            "!=",
            binary(variable("c"), "<=", variable("d"))
        )]
    );
}

#[test]
fn statements_are_read() {
    assert_eq!(
        parse("x = 1\n\n\ndecir x").unwrap(),
        vec![
            AstNode::Assignment { name: "x".to_string(), value: Box::new(literal(1.0)) },
            AstNode::FunctionCall { name: "decir".to_string(), args: vec![variable("x")] },
        ]
    );
    assert_eq!(
        parse("print x").unwrap(),
        vec![AstNode::FunctionCall { name: "print".to_string(), args: vec![variable("x")] }]
    );
    assert_eq!(
        parse("si a:\n  1\nsino:\n  2").unwrap(),
        vec![AstNode::If {
            condition: Box::new(variable("a")),
            then_branch: vec![literal(1.0)],
            else_branch: Some(vec![literal(2.0)]),
        }]
    );
    assert_eq!(
        parse("if a 1 else 2").unwrap(),
        vec![AstNode::If {
            condition: Box::new(variable("a")),
            then_branch: vec![literal(1.0)],
            else_branch: Some(vec![literal(2.0)]),
        }]
    );
    assert_eq!(
        parse("mientras a:\n  b = 1\n  c = 2\nd").unwrap(),
        vec![
            AstNode::While {
                condition: Box::new(variable("a")),
                body: vec![
                    AstNode::Assignment { name: "b".to_string(), value: Box::new(literal(1.0)) },
                    AstNode::Assignment { name: "c".to_string(), value: Box::new(literal(2.0)) },
                ],
            },
            variable("d"),
        ]
    );
    assert_eq!(
        parse("para i en xs:\n  decir i\nfin").unwrap(),
        vec![
            AstNode::For {
                variable: "i".to_string(),
                iterable: Box::new(variable("xs")),
                body: vec![AstNode::FunctionCall {
                    name: "decir".to_string(),
                    args: vec![variable("i")]
                }],
            },
            variable("fin"),
        ]
    );
    assert_eq!(
        parse("funcion f():\n  retornar\nfunction g(a, b) return a").unwrap(),
        vec![
            AstNode::FunctionDef {
                name: "f".to_string(),
                params: vec![],
                body: vec![AstNode::Return { value: None }],
            },
            AstNode::FunctionDef {
                name: "g".to_string(),
                params: vec!["a".to_string(), "b".to_string()],
                body: vec![AstNode::Return { value: Some(Box::new(variable("a"))) }],
            },
        ]
    );
    assert_eq!(parse("nulo").unwrap(), vec![AstNode::Literal { value: VaderValue::Null }]);
    assert_eq!(
        parse("\"s\"\nverdadero").unwrap(),
        vec![
            AstNode::Literal { value: VaderValue::String("s".to_string()) },
            AstNode::Literal { value: VaderValue::Boolean(true) },
        ]
    );
}

#[test]
fn a_block_ends_at_a_name_that_starts_no_assignment() {
    assert_eq!(
        parse("si a:\n  b\nc").unwrap(),
        vec![
            AstNode::If {
                condition: Box::new(variable("a")),
                then_branch: vec![variable("b")],
                else_branch: None,
            },
            variable("c"),
        ]
    );
    assert_eq!(
        parse("si a:\n  1\nc = 2\nf(3)").unwrap(),
        vec![
            AstNode::If {
                condition: Box::new(variable("a")),
                then_branch: vec![
                    literal(1.0),
                    AstNode::Assignment { name: "c".to_string(), value: Box::new(literal(2.0)) },
                ],
                else_branch: None,
            },
            AstNode::FunctionCall { name: "f".to_string(), args: vec![literal(3.0)] },
        ]
    );
    assert_eq!(
        parse("mientras a:\nsino").unwrap_err(),
        ParseError::UnexpectedToken(Token {
            token_type: keyword("sino"),
            lexeme: "sino".to_string(),
            line: 2,
            column: 1
        })
    );
}

#[test]
fn calls_lists_indexes_and_members_are_read() {
    assert_eq!(
        parse("f()").unwrap(),
        vec![AstNode::FunctionCall { name: "f".to_string(), args: vec![] }]
    );
    assert_eq!(
        parse("f(1, g(2))").unwrap(),
        vec![AstNode::FunctionCall {
            name: "f".to_string(),
            args: vec![
                literal(1.0),
                AstNode::FunctionCall { name: "g".to_string(), args: vec![literal(2.0)] }
            ]
        }]
    );
    assert_eq!(
        parse("[]\n[1, [2]]").unwrap(),
        vec![
            AstNode::List { elements: vec![] },
            AstNode::List {
                elements: vec![literal(1.0), AstNode::List { elements: vec![literal(2.0)] }]
            },
        ]
    );
    assert_eq!(
        parse("a[1].b[c]").unwrap(),
        vec![AstNode::Index {
            object: Box::new(AstNode::MemberAccess {
                object: Box::new(AstNode::Index {
                    object: Box::new(variable("a")),
                    index: Box::new(literal(1.0))
                }),
                member: "b".to_string()
            }),
            index: Box::new(variable("c"))
        }]
    );
}

#[test]
fn each_parse_error_has_an_input() {
    assert_eq!(parse("1 +").unwrap_err(), ParseError::UnexpectedEof);
    assert_eq!(parse("(1").unwrap_err(), ParseError::UnexpectedEof);
    assert_eq!(parse("f(1,").unwrap_err(), ParseError::UnexpectedEof);
    assert_eq!(parse("funcion").unwrap_err(), ParseError::UnexpectedEof);
    assert_eq!(
        parse("1 + )").unwrap_err(),
        ParseError::UnexpectedToken(Token {
            token_type: TokenType::RightParen,
            lexeme: ")".to_string(),
            line: 1,
            column: 5
        })
    );
    assert_eq!(
        parse("para 1 en x: y").unwrap_err(),
        ParseError::UnexpectedToken(Token {
            token_type: TokenType::Number(1.0f64.to_bits()),
            lexeme: "1".to_string(),
            line: 1,
            column: 6
        })
    );
    assert!(matches!(parse("para i x: y").unwrap_err(), ParseError::UnexpectedToken(_)));
    assert!(matches!(parse("funcion f(a b): 1").unwrap_err(), ParseError::UnexpectedToken(_)));
    assert!(matches!(parse("funcion f(1): 1").unwrap_err(), ParseError::UnexpectedToken(_)));
    assert!(matches!(parse("funcion f a").unwrap_err(), ParseError::UnexpectedToken(_)));
    assert!(matches!(parse("a.1").unwrap_err(), ParseError::UnexpectedToken(_)));
    assert!(matches!(parse("a[1").unwrap_err(), ParseError::UnexpectedEof));
    assert!(matches!(parse("[1 2]").unwrap_err(), ParseError::UnexpectedToken(_)));
    assert!(matches!(parse("clase").unwrap_err(), ParseError::UnexpectedToken(_)));
    assert!(matches!(parse("{").unwrap_err(), ParseError::UnexpectedToken(_)));
    assert!(matches!(parse("1 ** 2").unwrap_err(), ParseError::UnexpectedToken(_)));
}

#[test]
fn parse_errors_have_their_diagnostics() {
    assert_eq!(parse("1 +").unwrap_err().message(), "Fin de archivo inesperado");
    assert_eq!(parse("1 + )").unwrap_err().message(), "Token inesperado: ) at 1:5");
    assert_eq!(ParseError::InvalidExpression.message(), "Expresión inválida");
    assert_eq!(
        ParseError::from_lex(LexError::UnterminatedString(3)).message(),
        "Error de lexer: String sin cerrar en posición 3"
    );
}

#[test]
fn the_same_tokens_have_the_same_tree() {
    let code = "funcion f(a):\n  si a > 1:\n    retornar a * f(a - 1)\n  retornar 1\nf(5)";
    assert_eq!(parse(code).unwrap(), parse(code).unwrap());
}

#[test]
fn the_parser_reads_piece_by_piece() {
    let mut parser = VaderParser::new(lex("sino\n\nx = 1").unwrap());
    assert!(!parser.is_at_end());
    assert!(parser.is_block_terminator());
    assert_eq!(parser.peek_token_type(1), Some(TokenType::Newline));
    assert_eq!(parser.peek_token_type(9), None);
    assert!(!parser.match_keyword("si"));
    assert!(parser.match_keyword("sino"));
    parser.skip_newlines();
    assert_eq!(parser.current_token().lexeme, "x");
    assert!(!parser.is_block_terminator());
    assert!(!parser.match_token_type(&TokenType::Assign));
    parser.advance();
    assert!(parser.expect_token_type(&TokenType::Plus).is_err());
    assert!(parser.expect_token_type(&TokenType::Assign).is_ok());
    assert_eq!(parser.parse_expression().unwrap(), literal(1.0));
    assert!(parser.is_at_end());
    parser.advance();
    assert_eq!(parser.current_token().token_type, TokenType::Eof);
    assert_eq!(parser.parse_block().unwrap(), vec![]);
}

#[test]
fn advance_moves_on_at_the_end_of_the_source() {
    let mut lexer = VaderLexer::new("a\nb");
    assert_eq!((lexer.position(), lexer.line(), lexer.column()), (0, 1, 1));
    lexer.advance();
    assert_eq!((lexer.position(), lexer.line(), lexer.column()), (1, 1, 2));
    lexer.advance();
    assert_eq!((lexer.position(), lexer.line(), lexer.column()), (2, 2, 1));
    lexer.advance();
    assert_eq!((lexer.position(), lexer.line(), lexer.column()), (3, 2, 2));
    lexer.advance();
    assert_eq!((lexer.position(), lexer.line(), lexer.column()), (4, 2, 3));
    lexer.advance();
    assert_eq!((lexer.position(), lexer.line(), lexer.column()), (5, 2, 4));
    assert_eq!(lexer.peek_next_non_space(), None);
    assert_eq!(lexer.read_identifier(), "");
    assert_eq!(lexer.read_number(Some(1)), Ok(1));
    assert_eq!(lexer.read_comment(), "");
    assert_eq!(lexer.position(), 6);
    assert_eq!(lexer.read_string(), Err(LexError::UnterminatedString(7)));
    assert_eq!(lexer.next_token(None), Ok(None));
    let tokens = lexer.tokenize(&vec![]).unwrap();
    assert_eq!(
        tokens,
        vec![Token { token_type: TokenType::Eof, lexeme: String::new(), line: 2, column: 6 }]
    );
    let mut empty = VaderLexer::new("");
    assert_eq!(empty.read_string(), Err(LexError::UnterminatedString(1)));
}

#[test]
fn tokens_are_matched_by_their_kind_alone() {
    let mut parser = VaderParser::new(lex("nombre 12 \"s\"").unwrap());
    assert!(!parser.match_token_type(&TokenType::Number(0)));
    assert!(parser.match_token_type(&TokenType::Identifier("otro".to_string())));
    assert!(parser.expect_token_type(&TokenType::String(String::new())).is_err());
    assert!(parser.expect_token_type(&TokenType::Number(7)).is_ok());
    assert!(parser.match_token_type(&TokenType::String("x".to_string())));
    assert!(parser.is_at_end());
    assert!(parser.match_token_type(&TokenType::Eof));
    assert!(parser.expect_token_type(&TokenType::Eof).is_ok());
    assert!(parser.is_at_end());
    assert_eq!(parser.expect_token_type(&TokenType::Plus), Err(ParseError::UnexpectedEof));
    assert!(TokenType::Keyword("si".to_string()).is_kind(&TokenType::Keyword("if".to_string())));
    assert!(!TokenType::Plus.is_kind(&TokenType::Minus));
    assert_eq!(TokenType::Number(3).index(), 0);
    assert_eq!(TokenType::Comment(String::new()).index(), 39);
}

#[test]
fn a_source_fails_on_its_first_offence() {
    assert_eq!(lex("a @ \"b"), Err(LexError::UnexpectedChar('@', 2)));
    assert_eq!(lex("a \"b @"), Err(LexError::UnterminatedString(6)));
    assert_eq!(lex("1.2.3 @"), Err(LexError::InvalidNumber("1.2.3".to_string())));
    assert_eq!(lex("// @ \"\n#"), Err(LexError::UnexpectedChar('#', 7)));
    assert!(lex("// @ \" 1.2.3\nx = \"@\"").is_ok());
}
