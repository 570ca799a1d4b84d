use se_lang::ast::{ASTNode, VariableType};
use se_lang::grammar::ParseErrorKind;
use se_lang::lexer::Lexer;
use se_lang::parser::{fold_constant, ParseError, Parser};

fn parse_text(input: &str) -> Result<ASTNode, ParseError> {
    let lexer = Lexer::new(input, "");
    let mut parser = Parser::new(lexer);
    parser.parse()
}

fn blocks(input: &str) -> Vec<ASTNode> {
    match parse_text(input) {
        Ok(ASTNode::Root(blocks)) => blocks,
        other => panic!("no root: {:?}", other),
    }
}

fn failure(input: &str) -> ParseErrorKind {
    parse_text(input).unwrap_err().kind
}

fn const_value(expression: &str) -> Result<ASTNode, ParseError> {
    let input = format!("$consts {{ u128 c = {}; }}", expression);
    match parse_text(&input)? {
        ASTNode::Root(mut blocks) => match blocks.remove(0) {
            ASTNode::Consts(mut list) => match list.remove(0) {
                ASTNode::ConstDeclaration { value, .. } => Ok(*value),
                other => panic!("no declaration: {:?}", other),
            },
            other => panic!("no consts: {:?}", other),
        },
        other => panic!("no root: {:?}", other),
    }
}

fn number(text: &str) -> ASTNode {
    ASTNode::Number(text.to_string())
}

#[test]
fn test_define_parsing() {
    let input = r#"
        $define {
          version = "^0.1.0"
          schemes = [
            {
              preset = "token@0.1.0"
              params = {
                decimals = 12
                total_supply = 10e12 * 5
                name = ["coolium", "COOL"]
              }
            }
          ]
        }

        $state {
            address creator;
        }

        $consts {
            u128 constant = 10;
        }
        "#;

    let lexer = Lexer::new(input, "");
    let mut parser = Parser::new(lexer);
    let ast = parser.parse();
    println!("{:#?}", ast);

    let expected = ASTNode::Root(vec![
        ASTNode::Define {
            version: Some("^0.1.0".to_string()),
            schemes: vec![ASTNode::Schemes(vec![ASTNode::Scheme {
                preset: "token@0.1.0".to_string(),
                params: vec![
                    ("decimals".to_string(), number("12")),
                    ("total_supply".to_string(), number("50000000000000")),
                    (
                        "name".to_string(),
                        ASTNode::Array(vec![
                            ASTNode::StringLiteral("coolium".to_string()),
                            ASTNode::StringLiteral("COOL".to_string()),
                        ]),
                    ),
                ],
            }])],
        },
        ASTNode::State(vec![ASTNode::StateVariableDeclaration {
            name: "creator".to_string(),
            var_type: VariableType::Address,
        }]),
        ASTNode::Consts(vec![ASTNode::ConstDeclaration {
            name: "constant".to_string(),
            var_type: VariableType::U128,
            value: Box::new(number("10")),
        }]),
    ]);
    assert_eq!(ast, Ok(expected));
}

#[test]
fn state_block_yields_one_declaration() {
    assert_eq!(
        blocks("$state { address creator; }"),
        vec![ASTNode::State(vec![ASTNode::StateVariableDeclaration {
            name: "creator".to_string(),
            var_type: VariableType::Address,
        }])]
    );
}

#[test]
fn consts_block_yields_one_declaration() {
    assert_eq!(
        blocks("$consts { u128 constant = 10; }"),
        vec![ASTNode::Consts(vec![ASTNode::ConstDeclaration {
            name: "constant".to_string(),
            var_type: VariableType::U128,
            value: Box::new(number("10")),
        }])]
    );
}

#[test]
fn folding_expands_exponent_then_multiplies() {
    assert_eq!(const_value("10e12 * 5"), Ok(number("50000000000000")));
    assert_eq!(const_value("1e12 * 5"), Ok(number("5000000000000")));
}

#[test]
fn folding_goes_left_to_right() {
    assert_eq!(const_value("10 - 3 * 2"), Ok(number("14")));
    assert_eq!(const_value("0 ^ 4294967296"), Ok(number("0")));
    assert_eq!(const_value("2 + 3 * 4 ^ 2 % 7 / 2"), Ok(number("0")));
    assert_eq!(const_value("2 + 3 * 4 ^ 2"), Ok(number("400")));
}

#[test]
fn fold_constant_exact_values() {
    assert_eq!(fold_constant("7", "+", "8"), Ok("15".to_string()));
    assert_eq!(fold_constant("7", "-", "7"), Ok("0".to_string()));
    assert_eq!(fold_constant("12", "*", "12"), Ok("144".to_string()));
    assert_eq!(fold_constant("17", "/", "5"), Ok("3".to_string()));
    assert_eq!(fold_constant("17", "%", "5"), Ok("2".to_string()));
    assert_eq!(fold_constant("2", "^", "10"), Ok("1024".to_string()));
    assert_eq!(fold_constant("0", "^", "0"), Ok("1".to_string()));
    assert_eq!(fold_constant("007", "+", "0"), Ok("7".to_string()));
    assert_eq!(
        fold_constant("340282366920938463463374607431768211454", "+", "1"),
        Ok("340282366920938463463374607431768211455".to_string())
    );
    assert_eq!(fold_constant("2", "^", "127"), Ok("170141183460469231731687303715884105728".to_string()));
}

#[test]
fn fold_constant_takes_the_exponent_in_full() {
    assert_eq!(fold_constant("0", "^", "4294967296"), Ok("0".to_string()));
    assert_eq!(fold_constant("0", "^", "340282366920938463463374607431768211455"), Ok("0".to_string()));
    assert_eq!(fold_constant("1", "^", "4294967295"), Ok("1".to_string()));
    assert_eq!(fold_constant("1", "^", "4294967296"), Ok("1".to_string()));
    assert_eq!(fold_constant("1", "^", "340282366920938463463374607431768211455"), Ok("1".to_string()));
    assert_eq!(fold_constant("2", "^", "4294967297"), Err(ParseErrorKind::Overflow));
    assert_eq!(fold_constant("5", "^", "4294967296"), Err(ParseErrorKind::Overflow));
    assert_eq!(fold_constant("7", "^", "1"), Ok("7".to_string()));
    assert_eq!(fold_constant("7", "^", "0"), Ok("1".to_string()));
}

#[test]
fn fold_constant_failures() {
    assert_eq!(fold_constant("1", "-", "2"), Err(ParseErrorKind::Overflow));
    assert_eq!(
        fold_constant("340282366920938463463374607431768211455", "+", "1"),
        Err(ParseErrorKind::Overflow)
    );
    assert_eq!(
        fold_constant("340282366920938463463374607431768211455", "*", "2"),
        Err(ParseErrorKind::Overflow)
    );
    assert_eq!(fold_constant("2", "^", "128"), Err(ParseErrorKind::Overflow));
    assert_eq!(fold_constant("1", "/", "0"), Err(ParseErrorKind::DivisionByZero));
    assert_eq!(fold_constant("1", "%", "0"), Err(ParseErrorKind::DivisionByZero));
    assert_eq!(fold_constant("1", "=", "1"), Err(ParseErrorKind::UnknownOperator));
    assert_eq!(fold_constant("1", "++", "1"), Err(ParseErrorKind::UnknownOperator));
    assert_eq!(fold_constant("1", "", "1"), Err(ParseErrorKind::UnknownOperator));
    assert_eq!(fold_constant("1.5", "+", "1"), Err(ParseErrorKind::InvalidNumber));
    assert_eq!(fold_constant("1", "+", ""), Err(ParseErrorKind::InvalidNumber));
    assert_eq!(fold_constant("+1", "+", "1"), Err(ParseErrorKind::InvalidNumber));
    assert_eq!(
        fold_constant("340282366920938463463374607431768211456", "+", "0"),
        Err(ParseErrorKind::InvalidNumber)
    );
    assert_eq!(fold_constant("x", "?", "1"), Err(ParseErrorKind::InvalidNumber));
}

#[test]
fn stray_tokens_between_blocks_are_skipped() {
    assert_eq!(blocks("foo 12 ; // note\n , bar"), vec![]);
    assert_eq!(
        blocks("x $state { } y $procedures { z } $consts { }"),
        vec![
            ASTNode::State(vec![]),
            ASTNode::Procedures(vec![]),
            ASTNode::Consts(vec![]),
        ]
    );
}

#[test]
fn empty_input_is_an_empty_root() {
    assert_eq!(parse_text(""), Ok(ASTNode::Root(vec![])));
    assert_eq!(parse_text("  \n\t "), Ok(ASTNode::Root(vec![])));
}

#[test]
fn parse_twice_yields_empty_root() {
    let mut parser = Parser::new(Lexer::new("$state { u8 a; }", ""));
    assert!(parser.parse().is_ok());
    assert_eq!(parser.parse(), Ok(ASTNode::Root(vec![])));
}

#[test]
fn define_takes_last_version_and_skips_other_tokens() {
    assert_eq!(
        blocks("$define { junk version = \"1\" , version = \"2\" }"),
        vec![ASTNode::Define { version: Some("2".to_string()), schemes: vec![] }]
    );
    assert_eq!(
        blocks("$define { schemes = [ , ] }"),
        vec![ASTNode::Define { version: None, schemes: vec![] }]
    );
}

#[test]
fn string_value_is_read_and_consumed() {
    assert_eq!(
        const_value("\"hello\""),
        Ok(ASTNode::StringLiteral("hello".to_string()))
    );
}

#[test]
fn array_keeps_strings_only() {
    assert_eq!(
        const_value("[\"a\", 1 x \"b\"]"),
        Ok(ASTNode::Array(vec![
            ASTNode::StringLiteral("a".to_string()),
            ASTNode::StringLiteral("b".to_string()),
        ]))
    );
}

#[test]
fn unfolded_number_keeps_its_text() {
    assert_eq!(const_value("007"), Ok(number("007")));
    assert_eq!(const_value("1.5"), Ok(number("1.5")));
}

#[test]
fn structural_failures() {
    assert_eq!(failure("$define version"), ParseErrorKind::ExpectedDefineOpen);
    assert_eq!(failure("$define { version"), ParseErrorKind::ExpectedOperator);
    assert_eq!(failure("$define { version = 1 }"), ParseErrorKind::ExpectedVersionString);
    assert_eq!(failure("$define { version = \"1\""), ParseErrorKind::UnterminatedDefine);
    assert_eq!(failure("$define { schemes = { } }"), ParseErrorKind::ExpectedSchemesOpen);
    assert_eq!(failure("$define { schemes = [ { } ] }"), ParseErrorKind::ExpectedPreset);
    assert_eq!(
        failure("$define { schemes = [ { preset = 1 } ] }"),
        ParseErrorKind::ExpectedPresetString
    );
    assert_eq!(
        failure("$define { schemes = [ { preset = \"p\" } ] }"),
        ParseErrorKind::ExpectedParams
    );
    assert_eq!(
        failure("$define { schemes = [ { preset = \"p\" params = [ ] } ] }"),
        ParseErrorKind::ExpectedParamsOpen
    );
    assert_eq!(
        failure("$define { schemes = [ { preset = \"p\" params = { a = 1"),
        ParseErrorKind::ExpectedSchemeClose
    );
    assert_eq!(
        failure("$define { schemes = [ { preset = \"p\" params = { } }"),
        ParseErrorKind::ExpectedSchemesClose
    );
    assert_eq!(
        failure("$define { schemes = [ { preset = \"p\" params = { 1 = 2 } } ] }"),
        ParseErrorKind::ExpectedIdentifier
    );
    assert_eq!(
        failure("$define { schemes = [ { preset = \"p\" params = { a = } } ] }"),
        ParseErrorKind::UnexpectedValue
    );
    assert_eq!(failure("$state [ ]"), ParseErrorKind::ExpectedStateOpen);
    assert_eq!(failure("$state { u8 a;"), ParseErrorKind::ExpectedStateClose);
    assert_eq!(failure("$state { table a; }"), ParseErrorKind::ExpectedType);
    assert_eq!(failure("$state { u8 8; }"), ParseErrorKind::ExpectedIdentifier);
    assert_eq!(failure("$state { u8 a }"), ParseErrorKind::ExpectedSemiColon);
    assert_eq!(failure("$state { // c\n }"), ParseErrorKind::ExpectedType);
    assert_eq!(failure("$consts ( )"), ParseErrorKind::ExpectedConstsOpen);
    assert_eq!(failure("$consts { u8 a = 1;"), ParseErrorKind::ExpectedConstsClose);
    assert_eq!(failure("$consts { u8 a 1; }"), ParseErrorKind::ExpectedOperator);
    assert_eq!(failure("$consts { u8 a = 1 }"), ParseErrorKind::ExpectedSemiColon);
    assert_eq!(failure("$consts { u8 a = [ \"x\" "), ParseErrorKind::UnterminatedArray);
    assert_eq!(failure("$consts { u8 a = 1 + ; }"), ParseErrorKind::ExpectedNumber);
    assert_eq!(failure("$consts { u8 a = 1 ? 2; }"), ParseErrorKind::UnknownOperator);
    assert_eq!(failure("$consts { u8 a = 1.5 + 2; }"), ParseErrorKind::InvalidNumber);
    assert_eq!(failure("$consts { u8 a = 1 - 2; }"), ParseErrorKind::Overflow);
    assert_eq!(failure("$consts { u8 a = 1 / 0; }"), ParseErrorKind::DivisionByZero);
}

#[test]
fn failure_carries_position_and_detail() {
    let error = parse_text("$consts { u8 a 1; }").unwrap_err();
    assert_eq!(
        error,
        ParseError {
            kind: ParseErrorKind::ExpectedOperator,
            position: 16,
            detail: "=".to_string()
        }
    );
    assert_eq!(error.message(), "Expected '=' operator");
    let error = parse_text("$state [").unwrap_err();
    assert_eq!(error.position, 8);
    assert_eq!(error.message(), "Expected '{' after '$state'");
}

#[test]
fn include_failures_surface_from_parse() {
    let error = parse_text("$state { } $include \"h\"").unwrap_err();
    assert_eq!(error.kind, ParseErrorKind::MissingInclude);
    assert_eq!(error.detail, "h");
    assert_eq!(error.message(), "Failed to read included file: h");

    let mut lexer = Lexer::new("$include \"h\"", "");
    assert!(lexer.add_header("h", "$state { u8 a; } $include \"g\""));
    let mut parser = Parser::new(lexer);
    let error = parser.parse().unwrap_err();
    assert_eq!(error.kind, ParseErrorKind::MissingInclude);
    assert_eq!(error.detail, "g");
    assert_eq!(error.position, 17);
}

#[test]
fn blocks_may_come_from_headers() {
    let mut lexer = Lexer::new("$include \"a\" $consts { u8 k = 2 ^ 3; }", "");
    assert!(lexer.add_header("a", "$state { bool on; u128 total; }"));
    let mut parser = Parser::new(lexer);
    assert_eq!(
        parser.parse(),
        Ok(ASTNode::Root(vec![
            ASTNode::State(vec![
                ASTNode::StateVariableDeclaration {
                    name: "on".to_string(),
                    var_type: VariableType::Bool
                },
                ASTNode::StateVariableDeclaration {
                    name: "total".to_string(),
                    var_type: VariableType::U128
                },
            ]),
            ASTNode::Consts(vec![ASTNode::ConstDeclaration {
                name: "k".to_string(),
                var_type: VariableType::U8,
                value: Box::new(number("8")),
            }]),
        ]))
    );
}
