use mexpr::parse::{ParseError, ParseTree, Parser};
use mexpr::token::TokenKind;

fn show(tree: &ParseTree) -> String {
    match tree {
        ParseTree::Number(text) => text.clone(),
        ParseTree::Identifier(name) => name.clone(),
        ParseTree::FunctionCall(callee, arguments) => {
            let mut text = format!("({}", show(callee));
            for argument in arguments {
                text = format!("{} {}", text, show(argument));
            }
            format!("{})", text)
        }
    }
}

fn parsed(text: &str) -> String {
    match ParseTree::try_from(text) {
        Ok(tree) => show(&tree),
        Err(error) => panic!("{:?} does not parse: {}", text, error.to_string()),
    }
}

fn failure(text: &str) -> ParseError<'_> {
    match ParseTree::try_from(text) {
        Ok(tree) => panic!("{:?} parses as {}", text, show(&tree)),
        Err(error) => error,
    }
}

fn atom_starts() -> Vec<TokenKind> {
    vec![
        TokenKind::Number,
        TokenKind::Identifier,
        TokenKind::Plus,
        TokenKind::Minus,
        TokenKind::LeftParenthesis,
    ]
}

#[test]
fn atoms() {
    assert_eq!(parsed("42"), "42");
    assert_eq!(parsed("1.5e3"), "1.5e3");
    assert_eq!(parsed("x"), "x");
    assert_eq!(parsed("(x)"), "x");
    assert_eq!(parsed("((1))"), "1");
}

#[test]
fn a_number_keeps_its_lexeme() {
    match ParseTree::try_from(" 007.50 ") {
        Ok(ParseTree::Number(text)) => assert_eq!(text, "007.50"),
        other => panic!("{:?}", other.map(|tree| show(&tree)).map_err(|error| error.to_string())),
    }
}

#[test]
fn operators_are_atoms() {
    for symbol in ["+", "-", "*", "/", "%", "^"] {
        match ParseTree::try_from(symbol) {
            Ok(ParseTree::Identifier(name)) => assert_eq!(name, symbol),
            other => panic!("{:?}", other.map(|tree| show(&tree)).map_err(|error| error.to_string())),
        }
    }
}

#[test]
fn sums_and_products_group_from_the_left() {
    assert_eq!(parsed("3 + 4"), "(+ 3 4)");
    assert_eq!(parsed("1 - 2 - 3"), "(- (- 1 2) 3)");
    assert_eq!(parsed("1 - 2 + 3"), "(+ (- 1 2) 3)");
    assert_eq!(parsed("8 / 4 / 2"), "(/ (/ 8 4) 2)");
    assert_eq!(parsed("7 % 4 * 2"), "(* (% 7 4) 2)");
    assert_eq!(parsed("10 % 3"), "(% 10 3)");
}

#[test]
fn products_bind_tighter_than_sums() {
    assert_eq!(parsed("1 + 2 * 3"), "(+ 1 (* 2 3))");
    assert_eq!(parsed("1 * 2 + 3"), "(+ (* 1 2) 3)");
    assert_eq!(parsed("(1 + 2) * 3"), "(* (+ 1 2) 3)");
    assert_eq!(parsed("1 - 2 / 3 - 4"), "(- (- 1 (/ 2 3)) 4)");
}

#[test]
fn powers_group_from_the_right() {
    assert_eq!(parsed("2 ^ 3 ^ 2"), "(^ 2 (^ 3 2))");
    assert_eq!(parsed("2 ^ 3 * 4"), "(* (^ 2 3) 4)");
    assert_eq!(parsed("2 * 3 ^ 4"), "(* 2 (^ 3 4))");
    assert_eq!(parsed("2 ^ -3"), "(^ 2 (- 3))");
    assert_eq!(parsed("2 ^ -3 ^ 2"), "(^ 2 (- (^ 3 2)))");
}

#[test]
fn signs() {
    assert_eq!(parsed("-3"), "(- 3)");
    assert_eq!(parsed("+3"), "(+ 3)");
    assert_eq!(parsed("- -3"), "(- (- 3))");
    assert_eq!(parsed("-+-x"), "(- (+ (- x)))");
    assert_eq!(parsed("-2 ^ 2"), "(- (^ 2 2))");
    assert_eq!(parsed("1 - -2"), "(- 1 (- 2))");
    assert_eq!(parsed("1 + +2"), "(+ 1 (+ 2))");
    assert_eq!(parsed("2 * -3"), "(* 2 (- 3))");
    assert_eq!(parsed("-(1 + 2)"), "(- (+ 1 2))");
}

#[test]
fn a_sign_before_an_operator_is_an_operand() {
    assert_eq!(parsed("- * 3"), "(* - 3)");
    assert_eq!(parsed("+ / x"), "(/ + x)");
    assert_eq!(parsed("- % 2 % 3"), "(% (% - 2) 3)");
    assert_eq!(parsed("- ^ 2"), "(^ - 2)");
    assert_eq!(parsed("+ ^ - ^ 2"), "(^ + (^ - 2))");
}

#[test]
fn a_sign_before_a_lone_operator_is_a_sign() {
    assert_eq!(parsed("-*"), "(- *)");
    assert_eq!(parsed("+ ^"), "(+ ^)");
    assert_eq!(parsed("- /"), "(- /)");
}

#[test]
fn a_sign_without_operand_is_an_atom() {
    assert_eq!(parsed("+"), "+");
    assert_eq!(parsed("-"), "-");
    assert_eq!(parsed("(-)"), "-");
    assert_eq!(parsed("f(-)"), "(f -)");
    assert_eq!(parsed("f(+, -)"), "(f + -)");
    assert_eq!(parsed("1 + -"), "(+ 1 -)");
}

#[test]
fn calls() {
    assert_eq!(parsed("f()"), "(f)");
    assert_eq!(parsed("f(1)"), "(f 1)");
    assert_eq!(parsed("f(1, 2, 3)"), "(f 1 2 3)");
    assert_eq!(parsed("f(1)(2)"), "((f 1) 2)");
    assert_eq!(parsed("f()()"), "((f))");
    assert_eq!(parsed("f(g(x), 1 + 2)"), "(f (g x) (+ 1 2))");
    assert_eq!(parsed("(f + g)(x)"), "((+ f g) x)");
    assert_eq!(parsed("3(4)"), "(3 4)");
    assert_eq!(parsed("f(x) ^ 2"), "(^ (f x) 2)");
    assert_eq!(parsed("2 ^ f(x)"), "(^ 2 (f x))");
}

#[test]
fn an_operator_is_called_like_a_name() {
    assert_eq!(parsed("+(3,4)"), "(+ 3 4)");
    assert_eq!(parsed("+(3,4)"), parsed("3 + 4"));
    assert_eq!(parsed("*(3,4)"), "(* 3 4)");
    assert_eq!(parsed("^(2)(3)"), "((^ 2) 3)");
    assert_eq!(parsed("-(3)"), "(- 3)");
    assert_eq!(parsed("-(1, 2)"), "(- 1 2)");
    assert_eq!(parsed("-()"), "(-)");
    assert_eq!(parsed("%()"), "(%)");
}

#[test]
fn a_trailing_operator_fails() {
    let error = failure("1 + ");
    assert_eq!(error.expected, atom_starts());
    assert_eq!(error.found.kind, TokenKind::EndOfFile);
    assert_eq!(error.found.lexeme, "");
    assert_eq!(
        error.to_string(),
        "expected a token of type Number or Identifier or Plus or Minus or LeftParenthesis \
         but found EndOfFile"
    );
    assert_eq!(failure("2 *").expected, atom_starts());
    assert_eq!(failure("2 ^").found.kind, TokenKind::EndOfFile);
}

#[test]
fn nothing_fails() {
    let error = failure("");
    assert_eq!(error.expected, atom_starts());
    assert_eq!(error.found.kind, TokenKind::EndOfFile);
    let error = failure("   ");
    assert_eq!(error.expected, atom_starts());
    assert_eq!(error.found.kind, TokenKind::EndOfFile);
}

#[test]
fn a_missing_parenthesis_fails() {
    let error = failure("(1 + 2");
    assert_eq!(error.expected, vec![TokenKind::RightParenthesis]);
    assert_eq!(error.found.kind, TokenKind::EndOfFile);
    assert_eq!(error.to_string(), "expected a token of type RightParenthesis but found EndOfFile");
    let error = failure("f(1, 2");
    assert_eq!(error.expected, vec![TokenKind::RightParenthesis]);
    assert_eq!(error.found.kind, TokenKind::EndOfFile);
    let error = failure("(1 2)");
    assert_eq!(error.expected, vec![TokenKind::RightParenthesis]);
    assert_eq!(error.found.kind, TokenKind::Number);
    assert_eq!(error.found.lexeme, "2");
    assert_eq!(error.to_string(), "expected a token of type RightParenthesis but found Number(2)");
}

#[test]
fn an_empty_argument_list_needs_its_parenthesis() {
    let error = failure("f(,)");
    assert_eq!(error.expected, vec![TokenKind::RightParenthesis]);
    assert_eq!(error.found.kind, TokenKind::Comma);
    let error = failure("f(");
    assert_eq!(error.expected, vec![TokenKind::RightParenthesis]);
    assert_eq!(error.found.kind, TokenKind::EndOfFile);
    let error = failure("f(#)");
    assert_eq!(error.expected, vec![TokenKind::RightParenthesis]);
    assert_eq!(error.found.kind, TokenKind::Unknown);
    assert_eq!(error.found.lexeme, "#");
}

#[test]
fn a_comma_needs_an_argument() {
    let error = failure("f(1,)");
    assert_eq!(error.expected, atom_starts());
    assert_eq!(error.found.kind, TokenKind::RightParenthesis);
    let error = failure("f(1,,2)");
    assert_eq!(error.expected, atom_starts());
    assert_eq!(error.found.kind, TokenKind::Comma);
}

#[test]
fn residual_tokens_fail() {
    let error = failure("1 2");
    assert_eq!(error.expected, vec![TokenKind::EndOfFile]);
    assert_eq!(error.found.kind, TokenKind::Number);
    assert_eq!(error.found.lexeme, "2");
    assert_eq!(error.to_string(), "expected a token of type EndOfFile but found Number(2)");
    let error = failure("1 + 2)");
    assert_eq!(error.expected, vec![TokenKind::EndOfFile]);
    assert_eq!(error.found.kind, TokenKind::RightParenthesis);
    let error = failure("x y");
    assert_eq!(error.to_string(), "expected a token of type EndOfFile but found Identifier(y)");
    let error = failure("1, 2");
    assert_eq!(error.found.kind, TokenKind::Comma);
}

#[test]
fn unknown_tokens_fail() {
    let error = failure("#");
    assert_eq!(error.expected, atom_starts());
    assert_eq!(error.found.kind, TokenKind::Unknown);
    assert_eq!(error.found.lexeme, "#");
    let error = failure("1 + $$");
    assert_eq!(
        error.to_string(),
        "expected a token of type Number or Identifier or Plus or Minus or LeftParenthesis \
         but found Unknown($$)"
    );
    let error = failure("1 @ 2");
    assert_eq!(error.expected, vec![TokenKind::EndOfFile]);
    assert_eq!(error.found.lexeme, "@");
}

#[test]
fn an_operator_cannot_start_a_product() {
    let error = failure(")");
    assert_eq!(error.expected, atom_starts());
    assert_eq!(error.found.kind, TokenKind::RightParenthesis);
    let error = failure(",");
    assert_eq!(error.found.kind, TokenKind::Comma);
}

#[test]
fn an_error_without_expectation_names_what_was_found() {
    let error = failure("1 2");
    let bare = ParseError { expected: Vec::new(), found: error.found };
    assert_eq!(bare.to_string(), "found Number(2)");
}

#[test]
fn a_parser_parses_its_line_once() {
    let mut parser = Parser::from("1 + 2");
    match parser.parse() {
        Ok(tree) => assert_eq!(show(&tree), "(+ 1 2)"),
        Err(error) => panic!("{}", error.to_string()),
    }
    match parser.parse() {
        Ok(tree) => panic!("{}", show(&tree)),
        Err(error) => {
            assert_eq!(error.expected, atom_starts());
            assert_eq!(error.found.kind, TokenKind::EndOfFile);
        }
    }
}

#[test]
fn a_failed_parse_leaves_the_parser_where_it_was() {
    let mut parser = Parser::from("1 +");
    let first = parser.parse().map(|tree| show(&tree)).map_err(|error| error.to_string());
    let second = parser.parse().map(|tree| show(&tree)).map_err(|error| error.to_string());
    assert!(first.is_err());
    assert_eq!(first, second);
}

#[test]
fn deep_nesting_parses() {
    let mut text = String::new();
    for _ in 0..12 {
        text.push('(');
    }
    text.push('1');
    for _ in 0..12 {
        text.push(')');
    }
    assert_eq!(parsed(&text), "1");
    assert_eq!(parsed("----1"), "(- (- (- (- 1))))");
}
