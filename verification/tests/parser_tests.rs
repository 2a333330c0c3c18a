use lambda_parser::{parse, ParseError, Term};

fn var(name: &str) -> Term {
    Term::Variable { name: name.to_string() }
}

fn lam(bind: &str, body: Term) -> Term {
    Term::Lambda { bind: bind.to_string(), body: Box::new(body) }
}

fn app(func: Term, arg: Term) -> Term {
    Term::Application { func: Box::new(func), arg: Box::new(arg) }
}

#[test]
fn test_parse_valid_lambda_expr() {
    let input = "λx.x";
    let expected = Term::Lambda {
        bind: "x".to_string(),
        body: Box::new(Term::Variable { name: "x".to_string() }),
    };

    assert_eq!(parse(input), Ok(expected));
}

#[test]
fn test_parse_valid_application_with_parenthesis() {
    let input = "(f x)";
    let expected = Term::Application {
        func: Box::new(Term::Variable { name: "f".to_string() }),
        arg: Box::new(Term::Variable { name: "x".to_string() }),
    };

    assert_eq!(parse(input), Ok(expected));
}

#[test]
fn test_parse_invalid_lambda_expr() {
    let input = "λx";
    assert_eq!(parse(input), Err(ParseError::InvalidLambda));
}

#[test]
fn test_parse_constant_function() {
    let input = "λx.λy.x";
    let expected = Term::Lambda {
        bind: "x".to_string(),
        body: Box::new(Term::Lambda {
            bind: "y".to_string(),
            body: Box::new(Term::Variable { name: "x".to_string() }),
        }),
    };

    assert_eq!(parse(input), Ok(expected));
}

#[test]
fn test_parse_y_combinator_form() {
    let input = "λx.(x x)";
    let expected = Term::Lambda {
        bind: "x".to_string(),
        body: Box::new(Term::Application {
            func: Box::new(Term::Variable { name: "x".to_string() }),
            arg: Box::new(Term::Variable { name: "x".to_string() }),
        }),
    };

    assert_eq!(parse(input), Ok(expected));
}

#[test]
fn test_parse_function_composition() {
    let input = "λf.λg.λx.(f(g x))";
    let expected = Term::Lambda {
        bind: "f".to_string(),
        body: Box::new(Term::Lambda {
            bind: "g".to_string(),
            body: Box::new(Term::Lambda {
                bind: "x".to_string(),
                body: Box::new(Term::Application {
                    func: Box::new(Term::Variable { name: "f".to_string() }),
                    arg: Box::new(Term::Application {
                        func: Box::new(Term::Variable { name: "g".to_string() }),
                        arg: Box::new(Term::Variable { name: "x".to_string() }),
                    }),
                }),
            }),
        }),
    };

    assert_eq!(parse(input), Ok(expected));
}

#[test]
fn test_unexpected_character_error() {
    // The lambda body ends before the stray lambda symbol, which then trails
    // a complete term: trailing unconsumed input is an invalid application.
    let input = "λx.x λ";
    let result = parse(input);
    assert!(matches!(result, Err(ParseError::InvalidApplication)));
}

#[test]
fn test_unexpected_end_of_file_error() {
    // The input ends where the lambda's body must begin: no atom can start
    // there, which the closed error taxonomy classifies as an invalid
    // application.
    let input = "λx.";
    let result = parse(input);
    assert!(matches!(result, Err(ParseError::InvalidApplication)));
}

#[test]
fn test_invalid_lambda_error() {
    let input = "λ.x";
    let result = parse(input);
    assert!(matches!(result, Err(ParseError::InvalidLambda)));
}

#[test]
fn test_invalid_lambda_that_has_no_application() {
    let input = "λ.";
    let result = parse(input);
    assert!(matches!(result, Err(ParseError::InvalidLambda)));
}

#[test]
fn test_unmatched_parenthesis_error() {
    let input = "(λx.x";
    let result = parse(input);
    assert!(matches!(result, Err(ParseError::UnmatchedParenthesis)));
}

#[test]
fn test_invalid_application_error() {
    let input = "(λx.x)λ";
    let result = parse(input);
    assert!(matches!(result, Err(ParseError::InvalidApplication)));
}

#[test]
fn left_associative_application() {
    assert_eq!(parse("f x y"), Ok(app(app(var("f"), var("x")), var("y"))));
    assert_eq!(
        parse("a b c d"),
        Ok(app(app(app(var("a"), var("b")), var("c")), var("d")))
    );
}

#[test]
fn greedy_lambda_body() {
    assert_eq!(parse("λx.x y"), Ok(lam("x", app(var("x"), var("y")))));
}

#[test]
fn whitespace_insensitive() {
    let expected = lam("x", var("x"));
    assert_eq!(parse("λx.x"), Ok(expected));
    assert_eq!(parse(" λ x . x "), parse("λx.x"));
    assert_eq!(parse("\tf\n x "), parse("f x"));
}

#[test]
fn single_parenthesized_atom_is_valid() {
    // A parenthesized single atom is a degenerate application and stands for
    // itself.
    assert_eq!(parse("(x)"), Ok(var("x")));
    assert_eq!(parse("((x))"), Ok(var("x")));
}

#[test]
fn error_determinism() {
    assert_eq!(parse("λx"), Err(ParseError::InvalidLambda));
    assert_eq!(parse("(λx.x"), Err(ParseError::UnmatchedParenthesis));
    assert_eq!(parse("λ.x"), Err(ParseError::InvalidLambda));
    assert_eq!(parse("(λx.x)λ"), Err(ParseError::InvalidApplication));
}

#[test]
fn empty_and_unrecognized_input() {
    assert_eq!(parse(""), Err(ParseError::InvalidApplication));
    assert_eq!(parse("   "), Err(ParseError::InvalidApplication));
    assert_eq!(parse("9x"), Err(ParseError::InvalidApplication));
    assert_eq!(parse("."), Err(ParseError::InvalidApplication));
}

#[test]
fn trailing_characters_after_lambda_body() {
    // The enclosing context classifies what a lambda body cannot consume:
    // trailing input at the top level, an unclosed group inside parentheses.
    assert_eq!(parse("λx.x ."), Err(ParseError::InvalidApplication));
    assert_eq!(parse("λx.x λ"), Err(ParseError::InvalidApplication));
    assert_eq!(parse("(λx.x λ)"), Err(ParseError::UnmatchedParenthesis));
}

#[test]
fn identifier_lexical_rule() {
    // Identifiers start alphabetic and may continue with digits and
    // underscores.
    assert_eq!(parse("x_1 y2"), Ok(app(var("x_1"), var("y2"))));
    // Non-ASCII alphabetic characters are identifiers too.
    assert_eq!(parse("é"), Ok(var("é")));
}

#[test]
fn lambda_cannot_continue_an_application() {
    // A bare lambda cannot stand as a further operand; parenthesized it can.
    assert!(parse("x λy.y").is_err());
    assert_eq!(parse("x (λy.y)"), Ok(app(var("x"), lam("y", var("y")))));
}

#[test]
fn committed_operand_failure_propagates() {
    // A lookahead that cannot begin an operand ends the sequence silently,
    // but once an operand attempt is committed, its failure is the first
    // structural violation and surfaces unmodified.
    assert_eq!(parse("x (y"), Err(ParseError::UnmatchedParenthesis));
    assert_eq!(parse("x (λ"), Err(ParseError::InvalidLambda));
}

#[test]
fn serialize_variable() {
    let t = parse("x").unwrap();
    assert_eq!(t.serialize(), r#"{"tag": "var", "name": "x"}"#);
}

#[test]
fn serialize_mirrors_left_associated_chain() {
    let t = parse("f x y").unwrap();
    assert_eq!(
        t.serialize(),
        r#"{"tag": "application", "func": {"tag": "application", "func": {"tag": "var", "name": "f"}, "arg": {"tag": "var", "name": "x"}}, "arg": {"tag": "var", "name": "y"}}"#
    );
}

#[test]
fn serialize_lambda() {
    let t = parse("λx.x y").unwrap();
    assert_eq!(
        t.serialize(),
        r#"{"tag": "lambda", "bind": "x", "body": {"tag": "application", "func": {"tag": "var", "name": "x"}, "arg": {"tag": "var", "name": "y"}}}"#
    );
}

#[test]
fn serialization_is_valid_json() {
    let t = parse("λf.λg.λx.(f(g x))").unwrap();
    let v: serde_json::Value = serde_json::from_str(&t.serialize()).unwrap();
    assert_eq!(v["tag"], "lambda");
    assert_eq!(v["bind"], "f");
    assert_eq!(v["body"]["body"]["body"]["tag"], "application");
    assert_eq!(v["body"]["body"]["body"]["func"]["name"], "f");
    assert_eq!(v["body"]["body"]["body"]["arg"]["func"]["name"], "g");
}

#[test]
fn error_messages() {
    assert_eq!(
        ParseError::UnexpectedCharacter('λ').message(),
        "Unexpected character: λ"
    );
    assert_eq!(ParseError::UnmatchedParenthesis.message(), "Unmatched parenthesis");
    assert_eq!(ParseError::InvalidLambda.message(), "Invalid lambda expression");
    assert_eq!(
        ParseError::InvalidApplication.message(),
        "Invalid application expression"
    );
    assert_eq!(ParseError::InvalidVariable.message(), "Invalid variable expression");
}
