use stlc::eval::{eval, eval_with_fuel, substitute};
use stlc::lexer::{lexer, LexError, Token};
use stlc::parser::{ParseError, Parser, Term, Type};
use stlc::type_checker::{type_check, Context, TypeError};
use stlc::{process_input, ProcessError};

fn parse(s: &str) -> Term {
    let tokens = lexer(s.to_string()).expect("lexes");
    Parser::new(tokens).parse_term().expect("parses")
}

fn var(name: &str) -> Term {
    Term::Var(name.to_string(), None)
}

fn named(name: &str) -> Type {
    Type::Named(name.to_string())
}

fn arrow(a: Type, b: Type) -> Type {
    Type::Arrow(Box::new(a), Box::new(b))
}

#[test]
fn lexer_produces_all_token_kinds() {
    let tokens = lexer("\\x:Bool -> Nat. (f x)".to_string()).unwrap();
    assert_eq!(
        tokens,
        vec![
            Token::Lambda,
            Token::Var("x".to_string()),
            Token::Colon,
            Token::Type("Bool".to_string()),
            Token::Arrow,
            Token::Type("Nat".to_string()),
            Token::Dot,
            Token::LParen,
            Token::Var("f".to_string()),
            Token::Var("x".to_string()),
            Token::RParen,
        ]
    );
}

#[test]
fn lexer_reads_unicode_identifiers_and_whitespace() {
    let tokens = lexer("λ\tαβ2\n Édith".to_string()).unwrap();
    assert_eq!(
        tokens,
        vec![
            Token::Lambda,
            Token::Var("αβ2".to_string()),
            Token::Type("Édith".to_string()),
        ]
    );
}

#[test]
fn lexer_of_empty_text_is_empty() {
    assert_eq!(lexer("  ".to_string()), Ok(vec![]));
}

#[test]
fn lexer_rejects_lone_dash() {
    assert_eq!(lexer("x - y".to_string()), Err(LexError::ExpectedArrowHead));
    assert_eq!(lexer("x -".to_string()), Err(LexError::ExpectedArrowHead));
}

#[test]
fn lexer_rejects_unknown_character() {
    assert_eq!(lexer("x + y".to_string()), Err(LexError::UnrecognizedChar('+')));
    assert_eq!(lexer("3x".to_string()), Err(LexError::UnrecognizedChar('3')));
}

#[test]
fn application_associates_to_the_left() {
    let t = parse("f a b");
    let expected = Term::App(
        Box::new(Term::App(Box::new(var("f")), Box::new(var("a")))),
        Box::new(var("b")),
    );
    assert_eq!(t, expected);
    assert_eq!(t.display(), "((f) (a)) (b)");
}

#[test]
fn arrow_associates_to_the_right() {
    let t = parse("x:A -> B -> C");
    let expected = Term::Var(
        "x".to_string(),
        Some(arrow(named("A"), arrow(named("B"), named("C")))),
    );
    assert_eq!(t, expected);
    assert_eq!(t.display(), "x:(A -> (B -> C))");
}

#[test]
fn parenthesized_type_on_the_left() {
    let t = parse("x:(A -> B) -> Nat");
    let expected = Term::Var(
        "x".to_string(),
        Some(arrow(arrow(named("A"), named("B")), Type::Nat)),
    );
    assert_eq!(t, expected);
}

#[test]
fn bool_and_nat_are_special_type_names() {
    let t = parse("λx:Bool. y:Nat");
    assert_eq!(
        t,
        Term::Abs(
            "x".to_string(),
            Some(Type::Bool),
            Box::new(Term::Var("y".to_string(), Some(Type::Nat)))
        )
    );
}

#[test]
fn trailing_tokens_are_ignored() {
    let t = parse("x ) y");
    assert_eq!(t, var("x"));
}

#[test]
fn parse_errors_name_what_was_expected() {
    let mut p = Parser::new(lexer("λ. x".to_string()).unwrap());
    assert_eq!(p.parse_term(), Err(ParseError::ExpectedVariable(Some(Token::Dot))));

    let mut p = Parser::new(lexer("λx x".to_string()).unwrap());
    assert_eq!(
        p.parse_term(),
        Err(ParseError::ExpectedToken {
            expected: Token::Dot,
            found: Some(Token::Var("x".to_string()))
        })
    );

    let mut p = Parser::new(lexer("(x".to_string()).unwrap());
    assert_eq!(
        p.parse_term(),
        Err(ParseError::ExpectedToken { expected: Token::RParen, found: None })
    );

    let mut p = Parser::new(vec![]);
    assert_eq!(p.parse_term(), Err(ParseError::ExpectedTerm(None)));

    let mut p = Parser::new(lexer("x:.".to_string()).unwrap());
    assert_eq!(p.parse_term(), Err(ParseError::ExpectedType(Some(Token::Dot))));
}

#[test]
fn display_round_trip_is_idempotent() {
    for s in [
        "λf:(A -> B). λx:A. (f) (x)",
        "(λx:(Bool -> Nat).(x)) (y:(Bool -> Nat))",
        "f a (λz. z) b:C",
    ] {
        let once = parse(s).display();
        let twice = parse(&once).display();
        assert_eq!(once, twice);
    }
}

#[test]
fn eval_keeps_variables() {
    assert_eq!(eval(var("x")), Some(var("x")));
    let annotated = Term::Var("x".to_string(), Some(named("Y")));
    assert_eq!(eval(Term::Var("x".to_string(), Some(named("Y")))), Some(annotated));
}

#[test]
fn eval_reduces_under_binders_and_in_arguments() {
    let t = eval(parse("λy. (λx. x) y")).unwrap();
    assert_eq!(t.display(), "λy.(y)");
    let t = eval(parse("f ((λx. x) a)")).unwrap();
    assert_eq!(t.display(), "(f) (a)");
}

#[test]
fn eval_church_style_reduction() {
    // (λf. λx. f (f x)) g z  →  g (g z)
    let t = eval(parse("(λf. λx. f (f x)) g z")).unwrap();
    assert_eq!(t.display(), "(g) ((g) (z))");
}

#[test]
fn eval_runs_out_of_fuel_on_omega() {
    let omega = parse("(λx. x x) (λx. x x)");
    assert_eq!(eval_with_fuel(omega, 50), None);
    assert_eq!(eval_with_fuel(var("x"), 0), None);
    assert_eq!(eval_with_fuel(var("x"), 1), Some(var("x")));
}

#[test]
fn substitute_replaces_free_occurrences() {
    let t = substitute("x", &var("z"), parse("f x (λy. x)"));
    assert_eq!(t.display(), "((f) (z)) (λy.(z))");
}

#[test]
fn substitute_stops_at_shadowing_binder() {
    let t = parse("x (λx. x) (λy. λx. x)");
    let r = substitute("x", &var("w"), t);
    assert_eq!(r.display(), "((w) (λx.(x))) (λy.(λx.(x)))");
}

#[test]
fn substitute_can_capture() {
    // the binder y captures the free y of the value: the documented behaviour
    let r = substitute("x", &var("y"), parse("λy. x"));
    assert_eq!(r, Term::Abs("y".to_string(), None, Box::new(var("y"))));
}

#[test]
fn type_of_identity() {
    let ctx = Context::new();
    assert_eq!(type_check(&parse("λx:Y. x"), &ctx), Ok(arrow(named("Y"), named("Y"))));
    let yy = arrow(named("Y"), named("Y"));
    assert_eq!(type_check(&parse("λx:Y -> Y. x"), &ctx), Ok(arrow(yy, arrow(named("Y"), named("Y")))));
}

#[test]
fn unbound_variable_and_annotation() {
    let ctx = Context::new();
    assert_eq!(
        type_check(&parse("x"), &ctx),
        Err(TypeError::UnboundVariable("x".to_string()))
    );
    assert_eq!(type_check(&parse("x:Y"), &ctx), Ok(named("Y")));
}

#[test]
fn context_binding_wins_over_annotation() {
    let mut ctx = Context::new();
    ctx.insert("x".to_string(), Type::Bool);
    assert_eq!(type_check(&parse("x:Y"), &ctx), Ok(Type::Bool));
    ctx.insert("x".to_string(), Type::Nat);
    assert_eq!(ctx.get(&"x".to_string()), Some(&Type::Nat));
    assert_eq!(ctx.get(&"y".to_string()), None);
}

#[test]
fn binder_extends_a_copy_of_the_context() {
    let mut ctx = Context::new();
    ctx.insert("y".to_string(), Type::Nat);
    assert_eq!(
        type_check(&parse("λx:Bool. y"), &ctx),
        Ok(arrow(Type::Bool, Type::Nat))
    );
    assert_eq!(ctx.get(&"x".to_string()), None);
}

#[test]
fn missing_annotation() {
    let ctx = Context::new();
    assert_eq!(type_check(&parse("λx. x"), &ctx), Err(TypeError::MissingAnnotation));
}

#[test]
fn not_a_function() {
    let ctx = Context::new();
    assert_eq!(
        type_check(&parse("f:A a:A"), &ctx),
        Err(TypeError::NotAFunction(named("A")))
    );
}

#[test]
fn argument_mismatch_names_both_types() {
    let ctx = Context::new();
    assert_eq!(
        type_check(&parse("(λx:A. x) y:B"), &ctx),
        Err(TypeError::ArgumentMismatch { expected: named("A"), found: named("B") })
    );
}

#[test]
fn application_types_to_the_result() {
    let ctx = Context::new();
    assert_eq!(
        type_check(&parse("(λf:A -> B. λx:A. f x) g:(A -> B)"), &ctx),
        Ok(arrow(named("A"), named("B")))
    );
}

#[test]
fn pipeline_reports_each_stage() {
    assert_eq!(process_input("x $".to_string()), Err(ProcessError::Lex(LexError::UnrecognizedChar('$'))));
    assert_eq!(
        process_input("λ".to_string()),
        Err(ProcessError::Parse(ParseError::ExpectedVariable(None)))
    );
    assert_eq!(
        process_input("λx:A. y".to_string()),
        Err(ProcessError::Type(TypeError::UnboundVariable("y".to_string())))
    );
    // no ':' and no '->': not type-checked, so the unbound variable is fine
    let (t, ty) = process_input("λx. y".to_string()).unwrap();
    assert_eq!(t.display(), "λx.(y)");
    assert_eq!(ty, None);
}

#[test]
fn display_of_types() {
    assert_eq!(Type::Bool.display(), "Bool");
    assert_eq!(Type::Nat.display(), "Nat");
    assert_eq!(arrow(Type::Bool, arrow(named("X"), Type::Nat)).display(), "(Bool -> (X -> Nat))");
}

#[test]
fn eval_displays_abstractions() {
    assert_eq!(eval(parse("λx. x")).unwrap().display(), "λx.(x)");
    assert_eq!(eval(parse("λx:Y. x")).unwrap().display(), "λx:Y.(x)");
    assert_eq!(eval(parse("λx:Y -> Y. x")).unwrap().display(), "λx:(Y -> Y).(x)");
}

#[test]
fn eval_contracts_redexes() {
    assert_eq!(eval(parse("(λx. x) y")).unwrap().display(), "y");
    assert_eq!(eval(parse("(λx:A. x) y")).unwrap().display(), "y");
}

#[test]
fn eval_leaves_stuck_application() {
    assert_eq!(eval(parse("f x")).unwrap().display(), "(f) (x)");
}

#[test]
fn round_trip_of_nested_display() {
    let s = "(λf:(A -> B) -> C. f (λa:A. b:B)) (g:(A -> B) -> C)";
    let once = parse(s).display();
    assert_eq!(once, "(λf:((A -> B) -> C).((f) (λa:A.(b:B)))) (g:((A -> B) -> C))");
    assert_eq!(parse(&once).display(), once);
}
