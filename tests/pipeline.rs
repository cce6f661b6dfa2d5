use stlc::process_input;

// Var without type
#[test]
fn test_should_be_eval_var_without_type() {
    let input = "x".to_string();
    let (term, _) = process_input(input).expect("Erro ao processar input");

    assert_eq!(term.display(), "x");
}

// Var with type
#[test]
fn test_should_be_eval_var_with_type() {
    let input = "x:Y".to_string();
    let (term, option_type) = process_input(input).expect("Erro ao processar input");
    let ty = option_type.expect("Erro no type check");

    assert_eq!(term.display(), "x:Y");
    assert_eq!(ty.display(), "Y");
}

// Abs without type
#[test]
fn test_should_be_eval_abstractions_without_type() {
    let input = "λx. x".to_string();
    let (term, _) = process_input(input).expect("Erro ao processar input");

    assert_eq!(term.display(), "λx.(x)");
}

// Abs with type
#[test]
fn test_should_be_eval_abstractions_with_type() {
    let input = "λx:Y. x".to_string();
    let (term, option_type) = process_input(input).expect("Erro ao processar input");
    let ty = option_type.expect("Erro no type check");

    assert_eq!(term.display(), "λx:Y.(x)");
    assert_eq!(ty.display(), "(Y -> Y)");
}

// Abs with type arrow
#[test]
fn test_should_be_eval_abstractions_with_type_arrow() {
    let input = "λx:Y -> Y. x".to_string();
    let (term, option_type) = process_input(input).expect("Erro ao processar input");
    let ty = option_type.expect("Erro no type check");

    assert_eq!(term.display(), "λx:(Y -> Y).(x)");
    assert_eq!(ty.display(), "((Y -> Y) -> (Y -> Y))");
}

// App without type
#[test]
fn test_should_be_eval_appplication_without_type() {
    let input = "(λx. x) y".to_string();
    let (term, _) = process_input(input).expect("Erro ao processar input");

    assert_eq!(term.display(), "y");
}

// App with type
#[test]
fn test_should_be_eval_appplication_with_type() {
    let input = "(λx:A. x) y:A".to_string();
    let (term, option_type) = process_input(input).expect("Erro ao processar input");
    let ty = option_type.expect("Erro no type check");

    assert_eq!(term.display(), "y:A");
    assert_eq!(ty.display(), "A");
}

// App with type arrow
#[test]
fn test_should_be_eval_appplication_with_type_arrow() {
    let input = "(λx:A -> A. x) y:A -> A".to_string();
    let (term, option_type) = process_input(input).expect("Erro ao processar input");
    let ty = option_type.expect("Erro no type check");

    assert_eq!(term.display(), "y:(A -> A)");
    assert_eq!(ty.display(), "(A -> A)");
}
