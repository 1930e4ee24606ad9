use rom_manager::tokenizer::tokenize;
use rom_manager::tokenizer::Token;

#[test]
fn should_tokenize_boolean_literals() {
    // Boolean literal false
    let tokens = tokenize("false");
    assert_eq!(tokens.len(), 1);
    assert_eq!(tokens[0], Token::LiteralBoolFalse);

    // Boolean literal true
    let tokens = tokenize("true");
    assert_eq!(tokens.len(), 1);
    assert_eq!(tokens[0], Token::LiteralBoolTrue);

    let tokens = tokenize("proc main(){false}");
    assert_eq!(tokens.len(), 7);
    assert_eq!(tokens[0], Token::KeywordProc);
    assert_eq!(tokens[1], Token::Identifier(String::from("main")));
    assert_eq!(tokens[2], Token::OperatorParenthesisOpen);
    assert_eq!(tokens[3], Token::OperatorParenthesisClose);
    assert_eq!(tokens[4], Token::OperatorBraceOpen);
    assert_eq!(tokens[5], Token::LiteralBoolFalse);
    assert_eq!(tokens[6], Token::OperatorBraceClose);
}

#[test]
fn should_tokenize_equality_operator() {
    // Equality operator
    let tokens = tokenize("==");
    assert_eq!(tokens.len(), 1);
    assert_eq!(tokens[0], Token::OperatorEquality);

    // Equality operator with identifier
    let tokens = tokenize("a==b");
    assert_eq!(tokens.len(), 3);
    assert_eq!(tokens[0], Token::Identifier(String::from("a")));
    assert_eq!(tokens[1], Token::OperatorEquality);
    assert_eq!(tokens[2], Token::Identifier(String::from("b")));

    // Equality operator with identifier and whitespaces
    let tokens = tokenize("a == b");
    assert_eq!(tokens.len(), 3);
    assert_eq!(tokens[0], Token::Identifier(String::from("a")));
    assert_eq!(tokens[1], Token::OperatorEquality);
    assert_eq!(tokens[2], Token::Identifier(String::from("b")));
}

#[test]
fn should_tokenize_identifier() {
    // Identifier with only alphabetic characters
    let tokens = tokenize("main");
    assert_eq!(tokens.len(), 1);
    assert_eq!(tokens[0], Token::Identifier(String::from("main")));

    // Identifier with underscore
    let tokens = tokenize("main_loop");
    assert_eq!(tokens.len(), 1);
    assert_eq!(tokens[0], Token::Identifier(String::from("main_loop")));

    // Identifier with underscore and number
    let tokens = tokenize("main_loop_1");
    assert_eq!(tokens.len(), 1);
    assert_eq!(tokens[0], Token::Identifier(String::from("main_loop_1")));
}

#[test]
fn should_tokenize_public_procedure_definition() {
    // Procedure definition without parameters.
    let tokens = tokenize("pub proc main(){}");
    assert_eq!(tokens.len(), 7);
    assert_eq!(tokens[0], Token::KeywordPub);
    assert_eq!(tokens[1], Token::KeywordProc);
    assert_eq!(tokens[2], Token::Identifier(String::from("main")));
    assert_eq!(tokens[3], Token::OperatorParenthesisOpen);
    assert_eq!(tokens[4], Token::OperatorParenthesisClose);
    assert_eq!(tokens[5], Token::OperatorBraceOpen);
    assert_eq!(tokens[6], Token::OperatorBraceClose);

    // Procedure definition with parameters with a procedure name that begins with 'p'
    // that should not mess up with the keywords starting with 'p'.
    let tokens = tokenize("pub proc poll(){}");
    assert_eq!(tokens.len(), 7);
    assert_eq!(tokens[0], Token::KeywordPub);
    assert_eq!(tokens[1], Token::KeywordProc);
    assert_eq!(tokens[2], Token::Identifier(String::from("poll")));
    assert_eq!(tokens[3], Token::OperatorParenthesisOpen);
    assert_eq!(tokens[4], Token::OperatorParenthesisClose);
    assert_eq!(tokens[5], Token::OperatorBraceOpen);
    assert_eq!(tokens[6], Token::OperatorBraceClose);

    // Procedure definition with body containing an if statement.
    let tokens = tokenize("pub proc main(){if true{}}");
    assert_eq!(tokens.len(), 11);
    assert_eq!(tokens[0], Token::KeywordPub);
    assert_eq!(tokens[1], Token::KeywordProc);
    assert_eq!(tokens[2], Token::Identifier(String::from("main")));
    assert_eq!(tokens[3], Token::OperatorParenthesisOpen);
    assert_eq!(tokens[4], Token::OperatorParenthesisClose);
    assert_eq!(tokens[5], Token::OperatorBraceOpen);
    assert_eq!(tokens[6], Token::KeywordIf);
    assert_eq!(tokens[7], Token::LiteralBoolTrue);
    assert_eq!(tokens[8], Token::OperatorBraceOpen);
    assert_eq!(tokens[9], Token::OperatorBraceClose);
    assert_eq!(tokens[10], Token::OperatorBraceClose);
}

#[test]
fn tokenizer_distinguishes_assignment_from_equality() {
    let tokens = tokenize("a = b");
    assert_eq!(tokens.len(), 3);
    assert_eq!(tokens[1], Token::Assignment);
}
