use forth::data::Data;
use forth::render::{debug_render, display_render, render_stack};
use forth::token::{parse_token, parse_tokens, Func, ParseError, Reserved, Rule, SyntaxNode, Token};

fn leaf(rule: Rule, text: &str) -> SyntaxNode {
    SyntaxNode { rule, text: String::from(text), children: vec![] }
}

fn token_node(inner: SyntaxNode) -> SyntaxNode {
    SyntaxNode {
        rule: Rule::Tokens,
        text: inner.text.clone(),
        children: vec![inner],
    }
}

fn int_node(text: &str) -> SyntaxNode {
    token_node(leaf(Rule::Int, text))
}

fn char_node(text: &str) -> SyntaxNode {
    token_node(leaf(Rule::Char, text))
}

fn op_node(sub: Rule, text: &str) -> SyntaxNode {
    token_node(SyntaxNode {
        rule: Rule::Operator,
        text: String::from(text),
        children: vec![leaf(sub, text)],
    })
}

fn reserved_node(form: Rule, keyword: &str, name: &str) -> SyntaxNode {
    let name_leaf = leaf(Rule::Name, name);
    let form_node = SyntaxNode {
        rule: form,
        text: format!("{} {}", keyword, name),
        children: vec![name_leaf],
    };
    token_node(SyntaxNode {
        rule: Rule::ReservedKeyword,
        text: format!("{} {}", keyword, name),
        children: vec![form_node],
    })
}

fn keyword_node(text: &str) -> SyntaxNode {
    token_node(leaf(Rule::Keyword, text))
}

#[test]
fn int_literals_parse() {
    assert!(matches!(parse_token(&int_node("12")), Ok(Token::Int(12))));
    assert!(matches!(parse_token(&int_node("-7")), Ok(Token::Int(-7))));
    assert!(matches!(parse_token(&int_node("+7")), Ok(Token::Int(7))));
    assert!(matches!(parse_token(&int_node("0")), Ok(Token::Int(0))));
    assert!(matches!(parse_token(&int_node("007")), Ok(Token::Int(7))));
    assert!(matches!(
        parse_token(&int_node("2147483647")),
        Ok(Token::Int(2147483647))
    ));
    assert!(matches!(
        parse_token(&int_node("-2147483648")),
        Ok(Token::Int(-2147483648))
    ));
}

#[test]
fn int_literals_out_of_range_are_invalid() {
    assert!(matches!(
        parse_token(&int_node("2147483648")),
        Err(ParseError::InvalidToken(_))
    ));
    assert!(matches!(
        parse_token(&int_node("-2147483649")),
        Err(ParseError::InvalidToken(_))
    ));
    assert!(matches!(
        parse_token(&int_node("99999999999999999999")),
        Err(ParseError::InvalidToken(_))
    ));
}

#[test]
fn malformed_int_literals_are_invalid() {
    for text in ["", "-", "+", "12a", "1 2", "--3"] {
        match parse_token(&int_node(text)) {
            Err(ParseError::InvalidToken(t)) => assert_eq!(t, text),
            _ => panic!("expected invalid token for {:?}", text),
        }
    }
}

#[test]
fn char_literals_parse() {
    assert!(matches!(parse_token(&char_node("'a")), Ok(Token::Char('a'))));
    assert!(matches!(parse_token(&char_node("'Z")), Ok(Token::Char('Z'))));
    assert!(matches!(parse_token(&char_node("'\\n")), Ok(Token::Char('\n'))));
    assert!(matches!(parse_token(&char_node("'\\t")), Ok(Token::Char('\t'))));
    assert!(matches!(parse_token(&char_node("'\\")), Ok(Token::Char('\\'))));
}

#[test]
fn char_literals_with_residue_are_invalid() {
    for text in ["'", "'ab", "'\\x", "'\\nn"] {
        match parse_token(&char_node(text)) {
            Err(ParseError::InvalidToken(t)) => assert_eq!(t, text),
            _ => panic!("expected invalid token for {:?}", text),
        }
    }
}

#[test]
fn operators_map_one_to_one() {
    let cases = [
        (Rule::Add, Func::Add),
        (Rule::Sub, Func::Sub),
        (Rule::Mul, Func::Mul),
        (Rule::Div, Func::Div),
        (Rule::Inp, Func::Input),
        (Rule::Print, Func::Print),
        (Rule::Debugprint, Func::DPrint),
        (Rule::Dup, Func::Dup),
        (Rule::Swp, Func::Swap),
        (Rule::Ovr, Func::Over),
        (Rule::Rot, Func::Rotate),
        (Rule::Store, Func::Store),
        (Rule::Retrieve, Func::Retrieve),
    ];
    for (rule, func) in cases {
        match parse_token(&op_node(rule, "op")) {
            Ok(Token::Func(f)) => assert_eq!(f, func),
            _ => panic!("expected operator token"),
        }
    }
}

#[test]
fn unknown_operator_sub_rule_is_invalid() {
    assert!(matches!(
        parse_token(&op_node(Rule::Keyword, "?")),
        Err(ParseError::InvalidToken(_))
    ));
}

#[test]
fn reserved_forms_extract_the_identifier() {
    match parse_token(&reserved_node(Rule::Variable, "variable", "m")) {
        Ok(Token::Reserved(Reserved::Variable(name))) => assert_eq!(name, "m"),
        _ => panic!("expected a variable declaration"),
    }
    match parse_token(&reserved_node(Rule::Constant, "constant", "c")) {
        Ok(Token::Reserved(Reserved::Constant(name))) => assert_eq!(name, "c"),
        _ => panic!("expected a constant declaration"),
    }
}

#[test]
fn generic_keywords_become_references() {
    match parse_token(&keyword_node("spin")) {
        Ok(Token::Keyword(name)) => assert_eq!(name, "spin"),
        _ => panic!("expected a keyword reference"),
    }
}

#[test]
fn float_literals_are_unsupported() {
    assert!(matches!(
        parse_token(&token_node(leaf(Rule::Float, "1.5"))),
        Err(ParseError::InvalidToken(_))
    ));
}

#[test]
fn childless_node_is_invalid() {
    match parse_token(&leaf(Rule::Tokens, "junk")) {
        Err(ParseError::InvalidToken(t)) => assert_eq!(t, "junk"),
        _ => panic!("expected invalid token"),
    }
}

#[test]
fn node_sequence_classifies_in_order() {
    let nodes = vec![int_node("1"), int_node("2"), op_node(Rule::Add, "+")];
    let tokens = parse_tokens(&nodes).unwrap();
    assert_eq!(tokens.len(), 3);
    assert!(matches!(tokens[0], Token::Int(1)));
    assert!(matches!(tokens[1], Token::Int(2)));
    assert!(matches!(tokens[2], Token::Func(Func::Add)));
}

#[test]
fn node_sequence_stops_at_first_failure() {
    let nodes = vec![int_node("1"), int_node("oops"), int_node("bad")];
    match parse_tokens(&nodes) {
        Err(ParseError::InvalidToken(t)) => assert_eq!(t, "oops"),
        _ => panic!("expected the first invalid token"),
    }
}

#[test]
fn display_rendering_prints_bare_values() {
    assert_eq!(display_render(Data::Int(0)), "0");
    assert_eq!(display_render(Data::Int(42)), "42");
    assert_eq!(display_render(Data::Int(-123)), "-123");
    assert_eq!(display_render(Data::Int(i32::MIN)), "-2147483648");
    assert_eq!(display_render(Data::Int(i32::MAX)), "2147483647");
    assert_eq!(display_render(Data::Char('q')), "q");
}

#[test]
fn debug_rendering_names_the_variant() {
    assert_eq!(debug_render(Data::Int(3)), "Int(3)");
    assert_eq!(debug_render(Data::Int(-10)), "Int(-10)");
    assert_eq!(debug_render(Data::Char('x')), "Char(x)");
}

#[test]
fn stack_rendering_ends_with_the_top_marker() {
    assert_eq!(render_stack(&vec![]), "<- Top");
    assert_eq!(render_stack(&vec![Data::Int(6)]), "6 <- Top");
    assert_eq!(
        render_stack(&vec![Data::Int(1), Data::Char('a'), Data::Int(-2)]),
        "1 a -2 <- Top"
    );
}
