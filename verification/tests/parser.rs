use wiki_query::engine::parser::{CommandExpressionNode, ParseError, Parser};
use wiki_query::engine::tokenizer::TokenType;

fn parse(target: &str) -> Result<CommandExpressionNode, ParseError> {
    Parser::from(target).parse()
}

#[test]
fn parser_test() {
    let mut p = Parser::from("title:startswith(\"abcd\")");
    let root = p.parse().unwrap();

    let n = &root.expr_and.expr_ors[0].expr_cases[0]
        .func
        .as_ref()
        .unwrap()
        .name;

    let s = root.expr_and.expr_ors[0].expr_cases[0]
        .func
        .as_ref()
        .unwrap()
        .clone()
        .args
        .as_ref()
        .unwrap()
        .args[0]
        .value
        .as_ref()
        .unwrap();

    assert_eq!(n, "title:startswith");
    assert_eq!(s, "abcd");
}

#[test]
fn parse_test_2() {
    let mut p = Parser::from("group_sum(reduce(title:contains(\"동방\"), category))");
    p.parse().unwrap();
    let mut p = Parser::from("count(set(reduce(title:contains(\"동방\"), category)))");
    p.parse().unwrap();
    let mut p = Parser::from("map(reduce(title:startswith(\"서든\") | title:endswith(\"어택\"), category), select_max_len)");
    p.parse().unwrap();
}

#[test]
fn parser_operands_are_flat_sequences() {
    let root = parse("a & b | c | d & e").unwrap();
    let ands = &root.expr_and.expr_ors;
    assert_eq!(ands.len(), 3);
    assert_eq!(ands[0].expr_cases.len(), 1);
    assert_eq!(ands[1].expr_cases.len(), 3);
    assert_eq!(ands[2].expr_cases.len(), 1);
    let names: Vec<&str> = ands[1]
        .expr_cases
        .iter()
        .map(|c| c.func.as_ref().unwrap().name.as_str())
        .collect();
    assert_eq!(names, vec!["b", "c", "d"]);
}

#[test]
fn parser_parentheses_nest() {
    let root = parse("(a | b) & c").unwrap();
    let ands = &root.expr_and.expr_ors;
    assert_eq!(ands.len(), 2);
    let case = &ands[0].expr_cases[0];
    assert!(case.func.is_none());
    let inner = case.expr_and.as_ref().unwrap();
    assert_eq!(inner.expr_ors.len(), 1);
    assert_eq!(inner.expr_ors[0].expr_cases.len(), 2);
}

#[test]
fn parser_use_and_empty_call() {
    let root = parse("category").unwrap();
    let func = root.expr_and.expr_ors[0].expr_cases[0].func.as_ref().unwrap();
    assert!(func.is_use);
    assert!(func.args.is_none());

    let root = parse("category()").unwrap();
    let func = root.expr_and.expr_ors[0].expr_cases[0].func.as_ref().unwrap();
    assert!(!func.is_use);
    assert!(func.args.is_none());
}

#[test]
fn parser_arguments_are_separated_by_commas() {
    let root = parse("f(\"a\", 12, g(h), x | y)").unwrap();
    let func = root.expr_and.expr_ors[0].expr_cases[0].func.as_ref().unwrap();
    let args = &func.args.as_ref().unwrap().args;
    assert_eq!(args.len(), 4);
    assert_eq!(args[0].value.as_deref(), Some("a"));
    assert_eq!(args[1].value.as_deref(), Some("12"));
    assert!(args[2].value.is_none());
    let g = args[2].expr_and.as_ref().unwrap().expr_ors[0].expr_cases[0]
        .func
        .as_ref()
        .unwrap();
    assert_eq!(g.name, "g");
    assert!(!g.is_use);
    let h = g.args.as_ref().unwrap().args[0].expr_and.as_ref().unwrap().expr_ors[0].expr_cases[0]
        .func
        .as_ref()
        .unwrap();
    assert_eq!(h.name, "h");
    assert!(h.is_use);
    assert_eq!(args[3].expr_and.as_ref().unwrap().expr_ors[0].expr_cases.len(), 2);
}

#[test]
fn parser_leaves_nodes_untyped() {
    let root = parse("count(a)").unwrap();
    assert!(root.semantic_type.is_none());
    assert!(root.expr_and.semantic_type.is_none());
    assert!(root.expr_and.expr_ors[0].semantic_type.is_none());
    assert!(root.expr_and.expr_ors[0].expr_cases[0].semantic_type.is_none());
}

#[test]
fn parser_rejects_trailing_token() {
    let e = parse("a b").unwrap_err();
    assert_eq!(e.expected, TokenType::Eof);
    assert_eq!(e.found.token_type, TokenType::Name);
    assert_eq!(e.found.content.as_deref(), Some("b"));

    let e = parse("a)").unwrap_err();
    assert_eq!(e.expected, TokenType::Eof);
    assert_eq!(e.found.token_type, TokenType::BraceEnd);
}

#[test]
fn parser_rejects_missing_brace() {
    let e = parse("(a | b").unwrap_err();
    assert_eq!(e.expected, TokenType::BraceEnd);
    assert_eq!(e.found.token_type, TokenType::Eof);

    let e = parse("f(a").unwrap_err();
    assert_eq!(e.expected, TokenType::BraceEnd);
    assert_eq!(e.found.token_type, TokenType::Eof);

    let e = parse("f(\"a\" \"b\")").unwrap_err();
    assert_eq!(e.expected, TokenType::BraceEnd);
    assert_eq!(e.found.token_type, TokenType::Const);
    assert_eq!(e.found.content.as_deref(), Some("b"));
}

#[test]
fn parser_rejects_missing_operand() {
    let e = parse("").unwrap_err();
    assert_eq!(e.expected, TokenType::Name);
    assert_eq!(e.found.token_type, TokenType::Eof);

    let e = parse("a &").unwrap_err();
    assert_eq!(e.expected, TokenType::Name);
    assert_eq!(e.found.token_type, TokenType::Eof);

    let e = parse("a | , b").unwrap_err();
    assert_eq!(e.expected, TokenType::Name);
    assert_eq!(e.found.token_type, TokenType::Comma);

    let e = parse("f(a,)").unwrap_err();
    assert_eq!(e.expected, TokenType::Name);
    assert_eq!(e.found.token_type, TokenType::BraceEnd);
}

#[test]
fn parser_reports_malformed_token() {
    let e = parse("f(\"abc)").unwrap_err();
    assert_eq!(e.expected, TokenType::Name);
    assert_eq!(e.found.token_type, TokenType::Error);

    let e = parse("a # b").unwrap_err();
    assert_eq!(e.expected, TokenType::Eof);
    assert_eq!(e.found.token_type, TokenType::Error);
}

#[test]
fn parser_is_deterministic() {
    let target = "count(set(flatten(map(title:contains(\"x\"), category)))) & (a | b)";
    let first = format!("{:?}", parse(target));
    let second = format!("{:?}", parse(target));
    assert_eq!(first, second);
}

#[test]
fn parse_error_messages() {
    assert_eq!(
        parse("a b").unwrap_err().message(),
        "Unexpected token: expected the end of the command, got a name \"b\"."
    );
    assert_eq!(
        parse("(a").unwrap_err().message(),
        "Unexpected token: expected ')', got the end of the command."
    );
    assert_eq!(
        parse("f(\"x\" 12)").unwrap_err().message(),
        "Unexpected token: expected ')', got a constant \"12\"."
    );
    assert_eq!(
        parse("a | &").unwrap_err().message(),
        "Unexpected token: expected a name, got '&'."
    );
    assert_eq!(
        parse("\"abc").unwrap_err().message(),
        "Unexpected token: expected a name, got a malformed token."
    );
}
