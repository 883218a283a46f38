use wiki_query::engine::tokenizer::{Token, TokenType, Tokenizer};

fn token_type(target: &str) -> TokenType {
    Tokenizer::from(target).next().token_type
}

fn all_tokens(target: &str) -> Vec<Token> {
    let mut tok = Tokenizer::from(target);
    let mut tokens = Vec::new();
    loop {
        let token = tok.next();
        let done = token.token_type == TokenType::Eof || token.token_type == TokenType::Error;
        tokens.push(token);
        if done {
            return tokens;
        }
    }
}

fn serialize(tokens: &[Token]) -> String {
    let mut out = String::new();
    for token in tokens {
        if !out.is_empty() {
            out.push(' ');
        }
        match token.token_type {
            TokenType::And => out.push('&'),
            TokenType::Or => out.push('|'),
            TokenType::BraceStart => out.push('('),
            TokenType::BraceEnd => out.push(')'),
            TokenType::Comma => out.push(','),
            TokenType::Name => out.push_str(token.content.as_ref().unwrap()),
            TokenType::Const => {
                out.push('"');
                for c in token.content.as_ref().unwrap().chars() {
                    if c == '"' || c == '\\' {
                        out.push('\\');
                    }
                    out.push(c);
                }
                out.push('"');
            }
            TokenType::Eof | TokenType::Error => {}
        }
    }
    out
}

#[test]
fn tokenizer_unit_test() {
    assert_eq!(token_type(""), TokenType::Eof);
    assert_eq!(token_type("123"), TokenType::Const);
    assert_eq!(token_type("asdf"), TokenType::Name);
    assert_eq!(token_type("\"zxcjklv\\\"zxbxcvb\""), TokenType::Const);
}

#[test]
fn tokenizer_test() {
    let mut tok = Tokenizer::from("title:startswith(\"abcd\")");
    assert_eq!(tok.next().token_type, TokenType::Name);
    assert_eq!(tok.next().token_type, TokenType::BraceStart);
    assert_eq!(tok.next().token_type, TokenType::Const);
    assert_eq!(tok.next().token_type, TokenType::BraceEnd);
    assert_eq!(tok.next().token_type, TokenType::Eof);
}

#[test]
fn tokenizer_punctuation_and_spaces() {
    let tokens = all_tokens("  ( ) & | ,  ");
    let kinds: Vec<TokenType> = tokens.iter().map(|t| t.token_type).collect();
    assert_eq!(
        kinds,
        vec![
            TokenType::BraceStart,
            TokenType::BraceEnd,
            TokenType::And,
            TokenType::Or,
            TokenType::Comma,
            TokenType::Eof
        ]
    );
    assert!(tokens.iter().all(|t| t.content.is_none()));
}

#[test]
fn tokenizer_name_keeps_colon_digits_and_dollar() {
    let mut tok = Tokenizer::from("title:contains $a_1:b2 x");
    let first = tok.next();
    assert_eq!(first.token_type, TokenType::Name);
    assert_eq!(first.content.as_deref(), Some("title:contains"));
    let second = tok.next();
    assert_eq!(second.token_type, TokenType::Name);
    assert_eq!(second.content.as_deref(), Some("$a_1:b2"));
    assert_eq!(tok.next().content.as_deref(), Some("x"));
    assert_eq!(tok.next().token_type, TokenType::Eof);
}

#[test]
fn tokenizer_number_is_constant_with_its_digits() {
    let mut tok = Tokenizer::from("0123abc");
    let number = tok.next();
    assert_eq!(number.token_type, TokenType::Const);
    assert_eq!(number.content.as_deref(), Some("0123"));
    let name = tok.next();
    assert_eq!(name.token_type, TokenType::Name);
    assert_eq!(name.content.as_deref(), Some("abc"));
}

#[test]
fn tokenizer_string_escapes() {
    let mut tok = Tokenizer::from("\"a\\nb\\tc\\\"d\\\\e\\qf\"");
    let token = tok.next();
    assert_eq!(token.token_type, TokenType::Const);
    assert_eq!(token.content.as_deref(), Some("a\nb\tc\"d\\eqf"));
    assert_eq!(tok.next().token_type, TokenType::Eof);
}

#[test]
fn tokenizer_string_keeps_unicode() {
    let mut tok = Tokenizer::from("\"동방\"");
    let token = tok.next();
    assert_eq!(token.token_type, TokenType::Const);
    assert_eq!(token.content.as_deref(), Some("동방"));
}

#[test]
fn tokenizer_unterminated_string_is_error() {
    assert_eq!(token_type("\"abc"), TokenType::Error);
    assert_eq!(token_type("\"abc\\"), TokenType::Error);
    let mut tok = Tokenizer::from("\"abc");
    assert_eq!(tok.next().token_type, TokenType::Error);
    assert_eq!(tok.next().token_type, TokenType::Eof);
}

#[test]
fn tokenizer_unknown_character_is_error() {
    assert_eq!(token_type("#"), TokenType::Error);
    assert_eq!(token_type("Abc"), TokenType::Error);
    let mut tok = Tokenizer::from("a %");
    assert_eq!(tok.next().token_type, TokenType::Name);
    assert_eq!(tok.next().token_type, TokenType::Error);
    assert_eq!(tok.next().token_type, TokenType::Error);
}

#[test]
fn tokenizer_lookup_does_not_consume() {
    let mut tok = Tokenizer::from("count ( x )");
    assert_eq!(tok.lookup(), TokenType::Name);
    assert_eq!(tok.lookup(), TokenType::Name);
    assert_eq!(tok.next().content.as_deref(), Some("count"));
    assert_eq!(tok.lookup(), TokenType::BraceStart);
    assert_eq!(tok.next().token_type, TokenType::BraceStart);
    assert_eq!(tok.lookup(), TokenType::Name);
    assert_eq!(tok.next().content.as_deref(), Some("x"));
    assert_eq!(tok.lookup(), TokenType::BraceEnd);
    assert_eq!(tok.next().token_type, TokenType::BraceEnd);
    assert_eq!(tok.lookup(), TokenType::Eof);
    assert_eq!(tok.next().token_type, TokenType::Eof);
    assert_eq!(tok.next().token_type, TokenType::Eof);
}

#[test]
fn tokenizer_round_trip() {
    let commands = [
        "count(set(flatten(map(title:contains(\"abc\"), category))))",
        "title:startswith(\"a\\\"b\\\\c\") & (title:endswith(\"x y\") | title:exact(\"z\"))",
        "f(1, 23, \"4\")",
        "  a|b  &c ",
        "",
    ];
    for command in commands {
        let first = all_tokens(command);
        assert_eq!(first.last().unwrap().token_type, TokenType::Eof);
        let again = all_tokens(&serialize(&first));
        assert_eq!(first.len(), again.len());
        for (a, b) in first.iter().zip(again.iter()) {
            assert_eq!(a.token_type, b.token_type);
            assert_eq!(a.content, b.content);
        }
    }
}
