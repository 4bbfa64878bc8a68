use wyw::keywords::{get_number_keywords, get_sorted_keywords};
use wyw::position::WithSpan;
use wyw::scanner::Scanner;
use wyw::token::{Token, TokenKind};

fn kinds(tokens: &Vec<WithSpan<Token>>) -> Vec<TokenKind> {
    tokens.iter().map(|token| token.get_value().kind()).collect()
}

fn spans(tokens: &Vec<WithSpan<Token>>) -> Vec<(usize, usize)> {
    tokens.iter().map(|token| (token.get_start(), token.get_end())).collect()
}

fn scan(source: &str) -> Vec<WithSpan<Token>> {
    let mut scanner = Scanner::new(source);
    let tokens = scanner.scan_tokens();
    for token in &tokens {
        println!("{:?}", token);
    }
    tokens
}

#[test]
fn scanner_init_scanner() {
    let scanner = Scanner::new("Hello");
    assert_eq!(*scanner.chars(), vec!['H', 'e', 'l', 'l', 'o']);
}

#[test]
fn scanner_test_ordered_keywords() {
    let keywords = get_sorted_keywords();
    let keys: Vec<Vec<char>> = keywords.into_iter().map(|(key, _)| key).collect();
    println!("{:?}", keys);
    for pair in keys.windows(2) {
        assert!(pair[0].len() >= pair[1].len());
    }
    assert_eq!(keys[0].len(), 4);
    assert_eq!(keys.len(), 47 + 40);
}

#[test]
fn test_scan_tokens() {
    let tokens = scan("吾有一言");
    assert_eq!(
        kinds(&tokens),
        vec![TokenKind::Decl, TokenKind::Number, TokenKind::Type, TokenKind::Eof]
    );
    assert_eq!(spans(&tokens), vec![(0, 6), (6, 9), (9, 12), (12, 12)]);
}

#[test]
fn scanner_test_scan_tokens_with_invalid_end() {
    let tokens = scan("吾有一数");
    assert_eq!(
        kinds(&tokens),
        vec![TokenKind::Decl, TokenKind::Number, TokenKind::Error, TokenKind::Eof]
    );
    assert_eq!(
        *tokens[2].get_value(),
        Token::Error("Unexpected character, maybe you need use 「」 or 『』 to wrap it.".to_string())
    );
}

#[test]
fn scanner_test_scan_tokens_with_invalid_mid() {
    let tokens = scan("有树有");
    assert_eq!(
        kinds(&tokens),
        vec![TokenKind::DeclShort, TokenKind::Error, TokenKind::DeclShort, TokenKind::Eof]
    );
}

#[test]
fn scanner_test_scan_number_token() {
    let tokens = scan("一百三十五");
    assert_eq!(kinds(&tokens), vec![TokenKind::Number, TokenKind::Eof]);
    assert_eq!(spans(&tokens), vec![(0, 15), (15, 15)]);
}

#[test]
fn scanner_test_scan_float_number_token() {
    let tokens = scan("一·三五");
    assert_eq!(kinds(&tokens), vec![TokenKind::Number, TokenKind::Eof]);
    assert_eq!(spans(&tokens), vec![(0, 11), (11, 11)]);
}

#[test]
fn scanner_test_scan_string_token() {
    let tokens = scan("「「一·三五」」");
    assert_eq!(kinds(&tokens), vec![TokenKind::String, TokenKind::Eof]);
    assert_eq!(spans(&tokens), vec![(6, 17), (23, 23)]);
}

#[test]
fn test_scan_double_string_token() {
    let tokens = scan("『一·三五』");
    assert_eq!(kinds(&tokens), vec![TokenKind::String, TokenKind::Eof]);
    assert_eq!(spans(&tokens), vec![(3, 14), (17, 17)]);
}

#[test]
fn scanner_test_scan_unterminated_string_token1() {
    let tokens = scan("「「一·三五」");
    assert_eq!(kinds(&tokens), vec![TokenKind::Error, TokenKind::Error, TokenKind::Eof]);
    assert_eq!(*tokens[0].get_value(), Token::Error("unterminated string.".to_string()));
    assert_eq!(spans(&tokens), vec![(0, 17), (17, 20), (20, 20)]);
}

#[test]
fn scanner_test_scan_unterminated_string_token2() {
    let tokens = scan("「「一·三五");
    assert_eq!(kinds(&tokens), vec![TokenKind::Error, TokenKind::Eof]);
    assert_eq!(*tokens[0].get_value(), Token::Error("unterminated string.".to_string()));
}

#[test]
fn scanner_test_scan_identifier() {
    let tokens = scan("「甲」");
    assert_eq!(kinds(&tokens), vec![TokenKind::Identifier, TokenKind::Eof]);
    assert_eq!(spans(&tokens), vec![(3, 6), (9, 9)]);
}

#[test]
fn scanner_test_scan_unterminated_identifier() {
    let tokens = scan("「甲");
    assert_eq!(kinds(&tokens), vec![TokenKind::Error, TokenKind::Eof]);
    assert_eq!(*tokens[0].get_value(), Token::Error("unterminated identifier.".to_string()));
}

#[test]
fn test_normal_scan_tokens() {
    let tokens = scan("吾有一言");
    assert_eq!(tokens.len(), 4);
    assert_eq!(tokens[0].get_line(), 1);
}

#[test]
fn test_scan_binary() {
    let tokens = scan("加一以二");
    assert_eq!(
        kinds(&tokens),
        vec![
            TokenKind::Plus,
            TokenKind::Number,
            TokenKind::PrepositionRight,
            TokenKind::Number,
            TokenKind::Eof
        ]
    );
}

#[test]
fn test_log() {
    let tokens = scan("書之");
    assert_eq!(kinds(&tokens), vec![TokenKind::Print, TokenKind::Eof]);
}

#[test]
fn test_assign() {
    let tokens = scan("昔之「甲」者今一是矣");
    assert_eq!(
        kinds(&tokens),
        vec![
            TokenKind::AssignFrom,
            TokenKind::Identifier,
            TokenKind::Conjunction,
            TokenKind::AssignTo,
            TokenKind::Number,
            TokenKind::Sure,
            TokenKind::Eof
        ]
    );
}

#[test]
fn test_if() {
    let tokens = scan("若二等於二者加一以五書之云云");
    assert_eq!(
        kinds(&tokens),
        vec![
            TokenKind::If,
            TokenKind::Number,
            TokenKind::EqualEqual,
            TokenKind::Number,
            TokenKind::Conjunction,
            TokenKind::Plus,
            TokenKind::Number,
            TokenKind::PrepositionRight,
            TokenKind::Number,
            TokenKind::Print,
            TokenKind::YunYun,
            TokenKind::Eof
        ]
    );
}

#[test]
fn test_define() {
    let tokens = scan("有數一名之曰「丙」");
    assert_eq!(
        kinds(&tokens),
        vec![
            TokenKind::DeclShort,
            TokenKind::Type,
            TokenKind::Number,
            TokenKind::NameIs,
            TokenKind::Identifier,
            TokenKind::Eof
        ]
    );
}

#[test]
fn keywords_test_ordered_keywords() {
    let keywords = get_sorted_keywords();
    let keys: Vec<Vec<char>> = keywords.into_iter().map(|(key, _)| key).collect();
    assert_eq!(keys[0], vec!['中', '無', '陰', '乎']);
    assert_eq!(keys[1], vec!['中', '有', '陽', '乎']);
    assert_eq!(keys[2], vec!['吾', '有', '一', '術']);
    assert_eq!(keys[3], vec!['欲', '行', '是', '術']);
    assert_eq!(keys[4], vec!['名', '之', '曰']);
    assert_eq!(get_number_keywords().len(), 40);
}

#[test]
fn longer_keyword_wins() {
    let tokens = scan("吾有一術 若非 若 名之曰 曰");
    assert_eq!(
        kinds(&tokens),
        vec![
            TokenKind::Fun,
            TokenKind::Else,
            TokenKind::If,
            TokenKind::NameIs,
            TokenKind::Is,
            TokenKind::Eof
        ]
    );
}

#[test]
fn lines_are_counted() {
    let tokens = scan("書之\n書之。\n\n  書之");
    let lines: Vec<usize> = tokens.iter().map(|token| token.get_line()).collect();
    assert_eq!(lines, vec![1, 2, 4, 4]);
}
