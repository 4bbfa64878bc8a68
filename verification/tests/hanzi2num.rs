use wyw::convert::hanzi2num::{
    compare_magnitude, get_digit, get_num_tokens, hanzi2num, parse, tokenize, write_decimal, EMultState, MutlStack,
    NumberToken, ParseResult, TT,
};

#[test]
fn test_hanzi2num_with_zero() {
    assert_eq!(
        hanzi2num("一極零二"),
        Some("1000000000000000000000000000000000000000000000002".to_owned())
    )
}

#[test]
fn test_hanzi2num_with_fraction() {
    assert_eq!(
        hanzi2num("一極零二又三漠"),
        Some("1000000000000000000000000000000000000000000000002.000000000003".to_owned())
    )
}

#[test]
fn test_hanzi2num_scientific() {
    assert_eq!(
        hanzi2num("一極零二京"),
        Some("1.00000000000000000000000000000002e+48".to_owned())
    )
}

#[test]
fn test_hanzi2num_long() {
    assert_eq!(
        hanzi2num("二十一京二千三百四十五兆六千七百八十億零九百萬零二百五十有一"),
        Some("212345678009000251".to_owned())
    )
}

#[test]
fn small_numbers() {
    assert_eq!(hanzi2num("一"), Some("1".to_owned()));
    assert_eq!(hanzi2num("零"), Some("0".to_owned()));
    assert_eq!(hanzi2num("十"), Some("10".to_owned()));
    assert_eq!(hanzi2num("十二"), Some("12".to_owned()));
    assert_eq!(hanzi2num("二十"), Some("20".to_owned()));
    assert_eq!(hanzi2num("一百三十五"), Some("135".to_owned()));
    assert_eq!(hanzi2num("一百零五"), Some("105".to_owned()));
    assert_eq!(hanzi2num("三千"), Some("3000".to_owned()));
    assert_eq!(hanzi2num("一·三五"), Some("1.35".to_owned()));
    assert_eq!(hanzi2num("負五"), Some("-5".to_owned()));
    assert_eq!(hanzi2num("三分"), Some("0.3".to_owned()));
}

#[test]
fn words_that_are_no_numbers() {
    assert_eq!(hanzi2num("甲"), None);
    assert_eq!(hanzi2num(""), None);
    assert_eq!(hanzi2num("又又"), None);
    assert_eq!(hanzi2num("負"), None);
    assert_eq!(hanzi2num("一a"), None);
    assert_eq!(hanzi2num("十又負一"), None);
}

#[test]
fn tokens_of_a_word() {
    let tokens = tokenize("負一十·二分").unwrap();
    let kinds: Vec<TT> = tokens.iter().map(|token| *token.kind()).collect();
    assert_eq!(
        kinds,
        vec![TT::BEGIN, TT::SIGN, TT::DIGIT, TT::IntMult, TT::DECIMAL, TT::DIGIT, TT::FracMult, TT::END]
    );
    assert_eq!(tokens[1].sign, Some(-1));
    assert_eq!(tokens[2].digit, Some('1'));
    assert_eq!(tokens[3].expr, Some(1));
    assert_eq!(tokens[6].expr, Some(-1));
    assert!(tokenize("一甲").is_none());
    assert_eq!(get_num_tokens('極').unwrap().expr, Some(48));
    assert_eq!(get_num_tokens('漠').unwrap().expr, Some(-12));
    assert_eq!(get_num_tokens('〇').unwrap().digit, Some('0'));
    assert_eq!(*get_num_tokens('有').unwrap().kind(), TT::DELIM);
    assert!(get_num_tokens('a').is_none());
}

#[test]
fn parsed_numbers_have_their_lowest_digit_first() {
    let number = parse(tokenize("一百二十三").unwrap()).unwrap();
    assert_eq!(number.sign(), 1);
    assert_eq!(number.exp(), 0);
    assert_eq!(*number.digits(), vec!['3', '2', '1']);
    assert_eq!(get_digit(&number, 0), '3');
    assert_eq!(get_digit(&number, 2), '1');
    assert_eq!(get_digit(&number, 3), '0');
    assert_eq!(get_digit(&number, -1), '0');
    let smaller = parse(tokenize("九十九").unwrap()).unwrap();
    assert_eq!(compare_magnitude(&number, &smaller), 1);
    assert_eq!(compare_magnitude(&smaller, &number), -1);
    assert_eq!(compare_magnitude(&number, &number), 0);
    assert_eq!(write_decimal(&number), "123");
    let fraction = parse(tokenize("負三分五釐").unwrap()).unwrap();
    assert_eq!(fraction.sign(), -1);
    assert_eq!(fraction.exp(), -2);
    assert_eq!(write_decimal(&fraction), "-0.35");
    assert!(parse(tokenize("又又").unwrap()).is_none());
}

#[test]
fn multiplier_stack_keeps_its_sum() {
    let mut stack = MutlStack::new();
    assert!(stack.is_empty());
    assert_eq!(stack.state(), EMultState::NONE);
    stack.push(4);
    stack.push(2);
    assert_eq!(stack.total(), 6);
    assert_eq!(stack.top(), 2);
    assert_eq!(stack.state(), EMultState::INT);
    assert!(stack.can_pop());
    stack.pop();
    assert_eq!(stack.total(), 4);
    stack.clear();
    stack.push(-3);
    assert_eq!(stack.state(), EMultState::FRAC);
    assert!(stack.can_push(3));
    stack.mark_done();
    assert_eq!(stack.state(), EMultState::DONE);
    assert_eq!(stack.total(), isize::MAX);
    assert!(!stack.can_push(1));
}

#[test]
fn parse_results_collect_digits() {
    let mut result = ParseResult::new();
    result.push_char('5');
    result.push(vec!['6', '7']);
    result.fill_zeros(5);
    assert_eq!(*result.digits(), vec!['5', '6', '7', '0', '0']);
    assert_eq!(result.exp(), 5);
    result.apply_sign(-1);
    assert_eq!(result.sign(), -1);
    result.reset_exp(-2);
    assert_eq!(result.exp(), -2);
    let token = NumberToken::new(TT::DIGIT, Some('4'), None, None);
    assert_eq!(*token.kind(), TT::DIGIT);
}
