use lser::commons::{decimal, parse_u16, str_eq, tokenize, Lexer};

fn chars(s: &str) -> Vec<char> {
    s.chars().collect()
}

#[test]
fn next_token_upper_cases_words_and_skips_separators() {
    let text = chars("  hello, World!42 ");
    let mut lexer = Lexer::new(&text);
    assert_eq!(lexer.next_token(), Some("HELLO".to_string()));
    assert_eq!(lexer.next_token(), Some("WORLD".to_string()));
    assert_eq!(lexer.next_token(), Some("42".to_string()));
    assert_eq!(lexer.next_token(), None);
    assert!(lexer.content.is_empty());
}

#[test]
fn exhausted_lexer_stays_exhausted() {
    let text = chars("...;;");
    let mut lexer = Lexer::new(&text);
    assert_eq!(lexer.next(), None);
    assert!(lexer.content.is_empty());
    assert_eq!(lexer.next(), None);
}

#[test]
fn lexer_leaves_rest_after_token() {
    let text = chars("ab-cd");
    let mut lexer = Lexer::new(&text);
    assert_eq!(lexer.next_token(), Some("AB".to_string()));
    assert_eq!(lexer.content, &['-', 'c', 'd'][..]);
}

#[test]
fn unicode_letters_are_kept_and_not_upper_cased() {
    let text = chars("día ñu ÅSA");
    let mut lexer = Lexer::new(&text);
    assert_eq!(lexer.collect_tokens(), vec!["DíA".to_string(), "ñU".to_string(), "ÅSA".to_string()]);
}

#[test]
fn tokenize_splits_at_every_separator() {
    assert_eq!(tokenize("a_b c"), vec!["A", "B", "C"]);
    assert_eq!(tokenize(""), Vec::<String>::new());
    assert_eq!(tokenize("rust2024 is-fun"), vec!["RUST2024", "IS", "FUN"]);
}

#[test]
fn tokenize_of_joined_parts_is_joined_tokens() {
    let a = "one two";
    let b = "three";
    let joined = format!("{} {}", a, b);
    let mut both = tokenize(a);
    both.extend(tokenize(b));
    assert_eq!(tokenize(&joined), both);
}

#[test]
fn decimal_matches_std_formatting() {
    for n in [0usize, 7, 10, 42, 100, 65535, 1234567890, usize::MAX] {
        assert_eq!(decimal(n), n.to_string());
    }
}

#[test]
fn parse_u16_matches_std_parsing() {
    for s in ["0", "8000", "+80", "65535", "65536", "", "+", "-1", "12a", " 1", "007", "99999999999"] {
        assert_eq!(parse_u16(s), s.parse::<u16>().ok(), "input {:?}", s);
    }
}

#[test]
fn parse_of_decimal_round_trips() {
    for n in [0u16, 1, 9, 10, 443, 8000, 65535] {
        assert_eq!(parse_u16(&decimal(n as usize)), Some(n));
    }
}

#[test]
fn str_eq_compares_characters() {
    assert!(str_eq("abc", "abc"));
    assert!(!str_eq("abc", "abd"));
    assert!(!str_eq("abc", "ab"));
}
