use rox::scanner::Scanner;
use rox::token::TokenType;

#[test]
fn test_next() {
    let mut scanner = Scanner::new("abc".as_bytes());
    assert_eq!(b'a', scanner.next());
    assert_eq!(b'b', scanner.next());
    assert_eq!(b'c', scanner.next());
}

#[test]
fn scanner_test_peek() {
    let mut scanner = Scanner::new("abc".as_bytes());
    assert_eq!(b'a', scanner.peek());
    assert_eq!(b'a', scanner.peek());
    scanner.next();
    assert_eq!(b'b', scanner.peek());
    assert_eq!(b'b', scanner.peek());
}

#[test]
fn test_peek_next() {
    let mut scanner = Scanner::new("abc".as_bytes());
    assert_eq!(b'b', scanner.peek_next());
    assert_eq!(b'b', scanner.peek_next());
    scanner.next();
    assert_eq!(b'c', scanner.peek_next());
    assert_eq!(b'c', scanner.peek_next());
}

#[test]
fn test_match_type() {
    let mut scanner = Scanner::new("abc".as_bytes());
    assert!(scanner.match_type(b'a'));
    assert!(scanner.match_type(b'b'));
    assert!(scanner.match_type(b'c'));
    assert!(!scanner.match_type(b'a'));
}

#[test]
fn test_is_end() {
    let mut scanner = Scanner::new("abc".as_bytes());
    assert!(!scanner.is_end());
    scanner.next();
    scanner.next();
    scanner.next();
    assert!(scanner.is_end());
}

#[test]
fn test_skip_whitespace() {
    let mut scanner = Scanner::new("a   c".as_bytes());
    assert!(!scanner.is_end());
    scanner.next();
    scanner.skip_whitespace();
    scanner.next();
    assert!(scanner.is_end());
}

#[test]
fn test_number() {
    let mut scanner = Scanner::new("123".as_bytes());
    assert_eq!(TokenType::Number, scanner.scan_token().t_type);
}

#[test]
fn test_identifier() {
    let mut scanner = Scanner::new("var".as_bytes());
    assert_eq!(TokenType::Var, scanner.scan_token().t_type);
}

#[test]
fn scanner_test_string() {
    let mut scanner = Scanner::new("\"abc\"".as_bytes());
    assert_eq!(TokenType::Strings, scanner.scan_token().t_type);
}

#[test]
fn test_bool() {
    let mut scanner = Scanner::new("true false".as_bytes());
    assert_eq!(TokenType::True, scanner.scan_token().t_type);
    assert_eq!(TokenType::False, scanner.scan_token().t_type);
}

#[test]
fn test_nil() {
    let mut scanner = Scanner::new("nil".as_bytes());
    assert_eq!(TokenType::Nil, scanner.scan_token().t_type);
}
