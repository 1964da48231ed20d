use gcode::Lexer;
use gcode::Pred;
use gcode::Span;
use gcode::Token;
use gcode::TokenType;

#[test]
fn take_while_works_as_expected() {
    let mut lexer = Lexer::new(b"12345abcd");

    let got = lexer.chomp(Pred::Digits);

    assert_eq!(got, Some(&b"12345"[..]));
    assert_eq!(lexer.current_position, 5);
    assert_eq!(lexer.rest(), &b"abcd"[..]);
}

#[test]
fn skip_whitespace() {
    let mut lexer = Lexer::new(b"  \r\t  ");

    lexer.skip_whitespace();

    assert_eq!(lexer.current_position, lexer.src.len());
    assert_eq!(lexer.current_line, 0);
}

#[test]
fn respect_newlines() {
    let mut lexer = Lexer::new(b"\n\rM30garbage");

    let token = lexer.tokenize_newline().unwrap();

    assert_eq!(token.kind, TokenType::Newline);
    assert_eq!(lexer.current_position, 1);
    assert_eq!(lexer.current_line, 1);
}

#[test]
fn tokenize_a_semicolon_comment() {
    let mut lexer = Lexer::new(b"; this is a comment\nbut this is not");
    let newline = lexer.src.iter().position(|&b| b == b'\n').unwrap();

    let got = lexer.next().unwrap();

    assert_eq!(got.value, &b"; this is a comment"[..]);
    assert_eq!(got.kind, TokenType::Comment);
    assert_eq!(
        got.span,
        Span {
            start: 0,
            end: newline,
            line: 0
        }
    );
    assert_eq!(lexer.current_position, newline);
}

#[test]
fn tokenize_a_parens_comment() {
    let mut lexer = Lexer::new(b"( this is a comment) but this is not");
    let comment = b"( this is a comment)";

    let got = lexer.next().unwrap();

    assert_eq!(got.value, &comment[..]);
    assert_eq!(got.kind, TokenType::Comment);
    assert_eq!(
        got.span,
        Span {
            start: 0,
            end: comment.len(),
            line: 0
        }
    );
    assert_eq!(lexer.current_position, comment.len());
}

#[test]
fn unclosed_parens_are_garbage() {
    let mut lexer = Lexer::new(b"( missing a closing paren");

    let got = lexer.next().unwrap();

    assert_eq!(got.value, lexer.src);
    assert_eq!(got.kind, TokenType::Unknown);
    assert_eq!(got.span.end, lexer.src.len());
    assert_eq!(lexer.current_position, lexer.src.len());
}

#[test]
fn invalid_characters_are_all_garbage_until_next_valid_character() {
    let mut lexer = Lexer::new(b"$# ! @ x52");
    let expected = Token {
        value: &b"$# ! @ "[..],
        kind: TokenType::Unknown,
        span: Span::new(0, 7, 0),
    };

    let got = lexer.next().unwrap();

    assert_eq!(got, expected);
    assert_eq!(lexer.current_position, 7);
    let next = lexer.next().unwrap();
    assert_eq!(next.value, &b"x"[..]);
}

#[test]
fn tokenize_a_letter() {
    let mut lexer = Lexer::new(b"asd\nf");

    let got = lexer.next().unwrap();

    assert_eq!(got.value, &b"a"[..]);
    assert_eq!(got.kind, TokenType::Letter);
    assert_eq!(got.span.end, 1);
    assert_eq!(lexer.current_position, 1);
}

#[test]
fn normal_number() {
    let mut lexer = Lexer::new(b"3.14.56\nf");

    let got = lexer.next().unwrap();

    assert_eq!(got.value, &b"3.14"[..]);
    assert_eq!(got.kind, TokenType::Number);
    assert_eq!(got.span.end, 4);
    assert_eq!(lexer.current_position, 4);
}

#[test]
fn negative_number() {
    let mut lexer = Lexer::new(b"-3.14\nf");

    let got = lexer.next().unwrap();

    assert_eq!(got.value, &b"-3.14"[..]);
}

#[test]
fn positive_number() {
    let mut lexer = Lexer::new(b"+3.14\nf");

    let got = lexer.next().unwrap();

    assert_eq!(got.value, &b"+3.14"[..]);
}

#[test]
fn two_multi() {
    let mut lexer = Lexer::new(b"G0 X1\nG1 Y2");

    let got = lexer.next().unwrap();
    assert_eq!(got.value, &b"G"[..]);
    assert_eq!(got.span.line, 0);

    let got = lexer.next().unwrap();
    assert_eq!(got.value, &b"0"[..]);
    assert_eq!(got.span.line, 0);

    let got = lexer.next().unwrap();
    assert_eq!(got.value, &b"X"[..]);
    assert_eq!(got.span.line, 0);

    let got = lexer.next().unwrap();
    assert_eq!(got.value, &b"1"[..]);
    assert_eq!(got.span.line, 0);

    let got = lexer.next().unwrap();
    assert_eq!(got.value, &b"\n"[..]);

    let got = lexer.next().unwrap();
    assert_eq!(got.value, &b"G"[..]);
    assert_eq!(got.span.line, 1);

    let got = lexer.next().unwrap();
    assert_eq!(got.value, &b"1"[..]);
    assert_eq!(got.span.line, 1);

    let got = lexer.next().unwrap();
    assert_eq!(got.value, &b"Y"[..]);
    assert_eq!(got.span.line, 1);

    let got = lexer.next().unwrap();
    assert_eq!(got.value, &b"2"[..]);
    assert_eq!(got.span.line, 1);
}
