use gcode::Atom;
use gcode::Comment;
use gcode::Lexer;
use gcode::Span;
use gcode::Token;
use gcode::TokenType;
use gcode::Word;
use gcode::WordsOrComments;

#[test]
fn pass_comments_through() {
    let mut words = WordsOrComments::new(Lexer::new(b"(this is a comment) 3.14"));

    let got = words.next().unwrap();

    let comment = b"(this is a comment)";
    let expected = Atom::Comment(Comment {
        value: &comment[..],
        span: Span {
            start: 0,
            end: comment.len(),
            line: 0,
        },
    });
    assert_eq!(got, expected);
}

#[test]
fn pass_garbage_through() {
    let text = &b"!@#$ *"[..];
    let mut words = WordsOrComments::new(Lexer::new(text));

    let got = words.next().unwrap();

    let expected = Atom::Unknown(Token {
        value: text,
        kind: TokenType::Unknown,
        span: Span {
            start: 0,
            end: text.len(),
            line: 0,
        },
    });
    assert_eq!(got, expected);
}

#[test]
fn numbers_are_garbage_if_they_dont_have_a_letter_in_front() {
    let text = b"3.14 ()";
    let mut words = WordsOrComments::new(Lexer::new(text));

    let got = words.next().unwrap();

    let expected = Atom::BrokenWord(Token {
        value: &b"3.14"[..],
        kind: TokenType::Number,
        span: Span {
            start: 0,
            end: 4,
            line: 0,
        },
    });
    assert_eq!(got, expected);
}

#[test]
fn recognise_a_valid_word() {
    let text = b"G90";
    let mut words = WordsOrComments::new(Lexer::new(text));

    let got = words.next().unwrap();

    let expected = Atom::Word(Word {
        letter: 'G',
        value: &b"90"[..],
        span: Span {
            start: 0,
            end: text.len(),
            line: 0,
        },
    });
    assert_eq!(got, expected);
    match got {
        Atom::Word(w) => {
            let value: f32 = std::str::from_utf8(w.value).unwrap().parse().unwrap();
            assert_eq!(value, 90.0);
        }
        _ => unreachable!(),
    }
}
