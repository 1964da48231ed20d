use gcode::Atom;
use gcode::Lexer;
use gcode::Span;
use gcode::TokenType;
use gcode::WordsOrComments;

#[test]
fn word_is_formed_from_letter_then_number() {
    let mut words = WordsOrComments::new(Lexer::new(b"G90"));
    match words.next().unwrap() {
        Atom::Word(w) => {
            assert_eq!(w.letter, 'G');
            assert_eq!(w.value, &b"90"[..]);
            assert_eq!(w.span, Span::new(0, 3, 0));
        }
        other => panic!("expected a word, got {:?}", other),
    }
    assert!(words.next().is_none());
}

#[test]
fn double_letter_reports_second_and_pairs_first() {
    let mut words = WordsOrComments::new(Lexer::new(b"GG1"));

    // the first G goes pending; the second is flagged broken
    match words.next().unwrap() {
        Atom::BrokenWord(t) => {
            assert_eq!(t.kind, TokenType::Letter);
            assert_eq!(t.value, &b"G"[..]);
            assert_eq!(t.span, Span::new(1, 2, 0));
        }
        other => panic!("expected a broken word, got {:?}", other),
    }

    // the 1 pairs with the *first* G, so the word's span starts at 0
    match words.next().unwrap() {
        Atom::Word(w) => {
            assert_eq!(w.letter, 'G');
            assert_eq!(w.value, &b"1"[..]);
            assert_eq!(w.span, Span::new(0, 3, 0));
            let value: f32 = std::str::from_utf8(w.value).unwrap().parse().unwrap();
            assert_eq!(value, 1.0);
        }
        other => panic!("expected a word, got {:?}", other),
    }
    assert!(words.next().is_none());
}

#[test]
fn trailing_letter_flushes_exactly_one_broken_word() {
    let mut words = WordsOrComments::new(Lexer::new(b"G90 X"));

    assert!(matches!(words.next().unwrap(), Atom::Word(_)));
    match words.next().unwrap() {
        Atom::BrokenWord(t) => {
            assert_eq!(t.kind, TokenType::Letter);
            assert_eq!(t.value, &b"X"[..]);
        }
        other => panic!("expected a broken word, got {:?}", other),
    }
    assert!(words.next().is_none());
    assert!(words.next().is_none());
}

#[test]
fn pending_letter_survives_a_newline() {
    let mut words = WordsOrComments::new(Lexer::new(b"G\n90"));

    // the newline passes through while G stays pending
    match words.next().unwrap() {
        Atom::Newline(t) => assert_eq!(t.span, Span::new(1, 2, 0)),
        other => panic!("expected a newline, got {:?}", other),
    }

    // the number then pairs with G: the word's span crosses the newline
    match words.next().unwrap() {
        Atom::Word(w) => {
            assert_eq!(w.letter, 'G');
            assert_eq!(w.value, &b"90"[..]);
            assert_eq!(w.span, Span::new(0, 4, 0));
        }
        other => panic!("expected a word, got {:?}", other),
    }
    assert!(words.next().is_none());
}

#[test]
fn semicolon_comment_stops_before_the_newline() {
    let mut lexer = Lexer::new(b"; comment\nrest");

    let got = lexer.next().unwrap();
    assert_eq!(got.kind, TokenType::Comment);
    assert_eq!(got.value, &b"; comment"[..]);
    assert_eq!(got.span, Span::new(0, 9, 0));

    let got = lexer.next().unwrap();
    assert_eq!(got.kind, TokenType::Newline);
    assert_eq!(got.value, &b"\n"[..]);
    assert_eq!(got.span, Span::new(9, 10, 0));

    // tokenization carries on after the newline, one line further down
    let got = lexer.next().unwrap();
    assert_eq!(got.kind, TokenType::Letter);
    assert_eq!(got.value, &b"r"[..]);
    assert_eq!(got.span, Span::new(10, 11, 1));
}

#[test]
fn paren_comment_cut_off_by_newline_wears_the_newline_tag() {
    let mut lexer = Lexer::new(b"(x\ny");

    // the unterminated comment body comes out tagged Newline, and the real
    // newline is left for the next call
    let got = lexer.next().unwrap();
    assert_eq!(got.kind, TokenType::Newline);
    assert_eq!(got.value, &b"(x"[..]);
    assert_eq!(got.span, Span::new(0, 2, 0));

    let got = lexer.next().unwrap();
    assert_eq!(got.kind, TokenType::Newline);
    assert_eq!(got.value, &b"\n"[..]);

    let got = lexer.next().unwrap();
    assert_eq!(got.kind, TokenType::Letter);
    assert_eq!(got.span.line, 1);
}

#[test]
fn stray_close_paren_joins_the_garbage() {
    let mut lexer = Lexer::new(b"a)b");

    assert_eq!(lexer.next().unwrap().value, &b"a"[..]);

    let got = lexer.next().unwrap();
    assert_eq!(got.kind, TokenType::Unknown);
    assert_eq!(got.value, &b")"[..]);
    assert_eq!(got.span, Span::new(1, 2, 0));

    assert_eq!(lexer.next().unwrap().value, &b"b"[..]);
    assert!(lexer.next().is_none());
}

#[test]
fn garbage_run_with_inner_spaces_is_one_token() {
    let mut lexer = Lexer::new(b"$$ %%");

    let got = lexer.next().unwrap();
    assert_eq!(got.kind, TokenType::Unknown);
    assert_eq!(got.value, &b"$$ %%"[..]);
    assert_eq!(got.span, Span::new(0, 5, 0));
    assert!(lexer.next().is_none());
}

#[test]
fn lone_sign_is_still_a_number_token() {
    let mut lexer = Lexer::new(b"+x");

    let got = lexer.next().unwrap();
    assert_eq!(got.kind, TokenType::Number);
    assert_eq!(got.value, &b"+"[..]);

    let got = lexer.next().unwrap();
    assert_eq!(got.kind, TokenType::Letter);
    assert_eq!(got.value, &b"x"[..]);
}

#[test]
fn empty_and_blank_inputs_yield_nothing() {
    let mut lexer = Lexer::new(b"");
    assert!(lexer.next().is_none());

    let mut lexer = Lexer::new(b" \t\r ");
    assert!(lexer.next().is_none());
    assert_eq!(lexer.current_position, 4);

    let mut words = WordsOrComments::new(Lexer::new(b""));
    assert!(words.next().is_none());
}

#[test]
fn merged_spans_cover_both_parts() {
    let a = Span::new(2, 5, 1);
    let b = Span::new(7, 9, 3);
    assert_eq!(a.merge(b), Span::new(2, 9, 1));
    assert_eq!(b.merge(a), Span::new(2, 9, 1));
}

#[test]
fn peek_and_finished_track_the_cursor() {
    let mut lexer = Lexer::new(b"g1");
    assert_eq!(lexer.peek(), Some(TokenType::Letter));
    assert!(!lexer.finished());

    lexer.next().unwrap();
    assert_eq!(lexer.peek(), Some(TokenType::Number));
    assert_eq!(lexer.rest(), &b"1"[..]);

    lexer.next().unwrap();
    assert_eq!(lexer.peek(), None);
    assert!(lexer.finished());
}
