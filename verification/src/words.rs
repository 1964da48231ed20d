use crate::lexer::bytes_eq;
use crate::lexer::is_letter_byte;
use crate::lexer::is_line_break;
use crate::lexer::spec_step;
use crate::lexer::token_matches;
use crate::lexer::Lexer;
use crate::lexer::SpecTok;
use crate::lexer::Token;
use crate::lexer::TokenType;
use crate::span::Span;
use vstd::prelude::*;
use vstd::slice::slice_index_get;

verus! {

/// A letter and its numeric value: the semantic unit of G-code, used for
/// arguments (`X3.14`), command numbers (`G90`) and line numbers (`N10`).
///
/// The value is kept as the exact bytes of the number token, which by
/// construction match the sign/digit/single-decimal grammar; turning them
/// into machine floating point is the caller's business.
#[derive(Debug, Clone, Copy)]
pub struct Word<'a> {
    /// The letter part of this word.
    pub letter: char,
    /// The value part, as the number's source bytes.
    pub value: &'a [u8],
    /// Where the word lies in the original text.
    pub span: Span,
}

impl<'a> Word<'a> {
    /// Create a new word.
    pub fn new(letter: char, value: &'a [u8], span: Span) -> (w: Word<'a>)
        ensures
            w.letter == letter,
            w.value == value,
            w.span == span,
    {
        Word { letter, value, span }
    }
}

impl<'a> PartialEq for Word<'a> {
    fn eq(&self, other: &Self) -> (r: bool) {
        self.letter == other.letter && bytes_eq(self.value, other.value) && self.span
            == other.span
    }
}

impl<'a> vstd::std_specs::cmp::PartialEqSpecImpl for Word<'a> {
    open spec fn obeys_eq_spec() -> bool {
        true
    }

    open spec fn eq_spec(&self, other: &Self) -> bool {
        self.letter == other.letter && self.value@ == other.value@ && self.span == other.span
    }
}

/// A comment, its delimiters included in `value`.
#[derive(Debug, Clone, Copy)]
pub struct Comment<'a> {
    pub value: &'a [u8],
    pub span: Span,
}

impl<'a> PartialEq for Comment<'a> {
    fn eq(&self, other: &Self) -> (r: bool) {
        bytes_eq(self.value, other.value) && self.span == other.span
    }
}

impl<'a> vstd::std_specs::cmp::PartialEqSpecImpl for Comment<'a> {
    open spec fn obeys_eq_spec() -> bool {
        true
    }

    open spec fn eq_spec(&self, other: &Self) -> bool {
        self.value@ == other.value@ && self.span == other.span
    }
}

/// One unit of the grouper's output.
#[derive(Debug, Clone, Copy)]
pub enum Atom<'a> {
    Word(Word<'a>),
    Comment(Comment<'a>),
    Newline(Token<'a>),
    /// An incomplete part of a [`Word`]: a letter or number token that could
    /// not be paired.
    BrokenWord(Token<'a>),
    /// Garbage from the tokenizer (see [`TokenType::Unknown`]).
    Unknown(Token<'a>),
}

impl<'a> PartialEq for Atom<'a> {
    fn eq(&self, other: &Self) -> (r: bool) {
        match (self, other) {
            (Atom::Word(a), Atom::Word(b)) => *a == *b,
            (Atom::Comment(a), Atom::Comment(b)) => *a == *b,
            (Atom::Newline(a), Atom::Newline(b)) => *a == *b,
            (Atom::BrokenWord(a), Atom::BrokenWord(b)) => *a == *b,
            (Atom::Unknown(a), Atom::Unknown(b)) => *a == *b,
            _ => false,
        }
    }
}

impl<'a> vstd::std_specs::cmp::PartialEqSpecImpl for Atom<'a> {
    open spec fn obeys_eq_spec() -> bool {
        true
    }

    open spec fn eq_spec(&self, other: &Self) -> bool {
        match (self, other) {
            (Atom::Word(a), Atom::Word(b)) => a.letter == b.letter && a.value@ == b.value@
                && a.span == b.span,
            (Atom::Comment(a), Atom::Comment(b)) => a.value@ == b.value@ && a.span == b.span,
            (Atom::Newline(a), Atom::Newline(b)) => a.kind == b.kind && a.value@ == b.value@
                && a.span == b.span,
            (Atom::BrokenWord(a), Atom::BrokenWord(b)) => a.kind == b.kind && a.value@ == b.value@
                && a.span == b.span,
            (Atom::Unknown(a), Atom::Unknown(b)) => a.kind == b.kind && a.value@ == b.value@
                && a.span == b.span,
            _ => false,
        }
    }
}

/// Two tokens that agree in kind, bytes and span.
pub open spec fn same_token<'a>(a: Token<'a>, b: Token<'a>) -> bool {
    a.kind == b.kind && a.value@ == b.value@ && a.span == b.span
}

/// Two pending-letter slots that agree.
pub open spec fn same_pending<'a>(a: Option<Token<'a>>, b: Option<Token<'a>>) -> bool {
    match (a, b) {
        (Some(x), Some(y)) => same_token(x, y),
        (None, None) => true,
        _ => false,
    }
}

/// The atom `a` passes the model token `s` through unchanged, under the tag
/// the grouper gives that kind of token.
pub open spec fn atom_passes_through<'a>(a: Atom<'a>, s: SpecTok, src: Seq<u8>) -> bool {
    match s.kind {
        TokenType::Unknown => a matches Atom::Unknown(t) && token_matches(t, s, src),
        TokenType::Newline => a matches Atom::Newline(t) && token_matches(t, s, src),
        TokenType::Comment => a matches Atom::Comment(c) && c.span.start == s.start && c.span.end
            == s.end && c.span.line == s.line && c.value@ == src.subrange(s.start, s.end),
        _ => false,
    }
}

/// The atom `a` is the word formed from a letter token spanning `lspan` and
/// the number token `s`: the letter character, the number's bytes, and the
/// smallest span covering both.
pub open spec fn atom_is_word<'a>(a: Atom<'a>, lspan: Span, s: SpecTok, src: Seq<u8>) -> bool {
    &&& a matches Atom::Word(w) && {
        &&& w.letter == (src[lspan.start as int] as char)
        &&& w.value@ == src.subrange(s.start, s.end)
        &&& w.span == lspan.spec_merge(
            Span { start: s.start as usize, end: s.end as usize, line: s.line as usize },
        )
    }
}

/// The word grouper: consumes the token stream of a [`Lexer`] and produces
/// [`Atom`]s. Comments, newlines and garbage pass straight through; a letter
/// is held back until a number pairs with it into a [`Word`]; whatever cannot
/// pair is flagged as [`Atom::BrokenWord`].
#[derive(Debug, Clone, Copy)]
pub struct WordsOrComments<'a> {
    pub tokens: Lexer<'a>,
    /// the last letter seen, kept so a trailing letter with no number can
    /// still be surfaced
    pub last_letter: Option<Token<'a>>,
}

impl<'a> WordsOrComments<'a> {
    /// The lexer is well formed and any pending letter is a one-byte letter
    /// token borrowed from the same source.
    pub open spec fn wf(self) -> bool {
        &&& self.tokens.wf()
        &&& match self.last_letter {
            Some(l) => {
                &&& l.kind == TokenType::Letter
                &&& l.span.end == l.span.start + 1
                &&& l.span.end <= self.tokens.src@.len()
                &&& is_letter_byte(self.tokens.src@[l.span.start as int])
                &&& l.value@ == self.tokens.src@.subrange(
                    l.span.start as int,
                    l.span.end as int,
                )
            },
            None => true,
        }
    }

    pub fn new(tokens: Lexer<'a>) -> (w: WordsOrComments<'a>)
        requires
            tokens.wf(),
        ensures
            w.wf(),
            w.tokens == tokens,
            w.last_letter is None,
    {
        WordsOrComments { tokens, last_letter: None }
    }

    /// Produce the next atom, or `None` once the tokens are exhausted and no
    /// letter is left pending.
    ///
    /// Comments and newlines are forwarded even while a letter is pending:
    /// the letter stays eligible to pair with a later number, so a word's
    /// span can cover an intervening comment or line break. When two letters
    /// meet, the second is flagged broken and the first stays pending. A
    /// trailing letter is flushed once as a final broken word.
    pub fn next(&mut self) -> (r: Option<Atom<'a>>)
        requires
            old(self).wf(),
        ensures
            final(self).wf(),
            final(self).tokens.src == old(self).tokens.src,
            ({
                let src = old(self).tokens.src@;
                let pos = old(self).tokens.current_position as int;
                let line = old(self).tokens.current_line as int;
                let pending = old(self).last_letter;
                match spec_step(src, pos, line) {
                    None => {
                        &&& final(self).tokens.current_position == src.len()
                        &&& final(self).last_letter is None
                        &&& match pending {
                            Some(l) => r matches Some(a) && (a matches Atom::BrokenWord(t)
                                && same_token(t, l)),
                            None => r is None,
                        }
                    },
                    Some(s1) => {
                        if s1.kind == TokenType::Letter && pending is None {
                            // the letter is absorbed; the grouper pulls again
                            match spec_step(src, s1.end, line) {
                                None => {
                                    &&& r matches Some(a) && (a matches Atom::BrokenWord(t)
                                        && token_matches(t, s1, src))
                                    &&& final(self).last_letter is None
                                    &&& final(self).tokens.current_position == src.len()
                                    &&& final(self).tokens.current_line == line
                                },
                                Some(s2) => {
                                    &&& final(self).tokens.current_position == s2.end
                                    &&& final(self).tokens.current_line == line + (
                                    if is_line_break(src, s2) {
                                        1int
                                    } else {
                                        0int
                                    })
                                    &&& if s2.kind == TokenType::Number {
                                        &&& r matches Some(a) && atom_is_word(
                                            a,
                                            Span {
                                                start: s1.start as usize,
                                                end: s1.end as usize,
                                                line: s1.line as usize,
                                            },
                                            s2,
                                            src,
                                        )
                                        &&& final(self).last_letter is None
                                    } else if s2.kind == TokenType::Letter {
                                        &&& r matches Some(a) && (a matches Atom::BrokenWord(t)
                                            && token_matches(t, s2, src))
                                        &&& final(self).last_letter matches Some(l2)
                                            && token_matches(l2, s1, src)
                                    } else {
                                        &&& r matches Some(a) && atom_passes_through(a, s2, src)
                                        &&& final(self).last_letter matches Some(l2)
                                            && token_matches(l2, s1, src)
                                    }
                                },
                            }
                        } else {
                            &&& final(self).tokens.current_position == s1.end
                            &&& final(self).tokens.current_line == line + (
                            if is_line_break(src, s1) {
                                1int
                            } else {
                                0int
                            })
                            &&& match pending {
                                Some(l) => {
                                    if s1.kind == TokenType::Number {
                                        &&& r matches Some(a) && atom_is_word(a, l.span, s1, src)
                                        &&& final(self).last_letter is None
                                    } else {
                                        // a second letter, or a pass-through
                                        // kind: the pending letter stays
                                        &&& r matches Some(a) && (
                                        if s1.kind == TokenType::Letter {
                                            a matches Atom::BrokenWord(t) && token_matches(
                                                t,
                                                s1,
                                                src,
                                            )
                                        } else {
                                            atom_passes_through(a, s1, src)
                                        })
                                        &&& final(self).last_letter matches Some(l2) && same_token(
                                            l2,
                                            l,
                                        )
                                    }
                                },
                                None => {
                                    // a bare number, or a pass-through kind
                                    &&& r matches Some(a) && (
                                    if s1.kind == TokenType::Number {
                                        a matches Atom::BrokenWord(t) && token_matches(t, s1, src)
                                    } else {
                                        atom_passes_through(a, s1, src)
                                    })
                                    &&& final(self).last_letter is None
                                },
                            }
                        }
                    },
                }
            }),
    {
        let first = self.tokens.next();
        match first {
            None => {
                match self.last_letter {
                    Some(l) => {
                        self.last_letter = None;
                        Some(Atom::BrokenWord(l))
                    },
                    None => None,
                }
            },
            Some(tok) => {
                match tok.kind {
                    TokenType::Unknown => Some(Atom::Unknown(tok)),
                    TokenType::Newline => Some(Atom::Newline(tok)),
                    TokenType::Comment => Some(
                        Atom::Comment(Comment { value: tok.value, span: tok.span }),
                    ),
                    TokenType::Number => {
                        match self.last_letter {
                            Some(l) => {
                                self.last_letter = None;
                                let lb = *slice_index_get(l.value, 0);
                                Some(
                                    Atom::Word(
                                        Word {
                                            letter: lb as char,
                                            value: tok.value,
                                            span: l.span.merge(tok.span),
                                        },
                                    ),
                                )
                            },
                            None => Some(Atom::BrokenWord(tok)),
                        }
                    },
                    TokenType::Letter => {
                        match self.last_letter {
                            Some(_) => Some(Atom::BrokenWord(tok)),
                            None => {
                                self.last_letter = Some(tok);
                                let second = self.tokens.next();
                                match second {
                                    None => {
                                        self.last_letter = None;
                                        Some(Atom::BrokenWord(tok))
                                    },
                                    Some(tok2) => {
                                        match tok2.kind {
                                            TokenType::Unknown => Some(Atom::Unknown(tok2)),
                                            TokenType::Newline => Some(Atom::Newline(tok2)),
                                            TokenType::Comment => Some(
                                                Atom::Comment(
                                                    Comment { value: tok2.value, span: tok2.span },
                                                ),
                                            ),
                                            TokenType::Number => {
                                                self.last_letter = None;
                                                let lb = *slice_index_get(tok.value, 0);
                                                Some(
                                                    Atom::Word(
                                                        Word {
                                                            letter: lb as char,
                                                            value: tok2.value,
                                                            span: tok.span.merge(tok2.span),
                                                        },
                                                    ),
                                                )
                                            },
                                            TokenType::Letter => Some(Atom::BrokenWord(tok2)),
                                        }
                                    },
                                }
                            },
                        }
                    },
                }
            },
        }
    }
}

} // verus!
