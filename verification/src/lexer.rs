use crate::span::Span;
use vstd::prelude::*;
use vstd::slice::slice_index_get;
use vstd::slice::slice_subrange;

verus! {

/// The byte values the classifier dispatches on.
pub const NEWLINE: u8 = 10;
pub const SEMICOLON: u8 = 59;
pub const LPAREN: u8 = 40;
pub const RPAREN: u8 = 41;
pub const DOT: u8 = 46;
pub const PLUS: u8 = 43;
pub const MINUS: u8 = 45;
pub const DIGIT_ZERO: u8 = 48;
pub const DIGIT_NINE: u8 = 57;


/// The class a single byte of source text falls into.
#[derive(Debug, Clone, Copy, PartialEq, Eq, Structural)]
pub enum TokenType {
    Letter,
    Number,
    Comment,
    Newline,
    Unknown,
}

pub open spec fn is_letter_byte(b: u8) -> bool {
    (65 <= b && b <= 90) || (97 <= b && b <= 122)
}

pub open spec fn is_digit_byte(b: u8) -> bool {
    DIGIT_ZERO <= b && b <= DIGIT_NINE
}

pub open spec fn is_sign_byte(b: u8) -> bool {
    b == PLUS || b == MINUS
}

/// Horizontal whitespace: the ASCII whitespace bytes other than `\n`.
pub open spec fn is_horizontal_ws(b: u8) -> bool {
    b == 9 || b == 11 || b == 12 || b == 13 || b == 32
}

/// The class of one byte: ASCII letters start letters, digits and `.`/`-`/`+`
/// start numbers, `(`/`;`/`)` belong to comments, `\n` is a newline, and
/// everything else is unrecognized.
pub open spec fn spec_classify(b: u8) -> TokenType {
    if is_letter_byte(b) {
        TokenType::Letter
    } else if is_digit_byte(b) || b == DOT || b == MINUS || b == PLUS {
        TokenType::Number
    } else if b == LPAREN || b == SEMICOLON || b == RPAREN {
        TokenType::Comment
    } else if b == NEWLINE {
        TokenType::Newline
    } else {
        TokenType::Unknown
    }
}

/// A byte that joins an unrecognized run: anything of class `Unknown`, plus a
/// stray `)`. A closing delimiter with no `(` before it opens no token, so it
/// is folded into the surrounding run instead of being dispatched on.
pub open spec fn is_garbage_byte(b: u8) -> bool {
    spec_classify(b) == TokenType::Unknown || b == RPAREN
}

impl TokenType {
    /// Classify one byte of source text.
    pub fn from_byte(b: u8) -> (t: TokenType)
        ensures
            t == spec_classify(b),
    {
        if (65 <= b && b <= 90) || (97 <= b && b <= 122) {
            TokenType::Letter
        } else if (DIGIT_ZERO <= b && b <= DIGIT_NINE) || b == DOT || b == MINUS || b == PLUS {
            TokenType::Number
        } else if b == LPAREN || b == SEMICOLON || b == RPAREN {
            TokenType::Comment
        } else if b == NEWLINE {
            TokenType::Newline
        } else {
            TokenType::Unknown
        }
    }
}

/// A predicate over bytes that [`Lexer::chomp`] advances through.
#[derive(Debug, Clone, Copy, PartialEq, Eq, Structural)]
pub enum Pred {
    /// ASCII whitespace (the lexer still never chomps past a newline).
    Whitespace,
    /// Any byte other than `\n`: the body of a `;` comment.
    NotNewline,
    /// Any byte other than `\n` and `)`: the body of a `(` comment.
    CommentBody,
    /// ASCII decimal digits.
    Digits,
}

pub open spec fn pred_holds(p: Pred, b: u8) -> bool {
    match p {
        Pred::Whitespace => is_horizontal_ws(b) || b == NEWLINE,
        Pred::NotNewline => b != NEWLINE,
        Pred::CommentBody => b != NEWLINE && b != RPAREN,
        Pred::Digits => is_digit_byte(b),
    }
}

impl Pred {
    pub fn holds(self, b: u8) -> (r: bool)
        ensures
            r == pred_holds(self, b),
    {
        match self {
            Pred::Whitespace => b == 9 || b == 11 || b == 12 || b == 13 || b == 32 || b == NEWLINE,
            Pred::NotNewline => b != NEWLINE,
            Pred::CommentBody => b != NEWLINE && b != RPAREN,
            Pred::Digits => DIGIT_ZERO <= b && b <= DIGIT_NINE,
        }
    }
}

/// Where a chomp that starts at `i` stops: the first position at or after `i`
/// whose byte fails `p` or is a newline, or else the end of the input.
pub open spec fn chomp_end(p: Pred, src: Seq<u8>, i: int) -> int
    decreases src.len() - i,
{
    if i < 0 || i >= src.len() {
        i
    } else if !pred_holds(p, src[i]) || src[i] == NEWLINE {
        i
    } else {
        chomp_end(p, src, i + 1)
    }
}

/// Where a run of unrecognized bytes that starts at `i` stops.
pub open spec fn garbage_end(src: Seq<u8>, i: int) -> int
    decreases src.len() - i,
{
    if i < 0 || i >= src.len() {
        i
    } else if !is_garbage_byte(src[i]) {
        i
    } else {
        garbage_end(src, i + 1)
    }
}

/// Where the digits-and-one-decimal-point tail of a number that starts at `i`
/// stops; `seen_decimal` records whether a `.` was already passed.
pub open spec fn num_rest_end(src: Seq<u8>, i: int, seen_decimal: bool) -> int
    decreases src.len() - i,
{
    if i < 0 || i >= src.len() {
        i
    } else if is_digit_byte(src[i]) {
        num_rest_end(src, i + 1, seen_decimal)
    } else if src[i] == DOT && !seen_decimal {
        num_rest_end(src, i + 1, true)
    } else {
        i
    }
}

/// Where the number that starts at `i` stops: a sign is legal only as the
/// very first byte, then digits with at most one `.`.
pub open spec fn number_end(src: Seq<u8>, i: int) -> int {
    if 0 <= i < src.len() && is_sign_byte(src[i]) {
        num_rest_end(src, i + 1, false)
    } else {
        num_rest_end(src, i, false)
    }
}

/// Where the horizontal whitespace run that starts at `i` stops.
pub open spec fn skip_ws_end(src: Seq<u8>, i: int) -> int {
    chomp_end(Pred::Whitespace, src, i)
}

pub proof fn lemma_chomp_end_bounds(p: Pred, src: Seq<u8>, i: int)
    requires
        0 <= i <= src.len(),
    ensures
        i <= chomp_end(p, src, i) <= src.len(),
    decreases src.len() - i,
{
    if i < src.len() && pred_holds(p, src[i]) && src[i] != NEWLINE {
        lemma_chomp_end_bounds(p, src, i + 1);
    }
}

pub proof fn lemma_garbage_end_bounds(src: Seq<u8>, i: int)
    requires
        0 <= i <= src.len(),
    ensures
        i <= garbage_end(src, i) <= src.len(),
    decreases src.len() - i,
{
    if i < src.len() && is_garbage_byte(src[i]) {
        lemma_garbage_end_bounds(src, i + 1);
    }
}

pub proof fn lemma_chomp_end_chars(p: Pred, src: Seq<u8>, i: int)
    requires
        0 <= i <= src.len(),
    ensures
        forall|k: int|
            i <= k < chomp_end(p, src, i) ==> pred_holds(p, src[k]) && src[k] != NEWLINE,
        chomp_end(p, src, i) < src.len() ==> (!pred_holds(p, src[chomp_end(p, src, i)]) || src[
            chomp_end(p, src, i)
        ] == NEWLINE),
    decreases src.len() - i,
{
    if i < src.len() && pred_holds(p, src[i]) && src[i] != NEWLINE {
        lemma_chomp_end_chars(p, src, i + 1);
        lemma_chomp_end_bounds(p, src, i + 1);
    }
}

pub proof fn lemma_garbage_end_chars(src: Seq<u8>, i: int)
    requires
        0 <= i <= src.len(),
    ensures
        forall|k: int| i <= k < garbage_end(src, i) ==> is_garbage_byte(src[k]),
        garbage_end(src, i) < src.len() ==> !is_garbage_byte(src[garbage_end(src, i)]),
    decreases src.len() - i,
{
    if i < src.len() && is_garbage_byte(src[i]) {
        lemma_garbage_end_chars(src, i + 1);
        lemma_garbage_end_bounds(src, i + 1);
    }
}

pub proof fn lemma_num_rest_end_bounds(src: Seq<u8>, i: int, seen_decimal: bool)
    requires
        0 <= i <= src.len(),
    ensures
        i <= num_rest_end(src, i, seen_decimal) <= src.len(),
    decreases src.len() - i,
{
    if i < src.len() && is_digit_byte(src[i]) {
        lemma_num_rest_end_bounds(src, i + 1, seen_decimal);
    } else if i < src.len() && src[i] == DOT && !seen_decimal {
        lemma_num_rest_end_bounds(src, i + 1, true);
    }
}

/// A token of the model: what one call of [`Lexer::next`] emits, described by
/// positions into the source rather than by a borrowed slice.
pub ghost struct SpecTok {
    pub kind: TokenType,
    pub start: int,
    pub end: int,
    pub line: int,
}

/// The token a lexer standing at byte `pos` of `src`, on line `line`, emits
/// next; `None` exactly when only whitespace is left.
pub open spec fn spec_step(src: Seq<u8>, pos: int, line: int) -> Option<SpecTok> {
    let p = skip_ws_end(src, pos);
    if p >= src.len() {
        None
    } else {
        let b = src[p];
        if is_garbage_byte(b) {
            Some(SpecTok { kind: TokenType::Unknown, start: p, end: garbage_end(src, p), line })
        } else if b == SEMICOLON {
            Some(
                SpecTok {
                    kind: TokenType::Comment,
                    start: p,
                    end: chomp_end(Pred::NotNewline, src, p),
                    line,
                },
            )
        } else if b == LPAREN {
            let e = chomp_end(Pred::CommentBody, src, p);
            if e >= src.len() {
                Some(SpecTok { kind: TokenType::Unknown, start: p, end: src.len() as int, line })
            } else if src[e] == RPAREN {
                Some(SpecTok { kind: TokenType::Comment, start: p, end: e + 1, line })
            } else {
                Some(SpecTok { kind: TokenType::Newline, start: p, end: e, line })
            }
        } else if spec_classify(b) == TokenType::Letter {
            Some(SpecTok { kind: TokenType::Letter, start: p, end: p + 1, line })
        } else if spec_classify(b) == TokenType::Number {
            Some(SpecTok { kind: TokenType::Number, start: p, end: number_end(src, p), line })
        } else {
            Some(SpecTok { kind: TokenType::Newline, start: p, end: p + 1, line })
        }
    }
}

/// A token that stands for an actual `\n` byte; only these advance the line
/// counter. An unterminated `(` comment cut off by a newline is also tagged
/// `Newline`, but its text is the comment body and it moves no line.
pub open spec fn is_line_break(src: Seq<u8>, t: SpecTok) -> bool {
    t.kind == TokenType::Newline && 0 <= t.start < src.len() && src[t.start] == NEWLINE
}

/// One classified region of the source text. `value` borrows exactly the
/// bytes the span covers, so no token outlives or outranges its source.
#[derive(Debug, Clone, Copy)]
pub struct Token<'a> {
    pub kind: TokenType,
    pub value: &'a [u8],
    pub span: Span,
}

/// `t` is the concrete token the model token `s` describes: same kind, same
/// span, and a value holding exactly the bytes the span covers.
pub open spec fn token_matches<'a>(t: Token<'a>, s: SpecTok, src: Seq<u8>) -> bool {
    &&& t.kind == s.kind
    &&& t.span.start == s.start
    &&& t.span.end == s.end
    &&& t.span.line == s.line
    &&& t.value@ == src.subrange(s.start, s.end)
}

/// Byte-for-byte equality of two slices.
pub fn bytes_eq(a: &[u8], b: &[u8]) -> (r: bool)
    ensures
        r == (a@ == b@),
{
    if a.len() != b.len() {
        proof {
            assert(a@.len() != b@.len());
        }
        return false;
    }
    let mut i: usize = 0;
    while i < a.len()
        invariant
            0 <= i <= a@.len(),
            a@.len() == b@.len(),
            forall|k: int| 0 <= k < i ==> a@[k] == b@[k],
        decreases a@.len() - i,
    {
        if *slice_index_get(a, i) != *slice_index_get(b, i) {
            proof {
                assert(a@[i as int] != b@[i as int]);
            }
            return false;
        }
        i = i + 1;
    }
    proof {
        assert(a@ =~= b@);
    }
    true
}

impl<'a> PartialEq for Token<'a> {
    fn eq(&self, other: &Self) -> (r: bool) {
        self.kind == other.kind && bytes_eq(self.value, other.value) && self.span == other.span
    }
}

impl<'a> vstd::std_specs::cmp::PartialEqSpecImpl for Token<'a> {
    open spec fn obeys_eq_spec() -> bool {
        true
    }

    open spec fn eq_spec(&self, other: &Self) -> bool {
        self.kind == other.kind && self.value@ == other.value@ && self.span == other.span
    }
}

/// The tokenizer: a cursor over the source bytes plus the zero-based line the
/// cursor stands on. It borrows the source and copies none of it.
#[derive(Debug, Clone, Copy)]
pub struct Lexer<'a> {
    pub src: &'a [u8],
    pub current_position: usize,
    pub current_line: usize,
}

impl<'a> Lexer<'a> {
    /// The cursor never passes the end of the source, and the line counter
    /// never outruns the cursor (a line needs at least its `\n` byte).
    pub open spec fn wf(self) -> bool {
        &&& self.current_position <= self.src@.len()
        &&& self.current_line <= self.current_position
    }

    pub fn new(src: &'a [u8]) -> (l: Lexer<'a>)
        ensures
            l.src == src,
            l.current_position == 0,
            l.current_line == 0,
            l.wf(),
    {
        Lexer { current_position: 0, current_line: 0, src }
    }

    /// Everything at and after the cursor.
    pub fn rest(&self) -> (r: &'a [u8])
        requires
            self.wf(),
        ensures
            r@ == self.src@.subrange(self.current_position as int, self.src@.len() as int),
    {
        slice_subrange(self.src, self.current_position, self.src.len())
    }

    pub fn finished(&self) -> (b: bool)
        ensures
            b == (self.current_position >= self.src@.len()),
    {
        self.current_position >= self.src.len()
    }

    /// The class of the byte under the cursor, or `None` at the end.
    pub fn peek(&self) -> (r: Option<TokenType>)
        requires
            self.wf(),
        ensures
            self.current_position < self.src@.len() ==> r == Some(
                spec_classify(self.src@[self.current_position as int]),
            ),
            self.current_position >= self.src@.len() ==> r is None,
    {
        if self.current_position < self.src.len() {
            Some(TokenType::from_byte(*slice_index_get(self.src, self.current_position)))
        } else {
            None
        }
    }

    /// Advance the cursor through bytes satisfying `pred`, never past a
    /// newline, and hand back the bytes passed over (`None` if the cursor did
    /// not move).
    pub fn chomp(&mut self, pred: Pred) -> (r: Option<&'a [u8]>)
        requires
            old(self).wf(),
        ensures
            final(self).wf(),
            final(self).src == old(self).src,
            final(self).current_line == old(self).current_line,
            old(self).current_position <= final(self).current_position,
            ({
                let e = chomp_end(pred, old(self).src@, old(self).current_position as int);
                &&& final(self).current_position == e
                &&& if e == old(self).current_position {
                    r is None
                } else {
                    r matches Some(s) && s@ == old(self).src@.subrange(
                        old(self).current_position as int,
                        e,
                    )
                }
            }),
    {
        let s: &[u8] = self.src;
        let start = self.current_position;
        let mut end = start;
        while end < s.len() && pred.holds(*slice_index_get(s, end)) && *slice_index_get(s, end)
            != NEWLINE
            invariant
                start <= end <= s@.len(),
                chomp_end(pred, s@, start as int) == chomp_end(pred, s@, end as int),
            decreases s@.len() - end,
        {
            end = end + 1;
        }
        if start == end {
            None
        } else {
            self.current_position = end;
            Some(slice_subrange(s, start, end))
        }
    }

    /// Move the cursor past horizontal whitespace. The line counter is not
    /// touched, and a newline is never consumed here.
    pub fn skip_whitespace(&mut self)
        requires
            old(self).wf(),
        ensures
            final(self).wf(),
            final(self).src == old(self).src,
            final(self).current_line == old(self).current_line,
            final(self).current_position == skip_ws_end(
                old(self).src@,
                old(self).current_position as int,
            ),
    {
        let _ = self.chomp(Pred::Whitespace);
    }

    /// Tokenize a comment under the cursor: `;` runs to the end of the line;
    /// `(` runs to `)` (a `Comment`), to `\n` (tagged `Newline`, the `\n`
    /// itself left for the next call), or to the end of the input (an
    /// `Unknown` fragment). Anything else moves nothing and yields `None`.
    pub fn tokenize_comment(&mut self) -> (r: Option<Token<'a>>)
        requires
            old(self).wf(),
        ensures
            final(self).wf(),
            final(self).src == old(self).src,
            final(self).current_line == old(self).current_line,
            ({
                let src = old(self).src@;
                let p = old(self).current_position as int;
                let line = old(self).current_line as int;
                if p < src.len() && src[p] == SEMICOLON {
                    let e = chomp_end(Pred::NotNewline, src, p);
                    &&& r matches Some(t) && token_matches(
                        t,
                        SpecTok { kind: TokenType::Comment, start: p, end: e, line },
                        src,
                    )
                    &&& final(self).current_position == e
                } else if p < src.len() && src[p] == LPAREN {
                    let e = chomp_end(Pred::CommentBody, src, p);
                    if e >= src.len() {
                        &&& r matches Some(t) && token_matches(
                            t,
                            SpecTok {
                                kind: TokenType::Unknown,
                                start: p,
                                end: src.len() as int,
                                line,
                            },
                            src,
                        )
                        &&& final(self).current_position == src.len()
                    } else if src[e] == RPAREN {
                        &&& r matches Some(t) && token_matches(
                            t,
                            SpecTok { kind: TokenType::Comment, start: p, end: e + 1, line },
                            src,
                        )
                        &&& final(self).current_position == e + 1
                    } else {
                        &&& r matches Some(t) && token_matches(
                            t,
                            SpecTok { kind: TokenType::Newline, start: p, end: e, line },
                            src,
                        )
                        &&& final(self).current_position == e
                    }
                } else {
                    &&& r is None
                    &&& final(self).current_position == old(self).current_position
                }
            }),
    {
        let s: &[u8] = self.src;
        let start = self.current_position;
        let line = self.current_line;
        if start < s.len() && *slice_index_get(s, start) == SEMICOLON {
            // the comment is every byte from `;` to `\n` or the end of input
            let _ = self.chomp(Pred::NotNewline);
            let end = self.current_position;
            Some(
                Token {
                    kind: TokenType::Comment,
                    value: slice_subrange(s, start, end),
                    span: Span { start, end, line },
                },
            )
        } else if start < s.len() && *slice_index_get(s, start) == LPAREN {
            // skip past the comment body; the cursor then stands on `)`, on
            // `\n`, or at the end of input
            let _ = self.chomp(Pred::CommentBody);
            let kind: TokenType;
            if self.current_position < s.len() {
                if *slice_index_get(s, self.current_position) == RPAREN {
                    // consume the closing paren
                    self.current_position = self.current_position + 1;
                    kind = TokenType::Comment;
                } else {
                    kind = TokenType::Newline;
                }
            } else {
                kind = TokenType::Unknown;
            }
            let end = self.current_position;
            Some(
                Token {
                    kind,
                    value: slice_subrange(s, start, end),
                    span: Span { start, end, line },
                },
            )
        } else {
            None
        }
    }

    /// Tokenize the single ASCII letter under the cursor, if there is one.
    pub fn tokenize_letter(&mut self) -> (r: Option<Token<'a>>)
        requires
            old(self).wf(),
        ensures
            final(self).wf(),
            final(self).src == old(self).src,
            final(self).current_line == old(self).current_line,
            ({
                let src = old(self).src@;
                let p = old(self).current_position as int;
                let line = old(self).current_line as int;
                if p < src.len() && is_letter_byte(src[p]) {
                    &&& r matches Some(t) && token_matches(
                        t,
                        SpecTok { kind: TokenType::Letter, start: p, end: p + 1, line },
                        src,
                    )
                    &&& final(self).current_position == p + 1
                } else {
                    &&& r is None
                    &&& final(self).current_position == old(self).current_position
                }
            }),
    {
        let s: &[u8] = self.src;
        let start = self.current_position;
        if start < s.len() {
            let b = *slice_index_get(s, start);
            if (65 <= b && b <= 90) || (97 <= b && b <= 122) {
                self.current_position = start + 1;
                return Some(
                    Token {
                        kind: TokenType::Letter,
                        value: slice_subrange(s, start, start + 1),
                        span: Span { start, end: start + 1, line: self.current_line },
                    },
                );
            }
        }
        None
    }

    /// Tokenize the number under the cursor: an optional leading sign, then a
    /// maximal run of digits holding at most one `.`. Yields `None`, moving
    /// nothing, when no number byte is under the cursor.
    pub fn tokenize_number(&mut self) -> (r: Option<Token<'a>>)
        requires
            old(self).wf(),
        ensures
            final(self).wf(),
            final(self).src == old(self).src,
            final(self).current_line == old(self).current_line,
            ({
                let src = old(self).src@;
                let p = old(self).current_position as int;
                let line = old(self).current_line as int;
                let e = number_end(src, p);
                if e != p {
                    &&& r matches Some(t) && token_matches(
                        t,
                        SpecTok { kind: TokenType::Number, start: p, end: e, line },
                        src,
                    )
                    &&& final(self).current_position == e
                } else {
                    &&& r is None
                    &&& final(self).current_position == old(self).current_position
                }
            }),
    {
        let s: &[u8] = self.src;
        let start = self.current_position;
        let line = self.current_line;
        let mut end = start;
        if end < s.len() {
            let b = *slice_index_get(s, end);
            if b == PLUS || b == MINUS {
                end = end + 1;
            }
        }
        let ghost rest_start = end as int;
        let mut seen_decimal = false;
        while end < s.len() && (is_digit_or_fresh_decimal(s, end, seen_decimal))
            invariant
                rest_start <= end <= s@.len(),
                num_rest_end(s@, rest_start, false) == num_rest_end(s@, end as int, seen_decimal),
            decreases s@.len() - end,
        {
            if *slice_index_get(s, end) == DOT {
                seen_decimal = true;
            }
            end = end + 1;
        }
        if start == end {
            None
        } else {
            self.current_position = end;
            Some(
                Token {
                    kind: TokenType::Number,
                    value: slice_subrange(s, start, end),
                    span: Span { start, end, line },
                },
            )
        }
    }

    /// Tokenize the `\n` under the cursor, advancing the line counter for all
    /// later tokens.
    pub fn tokenize_newline(&mut self) -> (r: Option<Token<'a>>)
        requires
            old(self).wf(),
            old(self).current_position < old(self).src@.len(),
            old(self).src@[old(self).current_position as int] == NEWLINE,
        ensures
            final(self).wf(),
            final(self).src == old(self).src,
            final(self).current_position == old(self).current_position + 1,
            final(self).current_line == old(self).current_line + 1,
            ({
                let src = old(self).src@;
                let p = old(self).current_position as int;
                let line = old(self).current_line as int;
                r matches Some(t) && token_matches(
                    t,
                    SpecTok { kind: TokenType::Newline, start: p, end: p + 1, line },
                    src,
                )
            }),
    {
        let s: &[u8] = self.src;
        let start = self.current_position;
        let line = self.current_line;
        proof {
            assert(start < s.len());
        }
        self.current_position = start + 1;
        self.current_line = line + 1;
        Some(
            Token {
                kind: TokenType::Newline,
                value: slice_subrange(s, start, start + 1),
                span: Span { start, end: start + 1, line },
            },
        )
    }

    /// Produce the next token, or `None` once only whitespace is left. Every
    /// byte sequence yields a token stream: unrecognized bytes come out as
    /// coalesced `Unknown` tokens rather than being dropped or failing.
    pub fn next(&mut self) -> (r: Option<Token<'a>>)
        requires
            old(self).wf(),
        ensures
            final(self).wf(),
            final(self).src == old(self).src,
            ({
                let src = old(self).src@;
                let pos = old(self).current_position as int;
                let line = old(self).current_line as int;
                match spec_step(src, pos, line) {
                    None => {
                        &&& r is None
                        &&& final(self).current_position == src.len()
                        &&& final(self).current_line == old(self).current_line
                    },
                    Some(s) => {
                        &&& r matches Some(t) && token_matches(t, s, src)
                        &&& final(self).current_position == s.end
                        &&& final(self).current_line == line + (if is_line_break(src, s) {
                            1int
                        } else {
                            0int
                        })
                    },
                }
            }),
    {
        self.skip_whitespace();
        let s: &[u8] = self.src;
        let start = self.current_position;
        let line = self.current_line;
        // cross a run of unrecognized bytes, coalescing it into one token
        while self.current_position < s.len() && is_garbage(s, self.current_position)
            invariant
                self.wf(),
                self.src == s,
                self.current_line == line,
                start <= self.current_position,
                start == self.current_position || is_garbage_byte(s@[start as int]),
                garbage_end(s@, start as int) == garbage_end(s@, self.current_position as int),
            decreases s@.len() - self.current_position,
        {
            self.current_position = self.current_position + 1;
        }
        let pos = self.current_position;
        if pos != start {
            // some garbage was crossed; surface it before dispatching
            return Some(
                Token {
                    kind: TokenType::Unknown,
                    value: slice_subrange(s, start, pos),
                    span: Span { start, end: pos, line },
                },
            );
        }
        if pos >= s.len() {
            return None;
        }
        let b = *slice_index_get(s, pos);
        if b == SEMICOLON || b == LPAREN {
            let r = self.tokenize_comment();
            match r {
                Some(t) => Some(t),
                None => {
                    proof {
                        assert(false);
                    }
                    None
                },
            }
        } else if (65 <= b && b <= 90) || (97 <= b && b <= 122) {
            let r = self.tokenize_letter();
            match r {
                Some(t) => Some(t),
                None => {
                    proof {
                        assert(false);
                    }
                    None
                },
            }
        } else if (DIGIT_ZERO <= b && b <= DIGIT_NINE) || b == DOT || b == MINUS || b == PLUS {
            let r = self.tokenize_number();
            match r {
                Some(t) => Some(t),
                None => {
                    proof {
                        lemma_num_rest_end_bounds(s@, pos as int + 1, false);
                        lemma_num_rest_end_bounds(s@, pos as int + 1, true);
                        assert(false);
                    }
                    None
                },
            }
        } else {
            self.tokenize_newline()
        }
    }
}

/// The byte at `i` may extend the digit tail of a number: a digit, or the
/// first `.` of the run.
fn is_digit_or_fresh_decimal(s: &[u8], i: usize, seen_decimal: bool) -> (r: bool)
    requires
        i < s@.len(),
    ensures
        r == (is_digit_byte(s@[i as int]) || (s@[i as int] == DOT && !seen_decimal)),
{
    let b = *slice_index_get(s, i);
    (DIGIT_ZERO <= b && b <= DIGIT_NINE) || (b == DOT && !seen_decimal)
}

/// The byte at `i` belongs to an unrecognized run.
fn is_garbage(s: &[u8], i: usize) -> (r: bool)
    requires
        i < s@.len(),
    ensures
        r == is_garbage_byte(s@[i as int]),
{
    let t = TokenType::from_byte(*slice_index_get(s, i));
    t == TokenType::Unknown || *slice_index_get(s, i) == RPAREN
}

} // verus!
