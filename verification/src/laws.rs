//! The stream-level guarantees of the tokenizer, stated and proved over the
//! model: [`spec_tokens`] is the whole token stream a [`crate::lexer::Lexer`]
//! emits, and the lemmas here say how its spans cover the input, how garbage
//! coalesces, and how line numbers are tracked.

use crate::lexer::is_garbage_byte;
use crate::lexer::is_horizontal_ws;
use crate::lexer::is_line_break;
use crate::lexer::lemma_chomp_end_bounds;
use crate::lexer::lemma_chomp_end_chars;
use crate::lexer::lemma_garbage_end_bounds;
use crate::lexer::lemma_garbage_end_chars;
use crate::lexer::lemma_num_rest_end_bounds;
use crate::lexer::skip_ws_end;
use crate::lexer::spec_classify;
use crate::lexer::spec_step;
use crate::lexer::Pred;
use crate::lexer::SpecTok;
use crate::lexer::TokenType;
use crate::lexer::LPAREN;
use crate::lexer::SEMICOLON;
use vstd::prelude::*;

verus! {

/// What one step of the lexer guarantees: the emitted token starts where the
/// skipped whitespace ends, is non-empty, stays within the input, reports the
/// line it was asked on, and skips nothing but horizontal whitespace.
pub proof fn lemma_step_bounds(src: Seq<u8>, pos: int, line: int)
    requires
        0 <= pos <= src.len(),
    ensures
        match spec_step(src, pos, line) {
            None => {
                &&& skip_ws_end(src, pos) == src.len()
                &&& forall|k: int| pos <= k < src.len() ==> is_horizontal_ws(src[k])
            },
            Some(s) => {
                &&& pos <= s.start < s.end <= src.len()
                &&& s.start == skip_ws_end(src, pos)
                &&& s.line == line
                &&& forall|k: int| pos <= k < s.start ==> is_horizontal_ws(src[k])
            },
        },
{
    lemma_chomp_end_bounds(Pred::Whitespace, src, pos);
    lemma_chomp_end_chars(Pred::Whitespace, src, pos);
    let p = skip_ws_end(src, pos);
    if p < src.len() {
        let b = src[p];
        if is_garbage_byte(b) {
            lemma_garbage_end_bounds(src, p + 1);
        } else if b == SEMICOLON {
            lemma_chomp_end_bounds(Pred::NotNewline, src, p + 1);
        } else if b == LPAREN {
            lemma_chomp_end_bounds(Pred::CommentBody, src, p + 1);
        } else if spec_classify(b) == TokenType::Number {
            lemma_num_rest_end_bounds(src, p + 1, false);
            lemma_num_rest_end_bounds(src, p + 1, true);
        }
    }
}

#[via_fn]
proof fn spec_tokens_decreases(src: Seq<u8>, pos: int, line: int) {
    if 0 <= pos <= src.len() {
        lemma_step_bounds(src, pos, line);
    }
}

/// Every token the lexer emits from byte `pos` on line `line` to the end of
/// the input, in order.
pub open spec fn spec_tokens(src: Seq<u8>, pos: int, line: int) -> Seq<SpecTok>
    decreases src.len() - pos,
        via spec_tokens_decreases
{
    if !(0 <= pos <= src.len()) {
        Seq::empty()
    } else {
        match spec_step(src, pos, line) {
            None => Seq::empty(),
            Some(s) => seq![s] + spec_tokens(
                src,
                s.end,
                line + if is_line_break(src, s) {
                    1int
                } else {
                    0int
                },
            ),
        }
    }
}

/// The spans in `toks` account for all of `src` from `pos` to the end: each
/// token is non-empty, spans are disjoint and strictly increasing in start
/// offset, and the only bytes between them are horizontal whitespace.
pub open spec fn covers(src: Seq<u8>, toks: Seq<SpecTok>, pos: int) -> bool
    decreases toks.len(),
{
    if toks.len() == 0 {
        forall|k: int| pos <= k < src.len() ==> is_horizontal_ws(src[k])
    } else {
        let t = toks[0];
        &&& pos <= t.start < t.end <= src.len()
        &&& (forall|k: int| pos <= k < t.start ==> is_horizontal_ws(src[k]))
        &&& covers(src, toks.drop_first(), t.end)
    }
}

/// Coverage: taken together, the token spans account for the entire input.
/// Each token covers at least one byte, consecutive spans never overlap and
/// strictly increase in start offset, and every byte left out of all spans is
/// horizontal whitespace that was skipped.
pub proof fn lemma_coverage(src: Seq<u8>, pos: int, line: int)
    requires
        0 <= pos <= src.len(),
    ensures
        covers(src, spec_tokens(src, pos, line), pos),
    decreases src.len() - pos,
{
    lemma_step_bounds(src, pos, line);
    match spec_step(src, pos, line) {
        None => {},
        Some(s) => {
            let line2 = line + if is_line_break(src, s) {
                1int
            } else {
                0int
            };
            lemma_coverage(src, s.end, line2);
            let toks = spec_tokens(src, pos, line);
            assert(toks[0] == s);
            assert(toks.drop_first() =~= spec_tokens(src, s.end, line2));
        },
    }
}

/// Garbage coalescing: an `Unknown` token that starts on an unrecognized
/// byte covers nothing but unrecognized bytes, and is maximal: the byte after
/// it, if any, is recognized, so a maximal unrecognized run always comes out
/// as one token and never as several.
pub proof fn lemma_garbage_coalescing(src: Seq<u8>, pos: int, line: int, i: int)
    requires
        0 <= pos <= src.len(),
        0 <= i < spec_tokens(src, pos, line).len(),
    ensures
        ({
            let t = spec_tokens(src, pos, line)[i];
            (t.kind == TokenType::Unknown && is_garbage_byte(src[t.start])) ==> {
                &&& forall|k: int| t.start <= k < t.end ==> is_garbage_byte(src[k])
                &&& t.end == src.len() || !is_garbage_byte(src[t.end])
            }
        }),
    decreases i,
{
    lemma_step_bounds(src, pos, line);
    match spec_step(src, pos, line) {
        None => {},
        Some(s) => {
            let line2 = line + if is_line_break(src, s) {
                1int
            } else {
                0int
            };
            let toks = spec_tokens(src, pos, line);
            if i == 0 {
                assert(toks[0] == s);
                if s.kind == TokenType::Unknown && is_garbage_byte(src[s.start]) {
                    lemma_garbage_end_chars(src, s.start);
                    lemma_garbage_end_bounds(src, s.start);
                }
            } else {
                lemma_garbage_coalescing(src, s.end, line2, i - 1);
                assert(toks[i] == spec_tokens(src, s.end, line2)[i - 1]);
            }
        },
    }
}

/// At the end of the input the lexer steps to nothing, whatever line it is
/// on. So once the grouper has flushed a trailing pending letter as a final
/// broken word, every later pull yields `None`: the flush happens exactly
/// once.
pub proof fn lemma_flush_is_final(src: Seq<u8>, line: int)
    ensures
        spec_step(src, src.len() as int, line) is None,
{
    lemma_chomp_end_bounds(Pred::Whitespace, src, src.len() as int);
}

/// How many of `toks` stand for actual `\n` bytes; only those advance the
/// line counter.
pub open spec fn nl_count(src: Seq<u8>, toks: Seq<SpecTok>) -> int
    decreases toks.len(),
{
    if toks.len() == 0 {
        0
    } else {
        (if is_line_break(src, toks[0]) {
            1int
        } else {
            0int
        }) + nl_count(src, toks.drop_first())
    }
}

/// Line tracking: the line number reported on a token equals the line the
/// stream started on plus the count of newline tokens emitted strictly before
/// it. A newline token here is one standing for an actual `\n` byte; the
/// `Newline` tag a cut-off `(` comment wears counts for no line.
pub proof fn lemma_line_tracking(src: Seq<u8>, pos: int, line: int, i: int)
    requires
        0 <= pos <= src.len(),
        0 <= i < spec_tokens(src, pos, line).len(),
    ensures
        spec_tokens(src, pos, line)[i].line == line + nl_count(
            src,
            spec_tokens(src, pos, line).take(i),
        ),
    decreases i,
{
    lemma_step_bounds(src, pos, line);
    match spec_step(src, pos, line) {
        None => {},
        Some(s) => {
            let line2 = line + if is_line_break(src, s) {
                1int
            } else {
                0int
            };
            let toks = spec_tokens(src, pos, line);
            let rest = spec_tokens(src, s.end, line2);
            assert(toks[0] == s);
            if i == 0 {
                assert(toks.take(0) =~= Seq::<SpecTok>::empty());
            } else {
                lemma_line_tracking(src, s.end, line2, i - 1);
                assert(toks[i] == rest[i - 1]);
                assert(toks.take(i)[0] == s);
                assert(toks.take(i).drop_first() =~= rest.take(i - 1));
            }
        },
    }
}

/// How many of `toks` wear the `Newline` tag, whatever byte they stand for.
pub open spec fn newline_tag_count(toks: Seq<SpecTok>) -> int
    decreases toks.len(),
{
    if toks.len() == 0 {
        0
    } else {
        (if toks[0].kind == TokenType::Newline {
            1int
        } else {
            0int
        }) + newline_tag_count(toks.drop_first())
    }
}

proof fn lemma_counts_agree(src: Seq<u8>, toks: Seq<SpecTok>)
    requires
        forall|j: int|
            0 <= j < toks.len() ==> ((#[trigger] toks[j]).kind == TokenType::Newline
                ==> is_line_break(src, toks[j])),
    ensures
        nl_count(src, toks) == newline_tag_count(toks),
    decreases toks.len(),
{
    if toks.len() > 0 {
        assert(forall|j: int|
            0 <= j < toks.drop_first().len() ==> #[trigger] toks.drop_first()[j] == toks[j + 1]);
        lemma_counts_agree(src, toks.drop_first());
    }
}

/// Line tracking, in terms of the tag alone: as long as no token mislabeled
/// by a cut-off `(` comment occurs, the line number reported on a token
/// equals the count of `Newline` tokens emitted strictly before it. (With
/// such a token in the stream this fails: the tag moves no line.)
pub proof fn lemma_line_tracking_by_tag(src: Seq<u8>, pos: int, line: int, i: int)
    requires
        0 <= pos <= src.len(),
        0 <= i < spec_tokens(src, pos, line).len(),
        forall|j: int|
            0 <= j < spec_tokens(src, pos, line).len() ==> ((#[trigger] spec_tokens(
                src,
                pos,
                line,
            )[j]).kind == TokenType::Newline ==> is_line_break(src, spec_tokens(src, pos, line)[j])),
    ensures
        spec_tokens(src, pos, line)[i].line == line + newline_tag_count(
            spec_tokens(src, pos, line).take(i),
        ),
{
    lemma_line_tracking(src, pos, line, i);
    let toks = spec_tokens(src, pos, line);
    assert(forall|j: int| 0 <= j < i ==> #[trigger] toks.take(i)[j] == toks[j]);
    lemma_counts_agree(src, toks.take(i));
}

} // verus!

