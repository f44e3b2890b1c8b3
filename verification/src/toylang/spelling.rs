//! Source texts as they are written down, and that the lexer reads back what was written.
use vstd::prelude::*;

use crate::text::{
    digits, is_digit, is_ident_char, is_ident_start, is_space, law_decimal_value_of_digits,
};
use crate::toylang::grammar::{program, registry_of};
use crate::toylang::lexer::{
    fits, in_run, lex, lex_from, lexeme_at, literals_fit_spec,
    pair_at, run_end, single, Run, Tok,
};
use crate::toylang::registry::RegistryView;
use crate::toylang::syntax::{items_of, law_program_read_back, program_toks, readable, ItemTree};

verus! {

/// How a token is written.
pub open spec fn tok_text(token: Tok) -> Seq<char> {
    match token {
        Tok::Ident(s) => s,
        Tok::LBrace => seq!['{'],
        Tok::RBrace => seq!['}'],
        Tok::LParen => seq!['('],
        Tok::RParen => seq![')'],
        Tok::LAngle => seq!['<'],
        Tok::RAngle => seq!['>'],
        Tok::Colon => seq![':'],
        Tok::DoubleColon => seq![':', ':'],
        Tok::Comma => seq![','],
        Tok::Ampersand => seq!['&'],
        Tok::Star => seq!['*'],
        Tok::Arrow => seq!['-', '>'],
        Tok::Dot => seq!['.'],
        Tok::Semicolon => seq![';'],
        Tok::Equals => seq!['='],
        Tok::IntLit(n) => digits(n as nat),
        Tok::Eof => Seq::empty(),
    }
}

/// Whether a token can be written: an identifier is a row of identifier characters that begins as
/// an identifier must, and an integer literal is not negative.
pub open spec fn writable(token: Tok) -> bool {
    match token {
        Tok::Ident(s) => {
            &&& s.len() > 0
            &&& is_ident_start(s[0]) && !is_space(s[0])
            &&& forall|k: int| 1 <= k < s.len() ==> is_ident_char(#[trigger] s[k])
        },
        Tok::IntLit(n) => n >= 0,
        Tok::Eof => false,
        _ => true,
    }
}

/// Whether a token ends in front of the character `next`.
pub open spec fn ends_before(token: Tok, next: char) -> bool {
    match token {
        Tok::Ident(_) => !is_ident_char(next),
        Tok::IntLit(_) => !is_digit(next),
        Tok::Colon => next != ':',
        _ => true,
    }
}

/// Whether a character with `next` behind it is passed over: it is white space, or no token and no
/// comment begins with it.
pub open spec fn passed_over(c: char, next: Option<char>) -> bool {
    is_space(c) || {
        &&& !is_digit(c)
        &&& single(c) is None
        &&& !is_ident_start(c)
        &&& !(c == '-' && next == Some('>'))
        &&& !(c == '/' && next == Some('/'))
    }
}

/// A row of characters that are passed over, and comments up to the end of their line, with `next`
/// behind it. Only at the end of the text may a comment go without an end of the line.
pub open spec fn is_gap(s: Seq<char>, next: Option<char>) -> bool
    decreases s.len(),
{
    if s.len() == 0 {
        true
    } else if pair_at(s, 0, '/', '/') {
        let end = run_end(s, 2, Run::Comment);
        2 <= end <= s.len() && (end < s.len() || next is None) && is_gap(s.skip(end), next)
    } else {
        passed_over(
            s[0],
            if s.len() > 1 {
                Some(s[1])
            } else {
                next
            },
        ) && is_gap(s.skip(1), next)
    }
}

/// The character at `i`, if there is one.
pub open spec fn char_at(s: Seq<char>, i: int) -> Option<char> {
    if 0 <= i < s.len() {
        Some(s[i])
    } else {
        None
    }
}

/// Whether a text stands at `i`.
pub open spec fn text_at(s: Seq<char>, i: int, text: Seq<char>) -> bool {
    &&& 0 <= i <= i + text.len() <= s.len()
    &&& forall|k: int| 0 <= k < text.len() ==> s[i + k] == #[trigger] text[k]
}

pub proof fn lemma_text_split(s: Seq<char>, i: int, first: Seq<char>, second: Seq<char>)
    requires
        text_at(s, i, first + second),
    ensures
        text_at(s, i, first),
        text_at(s, i + first.len(), second),
{
    let text = first + second;
    assert forall|k: int| 0 <= k < first.len() implies s[i + k] == #[trigger] first[k] by {
        assert(text[k] == first[k]);
    }
    assert forall|k: int| 0 <= k < second.len() implies s[i + first.len() + k]
        == #[trigger] second[k] by {
        assert(text[first.len() + k] == second[k]);
    }
}

/// A run that ends inside a text, or at the end of both texts, ends at the same place where the
/// text stands in another one.
pub proof fn lemma_run_end_inside(s: Seq<char>, i: int, text: Seq<char>, k: int, run: Run)
    requires
        text_at(s, i, text),
        0 <= k <= text.len(),
        run_end(text, k, run) < text.len() || i + text.len() == s.len(),
    ensures
        run_end(s, i + k, run) == i + run_end(text, k, run),
    decreases text.len() - k,
{
    if k < text.len() {
        assert(s[i + k] == text[k]);
        if in_run(run, text[k]) {
            lemma_run_end_inside(s, i, text, k + 1, run);
        }
    }
}

/// A run ends where all its characters are through and the next one does not belong to it.
pub proof fn lemma_run_end_at(s: Seq<char>, i: int, end: int, run: Run)
    requires
        0 <= i <= end <= s.len(),
        forall|k: int| i <= k < end ==> in_run(run, #[trigger] s[k]),
        end < s.len() ==> !in_run(run, s[end]),
    ensures
        run_end(s, i, run) == end,
    decreases end - i,
{
    if i < end {
        assert(in_run(run, s[i]));
        lemma_run_end_at(s, i + 1, end, run);
    }
}

/// A gap holds no token.
proof fn lemma_gap_read(s: Seq<char>, i: int, gap: Seq<char>, next: Option<char>)
    requires
        text_at(s, i, gap),
        is_gap(gap, next),
        next == char_at(s, i + gap.len()),
    ensures
        lex_from(s, i) == lex_from(s, i + gap.len()),
    decreases gap.len(),
{
    if gap.len() > 0 {
        assert(s[i + 0] == gap[0]);
        if pair_at(gap, 0, '/', '/') {
            let end = run_end(gap, 2, Run::Comment);
            assert(s[i + 1] == gap[1]);
            lemma_run_end_inside(s, i, gap, 2, Run::Comment);
            assert(gap =~= gap.take(end) + gap.skip(end));
            lemma_text_split(s, i, gap.take(end), gap.skip(end));
            lemma_gap_read(s, i + end, gap.skip(end), next);
            assert(!is_space('/'));
            assert(lexeme_at(s, i) == (None::<Tok>, i + end));
        } else {
            if gap.len() > 1 {
                assert(s[i + 1] == gap[1]);
            }
            assert(gap =~= gap.take(1) + gap.skip(1));
            lemma_text_split(s, i, gap.take(1), gap.skip(1));
            lemma_gap_read(s, i + 1, gap.skip(1), next);
            assert(lexeme_at(s, i) == (None::<Tok>, i + 1));
        }
    }
}

/// A token is read back from its text.
proof fn lemma_token_read(s: Seq<char>, i: int, token: Tok)
    requires
        text_at(s, i, tok_text(token)),
        writable(token),
        i + tok_text(token).len() < s.len() ==> ends_before(
            token,
            s[i + tok_text(token).len()],
        ),
    ensures
        tok_text(token).len() > 0,
        lexeme_at(s, i) == (Some(token), i + tok_text(token).len()),
{
    let text = tok_text(token);
    let end = i + text.len();
    match token {
        Tok::Ident(name) => {
            assert(s[i + 0] == text[0]);
            assert forall|k: int| i + 1 <= k < end implies in_run(Run::Word, #[trigger] s[k]) by {
                assert(s[i + (k - i)] == text[k - i]);
            }
            lemma_run_end_at(s, i + 1, end, Run::Word);
            assert(s.subrange(i, end) =~= name) by {
                assert forall|k: int| 0 <= k < name.len() implies s.subrange(i, end)[k]
                    == name[k] by {
                    assert(s[i + k] == text[k]);
                }
            }
        },
        Tok::IntLit(n) => {
            law_decimal_value_of_digits(n as nat);
            assert(s[i + 0] == text[0]);
            assert(is_digit(text[0]));
            assert forall|k: int| i + 1 <= k < end implies in_run(Run::Digits, #[trigger] s[k]) by {
                assert(s[i + (k - i)] == text[k - i]);
                assert(is_digit(text[k - i]));
            }
            lemma_run_end_at(s, i + 1, end, Run::Digits);
            assert(s.subrange(i, end) =~= text) by {
                assert forall|k: int| 0 <= k < text.len() implies s.subrange(i, end)[k]
                    == text[k] by {
                    assert(s[i + k] == text[k]);
                }
            }
        },
        Tok::DoubleColon => {
            assert(s[i + 0] == text[0]);
            assert(s[i + 1] == text[1]);
        },
        Tok::Arrow => {
            assert(s[i + 0] == text[0]);
            assert(s[i + 1] == text[1]);
        },
        _ => {
            assert(s[i + 0] == text[0]);
        },
    }
}

/// The text of the tokens from `k` on, with the gap `gaps[k + 1]` behind token `k`.
pub open spec fn spelled_from(tokens: Seq<Tok>, gaps: Seq<Seq<char>>, k: int) -> Seq<char>
    decreases tokens.len() - k,
{
    if 0 <= k < tokens.len() {
        tok_text(tokens[k]) + (gaps[k + 1] + spelled_from(tokens, gaps, k + 1))
    } else {
        Seq::empty()
    }
}

/// The text of a row of tokens, with gaps in front of it, behind it and between the tokens.
pub open spec fn spelled(tokens: Seq<Tok>, gaps: Seq<Seq<char>>) -> Seq<char> {
    gaps[0] + spelled_from(tokens, gaps, 0)
}

/// Whether token `k` can be written, a gap follows it, and it does not run together with what is
/// written behind it.
pub open spec fn well_placed(tokens: Seq<Tok>, gaps: Seq<Seq<char>>, k: int) -> bool {
    let rest = spelled_from(tokens, gaps, k + 1);
    &&& writable(tokens[k])
    &&& is_gap(gaps[k + 1], char_at(rest, 0))
    &&& char_at(gaps[k + 1] + rest, 0) matches Some(next) ==> ends_before(tokens[k], next)
}

/// Whether a row of tokens can be written with these gaps: there is a gap in front of it, behind it
/// and between each two neighbours, maybe an empty one, and no two tokens run together.
pub open spec fn spellable(tokens: Seq<Tok>, gaps: Seq<Seq<char>>) -> bool {
    &&& gaps.len() == tokens.len() + 1
    &&& is_gap(gaps[0], char_at(spelled_from(tokens, gaps, 0), 0))
    &&& forall|k: int| 0 <= k < tokens.len() ==> #[trigger] well_placed(tokens, gaps, k)
}

/// A token and the gap behind it are read.
pub proof fn lemma_piece_read(s: Seq<char>, i: int, token: Tok, gap: Seq<char>)
    requires
        text_at(s, i, tok_text(token)),
        writable(token),
        char_at(s, i + tok_text(token).len()) matches Some(next) ==> ends_before(token, next),
        text_at(s, i + tok_text(token).len(), gap),
        is_gap(gap, char_at(s, i + tok_text(token).len() + gap.len())),
    ensures
        lex_from(s, i) == seq![token] + lex_from(s, i + tok_text(token).len() + gap.len()),
{
    let end = i + tok_text(token).len();
    lemma_token_read(s, i, token);
    lemma_gap_read(s, end, gap, char_at(s, end + gap.len()));
}

/// The tokens from `k` on are read back from their text.
proof fn lemma_spelled_read(s: Seq<char>, i: int, tokens: Seq<Tok>, gaps: Seq<Seq<char>>, k: int)
    requires
        spellable(tokens, gaps),
        0 <= k <= tokens.len(),
        text_at(s, i, spelled_from(tokens, gaps, k)),
        i + spelled_from(tokens, gaps, k).len() == s.len(),
    ensures
        lex_from(s, i) == tokens.skip(k).push(Tok::Eof),
    decreases tokens.len() - k,
{
    if k < tokens.len() {
        let text = tok_text(tokens[k]);
        let gap = gaps[k + 1];
        let rest = spelled_from(tokens, gaps, k + 1);
        assert(well_placed(tokens, gaps, k));
        lemma_text_split(s, i, text, gap + rest);
        let end = i + text.len();
        lemma_text_split(s, end, gap, rest);
        if end < s.len() {
            assert(s[end + 0] == (gap + rest)[0]);
        }
        if rest.len() > 0 {
            assert(s[end + gap.len() + 0] == rest[0]);
        }
        lemma_piece_read(s, i, tokens[k], gap);
        lemma_spelled_read(s, end + gap.len(), tokens, gaps, k + 1);
        assert(seq![tokens[k]] + tokens.skip(k + 1).push(Tok::Eof) =~= tokens.skip(k).push(
            Tok::Eof,
        ));
    } else {
        assert(tokens.skip(k).push(Tok::Eof) =~= seq![Tok::Eof]);
    }
}

/// A row of tokens is read back from its text, whatever white space, comments and characters that
/// mean nothing stand between the tokens.
pub proof fn law_tokens_read_back(tokens: Seq<Tok>, gaps: Seq<Seq<char>>)
    requires
        spellable(tokens, gaps),
    ensures
        lex(spelled(tokens, gaps)) == tokens.push(Tok::Eof),
{
    let s = spelled(tokens, gaps);
    assert(text_at(s, 0, s));
    let rest = spelled_from(tokens, gaps, 0);
    lemma_text_split(s, 0, gaps[0], rest);
    if rest.len() > 0 {
        let start = gaps[0].len() as int;
        assert(s[start + 0] == rest[0]);
    }
    lemma_gap_read(s, 0, gaps[0], char_at(rest, 0));
    lemma_spelled_read(s, gaps[0].len() as int, tokens, gaps, 0);
    assert(tokens.skip(0) =~= tokens);
}

/// The tokens of a program end with the end of the text.
proof fn lemma_program_toks_ended(items: Seq<ItemTree>, k: int)
    requires
        0 <= k <= items.len(),
    ensures
        program_toks(items, k).len() > 0,
        program_toks(items, k).last() == Tok::Eof,
    decreases items.len() - k,
{
    if k < items.len() {
        lemma_program_toks_ended(items, k + 1);
    }
}

/// A program is read back from its source text, whatever white space, comments and characters that
/// mean nothing stand between its tokens: the registry holds its definitions.
pub proof fn law_source_read_back(items: Seq<ItemTree>, gaps: Seq<Seq<char>>)
    requires
        forall|k: int| 0 <= k < items.len() ==> readable(#[trigger] items[k]),
        spellable(program_toks(items, 0).drop_last(), gaps),
    ensures
        ({
            let src = spelled(program_toks(items, 0).drop_last(), gaps);
            &&& program(lex(src)) == Ok::<RegistryView, Seq<char>>(registry_of(items_of(items)))
            &&& literals_fit_spec(src) <==> fits(program_toks(items, 0))
        }),
{
    let tokens = program_toks(items, 0);
    lemma_program_toks_ended(items, 0);
    law_tokens_read_back(tokens.drop_last(), gaps);
    assert(tokens.drop_last().push(Tok::Eof) =~= tokens);
    law_program_read_back(items);
}

} // verus!
