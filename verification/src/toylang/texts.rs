//! Laws about source texts as wholes: which tokens come out of a text, what two texts one after the
//! other mean, and that the text of a type stands for the type.
use vstd::prelude::*;

use crate::text::{decimal_value, is_digit, is_ident_char, join, law_leading_zeros};
use crate::toylang::grammar::{
    lemma_type_forward, program, registry_of, type_at, with_item, ItemView,
};
use crate::toylang::lexer::{
    fits, in_run, law_lex_ended, lemma_lexeme_end, lemma_run_end, lex, lex_from, lexeme_at,
    literals_fit_spec, run_end, Run, Tok,
};
use crate::toylang::reading::{law_accepted_programs_are_written, lemma_type_written};
use crate::toylang::registry::RegistryView;
use crate::toylang::spelling::{
    char_at, is_gap, lemma_piece_read, lemma_run_end_at, lemma_run_end_inside, lemma_text_split,
    text_at, tok_text, writable,
};
use crate::toylang::syntax::{
    comma_if, item_toks, items_of, law_program_read_back, law_type_read_back, program_toks,
    readable, row_at, type_text, type_toks, types_text, types_toks, ItemTree, TypeTree,
};

verus! {

/// The number that digits stand for is not negative.
proof fn lemma_decimal_value(s: Seq<char>)
    requires
        forall|k: int| 0 <= k < s.len() ==> is_digit(#[trigger] s[k]),
    ensures
        decimal_value(s) >= 0,
    decreases s.len(),
{
    if s.len() > 0 {
        assert(is_digit(s[s.len() - 1]));
        assert forall|k: int| 0 <= k < s.drop_last().len() implies is_digit(
            #[trigger] s.drop_last()[k],
        ) by {
            assert(s.drop_last()[k] == s[k]);
        }
        lemma_decimal_value(s.drop_last());
    }
}

/// A token that stands in a text can be written.
proof fn lemma_lexeme_writable(s: Seq<char>, i: int)
    requires
        0 <= i < s.len(),
    ensures
        lexeme_at(s, i).0 matches Some(token) ==> writable(token),
{
    lemma_run_end(s, i + 1, Run::Digits);
    lemma_run_end(s, i + 1, Run::Word);
    match lexeme_at(s, i).0 {
        Some(Tok::Ident(name)) => {
            assert(name[0] == s[i]);
            assert forall|k: int| 1 <= k < name.len() implies is_ident_char(#[trigger] name[k]) by {
                assert(name[k] == s[i + k]);
            }
        },
        Some(Tok::IntLit(n)) => {
            let end = run_end(s, i + 1, Run::Digits);
            let digits = s.subrange(i, end);
            assert forall|k: int| 0 <= k < digits.len() implies is_digit(#[trigger] digits[k]) by {
                assert(digits[k] == s[i + k]);
            }
            lemma_decimal_value(digits);
        },
        _ => {},
    }
}

proof fn lemma_lex_from_writable(s: Seq<char>, i: int, k: int)
    requires
        0 <= i <= s.len(),
        0 <= k < lex_from(s, i).len(),
    ensures
        lex_from(s, i)[k] == Tok::Eof || writable(lex_from(s, i)[k]),
    decreases s.len() - i,
{
    if i < s.len() {
        lemma_lexeme_end(s, i);
        lemma_lexeme_writable(s, i);
        let (token, end) = lexeme_at(s, i);
        if token is Some {
            if k > 0 {
                lemma_lex_from_writable(s, end, k - 1);
            }
        } else {
            lemma_lex_from_writable(s, end, k);
        }
    }
}

/// The tokens of a text are such as can be written: an identifier begins as an identifier must,
/// each of its characters is alphanumeric or an underscore, and no integer literal is negative.
pub proof fn law_tokens_are_writable(s: Seq<char>, k: int)
    requires
        0 <= k < lex(s).len(),
    ensures
        lex(s)[k] == Tok::Eof || writable(lex(s)[k]),
        lex(s)[k] matches Tok::Ident(name) ==> forall|j: int|
            0 <= j < name.len() ==> is_ident_char(#[trigger] name[j]),
{
    lemma_lex_from_writable(s, 0, k);
}

/// Two texts with a line break between them.
pub open spec fn on_two_lines(a: Seq<char>, b: Seq<char>) -> Seq<char> {
    a + seq!['\n'] + b
}

/// No run goes on over a line break.
proof fn lemma_run_end_before_break(a: Seq<char>, b: Seq<char>, i: int, run: Run)
    requires
        0 <= i <= a.len(),
    ensures
        run_end(on_two_lines(a, b), i, run) == run_end(a, i, run),
    decreases a.len() - i,
{
    let s = on_two_lines(a, b);
    if i < a.len() {
        assert(s[i] == a[i]);
        lemma_run_end_before_break(a, b, i + 1, run);
    } else {
        assert(s[i] == '\n');
    }
}

/// What stands in front of the line break stands there without it, too.
proof fn lemma_lexeme_before_break(a: Seq<char>, b: Seq<char>, i: int)
    requires
        0 <= i < a.len(),
    ensures
        lexeme_at(on_two_lines(a, b), i) == lexeme_at(a, i),
{
    let s = on_two_lines(a, b);
    assert(s[i] == a[i]);
    if i + 1 < a.len() {
        assert(s[i + 1] == a[i + 1]);
    } else {
        assert(s[i + 1] == '\n');
    }
    lemma_run_end(a, i + 1, Run::Digits);
    lemma_run_end(a, i + 1, Run::Word);
    lemma_run_end_before_break(a, b, i + 1, Run::Digits);
    lemma_run_end_before_break(a, b, i + 1, Run::Word);
    if i + 2 <= a.len() {
        lemma_run_end_before_break(a, b, i + 2, Run::Comment);
    }
    let digits_end = run_end(a, i + 1, Run::Digits);
    let word_end = run_end(a, i + 1, Run::Word);
    assert(s.subrange(i, digits_end) =~= a.subrange(i, digits_end));
    assert(s.subrange(i, word_end) =~= a.subrange(i, word_end));
}

/// A part of a text at the end of another one.
proof fn lemma_part_shifted(s: Seq<char>, offset: int, b: Seq<char>, j: int, end: int)
    requires
        text_at(s, offset, b),
        0 <= j <= end <= b.len(),
    ensures
        s.subrange(offset + j, offset + end) == b.subrange(j, end),
{
    let part = b.subrange(j, end);
    let found = s.subrange(offset + j, offset + end);
    assert forall|k: int| 0 <= k < part.len() implies found[k] == #[trigger] part[k] by {
        assert(s[offset + (j + k)] == b[j + k]);
    }
    assert(found =~= part);
}

/// What stands at the end of a text stands there on its own, too.
proof fn lemma_lexeme_shifted(s: Seq<char>, offset: int, b: Seq<char>, j: int)
    requires
        text_at(s, offset, b),
        offset + b.len() == s.len(),
        0 <= j < b.len(),
    ensures
        lexeme_at(s, offset + j) == (lexeme_at(b, j).0, offset + lexeme_at(b, j).1),
{
    assert(s[offset + j] == b[j]);
    if j + 1 < b.len() {
        assert(s[offset + (j + 1)] == b[j + 1]);
    }
    lemma_run_end(b, j + 1, Run::Digits);
    lemma_run_end(b, j + 1, Run::Word);
    lemma_run_end_inside(s, offset, b, j + 1, Run::Digits);
    lemma_run_end_inside(s, offset, b, j + 1, Run::Word);
    if j + 2 <= b.len() {
        lemma_run_end_inside(s, offset, b, j + 2, Run::Comment);
    }
    let digits_end = run_end(b, j + 1, Run::Digits);
    let word_end = run_end(b, j + 1, Run::Word);
    lemma_part_shifted(s, offset, b, j, digits_end);
    lemma_part_shifted(s, offset, b, j, word_end);
}

proof fn lemma_lex_shifted(s: Seq<char>, offset: int, b: Seq<char>, j: int)
    requires
        text_at(s, offset, b),
        offset + b.len() == s.len(),
        0 <= j <= b.len(),
    ensures
        lex_from(s, offset + j) == lex_from(b, j),
    decreases b.len() - j,
{
    if j < b.len() {
        lemma_lexeme_end(b, j);
        lemma_lexeme_shifted(s, offset, b, j);
        lemma_lex_shifted(s, offset, b, lexeme_at(b, j).1);
    }
}

proof fn lemma_lex_joined(a: Seq<char>, b: Seq<char>, i: int)
    requires
        0 <= i <= a.len(),
    ensures
        lex_from(a, i).len() > 0,
        lex_from(on_two_lines(a, b), i) == lex_from(a, i).drop_last() + lex(b),
    decreases a.len() - i,
{
    let s = on_two_lines(a, b);
    if i < a.len() {
        lemma_lexeme_end(a, i);
        lemma_lexeme_before_break(a, b, i);
        let (token, end) = lexeme_at(a, i);
        lemma_lex_joined(a, b, end);
        if let Some(found) = token {
            let rest = lex_from(a, end);
            assert((seq![found] + rest).drop_last() =~= seq![found] + rest.drop_last());
            assert(seq![found] + (rest.drop_last() + lex(b)) =~= seq![found] + rest.drop_last()
                + lex(b));
        }
    } else {
        assert(s[i] == '\n');
        assert(lexeme_at(s, i) == (None::<Tok>, i + 1));
        assert(text_at(s, i + 1, b)) by {
            assert forall|k: int| 0 <= k < b.len() implies s[i + 1 + k] == #[trigger] b[k] by {}
        }
        lemma_lex_shifted(s, i + 1, b, 0);
        assert(seq![Tok::Eof].drop_last() + lex(b) =~= lex(b));
    }
}

/// The tokens of two texts with a line break between them are those of the first one, without its
/// end, and those of the second one.
pub proof fn law_texts_joined(a: Seq<char>, b: Seq<char>)
    ensures
        lex(on_two_lines(a, b)) == lex(a).drop_last() + lex(b),
        literals_fit_spec(on_two_lines(a, b)) <==> literals_fit_spec(a) && literals_fit_spec(b),
{
    lemma_lex_joined(a, b, 0);
    law_lex_ended(a);
    let first = lex(a);
    let both = lex(on_two_lines(a, b));
    let n = first.len() - 1;
    if fits(both) {
        assert forall|k: int| 0 <= k < first.len() implies (
        #[trigger] first[k] matches Tok::IntLit(m) ==> m <= i64::MAX) by {
            if k < n {
                assert(both[k] == first[k]);
            }
        }
        assert forall|k: int| 0 <= k < lex(b).len() implies (
        #[trigger] lex(b)[k] matches Tok::IntLit(m) ==> m <= i64::MAX) by {
            assert(both[n + k] == lex(b)[k]);
        }
    }
    if fits(first) && fits(lex(b)) {
        assert forall|k: int| 0 <= k < both.len() implies (
        #[trigger] both[k] matches Tok::IntLit(m) ==> m <= i64::MAX) by {
            if k < n {
                assert(both[k] == first[k]);
            } else {
                assert(both[k] == lex(b)[k - n]);
            }
        }
    }
}

/// Two registries one after the other: a definition of the second one takes the place of one of the
/// same name in the first.
pub open spec fn followed_by(first: RegistryView, second: RegistryView) -> RegistryView {
    RegistryView {
        structs: first.structs.union_prefer_right(second.structs),
        functions: first.functions.union_prefer_right(second.functions),
    }
}

proof fn lemma_registry_joined(first: Seq<ItemView>, second: Seq<ItemView>)
    ensures
        registry_of(first + second) == followed_by(registry_of(first), registry_of(second)),
    decreases second.len(),
{
    let all = first + second;
    let before = registry_of(first);
    if second.len() == 0 {
        assert(all =~= first);
        assert(registry_of(all) =~= followed_by(before, registry_of(second)));
    } else {
        lemma_registry_joined(first, second.drop_last());
        assert(all.drop_last() =~= first + second.drop_last());
        assert(all.last() == second.last());
        let shorter = registry_of(second.drop_last());
        let item = second.last();
        assert(with_item(followed_by(before, shorter), item) =~= followed_by(
            before,
            with_item(shorter, item),
        ));
    }
}

proof fn lemma_program_toks_joined(first: Seq<ItemTree>, second: Seq<ItemTree>, k: int)
    requires
        0 <= k <= first.len(),
    ensures
        program_toks(first, k).len() > 0,
        program_toks(first + second, k) == program_toks(first, k).drop_last() + program_toks(
            second,
            0,
        ),
    decreases first.len() - k,
{
    let all = first + second;
    if k < first.len() {
        lemma_program_toks_joined(first, second, k + 1);
        let head = item_toks(first[k]);
        let rest = program_toks(first, k + 1);
        assert(all[k] == first[k]);
        assert((head + rest).drop_last() =~= head + rest.drop_last());
        assert(head + (rest.drop_last() + program_toks(second, 0)) =~= head + rest.drop_last()
            + program_toks(second, 0));
    } else {
        lemma_program_toks_behind(first, second, 0);
        assert(seq![Tok::Eof].drop_last() + program_toks(second, 0) =~= program_toks(second, 0));
    }
}

proof fn lemma_program_toks_behind(first: Seq<ItemTree>, second: Seq<ItemTree>, k: int)
    requires
        0 <= k <= second.len(),
    ensures
        program_toks(first + second, first.len() + k) == program_toks(second, k),
    decreases second.len() - k,
{
    if k < second.len() {
        lemma_program_toks_behind(first, second, k + 1);
        assert((first + second)[first.len() + k] == second[k]);
    }
}

/// Two programs with a line break between them are a program with the definitions of both. Nothing
/// is lost and nothing added, and of two definitions with one name the later one counts.
pub proof fn law_programs_joined(a: Seq<char>, b: Seq<char>)
    requires
        program(lex(a)) is Ok,
        program(lex(b)) is Ok,
    ensures
        program(lex(on_two_lines(a, b))) == Ok::<RegistryView, Seq<char>>(
            followed_by(program(lex(a))->Ok_0, program(lex(b))->Ok_0),
        ),
        literals_fit_spec(on_two_lines(a, b)) <==> literals_fit_spec(a) && literals_fit_spec(b),
{
    law_texts_joined(a, b);
    law_lex_ended(a);
    law_lex_ended(b);
    let first = law_accepted_programs_are_written(lex(a));
    let second = law_accepted_programs_are_written(lex(b));
    let items = first + second;
    lemma_program_toks_joined(first, second, 0);
    assert forall|k: int| 0 <= k < items.len() implies readable(#[trigger] items[k]) by {
        if k < first.len() {
            assert(items[k] == first[k]);
        } else {
            assert(items[k] == second[k - first.len()]);
        }
    }
    law_program_read_back(items);
    assert(items_of(items) =~= items_of(first) + items_of(second));
    lemma_registry_joined(items_of(first), items_of(second));
}

/// Joining from the front.
proof fn lemma_join_front(first: Seq<char>, rest: Seq<Seq<char>>, sep: Seq<char>)
    ensures
        join(seq![first] + rest, sep) == if rest.len() == 0 {
            first
        } else {
            first + sep + join(rest, sep)
        },
    decreases rest.len(),
{
    let all = seq![first] + rest;
    if rest.len() == 1 {
        assert(all.drop_last() =~= seq![first]);
        assert(join(seq![first], sep) == first);
        assert(all.last() == rest[0]);
    } else if rest.len() > 1 {
        let fewer = rest.drop_last();
        assert(all.drop_last() =~= seq![first] + fewer);
        assert(all.last() == rest.last());
        lemma_join_front(first, fewer, sep);
        assert(first + sep + join(fewer, sep) + sep + rest.last() =~= first + sep + (join(
            fewer,
            sep,
        ) + sep + rest.last()));
    }
}

/// Whether what follows at `i` ends an identifier.
pub open spec fn ident_stops(s: Seq<char>, i: int) -> bool {
    char_at(s, i) matches Some(c) ==> !is_ident_char(c)
}

/// Whether each token of a row can be written.
pub open spec fn all_writable(row: Seq<Tok>) -> bool {
    forall|k: int| 0 <= k < row.len() ==> writable(#[trigger] row[k])
}

proof fn lemma_all_writable_split(first: Seq<Tok>, second: Seq<Tok>)
    requires
        all_writable(first + second),
    ensures
        all_writable(first),
        all_writable(second),
{
    let row = first + second;
    assert forall|k: int| 0 <= k < first.len() implies writable(#[trigger] first[k]) by {
        assert(row[k] == first[k]);
    }
    assert forall|k: int| 0 <= k < second.len() implies writable(#[trigger] second[k]) by {
        assert(row[first.len() + k] == second[k]);
    }
}

/// A token with nothing or a space behind it is read.
proof fn lemma_token_and_space(s: Seq<char>, i: int, token: Tok, space: bool)
    requires
        text_at(
            s,
            i,
            tok_text(token) + if space {
                seq![' ']
            } else {
                Seq::empty()
            },
        ),
        writable(token),
        token is Ident ==> space || ident_stops(s, i + tok_text(token).len()),
        token !is IntLit,
        token !is Colon,
    ensures
        lex_from(s, i) == seq![token] + lex_from(
            s,
            i + tok_text(token).len() + if space {
                1int
            } else {
                0
            },
        ),
{
    let text = tok_text(token);
    let gap = if space {
        seq![' ']
    } else {
        Seq::empty()
    };
    lemma_text_split(s, i, text, gap);
    let end = i + text.len();
    if space {
        assert(s[end + 0] == gap[0]);
        assert(gap.skip(1) =~= Seq::empty());
        assert(is_gap(gap.skip(1), char_at(s, end + 1)));
        assert(is_gap(gap, char_at(s, end + 1)));
    }
    lemma_piece_read(s, i, token, gap);
}

/// The text of a type is read as the tokens of the type.
proof fn lemma_type_text_read(s: Seq<char>, i: int, ty: TypeTree)
    requires
        text_at(s, i, type_text(ty)),
        all_writable(type_toks(ty)),
        ident_stops(s, i + type_text(ty).len()),
    ensures
        lex_from(s, i) == type_toks(ty) + lex_from(s, i + type_text(ty).len()),
    decreases ty, 1int,
{
    let end = i + type_text(ty).len();
    match ty {
        TypeTree::Ref { mutable, inner } => {
            let text = type_text(*inner);
            let row = type_toks(*inner);
            if mutable {
                reveal_strlit("&mut ");
                let head = seq!['&'] + ("mut"@ + seq![' ']);
                assert("&mut "@ =~= head) by {
                    reveal_strlit("mut");
                }
                let tokens = seq![Tok::Ampersand, Tok::Ident("mut"@)];
                lemma_all_writable_split(tokens, row);
                assert(writable(tokens[1]));
                lemma_text_split(s, i, head, text);
                lemma_text_split(s, i, seq!['&'], "mut"@ + seq![' ']);
                assert(seq!['&'] + Seq::<char>::empty() =~= seq!['&']);
                lemma_token_and_space(s, i, Tok::Ampersand, false);
                lemma_token_and_space(s, i + 1, Tok::Ident("mut"@), true);
                let start = i + 1 + "mut"@.len() + 1;
                lemma_type_text_read(s, start, *inner);
                assert(seq![Tok::Ampersand] + (seq![Tok::Ident("mut"@)] + (row + lex_from(s, end)))
                    =~= tokens + row + lex_from(s, end));
            } else {
                reveal_strlit("&");
                assert("&"@ =~= seq!['&']);
                lemma_all_writable_split(seq![Tok::Ampersand], row);
                lemma_text_split(s, i, seq!['&'], text);
                assert(seq!['&'] + Seq::<char>::empty() =~= seq!['&']);
                lemma_token_and_space(s, i, Tok::Ampersand, false);
                lemma_type_text_read(s, i + 1, *inner);
                assert(seq![Tok::Ampersand] + (row + lex_from(s, end)) =~= seq![Tok::Ampersand]
                    + row + lex_from(s, end));
            }
        },
        TypeTree::Ptr { mutable, inner } => {
            let text = type_text(*inner);
            let row = type_toks(*inner);
            let qualifier = if mutable {
                "mut"@
            } else {
                "const"@
            };
            reveal_strlit("*");
            reveal_strlit(" ");
            let head = seq!['*'] + (qualifier + seq![' ']);
            assert("*"@ + qualifier + " "@ =~= head);
            let tokens = seq![Tok::Star, Tok::Ident(qualifier)];
            lemma_all_writable_split(tokens, row);
            assert(writable(tokens[1]));
            lemma_text_split(s, i, head, text);
            lemma_text_split(s, i, seq!['*'], qualifier + seq![' ']);
            assert(seq!['*'] + Seq::<char>::empty() =~= seq!['*']);
            lemma_token_and_space(s, i, Tok::Star, false);
            lemma_token_and_space(s, i + 1, Tok::Ident(qualifier), true);
            lemma_type_text_read(s, i + 1 + qualifier.len() + 1, *inner);
            assert(seq![Tok::Star] + (seq![Tok::Ident(qualifier)] + (row + lex_from(s, end)))
                =~= tokens + row + lex_from(s, end));
        },
        TypeTree::Named { name, args } => {
            assert(writable(type_toks(ty)[0]));
            if args.len() == 0 {
                assert(name + Seq::<char>::empty() =~= name);
                lemma_token_and_space(s, i, Tok::Ident(name), false);
            } else {
                lemma_generic_text_read(s, i, ty);
            }
        },
    }
}

/// The text of a type with arguments is read as the tokens of the type.
proof fn lemma_generic_text_read(s: Seq<char>, i: int, ty: TypeTree)
    requires
        ty matches TypeTree::Named { args, .. } && args.len() > 0,
        text_at(s, i, type_text(ty)),
        all_writable(type_toks(ty)),
    ensures
        lex_from(s, i) == type_toks(ty) + lex_from(s, i + type_text(ty).len()),
    decreases ty, 0int,
{
    if let TypeTree::Named { name, args } = ty {
        let end = i + type_text(ty).len();
        let list = join(types_text(args, 0), ", "@);
        let row = types_toks(args, 0);
        reveal_strlit("<");
        reveal_strlit(">");
        assert("<"@ =~= seq!['<']);
        assert(">"@ =~= seq!['>']);
        let head = seq![Tok::Ident(name), Tok::LAngle];
        lemma_all_writable_split(head + row, seq![Tok::RAngle]);
        lemma_all_writable_split(head, row);
        assert(writable(head[0]));
        lemma_text_split(s, i, name + seq!['<'] + list, seq!['>']);
        lemma_text_split(s, i, name + seq!['<'], list);
        lemma_text_split(s, i, name, seq!['<']);
        let angle = i + name.len();
        assert(s[angle + 0] == seq!['<'][0]);
        assert(name + Seq::<char>::empty() =~= name);
        lemma_token_and_space(s, i, Tok::Ident(name), false);
        assert(seq!['<'] + Seq::<char>::empty() =~= seq!['<']);
        lemma_token_and_space(s, angle, Tok::LAngle, false);
        let close = angle + 1 + list.len();
        assert(s[close + 0] == seq!['>'][0]);
        lemma_types_text_read(s, angle + 1, args, 0);
        assert(seq!['>'] + Seq::<char>::empty() =~= seq!['>']);
        lemma_token_and_space(s, close, Tok::RAngle, false);
        assert(seq![Tok::Ident(name)] + (seq![Tok::LAngle] + (row + (seq![Tok::RAngle] + lex_from(
            s,
            end,
        )))) =~= head + row + seq![Tok::RAngle] + lex_from(s, end));
    }
}

/// The text of a list of types is read as the tokens of the list.
proof fn lemma_types_text_read(s: Seq<char>, i: int, types: Seq<TypeTree>, k: int)
    requires
        0 <= k < types.len(),
        text_at(s, i, join(types_text(types, k), ", "@)),
        all_writable(types_toks(types, k)),
        ident_stops(s, i + join(types_text(types, k), ", "@).len()),
    ensures
        lex_from(s, i) == types_toks(types, k) + lex_from(
            s,
            i + join(types_text(types, k), ", "@).len(),
        ),
    decreases types, types.len() - k,
{
    let text = type_text(types[k]);
    let first = type_toks(types[k]);
    let rest = types_text(types, k + 1);
    lemma_join_front(text, rest, ", "@);
    let end = i + join(types_text(types, k), ", "@).len();
    let comma = comma_if(k + 1 < types.len());
    let row = types_toks(types, k + 1);
    lemma_all_writable_split(first + comma, row);
    lemma_all_writable_split(first, comma);
    if k + 1 < types.len() {
        assert(rest.len() > 0);
        reveal_strlit(", ");
        assert(", "@ =~= seq![','] + seq![' ']);
        let list = join(rest, ", "@);
        lemma_text_split(s, i, text + (seq![','] + seq![' ']), list);
        lemma_text_split(s, i, text, seq![','] + seq![' ']);
        let next = i + text.len();
        assert(s[next + 0] == (seq![','] + seq![' '])[0]);
        lemma_type_text_read(s, i, types[k]);
        lemma_token_and_space(s, next, Tok::Comma, true);
        lemma_types_text_read(s, next + 2, types, k + 1);
        assert(first + (seq![Tok::Comma] + (row + lex_from(s, end))) =~= first + comma + row
            + lex_from(s, end));
    } else {
        assert(rest =~= Seq::empty());
        assert(row =~= Seq::empty());
        lemma_type_text_read(s, i, types[k]);
        assert(first + comma + row =~= first);
    }
}

/// The text of a type stands for the type: where a type was read from a source text, its text is
/// itself a type, and reading it gives the same text.
pub proof fn law_type_text_stands_for_type(src: Seq<char>, i: int)
    requires
        0 <= i < lex(src).len(),
        type_at(lex(src), i) is Ok,
    ensures
        ({
            let text = type_at(lex(src), i)->Ok_0.0;
            &&& type_at(lex(text), 0) == Ok::<(Seq<char>, int), (Seq<char>, int)>(
                (text, lex(text).len() - 1),
            )
            &&& literals_fit_spec(src) ==> literals_fit_spec(text)
        }),
{
    law_lex_ended(src);
    let t = lex(src);
    let (text, end) = type_at(t, i)->Ok_0;
    let ty = lemma_type_written(t, i);
    let row = type_toks(ty);
    assert forall|k: int| 0 <= k < row.len() implies writable(#[trigger] row[k]) by {
        assert(t[i + k] == row[k]);
        lemma_type_forward(t, i);
        law_tokens_are_writable(src, i + k);
    }
    assert(text_at(text, 0, text));
    lemma_type_text_read(text, 0, ty);
    let again = lex(text);
    assert(again =~= row.push(Tok::Eof));
    assert(row_at(again, 0, row)) by {
        assert forall|k: int| 0 <= k < row.len() implies again[0 + k] == #[trigger] row[k] by {}
    }
    law_type_read_back(again, 0, ty);
    if fits(t) {
        assert forall|k: int| 0 <= k < again.len() implies (
        #[trigger] again[k] matches Tok::IntLit(m) ==> m <= i64::MAX) by {
            if k < row.len() {
                assert(t[i + k] == row[k]);
            }
        }
    }
}

/// What stands in front of a text and is passed over changes nothing about its tokens.
proof fn lemma_passed_in_front(front: Seq<char>, rest: Seq<char>)
    requires
        front.len() > 0,
        lexeme_at(front + rest, 0) == (None::<Tok>, front.len() as int),
    ensures
        lex(front + rest) == lex(rest),
{
    let s = front + rest;
    assert(text_at(s, front.len() as int, rest)) by {
        assert forall|k: int| 0 <= k < rest.len() implies s[front.len() + k] == #[trigger] rest[k] by {}
    }
    lemma_lex_shifted(s, front.len() as int, rest, 0);
}

/// A comment goes up to the end of its line. Neither it nor the end of the line is a token.
pub proof fn law_comments_are_passed_over(comment: Seq<char>, rest: Seq<char>)
    requires
        forall|k: int| 0 <= k < comment.len() ==> #[trigger] comment[k] != '\n',
    ensures
        lex(seq!['/', '/'] + comment + seq!['\n'] + rest) == lex(rest),
        lex(seq!['/', '/'] + comment) == seq![Tok::Eof],
{
    let front = seq!['/', '/'] + comment;
    let line = seq!['\n'] + rest;
    let s = front + line;
    assert(s =~= seq!['/', '/'] + comment + seq!['\n'] + rest);
    let end = front.len() as int;
    assert forall|k: int| 2 <= k < end implies in_run(Run::Comment, #[trigger] s[k]) by {
        assert(s[k] == comment[k - 2]);
    }
    assert(s[end] == '\n');
    lemma_run_end_at(s, 2, end, Run::Comment);
    lemma_passed_in_front(front, line);
    assert(line[0] == '\n');
    lemma_passed_in_front(seq!['\n'], rest);
    assert forall|k: int| 2 <= k < end implies in_run(Run::Comment, #[trigger] front[k]) by {
        assert(front[k] == comment[k - 2]);
    }
    lemma_run_end_at(front, 2, end, Run::Comment);
    assert(lexeme_at(front, 0) == (None::<Tok>, end));
    assert(lex_from(front, end) == seq![Tok::Eof]);
    assert(lex_from(front, 0) == lex_from(front, end));
}

/// Whether an ASCII character is a token, begins one or goes on with one.
pub open spec fn is_token_char(c: char) -> bool {
    ||| 48 <= c as u32 <= 57
    ||| 65 <= c as u32 <= 90
    ||| 97 <= c as u32 <= 122
    ||| c == '_' || c == '{' || c == '}' || c == '(' || c == ')' || c == '<' || c == '>'
    ||| c == ':' || c == ',' || c == '&' || c == '*' || c == '.' || c == ';' || c == '='
}

/// An ASCII character that no token is made of is passed over, unless it is the first of an arrow
/// or of the two slashes of a comment.
pub proof fn law_other_characters_are_passed_over(c: char, rest: Seq<char>)
    requires
        (c as u32) < 128,
        !is_token_char(c),
        rest.len() > 0 ==> !(c == '-' && rest[0] == '>') && !(c == '/' && rest[0] == '/'),
    ensures
        lex(seq![c] + rest) == lex(rest),
{
    let s = seq![c] + rest;
    assert(s[0] == c);
    if rest.len() > 0 {
        assert(s[1] == rest[0]);
    }
    lemma_passed_in_front(seq![c], rest);
}

/// A row of digits alone is one integer literal, with zeros in front of it as without.
pub proof fn law_digits_are_one_literal(s: Seq<char>)
    requires
        s.len() > 0,
        forall|k: int| 0 <= k < s.len() ==> '0' <= #[trigger] s[k] <= '9',
    ensures
        lex(s).len() == 2,
        lex(s)[0] is IntLit,
        lex(s)[1] == Tok::Eof,
        lex(seq!['0'] + s) == lex(s),
{
    lemma_digits_alone(s);
    let longer = seq!['0'] + s;
    assert forall|k: int| 0 <= k < longer.len() implies '0' <= #[trigger] longer[k] <= '9' by {
        if k > 0 {
            assert(longer[k] == s[k - 1]);
        }
    }
    lemma_digits_alone(longer);
    law_leading_zeros(s);
}

proof fn lemma_digits_alone(s: Seq<char>)
    requires
        s.len() > 0,
        forall|k: int| 0 <= k < s.len() ==> '0' <= #[trigger] s[k] <= '9',
    ensures
        lex(s) == seq![Tok::IntLit(decimal_value(s)), Tok::Eof],
{
    let end = s.len() as int;
    assert forall|k: int| 1 <= k < end implies in_run(Run::Digits, #[trigger] s[k]) by {}
    lemma_run_end_at(s, 1, end, Run::Digits);
    assert('0' <= s[0] <= '9');
    assert(s.subrange(0, end) =~= s);
    assert(lex_from(s, end) == seq![Tok::Eof]);
    assert(seq![Tok::IntLit(decimal_value(s))] + seq![Tok::Eof] =~= seq![
        Tok::IntLit(decimal_value(s)),
        Tok::Eof,
    ]);
}

} // verus!
