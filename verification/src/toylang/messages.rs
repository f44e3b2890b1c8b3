//! What is said of programs that are refused: the message is about the token at which the parser
//! stopped.
use vstd::prelude::*;

use crate::text::{decimal, differ_in, holds_text, lemma_holds_at_end, quoted};
use crate::toylang::ast::ExprView;
use crate::toylang::grammar::{
    arg_list_at, args_at, body_at, call_args_at, calls_at, expect_at, expr_at, field_at, fields_at,
    fn_at, ident_at, init_at, init_list_at, inits_at, is_at, item_at, items_at,
    lemma_args_onward, lemma_call_args_forward, lemma_expr_forward,
    lemma_fields_onward, lemma_init_forward, lemma_inits_onward, lemma_item_forward,
    lemma_let_forward, lemma_params_onward, lemma_primary_forward, lemma_type_args_onward,
    lemma_type_forward, let_at, param_at, param_list_at, params_at, primary_at, primitive_type_at,
    program_at, return_type_at, signature_params_at, struct_at, type_args_at, type_at,
    Parsed,
};
use crate::toylang::lexer::{ended, law_lex_ended, lex, shown, Tok};
use crate::toylang::parser::agrees;

verus! {

/// Whether a message is about a token: it holds how the token is named or, of an identifier, its
/// text in single quotes.
pub open spec fn tells_of(message: Seq<char>, token: Tok) -> bool {
    ||| holds_text(message, shown(token))
    ||| token matches Tok::Ident(name) && holds_text(message, "'"@ + name + "'"@)
}

/// Whether a message tells of the token at a place that has been reached, or of the one before it,
/// which has been read.
pub open spec fn tells_of_place(t: Seq<Tok>, message: Seq<char>, place: int) -> bool {
    ||| 0 <= place < t.len() && tells_of(message, t[place])
    ||| 0 < place <= t.len() && tells_of(message, t[place - 1])
}

/// Whether an outcome is no refusal or one that tells of the token where the parser stopped.
pub open spec fn tells<T>(t: Seq<Tok>, r: Parsed<T>) -> bool {
    r matches Err((message, place)) ==> tells_of_place(t, message, place)
}

proof fn lemma_ident_tells(t: Seq<Tok>, i: int)
    requires
        0 <= i < t.len(),
    ensures
        tells(t, ident_at(t, i)),
{
    lemma_holds_at_end("expected identifier, got "@, shown(t[i]));
}

proof fn lemma_expect_tells(t: Seq<Tok>, i: int, token: Tok)
    requires
        0 <= i < t.len(),
    ensures
        tells(t, expect_at(t, i, token)),
{
    lemma_holds_at_end("expected "@ + shown(token) + ", got "@, shown(t[i]));
}

/// A message that holds a name between two texts that end and begin with a single quote.
proof fn lemma_quoted_name(
    message: Seq<char>,
    before: Seq<char>,
    before_quote: Seq<char>,
    name: Seq<char>,
    after: Seq<char>,
    after_quote: Seq<char>,
)
    requires
        message == before_quote + name + after_quote,
        before_quote == before + "'"@,
        after_quote == "'"@ + after,
    ensures
        holds_text(message, "'"@ + name + "'"@),
{
    assert(message =~= before + ("'"@ + name + "'"@) + after);
}

proof fn lemma_type_tells(t: Seq<Tok>, i: int)
    requires
        ended(t),
        0 <= i < t.len(),
    ensures
        tells(t, type_at(t, i)),
    decreases t.len() - i, 0int,
{
    match t[i] {
        Tok::Ampersand => {
            if is_at(t, i + 1, Tok::Ident("mut"@)) {
                lemma_type_tells(t, i + 2);
            } else {
                lemma_type_tells(t, i + 1);
            }
        },
        Tok::Star => {
            lemma_ident_tells(t, i + 1);
            if let Ok((qualifier, next)) = ident_at(t, i + 1) {
                if qualifier != "const"@ && qualifier != "mut"@ {
                    let head = "expected 'const' or 'mut' after '*', got '"@;
                    let message = head + qualifier + "'"@;
                    reveal_strlit("expected 'const' or 'mut' after '*', got '");
                    reveal_strlit("'");
                    let before = head.drop_last();
                    assert(head =~= before + "'"@);
                    assert("'"@ =~= "'"@ + Seq::empty());
                    lemma_quoted_name(message, before, head, qualifier, Seq::empty(), "'"@);
                    assert(tells_of(message, t[next - 1]));
                } else {
                    lemma_type_tells(t, i + 2);
                }
            }
        },
        Tok::Ident(_) => {
            if is_at(t, i + 1, Tok::LAngle) {
                lemma_type_args_tell(t, i + 2);
                lemma_type_args_onward(t, i + 2);
                if let Ok((_, close)) = type_args_at(t, i + 2) {
                    lemma_expect_tells(t, close, Tok::RAngle);
                }
            }
        },
        _ => {
            lemma_holds_at_end("expected type, got "@, shown(t[i]));
        },
    }
}

proof fn lemma_type_args_tell(t: Seq<Tok>, i: int)
    requires
        ended(t),
        0 <= i < t.len(),
    ensures
        tells(t, type_args_at(t, i)),
    decreases t.len() - i, 1int,
{
    if !is_at(t, i, Tok::Eof) {
        lemma_type_tells(t, i);
        lemma_type_forward(t, i);
        if let Ok((_, next)) = type_at(t, i) {
            if is_at(t, next, Tok::Comma) {
                lemma_type_args_tell(t, next + 1);
            }
        }
    }
}

proof fn lemma_primitive_type_tells(t: Seq<Tok>, i: int)
    requires
        0 <= i < t.len(),
    ensures
        tells(t, primitive_type_at(t, i)),
{
    lemma_ident_tells(t, i);
    if let Ok((name, end)) = ident_at(t, i) {
        if primitive_type_at(t, i) is Err {
            let head = "unsupported field type '"@;
            let tail = "'; only i32, i64, f64, bool are allowed"@;
            let message = head + name + tail;
            reveal_strlit("unsupported field type '");
            reveal_strlit("'; only i32, i64, f64, bool are allowed");
            reveal_strlit("'");
            assert(head =~= head.drop_last() + "'"@);
            assert(tail =~= "'"@ + tail.skip(1));
            lemma_quoted_name(message, head.drop_last(), head, name, tail.skip(1), tail);
            assert(tells_of(message, t[end - 1]));
        }
    }
}

proof fn lemma_field_tells(t: Seq<Tok>, i: int)
    requires
        ended(t),
        0 <= i < t.len(),
    ensures
        tells(t, field_at(t, i)),
{
    lemma_ident_tells(t, i);
    if let Ok((_, colon)) = ident_at(t, i) {
        lemma_expect_tells(t, colon, Tok::Colon);
        if let Ok((_, ty)) = expect_at(t, colon, Tok::Colon) {
            lemma_primitive_type_tells(t, ty);
        }
    }
}

proof fn lemma_fields_tell(t: Seq<Tok>, i: int)
    requires
        ended(t),
        0 <= i < t.len(),
    ensures
        tells(t, fields_at(t, i)),
    decreases t.len() - i,
{
    if !(is_at(t, i, Tok::RBrace) || is_at(t, i, Tok::Eof)) {
        lemma_field_tells(t, i);
        lemma_fields_onward(t, i);
        if let Ok((_, next)) = field_at(t, i) {
            if is_at(t, next, Tok::Comma) {
                lemma_fields_tell(t, next + 1);
            }
        }
    }
}

proof fn lemma_param_tells(t: Seq<Tok>, i: int)
    requires
        ended(t),
        0 <= i < t.len(),
    ensures
        tells(t, param_at(t, i)),
{
    lemma_ident_tells(t, i);
    if let Ok((_, colon)) = ident_at(t, i) {
        lemma_expect_tells(t, colon, Tok::Colon);
        if let Ok((_, ty)) = expect_at(t, colon, Tok::Colon) {
            lemma_type_tells(t, ty);
        }
    }
}

proof fn lemma_params_tell(t: Seq<Tok>, i: int)
    requires
        ended(t),
        0 <= i < t.len(),
    ensures
        tells(t, param_list_at(t, i)),
        tells(t, params_at(t, i)),
    decreases t.len() - i,
{
    if !is_at(t, i, Tok::Eof) {
        lemma_param_tells(t, i);
        lemma_params_onward(t, i);
        if let Ok((_, next)) = param_at(t, i) {
            if is_at(t, next, Tok::Comma) {
                lemma_params_tell(t, next + 1);
            }
        }
    }
}

proof fn lemma_primary_tells(t: Seq<Tok>, i: int)
    requires
        ended(t),
        0 <= i < t.len(),
    ensures
        tells(t, primary_at(t, i)),
    decreases t.len() - i, 1int,
{
    match t[i] {
        Tok::IntLit(_) => {},
        Tok::Ident(_) => {
            if is_at(t, i + 1, Tok::DoubleColon) {
                lemma_ident_tells(t, i + 2);
                if ident_at(t, i + 2) is Ok {
                    lemma_call_args_tell(t, i + 3);
                }
            } else if is_at(t, i + 1, Tok::LBrace) {
                lemma_inits_tell(t, i + 2);
                lemma_inits_onward(t, i + 2);
                if let Ok((_, close)) = inits_at(t, i + 2) {
                    lemma_expect_tells(t, close, Tok::RBrace);
                }
            }
        },
        _ => {
            lemma_holds_at_end("expected expression, got "@, shown(t[i]));
        },
    }
}

proof fn lemma_expr_tells(t: Seq<Tok>, i: int)
    requires
        ended(t),
        0 <= i < t.len(),
    ensures
        tells(t, expr_at(t, i)),
    decreases t.len() - i, 2int,
{
    lemma_primary_tells(t, i);
    lemma_primary_forward(t, i);
    if let Ok((first, next)) = primary_at(t, i) {
        lemma_calls_tell(t, first, next);
    }
}

proof fn lemma_calls_tell(t: Seq<Tok>, receiver: ExprView, i: int)
    requires
        ended(t),
        0 <= i < t.len(),
    ensures
        tells(t, calls_at(t, receiver, i)),
    decreases t.len() - i, 0int,
{
    if is_at(t, i, Tok::Dot) {
        lemma_ident_tells(t, i + 1);
        if let Ok((method, open)) = ident_at(t, i + 1) {
            lemma_call_args_tell(t, open);
            lemma_call_args_forward(t, open);
            if let Ok((args, next)) = call_args_at(t, open) {
                lemma_calls_tell(
                    t,
                    ExprView::MethodCall { receiver: Box::new(receiver), method, args },
                    next,
                );
            }
        }
    }
}

proof fn lemma_call_args_tell(t: Seq<Tok>, i: int)
    requires
        ended(t),
        0 <= i < t.len(),
    ensures
        tells(t, call_args_at(t, i)),
    decreases t.len() - i, 4int,
{
    lemma_expect_tells(t, i, Tok::LParen);
    if let Ok((_, first)) = expect_at(t, i, Tok::LParen) {
        lemma_args_tell(t, first);
        lemma_args_onward(t, first);
        if let Ok((_, close)) = args_at(t, first) {
            lemma_expect_tells(t, close, Tok::RParen);
        }
    }
}

proof fn lemma_args_tell(t: Seq<Tok>, i: int)
    requires
        ended(t),
        0 <= i < t.len(),
    ensures
        tells(t, args_at(t, i)),
        tells(t, arg_list_at(t, i)),
    decreases t.len() - i, 3int,
{
    if !is_at(t, i, Tok::Eof) {
        lemma_expr_tells(t, i);
        lemma_expr_forward(t, i);
        if let Ok((_, next)) = expr_at(t, i) {
            if is_at(t, next, Tok::Comma) {
                lemma_args_tell(t, next + 1);
            }
        }
    }
}

proof fn lemma_init_tells(t: Seq<Tok>, i: int)
    requires
        ended(t),
        0 <= i < t.len(),
    ensures
        tells(t, init_at(t, i)),
    decreases t.len() - i, 3int,
{
    lemma_ident_tells(t, i);
    if let Ok((_, colon)) = ident_at(t, i) {
        lemma_expect_tells(t, colon, Tok::Colon);
        if let Ok((_, value)) = expect_at(t, colon, Tok::Colon) {
            lemma_expr_tells(t, value);
        }
    }
}

proof fn lemma_inits_tell(t: Seq<Tok>, i: int)
    requires
        ended(t),
        0 <= i < t.len(),
    ensures
        tells(t, inits_at(t, i)),
        tells(t, init_list_at(t, i)),
    decreases t.len() - i, 4int,
{
    if !is_at(t, i, Tok::Eof) {
        lemma_init_tells(t, i);
        lemma_init_forward(t, i);
        if let Ok((_, next)) = init_at(t, i) {
            if is_at(t, next, Tok::Comma) {
                lemma_inits_tell(t, next + 1);
            }
        }
    }
}

proof fn lemma_let_tells(t: Seq<Tok>, i: int)
    requires
        ended(t),
        is_at(t, i, Tok::Ident("let"@)),
    ensures
        tells(t, let_at(t, i)),
{
    lemma_ident_tells(t, i + 1);
    if let Ok((_, equals)) = ident_at(t, i + 1) {
        lemma_expect_tells(t, equals, Tok::Equals);
        if let Ok((_, value)) = expect_at(t, equals, Tok::Equals) {
            lemma_expr_tells(t, value);
            lemma_expr_forward(t, value);
            if let Ok((_, semicolon)) = expr_at(t, value) {
                lemma_expect_tells(t, semicolon, Tok::Semicolon);
            }
        }
    }
}

proof fn lemma_body_tells(t: Seq<Tok>, i: int)
    requires
        ended(t),
        0 <= i < t.len(),
    ensures
        tells(t, body_at(t, i)),
    decreases t.len() - i,
{
    if is_at(t, i, Tok::RBrace) || is_at(t, i, Tok::Eof) {
        lemma_expect_tells(t, i, Tok::RBrace);
    } else if is_at(t, i, Tok::Ident("let"@)) {
        lemma_let_tells(t, i);
        lemma_let_forward(t, i);
        if let Ok((_, next)) = let_at(t, i) {
            lemma_body_tells(t, next);
        }
    } else {
        lemma_expr_tells(t, i);
        lemma_expr_forward(t, i);
        if let Ok((_, next)) = expr_at(t, i) {
            if is_at(t, next, Tok::Semicolon) {
                lemma_body_tells(t, next + 1);
            } else {
                lemma_expect_tells(t, next, Tok::RBrace);
            }
        }
    }
}

proof fn lemma_struct_tells(t: Seq<Tok>, i: int)
    requires
        ended(t),
        is_at(t, i, Tok::Ident("struct"@)),
    ensures
        tells(t, struct_at(t, i)),
{
    lemma_ident_tells(t, i + 1);
    if let Ok((_, open)) = ident_at(t, i + 1) {
        lemma_expect_tells(t, open, Tok::LBrace);
        if let Ok((_, first)) = expect_at(t, open, Tok::LBrace) {
            lemma_fields_tell(t, first);
            lemma_fields_onward(t, first);
            if let Ok((_, close)) = fields_at(t, first) {
                lemma_expect_tells(t, close, Tok::RBrace);
            }
        }
    }
}

proof fn lemma_fn_tells(t: Seq<Tok>, i: int)
    requires
        ended(t),
        is_at(t, i, Tok::Ident("fn"@)),
    ensures
        tells(t, fn_at(t, i)),
{
    lemma_ident_tells(t, i + 1);
    if let Ok((_, open)) = ident_at(t, i + 1) {
        lemma_expect_tells(t, open, Tok::LParen);
        if let Ok((_, first)) = expect_at(t, open, Tok::LParen) {
            lemma_params_tell(t, first);
            lemma_params_onward(t, first);
            if let Ok((_, close)) = params_at(t, first) {
                lemma_expect_tells(t, close, Tok::RParen);
            }
        }
        if let Ok((_, arrow)) = signature_params_at(t, open) {
            if is_at(t, arrow, Tok::Arrow) {
                lemma_type_tells(t, arrow + 1);
                lemma_type_forward(t, arrow + 1);
            }
            if let Ok((_, brace)) = return_type_at(t, arrow) {
                lemma_expect_tells(t, brace, Tok::LBrace);
                if let Ok((_, body)) = expect_at(t, brace, Tok::LBrace) {
                    lemma_body_tells(t, body);
                }
            }
        }
    }
}

/// A row of definitions is read, or refused with a message about the token where the parser stopped.
pub proof fn lemma_items_tell(t: Seq<Tok>, i: int)
    requires
        ended(t),
        0 <= i < t.len(),
    ensures
        tells(t, items_at(t, i)),
    decreases t.len() - i,
{
    if !is_at(t, i, Tok::Eof) {
        if is_at(t, i, Tok::Ident("struct"@)) {
            lemma_struct_tells(t, i);
        } else if is_at(t, i, Tok::Ident("fn"@)) {
            lemma_fn_tells(t, i);
        } else {
            let message = "unexpected token "@ + shown(t[i]) + " at top level"@;
            assert(holds_text(message, shown(t[i])));
            assert(tells_of_place(t, message, i));
        }
        lemma_item_forward(t, i);
        if let Ok((_, next)) = item_at(t, i) {
            lemma_items_tell(t, next);
        }
    }
}

/// The message with which a program is refused tells of the token at which the parser stopped, or
/// of the one that it read last.
pub proof fn law_refusals_tell_of_the_token(src: Seq<char>)
    ensures
        program_at(lex(src), 0) matches Err((message, place)) ==> tells_of_place(
            lex(src),
            message,
            place,
        ),
{
    law_lex_ended(src);
    lemma_items_tell(lex(src), 0);
}

/// Where one token is expected and another one stands, the message names both: it is the same for
/// two expectations but for the name of what is expected, and the same for two rows of tokens but
/// for the name of what stands there.
pub proof fn law_expectations_are_named(
    t: Seq<Tok>,
    u: Seq<Tok>,
    i: int,
    j: int,
    wanted: Tok,
    other: Tok,
)
    requires
        0 <= i < t.len(),
        0 <= j < u.len(),
        t[i] != wanted,
        t[i] != other,
        u[j] != wanted,
    ensures
        expect_at(t, i, wanted) matches Err((a, _)) && expect_at(t, i, other) matches Err((b, _))
            && expect_at(u, j, wanted) matches Err((c, _)) && {
            &&& differ_in(a, shown(wanted), b, shown(other))
            &&& differ_in(a, shown(t[i]), c, shown(u[j]))
        },
{
    let a = "expected "@ + shown(wanted) + ", got "@ + shown(t[i]);
    let b = "expected "@ + shown(other) + ", got "@ + shown(t[i]);
    let c = "expected "@ + shown(wanted) + ", got "@ + shown(u[j]);
    assert(a =~= "expected "@ + shown(wanted) + (", got "@ + shown(t[i])));
    assert(b =~= "expected "@ + shown(other) + (", got "@ + shown(t[i])));
    let head = "expected "@ + shown(wanted) + ", got "@;
    assert(a =~= head + shown(t[i]) + Seq::empty());
    assert(c =~= head + shown(u[j]) + Seq::empty());
}

/// How an identifier is named holds its text in double quotes, how an integer literal is named holds
/// its number, and nothing else in it depends on the token.
pub proof fn law_tokens_are_named(a: Seq<char>, b: Seq<char>, m: int, n: int)
    ensures
        differ_in(shown(Tok::Ident(a)), quoted(a), shown(Tok::Ident(b)), quoted(b)),
        differ_in(shown(Tok::IntLit(m)), decimal(m), shown(Tok::IntLit(n)), decimal(n)),
{
    assert(shown(Tok::Ident(a)) == "Ident("@ + quoted(a) + ")"@);
    assert(shown(Tok::Ident(b)) == "Ident("@ + quoted(b) + ")"@);
    assert(shown(Tok::IntLit(m)) == "IntLit("@ + decimal(m) + ")"@);
    assert(shown(Tok::IntLit(n)) == "IntLit("@ + decimal(n) + ")"@);
}

/// Whatever a parser comes to that takes an identifier: the identifier where one stands, and else a
/// message about what stands there. It goes on by one token, unless that is the end of the text.
pub proof fn law_identifiers_are_taken(r: Result<String, String>, place: int, t: Seq<Tok>, i: int)
    requires
        agrees(r, place, ident_at(t, i)),
        0 <= i < t.len(),
    ensures
        r is Ok <==> t[i] is Ident,
        r matches Ok(name) ==> t[i] == Tok::Ident(name@),
        r matches Err(message) ==> holds_text(message@, shown(t[i])),
        place == if t[i] == Tok::Eof {
            i
        } else {
            i + 1
        },
{
    lemma_holds_at_end("expected identifier, got "@, shown(t[i]));
}

/// Whatever a parser comes to that takes one token: success where the token stands, and else a
/// message about the token and about what stands there. It goes on by one token, unless that is the
/// end of the text.
pub proof fn law_tokens_are_taken(
    r: Result<(), String>,
    place: int,
    t: Seq<Tok>,
    i: int,
    token: Tok,
)
    requires
        agrees(r, place, expect_at(t, i, token)),
        0 <= i < t.len(),
    ensures
        r is Ok <==> t[i] == token,
        r matches Err(message) ==> holds_text(message@, shown(token)) && holds_text(
            message@,
            shown(t[i]),
        ),
        place == if t[i] == Tok::Eof {
            i
        } else {
            i + 1
        },
{
    let head = "expected "@ + shown(token) + ", got "@;
    lemma_holds_at_end(head, shown(t[i]));
    assert(head + shown(t[i]) =~= "expected "@ + shown(token) + (", got "@ + shown(t[i])));
}

} // verus!
