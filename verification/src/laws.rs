//! The round-trip law: re-serializing a parsed operator expression to text
//! and re-parsing it yields an equal tree.

use vstd::prelude::*;
use crate::ast::{ExprV, InfixOperator, Operator, PrefixOperator};
use crate::lexer::{
    digit_end, digits_value, digit_value, is_dec_digit, is_letter, is_radix_digit, is_word_char,
    is_ws, next_at, radix_at, tokenize_v, tokens_from, word_end, ws_end, NextV,
};
use crate::ops::{binding_power_v, BpKind};
use crate::pratt::{
    apply_op_v, atom_of, engine, opt_expr, parse_expression_v, FrameOp, FrameV, ParseErrV,
    pop_frame_v,
};
use crate::printer::{
    digit_char, infix_token, int_text, prefix_token, print_tokens, render, token_text, wf_name,
    wf_operator_expr,
};
use crate::token::TokenV;

verus! {

/// The tokens with a source spelling the lexer reads back as exactly that
/// token: identifiers with valid names, in-range non-negative integer
/// literals, booleans, and the fixed operator, delimiter and keyword set.
pub open spec fn wf_token(t: TokenV) -> bool {
    match t {
        TokenV::Illegal(_) => false,
        TokenV::EndOfFile => false,
        TokenV::Ident(s) => wf_name(s),
        TokenV::Int(n) => 0 <= n <= isize::MAX as int,
        _ => true,
    }
}

/// The decimal spelling of a non-negative integer is a non-empty digit run
/// with no leading zero (unless the value is zero), and it reads back to the
/// value it spells.
proof fn lemma_int_text_shape(n: int)
    requires
        n >= 0,
    ensures
        int_text(n).len() >= 1,
        forall|k: int| 0 <= k < int_text(n).len() ==> is_dec_digit(#[trigger] int_text(n)[k]),
        n >= 1 ==> int_text(n)[0] != '0',
        digits_value(int_text(n), 10) == n,
    decreases n,
{
    if n < 10 {
        assert(int_text(n) == seq![digit_char(n)]);
        assert(digits_value(int_text(n), 10) == digits_value(
            int_text(n).drop_last(),
            10,
        ) * 10 + digit_value(int_text(n).last()));
        assert(int_text(n).drop_last() =~= Seq::<char>::empty());
    } else {
        lemma_int_text_shape(n / 10);
        let x = int_text(n / 10);
        let d = digit_char(n % 10);
        assert(int_text(n) == x.push(d));
        assert(x.push(d).drop_last() =~= x);
        assert(x.push(d).last() == d);
        assert(digit_value(d) == n % 10);
        assert(forall|k: int|
            0 <= k < x.push(d).len() ==> is_dec_digit(#[trigger] x.push(d)[k]));
        assert(x.push(d)[0] == x[0]);
    }
}

/// The end of a character run the lexer scans is exactly where its class
/// stops.
proof fn lemma_word_end_exact(s: Seq<char>, i: nat, j: nat)
    requires
        i <= j < s.len(),
        forall|k: int| i <= k < j ==> is_word_char(#[trigger] s[k]),
        !is_word_char(s[j as int]),
    ensures
        word_end(s, i) == j,
    decreases j - i,
{
    if i < j {
        lemma_word_end_exact(s, i + 1, j);
    }
}

/// The end of a digit run the lexer scans is exactly where the digits stop.
proof fn lemma_digit_end_exact(s: Seq<char>, i: nat, j: nat, radix: int)
    requires
        i <= j < s.len(),
        forall|k: int| i <= k < j ==> is_radix_digit(#[trigger] s[k], radix),
        !is_radix_digit(s[j as int], radix),
    ensures
        digit_end(s, i, radix) == j,
    decreases j - i,
{
    if i < j {
        lemma_digit_end_exact(s, i + 1, j, radix);
    }
}

/// Whitespace under the cursor never changes what the lexer produces.
proof fn lemma_tokens_from_ws(s: Seq<char>, j: nat)
    requires
        j < s.len(),
        is_ws(s[j as int]),
    ensures
        tokens_from(s, j) == tokens_from(s, j + 1),
{
    assert(ws_end(s, j) == ws_end(s, j + 1));
    assert(next_at(s, j) == next_at(s, j + 1));
}

/// One well-formed token's spelling, followed by a space, lexes to exactly
/// that token.
proof fn lemma_next_at_token(s: Seq<char>, i: nat, t: TokenV)
    requires
        wf_token(t),
        i + token_text(t).len() < s.len(),
        s.subrange(i as int, i as int + token_text(t).len() as int) == token_text(t),
        s[i as int + token_text(t).len() as int] == ' ',
    ensures
        next_at(s, i) == (NextV::Tok { t, end: i + token_text(t).len() }),
{
    let text = token_text(t);
    let l = text.len();
    assert forall|k: int| 0 <= k < l as int implies s[i as int + k] == text[k] by {
        assert(s.subrange(i as int, i as int + l as int)[k] == s[i as int + k]);
    }
    match t {
        TokenV::Ident(name) => {
            assert(s[i as int] == name[0]);
            assert forall|k: int| i <= k < i + l implies is_word_char(#[trigger] s[k]) by {
                assert(s[k] == text[k - i as int]);
                assert(is_word_char(name[k - i as int]));
            }
            lemma_word_end_exact(s, i, i + l);
            assert(s.subrange(i as int, i as int + l as int) =~= name);
        },
        TokenV::Int(n) => {
            lemma_int_text_shape(n);
            assert(s[i as int] == int_text(n)[0]);
            assert(radix_at(s, i) == 10) by {
                if l == 1 {
                    assert(s[i as int + 1] == ' ');
                } else {
                    assert(s[i as int + 1] == text[1]);
                    assert(is_dec_digit(text[1]));
                }
            }
            assert forall|k: int| i <= k < i + l implies is_radix_digit(
                #[trigger] s[k],
                10,
            ) by {
                assert(s[k] == text[k - i]);
                assert(is_dec_digit(text[k - i]));
            }
            lemma_digit_end_exact(s, i, i + l, 10);
            assert(s.subrange(i as int, i as int + l as int) =~= int_text(n));
        },
        TokenV::Boolean(b) => {
            lemma_word_end_exact(s, i, i + l);
            assert(s.subrange(i as int, i as int + l as int) =~= text);
        },
        TokenV::Function => {
            lemma_word_end_exact(s, i, i + l);
            assert(s.subrange(i as int, i as int + l as int) =~= text);
        },
        TokenV::Let => {
            lemma_word_end_exact(s, i, i + l);
            assert(s.subrange(i as int, i as int + l as int) =~= text);
        },
        TokenV::If => {
            lemma_word_end_exact(s, i, i + l);
            assert(s.subrange(i as int, i as int + l as int) =~= text);
        },
        TokenV::Else => {
            lemma_word_end_exact(s, i, i + l);
            assert(s.subrange(i as int, i as int + l as int) =~= text);
        },
        TokenV::Return => {
            lemma_word_end_exact(s, i, i + l);
            assert(s.subrange(i as int, i as int + l as int) =~= text);
        },
        _ => {
            assert(s[i as int] == text[0]);
            if l == 2 {
                assert(s[i as int + 1] == text[1]);
            } else {
                assert(s[i as int + 1] == ' ');
            }
        },
    }
}

/// A rendered sequence of well-formed tokens lexes back to exactly those
/// tokens.
proof fn lemma_render_tokens(ts: Seq<TokenV>, s: Seq<char>, i: nat)
    requires
        forall|k: int| 0 <= k < ts.len() ==> wf_token(#[trigger] ts[k]),
        i <= s.len(),
        s.subrange(i as int, s.len() as int) == render(ts),
    ensures
        tokens_from(s, i) == Ok::<Seq<TokenV>, nat>(ts),
    decreases ts.len(),
{
    if ts.len() == 0 {
        assert(s.len() - i == 0);
        assert(ws_end(s, i) == i);
        assert(tokens_from(s, i) == Ok::<Seq<TokenV>, nat>(Seq::empty()));
        assert(ts =~= Seq::<TokenV>::empty());
    } else {
        let t = ts[0];
        let text = token_text(t);
        let l = text.len();
        let rest = ts.drop_first();
        assert(render(ts) == text + seq![' '] + render(rest));
        assert forall|k: int| 0 <= k < s.len() - i implies s[i as int + k] == render(ts)[k] by {
            assert(s.subrange(i as int, s.len() as int)[k] == s[i as int + k]);
        }
        assert(s.len() - i == l + 1 + render(rest).len());
        assert(s.subrange(i as int, i as int + l as int) =~= text) by {
            assert forall|k: int| 0 <= k < l as int implies s[i as int + k] == text[k] by {
                assert(render(ts)[k] == text[k]);
            }
        }
        assert(s[i as int + l as int] == render(ts)[l as int]);
        assert(render(ts)[l as int] == ' ');
        lemma_next_at_token(s, i, t);
        lemma_tokens_from_ws(s, i + l);
        assert(s.subrange(i as int + l as int + 1, s.len() as int) =~= render(rest)) by {
            assert forall|k: int| 0 <= k < render(rest).len() as int implies s[i as int + l as int
                + 1 + k] == render(rest)[k] by {
                assert(render(ts)[l as int + 1 + k] == render(rest)[k]);
            }
        }
        assert(forall|k: int| 0 <= k < rest.len() ==> wf_token(#[trigger] rest[k]));
        lemma_render_tokens(rest, s, i + l + 1);
        assert(tokens_from(s, i + l) == Ok::<Seq<TokenV>, nat>(rest));
        assert(tokens_from(s, i) == Ok::<Seq<TokenV>, nat>(seq![t] + rest));
        assert(seq![t] + rest =~= ts);
    }
}

/// Every token in the printed spelling of a well-formed operator expression
/// is itself well formed.
proof fn lemma_print_tokens_wf(e: ExprV)
    requires
        wf_operator_expr(e),
    ensures
        forall|k: int| 0 <= k < print_tokens(e).len() ==> wf_token(#[trigger] print_tokens(e)[k]),
    decreases e,
{
    let pt = print_tokens(e);
    match e {
        ExprV::PrefixExpression { operator, right } => {
            let p = operator->Prefix_0;
            let ptr = print_tokens(*right);
            lemma_print_tokens_wf(*right);
            assert(pt == seq![TokenV::LeftParen, prefix_token(p)] + ptr + seq![TokenV::RightParen]);
            assert forall|k: int| 0 <= k < pt.len() implies wf_token(#[trigger] pt[k]) by {
                if 2 <= k < 2 + ptr.len() {
                    assert(pt[k] == ptr[k - 2]);
                }
            }
        },
        ExprV::InfixExpression { left, op, right } => {
            let o = op->Infix_0;
            let ptl = print_tokens(*left);
            let ptr = print_tokens(*right);
            lemma_print_tokens_wf(*left);
            lemma_print_tokens_wf(*right);
            assert(pt == seq![TokenV::LeftParen] + ptl + seq![infix_token(o)] + ptr + seq![
                TokenV::RightParen,
            ]);
            assert forall|k: int| 0 <= k < pt.len() implies wf_token(#[trigger] pt[k]) by {
                if 1 <= k < 1 + ptl.len() {
                    assert(pt[k] == ptl[k - 1]);
                } else if 2 + ptl.len() <= k < 2 + ptl.len() + ptr.len() {
                    assert(pt[k] == ptr[k - 2 - ptl.len()]);
                }
            }
        },
        _ => {},
    }
}

/// What holds of every token the lexer hands out: it is never the
/// end-of-input marker, an identifier carries a valid name, and an integer
/// literal carries an in-range, non-negative value.
pub open spec fn lexed_token_ok(t: TokenV) -> bool {
    match t {
        TokenV::EndOfFile => false,
        TokenV::Ident(s) => wf_name(s),
        TokenV::Int(n) => 0 <= n <= isize::MAX as int,
        _ => true,
    }
}

/// Every character inside the run the lexer scans is of the run's class.
proof fn lemma_word_end_chars(s: Seq<char>, i: nat)
    requires
        i <= s.len(),
    ensures
        forall|k: int| i <= k < word_end(s, i) ==> is_word_char(#[trigger] s[k]),
    decreases s.len() - i,
{
    if i < s.len() && is_word_char(s[i as int]) {
        lemma_word_end_chars(s, i + 1);
    }
}

/// Every token the lexer hands out satisfies `lexed_token_ok`.
proof fn lemma_tokens_from_ok(s: Seq<char>, i: nat)
    requires
        i <= s.len(),
    ensures
        match tokens_from(s, i) {
            Ok(ts) => forall|k: int| 0 <= k < ts.len() ==> lexed_token_ok(#[trigger] ts[k]),
            Err(_) => true,
        },
    decreases s.len() - i,
{
    crate::lexer::lemma_next_at_bounds(s, i);
    match next_at(s, i) {
        NextV::Eof => {},
        NextV::Bad { pos } => {},
        NextV::Tok { t, end } => {
            let j = ws_end(s, i);
            assert(lexed_token_ok(t)) by {
                crate::lexer::lemma_ws_end_bounds(s, i);
                if j < s.len() && is_letter(s[j as int]) && !(s[j as int] == '=' || s[j as int]
                    == '!' || s[j as int] == '<' || s[j as int] == '>' || s[j as int] == '+' || s[
                    j as int
                ] == '-' || s[j as int] == '*' || s[j as int] == '/' || s[j as int] == ';' || s[
                    j as int
                ] == ',' || s[j as int] == '{' || s[j as int] == '}' || s[j as int] == '(' || s[
                    j as int
                ] == ')') {
                    let we = word_end(s, j);
                    crate::lexer::lemma_word_end_bounds(s, j);
                    assert(we == word_end(s, (j + 1) as nat));
                    crate::lexer::lemma_word_end_bounds(s, (j + 1) as nat);
                    lemma_word_end_chars(s, j);
                    let name = s.subrange(j as int, we as int);
                    assert(name.len() >= 1);
                    assert(name[0] == s[j as int]);
                    assert(forall|k: int|
                        0 <= k < name.len() ==> is_word_char(#[trigger] name[k]));
                }
                if j < s.len() && is_dec_digit(s[j as int]) && !is_letter(s[j as int]) && !(s[
                    j as int
                ] == '=' || s[j as int] == '!' || s[j as int] == '<' || s[j as int] == '>' || s[
                    j as int
                ] == '+' || s[j as int] == '-' || s[j as int] == '*' || s[j as int] == '/' || s[
                    j as int
                ] == ';' || s[j as int] == ',' || s[j as int] == '{' || s[j as int] == '}' || s[
                    j as int
                ] == '(' || s[j as int] == ')') {
                    let radix = radix_at(s, j);
                    let p = (j + crate::lexer::radix_prefix_len(s, j)) as nat;
                    let de = digit_end(s, p, radix);
                    crate::lexer::lemma_digit_end_bounds(s, p, radix);
                    if de != p && digits_value(s.subrange(p as int, de as int), radix)
                        <= isize::MAX as int {
                        lemma_digits_nonneg(s.subrange(p as int, de as int), radix);
                    }
                }
            }
            lemma_tokens_from_ok(s, end);
        },
    }
}

/// A digit string never reads back to a negative value.
proof fn lemma_digits_nonneg(ds: Seq<char>, radix: int)
    requires
        2 <= radix,
    ensures
        digits_value(ds, radix) >= 0,
    decreases ds.len(),
{
    if ds.len() > 0 {
        lemma_digits_nonneg(ds.drop_last(), radix);
        let v = digits_value(ds.drop_last(), radix);
        assert(v * radix >= v) by (nonlinear_arith)
            requires
                v >= 0,
                radix >= 2,
        ;
    }
}

/// A frame the engine can reach from lexed input: its accumulated
/// expression, if any, lies in the printable grammar, and what opened it is
/// an operator the binding-power table can produce.
pub open spec fn frame_ok(f: FrameV) -> bool {
    &&& match f.lhs {
        Some(e) => wf_operator_expr(e),
        None => true,
    }
    &&& match f.op {
        FrameOp::Op(o) => match o {
            Operator::Prefix(_) => true,
            Operator::Infix(x) => x != InfixOperator::Pow,
            Operator::Suffix(_) => false,
        },
        _ => true,
    }
}

/// From lexed tokens and well-formed frames, every expression the engine
/// accepts lies in the printable grammar — except the unit value of an
/// empty parse, which consumes nothing.
proof fn lemma_engine_wf(ts: Seq<TokenV>, i: nat, stack: Seq<FrameV>, top: FrameV)
    requires
        i <= ts.len(),
        forall|k: int| 0 <= k < ts.len() ==> lexed_token_ok(#[trigger] ts[k]),
        forall|k: int| 0 <= k < stack.len() ==> frame_ok(#[trigger] stack[k]),
        frame_ok(top),
    ensures
        match engine(ts, i, stack, top) {
            Ok(p) => wf_operator_expr(p.0) || p.0 == ExprV::Unit,
            Err(_) => true,
        },
    decreases ts.len() - i, stack.len(),
{
    let entry = if i < ts.len() {
        binding_power_v(ts[i as int], top.lhs is None)
    } else {
        None
    };
    match entry {
        None => match top.op {
            FrameOp::Root => {},
            FrameOp::Group => {},
            FrameOp::Op(_) => match pop_frame_v(stack, top) {
                Some(f) => {
                    assert(frame_ok(f)) by {
                        assert(frame_ok(stack.last()));
                    }
                    lemma_engine_wf(ts, i, stack.drop_last(), f);
                },
                None => {},
            },
        },
        Some((kind, bp)) => {
            if bp.0 < top.min_bp {
                match pop_frame_v(stack, top) {
                    Some(f) => {
                        assert(frame_ok(f)) by {
                            assert(frame_ok(stack.last()));
                        }
                        lemma_engine_wf(ts, i, stack.drop_last(), f);
                    },
                    None => {},
                }
            } else {
                match kind {
                    BpKind::Atom => {
                        assert(lexed_token_ok(ts[i as int]));
                        lemma_engine_wf(
                            ts,
                            i + 1,
                            stack,
                            FrameV {
                                min_bp: top.min_bp,
                                lhs: Some(atom_of(ts[i as int])),
                                op: top.op,
                            },
                        );
                    },
                    BpKind::Group => {
                        lemma_engine_wf(
                            ts,
                            i + 1,
                            stack.push(top),
                            FrameV { min_bp: 0, lhs: None, op: FrameOp::Group },
                        );
                    },
                    BpKind::Close => match top.op {
                        FrameOp::Group => {
                            if stack.len() > 0 {
                                match top.lhs {
                                    Some(e) => {
                                        assert(frame_ok(stack.last()));
                                        lemma_engine_wf(
                                            ts,
                                            i + 1,
                                            stack.drop_last(),
                                            FrameV {
                                                min_bp: stack.last().min_bp,
                                                lhs: Some(e),
                                                op: stack.last().op,
                                            },
                                        );
                                    },
                                    None => {},
                                }
                            }
                        },
                        _ => {},
                    },
                    BpKind::Op(o) => {
                        lemma_engine_wf(
                            ts,
                            i + 1,
                            stack.push(top),
                            FrameV { min_bp: bp.1, lhs: None, op: FrameOp::Op(o) },
                        );
                    },
                }
            }
        },
    }
}

/// Every expression the engine accepts from lexed input lies in the
/// printable grammar (or is the unit value of an empty parse), so the round
/// trip law reaches every parsed operator expression.
pub proof fn lemma_parsed_expression_wf(text: Seq<char>, i: nat)
    ensures
        match tokenize_v(text) {
            Ok(ts) => i <= ts.len() ==> match parse_expression_v(ts, i) {
                Ok(p) => wf_operator_expr(p.0) || p.0 == ExprV::Unit,
                Err(_) => true,
            },
            Err(_) => true,
        },
{
    lemma_tokens_from_ok(text, 0);
    if let Ok(ts) = tokenize_v(text) {
        if i <= ts.len() {
            lemma_engine_wf(ts, i, Seq::empty(), FrameV { min_bp: 0, lhs: None, op: FrameOp::Root });
        }
    }
}

/// Round trip: re-serializing an operator expression of the grammar to text
/// and re-parsing that text yields an equal tree. The printed text lexes
/// back to exactly the printed token spelling, and the engine reads that
/// spelling back to the expression it spells, consuming all of it.
pub proof fn lemma_round_trip(e: ExprV)
    requires
        wf_operator_expr(e),
    ensures
        tokenize_v(render(print_tokens(e))) == Ok::<Seq<TokenV>, nat>(print_tokens(e)),
        parse_expression_v(print_tokens(e), 0) == Ok::<(ExprV, nat), ParseErrV>(
            (e, print_tokens(e).len()),
        ),
{
    lemma_print_tokens_wf(e);
    let text = render(print_tokens(e));
    assert(text.subrange(0, text.len() as int) =~= text);
    lemma_render_tokens(print_tokens(e), text, 0);
    lemma_parse_print_tokens(e);
}

/// Feeding the engine the printed spelling of a well-formed operator
/// expression, in any frame that has no accumulated expression yet, leaves
/// the engine exactly where it would stand had that expression been its
/// accumulated one: printed text is self-delimiting and carries no
/// precedence ambiguity.
pub proof fn lemma_engine_print(e: ExprV, ts: Seq<TokenV>, i: nat, stack: Seq<FrameV>, top: FrameV)
    requires
        wf_operator_expr(e),
        i + print_tokens(e).len() <= ts.len(),
        ts.subrange(i as int, i as int + print_tokens(e).len() as int) == print_tokens(e),
        top.lhs is None,
        top.min_bp <= 99,
    ensures
        engine(ts, i, stack, top) == engine(
            ts,
            i + print_tokens(e).len(),
            stack,
            FrameV { min_bp: top.min_bp, lhs: Some(e), op: top.op },
        ),
    decreases e,
{
    let pt = print_tokens(e);
    let l = pt.len();
    match e {
        ExprV::Ident(s) => {
            assert(ts[i as int] == pt[0]);
            assert(engine(ts, i, stack, top) == engine(
                ts,
                i + 1,
                stack,
                FrameV { min_bp: top.min_bp, lhs: Some(atom_of(ts[i as int])), op: top.op },
            ));
        },
        ExprV::Int(n) => {
            assert(ts[i as int] == pt[0]);
            assert(engine(ts, i, stack, top) == engine(
                ts,
                i + 1,
                stack,
                FrameV { min_bp: top.min_bp, lhs: Some(atom_of(ts[i as int])), op: top.op },
            ));
        },
        ExprV::Boolean(b) => {
            assert(ts[i as int] == pt[0]);
            assert(engine(ts, i, stack, top) == engine(
                ts,
                i + 1,
                stack,
                FrameV { min_bp: top.min_bp, lhs: Some(atom_of(ts[i as int])), op: top.op },
            ));
        },
        ExprV::PrefixExpression { operator, right } => {
            let p = operator->Prefix_0;
            let ptr = print_tokens(*right);
            let lr = ptr.len();
            assert(pt == seq![TokenV::LeftParen, prefix_token(p)] + ptr + seq![TokenV::RightParen]);
            assert(ts[i as int] == pt[0] && pt[0] == TokenV::LeftParen);
            assert(ts[i as int + 1] == pt[1] && pt[1] == prefix_token(p));
            assert(ts[i as int + 2 + lr as int] == pt[2 + lr as int] && pt[2 + lr as int]
                == TokenV::RightParen);
            // step 1: the open parenthesis pushes a grouping frame
            let g = FrameV { min_bp: 0, lhs: None, op: FrameOp::Group };
            let st1 = stack.push(top);
            assert(engine(ts, i, stack, top) == engine(ts, i + 1, st1, g));
            // step 2: the prefix operator opens its frame
            let (fk, fbp) = binding_power_v(prefix_token(p), true).unwrap();
            let f = FrameV { min_bp: fbp.1, lhs: None, op: FrameOp::Op(Operator::Prefix(p)) };
            let st2 = st1.push(g);
            assert(engine(ts, i + 1, st1, g) == engine(ts, i + 2, st2, f));
            // step 3: the operand fills the operator frame
            assert(ts.subrange(i as int + 2, i as int + 2 + lr as int) =~= ptr) by {
                assert forall|k: int| 0 <= k < lr as int implies ts[i as int + 2 + k] == ptr[k] by {
                    assert(ts[i as int + 2 + k] == ts.subrange(
                        i as int,
                        i as int + l as int,
                    )[2 + k]);
                    assert(pt[2 + k] == ptr[k]);
                }
            }
            lemma_engine_print(*right, ts, i + 2, st2, f);
            let f2 = FrameV { min_bp: fbp.1, lhs: Some(*right), op: f.op };
            // step 4: the close parenthesis pops the operator frame
            assert(st2.drop_last() =~= st1);
            assert(opt_expr(g.lhs) + opt_expr(f2.lhs) =~= seq![*right]);
            let g2 = FrameV { min_bp: 0, lhs: Some(e), op: FrameOp::Group };
            assert(pop_frame_v(st2, f2) == Some(g2));
            assert(engine(ts, i + 2 + lr, st2, f2) == engine(ts, i + 2 + lr, st1, g2));
            // step 5: the close parenthesis now matches the grouping frame
            assert(st1.drop_last() =~= stack);
            assert(st1.last() == top);
            assert(engine(ts, i + 2 + lr, st1, g2) == engine(
                ts,
                i + 3 + lr,
                stack,
                FrameV { min_bp: top.min_bp, lhs: Some(e), op: top.op },
            ));
            assert(l == 3 + lr);
        },
        ExprV::InfixExpression { left, op, right } => {
            let o = op->Infix_0;
            let ptl = print_tokens(*left);
            let ll = ptl.len();
            let ptr = print_tokens(*right);
            let lr = ptr.len();
            assert(pt == seq![TokenV::LeftParen] + ptl + seq![infix_token(o)] + ptr + seq![
                TokenV::RightParen,
            ]);
            assert(ts[i as int] == pt[0] && pt[0] == TokenV::LeftParen);
            assert(ts[i as int + 1 + ll as int] == pt[1 + ll as int] && pt[1 + ll as int]
                == infix_token(o));
            assert(ts[i as int + 2 + ll as int + lr as int] == pt[2 + ll as int + lr as int] && pt[
                2 + ll as int + lr as int
            ] == TokenV::RightParen);
            // step 1: the open parenthesis pushes a grouping frame
            let g = FrameV { min_bp: 0, lhs: None, op: FrameOp::Group };
            let st1 = stack.push(top);
            assert(engine(ts, i, stack, top) == engine(ts, i + 1, st1, g));
            // step 2: the left operand fills the grouping frame
            assert(ts.subrange(i as int + 1, i as int + 1 + ll as int) =~= ptl) by {
                assert forall|k: int| 0 <= k < ll as int implies ts[i as int + 1 + k] == ptl[k] by {
                    assert(ts[i as int + 1 + k] == ts.subrange(
                        i as int,
                        i as int + l as int,
                    )[1 + k]);
                    assert(pt[1 + k] == ptl[k]);
                }
            }
            lemma_engine_print(*left, ts, i + 1, st1, g);
            let g1 = FrameV { min_bp: 0, lhs: Some(*left), op: FrameOp::Group };
            // step 3: the infix operator opens its frame, holding the left
            // operand below it
            let (fk, fbp) = binding_power_v(infix_token(o), false).unwrap();
            assert(fk == BpKind::Op(Operator::Infix(o)));
            let f = FrameV { min_bp: fbp.1, lhs: None, op: FrameOp::Op(Operator::Infix(o)) };
            let st2 = st1.push(g1);
            assert(engine(ts, i + 1 + ll, st1, g1) == engine(ts, i + 2 + ll, st2, f));
            // step 4: the right operand fills the operator frame
            assert(ts.subrange(i as int + 2 + ll as int, i as int + 2 + ll as int + lr as int)
                =~= ptr) by {
                assert forall|k: int| 0 <= k < lr as int implies ts[i as int + 2 + ll as int + k]
                    == ptr[k] by {
                    assert(ts[i as int + 2 + ll as int + k] == ts.subrange(
                        i as int,
                        i as int + l as int,
                    )[2 + ll as int + k]);
                    assert(pt[2 + ll as int + k] == ptr[k]);
                }
            }
            lemma_engine_print(*right, ts, i + 2 + ll, st2, f);
            let f2 = FrameV { min_bp: fbp.1, lhs: Some(*right), op: f.op };
            // step 5: the close parenthesis pops the operator frame
            assert(st2.drop_last() =~= st1);
            assert(opt_expr(g1.lhs) + opt_expr(f2.lhs) =~= seq![*left, *right]);
            let g2 = FrameV { min_bp: 0, lhs: Some(e), op: FrameOp::Group };
            assert(pop_frame_v(st2, f2) == Some(g2));
            assert(engine(ts, i + 2 + ll + lr, st2, f2) == engine(ts, i + 2 + ll + lr, st1, g2));
            // step 6: the close parenthesis now matches the grouping frame
            assert(st1.drop_last() =~= stack);
            assert(st1.last() == top);
            assert(engine(ts, i + 2 + ll + lr, st1, g2) == engine(
                ts,
                i + 3 + ll + lr,
                stack,
                FrameV { min_bp: top.min_bp, lhs: Some(e), op: top.op },
            ));
            assert(l == 3 + ll + lr);
        },
        _ => {},
    }
}

/// Parsing the printed token spelling of a well-formed operator expression
/// yields that expression back, consuming the whole spelling.
pub proof fn lemma_parse_print_tokens(e: ExprV)
    requires
        wf_operator_expr(e),
    ensures
        parse_expression_v(print_tokens(e), 0) == Ok::<(ExprV, nat), ParseErrV>(
            (e, print_tokens(e).len()),
        ),
{
    let pt = print_tokens(e);
    let root = FrameV { min_bp: 0, lhs: None, op: FrameOp::Root };
    assert(pt.subrange(0, pt.len() as int) =~= pt);
    lemma_engine_print(e, pt, 0, Seq::empty(), root);
    assert(engine(pt, pt.len(), Seq::empty(), FrameV { min_bp: 0, lhs: Some(e), op: FrameOp::Root })
        == Ok::<(ExprV, nat), ParseErrV>((e, pt.len())));
}

} // verus!
