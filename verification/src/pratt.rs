//! The Pratt expression engine: an explicit stack of frames driven by the
//! binding-power table, in place of recursive descent. Each frame holds the
//! minimum binding power accepted at its level, the accumulated left-hand
//! expression (possibly still absent), and what opened the frame.

use vstd::prelude::*;
use crate::ast::{exprs_view, expr_view, ExprV, Expression, Operator};
use crate::ops::{binding_power, binding_power_v, BpKind};
use crate::token::{Token, TokenV};

verus! {

/// What opened a frame: the outermost frame, a grouping parenthesis, or an
/// operator awaiting its right operand.
#[derive(Debug, Clone, Copy, PartialEq, Eq)]
pub enum FrameOp {
    Root,
    Group,
    Op(Operator),
}

/// One frame of the engine's explicit stack.
#[derive(Debug)]
pub struct Frame {
    pub min_bp: u8,
    pub lhs: Option<Expression>,
    pub op: FrameOp,
}

/// The mathematical image of a frame.
pub struct FrameV {
    pub min_bp: u8,
    pub lhs: Option<ExprV>,
    pub op: FrameOp,
}

/// The mathematical image of a frame.
pub open spec fn frame_view(f: &Frame) -> FrameV {
    FrameV {
        min_bp: f.min_bp,
        lhs: match &f.lhs {
            Some(e) => Some(expr_view(e)),
            None => None,
        },
        op: f.op,
    }
}

/// The mathematical images of a stack of frames.
pub open spec fn frames_view(fs: Seq<Frame>) -> Seq<FrameV> {
    fs.map_values(|f: Frame| frame_view(&f))
}

/// What a parse rejects: an unexpected token at a cursor position, input
/// that ends with a frame still awaiting its operand, an unmatched grouping
/// delimiter, or a statement missing its required terminator.
#[derive(Debug, Clone, Copy, PartialEq, Eq)]
pub enum ParseErrorKind {
    UnexpectedToken,
    UnexpectedEnd,
    UnmatchedGroup,
    MissingTerminator,
}

/// A fatal parse error: the kind of rejection and the index of the offending
/// token in the token sequence (the sequence's length when the input ended
/// too early).
#[derive(Debug, Clone, PartialEq, Eq)]
pub struct ParseError {
    pub kind: ParseErrorKind,
    pub pos: usize,
}

/// The mathematical image of a parse error.
pub struct ParseErrV {
    pub kind: ParseErrorKind,
    pub pos: nat,
}

impl View for ParseError {
    type V = ParseErrV;

    open spec fn view(&self) -> ParseErrV {
        ParseErrV { kind: self.kind, pos: self.pos as nat }
    }
}

/// The expression a bare literal or identifier token stands for.
pub open spec fn atom_of(t: TokenV) -> ExprV {
    match t {
        TokenV::Int(n) => ExprV::Int(n),
        TokenV::Boolean(b) => ExprV::Boolean(b),
        TokenV::Ident(s) => ExprV::Ident(s),
        _ => ExprV::Unit,
    }
}

/// An optional accumulated expression, as an operand list of zero or one.
pub open spec fn opt_expr(o: Option<ExprV>) -> Seq<ExprV> {
    match o {
        Some(e) => seq![e],
        None => Seq::empty(),
    }
}

/// The composite node an operator builds from its operand expressions.
pub open spec fn apply_op_v(o: Operator, args: Seq<ExprV>) -> ExprV {
    match o {
        Operator::Prefix(_) => ExprV::PrefixExpression { operator: o, right: Box::new(args[0]) },
        Operator::Infix(_) => ExprV::InfixExpression {
            left: Box::new(args[0]),
            op: o,
            right: Box::new(args[1]),
        },
        Operator::Suffix(_) => ExprV::Unit,
    }
}

/// Pops the top frame and combines its accumulated expression, together with
/// the frame below's, into one composite node that becomes the lower frame's
/// accumulated expression. `None` when the frames cannot combine: the top
/// frame was not opened by an operator, the operand count misses the
/// operator's arity, or there is no frame below.
pub open spec fn pop_frame_v(stack: Seq<FrameV>, top: FrameV) -> Option<FrameV> {
    if stack.len() == 0 {
        None
    } else {
        let below = stack.last();
        match top.op {
            FrameOp::Op(o) => {
                let args = opt_expr(below.lhs) + opt_expr(top.lhs);
                if args.len() == o.arity() {
                    Some(
                        FrameV {
                            min_bp: below.min_bp,
                            lhs: Some(apply_op_v(o, args)),
                            op: below.op,
                        },
                    )
                } else {
                    None
                }
            },
            _ => None,
        }
    }
}

/// The engine itself, one step per recursion: peek the token at `i`, look it
/// up in the binding-power table (in prefix position when the current frame
/// has no accumulated expression yet), and either finish, fail, pop a frame,
/// or consume the token. The reference description of expression parsing.
pub open spec fn engine(ts: Seq<TokenV>, i: nat, stack: Seq<FrameV>, top: FrameV) -> Result<
    (ExprV, nat),
    ParseErrV,
>
    decreases ts.len() - i, stack.len(),
        when i <= ts.len()
{
    let entry = if i < ts.len() {
        binding_power_v(ts[i as int], top.lhs is None)
    } else {
        None
    };
    match entry {
        None => match top.op {
            FrameOp::Root => match top.lhs {
                Some(e) => Ok((e, i)),
                None => if i == ts.len() {
                    Ok((ExprV::Unit, i))
                } else {
                    Err(ParseErrV { kind: ParseErrorKind::UnexpectedToken, pos: i })
                },
            },
            FrameOp::Group => Err(ParseErrV { kind: ParseErrorKind::UnmatchedGroup, pos: i }),
            FrameOp::Op(_) => match pop_frame_v(stack, top) {
                Some(f) => engine(ts, i, stack.drop_last(), f),
                None => Err(
                    ParseErrV {
                        kind: if i == ts.len() {
                            ParseErrorKind::UnexpectedEnd
                        } else {
                            ParseErrorKind::UnexpectedToken
                        },
                        pos: i,
                    },
                ),
            },
        },
        Some((kind, bp)) => {
            if bp.0 < top.min_bp {
                match pop_frame_v(stack, top) {
                    Some(f) => engine(ts, i, stack.drop_last(), f),
                    None => Err(ParseErrV { kind: ParseErrorKind::UnexpectedToken, pos: i }),
                }
            } else {
                match kind {
                    BpKind::Atom => engine(
                        ts,
                        i + 1,
                        stack,
                        FrameV { min_bp: top.min_bp, lhs: Some(atom_of(ts[i as int])), op: top.op },
                    ),
                    BpKind::Group => engine(
                        ts,
                        i + 1,
                        stack.push(top),
                        FrameV { min_bp: 0, lhs: None, op: FrameOp::Group },
                    ),
                    BpKind::Close => match top.op {
                        FrameOp::Group => {
                            if stack.len() == 0 {
                                Err(ParseErrV { kind: ParseErrorKind::UnexpectedToken, pos: i })
                            } else {
                                match top.lhs {
                                    Some(e) => engine(
                                        ts,
                                        i + 1,
                                        stack.drop_last(),
                                        FrameV {
                                            min_bp: stack.last().min_bp,
                                            lhs: Some(e),
                                            op: stack.last().op,
                                        },
                                    ),
                                    None => Err(
                                        ParseErrV { kind: ParseErrorKind::UnexpectedToken, pos: i },
                                    ),
                                }
                            }
                        },
                        FrameOp::Root => match top.lhs {
                            Some(e) => Ok((e, i)),
                            None => Err(
                                ParseErrV { kind: ParseErrorKind::UnexpectedToken, pos: i },
                            ),
                        },
                        FrameOp::Op(_) => Err(
                            ParseErrV { kind: ParseErrorKind::UnexpectedToken, pos: i },
                        ),
                    },
                    BpKind::Op(o) => engine(
                        ts,
                        i + 1,
                        stack.push(top),
                        FrameV { min_bp: bp.1, lhs: None, op: FrameOp::Op(o) },
                    ),
                }
            }
        },
    }
}

/// The expression found in `ts` from token index `i` on, together with the
/// index of the first token after it; or the first fatal parse error.
pub open spec fn parse_expression_v(ts: Seq<TokenV>, i: nat) -> Result<(ExprV, nat), ParseErrV> {
    engine(ts, i, Seq::empty(), FrameV { min_bp: 0, lhs: None, op: FrameOp::Root })
}

/// The expression a bare literal or identifier token stands for.
fn token_to_atom(t: &Token) -> (e: Expression)
    ensures
        expr_view(&e) == atom_of(t@),
{
    match t {
        Token::Int(n) => Expression::Int(*n),
        Token::Boolean(b) => Expression::Boolean(*b),
        Token::Ident(s) => Expression::Ident(s.clone()),
        _ => Expression::Unit,
    }
}

/// Builds the composite node of an operator applied to its operands.
fn apply_operator(o: Operator, args: Vec<Expression>) -> (e: Expression)
    requires
        args@.len() == o.arity(),
    ensures
        expr_view(&e) == apply_op_v(o, exprs_view(args@)),
{
    proof {
        crate::ast::lemma_exprs_view_index(args@);
    }
    let mut args = args;
    match o {
        Operator::Prefix(_) => match args.pop() {
            Some(r) => Expression::PrefixExpression { operator: o, right: Box::new(r) },
            None => {
                proof {
                    assert(false);
                }
                Expression::Unit
            },
        },
        Operator::Infix(_) => {
            let right = match args.pop() {
                Some(r) => r,
                None => {
                    proof {
                        assert(false);
                    }
                    Expression::Unit
                },
            };
            let left = match args.pop() {
                Some(l) => l,
                None => {
                    proof {
                        assert(false);
                    }
                    Expression::Unit
                },
            };
            Expression::InfixExpression { left: Box::new(left), op: o, right: Box::new(right) }
        },
        Operator::Suffix(_) => Expression::Unit,
    }
}

/// Pops the top frame off the stack, combining it into the frame below; on
/// any failure hands back a parse error of the given kind at token index
/// `at`.
fn pop_combine(stack: &mut Vec<Frame>, top: Frame, fail_kind: ParseErrorKind, at: usize) -> (r:
    Result<Frame, ParseError>)
    ensures
        match pop_frame_v(frames_view(old(stack)@), frame_view(&top)) {
            Some(f) => {
                &&& r matches Ok(fr) && frame_view(&fr) == f
                &&& final(stack)@ == old(stack)@.drop_last()
            },
            None => r matches Err(pe) && pe.kind == fail_kind && pe.pos == at,
        },
{
    let ghost sv = frames_view(stack@);
    let o = match top.op {
        FrameOp::Op(o) => o,
        _ => {
            return Err(ParseError { kind: fail_kind, pos: at });
        },
    };
    let below = match stack.pop() {
        Some(b) => b,
        None => {
            return Err(ParseError { kind: fail_kind, pos: at });
        },
    };
    proof {
        assert(frames_view(stack@) =~= sv.drop_last());
        assert(frame_view(&below) == sv.last());
    }
    let mut args: Vec<Expression> = Vec::new();
    let below_min_bp = below.min_bp;
    let below_op = below.op;
    match below.lhs {
        Some(l) => args.push(l),
        None => {},
    }
    match top.lhs {
        Some(r) => args.push(r),
        None => {},
    }
    proof {
        crate::ast::lemma_exprs_view_index(args@);
        assert(exprs_view(args@) =~= opt_expr(sv.last().lhs) + opt_expr(frame_view(&top).lhs));
    }
    if args.len() == o.number_of_parameters() as usize {
        let combined = apply_operator(o, args);
        Ok(Frame { min_bp: below_min_bp, lhs: Some(combined), op: below_op })
    } else {
        Err(ParseError { kind: fail_kind, pos: at })
    }
}

/// Parses one expression out of `tokens` starting at token index `pos`, with
/// the explicit frame stack, and hands back the expression together with the
/// index of the first token after it. The expression ends at the first token
/// the binding-power table rejects in its position; an unexpected token with
/// no pending expression, an unmatched grouping delimiter, or input that
/// ends with an open frame is a fatal parse error.
pub fn expr_bp(tokens: &Vec<Token>, pos: usize) -> (r: Result<(Expression, usize), ParseError>)
    requires
        pos <= tokens@.len(),
    ensures
        match r {
            Ok(p) => {
                &&& parse_expression_v(crate::lexer::toks_view(tokens@), pos as nat) == Ok::<
                    _,
                    ParseErrV,
                >((expr_view(&p.0), p.1 as nat))
                &&& pos <= p.1 <= tokens@.len()
                &&& (pos < tokens@.len() ==> pos < p.1)
            },
            Err(pe) => parse_expression_v(crate::lexer::toks_view(tokens@), pos as nat) == Err::<
                (ExprV, nat),
                _,
            >(pe@),
        },
{
    let ghost tv = crate::lexer::toks_view(tokens@);
    let mut stack: Vec<Frame> = Vec::new();
    let mut top = Frame { min_bp: 0, lhs: None, op: FrameOp::Root };
    let mut i: usize = pos;
    proof {
        assert(frames_view(stack@) =~= Seq::<FrameV>::empty());
    }
    loop
        invariant
            pos <= i <= tokens@.len(),
            tv == crate::lexer::toks_view(tokens@),
            i == pos ==> stack@.len() == 0 && top.lhs is None && top.op == FrameOp::Root,
            engine(tv, i as nat, frames_view(stack@), frame_view(&top)) == parse_expression_v(
                tv,
                pos as nat,
            ),
        decreases tokens@.len() - i, stack@.len(),
    {
        let ghost sv = frames_view(stack@);
        let ghost topv = frame_view(&top);
        let ghost oi = i as nat;
        let prefix = top.lhs.is_none();
        let entry = if i < tokens.len() {
            binding_power(&tokens[i], prefix)
        } else {
            None
        };
        proof {
            if i < tokens@.len() {
                assert(tv[i as int] == tokens@[i as int]@);
            }
        }
        match entry {
            None => {
                match top.op {
                    FrameOp::Root => match top.lhs {
                        Some(e) => {
                            return Ok((e, i));
                        },
                        None => {
                            if i == tokens.len() {
                                return Ok((Expression::Unit, i));
                            } else {
                                return Err(
                                    ParseError { kind: ParseErrorKind::UnexpectedToken, pos: i },
                                );
                            }
                        },
                    },
                    FrameOp::Group => {
                        return Err(ParseError { kind: ParseErrorKind::UnmatchedGroup, pos: i });
                    },
                    FrameOp::Op(_) => {
                        let fail_kind = if i == tokens.len() {
                            ParseErrorKind::UnexpectedEnd
                        } else {
                            ParseErrorKind::UnexpectedToken
                        };
                        match pop_combine(&mut stack, top, fail_kind, i) {
                            Ok(f) => {
                                top = f;
                                proof {
                                    assert(frames_view(stack@) =~= sv.drop_last());
                                    assert(engine(tv, i as nat, frames_view(stack@), frame_view(&top)) == engine(tv, oi, sv, topv));
                                }
                            },
                            Err(pe) => {
                                return Err(pe);
                            },
                        }
                    },
                }
            },
            Some((kind, bp)) => {
                if bp.0 < top.min_bp {
                    match pop_combine(&mut stack, top, ParseErrorKind::UnexpectedToken, i) {
                        Ok(f) => {
                            top = f;
                            proof {
                                assert(frames_view(stack@) =~= sv.drop_last());
                                assert(engine(tv, i as nat, frames_view(stack@), frame_view(&top)) == engine(tv, oi, sv, topv));
                            }
                        },
                        Err(pe) => {
                            return Err(pe);
                        },
                    }
                } else {
                    match kind {
                        BpKind::Atom => {
                            let a = token_to_atom(&tokens[i]);
                            top.lhs = Some(a);
                            i = i + 1;
                            proof {
                                assert(engine(tv, i as nat, frames_view(stack@), frame_view(&top)) == engine(tv, oi, sv, topv));
                            }
                        },
                        BpKind::Group => {
                            stack.push(top);
                            top = Frame { min_bp: 0, lhs: None, op: FrameOp::Group };
                            i = i + 1;
                            proof {
                                assert(frames_view(stack@) =~= sv.push(topv));
                                assert(engine(tv, i as nat, frames_view(stack@), frame_view(&top)) == engine(tv, oi, sv, topv));
                            }
                        },
                        BpKind::Close => match top.op {
                            FrameOp::Group => {
                                match stack.pop() {
                                    Some(below) => match top.lhs {
                                        Some(e) => {
                                            proof {
                                                assert(frames_view(stack@) =~= sv.drop_last());
                                                assert(frame_view(&below) == sv.last());
                                            }
                                            top = Frame {
                                                min_bp: below.min_bp,
                                                lhs: Some(e),
                                                op: below.op,
                                            };
                                            i = i + 1;
                                            proof {
                                                assert(engine(tv, i as nat, frames_view(stack@), frame_view(&top)) == engine(tv, oi, sv, topv));
                                            }
                                        },
                                        None => {
                                            return Err(
                                                ParseError {
                                                    kind: ParseErrorKind::UnexpectedToken,
                                                    pos: i,
                                                },
                                            );
                                        },
                                    },
                                    None => {
                                        return Err(
                                            ParseError {
                                                kind: ParseErrorKind::UnexpectedToken,
                                                pos: i,
                                            },
                                        );
                                    },
                                }
                            },
                            FrameOp::Root => match top.lhs {
                                Some(e) => {
                                    return Ok((e, i));
                                },
                                None => {
                                    return Err(
                                        ParseError { kind: ParseErrorKind::UnexpectedToken, pos: i },
                                    );
                                },
                            },
                            FrameOp::Op(_) => {
                                return Err(
                                    ParseError { kind: ParseErrorKind::UnexpectedToken, pos: i },
                                );
                            },
                        },
                        BpKind::Op(o) => {
                            stack.push(top);
                            top = Frame { min_bp: bp.1, lhs: None, op: FrameOp::Op(o) };
                            i = i + 1;
                            proof {
                                assert(frames_view(stack@) =~= sv.push(topv));
                                assert(engine(tv, i as nat, frames_view(stack@), frame_view(&top)) == engine(tv, oi, sv, topv));
                            }
                        },
                    }
                }
            },
        }
    }
}

} // verus!
