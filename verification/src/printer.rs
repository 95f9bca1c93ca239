//! Re-serializing: the source spelling of tokens, rendering token sequences
//! back to text, and printing expressions as fully parenthesised text that
//! the parser reads back to the same tree.

use vstd::prelude::*;
use crate::ast::{ExprV, Expression, InfixOperator, Operator, PrefixOperator};
use crate::lexer::toks_view;
use crate::token::{keyword_of, Token, TokenV};

verus! {

/// The decimal digit character of `d`.
pub open spec fn digit_char(d: int) -> char {
    if d == 0 {
        '0'
    } else if d == 1 {
        '1'
    } else if d == 2 {
        '2'
    } else if d == 3 {
        '3'
    } else if d == 4 {
        '4'
    } else if d == 5 {
        '5'
    } else if d == 6 {
        '6'
    } else if d == 7 {
        '7'
    } else if d == 8 {
        '8'
    } else {
        '9'
    }
}

/// The decimal spelling of a non-negative integer, most significant digit
/// first.
pub open spec fn int_text(n: int) -> Seq<char>
    decreases n,
        when n >= 0
{
    if n < 10 {
        seq![digit_char(n)]
    } else {
        int_text(n / 10).push(digit_char(n % 10))
    }
}

/// The spelling of an integer literal payload; a negative value carries a
/// leading minus sign.
pub open spec fn int_literal_text(n: int) -> Seq<char> {
    if n >= 0 {
        int_text(n)
    } else {
        seq!['-'] + int_text(-n)
    }
}

/// The source spelling of one token.
pub open spec fn token_text(t: TokenV) -> Seq<char> {
    match t {
        TokenV::Illegal(c) => seq![c],
        TokenV::EndOfFile => Seq::empty(),
        TokenV::Ident(s) => s,
        TokenV::Int(n) => int_literal_text(n),
        TokenV::Boolean(b) => if b {
            seq!['t', 'r', 'u', 'e']
        } else {
            seq!['f', 'a', 'l', 's', 'e']
        },
        TokenV::Assign => seq!['='],
        TokenV::Plus => seq!['+'],
        TokenV::Minus => seq!['-'],
        TokenV::Bang => seq!['!'],
        TokenV::Asterisk => seq!['*'],
        TokenV::Slash => seq!['/'],
        TokenV::LowerThan => seq!['<'],
        TokenV::GreaterThan => seq!['>'],
        TokenV::LowerThanOrEqualTo => seq!['<', '='],
        TokenV::GreaterThanOrEqualTo => seq!['>', '='],
        TokenV::Equal => seq!['=', '='],
        TokenV::NotEqual => seq!['!', '='],
        TokenV::Comma => seq![','],
        TokenV::Semicolon => seq![';'],
        TokenV::LeftParen => seq!['('],
        TokenV::RightParen => seq![')'],
        TokenV::LeftBrace => seq!['{'],
        TokenV::RightBrace => seq!['}'],
        TokenV::Function => seq!['f', 'n'],
        TokenV::Let => seq!['l', 'e', 't'],
        TokenV::If => seq!['i', 'f'],
        TokenV::Else => seq!['e', 'l', 's', 'e'],
        TokenV::Return => seq!['r', 'e', 't', 'u', 'r', 'n'],
    }
}

/// A token sequence rendered back to text: each token's spelling followed by
/// one space.
pub open spec fn render(ts: Seq<TokenV>) -> Seq<char>
    decreases ts,
{
    if ts.len() == 0 {
        Seq::empty()
    } else {
        token_text(ts[0]) + seq![' '] + render(ts.drop_first())
    }
}

/// Relies on `String::push`: it appends exactly the one character to the
/// string.
#[verifier::external_body]
fn push_char(s: &mut String, c: char)
    ensures
        final(s)@ == old(s)@.push(c),
{
    s.push(c)
}

fn digit_char_exec(d: usize) -> (c: char)
    requires
        d < 10,
    ensures
        c == digit_char(d as int),
{
    if d == 0 {
        '0'
    } else if d == 1 {
        '1'
    } else if d == 2 {
        '2'
    } else if d == 3 {
        '3'
    } else if d == 4 {
        '4'
    } else if d == 5 {
        '5'
    } else if d == 6 {
        '6'
    } else if d == 7 {
        '7'
    } else if d == 8 {
        '8'
    } else {
        '9'
    }
}

/// Appends the decimal spelling of an integer literal payload.
fn push_int(s: &mut String, n: isize)
    ensures
        final(s)@ == old(s)@ + int_literal_text(n as int),
{
    let mut m: usize;
    if n < 0 {
        push_char(s, '-');
        m = ((-(n + 1)) as usize) + 1;
        proof {
            assert(m as int == -(n as int));
        }
    } else {
        m = n as usize;
    }
    let ghost mm = m as int;
    let mut rev: Vec<char> = Vec::new();
    let ghost base = s@;
    while m >= 10
        invariant
            0 <= m,
            int_text(mm) =~= int_text(m as int) + rev@.reverse(),
        decreases m,
    {
        let d = digit_char_exec(m % 10);
        proof {
            assert(rev@.push(d).reverse() =~= seq![d] + rev@.reverse());
            assert(int_text(m as int) == int_text(m as int / 10).push(digit_char(m as int % 10)));
            assert(int_text(m as int / 10).push(d) =~= int_text(m as int / 10) + seq![d]);
        }
        rev.push(d);
        m = m / 10;
    }
    push_char(s, digit_char_exec(m));
    proof {
        assert(s@ =~= base + seq![digit_char(m as int)]);
    }
    let mut j = rev.len();
    while j > 0
        invariant
            j <= rev@.len(),
            s@ =~= base + seq![digit_char(m as int)] + rev@.reverse().take(
                rev@.len() - j as int,
            ),
        decreases j,
    {
        j = j - 1;
        push_char(s, rev[j]);
        proof {
            assert(rev@.reverse()[rev@.len() - j - 1] == rev@[j as int]);
            assert(rev@.reverse().take(rev@.len() - j as int) =~= rev@.reverse().take(
                rev@.len() - j - 1,
            ).push(rev@[j as int]));
        }
    }
    proof {
        assert(rev@.reverse().take(rev@.len() as int) =~= rev@.reverse());
        assert(seq![digit_char(m as int)] + rev@.reverse() =~= int_text(m as int)
            + rev@.reverse());
        assert(s@ =~= base + int_text(mm));
    }
}

/// Appends one token's source spelling.
pub fn push_token_text(s: &mut String, t: &Token)
    ensures
        final(s)@ == old(s)@ + token_text(t@),
{
    let ghost base = s@;
    match t {
        Token::Illegal(c) => {
            push_char(s, *c);
            proof {
                assert(s@ =~= base + seq![t@->Illegal_0]);
            }
        },
        Token::EndOfFile => {
            proof {
                assert(s@ =~= base + Seq::<char>::empty());
            }
        },
        Token::Ident(name) => {
            s.append(name.as_str());
        },
        Token::Int(n) => {
            push_int(s, *n);
        },
        Token::Boolean(b) => {
            if *b {
                s.append("true");
                proof {
                    reveal_strlit("true");
                    assert(s@ =~= base + seq!['t', 'r', 'u', 'e']);
                }
            } else {
                s.append("false");
                proof {
                    reveal_strlit("false");
                    assert(s@ =~= base + seq!['f', 'a', 'l', 's', 'e']);
                }
            }
        },
        Token::Assign => {
            push_char(s, '=');
            proof {
                assert(s@ =~= base + seq!['=']);
            }
        },
        Token::Plus => {
            push_char(s, '+');
            proof {
                assert(s@ =~= base + seq!['+']);
            }
        },
        Token::Minus => {
            push_char(s, '-');
            proof {
                assert(s@ =~= base + seq!['-']);
            }
        },
        Token::Bang => {
            push_char(s, '!');
            proof {
                assert(s@ =~= base + seq!['!']);
            }
        },
        Token::Asterisk => {
            push_char(s, '*');
            proof {
                assert(s@ =~= base + seq!['*']);
            }
        },
        Token::Slash => {
            push_char(s, '/');
            proof {
                assert(s@ =~= base + seq!['/']);
            }
        },
        Token::LowerThan => {
            push_char(s, '<');
            proof {
                assert(s@ =~= base + seq!['<']);
            }
        },
        Token::GreaterThan => {
            push_char(s, '>');
            proof {
                assert(s@ =~= base + seq!['>']);
            }
        },
        Token::LowerThanOrEqualTo => {
            push_char(s, '<');
            push_char(s, '=');
            proof {
                assert(s@ =~= base + seq!['<', '=']);
            }
        },
        Token::GreaterThanOrEqualTo => {
            push_char(s, '>');
            push_char(s, '=');
            proof {
                assert(s@ =~= base + seq!['>', '=']);
            }
        },
        Token::Equal => {
            push_char(s, '=');
            push_char(s, '=');
            proof {
                assert(s@ =~= base + seq!['=', '=']);
            }
        },
        Token::NotEqual => {
            push_char(s, '!');
            push_char(s, '=');
            proof {
                assert(s@ =~= base + seq!['!', '=']);
            }
        },
        Token::Comma => {
            push_char(s, ',');
            proof {
                assert(s@ =~= base + seq![',']);
            }
        },
        Token::Semicolon => {
            push_char(s, ';');
            proof {
                assert(s@ =~= base + seq![';']);
            }
        },
        Token::LeftParen => {
            push_char(s, '(');
            proof {
                assert(s@ =~= base + seq!['(']);
            }
        },
        Token::RightParen => {
            push_char(s, ')');
            proof {
                assert(s@ =~= base + seq![')']);
            }
        },
        Token::LeftBrace => {
            push_char(s, '{');
            proof {
                assert(s@ =~= base + seq!['{']);
            }
        },
        Token::RightBrace => {
            push_char(s, '}');
            proof {
                assert(s@ =~= base + seq!['}']);
            }
        },
        Token::Function => {
            s.append("fn");
            proof {
                reveal_strlit("fn");
                assert(s@ =~= base + seq!['f', 'n']);
            }
        },
        Token::Let => {
            s.append("let");
            proof {
                reveal_strlit("let");
                assert(s@ =~= base + seq!['l', 'e', 't']);
            }
        },
        Token::If => {
            s.append("if");
            proof {
                reveal_strlit("if");
                assert(s@ =~= base + seq!['i', 'f']);
            }
        },
        Token::Else => {
            s.append("else");
            proof {
                reveal_strlit("else");
                assert(s@ =~= base + seq!['e', 'l', 's', 'e']);
            }
        },
        Token::Return => {
            s.append("return");
            proof {
                reveal_strlit("return");
                assert(s@ =~= base + seq!['r', 'e', 't', 'u', 'r', 'n']);
            }
        },
    }
}

/// Renders a token sequence back to program text: each token's spelling
/// followed by one space.
pub fn tokens_to_text(ts: &Vec<Token>) -> (r: String)
    ensures
        r@ == render(toks_view(ts@)),
{
    let ghost tv = toks_view(ts@);
    let mut s = String::new();
    let mut i: usize = 0;
    proof {
        assert(tv.skip(0) =~= tv);
        assert(s@ + render(tv) =~= render(tv));
    }
    while i < ts.len()
        invariant
            i <= ts@.len(),
            tv == toks_view(ts@),
            tv.len() == ts@.len(),
            s@ + render(tv.skip(i as int)) == render(tv),
        decreases ts@.len() - i,
    {
        proof {
            assert(tv.skip(i as int)[0] == ts@[i as int]@);
            assert(tv.skip(i as int).drop_first() =~= tv.skip(i as int + 1));
        }
        push_token_text(&mut s, &ts[i]);
        push_char(&mut s, ' ');
        proof {
            assert(render(tv.skip(i as int)) == token_text(tv.skip(i as int)[0]) + seq![' ']
                + render(tv.skip(i as int + 1)));
            assert(s@ + render(tv.skip(i as int + 1)) =~= render(tv));
        }
        i = i + 1;
    }
    proof {
        assert(tv.skip(ts@.len() as int) =~= Seq::<TokenV>::empty());
        assert(s@ =~= s@ + render(tv.skip(ts@.len() as int)));
    }
    s
}

impl Token {
    /// The kind tag of this token, as the fixed spelling the token export
    /// surface uses.
    pub fn token_type(&self) -> (r: &'static str)
        ensures
            r@ == token_type_v(self@),
    {
        match self {
            Token::Illegal(_) => "ILLEGAL",
            Token::EndOfFile => "EOF",
            Token::Ident(_) => "IDENT",
            Token::Int(_) => "INT",
            Token::Boolean(b) => if *b {
                "TRUE"
            } else {
                "FALSE"
            },
            Token::Assign => "=",
            Token::Plus => "+",
            Token::Minus => "-",
            Token::Bang => "!",
            Token::Asterisk => "*",
            Token::Slash => "/",
            Token::LowerThan => "<",
            Token::GreaterThan => ">",
            Token::LowerThanOrEqualTo => "<=",
            Token::GreaterThanOrEqualTo => ">=",
            Token::Equal => "==",
            Token::NotEqual => "!=",
            Token::Comma => ",",
            Token::Semicolon => ";",
            Token::LeftParen => "(",
            Token::RightParen => ")",
            Token::LeftBrace => "{",
            Token::RightBrace => "}",
            Token::Function => "FUNCTION",
            Token::Let => "LET",
            Token::If => "IF",
            Token::Else => "ELSE",
            Token::Return => "RETURN",
        }
    }

    /// The source spelling of this token.
    pub fn literal(&self) -> (r: String)
        ensures
            r@ == token_text(self@),
    {
        let mut s = String::new();
        push_token_text(&mut s, self);
        s
    }
}

/// The operator token of a prefix operator.
pub open spec fn prefix_token(p: PrefixOperator) -> TokenV {
    match p {
        PrefixOperator::Plus => TokenV::Plus,
        PrefixOperator::Minus => TokenV::Minus,
        PrefixOperator::Bang => TokenV::Bang,
    }
}

/// The operator token of an infix operator. `Pow` has no source spelling
/// and stands outside the printable grammar.
pub open spec fn infix_token(o: InfixOperator) -> TokenV {
    match o {
        InfixOperator::Assign => TokenV::Assign,
        InfixOperator::Equal => TokenV::Equal,
        InfixOperator::NotEqual => TokenV::NotEqual,
        InfixOperator::GreaterThan => TokenV::GreaterThan,
        InfixOperator::LowerThan => TokenV::LowerThan,
        InfixOperator::GreaterThanOrEqual => TokenV::GreaterThanOrEqualTo,
        InfixOperator::LowerThanOrEqual => TokenV::LowerThanOrEqualTo,
        InfixOperator::Plus => TokenV::Plus,
        InfixOperator::Minus => TokenV::Minus,
        InfixOperator::Mul => TokenV::Asterisk,
        InfixOperator::Div => TokenV::Slash,
        InfixOperator::Pow => TokenV::Asterisk,
    }
}

/// A valid identifier name: text the lexer reads back as one identifier
/// token.
pub open spec fn wf_name(s: Seq<char>) -> bool {
    &&& s.len() > 0
    &&& crate::lexer::is_letter(s[0])
    &&& forall|k: int| 0 <= k < s.len() ==> crate::lexer::is_word_char(#[trigger] s[k])
    &&& keyword_of(s) is None
}

/// The operator expressions of the engine's grammar: literals, identifiers,
/// and prefix and infix applications of operators that have a source
/// spelling. Calls, blocks and function literals parse at statement level,
/// outside this fragment.
pub open spec fn wf_operator_expr(e: ExprV) -> bool
    decreases e,
{
    match e {
        ExprV::Ident(s) => wf_name(s),
        ExprV::Int(n) => 0 <= n <= isize::MAX as int,
        ExprV::Boolean(_) => true,
        ExprV::PrefixExpression { operator, right } => match operator {
            Operator::Prefix(_) => wf_operator_expr(*right),
            _ => false,
        },
        ExprV::InfixExpression { left, op, right } => match op {
            Operator::Infix(o) => o != InfixOperator::Pow && wf_operator_expr(*left)
                && wf_operator_expr(*right),
            _ => false,
        },
        _ => false,
    }
}

/// The fully parenthesised token spelling of an operator expression: an
/// atom stands alone; a composite is its operator and operands inside one
/// pair of grouping parentheses.
pub open spec fn print_tokens(e: ExprV) -> Seq<TokenV>
    decreases e,
{
    match e {
        ExprV::Ident(s) => seq![TokenV::Ident(s)],
        ExprV::Int(n) => seq![TokenV::Int(n)],
        ExprV::Boolean(b) => seq![TokenV::Boolean(b)],
        ExprV::PrefixExpression { operator, right } => match operator {
            Operator::Prefix(p) => seq![TokenV::LeftParen, prefix_token(p)] + print_tokens(*right)
                + seq![TokenV::RightParen],
            _ => Seq::empty(),
        },
        ExprV::InfixExpression { left, op, right } => match op {
            Operator::Infix(o) => seq![TokenV::LeftParen] + print_tokens(*left) + seq![
                infix_token(o),
            ] + print_tokens(*right) + seq![TokenV::RightParen],
            _ => Seq::empty(),
        },
        _ => Seq::empty(),
    }
}

/// Appends the fully parenthesised token spelling of an operator
/// expression.
fn push_expr_tokens(out: &mut Vec<Token>, e: &Expression)
    ensures
        toks_view(final(out)@) == toks_view(old(out)@) + print_tokens(crate::ast::expr_view(e)),
    decreases e,
{
    let ghost base = toks_view(out@);
    let ghost ev = crate::ast::expr_view(e);
    match e {
        Expression::Ident(s) => {
            out.push(Token::Ident(s.clone()));
            proof {
                assert(toks_view(out@) =~= base + print_tokens(ev));
            }
        },
        Expression::Int(n) => {
            out.push(Token::Int(*n));
            proof {
                assert(toks_view(out@) =~= base + print_tokens(ev));
            }
        },
        Expression::Boolean(b) => {
            out.push(Token::Boolean(*b));
            proof {
                assert(toks_view(out@) =~= base + print_tokens(ev));
            }
        },
        Expression::PrefixExpression { operator, right } => {
            match operator {
                Operator::Prefix(p) => {
                    out.push(Token::LeftParen);
                    match p {
                        PrefixOperator::Plus => out.push(Token::Plus),
                        PrefixOperator::Minus => out.push(Token::Minus),
                        PrefixOperator::Bang => out.push(Token::Bang),
                    }
                    let ghost mid = toks_view(out@);
                    proof {
                        assert(mid =~= base + seq![
                            TokenV::LeftParen,
                            prefix_token(operator->Prefix_0),
                        ]);
                    }
                    push_expr_tokens(out, right);
                    out.push(Token::RightParen);
                    proof {
                        assert(toks_view(out@) =~= (mid + print_tokens(crate::ast::expr_view(
                            &**right,
                        ))) + seq![TokenV::RightParen]);
                        assert(toks_view(out@) =~= base + print_tokens(ev));
                    }
                },
                _ => {
                    proof {
                        assert(toks_view(out@) =~= base + print_tokens(ev));
                    }
                },
            }
        },
        Expression::InfixExpression { left, op, right } => {
            match op {
                Operator::Infix(o) => {
                    out.push(Token::LeftParen);
                    let ghost s1 = toks_view(out@);
                    proof {
                        assert(s1 =~= base + seq![TokenV::LeftParen]);
                    }
                    push_expr_tokens(out, left);
                    match o {
                        InfixOperator::Assign => out.push(Token::Assign),
                        InfixOperator::Equal => out.push(Token::Equal),
                        InfixOperator::NotEqual => out.push(Token::NotEqual),
                        InfixOperator::GreaterThan => out.push(Token::GreaterThan),
                        InfixOperator::LowerThan => out.push(Token::LowerThan),
                        InfixOperator::GreaterThanOrEqual => out.push(
                            Token::GreaterThanOrEqualTo,
                        ),
                        InfixOperator::LowerThanOrEqual => out.push(Token::LowerThanOrEqualTo),
                        InfixOperator::Plus => out.push(Token::Plus),
                        InfixOperator::Minus => out.push(Token::Minus),
                        InfixOperator::Mul => out.push(Token::Asterisk),
                        InfixOperator::Div => out.push(Token::Slash),
                        InfixOperator::Pow => out.push(Token::Asterisk),
                    }
                    let ghost s2 = toks_view(out@);
                    proof {
                        assert(s2 =~= (s1 + print_tokens(crate::ast::expr_view(&**left))) + seq![
                            infix_token(op->Infix_0),
                        ]);
                    }
                    push_expr_tokens(out, right);
                    out.push(Token::RightParen);
                    proof {
                        assert(toks_view(out@) =~= (s2 + print_tokens(crate::ast::expr_view(
                            &**right,
                        ))) + seq![TokenV::RightParen]);
                        assert(toks_view(out@) =~= base + print_tokens(ev));
                    }
                },
                _ => {
                    proof {
                        assert(toks_view(out@) =~= base + print_tokens(ev));
                    }
                },
            }
        },
        _ => {
            proof {
                assert(toks_view(out@) =~= base + print_tokens(ev));
            }
        },
    }
}

/// The fully parenthesised token spelling of an operator expression.
pub fn expr_to_tokens(e: &Expression) -> (r: Vec<Token>)
    ensures
        toks_view(r@) == print_tokens(crate::ast::expr_view(e)),
{
    let mut out: Vec<Token> = Vec::new();
    proof {
        assert(toks_view(out@) =~= Seq::<TokenV>::empty());
    }
    push_expr_tokens(&mut out, e);
    proof {
        assert(Seq::<TokenV>::empty() + print_tokens(crate::ast::expr_view(e)) =~= print_tokens(
            crate::ast::expr_view(e),
        ));
    }
    out
}

impl Expression {
    /// Re-serializes an operator expression to program text: its fully
    /// parenthesised token spelling, rendered with one space after each
    /// token.
    pub fn string(&self) -> (r: String)
        ensures
            r@ == render(print_tokens(crate::ast::expr_view(self))),
    {
        let toks = expr_to_tokens(self);
        tokens_to_text(&toks)
    }
}

/// The kind tag a token is exported under.
pub open spec fn token_type_v(t: TokenV) -> Seq<char> {
    match t {
        TokenV::Illegal(_) => "ILLEGAL"@,
        TokenV::EndOfFile => "EOF"@,
        TokenV::Ident(_) => "IDENT"@,
        TokenV::Int(_) => "INT"@,
        TokenV::Boolean(b) => if b {
            "TRUE"@
        } else {
            "FALSE"@
        },
        TokenV::Assign => "="@,
        TokenV::Plus => "+"@,
        TokenV::Minus => "-"@,
        TokenV::Bang => "!"@,
        TokenV::Asterisk => "*"@,
        TokenV::Slash => "/"@,
        TokenV::LowerThan => "<"@,
        TokenV::GreaterThan => ">"@,
        TokenV::LowerThanOrEqualTo => "<="@,
        TokenV::GreaterThanOrEqualTo => ">="@,
        TokenV::Equal => "=="@,
        TokenV::NotEqual => "!="@,
        TokenV::Comma => ","@,
        TokenV::Semicolon => ";"@,
        TokenV::LeftParen => "("@,
        TokenV::RightParen => ")"@,
        TokenV::LeftBrace => "{"@,
        TokenV::RightBrace => "}"@,
        TokenV::Function => "FUNCTION"@,
        TokenV::Let => "LET"@,
        TokenV::If => "IF"@,
        TokenV::Else => "ELSE"@,
        TokenV::Return => "RETURN"@,
    }
}

} // verus!
