//! The lexer: a single forward pass over the source text that turns it into
//! a finite sequence of tokens, with one to two characters of lookahead.

use vstd::prelude::*;
use crate::token::{classify_word, Token, TokenV};

verus! {

/// Characters skipped between tokens.
pub open spec fn is_ws(c: char) -> bool {
    c == ' ' || c == '\t' || c == '\n' || c == '\r'
}

/// Characters that may start an identifier.
pub open spec fn is_letter(c: char) -> bool {
    ('a' <= c && c <= 'z') || ('A' <= c && c <= 'Z')
}

/// Decimal digits.
pub open spec fn is_dec_digit(c: char) -> bool {
    '0' <= c && c <= '9'
}

/// Characters that may continue an identifier: letters and decimal digits.
pub open spec fn is_word_char(c: char) -> bool {
    is_letter(c) || is_dec_digit(c)
}

/// The numeric value of a digit character; hexadecimal letters count from 10.
/// Other characters are given value 0, but only digit characters are ever
/// measured.
pub open spec fn digit_value(c: char) -> int {
    if '0' <= c && c <= '9' {
        c as int - '0' as int
    } else if 'a' <= c && c <= 'f' {
        c as int - 'a' as int + 10
    } else if 'A' <= c && c <= 'F' {
        c as int - 'A' as int + 10
    } else {
        0
    }
}

/// Whether `c` is a valid digit under the given radix (2, 8, 10 or 16).
pub open spec fn is_radix_digit(c: char, radix: int) -> bool {
    &&& (is_dec_digit(c) || ('a' <= c && c <= 'f') || ('A' <= c && c <= 'F'))
    &&& digit_value(c) < radix
}

/// The position of the first non-whitespace character at or after `i`.
pub open spec fn ws_end(s: Seq<char>, i: nat) -> nat
    decreases s.len() - i,
        when i <= s.len()
{
    if i < s.len() && is_ws(s[i as int]) {
        ws_end(s, i + 1)
    } else {
        i
    }
}

/// The end of the maximal run of identifier characters starting at `i`.
pub open spec fn word_end(s: Seq<char>, i: nat) -> nat
    decreases s.len() - i,
        when i <= s.len()
{
    if i < s.len() && is_word_char(s[i as int]) {
        word_end(s, i + 1)
    } else {
        i
    }
}

/// The end of the maximal run of digits valid for `radix` starting at `i`.
pub open spec fn digit_end(s: Seq<char>, i: nat, radix: int) -> nat
    decreases s.len() - i,
        when i <= s.len()
{
    if i < s.len() && is_radix_digit(s[i as int], radix) {
        digit_end(s, i + 1, radix)
    } else {
        i
    }
}

/// The value of a digit string read under `radix`, most significant digit
/// first.
pub open spec fn digits_value(ds: Seq<char>, radix: int) -> int
    decreases ds.len(),
{
    if ds.len() == 0 {
        0
    } else {
        digits_value(ds.drop_last(), radix) * radix + digit_value(ds.last())
    }
}

/// The radix declared by a two-character prefix at position `i`: `0x`
/// hexadecimal, `0b` binary, `0o` octal, decimal otherwise.
pub open spec fn radix_at(s: Seq<char>, i: nat) -> int {
    if i + 2 <= s.len() && s[i as int] == '0' && s[i as int + 1] == 'x' {
        16
    } else if i + 2 <= s.len() && s[i as int] == '0' && s[i as int + 1] == 'b' {
        2
    } else if i + 2 <= s.len() && s[i as int] == '0' && s[i as int + 1] == 'o' {
        8
    } else {
        10
    }
}

/// How many characters the radix prefix at position `i` occupies.
pub open spec fn radix_prefix_len(s: Seq<char>, i: nat) -> nat {
    if radix_at(s, i) == 10 {
        0
    } else {
        2
    }
}

/// What the lexer finds next, scanning from position `i`: end of input, a
/// malformed numeric literal at a position, or one token together with the
/// position just after it.
pub enum NextV {
    Eof,
    Bad { pos: nat },
    Tok { t: TokenV, end: nat },
}

/// The next token of `s` starting at position `i`, after skipping whitespace.
/// This is the reference description of one step of the lexer.
pub open spec fn next_at(s: Seq<char>, i: nat) -> NextV {
    let j = ws_end(s, i);
    if j >= s.len() {
        NextV::Eof
    } else {
        let c = s[j as int];
        if c == '=' {
            if j + 1 < s.len() && s[j as int + 1] == '=' {
                NextV::Tok { t: TokenV::Equal, end: j + 2 }
            } else {
                NextV::Tok { t: TokenV::Assign, end: j + 1 }
            }
        } else if c == '!' {
            if j + 1 < s.len() && s[j as int + 1] == '=' {
                NextV::Tok { t: TokenV::NotEqual, end: j + 2 }
            } else {
                NextV::Tok { t: TokenV::Bang, end: j + 1 }
            }
        } else if c == '<' {
            if j + 1 < s.len() && s[j as int + 1] == '=' {
                NextV::Tok { t: TokenV::LowerThanOrEqualTo, end: j + 2 }
            } else {
                NextV::Tok { t: TokenV::LowerThan, end: j + 1 }
            }
        } else if c == '>' {
            if j + 1 < s.len() && s[j as int + 1] == '=' {
                NextV::Tok { t: TokenV::GreaterThanOrEqualTo, end: j + 2 }
            } else {
                NextV::Tok { t: TokenV::GreaterThan, end: j + 1 }
            }
        } else if c == '+' {
            NextV::Tok { t: TokenV::Plus, end: j + 1 }
        } else if c == '-' {
            NextV::Tok { t: TokenV::Minus, end: j + 1 }
        } else if c == '*' {
            NextV::Tok { t: TokenV::Asterisk, end: j + 1 }
        } else if c == '/' {
            NextV::Tok { t: TokenV::Slash, end: j + 1 }
        } else if c == ';' {
            NextV::Tok { t: TokenV::Semicolon, end: j + 1 }
        } else if c == ',' {
            NextV::Tok { t: TokenV::Comma, end: j + 1 }
        } else if c == '{' {
            NextV::Tok { t: TokenV::LeftBrace, end: j + 1 }
        } else if c == '}' {
            NextV::Tok { t: TokenV::RightBrace, end: j + 1 }
        } else if c == '(' {
            NextV::Tok { t: TokenV::LeftParen, end: j + 1 }
        } else if c == ')' {
            NextV::Tok { t: TokenV::RightParen, end: j + 1 }
        } else if is_letter(c) {
            let e = word_end(s, j);
            NextV::Tok { t: classify_word(s.subrange(j as int, e as int)), end: e }
        } else if is_dec_digit(c) {
            let radix = radix_at(s, j);
            let p = j + radix_prefix_len(s, j);
            let e = digit_end(s, p, radix);
            if e == p {
                NextV::Bad { pos: j }
            } else if digits_value(s.subrange(p as int, e as int), radix) > isize::MAX as int {
                NextV::Bad { pos: j }
            } else {
                NextV::Tok {
                    t: TokenV::Int(digits_value(s.subrange(p as int, e as int), radix)),
                    end: e,
                }
            }
        } else {
            NextV::Tok { t: TokenV::Illegal(c), end: j + 1 }
        }
    }
}

pub proof fn lemma_ws_end_bounds(s: Seq<char>, i: nat)
    requires
        i <= s.len(),
    ensures
        i <= ws_end(s, i) <= s.len(),
    decreases s.len() - i,
{
    if i < s.len() && is_ws(s[i as int]) {
        lemma_ws_end_bounds(s, i + 1);
    }
}

pub proof fn lemma_word_end_bounds(s: Seq<char>, i: nat)
    requires
        i <= s.len(),
    ensures
        i <= word_end(s, i) <= s.len(),
    decreases s.len() - i,
{
    if i < s.len() && is_word_char(s[i as int]) {
        lemma_word_end_bounds(s, i + 1);
    }
}

pub proof fn lemma_digit_end_bounds(s: Seq<char>, i: nat, radix: int)
    requires
        i <= s.len(),
    ensures
        i <= digit_end(s, i, radix) <= s.len(),
    decreases s.len() - i,
{
    if i < s.len() && is_radix_digit(s[i as int], radix) {
        lemma_digit_end_bounds(s, i + 1, radix);
    }
}

/// Whatever the lexer finds at position `i`, it does not step outside the
/// input, and a found token always occupies at least one character.
pub proof fn lemma_next_at_bounds(s: Seq<char>, i: nat)
    requires
        i <= s.len(),
    ensures
        match next_at(s, i) {
            NextV::Eof => true,
            NextV::Bad { pos } => i <= pos <= s.len(),
            NextV::Tok { t, end } => i < end <= s.len(),
        },
{
    lemma_ws_end_bounds(s, i);
    let j = ws_end(s, i);
    if j < s.len() {
        let c = s[j as int];
        if is_letter(c) && !(c == '=' || c == '!' || c == '<' || c == '>' || c == '+' || c == '-'
            || c == '*' || c == '/' || c == ';' || c == ',' || c == '{' || c == '}' || c == '('
            || c == ')') {
            lemma_word_end_bounds(s, j);
            assert(word_end(s, j) == word_end(s, j + 1));
            lemma_word_end_bounds(s, (j + 1) as nat);
        }
        if is_dec_digit(c) {
            let radix = radix_at(s, j);
            let p = j + radix_prefix_len(s, j);
            assert(p <= s.len());
            lemma_digit_end_bounds(s, p, radix);
        }
    }
}

/// The token sequence of `s` from position `i` on: the reference description
/// of the whole lexer run. An `Err` carries the position of a malformed
/// numeric literal.
pub open spec fn tokens_from(s: Seq<char>, i: nat) -> Result<Seq<TokenV>, nat>
    decreases s.len() - i,
        when i <= s.len()
{
    match next_at(s, i) {
        NextV::Eof => Ok(Seq::empty()),
        NextV::Bad { pos } => Err(pos),
        NextV::Tok { t, end } => {
            proof {
                lemma_next_at_bounds(s, i);
            }
            match tokens_from(s, end) {
                Ok(ts) => Ok(seq![t] + ts),
                Err(p) => Err(p),
            }
        },
    }
}

/// The token sequence of a whole input.
pub open spec fn tokenize_v(s: Seq<char>) -> Result<Seq<TokenV>, nat> {
    tokens_from(s, 0)
}

/// The views of a sequence of tokens.
pub open spec fn toks_view(v: Seq<Token>) -> Seq<TokenV> {
    v.map_values(|t: Token| t@)
}

/// A fatal lexical error: a numeric literal with no valid digit for its
/// declared radix, or one too large for the integer type, starting at
/// character position `pos`.
#[derive(Debug, Clone, PartialEq, Eq)]
pub struct LexError {
    pub pos: usize,
}

fn ws_char(c: char) -> (b: bool)
    ensures
        b == is_ws(c),
{
    c == ' ' || c == '\t' || c == '\n' || c == '\r'
}

fn letter_char(c: char) -> (b: bool)
    ensures
        b == is_letter(c),
{
    (c >= 'a' && c <= 'z') || (c >= 'A' && c <= 'Z')
}

fn dec_digit_char(c: char) -> (b: bool)
    ensures
        b == is_dec_digit(c),
{
    c >= '0' && c <= '9'
}

/// The optional radix prefix of an integer literal: `0x`, `0b`, `0o`, or none
/// for plain decimal.
#[derive(Debug, Clone, PartialEq, Eq)]
pub enum IntPrefix {
    Hexadecimal,
    Binary,
    Octal,
    Decimal,
}

impl IntPrefix {
    /// The radix this prefix declares.
    pub open spec fn radix(&self) -> int {
        match self {
            IntPrefix::Hexadecimal => 16,
            IntPrefix::Binary => 2,
            IntPrefix::Octal => 8,
            IntPrefix::Decimal => 10,
        }
    }

    fn radix_exec(&self) -> (r: isize)
        ensures
            r as int == self.radix(),
    {
        match self {
            IntPrefix::Hexadecimal => 16,
            IntPrefix::Binary => 2,
            IntPrefix::Octal => 8,
            IntPrefix::Decimal => 10,
        }
    }

    /// Whether `digit` is a valid digit under this prefix's radix.
    pub fn is_digit(&self, digit: char) -> (b: bool)
        ensures
            b == is_radix_digit(digit, self.radix()),
    {
        let v: u32 = if digit >= '0' && digit <= '9' {
            digit as u32 - '0' as u32
        } else if digit >= 'a' && digit <= 'f' {
            digit as u32 - 'a' as u32 + 10
        } else if digit >= 'A' && digit <= 'F' {
            digit as u32 - 'A' as u32 + 10
        } else {
            return false;
        };
        let r = self.radix_exec();
        v < r as u32
    }

    /// The numeric value of `digit` under this prefix's radix.
    fn digit_val(&self, digit: char) -> (v: isize)
        requires
            is_radix_digit(digit, self.radix()),
        ensures
            v as int == digit_value(digit),
            0 <= v < self.radix(),
    {
        if digit >= '0' && digit <= '9' {
            (digit as u32 - '0' as u32) as isize
        } else if digit >= 'a' && digit <= 'f' {
            (digit as u32 - 'a' as u32 + 10) as isize
        } else {
            (digit as u32 - 'A' as u32 + 10) as isize
        }
    }

    /// The value of a full digit string under this prefix's radix: `Some`
    /// exactly when the string is non-empty, every character is a valid digit
    /// for the radix, and the value fits in `isize`.
    pub fn parse_number(&self, number: &str) -> (r: Option<isize>)
        ensures
            match r {
                Some(v) => {
                    &&& number@.len() > 0
                    &&& forall|k: int|
                        0 <= k < number@.len() ==> is_radix_digit(#[trigger] number@[k], self.radix())
                    &&& v as int == digits_value(number@, self.radix())
                },
                None => {
                    ||| number@.len() == 0
                    ||| exists|k: int|
                        0 <= k < number@.len() && !is_radix_digit(
                            #[trigger] number@[k],
                            self.radix(),
                        )
                    ||| digits_value(number@, self.radix()) > isize::MAX as int
                },
            },
    {
        let n = number.unicode_len();
        if n == 0 {
            return None;
        }
        let radix = self.radix_exec();
        let mut value: isize = 0;
        let mut i: usize = 0;
        while i < n
            invariant
                0 < n == number@.len(),
                0 <= i <= n,
                2 <= radix as int == self.radix() <= 16,
                forall|k: int| 0 <= k < i ==> is_radix_digit(#[trigger] number@[k], self.radix()),
                0 <= value as int == digits_value(number@.subrange(0, i as int), self.radix())
                    <= isize::MAX as int,
            decreases n - i,
        {
            let c = number.get_char(i);
            if !self.is_digit(c) {
                return None;
            }
            let d = self.digit_val(c);
            if value > (isize::MAX - d) / radix {
                proof {
                    lemma_digits_overflow(number@, i as nat, value as int, d as int, radix as int);
                }
                return None;
            }
            proof {
                lemma_digits_step_fits(value as int, d as int, radix as int, isize::MAX as int);
                assert(number@.subrange(0, i as int + 1).drop_last() =~= number@.subrange(0, i as int));
                assert(number@.subrange(0, i as int + 1).last() == number@[i as int]);
            }
            value = value * radix + d;
            i = i + 1;
        }
        proof {
            assert(number@.subrange(0, n as int) =~= number@);
        }
        Some(value)
    }
}

/// A digit string extended by further digits never gets smaller; so once a
/// prefix of the digits is too large for the integer type, the whole literal
/// is.
proof fn lemma_digits_monotone(ds: Seq<char>, k: nat, radix: int)
    requires
        2 <= radix,
        k <= ds.len(),
    ensures
        digits_value(ds, radix) >= digits_value(ds.subrange(0, k as int), radix),
        digits_value(ds, radix) >= 0,
    decreases ds.len(),
{
    if ds.len() == 0 {
    } else {
        lemma_digits_monotone(ds.drop_last(), if k < ds.len() { k } else { (ds.len() - 1) as nat },
            radix);
        let v = digits_value(ds.drop_last(), radix);
        let d = digit_value(ds.last());
        assert(d >= 0);
        assert(v * radix >= v) by (nonlinear_arith)
            requires
                v >= 0,
                radix >= 2,
        ;
        if k < ds.len() {
            assert(ds.drop_last().subrange(0, k as int) =~= ds.subrange(0, k as int));
        } else {
            assert(ds.subrange(0, k as int) =~= ds);
        }
    }
}

/// If the accumulated value is already over the overflow guard, the finished
/// literal's value exceeds the integer type's maximum.
proof fn lemma_digits_overflow(s: Seq<char>, i: nat, value: int, d: int, radix: int)
    requires
        i < s.len(),
        2 <= radix <= 16,
        0 <= d < radix,
        d == digit_value(s[i as int]),
        value == digits_value(s.subrange(0, i as int), radix),
        value > (isize::MAX as int - d) / radix,
        value >= 0,
    ensures
        digits_value(s, radix) > isize::MAX as int,
{
    let q = (isize::MAX as int - d) / radix;
    vstd::arithmetic::div_mod::lemma_fundamental_div_mod(isize::MAX as int - d, radix);
    assert((isize::MAX as int - d) % radix < radix) by {
        vstd::arithmetic::div_mod::lemma_mod_bound(isize::MAX as int - d, radix);
    }
    assert(value >= q + 1);
    assert(value * radix >= (q + 1) * radix) by (nonlinear_arith)
        requires
            value >= q + 1,
            radix >= 2,
    ;
    assert((q + 1) * radix == q * radix + radix) by (nonlinear_arith);
    assert(q * radix > isize::MAX as int - d - radix);
    assert(value * radix + d > isize::MAX as int);
    assert(digits_value(s.subrange(0, i as int + 1), radix) == value * radix + d) by {
        assert(s.subrange(0, i as int + 1).drop_last() =~= s.subrange(0, i as int));
        assert(s.subrange(0, i as int + 1).last() == s[i as int]);
    }
    lemma_digits_monotone(s, i + 1, radix);
}

/// The lexer state: the source text and a cursor. The cursor discipline
/// follows the token loop: scanning a multi-character token leaves the cursor
/// on its last character, and the loop performs one unconditional advance
/// after every token.
pub struct Lexer {
    input: String,
    chars: Vec<char>,
    current: usize,
}

impl Lexer {
    /// The source text being scanned.
    pub closed spec fn text(&self) -> Seq<char> {
        self.input@
    }

    /// The cursor: a character position into the text.
    pub closed spec fn pos(&self) -> nat {
        self.current as nat
    }

    /// The cursor sits inside the text (or just past it) and the scanning
    /// buffer mirrors the text.
    pub closed spec fn wf(&self) -> bool {
        self.chars@ == self.input@ && self.current <= self.chars@.len()
    }

    pub fn new(input: String) -> (l: Lexer)
        ensures
            l.wf(),
            l.text() == input@,
            l.pos() == 0,
    {
        let n = input.as_str().unicode_len();
        let mut chars: Vec<char> = Vec::new();
        let mut i: usize = 0;
        while i < n
            invariant
                i <= n,
                n == input@.len(),
                chars@.len() == i,
                forall|k: int| 0 <= k < i ==> chars@[k] == input@[k],
            decreases n - i,
        {
            chars.push(input.as_str().get_char(i));
            i = i + 1;
        }
        proof {
            assert(chars@ =~= input@);
        }
        Lexer { input, chars, current: 0 }
    }

    /// The character `distance_from_current` places past the cursor, if the
    /// text reaches that far.
    fn get_char(&self, distance_from_current: usize) -> (r: Option<char>)
        requires
            self.wf(),
        ensures
            r == if self.pos() + distance_from_current < self.text().len() {
                Some(self.text()[self.pos() + distance_from_current])
            } else {
                None::<char>
            },
    {
        if distance_from_current < self.chars.len() && self.current < self.chars.len()
            - distance_from_current {
            Some(self.chars[self.current + distance_from_current])
        } else {
            None
        }
    }

    /// Advances the cursor by one character, unless the text is exhausted.
    pub fn read_char(&mut self)
        requires
            old(self).wf(),
        ensures
            final(self).wf(),
            final(self).text() == old(self).text(),
            final(self).pos() == if old(self).pos() < old(self).text().len() {
                old(self).pos() + 1
            } else {
                old(self).pos()
            },
    {
        if self.current < self.chars.len() {
            self.current = self.current + 1;
        }
    }

    /// Skips the run of whitespace under the cursor.
    pub fn skip_whitespaces(&mut self)
        requires
            old(self).wf(),
        ensures
            final(self).wf(),
            final(self).text() == old(self).text(),
            final(self).pos() == ws_end(old(self).text(), old(self).pos()),
    {
        while self.current < self.chars.len() && ws_char(self.chars[self.current])
            invariant
                self.wf(),
                self.text() == old(self).text(),
                ws_end(self.text(), self.pos()) == ws_end(self.text(), old(self).pos()),
            decreases self.chars@.len() - self.current,
        {
            self.current = self.current + 1;
        }
    }

    /// Reads the maximal identifier run under the cursor and leaves the
    /// cursor on its last character.
    pub fn read_identifier(&mut self) -> (r: String)
        requires
            old(self).wf(),
            old(self).pos() < old(self).text().len(),
            is_letter(old(self).text()[old(self).pos() as int]),
        ensures
            final(self).wf(),
            final(self).text() == old(self).text(),
            final(self).pos() + 1 == word_end(old(self).text(), old(self).pos()),
            r@ == old(self).text().subrange(
                old(self).pos() as int,
                word_end(old(self).text(), old(self).pos()) as int,
            ),
    {
        let start = self.current;
        while self.current < self.chars.len() && word_char(self.chars[self.current])
            invariant
                self.wf(),
                self.text() == old(self).text(),
                start <= self.current,
                word_end(self.text(), self.pos()) == word_end(self.text(), start as nat),
            decreases self.chars@.len() - self.current,
        {
            self.current = self.current + 1;
        }
        proof {
            assert(word_end(self.text(), start as nat) == word_end(self.text(), start as nat + 1));
        }
        let buf = self.input.as_str().substring_char(start, self.current).to_owned();
        self.current = self.current - 1;
        buf
    }
}

fn word_char(c: char) -> (b: bool)
    ensures
        b == is_word_char(c),
{
    letter_char(c) || dec_digit_char(c)
}

impl Lexer {
    /// Reads the integer literal under the cursor: an optional two-character
    /// radix prefix, then the maximal run of digits valid for that radix.
    /// Leaves the cursor on the last consumed character. A literal with no
    /// valid digit, or one whose value does not fit the integer type, is a
    /// fatal lexical error carrying the literal's starting position.
    pub fn read_number(&mut self) -> (r: Result<isize, LexError>)
        requires
            old(self).wf(),
            old(self).pos() < old(self).text().len(),
            is_dec_digit(old(self).text()[old(self).pos() as int]),
        ensures
            final(self).wf(),
            final(self).text() == old(self).text(),
            ({
                let s = old(self).text();
                let j = old(self).pos();
                let radix = radix_at(s, j);
                let p = (j + radix_prefix_len(s, j)) as nat;
                let e = digit_end(s, p, radix);
                if e == p || digits_value(s.subrange(p as int, e as int), radix)
                    > isize::MAX as int {
                    r matches Err(le) && le.pos as nat == j
                } else {
                    &&& r matches Ok(v) && v as int == digits_value(
                        s.subrange(p as int, e as int),
                        radix,
                    )
                    &&& final(self).pos() + 1 == e
                }
            }),
    {
        let ghost s = self.input@;
        let start = self.current;
        let mut prefix = IntPrefix::Decimal;
        if self.chars[self.current] == '0' && self.current < self.chars.len() - 1 {
            let c1 = self.chars[self.current + 1];
            if c1 == 'x' {
                prefix = IntPrefix::Hexadecimal;
                self.current = self.current + 2;
            } else if c1 == 'b' {
                prefix = IntPrefix::Binary;
                self.current = self.current + 2;
            } else if c1 == 'o' {
                prefix = IntPrefix::Octal;
                self.current = self.current + 2;
            }
        }
        proof {
            assert(prefix.radix() == radix_at(s, start as nat));
            assert(self.current as nat == start as nat + radix_prefix_len(s, start as nat));
        }
        let radix = prefix.radix_exec();
        let p = self.current;
        let mut value: isize = 0;
        let mut too_big = false;
        while self.current < self.chars.len() && prefix.is_digit(self.chars[self.current])
            invariant
                self.wf(),
                self.input@ == s,
                p <= self.current,
                2 <= radix as int == prefix.radix() <= 16,
                digit_end(s, self.current as nat, radix as int) == digit_end(
                    s,
                    p as nat,
                    radix as int,
                ),
                !too_big ==> 0 <= value as int == digits_value(
                    s.subrange(p as int, self.current as int),
                    radix as int,
                ) <= isize::MAX as int,
                too_big ==> digits_value(s.subrange(p as int, self.current as int), radix as int)
                    > isize::MAX as int,
            decreases self.chars@.len() - self.current,
        {
            let c = self.chars[self.current];
            let d = prefix.digit_val(c);
            proof {
                assert(s.subrange(p as int, self.current + 1).drop_last() =~= s.subrange(
                    p as int,
                    self.current as int,
                ));
                assert(s.subrange(p as int, self.current + 1).last() == s[self.current as int]);
            }
            if !too_big {
                if value > (isize::MAX - d) / radix {
                    proof {
                        lemma_guard_overflow(
                            value as int,
                            d as int,
                            radix as int,
                            isize::MAX as int,
                        );
                    }
                    too_big = true;
                } else {
                    proof {
                        lemma_digits_step_fits(
                            value as int,
                            d as int,
                            radix as int,
                            isize::MAX as int,
                        );
                    }
                    value = value * radix + d;
                }
            } else {
                proof {
                    let v = digits_value(s.subrange(p as int, self.current as int), radix as int);
                    assert(v * radix >= v) by (nonlinear_arith)
                        requires
                            v >= 0,
                            radix >= 2,
                    ;
                }
            }
            self.current = self.current + 1;
        }
        if self.current == p {
            return Err(LexError { pos: start });
        }
        if too_big {
            return Err(LexError { pos: start });
        }
        self.current = self.current - 1;
        Ok(value)
    }

    /// The next token of the text, or a fatal lexical error. Skips leading
    /// whitespace, applies one to two characters of lookahead for the
    /// two-character operators, reclassifies identifier runs through the
    /// keyword table, and hands back `EndOfFile` at the end of the text.
    pub fn next_token(&mut self) -> (r: Result<Token, LexError>)
        requires
            old(self).wf(),
        ensures
            final(self).wf(),
            final(self).text() == old(self).text(),
            match next_at(old(self).text(), old(self).pos()) {
                NextV::Eof => r == Ok::<Token, LexError>(Token::EndOfFile) && final(self).pos()
                    == old(self).text().len(),
                NextV::Bad { pos } => r matches Err(le) && le.pos as nat == pos,
                NextV::Tok { t, end } => r matches Ok(tok) && tok@ == t && final(self).pos() == end,
            },
    {
        proof {
            lemma_next_at_bounds(old(self).text(), old(self).pos());
        }
        self.skip_whitespaces();
        let c_opt = self.get_char(0);
        let tok: Token;
        match c_opt {
            None => {
                tok = Token::EndOfFile;
            },
            Some(c) => {
                if c == '=' {
                    match self.get_char(1) {
                        Some('=') => {
                            self.read_char();
                            tok = Token::Equal;
                        },
                        _ => {
                            tok = Token::Assign;
                        },
                    }
                } else if c == '!' {
                    match self.get_char(1) {
                        Some('=') => {
                            self.read_char();
                            tok = Token::NotEqual;
                        },
                        _ => {
                            tok = Token::Bang;
                        },
                    }
                } else if c == '<' {
                    match self.get_char(1) {
                        Some('=') => {
                            self.read_char();
                            tok = Token::LowerThanOrEqualTo;
                        },
                        _ => {
                            tok = Token::LowerThan;
                        },
                    }
                } else if c == '>' {
                    match self.get_char(1) {
                        Some('=') => {
                            self.read_char();
                            tok = Token::GreaterThanOrEqualTo;
                        },
                        _ => {
                            tok = Token::GreaterThan;
                        },
                    }
                } else if c == '+' {
                    tok = Token::Plus;
                } else if c == '-' {
                    tok = Token::Minus;
                } else if c == '*' {
                    tok = Token::Asterisk;
                } else if c == '/' {
                    tok = Token::Slash;
                } else if c == ';' {
                    tok = Token::Semicolon;
                } else if c == ',' {
                    tok = Token::Comma;
                } else if c == '{' {
                    tok = Token::LeftBrace;
                } else if c == '}' {
                    tok = Token::RightBrace;
                } else if c == '(' {
                    tok = Token::LeftParen;
                } else if c == ')' {
                    tok = Token::RightParen;
                } else if letter_char(c) {
                    let ident = self.read_identifier();
                    tok = crate::token::lookup_indent(ident.as_str());
                } else if dec_digit_char(c) {
                    match self.read_number() {
                        Ok(n) => {
                            tok = Token::Int(n);
                        },
                        Err(le) => {
                            return Err(le);
                        },
                    }
                } else {
                    tok = Token::Illegal(c);
                }
            },
        }
        self.read_char();
        Ok(tok)
    }

    /// Runs the lexer to the end of the text and collects the tokens, in
    /// order, without the final `EndOfFile`; or stops at the first fatal
    /// lexical error.
    pub fn tokenize(&mut self) -> (r: Result<Vec<Token>, LexError>)
        requires
            old(self).wf(),
        ensures
            final(self).wf(),
            match tokens_from(old(self).text(), old(self).pos()) {
                Ok(ts) => r matches Ok(v) && toks_view(v@) == ts,
                Err(p) => r matches Err(le) && le.pos as nat == p,
            },
    {
        let ghost s = self.input@;
        let ghost start = self.pos();
        let mut toks: Vec<Token> = Vec::new();
        proof {
            if let Ok(rest) = tokens_from(s, start) {
                assert(toks_view(toks@) + rest =~= rest);
            }
        }
        loop
            invariant
                self.wf(),
                self.input@ == s,
                s == old(self).text(),
                start == old(self).pos(),
                self.pos() <= s.len(),
                tokens_from(s, start) == match tokens_from(s, self.pos()) {
                    Ok(rest) => Ok::<Seq<TokenV>, nat>(toks_view(toks@) + rest),
                    Err(p) => Err::<Seq<TokenV>, nat>(p),
                },
            decreases s.len() - self.pos(),
        {
            let ghost cur = self.pos();
            let ghost old_toks = toks@;
            proof {
                lemma_next_at_bounds(s, cur);
            }
            match self.next_token() {
                Ok(tok) => {
                    match tok {
                        Token::EndOfFile => {
                            proof {
                                lemma_next_at_token_kinds(s, cur);
                                assert(tokens_from(s, cur) == Ok::<Seq<TokenV>, nat>(
                                    Seq::<TokenV>::empty(),
                                ));
                                assert(toks_view(toks@) + Seq::<TokenV>::empty() =~= toks_view(
                                    toks@,
                                ));
                            }
                            return Ok(toks);
                        },
                        _ => {
                            let ghost tv = tok@;
                            toks.push(tok);
                            proof {
                                assert(toks_view(toks@) =~= toks_view(old_toks) + seq![tv]);
                                if let NextV::Tok { t, end } = next_at(s, cur) {
                                    if let Ok(rest) = tokens_from(s, end) {
                                        assert(tokens_from(s, cur) == Ok::<Seq<TokenV>, nat>(
                                            seq![t] + rest,
                                        ));
                                        assert(toks_view(old_toks) + (seq![t] + rest) =~= toks_view(
                                            toks@,
                                        ) + rest);
                                    }
                                }
                            }
                        },
                    }
                },
                Err(le) => {
                    return Err(le);
                },
            }
        }
    }
}

/// A token found mid-text is never the `EndOfFile` marker.
pub proof fn lemma_next_at_token_kinds(s: Seq<char>, i: nat)
    requires
        i <= s.len(),
    ensures
        match next_at(s, i) {
            NextV::Tok { t, end } => t != TokenV::EndOfFile,
            _ => true,
        },
{
}

/// If the accumulated value is over the overflow guard, one more accumulation
/// step exceeds the integer type's maximum.
proof fn lemma_guard_overflow(value: int, d: int, radix: int, max: int)
    requires
        2 <= radix <= 16,
        0 <= d < radix,
        0 <= value,
        max >= 0,
        value > (max - d) / radix,
    ensures
        value * radix + d > max,
{
    let q = (max - d) / radix;
    vstd::arithmetic::div_mod::lemma_fundamental_div_mod(max - d, radix);
    assert((max - d) % radix < radix) by {
        vstd::arithmetic::div_mod::lemma_mod_bound(max - d, radix);
    }
    assert(value * radix >= (q + 1) * radix) by (nonlinear_arith)
        requires
            value >= q + 1,
            radix >= 2,
    ;
    assert((q + 1) * radix == q * radix + radix) by (nonlinear_arith);
}

/// If the accumulated value passes the overflow guard, one more accumulation
/// step stays within the integer type.
proof fn lemma_digits_step_fits(value: int, d: int, radix: int, max: int)
    requires
        2 <= radix <= 16,
        0 <= d < radix,
        0 <= value,
        max >= 0,
        value <= (max - d) / radix,
    ensures
        value * radix + d <= max,
        value * radix + d >= 0,
{
    let q = (max - d) / radix;
    vstd::arithmetic::div_mod::lemma_fundamental_div_mod(max - d, radix);
    assert((max - d) % radix >= 0) by {
        vstd::arithmetic::div_mod::lemma_mod_bound(max - d, radix);
    }
    assert(value * radix <= q * radix) by (nonlinear_arith)
        requires
            value <= q,
            radix >= 2,
    ;
    assert(q * radix <= max - d);
    assert(value * radix >= 0) by (nonlinear_arith)
        requires
            value >= 0,
            radix >= 2,
    ;
}

} // verus!
