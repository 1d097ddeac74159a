use vstd::prelude::*;
use vstd::string::StringSliceAdditionalSpecFns;
use vstd::utf8::is_char_boundary;

use crate::error::{Error, SpecError};
use crate::rational::eq::rational_eq;
use crate::rational::{reduced, Rational};
use vstd::std_specs::cmp::PartialEqSpecImpl;
use crate::text::{chars_of, is_whitespace, push_char, push_str, str_eq, string_of};

verus! {

/// Associativity of a binary operator.
#[derive(Debug, PartialEq, Eq, Structural)]
pub enum Assoc {
    Left,
    Right,
}

/// A binary operator.
#[derive(Debug, Clone, Copy, PartialEq, Eq, Structural)]
pub enum Op {
    Add,
    Sub,
    Mul,
    Div,
    Exp,
}

/// Precedence of an operator: `+ -` bind loosest, then `* /`, then `^`.
pub open spec fn op_prec(op: Op) -> nat {
    match op {
        Op::Add | Op::Sub => 1,
        Op::Mul | Op::Div => 2,
        Op::Exp => 3,
    }
}

/// Whether an operator associates to the left (all but `^` do).
pub open spec fn op_left_assoc(op: Op) -> bool {
    op != Op::Exp
}

/// The character an operator is written with.
pub open spec fn op_char(op: Op) -> char {
    match op {
        Op::Add => '+',
        Op::Sub => '-',
        Op::Mul => '*',
        Op::Div => '/',
        Op::Exp => '^',
    }
}

impl Op {
    /// Precedence and associativity of the operator.
    pub fn get_info(&self) -> (r: (usize, Assoc))
        ensures
            r.0 == op_prec(*self),
            (r.1 == Assoc::Left) == op_left_assoc(*self),
    {
        match self {
            Op::Add | Op::Sub => (1, Assoc::Left),
            Op::Mul | Op::Div => (2, Assoc::Left),
            Op::Exp => (3, Assoc::Right),
        }
    }

    /// The text of the operator.
    pub fn to_string(&self) -> (r: String)
        ensures
            r@ == seq![op_char(*self)],
    {
        let mut s = String::new();
        let c = match self {
            Op::Add => '+',
            Op::Sub => '-',
            Op::Mul => '*',
            Op::Div => '/',
            Op::Exp => '^',
        };
        push_char(&mut s, c);
        s
    }
}

/// A token of an expression.
#[derive(Debug)]
pub enum Token {
    Number(Rational),
    String(String),
    Op(Op),
    RParen,
    LParen,
    Comma,
    Eof,
}

/// A token, with its string taken by its view.
pub enum SpecToken {
    Number(Rational),
    Str(Seq<char>),
    Op(Op),
    RParen,
    LParen,
    Comma,
    Eof,
}

impl View for Token {
    type V = SpecToken;

    open spec fn view(&self) -> SpecToken {
        match self {
            Token::Number(n) => SpecToken::Number(*n),
            Token::String(s) => SpecToken::Str(s@),
            Token::Op(o) => SpecToken::Op(*o),
            Token::RParen => SpecToken::RParen,
            Token::LParen => SpecToken::LParen,
            Token::Comma => SpecToken::Comma,
            Token::Eof => SpecToken::Eof,
        }
    }
}

impl Clone for Token {
    fn clone(&self) -> (r: Self)
        ensures
            r@ == self@,
    {
        match self {
            Token::Number(n) => Token::Number(*n),
            Token::String(s) => Token::String(s.clone()),
            Token::Op(o) => Token::Op(*o),
            Token::RParen => Token::RParen,
            Token::LParen => Token::LParen,
            Token::Comma => Token::Comma,
            Token::Eof => Token::Eof,
        }
    }
}

/// What `==` on tokens computes: the same kind of token, with equal numbers (by value), strings
/// or operators.
pub open spec fn token_eq(a: SpecToken, b: SpecToken) -> bool {
    match (a, b) {
        (SpecToken::Number(x), SpecToken::Number(y)) => rational_eq(x@, y@),
        (SpecToken::Str(x), SpecToken::Str(y)) => x == y,
        (SpecToken::Op(x), SpecToken::Op(y)) => x == y,
        (SpecToken::RParen, SpecToken::RParen) => true,
        (SpecToken::LParen, SpecToken::LParen) => true,
        (SpecToken::Comma, SpecToken::Comma) => true,
        (SpecToken::Eof, SpecToken::Eof) => true,
        _ => false,
    }
}

impl PartialEq for Token {
    fn eq(&self, other: &Self) -> (r: bool) {
        match (self, other) {
            (Token::Number(x), Token::Number(y)) => x.eq(y),
            (Token::String(x), Token::String(y)) => str_eq(x.as_str(), y.as_str()),
            (Token::Op(x), Token::Op(y)) => *x == *y,
            (Token::RParen, Token::RParen) => true,
            (Token::LParen, Token::LParen) => true,
            (Token::Comma, Token::Comma) => true,
            (Token::Eof, Token::Eof) => true,
            _ => false,
        }
    }
}

impl PartialEqSpecImpl for Token {
    open spec fn obeys_eq_spec() -> bool {
        true
    }

    open spec fn eq_spec(&self, other: &Token) -> bool {
        token_eq(self@, other@)
    }
}

/// The views of a sequence of tokens.
pub open spec fn tokens_view(ts: Seq<Token>) -> Seq<SpecToken> {
    ts.map_values(|t: Token| t@)
}

// ---------------------------------------------------------------------------------------------
// The lexer's grammar, over the characters of the input.

/// A decimal digit.
pub open spec fn is_digit(c: char) -> bool {
    '0' <= c <= '9'
}

/// The value of a decimal digit.
pub open spec fn digit_value(c: char) -> nat {
    ((c as u32) - ('0' as u32)) as nat
}

/// Scans a decimal number from index `i`, having read `num` so far with denominator `den`
/// (a power of ten that grows after the dot). Gives the end index and the final numerator and
/// denominator; fails on a second dot (at its index) or when a part leaves `u128`.
pub open spec fn scan_number(cs: Seq<char>, i: int, num: nat, den: nat, den_mode: bool) -> Result<
    (int, nat, nat),
    SpecError,
>
    decreases cs.len() - i,
{
    if i >= cs.len() {
        Ok((i, num, den))
    } else {
        let c = cs[i];
        if is_digit(c) {
            let n2 = num * 10 + digit_value(c);
            let d2 = if den_mode {
                den * 10
            } else {
                den
            };
            if n2 > u128::MAX || d2 > u128::MAX {
                Err(SpecError::Overflow)
            } else {
                scan_number(cs, i + 1, n2, d2, den_mode)
            }
        } else if c == '.' {
            if den_mode {
                Err(SpecError::TwoDots(i as usize))
            } else {
                scan_number(cs, i + 1, num, den, true)
            }
        } else {
            Ok((i, num, den))
        }
    }
}

/// The number starting at index `i`, and the index after it.
pub open spec fn number_token(cs: Seq<char>, i: int) -> Result<(int, Rational), SpecError> {
    match scan_number(cs, i, 0, 1, false) {
        Err(e) => Err(e),
        Ok((end, num, den)) => if num > i128::MAX {
            Err(SpecError::Overflow)
        } else {
            Ok((end, Rational::from_view(reduced(num as int, den as int))))
        },
    }
}

/// The token of a single character that does not start a number.
pub open spec fn char_token(c: char) -> SpecToken {
    if c == '+' {
        SpecToken::Op(Op::Add)
    } else if c == '-' {
        SpecToken::Op(Op::Sub)
    } else if c == '*' {
        SpecToken::Op(Op::Mul)
    } else if c == '/' {
        SpecToken::Op(Op::Div)
    } else if c == '^' {
        SpecToken::Op(Op::Exp)
    } else if c == '(' {
        SpecToken::LParen
    } else if c == ')' {
        SpecToken::RParen
    } else if c == ',' {
        SpecToken::Comma
    } else {
        SpecToken::Str(seq![c])
    }
}

/// `ts` in front of the tokens of `r`, or the error of `r`.
pub open spec fn prepend(ts: Seq<SpecToken>, r: Result<Seq<SpecToken>, SpecError>) -> Result<
    Seq<SpecToken>,
    SpecError,
> {
    match r {
        Ok(rest) => Ok(ts + rest),
        Err(e) => Err(e),
    }
}

/// The tokens from index `i` on, one per character (spaces skipped) and one per number.
pub open spec fn raw_tokens(cs: Seq<char>, i: int) -> Result<Seq<SpecToken>, SpecError>
    decreases cs.len() - i,
{
    if i >= cs.len() {
        Ok(seq![])
    } else {
        let c = cs[i];
        if c == ' ' {
            raw_tokens(cs, i + 1)
        } else if is_digit(c) {
            match number_token(cs, i) {
                Err(e) => Err(e),
                Ok((end, r)) => if i < end <= cs.len() {
                    prepend(seq![SpecToken::Number(r)], raw_tokens(cs, end))
                } else {
                    Err(SpecError::Overflow)
                },
            }
        } else {
            prepend(seq![char_token(c)], raw_tokens(cs, i + 1))
        }
    }
}

/// Adds a token to merged tokens: a string right after a string joins it.
pub open spec fn merge_step(acc: Seq<SpecToken>, t: SpecToken) -> Seq<SpecToken> {
    match t {
        SpecToken::Str(s) => if acc.len() > 0 && acc.last() is Str {
            acc.drop_last().push(SpecToken::Str(acc.last()->Str_0 + s))
        } else {
            acc.push(t)
        },
        _ => acc.push(t),
    }
}

/// The tokens with each run of adjacent strings joined into one string.
pub open spec fn merged(ts: Seq<SpecToken>) -> Seq<SpecToken>
    decreases ts.len(),
{
    if ts.len() == 0 {
        seq![]
    } else {
        merge_step(merged(ts.drop_last()), ts.last())
    }
}

/// The tokens of a string (see `parse_string`).
pub open spec fn lex(cs: Seq<char>) -> Result<Seq<SpecToken>, SpecError> {
    match raw_tokens(cs, 0) {
        Ok(ts) => Ok(merged(ts)),
        Err(e) => Err(e),
    }
}

/// Whether no string token of `ts` holds a space.
pub open spec fn no_spaced_strings(ts: Seq<SpecToken>) -> bool {
    forall|i: int| 0 <= i < ts.len() ==> (#[trigger] ts[i] matches SpecToken::Str(s) ==> !s.contains(' '))
}

/// A space in two pieces put together is in one of them.
pub proof fn lemma_space_in_concat(x: Seq<char>, y: Seq<char>)
    ensures
        (x + y).contains(' ') ==> x.contains(' ') || y.contains(' '),
{
    if (x + y).contains(' ') {
        let i = choose|i: int| 0 <= i < (x + y).len() && (x + y)[i] == ' ';
        if i < x.len() {
            assert(x[i] == ' ');
        } else {
            assert(y[i - x.len()] == ' ');
        }
    }
}

/// The tokens read before merging hold no string with a space.
proof fn lemma_raw_tokens_no_space(cs: Seq<char>, i: int)
    requires
        raw_tokens(cs, i) is Ok,
    ensures
        no_spaced_strings(raw_tokens(cs, i)->Ok_0),
    decreases cs.len() - i,
{
    if i < cs.len() {
        let c = cs[i];
        if c == ' ' {
            lemma_raw_tokens_no_space(cs, i + 1);
        } else if is_digit(c) {
            let (end, r) = number_token(cs, i)->Ok_0;
            lemma_raw_tokens_no_space(cs, end);
            let rest = raw_tokens(cs, end)->Ok_0;
            let ts = seq![SpecToken::Number(r)] + rest;
            assert forall|k: int| 0 <= k < ts.len() implies (#[trigger] ts[k] matches SpecToken::Str(
                s,
            ) ==> !s.contains(' ')) by {
                if k > 0 {
                    assert(ts[k] == rest[k - 1]);
                }
            }
        } else {
            lemma_raw_tokens_no_space(cs, i + 1);
            let rest = raw_tokens(cs, i + 1)->Ok_0;
            let ts = seq![char_token(c)] + rest;
            assert forall|k: int| 0 <= k < ts.len() implies (#[trigger] ts[k] matches SpecToken::Str(
                s,
            ) ==> !s.contains(' ')) by {
                if k > 0 {
                    assert(ts[k] == rest[k - 1]);
                } else if char_token(c) is Str {
                    assert(char_token(c) == SpecToken::Str(seq![c]));
                    if seq![c].contains(' ') {
                        let j = choose|j: int| 0 <= j < seq![c].len() && seq![c][j] == ' ';
                        assert(seq![c][j] == c);
                    }
                }
            }
        }
    }
}

/// Merging adjacent strings keeps strings free of spaces.
proof fn lemma_merged_no_space(ts: Seq<SpecToken>)
    requires
        no_spaced_strings(ts),
    ensures
        no_spaced_strings(merged(ts)),
    decreases ts.len(),
{
    if ts.len() > 0 {
        let p = ts.drop_last();
        assert forall|i: int| 0 <= i < p.len() implies (#[trigger] p[i] matches SpecToken::Str(s)
            ==> !s.contains(' ')) by {
            assert(p[i] == ts[i]);
        }
        lemma_merged_no_space(p);
        let acc = merged(p);
        let t = ts.last();
        assert(t == ts[ts.len() - 1]);
        let out = merge_step(acc, t);
        if t is Str && acc.len() > 0 && acc.last() is Str {
            let joined = acc.last()->Str_0 + t->Str_0;
            assert(acc.last() == acc[acc.len() - 1]);
            lemma_space_in_concat(acc.last()->Str_0, t->Str_0);
            assert forall|i: int| 0 <= i < out.len() implies (#[trigger] out[i] matches SpecToken::Str(
                s,
            ) ==> !s.contains(' ')) by {
                if i < out.len() - 1 {
                    assert(out[i] == acc[i]);
                }
            }
        } else {
            assert forall|i: int| 0 <= i < out.len() implies (#[trigger] out[i] matches SpecToken::Str(
                s,
            ) ==> !s.contains(' ')) by {
                if i < out.len() - 1 {
                    assert(out[i] == acc[i]);
                }
            }
        }
    }
}

/// Law: spaces never end up in a token: every string token that lexing gives is free of them
/// (`"f(x, y)"` gives the names `x` and `y`).
pub proof fn law_lex_strings_have_no_space(cs: Seq<char>)
    ensures
        lex(cs) matches Ok(ts) ==> no_spaced_strings(ts),
{
    if raw_tokens(cs, 0) is Ok {
        lemma_raw_tokens_no_space(cs, 0);
        lemma_merged_no_space(raw_tokens(cs, 0)->Ok_0);
    }
}

/// The characters that are not white space.
pub open spec fn strip_white_space(cs: Seq<char>) -> Seq<char>
    decreases cs.len(),
{
    if cs.len() == 0 {
        seq![]
    } else if crate::text::is_white_space(cs.last()) {
        strip_white_space(cs.drop_last())
    } else {
        strip_white_space(cs.drop_last()).push(cs.last())
    }
}

/// The first token of a sequence, `Eof` when there is none.
pub open spec fn head(ts: Seq<SpecToken>) -> SpecToken {
    if ts.len() == 0 {
        SpecToken::Eof
    } else {
        ts[0]
    }
}

/// The sequence without its first token (empty stays empty).
pub open spec fn tail(ts: Seq<SpecToken>) -> Seq<SpecToken> {
    if ts.len() == 0 {
        ts
    } else {
        ts.drop_first()
    }
}

/// What remains of a stream of tokens after `k` reads.
pub open spec fn after_reads(ts: Seq<SpecToken>, k: nat) -> Seq<SpecToken>
    decreases k,
{
    if k == 0 {
        ts
    } else {
        tail(after_reads(ts, (k - 1) as nat))
    }
}

/// Reading a stream gives its tokens in order, and `Eof` once they are used up, for good.
pub proof fn law_reads_in_order(ts: Seq<SpecToken>, k: nat)
    ensures
        after_reads(ts, k) == (if k <= ts.len() {
            ts.skip(k as int)
        } else {
            Seq::<SpecToken>::empty()
        }),
        head(after_reads(ts, k)) == (if k < ts.len() {
            ts[k as int]
        } else {
            SpecToken::Eof
        }),
    decreases k,
{
    if k == 0 {
        assert(ts.skip(0) =~= ts);
    } else {
        law_reads_in_order(ts, (k - 1) as nat);
        if k <= ts.len() {
            assert(ts.skip(k - 1).drop_first() =~= ts.skip(k as int));
        }
    }
}

// ---------------------------------------------------------------------------------------------

/// A stream of tokens, read front first.
#[derive(Debug)]
pub struct Lexer {
    /// The remaining tokens, last one first.
    tokens: Vec<Token>,
}

impl View for Lexer {
    type V = Seq<SpecToken>;

    /// The remaining tokens, in reading order.
    closed spec fn view(&self) -> Seq<SpecToken> {
        tokens_view(self.tokens@).reverse()
    }
}

/// The views of the tokens in a vector reversed are the reversed views.
proof fn lemma_reverse_push(ts: Seq<Token>, t: Token)
    ensures
        tokens_view(ts.push(t)).reverse() == seq![t@] + tokens_view(ts).reverse(),
{
    assert(tokens_view(ts.push(t)) == tokens_view(ts).push(t@));
    assert(tokens_view(ts.push(t)).reverse() =~= seq![t@] + tokens_view(ts).reverse());
}

impl Lexer {
    /// Lexes `input` with its white space removed.
    pub fn new(input: &str) -> (r: Result<Self, Error>)
        ensures
            lex(strip_white_space(input@)) matches Ok(ts) ==> (r matches Ok(l) && l@ == ts),
            lex(strip_white_space(input@)) matches Err(e) ==> (r matches Err(x) && x@ == e),
    {
        let cs = chars_of(input);
        let mut kept: Vec<char> = Vec::new();
        let mut i: usize = 0;
        while i < cs.len()
            invariant
                i <= cs.len(),
                kept@ == strip_white_space(cs@.take(i as int)),
            decreases cs.len() - i,
        {
            let c = cs[i];
            assert(cs@.take(i + 1).drop_last() == cs@.take(i as int));
            if !is_whitespace(c) {
                kept.push(c);
            }
            i = i + 1;
        }
        assert(cs@.take(cs.len() as int) == cs@);
        let filtered = string_of(&kept);
        let mut parsed = parse_string(filtered.as_str())?;
        let ghost all = tokens_view(parsed@);
        let mut rev: Vec<Token> = Vec::new();
        while parsed.len() > 0
            invariant
                tokens_view(parsed@) + tokens_view(rev@).reverse() == all,
            decreases parsed.len(),
        {
            let t = parsed.pop().unwrap();
            proof {
                lemma_reverse_push(rev@, t);
                assert(tokens_view(parsed@).push(t@) == tokens_view(parsed@.push(t)));
            }
            rev.push(t);
            assert(tokens_view(parsed@) + tokens_view(rev@).reverse() =~= all);
        }
        assert(tokens_view(rev@).reverse() =~= all);
        Ok(Self { tokens: rev })
    }

    /// A lexer over the given tokens, in order.
    pub fn from_tokens(tokens: &Vec<Token>) -> (r: Self)
        ensures
            r@ == tokens_view(tokens@),
    {
        let mut rev: Vec<Token> = Vec::new();
        let mut i: usize = tokens.len();
        while i > 0
            invariant
                i <= tokens.len(),
                tokens_view(rev@).reverse() == tokens_view(tokens@).skip(i as int),
            decreases i,
        {
            i = i - 1;
            let t = tokens[i].clone();
            proof {
                lemma_reverse_push(rev@, t);
            }
            rev.push(t);
            assert(tokens_view(tokens@).skip(i as int) =~= seq![t@] + tokens_view(tokens@).skip(
                i + 1,
            ));
        }
        assert(tokens_view(tokens@).skip(0) == tokens_view(tokens@));
        Self { tokens: rev }
    }

    /// Takes the next token; `Eof` when none are left.
    pub fn next(&mut self) -> (r: Token)
        ensures
            r@ == head(old(self)@),
            final(self)@ == tail(old(self)@),
    {
        match self.tokens.pop() {
            Some(t) => {
                proof {
                    lemma_reverse_push(self.tokens@, t);
                }
                t
            },
            None => Token::Eof,
        }
    }

    /// The next token, left in place; `Eof` when none are left.
    pub fn peek(&self) -> (r: Token)
        ensures
            r@ == head(self@),
    {
        let n = self.tokens.len();
        if n > 0 {
            proof {
                assert(self.tokens@ == self.tokens@.drop_last().push(self.tokens@[n - 1]));
                lemma_reverse_push(self.tokens@.drop_last(), self.tokens@[n - 1]);
            }
            self.tokens[n - 1].clone()
        } else {
            Token::Eof
        }
    }
}

/// `prepend` composes by concatenation.
proof fn lemma_prepend_assoc(a: Seq<SpecToken>, b: Seq<SpecToken>, r: Result<Seq<SpecToken>, SpecError>)
    ensures
        prepend(a, prepend(b, r)) == prepend(a + b, r),
{
    if r is Ok {
        assert(a + (b + r->Ok_0) =~= (a + b) + r->Ok_0);
    }
}

/// Splits a string into tokens: operators, parentheses, commas, numbers (digits with at most one
/// dot) and runs of other characters; spaces are skipped.
pub(crate) fn parse_string(str: &str) -> (r: Result<Vec<Token>, Error>)
    ensures
        lex(str@) matches Ok(ts) ==> (r matches Ok(v) && tokens_view(v@) == ts),
        lex(str@) matches Err(e) ==> (r matches Err(x) && x@ == e),
{
    let cs = chars_of(str);
    let mut tokens: Vec<Token> = Vec::new();
    let mut index: usize = 0;
    assert(prepend(tokens_view(tokens@), raw_tokens(cs@, 0)) == raw_tokens(cs@, 0)) by {
        lemma_prepend_assoc(seq![], seq![], raw_tokens(cs@, 0));
        if raw_tokens(cs@, 0) is Ok {
            assert(tokens_view(tokens@) + raw_tokens(cs@, 0)->Ok_0 =~= raw_tokens(cs@, 0)->Ok_0);
        }
    }
    while index < cs.len()
        invariant
            index <= cs.len(),
            cs@ == str@,
            raw_tokens(cs@, 0) == prepend(tokens_view(tokens@), raw_tokens(cs@, index as int)),
        decreases cs.len() - index,
    {
        let c = cs[index];
        if c == ' ' {
            index = index + 1;
            continue;
        }
        let ghost before = index as int;
        let token = if '0' <= c && c <= '9' {
            match parse_number(&cs, &mut index) {
                Ok(n) => Token::Number(n),
                Err(e) => {
                    assert(raw_tokens(cs@, before) == Err::<Seq<SpecToken>, SpecError>(e@));
                    return Err(e);
                },
            }
        } else {
            index = index + 1;
            char_to_token(c)
        };
        proof {
            assert(raw_tokens(cs@, before) == prepend(seq![token@], raw_tokens(cs@, index as int)));
            lemma_prepend_assoc(tokens_view(tokens@), seq![token@], raw_tokens(cs@, index as int));
            assert(tokens_view(tokens@.push(token)) =~= tokens_view(tokens@) + seq![token@]);
        }
        tokens.push(token);
    }
    let ghost raw = tokens_view(tokens@);
    assert(raw_tokens(cs@, 0) == Ok::<Seq<SpecToken>, SpecError>(raw)) by {
        assert(raw + seq![] =~= raw);
    }
    let mut res: Vec<Token> = Vec::new();
    let mut i: usize = 0;
    while i < tokens.len()
        invariant
            i <= tokens.len(),
            raw == tokens_view(tokens@),
            tokens_view(res@) == merged(raw.take(i as int)),
        decreases tokens.len() - i,
    {
        let t = tokens[i].clone();
        assert(raw.take(i + 1).drop_last() =~= raw.take(i as int));
        assert(raw.take(i + 1).last() == t@);
        let n = res.len();
        let mut joined = false;
        if let Token::String(s) = &t {
            if n > 0 {
                if let Token::String(prev) = &res[n - 1] {
                    let mut buffer = prev.clone();
                    push_str(&mut buffer, s.as_str());
                    let ghost old_res = res@;
                    res.pop();
                    proof {
                        assert(res@ == old_res.drop_last());
                        assert(tokens_view(res@) =~= tokens_view(old_res).drop_last());
                    }
                    let ghost mid = res@;
                    res.push(Token::String(buffer));
                    proof {
                        assert(tokens_view(res@) =~= tokens_view(mid).push(Token::String(buffer)@));
                    }
                    joined = true;
                }
            }
        }
        if !joined {
            proof {
                assert(tokens_view(res@.push(t)) =~= tokens_view(res@).push(t@));
            }
            res.push(t);
        }
        i = i + 1;
    }
    assert(raw.take(tokens.len() as int) =~= raw);
    Ok(res)
}

/// The token of a character that does not start a number.
fn char_to_token(c: char) -> (t: Token)
    ensures
        t@ == char_token(c),
{
    match c {
        '+' => Token::Op(Op::Add),
        '-' => Token::Op(Op::Sub),
        '*' => Token::Op(Op::Mul),
        '/' => Token::Op(Op::Div),
        '^' => Token::Op(Op::Exp),
        '(' => Token::LParen,
        ')' => Token::RParen,
        ',' => Token::Comma,
        c => {
            let mut s = String::new();
            push_char(&mut s, c);
            Token::String(s)
        },
    }
}

/// Reads the number that starts at `*index` (a digit), moving `*index` past it.
fn parse_number(cs: &Vec<char>, index: &mut usize) -> (r: Result<Rational, Error>)
    requires
        *old(index) < cs@.len(),
        is_digit(cs@[*old(index) as int]),
    ensures
        number_token(cs@, *old(index) as int) matches Ok((end, n)) ==> (r matches Ok(x) && x == n
            && *final(index) == end),
        number_token(cs@, *old(index) as int) matches Err(e) ==> (r matches Err(x) && x@ == e),
        r is Ok ==> *old(index) < *final(index) <= cs@.len(),
{
    let ghost start = *index;
    let mut num: u128 = 0;
    let mut den: u128 = 1;
    let mut den_mode = false;
    while *index < cs.len()
        invariant_except_break
            start <= *index <= cs@.len(),
            start < cs@.len(),
            start == *old(index),
            den >= 1,
            start < *index || (num == 0 && den == 1 && !den_mode),
            scan_number(cs@, start as int, 0, 1, false) == scan_number(
                cs@,
                *index as int,
                num as nat,
                den as nat,
                den_mode,
            ),
            is_digit(cs@[start as int]),
        ensures
            start < *index <= cs@.len(),
            den >= 1,
            scan_number(cs@, start as int, 0, 1, false) == Ok::<(int, nat, nat), SpecError>(
                (*index as int, num as nat, den as nat),
            ),
        decreases cs@.len() - *index,
    {
        let c = cs[*index];
        if '0' <= c && c <= '9' {
            let digit = (c as u32 - '0' as u32) as u128;
            let next_num = match num.checked_mul(10) {
                Some(v) => v.checked_add(digit),
                None => None,
            };
            let next_den = if den_mode {
                den.checked_mul(10)
            } else {
                Some(den)
            };
            match (next_num, next_den) {
                (Some(n), Some(d)) => {
                    num = n;
                    den = d;
                },
                _ => {
                    assert(scan_number(cs@, *index as int, num as nat, den as nat, den_mode)
                        == Err::<(int, nat, nat), SpecError>(SpecError::Overflow));
                    return Err(Error::Overflow);
                },
            }
            *index = *index + 1;
        } else if c == '.' {
            if den_mode {
                assert(scan_number(cs@, *index as int, num as nat, den as nat, den_mode)
                    == Err::<(int, nat, nat), SpecError>(SpecError::TwoDots(*index)));
                return Err(Error::TwoDots(*index));
            }
            den_mode = true;
            *index = *index + 1;
        } else {
            break;
        }
    }
    if num > i128::MAX as u128 {
        return Err(Error::Overflow);
    }
    let r = Rational::unwrap_new(num as i128, den);
    proof {
        use_type_invariant(&r);
        r.lemma_lowest_terms();
        Rational::lemma_from_view(r@);
        Rational::lemma_view_injective(Rational::from_view(r@), r);
    }
    Ok(r)
}

/// Whether the bytes `item` stand in the bytes `s` at byte offset `i`, with character
/// boundaries at both ends: what `s.get(i..i + item.len()) == Some(item)` tests.
pub open spec fn occurs_at(s: Seq<u8>, i: int, item: Seq<u8>) -> bool {
    &&& 0 <= i
    &&& i + item.len() <= s.len()
    &&& is_char_boundary(s, i)
    &&& is_char_boundary(s, i + item.len())
    &&& s.subrange(i, i + item.len()) == item
}

/// The position in `items`, from `k` on, of the first one that occurs in `s` at `i`.
pub open spec fn first_occurring(s: Seq<u8>, i: int, items: Seq<Seq<u8>>, k: int) -> Option<int>
    decreases items.len() - k,
{
    if k < 0 || k >= items.len() {
        None
    } else if occurs_at(s, i, items[k]) {
        Some(k)
    } else {
        first_occurring(s, i, items, k + 1)
    }
}

/// Which item `next_segment_in` finds in `s` (its UTF-8 bytes) at byte offset `i`: none in an
/// empty string or an empty list, else the first one in the list that occurs there.
pub open spec fn segment_at(s: Seq<u8>, i: int, items: Seq<Seq<u8>>) -> Option<int> {
    if s.len() == 0 || items.len() == 0 {
        None
    } else {
        first_occurring(s, i, items, 0)
    }
}

/// The UTF-8 bytes of each string slice of a list.
pub open spec fn items_bytes(items: Seq<&str>) -> Seq<Seq<u8>> {
    items.map_values(|x: &str| x.spec_bytes())
}

/// Whether `item` occurs in `s` at byte offset `i` (see `occurs_at`).
fn occurs_at_exec(s: &str, i: usize, item: &str) -> (r: bool)
    ensures
        r == occurs_at(s.spec_bytes(), i as int, item.spec_bytes()),
{
    let sb = s.as_bytes();
    let ib = item.as_bytes();
    let n = sb.len();
    let m = ib.len();
    if m > n || i > n - m {
        return false;
    }
    if !s.is_char_boundary(i) || !s.is_char_boundary(i + m) {
        return false;
    }
    let mut j: usize = 0;
    while j < m
        invariant
            sb@ == s.spec_bytes(),
            ib@ == item.spec_bytes(),
            n == sb@.len(),
            m == ib@.len(),
            i + m <= n,
            j <= m,
            sb@.subrange(i as int, i + j) == ib@.take(j as int),
        decreases m - j,
    {
        if sb[i + j] != ib[j] {
            assert(sb@.subrange(i as int, i + m)[j as int] != ib@[j as int]);
            return false;
        }
        assert(sb@.subrange(i as int, i + j + 1) =~= sb@.subrange(i as int, i + j).push(sb@[i + j]));
        assert(ib@.take(j + 1) =~= ib@.take(j as int).push(ib@[j as int]));
        j = j + 1;
    }
    assert(ib@.take(m as int) =~= ib@);
    true
}

/// Looks for one of `items` in `s` at byte offset `index`: the first of them whose bytes stand
/// there, between character boundaries, is returned, and `index` moves past its bytes. Nothing
/// is found in an empty string or with no items; then `index` stays.
pub fn next_segment_in(s: &str, index: &mut usize, items: &[&str]) -> (r: Option<String>)
    ensures
        match segment_at(s.spec_bytes(), *old(index) as int, items_bytes(items@)) {
            Some(k) => r matches Some(t) && t@ == items@[k]@ && *final(index) == *old(index)
                + items@[k].spec_bytes().len(),
            None => r is None && *final(index) == *old(index),
        },
{
    let sbytes = s.as_bytes();
    if sbytes.len() == 0 || items.len() == 0 {
        return None;
    }
    let mut k: usize = 0;
    while k < items.len()
        invariant
            k <= items@.len(),
            s.spec_bytes().len() > 0,
            s.spec_bytes().len() <= usize::MAX,
            items@.len() > 0,
            *index == *old(index),
            first_occurring(s.spec_bytes(), *index as int, items_bytes(items@), 0) == first_occurring(
                s.spec_bytes(),
                *index as int,
                items_bytes(items@),
                k as int,
            ),
        decreases items.len() - k,
    {
        let item: &str = items[k];
        assert(items_bytes(items@)[k as int] == item.spec_bytes());
        if occurs_at_exec(s, *index, item) {
            *index = *index + item.as_bytes().len();
            return Some(String::from_str(item));
        }
        k = k + 1;
    }
    None
}

} // verus!
