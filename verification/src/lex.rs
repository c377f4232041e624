//! The tokenizer: byte sequence in, token sequence out.
//!
//! `spec_lex_from` is the specification: a recursive description of the
//! token sequence that starts at a given byte offset.  `lex_tokens` is the
//! executable tokenizer, proved to return exactly that sequence, or the
//! offset of the first unclassifiable byte.

use vstd::prelude::*;

verus! {

/// One lexical unit: a structural keyword, an identifier or integer literal
/// carrying its source text, or a one-character symbol.
#[derive(Debug, PartialEq, Eq)]
pub enum Token {
    Begin,
    Func,
    Return,
    Var,
    LeftBrace,
    RightBrace,
    LeftParen,
    RightParen,
    Equals,
    Plus,
    Comma,
    Semicolon,
    Ident(Vec<u8>),
    Integer(Vec<u8>),
}

/// The mathematical shape of a token: identifier and literal text are byte
/// sequences.
pub enum TokenView {
    Begin,
    Func,
    Return,
    Var,
    LeftBrace,
    RightBrace,
    LeftParen,
    RightParen,
    Equals,
    Plus,
    Comma,
    Semicolon,
    Ident(Seq<u8>),
    Integer(Seq<u8>),
}

impl View for Token {
    type V = TokenView;

    open spec fn view(&self) -> TokenView {
        match self {
            Token::Begin => TokenView::Begin,
            Token::Func => TokenView::Func,
            Token::Return => TokenView::Return,
            Token::Var => TokenView::Var,
            Token::LeftBrace => TokenView::LeftBrace,
            Token::RightBrace => TokenView::RightBrace,
            Token::LeftParen => TokenView::LeftParen,
            Token::RightParen => TokenView::RightParen,
            Token::Equals => TokenView::Equals,
            Token::Plus => TokenView::Plus,
            Token::Comma => TokenView::Comma,
            Token::Semicolon => TokenView::Semicolon,
            Token::Ident(name) => TokenView::Ident(name@),
            Token::Integer(digits) => TokenView::Integer(digits@),
        }
    }
}

/// The byte offset of the first source byte that no token can start with.
#[derive(Debug, Clone, Copy, PartialEq, Eq, Structural)]
pub struct LexError {
    pub offset: usize,
}

pub open spec fn is_whitespace_byte(b: u8) -> bool {
    b == 32 || b == 9 || b == 10 || b == 12 || b == 13
}

pub open spec fn is_alpha_byte(b: u8) -> bool {
    (65 <= b && b <= 90) || (97 <= b && b <= 122)
}

pub open spec fn is_digit_byte(b: u8) -> bool {
    48 <= b && b <= 57
}

pub open spec fn kw_begin() -> Seq<u8> {
    seq![98, 101, 103, 105, 110]
}

pub open spec fn kw_var() -> Seq<u8> {
    seq![118, 97, 114]
}

pub open spec fn kw_func() -> Seq<u8> {
    seq![102, 117, 110, 99]
}

pub open spec fn kw_return() -> Seq<u8> {
    seq![114, 101, 116, 117, 114, 110]
}

/// An alphabetic run is a keyword when it matches one exactly, and an
/// identifier otherwise.
pub open spec fn keyword_or_ident(w: Seq<u8>) -> TokenView {
    if w == kw_begin() {
        TokenView::Begin
    } else if w == kw_var() {
        TokenView::Var
    } else if w == kw_func() {
        TokenView::Func
    } else if w == kw_return() {
        TokenView::Return
    } else {
        TokenView::Ident(w)
    }
}

/// The token a one-character symbol stands for, if any.
pub open spec fn symbol_for(b: u8) -> Option<TokenView> {
    if b == 123 {
        Some(TokenView::LeftBrace)
    } else if b == 125 {
        Some(TokenView::RightBrace)
    } else if b == 61 {
        Some(TokenView::Equals)
    } else if b == 40 {
        Some(TokenView::LeftParen)
    } else if b == 41 {
        Some(TokenView::RightParen)
    } else if b == 43 {
        Some(TokenView::Plus)
    } else if b == 44 {
        Some(TokenView::Comma)
    } else if b == 59 {
        Some(TokenView::Semicolon)
    } else {
        None
    }
}

/// The end of the alphabetic run that starts at `i`.
pub open spec fn alpha_end(src: Seq<u8>, i: nat) -> nat
    decreases src.len() - i,
{
    if i < src.len() && is_alpha_byte(src[i as int]) {
        alpha_end(src, i + 1)
    } else {
        i
    }
}

/// The end of the digit run that starts at `i`.
pub open spec fn digit_end(src: Seq<u8>, i: nat) -> nat
    decreases src.len() - i,
{
    if i < src.len() && is_digit_byte(src[i as int]) {
        digit_end(src, i + 1)
    } else {
        i
    }
}

pub proof fn lemma_alpha_end_bounds(src: Seq<u8>, i: nat)
    ensures
        i <= alpha_end(src, i),
        i <= src.len() ==> alpha_end(src, i) <= src.len(),
    decreases src.len() - i,
{
    if i < src.len() && is_alpha_byte(src[i as int]) {
        lemma_alpha_end_bounds(src, i + 1);
    }
}

pub proof fn lemma_digit_end_bounds(src: Seq<u8>, i: nat)
    ensures
        i <= digit_end(src, i),
        i <= src.len() ==> digit_end(src, i) <= src.len(),
    decreases src.len() - i,
{
    if i < src.len() && is_digit_byte(src[i as int]) {
        lemma_digit_end_bounds(src, i + 1);
    }
}

/// Prefixes a token sequence onto the result of lexing the rest.
pub open spec fn lex_prepend(front: Seq<TokenView>, r: Result<Seq<TokenView>, nat>) -> Result<
    Seq<TokenView>,
    nat,
> {
    match r {
        Ok(rest) => Ok(front + rest),
        Err(e) => Err(e),
    }
}

/// The token sequence of the source text from offset `i` on, or the offset
/// of the first byte that no token can start with.
///
/// At each position, whitespace is consumed; then an alphabetic run makes a
/// keyword or identifier, a one-character symbol makes its token, and a
/// digit run makes an integer literal, in that order of classification.
/// The two `Err(i)` branches under a run cannot arise (the run is nonempty
/// by `lemma_alpha_end_bounds` and its twin); they keep the recursion
/// well-founded.
pub open spec fn spec_lex_from(src: Seq<u8>, i: nat) -> Result<Seq<TokenView>, nat>
    decreases src.len() - i,
{
    if i >= src.len() {
        Ok(Seq::empty())
    } else if is_whitespace_byte(src[i as int]) {
        spec_lex_from(src, i + 1)
    } else if is_alpha_byte(src[i as int]) {
        let j = alpha_end(src, i);
        if i < j && j <= src.len() {
            lex_prepend(
                seq![keyword_or_ident(src.subrange(i as int, j as int))],
                spec_lex_from(src, j),
            )
        } else {
            Err(i)
        }
    } else {
        match symbol_for(src[i as int]) {
            Some(t) => lex_prepend(seq![t], spec_lex_from(src, i + 1)),
            None => {
                if is_digit_byte(src[i as int]) {
                    let j = digit_end(src, i);
                    if i < j && j <= src.len() {
                        lex_prepend(
                            seq![TokenView::Integer(src.subrange(i as int, j as int))],
                            spec_lex_from(src, j),
                        )
                    } else {
                        Err(i)
                    }
                } else {
                    Err(i)
                }
            },
        }
    }
}

/// A nonempty run of decimal digit bytes: the only text a well-formed
/// integer literal token carries.
pub open spec fn is_digit_run(s: Seq<u8>) -> bool {
    s.len() >= 1 && forall|k: int| 0 <= k < s.len() ==> is_digit_byte(#[trigger] s[k])
}

/// Decides `is_digit_run` for an owned byte buffer.
pub fn check_digit_run(v: &Vec<u8>) -> (r: bool)
    ensures
        r == is_digit_run(v@),
{
    if v.len() == 0 {
        return false;
    }
    let mut k: usize = 0;
    while k < v.len()
        invariant
            0 <= k <= v@.len(),
            forall|m: int| 0 <= m < k ==> is_digit_byte(#[trigger] v@[m]),
        decreases v@.len() - k,
    {
        if !byte_is_digit(v[k]) {
            return false;
        }
        k = k + 1;
    }
    true
}

/// The numeric value of a run of decimal digit bytes, most significant
/// first.
pub open spec fn digits_val(s: Seq<u8>) -> nat
    decreases s.len(),
{
    if s.len() == 0 {
        0
    } else {
        digits_val(s.drop_last()) * 10 + ((s.last() - 48) as nat)
    }
}

/// The decimal rendering of `n`: the digit run that `digits_val` maps back
/// to `n`.
pub open spec fn dec_digits(n: nat) -> Seq<u8>
    decreases n,
{
    if n < 10 {
        seq![(48 + n) as u8]
    } else {
        dec_digits(n / 10).push((48 + n % 10) as u8)
    }
}

pub proof fn lemma_dec_digits_are_digits(n: nat)
    ensures
        dec_digits(n).len() >= 1,
        forall|k: int| 0 <= k < dec_digits(n).len() ==> is_digit_byte(#[trigger] dec_digits(n)[k]),
    decreases n,
{
    if n >= 10 {
        lemma_dec_digits_are_digits(n / 10);
    }
}

pub proof fn lemma_dec_digits_val(n: nat)
    ensures
        digits_val(dec_digits(n)) == n,
    decreases n,
{
    if n < 10 {
        let s = dec_digits(n);
        assert(s.last() == (48 + n) as u8);
        assert((48 + n) as u8 == 48 + n);
        assert(s.drop_last() =~= Seq::<u8>::empty());
        assert(digits_val(Seq::<u8>::empty()) == 0);
    } else {
        lemma_dec_digits_val(n / 10);
        let s = dec_digits(n);
        assert(s.drop_last() =~= dec_digits(n / 10));
        assert(s.last() == (48 + n % 10) as u8);
        assert((48 + n % 10) as u8 == 48 + n % 10);
        assert(digits_val(s) == (n / 10) * 10 + n % 10);
        assert(n == 10 * (n / 10) + n % 10);
    }
}

/// A digit run's value never shrinks when more digits follow.
proof fn lemma_digits_val_prefix_le(s: Seq<u8>, i: int)
    requires
        0 <= i <= s.len(),
    ensures
        digits_val(s.subrange(0, i)) <= digits_val(s),
    decreases s.len(),
{
    if i == s.len() {
        assert(s.subrange(0, i) =~= s);
    } else {
        assert(s.drop_last().subrange(0, i) =~= s.subrange(0, i));
        lemma_digits_val_prefix_le(s.drop_last(), i);
    }
}

/// Reads a digit run as an unsigned 32-bit value; `None` when the value
/// does not fit.
pub fn parse_u32(digits: &Vec<u8>) -> (r: Option<u32>)
    requires
        forall|k: int| 0 <= k < digits@.len() ==> is_digit_byte(#[trigger] digits@[k]),
    ensures
        (match r {
            Some(v) => digits_val(digits@) == v,
            None => digits_val(digits@) > u32::MAX,
        }),
{
    let mut acc: u64 = 0;
    let mut k: usize = 0;
    while k < digits.len()
        invariant
            0 <= k <= digits@.len(),
            forall|m: int| 0 <= m < digits@.len() ==> is_digit_byte(#[trigger] digits@[m]),
            acc == digits_val(digits@.subrange(0, k as int)),
            acc <= u32::MAX,
        decreases digits@.len() - k,
    {
        let d = digits[k];
        let acc2: u64 = acc * 10 + ((d - 48) as u64);
        proof {
            assert(digits@.subrange(0, k + 1).drop_last() =~= digits@.subrange(0, k as int));
            assert(digits@.subrange(0, k + 1).last() == digits@[k as int]);
        }
        if acc2 > 0xFFFF_FFFFu64 {
            proof {
                lemma_digits_val_prefix_le(digits@, k + 1);
            }
            return None;
        }
        acc = acc2;
        k = k + 1;
    }
    proof {
        assert(digits@.subrange(0, k as int) =~= digits@);
    }
    Some(acc as u32)
}

proof fn lemma_lex_whitespace_from(src: Seq<u8>, i: nat)
    requires
        forall|k: int| 0 <= k < src.len() ==> is_whitespace_byte(#[trigger] src[k]),
        i <= src.len(),
    ensures
        spec_lex_from(src, i) == Ok::<Seq<TokenView>, nat>(Seq::<TokenView>::empty()),
    decreases src.len() - i,
{
    if i < src.len() {
        lemma_lex_whitespace_from(src, i + 1);
    }
}

/// A source text of nothing but whitespace tokenizes to the empty sequence.
pub proof fn lemma_whitespace_lexes_empty(src: Seq<u8>)
    requires
        forall|k: int| 0 <= k < src.len() ==> is_whitespace_byte(#[trigger] src[k]),
    ensures
        spec_lex_from(src, 0) == Ok::<Seq<TokenView>, nat>(Seq::<TokenView>::empty()),
{
    lemma_lex_whitespace_from(src, 0);
}

proof fn lemma_digit_end_all(src: Seq<u8>, i: nat)
    requires
        forall|k: int| 0 <= k < src.len() ==> is_digit_byte(#[trigger] src[k]),
        i <= src.len(),
    ensures
        digit_end(src, i) == src.len(),
    decreases src.len() - i,
{
    if i < src.len() {
        lemma_digit_end_all(src, i + 1);
    }
}

/// The decimal rendering of any unsigned 32-bit value re-tokenizes to a
/// single integer literal whose digit run reads back as the same value.
pub proof fn lemma_integer_round_trip(n: u32)
    ensures
        spec_lex_from(dec_digits(n as nat), 0) == Ok::<Seq<TokenView>, nat>(
            seq![TokenView::Integer(dec_digits(n as nat))],
        ),
        digits_val(dec_digits(n as nat)) == n,
{
    let src = dec_digits(n as nat);
    lemma_dec_digits_are_digits(n as nat);
    lemma_dec_digits_val(n as nat);
    lemma_digit_end_all(src, 0);
    assert(src.subrange(0, src.len() as int) =~= src);
    assert(spec_lex_from(src, src.len() as nat) == Ok::<Seq<TokenView>, nat>(Seq::<TokenView>::empty()));
    assert(seq![TokenView::Integer(src)] + Seq::<TokenView>::empty() =~= seq![
        TokenView::Integer(src),
    ]);
}

pub open spec fn toks_view(ts: Seq<Token>) -> Seq<TokenView> {
    ts.map_values(|t: Token| t@)
}

pub open spec fn lex_view(r: Result<Vec<Token>, LexError>) -> Result<Seq<TokenView>, nat> {
    match r {
        Ok(ts) => Ok(toks_view(ts@)),
        Err(e) => Err(e.offset as nat),
    }
}

proof fn lemma_prepend_step(p: Seq<TokenView>, x: TokenView, r: Result<Seq<TokenView>, nat>)
    ensures
        lex_prepend(p, lex_prepend(seq![x], r)) == lex_prepend(p.push(x), r),
{
    match r {
        Ok(rest) => {
            assert(p + (seq![x] + rest) =~= p.push(x) + rest);
        },
        Err(_) => {},
    }
}

proof fn lemma_toks_view_push(ts: Seq<Token>, t: Token)
    ensures
        toks_view(ts.push(t)) == toks_view(ts).push(t@),
{
    assert(toks_view(ts.push(t)) =~= toks_view(ts).push(t@));
}

fn byte_is_whitespace(b: u8) -> (r: bool)
    ensures
        r == is_whitespace_byte(b),
{
    b == 32 || b == 9 || b == 10 || b == 12 || b == 13
}

fn byte_is_alpha(b: u8) -> (r: bool)
    ensures
        r == is_alpha_byte(b),
{
    (65 <= b && b <= 90) || (97 <= b && b <= 122)
}

fn byte_is_digit(b: u8) -> (r: bool)
    ensures
        r == is_digit_byte(b),
{
    48 <= b && b <= 57
}

/// Copies `src[a..b]` into an owned buffer, so that tokens own their text.
fn copy_range(src: &[u8], a: usize, b: usize) -> (w: Vec<u8>)
    requires
        a <= b <= src@.len(),
    ensures
        w@ == src@.subrange(a as int, b as int),
{
    let mut w: Vec<u8> = Vec::new();
    let mut k: usize = a;
    while k < b
        invariant
            a <= k <= b <= src@.len(),
            w@ == src@.subrange(a as int, k as int),
        decreases b - k,
    {
        w.push(src[k]);
        k = k + 1;
        proof {
            assert(w@ =~= src@.subrange(a as int, k as int));
        }
    }
    w
}

/// Copies an identifier's text, so that tree nodes own their names.
pub fn clone_bytes(v: &Vec<u8>) -> (r: Vec<u8>)
    ensures
        r@ == v@,
{
    let r = copy_range(v.as_slice(), 0, v.len());
    proof {
        assert(v@.subrange(0, v@.len() as int) =~= v@);
    }
    r
}

/// Classifies an alphabetic run as a keyword or an identifier.
fn bareword_token(word: Vec<u8>) -> (t: Token)
    ensures
        t@ == keyword_or_ident(word@),
{
    if word.len() == 5 && word[0] == 98 && word[1] == 101 && word[2] == 103 && word[3] == 105
        && word[4] == 110 {
        proof {
            assert(word@ =~= kw_begin());
        }
        Token::Begin
    } else if word.len() == 3 && word[0] == 118 && word[1] == 97 && word[2] == 114 {
        proof {
            assert(word@ =~= kw_var());
        }
        Token::Var
    } else if word.len() == 4 && word[0] == 102 && word[1] == 117 && word[2] == 110 && word[3]
        == 99 {
        proof {
            assert(word@ =~= kw_func());
        }
        Token::Func
    } else if word.len() == 6 && word[0] == 114 && word[1] == 101 && word[2] == 116 && word[3]
        == 117 && word[4] == 114 && word[5] == 110 {
        proof {
            assert(word@ =~= kw_return());
        }
        Token::Return
    } else {
        Token::Ident(word)
    }
}

/// Lexes the alphabetic run that starts at `start`.
fn lex_bareword(src: &[u8], start: usize) -> (r: (Token, usize))
    requires
        start < src@.len(),
        is_alpha_byte(src@[start as int]),
    ensures
        start < r.1 <= src@.len(),
        r.1 == alpha_end(src@, start as nat),
        r.0@ == keyword_or_ident(src@.subrange(start as int, r.1 as int)),
{
    let mut j: usize = start;
    while j < src.len() && byte_is_alpha(src[j])
        invariant
            start <= j <= src@.len(),
            alpha_end(src@, start as nat) == alpha_end(src@, j as nat),
        decreases src@.len() - j,
    {
        j = j + 1;
    }
    proof {
        lemma_alpha_end_bounds(src@, start as nat + 1);
    }
    let word = copy_range(src, start, j);
    (bareword_token(word), j)
}

/// Lexes the digit run that starts at `start` as an integer literal.
fn lex_integer(src: &[u8], start: usize) -> (r: (Token, usize))
    requires
        start < src@.len(),
        is_digit_byte(src@[start as int]),
    ensures
        start < r.1 <= src@.len(),
        r.1 == digit_end(src@, start as nat),
        r.0@ == TokenView::Integer(src@.subrange(start as int, r.1 as int)),
{
    let mut j: usize = start;
    while j < src.len() && byte_is_digit(src[j])
        invariant
            start <= j <= src@.len(),
            digit_end(src@, start as nat) == digit_end(src@, j as nat),
        decreases src@.len() - j,
    {
        j = j + 1;
    }
    proof {
        lemma_digit_end_bounds(src@, start as nat + 1);
    }
    let word = copy_range(src, start, j);
    (Token::Integer(word), j)
}

/// The token a one-character symbol byte stands for, if any.
fn lex_onechar_symbol(b: u8) -> (r: Option<Token>)
    ensures
        (match r {
            Some(t) => symbol_for(b) == Some(t@),
            None => symbol_for(b) is None,
        }),
{
    if b == 123 {
        Some(Token::LeftBrace)
    } else if b == 125 {
        Some(Token::RightBrace)
    } else if b == 61 {
        Some(Token::Equals)
    } else if b == 40 {
        Some(Token::LeftParen)
    } else if b == 41 {
        Some(Token::RightParen)
    } else if b == 43 {
        Some(Token::Plus)
    } else if b == 44 {
        Some(Token::Comma)
    } else if b == 59 {
        Some(Token::Semicolon)
    } else {
        None
    }
}

/// Turns the source text into its token sequence, left to right, consuming
/// whitespace between tokens; fails with the byte offset of the first byte
/// that no token can start with.
pub fn lex_tokens(src: &[u8]) -> (r: Result<Vec<Token>, LexError>)
    ensures
        lex_view(r) == spec_lex_from(src@, 0),
{
    let mut toks: Vec<Token> = Vec::new();
    let mut i: usize = 0;
    while i < src.len()
        invariant
            i <= src@.len(),
            spec_lex_from(src@, 0) == lex_prepend(toks_view(toks@), spec_lex_from(src@, i as nat)),
        decreases src@.len() - i,
    {
        let b = src[i];
        if byte_is_whitespace(b) {
            i = i + 1;
        } else if byte_is_alpha(b) {
            let (tok, j) = lex_bareword(src, i);
            proof {
                lemma_prepend_step(toks_view(toks@), tok@, spec_lex_from(src@, j as nat));
                lemma_toks_view_push(toks@, tok);
            }
            toks.push(tok);
            i = j;
        } else if let Some(tok) = lex_onechar_symbol(b) {
            proof {
                lemma_prepend_step(toks_view(toks@), tok@, spec_lex_from(src@, i as nat + 1));
                lemma_toks_view_push(toks@, tok);
            }
            toks.push(tok);
            i = i + 1;
        } else if byte_is_digit(b) {
            let (tok, j) = lex_integer(src, i);
            proof {
                lemma_prepend_step(toks_view(toks@), tok@, spec_lex_from(src@, j as nat));
                lemma_toks_view_push(toks@, tok);
            }
            toks.push(tok);
            i = j;
        } else {
            return Err(LexError { offset: i });
        }
    }
    proof {
        assert(toks_view(toks@) + Seq::<TokenView>::empty() =~= toks_view(toks@));
    }
    Ok(toks)
}

} // verus!
