//! The tokenizer: raw bytes to a token stream.
//!
//! `tokenize` classifies the input into numbers, identifiers, operators,
//! parentheses and commas, skipping whitespace, and always ends the stream
//! with an explicit `End` token.  Numeric literals take integer, decimal and
//! exponent notation (`1`, `1.5`, `1e-3`); their exact rational value is
//! computed, or `LiteralOutOfRange` is reported where it does not fit.
//! The specification function `lex` defines the token stream of any input;
//! `tokenize` is proved to return exactly that.
//!
//! Byte values used below: space 32, tab 9, newline 10, carriage return 13,
//! `%` 37, `(` 40, `)` 41, `*` 42, `+` 43, `,` 44, `-` 45, `.` 46, `/` 47,
//! digits 48..=57, `E` 69, uppercase letters 65..=90, `_` 95, `e` 101,
//! lowercase letters 97..=122.

use vstd::prelude::*;
use crate::error::{LexError, LexErrorKind};
use crate::num::Rat;

verus! {

/// A lexical token as produced by the tokenizer.
#[derive(Debug)]
pub enum TokenKind {
    /// A numeric literal with its exact value.
    Num(Rat),
    /// An identifier: letters, digits and underscores, not starting with a
    /// digit.
    Ident(Vec<u8>),
    Plus,
    Minus,
    Star,
    Slash,
    Percent,
    /// The two-byte operator `**`.
    Pow,
    LParen,
    RParen,
    Comma,
    /// The explicit end-of-input marker.
    End,
}

/// A token with the byte offset at which it starts.
#[derive(Debug)]
pub struct Token {
    pub kind: TokenKind,
    pub pos: usize,
}

/// The mathematical shape of a token.
pub enum TokKindV {
    Num(Rat),
    Ident(Seq<u8>),
    Plus,
    Minus,
    Star,
    Slash,
    Percent,
    Pow,
    LParen,
    RParen,
    Comma,
    End,
}

/// The mathematical shape of a positioned token.
pub struct TokView {
    pub kind: TokKindV,
    pub pos: usize,
}

impl View for Token {
    type V = TokView;

    open spec fn view(&self) -> TokView {
        TokView {
            kind: match self.kind {
                TokenKind::Num(v) => TokKindV::Num(v),
                TokenKind::Ident(n) => TokKindV::Ident(n@),
                TokenKind::Plus => TokKindV::Plus,
                TokenKind::Minus => TokKindV::Minus,
                TokenKind::Star => TokKindV::Star,
                TokenKind::Slash => TokKindV::Slash,
                TokenKind::Percent => TokKindV::Percent,
                TokenKind::Pow => TokKindV::Pow,
                TokenKind::LParen => TokKindV::LParen,
                TokenKind::RParen => TokKindV::RParen,
                TokenKind::Comma => TokKindV::Comma,
                TokenKind::End => TokKindV::End,
            },
            pos: self.pos,
        }
    }
}

/// The views of a token vector.
pub open spec fn tview(ts: Seq<Token>) -> Seq<TokView> {
    ts.map_values(|t: Token| t@)
}

/// Every numeric token holds a well-formed rational.
pub open spec fn toks_wf(ts: Seq<TokView>) -> bool {
    forall|k: int|
        0 <= k < ts.len() ==> (#[trigger] ts[k].kind matches TokKindV::Num(v) ==> v.wf())
}

pub open spec fn is_space(c: u8) -> bool {
    c == 32 || c == 9 || c == 10 || c == 13
}

pub open spec fn is_digit(c: u8) -> bool {
    48 <= c && c <= 57
}

pub open spec fn is_alpha(c: u8) -> bool {
    (65 <= c && c <= 90) || (97 <= c && c <= 122) || c == 95
}

pub open spec fn is_ident_ch(c: u8) -> bool {
    is_alpha(c) || is_digit(c)
}

/// The first position at or after `i` that does not hold a digit.
pub open spec fn digits_end(s: Seq<u8>, i: int) -> int
    decreases s.len() - i,
{
    if 0 <= i && i < s.len() && is_digit(s[i]) {
        digits_end(s, i + 1)
    } else {
        i
    }
}

/// The first position at or after `i` that does not hold an identifier byte.
pub open spec fn ident_end(s: Seq<u8>, i: int) -> int
    decreases s.len() - i,
{
    if 0 <= i && i < s.len() && is_ident_ch(s[i]) {
        ident_end(s, i + 1)
    } else {
        i
    }
}

/// Decimal accumulation of the digits `s[i..j]` onto `a`.
pub open spec fn acc_dec(s: Seq<u8>, i: int, j: int, a: int) -> int
    decreases j - i,
{
    if 0 <= i && i < j && j <= s.len() {
        acc_dec(s, i + 1, j, a * 10 + (s[i] - 48))
    } else {
        a
    }
}

/// The `e`-th power of ten.
pub open spec fn pow10(e: nat) -> int
    decreases e,
{
    if e == 0 {
        1
    } else {
        10 * pow10((e - 1) as nat)
    }
}

/// The value and end of the numeric literal starting at the digit `s[i]`:
/// the number `mant * 10^ex` as an exact rational, where `mant` is the
/// integer named by the digits around the decimal point and `ex` the written
/// exponent minus the count of fractional digits.
pub open spec fn scan_num(s: Seq<u8>, i: int) -> Result<(Rat, int), LexError> {
    let j1 = digits_end(s, i);
    if j1 < s.len() && s[j1] == 46 {
        let j2 = digits_end(s, j1 + 1);
        if j2 == j1 + 1 {
            Err(LexError { kind: LexErrorKind::MalformedNumber, pos: j1 as usize })
        } else {
            scan_exp(s, i, acc_dec(s, j1 + 1, j2, acc_dec(s, i, j1, 0)), j2 - (j1 + 1), j2)
        }
    } else {
        scan_exp(s, i, acc_dec(s, i, j1, 0), 0, j1)
    }
}

/// The optional exponent part at `p` applied to the mantissa scanned so far.
pub open spec fn scan_exp(s: Seq<u8>, start: int, mant: int, fr: int, p: int) -> Result<
    (Rat, int),
    LexError,
> {
    if p < s.len() && (s[p] == 101 || s[p] == 69) {
        if p + 1 < s.len() && s[p + 1] == 45 {
            scan_exp_digits(s, start, mant, fr, p, true, p + 2)
        } else if p + 1 < s.len() && s[p + 1] == 43 {
            scan_exp_digits(s, start, mant, fr, p, false, p + 2)
        } else {
            scan_exp_digits(s, start, mant, fr, p, false, p + 1)
        }
    } else {
        assemble(start, mant, 0 - fr, p)
    }
}

/// The exponent digits at `q0` (at least one is required).
pub open spec fn scan_exp_digits(
    s: Seq<u8>,
    start: int,
    mant: int,
    fr: int,
    p: int,
    neg: bool,
    q0: int,
) -> Result<(Rat, int), LexError> {
    let j3 = digits_end(s, q0);
    if j3 == q0 {
        Err(LexError { kind: LexErrorKind::MalformedNumber, pos: p as usize })
    } else {
        let ev = acc_dec(s, q0, j3, 0);
        assemble(start, mant, (if neg {
            -ev
        } else {
            ev
        }) - fr, j3)
    }
}

/// The rational `mant * 10^ex` as a literal token value, ending at `end`;
/// `LiteralOutOfRange` (reported at the literal's start) where a component
/// leaves `i64`.
pub open spec fn assemble(start: int, mant: int, ex: int, end: int) -> Result<
    (Rat, int),
    LexError,
> {
    if mant == 0 {
        Ok((Rat { num: 0, den: 1 }, end))
    } else if ex >= 0 {
        let n = mant * pow10(ex as nat);
        if n <= i64::MAX {
            Ok((Rat { num: n as i64, den: 1 }, end))
        } else {
            Err(LexError { kind: LexErrorKind::LiteralOutOfRange, pos: start as usize })
        }
    } else {
        let d = pow10((-ex) as nat);
        if mant <= i64::MAX && d <= i64::MAX {
            Ok((Rat { num: mant as i64, den: d as i64 }, end))
        } else {
            Err(LexError { kind: LexErrorKind::LiteralOutOfRange, pos: start as usize })
        }
    }
}

/// Prepend a token to a tokenization outcome.
pub open spec fn lex_cons(t: TokView, rest: Result<Seq<TokView>, LexError>) -> Result<
    Seq<TokView>,
    LexError,
> {
    match rest {
        Ok(ts) => Ok(seq![t] + ts),
        Err(e) => Err(e),
    }
}

/// Append a tokenization outcome to already-scanned tokens.
pub open spec fn lex_app(pre: Seq<TokView>, rest: Result<Seq<TokView>, LexError>) -> Result<
    Seq<TokView>,
    LexError,
> {
    match rest {
        Ok(ts) => Ok(pre + ts),
        Err(e) => Err(e),
    }
}

/// The token stream of `s` from position `i` on: the meaning of
/// tokenization.  Whitespace separates tokens; `**` is taken greedily before
/// `*`; a digit starts a numeric literal, a letter or underscore an
/// identifier; the stream always ends with `End`.
pub open spec fn lex(s: Seq<u8>, i: int) -> Result<Seq<TokView>, LexError>
    decreases s.len() - i,
{
    if i < 0 || i >= s.len() {
        Ok(seq![TokView { kind: TokKindV::End, pos: i as usize }])
    } else {
        let c = s[i];
        if is_space(c) {
            lex(s, i + 1)
        } else if is_digit(c) {
            match scan_num(s, i) {
                Ok((v, j)) => if i < j && j <= s.len() {
                    lex_cons(TokView { kind: TokKindV::Num(v), pos: i as usize }, lex(s, j))
                } else {
                    Err(LexError { kind: LexErrorKind::MalformedNumber, pos: i as usize })
                },
                Err(e) => Err(e),
            }
        } else if is_alpha(c) {
            let j = ident_end(s, i);
            if i < j && j <= s.len() {
                lex_cons(
                    TokView { kind: TokKindV::Ident(s.subrange(i, j)), pos: i as usize },
                    lex(s, j),
                )
            } else {
                Err(LexError { kind: LexErrorKind::UnrecognizedChar, pos: i as usize })
            }
        } else if c == 42 {
            if i + 1 < s.len() && s[i + 1] == 42 {
                lex_cons(TokView { kind: TokKindV::Pow, pos: i as usize }, lex(s, i + 2))
            } else {
                lex_cons(TokView { kind: TokKindV::Star, pos: i as usize }, lex(s, i + 1))
            }
        } else if c == 43 {
            lex_cons(TokView { kind: TokKindV::Plus, pos: i as usize }, lex(s, i + 1))
        } else if c == 45 {
            lex_cons(TokView { kind: TokKindV::Minus, pos: i as usize }, lex(s, i + 1))
        } else if c == 47 {
            lex_cons(TokView { kind: TokKindV::Slash, pos: i as usize }, lex(s, i + 1))
        } else if c == 37 {
            lex_cons(TokView { kind: TokKindV::Percent, pos: i as usize }, lex(s, i + 1))
        } else if c == 40 {
            lex_cons(TokView { kind: TokKindV::LParen, pos: i as usize }, lex(s, i + 1))
        } else if c == 41 {
            lex_cons(TokView { kind: TokKindV::RParen, pos: i as usize }, lex(s, i + 1))
        } else if c == 44 {
            lex_cons(TokView { kind: TokKindV::Comma, pos: i as usize }, lex(s, i + 1))
        } else {
            Err(LexError { kind: LexErrorKind::UnrecognizedChar, pos: i as usize })
        }
    }
}

pub proof fn lemma_digits_end_bounds(s: Seq<u8>, i: int)
    requires
        0 <= i <= s.len(),
    ensures
        i <= digits_end(s, i) <= s.len(),
        forall|k: int| i <= k < digits_end(s, i) ==> is_digit(s[k]),
    decreases s.len() - i,
{
    if i < s.len() && is_digit(s[i]) {
        lemma_digits_end_bounds(s, i + 1);
    }
}

pub proof fn lemma_ident_end_bounds(s: Seq<u8>, i: int)
    requires
        0 <= i <= s.len(),
    ensures
        i <= ident_end(s, i) <= s.len(),
    decreases s.len() - i,
{
    if i < s.len() && is_ident_ch(s[i]) {
        lemma_ident_end_bounds(s, i + 1);
    }
}

proof fn lemma_pow10_pos(e: nat)
    ensures
        pow10(e) >= 1,
    decreases e,
{
    if e > 0 {
        lemma_pow10_pos((e - 1) as nat);
    }
}

proof fn lemma_pow10_mono(a: nat, b: nat)
    requires
        a <= b,
    ensures
        pow10(a) <= pow10(b),
    decreases b,
{
    if a < b {
        lemma_pow10_mono(a, (b - 1) as nat);
        lemma_pow10_pos((b - 1) as nat);
    }
}

proof fn lemma_pow10_big(e: nat)
    requires
        e >= 19,
    ensures
        pow10(e) > i64::MAX,
{
    assert(pow10(19) == 10_000_000_000_000_000_000) by {
        reveal_with_fuel(pow10, 20);
    }
    lemma_pow10_mono(19, e);
}

proof fn lemma_mul_ge_one(a: int, b: int)
    requires
        a >= 1,
        b >= 1,
    ensures
        a * b >= a,
        a * b >= b,
{
    assert(a * b >= a && a * b >= b) by (nonlinear_arith)
        requires
            a >= 1,
            b >= 1,
    ;
}

proof fn lemma_mul_upper(a: int, b: int, c: int, d: int)
    requires
        0 <= a <= c,
        0 <= b <= d,
    ensures
        a * b <= c * d,
{
    assert(a * b <= c * d) by (nonlinear_arith)
        requires
            0 <= a <= c,
            0 <= b <= d,
    ;
}

/// The end of the digit run from `from` on.
fn digits_scan(src: &[u8], from: usize) -> (j: usize)
    requires
        from <= src@.len(),
    ensures
        j as int == digits_end(src@, from as int),
        from <= j <= src@.len(),
        forall|k: int| from <= k < j ==> is_digit(src@[k]),
{
    let mut j = from;
    while j < src.len() && 48 <= src[j] && src[j] <= 57
        invariant
            from <= j <= src@.len(),
            digits_end(src@, from as int) == digits_end(src@, j as int),
        decreases src@.len() - j,
    {
        j = j + 1;
    }
    proof {
        lemma_digits_end_bounds(src@, from as int);
    }
    j
}

/// Decimal accumulation of the digits `src[from..to]` onto `a0`, capped:
/// the boolean says that the exact value exceeds `cap`.
fn acc_digits(
    src: &[u8],
    from: usize,
    to: usize,
    a0: u128,
    big0: bool,
    cap: u128,
    Ghost(av): Ghost<int>,
) -> (res: (u128, bool))
    requires
        from <= to <= src@.len(),
        forall|k: int| from <= k < to ==> is_digit(src@[k]),
        av >= 0,
        1 <= cap <= 0xffff_ffff_ffff_ffff_ffff_ffff,
        !big0 ==> a0 as int == av && a0 <= cap,
        big0 ==> av > cap as int,
    ensures
        !res.1 ==> res.0 as int == acc_dec(src@, from as int, to as int, av) && res.0 <= cap,
        res.1 ==> acc_dec(src@, from as int, to as int, av) > cap as int,
{
    let mut a = a0;
    let mut big = big0;
    let mut k = from;
    let ghost mut m: int = av;
    while k < to
        invariant
            from <= k <= to <= src@.len(),
            forall|kk: int| from <= kk < to ==> is_digit(src@[kk]),
            m >= 0,
            1 <= cap <= 0xffff_ffff_ffff_ffff_ffff_ffff,
            !big ==> a as int == m && a <= cap,
            big ==> m > cap as int,
            acc_dec(src@, k as int, to as int, m) == acc_dec(src@, from as int, to as int, av),
        decreases to - k,
    {
        let d = src[k];
        proof {
            assert(is_digit(src@[k as int]));
            assert(acc_dec(src@, k as int, to as int, m) == acc_dec(
                src@,
                k as int + 1,
                to as int,
                m * 10 + (src@[k as int] - 48),
            ));
        }
        if !big {
            a = a * 10 + ((d - 48) as u128);
            if a > cap {
                big = true;
            }
        }
        proof {
            m = m * 10 + (src@[k as int] - 48);
        }
        k = k + 1;
    }
    (a, big)
}

/// Ten to the `e`-th, or `None` where that exceeds `i64::MAX`.
fn pow10_capped(e: u128) -> (r: Option<i64>)
    requires
        e >= 0,
    ensures
        match r {
            Some(p) => p as int == pow10(e as nat) && 1 <= p,
            None => pow10(e as nat) > i64::MAX,
        },
{
    let mut p: u128 = 1;
    let mut k: u128 = 0;
    while k < e
        invariant
            0 <= k <= e,
            p as int == pow10(k as nat),
            1 <= p <= i64::MAX as u128,
        decreases e - k,
    {
        p = p * 10;
        k = k + 1;
        if p > i64::MAX as u128 {
            proof {
                lemma_pow10_mono(k as nat, e as nat);
            }
            return None;
        }
    }
    proof {
        lemma_pow10_pos(e as nat);
    }
    Some(p as i64)
}

/// Scan the numeric literal that starts with the digit `src[start]`.
fn scan_number(src: &[u8], start: usize) -> (r: Result<(Rat, usize), LexError>)
    requires
        start < src@.len(),
        is_digit(src@[start as int]),
    ensures
        match r {
            Ok((v, j)) => scan_num(src@, start as int) == Ok::<(Rat, int), LexError>(
                (v, j as int),
            ) && start < j <= src@.len() && v.wf(),
            Err(e) => scan_num(src@, start as int) == Err::<(Rat, int), LexError>(e),
        },
{
    let maxc: u128 = i64::MAX as u128;
    // 1. integer digits
    let j1 = digits_scan(src, start);
    proof {
        assert(digits_end(src@, start as int) == digits_end(src@, start as int + 1));
        lemma_digits_end_bounds(src@, start as int + 1);
    }
    let (m1, b1) = acc_digits(src, start, j1, 0, false, maxc, Ghost(0));
    // 2. optional fraction
    let has_frac = j1 < src.len() && src[j1] == 46;
    let mut mant: u128 = m1;
    let mut mant_big: bool = b1;
    let mut fr: usize = 0;
    let mut end: usize = j1;
    if has_frac {
        let j2 = digits_scan(src, j1 + 1);
        if j2 == j1 + 1 {
            return Err(LexError { kind: LexErrorKind::MalformedNumber, pos: j1 });
        }
        let ghost mv: int = acc_dec(src@, start as int, j1 as int, 0);
        let (m2, b2) = acc_digits(src, j1 + 1, j2, m1, b1, maxc, Ghost(mv));
        mant = m2;
        mant_big = b2;
        fr = j2 - (j1 + 1);
        end = j2;
    }
    let ghost mant_math: int = if has_frac {
        acc_dec(src@, j1 as int + 1, end as int, acc_dec(src@, start as int, j1 as int, 0))
    } else {
        acc_dec(src@, start as int, j1 as int, 0)
    };
    // 3. optional exponent
    let capc: u128 = 27_670_116_110_564_327_423u128;  // i64::MAX + u64::MAX + 1
    let mut eneg = false;
    let mut ev: u128 = 0;
    let mut ev_capped = false;
    let ghost mut ev_math: int = 0;
    if end < src.len() && (src[end] == 101 || src[end] == 69) {
        let q0: usize = if end + 1 < src.len() && src[end + 1] == 45 {
            eneg = true;
            end + 2
        } else if end + 1 < src.len() && src[end + 1] == 43 {
            end + 2
        } else {
            end + 1
        };
        let j3 = digits_scan(src, q0);
        if j3 == q0 {
            return Err(LexError { kind: LexErrorKind::MalformedNumber, pos: end });
        }
        let (e1, ec) = acc_digits(src, q0, j3, 0, false, capc, Ghost(0));
        ev = e1;
        ev_capped = ec;
        proof {
            ev_math = acc_dec(src@, q0 as int, j3 as int, 0);
        }
        end = j3;
    }
    let ghost ex: int = (if eneg {
        -ev_math
    } else {
        ev_math
    }) - fr as int;
    proof {
        assert(scan_num(src@, start as int) == assemble(start as int, mant_math, ex, end as int));
    }
    // 4. assembly
    if !mant_big && mant == 0 {
        return Ok((Rat { num: 0, den: 1 }, end));
    }
    proof {
        assert(mant_math >= 1);
    }
    if ev_capped {
        // the exponent magnitude alone exceeds i64::MAX + fr
        proof {
            if eneg {
                assert((-ex) as nat >= 19);
                lemma_pow10_big((-ex) as nat);
            } else {
                assert(ex >= 19);
                lemma_pow10_big(ex as nat);
                lemma_pow10_pos(ex as nat);
                lemma_mul_ge_one(mant_math, pow10(ex as nat));
            }
        }
        return Err(LexError { kind: LexErrorKind::LiteralOutOfRange, pos: start });
    }
    // exact exponent: |ev| <= capc, fr <= usize::MAX, both fit i128
    let exs: i128 = (if eneg {
        -(ev as i128)
    } else {
        ev as i128
    }) - (fr as i128);
    if exs >= 0 {
        if mant_big {
            proof {
                lemma_pow10_pos(ex as nat);
                lemma_mul_ge_one(mant_math, pow10(ex as nat));
            }
            return Err(LexError { kind: LexErrorKind::LiteralOutOfRange, pos: start });
        }
        match pow10_capped(exs as u128) {
            None => {
                proof {
                    lemma_pow10_pos(ex as nat);
                    lemma_mul_ge_one(mant_math, pow10(ex as nat));
                }
                Err(LexError { kind: LexErrorKind::LiteralOutOfRange, pos: start })
            },
            Some(p) => {
                proof {
                    lemma_mul_upper(mant_math, pow10(ex as nat), maxc as int, maxc as int);
                    lemma_pow10_pos(ex as nat);
                    lemma_mul_ge_one(mant_math, pow10(ex as nat));
                }
                let n: u128 = mant * (p as u128);
                if n > maxc {
                    Err(LexError { kind: LexErrorKind::LiteralOutOfRange, pos: start })
                } else {
                    Ok((Rat { num: n as i64, den: 1 }, end))
                }
            },
        }
    } else {
        if mant_big {
            return Err(LexError { kind: LexErrorKind::LiteralOutOfRange, pos: start });
        }
        match pow10_capped((-exs) as u128) {
            None => Err(LexError { kind: LexErrorKind::LiteralOutOfRange, pos: start }),
            Some(p) => Ok((Rat { num: mant as i64, den: p }, end)),
        }
    }
}

proof fn lemma_lex_app_nil(r: Result<Seq<TokView>, LexError>)
    ensures
        lex_app(Seq::<TokView>::empty(), r) == r,
{
    match r {
        Ok(ts) => {
            assert(Seq::<TokView>::empty() + ts =~= ts);
        },
        Err(_) => {},
    }
}

proof fn lemma_lex_app_step(pre: Seq<TokView>, t: TokView, rest: Result<Seq<TokView>, LexError>)
    ensures
        lex_app(pre, lex_cons(t, rest)) == lex_app(pre.push(t), rest),
{
    match rest {
        Ok(ts) => {
            assert(pre + (seq![t] + ts) =~= pre.push(t) + ts);
        },
        Err(_) => {},
    }
}

proof fn lemma_tview_push(ts: Seq<Token>, t: Token)
    ensures
        tview(ts.push(t)) == tview(ts).push(t@),
{
    assert(tview(ts.push(t)) =~= tview(ts).push(t@));
}

/// Tokenize the whole input: exactly the token stream `lex` describes.
pub fn tokenize(src: &[u8]) -> (r: Result<Vec<Token>, LexError>)
    ensures
        match r {
            Ok(ts) => lex(src@, 0) == Ok::<Seq<TokView>, LexError>(tview(ts@)) && toks_wf(
                tview(ts@),
            ),
            Err(e) => lex(src@, 0) == Err::<Seq<TokView>, LexError>(e),
        },
{
    let mut toks: Vec<Token> = Vec::new();
    let mut i: usize = 0;
    proof {
        lemma_lex_app_nil(lex(src@, 0));
        assert(tview(toks@) =~= Seq::<TokView>::empty());
    }
    while i < src.len()
        invariant
            i <= src@.len(),
            lex(src@, 0) == lex_app(tview(toks@), lex(src@, i as int)),
            toks_wf(tview(toks@)),
        decreases src@.len() - i,
    {
        let c = src[i];
        if c == 32 || c == 9 || c == 10 || c == 13 {
            i = i + 1;
        } else if 48 <= c && c <= 57 {
            match scan_number(src, i) {
                Ok((v, j)) => {
                    let t = Token { kind: TokenKind::Num(v), pos: i };
                    proof {
                        lemma_lex_app_step(tview(toks@), t@, lex(src@, j as int));
                        lemma_tview_push(toks@, t);
                    }
                    toks.push(t);
                    i = j;
                },
                Err(e) => {
                    return Err(e);
                },
            }
        } else if (65 <= c && c <= 90) || (97 <= c && c <= 122) || c == 95 {
            let j = ident_scan(src, i);
            proof {
                assert(ident_end(src@, i as int) == ident_end(src@, i as int + 1));
                lemma_ident_end_bounds(src@, i as int + 1);
            }
            let name = copy_range(src, i, j);
            let t = Token { kind: TokenKind::Ident(name), pos: i };
            proof {
                lemma_lex_app_step(tview(toks@), t@, lex(src@, j as int));
                lemma_tview_push(toks@, t);
            }
            toks.push(t);
            i = j;
        } else if c == 42 || c == 43 || c == 45 || c == 47 || c == 37 || c == 40 || c == 41 || c
            == 44 {
            let two_star = c == 42 && i + 1 < src.len() && src[i + 1] == 42;
            let kind = if two_star {
                TokenKind::Pow
            } else if c == 42 {
                TokenKind::Star
            } else if c == 43 {
                TokenKind::Plus
            } else if c == 45 {
                TokenKind::Minus
            } else if c == 47 {
                TokenKind::Slash
            } else if c == 37 {
                TokenKind::Percent
            } else if c == 40 {
                TokenKind::LParen
            } else if c == 41 {
                TokenKind::RParen
            } else {
                TokenKind::Comma
            };
            let j = if two_star {
                i + 2
            } else {
                i + 1
            };
            let t = Token { kind, pos: i };
            proof {
                lemma_lex_app_step(tview(toks@), t@, lex(src@, j as int));
                lemma_tview_push(toks@, t);
            }
            toks.push(t);
            i = j;
        } else {
            return Err(LexError { kind: LexErrorKind::UnrecognizedChar, pos: i });
        }
    }
    let t = Token { kind: TokenKind::End, pos: i };
    proof {
        assert(lex(src@, i as int) == Ok::<Seq<TokView>, LexError>(seq![t@]));
        assert(tview(toks@) + seq![t@] =~= tview(toks@).push(t@));
        lemma_tview_push(toks@, t);
    }
    toks.push(t);
    Ok(toks)
}

/// The end of the identifier run from `from` on.
fn ident_scan(src: &[u8], from: usize) -> (j: usize)
    requires
        from <= src@.len(),
    ensures
        j as int == ident_end(src@, from as int),
        from <= j <= src@.len(),
{
    let mut j = from;
    while j < src.len() && ((65 <= src[j] && src[j] <= 90) || (97 <= src[j] && src[j] <= 122)
        || src[j] == 95 || (48 <= src[j] && src[j] <= 57))
        invariant
            from <= j <= src@.len(),
            ident_end(src@, from as int) == ident_end(src@, j as int),
        decreases src@.len() - j,
    {
        j = j + 1;
    }
    proof {
        lemma_ident_end_bounds(src@, from as int);
    }
    j
}

/// Copy the bytes `src[from..to]` into a fresh vector.
fn copy_range(src: &[u8], from: usize, to: usize) -> (r: Vec<u8>)
    requires
        from <= to <= src@.len(),
    ensures
        r@ == src@.subrange(from as int, to as int),
{
    let mut r: Vec<u8> = Vec::new();
    let mut k = from;
    proof {
        assert(r@ =~= src@.subrange(from as int, from as int));
    }
    while k < to
        invariant
            from <= k <= to <= src@.len(),
            r@ == src@.subrange(from as int, k as int),
        decreases to - k,
    {
        r.push(src[k]);
        proof {
            assert(src@.subrange(from as int, k + 1 as int) =~= src@.subrange(
                from as int,
                k as int,
            ).push(src@[k as int]));
        }
        k = k + 1;
    }
    r
}

} // verus!
