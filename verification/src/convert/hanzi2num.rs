//! Reads a number written in classical numerals and writes it in decimal
//! notation.
//!
//! The word is read from its end. The digits are collected lowest first,
//! together with the exponent of the lowest digit; a stack of the
//! multipliers seen so far gives the exponent of the digit that is read.

use vstd::prelude::*;
use vstd::string::StringExecFns;
use crate::decimal::{decimal, decimal_text, digit_char, digit_text};

verus! {

/// The kinds of characters in a number word.
#[derive(Clone, Copy, PartialEq, Eq, Debug, Structural)]
pub enum TT {
    /// 負
    SIGN,
    /// 一二三...
    DIGIT,
    /// ·
    DECIMAL,
    /// 十百千萬億...
    IntMult,
    /// 分釐毫...
    FracMult,
    /// 又
    DELIM,
    /// 零
    ZERO,
    /// The start of the word.
    BEGIN,
    /// The end of the word.
    END,
}

pub type Digit = char;

pub type Exp = isize;

#[derive(Clone, Copy, Debug)]
pub struct NumberToken {
    pub kind: TT,
    pub digit: Option<Digit>,
    pub sign: Option<i8>,
    pub expr: Option<Exp>,
}

/// Whether `ch` is one of the ten decimal digits.
pub open spec fn is_digit(ch: char) -> bool {
    exists|d: nat| d < 10 && ch == #[trigger] digit_char(d)
}

/// Whether a token is as the table of number characters makes it: a digit
/// has its digit, a sign its sign, and an exponent is small.
pub open spec fn token_valid(token: NumberToken) -> bool {
    &&& token.kind == TT::DIGIT || token.kind == TT::ZERO ==> token.digit is Some && is_digit(token.digit->0)
    &&& token.kind == TT::SIGN ==> token.sign is Some && (token.sign->0 == 1 || token.sign->0 == -1)
    &&& token.expr is Some ==> -100 <= token.expr->0 <= 100
}

impl NumberToken {
    pub fn new(kind: TT, digit: Option<Digit>, sign: Option<i8>, expr: Option<Exp>) -> (token: Self)
        ensures
            token.kind == kind,
            token.digit == digit,
            token.sign == sign,
            token.expr == expr,
    {
        Self { kind, digit, sign, expr }
    }

    pub fn kind(&self) -> (kind: &TT)
        ensures
            *kind == self.kind,
    {
        &self.kind
    }
}

/// The exponent of ten that a multiplier character stands for.
pub open spec fn multiplier_exponent(ch: char) -> Option<Exp> {
    if ch == '十' {
        Some(1)
    } else if ch == '百' {
        Some(2)
    } else if ch == '千' {
        Some(3)
    } else if ch == '萬' {
        Some(4)
    } else if ch == '億' {
        Some(8)
    } else if ch == '兆' {
        Some(12)
    } else if ch == '京' {
        Some(16)
    } else if ch == '垓' {
        Some(20)
    } else if ch == '秭' {
        Some(24)
    } else if ch == '穰' {
        Some(28)
    } else if ch == '溝' {
        Some(32)
    } else if ch == '澗' {
        Some(36)
    } else if ch == '正' {
        Some(40)
    } else if ch == '載' {
        Some(44)
    } else if ch == '極' {
        Some(48)
    } else {
        None
    }
}

/// The exponent of ten that a fraction character stands for.
pub open spec fn fraction_exponent(ch: char) -> Option<Exp> {
    if ch == '分' {
        Some(-1isize)
    } else if ch == '釐' {
        Some(-2isize)
    } else if ch == '毫' {
        Some(-3isize)
    } else if ch == '絲' {
        Some(-4isize)
    } else if ch == '忽' {
        Some(-5isize)
    } else if ch == '微' {
        Some(-6isize)
    } else if ch == '纖' {
        Some(-7isize)
    } else if ch == '沙' {
        Some(-8isize)
    } else if ch == '塵' {
        Some(-9isize)
    } else if ch == '埃' {
        Some(-10isize)
    } else if ch == '渺' {
        Some(-11isize)
    } else if ch == '漠' {
        Some(-12isize)
    } else {
        None
    }
}

/// The digit that a digit character stands for.
pub open spec fn digit_value(ch: char) -> Option<nat> {
    if ch == '零' || ch == '〇' {
        Some(0)
    } else if ch == '一' {
        Some(1)
    } else if ch == '二' {
        Some(2)
    } else if ch == '三' {
        Some(3)
    } else if ch == '四' {
        Some(4)
    } else if ch == '五' {
        Some(5)
    } else if ch == '六' {
        Some(6)
    } else if ch == '七' {
        Some(7)
    } else if ch == '八' {
        Some(8)
    } else if ch == '九' {
        Some(9)
    } else {
        None
    }
}

/// The token that a character of a number word stands for; none for a
/// character that no number is written with.
pub open spec fn token_of(ch: char) -> Option<NumberToken> {
    if ch == '負' {
        Some(NumberToken { kind: TT::SIGN, digit: None, sign: Some(-1i8), expr: None })
    } else if ch == '·' {
        Some(NumberToken { kind: TT::DECIMAL, digit: None, sign: None, expr: Some(0) })
    } else if ch == '又' || ch == '有' {
        Some(NumberToken { kind: TT::DELIM, digit: None, sign: None, expr: None })
    } else if digit_value(ch) is Some {
        Some(NumberToken { kind: TT::DIGIT, digit: Some(digit_char(digit_value(ch)->0)), sign: None, expr: None })
    } else if multiplier_exponent(ch) is Some {
        Some(NumberToken { kind: TT::IntMult, digit: None, sign: None, expr: multiplier_exponent(ch) })
    } else if fraction_exponent(ch) is Some {
        Some(NumberToken { kind: TT::FracMult, digit: None, sign: None, expr: fraction_exponent(ch) })
    } else {
        None
    }
}

fn digit_of(ch: char) -> (digit: Option<Digit>)
    ensures
        digit == match digit_value(ch) {
            Some(d) => Some(digit_char(d)),
            None => None,
        },
{
    match ch {
        '零' | '〇' => Some('0'),
        '一' => Some('1'),
        '二' => Some('2'),
        '三' => Some('3'),
        '四' => Some('4'),
        '五' => Some('5'),
        '六' => Some('6'),
        '七' => Some('7'),
        '八' => Some('8'),
        '九' => Some('9'),
        _ => None,
    }
}

fn multiplier_of(ch: char) -> (exp: Option<Exp>)
    ensures
        exp == multiplier_exponent(ch),
{
    match ch {
        '十' => Some(1),
        '百' => Some(2),
        '千' => Some(3),
        '萬' => Some(4),
        '億' => Some(8),
        '兆' => Some(12),
        '京' => Some(16),
        '垓' => Some(20),
        '秭' => Some(24),
        '穰' => Some(28),
        '溝' => Some(32),
        '澗' => Some(36),
        '正' => Some(40),
        '載' => Some(44),
        '極' => Some(48),
        _ => None,
    }
}

fn fraction_of(ch: char) -> (exp: Option<Exp>)
    ensures
        exp == fraction_exponent(ch),
{
    match ch {
        '分' => Some(-1),
        '釐' => Some(-2),
        '毫' => Some(-3),
        '絲' => Some(-4),
        '忽' => Some(-5),
        '微' => Some(-6),
        '纖' => Some(-7),
        '沙' => Some(-8),
        '塵' => Some(-9),
        '埃' => Some(-10),
        '渺' => Some(-11),
        '漠' => Some(-12),
        _ => None,
    }
}

/// The token that the character `ch` of a number word stands for.
pub fn get_num_tokens(ch: char) -> (token: Option<NumberToken>)
    ensures
        token == token_of(ch),
        token is Some ==> token_valid(token->0),
{
    if ch == '負' {
        return Some(NumberToken::new(TT::SIGN, None, Some(-1), None));
    }
    if ch == '·' {
        return Some(NumberToken::new(TT::DECIMAL, None, None, Some(0)));
    }
    if ch == '又' || ch == '有' {
        return Some(NumberToken::new(TT::DELIM, None, None, None));
    }
    if let Some(digit) = digit_of(ch) {
        assert(is_digit(digit)) by {
            assert(digit == digit_char(digit_value(ch)->0));
        }
        return Some(NumberToken::new(TT::DIGIT, Some(digit), None, None));
    }
    if let Some(exp) = multiplier_of(ch) {
        return Some(NumberToken::new(TT::IntMult, None, None, Some(exp)));
    }
    if let Some(exp) = fraction_of(ch) {
        return Some(NumberToken::new(TT::FracMult, None, None, Some(exp)));
    }
    None
}

/// The tokens of a word: the start, the token of each character, the end.
pub open spec fn tokens_of(word: Seq<char>) -> Seq<NumberToken> {
    seq![NumberToken { kind: TT::BEGIN, digit: None, sign: None, expr: None }] + Seq::new(
        word.len(),
        |i: int| token_of(word[i])->0,
    ) + seq![NumberToken { kind: TT::END, digit: None, sign: None, expr: None }]
}

/// Whether a number can be written with every character of `word`.
pub open spec fn is_number_word(word: Seq<char>) -> bool {
    forall|i: int| 0 <= i < word.len() ==> token_of(#[trigger] word[i]) is Some
}

/// The tokens of `s`; none where `s` holds a character that no number is
/// written with.
pub fn tokenize(s: &str) -> (tokens: Option<Vec<NumberToken>>)
    ensures
        tokens is Some == is_number_word(s@),
        tokens is Some ==> tokens->0@ == tokens_of(s@),
        tokens is Some ==> forall|i: int| 0 <= i < tokens->0@.len() ==> token_valid(#[trigger] tokens->0@[i]),
{
    let mut ret: Vec<NumberToken> = Vec::new();
    ret.push(NumberToken { kind: TT::BEGIN, digit: None, sign: None, expr: None });
    let ghost begin = ret@;
    for ch in it: s.chars()
        invariant
            it.seq() == s@,
            begin == seq![NumberToken { kind: TT::BEGIN, digit: None, sign: None, expr: None }],
            ret@ == begin + Seq::new(it.index() as nat, |i: int| token_of(s@[i])->0),
            forall|i: int| 0 <= i < it.index() ==> token_of(#[trigger] s@[i]) is Some,
            forall|i: int| 0 <= i < ret@.len() ==> token_valid(#[trigger] ret@[i]),
    {
        match get_num_tokens(ch) {
            Some(value) => {
                ret.push(value);
                assert(ret@ =~= begin + Seq::new((it.index() + 1) as nat, |i: int| token_of(s@[i])->0));
            },
            None => {
                assert(token_of(s@[it.index() as int]) is None);
                return None;
            },
        }
    }
    ret.push(NumberToken { kind: TT::END, digit: None, sign: None, expr: None });
    assert(ret@ =~= tokens_of(s@));
    Some(ret)
}

/// What was read last, seen from the digits.
#[derive(Clone, Copy, PartialEq, Eq, Debug, Structural)]
pub enum EDigitState {
    /// The end of the word, or `·`.
    NONE,
    /// A fraction unit.
    MULT,
    /// A multiplier that may or may not have a digit before it.
    MultAmbit,
    /// A digit.
    DIGIT,
    /// A digit with a zero behind it.
    DigitWithZero,
    /// `又`.
    DELIM,
    /// A zero.
    ZERO,
    /// `負`.
    SIGN,
    /// A zero before a multiplier.
    ZeroMultAmbig,
}

/// What the stack of multipliers holds.
#[derive(Clone, Copy, PartialEq, Eq, Debug, Structural)]
pub enum EMultState {
    /// Nothing.
    NONE,
    /// A fraction unit at the bottom.
    FRAC,
    /// A multiplier or `·` at the bottom.
    INT,
    /// The start of the word was reached.
    DONE,
    SIGN,
}

/// The multipliers, as exponents of ten, under which the digit that is
/// read stands, with their sum.
pub struct MutlStack {
    exps: Vec<Exp>,
    exp_add: Exp,
}

impl MutlStack {
    /// The exponents on the stack, the lowest first.
    pub closed spec fn exps(&self) -> Seq<Exp> {
        self.exps@
    }

    /// The sum that is kept of the exponents.
    pub closed spec fn sum(&self) -> Exp {
        self.exp_add
    }

    pub fn new() -> (stack: Self)
        ensures
            stack.exps() == Seq::<Exp>::empty(),
            stack.sum() == 0,
    {
        Self { exps: Vec::new(), exp_add: 0 }
    }

    pub fn is_empty(&self) -> (empty: bool)
        ensures
            empty == (self.exps().len() == 0),
    {
        self.exps.len() == 0
    }

    pub fn total(&self) -> (total: Exp)
        ensures
            total == self.sum(),
    {
        self.exp_add
    }

    pub fn top(&self) -> (top: Exp)
        requires
            self.exps().len() > 0,
        ensures
            top == self.exps().last(),
    {
        self.exps[self.exps.len() - 1]
    }

    pub fn state(&self) -> (state: EMultState)
        ensures
            state == if self.exps().len() == 0 {
                EMultState::NONE
            } else if self.exps()[0] < 0 {
                EMultState::FRAC
            } else if self.exps()[0] < isize::MAX {
                EMultState::INT
            } else {
                EMultState::DONE
            },
    {
        if self.is_empty() {
            return EMultState::NONE;
        } else if self.exps[0] < 0 {
            return EMultState::FRAC;
        } else if self.exps[0] < isize::MAX {
            return EMultState::INT;
        } else {
            return EMultState::DONE;
        }
    }

    /// Whether `exp` can be pushed: the sum stays in range.
    pub fn can_push(&self, exp: Exp) -> (fits: bool)
        ensures
            fits == (isize::MIN <= self.sum() + exp <= isize::MAX),
    {
        if exp >= 0 {
            self.exp_add <= isize::MAX - exp
        } else {
            self.exp_add >= isize::MIN - exp
        }
    }

    pub fn push(&mut self, exp: Exp)
        requires
            isize::MIN <= old(self).sum() + exp <= isize::MAX,
        ensures
            final(self).exps() == old(self).exps().push(exp),
            final(self).sum() == old(self).sum() + exp,
    {
        self.exp_add += exp;
        self.exps.push(exp);
    }

    /// Whether the top can be popped: there is one, and the sum stays in
    /// range.
    pub fn can_pop(&self) -> (fits: bool)
        ensures
            fits == (self.exps().len() > 0 && isize::MIN <= self.sum() - self.exps().last() <= isize::MAX),
    {
        if self.exps.len() == 0 {
            return false;
        }
        let top = self.top();
        if top >= 0 {
            self.exp_add >= isize::MIN + top
        } else {
            self.exp_add <= isize::MAX + top
        }
    }

    pub fn pop(&mut self)
        requires
            old(self).exps().len() > 0,
            isize::MIN <= old(self).sum() - old(self).exps().last() <= isize::MAX,
        ensures
            final(self).exps() == old(self).exps().drop_last(),
            final(self).sum() == old(self).sum() - old(self).exps().last(),
    {
        self.exp_add -= self.top();
        let _ = self.exps.pop();
    }

    pub fn clear(&mut self)
        ensures
            final(self).exps() == Seq::<Exp>::empty(),
            final(self).sum() == 0,
    {
        self.exp_add = 0;
        self.exps.clear();
    }

    /// Marks that the start of the word was reached.
    pub fn mark_done(&mut self)
        ensures
            final(self).exps() == seq![isize::MAX],
            final(self).sum() == isize::MAX,
    {
        self.clear();
        self.push(isize::MAX);
    }
}

/// A number as it is read: its sign, its digits with the lowest first, and
/// an exponent of ten. While the word is read the exponent is one more
/// than that of the highest digit; in the end it is that of the lowest
/// digit.
pub struct Number {
    pub sign: i8,
    pub exp: Exp,
    pub digits: Seq<Digit>,
}

impl Number {
    /// The sign is 1 or -1 and every digit is a decimal digit.
    pub open spec fn valid(self) -> bool {
        &&& self.sign == 1 || self.sign == -1
        &&& forall|i: int| 0 <= i < self.digits.len() ==> is_digit(#[trigger] self.digits[i])
    }

    /// The digit with the exponent `exp`: 0 where the number has no digit
    /// there.
    pub open spec fn digit_at(self, exp: int) -> char {
        if 0 <= exp - self.exp < self.digits.len() {
            self.digits[exp - self.exp]
        } else {
            '0'
        }
    }

    /// The exponent of the highest digit.
    pub open spec fn highest_exponent(self) -> int {
        self.exp + self.digits.len() - 1
    }
}

pub struct ParseResult {
    pub sign: i8,
    pub exp: Exp,
    pub digits: Vec<Digit>,
}

impl View for ParseResult {
    type V = Number;

    open spec fn view(&self) -> Number {
        Number { sign: self.sign, exp: self.exp, digits: self.digits@ }
    }
}

impl ParseResult {
    pub fn new() -> (result: Self)
        ensures
            result@ == (Number { sign: 1, exp: 0, digits: Seq::empty() }),
    {
        Self { sign: 1, exp: 0, digits: Vec::new() }
    }

    pub fn sign(&self) -> (sign: i8)
        ensures
            sign == self@.sign,
    {
        self.sign
    }

    pub fn exp(&self) -> (exp: Exp)
        ensures
            exp == self@.exp,
    {
        self.exp
    }

    pub fn digits(&self) -> (digits: &Vec<Digit>)
        ensures
            digits@ == self@.digits,
    {
        &self.digits
    }

    pub fn apply_sign(&mut self, new_sign: i8)
        requires
            old(self)@.sign == 1 || old(self)@.sign == -1,
            new_sign == 1 || new_sign == -1,
        ensures
            final(self)@ == (Number { sign: (old(self)@.sign * new_sign) as i8, ..old(self)@ }),
    {
        self.sign = self.sign * new_sign;
    }

    /// Appends `digits` above the digits that are there.
    pub fn push(&mut self, digits: Vec<Digit>)
        requires
            old(self)@.exp + digits@.len() <= isize::MAX,
        ensures
            final(self)@ == (Number {
                exp: (old(self)@.exp + digits@.len()) as isize,
                digits: old(self)@.digits + digits@,
                ..old(self)@
            }),
    {
        let mut i: usize = 0;
        assert(self.digits@ =~= old(self).digits@ + digits@.take(0));
        while i < digits.len()
            invariant
                i <= digits@.len(),
                old(self).exp + digits@.len() <= isize::MAX,
                self.sign == old(self).sign,
                self.exp == old(self).exp + i,
                self.digits@ == old(self).digits@ + digits@.take(i as int),
            decreases digits@.len() - i,
        {
            self.digits.push(digits[i]);
            self.exp += 1;
            assert(digits@.take(i + 1) =~= digits@.take(i as int).push(digits@[i as int]));
            assert(self.digits@ =~= old(self).digits@ + digits@.take(i + 1));
            i += 1;
        }
        assert(digits@.take(i as int) =~= digits@);
    }

    /// Appends `digit` above the digits that are there.
    pub fn push_char(&mut self, digit: Digit)
        requires
            old(self)@.exp < isize::MAX,
        ensures
            final(self)@ == (Number {
                exp: (old(self)@.exp + 1) as isize,
                digits: old(self)@.digits.push(digit),
                ..old(self)@
            }),
    {
        self.digits.push(digit);
        self.exp += 1;
    }

    /// Appends zeros until the digit to come has the exponent `new_exp`.
    pub fn fill_zeros(&mut self, new_exp: Exp)
        ensures
            final(self)@ == old(self)@.zero_filled(new_exp),
    {
        assert(self.digits@ =~= old(self).digits@ + Seq::new(0, |i: int| '0'));
        while self.exp < new_exp
            invariant
                self.sign == old(self).sign,
                old(self).exp <= self.exp,
                self.exp <= new_exp || self.exp == old(self).exp,
                self.digits@ == old(self).digits@ + Seq::new((self.exp - old(self).exp) as nat, |i: int| '0'),
            decreases new_exp - self.exp,
        {
            let ghost count = (self.exp - old(self).exp) as nat;
            self.push_char('0');
            assert(self.digits@ =~= old(self).digits@ + Seq::new(count + 1, |i: int| '0'));
        }
    }

    pub fn reset_exp(&mut self, new_exp: Exp)
        ensures
            final(self)@ == (Number { exp: new_exp, ..old(self)@ }),
    {
        self.exp = new_exp;
    }
}

impl Number {
    /// The number with zeros appended until the digit to come has the
    /// exponent `new_exp`.
    pub open spec fn zero_filled(self, new_exp: Exp) -> Number {
        if self.exp < new_exp {
            Number {
                exp: new_exp,
                digits: self.digits + Seq::new((new_exp - self.exp) as nat, |i: int| '0'),
                ..self
            }
        } else {
            Number { digits: self.digits + Seq::new(0, |i: int| '0'), ..self }
        }
    }
}

/// The state while a word is read: what was read last, the stack of
/// multipliers with its sum, and the number so far.
pub struct Reading {
    pub digit_state: EDigitState,
    pub exps: Seq<Exp>,
    pub sum: Exp,
    pub number: Number,
}

/// What reading one token does: the word is no number, the reading is
/// over, or it goes on.
pub enum Read {
    Fail,
    Stop(Reading),
    Next(Reading),
}

/// The sign `sign` of a number with the sign `by` applied to it: -1 turns
/// the sign around.
pub open spec fn signed(sign: i8, by: i8) -> i8 {
    if by == -1 && sign == 1 {
        -1i8
    } else if by == -1 && sign == -1 {
        1i8
    } else {
        sign
    }
}

/// The exponent that a token stands for: that of a multiplier or unit, 1
/// for every other token.
pub open spec fn token_exp(token: NumberToken) -> Exp {
    match token.expr {
        Some(value) => value,
        None => 1,
    }
}

impl Reading {
    /// The state before anything is read.
    pub open spec fn start() -> Reading {
        Reading {
            digit_state: EDigitState::NONE,
            exps: Seq::empty(),
            sum: 0,
            number: Number { sign: 1, exp: 0, digits: Seq::empty() },
        }
    }

    pub open spec fn state(self, digit_state: EDigitState) -> Reading {
        Reading { digit_state, ..self }
    }

    pub open spec fn stacked(self, exps: Seq<Exp>, sum: Exp) -> Reading {
        Reading { exps, sum, ..self }
    }

    /// The reading with `digit` appended, where the exponent can grow.
    pub open spec fn appended(self, digit: Digit) -> Option<Reading> {
        if self.number.exp < isize::MAX {
            Some(
                Reading {
                    number: Number {
                        exp: (self.number.exp + 1) as isize,
                        digits: self.number.digits.push(digit),
                        ..self.number
                    },
                    ..self
                },
            )
        } else {
            None
        }
    }

    /// The reading with the digits `low` and then `high` appended.
    pub open spec fn appended_both(self, low: Digit, high: Digit) -> Option<Reading> {
        match self.appended(low) {
            Some(reading) => reading.appended(high),
            None => None,
        }
    }

    /// What the stack of multipliers holds.
    pub open spec fn mult_state(self) -> EMultState {
        if self.exps.len() == 0 {
            EMultState::NONE
        } else if self.exps[0] < 0 {
            EMultState::FRAC
        } else if self.exps[0] < isize::MAX {
            EMultState::INT
        } else {
            EMultState::DONE
        }
    }

    /// Settles what a multiplier meant, now that the token before it is
    /// known: `十` after the start, a sign, `又`, `·` or a unit is `一十`, and
    /// likewise after a smaller multiplier; a zero before a multiplier
    /// stands for a zero digit, or for `零一` where a place would be missing.
    /// After a zero before a multiplier the reading is over.
    #[verifier::opaque]
    pub open spec fn disambiguated(self, token: NumberToken) -> Read {
        let exp = token_exp(token);
        if self.digit_state == EDigitState::MultAmbit {
            if token.kind == TT::BEGIN || token.kind == TT::SIGN || token.kind == TT::DELIM || token.kind
                == TT::DECIMAL || token.kind == TT::FracMult {
                match self.appended('1') {
                    Some(reading) => Read::Next(reading.state(EDigitState::DIGIT)),
                    None => Read::Fail,
                }
            } else if token.kind == TT::DIGIT {
                Read::Next(self.state(EDigitState::MULT))
            } else if token.kind == TT::IntMult {
                if self.exps.len() == 0 {
                    Read::Fail
                } else if self.exps.last() < exp {
                    match self.appended('1') {
                        Some(reading) => Read::Next(reading.state(EDigitState::DIGIT)),
                        None => Read::Fail,
                    }
                } else {
                    Read::Next(self.state(EDigitState::MULT))
                }
            } else if token.kind == TT::ZERO {
                Read::Next(self.state(EDigitState::MultAmbit))
            } else {
                Read::Next(self)
            }
        } else if self.digit_state == EDigitState::ZeroMultAmbig {
            let zero = match self.appended('0') {
                Some(reading) => Read::Stop(reading.state(EDigitState::DigitWithZero)),
                None => Read::Fail,
            };
            let zero_last = match self.appended('0') {
                Some(reading) => Read::Stop(reading.state(EDigitState::ZERO)),
                None => Read::Fail,
            };
            let one_zero = match self.appended_both('1', '0') {
                Some(reading) => Read::Stop(reading.state(EDigitState::ZERO)),
                None => Read::Fail,
            };
            if token.kind == TT::BEGIN || token.kind == TT::SIGN || token.kind == TT::DIGIT || token.kind
                == TT::DELIM || token.kind == TT::ZERO {
                zero
            } else if token.kind == TT::DECIMAL || token.kind == TT::FracMult {
                if self.sum < exp - 1 {
                    one_zero
                } else if self.sum == exp - 1 {
                    zero
                } else {
                    Read::Fail
                }
            } else if token.kind == TT::IntMult {
                if token.expr is None || self.exps.len() == 0 {
                    Read::Fail
                } else if self.exps.last() < exp - 1 {
                    one_zero
                } else if self.exps.last() == exp - 1 {
                    zero
                } else {
                    zero_last
                }
            } else {
                Read::Stop(self)
            }
        } else {
            Read::Next(self)
        }
    }

    /// While the stack of multipliers is empty, `·` or a fraction unit
    /// gives the digits read so far their exponent.
    pub open spec fn tail_settled(self, token: NumberToken) -> Reading {
        if self.mult_state() == EMultState::NONE && (token.kind == TT::DECIMAL || token.kind == TT::FracMult)
            && token.expr is Some {
            Reading { number: Number { exp: token_exp(token), ..self.number }, ..self }
        } else {
            self
        }
    }

    /// The stack without the multipliers at its top that are below `exp`,
    /// and where `stop_below_zero` is set are not negative. None where the
    /// sum would leave its range.
    pub open spec fn popped(self, exp: Exp, stop_below_zero: bool) -> Option<Reading>
        decreases self.exps.len(),
    {
        if self.exps.len() > 0 && self.exps.last() < exp && (!stop_below_zero || self.exps.last() >= 0) {
            if isize::MIN <= self.sum - self.exps.last() <= isize::MAX {
                self.stacked(self.exps.drop_last(), (self.sum - self.exps.last()) as isize).popped(
                    exp,
                    stop_below_zero,
                )
            } else {
                None
            }
        } else {
            Some(self)
        }
    }

    /// The stack with `exp` on top. None where the sum would leave its
    /// range.
    pub open spec fn pushed(self, exp: Exp) -> Option<Reading> {
        if isize::MIN <= self.sum + exp <= isize::MAX {
            Some(self.stacked(self.exps.push(exp), (self.sum + exp) as isize))
        } else {
            None
        }
    }

    /// The stack of multipliers after `token` was read, and the exponent
    /// of the digit to come. None where the token cannot stand there.
    #[verifier::opaque]
    pub open spec fn placed(self, token: NumberToken) -> Option<(Reading, Exp)> {
        let exp = token_exp(token);
        if token.kind == TT::BEGIN || token.kind == TT::SIGN {
            if self.digit_state == EDigitState::MULT {
                None
            } else {
                Some((self.stacked(seq![isize::MAX], isize::MAX), isize::MAX))
            }
        } else if token.kind == TT::DIGIT || token.kind == TT::ZERO {
            if self.digit_state == EDigitState::DELIM {
                Some((self.stacked(seq![0isize], 0), 0isize))
            } else {
                Some((self, self.number.exp))
            }
        } else if token.kind == TT::DELIM {
            if self.digit_state == EDigitState::DELIM {
                None
            } else {
                Some((self, self.number.exp))
            }
        } else if token.kind == TT::DECIMAL || token.kind == TT::FracMult {
            if self.digit_state == EDigitState::MULT {
                None
            } else {
                Some((self.stacked(seq![exp], exp), exp))
            }
        } else if token.kind == TT::IntMult {
            let stacked = if self.digit_state == EDigitState::DELIM {
                if self.mult_state() == EMultState::FRAC {
                    Some(self.stacked(seq![exp], exp))
                } else {
                    match self.popped(exp, false) {
                        Some(reading) => reading.pushed(exp),
                        None => None,
                    }
                }
            } else if self.digit_state == EDigitState::SIGN {
                Some(self)
            } else {
                match self.popped(exp, true) {
                    Some(reading) => reading.pushed(exp),
                    None => None,
                }
            };
            match stacked {
                Some(reading) => Some((reading, reading.sum)),
                None => None,
            }
        } else {
            None
        }
    }

    /// Zeros for the places that the word leaves out before the digit with
    /// the exponent `cur_exp`. None where the word may not leave them out.
    pub open spec fn filled(self, token: NumberToken, cur_exp: Exp) -> Option<Reading> {
        if cur_exp > self.number.exp {
            let allowed = token.kind == TT::BEGIN || token.kind == TT::SIGN || self.digit_state
                == EDigitState::DELIM || self.digit_state == EDigitState::ZERO || token.kind == TT::IntMult
                || token.kind == TT::FracMult || token.kind == TT::DECIMAL;
            if !allowed {
                None
            } else if self.mult_state() != EMultState::DONE {
                Some(Reading { number: self.number.zero_filled(cur_exp), ..self })
            } else {
                Some(self)
            }
        } else {
            Some(self)
        }
    }

    /// The digit or sign of `token` taken into the number, and what was
    /// read last.
    #[verifier::opaque]
    pub open spec fn taken(self, token: NumberToken) -> Option<Reading> {
        let digit = if token.digit is Some {
            self.appended(token.digit->0)
        } else {
            Some(self)
        };
        if token.kind == TT::BEGIN {
            Some(self)
        } else if token.kind == TT::SIGN {
            Some(
                (if token.sign is Some {
                    Reading { number: Number { sign: signed(self.number.sign, token.sign->0), ..self.number }, ..self }
                } else {
                    self
                }).state(EDigitState::SIGN),
            )
        } else if token.kind == TT::DIGIT {
            match digit {
                Some(reading) => Some(
                    reading.state(
                        if self.digit_state == EDigitState::ZERO || self.digit_state
                            == EDigitState::DigitWithZero {
                            EDigitState::DigitWithZero
                        } else {
                            EDigitState::DIGIT
                        },
                    ),
                ),
                None => None,
            }
        } else if token.kind == TT::DECIMAL {
            Some(self.state(EDigitState::NONE))
        } else if token.kind == TT::IntMult {
            Some(self.state(EDigitState::MultAmbit))
        } else if token.kind == TT::FracMult {
            Some(self.state(EDigitState::MULT))
        } else if token.kind == TT::DELIM {
            Some(self.state(EDigitState::DELIM))
        } else if token.kind == TT::ZERO {
            if self.digit_state == EDigitState::NONE || self.digit_state == EDigitState::MULT
                || self.digit_state == EDigitState::DIGIT || self.digit_state == EDigitState::DELIM
                || self.digit_state == EDigitState::DigitWithZero || self.digit_state == EDigitState::ZERO {
                match digit {
                    Some(reading) => Some(reading.state(EDigitState::ZERO)),
                    None => None,
                }
            } else if self.digit_state == EDigitState::MultAmbit {
                Some(self.state(EDigitState::ZeroMultAmbig))
            } else {
                Some(self)
            }
        } else {
            Some(self)
        }
    }

    /// Reads one token. The end of the word is passed over.
    #[verifier::opaque]
    pub open spec fn read(self, token: NumberToken) -> Read {
        if token.kind == TT::END {
            Read::Next(self)
        } else if self.mult_state() == EMultState::SIGN && token.kind == TT::BEGIN {
            Read::Fail
        } else {
            match self.disambiguated(token) {
                Read::Next(settled) => match settled.tail_settled(token).placed(token) {
                    Some((placed, cur_exp)) => match placed.filled(token, cur_exp) {
                        Some(filled) => match filled.taken(token) {
                            Some(taken) => Read::Next(taken),
                            None => Read::Fail,
                        },
                        None => Read::Fail,
                    },
                    None => Read::Fail,
                },
                other => other,
            }
        }
    }

    /// Reads the first `count` tokens of `tokens` from the last of them to
    /// the first. None where the word is no number.
    pub open spec fn read_back(self, tokens: Seq<NumberToken>, count: int) -> Option<Reading>
        decreases count,
    {
        if count <= 0 {
            Some(self)
        } else {
            match self.read(tokens[count - 1]) {
                Read::Fail => None,
                Read::Stop(reading) => Some(reading),
                Read::Next(reading) => reading.read_back(tokens, count - 1),
            }
        }
    }
}

/// The number that `tokens` stand for, with the exponent of its lowest
/// digit. None where they stand for none.
pub open spec fn parsed(tokens: Seq<NumberToken>) -> Option<Number> {
    match Reading::start().read_back(tokens, tokens.len() as int) {
        Some(reading) => if reading.number.digits.len() == 0 || reading.number.exp - reading.number.digits.len()
            < isize::MIN {
            None
        } else {
            Some(
                Number {
                    exp: (reading.number.exp - reading.number.digits.len()) as isize,
                    ..reading.number
                },
            )
        },
        None => None,
    }
}

proof fn lemma_zero_one_are_digits()
    ensures
        is_digit('0'),
        is_digit('1'),
{
    assert('0' == digit_char(0));
    assert('1' == digit_char(1));
}

/// How the reading of one token ended.
#[derive(Clone, Copy, PartialEq, Eq, Debug, Structural)]
pub enum Flow {
    Fail,
    Stop,
    Next,
}

/// Whether the reading went as `read` says: `flow` is its kind, and unless
/// it failed `after` is its state.
pub open spec fn agrees(read: Read, flow: Flow, after: Reading) -> bool {
    match read {
        Read::Fail => flow == Flow::Fail,
        Read::Stop(reading) => flow == Flow::Stop && after == reading,
        Read::Next(reading) => flow == Flow::Next && after == reading,
    }
}

/// Whether an attempt went as `wanted` says: it succeeded with the state
/// `after`, or it failed.
pub open spec fn reached(wanted: Option<Reading>, done: bool, after: Reading) -> bool {
    match wanted {
        Some(reading) => done && after == reading,
        None => !done,
    }
}

struct Reader {
    digit_state: EDigitState,
    mult_stack: MutlStack,
    result: ParseResult,
}

impl View for Reader {
    type V = Reading;

    closed spec fn view(&self) -> Reading {
        Reading {
            digit_state: self.digit_state,
            exps: self.mult_stack.exps(),
            sum: self.mult_stack.sum(),
            number: self.result@,
        }
    }
}

impl Reader {
    fn new() -> (reader: Reader)
        ensures
            reader@ == Reading::start(),
    {
        Reader { digit_state: EDigitState::NONE, mult_stack: MutlStack::new(), result: ParseResult::new() }
    }

    fn append(&mut self, digit: Digit) -> (done: bool)
        requires
            is_digit(digit),
        ensures
            reached(old(self)@.appended(digit), done, final(self)@),
            old(self)@.number.valid() ==> final(self)@.number.valid(),
    {
        if self.result.exp() == isize::MAX {
            return false;
        }
        self.result.push_char(digit);
        true
    }

    fn append_as(&mut self, digit: Digit, state: EDigitState, flow: Flow) -> (ended: Flow)
        requires
            is_digit(digit),
        ensures
            old(self)@.number.valid() ==> final(self)@.number.valid(),
            match old(self)@.appended(digit) {
                Some(reading) => ended == flow && final(self)@ == reading.state(state),
                None => ended == Flow::Fail,
            },
    {
        if !self.append(digit) {
            return Flow::Fail;
        }
        self.digit_state = state;
        flow
    }

    fn append_both_as(&mut self, low: Digit, high: Digit, state: EDigitState, flow: Flow) -> (ended: Flow)
        requires
            is_digit(low),
            is_digit(high),
        ensures
            old(self)@.number.valid() ==> final(self)@.number.valid(),
            match old(self)@.appended_both(low, high) {
                Some(reading) => ended == flow && final(self)@ == reading.state(state),
                None => ended == Flow::Fail,
            },
    {
        if !self.append(low) {
            return Flow::Fail;
        }
        self.append_as(high, state, flow)
    }

    #[verifier::spinoff_prover]
    fn disambiguate(&mut self, token: NumberToken) -> (flow: Flow)
        requires
            token_valid(token),
        ensures
            agrees(old(self)@.disambiguated(token), flow, final(self)@),
            old(self)@.number.valid() ==> final(self)@.number.valid(),
    {
        proof {
            reveal(Reading::disambiguated);
            lemma_zero_one_are_digits();
        }
        let exp: Exp = match token.expr {
            Some(value) => value,
            None => 1,
        };
        match self.digit_state {
            EDigitState::MultAmbit => {
                match token.kind {
                    TT::BEGIN | TT::SIGN | TT::DELIM | TT::DECIMAL | TT::FracMult => {
                        self.append_as('1', EDigitState::DIGIT, Flow::Next)
                    },
                    TT::DIGIT => {
                        self.digit_state = EDigitState::MULT;
                        Flow::Next
                    },
                    TT::IntMult => {
                        if self.mult_stack.is_empty() {
                            return Flow::Fail;
                        }
                        if self.mult_stack.top() < exp {
                            self.append_as('1', EDigitState::DIGIT, Flow::Next)
                        } else {
                            self.digit_state = EDigitState::MULT;
                            Flow::Next
                        }
                    },
                    TT::ZERO => {
                        self.digit_state = EDigitState::MultAmbit;
                        Flow::Next
                    },
                    _ => Flow::Next,
                }
            },
            EDigitState::ZeroMultAmbig => {
                match token.kind {
                    TT::BEGIN | TT::SIGN | TT::DIGIT | TT::DELIM | TT::ZERO => {
                        self.append_as('0', EDigitState::DigitWithZero, Flow::Stop)
                    },
                    TT::DECIMAL | TT::FracMult => {
                        if self.mult_stack.total() < exp - 1 {
                            self.append_both_as('1', '0', EDigitState::ZERO, Flow::Stop)
                        } else if self.mult_stack.total() == exp - 1 {
                            self.append_as('0', EDigitState::DigitWithZero, Flow::Stop)
                        } else {
                            Flow::Fail
                        }
                    },
                    TT::IntMult => {
                        if token.expr.is_none() || self.mult_stack.is_empty() {
                            return Flow::Fail;
                        }
                        if self.mult_stack.top() < exp - 1 {
                            self.append_both_as('1', '0', EDigitState::ZERO, Flow::Stop)
                        } else if self.mult_stack.top() == exp - 1 {
                            self.append_as('0', EDigitState::DigitWithZero, Flow::Stop)
                        } else {
                            self.append_as('0', EDigitState::ZERO, Flow::Stop)
                        }
                    },
                    _ => Flow::Stop,
                }
            },
            _ => Flow::Next,
        }
    }

    fn settle_tail(&mut self, token: NumberToken)
        ensures
            final(self)@ == old(self)@.tail_settled(token),
            old(self)@.number.valid() ==> final(self)@.number.valid(),
    {
        let exp: Exp = match token.expr {
            Some(value) => value,
            None => 1,
        };
        if self.mult_stack.state() == EMultState::NONE {
            match token.kind {
                TT::DECIMAL | TT::FracMult => {
                    if !token.expr.is_none() {
                        self.result.reset_exp(exp);
                    }
                },
                _ => {},
            }
        }
    }

    fn restack(&mut self, exp: Exp)
        ensures
            final(self)@ == old(self)@.stacked(seq![exp], exp),
            final(self)@.number == old(self)@.number,
    {
        self.mult_stack.clear();
        self.mult_stack.push(exp);
        assert(self.mult_stack.exps() =~= seq![exp]);
    }

    fn pop_below(&mut self, exp: Exp, stop_below_zero: bool) -> (done: bool)
        ensures
            reached(old(self)@.popped(exp, stop_below_zero), done, final(self)@),
            final(self)@.number == old(self)@.number,
    {
        while !self.mult_stack.is_empty() && self.mult_stack.top() < exp && (!stop_below_zero
            || self.mult_stack.top() >= 0)
            invariant
                old(self)@.popped(exp, stop_below_zero) == self@.popped(exp, stop_below_zero),
                self@.number == old(self)@.number,
            decreases self@.exps.len(),
        {
            if !self.mult_stack.can_pop() {
                return false;
            }
            self.mult_stack.pop();
        }
        true
    }

    fn push_exp(&mut self, exp: Exp) -> (done: bool)
        ensures
            reached(old(self)@.pushed(exp), done, final(self)@),
            final(self)@.number == old(self)@.number,
    {
        if !self.mult_stack.can_push(exp) {
            return false;
        }
        self.mult_stack.push(exp);
        true
    }

    #[verifier::spinoff_prover]
    fn place(&mut self, token: NumberToken) -> (cur_exp: Option<Exp>)
        requires
            token_valid(token),
        ensures
            match old(self)@.placed(token) {
                Some((reading, exp)) => cur_exp == Some(exp) && final(self)@ == reading,
                None => cur_exp is None,
            },
            final(self)@.number == old(self)@.number,
    {
        proof {
            reveal(Reading::placed);
        }
        let exp: Exp = match token.expr {
            Some(value) => value,
            None => 1,
        };
        match token.kind {
            TT::BEGIN | TT::SIGN => {
                match self.digit_state {
                    EDigitState::MULT => None,
                    _ => {
                        self.restack(isize::MAX);
                        Some(self.mult_stack.total())
                    },
                }
            },
            TT::DIGIT | TT::ZERO => {
                match self.digit_state {
                    EDigitState::DELIM => {
                        self.restack(0);
                        Some(self.mult_stack.total())
                    },
                    _ => Some(self.result.exp()),
                }
            },
            TT::DELIM => {
                match self.digit_state {
                    EDigitState::DELIM => None,
                    _ => Some(self.result.exp()),
                }
            },
            TT::DECIMAL | TT::FracMult => {
                if self.digit_state == EDigitState::MULT {
                    None
                } else {
                    self.restack(exp);
                    Some(self.mult_stack.total())
                }
            },
            TT::IntMult => {
                match self.digit_state {
                    EDigitState::DELIM => {
                        if self.mult_stack.state() == EMultState::FRAC {
                            self.restack(exp);
                        } else {
                            if !self.pop_below(exp, false) {
                                return None;
                            }
                            if !self.push_exp(exp) {
                                return None;
                            }
                        }
                    },
                    EDigitState::SIGN => {},
                    _ => {
                        if !self.pop_below(exp, true) {
                            return None;
                        }
                        if !self.push_exp(exp) {
                            return None;
                        }
                    },
                }
                Some(self.mult_stack.total())
            },
            _ => None,
        }
    }

    fn fill(&mut self, token: NumberToken, cur_exp: Exp) -> (done: bool)
        ensures
            reached(old(self)@.filled(token, cur_exp), done, final(self)@),
            old(self)@.number.valid() ==> final(self)@.number.valid(),
    {
        proof {
            lemma_zero_one_are_digits();
        }
        if cur_exp > self.result.exp() {
            let allowed = token.kind == TT::BEGIN || token.kind == TT::SIGN || self.digit_state == EDigitState::DELIM
                || self.digit_state == EDigitState::ZERO || token.kind == TT::IntMult || token.kind == TT::FracMult
                || token.kind == TT::DECIMAL;
            if !allowed {
                return false;
            }
            if self.mult_stack.state() != EMultState::DONE {
                self.result.fill_zeros(cur_exp);
            }
        }
        true
    }

    #[verifier::spinoff_prover]
    fn take(&mut self, token: NumberToken) -> (done: bool)
        requires
            token_valid(token),
        ensures
            reached(old(self)@.taken(token), done, final(self)@),
            old(self)@.number.valid() ==> final(self)@.number.valid(),
    {
        proof {
            reveal(Reading::taken);
        }
        match token.kind {
            TT::BEGIN => {},
            TT::SIGN => {
                match token.sign {
                    Some(sign) => {
                        if sign == -1 && (self.result.sign() == 1 || self.result.sign() == -1) {
                            self.result.apply_sign(sign)
                        }
                    },
                    None => {},
                }
                self.digit_state = EDigitState::SIGN;
            },
            TT::DIGIT => {
                let before = self.digit_state;
                match token.digit {
                    Some(digit) => {
                        if !self.append(digit) {
                            return false;
                        }
                    },
                    None => {},
                }
                if before == EDigitState::ZERO || before == EDigitState::DigitWithZero {
                    self.digit_state = EDigitState::DigitWithZero;
                } else {
                    self.digit_state = EDigitState::DIGIT;
                }
            },
            TT::DECIMAL => {
                self.digit_state = EDigitState::NONE;
            },
            TT::IntMult => {
                self.digit_state = EDigitState::MultAmbit;
            },
            TT::FracMult => {
                self.digit_state = EDigitState::MULT;
            },
            TT::DELIM => {
                self.digit_state = EDigitState::DELIM;
            },
            TT::ZERO => match self.digit_state {
                EDigitState::NONE
                | EDigitState::MULT
                | EDigitState::DIGIT
                | EDigitState::DELIM
                | EDigitState::DigitWithZero
                | EDigitState::ZERO => {
                    match token.digit {
                        Some(digit) => {
                            if !self.append(digit) {
                                return false;
                            }
                        },
                        None => {},
                    }
                    self.digit_state = EDigitState::ZERO;
                },
                EDigitState::MultAmbit => {
                    self.digit_state = EDigitState::ZeroMultAmbig;
                },
                _ => {},
            },
            _ => {},
        }
        true
    }

    #[verifier::spinoff_prover]
    fn read(&mut self, token: NumberToken) -> (flow: Flow)
        requires
            token_valid(token),
        ensures
            agrees(old(self)@.read(token), flow, final(self)@),
            old(self)@.number.valid() ==> final(self)@.number.valid(),
    {
        proof {
            reveal(Reading::read);
        }
        if token.kind == TT::END {
            return Flow::Next;
        }
        if self.mult_stack.state() == EMultState::SIGN && token.kind == TT::BEGIN {
            return Flow::Fail;
        }
        match self.disambiguate(token) {
            Flow::Next => {},
            other => {
                return other;
            },
        }
        self.settle_tail(token);
        let cur_exp = match self.place(token) {
            Some(cur_exp) => cur_exp,
            None => {
                return Flow::Fail;
            },
        };
        if !self.fill(token, cur_exp) {
            return Flow::Fail;
        }
        if !self.take(token) {
            return Flow::Fail;
        }
        Flow::Next
    }
}

/// Reads the tokens of a number word, from the last to the first; none
/// where the word is no number.
pub fn parse(tokens: Vec<NumberToken>) -> (result: Option<ParseResult>)
    requires
        forall|i: int| 0 <= i < tokens@.len() ==> token_valid(#[trigger] tokens@[i]),
    ensures
        match parsed(tokens@) {
            Some(number) => result is Some && result->0@ == number,
            None => result is None,
        },
        result is Some ==> result->0@.valid() && result->0@.digits.len() > 0 && result->0@.exp
            + result->0@.digits.len() <= isize::MAX,
{
    let mut reader = Reader::new();
    let mut index: usize = tokens.len();
    let mut stopped: bool = false;
    while index > 0 && !stopped
        invariant
            index <= tokens@.len(),
            forall|i: int| 0 <= i < tokens@.len() ==> token_valid(#[trigger] tokens@[i]),
            !stopped ==> Reading::start().read_back(tokens@, tokens@.len() as int) == reader@.read_back(
                tokens@,
                index as int,
            ),
            stopped ==> Reading::start().read_back(tokens@, tokens@.len() as int) == Some(reader@),
            reader@.number.valid(),
        decreases index + if stopped { 0int } else { 1int },
    {
        let token = tokens[index - 1];
        match reader.read(token) {
            Flow::Fail => {
                return None;
            },
            Flow::Stop => {
                stopped = true;
            },
            Flow::Next => {
                index -= 1;
            },
        }
    }
    if reader.result.digits().len() == 0 {
        return None;
    }
    let count = reader.result.digits().len() as i128;
    let lowest: i128 = reader.result.exp() as i128 - count;
    if lowest < isize::MIN as i128 {
        return None;
    }
    Some(ParseResult { sign: reader.result.sign(), exp: lowest as isize, digits: reader.result.digits })
}

pub fn get_digit(result: &ParseResult, exp: Exp) -> (digit: char)
    ensures
        digit == result@.digit_at(exp as int),
{
    let idx: i128 = exp as i128 - result.exp as i128;
    if idx >= 0 && idx < result.digits.len() as i128 {
        result.digits[idx as usize]
    } else {
        '0'
    }
}

/// Compares the digits of `a` and `b` from the exponent `from` down to the
/// exponent `to`: 1 where `a` has the greater digit at the first place in
/// which they differ, -1 where `b` has, 0 where they do not differ.
pub open spec fn compare_digits(a: Number, b: Number, from: int, to: int) -> Exp
    decreases from - to + 1,
{
    if from < to {
        0
    } else if a.digit_at(from) as u32 > b.digit_at(from) as u32 {
        1
    } else if (a.digit_at(from) as u32) < b.digit_at(from) as u32 {
        -1isize
    } else {
        compare_digits(a, b, from - 1, to)
    }
}

/// Compares the magnitudes of two numbers, from the highest exponent that
/// one of them has down to the lowest.
pub open spec fn compared_magnitude(a: Number, b: Number) -> Exp {
    compare_digits(
        a,
        b,
        if a.highest_exponent() >= b.highest_exponent() {
            a.highest_exponent()
        } else {
            b.highest_exponent()
        },
        if a.exp <= b.exp {
            a.exp as int
        } else {
            b.exp as int
        },
    )
}

/// Compares the magnitudes of two numbers digit by digit.
pub fn compare_magnitude(result_a: &ParseResult, result_b: &ParseResult) -> (order: Exp)
    ensures
        order == compared_magnitude(result_a@, result_b@),
{
    let max_a: i128 = result_a.exp as i128 + result_a.digits.len() as i128 - 1;
    let max_b: i128 = result_b.exp as i128 + result_b.digits.len() as i128 - 1;
    let max_exp: i128 = if max_a >= max_b {
        max_a
    } else {
        max_b
    };
    let min_exp: i128 = if result_a.exp <= result_b.exp {
        result_a.exp as i128
    } else {
        result_b.exp as i128
    };
    let mut i: i128 = max_exp;
    while i >= min_exp
        invariant
            min_exp - 1 <= i <= max_exp || max_exp < min_exp && i == max_exp,
            isize::MIN <= min_exp <= isize::MAX,
            -0x1_0000_0000_0000_0000_0000 <= max_exp <= 0x1_0000_0000_0000_0000_0000,
            compared_magnitude(result_a@, result_b@) == compare_digits(
                result_a@,
                result_b@,
                i as int,
                min_exp as int,
            ),
        decreases i - min_exp + 1,
    {
        let idx_a: i128 = i - result_a.exp as i128;
        let idx_b: i128 = i - result_b.exp as i128;
        let digit_a: char = if idx_a >= 0 && idx_a < result_a.digits.len() as i128 {
            result_a.digits[idx_a as usize]
        } else {
            '0'
        };
        let digit_b: char = if idx_b >= 0 && idx_b < result_b.digits.len() as i128 {
            result_b.digits[idx_b as usize]
        } else {
            '0'
        };
        assert(digit_a == result_a@.digit_at(i as int));
        assert(digit_b == result_b@.digit_at(i as int));
        if digit_a as u32 > digit_b as u32 {
            return 1;
        } else if (digit_a as u32) < digit_b as u32 {
            return -1;
        }
        i -= 1;
    }
    return 0;
}

/// Appends the digit `digit` to `text`.
fn push_digit(text: &mut String, digit: char)
    requires
        is_digit(digit),
    ensures
        final(text)@ == old(text)@.push(digit),
{
    let index: u8 = if digit == '0' {
        0
    } else if digit == '1' {
        1
    } else if digit == '2' {
        2
    } else if digit == '3' {
        3
    } else if digit == '4' {
        4
    } else if digit == '5' {
        5
    } else if digit == '6' {
        6
    } else if digit == '7' {
        7
    } else if digit == '8' {
        8
    } else {
        9
    };
    assert(digit == digit_char(index as nat)) by {
        let d = choose|d: nat| d < 10 && digit == #[trigger] digit_char(d);
        assert(digit == digit_char(d));
    }
    text.append(digit_text(index));
    assert(text@ =~= old(text)@.push(digit));
}

/// Two to the power 63, with its lowest digit first.
pub open spec fn limit() -> Number {
    Number {
        sign: 1,
        exp: 0,
        digits: seq![
            '8', '0', '8', '5', '7', '7', '4', '5', '8', '6', '3', '0', '2', '7', '3', '3', '2', '2', '9',
        ],
    }
}

/// Two to the power 63, with its lowest digit first.
fn two_to_63() -> (result: ParseResult)
    ensures
        result@ == limit(),
{
    let mut digits: Vec<Digit> = Vec::new();
    digits.push('8');
    digits.push('0');
    digits.push('8');
    digits.push('5');
    digits.push('7');
    digits.push('7');
    digits.push('4');
    digits.push('5');
    digits.push('8');
    digits.push('6');
    digits.push('3');
    digits.push('0');
    digits.push('2');
    digits.push('7');
    digits.push('3');
    digits.push('3');
    digits.push('2');
    digits.push('2');
    digits.push('9');
    assert(digits@ =~= limit().digits);
    ParseResult { sign: 1, exp: 0, digits }
}

/// Number of digits of the decimal numeral of `n`.
fn decimal_length(n: usize) -> (len: usize)
    ensures
        len == decimal(n as nat).len(),
        1 <= len <= n + 1,
    decreases n,
{
    if n < 10 {
        1
    } else {
        decimal_length(n / 10) + 1
    }
}

/// Index of the lowest digit at or above `from` that is not 0; the number
/// of digits where there is none.
pub open spec fn lowest_nonzero(digits: Seq<Digit>, from: int) -> int
    decreases digits.len() - from,
{
    if 0 <= from < digits.len() && digits[from] == '0' {
        lowest_nonzero(digits, from + 1)
    } else {
        from
    }
}

/// The number of digits up to `end` without the zeros at their top.
pub open spec fn significant(digits: Seq<Digit>, end: int) -> int
    decreases end,
{
    if 0 < end <= digits.len() && digits[end - 1] == '0' {
        significant(digits, end - 1)
    } else {
        end
    }
}

impl Number {
    /// Whether there is a digit that is not 0.
    pub open spec fn is_nonzero(self) -> bool {
        lowest_nonzero(self.digits, 0) < self.digits.len()
    }

    /// Exponent of the lowest digit that is not 0.
    pub open spec fn low_exponent(self) -> int {
        self.exp + lowest_nonzero(self.digits, 0)
    }

    /// One more than the exponent of the highest digit that is not 0.
    pub open spec fn high_exponent(self) -> int {
        self.exp + significant(self.digits, self.digits.len() as int)
    }

    /// Number of digits before the point in fixed-point notation.
    pub open spec fn whole_digits(self) -> int {
        if self.high_exponent() > 1 {
            self.high_exponent()
        } else {
            1
        }
    }

    /// The power of ten as it is written behind the digits.
    pub open spec fn exponent_text(self) -> Seq<char> {
        let exponent = self.high_exponent() - 1;
        if exponent < 0 {
            "e-"@ + decimal((-exponent) as nat)
        } else {
            "e+"@ + decimal(exponent as nat)
        }
    }

    /// Whether the number is written as an integer whatever its length: it
    /// has places behind the point and is below two to the power 63, or is
    /// negative and not above it.
    pub open spec fn is_plain(self) -> bool {
        self.exp < 0 && if self.sign < 0 {
            compared_magnitude(self, limit()) <= 0
        } else {
            compared_magnitude(self, limit()) < 0
        }
    }

    /// Whether the number is written with a power of ten: where that is
    /// shorter than fixed-point notation.
    pub open spec fn is_scientific(self) -> bool {
        let span = self.high_exponent() - self.low_exponent();
        let fixed_len = if self.low_exponent() < 0 {
            self.whole_digits() - self.low_exponent() + 1
        } else {
            self.high_exponent()
        };
        let mantissa_len = if span > 1 {
            span + 1
        } else {
            1
        };
        !self.is_plain() && mantissa_len + self.exponent_text().len() < fixed_len
    }

    /// The digits with the exponents from `from` down, `count` of them.
    pub open spec fn digits_down(self, from: int, count: int) -> Seq<char> {
        Seq::new(
            if count > 0 {
                count as nat
            } else {
                0
            },
            |k: int| self.digit_at(from - k),
        )
    }

    /// The sign as it is written.
    pub open spec fn sign_text(self) -> Seq<char> {
        if self.sign < 0 {
            "-"@
        } else {
            ""@
        }
    }

    /// The number with a power of ten, without its sign: the highest
    /// digit, a point and the other digits down to the lowest that is not 0,
    /// then the exponent.
    pub open spec fn scientific_text(self) -> Seq<char> {
        let span = self.high_exponent() - self.low_exponent();
        self.digits_down(self.high_exponent() - 1, 1) + (if span > 1 {
            "."@ + self.digits_down(self.high_exponent() - 2, span - 1)
        } else {
            Seq::empty()
        }) + self.exponent_text()
    }

    /// The number in fixed-point notation, without its sign: the digits
    /// before the point, at least one, and where there are places behind the
    /// point a point and the digits down to the lowest that is not 0.
    pub open spec fn fixed_text(self) -> Seq<char> {
        self.digits_down(self.whole_digits() - 1, self.whole_digits()) + (if self.low_exponent() < 0 {
            "."@ + self.digits_down(-1, -self.low_exponent())
        } else {
            Seq::empty()
        })
    }

    /// The number in decimal notation.
    pub open spec fn written(self) -> Seq<char> {
        if !self.is_nonzero() {
            self.sign_text().push('0')
        } else if self.is_scientific() {
            self.sign_text() + self.scientific_text()
        } else {
            self.sign_text() + self.fixed_text()
        }
    }
}

/// Index of the lowest digit of `result` that is not 0.
fn lowest_nonzero_digit(result: &ParseResult) -> (index: Option<usize>)
    ensures
        index is Some == result@.is_nonzero(),
        index is Some ==> index->0 == lowest_nonzero(result@.digits, 0),
{
    let mut i: usize = 0;
    while i < result.digits.len()
        invariant
            i <= result.digits@.len(),
            lowest_nonzero(result@.digits, 0) == lowest_nonzero(result@.digits, i as int),
        decreases result.digits@.len() - i,
    {
        if result.digits[i] != '0' {
            return Some(i);
        }
        i += 1;
    }
    None
}

/// Appends the digits of `result` with the exponents from `from` down,
/// `count` of them.
fn push_digits_down(text: &mut String, result: &ParseResult, from: i128, count: i128)
    requires
        result@.valid(),
        count <= 0 || isize::MIN <= from - count + 1,
        from <= isize::MAX,
    ensures
        final(text)@ == old(text)@ + result@.digits_down(from as int, count as int),
{
    let mut k: i128 = 0;
    proof {
        assert('0' == digit_char(0));
        assert(text@ =~= old(text)@ + result@.digits_down(from as int, 0));
    }
    while k < count
        invariant
            0 <= k <= count || count < 0 && k == 0,
            result@.valid(),
            is_digit('0'),
            count <= 0 || isize::MIN <= from - count + 1,
            from <= isize::MAX,
            text@ == old(text)@ + result@.digits_down(from as int, k as int),
        decreases count - k,
    {
        let digit = get_digit(result, (from - k) as isize);
        push_digit(text, digit);
        assert(text@ =~= old(text)@ + result@.digits_down(from as int, k + 1));
        k += 1;
    }
    proof {
        if count < 0 {
            assert(result@.digits_down(from as int, count as int) =~= result@.digits_down(from as int, 0));
        }
    }
}

/// One more than the index of the highest digit of `result` that is not
/// 0.
fn significant_digits(result: &ParseResult) -> (end: usize)
    requires
        result@.is_nonzero(),
    ensures
        end == significant(result@.digits, result@.digits.len() as int),
        lowest_nonzero(result@.digits, 0) < end <= result@.digits.len(),
{
    let ghost low = lowest_nonzero(result@.digits, 0);
    proof {
        lemma_lowest_nonzero(result@.digits, 0);
    }
    let mut end: usize = result.digits.len();
    while result.digits[end - 1] == '0'
        invariant
            low < end <= result.digits@.len(),
            0 <= low,
            result.digits@[low] != '0',
            significant(result@.digits, result@.digits.len() as int) == significant(result@.digits, end as int),
        decreases end,
    {
        end -= 1;
    }
    end
}

/// Whether `result` is written with a power of ten.
fn prefers_scientific(result: &ParseResult) -> (scientific: bool)
    requires
        result@.is_nonzero(),
        result@.exp + result@.digits.len() <= isize::MAX,
    ensures
        scientific == result@.is_scientific(),
{
    let print_as_int: bool = if result.exp < 0 {
        let limit = two_to_63();
        let c = compare_magnitude(result, &limit);
        if result.sign < 0 {
            c <= 0
        } else {
            c < 0
        }
    } else {
        false
    };
    if print_as_int {
        return false;
    }
    let rend: usize = match lowest_nonzero_digit(result) {
        Some(rend) => rend,
        None => 0,
    };
    let rbegin = significant_digits(result);
    let exp: i128 = result.exp as i128;
    let rend_exp: i128 = exp + rend as i128;
    let rbegin_exp: i128 = exp + rbegin as i128;
    let top_exp: i128 = if rbegin_exp > 1 {
        rbegin_exp
    } else {
        1
    };
    let scientific_exp: i128 = rbegin_exp - 1;
    let magnitude: usize = if scientific_exp < 0 {
        (-scientific_exp) as usize
    } else {
        scientific_exp as usize
    };
    let exp_len: i128 = 2 + decimal_length(magnitude) as i128;
    let fixed_len: i128 = if rend_exp < 0 {
        top_exp - rend_exp + 1
    } else {
        rbegin_exp
    };
    let scientific_mag_len: i128 = if rbegin - rend > 1 {
        rbegin as i128 - rend as i128 + 1
    } else {
        1
    };
    proof {
        reveal_strlit("e-");
        reveal_strlit("e+");
        assert(result@.exponent_text().len() == exp_len);
    }
    scientific_mag_len + exp_len < fixed_len
}

/// Writes `result` with a power of ten, without its sign.
fn write_scientific(text: &mut String, result: &ParseResult)
    requires
        result@.valid(),
        result@.is_nonzero(),
        result@.exp + result@.digits.len() <= isize::MAX,
    ensures
        final(text)@ == old(text)@ + result@.scientific_text(),
{
    let rend: usize = match lowest_nonzero_digit(result) {
        Some(rend) => rend,
        None => 0,
    };
    let rbegin = significant_digits(result);
    let exp: i128 = result.exp as i128;
    let rbegin_exp: i128 = exp + rbegin as i128;
    let scientific_exp: i128 = rbegin_exp - 1;
    let magnitude: usize = if scientific_exp < 0 {
        (-scientific_exp) as usize
    } else {
        scientific_exp as usize
    };
    push_digits_down(text, result, rbegin_exp - 1, 1);
    if rbegin - 1 > rend {
        text.append(".");
        push_digits_down(text, result, rbegin_exp - 2, rbegin as i128 - 1 - rend as i128);
    }
    if scientific_exp < 0 {
        text.append("e-");
    } else {
        text.append("e+");
    }
    text.append(decimal_text(magnitude).as_str());
    proof {
        assert(text@ =~= old(text)@ + result@.scientific_text());
    }
}

/// Writes `result` in fixed-point notation, without its sign.
fn write_fixed(text: &mut String, result: &ParseResult)
    requires
        result@.valid(),
        result@.is_nonzero(),
        result@.exp + result@.digits.len() <= isize::MAX,
    ensures
        final(text)@ == old(text)@ + result@.fixed_text(),
{
    let rend: usize = match lowest_nonzero_digit(result) {
        Some(rend) => rend,
        None => 0,
    };
    let rbegin = significant_digits(result);
    let exp: i128 = result.exp as i128;
    let rend_exp: i128 = exp + rend as i128;
    let rbegin_exp: i128 = exp + rbegin as i128;
    let top_exp: i128 = if rbegin_exp > 1 {
        rbegin_exp
    } else {
        1
    };
    push_digits_down(text, result, top_exp - 1, top_exp);
    if rend_exp < 0 {
        text.append(".");
        push_digits_down(text, result, -1, -rend_exp);
    }
    proof {
        assert(text@ =~= old(text)@ + result@.fixed_text());
    }
}

/// Writes the number in decimal notation: as a fixed-point numeral, or with
/// a power of ten where that is shorter.
pub fn write_decimal(result: &ParseResult) -> (text: String)
    requires
        result@.valid(),
        result@.digits.len() > 0,
        result@.exp + result@.digits.len() <= isize::MAX,
    ensures
        text@ == result@.written(),
{
    let mut text = if result.sign < 0 {
        String::from_str("-")
    } else {
        String::from_str("")
    };
    if lowest_nonzero_digit(result).is_none() {
        proof {
            assert('0' == digit_char(0));
        }
        push_digit(&mut text, '0');
        return text;
    }
    if prefers_scientific(result) {
        write_scientific(&mut text, result);
    } else {
        write_fixed(&mut text, result);
    }
    text
}

proof fn lemma_lowest_nonzero(digits: Seq<Digit>, from: int)
    requires
        0 <= from <= digits.len(),
    ensures
        from <= lowest_nonzero(digits, from) <= digits.len(),
        lowest_nonzero(digits, from) < digits.len() ==> digits[lowest_nonzero(digits, from)] != '0',
    decreases digits.len() - from,
{
    if from < digits.len() && digits[from] == '0' {
        lemma_lowest_nonzero(digits, from + 1);
    }
}

/// The decimal notation of the number that `word` stands for; none where
/// it stands for none.
pub open spec fn converted(word: Seq<char>) -> Option<Seq<char>> {
    if !is_number_word(word) {
        None
    } else {
        match parsed(tokens_of(word)) {
            Some(number) => Some(number.written()),
            None => None,
        }
    }
}

/// The decimal notation of the number that the word `s` stands for; none
/// where `s` is no number word.
pub fn hanzi2num(s: &str) -> (text: Option<String>)
    ensures
        match converted(s@) {
            Some(written) => text is Some && text->0@ == written,
            None => text is None,
        },
{
    let tokens = match tokenize(s) {
        Some(tokens) => tokens,
        None => {
            return None;
        },
    };
    let result = match parse(tokens) {
        Some(result) => result,
        None => {
            return None;
        },
    };
    Some(write_decimal(&result))
}

} // verus!
