//! Numbers and the arithmetic that is asked of the host.
//!
//! The library decides which arithmetic is to be done and in which order; it
//! does none of it. A [`Term`] describes a computation exactly, and a
//! [`Number`] is what the host hands back for one.
use vstd::prelude::*;
use vstd::arithmetic::power::pow;
use vstd::arithmetic::power::lemma_pow_positive;
use vstd::arithmetic::power::lemma_pow1;
use vstd::arithmetic::power::lemma_pow_adds;
use vstd::arithmetic::div_mod::lemma_div_denominator;

verus! {

/// The binary operators of the expression language.
#[derive(Clone, Copy, Debug, PartialEq, Eq, Structural)]
pub enum Operator {
    Add,
    Subtract,
    Multiply,
    Divide,
    Less,
}

impl Operator {
    /// How tightly the operator binds: a larger number binds tighter.
    pub open spec fn spec_precedence(self) -> u8 {
        match self {
            Operator::Multiply | Operator::Divide => 2,
            Operator::Add | Operator::Subtract => 1,
            Operator::Less => 0,
        }
    }

    #[verifier::when_used_as_spec(spec_precedence)]
    pub fn precedence(self) -> (p: u8)
        ensures
            p == self.spec_precedence(),
    {
        match self {
            Operator::Multiply | Operator::Divide => 2,
            Operator::Add | Operator::Subtract => 1,
            Operator::Less => 0,
        }
    }

    /// The operator that a character spells, if it spells one.
    pub open spec fn spec_from_char(c: char) -> Option<Operator> {
        if c == '+' {
            Some(Operator::Add)
        } else if c == '-' {
            Some(Operator::Subtract)
        } else if c == '*' {
            Some(Operator::Multiply)
        } else if c == '/' {
            Some(Operator::Divide)
        } else if c == '<' {
            Some(Operator::Less)
        } else {
            None
        }
    }

    #[verifier::when_used_as_spec(spec_from_char)]
    pub fn from_char(c: char) -> (op: Option<Operator>)
        ensures
            op == Operator::spec_from_char(c),
    {
        if c == '+' {
            Some(Operator::Add)
        } else if c == '-' {
            Some(Operator::Subtract)
        } else if c == '*' {
            Some(Operator::Multiply)
        } else if c == '/' {
            Some(Operator::Divide)
        } else if c == '<' {
            Some(Operator::Less)
        } else {
            None
        }
    }
}

/// An exact decimal number: `mantissa` divided by ten to the power `scale`,
/// negated where `negative` is set. A literal of the program text is kept in
/// this form, so that nothing is rounded before the host sees it.
#[derive(Clone, Copy, Debug, PartialEq, Eq, Structural)]
pub struct Decimal {
    pub negative: bool,
    pub mantissa: u64,
    pub scale: u32,
}

/// Whether the character is one of the ten decimal digits.
pub open spec fn spec_is_digit(c: char) -> bool {
    '0' <= c <= '9'
}

#[verifier::when_used_as_spec(spec_is_digit)]
pub fn is_digit(c: char) -> (r: bool)
    ensures
        r == spec_is_digit(c),
{
    c >= '0' && c <= '9'
}

/// The number that a decimal digit stands for.
pub open spec fn spec_digit_value(c: char) -> nat
    recommends
        spec_is_digit(c),
{
    (c as u32 - '0' as u32) as nat
}

fn digit_value(c: char) -> (v: u64)
    requires
        spec_is_digit(c),
    ensures
        v == spec_digit_value(c),
        v <= 9,
{
    (c as u32 - '0' as u32) as u64
}

/// Reads the digits and the decimal point of `text` from position `from` on.
/// `mantissa` and `scale` are what the digits before `from` gave. The result
/// is the mantissa and scale of the whole, or `None` where a character is
/// neither a digit nor the one decimal point, or where there is no digit.
pub open spec fn scan_digits(
    text: Seq<char>,
    from: int,
    mantissa: nat,
    scale: nat,
    seen_point: bool,
    seen_digit: bool,
) -> Option<(nat, nat)>
    decreases text.len() - from,
{
    if from < 0 || from >= text.len() {
        if seen_digit {
            Some((mantissa, scale))
        } else {
            None
        }
    } else if spec_is_digit(text[from]) {
        scan_digits(
            text,
            from + 1,
            mantissa * 10 + spec_digit_value(text[from]),
            if seen_point {
                scale + 1
            } else {
                scale
            },
            seen_point,
            true,
        )
    } else if text[from] == '.' && !seen_point {
        scan_digits(text, from + 1, mantissa, scale, true, seen_digit)
    } else {
        None
    }
}

/// The decimal that `text` spells: an optional leading `-`, then digits with
/// at most one decimal point among them and at least one digit. `None` for
/// any other text, and for a number whose digits do not fit the mantissa.
pub open spec fn decimal_of(text: Seq<char>) -> Option<Decimal> {
    let negative = text.len() > 0 && text[0] == '-';
    let start: int = if negative {
        1
    } else {
        0
    };
    match scan_digits(text, start, 0, 0, false, false) {
        Some((mantissa, scale)) => if mantissa <= u64::MAX && scale <= u32::MAX {
            Some(Decimal { negative, mantissa: mantissa as u64, scale: scale as u32 })
        } else {
            None
        },
        None => None,
    }
}

/// The mantissa and the scale only grow while digits are read.
proof fn lemma_scan_digits_grows(
    text: Seq<char>,
    from: int,
    mantissa: nat,
    scale: nat,
    seen_point: bool,
    seen_digit: bool,
)
    ensures
        scan_digits(text, from, mantissa, scale, seen_point, seen_digit) matches Some((m, s))
            ==> m >= mantissa && s >= scale,
    decreases text.len() - from,
{
    if from < 0 || from >= text.len() {
    } else if spec_is_digit(text[from]) {
        lemma_scan_digits_grows(
            text,
            from + 1,
            mantissa * 10 + spec_digit_value(text[from]),
            if seen_point {
                scale + 1
            } else {
                scale
            },
            seen_point,
            true,
        );
    } else if text[from] == '.' && !seen_point {
        lemma_scan_digits_grows(text, from + 1, mantissa, scale, true, seen_digit);
    }
}

impl Decimal {
    /// Reads a decimal from the characters of a token.
    pub fn parse(text: &Vec<char>) -> (d: Option<Decimal>)
        ensures
            d == decimal_of(text@),
    {
        let negative = text.len() > 0 && text[0] == '-';
        let mut i: usize = if negative {
            1
        } else {
            0
        };
        let mut mantissa: u64 = 0;
        let mut scale: u32 = 0;
        let mut seen_point = false;
        let mut seen_digit = false;
        while i < text.len()
            invariant
                i <= text.len(),
                scan_digits(text@, i as int, mantissa as nat, scale as nat, seen_point, seen_digit)
                    == scan_digits(text@, if negative { 1int } else { 0int }, 0, 0, false, false),
                negative == (text@.len() > 0 && text@[0] == '-'),
            decreases text.len() - i,
        {
            let c = text[i];
            if is_digit(c) {
                let v = digit_value(c);
                proof {
                    lemma_scan_digits_grows(
                        text@,
                        i + 1,
                        mantissa as nat * 10 + v as nat,
                        if seen_point {
                            scale as nat + 1
                        } else {
                            scale as nat
                        },
                        seen_point,
                        true,
                    );
                }
                if mantissa > (u64::MAX - v) / 10 {
                    return None;
                }
                if seen_point {
                    if scale == u32::MAX {
                        return None;
                    }
                    scale = scale + 1;
                }
                mantissa = mantissa * 10 + v;
                seen_digit = true;
            } else if c == '.' && !seen_point {
                seen_point = true;
            } else {
                return None;
            }
            i = i + 1;
        }
        if seen_digit {
            Some(Decimal { negative, mantissa, scale })
        } else {
            None
        }
    }

    /// The whole part of the decimal, its sign dropped: the mantissa divided
    /// by ten to the power of the scale, rounded towards zero.
    pub open spec fn spec_whole(self) -> nat {
        (self.mantissa as nat / pow(10, self.scale as nat) as nat) as nat
    }

    /// The whole part of the decimal with its sign dropped, or the largest
    /// `i32` where the whole part is larger than that.
    pub fn whole(&self) -> (w: i32)
        ensures
            w == if self.spec_whole() <= i32::MAX {
                self.spec_whole() as int
            } else {
                i32::MAX as int
            },
    {
        let mut rest: u64 = self.mantissa;
        let mut k: u32 = 0;
        proof {
            lemma_pow0_is_one();
        }
        while k < self.scale && rest > 0
            invariant
                k <= self.scale,
                pow(10, k as nat) > 0,
                rest as int == self.mantissa as int / pow(10, k as nat),
            decreases self.scale - k,
        {
            proof {
                lemma_pow_step(k as nat);
                lemma_div_denominator(self.mantissa as int, pow(10, k as nat), 10);
            }
            rest = rest / 10;
            k = k + 1;
        }
        proof {
            if k < self.scale {
                lemma_zero_stays_zero(self.mantissa as nat, k as nat, self.scale as nat);
            }
        }
        if rest > 0x7fff_ffff {
            0x7fff_ffff
        } else {
            rest as i32
        }
    }
}

proof fn lemma_pow0_is_one()
    ensures
        pow(10, 0) == 1,
{
    reveal(pow);
}

proof fn lemma_pow_step(k: nat)
    ensures
        pow(10, k + 1) == pow(10, k) * 10,
        pow(10, k) > 0,
        pow(10, k + 1) > 0,
{
    lemma_pow_positive(10, k);
    lemma_pow_positive(10, k + 1);
    lemma_pow_adds(10, k, 1);
    lemma_pow1(10);
}

/// Once the quotient by a power of ten is zero, it is zero for every larger
/// power.
proof fn lemma_zero_stays_zero(m: nat, k: nat, n: nat)
    requires
        k <= n,
        pow(10, k) > 0,
        m as int / pow(10, k) == 0,
    ensures
        pow(10, n) > 0,
        m as int / pow(10, n) == 0,
    decreases n - k,
{
    if k < n {
        lemma_pow_step(k);
        lemma_div_denominator(m as int, pow(10, k), 10);
        lemma_zero_stays_zero(m, k + 1, n);
    }
}

/// A value that the host has computed. `bits` is the value itself, in the
/// host's own encoding, which the library only hands back. `rounded` is the
/// value rounded to the nearest integer, and `nonzero` tells whether the value
/// differs from zero: these two are what the library decides by.
#[derive(Clone, Copy, Debug, PartialEq, Eq, Structural)]
pub struct Number {
    pub bits: u32,
    pub rounded: i32,
    pub nonzero: bool,
}

/// A computation for the host. It holds no variable: whatever an expression
/// named has been replaced by its value.
#[derive(Debug, PartialEq, Eq)]
pub enum Term {
    /// A literal of the program text.
    Literal(Decimal),
    /// A whole number.
    Integer(i32),
    /// A value computed earlier.
    Value(Number),
    /// The ratio of a circle's circumference to its diameter.
    Pi,
    /// An operator of the language applied to two terms, left and right.
    Binary(Operator, Box<Term>, Box<Term>),
    /// The remainder of the first term divided by the second, with the sign
    /// of the first.
    Remainder(Box<Term>, Box<Term>),
    /// The angle, in radians, of the point whose ordinate is the first term
    /// and whose abscissa is the second.
    Atan2(Box<Term>, Box<Term>),
    /// The cosine of an angle in radians.
    Cosine(Box<Term>),
    /// The sine of an angle in radians.
    Sine(Box<Term>),
}

impl Clone for Term {
    fn clone(&self) -> (copy: Term)
        ensures
            copy == *self,
        decreases self,
    {
        match self {
            Term::Literal(d) => Term::Literal(*d),
            Term::Integer(i) => Term::Integer(*i),
            Term::Value(v) => Term::Value(*v),
            Term::Pi => Term::Pi,
            Term::Binary(op, x, y) => Term::Binary(
                *op,
                Box::new((**x).clone()),
                Box::new((**y).clone()),
            ),
            Term::Remainder(x, y) => Term::Remainder(
                Box::new((**x).clone()),
                Box::new((**y).clone()),
            ),
            Term::Atan2(x, y) => Term::Atan2(Box::new((**x).clone()), Box::new((**y).clone())),
            Term::Cosine(x) => Term::Cosine(Box::new((**x).clone())),
            Term::Sine(x) => Term::Sine(Box::new((**x).clone())),
        }
    }
}

} // verus!
