use vstd::prelude::*;

verus! {

/// Why the digits of an integer literal give no number of the wanted type.
#[derive(Debug, Clone, Copy, PartialEq, Eq, Structural)]
pub enum LiteralError {
    /// There are no digits at all.
    Empty,
    /// A character is not a decimal digit.
    InvalidDigit,
    /// The number is larger than the type holds.
    TooLarge,
}

impl LiteralError {
    /// The message reported for the error.
    pub fn message(&self) -> (m: &'static str)
        ensures
            m@ == self.spec_message(),
    {
        match self {
            LiteralError::Empty => "cannot parse integer from empty string",
            LiteralError::InvalidDigit => "invalid digit found in string",
            LiteralError::TooLarge => "number too large to fit in target type",
        }
    }

    pub open spec fn spec_message(&self) -> Seq<char> {
        match self {
            LiteralError::Empty => "cannot parse integer from empty string"@,
            LiteralError::InvalidDigit => "invalid digit found in string"@,
            LiteralError::TooLarge => "number too large to fit in target type"@,
        }
    }
}

pub open spec fn is_decimal_digit(c: char) -> bool {
    '0' <= c <= '9'
}

/// Whether `s` is one or more decimal digits.
pub open spec fn is_decimal(s: Seq<char>) -> bool {
    s.len() > 0 && forall|i: int| 0 <= i < s.len() ==> is_decimal_digit(#[trigger] s[i])
}

/// The number that the decimal digits `s` write.
pub open spec fn decimal_value(s: Seq<char>) -> nat
    decreases s.len(),
{
    if s.len() == 0 {
        0
    } else {
        10 * decimal_value(s.drop_last()) + ((s.last() as int - '0' as int) as nat)
    }
}

/// What reading the digits `s` as a number at most `limit` gives.
pub open spec fn read_decimal(s: Seq<char>, limit: nat) -> Result<nat, LiteralError> {
    if s.len() == 0 {
        Err(LiteralError::Empty)
    } else if !is_decimal(s) {
        Err(LiteralError::InvalidDigit)
    } else if decimal_value(s) > limit {
        Err(LiteralError::TooLarge)
    } else {
        Ok(decimal_value(s))
    }
}

/// Reads the decimal digits `digits` as a number no larger than `limit`.
fn parse_decimal(digits: &str, limit: u32) -> (r: Result<u32, LiteralError>)
    requires
        limit <= 0x7fff_ffff,
    ensures
        match (r, read_decimal(digits@, limit as nat)) {
            (Ok(v), Ok(w)) => v == w,
            (Err(e), Err(f)) => e == f,
            _ => false,
        },
{
    let mut value: u64 = 0;
    let mut valid: bool = true;
    let mut nonempty: bool = false;
    let ghost cap = limit as nat + 1;
    proof {
        assert(digits@.take(0) =~= Seq::<char>::empty());
    }
    for ch in it: digits.chars()
        invariant
            it.seq() == digits@,
            0 <= it.index() <= digits@.len(),
            limit <= 0x7fff_ffff,
            cap == limit as nat + 1,
            nonempty == (it.index() > 0),
            valid == (forall|i: int| 0 <= i < it.index() ==> is_decimal_digit(#[trigger] digits@[i])),
            valid ==> value == (if decimal_value(digits@.take(it.index())) < cap {
                decimal_value(digits@.take(it.index()))
            } else {
                cap
            }),
    {
        let ghost prefix = digits@.take(it.index());
        proof {
            assert(digits@.take(it.index() + 1).drop_last() =~= prefix);
            assert(digits@.take(it.index() + 1).last() == ch);
            assert(digits@[it.index()] == ch);
        }
        if '0' <= ch && ch <= '9' {
            if valid {
                let d = (ch as u64) - ('0' as u64);
                if value < limit as u64 + 1 {
                    let next = value * 10 + d;
                    value = if next < limit as u64 + 1 { next } else { limit as u64 + 1 };
                } else {
                    proof {
                        assert(decimal_value(digits@.take(it.index() + 1)) >= 10 * decimal_value(prefix));
                    }
                }
            }
        } else {
            valid = false;
        }
        nonempty = true;
    }
    proof {
        assert(digits@.take(digits@.len() as int) =~= digits@);
    }
    if !nonempty {
        Err(LiteralError::Empty)
    } else if !valid {
        Err(LiteralError::InvalidDigit)
    } else if value > limit as u64 {
        Err(LiteralError::TooLarge)
    } else {
        Ok(value as u32)
    }
}

/// Reads the decimal digits of an integer literal as a `u16`.
pub fn parse_u16_literal(digits: &str) -> (r: Result<u16, LiteralError>)
    ensures
        match (r, read_decimal(digits@, 0xffff)) {
            (Ok(v), Ok(w)) => v == w,
            (Err(e), Err(f)) => e == f,
            _ => false,
        },
{
    match parse_decimal(digits, 0xffff) {
        Ok(v) => Ok(v as u16),
        Err(e) => Err(e),
    }
}

/// Reads the decimal digits of an integer literal as a non-negative `i16`.
pub fn parse_i16_literal(digits: &str) -> (r: Result<i16, LiteralError>)
    ensures
        match (r, read_decimal(digits@, 0x7fff)) {
            (Ok(v), Ok(w)) => v == w,
            (Err(e), Err(f)) => e == f,
            _ => false,
        },
{
    match parse_decimal(digits, 0x7fff) {
        Ok(v) => Ok(v as i16),
        Err(e) => Err(e),
    }
}

/// The shape of a `y_offset` value in a `font_data!` invocation, with the decimal digits of
/// its integer literal where it has one.
#[derive(Debug, Clone)]
pub enum OffsetExpr {
    /// An integer literal, by its decimal digits.
    Int(String),
    /// A literal of another kind.
    OtherLiteral,
    /// A negated integer literal, by the literal's decimal digits.
    NegatedInt(String),
    /// A negated literal of another kind.
    NegatedOtherLiteral,
    /// A negation of something that is no literal.
    NegatedOther,
    /// Any other expression.
    Other,
}

/// The part of a `y_offset` value that an error points at.
#[derive(Debug, Clone, Copy, PartialEq, Eq, Structural)]
pub enum OffsetSite {
    /// The literal (inside the negation, where there is one).
    Literal,
    /// The operand of the negation.
    Operand,
    /// The whole value.
    Expression,
}

/// Why a `y_offset` value is refused.
#[derive(Debug, Clone, Copy, PartialEq, Eq, Structural)]
pub enum OffsetError {
    /// The value is no integer literal, possibly negated.
    NotInteger(OffsetSite),
    /// The literal's digits give no `i16`; the error points at the literal.
    Literal(LiteralError),
}

impl OffsetError {
    /// The message reported for the error.
    pub fn message(&self) -> (m: &'static str)
        ensures
            m@ == match *self {
                OffsetError::NotInteger(_) => "y_offset must be an integer literal"@,
                OffsetError::Literal(e) => e.spec_message(),
            },
    {
        match self {
            OffsetError::NotInteger(_) => "y_offset must be an integer literal",
            OffsetError::Literal(e) => e.message(),
        }
    }
}

/// The vertical offset that a `y_offset` value gives, or why it is refused.
pub open spec fn y_offset_value(e: OffsetExpr) -> Result<i16, OffsetError> {
    match e {
        OffsetExpr::Int(d) => match read_decimal(d@, 0x7fff) {
            Ok(v) => Ok(v as i16),
            Err(k) => Err(OffsetError::Literal(k)),
        },
        OffsetExpr::OtherLiteral => Err(OffsetError::NotInteger(OffsetSite::Literal)),
        OffsetExpr::NegatedInt(d) => match read_decimal(d@, 0x7fff) {
            Ok(v) => Ok((0 - v) as i16),
            Err(k) => Err(OffsetError::Literal(k)),
        },
        OffsetExpr::NegatedOtherLiteral => Err(OffsetError::NotInteger(OffsetSite::Literal)),
        OffsetExpr::NegatedOther => Err(OffsetError::NotInteger(OffsetSite::Operand)),
        OffsetExpr::Other => Err(OffsetError::NotInteger(OffsetSite::Expression)),
    }
}

/// Reads a `y_offset` value: an integer literal, possibly negated, that fits in `i16`.
pub fn parse_y_offset(expr: &OffsetExpr) -> (r: Result<i16, OffsetError>)
    ensures
        r == y_offset_value(*expr),
{
    match expr {
        OffsetExpr::Int(digits) => match parse_i16_literal(digits.as_str()) {
            Ok(v) => Ok(v),
            Err(e) => Err(OffsetError::Literal(e)),
        },
        OffsetExpr::OtherLiteral => Err(OffsetError::NotInteger(OffsetSite::Literal)),
        OffsetExpr::NegatedInt(digits) => match parse_i16_literal(digits.as_str()) {
            Ok(magnitude) => Ok(-magnitude),
            Err(e) => Err(OffsetError::Literal(e)),
        },
        OffsetExpr::NegatedOtherLiteral => Err(OffsetError::NotInteger(OffsetSite::Literal)),
        OffsetExpr::NegatedOther => Err(OffsetError::NotInteger(OffsetSite::Operand)),
        OffsetExpr::Other => Err(OffsetError::NotInteger(OffsetSite::Expression)),
    }
}

} // verus!
