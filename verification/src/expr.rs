//! The expression model: the typed tree that translation works on.

use vstd::prelude::*;
use crate::text::{chars_of, same_text};

verus! {

/// What a literal holds.
#[derive(Clone, Copy, Debug, PartialEq, Eq, Structural)]
pub enum LiteralKind {
    /// A decimal number.
    Number,
    /// A hexadecimal number, written with its prefix.
    HexNumber,
    /// A string, held without its quotes.
    String,
    /// `true` or `false`.
    Bool,
}

/// A unit behind a number literal, which scales it by a power of ten.
#[derive(Clone, Copy, Debug, PartialEq, Eq, Structural)]
pub enum Denomination {
    /// The base unit: the number stands as written.
    Wei,
    /// Nine decimal places.
    Gwei,
    /// Eighteen decimal places.
    Ether,
    /// The given number of decimal places: the scale of a written exponent, with
    /// that of a unit behind it added.
    Places(u32),
}

impl Denomination {
    /// The number of decimal places by which the unit scales a number.
    pub open spec fn decimals(self) -> nat {
        match self {
            Denomination::Wei => 0,
            Denomination::Gwei => 9,
            Denomination::Ether => 18,
            Denomination::Places(places) => places as nat,
        }
    }

    /// The number of decimal places by which the unit scales a number.
    pub fn decimal_places(&self) -> (r: u32)
        ensures
            r == self.decimals(),
    {
        match self {
            Denomination::Wei => 0,
            Denomination::Gwei => 9,
            Denomination::Ether => 18,
            Denomination::Places(places) => *places,
        }
    }

    /// The unit that a name stands for.
    pub open spec fn named(name: Seq<char>) -> Option<Denomination> {
        if name == "wei"@ {
            Some(Denomination::Wei)
        } else if name == "gwei"@ {
            Some(Denomination::Gwei)
        } else if name == "ether"@ {
            Some(Denomination::Ether)
        } else {
            None
        }
    }

    /// The unit that `name` stands for: `wei`, `gwei` or `ether`; no other name is a unit.
    pub fn from_name(name: &str) -> (r: Option<Denomination>)
        ensures
            r == Denomination::named(name@),
    {
        if same_text(name, "wei") {
            Some(Denomination::Wei)
        } else if same_text(name, "gwei") {
            Some(Denomination::Gwei)
        } else if same_text(name, "ether") {
            Some(Denomination::Ether)
        } else {
            None
        }
    }
}

/// The number that decimal digits write, if they are digits and the number is
/// below two to the power 32. No digits write zero.
pub open spec fn digits_value(digits: Seq<char>) -> Option<nat>
    decreases digits.len(),
{
    if digits.len() == 0 {
        Some(0)
    } else {
        match digits_value(digits.drop_last()) {
            None => None,
            Some(front) => {
                let last = digits.last();
                if '0' <= last <= '9' && front * 10 + (last as nat - '0' as nat) <= u32::MAX {
                    Some((front * 10 + (last as nat - '0' as nat)) as nat)
                } else {
                    None
                }
            },
        }
    }
}

/// The places by which a unit scales, and none without a unit.
pub open spec fn unit_places(unit: Option<Denomination>) -> nat {
    match unit {
        Some(unit) => unit.decimals(),
        None => 0,
    }
}

/// The scale of a number written with the exponent `exponent` and the unit `unit`:
/// the places of the exponent, none where it is empty, and those of the unit
/// together. An exponent that is not of decimal digits, and places beyond two to
/// the power 32, have no scale.
pub open spec fn scale_of(exponent: Seq<char>, unit: Option<Denomination>) -> Option<Denomination> {
    match digits_value(exponent) {
        None => None,
        Some(places) => if places + unit_places(unit) <= u32::MAX {
            Some(Denomination::Places((places + unit_places(unit)) as u32))
        } else {
            None
        },
    }
}

/// Once a prefix of the digits writes no number, the digits write none.
pub proof fn lemma_digits_stay_none(digits: Seq<char>, n: int)
    requires
        0 <= n <= digits.len(),
        digits_value(digits.take(n)) is None,
    ensures
        digits_value(digits) is None,
    decreases digits.len() - n,
{
    if n < digits.len() {
        assert(digits.take(n + 1).drop_last() =~= digits.take(n));
        lemma_digits_stay_none(digits, n + 1);
    } else {
        assert(digits.take(n) =~= digits);
    }
}

/// The number that decimal digits write.
pub fn read_digits(digits: &str) -> (r: Option<u32>)
    ensures
        r is Some == digits_value(digits@) is Some,
        r matches Some(value) ==> digits_value(digits@) == Some(value as nat),
{
    let chars = chars_of(digits);
    let mut value: u32 = 0;
    let mut i: usize = 0;
    assert(chars@.take(0) =~= Seq::<char>::empty());
    while i < chars.len()
        invariant
            i <= chars.len(),
            chars@ == digits@,
            digits_value(chars@.take(i as int)) == Some(value as nat),
        decreases chars.len() - i,
    {
        let c: char = chars[i];
        assert(chars@.take(i + 1).drop_last() =~= chars@.take(i as int));
        assert(chars@.take(i + 1).last() == c);
        if c < '0' || c > '9' {
            proof {
                lemma_digits_stay_none(chars@, i + 1);
            }
            return None;
        }
        let digit: u32 = (c as u32) - ('0' as u32);
        if value > (u32::MAX - digit) / 10 {
            proof {
                lemma_digits_stay_none(chars@, i + 1);
            }
            return None;
        }
        value = value * 10 + digit;
        i += 1;
    }
    assert(chars@.take(chars.len() as int) =~= chars@);
    Some(value)
}

/// The scale of a number written with the given exponent and unit.
pub fn scale(exponent: &str, unit: Option<Denomination>) -> (r: Option<Denomination>)
    ensures
        r == scale_of(exponent@, unit),
{
    match read_digits(exponent) {
        None => None,
        Some(places) => {
            let more: u32 = match unit {
                Some(unit) => unit.decimal_places(),
                None => 0,
            };
            if places > u32::MAX - more {
                None
            } else {
                Some(Denomination::Places(places + more))
            }
        },
    }
}

/// The kind of an expression node, without what it holds.
#[derive(Clone, Copy, Debug, PartialEq, Eq, Structural)]
pub enum NodeKind {
    Literal,
    Identifier,
    MemberAccess,
    Call,
    ArrayLiteral,
    Unsupported,
}

/// An expression. A tree of these is built once and then only read.
#[derive(Debug, PartialEq, Eq)]
pub enum Expression {
    /// A literal with its text as written and, for a number, an optional unit.
    Literal { kind: LiteralKind, value: String, denomination: Option<Denomination> },
    /// A bare name.
    Identifier { name: String },
    /// `object.member`.
    MemberAccess { object: Box<Expression>, member: String },
    /// `callee(arguments)`.
    Call { callee: Box<Expression>, arguments: Vec<Expression> },
    /// `[elements]`.
    ArrayLiteral { elements: Vec<Expression> },
    /// A node of a kind that has no translation, with a description of it.
    Unsupported { description: String },
}

impl Expression {
    /// The kind of the node.
    pub open spec fn kind(self) -> NodeKind {
        match self {
            Expression::Literal { .. } => NodeKind::Literal,
            Expression::Identifier { .. } => NodeKind::Identifier,
            Expression::MemberAccess { .. } => NodeKind::MemberAccess,
            Expression::Call { .. } => NodeKind::Call,
            Expression::ArrayLiteral { .. } => NodeKind::ArrayLiteral,
            Expression::Unsupported { .. } => NodeKind::Unsupported,
        }
    }

    /// The kind of the node.
    pub fn node_kind(&self) -> (r: NodeKind)
        ensures
            r == self.kind(),
    {
        match self {
            Expression::Literal { .. } => NodeKind::Literal,
            Expression::Identifier { .. } => NodeKind::Identifier,
            Expression::MemberAccess { .. } => NodeKind::MemberAccess,
            Expression::Call { .. } => NodeKind::Call,
            Expression::ArrayLiteral { .. } => NodeKind::ArrayLiteral,
            Expression::Unsupported { .. } => NodeKind::Unsupported,
        }
    }

    /// The name by which a callee is called: the identifier itself, or the member of
    /// a member access. No other node names a callee.
    pub open spec fn trailing_name(self) -> Option<Seq<char>> {
        match self {
            Expression::Identifier { name } => Some(name@),
            Expression::MemberAccess { member, .. } => Some(member@),
            _ => None,
        }
    }

    /// The name by which a callee is called, if the node can be one.
    pub fn callee_name(&self) -> (r: Option<&str>)
        ensures
            r is Some == self.trailing_name() is Some,
            r matches Some(name) ==> Some(name@) == self.trailing_name(),
    {
        match self {
            Expression::Identifier { name } => Some(name.as_str()),
            Expression::MemberAccess { member, .. } => Some(member.as_str()),
            _ => None,
        }
    }
}

} // verus!
