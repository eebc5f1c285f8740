//! Classification of variable and pattern names.
use vstd::prelude::*;

verus! {

/// Whether `c` has Unicode's Alphabetic property, as `char::is_alphabetic` reports it.
pub uninterp spec fn alphabetic(c: char) -> bool;

/// `char::is_alphabetic`: whether `c` has Unicode's Alphabetic property. The property is named,
/// not stated; of ASCII characters exactly the Latin letters have it.
#[verifier::external_body]
fn is_alphabetic(c: char) -> (r: bool)
    ensures
        r == alphabetic(c),
        (c as u32) < 128 ==> (r <==> (('a' <= c && c <= 'z') || ('A' <= c && c <= 'Z'))),
{
    c.is_alphabetic()
}

/// Whether `c` may appear in a variable or pattern name: an alphabetic character, or one of
/// the pattern sigils `$`, `#` and `_`.
pub fn is_var_char(c: char) -> (r: bool)
    ensures
        r == (alphabetic(c) || c == '$' || c == '#' || c == '_'),
{
    is_alphabetic(c) || c == '$' || c == '#' || c == '_'
}

/// Represents the pattern a variable name matches.
///
/// `VariablePattern`s support bitwise comparison:
///
/// ```text
/// Any      & Const    == Const // an Any pattern can match a Const pattern
/// Variable & Const    == Empty // a Variable pattern cannot match a Const pattern
/// ```
#[derive(Debug, PartialEq, Eq, Structural, Clone, Copy)]
pub enum VariablePattern {
    /// Matches nothing (bits `0b00`).
    Empty,
    /// Matches variables (bits `0b01`).
    Variable,
    /// Matches constants (bits `0b10`).
    Const,
    /// Matches anything (bits `0b11`).
    Any,
}

impl VariablePattern {
    /// The bit representation of a pattern.
    pub open spec fn spec_bits(self) -> u8 {
        match self {
            VariablePattern::Empty => 0,
            VariablePattern::Variable => 1,
            VariablePattern::Const => 2,
            VariablePattern::Any => 3,
        }
    }

    /// The pattern with the bit representation `n`.
    pub open spec fn spec_from_bits(n: u8) -> VariablePattern {
        if n == 0 {
            VariablePattern::Empty
        } else if n == 1 {
            VariablePattern::Variable
        } else if n == 2 {
            VariablePattern::Const
        } else {
            VariablePattern::Any
        }
    }

    /// The bit representation of the pattern.
    pub fn bits(&self) -> (r: u8)
        ensures
            r == self.spec_bits(),
    {
        match self {
            VariablePattern::Empty => 0,
            VariablePattern::Variable => 1,
            VariablePattern::Const => 2,
            VariablePattern::Any => 3,
        }
    }

    /// The pattern with the bit representation `n`.
    pub fn from_bits(n: u8) -> (r: VariablePattern)
        requires
            n <= 3,
        ensures
            r == Self::spec_from_bits(n),
            r.spec_bits() == n,
    {
        if n == 0 {
            VariablePattern::Empty
        } else if n == 1 {
            VariablePattern::Variable
        } else if n == 2 {
            VariablePattern::Const
        } else {
            VariablePattern::Any
        }
    }

    /// The pattern a name matches, by its first character: `_` matches anything, `#` matches
    /// constants, and anything else matches variables.
    pub fn from_name(name: &str) -> (r: Self)
        requires
            name@.len() > 0,
        ensures
            r == (if name@[0] == '_' {
                VariablePattern::Any
            } else if name@[0] == '#' {
                VariablePattern::Const
            } else {
                VariablePattern::Variable
            }),
    {
        let c = name.get_char(0);
        if c == '_' {
            VariablePattern::Any
        } else if c == '#' {
            VariablePattern::Const
        } else {
            VariablePattern::Variable
        }
    }
}

impl core::ops::BitAnd for VariablePattern {
    type Output = Self;

    fn bitand(self, rhs: Self) -> (r: Self::Output) {
        let a = self.bits();
        let b = rhs.bits();
        assert(a & b <= 3) by (bit_vector)
            requires
                a <= 3,
                b <= 3,
        ;
        Self::from_bits(a & b)
    }
}

impl vstd::std_specs::ops::BitAndSpecImpl for VariablePattern {
    open spec fn obeys_bitand_spec() -> bool {
        true
    }

    open spec fn bitand_req(self, rhs: Self) -> bool {
        true
    }

    open spec fn bitand_spec(self, rhs: Self) -> Self {
        Self::spec_from_bits(self.spec_bits() & rhs.spec_bits())
    }
}

} // verus!
