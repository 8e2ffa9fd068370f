use vstd::prelude::*;

verus! {

/// The ways in which a byte span can fail to be a decimal number of the
/// requested width.
#[derive(Debug, Clone, Copy, PartialEq, Eq, Structural)]
pub enum ParseIntErr {
    /// A byte outside `'0'..='9'` stands in the digit span.
    NonDecimal,
    /// The span, or what follows a leading minus, holds no byte.
    Empty,
    /// The magnitude is above the largest value of the width.
    Overflow,
    /// The negated magnitude is below the smallest value of the width.
    NegOverflow,
    /// Reserved; no function of this library returns it.
    Unknown,
}

impl ParseIntErr {
    /// The name of the variant.
    pub fn as_str(&self) -> (name: &'static str)
        ensures
            name@ == self.name(),
    {
        match self {
            ParseIntErr::NonDecimal => "NonDecimal",
            ParseIntErr::Empty => "Empty",
            ParseIntErr::Overflow => "Overflow",
            ParseIntErr::Unknown => "UnknownError",
            ParseIntErr::NegOverflow => "NegOverflow",
        }
    }

    /// The name of the variant as an owned string.
    pub fn to_string(&self) -> (text: String)
        ensures
            text@ == self.name(),
    {
        self.as_str().to_owned()
    }

    /// The text that `as_str` returns, as a sequence of characters.
    pub open spec fn name(&self) -> Seq<char> {
        match self {
            ParseIntErr::NonDecimal => "NonDecimal"@,
            ParseIntErr::Empty => "Empty"@,
            ParseIntErr::Overflow => "Overflow"@,
            ParseIntErr::Unknown => "UnknownError"@,
            ParseIntErr::NegOverflow => "NegOverflow"@,
        }
    }
}

} // verus!
