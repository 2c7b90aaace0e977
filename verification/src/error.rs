//! The errors of the library.

use crate::text::{decimal_digits, decimal_text};
use vstd::prelude::*;
use vstd::string::*;

verus! {

/// Why a class file, or a class read from one, was refused.
#[derive(Copy, Clone, Debug, PartialEq, Eq, Structural)]
pub enum ParseError {
    /// The input does not begin with the four bytes `CA FE BA BE`.
    BadMagic,
    /// The input ends before the item that begins at `offset` is complete.
    Truncated { offset: usize },
    /// The constant pool entry `index`, which begins at `offset`, has a tag
    /// that no kind of entry bears.
    UnknownTag { index: u16, tag: u8, offset: usize },
    /// The constant pool holds no entry at `index`, or one of another kind
    /// than the reference to it asks for.
    BadPoolTag { index: u16 },
}

impl ParseError {
    /// What `message` gives.
    pub open spec fn spec_message(&self) -> Seq<char> {
        match *self {
            ParseError::BadMagic => "the file does not begin with CAFEBABE"@,
            ParseError::Truncated { offset } => "the file ends within the item at offset "@
                + decimal_digits(offset as nat),
            ParseError::UnknownTag { index, tag, offset } => "unknown tag "@ + decimal_digits(
                tag as nat,
            ) + " of the constant pool entry "@ + decimal_digits(index as nat) + " at offset "@
                + decimal_digits(offset as nat),
            ParseError::BadPoolTag { index } => "no constant pool entry of the kind asked for at index "@
                + decimal_digits(index as nat),
        }
    }

    /// The error in words: it names the index, the tag and the offset that
    /// the error holds.
    pub fn message(&self) -> (r: String)
        ensures
            r@ == self.spec_message(),
    {
        match *self {
            ParseError::BadMagic => String::from_str("the file does not begin with CAFEBABE"),
            ParseError::Truncated { offset } => {
                let mut r = String::from_str("the file ends within the item at offset ");
                r.append(decimal_text(offset).as_str());
                r
            },
            ParseError::UnknownTag { index, tag, offset } => {
                let mut r = String::from_str("unknown tag ");
                r.append(decimal_text(tag as usize).as_str());
                r.append(" of the constant pool entry ");
                r.append(decimal_text(index as usize).as_str());
                r.append(" at offset ");
                r.append(decimal_text(offset).as_str());
                r
            },
            ParseError::BadPoolTag { index } => {
                let mut r = String::from_str(
                    "no constant pool entry of the kind asked for at index ",
                );
                r.append(decimal_text(index as usize).as_str());
                r
            },
        }
    }
}

/// Why the options of a run were refused.
#[derive(Debug)]
pub enum ArgError {
    /// Options that cannot stand together, or of which one is missing.
    IllegalCombination(String),
}

impl ArgError {
    /// What `message` gives.
    pub open spec fn spec_message(&self) -> Seq<char> {
        match self {
            ArgError::IllegalCombination(err) => "ArgError::IllegalCombination: "@ + err@,
        }
    }

    /// The error in words: the name of the error, then what it holds.
    pub fn message(&self) -> (r: String)
        ensures
            r@ == self.spec_message(),
    {
        match self {
            ArgError::IllegalCombination(err) => {
                let mut r = String::from_str("ArgError::IllegalCombination: ");
                r.append(err.as_str());
                r
            },
        }
    }
}

} // verus!
