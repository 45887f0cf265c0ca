//! A memory-efficient representation of DNA sequences.
//!
//! A sequence over the four-letter nucleotide alphabet is stored two bits per
//! symbol in a vector of bytes ([`packed::PackedDna`]), together with the
//! logical length of the sequence. The [`Nuc`] enumeration is the decoded
//! value type, and this module holds its character-level parsing rules.

use vstd::prelude::*;

pub mod packed;

verus! {

/// A nucleotide: one of the four canonical DNA bases.
#[derive(Debug, Clone, Copy, PartialEq, Eq, Structural)]
pub enum Nuc {
    /// Adenine
    A,
    /// Cytosine
    C,
    /// Guanine
    G,
    /// Thymine
    T,
}

/// The fixed 2-bit code of a nucleotide: A = 0, C = 1, G = 2, T = 3.
pub open spec fn code_of(n: Nuc) -> u8 {
    match n {
        Nuc::A => 0,
        Nuc::C => 1,
        Nuc::G => 2,
        Nuc::T => 3,
    }
}

/// Whether a character names a nucleotide, case-insensitively.
pub open spec fn is_nuc_char(c: char) -> bool {
    ||| c == 'A'
    ||| c == 'a'
    ||| c == 'C'
    ||| c == 'c'
    ||| c == 'G'
    ||| c == 'g'
    ||| c == 'T'
    ||| c == 't'
}

/// The nucleotide named by a character (meaningful when [`is_nuc_char`] holds).
pub open spec fn nuc_of_char(c: char) -> Nuc {
    if c == 'A' || c == 'a' {
        Nuc::A
    } else if c == 'C' || c == 'c' {
        Nuc::C
    } else if c == 'G' || c == 'g' {
        Nuc::G
    } else {
        Nuc::T
    }
}

/// The upper-case character naming a nucleotide.
pub open spec fn char_of_nuc(n: Nuc) -> char {
    match n {
        Nuc::A => 'A',
        Nuc::C => 'C',
        Nuc::G => 'G',
        Nuc::T => 'T',
    }
}

/// Upper-cases the four lower-case nucleotide letters; leaves every other
/// character unchanged. On texts made of nucleotide letters this is exactly
/// ASCII upper-casing.
pub open spec fn upper_char(c: char) -> char {
    if c == 'a' {
        'A'
    } else if c == 'c' {
        'C'
    } else if c == 'g' {
        'G'
    } else if c == 't' {
        'T'
    } else {
        c
    }
}

/// [`upper_char`] applied to every character of a text.
pub open spec fn upper_text(s: Seq<char>) -> Seq<char> {
    Seq::new(s.len(), |i: int| upper_char(s[i]))
}

/// Whether every character of a text names a nucleotide.
pub open spec fn valid_text(s: Seq<char>) -> bool {
    forall|i: int| 0 <= i < s.len() ==> is_nuc_char(#[trigger] s[i])
}

/// The nucleotide sequence named by a text (meaningful when [`valid_text`] holds).
pub open spec fn nucs_of_text(s: Seq<char>) -> Seq<Nuc> {
    Seq::new(s.len(), |i: int| nuc_of_char(s[i]))
}

/// The upper-case text naming a nucleotide sequence.
pub open spec fn text_of_nucs(ns: Seq<Nuc>) -> Seq<char> {
    Seq::new(ns.len(), |i: int| char_of_nuc(ns[i]))
}

/// An error that can occur when parsing a nucleotide; it carries the
/// offending input.
#[derive(Debug)]
pub struct ParseNucError<T>(pub T);

impl Nuc {
    /// Parses a single character, case-insensitively, into a nucleotide.
    pub fn try_from(value: char) -> (r: Result<Nuc, ParseNucError<char>>)
        ensures
            r is Ok <==> is_nuc_char(value),
            r matches Ok(n) ==> n == nuc_of_char(value),
            r matches Err(e) ==> e.0 == value,
    {
        match value {
            'A' | 'a' => Ok(Nuc::A),
            'C' | 'c' => Ok(Nuc::C),
            'G' | 'g' => Ok(Nuc::G),
            'T' | 't' => Ok(Nuc::T),
            _ => Err(ParseNucError(value)),
        }
    }

    /// Parses a one-character text, case-insensitively, into a nucleotide.
    /// Fails on any other length, and on a character that names no
    /// nucleotide; the error carries the input.
    pub fn from_str(s: &str) -> (r: Result<Nuc, ParseNucError<String>>)
        ensures
            r is Ok <==> (s@.len() == 1 && is_nuc_char(s@[0])),
            r matches Ok(n) ==> n == nuc_of_char(s@[0]),
            r matches Err(e) ==> e.0@ == s@,
    {
        let n: usize = s.unicode_len();
        if n == 1 {
            let c = s.get_char(0);
            match Nuc::try_from(c) {
                Ok(nuc) => Ok(nuc),
                Err(_) => Err(ParseNucError(s.to_owned())),
            }
        } else {
            Err(ParseNucError(s.to_owned()))
        }
    }
}

} // verus!
