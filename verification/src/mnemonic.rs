//! The mnemonic fields of a compute instruction: destination, computation
//! and jump condition, with their textual forms and bit-field encodings.
//!
//! A compute line has the general shape `[dest=]comp[;jump]`. The
//! destination is any subset of the writable locations `A`, `D` and `M`;
//! the computation is one of 28 fixed ALU expressions; the jump condition
//! is one of 8 forms, where an absent or unrecognized jump mnemonic means
//! "never jump".

use crate::text::{copy_range, eq1, eq2, eq3, find_byte};
use crate::AsmError;
use vstd::prelude::*;

verus! {

/// The destination field: which of the address register (`A`), the data
/// register (`D`) and the addressed memory cell (`M`) receive the
/// computed value.
#[derive(Clone, Copy, Debug, PartialEq, Eq, Structural)]
pub struct Dest {
    /// Write the address register.
    pub a: bool,
    /// Write the data register.
    pub d: bool,
    /// Write the memory cell selected by the address register.
    pub m: bool,
}

/// The destination encoded by a mnemonic: each of the letters `A`, `D`,
/// `M` present anywhere in the text sets the matching write-bit, and any
/// other letter is ignored.
pub open spec fn dest_of(s: Seq<u8>) -> Dest {
    Dest { a: s.contains(('A' as u8)), d: s.contains(('D' as u8)), m: s.contains(('M' as u8)) }
}

/// The three destination write-bits as a value `0 ..= 7`, A-bit most
/// significant, then D, then M.
pub open spec fn dest_bits(d: Dest) -> u16 {
    ((if d.a {
        4u16
    } else {
        0u16
    }) + (if d.d {
        2u16
    } else {
        0u16
    }) + (if d.m {
        1u16
    } else {
        0u16
    })) as u16
}

/// The destination selected by the low three bits of `b`.
pub open spec fn dest_of_bits(b: u16) -> Dest {
    Dest { a: (b / 4) % 2 == 1, d: (b / 2) % 2 == 1, m: b % 2 == 1 }
}

/// The destination bits as text, most significant bit first.
pub open spec fn dest_str(d: Dest) -> Seq<char> {
    seq![
        if d.a { '1' } else { '0' },
        if d.d { '1' } else { '0' },
        if d.m { '1' } else { '0' },
    ]
}

impl Dest {
    /// The destination that writes nowhere.
    pub fn none() -> (r: Dest)
        ensures
            r == (Dest { a: false, d: false, m: false }),
    {
        Dest { a: false, d: false, m: false }
    }

    /// Read a destination mnemonic: each occurrence of `A`, `D` or `M`
    /// sets the matching write-bit; all other bytes are ignored.
    pub fn from_str(s: &Vec<u8>) -> (r: Dest)
        ensures
            r == dest_of(s@),
    {
        let mut a: bool = false;
        let mut d: bool = false;
        let mut m: bool = false;
        let mut i: usize = 0;
        while i < s.len()
            invariant
                0 <= i <= s.len(),
                a == (exists|j: int| 0 <= j < i && s@[j] == ('A' as u8)),
                d == (exists|j: int| 0 <= j < i && s@[j] == ('D' as u8)),
                m == (exists|j: int| 0 <= j < i && s@[j] == ('M' as u8)),
            decreases s.len() - i,
        {
            let c = s[i];
            proof {
                assert(s@[i as int] == c);
            }
            if c == ('A' as u8) {
                a = true;
            } else if c == ('D' as u8) {
                d = true;
            } else if c == ('M' as u8) {
                m = true;
            }
            i = i + 1;
        }
        Dest { a, d, m }
    }

    /// The three write-bits as a value `0 ..= 7`.
    pub fn bits(&self) -> (r: u16)
        ensures
            r == dest_bits(*self),
    {
        (if self.a {
            4u16
        } else {
            0u16
        }) + (if self.d {
            2u16
        } else {
            0u16
        }) + (if self.m {
            1u16
        } else {
            0u16
        })
    }

    /// The three write-bits as text, A-bit first.
    pub fn binary_str(&self) -> (r: String)
        ensures
            r@ == dest_str(*self),
    {
        let r: String = if self.a {
            if self.d {
                if self.m {
                    "111"
                } else {
                    "110"
                }
            } else {
                if self.m {
                    "101"
                } else {
                    "100"
                }
            }
        } else {
            if self.d {
                if self.m {
                    "011"
                } else {
                    "010"
                }
            } else {
                if self.m {
                    "001"
                } else {
                    "000"
                }
            }
        }.to_owned();
        proof {
            reveal_strlit("111");
            reveal_strlit("110");
            reveal_strlit("101");
            reveal_strlit("100");
            reveal_strlit("011");
            reveal_strlit("010");
            reveal_strlit("001");
            reveal_strlit("000");
            assert(r@ =~= dest_str(*self));
        }
        r
    }
}

/// Round trip of the destination bits: decoding the encoded write-bits
/// yields the original destination.
pub proof fn lemma_dest_bits_roundtrip(d: Dest)
    ensures
        dest_of_bits(dest_bits(d)) == d,
{
}

/// The 28 recognized ALU computations. The `A` and `M` forms of one
/// arithmetic shape are distinct variants: they share the low six bits of
/// the encoding and differ only in the addressing-mode bit.
#[derive(Clone, Copy, Debug, PartialEq, Eq, Structural)]
pub enum Comp {
    /// `0`
    Zero,
    /// `1`
    One,
    /// `-1`
    NegOne,
    /// `D`
    D,
    /// `A`
    A,
    /// `M`
    M,
    /// `!D`
    NotD,
    /// `!A`
    NotA,
    /// `!M`
    NotM,
    /// `-D`
    NegD,
    /// `-A`
    NegA,
    /// `-M`
    NegM,
    /// `D+1`
    IncD,
    /// `A+1`
    IncA,
    /// `M+1`
    IncM,
    /// `D-1`
    DecD,
    /// `A-1`
    DecA,
    /// `M-1`
    DecM,
    /// `D+A`
    DPlusA,
    /// `D+M`
    DPlusM,
    /// `D-A`
    DMinusA,
    /// `D-M`
    DMinusM,
    /// `A-D`
    AMinusD,
    /// `M-D`
    MMinusD,
    /// `D&A`
    DAndA,
    /// `D&M`
    DAndM,
    /// `D|A`
    DOrA,
    /// `D|M`
    DOrM,
}

/// The seven computation bits: the addressing-mode bit (set exactly for
/// the `M` forms) followed by the six ALU control bits.
pub open spec fn comp_bits(c: Comp) -> u16 {
    match c {
        Comp::Zero => 0b0101010,
        Comp::One => 0b0111111,
        Comp::NegOne => 0b0111010,
        Comp::D => 0b0001100,
        Comp::A => 0b0110000,
        Comp::M => 0b1110000,
        Comp::NotD => 0b0001101,
        Comp::NotA => 0b0110001,
        Comp::NotM => 0b1110001,
        Comp::NegD => 0b0001111,
        Comp::NegA => 0b0110011,
        Comp::NegM => 0b1110011,
        Comp::IncD => 0b0011111,
        Comp::IncA => 0b0110111,
        Comp::IncM => 0b1110111,
        Comp::DecD => 0b0001110,
        Comp::DecA => 0b0110010,
        Comp::DecM => 0b1110010,
        Comp::DPlusA => 0b0000010,
        Comp::DPlusM => 0b1000010,
        Comp::DMinusA => 0b0010011,
        Comp::DMinusM => 0b1010011,
        Comp::AMinusD => 0b0000111,
        Comp::MMinusD => 0b1000111,
        Comp::DAndA => 0b0000000,
        Comp::DAndM => 0b1000000,
        Comp::DOrA => 0b0010101,
        Comp::DOrM => 0b1010101,
    }
}

/// The computation whose text is `s`, if `s` is one of the 28 recognized
/// computation mnemonics.
pub open spec fn comp_of(s: Seq<u8>) -> Option<Comp> {
    if s == seq![('0' as u8)] {
        Some(Comp::Zero)
    } else if s == seq![('1' as u8)] {
        Some(Comp::One)
    } else if s == seq![('-' as u8), ('1' as u8)] {
        Some(Comp::NegOne)
    } else if s == seq![('D' as u8)] {
        Some(Comp::D)
    } else if s == seq![('A' as u8)] {
        Some(Comp::A)
    } else if s == seq![('M' as u8)] {
        Some(Comp::M)
    } else if s == seq![('!' as u8), ('D' as u8)] {
        Some(Comp::NotD)
    } else if s == seq![('!' as u8), ('A' as u8)] {
        Some(Comp::NotA)
    } else if s == seq![('!' as u8), ('M' as u8)] {
        Some(Comp::NotM)
    } else if s == seq![('-' as u8), ('D' as u8)] {
        Some(Comp::NegD)
    } else if s == seq![('-' as u8), ('A' as u8)] {
        Some(Comp::NegA)
    } else if s == seq![('-' as u8), ('M' as u8)] {
        Some(Comp::NegM)
    } else if s == seq![('D' as u8), ('+' as u8), ('1' as u8)] {
        Some(Comp::IncD)
    } else if s == seq![('A' as u8), ('+' as u8), ('1' as u8)] {
        Some(Comp::IncA)
    } else if s == seq![('M' as u8), ('+' as u8), ('1' as u8)] {
        Some(Comp::IncM)
    } else if s == seq![('D' as u8), ('-' as u8), ('1' as u8)] {
        Some(Comp::DecD)
    } else if s == seq![('A' as u8), ('-' as u8), ('1' as u8)] {
        Some(Comp::DecA)
    } else if s == seq![('M' as u8), ('-' as u8), ('1' as u8)] {
        Some(Comp::DecM)
    } else if s == seq![('D' as u8), ('+' as u8), ('A' as u8)] {
        Some(Comp::DPlusA)
    } else if s == seq![('D' as u8), ('+' as u8), ('M' as u8)] {
        Some(Comp::DPlusM)
    } else if s == seq![('D' as u8), ('-' as u8), ('A' as u8)] {
        Some(Comp::DMinusA)
    } else if s == seq![('D' as u8), ('-' as u8), ('M' as u8)] {
        Some(Comp::DMinusM)
    } else if s == seq![('A' as u8), ('-' as u8), ('D' as u8)] {
        Some(Comp::AMinusD)
    } else if s == seq![('M' as u8), ('-' as u8), ('D' as u8)] {
        Some(Comp::MMinusD)
    } else if s == seq![('D' as u8), ('&' as u8), ('A' as u8)] {
        Some(Comp::DAndA)
    } else if s == seq![('D' as u8), ('&' as u8), ('M' as u8)] {
        Some(Comp::DAndM)
    } else if s == seq![('D' as u8), ('|' as u8), ('A' as u8)] {
        Some(Comp::DOrA)
    } else if s == seq![('D' as u8), ('|' as u8), ('M' as u8)] {
        Some(Comp::DOrM)
    } else {
        None
    }
}

/// The computation encoded by the seven bits `b`, if any: the inverse of
/// `comp_bits` on its range.
pub open spec fn comp_of_bits(b: u16) -> Option<Comp> {
    if b == 0b0101010 {
        Some(Comp::Zero)
    } else if b == 0b0111111 {
        Some(Comp::One)
    } else if b == 0b0111010 {
        Some(Comp::NegOne)
    } else if b == 0b0001100 {
        Some(Comp::D)
    } else if b == 0b0110000 {
        Some(Comp::A)
    } else if b == 0b1110000 {
        Some(Comp::M)
    } else if b == 0b0001101 {
        Some(Comp::NotD)
    } else if b == 0b0110001 {
        Some(Comp::NotA)
    } else if b == 0b1110001 {
        Some(Comp::NotM)
    } else if b == 0b0001111 {
        Some(Comp::NegD)
    } else if b == 0b0110011 {
        Some(Comp::NegA)
    } else if b == 0b1110011 {
        Some(Comp::NegM)
    } else if b == 0b0011111 {
        Some(Comp::IncD)
    } else if b == 0b0110111 {
        Some(Comp::IncA)
    } else if b == 0b1110111 {
        Some(Comp::IncM)
    } else if b == 0b0001110 {
        Some(Comp::DecD)
    } else if b == 0b0110010 {
        Some(Comp::DecA)
    } else if b == 0b1110010 {
        Some(Comp::DecM)
    } else if b == 0b0000010 {
        Some(Comp::DPlusA)
    } else if b == 0b1000010 {
        Some(Comp::DPlusM)
    } else if b == 0b0010011 {
        Some(Comp::DMinusA)
    } else if b == 0b1010011 {
        Some(Comp::DMinusM)
    } else if b == 0b0000111 {
        Some(Comp::AMinusD)
    } else if b == 0b1000111 {
        Some(Comp::MMinusD)
    } else if b == 0b0000000 {
        Some(Comp::DAndA)
    } else if b == 0b1000000 {
        Some(Comp::DAndM)
    } else if b == 0b0010101 {
        Some(Comp::DOrA)
    } else if b == 0b1010101 {
        Some(Comp::DOrM)
    } else {
        None
    }
}

impl Comp {
    /// Read a computation mnemonic; `None` for any text that is not one
    /// of the 28 recognized forms.
    pub fn from_str(s: &Vec<u8>) -> (r: Option<Comp>)
        ensures
            r == comp_of(s@),
    {
        if eq1(s, ('0' as u8)) {
            Some(Comp::Zero)
        } else if eq1(s, ('1' as u8)) {
            Some(Comp::One)
        } else if eq2(s, ('-' as u8), ('1' as u8)) {
            Some(Comp::NegOne)
        } else if eq1(s, ('D' as u8)) {
            Some(Comp::D)
        } else if eq1(s, ('A' as u8)) {
            Some(Comp::A)
        } else if eq1(s, ('M' as u8)) {
            Some(Comp::M)
        } else if eq2(s, ('!' as u8), ('D' as u8)) {
            Some(Comp::NotD)
        } else if eq2(s, ('!' as u8), ('A' as u8)) {
            Some(Comp::NotA)
        } else if eq2(s, ('!' as u8), ('M' as u8)) {
            Some(Comp::NotM)
        } else if eq2(s, ('-' as u8), ('D' as u8)) {
            Some(Comp::NegD)
        } else if eq2(s, ('-' as u8), ('A' as u8)) {
            Some(Comp::NegA)
        } else if eq2(s, ('-' as u8), ('M' as u8)) {
            Some(Comp::NegM)
        } else if eq3(s, ('D' as u8), ('+' as u8), ('1' as u8)) {
            Some(Comp::IncD)
        } else if eq3(s, ('A' as u8), ('+' as u8), ('1' as u8)) {
            Some(Comp::IncA)
        } else if eq3(s, ('M' as u8), ('+' as u8), ('1' as u8)) {
            Some(Comp::IncM)
        } else if eq3(s, ('D' as u8), ('-' as u8), ('1' as u8)) {
            Some(Comp::DecD)
        } else if eq3(s, ('A' as u8), ('-' as u8), ('1' as u8)) {
            Some(Comp::DecA)
        } else if eq3(s, ('M' as u8), ('-' as u8), ('1' as u8)) {
            Some(Comp::DecM)
        } else if eq3(s, ('D' as u8), ('+' as u8), ('A' as u8)) {
            Some(Comp::DPlusA)
        } else if eq3(s, ('D' as u8), ('+' as u8), ('M' as u8)) {
            Some(Comp::DPlusM)
        } else if eq3(s, ('D' as u8), ('-' as u8), ('A' as u8)) {
            Some(Comp::DMinusA)
        } else if eq3(s, ('D' as u8), ('-' as u8), ('M' as u8)) {
            Some(Comp::DMinusM)
        } else if eq3(s, ('A' as u8), ('-' as u8), ('D' as u8)) {
            Some(Comp::AMinusD)
        } else if eq3(s, ('M' as u8), ('-' as u8), ('D' as u8)) {
            Some(Comp::MMinusD)
        } else if eq3(s, ('D' as u8), ('&' as u8), ('A' as u8)) {
            Some(Comp::DAndA)
        } else if eq3(s, ('D' as u8), ('&' as u8), ('M' as u8)) {
            Some(Comp::DAndM)
        } else if eq3(s, ('D' as u8), ('|' as u8), ('A' as u8)) {
            Some(Comp::DOrA)
        } else if eq3(s, ('D' as u8), ('|' as u8), ('M' as u8)) {
            Some(Comp::DOrM)
        } else {
            None
        }
    }

    /// The seven computation bits, addressing-mode bit first.
    pub fn bits(&self) -> (r: u16)
        ensures
            r == comp_bits(*self),
            r <= 0b1110111,
    {
        match self {
            Comp::Zero => 0b0101010,
            Comp::One => 0b0111111,
            Comp::NegOne => 0b0111010,
            Comp::D => 0b0001100,
            Comp::A => 0b0110000,
            Comp::M => 0b1110000,
            Comp::NotD => 0b0001101,
            Comp::NotA => 0b0110001,
            Comp::NotM => 0b1110001,
            Comp::NegD => 0b0001111,
            Comp::NegA => 0b0110011,
            Comp::NegM => 0b1110011,
            Comp::IncD => 0b0011111,
            Comp::IncA => 0b0110111,
            Comp::IncM => 0b1110111,
            Comp::DecD => 0b0001110,
            Comp::DecA => 0b0110010,
            Comp::DecM => 0b1110010,
            Comp::DPlusA => 0b0000010,
            Comp::DPlusM => 0b1000010,
            Comp::DMinusA => 0b0010011,
            Comp::DMinusM => 0b1010011,
            Comp::AMinusD => 0b0000111,
            Comp::MMinusD => 0b1000111,
            Comp::DAndA => 0b0000000,
            Comp::DAndM => 0b1000000,
            Comp::DOrA => 0b0010101,
            Comp::DOrM => 0b1010101,
        }
    }
}

/// Round trip of the computation bits: decoding the encoded seven bits
/// yields the original computation, for each of the 28 forms.
pub proof fn lemma_comp_bits_roundtrip(c: Comp)
    ensures
        comp_bits(c) <= 0b1110111,
        comp_of_bits(comp_bits(c)) == Some(c),
{
}


/// Look up the computation encoded by the seven bits `b`, if any.
pub fn comp_from_bits(b: u16) -> (r: Option<Comp>)
    ensures
        r == comp_of_bits(b),
{
    if b == 0b0101010 {
        Some(Comp::Zero)
    } else if b == 0b0111111 {
        Some(Comp::One)
    } else if b == 0b0111010 {
        Some(Comp::NegOne)
    } else if b == 0b0001100 {
        Some(Comp::D)
    } else if b == 0b0110000 {
        Some(Comp::A)
    } else if b == 0b1110000 {
        Some(Comp::M)
    } else if b == 0b0001101 {
        Some(Comp::NotD)
    } else if b == 0b0110001 {
        Some(Comp::NotA)
    } else if b == 0b1110001 {
        Some(Comp::NotM)
    } else if b == 0b0001111 {
        Some(Comp::NegD)
    } else if b == 0b0110011 {
        Some(Comp::NegA)
    } else if b == 0b1110011 {
        Some(Comp::NegM)
    } else if b == 0b0011111 {
        Some(Comp::IncD)
    } else if b == 0b0110111 {
        Some(Comp::IncA)
    } else if b == 0b1110111 {
        Some(Comp::IncM)
    } else if b == 0b0001110 {
        Some(Comp::DecD)
    } else if b == 0b0110010 {
        Some(Comp::DecA)
    } else if b == 0b1110010 {
        Some(Comp::DecM)
    } else if b == 0b0000010 {
        Some(Comp::DPlusA)
    } else if b == 0b1000010 {
        Some(Comp::DPlusM)
    } else if b == 0b0010011 {
        Some(Comp::DMinusA)
    } else if b == 0b1010011 {
        Some(Comp::DMinusM)
    } else if b == 0b0000111 {
        Some(Comp::AMinusD)
    } else if b == 0b1000111 {
        Some(Comp::MMinusD)
    } else if b == 0b0000000 {
        Some(Comp::DAndA)
    } else if b == 0b1000000 {
        Some(Comp::DAndM)
    } else if b == 0b0010101 {
        Some(Comp::DOrA)
    } else if b == 0b1010101 {
        Some(Comp::DOrM)
    } else {
        None
    }
}

/// The eight jump conditions.
#[derive(Clone, Copy, Debug, PartialEq, Eq, Structural)]
pub enum Jump {
    /// Never jump.
    Never,
    /// Jump if the result is greater than zero.
    JGT,
    /// Jump if the result is zero.
    JEQ,
    /// Jump if the result is at least zero.
    JGE,
    /// Jump if the result is less than zero.
    JLT,
    /// Jump if the result is not zero.
    JNE,
    /// Jump if the result is at most zero.
    JLE,
    /// Always jump.
    JMP,
}

/// The jump condition encoded by a mnemonic. Any text other than the
/// seven jump forms, the empty text included, means "never jump": an
/// unrecognized jump mnemonic is tolerated, not an error.
pub open spec fn jump_of(s: Seq<u8>) -> Jump {
    if s == seq![('J' as u8), ('G' as u8), ('T' as u8)] {
        Jump::JGT
    } else if s == seq![('J' as u8), ('E' as u8), ('Q' as u8)] {
        Jump::JEQ
    } else if s == seq![('J' as u8), ('G' as u8), ('E' as u8)] {
        Jump::JGE
    } else if s == seq![('J' as u8), ('L' as u8), ('T' as u8)] {
        Jump::JLT
    } else if s == seq![('J' as u8), ('N' as u8), ('E' as u8)] {
        Jump::JNE
    } else if s == seq![('J' as u8), ('L' as u8), ('E' as u8)] {
        Jump::JLE
    } else if s == seq![('J' as u8), ('M' as u8), ('P' as u8)] {
        Jump::JMP
    } else {
        Jump::Never
    }
}

/// The three jump bits.
pub open spec fn jump_bits(j: Jump) -> u16 {
    match j {
        Jump::Never => 0,
        Jump::JGT => 1,
        Jump::JEQ => 2,
        Jump::JGE => 3,
        Jump::JLT => 4,
        Jump::JNE => 5,
        Jump::JLE => 6,
        Jump::JMP => 7,
    }
}

/// The jump condition selected by the low three bits of `b`.
pub open spec fn jump_of_bits(b: u16) -> Jump {
    if b % 8 == 1 {
        Jump::JGT
    } else if b % 8 == 2 {
        Jump::JEQ
    } else if b % 8 == 3 {
        Jump::JGE
    } else if b % 8 == 4 {
        Jump::JLT
    } else if b % 8 == 5 {
        Jump::JNE
    } else if b % 8 == 6 {
        Jump::JLE
    } else if b % 8 == 7 {
        Jump::JMP
    } else {
        Jump::Never
    }
}

impl Jump {
    /// Read a jump mnemonic; unrecognized text means "never jump".
    pub fn from_str(s: &Vec<u8>) -> (r: Jump)
        ensures
            r == jump_of(s@),
    {
        if eq3(s, ('J' as u8), ('G' as u8), ('T' as u8)) {
            Jump::JGT
        } else if eq3(s, ('J' as u8), ('E' as u8), ('Q' as u8)) {
            Jump::JEQ
        } else if eq3(s, ('J' as u8), ('G' as u8), ('E' as u8)) {
            Jump::JGE
        } else if eq3(s, ('J' as u8), ('L' as u8), ('T' as u8)) {
            Jump::JLT
        } else if eq3(s, ('J' as u8), ('N' as u8), ('E' as u8)) {
            Jump::JNE
        } else if eq3(s, ('J' as u8), ('L' as u8), ('E' as u8)) {
            Jump::JLE
        } else if eq3(s, ('J' as u8), ('M' as u8), ('P' as u8)) {
            Jump::JMP
        } else {
            Jump::Never
        }
    }

    /// The three jump bits.
    pub fn bits(&self) -> (r: u16)
        ensures
            r == jump_bits(*self),
            r <= 7,
    {
        match self {
            Jump::Never => 0,
            Jump::JGT => 1,
            Jump::JEQ => 2,
            Jump::JGE => 3,
            Jump::JLT => 4,
            Jump::JNE => 5,
            Jump::JLE => 6,
            Jump::JMP => 7,
        }
    }
}

/// Round trip of the jump bits: decoding the encoded three bits yields
/// the original jump condition.
pub proof fn lemma_jump_bits_roundtrip(j: Jump)
    ensures
        jump_bits(j) <= 7,
        jump_of_bits(jump_bits(j)) == j,
{
}


/// Look up the jump condition encoded by the low three bits of `b`.
pub fn jump_from_bits(b: u16) -> (r: Jump)
    ensures
        r == jump_of_bits(b),
{
    let k = b % 8;
    if k == 1 {
        Jump::JGT
    } else if k == 2 {
        Jump::JEQ
    } else if k == 3 {
        Jump::JGE
    } else if k == 4 {
        Jump::JLT
    } else if k == 5 {
        Jump::JNE
    } else if k == 6 {
        Jump::JLE
    } else if k == 7 {
        Jump::JMP
    } else {
        Jump::Never
    }
}

/// A fully decoded compute instruction.
#[derive(Clone, Copy, Debug, PartialEq, Eq, Structural)]
pub struct CompInstr {
    /// Where the computed value is written.
    pub dest: Dest,
    /// The ALU computation.
    pub comp: Comp,
    /// When to jump.
    pub jump: Jump,
}

/// The three fields of the compute line `op`, of the shape
/// `[dest=]comp[;jump]`: the text before the first `=` (if any) names the
/// destination, the text after the first `;` (if any) names the jump
/// condition, and the rest must name a computation.
pub open spec fn comp_fields(op: Seq<u8>) -> Option<CompInstr> {
    let eqp = crate::text::find_pos(op, ('=' as u8), 0);
    let dest = if eqp < op.len() {
        dest_of(op.subrange(0, eqp))
    } else {
        Dest { a: false, d: false, m: false }
    };
    let rest = if eqp < op.len() {
        op.subrange(eqp + 1, op.len() as int)
    } else {
        op
    };
    let semip = crate::text::find_pos(rest, (';' as u8), 0);
    let jump = if semip < rest.len() {
        jump_of(rest.subrange(semip + 1, rest.len() as int))
    } else {
        Jump::Never
    };
    match comp_of(rest.subrange(0, semip)) {
        Some(c) => Some(CompInstr { dest, comp: c, jump }),
        None => None,
    }
}

/// Split a compute line into its three fields. Fails exactly when the
/// computation mnemonic is unrecognized; a missing destination writes
/// nowhere and a missing or unrecognized jump mnemonic never jumps.
pub fn parse_comp_line(op: &Vec<u8>) -> (r: Result<CompInstr, AsmError>)
    ensures
        match comp_fields(op@) {
            Some(ci) => r == Ok::<CompInstr, AsmError>(ci),
            None => r == Err::<CompInstr, AsmError>(AsmError::UnknownComp),
        },
{
    let eqp = find_byte(op, ('=' as u8), 0);
    let dest: Dest;
    let rest: Vec<u8>;
    if eqp < op.len() {
        let dest_txt = copy_range(op, 0, eqp);
        dest = Dest::from_str(&dest_txt);
        rest = copy_range(op, eqp + 1, op.len());
    } else {
        dest = Dest::none();
        rest = copy_range(op, 0, op.len());
        proof {
            assert(rest@ =~= op@);
        }
    }
    let semip = find_byte(&rest, (';' as u8), 0);
    let jump: Jump;
    if semip < rest.len() {
        let jump_txt = copy_range(&rest, semip + 1, rest.len());
        jump = Jump::from_str(&jump_txt);
    } else {
        jump = Jump::Never;
    }
    let comp_txt = copy_range(&rest, 0, semip);
    match Comp::from_str(&comp_txt) {
        Some(c) => Ok(CompInstr { dest, comp: c, jump }),
        None => Err(AsmError::UnknownComp),
    }
}

} // verus!
