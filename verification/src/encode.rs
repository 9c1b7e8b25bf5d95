//! Encoding of instructions into 16-bit machine words and of words into
//! their 16-character binary text form, together with the decoder that
//! inverts the compute-instruction encoding.
//!
//! An address instruction encodes as its 15-bit address with the top bit
//! clear. A compute instruction has bits 15-13 set to `111`, bit 12 the
//! addressing-mode bit, bits 11-6 the ALU control bits, bits 5-3 the
//! destination write-bits and bits 2-0 the jump condition.

use crate::mnemonic::{
    comp_bits, comp_of_bits, dest_bits, dest_of_bits, jump_bits, jump_of_bits,
    lemma_comp_bits_roundtrip, lemma_dest_bits_roundtrip, lemma_jump_bits_roundtrip, CompInstr,
};
use vstd::arithmetic::power2::{lemma2_to64, pow2};
use vstd::prelude::*;

verus! {

/// The machine word of a compute instruction: `111`, then the seven
/// computation bits, the three destination bits and the three jump bits.
pub open spec fn encode_word(ci: CompInstr) -> u16 {
    (57344 + comp_bits(ci.comp) * 64 + dest_bits(ci.dest) * 8 + jump_bits(ci.jump)) as u16
}

/// Encode a compute instruction as its machine word.
pub fn encode_comp(ci: &CompInstr) -> (w: u16)
    ensures
        w == encode_word(*ci),
{
    let cb = ci.comp.bits();
    let db = ci.dest.bits();
    let jb = ci.jump.bits();
    57344 + cb * 64 + db * 8 + jb
}

/// The compute instruction encoded by `w`, if `w` carries the `111`
/// instruction marker and its computation bits name one of the 28 ALU
/// forms.
pub open spec fn decode_spec(w: u16) -> Option<CompInstr> {
    if w < 57344 {
        None
    } else {
        match comp_of_bits((w / 64) % 128) {
            Some(c) => Some(
                CompInstr { dest: dest_of_bits(w / 8), comp: c, jump: jump_of_bits(w) },
            ),
            None => None,
        }
    }
}

/// Decode a compute-instruction word back into its three fields; `None`
/// for a word that is no compute instruction or whose computation bits
/// match no ALU form.
pub fn decode_word(w: u16) -> (r: Option<CompInstr>)
    ensures
        r == decode_spec(w),
{
    if w < 57344 {
        return None;
    }
    let cb = (w / 64) % 128;
    let db = (w / 8) % 8;
    let jb = w % 8;
    proof {
        assert((w / 8) / 4 % 2 == db / 4 % 2 && (w / 8) / 2 % 2 == db / 2 % 2 && (w / 8) % 2 == db
            % 2) by (bit_vector)
            requires
                db == (w / 8) % 8,
        ;
        assert(jump_of_bits(w) == jump_of_bits(jb)) by {
            assert(w % 8 == jb % 8);
        }
    }
    let comp = match crate::mnemonic::comp_from_bits(cb) {
        Some(c) => c,
        None => {
            return None;
        },
    };
    let dest = crate::mnemonic::Dest { a: db / 4 % 2 == 1, d: db / 2 % 2 == 1, m: db % 2 == 1 };
    let jump = crate::mnemonic::jump_from_bits(jb);
    Some(CompInstr { dest, comp, jump })
}

/// Round trip of the whole compute encoding: decoding an encoded
/// instruction word recovers the original destination, computation and
/// jump fields, for every one of the legal combinations.
pub proof fn lemma_encode_decode(ci: CompInstr)
    ensures
        decode_spec(encode_word(ci)) == Some(ci),
{
    let cb = comp_bits(ci.comp);
    let db = dest_bits(ci.dest);
    let jb = jump_bits(ci.jump);
    lemma_comp_bits_roundtrip(ci.comp);
    lemma_dest_bits_roundtrip(ci.dest);
    lemma_jump_bits_roundtrip(ci.jump);
    let w = encode_word(ci);
    assert(w == 57344 + cb * 64 + db * 8 + jb);
    assert(w >= 57344 && (w / 64) % 128 == cb && (w / 8) / 4 % 2 == db / 4 % 2 && (w / 8) / 2 % 2
        == db / 2 % 2 && (w / 8) % 2 == db % 2 && w % 8 == jb) by (bit_vector)
        requires
            w == 57344 + cb * 64 + db * 8 + jb,
            cb <= 119,
            db <= 7,
            jb <= 7,
    ;
    assert(comp_of_bits((w / 64) % 128) == Some(ci.comp));
    assert(dest_of_bits(w / 8) == ci.dest);
    assert(jump_of_bits(w) == jump_of_bits(jb)) by {
        assert(w % 8 == jb % 8);
    }
}

/// The byte `'1'` if bit `k` of `w` is set, else the byte `'0'`.
pub open spec fn bit_byte(w: u16, k: int) -> u8 {
    if (w as nat / pow2(k as nat)) % 2 == 1 {
        49
    } else {
        48
    }
}

/// The 16-character binary text of one machine word, most significant
/// bit first.
pub open spec fn word_bits(w: u16) -> Seq<u8> {
    Seq::new(16, |i: int| bit_byte(w, 15 - i))
}

/// Append the binary text of `w` and a trailing newline to `out`.
pub fn push_word_text(out: &mut Vec<u8>, w: u16)
    ensures
        final(out)@ == old(out)@ + word_bits(w) + seq![10u8],
{
    proof {
        lemma2_to64();
    }
    let ghost base = out@;
    let mut d: u16 = 32768;
    let mut i: usize = 0;
    while i < 16
        invariant
            0 <= i <= 16,
            d as nat == pow2((15 - (if i < 16 {
                i as int
            } else {
                15
            })) as nat),
            out@ == base + word_bits(w).subrange(0, i as int),
        decreases 16 - i,
    {
        proof {
            lemma2_to64();
        }
        let bit = (w / d) % 2;
        let b: u8 = if bit == 1 {
            49
        } else {
            48
        };
        proof {
            assert(b == bit_byte(w, 15 - i as int));
            assert(word_bits(w).subrange(0, i as int + 1) =~= word_bits(w).subrange(0, i as int)
                + seq![bit_byte(w, 15 - i as int)]);
        }
        out.push(b);
        if i < 15 {
            d = d / 2;
        }
        i = i + 1;
    }
    proof {
        assert(word_bits(w).subrange(0, 16) =~= word_bits(w));
    }
    out.push(10);
}

/// The output text of a word sequence: each word's 16 binary characters,
/// each line newline-terminated, in order.
pub open spec fn text_of_words(ws: Seq<u16>, from: int) -> Seq<u8>
    decreases ws.len() - from,
{
    if from < 0 || from >= ws.len() {
        Seq::empty()
    } else {
        word_bits(ws[from]) + seq![10u8] + text_of_words(ws, from + 1)
    }
}

/// Render a whole word sequence as newline-terminated binary text lines.
pub fn words_to_text(ws: &Vec<u16>) -> (out: Vec<u8>)
    ensures
        out@ == text_of_words(ws@, 0),
{
    let mut out: Vec<u8> = Vec::new();
    let mut i: usize = 0;
    while i < ws.len()
        invariant
            0 <= i <= ws.len(),
            text_of_words(ws@, 0) == out@ + text_of_words(ws@, i as int),
        decreases ws.len() - i,
    {
        let ghost before = out@;
        push_word_text(&mut out, ws[i]);
        proof {
            assert(before + (word_bits(ws@[i as int]) + seq![10u8] + text_of_words(
                ws@,
                i as int + 1,
            )) =~= out@ + text_of_words(ws@, i as int + 1));
        }
        i = i + 1;
    }
    proof {
        assert(out@ + text_of_words(ws@, i as int) =~= out@);
    }
    out
}

} // verus!
