use hack_assembler::encode::{decode_word, encode_comp};
use hack_assembler::mnemonic::{Comp, CompInstr, Dest, Jump};

fn all_comps() -> Vec<Comp> {
    vec![
        Comp::Zero,
        Comp::One,
        Comp::NegOne,
        Comp::D,
        Comp::A,
        Comp::M,
        Comp::NotD,
        Comp::NotA,
        Comp::NotM,
        Comp::NegD,
        Comp::NegA,
        Comp::NegM,
        Comp::IncD,
        Comp::IncA,
        Comp::IncM,
        Comp::DecD,
        Comp::DecA,
        Comp::DecM,
        Comp::DPlusA,
        Comp::DPlusM,
        Comp::DMinusA,
        Comp::DMinusM,
        Comp::AMinusD,
        Comp::MMinusD,
        Comp::DAndA,
        Comp::DAndM,
        Comp::DOrA,
        Comp::DOrM,
    ]
}

fn all_jumps() -> Vec<Jump> {
    vec![
        Jump::Never,
        Jump::JGT,
        Jump::JEQ,
        Jump::JGE,
        Jump::JLT,
        Jump::JNE,
        Jump::JLE,
        Jump::JMP,
    ]
}

fn all_dests() -> Vec<Dest> {
    let mut v = Vec::new();
    for bits in 0..8u16 {
        v.push(Dest { a: bits & 4 != 0, d: bits & 2 != 0, m: bits & 1 != 0 });
    }
    v
}

#[test]
fn encode_then_decode_recovers_every_combination() {
    let mut seen = 0;
    for comp in all_comps() {
        for dest in all_dests() {
            for jump in all_jumps() {
                let ci = CompInstr { dest, comp, jump };
                let w = encode_comp(&ci);
                assert_eq!(decode_word(w), Some(ci));
                seen += 1;
            }
        }
    }
    assert_eq!(seen, 28 * 8 * 8);
}

#[test]
fn encoded_words_carry_the_instruction_marker() {
    for comp in all_comps() {
        let ci = CompInstr {
            dest: Dest { a: false, d: false, m: false },
            comp,
            jump: Jump::Never,
        };
        let w = encode_comp(&ci);
        assert_eq!(w >> 13, 0b111);
    }
}

#[test]
fn known_words_encode_exactly() {
    let ci = CompInstr { dest: Dest { a: false, d: true, m: false }, comp: Comp::A, jump: Jump::Never };
    assert_eq!(encode_comp(&ci), 0b1110110000010000);
    let ci = CompInstr { dest: Dest { a: false, d: false, m: true }, comp: Comp::D, jump: Jump::Never };
    assert_eq!(encode_comp(&ci), 0b1110001100001000);
    let ci = CompInstr { dest: Dest { a: false, d: false, m: false }, comp: Comp::Zero, jump: Jump::JMP };
    assert_eq!(encode_comp(&ci), 0b1110101010000111);
    let ci = CompInstr { dest: Dest { a: true, d: true, m: true }, comp: Comp::DOrM, jump: Jump::JLE };
    assert_eq!(encode_comp(&ci), 0b1111010101111110);
}

#[test]
fn address_words_decode_to_nothing() {
    assert_eq!(decode_word(0), None);
    assert_eq!(decode_word(2), None);
    assert_eq!(decode_word(0b0111111111111111), None);
}

#[test]
fn words_with_unused_computation_bits_decode_to_nothing() {
    // 0b0001000 is none of the 28 computation encodings.
    let w = 0b1110001000000000u16;
    assert_eq!(decode_word(w), None);
}
