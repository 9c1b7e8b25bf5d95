use hack_assembler::mnemonic::{Comp, CompInstr, Dest, Jump};

fn comp_cases() -> Vec<(&'static str, Comp, u16)> {
    vec![
        ("0", Comp::Zero, 0b0101010),
        ("1", Comp::One, 0b0111111),
        ("-1", Comp::NegOne, 0b0111010),
        ("D", Comp::D, 0b0001100),
        ("A", Comp::A, 0b0110000),
        ("M", Comp::M, 0b1110000),
        ("!D", Comp::NotD, 0b0001101),
        ("!A", Comp::NotA, 0b0110001),
        ("!M", Comp::NotM, 0b1110001),
        ("-D", Comp::NegD, 0b0001111),
        ("-A", Comp::NegA, 0b0110011),
        ("-M", Comp::NegM, 0b1110011),
        ("D+1", Comp::IncD, 0b0011111),
        ("A+1", Comp::IncA, 0b0110111),
        ("M+1", Comp::IncM, 0b1110111),
        ("D-1", Comp::DecD, 0b0001110),
        ("A-1", Comp::DecA, 0b0110010),
        ("M-1", Comp::DecM, 0b1110010),
        ("D+A", Comp::DPlusA, 0b0000010),
        ("D+M", Comp::DPlusM, 0b1000010),
        ("D-A", Comp::DMinusA, 0b0010011),
        ("D-M", Comp::DMinusM, 0b1010011),
        ("A-D", Comp::AMinusD, 0b0000111),
        ("M-D", Comp::MMinusD, 0b1000111),
        ("D&A", Comp::DAndA, 0b0000000),
        ("D&M", Comp::DAndM, 0b1000000),
        ("D|A", Comp::DOrA, 0b0010101),
        ("D|M", Comp::DOrM, 0b1010101),
    ]
}

fn jump_cases() -> Vec<(&'static str, Jump, u16)> {
    vec![
        ("JGT", Jump::JGT, 1),
        ("JEQ", Jump::JEQ, 2),
        ("JGE", Jump::JGE, 3),
        ("JLT", Jump::JLT, 4),
        ("JNE", Jump::JNE, 5),
        ("JLE", Jump::JLE, 6),
        ("JMP", Jump::JMP, 7),
    ]
}

#[test]
fn all_computation_mnemonics_parse() {
    let cases = comp_cases();
    assert_eq!(cases.len(), 28);
    for (text, comp, bits) in cases {
        let parsed = Comp::from_str(&text.as_bytes().to_vec());
        assert_eq!(parsed, Some(comp));
        assert_eq!(comp.bits(), bits);
    }
}

#[test]
fn unknown_computation_mnemonics_fail() {
    for text in ["", "2", "D+2", "A+M", "M+A", "d", "D +A", "D+A "] {
        assert_eq!(Comp::from_str(&text.as_bytes().to_vec()), None);
    }
}

#[test]
fn all_jump_mnemonics_parse() {
    for (text, jump, bits) in jump_cases() {
        let parsed = Jump::from_str(&text.as_bytes().to_vec());
        assert_eq!(parsed, jump);
        assert_eq!(jump.bits(), bits);
    }
}

#[test]
fn unknown_jump_mnemonics_mean_never() {
    for text in ["", "JXX", "jmp", "JMPX", "J"] {
        assert_eq!(Jump::from_str(&text.as_bytes().to_vec()), Jump::Never);
    }
    assert_eq!(Jump::Never.bits(), 0);
}

#[test]
fn destination_letters_set_write_bits() {
    let d = Dest::from_str(&"AD".as_bytes().to_vec());
    assert_eq!(d, Dest { a: true, d: true, m: false });
    let d = Dest::from_str(&"M".as_bytes().to_vec());
    assert_eq!(d, Dest { a: false, d: false, m: true });
    let d = Dest::from_str(&"".as_bytes().to_vec());
    assert_eq!(d, Dest { a: false, d: false, m: false });
}

#[test]
fn destination_letter_order_is_irrelevant() {
    let amd = Dest::from_str(&"AMD".as_bytes().to_vec());
    let dma = Dest::from_str(&"DMA".as_bytes().to_vec());
    assert_eq!(amd, dma);
    assert_eq!(amd, Dest { a: true, d: true, m: true });
}

#[test]
fn unrecognized_destination_letters_are_ignored() {
    let d = Dest::from_str(&"XMY".as_bytes().to_vec());
    assert_eq!(d, Dest { a: false, d: false, m: true });
}

#[test]
fn destination_binary_str_prints_the_bits() {
    let cases: Vec<(bool, bool, bool, &'static str)> = vec![
        (false, false, false, "000"),
        (false, false, true, "001"),
        (false, true, false, "010"),
        (false, true, true, "011"),
        (true, false, false, "100"),
        (true, false, true, "101"),
        (true, true, false, "110"),
        (true, true, true, "111"),
    ];
    for (a, d, m, expect) in cases {
        let dest = Dest { a, d, m };
        assert_eq!(dest.binary_str(), expect);
        assert_eq!(dest.bits(), u16::from_str_radix(expect, 2).unwrap());
    }
}

#[test]
fn comp_instr_fields_compare_structurally() {
    let x = CompInstr { dest: Dest { a: false, d: true, m: false }, comp: Comp::A, jump: Jump::Never };
    let y = CompInstr { dest: Dest { a: false, d: true, m: false }, comp: Comp::A, jump: Jump::Never };
    assert_eq!(x, y);
}

