use copper::enums::{Instruction, Label, Parameter, Register, Variable};
use copper::error::Error;
use copper::file::{Item, LineCategory, LineType};
use copper::instruction::Shape;

fn t(n: u8) -> Register {
    Register::from_index(n).unwrap()
}

fn var(n: u16) -> Variable {
    Variable { name: n }
}

fn lab(n: u16) -> Label {
    Label { name: n }
}

fn samples() -> Vec<Parameter> {
    vec![
        Parameter::Register(Register::T0),
        Parameter::Register(Register::T1),
        Parameter::Register(Register::T2),
        Parameter::Register(Register::T3),
        Parameter::Variable(var(0)),
        Parameter::Variable(var(1)),
        Parameter::Variable(var(512)),
        Parameter::Variable(var(1023)),
        Parameter::Constant(0),
        Parameter::Constant(7),
        Parameter::Constant(1023),
    ]
}

#[test]
fn register_numbers() {
    assert_eq!(Register::T0.index(), 0);
    assert_eq!(Register::T1.index(), 1);
    assert_eq!(Register::T2.index(), 2);
    assert_eq!(Register::T3.index(), 3);
    for n in 0..4u8 {
        assert_eq!(t(n).index(), n);
    }
    assert_eq!(Register::from_index(4), None);
    assert_eq!(Register::from_index(255), None);
}

#[test]
fn operand_bits() {
    assert_eq!(Parameter::Register(Register::T0).encode(), 0b00_00_0000_0000);
    assert_eq!(Parameter::Register(Register::T2).encode(), 0b00_10_0000_0000);
    assert_eq!(Parameter::Register(Register::T3).encode(), 0b00_11_0000_0000);
    assert_eq!(Parameter::Variable(var(5)).encode(), 0b01_00_0000_0101);
    assert_eq!(Parameter::Variable(var(1023)).encode(), 0b01_11_1111_1111);
    assert_eq!(Parameter::Constant(7).encode(), 0b10_00_0000_0111);
    assert_eq!(Parameter::Constant(1023).encode(), 0b10_11_1111_1111);
}

#[test]
fn operand_that_is_too_large_loses_its_high_bits() {
    assert_eq!(Parameter::Constant(1024 + 7).encode(), 0b10_00_0000_0111);
    assert_eq!(Parameter::Variable(var(2048 + 3)).encode(), 0b01_00_0000_0011);
}

#[test]
fn operand_round_trip() {
    for p in samples() {
        assert_eq!(Parameter::decode(p.encode()), Ok(p));
    }
}

#[test]
fn operand_with_an_unknown_tag() {
    assert_eq!(Parameter::decode(0b11_00_0000_0000), Err(Error::MalformedBinary));
    assert_eq!(Parameter::decode(0b11_11_1111_1111), Err(Error::MalformedBinary));
    assert_eq!(Parameter::decode(0x1000), Err(Error::MalformedBinary));
    assert_eq!(Parameter::decode(0xffff_ffff), Err(Error::MalformedBinary));
}

#[test]
fn register_operand_ignores_its_low_bits() {
    assert_eq!(Parameter::decode(0b00_01_1010_0101), Ok(Parameter::Register(Register::T1)));
}

#[test]
fn instruction_words() {
    let seven = Parameter::Constant(7);
    assert_eq!(Instruction::LDA(Register::T0, seven).encode(), 0x0100_E000);
    assert_eq!(Instruction::LDA(Register::T0, Parameter::Variable(var(0))).encode(), 0x0080_0000);
    assert_eq!(
        Instruction::LDA(Register::T1, Parameter::Register(Register::T2)).encode(),
        0x0240_0000
    );
    assert_eq!(Instruction::STR(var(0), Parameter::Register(Register::T0)).encode(), 0x0800_0000);
    assert_eq!(Instruction::STR(var(3), Parameter::Constant(1)).encode(), 0x0807_0020);
    assert_eq!(Instruction::PUSH(Parameter::Constant(10)).encode(), 0x1405_0000);
    assert_eq!(Instruction::POP(Register::T3).encode(), 0x1E00_0000);
    assert_eq!(Instruction::AND(Register::T0, seven).encode(), 0x2100_E000);
    assert_eq!(Instruction::OR(Register::T0, seven).encode(), 0x2900_E000);
    assert_eq!(Instruction::NOT(Register::T1).encode(), 0x3200_0000);
    assert_eq!(Instruction::ADD(Register::T0, Parameter::Constant(3)).encode(), 0x3900_6000);
    assert_eq!(Instruction::SUB(Register::T0, seven).encode(), 0x4100_E000);
    assert_eq!(Instruction::DIV(Register::T0, seven).encode(), 0x4900_E000);
    assert_eq!(Instruction::MUL(Register::T0, seven).encode(), 0x5100_E000);
    assert_eq!(Instruction::MOD(Register::T0, seven).encode(), 0x5900_E000);
    assert_eq!(Instruction::INC(Register::T2).encode(), 0x6400_0000);
    assert_eq!(Instruction::DEC(Register::T2).encode(), 0x6C00_0000);
    assert_eq!(
        Instruction::BEQ(Parameter::Register(Register::T0), Parameter::Constant(1), lab(0)).encode(),
        0x7000_4008
    );
    assert_eq!(
        Instruction::BNE(Parameter::Register(Register::T0), Parameter::Constant(1), lab(7)).encode(),
        0x7800_400F
    );
    assert_eq!(
        Instruction::BSM(Parameter::Register(Register::T0), Parameter::Constant(1), lab(1)).encode(),
        0x8000_4009
    );
    assert_eq!(
        Instruction::BBG(Parameter::Register(Register::T0), Parameter::Constant(1), lab(2)).encode(),
        0x8800_400A
    );
    assert_eq!(Instruction::JMP(lab(3)).encode(), 0x9300_0000);
    assert_eq!(Instruction::SRL(Register::T1, 4).encode(), 0x9A02_0000);
    assert_eq!(Instruction::SRR(Register::T1, 4).encode(), 0xA202_0000);
    assert_eq!(Instruction::HLT.encode(), 0xA800_0000);
    assert_eq!(Instruction::IN(Parameter::Register(Register::T0)).encode(), 0xB000_0000);
    assert_eq!(Instruction::OUT(Parameter::Constant(10)).encode(), 0xBC05_0000);
    assert_eq!(Instruction::LABEL(lab(3)).encode(), 0xF300_0000);
    assert_eq!(Instruction::VARIABLE(var(0), 5).encode(), 0x0000_2800);
    assert_eq!(Instruction::VARIABLE(var(1), 0).encode(), 0x0020_0000);
    assert_eq!(Instruction::ARRAY(var(2), 9, 3).encode(), 0x8040_1812);
}

fn code_samples() -> Vec<Instruction> {
    let mut all = Vec::new();
    for r in 0..4u8 {
        all.push(Instruction::POP(t(r)));
        all.push(Instruction::NOT(t(r)));
        all.push(Instruction::INC(t(r)));
        all.push(Instruction::DEC(t(r)));
        for k in [0u16, 1, 31, 32, 1023] {
            all.push(Instruction::SRL(t(r), k));
            all.push(Instruction::SRR(t(r), k));
        }
        for p in samples() {
            all.push(Instruction::LDA(t(r), p));
            all.push(Instruction::AND(t(r), p));
            all.push(Instruction::OR(t(r), p));
            all.push(Instruction::ADD(t(r), p));
            all.push(Instruction::SUB(t(r), p));
            all.push(Instruction::DIV(t(r), p));
            all.push(Instruction::MUL(t(r), p));
            all.push(Instruction::MOD(t(r), p));
        }
    }
    for p in samples() {
        all.push(Instruction::PUSH(p));
        all.push(Instruction::IN(p));
        all.push(Instruction::OUT(p));
        for v in [0u16, 1, 1023] {
            all.push(Instruction::STR(var(v), p));
        }
        for q in samples() {
            for l in [0u16, 5, 7] {
                all.push(Instruction::BEQ(p, q, lab(l)));
                all.push(Instruction::BNE(p, q, lab(l)));
                all.push(Instruction::BSM(p, q, lab(l)));
                all.push(Instruction::BBG(p, q, lab(l)));
            }
        }
    }
    for l in 0..8u16 {
        all.push(Instruction::JMP(lab(l)));
        all.push(Instruction::LABEL(lab(l)));
    }
    all.push(Instruction::HLT);
    all
}

#[test]
fn code_round_trip() {
    for i in code_samples() {
        assert_eq!(Instruction::decode_code(i.encode()), Ok(i));
    }
}

#[test]
fn data_round_trip() {
    for v in [0u16, 1, 959, 960, 1023] {
        for value in [0u32, 1, 1023] {
            let i = Instruction::VARIABLE(var(v), value);
            assert_eq!(Instruction::decode_data(i.encode()), i);
            for length in [0u16, 1, 2, 1023] {
                let i = Instruction::ARRAY(var(v), value, length);
                assert_eq!(Instruction::decode_data(i.encode()), i);
            }
        }
    }
}

#[test]
fn free_bits_are_zero_on_encode_and_ignored_on_decode() {
    assert_eq!(Instruction::HLT.encode() & 0x07ff_ffff, 0);
    assert_eq!(Instruction::POP(Register::T3).encode() & 0x01ff_ffff, 0);
    assert_eq!(Instruction::JMP(lab(7)).encode() & 0x00ff_ffff, 0);
    assert_eq!(Instruction::LDA(Register::T3, Parameter::Constant(1023)).encode() & 0x1fff, 0);
    assert_eq!(Instruction::STR(var(1023), Parameter::Constant(1023)).encode() & 0x1f, 0);
    assert_eq!(Instruction::PUSH(Parameter::Constant(1023)).encode() & 0x7fff, 0);
    assert_eq!(Instruction::SRL(Register::T3, 1023).encode() & 0x7fff, 0);
    assert_eq!(Instruction::VARIABLE(var(1023), 1023).encode() & 0x7ff, 0);
    assert_eq!(Instruction::ARRAY(var(1023), 1023, 1023).encode() & 1, 0);

    assert_eq!(Instruction::decode_code(0xA800_0000 | 0x07ff_ffff), Ok(Instruction::HLT));
    assert_eq!(Instruction::decode_code(0x1E00_0000 | 0x01ff_ffff), Ok(Instruction::POP(Register::T3)));
    assert_eq!(Instruction::decode_code(0x9300_0000 | 0x00ab_cdef), Ok(Instruction::JMP(lab(3))));
    assert_eq!(
        Instruction::decode_code(0x0100_E000 | 0x1fff),
        Ok(Instruction::LDA(Register::T0, Parameter::Constant(7)))
    );
    assert_eq!(Instruction::decode_data(0x0000_2800 | 0x7ff), Instruction::VARIABLE(var(0), 5));
    assert_eq!(Instruction::decode_data(0x8040_1812 | 1), Instruction::ARRAY(var(2), 9, 3));
}

#[test]
fn unknown_opcodes() {
    for opcode in [0b11000u32, 0b11001, 0b11010, 0b11011, 0b11100, 0b11101, 0b11111] {
        assert_eq!(Instruction::decode_code(opcode << 27), Err(Error::MalformedBinary));
        assert_eq!(Shape::from_opcode(opcode), None);
    }
}

#[test]
fn operand_tag_in_an_instruction() {
    // LDA T0 with an operand of tag 11
    assert_eq!(Instruction::decode_code(0b11 << 23), Err(Error::MalformedBinary));
    // BEQ with a second operand of tag 11
    assert_eq!(Instruction::decode_code(0x7000_0000 | (0b11 << 13)), Err(Error::MalformedBinary));
    // PUSH with an operand of tag 11
    assert_eq!(Instruction::decode_code(0x1000_0000 | (0b11 << 25)), Err(Error::MalformedBinary));
}

#[test]
fn shapes() {
    assert_eq!(Shape::from_opcode(0b00000), Some(Shape::RegisterOperand));
    assert_eq!(Shape::from_opcode(0b00001), Some(Shape::Store));
    assert_eq!(Shape::from_opcode(0b00010), Some(Shape::Operand));
    assert_eq!(Shape::from_opcode(0b00011), Some(Shape::Register));
    assert_eq!(Shape::from_opcode(0b01110), Some(Shape::Branch));
    assert_eq!(Shape::from_opcode(0b10010), Some(Shape::Jump));
    assert_eq!(Shape::from_opcode(0b11110), Some(Shape::Jump));
    assert_eq!(Shape::from_opcode(0b10011), Some(Shape::Shift));
    assert_eq!(Shape::from_opcode(0b10101), Some(Shape::Halt));
    assert_eq!(Shape::from_opcode(32), None);
}

#[test]
fn section_markers() {
    assert_eq!(LineCategory::DATA.word(), Some(0xF800_0000));
    assert_eq!(LineCategory::CODE.word(), Some(0xFA00_0000));
    assert_eq!(LineCategory::NONE.word(), None);
    assert_eq!(LineType::Bin(0xF800_0000).get_category(), Ok(LineCategory::DATA));
    assert_eq!(LineType::Bin(0xFA00_0000).get_category(), Ok(LineCategory::CODE));
    assert_eq!(LineType::Bin(0xF9ff_ffff).get_category(), Ok(LineCategory::DATA));
    assert_eq!(LineType::Bin(0xFC00_0000).get_category(), Err(Error::MalformedBinary));
    assert_eq!(LineType::Bin(0xFE00_0000).get_category(), Err(Error::MalformedBinary));
    assert_eq!(LineType::Bin(0xA800_0000).get_category(), Err(Error::MalformedBinary));
    for c in [LineCategory::DATA, LineCategory::CODE] {
        assert_eq!(LineType::Bin(c.word().unwrap()).get_category(), Ok(c));
        assert!(LineType::Bin(c.word().unwrap()).is_category());
    }
}

#[test]
fn item_words() {
    assert_eq!(Item::Section(LineCategory::CODE).encode(), 0xFA00_0000);
    assert_eq!(Item::Section(LineCategory::DATA).encode(), 0xF800_0000);
    assert_eq!(Item::Line(Instruction::HLT).encode(), 0xA800_0000);
}
