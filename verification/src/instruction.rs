//! Instructions and their 32-bit words.
//!
//! A word of the code section starts with a five-bit opcode; its operands
//! follow from the top down and the rest is zero. A word of the data section
//! starts with one bit that tells a variable from an array.

use vstd::prelude::*;
use crate::bits::{field, get_field, place, put_field};
use crate::enums::{
    lemma_field_bounds, lemma_operand_bits, lemma_operand_round_trip, Label, Parameter,
    Register, Variable, MAX_CONSTANT,
};
use crate::error::Error;

verus! {

/// One line of a program: an operation of the machine, the definition of a
/// label, or the declaration of a variable or an array.
#[derive(Clone, Copy, Debug, PartialEq, Eq, Hash, Structural)]
pub enum Instruction {
    LDA(Register, Parameter),
    STR(Variable, Parameter),
    PUSH(Parameter),
    POP(Register),
    AND(Register, Parameter),
    OR(Register, Parameter),
    NOT(Register),
    ADD(Register, Parameter),
    SUB(Register, Parameter),
    DIV(Register, Parameter),
    MUL(Register, Parameter),
    MOD(Register, Parameter),
    INC(Register),
    DEC(Register),
    BEQ(Parameter, Parameter, Label),
    BNE(Parameter, Parameter, Label),
    BBG(Parameter, Parameter, Label),
    BSM(Parameter, Parameter, Label),
    JMP(Label),
    SRL(Register, u16),
    SRR(Register, u16),
    HLT,
    IN(Parameter),
    OUT(Parameter),
    /// A variable and its initial value.
    VARIABLE(Variable, u32),
    /// An array: its first variable, the initial value of every element, and its length.
    ARRAY(Variable, u32, u16),
    LABEL(Label),
}

/// The opcodes: the five highest bits of a word of the code section.
pub const OP_LDA: u32 = 0b00000;
pub const OP_STR: u32 = 0b00001;
pub const OP_PUSH: u32 = 0b00010;
pub const OP_POP: u32 = 0b00011;
pub const OP_AND: u32 = 0b00100;
pub const OP_OR: u32 = 0b00101;
pub const OP_NOT: u32 = 0b00110;
pub const OP_ADD: u32 = 0b00111;
pub const OP_SUB: u32 = 0b01000;
pub const OP_DIV: u32 = 0b01001;
pub const OP_MUL: u32 = 0b01010;
pub const OP_MOD: u32 = 0b01011;
pub const OP_INC: u32 = 0b01100;
pub const OP_DEC: u32 = 0b01101;
pub const OP_BEQ: u32 = 0b01110;
pub const OP_BNE: u32 = 0b01111;
pub const OP_BSM: u32 = 0b10000;
pub const OP_BBG: u32 = 0b10001;
pub const OP_JMP: u32 = 0b10010;
pub const OP_SRL: u32 = 0b10011;
pub const OP_SRR: u32 = 0b10100;
pub const OP_HLT: u32 = 0b10101;
pub const OP_IN: u32 = 0b10110;
pub const OP_OUT: u32 = 0b10111;
pub const OP_LABEL: u32 = 0b11110;

/// `opcode[5] reg[2] operand[12] 0[13]`
pub open spec fn reg_operand_word(opcode: u32, r: Register, p: Parameter) -> u32 {
    place(opcode, 27, 5) | place(r.number() as u32, 25, 2) | place(p.encoded(), 13, 12)
}

/// `opcode[5] reg[2] 0[25]`
pub open spec fn reg_word(opcode: u32, r: Register) -> u32 {
    place(opcode, 27, 5) | place(r.number() as u32, 25, 2)
}

/// `opcode[5] operand[12] 0[15]`
pub open spec fn operand_word(opcode: u32, p: Parameter) -> u32 {
    place(opcode, 27, 5) | place(p.encoded(), 15, 12)
}

/// `opcode[5] operand[12] operand[12] label[3]`
pub open spec fn branch_word(opcode: u32, p: Parameter, q: Parameter, l: Label) -> u32 {
    place(opcode, 27, 5) | place(p.encoded(), 15, 12) | place(q.encoded(), 3, 12) | place(
        l.name as u32,
        0,
        3,
    )
}

/// `opcode[5] label[3] 0[24]`
pub open spec fn label_word(opcode: u32, l: Label) -> u32 {
    place(opcode, 27, 5) | place(l.name as u32, 24, 3)
}

/// `opcode[5] reg[2] distance[10] 0[15]`
pub open spec fn shift_word(opcode: u32, r: Register, distance: u16) -> u32 {
    place(opcode, 27, 5) | place(r.number() as u32, 25, 2) | place(distance as u32, 15, 10)
}

/// `00001 variable[10] operand[12] 0[5]`
pub open spec fn store_word(v: Variable, p: Parameter) -> u32 {
    place(OP_STR, 27, 5) | place(v.name as u32, 17, 10) | place(p.encoded(), 5, 12)
}

/// `0 variable[10] value[10] 0[11]`
pub open spec fn variable_word(v: Variable, value: u32) -> u32 {
    place(0, 31, 1) | place(v.name as u32, 21, 10) | place(value, 11, 10)
}

/// `1 variable[10] length[10] value[10] 0[1]`
pub open spec fn array_word(v: Variable, value: u32, length: u16) -> u32 {
    place(1, 31, 1) | place(v.name as u32, 21, 10) | place(length as u32, 11, 10) | place(
        value,
        1,
        10,
    )
}

/// The register in the two bits below the opcode.
pub open spec fn register_in(word: u32) -> Register {
    match Register::numbered(field(word, 25, 2) as int) {
        Some(r) => r,
        None => Register::T0,
    }
}

/// The label in the three bits whose lowest is bit `low`.
pub open spec fn label_in(word: u32, low: u32) -> Label {
    Label { name: field(word, low, 3) as u16 }
}

/// The variable in the ten bits whose lowest is bit `low`.
pub open spec fn variable_in(word: u32, low: u32) -> Variable {
    Variable { name: field(word, low, 10) as u16 }
}

/// How the operands of an instruction are laid out, in text and in a word.
#[derive(Clone, Copy, Debug, PartialEq, Eq, Hash, Structural)]
pub enum Shape {
    /// A register, then an operand.
    RegisterOperand,
    /// A variable, then an operand.
    Store,
    /// One operand.
    Operand,
    /// One register.
    Register,
    /// Two operands, then a label.
    Branch,
    /// One label.
    Jump,
    /// A register, then a distance.
    Shift,
    /// Nothing.
    Halt,
}

impl Shape {
    /// The shape that goes with an opcode; `None` for a number that is no opcode.
    pub open spec fn of(opcode: u32) -> Option<Shape> {
        if opcode == OP_LDA || opcode == OP_AND || opcode == OP_OR || opcode == OP_ADD || opcode
            == OP_SUB || opcode == OP_DIV || opcode == OP_MUL || opcode == OP_MOD {
            Some(Shape::RegisterOperand)
        } else if opcode == OP_STR {
            Some(Shape::Store)
        } else if opcode == OP_PUSH || opcode == OP_IN || opcode == OP_OUT {
            Some(Shape::Operand)
        } else if opcode == OP_POP || opcode == OP_NOT || opcode == OP_INC || opcode == OP_DEC {
            Some(Shape::Register)
        } else if opcode == OP_BEQ || opcode == OP_BNE || opcode == OP_BSM || opcode == OP_BBG {
            Some(Shape::Branch)
        } else if opcode == OP_JMP || opcode == OP_LABEL {
            Some(Shape::Jump)
        } else if opcode == OP_SRL || opcode == OP_SRR {
            Some(Shape::Shift)
        } else if opcode == OP_HLT {
            Some(Shape::Halt)
        } else {
            None
        }
    }

    /// The shape that goes with an opcode.
    pub fn from_opcode(opcode: u32) -> (r: Option<Shape>)
        ensures
            r == Shape::of(opcode),
    {
        if opcode == OP_LDA || opcode == OP_AND || opcode == OP_OR || opcode == OP_ADD || opcode
            == OP_SUB || opcode == OP_DIV || opcode == OP_MUL || opcode == OP_MOD {
            Some(Shape::RegisterOperand)
        } else if opcode == OP_STR {
            Some(Shape::Store)
        } else if opcode == OP_PUSH || opcode == OP_IN || opcode == OP_OUT {
            Some(Shape::Operand)
        } else if opcode == OP_POP || opcode == OP_NOT || opcode == OP_INC || opcode == OP_DEC {
            Some(Shape::Register)
        } else if opcode == OP_BEQ || opcode == OP_BNE || opcode == OP_BSM || opcode == OP_BBG {
            Some(Shape::Branch)
        } else if opcode == OP_JMP || opcode == OP_LABEL {
            Some(Shape::Jump)
        } else if opcode == OP_SRL || opcode == OP_SRR {
            Some(Shape::Shift)
        } else if opcode == OP_HLT {
            Some(Shape::Halt)
        } else {
            None
        }
    }
}

/// The instruction of shape [`Shape::RegisterOperand`] with the given opcode.
pub open spec fn register_operand_form(opcode: u32, r: Register, p: Parameter) -> Instruction {
    if opcode == OP_LDA {
        Instruction::LDA(r, p)
    } else if opcode == OP_AND {
        Instruction::AND(r, p)
    } else if opcode == OP_OR {
        Instruction::OR(r, p)
    } else if opcode == OP_ADD {
        Instruction::ADD(r, p)
    } else if opcode == OP_SUB {
        Instruction::SUB(r, p)
    } else if opcode == OP_DIV {
        Instruction::DIV(r, p)
    } else if opcode == OP_MUL {
        Instruction::MUL(r, p)
    } else {
        Instruction::MOD(r, p)
    }
}

/// The instruction of shape [`Shape::Operand`] with the given opcode.
pub open spec fn operand_form(opcode: u32, p: Parameter) -> Instruction {
    if opcode == OP_PUSH {
        Instruction::PUSH(p)
    } else if opcode == OP_IN {
        Instruction::IN(p)
    } else {
        Instruction::OUT(p)
    }
}

/// The instruction of shape [`Shape::Register`] with the given opcode.
pub open spec fn register_form(opcode: u32, r: Register) -> Instruction {
    if opcode == OP_POP {
        Instruction::POP(r)
    } else if opcode == OP_NOT {
        Instruction::NOT(r)
    } else if opcode == OP_INC {
        Instruction::INC(r)
    } else {
        Instruction::DEC(r)
    }
}

/// The instruction of shape [`Shape::Branch`] with the given opcode.
pub open spec fn branch_form(opcode: u32, p: Parameter, q: Parameter, l: Label) -> Instruction {
    if opcode == OP_BEQ {
        Instruction::BEQ(p, q, l)
    } else if opcode == OP_BNE {
        Instruction::BNE(p, q, l)
    } else if opcode == OP_BSM {
        Instruction::BSM(p, q, l)
    } else {
        Instruction::BBG(p, q, l)
    }
}

/// The instruction of shape [`Shape::Jump`] with the given opcode.
pub open spec fn jump_form(opcode: u32, l: Label) -> Instruction {
    if opcode == OP_JMP {
        Instruction::JMP(l)
    } else {
        Instruction::LABEL(l)
    }
}

/// The instruction of shape [`Shape::Shift`] with the given opcode.
pub open spec fn shift_form(opcode: u32, r: Register, distance: u16) -> Instruction {
    if opcode == OP_SRL {
        Instruction::SRL(r, distance)
    } else {
        Instruction::SRR(r, distance)
    }
}

/// Makes the instruction of shape [`Shape::RegisterOperand`] with the given opcode.
pub fn register_operand(opcode: u32, r: Register, p: Parameter) -> (i: Instruction)
    ensures
        i == register_operand_form(opcode, r, p),
{
    if opcode == OP_LDA {
        Instruction::LDA(r, p)
    } else if opcode == OP_AND {
        Instruction::AND(r, p)
    } else if opcode == OP_OR {
        Instruction::OR(r, p)
    } else if opcode == OP_ADD {
        Instruction::ADD(r, p)
    } else if opcode == OP_SUB {
        Instruction::SUB(r, p)
    } else if opcode == OP_DIV {
        Instruction::DIV(r, p)
    } else if opcode == OP_MUL {
        Instruction::MUL(r, p)
    } else {
        Instruction::MOD(r, p)
    }
}

/// Makes the instruction of shape [`Shape::Operand`] with the given opcode.
pub fn operand(opcode: u32, p: Parameter) -> (i: Instruction)
    ensures
        i == operand_form(opcode, p),
{
    if opcode == OP_PUSH {
        Instruction::PUSH(p)
    } else if opcode == OP_IN {
        Instruction::IN(p)
    } else {
        Instruction::OUT(p)
    }
}

/// Makes the instruction of shape [`Shape::Register`] with the given opcode.
pub fn register(opcode: u32, r: Register) -> (i: Instruction)
    ensures
        i == register_form(opcode, r),
{
    if opcode == OP_POP {
        Instruction::POP(r)
    } else if opcode == OP_NOT {
        Instruction::NOT(r)
    } else if opcode == OP_INC {
        Instruction::INC(r)
    } else {
        Instruction::DEC(r)
    }
}

/// Makes the instruction of shape [`Shape::Branch`] with the given opcode.
pub fn branch(opcode: u32, p: Parameter, q: Parameter, l: Label) -> (i: Instruction)
    ensures
        i == branch_form(opcode, p, q, l),
{
    if opcode == OP_BEQ {
        Instruction::BEQ(p, q, l)
    } else if opcode == OP_BNE {
        Instruction::BNE(p, q, l)
    } else if opcode == OP_BSM {
        Instruction::BSM(p, q, l)
    } else {
        Instruction::BBG(p, q, l)
    }
}

/// Makes the instruction of shape [`Shape::Jump`] with the given opcode.
pub fn jump(opcode: u32, l: Label) -> (i: Instruction)
    ensures
        i == jump_form(opcode, l),
{
    if opcode == OP_JMP {
        Instruction::JMP(l)
    } else {
        Instruction::LABEL(l)
    }
}

/// Makes the instruction of shape [`Shape::Shift`] with the given opcode.
pub fn shift(opcode: u32, r: Register, distance: u16) -> (i: Instruction)
    ensures
        i == shift_form(opcode, r, distance),
{
    if opcode == OP_SRL {
        Instruction::SRL(r, distance)
    } else {
        Instruction::SRR(r, distance)
    }
}

impl Instruction {
    /// Whether the line belongs to the data section.
    pub open spec fn is_data(self) -> bool {
        self is VARIABLE || self is ARRAY
    }

    /// Whether every part of the instruction fits its field.
    pub open spec fn valid(self) -> bool {
        match self {
            Instruction::LDA(_, p)
            | Instruction::AND(_, p)
            | Instruction::OR(_, p)
            | Instruction::ADD(_, p)
            | Instruction::SUB(_, p)
            | Instruction::DIV(_, p)
            | Instruction::MUL(_, p)
            | Instruction::MOD(_, p)
            | Instruction::PUSH(p)
            | Instruction::IN(p)
            | Instruction::OUT(p) => p.valid(),
            Instruction::STR(v, p) => v.valid() && p.valid(),
            Instruction::POP(_)
            | Instruction::NOT(_)
            | Instruction::INC(_)
            | Instruction::DEC(_)
            | Instruction::HLT => true,
            Instruction::BEQ(p, q, l)
            | Instruction::BNE(p, q, l)
            | Instruction::BBG(p, q, l)
            | Instruction::BSM(p, q, l) => p.valid() && q.valid() && l.valid(),
            Instruction::JMP(l) | Instruction::LABEL(l) => l.valid(),
            Instruction::SRL(_, k) | Instruction::SRR(_, k) => k <= MAX_CONSTANT,
            Instruction::VARIABLE(v, value) => v.valid() && value <= MAX_CONSTANT,
            Instruction::ARRAY(v, value, length) => v.valid() && value <= MAX_CONSTANT && length
                <= MAX_CONSTANT,
        }
    }

    /// The word of the instruction. A part that is too large for its field
    /// loses its high bits.
    pub open spec fn encoded(self) -> u32 {
        match self {
            Instruction::LDA(r, p) => reg_operand_word(OP_LDA, r, p),
            Instruction::STR(v, p) => store_word(v, p),
            Instruction::PUSH(p) => operand_word(OP_PUSH, p),
            Instruction::POP(r) => reg_word(OP_POP, r),
            Instruction::AND(r, p) => reg_operand_word(OP_AND, r, p),
            Instruction::OR(r, p) => reg_operand_word(OP_OR, r, p),
            Instruction::NOT(r) => reg_word(OP_NOT, r),
            Instruction::ADD(r, p) => reg_operand_word(OP_ADD, r, p),
            Instruction::SUB(r, p) => reg_operand_word(OP_SUB, r, p),
            Instruction::DIV(r, p) => reg_operand_word(OP_DIV, r, p),
            Instruction::MUL(r, p) => reg_operand_word(OP_MUL, r, p),
            Instruction::MOD(r, p) => reg_operand_word(OP_MOD, r, p),
            Instruction::INC(r) => reg_word(OP_INC, r),
            Instruction::DEC(r) => reg_word(OP_DEC, r),
            Instruction::BEQ(p, q, l) => branch_word(OP_BEQ, p, q, l),
            Instruction::BNE(p, q, l) => branch_word(OP_BNE, p, q, l),
            Instruction::BSM(p, q, l) => branch_word(OP_BSM, p, q, l),
            Instruction::BBG(p, q, l) => branch_word(OP_BBG, p, q, l),
            Instruction::JMP(l) => label_word(OP_JMP, l),
            Instruction::SRL(r, k) => shift_word(OP_SRL, r, k),
            Instruction::SRR(r, k) => shift_word(OP_SRR, r, k),
            Instruction::HLT => place(OP_HLT, 27, 5),
            Instruction::IN(p) => operand_word(OP_IN, p),
            Instruction::OUT(p) => operand_word(OP_OUT, p),
            Instruction::LABEL(l) => label_word(OP_LABEL, l),
            Instruction::VARIABLE(v, value) => variable_word(v, value),
            Instruction::ARRAY(v, value, length) => array_word(v, value, length),
        }
    }

    /// The instruction that a word of the code section stands for. Bits that
    /// the layout of the opcode leaves free are not looked at.
    pub open spec fn decoded_code(word: u32) -> Result<Instruction, Error> {
        let opcode = field(word, 27, 5);
        let r = register_in(word);
        match Shape::of(opcode) {
            None => Err(Error::MalformedBinary),
            Some(Shape::RegisterOperand) => match Parameter::decoded(field(word, 13, 12)) {
                Ok(p) => Ok(register_operand_form(opcode, r, p)),
                Err(e) => Err(e),
            },
            Some(Shape::Store) => match Parameter::decoded(field(word, 5, 12)) {
                Ok(p) => Ok(Instruction::STR(variable_in(word, 17), p)),
                Err(e) => Err(e),
            },
            Some(Shape::Operand) => match Parameter::decoded(field(word, 15, 12)) {
                Ok(p) => Ok(operand_form(opcode, p)),
                Err(e) => Err(e),
            },
            Some(Shape::Register) => Ok(register_form(opcode, r)),
            Some(Shape::Branch) => match Parameter::decoded(field(word, 15, 12)) {
                Ok(p) => match Parameter::decoded(field(word, 3, 12)) {
                    Ok(q) => Ok(branch_form(opcode, p, q, label_in(word, 0))),
                    Err(e) => Err(e),
                },
                Err(e) => Err(e),
            },
            Some(Shape::Jump) => Ok(jump_form(opcode, label_in(word, 24))),
            Some(Shape::Shift) => Ok(shift_form(opcode, r, field(word, 15, 10) as u16)),
            Some(Shape::Halt) => Ok(Instruction::HLT),
        }
    }

    /// The declaration that a word of the data section stands for.
    pub open spec fn decoded_data(word: u32) -> Instruction {
        if field(word, 31, 1) == 0 {
            Instruction::VARIABLE(variable_in(word, 21), field(word, 11, 10))
        } else {
            Instruction::ARRAY(variable_in(word, 21), field(word, 1, 10), field(word, 11, 10) as u16)
        }
    }
}

fn pack_reg_operand(opcode: u32, r: Register, p: &Parameter) -> (word: u32)
    ensures
        word == reg_operand_word(opcode, r, *p),
{
    put_field(opcode, 27, 5) | put_field(r.index() as u32, 25, 2) | put_field(p.encode(), 13, 12)
}

fn pack_reg(opcode: u32, r: Register) -> (word: u32)
    ensures
        word == reg_word(opcode, r),
{
    put_field(opcode, 27, 5) | put_field(r.index() as u32, 25, 2)
}

fn pack_operand(opcode: u32, p: &Parameter) -> (word: u32)
    ensures
        word == operand_word(opcode, *p),
{
    put_field(opcode, 27, 5) | put_field(p.encode(), 15, 12)
}

fn pack_branch(opcode: u32, p: &Parameter, q: &Parameter, l: Label) -> (word: u32)
    ensures
        word == branch_word(opcode, *p, *q, l),
{
    put_field(opcode, 27, 5) | put_field(p.encode(), 15, 12) | put_field(q.encode(), 3, 12)
        | put_field(l.name as u32, 0, 3)
}

fn pack_label(opcode: u32, l: Label) -> (word: u32)
    ensures
        word == label_word(opcode, l),
{
    put_field(opcode, 27, 5) | put_field(l.name as u32, 24, 3)
}

fn pack_shift(opcode: u32, r: Register, distance: u16) -> (word: u32)
    ensures
        word == shift_word(opcode, r, distance),
{
    put_field(opcode, 27, 5) | put_field(r.index() as u32, 25, 2) | put_field(
        distance as u32,
        15,
        10,
    )
}

fn unpack_register(word: u32) -> (r: Register)
    ensures
        r == register_in(word),
{
    proof {
        lemma_field_bounds(word, 25);
    }
    match Register::from_index(get_field(word, 25, 2) as u8) {
        Some(r) => r,
        None => Register::T0,
    }
}

fn unpack_label(word: u32, low: u32) -> (l: Label)
    requires
        low < 32,
    ensures
        l == label_in(word, low),
        l.valid(),
{
    proof {
        lemma_field_bounds(word, low);
    }
    Label { name: get_field(word, low, 3) as u16 }
}

fn unpack_variable(word: u32, low: u32) -> (v: Variable)
    requires
        low < 32,
    ensures
        v == variable_in(word, low),
        v.valid(),
{
    proof {
        lemma_field_bounds(word, low);
    }
    Variable { name: get_field(word, low, 10) as u16 }
}

impl Instruction {
    /// Encodes the instruction in one word.
    pub fn encode(&self) -> (word: u32)
        ensures
            word == self.encoded(),
    {
        match self {
            Instruction::LDA(r, p) => pack_reg_operand(OP_LDA, *r, p),
            Instruction::STR(v, p) => put_field(OP_STR, 27, 5) | put_field(v.name as u32, 17, 10)
                | put_field(p.encode(), 5, 12),
            Instruction::PUSH(p) => pack_operand(OP_PUSH, p),
            Instruction::POP(r) => pack_reg(OP_POP, *r),
            Instruction::AND(r, p) => pack_reg_operand(OP_AND, *r, p),
            Instruction::OR(r, p) => pack_reg_operand(OP_OR, *r, p),
            Instruction::NOT(r) => pack_reg(OP_NOT, *r),
            Instruction::ADD(r, p) => pack_reg_operand(OP_ADD, *r, p),
            Instruction::SUB(r, p) => pack_reg_operand(OP_SUB, *r, p),
            Instruction::DIV(r, p) => pack_reg_operand(OP_DIV, *r, p),
            Instruction::MUL(r, p) => pack_reg_operand(OP_MUL, *r, p),
            Instruction::MOD(r, p) => pack_reg_operand(OP_MOD, *r, p),
            Instruction::INC(r) => pack_reg(OP_INC, *r),
            Instruction::DEC(r) => pack_reg(OP_DEC, *r),
            Instruction::BEQ(p, q, l) => pack_branch(OP_BEQ, p, q, *l),
            Instruction::BNE(p, q, l) => pack_branch(OP_BNE, p, q, *l),
            Instruction::BSM(p, q, l) => pack_branch(OP_BSM, p, q, *l),
            Instruction::BBG(p, q, l) => pack_branch(OP_BBG, p, q, *l),
            Instruction::JMP(l) => pack_label(OP_JMP, *l),
            Instruction::SRL(r, k) => pack_shift(OP_SRL, *r, *k),
            Instruction::SRR(r, k) => pack_shift(OP_SRR, *r, *k),
            Instruction::HLT => put_field(OP_HLT, 27, 5),
            Instruction::IN(p) => pack_operand(OP_IN, p),
            Instruction::OUT(p) => pack_operand(OP_OUT, p),
            Instruction::LABEL(l) => pack_label(OP_LABEL, *l),
            Instruction::VARIABLE(v, value) => put_field(0, 31, 1) | put_field(
                v.name as u32,
                21,
                10,
            ) | put_field(*value, 11, 10),
            Instruction::ARRAY(v, value, length) => put_field(1, 31, 1) | put_field(
                v.name as u32,
                21,
                10,
            ) | put_field(*length as u32, 11, 10) | put_field(*value, 1, 10),
        }
    }

    /// Decodes a word of the code section. It fails, with
    /// [`Error::MalformedBinary`], on an opcode that names no instruction and
    /// on an operand whose tag names no kind of operand.
    pub fn decode_code(word: u32) -> (r: Result<Instruction, Error>)
        ensures
            r == Instruction::decoded_code(word),
            r matches Ok(i) ==> i.valid() && !i.is_data(),
            r matches Err(e) ==> e == Error::MalformedBinary,
    {
        proof {
            lemma_field_bounds(word, 15);
        }
        let opcode = get_field(word, 27, 5);
        let r = unpack_register(word);
        match Shape::from_opcode(opcode) {
            None => Err(Error::MalformedBinary),
            Some(Shape::RegisterOperand) => {
                let p = Parameter::decode(get_field(word, 13, 12))?;
                Ok(register_operand(opcode, r, p))
            },
            Some(Shape::Store) => {
                let p = Parameter::decode(get_field(word, 5, 12))?;
                Ok(Instruction::STR(unpack_variable(word, 17), p))
            },
            Some(Shape::Operand) => {
                let p = Parameter::decode(get_field(word, 15, 12))?;
                Ok(operand(opcode, p))
            },
            Some(Shape::Register) => Ok(register(opcode, r)),
            Some(Shape::Branch) => {
                let p = Parameter::decode(get_field(word, 15, 12))?;
                let q = Parameter::decode(get_field(word, 3, 12))?;
                Ok(branch(opcode, p, q, unpack_label(word, 0)))
            },
            Some(Shape::Jump) => Ok(jump(opcode, unpack_label(word, 24))),
            Some(Shape::Shift) => Ok(shift(opcode, r, get_field(word, 15, 10) as u16)),
            Some(Shape::Halt) => Ok(Instruction::HLT),
        }
    }

    /// Decodes a word of the data section. Every word stands for a declaration.
    pub fn decode_data(word: u32) -> (i: Instruction)
        ensures
            i == Instruction::decoded_data(word),
            i.valid(),
            i.is_data(),
    {
        proof {
            lemma_field_bounds(word, 1);
            lemma_field_bounds(word, 11);
        }
        let v = unpack_variable(word, 21);
        if get_field(word, 31, 1) == 0 {
            Instruction::VARIABLE(v, get_field(word, 11, 10))
        } else {
            Instruction::ARRAY(v, get_field(word, 1, 10), get_field(word, 11, 10) as u16)
        }
    }
}

proof fn lemma_reg_operand_layout(word: u32, opcode: u32, r: u32, p: u32)
    by (bit_vector)
    requires
        opcode < 32,
        r < 4,
        p < 4096,
        word == place(opcode, 27, 5) | place(r, 25, 2) | place(p, 13, 12),
    ensures
        field(word, 27, 5) == opcode,
        field(word, 25, 2) == r,
        field(word, 13, 12) == p,
{
}

proof fn lemma_reg_layout(word: u32, opcode: u32, r: u32)
    by (bit_vector)
    requires
        opcode < 32,
        r < 4,
        word == place(opcode, 27, 5) | place(r, 25, 2),
    ensures
        field(word, 27, 5) == opcode,
        field(word, 25, 2) == r,
{
}

proof fn lemma_operand_layout(word: u32, opcode: u32, p: u32)
    by (bit_vector)
    requires
        opcode < 32,
        p < 4096,
        word == place(opcode, 27, 5) | place(p, 15, 12),
    ensures
        field(word, 27, 5) == opcode,
        field(word, 15, 12) == p,
{
}

proof fn lemma_branch_layout(word: u32, opcode: u32, p: u32, q: u32, l: u32)
    by (bit_vector)
    requires
        opcode < 32,
        p < 4096,
        q < 4096,
        l < 8,
        word == place(opcode, 27, 5) | place(p, 15, 12) | place(q, 3, 12) | place(l, 0, 3),
    ensures
        field(word, 27, 5) == opcode,
        field(word, 15, 12) == p,
        field(word, 3, 12) == q,
        field(word, 0, 3) == l,
{
}

proof fn lemma_label_layout(word: u32, opcode: u32, l: u32)
    by (bit_vector)
    requires
        opcode < 32,
        l < 8,
        word == place(opcode, 27, 5) | place(l, 24, 3),
    ensures
        field(word, 27, 5) == opcode,
        field(word, 24, 3) == l,
{
}

proof fn lemma_shift_layout(word: u32, opcode: u32, r: u32, k: u32)
    by (bit_vector)
    requires
        opcode < 32,
        r < 4,
        k < 1024,
        word == place(opcode, 27, 5) | place(r, 25, 2) | place(k, 15, 10),
    ensures
        field(word, 27, 5) == opcode,
        field(word, 25, 2) == r,
        field(word, 15, 10) == k,
{
}

proof fn lemma_store_layout(word: u32, v: u32, p: u32)
    by (bit_vector)
    requires
        v < 1024,
        p < 4096,
        word == place(1, 27, 5) | place(v, 17, 10) | place(p, 5, 12),
    ensures
        field(word, 27, 5) == 1,
        field(word, 17, 10) == v,
        field(word, 5, 12) == p,
{
}

proof fn lemma_halt_layout()
    by (bit_vector)
    ensures
        field(place(21, 27, 5), 27, 5) == 21,
{
}

proof fn lemma_variable_layout(word: u32, v: u32, value: u32)
    by (bit_vector)
    requires
        v < 1024,
        value < 1024,
        word == place(0, 31, 1) | place(v, 21, 10) | place(value, 11, 10),
    ensures
        field(word, 31, 1) == 0,
        field(word, 21, 10) == v,
        field(word, 11, 10) == value,
{
}

proof fn lemma_array_layout(word: u32, v: u32, value: u32, length: u32)
    by (bit_vector)
    requires
        v < 1024,
        value < 1024,
        length < 1024,
        word == place(1, 31, 1) | place(v, 21, 10) | place(length, 11, 10) | place(value, 1, 10),
    ensures
        field(word, 31, 1) == 1,
        field(word, 21, 10) == v,
        field(word, 11, 10) == length,
        field(word, 1, 10) == value,
{
}

proof fn lemma_reg_operand_round_trip(opcode: u32, r: Register, p: Parameter)
    requires
        opcode < 32,
        p.valid(),
    ensures
        field(reg_operand_word(opcode, r, p), 27, 5) == opcode,
        register_in(reg_operand_word(opcode, r, p)) == r,
        Parameter::decoded(field(reg_operand_word(opcode, r, p), 13, 12)) == Ok::<
            Parameter,
            Error,
        >(p),
{
    lemma_operand_bits(p);
    lemma_operand_round_trip(p);
    lemma_reg_operand_layout(
        reg_operand_word(opcode, r, p),
        opcode,
        r.number() as u32,
        p.encoded(),
    );
}

proof fn lemma_reg_round_trip(opcode: u32, r: Register)
    requires
        opcode < 32,
    ensures
        field(reg_word(opcode, r), 27, 5) == opcode,
        register_in(reg_word(opcode, r)) == r,
{
    lemma_reg_layout(reg_word(opcode, r), opcode, r.number() as u32);
}

proof fn lemma_operand_word_round_trip(opcode: u32, p: Parameter)
    requires
        opcode < 32,
        p.valid(),
    ensures
        field(operand_word(opcode, p), 27, 5) == opcode,
        Parameter::decoded(field(operand_word(opcode, p), 15, 12)) == Ok::<Parameter, Error>(p),
{
    lemma_operand_bits(p);
    lemma_operand_round_trip(p);
    lemma_operand_layout(operand_word(opcode, p), opcode, p.encoded());
}

proof fn lemma_branch_round_trip(opcode: u32, p: Parameter, q: Parameter, l: Label)
    requires
        opcode < 32,
        p.valid(),
        q.valid(),
        l.valid(),
    ensures
        field(branch_word(opcode, p, q, l), 27, 5) == opcode,
        Parameter::decoded(field(branch_word(opcode, p, q, l), 15, 12)) == Ok::<
            Parameter,
            Error,
        >(p),
        Parameter::decoded(field(branch_word(opcode, p, q, l), 3, 12)) == Ok::<Parameter, Error>(
            q,
        ),
        label_in(branch_word(opcode, p, q, l), 0) == l,
{
    lemma_operand_bits(p);
    lemma_operand_bits(q);
    lemma_operand_round_trip(p);
    lemma_operand_round_trip(q);
    lemma_branch_layout(
        branch_word(opcode, p, q, l),
        opcode,
        p.encoded(),
        q.encoded(),
        l.name as u32,
    );
}

proof fn lemma_label_round_trip(opcode: u32, l: Label)
    requires
        opcode < 32,
        l.valid(),
    ensures
        field(label_word(opcode, l), 27, 5) == opcode,
        label_in(label_word(opcode, l), 24) == l,
{
    lemma_label_layout(label_word(opcode, l), opcode, l.name as u32);
}

proof fn lemma_shift_round_trip(opcode: u32, r: Register, k: u16)
    requires
        opcode < 32,
        k <= MAX_CONSTANT,
    ensures
        field(shift_word(opcode, r, k), 27, 5) == opcode,
        register_in(shift_word(opcode, r, k)) == r,
        field(shift_word(opcode, r, k), 15, 10) as u16 == k,
{
    lemma_shift_layout(shift_word(opcode, r, k), opcode, r.number() as u32, k as u32);
}

/// Decoding the word of an instruction gives the instruction back, whenever
/// every part of the instruction fits its field: a declaration as a word of
/// the data section, any other instruction as a word of the code section.
pub proof fn lemma_instruction_round_trip(i: Instruction)
    requires
        i.valid(),
    ensures
        i.is_data() ==> Instruction::decoded_data(i.encoded()) == i,
        !i.is_data() ==> Instruction::decoded_code(i.encoded()) == Ok::<Instruction, Error>(i),
{
    match i {
        Instruction::LDA(r, p) => lemma_reg_operand_round_trip(OP_LDA, r, p),
        Instruction::AND(r, p) => lemma_reg_operand_round_trip(OP_AND, r, p),
        Instruction::OR(r, p) => lemma_reg_operand_round_trip(OP_OR, r, p),
        Instruction::ADD(r, p) => lemma_reg_operand_round_trip(OP_ADD, r, p),
        Instruction::SUB(r, p) => lemma_reg_operand_round_trip(OP_SUB, r, p),
        Instruction::DIV(r, p) => lemma_reg_operand_round_trip(OP_DIV, r, p),
        Instruction::MUL(r, p) => lemma_reg_operand_round_trip(OP_MUL, r, p),
        Instruction::MOD(r, p) => lemma_reg_operand_round_trip(OP_MOD, r, p),
        Instruction::STR(v, p) => {
            lemma_operand_bits(p);
            lemma_operand_round_trip(p);
            lemma_store_layout(store_word(v, p), v.name as u32, p.encoded());
        },
        Instruction::PUSH(p) => lemma_operand_word_round_trip(OP_PUSH, p),
        Instruction::IN(p) => lemma_operand_word_round_trip(OP_IN, p),
        Instruction::OUT(p) => lemma_operand_word_round_trip(OP_OUT, p),
        Instruction::POP(r) => lemma_reg_round_trip(OP_POP, r),
        Instruction::NOT(r) => lemma_reg_round_trip(OP_NOT, r),
        Instruction::INC(r) => lemma_reg_round_trip(OP_INC, r),
        Instruction::DEC(r) => lemma_reg_round_trip(OP_DEC, r),
        Instruction::BEQ(p, q, l) => lemma_branch_round_trip(OP_BEQ, p, q, l),
        Instruction::BNE(p, q, l) => lemma_branch_round_trip(OP_BNE, p, q, l),
        Instruction::BSM(p, q, l) => lemma_branch_round_trip(OP_BSM, p, q, l),
        Instruction::BBG(p, q, l) => lemma_branch_round_trip(OP_BBG, p, q, l),
        Instruction::JMP(l) => lemma_label_round_trip(OP_JMP, l),
        Instruction::LABEL(l) => lemma_label_round_trip(OP_LABEL, l),
        Instruction::SRL(r, k) => lemma_shift_round_trip(OP_SRL, r, k),
        Instruction::SRR(r, k) => lemma_shift_round_trip(OP_SRR, r, k),
        Instruction::HLT => lemma_halt_layout(),
        Instruction::VARIABLE(v, value) => lemma_variable_layout(
            variable_word(v, value),
            v.name as u32,
            value,
        ),
        Instruction::ARRAY(v, value, length) => lemma_array_layout(
            array_word(v, value, length),
            v.name as u32,
            value,
            length as u32,
        ),
    }
}

/// A word of the code section stands for no declaration.
pub proof fn lemma_code_is_no_data(word: u32)
    ensures
        Instruction::decoded_code(word) matches Ok(i) ==> !i.is_data(),
{
}

} // verus!
