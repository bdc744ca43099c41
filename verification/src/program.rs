//! The machine: four registers, a stack, a memory of variables, and a
//! program with its counter.

use vstd::prelude::*;
use indexmap::IndexMap;
use std::collections::hash_map::RandomState;
use std::collections::HashMap;
use crate::enums::{
    well_formed, AddressNames, Extension, Label, NameKind, Parameter, Register, Variable,
    MAX_VARIABLE,
};
use crate::error::Error;
use crate::file::{
    exported, exported_items, items_of, lemma_export_reads_back, lemma_items_count,
    lemma_lines_keep_wf, lines_of, parse_lines, readable, CoFile, Item, LineCategory,
};
use crate::instruction::{
    Instruction, OP_ADD, OP_AND, OP_DIV, OP_MOD, OP_MUL, OP_OR, OP_SUB,
};
use crate::memory::{cell, cells, empty, fetch, size, store, stored, value_at};

verus! {

/// What a step of the machine leaves for its caller to do.
#[derive(Clone, Copy, Debug, PartialEq, Eq, Hash, Structural)]
pub enum Event {
    /// The instruction was executed; the counter was not touched by it.
    Executed,
    /// The instruction was executed and has set the counter.
    Jumped,
    /// The instruction was executed; the value is to be written out, with a
    /// line break after it.
    Output(u32),
    /// The instruction asks for a number from the input and none was
    /// given. Nothing was changed.
    AwaitInput,
    /// The counter stands behind the last instruction. Nothing was changed.
    Finished,
}

/// The machine and its program.
pub struct Program {
    instructions: Vec<Instruction>,
    registers: HashMap<u8, u32>,
    variable_names: AddressNames,
    label_names: AddressNames,
    label_indices: HashMap<u16, usize>,
    stack: Vec<u32>,
    memory: IndexMap<u16, u32, RandomState>,
    counter: usize,
    verbose: bool,
}

/// All that a machine holds.
pub struct State {
    /// The program, without its declarations.
    pub instructions: Seq<Instruction>,
    /// The registers that were written, by number, with their values.
    pub registers: Map<u8, u32>,
    pub variable_names: Seq<Seq<char>>,
    pub label_names: Seq<Seq<char>>,
    /// For each label that the program defines, the place of its definition.
    pub label_indices: Map<u16, usize>,
    /// The stack; its top is the last element.
    pub stack: Seq<u32>,
    /// The variables that were written, in the order in which they were
    /// written first, with their values.
    pub memory: Seq<(u16, u32)>,
    /// The place of the instruction that is executed next.
    pub counter: usize,
    /// Whether the caller wants to be told more; the machine itself does
    /// not look at it.
    pub verbose: bool,
}

/// The sum of two words, modulo 2^32.
pub open spec fn wrapping_sum(a: u32, b: u32) -> u32 {
    ((a + b) % 0x1_0000_0000) as u32
}

/// The difference of two words, modulo 2^32.
pub open spec fn wrapping_difference(a: u32, b: u32) -> u32 {
    ((a - b) % 0x1_0000_0000) as u32
}

/// The product of two words, modulo 2^32.
pub open spec fn wrapping_product(a: u32, b: u32) -> u32 {
    ((a * b) % 0x1_0000_0000) as u32
}

/// A word moved to the left by a number of bits; what leaves the word is lost.
pub open spec fn shifted_left(a: u32, distance: u16) -> u32 {
    if distance >= 32 {
        0
    } else {
        a << distance
    }
}

/// A word moved to the right by a number of bits; zeros come in from the left.
pub open spec fn shifted_right(a: u32, distance: u16) -> u32 {
    if distance >= 32 {
        0
    } else {
        a >> distance
    }
}

/// What an instruction of two values computes. The opcode is that of `AND`,
/// `OR`, `ADD`, `SUB`, `MUL`, `DIV` or `MOD`; the words are unsigned, sums,
/// differences and products are taken modulo 2^32, and a division or a
/// remainder by zero is an error.
pub open spec fn computed(opcode: u32, a: u32, b: u32) -> Result<u32, Error> {
    if opcode == OP_AND {
        Ok(a & b)
    } else if opcode == OP_OR {
        Ok(a | b)
    } else if opcode == OP_ADD {
        Ok(wrapping_sum(a, b))
    } else if opcode == OP_SUB {
        Ok(wrapping_difference(a, b))
    } else if opcode == OP_MUL {
        Ok(wrapping_product(a, b))
    } else if b == 0 {
        Err(Error::DivByZero)
    } else if opcode == OP_DIV {
        Ok(a / b)
    } else {
        Ok(a % b)
    }
}

/// The memory after `count` variables in a row, from `first` on, were given
/// a value.
pub open spec fn filled(memory: Seq<(u16, u32)>, first: u16, value: u32, count: nat) -> Seq<
    (u16, u32),
>
    decreases count,
{
    if count == 0 {
        memory
    } else {
        filled(stored(memory, first, value), (first + 1) as u16, value, (count - 1) as nat)
    }
}

/// The number of variables that an array of a given length takes: one at least.
pub open spec fn array_span(length: u16) -> nat {
    if length == 0 {
        1
    } else {
        length as nat
    }
}

/// The label that a jump or a branch goes to.
pub open spec fn target(i: Instruction) -> Option<Label> {
    match i {
        Instruction::BEQ(_, _, l)
        | Instruction::BNE(_, _, l)
        | Instruction::BBG(_, _, l)
        | Instruction::BSM(_, _, l)
        | Instruction::JMP(l) => Some(l),
        _ => None,
    }
}

impl State {
    /// The machine before anything was loaded.
    pub open spec fn empty() -> State {
        State {
            instructions: Seq::empty(),
            registers: Map::empty(),
            variable_names: Seq::empty(),
            label_names: Seq::empty(),
            label_indices: Map::empty(),
            stack: Seq::empty(),
            memory: Seq::empty(),
            counter: 0,
            verbose: false,
        }
    }

    /// What holds of a machine at all times: the counter stands at an
    /// instruction or right behind the last one; every label that is known
    /// as defined stands for the place of its own definition; the program
    /// holds no declarations; and each symbol table is as its kind asks, with
    /// no name twice.
    pub open spec fn wf(self) -> bool {
        &&& self.counter <= self.instructions.len() <= usize::MAX
        &&& labels_defined(self)
        &&& forall|k: int|
            0 <= k < self.instructions.len() ==> !(#[trigger] self.instructions[k]).is_data()
        &&& well_formed(NameKind::Variable, self.variable_names)
        &&& well_formed(NameKind::Label, self.label_names)
    }

    /// Whether every jump and every branch of the program goes to a label
    /// that the program defines.
    pub open spec fn resolved(self) -> bool {
        forall|k: int|
            0 <= k < self.instructions.len() ==> (#[trigger] target(self.instructions[k]) matches Some(
                l,
            ) ==> self.label_indices.contains_key(l.name))
    }

    /// The value of a register; a register that was never written has none.
    pub open spec fn register_value(self, r: Register) -> Result<u32, Error> {
        if self.registers.contains_key(r.number()) {
            Ok(self.registers[r.number()])
        } else {
            Err(Error::UninitRegister)
        }
    }

    /// The value of a variable; a variable that was never written has the value 0.
    pub open spec fn variable_value(self, v: Variable) -> u32 {
        match value_at(self.memory, v.name) {
            Some(value) => value,
            None => 0,
        }
    }

    /// The value of an operand.
    pub open spec fn value(self, p: Parameter) -> Result<u32, Error> {
        match p {
            Parameter::Register(r) => self.register_value(r),
            Parameter::Variable(v) => Ok(self.variable_value(v)),
            Parameter::Constant(c) => Ok(c),
        }
    }

    /// The machine after a register was written.
    pub open spec fn with_register(self, r: Register, value: u32) -> State {
        State { registers: self.registers.insert(r.number(), value), ..self }
    }

    /// The machine after a variable was written.
    pub open spec fn with_variable(self, v: Variable, value: u32) -> State {
        State { memory: stored(self.memory, v.name, value), ..self }
    }

    /// The machine after a jump to a label: the counter stands at the
    /// definition of the label. A label that the program does not define is
    /// an error.
    pub open spec fn jumped(self, l: Label) -> Result<(State, Event), Error> {
        if self.label_indices.contains_key(l.name) {
            Ok((State { counter: self.label_indices[l.name], ..self }, Event::Jumped))
        } else {
            Err(Error::Undefined)
        }
    }

    /// The machine after a branch: a jump if the condition holds of the
    /// values of the two operands, nothing else.
    pub open spec fn branched(
        self,
        p: Parameter,
        q: Parameter,
        l: Label,
        condition: spec_fn(u32, u32) -> bool,
    ) -> Result<(State, Event), Error> {
        match self.value(p) {
            Err(e) => Err(e),
            Ok(a) => match self.value(q) {
                Err(e) => Err(e),
                Ok(b) => if condition(a, b) {
                    self.jumped(l)
                } else {
                    Ok((self, Event::Executed))
                },
            },
        }
    }

    /// The machine after an instruction that computes a value from a
    /// register and an operand and leaves it in the register.
    pub open spec fn operated(self, opcode: u32, r: Register, p: Parameter) -> Result<
        (State, Event),
        Error,
    > {
        match self.value(p) {
            Err(e) => Err(e),
            Ok(b) => match self.register_value(r) {
                Err(e) => Err(e),
                Ok(a) => match computed(opcode, a, b) {
                    Err(e) => Err(e),
                    Ok(c) => Ok((self.with_register(r, c), Event::Executed)),
                },
            },
        }
    }

    /// The machine after an instruction that changes a register by itself.
    pub open spec fn updated(self, r: Register, change: spec_fn(u32) -> u32) -> Result<
        (State, Event),
        Error,
    > {
        match self.register_value(r) {
            Err(e) => Err(e),
            Ok(a) => Ok((self.with_register(r, change(a)), Event::Executed)),
        }
    }

    /// The machine after one instruction, and what is left for the caller to
    /// do. The counter is changed by a jump, by a branch that is taken and
    /// by `HLT` alone. `input` is the number that was read for an `IN`.
    pub open spec fn executed(self, i: Instruction, input: Option<u32>) -> Result<
        (State, Event),
        Error,
    > {
        match i {
            Instruction::LDA(r, p) => match self.value(p) {
                Err(e) => Err(e),
                Ok(a) => Ok((self.with_register(r, a), Event::Executed)),
            },
            Instruction::STR(v, p) => match self.value(p) {
                Err(e) => Err(e),
                Ok(a) => Ok((self.with_variable(v, a), Event::Executed)),
            },
            Instruction::PUSH(p) => match self.value(p) {
                Err(e) => Err(e),
                Ok(a) => Ok((State { stack: self.stack.push(a), ..self }, Event::Executed)),
            },
            Instruction::POP(r) => if self.stack.len() == 0 {
                Err(Error::StackUnderflow)
            } else {
                Ok(
                    (
                        State { stack: self.stack.drop_last(), ..self }.with_register(
                            r,
                            self.stack.last(),
                        ),
                        Event::Executed,
                    ),
                )
            },
            Instruction::AND(r, p) => self.operated(OP_AND, r, p),
            Instruction::OR(r, p) => self.operated(OP_OR, r, p),
            Instruction::ADD(r, p) => self.operated(OP_ADD, r, p),
            Instruction::SUB(r, p) => self.operated(OP_SUB, r, p),
            Instruction::MUL(r, p) => self.operated(OP_MUL, r, p),
            Instruction::DIV(r, p) => self.operated(OP_DIV, r, p),
            Instruction::MOD(r, p) => self.operated(OP_MOD, r, p),
            Instruction::NOT(r) => self.updated(r, |a: u32| !a),
            Instruction::INC(r) => self.updated(r, |a: u32| wrapping_sum(a, 1)),
            Instruction::DEC(r) => self.updated(r, |a: u32| wrapping_difference(a, 1)),
            Instruction::SRL(r, k) => self.updated(r, |a: u32| shifted_left(a, k)),
            Instruction::SRR(r, k) => self.updated(r, |a: u32| shifted_right(a, k)),
            Instruction::BEQ(p, q, l) => self.branched(p, q, l, |a: u32, b: u32| a == b),
            Instruction::BNE(p, q, l) => self.branched(p, q, l, |a: u32, b: u32| a != b),
            Instruction::BSM(p, q, l) => self.branched(p, q, l, |a: u32, b: u32| a < b),
            Instruction::BBG(p, q, l) => self.branched(p, q, l, |a: u32, b: u32| a > b),
            Instruction::JMP(l) => self.jumped(l),
            Instruction::HLT => Ok(
                (State { counter: self.instructions.len() as usize, ..self }, Event::Jumped),
            ),
            Instruction::IN(p) => match p {
                Parameter::Constant(_) => Err(Error::InvalidTarget),
                Parameter::Register(r) => match input {
                    Some(a) => Ok((self.with_register(r, a), Event::Executed)),
                    None => Ok((self, Event::AwaitInput)),
                },
                Parameter::Variable(v) => match input {
                    Some(a) => Ok((self.with_variable(v, a), Event::Executed)),
                    None => Ok((self, Event::AwaitInput)),
                },
            },
            Instruction::OUT(p) => match self.value(p) {
                Err(e) => Err(e),
                Ok(a) => Ok((self, Event::Output(a))),
            },
            Instruction::LABEL(_) | Instruction::VARIABLE(_, _) | Instruction::ARRAY(_, _, _) => Ok(
                (self, Event::Executed),
            ),
        }
    }

    /// The machine after one step: the instruction at the counter is
    /// executed, and the counter moves on by one unless the instruction has
    /// set it or waits for input. Behind the last instruction nothing happens.
    pub open spec fn stepped(self, input: Option<u32>) -> Result<(State, Event), Error> {
        if self.counter >= self.instructions.len() {
            Ok((self, Event::Finished))
        } else {
            match self.executed(self.instructions[self.counter as int], input) {
                Err(e) => Err(e),
                Ok((s, event)) => if event == Event::Jumped || event == Event::AwaitInput {
                    Ok((s, event))
                } else {
                    Ok((State { counter: (s.counter + 1) as usize, ..s }, event))
                },
            }
        }
    }

    /// The machine after it ran without input for `limit` steps at most, and
    /// why it stopped: at the end of the program, at an output, at an
    /// instruction that waits for input, at a step that failed, or, with
    /// [`Event::Executed`], at the limit. A step that fails leaves the
    /// machine as it was before that step.
    pub open spec fn ran(self, limit: nat) -> (State, Result<Event, Error>)
        decreases limit,
    {
        if limit == 0 {
            (self, Ok(Event::Executed))
        } else {
            match self.stepped(None) {
                Err(e) => (self, Err(e)),
                Ok((s, event)) => if event == Event::Executed || event == Event::Jumped {
                    s.ran((limit - 1) as nat)
                } else {
                    (s, Ok(event))
                },
            }
        }
    }

    /// The machine after the instructions among the items were added to its
    /// program, from the first to the last.
    pub open spec fn with_items(self, items: Seq<Item>) -> Result<State, Error>
        decreases items.len(),
    {
        if items.len() == 0 {
            Ok(self)
        } else {
            match items[0] {
                Item::Section(_) => self.with_items(items.skip(1)),
                Item::Line(i) => match self.with_instruction(i) {
                    Err(e) => Err(e),
                    Ok(s) => s.with_items(items.skip(1)),
                },
            }
        }
    }

    /// The machine after an instruction was added to its program. The
    /// definition of a label goes to the end of the program and is noted as
    /// the place of the label; a declaration goes to the memory; any other
    /// instruction goes to the end of the program. An array that reaches
    /// beyond the last variable is an error.
    pub open spec fn with_instruction(self, i: Instruction) -> Result<State, Error> {
        match i {
            Instruction::LABEL(l) => Ok(
                State {
                    instructions: self.instructions.push(i),
                    label_indices: self.label_indices.insert(
                        l.name,
                        self.instructions.len() as usize,
                    ),
                    ..self
                },
            ),
            Instruction::VARIABLE(v, value) => Ok(self.with_variable(v, value)),
            Instruction::ARRAY(v, value, length) => if v.name + array_span(length) > MAX_VARIABLE
                + 1 {
                Err(Error::Overflow)
            } else {
                Ok(State { memory: filled(self.memory, v.name, value, array_span(length)), ..self })
            },
            _ => Ok(State { instructions: self.instructions.push(i), ..self }),
        }
    }
}

/// Whether every label that a machine knows as defined stands for a place
/// of the program, and the instruction at that place defines the label.
pub open spec fn labels_defined(s: State) -> bool {
    forall|key: u16| #[trigger]
        s.label_indices.contains_key(key) ==> s.label_indices[key] < s.instructions.len()
            && s.instructions[s.label_indices[key] as int] == Instruction::LABEL(
            Label { name: key },
        )
}

/// The operands whose values an instruction reads, in the order in which it
/// reads them.
pub open spec fn operands_read(i: Instruction) -> Seq<Parameter> {
    match i {
        Instruction::LDA(_, p)
        | Instruction::STR(_, p)
        | Instruction::PUSH(p)
        | Instruction::AND(_, p)
        | Instruction::OR(_, p)
        | Instruction::ADD(_, p)
        | Instruction::SUB(_, p)
        | Instruction::DIV(_, p)
        | Instruction::MUL(_, p)
        | Instruction::MOD(_, p)
        | Instruction::OUT(p) => seq![p],
        Instruction::BEQ(p, q, _)
        | Instruction::BNE(p, q, _)
        | Instruction::BBG(p, q, _)
        | Instruction::BSM(p, q, _) => seq![p, q],
        _ => Seq::empty(),
    }
}

/// Whether an operand is a variable that was never written.
pub open spec fn unwritten(s: State, p: Parameter) -> bool {
    p matches Parameter::Variable(v) && value_at(s.memory, v.name) is None
}

/// The first variable that was never written among the operands that the
/// next instruction reads.
pub open spec fn unwritten_read(s: State) -> Option<Variable> {
    if s.counter >= s.instructions.len() {
        None
    } else {
        let read = operands_read(s.instructions[s.counter as int]);
        if read.len() > 0 && unwritten(s, read[0]) {
            Some(read[0]->Variable_0)
        } else if read.len() > 1 && unwritten(s, read[1]) {
            Some(read[1]->Variable_0)
        } else {
            None
        }
    }
}

/// Whether one of the items defines the label of the given number.
pub open spec fn defines(items: Seq<Item>, name: u16) -> bool {
    exists|k: int|
        0 <= k < items.len() && #[trigger] items[k] == Item::Line(
            Instruction::LABEL(Label { name }),
        )
}

/// Whether a jump or a branch to the given label, if it is one, finds its
/// label among those that the machine knows as defined and those that the
/// items define.
pub open spec fn known(s: State, items: Seq<Item>, t: Option<Label>) -> bool {
    t matches Some(l) ==> s.label_indices.contains_key(l.name) || defines(items, l.name)
}

/// Whether every jump and every branch, of the program and of the items,
/// goes to a label that is known as defined or that the items define.
pub open spec fn resolves(s: State, items: Seq<Item>) -> bool {
    &&& forall|k: int|
        0 <= k < s.instructions.len() ==> known(s, items, #[trigger] target(s.instructions[k]))
    &&& forall|k: int|
        0 <= k < items.len() ==> (#[trigger] items[k] matches Item::Line(i) ==> known(
            s,
            items,
            target(i),
        ))
}

/// Whether an item can be added to a program: an array must end at the last
/// variable or before it.
pub open spec fn fits(item: Item) -> bool {
    item matches Item::Line(Instruction::ARRAY(v, _, length)) ==> v.name + array_span(length)
        <= MAX_VARIABLE + 1
}

/// What loading a file into a machine gives: the machine with the lines of
/// the file added to its program, its memory and its symbol tables. The file
/// must be read and translated to its end, no array may reach beyond the last
/// variable, and in the end every jump and every branch must go to a label
/// that the program defines.
pub open spec fn loaded(s: State, extension: Extension, contents: Seq<u8>) -> Result<
    State,
    Error,
> {
    match lines_of(extension, contents) {
        Err(e) => Err(e),
        Ok(lines) => match items_of(lines, LineCategory::NONE, s.variable_names, s.label_names) {
            Err(e) => Err(e),
            Ok((items, v, l)) => match (State { variable_names: v, label_names: l, ..s }).with_items(
                items,
            ) {
                Err(e) => Err(e),
                Ok(after) => if after.resolved() {
                    Ok(after)
                } else {
                    Err(Error::UnresolvedLabel)
                },
            },
        },
    }
}

impl View for Program {
    type V = State;

    closed spec fn view(&self) -> State {
        State {
            instructions: self.instructions@,
            registers: self.registers@,
            variable_names: self.variable_names@,
            label_names: self.label_names@,
            label_indices: self.label_indices@,
            stack: self.stack@,
            memory: cells(self.memory),
            counter: self.counter,
            verbose: self.verbose,
        }
    }
}

impl Program {
    /// Whether the two symbol tables are of their kinds.
    pub closed spec fn tables_fit(&self) -> bool {
        self.variable_names.kind_of() == NameKind::Variable && self.label_names.kind_of()
            == NameKind::Label
    }

    /// What holds of a machine at all times: see [`State::wf`]; and its
    /// table of variables is one of variables, its table of labels one of
    /// labels.
    pub open spec fn wf(&self) -> bool {
        self@.wf() && self.tables_fit()
    }

    /// A machine with no program, nothing written and nothing on the stack.
    pub fn new() -> (program: Program)
        ensures
            program@ == State::empty(),
            program.wf(),
    {
        let program = Program {
            instructions: Vec::new(),
            registers: HashMap::new(),
            variable_names: AddressNames::new(),
            label_names: AddressNames::labels(),
            label_indices: HashMap::new(),
            stack: Vec::new(),
            memory: empty(),
            counter: 0,
            verbose: false,
        };
        program
    }

    /// The program, without its declarations.
    pub fn instructions(&self) -> (r: &Vec<Instruction>)
        ensures
            r@ == self@.instructions,
    {
        &self.instructions
    }

    /// The place of the instruction that is executed next.
    pub fn counter(&self) -> (r: usize)
        ensures
            r == self@.counter,
    {
        self.counter
    }

    /// Whether the caller wants to be told more.
    pub fn verbose(&self) -> (r: bool)
        ensures
            r == self@.verbose,
    {
        self.verbose
    }

    /// Notes whether the caller wants to be told more.
    pub fn set_verbose(&mut self, verbose: bool)
        ensures
            final(self)@ == (State { verbose, ..old(self)@ }),
            final(self).tables_fit() == old(self).tables_fit(),
    {
        self.verbose = verbose;
    }

    /// The stack; its top is the last element.
    pub fn stack(&self) -> (r: &Vec<u32>)
        ensures
            r@ == self@.stack,
    {
        &self.stack
    }

    /// The names of the variables.
    pub fn variable_names(&self) -> (r: &AddressNames)
        ensures
            r@ == self@.variable_names,
            self.tables_fit() ==> r.kind_of() == NameKind::Variable,
    {
        &self.variable_names
    }

    /// The names of the labels.
    pub fn label_names(&self) -> (r: &AddressNames)
        ensures
            r@ == self@.label_names,
            self.tables_fit() ==> r.kind_of() == NameKind::Label,
    {
        &self.label_names
    }

    /// The variables that were written, in the order in which they were
    /// written first, with their values.
    pub fn memory(&self) -> (r: Vec<(u16, u32)>)
        ensures
            r@ == self@.memory,
    {
        let n = size(&self.memory);
        let mut r: Vec<(u16, u32)> = Vec::new();
        let mut i: usize = 0;
        while i < n
            invariant
                i <= n == cells(self.memory).len(),
                r@ == cells(self.memory).take(i as int),
            decreases n - i,
        {
            match cell(&self.memory, i) {
                Some(pair) => {
                    r.push(pair);
                    assert(cells(self.memory).take(i + 1) =~= cells(self.memory).take(
                        i as int,
                    ).push(pair));
                },
                None => {},
            }
            i += 1;
        }
        r
    }

    /// The value of a variable; 0 for a variable that was never written.
    pub fn get_variable(&self, name: Variable) -> (value: u32)
        ensures
            value == self@.variable_value(name),
    {
        match fetch(&self.memory, name.name) {
            Some(value) => value,
            None => 0,
        }
    }

    /// Whether a variable was ever written.
    pub fn has_variable(&self, name: Variable) -> (b: bool)
        ensures
            b == value_at(self@.memory, name.name) is Some,
    {
        fetch(&self.memory, name.name).is_some()
    }

    /// The first variable that was never written among the operands that
    /// the next instruction reads: the step that comes next reads 0 for it.
    pub fn unwritten_operand(&self) -> (r: Option<Variable>)
        ensures
            r == unwritten_read(self@),
    {
        if self.counter >= self.instructions.len() {
            return None;
        }
        let (p, q) = match self.instructions[self.counter] {
            Instruction::LDA(_, p)
            | Instruction::STR(_, p)
            | Instruction::PUSH(p)
            | Instruction::AND(_, p)
            | Instruction::OR(_, p)
            | Instruction::ADD(_, p)
            | Instruction::SUB(_, p)
            | Instruction::DIV(_, p)
            | Instruction::MUL(_, p)
            | Instruction::MOD(_, p)
            | Instruction::OUT(p) => (Some(p), None),
            Instruction::BEQ(p, q, _)
            | Instruction::BNE(p, q, _)
            | Instruction::BBG(p, q, _)
            | Instruction::BSM(p, q, _) => (Some(p), Some(q)),
            _ => (None, None),
        };
        if let Some(Parameter::Variable(v)) = p {
            if !self.has_variable(v) {
                return Some(v);
            }
        }
        if let Some(Parameter::Variable(v)) = q {
            if !self.has_variable(v) {
                return Some(v);
            }
        }
        None
    }

    /// Writes a variable.
    pub fn set_variable(&mut self, name: Variable, value: u32)
        ensures
            final(self)@ == old(self)@.with_variable(name, value),
            final(self).tables_fit() == old(self).tables_fit(),
    {
        store(&mut self.memory, name.name, value);
    }

    /// The value of a register. A register that was never written is
    /// [`Error::UninitRegister`].
    pub fn get_register(&self, register: Register) -> (r: Result<u32, Error>)
        ensures
            r == self@.register_value(register),
    {
        let key = register.index();
        match self.registers.get(&key) {
            Some(value) => Ok(*value),
            None => Err(Error::UninitRegister),
        }
    }

    /// Writes a register.
    pub fn set_register(&mut self, register: Register, value: u32)
        ensures
            final(self)@ == old(self)@.with_register(register, value),
            final(self).tables_fit() == old(self).tables_fit(),
    {
        self.registers.insert(register.index(), value);
    }

    /// The place at which a label is defined. A label that the program does
    /// not define is [`Error::Undefined`].
    pub fn find_label(&self, label: &Label) -> (r: Result<usize, Error>)
        ensures
            match r {
                Ok(k) => self@.label_indices.contains_key(label.name) && k
                    == self@.label_indices[label.name],
                Err(e) => !self@.label_indices.contains_key(label.name) && e == Error::Undefined,
            },
            self.wf() ==> (r matches Ok(k) ==> k < self@.instructions.len()
                && self@.instructions[k as int] == Instruction::LABEL(*label)),
    {
        match self.label_indices.get(&label.name) {
            Some(k) => Ok(*k),
            None => Err(Error::Undefined),
        }
    }

    /// The value of an operand.
    pub fn value(&self, parameter: &Parameter) -> (r: Result<u32, Error>)
        ensures
            r == self@.value(*parameter),
    {
        match parameter {
            Parameter::Register(register) => self.get_register(*register),
            Parameter::Variable(variable) => Ok(self.get_variable(*variable)),
            Parameter::Constant(constant) => Ok(*constant),
        }
    }

    /// Adds an instruction to the program: a declaration goes to the memory,
    /// any other instruction to the end of the program, and the definition
    /// of a label is noted as the place of the label. An array that reaches
    /// beyond the last variable is [`Error::Overflow`] and changes nothing.
    pub fn add_instruction(&mut self, instruction: Instruction) -> (r: Result<(), Error>)
        requires
            old(self).wf(),
        ensures
            final(self).wf(),
            match old(self)@.with_instruction(instruction) {
                Ok(s) => r is Ok && final(self)@ == s,
                Err(e) => r == Err::<(), Error>(e) && final(self)@ == old(self)@,
            },
    {
        match instruction {
            Instruction::LABEL(label) => {
                let place = self.instructions.len();
                self.instructions.push(instruction);
                self.label_indices.insert(label.name, place);
                proof {
                    assert(self.instructions@.len() == self.instructions.len());
                }
                Ok(())
            },
            Instruction::VARIABLE(variable, value) => {
                self.set_variable(variable, value);
                Ok(())
            },
            Instruction::ARRAY(variable, value, length) => {
                let count: u16 = if length == 0 {
                    1
                } else {
                    length
                };
                if variable.name as u32 + count as u32 > MAX_VARIABLE as u32 + 1 {
                    return Err(Error::Overflow);
                }
                let mut i: u16 = 0;
                while i < count
                    invariant
                        i <= count,
                        variable.name + count <= MAX_VARIABLE + 1,
                        self@ == (State { memory: self@.memory, ..old(self)@ }),
                        self.tables_fit(),
                        filled(old(self)@.memory, variable.name, value, count as nat) == filled(
                            self@.memory,
                            (variable.name + i) as u16,
                            value,
                            (count - i) as nat,
                        ),
                    decreases count - i,
                {
                    self.set_variable(Variable { name: variable.name + i }, value);
                    i += 1;
                }
                Ok(())
            },
            _ => {
                self.instructions.push(instruction);
                proof {
                    assert(self.instructions@.len() == self.instructions.len());
                }
                Ok(())
            },
        }
    }

    /// Jumps to a label.
    fn jump(&mut self, label: &Label) -> (r: Result<Event, Error>)
        requires
            old(self).wf(),
        ensures
            final(self).wf(),
            match old(self)@.jumped(*label) {
                Ok((s, event)) => r == Ok::<Event, Error>(event) && final(self)@ == s,
                Err(e) => r == Err::<Event, Error>(e) && final(self)@ == old(self)@,
            },
    {
        let place = self.find_label(label)?;
        self.counter = place;
        Ok(Event::Jumped)
    }

    /// Executes the instruction at a place of the program, which must be
    /// there, and says what is left for the caller to do. The counter is
    /// changed by a jump, by a branch that is taken and by `HLT` alone; to
    /// move it on otherwise is left to the caller. `input` is the number
    /// that was read for an `IN`; without it an `IN` changes nothing and
    /// gives [`Event::AwaitInput`]. An instruction that fails changes nothing.
    pub fn execute_instruction(&mut self, index: usize, input: Option<u32>) -> (r: Result<
        Event,
        Error,
    >)
        requires
            old(self).wf(),
            index < old(self)@.instructions.len(),
        ensures
            final(self).wf(),
            match old(self)@.executed(old(self)@.instructions[index as int], input) {
                Ok((s, event)) => r == Ok::<Event, Error>(event) && final(self)@ == s,
                Err(e) => r == Err::<Event, Error>(e) && final(self)@ == old(self)@,
            },
            final(self)@.instructions == old(self)@.instructions,
            r matches Ok(event) ==> event != Event::Finished,
    {
        let instruction = self.instructions[index];
        match instruction {
            Instruction::LDA(_, _)
            | Instruction::STR(_, _)
            | Instruction::PUSH(_)
            | Instruction::POP(_)
            | Instruction::OUT(_) => self.transfer(instruction),
            Instruction::AND(register, parameter) => self.operate(OP_AND, register, &parameter),
            Instruction::OR(register, parameter) => self.operate(OP_OR, register, &parameter),
            Instruction::ADD(register, parameter) => self.operate(OP_ADD, register, &parameter),
            Instruction::SUB(register, parameter) => self.operate(OP_SUB, register, &parameter),
            Instruction::MUL(register, parameter) => self.operate(OP_MUL, register, &parameter),
            Instruction::DIV(register, parameter) => self.operate(OP_DIV, register, &parameter),
            Instruction::MOD(register, parameter) => self.operate(OP_MOD, register, &parameter),
            Instruction::NOT(_)
            | Instruction::INC(_)
            | Instruction::DEC(_)
            | Instruction::SRL(_, _)
            | Instruction::SRR(_, _) => self.update(instruction),
            Instruction::BEQ(_, _, _)
            | Instruction::BNE(_, _, _)
            | Instruction::BSM(_, _, _)
            | Instruction::BBG(_, _, _) => self.branch(instruction),
            Instruction::JMP(label) => self.jump(&label),
            Instruction::HLT => {
                self.counter = self.instructions.len();
                Ok(Event::Jumped)
            },
            Instruction::IN(parameter) => self.read(&parameter, input),
            Instruction::LABEL(_) | Instruction::VARIABLE(_, _) | Instruction::ARRAY(_, _, _) => Ok(
                Event::Executed,
            ),
        }
    }

    /// Executes an instruction that moves a value: `LDA`, `STR`, `PUSH`,
    /// `POP` or `OUT`.
    fn transfer(&mut self, instruction: Instruction) -> (r: Result<Event, Error>)
        requires
            old(self).wf(),
            instruction is LDA || instruction is STR || instruction is PUSH || instruction is POP
                || instruction is OUT,
        ensures
            final(self).wf(),
            match old(self)@.executed(instruction, None) {
                Ok((s, event)) => r == Ok::<Event, Error>(event) && final(self)@ == s,
                Err(e) => r == Err::<Event, Error>(e) && final(self)@ == old(self)@,
            },
            final(self)@.instructions == old(self)@.instructions,
            r matches Ok(event) ==> event != Event::Finished,
    {
        match instruction {
            Instruction::LDA(register, parameter) => {
                let value = self.value(&parameter)?;
                self.set_register(register, value);
                Ok(Event::Executed)
            },
            Instruction::STR(variable, parameter) => {
                let value = self.value(&parameter)?;
                self.set_variable(variable, value);
                Ok(Event::Executed)
            },
            Instruction::PUSH(parameter) => {
                let value = self.value(&parameter)?;
                self.stack.push(value);
                Ok(Event::Executed)
            },
            Instruction::POP(register) => {
                match self.stack.pop() {
                    Some(value) => {
                        self.set_register(register, value);
                        Ok(Event::Executed)
                    },
                    None => Err(Error::StackUnderflow),
                }
            },
            Instruction::OUT(parameter) => {
                let value = self.value(&parameter)?;
                Ok(Event::Output(value))
            },
            _ => Ok(Event::Executed),
        }
    }

    /// Executes an instruction that changes a register by itself: `NOT`,
    /// `INC`, `DEC`, `SRL` or `SRR`.
    fn update(&mut self, instruction: Instruction) -> (r: Result<Event, Error>)
        requires
            old(self).wf(),
            instruction is NOT || instruction is INC || instruction is DEC || instruction is SRL
                || instruction is SRR,
        ensures
            final(self).wf(),
            match old(self)@.executed(instruction, None) {
                Ok((s, event)) => r == Ok::<Event, Error>(event) && final(self)@ == s,
                Err(e) => r == Err::<Event, Error>(e) && final(self)@ == old(self)@,
            },
            final(self)@.instructions == old(self)@.instructions,
            r matches Ok(event) ==> event != Event::Finished,
    {
        match instruction {
            Instruction::NOT(register) => {
                let value = self.get_register(register)?;
                self.set_register(register, !value);
            },
            Instruction::INC(register) => {
                let value = self.get_register(register)?;
                self.set_register(register, sum(value, 1));
            },
            Instruction::DEC(register) => {
                let value = self.get_register(register)?;
                self.set_register(register, difference(value, 1));
            },
            Instruction::SRL(register, distance) => {
                let value = self.get_register(register)?;
                let result = if distance >= 32 {
                    0
                } else {
                    value << distance
                };
                self.set_register(register, result);
            },
            Instruction::SRR(register, distance) => {
                let value = self.get_register(register)?;
                let result = if distance >= 32 {
                    0
                } else {
                    value >> distance
                };
                self.set_register(register, result);
            },
            _ => {},
        }
        Ok(Event::Executed)
    }

    /// Executes a branch: `BEQ`, `BNE`, `BSM` or `BBG`.
    fn branch(&mut self, instruction: Instruction) -> (r: Result<Event, Error>)
        requires
            old(self).wf(),
            instruction is BEQ || instruction is BNE || instruction is BSM || instruction is BBG,
        ensures
            final(self).wf(),
            match old(self)@.executed(instruction, None) {
                Ok((s, event)) => r == Ok::<Event, Error>(event) && final(self)@ == s,
                Err(e) => r == Err::<Event, Error>(e) && final(self)@ == old(self)@,
            },
            final(self)@.instructions == old(self)@.instructions,
            r matches Ok(event) ==> event != Event::Finished,
    {
        let (p, q, label, taken) = match instruction {
            Instruction::BEQ(p, q, label) => {
                let a = self.value(&p)?;
                let b = self.value(&q)?;
                (p, q, label, a == b)
            },
            Instruction::BNE(p, q, label) => {
                let a = self.value(&p)?;
                let b = self.value(&q)?;
                (p, q, label, a != b)
            },
            Instruction::BSM(p, q, label) => {
                let a = self.value(&p)?;
                let b = self.value(&q)?;
                (p, q, label, a < b)
            },
            Instruction::BBG(p, q, label) => {
                let a = self.value(&p)?;
                let b = self.value(&q)?;
                (p, q, label, a > b)
            },
            _ => {
                return Ok(Event::Executed);
            },
        };
        if taken {
            self.jump(&label)
        } else {
            Ok(Event::Executed)
        }
    }

    /// Executes an `IN`.
    fn read(&mut self, parameter: &Parameter, input: Option<u32>) -> (r: Result<Event, Error>)
        requires
            old(self).wf(),
        ensures
            final(self).wf(),
            match old(self)@.executed(Instruction::IN(*parameter), input) {
                Ok((s, event)) => r == Ok::<Event, Error>(event) && final(self)@ == s,
                Err(e) => r == Err::<Event, Error>(e) && final(self)@ == old(self)@,
            },
            final(self)@.instructions == old(self)@.instructions,
            r matches Ok(event) ==> event != Event::Finished,
    {
        match parameter {
            Parameter::Constant(_) => Err(Error::InvalidTarget),
            Parameter::Register(register) => match input {
                Some(value) => {
                    self.set_register(*register, value);
                    Ok(Event::Executed)
                },
                None => Ok(Event::AwaitInput),
            },
            Parameter::Variable(variable) => match input {
                Some(value) => {
                    self.set_variable(*variable, value);
                    Ok(Event::Executed)
                },
                None => Ok(Event::AwaitInput),
            },
        }
    }

    /// Computes a value from a register and an operand and leaves it in the register.
    fn operate(&mut self, opcode: u32, register: Register, parameter: &Parameter) -> (r: Result<
        Event,
        Error,
    >)
        requires
            old(self).wf(),
        ensures
            final(self).wf(),
            match old(self)@.operated(opcode, register, *parameter) {
                Ok((s, event)) => r == Ok::<Event, Error>(event) && final(self)@ == s,
                Err(e) => r == Err::<Event, Error>(e) && final(self)@ == old(self)@,
            },
    {
        let b = self.value(parameter)?;
        let a = self.get_register(register)?;
        let c = compute(opcode, a, b)?;
        self.set_register(register, c);
        Ok(Event::Executed)
    }

    /// Executes the instruction at the counter and moves the counter on by
    /// one, unless the instruction has set the counter or waits for input.
    /// Behind the last instruction nothing happens. A step that fails
    /// changes nothing.
    pub fn step(&mut self, input: Option<u32>) -> (r: Result<Event, Error>)
        requires
            old(self).wf(),
        ensures
            final(self).wf(),
            match old(self)@.stepped(input) {
                Ok((s, event)) => r == Ok::<Event, Error>(event) && final(self)@ == s,
                Err(e) => r == Err::<Event, Error>(e) && final(self)@ == old(self)@,
            },
            final(self)@.instructions == old(self)@.instructions,
    {
        if self.counter >= self.instructions.len() {
            return Ok(Event::Finished);
        }
        let event = self.execute_instruction(self.counter, input)?;
        match event {
            Event::Jumped | Event::AwaitInput => {},
            _ => {
                self.counter = self.counter + 1;
            },
        }
        Ok(event)
    }

    /// Runs the program without input for `limit` steps at most, and says
    /// why it stopped: at the end of the program, at an output, at an
    /// instruction that waits for input, at a step that failed, or, with
    /// [`Event::Executed`], at the limit. A step that fails leaves the
    /// machine as it was before that step.
    pub fn run(&mut self, limit: usize) -> (r: Result<Event, Error>)
        requires
            old(self).wf(),
        ensures
            final(self).wf(),
            (final(self)@, r) == old(self)@.ran(limit as nat),
            final(self)@.instructions == old(self)@.instructions,
    {
        let mut left = limit;
        while left > 0
            invariant
                self.wf(),
                self@.instructions == old(self)@.instructions,
                old(self)@.ran(limit as nat) == self@.ran(left as nat),
            decreases left,
        {
            match self.step(None) {
                Err(e) => {
                    return Err(e);
                },
                Ok(event) => {
                    match event {
                        Event::Executed | Event::Jumped => {},
                        _ => {
                            return Ok(event);
                        },
                    }
                },
            }
            left -= 1;
        }
        Ok(Event::Executed)
    }

    /// Whether the program, with the items, defines the label that an
    /// instruction jumps or branches to, if it does so at all.
    #[verifier::loop_isolation(false)]
    fn knows(&self, items: &Vec<Item>, instruction: &Instruction) -> (b: bool)
        ensures
            b == known(self@, items@, target(*instruction)),
    {
        let label = match instruction {
            Instruction::BEQ(_, _, label)
            | Instruction::BNE(_, _, label)
            | Instruction::BBG(_, _, label)
            | Instruction::BSM(_, _, label)
            | Instruction::JMP(label) => *label,
            _ => {
                return true;
            },
        };
        if self.label_indices.get(&label.name).is_some() {
            return true;
        }
        let mut k: usize = 0;
        while k < items.len()
            invariant
                k <= items.len(),
                forall|j: int|
                    0 <= j < k ==> #[trigger] items@[j] != Item::Line(
                        Instruction::LABEL(Label { name: label.name }),
                    ),
            decreases items.len() - k,
        {
            match items[k] {
                Item::Line(Instruction::LABEL(defined)) => {
                    if defined.name == label.name {
                        assert(items@[k as int] == Item::Line(
                            Instruction::LABEL(Label { name: label.name }),
                        ));
                        return true;
                    }
                },
                _ => {},
            }
            k += 1;
        }
        false
    }

    /// Whether every jump and every branch, of the program and of the
    /// items, goes to a label that the program, with the items, defines.
    fn resolves(&self, items: &Vec<Item>) -> (b: bool)
        ensures
            b == resolves(self@, items@),
    {
        let mut k: usize = 0;
        while k < self.instructions.len()
            invariant
                k <= self.instructions.len(),
                self.instructions@ == self@.instructions,
                forall|j: int|
                    0 <= j < k ==> known(self@, items@, #[trigger] target(self@.instructions[j])),
            decreases self.instructions.len() - k,
        {
            if !self.knows(items, &self.instructions[k]) {
                return false;
            }
            k += 1;
        }
        let mut k: usize = 0;
        while k < items.len()
            invariant
                k <= items.len(),
                forall|j: int|
                    0 <= j < self@.instructions.len() ==> known(
                        self@,
                        items@,
                        #[trigger] target(self@.instructions[j]),
                    ),
                forall|j: int|
                    0 <= j < k ==> (#[trigger] items@[j] matches Item::Line(i) ==> known(
                        self@,
                        items@,
                        target(i),
                    )),
            decreases items.len() - k,
        {
            match &items[k] {
                Item::Line(instruction) => {
                    if !self.knows(items, instruction) {
                        return false;
                    }
                },
                Item::Section(_) => {},
            }
            k += 1;
        }
        true
    }

    /// Loads a file with the given contents: its lines are read and
    /// translated, its declarations go to the memory, its instructions to
    /// the end of the program, and its names to the symbol tables. In the
    /// end every jump and every branch of the program must go to a label
    /// that the program defines. A file that cannot be loaded changes nothing.
    pub fn load(&mut self, file: CoFile, contents: &[u8]) -> (r: Result<(), Error>)
        requires
            old(self).wf(),
        ensures
            final(self).wf(),
            match loaded(old(self)@, file.extension, contents@) {
                Ok(s) => r is Ok && final(self)@ == s,
                Err(e) => r == Err::<(), Error>(e) && final(self)@ == old(self)@,
            },
            r is Ok ==> final(self)@.resolved(),
            labels_defined(final(self)@),
    {
        let lines = file.read(contents)?;
        let variables_before = self.variable_names.len();
        let labels_before = self.label_names.len();
        let items = parse_lines(&lines, &mut self.variable_names, &mut self.label_names)?;
        let ghost start = self@;
        proof {
            lemma_with_items_fits(start, items@);
            if start.with_items(items@) is Ok {
                lemma_with_items_resolved(start, items@);
            }
        }
        if !all_fit(&items) {
            self.variable_names.truncate(variables_before);
            self.label_names.truncate(labels_before);
            return Err(Error::Overflow);
        }
        if !self.resolves(&items) {
            self.variable_names.truncate(variables_before);
            self.label_names.truncate(labels_before);
            return Err(Error::UnresolvedLabel);
        }
        let mut i: usize = 0;
        assert(items@.skip(0) =~= items@);
        while i < items.len()
            invariant
                i <= items.len(),
                self.wf(),
                start.with_items(items@) is Ok,
                start.with_items(items@) == self@.with_items(items@.skip(i as int)),
            decreases items.len() - i,
        {
            assert(items@.skip(i as int).skip(1) =~= items@.skip(i + 1));
            match items[i] {
                Item::Section(_) => {},
                Item::Line(instruction) => {
                    match self.add_instruction(instruction) {
                        Ok(()) => {},
                        Err(e) => {
                            return Err(e);
                        },
                    }
                },
            }
            i += 1;
        }
        Ok(())
    }
}

/// Whether every item can be added to a program.
fn all_fit(items: &Vec<Item>) -> (b: bool)
    ensures
        b == forall|k: int| 0 <= k < items@.len() ==> fits(#[trigger] items@[k]),
{
    let mut k: usize = 0;
    while k < items.len()
        invariant
            k <= items.len(),
            forall|j: int| 0 <= j < k ==> fits(#[trigger] items@[j]),
        decreases items.len() - k,
    {
        match items[k] {
            Item::Line(Instruction::ARRAY(variable, _, length)) => {
                let count: u32 = if length == 0 {
                    1
                } else {
                    length as u32
                };
                if variable.name as u32 + count > MAX_VARIABLE as u32 + 1 {
                    return false;
                }
            },
            _ => {},
        }
        k += 1;
    }
    true
}

/// Adds two words modulo 2^32.
fn sum(a: u32, b: u32) -> (c: u32)
    ensures
        c == wrapping_sum(a, b),
{
    ((a as u64 + b as u64) % 0x1_0000_0000) as u32
}

/// Subtracts a word from another modulo 2^32.
fn difference(a: u32, b: u32) -> (c: u32)
    ensures
        c == wrapping_difference(a, b),
{
    ((a as u64 + 0x1_0000_0000 - b as u64) % 0x1_0000_0000) as u32
}

/// Multiplies two words modulo 2^32.
fn product(a: u32, b: u32) -> (c: u32)
    ensures
        c == wrapping_product(a, b),
{
    assert(a * b <= 0xffff_ffff * 0xffff_ffff) by (nonlinear_arith)
        requires
            a <= 0xffff_ffff,
            b <= 0xffff_ffff,
    ;
    ((a as u64 * b as u64) % 0x1_0000_0000) as u32
}

/// Computes what an instruction of two values computes.
fn compute(opcode: u32, a: u32, b: u32) -> (r: Result<u32, Error>)
    ensures
        r == computed(opcode, a, b),
{
    if opcode == OP_AND {
        Ok(a & b)
    } else if opcode == OP_OR {
        Ok(a | b)
    } else if opcode == OP_ADD {
        Ok(sum(a, b))
    } else if opcode == OP_SUB {
        Ok(difference(a, b))
    } else if opcode == OP_MUL {
        Ok(product(a, b))
    } else if b == 0 {
        Err(Error::DivByZero)
    } else if opcode == OP_DIV {
        Ok(a / b)
    } else {
        Ok(a % b)
    }
}

/// Adding items to a program fails on the first array that reaches beyond
/// the last variable, and on nothing else.
pub proof fn lemma_with_items_fits(s: State, items: Seq<Item>)
    ensures
        s.with_items(items) is Ok <==> forall|k: int| 0 <= k < items.len() ==> fits(#[trigger] items[k]),
        s.with_items(items) matches Err(e) ==> e == Error::Overflow,
    decreases items.len(),
{
    if items.len() > 0 {
        let rest = items.skip(1);
        match items[0] {
            Item::Section(_) => {
                lemma_with_items_fits(s, rest);
            },
            Item::Line(i) => {
                if let Ok(next) = s.with_instruction(i) {
                    lemma_with_items_fits(next, rest);
                }
            },
        }
        if s.with_items(items) is Ok {
            assert forall|k: int| 0 <= k < items.len() implies fits(#[trigger] items[k]) by {
                if k > 0 {
                    assert(fits(rest[k - 1]));
                }
            }
        }
    }
}

/// After items were added to a program, every jump and every branch of the
/// program goes to a label that the program defines if and only if it did so
/// before, counting the labels that the items define, and the same holds of
/// the jumps and branches among the items.
pub proof fn lemma_with_items_resolved(s: State, items: Seq<Item>)
    requires
        s.with_items(items) is Ok,
    ensures
        s.with_items(items)->Ok_0.resolved() <==> resolves(s, items),
    decreases items.len(),
{
    if items.len() > 0 {
        let rest = items.skip(1);
        let next = match items[0] {
            Item::Section(_) => s,
            Item::Line(i) => s.with_instruction(i)->Ok_0,
        };
        lemma_with_items_resolved(next, rest);
        // A label is known after the first item, counting what the rest
        // defines, exactly if it was known before, counting what all define.
        assert forall|t: Option<Label>| known(next, rest, t) == known(s, items, t) by {
            if let Some(l) = t {
                if defines(items, l.name) {
                    let k = choose|k: int|
                        0 <= k < items.len() && #[trigger] items[k] == Item::Line(
                            Instruction::LABEL(Label { name: l.name }),
                        );
                    if k > 0 {
                        assert(rest[k - 1] == items[k]);
                    }
                }
            }
        }
        if resolves(next, rest) {
            assert forall|k: int| 0 <= k < s.instructions.len() implies known(
                s,
                items,
                #[trigger] target(s.instructions[k]),
            ) by {
                assert(next.instructions[k] == s.instructions[k]);
            }
            assert forall|k: int| 0 <= k < items.len() implies (#[trigger] items[k] matches Item::Line(
                i,
            ) ==> known(s, items, target(i))) by {
                if k > 0 {
                    assert(rest[k - 1] == items[k]);
                } else if let Item::Line(i) = items[0] {
                    if target(i) is Some {
                        assert(next.instructions[s.instructions.len() as int] == i);
                    }
                }
            }
        }
    }
}

/// Whether two machines have the same program, the same places of labels
/// and the same symbol tables.
pub open spec fn same_program(s: State, t: State) -> bool {
    &&& t.instructions == s.instructions
    &&& t.label_indices == s.label_indices
    &&& t.variable_names == s.variable_names
    &&& t.label_names == s.label_names
}

/// What holds of a machine at all times holds of every machine with the
/// same program whose counter is in range.
pub proof fn lemma_same_program_wf(s: State, t: State)
    requires
        s.wf(),
        same_program(s, t),
        t.counter <= t.instructions.len(),
    ensures
        t.wf(),
{
}

proof fn lemma_jump_frame(s: State, l: Label)
    requires
        labels_defined(s),
    ensures
        s.jumped(l) matches Ok((after, event)) ==> same_program(s, after) && after.counter
            < after.instructions.len(),
{
}

proof fn lemma_branch_frame(
    s: State,
    p: Parameter,
    q: Parameter,
    l: Label,
    condition: spec_fn(u32, u32) -> bool,
)
    requires
        labels_defined(s),
    ensures
        s.branched(p, q, l, condition) matches Ok((after, event)) ==> same_program(s, after) && (
        event == Event::Jumped ==> after.counter < after.instructions.len()) && (event
            != Event::Jumped ==> after.counter == s.counter),
{
    lemma_jump_frame(s, l);
}

proof fn lemma_operate_frame(s: State, opcode: u32, r: Register, p: Parameter)
    ensures
        s.operated(opcode, r, p) matches Ok((after, event)) ==> same_program(s, after)
            && after.counter == s.counter && event == Event::Executed,
{
}

proof fn lemma_update_frame(s: State, r: Register, change: spec_fn(u32) -> u32)
    ensures
        s.updated(r, change) matches Ok((after, event)) ==> same_program(s, after)
            && after.counter == s.counter && event == Event::Executed,
{
}

/// An instruction leaves the program, the places of the labels and the
/// symbol tables as they are. It leaves the counter as it is, or sets it to
/// the place of an instruction or right behind the last one.
pub proof fn lemma_execution_frame(s: State, i: Instruction, input: Option<u32>)
    requires
        labels_defined(s),
        s.instructions.len() <= usize::MAX,
    ensures
        s.executed(i, input) matches Ok((after, event)) ==> same_program(s, after) && (event
            == Event::Jumped ==> after.counter <= after.instructions.len()) && (event
            != Event::Jumped ==> after.counter == s.counter),
{
    match i {
        Instruction::AND(r, p) => lemma_operate_frame(s, OP_AND, r, p),
        Instruction::OR(r, p) => lemma_operate_frame(s, OP_OR, r, p),
        Instruction::ADD(r, p) => lemma_operate_frame(s, OP_ADD, r, p),
        Instruction::SUB(r, p) => lemma_operate_frame(s, OP_SUB, r, p),
        Instruction::MUL(r, p) => lemma_operate_frame(s, OP_MUL, r, p),
        Instruction::DIV(r, p) => lemma_operate_frame(s, OP_DIV, r, p),
        Instruction::MOD(r, p) => lemma_operate_frame(s, OP_MOD, r, p),
        Instruction::NOT(r) => lemma_update_frame(s, r, |a: u32| !a),
        Instruction::INC(r) => lemma_update_frame(s, r, |a: u32| wrapping_sum(a, 1)),
        Instruction::DEC(r) => lemma_update_frame(s, r, |a: u32| wrapping_difference(a, 1)),
        Instruction::SRL(r, k) => lemma_update_frame(s, r, |a: u32| shifted_left(a, k)),
        Instruction::SRR(r, k) => lemma_update_frame(s, r, |a: u32| shifted_right(a, k)),
        Instruction::BEQ(p, q, l) => lemma_branch_frame(s, p, q, l, |a: u32, b: u32| a == b),
        Instruction::BNE(p, q, l) => lemma_branch_frame(s, p, q, l, |a: u32, b: u32| a != b),
        Instruction::BSM(p, q, l) => lemma_branch_frame(s, p, q, l, |a: u32, b: u32| a < b),
        Instruction::BBG(p, q, l) => lemma_branch_frame(s, p, q, l, |a: u32, b: u32| a > b),
        Instruction::JMP(l) => lemma_jump_frame(s, l),
        _ => {},
    }
}

/// A step keeps what holds of a machine at all times; so the counter stands
/// at an instruction, or right behind the last one, after every step, and
/// every label that is known as defined still stands for the place of its
/// own definition.
pub proof fn lemma_step_keeps_wf(s: State, input: Option<u32>)
    requires
        s.wf(),
    ensures
        s.stepped(input) matches Ok((after, _)) ==> after.wf() && after.counter
            <= after.instructions.len() && after.instructions == s.instructions
            && after.label_indices == s.label_indices,
{
    if s.counter < s.instructions.len() {
        lemma_execution_frame(s, s.instructions[s.counter as int], input);
        match s.stepped(input) {
            Ok((after, _)) => lemma_same_program_wf(s, after),
            Err(_) => {},
        }
    }
}

/// A run keeps what holds of a machine at all times, however long it is.
pub proof fn lemma_run_keeps_wf(s: State, limit: nat)
    requires
        s.wf(),
    ensures
        s.ran(limit).0.wf(),
        s.ran(limit).0.counter <= s.ran(limit).0.instructions.len(),
        s.ran(limit).0.instructions == s.instructions,
        s.ran(limit).0.label_indices == s.label_indices,
    decreases limit,
{
    if limit > 0 {
        lemma_step_keeps_wf(s, None);
        match s.stepped(None) {
            Ok((next, event)) => {
                if event == Event::Executed || event == Event::Jumped {
                    lemma_run_keeps_wf(next, (limit - 1) as nat);
                }
            },
            Err(_) => {},
        }
    }
}

/// Adding an instruction keeps what holds of a machine at all times.
pub proof fn lemma_instruction_keeps_wf(s: State, i: Instruction)
    requires
        s.wf(),
        s.instructions.len() < usize::MAX,
    ensures
        s.with_instruction(i) matches Ok(after) ==> after.wf(),
{
}

/// A machine without its symbol tables.
pub open spec fn without_names(s: State) -> State {
    State { variable_names: Seq::empty(), label_names: Seq::empty(), ..s }
}

/// What items add to a machine does not depend on the symbol tables of the
/// machine.
pub proof fn lemma_with_items_without_names(s: State, items: Seq<Item>)
    ensures
        without_names(s).with_items(items) == (match s.with_items(items) {
            Ok(after) => Ok(without_names(after)),
            Err(e) => Err(e),
        }),
    decreases items.len(),
{
    if items.len() > 0 {
        match items[0] {
            Item::Section(_) => {
                lemma_with_items_without_names(s, items.skip(1));
            },
            Item::Line(i) => {
                match s.with_instruction(i) {
                    Ok(next) => {
                        assert(without_names(s).with_instruction(i) == Ok::<State, Error>(
                            without_names(next),
                        ));
                        lemma_with_items_without_names(next, items.skip(1));
                    },
                    Err(_) => {},
                }
            },
        }
    }
}

/// Loading the binary file that a file is assembled to gives the machine
/// that loading the file itself gives, but for the symbol tables, which a
/// binary file leaves empty; and it fails where loading the file itself
/// fails. This holds of a file whose items are all such that a binary file
/// can hold them.
pub proof fn lemma_export_then_load(extension: Extension, contents: Seq<u8>)
    requires
        exported(extension, contents) is Ok,
        forall|k: int|
            0 <= k < exported_items(extension, contents).len()
                ==> readable(
                #[trigger] exported_items(extension, contents)[k],
            ),
    ensures
        loaded(
            State::empty(),
            Extension::BIN,
            exported(extension, contents)->Ok_0,
        ) == (match loaded(State::empty(), extension, contents) {
            Ok(after) => Ok(without_names(after)),
            Err(e) => Err(e),
        }),
{
    let none = Seq::<Seq<char>>::empty();
    let items = exported_items(extension, contents);
    lemma_export_reads_back(extension, contents);
    match items_of(lines_of(extension, contents)->Ok_0, LineCategory::NONE, none, none) {
        Ok((found, v, l)) => {
            let start = State { variable_names: v, label_names: l, ..State::empty() };
            assert(State { variable_names: none, label_names: none, ..State::empty() }
                == State::empty());
            lemma_with_items_without_names(start, items);
        },
        Err(_) => {},
    }
}

/// Adding items keeps what holds of a machine at all times, as long as the
/// program stays within the reach of the counter.
pub proof fn lemma_items_keep_wf(s: State, items: Seq<Item>)
    requires
        s.wf(),
        s.instructions.len() + items.len() <= usize::MAX,
    ensures
        s.with_items(items) matches Ok(after) ==> after.wf() && after.instructions.len()
            <= s.instructions.len() + items.len() && after.variable_names == s.variable_names
            && after.label_names == s.label_names,
    decreases items.len(),
{
    if items.len() > 0 {
        match items[0] {
            Item::Section(_) => {
                lemma_items_keep_wf(s, items.skip(1));
            },
            Item::Line(i) => {
                lemma_instruction_keeps_wf(s, i);
                match s.with_instruction(i) {
                    Ok(next) => {
                        lemma_items_keep_wf(next, items.skip(1));
                    },
                    Err(_) => {},
                }
            },
        }
    }
}

/// After a file was loaded, what holds of a machine at all times holds of
/// the machine: every label that is known as defined stands for the place of
/// its own definition, the counter stands in the program, and no symbol
/// table holds a name twice. Besides, every jump and every branch goes to a
/// label that the program defines. The program, with one instruction for
/// each line of the file, must stay within the reach of the counter.
pub proof fn lemma_load_keeps_wf(s: State, extension: Extension, contents: Seq<u8>)
    requires
        s.wf(),
        lines_of(extension, contents) matches Ok(lines) ==> s.instructions.len() + lines.len()
            <= usize::MAX,
    ensures
        loaded(s, extension, contents) matches Ok(after) ==> after.wf() && labels_defined(after)
            && after.resolved(),
{
    match lines_of(extension, contents) {
        Ok(lines) => {
            lemma_lines_keep_wf(lines, LineCategory::NONE, s.variable_names, s.label_names);
            lemma_items_count(lines, LineCategory::NONE, s.variable_names, s.label_names);
            match items_of(lines, LineCategory::NONE, s.variable_names, s.label_names) {
                Ok((items, v, l)) => {
                    lemma_items_keep_wf(State { variable_names: v, label_names: l, ..s }, items);
                },
                Err(_) => {},
            }
        },
        Err(_) => {},
    }
}

} // verus!
