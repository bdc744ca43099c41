use copper::enums::{Instruction, Label, Parameter, Register, Variable};
use copper::error::Error;
use copper::file::CoFile;
use copper::program::{Event, Program};
use copper::text::read_input;

const T0: Register = Register::T0;
const T1: Register = Register::T1;

fn c(n: u32) -> Parameter {
    Parameter::Constant(n)
}

fn r(register: Register) -> Parameter {
    Parameter::Register(register)
}

fn v(n: u16) -> Parameter {
    Parameter::Variable(Variable { name: n })
}

fn program_of(instructions: &[Instruction]) -> Program {
    let mut program = Program::new();
    for i in instructions {
        program.add_instruction(*i).unwrap();
    }
    program
}

/// Runs one instruction on a machine whose register T0 holds `a`.
fn after(a: u32, i: Instruction) -> Result<u32, Error> {
    let mut program = program_of(&[i]);
    program.set_register(T0, a);
    program.step(None)?;
    program.get_register(T0)
}

fn load(source: &str) -> Result<Program, Error> {
    let mut program = Program::new();
    program.load(CoFile::new("p.co".to_string())?, source.as_bytes())?;
    Ok(program)
}

#[test]
fn a_new_machine_is_empty() {
    let mut program = Program::new();
    assert!(program.instructions().is_empty());
    assert!(program.memory().is_empty());
    assert!(program.stack().is_empty());
    assert_eq!(program.counter(), 0);
    assert!(!program.verbose());
    assert_eq!(program.variable_names().len(), 0);
    assert_eq!(program.label_names().len(), 0);
    for n in 0..4 {
        assert_eq!(program.get_register(Register::from_index(n).unwrap()), Err(Error::UninitRegister));
    }
    assert_eq!(program.step(None), Ok(Event::Finished));
    assert_eq!(program.run(5), Ok(Event::Finished));
    program.set_verbose(true);
    assert!(program.verbose());
}

#[test]
fn registers_and_variables() {
    let mut program = Program::new();
    program.set_register(T1, 5);
    assert_eq!(program.get_register(T1), Ok(5));
    assert_eq!(program.get_register(T0), Err(Error::UninitRegister));
    program.set_register(T1, 6);
    assert_eq!(program.get_register(T1), Ok(6));
    let x = Variable { name: 3 };
    assert_eq!(program.get_variable(x), 0);
    assert!(!program.has_variable(x));
    program.set_variable(x, 0);
    assert!(program.has_variable(x));
    program.set_variable(x, 9);
    assert_eq!(program.get_variable(x), 9);
    assert_eq!(program.value(&c(12)), Ok(12));
    assert_eq!(program.value(&v(3)), Ok(9));
    assert_eq!(program.value(&v(4)), Ok(0));
    assert_eq!(program.value(&r(T1)), Ok(6));
    assert_eq!(program.value(&r(T0)), Err(Error::UninitRegister));
}

#[test]
fn the_memory_keeps_the_order_of_first_writes() {
    let mut program = Program::new();
    program.set_variable(Variable { name: 7 }, 1);
    program.set_variable(Variable { name: 2 }, 2);
    program.set_variable(Variable { name: 9 }, 3);
    program.set_variable(Variable { name: 2 }, 4);
    assert_eq!(program.memory(), vec![(7, 1), (2, 4), (9, 3)]);
    assert_eq!(program.get_variable(Variable { name: 2 }), 4);
}

#[test]
fn declarations_go_to_the_memory() {
    let mut program = Program::new();
    program.add_instruction(Instruction::VARIABLE(Variable { name: 0 }, 5)).unwrap();
    program.add_instruction(Instruction::ARRAY(Variable { name: 1 }, 7, 3)).unwrap();
    program.add_instruction(Instruction::ARRAY(Variable { name: 9 }, 1, 0)).unwrap();
    program.add_instruction(Instruction::ARRAY(Variable { name: 2 }, 8, 1)).unwrap();
    assert!(program.instructions().is_empty());
    assert_eq!(program.memory(), vec![(0, 5), (1, 7), (2, 8), (3, 7), (9, 1)]);
}

#[test]
fn an_array_ends_at_the_last_variable() {
    let mut program = Program::new();
    assert_eq!(program.add_instruction(Instruction::ARRAY(Variable { name: 1023 }, 1, 1)), Ok(()));
    assert_eq!(program.add_instruction(Instruction::ARRAY(Variable { name: 1022 }, 2, 2)), Ok(()));
    assert_eq!(
        program.add_instruction(Instruction::ARRAY(Variable { name: 1022 }, 3, 3)),
        Err(Error::Overflow)
    );
    assert_eq!(
        program.add_instruction(Instruction::ARRAY(Variable { name: 1024 }, 3, 0)),
        Err(Error::Overflow)
    );
    assert_eq!(
        program.add_instruction(Instruction::ARRAY(Variable { name: 65535 }, 3, 65535)),
        Err(Error::Overflow)
    );
    assert_eq!(program.memory(), vec![(1023, 2), (1022, 2)]);
}

#[test]
fn labels_stand_for_their_definitions() {
    let mut program = Program::new();
    for i in 0..25u16 {
        let instruction = if i % 2 == 0 {
            Instruction::HLT
        } else if i % 3 == 0 {
            Instruction::JMP(Label { name: i })
        } else {
            Instruction::LABEL(Label { name: i })
        };
        program.add_instruction(instruction).unwrap();
    }
    assert_eq!(program.instructions().len(), 25);
    assert_eq!(program.find_label(&Label { name: 5 }), Ok(5));
    assert_eq!(program.find_label(&Label { name: 23 }), Ok(23));
    assert_eq!(program.find_label(&Label { name: 3 }), Err(Error::Undefined));
    assert_eq!(program.find_label(&Label { name: 4 }), Err(Error::Undefined));
    for name in 0..30u16 {
        if let Ok(k) = program.find_label(&Label { name }) {
            assert_eq!(program.instructions()[k], Instruction::LABEL(Label { name }));
        }
    }
    // a label that is defined again stands for its last definition
    program.add_instruction(Instruction::LABEL(Label { name: 5 })).unwrap();
    assert_eq!(program.find_label(&Label { name: 5 }), Ok(25));
}

#[test]
fn labels_after_a_load() {
    let program = load("#CODE\nJMP b\na:\nHLT\nb:\nJMP a\n").unwrap();
    // `b` was named first
    assert_eq!(program.find_label(&Label { name: 0 }), Ok(3));
    assert_eq!(program.find_label(&Label { name: 1 }), Ok(1));
    assert_eq!(program.instructions()[3], Instruction::LABEL(Label { name: 0 }));
    assert_eq!(program.instructions()[1], Instruction::LABEL(Label { name: 1 }));
    assert_eq!(program.label_names().name(0), Some("b".to_string()));
}

#[test]
fn arithmetic() {
    assert_eq!(after(5, Instruction::ADD(T0, c(3))), Ok(8));
    assert_eq!(after(5, Instruction::SUB(T0, c(3))), Ok(2));
    assert_eq!(after(5, Instruction::MUL(T0, c(3))), Ok(15));
    assert_eq!(after(17, Instruction::DIV(T0, c(5))), Ok(3));
    assert_eq!(after(17, Instruction::MOD(T0, c(5))), Ok(2));
    assert_eq!(after(0b1100, Instruction::AND(T0, c(0b1010))), Ok(0b1000));
    assert_eq!(after(0b1100, Instruction::OR(T0, c(0b1010))), Ok(0b1110));
    assert_eq!(after(0x0000_ffff, Instruction::NOT(T0)), Ok(0xffff_0000));
    assert_eq!(after(5, Instruction::INC(T0)), Ok(6));
    assert_eq!(after(5, Instruction::DEC(T0)), Ok(4));
    assert_eq!(after(5, Instruction::ADD(T0, r(T0))), Ok(10));
}

#[test]
fn arithmetic_wraps() {
    assert_eq!(after(0xffff_ffff, Instruction::ADD(T0, c(1))), Ok(0));
    assert_eq!(after(0xffff_fff0, Instruction::ADD(T0, c(0x20))), Ok(0x10));
    assert_eq!(after(0, Instruction::SUB(T0, c(1))), Ok(0xffff_ffff));
    assert_eq!(after(3, Instruction::SUB(T0, c(5))), Ok(0xffff_fffe));
    assert_eq!(after(0x8000_0001, Instruction::MUL(T0, c(2))), Ok(2));
    assert_eq!(after(0xffff_ffff, Instruction::MUL(T0, r(T0))), Ok(1));
    assert_eq!(after(0xffff_ffff, Instruction::INC(T0)), Ok(0));
    assert_eq!(after(0, Instruction::DEC(T0)), Ok(0xffff_ffff));
}

#[test]
fn division_by_zero() {
    assert_eq!(after(5, Instruction::DIV(T0, c(0))), Err(Error::DivByZero));
    assert_eq!(after(5, Instruction::MOD(T0, c(0))), Err(Error::DivByZero));
    assert_eq!(after(5, Instruction::DIV(T0, v(9))), Err(Error::DivByZero));
    assert_eq!(after(0, Instruction::DIV(T0, c(4))), Ok(0));
}

#[test]
fn shifts() {
    // SRL moves to the left, SRR to the right
    assert_eq!(after(1, Instruction::SRL(T0, 4)), Ok(16));
    assert_eq!(after(0x8000_0001, Instruction::SRL(T0, 1)), Ok(2));
    assert_eq!(after(1, Instruction::SRL(T0, 31)), Ok(0x8000_0000));
    assert_eq!(after(0xffff_ffff, Instruction::SRL(T0, 32)), Ok(0));
    assert_eq!(after(0xffff_ffff, Instruction::SRL(T0, 1023)), Ok(0));
    assert_eq!(after(5, Instruction::SRL(T0, 0)), Ok(5));
    assert_eq!(after(16, Instruction::SRR(T0, 4)), Ok(1));
    assert_eq!(after(0x8000_0000, Instruction::SRR(T0, 31)), Ok(1));
    assert_eq!(after(0xffff_ffff, Instruction::SRR(T0, 32)), Ok(0));
    assert_eq!(after(5, Instruction::SRR(T0, 0)), Ok(5));
}

#[test]
fn registers_that_were_never_written() {
    for i in [
        Instruction::LDA(T0, r(T1)),
        Instruction::STR(Variable { name: 0 }, r(T1)),
        Instruction::PUSH(r(T1)),
        Instruction::ADD(T1, c(1)),
        Instruction::ADD(T0, r(T1)),
        Instruction::NOT(T1),
        Instruction::INC(T1),
        Instruction::DEC(T1),
        Instruction::SRL(T1, 1),
        Instruction::SRR(T1, 1),
        Instruction::BEQ(r(T1), c(1), Label { name: 0 }),
        Instruction::BNE(c(1), r(T1), Label { name: 0 }),
        Instruction::OUT(r(T1)),
        Instruction::DIV(T1, c(0)),
    ] {
        let mut program = program_of(&[i]);
        program.set_register(T0, 1);
        assert_eq!(program.step(None), Err(Error::UninitRegister), "{:?}", i);
        // a step that fails changes nothing
        assert_eq!(program.counter(), 0);
        assert!(program.memory().is_empty());
        assert!(program.stack().is_empty());
        assert_eq!(program.get_register(T0), Ok(1));
    }
}

#[test]
fn the_stack() {
    let mut program = program_of(&[
        Instruction::PUSH(c(1)),
        Instruction::PUSH(c(2)),
        Instruction::POP(T0),
        Instruction::POP(T1),
        Instruction::POP(T0),
    ]);
    assert_eq!(program.step(None), Ok(Event::Executed));
    assert_eq!(program.step(None), Ok(Event::Executed));
    assert_eq!(program.stack(), &vec![1, 2]);
    assert_eq!(program.step(None), Ok(Event::Executed));
    assert_eq!(program.stack(), &vec![1]);
    assert_eq!(program.step(None), Ok(Event::Executed));
    assert_eq!(program.get_register(T0), Ok(2));
    assert_eq!(program.get_register(T1), Ok(1));
    assert_eq!(program.step(None), Err(Error::StackUnderflow));
    assert_eq!(program.counter(), 4);
    assert_eq!(program.get_register(T0), Ok(2));
}

#[test]
fn branches() {
    let taken = |i: Instruction| {
        let mut program = program_of(&[i, Instruction::HLT, Instruction::LABEL(Label { name: 0 })]);
        program.set_register(T0, 5);
        let event = program.step(None).unwrap();
        (event, program.counter())
    };
    let l = Label { name: 0 };
    assert_eq!(taken(Instruction::BEQ(r(T0), c(5), l)), (Event::Jumped, 2));
    assert_eq!(taken(Instruction::BEQ(r(T0), c(6), l)), (Event::Executed, 1));
    assert_eq!(taken(Instruction::BNE(r(T0), c(6), l)), (Event::Jumped, 2));
    assert_eq!(taken(Instruction::BNE(r(T0), c(5), l)), (Event::Executed, 1));
    assert_eq!(taken(Instruction::BSM(r(T0), c(6), l)), (Event::Jumped, 2));
    assert_eq!(taken(Instruction::BSM(r(T0), c(5), l)), (Event::Executed, 1));
    assert_eq!(taken(Instruction::BSM(r(T0), c(4), l)), (Event::Executed, 1));
    assert_eq!(taken(Instruction::BBG(r(T0), c(4), l)), (Event::Jumped, 2));
    assert_eq!(taken(Instruction::BBG(r(T0), c(5), l)), (Event::Executed, 1));
    assert_eq!(taken(Instruction::BBG(r(T0), c(6), l)), (Event::Executed, 1));
    assert_eq!(taken(Instruction::JMP(l)), (Event::Jumped, 2));
}

#[test]
fn branches_compare_without_sign() {
    let mut program = program_of(&[
        Instruction::BSM(r(T0), c(1), Label { name: 0 }),
        Instruction::BBG(r(T0), c(1), Label { name: 0 }),
        Instruction::LABEL(Label { name: 0 }),
    ]);
    program.set_register(T0, 0xffff_ffff);
    assert_eq!(program.step(None), Ok(Event::Executed));
    assert_eq!(program.step(None), Ok(Event::Jumped));
    assert_eq!(program.counter(), 2);
}

#[test]
fn a_label_that_is_not_defined() {
    let mut program = program_of(&[
        Instruction::BEQ(c(1), c(2), Label { name: 3 }),
        Instruction::BEQ(c(1), c(1), Label { name: 3 }),
    ]);
    // a branch that is not taken does not look for its label
    assert_eq!(program.step(None), Ok(Event::Executed));
    assert_eq!(program.step(None), Err(Error::Undefined));
    assert_eq!(program.counter(), 1);
    let mut program = program_of(&[Instruction::JMP(Label { name: 0 })]);
    assert_eq!(program.run(10), Err(Error::Undefined));
}

#[test]
fn the_counter_stays_in_range() {
    let mut program = load(
        "#DATA\ni 0\n#CODE\ntop:\nLDA T0 i\nADD T0 1\nSTR i T0\nBSM T0 3 top\nJMP end\nLDA T0 99\nend:\nHLT\nlast:\n",
    )
    .unwrap();
    let n = program.instructions().len();
    assert_eq!(n, 10);
    let mut steps = 0;
    loop {
        assert!(program.counter() <= n);
        let before = program.counter();
        match program.step(None).unwrap() {
            Event::Finished => break,
            Event::Jumped => {}
            _ => assert_eq!(program.counter(), before + 1),
        }
        steps += 1;
        assert!(steps < 100);
    }
    // the halt has set the counter behind the last instruction
    assert_eq!(program.counter(), n);
    assert_eq!(program.get_register(T0), Ok(3));
    assert_eq!(program.step(None), Ok(Event::Finished));
    assert_eq!(program.counter(), n);
}

#[test]
fn a_jump_lands_on_the_definition_of_its_label() {
    let mut program = load("#CODE\nJMP end\nLDA T0 1\nend:\nLDA T1 2\n").unwrap();
    assert_eq!(program.step(None), Ok(Event::Jumped));
    assert_eq!(program.counter(), 2);
    assert_eq!(program.step(None), Ok(Event::Executed));
    assert_eq!(program.counter(), 3);
    assert_eq!(program.step(None), Ok(Event::Executed));
    assert_eq!(program.step(None), Ok(Event::Finished));
    assert_eq!(program.get_register(T0), Err(Error::UninitRegister));
    assert_eq!(program.get_register(T1), Ok(2));
}

#[test]
fn one_instruction_at_any_place() {
    let mut program = program_of(&[Instruction::LDA(T0, c(1)), Instruction::LDA(T0, c(2)), Instruction::HLT]);
    assert_eq!(program.execute_instruction(1, None), Ok(Event::Executed));
    assert_eq!(program.get_register(T0), Ok(2));
    // the counter was not moved
    assert_eq!(program.counter(), 0);
    assert_eq!(program.execute_instruction(2, None), Ok(Event::Jumped));
    assert_eq!(program.counter(), 3);
}

#[test]
fn output() {
    let mut program = load("#DATA\nx 42\n#CODE\nOUT x\nOUT 7\nLDA T0 9\nOUT T0\nHLT\n").unwrap();
    assert_eq!(program.run(100), Ok(Event::Output(42)));
    assert_eq!(program.counter(), 1);
    assert_eq!(program.run(100), Ok(Event::Output(7)));
    assert_eq!(program.run(100), Ok(Event::Output(9)));
    assert_eq!(program.run(100), Ok(Event::Finished));
}

#[test]
fn input() {
    let mut program = load("#DATA\nx 0\n#CODE\nIN T0\nIN x\nADD T0 x\nOUT T0\n").unwrap();
    assert_eq!(program.run(100), Ok(Event::AwaitInput));
    assert_eq!(program.counter(), 0);
    assert_eq!(program.run(100), Ok(Event::AwaitInput));
    assert_eq!(program.step(None), Ok(Event::AwaitInput));
    assert_eq!(program.get_register(T0), Err(Error::UninitRegister));
    assert_eq!(program.step(read_input("40\n")), Ok(Event::Executed));
    assert_eq!(program.counter(), 1);
    assert_eq!(program.run(100), Ok(Event::AwaitInput));
    assert_eq!(program.step(Some(2)), Ok(Event::Executed));
    assert_eq!(program.get_variable(Variable { name: 0 }), 2);
    assert_eq!(program.run(100), Ok(Event::Output(42)));
    assert_eq!(program.run(100), Ok(Event::Finished));
}

#[test]
fn input_into_a_constant() {
    let mut program = program_of(&[Instruction::IN(c(5))]);
    assert_eq!(program.step(None), Err(Error::InvalidTarget));
    assert_eq!(program.step(Some(1)), Err(Error::InvalidTarget));
    assert_eq!(program.run(3), Err(Error::InvalidTarget));
    assert_eq!(program.counter(), 0);
}

#[test]
fn lines_of_input() {
    assert_eq!(read_input("42"), Some(42));
    assert_eq!(read_input("  42 \r\n"), Some(42));
    assert_eq!(read_input("+7"), Some(7));
    assert_eq!(read_input("0"), Some(0));
    assert_eq!(read_input("4294967295"), Some(4294967295));
    assert_eq!(read_input("4294967296"), None);
    assert_eq!(read_input("-1"), None);
    assert_eq!(read_input("-0"), None);
    assert_eq!(read_input(""), None);
    assert_eq!(read_input("  "), None);
    assert_eq!(read_input("4 2"), None);
    assert_eq!(read_input("x"), None);
    assert_eq!(read_input("+"), None);
}

#[test]
fn a_run_stops_at_its_limit() {
    let mut program = load("#CODE\ntop:\nJMP top\n").unwrap();
    assert_eq!(program.run(0), Ok(Event::Executed));
    assert_eq!(program.counter(), 0);
    assert_eq!(program.run(1), Ok(Event::Executed));
    assert_eq!(program.counter(), 1);
    assert_eq!(program.run(1), Ok(Event::Executed));
    assert_eq!(program.counter(), 0);
    assert_eq!(program.run(1001), Ok(Event::Executed));
    assert_eq!(program.counter(), 1);
}

#[test]
fn variables_that_were_never_written_read_as_zero() {
    let mut program = program_of(&[
        Instruction::LDA(T0, v(5)),
        Instruction::BEQ(c(1), v(6), Label { name: 0 }),
        Instruction::STR(Variable { name: 5 }, c(1)),
        Instruction::LDA(T0, v(5)),
        Instruction::HLT,
    ]);
    assert_eq!(program.unwritten_operand(), Some(Variable { name: 5 }));
    assert_eq!(program.step(None), Ok(Event::Executed));
    assert_eq!(program.get_register(T0), Ok(0));
    assert_eq!(program.unwritten_operand(), Some(Variable { name: 6 }));
    assert_eq!(program.step(None), Ok(Event::Executed));
    assert_eq!(program.unwritten_operand(), None);
    assert_eq!(program.step(None), Ok(Event::Executed));
    assert_eq!(program.unwritten_operand(), None);
    assert_eq!(program.step(None), Ok(Event::Executed));
    assert_eq!(program.get_register(T0), Ok(1));
    assert_eq!(program.unwritten_operand(), None);
    assert_eq!(program.step(None), Ok(Event::Jumped));
    assert_eq!(program.unwritten_operand(), None);
}

#[test]
fn array_elements_are_variables_in_a_row() {
    let mut program = load("#DATA\na[3] 7\nb 1\n#CODE\nLDA T0 b\nHLT\n").unwrap();
    assert_eq!(program.memory(), vec![(0, 7), (1, 7), (2, 7), (3, 1)]);
    assert_eq!(program.run(10), Ok(Event::Finished));
    assert_eq!(program.get_register(T0), Ok(1));
    assert_eq!(program.variable_names().name(3), Some("b".to_string()));
}
