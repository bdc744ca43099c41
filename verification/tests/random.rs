use copper::enums::{Instruction, Label, Parameter, Register, Variable};
use copper::file::{CoFile, Item, LineCategory};
use copper::program::{Event, Program};

/// A small generator of numbers that look random and are the same at every run.
struct Numbers(u64);

impl Numbers {
    fn next(&mut self) -> u32 {
        self.0 ^= self.0 << 13;
        self.0 ^= self.0 >> 7;
        self.0 ^= self.0 << 17;
        (self.0 >> 16) as u32
    }

    fn below(&mut self, n: u32) -> u32 {
        self.next() % n
    }

    fn register(&mut self) -> Register {
        Register::from_index(self.below(4) as u8).unwrap()
    }

    fn variable(&mut self) -> Variable {
        Variable { name: self.below(1024) as u16 }
    }

    fn label(&mut self) -> Label {
        Label { name: self.below(8) as u16 }
    }

    fn operand(&mut self) -> Parameter {
        match self.below(3) {
            0 => Parameter::Register(self.register()),
            1 => Parameter::Variable(self.variable()),
            _ => Parameter::Constant(self.below(1024)),
        }
    }

    fn instruction(&mut self) -> Instruction {
        match self.below(25) {
            0 => Instruction::LDA(self.register(), self.operand()),
            1 => Instruction::STR(self.variable(), self.operand()),
            2 => Instruction::PUSH(self.operand()),
            3 => Instruction::POP(self.register()),
            4 => Instruction::AND(self.register(), self.operand()),
            5 => Instruction::OR(self.register(), self.operand()),
            6 => Instruction::NOT(self.register()),
            7 => Instruction::ADD(self.register(), self.operand()),
            8 => Instruction::SUB(self.register(), self.operand()),
            9 => Instruction::DIV(self.register(), self.operand()),
            10 => Instruction::MUL(self.register(), self.operand()),
            11 => Instruction::MOD(self.register(), self.operand()),
            12 => Instruction::INC(self.register()),
            13 => Instruction::DEC(self.register()),
            14 => Instruction::BEQ(self.operand(), self.operand(), self.label()),
            15 => Instruction::BNE(self.operand(), self.operand(), self.label()),
            16 => Instruction::BSM(self.operand(), self.operand(), self.label()),
            17 => Instruction::BBG(self.operand(), self.operand(), self.label()),
            18 => Instruction::JMP(self.label()),
            19 => Instruction::SRL(self.register(), self.below(1024) as u16),
            20 => Instruction::SRR(self.register(), self.below(1024) as u16),
            21 => Instruction::HLT,
            22 => Instruction::IN(self.operand()),
            23 => Instruction::OUT(self.operand()),
            _ => Instruction::LABEL(self.label()),
        }
    }

    fn declaration(&mut self) -> Instruction {
        if self.below(2) == 0 {
            Instruction::VARIABLE(self.variable(), self.below(1024))
        } else {
            Instruction::ARRAY(self.variable(), self.below(1024), self.below(1024) as u16)
        }
    }
}

#[test]
fn operands_are_decoded_as_they_were_encoded() {
    let mut numbers = Numbers(0x2545_F491_4F6C_DD1D);
    for _ in 0..20_000 {
        let p = numbers.operand();
        assert_eq!(Parameter::decode(p.encode()), Ok(p));
    }
}

#[test]
fn instructions_are_decoded_as_they_were_encoded() {
    let mut numbers = Numbers(0x9E37_79B9_7F4A_7C15);
    for _ in 0..50_000 {
        let i = numbers.instruction();
        assert_eq!(Instruction::decode_code(i.encode()), Ok(i));
        let d = numbers.declaration();
        assert_eq!(Instruction::decode_data(d.encode()), d);
    }
}

#[test]
fn words_are_encoded_as_they_were_decoded_but_for_their_free_bits() {
    let mut numbers = Numbers(0xD1B5_4A32_D192_ED03);
    for _ in 0..50_000 {
        let word = numbers.next();
        if let Ok(i) = Instruction::decode_code(word) {
            assert_eq!(Instruction::decode_code(i.encode()), Ok(i));
            assert_eq!(i.encode() & word, i.encode());
        }
        let d = Instruction::decode_data(word);
        assert_eq!(Instruction::decode_data(d.encode()), d);
        assert_eq!(d.encode() & word, d.encode());
    }
}

fn source(numbers: &mut Numbers, lines: u32) -> String {
    let labels = ["a", "b", "c", "d", "e", "f", "g", "h"];
    let mut text = String::from("#DATA\nx 1\ny 2\nz[4] 3\n#CODE\n");
    let operands = ["T0", "T1", "x", "y", "z", "7", "-3", "1000"];
    for label in labels {
        text.push_str(&format!("{}:\n", label));
        for _ in 0..numbers.below(lines) {
            let p = operands[numbers.below(8) as usize];
            let q = operands[numbers.below(8) as usize];
            let l = labels[numbers.below(8) as usize];
            let line = match numbers.below(8) {
                // not `LDA T0 T0`: its word is zero, which stands for an empty line
                0 => format!("LDA T{} {}", 1 + numbers.below(2), p),
                1 => format!("STR x {}", p),
                2 => format!("BEQ {} {} {}", p, q, l),
                3 => format!("BSM {} {} {}", p, q, l),
                4 => format!("JMP {}", l),
                5 => format!("ADD T{} {}", numbers.below(2), p),
                6 => format!("PUSH {}", p),
                _ => format!("OUT {}", p),
            };
            text.push_str(&line);
            text.push('\n');
        }
    }
    text.push_str("HLT\n");
    text
}

#[test]
fn every_branch_of_a_program_finds_its_label() {
    let mut numbers = Numbers(0x0123_4567_89AB_CDEF);
    for _ in 0..200 {
        let text = source(&mut numbers, 6);
        let mut program = Program::new();
        program.load(CoFile::new("p.co".to_string()).unwrap(), text.as_bytes()).unwrap();
        assert_eq!(program.label_names().len(), 8);
        let instructions = program.instructions().clone();
        for i in &instructions {
            let label = match i {
                Instruction::JMP(l)
                | Instruction::BEQ(_, _, l)
                | Instruction::BNE(_, _, l)
                | Instruction::BSM(_, _, l)
                | Instruction::BBG(_, _, l) => *l,
                _ => continue,
            };
            let place = program.find_label(&label).unwrap();
            assert_eq!(instructions[place], Instruction::LABEL(label));
        }
        // the counter stays in the program, whatever the program does
        program.set_register(Register::T0, 0);
        program.set_register(Register::T1, 1);
        program.set_register(Register::T2, 2);
        for _ in 0..500 {
            match program.step(None) {
                Ok(Event::Finished) | Err(_) => break,
                Ok(_) => assert!(program.counter() <= instructions.len()),
            }
        }
        assert_eq!(program.instructions(), &instructions);
    }
}

#[test]
fn a_program_is_assembled_to_a_file_that_loads_alike() {
    let mut numbers = Numbers(0xFEDC_BA98_7654_3210);
    for _ in 0..200 {
        let text = source(&mut numbers, 5);
        let bytes = CoFile::new("p.co".to_string()).unwrap().export(text.as_bytes()).unwrap();
        let mut from_text = Program::new();
        from_text.load(CoFile::new("p.co".to_string()).unwrap(), text.as_bytes()).unwrap();
        let mut from_binary = Program::new();
        from_binary.load(CoFile::new("p.bin".to_string()).unwrap(), &bytes).unwrap();
        assert_eq!(from_text.instructions(), from_binary.instructions());
        assert_eq!(from_text.memory(), from_binary.memory());
        let again = CoFile::new("p.bin".to_string()).unwrap().export(&bytes).unwrap();
        assert_eq!(again, bytes);
    }
}

#[test]
fn items_are_encoded_like_what_they_hold() {
    let mut numbers = Numbers(0x1357_9BDF_0246_8ACE);
    for _ in 0..1000 {
        let i = numbers.instruction();
        assert_eq!(Item::Line(i).encode(), i.encode());
    }
    assert_eq!(Item::Section(LineCategory::NONE).encode(), 0);
}
