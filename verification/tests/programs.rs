use copper::enums::{Register, Variable};
use copper::error::Error;
use copper::file::{CoFile, LineType};
use copper::program::{Event, Program};

fn load_source(source: &str) -> Program {
    let mut program = Program::new();
    let file = CoFile::new("program.co".to_string()).unwrap();
    program.load(file, source.as_bytes()).unwrap();
    program
}

fn run_source(source: &str) -> Program {
    let mut program = load_source(source);
    assert_eq!(program.run(10_000), Ok(Event::Finished));
    program
}

#[test]
fn lda_constant() {
    let program = run_source("#CODE\nLDA T0 7\nHLT\n");
    assert_eq!(program.get_register(Register::T0), Ok(7));
    assert!(program.memory().is_empty());
    assert!(program.stack().is_empty());
    assert_eq!(program.get_register(Register::T1), Err(Error::UninitRegister));
}

#[test]
fn data_and_arithmetic() {
    let program = run_source("#DATA\nx 5\n#CODE\nLDA T0 x\nADD T0 3\nSTR x T0\nHLT\n");
    assert_eq!(program.memory(), vec![(0u16, 8u32)]);
    assert_eq!(program.get_variable(Variable { name: 0 }), 8);
    assert_eq!(program.get_register(Register::T0), Ok(8));
    assert_eq!(program.variable_names().name(0), Some("x".to_string()));
}

#[test]
fn forward_branch() {
    let program = run_source("#CODE\nLDA T0 1\nBEQ T0 1 end\nLDA T0 99\nend:\nHLT\n");
    assert_eq!(program.get_register(Register::T0), Ok(1));
}

#[test]
fn loop_via_branch() {
    let program =
        run_source("#DATA\ni 0\n#CODE\ntop:\nLDA T0 i\nADD T0 1\nSTR i T0\nBSM T0 3 top\nHLT\n");
    assert_eq!(program.memory(), vec![(0u16, 3u32)]);
    assert_eq!(program.get_register(Register::T0), Ok(3));
}

#[test]
fn stack_discipline() {
    let program = run_source("#CODE\nPUSH 10\nPUSH 20\nPOP T0\nPOP T1\nHLT\n");
    assert_eq!(program.get_register(Register::T0), Ok(20));
    assert_eq!(program.get_register(Register::T1), Ok(10));
    assert!(program.stack().is_empty());
}

#[test]
fn export_then_reload_runs_alike() {
    let source = "; a counter\n#DATA\ni 1\nlimit 4\n\n#CODE\ntop:\nLDA T0 i\nADD T0 1\nSTR i T0\n  ; again?\nBSM T0 limit top\nPUSH T0\nHLT\n";
    let text = CoFile::new("count.co".to_string()).unwrap();
    let bytes = text.export(source.as_bytes()).unwrap();
    assert_eq!(bytes.len() % 4, 0);
    // two markers, two declarations, seven instructions
    assert_eq!(bytes.len(), 4 * 11);

    let mut from_text = load_source(source);
    let mut from_binary = Program::new();
    let binary = CoFile::new("count.bin".to_string()).unwrap();
    from_binary.load(binary, &bytes).unwrap();

    assert_eq!(from_text.instructions(), from_binary.instructions());
    assert_eq!(from_text.memory(), from_binary.memory());
    assert_eq!(from_text.run(10_000), Ok(Event::Finished));
    assert_eq!(from_binary.run(10_000), Ok(Event::Finished));
    assert_eq!(from_text.memory(), from_binary.memory());
    assert_eq!(from_text.memory(), vec![(0u16, 4u32), (1u16, 4u32)]);
    assert_eq!(from_text.stack(), from_binary.stack());
    assert_eq!(from_text.get_register(Register::T0), from_binary.get_register(Register::T0));

    // the binary file is assembled to itself
    let again = CoFile::new("count.bin".to_string()).unwrap().export(&bytes).unwrap();
    assert_eq!(again, bytes);
}

#[test]
fn export_of_a_load_and_a_halt() {
    let file = CoFile::new("one.co".to_string()).unwrap();
    let bytes = file.export(b"#CODE\nLDA T0 7\nHLT\n").unwrap();
    assert_eq!(
        bytes,
        vec![0xFA, 0x00, 0x00, 0x00, 0x01, 0x00, 0xE0, 0x00, 0xA8, 0x00, 0x00, 0x00]
    );
}

#[test]
fn lines_of_a_text_file_are_trimmed() {
    let file = CoFile::new("a.co".to_string()).unwrap();
    let lines = file.read(b"  #CODE \r\n\tHLT\n\n").unwrap();
    let texts: Vec<String> = lines
        .iter()
        .map(|line| match line {
            LineType::String(s) => s.clone(),
            LineType::Bin(_) => panic!("a word in a text file"),
        })
        .collect();
    assert_eq!(texts, vec!["#CODE", "HLT", "", ""]);
    assert_eq!(file.read_as_text("x 1\n y 2 "), vec!["x 1", "y 2"]);
    assert_eq!(file.read_as_text(""), vec![""]);
}
