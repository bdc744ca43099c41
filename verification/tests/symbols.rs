use copper::enums::{AddressNames, Extension, Label, NameKind, Parameter, Register, Variable};
use copper::error::Error;

#[test]
fn register_names() {
    assert_eq!(Register::from_str("T0"), Some(Register::T0));
    assert_eq!(Register::from_str("T1"), Some(Register::T1));
    assert_eq!(Register::from_str("T2"), Some(Register::T2));
    assert_eq!(Register::from_str("T3"), Some(Register::T3));
    for other in ["T4", "t0", "T", "T00", "", " T0", "T0 ", "0", "X1"] {
        assert_eq!(Register::from_str(other), None);
    }
}

#[test]
fn new_table_is_empty() {
    let names = AddressNames::new();
    assert_eq!(names.len(), 0);
    assert!(!names.contains("x"));
    assert_eq!(names.name(0), None);
    assert_eq!(names.kind(), NameKind::Variable);
    let labels = AddressNames::labels();
    assert_eq!(labels.len(), 0);
    assert_eq!(labels.kind(), NameKind::Label);
    assert_eq!(NameKind::Variable.capacity(), 1024);
    assert_eq!(NameKind::Label.capacity(), 8);
}

#[test]
fn names_keep_their_positions() {
    let mut names = AddressNames::new();
    assert_eq!(names.add("a"), Ok(0));
    assert_eq!(names.add("b"), Ok(1));
    assert_eq!(names.add("c"), Ok(2));
    assert_eq!(names.len(), 3);
    assert_eq!(names.name(0), Some("a".to_string()));
    assert_eq!(names.name(1), Some("b".to_string()));
    assert_eq!(names.name(2), Some("c".to_string()));
    assert_eq!(names.name(3), None);
    assert!(names.contains("b"));
    assert!(!names.contains("B"));
    assert_eq!(names.position(&"c".chars().collect()), Some(2));
    assert_eq!(names.position(&"d".chars().collect()), None);
}

#[test]
fn no_name_twice() {
    let mut names = AddressNames::new();
    assert_eq!(names.add("a"), Ok(0));
    assert_eq!(names.add("a"), Err(Error::DuplicateName));
    assert_eq!(names.len(), 1);
    assert_eq!(Variable::new("a", &mut names), Err(Error::DuplicateName));
    assert_eq!(Variable::new("b", &mut names), Ok(Variable { name: 1 }));
    assert_eq!(Variable::new("b", &mut names), Err(Error::DuplicateName));
    assert_eq!(names.len(), 2);
}

#[test]
fn table_that_is_full() {
    let mut names = AddressNames::labels();
    for i in 0..8u16 {
        assert_eq!(names.add(&format!("l{}", i)), Ok(i));
    }
    assert_eq!(names.add("c"), Err(Error::Overflow));
    assert_eq!(names.add("l3"), Err(Error::DuplicateName));
    assert_eq!(names.len(), 8);
    names.truncate(7);
    assert_eq!(names.len(), 7);
    assert_eq!(names.kind(), NameKind::Label);
    assert_eq!(names.add("c"), Ok(7));
    assert_eq!(names.name(7), Some("c".to_string()));
}

#[test]
fn a_table_of_variables_takes_the_names_of_variables_only() {
    let mut names = AddressNames::new();
    for name in ["T0", "T1", "T2", "T3", "a_b", "a b", "x[1]", "-", "a:"] {
        assert_eq!(names.add(name), Err(Error::InvalidName), "{:?}", name);
        assert_eq!(names.insert(name.chars().collect()), Err(Error::InvalidName));
    }
    assert_eq!(names.len(), 0);
    assert_eq!(names.add("x"), Ok(0));
    assert_eq!(names.insert("T4".chars().collect()), Ok(1));
    assert_eq!(names.add("x"), Err(Error::DuplicateName));
    // a table of labels takes any name
    let mut labels = AddressNames::labels();
    assert_eq!(labels.add("T0"), Ok(0));
    assert_eq!(labels.add("a_b"), Ok(1));
}

#[test]
fn the_place_for_a_name() {
    let mut names = AddressNames::new();
    let x: Vec<char> = "x".chars().collect();
    let t0: Vec<char> = "T0".chars().collect();
    assert_eq!(names.place_for(&x, true), Ok(0));
    assert_eq!(names.place_for(&x, false), Err(Error::InvalidName));
    assert_eq!(names.place_for(&t0, true), Err(Error::InvalidName));
    assert_eq!(names.len(), 0);
    names.add("x").unwrap();
    assert_eq!(names.place_for(&x, true), Err(Error::DuplicateName));
    assert_eq!(names.place_for(&x, false), Err(Error::DuplicateName));
    assert_eq!(names.place_for(&"y".chars().collect(), true), Ok(1));
    let labels = AddressNames::labels();
    assert_eq!(labels.place_for(&t0, false), Ok(0));
}

#[test]
fn variables_are_declared_once() {
    let mut names = AddressNames::new();
    assert_eq!(Variable::new("x", &mut names), Ok(Variable { name: 0 }));
    assert_eq!(Variable::new("y1", &mut names), Ok(Variable { name: 1 }));
    assert_eq!(Variable::new("Z", &mut names), Ok(Variable { name: 2 }));
    assert_eq!(Variable::from_str("y1", &mut names), Ok(Variable { name: 1 }));
    assert_eq!(Variable::from_str("x", &mut names), Ok(Variable { name: 0 }));
    assert_eq!(Variable::from_str("z", &mut names), Err(Error::Undefined));
    assert_eq!(names.len(), 3);
}

#[test]
fn invalid_variable_names() {
    let mut names = AddressNames::new();
    for name in ["a_b", "a-b", "a b", "x[1]", "a.b", ";", "T0", "T3"] {
        assert_eq!(Variable::new(name, &mut names), Err(Error::InvalidName));
    }
    assert_eq!(names.len(), 0);
    // letters and numbers of any script, and names that only look like registers
    for (i, name) in ["T4", "t0", "T12", "é", "x٣", "42", ""].iter().enumerate() {
        assert_eq!(Variable::new(name, &mut names), Ok(Variable { name: i as u16 }));
    }
}

#[test]
fn at_most_1024_variables() {
    let mut names = AddressNames::new();
    for i in 0..1024u16 {
        assert_eq!(Variable::new(&format!("v{}", i), &mut names), Ok(Variable { name: i }));
    }
    assert_eq!(Variable::new("last", &mut names), Err(Error::Overflow));
    assert_eq!(names.add("last"), Err(Error::Overflow));
    assert_eq!(Variable::new("not valid", &mut names), Err(Error::InvalidName));
    assert_eq!(Variable::new("v7", &mut names), Err(Error::DuplicateName));
    assert_eq!(names.len(), 1024);
    assert_eq!(Variable::from_str("v1023", &mut names), Ok(Variable { name: 1023 }));
}

#[test]
fn labels_are_made_on_first_use() {
    let mut names = AddressNames::labels();
    assert_eq!(Label::from_str("end", &mut names), Ok(Label { name: 0 }));
    assert_eq!(Label::from_str("top", &mut names), Ok(Label { name: 1 }));
    assert_eq!(Label::from_str("end", &mut names), Ok(Label { name: 0 }));
    assert_eq!(Label::from_str("my_label", &mut names), Ok(Label { name: 2 }));
    assert_eq!(Label::from_str("T0", &mut names), Ok(Label { name: 3 }));
    assert_eq!(names.len(), 4);
}

#[test]
fn at_most_eight_labels() {
    let mut names = AddressNames::labels();
    for i in 0..8u16 {
        assert_eq!(Label::from_str(&format!("l{}", i), &mut names), Ok(Label { name: i }));
    }
    assert_eq!(Label::from_str("ninth", &mut names), Err(Error::Overflow));
    assert_eq!(names.len(), 8);
    assert_eq!(Label::from_str("l7", &mut names), Ok(Label { name: 7 }));
}

#[test]
fn operands() {
    let mut names = AddressNames::new();
    Variable::new("x", &mut names).unwrap();
    Variable::new("y", &mut names).unwrap();
    assert_eq!(Parameter::from_str("T2", &mut names), Ok(Parameter::Register(Register::T2)));
    assert_eq!(Parameter::from_str("7", &mut names), Ok(Parameter::Constant(7)));
    assert_eq!(Parameter::from_str("+7", &mut names), Ok(Parameter::Constant(7)));
    assert_eq!(Parameter::from_str("0", &mut names), Ok(Parameter::Constant(0)));
    assert_eq!(Parameter::from_str("007", &mut names), Ok(Parameter::Constant(7)));
    assert_eq!(Parameter::from_str("1023", &mut names), Ok(Parameter::Constant(1023)));
    assert_eq!(Parameter::from_str("y", &mut names), Ok(Parameter::Variable(Variable { name: 1 })));
    assert_eq!(Parameter::from_str("z", &mut names), Err(Error::Undefined));
    assert_eq!(Parameter::from_str("", &mut names), Err(Error::Undefined));
    assert_eq!(Parameter::from_str("-", &mut names), Err(Error::Undefined));
    assert_eq!(Parameter::from_str("7x", &mut names), Err(Error::Undefined));
    assert_eq!(names.len(), 2);
}

#[test]
fn constants_wrap_to_ten_bits() {
    let mut names = AddressNames::new();
    assert_eq!(Parameter::from_str("1024", &mut names), Ok(Parameter::Constant(0)));
    assert_eq!(Parameter::from_str("1025", &mut names), Ok(Parameter::Constant(1)));
    assert_eq!(Parameter::from_str("5000", &mut names), Ok(Parameter::Constant(5000 % 1024)));
    assert_eq!(Parameter::from_str("-1", &mut names), Ok(Parameter::Constant(1023)));
    assert_eq!(Parameter::from_str("-1024", &mut names), Ok(Parameter::Constant(0)));
    assert_eq!(Parameter::from_str("-1025", &mut names), Ok(Parameter::Constant(1023)));
    assert_eq!(Parameter::from_str("2147483647", &mut names), Ok(Parameter::Constant(1023)));
    assert_eq!(Parameter::from_str("-2147483648", &mut names), Ok(Parameter::Constant(0)));
    // what 32 bits cannot hold is no number, and so the name of a variable
    assert_eq!(Parameter::from_str("2147483648", &mut names), Err(Error::Undefined));
    assert_eq!(Parameter::from_str("-2147483649", &mut names), Err(Error::Undefined));
    assert_eq!(Parameter::from_str("99999999999999999999", &mut names), Err(Error::Undefined));
}

#[test]
fn a_number_can_be_the_name_of_a_variable_that_no_operand_reaches() {
    let mut names = AddressNames::new();
    assert_eq!(Variable::new("5", &mut names), Ok(Variable { name: 0 }));
    assert_eq!(Parameter::from_str("5", &mut names), Ok(Parameter::Constant(5)));
    assert_eq!(Variable::from_str("5", &mut names), Ok(Variable { name: 0 }));
}

#[test]
fn variables_are_shown_by_name() {
    let mut names = AddressNames::new();
    Variable::new("x", &mut names).unwrap();
    Variable::new("total", &mut names).unwrap();
    assert_eq!(Variable { name: 1 }.describe(&names), "total");
    assert_eq!(Variable { name: 0 }.describe(&names), "x");
    assert_eq!(Variable { name: 2 }.describe(&names), "V2");
    assert_eq!(Variable { name: 1023 }.describe(&names), "V1023");
    assert_eq!(Variable { name: 65535 }.describe(&names), "V65535");
}

#[test]
fn extensions() {
    assert_eq!(Extension::CO.to_string(), "co");
    assert_eq!(Extension::BIN.to_string(), "bin");
}
