//! Lines of text: what a line of the code section and a line of the data
//! section stand for.

use vstd::prelude::*;
use vstd::string::*;
use crate::enums::{
    declared, extends, interned, well_formed, NameKind, label_named, labels_after, operand_named, variable_named, AddressNames,
    Label, Parameter, Register, Variable, MAX_CONSTANT, MAX_LABEL, MAX_VARIABLE,
};
use crate::error::Error;
use crate::instruction::{
    branch, branch_form, jump, jump_form, operand, operand_form, register, register_form,
    register_operand, register_operand_form, shift, shift_form, Instruction, Shape, OP_ADD,
    OP_AND, OP_BBG, OP_BEQ, OP_BNE, OP_BSM, OP_DEC, OP_DIV, OP_HLT, OP_IN, OP_INC, OP_JMP,
    OP_LABEL, OP_LDA, OP_MOD, OP_MUL, OP_NOT, OP_OR, OP_OUT, OP_POP, OP_PUSH, OP_SRL, OP_SRR,
    OP_STR,
    OP_SUB,
};
use crate::text::{
    decimal, decimal_chars, find, is_word, parse_signed, parse_unsigned, signed_32, slice_of,
    slice_without, span, tokenize, tokens, trim_bounds, trimmed, unsigned_16, without, words,
    wrap, wrap_10,
};

verus! {

/// The opcode that a mnemonic stands for. The definition of a label has an
/// opcode and no mnemonic.
pub open spec fn mnemonic(word: Seq<char>) -> Option<u32> {
    if word == "LDA"@ {
        Some(OP_LDA)
    } else if word == "STR"@ {
        Some(OP_STR)
    } else if word == "PUSH"@ {
        Some(OP_PUSH)
    } else if word == "POP"@ {
        Some(OP_POP)
    } else if word == "AND"@ {
        Some(OP_AND)
    } else if word == "OR"@ {
        Some(OP_OR)
    } else if word == "NOT"@ {
        Some(OP_NOT)
    } else if word == "ADD"@ {
        Some(OP_ADD)
    } else if word == "SUB"@ {
        Some(OP_SUB)
    } else if word == "DIV"@ {
        Some(OP_DIV)
    } else if word == "MUL"@ {
        Some(OP_MUL)
    } else if word == "MOD"@ {
        Some(OP_MOD)
    } else if word == "INC"@ {
        Some(OP_INC)
    } else if word == "DEC"@ {
        Some(OP_DEC)
    } else if word == "BEQ"@ {
        Some(OP_BEQ)
    } else if word == "BNE"@ {
        Some(OP_BNE)
    } else if word == "BSM"@ {
        Some(OP_BSM)
    } else if word == "BBG"@ {
        Some(OP_BBG)
    } else if word == "JMP"@ {
        Some(OP_JMP)
    } else if word == "SRL"@ {
        Some(OP_SRL)
    } else if word == "SRR"@ {
        Some(OP_SRR)
    } else if word == "HLT"@ {
        Some(OP_HLT)
    } else if word == "IN"@ {
        Some(OP_IN)
    } else if word == "OUT"@ {
        Some(OP_OUT)
    } else {
        None
    }
}

/// Reads a mnemonic.
pub fn opcode_of(word: &Vec<char>) -> (r: Option<u32>)
    ensures
        r == mnemonic(word@),
        r matches Some(opcode) ==> Shape::of(opcode) is Some && opcode != OP_LABEL,
{
    if is_word(word, "LDA") {
        Some(OP_LDA)
    } else if is_word(word, "STR") {
        Some(OP_STR)
    } else if is_word(word, "PUSH") {
        Some(OP_PUSH)
    } else if is_word(word, "POP") {
        Some(OP_POP)
    } else if is_word(word, "AND") {
        Some(OP_AND)
    } else if is_word(word, "OR") {
        Some(OP_OR)
    } else if is_word(word, "NOT") {
        Some(OP_NOT)
    } else if is_word(word, "ADD") {
        Some(OP_ADD)
    } else if is_word(word, "SUB") {
        Some(OP_SUB)
    } else if is_word(word, "DIV") {
        Some(OP_DIV)
    } else if is_word(word, "MUL") {
        Some(OP_MUL)
    } else if is_word(word, "MOD") {
        Some(OP_MOD)
    } else if is_word(word, "INC") {
        Some(OP_INC)
    } else if is_word(word, "DEC") {
        Some(OP_DEC)
    } else if is_word(word, "BEQ") {
        Some(OP_BEQ)
    } else if is_word(word, "BNE") {
        Some(OP_BNE)
    } else if is_word(word, "BSM") {
        Some(OP_BSM)
    } else if is_word(word, "BBG") {
        Some(OP_BBG)
    } else if is_word(word, "JMP") {
        Some(OP_JMP)
    } else if is_word(word, "SRL") {
        Some(OP_SRL)
    } else if is_word(word, "SRR") {
        Some(OP_SRR)
    } else if is_word(word, "HLT") {
        Some(OP_HLT)
    } else if is_word(word, "IN") {
        Some(OP_IN)
    } else if is_word(word, "OUT") {
        Some(OP_OUT)
    } else {
        None
    }
}

/// The number of words that follow the mnemonic of an instruction.
pub open spec fn operand_count(shape: Shape) -> nat {
    match shape {
        Shape::RegisterOperand => 2,
        Shape::Store => 2,
        Shape::Operand => 1,
        Shape::Register => 1,
        Shape::Branch => 3,
        Shape::Jump => 1,
        Shape::Shift => 2,
        Shape::Halt => 0,
    }
}

/// The register that a word names; another word is [`Error::SyntaxError`].
pub open spec fn register_named(word: Seq<char>) -> Result<Register, Error> {
    match Register::named(word) {
        Some(r) => Ok(r),
        None => Err(Error::SyntaxError),
    }
}

/// The distance of a shift that a word stands for: a decimal number without
/// a minus sign, of ten bits at most. Another word is [`Error::SyntaxError`].
pub open spec fn distance_named(word: Seq<char>) -> Result<u16, Error> {
    match unsigned_16(word) {
        Some(k) => if k <= MAX_CONSTANT {
            Ok(k as u16)
        } else {
            Err(Error::SyntaxError)
        },
        None => Err(Error::SyntaxError),
    }
}

/// The instruction that the words of a line stand for, and the table of
/// labels after the line. The first word is the mnemonic; the operands
/// follow, and what follows the operands is not looked at. The words are
/// read from left to right, and the first that cannot be read decides the
/// error. Only a line that is read to its end adds its label to the table.
pub open spec fn statement(
    t: Seq<Seq<char>>,
    variables: Seq<Seq<char>>,
    labels: Seq<Seq<char>>,
) -> Result<(Instruction, Seq<Seq<char>>), Error> {
    if t.len() == 0 {
        Err(Error::SyntaxError)
    } else {
        match mnemonic(t[0]) {
            None => Err(Error::SyntaxError),
            Some(opcode) => match Shape::of(opcode) {
                None => Err(Error::SyntaxError),
                Some(shape) => if t.len() <= operand_count(shape) {
                    Err(Error::SyntaxError)
                } else {
                    match shape {
                        Shape::RegisterOperand => match register_named(t[1]) {
                            Err(e) => Err(e),
                            Ok(r) => match operand_named(variables, t[2]) {
                                Err(e) => Err(e),
                                Ok(p) => Ok((register_operand_form(opcode, r, p), labels)),
                            },
                        },
                        Shape::Store => match variable_named(variables, t[1]) {
                            Err(e) => Err(e),
                            Ok(v) => match operand_named(variables, t[2]) {
                                Err(e) => Err(e),
                                Ok(p) => Ok((Instruction::STR(v, p), labels)),
                            },
                        },
                        Shape::Operand => match operand_named(variables, t[1]) {
                            Err(e) => Err(e),
                            Ok(p) => Ok((operand_form(opcode, p), labels)),
                        },
                        Shape::Register => match register_named(t[1]) {
                            Err(e) => Err(e),
                            Ok(r) => Ok((register_form(opcode, r), labels)),
                        },
                        Shape::Branch => match operand_named(variables, t[1]) {
                            Err(e) => Err(e),
                            Ok(p) => match operand_named(variables, t[2]) {
                                Err(e) => Err(e),
                                Ok(q) => match label_named(labels, t[3]) {
                                    Err(e) => Err(e),
                                    Ok(l) => Ok(
                                        (branch_form(opcode, p, q, l), labels_after(labels, t[3])),
                                    ),
                                },
                            },
                        },
                        Shape::Jump => match label_named(labels, t[1]) {
                            Err(e) => Err(e),
                            Ok(l) => Ok((jump_form(opcode, l), labels_after(labels, t[1]))),
                        },
                        Shape::Shift => match register_named(t[1]) {
                            Err(e) => Err(e),
                            Ok(r) => match distance_named(t[2]) {
                                Err(e) => Err(e),
                                Ok(k) => Ok((shift_form(opcode, r, k), labels)),
                            },
                        },
                        Shape::Halt => Ok((Instruction::HLT, labels)),
                    }
                },
            },
        }
    }
}

/// What a line of the code section stands for, and the table of labels after
/// it. A line that ends in a colon defines a label, whose name is the line
/// without its colons; any other line is a mnemonic with its operands.
pub open spec fn code_line(
    line: Seq<char>,
    variables: Seq<Seq<char>>,
    labels: Seq<Seq<char>>,
) -> Result<(Instruction, Seq<Seq<char>>), Error> {
    let text = trimmed(line);
    if text.len() > 0 && text.last() == ':' {
        match label_named(labels, without(text, ':')) {
            Err(e) => Err(e),
            Ok(l) => Ok((Instruction::LABEL(l), labels_after(labels, without(text, ':')))),
        }
    } else {
        statement(tokens(text), variables, labels)
    }
}

fn read_register(word: &Vec<char>) -> (r: Result<Register, Error>)
    ensures
        r == register_named(word@),
{
    match Register::from_chars(word) {
        Some(r) => Ok(r),
        None => Err(Error::SyntaxError),
    }
}

fn read_distance(word: &Vec<char>) -> (r: Result<u16, Error>)
    ensures
        r == distance_named(word@),
{
    match parse_unsigned(word) {
        Some(k) => if k <= MAX_CONSTANT as u16 {
            Ok(k)
        } else {
            Err(Error::SyntaxError)
        },
        None => Err(Error::SyntaxError),
    }
}

/// A copy of a word, to hand to the table of labels.
fn copy_of(word: &Vec<char>) -> (r: Vec<char>)
    ensures
        r@ == word@,
{
    let r = slice_of(word, 0, word.len());
    r
}

/// Reads the words of an instruction.
pub fn parse_statement(
    t: &Vec<Vec<char>>,
    variable_names: &AddressNames,
    label_names: &mut AddressNames,
) -> (r: Result<Instruction, Error>)
    requires
        variable_names.wf(),
        old(label_names).wf(),
        old(label_names).kind_of() == NameKind::Label,
    ensures
        final(label_names).wf(),
        final(label_names).kind_of() == NameKind::Label,
        match statement(words(t@), variable_names@, old(label_names)@) {
            Ok((i, labels)) => r == Ok::<Instruction, Error>(i) && final(label_names)@ == labels,
            Err(e) => r == Err::<Instruction, Error>(e) && final(label_names)@ == old(
                label_names,
            )@,
        },
        extends(final(label_names)@, old(label_names)@),
        r is Ok && variable_names@.len() <= MAX_VARIABLE + 1 && final(label_names)@.len()
            <= MAX_LABEL + 1 ==> r->Ok_0.valid() && !r->Ok_0.is_data(),
{
    assert(label_names@.take(label_names@.len() as int) =~= label_names@);
    if t.len() == 0 {
        return Err(Error::SyntaxError);
    }
    let opcode = match opcode_of(&t[0]) {
        Some(opcode) => opcode,
        None => {
            return Err(Error::SyntaxError);
        },
    };
    let shape = match Shape::from_opcode(opcode) {
        Some(shape) => shape,
        None => {
            return Err(Error::SyntaxError);
        },
    };
    let count: usize = match shape {
        Shape::RegisterOperand => 2,
        Shape::Store => 2,
        Shape::Operand => 1,
        Shape::Register => 1,
        Shape::Branch => 3,
        Shape::Jump => 1,
        Shape::Shift => 2,
        Shape::Halt => 0,
    };
    if t.len() <= count {
        return Err(Error::SyntaxError);
    }
    match shape {
        Shape::RegisterOperand => {
            let r = read_register(&t[1])?;
            let p = Parameter::parse(&t[2], variable_names)?;
            Ok(register_operand(opcode, r, p))
        },
        Shape::Store => {
            let v = Variable::lookup(&t[1], variable_names)?;
            let p = Parameter::parse(&t[2], variable_names)?;
            Ok(Instruction::STR(v, p))
        },
        Shape::Operand => {
            let p = Parameter::parse(&t[1], variable_names)?;
            Ok(operand(opcode, p))
        },
        Shape::Register => {
            let r = read_register(&t[1])?;
            Ok(register(opcode, r))
        },
        Shape::Branch => {
            let p = Parameter::parse(&t[1], variable_names)?;
            let q = Parameter::parse(&t[2], variable_names)?;
            let l = Label::intern(copy_of(&t[3]), label_names)?;
            Ok(branch(opcode, p, q, l))
        },
        Shape::Jump => {
            let l = Label::intern(copy_of(&t[1]), label_names)?;
            Ok(jump(opcode, l))
        },
        Shape::Shift => {
            let r = read_register(&t[1])?;
            let k = read_distance(&t[2])?;
            Ok(shift(opcode, r, k))
        },
        Shape::Halt => Ok(Instruction::HLT),
    }
}

/// Reads a line of the code section.
pub fn parse_code(
    line: &Vec<char>,
    variable_names: &AddressNames,
    label_names: &mut AddressNames,
) -> (r: Result<Instruction, Error>)
    requires
        variable_names.wf(),
        old(label_names).wf(),
        old(label_names).kind_of() == NameKind::Label,
    ensures
        final(label_names).wf(),
        final(label_names).kind_of() == NameKind::Label,
        match code_line(line@, variable_names@, old(label_names)@) {
            Ok((i, labels)) => r == Ok::<Instruction, Error>(i) && final(label_names)@ == labels,
            Err(e) => r == Err::<Instruction, Error>(e) && final(label_names)@ == old(
                label_names,
            )@,
        },
        extends(final(label_names)@, old(label_names)@),
        r is Ok && variable_names@.len() <= MAX_VARIABLE + 1 && final(label_names)@.len()
            <= MAX_LABEL + 1 ==> r->Ok_0.valid() && !r->Ok_0.is_data(),
{
    let (a, b) = trim_bounds(line);
    if a < b && line[b - 1] == ':' {
        let name = slice_without(line, a, b, ':');
        let l = Label::intern(name, label_names)?;
        Ok(Instruction::LABEL(l))
    } else {
        let text = slice_of(line, a, b);
        let t = tokenize(&text);
        parse_statement(&t, variable_names, label_names)
    }
}

/// The table of variables after the numbers `first`, `first + 1`, and so on,
/// `count` of them, were added to it as names written in decimal digits. The
/// first number that the table does not take decides the error.
pub open spec fn siblings_added(names: Seq<Seq<char>>, first: nat, count: nat) -> Result<
    Seq<Seq<char>>,
    Error,
>
    decreases count,
{
    if count == 0 {
        Ok(names)
    } else {
        match interned(NameKind::Variable, names, decimal(first)) {
            Err(e) => Err(e),
            Ok(_) => siblings_added(names.push(decimal(first)), first + 1, (count - 1) as nat),
        }
    }
}

/// The array that `name[length]` declares, and the table of variables after
/// it. The name is what stands before the first `[`; the length stands
/// between that `[` and a `]` at the end, is a decimal number without a minus
/// sign, and fits ten bits. The array takes as many indices in a row as it
/// is long, and one at least: the first under its name, each further one
/// under its own number as a name.
pub open spec fn array_declared(head: Seq<char>, value: u32, names: Seq<Seq<char>>) -> Result<
    (Instruction, Seq<Seq<char>>),
    Error,
> {
    let k = span(head, '[') as int;
    if !(k + 2 <= head.len() && head.last() == ']') {
        Err(Error::SyntaxError)
    } else {
        match unsigned_16(head.subrange(k + 1, head.len() - 1)) {
            None => Err(Error::SyntaxError),
            Some(n) => if n > MAX_CONSTANT {
                Err(Error::Overflow)
            } else {
                match declared(names, head.take(k)) {
                    Err(e) => Err(e),
                    Ok(v) => match siblings_added(
                        names.push(head.take(k)),
                        (v.name + 1) as nat,
                        if n > 0 {
                            (n - 1) as nat
                        } else {
                            0
                        },
                    ) {
                        Err(e) => Err(e),
                        Ok(after) => Ok((Instruction::ARRAY(v, value, n as u16), after)),
                    },
                }
            },
        }
    }
}

/// What a line of the data section stands for, and the table of variables
/// after it. The line has two words: what is declared, and a decimal integer
/// with an optional sign, which is reduced to ten bits. `array_form` tells
/// whether the line was found to declare an array; `None` stands for a line
/// of which this could not be told, which is an error.
pub open spec fn data_line(line: Seq<char>, array_form: Option<bool>, names: Seq<Seq<char>>) -> Result<
    (Instruction, Seq<Seq<char>>),
    Error,
> {
    let t = tokens(line);
    if t.len() != 2 {
        Err(Error::SyntaxError)
    } else {
        match signed_32(t[1]) {
            None => Err(Error::SyntaxError),
            Some(value) => match array_form {
                None => Err(Error::SyntaxError),
                Some(true) => array_declared(t[0], wrap_10(value), names),
                Some(false) => match declared(names, t[0]) {
                    Err(e) => Err(e),
                    Ok(v) => Ok((Instruction::VARIABLE(v, wrap_10(value)), names.push(t[0]))),
                },
            },
        }
    }
}

/// Declares an array.
#[verifier::loop_isolation(false)]
fn declare_array(head: &Vec<char>, value: u32, variable_names: &mut AddressNames) -> (r: Result<
    Instruction,
    Error,
>)
    requires
        old(variable_names).wf(),
        old(variable_names).kind_of() == NameKind::Variable,
        value <= MAX_CONSTANT,
    ensures
        final(variable_names).wf(),
        final(variable_names).kind_of() == NameKind::Variable,
        match array_declared(head@, value, old(variable_names)@) {
            Ok((i, names)) => r == Ok::<Instruction, Error>(i) && final(variable_names)@ == names,
            Err(e) => r == Err::<Instruction, Error>(e) && final(variable_names)@ == old(
                variable_names,
            )@,
        },
        r matches Ok(i) ==> i.valid() && i.is_data(),
        extends(final(variable_names)@, old(variable_names)@),
{
    assert(variable_names@.take(variable_names@.len() as int) =~= variable_names@);
    let n = head.len();
    assert(head@.skip(0) =~= head@);
    let k = find(head, 0, '[');
    if !(n >= 2 && k <= n - 2 && head[n - 1] == ']') {
        return Err(Error::SyntaxError);
    }
    let digits = slice_of(head, k + 1, n - 1);
    let length = match parse_unsigned(&digits) {
        Some(length) => length,
        None => {
            return Err(Error::SyntaxError);
        },
    };
    if length > MAX_CONSTANT as u16 {
        return Err(Error::Overflow);
    }
    let name = slice_of(head, 0, k);
    let start = variable_names.len();
    let v = Variable::declare(name, variable_names)?;
    if length == 0 {
        return Ok(Instruction::ARRAY(v, value, length));
    }
    let ghost declared_names = variable_names@;
    let mut i: u16 = 1;
    while i < length
        invariant
            1 <= i <= length <= MAX_CONSTANT,
            v.name <= MAX_VARIABLE,
            variable_names.wf(),
            variable_names.kind_of() == NameKind::Variable,
            start <= variable_names@.len(),
            variable_names@.take(start as int) == old(variable_names)@,
            siblings_added(declared_names, (v.name + 1) as nat, (length - 1) as nat)
                == siblings_added(variable_names@, (v.name + i) as nat, (length - i) as nat),
        decreases length - i,
    {
        let ghost before = variable_names@;
        if let Err(e) = variable_names.insert(decimal_chars(v.name + i)) {
            assert(siblings_added(before, (v.name + i) as nat, (length - i) as nat) == Err::<
                Seq<Seq<char>>,
                Error,
            >(e));
            variable_names.truncate(start);
            return Err(e);
        }
        i += 1;
    }
    Ok(Instruction::ARRAY(v, value, length))
}

/// Reads a line of the data section, given whether it declares an array.
pub fn parse_data(
    line: &Vec<char>,
    array_form: Option<bool>,
    variable_names: &mut AddressNames,
) -> (r: Result<Instruction, Error>)
    requires
        old(variable_names).wf(),
        old(variable_names).kind_of() == NameKind::Variable,
    ensures
        final(variable_names).wf(),
        final(variable_names).kind_of() == NameKind::Variable,
        match data_line(line@, array_form, old(variable_names)@) {
            Ok((i, names)) => r == Ok::<Instruction, Error>(i) && final(variable_names)@ == names,
            Err(e) => r == Err::<Instruction, Error>(e) && final(variable_names)@ == old(
                variable_names,
            )@,
        },
        r matches Ok(i) ==> i.valid() && i.is_data(),
        extends(final(variable_names)@, old(variable_names)@),
{
    assert(variable_names@.take(variable_names@.len() as int) =~= variable_names@);
    let t = tokenize(line);
    if t.len() != 2 {
        return Err(Error::SyntaxError);
    }
    let value = match parse_signed(&t[1]) {
        Some(value) => wrap(value),
        None => {
            return Err(Error::SyntaxError);
        },
    };
    match array_form {
        None => Err(Error::SyntaxError),
        Some(true) => declare_array(&t[0], value, variable_names),
        Some(false) => {
            let v = Variable::declare(copy_of(&t[0]), variable_names)?;
            Ok(Instruction::VARIABLE(v, value))
        },
    }
}

/// A line of the code section stands for no declaration.
pub proof fn lemma_code_line_is_no_data(
    line: Seq<char>,
    variables: Seq<Seq<char>>,
    labels: Seq<Seq<char>>,
)
    ensures
        code_line(line, variables, labels) matches Ok((i, _)) ==> !i.is_data(),
{
}

/// A line of the data section stands for a declaration.
pub proof fn lemma_data_line_is_data(
    line: Seq<char>,
    array_form: Option<bool>,
    names: Seq<Seq<char>>,
)
    ensures
        data_line(line, array_form, names) matches Ok((i, _)) ==> i.is_data(),
{
}

/// A table stays as its kind asks after a name that it takes was added at
/// its end.
pub proof fn lemma_interned_keeps_wf(kind: NameKind, names: Seq<Seq<char>>, name: Seq<char>)
    requires
        well_formed(kind, names),
        interned(kind, names, name) is Ok,
    ensures
        well_formed(kind, names.push(name)),
        extends(names.push(name), names),
{
    assert(names.push(name).take(names.len() as int) =~= names);
}

/// The elements of an array leave the table of variables as its kind asks.
pub proof fn lemma_siblings_keep_wf(names: Seq<Seq<char>>, first: nat, count: nat)
    requires
        well_formed(NameKind::Variable, names),
    ensures
        siblings_added(names, first, count) matches Ok(after) ==> well_formed(
            NameKind::Variable,
            after,
        ) && extends(after, names),
    decreases count,
{
    assert(names.take(names.len() as int) =~= names);
    if count > 0 {
        if interned(NameKind::Variable, names, decimal(first)) is Ok {
            let next = names.push(decimal(first));
            lemma_interned_keeps_wf(NameKind::Variable, names, decimal(first));
            lemma_siblings_keep_wf(next, first + 1, (count - 1) as nat);
            match siblings_added(next, first + 1, (count - 1) as nat) {
                Ok(after) => {
                    assert(after.take(names.len() as int) =~= after.take(next.len() as int).take(
                        names.len() as int,
                    ));
                },
                Err(_) => {},
            }
        }
    }
}

/// A line of the data section leaves the table of variables as its kind
/// asks, and every name that was in the table at its position.
pub proof fn lemma_data_line_keeps_wf(
    line: Seq<char>,
    array_form: Option<bool>,
    names: Seq<Seq<char>>,
)
    requires
        well_formed(NameKind::Variable, names),
    ensures
        data_line(line, array_form, names) matches Ok((_, after)) ==> well_formed(
            NameKind::Variable,
            after,
        ) && extends(after, names),
{
    match data_line(line, array_form, names) {
        Ok((i, after)) => {
            let head = tokens(line)[0];
            match i {
                Instruction::ARRAY(v, _, n) => {
                    let name = head.take(span(head, '[') as int);
                    let next = names.push(name);
                    lemma_interned_keeps_wf(NameKind::Variable, names, name);
                    let count: nat = if n > 0 {
                        (n - 1) as nat
                    } else {
                        0
                    };
                    lemma_siblings_keep_wf(next, (v.name + 1) as nat, count);
                    assert(after.take(names.len() as int) =~= after.take(next.len() as int).take(
                        names.len() as int,
                    ));
                },
                _ => {
                    lemma_interned_keeps_wf(NameKind::Variable, names, head);
                },
            }
        },
        Err(_) => {},
    }
}

/// A line of the code section leaves the table of labels as its kind asks,
/// and every name that was in the table at its position.
pub proof fn lemma_code_line_keeps_wf(
    line: Seq<char>,
    variables: Seq<Seq<char>>,
    labels: Seq<Seq<char>>,
)
    requires
        well_formed(NameKind::Label, labels),
    ensures
        code_line(line, variables, labels) matches Ok((_, after)) ==> well_formed(
            NameKind::Label,
            after,
        ) && extends(after, labels),
{
    assert(labels.take(labels.len() as int) =~= labels);
    match code_line(line, variables, labels) {
        Ok((_, after)) => {
            if after != labels {
                let name = after.last();
                lemma_interned_keeps_wf(NameKind::Label, labels, name);
            }
        },
        Err(_) => {},
    }
}

} // verus!
