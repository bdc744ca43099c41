//! The instruction set: registers, variables, labels, operands and
//! instructions, each with its place in a 32-bit word.

use vstd::prelude::*;
use vstd::string::*;
use crate::bits::{field, get_field, place, put_field};
use crate::error::Error;
pub use crate::instruction::Instruction;
use crate::text::{
    chars_of, decimal, decimal_chars, parse_signed, same_text, signed_32, string_of, words,
    wrap, wrap_10,
};

verus! {

/// The highest index a variable can have: its field is ten bits wide.
pub const MAX_VARIABLE: u16 = 1023;

/// The highest index a label can have: its field is three bits wide.
pub const MAX_LABEL: u16 = 7;

/// The highest value of a constant operand, of a shift distance, of the
/// initial value of a variable and of the length of an array.
pub const MAX_CONSTANT: u32 = 1023;

/// One of the machine's four registers.
#[derive(Clone, Copy, Debug, PartialEq, Eq, Hash, Structural)]
pub enum Register {
    T0,
    T1,
    T2,
    T3,
}

impl Register {
    /// The number of the register, as it stands in its two-bit field.
    pub open spec fn number(self) -> u8 {
        match self {
            Register::T0 => 0,
            Register::T1 => 1,
            Register::T2 => 2,
            Register::T3 => 3,
        }
    }

    /// The register that a two-bit field names; numbers above three name none.
    pub open spec fn numbered(i: int) -> Option<Register> {
        if i == 0 {
            Some(Register::T0)
        } else if i == 1 {
            Some(Register::T1)
        } else if i == 2 {
            Some(Register::T2)
        } else if i == 3 {
            Some(Register::T3)
        } else {
            None
        }
    }

    /// The register that a piece of text names: `T0`, `T1`, `T2` or `T3`.
    pub open spec fn named(s: Seq<char>) -> Option<Register> {
        if s.len() == 2 && s[0] == 'T' && '0' <= s[1] <= '3' {
            Register::numbered(s[1] as int - '0' as int)
        } else {
            None
        }
    }

    /// The number of the register.
    pub fn index(self) -> (i: u8)
        ensures
            i == self.number(),
            i < 4,
    {
        match self {
            Register::T0 => 0,
            Register::T1 => 1,
            Register::T2 => 2,
            Register::T3 => 3,
        }
    }

    /// The register of a number from 0 to 3.
    pub fn from_index(i: u8) -> (r: Option<Register>)
        ensures
            r == Register::numbered(i as int),
            r is Some <==> i < 4,
            r matches Some(reg) ==> reg.number() == i,
    {
        match i {
            0 => Some(Register::T0),
            1 => Some(Register::T1),
            2 => Some(Register::T2),
            3 => Some(Register::T3),
            _ => None,
        }
    }
}

/// A variable, known by its index in the table of variable names.
#[derive(Clone, Copy, Debug, PartialEq, Eq, Hash, Structural)]
pub struct Variable {
    pub name: u16,
}

impl Variable {
    /// Whether the index fits the ten-bit field of a variable.
    pub open spec fn valid(self) -> bool {
        self.name <= MAX_VARIABLE
    }
}

/// A label, known by its index in the table of label names.
#[derive(Clone, Copy, Debug, PartialEq, Eq, Hash, Structural)]
pub struct Label {
    pub name: u16,
}

impl Label {
    /// Whether the index fits the three-bit field of a label.
    pub open spec fn valid(self) -> bool {
        self.name <= MAX_LABEL
    }
}

/// An operand: where an instruction takes a value from.
#[derive(Clone, Copy, Debug, PartialEq, Eq, Hash, Structural)]
pub enum Parameter {
    Register(Register),
    Variable(Variable),
    Constant(u32),
}

impl Parameter {
    /// Whether the operand fits its twelve-bit encoding.
    pub open spec fn valid(self) -> bool {
        match self {
            Parameter::Register(_) => true,
            Parameter::Variable(v) => v.valid(),
            Parameter::Constant(c) => c <= MAX_CONSTANT,
        }
    }

    /// The twelve bits of the operand: a two-bit tag, then ten bits of payload.
    /// A register stands in the two highest bits of the payload.
    pub open spec fn encoded(self) -> u32 {
        match self {
            Parameter::Register(r) => place(0, 10, 2) | place(r.number() as u32, 8, 2),
            Parameter::Variable(v) => place(1, 10, 2) | place(v.name as u32, 0, 10),
            Parameter::Constant(c) => place(2, 10, 2) | place(c, 0, 10),
        }
    }

    /// The operand that twelve bits stand for. The tag is all that lies above
    /// the payload; a tag other than 0, 1 and 2 stands for nothing.
    pub open spec fn decoded(bits: u32) -> Result<Parameter, Error> {
        let tag = bits >> 10;
        if tag == 0 {
            match Register::numbered(field(bits, 8, 2) as int) {
                Some(r) => Ok(Parameter::Register(r)),
                None => Err(Error::MalformedBinary),
            }
        } else if tag == 1 {
            Ok(Parameter::Variable(Variable { name: field(bits, 0, 10) as u16 }))
        } else if tag == 2 {
            Ok(Parameter::Constant(field(bits, 0, 10)))
        } else {
            Err(Error::MalformedBinary)
        }
    }

    /// Encodes the operand in twelve bits. A variable or a constant that is
    /// too large for its ten bits loses its high bits.
    pub fn encode(&self) -> (bits: u32)
        ensures
            bits == self.encoded(),
            bits < 0x1000,
    {
        let bits = match self {
            Parameter::Register(r) => put_field(0, 10, 2) | put_field(r.index() as u32, 8, 2),
            Parameter::Variable(v) => put_field(1, 10, 2) | put_field(v.name as u32, 0, 10),
            Parameter::Constant(c) => put_field(2, 10, 2) | put_field(*c, 0, 10),
        };
        proof {
            lemma_operand_bits(*self);
        }
        bits
    }

    /// Decodes an operand. It fails, with [`Error::MalformedBinary`], where
    /// what lies above the ten bits of payload is not one of the tags 0, 1 and 2.
    pub fn decode(bits: u32) -> (r: Result<Parameter, Error>)
        ensures
            r == Parameter::decoded(bits),
            r matches Ok(p) ==> p.valid(),
            r is Err <==> bits >> 10 > 2,
    {
        proof {
            lemma_field_bounds(bits, 0);
            lemma_field_bounds(bits, 8);
        }
        let tag = bits >> 10;
        if tag == 0 {
            match Register::from_index(get_field(bits, 8, 2) as u8) {
                Some(r) => Ok(Parameter::Register(r)),
                None => Err(Error::MalformedBinary),
            }
        } else if tag == 1 {
            Ok(Parameter::Variable(Variable { name: get_field(bits, 0, 10) as u16 }))
        } else if tag == 2 {
            Ok(Parameter::Constant(get_field(bits, 0, 10)))
        } else {
            Err(Error::MalformedBinary)
        }
    }
}

/// A field is smaller than two to the power of its width.
pub proof fn lemma_field_bounds(word: u32, low: u32)
    by (bit_vector)
    requires
        low < 32,
    ensures
        field(word, low, 1) < 2,
        field(word, low, 2) < 4,
        field(word, low, 3) < 8,
        field(word, low, 5) < 32,
        field(word, low, 10) < 1024,
        field(word, low, 12) < 4096,
{
}

/// The encoding of an operand takes twelve bits.
pub proof fn lemma_operand_bits(p: Parameter)
    ensures
        p.encoded() < 0x1000,
{
    let n: u32 = match p {
        Parameter::Register(r) => r.number() as u32,
        Parameter::Variable(v) => v.name as u32,
        Parameter::Constant(c) => c,
    };
    assert((place(0, 10, 2) | place(n, 8, 2)) < 0x1000 && (place(1, 10, 2) | place(n, 0, 10))
        < 0x1000 && (place(2, 10, 2) | place(n, 0, 10)) < 0x1000) by (bit_vector);
}

/// What the fields of an encoded operand hold.
proof fn lemma_operand_fields(n: u32)
    by (bit_vector)
    ensures
        n < 4 ==> (place(0, 10, 2) | place(n, 8, 2)) >> 10 == 0 && field(
            place(0, 10, 2) | place(n, 8, 2),
            8,
            2,
        ) == n,
        n < 1024 ==> (place(1, 10, 2) | place(n, 0, 10)) >> 10 == 1 && field(
            place(1, 10, 2) | place(n, 0, 10),
            0,
            10,
        ) == n,
        n < 1024 ==> (place(2, 10, 2) | place(n, 0, 10)) >> 10 == 2 && field(
            place(2, 10, 2) | place(n, 0, 10),
            0,
            10,
        ) == n,
{
}

/// Decoding the encoding of an operand that fits its fields gives the operand back.
pub proof fn lemma_operand_round_trip(p: Parameter)
    requires
        p.valid(),
    ensures
        Parameter::decoded(p.encoded()) == Ok::<Parameter, Error>(p),
{
    match p {
        Parameter::Register(r) => lemma_operand_fields(r.number() as u32),
        Parameter::Variable(v) => lemma_operand_fields(v.name as u32),
        Parameter::Constant(c) => lemma_operand_fields(c),
    }
}

/// Whether the standard library counts the character as a letter or as a
/// number, in any script.
pub uninterp spec fn alphanumeric(c: char) -> bool;

/// `char::is_alphanumeric` of the standard library. What it returns depends
/// on the character alone; the tables it goes by are too long to state here.
pub assume_specification[ char::is_alphanumeric ](c: char) -> (b: bool)
    ensures
        b == alphanumeric(c),
;

/// What the names of a symbol table stand for.
#[derive(Clone, Copy, Debug, PartialEq, Eq, Hash, Structural)]
pub enum NameKind {
    /// Variables: 1024 at most, with names of letters and numbers that are
    /// not the names of registers.
    Variable,
    /// Labels: eight at most, with any names.
    Label,
}

impl NameKind {
    /// The number of names that a table of the kind may hold: its indices
    /// fit ten bits for variables and three bits for labels.
    pub open spec fn limit(self) -> nat {
        match self {
            NameKind::Variable => (MAX_VARIABLE + 1) as nat,
            NameKind::Label => (MAX_LABEL + 1) as nat,
        }
    }

    /// Whether a table of the kind may hold the name.
    pub open spec fn admits(self, name: Seq<char>) -> bool {
        self is Label || valid_variable_name(name)
    }

    /// The number of names that a table of the kind may hold.
    pub fn capacity(self) -> (n: usize)
        ensures
            n == self.limit(),
    {
        match self {
            NameKind::Variable => MAX_VARIABLE as usize + 1,
            NameKind::Label => MAX_LABEL as usize + 1,
        }
    }
}

/// A symbol table: names in the order in which they were added. A name
/// stands for its position in the table, no name stands there twice, and
/// the table holds what its kind admits and no more.
pub struct AddressNames {
    names: Vec<Vec<char>>,
    kind: NameKind,
}

impl View for AddressNames {
    type V = Seq<Seq<char>>;

    closed spec fn view(&self) -> Seq<Seq<char>> {
        words(self.names@)
    }
}

impl AddressNames {
    /// What the names of the table stand for.
    pub closed spec fn kind_of(&self) -> NameKind {
        self.kind
    }

    /// What holds of a table at all times: see [`well_formed`].
    pub open spec fn wf(&self) -> bool {
        well_formed(self.kind_of(), self@)
    }

    /// A table of variables without names.
    pub fn new() -> (names: Self)
        ensures
            names@ == Seq::<Seq<char>>::empty(),
            names.kind_of() == NameKind::Variable,
            names.wf(),
    {
        AddressNames { names: Vec::new(), kind: NameKind::Variable }
    }

    /// A table of labels without names.
    pub fn labels() -> (names: Self)
        ensures
            names@ == Seq::<Seq<char>>::empty(),
            names.kind_of() == NameKind::Label,
            names.wf(),
    {
        AddressNames { names: Vec::new(), kind: NameKind::Label }
    }

    /// What the names of the table stand for.
    pub fn kind(&self) -> (kind: NameKind)
        ensures
            kind == self.kind_of(),
    {
        self.kind
    }

    /// The number of names in the table.
    pub fn len(&self) -> (n: usize)
        ensures
            n == self@.len(),
    {
        self.names.len()
    }

    /// The name at a position of the table.
    pub fn name(&self, index: usize) -> (r: Option<String>)
        ensures
            match r {
                Some(s) => index < self@.len() && s@ == self@[index as int],
                None => index >= self@.len(),
            },
    {
        if index < self.names.len() {
            let chars = &self.names[index];
            let s = string_of(chars, 0, chars.len());
            Some(s)
        } else {
            None
        }
    }

    /// The position of a name, if the name is in the table.
    pub fn position(&self, name: &Vec<char>) -> (r: Option<usize>)
        ensures
            match r {
                Some(i) => i < self@.len() && self@[i as int] == name@ && forall|j: int|
                    0 <= j < i ==> self@[j] != name@,
                None => !self@.contains(name@),
            },
    {
        let mut i: usize = 0;
        while i < self.names.len()
            invariant
                i <= self.names.len(),
                self.names@.len() == self@.len(),
                forall|j: int| 0 <= j < i ==> self@[j] != name@,
            decreases self.names.len() - i,
        {
            if same_text(&self.names[i], name) {
                return Some(i);
            }
            i += 1;
        }
        None
    }

    /// Whether a name is in the table.
    pub fn contains(&self, s: &str) -> (b: bool)
        ensures
            b == self@.contains(s@),
    {
        let name = chars_of(s);
        self.position(&name).is_some()
    }

    /// The position that a new name gets at the end of the table, or the
    /// reason for which the table does not take the name, given whether every
    /// character of the name is a letter or a number. A name that is in the
    /// table already is [`Error::DuplicateName`]. In a table of variables, a
    /// name with another character, and the name of a register, is
    /// [`Error::InvalidName`]. One more name than the table may hold is
    /// [`Error::Overflow`].
    pub fn place_for(&self, name: &Vec<char>, alphanumeric: bool) -> (r: Result<u16, Error>)
        requires
            self.wf(),
        ensures
            r == interned_with(self.kind_of(), self@, name@, alphanumeric),
    {
        if self.position(name).is_some() {
            return Err(Error::DuplicateName);
        }
        match self.kind {
            NameKind::Variable => {
                if !alphanumeric || Register::from_chars(name).is_some() {
                    return Err(Error::InvalidName);
                }
            },
            NameKind::Label => {},
        }
        let n = self.names.len();
        if n >= self.kind.capacity() {
            return Err(Error::Overflow);
        }
        Ok(n as u16)
    }

    /// Adds a new name at the end of the table and gives its position. The
    /// table stays as it was where it does not take the name: see
    /// [`AddressNames::place_for`].
    pub fn add(&mut self, s: &str) -> (r: Result<u16, Error>)
        requires
            old(self).wf(),
        ensures
            final(self).wf(),
            final(self).kind_of() == old(self).kind_of(),
            r == interned(old(self).kind_of(), old(self)@, s@),
            r is Ok ==> final(self)@ == old(self)@.push(s@),
            r is Err ==> final(self)@ == old(self)@,
            extends(final(self)@, old(self)@),
    {
        self.insert(chars_of(s))
    }

    /// [`AddressNames::add`], for a name that is at hand as characters.
    pub fn insert(&mut self, name: Vec<char>) -> (r: Result<u16, Error>)
        requires
            old(self).wf(),
        ensures
            final(self).wf(),
            final(self).kind_of() == old(self).kind_of(),
            r == interned(old(self).kind_of(), old(self)@, name@),
            r is Ok ==> final(self)@ == old(self)@.push(name@),
            r is Err ==> final(self)@ == old(self)@,
            extends(final(self)@, old(self)@),
    {
        assert(self@.take(self@.len() as int) =~= self@);
        let alphanumeric = match self.kind {
            NameKind::Variable => every_alphanumeric(&name),
            NameKind::Label => true,
        };
        let place = self.place_for(&name, alphanumeric)?;
        let ghost before = self@;
        self.names.push(name);
        assert(self@ =~= before.push(name@));
        assert(self@.take(before.len() as int) =~= before);
        Ok(place)
    }

    /// Takes the last names off the table until `n` are left.
    pub fn truncate(&mut self, n: usize)
        requires
            old(self).wf(),
            n <= old(self)@.len(),
        ensures
            final(self).wf(),
            final(self).kind_of() == old(self).kind_of(),
            final(self)@ == old(self)@.take(n as int),
    {
        self.names.truncate(n);
        assert(self@ =~= old(self)@.take(n as int));
    }
}

/// What holds of a symbol table at all times: no name stands in it twice,
/// it holds no more names than its kind allows, so that every index fits ten
/// bits in a table of variables and three bits in a table of labels, and the
/// names of a table of variables are made of letters and numbers and are not
/// the names of registers.
pub open spec fn well_formed(kind: NameKind, names: Seq<Seq<char>>) -> bool {
    &&& names.no_duplicates()
    &&& names.len() <= kind.limit()
    &&& forall|i: int| 0 <= i < names.len() ==> kind.admits(#[trigger] names[i])
}

/// Whether a table holds all that an earlier one held, each name at the
/// position that it had.
pub open spec fn extends(after: Seq<Seq<char>>, before: Seq<Seq<char>>) -> bool {
    before.len() <= after.len() && after.take(before.len() as int) == before
}

/// Whether every character of a name is a letter or a number.
pub open spec fn all_alphanumeric(name: Seq<char>) -> bool {
    forall|i: int| 0 <= i < name.len() ==> alphanumeric(#[trigger] name[i])
}

/// Whether a variable may have the name: every character is a letter or a
/// number, and the name is not that of a register.
pub open spec fn valid_variable_name(name: Seq<char>) -> bool {
    all_alphanumeric(name) && Register::named(name) is None
}

/// What adding a new name to a table gives, given whether every character
/// of the name is a letter or a number: the position of the name, or the
/// reason for which the table does not take it.
pub open spec fn interned_with(
    kind: NameKind,
    names: Seq<Seq<char>>,
    name: Seq<char>,
    alphanumeric: bool,
) -> Result<u16, Error> {
    if names.contains(name) {
        Err(Error::DuplicateName)
    } else if kind is Variable && !(alphanumeric && Register::named(name) is None) {
        Err(Error::InvalidName)
    } else if names.len() >= kind.limit() {
        Err(Error::Overflow)
    } else {
        Ok(names.len() as u16)
    }
}

/// What adding a new name to a table gives: the position of the name, or
/// the reason for which the table does not take it.
pub open spec fn interned(kind: NameKind, names: Seq<Seq<char>>, name: Seq<char>) -> Result<
    u16,
    Error,
> {
    interned_with(kind, names, name, all_alphanumeric(name))
}

/// What declaring a variable gives: the new variable, or the reason for
/// which the name is refused.
pub open spec fn declared(names: Seq<Seq<char>>, name: Seq<char>) -> Result<Variable, Error> {
    match interned(NameKind::Variable, names, name) {
        Ok(i) => Ok(Variable { name: i }),
        Err(e) => Err(e),
    }
}

/// The variable that a name stands for, if the name was declared.
pub open spec fn variable_named(names: Seq<Seq<char>>, name: Seq<char>) -> Result<
    Variable,
    Error,
> {
    if names.contains(name) {
        Ok(Variable { name: names.index_of(name) as u16 })
    } else {
        Err(Error::Undefined)
    }
}

/// The label that a name stands for in the table of labels: the one it
/// stood for before, or a new one at the end of the table as long as the
/// table has room for one of eight.
pub open spec fn label_named(names: Seq<Seq<char>>, name: Seq<char>) -> Result<Label, Error> {
    if names.contains(name) {
        Ok(Label { name: names.index_of(name) as u16 })
    } else {
        match interned(NameKind::Label, names, name) {
            Ok(i) => Ok(Label { name: i }),
            Err(e) => Err(e),
        }
    }
}

/// The table of labels after a name was looked up in it.
pub open spec fn labels_after(names: Seq<Seq<char>>, name: Seq<char>) -> Seq<Seq<char>> {
    if !names.contains(name) && interned(NameKind::Label, names, name) is Ok {
        names.push(name)
    } else {
        names
    }
}

/// The operand that a word of text stands for: a register, else a constant
/// reduced to ten bits, else a variable that was declared.
pub open spec fn operand_named(names: Seq<Seq<char>>, word: Seq<char>) -> Result<
    Parameter,
    Error,
> {
    match Register::named(word) {
        Some(r) => Ok(Parameter::Register(r)),
        None => match signed_32(word) {
            Some(v) => Ok(Parameter::Constant(wrap_10(v))),
            None => match variable_named(names, word) {
                Ok(v) => Ok(Parameter::Variable(v)),
                Err(e) => Err(e),
            },
        },
    }
}

impl Register {
    /// Reads the name of a register.
    pub fn from_str(s: &str) -> (r: Option<Register>)
        ensures
            r == Register::named(s@),
    {
        Register::from_chars(&chars_of(s))
    }

    /// Reads the name of a register that is at hand as characters.
    pub fn from_chars(name: &Vec<char>) -> (r: Option<Register>)
        ensures
            r == Register::named(name@),
    {
        if name.len() == 2 && name[0] == 'T' {
            let c = name[1];
            if c == '0' {
                Some(Register::T0)
            } else if c == '1' {
                Some(Register::T1)
            } else if c == '2' {
                Some(Register::T2)
            } else if c == '3' {
                Some(Register::T3)
            } else {
                None
            }
        } else {
            None
        }
    }
}

/// Whether every character of a name is a letter or a number.
fn every_alphanumeric(name: &Vec<char>) -> (b: bool)
    ensures
        b == all_alphanumeric(name@),
{
    let mut i: usize = 0;
    while i < name.len()
        invariant
            i <= name.len(),
            forall|j: int| 0 <= j < i ==> alphanumeric(#[trigger] name@[j]),
        decreases name.len() - i,
    {
        if !name[i].is_alphanumeric() {
            return false;
        }
        i += 1;
    }
    true
}

impl Variable {
    /// Declares a variable: adds its name to the table of variables and
    /// gives it the next index. The name must be new and made of letters and
    /// numbers, it must not be the name of a register, and the table must
    /// have room; else the table stays as it was.
    pub fn new(s: &str, address_names: &mut AddressNames) -> (r: Result<Variable, Error>)
        requires
            old(address_names).wf(),
            old(address_names).kind_of() == NameKind::Variable,
        ensures
            final(address_names).wf(),
            final(address_names).kind_of() == NameKind::Variable,
            r == declared(old(address_names)@, s@),
            r is Ok ==> final(address_names)@ == old(address_names)@.push(s@),
            r is Err ==> final(address_names)@ == old(address_names)@,
            r matches Ok(v) ==> v.valid(),
            extends(final(address_names)@, old(address_names)@),
    {
        Variable::declare(chars_of(s), address_names)
    }

    /// [`Variable::new`], for a name that is at hand as characters.
    pub fn declare(name: Vec<char>, address_names: &mut AddressNames) -> (r: Result<
        Variable,
        Error,
    >)
        requires
            old(address_names).wf(),
            old(address_names).kind_of() == NameKind::Variable,
        ensures
            final(address_names).wf(),
            final(address_names).kind_of() == NameKind::Variable,
            r == declared(old(address_names)@, name@),
            r is Ok ==> final(address_names)@ == old(address_names)@.push(name@),
            r is Err ==> final(address_names)@ == old(address_names)@,
            r matches Ok(v) ==> v.valid(),
            extends(final(address_names)@, old(address_names)@),
    {
        match address_names.insert(name) {
            Ok(i) => Ok(Variable { name: i }),
            Err(e) => Err(e),
        }
    }

    /// Looks a variable up by its name. A name that was not declared is
    /// [`Error::Undefined`]. The table stays as it was.
    pub fn from_str(s: &str, address_names: &mut AddressNames) -> (r: Result<Variable, Error>)
        requires
            old(address_names).wf(),
        ensures
            *final(address_names) == *old(address_names),
            r == variable_named(old(address_names)@, s@),
    {
        Variable::lookup(&chars_of(s), address_names)
    }

    /// [`Variable::from_str`], for a name that is at hand as characters.
    pub fn lookup(name: &Vec<char>, address_names: &AddressNames) -> (r: Result<Variable, Error>)
        requires
            address_names.wf(),
        ensures
            r == variable_named(address_names@, name@),
            r matches Ok(v) ==> v.name < address_names@.len(),
    {
        match address_names.position(name) {
            Some(i) => {
                Ok(Variable { name: i as u16 })
            },
            None => Err(Error::Undefined),
        }
    }
}

impl Variable {
    /// How the variable is shown to a reader: by its name, or, where the
    /// table has no name for it, by the letter `V` and its index.
    pub open spec fn shown(self, names: Seq<Seq<char>>) -> Seq<char> {
        if self.name < names.len() {
            names[self.name as int]
        } else {
            seq!['V'] + decimal(self.name as nat)
        }
    }

    /// The text that shows the variable to a reader.
    pub fn describe(&self, address_names: &AddressNames) -> (s: String)
        ensures
            s@ == self.shown(address_names@),
    {
        match address_names.name(self.name as usize) {
            Some(s) => s,
            None => {
                let digits = decimal_chars(self.name);
                let mut s = String::new();
                s.push('V');
                let mut i: usize = 0;
                while i < digits.len()
                    invariant
                        i <= digits.len(),
                        s@ == seq!['V'] + digits@.take(i as int),
                    decreases digits.len() - i,
                {
                    s.push(digits[i]);
                    i += 1;
                }
                s
            },
        }
    }
}

impl Label {
    /// The label of a name: the one that the name has in the table of
    /// labels, or a new one if the name is not there yet. A ninth label is
    /// [`Error::Overflow`], and leaves the table as it was.
    pub fn from_str(s: &str, label_names: &mut AddressNames) -> (r: Result<Label, Error>)
        requires
            old(label_names).wf(),
            old(label_names).kind_of() == NameKind::Label,
        ensures
            final(label_names).wf(),
            final(label_names).kind_of() == NameKind::Label,
            r == label_named(old(label_names)@, s@),
            final(label_names)@ == labels_after(old(label_names)@, s@),
            r matches Ok(l) ==> l.name < final(label_names)@.len() && l.valid(),
            extends(final(label_names)@, old(label_names)@),
    {
        Label::intern(chars_of(s), label_names)
    }

    /// [`Label::from_str`], for a name that is at hand as characters.
    pub fn intern(name: Vec<char>, label_names: &mut AddressNames) -> (r: Result<Label, Error>)
        requires
            old(label_names).wf(),
            old(label_names).kind_of() == NameKind::Label,
        ensures
            final(label_names).wf(),
            final(label_names).kind_of() == NameKind::Label,
            r == label_named(old(label_names)@, name@),
            final(label_names)@ == labels_after(old(label_names)@, name@),
            r matches Ok(l) ==> l.name < final(label_names)@.len() && l.valid(),
            extends(final(label_names)@, old(label_names)@),
    {
        assert(label_names@.take(label_names@.len() as int) =~= label_names@);
        match label_names.position(&name) {
            Some(i) => Ok(Label { name: i as u16 }),
            None => match label_names.insert(name) {
                Ok(i) => Ok(Label { name: i }),
                Err(e) => Err(e),
            },
        }
    }
}

impl Parameter {
    /// Reads an operand: the name of a register, else a decimal integer, else
    /// the name of a variable that was declared. The table stays as it was.
    pub fn from_str(s: &str, variable_names: &mut AddressNames) -> (r: Result<Parameter, Error>)
        requires
            old(variable_names).wf(),
        ensures
            *final(variable_names) == *old(variable_names),
            r == operand_named(old(variable_names)@, s@),
            r is Ok && old(variable_names)@.len() <= MAX_VARIABLE + 1 ==> r->Ok_0.valid(),
    {
        Parameter::parse(&chars_of(s), variable_names)
    }

    /// [`Parameter::from_str`], for a word that is at hand as characters.
    pub fn parse(word: &Vec<char>, variable_names: &AddressNames) -> (r: Result<Parameter, Error>)
        requires
            variable_names.wf(),
        ensures
            r == operand_named(variable_names@, word@),
            r is Ok && variable_names@.len() <= MAX_VARIABLE + 1 ==> r->Ok_0.valid(),
    {
        match Register::from_chars(word) {
            Some(r) => Ok(Parameter::Register(r)),
            None => match parse_signed(word) {
                Some(v) => Ok(Parameter::Constant(wrap(v))),
                None => match Variable::lookup(word, variable_names) {
                    Ok(v) => Ok(Parameter::Variable(v)),
                    Err(e) => Err(e),
                },
            },
        }
    }
}

/// The two kinds of program file.
#[derive(Clone, Copy, Debug, PartialEq, Eq, Hash, Structural)]
pub enum Extension {
    /// Text, one instruction to a line.
    CO,
    /// Words of 32 bits, the highest byte first.
    BIN,
}

impl Extension {
    /// The extension as it stands at the end of a file name, without the dot.
    pub open spec fn text(self) -> Seq<char> {
        match self {
            Extension::CO => "co"@,
            Extension::BIN => "bin"@,
        }
    }

    /// The kind of file that a name ends in: what follows the last dot of the
    /// name, or the whole name if it has no dot, is `co` or `bin`.
    pub open spec fn of(filename: Seq<char>) -> Option<Extension> {
        if last_part(filename) == Extension::CO.text() {
            Some(Extension::CO)
        } else if last_part(filename) == Extension::BIN.text() {
            Some(Extension::BIN)
        } else {
            None
        }
    }

    /// The extension as text.
    pub fn to_string(&self) -> (s: String)
        ensures
            s@ == self.text(),
    {
        match self {
            Extension::CO => String::from_str("co"),
            Extension::BIN => String::from_str("bin"),
        }
    }
}

/// What follows the last dot of a text; the whole text if it has no dot.
pub open spec fn last_part(s: Seq<char>) -> Seq<char>
    decreases s.len(),
{
    if s.len() == 0 {
        s
    } else if s.last() == '.' {
        Seq::empty()
    } else {
        last_part(s.drop_last()).push(s.last())
    }
}

} // verus!
