//! Program files: their lines, their sections, and what each line stands for.

use vstd::prelude::*;
use vstd::string::*;
use vstd::utf8::{decode_utf8, valid_utf8};
use crate::bits::{field, get_field, place, put_field};
use crate::enums::{
    extends, last_part, well_formed, AddressNames, Extension, NameKind, MAX_LABEL, MAX_VARIABLE,
};
use crate::error::Error;
use crate::instruction::{lemma_code_is_no_data, lemma_instruction_round_trip, Instruction};
use crate::parse::{
    code_line, data_line, lemma_code_line_is_no_data, lemma_code_line_keeps_wf,
    lemma_data_line_is_data, lemma_data_line_keeps_wf, parse_code, parse_data,
};
use crate::pattern::{match_pattern, pattern_match};
use crate::text::{
    chars_of, is_word, lines, slice_of, split_lines, starts_with, string_of, text_of,
    trim_bounds, trimmed,
};

verus! {

/// The sections of a program, and `NONE` for the lines before the first
/// section marker.
#[derive(Clone, Copy, Debug, PartialEq, Eq, Hash, Structural)]
pub enum LineCategory {
    DATA,
    CODE,
    NONE,
}

impl LineCategory {
    /// The word that opens the section: five bits set, then the number of
    /// the section in two bits, then zeros. `NONE` has no word.
    pub open spec fn marker(self) -> Option<u32> {
        match self {
            LineCategory::DATA => Some(place(0b11111, 27, 5) | place(0b00, 25, 2)),
            LineCategory::CODE => Some(place(0b11111, 27, 5) | place(0b01, 25, 2)),
            LineCategory::NONE => None,
        }
    }

    /// The section that a word opens.
    pub open spec fn of_word(word: u32) -> Result<LineCategory, Error> {
        if field(word, 27, 5) != 0b11111 {
            Err(Error::MalformedBinary)
        } else if field(word, 25, 2) == 0b00 {
            Ok(LineCategory::DATA)
        } else if field(word, 25, 2) == 0b01 {
            Ok(LineCategory::CODE)
        } else {
            Err(Error::MalformedBinary)
        }
    }

    /// The section that a line of text opens.
    pub open spec fn of_text(line: Seq<char>) -> Result<LineCategory, Error> {
        if "#DATA"@.is_prefix_of(line) {
            Ok(LineCategory::DATA)
        } else if "#CODE"@.is_prefix_of(line) {
            Ok(LineCategory::CODE)
        } else {
            Err(Error::SyntaxError)
        }
    }

    /// Encodes the marker of the section.
    pub fn word(&self) -> (r: Option<u32>)
        ensures
            r == self.marker(),
    {
        match self {
            LineCategory::DATA => Some(put_field(0b11111, 27, 5) | put_field(0b00, 25, 2)),
            LineCategory::CODE => Some(put_field(0b11111, 27, 5) | put_field(0b01, 25, 2)),
            LineCategory::NONE => None,
        }
    }
}

/// What the fields of a section marker hold.
proof fn lemma_marker_layout(tag: u32)
    by (bit_vector)
    requires
        tag < 4,
    ensures
        field(place(0b11111, 27, 5) | place(tag, 25, 2), 27, 5) == 0b11111,
        field(place(0b11111, 27, 5) | place(tag, 25, 2), 25, 2) == tag,
{
}

/// The marker of a section is read back as that section.
pub proof fn lemma_marker_round_trip(category: LineCategory)
    requires
        category != LineCategory::NONE,
    ensures
        category.marker() is Some,
        LineCategory::of_word(category.marker()->Some_0) == Ok::<LineCategory, Error>(category),
{
    lemma_marker_layout(0);
    lemma_marker_layout(1);
}

/// The regular expression that tells the declaration of an array from that
/// of a variable: letters and digits, then digits in square brackets.
pub const ARRAY_PATTERN: &'static str = "^[a-zA-Z0-9]+\\[\\d+\\]";

/// One line of a program file: a line of text, or a word of 32 bits.
pub enum LineType {
    String(String),
    Bin(u32),
}

/// What a line holds: the characters of its text, or its word.
pub enum Line {
    Text(Seq<char>),
    Word(u32),
}

impl View for LineType {
    type V = Line;

    open spec fn view(&self) -> Line {
        match self {
            LineType::String(line) => Line::Text(line@),
            LineType::Bin(word) => Line::Word(*word),
        }
    }
}

/// What a line adds to a program: the start of a section, or an instruction.
#[derive(Clone, Copy, Debug, PartialEq, Eq, Hash, Structural)]
pub enum Item {
    Section(LineCategory),
    Line(Instruction),
}

impl Item {
    /// The word that stands for the item in a binary file.
    pub open spec fn encoded(self) -> u32 {
        match self {
            Item::Section(category) => match category.marker() {
                Some(word) => word,
                None => 0,
            },
            Item::Line(instruction) => instruction.encoded(),
        }
    }

    /// Whether the item can be written to a binary file and read back.
    pub open spec fn valid(self) -> bool {
        match self {
            Item::Section(category) => category != LineCategory::NONE,
            Item::Line(instruction) => instruction.valid(),
        }
    }

    /// Encodes the item in one word.
    pub fn encode(&self) -> (word: u32)
        ensures
            word == self.encoded(),
    {
        match self {
            Item::Section(category) => match category.word() {
                Some(word) => word,
                None => 0,
            },
            Item::Line(instruction) => instruction.encode(),
        }
    }
}

impl Line {
    /// Whether the line opens a section: text that starts with `#DATA` or
    /// `#CODE`, or a word whose five highest bits are set.
    pub open spec fn is_marker(self) -> bool {
        match self {
            Line::Text(line) => LineCategory::of_text(line) is Ok,
            Line::Word(word) => field(word, 27, 5) == 0b11111,
        }
    }

    /// The section that the line opens.
    pub open spec fn category(self) -> Result<LineCategory, Error> {
        match self {
            Line::Text(line) => LineCategory::of_text(line),
            Line::Word(word) => LineCategory::of_word(word),
        }
    }

    /// Whether the line holds nothing: text of white space alone, or the word zero.
    pub open spec fn is_blank(self) -> bool {
        match self {
            Line::Text(line) => trimmed(line).len() == 0,
            Line::Word(word) => word == 0,
        }
    }

    /// Whether the line is a remark: text whose first character after the
    /// white space is a semicolon. No word is a remark.
    pub open spec fn is_remark(self) -> bool {
        match self {
            Line::Text(line) => trimmed(line).len() > 0 && trimmed(line)[0] == ';',
            Line::Word(_) => false,
        }
    }

    /// Whether the line declares an array: for a line of text, whether
    /// [`ARRAY_PATTERN`] matches in it once the white space on either side is
    /// left out.
    pub open spec fn array_form(self) -> Option<bool> {
        match self {
            Line::Text(line) => pattern_match(ARRAY_PATTERN@, trimmed(line)),
            Line::Word(_) => None,
        }
    }

    /// What the line stands for in a section, and the tables of variables
    /// and of labels after it. Before the first section marker a line stands
    /// for nothing.
    pub open spec fn translated(
        self,
        category: LineCategory,
        variables: Seq<Seq<char>>,
        labels: Seq<Seq<char>>,
    ) -> Result<(Instruction, Seq<Seq<char>>, Seq<Seq<char>>), Error> {
        match category {
            LineCategory::NONE => Err(Error::MissingSection),
            LineCategory::CODE => match self {
                Line::Text(line) => match code_line(line, variables, labels) {
                    Ok((i, l)) => Ok((i, variables, l)),
                    Err(e) => Err(e),
                },
                Line::Word(word) => match Instruction::decoded_code(word) {
                    Ok(i) => Ok((i, variables, labels)),
                    Err(e) => Err(e),
                },
            },
            LineCategory::DATA => match self {
                Line::Text(line) => match data_line(line, self.array_form(), variables) {
                    Ok((i, v)) => Ok((i, v, labels)),
                    Err(e) => Err(e),
                },
                Line::Word(word) => Ok((Instruction::decoded_data(word), variables, labels)),
            },
        }
    }

    /// What the line adds to a program that is in the given section, and the
    /// two tables after it. An empty line and a remark add nothing; a
    /// section marker starts its section; any other line is translated.
    pub open spec fn item(
        self,
        category: LineCategory,
        variables: Seq<Seq<char>>,
        labels: Seq<Seq<char>>,
    ) -> Result<(Option<Item>, Seq<Seq<char>>, Seq<Seq<char>>), Error> {
        if self.is_blank() || self.is_remark() {
            Ok((None, variables, labels))
        } else if self.is_marker() {
            match self.category() {
                Ok(c) => Ok((Some(Item::Section(c)), variables, labels)),
                Err(e) => Err(e),
            }
        } else {
            match self.translated(category, variables, labels) {
                Ok((i, v, l)) => Ok((Some(Item::Line(i)), v, l)),
                Err(e) => Err(e),
            }
        }
    }
}

/// The section in which the lines after an item stand.
pub open spec fn section_after(category: LineCategory, item: Option<Item>) -> LineCategory {
    match item {
        Some(Item::Section(c)) => c,
        _ => category,
    }
}

impl LineType {
    /// Turns the line into an instruction. A line of text is parsed, and the
    /// names it declares or mentions go into the tables; a word is decoded,
    /// and the tables stay as they were. When the line cannot be read the
    /// tables stay as they were, too.
    pub fn translate(
        &self,
        category: &LineCategory,
        variable_names: &mut AddressNames,
        label_names: &mut AddressNames,
    ) -> (r: Result<Instruction, Error>)
        requires
            old(variable_names).wf(),
            old(variable_names).kind_of() == NameKind::Variable,
            old(label_names).wf(),
            old(label_names).kind_of() == NameKind::Label,
        ensures
            final(variable_names).wf(),
            final(variable_names).kind_of() == NameKind::Variable,
            final(label_names).wf(),
            final(label_names).kind_of() == NameKind::Label,
            match self@.translated(*category, old(variable_names)@, old(label_names)@) {
                Ok((i, v, l)) => r == Ok::<Instruction, Error>(i) && final(variable_names)@ == v
                    && final(label_names)@ == l,
                Err(e) => r == Err::<Instruction, Error>(e) && final(variable_names)@ == old(
                    variable_names,
                )@ && final(label_names)@ == old(label_names)@,
            },
            extends(final(variable_names)@, old(variable_names)@),
            extends(final(label_names)@, old(label_names)@),
            r matches Ok(i) ==> i.is_data() == (*category == LineCategory::DATA),
            r is Ok && final(variable_names)@.len() <= MAX_VARIABLE + 1 && final(label_names)@.len()
                <= MAX_LABEL + 1 ==> r->Ok_0.valid(),
    {
        assert(variable_names@.take(variable_names@.len() as int) =~= variable_names@);
        assert(label_names@.take(label_names@.len() as int) =~= label_names@);
        match category {
            LineCategory::NONE => Err(Error::MissingSection),
            LineCategory::CODE => match self {
                LineType::String(line) => parse_code(
                    &chars_of(line.as_str()),
                    variable_names,
                    label_names,
                ),
                LineType::Bin(word) => Instruction::decode_code(*word),
            },
            LineCategory::DATA => match self {
                LineType::String(line) => {
                    let chars = chars_of(line.as_str());
                    let (a, b) = trim_bounds(&chars);
                    let text = string_of(&chars, a, b);
                    let array_form = match_pattern(ARRAY_PATTERN, text.as_str());
                    parse_data(&chars, array_form, variable_names)
                },
                LineType::Bin(word) => Ok(Instruction::decode_data(*word)),
            },
        }
    }

    /// Reads the line as part of a program that is in the given section: an
    /// empty line and a remark give `None`, a section marker its section,
    /// any other line the instruction that [`LineType::translate`] gives.
    pub fn read_in(
        &self,
        category: &LineCategory,
        variable_names: &mut AddressNames,
        label_names: &mut AddressNames,
    ) -> (r: Result<Option<Item>, Error>)
        requires
            old(variable_names).wf(),
            old(variable_names).kind_of() == NameKind::Variable,
            old(label_names).wf(),
            old(label_names).kind_of() == NameKind::Label,
        ensures
            final(variable_names).wf(),
            final(variable_names).kind_of() == NameKind::Variable,
            final(label_names).wf(),
            final(label_names).kind_of() == NameKind::Label,
            match self@.item(*category, old(variable_names)@, old(label_names)@) {
                Ok((item, v, l)) => r == Ok::<Option<Item>, Error>(item)
                    && final(variable_names)@ == v && final(label_names)@ == l,
                Err(e) => r == Err::<Option<Item>, Error>(e) && final(variable_names)@ == old(
                    variable_names,
                )@ && final(label_names)@ == old(label_names)@,
            },
            extends(final(variable_names)@, old(variable_names)@),
            extends(final(label_names)@, old(label_names)@),
            r matches Ok(Some(Item::Section(c))) ==> c != LineCategory::NONE,
            r matches Ok(Some(Item::Line(i))) ==> *category != LineCategory::NONE && i.is_data()
                == (*category == LineCategory::DATA),
            final(variable_names)@.len() <= MAX_VARIABLE + 1 && final(label_names)@.len()
                <= MAX_LABEL + 1 ==> (r matches Ok(Some(item)) ==> item.valid()),
    {
        assert(variable_names@.take(variable_names@.len() as int) =~= variable_names@);
        assert(label_names@.take(label_names@.len() as int) =~= label_names@);
        if self.is_empty() || self.is_comment() {
            Ok(None)
        } else if self.is_category() {
            let c = self.get_category()?;
            Ok(Some(Item::Section(c)))
        } else {
            let i = self.translate(category, variable_names, label_names)?;
            Ok(Some(Item::Line(i)))
        }
    }

    /// Whether the line opens a section.
    pub fn is_category(&self) -> (b: bool)
        ensures
            b == self@.is_marker(),
    {
        match self {
            LineType::String(line) => {
                let chars = chars_of(line.as_str());
                starts_with(&chars, "#DATA") || starts_with(&chars, "#CODE")
            },
            LineType::Bin(word) => get_field(*word, 27, 5) == 0b11111,
        }
    }

    /// The section that the line opens. A line of text that is no marker is
    /// [`Error::SyntaxError`]; a word that is no marker, or whose section
    /// number is neither 0 nor 1, is [`Error::MalformedBinary`].
    pub fn get_category(&self) -> (r: Result<LineCategory, Error>)
        ensures
            r == self@.category(),
            r is Ok ==> self@.is_marker(),
            r matches Ok(c) ==> c != LineCategory::NONE,
    {
        match self {
            LineType::String(line) => {
                let chars = chars_of(line.as_str());
                if starts_with(&chars, "#DATA") {
                    Ok(LineCategory::DATA)
                } else if starts_with(&chars, "#CODE") {
                    Ok(LineCategory::CODE)
                } else {
                    Err(Error::SyntaxError)
                }
            },
            LineType::Bin(word) => {
                if get_field(*word, 27, 5) != 0b11111 {
                    Err(Error::MalformedBinary)
                } else {
                    let tag = get_field(*word, 25, 2);
                    if tag == 0b00 {
                        Ok(LineCategory::DATA)
                    } else if tag == 0b01 {
                        Ok(LineCategory::CODE)
                    } else {
                        Err(Error::MalformedBinary)
                    }
                }
            },
        }
    }

    /// Whether the line holds nothing: text of white space alone, or the word zero.
    pub fn is_empty(&self) -> (b: bool)
        ensures
            b == self@.is_blank(),
    {
        match self {
            LineType::String(line) => {
                let chars = chars_of(line.as_str());
                let (a, b) = trim_bounds(&chars);
                a == b
            },
            LineType::Bin(word) => *word == 0,
        }
    }

    /// Whether the line is a remark.
    pub fn is_comment(&self) -> (b: bool)
        ensures
            b == self@.is_remark(),
    {
        match self {
            LineType::String(line) => {
                let chars = chars_of(line.as_str());
                let (a, b) = trim_bounds(&chars);
                a < b && chars[a] == ';'
            },
            LineType::Bin(_) => false,
        }
    }
}

/// The views of the lines of a file.
pub open spec fn views(lines: Seq<LineType>) -> Seq<Line> {
    Seq::new(lines.len(), |i: int| lines[i]@)
}

/// What lines add to a program, from the first line to the last, and the two
/// tables after the last line. The first line stands in the given section.
pub open spec fn items_of(
    lines: Seq<Line>,
    category: LineCategory,
    variables: Seq<Seq<char>>,
    labels: Seq<Seq<char>>,
) -> Result<(Seq<Item>, Seq<Seq<char>>, Seq<Seq<char>>), Error>
    decreases lines.len(),
{
    if lines.len() == 0 {
        Ok((Seq::empty(), variables, labels))
    } else {
        match lines[0].item(category, variables, labels) {
            Err(e) => Err(e),
            Ok((item, v, l)) => match items_of(lines.skip(1), section_after(category, item), v, l) {
                Err(e) => Err(e),
                Ok((rest, v, l)) => Ok(
                    (
                        match item {
                            Some(i) => seq![i] + rest,
                            None => rest,
                        },
                        v,
                        l,
                    ),
                ),
            },
        }
    }
}

/// The items of a file whose first lines gave `done` already.
pub open spec fn after(
    done: Seq<Item>,
    rest: Result<(Seq<Item>, Seq<Seq<char>>, Seq<Seq<char>>), Error>,
) -> Result<(Seq<Item>, Seq<Seq<char>>, Seq<Seq<char>>), Error> {
    match rest {
        Ok((items, v, l)) => Ok((done + items, v, l)),
        Err(e) => Err(e),
    }
}

/// Reads the lines of a file from the first to the last, starting before
/// any section. The names that the lines declare and mention go into the two
/// tables. At the first line that cannot be read the tables are put back as
/// they were.
pub fn parse_lines(
    lines: &Vec<LineType>,
    variable_names: &mut AddressNames,
    label_names: &mut AddressNames,
) -> (r: Result<Vec<Item>, Error>)
    requires
        old(variable_names).wf(),
        old(variable_names).kind_of() == NameKind::Variable,
        old(label_names).wf(),
        old(label_names).kind_of() == NameKind::Label,
    ensures
        final(variable_names).wf(),
        final(variable_names).kind_of() == NameKind::Variable,
        final(label_names).wf(),
        final(label_names).kind_of() == NameKind::Label,
        match items_of(
            views(lines@),
            LineCategory::NONE,
            old(variable_names)@,
            old(label_names)@,
        ) {
            Ok((items, v, l)) => r matches Ok(found) && found@ == items && final(variable_names)@
                == v && final(label_names)@ == l,
            Err(e) => r == Err::<Vec<Item>, Error>(e) && final(variable_names)@ == old(
                variable_names,
            )@ && final(label_names)@ == old(label_names)@,
        },
        extends(final(variable_names)@, old(variable_names)@),
        extends(final(label_names)@, old(label_names)@),
        final(variable_names)@.len() <= MAX_VARIABLE + 1 && final(label_names)@.len() <= MAX_LABEL
            + 1 ==> (r matches Ok(found) ==> forall|k: int|
            0 <= k < found@.len() ==> (#[trigger] found@[k]).valid()),
{
    let ghost all = views(lines@);
    let ghost whole = items_of(all, LineCategory::NONE, variable_names@, label_names@);
    let variables_before = variable_names.len();
    let labels_before = label_names.len();
    let mut found: Vec<Item> = Vec::new();
    let mut category = LineCategory::NONE;
    let mut i: usize = 0;
    assert(all.skip(0) =~= all);
    assert(variable_names@.take(variable_names@.len() as int) =~= variable_names@);
    assert(label_names@.take(label_names@.len() as int) =~= label_names@);
    while i < lines.len()
        invariant
            i <= lines.len(),
            all == views(lines@),
            whole == items_of(all, LineCategory::NONE, old(variable_names)@, old(label_names)@),
            variable_names.wf(),
            variable_names.kind_of() == NameKind::Variable,
            label_names.wf(),
            label_names.kind_of() == NameKind::Label,
            variables_before == old(variable_names)@.len(),
            labels_before == old(label_names)@.len(),
            extends(variable_names@, old(variable_names)@),
            extends(label_names@, old(label_names)@),
            whole == after(
                found@,
                items_of(all.skip(i as int), category, variable_names@, label_names@),
            ),
            variable_names@.len() <= MAX_VARIABLE + 1 && label_names@.len() <= MAX_LABEL + 1
                ==> forall|k: int| 0 <= k < found@.len() ==> (#[trigger] found@[k]).valid(),
        decreases lines.len() - i,
    {
        let ghost variables = variable_names@;
        let ghost labels = label_names@;
        proof {
            lemma_items_step(all, i as int, category, variables, labels, found@);
        }
        match lines[i].read_in(&category, variable_names, label_names) {
            Err(e) => {
                variable_names.truncate(variables_before);
                label_names.truncate(labels_before);
                assert(variable_names@.take(variable_names@.len() as int) =~= variable_names@);
                assert(label_names@.take(label_names@.len() as int) =~= label_names@);
                return Err(e);
            },
            Ok(item) => {
                proof {
                    lemma_extends_transitive(variable_names@, variables, old(variable_names)@);
                    lemma_extends_transitive(label_names@, labels, old(label_names)@);
                }
                match item {
                    Some(Item::Section(c)) => {
                        found.push(Item::Section(c));
                        category = c;
                    },
                    Some(Item::Line(instruction)) => {
                        found.push(Item::Line(instruction));
                    },
                    None => {},
                }
            },
        }
        i += 1;
    }
    Ok(found)
}

/// The place of the first line that cannot be read, counted from 0, with the
/// reason; `None` where every line can be read. The first line stands in the
/// given section.
pub open spec fn first_failure(
    lines: Seq<Line>,
    category: LineCategory,
    variables: Seq<Seq<char>>,
    labels: Seq<Seq<char>>,
) -> Option<(nat, Error)>
    decreases lines.len(),
{
    if lines.len() == 0 {
        None
    } else {
        match lines[0].item(category, variables, labels) {
            Err(e) => Some((0, e)),
            Ok((item, v, l)) => match first_failure(
                lines.skip(1),
                section_after(category, item),
                v,
                l,
            ) {
                Some((k, e)) => Some((k + 1, e)),
                None => None,
            },
        }
    }
}

/// The lines of a file cannot be read to the end exactly if one of them
/// cannot be read, and the error is that of the first such line.
pub proof fn lemma_first_failure(
    lines: Seq<Line>,
    category: LineCategory,
    variables: Seq<Seq<char>>,
    labels: Seq<Seq<char>>,
)
    ensures
        match items_of(lines, category, variables, labels) {
            Ok(_) => first_failure(lines, category, variables, labels) is None,
            Err(e) => first_failure(lines, category, variables, labels) matches Some((k, found))
                && found == e && k < lines.len(),
        },
    decreases lines.len(),
{
    if lines.len() > 0 {
        match lines[0].item(category, variables, labels) {
            Err(e) => {},
            Ok((item, v, l)) => {
                lemma_first_failure(lines.skip(1), section_after(category, item), v, l);
            },
        }
    }
}

/// Finds the first line of a file that cannot be read, in a program that
/// holds nothing yet.
pub fn failing_line(lines: &Vec<LineType>) -> (r: Option<(usize, Error)>)
    ensures
        match first_failure(
            views(lines@),
            LineCategory::NONE,
            Seq::<Seq<char>>::empty(),
            Seq::<Seq<char>>::empty(),
        ) {
            Some((k, e)) => r == Some((k as usize, e)) && k < lines@.len(),
            None => r is None,
        },
{
    let ghost all = views(lines@);
    let mut variable_names = AddressNames::new();
    let mut label_names = AddressNames::labels();
    let mut category = LineCategory::NONE;
    let mut i: usize = 0;
    assert(all.skip(0) =~= all);
    proof {
        lemma_first_failure(all, category, variable_names@, label_names@);
    }
    while i < lines.len()
        invariant
            i <= lines.len(),
            all == views(lines@),
            variable_names.wf(),
            variable_names.kind_of() == NameKind::Variable,
            label_names.wf(),
            label_names.kind_of() == NameKind::Label,
            match first_failure(all.skip(i as int), category, variable_names@, label_names@) {
                Some((k, e)) => first_failure(
                    all,
                    LineCategory::NONE,
                    Seq::<Seq<char>>::empty(),
                    Seq::<Seq<char>>::empty(),
                ) == Some(((i + k) as nat, e)) && i + k < lines@.len(),
                None => first_failure(
                    all,
                    LineCategory::NONE,
                    Seq::<Seq<char>>::empty(),
                    Seq::<Seq<char>>::empty(),
                ) is None,
            },
        decreases lines.len() - i,
    {
        assert(all.skip(i as int).skip(1) =~= all.skip(i + 1));
        match lines[i].read_in(&category, &mut variable_names, &mut label_names) {
            Err(e) => {
                return Some((i, e));
            },
            Ok(item) => {
                match item {
                    Some(Item::Section(c)) => {
                        category = c;
                    },
                    _ => {},
                }
            },
        }
        i += 1;
    }
    None
}

/// The items of a file, told by its line `i`: those before it, what line `i`
/// adds, and those after it.
proof fn lemma_items_step(
    all: Seq<Line>,
    i: int,
    category: LineCategory,
    variables: Seq<Seq<char>>,
    labels: Seq<Seq<char>>,
    done: Seq<Item>,
)
    requires
        0 <= i < all.len(),
    ensures
        after(done, items_of(all.skip(i), category, variables, labels)) == (match all[i].item(
            category,
            variables,
            labels,
        ) {
            Err(e) => Err(e),
            Ok((item, v, l)) => after(
                match item {
                    Some(it) => done.push(it),
                    None => done,
                },
                items_of(all.skip(i + 1), section_after(category, item), v, l),
            ),
        }),
{
    let rest = all.skip(i);
    assert(rest.skip(1) =~= all.skip(i + 1));
    match all[i].item(category, variables, labels) {
        Err(e) => {},
        Ok((item, v, l)) => {
            match items_of(all.skip(i + 1), section_after(category, item), v, l) {
                Ok((more, v2, l2)) => {
                    match item {
                        Some(it) => {
                            assert(done + (seq![it] + more) =~= done.push(it) + more);
                        },
                        None => {},
                    }
                },
                Err(e) => {},
            }
        },
    }
}

/// A table that extends one that extends a third extends the third.
pub proof fn lemma_extends_transitive(
    c: Seq<Seq<char>>,
    b: Seq<Seq<char>>,
    a: Seq<Seq<char>>,
)
    requires
        extends(c, b),
        extends(b, a),
    ensures
        extends(c, a),
{
    assert(c.take(a.len() as int) =~= c.take(b.len() as int).take(a.len() as int));
}

/// The last part of a text starts after its last dot.
proof fn lemma_last_part(s: Seq<char>, i: int)
    requires
        0 <= i <= s.len(),
        i > 0 ==> s[i - 1] == '.',
        forall|j: int| i <= j < s.len() ==> s[j] != '.',
    ensures
        last_part(s) == s.subrange(i, s.len() as int),
    decreases s.len() - i,
{
    if i < s.len() {
        lemma_last_part(s.drop_last(), i);
        assert(s.drop_last().subrange(i, s.len() - 1).push(s.last()) =~= s.subrange(
            i,
            s.len() as int,
        ));
    }
}

/// A program file, known by its name; the name tells how to read it.
pub struct CoFile {
    pub filename: String,
    pub extension: Extension,
}

impl CoFile {
    /// The file of a name that ends in `co` or in `bin`. Any other name is
    /// [`Error::InvalidExtension`].
    pub fn new(filename: String) -> (r: Result<CoFile, Error>)
        ensures
            match Extension::of(filename@) {
                Some(e) => r matches Ok(file) && file.filename == filename && file.extension == e,
                None => r == Err::<CoFile, Error>(Error::InvalidExtension),
            },
    {
        let chars = chars_of(filename.as_str());
        let n = chars.len();
        let mut i: usize = n;
        while i > 0 && chars[i - 1] != '.'
            invariant
                i <= n == chars.len(),
                forall|j: int| i <= j < n ==> chars@[j] != '.',
            decreases i,
        {
            i -= 1;
        }
        proof {
            lemma_last_part(chars@, i as int);
        }
        let part = slice_of(&chars, i, n);
        let extension = if is_word(&part, "co") {
            Extension::CO
        } else if is_word(&part, "bin") {
            Extension::BIN
        } else {
            return Err(Error::InvalidExtension);
        };
        Ok(CoFile { filename, extension })
    }

    /// The words of a binary file: each four bytes make a word, the highest
    /// byte first. A file whose length is no multiple of four is
    /// [`Error::MalformedBinary`].
    pub fn read_as_bin(&self, contents: &[u8]) -> (r: Result<Vec<u32>, Error>)
        ensures
            match r {
                Ok(found) => contents@.len() % 4 == 0 && found@ == words_of(contents@),
                Err(e) => contents@.len() % 4 != 0 && e == Error::MalformedBinary,
            },
    {
        let n = contents.len();
        if n % 4 != 0 {
            return Err(Error::MalformedBinary);
        }
        let mut found: Vec<u32> = Vec::new();
        let mut i: usize = 0;
        while i < n
            invariant
                i <= n == contents@.len(),
                n % 4 == 0,
                i % 4 == 0,
                found@.len() == i / 4,
                forall|k: int| 0 <= k < found@.len() ==> found@[k] == #[trigger] words_of(contents@)[k],
            decreases n - i,
        {
            let word = (contents[i] as u32) << 24 | (contents[i + 1] as u32) << 16 | (contents[i
                + 2] as u32) << 8 | (contents[i + 3] as u32);
            found.push(word);
            i += 4;
        }
        Ok(found)
    }

    /// The lines of a text file: what stands between the line breaks,
    /// without the white space on either side.
    pub fn read_as_text(&self, contents: &str) -> (r: Vec<String>)
        ensures
            r@.len() == lines(contents@).len(),
            forall|k: int| 0 <= k < r@.len() ==> (#[trigger] r@[k])@ == trimmed(lines(contents@)[k]),
    {
        split_lines(&chars_of(contents))
    }

    /// The lines of the file with the given contents: lines of text for a
    /// `.co` file, which must be UTF-8, and words for a `.bin` file.
    pub fn read(&self, contents: &[u8]) -> (r: Result<Vec<LineType>, Error>)
        ensures
            match lines_of(self.extension, contents@) {
                Ok(found) => r matches Ok(v) && views(v@) == found,
                Err(e) => r == Err::<Vec<LineType>, Error>(e),
            },
    {
        broadcast use vstd::utf8::encode_utf8_decode_utf8;

        match self.extension {
            Extension::CO => {
                let text = match text_of(contents) {
                    Some(text) => text,
                    None => {
                        return Err(Error::InvalidText);
                    },
                };
                let mut texts = self.read_as_text(text);
                let ghost expected = lines_of(self.extension, contents@)->Ok_0;
                let n = texts.len();
                let mut found: Vec<LineType> = Vec::new();
                let mut i: usize = 0;
                while i < n
                    invariant
                        i <= n == texts@.len(),
                        n == expected.len(),
                        found@.len() == i,
                        forall|k: int| i <= k < n ==> (#[trigger] texts@[k])@ == expected[k]->Text_0,
                        forall|k: int| 0 <= k < n ==> #[trigger] expected[k] is Text,
                        forall|k: int| 0 <= k < i ==> (#[trigger] found@[k])@ == expected[k],
                    decreases n - i,
                {
                    let mut line = String::new();
                    std::mem::swap(&mut line, &mut texts[i]);
                    found.push(LineType::String(line));
                    i += 1;
                }
                Ok(found)
            },
            Extension::BIN => {
                let words = self.read_as_bin(contents)?;
                let ghost expected = lines_of(self.extension, contents@)->Ok_0;
                let n = words.len();
                let mut found: Vec<LineType> = Vec::new();
                let mut i: usize = 0;
                while i < n
                    invariant
                        i <= n == words@.len(),
                        n == expected.len(),
                        found@.len() == i,
                        forall|k: int| 0 <= k < n ==> #[trigger] expected[k] == Line::Word(words@[k]),
                        forall|k: int| 0 <= k < i ==> (#[trigger] found@[k])@ == expected[k],
                    decreases n - i,
                {
                    found.push(LineType::Bin(words[i]));
                    i += 1;
                }
                Ok(found)
            },
        }
    }

    /// Assembles the file with the given contents: one word for each section
    /// marker, declaration and instruction, in the order of the lines, each
    /// word as four bytes with the highest first.
    pub fn export(&self, contents: &[u8]) -> (r: Result<Vec<u8>, Error>)
        ensures
            match exported(self.extension, contents@) {
                Ok(bytes) => r matches Ok(v) && v@ == bytes,
                Err(e) => r == Err::<Vec<u8>, Error>(e),
            },
    {
        let lines = self.read(contents)?;
        let mut variable_names = AddressNames::new();
        let mut label_names = AddressNames::labels();
        let items = parse_lines(&lines, &mut variable_names, &mut label_names)?;
        let n = items.len();
        let ghost words = items@.map_values(|item: Item| item.encoded());
        let mut bytes: Vec<u8> = Vec::new();
        let mut i: usize = 0;
        while i < n
            invariant
                i <= n == items@.len(),
                words == items@.map_values(|item: Item| item.encoded()),
                bytes@.len() == 4 * i,
                forall|k: int| 0 <= k < bytes@.len() ==> bytes@[k] == #[trigger] bytes_of(words)[k],
            decreases n - i,
        {
            let word = items[i].encode();
            bytes.push((word >> 24) as u8);
            bytes.push(((word >> 16) & 0xff) as u8);
            bytes.push(((word >> 8) & 0xff) as u8);
            bytes.push((word & 0xff) as u8);
            i += 1;
        }
        Ok(bytes)
    }
}

/// The word that four bytes make, the highest byte first.
pub open spec fn word_of(b0: u8, b1: u8, b2: u8, b3: u8) -> u32 {
    (b0 as u32) << 24 | (b1 as u32) << 16 | (b2 as u32) << 8 | (b3 as u32)
}

/// One of the four bytes of a word; byte 0 is the highest.
pub open spec fn byte_of(word: u32, k: int) -> u8 {
    if k == 0 {
        (word >> 24) as u8
    } else if k == 1 {
        ((word >> 16) & 0xff) as u8
    } else if k == 2 {
        ((word >> 8) & 0xff) as u8
    } else {
        (word & 0xff) as u8
    }
}

/// The words that bytes make, four bytes to a word. Bytes left over at the
/// end make no word.
pub open spec fn words_of(bytes: Seq<u8>) -> Seq<u32> {
    Seq::new(
        (bytes.len() / 4) as nat,
        |i: int| word_of(bytes[4 * i], bytes[4 * i + 1], bytes[4 * i + 2], bytes[4 * i + 3]),
    )
}

/// The bytes of words, four to a word.
pub open spec fn bytes_of(words: Seq<u32>) -> Seq<u8> {
    Seq::new(4 * words.len(), |i: int| byte_of(words[i / 4], i % 4))
}

/// The lines of a file of the given kind.
pub open spec fn lines_of(extension: Extension, contents: Seq<u8>) -> Result<Seq<Line>, Error> {
    match extension {
        Extension::CO => if valid_utf8(contents) {
            Ok(lines(decode_utf8(contents)).map_values(|line: Seq<char>| Line::Text(trimmed(line))))
        } else {
            Err(Error::InvalidText)
        },
        Extension::BIN => if contents.len() % 4 == 0 {
            Ok(words_of(contents).map_values(|word: u32| Line::Word(word)))
        } else {
            Err(Error::MalformedBinary)
        },
    }
}

/// The items of a file of the given kind that can be read to its end.
pub open spec fn exported_items(extension: Extension, contents: Seq<u8>) -> Seq<Item> {
    match lines_of(extension, contents) {
        Err(_) => Seq::empty(),
        Ok(lines) => match items_of(
            lines,
            LineCategory::NONE,
            Seq::<Seq<char>>::empty(),
            Seq::<Seq<char>>::empty(),
        ) {
            Err(_) => Seq::empty(),
            Ok((items, _, _)) => items,
        },
    }
}

/// The bytes of the binary file that a file of the given kind is assembled to.
pub open spec fn exported(extension: Extension, contents: Seq<u8>) -> Result<Seq<u8>, Error> {
    match lines_of(extension, contents) {
        Err(e) => Err(e),
        Ok(lines) => match items_of(
            lines,
            LineCategory::NONE,
            Seq::<Seq<char>>::empty(),
            Seq::<Seq<char>>::empty(),
        ) {
            Err(e) => Err(e),
            Ok((items, _, _)) => Ok(bytes_of(items.map_values(|item: Item| item.encoded()))),
        },
    }
}

/// A word is made of its four bytes.
proof fn lemma_word_bytes(word: u32)
    by (bit_vector)
    ensures
        word_of(
            (word >> 24) as u8,
            ((word >> 16) & 0xff) as u8,
            ((word >> 8) & 0xff) as u8,
            (word & 0xff) as u8,
        ) == word,
{
}

/// The words of a binary file are read back from their bytes.
pub proof fn lemma_words_round_trip(words: Seq<u32>)
    ensures
        bytes_of(words).len() % 4 == 0,
        words_of(bytes_of(words)) == words,
{
    let bytes = bytes_of(words);
    assert forall|i: int| 0 <= i < words.len() implies #[trigger] words_of(bytes)[i] == words[i] by {
        lemma_word_bytes(words[i]);
    }
}

/// Whether a binary file can hold an item so that the item is read back
/// from it: every part of the item fits its field, the word of the item is
/// not the word zero, which stands for an empty line, and the word of a
/// declaration does not start like a section marker.
pub open spec fn readable(item: Item) -> bool {
    &&& item.valid()
    &&& item.encoded() != 0
    &&& item is Line ==> !Line::Word(item.encoded()).is_marker()
}

/// Whether every instruction among the items stands in a section, a
/// declaration in the data section and any other in the code section, where
/// the first item stands in the given section.
pub open spec fn in_sections(items: Seq<Item>, category: LineCategory) -> bool
    decreases items.len(),
{
    items.len() == 0 || match items[0] {
        Item::Section(c) => in_sections(items.skip(1), c),
        Item::Line(i) => category != LineCategory::NONE && i.is_data() == (category
            == LineCategory::DATA) && in_sections(items.skip(1), category),
    }
}

/// The lines of the binary file that holds the items.
pub open spec fn word_lines(items: Seq<Item>) -> Seq<Line> {
    Seq::new(items.len(), |k: int| Line::Word(items[k].encoded()))
}

/// The lines of the binary file that holds items are read back as those
/// items, and leave the symbol tables as they are, whenever every item is
/// one that a binary file can hold and every instruction stands in its
/// section.
pub proof fn lemma_items_read_back(
    items: Seq<Item>,
    category: LineCategory,
    variables: Seq<Seq<char>>,
    labels: Seq<Seq<char>>,
)
    requires
        forall|k: int| 0 <= k < items.len() ==> readable(#[trigger] items[k]),
        in_sections(items, category),
    ensures
        items_of(word_lines(items), category, variables, labels) == Ok::<
            (Seq<Item>, Seq<Seq<char>>, Seq<Seq<char>>),
            Error,
        >((items, variables, labels)),
    decreases items.len(),
{
    let lines = word_lines(items);
    if items.len() == 0 {
        assert(items =~= Seq::<Item>::empty());
    } else {
        let rest = items.skip(1);
        assert(lines.skip(1) =~= word_lines(rest));
        match items[0] {
            Item::Section(c) => {
                lemma_marker_round_trip(c);
                lemma_marker_layout(0);
                lemma_marker_layout(1);
                lemma_items_read_back(rest, c, variables, labels);
            },
            Item::Line(i) => {
                lemma_instruction_round_trip(i);
                lemma_items_read_back(rest, category, variables, labels);
            },
        }
        assert(seq![items[0]] + rest =~= items);
    }
}

/// A binary file that holds items which it can hold, each instruction in
/// its section, is assembled to itself.
pub proof fn lemma_binary_export(items: Seq<Item>)
    requires
        forall|k: int| 0 <= k < items.len() ==> readable(#[trigger] items[k]),
        in_sections(items, LineCategory::NONE),
    ensures
        ({
            let file = bytes_of(items.map_values(|item: Item| item.encoded()));
            exported(Extension::BIN, file) == Ok::<Seq<u8>, Error>(file)
        }),
{
    let words = items.map_values(|item: Item| item.encoded());
    let file = bytes_of(words);
    lemma_words_round_trip(words);
    assert(words_of(file).map_values(|word: u32| Line::Word(word)) =~= word_lines(items));
    lemma_items_read_back(
        items,
        LineCategory::NONE,
        Seq::<Seq<char>>::empty(),
        Seq::<Seq<char>>::empty(),
    );
}

/// A line is translated in a section only, to a declaration in the data
/// section and to another instruction in the code section.
pub proof fn lemma_translated_in_section(
    line: Line,
    category: LineCategory,
    variables: Seq<Seq<char>>,
    labels: Seq<Seq<char>>,
)
    ensures
        line.translated(category, variables, labels) matches Ok((i, _, _)) ==> category
            != LineCategory::NONE && i.is_data() == (category == LineCategory::DATA),
{
    match line {
        Line::Text(text) => {
            lemma_code_line_is_no_data(text, variables, labels);
            lemma_data_line_is_data(text, line.array_form(), variables);
        },
        Line::Word(word) => {
            lemma_code_is_no_data(word);
        },
    }
}

/// Every instruction that the lines of a file give stands in a section, a
/// declaration in the data section and any other in the code section.
pub proof fn lemma_items_in_sections(
    lines: Seq<Line>,
    category: LineCategory,
    variables: Seq<Seq<char>>,
    labels: Seq<Seq<char>>,
)
    ensures
        items_of(lines, category, variables, labels) matches Ok((items, _, _)) ==> in_sections(
            items,
            category,
        ),
    decreases lines.len(),
{
    if lines.len() > 0 {
        match lines[0].item(category, variables, labels) {
            Err(_) => {},
            Ok((item, v, l)) => {
                lemma_translated_in_section(lines[0], category, variables, labels);
                lemma_items_in_sections(lines.skip(1), section_after(category, item), v, l);
                match items_of(lines.skip(1), section_after(category, item), v, l) {
                    Ok((rest, _, _)) => {
                        match item {
                            Some(it) => {
                                assert((seq![it] + rest).skip(1) =~= rest);
                            },
                            None => {},
                        }
                    },
                    Err(_) => {},
                }
            },
        }
    }
}

/// The binary file that a file is assembled to holds the same items as
/// that file, whenever each of them is one that a binary file can hold: read
/// into empty symbol tables, it gives the items back and leaves the tables
/// empty.
pub proof fn lemma_export_reads_back(extension: Extension, contents: Seq<u8>)
    requires
        exported(extension, contents) is Ok,
        forall|k: int|
            0 <= k < exported_items(extension, contents).len() ==> readable(
                #[trigger] exported_items(extension, contents)[k],
            ),
    ensures
        lines_of(Extension::BIN, exported(extension, contents)->Ok_0) matches Ok(lines)
            && items_of(
            lines,
            LineCategory::NONE,
            Seq::<Seq<char>>::empty(),
            Seq::<Seq<char>>::empty(),
        ) == Ok::<(Seq<Item>, Seq<Seq<char>>, Seq<Seq<char>>), Error>(
            (exported_items(extension, contents), Seq::empty(), Seq::empty()),
        ),
{
    let none = Seq::<Seq<char>>::empty();
    let items = exported_items(extension, contents);
    let words = items.map_values(|item: Item| item.encoded());
    let file = bytes_of(words);
    lemma_items_in_sections(lines_of(extension, contents)->Ok_0, LineCategory::NONE, none, none);
    lemma_words_round_trip(words);
    assert(words_of(file).map_values(|word: u32| Line::Word(word)) =~= word_lines(items));
    lemma_items_read_back(items, LineCategory::NONE, none, none);
}

/// The lines of a file leave both symbol tables as their kinds ask: no name
/// twice, no more names than the kind allows, only names fit for variables
/// among the variables; and they leave every name that was in a table at its
/// position.
pub proof fn lemma_lines_keep_wf(
    lines: Seq<Line>,
    category: LineCategory,
    variables: Seq<Seq<char>>,
    labels: Seq<Seq<char>>,
)
    requires
        well_formed(NameKind::Variable, variables),
        well_formed(NameKind::Label, labels),
    ensures
        items_of(lines, category, variables, labels) matches Ok((_, v, l)) ==> well_formed(
            NameKind::Variable,
            v,
        ) && well_formed(NameKind::Label, l) && extends(v, variables) && extends(l, labels),
    decreases lines.len(),
{
    assert(variables.take(variables.len() as int) =~= variables);
    assert(labels.take(labels.len() as int) =~= labels);
    if lines.len() > 0 {
        match lines[0].item(category, variables, labels) {
            Err(_) => {},
            Ok((item, v, l)) => {
                match lines[0] {
                    Line::Text(text) => {
                        lemma_code_line_keeps_wf(text, variables, labels);
                        lemma_data_line_keeps_wf(text, lines[0].array_form(), variables);
                    },
                    Line::Word(_) => {},
                }
                lemma_lines_keep_wf(lines.skip(1), section_after(category, item), v, l);
                match items_of(lines.skip(1), section_after(category, item), v, l) {
                    Ok((_, v2, l2)) => {
                        lemma_extends_transitive(v2, v, variables);
                        lemma_extends_transitive(l2, l, labels);
                    },
                    Err(_) => {},
                }
            },
        }
    }
}

/// A file gives one item for each line at most.
pub proof fn lemma_items_count(
    lines: Seq<Line>,
    category: LineCategory,
    variables: Seq<Seq<char>>,
    labels: Seq<Seq<char>>,
)
    ensures
        items_of(lines, category, variables, labels) matches Ok((items, _, _)) ==> items.len()
            <= lines.len(),
    decreases lines.len(),
{
    if lines.len() > 0 {
        match lines[0].item(category, variables, labels) {
            Err(_) => {},
            Ok((item, v, l)) => {
                lemma_items_count(lines.skip(1), section_after(category, item), v, l);
            },
        }
    }
}

} // verus!
