//! Text as a sequence of characters: white space, words, numbers and lines.

use vstd::prelude::*;
use vstd::string::*;
use vstd::utf8::valid_utf8;

verus! {

/// White space: the characters with the property White_Space of Unicode.
/// They are the tab, the line feed, the vertical tab, the form feed and the
/// carriage return (U+0009 to U+000D), the blank (U+0020), the next line
/// (U+0085), the no-break space (U+00A0), the ogham space mark (U+1680), the
/// spaces of fixed width (U+2000 to U+200A), the line and the paragraph
/// separator (U+2028, U+2029), the narrow no-break space (U+202F), the
/// medium mathematical space (U+205F) and the ideographic space (U+3000).
pub open spec fn is_space(c: char) -> bool {
    ||| '\u{9}' <= c <= '\u{d}'
    ||| c == '\u{20}'
    ||| c == '\u{85}'
    ||| c == '\u{a0}'
    ||| c == '\u{1680}'
    ||| '\u{2000}' <= c <= '\u{200a}'
    ||| c == '\u{2028}'
    ||| c == '\u{2029}'
    ||| c == '\u{202f}'
    ||| c == '\u{205f}'
    ||| c == '\u{3000}'
}

/// The text without any `c`.
pub open spec fn without(s: Seq<char>, c: char) -> Seq<char>
    decreases s.len(),
{
    if s.len() == 0 {
        s
    } else if s.last() == c {
        without(s.drop_last(), c)
    } else {
        without(s.drop_last(), c).push(s.last())
    }
}

/// A decimal digit.
pub open spec fn is_digit(c: char) -> bool {
    '0' <= c <= '9'
}

/// The text without the white space at its start.
pub open spec fn trim_start(s: Seq<char>) -> Seq<char>
    decreases s.len(),
{
    if s.len() > 0 && is_space(s[0]) {
        trim_start(s.skip(1))
    } else {
        s
    }
}

/// The text without the white space at its end.
pub open spec fn trim_end(s: Seq<char>) -> Seq<char>
    decreases s.len(),
{
    if s.len() > 0 && is_space(s.last()) {
        trim_end(s.drop_last())
    } else {
        s
    }
}

/// The text without the white space at its start and at its end.
pub open spec fn trimmed(s: Seq<char>) -> Seq<char> {
    trim_end(trim_start(s))
}

/// The number of characters before the first white space.
pub open spec fn word_len(s: Seq<char>) -> nat
    decreases s.len(),
{
    if s.len() > 0 && !is_space(s[0]) {
        1 + word_len(s.skip(1))
    } else {
        0
    }
}

/// The words of the text: its longest runs of characters other than white space.
pub open spec fn tokens(s: Seq<char>) -> Seq<Seq<char>>
    decreases s.len(),
{
    if s.len() == 0 {
        Seq::empty()
    } else if is_space(s[0]) {
        tokens(s.skip(1))
    } else {
        proof {
            lemma_word_len_bound(s);
        }
        seq![s.take(word_len(s) as int)] + tokens(s.skip(word_len(s) as int))
    }
}

/// The texts that vectors of characters hold.
pub open spec fn words(t: Seq<Vec<char>>) -> Seq<Seq<char>> {
    Seq::new(t.len(), |i: int| t[i]@)
}

/// The number of characters before the first `c`; the length of the text
/// if `c` is not in it.
pub open spec fn span(s: Seq<char>, c: char) -> nat
    decreases s.len(),
{
    if s.len() > 0 && s[0] != c {
        1 + span(s.skip(1), c)
    } else {
        0
    }
}

/// The number of characters before the first line break.
pub open spec fn line_len(s: Seq<char>) -> nat {
    span(s, '\n')
}

/// The lines of the text: what stands between its line breaks. A text with
/// `n` line breaks has `n + 1` lines, of which any may be empty.
pub open spec fn lines(s: Seq<char>) -> Seq<Seq<char>>
    decreases s.len(),
{
    if line_len(s) >= s.len() {
        seq![s]
    } else {
        proof {
            lemma_span_bound(s, '\n');
        }
        seq![s.take(line_len(s) as int)] + lines(s.skip(line_len(s) as int + 1))
    }
}

/// The number that a run of decimal digits stands for.
pub open spec fn digits_value(s: Seq<char>) -> nat
    decreases s.len(),
{
    if s.len() == 0 {
        0
    } else {
        (10 * digits_value(s.drop_last()) + (s.last() as int - '0' as int)) as nat
    }
}

/// Whether the text is made of decimal digits, and of one at least.
pub open spec fn is_number(s: Seq<char>) -> bool {
    s.len() > 0 && forall|i: int| 0 <= i < s.len() ==> is_digit(#[trigger] s[i])
}

/// The integer that the text stands for: an optional sign, then decimal
/// digits and nothing else.
pub open spec fn integer(s: Seq<char>) -> Option<int> {
    if s.len() > 0 && s[0] == '-' {
        if is_number(s.skip(1)) {
            Some(-(digits_value(s.skip(1)) as int))
        } else {
            None
        }
    } else if s.len() > 0 && s[0] == '+' {
        if is_number(s.skip(1)) {
            Some(digits_value(s.skip(1)) as int)
        } else {
            None
        }
    } else if is_number(s) {
        Some(digits_value(s) as int)
    } else {
        None
    }
}

/// The integer that the text stands for, if it is one that 32 bits can hold
/// with a sign.
pub open spec fn signed_32(s: Seq<char>) -> Option<int> {
    match integer(s) {
        Some(v) => if -0x8000_0000 <= v <= 0x7fff_ffff {
            Some(v)
        } else {
            None
        },
        None => None,
    }
}

/// The integer that the text stands for, if the text has no minus sign and
/// 16 bits can hold the integer.
pub open spec fn unsigned_16(s: Seq<char>) -> Option<int> {
    match integer(s) {
        Some(v) => if s[0] != '-' && v <= 0xffff {
            Some(v)
        } else {
            None
        },
        None => None,
    }
}

/// The integer reduced to ten bits, a negative one counted down from 1024.
pub open spec fn wrap_10(v: int) -> u32 {
    (v % 1024) as u32
}

/// The character of a decimal digit.
pub open spec fn digit_char(d: nat) -> char {
    if d == 0 {
        '0'
    } else if d == 1 {
        '1'
    } else if d == 2 {
        '2'
    } else if d == 3 {
        '3'
    } else if d == 4 {
        '4'
    } else if d == 5 {
        '5'
    } else if d == 6 {
        '6'
    } else if d == 7 {
        '7'
    } else if d == 8 {
        '8'
    } else {
        '9'
    }
}

/// The number written in decimal digits, without leading zeros.
pub open spec fn decimal(n: nat) -> Seq<char>
    decreases n,
{
    if n < 10 {
        seq![digit_char(n)]
    } else {
        decimal(n / 10).push(digit_char(n % 10))
    }
}

/// Whether a character is white space.
pub fn space(c: char) -> (b: bool)
    ensures
        b == is_space(c),
{
    ('\u{9}' <= c && c <= '\u{d}') || c == '\u{20}' || c == '\u{85}' || c == '\u{a0}' || c
        == '\u{1680}' || ('\u{2000}' <= c && c <= '\u{200a}') || c == '\u{2028}' || c
        == '\u{2029}' || c == '\u{202f}' || c == '\u{205f}' || c == '\u{3000}'
}

/// A copy of the characters from `from` up to `to`, without any `c`.
pub fn slice_without(v: &Vec<char>, from: usize, to: usize, c: char) -> (r: Vec<char>)
    requires
        from <= to <= v.len(),
    ensures
        r@ == without(v@.subrange(from as int, to as int), c),
{
    let mut r: Vec<char> = Vec::new();
    let mut i: usize = from;
    while i < to
        invariant
            from <= i <= to <= v.len(),
            r@ == without(v@.subrange(from as int, i as int), c),
        decreases to - i,
    {
        assert(v@.subrange(from as int, i + 1).drop_last() =~= v@.subrange(
            from as int,
            i as int,
        ));
        if v[i] != c {
            r.push(v[i]);
        }
        i += 1;
    }
    r
}

/// The characters of a string.
pub fn chars_of(s: &str) -> (v: Vec<char>)
    ensures
        v@ == s@,
{
    broadcast use vstd::string::group_string_axioms;

    let mut v: Vec<char> = Vec::new();
    for c in it: s.chars()
        invariant
            it.seq() == s@,
            v@ == s@.subrange(0, it.index() as int),
    {
        v.push(c);
    }
    v
}

/// Reads bytes as text with `std::str::from_utf8`, which accepts the bytes
/// if and only if they are UTF-8, and then hands the same bytes back as text.
#[verifier::external_body]
pub(crate) fn text_of(bytes: &[u8]) -> (r: Option<&str>)
    ensures
        r is Some <==> valid_utf8(bytes@),
        r matches Some(s) ==> s.spec_bytes() == bytes@,
{
    std::str::from_utf8(bytes).ok()
}

/// Appends one character to a string: `String::push` of the standard
/// library, which adds the character at the end and leaves the rest as it was.
pub assume_specification[ std::string::String::push ](s: &mut std::string::String, c: char)
    ensures
        final(s)@ == old(s)@.push(c),
;

/// The string made of the characters from `from` up to `to`.
pub fn string_of(v: &Vec<char>, from: usize, to: usize) -> (s: String)
    requires
        from <= to <= v.len(),
    ensures
        s@ == v@.subrange(from as int, to as int),
{
    let mut s = String::new();
    let mut i: usize = from;
    while i < to
        invariant
            from <= i <= to <= v.len(),
            s@ == v@.subrange(from as int, i as int),
        decreases to - i,
    {
        s.push(v[i]);
        i += 1;
    }
    s
}

/// A copy of the characters from `from` up to `to`.
pub fn slice_of(v: &Vec<char>, from: usize, to: usize) -> (r: Vec<char>)
    requires
        from <= to <= v.len(),
    ensures
        r@ == v@.subrange(from as int, to as int),
{
    let mut r: Vec<char> = Vec::new();
    let mut i: usize = from;
    while i < to
        invariant
            from <= i <= to <= v.len(),
            r@ == v@.subrange(from as int, i as int),
        decreases to - i,
    {
        r.push(v[i]);
        i += 1;
    }
    r
}

/// Whether two texts hold the same characters.
pub fn same_text(a: &Vec<char>, b: &Vec<char>) -> (r: bool)
    ensures
        r == (a@ == b@),
{
    if a.len() != b.len() {
        return false;
    }
    let mut i: usize = 0;
    while i < a.len()
        invariant
            i <= a.len(),
            a.len() == b.len(),
            forall|j: int| 0 <= j < i ==> a@[j] == b@[j],
        decreases a.len() - i,
    {
        if a[i] != b[i] {
            return false;
        }
        i += 1;
    }
    assert(a@ =~= b@);
    true
}

/// Whether the text is the given word.
pub fn is_word(v: &Vec<char>, word: &str) -> (r: bool)
    ensures
        r == (v@ == word@),
{
    let n = word.unicode_len();
    if v.len() != n {
        return false;
    }
    let mut i: usize = 0;
    while i < n
        invariant
            i <= n == v.len(),
            n == word@.len(),
            forall|j: int| 0 <= j < i ==> v@[j] == word@[j],
        decreases n - i,
    {
        if v[i] != word.get_char(i) {
            return false;
        }
        i += 1;
    }
    assert(v@ =~= word@);
    true
}

/// Whether the text starts with the given word.
pub fn starts_with(v: &Vec<char>, word: &str) -> (r: bool)
    ensures
        r == word@.is_prefix_of(v@),
{
    let n = word.unicode_len();
    if v.len() < n {
        return false;
    }
    let mut i: usize = 0;
    while i < n
        invariant
            i <= n <= v.len(),
            n == word@.len(),
            forall|j: int| 0 <= j < i ==> v@[j] == word@[j],
        decreases n - i,
    {
        if v[i] != word.get_char(i) {
            return false;
        }
        i += 1;
    }
    true
}

proof fn lemma_trim_start_step(s: Seq<char>, i: int)
    requires
        0 <= i < s.len(),
        is_space(s[i]),
    ensures
        trim_start(s.skip(i)) == trim_start(s.skip(i + 1)),
{
    assert(s.skip(i).skip(1) =~= s.skip(i + 1));
}

proof fn lemma_trim_end_step(s: Seq<char>, j: int)
    requires
        0 < j <= s.len(),
        is_space(s[j - 1]),
    ensures
        trim_end(s.take(j)) == trim_end(s.take(j - 1)),
{
    assert(s.take(j).drop_last() =~= s.take(j - 1));
}

/// Where the text stands once the white space on either side is left out.
pub fn trim_bounds(v: &Vec<char>) -> (r: (usize, usize))
    ensures
        r.0 <= r.1 <= v.len(),
        trimmed(v@) == v@.subrange(r.0 as int, r.1 as int),
{
    let n = v.len();
    let mut a: usize = 0;
    assert(v@.skip(0) =~= v@);
    while a < n && space(v[a])
        invariant
            a <= n == v.len(),
            trim_start(v@) == trim_start(v@.skip(a as int)),
        decreases n - a,
    {
        proof {
            lemma_trim_start_step(v@, a as int);
        }
        a += 1;
    }
    let ghost rest = v@.skip(a as int);
    let mut b: usize = n;
    assert(rest.take(rest.len() as int) =~= rest);
    while b > a && space(v[b - 1])
        invariant
            a <= b <= n == v.len(),
            rest == v@.skip(a as int),
            trim_end(rest) == trim_end(rest.take(b - a)),
        decreases b,
    {
        proof {
            lemma_trim_end_step(rest, b - a);
        }
        b -= 1;
    }
    (a, b)
}

/// A span ends at the first `c`, or with the text.
pub proof fn lemma_span_bound(s: Seq<char>, c: char)
    ensures
        span(s, c) <= s.len(),
        span(s, c) < s.len() ==> s[span(s, c) as int] == c,
        forall|i: int| 0 <= i < span(s, c) ==> #[trigger] s[i] != c,
    decreases s.len(),
{
    if s.len() > 0 && s[0] != c {
        lemma_span_bound(s.skip(1), c);
        assert forall|i: int| 0 <= i < span(s, c) implies #[trigger] s[i] != c by {
            if i > 0 {
                assert(s[i] == s.skip(1)[i - 1]);
            }
        }
    }
}

/// A word ends at the first white space, or with the text.
pub proof fn lemma_word_len_bound(s: Seq<char>)
    ensures
        word_len(s) <= s.len(),
        word_len(s) < s.len() ==> is_space(s[word_len(s) as int]),
        forall|i: int| 0 <= i < word_len(s) ==> !is_space(#[trigger] s[i]),
    decreases s.len(),
{
    if s.len() > 0 && !is_space(s[0]) {
        lemma_word_len_bound(s.skip(1));
        assert forall|i: int| 0 <= i < word_len(s) implies !is_space(#[trigger] s[i]) by {
            if i > 0 {
                assert(s[i] == s.skip(1)[i - 1]);
            }
        }
    }
}

proof fn lemma_word_len_step(s: Seq<char>, j: int)
    requires
        0 <= j < s.len(),
        !is_space(s[j]),
    ensures
        word_len(s.skip(j)) == 1 + word_len(s.skip(j + 1)),
{
    assert(s.skip(j).skip(1) =~= s.skip(j + 1));
}

/// The words of a text, each as a text of its own.
pub fn tokenize(v: &Vec<char>) -> (out: Vec<Vec<char>>)
    ensures
        words(out@) == tokens(v@),
{
    let n = v.len();
    let mut out: Vec<Vec<char>> = Vec::new();
    let ghost mut done: Seq<Seq<char>> = Seq::empty();
    let mut i: usize = 0;
    assert(v@.skip(0) =~= v@);
    while i < n
        invariant
            i <= n == v.len(),
            tokens(v@) == done + tokens(v@.skip(i as int)),
            out@.len() == done.len(),
            forall|k: int| 0 <= k < out@.len() ==> (#[trigger] out@[k])@ == done[k],
        decreases n - i,
    {
        if space(v[i]) {
            assert(v@.skip(i as int).skip(1) =~= v@.skip(i + 1));
            i += 1;
        } else {
            let mut j: usize = i;
            while j < n && !space(v[j])
                invariant
                    i <= j <= n == v.len(),
                    word_len(v@.skip(i as int)) == (j - i) + word_len(v@.skip(j as int)),
                decreases n - j,
            {
                proof {
                    lemma_word_len_step(v@, j as int);
                }
                j += 1;
            }
            let word = slice_of(v, i, j);
            proof {
                let rest = v@.skip(i as int);
                assert(rest.take(j - i) =~= v@.subrange(i as int, j as int));
                assert(rest.skip(j - i) =~= v@.skip(j as int));
                assert(done + (seq![word@] + tokens(v@.skip(j as int))) =~= done.push(word@)
                    + tokens(v@.skip(j as int)));
                done = done.push(word@);
            }
            out.push(word);
            i = j;
        }
    }
    out
}

/// A run of digits stands for at least as much as any of its beginnings.
proof fn lemma_digits_prefix(s: Seq<char>, k: int)
    requires
        0 <= k <= s.len(),
        forall|i: int| 0 <= i < s.len() ==> is_digit(#[trigger] s[i]),
    ensures
        digits_value(s.take(k)) <= digits_value(s),
    decreases s.len() - k,
{
    if k == s.len() {
        assert(s.take(k) =~= s);
    } else {
        assert(s.drop_last().take(k) =~= s.take(k));
        lemma_digits_prefix(s.drop_last(), k);
    }
}

/// The number that the digits from `from` on stand for, unless it is above
/// `0xffff_ffff` or something other than digits stands there.
fn magnitude(v: &Vec<char>, from: usize) -> (r: Option<u64>)
    requires
        from <= v.len(),
    ensures
        match r {
            Some(m) => is_number(v@.skip(from as int)) && m == digits_value(v@.skip(from as int))
                && m <= 0xffff_ffff,
            None => !is_number(v@.skip(from as int)) || digits_value(v@.skip(from as int))
                > 0xffff_ffff,
        },
{
    let n = v.len();
    let ghost body = v@.skip(from as int);
    if from == n {
        return None;
    }
    let mut acc: u64 = 0;
    let mut i: usize = from;
    while i < n
        invariant
            from <= i <= n == v.len(),
            body == v@.skip(from as int),
            acc == digits_value(body.take(i - from)),
            acc <= 0xffff_ffff,
            forall|j: int| 0 <= j < i - from ==> is_digit(#[trigger] body[j]),
        decreases n - i,
    {
        let c = v[i];
        if !('0' <= c && c <= '9') {
            assert(!is_digit(body[i - from]));
            return None;
        }
        let d: u64 = (c as u32 - '0' as u32) as u64;
        assert(body.take(i - from + 1).drop_last() =~= body.take(i - from));
        let next: u64 = acc * 10 + d;
        if next > 0xffff_ffff {
            proof {
                if is_number(body) {
                    lemma_digits_prefix(body, i - from + 1);
                }
            }
            return None;
        }
        acc = next;
        i += 1;
    }
    assert(body.take(n - from) =~= body);
    Some(acc)
}

/// Reads a decimal integer with an optional sign that 32 bits can hold with a sign.
pub fn parse_signed(v: &Vec<char>) -> (r: Option<i32>)
    ensures
        match r {
            Some(x) => signed_32(v@) == Some(x as int),
            None => signed_32(v@) is None,
        },
{
    if v.len() > 0 && v[0] == '-' {
        match magnitude(v, 1) {
            Some(m) => if m <= 0x8000_0000 {
                Some((-(m as i64)) as i32)
            } else {
                None
            },
            None => None,
        }
    } else {
        let from: usize = if v.len() > 0 && v[0] == '+' {
            1
        } else {
            0
        };
        assert(v@.skip(0) =~= v@);
        match magnitude(v, from) {
            Some(m) => if m <= 0x7fff_ffff {
                Some(m as i32)
            } else {
                None
            },
            None => None,
        }
    }
}

/// Reads a decimal integer without a minus sign that 16 bits can hold.
pub fn parse_unsigned(v: &Vec<char>) -> (r: Option<u16>)
    ensures
        match r {
            Some(x) => unsigned_16(v@) == Some(x as int),
            None => unsigned_16(v@) is None,
        },
{
    if v.len() > 0 && v[0] == '-' {
        return None;
    }
    let from: usize = if v.len() > 0 && v[0] == '+' {
        1
    } else {
        0
    };
    assert(v@.skip(0) =~= v@);
    match magnitude(v, from) {
        Some(m) => if m <= 0xffff {
            Some(m as u16)
        } else {
            None
        },
        None => None,
    }
}

/// The number that a line of input stands for: decimal digits with an
/// optional plus sign, white space on either side left out, that 32 bits can
/// hold.
pub open spec fn input_number(line: Seq<char>) -> Option<u32> {
    match integer(trimmed(line)) {
        Some(v) => if trimmed(line)[0] != '-' && v <= 0xffff_ffff {
            Some(v as u32)
        } else {
            None
        },
        None => None,
    }
}

/// Reads the number on a line of input.
pub fn read_input(line: &str) -> (r: Option<u32>)
    ensures
        r == input_number(line@),
{
    let chars = chars_of(line);
    let (a, b) = trim_bounds(&chars);
    let text = slice_of(&chars, a, b);
    if text.len() > 0 && text[0] == '-' {
        return None;
    }
    let from: usize = if text.len() > 0 && text[0] == '+' {
        1
    } else {
        0
    };
    assert(text@.skip(0) =~= text@);
    match magnitude(&text, from) {
        Some(m) => Some(m as u32),
        None => None,
    }
}

/// Reduces an integer to ten bits.
pub fn wrap(x: i32) -> (r: u32)
    ensures
        r == wrap_10(x as int),
        r <= 1023,
{
    if x >= 0 {
        (x as u32) % 1024
    } else {
        let m: u32 = ((-(x as i64)) as u64 % 1024) as u32;
        if m == 0 {
            0
        } else {
            1024 - m
        }
    }
}

/// Writes a number in decimal digits.
pub fn decimal_chars(n: u16) -> (v: Vec<char>)
    ensures
        v@ == decimal(n as nat),
    decreases n,
{
    let d: u16 = n % 10;
    let c: char = if d == 0 {
        '0'
    } else if d == 1 {
        '1'
    } else if d == 2 {
        '2'
    } else if d == 3 {
        '3'
    } else if d == 4 {
        '4'
    } else if d == 5 {
        '5'
    } else if d == 6 {
        '6'
    } else if d == 7 {
        '7'
    } else if d == 8 {
        '8'
    } else {
        '9'
    };
    if n < 10 {
        let mut v: Vec<char> = Vec::new();
        v.push(c);
        v
    } else {
        let mut v = decimal_chars(n / 10);
        v.push(c);
        v
    }
}

proof fn lemma_span_step(s: Seq<char>, j: int, c: char)
    requires
        0 <= j < s.len(),
        s[j] != c,
    ensures
        span(s.skip(j), c) == 1 + span(s.skip(j + 1), c),
{
    assert(s.skip(j).skip(1) =~= s.skip(j + 1));
}

/// The position of the first `c` at or after `from`; the length of the text
/// if there is none.
pub fn find(v: &Vec<char>, from: usize, c: char) -> (j: usize)
    requires
        from <= v.len(),
    ensures
        from <= j <= v.len(),
        j - from == span(v@.skip(from as int), c),
{
    let n = v.len();
    let mut j: usize = from;
    while j < n && v[j] != c
        invariant
            from <= j <= n == v.len(),
            span(v@.skip(from as int), c) == (j - from) + span(v@.skip(j as int), c),
        decreases n - j,
    {
        proof {
            lemma_span_step(v@, j as int, c);
        }
        j += 1;
    }
    j
}

/// The lines of a text, each without the white space on either side.
pub fn split_lines(v: &Vec<char>) -> (out: Vec<String>)
    ensures
        out@.len() == lines(v@).len(),
        forall|k: int| 0 <= k < out@.len() ==> (#[trigger] out@[k])@ == trimmed(lines(v@)[k]),
{
    let n = v.len();
    let mut out: Vec<String> = Vec::new();
    let ghost mut done: Seq<Seq<char>> = Seq::empty();
    let mut i: usize = 0;
    assert(v@.skip(0) =~= v@);
    loop
        invariant_except_break
            i <= n == v.len(),
            lines(v@) == done + lines(v@.skip(i as int)),
            out@.len() == done.len(),
            forall|k: int| 0 <= k < out@.len() ==> (#[trigger] out@[k])@ == trimmed(done[k]),
        ensures
            out@.len() == lines(v@).len(),
            forall|k: int|
                0 <= k < out@.len() ==> (#[trigger] out@[k])@ == trimmed(lines(v@)[k]),
        decreases n - i,
    {
        let j = find(v, i, '\n');
        let line = slice_of(v, i, j);
        let (a, b) = trim_bounds(&line);
        let text = string_of(&line, a, b);
        let ghost rest = v@.skip(i as int);
        proof {
            assert(rest.take(j - i) =~= line@);
        }
        out.push(text);
        if j >= n {
            proof {
                done = done.push(line@);
            }
            break;
        }
        proof {
            assert(rest.skip(j - i + 1) =~= v@.skip(j + 1));
            assert(done + (seq![line@] + lines(v@.skip(j + 1))) =~= done.push(line@) + lines(
                v@.skip(j + 1),
            ));
            done = done.push(line@);
        }
        i = j + 1;
    }
    out
}

} // verus!
