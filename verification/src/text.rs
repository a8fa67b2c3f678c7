//! Text: building strings, decoding bytes, and cutting a line into words.

use vstd::prelude::*;
use vstd::string::*;
use vstd::utf8::*;

verus! {

/// `String::push` appends one character to the end of the string.
pub assume_specification[ String::push ](string: &mut String, character: char)
    ensures
        final(string)@ == old(string)@.push(character),
;

/// `str::from_utf8` accepts exactly the byte strings that are valid UTF-8, and gives
/// the text that they encode.
#[verifier::external_body]
pub(crate) fn text_from_utf8(bytes: &[u8]) -> (text: Option<&str>)
    ensures
        text is Some <==> valid_utf8(bytes@),
        text matches Some(decoded) ==> decoded@ == decode_utf8(bytes@),
{
    std::str::from_utf8(bytes).ok()
}

/// ASCII bytes are UTF-8, and each of them is one character.
pub proof fn law_ascii_is_utf8(bytes: Seq<u8>)
    requires
        forall|i: int| 0 <= i < bytes.len() ==> (#[trigger] bytes[i]) < 128,
    ensures
        valid_utf8(bytes),
        decode_utf8(bytes) == Seq::new(bytes.len(), |i: int| bytes[i] as char),
{
    let chars = Seq::new(bytes.len(), |i: int| bytes[i] as char);
    assert(is_ascii_chars(chars));
    is_ascii_chars_encode_utf8(chars);
    assert(encode_utf8(chars) =~= bytes);
    encode_utf8_valid_utf8(chars);
    encode_utf8_decode_utf8(chars);
}

/// Takes text, piece by piece, as a console does.
///
/// A sink is modelled by all the text that it has got. Of a sink that does not say so,
/// nothing is known.
pub trait TextSink: Sized {
    /// The text that the sink has got.
    closed spec fn written(&self) -> Seq<char> {
        arbitrary()
    }

    /// Takes a string.
    fn write_str(&mut self, text: &str)
        ensures
            final(self).written() == old(self).written() + text@,
    ;

    /// Takes one character.
    fn write_char(&mut self, character: char)
        ensures
            final(self).written() == old(self).written().push(character),
    ;
}

impl TextSink for String {
    open spec fn written(&self) -> Seq<char> {
        self@
    }

    fn write_str(&mut self, text: &str) {
        self.append(text);
    }

    fn write_char(&mut self, character: char) {
        self.push(character);
    }
}

/// Whether two strings are the same text.
pub fn same_text(a: &str, b: &str) -> (same: bool)
    ensures
        same <==> a@ == b@,
{
    let length: usize = a.unicode_len();
    if length != b.unicode_len() {
        return false;
    }
    let mut index: usize = 0;
    while index < length
        invariant
            index <= length,
            length == a@.len(),
            length == b@.len(),
            forall|i: int| 0 <= i < index ==> a@[i] == b@[i],
        decreases length - index,
    {
        if a.get_char(index) != b.get_char(index) {
            assert(a@[index as int] != b@[index as int]);
            return false;
        }
        index += 1;
    }
    assert(a@ =~= b@);
    true
}

/// The characters with the Unicode property `White_Space`.
pub open spec fn is_space(c: char) -> bool {
    let code = c as int;
    ||| 9 <= code <= 13
    ||| code == 0x20
    ||| code == 0x85
    ||| code == 0xa0
    ||| code == 0x1680
    ||| 0x2000 <= code <= 0x200a
    ||| code == 0x2028
    ||| code == 0x2029
    ||| code == 0x202f
    ||| code == 0x205f
    ||| code == 0x3000
}

/// Whether a character is white space.
pub fn is_whitespace(c: char) -> (space: bool)
    ensures
        space == is_space(c),
{
    let code: u32 = c as u32;
    (9 <= code && code <= 13) || code == 0x20 || code == 0x85 || code == 0xa0 || code == 0x1680
        || (0x2000 <= code && code <= 0x200a) || code == 0x2028 || code == 0x2029 || code == 0x202f
        || code == 0x205f || code == 0x3000
}

/// How many white space characters a text starts with.
pub open spec fn space_len(text: Seq<char>) -> nat
    decreases text.len(),
{
    if text.len() == 0 || !is_space(text[0]) {
        0
    } else {
        1 + space_len(text.skip(1))
    }
}

/// How many characters come before the first white space.
pub open spec fn word_len(text: Seq<char>) -> nat
    decreases text.len(),
{
    if text.len() == 0 || is_space(text[0]) {
        0
    } else {
        1 + word_len(text.skip(1))
    }
}

/// A text without the white space before it.
pub open spec fn trimmed_start(text: Seq<char>) -> Seq<char> {
    text.skip(space_len(text) as int)
}

/// A text without the white space behind it.
pub open spec fn trimmed_end(text: Seq<char>) -> Seq<char>
    decreases text.len(),
{
    if text.len() == 0 || !is_space(text.last()) {
        text
    } else {
        trimmed_end(text.drop_last())
    }
}

/// A text without the white space around it.
pub open spec fn trimmed(text: Seq<char>) -> Seq<char> {
    trimmed_end(trimmed_start(text))
}

/// The words of a text: what is left between its white space.
pub open spec fn words(text: Seq<char>) -> Seq<Seq<char>>
    decreases text.len(),
{
    if text.len() == 0 {
        Seq::empty()
    } else if is_space(text[0]) {
        words(text.skip(1))
    } else {
        let n = word_len(text) as int;
        seq![text.take(n)] + if 0 < n <= text.len() {
            words(text.skip(n))
        } else {
            Seq::empty()
        }
    }
}

/// What follows the first word of a line, without the white space between.
pub open spec fn arguments(line: Seq<char>) -> Seq<char> {
    trimmed_start(line.skip(word_len(line) as int))
}

pub proof fn lemma_lengths(text: Seq<char>)
    ensures
        space_len(text) <= text.len(),
        word_len(text) <= text.len(),
        text.len() > 0 && !is_space(text[0]) ==> word_len(text) > 0,
    decreases text.len(),
{
    if text.len() > 0 {
        lemma_lengths(text.skip(1));
    }
}

/// A word ends at the first white space, or with the text.
proof fn lemma_word_end(text: Seq<char>, n: int)
    requires
        0 <= n <= text.len(),
        forall|i: int| 0 <= i < n ==> !is_space(#[trigger] text[i]),
        n < text.len() ==> is_space(text[n]),
    ensures
        word_len(text) == n,
    decreases n,
{
    if n > 0 {
        assert(!is_space(text[0]));
        assert forall|i: int| 0 <= i < n - 1 implies !is_space(#[trigger] text.skip(1)[i]) by {
            assert(text.skip(1)[i] == text[i + 1]);
        }
        lemma_word_end(text.skip(1), n - 1);
    }
}

/// White space ends at the first other character, or with the text.
proof fn lemma_space_end(text: Seq<char>, n: int)
    requires
        0 <= n <= text.len(),
        forall|i: int| 0 <= i < n ==> is_space(#[trigger] text[i]),
        n < text.len() ==> !is_space(text[n]),
    ensures
        space_len(text) == n,
    decreases n,
{
    if n > 0 {
        assert(is_space(text[0]));
        assert forall|i: int| 0 <= i < n - 1 implies is_space(#[trigger] text.skip(1)[i]) by {
            assert(text.skip(1)[i] == text[i + 1]);
        }
        lemma_space_end(text.skip(1), n - 1);
    }
}

/// White space before a text adds no words.
proof fn lemma_words_trimmed_start(text: Seq<char>)
    ensures
        words(text) == words(trimmed_start(text)),
    decreases text.len(),
{
    if text.len() > 0 && is_space(text[0]) {
        lemma_words_trimmed_start(text.skip(1));
        lemma_lengths(text.skip(1));
        assert(text.skip(1).skip(space_len(text.skip(1)) as int) =~= text.skip(
            space_len(text) as int,
        ));
    } else {
        assert(text.skip(0) =~= text);
    }
}

/// A text that was trimmed does not start with white space.
proof fn lemma_trimmed_start(text: Seq<char>)
    ensures
        trimmed_start(text).len() > 0 ==> !is_space(trimmed_start(text)[0]),
    decreases text.len(),
{
    if text.len() > 0 && is_space(text[0]) {
        lemma_trimmed_start(text.skip(1));
        lemma_lengths(text.skip(1));
        assert(text.skip(1).skip(space_len(text.skip(1)) as int) =~= text.skip(
            space_len(text) as int,
        ));
    }
}

/// How many characters of a text come before its first white space.
fn leading_word(text: &str) -> (length: usize)
    ensures
        length == word_len(text@),
{
    let length: usize = text.unicode_len();
    let mut index: usize = 0;
    while index < length && !is_whitespace(text.get_char(index))
        invariant
            index <= length,
            length == text@.len(),
            forall|i: int| 0 <= i < index ==> !is_space(#[trigger] text@[i]),
        decreases length - index,
    {
        index += 1;
    }
    proof {
        lemma_word_end(text@, index as int);
    }
    index
}

/// The rest of a text behind its leading white space.
fn trim_start(text: &str) -> (rest: &str)
    ensures
        rest@ == trimmed_start(text@),
{
    let length: usize = text.unicode_len();
    let mut index: usize = 0;
    while index < length && is_whitespace(text.get_char(index))
        invariant
            index <= length,
            length == text@.len(),
            forall|i: int| 0 <= i < index ==> is_space(#[trigger] text@[i]),
        decreases length - index,
    {
        index += 1;
    }
    proof {
        lemma_space_end(text@, index as int);
        assert(text@.subrange(index as int, length as int) =~= trimmed_start(text@));
    }
    text.substring_char(index, length)
}

/// A text without the white space around it.
pub fn trim(text: &str) -> (inner: &str)
    ensures
        inner@ == trimmed(text@),
{
    let text: &str = trim_start(text);
    let mut end: usize = text.unicode_len();
    assert(text@.take(end as int) =~= text@);
    while end > 0 && is_whitespace(text.get_char(end - 1))
        invariant
            end <= text@.len(),
            trimmed_end(text@) == trimmed_end(text@.take(end as int)),
        decreases end,
    {
        assert(text@.take(end as int).drop_last() =~= text@.take(end - 1));
        end -= 1;
    }
    assert(text@.subrange(0, end as int) =~= text@.take(end as int));
    text.substring_char(0, end)
}

/// What follows the first word of a line, without the white space between.
pub fn arguments_after_command(line: &str) -> (rest: &str)
    ensures
        rest@ == arguments(line@),
{
    let length: usize = leading_word(line);
    let end: usize = line.unicode_len();
    proof {
        lemma_lengths(line@);
        assert(line@.subrange(length as int, end as int) =~= line@.skip(length as int));
    }
    trim_start(line.substring_char(length, end))
}

/// Takes the next word from the front of a text: the word and what follows it.
pub fn next_word(text: &str) -> (taken: Option<(&str, &str)>)
    ensures
        match taken {
            None => words(text@).len() == 0,
            Some((word, rest)) => {
                &&& words(text@) == seq![word@] + words(rest@)
                &&& trimmed_start(text@) == word@ + rest@
                &&& rest@.len() > 0 ==> is_space(rest@[0])
            },
        },
{
    proof {
        lemma_words_trimmed_start(text@);
        lemma_trimmed_start(text@);
    }
    let text: &str = trim_start(text);
    let end: usize = text.unicode_len();
    if end == 0 {
        return None;
    }
    let length: usize = leading_word(text);
    proof {
        lemma_lengths(text@);
        lemma_word_stops(text@);
        assert(text@.subrange(0, length as int) =~= text@.take(length as int));
        assert(text@.subrange(length as int, end as int) =~= text@.skip(length as int));
        assert(text@ =~= text@.take(length as int) + text@.skip(length as int));
    }
    Some((text.substring_char(0, length), text.substring_char(length, end)))
}

/// White space behind a text adds no words.
proof fn lemma_words_before_space(text: Seq<char>, space: char)
    requires
        is_space(space),
    ensures
        words(text.push(space)) == words(text),
        text.len() > 0 && !is_space(text[0]) ==> word_len(text.push(space)) == word_len(text),
    decreases text.len(),
{
    let longer = text.push(space);
    if text.len() == 0 {
        assert(longer.skip(1) =~= text);
    } else {
        assert(longer[0] == text[0]);
        assert(longer.skip(1) =~= text.skip(1).push(space));
        lemma_words_before_space(text.skip(1), space);
        if !is_space(text[0]) {
            lemma_lengths(text);
            if text.len() == 1 || is_space(text[1]) {
                assert(word_len(text.skip(1)) == 0);
                assert(word_len(longer.skip(1)) == 0);
            } else {
                assert(text.skip(1)[0] == text[1]);
            }
            let n = word_len(text) as int;
            assert(word_len(longer) == n);
            assert(longer.take(n) =~= text.take(n));
            assert(longer.skip(n) =~= text.skip(n).push(space));
            lemma_words_before_space(text.skip(n), space);
        }
    }
}

/// The white space around a text does not matter to its words.
pub proof fn law_trimming_keeps_words(text: Seq<char>)
    ensures
        words(trimmed(text)) == words(text),
{
    lemma_words_trimmed_start(text);
    lemma_words_trimmed_end(trimmed_start(text));
}

proof fn lemma_words_trimmed_end(text: Seq<char>)
    ensures
        words(trimmed_end(text)) == words(text),
    decreases text.len(),
{
    if text.len() > 0 && is_space(text.last()) {
        lemma_words_trimmed_end(text.drop_last());
        lemma_words_before_space(text.drop_last(), text.last());
        assert(text.drop_last().push(text.last()) =~= text);
    }
}

/// Words are never empty and hold no white space.
pub proof fn law_words_are_solid(text: Seq<char>)
    ensures
        forall|i: int, j: int|
            0 <= i < words(text).len() && 0 <= j < words(text)[i].len() ==> !is_space(
                #[trigger] words(text)[i][j],
            ),
        forall|i: int| 0 <= i < words(text).len() ==> (#[trigger] words(text)[i]).len() > 0,
    decreases text.len(),
{
    if text.len() > 0 {
        if is_space(text[0]) {
            law_words_are_solid(text.skip(1));
            assert(words(text) == words(text.skip(1)));
        } else {
            let n = word_len(text) as int;
            lemma_lengths(text);
            lemma_word_solid(text);
            law_words_are_solid(text.skip(n));
            let first = text.take(n);
            let rest = words(text.skip(n));
            assert(words(text) == seq![first] + rest);
            assert forall|i: int, j: int|
                0 <= i < words(text).len() && 0 <= j < words(text)[i].len() implies !is_space(
                #[trigger] words(text)[i][j],
            ) by {
                if i == 0 {
                    assert(words(text)[i][j] == text[j]);
                } else {
                    assert(words(text)[i] == rest[i - 1]);
                    assert(!is_space(rest[i - 1][j]));
                }
            }
            assert forall|i: int| 0 <= i < words(text).len() implies (
            #[trigger] words(text)[i]).len() > 0 by {
                if i > 0 {
                    assert(words(text)[i] == rest[i - 1]);
                }
            }
        }
    }
}

proof fn lemma_word_solid(text: Seq<char>)
    ensures
        forall|i: int| 0 <= i < word_len(text) ==> !is_space(#[trigger] text[i]),
    decreases text.len(),
{
    if text.len() > 0 && !is_space(text[0]) {
        lemma_word_solid(text.skip(1));
        lemma_lengths(text);
        assert forall|i: int| 0 <= i < word_len(text) implies !is_space(#[trigger] text[i]) by {
            if i > 0 {
                assert(text[i] == text.skip(1)[i - 1]);
            }
        }
    }
}

/// The arguments of a command have all its words but the first.
pub proof fn law_arguments_are_the_other_words(line: Seq<char>)
    requires
        line.len() > 0,
        !is_space(line[0]),
    ensures
        words(line).len() > 0,
        words(arguments(line)) == words(line).skip(1),
{
    lemma_lengths(line);
    let rest = line.skip(word_len(line) as int);
    lemma_words_trimmed_start(rest);
    assert(words(line).skip(1) =~= words(rest));
}

/// A text has no words exactly where it is all white space.
pub proof fn law_blank_text_has_no_words(text: Seq<char>)
    ensures
        words(text).len() == 0 <==> forall|i: int|
            0 <= i < text.len() ==> is_space(#[trigger] text[i]),
    decreases text.len(),
{
    if text.len() > 0 && is_space(text[0]) {
        law_blank_text_has_no_words(text.skip(1));
        if words(text).len() == 0 {
            assert forall|i: int| 0 <= i < text.len() implies is_space(#[trigger] text[i]) by {
                if i > 0 {
                    assert(text[i] == text.skip(1)[i - 1]);
                }
            }
        } else {
            let i = choose|i: int|
                0 <= i < text.skip(1).len() && !is_space(#[trigger] text.skip(1)[i]);
            assert(text.skip(1)[i] == text[i + 1]);
        }
    }
}

/// A decimal digit.
pub open spec fn digit(value: int) -> char {
    (0x30 + value) as char
}

/// A number in decimal, without leading zeros.
pub open spec fn decimal(number: nat) -> Seq<char>
    decreases number,
{
    if number < 10 {
        seq![digit(number as int)]
    } else {
        decimal(number / 10).push(digit(number as int % 10))
    }
}

/// The number that a string of decimal digits stands for.
pub open spec fn decimal_value(digits: Seq<char>) -> int
    decreases digits.len(),
{
    if digits.len() == 0 {
        0
    } else {
        10 * decimal_value(digits.drop_last()) + (digits.last() as int - 0x30)
    }
}

/// A number can be read back from its decimal form, so no two numbers share one.
pub proof fn law_decimal_reads_back(number: nat)
    ensures
        decimal_value(decimal(number)) == number,
    decreases number,
{
    if number >= 10 {
        law_decimal_reads_back(number / 10);
        assert(decimal(number).drop_last() =~= decimal(number / 10));
    } else {
        assert(decimal(number).drop_last().len() == 0);
        assert(decimal_value(decimal(number).drop_last()) == 0);
    }
}

/// Appends a number in decimal.
pub fn append_decimal<S: TextSink>(sink: &mut S, number: u64)
    ensures
        final(sink).written() == old(sink).written() + decimal(number as nat),
    decreases number,
{
    if number >= 10 {
        append_decimal(sink, number / 10);
    }
    sink.write_char((0x30 + (number % 10) as u8) as char);
    assert(sink.written() =~= old(sink).written() + decimal(number as nat));
}

/// How many digits a number has in decimal.
fn decimal_length(number: u64) -> (length: u64)
    ensures
        length == decimal(number as nat).len(),
        length <= number / 10 + 1,
    decreases number,
{
    if number < 10 {
        1
    } else {
        decimal_length(number / 10) + 1
    }
}

/// A text with enough spaces before it to fill `width` places.
pub open spec fn padded(text: Seq<char>, width: int) -> Seq<char> {
    if text.len() < width {
        Seq::new((width - text.len()) as nat, |i: int| ' ') + text
    } else {
        text
    }
}

/// Appends a number in decimal, aligned to the right of `width` places.
pub fn append_padded_decimal<S: TextSink>(sink: &mut S, number: u64, width: usize)
    ensures
        final(sink).written() == old(sink).written() + padded(
            decimal(number as nat),
            width as int,
        ),
{
    let length: u64 = decimal_length(number);
    let mut filled: u64 = length;
    assert(sink.written() =~= old(sink).written() + Seq::new(0, |i: int| ' '));
    while filled < width as u64
        invariant
            length <= filled,
            filled <= width || filled == length,
            sink.written() == old(sink).written() + Seq::new(
                (filled - length) as nat,
                |i: int| ' ',
            ),
        decreases width - filled,
    {
        sink.write_char(' ');
        filled += 1;
        assert(sink.written() =~= old(sink).written() + Seq::new(
            (filled - length) as nat,
            |i: int| ' ',
        ));
    }
    append_decimal(sink, number);
    assert(sink.written() =~= old(sink).written() + padded(
        decimal(number as nat),
        width as int,
    ));
}

/// A lower-case hexadecimal digit.
pub open spec fn hex_digit(value: int) -> char {
    if value < 10 {
        (0x30 + value) as char
    } else {
        (0x57 + value) as char
    }
}

/// Appends a byte as two hexadecimal digits.
pub fn append_hex<S: TextSink>(sink: &mut S, byte: u8)
    ensures
        final(sink).written() == old(sink).written() + seq![
            hex_digit(byte as int / 16),
            hex_digit(byte as int % 16),
        ],
{
    let high: u8 = byte / 16;
    let low: u8 = byte % 16;
    sink.write_char(
        if high < 10 {
            (0x30 + high) as char
        } else {
            (0x57 + high) as char
        },
    );
    sink.write_char(
        if low < 10 {
            (0x30 + low) as char
        } else {
            (0x57 + low) as char
        },
    );
    assert(sink.written() =~= old(sink).written() + seq![
        hex_digit(byte as int / 16),
        hex_digit(byte as int % 16),
    ]);
}

/// White space is what it is in Unicode: the ASCII control characters from tab to carriage
/// return, the spaces of all widths but those of no width, and the two separators.
pub proof fn law_white_space(c: char)
    ensures
        (c as int) < 128 ==> (is_space(c) <==> c == ' ' || c == '\t' || c == '\n' || c as int == 11
            || c as int == 12 || c == '\r'),
        is_space(c) && c as int >= 128 ==> c as int == 0x85 || c as int == 0xa0 || c as int
            == 0x1680 || 0x2000 <= c as int <= 0x205f || c as int == 0x3000,
        c as int == 0x200b || c as int == 0x2060 || c as int == 0xfeff ==> !is_space(c),
{
}

/// White space cuts a text in two: the words on its left come first, then those on its
/// right.
pub proof fn law_space_cuts_words(left: Seq<char>, space: char, right: Seq<char>)
    requires
        is_space(space),
    ensures
        words(left.push(space) + right) == words(left) + words(right),
    decreases left.len(),
{
    let text = left.push(space) + right;
    if left.len() == 0 {
        assert(text.skip(1) =~= right);
        assert(text[0] == space);
        assert(words(text) =~= words(left) + words(right));
    } else if is_space(left[0]) {
        law_space_cuts_words(left.skip(1), space, right);
        assert(text[0] == left[0]);
        assert(text.skip(1) =~= left.skip(1).push(space) + right);
    } else {
        let n = word_len(left) as int;
        lemma_lengths(left);
        lemma_word_solid(left);
        lemma_word_stops(left);
        assert(text[0] == left[0]);
        assert forall|i: int| 0 <= i < n implies !is_space(#[trigger] text[i]) by {
            assert(text[i] == left[i]);
        }
        assert(is_space(text[n])) by {
            if n < left.len() {
                assert(text[n] == left[n]);
            } else {
                assert(text[n] == space);
            }
        }
        lemma_word_end(text, n);
        assert(text.take(n) =~= left.take(n));
        assert(text.skip(n) =~= left.skip(n).push(space) + right);
        law_space_cuts_words(left.skip(n), space, right);
        assert(words(text) =~= words(left) + words(right));
    }
}

/// A word is followed by white space or by the end of the text.
proof fn lemma_word_stops(text: Seq<char>)
    ensures
        word_len(text) < text.len() ==> is_space(text[word_len(text) as int]),
    decreases text.len(),
{
    if text.len() > 0 && !is_space(text[0]) {
        lemma_word_stops(text.skip(1));
        let n = word_len(text.skip(1)) as int;
        assert(n < text.len() - 1 ==> text.skip(1)[n] == text[n + 1]);
    }
}

/// A text without white space is one word.
pub proof fn law_solid_text_is_one_word(text: Seq<char>)
    requires
        text.len() > 0,
        forall|i: int| 0 <= i < text.len() ==> !is_space(#[trigger] text[i]),
    ensures
        words(text) == seq![text],
{
    lemma_word_end(text, text.len() as int);
    assert(text.take(text.len() as int) =~= text);
    assert(words(text.skip(text.len() as int)).len() == 0);
    assert(words(text) =~= seq![text]);
}

proof fn lemma_leading_space(text: Seq<char>)
    ensures
        space_len(text) <= text.len(),
        forall|i: int| 0 <= i < space_len(text) ==> is_space(#[trigger] text[i]),
    decreases text.len(),
{
    if text.len() > 0 && is_space(text[0]) {
        lemma_leading_space(text.skip(1));
        assert forall|i: int| 0 <= i < space_len(text) implies is_space(#[trigger] text[i]) by {
            if i > 0 {
                assert(text[i] == text.skip(1)[i - 1]);
            }
        }
    }
}

proof fn lemma_trimmed_end(text: Seq<char>)
    ensures
        trimmed_end(text).len() <= text.len(),
        trimmed_end(text) == text.take(trimmed_end(text).len() as int),
        forall|i: int| trimmed_end(text).len() <= i < text.len() ==> is_space(#[trigger] text[i]),
        trimmed_end(text).len() > 0 ==> !is_space(trimmed_end(text).last()),
    decreases text.len(),
{
    if text.len() > 0 && is_space(text.last()) {
        lemma_trimmed_end(text.drop_last());
        let end = trimmed_end(text).len() as int;
        assert(text.drop_last().take(end) =~= text.take(end));
        assert forall|i: int| end <= i < text.len() implies is_space(#[trigger] text[i]) by {
            if i < text.len() - 1 {
                assert(text[i] == text.drop_last()[i]);
            }
        }
    } else {
        assert(text.take(text.len() as int) =~= text);
    }
}

/// Trimming takes white space off both ends and nothing else, and leaves none there:
/// `start` is where what is left starts.
pub proof fn law_trimming_takes_white_space_off(text: Seq<char>)
    ensures
        ({
            let inner = trimmed(text);
            let start = space_len(text) as int;
            &&& 0 <= start && start + inner.len() <= text.len()
            &&& inner == text.subrange(start, start + inner.len())
            &&& forall|i: int| 0 <= i < start ==> is_space(#[trigger] text[i])
            &&& forall|i: int| start + inner.len() <= i < text.len() ==> is_space(#[trigger] text[i])
            &&& inner.len() > 0 ==> !is_space(inner[0]) && !is_space(inner.last())
        }),
{
    let start = space_len(text) as int;
    let rest = trimmed_start(text);
    lemma_leading_space(text);
    lemma_trimmed_start(text);
    lemma_trimmed_end(rest);
    let inner = trimmed(text);
    assert(inner =~= text.subrange(start, start + inner.len()));
    assert forall|i: int| start + inner.len() <= i < text.len() implies is_space(
        #[trigger] text[i],
    ) by {
        assert(text[i] == rest[i - start]);
    }
    if inner.len() > 0 {
        assert(inner[0] == rest[0]);
    }
}

/// What follows a word and a gap are the arguments, as they stand.
pub proof fn law_arguments_follow_word_and_gap(word: Seq<char>, gap: Seq<char>, rest: Seq<char>)
    requires
        forall|i: int| 0 <= i < word.len() ==> !is_space(#[trigger] word[i]),
        forall|i: int| 0 <= i < gap.len() ==> is_space(#[trigger] gap[i]),
        rest.len() > 0 ==> gap.len() > 0 && !is_space(rest[0]),
    ensures
        arguments(word + gap + rest) == rest,
{
    let line = word + gap + rest;
    let n = word.len() as int;
    assert forall|i: int| 0 <= i < n implies !is_space(#[trigger] line[i]) by {
        assert(line[i] == word[i]);
    }
    if n < line.len() {
        assert(line[n] == gap[0]);
    }
    lemma_word_end(line, n);
    let behind = line.skip(n);
    assert(behind =~= gap + rest);
    let m = gap.len() as int;
    assert forall|i: int| 0 <= i < m implies is_space(#[trigger] behind[i]) by {
        assert(behind[i] == gap[i]);
    }
    if m < behind.len() {
        assert(behind[m] == rest[0]);
    }
    lemma_space_end(behind, m);
    assert(arguments(line) =~= rest);
}

/// A number is written in decimal digits, without a leading zero unless it is zero.
pub proof fn law_decimal_has_digits_only(number: nat)
    ensures
        decimal(number).len() > 0,
        forall|i: int| 0 <= i < decimal(number).len() ==> '0' <= (#[trigger] decimal(number)[i]) <= '9',
        number > 0 ==> decimal(number)[0] != '0',
        number == 0 ==> decimal(number).len() == 1,
    decreases number,
{
    if number >= 10 {
        law_decimal_has_digits_only(number / 10);
        let front = decimal(number / 10);
        assert forall|i: int| 0 <= i < decimal(number).len() implies '0' <= (
        #[trigger] decimal(number)[i]) <= '9' by {
            if i < front.len() {
                assert(decimal(number)[i] == front[i]);
            }
        }
        assert(decimal(number)[0] == front[0]);
    }
}

/// Padding puts spaces before a text, as many as it takes to fill the width, and changes
/// no text that is as wide.
pub proof fn law_padding_fills_from_the_left(text: Seq<char>, width: int)
    ensures
        ({
            let filled = padded(text, width);
            let gap = filled.len() - text.len();
            &&& 0 <= gap
            &&& filled.len() == if text.len() < width {
                width
            } else {
                text.len() as int
            }
            &&& filled.skip(gap) == text
            &&& forall|i: int| 0 <= i < gap ==> (#[trigger] filled[i]) == ' '
        }),
{
    let filled = padded(text, width);
    assert(filled.skip(filled.len() - text.len()) =~= text);
}

/// The sixteen hexadecimal digits in order.
pub proof fn law_hexadecimal_digits(value: int)
    requires
        0 <= value < 16,
    ensures
        hex_digit(value) == "0123456789abcdef"@[value],
{
    reveal_strlit("0123456789abcdef");
}

} // verus!
