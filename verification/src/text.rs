//! Small operations on text that the rest of the library shares.
use vstd::prelude::*;

verus! {

/// `String::push` appends one character.
pub assume_specification[ std::string::String::push ](text: &mut std::string::String, ch: char)
    ensures
        final(text)@ == old(text)@.push(ch),
;

/// The characters of a string slice.
#[verifier::loop_isolation(false)]
pub fn chars_of(text: &str) -> (chars: Vec<char>)
    ensures
        chars@ == text@,
{
    let mut chars: Vec<char> = Vec::new();
    for c in reader: text.chars()
        invariant
            reader.seq() == text@,
            chars@ == text@.subrange(0, reader.index() as int),
    {
        chars.push(c);
        assert(chars@ =~= text@.subrange(0, reader.index() + 1));
    }
    assert(chars@ =~= text@);
    chars
}

/// The text made of the characters `chars[from..to]`.
pub fn text_of(chars: &Vec<char>, from: usize, to: usize) -> (text: String)
    requires
        from <= to <= chars@.len(),
    ensures
        text@ == chars@.subrange(from as int, to as int),
{
    let mut text = String::new();
    let mut at: usize = from;
    while at < to
        invariant
            from <= at <= to <= chars@.len(),
            text@ == chars@.subrange(from as int, at as int),
        decreases to - at,
    {
        text.push(chars[at]);
        assert(text@ =~= chars@.subrange(from as int, at + 1));
        at = at + 1;
    }
    text
}

/// Whether a string holds exactly the characters of `word`.
pub fn is_word(text: &String, word: &str) -> (same: bool)
    ensures
        same == (text@ == word@),
{
    let other = String::from_str(word);
    *text == other
}

/// The decimal digit for a value below ten.
pub open spec fn digit(value: nat) -> char
    recommends
        value < 10,
{
    ((48 + value) as u8) as char
}

/// The decimal numeral of a natural number.
pub open spec fn numeral(value: nat) -> Seq<char>
    decreases value,
{
    if value < 10 {
        seq![digit(value)]
    } else {
        numeral(value / 10).push(digit(value % 10))
    }
}

/// The decimal numeral of an integer, with a minus sign below zero.
pub open spec fn signed_numeral(value: int) -> Seq<char> {
    if value < 0 {
        seq!['-'] + numeral((-value) as nat)
    } else {
        numeral(value as nat)
    }
}

/// Appends the decimal numeral of `value` to `text`.
pub fn push_numeral(text: &mut String, value: u64)
    ensures
        final(text)@ == old(text)@ + numeral(value as nat),
    decreases value,
{
    if value >= 10 {
        push_numeral(text, value / 10);
    }
    let low: u8 = (value % 10) as u8;
    text.push((48 + low) as char);
    assert(text@ =~= old(text)@ + numeral(value as nat));
}

/// The decimal numeral of `value`.
pub fn numeral_of(value: u64) -> (text: String)
    ensures
        text@ == numeral(value as nat),
{
    let mut text = String::new();
    push_numeral(&mut text, value);
    assert(text@ =~= numeral(value as nat));
    text
}

/// The decimal numeral of `value`.
pub fn signed_numeral_of(value: i64) -> (text: String)
    ensures
        text@ == signed_numeral(value as int),
{
    let mut text = String::new();
    if value >= 0 {
        push_numeral(&mut text, value as u64);
        assert(text@ =~= signed_numeral(value as int));
    } else {
        text.push('-');
        let size: u64 = if value == i64::MIN {
            0x8000_0000_0000_0000
        } else {
            (0 - value) as u64
        };
        push_numeral(&mut text, size);
        assert(text@ =~= signed_numeral(value as int));
    }
    text
}

/// A line without the line break that ends it: one `\n`, and the `\r`
/// before it if there is one.
pub open spec fn without_line_end(line: Seq<char>) -> Seq<char> {
    if line.len() > 0 && line.last() == '\n' {
        let rest = line.drop_last();
        if rest.len() > 0 && rest.last() == '\r' {
            rest.drop_last()
        } else {
            rest
        }
    } else {
        line
    }
}

/// The line without the line break that ends it.
pub fn strip_line_end(line: &String) -> (text: String)
    ensures
        text@ == without_line_end(line@),
{
    let chars = chars_of(line.as_str());
    let mut end: usize = chars.len();
    if end > 0 && chars[end - 1] == '\n' {
        end = end - 1;
        if end > 0 && chars[end - 1] == '\r' {
            end = end - 1;
        }
    }
    let text = text_of(&chars, 0, end);
    assert(text@ =~= without_line_end(line@));
    text
}

} // verus!

verus! {

/// The texts of a sequence of strings.
pub open spec fn strings_view(strings: Seq<String>) -> Seq<Seq<char>> {
    Seq::new(strings.len(), |i: int| strings[i]@)
}

/// A copy of a sequence of strings.
#[verifier::loop_isolation(false)]
pub fn copy_strings(strings: &Vec<String>) -> (copy: Vec<String>)
    ensures
        strings_view(copy@) == strings_view(strings@),
{
    let mut copy: Vec<String> = Vec::new();
    let mut at: usize = 0;
    while at < strings.len()
        invariant
            at <= strings.len(),
            strings_view(copy@) =~= strings_view(strings@).subrange(0, at as int),
        decreases strings.len() - at,
    {
        copy.push(strings[at].clone());
        at = at + 1;
    }
    assert(strings_view(copy@) =~= strings_view(strings@));
    copy
}

} // verus!
