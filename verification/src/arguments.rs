//! Reading the arguments of the wait tool, which a call carries as the text of a JSON object.
//!
//! The object names the cell and may say whether to end it. Members of other names may hold any
//! string, number, boolean or null, but no array and no object.

use crate::cell::{text_opt, CellId};
use crate::json::{
    after_space, characters, is_next, is_space, law_plain_strings_are_written_as_they_are,
    law_strings_are_read_back, law_strings_end_at_their_quote, lemma_after_space_is_no_longer, lemma_read_string_is_shorter,
    next_is, read_string, skip_space, string_at, string_text,
};
use vstd::prelude::*;

verus! {

/// What the wait tool is asked: to wait for a cell, or to end it.
#[derive(Debug)]
pub struct WaitArguments {
    pub cell_id: CellId,
    pub terminate: bool,
}

/// A character of a number or of a word such as `true`.
pub open spec fn is_word_char(c: char) -> bool {
    'a' <= c <= 'z' || 'A' <= c <= 'Z' || '0' <= c <= '9' || c == '+' || c == '-' || c == '.'
}

/// Reads a number or a word, and what is left of `text` behind it.
pub open spec fn read_word(text: Seq<char>) -> (Seq<char>, Seq<char>)
    decreases text.len(),
{
    if text.len() > 0 && is_word_char(text[0]) {
        let (word, left) = read_word(text.skip(1));
        (seq![text[0]] + word, left)
    } else {
        (Seq::empty(), text)
    }
}

/// The value of a member.
pub enum ScalarView {
    Text(Seq<char>),
    Flag(bool),
    /// A number or null.
    Other,
}

/// Whether a digit comes next in `text`.
pub open spec fn next_is_digit(text: Seq<char>) -> bool {
    text.len() > 0 && '0' <= text[0] <= '9'
}

/// What is left of `text` behind its leading digits.
pub open spec fn after_digits(text: Seq<char>) -> Seq<char>
    decreases text.len(),
{
    if next_is_digit(text) {
        after_digits(text.skip(1))
    } else {
        text
    }
}

/// What is left of `text` behind a whole number, which has no leading zeros.
pub open spec fn after_whole(text: Seq<char>) -> Option<Seq<char>> {
    if next_is(text, '0') {
        Some(text.skip(1))
    } else if next_is_digit(text) {
        Some(after_digits(text))
    } else {
        None
    }
}

/// What is left of `text` behind the fraction of a number, if there is one.
pub open spec fn after_fraction(text: Seq<char>) -> Option<Seq<char>> {
    if !next_is(text, '.') {
        Some(text)
    } else if next_is_digit(text.skip(1)) {
        Some(after_digits(text.skip(1)))
    } else {
        None
    }
}

/// What is left of `text` behind the exponent of a number, if there is one.
pub open spec fn after_exponent(text: Seq<char>) -> Option<Seq<char>> {
    if !next_is(text, 'e') && !next_is(text, 'E') {
        Some(text)
    } else {
        let sign = text.skip(1);
        let digits = if next_is(sign, '+') || next_is(sign, '-') {
            sign.skip(1)
        } else {
            sign
        };
        if next_is_digit(digits) {
            Some(after_digits(digits))
        } else {
            None
        }
    }
}

/// Whether `word` is a number.
pub open spec fn is_number(word: Seq<char>) -> bool {
    let unsigned = if next_is(word, '-') {
        word.skip(1)
    } else {
        word
    };
    &&& after_whole(unsigned) matches Some(left)
    &&& after_fraction(left) matches Some(left)
    &&& after_exponent(left) matches Some(left)
    &&& left.len() == 0
}

/// What a number or a word stands for.
pub open spec fn word_value(word: Seq<char>) -> Option<ScalarView> {
    if word == "true"@ {
        Some(ScalarView::Flag(true))
    } else if word == "false"@ {
        Some(ScalarView::Flag(false))
    } else if word == "null"@ || is_number(word) {
        Some(ScalarView::Other)
    } else {
        None
    }
}

/// Reads a value, and what is left of `text` behind it.
pub open spec fn read_value(text: Seq<char>) -> Option<(ScalarView, Seq<char>)> {
    if next_is(text, '"') {
        match read_string(text.skip(1)) {
            Some((held, left)) => Some((ScalarView::Text(held), left)),
            None => None,
        }
    } else {
        let (word, left) = read_word(text);
        match word_value(word) {
            Some(value) => Some((value, left)),
            None => None,
        }
    }
}

/// What has been read of the arguments so far.
pub struct ReadView {
    pub cell_id: Option<Seq<char>>,
    pub terminate: Option<bool>,
}

/// What has been read after one more member. The two known members have a type each and come at
/// most once.
pub open spec fn noted(read: ReadView, name: Seq<char>, value: ScalarView) -> Option<ReadView> {
    if name == "cell_id"@ {
        match value {
            ScalarView::Text(cell_id) => if read.cell_id is None {
                Some(ReadView { cell_id: Some(cell_id), ..read })
            } else {
                None
            },
            _ => None,
        }
    } else if name == "terminate"@ {
        match value {
            ScalarView::Flag(terminate) => if read.terminate is None {
                Some(ReadView { terminate: Some(terminate), ..read })
            } else {
                None
            },
            _ => None,
        }
    } else {
        Some(read)
    }
}

/// Reads one member of an object: its name, its value and what is left of `text` behind it.
pub open spec fn read_member(text: Seq<char>) -> Option<(Seq<char>, ScalarView, Seq<char>)> {
    if !next_is(text, '"') {
        None
    } else {
        match read_string(text.skip(1)) {
            None => None,
            Some((name, left)) => {
                let colon = after_space(left);
                if !next_is(colon, ':') {
                    None
                } else {
                    match read_value(after_space(colon.skip(1))) {
                        None => None,
                        Some((value, left)) => Some((name, value, left)),
                    }
                }
            },
        }
    }
}

proof fn lemma_read_word_is_no_longer(text: Seq<char>)
    ensures
        read_word(text).1.len() <= text.len(),
    decreases text.len(),
{
    if text.len() > 0 && is_word_char(text[0]) {
        lemma_read_word_is_no_longer(text.skip(1));
    }
}

/// Reading a member gets on.
pub proof fn lemma_read_member_is_shorter(text: Seq<char>)
    ensures
        read_member(text) matches Some((_, _, left)) ==> left.len() < text.len(),
{
    if next_is(text, '"') {
        lemma_read_string_is_shorter(text.skip(1));
        if let Some((_, left)) = read_string(text.skip(1)) {
            lemma_after_space_is_no_longer(left);
            let colon = after_space(left);
            if next_is(colon, ':') {
                lemma_after_space_is_no_longer(colon.skip(1));
                let value = after_space(colon.skip(1));
                lemma_read_word_is_no_longer(value);
                if next_is(value, '"') {
                    lemma_read_string_is_shorter(value.skip(1));
                }
            }
        }
    }
}

/// Reads the members of an object from the name of one of them on, and what is left of `text`
/// behind the object.
pub open spec fn read_members(text: Seq<char>, read: ReadView) -> Option<(ReadView, Seq<char>)>
    decreases text.len(),
{
    match read_member(text) {
        None => None,
        Some((name, value, left)) => match noted(read, name, value) {
            None => None,
            Some(read) => {
                let behind = after_space(left);
                if next_is(behind, ',') {
                    proof {
                        lemma_read_member_is_shorter(text);
                        lemma_after_space_is_no_longer(left);
                        lemma_after_space_is_no_longer(behind.skip(1));
                    }
                    read_members(after_space(behind.skip(1)), read)
                } else if next_is(behind, '}') {
                    Some((read, behind.skip(1)))
                } else {
                    None
                }
            },
        },
    }
}

/// Nothing has been read yet.
pub open spec fn nothing_read() -> ReadView {
    ReadView { cell_id: None, terminate: None }
}

/// Reads an object, and what is left of `text` behind it.
pub open spec fn read_object(text: Seq<char>) -> Option<(ReadView, Seq<char>)> {
    let opening = after_space(text);
    if !next_is(opening, '{') {
        None
    } else {
        let inside = after_space(opening.skip(1));
        if next_is(inside, '}') {
            Some((nothing_read(), inside.skip(1)))
        } else {
            read_members(inside, nothing_read())
        }
    }
}

/// The cell that `text` names and whether to end it, if `text` is such an object and nothing
/// else. Without a word on ending it, the cell is waited for.
pub open spec fn read_arguments(text: Seq<char>) -> Option<(Seq<char>, bool)> {
    match read_object(text) {
        Some((read, left)) => match read.cell_id {
            Some(cell_id) => if after_space(left).len() == 0 {
                Some((cell_id, read.terminate == Some(true)))
            } else {
                None
            },
            None => None,
        },
        None => None,
    }
}

/// The value of a member.
enum Scalar {
    Text(String),
    Flag(bool),
    Other,
}

impl Scalar {
    spec fn meaning(self) -> ScalarView {
        match self {
            Scalar::Text(text) => ScalarView::Text(text@),
            Scalar::Flag(flag) => ScalarView::Flag(flag),
            Scalar::Other => ScalarView::Other,
        }
    }
}

fn word_at(chars: &Vec<char>, from: usize) -> (word: (String, usize))
    requires
        from <= chars.len(),
    ensures
        from <= word.1 <= chars.len(),
        read_word(chars@.skip(from as int)) == (word.0@, chars@.skip(word.1 as int)),
{
    let mut word = String::new();
    let mut at: usize = from;
    assert(Seq::<char>::empty() + read_word(chars@.skip(from as int)).0 =~= read_word(
        chars@.skip(from as int),
    ).0);
    while at < chars.len() && (('a' <= chars[at] && chars[at] <= 'z') || ('A' <= chars[at]
        && chars[at] <= 'Z') || ('0' <= chars[at] && chars[at] <= '9') || chars[at] == '+'
        || chars[at] == '-' || chars[at] == '.')
        invariant
            from <= at <= chars.len(),
            read_word(chars@.skip(from as int)) == (
                word@ + read_word(chars@.skip(at as int)).0,
                read_word(chars@.skip(at as int)).1,
            ),
        decreases chars.len() - at,
    {
        let ghost so_far = word@;
        let ghost more = read_word(chars@.skip(at + 1)).0;
        assert(chars@.skip(at as int).skip(1) =~= chars@.skip(at + 1));
        word.push(chars[at]);
        assert(so_far + (seq![chars@[at as int]] + more) =~= word@ + more);
        at += 1;
    }
    assert(word@ + Seq::empty() =~= word@);
    (word, at)
}

fn value_at(chars: &Vec<char>, from: usize) -> (value: Option<(Scalar, usize)>)
    requires
        from <= chars.len(),
    ensures
        match value {
            Some((value, at)) => from <= at <= chars.len() && read_value(chars@.skip(from as int))
                == Some((value.meaning(), chars@.skip(at as int))),
            None => read_value(chars@.skip(from as int)) is None,
        },
{
    if is_next(chars, from, '"') {
        return match string_at(chars, from + 1) {
            Some((text, at)) => Some((Scalar::Text(text), at)),
            None => None,
        };
    }
    let (word, at) = word_at(chars, from);
    if word == "true".to_string() {
        Some((Scalar::Flag(true), at))
    } else if word == "false".to_string() {
        Some((Scalar::Flag(false), at))
    } else if word == "null".to_string() {
        Some((Scalar::Other, at))
    } else if number_is(word.as_str()) {
        Some((Scalar::Other, at))
    } else {
        None
    }
}

fn skip_digits(chars: &Vec<char>, from: usize) -> (at: usize)
    requires
        from <= chars.len(),
    ensures
        from <= at <= chars.len(),
        chars@.skip(at as int) == after_digits(chars@.skip(from as int)),
        (at > from) == next_is_digit(chars@.skip(from as int)),
{
    let mut at: usize = from;
    while at < chars.len() && '0' <= chars[at] && chars[at] <= '9'
        invariant
            from <= at <= chars.len(),
            after_digits(chars@.skip(from as int)) == after_digits(chars@.skip(at as int)),
            at > from ==> next_is_digit(chars@.skip(from as int)),
        decreases chars.len() - at,
    {
        assert(chars@.skip(at as int).skip(1) =~= chars@.skip(at + 1));
        at += 1;
    }
    at
}

fn number_is(word: &str) -> (yes: bool)
    ensures
        yes == is_number(word@),
{
    let chars = characters(word);
    assert(chars@.skip(0) =~= word@);
    let unsigned: usize = if is_next(&chars, 0, '-') {
        1
    } else {
        0
    };
    let whole: usize = if is_next(&chars, unsigned, '0') {
        unsigned + 1
    } else {
        skip_digits(&chars, unsigned)
    };
    if whole == unsigned {
        return false;
    }
    let fraction: usize = if is_next(&chars, whole, '.') {
        let end = skip_digits(&chars, whole + 1);
        if end == whole + 1 {
            return false;
        }
        end
    } else {
        whole
    };
    let exponent: usize = if is_next(&chars, fraction, 'e') || is_next(&chars, fraction, 'E') {
        let sign: usize = fraction + 1;
        let digits: usize = if is_next(&chars, sign, '+') || is_next(&chars, sign, '-') {
            sign + 1
        } else {
            sign
        };
        let end = skip_digits(&chars, digits);
        if end == digits {
            return false;
        }
        end
    } else {
        fraction
    };
    exponent == chars.len()
}

fn member_at(chars: &Vec<char>, from: usize) -> (member: Option<(String, Scalar, usize)>)
    requires
        from <= chars.len(),
    ensures
        match member {
            Some((name, value, at)) => from < at <= chars.len() && read_member(
                chars@.skip(from as int),
            ) == Some((name@, value.meaning(), chars@.skip(at as int))),
            None => read_member(chars@.skip(from as int)) is None,
        },
{
    if !is_next(chars, from, '"') {
        return None;
    }
    let (name, left) = match string_at(chars, from + 1) {
        Some(string) => string,
        None => {
            return None;
        },
    };
    let colon = skip_space(chars, left);
    if !is_next(chars, colon, ':') {
        return None;
    }
    let start = skip_space(chars, colon + 1);
    match value_at(chars, start) {
        Some((value, at)) => Some((name, value, at)),
        None => None,
    }
}

/// Reads the arguments of the wait tool from the text that a call carries.
pub fn read_wait_arguments(text: &str) -> (arguments: Result<WaitArguments, String>)
    ensures
        match read_arguments(text@) {
            Some((cell_id, terminate)) => arguments matches Ok(read) && read.cell_id@ == cell_id
                && read.terminate == terminate,
            None => arguments matches Err(error) && error@
                == "failed to parse function arguments"@,
        },
{
    let chars = characters(text);
    assert(chars@.skip(0) =~= text@);
    match object_in(&chars) {
        Some((Some(cell_id), terminate, left)) => {
            let end = skip_space(&chars, left);
            if end == chars.len() {
                return Ok(
                    WaitArguments {
                        cell_id: CellId::new(cell_id),
                        terminate: match terminate {
                            Some(terminate) => terminate,
                            None => false,
                        },
                    },
                );
            }
        },
        _ => {},
    }
    Err("failed to parse function arguments".to_string())
}

spec fn read_so_far(cell_id: Option<String>, terminate: Option<bool>) -> ReadView {
    ReadView { cell_id: text_opt(cell_id), terminate }
}

fn object_in(chars: &Vec<char>) -> (object: Option<(Option<String>, Option<bool>, usize)>)
    ensures
        match object {
            Some((cell_id, terminate, at)) => at <= chars.len() && read_object(chars@.skip(0))
                == Some((read_so_far(cell_id, terminate), chars@.skip(at as int))),
            None => read_object(chars@.skip(0)) is None,
        },
{
    let opening = skip_space(chars, 0);
    if !is_next(chars, opening, '{') {
        return None;
    }
    let mut at: usize = skip_space(chars, opening + 1);
    if is_next(chars, at, '}') {
        return Some((None, None, at + 1));
    }
    let mut cell_id: Option<String> = None;
    let mut terminate: Option<bool> = None;
    loop
        invariant
            at <= chars.len(),
            read_object(chars@.skip(0)) == read_members(
                chars@.skip(at as int),
                read_so_far(cell_id, terminate),
            ),
        decreases chars.len() - at,
    {
        let (name, value, left) = match member_at(chars, at) {
            Some(member) => member,
            None => {
                return None;
            },
        };
        if name == "cell_id".to_string() {
            match (value, cell_id.is_some()) {
                (Scalar::Text(text), false) => {
                    cell_id = Some(text);
                },
                _ => {
                    return None;
                },
            }
        } else if name == "terminate".to_string() {
            match (value, terminate.is_some()) {
                (Scalar::Flag(flag), false) => {
                    terminate = Some(flag);
                },
                _ => {
                    return None;
                },
            }
        }
        let behind = skip_space(chars, left);
        if is_next(chars, behind, ',') {
            at = skip_space(chars, behind + 1);
        } else if is_next(chars, behind, '}') {
            return Some((cell_id, terminate, behind + 1));
        } else {
            return None;
        }
    }
}

/// The text that asks for the cell `cell_id` to be ended, or waited for.
pub open spec fn arguments_text(cell_id: Seq<char>, terminate: bool) -> Seq<char> {
    seq!['{'] + string_text("cell_id"@) + seq![':'] + string_text(cell_id) + seq![',']
        + string_text("terminate"@) + seq![':'] + flag_text(terminate) + seq!['}']
}

/// How a flag is written.
pub open spec fn flag_text(flag: bool) -> Seq<char> {
    if flag {
        "true"@
    } else {
        "false"@
    }
}

proof fn lemma_read_whole_word(word: Seq<char>, left: Seq<char>)
    requires
        forall|i: int| 0 <= i < word.len() ==> is_word_char(#[trigger] word[i]),
        left.len() > 0,
        !is_word_char(left[0]),
    ensures
        read_word(word + left) == (word, left),
    decreases word.len(),
{
    let text = word + left;
    if word.len() == 0 {
        assert(text =~= left);
        assert(word =~= Seq::empty());
    } else {
        assert(is_word_char(word[0]));
        assert(text.skip(1) =~= word.skip(1) + left);
        lemma_read_whole_word(word.skip(1), left);
        assert(seq![word[0]] + word.skip(1) =~= word);
    }
}

proof fn lemma_read_name(name: Seq<char>, value: Seq<char>)
    ensures
        ({
            let text = string_text(name) + seq![':'] + value;
            &&& next_is(text, '"')
            &&& read_string(text.skip(1)) matches Some((read, left))
            &&& read == name
            &&& next_is(left, ':')
            &&& after_space(left) == left
            &&& left.skip(1) == value
        }),
{
    let colon = seq![':'] + value;
    law_strings_are_read_back(name, colon);
    assert(string_text(name) + seq![':'] + value =~= string_text(name) + colon);
    assert(colon.skip(1) =~= value);
}

proof fn lemma_read_string_member(name: Seq<char>, held: Seq<char>, left: Seq<char>)
    ensures
        read_member(string_text(name) + seq![':'] + (string_text(held) + left)) == Some(
            (name, ScalarView::Text(held), left),
        ),
{
    lemma_read_name(name, string_text(held) + left);
    law_strings_are_read_back(held, left);
}

proof fn lemma_read_flag_member(name: Seq<char>, flag: bool, left: Seq<char>)
    requires
        left.len() > 0,
        !is_word_char(left[0]),
    ensures
        read_member(string_text(name) + seq![':'] + (flag_text(flag) + left)) == Some(
            (name, ScalarView::Flag(flag), left),
        ),
{
    reveal_strlit("true");
    reveal_strlit("false");
    let value = flag_text(flag) + left;
    lemma_read_name(name, value);
    lemma_read_whole_word(flag_text(flag), left);
    assert(value[0] == flag_text(flag)[0]);
    assert("true"@[0] != "false"@[0]);
}

/// What names a cell and says whether to end it is read as that, whatever the cell's name.
pub proof fn law_arguments_are_read(cell_id: Seq<char>, terminate: bool)
    ensures
        read_arguments(arguments_text(cell_id, terminate)) == Some((cell_id, terminate)),
{
    let text = arguments_text(cell_id, terminate);
    let end = seq!['}'];
    let second = string_text("terminate"@) + seq![':'] + (flag_text(terminate) + end);
    let comma = seq![','] + second;
    let first = string_text("cell_id"@) + seq![':'] + (string_text(cell_id) + comma);
    let read = ReadView { cell_id: Some(cell_id), terminate: None };
    assert(text =~= seq!['{'] + first);
    assert(text.skip(1) =~= first);
    assert(comma.skip(1) =~= second);
    assert(end.skip(1) =~= Seq::empty());
    assert("terminate"@ != "cell_id"@) by {
        reveal_strlit("terminate");
        reveal_strlit("cell_id");
        assert("terminate"@[0] != "cell_id"@[0]);
    }
    lemma_read_flag_member("terminate"@, terminate, end);
    assert(read_members(second, read) == Some(
        (ReadView { cell_id: Some(cell_id), terminate: Some(terminate) }, Seq::<char>::empty()),
    ));
    lemma_read_string_member("cell_id"@, cell_id, comma);
    assert(second[0] == '"' && first[0] == '"');
    assert(read_members(first, nothing_read()) == read_members(second, read));
}

proof fn lemma_written_names()
    ensures
        string_text("cell_id"@) == seq!['"'] + "cell_id"@ + seq!['"'],
        string_text("terminate"@) == seq!['"'] + "terminate"@ + seq!['"'],
{
    reveal_strlit("cell_id");
    reveal_strlit("terminate");
    law_plain_strings_are_written_as_they_are("cell_id"@);
    law_plain_strings_are_written_as_they_are("terminate"@);
}

proof fn lemma_forward_text(held: Seq<char>)
    ensures
        "{\"cell_id\":"@ + held + ",\"terminate\":true}"@ == seq!['{'] + (seq!['"'] + "cell_id"@
            + seq!['"']) + seq![':'] + held + seq![','] + (seq!['"'] + "terminate"@ + seq!['"'])
            + seq![':'] + "true"@ + seq!['}'],
        "{\"cell_id\":"@ + held + ",\"terminate\":false}"@ == seq!['{'] + (seq!['"'] + "cell_id"@
            + seq!['"']) + seq![':'] + held + seq![','] + (seq!['"'] + "terminate"@ + seq!['"'])
            + seq![':'] + "false"@ + seq!['}'],
{
    reveal_strlit("cell_id");
    reveal_strlit("terminate");
    reveal_strlit("true");
    reveal_strlit("false");
    reveal_strlit("{\"cell_id\":");
    reveal_strlit(",\"terminate\":true}");
    reveal_strlit(",\"terminate\":false}");
    assert("{\"cell_id\":"@ =~= seq!['{'] + (seq!['"'] + "cell_id"@ + seq!['"']) + seq![':']);
    assert(",\"terminate\":true}"@ =~= seq![','] + (seq!['"'] + "terminate"@ + seq!['"'])
        + seq![':'] + "true"@ + seq!['}']);
    assert(",\"terminate\":false}"@ =~= seq![','] + (seq!['"'] + "terminate"@ + seq!['"'])
        + seq![':'] + "false"@ + seq!['}']);
    let opening = seq!['{'] + (seq!['"'] + "cell_id"@ + seq!['"']) + seq![':'] + held;
    let name = seq!['"'] + "terminate"@ + seq!['"'];
    assert(opening + (seq![','] + name + seq![':'] + "true"@ + seq!['}']) =~= opening + seq![',']
        + name + seq![':'] + "true"@ + seq!['}']);
    assert(opening + (seq![','] + name + seq![':'] + "false"@ + seq!['}']) =~= opening + seq![',']
        + name + seq![':'] + "false"@ + seq!['}']);
}

proof fn lemma_only_text(held: Seq<char>)
    ensures
        "{\"cell_id\":"@ + held + "}"@ == seq!['{'] + ((seq!['"'] + "cell_id"@ + seq!['"'])
            + seq![':'] + (held + seq!['}'])),
{
    reveal_strlit("cell_id");
    reveal_strlit("{\"cell_id\":");
    reveal_strlit("}");
    assert("{\"cell_id\":"@ =~= seq!['{'] + (seq!['"'] + "cell_id"@ + seq!['"']) + seq![':']);
    assert("}"@ =~= seq!['}']);
    let name = seq!['"'] + "cell_id"@ + seq!['"'];
    assert(seq!['{'] + name + seq![':'] + held + seq!['}'] =~= seq!['{'] + (name + seq![':'] + (
    held + seq!['}'])));
}

proof fn lemma_reversed_text(held: Seq<char>)
    ensures
        ({
            let only = (seq!['"'] + "cell_id"@ + seq!['"']) + seq![':'] + (held + seq!['}']);
            let name = seq!['"'] + "terminate"@ + seq!['"'];
            &&& "{\"terminate\":true,\"cell_id\":"@ + held + "}"@ == seq!['{'] + (name + seq![':']
                + ("true"@ + (seq![','] + only)))
            &&& "{\"terminate\":false,\"cell_id\":"@ + held + "}"@ == seq!['{'] + (name + seq![':']
                + ("false"@ + (seq![','] + only)))
        }),
{
    reveal_strlit("cell_id");
    reveal_strlit("terminate");
    reveal_strlit("true");
    reveal_strlit("false");
    reveal_strlit("{\"terminate\":true,\"cell_id\":");
    reveal_strlit("{\"terminate\":false,\"cell_id\":");
    reveal_strlit("}");
    let cell = seq!['"'] + "cell_id"@ + seq!['"'];
    let name = seq!['"'] + "terminate"@ + seq!['"'];
    assert("}"@ =~= seq!['}']);
    assert("{\"terminate\":true,\"cell_id\":"@ =~= seq!['{'] + name + seq![':'] + "true"@ + seq![
        ',',
    ] + cell + seq![':']);
    assert("{\"terminate\":false,\"cell_id\":"@ =~= seq!['{'] + name + seq![':'] + "false"@ + seq![
        ',',
    ] + cell + seq![':']);
    let only = cell + seq![':'] + (held + seq!['}']);
    assert(seq!['{'] + name + seq![':'] + "true"@ + seq![','] + cell + seq![':'] + held + seq!['}']
        =~= seq!['{'] + (name + seq![':'] + ("true"@ + (seq![','] + only))));
    assert(seq!['{'] + name + seq![':'] + "false"@ + seq![','] + cell + seq![':'] + held + seq!['}']
        =~= seq!['{'] + (name + seq![':'] + ("false"@ + (seq![','] + only))));
}

proof fn lemma_only_cell_is_read(cell_id: Seq<char>)
    ensures
        ({
            let only = string_text("cell_id"@) + seq![':'] + (string_text(cell_id) + seq!['}']);
            &&& next_is(only, '"')
            &&& read_members(only, nothing_read()) == Some(
                (ReadView { cell_id: Some(cell_id), terminate: None }, Seq::<char>::empty()),
            )
            &&& read_arguments(seq!['{'] + only) == Some((cell_id, false))
        }),
{
    let end = seq!['}'];
    let only = string_text("cell_id"@) + seq![':'] + (string_text(cell_id) + end);
    lemma_read_string_member("cell_id"@, cell_id, end);
    assert(end.skip(1) =~= Seq::empty());
    assert(only[0] == '"');
    assert(read_members(only, nothing_read()) == Some(
        (ReadView { cell_id: Some(cell_id), terminate: None }, Seq::<char>::empty()),
    ));
    lemma_object_of(only);
}

/// A text that names a cell and says whether to end it is read as that; one that does not say is
/// not to end it. What comes first makes no difference.
pub proof fn law_named_cells_are_read(cell_id: Seq<char>)
    ensures
        read_arguments("{\"cell_id\":"@ + string_text(cell_id) + ",\"terminate\":true}"@) == Some(
            (cell_id, true),
        ),
        read_arguments("{\"cell_id\":"@ + string_text(cell_id) + ",\"terminate\":false}"@) == Some(
            (cell_id, false),
        ),
        read_arguments("{\"cell_id\":"@ + string_text(cell_id) + "}"@) == Some((cell_id, false)),
        read_arguments("{\"terminate\":true,\"cell_id\":"@ + string_text(cell_id) + "}"@) == Some(
            (cell_id, true),
        ),
        read_arguments("{\"terminate\":false,\"cell_id\":"@ + string_text(cell_id) + "}"@) == Some(
            (cell_id, false),
        ),
{
    lemma_written_names();
    lemma_forward_text(string_text(cell_id));
    lemma_only_text(string_text(cell_id));
    lemma_reversed_text(string_text(cell_id));
    law_arguments_are_read(cell_id, true);
    law_arguments_are_read(cell_id, false);
    lemma_only_cell_is_read(cell_id);
    lemma_reversed_arguments(cell_id, true);
    lemma_reversed_arguments(cell_id, false);
}

proof fn lemma_object_of(members: Seq<char>)
    requires
        next_is(members, '"'),
    ensures
        read_object(seq!['{'] + members) == read_members(members, nothing_read()),
{
    assert((seq!['{'] + members).skip(1) =~= members);
}

proof fn lemma_reversed_arguments(cell_id: Seq<char>, terminate: bool)
    ensures
        ({
            let only = string_text("cell_id"@) + seq![':'] + (string_text(cell_id) + seq!['}']);
            read_arguments(
                seq!['{'] + (string_text("terminate"@) + seq![':'] + (flag_text(terminate) + (
                seq![','] + only))),
            ) == Some((cell_id, terminate))
        }),
{
    let end = seq!['}'];
    let only = string_text("cell_id"@) + seq![':'] + (string_text(cell_id) + end);
    let comma = seq![','] + only;
    let first = string_text("terminate"@) + seq![':'] + (flag_text(terminate) + comma);
    let read = ReadView { cell_id: None, terminate: Some(terminate) };
    assert("terminate"@ != "cell_id"@) by {
        reveal_strlit("terminate");
        reveal_strlit("cell_id");
        assert("terminate"@[0] != "cell_id"@[0]);
    }
    lemma_read_flag_member("terminate"@, terminate, comma);
    lemma_read_string_member("cell_id"@, cell_id, end);
    assert(comma.skip(1) =~= only);
    assert(end.skip(1) =~= Seq::empty());
    assert(only[0] == '"' && first[0] == '"');
    lemma_object_of(first);
    assert(read_members(first, nothing_read()) == read_members(only, read));
}

/// A text that names no cell is refused, and so is one that names it by something other than a
/// string.
pub proof fn law_unnamed_cells_are_refused(flag: bool)
    ensures
        read_arguments("{}"@) is None,
        read_arguments(
            seq!['{'] + (string_text("terminate"@) + seq![':'] + (flag_text(flag) + seq!['}'])),
        ) is None,
        read_arguments(
            seq!['{'] + (string_text("cell_id"@) + seq![':'] + (flag_text(flag) + seq!['}'])),
        ) is None,
{
    lemma_names_differ();
    let end = seq!['}'];
    assert(read_arguments("{}"@) is None) by {
        reveal_strlit("{}");
        assert("{}"@.skip(1) =~= seq!['}']);
    }
    assert(end.skip(1) =~= Seq::empty());
    let ending = string_text("terminate"@) + seq![':'] + (flag_text(flag) + end);
    lemma_read_flag_member("terminate"@, flag, end);
    assert(ending[0] == '"');
    lemma_object_of(ending);
    let naming = string_text("cell_id"@) + seq![':'] + (flag_text(flag) + end);
    lemma_read_flag_member("cell_id"@, flag, end);
    assert(naming[0] == '"');
    lemma_object_of(naming);
}

proof fn lemma_names_differ()
    ensures
        "terminate"@ != "cell_id"@,
{
    reveal_strlit("terminate");
    reveal_strlit("cell_id");
    assert("terminate"@[0] != "cell_id"@[0]);
}

/// A text that names a cell twice is refused.
pub proof fn law_cells_named_twice_are_refused(cell_id: Seq<char>, again: Seq<char>)
    ensures
        read_arguments(
            seq!['{'] + (string_text("cell_id"@) + seq![':'] + (string_text(again) + (seq![','] + (
            string_text("cell_id"@) + seq![':'] + (string_text(cell_id) + seq!['}']))))),
        ) is None,
{
    let end = seq!['}'];
    let only = string_text("cell_id"@) + seq![':'] + (string_text(cell_id) + end);
    let comma = seq![','] + only;
    let first = string_text("cell_id"@) + seq![':'] + (string_text(again) + comma);
    let read = ReadView { cell_id: Some(again), terminate: None };
    lemma_read_string_member("cell_id"@, again, comma);
    lemma_read_string_member("cell_id"@, cell_id, end);
    assert(comma.skip(1) =~= only);
    assert(only[0] == '"' && first[0] == '"');
    lemma_object_of(first);
    assert(read_members(only, read) is None);
    assert(read_members(first, nothing_read()) == read_members(only, read));
}

/// A text that says something other than true or false of ending the cell is refused.
pub proof fn law_flags_are_true_or_false(cell_id: Seq<char>, said: Seq<char>)
    ensures
        read_arguments(
            seq!['{'] + (string_text("terminate"@) + seq![':'] + (string_text(said) + (seq![','] + (
            string_text("cell_id"@) + seq![':'] + (string_text(cell_id) + seq!['}']))))),
        ) is None,
{
    lemma_names_differ();
    let only = string_text("cell_id"@) + seq![':'] + (string_text(cell_id) + seq!['}']);
    let comma = seq![','] + only;
    let first = string_text("terminate"@) + seq![':'] + (string_text(said) + comma);
    lemma_read_string_member("terminate"@, said, comma);
    assert(first[0] == '"');
    lemma_object_of(first);
}

/// A member of another name makes no difference.
pub proof fn law_other_members_make_no_difference(
    cell_id: Seq<char>,
    name: Seq<char>,
    said: Seq<char>,
    flag: bool,
)
    requires
        name != "cell_id"@,
        name != "terminate"@,
    ensures
        ({
            let only = string_text("cell_id"@) + seq![':'] + (string_text(cell_id) + seq!['}']);
            &&& read_arguments(
                seq!['{'] + (string_text(name) + seq![':'] + (string_text(said) + (seq![',']
                    + only))),
            ) == Some((cell_id, false))
            &&& read_arguments(
                seq!['{'] + (string_text(name) + seq![':'] + (flag_text(flag) + (seq![',']
                    + only))),
            ) == Some((cell_id, false))
        }),
{
    let only = string_text("cell_id"@) + seq![':'] + (string_text(cell_id) + seq!['}']);
    let comma = seq![','] + only;
    lemma_only_cell_is_read(cell_id);
    assert(comma.skip(1) =~= only);
    let said_first = string_text(name) + seq![':'] + (string_text(said) + comma);
    lemma_read_string_member(name, said, comma);
    assert(said_first[0] == '"');
    lemma_object_of(said_first);
    assert(read_members(said_first, nothing_read()) == read_members(only, nothing_read()));
    let flag_first = string_text(name) + seq![':'] + (flag_text(flag) + comma);
    lemma_read_flag_member(name, flag, comma);
    assert(flag_first[0] == '"');
    lemma_object_of(flag_first);
    assert(read_members(flag_first, nothing_read()) == read_members(only, nothing_read()));
}

/// Reading arguments gives what their text says, or the one error there is.
pub proof fn law_reading_arguments_gives_what_they_say(
    text: &str,
    arguments: Result<WaitArguments, String>,
    cell_id: Seq<char>,
)
    requires
        call_ensures(read_wait_arguments, (text,), arguments),
    ensures
        text@ == "{\"cell_id\":"@ + string_text(cell_id) + ",\"terminate\":true}"@ ==> {
            &&& arguments matches Ok(read)
            &&& read.cell_id.value@ == cell_id
            &&& read.terminate
        },
        text@ == "{\"cell_id\":"@ + string_text(cell_id) + ",\"terminate\":false}"@ ==> {
            &&& arguments matches Ok(read)
            &&& read.cell_id.value@ == cell_id
            &&& !read.terminate
        },
        text@ == "{\"cell_id\":"@ + string_text(cell_id) + "}"@ ==> {
            &&& arguments matches Ok(read)
            &&& read.cell_id.value@ == cell_id
            &&& !read.terminate
        },
        arguments matches Err(error) ==> error@ == "failed to parse function arguments"@,
{
    law_named_cells_are_read(cell_id);
}

proof fn lemma_space_goes_on(text: Seq<char>, more: Seq<char>)
    ensures
        after_space(text).len() > 0 ==> after_space(text + more) == after_space(text) + more,
        after_space(text).len() == 0 ==> after_space(text + more) == after_space(more),
    decreases text.len(),
{
    if text.len() == 0 {
        assert(text + more =~= more);
    } else {
        assert((text + more).skip(1) =~= text.skip(1) + more);
        if is_space(text[0]) {
            lemma_space_goes_on(text.skip(1), more);
        }
    }
}

proof fn lemma_word_goes_on(text: Seq<char>, more: Seq<char>)
    ensures
        read_word(text).1.len() > 0 ==> read_word(text + more) == (
            read_word(text).0,
            read_word(text).1 + more,
        ),
    decreases text.len(),
{
    if text.len() > 0 {
        assert((text + more).skip(1) =~= text.skip(1) + more);
        if is_word_char(text[0]) {
            lemma_word_goes_on(text.skip(1), more);
        }
    }
}

proof fn lemma_member_goes_on(text: Seq<char>, more: Seq<char>)
    ensures
        read_member(text) matches Some((name, value, left)) ==> (left.len() > 0 ==> read_member(
            text + more,
        ) == Some((name, value, left + more))),
{
    let longer = text + more;
    if let Some((name, value, left)) = read_member(text) {
        if left.len() > 0 {
            assert(longer.skip(1) =~= text.skip(1) + more);
            law_strings_end_at_their_quote(text.skip(1), more);
            let behind = read_string(text.skip(1))->Some_0.1;
            let colon = after_space(behind);
            lemma_space_goes_on(behind, more);
            assert((colon + more).skip(1) =~= colon.skip(1) + more);
            let start = after_space(colon.skip(1));
            lemma_space_goes_on(colon.skip(1), more);
            if start.len() > 0 {
                assert((start + more).skip(1) =~= start.skip(1) + more);
                law_strings_end_at_their_quote(start.skip(1), more);
                lemma_word_goes_on(start, more);
            }
        }
    }
}

proof fn lemma_members_go_on(text: Seq<char>, read: ReadView, more: Seq<char>)
    ensures
        read_members(text, read) matches Some((known, left)) ==> read_members(text + more, read)
            == Some((known, left + more)),
    decreases text.len(),
{
    if let Some((name, value, left)) = read_member(text) {
        if let Some(known) = noted(read, name, value) {
            let behind = after_space(left);
            if behind.len() > 0 {
                lemma_after_space_is_no_longer(left);
                lemma_member_goes_on(text, more);
                lemma_space_goes_on(left, more);
                assert((behind + more).skip(1) =~= behind.skip(1) + more);
                if next_is(behind, ',') {
                    lemma_read_member_is_shorter(text);
                    lemma_after_space_is_no_longer(behind.skip(1));
                    lemma_space_goes_on(behind.skip(1), more);
                    let next = after_space(behind.skip(1));
                    if next.len() > 0 {
                        lemma_members_go_on(next, known, more);
                    }
                }
            }
        }
    }
}

proof fn lemma_object_goes_on(text: Seq<char>, more: Seq<char>)
    ensures
        read_object(text) matches Some((known, left)) ==> read_object(text + more) == Some(
            (known, left + more),
        ),
{
    if let Some((known, left)) = read_object(text) {
        let opening = after_space(text);
        lemma_space_goes_on(text, more);
        assert((opening + more).skip(1) =~= opening.skip(1) + more);
        let inside = after_space(opening.skip(1));
        lemma_space_goes_on(opening.skip(1), more);
        if inside.len() > 0 {
            assert((inside + more).skip(1) =~= inside.skip(1) + more);
            lemma_members_go_on(inside, nothing_read(), more);
        }
    }
}

proof fn lemma_all_space(text: Seq<char>)
    ensures
        after_space(text).len() == 0 <==> forall|i: int|
            0 <= i < text.len() ==> (#[trigger] text[i] == ' ' || text[i] == '\n' || text[i] == '\r'
                || text[i] == '\t'),
    decreases text.len(),
{
    if text.len() > 0 {
        lemma_all_space(text.skip(1));
        if is_space(text[0]) {
            let rest = text.skip(1);
            if after_space(text).len() == 0 {
                assert forall|i: int| 0 <= i < text.len() implies (#[trigger] text[i] == ' '
                    || text[i] == '\n' || text[i] == '\r' || text[i] == '\t') by {
                    if i > 0 {
                        assert(rest[i - 1] == text[i]);
                    }
                }
            } else {
                let i = choose|i: int|
                    0 <= i < rest.len() && !(#[trigger] rest[i] == ' ' || rest[i] == '\n' || rest[i]
                        == '\r' || rest[i] == '\t');
                assert(text[i + 1] == rest[i]);
            }
        } else {
            assert(!(text[0] == ' ' || text[0] == '\n' || text[0] == '\r' || text[0] == '\t'));
        }
    }
}

/// Behind arguments there may be white space, which makes no difference, and nothing else.
pub proof fn law_only_space_may_follow_arguments(text: Seq<char>, more: Seq<char>)
    requires
        read_arguments(text) is Some,
    ensures
        (forall|i: int|
            0 <= i < more.len() ==> (#[trigger] more[i] == ' ' || more[i] == '\n' || more[i] == '\r'
                || more[i] == '\t')) ==> read_arguments(text + more) == read_arguments(text),
        (exists|i: int|
            0 <= i < more.len() && !(#[trigger] more[i] == ' ' || more[i] == '\n' || more[i] == '\r'
                || more[i] == '\t')) ==> read_arguments(text + more) is None,
{
    lemma_object_goes_on(text, more);
    let left = read_object(text)->Some_0.1;
    lemma_space_goes_on(left, more);
    lemma_all_space(more);
}

/// White space before arguments makes no difference.
pub proof fn law_space_may_precede_arguments(text: Seq<char>, space: Seq<char>)
    requires
        forall|i: int|
            0 <= i < space.len() ==> (#[trigger] space[i] == ' ' || space[i] == '\n' || space[i]
                == '\r' || space[i] == '\t'),
    ensures
        read_arguments(space + text) == read_arguments(text),
{
    lemma_all_space(space);
    lemma_space_goes_on(space, text);
}

/// A text that says twice whether to end the cell is refused.
pub proof fn law_flags_said_twice_are_refused(cell_id: Seq<char>, first: bool, second: bool)
    ensures
        read_arguments(
            seq!['{'] + (string_text("terminate"@) + seq![':'] + (flag_text(first) + (seq![','] + (
            string_text("terminate"@) + seq![':'] + (flag_text(second) + (seq![','] + (string_text(
                "cell_id"@,
            ) + seq![':'] + (string_text(cell_id) + seq!['}'])))))))),
        ) is None,
{
    lemma_names_differ();
    let only = string_text("cell_id"@) + seq![':'] + (string_text(cell_id) + seq!['}']);
    let comma = seq![','] + only;
    let again = string_text("terminate"@) + seq![':'] + (flag_text(second) + comma);
    let between = seq![','] + again;
    let all = string_text("terminate"@) + seq![':'] + (flag_text(first) + between);
    let read = ReadView { cell_id: None, terminate: Some(first) };
    lemma_read_flag_member("terminate"@, second, comma);
    lemma_read_flag_member("terminate"@, first, between);
    assert(between.skip(1) =~= again);
    assert(again[0] == '"' && all[0] == '"');
    lemma_object_of(all);
    assert(read_members(again, read) is None);
    assert(read_members(all, nothing_read()) == read_members(again, read));
}

/// White space may stand between all parts of the arguments and makes no difference.
pub proof fn law_space_may_stand_between_parts(
    cell_id: Seq<char>,
    opening: Seq<char>,
    name: Seq<char>,
    colon: Seq<char>,
    value: Seq<char>,
)
    requires
        all_space(opening),
        all_space(name),
        all_space(colon),
        all_space(value),
    ensures
        read_arguments(
            seq!['{'] + (opening + (string_text("cell_id"@) + (name + (seq![':'] + (colon + (
            string_text(cell_id) + (value + seq!['}']))))))),
        ) == Some((cell_id, false)),
{
    let end = seq!['}'];
    let left = value + end;
    let held = string_text(cell_id) + left;
    let spaced = colon + held;
    let middle = seq![':'] + spaced;
    let behind = name + middle;
    let member = string_text("cell_id"@) + behind;
    let inside = opening + member;
    let text = seq!['{'] + inside;
    lemma_all_space(opening);
    lemma_all_space(name);
    lemma_all_space(colon);
    lemma_all_space(value);
    lemma_space_goes_on(opening, member);
    lemma_space_goes_on(name, middle);
    lemma_space_goes_on(colon, held);
    lemma_space_goes_on(value, end);
    law_strings_are_read_back("cell_id"@, behind);
    law_strings_are_read_back(cell_id, left);
    assert(text.skip(1) =~= inside);
    assert(middle.skip(1) =~= spaced);
    assert(end.skip(1) =~= Seq::empty());
    assert(member[0] == '"' && held[0] == '"');
    assert(read_member(member) == Some(("cell_id"@, ScalarView::Text(cell_id), left)));
    assert(read_members(member, nothing_read()) == Some(
        (ReadView { cell_id: Some(cell_id), terminate: None }, Seq::<char>::empty()),
    ));
}

/// Blanks, tabs and the two characters that end lines, and nothing else.
pub open spec fn all_space(text: Seq<char>) -> bool {
    forall|i: int|
        0 <= i < text.len() ==> (#[trigger] text[i] == ' ' || text[i] == '\n' || text[i] == '\r'
            || text[i] == '\t')
}

/// The digits `0` to `9`, and at least one.
pub open spec fn all_digits(text: Seq<char>) -> bool {
    text.len() > 0 && forall|i: int| 0 <= i < text.len() ==> 48 <= #[trigger] text[i] as int <= 57
}

proof fn lemma_digits_are_skipped(digits: Seq<char>, left: Seq<char>)
    requires
        forall|i: int| 0 <= i < digits.len() ==> 48 <= #[trigger] digits[i] as int <= 57,
        !next_is_digit(left),
    ensures
        after_digits(digits + left) == left,
    decreases digits.len(),
{
    if digits.len() == 0 {
        assert(digits + left =~= left);
    } else {
        assert(48 <= digits[0] as int <= 57);
        assert((digits + left).skip(1) =~= digits.skip(1) + left);
        assert forall|i: int| 0 <= i < digits.skip(1).len() implies 48 <= #[trigger] digits.skip(
            1,
        )[i] as int <= 57 by {
            assert(digits.skip(1)[i] == digits[i + 1]);
        }
        lemma_digits_are_skipped(digits.skip(1), left);
    }
}

/// Digits without a leading zero are a number, with or without a sign, a fraction and an
/// exponent.
pub proof fn law_numbers_are_digits_with_parts(
    whole: Seq<char>,
    fraction: Seq<char>,
    exponent: Seq<char>,
)
    requires
        all_digits(whole),
        whole[0] != '0' || whole.len() == 1,
        all_digits(fraction),
        all_digits(exponent),
    ensures
        is_number(whole),
        is_number(seq!['-'] + whole),
        is_number(whole + (seq!['.'] + fraction)),
        is_number(whole + (seq!['e', '-'] + exponent)),
        is_number(whole + (seq!['E', '+'] + exponent)),
        is_number(whole + (seq!['.'] + (fraction + (seq!['e'] + exponent)))),
{
    lemma_whole_is_skipped(whole, Seq::empty());
    assert(whole + Seq::empty() =~= whole);
    assert(48 <= whole[0] as int <= 57 && 48 <= fraction[0] as int <= 57);
    assert(48 <= exponent[0] as int <= 57);
    assert((seq!['-'] + whole).skip(1) =~= whole);
    let point = seq!['.'] + fraction;
    lemma_whole_is_skipped(whole, point);
    assert(point.skip(1) =~= fraction + Seq::empty());
    assert(fraction + Seq::empty() =~= fraction);
    lemma_digits_are_skipped(fraction, Seq::empty());
    let minus = seq!['e', '-'] + exponent;
    lemma_whole_is_skipped(whole, minus);
    assert(minus.skip(1).skip(1) =~= exponent);
    assert(exponent + Seq::empty() =~= exponent);
    lemma_digits_are_skipped(exponent, Seq::empty());
    let plus = seq!['E', '+'] + exponent;
    lemma_whole_is_skipped(whole, plus);
    assert(plus.skip(1).skip(1) =~= exponent);
    let bare = seq!['e'] + exponent;
    assert(bare.skip(1) =~= exponent);
    let both = seq!['.'] + (fraction + bare);
    lemma_whole_is_skipped(whole, both);
    assert(both.skip(1) =~= fraction + bare);
    lemma_digits_are_skipped(fraction, bare);
}

proof fn lemma_whole_is_skipped(whole: Seq<char>, left: Seq<char>)
    requires
        all_digits(whole),
        whole[0] != '0' || whole.len() == 1,
        !next_is_digit(left),
    ensures
        after_whole(whole + left) == Some(left),
        !next_is(whole + left, '-'),
{
    assert(48 <= whole[0] as int <= 57);
    if whole[0] == '0' {
        assert((whole + left).skip(1) =~= left);
    } else {
        lemma_digits_are_skipped(whole, left);
    }
}

/// A number starts with a digit or a sign before one, and no digit follows a leading zero.
pub proof fn law_numbers_start_with_a_digit(word: Seq<char>)
    requires
        is_number(word),
    ensures
        word.len() > 0,
        48 <= word[0] as int <= 57 || (word[0] == '-' && word.len() > 1 && 48 <= word[1] as int
            <= 57),
        word[0] == '0' && word.len() > 1 ==> !(48 <= word[1] as int <= 57),
{
}

/// Only an object is read as arguments: behind white space it opens with a brace, and behind
/// white space again comes the name of a member.
pub proof fn law_arguments_are_an_object(text: Seq<char>)
    requires
        read_arguments(text) is Some,
    ensures
        exists|opening: int, member: int|
            #![trigger text[opening], text[member]]
            0 <= opening < member < text.len() && text[opening] == '{' && text[member] == '"'
                && all_space(text.take(opening)) && all_space(text.subrange(opening + 1, member)),
{
    lemma_space_splits(text);
    let brace = after_space(text);
    let opening = text.len() - brace.len();
    lemma_space_splits(brace.skip(1));
    let inside = after_space(brace.skip(1));
    let member = text.len() - inside.len();
    assert(text[opening] == brace[0]);
    assert(text[member] == inside[0]);
    assert(text.subrange(opening + 1, member) =~= brace.skip(1).take(
        brace.skip(1).len() - inside.len(),
    ));
}

proof fn lemma_space_splits(text: Seq<char>)
    ensures
        after_space(text).len() <= text.len(),
        after_space(text) == text.skip(text.len() - after_space(text).len()),
        all_space(text.take(text.len() - after_space(text).len())),
    decreases text.len(),
{
    if text.len() > 0 && is_space(text[0]) {
        lemma_space_splits(text.skip(1));
        let n = text.len() - after_space(text).len();
        assert(after_space(text) =~= text.skip(n));
        assert forall|i: int| 0 <= i < n implies (#[trigger] text.take(n)[i] == ' ' || text.take(
            n,
        )[i] == '\n' || text.take(n)[i] == '\r' || text.take(n)[i] == '\t') by {
            if i > 0 {
                assert(text.skip(1).take(n - 1)[i - 1] == text.take(n)[i]);
            }
        }
    }
}

/// A word that is null or a number may stand for any member but the two known ones, and neither
/// for the cell nor for whether to end it. Any other word but true and false is refused.
pub proof fn law_words_are_null_or_numbers(cell_id: Seq<char>, name: Seq<char>, word: Seq<char>)
    requires
        forall|i: int| 0 <= i < word.len() ==> is_word_char(#[trigger] word[i]),
        word != "true"@,
        word != "false"@,
    ensures
        ({
            let only = string_text("cell_id"@) + seq![':'] + (string_text(cell_id) + seq!['}']);
            let read = read_arguments(
                seq!['{'] + (string_text(name) + seq![':'] + (word + (seq![','] + only))),
            );
            &&& name == "cell_id"@ || name == "terminate"@ ==> read is None
            &&& word != "null"@ && !is_number(word) ==> read is None
            &&& name != "cell_id"@ && name != "terminate"@ && (word == "null"@ || is_number(word))
                ==> read == Some((cell_id, false))
        }),
{
    lemma_names_differ();
    let only = string_text("cell_id"@) + seq![':'] + (string_text(cell_id) + seq!['}']);
    let comma = seq![','] + only;
    let value = word + comma;
    let first = string_text(name) + seq![':'] + value;
    lemma_only_cell_is_read(cell_id);
    assert(comma.skip(1) =~= only);
    lemma_read_name(name, value);
    lemma_read_whole_word(word, comma);
    if word.len() > 0 {
        assert(value[0] == word[0] && is_word_char(word[0]));
    } else {
        assert(value =~= comma);
    }
    assert(first[0] == '"');
    lemma_object_of(first);
    if name != "cell_id"@ && name != "terminate"@ && (word == "null"@ || is_number(word)) {
        assert(read_member(first) == Some((name, ScalarView::Other, comma)));
        assert(read_members(first, nothing_read()) == read_members(only, nothing_read()));
    }
}

} // verus!
