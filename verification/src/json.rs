//! The strings of JSON: reading and writing them.

use vstd::prelude::*;

verus! {

/// White space between the parts of a text.
pub open spec fn is_space(c: char) -> bool {
    c == ' ' || c == '\n' || c == '\r' || c == '\t'
}

/// What is left of `text` behind its leading white space.
pub open spec fn after_space(text: Seq<char>) -> Seq<char>
    decreases text.len(),
{
    if text.len() > 0 && is_space(text[0]) {
        after_space(text.skip(1))
    } else {
        text
    }
}

/// White space is skipped forwards.
pub proof fn lemma_after_space_is_no_longer(text: Seq<char>)
    ensures
        after_space(text).len() <= text.len(),
    decreases text.len(),
{
    if text.len() > 0 && is_space(text[0]) {
        lemma_after_space_is_no_longer(text.skip(1));
    }
}

/// Whether `c` comes next in `text`.
pub open spec fn next_is(text: Seq<char>, c: char) -> bool {
    text.len() > 0 && text[0] == c
}

/// What a hexadecimal digit stands for.
pub open spec fn hex_value(c: char) -> Option<int> {
    if '0' <= c <= '9' {
        Some(c as int - '0' as int)
    } else if 'a' <= c <= 'f' {
        Some(c as int - 'a' as int + 10)
    } else if 'A' <= c <= 'F' {
        Some(c as int - 'A' as int + 10)
    } else {
        None
    }
}

/// The number that the next four hexadecimal digits of `text` stand for.
pub open spec fn code_unit(text: Seq<char>) -> Option<int> {
    if text.len() < 4 {
        None
    } else {
        match (hex_value(text[0]), hex_value(text[1]), hex_value(text[2]), hex_value(text[3])) {
            (Some(a), Some(b), Some(c), Some(d)) => Some(((a * 16 + b) * 16 + c) * 16 + d),
            _ => None,
        }
    }
}

/// The character that a backslash before the letter `c` stands for.
pub open spec fn unescaped(c: char) -> Option<char> {
    if c == '"' || c == '\\' || c == '/' {
        Some(c)
    } else if c == 'b' {
        Some('\u{8}')
    } else if c == 'f' {
        Some('\u{c}')
    } else if c == 'n' {
        Some('\n')
    } else if c == 'r' {
        Some('\r')
    } else if c == 't' {
        Some('\t')
    } else {
        None
    }
}

/// Reads what follows a backslash: the character meant, and what is left of `text` behind it.
/// A character beyond the first plane is written as two code units.
pub open spec fn read_escape(text: Seq<char>) -> Option<(char, Seq<char>)> {
    if text.len() == 0 {
        None
    } else if text[0] == 'u' {
        match code_unit(text.skip(1)) {
            None => None,
            Some(unit) => if 0xd800 <= unit <= 0xdbff {
                if text.len() < 7 || text[5] != '\\' || text[6] != 'u' {
                    None
                } else {
                    match code_unit(text.skip(7)) {
                        Some(low) => if 0xdc00 <= low <= 0xdfff {
                            Some(
                                (
                                    (0x10000 + (unit - 0xd800) * 0x400 + (low - 0xdc00)) as char,
                                    text.skip(11),
                                ),
                            )
                        } else {
                            None
                        },
                        None => None,
                    }
                }
            } else if 0xdc00 <= unit <= 0xdfff {
                None
            } else {
                Some((unit as char, text.skip(5)))
            },
        }
    } else {
        match unescaped(text[0]) {
            Some(c) => Some((c, text.skip(1))),
            None => None,
        }
    }
}

/// A character that a string may hold as it is.
pub open spec fn is_plain(c: char) -> bool {
    c != '"' && c != '\\' && c as u32 >= 0x20
}

/// Reads a string whose opening quote has been read: what it holds, and what is left of `text`
/// behind its closing quote.
pub open spec fn read_string(text: Seq<char>) -> Option<(Seq<char>, Seq<char>)>
    decreases text.len(),
{
    if text.len() == 0 {
        None
    } else if text[0] == '"' {
        Some((Seq::empty(), text.skip(1)))
    } else if text[0] == '\\' {
        match read_escape(text.skip(1)) {
            Some((c, behind)) => match read_string(behind) {
                Some((held, left)) => Some((seq![c] + held, left)),
                None => None,
            },
            None => None,
        }
    } else if is_plain(text[0]) {
        match read_string(text.skip(1)) {
            Some((held, left)) => Some((seq![text[0]] + held, left)),
            None => None,
        }
    } else {
        None
    }
}

/// Reading a string gets on.
pub proof fn lemma_read_string_is_shorter(text: Seq<char>)
    ensures
        read_string(text) matches Some((_, left)) ==> left.len() < text.len(),
    decreases text.len(),
{
    if text.len() > 0 && text[0] == '\\' {
        if let Some((_, behind)) = read_escape(text.skip(1)) {
            lemma_read_string_is_shorter(behind);
        }
    } else if text.len() > 0 {
        lemma_read_string_is_shorter(text.skip(1));
    }
}

/// The characters of `text`.
pub fn characters(text: &str) -> (chars: Vec<char>)
    ensures
        chars@ == text@,
{
    let mut chars: Vec<char> = Vec::new();
    for c in iter: text.chars()
        invariant
            chars@ == iter.seq().take(iter.index() as int),
            iter.seq() == text@,
    {
        chars.push(c);
    }
    chars
}

/// Where the white space from `from` on ends.
pub fn skip_space(chars: &Vec<char>, from: usize) -> (at: usize)
    requires
        from <= chars.len(),
    ensures
        from <= at <= chars.len(),
        chars@.skip(at as int) == after_space(chars@.skip(from as int)),
{
    let mut at: usize = from;
    while at < chars.len() && (chars[at] == ' ' || chars[at] == '\n' || chars[at] == '\r'
        || chars[at] == '\t')
        invariant
            from <= at <= chars.len(),
            after_space(chars@.skip(from as int)) == after_space(chars@.skip(at as int)),
        decreases chars.len() - at,
    {
        assert(chars@.skip(at as int).skip(1) =~= chars@.skip(at + 1));
        at += 1;
    }
    at
}

/// Whether `c` stands at `at`.
pub fn is_next(chars: &Vec<char>, at: usize, c: char) -> (yes: bool)
    requires
        at <= chars.len(),
    ensures
        yes == next_is(chars@.skip(at as int), c),
        yes ==> at < chars.len() && chars@.skip(at as int).skip(1) == chars@.skip(at + 1),
{
    assert(at < chars.len() ==> chars@.skip(at as int).skip(1) =~= chars@.skip(at + 1));
    at < chars.len() && chars[at] == c
}

fn hex_digit_value(c: char) -> (value: Option<u32>)
    ensures
        match value {
            Some(value) => hex_value(c) == Some(value as int) && value < 16,
            None => hex_value(c) is None,
        },
{
    if '0' <= c && c <= '9' {
        Some(c as u32 - '0' as u32)
    } else if 'a' <= c && c <= 'f' {
        Some(c as u32 - 'a' as u32 + 10)
    } else if 'A' <= c && c <= 'F' {
        Some(c as u32 - 'A' as u32 + 10)
    } else {
        None
    }
}

fn code_unit_at(chars: &Vec<char>, from: usize) -> (unit: Option<u32>)
    requires
        from <= chars.len(),
    ensures
        match unit {
            Some(unit) => code_unit(chars@.skip(from as int)) == Some(unit as int) && unit
                <= 0xffff && from + 4 <= chars.len(),
            None => code_unit(chars@.skip(from as int)) is None,
        },
{
    if chars.len() - from < 4 {
        return None;
    }
    match (
        hex_digit_value(chars[from]),
        hex_digit_value(chars[from + 1]),
        hex_digit_value(chars[from + 2]),
        hex_digit_value(chars[from + 3]),
    ) {
        (Some(a), Some(b), Some(c), Some(d)) => Some(((a * 16 + b) * 16 + c) * 16 + d),
        _ => None,
    }
}

fn unescape(c: char) -> (meant: Option<char>)
    ensures
        meant == unescaped(c),
{
    match c {
        '"' => Some('"'),
        '\\' => Some('\\'),
        '/' => Some('/'),
        'b' => Some('\u{8}'),
        'f' => Some('\u{c}'),
        'n' => Some('\n'),
        'r' => Some('\r'),
        't' => Some('\t'),
        _ => None,
    }
}

fn escape_at(chars: &Vec<char>, from: usize) -> (escape: Option<(char, usize)>)
    requires
        from <= chars.len(),
    ensures
        match escape {
            Some((c, at)) => from < at <= chars.len() && read_escape(chars@.skip(from as int))
                == Some((c, chars@.skip(at as int))),
            None => read_escape(chars@.skip(from as int)) is None,
        },
{
    let ghost text = chars@.skip(from as int);
    if from >= chars.len() {
        return None;
    }
    assert(text.skip(1) =~= chars@.skip(from + 1));
    if chars[from] != 'u' {
        return match unescape(chars[from]) {
            Some(c) => Some((c, from + 1)),
            None => None,
        };
    }
    let unit = match code_unit_at(chars, from + 1) {
        Some(unit) => unit,
        None => {
            return None;
        },
    };
    if 0xd800 <= unit && unit <= 0xdbff {
        if chars.len() - from < 7 || chars[from + 5] != '\\' || chars[from + 6] != 'u' {
            return None;
        }
        assert(text.skip(7) =~= chars@.skip(from + 7));
        let low = match code_unit_at(chars, from + 7) {
            Some(low) => low,
            None => {
                return None;
            },
        };
        if low < 0xdc00 || low > 0xdfff {
            return None;
        }
        assert(text.skip(11) =~= chars@.skip(from + 11));
        let code: u32 = 0x10000 + (unit - 0xd800) * 0x400 + (low - 0xdc00);
        match char::from_u32(code) {
            Some(c) => Some((c, from + 11)),
            None => None,
        }
    } else {
        assert(text.skip(5) =~= chars@.skip(from + 5));
        match char::from_u32(unit) {
            Some(c) => Some((c, from + 5)),
            None => None,
        }
    }
}

/// The string whose opening quote stands just before `from`, and where it ends.
pub fn string_at(chars: &Vec<char>, from: usize) -> (string: Option<(String, usize)>)
    requires
        from <= chars.len(),
    ensures
        match string {
            Some((held, at)) => from <= at <= chars.len() && read_string(chars@.skip(from as int))
                == Some((held@, chars@.skip(at as int))),
            None => read_string(chars@.skip(from as int)) is None,
        },
{
    let mut held = String::new();
    let mut at: usize = from;
    while at < chars.len()
        invariant
            from <= at <= chars.len(),
            match read_string(chars@.skip(at as int)) {
                Some((more, left)) => read_string(chars@.skip(from as int)) == Some(
                    (held@ + more, left),
                ),
                None => read_string(chars@.skip(from as int)) is None,
            },
        decreases chars.len() - at,
    {
        let ghost rest = chars@.skip(at as int);
        let ghost so_far = held@;
        let c = chars[at];
        assert(rest.skip(1) =~= chars@.skip(at + 1));
        if c == '"' {
            assert(held@ + Seq::empty() =~= held@);
            return Some((held, at + 1));
        } else if c == '\\' {
            match escape_at(chars, at + 1) {
                Some((meant, behind)) => {
                    held.push(meant);
                    assert(read_string(chars@.skip(behind as int)) matches Some((more, _))
                        ==> so_far + (seq![meant] + more) =~= held@ + more);
                    at = behind;
                },
                None => {
                    return None;
                },
            }
        } else if c as u32 >= 0x20 {
            held.push(c);
            assert(read_string(rest.skip(1)) matches Some((more, _)) ==> so_far + (seq![c] + more)
                =~= held@ + more);
            at += 1;
        } else {
            return None;
        }
    }
    None
}

/// The hexadecimal digit for `value`.
pub open spec fn hex_digit(value: int) -> char {
    if value < 10 {
        ('0' as int + value) as char
    } else {
        ('a' as int + value - 10) as char
    }
}

/// How a string writes `c`.
pub open spec fn escaped(c: char) -> Seq<char> {
    if c == '"' || c == '\\' {
        seq!['\\', c]
    } else if c == '\n' {
        seq!['\\', 'n']
    } else if c == '\r' {
        seq!['\\', 'r']
    } else if c == '\t' {
        seq!['\\', 't']
    } else if (c as int) < 0x20 {
        seq!['\\', 'u', '0', '0', hex_digit(c as int / 16), hex_digit(c as int % 16)]
    } else {
        seq![c]
    }
}

/// How a string writes what it holds.
pub open spec fn string_body(held: Seq<char>) -> Seq<char>
    decreases held.len(),
{
    if held.len() == 0 {
        Seq::empty()
    } else {
        escaped(held[0]) + string_body(held.skip(1))
    }
}

/// The string that holds `held`, in its quotes.
pub open spec fn string_text(held: Seq<char>) -> Seq<char> {
    seq!['"'] + string_body(held) + seq!['"']
}

fn push_hex_digit(out: &mut String, value: u32)
    requires
        value < 16,
    ensures
        final(out)@ == old(out)@.push(hex_digit(value as int)),
{
    let digit = match value {
        0 => '0',
        1 => '1',
        2 => '2',
        3 => '3',
        4 => '4',
        5 => '5',
        6 => '6',
        7 => '7',
        8 => '8',
        9 => '9',
        10 => 'a',
        11 => 'b',
        12 => 'c',
        13 => 'd',
        14 => 'e',
        _ => 'f',
    };
    out.push(digit);
}

fn push_escaped(out: &mut String, c: char)
    ensures
        final(out)@ == old(out)@ + escaped(c),
{
    if c == '"' || c == '\\' {
        out.push('\\');
        out.push(c);
    } else if c == '\n' {
        out.push('\\');
        out.push('n');
    } else if c == '\r' {
        out.push('\\');
        out.push('r');
    } else if c == '\t' {
        out.push('\\');
        out.push('t');
    } else if (c as u32) < 0x20 {
        out.push('\\');
        out.push('u');
        out.push('0');
        out.push('0');
        push_hex_digit(out, c as u32 / 16);
        push_hex_digit(out, c as u32 % 16);
    } else {
        out.push(c);
    }
    assert(out@ =~= old(out)@ + escaped(c));
}

/// Writes the string that holds `text` behind what is written already.
pub fn push_string(out: &mut String, text: &str)
    ensures
        final(out)@ == old(out)@ + string_text(text@),
{
    let ghost before = out@;
    let chars = characters(text);
    out.push('"');
    let mut at: usize = 0;
    assert(chars@.skip(0) =~= text@);
    while at < chars.len()
        invariant
            at <= chars.len(),
            out@ + string_body(chars@.skip(at as int)) == before.push('"') + string_body(text@),
        decreases chars.len() - at,
    {
        let ghost so_far = out@;
        let c = chars[at];
        assert(chars@.skip(at as int).skip(1) =~= chars@.skip(at + 1));
        push_escaped(out, c);
        assert(so_far + (escaped(c) + string_body(chars@.skip(at + 1))) =~= out@ + string_body(
            chars@.skip(at + 1),
        ));
        at += 1;
    }
    assert(out@ + Seq::empty() =~= out@);
    out.push('"');
    assert(out@ =~= before + string_text(text@));
}

/// A string that was written is read back, whatever it holds.
pub proof fn law_strings_are_read_back(held: Seq<char>, left: Seq<char>)
    ensures
        read_string((string_text(held) + left).skip(1)) == Some((held, left)),
{
    lemma_body_is_read_back(held, left);
    assert((string_text(held) + left).skip(1) =~= string_body(held) + seq!['"'] + left);
}

proof fn lemma_escape_is_read_back(c: char, left: Seq<char>)
    ensures
        ({
            let text = escaped(c) + left;
            if is_plain(c) {
                text[0] == c && text.skip(1) == left
            } else {
                text[0] == '\\' && read_escape(text.skip(1)) == Some((c, left))
            }
        }),
{
    let text = escaped(c) + left;
    if is_plain(c) {
        assert(text.skip(1) =~= left);
    } else if escaped(c).len() == 2 {
        assert(text.skip(1).skip(1) =~= left);
    } else {
        let high = c as int / 16;
        let low = c as int % 16;
        assert(hex_value(hex_digit(high)) == Some(high));
        assert(hex_value(hex_digit(low)) == Some(low));
        assert(hex_value('0') == Some(0int));
        let digits = text.skip(1).skip(1);
        assert(digits[0] == '0' && digits[1] == '0');
        assert(digits[2] == hex_digit(high) && digits[3] == hex_digit(low));
        assert(code_unit(digits) == Some(c as int));
        assert(text.skip(1).skip(5) =~= left);
    }
}

proof fn lemma_body_is_read_back(held: Seq<char>, left: Seq<char>)
    ensures
        read_string(string_body(held) + seq!['"'] + left) == Some((held, left)),
    decreases held.len(),
{
    let text = string_body(held) + seq!['"'] + left;
    if held.len() == 0 {
        assert(text.skip(1) =~= left);
        assert(held =~= Seq::empty());
    } else {
        let rest = string_body(held.skip(1)) + seq!['"'] + left;
        lemma_body_is_read_back(held.skip(1), left);
        assert(text =~= escaped(held[0]) + rest);
        lemma_escape_is_read_back(held[0], rest);
        assert(seq![held[0]] + held.skip(1) =~= held);
    }
}

/// A string whose characters need no escape is written as it is, in quotes.
pub proof fn law_plain_strings_are_written_as_they_are(held: Seq<char>)
    requires
        forall|i: int|
            0 <= i < held.len() ==> {
                let c = #[trigger] held[i];
                c != '"' && c != '\\' && c as int >= 32
            },
    ensures
        string_text(held) == seq!['"'] + held + seq!['"'],
{
    lemma_plain_body(held);
}

proof fn lemma_plain_body(held: Seq<char>)
    requires
        forall|i: int|
            0 <= i < held.len() ==> {
                let c = #[trigger] held[i];
                c != '"' && c != '\\' && c as int >= 32
            },
    ensures
        string_body(held) == held,
    decreases held.len(),
{
    if held.len() == 0 {
        assert(held =~= Seq::empty());
    } else {
        assert(held[0] != '"' && held[0] != '\\' && held[0] as int >= 32);
        assert forall|i: int| 0 <= i < held.skip(1).len() implies {
            let c = #[trigger] held.skip(1)[i];
            c != '"' && c != '\\' && c as int >= 32
        } by {
            assert(held.skip(1)[i] == held[i + 1]);
        }
        lemma_plain_body(held.skip(1));
        assert(seq![held[0]] + held.skip(1) =~= held);
    }
}

/// Strings are written one character after the other, and what is written holds no control
/// character, so that a line that holds strings is one line.
pub proof fn law_written_strings_stay_on_one_line(mine: Seq<char>, theirs: Seq<char>)
    ensures
        string_body(mine + theirs) == string_body(mine) + string_body(theirs),
        forall|i: int|
            0 <= i < string_text(mine).len() ==> #[trigger] string_text(mine)[i] as int >= 32,
    decreases mine.len(),
{
    if mine.len() == 0 {
        assert(mine + theirs =~= theirs);
        assert(string_body(mine) + string_body(theirs) =~= string_body(theirs));
    } else {
        law_written_strings_stay_on_one_line(mine.skip(1), theirs);
        assert((mine + theirs).skip(1) =~= mine.skip(1) + theirs);
        assert(string_body(mine + theirs) =~= string_body(mine) + string_body(theirs));
        let rest = string_text(mine.skip(1));
        let text = string_text(mine);
        let first = escaped(mine[0]);
        lemma_escapes_are_printable(mine[0]);
        assert forall|i: int| 0 <= i < text.len() implies #[trigger] text[i] as int >= 32 by {
            if 1 <= i && i <= first.len() {
                assert(text[i] == first[i - 1]);
            } else if i > first.len() {
                assert(text[i] == rest[i - first.len()]);
            }
        }
    }
}

proof fn lemma_escapes_are_printable(c: char)
    ensures
        forall|i: int| 0 <= i < escaped(c).len() ==> #[trigger] escaped(c)[i] as int >= 32,
{
}

/// A backslash and a letter stand for one character: quotes, backslashes and slashes for
/// themselves, and five letters for control characters. No other letter but `u` may follow one.
pub proof fn law_letters_escape_one_character(letter: char, left: Seq<char>)
    requires
        letter != 'u',
    ensures
        ({
            let read = read_string(seq!['\\', letter] + seq!['"'] + left);
            let meant = |c: char| Some((seq![c], left));
            &&& letter == '"' || letter == '\\' || letter == '/' ==> read == meant(letter)
            &&& letter == 'b' ==> read == meant('\u{8}')
            &&& letter == 'f' ==> read == meant('\u{c}')
            &&& letter == 'n' ==> read == meant('\n')
            &&& letter == 'r' ==> read == meant('\r')
            &&& letter == 't' ==> read == meant('\t')
            &&& letter != '"' && letter != '\\' && letter != '/' && letter != 'b' && letter != 'f'
                && letter != 'n' && letter != 'r' && letter != 't' ==> read is None
        }),
{
    let text = seq!['\\', letter] + seq!['"'] + left;
    assert(text.skip(1).skip(1) =~= seq!['"'] + left);
    assert((seq!['"'] + left).skip(1) =~= left);
    assert(text.skip(1)[0] == letter);
    assert(read_string(seq!['"'] + left) == Some((Seq::<char>::empty(), left)));
    if let Some(c) = unescaped(letter) {
        assert(seq![c] + Seq::<char>::empty() =~= seq![c]);
    }
}

/// Four hexadecimal digits behind `\u` stand for the character with that code; two such groups
/// stand for one character beyond the first plane, and half of such a pair for nothing.
pub proof fn law_codes_escape_one_character(digits: Seq<char>, left: Seq<char>, code: int)
    requires
        digits.len() == 4,
        code == 4096 * digit_value(digits[0]) + 256 * digit_value(digits[1]) + 16 * digit_value(
            digits[2],
        ) + digit_value(digits[3]),
        forall|i: int| 0 <= i < 4 ==> is_digit(#[trigger] digits[i]),
    ensures
        code < 0xd800 || 0xe000 <= code ==> read_string(
            seq!['\\', 'u'] + digits + (seq!['"'] + left),
        ) == Some((seq![code as char], left)),
        0xd800 <= code <= 0xdfff ==> read_string(
            seq!['\\', 'u'] + digits + (seq!['"'] + left),
        ) is None,
{
    let end = seq!['"'] + left;
    let text = seq!['\\', 'u'] + digits + end;
    let escape = text.skip(1);
    assert(escape.skip(1).len() >= 4);
    assert forall|i: int| 0 <= i < 4 implies #[trigger] escape.skip(1)[i] == digits[i] by {}
    assert(hex_value(digits[0]) == Some(digit_value(digits[0])) && is_digit(digits[0]));
    assert(hex_value(digits[1]) == Some(digit_value(digits[1])) && is_digit(digits[1]));
    assert(hex_value(digits[2]) == Some(digit_value(digits[2])) && is_digit(digits[2]));
    assert(hex_value(digits[3]) == Some(digit_value(digits[3])) && is_digit(digits[3]));
    assert(code_unit(escape.skip(1)) == Some(code));
    assert(escape.skip(5) =~= end);
    assert(end.skip(1) =~= left);
    assert(read_string(end) == Some((Seq::<char>::empty(), left)));
    if escape.len() >= 7 && 0xd800 <= code <= 0xdbff {
        assert(escape[5] == '"');
    }
    assert(seq![code as char] + Seq::<char>::empty() =~= seq![code as char]);
}

/// Two groups of digits, a high and a low surrogate, stand for the one character that they
/// encode.
pub proof fn law_pairs_escape_one_character(
    high: Seq<char>,
    low: Seq<char>,
    left: Seq<char>,
    first: int,
    second: int,
)
    requires
        high.len() == 4,
        low.len() == 4,
        forall|i: int| 0 <= i < 4 ==> is_digit(#[trigger] high[i]),
        forall|i: int| 0 <= i < 4 ==> is_digit(#[trigger] low[i]),
        first == 4096 * digit_value(high[0]) + 256 * digit_value(high[1]) + 16 * digit_value(
            high[2],
        ) + digit_value(high[3]),
        second == 4096 * digit_value(low[0]) + 256 * digit_value(low[1]) + 16 * digit_value(low[2])
            + digit_value(low[3]),
        0xd800 <= first < 0xdc00,
        0xdc00 <= second < 0xe000,
    ensures
        read_string(seq!['\\', 'u'] + high + (seq!['\\', 'u'] + low + (seq!['"'] + left))) == Some(
            (seq![(65536 + (first - 55296) * 1024 + (second - 56320)) as char], left),
        ),
{
    let end = seq!['"'] + left;
    let text = seq!['\\', 'u'] + high + (seq!['\\', 'u'] + low + end);
    let escape = text.skip(1);
    assert forall|i: int| 0 <= i < 4 implies #[trigger] escape.skip(1)[i] == high[i] by {}
    assert forall|i: int| 0 <= i < 4 implies #[trigger] escape.skip(7)[i] == low[i] by {}
    assert(is_digit(high[0]) && is_digit(high[1]) && is_digit(high[2]) && is_digit(high[3]));
    assert(is_digit(low[0]) && is_digit(low[1]) && is_digit(low[2]) && is_digit(low[3]));
    assert(code_unit(escape.skip(1)) == Some(first));
    assert(code_unit(escape.skip(7)) == Some(second));
    assert(escape[5] == '\\' && escape[6] == 'u');
    assert(escape.skip(11) =~= end);
    assert(end.skip(1) =~= left);
    assert(read_string(end) == Some((Seq::<char>::empty(), left)));
    let c = (65536 + (first - 55296) * 1024 + (second - 56320)) as char;
    assert(seq![c] + Seq::<char>::empty() =~= seq![c]);
}

/// One of the digits `0` to `9`, `a` to `f` and `A` to `F`.
pub open spec fn is_digit(c: char) -> bool {
    48 <= c as int <= 57 || 97 <= c as int <= 102 || 65 <= c as int <= 70
}

/// What such a digit counts.
pub open spec fn digit_value(c: char) -> int {
    if c as int <= 57 {
        c as int - 48
    } else if c as int <= 70 {
        c as int - 55
    } else {
        c as int - 87
    }
}

/// A string holds its plain characters as they are, cannot hold a control character as it is,
/// and has to end.
pub proof fn law_strings_hold_plain_characters(c: char, rest: Seq<char>)
    requires
        c != '"',
        c != '\\',
    ensures
        (c as int) < 32 ==> read_string(seq![c] + rest) is None,
        c as int >= 32 && read_string(rest) is None ==> read_string(seq![c] + rest) is None,
        c as int >= 32 && read_string(rest) is Some ==> read_string(seq![c] + rest) == Some(
            (seq![c] + read_string(rest)->Some_0.0, read_string(rest)->Some_0.1),
        ),
        read_string(Seq::<char>::empty()) is None,
{
    assert((seq![c] + rest).skip(1) =~= rest);
}

/// A written string is put behind what was there, and reading finds the string at its place.
pub proof fn law_strings_are_found_where_they_stand(
    out: &mut String,
    text: &str,
    chars: Vec<char>,
    from: usize,
    string: Option<(String, usize)>,
)
    requires
        call_ensures(push_string, (out, text), ()),
        call_ensures(string_at, (&chars, from), string),
    ensures
        final(out)@ == old(out)@ + string_text(text@),
        forall|held: Seq<char>, left: Seq<char>|
            #![trigger string_body(held), seq!['"'] + left]
            from <= chars.len() && chars@.skip(from as int) == string_body(held) + (seq!['"']
                + left) ==> {
                &&& string matches Some((read, at))
                &&& read@ == held
                &&& chars@.skip(at as int) == left
            },
{
    assert forall|held: Seq<char>, left: Seq<char>|
        #![trigger string_body(held), seq!['"'] + left]
        from <= chars.len() && chars@.skip(from as int) == string_body(held) + (seq!['"']
            + left) implies {
        &&& string matches Some((read, at))
        &&& read@ == held
        &&& chars@.skip(at as int) == left
    } by {
        lemma_body_is_read_back(held, left);
        assert(string_body(held) + seq!['"'] + left =~= string_body(held) + (seq!['"'] + left));
    }
}

proof fn lemma_escape_goes_on(text: Seq<char>, more: Seq<char>)
    ensures
        read_escape(text) matches Some((c, left)) ==> read_escape(text + more) == Some(
            (c, left + more),
        ),
{
    let longer = text + more;
    if let Some((c, left)) = read_escape(text) {
        if text[0] == 'u' {
            assert(text.skip(1) + more =~= longer.skip(1));
            assert forall|i: int| 0 <= i < 4 implies #[trigger] longer.skip(1)[i] == text.skip(
                1,
            )[i] by {}
            assert(code_unit(longer.skip(1)) == code_unit(text.skip(1)));
            let unit = code_unit(text.skip(1))->Some_0;
            if 0xd800 <= unit <= 0xdbff {
                assert forall|i: int| 0 <= i < 4 implies #[trigger] longer.skip(7)[i] == text.skip(
                    7,
                )[i] by {}
                assert(code_unit(longer.skip(7)) == code_unit(text.skip(7)));
                assert(longer.skip(11) =~= text.skip(11) + more);
            } else {
                assert(longer.skip(5) =~= text.skip(5) + more);
            }
        } else {
            assert(longer.skip(1) =~= text.skip(1) + more);
        }
    }
}

/// What stands behind a string makes no difference to it.
pub proof fn law_strings_end_at_their_quote(text: Seq<char>, more: Seq<char>)
    ensures
        read_string(text) matches Some((held, left)) ==> read_string(text + more) == Some(
            (held, left + more),
        ),
    decreases text.len(),
{
    let longer = text + more;
    if text.len() > 0 {
        assert(longer.skip(1) =~= text.skip(1) + more);
        if text[0] == '\\' {
            lemma_escape_goes_on(text.skip(1), more);
            if let Some((_, behind)) = read_escape(text.skip(1)) {
                law_strings_end_at_their_quote(behind, more);
            }
        } else {
            law_strings_end_at_their_quote(text.skip(1), more);
        }
    }
}

/// How many lines end in `text`.
pub open spec fn line_ends(text: Seq<char>) -> nat
    decreases text.len(),
{
    if text.len() == 0 {
        0
    } else {
        line_ends(text.skip(1)) + if text[0] as int == 10 {
            1nat
        } else {
            0nat
        }
    }
}

/// Line ends are counted piece by piece.
pub proof fn lemma_line_ends_add_up(mine: Seq<char>, theirs: Seq<char>)
    ensures
        line_ends(mine + theirs) == line_ends(mine) + line_ends(theirs),
    decreases mine.len(),
{
    if mine.len() == 0 {
        assert(mine + theirs =~= theirs);
    } else {
        assert((mine + theirs).skip(1) =~= mine.skip(1) + theirs);
        lemma_line_ends_add_up(mine.skip(1), theirs);
    }
}

/// A text without line ends has none.
pub proof fn lemma_no_line_ends(text: Seq<char>)
    requires
        forall|i: int| 0 <= i < text.len() ==> #[trigger] text[i] as int != 10,
    ensures
        line_ends(text) == 0,
    decreases text.len(),
{
    if text.len() > 0 {
        assert(text[0] as int != 10);
        assert forall|i: int| 0 <= i < text.skip(1).len() implies #[trigger] text.skip(1)[i] as int
            != 10 by {
            assert(text.skip(1)[i] == text[i + 1]);
        }
        lemma_no_line_ends(text.skip(1));
    }
}

proof fn lemma_digits_end_no_line(c: char)
    ensures
        hex_value(c) is Some ==> c as int != 10,
        unescaped(c) is Some ==> c as int != 10,
        is_plain(c) ==> c as int != 10,
{
}

proof fn lemma_skipped_line_ends(text: Seq<char>, n: int)
    requires
        0 <= n <= text.len(),
        forall|i: int| 0 <= i < n ==> #[trigger] text[i] as int != 10,
    ensures
        line_ends(text.skip(n)) == line_ends(text),
{
    assert(text =~= text.take(n) + text.skip(n));
    lemma_line_ends_add_up(text.take(n), text.skip(n));
    assert forall|i: int| 0 <= i < text.take(n).len() implies #[trigger] text.take(n)[i] as int
        != 10 by {
        assert(text.take(n)[i] == text[i]);
    }
    lemma_no_line_ends(text.take(n));
}

proof fn lemma_escapes_end_no_line(text: Seq<char>)
    ensures
        read_escape(text) matches Some((_, left)) ==> line_ends(left) == line_ends(text),
{
    if let Some((_, left)) = read_escape(text) {
        lemma_digits_end_no_line(text[0]);
        if text[0] == 'u' {
            let digits = text.skip(1);
            lemma_digits_end_no_line(digits[0]);
            lemma_digits_end_no_line(digits[1]);
            lemma_digits_end_no_line(digits[2]);
            lemma_digits_end_no_line(digits[3]);
            assert forall|i: int| 0 <= i < 5 implies #[trigger] text[i] as int != 10 by {
                if i > 0 {
                    assert(text[i] == digits[i - 1]);
                }
            }
            let unit = code_unit(digits)->Some_0;
            if 0xd800 <= unit <= 0xdbff {
                let low = text.skip(7);
                lemma_digits_end_no_line(low[0]);
                lemma_digits_end_no_line(low[1]);
                lemma_digits_end_no_line(low[2]);
                lemma_digits_end_no_line(low[3]);
                assert forall|i: int| 0 <= i < 11 implies #[trigger] text[i] as int != 10 by {
                    if i >= 7 {
                        assert(text[i] == low[i - 7]);
                    }
                }
                lemma_skipped_line_ends(text, 11);
            } else {
                lemma_skipped_line_ends(text, 5);
            }
        } else {
            lemma_skipped_line_ends(text, 1);
        }
    }
}

/// No line ends within a string.
pub proof fn law_no_line_ends_within_a_string(text: Seq<char>)
    ensures
        read_string(text) matches Some((_, left)) ==> line_ends(left) == line_ends(text),
    decreases text.len(),
{
    if text.len() > 0 {
        lemma_digits_end_no_line(text[0]);
        if text[0] == '\\' {
            lemma_escapes_end_no_line(text.skip(1));
            if let Some((_, behind)) = read_escape(text.skip(1)) {
                law_no_line_ends_within_a_string(behind);
            }
        } else {
            law_no_line_ends_within_a_string(text.skip(1));
        }
    }
}

/// What is left behind a string is the end of the text that it was read from.
pub proof fn law_strings_leave_what_follows(text: Seq<char>)
    ensures
        read_string(text) matches Some((_, left)) ==> {
            &&& left.len() < text.len()
            &&& left == text.skip(text.len() - left.len())
            &&& left.len() > 0 ==> left.last() == text.last()
        },
    decreases text.len(),
{
    lemma_read_string_is_shorter(text);
    if text.len() > 0 {
        if text[0] == '\\' {
            if let Some((_, behind)) = read_escape(text.skip(1)) {
                law_strings_leave_what_follows(behind);
                if let Some((_, left)) = read_string(behind) {
                    assert(behind =~= text.skip(text.len() - behind.len()));
                    assert(left =~= text.skip(text.len() - left.len()));
                }
            }
        } else {
            law_strings_leave_what_follows(text.skip(1));
            if let Some((_, left)) = read_string(text) {
                assert(left =~= text.skip(text.len() - left.len()));
            }
        }
    }
}

/// A text is taken apart into its characters, in their order.
pub proof fn law_texts_are_taken_apart(text: &str, chars: Vec<char>)
    requires
        call_ensures(characters, (text,), chars),
    ensures
        chars@.len() == text@.len(),
        forall|i: int| 0 <= i < chars@.len() ==> #[trigger] chars@[i] == text@[i],
{
}

/// White space is skipped up to the first other character.
pub proof fn law_space_is_skipped(chars: Vec<char>, from: usize, at: usize)
    requires
        from <= chars.len(),
        call_ensures(skip_space, (&chars, from), at),
    ensures
        from <= at <= chars.len(),
        forall|i: int|
            from <= i < at ==> (#[trigger] chars@[i] == ' ' || chars@[i] == '\n' || chars@[i]
                == '\r' || chars@[i] == '\t'),
        at < chars.len() ==> chars@[at as int] != ' ' && chars@[at as int] != '\n' && chars@[at as int]
            != '\r' && chars@[at as int] != '\t',
{
    lemma_space_before(chars@.skip(from as int));
    let rest = chars@.skip(from as int);
    assert(after_space(rest).len() == chars.len() - at);
    assert forall|i: int| from <= i < at implies (#[trigger] chars@[i] == ' ' || chars@[i] == '\n'
        || chars@[i] == '\r' || chars@[i] == '\t') by {
        assert(rest[i - from] == chars@[i]);
    }
    if at < chars.len() {
        assert(chars@.skip(at as int)[0] == chars@[at as int]);
    }
}

proof fn lemma_space_before(text: Seq<char>)
    ensures
        after_space(text).len() <= text.len(),
        forall|i: int|
            0 <= i < text.len() - after_space(text).len() ==> (#[trigger] text[i] == ' ' || text[i]
                == '\n' || text[i] == '\r' || text[i] == '\t'),
        after_space(text).len() > 0 ==> after_space(text)[0] != ' ' && after_space(text)[0] != '\n'
            && after_space(text)[0] != '\r' && after_space(text)[0] != '\t',
    decreases text.len(),
{
    if text.len() > 0 && is_space(text[0]) {
        lemma_space_before(text.skip(1));
        assert forall|i: int| 0 <= i < text.len() - after_space(text).len() implies (
        #[trigger] text[i] == ' ' || text[i] == '\n' || text[i] == '\r' || text[i] == '\t') by {
            if i > 0 {
                assert(text.skip(1)[i - 1] == text[i]);
            }
        }
    }
}

/// A character is next exactly if it stands there.
pub proof fn law_next_characters_stand_there(chars: Vec<char>, at: usize, c: char, yes: bool)
    requires
        at <= chars.len(),
        call_ensures(is_next, (&chars, at, c), yes),
    ensures
        yes <==> at < chars.len() && chars@[at as int] == c,
{
    if at < chars.len() {
        assert(chars@.skip(at as int)[0] == chars@[at as int]);
    }
}

} // verus!
