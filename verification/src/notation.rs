//! Positions as text: a move is written `x y`, two decimal numbers with one
//! blank between them.

use vstd::prelude::*;
use vstd::string::StringExecFns;

use crate::text::{decimal, digit_text};
use crate::Position;

verus! {

/// What `str::trim` makes of a text: the text without the white space at its
/// two ends, white space being what Unicode calls so.
pub uninterp spec fn trimmed(text: Seq<char>) -> Seq<char>;

/// `str::trim` of the standard library; its result is `trimmed` of the text.
#[verifier::external_body]
fn trim(text: &str) -> (inner: &str)
    ensures
        inner@ == trimmed(text@),
{
    text.trim()
}

/// The value of a decimal digit.
pub open spec fn digit_of(c: char) -> Option<nat> {
    if '0' <= c <= '9' {
        Some((c as nat - '0' as nat) as nat)
    } else {
        None
    }
}

/// Every character of `text` is a decimal digit.
pub open spec fn all_digits(text: Seq<char>) -> bool {
    forall|i: int| 0 <= i < text.len() ==> (#[trigger] digit_of(text[i])) is Some
}

/// The number that the decimal digits `text` write.
pub open spec fn digits_value(text: Seq<char>) -> nat
    decreases text.len(),
{
    if text.len() == 0 {
        0
    } else {
        10 * digits_value(text.drop_last()) + digit_of(text.last()).unwrap_or(0)
    }
}

/// The digits of a number text: the text without a leading `+`.
pub open spec fn digits_part(text: Seq<char>) -> Seq<char> {
    if text.len() > 0 && text[0] == '+' {
        text.skip(1)
    } else {
        text
    }
}

/// The number that `text` writes: an optional `+` and then one decimal digit
/// or more, nothing else, and no number beyond `usize::MAX`.
pub open spec fn number_of(text: Seq<char>) -> Option<usize> {
    let digits = digits_part(text);
    if digits.len() > 0 && all_digits(digits) && digits_value(digits) <= usize::MAX {
        Some(digits_value(digits) as usize)
    } else {
        None
    }
}

/// The place of the first blank of `text`.
pub open spec fn first_blank(text: Seq<char>) -> Option<int> {
    if exists|i: int| 0 <= i < text.len() && text[i] == ' ' {
        Some(
            choose|i: int|
                0 <= i < text.len() && text[i] == ' ' && forall|j: int|
                    0 <= j < i ==> text[j] != ' ',
        )
    } else {
        None
    }
}

/// The complaint about a text that is no number.
pub open spec fn cannot_parse(text: Seq<char>) -> Seq<char> {
    "Can't parse value '"@ + text + "'"@
}

/// The complaint about a text without a blank.
pub open spec fn cannot_split(text: Seq<char>) -> Seq<char> {
    "Can't split string '"@ + text + "'"@
}

/// The position that `inner` writes, or the complaint about it: `inner` is
/// split at its first blank, and both parts must be numbers. The complaint
/// about a missing blank quotes `whole`, that about a part that is no number
/// quotes the part, the first part first.
pub open spec fn position_of(inner: Seq<char>, whole: Seq<char>) -> Result<Position, Seq<char>> {
    match first_blank(inner) {
        None => Err(cannot_split(whole)),
        Some(at) => {
            let x_text = inner.take(at);
            let y_text = inner.skip(at + 1);
            match (number_of(x_text), number_of(y_text)) {
                (Some(x), Some(y)) => Ok(Position { x, y }),
                (None, _) => Err(cannot_parse(x_text)),
                (_, None) => Err(cannot_parse(y_text)),
            }
        },
    }
}

/// A result with its complaint as a sequence of characters.
pub open spec fn read_of(result: Result<Position, String>) -> Result<Position, Seq<char>> {
    match result {
        Ok(pos) => Ok(pos),
        Err(complaint) => Err(complaint@),
    }
}

/// Dropping the last digit of a number leaves a number that is not larger.
pub proof fn lemma_digits_value_grows(text: Seq<char>, n: int)
    requires
        0 <= n <= text.len(),
    ensures
        digits_value(text.take(n)) <= digits_value(text),
    decreases text.len(),
{
    if n < text.len() {
        lemma_digits_value_grows(text.drop_last(), n);
        assert(text.drop_last().take(n) =~= text.take(n));
    } else {
        assert(text.take(n) =~= text);
    }
}

/// A digit as text is one character, and that character is the digit.
pub proof fn lemma_digit_text(digit: nat)
    requires
        digit < 10,
    ensures
        digit_text(digit).len() == 1,
        digit_of(digit_text(digit)[0]) == Some(digit),
{
    reveal_strlit("0");
    reveal_strlit("1");
    reveal_strlit("2");
    reveal_strlit("3");
    reveal_strlit("4");
    reveal_strlit("5");
    reveal_strlit("6");
    reveal_strlit("7");
    reveal_strlit("8");
    reveal_strlit("9");
}

/// A number in decimal digits is made of digits, at least one, and they
/// write the number.
pub proof fn lemma_decimal(number: nat)
    ensures
        decimal(number).len() > 0,
        all_digits(decimal(number)),
        digits_value(decimal(number)) == number,
    decreases number,
{
    let text = decimal(number);
    lemma_digit_text(number % 10);
    if number < 10 {
        assert(text.drop_last() =~= Seq::empty());
        assert(digits_value(Seq::empty()) == 0);
    } else {
        lemma_decimal(number / 10);
        assert(text.drop_last() =~= decimal(number / 10));
        assert(text.last() == digit_text(number % 10)[0]);
    }
    assert(digits_value(text) == 10 * digits_value(text.drop_last()) + (number % 10));
}

/// What is written is read back: the decimal digits of a number are a text
/// that writes this number.
pub proof fn lemma_number_is_read_back(number: usize)
    ensures
        number_of(decimal(number as nat)) == Some(number),
{
    lemma_decimal(number as nat);
    assert(digit_of(decimal(number as nat)[0]) is Some);
}

/// Two numbers with one blank between them are read back as the position
/// with these coordinates.
pub proof fn lemma_position_is_read_back(pos: Position, whole: Seq<char>)
    ensures
        position_of(decimal(pos.x as nat) + " "@ + decimal(pos.y as nat), whole) == Ok::<
            Position,
            Seq<char>,
        >(pos),
{
    reveal_strlit(" ");
    let x_text = decimal(pos.x as nat);
    let y_text = decimal(pos.y as nat);
    let text = x_text + " "@ + y_text;
    lemma_decimal(pos.x as nat);
    lemma_number_is_read_back(pos.x);
    lemma_number_is_read_back(pos.y);
    let at = x_text.len() as int;
    assert(text[at] == ' ');
    assert forall|j: int| 0 <= j < at implies text[j] != ' ' by {
        assert(digit_of(x_text[j]) is Some);
    }
    assert(first_blank(text) == Some(at));
    assert(text.take(at) =~= x_text);
    assert(text.skip(at + 1) =~= y_text);
}

/// The place of the first blank of `text`, if it has one.
pub fn find_blank(text: &str) -> (at: Option<usize>)
    ensures
        match at {
            None => first_blank(text@) is None,
            Some(k) => k < text@.len() && first_blank(text@) == Some(k as int),
        },
{
    let len = text.unicode_len();
    let mut i: usize = 0;
    while i < len
        invariant
            len == text@.len(),
            i <= len,
            forall|j: int| 0 <= j < i ==> text@[j] != ' ',
        decreases len - i,
    {
        if text.get_char(i) == ' ' {
            assert(first_blank(text@) == Some(i as int));
            return Some(i);
        }
        i += 1;
    }
    None
}

/// The number that `text` writes, if it writes one.
pub fn parse_number(text: &str) -> (number: Option<usize>)
    ensures
        number == number_of(text@),
{
    let len = text.unicode_len();
    let start: usize = if len > 0 && text.get_char(0) == '+' {
        1
    } else {
        0
    };
    let ghost digits = digits_part(text@);
    if start == len {
        return None;
    }
    let mut value: usize = 0;
    let mut i: usize = start;
    proof {
        assert(digits.take(0) =~= Seq::empty());
    }
    while i < len
        invariant
            len == text@.len(),
            start <= i <= len,
            start <= 1,
            digits == digits_part(text@),
            digits == text@.skip(start as int),
            all_digits(digits.take(i - start)),
            value == digits_value(digits.take(i - start)),
        decreases len - i,
    {
        let c = text.get_char(i);
        let ghost upto = digits.take(i - start + 1);
        proof {
            assert(upto.drop_last() =~= digits.take(i - start));
            assert(upto.last() == c);
        }
        if c < '0' || c > '9' {
            assert(digit_of(digits[i - start]) is None);
            return None;
        }
        let digit: usize = (c as u32 - '0' as u32) as usize;
        if value > (usize::MAX - digit) / 10 {
            proof {
                if all_digits(digits) {
                    lemma_digits_value_grows(digits, i - start + 1);
                }
            }
            return None;
        }
        value = value * 10 + digit;
        i += 1;
        proof {
            assert forall|k: int| 0 <= k < upto.len() implies (#[trigger] digit_of(
                upto[k],
            )) is Some by {
                if k < upto.len() - 1 {
                    assert(upto[k] == digits.take(i - start - 1)[k]);
                }
            }
        }
    }
    proof {
        assert(digits.take(len - start) =~= digits);
    }
    Some(value)
}

/// `text` between two quotes, after `prefix`.
fn complaint(prefix: &str, text: &str) -> (message: String)
    ensures
        message@ == prefix@ + text@ + "'"@,
{
    String::from_str(prefix).concat(text).concat("'")
}

impl Position {
    /// The position that `inner` writes, `inner` being `whole` without the
    /// white space at its ends, or the complaint about it.
    pub fn read(inner: &str, whole: &str) -> (result: Result<Position, String>)
        ensures
            read_of(result) == position_of(inner@, whole@),
    {
        match find_blank(inner) {
            None => Err(complaint("Can't split string '", whole)),
            Some(at) => {
                let len = inner.unicode_len();
                let x_str = inner.substring_char(0, at);
                let y_str = inner.substring_char(at + 1, len);
                let x_res = parse_number(x_str);
                let y_res = parse_number(y_str);
                match (x_res, y_res) {
                    (Some(x), Some(y)) => Ok(Position { x, y }),
                    (None, _) => Err(complaint("Can't parse value '", x_str)),
                    (_, None) => Err(complaint("Can't parse value '", y_str)),
                }
            },
        }
    }

    /// The position that `value` writes as `x y`, white space at the ends of
    /// `value` aside, or the complaint about it.
    pub fn try_from(value: String) -> (result: Result<Position, String>)
        ensures
            read_of(result) == position_of(trimmed(value@), value@),
    {
        Position::read(trim(value.as_str()), value.as_str())
    }
}

} // verus!
