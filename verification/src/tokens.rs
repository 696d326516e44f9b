//! The tokens of a PDF file.
//!
//! What is said of a token here holds of every place in a file, whether a token starts there or not.

use vstd::prelude::*;

verus! {

/// The highest number that can be an object number. Numbers above it are not told apart.
pub const MAX_NUMBER: u64 = 0xffff_ffff;

pub const NUMBER_SIGN: u8 = 0x23;

pub const PERCENT: u8 = 0x25;

pub const ROUND_OPEN: u8 = 0x28;

pub const ROUND_CLOSE: u8 = 0x29;

pub const PLUS: u8 = 0x2b;

pub const MINUS: u8 = 0x2d;

pub const POINT: u8 = 0x2e;

pub const SLASH: u8 = 0x2f;

pub const DIGIT_ZERO: u8 = 0x30;

pub const DIGIT_NINE: u8 = 0x39;

pub const LESS: u8 = 0x3c;

pub const GREATER: u8 = 0x3e;

pub const UPPER_A: u8 = 0x41;

pub const UPPER_F: u8 = 0x46;

pub const UPPER_R: u8 = 0x52;

pub const SQUARE_OPEN: u8 = 0x5b;

pub const BACKSLASH: u8 = 0x5c;

pub const SQUARE_CLOSE: u8 = 0x5d;

pub const LOWER_A: u8 = 0x61;

pub const LOWER_F: u8 = 0x66;

pub const CURLY_OPEN: u8 = 0x7b;

pub const CURLY_CLOSE: u8 = 0x7d;

/// Whether a byte is white space.
pub open spec fn is_space(byte: u8) -> bool {
    byte == 0 || byte == 9 || byte == 10 || byte == 12 || byte == 13 || byte == 32
}

/// Whether a byte sets the tokens around it apart.
pub open spec fn is_delimiter(byte: u8) -> bool {
    ||| byte == ROUND_OPEN || byte == ROUND_CLOSE
    ||| byte == LESS || byte == GREATER
    ||| byte == SQUARE_OPEN || byte == SQUARE_CLOSE
    ||| byte == CURLY_OPEN || byte == CURLY_CLOSE
    ||| byte == SLASH || byte == PERCENT
}

/// Whether a byte is part of a name or a number.
pub open spec fn is_regular(byte: u8) -> bool {
    !is_space(byte) && !is_delimiter(byte)
}

/// Whether a byte is a digit.
pub open spec fn is_digit(byte: u8) -> bool {
    DIGIT_ZERO <= byte <= DIGIT_NINE
}

/// Whether a number, or a reference to an object, starts with a byte.
pub open spec fn starts_number(byte: u8) -> bool {
    is_digit(byte) || byte == PLUS || byte == MINUS || byte == POINT
}

/// The value of a hexadecimal digit.
pub open spec fn hex_value(byte: u8) -> Option<int> {
    if is_digit(byte) {
        Some(byte - DIGIT_ZERO)
    } else if UPPER_A <= byte <= UPPER_F {
        Some(byte - UPPER_A + 10)
    } else if LOWER_A <= byte <= LOWER_F {
        Some(byte - LOWER_A + 10)
    } else {
        None
    }
}

/// Whether a byte that is written as two hexadecimal digits stands at a position.
pub open spec fn escaped_at(bytes: Seq<u8>, at: int) -> bool {
    &&& at + 2 < bytes.len()
    &&& bytes[at] == NUMBER_SIGN
    &&& hex_value(bytes[at + 1]) is Some
    &&& hex_value(bytes[at + 2]) is Some
}

/// The byte that is written as two hexadecimal digits at a position.
pub open spec fn escaped_byte(bytes: Seq<u8>, at: int) -> int {
    16 * hex_value(bytes[at + 1])->0 + hex_value(bytes[at + 2])->0
}

/// The position behind a name, where it stands at a position and nothing more belongs to it. Each
/// of its bytes can be written as two hexadecimal digits.
pub open spec fn after_name(bytes: Seq<u8>, at: int, name: Seq<u8>) -> Option<int>
    decreases name.len(),
{
    if name.len() == 0 {
        if at < bytes.len() && is_regular(bytes[at]) {
            None
        } else {
            Some(at)
        }
    } else if at >= bytes.len() {
        None
    } else if escaped_at(bytes, at) {
        if escaped_byte(bytes, at) == name.first() {
            after_name(bytes, at + 3, name.drop_first())
        } else {
            None
        }
    } else if bytes[at] == name.first() {
        after_name(bytes, at + 1, name.drop_first())
    } else {
        None
    }
}

/// The position behind white space and comments. A comment ends with its line.
pub open spec fn after_space(bytes: Seq<u8>, at: int, in_comment: bool) -> int
    decreases bytes.len() - at,
{
    if at < 0 || at >= bytes.len() {
        at
    } else if in_comment {
        after_space(bytes, at + 1, bytes[at] != 10 && bytes[at] != 13)
    } else if is_space(bytes[at]) {
        after_space(bytes, at + 1, false)
    } else if bytes[at] == PERCENT {
        after_space(bytes, at + 1, true)
    } else {
        at
    }
}

/// The position behind digits.
pub open spec fn after_digits(bytes: Seq<u8>, at: int) -> int
    decreases bytes.len() - at,
{
    if at < 0 || at >= bytes.len() || !is_digit(bytes[at]) {
        at
    } else {
        after_digits(bytes, at + 1)
    }
}

/// The number that digits stand for.
pub open spec fn digits_value(digits: Seq<u8>) -> int
    decreases digits.len(),
{
    if digits.len() == 0 {
        0
    } else {
        10 * digits_value(digits.drop_last()) + (digits.last() - DIGIT_ZERO)
    }
}

/// What stands where a number can stand.
pub enum NumberAt {
    /// No number.
    Nothing,
    /// A number that is written with digits alone.
    Plain(int),
    /// A number that is written otherwise, or a reference to an object.
    Other,
}

/// What stands behind a position, where a number can stand.
pub open spec fn number_at(bytes: Seq<u8>, at: int) -> NumberAt {
    let start = after_space(bytes, at, false);
    if start < bytes.len() && starts_number(bytes[start]) {
        let end = after_digits(bytes, start);
        let next = after_space(bytes, end, false);
        if start < end && !(end < bytes.len() && is_regular(bytes[end])) && !(next < bytes.len()
            && starts_number(bytes[next])) {
            NumberAt::Plain(digits_value(bytes.subrange(start, end)))
        } else {
            NumberAt::Other
        }
    } else {
        NumberAt::Nothing
    }
}

/// The position behind the bytes of a name or a number.
pub open spec fn after_regular(bytes: Seq<u8>, at: int) -> int
    decreases bytes.len() - at,
{
    if at < 0 || at >= bytes.len() || !is_regular(bytes[at]) {
        at
    } else {
        after_regular(bytes, at + 1)
    }
}

/// The position behind a string in round brackets, of which `open` are open.
pub open spec fn after_literal(bytes: Seq<u8>, at: int, open: int) -> Option<int>
    decreases bytes.len() - at,
{
    if at < 0 || at >= bytes.len() {
        None
    } else if bytes[at] == BACKSLASH {
        if at + 1 < bytes.len() {
            after_literal(bytes, at + 2, open)
        } else {
            None
        }
    } else if bytes[at] == ROUND_OPEN {
        after_literal(bytes, at + 1, open + 1)
    } else if bytes[at] == ROUND_CLOSE {
        if open <= 1 {
            Some(at + 1)
        } else {
            after_literal(bytes, at + 1, open - 1)
        }
    } else {
        after_literal(bytes, at + 1, open)
    }
}

/// The position behind a string of hexadecimal digits.
pub open spec fn after_hex(bytes: Seq<u8>, at: int) -> Option<int>
    decreases bytes.len() - at,
{
    if at < 0 || at >= bytes.len() {
        None
    } else if hex_value(bytes[at]) is Some || is_space(bytes[at]) {
        after_hex(bytes, at + 1)
    } else if bytes[at] == GREATER {
        Some(at + 1)
    } else {
        None
    }
}

/// The position behind a name, a string, a number or a word, where one stands at a position.
pub open spec fn after_token(bytes: Seq<u8>, at: int) -> Option<int> {
    if at < 0 || at >= bytes.len() {
        None
    } else if bytes[at] == ROUND_OPEN {
        after_literal(bytes, at + 1, 1)
    } else if bytes[at] == LESS {
        after_hex(bytes, at + 1)
    } else if bytes[at] == SLASH || is_regular(bytes[at]) {
        Some(after_regular(bytes, at + 1))
    } else {
        None
    }
}

/// Whether a byte stands twice at a position.
pub open spec fn twice(bytes: Seq<u8>, at: int, byte: u8) -> bool {
    0 <= at && at + 1 < bytes.len() && bytes[at] == byte && bytes[at + 1] == byte
}

/// Whether a word stands at a position.
pub open spec fn word_at(bytes: Seq<u8>, at: int, word: Seq<u8>) -> bool {
    0 <= at && at + word.len() <= bytes.len() && bytes.subrange(at, at + word.len()) == word
}

pub(crate) fn space(byte: u8) -> (r: bool)
    ensures
        r == is_space(byte),
{
    byte == 0 || byte == 9 || byte == 10 || byte == 12 || byte == 13 || byte == 32
}

pub(crate) fn regular(byte: u8) -> (r: bool)
    ensures
        r == is_regular(byte),
{
    !space(byte) && byte != ROUND_OPEN && byte != ROUND_CLOSE && byte != LESS && byte != GREATER && byte != SQUARE_OPEN
        && byte != SQUARE_CLOSE && byte != CURLY_OPEN && byte != CURLY_CLOSE && byte != SLASH && byte != PERCENT
}

pub(crate) fn digit(byte: u8) -> (r: bool)
    ensures
        r == is_digit(byte),
{
    DIGIT_ZERO <= byte && byte <= DIGIT_NINE
}

pub(crate) fn number_start(byte: u8) -> (r: bool)
    ensures
        r == starts_number(byte),
{
    digit(byte) || byte == PLUS || byte == MINUS || byte == POINT
}

fn hex_digit(byte: u8) -> (r: Option<u8>)
    ensures
        r is Some <==> hex_value(byte) is Some,
        r is Some ==> r->0 == hex_value(byte)->0 && r->0 < 16,
{
    if digit(byte) {
        Some(byte - DIGIT_ZERO)
    } else if UPPER_A <= byte && byte <= UPPER_F {
        Some(byte - UPPER_A + 10)
    } else if LOWER_A <= byte && byte <= LOWER_F {
        Some(byte - LOWER_A + 10)
    } else {
        None
    }
}

/// The byte that is written as two hexadecimal digits at a position, if one is.
fn read_escaped(bytes: &[u8], at: usize) -> (r: Option<u8>)
    requires
        at < bytes@.len(),
    ensures
        r is Some <==> escaped_at(bytes@, at as int),
        r is Some ==> r->0 == escaped_byte(bytes@, at as int),
{
    if bytes[at] != NUMBER_SIGN || bytes.len() - at <= 2 {
        return None;
    }
    match (hex_digit(bytes[at + 1]), hex_digit(bytes[at + 2])) {
        (Some(high), Some(low)) => Some(16 * high + low),
        _ => None,
    }
}

/// The position behind a name, if it stands at a position.
pub(crate) fn name_end(bytes: &[u8], start: usize, name: &[u8]) -> (r: Option<usize>)
    requires
        start <= bytes@.len(),
    ensures
        match r {
            Some(end) => {
                &&& after_name(bytes@, start as int, name@) == Some(end as int)
                &&& end <= bytes@.len()
            },
            None => after_name(bytes@, start as int, name@) is None,
        },
{
    let mut at: usize = start;
    let mut done: usize = 0;
    proof {
        assert(name@.skip(0) =~= name@);
    }
    while done < name.len()
        invariant
            at <= bytes@.len(),
            done <= name@.len(),
            after_name(bytes@, start as int, name@) == after_name(
                bytes@,
                at as int,
                name@.skip(done as int),
            ),
        decreases name@.len() - done,
    {
        proof {
            assert(name@.skip(done as int).first() == name@[done as int]);
            assert(name@.skip(done as int).drop_first() =~= name@.skip(done + 1));
        }
        if at >= bytes.len() {
            return None;
        }
        match read_escaped(bytes, at) {
            Some(byte) => {
                if byte != name[done] {
                    return None;
                }
                at += 3;
            },
            None => {
                if bytes[at] != name[done] {
                    return None;
                }
                at += 1;
            },
        }
        done += 1;
    }
    proof {
        assert(name@.skip(done as int).len() == 0);
    }
    if at < bytes.len() && regular(bytes[at]) {
        None
    } else {
        Some(at)
    }
}

/// The position behind white space and comments.
pub(crate) fn skip_space(bytes: &[u8], start: usize) -> (r: usize)
    requires
        start <= bytes@.len(),
    ensures
        r == after_space(bytes@, start as int, false),
        r <= bytes@.len(),
{
    let mut at: usize = start;
    let mut in_comment = false;
    while at < bytes.len()
        invariant
            at <= bytes@.len(),
            after_space(bytes@, start as int, false) == after_space(bytes@, at as int, in_comment),
        decreases bytes@.len() - at,
    {
        let byte = bytes[at];
        if in_comment {
            in_comment = byte != 10 && byte != 13;
        } else if byte == PERCENT {
            in_comment = true;
        } else if !space(byte) {
            return at;
        }
        at += 1;
    }
    at
}

/// Whether a number stands for another one: for itself, or for any that is too high.
pub open spec fn counts_as(value: u64, number: int) -> bool {
    if value <= MAX_NUMBER {
        number == value
    } else {
        value == MAX_NUMBER + 1 && number > MAX_NUMBER
    }
}

/// The position behind digits, and the number that they stand for.
pub(crate) fn read_digits(bytes: &[u8], start: usize) -> (r: (usize, u64))
    requires
        start <= bytes@.len(),
    ensures
        r.0 == after_digits(bytes@, start as int),
        start <= r.0 <= bytes@.len(),
        counts_as(r.1, digits_value(bytes@.subrange(start as int, r.0 as int))),
{
    let mut at: usize = start;
    let mut value: u64 = 0;
    proof {
        assert(bytes@.subrange(start as int, start as int).len() == 0);
    }
    while at < bytes.len() && digit(bytes[at])
        invariant
            start <= at <= bytes@.len(),
            counts_as(value, digits_value(bytes@.subrange(start as int, at as int))),
            after_digits(bytes@, start as int) == after_digits(bytes@, at as int),
        decreases bytes@.len() - at,
    {
        let ghost before = bytes@.subrange(start as int, at as int);
        let ghost after = bytes@.subrange(start as int, at + 1);
        proof {
            assert(after.drop_last() =~= before);
            assert(after.last() == bytes@[at as int]);
        }
        if value <= MAX_NUMBER {
            value = 10 * value + (bytes[at] - DIGIT_ZERO) as u64;
            if value > MAX_NUMBER {
                value = MAX_NUMBER + 1;
            }
        }
        at += 1;
    }
    (at, value)
}

/// What stands where a number can stand.
pub enum FoundNumber {
    Nothing,
    Plain(u64),
    Other,
}

impl FoundNumber {
    /// Whether this was found of a number.
    pub open spec fn stands_for(self, number: NumberAt) -> bool {
        match (self, number) {
            (FoundNumber::Nothing, NumberAt::Nothing) => true,
            (FoundNumber::Plain(value), NumberAt::Plain(number)) => counts_as(value, number),
            (FoundNumber::Other, NumberAt::Other) => true,
            _ => false,
        }
    }
}

/// Looks for a number behind a position.
pub(crate) fn find_number(bytes: &[u8], at: usize) -> (r: FoundNumber)
    requires
        at <= bytes@.len(),
    ensures
        r.stands_for(number_at(bytes@, at as int)),
{
    let start = skip_space(bytes, at);
    if start >= bytes.len() || !number_start(bytes[start]) {
        return FoundNumber::Nothing;
    }
    let (end, value) = read_digits(bytes, start);
    let next = skip_space(bytes, end);
    if start < end && !(end < bytes.len() && regular(bytes[end])) && !(next < bytes.len()
        && number_start(bytes[next])) {
        FoundNumber::Plain(value)
    } else {
        FoundNumber::Other
    }
}

/// The position behind the bytes of a name or a number.
pub(crate) fn skip_regular(bytes: &[u8], start: usize) -> (r: usize)
    requires
        start <= bytes@.len(),
    ensures
        r == after_regular(bytes@, start as int),
        start <= r <= bytes@.len(),
{
    let mut at: usize = start;
    while at < bytes.len() && regular(bytes[at])
        invariant
            start <= at <= bytes@.len(),
            after_regular(bytes@, start as int) == after_regular(bytes@, at as int),
        decreases bytes@.len() - at,
    {
        at += 1;
    }
    at
}

fn skip_literal(bytes: &[u8], start: usize) -> (r: Option<usize>)
    requires
        1 <= start <= bytes@.len(),
    ensures
        match r {
            Some(end) => after_literal(bytes@, start as int, 1) == Some(end as int) && start < end
                <= bytes@.len(),
            None => after_literal(bytes@, start as int, 1) is None,
        },
{
    let mut at: usize = start;
    let mut open: usize = 1;
    while at < bytes.len()
        invariant
            start <= at <= bytes@.len(),
            1 <= start,
            1 <= open <= at - start + 1,
            after_literal(bytes@, start as int, 1) == after_literal(
                bytes@,
                at as int,
                open as int,
            ),
        decreases bytes@.len() - at,
    {
        let byte = bytes[at];
        if byte == BACKSLASH {
            if bytes.len() - at <= 1 {
                return None;
            }
            at += 1;
        } else if byte == ROUND_OPEN {
            open += 1;
        } else if byte == ROUND_CLOSE {
            if open <= 1 {
                return Some(at + 1);
            }
            open -= 1;
        }
        at += 1;
    }
    None
}

fn skip_hex(bytes: &[u8], start: usize) -> (r: Option<usize>)
    requires
        start <= bytes@.len(),
    ensures
        match r {
            Some(end) => after_hex(bytes@, start as int) == Some(end as int) && start < end
                <= bytes@.len(),
            None => after_hex(bytes@, start as int) is None,
        },
{
    let mut at: usize = start;
    while at < bytes.len()
        invariant
            start <= at <= bytes@.len(),
            after_hex(bytes@, start as int) == after_hex(bytes@, at as int),
        decreases bytes@.len() - at,
    {
        if hex_digit(bytes[at]).is_none() && !space(bytes[at]) {
            if bytes[at] == GREATER {
                return Some(at + 1);
            }
            return None;
        }
        at += 1;
    }
    None
}

/// The position behind the token at a position, if one stands there.
pub(crate) fn skip_token(bytes: &[u8], at: usize) -> (r: Option<usize>)
    requires
        at < bytes@.len(),
    ensures
        match r {
            Some(end) => after_token(bytes@, at as int) == Some(end as int) && at < end
                <= bytes@.len(),
            None => after_token(bytes@, at as int) is None,
        },
{
    if bytes[at] == ROUND_OPEN {
        skip_literal(bytes, at + 1)
    } else if bytes[at] == LESS {
        skip_hex(bytes, at + 1)
    } else if bytes[at] == SLASH || regular(bytes[at]) {
        Some(skip_regular(bytes, at + 1))
    } else {
        None
    }
}

/// Whether a byte stands twice at a position.
pub(crate) fn stands_twice(bytes: &[u8], at: usize, byte: u8) -> (r: bool)
    requires
        at <= bytes@.len(),
    ensures
        r == twice(bytes@, at as int, byte),
{
    bytes.len() - at > 1 && bytes[at] == byte && bytes[at + 1] == byte
}

/// Whether a word stands at a position.
pub(crate) fn stands_at(bytes: &[u8], at: usize, word: &[u8]) -> (r: bool)
    requires
        at <= bytes@.len(),
    ensures
        r == word_at(bytes@, at as int, word@),
{
    if bytes.len() - at < word.len() {
        return false;
    }
    let mut i: usize = 0;
    while i < word.len()
        invariant
            i <= word@.len(),
            at + word@.len() <= bytes@.len() <= usize::MAX,
            forall|j: int| 0 <= j < i ==> bytes@[at + j] == word@[j],
        decreases word@.len() - i,
    {
        if bytes[at + i] != word[i] {
            proof {
                assert(bytes@.subrange(at as int, at + word@.len())[i as int] != word@[i as int]);
            }
            return false;
        }
        i += 1;
    }
    proof {
        assert(bytes@.subrange(at as int, at + word@.len()) =~= word@);
    }
    true
}

/// A name that is written plainly is found where it stands, and its end behind it, unless more belongs
/// to it.
pub proof fn plain_names_are_found(front: Seq<u8>, name: Seq<u8>, back: Seq<u8>)
    requires
        forall|i: int| 0 <= i < name.len() ==> #[trigger] name[i] != NUMBER_SIGN,
    ensures
        back.len() == 0 || !is_regular(back.first()) ==> after_name(
            front + name + back,
            front.len() as int,
            name,
        ) == Some((front.len() + name.len()) as int),
        back.len() > 0 && is_regular(back.first()) ==> after_name(
            front + name + back,
            front.len() as int,
            name,
        ) is None,
    decreases name.len(),
{
    let bytes = front + name + back;
    if name.len() > 0 {
        let rest = name.drop_first();
        let longer = front.push(name.first());
        assert(longer + rest + back =~= bytes);
        assert(bytes[front.len() as int] == name[0]);
        assert forall|i: int| 0 <= i < rest.len() implies #[trigger] rest[i] != NUMBER_SIGN by {
            assert(rest[i] == name[i + 1]);
        }
        plain_names_are_found(longer, rest, back);
    } else if back.len() > 0 {
        assert(bytes[front.len() as int] == back[0]);
    }
}

/// White space is passed over up to the first byte that is none and starts no comment.
pub proof fn white_space_is_passed_over(front: Seq<u8>, space: Seq<u8>, back: Seq<u8>)
    requires
        forall|i: int| 0 <= i < space.len() ==> is_space(#[trigger] space[i]),
        back.len() > 0 ==> !is_space(back.first()) && back.first() != PERCENT,
    ensures
        after_space(front + space + back, front.len() as int, false) == front.len() + space.len(),
    decreases space.len(),
{
    let bytes = front + space + back;
    if space.len() > 0 {
        let rest = space.drop_first();
        let longer = front.push(space.first());
        assert(longer + rest + back =~= bytes);
        assert(bytes[front.len() as int] == space[0]);
        assert forall|i: int| 0 <= i < rest.len() implies is_space(#[trigger] rest[i]) by {
            assert(rest[i] == space[i + 1]);
        }
        white_space_is_passed_over(longer, rest, back);
    } else if back.len() > 0 {
        assert(bytes[front.len() as int] == back[0]);
    }
}

/// Digits are passed over up to the first byte that is none.
pub proof fn digits_are_passed_over(front: Seq<u8>, digits: Seq<u8>, back: Seq<u8>)
    requires
        forall|i: int| 0 <= i < digits.len() ==> 48 <= (#[trigger] digits[i]) <= 57,
        back.len() > 0 ==> !(48 <= back.first() <= 57),
    ensures
        after_digits(front + digits + back, front.len() as int) == front.len() + digits.len(),
    decreases digits.len(),
{
    let bytes = front + digits + back;
    if digits.len() > 0 {
        let rest = digits.drop_first();
        let longer = front.push(digits.first());
        assert(longer + rest + back =~= bytes);
        assert(bytes[front.len() as int] == digits[0]);
        assert forall|i: int| 0 <= i < rest.len() implies 48 <= (#[trigger] rest[i]) <= 57 by {
            assert(rest[i] == digits[i + 1]);
        }
        digits_are_passed_over(longer, rest, back);
    } else if back.len() > 0 {
        assert(bytes[front.len() as int] == back[0]);
    }
}

/// A digit more makes a number ten times as large, and adds its value.
pub proof fn digits_stand_for_their_number(digits: Seq<u8>, digit: u8)
    requires
        48 <= digit <= 57,
    ensures
        digits_value(Seq::empty()) == 0,
        digits_value(digits.push(digit)) == 10 * digits_value(digits) + (digit - 48),
{
    assert(digits.push(digit).drop_last() =~= digits);
}

} // verus!
