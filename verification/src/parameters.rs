//! The files that the PDF reader can be given.
//!
//! To find the objects of a file the reader decompresses some of its streams: those that hold the
//! cross-reference table, and those that hold objects. Two things can go wrong then.
//!
//! - A stream that was compressed with a predictor says in its parameters how wide its rows are. The
//!   reader divides by the length of a row without a look at it, and fails where a row is empty and
//!   the predictor puts nothing before it, or where a row is longer than its numbers can hold.
//! - Where such a stream says something about itself by a reference to an object, that object can be
//!   in another such stream. The reader then goes from stream to stream, one within the other, and
//!   nothing but its stack bounds how far.
//!
//! So a file is given to it only where the parameters of these streams can be used as they stand,
//! and no more than a few of them refer elsewhere. What the cross-reference table says is read
//! first, without following any reference. Other streams of the file do not matter: the reader
//! leaves them as they are.

use vstd::prelude::*;
use vstd::slice::slice_subrange;
use vstd::string::*;

use crate::dictionaries::{dict_at, entry, find_entry, read_dict, same_place, MAX_NESTING};
use crate::pdf::{decode_stream, stream_data};
use crate::tokens::{
    after_digits, after_name, after_space, after_token, counts_as, digit, digits_value, find_number,
    is_digit, is_regular, is_space, name_end, number_at, number_start, read_digits, regular,
    skip_space, skip_token, space, stands_at, stands_twice, starts_number, twice, word_at,
    FoundNumber, NumberAt, GREATER, LESS, MAX_NUMBER, SLASH, SQUARE_CLOSE, SQUARE_OPEN, UPPER_R,
};

verus! {

/// How many samples a row can have.
pub const MAX_COLUMNS: u64 = 0xff_ffff;

/// How many bits a sample can have.
pub const MAX_SAMPLE_BITS: u64 = 255;

/// How many of the streams that the reader decompresses can refer elsewhere.
pub const MAX_LINKS: u64 = 8;

/// The rest of a file, from a position on.
pub open spec fn tail(bytes: Seq<u8>, at: int) -> Seq<u8> {
    bytes.subrange(at, bytes.len() as int)
}

/// Where the value under a key starts, in the dictionary that a file starts with.
pub open spec fn value_at(file: Seq<u8>, name: Seq<u8>) -> Option<int> {
    match entry(file, 2, name) {
        Some(value) => Some(after_space(file, value, false)),
        None => None,
    }
}

/// Whether a file starts with a stream.
pub open spec fn is_stream(file: Seq<u8>) -> bool {
    &&& twice(file, 0, LESS)
    &&& dict_at(file, 2, "Length".spec_bytes()) matches Some(dict) && word_at(
        file,
        after_space(file, dict.end, false),
        "stream".spec_bytes(),
    )
}

/// The number under a key of the dictionary whose entries start at a position.
pub open spec fn number_under(file: Seq<u8>, start: int, name: Seq<u8>) -> NumberAt {
    match entry(file, start, name) {
        Some(value) => number_at(file, value),
        None => NumberAt::Nothing,
    }
}

/// The value of a parameter that takes up to eight bits, where it can be told.
pub open spec fn small_value(number: NumberAt, default: int) -> Option<int> {
    match number {
        NumberAt::Nothing => Some(default),
        NumberAt::Plain(value) => if value <= 255 {
            Some(value)
        } else {
            Some(default)
        },
        NumberAt::Other => None,
    }
}

/// The value of a parameter, where it can be told.
pub open spec fn whole_value(number: NumberAt, default: int) -> Option<int> {
    match number {
        NumberAt::Nothing => Some(default),
        NumberAt::Plain(value) => Some(value),
        NumberAt::Other => None,
    }
}

/// Whether the reader fails, as far as can be told, on rows with these parameters. A predictor of 1
/// is none, and one from 10 on puts a byte before each row.
pub open spec fn rows_fail(
    predictor: Option<int>,
    columns: Option<int>,
    colors: Option<int>,
    bits: Option<int>,
) -> bool {
    if predictor == Some(1int) {
        false
    } else if predictor is None || columns is None || colors is None || bits is None {
        true
    } else {
        ||| columns->0 > MAX_COLUMNS
        ||| colors->0 * bits->0 > MAX_SAMPLE_BITS
        ||| predictor->0 < 10 && (columns->0 == 0 || colors->0 * bits->0 == 0)
    }
}

/// Whether the reader fails on the parameters in the dictionary whose entries start at a position.
pub open spec fn parameters_fail(file: Seq<u8>, start: int) -> bool {
    rows_fail(
        small_value(number_under(file, start, "Predictor".spec_bytes()), 1),
        whole_value(number_under(file, start, "Columns".spec_bytes()), 1),
        small_value(number_under(file, start, "Colors".spec_bytes()), 1),
        small_value(number_under(file, start, "BitsPerComponent".spec_bytes()), 8),
    )
}

/// What the items of an array or a dictionary are.
#[verifier::ext_equal]
pub struct Items {
    /// Whether one is a dictionary of parameters on which the reader fails.
    pub failing: bool,
    /// Whether one is a reference.
    pub referring: bool,
    /// Whether there is a reference in one, however deep.
    pub referring_within: bool,
}

/// The items of an array or a dictionary, where those before a position are `known`. The position is
/// `depth` deep.
pub open spec fn rest_of_items(file: Seq<u8>, at: int, depth: int, known: Items) -> Option<Items>
    decreases file.len() - at,
{
    let next = after_space(file, at, false);
    if at < 0 || at >= file.len() {
        None
    } else if at < next <= file.len() {
        rest_of_items(file, next, depth, known)
    } else if twice(file, at, LESS) {
        if depth < MAX_NESTING {
            rest_of_items(
                file,
                at + 2,
                depth + 1,
                Items {
                    failing: known.failing || (depth == 1 && parameters_fail(file, at + 2)),
                    ..known
                },
            )
        } else {
            None
        }
    } else if twice(file, at, GREATER) {
        if depth <= 1 {
            Some(known)
        } else {
            rest_of_items(file, at + 2, depth - 1, known)
        }
    } else if file[at] == SQUARE_OPEN {
        if depth < MAX_NESTING {
            rest_of_items(file, at + 1, depth + 1, known)
        } else {
            None
        }
    } else if file[at] == SQUARE_CLOSE {
        if depth <= 1 {
            Some(known)
        } else {
            rest_of_items(file, at + 1, depth - 1, known)
        }
    } else {
        match after_token(file, at) {
            Some(end) => if at < end <= file.len() {
                rest_of_items(
                    file,
                    end,
                    depth,
                    if file[at] == UPPER_R {
                        Items {
                            referring: known.referring || depth == 1,
                            referring_within: true,
                            ..known
                        }
                    } else {
                        known
                    },
                )
            } else {
                None
            },
            None => None,
        }
    }
}

/// The items of the array or dictionary at a position, where there is one.
pub open spec fn items_at(file: Seq<u8>, at: int) -> Option<Items> {
    let none = Items { failing: false, referring: false, referring_within: false };
    if twice(file, at, LESS) {
        rest_of_items(file, at + 2, 1, none)
    } else if 0 <= at < file.len() && file[at] == SQUARE_OPEN {
        rest_of_items(file, at + 1, 1, none)
    } else {
        None
    }
}

/// Whether the reader fails on the parameters under a key, or they stand elsewhere.
pub open spec fn value_fails(file: Seq<u8>, name: Seq<u8>) -> bool {
    match value_at(file, name) {
        Some(at) => {
            ||| twice(file, at, LESS) && parameters_fail(file, at + 2)
            ||| at < file.len() && file[at] == SQUARE_OPEN && (items_at(file, at) matches Some(items)
                && (items.failing || items.referring))
            ||| at < file.len() && starts_number(file[at])
        },
        None => false,
    }
}

/// Whether the filters of a stream can be ones that have predictors.
pub open spec fn may_predict(file: Seq<u8>) -> bool {
    match value_at(file, "Filter".spec_bytes()) {
        Some(at) => {
            ||| value_at(file, "F".spec_bytes()) is Some
            ||| !(at < file.len() && file[at] == SLASH)
            ||| after_name(file, at + 1, "FlateDecode".spec_bytes()) is Some
            ||| after_name(file, at + 1, "Fl".spec_bytes()) is Some
            ||| after_name(file, at + 1, "LZWDecode".spec_bytes()) is Some
            ||| after_name(file, at + 1, "LZW".spec_bytes()) is Some
        },
        None => value_at(file, "F".spec_bytes()) is Some,
    }
}

/// Whether the reader fails to decompress the stream that a file starts with.
pub open spec fn stream_fails(file: Seq<u8>) -> bool {
    may_predict(file) && (value_fails(file, "DP".spec_bytes()) || value_fails(
        file,
        "DecodeParms".spec_bytes(),
    ))
}

/// Whether the value under a key is, or has in it, a reference.
pub open spec fn refers_under(file: Seq<u8>, name: Seq<u8>) -> bool {
    match value_at(file, name) {
        Some(at) => {
            ||| number_at(file, at) is Other
            ||| items_at(file, at) matches Some(items) && items.referring_within
        },
        None => false,
    }
}

/// Whether the reader needs other objects to decompress the stream that a file starts with.
pub open spec fn refers_elsewhere(file: Seq<u8>) -> bool {
    ||| refers_under(file, "Length".spec_bytes())
    ||| refers_under(file, "Filter".spec_bytes())
    ||| refers_under(file, "F".spec_bytes())
    ||| refers_under(file, "DecodeParms".spec_bytes())
    ||| refers_under(file, "DP".spec_bytes())
    ||| refers_under(file, "Type".spec_bytes())
    ||| refers_under(file, "N".spec_bytes())
    ||| refers_under(file, "First".spec_bytes())
}

/// Whether the stream that a file starts with can say of itself that it holds objects.
pub open spec fn may_hold_objects(file: Seq<u8>) -> bool {
    match value_at(file, "Type".spec_bytes()) {
        Some(at) => at < file.len() && (starts_number(file[at]) || (file[at] == SLASH && after_name(
            file,
            at + 1,
            "ObjStm".spec_bytes(),
        ) is Some)),
        None => false,
    }
}

/// The number behind a position that is written with digits alone, and the position behind it.
pub open spec fn plain_number(file: Seq<u8>, at: int) -> Option<(int, int)> {
    let start = after_space(file, at, false);
    let end = after_digits(file, start);
    if start < end && !(end < file.len() && is_regular(file[end])) {
        Some((digits_value(file.subrange(start, end)), end))
    } else {
        None
    }
}

/// How wide the columns of a cross-reference table are.
pub enum Widths {
    /// The stream holds no such table.
    Nothing,
    Known(int, int, int),
    /// The widths cannot be told.
    Other,
}

/// How wide the columns of the cross-reference table are in the stream that a file starts with.
pub open spec fn widths(file: Seq<u8>) -> Widths {
    match value_at(file, "W".spec_bytes()) {
        Some(at) => if at < file.len() && file[at] == SQUARE_OPEN {
            match plain_number(file, at + 1) {
                Some((first, first_end)) => match plain_number(file, first_end) {
                    Some((second, second_end)) => match plain_number(file, second_end) {
                        Some((third, third_end)) => {
                            let close = after_space(file, third_end, false);
                            if !(close < file.len() && file[close] == SQUARE_CLOSE) {
                                Widths::Other
                            } else if first > 255 || second > 255 || third > 255 {
                                Widths::Nothing
                            } else {
                                Widths::Known(first, second, third)
                            }
                        },
                        None => Widths::Other,
                    },
                    None => Widths::Other,
                },
                None => Widths::Other,
            }
        } else {
            Widths::Nothing
        },
        None => Widths::Nothing,
    }
}

/// The number that bytes stand for, the highest one first.
pub open spec fn bytes_value(bytes: Seq<u8>) -> int
    decreases bytes.len(),
{
    if bytes.len() == 0 {
        0
    } else {
        256 * bytes_value(bytes.drop_last()) + bytes.last()
    }
}

/// Whether a cross-reference table says, from a position on, that the stream `number` holds an
/// object. The kind of an entry takes one byte or none.
pub open spec fn names_stream(
    table: Seq<u8>,
    at: int,
    first: int,
    second: int,
    third: int,
    number: int,
) -> bool
    decreases table.len() - at,
{
    let start = if first == 0 {
        at
    } else {
        at + 1
    };
    let end = start + second + third;
    if at < 0 || second < 1 || third < 0 || end > table.len() {
        false
    } else if first != 0 && table[at] == 2 && bytes_value(table.subrange(start, start + second))
        == number {
        true
    } else if first != 0 && table[at] > 2 {
        false
    } else {
        names_stream(table, end, first, second, third, number)
    }
}

/// Whether the stream that a file starts with holds a table that says that the stream `number` holds
/// an object.
pub open spec fn table_names(file: Seq<u8>, number: int) -> bool {
    match (widths(file), stream_data(file)) {
        (Widths::Known(first, second, third), Some(table)) => 1 <= second <= 8 && names_stream(
            table,
            0,
            first,
            second,
            third,
            number,
        ),
        _ => false,
    }
}

/// The position behind what stands before white space.
pub open spec fn before_space(bytes: Seq<u8>, at: int) -> int
    decreases at,
{
    if 0 < at <= bytes.len() && is_space(bytes[at - 1]) {
        before_space(bytes, at - 1)
    } else {
        at
    }
}

/// The position before digits.
pub open spec fn before_digits(bytes: Seq<u8>, at: int) -> int
    decreases at,
{
    if 0 < at <= bytes.len() && is_digit(bytes[at - 1]) {
        before_digits(bytes, at - 1)
    } else {
        at
    }
}

/// Where the number of the object stands that starts at a position, if it stands there plainly.
pub open spec fn object_number(bytes: Seq<u8>, at: int) -> Option<(int, int)> {
    let word = before_space(bytes, at) - 3;
    let generation_end = before_space(bytes, word);
    let generation = before_digits(bytes, generation_end);
    let end = before_space(bytes, generation);
    let start = before_digits(bytes, end);
    if word_at(bytes, word, "obj".spec_bytes()) && 0 <= start < end < generation < generation_end
        < word && (start == 0 || is_space(bytes[start - 1])) {
        Some((start, end))
    } else {
        None
    }
}

/// Whether a stream starts at a position.
pub open spec fn stream_starts(bytes: Seq<u8>, at: int) -> bool {
    0 <= at < bytes.len() && is_stream(tail(bytes, at))
}

/// Whether it cannot be told from the stream at a position which streams hold objects.
pub open spec fn obscures(bytes: Seq<u8>, at: int) -> bool {
    stream_starts(bytes, at) && (widths(tail(bytes, at)) is Other || (may_hold_objects(
        tail(bytes, at),
    ) && object_number(bytes, at) is None))
}

/// Whether the stream at a position says that the stream `number` holds objects.
pub open spec fn names_at(bytes: Seq<u8>, at: int, number: int) -> bool {
    stream_starts(bytes, at) && (table_names(tail(bytes, at), number) || (may_hold_objects(
        tail(bytes, at),
    ) && match object_number(bytes, at) {
        Some((start, end)) => digits_value(bytes.subrange(start, end)) == number,
        None => false,
    }))
}

/// Whether it cannot be told which streams hold objects.
pub open spec fn is_obscure(bytes: Seq<u8>, end: int) -> bool {
    exists|at: int| at < end && #[trigger] obscures(bytes, at)
}

/// Whether a stream is known to hold objects.
pub open spec fn is_named(bytes: Seq<u8>, end: int, number: int) -> bool {
    0 <= number <= MAX_NUMBER && exists|at: int| at < end && #[trigger] names_at(bytes, at, number)
}

/// Whether a number is that of a stream that holds objects, read from any of its digits on.
pub open spec fn digits_named(bytes: Seq<u8>, start: int, end: int) -> bool {
    exists|from: int|
        start <= from < end && is_named(
            bytes,
            bytes.len() as int,
            #[trigger] digits_value(bytes.subrange(from, end)),
        )
}

/// Whether the stream at a position can be one that holds objects. The reader can be led to any of
/// the digits of its number.
pub open spec fn may_be_named(bytes: Seq<u8>, at: int) -> bool {
    let all = bytes.len() as int;
    is_obscure(bytes, all) || match object_number(bytes, at) {
        Some((start, end)) => digits_named(bytes, start, end),
        None => exists|number: int| #[trigger] is_named(bytes, all, number),
    }
}

/// Whether the reader can come to decompress the stream at a position.
pub open spec fn is_decompressed(bytes: Seq<u8>, at: int) -> bool {
    stream_starts(bytes, at) && (!(widths(tail(bytes, at)) is Nothing) || may_hold_objects(
        tail(bytes, at),
    ) || may_be_named(bytes, at))
}

/// Whether the reader fails on the stream at a position.
pub open spec fn fails_at(bytes: Seq<u8>, at: int) -> bool {
    is_decompressed(bytes, at) && stream_fails(tail(bytes, at))
}

/// Whether the reader goes elsewhere from the stream at a position.
pub open spec fn links_at(bytes: Seq<u8>, at: int) -> bool {
    is_decompressed(bytes, at) && refers_elsewhere(tail(bytes, at))
}

/// From how many of the streams that start in the first `end` bytes the reader goes elsewhere.
pub open spec fn link_count(bytes: Seq<u8>, end: int) -> int
    decreases end,
{
    if end <= 0 {
        0
    } else if links_at(bytes, end - 1) {
        link_count(bytes, end - 1) + 1
    } else {
        link_count(bytes, end - 1)
    }
}

/// Whether the PDF reader can be given a file.
pub open spec fn readable(bytes: Seq<u8>) -> bool {
    &&& forall|at: int| !#[trigger] fails_at(bytes, at)
    &&& link_count(bytes, bytes.len() as int) <= MAX_LINKS
}

/// The rest of a file, from a position on.
fn tail_of(bytes: &[u8], at: usize) -> (r: &[u8])
    requires
        at <= bytes@.len(),
    ensures
        r@ == tail(bytes@, at as int),
{
    slice_subrange(bytes, at, bytes.len())
}

fn find_value(file: &[u8], name: &str) -> (r: Option<usize>)
    requires
        2 <= file@.len(),
    ensures
        same_place(r, value_at(file@, name.spec_bytes())),
        r is Some ==> r->0 <= file@.len(),
{
    match find_entry(file, 2, name) {
        Some(value) => Some(skip_space(file, value)),
        None => None,
    }
}

fn starts_stream(file: &[u8]) -> (r: bool)
    ensures
        r == is_stream(file@),
{
    if !stands_twice(file, 0, LESS) {
        return false;
    }
    match read_dict(file, 2, "Length".as_bytes()) {
        Some((end, _)) => {
            let next = skip_space(file, end);
            stands_at(file, next, "stream".as_bytes())
        },
        None => false,
    }
}

/// Whether a value is the one that was looked for, or neither can be told.
pub open spec fn same_value(a: Option<u64>, b: Option<int>) -> bool {
    match (a, b) {
        (Some(a), Some(b)) => counts_as(a, b),
        (None, None) => true,
        _ => false,
    }
}

fn find_number_under(file: &[u8], start: usize, name: &str) -> (r: FoundNumber)
    requires
        start <= file@.len(),
    ensures
        r.stands_for(number_under(file@, start as int, name.spec_bytes())),
{
    match find_entry(file, start, name) {
        Some(value) => find_number(file, value),
        None => FoundNumber::Nothing,
    }
}

fn find_small(file: &[u8], start: usize, name: &str, default: u64) -> (r: Option<u64>)
    requires
        start <= file@.len(),
        default <= 255,
    ensures
        same_value(
            r,
            small_value(number_under(file@, start as int, name.spec_bytes()), default as int),
        ),
        r is Some ==> r->0 <= 255,
{
    match find_number_under(file, start, name) {
        FoundNumber::Nothing => Some(default),
        FoundNumber::Plain(value) => if value <= 255 {
            Some(value)
        } else {
            Some(default)
        },
        FoundNumber::Other => None,
    }
}

fn find_whole(file: &[u8], start: usize, name: &str, default: u64) -> (r: Option<u64>)
    requires
        start <= file@.len(),
        default <= 255,
    ensures
        same_value(
            r,
            whole_value(number_under(file@, start as int, name.spec_bytes()), default as int),
        ),
{
    match find_number_under(file, start, name) {
        FoundNumber::Nothing => Some(default),
        FoundNumber::Plain(value) => Some(value),
        FoundNumber::Other => None,
    }
}

/// Whether the reader fails on the parameters of a dictionary.
fn do_parameters_fail(file: &[u8], start: usize) -> (r: bool)
    requires
        start <= file@.len(),
    ensures
        r == parameters_fail(file@, start as int),
{
    let predictor = find_small(file, start, "Predictor", 1);
    if predictor == Some(1) {
        return false;
    }
    let columns = find_whole(file, start, "Columns", 1);
    let colors = find_small(file, start, "Colors", 1);
    let bits = find_small(file, start, "BitsPerComponent", 8);
    match (predictor, columns, colors, bits) {
        (Some(predictor), Some(columns), Some(colors), Some(bits)) => {
            proof {
                assert(0 <= colors * bits <= 255 * 255) by (nonlinear_arith)
                    requires
                        0 <= colors <= 255,
                        0 <= bits <= 255,
                ;
            }
            let sample: u64 = colors * bits;
            columns > MAX_COLUMNS || sample > MAX_SAMPLE_BITS || (predictor < 10 && (columns == 0
                || sample == 0))
        },
        _ => true,
    }
}

/// The items of the array or dictionary whose items start at a position.
fn read_items(file: &[u8], start: usize) -> (r: Option<Items>)
    requires
        start <= file@.len(),
    ensures
        r == rest_of_items(
            file@,
            start as int,
            1,
            (Items { failing: false, referring: false, referring_within: false }),
        ),
{
    let mut at: usize = start;
    let mut depth: usize = 1;
    let mut known = Items { failing: false, referring: false, referring_within: false };
    let ghost none = known;
    while at < file.len()
        invariant
            at <= file@.len(),
            1 <= depth <= MAX_NESTING,
            none == (Items { failing: false, referring: false, referring_within: false }),
            rest_of_items(file@, start as int, 1, none) == rest_of_items(
                file@,
                at as int,
                depth as int,
                known,
            ),
        decreases file@.len() - at,
    {
        let next = skip_space(file, at);
        if next > at {
            at = next;
        } else if stands_twice(file, at, LESS) {
            if depth >= MAX_NESTING {
                return None;
            }
            if depth == 1 && do_parameters_fail(file, at + 2) {
                known = Items {
                    failing: true,
                    referring: known.referring,
                    referring_within: known.referring_within,
                };
            }
            at += 2;
            depth += 1;
        } else if stands_twice(file, at, GREATER) {
            if depth <= 1 {
                return Some(known);
            }
            at += 2;
            depth -= 1;
        } else if file[at] == SQUARE_OPEN {
            if depth >= MAX_NESTING {
                return None;
            }
            at += 1;
            depth += 1;
        } else if file[at] == SQUARE_CLOSE {
            if depth <= 1 {
                return Some(known);
            }
            at += 1;
            depth -= 1;
        } else {
            match skip_token(file, at) {
                Some(end) => {
                    if file[at] == UPPER_R {
                        known = Items {
                            failing: known.failing,
                            referring: known.referring || depth == 1,
                            referring_within: true,
                        };
                    }
                    at = end;
                },
                None => {
                    return None;
                },
            }
        }
    }
    None
}

fn find_items(file: &[u8], at: usize) -> (r: Option<Items>)
    requires
        at <= file@.len(),
    ensures
        r == items_at(file@, at as int),
{
    if at >= file.len() {
        None
    } else if stands_twice(file, at, LESS) {
        read_items(file, at + 2)
    } else if file[at] == SQUARE_OPEN {
        read_items(file, at + 1)
    } else {
        None
    }
}

fn does_value_fail(file: &[u8], name: &str) -> (r: bool)
    requires
        2 <= file@.len(),
    ensures
        r == value_fails(file@, name.spec_bytes()),
{
    let at = match find_value(file, name) {
        Some(at) => at,
        None => {
            return false;
        },
    };
    if at >= file.len() {
        false
    } else if stands_twice(file, at, LESS) {
        do_parameters_fail(file, at + 2)
    } else if file[at] == SQUARE_OPEN {
        match find_items(file, at) {
            Some(items) => items.failing || items.referring,
            None => false,
        }
    } else {
        number_start(file[at])
    }
}

fn is_name(file: &[u8], at: usize, name: &str) -> (r: bool)
    requires
        at <= file@.len(),
    ensures
        r == (after_name(file@, at as int, name.spec_bytes()) is Some),
{
    name_end(file, at, name.as_bytes()).is_some()
}

fn can_predict(file: &[u8]) -> (r: bool)
    requires
        2 <= file@.len(),
    ensures
        r == may_predict(file@),
{
    if find_value(file, "F").is_some() {
        return true;
    }
    match find_value(file, "Filter") {
        Some(at) => !(at < file.len() && file[at] == SLASH) || is_name(file, at + 1, "FlateDecode")
            || is_name(file, at + 1, "Fl") || is_name(file, at + 1, "LZWDecode") || is_name(
            file,
            at + 1,
            "LZW",
        ),
        None => false,
    }
}

fn does_stream_fail(file: &[u8]) -> (r: bool)
    requires
        2 <= file@.len(),
    ensures
        r == stream_fails(file@),
{
    can_predict(file) && (does_value_fail(file, "DP") || does_value_fail(file, "DecodeParms"))
}

fn does_refer_under(file: &[u8], name: &str) -> (r: bool)
    requires
        2 <= file@.len(),
    ensures
        r == refers_under(file@, name.spec_bytes()),
{
    match find_value(file, name) {
        Some(at) => {
            if let FoundNumber::Other = find_number(file, at) {
                return true;
            }
            match find_items(file, at) {
                Some(items) => items.referring_within,
                None => false,
            }
        },
        None => false,
    }
}

fn does_refer_elsewhere(file: &[u8]) -> (r: bool)
    requires
        2 <= file@.len(),
    ensures
        r == refers_elsewhere(file@),
{
    does_refer_under(file, "Length") || does_refer_under(file, "Filter") || does_refer_under(
        file,
        "F",
    ) || does_refer_under(file, "DecodeParms") || does_refer_under(file, "DP")
        || does_refer_under(file, "Type") || does_refer_under(file, "N") || does_refer_under(
        file,
        "First",
    )
}

fn can_hold_objects(file: &[u8]) -> (r: bool)
    requires
        2 <= file@.len(),
    ensures
        r == may_hold_objects(file@),
{
    match find_value(file, "Type") {
        Some(at) => at < file.len() && (number_start(file[at]) || (file[at] == SLASH && is_name(
            file,
            at + 1,
            "ObjStm",
        ))),
        None => false,
    }
}

fn read_plain_number(file: &[u8], at: usize) -> (r: Option<(u64, usize)>)
    requires
        at <= file@.len(),
    ensures
        match r {
            Some((value, end)) => {
                &&& plain_number(file@, at as int) matches Some((number, number_end)) && counts_as(
                    value,
                    number,
                ) && end == number_end
                &&& end <= file@.len()
            },
            None => plain_number(file@, at as int) is None,
        },
{
    let start = skip_space(file, at);
    let (end, value) = read_digits(file, start);
    if start < end && !(end < file.len() && regular(file[end])) {
        Some((value, end))
    } else {
        None
    }
}

/// How wide the columns of a cross-reference table are.
enum FoundWidths {
    Nothing,
    Known(u8, u8, u8),
    Other,
}

impl FoundWidths {
    spec fn stand_for(self, widths: Widths) -> bool {
        match (self, widths) {
            (FoundWidths::Nothing, Widths::Nothing) => true,
            (FoundWidths::Known(a, b, c), Widths::Known(x, y, z)) => a == x && b == y && c == z,
            (FoundWidths::Other, Widths::Other) => true,
            _ => false,
        }
    }
}

fn find_widths(file: &[u8]) -> (r: FoundWidths)
    requires
        2 <= file@.len(),
    ensures
        r.stand_for(widths(file@)),
{
    let at = match find_value(file, "W") {
        Some(at) => at,
        None => {
            return FoundWidths::Nothing;
        },
    };
    if !(at < file.len() && file[at] == SQUARE_OPEN) {
        return FoundWidths::Nothing;
    }
    let (first, end) = match read_plain_number(file, at + 1) {
        Some(found) => found,
        None => {
            return FoundWidths::Other;
        },
    };
    let (second, end) = match read_plain_number(file, end) {
        Some(found) => found,
        None => {
            return FoundWidths::Other;
        },
    };
    let (third, end) = match read_plain_number(file, end) {
        Some(found) => found,
        None => {
            return FoundWidths::Other;
        },
    };
    let close = skip_space(file, end);
    if !(close < file.len() && file[close] == SQUARE_CLOSE) {
        FoundWidths::Other
    } else if first > 255 || second > 255 || third > 255 {
        FoundWidths::Nothing
    } else {
        FoundWidths::Known(first as u8, second as u8, third as u8)
    }
}

/// The number that bytes stand for.
fn read_bytes(bytes: &[u8], start: usize, end: usize) -> (r: u64)
    requires
        start <= end <= bytes@.len(),
    ensures
        counts_as(r, bytes_value(bytes@.subrange(start as int, end as int))),
{
    let mut at: usize = start;
    let mut value: u64 = 0;
    proof {
        assert(bytes@.subrange(start as int, start as int).len() == 0);
    }
    while at < end
        invariant
            start <= at <= end <= bytes@.len(),
            counts_as(value, bytes_value(bytes@.subrange(start as int, at as int))),
        decreases end - at,
    {
        let ghost before = bytes@.subrange(start as int, at as int);
        let ghost after = bytes@.subrange(start as int, at + 1);
        proof {
            assert(after.drop_last() =~= before);
            assert(after.last() == bytes@[at as int]);
        }
        if value <= MAX_NUMBER {
            value = 256 * value + bytes[at] as u64;
            if value > MAX_NUMBER {
                value = MAX_NUMBER + 1;
            }
        }
        at += 1;
    }
    value
}

/// Whether no number is too high.
spec fn all_fit(numbers: Seq<u64>) -> bool {
    forall|i: int| 0 <= i < numbers.len() ==> #[trigger] numbers[i] <= MAX_NUMBER
}

/// Whether a number is among others.
spec fn among(numbers: Seq<u64>, number: int) -> bool {
    0 <= number <= MAX_NUMBER && numbers.contains(number as u64)
}

/// Adds a number to others, unless it is too high or was added just before.
fn add_number(numbers: &mut Vec<u64>, number: u64)
    requires
        all_fit(old(numbers)@),
    ensures
        all_fit(final(numbers)@),
        forall|n: int| #[trigger]
            among(final(numbers)@, n) <==> among(old(numbers)@, n) || (n == number && n
                <= MAX_NUMBER),
{
    let count: usize = numbers.len();
    if number > MAX_NUMBER || (count > 0 && numbers[count - 1] == number) {
        return;
    }
    numbers.push(number);
    proof {
        let before = old(numbers)@;
        let after = numbers@;
        assert(after[before.len() as int] == number);
        assert forall|n: int| #[trigger] among(after, n) <==> among(before, n) || (n == number && n
            <= MAX_NUMBER) by {
            if among(before, n) {
                let i = before.index_of(n as u64);
                assert(after[i] == n as u64);
            }
            if among(after, n) && n != number {
                let i = after.index_of(n as u64);
                assert(before[i] == n as u64);
            }
        }
    }
}

fn is_among(numbers: &Vec<u64>, number: u64) -> (r: bool)
    ensures
        number <= MAX_NUMBER ==> r == among(numbers@, number as int),
{
    let mut i: usize = 0;
    while i < numbers.len()
        invariant
            i <= numbers@.len(),
            forall|j: int| 0 <= j < i ==> numbers@[j] != number,
        decreases numbers@.len() - i,
    {
        if numbers[i] == number {
            return true;
        }
        i += 1;
    }
    false
}

/// The columns of a cross-reference table.
#[derive(Clone, Copy)]
struct Columns {
    first: u8,
    second: u8,
    third: u8,
}

/// Whether a number is among others, or the rest of a table has it.
spec fn told(numbers: Seq<u64>, table: Seq<u8>, at: int, columns: Columns, number: int) -> bool {
    among(numbers, number) || (0 <= number <= MAX_NUMBER && names_stream(
        table,
        at,
        columns.first as int,
        columns.second as int,
        columns.third as int,
        number,
    ))
}

/// Adds the numbers of the streams that hold objects according to a cross-reference table.
fn add_named(table: &[u8], columns: Columns, numbers: &mut Vec<u64>)
    requires
        1 <= columns.second <= 8,
        all_fit(old(numbers)@),
    ensures
        all_fit(final(numbers)@),
        forall|n: int| #[trigger]
            among(final(numbers)@, n) <==> told(old(numbers)@, table@, 0, columns, n),
{
    let kind: usize = if columns.first == 0 {
        0
    } else {
        1
    };
    let entry: usize = kind + columns.second as usize + columns.third as usize;
    let total: usize = table.len();
    let ghost wanted = numbers@;
    let mut at: usize = 0;
    while total - at >= entry
        invariant
            at <= total == table@.len(),
            wanted == old(numbers)@,
            1 <= columns.second <= 8,
            kind == (if columns.first == 0 {
                0int
            } else {
                1
            }),
            entry == kind + columns.second + columns.third,
            all_fit(numbers@),
            forall|n: int| #[trigger]
                told(numbers@, table@, at as int, columns, n) <==> told(
                    wanted,
                    table@,
                    0,
                    columns,
                    n,
                ),
        decreases table@.len() - at,
    {
        let ghost before = numbers@;
        if kind == 1 && table[at] > 2 {
            proof {
                assert forall|n: int| #[trigger] among(numbers@, n) <==> told(
                    wanted,
                    table@,
                    0,
                    columns,
                    n,
                ) by {
                    assert(told(numbers@, table@, at as int, columns, n) <==> among(numbers@, n));
                }
            }
            return;
        }
        if kind == 1 && table[at] == 2 {
            let number = read_bytes(table, at + 1, at + 1 + columns.second as usize);
            add_number(numbers, number);
        }
        proof {
            assert forall|n: int| #[trigger]
                told(numbers@, table@, at + entry, columns, n) <==> told(
                wanted,
                table@,
                0,
                columns,
                n,
            ) by {
                assert(told(before, table@, at as int, columns, n) <==> told(
                    wanted,
                    table@,
                    0,
                    columns,
                    n,
                ));
                assert(among(numbers@, n) || !among(numbers@, n));
            }
        }
        at += entry;
    }
    proof {
        assert forall|n: int| #[trigger] among(numbers@, n) <==> told(
            wanted,
            table@,
            0,
            columns,
            n,
        ) by {
            assert(told(numbers@, table@, at as int, columns, n) <==> among(numbers@, n));
        }
    }
}

fn back_over_space(bytes: &[u8], start: usize) -> (r: usize)
    requires
        start <= bytes@.len(),
    ensures
        r == before_space(bytes@, start as int),
        r <= start,
{
    let mut at: usize = start;
    while at > 0 && space(bytes[at - 1])
        invariant
            at <= start <= bytes@.len(),
            before_space(bytes@, start as int) == before_space(bytes@, at as int),
        decreases at,
    {
        at -= 1;
    }
    at
}

fn back_over_digits(bytes: &[u8], start: usize) -> (r: usize)
    requires
        start <= bytes@.len(),
    ensures
        r == before_digits(bytes@, start as int),
        r <= start,
        forall|i: int| r <= i < start ==> is_digit(bytes@[i]),
{
    let mut at: usize = start;
    while at > 0 && digit(bytes[at - 1])
        invariant
            at <= start <= bytes@.len(),
            before_digits(bytes@, start as int) == before_digits(bytes@, at as int),
            forall|i: int| at <= i < start ==> is_digit(bytes@[i]),
        decreases at,
    {
        at -= 1;
    }
    at
}

fn find_object_number(bytes: &[u8], at: usize) -> (r: Option<(usize, usize)>)
    requires
        at <= bytes@.len(),
    ensures
        match r {
            Some((start, end)) => {
                &&& object_number(bytes@, at as int) == Some((start as int, end as int))
                &&& start < end < bytes@.len()
                &&& !is_digit(bytes@[end as int])
                &&& forall|i: int| start <= i < end ==> is_digit(bytes@[i])
            },
            None => object_number(bytes@, at as int) is None,
        },
{
    let word_end = back_over_space(bytes, at);
    if word_end < 3 || !stands_at(bytes, word_end - 3, "obj".as_bytes()) {
        proof {
            if word_end < 3 {
                assert(!word_at(bytes@, word_end - 3, "obj".spec_bytes()));
            }
        }
        return None;
    }
    let word = word_end - 3;
    let generation_end = back_over_space(bytes, word);
    let generation = back_over_digits(bytes, generation_end);
    let end = back_over_space(bytes, generation);
    let start = back_over_digits(bytes, end);
    if start < end && end < generation && generation < generation_end && generation_end < word && (
    start == 0 || space(bytes[start - 1])) {
        proof {
            lemma_space_before(bytes@, generation as int, end as int);
        }
        Some((start, end))
    } else {
        None
    }
}

proof fn lemma_space_before(bytes: Seq<u8>, at: int, end: int)
    requires
        0 <= at <= bytes.len(),
        end == before_space(bytes, at),
        end < at,
    ensures
        is_space(bytes[end]),
    decreases at,
{
    if before_space(bytes, at - 1) < at - 1 {
        lemma_space_before(bytes, at - 1, end);
    }
}

proof fn lemma_digits_end(bytes: Seq<u8>, from: int, end: int)
    requires
        0 <= from <= end < bytes.len(),
        !is_digit(bytes[end]),
        forall|i: int| from <= i < end ==> is_digit(bytes[i]),
    ensures
        after_digits(bytes, from) == end,
    decreases end - from,
{
    if from < end {
        lemma_digits_end(bytes, from + 1, end);
    }
}

/// What is known of the streams that hold objects.
struct Named {
    numbers: Vec<u64>,
    obscure: bool,
}

impl Named {
    /// Whether this is what the streams say that start in the first `end` bytes.
    spec fn known(self, bytes: Seq<u8>, end: int) -> bool {
        &&& all_fit(self.numbers@)
        &&& self.obscure == is_obscure(bytes, end)
        &&& forall|n: int| #[trigger] among(self.numbers@, n) <==> is_named(bytes, end, n)
    }
}

/// Finds the streams that hold objects; nothing, where the reader fails on one that says so.
fn find_named(bytes: &[u8]) -> (r: Option<Named>)
    ensures
        r is None ==> !readable(bytes@),
        r is Some ==> r->0.known(bytes@, bytes@.len() as int),
{
    let mut numbers: Vec<u64> = Vec::new();
    let mut obscure = false;
    let mut at: usize = 0;
    while at < bytes.len()
        invariant
            at <= bytes@.len(),
            all_fit(numbers@),
            obscure == is_obscure(bytes@, at as int),
            forall|n: int| #[trigger] among(numbers@, n) <==> is_named(bytes@, at as int, n),
        decreases bytes@.len() - at,
    {
        let file = tail_of(bytes, at);
        let ghost before = numbers@;
        let ghost was_obscure = obscure;
        if starts_stream(file) {
            let widths = find_widths(file);
            match widths {
                FoundWidths::Nothing => {},
                FoundWidths::Other => {
                    obscure = true;
                },
                FoundWidths::Known(first, second, third) => {
                    if does_stream_fail(file) {
                        proof {
                            assert(fails_at(bytes@, at as int));
                        }
                        return None;
                    }
                    if 1 <= second && second <= 8 {
                        if let Some(table) = decode_stream(file) {
                            add_named(table.as_slice(), Columns { first, second, third }, &mut numbers);
                        }
                    }
                },
            }
            let ghost named = numbers@;
            proof {
                assert forall|n: int| #[trigger] among(named, n) <==> among(before, n) || (0 <= n
                    <= MAX_NUMBER && table_names(tail(bytes@, at as int), n)) by {}
            }
            if can_hold_objects(file) {
                match find_object_number(bytes, at) {
                    Some((start, end)) => {
                        let (_, number) = read_digits(bytes, start);
                        proof {
                            lemma_digits_end(bytes@, start as int, end as int);
                        }
                        add_number(&mut numbers, number);
                    },
                    None => {
                        obscure = true;
                    },
                }
            }
        }
        proof {
            lemma_one_more(bytes@, at as int);
            assert(obscure == (was_obscure || obscures(bytes@, at as int)));
            assert forall|n: int| #[trigger] among(numbers@, n) <==> is_named(bytes@, at + 1, n) by {
                assert(among(before, n) <==> is_named(bytes@, at as int, n));
            }
        }
        at += 1;
    }
    Some(Named { numbers, obscure })
}

proof fn lemma_one_more(bytes: Seq<u8>, at: int)
    requires
        0 <= at < bytes.len(),
    ensures
        is_obscure(bytes, at + 1) == (is_obscure(bytes, at) || obscures(bytes, at)),
        forall|n: int| #[trigger]
            is_named(bytes, at + 1, n) <==> is_named(bytes, at, n) || (0 <= n <= MAX_NUMBER
                && names_at(bytes, at, n)),
{
    if obscures(bytes, at) {
        assert(is_obscure(bytes, at + 1));
    }
    assert forall|n: int| 0 <= n <= MAX_NUMBER && names_at(bytes, at, n) implies #[trigger] is_named(
        bytes,
        at + 1,
        n,
    ) by {}
}

/// Whether the stream at a position can be one that holds objects.
fn can_be_named(bytes: &[u8], at: usize, named: &Named) -> (r: bool)
    requires
        at <= bytes@.len(),
        named.known(bytes@, bytes@.len() as int),
    ensures
        r == may_be_named(bytes@, at as int),
{
    if named.obscure {
        return true;
    }
    let ghost all = bytes@.len() as int;
    match find_object_number(bytes, at) {
        Some((start, end)) => {
            let mut from: usize = start;
            while from < end
                invariant
                    start <= from <= end < bytes@.len(),
                    object_number(bytes@, at as int) == Some((start as int, end as int)),
                    all == bytes@.len(),
                    named.known(bytes@, all),
                    !is_digit(bytes@[end as int]),
                    forall|i: int| start <= i < end ==> is_digit(bytes@[i]),
                    forall|k: int|
                        start <= k < from ==> !is_named(
                            bytes@,
                            all,
                            #[trigger] digits_value(bytes@.subrange(k, end as int)),
                        ),
                decreases end - from,
            {
                let (_, number) = read_digits(bytes, from);
                proof {
                    lemma_digits_end(bytes@, from as int, end as int);
                }
                let ghost value = digits_value(bytes@.subrange(from as int, end as int));
                if number <= MAX_NUMBER && is_among(&named.numbers, number) {
                    proof {
                        assert(among(named.numbers@, value));
                        assert(digits_named(bytes@, start as int, end as int));
                    }
                    return true;
                }
                proof {
                    assert(!among(named.numbers@, value));
                }
                from += 1;
            }
            false
        },
        None => {
            if named.numbers.len() > 0 {
                proof {
                    assert(among(named.numbers@, named.numbers@[0] as int));
                }
                true
            } else {
                proof {
                    assert forall|number: int| !#[trigger] is_named(bytes@, all, number) by {
                        assert(!among(named.numbers@, number));
                    }
                }
                false
            }
        },
    }
}

/// Tells whether the PDF reader can be given a file.
pub fn is_readable(bytes: &[u8]) -> (r: bool)
    ensures
        r == readable(bytes@),
{
    let named = match find_named(bytes) {
        Some(named) => named,
        None => {
            return false;
        },
    };
    let mut links: u64 = 0;
    let mut at: usize = 0;
    while at < bytes.len()
        invariant
            at <= bytes@.len(),
            named.known(bytes@, bytes@.len() as int),
            forall|before: int| before < at ==> !#[trigger] fails_at(bytes@, before),
            links == link_count(bytes@, at as int),
            links <= MAX_LINKS,
        decreases bytes@.len() - at,
    {
        let file = tail_of(bytes, at);
        if starts_stream(file) {
            let is_table = match find_widths(file) {
                FoundWidths::Nothing => false,
                _ => true,
            };
            if is_table || can_hold_objects(file) || can_be_named(bytes, at, &named) {
                if does_stream_fail(file) {
                    proof {
                        assert(fails_at(bytes@, at as int));
                    }
                    return false;
                }
                if does_refer_elsewhere(file) {
                    links += 1;
                    if links > MAX_LINKS {
                        proof {
                            assert(links_at(bytes@, at as int));
                            lemma_links_add_up(bytes@, at + 1, bytes@.len() as int);
                        }
                        return false;
                    }
                }
            }
        }
        at += 1;
    }
    true
}

proof fn lemma_links_add_up(bytes: Seq<u8>, some: int, all: int)
    requires
        some <= all,
    ensures
        link_count(bytes, some) <= link_count(bytes, all),
    decreases all - some,
{
    if some < all {
        lemma_links_add_up(bytes, some, all - 1);
    }
}

/// Rows without a predictor never fail, and neither do rows of at least one bit, with samples of no
/// more than 255 bits and no more than 16777215 samples. Empty rows fail with a predictor that puts
/// nothing before them, and rows of which something is unknown count as failing.
pub proof fn proper_rows_do_not_fail(predictor: int, columns: int, colors: int, bits: int)
    requires
        0 <= predictor <= 255,
        0 <= columns,
        0 <= colors <= 255,
        0 <= bits <= 255,
    ensures
        ({
            let fail = rows_fail(Some(predictor), Some(columns), Some(colors), Some(bits));
            &&& predictor == 1 ==> !fail
            &&& 1 <= columns <= 0xff_ffff && 1 <= colors && 1 <= bits && colors * bits <= 255
                ==> !fail
            &&& predictor != 1 && (columns > 0xff_ffff || colors * bits > 255) ==> fail
            &&& predictor < 10 && predictor != 1 && (columns == 0 || colors == 0 || bits == 0)
                ==> fail
            &&& predictor >= 10 && columns <= 0xff_ffff && colors * bits <= 255 ==> !fail
        }),
        predictor != 1 ==> rows_fail(Some(predictor), None, Some(colors), Some(bits)) && rows_fail(
            Some(predictor),
            Some(columns),
            None,
            Some(bits),
        ) && rows_fail(Some(predictor), Some(columns), Some(colors), None),
        rows_fail(None, Some(columns), Some(colors), Some(bits)),
{
    if colors >= 1 && bits >= 1 {
        assert(colors * bits >= 1) by (nonlinear_arith)
            requires
                colors >= 1,
                bits >= 1,
        ;
    } else {
        assert(colors * bits == 0) by (nonlinear_arith)
            requires
                colors == 0 || bits == 0,
        ;
    }
}

proof fn lemma_no_links(bytes: Seq<u8>, end: int)
    requires
        forall|at: int| !#[trigger] links_at(bytes, at),
    ensures
        link_count(bytes, end) == 0,
    decreases end,
{
    if end > 0 {
        lemma_no_links(bytes, end - 1);
    }
}

/// A file that has no streams can be read.
pub proof fn files_without_streams_can_be_read(bytes: Seq<u8>)
    requires
        forall|at: int| 0 <= at ==> !#[trigger] word_at(bytes, at, "stream".spec_bytes()),
    ensures
        readable(bytes),
{
    assert forall|at: int| !#[trigger] stream_starts(bytes, at) by {
        if stream_starts(bytes, at) {
            let file = tail(bytes, at);
            let word = "stream".spec_bytes();
            let dict = dict_at(file, 2, "Length".spec_bytes())->0;
            let place = after_space(file, dict.end, false);
            assert(word_at(file, place, word));
            assert(bytes.subrange(at + place, at + place + word.len()) =~= file.subrange(
                place,
                place + word.len(),
            ));
            assert(word_at(bytes, at + place, word));
        }
    }
    assert forall|at: int| !#[trigger] fails_at(bytes, at) by {
        assert(!stream_starts(bytes, at));
    }
    assert forall|at: int| !#[trigger] links_at(bytes, at) by {
        assert(!stream_starts(bytes, at));
    }
    lemma_no_links(bytes, bytes.len() as int);
}

/// A file can be read whatever its streams are, as long as none of them holds a cross-reference table
/// or is an object stream.
pub proof fn other_streams_do_not_matter(bytes: Seq<u8>)
    requires
        forall|at: int| #[trigger]
            stream_starts(bytes, at) ==> value_at(tail(bytes, at), "W".spec_bytes()) is None
                && value_at(tail(bytes, at), "Type".spec_bytes()) is None,
    ensures
        readable(bytes),
{
    assert forall|at: int| !#[trigger] obscures(bytes, at) by {
        if stream_starts(bytes, at) {
        }
    }
    assert forall|at: int, number: int| !#[trigger] names_at(bytes, at, number) by {
        if stream_starts(bytes, at) {
        }
    }
    assert forall|at: int| !#[trigger] is_decompressed(bytes, at) by {
        if stream_starts(bytes, at) {
            assert(!may_be_named(bytes, at)) by {
                if let Some((start, end)) = object_number(bytes, at) {
                    if digits_named(bytes, start, end) {
                        let from = choose|from: int|
                            start <= from < end && is_named(
                                bytes,
                                bytes.len() as int,
                                #[trigger] digits_value(bytes.subrange(from, end)),
                            );
                        let number = digits_value(bytes.subrange(from, end));
                        assert(is_named(bytes, bytes.len() as int, number));
                    }
                }
            }
        }
    }
    assert forall|at: int| !#[trigger] fails_at(bytes, at) by {
        assert(!is_decompressed(bytes, at));
    }
    assert forall|at: int| !#[trigger] links_at(bytes, at) by {
        assert(!is_decompressed(bytes, at));
    }
    lemma_no_links(bytes, bytes.len() as int);
}

/// A file can be read, too, if none of its streams has parameters or refers elsewhere, whatever the
/// streams hold.
pub proof fn plain_streams_can_be_read(bytes: Seq<u8>)
    requires
        forall|at: int| #[trigger]
            stream_starts(bytes, at) ==> value_at(tail(bytes, at), "DecodeParms".spec_bytes())
                is None && value_at(tail(bytes, at), "DP".spec_bytes()) is None
                && !refers_elsewhere(tail(bytes, at)),
    ensures
        readable(bytes),
{
    assert forall|at: int| !#[trigger] fails_at(bytes, at) by {
        if stream_starts(bytes, at) {
        }
    }
    assert forall|at: int| !#[trigger] links_at(bytes, at) by {
        if stream_starts(bytes, at) {
        }
    }
    lemma_no_links(bytes, bytes.len() as int);
}

} // verus!
