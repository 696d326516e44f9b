//! The dictionaries of a PDF file.

use vstd::prelude::*;
use vstd::string::*;

use crate::tokens::{
    after_name, after_space, after_token, name_end, skip_space, skip_token, stands_twice, twice,
    GREATER, LESS, SLASH, SQUARE_CLOSE, SQUARE_OPEN,
};

verus! {

/// How deep dictionaries and arrays can be nested before the PDF reader gives up.
pub const MAX_NESTING: usize = 512;

/// A dictionary: where it ends, and where the value under a key stands.
pub struct DictAt {
    pub end: int,
    pub value: Option<int>,
}

/// The rest of a dictionary, from a position that is `depth` dictionaries and arrays deep in it.
/// `found` is where the value under the key `name` stands as far as it was met; of two such entries
/// the last one counts. Where a key is expected, anything else is passed over.
pub open spec fn rest_of_dict(
    bytes: Seq<u8>,
    at: int,
    depth: int,
    expects_key: bool,
    name: Seq<u8>,
    found: Option<int>,
) -> Option<DictAt>
    decreases bytes.len() - at,
{
    let next = after_space(bytes, at, false);
    if at < 0 || at >= bytes.len() {
        None
    } else if at < next <= bytes.len() {
        rest_of_dict(bytes, next, depth, expects_key, name, found)
    } else if twice(bytes, at, LESS) {
        if depth < MAX_NESTING {
            rest_of_dict(bytes, at + 2, depth + 1, true, name, found)
        } else {
            None
        }
    } else if twice(bytes, at, GREATER) {
        if depth <= 1 {
            Some(DictAt { end: at + 2, value: found })
        } else {
            rest_of_dict(bytes, at + 2, depth - 1, true, name, found)
        }
    } else if bytes[at] == SQUARE_OPEN {
        if depth < MAX_NESTING {
            rest_of_dict(bytes, at + 1, depth + 1, true, name, found)
        } else {
            None
        }
    } else if bytes[at] == SQUARE_CLOSE {
        if depth <= 1 {
            None
        } else {
            rest_of_dict(bytes, at + 1, depth - 1, true, name, found)
        }
    } else {
        match after_token(bytes, at) {
            Some(end) => if at < end <= bytes.len() {
                if depth == 1 && expects_key && bytes[at] == SLASH {
                    rest_of_dict(
                        bytes,
                        end,
                        depth,
                        false,
                        name,
                        if after_name(bytes, at + 1, name) is Some {
                            Some(end)
                        } else {
                            found
                        },
                    )
                } else {
                    rest_of_dict(bytes, end, depth, true, name, found)
                }
            } else {
                None
            },
            None => None,
        }
    }
}

/// The dictionary whose entries start at a position.
pub open spec fn dict_at(bytes: Seq<u8>, start: int, name: Seq<u8>) -> Option<DictAt> {
    rest_of_dict(bytes, start, 1, true, name, None)
}

/// Where the value under a key stands, in the dictionary whose entries start at a position.
pub open spec fn entry(bytes: Seq<u8>, start: int, name: Seq<u8>) -> Option<int> {
    match dict_at(bytes, start, name) {
        Some(dict) => dict.value,
        None => None,
    }
}

/// Whether two positions are the same, or neither is there.
pub open spec fn same_place(a: Option<usize>, b: Option<int>) -> bool {
    match (a, b) {
        (Some(a), Some(b)) => a == b,
        (None, None) => true,
        _ => false,
    }
}

/// Reads a dictionary: where it ends, and where the value under a key stands.
pub(crate) fn read_dict(bytes: &[u8], start: usize, name: &[u8]) -> (r: Option<
    (usize, Option<usize>),
>)
    requires
        start <= bytes@.len(),
    ensures
        match r {
            Some((end, value)) => {
                &&& dict_at(bytes@, start as int, name@) is Some
                &&& dict_at(bytes@, start as int, name@)->0.end == end
                &&& same_place(value, dict_at(bytes@, start as int, name@)->0.value)
                &&& end <= bytes@.len()
                &&& value is Some ==> value->0 <= bytes@.len()
            },
            None => dict_at(bytes@, start as int, name@) is None,
        },
{
    let mut at: usize = start;
    let mut depth: usize = 1;
    let mut expects_key = true;
    let mut found: Option<usize> = None;
    let ghost mut place: Option<int> = None;
    while at < bytes.len()
        invariant
            at <= bytes@.len(),
            1 <= depth <= MAX_NESTING,
            same_place(found, place),
            found is Some ==> found->0 <= bytes@.len(),
            dict_at(bytes@, start as int, name@) == rest_of_dict(
                bytes@,
                at as int,
                depth as int,
                expects_key,
                name@,
                place,
            ),
        decreases bytes@.len() - at,
    {
        let next = skip_space(bytes, at);
        if next > at {
            at = next;
        } else if stands_twice(bytes, at, LESS) {
            if depth >= MAX_NESTING {
                return None;
            }
            at += 2;
            depth += 1;
            expects_key = true;
        } else if stands_twice(bytes, at, GREATER) {
            if depth <= 1 {
                return Some((at + 2, found));
            }
            at += 2;
            depth -= 1;
            expects_key = true;
        } else if bytes[at] == SQUARE_OPEN {
            if depth >= MAX_NESTING {
                return None;
            }
            at += 1;
            depth += 1;
            expects_key = true;
        } else if bytes[at] == SQUARE_CLOSE {
            if depth <= 1 {
                return None;
            }
            at += 1;
            depth -= 1;
            expects_key = true;
        } else {
            let end = match skip_token(bytes, at) {
                Some(end) => end,
                None => {
                    return None;
                },
            };
            if depth == 1 && expects_key && bytes[at] == SLASH {
                if name_end(bytes, at + 1, name).is_some() {
                    found = Some(end);
                    proof {
                        place = Some(end as int);
                    }
                }
                expects_key = false;
            } else {
                expects_key = true;
            }
            at = end;
        }
    }
    None
}

/// Where the value under a key stands.
pub(crate) fn find_entry(bytes: &[u8], start: usize, name: &str) -> (r: Option<usize>)
    requires
        start <= bytes@.len(),
    ensures
        same_place(r, entry(bytes@, start as int, name.spec_bytes())),
        r is Some ==> r->0 <= bytes@.len(),
{
    match read_dict(bytes, start, name.as_bytes()) {
        Some((_, value)) => value,
        None => None,
    }
}

} // verus!
