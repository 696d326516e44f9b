//! Small operations on text, each stated over the sequence of characters.

use vstd::prelude::*;
use vstd::string::*;
use vstd::utf8::*;

verus! {

/// The character of a decimal digit.
pub open spec fn digit(d: int) -> char {
    (48 + d) as char
}

/// A number in decimal notation, without leading zeros.
pub open spec fn decimal(n: nat) -> Seq<char>
    decreases n,
{
    if n < 10 {
        seq![digit(n as int)]
    } else {
        decimal(n / 10).push(digit((n % 10) as int))
    }
}

/// Whether Unicode gives the character the property `White_Space`.
pub open spec fn is_white_space(c: char) -> bool {
    let u = c as u32;
    ||| 0x9 <= u <= 0xd
    ||| u == 0x20
    ||| u == 0x85
    ||| u == 0xa0
    ||| u == 0x1680
    ||| 0x2000 <= u <= 0x200a
    ||| u == 0x2028
    ||| u == 0x2029
    ||| u == 0x202f
    ||| u == 0x205f
    ||| u == 0x3000
}

/// The text without the white space at its two ends.
pub open spec fn trimmed(s: Seq<char>) -> Seq<char>
    decreases s.len(),
{
    if s.len() == 0 {
        s
    } else if is_white_space(s.first()) {
        trimmed(s.drop_first())
    } else if is_white_space(s.last()) {
        trimmed(s.drop_last())
    } else {
        s
    }
}

/// What stands before the first occurrence of `c`, or all of the text.
pub open spec fn before_first(s: Seq<char>, c: char) -> Seq<char>
    decreases s.len(),
{
    if s.len() == 0 || s.first() == c {
        Seq::empty()
    } else {
        seq![s.first()] + before_first(s.drop_first(), c)
    }
}

/// What stands behind the last occurrence of `c`, or all of the text.
pub open spec fn after_last(s: Seq<char>, c: char) -> Seq<char>
    decreases s.len(),
{
    if s.len() == 0 || s.last() == c {
        Seq::empty()
    } else {
        after_last(s.drop_last(), c).push(s.last())
    }
}

/// The first `n` bytes of the text where they end at a character boundary, else all of the text.
pub open spec fn byte_prefix(s: Seq<char>, n: int) -> Seq<char> {
    if is_char_boundary(encode_utf8(s), n) {
        decode_utf8(encode_utf8(s).subrange(0, n))
    } else {
        s
    }
}

/// An ASCII capital letter as a small letter, any other character as it is.
pub open spec fn ascii_lower(c: char) -> char {
    if 'A' <= c <= 'Z' {
        (c as u32 + 32) as char
    } else {
        c
    }
}

/// The text with its ASCII capital letters as small letters.
pub open spec fn ascii_lowercase(s: Seq<char>) -> Seq<char> {
    s.map_values(|c: char| ascii_lower(c))
}

/// Appends one decimal digit.
fn push_digit(out: &mut String, d: u64)
    requires
        d < 10,
    ensures
        final(out)@ == old(out)@.push(digit(d as int)),
{
    let text: &str = match d {
        0 => "0",
        1 => "1",
        2 => "2",
        3 => "3",
        4 => "4",
        5 => "5",
        6 => "6",
        7 => "7",
        8 => "8",
        _ => "9",
    };
    proof {
        reveal_strlit("0");
        reveal_strlit("1");
        reveal_strlit("2");
        reveal_strlit("3");
        reveal_strlit("4");
        reveal_strlit("5");
        reveal_strlit("6");
        reveal_strlit("7");
        reveal_strlit("8");
        reveal_strlit("9");
        assert(text@ =~= seq![digit(d as int)]);
        assert(old(out)@ + seq![digit(d as int)] =~= old(out)@.push(digit(d as int)));
    }
    out.append(text);
}

/// Appends a number in decimal notation.
pub fn push_decimal(out: &mut String, n: u64)
    ensures
        final(out)@ == old(out)@ + decimal(n as nat),
    decreases n,
{
    let ghost before = out@;
    if n >= 10 {
        push_decimal(out, n / 10);
        proof {
            assert((n / 10) as nat == (n as nat) / 10);
            assert(before + decimal(n as nat) =~= (before + decimal((n / 10) as nat)).push(
                digit((n % 10) as int),
            ));
        }
    } else {
        proof {
            assert(before + decimal(n as nat) =~= before.push(digit(n as int)));
        }
    }
    push_digit(out, n % 10);
}

/// Tells whether a character is white space.
pub fn white_space(c: char) -> (r: bool)
    ensures
        r == is_white_space(c),
{
    let u: u32 = c as u32;
    (0x9 <= u && u <= 0xd) || u == 0x20 || u == 0x85 || u == 0xa0 || u == 0x1680 || (0x2000 <= u
        && u <= 0x200a) || u == 0x2028 || u == 0x2029 || u == 0x202f || u == 0x205f || u == 0x3000
}

proof fn lemma_trimmed_front(s: Seq<char>, k: int)
    requires
        0 <= k <= s.len(),
        forall|i: int| 0 <= i < k ==> is_white_space(#[trigger] s[i]),
    ensures
        trimmed(s) == trimmed(s.skip(k)),
    decreases k,
{
    if k == 0 {
        assert(s.skip(0) =~= s);
    } else {
        assert(is_white_space(s[0]));
        lemma_trimmed_front(s.drop_first(), k - 1);
        assert(s.drop_first().skip(k - 1) =~= s.skip(k));
    }
}

proof fn lemma_trimmed_back(s: Seq<char>, end: int)
    requires
        0 < end <= s.len(),
        !is_white_space(s[0]),
        !is_white_space(s[end - 1]),
        forall|i: int| end <= i < s.len() ==> is_white_space(#[trigger] s[i]),
    ensures
        trimmed(s) == s.take(end),
    decreases s.len(),
{
    if end == s.len() {
        assert(s.take(end) =~= s);
    } else {
        assert(is_white_space(s[s.len() - 1]));
        lemma_trimmed_back(s.drop_last(), end);
        assert(s.drop_last().take(end) =~= s.take(end));
    }
}

/// The text without the white space at its two ends.
pub fn trim<'a>(s: &'a str) -> (r: &'a str)
    ensures
        r@ == trimmed(s@),
{
    let n: usize = s.unicode_len();
    let mut i: usize = 0;
    let mut start: usize = 0;
    let mut end: usize = 0;
    for c in it: s.chars()
        invariant
            it.seq() == s@,
            n == s@.len(),
            i == it.index(),
            i <= n,
            end == 0 ==> start == i,
            end != 0 ==> start < end <= i && !is_white_space(s@[start as int]) && !is_white_space(
                s@[end - 1],
            ),
            forall|j: int| 0 <= j < start ==> is_white_space(#[trigger] s@[j]),
            forall|j: int| end <= j < i && start <= j ==> is_white_space(#[trigger] s@[j]),
    {
        let white: bool = white_space(c);
        i += 1;
        if !white {
            end = i;
        } else if end == 0 {
            start = i;
        }
    }
    if end == 0 {
        proof {
            lemma_trimmed_front(s@, n as int);
            assert(s@.skip(n as int) =~= Seq::empty());
            assert(s@.subrange(0, 0) =~= Seq::empty());
        }
        s.substring_char(0, 0)
    } else {
        proof {
            lemma_trimmed_front(s@, start as int);
            let rest = s@.skip(start as int);
            assert(rest[end - start - 1] == s@[end - 1]);
            lemma_trimmed_back(rest, end - start);
            assert(rest.take(end - start) =~= s@.subrange(start as int, end as int));
        }
        s.substring_char(start, end)
    }
}

proof fn lemma_before_first(s: Seq<char>, c: char, k: int)
    requires
        0 <= k <= s.len(),
        forall|i: int| 0 <= i < k ==> #[trigger] s[i] != c,
        k < s.len() ==> s[k] == c,
    ensures
        before_first(s, c) == s.take(k),
    decreases k,
{
    if k == 0 {
        assert(s.take(0) =~= Seq::empty());
    } else {
        assert(s[0] != c);
        lemma_before_first(s.drop_first(), c, k - 1);
        assert(seq![s.first()] + s.drop_first().take(k - 1) =~= s.take(k));
    }
}

/// The first line of the text, without its line break.
pub fn first_line<'a>(s: &'a str) -> (r: &'a str)
    ensures
        r@ == before_first(s@, '\n'),
{
    let n: usize = s.unicode_len();
    let mut i: usize = 0;
    let mut end: usize = n;
    for c in it: s.chars()
        invariant
            it.seq() == s@,
            n == s@.len(),
            i == it.index(),
            end < n ==> end < i && s@[end as int] == '\n',
            end <= n,
            forall|j: int| 0 <= j < i && j < end ==> #[trigger] s@[j] != '\n',
    {
        if c == '\n' && end == n {
            end = i;
        }
        i += 1;
    }
    proof {
        lemma_before_first(s@, '\n', end as int);
    }
    s.substring_char(0, end)
}

/// Tells whether the text has a line break.
pub fn has_line_break(s: &str) -> (r: bool)
    ensures
        r == s@.contains('\n'),
{
    let mut found: bool = false;
    for c in it: s.chars()
        invariant
            it.seq() == s@,
            found == exists|j: int| 0 <= j < it.index() && #[trigger] s@[j] == '\n',
    {
        if c == '\n' {
            found = true;
        }
    }
    found
}

proof fn lemma_after_last(s: Seq<char>, c: char, k: int)
    requires
        0 <= k <= s.len(),
        forall|i: int| k <= i < s.len() ==> #[trigger] s[i] != c,
        k > 0 ==> s[k - 1] == c,
    ensures
        after_last(s, c) == s.skip(k),
    decreases s.len() - k,
{
    if k == s.len() {
        assert(s.skip(k) =~= Seq::empty());
    } else {
        assert(s[s.len() - 1] != c);
        lemma_after_last(s.drop_last(), c, k);
        assert(s.drop_last().skip(k).push(s.last()) =~= s.skip(k));
    }
}

/// What stands behind the last dot, or all of the text.
pub fn after_last_dot<'a>(s: &'a str) -> (r: &'a str)
    ensures
        r@ == after_last(s@, '.'),
{
    let n: usize = s.unicode_len();
    let mut i: usize = 0;
    let mut start: usize = 0;
    for c in it: s.chars()
        invariant
            it.seq() == s@,
            n == s@.len(),
            i == it.index(),
            i <= n,
            start <= i,
            start > 0 ==> s@[start - 1] == '.',
            forall|j: int| start <= j < i ==> #[trigger] s@[j] != '.',
    {
        i += 1;
        if c == '.' {
            start = i;
        }
    }
    proof {
        lemma_after_last(s@, '.', start as int);
        assert(s@.subrange(start as int, n as int) =~= s@.skip(start as int));
    }
    s.substring_char(start, n)
}

/// The first `n` bytes of the text where they end at a character boundary, else all of the text.
pub fn prefix<'a>(s: &'a str, n: usize) -> (r: &'a str)
    ensures
        r@ == byte_prefix(s@, n as int),
{
    if s.is_char_boundary(n) {
        let (head, _) = s.split_at(n);
        proof {
            broadcast use encode_utf8_decode_utf8;

            assert(decode_utf8(head.spec_bytes()) == head@);
        }
        head
    } else {
        s
    }
}

/// A prefix of a text in ASCII is its first characters.
pub proof fn ascii_prefix_is_take(s: Seq<char>, n: int)
    requires
        is_ascii_chars(s),
        0 <= n,
    ensures
        byte_prefix(s, n) == if n <= s.len() {
            s.take(n)
        } else {
            s
        },
{
    broadcast use encode_utf8_decode_utf8, encode_utf8_valid_utf8;

    let bytes = encode_utf8(s);
    is_ascii_chars_encode_utf8(s);
    if n <= s.len() {
        is_ascii_chars_encode_utf8(s.take(n));
        assert(encode_utf8(s.take(n)) =~= bytes.subrange(0, n));
        is_char_boundary_start_end_of_seq(bytes);
        if 0 < n < s.len() {
            is_char_boundary_iff_not_is_continuation_byte(bytes, n);
            assert(bytes[n] == s[n] as u8);
        }
    }
}

/// Tells whether two texts are the same.
pub fn same_text(a: &str, b: &str) -> (r: bool)
    ensures
        r == (a@ == b@),
{
    a.to_owned() == b.to_owned()
}

/// Tells whether a text is `lower` up to the case of its ASCII letters.
pub fn matches_ignoring_case(s: &str, lower: &str) -> (r: bool)
    ensures
        r == (ascii_lowercase(s@) == lower@),
{
    let n: usize = s.unicode_len();
    let m: usize = lower.unicode_len();
    if n != m {
        return false;
    }
    let mut same: bool = true;
    let mut i: usize = 0;
    for c in it: s.chars()
        invariant
            it.seq() == s@,
            n == s@.len(),
            n == lower@.len(),
            i == it.index(),
            same == forall|j: int| 0 <= j < i ==> ascii_lower(#[trigger] s@[j]) == lower@[j],
    {
        let expected: char = lower.get_char(i);
        let u: u32 = c as u32;
        let e: u32 = expected as u32;
        let folded: bool = if 65 <= u && u <= 90 {
            u + 32 == e
        } else {
            u == e
        };
        if !folded {
            same = false;
        }
        i += 1;
    }
    proof {
        if same {
            assert(ascii_lowercase(s@) =~= lower@);
        } else {
            let j = choose|j: int| 0 <= j < n && ascii_lower(#[trigger] s@[j]) != lower@[j];
            assert(ascii_lowercase(s@)[j] != lower@[j]);
        }
    }
    same
}

/// What stands behind the last occurrence of a character has none of it in it, and in front of it
/// there is one.
pub proof fn last_part_stands_behind_the_last(front: Seq<char>, c: char, part: Seq<char>)
    requires
        !part.contains(c),
    ensures
        after_last(front.push(c) + part, c) == part,
        after_last(part, c) == part,
{
    let all = front.push(c) + part;
    let k = front.len() + 1;
    assert forall|i: int| k <= i < all.len() implies #[trigger] all[i] != c by {
        assert(all[i] == part[i - k]);
    }
    lemma_after_last(all, c, k as int);
    assert(all.skip(k as int) =~= part);
    lemma_after_last(part, c, 0);
    assert(part.skip(0) =~= part);
}

/// What stands before the first occurrence of a character has none of it in it.
pub proof fn first_part_stands_before_the_first(part: Seq<char>, c: char, back: Seq<char>)
    requires
        !part.contains(c),
    ensures
        before_first(part.push(c) + back, c) == part,
        before_first(part, c) == part,
{
    let all = part.push(c) + back;
    assert forall|i: int| 0 <= i < part.len() implies #[trigger] all[i] != c by {
        assert(all[i] == part[i]);
    }
    lemma_before_first(all, c, part.len() as int);
    assert(all.take(part.len() as int) =~= part);
    lemma_before_first(part, c, part.len() as int);
    assert(part.take(part.len() as int) =~= part);
}

/// Trimming takes away white space in front and behind, as much as there is, and nothing else.
pub proof fn trimming_takes_away_white_space(front: Seq<char>, text: Seq<char>, back: Seq<char>)
    requires
        forall|i: int| 0 <= i < front.len() ==> is_white_space(#[trigger] front[i]),
        forall|i: int| 0 <= i < back.len() ==> is_white_space(#[trigger] back[i]),
        text.len() > 0 ==> !is_white_space(text.first()) && !is_white_space(text.last()),
    ensures
        trimmed(front + text + back) == text,
{
    let all = front + text + back;
    if text.len() == 0 {
        assert forall|i: int| 0 <= i < all.len() implies is_white_space(#[trigger] all[i]) by {
            if i < front.len() {
                assert(all[i] == front[i]);
            } else {
                assert(all[i] == back[i - front.len()]);
            }
        }
        lemma_trimmed_front(all, all.len() as int);
        assert(all.skip(all.len() as int) =~= text);
    } else {
        assert forall|i: int| 0 <= i < front.len() implies is_white_space(#[trigger] all[i]) by {
            assert(all[i] == front[i]);
        }
        lemma_trimmed_front(all, front.len() as int);
        let rest = all.skip(front.len() as int);
        assert(rest =~= text + back);
        assert forall|i: int| text.len() <= i < rest.len() implies is_white_space(
            #[trigger] rest[i],
        ) by {
            assert(rest[i] == back[i - text.len()]);
        }
        lemma_trimmed_back(rest, text.len() as int);
        assert(rest.take(text.len() as int) =~= text);
    }
}

/// The number that decimal digits stand for.
pub open spec fn decimal_value(digits: Seq<char>) -> int
    decreases digits.len(),
{
    if digits.len() == 0 {
        0
    } else {
        10 * decimal_value(digits.drop_last()) + (digits.last() as u32 - '0' as u32)
    }
}

/// A number that was written in decimal notation can be read again, and has only digits, of which the
/// first is zero only where the number is.
pub proof fn written_numbers_can_be_read(n: nat)
    ensures
        decimal_value(decimal(n)) == n,
        decimal(n).len() > 0,
        forall|i: int| 0 <= i < decimal(n).len() ==> '0' <= (#[trigger] decimal(n)[i]) <= '9',
        n > 0 ==> decimal(n).first() != '0',
    decreases n,
{
    if n < 10 {
        assert(decimal(n).drop_last() =~= Seq::empty());
        assert(decimal_value(decimal(n).drop_last()) == 0);
        assert((48 + n) as char as u32 == 48 + n);
    } else {
        written_numbers_can_be_read(n / 10);
        let front = decimal(n / 10);
        let d = n % 10;
        assert(decimal(n).drop_last() =~= front);
        assert((48 + d) as char as u32 == 48 + d);
        assert forall|i: int| 0 <= i < decimal(n).len() implies '0' <= (
        #[trigger] decimal(n)[i]) <= '9' by {
            if i < front.len() {
                assert(decimal(n)[i] == front[i]);
            }
        }
        assert(decimal(n).first() == front.first());
    }
}

/// Writing in small letters changes the 26 capital letters of ASCII to the small ones and nothing else.
pub proof fn only_capital_letters_change(s: Seq<char>, i: int)
    requires
        0 <= i < s.len(),
    ensures
        ascii_lowercase(s).len() == s.len(),
        65 <= s[i] as u32 <= 90 ==> ascii_lowercase(s)[i] as u32 == s[i] as u32 + 32,
        !(65 <= s[i] as u32 <= 90) ==> ascii_lowercase(s)[i] == s[i],
{
}

} // verus!
