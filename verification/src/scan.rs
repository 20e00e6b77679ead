//! Looking through texts: pieces between separators, first occurrences and byte positions.

use vstd::prelude::*;

use crate::text;

verus! {

/// The first position at which `sep` stands in `s`, or the length of `s` where it does not.
pub open spec fn position_of(s: Seq<char>, sep: char) -> int
    decreases s.len(),
{
    if s.len() == 0 || s[0] == sep {
        0
    } else {
        1 + position_of(s.skip(1), sep)
    }
}

pub(crate) proof fn lemma_position_of(s: Seq<char>, sep: char)
    ensures
        0 <= position_of(s, sep) <= s.len(),
        forall|k: int| 0 <= k < position_of(s, sep) ==> s[k] != sep,
        position_of(s, sep) < s.len() ==> s[position_of(s, sep)] == sep,
    decreases s.len(),
{
    if s.len() > 0 && s[0] != sep {
        lemma_position_of(s.skip(1), sep);
        assert forall|k: int| 0 <= k < position_of(s, sep) implies s[k] != sep by {
            if k > 0 {
                assert(s[k] == s.skip(1)[k - 1]);
            }
        }
    }
}

proof fn lemma_position_is(s: Seq<char>, sep: char, at: int)
    requires
        0 <= at <= s.len(),
        forall|k: int| 0 <= k < at ==> s[k] != sep,
        at < s.len() ==> s[at] == sep,
    ensures
        position_of(s, sep) == at,
    decreases s.len(),
{
    if at > 0 {
        assert forall|k: int| 0 <= k < at - 1 implies s.skip(1)[k] != sep by {
            assert(s.skip(1)[k] == s[k + 1]);
        }
        lemma_position_is(s.skip(1), sep, at - 1);
    }
}

/// Finds the first `sep` of `s`.
pub fn find_char(s: &Vec<char>, sep: char) -> (result: usize)
    ensures
        result == position_of(s@, sep),
        result <= s@.len(),
{
    let mut i: usize = 0;
    while i < s.len() && s[i] != sep
        invariant
            i <= s@.len(),
            forall|k: int| 0 <= k < i ==> s@[k] != sep,
        decreases s@.len() - i,
    {
        i += 1;
    }
    proof {
        lemma_position_is(s@, sep, i as int);
    }
    i
}

/// The parts of `s` between its separators, in order.
pub open spec fn pieces(s: Seq<char>, sep: char) -> Seq<Seq<char>>
    decreases s.len(),
    via pieces_end
{
    let at = position_of(s, sep);
    if at >= s.len() {
        seq![s]
    } else {
        seq![s.take(at)] + pieces(s.skip(at + 1), sep)
    }
}

#[via_fn]
proof fn pieces_end(s: Seq<char>, sep: char) {
    lemma_position_of(s, sep);
}

/// Splits `s` at every separator.
pub fn split(s: &str, sep: char) -> (result: Vec<String>)
    ensures
        text::views(result@) == pieces(s@, sep),
{
    let chars = text::chars_of(s);
    let mut result: Vec<String> = Vec::new();
    let mut start: usize = 0;
    let mut i: usize = 0;
    assert(s@.skip(0) =~= s@);
    assert(text::views(result@) =~= Seq::<Seq<char>>::empty());
    assert(text::views(result@) + pieces(s@, sep) =~= pieces(s@, sep));
    while i < chars.len()
        invariant
            chars@ == s@,
            start <= i <= chars@.len(),
            forall|k: int| start <= k < i ==> chars@[k] != sep,
            text::views(result@) + pieces(s@.skip(start as int), sep) == pieces(s@, sep),
        decreases chars@.len() - i,
    {
        if chars[i] == sep {
            let piece = text::text_of(&chars, start, i);
            let ghost before = result@;
            let ghost rest = s@.skip(start as int);
            result.push(piece);
            proof {
                lemma_position_is(rest, sep, i - start);
                assert(rest.take(i - start) =~= piece@);
                assert(rest.skip(i - start + 1) =~= s@.skip(i + 1));
                assert(text::views(result@) =~= text::views(before).push(piece@));
                assert(text::views(result@) + pieces(s@.skip(i + 1), sep) =~= text::views(before)
                    + (seq![piece@] + pieces(s@.skip(i + 1), sep)));
            }
            start = i + 1;
        }
        i += 1;
    }
    let last = text::text_of(&chars, start, i);
    let ghost before = result@;
    result.push(last);
    proof {
        let rest = s@.skip(start as int);
        lemma_position_is(rest, sep, rest.len() as int);
        assert(rest =~= last@);
        assert(text::views(result@) =~= text::views(before).push(last@));
        assert(text::views(before) + seq![rest] =~= text::views(before).push(last@));
    }
    result
}

/// The first position from `from` on at which `part` stands in `s`.
pub open spec fn first_occurrence(s: Seq<char>, part: Seq<char>, from: int) -> Option<int>
    decreases s.len() + 1 - from,
{
    if from < 0 || from > s.len() {
        None
    } else if text::occurs_at(s, part, from) {
        Some(from)
    } else {
        first_occurrence(s, part, from + 1)
    }
}

/// Finds the first position at which `part` stands in `s`.
pub fn find(s: &Vec<char>, part: &Vec<char>) -> (result: Option<usize>)
    ensures
        match result {
            Some(at) => first_occurrence(s@, part@, 0) == Some(at as int) && at <= s@.len(),
            None => first_occurrence(s@, part@, 0) is None,
        },
{
    let mut at: usize = 0;
    loop
        invariant
            at <= s@.len(),
            first_occurrence(s@, part@, 0) == first_occurrence(s@, part@, at as int),
        decreases s@.len() - at,
    {
        if text::matches_at(s, part, at) {
            return Some(at);
        }
        if at == s.len() {
            assert(first_occurrence(s@, part@, at + 1) is None);
            return None;
        }
        at += 1;
    }
}

/// The number of bytes that a character takes in UTF-8.
pub open spec fn width(c: char) -> nat {
    if (c as u32) < 0x80 {
        1
    } else if (c as u32) < 0x800 {
        2
    } else if (c as u32) < 0x1_0000 {
        3
    } else {
        4
    }
}

/// The number of bytes that a text takes in UTF-8.
pub open spec fn byte_length(s: Seq<char>) -> nat
    decreases s.len(),
{
    if s.len() == 0 {
        0
    } else {
        byte_length(s.drop_last()) + width(s.last())
    }
}

/// The position of the character that begins `bytes` bytes into `s`, or the length of `s` where
/// the text ends there. There is none inside a character or past the end.
pub open spec fn boundary(s: Seq<char>, bytes: nat) -> Option<int>
    decreases s.len(),
{
    if bytes == 0 {
        Some(0)
    } else if s.len() == 0 || bytes < width(s[0]) {
        None
    } else {
        match boundary(s.skip(1), (bytes - width(s[0])) as nat) {
            Some(i) => Some(i + 1),
            None => None,
        }
    }
}

fn width_of(c: char) -> (result: u128)
    ensures
        result == width(c),
{
    let code: u32 = c as u32;
    if code < 0x80 {
        1
    } else if code < 0x800 {
        2
    } else if code < 0x1_0000 {
        3
    } else {
        4
    }
}

/// The number of bytes before position `end` of `s`.
pub fn bytes_before(s: &Vec<char>, end: usize) -> (result: u128)
    requires
        end <= s@.len(),
    ensures
        result == byte_length(s@.take(end as int)),
        result <= 4 * end,
{
    let mut total: u128 = 0;
    let mut i: usize = 0;
    while i < end
        invariant
            i <= end <= s@.len(),
            total == byte_length(s@.take(i as int)),
            total <= 4 * i,
        decreases end - i,
    {
        assert(s@.take(i + 1).drop_last() =~= s@.take(i as int));
        total = total + width_of(s[i]);
        i += 1;
    }
    total
}

/// Finds the character that begins `bytes` bytes into `s`.
pub fn boundary_at(s: &Vec<char>, bytes: u128) -> (result: Option<usize>)
    ensures
        match result {
            Some(i) => boundary(s@, bytes as nat) == Some(i as int) && i <= s@.len(),
            None => boundary(s@, bytes as nat) is None,
        },
{
    let mut left: u128 = bytes;
    let mut i: usize = 0;
    assert(s@.skip(0) =~= s@);
    while left > 0
        invariant
            i <= s@.len(),
            boundary(s@, bytes as nat) == match boundary(s@.skip(i as int), left as nat) {
                Some(k) => Some(k + i),
                None => None,
            },
        decreases left,
    {
        if i == s.len() {
            return None;
        }
        let w: u128 = width_of(s[i]);
        if left < w {
            return None;
        }
        assert(s@.skip(i as int).skip(1) =~= s@.skip(i + 1));
        left -= w;
        i += 1;
    }
    Some(i)
}

/// Whether some character of `s` is one of the ten ASCII digits.
pub open spec fn holds_digit(s: Seq<char>) -> bool {
    exists|i: int| 0 <= i < s.len() && text::ascii_digit(#[trigger] s[i])
}

/// The first position at which whitespace stands in `s`, or the length of `s`.
pub open spec fn first_space(s: Seq<char>) -> int
    decreases s.len(),
{
    if s.len() == 0 || text::whitespace_char(s[0]) {
        0
    } else {
        1 + first_space(s.skip(1))
    }
}

/// Finds the first whitespace of `s`.
pub fn find_space(s: &Vec<char>) -> (result: usize)
    ensures
        result == first_space(s@),
        result <= s@.len(),
{
    let mut i: usize = 0;
    assert(s@.skip(0) =~= s@);
    while i < s.len() && !s[i].is_whitespace()
        invariant
            i <= s@.len(),
            first_space(s@) == i + first_space(s@.skip(i as int)),
        decreases s@.len() - i,
    {
        assert(s@.skip(i as int).skip(1) =~= s@.skip(i + 1));
        i += 1;
    }
    i
}

/// Whether some character of `s` is one of the ten ASCII digits.
pub fn any_digit(s: &Vec<char>) -> (result: bool)
    ensures
        result == holds_digit(s@),
{
    let mut i: usize = 0;
    while i < s.len()
        invariant
            i <= s@.len(),
            forall|k: int| 0 <= k < i ==> !text::ascii_digit(#[trigger] s@[k]),
        decreases s@.len() - i,
    {
        if '0' <= s[i] && s[i] <= '9' {
            return true;
        }
        i += 1;
    }
    false
}

/// Whether `c` is one of the characters of `s`.
pub fn holds_char(s: &Vec<char>, c: char) -> (result: bool)
    ensures
        result == s@.contains(c),
{
    let mut i: usize = 0;
    while i < s.len()
        invariant
            i <= s@.len(),
            forall|k: int| 0 <= k < i ==> s@[k] != c,
        decreases s@.len() - i,
    {
        if s[i] == c {
            return true;
        }
        i += 1;
    }
    false
}

/// A text whose first separator follows `head` has `head` as its first piece, and the pieces of what
/// follows as the others.
pub proof fn lemma_first_piece(head: Seq<char>, tail: Seq<char>, sep: char)
    requires
        !head.contains(sep),
    ensures
        pieces(head, sep) == seq![head],
        pieces(head + seq![sep] + tail, sep) == seq![head] + pieces(tail, sep),
{
    let whole = head + seq![sep] + tail;
    assert forall|k: int| 0 <= k < head.len() implies head[k] != sep by {
        assert(head.contains(head[k]));
    }
    assert forall|k: int| 0 <= k < head.len() implies whole[k] != sep by {
        assert(whole[k] == head[k]);
    }
    lemma_position_is(head, sep, head.len() as int);
    lemma_position_is(whole, sep, head.len() as int);
    assert(whole.take(head.len() as int) =~= head);
    assert(whole.skip(head.len() as int + 1) =~= tail);
}

/// The pieces put together again with the separator between them.
pub open spec fn rejoined(list: Seq<Seq<char>>, sep: char) -> Seq<char>
    decreases list.len(),
{
    if list.len() == 0 {
        Seq::empty()
    } else if list.len() == 1 {
        list[0]
    } else {
        list[0] + seq![sep] + rejoined(list.skip(1), sep)
    }
}

/// Nothing of a text is lost when it is split: no piece holds the separator, and put together again
/// they are the text.
pub proof fn lemma_pieces_rejoin(s: Seq<char>, sep: char)
    ensures
        pieces(s, sep).len() > 0,
        rejoined(pieces(s, sep), sep) == s,
        forall|i: int| 0 <= i < pieces(s, sep).len() ==> !(#[trigger] pieces(s, sep)[i]).contains(sep),
    decreases s.len(),
{
    lemma_position_of(s, sep);
    let at = position_of(s, sep);
    let list = pieces(s, sep);
    if at < s.len() {
        let rest = s.skip(at + 1);
        lemma_pieces_rejoin(rest, sep);
        assert(list.skip(1) =~= pieces(rest, sep));
        assert(s =~= s.take(at) + seq![sep] + rest);
        assert forall|i: int| 0 <= i < list.len() implies !(#[trigger] list[i]).contains(sep) by {
            if i > 0 {
                assert(list[i] == pieces(rest, sep)[i - 1]);
            } else {
                assert forall|k: int| 0 <= k < at implies s.take(at)[k] != sep by {
                    assert(s.take(at)[k] == s[k]);
                }
            }
        }
    } else {
        assert forall|k: int| 0 <= k < s.len() implies s[k] != sep by {}
    }
}

/// The first occurrence is one, and none stands before it; where there is none, the part does not
/// stand in the text at all.
pub proof fn lemma_first_occurrence(s: Seq<char>, part: Seq<char>, from: int)
    requires
        0 <= from,
    ensures
        match first_occurrence(s, part, from) {
            Some(at) => from <= at && text::occurs_at(s, part, at) && forall|k: int|
                from <= k < at ==> !text::occurs_at(s, part, k),
            None => forall|k: int| from <= k ==> !text::occurs_at(s, part, k),
        },
    decreases s.len() + 1 - from,
{
    if from <= s.len() && !text::occurs_at(s, part, from) {
        lemma_first_occurrence(s, part, from + 1);
    }
}

/// The first whitespace of a text is whitespace, and none stands before it.
pub proof fn lemma_first_space(s: Seq<char>)
    ensures
        0 <= first_space(s) <= s.len(),
        forall|k: int| 0 <= k < first_space(s) ==> !text::whitespace_char(#[trigger] s[k]),
        first_space(s) < s.len() ==> text::whitespace_char(s[first_space(s)]),
    decreases s.len(),
{
    if s.len() > 0 && !text::whitespace_char(s[0]) {
        let rest = s.skip(1);
        lemma_first_space(rest);
        assert forall|k: int| 0 <= k < first_space(s) implies !text::whitespace_char(
            #[trigger] s[k],
        ) by {
            if k > 0 {
                assert(rest[k - 1] == s[k]);
            }
        }
    }
}

/// The bytes of two texts put together are those of both, and every character takes one to four.
pub proof fn lemma_byte_length_adds(a: Seq<char>, b: Seq<char>)
    ensures
        byte_length(a + b) == byte_length(a) + byte_length(b),
        a.len() <= byte_length(a) <= 4 * a.len(),
    decreases a.len() + b.len(),
{
    if b.len() > 0 {
        lemma_byte_length_adds(a, b.drop_last());
        assert((a + b).drop_last() =~= a + b.drop_last());
    } else {
        assert(a + b =~= a);
        if a.len() > 0 {
            lemma_byte_length_adds(a.drop_last(), b);
        }
    }
}

/// The pieces of two texts with a separator between them are those of the first, then those of the
/// second.
pub proof fn lemma_pieces_of_both(a: Seq<char>, b: Seq<char>, sep: char)
    ensures
        pieces(a + seq![sep] + b, sep) == pieces(a, sep) + pieces(b, sep),
    decreases a.len(),
{
    lemma_position_of(a, sep);
    let at = position_of(a, sep);
    if at >= a.len() {
        assert(!a.contains(sep)) by {
            if a.contains(sep) {
                let i = choose|i: int| 0 <= i < a.len() && a[i] == sep;
                assert(a[i] != sep);
            }
        }
        lemma_first_piece(a, b, sep);
    } else {
        let head = a.take(at);
        let rest = a.skip(at + 1);
        assert(!head.contains(sep)) by {
            if head.contains(sep) {
                let i = choose|i: int| 0 <= i < head.len() && head[i] == sep;
                assert(a[i] != sep);
            }
        }
        lemma_pieces_of_both(rest, b, sep);
        lemma_first_piece(head, rest + seq![sep] + b, sep);
        assert(a + seq![sep] + b =~= head + seq![sep] + (rest + seq![sep] + b));
        assert(pieces(a + seq![sep] + b, sep) =~= pieces(a, sep) + pieces(b, sep));
    }
}

/// In a text of ASCII every character takes one byte, so that bytes and characters are counted alike.
pub proof fn lemma_ascii_bytes(s: Seq<char>, count: nat)
    requires
        text::ascii_text(s),
        count <= s.len(),
    ensures
        byte_length(s) == s.len(),
        boundary(s, count) == Some(count as int),
    decreases s.len(),
{
    if s.len() > 0 {
        let (init, rest) = (s.drop_last(), s.skip(1));
        assert forall|i: int| 0 <= i < init.len() implies text::ascii_char(#[trigger] init[i]) by {
            assert(init[i] == s[i]);
        }
        assert forall|i: int| 0 <= i < rest.len() implies text::ascii_char(#[trigger] rest[i]) by {
            assert(rest[i] == s[i + 1]);
        }
        assert(text::ascii_char(s[0]) && text::ascii_char(s.last()));
        lemma_ascii_width(s[0]);
        lemma_ascii_width(s.last());
        lemma_ascii_bytes(init, 0);
        if count > 0 {
            lemma_ascii_bytes(rest, (count - 1) as nat);
        }
    }
}

proof fn lemma_ascii_width(c: char)
    requires
        text::ascii_char(c),
    ensures
        width(c) == 1,
{
}

/// A character takes one byte up to U+007F, two up to U+07FF, three up to U+FFFF and four above.
pub proof fn lemma_widths(c: char)
    ensures
        width(c) == 1 <==> c <= '\u{7f}',
        width(c) <= 2 <==> c <= '\u{7ff}',
        width(c) <= 3 <==> c <= '\u{ffff}',
        1 <= width(c) <= 4,
{
}

} // verus!
