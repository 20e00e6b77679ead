//! Text handling: Unicode-aware trimming and searching, bounded copies and number formatting.

use vstd::prelude::*;
use vstd::string::StrSliceExecFns;
use vstd::utf8::*;

verus! {

/// Whether `c` belongs to ASCII.
pub open spec fn ascii_char(c: char) -> bool {
    (c as int) < 128
}

/// Whether every character of a text belongs to ASCII.
pub open spec fn ascii_text(s: Seq<char>) -> bool {
    forall|i: int| 0 <= i < s.len() ==> ascii_char(#[trigger] s[i])
}

/// Whether `c` is whitespace: whether it has the Unicode property `White_Space`.
pub open spec fn whitespace_char(c: char) -> bool {
    let code = c as int;
    ||| 9 <= code <= 13
    ||| code == 0x20
    ||| code == 0x85
    ||| code == 0xa0
    ||| code == 0x1680
    ||| 0x2000 <= code <= 0x200a
    ||| code == 0x2028
    ||| code == 0x2029
    ||| code == 0x202f
    ||| code == 0x205f
    ||| code == 0x3000
}

/// `char::is_whitespace`: exactly the characters that have the Unicode property `White_Space`.
pub assume_specification[ char::is_whitespace ](c: char) -> (result: bool)
    ensures
        result == whitespace_char(c),
;

/// Whether the Unicode tables of the standard library call `c`, beyond ASCII, alphanumeric.
pub uninterp spec fn unicode_alphanumeric(c: char) -> bool;

/// Whether `c` is a letter or a digit of ASCII.
pub open spec fn ascii_alphanumeric(c: char) -> bool {
    ('0' <= c && c <= '9') || ('A' <= c && c <= 'Z') || ('a' <= c && c <= 'z')
}

/// Whether `c` is alphabetic or numeric.
pub open spec fn alphanumeric_char(c: char) -> bool {
    if ascii_char(c) {
        ascii_alphanumeric(c)
    } else {
        unicode_alphanumeric(c)
    }
}

/// `char::is_alphanumeric`: of ASCII, the letters and the digits; elsewhere the answer depends on
/// the character alone, through the Unicode tables.
pub assume_specification[ char::is_alphanumeric ](c: char) -> (result: bool)
    ensures
        ascii_char(c) ==> result == ascii_alphanumeric(c),
        !ascii_char(c) ==> result == unicode_alphanumeric(c),
;

/// The lowercase equivalent of a text beyond ASCII, by the Unicode tables of the standard library.
pub uninterp spec fn unicode_lowercase(s: Seq<char>) -> Seq<char>;

/// The lowercase equivalent of a text.
pub open spec fn lowercase_text(s: Seq<char>) -> Seq<char> {
    if ascii_text(s) {
        ascii_lower_text(s)
    } else {
        unicode_lowercase(s)
    }
}

/// `str::to_lowercase`: a text of ASCII has its letters replaced one by one; elsewhere the result
/// depends on the text alone, through the Unicode tables.
pub assume_specification[ str::to_lowercase ](s: &str) -> (result: String)
    ensures
        ascii_text(s@) ==> result@ == ascii_lower_text(s@),
        !ascii_text(s@) ==> result@ == unicode_lowercase(s@),
;

/// The uppercase equivalent of a text beyond ASCII, by the Unicode tables of the standard library.
pub uninterp spec fn unicode_uppercase(s: Seq<char>) -> Seq<char>;

/// The uppercase equivalent of a text.
pub open spec fn uppercase_text(s: Seq<char>) -> Seq<char> {
    if ascii_text(s) {
        ascii_upper_text(s)
    } else {
        unicode_uppercase(s)
    }
}

/// `str::to_uppercase`: a text of ASCII has its letters replaced one by one; elsewhere the result
/// depends on the text alone, through the Unicode tables.
pub assume_specification[ str::to_uppercase ](s: &str) -> (result: String)
    ensures
        ascii_text(s@) ==> result@ == ascii_upper_text(s@),
        !ascii_text(s@) ==> result@ == unicode_uppercase(s@),
;

/// `String::push`: appends one character at the end.
pub assume_specification[ String::push ](s: &mut String, c: char)
    ensures
        final(s)@ == old(s)@.push(c),
;

/// `String::push_str`: appends a text at the end.
pub assume_specification[ String::push_str ](s: &mut String, string: &str)
    ensures
        final(s)@ == old(s)@ + string@,
;

/// The texts or records of a list, each by its view.
pub open spec fn views<T: View>(list: Seq<T>) -> Seq<T::V> {
    Seq::new(list.len(), |i: int| list[i]@)
}

/// What an optional text holds.
pub open spec fn shown(value: Option<String>) -> Option<Seq<char>> {
    match value {
        Some(text) => Some(text@),
        None => None,
    }
}

/// What an optional text slice holds.
pub open spec fn seen(value: Option<&str>) -> Option<Seq<char>> {
    match value {
        Some(text) => Some(text@),
        None => None,
    }
}

/// A copy of an optional text.
pub fn copied(value: &Option<String>) -> (result: Option<String>)
    ensures
        shown(result) == shown(*value),
{
    match value {
        Some(text) => Some(text.clone()),
        None => None,
    }
}

/// Whether two optional texts hold the same.
pub fn same_option(a: &Option<String>, b: &Option<String>) -> (result: bool)
    ensures
        result == (shown(*a) == shown(*b)),
{
    match (a, b) {
        (Some(x), Some(y)) => same_text(x.as_str(), y.as_str()),
        (None, None) => true,
        _ => false,
    }
}

/// The characters of a text, in order.
pub fn chars_of(s: &str) -> (result: Vec<char>)
    ensures
        result@ == s@,
{
    let mut result: Vec<char> = Vec::new();
    for c in iter: s.chars()
        invariant
            iter.seq() == s@,
            result@ == s@.take(iter.index()),
    {
        result.push(c);
    }
    result
}

/// The text made of `chars[from..to]`.
pub fn text_of(chars: &Vec<char>, from: usize, to: usize) -> (result: String)
    requires
        from <= to <= chars@.len(),
    ensures
        result@ == chars@.subrange(from as int, to as int),
{
    let mut result = String::new();
    let mut i: usize = from;
    while i < to
        invariant
            from <= i <= to <= chars@.len(),
            result@ == chars@.subrange(from as int, i as int),
        decreases to - i,
    {
        result.push(chars[i]);
        assert(chars@.subrange(from as int, i + 1) =~= chars@.subrange(from as int, i as int).push(
            chars@[i as int],
        ));
        i += 1;
    }
    result
}

/// Characters that are taken off the ends of a text.
#[derive(Clone, Copy, PartialEq, Eq, Structural, Debug)]
pub enum Edge {
    /// Unicode whitespace.
    Space,
    /// Square and round brackets.
    Bracket,
    /// A space, a hyphen, an en dash or an em dash.
    Dash,
}

/// Whether `c` belongs to the edge class.
pub open spec fn edge_char(edge: Edge, c: char) -> bool {
    match edge {
        Edge::Space => whitespace_char(c),
        Edge::Bracket => c == '[' || c == ']' || c == '(' || c == ')',
        Edge::Dash => c == ' ' || c == '-' || c == '–' || c == '—',
    }
}

/// What is left of `s` once the edge characters at its start are gone.
pub open spec fn without_leading(s: Seq<char>, edge: Edge) -> Seq<char>
    decreases s.len(),
{
    if s.len() > 0 && edge_char(edge, s[0]) {
        without_leading(s.skip(1), edge)
    } else {
        s
    }
}

/// What is left of `s` once the edge characters at its end are gone.
pub open spec fn without_trailing(s: Seq<char>, edge: Edge) -> Seq<char>
    decreases s.len(),
{
    if s.len() > 0 && edge_char(edge, s.last()) {
        without_trailing(s.drop_last(), edge)
    } else {
        s
    }
}

/// What is left of `s` once the edge characters at both ends are gone.
pub open spec fn trimmed_of(s: Seq<char>, edge: Edge) -> Seq<char> {
    without_trailing(without_leading(s, edge), edge)
}

/// What is left of `s` once the whitespace at both ends is gone.
pub open spec fn trimmed(s: Seq<char>) -> Seq<char> {
    trimmed_of(s, Edge::Space)
}

proof fn lemma_ends(s: Seq<char>, edge: Edge)
    ensures
        without_leading(s, edge).len() == 0 || !edge_char(edge, without_leading(s, edge)[0]),
        without_trailing(s, edge).len() == 0 || !edge_char(edge, without_trailing(s, edge).last()),
        s.len() > 0 && !edge_char(edge, s[0]) ==> without_trailing(s, edge).len() > 0
            && without_trailing(s, edge)[0] == s[0],
    decreases s.len(),
{
    if s.len() > 0 {
        lemma_ends(s.skip(1), edge);
        lemma_ends(s.drop_last(), edge);
    }
}

/// Taking the whitespace at both ends away a second time changes nothing.
pub proof fn lemma_trimmed_twice(s: Seq<char>)
    ensures
        trimmed(trimmed(s)) == trimmed(s),
{
    let inner = without_leading(s, Edge::Space);
    lemma_ends(s, Edge::Space);
    lemma_ends(inner, Edge::Space);
}

fn is_edge(edge: Edge, c: char) -> (result: bool)
    ensures
        result == edge_char(edge, c),
{
    match edge {
        Edge::Space => c.is_whitespace(),
        Edge::Bracket => c == '[' || c == ']' || c == '(' || c == ')',
        Edge::Dash => c == ' ' || c == '-' || c == '–' || c == '—',
    }
}

/// `s` without the edge characters at its ends.
pub fn trim_edges<'a>(s: &'a str, edge: Edge) -> (result: &'a str)
    ensures
        result@ == trimmed_of(s@, edge),
{
    let chars = chars_of(s);
    let mut from: usize = 0;
    assert(s@.skip(0) =~= s@);
    while from < chars.len() && is_edge(edge, chars[from])
        invariant
            chars@ == s@,
            from <= chars@.len(),
            without_leading(s@, edge) == without_leading(s@.skip(from as int), edge),
        decreases chars@.len() - from,
    {
        assert(s@.skip(from as int).skip(1) =~= s@.skip(from + 1));
        from += 1;
    }
    let ghost rest = s@.skip(from as int);
    let mut to: usize = chars.len();
    assert(s@.subrange(from as int, to as int) =~= rest);
    while to > from && is_edge(edge, chars[to - 1])
        invariant
            chars@ == s@,
            from <= to <= chars@.len(),
            without_trailing(rest, edge) == without_trailing(
                s@.subrange(from as int, to as int),
                edge,
            ),
        decreases to,
    {
        assert(s@.subrange(from as int, to as int).drop_last() =~= s@.subrange(
            from as int,
            to - 1,
        ));
        to -= 1;
    }
    s.substring_char(from, to)
}

/// `s` without the whitespace at its ends.
pub fn trim<'a>(s: &'a str) -> (result: &'a str)
    ensures
        result@ == trimmed(s@),
{
    trim_edges(s, Edge::Space)
}

/// The first `max_chars` characters of `s`, or all of it where it is shorter.
pub open spec fn bounded_text(s: Seq<char>, max_chars: nat) -> Seq<char> {
    if s.len() <= max_chars {
        s
    } else {
        s.take(max_chars as int)
    }
}

/// A copy of at most `max_chars` characters of `value`.
pub fn bounded(value: &str, max_chars: usize) -> (result: String)
    ensures
        result@ == bounded_text(value@, max_chars as nat),
{
    let chars = chars_of(value);
    if chars.len() <= max_chars {
        value.to_owned()
    } else {
        text_of(&chars, 0, max_chars)
    }
}

/// Whether two texts hold the same characters.
pub fn same_text(a: &str, b: &str) -> (result: bool)
    ensures
        result == (a@ == b@),
{
    let x = a.as_bytes();
    let y = b.as_bytes();
    if x.len() != y.len() {
        return false;
    }
    let mut i: usize = x.len();
    while i > 0
        invariant
            x@ == encode_utf8(a@),
            y@ == encode_utf8(b@),
            x@.len() == y@.len(),
            i <= x@.len(),
            forall|j: int| i <= j < x@.len() ==> x@[j] == y@[j],
        decreases i,
    {
        i -= 1;
        if x[i] != y[i] {
            return false;
        }
    }
    proof {
        assert(x@ =~= y@);
        encode_utf8_decode_utf8(a@);
        encode_utf8_decode_utf8(b@);
    }
    true
}

/// Whether `part` stands in `text` from position `at` on.
pub open spec fn occurs_at(text: Seq<char>, part: Seq<char>, at: int) -> bool {
    &&& 0 <= at
    &&& at + part.len() <= text.len()
    &&& text.subrange(at, at + part.len()) == part
}

/// Whether `part` stands somewhere in `text`.
pub open spec fn occurs_in(text: Seq<char>, part: Seq<char>) -> bool {
    exists|at: int| occurs_at(text, part, at)
}

/// Whether `part` stands in `text` from position `at` on.
pub fn matches_at(text: &Vec<char>, part: &Vec<char>, at: usize) -> (result: bool)
    requires
        at <= text@.len(),
    ensures
        result == occurs_at(text@, part@, at as int),
{
    let length = text.len();
    if part.len() > length - at {
        return false;
    }
    let mut i: usize = 0;
    while i < part.len()
        invariant
            length == text@.len(),
            at + part@.len() <= length,
            i <= part@.len(),
            forall|j: int| 0 <= j < i ==> text@[at + j] == part@[j],
        decreases part@.len() - i,
    {
        if text[at + i] != part[i] {
            assert(text@.subrange(at as int, at + part@.len())[i as int] != part@[i as int]);
            return false;
        }
        i += 1;
    }
    assert(text@.subrange(at as int, at + part@.len()) =~= part@);
    true
}

/// Whether `part` stands somewhere in `value`.
pub fn contains_text(value: &str, part: &str) -> (result: bool)
    ensures
        result == occurs_in(value@, part@),
{
    let text = chars_of(value);
    let sought = chars_of(part);
    let mut at: usize = 0;
    loop
        invariant
            text@ == value@,
            sought@ == part@,
            at <= text@.len(),
            forall|k: int| 0 <= k < at ==> !occurs_at(text@, sought@, k),
        decreases text@.len() - at,
    {
        if matches_at(&text, &sought, at) {
            return true;
        }
        if at == text.len() {
            return false;
        }
        at += 1;
    }
}

/// Whether `value` begins with `prefix`.
pub open spec fn begins_with(value: Seq<char>, prefix: Seq<char>) -> bool {
    occurs_at(value, prefix, 0)
}

/// Whether `value` begins with `prefix`.
pub fn has_prefix(value: &str, prefix: &str) -> (result: bool)
    ensures
        result == begins_with(value@, prefix@),
{
    matches_at(&chars_of(value), &chars_of(prefix), 0)
}

/// Whether `value` ends with `suffix`.
pub open spec fn ends_with(value: Seq<char>, suffix: Seq<char>) -> bool {
    occurs_at(value, suffix, value.len() - suffix.len())
}

/// Whether `value` ends with `suffix`.
pub fn has_suffix(value: &str, suffix: &str) -> (result: bool)
    ensures
        result == ends_with(value@, suffix@),
{
    let text = chars_of(value);
    let part = chars_of(suffix);
    if part.len() > text.len() {
        return false;
    }
    matches_at(&text, &part, text.len() - part.len())
}

/// The ASCII lowercase of a character; other characters stay as they are.
pub open spec fn ascii_lower(c: char) -> char {
    if 'A' <= c && c <= 'Z' {
        ((c as u8) + 32) as char
    } else {
        c
    }
}

/// The ASCII lowercase of a text.
pub open spec fn ascii_lower_text(s: Seq<char>) -> Seq<char> {
    s.map_values(|c: char| ascii_lower(c))
}

/// The ASCII uppercase of a text; other characters stay as they are.
pub open spec fn ascii_upper_text(s: Seq<char>) -> Seq<char> {
    s.map_values(
        |c: char|
            if 'a' <= c && c <= 'z' {
                ((c as u8) - 32) as char
            } else {
                c
            },
    )
}

/// The ASCII lowercase of a character.
pub fn to_ascii_lower(c: char) -> (result: char)
    ensures
        result == ascii_lower(c),
{
    if 'A' <= c && c <= 'Z' {
        ((c as u8) + 32) as char
    } else {
        c
    }
}

/// The ASCII lowercase of a text.
pub fn ascii_lowered(s: &str) -> (result: String)
    ensures
        result@ == ascii_lower_text(s@),
{
    let mut result = String::new();
    for c in iter: s.chars()
        invariant
            iter.seq() == s@,
            result@ == ascii_lower_text(s@.take(iter.index())),
    {
        result.push(to_ascii_lower(c));
        assert(s@.take(iter.index() + 1) =~= s@.take(iter.index()).push(c));
        assert(ascii_lower_text(s@.take(iter.index() + 1)) =~= ascii_lower_text(
            s@.take(iter.index()),
        ).push(ascii_lower(c)));
    }
    assert(s@.take(s@.len() as int) =~= s@);
    result
}

/// The digit that stands for `d` in a base of at most sixteen.
pub open spec fn digit_char(d: int) -> char {
    if d < 10 {
        ('0' as int + d) as char
    } else {
        ('a' as int + (d - 10)) as char
    }
}

/// `n` in positional notation, most significant digit first.
pub open spec fn numeral(n: nat, base: nat) -> Seq<char>
    decreases n,
{
    if base < 2 || n < base {
        seq![digit_char(n as int)]
    } else {
        proof {
            assert(n / base < n) by (nonlinear_arith)
                requires
                    base >= 2,
                    n >= base,
            ;
        }
        numeral(n / base, base).push(digit_char((n % base) as int))
    }
}

/// `n` in decimal.
pub open spec fn decimal_text(n: nat) -> Seq<char> {
    numeral(n, 10)
}

/// `digits` filled up with zeros on the left to `width` characters.
pub open spec fn zero_padded(digits: Seq<char>, width: nat) -> Seq<char> {
    if digits.len() >= width {
        digits
    } else {
        Seq::new((width - digits.len()) as nat, |i: int| '0') + digits
    }
}

fn digit_of(d: u8) -> (result: char)
    requires
        d < 16,
    ensures
        result == digit_char(d as int),
{
    if d < 10 {
        (48 + d) as char
    } else {
        (97 + (d - 10)) as char
    }
}

/// `n` in the given base, filled up with zeros on the left to `width` characters.
fn padded_numeral(n: u64, base: u64, width: usize) -> (result: String)
    requires
        2 <= base <= 16,
    ensures
        result@ == zero_padded(numeral(n as nat, base as nat), width as nat),
{
    let mut reversed: Vec<char> = Vec::new();
    let mut rest: u64 = n;
    let ghost mut written: Seq<char> = Seq::empty();
    while rest >= base
        invariant
            2 <= base <= 16,
            reversed@.len() == written.len(),
            forall|i: int|
                0 <= i < written.len() ==> #[trigger] reversed@[i] == written[written.len() - 1
                    - i],
            numeral(n as nat, base as nat) == numeral(rest as nat, base as nat) + written,
        decreases rest,
    {
        let d: u8 = (rest % base) as u8;
        let c = digit_of(d);
        proof {
            let before = numeral((rest / base) as nat, base as nat);
            assert(numeral(rest as nat, base as nat) == before.push(c));
            assert(before.push(c) + written =~= before + (seq![c] + written));
            written = seq![c] + written;
            assert(rest / base < rest) by (nonlinear_arith)
                requires
                    base >= 2,
                    rest >= base,
            ;
        }
        reversed.push(c);
        rest = rest / base;
    }
    let c = digit_of(rest as u8);
    proof {
        assert(numeral(rest as nat, base as nat) == seq![c]);
        written = seq![c] + written;
        assert(written == numeral(n as nat, base as nat));
    }
    reversed.push(c);
    let mut result = String::new();
    let mut length: usize = reversed.len();
    let ghost digits = written;
    while length < width
        invariant
            digits.len() <= length,
            reversed@.len() == digits.len(),
            result@ == Seq::new((length - digits.len()) as nat, |i: int| '0'),
            length == digits.len() || length <= width,
        decreases width - length,
    {
        result.push('0');
        length += 1;
        assert(result@ =~= Seq::new((length - digits.len()) as nat, |i: int| '0'));
    }
    let ghost zeros = result@;
    let mut i: usize = reversed.len();
    while i > 0
        invariant
            i <= reversed@.len(),
            reversed@.len() == digits.len(),
            forall|k: int|
                0 <= k < digits.len() ==> #[trigger] reversed@[k] == digits[digits.len() - 1 - k],
            result@ == zeros + digits.take(digits.len() - i),
        decreases i,
    {
        i -= 1;
        result.push(reversed[i]);
        assert(digits.take(digits.len() - i) =~= digits.take(digits.len() - i - 1).push(
            digits[digits.len() - i - 1],
        ));
    }
    assert(digits.take(digits.len() as int) =~= digits);
    assert(zeros + digits =~= zero_padded(numeral(n as nat, base as nat), width as nat));
    result
}

/// `n` in decimal.
pub fn decimal(n: u64) -> (result: String)
    ensures
        result@ == decimal_text(n as nat),
{
    proof {
        lemma_numeral_nonempty(n as nat, 10);
    }
    padded_numeral(n, 10, 0)
}

/// `n` in decimal, filled up with zeros on the left to `width` digits.
pub fn padded_decimal(n: u64, width: usize) -> (result: String)
    ensures
        result@ == zero_padded(decimal_text(n as nat), width as nat),
{
    padded_numeral(n, 10, width)
}

/// `n` in lowercase hexadecimal, filled up with zeros on the left to `width` digits.
pub fn padded_hexadecimal(n: u64, width: usize) -> (result: String)
    ensures
        result@ == zero_padded(numeral(n as nat, 16), width as nat),
{
    padded_numeral(n, 16, width)
}

proof fn lemma_numeral_nonempty(n: nat, base: nat)
    ensures
        numeral(n, base).len() >= 1,
    decreases n,
{
    if base >= 2 && n >= base {
        assert(n / base < n) by (nonlinear_arith)
            requires
                base >= 2,
                n >= base,
        ;
        lemma_numeral_nonempty(n / base, base);
    }
}

/// Whether `c` is one of the ten ASCII digits.
pub open spec fn ascii_digit(c: char) -> bool {
    '0' <= c && c <= '9'
}

/// The number that a run of ASCII digits writes.
pub open spec fn digits_value(s: Seq<char>) -> nat
    decreases s.len(),
{
    if s.len() == 0 {
        0
    } else {
        10 * digits_value(s.drop_last()) + (s.last() as int - '0' as int) as nat
    }
}

/// The number that `s` writes: an optional plus sign, then digits only, with a value that fits
/// in 64 bits.
pub open spec fn parsed_number(s: Seq<char>) -> Option<nat> {
    let digits = unsigned_part(s);
    if digits.len() > 0 && all_digits(digits) && digits_value(digits) <= u64::MAX {
        Some(digits_value(digits))
    } else {
        None
    }
}

/// What follows the optional plus sign.
pub open spec fn unsigned_part(s: Seq<char>) -> Seq<char> {
    if s.len() > 0 && s[0] == '+' {
        s.skip(1)
    } else {
        s
    }
}

/// Whether every character of `s` is an ASCII digit.
pub open spec fn all_digits(s: Seq<char>) -> bool {
    forall|i: int| 0 <= i < s.len() ==> ascii_digit(#[trigger] s[i])
}

proof fn lemma_digits_value_grows(s: Seq<char>, k: int)
    requires
        0 <= k <= s.len(),
        all_digits(s),
    ensures
        digits_value(s.take(k)) <= digits_value(s),
    decreases s.len(),
{
    if k < s.len() {
        lemma_digits_value_grows(s.drop_last(), k);
        assert(s.drop_last().take(k) =~= s.take(k));
    } else {
        assert(s.take(k) =~= s);
    }
}

/// Reads `chars[from..to]` as a number: an optional plus sign, then digits only.
pub fn parse_number(chars: &Vec<char>, from: usize, to: usize) -> (result: Option<u64>)
    requires
        from <= to <= chars@.len(),
    ensures
        match result {
            Some(n) => parsed_number(chars@.subrange(from as int, to as int)) == Some(n as nat),
            None => parsed_number(chars@.subrange(from as int, to as int)) is None,
        },
{
    let ghost s = chars@.subrange(from as int, to as int);
    let mut start: usize = from;
    if from < to && chars[from] == '+' {
        start = from + 1;
    }
    let ghost digits = chars@.subrange(start as int, to as int);
    assert(digits =~= unsigned_part(s));
    if start == to {
        return None;
    }
    let mut value: u64 = 0;
    let mut i: usize = start;
    while i < to
        invariant
            start <= i <= to <= chars@.len(),
            digits == chars@.subrange(start as int, to as int),
            digits == unsigned_part(chars@.subrange(from as int, to as int)),
            digits.len() > 0,
            forall|k: int| 0 <= k < i - start ==> ascii_digit(#[trigger] digits[k]),
            value == digits_value(digits.take(i - start)),
        decreases to - i,
    {
        let c = chars[i];
        assert(digits[i - start] == c);
        if c < '0' || c > '9' {
            return None;
        }
        let d: u64 = (c as u64) - ('0' as u64);
        proof {
            let next = digits.take(i - start + 1);
            assert(next.drop_last() =~= digits.take(i - start));
            assert(next.last() == c);
            assert(digits_value(next) == 10 * value + d);
            if all_digits(digits) {
                lemma_digits_value_grows(digits, i - start + 1);
            }
        }
        match value.checked_mul(10) {
            None => {
                return None;
            },
            Some(tens) => match tens.checked_add(d) {
                None => {
                    return None;
                },
                Some(next) => {
                    value = next;
                },
            },
        }
        i += 1;
    }
    assert(digits.take(digits.len() as int) =~= digits);
    Some(value)
}

/// A message with the fault that caused it.
pub open spec fn caused(message: Seq<char>, cause: Seq<char>) -> Seq<char> {
    message + ": "@ + cause
}

/// A message with what caused it.
pub(crate) fn caused_text(message: &str, cause: &str) -> (result: String)
    ensures
        result@ == caused(message@, cause@),
{
    let mut full = message.to_owned();
    full.push_str(": ");
    full.push_str(cause);
    full
}

/// Where a text holds its first NUL, or its length where it holds none.
pub open spec fn nul_place(s: Seq<char>) -> int
    decreases s.len(),
{
    if s.len() == 0 || s[0] == '\0' {
        0
    } else {
        1 + nul_place(s.skip(1))
    }
}

/// A text up to its first NUL.
pub open spec fn until_nul(s: Seq<char>) -> Seq<char> {
    s.take(nul_place(s))
}

/// Where a text holds its first NUL, or its length where it holds none.
pub fn find_nul(s: &Vec<char>) -> (result: usize)
    ensures
        result == nul_place(s@),
        result <= s@.len(),
{
    let mut i: usize = 0;
    assert(s@.skip(0) =~= s@);
    while i < s.len()
        invariant
            i <= s@.len(),
            nul_place(s@) == i + nul_place(s@.skip(i as int)),
        decreases s@.len() - i,
    {
        if s[i] == '\0' {
            return i;
        }
        assert(s@.skip(i as int).skip(1) =~= s@.skip(i + 1));
        i += 1;
    }
    i
}

/// The characters of a list between two places.
pub fn chars_between(s: &Vec<char>, from: usize, to: usize) -> (result: Vec<char>)
    requires
        from <= to <= s@.len(),
    ensures
        result@ == s@.subrange(from as int, to as int),
{
    let mut result: Vec<char> = Vec::new();
    let mut i: usize = from;
    while i < to
        invariant
            from <= i <= to <= s@.len(),
            result@ == s@.subrange(from as int, i as int),
        decreases to - i,
    {
        result.push(s[i]);
        assert(result@ =~= s@.subrange(from as int, i + 1));
        i += 1;
    }
    result
}

/// Where the first NUL of a text stands after a start that holds none.
pub proof fn lemma_nul_place_after(start: Seq<char>, rest: Seq<char>)
    requires
        !start.contains('\0'),
    ensures
        nul_place(start + rest) == start.len() + nul_place(rest),
        until_nul(start + rest) == start + until_nul(rest),
    decreases start.len(),
{
    lemma_nul_place_bounded(rest);
    if start.len() == 0 {
        assert(start + rest =~= rest);
    } else {
        assert(start.contains(start[0]));
        assert forall|c: char| start.skip(1).contains(c) implies start.contains(c) by {
            let i = choose|i: int| 0 <= i < start.skip(1).len() && start.skip(1)[i] == c;
            assert(start[i + 1] == c);
        }
        lemma_nul_place_after(start.skip(1), rest);
        assert((start + rest).skip(1) =~= start.skip(1) + rest);
    }
    assert(until_nul(start + rest) =~= start + until_nul(rest));
}

/// The first NUL of a text stands inside it, and none stands before.
pub proof fn lemma_nul_place_bounded(s: Seq<char>)
    ensures
        0 <= nul_place(s) <= s.len(),
        !until_nul(s).contains('\0'),
        nul_place(s) < s.len() ==> s[nul_place(s)] == '\0',
    decreases s.len(),
{
    if s.len() > 0 && s[0] != '\0' {
        let rest = s.skip(1);
        lemma_nul_place_bounded(rest);
        assert forall|i: int| 0 <= i < nul_place(s) implies #[trigger] until_nul(s)[i] != '\0' by {
            if i > 0 {
                assert(until_nul(rest)[i - 1] == s[i]);
                assert(until_nul(rest).contains(until_nul(rest)[i - 1]));
            }
        }
    }
}

/// What is kept of a text that is bounded is its beginning: all of it where it is short enough, and
/// else as much as the bound allows.
pub proof fn lemma_bounded_is_beginning(s: Seq<char>, max_chars: nat)
    ensures
        bounded_text(s, max_chars).len() == if s.len() < max_chars {
            s.len()
        } else {
            max_chars
        },
        forall|i: int|
            0 <= i < bounded_text(s, max_chars).len() ==> #[trigger] bounded_text(s, max_chars)[i]
                == s[i],
        s.len() <= max_chars ==> bounded_text(s, max_chars) == s,
{
}

proof fn lemma_without_leading(s: Seq<char>, edge: Edge) -> (from: int)
    ensures
        0 <= from <= s.len(),
        without_leading(s, edge) == s.skip(from),
        forall|i: int| 0 <= i < from ==> edge_char(edge, #[trigger] s[i]),
        from < s.len() ==> !edge_char(edge, s[from]),
    decreases s.len(),
{
    if s.len() > 0 && edge_char(edge, s[0]) {
        let rest = s.skip(1);
        let inner = lemma_without_leading(rest, edge);
        assert(rest.skip(inner) =~= s.skip(inner + 1));
        assert forall|i: int| 0 <= i < inner + 1 implies edge_char(edge, #[trigger] s[i]) by {
            if i > 0 {
                assert(rest[i - 1] == s[i]);
            }
        }
        inner + 1
    } else {
        assert(s.skip(0) =~= s);
        0
    }
}

proof fn lemma_without_trailing(s: Seq<char>, edge: Edge) -> (to: int)
    ensures
        0 <= to <= s.len(),
        without_trailing(s, edge) == s.take(to),
        forall|i: int| to <= i < s.len() ==> edge_char(edge, #[trigger] s[i]),
        to > 0 ==> !edge_char(edge, s[to - 1]),
    decreases s.len(),
{
    if s.len() > 0 && edge_char(edge, s.last()) {
        let rest = s.drop_last();
        let to = lemma_without_trailing(rest, edge);
        assert(rest.take(to) =~= s.take(to));
        assert forall|i: int| to <= i < s.len() implies edge_char(edge, #[trigger] s[i]) by {
            if i < rest.len() {
                assert(rest[i] == s[i]);
            }
        }
        to
    } else {
        assert(s.take(s.len() as int) =~= s);
        s.len() as int
    }
}

/// Only edge characters are taken off the ends of a text, and all of them are: what stands before
/// and behind the rest is made of them, and the rest neither begins nor ends with one.
pub proof fn lemma_trimmed_to_core(s: Seq<char>, edge: Edge)
    ensures
        exists|from: int, to: int|
            0 <= from <= to <= s.len() && trimmed_of(s, edge) == #[trigger] s.subrange(from, to) && (
            forall|i: int| 0 <= i < from || to <= i < s.len() ==> edge_char(edge, #[trigger] s[i])),
        trimmed_of(s, edge).len() > 0 ==> !edge_char(edge, trimmed_of(s, edge)[0]) && !edge_char(
            edge,
            trimmed_of(s, edge).last(),
        ),
{
    let from = lemma_without_leading(s, edge);
    let rest = s.skip(from);
    let to = lemma_without_trailing(rest, edge);
    assert(rest.take(to) =~= s.subrange(from, from + to));
    assert forall|i: int| 0 <= i < from || from + to <= i < s.len() implies edge_char(
        edge,
        #[trigger] s[i],
    ) by {
        if i >= from {
            assert(rest[i - from] == s[i]);
        }
    }
    if to > 0 {
        assert(rest[0] == s[from]);
        assert(rest[to - 1] == trimmed_of(s, edge).last());
    }
}

/// A text that neither begins nor ends with whitespace is left as it is, and what stands around it
/// of whitespace goes.
pub proof fn lemma_trimmed_of_padded(before: Seq<char>, core: Seq<char>, after: Seq<char>, edge: Edge)
    requires
        forall|i: int| 0 <= i < before.len() ==> edge_char(edge, #[trigger] before[i]),
        forall|i: int| 0 <= i < after.len() ==> edge_char(edge, #[trigger] after[i]),
        core.len() > 0,
        !edge_char(edge, core[0]),
        !edge_char(edge, core.last()),
    ensures
        trimmed_of(before + core + after, edge) == core,
{
    let s = before + core + after;
    let from = lemma_without_leading(s, edge);
    assert(s[before.len() as int] == core[0]);
    assert(from == before.len()) by {
        if from > before.len() {
            assert(edge_char(edge, s[before.len() as int]));
        }
        if from < before.len() {
            assert(s[from] == before[from]);
        }
    }
    let rest = s.skip(from);
    let to = lemma_without_trailing(rest, edge);
    assert(rest[core.len() - 1] == core.last());
    assert(to == core.len()) by {
        if to < core.len() {
            assert(edge_char(edge, rest[core.len() - 1]));
        }
        if to > core.len() {
            assert(rest[to - 1] == after[to - 1 - core.len()]);
        }
    }
    assert(rest.take(to) =~= core);
}

/// A text of edge characters only is trimmed to nothing.
pub proof fn lemma_trimmed_of_edges(s: Seq<char>, edge: Edge)
    requires
        forall|i: int| 0 <= i < s.len() ==> edge_char(edge, #[trigger] s[i]),
    ensures
        trimmed_of(s, edge).len() == 0,
{
    let from = lemma_without_leading(s, edge);
    if from < s.len() {
        assert(edge_char(edge, s[from]));
    }
}

proof fn lemma_numeral_value(n: nat)
    ensures
        numeral(n, 10).len() > 0,
        all_digits(numeral(n, 10)),
        digits_value(numeral(n, 10)) == n,
        n > 0 ==> numeral(n, 10)[0] != '0',
    decreases n,
{
    let written = numeral(n, 10);
    if n < 10 {
        assert(written =~= seq![digit_char(n as int)]);
        assert(written.drop_last() =~= Seq::<char>::empty());
        assert(digits_value(written.drop_last()) == 0);
        assert(written.last() as int == 48 + n);
    } else {
        lemma_numeral_value(n / 10);
        let head = numeral(n / 10, 10);
        assert(written.drop_last() =~= head);
        assert(written.last() as int == 48 + n % 10);
        assert forall|i: int| 0 <= i < written.len() implies ascii_digit(#[trigger] written[i]) by {
            if i < head.len() {
                assert(head[i] == written[i]);
            }
        }
        assert(written[0] == head[0]);
    }
}

/// What is written in decimal reads back as the same number, and begins with a zero only for zero.
pub proof fn lemma_decimal_round_trip(n: nat)
    ensures
        all_digits(decimal_text(n)),
        digits_value(decimal_text(n)) == n,
        n > 0 ==> decimal_text(n)[0] != '0',
        n <= u64::MAX ==> parsed_number(decimal_text(n)) == Some(n),
{
    lemma_numeral_value(n);
    let written = decimal_text(n);
    assert(ascii_digit(written[0]));
    assert(unsigned_part(written) == written);
}

/// Zeros before a number do not change it, and fill it up to the width that is wanted.
pub proof fn lemma_zero_padded(digits: Seq<char>, width: nat)
    requires
        all_digits(digits),
    ensures
        zero_padded(digits, width).len() == if digits.len() < width {
            width
        } else {
            digits.len()
        },
        all_digits(zero_padded(digits, width)),
        digits_value(zero_padded(digits, width)) == digits_value(digits),
    decreases digits.len() + width,
{
    let filled = zero_padded(digits, width);
    assert forall|i: int| 0 <= i < filled.len() implies ascii_digit(#[trigger] filled[i]) by {
        if digits.len() < width && i >= width - digits.len() {
            assert(filled[i] == digits[i - (width - digits.len())]);
        }
    }
    if digits.len() < width {
        if digits.len() > 0 {
            let shorter = digits.drop_last();
            assert forall|i: int| 0 <= i < shorter.len() implies ascii_digit(
                #[trigger] shorter[i],
            ) by {
                assert(shorter[i] == digits[i]);
            }
            lemma_zero_padded(shorter, (width - 1) as nat);
            assert(filled.drop_last() =~= zero_padded(shorter, (width - 1) as nat));
        } else if width > 0 {
            lemma_zero_padded(digits, (width - 1) as nat);
            assert(filled.drop_last() =~= zero_padded(digits, (width - 1) as nat));
            assert(filled.last() == '0');
        }
    }
}

/// What is not a number is not read as one: a character other than a digit behind the sign spoils it.
pub proof fn lemma_only_numbers_read(s: Seq<char>, i: int)
    requires
        0 <= i < s.len(),
        !ascii_digit(s[i]),
        i > 0 || s[i] != '+' || s.len() == 1,
    ensures
        parsed_number(s) is None,
{
    let digits = unsigned_part(s);
    if s[0] == '+' {
        if i > 0 {
            assert(digits[i - 1] == s[i]);
        }
    } else {
        assert(digits[i] == s[i]);
    }
}

/// A part is found in a text exactly where something stands before it and something behind it.
pub proof fn lemma_occurs_between(before: Seq<char>, part: Seq<char>, after: Seq<char>)
    ensures
        occurs_in(before + part + after, part),
        begins_with(part + after, part),
        ends_with(before + part, part),
{
    let whole = before + part + after;
    assert(whole.subrange(before.len() as int, (before.len() + part.len()) as int) =~= part);
    assert(occurs_at(whole, part, before.len() as int));
    assert((part + after).take(part.len() as int) =~= part);
    assert((part + after).subrange(0, part.len() as int) =~= part);
    assert((before + part).skip(before.len() as int) =~= part);
    assert((before + part).subrange(before.len() as int, (before + part).len() as int) =~= part);
}

/// The ASCII capitals are the only characters whose lowercase differs from them, and it is the
/// letter thirty-two places on.
pub proof fn lemma_ascii_lower(c: char)
    ensures
        'A' <= c && c <= 'Z' ==> ascii_lower(c) as int == c as int + 32,
        !('A' <= c && c <= 'Z') ==> ascii_lower(c) == c,
        ascii_lower(ascii_lower(c)) == ascii_lower(c),
{
}

/// A message with its cause begins with the message and ends with the cause.
pub proof fn lemma_caused_holds_both(message: Seq<char>, cause: Seq<char>)
    ensures
        begins_with(caused(message, cause), message),
        ends_with(caused(message, cause), cause),
        caused(message, cause).len() == message.len() + 2 + cause.len(),
{
    reveal_strlit(": ");
    lemma_occurs_between(Seq::empty(), message, ": "@ + cause);
    lemma_occurs_between(message + ": "@, cause, Seq::empty());
    assert(caused(message, cause) =~= message + (": "@ + cause));
    assert(caused(message, cause) =~= message + ": "@ + cause);
}

/// What a text holds, it holds when more is written behind it.
pub proof fn lemma_occurs_in_longer(s: Seq<char>, part: Seq<char>, after: Seq<char>)
    requires
        occurs_in(s, part),
    ensures
        occurs_in(s + after, part),
{
    let at = choose|at: int| occurs_at(s, part, at);
    assert((s + after).subrange(at, at + part.len()) =~= s.subrange(at, at + part.len()));
    assert(occurs_at(s + after, part, at));
}

} // verus!
