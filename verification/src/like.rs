//! Matching texts against filters in which `%` stands for any text and `_` for any character.

use vstd::prelude::*;

use crate::text;

verus! {

/// Whether `value` fits `pattern`, without regard to the case of ASCII letters.
pub open spec fn fits(pattern: Seq<char>, value: Seq<char>) -> bool
    decreases pattern.len(), value.len(),
{
    if pattern.len() == 0 {
        value.len() == 0
    } else if pattern[0] == '%' {
        fits(pattern.skip(1), value) || (value.len() > 0 && fits(pattern, value.skip(1)))
    } else {
        value.len() > 0 && (pattern[0] == '_' || text::ascii_lower(pattern[0])
            == text::ascii_lower(value[0])) && fits(pattern.skip(1), value.skip(1))
    }
}

/// Whether `value` fits `pattern`.
pub fn matches_pattern(pattern: &Vec<char>, value: &Vec<char>) -> (result: bool)
    ensures
        result == fits(pattern@, value@),
{
    let n: usize = value.len();
    let mut row: Vec<bool> = Vec::new();
    let mut j: usize = 0;
    let length: usize = pattern.len();
    assert(pattern@.skip(length as int) =~= Seq::<char>::empty());
    while j < n
        invariant
            n == value@.len(),
            j <= n,
            row@.len() == j,
            pattern@.skip(length as int) =~= Seq::<char>::empty(),
            forall|k: int|
                0 <= k < j ==> #[trigger] row@[k] == fits(
                    pattern@.skip(length as int),
                    value@.skip(k),
                ),
        decreases n - j,
    {
        row.push(false);
        j += 1;
    }
    row.push(true);
    assert(value@.skip(n as int) =~= Seq::<char>::empty());
    let mut i: usize = length;
    while i > 0
        invariant
            n == value@.len(),
            length == pattern@.len(),
            i <= length,
            row@.len() == n + 1,
            forall|k: int|
                0 <= k <= n ==> #[trigger] row@[k] == fits(pattern@.skip(i as int), value@.skip(k)),
        decreases i,
    {
        i -= 1;
        let c = pattern[i];
        let ghost rest = pattern@.skip(i + 1);
        let ghost here = pattern@.skip(i as int);
        proof {
            assert(here.skip(1) =~= rest);
            assert(here[0] == c);
        }
        let ghost old_row = row@;
        let mut next: bool = false;
        let mut below: bool = row[n];
        let mut k: usize = row.len();
        while k > 0
            invariant
                n == value@.len(),
                k <= n + 1,
                row@.len() == n + 1,
                old_row.len() == n + 1,
                here.len() > 0,
                here[0] == c,
                here.skip(1) == rest,
                forall|m: int| 0 <= m <= n ==> #[trigger] old_row[m] == fits(rest, value@.skip(m)),
                forall|m: int| 0 <= m < k ==> #[trigger] row@[m] == old_row[m],
                forall|m: int| k <= m <= n ==> #[trigger] row@[m] == fits(here, value@.skip(m)),
                k <= n ==> next == fits(here, value@.skip(k as int)),
                k <= n ==> below == old_row[k as int],
            decreases k,
        {
            k -= 1;
            let ghost tail = value@.skip(k as int);
            proof {
                if k < n {
                    assert(tail.skip(1) =~= value@.skip(k + 1));
                }
            }
            let same = row[k];
            let fit = if c == '%' {
                same || (k < n && next)
            } else {
                k < n && (c == '_' || text::to_ascii_lower(c) == text::to_ascii_lower(value[k]))
                    && below
            };
            assert(fit == fits(here, tail)) by {
                assert(old_row[k as int] == fits(rest, tail));
                if k < n {
                    assert(old_row[k + 1] == fits(rest, value@.skip(k + 1)));
                }
            }
            row.set(k, fit);
            next = fit;
            below = same;
        }
    }
    assert(pattern@.skip(0) =~= pattern@);
    assert(value@.skip(0) =~= value@);
    row[0]
}

/// Whether `value` is like `pattern`: whether it fits, where both end at their first NUL.
pub open spec fn like(pattern: Seq<char>, value: Seq<char>) -> bool {
    fits(text::until_nul(pattern), text::until_nul(value))
}

/// Whether `value` is like `pattern`.
pub fn is_like(pattern: &Vec<char>, value: &Vec<char>) -> (result: bool)
    ensures
        result == like(pattern@, value@),
{
    let sought = text::chars_between(pattern, 0, text::find_nul(pattern));
    let seen = text::chars_between(value, 0, text::find_nul(value));
    assert(sought@ =~= text::until_nul(pattern@));
    assert(seen@ =~= text::until_nul(value@));
    matches_pattern(&sought, &seen)
}

/// The pattern of the texts that hold `filter` somewhere.
pub open spec fn holding(filter: Seq<char>) -> Seq<char> {
    "%"@ + filter + "%"@
}

/// The pattern of the texts that hold `filter` somewhere.
pub fn holding_pattern(filter: &str) -> (result: Vec<char>)
    ensures
        result@ == holding(filter@),
{
    let mut pattern = "%".to_owned();
    pattern.push_str(filter);
    pattern.push_str("%");
    text::chars_of(pattern.as_str())
}

/// Every text that holds the filter is found, unless the filter stands behind a NUL.
pub proof fn lemma_holding_finds(filter: Seq<char>, before: Seq<char>, after: Seq<char>)
    requires
        !before.contains('\0'),
    ensures
        like(holding(filter), before + filter + after),
{
    reveal_strlit("%");
    let start = "%"@;
    let inner = text::until_nul(filter);
    text::lemma_nul_place_bounded(filter);
    assert forall|i: int| 0 <= i < start.len() implies #[trigger] start[i] != '\0' by {}
    assert(before + filter + after =~= before + (filter + after));
    assert(holding(filter) =~= start + (filter + "%"@));
    text::lemma_nul_place_after(start, filter + "%"@);
    text::lemma_nul_place_after(before, filter + after);
    if inner.len() < filter.len() {
        let rest = filter.skip(inner.len() as int);
        assert(rest[0] == '\0');
        assert(filter + "%"@ =~= inner + (rest + "%"@));
        assert(filter + after =~= inner + (rest + after));
        text::lemma_nul_place_after(inner, rest + "%"@);
        text::lemma_nul_place_after(inner, rest + after);
        assert(text::until_nul(rest + "%"@) =~= Seq::<char>::empty());
        assert(text::until_nul(rest + after) =~= Seq::<char>::empty());
        assert(text::until_nul(holding(filter)) =~= start + inner);
        assert(text::until_nul(before + filter + after) =~= before + inner);
        lemma_itself_fits(inner);
        assert((start + inner).skip(1) =~= inner);
        lemma_skip_before(start + inner, before, inner);
    } else {
        assert(inner =~= filter);
        text::lemma_nul_place_after(filter, "%"@);
        text::lemma_nul_place_after(filter, after);
        text::lemma_nul_place_after("%"@, Seq::<char>::empty());
        assert("%"@ + Seq::<char>::empty() =~= "%"@);
        let pattern = start + (filter + "%"@);
        let shown = text::until_nul(after);
        assert(text::until_nul("%"@) =~= "%"@);
        assert(text::until_nul(holding(filter)) =~= pattern);
        assert(text::until_nul(before + filter + after) =~= before + (filter + shown));
        assert(pattern.skip(1) =~= filter + "%"@);
        lemma_tail_fits(filter, shown);
        lemma_skip_before(pattern, before, filter + shown);
    }
}

proof fn lemma_itself_fits(s: Seq<char>)
    ensures
        fits(s, s),
    decreases s.len(),
{
    if s.len() > 0 {
        lemma_itself_fits(s.skip(1));
        if s[0] == '%' {
            lemma_skip_before(s, seq!['%'], s.skip(1));
            assert(seq!['%'] + s.skip(1) =~= s);
        }
    }
}

proof fn lemma_skip_before(pattern: Seq<char>, before: Seq<char>, rest: Seq<char>)
    requires
        pattern.len() > 0,
        pattern[0] == '%',
        fits(pattern.skip(1), rest),
    ensures
        fits(pattern, before + rest),
    decreases before.len(),
{
    if before.len() == 0 {
        assert(before + rest =~= rest);
    } else {
        lemma_skip_before(pattern, before.skip(1), rest);
        assert((before + rest).skip(1) =~= before.skip(1) + rest);
    }
}

proof fn lemma_tail_fits(filter: Seq<char>, after: Seq<char>)
    ensures
        fits(filter + "%"@, filter + after),
    decreases filter.len(),
{
    reveal_strlit("%");
    let pattern = filter + "%"@;
    if filter.len() == 0 {
        assert(pattern =~= seq!['%']);
        assert(pattern.skip(1) =~= Seq::<char>::empty());
        assert(filter + after =~= after);
        lemma_skip_before(pattern, after, Seq::empty());
        assert(after + Seq::<char>::empty() =~= after);
    } else {
        lemma_tail_fits(filter.skip(1), after);
        assert(pattern.skip(1) =~= filter.skip(1) + "%"@);
        assert((filter + after).skip(1) =~= filter.skip(1) + after);
        if filter[0] == '%' {
            lemma_skip_before(pattern, seq!['%'], (filter + after).skip(1));
            assert(filter + after =~= seq!['%'] + (filter + after).skip(1));
        }
    }
}

proof fn lemma_same_nul(a: Seq<char>, b: Seq<char>)
    requires
        text::ascii_lower_text(a) == text::ascii_lower_text(b),
    ensures
        a.len() == b.len(),
        text::nul_place(a) == text::nul_place(b),
    decreases a.len(),
{
    assert(a.len() == text::ascii_lower_text(a).len());
    assert(b.len() == text::ascii_lower_text(b).len());
    if a.len() > 0 {
        assert(text::ascii_lower(a[0]) == text::ascii_lower_text(a)[0]);
        assert(text::ascii_lower(b[0]) == text::ascii_lower_text(b)[0]);
        assert(text::ascii_lower_text(a.skip(1)) =~= text::ascii_lower_text(a).skip(1));
        assert(text::ascii_lower_text(b.skip(1)) =~= text::ascii_lower_text(b).skip(1));
        text::lemma_ascii_lower(a[0]);
        text::lemma_ascii_lower(b[0]);
        lemma_same_nul(a.skip(1), b.skip(1));
    }
}

proof fn lemma_start_fits(filter: Seq<char>, found: Seq<char>, rest: Seq<char>, after: Seq<char>)
    requires
        text::ascii_lower_text(filter) == text::ascii_lower_text(found),
        fits(rest, after),
    ensures
        fits(filter + rest, found + after),
    decreases filter.len(),
{
    assert(filter.len() == text::ascii_lower_text(filter).len());
    assert(found.len() == text::ascii_lower_text(found).len());
    if filter.len() == 0 {
        assert(filter + rest =~= rest);
        assert(found + after =~= after);
    } else {
        let (pattern, value) = (filter + rest, found + after);
        assert(text::ascii_lower(filter[0]) == text::ascii_lower_text(filter)[0]);
        assert(text::ascii_lower(found[0]) == text::ascii_lower_text(found)[0]);
        assert(text::ascii_lower_text(filter.skip(1)) =~= text::ascii_lower_text(filter).skip(1));
        assert(text::ascii_lower_text(found.skip(1)) =~= text::ascii_lower_text(found).skip(1));
        lemma_start_fits(filter.skip(1), found.skip(1), rest, after);
        assert(pattern.skip(1) =~= filter.skip(1) + rest);
        assert(value.skip(1) =~= found.skip(1) + after);
        if filter[0] == '%' {
            lemma_skip_before(pattern, seq![value[0]], value.skip(1));
            assert(seq![value[0]] + value.skip(1) =~= value);
        }
    }
}

/// What holds the words of a filter is found, whatever the case of their ASCII letters, unless they
/// stand behind a NUL.
pub proof fn lemma_found_in_any_case(
    filter: Seq<char>,
    before: Seq<char>,
    found: Seq<char>,
    after: Seq<char>,
)
    requires
        text::ascii_lower_text(filter) == text::ascii_lower_text(found),
        !before.contains('\0'),
    ensures
        like(holding(filter), before + found + after),
{
    reveal_strlit("%");
    lemma_same_nul(filter, found);
    let start = "%"@;
    let inner = text::until_nul(filter);
    let seen = text::until_nul(found);
    text::lemma_nul_place_bounded(filter);
    text::lemma_nul_place_bounded(found);
    assert(text::ascii_lower_text(inner) =~= text::ascii_lower_text(filter).take(
        text::nul_place(filter),
    ));
    assert(text::ascii_lower_text(seen) =~= text::ascii_lower_text(found).take(
        text::nul_place(found),
    ));
    assert(before + found + after =~= before + (found + after));
    assert(holding(filter) =~= start + (filter + "%"@));
    assert forall|i: int| 0 <= i < start.len() implies #[trigger] start[i] != '\0' by {}
    text::lemma_nul_place_after(start, filter + "%"@);
    text::lemma_nul_place_after(before, found + after);
    if inner.len() < filter.len() {
        let rest = filter.skip(inner.len() as int);
        let other = found.skip(seen.len() as int);
        assert(rest[0] == '\0' && other[0] == '\0');
        assert(filter + "%"@ =~= inner + (rest + "%"@));
        assert(found + after =~= seen + (other + after));
        text::lemma_nul_place_after(inner, rest + "%"@);
        text::lemma_nul_place_after(seen, other + after);
        assert(text::until_nul(rest + "%"@) =~= Seq::<char>::empty());
        assert(text::until_nul(other + after) =~= Seq::<char>::empty());
        assert(text::until_nul(holding(filter)) =~= start + inner);
        assert(text::until_nul(before + found + after) =~= before + seen);
        lemma_start_fits(inner, seen, Seq::empty(), Seq::empty());
        assert(inner + Seq::<char>::empty() =~= inner);
        assert(seen + Seq::<char>::empty() =~= seen);
        assert((start + inner).skip(1) =~= inner);
        lemma_skip_before(start + inner, before, seen);
    } else {
        assert(inner =~= filter);
        assert(seen =~= found);
        text::lemma_nul_place_after(filter, "%"@);
        text::lemma_nul_place_after(found, after);
        text::lemma_nul_place_after("%"@, Seq::<char>::empty());
        assert("%"@ + Seq::<char>::empty() =~= "%"@);
        let pattern = start + (filter + "%"@);
        let shown = text::until_nul(after);
        assert(text::until_nul("%"@) =~= "%"@);
        assert(text::until_nul(holding(filter)) =~= pattern);
        assert(text::until_nul(before + found + after) =~= before + (found + shown));
        assert(pattern.skip(1) =~= filter + "%"@);
        assert("%"@ =~= seq!['%']);
        assert("%"@.skip(1) =~= Seq::<char>::empty());
        lemma_skip_before("%"@, shown, Seq::empty());
        assert(shown + Seq::<char>::empty() =~= shown);
        lemma_start_fits(filter, found, "%"@, shown);
        lemma_skip_before(pattern, before, found + shown);
    }
}

proof fn lemma_literal_start(words: Seq<char>, value: Seq<char>)
    requires
        !words.contains('%'),
        !words.contains('_'),
        fits(words + "%"@, value),
    ensures
        text::occurs_at(text::ascii_lower_text(value), text::ascii_lower_text(words), 0),
    decreases words.len(),
{
    reveal_strlit("%");
    let (lower, sought) = (text::ascii_lower_text(value), text::ascii_lower_text(words));
    if words.len() == 0 {
        assert(lower.subrange(0, 0) =~= sought);
    } else {
        let pattern = words + "%"@;
        assert(words.contains(words[0]));
        assert(pattern[0] == words[0]);
        assert(pattern.skip(1) =~= words.skip(1) + "%"@);
        assert forall|c: char| words.skip(1).contains(c) implies words.contains(c) by {
            let i = choose|i: int| 0 <= i < words.skip(1).len() && words.skip(1)[i] == c;
            assert(words[i + 1] == c);
        }
        lemma_literal_start(words.skip(1), value.skip(1));
        assert(text::ascii_lower_text(value.skip(1)) =~= lower.skip(1));
        assert(text::ascii_lower_text(words.skip(1)) =~= sought.skip(1));
        let part = lower.subrange(0, sought.len() as int);
        assert forall|i: int| 0 <= i < sought.len() implies part[i] == sought[i] by {
            if i > 0 {
                assert(lower.skip(1).subrange(0, sought.len() - 1)[i - 1] == sought.skip(1)[i - 1]);
            }
        }
        assert(part =~= sought);
    }
}

proof fn lemma_literal_inside(words: Seq<char>, value: Seq<char>)
    requires
        !words.contains('%'),
        !words.contains('_'),
        fits(holding(words), value),
    ensures
        text::occurs_in(text::ascii_lower_text(value), text::ascii_lower_text(words)),
    decreases value.len(),
{
    reveal_strlit("%");
    let pattern = holding(words);
    let (lower, sought) = (text::ascii_lower_text(value), text::ascii_lower_text(words));
    assert(pattern[0] == '%');
    assert(pattern.skip(1) =~= words + "%"@);
    if fits(words + "%"@, value) {
        lemma_literal_start(words, value);
        assert(text::occurs_at(lower, sought, 0));
    } else {
        lemma_literal_inside(words, value.skip(1));
        assert(text::ascii_lower_text(value.skip(1)) =~= lower.skip(1));
        let at = choose|at: int| text::occurs_at(lower.skip(1), sought, at);
        assert(lower.subrange(at + 1, at + 1 + sought.len()) =~= lower.skip(1).subrange(
            at,
            at + sought.len(),
        ));
        assert(text::occurs_at(lower, sought, at + 1));
    }
}

/// What is found by plain words holds them, whatever the case of the letters: nothing else is found.
pub proof fn lemma_found_only_where_held(words: Seq<char>, value: Seq<char>)
    requires
        !words.contains('%'),
        !words.contains('_'),
        !words.contains('\0'),
        like(holding(words), value),
    ensures
        text::occurs_in(text::ascii_lower_text(value), text::ascii_lower_text(words)),
{
    reveal_strlit("%");
    let start = "%"@;
    assert forall|i: int| 0 <= i < start.len() implies #[trigger] start[i] != '\0' by {}
    text::lemma_nul_place_after(start, words + start);
    text::lemma_nul_place_after(words, start);
    text::lemma_nul_place_after(start, Seq::<char>::empty());
    assert(start + Seq::<char>::empty() =~= start);
    assert(start + (words + start) =~= holding(words));
    assert(text::until_nul(start) =~= start);
    assert(text::until_nul(holding(words)) =~= holding(words));
    let shown = text::until_nul(value);
    text::lemma_nul_place_bounded(value);
    lemma_literal_inside(words, shown);
    let (lower, sought) = (text::ascii_lower_text(shown), text::ascii_lower_text(words));
    let whole = text::ascii_lower_text(value);
    let at = choose|at: int| text::occurs_at(lower, sought, at);
    assert(whole.subrange(at, at + sought.len()) =~= lower.subrange(at, at + sought.len()));
    assert(text::occurs_at(whole, sought, at));
}

/// In a filter `_` stands for any one character and `%` for any run of them.
pub proof fn lemma_wildcards(c: char, run: Seq<char>, pattern: Seq<char>, value: Seq<char>)
    requires
        fits(pattern, value),
    ensures
        fits(seq!['_'] + pattern, seq![c] + value),
        fits(seq!['%'] + pattern, run + value),
{
    assert((seq!['_'] + pattern).skip(1) =~= pattern);
    assert((seq![c] + value).skip(1) =~= value);
    assert((seq!['%'] + pattern).skip(1) =~= pattern);
    lemma_skip_before(seq!['%'] + pattern, run, value);
}

} // verus!
