//! The order in which lists are shown: by two texts, without regard to the case of ASCII letters.

use vstd::prelude::*;

use crate::scan;
use crate::text;

verus! {

/// Whether `a` comes before `b` in the order of their characters.
pub open spec fn precedes(a: Seq<char>, b: Seq<char>) -> bool
    decreases b.len(),
{
    if b.len() == 0 {
        false
    } else if a.len() == 0 {
        true
    } else if a[0] == b[0] {
        precedes(a.skip(1), b.skip(1))
    } else {
        a[0] < b[0]
    }
}

/// Whether `a` comes before `b` in the order of their characters.
pub fn text_precedes(a: &Vec<char>, b: &Vec<char>) -> (result: bool)
    ensures
        result == precedes(a@, b@),
{
    let mut i: usize = 0;
    assert(a@.skip(0) =~= a@ && b@.skip(0) =~= b@);
    while i < a.len() && i < b.len() && a[i] == b[i]
        invariant
            i <= a@.len(),
            i <= b@.len(),
            precedes(a@, b@) == precedes(a@.skip(i as int), b@.skip(i as int)),
        decreases a@.len() - i,
    {
        assert(a@.skip(i as int).skip(1) =~= a@.skip(i + 1));
        assert(b@.skip(i as int).skip(1) =~= b@.skip(i + 1));
        i += 1;
    }
    if i == b.len() {
        false
    } else if i == a.len() {
        true
    } else {
        a[i] < b[i]
    }
}

proof fn lemma_precedes_transitive(a: Seq<char>, b: Seq<char>, c: Seq<char>)
    requires
        precedes(a, b),
        precedes(b, c),
    ensures
        precedes(a, c),
    decreases c.len(),
{
    if a.len() > 0 && a[0] == b[0] && b[0] == c[0] {
        lemma_precedes_transitive(a.skip(1), b.skip(1), c.skip(1));
    }
}

proof fn lemma_precedes_one_way(a: Seq<char>, b: Seq<char>)
    requires
        precedes(a, b),
    ensures
        !precedes(b, a),
        a != b,
    decreases b.len(),
{
    if a.len() > 0 && a[0] == b[0] {
        lemma_precedes_one_way(a.skip(1), b.skip(1));
    }
}

proof fn lemma_precedes_total(a: Seq<char>, b: Seq<char>)
    ensures
        precedes(a, b) || precedes(b, a) || a == b,
    decreases b.len(),
{
    if a.len() == 0 && b.len() == 0 {
        assert(a =~= b);
    } else if a.len() > 0 && b.len() > 0 && a[0] == b[0] {
        lemma_precedes_total(a.skip(1), b.skip(1));
        if a.skip(1) == b.skip(1) {
            assert(a =~= seq![a[0]] + a.skip(1));
            assert(b =~= seq![b[0]] + b.skip(1));
        }
    }
}

/// What a row is ordered by.
pub struct Key {
    pub first: Vec<char>,
    pub second: Vec<char>,
}

/// The view of a [`Key`].
#[verifier::ext_equal]
pub struct KeyView {
    pub first: Seq<char>,
    pub second: Seq<char>,
}

impl View for Key {
    type V = KeyView;

    open spec fn view(&self) -> KeyView {
        KeyView { first: self.first@, second: self.second@ }
    }
}

/// What a text is ordered by: its characters up to the first NUL, without regard to the case of
/// ASCII letters, and behind them only how many bytes are left.
pub open spec fn folded_text(s: Seq<char>) -> Seq<char> {
    text::ascii_lower_text(text::until_nul(s)) + Seq::new(
        scan::byte_length(s.skip(text::nul_place(s))),
        |i: int| '\0',
    )
}

/// What a text is ordered by.
pub fn fold(s: &str) -> (result: Vec<char>)
    ensures
        result@ == folded_text(s@),
{
    let chars = text::chars_of(s);
    let end: usize = text::find_nul(&chars);
    let rest = text::chars_between(&chars, end, chars.len());
    let left: u128 = scan::bytes_before(&rest, rest.len());
    proof {
        assert(rest@ =~= s@.skip(text::nul_place(s@)));
        assert(rest@.take(rest@.len() as int) =~= rest@);
    }
    let mut result: Vec<char> = Vec::new();
    let mut i: usize = 0;
    while i < end
        invariant
            chars@ == s@,
            end == text::nul_place(s@),
            i <= end <= chars@.len(),
            result@ == text::ascii_lower_text(s@.take(i as int)),
        decreases end - i,
    {
        result.push(text::to_ascii_lower(chars[i]));
        assert(result@ =~= text::ascii_lower_text(s@.take(i + 1)));
        i += 1;
    }
    let ghost start = result@;
    let mut n: u128 = 0;
    while n < left
        invariant
            n <= left,
            result@ == start + Seq::new(n as nat, |i: int| '\0'),
        decreases left - n,
    {
        result.push('\0');
        assert(result@ =~= start + Seq::new((n + 1) as nat, |i: int| '\0'));
        n += 1;
    }
    result
}

/// The key of a row that is ordered by two texts.
pub open spec fn folded(first: Seq<char>, second: Seq<char>) -> KeyView {
    KeyView { first: folded_text(first), second: folded_text(second) }
}

/// The key of a row that is ordered by two texts.
pub fn key_of(first: &str, second: &str) -> (result: Key)
    ensures
        result@ == folded(first@, second@),
{
    Key { first: fold(first), second: fold(second) }
}

/// Whether a key comes before another one.
pub open spec fn key_before(a: KeyView, b: KeyView) -> bool {
    precedes(a.first, b.first) || (a.first == b.first && precedes(a.second, b.second))
}

/// Whether row `i` is shown before row `j`: by their keys, and where those are equal by their
/// places.
pub open spec fn shown_before(keys: Seq<KeyView>, i: int, j: int) -> bool {
    key_before(keys[i], keys[j]) || (keys[i] == keys[j] && i < j)
}

pub proof fn lemma_key_transitive(a: KeyView, b: KeyView, c: KeyView)
    requires
        key_before(a, b),
        key_before(b, c),
    ensures
        key_before(a, c),
{
    if precedes(a.first, b.first) && precedes(b.first, c.first) {
        lemma_precedes_transitive(a.first, b.first, c.first);
    }
    if precedes(a.second, b.second) && precedes(b.second, c.second) {
        lemma_precedes_transitive(a.second, b.second, c.second);
    }
}

pub proof fn lemma_key_total(a: KeyView, b: KeyView)
    ensures
        key_before(a, b) || key_before(b, a) || a == b,
        key_before(a, b) ==> !key_before(b, a) && a != b,
{
    lemma_precedes_total(a.first, b.first);
    lemma_precedes_total(a.second, b.second);
    if precedes(a.first, b.first) {
        lemma_precedes_one_way(a.first, b.first);
    }
    if precedes(a.second, b.second) {
        lemma_precedes_one_way(a.second, b.second);
    }
}

proof fn lemma_shown_transitive(keys: Seq<KeyView>, i: int, j: int, k: int)
    requires
        shown_before(keys, i, j),
        shown_before(keys, j, k),
    ensures
        shown_before(keys, i, k),
{
    if key_before(keys[i], keys[j]) && key_before(keys[j], keys[k]) {
        lemma_key_transitive(keys[i], keys[j], keys[k]);
    }
}

/// Whether `places` lists the kept rows, each once, in the order in which they are shown.
pub open spec fn is_listing(keys: Seq<KeyView>, keep: Seq<bool>, places: Seq<int>) -> bool {
    &&& keep.len() == keys.len()
    &&& forall|i: int| 0 <= i < places.len() ==> 0 <= #[trigger] places[i] < keys.len()
    &&& forall|i: int| 0 <= i < places.len() ==> keep[#[trigger] places[i]]
    &&& forall|k: int| 0 <= k < keys.len() && #[trigger] keep[k] ==> places.contains(k)
    &&& forall|i: int, j: int|
        0 <= i < j < places.len() ==> shown_before(keys, #[trigger] places[i], #[trigger] places[j])
}

/// The listing of the kept rows.
pub open spec fn listing_of(keys: Seq<KeyView>, keep: Seq<bool>) -> Seq<int> {
    choose|places: Seq<int>| is_listing(keys, keep, places)
}

/// Two listings of the same rows are the same: what is shown depends on the rows alone.
pub proof fn lemma_listing_unique(
    keys: Seq<KeyView>,
    keep: Seq<bool>,
    a: Seq<int>,
    b: Seq<int>,
)
    requires
        is_listing(keys, keep, a),
        is_listing(keys, keep, b),
    ensures
        a == b,
    decreases a.len(),
{
    if a.len() == 0 {
        if b.len() > 0 {
            assert(keep[b[0]]);
            assert(a.contains(b[0]));
        }
        assert(a =~= b);
    } else if b.len() == 0 {
        assert(keep[a[0]]);
        assert(b.contains(a[0]));
    } else {
        assert(keep[a[0]] && keep[b[0]]);
        assert(b.contains(a[0]) && a.contains(b[0]));
        let i = choose|i: int| 0 <= i < b.len() && b[i] == a[0];
        let j = choose|j: int| 0 <= j < a.len() && a[j] == b[0];
        if i > 0 && j > 0 {
            assert(shown_before(keys, b[0], b[i]));
            assert(shown_before(keys, a[0], a[j]));
            lemma_key_total(keys[a[0]], keys[b[0]]);
            lemma_key_total(keys[b[0]], keys[a[0]]);
        }
        assert(a[0] == b[0]);
        let gone = a[0];
        let rest = keep.update(gone, false);
        let (x, y) = (a.skip(1), b.skip(1));
        lemma_listing_rest(keys, keep, a);
        lemma_listing_rest(keys, keep, b);
        lemma_listing_unique(keys, rest, x, y);
        assert(a =~= seq![gone] + x);
        assert(b =~= seq![gone] + y);
    }
}

proof fn lemma_listing_rest(keys: Seq<KeyView>, keep: Seq<bool>, places: Seq<int>)
    requires
        is_listing(keys, keep, places),
        places.len() > 0,
    ensures
        is_listing(keys, keep.update(places[0], false), places.skip(1)),
{
    let rest = places.skip(1);
    let kept = keep.update(places[0], false);
    assert forall|i: int| 0 <= i < rest.len() implies kept[#[trigger] rest[i]] && 0 <= rest[i]
        < keys.len() by {
        assert(rest[i] == places[i + 1]);
        assert(shown_before(keys, places[0], places[i + 1]));
        lemma_key_total(keys[places[0]], keys[places[i + 1]]);
        assert(places[0] != places[i + 1]);
        assert(keep[places[i + 1]]);
    }
    assert forall|k: int| 0 <= k < keys.len() && #[trigger] kept[k] implies rest.contains(k) by {
        assert(k != places[0] || !(0 <= places[0] < keep.len()));
        assert(keep[k]);
        let i = choose|i: int| 0 <= i < places.len() && places[i] == k;
        if i == 0 {
            assert(keep[places[0]]);
        } else {
            assert(rest[i - 1] == k);
        }
    }
    assert forall|i: int, j: int| 0 <= i < j < rest.len() implies shown_before(
        keys,
        #[trigger] rest[i],
        #[trigger] rest[j],
    ) by {
        assert(rest[i] == places[i + 1] && rest[j] == places[j + 1]);
    }
}

fn comes_before(a: &Key, b: &Key) -> (result: bool)
    ensures
        result == key_before(a@, b@),
{
    if text_precedes(&a.first, &b.first) {
        return true;
    }
    proof {
        lemma_precedes_total(a.first@, b.first@);
        if precedes(b.first@, a.first@) {
            lemma_precedes_one_way(b.first@, a.first@);
        }
    }
    if text_precedes(&b.first, &a.first) {
        return false;
    }
    text_precedes(&a.second, &b.second)
}

/// Positions as mathematical integers.
pub open spec fn positions(places: Seq<usize>) -> Seq<int> {
    Seq::new(places.len(), |i: int| places[i] as int)
}

/// Lists the kept rows in the order in which they are shown.
pub fn listing(keys: &Vec<Key>, keep: &Vec<bool>) -> (result: Vec<usize>)
    requires
        keep@.len() == keys@.len(),
    ensures
        is_listing(text::views(keys@), keep@, positions(result@)),
        positions(result@) == listing_of(text::views(keys@), keep@),
{
    let ghost all = text::views(keys@);
    let mut places: Vec<usize> = Vec::new();
    let mut k: usize = 0;
    while k < keys.len()
        invariant
            all == text::views(keys@),
            keep@.len() == keys@.len(),
            k <= keys@.len(),
            forall|i: int| 0 <= i < places@.len() ==> (#[trigger] places@[i]) < k,
            forall|i: int| 0 <= i < places@.len() ==> keep@[(#[trigger] places@[i]) as int],
            forall|r: int| 0 <= r < k && #[trigger] keep@[r] ==> positions(places@).contains(r),
            forall|i: int, j: int|
                0 <= i < j < places@.len() ==> shown_before(
                    all,
                    (#[trigger] places@[i]) as int,
                    (#[trigger] places@[j]) as int,
                ),
        decreases keys@.len() - k,
    {
        if keep[k] {
            let mut low: usize = 0;
            let mut high: usize = places.len();
            while low < high
                invariant
                    all == text::views(keys@),
                    k < keys@.len(),
                    low <= high <= places@.len(),
                    forall|i: int| 0 <= i < places@.len() ==> (#[trigger] places@[i]) < k,
                    forall|i: int, j: int|
                        0 <= i < j < places@.len() ==> shown_before(
                            all,
                            (#[trigger] places@[i]) as int,
                            (#[trigger] places@[j]) as int,
                        ),
                    forall|i: int|
                        0 <= i < low ==> shown_before(all, (#[trigger] places@[i]) as int, k as int),
                    forall|i: int|
                        high <= i < places@.len() ==> shown_before(
                            all,
                            k as int,
                            (#[trigger] places@[i]) as int,
                        ),
                decreases high - low,
            {
                let middle: usize = low + (high - low) / 2;
                let other: usize = places[middle];
                proof {
                    lemma_key_total(all[k as int], all[other as int]);
                    lemma_key_total(all[other as int], all[k as int]);
                    assert(all[k as int] == keys@[k as int]@);
                    assert(all[other as int] == keys@[other as int]@);
                }
                if comes_before(&keys[k], &keys[other]) {
                    proof {
                        assert forall|i: int| middle <= i < places@.len() implies shown_before(
                            all,
                            k as int,
                            (#[trigger] places@[i]) as int,
                        ) by {
                            if i > middle {
                                lemma_shown_transitive(
                                    all,
                                    k as int,
                                    other as int,
                                    places@[i] as int,
                                );
                            }
                        }
                    }
                    high = middle;
                } else {
                    proof {
                        assert forall|i: int| 0 <= i <= middle implies shown_before(
                            all,
                            (#[trigger] places@[i]) as int,
                            k as int,
                        ) by {
                            if i < middle {
                                lemma_shown_transitive(
                                    all,
                                    places@[i] as int,
                                    other as int,
                                    k as int,
                                );
                            }
                        }
                    }
                    low = middle + 1;
                }
            }
            let ghost before = places@;
            places.insert(low, k);
            proof {
                let after = places@;
                assert(after =~= before.insert(low as int, k));
                assert forall|i: int, j: int| 0 <= i < j < after.len() implies shown_before(
                    all,
                    (#[trigger] after[i]) as int,
                    (#[trigger] after[j]) as int,
                ) by {
                    let a = if i < low {
                        i
                    } else {
                        i - 1
                    };
                    let b = if j < low {
                        j
                    } else {
                        j - 1
                    };
                    if i != low {
                        assert(after[i] == before[a]);
                    }
                    if j != low {
                        assert(after[j] == before[b]);
                    }
                }
                assert forall|r: int| 0 <= r < k + 1 && #[trigger] keep@[r] implies positions(
                    after,
                ).contains(r) by {
                    if r == k {
                        assert(positions(after)[low as int] == r);
                    } else {
                        assert(positions(before).contains(r));
                        let i = choose|i: int|
                            0 <= i < positions(before).len() && positions(before)[i] == r;
                        if i < low {
                            assert(positions(after)[i] == r);
                        } else {
                            assert(positions(after)[i + 1] == r);
                        }
                    }
                }
                assert forall|i: int| 0 <= i < after.len() implies (#[trigger] after[i]) < k + 1
                    && keep@[after[i] as int] by {
                    if i < low {
                        assert(after[i] == before[i]);
                    } else if i > low {
                        assert(after[i] == before[i - 1]);
                    }
                }
            }
        }
        k += 1;
    }
    proof {
        let out = positions(places@);
        assert forall|i: int| 0 <= i < out.len() implies 0 <= #[trigger] out[i] < all.len()
            && keep@[out[i]] by {
            assert(out[i] == places@[i]);
        }
        assert forall|i: int, j: int| 0 <= i < j < out.len() implies shown_before(
            all,
            #[trigger] out[i],
            #[trigger] out[j],
        ) by {
            assert(out[i] == places@[i] && out[j] == places@[j]);
        }
        assert(is_listing(all, keep@, out));
        lemma_listing_unique(all, keep@, out, listing_of(all, keep@));
    }
    places
}

/// The part of a list that a page shows.
pub open spec fn page<T>(list: Seq<T>, limit: nat, offset: nat) -> Seq<T> {
    if offset >= list.len() {
        Seq::empty()
    } else if offset + limit >= list.len() {
        list.skip(offset as int)
    } else {
        list.subrange(offset as int, (offset + limit) as int)
    }
}

/// Whether no two of the kept rows have the same key.
pub open spec fn differ(keys: Seq<KeyView>, keep: Seq<bool>) -> bool {
    forall|i: int, j: int|
        0 <= i < j < keys.len() && keep[i] && keep[j] ==> #[trigger] keys[i] != #[trigger] keys[j]
}

/// Whether no two of the kept rows have the same key.
pub fn all_differ(keys: &Vec<Key>, keep: &Vec<bool>) -> (result: bool)
    requires
        keep@.len() == keys@.len(),
    ensures
        result == differ(text::views(keys@), keep@),
{
    let ghost views = text::views(keys@);
    let places = listing(keys, keep);
    let ghost all = positions(places@);
    let mut n: usize = 1;
    while n < places.len()
        invariant
            views == text::views(keys@),
            all == positions(places@),
            is_listing(views, keep@, all),
            1 <= n,
            n <= places@.len() || n == 1,
            forall|a: int, b: int|
                0 <= a < b < n && b < places@.len() ==> key_before(
                    views[#[trigger] all[a]],
                    views[#[trigger] all[b]],
                ),
        decreases places@.len() - n,
    {
        let low: usize = places[n - 1];
        let high: usize = places[n];
        proof {
            assert(all[n - 1] == low && all[n as int] == high);
            assert(views[low as int] == keys@[low as int]@);
            assert(views[high as int] == keys@[high as int]@);
        }
        if !comes_before(&keys[low], &keys[high]) {
            proof {
                assert(shown_before(views, all[n - 1], all[n as int]));
                assert(keep@[all[n - 1]] && keep@[all[n as int]]);
                assert(views[low as int] == views[high as int] && low < high);
            }
            return false;
        }
        proof {
            assert forall|a: int, b: int| 0 <= a < b < n + 1 && b < places@.len() implies key_before(
                views[#[trigger] all[a]],
                views[#[trigger] all[b]],
            ) by {
                if b == n && a < n - 1 {
                    assert(key_before(views[all[a]], views[all[n - 1]]));
                    lemma_key_transitive(views[all[a]], views[all[n - 1]], views[all[n as int]]);
                }
            }
        }
        n += 1;
    }
    proof {
        assert forall|r: int, s: int|
            0 <= r < s < views.len() && keep@[r] && keep@[s] implies #[trigger] views[r]
            != #[trigger] views[s] by {
            assert(all.contains(r) && all.contains(s));
            let a = choose|a: int| 0 <= a < all.len() && all[a] == r;
            let b = choose|b: int| 0 <= b < all.len() && all[b] == s;
            if a < b {
                assert(key_before(views[all[a]], views[all[b]]));
                lemma_key_total(views[r], views[s]);
            } else {
                assert(key_before(views[all[b]], views[all[a]]));
                lemma_key_total(views[s], views[r]);
            }
        }
    }
    true
}

/// Whether row `p` is the first of the kept rows that have its key.
pub open spec fn first_of(keys: Seq<KeyView>, keep: Seq<bool>, p: int) -> bool {
    keep[p] && forall|q: int| 0 <= q < p && #[trigger] keep[q] ==> keys[q] != keys[p]
}

/// Tells of each row whether it is the first of the kept rows that have its key.
pub fn first_rows(keys: &Vec<Key>, keep: &Vec<bool>) -> (result: Vec<bool>)
    requires
        keep@.len() == keys@.len(),
    ensures
        result@.len() == keys@.len(),
        forall|p: int|
            0 <= p < keys@.len() ==> #[trigger] result@[p] == first_of(
                text::views(keys@),
                keep@,
                p,
            ),
{
    let ghost views = text::views(keys@);
    let places = listing(keys, keep);
    let ghost all = positions(places@);
    let mut result: Vec<bool> = Vec::new();
    let mut k: usize = 0;
    while k < keys.len()
        invariant
            k <= keys@.len(),
            result@.len() == k,
            forall|p: int| 0 <= p < k ==> !#[trigger] result@[p],
        decreases keys@.len() - k,
    {
        result.push(false);
        k += 1;
    }
    let mut n: usize = 0;
    while n < places.len()
        invariant
            views == text::views(keys@),
            all == positions(places@),
            is_listing(views, keep@, all),
            n <= places@.len(),
            result@.len() == keys@.len(),
            forall|p: int|
                0 <= p < result@.len() && #[trigger] result@[p] ==> keep@[p] && all.take(
                    n as int,
                ).contains(p) && first_of(views, keep@, p),
            forall|m: int|
                0 <= m < n ==> result@[#[trigger] all[m]] == first_of(views, keep@, all[m]),
        decreases places@.len() - n,
    {
        let row: usize = places[n];
        assert(all[n as int] == row);
        let first = if n == 0 {
            true
        } else {
            let other: usize = places[n - 1];
            assert(all[n - 1] == other);
            assert(views[row as int] == keys@[row as int]@);
            assert(views[other as int] == keys@[other as int]@);
            comes_before(&keys[other], &keys[row])
        };
        proof {
            lemma_first_in_listing(views, keep@, all, n as int);
        }
        let ghost before = result@;
        result.set(row, first);
        proof {
            assert(all.take(n + 1) =~= all.take(n as int).push(all[n as int]));
            assert forall|p: int| 0 <= p < result@.len() && #[trigger] result@[p] implies keep@[p]
                && all.take(n + 1).contains(p) && first_of(views, keep@, p) by {
                if p == row {
                    assert(all.take(n + 1)[n as int] == p);
                } else {
                    assert(before[p]);
                    let m = choose|m: int|
                        0 <= m < all.take(n as int).len() && all.take(n as int)[m] == p;
                    assert(all.take(n + 1)[m] == p);
                }
            }
            assert forall|m: int| 0 <= m < n + 1 implies result@[#[trigger] all[m]] == first_of(
                views,
                keep@,
                all[m],
            ) by {
                if m < n {
                    assert(shown_before(views, all[m], all[n as int]));
                    lemma_key_total(views[all[m]], views[all[n as int]]);
                    assert(all[m] != row);
                }
            }
        }
        n += 1;
    }
    proof {
        assert forall|p: int| 0 <= p < keys@.len() implies #[trigger] result@[p] == first_of(
            views,
            keep@,
            p,
        ) by {
            if keep@[p] {
                assert(all.contains(p));
                let m = choose|m: int| 0 <= m < all.len() && all[m] == p;
                assert(result@[all[m]] == first_of(views, keep@, all[m]));
            }
        }
    }
    result
}

proof fn lemma_first_in_listing(keys: Seq<KeyView>, keep: Seq<bool>, places: Seq<int>, n: int)
    requires
        is_listing(keys, keep, places),
        0 <= n < places.len(),
    ensures
        first_of(keys, keep, places[n]) == (n == 0 || key_before(
            keys[places[n - 1]],
            keys[places[n]],
        )),
{
    let row = places[n];
    assert(keep[row]);
    if n > 0 && !key_before(keys[places[n - 1]], keys[row]) {
        assert(shown_before(keys, places[n - 1], places[n]));
        assert(keep[places[n - 1]]);
    } else {
        assert forall|q: int| 0 <= q < row && #[trigger] keep[q] implies keys[q] != keys[row] by {
            assert(places.contains(q));
            let m = choose|m: int| 0 <= m < places.len() && places[m] == q;
            if keys[q] == keys[row] {
                lemma_key_total(keys[row], keys[q]);
                if m > n {
                    assert(shown_before(keys, places[n], places[m]));
                } else if m < n - 1 {
                    assert(shown_before(keys, places[m], places[n - 1]));
                    lemma_key_total(keys[places[n - 1]], keys[row]);
                }
            }
        }
    }
}

/// The listed row with this key, where there is one.
pub fn find_row(keys: &Vec<Key>, places: &Vec<usize>, sought: &Key) -> (result: Option<usize>)
    requires
        forall|i: int| 0 <= i < places@.len() ==> (#[trigger] places@[i]) < keys@.len(),
        forall|i: int, j: int|
            0 <= i < j < places@.len() ==> shown_before(
                text::views(keys@),
                #[trigger] positions(places@)[i],
                #[trigger] positions(places@)[j],
            ),
    ensures
        match result {
            Some(row) => row < keys@.len() && keys@[row as int]@ == sought@ && places@.contains(
                row,
            ),
            None => forall|i: int|
                0 <= i < places@.len() ==> keys@[(#[trigger] places@[i]) as int]@ != sought@,
        },
{
    let ghost views = text::views(keys@);
    let ghost all = positions(places@);
    let mut low: usize = 0;
    let mut high: usize = places.len();
    while low < high
        invariant
            views == text::views(keys@),
            all == positions(places@),
            low <= high <= places@.len(),
            forall|i: int| 0 <= i < places@.len() ==> (#[trigger] places@[i]) < keys@.len(),
            forall|i: int, j: int|
                0 <= i < j < places@.len() ==> shown_before(
                    views,
                    #[trigger] all[i],
                    #[trigger] all[j],
                ),
            forall|i: int| 0 <= i < low ==> key_before(views[#[trigger] all[i]], sought@),
            forall|i: int|
                high <= i < places@.len() ==> key_before(sought@, views[#[trigger] all[i]]),
        decreases high - low,
    {
        let middle: usize = low + (high - low) / 2;
        let row: usize = places[middle];
        proof {
            assert(all[middle as int] == row);
            assert(views[row as int] == keys@[row as int]@);
            lemma_key_total(views[row as int], sought@);
        }
        if comes_before(&keys[row], sought) {
            proof {
                assert forall|i: int| 0 <= i < middle + 1 implies key_before(
                    views[#[trigger] all[i]],
                    sought@,
                ) by {
                    if i < middle {
                        assert(shown_before(views, all[i], all[middle as int]));
                        if key_before(views[all[i]], views[row as int]) {
                            lemma_key_transitive(views[all[i]], views[row as int], sought@);
                        }
                    }
                }
            }
            low = middle + 1;
        } else if comes_before(sought, &keys[row]) {
            proof {
                assert forall|i: int| middle <= i < places@.len() implies key_before(
                    sought@,
                    views[#[trigger] all[i]],
                ) by {
                    if i > middle {
                        assert(shown_before(views, all[middle as int], all[i]));
                        if key_before(views[row as int], views[all[i]]) {
                            lemma_key_transitive(sought@, views[row as int], views[all[i]]);
                        }
                    }
                }
            }
            high = middle;
        } else {
            assert(places@[middle as int] == row);
            return Some(row);
        }
    }
    proof {
        assert forall|i: int| 0 <= i < places@.len() implies keys@[(
        #[trigger] places@[i]) as int]@ != sought@ by {
            assert(all[i] == places@[i]);
            assert(views[all[i]] == keys@[places@[i] as int]@);
            lemma_key_total(views[all[i]], sought@);
            lemma_key_total(sought@, views[all[i]]);
        }
    }
    None
}

/// The order of texts is that of a dictionary: one comes before another exactly where they agree up
/// to some place, and there the first has ended or has the lesser character.
pub proof fn lemma_dictionary_order(a: Seq<char>, b: Seq<char>)
    ensures
        precedes(a, b) <==> exists|k: int|
            0 <= k <= a.len() && k < b.len() && a.take(k) == #[trigger] b.take(k) && (k == a.len()
                || a[k] < b[k]),
    decreases b.len(),
{
    if precedes(a, b) {
        if a.len() == 0 {
            assert(a.take(0) =~= b.take(0));
        } else if a[0] == b[0] {
            let (x, y) = (a.skip(1), b.skip(1));
            lemma_dictionary_order(x, y);
            let k = choose|k: int|
                0 <= k <= x.len() && k < y.len() && x.take(k) == #[trigger] y.take(k) && (k
                    == x.len() || x[k] < y[k]);
            assert(a.take(k + 1) =~= seq![a[0]] + x.take(k));
            assert(b.take(k + 1) =~= seq![b[0]] + y.take(k));
            assert(a.take(k + 1) == b.take(k + 1));
        } else {
            assert(a.take(0) =~= b.take(0));
        }
    }
    if exists|k: int|
        0 <= k <= a.len() && k < b.len() && a.take(k) == #[trigger] b.take(k) && (k == a.len()
            || a[k] < b[k]) {
        let k = choose|k: int|
            0 <= k <= a.len() && k < b.len() && a.take(k) == #[trigger] b.take(k) && (k == a.len()
                || a[k] < b[k]);
        if k > 0 {
            assert(a[0] == a.take(k)[0] && b[0] == b.take(k)[0]);
            let (x, y) = (a.skip(1), b.skip(1));
            lemma_dictionary_order(x, y);
            assert(x.take(k - 1) =~= a.take(k).skip(1));
            assert(y.take(k - 1) =~= b.take(k).skip(1));
            assert(x.take(k - 1) == y.take(k - 1));
        }
    }
}

/// Texts that differ only in the case of their ASCII letters have the same place in the order; a
/// text without a NUL is ordered by its characters in lowercase.
pub proof fn lemma_order_ignores_case(s: Seq<char>)
    requires
        !s.contains('\0'),
    ensures
        folded_text(s) == text::ascii_lower_text(s),
{
    text::lemma_nul_place_after(s, Seq::empty());
    assert(s + Seq::<char>::empty() =~= s);
    assert(text::until_nul(Seq::<char>::empty()) =~= Seq::<char>::empty());
    assert(text::until_nul(s) =~= s);
    assert(s.skip(text::nul_place(s)) =~= Seq::<char>::empty());
    assert(folded_text(s) =~= text::ascii_lower_text(s));
}

/// A listing goes by the first text and, where those are equal, by the second: what stands earlier
/// never comes after what stands later.
pub proof fn lemma_listed_by_both(
    firsts: Seq<Seq<char>>,
    seconds: Seq<Seq<char>>,
    keys: Seq<KeyView>,
    keep: Seq<bool>,
    places: Seq<int>,
    i: int,
    j: int,
)
    requires
        firsts.len() == keys.len(),
        seconds.len() == keys.len(),
        forall|k: int| 0 <= k < keys.len() ==> #[trigger] keys[k] == folded(firsts[k], seconds[k]),
        is_listing(keys, keep, places),
        0 <= i < j < places.len(),
    ensures
        !precedes(folded_text(firsts[places[j]]), folded_text(firsts[places[i]])),
        folded_text(firsts[places[j]]) == folded_text(firsts[places[i]]) ==> !precedes(
            folded_text(seconds[places[j]]),
            folded_text(seconds[places[i]]),
        ),
{
    let (a, b) = (places[i], places[j]);
    assert(shown_before(keys, a, b));
    assert(keys[a] == folded(firsts[a], seconds[a]));
    assert(keys[b] == folded(firsts[b], seconds[b]));
    lemma_key_total(keys[a], keys[b]);
    if precedes(keys[b].first, keys[a].first) {
        assert(key_before(keys[b], keys[a]));
    }
}

/// A page is the stretch of a list that begins after what is left out and has as many rows as are
/// wanted, or as there are.
pub proof fn lemma_page<T>(list: Seq<T>, limit: nat, offset: nat)
    ensures
        page(list, limit, offset).len() == if offset >= list.len() {
            0
        } else if offset + limit <= list.len() {
            limit
        } else {
            (list.len() - offset) as nat
        },
        forall|k: int|
            0 <= k < page(list, limit, offset).len() ==> #[trigger] page(list, limit, offset)[k]
                == list[offset + k],
{
}

} // verus!
