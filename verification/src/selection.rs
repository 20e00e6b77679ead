//! Marking rows of a list.

use vstd::prelude::*;

verus! {

/// Marked rows, by their positions.
pub struct Selection {
    marks: Vec<usize>,
}

impl View for Selection {
    type V = Set<int>;

    closed spec fn view(&self) -> Set<int> {
        Set::new(|i: int| exists|k: int| 0 <= k < self.marks@.len() && #[trigger] self.marks@[k] == i)
    }
}

impl Selection {
    /// No row is marked.
    pub fn new() -> (result: Self)
        ensures
            result@ == Set::<int>::empty(),
    {
        let selection = Selection { marks: Vec::new() };
        assert(selection@ =~= Set::<int>::empty());
        selection
    }

    /// The first `count` rows are marked.
    pub fn all(count: usize) -> (result: Self)
        ensures
            result@ == rows_below(count as int),
    {
        let mut marks: Vec<usize> = Vec::new();
        let mut i: usize = 0;
        while i < count
            invariant
                i <= count,
                marks@.len() == i,
                forall|k: int| 0 <= k < i ==> #[trigger] marks@[k] == k,
            decreases count - i,
        {
            marks.push(i);
            i += 1;
        }
        let selection = Selection { marks };
        assert forall|r: int| selection@.contains(r) == rows_below(count as int).contains(r) by {
            if 0 <= r < count {
                assert(selection.marks@[r] == r);
            }
        }
        assert(selection@ =~= rows_below(count as int));
        selection
    }

    /// Whether a row is marked.
    pub fn contains(&self, row: usize) -> (result: bool)
        ensures
            result == self@.contains(row as int),
    {
        let mut i: usize = 0;
        while i < self.marks.len()
            invariant
                i <= self.marks@.len(),
                forall|k: int| 0 <= k < i ==> #[trigger] self.marks@[k] != row,
            decreases self.marks@.len() - i,
        {
            if self.marks[i] == row {
                return true;
            }
            i += 1;
        }
        false
    }

    /// Whether no row is marked.
    pub fn is_empty(&self) -> (result: bool)
        ensures
            result == (self@ == Set::<int>::empty()),
    {
        let empty = self.marks.len() == 0;
        proof {
            if empty {
                assert(self@ =~= Set::<int>::empty());
            } else {
                assert(self@.contains(self.marks@[0] as int));
            }
        }
        empty
    }

    /// Marks a row, or takes its mark away.
    pub fn toggle(&mut self, row: usize)
        ensures
            final(self)@ == toggled(old(self)@, row as int),
    {
        let ghost before = self.marks@;
        let mut kept: Vec<usize> = Vec::new();
        let mut found = false;
        let mut i: usize = 0;
        while i < self.marks.len()
            invariant
                *self == *old(self),
                before == self.marks@,
                i <= before.len(),
                found == exists|k: int| 0 <= k < i && #[trigger] before[k] == row,
                forall|m: int| 0 <= m < kept@.len() ==> (#[trigger] kept@[m]) != row,
                forall|m: int|
                    0 <= m < kept@.len() ==> self@.contains((#[trigger] kept@[m]) as int),
                forall|k: int|
                    0 <= k < i && #[trigger] before[k] != row ==> kept@.contains(before[k]),
            decreases before.len() - i,
        {
            let ghost earlier = kept@;
            let mark: usize = self.marks[i];
            if mark == row {
                found = true;
            } else {
                kept.push(mark);
                assert(kept@[earlier.len() as int] == mark);
                assert forall|k: int| 0 <= k < i + 1 && #[trigger] before[k] != row implies kept@.contains(
                    before[k],
                ) by {
                    if k < i {
                        let m = choose|m: int| 0 <= m < earlier.len() && earlier[m] == before[k];
                        assert(kept@[m] == before[k]);
                    }
                }
            }
            i += 1;
        }
        if !found {
            let ghost earlier = kept@;
            kept.push(row);
            assert(kept@[earlier.len() as int] == row);
            assert forall|k: int| 0 <= k < before.len() implies kept@.contains(#[trigger] before[k]) by {
                let m = choose|m: int| 0 <= m < earlier.len() && earlier[m] == before[k];
                assert(kept@[m] == before[k]);
            }
        }
        self.marks = kept;
        proof {
            let target = toggled(old(self)@, row as int);
            assert forall|r: int| self@.contains(r) == target.contains(r) by {
                if self@.contains(r) {
                    let m = choose|m: int| 0 <= m < kept@.len() && #[trigger] kept@[m] == r;
                    assert(kept@[m] == r);
                }
                if target.contains(r) {
                    if r == row {
                        assert(kept@.last() == row);
                    } else {
                        let k = choose|k: int| 0 <= k < before.len() && #[trigger] before[k] == r;
                        assert(kept@.contains(before[k]));
                        let m = choose|m: int| 0 <= m < kept@.len() && kept@[m] == before[k];
                        assert(self.marks@[m] == r);
                    }
                }
            }
            assert(self@ =~= target);
        }
    }
}

/// The rows below a bound.
pub open spec fn rows_below(count: int) -> Set<int> {
    Set::new(|i: int| 0 <= i < count)
}

/// A set of rows with the mark of one of them changed.
pub open spec fn toggled(rows: Set<int>, row: int) -> Set<int> {
    if rows.contains(row) {
        rows.remove(row)
    } else {
        rows.insert(row)
    }
}

/// Marking a row twice changes nothing.
pub proof fn lemma_toggle_twice(rows: Set<int>, row: int)
    ensures
        toggled(toggled(rows, row), row) == rows,
{
    assert(toggled(toggled(rows, row), row) =~= rows);
}

/// Toggling changes the mark of its row and of no other; all rows are those below the count.
pub proof fn lemma_one_mark_changed(rows: Set<int>, row: int, other: int, count: int)
    ensures
        toggled(rows, row).contains(row) <==> !rows.contains(row),
        other != row ==> (toggled(rows, row).contains(other) <==> rows.contains(other)),
        rows_below(count).contains(other) <==> 0 <= other < count,
{
}

} // verus!
