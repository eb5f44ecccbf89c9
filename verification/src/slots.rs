//! Vectors indexed by round that grow on demand.
//!
//! A slot that was never written reads as the default of its kind. Writing to
//! a round beyond the end first fills the vector up to that round with
//! defaults; nothing is ever taken away.

use crate::message::signs_view;
use vstd::prelude::*;

verus! {

/// What is read at round `r`: the slot, or `d` where the vector ends before it.
pub open spec fn slot<T>(s: Seq<T>, r: int, d: T) -> T {
    if 0 <= r < s.len() {
        s[r]
    } else {
        d
    }
}

/// The vector filled up with `d` so that it reaches round `r`.
pub open spec fn grown<T>(s: Seq<T>, r: int, d: T) -> Seq<T> {
    if r < s.len() {
        s
    } else {
        s + Seq::new((r + 1 - s.len()) as nat, |i: int| d)
    }
}

/// The vector filled up to round `r` and then holding `v` there.
pub open spec fn with_slot<T>(s: Seq<T>, r: int, d: T, v: T) -> Seq<T> {
    grown(s, r, d).update(r, v)
}

/// One more than `x`, but for the largest number, which stays.
pub open spec fn saturating_succ(x: u32) -> u32 {
    if x < u32::MAX {
        (x + 1) as u32
    } else {
        x
    }
}

/// The counters filled up to round `r` and the one of that round raised by one.
pub open spec fn bumped(s: Seq<u32>, r: int) -> Seq<u32> {
    grown(s, r, 0u32).update(r, saturating_succ(grown(s, r, 0u32)[r]))
}

/// Filling up keeps what was there, adds only defaults and never shortens.
pub proof fn lemma_grown<T>(s: Seq<T>, r: int, d: T)
    requires
        0 <= r,
    ensures
        grown(s, r, d).len() >= s.len(),
        grown(s, r, d).len() > r,
        forall|i: int| 0 <= i < s.len() ==> grown(s, r, d)[i] == s[i],
        forall|i: int| #![auto] 0 <= i ==> slot(grown(s, r, d), i, d) == slot(s, i, d),
{
}

/// An optional byte string as a mathematical value.
pub open spec fn opt_view(o: Option<Vec<u8>>) -> Option<Seq<u8>> {
    match o {
        Some(b) => Some(b@),
        None => None,
    }
}

/// A row of optional byte strings as a mathematical value.
pub open spec fn row_view(row: Seq<Option<Vec<u8>>>) -> Seq<Option<Seq<u8>>> {
    Seq::new(row.len(), |i: int| opt_view(row[i]))
}

/// One row of optional byte strings for each node, as a mathematical value.
pub open spec fn store_view(rows: Seq<Vec<Option<Vec<u8>>>>) -> Seq<Seq<Option<Seq<u8>>>> {
    Seq::new(rows.len(), |i: int| row_view(rows[i]@))
}

/// One row of plain values for each node, as a mathematical value.
pub open spec fn table_view<T>(rows: Seq<Vec<T>>) -> Seq<Seq<T>> {
    Seq::new(rows.len(), |i: int| rows[i]@)
}

/// One signature list for each round, as a mathematical value.
pub open spec fn rounds_view(rounds: Seq<Vec<(u32, Vec<u8>)>>) -> Seq<Seq<(u32, Seq<u8>)>> {
    Seq::new(rounds.len(), |i: int| signs_view(rounds[i]@))
}

/// Fills a vector of flags up to round `rn`.
pub fn grow_flags(v: &mut Vec<bool>, rn: usize)
    ensures
        final(v)@ == grown(old(v)@, rn as int, false),
{
    while v.len() <= rn
        invariant
            v@.len() >= old(v)@.len(),
            v@ =~= old(v)@ + Seq::new((v@.len() - old(v)@.len()) as nat, |i: int| false),
            old(v)@.len() > rn ==> v@ == old(v)@,
            old(v)@.len() <= rn ==> v@.len() <= rn + 1,
        decreases rn + 1 - v.len(),
    {
        v.push(false);
    }
    assert(v@ =~= grown(old(v)@, rn as int, false));
}

/// Fills a vector of counters up to round `rn`.
pub fn grow_counters(v: &mut Vec<u32>, rn: usize)
    ensures
        final(v)@ == grown(old(v)@, rn as int, 0u32),
{
    while v.len() <= rn
        invariant
            v@.len() >= old(v)@.len(),
            v@ =~= old(v)@ + Seq::new((v@.len() - old(v)@.len()) as nat, |i: int| 0u32),
            old(v)@.len() > rn ==> v@ == old(v)@,
            old(v)@.len() <= rn ==> v@.len() <= rn + 1,
        decreases rn + 1 - v.len(),
    {
        v.push(0);
    }
    assert(v@ =~= grown(old(v)@, rn as int, 0u32));
}

/// Fills a row of optional byte strings up to round `rn`.
pub fn grow_row(v: &mut Vec<Option<Vec<u8>>>, rn: usize)
    ensures
        row_view(final(v)@) == grown(row_view(old(v)@), rn as int, None),
        final(v)@.len() > rn,
        final(v)@.len() >= old(v)@.len(),
        forall|i: int| 0 <= i < old(v)@.len() ==> final(v)@[i] == old(v)@[i],
{
    while v.len() <= rn
        invariant
            v@.len() >= old(v)@.len(),
            forall|i: int| 0 <= i < old(v)@.len() ==> v@[i] == old(v)@[i],
            forall|i: int| old(v)@.len() <= i < v@.len() ==> v@[i] is None,
            old(v)@.len() > rn ==> v@.len() == old(v)@.len(),
            old(v)@.len() <= rn ==> v@.len() <= rn + 1,
        decreases rn + 1 - v.len(),
    {
        v.push(None);
    }
    assert(row_view(v@) =~= grown(row_view(old(v)@), rn as int, None));
}

/// Fills a vector of signature lists up to round `rn`.
pub fn grow_rounds(v: &mut Vec<Vec<(u32, Vec<u8>)>>, rn: usize)
    ensures
        rounds_view(final(v)@) == grown(rounds_view(old(v)@), rn as int, Seq::empty()),
        final(v)@.len() > rn,
        final(v)@.len() >= old(v)@.len(),
        forall|i: int| 0 <= i < old(v)@.len() ==> final(v)@[i] == old(v)@[i],
{
    while v.len() <= rn
        invariant
            v@.len() >= old(v)@.len(),
            forall|i: int| 0 <= i < old(v)@.len() ==> v@[i] == old(v)@[i],
            forall|i: int| old(v)@.len() <= i < v@.len() ==> (#[trigger] v@[i])@.len() == 0,
            old(v)@.len() > rn ==> v@.len() == old(v)@.len(),
            old(v)@.len() <= rn ==> v@.len() <= rn + 1,
        decreases rn + 1 - v.len(),
    {
        v.push(Vec::new());
    }
    assert forall|i: int| 0 <= i < v@.len() implies rounds_view(v@)[i] == grown(
        rounds_view(old(v)@),
        rn as int,
        Seq::empty(),
    )[i] by {
        if i >= old(v)@.len() {
            assert(v@[i]@.len() == 0);
            assert(signs_view(v@[i]@) =~= Seq::empty());
        }
    }
    assert(rounds_view(v@) =~= grown(rounds_view(old(v)@), rn as int, Seq::empty()));
}

} // verus!

verus! {

/// Reads the flag of node `s` and round `r`.
pub fn read_flag(table: &Vec<Vec<bool>>, s: usize, r: usize) -> (b: bool)
    requires
        s < table@.len(),
    ensures
        b == slot(table_view(table@)[s as int], r as int, false),
{
    if r < table[s].len() {
        table[s][r]
    } else {
        false
    }
}

/// Reads the counter of node `s` and round `r`.
pub fn read_counter(table: &Vec<Vec<u32>>, s: usize, r: usize) -> (c: u32)
    requires
        s < table@.len(),
    ensures
        c == slot(table_view(table@)[s as int], r as int, 0u32),
{
    if r < table[s].len() {
        table[s][r]
    } else {
        0
    }
}

/// Reads the byte string of node `s` and round `r`, if it is known.
pub fn read_slot(table: &Vec<Vec<Option<Vec<u8>>>>, s: usize, r: usize) -> (o: Option<&Vec<u8>>)
    requires
        s < table@.len(),
    ensures
        match o {
            Some(b) => slot(store_view(table@)[s as int], r as int, None) == Some(b@),
            None => slot(store_view(table@)[s as int], r as int, None) is None,
        },
{
    if r < table[s].len() {
        table[s][r].as_ref()
    } else {
        None
    }
}

/// Fills the flags of node `s` up to round `r`.
pub fn grow_flag_row(table: &mut Vec<Vec<bool>>, s: usize, r: usize)
    requires
        s < old(table)@.len(),
    ensures
        final(table)@.len() == old(table)@.len(),
        table_view(final(table)@) == table_view(old(table)@).update(
            s as int,
            grown(table_view(old(table)@)[s as int], r as int, false),
        ),
{
    let row = &mut table[s];
    grow_flags(row, r);
    assert(table_view(table@) =~= table_view(old(table)@).update(
        s as int,
        grown(table_view(old(table)@)[s as int], r as int, false),
    ));
}

/// Fills the flags of node `s` up to round `r` and sets the flag of that
/// round. Gives back what the flag was.
pub fn raise_flag(table: &mut Vec<Vec<bool>>, s: usize, r: usize) -> (was: bool)
    requires
        s < old(table)@.len(),
    ensures
        final(table)@.len() == old(table)@.len(),
        was == slot(table_view(old(table)@)[s as int], r as int, false),
        table_view(final(table)@) == table_view(old(table)@).update(
            s as int,
            with_slot(table_view(old(table)@)[s as int], r as int, false, true),
        ),
        was ==> table_view(final(table)@) == table_view(old(table)@),
{
    let row = &mut table[s];
    grow_flags(row, r);
    let was = row[r];
    row[r] = true;
    assert(table_view(table@) =~= table_view(old(table)@).update(
        s as int,
        with_slot(table_view(old(table)@)[s as int], r as int, false, true),
    ));
    if was {
        assert(table@[s as int]@ =~= old(table)@[s as int]@);
        assert(table_view(table@) =~= table_view(old(table)@));
    }
    was
}

/// Fills the counters of node `s` up to round `r` and raises the counter of
/// that round by one. Gives back the counter as it is then.
pub fn bump_counter(table: &mut Vec<Vec<u32>>, s: usize, r: usize) -> (now: u32)
    requires
        s < old(table)@.len(),
    ensures
        final(table)@.len() == old(table)@.len(),
        now == bumped(table_view(old(table)@)[s as int], r as int)[r as int],
        table_view(final(table)@) == table_view(old(table)@).update(
            s as int,
            bumped(table_view(old(table)@)[s as int], r as int),
        ),
{
    let row = &mut table[s];
    grow_counters(row, r);
    let c = row[r];
    let now = if c < u32::MAX {
        c + 1
    } else {
        c
    };
    row[r] = now;
    assert(table_view(table@) =~= table_view(old(table)@).update(
        s as int,
        bumped(table_view(old(table)@)[s as int], r as int),
    ));
    now
}

/// Fills the row of node `s` up to round `r` and stores `value` there.
pub fn store_slot(table: &mut Vec<Vec<Option<Vec<u8>>>>, s: usize, r: usize, value: Vec<u8>)
    requires
        s < old(table)@.len(),
    ensures
        final(table)@.len() == old(table)@.len(),
        store_view(final(table)@) == store_view(old(table)@).update(
            s as int,
            with_slot(store_view(old(table)@)[s as int], r as int, None, Some(value@)),
        ),
{
    let row = &mut table[s];
    grow_row(row, r);
    row[r] = Some(value);
    assert(row_view(row@) =~= with_slot(
        store_view(old(table)@)[s as int],
        r as int,
        None,
        Some(value@),
    ));
    assert(store_view(table@) =~= store_view(old(table)@).update(
        s as int,
        with_slot(store_view(old(table)@)[s as int], r as int, None, Some(value@)),
    ));
}

} // verus!
