use vstd::prelude::*;
use crate::rows::{lemma_filter_none, lemma_filter_step};

verus! {

/// A row that belongs to a level and can be copied.
pub trait Leveled: View + Sized {
    /// The level to which a row belongs.
    spec fn level_of(row: Self::V) -> int;

    /// The level to which this row belongs.
    fn level(&self) -> (level: i32)
        ensures
            level == Self::level_of(self@),
    ;

    /// A copy of this row.
    fn duplicate(&self) -> (copy: Self)
        ensures
            copy@ == self@,
    ;
}

/// What a list of rows holds, in its order.
pub open spec fn views<T: View>(items: Seq<T>) -> Seq<T::V> {
    Seq::new(items.len(), |i: int| items[i]@)
}

/// The test "belongs to a level from `lo` to `hi`, both included".
pub open spec fn level_between<T: Leveled>(lo: int, hi: int) -> spec_fn(T::V) -> bool {
    |row: T::V| lo <= T::level_of(row) <= hi
}

/// Two tests that agree on every item let the same items pass.
pub proof fn lemma_filter_agree<A>(s: Seq<A>, one: spec_fn(A) -> bool, other: spec_fn(A) -> bool)
    requires
        forall|i: int| 0 <= i < s.len() ==> one(#[trigger] s[i]) == other(s[i]),
    ensures
        s.filter(one) == s.filter(other),
    decreases s.len(),
{
    reveal(Seq::filter);
    if s.len() > 0 {
        let front = s.drop_last();
        assert forall|i: int| 0 <= i < front.len() implies one(#[trigger] front[i]) == other(
            front[i],
        ) by {
            assert(front[i] == s[i]);
        }
        lemma_filter_agree(front, one, other);
        assert(one(s[s.len() - 1]) == other(s[s.len() - 1]));
    }
}

/// An item passes exactly one of two tests that exclude each other, so the items that pass
/// the one and those that pass the other are all the items.
pub proof fn lemma_filter_split<A>(s: Seq<A>, keep: spec_fn(A) -> bool, drop: spec_fn(A) -> bool)
    requires
        forall|i: int| 0 <= i < s.len() ==> keep(#[trigger] s[i]) != drop(s[i]),
    ensures
        s.filter(keep).len() + s.filter(drop).len() == s.len(),
    decreases s.len(),
{
    reveal(Seq::filter);
    if s.len() > 0 {
        let front = s.drop_last();
        assert forall|i: int| 0 <= i < front.len() implies keep(#[trigger] front[i]) != drop(
            front[i],
        ) by {
            assert(front[i] == s[i]);
        }
        lemma_filter_split(front, keep, drop);
        assert(keep(s[s.len() - 1]) != drop(s[s.len() - 1]));
    }
}

/// The first item that passes a test is the first of those that pass it.
pub proof fn lemma_filter_first<A>(s: Seq<A>, test: spec_fn(A) -> bool, i: int)
    requires
        0 <= i < s.len(),
        test(s[i]),
        forall|j: int| 0 <= j < i ==> !test(#[trigger] s[j]),
    ensures
        s.filter(test).len() > 0,
        s.filter(test)[0] == s[i],
    decreases s.len(),
{
    reveal(Seq::filter);
    let front = s.drop_last();
    if i == s.len() - 1 {
        assert forall|j: int| 0 <= j < front.len() implies !test(#[trigger] front[j]) by {
            assert(front[j] == s[j]);
        }
        crate::rows::lemma_filter_nothing(front, test);
    } else {
        assert(front[i] == s[i]);
        assert forall|j: int| 0 <= j < i implies !test(#[trigger] front[j]) by {
            assert(front[j] == s[j]);
        }
        lemma_filter_first(front, test, i);
    }
}

/// Keeps the rows of the levels from `lo` to `hi`, both included, in their order, and removes
/// the others. Returns how many it removed.
pub fn retain_between<T: Leveled>(rows: &mut Vec<T>, lo: i32, hi: i32) -> (removed: usize)
    ensures
        views(final(rows)@) == views(old(rows)@).filter(level_between::<T>(lo as int, hi as int)),
        removed == old(rows)@.len() - final(rows)@.len(),
{
    let ghost test = level_between::<T>(lo as int, hi as int);
    let ghost all = views(rows@);
    let mut kept: Vec<T> = Vec::new();
    let mut removed: usize = 0;
    let mut i: usize = 0;
    proof {
        lemma_filter_none(all, test);
        assert(views(kept@) =~= all.take(0).filter(test));
    }
    while i < rows.len()
        invariant
            i <= rows@.len(),
            rows@ == old(rows)@,
            all == views(rows@),
            views(kept@) == all.take(i as int).filter(test),
            removed + kept@.len() == i,
            test == level_between::<T>(lo as int, hi as int),
        decreases rows.len() - i,
    {
        proof {
            lemma_filter_step(all, test, i as int);
            assert(all[i as int] == rows@[i as int]@);
        }
        let level: i32 = rows[i].level();
        if lo <= level && level <= hi {
            let ghost prev = kept@;
            let copy = rows[i].duplicate();
            kept.push(copy);
            assert(views(kept@) =~= views(prev).push(all[i as int]));
        } else {
            removed += 1;
        }
        i += 1;
    }
    proof {
        lemma_filter_none(all, test);
    }
    *rows = kept;
    removed
}

} // verus!
