use vstd::prelude::*;

verus! {

/// `k` is the greatest level present in `m`.
pub open spec fn is_top<W>(m: Map<int, W>, k: int) -> bool {
    m.contains_key(k) && forall|j: int| m.contains_key(j) ==> j <= k
}

/// `k` is the least level present in `m`.
pub open spec fn is_base<W>(m: Map<int, W>, k: int) -> bool {
    m.contains_key(k) && forall|j: int| m.contains_key(j) ==> k <= j
}

/// The greatest level present in `m`, if it has one.
pub open spec fn top_of<W>(m: Map<int, W>) -> Option<int> {
    if exists|k: int| is_top(m, k) {
        Some(choose|k: int| is_top(m, k))
    } else {
        None
    }
}

/// The least level present in `m`, if it has one.
pub open spec fn base_of<W>(m: Map<int, W>) -> Option<int> {
    if exists|k: int| is_base(m, k) {
        Some(choose|k: int| is_base(m, k))
    } else {
        None
    }
}

/// The levels `k` with `k <= level`.
pub open spec fn at_most(level: int) -> Set<int> {
    Set::new(|k: int| k <= level)
}

/// The levels `k` with `k >= level`.
pub open spec fn at_least(level: int) -> Set<int> {
    Set::new(|k: int| k >= level)
}

/// The levels present in `m` that lie strictly above `level`.
pub open spec fn levels_above<W>(m: Map<int, W>, level: int) -> Set<int> {
    m.dom().filter(|k: int| k > level)
}

/// The levels present in `m` that lie strictly below `level`.
pub open spec fn levels_below<W>(m: Map<int, W>, level: int) -> Set<int> {
    m.dom().filter(|k: int| k < level)
}

/// `m` without its rows strictly above `level`.
pub open spec fn without_above<W>(m: Map<int, W>, level: int) -> Map<int, W> {
    m.restrict(at_most(level))
}

/// `m` without its rows strictly below `level`.
pub open spec fn without_below<W>(m: Map<int, W>, level: int) -> Map<int, W> {
    m.restrict(at_least(level))
}

/// The rows of `m` strictly above `level`.
pub open spec fn only_above<W>(m: Map<int, W>, level: int) -> Map<int, W> {
    m.restrict(Set::new(|k: int| k > level))
}

/// `keys` lists, in ascending order, the levels of `m` between `lo` and `hi`, both included.
pub open spec fn lists_range<W>(m: Map<int, W>, lo: int, hi: int, keys: Seq<int>) -> bool {
    &&& forall|i: int, j: int| 0 <= i < j < keys.len() ==> keys[i] < keys[j]
    &&& forall|k: int| keys.contains(k) <==> m.contains_key(k) && lo <= k <= hi
}

/// A greatest level is the only one.
pub proof fn lemma_top_unique<W>(m: Map<int, W>, k: int)
    requires
        is_top(m, k),
    ensures
        top_of(m) == Some(k),
{
    let c = choose|c: int| is_top(m, c);
    assert(c <= k && k <= c);
}

/// A least level is the only one.
pub proof fn lemma_base_unique<W>(m: Map<int, W>, k: int)
    requires
        is_base(m, k),
    ensures
        base_of(m) == Some(k),
{
    let c = choose|c: int| is_base(m, c);
    assert(c <= k && k <= c);
}

/// A table without rows has neither a greatest nor a least level.
pub proof fn lemma_empty_has_no_bounds<W>(m: Map<int, W>)
    requires
        forall|k: int| !m.contains_key(k),
    ensures
        top_of(m) is None,
        base_of(m) is None,
{
}

} // verus!
