use vstd::prelude::*;
use crate::block::{BlockRow, has_hash, hash_injective, lemma_level_of_hash, level_of_hash};
use crate::blueprint::BlueprintRow;
use crate::ledger::{LevelView, is_taken, rolled_back, with_level};
use crate::model::{
    base_of, is_base, is_top, lemma_base_unique, lemma_empty_has_no_bounds, lemma_top_unique,
    levels_above, levels_below, top_of, without_above, without_below,
};
use crate::rows::{keys_where, lemma_filter_all, lemma_filter_members, lemma_filter_nothing};
use crate::store::StoreView;
use crate::series::lemma_filter_split;
use crate::transaction::{
    TransactionRow, above, below, distinct_hashes, lemma_filter_distinct, not_above, not_below,
};
use crate::upgrade::{
    UpgradeRow, is_applied_above, is_applied_at, is_unapplied, with_apply_nullified,
    with_apply_recorded,
};

verus! {

/// A transaction of the store belongs to a level that has a block.
pub open spec fn transactions_have_blocks(s: StoreView) -> bool {
    forall|i: int|
        0 <= i < s.transactions.len() ==> s.blocks.contains_key(
            (#[trigger] s.transactions[i]).block_number,
        )
}

/// Nothing in the store lies above `level`: no blueprint, block, transaction or context hash,
/// no upgrade injected above it and none applied above it.
pub open spec fn nothing_above(s: StoreView, level: int) -> bool {
    &&& forall|k: int| s.blueprints.contains_key(k) ==> k <= level
    &&& forall|k: int| s.blocks.contains_key(k) ==> k <= level
    &&& forall|k: int| s.context_hashes.contains_key(k) ==> k <= level
    &&& forall|i: int|
        0 <= i < s.transactions.len() ==> (#[trigger] s.transactions[i]).block_number <= level
    &&& forall|k: int| s.kernel_upgrades.contains_key(k) ==> k <= level
    &&& forall|k: int|
        s.kernel_upgrades.contains_key(k) ==> !is_applied_above(level)(
            #[trigger] s.kernel_upgrades[k],
        )
    &&& forall|k: int| s.sequencer_upgrades.contains_key(k) ==> k <= level
    &&& forall|k: int|
        s.sequencer_upgrades.contains_key(k) ==> !is_applied_above(level)(
            #[trigger] s.sequencer_upgrades[k],
        )
}

/// A blueprint written at a level is read back as it was written. It stays so when the chain
/// is taken back to that level or to one above it; taken back below that level, the store has
/// no blueprint there any more.
pub proof fn law_blueprint_kept_until_rolled_back(
    s: StoreView,
    level: int,
    row: BlueprintRow,
    target: int,
)
    ensures
        ({
            let written = StoreView { blueprints: s.blueprints.insert(level, row), ..s };
            &&& written.blueprints.contains_key(level) && written.blueprints[level] == row
            &&& target >= level ==> rolled_back(written, target).blueprints.contains_key(level)
                && rolled_back(written, target).blueprints[level] == row
            &&& target < level ==> !rolled_back(written, target).blueprints.contains_key(level)
        }),
{
}

/// Clearing after `target` keeps exactly the rows at `target` or below, as they were, and the
/// rows that it removes are exactly those above `target`: kept and removed rows together are
/// all the rows.
pub proof fn law_clear_after_removes_exactly<W>(m: Map<int, W>, target: int)
    requires
        m.dom().finite(),
    ensures
        forall|k: int|
            without_above(m, target).contains_key(k) <==> m.contains_key(k) && k <= target,
        forall|k: int| without_above(m, target).contains_key(k) ==> without_above(m, target)[k] == m[k],
        forall|k: int| levels_above(m, target).contains(k) <==> m.contains_key(k) && k > target,
        without_above(m, target).dom().len() + levels_above(m, target).len() == m.dom().len(),
{
    let kept = without_above(m, target).dom();
    let gone = levels_above(m, target);
    vstd::set_lib::lemma_set_subset_finite(m.dom(), kept);
    vstd::set_lib::lemma_set_subset_finite(m.dom(), gone);
    assert(kept.disjoint(gone));
    assert(kept + gone =~= m.dom());
    vstd::set_lib::lemma_set_disjoint_lens(kept, gone);
}

/// Clearing before `target` keeps exactly the rows at `target` or above, as they were, and
/// the rows that it removes are exactly those below `target`.
pub proof fn law_clear_before_removes_exactly<W>(m: Map<int, W>, target: int)
    requires
        m.dom().finite(),
    ensures
        forall|k: int|
            without_below(m, target).contains_key(k) <==> m.contains_key(k) && k >= target,
        forall|k: int| without_below(m, target).contains_key(k) ==> without_below(m, target)[k] == m[k],
        forall|k: int| levels_below(m, target).contains(k) <==> m.contains_key(k) && k < target,
        without_below(m, target).dom().len() + levels_below(m, target).len() == m.dom().len(),
{
    let kept = without_below(m, target).dom();
    let gone = levels_below(m, target);
    vstd::set_lib::lemma_set_subset_finite(m.dom(), kept);
    vstd::set_lib::lemma_set_subset_finite(m.dom(), gone);
    assert(kept.disjoint(gone));
    assert(kept + gone =~= m.dom());
    vstd::set_lib::lemma_set_disjoint_lens(kept, gone);
}

/// Clearing the transactions after `target` keeps the transactions of the blocks at `target`
/// or below, in their order, and the others are those that it counts as removed.
pub proof fn law_transactions_cleared_exactly(rows: Seq<TransactionRow>, target: int)
    ensures
        forall|i: int|
            0 <= i < rows.filter(not_above(target)).len() ==> (#[trigger] rows.filter(
                not_above(target),
            )[i]).block_number <= target && rows.contains(rows.filter(not_above(target))[i]),
        forall|i: int|
            0 <= i < rows.len() && (#[trigger] rows[i]).block_number <= target ==> rows.filter(
                not_above(target),
            ).contains(rows[i]),
        rows.filter(not_above(target)).len() + rows.filter(above(target)).len() == rows.len(),
        rows.filter(not_below(target)).len() + rows.filter(below(target)).len() == rows.len(),
{
    lemma_filter_members(rows, not_above(target));
    lemma_filter_split(rows, not_above(target), above(target));
    lemma_filter_split(rows, not_below(target), below(target));
    assert forall|i: int|
        0 <= i < rows.len() && (#[trigger] rows[i]).block_number <= target implies rows.filter(
        not_above(target),
    ).contains(rows[i]) by {
        rows.lemma_filter_contains(not_above(target), i);
    }
}

/// After clearing after `target`, the greatest level is `target` where `target` had a row; no
/// level is greatest where no row was at `target` or below; and in any case the greatest level
/// is the greatest of those that were at `target` or below.
pub proof fn law_top_after_clear_after<W>(m: Map<int, W>, target: int)
    ensures
        m.contains_key(target) ==> top_of(without_above(m, target)) == Some(target),
        (forall|k: int| m.contains_key(k) ==> k > target) ==> top_of(without_above(m, target))
            is None,
        forall|t: int|
            top_of(without_above(m, target)) == Some(t) ==> t <= target && m.contains_key(t)
                && forall|k: int| m.contains_key(k) && k <= target ==> k <= t,
{
    let rest = without_above(m, target);
    if m.contains_key(target) {
        lemma_top_unique(rest, target);
    }
    if forall|k: int| m.contains_key(k) ==> k > target {
        lemma_empty_has_no_bounds(rest);
    }
    assert forall|t: int| top_of(rest) == Some(t) implies t <= target && m.contains_key(t)
        && forall|k: int| m.contains_key(k) && k <= target ==> k <= t by {
        assert(is_top(rest, t));
        assert forall|k: int| m.contains_key(k) && k <= target implies k <= t by {
            assert(rest.contains_key(k));
        }
    }
}

/// After clearing before `target`, the least level is `target` where `target` had a row; no
/// level is least where no row was at `target` or above; and in any case the least level is
/// the least of those that were at `target` or above.
pub proof fn law_base_after_clear_before<W>(m: Map<int, W>, target: int)
    ensures
        m.contains_key(target) ==> base_of(without_below(m, target)) == Some(target),
        (forall|k: int| m.contains_key(k) ==> k < target) ==> base_of(without_below(m, target))
            is None,
        forall|t: int|
            base_of(without_below(m, target)) == Some(t) ==> t >= target && m.contains_key(t)
                && forall|k: int| m.contains_key(k) && k >= target ==> k >= t,
{
    let rest = without_below(m, target);
    if m.contains_key(target) {
        lemma_base_unique(rest, target);
    }
    if forall|k: int| m.contains_key(k) ==> k < target {
        lemma_empty_has_no_bounds(rest);
    }
    assert forall|t: int| base_of(rest) == Some(t) implies t >= target && m.contains_key(t)
        && forall|k: int| m.contains_key(k) && k >= target ==> k >= t by {
        assert(is_base(rest, t));
        assert forall|k: int| m.contains_key(k) && k >= target implies k >= t by {
            assert(rest.contains_key(k));
        }
    }
}

/// Hash and level of a block determine each other: the level found for the hash of the block
/// at a level is that level, and the block at the level found for a hash has that hash.
pub proof fn law_hash_and_level_determine_each_other(m: Map<int, BlockRow>, level: int, hash: Seq<u8>)
    requires
        hash_injective(m),
    ensures
        m.contains_key(level) ==> level_of_hash(m, m[level].hash) == Some(level),
        has_hash(m, hash) ==> match level_of_hash(m, hash) {
            Some(l) => m.contains_key(l) && m[l].hash == hash,
            None => false,
        },
        !has_hash(m, hash) ==> level_of_hash(m, hash) is None,
{
    if m.contains_key(level) {
        lemma_level_of_hash(m, level);
    }
}

/// Blocks keep their hashes to themselves: a block added at a free level under a hash that no
/// block has, and a clearing on either side, leave no hash shared by two levels.
pub proof fn law_hashes_stay_distinct(m: Map<int, BlockRow>, level: int, row: BlockRow, target: int)
    requires
        hash_injective(m),
    ensures
        !m.contains_key(level) && !has_hash(m, row.hash) ==> hash_injective(m.insert(level, row)),
        hash_injective(without_above(m, target)),
        hash_injective(without_below(m, target)),
{
    if !m.contains_key(level) && !has_hash(m, row.hash) {
        let next = m.insert(level, row);
        assert forall|a: int, b: int|
            next.contains_key(a) && next.contains_key(b) && (#[trigger] next[a]).hash == (
            #[trigger] next[b]).hash implies a == b by {
            if a != level && b != level {
                assert(m[a].hash == m[b].hash);
            } else if a != level {
                assert(m.contains_key(a) && m[a].hash == row.hash);
            } else if b != level {
                assert(m.contains_key(b) && m[b].hash == row.hash);
            }
        }
    }
    let upper = without_above(m, target);
    assert forall|a: int, b: int|
        upper.contains_key(a) && upper.contains_key(b) && (#[trigger] upper[a]).hash == (
        #[trigger] upper[b]).hash implies a == b by {
        assert(m[a].hash == m[b].hash);
    }
    let lower = without_below(m, target);
    assert forall|a: int, b: int|
        lower.contains_key(a) && lower.contains_key(b) && (#[trigger] lower[a]).hash == (
        #[trigger] lower[b]).hash implies a == b by {
        assert(m[a].hash == m[b].hash);
    }
}

/// A context hash stored again at its level takes the place of the one stored before: the
/// table is as if only the second had been stored.
pub proof fn law_context_hash_overwritten(
    m: Map<int, Seq<u8>>,
    level: int,
    first: Seq<u8>,
    second: Seq<u8>,
)
    ensures
        m.insert(level, first).insert(level, second) == m.insert(level, second),
        m.insert(level, first).insert(level, second)[level] == second,
        m.insert(level, first).insert(level, second).dom() == m.insert(level, first).dom(),
{
    assert(m.insert(level, first).insert(level, second) =~= m.insert(level, second));
}

/// Storing a row at a level moves the greatest level there where the level is above all
/// others, and leaves the greatest level as it was where it is not.
pub proof fn law_top_after_insert<W>(m: Map<int, W>, level: int, row: W)
    ensures
        (forall|k: int| m.contains_key(k) ==> k <= level) ==> top_of(m.insert(level, row)) == Some(
            level,
        ),
        forall|t: int|
            top_of(m) == Some(t) && level <= t ==> top_of(m.insert(level, row)) == Some(t),
{
    let next = m.insert(level, row);
    if forall|k: int| m.contains_key(k) ==> k <= level {
        lemma_top_unique(next, level);
    }
    assert forall|t: int| top_of(m) == Some(t) && level <= t implies top_of(next) == Some(t) by {
        assert(is_top(m, t));
        lemma_top_unique(next, t);
    }
}

/// A level that is not taken, applied to a store in which nothing lies above `target`, and
/// then taken back to `target`, leaves the store as it was before; the level has no
/// blueprint, no block, no transaction and no context hash any more.
pub proof fn law_apply_then_roll_back_restores(s: StoreView, l: LevelView, target: int)
    requires
        target < l.level,
        nothing_above(s, target),
        forall|i: int|
            0 <= i < l.transactions.len() ==> (#[trigger] l.transactions[i]).block_number
                == l.level,
    ensures
        rolled_back(with_level(s, l), target) == s,
        !rolled_back(with_level(s, l), target).blueprints.contains_key(l.level),
        !rolled_back(with_level(s, l), target).blocks.contains_key(l.level),
        !rolled_back(with_level(s, l), target).context_hashes.contains_key(l.level),
        forall|i: int|
            0 <= i < rolled_back(with_level(s, l), target).transactions.len() ==> (
            #[trigger] rolled_back(with_level(s, l), target).transactions[i]).block_number
                != l.level,
{
    let applied = with_level(s, l);
    let back = rolled_back(applied, target);
    assert(back.blueprints =~= s.blueprints);
    assert(back.blocks =~= s.blocks);
    assert(back.context_hashes =~= s.context_hashes);
    assert(back.transactions == s.transactions) by {
        let keep = not_above(target);
        Seq::filter_distributes_over_add(s.transactions, l.transactions, keep);
        lemma_filter_all(s.transactions, keep);
        lemma_filter_nothing(l.transactions, keep);
        assert(s.transactions + Seq::<TransactionRow>::empty() =~= s.transactions);
    }
    assert(back.kernel_upgrades =~= s.kernel_upgrades) by {
        assert forall|k: int| s.kernel_upgrades.contains_key(k) implies back.kernel_upgrades[k]
            == s.kernel_upgrades[k] by {
            assert(!is_applied_above(target)(s.kernel_upgrades[k]));
        }
    }
    assert(back.sequencer_upgrades =~= s.sequencer_upgrades) by {
        assert forall|k: int|
            s.sequencer_upgrades.contains_key(k) implies back.sequencer_upgrades[k]
            == s.sequencer_upgrades[k] by {
            assert(!is_applied_above(target)(s.sequencer_upgrades[k]));
        }
    }
}

/// Taking the store back to `target` leaves nothing above `target`.
pub proof fn law_roll_back_leaves_nothing_above(s: StoreView, target: int)
    ensures
        nothing_above(rolled_back(s, target), target),
{
    lemma_filter_members(s.transactions, not_above(target));
}

/// Applying a level whose transactions belong to it, and taking the store back, both leave
/// every transaction with the block of its level.
pub proof fn law_transactions_keep_their_blocks(s: StoreView, l: LevelView, target: int)
    requires
        transactions_have_blocks(s),
    ensures
        (forall|i: int|
            0 <= i < l.transactions.len() ==> (#[trigger] l.transactions[i]).block_number
                == l.level) ==> transactions_have_blocks(with_level(s, l)),
        transactions_have_blocks(rolled_back(s, target)),
{
    if forall|i: int|
        0 <= i < l.transactions.len() ==> (#[trigger] l.transactions[i]).block_number == l.level {
        let applied = with_level(s, l);
        assert forall|i: int| 0 <= i < applied.transactions.len() implies applied.blocks.contains_key(
            (#[trigger] applied.transactions[i]).block_number,
        ) by {
            if i < s.transactions.len() {
                assert(applied.transactions[i] == s.transactions[i]);
            } else {
                assert(applied.transactions[i] == l.transactions[i - s.transactions.len()]);
            }
        }
    }
    let back = rolled_back(s, target);
    lemma_filter_members(s.transactions, not_above(target));
    assert forall|i: int| 0 <= i < back.transactions.len() implies back.blocks.contains_key(
        (#[trigger] back.transactions[i]).block_number,
    ) by {
        let row = back.transactions[i];
        assert(s.transactions.contains(row));
        let j = choose|j: int| 0 <= j < s.transactions.len() && s.transactions[j] == row;
        assert(s.blocks.contains_key(s.transactions[j].block_number));
    }
}

/// Applying a level and taking the store back both leave the transactions without a shared
/// hash.
pub proof fn law_transaction_hashes_stay_distinct(s: StoreView, l: LevelView, target: int)
    requires
        distinct_hashes(s.transactions),
    ensures
        !is_taken(s, l) ==> distinct_hashes(with_level(s, l).transactions),
        distinct_hashes(rolled_back(s, target).transactions),
{
    lemma_filter_distinct(s.transactions, not_above(target));
}

/// Recording an application at `level` leaves no upgrade unapplied: those that were not
/// applied are applied at `level`, the others are as they were.
pub proof fn law_record_apply_marks_the_unapplied<W>(m: Map<int, UpgradeRow<W>>, level: int)
    ensures
        with_apply_recorded(m, level).dom() == m.dom(),
        forall|k: int|
            m.contains_key(k) ==> (#[trigger] with_apply_recorded(m, level)[k]) == if m[k].applied_before is None {
                UpgradeRow { payload: m[k].payload, applied_before: Some(level) }
            } else {
                m[k]
            },
        keys_where(with_apply_recorded(m, level), is_unapplied()) == Set::<int>::empty(),
{
    let recorded = with_apply_recorded(m, level);
    assert(keys_where(recorded, is_unapplied()) =~= Set::<int>::empty());
}

/// Taking the applications above `target` back undoes an application recorded at a level
/// above `target`: the upgrades that it marked are not applied again, and none is lost. Where
/// no upgrade was applied above `target` before, the ledger is as it was.
pub proof fn law_nullify_undoes_record_apply<W>(
    m: Map<int, UpgradeRow<W>>,
    level: int,
    target: int,
)
    requires
        target < level,
    ensures
        with_apply_nullified(with_apply_recorded(m, level), target).dom() == m.dom(),
        forall|k: int|
            m.contains_key(k) && m[k].applied_before is None ==> (#[trigger] with_apply_nullified(
                with_apply_recorded(m, level),
                target,
            )[k]) == m[k],
        (forall|k: int| m.contains_key(k) ==> !is_applied_above(target)(#[trigger] m[k]))
            ==> with_apply_nullified(with_apply_recorded(m, level), target) == m,
{
    let after = with_apply_nullified(with_apply_recorded(m, level), target);
    assert(after.dom() =~= m.dom());
    if forall|k: int| m.contains_key(k) ==> !is_applied_above(target)(#[trigger] m[k]) {
        assert forall|k: int| m.contains_key(k) implies after[k] == m[k] by {
            assert(!is_applied_above(target)(m[k]));
        }
        assert(after =~= m);
    }
}

/// After the applications above `target` are taken back, no upgrade counts as applied at a
/// level above `target`, and the upgrades applied at `target` or below count as before.
pub proof fn law_activations_after_nullify<W>(m: Map<int, UpgradeRow<W>>, target: int, level: int)
    ensures
        level > target ==> keys_where(with_apply_nullified(m, target), is_applied_at(level))
            == Set::<int>::empty(),
        level <= target ==> keys_where(with_apply_nullified(m, target), is_applied_at(level))
            == keys_where(m, is_applied_at(level)),
{
    let after = with_apply_nullified(m, target);
    if level > target {
        assert(keys_where(after, is_applied_at(level)) =~= Set::<int>::empty());
    } else {
        assert(keys_where(after, is_applied_at(level)) =~= keys_where(m, is_applied_at(level)));
    }
}

} // verus!
