use vstd::prelude::*;
use vstd::pervasive::VecAdditionalExecFns;
use crate::data::{CategoryType, EncryptedAccount, EncryptedAccountV, EncryptedCategory,
    EncryptedCategoryV, EncryptedPlan, EncryptedPlanV, EncryptedTransaction,
    EncryptedTransactionV, Id, MetaInfo};
use crate::datetime::Timestamp;
use crate::error::{Error, ErrorKind, Result};
use crate::prng::random_id;

verus! {

// ------------------------------------------------------------------
// Row predicates, as named function values so that one and the same
// predicate is shared by contracts and their callers.
// ------------------------------------------------------------------
/// A transaction row that is not logically deleted.
pub open spec fn live_tx() -> spec_fn(EncryptedTransactionV) -> bool {
    |t: EncryptedTransactionV| t.meta_info.removed_timestamp is None
}

/// A live transaction row inside a time window.
pub open spec fn tx_between(start: Timestamp, end: Timestamp) -> spec_fn(
    EncryptedTransactionV,
) -> bool {
    |t: EncryptedTransactionV|
        t.meta_info.removed_timestamp is None && t.timestamp >= start && t.timestamp < end
}

/// A live transaction row of one account.
pub open spec fn tx_of(account: Id) -> spec_fn(EncryptedTransactionV) -> bool {
    |t: EncryptedTransactionV| t.meta_info.removed_timestamp is None && t.account_id == account
}

/// A live transaction row of one account inside a time window.
pub open spec fn tx_of_between(account: Id, start: Timestamp, end: Timestamp) -> spec_fn(
    EncryptedTransactionV,
) -> bool {
    |t: EncryptedTransactionV|
        t.meta_info.removed_timestamp is None && t.account_id == account && t.timestamp >= start
            && t.timestamp < end
}

/// A live transaction row with one category.
pub open spec fn tx_with(category: Id) -> spec_fn(EncryptedTransactionV) -> bool {
    |t: EncryptedTransactionV| t.meta_info.removed_timestamp is None && t.category_id == category
}

/// A live transaction row with one category inside a time window.
pub open spec fn tx_with_between(category: Id, start: Timestamp, end: Timestamp) -> spec_fn(
    EncryptedTransactionV,
) -> bool {
    |t: EncryptedTransactionV|
        t.meta_info.removed_timestamp is None && t.category_id == category && t.timestamp >= start
            && t.timestamp < end
}

/// A transaction row created after a point in time (tombstones included).
pub open spec fn tx_added_since(base: Timestamp) -> spec_fn(EncryptedTransactionV) -> bool {
    |t: EncryptedTransactionV| t.meta_info.added_timestamp matches Some(a) && a > base
}

/// A transaction row changed after a point in time.
pub open spec fn tx_changed_since(base: Timestamp) -> spec_fn(EncryptedTransactionV) -> bool {
    |t: EncryptedTransactionV| t.meta_info.changed_timestamp matches Some(c) && c > base
}

/// A transaction row removed after a point in time.
pub open spec fn tx_removed_since(base: Timestamp) -> spec_fn(EncryptedTransactionV) -> bool {
    |t: EncryptedTransactionV| t.meta_info.removed_timestamp matches Some(c) && c > base
}

/// An account row that is not logically deleted.
pub open spec fn live_account() -> spec_fn(EncryptedAccountV) -> bool {
    |a: EncryptedAccountV| a.meta_info.removed_timestamp is None
}

/// An account row created after a point in time.
pub open spec fn account_added_since(base: Timestamp) -> spec_fn(EncryptedAccountV) -> bool {
    |a: EncryptedAccountV| a.meta_info.added_timestamp matches Some(x) && x > base
}

/// An account row changed after a point in time.
pub open spec fn account_changed_since(base: Timestamp) -> spec_fn(EncryptedAccountV) -> bool {
    |a: EncryptedAccountV| a.meta_info.changed_timestamp matches Some(x) && x > base
}

/// An account row removed after a point in time.
pub open spec fn account_removed_since(base: Timestamp) -> spec_fn(EncryptedAccountV) -> bool {
    |a: EncryptedAccountV| a.meta_info.removed_timestamp matches Some(x) && x > base
}

/// A category row that is not logically deleted.
pub open spec fn live_category() -> spec_fn(EncryptedCategoryV) -> bool {
    |c: EncryptedCategoryV| c.meta_info.removed_timestamp is None
}

/// A live category row of one type.
pub open spec fn category_of(category_type: CategoryType) -> spec_fn(EncryptedCategoryV) -> bool {
    |c: EncryptedCategoryV|
        c.meta_info.removed_timestamp is None && c.category_type == category_type
}

/// A category row created after a point in time.
pub open spec fn category_added_since(base: Timestamp) -> spec_fn(EncryptedCategoryV) -> bool {
    |c: EncryptedCategoryV| c.meta_info.added_timestamp matches Some(x) && x > base
}

/// A category row changed after a point in time.
pub open spec fn category_changed_since(base: Timestamp) -> spec_fn(EncryptedCategoryV) -> bool {
    |c: EncryptedCategoryV| c.meta_info.changed_timestamp matches Some(x) && x > base
}

/// A category row removed after a point in time.
pub open spec fn category_removed_since(base: Timestamp) -> spec_fn(EncryptedCategoryV) -> bool {
    |c: EncryptedCategoryV| c.meta_info.removed_timestamp matches Some(x) && x > base
}

/// A plan row that is not logically deleted.
pub open spec fn live_plan() -> spec_fn(EncryptedPlanV) -> bool {
    |p: EncryptedPlanV| p.meta_info.removed_timestamp is None
}

/// A live plan row of one category.
pub open spec fn plan_for(category: Id) -> spec_fn(EncryptedPlanV) -> bool {
    |p: EncryptedPlanV| p.meta_info.removed_timestamp is None && p.category_id == category
}

/// A plan row created after a point in time.
pub open spec fn plan_added_since(base: Timestamp) -> spec_fn(EncryptedPlanV) -> bool {
    |p: EncryptedPlanV| p.meta_info.added_timestamp matches Some(x) && x > base
}

/// A plan row changed after a point in time.
pub open spec fn plan_changed_since(base: Timestamp) -> spec_fn(EncryptedPlanV) -> bool {
    |p: EncryptedPlanV| p.meta_info.changed_timestamp matches Some(x) && x > base
}

/// A plan row removed after a point in time.
pub open spec fn plan_removed_since(base: Timestamp) -> spec_fn(EncryptedPlanV) -> bool {
    |p: EncryptedPlanV| p.meta_info.removed_timestamp matches Some(x) && x > base
}

/// One step of filtering: extending the scanned prefix by one element
/// extends the filtered result exactly when the element matches.
pub proof fn lemma_filter_take_step<T>(s: Seq<T>, i: int, pred: spec_fn(T) -> bool)
    requires
        0 <= i < s.len(),
    ensures
        s.take(i + 1).filter(pred) == if pred(s[i]) {
            s.take(i).filter(pred).push(s[i])
        } else {
            s.take(i).filter(pred)
        },
{
    reveal_with_fuel(Seq::filter, 2);
    assert(s.take(i + 1).drop_last() =~= s.take(i));
    assert(s.take(i + 1).last() == s[i]);
    assert(s.take(i + 1).len() == i + 1);
}

// ------------------------------------------------------------------
// The store itself.
// ------------------------------------------------------------------
/// Ghost form of the whole store: one row sequence per entity kind.
pub ghost struct StorageV {
    pub transactions: Seq<EncryptedTransactionV>,
    pub accounts: Seq<EncryptedAccountV>,
    pub categories: Seq<EncryptedCategoryV>,
    pub plans: Seq<EncryptedPlanV>,
}

/// In-memory store of the four entity kinds in encrypted form, with
/// logical deletion, provenance and the temporal queries that
/// synchronization needs.
///
/// Every stored row carries an identifier and a creation timestamp;
/// identifiers are unique per table; transactions are kept sorted by
/// posting time, newest first.
pub struct Storage {
    transactions: Vec<EncryptedTransaction>,
    accounts: Vec<EncryptedAccount>,
    categories: Vec<EncryptedCategory>,
    plans: Vec<EncryptedPlan>,
}

impl View for Storage {
    type V = StorageV;

    closed spec fn view(&self) -> StorageV {
        StorageV {
            transactions: self.transactions@.map_values(|t: EncryptedTransaction| t@),
            accounts: self.accounts@.map_values(|a: EncryptedAccount| a@),
            categories: self.categories@.map_values(|c: EncryptedCategory| c@),
            plans: self.plans@.map_values(|p: EncryptedPlan| p@),
        }
    }
}

/// Every transaction row has an identifier and a creation timestamp,
/// and no two rows share an identifier.
pub open spec fn tx_rows_ok(s: Seq<EncryptedTransactionV>) -> bool {
    &&& forall|i: int|
        0 <= i < s.len() ==> (#[trigger] s[i]).id is Some && s[i].meta_info.added_timestamp
            is Some
    &&& forall|i: int, j: int| 0 <= i < j < s.len() ==> s[i].id != s[j].id
}

/// Ascending order on identifiers: by the first half, then the second.
pub open spec fn id_le(x: Id, y: Id) -> bool {
    x.a < y.a || (x.a == y.a && x.b <= y.b)
}

/// Order on category kinds: incomes before spendings.
pub open spec fn kind_le(x: CategoryType, y: CategoryType) -> bool {
    !(x == CategoryType::Outcome && y == CategoryType::Income)
}

/// Category rows are sorted by kind, incomes first.
pub open spec fn category_sorted(s: Seq<EncryptedCategoryV>) -> bool {
    forall|i: int, j: int|
        0 <= i <= j < s.len() ==> kind_le(
            (#[trigger] s[i]).category_type,
            (#[trigger] s[j]).category_type,
        )
}

/// Plan rows are sorted ascending by category identifier.
pub open spec fn plan_sorted(s: Seq<EncryptedPlanV>) -> bool {
    forall|i: int, j: int|
        0 <= i <= j < s.len() ==> id_le(
            (#[trigger] s[i]).category_id,
            (#[trigger] s[j]).category_id,
        )
}

/// Transaction rows are sorted by posting time, newest first.
pub open spec fn tx_sorted(s: Seq<EncryptedTransactionV>) -> bool {
    forall|i: int, j: int| 0 <= i <= j < s.len() ==> (#[trigger] s[i]).timestamp >= (#[trigger] s[j]).timestamp
}

/// Every account row has an identifier and a creation timestamp, and
/// no two rows share an identifier.
pub open spec fn account_rows_ok(s: Seq<EncryptedAccountV>) -> bool {
    &&& forall|i: int|
        0 <= i < s.len() ==> (#[trigger] s[i]).id is Some && s[i].meta_info.added_timestamp
            is Some
    &&& forall|i: int, j: int| 0 <= i < j < s.len() ==> s[i].id != s[j].id
}

/// Every category row has an identifier and a creation timestamp, and
/// no two rows share an identifier.
pub open spec fn category_rows_ok(s: Seq<EncryptedCategoryV>) -> bool {
    &&& forall|i: int|
        0 <= i < s.len() ==> (#[trigger] s[i]).id is Some && s[i].meta_info.added_timestamp
            is Some
    &&& forall|i: int, j: int| 0 <= i < j < s.len() ==> s[i].id != s[j].id
}

/// Every plan row has an identifier and a creation timestamp, and no
/// two rows share an identifier.
pub open spec fn plan_rows_ok(s: Seq<EncryptedPlanV>) -> bool {
    &&& forall|i: int|
        0 <= i < s.len() ==> (#[trigger] s[i]).id is Some && s[i].meta_info.added_timestamp
            is Some
    &&& forall|i: int, j: int| 0 <= i < j < s.len() ==> s[i].id != s[j].id
}

/// Whether some transaction row (live or removed) carries this id.
pub open spec fn tx_id_taken(s: Seq<EncryptedTransactionV>, id: Id) -> bool {
    exists|i: int| 0 <= i < s.len() && (#[trigger] s[i]).id == Some(id)
}

/// Whether some account row (live or removed) carries this id.
pub open spec fn account_id_taken(s: Seq<EncryptedAccountV>, id: Id) -> bool {
    exists|i: int| 0 <= i < s.len() && (#[trigger] s[i]).id == Some(id)
}

/// Whether some category row (live or removed) carries this id.
pub open spec fn category_id_taken(s: Seq<EncryptedCategoryV>, id: Id) -> bool {
    exists|i: int| 0 <= i < s.len() && (#[trigger] s[i]).id == Some(id)
}

/// Whether some plan row (live or removed) carries this id.
pub open spec fn plan_id_taken(s: Seq<EncryptedPlanV>, id: Id) -> bool {
    exists|i: int| 0 <= i < s.len() && (#[trigger] s[i]).id == Some(id)
}

/// Whether some live transaction row references this account.
pub open spec fn tx_references_account(s: Seq<EncryptedTransactionV>, account: Id) -> bool {
    exists|i: int|
        0 <= i < s.len() && (#[trigger] s[i]).account_id == account
            && s[i].meta_info.removed_timestamp is None
}

/// Whether some live transaction row references this category.
pub open spec fn tx_references_category(s: Seq<EncryptedTransactionV>, category: Id) -> bool {
    exists|i: int|
        0 <= i < s.len() && (#[trigger] s[i]).category_id == category
            && s[i].meta_info.removed_timestamp is None
}

/// Whether some live plan row references this category.
pub open spec fn plan_references_category(s: Seq<EncryptedPlanV>, category: Id) -> bool {
    exists|i: int|
        0 <= i < s.len() && (#[trigger] s[i]).category_id == category
            && s[i].meta_info.removed_timestamp is None
}

/// The transaction rows with this id tombstoned at the given time.
pub open spec fn tx_tombstoned(s: Seq<EncryptedTransactionV>, id: Id, ts: Timestamp) -> Seq<
    EncryptedTransactionV,
> {
    Seq::new(
        s.len(),
        |i: int|
            if s[i].id == Some(id) {
                EncryptedTransactionV {
                    meta_info: MetaInfo { removed_timestamp: Some(ts), ..s[i].meta_info },
                    ..s[i]
                }
            } else {
                s[i]
            },
    )
}


/// The transaction rows of one account with every live row tombstoned
/// at the given time.
pub open spec fn txs_of_tombstoned(
    s: Seq<EncryptedTransactionV>,
    account: Id,
    ts: Timestamp,
) -> Seq<EncryptedTransactionV> {
    Seq::new(
        s.len(),
        |i: int|
            if s[i].account_id == account && s[i].meta_info.removed_timestamp is None {
                EncryptedTransactionV {
                    meta_info: MetaInfo { removed_timestamp: Some(ts), ..s[i].meta_info },
                    ..s[i]
                }
            } else {
                s[i]
            },
    )
}

/// The account rows with this id tombstoned at the given time.
pub open spec fn account_tombstoned(s: Seq<EncryptedAccountV>, id: Id, ts: Timestamp) -> Seq<
    EncryptedAccountV,
> {
    Seq::new(
        s.len(),
        |i: int|
            if s[i].id == Some(id) {
                EncryptedAccountV {
                    meta_info: MetaInfo { removed_timestamp: Some(ts), ..s[i].meta_info },
                    ..s[i]
                }
            } else {
                s[i]
            },
    )
}

/// The category rows with this id tombstoned at the given time.
pub open spec fn category_tombstoned(s: Seq<EncryptedCategoryV>, id: Id, ts: Timestamp) -> Seq<
    EncryptedCategoryV,
> {
    Seq::new(
        s.len(),
        |i: int|
            if s[i].id == Some(id) {
                EncryptedCategoryV {
                    meta_info: MetaInfo { removed_timestamp: Some(ts), ..s[i].meta_info },
                    ..s[i]
                }
            } else {
                s[i]
            },
    )
}

/// The plan rows with this id tombstoned at the given time.
pub open spec fn plan_tombstoned(s: Seq<EncryptedPlanV>, id: Id, ts: Timestamp) -> Seq<
    EncryptedPlanV,
> {
    Seq::new(
        s.len(),
        |i: int|
            if s[i].id == Some(id) {
                EncryptedPlanV {
                    meta_info: MetaInfo { removed_timestamp: Some(ts), ..s[i].meta_info },
                    ..s[i]
                }
            } else {
                s[i]
            },
    )
}

/// The account rows with the name and balance of the matching live row
/// replaced; origin, creation time and initial balance are immutable.
pub open spec fn account_updated(s: Seq<EncryptedAccountV>, a: EncryptedAccountV) -> Seq<
    EncryptedAccountV,
> {
    Seq::new(
        s.len(),
        |i: int|
            if s[i].id == a.id && s[i].meta_info.removed_timestamp is None {
                EncryptedAccountV { name: a.name, balance: a.balance, ..s[i] }
            } else {
                s[i]
            },
    )
}

/// A transaction row as stored: the given id in place of any missing
/// one; origin and creation time are taken from the row, while the
/// change and removal stamps of a fresh insert are always clear.
pub open spec fn tx_row_inserted(t: EncryptedTransactionV, id: Id) -> EncryptedTransactionV {
    EncryptedTransactionV {
        id: Some(id),
        meta_info: MetaInfo {
            changed_timestamp: None,
            removed_timestamp: None,
            ..t.meta_info
        },
        ..t
    }
}



/// Filtering keeps tx rows well formed: identifiers and creation
/// timestamps stay present and identifiers stay pairwise distinct.
pub proof fn lemma_filter_keeps_tx_rows_ok(s: Seq<EncryptedTransactionV>, pred: spec_fn(EncryptedTransactionV) -> bool)
    requires
        tx_rows_ok(s),
    ensures
        tx_rows_ok(s.filter(pred)),
    decreases s.len(),
{
    reveal_with_fuel(Seq::filter, 2);
    if s.len() == 0 {
    } else {
        let pre = s.drop_last();
        assert(forall|i: int| 0 <= i < pre.len() ==> pre[i] == s[i]);
        lemma_filter_keeps_tx_rows_ok(pre, pred);
        lemma_filter_value_subset(pre, pred);
        let ft = s.filter(pred);
        assert forall|i: int|
            0 <= i < ft.len() implies (#[trigger] ft[i]).id is Some
            && ft[i].meta_info.added_timestamp is Some by {
            if pred(s.last()) && i == ft.len() - 1 {
                assert(ft[i] == s[s.len() - 1]);
            } else {
                assert(ft[i] == pre.filter(pred)[i]);
            }
        }
        assert forall|i: int, j: int| 0 <= i < j < ft.len() implies ft[i].id != ft[j].id by {
            if pred(s.last()) && j == ft.len() - 1 {
                assert(ft[j] == s.last());
                assert(ft[i] == pre.filter(pred)[i]);
                let w = choose|w: int| 0 <= w < pre.len() && pre.filter(pred)[i] == pre[w];
                assert(s[w].id != s[s.len() - 1].id);
            } else {
                assert(ft[i] == pre.filter(pred)[i]);
                assert(ft[j] == pre.filter(pred)[j]);
            }
        }
    }
}

/// Filtering keeps account rows well formed: identifiers and creation
/// timestamps stay present and identifiers stay pairwise distinct.
pub proof fn lemma_filter_keeps_account_rows_ok(s: Seq<EncryptedAccountV>, pred: spec_fn(EncryptedAccountV) -> bool)
    requires
        account_rows_ok(s),
    ensures
        account_rows_ok(s.filter(pred)),
    decreases s.len(),
{
    reveal_with_fuel(Seq::filter, 2);
    if s.len() == 0 {
    } else {
        let pre = s.drop_last();
        assert(forall|i: int| 0 <= i < pre.len() ==> pre[i] == s[i]);
        lemma_filter_keeps_account_rows_ok(pre, pred);
        lemma_filter_value_subset(pre, pred);
        let ft = s.filter(pred);
        assert forall|i: int|
            0 <= i < ft.len() implies (#[trigger] ft[i]).id is Some
            && ft[i].meta_info.added_timestamp is Some by {
            if pred(s.last()) && i == ft.len() - 1 {
                assert(ft[i] == s[s.len() - 1]);
            } else {
                assert(ft[i] == pre.filter(pred)[i]);
            }
        }
        assert forall|i: int, j: int| 0 <= i < j < ft.len() implies ft[i].id != ft[j].id by {
            if pred(s.last()) && j == ft.len() - 1 {
                assert(ft[j] == s.last());
                assert(ft[i] == pre.filter(pred)[i]);
                let w = choose|w: int| 0 <= w < pre.len() && pre.filter(pred)[i] == pre[w];
                assert(s[w].id != s[s.len() - 1].id);
            } else {
                assert(ft[i] == pre.filter(pred)[i]);
                assert(ft[j] == pre.filter(pred)[j]);
            }
        }
    }
}

/// Filtering keeps category rows well formed: identifiers and creation
/// timestamps stay present and identifiers stay pairwise distinct.
pub proof fn lemma_filter_keeps_category_rows_ok(s: Seq<EncryptedCategoryV>, pred: spec_fn(EncryptedCategoryV) -> bool)
    requires
        category_rows_ok(s),
    ensures
        category_rows_ok(s.filter(pred)),
    decreases s.len(),
{
    reveal_with_fuel(Seq::filter, 2);
    if s.len() == 0 {
    } else {
        let pre = s.drop_last();
        assert(forall|i: int| 0 <= i < pre.len() ==> pre[i] == s[i]);
        lemma_filter_keeps_category_rows_ok(pre, pred);
        lemma_filter_value_subset(pre, pred);
        let ft = s.filter(pred);
        assert forall|i: int|
            0 <= i < ft.len() implies (#[trigger] ft[i]).id is Some
            && ft[i].meta_info.added_timestamp is Some by {
            if pred(s.last()) && i == ft.len() - 1 {
                assert(ft[i] == s[s.len() - 1]);
            } else {
                assert(ft[i] == pre.filter(pred)[i]);
            }
        }
        assert forall|i: int, j: int| 0 <= i < j < ft.len() implies ft[i].id != ft[j].id by {
            if pred(s.last()) && j == ft.len() - 1 {
                assert(ft[j] == s.last());
                assert(ft[i] == pre.filter(pred)[i]);
                let w = choose|w: int| 0 <= w < pre.len() && pre.filter(pred)[i] == pre[w];
                assert(s[w].id != s[s.len() - 1].id);
            } else {
                assert(ft[i] == pre.filter(pred)[i]);
                assert(ft[j] == pre.filter(pred)[j]);
            }
        }
    }
}

/// Filtering keeps plan rows well formed: identifiers and creation
/// timestamps stay present and identifiers stay pairwise distinct.
pub proof fn lemma_filter_keeps_plan_rows_ok(s: Seq<EncryptedPlanV>, pred: spec_fn(EncryptedPlanV) -> bool)
    requires
        plan_rows_ok(s),
    ensures
        plan_rows_ok(s.filter(pred)),
    decreases s.len(),
{
    reveal_with_fuel(Seq::filter, 2);
    if s.len() == 0 {
    } else {
        let pre = s.drop_last();
        assert(forall|i: int| 0 <= i < pre.len() ==> pre[i] == s[i]);
        lemma_filter_keeps_plan_rows_ok(pre, pred);
        lemma_filter_value_subset(pre, pred);
        let ft = s.filter(pred);
        assert forall|i: int|
            0 <= i < ft.len() implies (#[trigger] ft[i]).id is Some
            && ft[i].meta_info.added_timestamp is Some by {
            if pred(s.last()) && i == ft.len() - 1 {
                assert(ft[i] == s[s.len() - 1]);
            } else {
                assert(ft[i] == pre.filter(pred)[i]);
            }
        }
        assert forall|i: int, j: int| 0 <= i < j < ft.len() implies ft[i].id != ft[j].id by {
            if pred(s.last()) && j == ft.len() - 1 {
                assert(ft[j] == s.last());
                assert(ft[i] == pre.filter(pred)[i]);
                let w = choose|w: int| 0 <= w < pre.len() && pre.filter(pred)[i] == pre[w];
                assert(s[w].id != s[s.len() - 1].id);
            } else {
                assert(ft[i] == pre.filter(pred)[i]);
                assert(ft[j] == pre.filter(pred)[j]);
            }
        }
    }
}


/// An account row as stored: fresh id where missing, change and
/// removal stamps clear.
pub open spec fn account_row_inserted(v: EncryptedAccountV, id: Id) -> EncryptedAccountV {
    EncryptedAccountV {
        id: Some(id),
        meta_info: MetaInfo {
            changed_timestamp: None,
            removed_timestamp: None,
            ..v.meta_info
        },
        ..v
    }
}

/// A category row as stored: fresh id where missing, change and
/// removal stamps clear.
pub open spec fn category_row_inserted(v: EncryptedCategoryV, id: Id) -> EncryptedCategoryV {
    EncryptedCategoryV {
        id: Some(id),
        meta_info: MetaInfo {
            changed_timestamp: None,
            removed_timestamp: None,
            ..v.meta_info
        },
        ..v
    }
}

/// A plan row as stored: fresh id where missing, change and removal
/// stamps clear.
pub open spec fn plan_row_inserted(v: EncryptedPlanV, id: Id) -> EncryptedPlanV {
    EncryptedPlanV {
        id: Some(id),
        meta_info: MetaInfo {
            changed_timestamp: None,
            removed_timestamp: None,
            ..v.meta_info
        },
        ..v
    }
}

/// Every element of a filtered sequence occurs in the original.
pub proof fn lemma_filter_value_subset<T>(s: Seq<T>, pred: spec_fn(T) -> bool)
    ensures
        forall|i: int|
            0 <= i < s.filter(pred).len() ==> exists|j: int|
                0 <= j < s.len() && #[trigger] s.filter(pred)[i] == s[j],
    decreases s.len(),
{
    reveal_with_fuel(Seq::filter, 2);
    if s.len() == 0 {
    } else {
        let pre = s.drop_last();
        lemma_filter_value_subset(pre, pred);
        assert forall|i: int| 0 <= i < s.filter(pred).len() implies exists|j: int|
            0 <= j < s.len() && #[trigger] s.filter(pred)[i] == s[j] by {
            if pred(s.last()) && i == s.filter(pred).len() - 1 {
                assert(s.filter(pred)[i] == s[s.len() - 1]);
            } else {
                assert(s.filter(pred)[i] == pre.filter(pred)[i]);
                let j = choose|j: int| 0 <= j < pre.len() && pre.filter(pred)[i] == pre[j];
                assert(pre[j] == s[j]);
            }
        }
    }
}

/// Filtering a category sequence sorted by kind keeps it sorted.
pub proof fn lemma_filter_category_sorted(
    s: Seq<EncryptedCategoryV>,
    pred: spec_fn(EncryptedCategoryV) -> bool,
)
    requires
        category_sorted(s),
    ensures
        category_sorted(s.filter(pred)),
    decreases s.len(),
{
    reveal_with_fuel(Seq::filter, 2);
    if s.len() == 0 {
    } else {
        let pre = s.drop_last();
        assert(forall|i: int| 0 <= i < pre.len() ==> pre[i] == s[i]);
        lemma_filter_category_sorted(pre, pred);
        lemma_filter_value_subset(pre, pred);
        assert forall|i: int, j: int|
            0 <= i <= j < s.filter(pred).len() implies kind_le(
            (#[trigger] s.filter(pred)[i]).category_type,
            (#[trigger] s.filter(pred)[j]).category_type,
        ) by {
            if pred(s.last()) && j == s.filter(pred).len() - 1 {
                assert(s.filter(pred)[j] == s.last());
                if i < j {
                    assert(s.filter(pred)[i] == pre.filter(pred)[i]);
                    let w = choose|w: int| 0 <= w < pre.len() && pre.filter(pred)[i] == pre[w];
                    assert(kind_le(s[w].category_type, s[s.len() - 1].category_type));
                }
            } else {
                assert(s.filter(pred)[i] == pre.filter(pred)[i]);
                assert(s.filter(pred)[j] == pre.filter(pred)[j]);
            }
        }
    }
}

/// Filtering a plan sequence sorted by category keeps it sorted.
pub proof fn lemma_filter_plan_sorted(
    s: Seq<EncryptedPlanV>,
    pred: spec_fn(EncryptedPlanV) -> bool,
)
    requires
        plan_sorted(s),
    ensures
        plan_sorted(s.filter(pred)),
    decreases s.len(),
{
    reveal_with_fuel(Seq::filter, 2);
    if s.len() == 0 {
    } else {
        let pre = s.drop_last();
        assert(forall|i: int| 0 <= i < pre.len() ==> pre[i] == s[i]);
        lemma_filter_plan_sorted(pre, pred);
        lemma_filter_value_subset(pre, pred);
        assert forall|i: int, j: int|
            0 <= i <= j < s.filter(pred).len() implies id_le(
            (#[trigger] s.filter(pred)[i]).category_id,
            (#[trigger] s.filter(pred)[j]).category_id,
        ) by {
            if pred(s.last()) && j == s.filter(pred).len() - 1 {
                assert(s.filter(pred)[j] == s.last());
                if i < j {
                    assert(s.filter(pred)[i] == pre.filter(pred)[i]);
                    let w = choose|w: int| 0 <= w < pre.len() && pre.filter(pred)[i] == pre[w];
                    assert(id_le(s[w].category_id, s[s.len() - 1].category_id));
                }
            } else {
                assert(s.filter(pred)[i] == pre.filter(pred)[i]);
                assert(s.filter(pred)[j] == pre.filter(pred)[j]);
            }
        }
    }
}

/// Filtering a transaction sequence sorted newest-first keeps it sorted.
pub proof fn lemma_filter_sorted(
    s: Seq<EncryptedTransactionV>,
    pred: spec_fn(EncryptedTransactionV) -> bool,
)
    requires
        tx_sorted(s),
    ensures
        tx_sorted(s.filter(pred)),
    decreases s.len(),
{
    reveal_with_fuel(Seq::filter, 2);
    if s.len() == 0 {
    } else {
        let pre = s.drop_last();
        assert(forall|i: int| 0 <= i < pre.len() ==> pre[i] == s[i]);
        lemma_filter_sorted(pre, pred);
        lemma_filter_value_subset(pre, pred);
        assert forall|i: int, j: int|
            0 <= i <= j < s.filter(pred).len() implies (#[trigger] s.filter(pred)[i]).timestamp
            >= (#[trigger] s.filter(pred)[j]).timestamp by {
            if pred(s.last()) && j == s.filter(pred).len() - 1 {
                assert(s.filter(pred)[j] == s.last());
                if i < j {
                    assert(s.filter(pred)[i] == pre.filter(pred)[i]);
                    let w = choose|w: int| 0 <= w < pre.len() && pre.filter(pred)[i] == pre[w];
                    assert(s[w].timestamp >= s[s.len() - 1].timestamp);
                }
            } else {
                assert(s.filter(pred)[i] == pre.filter(pred)[i]);
                assert(s.filter(pred)[j] == pre.filter(pred)[j]);
            }
        }
    }
}

/// The row discipline of a whole store: identifiers and creation
/// timestamps present, identifiers unique per table, every table in
/// its stored order.
pub open spec fn store_rows_wf(sv: StorageV) -> bool {
    &&& tx_rows_ok(sv.transactions)
    &&& tx_sorted(sv.transactions)
    &&& account_rows_ok(sv.accounts)
    &&& category_rows_ok(sv.categories)
    &&& category_sorted(sv.categories)
    &&& plan_rows_ok(sv.plans)
    &&& plan_sorted(sv.plans)
}

impl Storage {
    /// Whether the store is well formed.
    pub open spec fn wf(self) -> bool {
        store_rows_wf(self@)
    }

    /// Creates an empty store.
    pub fn new() -> (r: Storage)
        ensures
            r.wf(),
            r@.transactions == Seq::<EncryptedTransactionV>::empty(),
            r@.accounts == Seq::<EncryptedAccountV>::empty(),
            r@.categories == Seq::<EncryptedCategoryV>::empty(),
            r@.plans == Seq::<EncryptedPlanV>::empty(),
    {
        let r = Storage {
            transactions: Vec::new(),
            accounts: Vec::new(),
            categories: Vec::new(),
            plans: Vec::new(),
        };
        proof {
            assert(r@.transactions =~= Seq::<EncryptedTransactionV>::empty());
            assert(r@.accounts =~= Seq::<EncryptedAccountV>::empty());
            assert(r@.categories =~= Seq::<EncryptedCategoryV>::empty());
            assert(r@.plans =~= Seq::<EncryptedPlanV>::empty());
        }
        r
    }

    /// Whether a transaction row with this id exists, live or removed.
    fn tx_id_exists(&self, id: &Id) -> (r: bool)
        ensures
            r == tx_id_taken(self@.transactions, *id),
    {
        let mut i: usize = 0;
        let n = self.transactions.len();
        while i < n
            invariant
                i <= n,
                n == self@.transactions.len(),
                forall|k: int| 0 <= k < i ==> (#[trigger] self@.transactions[k]).id != Some(*id),
            decreases n - i,
        {
            let matched = match self.transactions[i].id {
                Option::Some(x) => x == *id,
                Option::None => false,
            };
            if matched {
                proof {
                    assert(self@.transactions[i as int].id == Some(*id));
                }
                return true;
            }
            i = i + 1;
        }
        false
    }

    /// Adds a new transaction row.
    ///
    /// The row must carry a creation timestamp; a row without an id is
    /// assigned a fresh random one. Fails when the id is already taken.
    pub fn add_transaction(&mut self, transaction: EncryptedTransaction) -> (r: Result<()>)
        requires
            old(self).wf(),
        ensures
            final(self).wf(),
            final(self)@.accounts == old(self)@.accounts,
            final(self)@.categories == old(self)@.categories,
            final(self)@.plans == old(self)@.plans,
            match r {
                Ok(_) => exists|k: int, id: Id|
                    {
                        &&& 0 <= k <= old(self)@.transactions.len()
                        &&& (transaction@.id is Some ==> transaction@.id == Some(id))
                        &&& !tx_id_taken(old(self)@.transactions, id)
                        &&& final(self)@.transactions == #[trigger] old(self)@.transactions.insert(
                            k,
                            tx_row_inserted(transaction@, id),
                        )
                    },
                Err(e) => {
                    &&& final(self)@.transactions == old(self)@.transactions
                    &&& (e.kind == ErrorKind::Malformed <==> transaction@.meta_info.added_timestamp
                        is None)
                    &&& (transaction@.meta_info.added_timestamp is Some ==> e.kind
                        == ErrorKind::ConsistencyViolation)
                },
            },
            transaction@.meta_info.added_timestamp is Some && (transaction@.id matches Some(id)
                && !tx_id_taken(old(self)@.transactions, id)) ==> r is Ok,
    {
        if transaction.meta_info.added_timestamp.is_none() {
            return Err(Error::from_message(ErrorKind::Malformed));
        }
        let id = match transaction.id {
            Option::Some(id) => id,
            Option::None => random_id(),
        };
        if self.tx_id_exists(&id) {
            return Err(Error::from_message(ErrorKind::ConsistencyViolation));
        }
        let row = EncryptedTransaction {
            id: Some(id),
            timestamp: transaction.timestamp,
            description: transaction.description,
            account_id: transaction.account_id,
            category_id: transaction.category_id,
            amount: transaction.amount,
            meta_info: MetaInfo {
                changed_timestamp: None,
                removed_timestamp: None,
                ..transaction.meta_info
            },
        };
        let mut k: usize = 0;
        let n = self.transactions.len();
        while k < n && self.transactions[k].timestamp >= row.timestamp
            invariant
                k <= n,
                n == self@.transactions.len(),
                forall|j: int| 0 <= j < k ==> (#[trigger] self@.transactions[j]).timestamp
                    >= row@.timestamp,
            decreases n - k,
        {
            k = k + 1;
        }
        proof {
            self@.transactions.insert_ensures(k as int, row@);
        }
        let ghost pre = self@.transactions;
        self.transactions.insert(k, row);
        proof {
            assert(self@.transactions =~= pre.insert(k as int, row@));
            let s = self@.transactions;
            pre.insert_ensures(k as int, row@);
            assert forall|i: int, j: int| 0 <= i <= j < s.len() implies s[i].timestamp
                >= s[j].timestamp by {
                assert(tx_sorted(pre));
                let ki = k as int;
                if i < ki {
                    assert(s[i] == pre[i]);
                } else if i == ki {
                    assert(s[i] == row@);
                } else {
                    assert(s[i] == pre[i - 1]);
                }
                if j < ki {
                    assert(s[j] == pre[j]);
                } else if j == ki {
                    assert(s[j] == row@);
                } else {
                    assert(s[j] == pre[j - 1]);
                }
                if ki < pre.len() {
                    assert(pre[ki].timestamp < row@.timestamp);
                }
            }
            assert forall|i: int, j: int| 0 <= i < j < s.len() implies s[i].id != s[j].id by {
                let ki = k as int;
                assert(!tx_id_taken(pre, id));
                if i < ki {
                    assert(s[i] == pre[i]);
                } else if i == ki {
                    assert(s[i] == row@);
                } else {
                    assert(s[i] == pre[i - 1]);
                }
                if j < ki {
                    assert(s[j] == pre[j]);
                } else if j == ki {
                    assert(s[j] == row@);
                } else {
                    assert(s[j] == pre[j - 1]);
                }
            }
            assert(final(self)@.transactions == old(self)@.transactions.insert(
                k as int,
                tx_row_inserted(transaction@, id),
            ));
        }
        Ok(())
    }

    /// Sets the removal timestamp of the transaction row with this id.
    ///
    /// A missing id leaves the store unchanged; the call still succeeds.
    pub fn remove_transaction(&mut self, transaction: Id, removal_timestamp: Timestamp) -> (r:
        Result<()>)
        requires
            old(self).wf(),
        ensures
            final(self).wf(),
            final(self)@.accounts == old(self)@.accounts,
            final(self)@.categories == old(self)@.categories,
            final(self)@.plans == old(self)@.plans,
            r is Ok,
            final(self)@.transactions == tx_tombstoned(
                old(self)@.transactions,
                transaction,
                removal_timestamp,
            ),
    {
        let ghost orig = self@.transactions;
        let n = self.transactions.len();
        let mut j: usize = 0;
        while j < n
            invariant
                j <= n,
                n == self@.transactions.len(),
                orig.len() == n,
                self@.accounts == old(self)@.accounts,
                self@.categories == old(self)@.categories,
                self@.plans == old(self)@.plans,
                forall|k: int|
                    0 <= k < j ==> self@.transactions[k] == tx_tombstoned(
                        orig,
                        transaction,
                        removal_timestamp,
                    )[k],
                forall|k: int| j <= k < n ==> self@.transactions[k] == orig[k],
            decreases n - j,
        {
            let matched = match self.transactions[j].id {
                Option::Some(x) => x == transaction,
                Option::None => false,
            };
            if matched {
                let mut row = self.transactions[j].clone();
                row.meta_info.removed_timestamp = Some(removal_timestamp);
                self.transactions.set(j, row);
            }
            j = j + 1;
        }
        proof {
            assert(self@.transactions =~= tx_tombstoned(orig, transaction, removal_timestamp));
        }
        Ok(())
    }

    /// Returns the live transaction row with this id.
    pub fn transaction(&self, transaction: Id) -> (r: Result<EncryptedTransaction>)
        ensures
            match r {
                Ok(t) => exists|i: int|
                    {
                        &&& 0 <= i < self@.transactions.len()
                        &&& (#[trigger] self@.transactions[i]) == t@
                        &&& t@.id == Some(transaction)
                        &&& t@.meta_info.removed_timestamp is None
                    },
                Err(e) => {
                    &&& e.kind == ErrorKind::NotFound
                    &&& forall|i: int|
                        0 <= i < self@.transactions.len() ==> !((#[trigger] self@.transactions[i]).id
                            == Some(transaction) && self@.transactions[i].meta_info.removed_timestamp
                            is None)
                },
            },
    {
        let mut i: usize = 0;
        let n = self.transactions.len();
        while i < n
            invariant
                i <= n,
                n == self@.transactions.len(),
                forall|k: int|
                    0 <= k < i ==> !((#[trigger] self@.transactions[k]).id == Some(transaction)
                        && self@.transactions[k].meta_info.removed_timestamp is None),
            decreases n - i,
        {
            let row = &self.transactions[i];
            let matched = match row.id {
                Option::Some(x) => x == transaction,
                Option::None => false,
            };
            if matched && row.meta_info.removed_timestamp.is_none() {
                let out = row.clone();
                proof {
                    assert(self@.transactions[i as int] == out@);
                }
                return Ok(out);
            }
            i = i + 1;
        }
        Err(Error::from_message(ErrorKind::NotFound))
    }

    /// Returns all live transaction rows, sorted by posting time,
    /// newest first.
    pub fn transactions(&self) -> (r: Result<Vec<EncryptedTransaction>>)
        ensures
            r is Ok,
            r matches Ok(v) ==> v@.map_values(|t: EncryptedTransaction| t@) == self@
                .transactions.filter(live_tx()),
    {
        let mut out: Vec<EncryptedTransaction> = Vec::new();
        let mut i: usize = 0;
        let n = self.transactions.len();
        proof {
            assert(out@.map_values(|t: EncryptedTransaction| t@) =~= self@.transactions.take(
                0,
            ).filter(live_tx()));
        }
        while i < n
            invariant
                i <= n,
                n == self@.transactions.len(),
                out@.map_values(|t: EncryptedTransaction| t@) == self@.transactions.take(
                    i as int,
                ).filter(live_tx()),
            decreases n - i,
        {
            let row = &self.transactions[i];
            proof {
                lemma_filter_take_step(self@.transactions, i as int, live_tx());
            }
            if row.meta_info.removed_timestamp.is_none() {
                out.push(row.clone());
                proof {
                    assert(out@.map_values(|t: EncryptedTransaction| t@) =~= self@
                        .transactions.take(i + 1).filter(live_tx()));
                }
            }
            i = i + 1;
        }
        proof {
            assert(self@.transactions.take(n as int) =~= self@.transactions);
        }
        Ok(out)
    }

    /// Returns all live transactions inside a time window, newest first.
    pub fn transactions_between(&self, start_timestamp: Timestamp, end_timestamp: Timestamp) -> (r: Result<Vec<EncryptedTransaction>>)
        ensures
            r is Ok,
            r matches Ok(v) ==> v@.map_values(|row: EncryptedTransaction| row@) == self@.transactions.filter(tx_between(start_timestamp, end_timestamp)),
    {
        let mut out: Vec<EncryptedTransaction> = Vec::new();
        let mut i: usize = 0;
        let n = self.transactions.len();
        proof {
            assert(out@.map_values(|row: EncryptedTransaction| row@) =~= self@.transactions.take(0).filter(tx_between(start_timestamp, end_timestamp)));
        }
        while i < n
            invariant
                i <= n,
                n == self@.transactions.len(),
                out@.map_values(|row: EncryptedTransaction| row@) == self@.transactions.take(i as int).filter(tx_between(start_timestamp, end_timestamp)),
            decreases n - i,
        {
            let row = &self.transactions[i];
            proof {
                lemma_filter_take_step(self@.transactions, i as int, tx_between(start_timestamp, end_timestamp));
            }
            let cond = row.meta_info.removed_timestamp.is_none() && row.timestamp >= start_timestamp && row.timestamp < end_timestamp;
            if cond {
                out.push(row.clone());
                proof {
                    assert(out@.map_values(|row: EncryptedTransaction| row@) =~= self@.transactions.take(i + 1).filter(tx_between(start_timestamp, end_timestamp)));
                }
            }
            i = i + 1;
        }
        proof {
            assert(self@.transactions.take(n as int) =~= self@.transactions);
        }
        Ok(out)
    }

    /// Returns all live transactions of one account, newest first.
    pub fn transactions_of(&self, account: Id) -> (r: Result<Vec<EncryptedTransaction>>)
        ensures
            r is Ok,
            r matches Ok(v) ==> v@.map_values(|row: EncryptedTransaction| row@) == self@.transactions.filter(tx_of(account)),
    {
        let mut out: Vec<EncryptedTransaction> = Vec::new();
        let mut i: usize = 0;
        let n = self.transactions.len();
        proof {
            assert(out@.map_values(|row: EncryptedTransaction| row@) =~= self@.transactions.take(0).filter(tx_of(account)));
        }
        while i < n
            invariant
                i <= n,
                n == self@.transactions.len(),
                out@.map_values(|row: EncryptedTransaction| row@) == self@.transactions.take(i as int).filter(tx_of(account)),
            decreases n - i,
        {
            let row = &self.transactions[i];
            proof {
                lemma_filter_take_step(self@.transactions, i as int, tx_of(account));
            }
            let cond = row.meta_info.removed_timestamp.is_none() && row.account_id == account;
            if cond {
                out.push(row.clone());
                proof {
                    assert(out@.map_values(|row: EncryptedTransaction| row@) =~= self@.transactions.take(i + 1).filter(tx_of(account)));
                }
            }
            i = i + 1;
        }
        proof {
            assert(self@.transactions.take(n as int) =~= self@.transactions);
        }
        Ok(out)
    }

    /// Returns all live transactions of one account inside a time window, newest first.
    pub fn transactions_of_between(&self, account: Id, start_timestamp: Timestamp, end_timestamp: Timestamp) -> (r: Result<Vec<EncryptedTransaction>>)
        ensures
            r is Ok,
            r matches Ok(v) ==> v@.map_values(|row: EncryptedTransaction| row@) == self@.transactions.filter(tx_of_between(account, start_timestamp, end_timestamp)),
    {
        let mut out: Vec<EncryptedTransaction> = Vec::new();
        let mut i: usize = 0;
        let n = self.transactions.len();
        proof {
            assert(out@.map_values(|row: EncryptedTransaction| row@) =~= self@.transactions.take(0).filter(tx_of_between(account, start_timestamp, end_timestamp)));
        }
        while i < n
            invariant
                i <= n,
                n == self@.transactions.len(),
                out@.map_values(|row: EncryptedTransaction| row@) == self@.transactions.take(i as int).filter(tx_of_between(account, start_timestamp, end_timestamp)),
            decreases n - i,
        {
            let row = &self.transactions[i];
            proof {
                lemma_filter_take_step(self@.transactions, i as int, tx_of_between(account, start_timestamp, end_timestamp));
            }
            let cond = row.meta_info.removed_timestamp.is_none() && row.account_id == account && row.timestamp >= start_timestamp && row.timestamp < end_timestamp;
            if cond {
                out.push(row.clone());
                proof {
                    assert(out@.map_values(|row: EncryptedTransaction| row@) =~= self@.transactions.take(i + 1).filter(tx_of_between(account, start_timestamp, end_timestamp)));
                }
            }
            i = i + 1;
        }
        proof {
            assert(self@.transactions.take(n as int) =~= self@.transactions);
        }
        Ok(out)
    }

    /// Returns all live transactions with one category, newest first.
    pub fn transactions_with(&self, category: Id) -> (r: Result<Vec<EncryptedTransaction>>)
        ensures
            r is Ok,
            r matches Ok(v) ==> v@.map_values(|row: EncryptedTransaction| row@) == self@.transactions.filter(tx_with(category)),
    {
        let mut out: Vec<EncryptedTransaction> = Vec::new();
        let mut i: usize = 0;
        let n = self.transactions.len();
        proof {
            assert(out@.map_values(|row: EncryptedTransaction| row@) =~= self@.transactions.take(0).filter(tx_with(category)));
        }
        while i < n
            invariant
                i <= n,
                n == self@.transactions.len(),
                out@.map_values(|row: EncryptedTransaction| row@) == self@.transactions.take(i as int).filter(tx_with(category)),
            decreases n - i,
        {
            let row = &self.transactions[i];
            proof {
                lemma_filter_take_step(self@.transactions, i as int, tx_with(category));
            }
            let cond = row.meta_info.removed_timestamp.is_none() && row.category_id == category;
            if cond {
                out.push(row.clone());
                proof {
                    assert(out@.map_values(|row: EncryptedTransaction| row@) =~= self@.transactions.take(i + 1).filter(tx_with(category)));
                }
            }
            i = i + 1;
        }
        proof {
            assert(self@.transactions.take(n as int) =~= self@.transactions);
        }
        Ok(out)
    }

    /// Returns all live transactions with one category inside a time window, newest first.
    pub fn transactions_with_between(&self, category: Id, start_timestamp: Timestamp, end_timestamp: Timestamp) -> (r: Result<Vec<EncryptedTransaction>>)
        ensures
            r is Ok,
            r matches Ok(v) ==> v@.map_values(|row: EncryptedTransaction| row@) == self@.transactions.filter(tx_with_between(category, start_timestamp, end_timestamp)),
    {
        let mut out: Vec<EncryptedTransaction> = Vec::new();
        let mut i: usize = 0;
        let n = self.transactions.len();
        proof {
            assert(out@.map_values(|row: EncryptedTransaction| row@) =~= self@.transactions.take(0).filter(tx_with_between(category, start_timestamp, end_timestamp)));
        }
        while i < n
            invariant
                i <= n,
                n == self@.transactions.len(),
                out@.map_values(|row: EncryptedTransaction| row@) == self@.transactions.take(i as int).filter(tx_with_between(category, start_timestamp, end_timestamp)),
            decreases n - i,
        {
            let row = &self.transactions[i];
            proof {
                lemma_filter_take_step(self@.transactions, i as int, tx_with_between(category, start_timestamp, end_timestamp));
            }
            let cond = row.meta_info.removed_timestamp.is_none() && row.category_id == category && row.timestamp >= start_timestamp && row.timestamp < end_timestamp;
            if cond {
                out.push(row.clone());
                proof {
                    assert(out@.map_values(|row: EncryptedTransaction| row@) =~= self@.transactions.take(i + 1).filter(tx_with_between(category, start_timestamp, end_timestamp)));
                }
            }
            i = i + 1;
        }
        proof {
            assert(self@.transactions.take(n as int) =~= self@.transactions);
        }
        Ok(out)
    }

    /// Returns all transaction rows created after a point in time, tombstones included.
    pub fn transactions_added_since(&self, base: Timestamp) -> (r: Result<Vec<EncryptedTransaction>>)
        ensures
            r is Ok,
            r matches Ok(v) ==> v@.map_values(|row: EncryptedTransaction| row@) == self@.transactions.filter(tx_added_since(base)),
    {
        let mut out: Vec<EncryptedTransaction> = Vec::new();
        let mut i: usize = 0;
        let n = self.transactions.len();
        proof {
            assert(out@.map_values(|row: EncryptedTransaction| row@) =~= self@.transactions.take(0).filter(tx_added_since(base)));
        }
        while i < n
            invariant
                i <= n,
                n == self@.transactions.len(),
                out@.map_values(|row: EncryptedTransaction| row@) == self@.transactions.take(i as int).filter(tx_added_since(base)),
            decreases n - i,
        {
            let row = &self.transactions[i];
            proof {
                lemma_filter_take_step(self@.transactions, i as int, tx_added_since(base));
            }
            let cond = match row.meta_info.added_timestamp { Option::Some(x) => x > base, Option::None => false };
            if cond {
                out.push(row.clone());
                proof {
                    assert(out@.map_values(|row: EncryptedTransaction| row@) =~= self@.transactions.take(i + 1).filter(tx_added_since(base)));
                }
            }
            i = i + 1;
        }
        proof {
            assert(self@.transactions.take(n as int) =~= self@.transactions);
        }
        Ok(out)
    }

    /// Returns all transaction rows changed after a point in time.
    pub fn transactions_changed_since(&self, base: Timestamp) -> (r: Result<Vec<EncryptedTransaction>>)
        ensures
            r is Ok,
            r matches Ok(v) ==> v@.map_values(|row: EncryptedTransaction| row@) == self@.transactions.filter(tx_changed_since(base)),
    {
        let mut out: Vec<EncryptedTransaction> = Vec::new();
        let mut i: usize = 0;
        let n = self.transactions.len();
        proof {
            assert(out@.map_values(|row: EncryptedTransaction| row@) =~= self@.transactions.take(0).filter(tx_changed_since(base)));
        }
        while i < n
            invariant
                i <= n,
                n == self@.transactions.len(),
                out@.map_values(|row: EncryptedTransaction| row@) == self@.transactions.take(i as int).filter(tx_changed_since(base)),
            decreases n - i,
        {
            let row = &self.transactions[i];
            proof {
                lemma_filter_take_step(self@.transactions, i as int, tx_changed_since(base));
            }
            let cond = match row.meta_info.changed_timestamp { Option::Some(x) => x > base, Option::None => false };
            if cond {
                out.push(row.clone());
                proof {
                    assert(out@.map_values(|row: EncryptedTransaction| row@) =~= self@.transactions.take(i + 1).filter(tx_changed_since(base)));
                }
            }
            i = i + 1;
        }
        proof {
            assert(self@.transactions.take(n as int) =~= self@.transactions);
        }
        Ok(out)
    }

    /// Returns all transaction rows removed after a point in time.
    pub fn transactions_removed_since(&self, base: Timestamp) -> (r: Result<Vec<EncryptedTransaction>>)
        ensures
            r is Ok,
            r matches Ok(v) ==> v@.map_values(|row: EncryptedTransaction| row@) == self@.transactions.filter(tx_removed_since(base)),
    {
        let mut out: Vec<EncryptedTransaction> = Vec::new();
        let mut i: usize = 0;
        let n = self.transactions.len();
        proof {
            assert(out@.map_values(|row: EncryptedTransaction| row@) =~= self@.transactions.take(0).filter(tx_removed_since(base)));
        }
        while i < n
            invariant
                i <= n,
                n == self@.transactions.len(),
                out@.map_values(|row: EncryptedTransaction| row@) == self@.transactions.take(i as int).filter(tx_removed_since(base)),
            decreases n - i,
        {
            let row = &self.transactions[i];
            proof {
                lemma_filter_take_step(self@.transactions, i as int, tx_removed_since(base));
            }
            let cond = match row.meta_info.removed_timestamp { Option::Some(x) => x > base, Option::None => false };
            if cond {
                out.push(row.clone());
                proof {
                    assert(out@.map_values(|row: EncryptedTransaction| row@) =~= self@.transactions.take(i + 1).filter(tx_removed_since(base)));
                }
            }
            i = i + 1;
        }
        proof {
            assert(self@.transactions.take(n as int) =~= self@.transactions);
        }
        Ok(out)
    }

    /// Returns all live accounts.
    pub fn accounts(&self) -> (r: Result<Vec<EncryptedAccount>>)
        ensures
            r is Ok,
            r matches Ok(v) ==> v@.map_values(|row: EncryptedAccount| row@) == self@.accounts.filter(live_account()),
    {
        let mut out: Vec<EncryptedAccount> = Vec::new();
        let mut i: usize = 0;
        let n = self.accounts.len();
        proof {
            assert(out@.map_values(|row: EncryptedAccount| row@) =~= self@.accounts.take(0).filter(live_account()));
        }
        while i < n
            invariant
                i <= n,
                n == self@.accounts.len(),
                out@.map_values(|row: EncryptedAccount| row@) == self@.accounts.take(i as int).filter(live_account()),
            decreases n - i,
        {
            let row = &self.accounts[i];
            proof {
                lemma_filter_take_step(self@.accounts, i as int, live_account());
            }
            let cond = row.meta_info.removed_timestamp.is_none();
            if cond {
                out.push(row.clone());
                proof {
                    assert(out@.map_values(|row: EncryptedAccount| row@) =~= self@.accounts.take(i + 1).filter(live_account()));
                }
            }
            i = i + 1;
        }
        proof {
            assert(self@.accounts.take(n as int) =~= self@.accounts);
        }
        Ok(out)
    }

    /// Returns all account rows created after a point in time, tombstones included.
    pub fn accounts_added_since(&self, base: Timestamp) -> (r: Result<Vec<EncryptedAccount>>)
        ensures
            r is Ok,
            r matches Ok(v) ==> v@.map_values(|row: EncryptedAccount| row@) == self@.accounts.filter(account_added_since(base)),
    {
        let mut out: Vec<EncryptedAccount> = Vec::new();
        let mut i: usize = 0;
        let n = self.accounts.len();
        proof {
            assert(out@.map_values(|row: EncryptedAccount| row@) =~= self@.accounts.take(0).filter(account_added_since(base)));
        }
        while i < n
            invariant
                i <= n,
                n == self@.accounts.len(),
                out@.map_values(|row: EncryptedAccount| row@) == self@.accounts.take(i as int).filter(account_added_since(base)),
            decreases n - i,
        {
            let row = &self.accounts[i];
            proof {
                lemma_filter_take_step(self@.accounts, i as int, account_added_since(base));
            }
            let cond = match row.meta_info.added_timestamp { Option::Some(x) => x > base, Option::None => false };
            if cond {
                out.push(row.clone());
                proof {
                    assert(out@.map_values(|row: EncryptedAccount| row@) =~= self@.accounts.take(i + 1).filter(account_added_since(base)));
                }
            }
            i = i + 1;
        }
        proof {
            assert(self@.accounts.take(n as int) =~= self@.accounts);
        }
        Ok(out)
    }

    /// Returns all account rows changed after a point in time.
    pub fn accounts_changed_since(&self, base: Timestamp) -> (r: Result<Vec<EncryptedAccount>>)
        ensures
            r is Ok,
            r matches Ok(v) ==> v@.map_values(|row: EncryptedAccount| row@) == self@.accounts.filter(account_changed_since(base)),
    {
        let mut out: Vec<EncryptedAccount> = Vec::new();
        let mut i: usize = 0;
        let n = self.accounts.len();
        proof {
            assert(out@.map_values(|row: EncryptedAccount| row@) =~= self@.accounts.take(0).filter(account_changed_since(base)));
        }
        while i < n
            invariant
                i <= n,
                n == self@.accounts.len(),
                out@.map_values(|row: EncryptedAccount| row@) == self@.accounts.take(i as int).filter(account_changed_since(base)),
            decreases n - i,
        {
            let row = &self.accounts[i];
            proof {
                lemma_filter_take_step(self@.accounts, i as int, account_changed_since(base));
            }
            let cond = match row.meta_info.changed_timestamp { Option::Some(x) => x > base, Option::None => false };
            if cond {
                out.push(row.clone());
                proof {
                    assert(out@.map_values(|row: EncryptedAccount| row@) =~= self@.accounts.take(i + 1).filter(account_changed_since(base)));
                }
            }
            i = i + 1;
        }
        proof {
            assert(self@.accounts.take(n as int) =~= self@.accounts);
        }
        Ok(out)
    }

    /// Returns all account rows removed after a point in time.
    pub fn accounts_removed_since(&self, base: Timestamp) -> (r: Result<Vec<EncryptedAccount>>)
        ensures
            r is Ok,
            r matches Ok(v) ==> v@.map_values(|row: EncryptedAccount| row@) == self@.accounts.filter(account_removed_since(base)),
    {
        let mut out: Vec<EncryptedAccount> = Vec::new();
        let mut i: usize = 0;
        let n = self.accounts.len();
        proof {
            assert(out@.map_values(|row: EncryptedAccount| row@) =~= self@.accounts.take(0).filter(account_removed_since(base)));
        }
        while i < n
            invariant
                i <= n,
                n == self@.accounts.len(),
                out@.map_values(|row: EncryptedAccount| row@) == self@.accounts.take(i as int).filter(account_removed_since(base)),
            decreases n - i,
        {
            let row = &self.accounts[i];
            proof {
                lemma_filter_take_step(self@.accounts, i as int, account_removed_since(base));
            }
            let cond = match row.meta_info.removed_timestamp { Option::Some(x) => x > base, Option::None => false };
            if cond {
                out.push(row.clone());
                proof {
                    assert(out@.map_values(|row: EncryptedAccount| row@) =~= self@.accounts.take(i + 1).filter(account_removed_since(base)));
                }
            }
            i = i + 1;
        }
        proof {
            assert(self@.accounts.take(n as int) =~= self@.accounts);
        }
        Ok(out)
    }

    /// Returns all live categories.
    pub fn categories(&self) -> (r: Result<Vec<EncryptedCategory>>)
        ensures
            r is Ok,
            r matches Ok(v) ==> v@.map_values(|row: EncryptedCategory| row@) == self@.categories.filter(live_category()),
    {
        let mut out: Vec<EncryptedCategory> = Vec::new();
        let mut i: usize = 0;
        let n = self.categories.len();
        proof {
            assert(out@.map_values(|row: EncryptedCategory| row@) =~= self@.categories.take(0).filter(live_category()));
        }
        while i < n
            invariant
                i <= n,
                n == self@.categories.len(),
                out@.map_values(|row: EncryptedCategory| row@) == self@.categories.take(i as int).filter(live_category()),
            decreases n - i,
        {
            let row = &self.categories[i];
            proof {
                lemma_filter_take_step(self@.categories, i as int, live_category());
            }
            let cond = row.meta_info.removed_timestamp.is_none();
            if cond {
                out.push(row.clone());
                proof {
                    assert(out@.map_values(|row: EncryptedCategory| row@) =~= self@.categories.take(i + 1).filter(live_category()));
                }
            }
            i = i + 1;
        }
        proof {
            assert(self@.categories.take(n as int) =~= self@.categories);
        }
        Ok(out)
    }

    /// Returns all live categories of one type.
    pub fn categories_of(&self, category_type: CategoryType) -> (r: Result<Vec<EncryptedCategory>>)
        ensures
            r is Ok,
            r matches Ok(v) ==> v@.map_values(|row: EncryptedCategory| row@) == self@.categories.filter(category_of(category_type)),
    {
        let mut out: Vec<EncryptedCategory> = Vec::new();
        let mut i: usize = 0;
        let n = self.categories.len();
        proof {
            assert(out@.map_values(|row: EncryptedCategory| row@) =~= self@.categories.take(0).filter(category_of(category_type)));
        }
        while i < n
            invariant
                i <= n,
                n == self@.categories.len(),
                out@.map_values(|row: EncryptedCategory| row@) == self@.categories.take(i as int).filter(category_of(category_type)),
            decreases n - i,
        {
            let row = &self.categories[i];
            proof {
                lemma_filter_take_step(self@.categories, i as int, category_of(category_type));
            }
            let cond = row.meta_info.removed_timestamp.is_none() && row.category_type == category_type;
            if cond {
                out.push(row.clone());
                proof {
                    assert(out@.map_values(|row: EncryptedCategory| row@) =~= self@.categories.take(i + 1).filter(category_of(category_type)));
                }
            }
            i = i + 1;
        }
        proof {
            assert(self@.categories.take(n as int) =~= self@.categories);
        }
        Ok(out)
    }

    /// Returns all category rows created after a point in time, tombstones included.
    pub fn categories_added_since(&self, base: Timestamp) -> (r: Result<Vec<EncryptedCategory>>)
        ensures
            r is Ok,
            r matches Ok(v) ==> v@.map_values(|row: EncryptedCategory| row@) == self@.categories.filter(category_added_since(base)),
    {
        let mut out: Vec<EncryptedCategory> = Vec::new();
        let mut i: usize = 0;
        let n = self.categories.len();
        proof {
            assert(out@.map_values(|row: EncryptedCategory| row@) =~= self@.categories.take(0).filter(category_added_since(base)));
        }
        while i < n
            invariant
                i <= n,
                n == self@.categories.len(),
                out@.map_values(|row: EncryptedCategory| row@) == self@.categories.take(i as int).filter(category_added_since(base)),
            decreases n - i,
        {
            let row = &self.categories[i];
            proof {
                lemma_filter_take_step(self@.categories, i as int, category_added_since(base));
            }
            let cond = match row.meta_info.added_timestamp { Option::Some(x) => x > base, Option::None => false };
            if cond {
                out.push(row.clone());
                proof {
                    assert(out@.map_values(|row: EncryptedCategory| row@) =~= self@.categories.take(i + 1).filter(category_added_since(base)));
                }
            }
            i = i + 1;
        }
        proof {
            assert(self@.categories.take(n as int) =~= self@.categories);
        }
        Ok(out)
    }

    /// Returns all category rows changed after a point in time.
    pub fn categories_changed_since(&self, base: Timestamp) -> (r: Result<Vec<EncryptedCategory>>)
        ensures
            r is Ok,
            r matches Ok(v) ==> v@.map_values(|row: EncryptedCategory| row@) == self@.categories.filter(category_changed_since(base)),
    {
        let mut out: Vec<EncryptedCategory> = Vec::new();
        let mut i: usize = 0;
        let n = self.categories.len();
        proof {
            assert(out@.map_values(|row: EncryptedCategory| row@) =~= self@.categories.take(0).filter(category_changed_since(base)));
        }
        while i < n
            invariant
                i <= n,
                n == self@.categories.len(),
                out@.map_values(|row: EncryptedCategory| row@) == self@.categories.take(i as int).filter(category_changed_since(base)),
            decreases n - i,
        {
            let row = &self.categories[i];
            proof {
                lemma_filter_take_step(self@.categories, i as int, category_changed_since(base));
            }
            let cond = match row.meta_info.changed_timestamp { Option::Some(x) => x > base, Option::None => false };
            if cond {
                out.push(row.clone());
                proof {
                    assert(out@.map_values(|row: EncryptedCategory| row@) =~= self@.categories.take(i + 1).filter(category_changed_since(base)));
                }
            }
            i = i + 1;
        }
        proof {
            assert(self@.categories.take(n as int) =~= self@.categories);
        }
        Ok(out)
    }

    /// Returns all category rows removed after a point in time.
    pub fn categories_removed_since(&self, base: Timestamp) -> (r: Result<Vec<EncryptedCategory>>)
        ensures
            r is Ok,
            r matches Ok(v) ==> v@.map_values(|row: EncryptedCategory| row@) == self@.categories.filter(category_removed_since(base)),
    {
        let mut out: Vec<EncryptedCategory> = Vec::new();
        let mut i: usize = 0;
        let n = self.categories.len();
        proof {
            assert(out@.map_values(|row: EncryptedCategory| row@) =~= self@.categories.take(0).filter(category_removed_since(base)));
        }
        while i < n
            invariant
                i <= n,
                n == self@.categories.len(),
                out@.map_values(|row: EncryptedCategory| row@) == self@.categories.take(i as int).filter(category_removed_since(base)),
            decreases n - i,
        {
            let row = &self.categories[i];
            proof {
                lemma_filter_take_step(self@.categories, i as int, category_removed_since(base));
            }
            let cond = match row.meta_info.removed_timestamp { Option::Some(x) => x > base, Option::None => false };
            if cond {
                out.push(row.clone());
                proof {
                    assert(out@.map_values(|row: EncryptedCategory| row@) =~= self@.categories.take(i + 1).filter(category_removed_since(base)));
                }
            }
            i = i + 1;
        }
        proof {
            assert(self@.categories.take(n as int) =~= self@.categories);
        }
        Ok(out)
    }

    /// Returns all live plans.
    pub fn plans(&self) -> (r: Result<Vec<EncryptedPlan>>)
        ensures
            r is Ok,
            r matches Ok(v) ==> v@.map_values(|row: EncryptedPlan| row@) == self@.plans.filter(live_plan()),
    {
        let mut out: Vec<EncryptedPlan> = Vec::new();
        let mut i: usize = 0;
        let n = self.plans.len();
        proof {
            assert(out@.map_values(|row: EncryptedPlan| row@) =~= self@.plans.take(0).filter(live_plan()));
        }
        while i < n
            invariant
                i <= n,
                n == self@.plans.len(),
                out@.map_values(|row: EncryptedPlan| row@) == self@.plans.take(i as int).filter(live_plan()),
            decreases n - i,
        {
            let row = &self.plans[i];
            proof {
                lemma_filter_take_step(self@.plans, i as int, live_plan());
            }
            let cond = row.meta_info.removed_timestamp.is_none();
            if cond {
                out.push(row.clone());
                proof {
                    assert(out@.map_values(|row: EncryptedPlan| row@) =~= self@.plans.take(i + 1).filter(live_plan()));
                }
            }
            i = i + 1;
        }
        proof {
            assert(self@.plans.take(n as int) =~= self@.plans);
        }
        Ok(out)
    }

    /// Returns all live plans of one category.
    pub fn plans_for(&self, category: Id) -> (r: Result<Vec<EncryptedPlan>>)
        ensures
            r is Ok,
            r matches Ok(v) ==> v@.map_values(|row: EncryptedPlan| row@) == self@.plans.filter(plan_for(category)),
    {
        let mut out: Vec<EncryptedPlan> = Vec::new();
        let mut i: usize = 0;
        let n = self.plans.len();
        proof {
            assert(out@.map_values(|row: EncryptedPlan| row@) =~= self@.plans.take(0).filter(plan_for(category)));
        }
        while i < n
            invariant
                i <= n,
                n == self@.plans.len(),
                out@.map_values(|row: EncryptedPlan| row@) == self@.plans.take(i as int).filter(plan_for(category)),
            decreases n - i,
        {
            let row = &self.plans[i];
            proof {
                lemma_filter_take_step(self@.plans, i as int, plan_for(category));
            }
            let cond = row.meta_info.removed_timestamp.is_none() && row.category_id == category;
            if cond {
                out.push(row.clone());
                proof {
                    assert(out@.map_values(|row: EncryptedPlan| row@) =~= self@.plans.take(i + 1).filter(plan_for(category)));
                }
            }
            i = i + 1;
        }
        proof {
            assert(self@.plans.take(n as int) =~= self@.plans);
        }
        Ok(out)
    }

    /// Returns all plan rows created after a point in time, tombstones included.
    pub fn plans_added_since(&self, base: Timestamp) -> (r: Result<Vec<EncryptedPlan>>)
        ensures
            r is Ok,
            r matches Ok(v) ==> v@.map_values(|row: EncryptedPlan| row@) == self@.plans.filter(plan_added_since(base)),
    {
        let mut out: Vec<EncryptedPlan> = Vec::new();
        let mut i: usize = 0;
        let n = self.plans.len();
        proof {
            assert(out@.map_values(|row: EncryptedPlan| row@) =~= self@.plans.take(0).filter(plan_added_since(base)));
        }
        while i < n
            invariant
                i <= n,
                n == self@.plans.len(),
                out@.map_values(|row: EncryptedPlan| row@) == self@.plans.take(i as int).filter(plan_added_since(base)),
            decreases n - i,
        {
            let row = &self.plans[i];
            proof {
                lemma_filter_take_step(self@.plans, i as int, plan_added_since(base));
            }
            let cond = match row.meta_info.added_timestamp { Option::Some(x) => x > base, Option::None => false };
            if cond {
                out.push(row.clone());
                proof {
                    assert(out@.map_values(|row: EncryptedPlan| row@) =~= self@.plans.take(i + 1).filter(plan_added_since(base)));
                }
            }
            i = i + 1;
        }
        proof {
            assert(self@.plans.take(n as int) =~= self@.plans);
        }
        Ok(out)
    }

    /// Returns all plan rows changed after a point in time.
    pub fn plans_changed_since(&self, base: Timestamp) -> (r: Result<Vec<EncryptedPlan>>)
        ensures
            r is Ok,
            r matches Ok(v) ==> v@.map_values(|row: EncryptedPlan| row@) == self@.plans.filter(plan_changed_since(base)),
    {
        let mut out: Vec<EncryptedPlan> = Vec::new();
        let mut i: usize = 0;
        let n = self.plans.len();
        proof {
            assert(out@.map_values(|row: EncryptedPlan| row@) =~= self@.plans.take(0).filter(plan_changed_since(base)));
        }
        while i < n
            invariant
                i <= n,
                n == self@.plans.len(),
                out@.map_values(|row: EncryptedPlan| row@) == self@.plans.take(i as int).filter(plan_changed_since(base)),
            decreases n - i,
        {
            let row = &self.plans[i];
            proof {
                lemma_filter_take_step(self@.plans, i as int, plan_changed_since(base));
            }
            let cond = match row.meta_info.changed_timestamp { Option::Some(x) => x > base, Option::None => false };
            if cond {
                out.push(row.clone());
                proof {
                    assert(out@.map_values(|row: EncryptedPlan| row@) =~= self@.plans.take(i + 1).filter(plan_changed_since(base)));
                }
            }
            i = i + 1;
        }
        proof {
            assert(self@.plans.take(n as int) =~= self@.plans);
        }
        Ok(out)
    }

    /// Returns all plan rows removed after a point in time.
    pub fn plans_removed_since(&self, base: Timestamp) -> (r: Result<Vec<EncryptedPlan>>)
        ensures
            r is Ok,
            r matches Ok(v) ==> v@.map_values(|row: EncryptedPlan| row@) == self@.plans.filter(plan_removed_since(base)),
    {
        let mut out: Vec<EncryptedPlan> = Vec::new();
        let mut i: usize = 0;
        let n = self.plans.len();
        proof {
            assert(out@.map_values(|row: EncryptedPlan| row@) =~= self@.plans.take(0).filter(plan_removed_since(base)));
        }
        while i < n
            invariant
                i <= n,
                n == self@.plans.len(),
                out@.map_values(|row: EncryptedPlan| row@) == self@.plans.take(i as int).filter(plan_removed_since(base)),
            decreases n - i,
        {
            let row = &self.plans[i];
            proof {
                lemma_filter_take_step(self@.plans, i as int, plan_removed_since(base));
            }
            let cond = match row.meta_info.removed_timestamp { Option::Some(x) => x > base, Option::None => false };
            if cond {
                out.push(row.clone());
                proof {
                    assert(out@.map_values(|row: EncryptedPlan| row@) =~= self@.plans.take(i + 1).filter(plan_removed_since(base)));
                }
            }
            i = i + 1;
        }
        proof {
            assert(self@.plans.take(n as int) =~= self@.plans);
        }
        Ok(out)
    }
    /// Whether a account row with this id exists, live or removed.
    fn account_id_exists(&self, id: &Id) -> (r: bool)
        ensures
            r == account_id_taken(self@.accounts, *id),
    {
        let mut i: usize = 0;
        let n = self.accounts.len();
        while i < n
            invariant
                i <= n,
                n == self@.accounts.len(),
                forall|k: int| 0 <= k < i ==> (#[trigger] self@.accounts[k]).id != Some(*id),
            decreases n - i,
        {
            let matched = match self.accounts[i].id {
                Option::Some(x) => x == *id,
                Option::None => false,
            };
            if matched {
                proof {
                    assert(self@.accounts[i as int].id == Some(*id));
                }
                return true;
            }
            i = i + 1;
        }
        false
    }

    /// Whether a category row with this id exists, live or removed.
    fn category_id_exists(&self, id: &Id) -> (r: bool)
        ensures
            r == category_id_taken(self@.categories, *id),
    {
        let mut i: usize = 0;
        let n = self.categories.len();
        while i < n
            invariant
                i <= n,
                n == self@.categories.len(),
                forall|k: int| 0 <= k < i ==> (#[trigger] self@.categories[k]).id != Some(*id),
            decreases n - i,
        {
            let matched = match self.categories[i].id {
                Option::Some(x) => x == *id,
                Option::None => false,
            };
            if matched {
                proof {
                    assert(self@.categories[i as int].id == Some(*id));
                }
                return true;
            }
            i = i + 1;
        }
        false
    }

    /// Whether a plan row with this id exists, live or removed.
    fn plan_id_exists(&self, id: &Id) -> (r: bool)
        ensures
            r == plan_id_taken(self@.plans, *id),
    {
        let mut i: usize = 0;
        let n = self.plans.len();
        while i < n
            invariant
                i <= n,
                n == self@.plans.len(),
                forall|k: int| 0 <= k < i ==> (#[trigger] self@.plans[k]).id != Some(*id),
            decreases n - i,
        {
            let matched = match self.plans[i].id {
                Option::Some(x) => x == *id,
                Option::None => false,
            };
            if matched {
                proof {
                    assert(self@.plans[i as int].id == Some(*id));
                }
                return true;
            }
            i = i + 1;
        }
        false
    }

    /// Adds a new account row.
    ///
    /// The row must carry a creation timestamp; a row without an id is
    /// assigned a fresh random one. Fails when the id is already taken.
    pub fn add_account(&mut self, account: EncryptedAccount) -> (r: Result<()>)
        requires
            old(self).wf(),
        ensures
            final(self).wf(),
            final(self)@.transactions == old(self)@.transactions,
            final(self)@.categories == old(self)@.categories,
            final(self)@.plans == old(self)@.plans,
            match r {
                Ok(_) => exists|id: Id|
                    {
                        &&& (account@.id is Some ==> account@.id == Some(id))
                        &&& !account_id_taken(old(self)@.accounts, id)
                        &&& final(self)@.accounts == #[trigger] old(self)@.accounts.push(
                            account_row_inserted(account@, id),
                        )
                    },
                Err(e) => {
                    &&& final(self)@.accounts == old(self)@.accounts
                    &&& (e.kind == ErrorKind::Malformed <==> account@.meta_info.added_timestamp
                        is None)
                    &&& (account@.meta_info.added_timestamp is Some ==> e.kind
                        == ErrorKind::ConsistencyViolation)
                },
            },
            account@.meta_info.added_timestamp is Some && (account@.id matches Some(id)
                && !account_id_taken(old(self)@.accounts, id)) ==> r is Ok,
    {
        if account.meta_info.added_timestamp.is_none() {
            return Err(Error::from_message(ErrorKind::Malformed));
        }
        let id = match account.id {
            Option::Some(id) => id,
            Option::None => random_id(),
        };
        if self.account_id_exists(&id) {
            return Err(Error::from_message(ErrorKind::ConsistencyViolation));
        }
        let row = EncryptedAccount { id: Some(id), name: account.name, balance: account.balance, initial_balance: account.initial_balance, meta_info: MetaInfo { changed_timestamp: None, removed_timestamp: None, ..account.meta_info } };
        let ghost pre = self@.accounts;
        self.accounts.push(row);
        proof {
            assert(self@.accounts =~= pre.push(account_row_inserted(account@, id)));
            let s = self@.accounts;
            assert forall|i: int, j: int| 0 <= i < j < s.len() implies s[i].id != s[j].id by {
                if j == s.len() - 1 {
                    assert(s[i] == pre[i]);
                } else {
                    assert(s[i] == pre[i] && s[j] == pre[j]);
                }
            }
            assert forall|i: int|
                0 <= i < s.len() implies (#[trigger] s[i]).id is Some
                && s[i].meta_info.added_timestamp is Some by {
                if i < s.len() - 1 {
                    assert(s[i] == pre[i]);
                }
            }
        }
        Ok(())
    }

    /// Adds a new category row.
    ///
    /// The row must carry a creation timestamp; a row without an id is
    /// assigned a fresh random one. Fails when the id is already taken.
    pub fn add_category(&mut self, category: EncryptedCategory) -> (r: Result<()>)
        requires
            old(self).wf(),
        ensures
            final(self).wf(),
            final(self)@.transactions == old(self)@.transactions,
            final(self)@.accounts == old(self)@.accounts,
            final(self)@.plans == old(self)@.plans,
            match r {
                Ok(_) => exists|k: int, id: Id|
                    {
                        &&& 0 <= k <= old(self)@.categories.len()
                        &&& (category@.id is Some ==> category@.id == Some(id))
                        &&& !category_id_taken(old(self)@.categories, id)
                        &&& final(self)@.categories == #[trigger] old(self)@.categories.insert(
                            k,
                            category_row_inserted(category@, id),
                        )
                    },
                Err(e) => {
                    &&& final(self)@.categories == old(self)@.categories
                    &&& (e.kind == ErrorKind::Malformed <==> category@.meta_info.added_timestamp
                        is None)
                    &&& (category@.meta_info.added_timestamp is Some ==> e.kind
                        == ErrorKind::ConsistencyViolation)
                },
            },
            category@.meta_info.added_timestamp is Some && (category@.id matches Some(id)
                && !category_id_taken(old(self)@.categories, id)) ==> r is Ok,
    {
        if category.meta_info.added_timestamp.is_none() {
            return Err(Error::from_message(ErrorKind::Malformed));
        }
        let id = match category.id {
            Option::Some(id) => id,
            Option::None => random_id(),
        };
        if self.category_id_exists(&id) {
            return Err(Error::from_message(ErrorKind::ConsistencyViolation));
        }
        let row = EncryptedCategory { id: Some(id), name: category.name, category_type: category.category_type, meta_info: MetaInfo { changed_timestamp: None, removed_timestamp: None, ..category.meta_info } };
        let mut k: usize = 0;
        let n = self.categories.len();
        while k < n && (self.categories[k].category_type == CategoryType::Income
            || row.category_type == CategoryType::Outcome)
            invariant
                k <= n,
                n == self@.categories.len(),
                forall|j: int|
                    0 <= j < k ==> kind_le(
                        (#[trigger] self@.categories[j]).category_type,
                        row@.category_type,
                    ),
            decreases n - k,
        {
            k = k + 1;
        }
        proof {
            self@.categories.insert_ensures(k as int, row@);
        }
        let ghost pre = self@.categories;
        self.categories.insert(k, row);
        proof {
            assert(self@.categories =~= pre.insert(k as int, category_row_inserted(category@, id)));
            let s = self@.categories;
            let ki = k as int;
            assert forall|i: int, j: int|
                0 <= i <= j < s.len() implies kind_le(
                (#[trigger] s[i]).category_type,
                (#[trigger] s[j]).category_type,
            ) by {
                assert(category_sorted(pre));
                if i < ki {
                    assert(s[i] == pre[i]);
                } else if i == ki {
                    assert(s[i] == row@);
                } else {
                    assert(s[i] == pre[i - 1]);
                }
                if j < ki {
                    assert(s[j] == pre[j]);
                } else if j == ki {
                    assert(s[j] == row@);
                } else {
                    assert(s[j] == pre[j - 1]);
                }
                if ki < pre.len() {
                    assert(!kind_le(pre[ki].category_type, row@.category_type));
                }
            }
            assert forall|i: int, j: int| 0 <= i < j < s.len() implies s[i].id != s[j].id by {
                if i < ki {
                    assert(s[i] == pre[i]);
                } else if i == ki {
                    assert(s[i] == row@);
                } else {
                    assert(s[i] == pre[i - 1]);
                }
                if j < ki {
                    assert(s[j] == pre[j]);
                } else if j == ki {
                    assert(s[j] == row@);
                } else {
                    assert(s[j] == pre[j - 1]);
                }
            }
            assert forall|i: int|
                0 <= i < s.len() implies (#[trigger] s[i]).id is Some
                && s[i].meta_info.added_timestamp is Some by {
                if i < ki {
                    assert(s[i] == pre[i]);
                } else if i > ki {
                    assert(s[i] == pre[i - 1]);
                }
            }
        }
        Ok(())
    }

    /// Adds a new plan row.
    ///
    /// The row must carry a creation timestamp; a row without an id is
    /// assigned a fresh random one. Fails when the id is already taken.
    pub fn add_plan(&mut self, plan: EncryptedPlan) -> (r: Result<()>)
        requires
            old(self).wf(),
        ensures
            final(self).wf(),
            final(self)@.transactions == old(self)@.transactions,
            final(self)@.accounts == old(self)@.accounts,
            final(self)@.categories == old(self)@.categories,
            match r {
                Ok(_) => exists|k: int, id: Id|
                    {
                        &&& 0 <= k <= old(self)@.plans.len()
                        &&& (plan@.id is Some ==> plan@.id == Some(id))
                        &&& !plan_id_taken(old(self)@.plans, id)
                        &&& final(self)@.plans == #[trigger] old(self)@.plans.insert(
                            k,
                            plan_row_inserted(plan@, id),
                        )
                    },
                Err(e) => {
                    &&& final(self)@.plans == old(self)@.plans
                    &&& (e.kind == ErrorKind::Malformed <==> plan@.meta_info.added_timestamp
                        is None)
                    &&& (plan@.meta_info.added_timestamp is Some ==> e.kind
                        == ErrorKind::ConsistencyViolation)
                },
            },
            plan@.meta_info.added_timestamp is Some && (plan@.id matches Some(id)
                && !plan_id_taken(old(self)@.plans, id)) ==> r is Ok,
    {
        if plan.meta_info.added_timestamp.is_none() {
            return Err(Error::from_message(ErrorKind::Malformed));
        }
        let id = match plan.id {
            Option::Some(id) => id,
            Option::None => random_id(),
        };
        if self.plan_id_exists(&id) {
            return Err(Error::from_message(ErrorKind::ConsistencyViolation));
        }
        let row = EncryptedPlan { id: Some(id), category_id: plan.category_id, name: plan.name, amount_limit: plan.amount_limit, meta_info: MetaInfo { changed_timestamp: None, removed_timestamp: None, ..plan.meta_info } };
        let mut k: usize = 0;
        let n = self.plans.len();
        while k < n && (self.plans[k].category_id.a < row.category_id.a || (
        self.plans[k].category_id.a == row.category_id.a && self.plans[k].category_id.b
            <= row.category_id.b))
            invariant
                k <= n,
                n == self@.plans.len(),
                forall|j: int|
                    0 <= j < k ==> id_le(
                        (#[trigger] self@.plans[j]).category_id,
                        row@.category_id,
                    ),
            decreases n - k,
        {
            k = k + 1;
        }
        proof {
            self@.plans.insert_ensures(k as int, row@);
        }
        let ghost pre = self@.plans;
        self.plans.insert(k, row);
        proof {
            assert(self@.plans =~= pre.insert(k as int, plan_row_inserted(plan@, id)));
            let s = self@.plans;
            let ki = k as int;
            assert forall|i: int, j: int|
                0 <= i <= j < s.len() implies id_le(
                (#[trigger] s[i]).category_id,
                (#[trigger] s[j]).category_id,
            ) by {
                assert(plan_sorted(pre));
                if i < ki {
                    assert(s[i] == pre[i]);
                } else if i == ki {
                    assert(s[i] == row@);
                } else {
                    assert(s[i] == pre[i - 1]);
                }
                if j < ki {
                    assert(s[j] == pre[j]);
                } else if j == ki {
                    assert(s[j] == row@);
                } else {
                    assert(s[j] == pre[j - 1]);
                }
                if ki < pre.len() {
                    assert(!id_le(pre[ki].category_id, row@.category_id));
                }
            }
            assert forall|i: int, j: int| 0 <= i < j < s.len() implies s[i].id != s[j].id by {
                if i < ki {
                    assert(s[i] == pre[i]);
                } else if i == ki {
                    assert(s[i] == row@);
                } else {
                    assert(s[i] == pre[i - 1]);
                }
                if j < ki {
                    assert(s[j] == pre[j]);
                } else if j == ki {
                    assert(s[j] == row@);
                } else {
                    assert(s[j] == pre[j - 1]);
                }
            }
            assert forall|i: int|
                0 <= i < s.len() implies (#[trigger] s[i]).id is Some
                && s[i].meta_info.added_timestamp is Some by {
                if i < ki {
                    assert(s[i] == pre[i]);
                } else if i > ki {
                    assert(s[i] == pre[i - 1]);
                }
            }
        }
        Ok(())
    }

    /// Returns the live account row with this id.
    pub fn account(&self, account: Id) -> (r: Result<EncryptedAccount>)
        ensures
            match r {
                Ok(v) => exists|i: int|
                    {
                        &&& 0 <= i < self@.accounts.len()
                        &&& (#[trigger] self@.accounts[i]) == v@
                        &&& v@.id == Some(account)
                        &&& v@.meta_info.removed_timestamp is None
                    },
                Err(e) => {
                    &&& e.kind == ErrorKind::NotFound
                    &&& forall|i: int|
                        0 <= i < self@.accounts.len() ==> !((#[trigger] self@.accounts[i]).id
                            == Some(account) && self@.accounts[i].meta_info.removed_timestamp
                            is None)
                },
            },
    {
        let mut i: usize = 0;
        let n = self.accounts.len();
        while i < n
            invariant
                i <= n,
                n == self@.accounts.len(),
                forall|k: int|
                    0 <= k < i ==> !((#[trigger] self@.accounts[k]).id == Some(account)
                        && self@.accounts[k].meta_info.removed_timestamp is None),
            decreases n - i,
        {
            let row = &self.accounts[i];
            let matched = match row.id {
                Option::Some(x) => x == account,
                Option::None => false,
            };
            if matched && row.meta_info.removed_timestamp.is_none() {
                let out = row.clone();
                proof {
                    assert(self@.accounts[i as int] == out@);
                }
                return Ok(out);
            }
            i = i + 1;
        }
        Err(Error::from_message(ErrorKind::NotFound))
    }

    /// Returns the live category row with this id.
    pub fn category(&self, category: Id) -> (r: Result<EncryptedCategory>)
        ensures
            match r {
                Ok(v) => exists|i: int|
                    {
                        &&& 0 <= i < self@.categories.len()
                        &&& (#[trigger] self@.categories[i]) == v@
                        &&& v@.id == Some(category)
                        &&& v@.meta_info.removed_timestamp is None
                    },
                Err(e) => {
                    &&& e.kind == ErrorKind::NotFound
                    &&& forall|i: int|
                        0 <= i < self@.categories.len() ==> !((#[trigger] self@.categories[i]).id
                            == Some(category) && self@.categories[i].meta_info.removed_timestamp
                            is None)
                },
            },
    {
        let mut i: usize = 0;
        let n = self.categories.len();
        while i < n
            invariant
                i <= n,
                n == self@.categories.len(),
                forall|k: int|
                    0 <= k < i ==> !((#[trigger] self@.categories[k]).id == Some(category)
                        && self@.categories[k].meta_info.removed_timestamp is None),
            decreases n - i,
        {
            let row = &self.categories[i];
            let matched = match row.id {
                Option::Some(x) => x == category,
                Option::None => false,
            };
            if matched && row.meta_info.removed_timestamp.is_none() {
                let out = row.clone();
                proof {
                    assert(self@.categories[i as int] == out@);
                }
                return Ok(out);
            }
            i = i + 1;
        }
        Err(Error::from_message(ErrorKind::NotFound))
    }

    /// Returns the live plan row with this id.
    pub fn plan(&self, plan: Id) -> (r: Result<EncryptedPlan>)
        ensures
            match r {
                Ok(v) => exists|i: int|
                    {
                        &&& 0 <= i < self@.plans.len()
                        &&& (#[trigger] self@.plans[i]) == v@
                        &&& v@.id == Some(plan)
                        &&& v@.meta_info.removed_timestamp is None
                    },
                Err(e) => {
                    &&& e.kind == ErrorKind::NotFound
                    &&& forall|i: int|
                        0 <= i < self@.plans.len() ==> !((#[trigger] self@.plans[i]).id
                            == Some(plan) && self@.plans[i].meta_info.removed_timestamp
                            is None)
                },
            },
    {
        let mut i: usize = 0;
        let n = self.plans.len();
        while i < n
            invariant
                i <= n,
                n == self@.plans.len(),
                forall|k: int|
                    0 <= k < i ==> !((#[trigger] self@.plans[k]).id == Some(plan)
                        && self@.plans[k].meta_info.removed_timestamp is None),
            decreases n - i,
        {
            let row = &self.plans[i];
            let matched = match row.id {
                Option::Some(x) => x == plan,
                Option::None => false,
            };
            if matched && row.meta_info.removed_timestamp.is_none() {
                let out = row.clone();
                proof {
                    assert(self@.plans[i as int] == out@);
                }
                return Ok(out);
            }
            i = i + 1;
        }
        Err(Error::from_message(ErrorKind::NotFound))
    }

    /// Whether some live transaction row references this account.
    fn has_live_tx_of(&self, target: &Id) -> (r: bool)
        ensures
            r == tx_references_account(self@.transactions, *target),
    {
        let mut i: usize = 0;
        let n = self.transactions.len();
        while i < n
            invariant
                i <= n,
                n == self@.transactions.len(),
                forall|k: int|
                    0 <= k < i ==> !((#[trigger] self@.transactions[k]).account_id == *target
                        && self@.transactions[k].meta_info.removed_timestamp is None),
            decreases n - i,
        {
            let row = &self.transactions[i];
            if row.account_id == *target && row.meta_info.removed_timestamp.is_none() {
                proof {
                    assert(self@.transactions[i as int].account_id == *target
                        && self@.transactions[i as int].meta_info.removed_timestamp is None);
                }
                return true;
            }
            i = i + 1;
        }
        false
    }

    /// Whether some live transaction row references this category.
    fn has_live_tx_with(&self, target: &Id) -> (r: bool)
        ensures
            r == tx_references_category(self@.transactions, *target),
    {
        let mut i: usize = 0;
        let n = self.transactions.len();
        while i < n
            invariant
                i <= n,
                n == self@.transactions.len(),
                forall|k: int|
                    0 <= k < i ==> !((#[trigger] self@.transactions[k]).category_id == *target
                        && self@.transactions[k].meta_info.removed_timestamp is None),
            decreases n - i,
        {
            let row = &self.transactions[i];
            if row.category_id == *target && row.meta_info.removed_timestamp.is_none() {
                proof {
                    assert(self@.transactions[i as int].category_id == *target
                        && self@.transactions[i as int].meta_info.removed_timestamp is None);
                }
                return true;
            }
            i = i + 1;
        }
        false
    }

    /// Whether some live plan row references this category.
    fn has_live_plan_for(&self, target: &Id) -> (r: bool)
        ensures
            r == plan_references_category(self@.plans, *target),
    {
        let mut i: usize = 0;
        let n = self.plans.len();
        while i < n
            invariant
                i <= n,
                n == self@.plans.len(),
                forall|k: int|
                    0 <= k < i ==> !((#[trigger] self@.plans[k]).category_id == *target
                        && self@.plans[k].meta_info.removed_timestamp is None),
            decreases n - i,
        {
            let row = &self.plans[i];
            if row.category_id == *target && row.meta_info.removed_timestamp.is_none() {
                proof {
                    assert(self@.plans[i as int].category_id == *target
                        && self@.plans[i as int].meta_info.removed_timestamp is None);
                }
                return true;
            }
            i = i + 1;
        }
        false
    }

    /// Tombstones the account row with this id at the given time.
    ///
    /// Fails exactly when a live transaction still references the
    /// account; a missing id leaves the store unchanged.
    pub fn remove_account(&mut self, account: Id, removal_timestamp: Timestamp) -> (r: Result<()>)
        requires
            old(self).wf(),
        ensures
            final(self).wf(),
            final(self)@.transactions == old(self)@.transactions,
            final(self)@.categories == old(self)@.categories,
            final(self)@.plans == old(self)@.plans,
            r is Err <==> tx_references_account(old(self)@.transactions, account),
            match r {
                Ok(_) => final(self)@.accounts == account_tombstoned(
                    old(self)@.accounts,
                    account,
                    removal_timestamp,
                ),
                Err(e) => {
                    &&& e.kind == ErrorKind::ConsistencyViolation
                    &&& final(self)@.accounts == old(self)@.accounts
                },
            },
    {
        if self.has_live_tx_of(&account) {
            return Err(Error::from_message(ErrorKind::ConsistencyViolation));
        }
        let ghost orig = self@.accounts;
        let n = self.accounts.len();
        let mut j: usize = 0;
        while j < n
            invariant
                j <= n,
                n == self@.accounts.len(),
                orig.len() == n,
                self@.transactions == old(self)@.transactions,
                self@.categories == old(self)@.categories,
                self@.plans == old(self)@.plans,
                forall|k: int|
                    0 <= k < j ==> self@.accounts[k] == account_tombstoned(
                        orig,
                        account,
                        removal_timestamp,
                    )[k],
                forall|k: int| j <= k < n ==> self@.accounts[k] == orig[k],
            decreases n - j,
        {
            let matched = match self.accounts[j].id {
                Option::Some(x) => x == account,
                Option::None => false,
            };
            if matched {
                let mut row = self.accounts[j].clone();
                row.meta_info.removed_timestamp = Some(removal_timestamp);
                self.accounts.set(j, row);
            }
            j = j + 1;
        }
        proof {
            assert(self@.accounts =~= account_tombstoned(orig, account, removal_timestamp));
        }
        Ok(())
    }

    /// Tombstones the category row with this id at the given time.
    ///
    /// The two predefined transfer categories can never be removed;
    /// otherwise the call fails exactly when a live transaction or a
    /// live plan still references the category.
    pub fn remove_category(&mut self, category: Id, removal_timestamp: Timestamp) -> (r: Result<
        (),
    >)
        requires
            old(self).wf(),
        ensures
            final(self).wf(),
            final(self)@.transactions == old(self)@.transactions,
            final(self)@.accounts == old(self)@.accounts,
            final(self)@.plans == old(self)@.plans,
            r is Err <==> category.is_predefined_spec() || tx_references_category(
                old(self)@.transactions,
                category,
            ) || plan_references_category(old(self)@.plans, category),
            match r {
                Ok(_) => final(self)@.categories == category_tombstoned(
                    old(self)@.categories,
                    category,
                    removal_timestamp,
                ),
                Err(e) => {
                    &&& final(self)@.categories == old(self)@.categories
                    &&& (e.kind == ErrorKind::CannotDeletePredefined <==> category
                        .is_predefined_spec())
                    &&& (!category.is_predefined_spec() ==> e.kind
                        == ErrorKind::ConsistencyViolation)
                },
            },
    {
        if category.is_predefined() {
            return Err(Error::from_message(ErrorKind::CannotDeletePredefined));
        }
        if self.has_live_tx_with(&category) {
            return Err(Error::from_message(ErrorKind::ConsistencyViolation));
        }
        if self.has_live_plan_for(&category) {
            return Err(Error::from_message(ErrorKind::ConsistencyViolation));
        }
        let ghost orig = self@.categories;
        let n = self.categories.len();
        let mut j: usize = 0;
        while j < n
            invariant
                j <= n,
                n == self@.categories.len(),
                orig.len() == n,
                self@.transactions == old(self)@.transactions,
                self@.accounts == old(self)@.accounts,
                self@.plans == old(self)@.plans,
                forall|k: int|
                    0 <= k < j ==> self@.categories[k] == category_tombstoned(
                        orig,
                        category,
                        removal_timestamp,
                    )[k],
                forall|k: int| j <= k < n ==> self@.categories[k] == orig[k],
            decreases n - j,
        {
            let matched = match self.categories[j].id {
                Option::Some(x) => x == category,
                Option::None => false,
            };
            if matched {
                let mut row = self.categories[j].clone();
                row.meta_info.removed_timestamp = Some(removal_timestamp);
                self.categories.set(j, row);
            }
            j = j + 1;
        }
        proof {
            assert(self@.categories =~= category_tombstoned(orig, category, removal_timestamp));
        }
        Ok(())
    }

    /// Tombstones the plan row with this id at the given time.
    ///
    /// A missing id leaves the store unchanged; the call still succeeds.
    pub fn remove_plan(&mut self, plan: Id, removal_timestamp: Timestamp) -> (r: Result<()>)
        requires
            old(self).wf(),
        ensures
            final(self).wf(),
            final(self)@.transactions == old(self)@.transactions,
            final(self)@.accounts == old(self)@.accounts,
            final(self)@.categories == old(self)@.categories,
            r is Ok,
            final(self)@.plans == plan_tombstoned(
                old(self)@.plans,
                plan,
                removal_timestamp,
            ),
    {
        let ghost orig = self@.plans;
        let n = self.plans.len();
        let mut j: usize = 0;
        while j < n
            invariant
                j <= n,
                n == self@.plans.len(),
                orig.len() == n,
                self@.transactions == old(self)@.transactions,
                self@.accounts == old(self)@.accounts,
                self@.categories == old(self)@.categories,
                forall|k: int|
                    0 <= k < j ==> self@.plans[k] == plan_tombstoned(
                        orig,
                        plan,
                        removal_timestamp,
                    )[k],
                forall|k: int| j <= k < n ==> self@.plans[k] == orig[k],
            decreases n - j,
        {
            let matched = match self.plans[j].id {
                Option::Some(x) => x == plan,
                Option::None => false,
            };
            if matched {
                let mut row = self.plans[j].clone();
                row.meta_info.removed_timestamp = Some(removal_timestamp);
                self.plans.set(j, row);
            }
            j = j + 1;
        }
        proof {
            assert(self@.plans =~= plan_tombstoned(orig, plan, removal_timestamp));
        }
        Ok(())
    }

    /// Replaces the name and balance of the live account row with the
    /// id of the given row. Origin, creation time and initial balance
    /// are immutable; a missing or removed id leaves the store
    /// unchanged.
    pub fn update_account(&mut self, account: EncryptedAccount) -> (r: Result<()>)
        requires
            old(self).wf(),
        ensures
            final(self).wf(),
            final(self)@.transactions == old(self)@.transactions,
            final(self)@.categories == old(self)@.categories,
            final(self)@.plans == old(self)@.plans,
            r is Ok,
            final(self)@.accounts == account_updated(old(self)@.accounts, account@),
    {
        let ghost orig = self@.accounts;
        let n = self.accounts.len();
        let mut j: usize = 0;
        while j < n
            invariant
                j <= n,
                n == self@.accounts.len(),
                orig.len() == n,
                self@.transactions == old(self)@.transactions,
                self@.categories == old(self)@.categories,
                self@.plans == old(self)@.plans,
                forall|k: int|
                    0 <= k < j ==> self@.accounts[k] == account_updated(orig, account@)[k],
                forall|k: int| j <= k < n ==> self@.accounts[k] == orig[k],
            decreases n - j,
        {
            let matched = match (&self.accounts[j].id, &account.id) {
                (Option::Some(x), Option::Some(y)) => *x == *y,
                _ => false,
            };
            let matched = matched || (self.accounts[j].id.is_none() && account.id.is_none());
            if matched && self.accounts[j].meta_info.removed_timestamp.is_none() {
                let mut row = self.accounts[j].clone();
                row.name = vstd::slice::slice_to_vec(account.name.as_slice());
                row.balance = vstd::slice::slice_to_vec(account.balance.as_slice());
                self.accounts.set(j, row);
            }
            j = j + 1;
        }
        proof {
            assert(self@.accounts =~= account_updated(orig, account@));
        }
        Ok(())
    }

    /// Permanently deletes every row whose removal timestamp is set.
    pub fn clean_removed(&mut self) -> (r: Result<()>)
        requires
            old(self).wf(),
        ensures
            final(self).wf(),
            r is Ok,
            final(self)@.transactions == old(self)@.transactions.filter(live_tx()),
            final(self)@.accounts == old(self)@.accounts.filter(live_account()),
            final(self)@.categories == old(self)@.categories.filter(live_category()),
            final(self)@.plans == old(self)@.plans.filter(live_plan()),
    {
        let mut kept_transactions: Vec<EncryptedTransaction> = Vec::new();
        let mut i: usize = 0;
        let n = self.transactions.len();
        proof {
            assert(kept_transactions@.map_values(|row: EncryptedTransaction| row@) =~= self@.transactions.take(0).filter(
                live_tx(),
            ));
        }
        while i < n
            invariant
                i <= n,
                n == self@.transactions.len(),
                self@ == old(self)@,
                kept_transactions@.map_values(|row: EncryptedTransaction| row@) == self@.transactions.take(
                    i as int,
                ).filter(live_tx()),
            decreases n - i,
        {
            let row = &self.transactions[i];
            proof {
                lemma_filter_take_step(self@.transactions, i as int, live_tx());
            }
            if row.meta_info.removed_timestamp.is_none() {
                kept_transactions.push(row.clone());
                proof {
                    assert(kept_transactions@.map_values(|row: EncryptedTransaction| row@) =~= self@.transactions.take(
                        i + 1,
                    ).filter(live_tx()));
                }
            }
            i = i + 1;
        }
        proof {
            assert(self@.transactions.take(n as int) =~= self@.transactions);
        }
        let mut kept_accounts: Vec<EncryptedAccount> = Vec::new();
        let mut i: usize = 0;
        let n = self.accounts.len();
        proof {
            assert(kept_accounts@.map_values(|row: EncryptedAccount| row@) =~= self@.accounts.take(0).filter(
                live_account(),
            ));
        }
        while i < n
            invariant
                i <= n,
                n == self@.accounts.len(),
                self@ == old(self)@,
                kept_accounts@.map_values(|row: EncryptedAccount| row@) == self@.accounts.take(
                    i as int,
                ).filter(live_account()),
            decreases n - i,
        {
            let row = &self.accounts[i];
            proof {
                lemma_filter_take_step(self@.accounts, i as int, live_account());
            }
            if row.meta_info.removed_timestamp.is_none() {
                kept_accounts.push(row.clone());
                proof {
                    assert(kept_accounts@.map_values(|row: EncryptedAccount| row@) =~= self@.accounts.take(
                        i + 1,
                    ).filter(live_account()));
                }
            }
            i = i + 1;
        }
        proof {
            assert(self@.accounts.take(n as int) =~= self@.accounts);
        }
        let mut kept_categories: Vec<EncryptedCategory> = Vec::new();
        let mut i: usize = 0;
        let n = self.categories.len();
        proof {
            assert(kept_categories@.map_values(|row: EncryptedCategory| row@) =~= self@.categories.take(0).filter(
                live_category(),
            ));
        }
        while i < n
            invariant
                i <= n,
                n == self@.categories.len(),
                self@ == old(self)@,
                kept_categories@.map_values(|row: EncryptedCategory| row@) == self@.categories.take(
                    i as int,
                ).filter(live_category()),
            decreases n - i,
        {
            let row = &self.categories[i];
            proof {
                lemma_filter_take_step(self@.categories, i as int, live_category());
            }
            if row.meta_info.removed_timestamp.is_none() {
                kept_categories.push(row.clone());
                proof {
                    assert(kept_categories@.map_values(|row: EncryptedCategory| row@) =~= self@.categories.take(
                        i + 1,
                    ).filter(live_category()));
                }
            }
            i = i + 1;
        }
        proof {
            assert(self@.categories.take(n as int) =~= self@.categories);
        }
        let mut kept_plans: Vec<EncryptedPlan> = Vec::new();
        let mut i: usize = 0;
        let n = self.plans.len();
        proof {
            assert(kept_plans@.map_values(|row: EncryptedPlan| row@) =~= self@.plans.take(0).filter(
                live_plan(),
            ));
        }
        while i < n
            invariant
                i <= n,
                n == self@.plans.len(),
                self@ == old(self)@,
                kept_plans@.map_values(|row: EncryptedPlan| row@) == self@.plans.take(
                    i as int,
                ).filter(live_plan()),
            decreases n - i,
        {
            let row = &self.plans[i];
            proof {
                lemma_filter_take_step(self@.plans, i as int, live_plan());
            }
            if row.meta_info.removed_timestamp.is_none() {
                kept_plans.push(row.clone());
                proof {
                    assert(kept_plans@.map_values(|row: EncryptedPlan| row@) =~= self@.plans.take(
                        i + 1,
                    ).filter(live_plan()));
                }
            }
            i = i + 1;
        }
        proof {
            assert(self@.plans.take(n as int) =~= self@.plans);
        }
        proof {
            lemma_filter_keeps_tx_rows_ok(self@.transactions, live_tx());
            lemma_filter_keeps_account_rows_ok(self@.accounts, live_account());
            lemma_filter_keeps_category_rows_ok(self@.categories, live_category());
            lemma_filter_keeps_plan_rows_ok(self@.plans, live_plan());
            lemma_filter_sorted(self@.transactions, live_tx());
            lemma_filter_category_sorted(self@.categories, live_category());
            lemma_filter_plan_sorted(self@.plans, live_plan());
        }
        self.transactions = kept_transactions;
        self.accounts = kept_accounts;
        self.categories = kept_categories;
        self.plans = kept_plans;
        Ok(())
    }


    /// Tombstones every live transaction row of one account at the
    /// given time. Cascade step of a forced account removal.
    pub fn remove_transactions_of(&mut self, account: Id, removal_timestamp: Timestamp) -> (r:
        Result<()>)
        requires
            old(self).wf(),
        ensures
            final(self).wf(),
            final(self)@.accounts == old(self)@.accounts,
            final(self)@.categories == old(self)@.categories,
            final(self)@.plans == old(self)@.plans,
            r is Ok,
            final(self)@.transactions == txs_of_tombstoned(
                old(self)@.transactions,
                account,
                removal_timestamp,
            ),
    {
        let ghost orig = self@.transactions;
        let n = self.transactions.len();
        let mut j: usize = 0;
        while j < n
            invariant
                j <= n,
                n == self@.transactions.len(),
                orig.len() == n,
                self@.accounts == old(self)@.accounts,
                self@.categories == old(self)@.categories,
                self@.plans == old(self)@.plans,
                forall|k: int|
                    0 <= k < j ==> self@.transactions[k] == txs_of_tombstoned(
                        orig,
                        account,
                        removal_timestamp,
                    )[k],
                forall|k: int| j <= k < n ==> self@.transactions[k] == orig[k],
            decreases n - j,
        {
            if self.transactions[j].account_id == account
                && self.transactions[j].meta_info.removed_timestamp.is_none() {
                let mut row = self.transactions[j].clone();
                row.meta_info.removed_timestamp = Some(removal_timestamp);
                self.transactions.set(j, row);
            }
            j = j + 1;
        }
        proof {
            assert(self@.transactions =~= txs_of_tombstoned(orig, account, removal_timestamp));
        }
        Ok(())
    }


    /// Checks the row discipline of a loaded transaction table and its newest-first order.
    fn loaded_transactions_valid(rows: &Vec<EncryptedTransaction>) -> (r: bool)
        ensures
            r == (tx_rows_ok(rows@.map_values(|x: EncryptedTransaction| x@)) && tx_sorted(rows@.map_values(|x: EncryptedTransaction| x@))),
    {
        let ghost views = rows@.map_values(|x: EncryptedTransaction| x@);
        let n = rows.len();
        let mut i: usize = 0;
        while i < n
            invariant
                i <= n,
                n == views.len(),
                views == rows@.map_values(|x: EncryptedTransaction| x@),
                forall|a: int|
                    0 <= a < i ==> (#[trigger] views[a]).id is Some
                        && views[a].meta_info.added_timestamp is Some,
                forall|a: int, b: int| 0 <= a < i && a < b < n ==> views[a].id != views[b].id,
                forall|a: int, b: int| 0 <= a < i && a <= b < n ==> (#[trigger] views[a]).timestamp >= (#[trigger] views[b]).timestamp,
            decreases n - i,
        {
            if rows[i].id.is_none() || rows[i].meta_info.added_timestamp.is_none() {
                proof {
                    assert(!((#[trigger] views[i as int]).id is Some
                        && views[i as int].meta_info.added_timestamp is Some));
                }
                return false;
            }
            let mut j: usize = i;
            while j < n
                invariant
                    i <= j <= n,
                    i < n,
                    n == views.len(),
                    views == rows@.map_values(|x: EncryptedTransaction| x@),
                    forall|b: int| i < b < j ==> views[i as int].id != views[b].id,
                    views[i as int].id is Some,
                    forall|a: int|
                        0 <= a < i ==> (#[trigger] views[a]).id is Some
                            && views[a].meta_info.added_timestamp is Some,
                    forall|a: int, b: int| 0 <= a < i && a < b < n ==> views[a].id != views[b].id,
                    forall|a: int, b: int| 0 <= a < i && a <= b < n ==> (#[trigger] views[a]).timestamp >= (#[trigger] views[b]).timestamp,
                    forall|b: int| i as int <= b < j ==> views[i as int].timestamp >= (#[trigger] views[b]).timestamp,
                decreases n - j,
            {
                if j > i {
                    let same = match (&rows[i].id, &rows[j].id) {
                        (Option::Some(x), Option::Some(y)) => *x == *y,
                        _ => false,
                    };
                    if same {
                        proof {
                            assert(views[i as int].id == views[j as int].id);
                        }
                        return false;
                    }
                }
                if rows[i].timestamp < rows[j].timestamp {
                    proof {
                        assert(!(views[i as int].timestamp >= views[j as int].timestamp));
                    }
                    return false;
                }
                j = j + 1;
            }
            i = i + 1;
        }
        true
    }

    /// Checks the row discipline of a loaded account table.
    fn loaded_accounts_valid(rows: &Vec<EncryptedAccount>) -> (r: bool)
        ensures
            r == (account_rows_ok(rows@.map_values(|x: EncryptedAccount| x@))),
    {
        let ghost views = rows@.map_values(|x: EncryptedAccount| x@);
        let n = rows.len();
        let mut i: usize = 0;
        while i < n
            invariant
                i <= n,
                n == views.len(),
                views == rows@.map_values(|x: EncryptedAccount| x@),
                forall|a: int|
                    0 <= a < i ==> (#[trigger] views[a]).id is Some
                        && views[a].meta_info.added_timestamp is Some,
                forall|a: int, b: int| 0 <= a < i && a < b < n ==> views[a].id != views[b].id,
            decreases n - i,
        {
            if rows[i].id.is_none() || rows[i].meta_info.added_timestamp.is_none() {
                proof {
                    assert(!((#[trigger] views[i as int]).id is Some
                        && views[i as int].meta_info.added_timestamp is Some));
                }
                return false;
            }
            let mut j: usize = i;
            while j < n
                invariant
                    i <= j <= n,
                    i < n,
                    n == views.len(),
                    views == rows@.map_values(|x: EncryptedAccount| x@),
                    forall|b: int| i < b < j ==> views[i as int].id != views[b].id,
                    views[i as int].id is Some,
                    forall|a: int|
                        0 <= a < i ==> (#[trigger] views[a]).id is Some
                            && views[a].meta_info.added_timestamp is Some,
                    forall|a: int, b: int| 0 <= a < i && a < b < n ==> views[a].id != views[b].id,
                decreases n - j,
            {
                if j > i {
                    let same = match (&rows[i].id, &rows[j].id) {
                        (Option::Some(x), Option::Some(y)) => *x == *y,
                        _ => false,
                    };
                    if same {
                        proof {
                            assert(views[i as int].id == views[j as int].id);
                        }
                        return false;
                    }
                }
                j = j + 1;
            }
            i = i + 1;
        }
        true
    }

    /// Checks the row discipline of a loaded category table and its kind order.
    fn loaded_categories_valid(rows: &Vec<EncryptedCategory>) -> (r: bool)
        ensures
            r == (category_rows_ok(rows@.map_values(|x: EncryptedCategory| x@)) && category_sorted(rows@.map_values(|x: EncryptedCategory| x@))),
    {
        let ghost views = rows@.map_values(|x: EncryptedCategory| x@);
        let n = rows.len();
        let mut i: usize = 0;
        while i < n
            invariant
                i <= n,
                n == views.len(),
                views == rows@.map_values(|x: EncryptedCategory| x@),
                forall|a: int|
                    0 <= a < i ==> (#[trigger] views[a]).id is Some
                        && views[a].meta_info.added_timestamp is Some,
                forall|a: int, b: int| 0 <= a < i && a < b < n ==> views[a].id != views[b].id,
                forall|a: int, b: int| 0 <= a < i && a <= b < n ==> kind_le((#[trigger] views[a]).category_type, (#[trigger] views[b]).category_type),
            decreases n - i,
        {
            if rows[i].id.is_none() || rows[i].meta_info.added_timestamp.is_none() {
                proof {
                    assert(!((#[trigger] views[i as int]).id is Some
                        && views[i as int].meta_info.added_timestamp is Some));
                }
                return false;
            }
            let mut j: usize = i;
            while j < n
                invariant
                    i <= j <= n,
                    i < n,
                    n == views.len(),
                    views == rows@.map_values(|x: EncryptedCategory| x@),
                    forall|b: int| i < b < j ==> views[i as int].id != views[b].id,
                    views[i as int].id is Some,
                    forall|a: int|
                        0 <= a < i ==> (#[trigger] views[a]).id is Some
                            && views[a].meta_info.added_timestamp is Some,
                    forall|a: int, b: int| 0 <= a < i && a < b < n ==> views[a].id != views[b].id,
                    forall|a: int, b: int| 0 <= a < i && a <= b < n ==> kind_le((#[trigger] views[a]).category_type, (#[trigger] views[b]).category_type),
                    forall|b: int| i as int <= b < j ==> kind_le(views[i as int].category_type, (#[trigger] views[b]).category_type),
                decreases n - j,
            {
                if j > i {
                    let same = match (&rows[i].id, &rows[j].id) {
                        (Option::Some(x), Option::Some(y)) => *x == *y,
                        _ => false,
                    };
                    if same {
                        proof {
                            assert(views[i as int].id == views[j as int].id);
                        }
                        return false;
                    }
                }
                if rows[i].category_type == CategoryType::Outcome && rows[j].category_type == CategoryType::Income {
                    proof {
                        assert(!(kind_le(views[i as int].category_type, views[j as int].category_type)));
                    }
                    return false;
                }
                j = j + 1;
            }
            i = i + 1;
        }
        true
    }

    /// Checks the row discipline of a loaded plan table and its category order.
    fn loaded_plans_valid(rows: &Vec<EncryptedPlan>) -> (r: bool)
        ensures
            r == (plan_rows_ok(rows@.map_values(|x: EncryptedPlan| x@)) && plan_sorted(rows@.map_values(|x: EncryptedPlan| x@))),
    {
        let ghost views = rows@.map_values(|x: EncryptedPlan| x@);
        let n = rows.len();
        let mut i: usize = 0;
        while i < n
            invariant
                i <= n,
                n == views.len(),
                views == rows@.map_values(|x: EncryptedPlan| x@),
                forall|a: int|
                    0 <= a < i ==> (#[trigger] views[a]).id is Some
                        && views[a].meta_info.added_timestamp is Some,
                forall|a: int, b: int| 0 <= a < i && a < b < n ==> views[a].id != views[b].id,
                forall|a: int, b: int| 0 <= a < i && a <= b < n ==> id_le((#[trigger] views[a]).category_id, (#[trigger] views[b]).category_id),
            decreases n - i,
        {
            if rows[i].id.is_none() || rows[i].meta_info.added_timestamp.is_none() {
                proof {
                    assert(!((#[trigger] views[i as int]).id is Some
                        && views[i as int].meta_info.added_timestamp is Some));
                }
                return false;
            }
            let mut j: usize = i;
            while j < n
                invariant
                    i <= j <= n,
                    i < n,
                    n == views.len(),
                    views == rows@.map_values(|x: EncryptedPlan| x@),
                    forall|b: int| i < b < j ==> views[i as int].id != views[b].id,
                    views[i as int].id is Some,
                    forall|a: int|
                        0 <= a < i ==> (#[trigger] views[a]).id is Some
                            && views[a].meta_info.added_timestamp is Some,
                    forall|a: int, b: int| 0 <= a < i && a < b < n ==> views[a].id != views[b].id,
                    forall|a: int, b: int| 0 <= a < i && a <= b < n ==> id_le((#[trigger] views[a]).category_id, (#[trigger] views[b]).category_id),
                    forall|b: int| i as int <= b < j ==> id_le(views[i as int].category_id, (#[trigger] views[b]).category_id),
                decreases n - j,
            {
                if j > i {
                    let same = match (&rows[i].id, &rows[j].id) {
                        (Option::Some(x), Option::Some(y)) => *x == *y,
                        _ => false,
                    };
                    if same {
                        proof {
                            assert(views[i as int].id == views[j as int].id);
                        }
                        return false;
                    }
                }
                if rows[j].category_id.a < rows[i].category_id.a || (rows[j].category_id.a == rows[i].category_id.a && rows[j].category_id.b < rows[i].category_id.b) {
                    proof {
                        assert(!(id_le(views[i as int].category_id, views[j as int].category_id)));
                    }
                    return false;
                }
                j = j + 1;
            }
            i = i + 1;
        }
        true
    }

    /// Serializes the whole store: the four row tables, transactions
    /// first, in their stored order.
    pub fn to_bytes(&self) -> (r: Vec<u8>)
        ensures
            r@ == crate::codec::enc_store(self@),
    {
        let mut out: Vec<u8> = Vec::new();
        crate::codec::write_etx_list(&mut out, &self.transactions);
        crate::codec::write_eaccount_list(&mut out, &self.accounts);
        crate::codec::write_ecategory_list(&mut out, &self.categories);
        crate::codec::write_eplan_list(&mut out, &self.plans);
        proof {
            assert(out@ =~= crate::codec::enc_store(self@));
        }
        out
    }

    /// Restores a store from its serialized form.
    ///
    /// Fails with a malformed-data error when the bytes are not the
    /// complete encoding of one store, or when the loaded rows break
    /// the store's row discipline (identifiers present and unique,
    /// creation timestamps present, tables in their stored order).
    #[verifier::rlimit(100)]
    #[verifier::spinoff_prover]
    pub fn from_bytes(data: &[u8]) -> (r: Result<Storage>)
        ensures
            r matches Ok(st) ==> st.wf() && crate::codec::dec_store(data@) == Some(
                (st@, data@.len() as int),
            ),
            r is Ok <==> (crate::codec::dec_store(data@) matches Some((sv, n)) && n
                == data@.len() && store_rows_wf(sv)),
            r matches Err(e) ==> e.kind == ErrorKind::Malformed,
    {
        proof {
            broadcast use vstd::slice::group_slice_axioms;

            assert(data@.skip(0) =~= data@);
        }
        let (transactions, accounts, categories, plans, end) = match crate::codec::read_store(
            data,
            0,
        ) {
            Option::None => { return Err(Error::from_message(ErrorKind::Malformed)); },
            Option::Some(v) => v,
        };
        let ghost sv = crate::storage::StorageV {
            transactions: transactions@.map_values(|x: EncryptedTransaction| x@),
            accounts: accounts@.map_values(|x: EncryptedAccount| x@),
            categories: categories@.map_values(|x: EncryptedCategory| x@),
            plans: plans@.map_values(|x: EncryptedPlan| x@),
        };
        if end != data.len() {
            return Err(Error::from_message(ErrorKind::Malformed));
        }
        if !Self::loaded_transactions_valid(&transactions) {
            return Err(Error::from_message(ErrorKind::Malformed));
        }
        if !Self::loaded_accounts_valid(&accounts) {
            return Err(Error::from_message(ErrorKind::Malformed));
        }
        if !Self::loaded_categories_valid(&categories) {
            return Err(Error::from_message(ErrorKind::Malformed));
        }
        if !Self::loaded_plans_valid(&plans) {
            return Err(Error::from_message(ErrorKind::Malformed));
        }
        let st = Storage { transactions, accounts, categories, plans };
        Ok(st)
    }

}

} // verus!
