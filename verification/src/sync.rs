use vstd::prelude::*;
use vstd::bytes::{spec_u64_from_le_bytes, spec_u64_to_le_bytes, u64_from_le_bytes, u64_to_le_bytes};
use vstd::bytes::lemma_auto_spec_u64_to_from_le_bytes;
use crate::budget::{balances_consistent, Budget};
use crate::changelog::{Changelog, ChangelogV};
use crate::codec::enc_changelog;
use crate::data::{Id, id_bytes, MetaInfo};
use crate::datetime::Timestamp;
use crate::engine::AsymmetricProvider;
use crate::error::{Error, ErrorKind, Result};
use crate::kdf::scrypt_of;
use crate::storage::{account_id_taken, category_id_taken, plan_id_taken, tx_id_taken, StorageV};
use crate::symmetric::{aead_open_total, SYMMETRIC_KEY_SIZE};

verus! {

/// Salt of the changelog envelope key: the artifact timestamp as eight
/// little-endian bytes, followed by the sixteen bytes of the instance
/// that wrote it.
pub open spec fn sync_salt(timestamp: Timestamp, instance: Id) -> Seq<u8> {
    spec_u64_to_le_bytes(timestamp as u64) + id_bytes(instance)
}

/// The timestamp a header file denotes: its first eight bytes,
/// little-endian; shorter files denote the epoch.
pub open spec fn artifact_timestamp(data: Seq<u8>) -> Timestamp {
    if data.len() >= 8 {
        spec_u64_from_le_bytes(data.take(8)) as i64
    } else {
        0
    }
}

/// The instance identifier a header file denotes: its first sixteen
/// bytes.
pub open spec fn artifact_instance(data: Seq<u8>) -> Id {
    crate::data::id_from_bytes_spec(data.take(16))
}

/// A changelog with no rows at all.
pub open spec fn empty_changelog() -> ChangelogV {
    ChangelogV {
        accounts: crate::changelog::SimpleChangelogV {
            added: Seq::empty(),
            changed: Seq::empty(),
            removed: Seq::empty(),
        },
        categories: crate::changelog::SimpleChangelogV {
            added: Seq::empty(),
            changed: Seq::empty(),
            removed: Seq::empty(),
        },
        transactions: crate::changelog::SimpleChangelogV {
            added: Seq::empty(),
            changed: Seq::empty(),
            removed: Seq::empty(),
        },
        plans: crate::changelog::SimpleChangelogV {
            added: Seq::empty(),
            changed: Seq::empty(),
            removed: Seq::empty(),
        },
    }
}

/// The cumulative changelog an artifact holds under a password: empty
/// for a fresh artifact, otherwise the complete decoding of the sealed
/// changelog under the key derived from the password and the header.
pub open spec fn remote_changelog_of(
    auth: Seq<u8>,
    timestamp_in: Seq<u8>,
    instance_in: Seq<u8>,
    changelog_in: Seq<u8>,
) -> Option<ChangelogV> {
    if timestamp_in.len() == 0 && instance_in.len() == 0 && changelog_in.len() == 0 {
        Some(empty_changelog())
    } else {
        match aead_open_total(
            scrypt_of(
                auth,
                sync_salt(artifact_timestamp(timestamp_in), artifact_instance(instance_in)),
                32,
            ),
            changelog_in,
        ) {
            Option::Some(p) => match crate::codec::dec_changelog(p) {
                Option::Some((cl, n)) => if n == p.len() {
                    Some(cl)
                } else {
                    None
                },
                Option::None => None,
            },
            Option::None => None,
        }
    }
}

/// Whether the three shared artifact files are inconsistent with each
/// other: either all are empty (a fresh artifact), or all must be
/// non-empty with a full instance identifier.
pub open spec fn artifact_malformed(
    timestamp_in: Seq<u8>,
    instance_in: Seq<u8>,
    changelog_in: Seq<u8>,
) -> bool {
    &&& !(timestamp_in.len() == 0 && instance_in.len() == 0 && changelog_in.len() == 0)
    &&& (timestamp_in.len() == 0 || instance_in.len() == 0 || changelog_in.len() == 0
        || instance_in.len() < 16)
}

/// Whether an added changelog row applies to this instance: created at
/// or after the last sync, on another instance.
pub open spec fn applies_added(m: MetaInfo, instance: Id, last_sync: Timestamp) -> bool {
    m.added_timestamp matches Some(t) && t >= last_sync && m.origin != instance
}

/// Whether a removed changelog row applies to this instance: removed at
/// or after the last sync, on another instance.
pub open spec fn applies_removed(m: MetaInfo, instance: Id, last_sync: Timestamp) -> bool {
    m.removed_timestamp matches Some(t) && t >= last_sync && m.origin != instance
}

/// Whether no row of a changelog applies to this instance at all: every
/// row was either authored here or predates the last sync.
pub open spec fn all_excluded(c: ChangelogV, instance: Id, last_sync: Timestamp) -> bool {
    &&& forall|i: int|
        0 <= i < c.accounts.added.len() ==> !applies_added(
            (#[trigger] c.accounts.added[i]).meta_info,
            instance,
            last_sync,
        )
    &&& forall|i: int|
        0 <= i < c.categories.added.len() ==> !applies_added(
            (#[trigger] c.categories.added[i]).meta_info,
            instance,
            last_sync,
        )
    &&& forall|i: int|
        0 <= i < c.plans.added.len() ==> !applies_added(
            (#[trigger] c.plans.added[i]).meta_info,
            instance,
            last_sync,
        )
    &&& forall|i: int|
        0 <= i < c.transactions.added.len() ==> !applies_added(
            (#[trigger] c.transactions.added[i]).meta_info,
            instance,
            last_sync,
        )
    &&& forall|i: int|
        0 <= i < c.transactions.removed.len() ==> !applies_removed(
            (#[trigger] c.transactions.removed[i]).meta_info,
            instance,
            last_sync,
        )
    &&& forall|i: int|
        0 <= i < c.plans.removed.len() ==> !applies_removed(
            (#[trigger] c.plans.removed[i]).meta_info,
            instance,
            last_sync,
        )
    &&& forall|i: int|
        0 <= i < c.categories.removed.len() ==> !applies_removed(
            (#[trigger] c.categories.removed[i]).meta_info,
            instance,
            last_sync,
        )
    &&& forall|i: int|
        0 <= i < c.accounts.removed.len() ==> !applies_removed(
            (#[trigger] c.accounts.removed[i]).meta_info,
            instance,
            last_sync,
        )
}

/// Whether every row of the new store that was authored on this
/// instance already existed, by identifier, in the old store: merging
/// never re-applies a row to the instance that authored it.
pub open spec fn no_local_additions(olds: StorageV, news: StorageV, instance: Id) -> bool {
    &&& forall|i: int|
        0 <= i < news.accounts.len() && (#[trigger] news.accounts[i]).meta_info.origin == instance
            ==> account_id_taken(olds.accounts, news.accounts[i].id->Some_0)
    &&& forall|i: int|
        0 <= i < news.categories.len() && (#[trigger] news.categories[i]).meta_info.origin
            == instance ==> category_id_taken(olds.categories, news.categories[i].id->Some_0)
    &&& forall|i: int|
        0 <= i < news.plans.len() && (#[trigger] news.plans[i]).meta_info.origin == instance
            ==> plan_id_taken(olds.plans, news.plans[i].id->Some_0)
    &&& forall|i: int|
        0 <= i < news.transactions.len() && (#[trigger] news.transactions[i]).meta_info.origin
            == instance ==> tx_id_taken(olds.transactions, news.transactions[i].id->Some_0)
}


/// One table's share of [`no_local_additions`]: every row authored on
/// this instance already existed, by identifier, in the old rows.
pub open spec fn accounts_no_local(
    olds: Seq<crate::data::EncryptedAccountV>,
    news: Seq<crate::data::EncryptedAccountV>,
    instance: Id,
) -> bool {
    forall|i: int|
        0 <= i < news.len() && (#[trigger] news[i]).meta_info.origin == instance
            ==> account_id_taken(olds, news[i].id->Some_0)
}

/// One table's share of [`no_local_additions`] for categories.
pub open spec fn categories_no_local(
    olds: Seq<crate::data::EncryptedCategoryV>,
    news: Seq<crate::data::EncryptedCategoryV>,
    instance: Id,
) -> bool {
    forall|i: int|
        0 <= i < news.len() && (#[trigger] news[i]).meta_info.origin == instance
            ==> category_id_taken(olds, news[i].id->Some_0)
}

/// One table's share of [`no_local_additions`] for plans.
pub open spec fn plans_no_local(
    olds: Seq<crate::data::EncryptedPlanV>,
    news: Seq<crate::data::EncryptedPlanV>,
    instance: Id,
) -> bool {
    forall|i: int|
        0 <= i < news.len() && (#[trigger] news[i]).meta_info.origin == instance
            ==> plan_id_taken(olds, news[i].id->Some_0)
}

/// One table's share of [`no_local_additions`] for transactions.
pub open spec fn txs_no_local(
    olds: Seq<crate::data::EncryptedTransactionV>,
    news: Seq<crate::data::EncryptedTransactionV>,
    instance: Id,
) -> bool {
    forall|i: int|
        0 <= i < news.len() && (#[trigger] news[i]).meta_info.origin == instance
            ==> tx_id_taken(olds, news[i].id->Some_0)
}

/// A change that keeps every account row's identifier and origin keeps
/// its share of [`no_local_additions`].
pub proof fn lemma_accounts_nl_pointwise(
    olds: Seq<crate::data::EncryptedAccountV>,
    pre: Seq<crate::data::EncryptedAccountV>,
    post: Seq<crate::data::EncryptedAccountV>,
    instance: Id,
)
    requires
        accounts_no_local(olds, pre, instance),
        post.len() == pre.len(),
        forall|i: int|
            0 <= i < pre.len() ==> (#[trigger] post[i]).id == pre[i].id
                && post[i].meta_info.origin == pre[i].meta_info.origin,
    ensures
        accounts_no_local(olds, post, instance),
{
}

/// Appending a foreign account row keeps its share of
/// [`no_local_additions`].
pub proof fn lemma_accounts_nl_push(
    olds: Seq<crate::data::EncryptedAccountV>,
    pre: Seq<crate::data::EncryptedAccountV>,
    post: Seq<crate::data::EncryptedAccountV>,
    instance: Id,
    row: crate::data::EncryptedAccountV,
)
    requires
        accounts_no_local(olds, pre, instance),
        post == pre.push(row),
        row.meta_info.origin != instance,
    ensures
        accounts_no_local(olds, post, instance),
{
    assert forall|i: int|
        0 <= i < post.len() && (#[trigger] post[i]).meta_info.origin == instance implies account_id_taken(
        olds,
        post[i].id->Some_0,
    ) by {
        if i < pre.len() {
            assert(post[i] == pre[i]);
        } else {
            assert(post[i] == row);
        }
    }
}

/// A change that keeps every category row's identifier and origin keeps
/// its share of [`no_local_additions`].
pub proof fn lemma_categories_nl_pointwise(
    olds: Seq<crate::data::EncryptedCategoryV>,
    pre: Seq<crate::data::EncryptedCategoryV>,
    post: Seq<crate::data::EncryptedCategoryV>,
    instance: Id,
)
    requires
        categories_no_local(olds, pre, instance),
        post.len() == pre.len(),
        forall|i: int|
            0 <= i < pre.len() ==> (#[trigger] post[i]).id == pre[i].id
                && post[i].meta_info.origin == pre[i].meta_info.origin,
    ensures
        categories_no_local(olds, post, instance),
{
}

/// Appending a foreign category row keeps its share of
/// [`no_local_additions`].
pub proof fn lemma_categories_nl_push(
    olds: Seq<crate::data::EncryptedCategoryV>,
    pre: Seq<crate::data::EncryptedCategoryV>,
    post: Seq<crate::data::EncryptedCategoryV>,
    instance: Id,
    row: crate::data::EncryptedCategoryV,
)
    requires
        categories_no_local(olds, pre, instance),
        post == pre.push(row),
        row.meta_info.origin != instance,
    ensures
        categories_no_local(olds, post, instance),
{
    assert forall|i: int|
        0 <= i < post.len() && (#[trigger] post[i]).meta_info.origin == instance implies category_id_taken(
        olds,
        post[i].id->Some_0,
    ) by {
        if i < pre.len() {
            assert(post[i] == pre[i]);
        } else {
            assert(post[i] == row);
        }
    }
}

/// A change that keeps every plan row's identifier and origin keeps
/// its share of [`no_local_additions`].
pub proof fn lemma_plans_nl_pointwise(
    olds: Seq<crate::data::EncryptedPlanV>,
    pre: Seq<crate::data::EncryptedPlanV>,
    post: Seq<crate::data::EncryptedPlanV>,
    instance: Id,
)
    requires
        plans_no_local(olds, pre, instance),
        post.len() == pre.len(),
        forall|i: int|
            0 <= i < pre.len() ==> (#[trigger] post[i]).id == pre[i].id
                && post[i].meta_info.origin == pre[i].meta_info.origin,
    ensures
        plans_no_local(olds, post, instance),
{
}

/// Appending a foreign plan row keeps its share of
/// [`no_local_additions`].
pub proof fn lemma_plans_nl_push(
    olds: Seq<crate::data::EncryptedPlanV>,
    pre: Seq<crate::data::EncryptedPlanV>,
    post: Seq<crate::data::EncryptedPlanV>,
    instance: Id,
    row: crate::data::EncryptedPlanV,
)
    requires
        plans_no_local(olds, pre, instance),
        post == pre.push(row),
        row.meta_info.origin != instance,
    ensures
        plans_no_local(olds, post, instance),
{
    assert forall|i: int|
        0 <= i < post.len() && (#[trigger] post[i]).meta_info.origin == instance implies plan_id_taken(
        olds,
        post[i].id->Some_0,
    ) by {
        if i < pre.len() {
            assert(post[i] == pre[i]);
        } else {
            assert(post[i] == row);
        }
    }
}

/// Inserting a foreign category row keeps its share of
/// [`no_local_additions`].
pub proof fn lemma_categories_nl_insert(
    olds: Seq<crate::data::EncryptedCategoryV>,
    pre: Seq<crate::data::EncryptedCategoryV>,
    post: Seq<crate::data::EncryptedCategoryV>,
    instance: Id,
    k: int,
    row: crate::data::EncryptedCategoryV,
)
    requires
        categories_no_local(olds, pre, instance),
        0 <= k <= pre.len(),
        post == pre.insert(k, row),
        row.meta_info.origin != instance,
    ensures
        categories_no_local(olds, post, instance),
{
    pre.insert_ensures(k, row);
    assert forall|i: int|
        0 <= i < post.len() && (#[trigger] post[i]).meta_info.origin == instance implies category_id_taken(
        olds,
        post[i].id->Some_0,
    ) by {
        if i < k {
            assert(post[i] == pre[i]);
        } else if i == k {
            assert(post[i] == row);
        } else {
            assert(post[i] == pre[i - 1]);
        }
    }
}

/// Inserting a foreign plan row keeps its share of
/// [`no_local_additions`].
pub proof fn lemma_plans_nl_insert(
    olds: Seq<crate::data::EncryptedPlanV>,
    pre: Seq<crate::data::EncryptedPlanV>,
    post: Seq<crate::data::EncryptedPlanV>,
    instance: Id,
    k: int,
    row: crate::data::EncryptedPlanV,
)
    requires
        plans_no_local(olds, pre, instance),
        0 <= k <= pre.len(),
        post == pre.insert(k, row),
        row.meta_info.origin != instance,
    ensures
        plans_no_local(olds, post, instance),
{
    pre.insert_ensures(k, row);
    assert forall|i: int|
        0 <= i < post.len() && (#[trigger] post[i]).meta_info.origin == instance implies plan_id_taken(
        olds,
        post[i].id->Some_0,
    ) by {
        if i < k {
            assert(post[i] == pre[i]);
        } else if i == k {
            assert(post[i] == row);
        } else {
            assert(post[i] == pre[i - 1]);
        }
    }
}

/// A change that keeps every transaction row's identifier and origin
/// keeps its share of [`no_local_additions`].
pub proof fn lemma_txs_nl_pointwise(
    olds: Seq<crate::data::EncryptedTransactionV>,
    pre: Seq<crate::data::EncryptedTransactionV>,
    post: Seq<crate::data::EncryptedTransactionV>,
    instance: Id,
)
    requires
        txs_no_local(olds, pre, instance),
        post.len() == pre.len(),
        forall|i: int|
            0 <= i < pre.len() ==> (#[trigger] post[i]).id == pre[i].id
                && post[i].meta_info.origin == pre[i].meta_info.origin,
    ensures
        txs_no_local(olds, post, instance),
{
}

/// Inserting a foreign transaction row keeps its share of
/// [`no_local_additions`].
pub proof fn lemma_txs_nl_insert(
    olds: Seq<crate::data::EncryptedTransactionV>,
    pre: Seq<crate::data::EncryptedTransactionV>,
    post: Seq<crate::data::EncryptedTransactionV>,
    instance: Id,
    k: int,
    row: crate::data::EncryptedTransactionV,
)
    requires
        txs_no_local(olds, pre, instance),
        0 <= k <= pre.len(),
        post == pre.insert(k, row),
        row.meta_info.origin != instance,
    ensures
        txs_no_local(olds, post, instance),
{
    pre.insert_ensures(k, row);
    assert forall|i: int|
        0 <= i < post.len() && (#[trigger] post[i]).meta_info.origin == instance implies tx_id_taken(
        olds,
        post[i].id->Some_0,
    ) by {
        if i < k {
            assert(post[i] == pre[i]);
        } else if i == k {
            assert(post[i] == row);
        } else {
            assert(post[i] == pre[i - 1]);
        }
    }
}

/// [`no_local_additions`] decomposes into the four per-table shares.
pub proof fn lemma_nla_split(olds: StorageV, news: StorageV, instance: Id)
    ensures
        no_local_additions(olds, news, instance) <==> (accounts_no_local(
            olds.accounts,
            news.accounts,
            instance,
        ) && categories_no_local(olds.categories, news.categories, instance) && plans_no_local(
            olds.plans,
            news.plans,
            instance,
        ) && txs_no_local(olds.transactions, news.transactions, instance)),
{
}

/// A well-formed store never re-applies its own rows to itself.
pub proof fn lemma_nla_refl(st: StorageV, instance: Id)
    requires
        crate::storage::tx_rows_ok(st.transactions),
        crate::storage::account_rows_ok(st.accounts),
        crate::storage::category_rows_ok(st.categories),
        crate::storage::plan_rows_ok(st.plans),
    ensures
        no_local_additions(st, st, instance),
{
    assert forall|i: int|
        0 <= i < st.accounts.len() && (#[trigger] st.accounts[i]).meta_info.origin == instance
        implies account_id_taken(st.accounts, st.accounts[i].id->Some_0) by {
        assert(st.accounts[i].id == Some(st.accounts[i].id->Some_0));
    }
    assert forall|i: int|
        0 <= i < st.categories.len() && (#[trigger] st.categories[i]).meta_info.origin == instance
        implies category_id_taken(st.categories, st.categories[i].id->Some_0) by {
        assert(st.categories[i].id == Some(st.categories[i].id->Some_0));
    }
    assert forall|i: int|
        0 <= i < st.plans.len() && (#[trigger] st.plans[i]).meta_info.origin == instance
        implies plan_id_taken(st.plans, st.plans[i].id->Some_0) by {
        assert(st.plans[i].id == Some(st.plans[i].id->Some_0));
    }
    assert forall|i: int|
        0 <= i < st.transactions.len() && (#[trigger] st.transactions[i]).meta_info.origin
            == instance implies tx_id_taken(st.transactions, st.transactions[i].id->Some_0) by {
        assert(st.transactions[i].id == Some(st.transactions[i].id->Some_0));
    }
}


/// Round trip of the whole synchronization artifact: the three files a
/// successful export writes, opened under the same password, denote
/// exactly the cumulative changelog that was sealed. Together with the
/// export contract this states that decrypting an encrypted sync
/// artifact with its own password gives the original changelog back.
pub proof fn lemma_artifact_round_trip(
    auth: Seq<u8>,
    now: Timestamp,
    instance: Id,
    timestamp_file: Seq<u8>,
    instance_file: Seq<u8>,
    changelog_file: Seq<u8>,
    total: ChangelogV,
)
    requires
        timestamp_file == spec_u64_to_le_bytes(now as u64),
        instance_file == id_bytes(instance),
        aead_open_total(scrypt_of(auth, sync_salt(now, instance), 32), changelog_file) == Some(
            enc_changelog(total),
        ),
        crate::codec::changelog_encodable(total),
    ensures
        remote_changelog_of(auth, timestamp_file, instance_file, changelog_file) == Some(total),
{
    lemma_auto_spec_u64_to_from_le_bytes();
    assert(timestamp_file.len() == 8);
    assert(timestamp_file.take(8) =~= timestamp_file);
    assert((now as u64) as i64 == now) by (bit_vector);
    assert(artifact_timestamp(timestamp_file) == now);
    crate::data::lemma_id_bytes_round_trip();
    assert(instance_file.take(16) =~= instance_file);
    assert(artifact_instance(instance_file) == instance);
    crate::codec::lemma_dec_enc_changelog(total, Seq::<u8>::empty());
    assert(enc_changelog(total) + Seq::<u8>::empty() =~= enc_changelog(total));
}

/// Round trip of the changelog envelope: a sealed blob that opens to
/// the encoding of a changelog decodes back to exactly that changelog.
pub proof fn lemma_changelog_envelope_round_trip(c: ChangelogV, key: Seq<u8>, blob: Seq<u8>)
    requires
        aead_open_total(key, blob) == Some(crate::codec::enc_changelog(c)),
        crate::codec::changelog_encodable(c),
    ensures
        crate::codec::dec_changelog(aead_open_total(key, blob)->Some_0) == Some(
            (c, crate::codec::enc_changelog(c).len() as int),
        ),
{
    crate::codec::lemma_dec_enc_changelog(c, Seq::<u8>::empty());
    assert(crate::codec::enc_changelog(c) + Seq::<u8>::empty() =~= crate::codec::enc_changelog(c));
}

/// Whether every identifier present in the first row sequence is still
/// present in the second.
pub open spec fn account_ids_preserved(
    pre: Seq<crate::data::EncryptedAccountV>,
    post: Seq<crate::data::EncryptedAccountV>,
) -> bool {
    forall|x: Id| account_id_taken(pre, x) ==> #[trigger] account_id_taken(post, x)
}

/// Identifier preservation for categories.
pub open spec fn category_ids_preserved(
    pre: Seq<crate::data::EncryptedCategoryV>,
    post: Seq<crate::data::EncryptedCategoryV>,
) -> bool {
    forall|x: Id| category_id_taken(pre, x) ==> #[trigger] category_id_taken(post, x)
}

/// Identifier preservation for plans.
pub open spec fn plan_ids_preserved(
    pre: Seq<crate::data::EncryptedPlanV>,
    post: Seq<crate::data::EncryptedPlanV>,
) -> bool {
    forall|x: Id| plan_id_taken(pre, x) ==> #[trigger] plan_id_taken(post, x)
}

/// Identifier preservation for transactions.
pub open spec fn tx_ids_preserved(
    pre: Seq<crate::data::EncryptedTransactionV>,
    post: Seq<crate::data::EncryptedTransactionV>,
) -> bool {
    forall|x: Id| tx_id_taken(pre, x) ==> #[trigger] tx_id_taken(post, x)
}

/// Whether every row carrying this id is tombstoned.
pub open spec fn tx_all_tombstoned(s: Seq<crate::data::EncryptedTransactionV>, id: Id) -> bool {
    forall|m: int|
        0 <= m < s.len() && (#[trigger] s[m]).id == Some(id) ==> s[m].meta_info.removed_timestamp
            is Some
}

/// Whether every plan row carrying this id is tombstoned.
pub open spec fn plan_all_tombstoned(s: Seq<crate::data::EncryptedPlanV>, id: Id) -> bool {
    forall|m: int|
        0 <= m < s.len() && (#[trigger] s[m]).id == Some(id) ==> s[m].meta_info.removed_timestamp
            is Some
}

/// Whether every category row carrying this id is tombstoned.
pub open spec fn category_all_tombstoned(s: Seq<crate::data::EncryptedCategoryV>, id: Id) -> bool {
    forall|m: int|
        0 <= m < s.len() && (#[trigger] s[m]).id == Some(id) ==> s[m].meta_info.removed_timestamp
            is Some
}

/// Whether every account row carrying this id is tombstoned.
pub open spec fn account_all_tombstoned(s: Seq<crate::data::EncryptedAccountV>, id: Id) -> bool {
    forall|m: int|
        0 <= m < s.len() && (#[trigger] s[m]).id == Some(id) ==> s[m].meta_info.removed_timestamp
            is Some
}

/// What a finished merge guarantees of the applicable added rows:
/// each one's identifier is present in the matching table.
pub open spec fn merge_adds_applied(c: ChangelogV, st: StorageV, inst: Id, base: Timestamp) -> bool {
    &&& forall|j: int|
        0 <= j < c.accounts.added.len() && applies_added(
            (#[trigger] c.accounts.added[j]).meta_info,
            inst,
            base,
        ) && c.accounts.added[j].id is Some ==> account_id_taken(
            st.accounts,
            c.accounts.added[j].id->Some_0,
        )
    &&& forall|j: int|
        0 <= j < c.categories.added.len() && applies_added(
            (#[trigger] c.categories.added[j]).meta_info,
            inst,
            base,
        ) && c.categories.added[j].id is Some ==> category_id_taken(
            st.categories,
            c.categories.added[j].id->Some_0,
        )
    &&& forall|j: int|
        0 <= j < c.plans.added.len() && applies_added(
            (#[trigger] c.plans.added[j]).meta_info,
            inst,
            base,
        ) && c.plans.added[j].id is Some ==> plan_id_taken(
            st.plans,
            c.plans.added[j].id->Some_0,
        )
    &&& forall|j: int|
        0 <= j < c.transactions.added.len() && applies_added(
            (#[trigger] c.transactions.added[j]).meta_info,
            inst,
            base,
        ) && c.transactions.added[j].id is Some ==> tx_id_taken(
            st.transactions,
            c.transactions.added[j].id->Some_0,
        )
}

/// What a finished merge guarantees of the applicable removed rows:
/// every stored row carrying such an identifier is tombstoned.
pub open spec fn merge_removals_applied(
    c: ChangelogV,
    st: StorageV,
    inst: Id,
    base: Timestamp,
) -> bool {
    &&& forall|j: int|
        0 <= j < c.transactions.removed.len() && applies_removed(
            (#[trigger] c.transactions.removed[j]).meta_info,
            inst,
            base,
        ) && c.transactions.removed[j].id is Some ==> tx_all_tombstoned(
            st.transactions,
            c.transactions.removed[j].id->Some_0,
        )
    &&& forall|j: int|
        0 <= j < c.plans.removed.len() && applies_removed(
            (#[trigger] c.plans.removed[j]).meta_info,
            inst,
            base,
        ) && c.plans.removed[j].id is Some ==> plan_all_tombstoned(
            st.plans,
            c.plans.removed[j].id->Some_0,
        )
    &&& forall|j: int|
        0 <= j < c.categories.removed.len() && applies_removed(
            (#[trigger] c.categories.removed[j]).meta_info,
            inst,
            base,
        ) && c.categories.removed[j].id is Some ==> category_all_tombstoned(
            st.categories,
            c.categories.removed[j].id->Some_0,
        )
    &&& forall|j: int|
        0 <= j < c.accounts.removed.len() && applies_removed(
            (#[trigger] c.accounts.removed[j]).meta_info,
            inst,
            base,
        ) && c.accounts.removed[j].id is Some ==> account_all_tombstoned(
            st.accounts,
            c.accounts.removed[j].id->Some_0,
        )
}

/// The first `upto` added account rows of a changelog have been applied.
pub open spec fn accounts_adds_done(
    rows: Seq<crate::data::AccountV>,
    upto: int,
    st: StorageV,
    instance: Id,
    base: Timestamp,
) -> bool {
    forall|j: int|
        0 <= j < upto && applies_added((#[trigger] rows[j]).meta_info, instance, base)
            && rows[j].id is Some ==> account_id_taken(st.accounts, rows[j].id->Some_0)
}

/// The first `upto` added category rows of a changelog have been applied.
pub open spec fn categories_adds_done(
    rows: Seq<crate::data::CategoryV>,
    upto: int,
    st: StorageV,
    instance: Id,
    base: Timestamp,
) -> bool {
    forall|j: int|
        0 <= j < upto && applies_added((#[trigger] rows[j]).meta_info, instance, base)
            && rows[j].id is Some ==> category_id_taken(st.categories, rows[j].id->Some_0)
}

/// The first `upto` added plan rows of a changelog have been applied.
pub open spec fn plans_adds_done(
    rows: Seq<crate::data::PlanV>,
    upto: int,
    st: StorageV,
    instance: Id,
    base: Timestamp,
) -> bool {
    forall|j: int|
        0 <= j < upto && applies_added((#[trigger] rows[j]).meta_info, instance, base)
            && rows[j].id is Some ==> plan_id_taken(st.plans, rows[j].id->Some_0)
}

/// The first `upto` added transaction rows of a changelog have been applied.
pub open spec fn txs_adds_done(
    rows: Seq<crate::data::TransactionV>,
    upto: int,
    st: StorageV,
    instance: Id,
    base: Timestamp,
) -> bool {
    forall|j: int|
        0 <= j < upto && applies_added((#[trigger] rows[j]).meta_info, instance, base)
            && rows[j].id is Some ==> tx_id_taken(st.transactions, rows[j].id->Some_0)
}

/// The first `upto` removed transaction rows of a changelog have been applied.
pub open spec fn txs_removals_done(
    rows: Seq<crate::data::TransactionV>,
    upto: int,
    st: StorageV,
    instance: Id,
    base: Timestamp,
) -> bool {
    forall|j: int|
        0 <= j < upto && applies_removed((#[trigger] rows[j]).meta_info, instance, base)
            && rows[j].id is Some ==> tx_all_tombstoned(st.transactions, rows[j].id->Some_0)
}

/// The first `upto` removed plan rows of a changelog have been applied.
pub open spec fn plans_removals_done(
    rows: Seq<crate::data::PlanV>,
    upto: int,
    st: StorageV,
    instance: Id,
    base: Timestamp,
) -> bool {
    forall|j: int|
        0 <= j < upto && applies_removed((#[trigger] rows[j]).meta_info, instance, base)
            && rows[j].id is Some ==> plan_all_tombstoned(st.plans, rows[j].id->Some_0)
}

/// The first `upto` removed category rows of a changelog have been applied.
pub open spec fn categories_removals_done(
    rows: Seq<crate::data::CategoryV>,
    upto: int,
    st: StorageV,
    instance: Id,
    base: Timestamp,
) -> bool {
    forall|j: int|
        0 <= j < upto && applies_removed((#[trigger] rows[j]).meta_info, instance, base)
            && rows[j].id is Some ==> category_all_tombstoned(st.categories, rows[j].id->Some_0)
}

/// The first `upto` removed account rows of a changelog have been applied.
pub open spec fn accounts_removals_done(
    rows: Seq<crate::data::AccountV>,
    upto: int,
    st: StorageV,
    instance: Id,
    base: Timestamp,
) -> bool {
    forall|j: int|
        0 <= j < upto && applies_removed((#[trigger] rows[j]).meta_info, instance, base)
            && rows[j].id is Some ==> account_all_tombstoned(st.accounts, rows[j].id->Some_0)
}

/// Identifiers present in the account table stay present across any
/// step a merge performs on it.
pub proof fn lemma_accounts_step_preserves(
    pre: Seq<crate::data::EncryptedAccountV>,
    post: Seq<crate::data::EncryptedAccountV>,
)
    requires
        post == pre || (exists|k: int, row: crate::data::EncryptedAccountV|
            0 <= k <= pre.len() && post == #[trigger] pre.insert(k, row)) || (post.len()
            == pre.len() && (forall|m: int|
            0 <= m < pre.len() ==> (#[trigger] post[m]).id == pre[m].id
                && (pre[m].meta_info.removed_timestamp is Some
                ==> post[m].meta_info.removed_timestamp is Some))),
    ensures
        forall|x: Id| account_id_taken(pre, x) ==> #[trigger] account_id_taken(post, x),
        forall|x: Id| account_all_tombstoned(pre, x) && (post.len() == pre.len() && (forall|m: int|
            0 <= m < pre.len() ==> (#[trigger] post[m]).id == pre[m].id
                && (pre[m].meta_info.removed_timestamp is Some
                ==> post[m].meta_info.removed_timestamp is Some)))
            ==> #[trigger] account_all_tombstoned(post, x),
{
    if post == pre {
    } else if exists|k: int, row: crate::data::EncryptedAccountV|
        0 <= k <= pre.len() && post == #[trigger] pre.insert(k, row) {
        let (k, row) = choose|k: int, row: crate::data::EncryptedAccountV|
            0 <= k <= pre.len() && post == #[trigger] pre.insert(k, row);
        pre.insert_ensures(k, row);
        assert forall|x: Id| account_id_taken(pre, x) implies #[trigger] account_id_taken(post, x) by {
            let w = choose|w: int| 0 <= w < pre.len() && (#[trigger] pre[w]).id == Some(x);
            if w < k {
                assert(post[w] == pre[w]);
            } else {
                assert(post[w + 1] == pre[w]);
            }
        }
    } else {
        assert forall|x: Id| account_id_taken(pre, x) implies #[trigger] account_id_taken(post, x) by {
            let w = choose|w: int| 0 <= w < pre.len() && (#[trigger] pre[w]).id == Some(x);
            assert(post[w].id == Some(x));
        }
    }
}

/// Identifiers present in the category table stay present across any
/// step a merge performs on it.
pub proof fn lemma_categories_step_preserves(
    pre: Seq<crate::data::EncryptedCategoryV>,
    post: Seq<crate::data::EncryptedCategoryV>,
)
    requires
        post == pre || (exists|k: int, row: crate::data::EncryptedCategoryV|
            0 <= k <= pre.len() && post == #[trigger] pre.insert(k, row)) || (post.len()
            == pre.len() && (forall|m: int|
            0 <= m < pre.len() ==> (#[trigger] post[m]).id == pre[m].id
                && (pre[m].meta_info.removed_timestamp is Some
                ==> post[m].meta_info.removed_timestamp is Some))),
    ensures
        forall|x: Id| category_id_taken(pre, x) ==> #[trigger] category_id_taken(post, x),
        forall|x: Id| category_all_tombstoned(pre, x) && (post.len() == pre.len() && (forall|m: int|
            0 <= m < pre.len() ==> (#[trigger] post[m]).id == pre[m].id
                && (pre[m].meta_info.removed_timestamp is Some
                ==> post[m].meta_info.removed_timestamp is Some)))
            ==> #[trigger] category_all_tombstoned(post, x),
{
    if post == pre {
    } else if exists|k: int, row: crate::data::EncryptedCategoryV|
        0 <= k <= pre.len() && post == #[trigger] pre.insert(k, row) {
        let (k, row) = choose|k: int, row: crate::data::EncryptedCategoryV|
            0 <= k <= pre.len() && post == #[trigger] pre.insert(k, row);
        pre.insert_ensures(k, row);
        assert forall|x: Id| category_id_taken(pre, x) implies #[trigger] category_id_taken(post, x) by {
            let w = choose|w: int| 0 <= w < pre.len() && (#[trigger] pre[w]).id == Some(x);
            if w < k {
                assert(post[w] == pre[w]);
            } else {
                assert(post[w + 1] == pre[w]);
            }
        }
    } else {
        assert forall|x: Id| category_id_taken(pre, x) implies #[trigger] category_id_taken(post, x) by {
            let w = choose|w: int| 0 <= w < pre.len() && (#[trigger] pre[w]).id == Some(x);
            assert(post[w].id == Some(x));
        }
    }
}

/// Identifiers present in the plan table stay present across any
/// step a merge performs on it.
pub proof fn lemma_plans_step_preserves(
    pre: Seq<crate::data::EncryptedPlanV>,
    post: Seq<crate::data::EncryptedPlanV>,
)
    requires
        post == pre || (exists|k: int, row: crate::data::EncryptedPlanV|
            0 <= k <= pre.len() && post == #[trigger] pre.insert(k, row)) || (post.len()
            == pre.len() && (forall|m: int|
            0 <= m < pre.len() ==> (#[trigger] post[m]).id == pre[m].id
                && (pre[m].meta_info.removed_timestamp is Some
                ==> post[m].meta_info.removed_timestamp is Some))),
    ensures
        forall|x: Id| plan_id_taken(pre, x) ==> #[trigger] plan_id_taken(post, x),
        forall|x: Id| plan_all_tombstoned(pre, x) && (post.len() == pre.len() && (forall|m: int|
            0 <= m < pre.len() ==> (#[trigger] post[m]).id == pre[m].id
                && (pre[m].meta_info.removed_timestamp is Some
                ==> post[m].meta_info.removed_timestamp is Some)))
            ==> #[trigger] plan_all_tombstoned(post, x),
{
    if post == pre {
    } else if exists|k: int, row: crate::data::EncryptedPlanV|
        0 <= k <= pre.len() && post == #[trigger] pre.insert(k, row) {
        let (k, row) = choose|k: int, row: crate::data::EncryptedPlanV|
            0 <= k <= pre.len() && post == #[trigger] pre.insert(k, row);
        pre.insert_ensures(k, row);
        assert forall|x: Id| plan_id_taken(pre, x) implies #[trigger] plan_id_taken(post, x) by {
            let w = choose|w: int| 0 <= w < pre.len() && (#[trigger] pre[w]).id == Some(x);
            if w < k {
                assert(post[w] == pre[w]);
            } else {
                assert(post[w + 1] == pre[w]);
            }
        }
    } else {
        assert forall|x: Id| plan_id_taken(pre, x) implies #[trigger] plan_id_taken(post, x) by {
            let w = choose|w: int| 0 <= w < pre.len() && (#[trigger] pre[w]).id == Some(x);
            assert(post[w].id == Some(x));
        }
    }
}

/// Identifiers present in the transaction table stay present across any
/// step a merge performs on it.
pub proof fn lemma_txs_step_preserves(
    pre: Seq<crate::data::EncryptedTransactionV>,
    post: Seq<crate::data::EncryptedTransactionV>,
)
    requires
        post == pre || (exists|k: int, row: crate::data::EncryptedTransactionV|
            0 <= k <= pre.len() && post == #[trigger] pre.insert(k, row)) || (post.len()
            == pre.len() && (forall|m: int|
            0 <= m < pre.len() ==> (#[trigger] post[m]).id == pre[m].id
                && (pre[m].meta_info.removed_timestamp is Some
                ==> post[m].meta_info.removed_timestamp is Some))),
    ensures
        forall|x: Id| tx_id_taken(pre, x) ==> #[trigger] tx_id_taken(post, x),
        forall|x: Id| tx_all_tombstoned(pre, x) && (post.len() == pre.len() && (forall|m: int|
            0 <= m < pre.len() ==> (#[trigger] post[m]).id == pre[m].id
                && (pre[m].meta_info.removed_timestamp is Some
                ==> post[m].meta_info.removed_timestamp is Some)))
            ==> #[trigger] tx_all_tombstoned(post, x),
{
    if post == pre {
    } else if exists|k: int, row: crate::data::EncryptedTransactionV|
        0 <= k <= pre.len() && post == #[trigger] pre.insert(k, row) {
        let (k, row) = choose|k: int, row: crate::data::EncryptedTransactionV|
            0 <= k <= pre.len() && post == #[trigger] pre.insert(k, row);
        pre.insert_ensures(k, row);
        assert forall|x: Id| tx_id_taken(pre, x) implies #[trigger] tx_id_taken(post, x) by {
            let w = choose|w: int| 0 <= w < pre.len() && (#[trigger] pre[w]).id == Some(x);
            if w < k {
                assert(post[w] == pre[w]);
            } else {
                assert(post[w + 1] == pre[w]);
            }
        }
    } else {
        assert forall|x: Id| tx_id_taken(pre, x) implies #[trigger] tx_id_taken(post, x) by {
            let w = choose|w: int| 0 <= w < pre.len() && (#[trigger] pre[w]).id == Some(x);
            assert(post[w].id == Some(x));
        }
    }
}

/// Whether some row of the old table already carried this id as a
/// tombstone.
pub open spec fn tx_was_tombstoned(olds: Seq<crate::data::EncryptedTransactionV>, id: Id) -> bool {
    exists|i: int|
        0 <= i < olds.len() && (#[trigger] olds[i]).id == Some(id)
            && olds[i].meta_info.removed_timestamp is Some
}

/// Tombstone presence for plans.
pub open spec fn plan_was_tombstoned(olds: Seq<crate::data::EncryptedPlanV>, id: Id) -> bool {
    exists|i: int|
        0 <= i < olds.len() && (#[trigger] olds[i]).id == Some(id)
            && olds[i].meta_info.removed_timestamp is Some
}

/// Tombstone presence for categories.
pub open spec fn category_was_tombstoned(
    olds: Seq<crate::data::EncryptedCategoryV>,
    id: Id,
) -> bool {
    exists|i: int|
        0 <= i < olds.len() && (#[trigger] olds[i]).id == Some(id)
            && olds[i].meta_info.removed_timestamp is Some
}

/// Tombstone presence for accounts.
pub open spec fn account_was_tombstoned(
    olds: Seq<crate::data::EncryptedAccountV>,
    id: Id,
) -> bool {
    exists|i: int|
        0 <= i < olds.len() && (#[trigger] olds[i]).id == Some(id)
            && olds[i].meta_info.removed_timestamp is Some
}

/// Whether a removal list holds an applicable foreign entry for this id.
pub open spec fn foreign_tx_removal_listed(
    rows: Seq<crate::data::TransactionV>,
    instance: Id,
    base: Timestamp,
    id: Id,
) -> bool {
    exists|j: int|
        0 <= j < rows.len() && (#[trigger] rows[j]).id == Some(id) && applies_removed(
            rows[j].meta_info,
            instance,
            base,
        )
}

/// Applicable foreign plan removal entry for this id.
pub open spec fn foreign_plan_removal_listed(
    rows: Seq<crate::data::PlanV>,
    instance: Id,
    base: Timestamp,
    id: Id,
) -> bool {
    exists|j: int|
        0 <= j < rows.len() && (#[trigger] rows[j]).id == Some(id) && applies_removed(
            rows[j].meta_info,
            instance,
            base,
        )
}

/// Applicable foreign category removal entry for this id.
pub open spec fn foreign_category_removal_listed(
    rows: Seq<crate::data::CategoryV>,
    instance: Id,
    base: Timestamp,
    id: Id,
) -> bool {
    exists|j: int|
        0 <= j < rows.len() && (#[trigger] rows[j]).id == Some(id) && applies_removed(
            rows[j].meta_info,
            instance,
            base,
        )
}

/// Applicable foreign account removal entry for this id.
pub open spec fn foreign_account_removal_listed(
    rows: Seq<crate::data::AccountV>,
    instance: Id,
    base: Timestamp,
    id: Id,
) -> bool {
    exists|j: int|
        0 <= j < rows.len() && (#[trigger] rows[j]).id == Some(id) && applies_removed(
            rows[j].meta_info,
            instance,
            base,
        )
}

/// The removal-justification claim for one transaction table.
pub open spec fn txs_removals_justified(
    c: ChangelogV,
    olds: Seq<crate::data::EncryptedTransactionV>,
    news: Seq<crate::data::EncryptedTransactionV>,
    instance: Id,
    base: Timestamp,
) -> bool {
    forall|i: int|
        0 <= i < news.len() && (#[trigger] news[i]).meta_info.removed_timestamp is Some
            ==> tx_was_tombstoned(olds, news[i].id->Some_0) || foreign_tx_removal_listed(
            c.transactions.removed,
            instance,
            base,
            news[i].id->Some_0,
        )
}

/// Any step a merge performs on the transaction table keeps its removal
/// justification: it leaves the table alone, inserts a live row, keeps
/// ids and removal stamps, or tombstones an id named by an applicable
/// foreign removal entry.
pub proof fn lemma_txs_justified_step(
    c: ChangelogV,
    olds: Seq<crate::data::EncryptedTransactionV>,
    pre: Seq<crate::data::EncryptedTransactionV>,
    post: Seq<crate::data::EncryptedTransactionV>,
    instance: Id,
    base: Timestamp,
)
    requires
        txs_removals_justified(c, olds, pre, instance, base),
        post == pre || (exists|k: int, row: crate::data::EncryptedTransactionV|
            0 <= k <= pre.len() && post == #[trigger] pre.insert(k, row)
                && row.meta_info.removed_timestamp is None) || (post.len() == pre.len() && (
        forall|m: int|
            0 <= m < pre.len() ==> (#[trigger] post[m]).id == pre[m].id
                && post[m].meta_info.removed_timestamp == pre[m].meta_info.removed_timestamp))
            || (exists|id: Id, t: Timestamp|
            post == #[trigger] crate::storage::tx_tombstoned(pre, id, t) && foreign_tx_removal_listed(
                c.transactions.removed,
                instance,
                base,
                id,
            )),
    ensures
        txs_removals_justified(c, olds, post, instance, base),
{
    if post == pre {
    } else if exists|k: int, row: crate::data::EncryptedTransactionV|
        0 <= k <= pre.len() && post == #[trigger] pre.insert(k, row)
            && row.meta_info.removed_timestamp is None {
        let (k, row) = choose|k: int, row: crate::data::EncryptedTransactionV|
            0 <= k <= pre.len() && post == #[trigger] pre.insert(k, row)
                && row.meta_info.removed_timestamp is None;
        pre.insert_ensures(k, row);
        assert forall|i: int|
            0 <= i < post.len() && (#[trigger] post[i]).meta_info.removed_timestamp
                is Some implies tx_was_tombstoned(olds, post[i].id->Some_0) || foreign_tx_removal_listed(
            c.transactions.removed,
            instance,
            base,
            post[i].id->Some_0,
        ) by {
            if i < k {
                assert(post[i] == pre[i]);
            } else if i == k {
                assert(post[i] == row);
            } else {
                assert(post[i] == pre[i - 1]);
            }
        }
    } else if post.len() == pre.len() && (forall|m: int|
        0 <= m < pre.len() ==> (#[trigger] post[m]).id == pre[m].id
            && post[m].meta_info.removed_timestamp == pre[m].meta_info.removed_timestamp) {
        assert forall|i: int|
            0 <= i < post.len() && (#[trigger] post[i]).meta_info.removed_timestamp
                is Some implies tx_was_tombstoned(olds, post[i].id->Some_0) || foreign_tx_removal_listed(
            c.transactions.removed,
            instance,
            base,
            post[i].id->Some_0,
        ) by {
            assert(pre[i].meta_info.removed_timestamp is Some);
        }
    } else {
        let (id, t) = choose|id: Id, t: Timestamp|
            post == #[trigger] crate::storage::tx_tombstoned(pre, id, t) && foreign_tx_removal_listed(
                c.transactions.removed,
                instance,
                base,
                id,
            );
        assert forall|i: int|
            0 <= i < post.len() && (#[trigger] post[i]).meta_info.removed_timestamp
                is Some implies tx_was_tombstoned(olds, post[i].id->Some_0) || foreign_tx_removal_listed(
            c.transactions.removed,
            instance,
            base,
            post[i].id->Some_0,
        ) by {
            if pre[i].id == Some(id) {
                assert(post[i].id == Some(id));
            } else {
                assert(post[i] == pre[i]);
            }
        }
    }
}

/// The removal-justification claim for one plan table.
pub open spec fn plans_removals_justified(
    c: ChangelogV,
    olds: Seq<crate::data::EncryptedPlanV>,
    news: Seq<crate::data::EncryptedPlanV>,
    instance: Id,
    base: Timestamp,
) -> bool {
    forall|i: int|
        0 <= i < news.len() && (#[trigger] news[i]).meta_info.removed_timestamp is Some
            ==> plan_was_tombstoned(olds, news[i].id->Some_0) || foreign_plan_removal_listed(
            c.plans.removed,
            instance,
            base,
            news[i].id->Some_0,
        )
}

/// Any step a merge performs on the plan table keeps its removal
/// justification: it leaves the table alone, inserts a live row, keeps
/// ids and removal stamps, or tombstones an id named by an applicable
/// foreign removal entry.
pub proof fn lemma_plans_justified_step(
    c: ChangelogV,
    olds: Seq<crate::data::EncryptedPlanV>,
    pre: Seq<crate::data::EncryptedPlanV>,
    post: Seq<crate::data::EncryptedPlanV>,
    instance: Id,
    base: Timestamp,
)
    requires
        plans_removals_justified(c, olds, pre, instance, base),
        post == pre || (exists|k: int, row: crate::data::EncryptedPlanV|
            0 <= k <= pre.len() && post == #[trigger] pre.insert(k, row)
                && row.meta_info.removed_timestamp is None) || (post.len() == pre.len() && (
        forall|m: int|
            0 <= m < pre.len() ==> (#[trigger] post[m]).id == pre[m].id
                && post[m].meta_info.removed_timestamp == pre[m].meta_info.removed_timestamp))
            || (exists|id: Id, t: Timestamp|
            post == #[trigger] crate::storage::plan_tombstoned(pre, id, t) && foreign_plan_removal_listed(
                c.plans.removed,
                instance,
                base,
                id,
            )),
    ensures
        plans_removals_justified(c, olds, post, instance, base),
{
    if post == pre {
    } else if exists|k: int, row: crate::data::EncryptedPlanV|
        0 <= k <= pre.len() && post == #[trigger] pre.insert(k, row)
            && row.meta_info.removed_timestamp is None {
        let (k, row) = choose|k: int, row: crate::data::EncryptedPlanV|
            0 <= k <= pre.len() && post == #[trigger] pre.insert(k, row)
                && row.meta_info.removed_timestamp is None;
        pre.insert_ensures(k, row);
        assert forall|i: int|
            0 <= i < post.len() && (#[trigger] post[i]).meta_info.removed_timestamp
                is Some implies plan_was_tombstoned(olds, post[i].id->Some_0) || foreign_plan_removal_listed(
            c.plans.removed,
            instance,
            base,
            post[i].id->Some_0,
        ) by {
            if i < k {
                assert(post[i] == pre[i]);
            } else if i == k {
                assert(post[i] == row);
            } else {
                assert(post[i] == pre[i - 1]);
            }
        }
    } else if post.len() == pre.len() && (forall|m: int|
        0 <= m < pre.len() ==> (#[trigger] post[m]).id == pre[m].id
            && post[m].meta_info.removed_timestamp == pre[m].meta_info.removed_timestamp) {
        assert forall|i: int|
            0 <= i < post.len() && (#[trigger] post[i]).meta_info.removed_timestamp
                is Some implies plan_was_tombstoned(olds, post[i].id->Some_0) || foreign_plan_removal_listed(
            c.plans.removed,
            instance,
            base,
            post[i].id->Some_0,
        ) by {
            assert(pre[i].meta_info.removed_timestamp is Some);
        }
    } else {
        let (id, t) = choose|id: Id, t: Timestamp|
            post == #[trigger] crate::storage::plan_tombstoned(pre, id, t) && foreign_plan_removal_listed(
                c.plans.removed,
                instance,
                base,
                id,
            );
        assert forall|i: int|
            0 <= i < post.len() && (#[trigger] post[i]).meta_info.removed_timestamp
                is Some implies plan_was_tombstoned(olds, post[i].id->Some_0) || foreign_plan_removal_listed(
            c.plans.removed,
            instance,
            base,
            post[i].id->Some_0,
        ) by {
            if pre[i].id == Some(id) {
                assert(post[i].id == Some(id));
            } else {
                assert(post[i] == pre[i]);
            }
        }
    }
}

/// The removal-justification claim for one category table.
pub open spec fn categories_removals_justified(
    c: ChangelogV,
    olds: Seq<crate::data::EncryptedCategoryV>,
    news: Seq<crate::data::EncryptedCategoryV>,
    instance: Id,
    base: Timestamp,
) -> bool {
    forall|i: int|
        0 <= i < news.len() && (#[trigger] news[i]).meta_info.removed_timestamp is Some
            ==> category_was_tombstoned(olds, news[i].id->Some_0) || foreign_category_removal_listed(
            c.categories.removed,
            instance,
            base,
            news[i].id->Some_0,
        )
}

/// Any step a merge performs on the category table keeps its removal
/// justification: it leaves the table alone, inserts a live row, keeps
/// ids and removal stamps, or tombstones an id named by an applicable
/// foreign removal entry.
pub proof fn lemma_categories_justified_step(
    c: ChangelogV,
    olds: Seq<crate::data::EncryptedCategoryV>,
    pre: Seq<crate::data::EncryptedCategoryV>,
    post: Seq<crate::data::EncryptedCategoryV>,
    instance: Id,
    base: Timestamp,
)
    requires
        categories_removals_justified(c, olds, pre, instance, base),
        post == pre || (exists|k: int, row: crate::data::EncryptedCategoryV|
            0 <= k <= pre.len() && post == #[trigger] pre.insert(k, row)
                && row.meta_info.removed_timestamp is None) || (post.len() == pre.len() && (
        forall|m: int|
            0 <= m < pre.len() ==> (#[trigger] post[m]).id == pre[m].id
                && post[m].meta_info.removed_timestamp == pre[m].meta_info.removed_timestamp))
            || (exists|id: Id, t: Timestamp|
            post == #[trigger] crate::storage::category_tombstoned(pre, id, t) && foreign_category_removal_listed(
                c.categories.removed,
                instance,
                base,
                id,
            )),
    ensures
        categories_removals_justified(c, olds, post, instance, base),
{
    if post == pre {
    } else if exists|k: int, row: crate::data::EncryptedCategoryV|
        0 <= k <= pre.len() && post == #[trigger] pre.insert(k, row)
            && row.meta_info.removed_timestamp is None {
        let (k, row) = choose|k: int, row: crate::data::EncryptedCategoryV|
            0 <= k <= pre.len() && post == #[trigger] pre.insert(k, row)
                && row.meta_info.removed_timestamp is None;
        pre.insert_ensures(k, row);
        assert forall|i: int|
            0 <= i < post.len() && (#[trigger] post[i]).meta_info.removed_timestamp
                is Some implies category_was_tombstoned(olds, post[i].id->Some_0) || foreign_category_removal_listed(
            c.categories.removed,
            instance,
            base,
            post[i].id->Some_0,
        ) by {
            if i < k {
                assert(post[i] == pre[i]);
            } else if i == k {
                assert(post[i] == row);
            } else {
                assert(post[i] == pre[i - 1]);
            }
        }
    } else if post.len() == pre.len() && (forall|m: int|
        0 <= m < pre.len() ==> (#[trigger] post[m]).id == pre[m].id
            && post[m].meta_info.removed_timestamp == pre[m].meta_info.removed_timestamp) {
        assert forall|i: int|
            0 <= i < post.len() && (#[trigger] post[i]).meta_info.removed_timestamp
                is Some implies category_was_tombstoned(olds, post[i].id->Some_0) || foreign_category_removal_listed(
            c.categories.removed,
            instance,
            base,
            post[i].id->Some_0,
        ) by {
            assert(pre[i].meta_info.removed_timestamp is Some);
        }
    } else {
        let (id, t) = choose|id: Id, t: Timestamp|
            post == #[trigger] crate::storage::category_tombstoned(pre, id, t) && foreign_category_removal_listed(
                c.categories.removed,
                instance,
                base,
                id,
            );
        assert forall|i: int|
            0 <= i < post.len() && (#[trigger] post[i]).meta_info.removed_timestamp
                is Some implies category_was_tombstoned(olds, post[i].id->Some_0) || foreign_category_removal_listed(
            c.categories.removed,
            instance,
            base,
            post[i].id->Some_0,
        ) by {
            if pre[i].id == Some(id) {
                assert(post[i].id == Some(id));
            } else {
                assert(post[i] == pre[i]);
            }
        }
    }
}

/// The removal-justification claim for one account table.
pub open spec fn accounts_removals_justified(
    c: ChangelogV,
    olds: Seq<crate::data::EncryptedAccountV>,
    news: Seq<crate::data::EncryptedAccountV>,
    instance: Id,
    base: Timestamp,
) -> bool {
    forall|i: int|
        0 <= i < news.len() && (#[trigger] news[i]).meta_info.removed_timestamp is Some
            ==> account_was_tombstoned(olds, news[i].id->Some_0) || foreign_account_removal_listed(
            c.accounts.removed,
            instance,
            base,
            news[i].id->Some_0,
        )
}

/// Any step a merge performs on the account table keeps its removal
/// justification: it leaves the table alone, inserts a live row, keeps
/// ids and removal stamps, or tombstones an id named by an applicable
/// foreign removal entry.
pub proof fn lemma_accounts_justified_step(
    c: ChangelogV,
    olds: Seq<crate::data::EncryptedAccountV>,
    pre: Seq<crate::data::EncryptedAccountV>,
    post: Seq<crate::data::EncryptedAccountV>,
    instance: Id,
    base: Timestamp,
)
    requires
        accounts_removals_justified(c, olds, pre, instance, base),
        post == pre || (exists|k: int, row: crate::data::EncryptedAccountV|
            0 <= k <= pre.len() && post == #[trigger] pre.insert(k, row)
                && row.meta_info.removed_timestamp is None) || (post.len() == pre.len() && (
        forall|m: int|
            0 <= m < pre.len() ==> (#[trigger] post[m]).id == pre[m].id
                && post[m].meta_info.removed_timestamp == pre[m].meta_info.removed_timestamp))
            || (exists|id: Id, t: Timestamp|
            post == #[trigger] crate::storage::account_tombstoned(pre, id, t) && foreign_account_removal_listed(
                c.accounts.removed,
                instance,
                base,
                id,
            )),
    ensures
        accounts_removals_justified(c, olds, post, instance, base),
{
    if post == pre {
    } else if exists|k: int, row: crate::data::EncryptedAccountV|
        0 <= k <= pre.len() && post == #[trigger] pre.insert(k, row)
            && row.meta_info.removed_timestamp is None {
        let (k, row) = choose|k: int, row: crate::data::EncryptedAccountV|
            0 <= k <= pre.len() && post == #[trigger] pre.insert(k, row)
                && row.meta_info.removed_timestamp is None;
        pre.insert_ensures(k, row);
        assert forall|i: int|
            0 <= i < post.len() && (#[trigger] post[i]).meta_info.removed_timestamp
                is Some implies account_was_tombstoned(olds, post[i].id->Some_0) || foreign_account_removal_listed(
            c.accounts.removed,
            instance,
            base,
            post[i].id->Some_0,
        ) by {
            if i < k {
                assert(post[i] == pre[i]);
            } else if i == k {
                assert(post[i] == row);
            } else {
                assert(post[i] == pre[i - 1]);
            }
        }
    } else if post.len() == pre.len() && (forall|m: int|
        0 <= m < pre.len() ==> (#[trigger] post[m]).id == pre[m].id
            && post[m].meta_info.removed_timestamp == pre[m].meta_info.removed_timestamp) {
        assert forall|i: int|
            0 <= i < post.len() && (#[trigger] post[i]).meta_info.removed_timestamp
                is Some implies account_was_tombstoned(olds, post[i].id->Some_0) || foreign_account_removal_listed(
            c.accounts.removed,
            instance,
            base,
            post[i].id->Some_0,
        ) by {
            assert(pre[i].meta_info.removed_timestamp is Some);
        }
    } else {
        let (id, t) = choose|id: Id, t: Timestamp|
            post == #[trigger] crate::storage::account_tombstoned(pre, id, t) && foreign_account_removal_listed(
                c.accounts.removed,
                instance,
                base,
                id,
            );
        assert forall|i: int|
            0 <= i < post.len() && (#[trigger] post[i]).meta_info.removed_timestamp
                is Some implies account_was_tombstoned(olds, post[i].id->Some_0) || foreign_account_removal_listed(
            c.accounts.removed,
            instance,
            base,
            post[i].id->Some_0,
        ) by {
            if pre[i].id == Some(id) {
                assert(post[i].id == Some(id));
            } else {
                assert(post[i] == pre[i]);
            }
        }
    }
}

/// The removal half of the origin and timestamp filter: a tombstone in
/// the new store was either already in the old store, or carries an
/// identifier named by an applicable foreign removal entry of the
/// changelog. No row is ever tombstoned on behalf of a removal this
/// instance authored or that predates the last sync.
pub open spec fn merge_removals_justified(
    c: ChangelogV,
    olds: StorageV,
    news: StorageV,
    instance: Id,
    base: Timestamp,
) -> bool {
    &&& txs_removals_justified(c, olds.transactions, news.transactions, instance, base)
    &&& plans_removals_justified(c, olds.plans, news.plans, instance, base)
    &&& categories_removals_justified(c, olds.categories, news.categories, instance, base)
    &&& accounts_removals_justified(c, olds.accounts, news.accounts, instance, base)
}

/// A store justifies its own tombstones.
pub proof fn lemma_removals_justified_refl(
    c: ChangelogV,
    st: StorageV,
    instance: Id,
    base: Timestamp,
)
    requires
        crate::storage::tx_rows_ok(st.transactions),
        crate::storage::account_rows_ok(st.accounts),
        crate::storage::category_rows_ok(st.categories),
        crate::storage::plan_rows_ok(st.plans),
    ensures
        merge_removals_justified(c, st, st, instance, base),
{
    assert forall|i: int|
        0 <= i < st.transactions.len() && (#[trigger] st.transactions[i])
            .meta_info.removed_timestamp is Some implies tx_was_tombstoned(
        st.transactions,
        st.transactions[i].id->Some_0,
    ) by {
        assert(st.transactions[i].id == Some(st.transactions[i].id->Some_0));
    }
    assert forall|i: int|
        0 <= i < st.plans.len() && (#[trigger] st.plans[i]).meta_info.removed_timestamp
            is Some implies plan_was_tombstoned(st.plans, st.plans[i].id->Some_0) by {
        assert(st.plans[i].id == Some(st.plans[i].id->Some_0));
    }
    assert forall|i: int|
        0 <= i < st.categories.len() && (#[trigger] st.categories[i])
            .meta_info.removed_timestamp is Some implies category_was_tombstoned(
        st.categories,
        st.categories[i].id->Some_0,
    ) by {
        assert(st.categories[i].id == Some(st.categories[i].id->Some_0));
    }
    assert forall|i: int|
        0 <= i < st.accounts.len() && (#[trigger] st.accounts[i]).meta_info.removed_timestamp
            is Some implies account_was_tombstoned(st.accounts, st.accounts[i].id->Some_0) by {
        assert(st.accounts[i].id == Some(st.accounts[i].id->Some_0));
    }
}

/// Whether every applicable added account entry of a changelog carries
/// an identifier and no stored transaction already contributes to it.
/// Under this premise a merge preserves the balance equation.
pub open spec fn merge_account_entries_fresh(
    c: ChangelogV,
    key: Seq<u8>,
    olds: StorageV,
    instance: Id,
    base: Timestamp,
) -> bool {
    forall|j: int|
        0 <= j < c.accounts.added.len() && applies_added(
            (#[trigger] c.accounts.added[j]).meta_info,
            instance,
            base,
        ) ==> c.accounts.added[j].id is Some && (forall|i: int|
            0 <= i < olds.transactions.len() ==> crate::budget::tx_contribution(
                key,
                #[trigger] olds.transactions[i],
                c.accounts.added[j].id->Some_0,
            ) == 0)
}

impl<P: AsymmetricProvider> Budget<P> {
    /// Exports the local delta since the last synchronization: for each
    /// entity kind, the rows created, changed and removed since then,
    /// decrypted. No origin filtering is applied: the instance has not
    /// merged since `last_sync`, so every row in the delta is local.
    pub fn export_local_changes(&mut self, last_sync: Timestamp) -> (r: Result<Changelog>)
        requires
            old(self).wf(),
        ensures
            final(self).wf(),
            final(self).key() == old(self).key(),
            final(self).store() == old(self).store(),
            final(self).instance() == old(self).instance(),
            r matches Err(e) ==> e.kind == ErrorKind::Decryption || e.kind == ErrorKind::Malformed,
            r matches Ok(c) ==> ({
                let key = old(self).key();
                let st = old(self).store();
                &&& crate::budget::account_list_matches(
                    key,
                    st.accounts.filter(crate::storage::account_added_since(last_sync)),
                    c@.accounts.added,
                )
                &&& crate::budget::account_list_matches(
                    key,
                    st.accounts.filter(crate::storage::account_changed_since(last_sync)),
                    c@.accounts.changed,
                )
                &&& crate::budget::account_list_matches(
                    key,
                    st.accounts.filter(crate::storage::account_removed_since(last_sync)),
                    c@.accounts.removed,
                )
                &&& crate::budget::category_list_matches(
                    key,
                    st.categories.filter(crate::storage::category_added_since(last_sync)),
                    c@.categories.added,
                )
                &&& crate::budget::category_list_matches(
                    key,
                    st.categories.filter(crate::storage::category_changed_since(last_sync)),
                    c@.categories.changed,
                )
                &&& crate::budget::category_list_matches(
                    key,
                    st.categories.filter(crate::storage::category_removed_since(last_sync)),
                    c@.categories.removed,
                )
                &&& crate::budget::plan_list_matches(
                    key,
                    st.plans.filter(crate::storage::plan_added_since(last_sync)),
                    c@.plans.added,
                )
                &&& crate::budget::plan_list_matches(
                    key,
                    st.plans.filter(crate::storage::plan_changed_since(last_sync)),
                    c@.plans.changed,
                )
                &&& crate::budget::plan_list_matches(
                    key,
                    st.plans.filter(crate::storage::plan_removed_since(last_sync)),
                    c@.plans.removed,
                )
                &&& crate::budget::tx_list_matches(
                    key,
                    st.transactions.filter(crate::storage::tx_added_since(last_sync)),
                    c@.transactions.added,
                )
                &&& crate::budget::tx_list_matches(
                    key,
                    st.transactions.filter(crate::storage::tx_changed_since(last_sync)),
                    c@.transactions.changed,
                )
                &&& crate::budget::tx_list_matches(
                    key,
                    st.transactions.filter(crate::storage::tx_removed_since(last_sync)),
                    c@.transactions.removed,
                )
            }),
    {
        let mut local = Changelog::new();
        local.accounts.added = self.accounts_added_since(last_sync)?;
        local.accounts.changed = self.accounts_changed_since(last_sync)?;
        local.accounts.removed = self.accounts_removed_since(last_sync)?;
        local.categories.added = self.categories_added_since(last_sync)?;
        local.categories.changed = self.categories_changed_since(last_sync)?;
        local.categories.removed = self.categories_removed_since(last_sync)?;
        local.plans.added = self.plans_added_since(last_sync)?;
        local.plans.changed = self.plans_changed_since(last_sync)?;
        local.plans.removed = self.plans_removed_since(last_sync)?;
        local.transactions.added = self.transactions_added_since(last_sync)?;
        local.transactions.changed = self.transactions_changed_since(last_sync)?;
        local.transactions.removed = self.transactions_removed_since(last_sync)?;
        Ok(local)
    }

    /// Applies a remote changelog to the local store.
    ///
    /// Only rows created or removed at or after the last sync on
    /// another instance are applied. Additions run in dependency order
    /// (accounts, categories, plans, transactions); removals in the
    /// reverse order; changes are reserved for a future revision. A
    /// merged account's balance is reset to its initial balance; the
    /// merged transactions then restore it.
    ///
    /// Laws: no row authored by this instance is ever re-applied to it;
    /// and a changelog without applicable rows leaves the store
    /// unchanged.
    pub fn merge_changes(&mut self, changelog: &Changelog, last_sync: Timestamp) -> (r: Result<
        (),
    >)
        requires
            old(self).wf(),
        ensures
            final(self).wf(),
            final(self).key() == old(self).key(),
            final(self).instance() == old(self).instance(),
            no_local_additions(old(self).store(), final(self).store(), old(self).instance()),
            all_excluded(changelog@, old(self).instance(), last_sync) ==> r is Ok && final(self).store() == old(self).store(),
            r is Ok ==> merge_adds_applied(
                changelog@,
                final(self).store(),
                old(self).instance(),
                last_sync,
            ) && merge_removals_applied(
                changelog@,
                final(self).store(),
                old(self).instance(),
                last_sync,
            ),
            merge_removals_justified(
                changelog@,
                old(self).store(),
                final(self).store(),
                old(self).instance(),
                last_sync,
            ),
            balances_consistent(old(self).key(), old(self).store())
                && merge_account_entries_fresh(
                changelog@,
                old(self).key(),
                old(self).store(),
                old(self).instance(),
                last_sync,
            ) && r is Ok ==> balances_consistent(final(self).key(), final(self).store()),
            r matches Err(e) ==> e.kind == ErrorKind::NotFound || e.kind == ErrorKind::Decryption
                || e.kind == ErrorKind::Malformed || e.kind == ErrorKind::ArithmeticOverflow
                || e.kind == ErrorKind::ConsistencyViolation || e.kind == ErrorKind::Encryption
                || e.kind == ErrorKind::CannotDeletePredefined,
    {
        let ghost st0 = self.store();
        let ghost inst = self.instance();
        let ghost excl = all_excluded(changelog@, inst, last_sync);
        let ghost key = self.key();
        let ghost fresh_ok = balances_consistent(key, st0) && merge_account_entries_fresh(
            changelog@,
            key,
            st0,
            inst,
            last_sync,
        );
        let instance = self.instance_id();
        proof {
            old(self).lemma_store_rows_ok();
            lemma_nla_refl(st0, inst);
            lemma_removals_justified_refl(changelog@, st0, inst, last_sync);
        }
        let mut i: usize = 0;
        let n = changelog.accounts.added.len();
        while i < n
            invariant
                old(self).wf(),
                self.wf(),
                i <= n,
                n == changelog@.accounts.added.len(),
                self.key() == old(self).key(),
                self.instance() == old(self).instance(),
                st0 == old(self).store(),
                inst == old(self).instance(),
                instance == inst,
                excl == all_excluded(changelog@, inst, last_sync),
                no_local_additions(st0, self.store(), inst),
                excl ==> self.store() == st0,
                key == old(self).key(),
                fresh_ok == (balances_consistent(key, st0) && merge_account_entries_fresh(
                    changelog@,
                    key,
                    st0,
                    inst,
                    last_sync,
                )),
                fresh_ok ==> balances_consistent(key, self.store()),
                merge_removals_justified(changelog@, st0, self.store(), inst, last_sync),
                self.store().transactions == st0.transactions,
                accounts_adds_done(changelog@.accounts.added, i as int, self.store(), inst, last_sync),
            decreases n - i,
        {
            let row = &changelog.accounts.added[i];
            let fresh = match row.meta_info.added_timestamp {
                Option::Some(t) => t >= last_sync,
                Option::None => false,
            };
            if fresh && row.meta_info.origin != instance {
                proof {
                    assert(applies_added(
                        changelog@.accounts.added[i as int].meta_info,
                        inst,
                        last_sync,
                    ));
                    assert(!excl);
                }
                let mut account = row.clone();
                account.balance = account.initial_balance;
                let ghost pre = self.store();
                let step = self.add_account(&account);
                proof {
                    let post = self.store();
                    lemma_nla_split(st0, pre, inst);
                    lemma_nla_split(st0, post, inst);
                    if step is Ok {
                        let prow = choose|prow: crate::data::EncryptedAccountV|
                            {
                                &&& post.accounts == #[trigger] pre.accounts.push(prow)
                                &&& prow.id is Some
                                &&& (account@.id is Some ==> prow.id == account@.id)
                                &&& prow.meta_info.origin == account@.meta_info.origin
                                &&& prow.meta_info.added_timestamp == account@.meta_info.added_timestamp
                                &&& prow.meta_info.changed_timestamp is None
                                &&& prow.meta_info.removed_timestamp is None
                                &&& crate::budget::account_plain(self.key(), prow) == Some(
                                    crate::budget::account_plain_inserted(account@, prow.id),
                                )
                            };
                        lemma_accounts_nl_push(st0.accounts, pre.accounts, post.accounts, inst, prow);
                        assert(post.accounts =~= pre.accounts.insert(
                            pre.accounts.len() as int,
                            prow,
                        ));
                    lemma_accounts_step_preserves(pre.accounts, post.accounts);
                    lemma_categories_step_preserves(pre.categories, post.categories);
                    lemma_plans_step_preserves(pre.plans, post.plans);
                    lemma_txs_step_preserves(pre.transactions, post.transactions);
                        if row@.id is Some {
                            assert(post.accounts[pre.accounts.len() as int] == prow);
                            assert(account_id_taken(post.accounts, row@.id->Some_0));
                        }
                        assert(post.accounts == pre.accounts.insert(
                            pre.accounts.len() as int,
                            prow,
                        ));
                        lemma_txs_justified_step(changelog@, st0.transactions, pre.transactions, post.transactions, inst, last_sync);
                        lemma_plans_justified_step(changelog@, st0.plans, pre.plans, post.plans, inst, last_sync);
                        lemma_categories_justified_step(changelog@, st0.categories, pre.categories, post.categories, inst, last_sync);
                        lemma_accounts_justified_step(changelog@, st0.accounts, pre.accounts, post.accounts, inst, last_sync);
                        if fresh_ok {
                            assert(post.accounts.last() == prow);
                            assert(balances_consistent(key, post));
                        }
                    }
                }
                step?;
            }
            i = i + 1;
        }
        let mut i: usize = 0;
        let n = changelog.categories.added.len();
        while i < n
            invariant
                old(self).wf(),
                self.wf(),
                i <= n,
                n == changelog@.categories.added.len(),
                self.key() == old(self).key(),
                self.instance() == old(self).instance(),
                st0 == old(self).store(),
                inst == old(self).instance(),
                instance == inst,
                excl == all_excluded(changelog@, inst, last_sync),
                no_local_additions(st0, self.store(), inst),
                excl ==> self.store() == st0,
                key == old(self).key(),
                fresh_ok == (balances_consistent(key, st0) && merge_account_entries_fresh(
                    changelog@,
                    key,
                    st0,
                    inst,
                    last_sync,
                )),
                fresh_ok ==> balances_consistent(key, self.store()),
                merge_removals_justified(changelog@, st0, self.store(), inst, last_sync),
                accounts_adds_done(changelog@.accounts.added, changelog@.accounts.added.len() as int, self.store(), inst, last_sync),
                categories_adds_done(changelog@.categories.added, i as int, self.store(), inst, last_sync),
            decreases n - i,
        {
            let row = &changelog.categories.added[i];
            let fresh = match row.meta_info.added_timestamp {
                Option::Some(t) => t >= last_sync,
                Option::None => false,
            };
            if fresh && row.meta_info.origin != instance {
                proof {
                    assert(applies_added(
                        changelog@.categories.added[i as int].meta_info,
                        inst,
                        last_sync,
                    ));
                    assert(!excl);
                }
                let category = row.clone();
                let ghost pre = self.store();
                let step = self.add_category(&category);
                proof {
                    let post = self.store();
                    lemma_nla_split(st0, pre, inst);
                    lemma_nla_split(st0, post, inst);
                    if step is Ok {
                        let (pk, prow) = choose|pk: int, prow: crate::data::EncryptedCategoryV|
                            {
                                &&& 0 <= pk <= pre.categories.len()
                                &&& post.categories == #[trigger] pre.categories.insert(pk, prow)
                                &&& prow.id is Some
                                &&& (category@.id is Some ==> prow.id == category@.id)
                                &&& prow.meta_info.origin == category@.meta_info.origin
                            };
                        lemma_categories_nl_insert(st0.categories, pre.categories, post.categories, inst, pk, prow);
                        lemma_txs_justified_step(changelog@, st0.transactions, pre.transactions, post.transactions, inst, last_sync);
                        lemma_plans_justified_step(changelog@, st0.plans, pre.plans, post.plans, inst, last_sync);
                        lemma_categories_justified_step(changelog@, st0.categories, pre.categories, post.categories, inst, last_sync);
                        lemma_accounts_justified_step(changelog@, st0.accounts, pre.accounts, post.accounts, inst, last_sync);
                        if fresh_ok {
                            assert(post.accounts == pre.accounts);
                            assert(post.transactions == pre.transactions);
                            assert(balances_consistent(key, post));
                        }
                    lemma_accounts_step_preserves(pre.accounts, post.accounts);
                    lemma_categories_step_preserves(pre.categories, post.categories);
                    lemma_plans_step_preserves(pre.plans, post.plans);
                    lemma_txs_step_preserves(pre.transactions, post.transactions);
                        pre.categories.insert_ensures(pk, prow);
                        if row@.id is Some {
                            assert(post.categories[pk] == prow);
                            assert(category_id_taken(post.categories, row@.id->Some_0));
                        }
                    }
                }
                step?;
            }
            i = i + 1;
        }
        let mut i: usize = 0;
        let n = changelog.plans.added.len();
        while i < n
            invariant
                old(self).wf(),
                self.wf(),
                i <= n,
                n == changelog@.plans.added.len(),
                self.key() == old(self).key(),
                self.instance() == old(self).instance(),
                st0 == old(self).store(),
                inst == old(self).instance(),
                instance == inst,
                excl == all_excluded(changelog@, inst, last_sync),
                no_local_additions(st0, self.store(), inst),
                excl ==> self.store() == st0,
                key == old(self).key(),
                fresh_ok == (balances_consistent(key, st0) && merge_account_entries_fresh(
                    changelog@,
                    key,
                    st0,
                    inst,
                    last_sync,
                )),
                fresh_ok ==> balances_consistent(key, self.store()),
                merge_removals_justified(changelog@, st0, self.store(), inst, last_sync),
                accounts_adds_done(changelog@.accounts.added, changelog@.accounts.added.len() as int, self.store(), inst, last_sync),
                categories_adds_done(changelog@.categories.added, changelog@.categories.added.len() as int, self.store(), inst, last_sync),
                plans_adds_done(changelog@.plans.added, i as int, self.store(), inst, last_sync),
            decreases n - i,
        {
            let row = &changelog.plans.added[i];
            let fresh = match row.meta_info.added_timestamp {
                Option::Some(t) => t >= last_sync,
                Option::None => false,
            };
            if fresh && row.meta_info.origin != instance {
                proof {
                    assert(applies_added(
                        changelog@.plans.added[i as int].meta_info,
                        inst,
                        last_sync,
                    ));
                    assert(!excl);
                }
                let plan = row.clone();
                let ghost pre = self.store();
                let step = self.add_plan(&plan);
                proof {
                    let post = self.store();
                    lemma_nla_split(st0, pre, inst);
                    lemma_nla_split(st0, post, inst);
                    if step is Ok {
                        let (pk, prow) = choose|pk: int, prow: crate::data::EncryptedPlanV|
                            {
                                &&& 0 <= pk <= pre.plans.len()
                                &&& post.plans == #[trigger] pre.plans.insert(pk, prow)
                                &&& prow.id is Some
                                &&& (plan@.id is Some ==> prow.id == plan@.id)
                                &&& prow.meta_info.origin == plan@.meta_info.origin
                            };
                        lemma_plans_nl_insert(st0.plans, pre.plans, post.plans, inst, pk, prow);
                        lemma_txs_justified_step(changelog@, st0.transactions, pre.transactions, post.transactions, inst, last_sync);
                        lemma_plans_justified_step(changelog@, st0.plans, pre.plans, post.plans, inst, last_sync);
                        lemma_categories_justified_step(changelog@, st0.categories, pre.categories, post.categories, inst, last_sync);
                        lemma_accounts_justified_step(changelog@, st0.accounts, pre.accounts, post.accounts, inst, last_sync);
                        if fresh_ok {
                            assert(post.accounts == pre.accounts);
                            assert(post.transactions == pre.transactions);
                            assert(balances_consistent(key, post));
                        }
                    lemma_accounts_step_preserves(pre.accounts, post.accounts);
                    lemma_categories_step_preserves(pre.categories, post.categories);
                    lemma_plans_step_preserves(pre.plans, post.plans);
                    lemma_txs_step_preserves(pre.transactions, post.transactions);
                        pre.plans.insert_ensures(pk, prow);
                        if row@.id is Some {
                            assert(post.plans[pk] == prow);
                            assert(plan_id_taken(post.plans, row@.id->Some_0));
                        }
                    }
                }
                step?;
            }
            i = i + 1;
        }
        let mut i: usize = 0;
        let n = changelog.transactions.added.len();
        while i < n
            invariant
                old(self).wf(),
                self.wf(),
                i <= n,
                n == changelog@.transactions.added.len(),
                self.key() == old(self).key(),
                self.instance() == old(self).instance(),
                st0 == old(self).store(),
                inst == old(self).instance(),
                instance == inst,
                excl == all_excluded(changelog@, inst, last_sync),
                no_local_additions(st0, self.store(), inst),
                excl ==> self.store() == st0,
                key == old(self).key(),
                fresh_ok == (balances_consistent(key, st0) && merge_account_entries_fresh(
                    changelog@,
                    key,
                    st0,
                    inst,
                    last_sync,
                )),
                fresh_ok ==> balances_consistent(key, self.store()),
                merge_removals_justified(changelog@, st0, self.store(), inst, last_sync),
                accounts_adds_done(changelog@.accounts.added, changelog@.accounts.added.len() as int, self.store(), inst, last_sync),
                categories_adds_done(changelog@.categories.added, changelog@.categories.added.len() as int, self.store(), inst, last_sync),
                plans_adds_done(changelog@.plans.added, changelog@.plans.added.len() as int, self.store(), inst, last_sync),
                txs_adds_done(changelog@.transactions.added, i as int, self.store(), inst, last_sync),
            decreases n - i,
        {
            let row = &changelog.transactions.added[i];
            let fresh = match row.meta_info.added_timestamp {
                Option::Some(t) => t >= last_sync,
                Option::None => false,
            };
            if fresh && row.meta_info.origin != instance {
                proof {
                    assert(applies_added(
                        changelog@.transactions.added[i as int].meta_info,
                        inst,
                        last_sync,
                    ));
                    assert(!excl);
                }
                let transaction = row.clone();
                let ghost pre = self.store();
                let step = self.add_transaction(&transaction);
                proof {
                    let post = self.store();
                    lemma_nla_split(st0, pre, inst);
                    lemma_nla_split(st0, post, inst);
                    if post.accounts != pre.accounts {
                        let u = choose|u: crate::data::EncryptedAccountV|
                            post.accounts == #[trigger] crate::storage::account_updated(
                                pre.accounts,
                                u,
                            );
                        assert forall|j: int|
                            0 <= j < pre.accounts.len() implies (#[trigger] post.accounts[j]).id
                            == pre.accounts[j].id && post.accounts[j].meta_info.origin
                            == pre.accounts[j].meta_info.origin && post.accounts[j]
                            .meta_info.removed_timestamp == pre.accounts[j]
                            .meta_info.removed_timestamp by {}
                        lemma_accounts_nl_pointwise(st0.accounts, pre.accounts, post.accounts, inst);
                    }
                    if step is Ok {
                        let (pk, prow) = choose|pk: int, prow: crate::data::EncryptedTransactionV|
                            {
                                &&& 0 <= pk <= pre.transactions.len()
                                &&& post.transactions == #[trigger] pre.transactions.insert(
                                    pk,
                                    prow,
                                )
                                &&& prow.id is Some
                                &&& (transaction@.id is Some ==> prow.id == transaction@.id)
                                &&& crate::budget::tx_plain(self.key(), prow) == Some(
                                    crate::budget::tx_plain_inserted(transaction@, prow.id),
                                )
                            };
                        assert(prow.meta_info.origin == transaction@.meta_info.origin);
                        lemma_txs_nl_insert(st0.transactions, pre.transactions, post.transactions, inst, pk, prow);
                        assert(prow.meta_info.removed_timestamp is None);
                        lemma_txs_justified_step(changelog@, st0.transactions, pre.transactions, post.transactions, inst, last_sync);
                        lemma_plans_justified_step(changelog@, st0.plans, pre.plans, post.plans, inst, last_sync);
                        lemma_categories_justified_step(changelog@, st0.categories, pre.categories, post.categories, inst, last_sync);
                        lemma_accounts_justified_step(changelog@, st0.accounts, pre.accounts, post.accounts, inst, last_sync);
                        if fresh_ok {
                            assert(balances_consistent(key, post));
                        }
                    lemma_accounts_step_preserves(pre.accounts, post.accounts);
                    lemma_categories_step_preserves(pre.categories, post.categories);
                    lemma_plans_step_preserves(pre.plans, post.plans);
                    lemma_txs_step_preserves(pre.transactions, post.transactions);
                        pre.transactions.insert_ensures(pk, prow);
                        if row@.id is Some {
                            assert(post.transactions[pk] == prow);
                            assert(tx_id_taken(post.transactions, row@.id->Some_0));
                        }
                    } else {
                        if !(post.transactions =~= pre.transactions) {
                            let (pk, prow) = choose|pk: int, prow: crate::data::EncryptedTransactionV|
                                {
                                    &&& 0 <= pk <= pre.transactions.len()
                                    &&& prow.meta_info.origin == transaction@.meta_info.origin
                                    &&& post.transactions == #[trigger] pre.transactions.insert(
                                        pk,
                                        prow,
                                    )
                                };
                            lemma_txs_nl_insert(st0.transactions, pre.transactions, post.transactions, inst, pk, prow);
                        lemma_txs_justified_step(changelog@, st0.transactions, pre.transactions, post.transactions, inst, last_sync);
                        lemma_plans_justified_step(changelog@, st0.plans, pre.plans, post.plans, inst, last_sync);
                        lemma_categories_justified_step(changelog@, st0.categories, pre.categories, post.categories, inst, last_sync);
                        lemma_accounts_justified_step(changelog@, st0.accounts, pre.accounts, post.accounts, inst, last_sync);
                        }
                    lemma_accounts_step_preserves(pre.accounts, post.accounts);
                    lemma_categories_step_preserves(pre.categories, post.categories);
                    lemma_plans_step_preserves(pre.plans, post.plans);
                    lemma_txs_step_preserves(pre.transactions, post.transactions);
                    }
                }
                step?;
            }
            i = i + 1;
        }
        let mut i: usize = 0;
        let n = changelog.transactions.removed.len();
        while i < n
            invariant
                old(self).wf(),
                self.wf(),
                i <= n,
                n == changelog@.transactions.removed.len(),
                self.key() == old(self).key(),
                self.instance() == old(self).instance(),
                st0 == old(self).store(),
                inst == old(self).instance(),
                instance == inst,
                excl == all_excluded(changelog@, inst, last_sync),
                no_local_additions(st0, self.store(), inst),
                excl ==> self.store() == st0,
                key == old(self).key(),
                fresh_ok == (balances_consistent(key, st0) && merge_account_entries_fresh(
                    changelog@,
                    key,
                    st0,
                    inst,
                    last_sync,
                )),
                fresh_ok ==> balances_consistent(key, self.store()),
                merge_removals_justified(changelog@, st0, self.store(), inst, last_sync),
                accounts_adds_done(changelog@.accounts.added, changelog@.accounts.added.len() as int, self.store(), inst, last_sync),
                categories_adds_done(changelog@.categories.added, changelog@.categories.added.len() as int, self.store(), inst, last_sync),
                plans_adds_done(changelog@.plans.added, changelog@.plans.added.len() as int, self.store(), inst, last_sync),
                txs_adds_done(changelog@.transactions.added, changelog@.transactions.added.len() as int, self.store(), inst, last_sync),
                txs_removals_done(changelog@.transactions.removed, i as int, self.store(), inst, last_sync),
            decreases n - i,
        {
            let row = &changelog.transactions.removed[i];
            let stamp = row.meta_info.removed_timestamp;
            let fresh = match stamp {
                Option::Some(t) => t >= last_sync,
                Option::None => false,
            };
            if fresh && row.meta_info.origin != instance {
                proof {
                    assert(applies_removed(
                        changelog@.transactions.removed[i as int].meta_info,
                        inst,
                        last_sync,
                    ));
                    assert(!excl);
                }
                match (row.id, stamp) {
                    (Option::Some(id), Option::Some(t)) => {
                        let ghost pre = self.store();
                        let step = self.remove_transaction(id, false, t);
                        proof {
                            let post = self.store();
                            lemma_nla_split(st0, pre, inst);
                            lemma_nla_split(st0, post, inst);
                            if post.transactions != pre.transactions {
                            assert forall|m: int|
                                0 <= m < pre.transactions.len() implies (#[trigger] post.transactions[m]).id
                                == pre.transactions[m].id && post.transactions[m].meta_info.origin
                                == pre.transactions[m].meta_info.origin && (pre.transactions[m]
                                .meta_info.removed_timestamp is Some ==> post.transactions[m]
                                .meta_info.removed_timestamp is Some) by {}
                            lemma_txs_nl_pointwise(st0.transactions, pre.transactions, post.transactions, inst);
                            }
                            if post.accounts != pre.accounts {
                                assert forall|m: int|
                                    0 <= m < pre.accounts.len() implies (#[trigger] post
                                    .accounts[m]).id == pre.accounts[m].id && post.accounts[m]
                                    .meta_info.origin == pre.accounts[m].meta_info.origin && post
                                    .accounts[m].meta_info.removed_timestamp == pre.accounts[m]
                                    .meta_info.removed_timestamp by {}
                                lemma_accounts_nl_pointwise(st0.accounts, pre.accounts, post.accounts, inst);
                            }
                            if step is Ok {
                                assert(post.transactions == crate::storage::tx_tombstoned(
                                    pre.transactions,
                                    id,
                                    t,
                                ));
                                assert forall|m: int|
                                    0 <= m < post.transactions.len() && (#[trigger] post.transactions[m]).id
                                    == Some(id) implies post.transactions[m]
                                    .meta_info.removed_timestamp is Some by {
                                    assert(pre.transactions[m].id == Some(id));
                                }
                                assert(tx_all_tombstoned(post.transactions, id));
                            }
                            if step is Ok {
                                assert(foreign_tx_removal_listed(changelog@.transactions.removed, inst, last_sync, id)) by {
                                    assert(changelog@.transactions.removed[i as int].id == Some(id));
                                }
                            }
                            lemma_txs_justified_step(changelog@, st0.transactions, pre.transactions, post.transactions, inst, last_sync);
                            lemma_plans_justified_step(changelog@, st0.plans, pre.plans, post.plans, inst, last_sync);
                            lemma_categories_justified_step(changelog@, st0.categories, pre.categories, post.categories, inst, last_sync);
                            lemma_accounts_justified_step(changelog@, st0.accounts, pre.accounts, post.accounts, inst, last_sync);
                            if fresh_ok && step is Ok {
                                assert(balances_consistent(key, post));
                            }
                            lemma_accounts_step_preserves(pre.accounts, post.accounts);
                            lemma_categories_step_preserves(pre.categories, post.categories);
                            lemma_plans_step_preserves(pre.plans, post.plans);
                            lemma_txs_step_preserves(pre.transactions, post.transactions);
                        }
                        step?;
                    },
                    _ => {},
                }
            }
            i = i + 1;
        }
        let mut i: usize = 0;
        let n = changelog.plans.removed.len();
        while i < n
            invariant
                old(self).wf(),
                self.wf(),
                i <= n,
                n == changelog@.plans.removed.len(),
                self.key() == old(self).key(),
                self.instance() == old(self).instance(),
                st0 == old(self).store(),
                inst == old(self).instance(),
                instance == inst,
                excl == all_excluded(changelog@, inst, last_sync),
                no_local_additions(st0, self.store(), inst),
                excl ==> self.store() == st0,
                key == old(self).key(),
                fresh_ok == (balances_consistent(key, st0) && merge_account_entries_fresh(
                    changelog@,
                    key,
                    st0,
                    inst,
                    last_sync,
                )),
                fresh_ok ==> balances_consistent(key, self.store()),
                merge_removals_justified(changelog@, st0, self.store(), inst, last_sync),
                accounts_adds_done(changelog@.accounts.added, changelog@.accounts.added.len() as int, self.store(), inst, last_sync),
                categories_adds_done(changelog@.categories.added, changelog@.categories.added.len() as int, self.store(), inst, last_sync),
                plans_adds_done(changelog@.plans.added, changelog@.plans.added.len() as int, self.store(), inst, last_sync),
                txs_adds_done(changelog@.transactions.added, changelog@.transactions.added.len() as int, self.store(), inst, last_sync),
                txs_removals_done(changelog@.transactions.removed, changelog@.transactions.removed.len() as int, self.store(), inst, last_sync),
                plans_removals_done(changelog@.plans.removed, i as int, self.store(), inst, last_sync),
            decreases n - i,
        {
            let row = &changelog.plans.removed[i];
            let stamp = row.meta_info.removed_timestamp;
            let fresh = match stamp {
                Option::Some(t) => t >= last_sync,
                Option::None => false,
            };
            if fresh && row.meta_info.origin != instance {
                proof {
                    assert(applies_removed(
                        changelog@.plans.removed[i as int].meta_info,
                        inst,
                        last_sync,
                    ));
                    assert(!excl);
                }
                match (row.id, stamp) {
                    (Option::Some(id), Option::Some(t)) => {
                        let ghost pre = self.store();
                        let step = self.remove_plan(id, t);
                        proof {
                            let post = self.store();
                            lemma_nla_split(st0, pre, inst);
                            lemma_nla_split(st0, post, inst);
                            if post.plans != pre.plans {
                            assert forall|m: int|
                                0 <= m < pre.plans.len() implies (#[trigger] post.plans[m]).id
                                == pre.plans[m].id && post.plans[m].meta_info.origin
                                == pre.plans[m].meta_info.origin && (pre.plans[m]
                                .meta_info.removed_timestamp is Some ==> post.plans[m]
                                .meta_info.removed_timestamp is Some) by {}
                            lemma_plans_nl_pointwise(st0.plans, pre.plans, post.plans, inst);
                            }
                            if step is Ok {
                                assert(post.plans == crate::storage::plan_tombstoned(
                                    pre.plans,
                                    id,
                                    t,
                                ));
                                assert forall|m: int|
                                    0 <= m < post.plans.len() && (#[trigger] post.plans[m]).id
                                    == Some(id) implies post.plans[m]
                                    .meta_info.removed_timestamp is Some by {
                                    assert(pre.plans[m].id == Some(id));
                                }
                                assert(plan_all_tombstoned(post.plans, id));
                            }
                            if step is Ok {
                                assert(foreign_plan_removal_listed(changelog@.plans.removed, inst, last_sync, id)) by {
                                    assert(changelog@.plans.removed[i as int].id == Some(id));
                                }
                            }
                            lemma_txs_justified_step(changelog@, st0.transactions, pre.transactions, post.transactions, inst, last_sync);
                            lemma_plans_justified_step(changelog@, st0.plans, pre.plans, post.plans, inst, last_sync);
                            lemma_categories_justified_step(changelog@, st0.categories, pre.categories, post.categories, inst, last_sync);
                            lemma_accounts_justified_step(changelog@, st0.accounts, pre.accounts, post.accounts, inst, last_sync);
                            if fresh_ok {
                                assert(post.accounts == pre.accounts);
                                assert(post.transactions == pre.transactions);
                                assert(balances_consistent(key, post));
                            }
                            lemma_accounts_step_preserves(pre.accounts, post.accounts);
                            lemma_categories_step_preserves(pre.categories, post.categories);
                            lemma_plans_step_preserves(pre.plans, post.plans);
                            lemma_txs_step_preserves(pre.transactions, post.transactions);
                        }
                        step?;
                    },
                    _ => {},
                }
            }
            i = i + 1;
        }
        let mut i: usize = 0;
        let n = changelog.categories.removed.len();
        while i < n
            invariant
                old(self).wf(),
                self.wf(),
                i <= n,
                n == changelog@.categories.removed.len(),
                self.key() == old(self).key(),
                self.instance() == old(self).instance(),
                st0 == old(self).store(),
                inst == old(self).instance(),
                instance == inst,
                excl == all_excluded(changelog@, inst, last_sync),
                no_local_additions(st0, self.store(), inst),
                excl ==> self.store() == st0,
                key == old(self).key(),
                fresh_ok == (balances_consistent(key, st0) && merge_account_entries_fresh(
                    changelog@,
                    key,
                    st0,
                    inst,
                    last_sync,
                )),
                fresh_ok ==> balances_consistent(key, self.store()),
                merge_removals_justified(changelog@, st0, self.store(), inst, last_sync),
                accounts_adds_done(changelog@.accounts.added, changelog@.accounts.added.len() as int, self.store(), inst, last_sync),
                categories_adds_done(changelog@.categories.added, changelog@.categories.added.len() as int, self.store(), inst, last_sync),
                plans_adds_done(changelog@.plans.added, changelog@.plans.added.len() as int, self.store(), inst, last_sync),
                txs_adds_done(changelog@.transactions.added, changelog@.transactions.added.len() as int, self.store(), inst, last_sync),
                txs_removals_done(changelog@.transactions.removed, changelog@.transactions.removed.len() as int, self.store(), inst, last_sync),
                plans_removals_done(changelog@.plans.removed, changelog@.plans.removed.len() as int, self.store(), inst, last_sync),
                categories_removals_done(changelog@.categories.removed, i as int, self.store(), inst, last_sync),
            decreases n - i,
        {
            let row = &changelog.categories.removed[i];
            let stamp = row.meta_info.removed_timestamp;
            let fresh = match stamp {
                Option::Some(t) => t >= last_sync,
                Option::None => false,
            };
            if fresh && row.meta_info.origin != instance {
                proof {
                    assert(applies_removed(
                        changelog@.categories.removed[i as int].meta_info,
                        inst,
                        last_sync,
                    ));
                    assert(!excl);
                }
                match (row.id, stamp) {
                    (Option::Some(id), Option::Some(t)) => {
                        let ghost pre = self.store();
                        let step = self.remove_category(id, t);
                        proof {
                            let post = self.store();
                            lemma_nla_split(st0, pre, inst);
                            lemma_nla_split(st0, post, inst);
                            if post.categories != pre.categories {
                            assert forall|m: int|
                                0 <= m < pre.categories.len() implies (#[trigger] post.categories[m]).id
                                == pre.categories[m].id && post.categories[m].meta_info.origin
                                == pre.categories[m].meta_info.origin && (pre.categories[m]
                                .meta_info.removed_timestamp is Some ==> post.categories[m]
                                .meta_info.removed_timestamp is Some) by {}
                            lemma_categories_nl_pointwise(st0.categories, pre.categories, post.categories, inst);
                            }
                            if step is Ok {
                                assert(post.categories == crate::storage::category_tombstoned(
                                    pre.categories,
                                    id,
                                    t,
                                ));
                                assert forall|m: int|
                                    0 <= m < post.categories.len() && (#[trigger] post.categories[m]).id
                                    == Some(id) implies post.categories[m]
                                    .meta_info.removed_timestamp is Some by {
                                    assert(pre.categories[m].id == Some(id));
                                }
                                assert(category_all_tombstoned(post.categories, id));
                            }
                            if step is Ok {
                                assert(foreign_category_removal_listed(changelog@.categories.removed, inst, last_sync, id)) by {
                                    assert(changelog@.categories.removed[i as int].id == Some(id));
                                }
                            }
                            lemma_txs_justified_step(changelog@, st0.transactions, pre.transactions, post.transactions, inst, last_sync);
                            lemma_plans_justified_step(changelog@, st0.plans, pre.plans, post.plans, inst, last_sync);
                            lemma_categories_justified_step(changelog@, st0.categories, pre.categories, post.categories, inst, last_sync);
                            lemma_accounts_justified_step(changelog@, st0.accounts, pre.accounts, post.accounts, inst, last_sync);
                            if fresh_ok {
                                assert(post.accounts == pre.accounts);
                                assert(post.transactions == pre.transactions);
                                assert(balances_consistent(key, post));
                            }
                            lemma_accounts_step_preserves(pre.accounts, post.accounts);
                            lemma_categories_step_preserves(pre.categories, post.categories);
                            lemma_plans_step_preserves(pre.plans, post.plans);
                            lemma_txs_step_preserves(pre.transactions, post.transactions);
                        }
                        step?;
                    },
                    _ => {},
                }
            }
            i = i + 1;
        }
        let mut i: usize = 0;
        let n = changelog.accounts.removed.len();
        while i < n
            invariant
                old(self).wf(),
                self.wf(),
                i <= n,
                n == changelog@.accounts.removed.len(),
                self.key() == old(self).key(),
                self.instance() == old(self).instance(),
                st0 == old(self).store(),
                inst == old(self).instance(),
                instance == inst,
                excl == all_excluded(changelog@, inst, last_sync),
                no_local_additions(st0, self.store(), inst),
                excl ==> self.store() == st0,
                key == old(self).key(),
                fresh_ok == (balances_consistent(key, st0) && merge_account_entries_fresh(
                    changelog@,
                    key,
                    st0,
                    inst,
                    last_sync,
                )),
                fresh_ok ==> balances_consistent(key, self.store()),
                merge_removals_justified(changelog@, st0, self.store(), inst, last_sync),
                accounts_adds_done(changelog@.accounts.added, changelog@.accounts.added.len() as int, self.store(), inst, last_sync),
                categories_adds_done(changelog@.categories.added, changelog@.categories.added.len() as int, self.store(), inst, last_sync),
                plans_adds_done(changelog@.plans.added, changelog@.plans.added.len() as int, self.store(), inst, last_sync),
                txs_adds_done(changelog@.transactions.added, changelog@.transactions.added.len() as int, self.store(), inst, last_sync),
                txs_removals_done(changelog@.transactions.removed, changelog@.transactions.removed.len() as int, self.store(), inst, last_sync),
                plans_removals_done(changelog@.plans.removed, changelog@.plans.removed.len() as int, self.store(), inst, last_sync),
                categories_removals_done(changelog@.categories.removed, changelog@.categories.removed.len() as int, self.store(), inst, last_sync),
                accounts_removals_done(changelog@.accounts.removed, i as int, self.store(), inst, last_sync),
            decreases n - i,
        {
            let row = &changelog.accounts.removed[i];
            let stamp = row.meta_info.removed_timestamp;
            let fresh = match stamp {
                Option::Some(t) => t >= last_sync,
                Option::None => false,
            };
            if fresh && row.meta_info.origin != instance {
                proof {
                    assert(applies_removed(
                        changelog@.accounts.removed[i as int].meta_info,
                        inst,
                        last_sync,
                    ));
                    assert(!excl);
                }
                match (row.id, stamp) {
                    (Option::Some(id), Option::Some(t)) => {
                        let ghost pre = self.store();
                        let step = self.remove_account(id, false, t);
                        proof {
                            let post = self.store();
                            lemma_nla_split(st0, pre, inst);
                            lemma_nla_split(st0, post, inst);
                            if post.accounts != pre.accounts {
                            assert forall|m: int|
                                0 <= m < pre.accounts.len() implies (#[trigger] post.accounts[m]).id
                                == pre.accounts[m].id && post.accounts[m].meta_info.origin
                                == pre.accounts[m].meta_info.origin by {}
                            lemma_accounts_nl_pointwise(st0.accounts, pre.accounts, post.accounts, inst);
                            }
                            if step is Ok {
                                assert(post.accounts == crate::storage::account_tombstoned(
                                    pre.accounts,
                                    id,
                                    t,
                                ));
                                assert forall|m: int|
                                    0 <= m < post.accounts.len() && (#[trigger] post.accounts[m]).id
                                    == Some(id) implies post.accounts[m]
                                    .meta_info.removed_timestamp is Some by {
                                    assert(pre.accounts[m].id == Some(id));
                                }
                                assert(account_all_tombstoned(post.accounts, id));
                            }
                            if step is Ok {
                                assert(foreign_account_removal_listed(changelog@.accounts.removed, inst, last_sync, id)) by {
                                    assert(changelog@.accounts.removed[i as int].id == Some(id));
                                }
                            }
                            lemma_txs_justified_step(changelog@, st0.transactions, pre.transactions, post.transactions, inst, last_sync);
                            lemma_plans_justified_step(changelog@, st0.plans, pre.plans, post.plans, inst, last_sync);
                            lemma_categories_justified_step(changelog@, st0.categories, pre.categories, post.categories, inst, last_sync);
                            lemma_accounts_justified_step(changelog@, st0.accounts, pre.accounts, post.accounts, inst, last_sync);
                            if fresh_ok && step is Ok {
                                assert(balances_consistent(key, pre));
                                crate::budget::lemma_balances_tombstone_account(key, pre, post, id, t);
                            }
                            lemma_accounts_step_preserves(pre.accounts, post.accounts);
                            lemma_categories_step_preserves(pre.categories, post.categories);
                            lemma_plans_step_preserves(pre.plans, post.plans);
                            lemma_txs_step_preserves(pre.transactions, post.transactions);
                        }
                        step?;
                    },
                    _ => {},
                }
            }
            i = i + 1;
        }
        Ok(())
    }

    /// Merges the remote changelog and exports the local one.
    ///
    /// Takes the contents of the three shared artifact files and hands
    /// back their new contents: the chosen write time as eight
    /// little-endian bytes, this instance's sixteen identifier bytes,
    /// and the cumulative changelog encrypted under a key derived from
    /// the password and the new header.
    pub fn merge_and_export_changes(
        &mut self,
        timestamp_in: &Vec<u8>,
        instance_in: &Vec<u8>,
        changelog_in: &Vec<u8>,
        last_sync: Timestamp,
        now: Timestamp,
        auth: &[u8],
    ) -> (r: Result<(Vec<u8>, Vec<u8>, Vec<u8>)>)
        requires
            old(self).wf(),
        ensures
            final(self).wf(),
            final(self).key() == old(self).key(),
            final(self).instance() == old(self).instance(),
            no_local_additions(old(self).store(), final(self).store(), old(self).instance()),
            r is Ok ==> ({
                let remote = remote_changelog_of(
                    auth@,
                    timestamp_in@,
                    instance_in@,
                    changelog_in@,
                );
                &&& remote is Some
                &&& merge_adds_applied(
                    remote->Some_0,
                    final(self).store(),
                    old(self).instance(),
                    last_sync,
                )
                &&& merge_removals_applied(
                    remote->Some_0,
                    final(self).store(),
                    old(self).instance(),
                    last_sync,
                )
                &&& merge_removals_justified(
                    remote->Some_0,
                    old(self).store(),
                    final(self).store(),
                    old(self).instance(),
                    last_sync,
                )
                &&& (balances_consistent(old(self).key(), old(self).store())
                    && merge_account_entries_fresh(
                    remote->Some_0,
                    old(self).key(),
                    old(self).store(),
                    old(self).instance(),
                    last_sync,
                ) ==> balances_consistent(final(self).key(), final(self).store()))
            }),
            !artifact_malformed(timestamp_in@, instance_in@, changelog_in@) && !(timestamp_in@.len()
                == 0 && instance_in@.len() == 0 && changelog_in@.len() == 0) && aead_open_total(
                scrypt_of(
                    auth@,
                    sync_salt(
                        artifact_timestamp(timestamp_in@),
                        artifact_instance(instance_in@),
                    ),
                    32,
                ),
                changelog_in@,
            ) is None ==> (r matches Err(e) && e.kind == ErrorKind::Decryption) && final(self).store() == old(self).store(),
            artifact_malformed(timestamp_in@, instance_in@, changelog_in@) ==> (
            r matches Err(e) && e.kind == ErrorKind::MalformedArtifact) && final(self).store()
                == old(self).store(),
            (r matches Err(e) && e.kind == ErrorKind::MalformedArtifact) ==> artifact_malformed(
                timestamp_in@,
                instance_in@,
                changelog_in@,
            ),
            r matches Ok(files) ==> ({
                let key = old(self).key();
                let st = old(self).store();
                let remote = remote_changelog_of(
                    auth@,
                    timestamp_in@,
                    instance_in@,
                    changelog_in@,
                );
                &&& files.0@ == spec_u64_to_le_bytes(now as u64)
                &&& files.1@ == id_bytes(old(self).instance())
                &&& remote is Some
                &&& ({
                    let rc = remote->Some_0;
                    exists|total: ChangelogV|
                        {
                        &&& aead_open_total(
                            scrypt_of(auth@, sync_salt(now, old(self).instance()), 32),
                            files.2@,
                        ) == Some(#[trigger] enc_changelog(total))
                        &&& crate::codec::changelog_encodable(total)
                        &&& total.accounts.added.take(rc.accounts.added.len() as int) == rc.accounts.added
                        &&& crate::budget::account_list_matches(
                            key,
                            st.accounts.filter(crate::storage::account_added_since(last_sync)),
                            total.accounts.added.skip(rc.accounts.added.len() as int),
                        )
                        &&& total.accounts.changed.take(rc.accounts.changed.len() as int) == rc.accounts.changed
                        &&& crate::budget::account_list_matches(
                            key,
                            st.accounts.filter(crate::storage::account_changed_since(last_sync)),
                            total.accounts.changed.skip(rc.accounts.changed.len() as int),
                        )
                        &&& total.accounts.removed.take(rc.accounts.removed.len() as int) == rc.accounts.removed
                        &&& crate::budget::account_list_matches(
                            key,
                            st.accounts.filter(crate::storage::account_removed_since(last_sync)),
                            total.accounts.removed.skip(rc.accounts.removed.len() as int),
                        )
                        &&& total.categories.added.take(rc.categories.added.len() as int) == rc.categories.added
                        &&& crate::budget::category_list_matches(
                            key,
                            st.categories.filter(crate::storage::category_added_since(last_sync)),
                            total.categories.added.skip(rc.categories.added.len() as int),
                        )
                        &&& total.categories.changed.take(rc.categories.changed.len() as int) == rc.categories.changed
                        &&& crate::budget::category_list_matches(
                            key,
                            st.categories.filter(crate::storage::category_changed_since(last_sync)),
                            total.categories.changed.skip(rc.categories.changed.len() as int),
                        )
                        &&& total.categories.removed.take(rc.categories.removed.len() as int) == rc.categories.removed
                        &&& crate::budget::category_list_matches(
                            key,
                            st.categories.filter(crate::storage::category_removed_since(last_sync)),
                            total.categories.removed.skip(rc.categories.removed.len() as int),
                        )
                        &&& total.plans.added.take(rc.plans.added.len() as int) == rc.plans.added
                        &&& crate::budget::plan_list_matches(
                            key,
                            st.plans.filter(crate::storage::plan_added_since(last_sync)),
                            total.plans.added.skip(rc.plans.added.len() as int),
                        )
                        &&& total.plans.changed.take(rc.plans.changed.len() as int) == rc.plans.changed
                        &&& crate::budget::plan_list_matches(
                            key,
                            st.plans.filter(crate::storage::plan_changed_since(last_sync)),
                            total.plans.changed.skip(rc.plans.changed.len() as int),
                        )
                        &&& total.plans.removed.take(rc.plans.removed.len() as int) == rc.plans.removed
                        &&& crate::budget::plan_list_matches(
                            key,
                            st.plans.filter(crate::storage::plan_removed_since(last_sync)),
                            total.plans.removed.skip(rc.plans.removed.len() as int),
                        )
                        &&& total.transactions.added.take(rc.transactions.added.len() as int) == rc.transactions.added
                        &&& crate::budget::tx_list_matches(
                            key,
                            st.transactions.filter(crate::storage::tx_added_since(last_sync)),
                            total.transactions.added.skip(rc.transactions.added.len() as int),
                        )
                        &&& total.transactions.changed.take(rc.transactions.changed.len() as int) == rc.transactions.changed
                        &&& crate::budget::tx_list_matches(
                            key,
                            st.transactions.filter(crate::storage::tx_changed_since(last_sync)),
                            total.transactions.changed.skip(rc.transactions.changed.len() as int),
                        )
                        &&& total.transactions.removed.take(rc.transactions.removed.len() as int) == rc.transactions.removed
                        &&& crate::budget::tx_list_matches(
                            key,
                            st.transactions.filter(crate::storage::tx_removed_since(last_sync)),
                            total.transactions.removed.skip(rc.transactions.removed.len() as int),
                        )
                        }
                })
            }),
    {
        proof {
            old(self).lemma_store_rows_ok();
            lemma_nla_refl(old(self).store(), old(self).instance());
        }
        let mut cumulative: Changelog;
        if timestamp_in.len() == 0 && instance_in.len() == 0 && changelog_in.len() == 0 {
            cumulative = Changelog::new();
        } else if timestamp_in.len() >= 1 && instance_in.len() >= 1 && changelog_in.len() >= 1 {
            let remote_timestamp = read_timestamp(timestamp_in);
            let remote_instance = read_instance(instance_in)?;
            let salt = make_key_derivation_salt(remote_timestamp, &remote_instance);
            let mut decryption_key = self.crypto_engine.derive_key(auth, salt.as_slice(), 32);
            let opened = self.crypto_engine.decrypt_symmetric(
                decryption_key.as_bytes(),
                changelog_in.as_slice(),
            );
            decryption_key.erase();
            let mut plain = opened?;
            let decoded = Changelog::from_slice(plain.as_bytes());
            plain.erase();
            cumulative = decoded?;
        } else {
            return Err(Error::from_message(ErrorKind::MalformedArtifact));
        }
        let local = self.export_local_changes(last_sync)?;
        self.merge_changes(&cumulative, last_sync)?;
        cumulative.append(local);
        let timestamp_out = u64_to_le_bytes(#[verifier::truncate] (now as u64));
        let instance = self.instance_id();
        let instance_out = instance.to_bytes();
        let salt = make_key_derivation_salt(now, &instance);
        let mut encryption_key = self.crypto_engine.derive_key(auth, salt.as_slice(), 32);
        let serialized = cumulative.to_vec();
        let sealed_result = self.crypto_engine.encrypt_symmetric(
            encryption_key.as_bytes(),
            serialized.as_slice(),
        );
        encryption_key.erase();
        let sealed = sealed_result?;
        let changelog_out = vstd::slice::slice_to_vec(sealed.as_bytes());
        proof {
            assert(salt@ == sync_salt(now, old(self).instance()));
            assert(aead_open_total(
                scrypt_of(auth@, sync_salt(now, old(self).instance()), 32),
                changelog_out@,
            ) == Some(enc_changelog(cumulative@)));
        }
        Ok((timestamp_out, instance_out, changelog_out))
    }
}

/// Reads the artifact timestamp: the first eight bytes, little-endian;
/// shorter input denotes the epoch.
pub fn read_timestamp(data: &Vec<u8>) -> (r: Timestamp)
    ensures
        r == artifact_timestamp(data@),
{
    if data.len() < 8 {
        return 0;
    }
    let piece = vstd::slice::slice_subrange(data.as_slice(), 0, 8);
    proof {
        assert(data@.take(8) =~= data@.subrange(0, 8));
        lemma_auto_spec_u64_to_from_le_bytes();
    }
    let x = u64_from_le_bytes(piece);
    #[verifier::truncate] (x as i64)
}

/// Reads the artifact instance identifier: exactly sixteen raw bytes.
pub fn read_instance(data: &Vec<u8>) -> (r: Result<Id>)
    ensures
        r matches Ok(id) ==> data@.len() >= 16 && id_bytes(id) == data@.take(16) && id
            == artifact_instance(data@),
        r is Err <==> data@.len() < 16,
        r matches Err(e) ==> e.kind == ErrorKind::MalformedArtifact,
{
    if data.len() < 16 {
        return Err(Error::from_message(ErrorKind::MalformedArtifact));
    }
    let piece = vstd::slice::slice_subrange(data.as_slice(), 0, 16);
    proof {
        assert(data@.take(16) =~= data@.subrange(0, 16));
    }
    Ok(Id::from_bytes(piece))
}

/// Builds the envelope key derivation salt from a timestamp and an
/// instance identifier.
pub fn make_key_derivation_salt(timestamp: Timestamp, instance: &Id) -> (r: Vec<u8>)
    ensures
        r@ == sync_salt(timestamp, *instance),
{
    proof {
        lemma_auto_spec_u64_to_from_le_bytes();
    }
    let mut out = u64_to_le_bytes(#[verifier::truncate] (timestamp as u64));
    let mut tail = instance.to_bytes();
    out.append(&mut tail);
    out
}

} // verus!
