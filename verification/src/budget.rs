use vstd::prelude::*;
use vstd::bytes::{spec_u64_from_le_bytes, u64_from_le_bytes, u64_to_le_bytes};
use vstd::bytes::lemma_auto_spec_u64_to_from_le_bytes;
use vstd::utf8::{decode_utf8, encode_utf8, valid_utf8};
use crate::buffer::CryptoBuffer;
use crate::config::Config;
use crate::data::{Account, AccountV, Category, CategoryV, CategoryType, EncryptedAccount,
    EncryptedAccountV, EncryptedCategory, EncryptedCategoryV, EncryptedPlan, EncryptedPlanV,
    EncryptedTransaction, EncryptedTransactionV, Id, MetaInfo, Plan, PlanV, Transaction,
    TransactionV};
use crate::datetime::{Timestamp, JANUARY_1970};
use crate::engine::{AsymmetricProvider, CryptoEngine};
use crate::error::{Error, ErrorKind, Result};
use crate::storage::Storage;
use crate::symmetric::aead_open_total;

verus! {

/// What String::from_utf8_lossy yields for a byte sequence: a function
/// of the bytes alone.
pub uninterp spec fn lossy_utf8(bytes: Seq<u8>) -> Seq<char>;

/// Relies on String::from_utf8_lossy: the result depends on the bytes
/// alone, and valid UTF-8 input decodes exactly.
#[verifier::external_body]
fn utf8_lossy(bytes: &[u8]) -> (r: String)
    ensures
        r@ == lossy_utf8(bytes@),
        valid_utf8(bytes@) ==> r@ == decode_utf8(bytes@),
{
    String::from_utf8_lossy(bytes).into_owned()
}

// ------------------------------------------------------------------
// What a ciphertext denotes under a data key.
// ------------------------------------------------------------------
/// The signed integer a field ciphertext denotes: the plaintext must
/// authenticate and hold exactly eight little-endian bytes.
pub open spec fn dec_i64_of(key: Seq<u8>, ct: Seq<u8>) -> Option<i64> {
    match aead_open_total(key, ct) {
        Option::Some(b) => if b.len() == 8 {
            Some(spec_u64_from_le_bytes(b) as i64)
        } else {
            None
        },
        Option::None => None,
    }
}

/// The character string a field ciphertext denotes: the plaintext must
/// authenticate; its bytes decode with lossy UTF-8 conversion.
pub open spec fn dec_string_of(key: Seq<u8>, ct: Seq<u8>) -> Option<Seq<char>> {
    match aead_open_total(key, ct) {
        Option::Some(b) => Some(
            if valid_utf8(b) {
                decode_utf8(b)
            } else {
                lossy_utf8(b)
            },
        ),
        Option::None => None,
    }
}

/// The plaintext transaction an encrypted row denotes under a key.
pub open spec fn tx_plain(key: Seq<u8>, t: EncryptedTransactionV) -> Option<TransactionV> {
    match (dec_string_of(key, t.description), dec_i64_of(key, t.amount)) {
        (Option::Some(description), Option::Some(amount)) => Some(
            TransactionV {
                id: t.id,
                timestamp: t.timestamp,
                description,
                account_id: t.account_id,
                category_id: t.category_id,
                amount,
                meta_info: t.meta_info,
            },
        ),
        _ => None,
    }
}

/// The plaintext account an encrypted row denotes under a key.
pub open spec fn account_plain(key: Seq<u8>, a: EncryptedAccountV) -> Option<AccountV> {
    match (dec_string_of(key, a.name), dec_i64_of(key, a.balance), dec_i64_of(
        key,
        a.initial_balance,
    )) {
        (Option::Some(name), Option::Some(balance), Option::Some(initial_balance)) => Some(
            AccountV { id: a.id, name, balance, initial_balance, meta_info: a.meta_info },
        ),
        _ => None,
    }
}

/// The plaintext category an encrypted row denotes under a key.
pub open spec fn category_plain(key: Seq<u8>, c: EncryptedCategoryV) -> Option<CategoryV> {
    match dec_string_of(key, c.name) {
        Option::Some(name) => Some(
            CategoryV { id: c.id, name, category_type: c.category_type, meta_info: c.meta_info },
        ),
        Option::None => None,
    }
}

/// The plaintext plan an encrypted row denotes under a key.
pub open spec fn plan_plain(key: Seq<u8>, p: EncryptedPlanV) -> Option<PlanV> {
    match (dec_string_of(key, p.name), dec_i64_of(key, p.amount_limit)) {
        (Option::Some(name), Option::Some(amount_limit)) => Some(
            PlanV {
                id: p.id,
                category_id: p.category_id,
                name,
                amount_limit,
                meta_info: p.meta_info,
            },
        ),
        _ => None,
    }
}


// ------------------------------------------------------------------
// The live row carrying a given identifier, and its decoded fields.
// Identifiers are unique per table in a well-formed store, so these
// pick out at most one row.
// ------------------------------------------------------------------
/// Whether a live account row with this id exists.
pub open spec fn account_live(s: Seq<EncryptedAccountV>, id: Id) -> bool {
    exists|i: int|
        0 <= i < s.len() && (#[trigger] s[i]).id == Some(id) && s[i].meta_info.removed_timestamp
            is None
}

/// The live account row with this id.
pub open spec fn live_account_row(s: Seq<EncryptedAccountV>, id: Id) -> EncryptedAccountV {
    s[choose|i: int|
        0 <= i < s.len() && (#[trigger] s[i]).id == Some(id) && s[i].meta_info.removed_timestamp
            is None]
}

/// The decoded balance of the live account with this id.
pub open spec fn account_balance_of(key: Seq<u8>, s: Seq<EncryptedAccountV>, id: Id) -> Option<
    i64,
> {
    if account_live(s, id) {
        dec_i64_of(key, live_account_row(s, id).balance)
    } else {
        None
    }
}

/// Whether a live transaction row with this id exists.
pub open spec fn tx_live(s: Seq<EncryptedTransactionV>, id: Id) -> bool {
    exists|i: int|
        0 <= i < s.len() && (#[trigger] s[i]).id == Some(id) && s[i].meta_info.removed_timestamp
            is None
}

/// The live transaction row with this id.
pub open spec fn live_tx_row(s: Seq<EncryptedTransactionV>, id: Id) -> EncryptedTransactionV {
    s[choose|i: int|
        0 <= i < s.len() && (#[trigger] s[i]).id == Some(id) && s[i].meta_info.removed_timestamp
            is None]
}

/// The decoded amount of the live transaction with this id.
pub open spec fn tx_amount_of(key: Seq<u8>, s: Seq<EncryptedTransactionV>, id: Id) -> Option<
    i64,
> {
    if tx_live(s, id) {
        dec_i64_of(key, live_tx_row(s, id).amount)
    } else {
        None
    }
}

/// Whether a live category row with this id exists.
pub open spec fn category_live(s: Seq<EncryptedCategoryV>, id: Id) -> bool {
    exists|i: int|
        0 <= i < s.len() && (#[trigger] s[i]).id == Some(id) && s[i].meta_info.removed_timestamp
            is None
}

/// The live category row with this id.
pub open spec fn live_category_row(s: Seq<EncryptedCategoryV>, id: Id) -> EncryptedCategoryV {
    s[choose|i: int|
        0 <= i < s.len() && (#[trigger] s[i]).id == Some(id) && s[i].meta_info.removed_timestamp
            is None]
}

/// Whether a live plan row with this id exists.
pub open spec fn plan_live(s: Seq<EncryptedPlanV>, id: Id) -> bool {
    exists|i: int|
        0 <= i < s.len() && (#[trigger] s[i]).id == Some(id) && s[i].meta_info.removed_timestamp
            is None
}

/// The live plan row with this id.
pub open spec fn live_plan_row(s: Seq<EncryptedPlanV>, id: Id) -> EncryptedPlanV {
    s[choose|i: int|
        0 <= i < s.len() && (#[trigger] s[i]).id == Some(id) && s[i].meta_info.removed_timestamp
            is None]
}

/// In a store with unique identifiers, any live row carrying the id is
/// the live category row.
pub proof fn lemma_live_category_row_is(s: Seq<EncryptedCategoryV>, id: Id, i: int)
    requires
        forall|x: int, y: int| 0 <= x < y < s.len() ==> s[x].id != s[y].id,
        0 <= i < s.len(),
        s[i].id == Some(id),
        s[i].meta_info.removed_timestamp is None,
    ensures
        category_live(s, id),
        live_category_row(s, id) == s[i],
{
    assert(category_live(s, id));
    let j = choose|j: int|
        0 <= j < s.len() && (#[trigger] s[j]).id == Some(id) && s[j].meta_info.removed_timestamp
            is None;
    if i != j {
        assert(s[i].id != s[j].id);
    }
}

/// In a store with unique identifiers, any live row carrying the id is
/// the live plan row.
pub proof fn lemma_live_plan_row_is(s: Seq<EncryptedPlanV>, id: Id, i: int)
    requires
        forall|x: int, y: int| 0 <= x < y < s.len() ==> s[x].id != s[y].id,
        0 <= i < s.len(),
        s[i].id == Some(id),
        s[i].meta_info.removed_timestamp is None,
    ensures
        plan_live(s, id),
        live_plan_row(s, id) == s[i],
{
    assert(plan_live(s, id));
    let j = choose|j: int|
        0 <= j < s.len() && (#[trigger] s[j]).id == Some(id) && s[j].meta_info.removed_timestamp
            is None;
    if i != j {
        assert(s[i].id != s[j].id);
    }
}

/// In a store with unique identifiers, any live row carrying the id is
/// the live account row.
pub proof fn lemma_live_account_row_is(s: Seq<EncryptedAccountV>, id: Id, i: int)
    requires
        forall|x: int, y: int| 0 <= x < y < s.len() ==> s[x].id != s[y].id,
        0 <= i < s.len(),
        s[i].id == Some(id),
        s[i].meta_info.removed_timestamp is None,
    ensures
        account_live(s, id),
        live_account_row(s, id) == s[i],
{
    assert(account_live(s, id));
    let j = choose|j: int|
        0 <= j < s.len() && (#[trigger] s[j]).id == Some(id) && s[j].meta_info.removed_timestamp
            is None;
    if i != j {
        assert(s[i].id != s[j].id);
    }
}

/// In a store with unique identifiers, any live row carrying the id is
/// the live transaction row.
pub proof fn lemma_live_tx_row_is(s: Seq<EncryptedTransactionV>, id: Id, i: int)
    requires
        forall|x: int, y: int| 0 <= x < y < s.len() ==> s[x].id != s[y].id,
        0 <= i < s.len(),
        s[i].id == Some(id),
        s[i].meta_info.removed_timestamp is None,
    ensures
        tx_live(s, id),
        live_tx_row(s, id) == s[i],
{
    assert(tx_live(s, id));
    let j = choose|j: int|
        0 <= j < s.len() && (#[trigger] s[j]).id == Some(id) && s[j].meta_info.removed_timestamp
            is None;
    if i != j {
        assert(s[i].id != s[j].id);
    }
}

/// The plaintext a freshly inserted transaction row denotes: the given
/// transaction under a possibly store-assigned id, with the change and
/// removal stamps of a fresh insert clear.
pub open spec fn tx_plain_inserted(t: TransactionV, id: Option<Id>) -> TransactionV {
    TransactionV {
        id,
        meta_info: MetaInfo {
            changed_timestamp: None,
            removed_timestamp: None,
            ..t.meta_info
        },
        ..t
    }
}

/// The plaintext a freshly inserted account row denotes.
pub open spec fn account_plain_inserted(v: AccountV, id: Option<Id>) -> AccountV {
    AccountV {
        id,
        meta_info: MetaInfo {
            changed_timestamp: None,
            removed_timestamp: None,
            ..v.meta_info
        },
        ..v
    }
}

/// The plaintext a freshly inserted category row denotes.
pub open spec fn category_plain_inserted(v: CategoryV, id: Option<Id>) -> CategoryV {
    CategoryV {
        id,
        meta_info: MetaInfo {
            changed_timestamp: None,
            removed_timestamp: None,
            ..v.meta_info
        },
        ..v
    }
}

/// The magnitude of a transfer amount.
pub open spec fn abs_amount(amount: i64) -> int {
    if amount >= 0 {
        amount as int
    } else {
        -(amount as int)
    }
}

/// The plaintext of one leg of a transfer: a fresh transaction at the
/// given posting time, on the given account and reserved category.
pub open spec fn transfer_leg_plain(
    id: Option<Id>,
    instance: Id,
    timestamp: Timestamp,
    account: Id,
    category: Id,
    amount: i64,
    description: Seq<char>,
) -> TransactionV {
    TransactionV {
        id,
        timestamp,
        description,
        account_id: account,
        category_id: category,
        amount,
        meta_info: MetaInfo {
            origin: instance,
            added_timestamp: Some(timestamp),
            changed_timestamp: None,
            removed_timestamp: None,
        },
    }
}

/// The plaintext a freshly inserted plan row denotes.
pub open spec fn plan_plain_inserted(v: PlanV, id: Option<Id>) -> PlanV {
    PlanV {
        id,
        meta_info: MetaInfo {
            changed_timestamp: None,
            removed_timestamp: None,
            ..v.meta_info
        },
        ..v
    }
}

/// Whether a list of plaintext transactions is exactly the decryption,
/// in order, of a list of encrypted rows.
pub open spec fn tx_list_matches(
    key: Seq<u8>,
    rows: Seq<EncryptedTransactionV>,
    plains: Seq<TransactionV>,
) -> bool {
    plains.len() == rows.len() && forall|i: int|
        0 <= i < rows.len() ==> tx_plain(key, #[trigger] rows[i]) == Some(plains[i])
}

/// Whether a list of plaintext accounts is exactly the decryption, in
/// order, of a list of encrypted rows.
pub open spec fn account_list_matches(
    key: Seq<u8>,
    rows: Seq<EncryptedAccountV>,
    plains: Seq<AccountV>,
) -> bool {
    plains.len() == rows.len() && forall|i: int|
        0 <= i < rows.len() ==> account_plain(key, #[trigger] rows[i]) == Some(plains[i])
}

/// Whether a list of plaintext categories is exactly the decryption,
/// in order, of a list of encrypted rows.
pub open spec fn category_list_matches(
    key: Seq<u8>,
    rows: Seq<EncryptedCategoryV>,
    plains: Seq<CategoryV>,
) -> bool {
    plains.len() == rows.len() && forall|i: int|
        0 <= i < rows.len() ==> category_plain(key, #[trigger] rows[i]) == Some(plains[i])
}

/// Whether a list of plaintext plans is exactly the decryption, in
/// order, of a list of encrypted rows.
pub open spec fn plan_list_matches(
    key: Seq<u8>,
    rows: Seq<EncryptedPlanV>,
    plains: Seq<PlanV>,
) -> bool {
    plains.len() == rows.len() && forall|i: int|
        0 <= i < rows.len() ==> plan_plain(key, #[trigger] rows[i]) == Some(plains[i])
}

// ------------------------------------------------------------------
// The account balance equation.
// ------------------------------------------------------------------
/// What one transaction row contributes to an account's balance: its
/// amount, when it is live, belongs to the account and decodes.
pub open spec fn tx_contribution(key: Seq<u8>, t: EncryptedTransactionV, account: Id) -> int {
    if t.account_id == account && t.meta_info.removed_timestamp is None {
        match dec_i64_of(key, t.amount) {
            Option::Some(x) => x as int,
            Option::None => 0,
        }
    } else {
        0
    }
}

/// The sum of all live transaction amounts of one account.
pub open spec fn tx_sum(key: Seq<u8>, txs: Seq<EncryptedTransactionV>, account: Id) -> int
    decreases txs.len(),
{
    if txs.len() == 0 {
        0
    } else {
        tx_sum(key, txs.drop_last(), account) + tx_contribution(key, txs.last(), account)
    }
}

/// Inserting a row anywhere adds exactly its contribution to the sum.
pub proof fn lemma_tx_sum_insert(
    key: Seq<u8>,
    txs: Seq<EncryptedTransactionV>,
    k: int,
    t: EncryptedTransactionV,
    account: Id,
)
    requires
        0 <= k <= txs.len(),
    ensures
        tx_sum(key, txs.insert(k, t), account) == tx_sum(key, txs, account) + tx_contribution(
            key,
            t,
            account,
        ),
    decreases txs.len(),
{
    let s2 = txs.insert(k, t);
    txs.insert_ensures(k, t);
    if k == txs.len() {
        assert(s2.drop_last() =~= txs);
        assert(s2.last() == t);
    } else {
        assert(s2.drop_last() =~= txs.drop_last().insert(k, t));
        assert(s2.last() == txs.last());
        lemma_tx_sum_insert(key, txs.drop_last(), k, t, account);
    }
}

/// Replacing one row changes the sum by the difference of the two
/// contributions.
pub proof fn lemma_tx_sum_update(
    key: Seq<u8>,
    txs: Seq<EncryptedTransactionV>,
    m: int,
    t2: EncryptedTransactionV,
    account: Id,
)
    requires
        0 <= m < txs.len(),
    ensures
        tx_sum(key, txs.update(m, t2), account) == tx_sum(key, txs, account) - tx_contribution(
            key,
            txs[m],
            account,
        ) + tx_contribution(key, t2, account),
    decreases txs.len(),
{
    let s2 = txs.update(m, t2);
    if m == txs.len() - 1 {
        assert(s2.drop_last() =~= txs.drop_last());
        assert(s2.last() == t2);
    } else {
        assert(s2.drop_last() =~= txs.drop_last().update(m, t2));
        assert(s2.last() == txs.last());
        lemma_tx_sum_update(key, txs.drop_last(), m, t2, account);
    }
}


/// A sum over rows that all contribute nothing is zero.
pub proof fn lemma_tx_sum_zero(key: Seq<u8>, txs: Seq<EncryptedTransactionV>, account: Id)
    requires
        forall|i: int|
            0 <= i < txs.len() ==> tx_contribution(key, #[trigger] txs[i], account) == 0,
    ensures
        tx_sum(key, txs, account) == 0,
    decreases txs.len(),
{
    if txs.len() > 0 {
        lemma_tx_sum_zero(key, txs.drop_last(), account);
    }
}

/// Whether one live account row satisfies the balance equation: its
/// decoded balance equals its decoded initial balance plus the sum of
/// all live transaction amounts referencing it.
pub open spec fn account_balance_ok(
    key: Seq<u8>,
    a: EncryptedAccountV,
    txs: Seq<EncryptedTransactionV>,
) -> bool {
    match account_plain(key, a) {
        Option::Some(ap) => a.id matches Some(id) && ap.balance == ap.initial_balance + tx_sum(
            key,
            txs,
            id,
        ),
        Option::None => false,
    }
}

/// Tombstoning account rows preserves the balance equation of the
/// remaining live accounts.
pub proof fn lemma_balances_tombstone_account(
    key: Seq<u8>,
    pre: crate::storage::StorageV,
    post: crate::storage::StorageV,
    id: Id,
    t: Timestamp,
)
    requires
        balances_consistent(key, pre),
        post.accounts == crate::storage::account_tombstoned(pre.accounts, id, t),
        post.transactions == pre.transactions,
    ensures
        balances_consistent(key, post),
{
    assert forall|j: int|
        0 <= j < post.accounts.len() && (#[trigger] post.accounts[j])
            .meta_info.removed_timestamp is None implies account_balance_ok(
        key,
        post.accounts[j],
        post.transactions,
    ) by {
        assert(post.accounts[j] == pre.accounts[j]);
    }
}

/// Whether every live account row of a store satisfies the balance
/// equation.
pub open spec fn balances_consistent(key: Seq<u8>, store: crate::storage::StorageV) -> bool {
    forall|i: int|
        0 <= i < store.accounts.len() && (#[trigger] store.accounts[i]).meta_info.removed_timestamp
            is None ==> account_balance_ok(key, store.accounts[i], store.transactions)
}

// ------------------------------------------------------------------
// The budget manager.
// ------------------------------------------------------------------
/// Budget manager: the core domain façade.
///
/// Decrypts on read, encrypts on write, maintains the account balance
/// equation on transaction add and remove, and owns the initialization
/// of the two predefined transfer categories.
pub struct Budget<P: AsymmetricProvider> {
    /// Cryptographic engine used to protect sensitive fields.
    pub(crate) crypto_engine: CryptoEngine<P>,
    /// Store of the encrypted rows.
    pub(crate) storage: Storage,
    /// Instance configuration.
    pub(crate) config: Config,
}

impl<P: AsymmetricProvider> Budget<P> {
    /// Whether the budget manager is well formed: an operational engine
    /// over a well-formed store.
    pub closed spec fn wf(self) -> bool {
        &&& self.crypto_engine.wf()
        &&& self.crypto_engine.operational()
        &&& self.storage.wf()
    }

    /// The symmetric data key every field is protected under.
    pub closed spec fn key(self) -> Seq<u8> {
        self.crypto_engine.sym_key()
    }

    /// The stored rows.
    pub closed spec fn store(self) -> crate::storage::StorageV {
        self.storage@
    }

    /// The identifier of this instance.
    pub closed spec fn instance(self) -> Id {
        self.config.instance_id_spec()
    }

    /// The configured key identifier.
    pub closed spec fn key_id_view(self) -> Seq<char> {
        self.config.key_id_spec()
    }

    /// Creates a budget manager.
    ///
    /// Fails closed when the configured key has no private half or is
    /// unusable, or when the engine holds no key material.
    pub fn new(crypto_engine: CryptoEngine<P>, storage: Storage, config: Config) -> (r: Result<
        Budget<P>,
    >)
        requires
            crypto_engine.wf(),
            storage.wf(),
        ensures
            r matches Ok(b) ==> {
                &&& b.wf()
                &&& b.store() == storage@
                &&& b.instance() == config.instance_id_spec()
            },
    {
        let mut crypto_engine = crypto_engine;
        crypto_engine.verify_key(config.key_id().as_str())?;
        crypto_engine.materialize()?;
        Ok(Budget { crypto_engine, storage, config })
    }

    /// Name of the underlying cryptographic engine.
    pub fn engine(&self) -> &'static str {
        self.crypto_engine.engine()
    }

    /// Version of the underlying cryptographic engine.
    pub fn engine_version(&self) -> &'static str {
        self.crypto_engine.version()
    }

    /// The configured key identifier.
    pub fn key_id(&self) -> (r: &String)
        ensures
            r@ == self.key_id_view(),
    {
        self.config.key_id()
    }

    /// The identifier of this instance.
    pub fn instance_id(&self) -> (r: Id)
        ensures
            r == self.instance(),
    {
        self.config.instance_id()
    }

    /// Encrypts a character string as its UTF-8 bytes.
    fn encrypt_string(&mut self, data: &String) -> (r: Result<CryptoBuffer>)
        requires
            old(self).wf(),
        ensures
            final(self).wf(),
            final(self).key() == old(self).key(),
            final(self).store() == old(self).store(),
            final(self).instance() == old(self).instance(),
            r matches Ok(c) ==> {
                &&& aead_open_total(final(self).key(), c@) == Some(encode_utf8(data@))
                &&& dec_string_of(final(self).key(), c@) == Some(data@)
            },
            r matches Err(e) ==> e.kind == ErrorKind::Encryption,
    {
        let r = self.crypto_engine.encrypt(data.as_str().as_bytes());
        proof {
            broadcast use vstd::utf8::encode_utf8_decode_utf8;
            broadcast use vstd::utf8::encode_utf8_valid_utf8;

        }
        r
    }

    /// Decrypts a character string with lossy UTF-8 conversion.
    fn decrypt_string(&mut self, data: &[u8]) -> (r: Result<String>)
        requires
            old(self).wf(),
        ensures
            final(self).wf(),
            final(self).key() == old(self).key(),
            final(self).store() == old(self).store(),
            final(self).instance() == old(self).instance(),
            r matches Ok(s) ==> dec_string_of(old(self).key(), data@) == Some(s@),
            r is Ok <==> dec_string_of(old(self).key(), data@) is Some,
            r matches Err(e) ==> e.kind == ErrorKind::Decryption,
    {
        let plaintext = self.crypto_engine.decrypt(data)?;
        let out = utf8_lossy(plaintext.as_bytes());
        plaintext.destroy();
        Ok(out)
    }

    /// Encrypts a signed integer as eight little-endian bytes.
    fn encrypt_i64(&mut self, data: i64) -> (r: Result<CryptoBuffer>)
        requires
            old(self).wf(),
        ensures
            final(self).wf(),
            final(self).key() == old(self).key(),
            final(self).store() == old(self).store(),
            final(self).instance() == old(self).instance(),
            r matches Ok(c) ==> dec_i64_of(final(self).key(), c@) == Some(data),
            r matches Err(e) ==> e.kind == ErrorKind::Encryption,
    {
        proof {
            lemma_auto_spec_u64_to_from_le_bytes();
            assert((data as u64) as i64 == data) by (bit_vector);
        }
        let bytes = u64_to_le_bytes(#[verifier::truncate] (data as u64));
        self.crypto_engine.encrypt(bytes.as_slice())
    }

    /// Decrypts a signed integer; a plaintext of any other length than
    /// eight bytes is malformed.
    fn decrypt_i64(&mut self, data: &[u8]) -> (r: Result<i64>)
        requires
            old(self).wf(),
        ensures
            final(self).wf(),
            final(self).key() == old(self).key(),
            final(self).store() == old(self).store(),
            final(self).instance() == old(self).instance(),
            r matches Ok(x) ==> dec_i64_of(old(self).key(), data@) == Some(x),
            r is Ok <==> dec_i64_of(old(self).key(), data@) is Some,
            r matches Err(e) ==> {
                &&& (e.kind == ErrorKind::Decryption <==> aead_open_total(
                    old(self).key(),
                    data@,
                ) is None)
                &&& (e.kind == ErrorKind::Malformed <==> (aead_open_total(old(self).key(), data@)
                    matches Some(p) && p.len() != 8))
            },
    {
        let mut plaintext = self.crypto_engine.decrypt(data)?;
        if plaintext.as_bytes().len() != 8 {
            plaintext.erase();
            return Err(Error::from_message(ErrorKind::Malformed));
        }
        let x = u64_from_le_bytes(plaintext.as_bytes());
        plaintext.destroy();
        Ok(#[verifier::truncate] (x as i64))
    }

    /// Encrypts the sensitive fields of a transaction.
    fn encrypt_transaction(&mut self, transaction: &Transaction) -> (r: Result<
        EncryptedTransaction,
    >)
        requires
            old(self).wf(),
        ensures
            final(self).wf(),
            final(self).key() == old(self).key(),
            final(self).store() == old(self).store(),
            final(self).instance() == old(self).instance(),
            r matches Ok(et) ==> {
                &&& tx_plain(final(self).key(), et@) == Some(transaction@)
                &&& et@.id == transaction@.id
                &&& et@.timestamp == transaction@.timestamp
                &&& et@.account_id == transaction@.account_id
                &&& et@.category_id == transaction@.category_id
                &&& et@.meta_info == transaction@.meta_info
            },
            r matches Err(e) ==> e.kind == ErrorKind::Encryption,
    {
        let description = self.encrypt_string(&transaction.description)?;
        let amount = self.encrypt_i64(transaction.amount)?;
        Ok(
            EncryptedTransaction {
                id: transaction.id,
                timestamp: transaction.timestamp,
                description: vstd::slice::slice_to_vec(description.as_bytes()),
                account_id: transaction.account_id,
                category_id: transaction.category_id,
                amount: vstd::slice::slice_to_vec(amount.as_bytes()),
                meta_info: transaction.meta_info,
            },
        )
    }

    /// Decrypts the sensitive fields of a transaction row.
    fn decrypt_transaction(&mut self, encrypted_transaction: &EncryptedTransaction) -> (r: Result<
        Transaction,
    >)
        requires
            old(self).wf(),
        ensures
            final(self).wf(),
            final(self).key() == old(self).key(),
            final(self).store() == old(self).store(),
            final(self).instance() == old(self).instance(),
            r matches Ok(t) ==> tx_plain(old(self).key(), encrypted_transaction@) == Some(t@),
            r is Ok <==> tx_plain(old(self).key(), encrypted_transaction@) is Some,
            r matches Err(e) ==> e.kind == ErrorKind::Decryption || e.kind == ErrorKind::Malformed,
    {
        let description = self.decrypt_string(encrypted_transaction.description.as_slice())?;
        let amount = self.decrypt_i64(encrypted_transaction.amount.as_slice())?;
        Ok(
            Transaction {
                id: encrypted_transaction.id,
                timestamp: encrypted_transaction.timestamp,
                description,
                account_id: encrypted_transaction.account_id,
                category_id: encrypted_transaction.category_id,
                amount,
                meta_info: encrypted_transaction.meta_info,
            },
        )
    }

    /// Encrypts the sensitive fields of an account.
    fn encrypt_account(&mut self, account: &Account) -> (r: Result<EncryptedAccount>)
        requires
            old(self).wf(),
        ensures
            final(self).wf(),
            final(self).key() == old(self).key(),
            final(self).store() == old(self).store(),
            final(self).instance() == old(self).instance(),
            r matches Ok(ea) ==> {
                &&& account_plain(final(self).key(), ea@) == Some(account@)
                &&& ea@.id == account@.id
                &&& ea@.meta_info == account@.meta_info
                &&& dec_i64_of(final(self).key(), ea@.balance) == Some(account@.balance)
                &&& dec_i64_of(final(self).key(), ea@.initial_balance) == Some(
                    account@.initial_balance,
                )
            },
            r matches Err(e) ==> e.kind == ErrorKind::Encryption,
    {
        let name = self.encrypt_string(&account.name)?;
        let balance = self.encrypt_i64(account.balance)?;
        let initial_balance = self.encrypt_i64(account.initial_balance)?;
        Ok(
            EncryptedAccount {
                id: account.id,
                name: vstd::slice::slice_to_vec(name.as_bytes()),
                balance: vstd::slice::slice_to_vec(balance.as_bytes()),
                initial_balance: vstd::slice::slice_to_vec(initial_balance.as_bytes()),
                meta_info: account.meta_info,
            },
        )
    }

    /// Decrypts the sensitive fields of an account row.
    fn decrypt_account(&mut self, encrypted_account: &EncryptedAccount) -> (r: Result<Account>)
        requires
            old(self).wf(),
        ensures
            final(self).wf(),
            final(self).key() == old(self).key(),
            final(self).store() == old(self).store(),
            final(self).instance() == old(self).instance(),
            r matches Ok(a) ==> account_plain(old(self).key(), encrypted_account@) == Some(a@),
            r is Ok <==> account_plain(old(self).key(), encrypted_account@) is Some,
            r matches Err(e) ==> e.kind == ErrorKind::Decryption || e.kind == ErrorKind::Malformed,
    {
        let name = self.decrypt_string(encrypted_account.name.as_slice())?;
        let balance = self.decrypt_i64(encrypted_account.balance.as_slice())?;
        let initial_balance = self.decrypt_i64(encrypted_account.initial_balance.as_slice())?;
        Ok(
            Account {
                id: encrypted_account.id,
                name,
                balance,
                initial_balance,
                meta_info: encrypted_account.meta_info,
            },
        )
    }

    /// Encrypts the sensitive fields of a category.
    fn encrypt_category(&mut self, category: &Category) -> (r: Result<EncryptedCategory>)
        requires
            old(self).wf(),
        ensures
            final(self).wf(),
            final(self).key() == old(self).key(),
            final(self).store() == old(self).store(),
            final(self).instance() == old(self).instance(),
            r matches Ok(ec) ==> {
                &&& category_plain(final(self).key(), ec@) == Some(category@)
                &&& ec@.id == category@.id
                &&& ec@.category_type == category@.category_type
                &&& ec@.meta_info == category@.meta_info
            },
            r matches Err(e) ==> e.kind == ErrorKind::Encryption,
    {
        let name = self.encrypt_string(&category.name)?;
        Ok(
            EncryptedCategory {
                id: category.id,
                name: vstd::slice::slice_to_vec(name.as_bytes()),
                category_type: category.category_type,
                meta_info: category.meta_info,
            },
        )
    }

    /// Decrypts the sensitive fields of a category row.
    fn decrypt_category(&mut self, encrypted_category: &EncryptedCategory) -> (r: Result<Category>)
        requires
            old(self).wf(),
        ensures
            final(self).wf(),
            final(self).key() == old(self).key(),
            final(self).store() == old(self).store(),
            final(self).instance() == old(self).instance(),
            r matches Ok(c) ==> category_plain(old(self).key(), encrypted_category@) == Some(c@),
            r is Ok <==> category_plain(old(self).key(), encrypted_category@) is Some,
            r matches Err(e) ==> e.kind == ErrorKind::Decryption || e.kind == ErrorKind::Malformed,
    {
        let name = self.decrypt_string(encrypted_category.name.as_slice())?;
        Ok(
            Category {
                id: encrypted_category.id,
                name,
                category_type: encrypted_category.category_type,
                meta_info: encrypted_category.meta_info,
            },
        )
    }

    /// Encrypts the sensitive fields of a plan.
    fn encrypt_plan(&mut self, plan: &Plan) -> (r: Result<EncryptedPlan>)
        requires
            old(self).wf(),
        ensures
            final(self).wf(),
            final(self).key() == old(self).key(),
            final(self).store() == old(self).store(),
            final(self).instance() == old(self).instance(),
            r matches Ok(ep) ==> {
                &&& plan_plain(final(self).key(), ep@) == Some(plan@)
                &&& ep@.id == plan@.id
                &&& ep@.category_id == plan@.category_id
                &&& ep@.meta_info == plan@.meta_info
            },
            r matches Err(e) ==> e.kind == ErrorKind::Encryption,
    {
        let name = self.encrypt_string(&plan.name)?;
        let amount_limit = self.encrypt_i64(plan.amount_limit)?;
        Ok(
            EncryptedPlan {
                id: plan.id,
                category_id: plan.category_id,
                name: vstd::slice::slice_to_vec(name.as_bytes()),
                amount_limit: vstd::slice::slice_to_vec(amount_limit.as_bytes()),
                meta_info: plan.meta_info,
            },
        )
    }

    /// Adds a new transaction and applies its amount to the referenced
    /// account's balance.
    ///
    /// The transaction row and the balance update are two separate
    /// store writes; if the second fails the transaction row exists
    /// with a stale balance, and an emergency removal restores
    /// consistency. Balance arithmetic is checked: an overflow is
    /// reported and nothing is written.
    ///
    /// Law: adding a live transaction preserves the balance equation of
    /// every live account.
    pub fn add_transaction(&mut self, transaction: &Transaction) -> (r: Result<()>)
        requires
            old(self).wf(),
        ensures
            final(self).wf(),
            final(self).key() == old(self).key(),
            final(self).instance() == old(self).instance(),
            final(self).store().categories == old(self).store().categories,
            final(self).store().plans == old(self).store().plans,
            (r matches Err(e) && e.kind == ErrorKind::NotFound) <==> !account_live(
                old(self).store().accounts,
                transaction@.account_id,
            ),
            account_live(old(self).store().accounts, transaction@.account_id) && account_plain(
                old(self).key(),
                live_account_row(old(self).store().accounts, transaction@.account_id),
            ) is None ==> (r matches Err(e) && (e.kind == ErrorKind::Decryption || e.kind
                == ErrorKind::Malformed)),
            (r matches Err(e) && e.kind == ErrorKind::ArithmeticOverflow) ==> (
            match account_balance_of(
                old(self).key(),
                old(self).store().accounts,
                transaction@.account_id,
            ) {
                Option::Some(b) => !(i64::MIN <= b + transaction@.amount <= i64::MAX),
                Option::None => false,
            }),
            account_live(old(self).store().accounts, transaction@.account_id) && (
            match account_plain(
                old(self).key(),
                live_account_row(old(self).store().accounts, transaction@.account_id),
            ) {
                Option::Some(ap) => !(i64::MIN <= ap.balance + transaction@.amount <= i64::MAX),
                Option::None => false,
            }) ==> (r matches Err(e) && e.kind == ErrorKind::ArithmeticOverflow),
            r is Ok ==> exists|k: int, row: EncryptedTransactionV|
                {
                    &&& 0 <= k <= old(self).store().transactions.len()
                    &&& final(self).store().transactions == #[trigger] old(
                        self,
                    ).store().transactions.insert(k, row)
                    &&& row.id is Some
                    &&& (transaction@.id is Some ==> row.id == transaction@.id)
                    &&& !crate::storage::tx_id_taken(old(self).store().transactions, row.id->Some_0)
                    &&& tx_plain(final(self).key(), row) == Some(
                        tx_plain_inserted(transaction@, row.id),
                    )
                },
            r is Ok ==> match account_balance_of(
                old(self).key(),
                old(self).store().accounts,
                transaction@.account_id,
            ) {
                Option::Some(b) => account_balance_of(
                    final(self).key(),
                    final(self).store().accounts,
                    transaction@.account_id,
                ) == Some((b + transaction@.amount) as i64),
                Option::None => false,
            },
            r is Err ==> final(self).store().accounts == old(self).store().accounts,
            (exists|u: EncryptedAccountV|
                final(self).store().accounts == #[trigger] crate::storage::account_updated(
                    old(self).store().accounts,
                    u,
                )) || final(self).store().accounts == old(self).store().accounts,
            (exists|k: int, row: EncryptedTransactionV|
                {
                    &&& 0 <= k <= old(self).store().transactions.len()
                    &&& row.meta_info.origin == transaction@.meta_info.origin
                    &&& row.meta_info.removed_timestamp is None
                    &&& final(self).store().transactions == #[trigger] old(
                        self,
                    ).store().transactions.insert(k, row)
                }) || final(self).store().transactions == old(self).store().transactions,
            balances_consistent(old(self).key(), old(self).store()) && r is Ok
                ==> balances_consistent(final(self).key(), final(self).store()),
            r matches Err(e) ==> e.kind == ErrorKind::NotFound || e.kind == ErrorKind::Decryption
                || e.kind == ErrorKind::Malformed || e.kind == ErrorKind::ArithmeticOverflow
                || e.kind == ErrorKind::ConsistencyViolation || e.kind == ErrorKind::Encryption,
    {
        let ghost key = self.key();
        let ghost st0 = self.store();
        let ghost a = transaction@.account_id;
        let enc_account = self.storage.account(transaction.account_id)?;
        let ghost ai = choose|i: int|
            0 <= i < st0.accounts.len() && (#[trigger] st0.accounts[i]) == enc_account@
                && enc_account@.id == Some(transaction@.account_id)
                && enc_account@.meta_info.removed_timestamp is None;
        proof {
            lemma_live_account_row_is(st0.accounts, a, ai);
        }
        let mut account = self.decrypt_account(&enc_account)?;
        let ghost account0 = account@;
        let new_balance = match account.balance.checked_add(transaction.amount) {
            Option::Some(v) => v,
            Option::None => {
                return Err(Error::from_message(ErrorKind::ArithmeticOverflow));
            },
        };
        account.balance = new_balance;
        let enc_tx = self.encrypt_transaction(transaction)?;
        let ghost enc_tx_v = enc_tx@;
        self.storage.add_transaction(enc_tx)?;
        let ghost st1 = self.store();
        let ghost (k, id) = choose|k: int, id: Id|
            {
                &&& 0 <= k <= st0.transactions.len()
                &&& (enc_tx_v.id is Some ==> enc_tx_v.id == Some(id))
                &&& !crate::storage::tx_id_taken(st0.transactions, id)
                &&& st1.transactions == #[trigger] st0.transactions.insert(
                    k,
                    crate::storage::tx_row_inserted(enc_tx_v, id),
                )
            };
        let enc_updated = self.encrypt_account(&account)?;
        let ghost enc_updated_v = enc_updated@;
        self.storage.update_account(enc_updated)?;
        proof {
            let st2 = self.store();
            let row = crate::storage::tx_row_inserted(enc_tx_v, id);
            assert(tx_plain(key, row) == Some(tx_plain_inserted(transaction@, Some(id))));
            assert(st2.accounts == crate::storage::account_updated(st0.accounts, enc_updated_v));
            assert(st2.accounts[ai].id == Some(a) && st2.accounts[ai].meta_info.removed_timestamp
                is None);
            lemma_live_account_row_is(st2.accounts, a, ai);
            assert(st2.accounts[ai] == EncryptedAccountV {
                name: enc_updated_v.name,
                balance: enc_updated_v.balance,
                ..st0.accounts[ai]
            });
            assert(dec_i64_of(key, enc_updated_v.balance) == Some(new_balance));
            assert(account_balance_of(key, st2.accounts, a) == Some(new_balance));
            if balances_consistent(key, st0) {
                assert forall|j: int|
                    0 <= j < st2.accounts.len() && (#[trigger] st2.accounts[j])
                        .meta_info.removed_timestamp is None implies account_balance_ok(
                    key,
                    st2.accounts[j],
                    st2.transactions,
                ) by {
                    assert(st2.transactions == st1.transactions);
                    let aj = st0.accounts[j];
                    assert(aj.meta_info.removed_timestamp == st2.accounts[j]
                        .meta_info.removed_timestamp);
                    assert(account_balance_ok(key, aj, st0.transactions));
                    let idj = aj.id->Some_0;
                    lemma_tx_sum_insert(key, st0.transactions, k, row, idj);
                    if aj.id == enc_updated_v.id {
                        assert(j == ai) by {
                            if j != ai {
                                assert(st0.accounts[ai].id == Some(a));
                            }
                        }
                        assert(tx_contribution(key, row, idj) == transaction@.amount);
                        assert(account_plain(key, aj) == Some(account0));
                        assert(account_balance_ok(key, st2.accounts[j], st2.transactions));
                    } else {
                        assert(st2.accounts[j] == aj);
                        assert(idj != a);
                        assert(tx_contribution(key, row, idj) == 0);
                        assert(account_balance_ok(key, st2.accounts[j], st2.transactions));
                    }
                }
            }
        }
        Ok(())
    }

    /// Removes a transaction.
    ///
    /// Without `emergency`, the referenced account's balance is reduced
    /// by the transaction's amount before the row is tombstoned at the
    /// given time; with `emergency`, only the tombstone is written.
    ///
    /// Law: a non-emergency removal preserves the balance equation of
    /// every live account.
    pub fn remove_transaction(
        &mut self,
        transaction: Id,
        emergency: bool,
        removal_timestamp: Timestamp,
    ) -> (r: Result<()>)
        requires
            old(self).wf(),
        ensures
            final(self).wf(),
            final(self).key() == old(self).key(),
            final(self).instance() == old(self).instance(),
            final(self).store().categories == old(self).store().categories,
            final(self).store().plans == old(self).store().plans,
            r is Ok ==> final(self).store().transactions == crate::storage::tx_tombstoned(
                old(self).store().transactions,
                transaction,
                removal_timestamp,
            ),
            emergency ==> r is Ok && final(self).store().accounts == old(self).store().accounts,
            (r matches Err(e) && e.kind == ErrorKind::NotFound) <==> (!emergency && (!tx_live(
                old(self).store().transactions,
                transaction,
            ) || (tx_plain(
                old(self).key(),
                live_tx_row(old(self).store().transactions, transaction),
            ) is Some && !account_live(
                old(self).store().accounts,
                live_tx_row(old(self).store().transactions, transaction).account_id,
            )))),
            !emergency && r is Ok ==> match (
                tx_amount_of(old(self).key(), old(self).store().transactions, transaction),
                account_balance_of(
                    old(self).key(),
                    old(self).store().accounts,
                    live_tx_row(old(self).store().transactions, transaction).account_id,
                ),
            ) {
                (Option::Some(amount), Option::Some(b)) => account_balance_of(
                    final(self).key(),
                    final(self).store().accounts,
                    live_tx_row(old(self).store().transactions, transaction).account_id,
                ) == Some((b - amount) as i64) && i64::MIN <= b - amount <= i64::MAX,
                _ => false,
            },
            (r matches Err(e) && e.kind == ErrorKind::ArithmeticOverflow) ==> match (
                tx_amount_of(old(self).key(), old(self).store().transactions, transaction),
                account_balance_of(
                    old(self).key(),
                    old(self).store().accounts,
                    live_tx_row(old(self).store().transactions, transaction).account_id,
                ),
            ) {
                (Option::Some(amount), Option::Some(b)) => !(i64::MIN <= b - amount <= i64::MAX),
                _ => false,
            },
            r is Err ==> final(self).store() == old(self).store(),
            (exists|u: EncryptedAccountV|
                final(self).store().accounts == #[trigger] crate::storage::account_updated(
                    old(self).store().accounts,
                    u,
                )) || final(self).store().accounts == old(self).store().accounts,
            balances_consistent(old(self).key(), old(self).store()) && !emergency && r is Ok
                ==> balances_consistent(final(self).key(), final(self).store()),
            r matches Err(e) ==> e.kind == ErrorKind::NotFound || e.kind == ErrorKind::Decryption
                || e.kind == ErrorKind::Malformed || e.kind == ErrorKind::ArithmeticOverflow
                || e.kind == ErrorKind::Encryption,
    {
        let ghost key = self.key();
        let ghost st0 = self.store();
        if !emergency {
            let enc_tx = self.storage.transaction(transaction)?;
            let ghost ti = choose|i: int|
                0 <= i < st0.transactions.len() && (#[trigger] st0.transactions[i]) == enc_tx@
                    && enc_tx@.id == Some(transaction) && enc_tx@.meta_info.removed_timestamp
                    is None;
            proof {
                lemma_live_tx_row_is(st0.transactions, transaction, ti);
            }
            let decrypted_transaction = self.decrypt_transaction(&enc_tx)?;
            let ghost a = decrypted_transaction@.account_id;
            let enc_account = self.storage.account(decrypted_transaction.account_id)?;
            let ghost ai = choose|i: int|
                0 <= i < st0.accounts.len() && (#[trigger] st0.accounts[i]) == enc_account@
                    && enc_account@.id == Some(decrypted_transaction@.account_id)
                    && enc_account@.meta_info.removed_timestamp is None;
            proof {
                lemma_live_account_row_is(st0.accounts, a, ai);
            }
            let mut account = self.decrypt_account(&enc_account)?;
            let ghost account0 = account@;
            let new_balance = match account.balance.checked_sub(decrypted_transaction.amount) {
                Option::Some(v) => v,
                Option::None => {
                    return Err(Error::from_message(ErrorKind::ArithmeticOverflow));
                },
            };
            account.balance = new_balance;
            let enc_updated = self.encrypt_account(&account)?;
            let ghost enc_updated_v = enc_updated@;
            self.storage.update_account(enc_updated)?;
            let r = self.storage.remove_transaction(transaction, removal_timestamp);
            proof {
                let st2 = self.store();
                let tomb = crate::storage::tx_tombstoned(
                    st0.transactions,
                    transaction,
                    removal_timestamp,
                );
                let old_row = st0.transactions[ti];
                let new_row = tomb[ti];
                assert(st2.transactions == tomb);
                assert(tomb =~= st0.transactions.update(ti, new_row)) by {
                    assert forall|m: int| 0 <= m < st0.transactions.len() && m != ti implies tomb[m]
                        == st0.transactions[m] by {
                        assert(st0.transactions[m].id != st0.transactions[ti].id);
                    }
                }
                assert(st2.accounts == crate::storage::account_updated(
                    st0.accounts,
                    enc_updated_v,
                ));
                assert(st2.accounts[ai].id == Some(a) && st2.accounts[ai]
                    .meta_info.removed_timestamp is None);
                lemma_live_account_row_is(st2.accounts, a, ai);
                assert(st2.accounts[ai] == EncryptedAccountV {
                    name: enc_updated_v.name,
                    balance: enc_updated_v.balance,
                    ..st0.accounts[ai]
                });
                assert(dec_i64_of(key, enc_updated_v.balance) == Some(new_balance));
                assert(account_balance_of(key, st2.accounts, a) == Some(new_balance));
                if balances_consistent(key, st0) {
                    assert forall|j: int|
                        0 <= j < st2.accounts.len() && (#[trigger] st2.accounts[j])
                            .meta_info.removed_timestamp is None implies account_balance_ok(
                        key,
                        st2.accounts[j],
                        st2.transactions,
                    ) by {
                        let aj = st0.accounts[j];
                        assert(account_balance_ok(key, aj, st0.transactions));
                        let idj = aj.id->Some_0;
                        lemma_tx_sum_update(key, st0.transactions, ti, new_row, idj);
                        assert(tx_contribution(key, new_row, idj) == 0);
                        if aj.id == enc_updated_v.id {
                            assert(j == ai) by {
                                if j != ai {
                                    assert(st0.accounts[ai].id == Some(a));
                                }
                            }
                            assert(tx_contribution(key, old_row, idj)
                                == decrypted_transaction@.amount);
                            assert(account_plain(key, aj) == Some(account0));
                            assert(account_balance_ok(key, st2.accounts[j], st2.transactions));
                        } else {
                            assert(st2.accounts[j] == aj);
                            assert(idj != a);
                            assert(tx_contribution(key, old_row, idj) == 0);
                            assert(account_balance_ok(key, st2.accounts[j], st2.transactions));
                        }
                    }
                }
            }
            r
        } else {
            self.storage.remove_transaction(transaction, removal_timestamp)
        }
    }

    /// Decrypts the sensitive fields of a plan row.
    fn decrypt_plan(&mut self, encrypted_plan: &EncryptedPlan) -> (r: Result<Plan>)
        requires
            old(self).wf(),
        ensures
            final(self).wf(),
            final(self).key() == old(self).key(),
            final(self).store() == old(self).store(),
            final(self).instance() == old(self).instance(),
            r matches Ok(p) ==> plan_plain(old(self).key(), encrypted_plan@) == Some(p@),
            r is Ok <==> plan_plain(old(self).key(), encrypted_plan@) is Some,
            r matches Err(e) ==> e.kind == ErrorKind::Decryption || e.kind == ErrorKind::Malformed,
    {
        let name = self.decrypt_string(encrypted_plan.name.as_slice())?;
        let amount_limit = self.decrypt_i64(encrypted_plan.amount_limit.as_slice())?;
        Ok(
            Plan {
                id: encrypted_plan.id,
                category_id: encrypted_plan.category_id,
                name,
                amount_limit,
                meta_info: encrypted_plan.meta_info,
            },
        )
    }

    /// Decrypts a list of transaction rows, in order.
    fn decrypt_transactions(&mut self, rows: &Vec<EncryptedTransaction>) -> (r: Result<Vec<Transaction>>)
        requires
            old(self).wf(),
        ensures
            final(self).wf(),
            final(self).key() == old(self).key(),
            final(self).store() == old(self).store(),
            final(self).instance() == old(self).instance(),
            r matches Ok(v) ==> v@.len() == rows@.len() && forall|i: int|
                0 <= i < rows@.len() ==> tx_plain(old(self).key(), (#[trigger] rows@[i])@)
                    == Some(v@[i]@),
            r is Ok <==> forall|i: int|
                0 <= i < rows@.len() ==> tx_plain(old(self).key(), (#[trigger] rows@[i])@)
                    is Some,
            r matches Err(e) ==> e.kind == ErrorKind::Decryption || e.kind == ErrorKind::Malformed,
    {
        let mut out: Vec<Transaction> = Vec::new();
        let mut i: usize = 0;
        let n = rows.len();
        while i < n
            invariant
                old(self).wf(),
                self.wf(),
                i <= n,
                n == rows@.len(),
                self.key() == old(self).key(),
                self.store() == old(self).store(),
                self.instance() == old(self).instance(),
                out@.len() == i,
                forall|k: int|
                    0 <= k < i ==> tx_plain(old(self).key(), (#[trigger] rows@[k])@) == Some(
                        out@[k]@,
                    ),
            decreases n - i,
        {
            let row = &rows[i];
            let plain = self.decrypt_transaction(row)?;
            out.push(plain);
            i = i + 1;
        }
        Ok(out)
    }

    /// Decrypts a list of account rows, in order.
    fn decrypt_accounts(&mut self, rows: &Vec<EncryptedAccount>) -> (r: Result<Vec<Account>>)
        requires
            old(self).wf(),
        ensures
            final(self).wf(),
            final(self).key() == old(self).key(),
            final(self).store() == old(self).store(),
            final(self).instance() == old(self).instance(),
            r matches Ok(v) ==> v@.len() == rows@.len() && forall|i: int|
                0 <= i < rows@.len() ==> account_plain(old(self).key(), (#[trigger] rows@[i])@)
                    == Some(v@[i]@),
            r is Ok <==> forall|i: int|
                0 <= i < rows@.len() ==> account_plain(old(self).key(), (#[trigger] rows@[i])@)
                    is Some,
            r matches Err(e) ==> e.kind == ErrorKind::Decryption || e.kind == ErrorKind::Malformed,
    {
        let mut out: Vec<Account> = Vec::new();
        let mut i: usize = 0;
        let n = rows.len();
        while i < n
            invariant
                old(self).wf(),
                self.wf(),
                i <= n,
                n == rows@.len(),
                self.key() == old(self).key(),
                self.store() == old(self).store(),
                self.instance() == old(self).instance(),
                out@.len() == i,
                forall|k: int|
                    0 <= k < i ==> account_plain(old(self).key(), (#[trigger] rows@[k])@) == Some(
                        out@[k]@,
                    ),
            decreases n - i,
        {
            let row = &rows[i];
            let plain = self.decrypt_account(row)?;
            out.push(plain);
            i = i + 1;
        }
        Ok(out)
    }

    /// Decrypts a list of category rows, in order.
    fn decrypt_categories(&mut self, rows: &Vec<EncryptedCategory>) -> (r: Result<Vec<Category>>)
        requires
            old(self).wf(),
        ensures
            final(self).wf(),
            final(self).key() == old(self).key(),
            final(self).store() == old(self).store(),
            final(self).instance() == old(self).instance(),
            r matches Ok(v) ==> v@.len() == rows@.len() && forall|i: int|
                0 <= i < rows@.len() ==> category_plain(old(self).key(), (#[trigger] rows@[i])@)
                    == Some(v@[i]@),
            r is Ok <==> forall|i: int|
                0 <= i < rows@.len() ==> category_plain(old(self).key(), (#[trigger] rows@[i])@)
                    is Some,
            r matches Err(e) ==> e.kind == ErrorKind::Decryption || e.kind == ErrorKind::Malformed,
    {
        let mut out: Vec<Category> = Vec::new();
        let mut i: usize = 0;
        let n = rows.len();
        while i < n
            invariant
                old(self).wf(),
                self.wf(),
                i <= n,
                n == rows@.len(),
                self.key() == old(self).key(),
                self.store() == old(self).store(),
                self.instance() == old(self).instance(),
                out@.len() == i,
                forall|k: int|
                    0 <= k < i ==> category_plain(old(self).key(), (#[trigger] rows@[k])@) == Some(
                        out@[k]@,
                    ),
            decreases n - i,
        {
            let row = &rows[i];
            let plain = self.decrypt_category(row)?;
            out.push(plain);
            i = i + 1;
        }
        Ok(out)
    }

    /// Decrypts a list of plan rows, in order.
    fn decrypt_plans(&mut self, rows: &Vec<EncryptedPlan>) -> (r: Result<Vec<Plan>>)
        requires
            old(self).wf(),
        ensures
            final(self).wf(),
            final(self).key() == old(self).key(),
            final(self).store() == old(self).store(),
            final(self).instance() == old(self).instance(),
            r matches Ok(v) ==> v@.len() == rows@.len() && forall|i: int|
                0 <= i < rows@.len() ==> plan_plain(old(self).key(), (#[trigger] rows@[i])@)
                    == Some(v@[i]@),
            r is Ok <==> forall|i: int|
                0 <= i < rows@.len() ==> plan_plain(old(self).key(), (#[trigger] rows@[i])@)
                    is Some,
            r matches Err(e) ==> e.kind == ErrorKind::Decryption || e.kind == ErrorKind::Malformed,
    {
        let mut out: Vec<Plan> = Vec::new();
        let mut i: usize = 0;
        let n = rows.len();
        while i < n
            invariant
                old(self).wf(),
                self.wf(),
                i <= n,
                n == rows@.len(),
                self.key() == old(self).key(),
                self.store() == old(self).store(),
                self.instance() == old(self).instance(),
                out@.len() == i,
                forall|k: int|
                    0 <= k < i ==> plan_plain(old(self).key(), (#[trigger] rows@[k])@) == Some(
                        out@[k]@,
                    ),
            decreases n - i,
        {
            let row = &rows[i];
            let plain = self.decrypt_plan(row)?;
            out.push(plain);
            i = i + 1;
        }
        Ok(out)
    }


    /// Adds a new account in encrypted form.
    ///
    /// A fresh account whose balance equals its initial balance, and
    /// whose identifier no stored transaction references, keeps every
    /// balance equation intact.
    pub fn add_account(&mut self, account: &Account) -> (r: Result<()>)
        requires
            old(self).wf(),
        ensures
            final(self).wf(),
            final(self).key() == old(self).key(),
            final(self).instance() == old(self).instance(),
            final(self).store().transactions == old(self).store().transactions,
            final(self).store().categories == old(self).store().categories,
            final(self).store().plans == old(self).store().plans,
            r is Ok ==> exists|row: EncryptedAccountV|
                {
                    &&& final(self).store().accounts == #[trigger] old(
                        self,
                    ).store().accounts.push(row)
                    &&& row.id is Some
                    &&& (account@.id is Some ==> row.id == account@.id)
                    &&& row.meta_info.origin == account@.meta_info.origin
                    &&& row.meta_info.added_timestamp == account@.meta_info.added_timestamp
                    &&& row.meta_info.changed_timestamp is None
                    &&& row.meta_info.removed_timestamp is None
                    &&& account_plain(old(self).key(), row) == Some(
                        account_plain_inserted(account@, row.id),
                    )
                },
            r is Err ==> final(self).store().accounts == old(self).store().accounts,
            balances_consistent(old(self).key(), old(self).store()) && r is Ok && account@.balance
                == account@.initial_balance && (forall|i: int|
                0 <= i < old(self).store().transactions.len() ==> tx_contribution(
                    old(self).key(),
                    #[trigger] old(self).store().transactions[i],
                    final(self).store().accounts.last().id->Some_0,
                ) == 0) ==> balances_consistent(final(self).key(), final(self).store()),
            r matches Err(e) ==> e.kind == ErrorKind::Malformed || e.kind
                == ErrorKind::ConsistencyViolation || e.kind == ErrorKind::Encryption,
    {
        let ghost key = self.key();
        let ghost st0 = self.store();
        let enc = self.encrypt_account(account)?;
        let ghost enc_v = enc@;
        self.storage.add_account(enc)?;
        proof {
            let st2 = self.store();
            let id = choose|id: Id|
                {
                    &&& (enc_v.id is Some ==> enc_v.id == Some(id))
                    &&& !crate::storage::account_id_taken(st0.accounts, id)
                    &&& st2.accounts == #[trigger] st0.accounts.push(
                        crate::storage::account_row_inserted(enc_v, id),
                    )
                };
            let row = crate::storage::account_row_inserted(enc_v, id);
            assert(account_plain(key, row) == Some(account_plain_inserted(account@, row.id)));
            if balances_consistent(key, st0) && account@.balance == account@.initial_balance && (
            forall|i: int|
                0 <= i < st0.transactions.len() ==> tx_contribution(
                    key,
                    #[trigger] st0.transactions[i],
                    st2.accounts.last().id->Some_0,
                ) == 0) {
                assert forall|j: int|
                    0 <= j < st2.accounts.len() && (#[trigger] st2.accounts[j])
                        .meta_info.removed_timestamp is None implies account_balance_ok(
                    key,
                    st2.accounts[j],
                    st2.transactions,
                ) by {
                    if j < st0.accounts.len() {
                        assert(st2.accounts[j] == st0.accounts[j]);
                    } else {
                        assert(st2.accounts[j] == row);
                        lemma_tx_sum_zero(key, st0.transactions, row.id->Some_0);
                    }
                }
            }
        }
        Ok(())
    }

    /// Removes an account if possible, or by force.
    ///
    /// Without `force`, the call fails exactly when a live transaction
    /// still references the account. With `force`, every live
    /// transaction of the account is tombstoned first, with the same
    /// removal timestamp, and then the account itself.
    pub fn remove_account(&mut self, account: Id, force: bool, removal_timestamp: Timestamp) -> (r:
        Result<()>)
        requires
            old(self).wf(),
        ensures
            final(self).wf(),
            final(self).key() == old(self).key(),
            final(self).instance() == old(self).instance(),
            final(self).store().categories == old(self).store().categories,
            final(self).store().plans == old(self).store().plans,
            !force ==> (r is Err <==> crate::storage::tx_references_account(
                old(self).store().transactions,
                account,
            )),
            !force ==> final(self).store().transactions == old(self).store().transactions,
            !force && r is Ok ==> final(self).store().accounts
                == crate::storage::account_tombstoned(
                old(self).store().accounts,
                account,
                removal_timestamp,
            ),
            force ==> r is Ok && final(self).store().transactions
                == crate::storage::txs_of_tombstoned(
                old(self).store().transactions,
                account,
                removal_timestamp,
            ) && final(self).store().accounts == crate::storage::account_tombstoned(
                old(self).store().accounts,
                account,
                removal_timestamp,
            ),
            r matches Err(e) ==> e.kind == ErrorKind::ConsistencyViolation,
            r is Err ==> final(self).store() == old(self).store(),
    {
        if force {
            self.storage.remove_transactions_of(account, removal_timestamp)?;
            proof {
                let txs = self.store().transactions;
                assert forall|i: int|
                    0 <= i < txs.len() implies !((#[trigger] txs[i]).account_id == account
                    && txs[i].meta_info.removed_timestamp is None) by {}
            }
            self.storage.remove_account(account, removal_timestamp)
        } else {
            self.storage.remove_account(account, removal_timestamp)
        }
    }

    /// Adds a new category in encrypted form.
    pub fn add_category(&mut self, category: &Category) -> (r: Result<()>)
        requires
            old(self).wf(),
        ensures
            final(self).wf(),
            final(self).key() == old(self).key(),
            final(self).instance() == old(self).instance(),
            final(self).store().transactions == old(self).store().transactions,
            final(self).store().accounts == old(self).store().accounts,
            final(self).store().plans == old(self).store().plans,
            r is Ok ==> exists|k: int, row: EncryptedCategoryV|
                {
                    &&& 0 <= k <= old(self).store().categories.len()
                    &&& final(self).store().categories == #[trigger] old(
                        self,
                    ).store().categories.insert(k, row)
                    &&& row.id is Some
                    &&& (category@.id is Some ==> row.id == category@.id)
                    &&& row.meta_info.origin == category@.meta_info.origin
                    &&& row.meta_info.added_timestamp == category@.meta_info.added_timestamp
                    &&& row.meta_info.changed_timestamp is None
                    &&& row.meta_info.removed_timestamp is None
                    &&& category_plain(old(self).key(), row) == Some(
                        category_plain_inserted(category@, row.id),
                    )
                },
            r is Err ==> final(self).store().categories == old(self).store().categories,
            r matches Err(e) ==> e.kind == ErrorKind::Malformed || e.kind
                == ErrorKind::ConsistencyViolation || e.kind == ErrorKind::Encryption,
            (r matches Err(e) && e.kind == ErrorKind::Malformed)
                ==> category@.meta_info.added_timestamp is None,
            category@.meta_info.added_timestamp is Some && (category@.id matches Some(id)
                && !crate::storage::category_id_taken(old(self).store().categories, id)) ==> !(
            r matches Err(e) && e.kind == ErrorKind::ConsistencyViolation),
    {
        let enc = self.encrypt_category(category)?;
        self.storage.add_category(enc)?;
        Ok(())
    }

    /// Removes a category if possible.
    ///
    /// The two predefined transfer categories can never be removed;
    /// otherwise the call fails exactly when a live transaction or a
    /// live plan still references the category.
    pub fn remove_category(&mut self, category: Id, removal_timestamp: Timestamp) -> (r: Result<
        (),
    >)
        requires
            old(self).wf(),
        ensures
            final(self).wf(),
            final(self).key() == old(self).key(),
            final(self).instance() == old(self).instance(),
            final(self).store().transactions == old(self).store().transactions,
            final(self).store().accounts == old(self).store().accounts,
            final(self).store().plans == old(self).store().plans,
            r is Err <==> category.is_predefined_spec() || crate::storage::tx_references_category(
                old(self).store().transactions,
                category,
            ) || crate::storage::plan_references_category(old(self).store().plans, category),
            r is Ok ==> final(self).store().categories == crate::storage::category_tombstoned(
                old(self).store().categories,
                category,
                removal_timestamp,
            ),
            r matches Err(e) ==> {
                &&& (e.kind == ErrorKind::CannotDeletePredefined <==> category
                    .is_predefined_spec())
                &&& (!category.is_predefined_spec() ==> e.kind == ErrorKind::ConsistencyViolation)
                &&& final(self).store().categories == old(self).store().categories
            },
    {
        self.storage.remove_category(category, removal_timestamp)
    }

    /// Adds a new plan in encrypted form.
    pub fn add_plan(&mut self, plan: &Plan) -> (r: Result<()>)
        requires
            old(self).wf(),
        ensures
            final(self).wf(),
            final(self).key() == old(self).key(),
            final(self).instance() == old(self).instance(),
            final(self).store().transactions == old(self).store().transactions,
            final(self).store().accounts == old(self).store().accounts,
            final(self).store().categories == old(self).store().categories,
            r is Ok ==> exists|k: int, row: EncryptedPlanV|
                {
                    &&& 0 <= k <= old(self).store().plans.len()
                    &&& final(self).store().plans == #[trigger] old(self).store().plans.insert(
                        k,
                        row,
                    )
                    &&& row.id is Some
                    &&& (plan@.id is Some ==> row.id == plan@.id)
                    &&& row.meta_info.origin == plan@.meta_info.origin
                    &&& row.meta_info.added_timestamp == plan@.meta_info.added_timestamp
                    &&& row.meta_info.changed_timestamp is None
                    &&& row.meta_info.removed_timestamp is None
                    &&& plan_plain(old(self).key(), row) == Some(
                        plan_plain_inserted(plan@, row.id),
                    )
                },
            r is Err ==> final(self).store().plans == old(self).store().plans,
            r matches Err(e) ==> e.kind == ErrorKind::Malformed || e.kind
                == ErrorKind::ConsistencyViolation || e.kind == ErrorKind::Encryption,
    {
        let enc = self.encrypt_plan(plan)?;
        self.storage.add_plan(enc)?;
        Ok(())
    }

    /// Removes a plan.
    pub fn remove_plan(&mut self, plan: Id, removal_timestamp: Timestamp) -> (r: Result<()>)
        requires
            old(self).wf(),
        ensures
            final(self).wf(),
            final(self).key() == old(self).key(),
            final(self).instance() == old(self).instance(),
            final(self).store().transactions == old(self).store().transactions,
            final(self).store().accounts == old(self).store().accounts,
            final(self).store().categories == old(self).store().categories,
            r is Ok,
            final(self).store().plans == crate::storage::plan_tombstoned(
                old(self).store().plans,
                plan,
                removal_timestamp,
            ),
    {
        self.storage.remove_plan(plan, removal_timestamp)
    }

    /// Serializes the encrypted store for persistence.
    pub fn store_bytes(&self) -> (r: Vec<u8>)
        ensures
            r@ == crate::codec::enc_store(self.store()),
    {
        self.storage.to_bytes()
    }

    /// Permanently deletes every previously removed row.
    pub fn clean_removed(&mut self) -> (r: Result<()>)
        requires
            old(self).wf(),
        ensures
            final(self).wf(),
            final(self).key() == old(self).key(),
            final(self).instance() == old(self).instance(),
            r is Ok,
            final(self).store().transactions == old(self).store().transactions.filter(
                crate::storage::live_tx(),
            ),
            final(self).store().accounts == old(self).store().accounts.filter(
                crate::storage::live_account(),
            ),
            final(self).store().categories == old(self).store().categories.filter(
                crate::storage::live_category(),
            ),
            final(self).store().plans == old(self).store().plans.filter(
                crate::storage::live_plan(),
            ),
    {
        self.storage.clean_removed()
    }


    /// Returns the account with the given identifier, decrypted.
    pub fn account(&mut self, account: Id) -> (r: Result<Account>)
        requires
            old(self).wf(),
        ensures
            final(self).wf(),
            final(self).key() == old(self).key(),
            final(self).store() == old(self).store(),
            final(self).instance() == old(self).instance(),
            r matches Ok(v) ==> exists|i: int|
                {
                    &&& 0 <= i < old(self).store().accounts.len()
                    &&& account_plain(old(self).key(), #[trigger] old(self).store().accounts[i])
                        == Some(v@)
                    &&& v@.id == Some(account)
                    &&& v@.meta_info.removed_timestamp is None
                },
            (r matches Err(e) && e.kind == ErrorKind::NotFound) <==> !account_live(
                old(self).store().accounts,
                account,
            ),
            account_live(old(self).store().accounts, account) && account_plain(
                old(self).key(),
                live_account_row(old(self).store().accounts, account),
            ) is Some ==> r is Ok,
            r matches Ok(v) ==> account_plain(
                old(self).key(),
                live_account_row(old(self).store().accounts, account),
            ) == Some(v@),
            r matches Err(e) ==> e.kind == ErrorKind::NotFound || e.kind == ErrorKind::Decryption
                || e.kind == ErrorKind::Malformed,
    {
        let ghost st0 = self.store();
        let row = self.storage.account(account)?;
        let ghost wi = choose|i: int|
            0 <= i < st0.accounts.len() && (#[trigger] st0.accounts[i]) == row@ && row@.id == Some(
                account,
            ) && row@.meta_info.removed_timestamp is None;
        proof {
            lemma_live_account_row_is(st0.accounts, account, wi);
        }
        let plain = self.decrypt_account(&row)?;
        Ok(plain)
    }

    /// Returns the category with the given identifier, decrypted.
    pub fn category(&mut self, category: Id) -> (r: Result<Category>)
        requires
            old(self).wf(),
        ensures
            final(self).wf(),
            final(self).key() == old(self).key(),
            final(self).store() == old(self).store(),
            final(self).instance() == old(self).instance(),
            r matches Ok(v) ==> exists|i: int|
                {
                    &&& 0 <= i < old(self).store().categories.len()
                    &&& category_plain(old(self).key(), #[trigger] old(self).store().categories[i])
                        == Some(v@)
                    &&& v@.id == Some(category)
                    &&& v@.meta_info.removed_timestamp is None
                },
            (r matches Err(e) && e.kind == ErrorKind::NotFound) <==> !category_live(
                old(self).store().categories,
                category,
            ),
            category_live(old(self).store().categories, category) && category_plain(
                old(self).key(),
                live_category_row(old(self).store().categories, category),
            ) is Some ==> r is Ok,
            r matches Ok(v) ==> category_plain(
                old(self).key(),
                live_category_row(old(self).store().categories, category),
            ) == Some(v@),
            r matches Err(e) ==> e.kind == ErrorKind::NotFound || e.kind == ErrorKind::Decryption
                || e.kind == ErrorKind::Malformed,
    {
        let ghost st0 = self.store();
        let row = self.storage.category(category)?;
        let ghost wi = choose|i: int|
            0 <= i < st0.categories.len() && (#[trigger] st0.categories[i]) == row@ && row@.id == Some(
                category,
            ) && row@.meta_info.removed_timestamp is None;
        proof {
            lemma_live_category_row_is(st0.categories, category, wi);
        }
        let plain = self.decrypt_category(&row)?;
        Ok(plain)
    }

    /// Returns the plan with the given identifier, decrypted.
    pub fn plan(&mut self, plan: Id) -> (r: Result<Plan>)
        requires
            old(self).wf(),
        ensures
            final(self).wf(),
            final(self).key() == old(self).key(),
            final(self).store() == old(self).store(),
            final(self).instance() == old(self).instance(),
            r matches Ok(v) ==> exists|i: int|
                {
                    &&& 0 <= i < old(self).store().plans.len()
                    &&& plan_plain(old(self).key(), #[trigger] old(self).store().plans[i])
                        == Some(v@)
                    &&& v@.id == Some(plan)
                    &&& v@.meta_info.removed_timestamp is None
                },
            (r matches Err(e) && e.kind == ErrorKind::NotFound) <==> !plan_live(
                old(self).store().plans,
                plan,
            ),
            plan_live(old(self).store().plans, plan) && plan_plain(
                old(self).key(),
                live_plan_row(old(self).store().plans, plan),
            ) is Some ==> r is Ok,
            r matches Ok(v) ==> plan_plain(
                old(self).key(),
                live_plan_row(old(self).store().plans, plan),
            ) == Some(v@),
            r matches Err(e) ==> e.kind == ErrorKind::NotFound || e.kind == ErrorKind::Decryption
                || e.kind == ErrorKind::Malformed,
    {
        let ghost st0 = self.store();
        let row = self.storage.plan(plan)?;
        let ghost wi = choose|i: int|
            0 <= i < st0.plans.len() && (#[trigger] st0.plans[i]) == row@ && row@.id == Some(
                plan,
            ) && row@.meta_info.removed_timestamp is None;
        proof {
            lemma_live_plan_row_is(st0.plans, plan, wi);
        }
        let plain = self.decrypt_plan(&row)?;
        Ok(plain)
    }

    /// Returns all live transactions, decrypted in store order.
    pub fn transactions(&mut self) -> (r: Result<Vec<Transaction>>)
        requires
            old(self).wf(),
        ensures
            final(self).wf(),
            final(self).key() == old(self).key(),
            final(self).store() == old(self).store(),
            final(self).instance() == old(self).instance(),
            r matches Ok(v) ==> ({
                let rows = old(self).store().transactions.filter(crate::storage::live_tx());
                v@.len() == rows.len() && forall|i: int|
                    0 <= i < rows.len() ==> tx_plain(old(self).key(), #[trigger] rows[i]) == Some(
                        v@[i]@,
                    )
            }),
            (forall|i: int|
                0 <= i < old(self).store().transactions.filter(crate::storage::live_tx()).len() ==> tx_plain(
                    old(self).key(),
                    #[trigger] old(self).store().transactions.filter(crate::storage::live_tx())[i],
                ) is Some) ==> r is Ok,
            r matches Err(e) ==> e.kind == ErrorKind::Decryption || e.kind == ErrorKind::Malformed,
    {
        let rows = self.storage.transactions()?;
        proof {
            assert forall|i: int| 0 <= i < rows@.len() implies (#[trigger] rows@[i])@
                == old(self).store().transactions.filter(crate::storage::live_tx())[i] by {}
        }
        self.decrypt_transactions(&rows)
    }

    /// Returns all live transactions inside a time window, decrypted in store order.
    pub fn transactions_between(&mut self, start_timestamp: Timestamp, end_timestamp: Timestamp) -> (r: Result<Vec<Transaction>>)
        requires
            old(self).wf(),
        ensures
            final(self).wf(),
            final(self).key() == old(self).key(),
            final(self).store() == old(self).store(),
            final(self).instance() == old(self).instance(),
            r matches Ok(v) ==> ({
                let rows = old(self).store().transactions.filter(crate::storage::tx_between(start_timestamp, end_timestamp));
                v@.len() == rows.len() && forall|i: int|
                    0 <= i < rows.len() ==> tx_plain(old(self).key(), #[trigger] rows[i]) == Some(
                        v@[i]@,
                    )
            }),
            (forall|i: int|
                0 <= i < old(self).store().transactions.filter(crate::storage::tx_between(start_timestamp, end_timestamp)).len() ==> tx_plain(
                    old(self).key(),
                    #[trigger] old(self).store().transactions.filter(crate::storage::tx_between(start_timestamp, end_timestamp))[i],
                ) is Some) ==> r is Ok,
            r matches Err(e) ==> e.kind == ErrorKind::Decryption || e.kind == ErrorKind::Malformed,
    {
        let rows = self.storage.transactions_between(start_timestamp, end_timestamp)?;
        proof {
            assert forall|i: int| 0 <= i < rows@.len() implies (#[trigger] rows@[i])@
                == old(self).store().transactions.filter(crate::storage::tx_between(start_timestamp, end_timestamp))[i] by {}
        }
        self.decrypt_transactions(&rows)
    }

    /// Returns all live transactions of one account, decrypted in store order.
    pub fn transactions_of(&mut self, account: Id) -> (r: Result<Vec<Transaction>>)
        requires
            old(self).wf(),
        ensures
            final(self).wf(),
            final(self).key() == old(self).key(),
            final(self).store() == old(self).store(),
            final(self).instance() == old(self).instance(),
            r matches Ok(v) ==> ({
                let rows = old(self).store().transactions.filter(crate::storage::tx_of(account));
                v@.len() == rows.len() && forall|i: int|
                    0 <= i < rows.len() ==> tx_plain(old(self).key(), #[trigger] rows[i]) == Some(
                        v@[i]@,
                    )
            }),
            (forall|i: int|
                0 <= i < old(self).store().transactions.filter(crate::storage::tx_of(account)).len() ==> tx_plain(
                    old(self).key(),
                    #[trigger] old(self).store().transactions.filter(crate::storage::tx_of(account))[i],
                ) is Some) ==> r is Ok,
            r matches Err(e) ==> e.kind == ErrorKind::Decryption || e.kind == ErrorKind::Malformed,
    {
        let rows = self.storage.transactions_of(account)?;
        proof {
            assert forall|i: int| 0 <= i < rows@.len() implies (#[trigger] rows@[i])@
                == old(self).store().transactions.filter(crate::storage::tx_of(account))[i] by {}
        }
        self.decrypt_transactions(&rows)
    }

    /// Returns all live transactions of one account inside a time window, decrypted in store order.
    pub fn transactions_of_between(&mut self, account: Id, start_timestamp: Timestamp, end_timestamp: Timestamp) -> (r: Result<Vec<Transaction>>)
        requires
            old(self).wf(),
        ensures
            final(self).wf(),
            final(self).key() == old(self).key(),
            final(self).store() == old(self).store(),
            final(self).instance() == old(self).instance(),
            r matches Ok(v) ==> ({
                let rows = old(self).store().transactions.filter(crate::storage::tx_of_between(account, start_timestamp, end_timestamp));
                v@.len() == rows.len() && forall|i: int|
                    0 <= i < rows.len() ==> tx_plain(old(self).key(), #[trigger] rows[i]) == Some(
                        v@[i]@,
                    )
            }),
            (forall|i: int|
                0 <= i < old(self).store().transactions.filter(crate::storage::tx_of_between(account, start_timestamp, end_timestamp)).len() ==> tx_plain(
                    old(self).key(),
                    #[trigger] old(self).store().transactions.filter(crate::storage::tx_of_between(account, start_timestamp, end_timestamp))[i],
                ) is Some) ==> r is Ok,
            r matches Err(e) ==> e.kind == ErrorKind::Decryption || e.kind == ErrorKind::Malformed,
    {
        let rows = self.storage.transactions_of_between(account, start_timestamp, end_timestamp)?;
        proof {
            assert forall|i: int| 0 <= i < rows@.len() implies (#[trigger] rows@[i])@
                == old(self).store().transactions.filter(crate::storage::tx_of_between(account, start_timestamp, end_timestamp))[i] by {}
        }
        self.decrypt_transactions(&rows)
    }

    /// Returns all live transactions with one category, decrypted in store order.
    pub fn transactions_with(&mut self, category: Id) -> (r: Result<Vec<Transaction>>)
        requires
            old(self).wf(),
        ensures
            final(self).wf(),
            final(self).key() == old(self).key(),
            final(self).store() == old(self).store(),
            final(self).instance() == old(self).instance(),
            r matches Ok(v) ==> ({
                let rows = old(self).store().transactions.filter(crate::storage::tx_with(category));
                v@.len() == rows.len() && forall|i: int|
                    0 <= i < rows.len() ==> tx_plain(old(self).key(), #[trigger] rows[i]) == Some(
                        v@[i]@,
                    )
            }),
            (forall|i: int|
                0 <= i < old(self).store().transactions.filter(crate::storage::tx_with(category)).len() ==> tx_plain(
                    old(self).key(),
                    #[trigger] old(self).store().transactions.filter(crate::storage::tx_with(category))[i],
                ) is Some) ==> r is Ok,
            r matches Err(e) ==> e.kind == ErrorKind::Decryption || e.kind == ErrorKind::Malformed,
    {
        let rows = self.storage.transactions_with(category)?;
        proof {
            assert forall|i: int| 0 <= i < rows@.len() implies (#[trigger] rows@[i])@
                == old(self).store().transactions.filter(crate::storage::tx_with(category))[i] by {}
        }
        self.decrypt_transactions(&rows)
    }

    /// Returns all live transactions with one category inside a time window, decrypted in store order.
    pub fn transactions_with_between(&mut self, category: Id, start_timestamp: Timestamp, end_timestamp: Timestamp) -> (r: Result<Vec<Transaction>>)
        requires
            old(self).wf(),
        ensures
            final(self).wf(),
            final(self).key() == old(self).key(),
            final(self).store() == old(self).store(),
            final(self).instance() == old(self).instance(),
            r matches Ok(v) ==> ({
                let rows = old(self).store().transactions.filter(crate::storage::tx_with_between(category, start_timestamp, end_timestamp));
                v@.len() == rows.len() && forall|i: int|
                    0 <= i < rows.len() ==> tx_plain(old(self).key(), #[trigger] rows[i]) == Some(
                        v@[i]@,
                    )
            }),
            (forall|i: int|
                0 <= i < old(self).store().transactions.filter(crate::storage::tx_with_between(category, start_timestamp, end_timestamp)).len() ==> tx_plain(
                    old(self).key(),
                    #[trigger] old(self).store().transactions.filter(crate::storage::tx_with_between(category, start_timestamp, end_timestamp))[i],
                ) is Some) ==> r is Ok,
            r matches Err(e) ==> e.kind == ErrorKind::Decryption || e.kind == ErrorKind::Malformed,
    {
        let rows = self.storage.transactions_with_between(category, start_timestamp, end_timestamp)?;
        proof {
            assert forall|i: int| 0 <= i < rows@.len() implies (#[trigger] rows@[i])@
                == old(self).store().transactions.filter(crate::storage::tx_with_between(category, start_timestamp, end_timestamp))[i] by {}
        }
        self.decrypt_transactions(&rows)
    }

    /// Returns all live accounts, decrypted in store order.
    pub fn accounts(&mut self) -> (r: Result<Vec<Account>>)
        requires
            old(self).wf(),
        ensures
            final(self).wf(),
            final(self).key() == old(self).key(),
            final(self).store() == old(self).store(),
            final(self).instance() == old(self).instance(),
            r matches Ok(v) ==> ({
                let rows = old(self).store().accounts.filter(crate::storage::live_account());
                v@.len() == rows.len() && forall|i: int|
                    0 <= i < rows.len() ==> account_plain(old(self).key(), #[trigger] rows[i]) == Some(
                        v@[i]@,
                    )
            }),
            (forall|i: int|
                0 <= i < old(self).store().accounts.filter(crate::storage::live_account()).len() ==> account_plain(
                    old(self).key(),
                    #[trigger] old(self).store().accounts.filter(crate::storage::live_account())[i],
                ) is Some) ==> r is Ok,
            r matches Err(e) ==> e.kind == ErrorKind::Decryption || e.kind == ErrorKind::Malformed,
    {
        let rows = self.storage.accounts()?;
        proof {
            assert forall|i: int| 0 <= i < rows@.len() implies (#[trigger] rows@[i])@
                == old(self).store().accounts.filter(crate::storage::live_account())[i] by {}
        }
        self.decrypt_accounts(&rows)
    }

    /// Returns all live categories, decrypted in store order.
    pub fn categories(&mut self) -> (r: Result<Vec<Category>>)
        requires
            old(self).wf(),
        ensures
            final(self).wf(),
            final(self).key() == old(self).key(),
            final(self).store() == old(self).store(),
            final(self).instance() == old(self).instance(),
            r matches Ok(v) ==> ({
                let rows = old(self).store().categories.filter(crate::storage::live_category());
                v@.len() == rows.len() && forall|i: int|
                    0 <= i < rows.len() ==> category_plain(old(self).key(), #[trigger] rows[i]) == Some(
                        v@[i]@,
                    )
            }),
            (forall|i: int|
                0 <= i < old(self).store().categories.filter(crate::storage::live_category()).len() ==> category_plain(
                    old(self).key(),
                    #[trigger] old(self).store().categories.filter(crate::storage::live_category())[i],
                ) is Some) ==> r is Ok,
            r matches Err(e) ==> e.kind == ErrorKind::Decryption || e.kind == ErrorKind::Malformed,
    {
        let rows = self.storage.categories()?;
        proof {
            assert forall|i: int| 0 <= i < rows@.len() implies (#[trigger] rows@[i])@
                == old(self).store().categories.filter(crate::storage::live_category())[i] by {}
        }
        self.decrypt_categories(&rows)
    }

    /// Returns all live categories of one type, decrypted in store order.
    pub fn categories_of(&mut self, category_type: CategoryType) -> (r: Result<Vec<Category>>)
        requires
            old(self).wf(),
        ensures
            final(self).wf(),
            final(self).key() == old(self).key(),
            final(self).store() == old(self).store(),
            final(self).instance() == old(self).instance(),
            r matches Ok(v) ==> ({
                let rows = old(self).store().categories.filter(crate::storage::category_of(category_type));
                v@.len() == rows.len() && forall|i: int|
                    0 <= i < rows.len() ==> category_plain(old(self).key(), #[trigger] rows[i]) == Some(
                        v@[i]@,
                    )
            }),
            (forall|i: int|
                0 <= i < old(self).store().categories.filter(crate::storage::category_of(category_type)).len() ==> category_plain(
                    old(self).key(),
                    #[trigger] old(self).store().categories.filter(crate::storage::category_of(category_type))[i],
                ) is Some) ==> r is Ok,
            r matches Err(e) ==> e.kind == ErrorKind::Decryption || e.kind == ErrorKind::Malformed,
    {
        let rows = self.storage.categories_of(category_type)?;
        proof {
            assert forall|i: int| 0 <= i < rows@.len() implies (#[trigger] rows@[i])@
                == old(self).store().categories.filter(crate::storage::category_of(category_type))[i] by {}
        }
        self.decrypt_categories(&rows)
    }

    /// Returns all live plans, decrypted in store order.
    pub fn plans(&mut self) -> (r: Result<Vec<Plan>>)
        requires
            old(self).wf(),
        ensures
            final(self).wf(),
            final(self).key() == old(self).key(),
            final(self).store() == old(self).store(),
            final(self).instance() == old(self).instance(),
            r matches Ok(v) ==> ({
                let rows = old(self).store().plans.filter(crate::storage::live_plan());
                v@.len() == rows.len() && forall|i: int|
                    0 <= i < rows.len() ==> plan_plain(old(self).key(), #[trigger] rows[i]) == Some(
                        v@[i]@,
                    )
            }),
            (forall|i: int|
                0 <= i < old(self).store().plans.filter(crate::storage::live_plan()).len() ==> plan_plain(
                    old(self).key(),
                    #[trigger] old(self).store().plans.filter(crate::storage::live_plan())[i],
                ) is Some) ==> r is Ok,
            r matches Err(e) ==> e.kind == ErrorKind::Decryption || e.kind == ErrorKind::Malformed,
    {
        let rows = self.storage.plans()?;
        proof {
            assert forall|i: int| 0 <= i < rows@.len() implies (#[trigger] rows@[i])@
                == old(self).store().plans.filter(crate::storage::live_plan())[i] by {}
        }
        self.decrypt_plans(&rows)
    }

    /// Returns all live plans of one category, decrypted in store order.
    pub fn plans_for(&mut self, category: Id) -> (r: Result<Vec<Plan>>)
        requires
            old(self).wf(),
        ensures
            final(self).wf(),
            final(self).key() == old(self).key(),
            final(self).store() == old(self).store(),
            final(self).instance() == old(self).instance(),
            r matches Ok(v) ==> ({
                let rows = old(self).store().plans.filter(crate::storage::plan_for(category));
                v@.len() == rows.len() && forall|i: int|
                    0 <= i < rows.len() ==> plan_plain(old(self).key(), #[trigger] rows[i]) == Some(
                        v@[i]@,
                    )
            }),
            (forall|i: int|
                0 <= i < old(self).store().plans.filter(crate::storage::plan_for(category)).len() ==> plan_plain(
                    old(self).key(),
                    #[trigger] old(self).store().plans.filter(crate::storage::plan_for(category))[i],
                ) is Some) ==> r is Ok,
            r matches Err(e) ==> e.kind == ErrorKind::Decryption || e.kind == ErrorKind::Malformed,
    {
        let rows = self.storage.plans_for(category)?;
        proof {
            assert forall|i: int| 0 <= i < rows@.len() implies (#[trigger] rows@[i])@
                == old(self).store().plans.filter(crate::storage::plan_for(category))[i] by {}
        }
        self.decrypt_plans(&rows)
    }

    /// Returns all transaction rows created after a point in time, decrypted in store order.
    pub fn transactions_added_since(&mut self, base: Timestamp) -> (r: Result<Vec<Transaction>>)
        requires
            old(self).wf(),
        ensures
            final(self).wf(),
            final(self).key() == old(self).key(),
            final(self).store() == old(self).store(),
            final(self).instance() == old(self).instance(),
            r matches Ok(v) ==> ({
                let rows = old(self).store().transactions.filter(crate::storage::tx_added_since(base));
                v@.len() == rows.len() && forall|i: int|
                    0 <= i < rows.len() ==> tx_plain(old(self).key(), #[trigger] rows[i]) == Some(
                        v@[i]@,
                    )
            }),
            (forall|i: int|
                0 <= i < old(self).store().transactions.filter(crate::storage::tx_added_since(base)).len() ==> tx_plain(
                    old(self).key(),
                    #[trigger] old(self).store().transactions.filter(crate::storage::tx_added_since(base))[i],
                ) is Some) ==> r is Ok,
            r matches Err(e) ==> e.kind == ErrorKind::Decryption || e.kind == ErrorKind::Malformed,
    {
        let rows = self.storage.transactions_added_since(base)?;
        proof {
            assert forall|i: int| 0 <= i < rows@.len() implies (#[trigger] rows@[i])@
                == old(self).store().transactions.filter(crate::storage::tx_added_since(base))[i] by {}
        }
        self.decrypt_transactions(&rows)
    }

    /// Returns all transaction rows changed after a point in time, decrypted in store order.
    pub fn transactions_changed_since(&mut self, base: Timestamp) -> (r: Result<Vec<Transaction>>)
        requires
            old(self).wf(),
        ensures
            final(self).wf(),
            final(self).key() == old(self).key(),
            final(self).store() == old(self).store(),
            final(self).instance() == old(self).instance(),
            r matches Ok(v) ==> ({
                let rows = old(self).store().transactions.filter(crate::storage::tx_changed_since(base));
                v@.len() == rows.len() && forall|i: int|
                    0 <= i < rows.len() ==> tx_plain(old(self).key(), #[trigger] rows[i]) == Some(
                        v@[i]@,
                    )
            }),
            (forall|i: int|
                0 <= i < old(self).store().transactions.filter(crate::storage::tx_changed_since(base)).len() ==> tx_plain(
                    old(self).key(),
                    #[trigger] old(self).store().transactions.filter(crate::storage::tx_changed_since(base))[i],
                ) is Some) ==> r is Ok,
            r matches Err(e) ==> e.kind == ErrorKind::Decryption || e.kind == ErrorKind::Malformed,
    {
        let rows = self.storage.transactions_changed_since(base)?;
        proof {
            assert forall|i: int| 0 <= i < rows@.len() implies (#[trigger] rows@[i])@
                == old(self).store().transactions.filter(crate::storage::tx_changed_since(base))[i] by {}
        }
        self.decrypt_transactions(&rows)
    }

    /// Returns all transaction rows removed after a point in time, decrypted in store order.
    pub fn transactions_removed_since(&mut self, base: Timestamp) -> (r: Result<Vec<Transaction>>)
        requires
            old(self).wf(),
        ensures
            final(self).wf(),
            final(self).key() == old(self).key(),
            final(self).store() == old(self).store(),
            final(self).instance() == old(self).instance(),
            r matches Ok(v) ==> ({
                let rows = old(self).store().transactions.filter(crate::storage::tx_removed_since(base));
                v@.len() == rows.len() && forall|i: int|
                    0 <= i < rows.len() ==> tx_plain(old(self).key(), #[trigger] rows[i]) == Some(
                        v@[i]@,
                    )
            }),
            (forall|i: int|
                0 <= i < old(self).store().transactions.filter(crate::storage::tx_removed_since(base)).len() ==> tx_plain(
                    old(self).key(),
                    #[trigger] old(self).store().transactions.filter(crate::storage::tx_removed_since(base))[i],
                ) is Some) ==> r is Ok,
            r matches Err(e) ==> e.kind == ErrorKind::Decryption || e.kind == ErrorKind::Malformed,
    {
        let rows = self.storage.transactions_removed_since(base)?;
        proof {
            assert forall|i: int| 0 <= i < rows@.len() implies (#[trigger] rows@[i])@
                == old(self).store().transactions.filter(crate::storage::tx_removed_since(base))[i] by {}
        }
        self.decrypt_transactions(&rows)
    }

    /// Returns all account rows created after a point in time, decrypted in store order.
    pub fn accounts_added_since(&mut self, base: Timestamp) -> (r: Result<Vec<Account>>)
        requires
            old(self).wf(),
        ensures
            final(self).wf(),
            final(self).key() == old(self).key(),
            final(self).store() == old(self).store(),
            final(self).instance() == old(self).instance(),
            r matches Ok(v) ==> ({
                let rows = old(self).store().accounts.filter(crate::storage::account_added_since(base));
                v@.len() == rows.len() && forall|i: int|
                    0 <= i < rows.len() ==> account_plain(old(self).key(), #[trigger] rows[i]) == Some(
                        v@[i]@,
                    )
            }),
            (forall|i: int|
                0 <= i < old(self).store().accounts.filter(crate::storage::account_added_since(base)).len() ==> account_plain(
                    old(self).key(),
                    #[trigger] old(self).store().accounts.filter(crate::storage::account_added_since(base))[i],
                ) is Some) ==> r is Ok,
            r matches Err(e) ==> e.kind == ErrorKind::Decryption || e.kind == ErrorKind::Malformed,
    {
        let rows = self.storage.accounts_added_since(base)?;
        proof {
            assert forall|i: int| 0 <= i < rows@.len() implies (#[trigger] rows@[i])@
                == old(self).store().accounts.filter(crate::storage::account_added_since(base))[i] by {}
        }
        self.decrypt_accounts(&rows)
    }

    /// Returns all account rows changed after a point in time, decrypted in store order.
    pub fn accounts_changed_since(&mut self, base: Timestamp) -> (r: Result<Vec<Account>>)
        requires
            old(self).wf(),
        ensures
            final(self).wf(),
            final(self).key() == old(self).key(),
            final(self).store() == old(self).store(),
            final(self).instance() == old(self).instance(),
            r matches Ok(v) ==> ({
                let rows = old(self).store().accounts.filter(crate::storage::account_changed_since(base));
                v@.len() == rows.len() && forall|i: int|
                    0 <= i < rows.len() ==> account_plain(old(self).key(), #[trigger] rows[i]) == Some(
                        v@[i]@,
                    )
            }),
            (forall|i: int|
                0 <= i < old(self).store().accounts.filter(crate::storage::account_changed_since(base)).len() ==> account_plain(
                    old(self).key(),
                    #[trigger] old(self).store().accounts.filter(crate::storage::account_changed_since(base))[i],
                ) is Some) ==> r is Ok,
            r matches Err(e) ==> e.kind == ErrorKind::Decryption || e.kind == ErrorKind::Malformed,
    {
        let rows = self.storage.accounts_changed_since(base)?;
        proof {
            assert forall|i: int| 0 <= i < rows@.len() implies (#[trigger] rows@[i])@
                == old(self).store().accounts.filter(crate::storage::account_changed_since(base))[i] by {}
        }
        self.decrypt_accounts(&rows)
    }

    /// Returns all account rows removed after a point in time, decrypted in store order.
    pub fn accounts_removed_since(&mut self, base: Timestamp) -> (r: Result<Vec<Account>>)
        requires
            old(self).wf(),
        ensures
            final(self).wf(),
            final(self).key() == old(self).key(),
            final(self).store() == old(self).store(),
            final(self).instance() == old(self).instance(),
            r matches Ok(v) ==> ({
                let rows = old(self).store().accounts.filter(crate::storage::account_removed_since(base));
                v@.len() == rows.len() && forall|i: int|
                    0 <= i < rows.len() ==> account_plain(old(self).key(), #[trigger] rows[i]) == Some(
                        v@[i]@,
                    )
            }),
            (forall|i: int|
                0 <= i < old(self).store().accounts.filter(crate::storage::account_removed_since(base)).len() ==> account_plain(
                    old(self).key(),
                    #[trigger] old(self).store().accounts.filter(crate::storage::account_removed_since(base))[i],
                ) is Some) ==> r is Ok,
            r matches Err(e) ==> e.kind == ErrorKind::Decryption || e.kind == ErrorKind::Malformed,
    {
        let rows = self.storage.accounts_removed_since(base)?;
        proof {
            assert forall|i: int| 0 <= i < rows@.len() implies (#[trigger] rows@[i])@
                == old(self).store().accounts.filter(crate::storage::account_removed_since(base))[i] by {}
        }
        self.decrypt_accounts(&rows)
    }

    /// Returns all category rows created after a point in time, decrypted in store order.
    pub fn categories_added_since(&mut self, base: Timestamp) -> (r: Result<Vec<Category>>)
        requires
            old(self).wf(),
        ensures
            final(self).wf(),
            final(self).key() == old(self).key(),
            final(self).store() == old(self).store(),
            final(self).instance() == old(self).instance(),
            r matches Ok(v) ==> ({
                let rows = old(self).store().categories.filter(crate::storage::category_added_since(base));
                v@.len() == rows.len() && forall|i: int|
                    0 <= i < rows.len() ==> category_plain(old(self).key(), #[trigger] rows[i]) == Some(
                        v@[i]@,
                    )
            }),
            (forall|i: int|
                0 <= i < old(self).store().categories.filter(crate::storage::category_added_since(base)).len() ==> category_plain(
                    old(self).key(),
                    #[trigger] old(self).store().categories.filter(crate::storage::category_added_since(base))[i],
                ) is Some) ==> r is Ok,
            r matches Err(e) ==> e.kind == ErrorKind::Decryption || e.kind == ErrorKind::Malformed,
    {
        let rows = self.storage.categories_added_since(base)?;
        proof {
            assert forall|i: int| 0 <= i < rows@.len() implies (#[trigger] rows@[i])@
                == old(self).store().categories.filter(crate::storage::category_added_since(base))[i] by {}
        }
        self.decrypt_categories(&rows)
    }

    /// Returns all category rows changed after a point in time, decrypted in store order.
    pub fn categories_changed_since(&mut self, base: Timestamp) -> (r: Result<Vec<Category>>)
        requires
            old(self).wf(),
        ensures
            final(self).wf(),
            final(self).key() == old(self).key(),
            final(self).store() == old(self).store(),
            final(self).instance() == old(self).instance(),
            r matches Ok(v) ==> ({
                let rows = old(self).store().categories.filter(crate::storage::category_changed_since(base));
                v@.len() == rows.len() && forall|i: int|
                    0 <= i < rows.len() ==> category_plain(old(self).key(), #[trigger] rows[i]) == Some(
                        v@[i]@,
                    )
            }),
            (forall|i: int|
                0 <= i < old(self).store().categories.filter(crate::storage::category_changed_since(base)).len() ==> category_plain(
                    old(self).key(),
                    #[trigger] old(self).store().categories.filter(crate::storage::category_changed_since(base))[i],
                ) is Some) ==> r is Ok,
            r matches Err(e) ==> e.kind == ErrorKind::Decryption || e.kind == ErrorKind::Malformed,
    {
        let rows = self.storage.categories_changed_since(base)?;
        proof {
            assert forall|i: int| 0 <= i < rows@.len() implies (#[trigger] rows@[i])@
                == old(self).store().categories.filter(crate::storage::category_changed_since(base))[i] by {}
        }
        self.decrypt_categories(&rows)
    }

    /// Returns all category rows removed after a point in time, decrypted in store order.
    pub fn categories_removed_since(&mut self, base: Timestamp) -> (r: Result<Vec<Category>>)
        requires
            old(self).wf(),
        ensures
            final(self).wf(),
            final(self).key() == old(self).key(),
            final(self).store() == old(self).store(),
            final(self).instance() == old(self).instance(),
            r matches Ok(v) ==> ({
                let rows = old(self).store().categories.filter(crate::storage::category_removed_since(base));
                v@.len() == rows.len() && forall|i: int|
                    0 <= i < rows.len() ==> category_plain(old(self).key(), #[trigger] rows[i]) == Some(
                        v@[i]@,
                    )
            }),
            (forall|i: int|
                0 <= i < old(self).store().categories.filter(crate::storage::category_removed_since(base)).len() ==> category_plain(
                    old(self).key(),
                    #[trigger] old(self).store().categories.filter(crate::storage::category_removed_since(base))[i],
                ) is Some) ==> r is Ok,
            r matches Err(e) ==> e.kind == ErrorKind::Decryption || e.kind == ErrorKind::Malformed,
    {
        let rows = self.storage.categories_removed_since(base)?;
        proof {
            assert forall|i: int| 0 <= i < rows@.len() implies (#[trigger] rows@[i])@
                == old(self).store().categories.filter(crate::storage::category_removed_since(base))[i] by {}
        }
        self.decrypt_categories(&rows)
    }

    /// Returns all plan rows created after a point in time, decrypted in store order.
    pub fn plans_added_since(&mut self, base: Timestamp) -> (r: Result<Vec<Plan>>)
        requires
            old(self).wf(),
        ensures
            final(self).wf(),
            final(self).key() == old(self).key(),
            final(self).store() == old(self).store(),
            final(self).instance() == old(self).instance(),
            r matches Ok(v) ==> ({
                let rows = old(self).store().plans.filter(crate::storage::plan_added_since(base));
                v@.len() == rows.len() && forall|i: int|
                    0 <= i < rows.len() ==> plan_plain(old(self).key(), #[trigger] rows[i]) == Some(
                        v@[i]@,
                    )
            }),
            (forall|i: int|
                0 <= i < old(self).store().plans.filter(crate::storage::plan_added_since(base)).len() ==> plan_plain(
                    old(self).key(),
                    #[trigger] old(self).store().plans.filter(crate::storage::plan_added_since(base))[i],
                ) is Some) ==> r is Ok,
            r matches Err(e) ==> e.kind == ErrorKind::Decryption || e.kind == ErrorKind::Malformed,
    {
        let rows = self.storage.plans_added_since(base)?;
        proof {
            assert forall|i: int| 0 <= i < rows@.len() implies (#[trigger] rows@[i])@
                == old(self).store().plans.filter(crate::storage::plan_added_since(base))[i] by {}
        }
        self.decrypt_plans(&rows)
    }

    /// Returns all plan rows changed after a point in time, decrypted in store order.
    pub fn plans_changed_since(&mut self, base: Timestamp) -> (r: Result<Vec<Plan>>)
        requires
            old(self).wf(),
        ensures
            final(self).wf(),
            final(self).key() == old(self).key(),
            final(self).store() == old(self).store(),
            final(self).instance() == old(self).instance(),
            r matches Ok(v) ==> ({
                let rows = old(self).store().plans.filter(crate::storage::plan_changed_since(base));
                v@.len() == rows.len() && forall|i: int|
                    0 <= i < rows.len() ==> plan_plain(old(self).key(), #[trigger] rows[i]) == Some(
                        v@[i]@,
                    )
            }),
            (forall|i: int|
                0 <= i < old(self).store().plans.filter(crate::storage::plan_changed_since(base)).len() ==> plan_plain(
                    old(self).key(),
                    #[trigger] old(self).store().plans.filter(crate::storage::plan_changed_since(base))[i],
                ) is Some) ==> r is Ok,
            r matches Err(e) ==> e.kind == ErrorKind::Decryption || e.kind == ErrorKind::Malformed,
    {
        let rows = self.storage.plans_changed_since(base)?;
        proof {
            assert forall|i: int| 0 <= i < rows@.len() implies (#[trigger] rows@[i])@
                == old(self).store().plans.filter(crate::storage::plan_changed_since(base))[i] by {}
        }
        self.decrypt_plans(&rows)
    }

    /// Returns all plan rows removed after a point in time, decrypted in store order.
    pub fn plans_removed_since(&mut self, base: Timestamp) -> (r: Result<Vec<Plan>>)
        requires
            old(self).wf(),
        ensures
            final(self).wf(),
            final(self).key() == old(self).key(),
            final(self).store() == old(self).store(),
            final(self).instance() == old(self).instance(),
            r matches Ok(v) ==> ({
                let rows = old(self).store().plans.filter(crate::storage::plan_removed_since(base));
                v@.len() == rows.len() && forall|i: int|
                    0 <= i < rows.len() ==> plan_plain(old(self).key(), #[trigger] rows[i]) == Some(
                        v@[i]@,
                    )
            }),
            (forall|i: int|
                0 <= i < old(self).store().plans.filter(crate::storage::plan_removed_since(base)).len() ==> plan_plain(
                    old(self).key(),
                    #[trigger] old(self).store().plans.filter(crate::storage::plan_removed_since(base))[i],
                ) is Some) ==> r is Ok,
            r matches Err(e) ==> e.kind == ErrorKind::Decryption || e.kind == ErrorKind::Malformed,
    {
        let rows = self.storage.plans_removed_since(base)?;
        proof {
            assert forall|i: int| 0 <= i < rows@.len() implies (#[trigger] rows@[i])@
                == old(self).store().plans.filter(crate::storage::plan_removed_since(base))[i] by {}
        }
        self.decrypt_plans(&rows)
    }


    /// Inserts the two predefined transfer categories under their
    /// reserved identifiers, with this instance as origin and the epoch
    /// as creation time, so that no peer ever merges them.
    pub fn initialize(&mut self) -> (r: Result<()>)
        requires
            old(self).wf(),
        ensures
            final(self).wf(),
            final(self).key() == old(self).key(),
            final(self).instance() == old(self).instance(),
            final(self).store().transactions == old(self).store().transactions,
            final(self).store().accounts == old(self).store().accounts,
            final(self).store().plans == old(self).store().plans,
            r is Ok ==> exists|k1: int, r1: EncryptedCategoryV, k2: int, r2: EncryptedCategoryV|
                {
                    &&& 0 <= k1 <= old(self).store().categories.len()
                    &&& 0 <= k2 <= old(self).store().categories.len() + 1
                    &&& final(self).store().categories == #[trigger] old(
                        self,
                    ).store().categories.insert(k1, r1).insert(k2, r2)
                    &&& r1.id == Some(Id::transfer_income_spec())
                    &&& r1.category_type == CategoryType::Income
                    &&& r1.meta_info == (MetaInfo {
                        origin: old(self).instance(),
                        added_timestamp: Some(JANUARY_1970),
                        changed_timestamp: None,
                        removed_timestamp: None,
                    })
                    &&& (category_plain(final(self).key(), r1) matches Some(cp) && cp.name
                        == "Transfer (income)"@)
                    &&& r2.id == Some(Id::transfer_outcome_spec())
                    &&& r2.category_type == CategoryType::Outcome
                    &&& r2.meta_info == (MetaInfo {
                        origin: old(self).instance(),
                        added_timestamp: Some(JANUARY_1970),
                        changed_timestamp: None,
                        removed_timestamp: None,
                    })
                    &&& (category_plain(final(self).key(), r2) matches Some(cp) && cp.name
                        == "Transfer (outcome)"@)
                },
            r matches Err(e) ==> e.kind == ErrorKind::Encryption || e.kind
                == ErrorKind::ConsistencyViolation,
            (r matches Err(e) && e.kind == ErrorKind::ConsistencyViolation)
                ==> crate::storage::category_id_taken(
                old(self).store().categories,
                Id::transfer_income_spec(),
            ) || crate::storage::category_id_taken(
                old(self).store().categories,
                Id::transfer_outcome_spec(),
            ),
            r is Err ==> final(self).store().categories == old(self).store().categories || (
            exists|k1: int, r1: EncryptedCategoryV|
                {
                    &&& 0 <= k1 <= old(self).store().categories.len()
                    &&& final(self).store().categories == #[trigger] old(
                        self,
                    ).store().categories.insert(k1, r1)
                    &&& r1.id == Some(Id::transfer_income_spec())
                    &&& r1.category_type == CategoryType::Income
                }),
    {
        let ghost st0 = self.store();
        let origin = self.instance_id();
        let meta = MetaInfo::new(origin, Some(JANUARY_1970), None, None);
        self.add_category(
            &Category {
                id: Some(Id::transfer_income()),
                name: "Transfer (income)".to_owned(),
                category_type: CategoryType::Income,
                meta_info: meta,
            },
        )?;
        let ghost st1 = self.store();
        let ghost (k1, r1) = choose|k1: int, r1: EncryptedCategoryV|
            {
                &&& 0 <= k1 <= st0.categories.len()
                &&& st1.categories == #[trigger] st0.categories.insert(k1, r1)
                &&& r1.id == Some(Id::transfer_income_spec())
                &&& r1.category_type == CategoryType::Income
                &&& r1.meta_info.origin == old(self).instance()
                &&& r1.meta_info.added_timestamp == Some(JANUARY_1970)
                &&& r1.meta_info.changed_timestamp is None
                &&& r1.meta_info.removed_timestamp is None
                &&& (category_plain(self.key(), r1) matches Some(cp) && cp.name
                    == "Transfer (income)"@)
            };
        let step = self.add_category(
            &Category {
                id: Some(Id::transfer_outcome()),
                name: "Transfer (outcome)".to_owned(),
                category_type: CategoryType::Outcome,
                meta_info: meta,
            },
        );
        proof {
            if step is Err {
                let e = step->Err_0;
                if e.kind == ErrorKind::ConsistencyViolation {
                    assert(crate::storage::category_id_taken(
                        st1.categories,
                        Id::transfer_outcome_spec(),
                    ));
                    let w = choose|w: int|
                        0 <= w < st1.categories.len() && (#[trigger] st1.categories[w]).id
                            == Some(Id::transfer_outcome_spec());
                    st0.categories.insert_ensures(k1, r1);
                    if w == k1 {
                        assert(r1.id == Some(Id::transfer_income_spec()));
                    } else if w < k1 {
                        assert(st1.categories[w] == st0.categories[w]);
                    } else {
                        assert(st1.categories[w] == st0.categories[w - 1]);
                    }
                    assert(crate::storage::category_id_taken(
                        st0.categories,
                        Id::transfer_outcome_spec(),
                    ));
                }
            }
        }
        step?;
        proof {
            let st2 = self.store();
            let (k2, r2) = choose|k2: int, r2: EncryptedCategoryV|
                {
                    &&& 0 <= k2 <= st1.categories.len()
                    &&& st2.categories == #[trigger] st1.categories.insert(k2, r2)
                    &&& r2.id == Some(Id::transfer_outcome_spec())
                    &&& r2.category_type == CategoryType::Outcome
                    &&& r2.meta_info.origin == old(self).instance()
                    &&& r2.meta_info.added_timestamp == Some(JANUARY_1970)
                    &&& r2.meta_info.changed_timestamp is None
                    &&& r2.meta_info.removed_timestamp is None
                    &&& (category_plain(self.key(), r2) matches Some(cp) && cp.name
                        == "Transfer (outcome)"@)
                };
            assert(r1.meta_info == (MetaInfo {
                origin: old(self).instance(),
                added_timestamp: Some(JANUARY_1970),
                changed_timestamp: None,
                removed_timestamp: None,
            }));
            assert(r2.meta_info == (MetaInfo {
                origin: old(self).instance(),
                added_timestamp: Some(JANUARY_1970),
                changed_timestamp: None,
                removed_timestamp: None,
            }));
            assert(st2.categories == st0.categories.insert(k1, r1).insert(k2, r2));
        }
        Ok(())
    }

    /// Records a transfer between two accounts as two opposite
    /// transactions at the same posting time: the incoming leg on
    /// `to_account` with the positive amount and the predefined income
    /// transfer category, the outgoing leg on `from_account` with the
    /// negated amount and the predefined outcome transfer category.
    ///
    /// Law: a transfer preserves the balance equation of every live
    /// account.
    pub fn add_transfer(
        &mut self,
        amount: i64,
        from_account: Id,
        to_account: Id,
        timestamp: Timestamp,
    ) -> (r: Result<()>)
        requires
            old(self).wf(),
        ensures
            final(self).wf(),
            final(self).key() == old(self).key(),
            final(self).instance() == old(self).instance(),
            final(self).store().categories == old(self).store().categories,
            final(self).store().plans == old(self).store().plans,
            r is Ok ==> final(self).store().transactions.len() == old(
                self,
            ).store().transactions.len() + 2,
            amount == i64::MIN ==> (r matches Err(e) && e.kind == ErrorKind::ArithmeticOverflow)
                && final(self).store() == old(self).store(),
            r is Ok ==> exists|k1: int, row1: EncryptedTransactionV, k2: int, row2: EncryptedTransactionV|
                {
                    &&& 0 <= k1 <= old(self).store().transactions.len()
                    &&& 0 <= k2 <= old(self).store().transactions.len() + 1
                    &&& final(self).store().transactions == #[trigger] old(
                        self,
                    ).store().transactions.insert(k1, row1).insert(k2, row2)
                    &&& tx_plain(final(self).key(), row1) == Some(
                        transfer_leg_plain(
                            row1.id,
                            old(self).instance(),
                            timestamp,
                            to_account,
                            Id::transfer_income_spec(),
                            abs_amount(amount) as i64,
                            "--> Transfer (income)"@,
                        ),
                    )
                    &&& tx_plain(final(self).key(), row2) == Some(
                        transfer_leg_plain(
                            row2.id,
                            old(self).instance(),
                            timestamp,
                            from_account,
                            Id::transfer_outcome_spec(),
                            (-abs_amount(amount)) as i64,
                            "Transfer (outcome) -->"@,
                        ),
                    )
                },
            balances_consistent(old(self).key(), old(self).store()) && r is Ok
                ==> balances_consistent(final(self).key(), final(self).store()),
    {
        let ghost st0 = self.store();
        let magnitude: i64 = if amount == i64::MIN {
            return Err(Error::from_message(ErrorKind::ArithmeticOverflow));
        } else if amount < 0 {
            -amount
        } else {
            amount
        };
        let origin = self.instance_id();
        let meta = MetaInfo::new(origin, Some(timestamp), None, None);
        self.add_transaction(
            &Transaction {
                id: None,
                timestamp,
                description: "--> Transfer (income)".to_owned(),
                account_id: to_account,
                category_id: Id::transfer_income(),
                amount: magnitude,
                meta_info: meta,
            },
        )?;
        let ghost st1 = self.store();
        let ghost (k1, row1) = choose|k1: int, row1: EncryptedTransactionV|
            {
                &&& 0 <= k1 <= st0.transactions.len()
                &&& st1.transactions == #[trigger] st0.transactions.insert(k1, row1)
                &&& row1.id is Some
                &&& !crate::storage::tx_id_taken(st0.transactions, row1.id->Some_0)
                &&& tx_plain(self.key(), row1) is Some
                &&& tx_plain(self.key(), row1)->Some_0.description == "--> Transfer (income)"@
                &&& tx_plain(self.key(), row1)->Some_0.account_id == to_account
                &&& tx_plain(self.key(), row1)->Some_0.category_id == Id::transfer_income_spec()
                &&& tx_plain(self.key(), row1)->Some_0.amount == magnitude
                &&& tx_plain(self.key(), row1)->Some_0.timestamp == timestamp
                &&& tx_plain(self.key(), row1)->Some_0.meta_info == (MetaInfo {
                    origin: old(self).instance(),
                    added_timestamp: Some(timestamp),
                    changed_timestamp: None,
                    removed_timestamp: None,
                })
                &&& tx_plain(self.key(), row1)->Some_0.id == row1.id
            };
        self.add_transaction(
            &Transaction {
                id: None,
                timestamp,
                description: "Transfer (outcome) -->".to_owned(),
                account_id: from_account,
                category_id: Id::transfer_outcome(),
                amount: -magnitude,
                meta_info: meta,
            },
        )?;
        proof {
            let st2 = self.store();
            let key = self.key();
            let (k2, row2) = choose|k2: int, row2: EncryptedTransactionV|
                {
                    &&& 0 <= k2 <= st1.transactions.len()
                    &&& st2.transactions == #[trigger] st1.transactions.insert(k2, row2)
                    &&& row2.id is Some
                    &&& tx_plain(key, row2) == Some(
                        tx_plain_inserted(
                            TransactionV {
                                id: None,
                                timestamp,
                                description: "Transfer (outcome) -->"@,
                                account_id: from_account,
                                category_id: Id::transfer_outcome_spec(),
                                amount: (-magnitude) as i64,
                                meta_info: MetaInfo {
                                    origin: old(self).instance(),
                                    added_timestamp: Some(timestamp),
                                    changed_timestamp: None,
                                    removed_timestamp: None,
                                },
                            },
                            row2.id,
                        ),
                    )
                };
            assert(tx_plain(key, row1) == Some(
                transfer_leg_plain(
                    row1.id,
                    old(self).instance(),
                    timestamp,
                    to_account,
                    Id::transfer_income_spec(),
                    abs_amount(amount) as i64,
                    "--> Transfer (income)"@,
                ),
            ));
            assert(tx_plain(key, row2) == Some(
                transfer_leg_plain(
                    row2.id,
                    old(self).instance(),
                    timestamp,
                    from_account,
                    Id::transfer_outcome_spec(),
                    (-abs_amount(amount)) as i64,
                    "Transfer (outcome) -->"@,
                ),
            ));
            assert(st2.transactions == st0.transactions.insert(k1, row1).insert(k2, row2));
        }
        Ok(())
    }


    /// The well-formedness of the manager exposes the row discipline of
    /// its store: identifiers and creation timestamps present,
    /// identifiers pairwise distinct.
    pub proof fn lemma_store_rows_ok(self)
        requires
            self.wf(),
        ensures
            crate::storage::tx_rows_ok(self.store().transactions),
            crate::storage::account_rows_ok(self.store().accounts),
            crate::storage::category_rows_ok(self.store().categories),
            crate::storage::plan_rows_ok(self.store().plans),
    {
    }

}

} // verus!
