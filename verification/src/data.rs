use vstd::prelude::*;
use vstd::bytes::{spec_u64_from_le_bytes, spec_u64_to_le_bytes, u64_from_le_bytes, u64_to_le_bytes};
use vstd::bytes::lemma_auto_spec_u64_to_from_le_bytes;
use crate::datetime::Timestamp;

verus! {

/// 16-byte identifier of a row or of an instance, held as two 64-bit
/// halves. The byte form is the little-endian bytes of `a` followed by
/// the little-endian bytes of `b`.
#[derive(Clone, Copy, PartialEq, Eq, Structural, Debug, Hash)]
pub struct Id {
    /// First eight bytes, little-endian.
    pub a: u64,
    /// Last eight bytes, little-endian.
    pub b: u64,
}

/// The byte form of an identifier: 16 bytes.
pub open spec fn id_bytes(id: Id) -> Seq<u8> {
    spec_u64_to_le_bytes(id.a) + spec_u64_to_le_bytes(id.b)
}

/// The identifier denoted by 16 bytes.
pub open spec fn id_from_bytes_spec(s: Seq<u8>) -> Id {
    Id { a: spec_u64_from_le_bytes(s.take(8)), b: spec_u64_from_le_bytes(s.skip(8)) }
}

/// Byte form and identifier form are mutually inverse.
pub proof fn lemma_id_bytes_round_trip()
    ensures
        forall|id: Id| #![trigger id_bytes(id)] {
            &&& id_bytes(id).len() == 16
            &&& id_from_bytes_spec(id_bytes(id)) == id
        },
        forall|s: Seq<u8>|
            s.len() == 16 ==> id_bytes(#[trigger] id_from_bytes_spec(s)) == s,
{
    lemma_auto_spec_u64_to_from_le_bytes();
    assert forall|id: Id| #![trigger id_bytes(id)] {
        &&& id_bytes(id).len() == 16
        &&& id_from_bytes_spec(id_bytes(id)) == id
    } by {
        assert(id_bytes(id).take(8) =~= spec_u64_to_le_bytes(id.a));
        assert(id_bytes(id).skip(8) =~= spec_u64_to_le_bytes(id.b));
    }
    assert forall|s: Seq<u8>| s.len() == 16 implies id_bytes(
        #[trigger] id_from_bytes_spec(s),
    ) == s by {
        assert(s.take(8).len() == 8);
        assert(s.skip(8).len() == 8);
        assert(id_bytes(id_from_bytes_spec(s)) =~= s);
    }
}

impl Id {
    /// Identifier of the predefined income transfer category: all zero bytes.
    pub open spec fn transfer_income_spec() -> Id {
        Id { a: 0, b: 0 }
    }

    /// Identifier of the predefined outcome transfer category: all 0xFF bytes.
    pub open spec fn transfer_outcome_spec() -> Id {
        Id { a: 0xFFFF_FFFF_FFFF_FFFFu64, b: 0xFFFF_FFFF_FFFF_FFFFu64 }
    }

    /// Whether this identifier is one of the two reserved category ids.
    pub open spec fn is_predefined_spec(self) -> bool {
        self == Self::transfer_income_spec() || self == Self::transfer_outcome_spec()
    }

    /// Identifier of the predefined income transfer category.
    pub fn transfer_income() -> (r: Id)
        ensures
            r == Self::transfer_income_spec(),
    {
        Id { a: 0, b: 0 }
    }

    /// Identifier of the predefined outcome transfer category.
    pub fn transfer_outcome() -> (r: Id)
        ensures
            r == Self::transfer_outcome_spec(),
    {
        Id { a: 0xFFFF_FFFF_FFFF_FFFFu64, b: 0xFFFF_FFFF_FFFF_FFFFu64 }
    }

    /// Checks whether this identifier is one of the two reserved ids.
    pub fn is_predefined(&self) -> (r: bool)
        ensures
            r == self.is_predefined_spec(),
    {
        (self.a == 0 && self.b == 0) || (self.a == 0xFFFF_FFFF_FFFF_FFFFu64 && self.b
            == 0xFFFF_FFFF_FFFF_FFFFu64)
    }

    /// The 16-byte form of this identifier.
    pub fn to_bytes(&self) -> (r: Vec<u8>)
        ensures
            r@ == id_bytes(*self),
            r@.len() == 16,
    {
        proof {
            lemma_auto_spec_u64_to_from_le_bytes();
        }
        let mut out = u64_to_le_bytes(self.a);
        let mut tail = u64_to_le_bytes(self.b);
        out.append(&mut tail);
        out
    }

    /// Reads an identifier back from its 16-byte form.
    pub fn from_bytes(bytes: &[u8]) -> (r: Id)
        requires
            bytes@.len() == 16,
        ensures
            r == id_from_bytes_spec(bytes@),
            id_bytes(r) == bytes@,
    {
        proof {
            lemma_id_bytes_round_trip();
        }
        let head = vstd::slice::slice_subrange(bytes, 0, 8);
        let tail = vstd::slice::slice_subrange(bytes, 8, 16);
        proof {
            assert(bytes@.take(8) =~= bytes@.subrange(0, 8));
            assert(bytes@.skip(8) =~= bytes@.subrange(8, 16));
        }
        Id { a: u64_from_le_bytes(head), b: u64_from_le_bytes(tail) }
    }
}

/// Identifier for primary keys: new rows have none until the store
/// assigns one.
pub type PrimaryId = Option<Id>;

/// Types of categories.
#[derive(Clone, Copy, PartialEq, Eq, Structural, Debug)]
pub enum CategoryType {
    /// Incomes.
    Income,
    /// Spendings.
    Outcome,
}

/// Meta information attached to every row: where it was created and
/// when it was created, changed and removed.
#[derive(Clone, Copy, Debug)]
pub struct MetaInfo {
    /// Instance on which the row was created; immutable after insert.
    pub origin: Id,
    /// Creation timestamp; set on insert.
    pub added_timestamp: Option<Timestamp>,
    /// Change timestamp; reserved for a future update flow.
    pub changed_timestamp: Option<Timestamp>,
    /// Removal timestamp; set only on logical delete.
    pub removed_timestamp: Option<Timestamp>,
}

impl MetaInfo {
    /// Constructs meta information with the given origin and timestamps.
    pub fn new(
        origin: Id,
        added_timestamp: Option<Timestamp>,
        changed_timestamp: Option<Timestamp>,
        removed_timestamp: Option<Timestamp>,
    ) -> (r: MetaInfo)
        ensures
            r == (MetaInfo { origin, added_timestamp, changed_timestamp, removed_timestamp }),
    {
        MetaInfo { origin, added_timestamp, changed_timestamp, removed_timestamp }
    }

    /// Whether the row carrying this meta information is logically deleted.
    pub open spec fn is_removed(self) -> bool {
        self.removed_timestamp is Some
    }
}

/// Plaintext transaction: a timestamped, signed-amount change to an
/// account's balance, attributed to a category.
pub struct Transaction {
    /// Identifier.
    pub id: PrimaryId,
    /// Posting time.
    pub timestamp: Timestamp,
    /// Brief description.
    pub description: String,
    /// Identifier of the account the transaction belongs to.
    pub account_id: Id,
    /// Identifier of the category.
    pub category_id: Id,
    /// Amount of money affected, with its effective sign.
    pub amount: i64,
    /// Meta information.
    pub meta_info: MetaInfo,
}

/// Ghost form of a plaintext transaction.
pub ghost struct TransactionV {
    pub id: PrimaryId,
    pub timestamp: Timestamp,
    pub description: Seq<char>,
    pub account_id: Id,
    pub category_id: Id,
    pub amount: i64,
    pub meta_info: MetaInfo,
}

impl View for Transaction {
    type V = TransactionV;

    open spec fn view(&self) -> TransactionV {
        TransactionV {
            id: self.id,
            timestamp: self.timestamp,
            description: self.description@,
            account_id: self.account_id,
            category_id: self.category_id,
            amount: self.amount,
            meta_info: self.meta_info,
        }
    }
}

impl Clone for Transaction {
    /// Copies the transaction; the copy denotes the same value.
    fn clone(&self) -> (r: Self)
        ensures
            r@ == self@,
    {
        Transaction {
            id: self.id,
            timestamp: self.timestamp,
            description: self.description.clone(),
            account_id: self.account_id,
            category_id: self.category_id,
            amount: self.amount,
            meta_info: self.meta_info,
        }
    }
}

/// Encrypted transaction: sensitive fields are opaque ciphertext.
pub struct EncryptedTransaction {
    pub id: PrimaryId,
    pub timestamp: Timestamp,
    pub description: Vec<u8>,
    pub account_id: Id,
    pub category_id: Id,
    pub amount: Vec<u8>,
    pub meta_info: MetaInfo,
}

/// Ghost form of an encrypted transaction.
pub ghost struct EncryptedTransactionV {
    pub id: PrimaryId,
    pub timestamp: Timestamp,
    pub description: Seq<u8>,
    pub account_id: Id,
    pub category_id: Id,
    pub amount: Seq<u8>,
    pub meta_info: MetaInfo,
}

impl View for EncryptedTransaction {
    type V = EncryptedTransactionV;

    open spec fn view(&self) -> EncryptedTransactionV {
        EncryptedTransactionV {
            id: self.id,
            timestamp: self.timestamp,
            description: self.description@,
            account_id: self.account_id,
            category_id: self.category_id,
            amount: self.amount@,
            meta_info: self.meta_info,
        }
    }
}

impl Clone for EncryptedTransaction {
    /// Copies the row; the copy denotes the same value.
    fn clone(&self) -> (r: Self)
        ensures
            r@ == self@,
    {
        EncryptedTransaction {
            id: self.id,
            timestamp: self.timestamp,
            description: vstd::slice::slice_to_vec(self.description.as_slice()),
            account_id: self.account_id,
            category_id: self.category_id,
            amount: vstd::slice::slice_to_vec(self.amount.as_slice()),
            meta_info: self.meta_info,
        }
    }
}

/// Plaintext category: an income or outcome tag applied to transactions.
pub struct Category {
    /// Identifier.
    pub id: PrimaryId,
    /// Name of the category.
    pub name: String,
    /// Type of the category.
    pub category_type: CategoryType,
    /// Meta information.
    pub meta_info: MetaInfo,
}

/// Ghost form of a plaintext category.
pub ghost struct CategoryV {
    pub id: PrimaryId,
    pub name: Seq<char>,
    pub category_type: CategoryType,
    pub meta_info: MetaInfo,
}

impl View for Category {
    type V = CategoryV;

    open spec fn view(&self) -> CategoryV {
        CategoryV {
            id: self.id,
            name: self.name@,
            category_type: self.category_type,
            meta_info: self.meta_info,
        }
    }
}

impl Clone for Category {
    /// Copies the category; the copy denotes the same value.
    fn clone(&self) -> (r: Self)
        ensures
            r@ == self@,
    {
        Category {
            id: self.id,
            name: self.name.clone(),
            category_type: self.category_type,
            meta_info: self.meta_info,
        }
    }
}

/// Encrypted category.
pub struct EncryptedCategory {
    pub id: PrimaryId,
    pub name: Vec<u8>,
    pub category_type: CategoryType,
    pub meta_info: MetaInfo,
}

/// Ghost form of an encrypted category.
pub ghost struct EncryptedCategoryV {
    pub id: PrimaryId,
    pub name: Seq<u8>,
    pub category_type: CategoryType,
    pub meta_info: MetaInfo,
}

impl View for EncryptedCategory {
    type V = EncryptedCategoryV;

    open spec fn view(&self) -> EncryptedCategoryV {
        EncryptedCategoryV {
            id: self.id,
            name: self.name@,
            category_type: self.category_type,
            meta_info: self.meta_info,
        }
    }
}

impl Clone for EncryptedCategory {
    /// Copies the row; the copy denotes the same value.
    fn clone(&self) -> (r: Self)
        ensures
            r@ == self@,
    {
        EncryptedCategory {
            id: self.id,
            name: vstd::slice::slice_to_vec(self.name.as_slice()),
            category_type: self.category_type,
            meta_info: self.meta_info,
        }
    }
}

/// Plaintext account: a labeled balance.
pub struct Account {
    /// Identifier.
    pub id: PrimaryId,
    /// User-friendly account name.
    pub name: String,
    /// Current account balance.
    pub balance: i64,
    /// Initial account balance.
    pub initial_balance: i64,
    /// Meta information.
    pub meta_info: MetaInfo,
}

/// Ghost form of a plaintext account.
pub ghost struct AccountV {
    pub id: PrimaryId,
    pub name: Seq<char>,
    pub balance: i64,
    pub initial_balance: i64,
    pub meta_info: MetaInfo,
}

impl View for Account {
    type V = AccountV;

    open spec fn view(&self) -> AccountV {
        AccountV {
            id: self.id,
            name: self.name@,
            balance: self.balance,
            initial_balance: self.initial_balance,
            meta_info: self.meta_info,
        }
    }
}

impl Clone for Account {
    /// Copies the account; the copy denotes the same value.
    fn clone(&self) -> (r: Self)
        ensures
            r@ == self@,
    {
        Account {
            id: self.id,
            name: self.name.clone(),
            balance: self.balance,
            initial_balance: self.initial_balance,
            meta_info: self.meta_info,
        }
    }
}

/// Encrypted account.
pub struct EncryptedAccount {
    pub id: PrimaryId,
    pub name: Vec<u8>,
    pub balance: Vec<u8>,
    pub initial_balance: Vec<u8>,
    pub meta_info: MetaInfo,
}

/// Ghost form of an encrypted account.
pub ghost struct EncryptedAccountV {
    pub id: PrimaryId,
    pub name: Seq<u8>,
    pub balance: Seq<u8>,
    pub initial_balance: Seq<u8>,
    pub meta_info: MetaInfo,
}

impl View for EncryptedAccount {
    type V = EncryptedAccountV;

    open spec fn view(&self) -> EncryptedAccountV {
        EncryptedAccountV {
            id: self.id,
            name: self.name@,
            balance: self.balance@,
            initial_balance: self.initial_balance@,
            meta_info: self.meta_info,
        }
    }
}

impl Clone for EncryptedAccount {
    /// Copies the row; the copy denotes the same value.
    fn clone(&self) -> (r: Self)
        ensures
            r@ == self@,
    {
        EncryptedAccount {
            id: self.id,
            name: vstd::slice::slice_to_vec(self.name.as_slice()),
            balance: vstd::slice::slice_to_vec(self.balance.as_slice()),
            initial_balance: vstd::slice::slice_to_vec(self.initial_balance.as_slice()),
            meta_info: self.meta_info,
        }
    }
}

/// Plaintext plan: a category-scoped budget limit.
pub struct Plan {
    /// Identifier.
    pub id: PrimaryId,
    /// Identifier of the corresponding category.
    pub category_id: Id,
    /// User-friendly plan name.
    pub name: String,
    /// Amount limit of the plan.
    pub amount_limit: i64,
    /// Meta information.
    pub meta_info: MetaInfo,
}

/// Ghost form of a plaintext plan.
pub ghost struct PlanV {
    pub id: PrimaryId,
    pub category_id: Id,
    pub name: Seq<char>,
    pub amount_limit: i64,
    pub meta_info: MetaInfo,
}

impl View for Plan {
    type V = PlanV;

    open spec fn view(&self) -> PlanV {
        PlanV {
            id: self.id,
            category_id: self.category_id,
            name: self.name@,
            amount_limit: self.amount_limit,
            meta_info: self.meta_info,
        }
    }
}

impl Clone for Plan {
    /// Copies the plan; the copy denotes the same value.
    fn clone(&self) -> (r: Self)
        ensures
            r@ == self@,
    {
        Plan {
            id: self.id,
            category_id: self.category_id,
            name: self.name.clone(),
            amount_limit: self.amount_limit,
            meta_info: self.meta_info,
        }
    }
}

/// Encrypted plan.
pub struct EncryptedPlan {
    pub id: PrimaryId,
    pub category_id: Id,
    pub name: Vec<u8>,
    pub amount_limit: Vec<u8>,
    pub meta_info: MetaInfo,
}

/// Ghost form of an encrypted plan.
pub ghost struct EncryptedPlanV {
    pub id: PrimaryId,
    pub category_id: Id,
    pub name: Seq<u8>,
    pub amount_limit: Seq<u8>,
    pub meta_info: MetaInfo,
}

impl View for EncryptedPlan {
    type V = EncryptedPlanV;

    open spec fn view(&self) -> EncryptedPlanV {
        EncryptedPlanV {
            id: self.id,
            category_id: self.category_id,
            name: self.name@,
            amount_limit: self.amount_limit@,
            meta_info: self.meta_info,
        }
    }
}

impl Clone for EncryptedPlan {
    /// Copies the row; the copy denotes the same value.
    fn clone(&self) -> (r: Self)
        ensures
            r@ == self@,
    {
        EncryptedPlan {
            id: self.id,
            category_id: self.category_id,
            name: vstd::slice::slice_to_vec(self.name.as_slice()),
            amount_limit: vstd::slice::slice_to_vec(self.amount_limit.as_slice()),
            meta_info: self.meta_info,
        }
    }
}

} // verus!
