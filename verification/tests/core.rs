use libbdgt::budget::Budget;
use libbdgt::buffer::CryptoBuffer;
use libbdgt::changelog::Changelog;
use libbdgt::config::Config;
use libbdgt::data::{Account, Category, CategoryType, Id, MetaInfo, Plan, Transaction};
use libbdgt::engine::{AsymmetricProvider, CryptoEngine};
use libbdgt::error::{ErrorKind, Result};
use libbdgt::storage::Storage;

/// Software provider for tests: "wrapping" reverses the bytes, so that
/// wrap and unwrap are mutually inverse without any external service.
struct MirrorProvider {
    key_present: bool,
    usable: bool,
}

impl MirrorProvider {
    fn good() -> Self {
        MirrorProvider { key_present: true, usable: true }
    }
}

impl AsymmetricProvider for MirrorProvider {
    type Handle = u8;

    fn lookup(&mut self, _key_id: &str) -> Result<u8> {
        Ok(0)
    }

    fn has_private(&mut self, _key_id: &str) -> bool {
        self.key_present
    }

    fn is_usable(&mut self, _handle: &u8) -> bool {
        self.usable
    }

    fn encrypt_to(&mut self, _handle: &u8, plaintext: &[u8]) -> Result<Vec<u8>> {
        let mut out = plaintext.to_vec();
        out.reverse();
        Ok(out)
    }

    fn decrypt(&mut self, ciphertext: &[u8]) -> Result<Vec<u8>> {
        let mut out = ciphertext.to_vec();
        out.reverse();
        Ok(out)
    }
}

fn fresh_budget(instance: Id) -> Budget<MirrorProvider> {
    let engine = CryptoEngine::create(MirrorProvider::good(), "test-key").unwrap();
    let config = Config::new("test-key".to_string(), instance);
    Budget::new(engine, Storage::new(), config).unwrap()
}


/// Unwraps the error of a result whose success type has no Debug form.
fn expect_err<T>(r: Result<T>) -> libbdgt::error::Error {
    match r {
        Ok(_) => panic!("expected an error"),
        Err(e) => e,
    }
}

fn meta(origin: Id, added: i64) -> MetaInfo {
    MetaInfo::new(origin, Some(added), None, None)
}

fn account(name: &str, balance: i64) -> Account {
    Account {
        id: None,
        name: name.to_string(),
        balance,
        initial_balance: balance,
        meta_info: meta(Id { a: 1, b: 1 }, 10),
    }
}

#[test]
fn buffer_append_concatenates() {
    let a = CryptoBuffer::from_vec(vec![1u8, 2]);
    let b = CryptoBuffer::from_vec(vec![3u8]);
    let c = a.append(b);
    assert_eq!(c.as_bytes(), &[1u8, 2, 3]);
    assert!(!c.is_empty());
    assert!(CryptoBuffer::new().is_empty());
}

#[test]
fn buffer_erase_zeroes_storage() {
    let mut b = CryptoBuffer::from_vec(vec![7u8, 8, 9]);
    b.erase();
    assert_eq!(b.as_bytes(), &[0u8, 0, 0]);
}

#[test]
fn buffer_new_with_size_is_zeroed() {
    let b = CryptoBuffer::new_with_size(4);
    assert_eq!(b.as_bytes(), &[0u8, 0, 0, 0]);
}

#[test]
fn id_bytes_round_trip() {
    let id = Id { a: 0x0123_4567_89ab_cdef, b: 0xfedc_ba98_7654_3210 };
    let bytes = id.to_bytes();
    assert_eq!(bytes.len(), 16);
    let back = Id::from_bytes(bytes.as_slice());
    assert_eq!(back, id);
}

#[test]
fn predefined_ids_are_reserved() {
    assert!(Id::transfer_income().is_predefined());
    assert!(Id::transfer_outcome().is_predefined());
    assert!(!Id { a: 5, b: 6 }.is_predefined());
    assert_eq!(Id::transfer_income().to_bytes(), vec![0u8; 16]);
    assert_eq!(Id::transfer_outcome().to_bytes(), vec![0xffu8; 16]);
}

#[test]
fn symmetric_round_trip() {
    let key = [0x42u8; 32];
    let plaintext = b"attack at dawn";
    let sealed = libbdgt::symmetric::symmetric_encrypt(&key, plaintext).unwrap();
    assert_eq!(sealed.as_bytes().len(), plaintext.len() + 28);
    let opened = libbdgt::symmetric::symmetric_decrypt(&key, sealed.as_bytes()).unwrap();
    assert_eq!(opened.as_bytes(), plaintext);
}

#[test]
fn symmetric_wrong_key_fails() {
    let key = [0x42u8; 32];
    let other = [0x43u8; 32];
    let sealed = libbdgt::symmetric::symmetric_encrypt(&key, b"secret").unwrap();
    let err = expect_err(libbdgt::symmetric::symmetric_decrypt(&other, sealed.as_bytes()));
    assert_eq!(err.kind(), ErrorKind::Decryption);
}

#[test]
fn symmetric_rejects_bad_key_length() {
    let err = expect_err(libbdgt::symmetric::symmetric_encrypt(&[0u8; 16], b"x"));
    assert_eq!(err.kind(), ErrorKind::InvalidSymmetricKey);
}

#[test]
fn nonce_prefixes_do_not_collide() {
    let key = [9u8; 32];
    let mut prefixes: Vec<[u8; 12]> = Vec::with_capacity(100_000);
    for _ in 0..100_000 {
        let sealed = libbdgt::symmetric::symmetric_encrypt(&key, b"").unwrap();
        let mut p = [0u8; 12];
        p.copy_from_slice(&sealed.as_bytes()[..12]);
        prefixes.push(p);
    }
    prefixes.sort();
    for w in prefixes.windows(2) {
        assert_ne!(w[0], w[1]);
    }
}

#[test]
fn kdf_matches_reference_vector() {
    let expected: [u8; 32] = [0xd6, 0x80, 0xf6, 0xc5, 0x20, 0x6a, 0x3b, 0x6e, 0x7d, 0x98, 0xe0, 0x01, 0xa0, 0x5b, 0x04, 0x69, 0x86, 0x20, 0xcf, 0x64, 0x7d, 0x79, 0x74, 0x12, 0xfa, 0xa0, 0x9a, 0x69, 0x8a, 0xab, 0xd7, 0xa8];
    let a = libbdgt::kdf::derive_key(b"password", b"salt1234", 32);
    assert_eq!(a.as_bytes(), expected);
}

#[test]
fn kdf_depends_on_salt() {
    let expected: [u8; 16] = [0x5f, 0xb2, 0x08, 0x91, 0xaf, 0x68, 0x75, 0x68, 0xe3, 0xb6, 0xf8, 0xe6, 0xd8, 0xc3, 0xbe, 0x1a];
    let c = libbdgt::kdf::derive_key(b"password", b"salt1235", 16);
    assert_eq!(c.as_bytes(), expected);
}

#[test]
fn dummy_engine_refuses_operations() {
    let mut engine = CryptoEngine::new_dummy(MirrorProvider::good());
    let err = expect_err(engine.encrypt(b"data"));
    assert_eq!(err.kind(), ErrorKind::InvalidEngineState);
    let err = expect_err(engine.decrypt(b"data"));
    assert_eq!(err.kind(), ErrorKind::InvalidEngineState);
}

#[test]
fn engine_round_trip_after_open() {
    let mut engine = CryptoEngine::create(MirrorProvider::good(), "k").unwrap();
    let wrapped = engine.wrapped_key().unwrap().clone();
    let sealed = engine.encrypt(b"hello").unwrap();
    let opened = engine.decrypt(sealed.as_bytes()).unwrap();
    assert_eq!(opened.as_bytes(), b"hello");

    let mut reopened = CryptoEngine::open(MirrorProvider::good(), wrapped);
    let opened = reopened.decrypt(sealed.as_bytes()).unwrap();
    assert_eq!(opened.as_bytes(), b"hello");
}

#[test]
fn engine_fails_closed_without_private_key() {
    let provider = MirrorProvider { key_present: false, usable: true };
    let err = expect_err(CryptoEngine::create(provider, "k"));
    assert_eq!(err.kind(), ErrorKind::MissingSecretKey);
    let provider = MirrorProvider { key_present: true, usable: false };
    let err = expect_err(CryptoEngine::create(provider, "k"));
    assert_eq!(err.kind(), ErrorKind::KeyUnsuitable);
}

#[test]
fn changelog_round_trip() {
    let origin = Id { a: 3, b: 4 };
    let mut log = Changelog::new();
    log.accounts.added.push(account("checking", 1000));
    log.categories.added.push(Category {
        id: Some(Id { a: 9, b: 9 }),
        name: "food".to_string(),
        category_type: CategoryType::Outcome,
        meta_info: meta(origin, 20),
    });
    log.transactions.added.push(Transaction {
        id: Some(Id { a: 8, b: 8 }),
        timestamp: 123,
        description: "groceries, naturally".to_string(),
        account_id: Id { a: 7, b: 7 },
        category_id: Id { a: 9, b: 9 },
        amount: -250,
        meta_info: meta(origin, 21),
    });
    log.plans.added.push(Plan {
        id: None,
        category_id: Id { a: 9, b: 9 },
        name: "monthly food".to_string(),
        amount_limit: 400,
        meta_info: meta(origin, 22),
    });
    let bytes = log.to_vec();
    let back = Changelog::from_slice(bytes.as_slice()).unwrap();
    assert_eq!(back.accounts.added.len(), 1);
    assert_eq!(back.accounts.added[0].name, "checking");
    assert_eq!(back.accounts.added[0].balance, 1000);
    assert_eq!(back.categories.added[0].category_type, CategoryType::Outcome);
    assert_eq!(back.transactions.added[0].amount, -250);
    assert_eq!(back.transactions.added[0].description, "groceries, naturally");
    assert_eq!(back.plans.added[0].amount_limit, 400);
    assert_eq!(back.plans.added[0].id, None);
    assert_eq!(back.transactions.added[0].meta_info.origin, origin);
}

#[test]
fn changelog_rejects_truncated_input() {
    let log = Changelog::new();
    let mut bytes = log.to_vec();
    bytes.pop();
    let err = expect_err(Changelog::from_slice(bytes.as_slice()));
    assert_eq!(err.kind(), ErrorKind::Malformed);
}

#[test]
fn changelog_rejects_trailing_garbage() {
    let log = Changelog::new();
    let mut bytes = log.to_vec();
    bytes.push(0);
    let err = expect_err(Changelog::from_slice(bytes.as_slice()));
    assert_eq!(err.kind(), ErrorKind::Malformed);
}

#[test]
fn error_messages_name_their_kind() {
    let e = libbdgt::error::Error::from_message(ErrorKind::MissingSecretKey);
    assert_eq!(e.message(), "Secret key is missing");
    let e = libbdgt::error::Error::from_message_with_extra(
        ErrorKind::NotFound,
        "details".to_string(),
    );
    assert_eq!(e.kind(), ErrorKind::NotFound);
    assert_eq!(e.extra, "details");
}

fn only_account(budget: &mut Budget<MirrorProvider>) -> Account {
    let accounts = budget.accounts().unwrap();
    assert_eq!(accounts.len(), 1);
    accounts.into_iter().next().unwrap()
}

#[test]
fn balance_follows_transactions() {
    let origin = Id { a: 1, b: 1 };
    let mut budget = fresh_budget(origin);
    budget.initialize().unwrap();
    budget.add_account(&account("A", 1000)).unwrap();
    let a = only_account(&mut budget).id.unwrap();
    let c1 = Id { a: 100, b: 0 };
    let c2 = Id { a: 101, b: 0 };
    budget
        .add_category(&Category {
            id: Some(c1),
            name: "salary".to_string(),
            category_type: CategoryType::Income,
            meta_info: meta(origin, 10),
        })
        .unwrap();
    budget
        .add_category(&Category {
            id: Some(c2),
            name: "food".to_string(),
            category_type: CategoryType::Outcome,
            meta_info: meta(origin, 10),
        })
        .unwrap();
    budget
        .add_transaction(&Transaction {
            id: None,
            timestamp: 50,
            description: "pay".to_string(),
            account_id: a,
            category_id: c1,
            amount: 250,
            meta_info: meta(origin, 11),
        })
        .unwrap();
    budget
        .add_transaction(&Transaction {
            id: Some(Id { a: 55, b: 55 }),
            timestamp: 60,
            description: "food".to_string(),
            account_id: a,
            category_id: c2,
            amount: -100,
            meta_info: meta(origin, 12),
        })
        .unwrap();
    assert_eq!(only_account(&mut budget).balance, 1150);
    budget.remove_transaction(Id { a: 55, b: 55 }, false, 70).unwrap();
    assert_eq!(only_account(&mut budget).balance, 1250);
    assert_eq!(budget.transactions().unwrap().len(), 1);
}

#[test]
fn emergency_removal_skips_balance_reversal() {
    let origin = Id { a: 1, b: 1 };
    let mut budget = fresh_budget(origin);
    budget.add_account(&account("A", 500)).unwrap();
    let a = only_account(&mut budget).id.unwrap();
    let tx = Id { a: 77, b: 77 };
    budget
        .add_transaction(&Transaction {
            id: Some(tx),
            timestamp: 5,
            description: "broken".to_string(),
            account_id: a,
            category_id: Id { a: 1, b: 2 },
            amount: 40,
            meta_info: meta(origin, 5),
        })
        .unwrap();
    assert_eq!(only_account(&mut budget).balance, 540);
    budget.remove_transaction(tx, true, 6).unwrap();
    assert_eq!(only_account(&mut budget).balance, 540);
    assert!(budget.transactions().unwrap().is_empty());
}

#[test]
fn transfer_creates_opposite_legs() {
    let origin = Id { a: 1, b: 1 };
    let mut budget = fresh_budget(origin);
    budget.initialize().unwrap();
    budget.add_account(&account("A", 1000)).unwrap();
    budget.add_account(&account("B", 500)).unwrap();
    let accounts = budget.accounts().unwrap();
    let a = accounts.iter().find(|x| x.name == "A").unwrap().id.unwrap();
    let b = accounts.iter().find(|x| x.name == "B").unwrap().id.unwrap();
    budget.add_transfer(300, a, b, 77).unwrap();
    let accounts = budget.accounts().unwrap();
    assert_eq!(accounts.iter().find(|x| x.name == "A").unwrap().balance, 700);
    assert_eq!(accounts.iter().find(|x| x.name == "B").unwrap().balance, 800);
    let txs = budget.transactions().unwrap();
    assert_eq!(txs.len(), 2);
    for tx in &txs {
        assert_eq!(tx.timestamp, 77);
    }
    let outgoing = txs.iter().find(|t| t.account_id == a).unwrap();
    assert_eq!(outgoing.amount, -300);
    assert_eq!(outgoing.category_id, Id::transfer_outcome());
    let incoming = txs.iter().find(|t| t.account_id == b).unwrap();
    assert_eq!(incoming.amount, 300);
    assert_eq!(incoming.category_id, Id::transfer_income());
}

#[test]
fn account_removal_respects_references() {
    let origin = Id { a: 1, b: 1 };
    let mut budget = fresh_budget(origin);
    budget.add_account(&account("A", 100)).unwrap();
    let a = only_account(&mut budget).id.unwrap();
    budget
        .add_transaction(&Transaction {
            id: None,
            timestamp: 9,
            description: "t".to_string(),
            account_id: a,
            category_id: Id { a: 3, b: 3 },
            amount: 1,
            meta_info: meta(origin, 9),
        })
        .unwrap();
    let err = budget.remove_account(a, false, 44).unwrap_err();
    assert_eq!(err.kind(), ErrorKind::ConsistencyViolation);
    budget.remove_account(a, true, 44).unwrap();
    assert!(budget.accounts().unwrap().is_empty());
    assert!(budget.transactions().unwrap().is_empty());
    let removed = budget.transactions_removed_since(0).unwrap();
    assert_eq!(removed.len(), 1);
    assert_eq!(removed[0].meta_info.removed_timestamp, Some(44));
}

#[test]
fn predefined_categories_cannot_be_removed_or_duplicated() {
    let origin = Id { a: 1, b: 1 };
    let mut budget = fresh_budget(origin);
    budget.initialize().unwrap();
    let err = budget.remove_category(Id::transfer_income(), 9).unwrap_err();
    assert_eq!(err.kind(), ErrorKind::CannotDeletePredefined);
    let err = budget.remove_category(Id::transfer_outcome(), 9).unwrap_err();
    assert_eq!(err.kind(), ErrorKind::CannotDeletePredefined);
    let err = budget.initialize().unwrap_err();
    assert_eq!(err.kind(), ErrorKind::ConsistencyViolation);
}

#[test]
fn tombstones_are_invisible_to_default_queries() {
    let origin = Id { a: 1, b: 1 };
    let mut budget = fresh_budget(origin);
    let c = Id { a: 10, b: 10 };
    budget
        .add_category(&Category {
            id: Some(c),
            name: "temp".to_string(),
            category_type: CategoryType::Income,
            meta_info: meta(origin, 3),
        })
        .unwrap();
    budget.remove_category(c, 8).unwrap();
    assert!(budget.categories().unwrap().is_empty());
    assert!(budget.category(c).is_err());
    let removed = budget.categories_removed_since(0).unwrap();
    assert_eq!(removed.len(), 1);
    assert_eq!(removed[0].meta_info.removed_timestamp, Some(8));
    assert!(budget.categories_removed_since(8).unwrap().is_empty());
    budget.clean_removed().unwrap();
    assert!(budget.categories_removed_since(0).unwrap().is_empty());
}

#[test]
fn plans_are_scoped_to_categories() {
    let origin = Id { a: 1, b: 1 };
    let mut budget = fresh_budget(origin);
    let c = Id { a: 10, b: 10 };
    budget
        .add_plan(&Plan {
            id: None,
            category_id: c,
            name: "cap".to_string(),
            amount_limit: 50,
            meta_info: meta(origin, 3),
        })
        .unwrap();
    assert_eq!(budget.plans().unwrap().len(), 1);
    assert_eq!(budget.plans_for(c).unwrap().len(), 1);
    assert!(budget.plans_for(Id { a: 11, b: 11 }).unwrap().is_empty());
}

#[test]
fn category_removal_respects_plan_references() {
    let origin = Id { a: 1, b: 1 };
    let mut budget = fresh_budget(origin);
    let c = Id { a: 10, b: 10 };
    budget
        .add_category(&Category {
            id: Some(c),
            name: "kept".to_string(),
            category_type: CategoryType::Outcome,
            meta_info: meta(origin, 3),
        })
        .unwrap();
    budget
        .add_plan(&Plan {
            id: Some(Id { a: 12, b: 12 }),
            category_id: c,
            name: "cap".to_string(),
            amount_limit: 50,
            meta_info: meta(origin, 3),
        })
        .unwrap();
    let err = budget.remove_category(c, 9).unwrap_err();
    assert_eq!(err.kind(), ErrorKind::ConsistencyViolation);
    budget.remove_plan(Id { a: 12, b: 12 }, 9).unwrap();
    budget.remove_category(c, 10).unwrap();
    assert!(budget.categories().unwrap().is_empty());
}

#[test]
fn transactions_are_sorted_and_filtered() {
    let origin = Id { a: 1, b: 1 };
    let mut budget = fresh_budget(origin);
    budget.add_account(&account("A", 0)).unwrap();
    let a = only_account(&mut budget).id.unwrap();
    let c = Id { a: 10, b: 10 };
    for (ts, amount) in [(5i64, 1i64), (15, 2), (10, 3)] {
        budget
            .add_transaction(&Transaction {
                id: None,
                timestamp: ts,
                description: format!("tx-{ts}"),
                account_id: a,
                category_id: c,
                amount,
                meta_info: meta(origin, ts),
            })
            .unwrap();
    }
    let txs = budget.transactions().unwrap();
    let stamps: Vec<i64> = txs.iter().map(|t| t.timestamp).collect();
    assert_eq!(stamps, vec![15, 10, 5]);
    let window = budget.transactions_between(5, 15).unwrap();
    let stamps: Vec<i64> = window.iter().map(|t| t.timestamp).collect();
    assert_eq!(stamps, vec![10, 5]);
    assert_eq!(budget.transactions_of(a).unwrap().len(), 3);
    assert_eq!(budget.transactions_with(c).unwrap().len(), 3);
    assert_eq!(budget.transactions_with_between(c, 11, 16).unwrap().len(), 1);
    assert_eq!(budget.transactions_of_between(a, 0, 6).unwrap().len(), 1);
}

#[test]
fn inserts_clear_change_and_removal_stamps() {
    let origin = Id { a: 1, b: 1 };
    let mut budget = fresh_budget(origin);
    budget
        .add_category(&Category {
            id: Some(Id { a: 31, b: 31 }),
            name: "revived".to_string(),
            category_type: CategoryType::Income,
            meta_info: MetaInfo::new(origin, Some(5), Some(6), Some(7)),
        })
        .unwrap();
    let cats = budget.categories().unwrap();
    assert_eq!(cats.len(), 1);
    assert_eq!(cats[0].meta_info.changed_timestamp, None);
    assert_eq!(cats[0].meta_info.removed_timestamp, None);
    assert_eq!(cats[0].meta_info.added_timestamp, Some(5));
}

#[test]
fn categories_sort_by_kind_and_plans_by_category() {
    let origin = Id { a: 1, b: 1 };
    let mut budget = fresh_budget(origin);
    budget
        .add_category(&Category {
            id: Some(Id { a: 40, b: 0 }),
            name: "spend".to_string(),
            category_type: CategoryType::Outcome,
            meta_info: meta(origin, 5),
        })
        .unwrap();
    budget
        .add_category(&Category {
            id: Some(Id { a: 41, b: 0 }),
            name: "earn".to_string(),
            category_type: CategoryType::Income,
            meta_info: meta(origin, 6),
        })
        .unwrap();
    let cats = budget.categories().unwrap();
    assert_eq!(cats[0].category_type, CategoryType::Income);
    assert_eq!(cats[1].category_type, CategoryType::Outcome);

    budget
        .add_plan(&Plan {
            id: Some(Id { a: 50, b: 0 }),
            category_id: Id { a: 9, b: 0 },
            name: "later".to_string(),
            amount_limit: 10,
            meta_info: meta(origin, 7),
        })
        .unwrap();
    budget
        .add_plan(&Plan {
            id: Some(Id { a: 51, b: 0 }),
            category_id: Id { a: 1, b: 0 },
            name: "earlier".to_string(),
            amount_limit: 20,
            meta_info: meta(origin, 8),
        })
        .unwrap();
    let plans = budget.plans().unwrap();
    assert_eq!(plans[0].name, "earlier");
    assert_eq!(plans[1].name, "later");
}

#[test]
fn store_survives_serialization() {
    let origin = Id { a: 1, b: 1 };
    let mut engine = CryptoEngine::create(MirrorProvider::good(), "test-key").unwrap();
    let wrapped = engine.wrapped_key().unwrap().clone();
    let config = Config::new("test-key".to_string(), origin);
    let mut budget = Budget::new(engine, Storage::new(), config).unwrap();
    budget.add_account(&account("persistent", 321)).unwrap();
    let a = only_account(&mut budget).id.unwrap();
    budget
        .add_transaction(&Transaction {
            id: Some(Id { a: 60, b: 60 }),
            timestamp: 9,
            description: "kept".to_string(),
            account_id: a,
            category_id: Id { a: 61, b: 61 },
            amount: 4,
            meta_info: meta(origin, 9),
        })
        .unwrap();
    let bytes = budget.store_bytes();

    let restored = Storage::from_bytes(&bytes).unwrap();
    let reopened = CryptoEngine::open(MirrorProvider::good(), wrapped);
    let config = Config::new("test-key".to_string(), origin);
    let mut budget2 = Budget::new(reopened, restored, config).unwrap();
    let accounts = budget2.accounts().unwrap();
    assert_eq!(accounts.len(), 1);
    assert_eq!(accounts[0].name, "persistent");
    assert_eq!(accounts[0].balance, 325);
    let txs = budget2.transactions().unwrap();
    assert_eq!(txs.len(), 1);
    assert_eq!(txs[0].description, "kept");
}

#[test]
fn store_rejects_corrupted_bytes() {
    let bytes = Storage::new().to_bytes();
    let mut broken = bytes.clone();
    broken.pop();
    assert!(Storage::from_bytes(&bytes).is_ok());
    let err = expect_err(Storage::from_bytes(&broken));
    assert_eq!(err.kind(), ErrorKind::Malformed);
}

#[test]
fn destructive_from_empties_the_source() {
    let mut password = String::from("hunter2");
    let buffer = CryptoBuffer::destructive_from(&mut password);
    assert_eq!(buffer.as_bytes(), b"hunter2");
    assert!(password.is_empty());
}

#[test]
fn store_rejects_duplicate_ids_on_load() {
    let row = libbdgt::data::EncryptedAccount {
        id: Some(Id { a: 7, b: 7 }),
        name: vec![1, 2],
        balance: vec![3],
        initial_balance: vec![4],
        meta_info: meta(Id { a: 1, b: 1 }, 5),
    };
    let twin = libbdgt::data::EncryptedAccount {
        id: Some(Id { a: 7, b: 7 }),
        name: vec![9],
        balance: vec![9],
        initial_balance: vec![9],
        meta_info: meta(Id { a: 1, b: 1 }, 6),
    };
    let mut bytes: Vec<u8> = Vec::new();
    libbdgt::codec::write_etx_list(&mut bytes, &Vec::new());
    libbdgt::codec::write_eaccount_list(&mut bytes, &vec![row, twin]);
    libbdgt::codec::write_ecategory_list(&mut bytes, &Vec::new());
    libbdgt::codec::write_eplan_list(&mut bytes, &Vec::new());
    let err = expect_err(Storage::from_bytes(&bytes));
    assert_eq!(err.kind(), ErrorKind::Malformed);
}
