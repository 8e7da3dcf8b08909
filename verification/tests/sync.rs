use libbdgt::budget::Budget;
use libbdgt::changelog::Changelog;
use libbdgt::config::Config;
use libbdgt::data::{Account, Category, CategoryType, Id, MetaInfo, Transaction};
use libbdgt::engine::{AsymmetricProvider, CryptoEngine};
use libbdgt::error::{ErrorKind, Result};
use libbdgt::storage::Storage;

/// Software provider for tests: "wrapping" reverses the bytes.
struct MirrorProvider;

impl AsymmetricProvider for MirrorProvider {
    type Handle = u8;

    fn lookup(&mut self, _key_id: &str) -> Result<u8> {
        Ok(0)
    }

    fn has_private(&mut self, _key_id: &str) -> bool {
        true
    }

    fn is_usable(&mut self, _handle: &u8) -> bool {
        true
    }

    fn encrypt_to(&mut self, _handle: &u8, plaintext: &[u8]) -> Result<Vec<u8>> {
        let mut out = plaintext.to_vec();
        out.reverse();
        Ok(out)
    }

    fn decrypt(&mut self, ciphertext: &[u8]) -> Result<Vec<u8>> {
        let mut out = ciphertext.to_vec();
        out.reverse();
        Ok(out)
    }
}

fn fresh_budget(instance: Id) -> Budget<MirrorProvider> {
    let engine = CryptoEngine::create(MirrorProvider, "test-key").unwrap();
    let config = Config::new("test-key".to_string(), instance);
    Budget::new(engine, Storage::new(), config).unwrap()
}


/// Unwraps the error of a result whose success type has no Debug form.
fn expect_err<T>(r: Result<T>) -> libbdgt::error::Error {
    match r {
        Ok(_) => panic!("expected an error"),
        Err(e) => e,
    }
}

fn meta(origin: Id, added: i64) -> MetaInfo {
    MetaInfo::new(origin, Some(added), None, None)
}

#[test]
fn envelope_round_trip_and_wrong_password() {
    let origin = Id { a: 1, b: 1 };
    let mut log = Changelog::new();
    for i in 0..3u64 {
        log.accounts.added.push(Account {
            id: Some(Id { a: i, b: 100 }),
            name: format!("acct-{i}"),
            balance: 10 * i as i64,
            initial_balance: 10 * i as i64,
            meta_info: meta(origin, 5),
        });
    }
    for i in 0..2u64 {
        log.categories.added.push(Category {
            id: Some(Id { a: i, b: 200 }),
            name: format!("cat-{i}"),
            category_type: CategoryType::Income,
            meta_info: meta(origin, 5),
        });
    }
    for i in 0..5u64 {
        log.transactions.added.push(Transaction {
            id: Some(Id { a: i, b: 300 }),
            timestamp: 5 + i as i64,
            description: format!("tx-{i}"),
            account_id: Id { a: 0, b: 100 },
            category_id: Id { a: 0, b: 200 },
            amount: i as i64 - 2,
            meta_info: meta(origin, 5),
        });
    }
    log.plans.added.push(libbdgt::data::Plan {
        id: Some(Id { a: 0, b: 400 }),
        category_id: Id { a: 0, b: 200 },
        name: "cap".to_string(),
        amount_limit: 12,
        meta_info: meta(origin, 5),
    });

    let timestamp: i64 = 1234567890;
    let instance = Id { a: 0x1111111111111111, b: 0x1111111111111111 };
    let salt = libbdgt::sync::make_key_derivation_salt(timestamp, &instance);
    let mut raw_engine = CryptoEngine::create(MirrorProvider, "k").unwrap();
    let key = raw_engine.derive_key(b"p", salt.as_slice(), 32);
    let sealed = raw_engine
        .encrypt_symmetric(key.as_bytes(), log.to_vec().as_slice())
        .unwrap();
    let opened = raw_engine.decrypt_symmetric(key.as_bytes(), sealed.as_bytes()).unwrap();
    let back = Changelog::from_slice(opened.as_bytes()).unwrap();
    assert_eq!(back.accounts.added.len(), 3);
    assert_eq!(back.categories.added.len(), 2);
    assert_eq!(back.transactions.added.len(), 5);
    assert_eq!(back.plans.added.len(), 1);
    assert_eq!(back.transactions.added[4].description, "tx-4");

    let mut wrong = key.as_bytes().to_vec();
    wrong[0] ^= 1;
    let err = expect_err(raw_engine.decrypt_symmetric(&wrong, sealed.as_bytes()));
    assert_eq!(err.kind(), ErrorKind::Decryption);
}

#[test]
fn merge_skips_own_rows() {
    let instance = Id { a: 1, b: 1 };
    let mut budget = fresh_budget(instance);
    let mut log = Changelog::new();
    log.accounts.added.push(Account {
        id: Some(Id { a: 5, b: 5 }),
        name: "mine".to_string(),
        balance: 10,
        initial_balance: 10,
        meta_info: meta(instance, 5),
    });
    budget.merge_changes(&log, 1).unwrap();
    assert!(budget.accounts().unwrap().is_empty());
}

#[test]
fn merge_skips_rows_before_last_sync() {
    let instance = Id { a: 1, b: 1 };
    let peer = Id { a: 2, b: 2 };
    let mut budget = fresh_budget(instance);
    let mut log = Changelog::new();
    log.accounts.added.push(Account {
        id: Some(Id { a: 5, b: 5 }),
        name: "old".to_string(),
        balance: 10,
        initial_balance: 10,
        meta_info: meta(peer, 5),
    });
    budget.merge_changes(&log, 100).unwrap();
    assert!(budget.accounts().unwrap().is_empty());
}

#[test]
fn merge_resets_balance_and_replays_transactions() {
    let instance = Id { a: 1, b: 1 };
    let peer = Id { a: 2, b: 2 };
    let mut budget = fresh_budget(instance);
    let a = Id { a: 5, b: 5 };
    let mut log = Changelog::new();
    log.accounts.added.push(Account {
        id: Some(a),
        name: "remote".to_string(),
        balance: 9999,
        initial_balance: 100,
        meta_info: meta(peer, 5),
    });
    log.transactions.added.push(Transaction {
        id: Some(Id { a: 6, b: 6 }),
        timestamp: 7,
        description: "remote tx".to_string(),
        account_id: a,
        category_id: Id { a: 9, b: 9 },
        amount: 25,
        meta_info: meta(peer, 7),
    });
    budget.merge_changes(&log, 1).unwrap();
    let accounts = budget.accounts().unwrap();
    assert_eq!(accounts.len(), 1);
    assert_eq!(accounts[0].balance, 125);
    assert_eq!(accounts[0].meta_info.origin, peer);
    let txs = budget.transactions().unwrap();
    assert_eq!(txs.len(), 1);
    assert_eq!(txs[0].meta_info.origin, peer);
}

#[test]
fn merge_is_idempotent_after_sync_point_advances() {
    let instance = Id { a: 1, b: 1 };
    let peer = Id { a: 2, b: 2 };
    let mut budget = fresh_budget(instance);
    let a = Id { a: 5, b: 5 };
    let mut log = Changelog::new();
    log.accounts.added.push(Account {
        id: Some(a),
        name: "remote".to_string(),
        balance: 100,
        initial_balance: 100,
        meta_info: meta(peer, 5),
    });
    log.transactions.added.push(Transaction {
        id: Some(Id { a: 6, b: 6 }),
        timestamp: 7,
        description: "remote tx".to_string(),
        account_id: a,
        category_id: Id { a: 9, b: 9 },
        amount: 25,
        meta_info: meta(peer, 7),
    });
    budget.merge_changes(&log, 1).unwrap();
    let first_accounts = budget.accounts().unwrap();
    let first_txs = budget.transactions().unwrap();
    budget.merge_changes(&log, 8).unwrap();
    let second_accounts = budget.accounts().unwrap();
    let second_txs = budget.transactions().unwrap();
    assert_eq!(first_accounts.len(), second_accounts.len());
    assert_eq!(first_txs.len(), second_txs.len());
    assert_eq!(first_accounts[0].balance, second_accounts[0].balance);
}

#[test]
fn merge_applies_remote_removals() {
    let instance = Id { a: 1, b: 1 };
    let peer = Id { a: 2, b: 2 };
    let mut budget = fresh_budget(instance);
    let a = Id { a: 5, b: 5 };
    budget
        .add_account(&Account {
            id: Some(a),
            name: "shared".to_string(),
            balance: 0,
            initial_balance: 0,
            meta_info: meta(instance, 5),
        })
        .unwrap();
    let mut log = Changelog::new();
    log.accounts.removed.push(Account {
        id: Some(a),
        name: "shared".to_string(),
        balance: 0,
        initial_balance: 0,
        meta_info: MetaInfo::new(peer, Some(5), None, Some(9)),
    });
    budget.merge_changes(&log, 1).unwrap();
    assert!(budget.accounts().unwrap().is_empty());
}

#[test]
fn two_instances_converge_through_the_artifact() {
    let i1 = Id { a: 1, b: 1 };
    let i2 = Id { a: 2, b: 2 };

    let mut b1 = fresh_budget(i1);
    b1.initialize().unwrap();
    let a1 = Id { a: 10, b: 10 };
    b1.add_account(&Account {
        id: Some(a1),
        name: "checking".to_string(),
        balance: 1000,
        initial_balance: 1000,
        meta_info: meta(i1, 10),
    })
    .unwrap();
    for (id, amount, ts) in [(Id { a: 11, b: 11 }, 250i64, 20i64), (Id { a: 12, b: 12 }, -100, 30)] {
        b1.add_transaction(&Transaction {
            id: Some(id),
            timestamp: ts,
            description: "x".to_string(),
            account_id: a1,
            category_id: Id { a: 9, b: 9 },
            amount,
            meta_info: meta(i1, ts),
        })
        .unwrap();
    }
    // First cycle: the shared artifact starts empty; the cumulative
    // changelog is exactly the first instance's delta.
    let mut cumulative = Changelog::new();
    let delta1 = b1.export_local_changes(1).unwrap();
    b1.merge_changes(&cumulative, 1).unwrap();
    cumulative.append(delta1);

    // Second instance pulls, merges and appends its own delta.
    let mut b2 = fresh_budget(i2);
    b2.initialize().unwrap();
    let delta2 = b2.export_local_changes(1).unwrap();
    b2.merge_changes(&cumulative, 1).unwrap();
    cumulative.append(delta2);

    let accounts = b2.accounts().unwrap();
    assert_eq!(accounts.len(), 1);
    assert_eq!(accounts[0].balance, 1150);
    assert_eq!(accounts[0].meta_info.origin, i1);
    assert_eq!(b2.transactions().unwrap().len(), 2);

    // Second instance adds its own rows and syncs again.
    let a2 = Id { a: 20, b: 20 };
    b2.add_account(&Account {
        id: Some(a2),
        name: "savings".to_string(),
        balance: 50,
        initial_balance: 50,
        meta_info: meta(i2, 210),
    })
    .unwrap();
    b2.add_transaction(&Transaction {
        id: Some(Id { a: 21, b: 21 }),
        timestamp: 220,
        description: "late fee".to_string(),
        account_id: a1,
        category_id: Id { a: 9, b: 9 },
        amount: -50,
        meta_info: meta(i2, 220),
    })
    .unwrap();
    let delta2b = b2.export_local_changes(200).unwrap();
    b2.merge_changes(&cumulative, 200).unwrap();
    cumulative.append(delta2b);

    // First instance pulls the cumulative changelog and converges.
    let delta1b = b1.export_local_changes(100).unwrap();
    b1.merge_changes(&cumulative, 100).unwrap();
    cumulative.append(delta1b);

    let accounts = b1.accounts().unwrap();
    assert_eq!(accounts.len(), 2);
    let checking = accounts.iter().find(|a| a.name == "checking").unwrap();
    let savings = accounts.iter().find(|a| a.name == "savings").unwrap();
    assert_eq!(checking.balance, 1100);
    assert_eq!(checking.meta_info.origin, i1);
    assert_eq!(savings.balance, 50);
    assert_eq!(savings.meta_info.origin, i2);
    assert_eq!(b1.transactions().unwrap().len(), 3);
    for tx in b1.transactions().unwrap() {
        if tx.id == Some(Id { a: 21, b: 21 }) {
            assert_eq!(tx.meta_info.origin, i2);
        } else {
            assert_eq!(tx.meta_info.origin, i1);
        }
    }
}

#[test]
fn sync_cycle_round_trips_through_the_envelope() {
    let mut b1 = fresh_budget(Id { a: 1, b: 1 });
    b1.add_account(&Account {
        id: Some(Id { a: 10, b: 10 }),
        name: "checking".to_string(),
        balance: 77,
        initial_balance: 77,
        meta_info: meta(Id { a: 1, b: 1 }, 10),
    })
    .unwrap();
    let empty: Vec<u8> = Vec::new();
    let (ts, inst, cl) = b1
        .merge_and_export_changes(&empty, &empty, &empty, 1, 100, b"p")
        .unwrap();
    assert_eq!(ts, 100i64.to_le_bytes().to_vec());
    assert_eq!(inst, Id { a: 1, b: 1 }.to_bytes());

    // The envelope key for password "p" and this header, derived once
    // and recorded; opening the artifact with it must give back the
    // exported delta.
    let key: [u8; 32] = [0xb3, 0x01, 0x66, 0x73, 0xe9, 0x05, 0x78, 0xb4, 0x30, 0x8b, 0x7e, 0xdb, 0xa0, 0x10, 0xba, 0xb8, 0xe3, 0xcc, 0x86, 0x08, 0x01, 0x08, 0xe6, 0xcd, 0x48, 0x1c, 0x40, 0x44, 0xbd, 0x33, 0xb0, 0x20];
    let engine = CryptoEngine::create(MirrorProvider, "k").unwrap();
    let opened = engine.decrypt_symmetric(&key, cl.as_slice()).unwrap();
    let log = Changelog::from_slice(opened.as_bytes()).unwrap();
    assert_eq!(log.accounts.added.len(), 1);
    assert_eq!(log.accounts.added[0].name, "checking");
    assert_eq!(log.accounts.added[0].balance, 77);
}

#[test]
fn sync_import_applies_remote_changelog() {
    // An artifact written by a peer: header plus a changelog sealed
    // under the envelope key for password "right" and that header.
    let peer = Id { a: 9, b: 9 };
    let key: [u8; 32] = [0x36, 0x17, 0xfa, 0xf0, 0x45, 0xe2, 0xc6, 0x1f, 0xba, 0xfd, 0xbe, 0x5c, 0x43, 0x57, 0x5e, 0x0d, 0xe0, 0xe1, 0x47, 0x71, 0xa6, 0xb0, 0x62, 0x95, 0x44, 0xf7, 0xca, 0x91, 0x5e, 0x3d, 0x18, 0x75];
    let mut log = Changelog::new();
    log.accounts.added.push(Account {
        id: Some(Id { a: 30, b: 30 }),
        name: "imported".to_string(),
        balance: 5,
        initial_balance: 5,
        meta_info: meta(peer, 50),
    });
    let engine = CryptoEngine::create(MirrorProvider, "k").unwrap();
    let sealed = engine.encrypt_symmetric(&key, log.to_vec().as_slice()).unwrap();

    // The import side of the cycle, step by step: read the header,
    // open the envelope, decode and merge.
    let ts_file = 100i64.to_le_bytes().to_vec();
    let inst_file = peer.to_bytes();
    let remote_ts = libbdgt::sync::read_timestamp(&ts_file);
    assert_eq!(remote_ts, 100);
    let remote_inst = libbdgt::sync::read_instance(&inst_file).unwrap();
    assert_eq!(remote_inst, peer);
    let salt = libbdgt::sync::make_key_derivation_salt(remote_ts, &remote_inst);
    assert_eq!(salt.len(), 24);
    let opened = engine.decrypt_symmetric(&key, sealed.as_bytes()).unwrap();
    let remote_log = Changelog::from_slice(opened.as_bytes()).unwrap();
    let mut b2 = fresh_budget(Id { a: 2, b: 2 });
    b2.merge_changes(&remote_log, 1).unwrap();
    let accounts = b2.accounts().unwrap();
    assert_eq!(accounts.len(), 1);
    assert_eq!(accounts[0].name, "imported");
    assert_eq!(accounts[0].meta_info.origin, peer);
}

#[test]
fn malformed_artifact_is_rejected() {
    let mut budget = fresh_budget(Id { a: 1, b: 1 });
    let empty: Vec<u8> = Vec::new();
    let ts = vec![0u8; 8];
    let err = budget
        .merge_and_export_changes(&ts, &empty, &empty, 1, 100, b"p")
        .unwrap_err();
    assert_eq!(err.kind(), ErrorKind::MalformedArtifact);
}

#[test]
fn wrong_password_fails_sync() {
    let peer = Id { a: 9, b: 9 };
    let key: [u8; 32] = [0x36, 0x17, 0xfa, 0xf0, 0x45, 0xe2, 0xc6, 0x1f, 0xba, 0xfd, 0xbe, 0x5c, 0x43, 0x57, 0x5e, 0x0d, 0xe0, 0xe1, 0x47, 0x71, 0xa6, 0xb0, 0x62, 0x95, 0x44, 0xf7, 0xca, 0x91, 0x5e, 0x3d, 0x18, 0x75];
    let log = Changelog::new();
    let engine = CryptoEngine::create(MirrorProvider, "k").unwrap();
    let sealed = engine.encrypt_symmetric(&key, log.to_vec().as_slice()).unwrap();
    let ts_file = 100i64.to_le_bytes().to_vec();
    let inst_file = peer.to_bytes();
    let cl_file = sealed.as_bytes().to_vec();
    let mut b2 = fresh_budget(Id { a: 2, b: 2 });
    let err = expect_err(b2.merge_and_export_changes(
        &ts_file,
        &inst_file,
        &cl_file,
        1,
        200,
        b"wrong",
    ));
    assert_eq!(err.kind(), ErrorKind::Decryption);
}

#[test]
fn merge_applies_a_row_added_and_removed_in_one_interval() {
    let instance = Id { a: 1, b: 1 };
    let peer = Id { a: 2, b: 2 };
    let mut budget = fresh_budget(instance);
    let a = Id { a: 5, b: 5 };
    let tx = Id { a: 6, b: 6 };
    let mut log = Changelog::new();
    log.accounts.added.push(Account {
        id: Some(a),
        name: "remote".to_string(),
        balance: 100,
        initial_balance: 100,
        meta_info: meta(peer, 5),
    });
    log.transactions.added.push(Transaction {
        id: Some(tx),
        timestamp: 7,
        description: "short lived".to_string(),
        account_id: a,
        category_id: Id { a: 9, b: 9 },
        amount: 25,
        meta_info: MetaInfo::new(peer, Some(7), None, Some(8)),
    });
    log.transactions.removed.push(Transaction {
        id: Some(tx),
        timestamp: 7,
        description: "short lived".to_string(),
        account_id: a,
        category_id: Id { a: 9, b: 9 },
        amount: 25,
        meta_info: MetaInfo::new(peer, Some(7), None, Some(8)),
    });
    budget.merge_changes(&log, 1).unwrap();
    // The row arrives live (inserts clear removal stamps), is applied to
    // the balance, and the removal then tombstones it and reverses the
    // balance again.
    let accounts = budget.accounts().unwrap();
    assert_eq!(accounts.len(), 1);
    assert_eq!(accounts[0].balance, 100);
    assert!(budget.transactions().unwrap().is_empty());
    assert_eq!(budget.transactions_removed_since(0).unwrap().len(), 1);
}

#[test]
fn second_initialize_reports_the_taken_reserved_id() {
    let mut budget = fresh_budget(Id { a: 1, b: 1 });
    budget.initialize().unwrap();
    let err = expect_err(budget.initialize());
    assert_eq!(err.kind(), ErrorKind::ConsistencyViolation);
}
