use vstd::prelude::*;
use vstd::bytes::{spec_u64_from_le_bytes, spec_u64_to_le_bytes, u64_from_le_bytes, u64_to_le_bytes};
use vstd::bytes::lemma_auto_spec_u64_to_from_le_bytes;
use vstd::utf8::{decode_utf8, encode_utf8, valid_utf8};
use crate::data::{id_bytes, id_from_bytes_spec, lemma_id_bytes_round_trip, CategoryType, Id, MetaInfo};
use crate::data::{AccountV, CategoryV, PlanV, TransactionV};
use crate::changelog::{ChangelogV, SimpleChangelogV};

verus! {

// ------------------------------------------------------------------
// Specification of the binary encoding.
//
// Every value is encoded in a fixed, self-delimiting way:
// unsigned and signed 64-bit integers as eight little-endian bytes,
// identifiers as their sixteen bytes, byte strings and character
// strings with a length prefix, and options with a one-byte tag.
// ------------------------------------------------------------------
/// Encoding of an unsigned 64-bit integer.
pub open spec fn enc_u64(x: u64) -> Seq<u8> {
    spec_u64_to_le_bytes(x)
}

/// Encoding of a signed 64-bit integer: two's complement, little-endian.
pub open spec fn enc_i64(x: i64) -> Seq<u8> {
    spec_u64_to_le_bytes(x as u64)
}

/// Encoding of an identifier.
pub open spec fn enc_id(id: Id) -> Seq<u8> {
    id_bytes(id)
}

/// Encoding of a byte string: length prefix, then the bytes.
pub open spec fn enc_bytes(b: Seq<u8>) -> Seq<u8> {
    enc_u64(b.len() as u64) + b
}

/// Encoding of a character string: its UTF-8 bytes with a length prefix.
pub open spec fn enc_string(s: Seq<char>) -> Seq<u8> {
    enc_bytes(encode_utf8(s))
}

/// Encoding of an optional signed 64-bit integer.
pub open spec fn enc_opt_i64(x: Option<i64>) -> Seq<u8> {
    match x {
        Option::None => seq![0u8],
        Option::Some(v) => seq![1u8] + enc_i64(v),
    }
}

/// Encoding of an optional identifier.
pub open spec fn enc_opt_id(x: Option<Id>) -> Seq<u8> {
    match x {
        Option::None => seq![0u8],
        Option::Some(id) => seq![1u8] + enc_id(id),
    }
}

/// Encoding of a category type: one tag byte.
pub open spec fn enc_category_type(t: CategoryType) -> Seq<u8> {
    match t {
        CategoryType::Income => seq![0u8],
        CategoryType::Outcome => seq![1u8],
    }
}

/// Encoding of row meta information.
pub open spec fn enc_meta(m: MetaInfo) -> Seq<u8> {
    enc_id(m.origin) + enc_opt_i64(m.added_timestamp) + enc_opt_i64(m.changed_timestamp)
        + enc_opt_i64(m.removed_timestamp)
}

// ------------------------------------------------------------------
// Specification of decoding. Each decoder takes the input from the
// current position on and yields the decoded value and the number of
// consumed bytes, or nothing when the input is malformed.
// ------------------------------------------------------------------
/// Decoding of an unsigned 64-bit integer.
pub open spec fn dec_u64(s: Seq<u8>) -> Option<(u64, int)> {
    if s.len() >= 8 {
        Some((spec_u64_from_le_bytes(s.take(8)), 8int))
    } else {
        None
    }
}

/// Decoding of a signed 64-bit integer.
pub open spec fn dec_i64(s: Seq<u8>) -> Option<(i64, int)> {
    match dec_u64(s) {
        Option::None => None,
        Option::Some((x, used)) => Some((x as i64, used)),
    }
}

/// Decoding of an identifier.
pub open spec fn dec_id(s: Seq<u8>) -> Option<(Id, int)> {
    if s.len() >= 16 {
        Some((id_from_bytes_spec(s.take(16)), 16int))
    } else {
        None
    }
}

/// Decoding of a byte string.
pub open spec fn dec_bytes(s: Seq<u8>) -> Option<(Seq<u8>, int)> {
    match dec_u64(s) {
        Option::None => None,
        Option::Some((n, used)) => if s.len() - used >= n {
            Some((s.subrange(used, used + n), used + n))
        } else {
            None
        },
    }
}

/// Decoding of a character string. The byte payload must be valid UTF-8.
pub open spec fn dec_string(s: Seq<u8>) -> Option<(Seq<char>, int)> {
    match dec_bytes(s) {
        Option::None => None,
        Option::Some((b, used)) => if valid_utf8(b) {
            Some((decode_utf8(b), used))
        } else {
            None
        },
    }
}

/// Decoding of an optional signed 64-bit integer.
pub open spec fn dec_opt_i64(s: Seq<u8>) -> Option<(Option<i64>, int)> {
    if s.len() < 1 {
        None
    } else if s[0] == 0u8 {
        Some((Option::<i64>::None, 1int))
    } else if s[0] == 1u8 {
        match dec_i64(s.skip(1)) {
            Option::None => None,
            Option::Some((x, used)) => Some((Some(x), 1 + used)),
        }
    } else {
        None
    }
}

/// Decoding of an optional identifier.
pub open spec fn dec_opt_id(s: Seq<u8>) -> Option<(Option<Id>, int)> {
    if s.len() < 1 {
        None
    } else if s[0] == 0u8 {
        Some((Option::<Id>::None, 1int))
    } else if s[0] == 1u8 {
        match dec_id(s.skip(1)) {
            Option::None => None,
            Option::Some((id, used)) => Some((Some(id), 1 + used)),
        }
    } else {
        None
    }
}

/// Decoding of a category type.
pub open spec fn dec_category_type(s: Seq<u8>) -> Option<(CategoryType, int)> {
    if s.len() < 1 {
        None
    } else if s[0] == 0u8 {
        Some((CategoryType::Income, 1int))
    } else if s[0] == 1u8 {
        Some((CategoryType::Outcome, 1int))
    } else {
        None
    }
}

/// Decoding of row meta information.
pub open spec fn dec_meta(s: Seq<u8>) -> Option<(MetaInfo, int)> {
    match dec_id(s) {
        Option::None => None,
        Option::Some((origin, u1)) => match dec_opt_i64(s.skip(u1)) {
            Option::None => None,
            Option::Some((added, u2)) => match dec_opt_i64(s.skip(u1 + u2)) {
                Option::None => None,
                Option::Some((changed, u3)) => match dec_opt_i64(s.skip(u1 + u2 + u3)) {
                    Option::None => None,
                    Option::Some((removed, u4)) => Some(
                        (
                            MetaInfo {
                                origin,
                                added_timestamp: added,
                                changed_timestamp: changed,
                                removed_timestamp: removed,
                            },
                            u1 + u2 + u3 + u4,
                        ),
                    ),
                },
            },
        },
    }
}

// ------------------------------------------------------------------
// Round-trip lemmas: decoding an encoding, followed by anything,
// yields the encoded value and consumes exactly the encoding.
// ------------------------------------------------------------------
/// Decoding inverts [`enc_u64`].
pub proof fn lemma_dec_enc_u64(x: u64, rest: Seq<u8>)
    ensures
        enc_u64(x).len() == 8,
        dec_u64(enc_u64(x) + rest) == Some((x, 8int)),
{
    lemma_auto_spec_u64_to_from_le_bytes();
    assert((enc_u64(x) + rest).take(8) =~= enc_u64(x));
}

/// Decoding inverts [`enc_i64`].
pub proof fn lemma_dec_enc_i64(x: i64, rest: Seq<u8>)
    ensures
        enc_i64(x).len() == 8,
        dec_i64(enc_i64(x) + rest) == Some((x, 8int)),
{
    lemma_dec_enc_u64(x as u64, rest);
    assert((x as u64) as i64 == x) by (bit_vector);
}

/// Decoding inverts [`enc_id`].
pub proof fn lemma_dec_enc_id(id: Id, rest: Seq<u8>)
    ensures
        enc_id(id).len() == 16,
        dec_id(enc_id(id) + rest) == Some((id, 16int)),
{
    lemma_id_bytes_round_trip();
    assert((enc_id(id) + rest).take(16) =~= enc_id(id));
}

/// Decoding inverts [`enc_bytes`].
pub proof fn lemma_dec_enc_bytes(b: Seq<u8>, rest: Seq<u8>)
    requires
        b.len() <= u64::MAX,
    ensures
        enc_bytes(b).len() == 8 + b.len(),
        dec_bytes(enc_bytes(b) + rest) == Some((b, 8 + b.len() as int)),
{
    let n = b.len() as u64;
    lemma_dec_enc_u64(n, b + rest);
    assert(enc_bytes(b) + rest =~= enc_u64(n) + (b + rest));
    let s = enc_bytes(b) + rest;
    assert(s.subrange(8, 8 + b.len() as int) =~= b);
}

/// Decoding inverts [`enc_string`].
pub proof fn lemma_dec_enc_string(c: Seq<char>, rest: Seq<u8>)
    requires
        encode_utf8(c).len() <= u64::MAX,
    ensures
        enc_string(c).len() == 8 + encode_utf8(c).len(),
        dec_string(enc_string(c) + rest) == Some((c, 8 + encode_utf8(c).len() as int)),
{
    broadcast use vstd::utf8::encode_utf8_valid_utf8;
    broadcast use vstd::utf8::encode_utf8_decode_utf8;

    lemma_dec_enc_bytes(encode_utf8(c), rest);
}

/// Decoding inverts [`enc_opt_i64`].
pub proof fn lemma_dec_enc_opt_i64(x: Option<i64>, rest: Seq<u8>)
    ensures
        enc_opt_i64(x).len() == (if x is Some { 9int } else { 1int }),
        dec_opt_i64(enc_opt_i64(x) + rest) == Some((x, enc_opt_i64(x).len() as int)),
{
    match x {
        Option::None => {
            assert((enc_opt_i64(x) + rest)[0] == 0u8);
        },
        Option::Some(v) => {
            let s = enc_opt_i64(x) + rest;
            assert(s[0] == 1u8);
            assert(s.skip(1) =~= enc_i64(v) + rest);
            lemma_dec_enc_i64(v, rest);
        },
    }
}

/// Decoding inverts [`enc_opt_id`].
pub proof fn lemma_dec_enc_opt_id(x: Option<Id>, rest: Seq<u8>)
    ensures
        enc_opt_id(x).len() == (if x is Some { 17int } else { 1int }),
        dec_opt_id(enc_opt_id(x) + rest) == Some((x, enc_opt_id(x).len() as int)),
{
    match x {
        Option::None => {
            assert((enc_opt_id(x) + rest)[0] == 0u8);
        },
        Option::Some(id) => {
            let s = enc_opt_id(x) + rest;
            assert(s[0] == 1u8);
            assert(s.skip(1) =~= enc_id(id) + rest);
            lemma_dec_enc_id(id, rest);
        },
    }
}

/// Decoding inverts [`enc_category_type`].
pub proof fn lemma_dec_enc_category_type(t: CategoryType, rest: Seq<u8>)
    ensures
        enc_category_type(t).len() == 1,
        dec_category_type(enc_category_type(t) + rest) == Some((t, 1int)),
{
    let s = enc_category_type(t) + rest;
    match t {
        CategoryType::Income => {
            assert(s[0] == 0u8);
        },
        CategoryType::Outcome => {
            assert(s[0] == 1u8);
        },
    }
}

/// Decoding inverts [`enc_meta`].
#[verifier::rlimit(60)]
pub proof fn lemma_dec_enc_meta(m: MetaInfo, rest: Seq<u8>)
    ensures
        enc_meta(m).len() <= 43,
        dec_meta(enc_meta(m) + rest) == Some((m, enc_meta(m).len() as int)),
{
    let e1 = enc_id(m.origin);
    let e2 = enc_opt_i64(m.added_timestamp);
    let e3 = enc_opt_i64(m.changed_timestamp);
    let e4 = enc_opt_i64(m.removed_timestamp);
    let s = enc_meta(m) + rest;
    assert(s =~= e1 + (e2 + (e3 + (e4 + rest))));
    lemma_dec_enc_id(m.origin, e2 + (e3 + (e4 + rest)));
    assert(s.skip(e1.len() as int) =~= e2 + (e3 + (e4 + rest)));
    lemma_dec_enc_opt_i64(m.added_timestamp, e3 + (e4 + rest));
    assert(s.skip(e1.len() + e2.len() as int) =~= e3 + (e4 + rest));
    lemma_dec_enc_opt_i64(m.changed_timestamp, e4 + rest);
    assert(s.skip(e1.len() + e2.len() + e3.len() as int) =~= e4 + rest);
    lemma_dec_enc_opt_i64(m.removed_timestamp, rest);
}

// ------------------------------------------------------------------
// Entity encodings.
// ------------------------------------------------------------------
/// Whether a character string fits under the length prefix.
pub open spec fn str_encodable(s: Seq<char>) -> bool {
    encode_utf8(s).len() <= u64::MAX
}

/// Whether a transaction can be encoded.
pub open spec fn tx_encodable(t: TransactionV) -> bool {
    str_encodable(t.description)
}

/// Whether an account can be encoded.
pub open spec fn account_encodable(a: AccountV) -> bool {
    str_encodable(a.name)
}

/// Whether a category can be encoded.
pub open spec fn category_encodable(c: CategoryV) -> bool {
    str_encodable(c.name)
}

/// Whether a plan can be encoded.
pub open spec fn plan_encodable(p: PlanV) -> bool {
    str_encodable(p.name)
}

/// Encoding of a plaintext transaction.
pub open spec fn enc_transaction(t: TransactionV) -> Seq<u8> {
    enc_opt_id(t.id) + enc_i64(t.timestamp) + enc_string(t.description) + enc_id(t.account_id)
        + enc_id(t.category_id) + enc_i64(t.amount) + enc_meta(t.meta_info)
}

/// Decoding of a plaintext transaction.
pub open spec fn dec_transaction(s: Seq<u8>) -> Option<(TransactionV, int)> {
    match dec_opt_id(s) {
        Option::None => None,
        Option::Some((id, u1)) => match dec_i64(s.skip(u1)) {
            Option::None => None,
            Option::Some((timestamp, u2)) => match dec_string(s.skip(u1 + u2)) {
                Option::None => None,
                Option::Some((description, u3)) => match dec_id(s.skip(u1 + u2 + u3)) {
                    Option::None => None,
                    Option::Some((account_id, u4)) => match dec_id(s.skip(u1 + u2 + u3 + u4)) {
                        Option::None => None,
                        Option::Some((category_id, u5)) => match dec_i64(
                            s.skip(u1 + u2 + u3 + u4 + u5),
                        ) {
                            Option::None => None,
                            Option::Some((amount, u6)) => match dec_meta(
                                s.skip(u1 + u2 + u3 + u4 + u5 + u6),
                            ) {
                                Option::None => None,
                                Option::Some((meta_info, u7)) => Some(
                                    (
                                        TransactionV {
                                            id,
                                            timestamp,
                                            description,
                                            account_id,
                                            category_id,
                                            amount,
                                            meta_info,
                                        },
                                        u1 + u2 + u3 + u4 + u5 + u6 + u7,
                                    ),
                                ),
                            },
                        },
                    },
                },
            },
        },
    }
}

/// Decoding inverts [`enc_transaction`].
#[verifier::rlimit(100)]
#[verifier::spinoff_prover]
pub proof fn lemma_dec_enc_transaction(t: TransactionV, rest: Seq<u8>)
    requires
        tx_encodable(t),
    ensures
        dec_transaction(enc_transaction(t) + rest) == Some(
            (t, enc_transaction(t).len() as int),
        ),
{
    let e1 = enc_opt_id(t.id);
    let e2 = enc_i64(t.timestamp);
    let e3 = enc_string(t.description);
    let e4 = enc_id(t.account_id);
    let e5 = enc_id(t.category_id);
    let e6 = enc_i64(t.amount);
    let e7 = enc_meta(t.meta_info);
    let s = enc_transaction(t) + rest;
    assert(s =~= e1 + (e2 + (e3 + (e4 + (e5 + (e6 + (e7 + rest)))))));
    lemma_dec_enc_opt_id(t.id, e2 + (e3 + (e4 + (e5 + (e6 + (e7 + rest))))));
    assert(s.skip(e1.len() as int) =~= e2 + (e3 + (e4 + (e5 + (e6 + (e7 + rest))))));
    lemma_dec_enc_i64(t.timestamp, e3 + (e4 + (e5 + (e6 + (e7 + rest)))));
    assert(s.skip(e1.len() + e2.len() as int) =~= e3 + (e4 + (e5 + (e6 + (e7 + rest)))));
    lemma_dec_enc_string(t.description, e4 + (e5 + (e6 + (e7 + rest))));
    assert(s.skip(e1.len() + e2.len() + e3.len() as int) =~= e4 + (e5 + (e6 + (e7 + rest))));
    lemma_dec_enc_id(t.account_id, e5 + (e6 + (e7 + rest)));
    assert(s.skip(e1.len() + e2.len() + e3.len() + e4.len() as int) =~= e5 + (e6 + (e7 + rest)));
    lemma_dec_enc_id(t.category_id, e6 + (e7 + rest));
    assert(s.skip(e1.len() + e2.len() + e3.len() + e4.len() + e5.len() as int) =~= e6 + (e7
        + rest));
    lemma_dec_enc_i64(t.amount, e7 + rest);
    assert(s.skip(e1.len() + e2.len() + e3.len() + e4.len() + e5.len() + e6.len() as int) =~= e7
        + rest);
    lemma_dec_enc_meta(t.meta_info, rest);
}

/// Encoding of a plaintext account.
pub open spec fn enc_account(a: AccountV) -> Seq<u8> {
    enc_opt_id(a.id) + enc_string(a.name) + enc_i64(a.balance) + enc_i64(a.initial_balance)
        + enc_meta(a.meta_info)
}

/// Decoding of a plaintext account.
pub open spec fn dec_account(s: Seq<u8>) -> Option<(AccountV, int)> {
    match dec_opt_id(s) {
        Option::None => None,
        Option::Some((id, u1)) => match dec_string(s.skip(u1)) {
            Option::None => None,
            Option::Some((name, u2)) => match dec_i64(s.skip(u1 + u2)) {
                Option::None => None,
                Option::Some((balance, u3)) => match dec_i64(s.skip(u1 + u2 + u3)) {
                    Option::None => None,
                    Option::Some((initial_balance, u4)) => match dec_meta(
                        s.skip(u1 + u2 + u3 + u4),
                    ) {
                        Option::None => None,
                        Option::Some((meta_info, u5)) => Some(
                            (
                                AccountV { id, name, balance, initial_balance, meta_info },
                                u1 + u2 + u3 + u4 + u5,
                            ),
                        ),
                    },
                },
            },
        },
    }
}

/// Decoding inverts [`enc_account`].
#[verifier::rlimit(100)]
#[verifier::spinoff_prover]
pub proof fn lemma_dec_enc_account(a: AccountV, rest: Seq<u8>)
    requires
        account_encodable(a),
    ensures
        dec_account(enc_account(a) + rest) == Some((a, enc_account(a).len() as int)),
{
    let e1 = enc_opt_id(a.id);
    let e2 = enc_string(a.name);
    let e3 = enc_i64(a.balance);
    let e4 = enc_i64(a.initial_balance);
    let e5 = enc_meta(a.meta_info);
    let s = enc_account(a) + rest;
    assert(s =~= e1 + (e2 + (e3 + (e4 + (e5 + rest)))));
    lemma_dec_enc_opt_id(a.id, e2 + (e3 + (e4 + (e5 + rest))));
    assert(s.skip(e1.len() as int) =~= e2 + (e3 + (e4 + (e5 + rest))));
    lemma_dec_enc_string(a.name, e3 + (e4 + (e5 + rest)));
    assert(s.skip(e1.len() + e2.len() as int) =~= e3 + (e4 + (e5 + rest)));
    lemma_dec_enc_i64(a.balance, e4 + (e5 + rest));
    assert(s.skip(e1.len() + e2.len() + e3.len() as int) =~= e4 + (e5 + rest));
    lemma_dec_enc_i64(a.initial_balance, e5 + rest);
    assert(s.skip(e1.len() + e2.len() + e3.len() + e4.len() as int) =~= e5 + rest);
    lemma_dec_enc_meta(a.meta_info, rest);
}

/// Encoding of a plaintext category.
pub open spec fn enc_category(c: CategoryV) -> Seq<u8> {
    enc_opt_id(c.id) + enc_string(c.name) + enc_category_type(c.category_type) + enc_meta(
        c.meta_info,
    )
}

/// Decoding of a plaintext category.
pub open spec fn dec_category(s: Seq<u8>) -> Option<(CategoryV, int)> {
    match dec_opt_id(s) {
        Option::None => None,
        Option::Some((id, u1)) => match dec_string(s.skip(u1)) {
            Option::None => None,
            Option::Some((name, u2)) => match dec_category_type(s.skip(u1 + u2)) {
                Option::None => None,
                Option::Some((category_type, u3)) => match dec_meta(s.skip(u1 + u2 + u3)) {
                    Option::None => None,
                    Option::Some((meta_info, u4)) => Some(
                        (CategoryV { id, name, category_type, meta_info }, u1 + u2 + u3 + u4),
                    ),
                },
            },
        },
    }
}

/// Decoding inverts [`enc_category`].
#[verifier::rlimit(100)]
#[verifier::spinoff_prover]
pub proof fn lemma_dec_enc_category(c: CategoryV, rest: Seq<u8>)
    requires
        category_encodable(c),
    ensures
        dec_category(enc_category(c) + rest) == Some((c, enc_category(c).len() as int)),
{
    let e1 = enc_opt_id(c.id);
    let e2 = enc_string(c.name);
    let e3 = enc_category_type(c.category_type);
    let e4 = enc_meta(c.meta_info);
    let s = enc_category(c) + rest;
    assert(s =~= e1 + (e2 + (e3 + (e4 + rest))));
    lemma_dec_enc_opt_id(c.id, e2 + (e3 + (e4 + rest)));
    assert(s.skip(e1.len() as int) =~= e2 + (e3 + (e4 + rest)));
    lemma_dec_enc_string(c.name, e3 + (e4 + rest));
    assert(s.skip(e1.len() + e2.len() as int) =~= e3 + (e4 + rest));
    lemma_dec_enc_category_type(c.category_type, e4 + rest);
    assert(s.skip(e1.len() + e2.len() + e3.len() as int) =~= e4 + rest);
    lemma_dec_enc_meta(c.meta_info, rest);
}

/// Encoding of a plaintext plan.
pub open spec fn enc_plan(p: PlanV) -> Seq<u8> {
    enc_opt_id(p.id) + enc_id(p.category_id) + enc_string(p.name) + enc_i64(p.amount_limit)
        + enc_meta(p.meta_info)
}

/// Decoding of a plaintext plan.
pub open spec fn dec_plan(s: Seq<u8>) -> Option<(PlanV, int)> {
    match dec_opt_id(s) {
        Option::None => None,
        Option::Some((id, u1)) => match dec_id(s.skip(u1)) {
            Option::None => None,
            Option::Some((category_id, u2)) => match dec_string(s.skip(u1 + u2)) {
                Option::None => None,
                Option::Some((name, u3)) => match dec_i64(s.skip(u1 + u2 + u3)) {
                    Option::None => None,
                    Option::Some((amount_limit, u4)) => match dec_meta(s.skip(u1 + u2 + u3 + u4)) {
                        Option::None => None,
                        Option::Some((meta_info, u5)) => Some(
                            (
                                PlanV { id, category_id, name, amount_limit, meta_info },
                                u1 + u2 + u3 + u4 + u5,
                            ),
                        ),
                    },
                },
            },
        },
    }
}

/// Decoding inverts [`enc_plan`].
#[verifier::rlimit(100)]
#[verifier::spinoff_prover]
pub proof fn lemma_dec_enc_plan(p: PlanV, rest: Seq<u8>)
    requires
        plan_encodable(p),
    ensures
        dec_plan(enc_plan(p) + rest) == Some((p, enc_plan(p).len() as int)),
{
    let e1 = enc_opt_id(p.id);
    let e2 = enc_id(p.category_id);
    let e3 = enc_string(p.name);
    let e4 = enc_i64(p.amount_limit);
    let e5 = enc_meta(p.meta_info);
    let s = enc_plan(p) + rest;
    assert(s =~= e1 + (e2 + (e3 + (e4 + (e5 + rest)))));
    lemma_dec_enc_opt_id(p.id, e2 + (e3 + (e4 + (e5 + rest))));
    assert(s.skip(e1.len() as int) =~= e2 + (e3 + (e4 + (e5 + rest))));
    lemma_dec_enc_id(p.category_id, e3 + (e4 + (e5 + rest)));
    assert(s.skip(e1.len() + e2.len() as int) =~= e3 + (e4 + (e5 + rest)));
    lemma_dec_enc_string(p.name, e4 + (e5 + rest));
    assert(s.skip(e1.len() + e2.len() + e3.len() as int) =~= e4 + (e5 + rest));
    lemma_dec_enc_i64(p.amount_limit, e5 + rest);
    assert(s.skip(e1.len() + e2.len() + e3.len() + e4.len() as int) =~= e5 + rest);
    lemma_dec_enc_meta(p.meta_info, rest);
}

// ------------------------------------------------------------------
// Lists: a count prefix, then the elements one after another.
// ------------------------------------------------------------------
/// Encoding of the elements of a list, one after another.
pub open spec fn enc_list_body<TV>(items: Seq<TV>, f: spec_fn(TV) -> Seq<u8>) -> Seq<u8>
    decreases items.len(),
{
    if items.len() == 0 {
        Seq::<u8>::empty()
    } else {
        f(items[0]) + enc_list_body(items.drop_first(), f)
    }
}

/// Encoding of a list: element count, then the elements.
pub open spec fn enc_list<TV>(items: Seq<TV>, f: spec_fn(TV) -> Seq<u8>) -> Seq<u8> {
    enc_u64(items.len() as u64) + enc_list_body(items, f)
}

/// Decoding of `n` consecutive elements.
pub open spec fn dec_list_body<TV>(
    s: Seq<u8>,
    n: nat,
    g: spec_fn(Seq<u8>) -> Option<(TV, int)>,
) -> Option<(Seq<TV>, int)>
    decreases n,
{
    if n == 0 {
        Some((Seq::<TV>::empty(), 0int))
    } else {
        match g(s) {
            Option::None => None,
            Option::Some((v, u)) => match dec_list_body(s.skip(u), (n - 1) as nat, g) {
                Option::None => None,
                Option::Some((vs, u2)) => Some((seq![v] + vs, u + u2)),
            },
        }
    }
}

/// Decoding of a list with its count prefix.
pub open spec fn dec_list<TV>(s: Seq<u8>, g: spec_fn(Seq<u8>) -> Option<(TV, int)>) -> Option<
    (Seq<TV>, int),
> {
    match dec_u64(s) {
        Option::None => None,
        Option::Some((n, u)) => match dec_list_body(s.skip(u), n as nat, g) {
            Option::None => None,
            Option::Some((vs, u2)) => Some((vs, u + u2)),
        },
    }
}

/// Decoding inverts [`enc_list_body`] when element decoding inverts
/// element encoding for every well-formed element.
pub proof fn lemma_dec_enc_list_body<TV>(
    items: Seq<TV>,
    rest: Seq<u8>,
    wf: spec_fn(TV) -> bool,
    f: spec_fn(TV) -> Seq<u8>,
    g: spec_fn(Seq<u8>) -> Option<(TV, int)>,
)
    requires
        forall|i: int| 0 <= i < items.len() ==> #[trigger] wf(items[i]),
        forall|v: TV, r: Seq<u8>|
            wf(v) ==> #[trigger] g(f(v) + r) == Some((v, f(v).len() as int)),
    ensures
        dec_list_body(enc_list_body(items, f) + rest, items.len() as nat, g) == Some(
            (items, enc_list_body(items, f).len() as int),
        ),
    decreases items.len(),
{
    if items.len() == 0 {
        assert(enc_list_body(items, f) + rest =~= rest);
        assert(items =~= Seq::<TV>::empty());
    } else {
        let hd = items[0];
        let tl = items.drop_first();
        assert(wf(hd));
        let s = enc_list_body(items, f) + rest;
        assert(s =~= f(hd) + (enc_list_body(tl, f) + rest));
        assert(g(f(hd) + (enc_list_body(tl, f) + rest)) == Some((hd, f(hd).len() as int)));
        assert(forall|i: int| 0 <= i < tl.len() ==> #[trigger] wf(tl[i]));
        lemma_dec_enc_list_body(tl, rest, wf, f, g);
        assert(s.skip(f(hd).len() as int) =~= enc_list_body(tl, f) + rest);
        assert(seq![hd] + tl =~= items);
    }
}

/// Decoding inverts [`enc_list`] under the same element condition.
pub proof fn lemma_dec_enc_list<TV>(
    items: Seq<TV>,
    rest: Seq<u8>,
    wf: spec_fn(TV) -> bool,
    f: spec_fn(TV) -> Seq<u8>,
    g: spec_fn(Seq<u8>) -> Option<(TV, int)>,
)
    requires
        items.len() <= u64::MAX,
        forall|i: int| 0 <= i < items.len() ==> #[trigger] wf(items[i]),
        forall|v: TV, r: Seq<u8>|
            wf(v) ==> #[trigger] g(f(v) + r) == Some((v, f(v).len() as int)),
    ensures
        dec_list(enc_list(items, f) + rest, g) == Some((items, enc_list(items, f).len() as int)),
{
    let n = items.len() as u64;
    let body = enc_list_body(items, f);
    lemma_dec_enc_u64(n, body + rest);
    assert(enc_list(items, f) + rest =~= enc_u64(n) + (body + rest));
    lemma_dec_enc_list_body(items, rest, wf, f, g);
    assert((enc_list(items, f) + rest).skip(8) =~= body + rest);
}

/// Appending an element extends the encoded list body at its end.
pub proof fn lemma_enc_list_body_push<TV>(items: Seq<TV>, x: TV, f: spec_fn(TV) -> Seq<u8>)
    ensures
        enc_list_body(items.push(x), f) == enc_list_body(items, f) + f(x),
    decreases items.len(),
{
    if items.len() == 0 {
        assert(items.push(x)[0] == x);
        assert(items.push(x).drop_first() =~= items);
        assert(enc_list_body(items.push(x), f) =~= enc_list_body(items, f) + f(x));
    } else {
        assert(items.push(x)[0] == items[0]);
        assert(items.push(x).drop_first() =~= items.drop_first().push(x));
        lemma_enc_list_body_push(items.drop_first(), x, f);
        assert(enc_list_body(items.push(x), f) =~= enc_list_body(items, f) + f(x));
    }
}

// ------------------------------------------------------------------
// Named element codecs, so that one and the same function value is
// shared by every encoder, decoder and lemma.
// ------------------------------------------------------------------
/// The transaction encoder as a function value.
pub open spec fn tx_enc_fn() -> spec_fn(TransactionV) -> Seq<u8> {
    |t: TransactionV| enc_transaction(t)
}

/// The transaction decoder as a function value.
pub open spec fn tx_dec_fn() -> spec_fn(Seq<u8>) -> Option<(TransactionV, int)> {
    |s: Seq<u8>| dec_transaction(s)
}

/// The transaction well-formedness condition as a function value.
pub open spec fn tx_wf_fn() -> spec_fn(TransactionV) -> bool {
    |t: TransactionV| tx_encodable(t)
}

/// The account encoder as a function value.
pub open spec fn account_enc_fn() -> spec_fn(AccountV) -> Seq<u8> {
    |a: AccountV| enc_account(a)
}

/// The account decoder as a function value.
pub open spec fn account_dec_fn() -> spec_fn(Seq<u8>) -> Option<(AccountV, int)> {
    |s: Seq<u8>| dec_account(s)
}

/// The account well-formedness condition as a function value.
pub open spec fn account_wf_fn() -> spec_fn(AccountV) -> bool {
    |a: AccountV| account_encodable(a)
}

/// The category encoder as a function value.
pub open spec fn category_enc_fn() -> spec_fn(CategoryV) -> Seq<u8> {
    |c: CategoryV| enc_category(c)
}

/// The category decoder as a function value.
pub open spec fn category_dec_fn() -> spec_fn(Seq<u8>) -> Option<(CategoryV, int)> {
    |s: Seq<u8>| dec_category(s)
}

/// The category well-formedness condition as a function value.
pub open spec fn category_wf_fn() -> spec_fn(CategoryV) -> bool {
    |c: CategoryV| category_encodable(c)
}

/// The plan encoder as a function value.
pub open spec fn plan_enc_fn() -> spec_fn(PlanV) -> Seq<u8> {
    |p: PlanV| enc_plan(p)
}

/// The plan decoder as a function value.
pub open spec fn plan_dec_fn() -> spec_fn(Seq<u8>) -> Option<(PlanV, int)> {
    |s: Seq<u8>| dec_plan(s)
}

/// The plan well-formedness condition as a function value.
pub open spec fn plan_wf_fn() -> spec_fn(PlanV) -> bool {
    |p: PlanV| plan_encodable(p)
}

// ------------------------------------------------------------------
// The whole changelog: for each entity kind in the fixed order
// accounts, categories, transactions, plans, the three lists added,
// changed, removed.
// ------------------------------------------------------------------
/// Encoding of one entity kind's changelog.
#[verifier::opaque]
pub open spec fn enc_simple<TV>(c: SimpleChangelogV<TV>, f: spec_fn(TV) -> Seq<u8>) -> Seq<u8> {
    enc_list(c.added, f) + enc_list(c.changed, f) + enc_list(c.removed, f)
}

/// Decoding of one entity kind's changelog.
#[verifier::opaque]
pub open spec fn dec_simple<TV>(s: Seq<u8>, g: spec_fn(Seq<u8>) -> Option<(TV, int)>) -> Option<
    (SimpleChangelogV<TV>, int),
> {
    match dec_list(s, g) {
        Option::None => None,
        Option::Some((added, u1)) => match dec_list(s.skip(u1), g) {
            Option::None => None,
            Option::Some((changed, u2)) => match dec_list(s.skip(u1 + u2), g) {
                Option::None => None,
                Option::Some((removed, u3)) => Some(
                    (SimpleChangelogV { added, changed, removed }, u1 + u2 + u3),
                ),
            },
        },
    }
}

/// Whether one entity kind's changelog can be encoded.
pub open spec fn simple_encodable<TV>(c: SimpleChangelogV<TV>, wf: spec_fn(TV) -> bool) -> bool {
    &&& c.added.len() <= u64::MAX
    &&& c.changed.len() <= u64::MAX
    &&& c.removed.len() <= u64::MAX
    &&& forall|i: int| 0 <= i < c.added.len() ==> #[trigger] wf(c.added[i])
    &&& forall|i: int| 0 <= i < c.changed.len() ==> #[trigger] wf(c.changed[i])
    &&& forall|i: int| 0 <= i < c.removed.len() ==> #[trigger] wf(c.removed[i])
}

/// Decoding inverts [`enc_simple`] under the element condition.
pub proof fn lemma_dec_enc_simple<TV>(
    c: SimpleChangelogV<TV>,
    rest: Seq<u8>,
    wf: spec_fn(TV) -> bool,
    f: spec_fn(TV) -> Seq<u8>,
    g: spec_fn(Seq<u8>) -> Option<(TV, int)>,
)
    requires
        simple_encodable(c, wf),
        forall|v: TV, r: Seq<u8>|
            wf(v) ==> #[trigger] g(f(v) + r) == Some((v, f(v).len() as int)),
    ensures
        dec_simple(enc_simple(c, f) + rest, g) == Some((c, enc_simple(c, f).len() as int)),
{
    reveal(enc_simple);
    reveal(dec_simple);
    let e1 = enc_list(c.added, f);
    let e2 = enc_list(c.changed, f);
    let e3 = enc_list(c.removed, f);
    let s = enc_simple(c, f) + rest;
    assert(s =~= e1 + (e2 + (e3 + rest)));
    lemma_dec_enc_list(c.added, e2 + (e3 + rest), wf, f, g);
    assert(s.skip(e1.len() as int) =~= e2 + (e3 + rest));
    lemma_dec_enc_list(c.changed, e3 + rest, wf, f, g);
    assert(s.skip(e1.len() + e2.len() as int) =~= e3 + rest);
    lemma_dec_enc_list(c.removed, rest, wf, f, g);
    assert(SimpleChangelogV { added: c.added, changed: c.changed, removed: c.removed } == c);
}

/// Encoding of a whole changelog.
pub open spec fn enc_changelog(c: ChangelogV) -> Seq<u8> {
    enc_simple(c.accounts, account_enc_fn()) + enc_simple(c.categories, category_enc_fn())
        + enc_simple(c.transactions, tx_enc_fn()) + enc_simple(c.plans, plan_enc_fn())
}

/// Decoding of a whole changelog.
pub open spec fn dec_changelog(s: Seq<u8>) -> Option<(ChangelogV, int)> {
    match dec_simple(s, account_dec_fn()) {
        Option::None => None,
        Option::Some((accounts, u1)) => match dec_simple(s.skip(u1), category_dec_fn()) {
            Option::None => None,
            Option::Some((categories, u2)) => match dec_simple(s.skip(u1 + u2), tx_dec_fn()) {
                Option::None => None,
                Option::Some((transactions, u3)) => match dec_simple(
                    s.skip(u1 + u2 + u3),
                    plan_dec_fn(),
                ) {
                    Option::None => None,
                    Option::Some((plans, u4)) => Some(
                        (ChangelogV { accounts, categories, transactions, plans }, u1 + u2 + u3
                            + u4),
                    ),
                },
            },
        },
    }
}

/// Whether a whole changelog can be encoded.
pub open spec fn changelog_encodable(c: ChangelogV) -> bool {
    &&& simple_encodable(c.accounts, account_wf_fn())
    &&& simple_encodable(c.categories, category_wf_fn())
    &&& simple_encodable(c.transactions, tx_wf_fn())
    &&& simple_encodable(c.plans, plan_wf_fn())
}

/// The named account decoder inverts the named account encoder.
pub proof fn lemma_account_fn_inverts()
    ensures
        forall|v: AccountV, r: Seq<u8>|
            account_wf_fn()(v) ==> #[trigger] account_dec_fn()(account_enc_fn()(v) + r) == Some(
                (v, account_enc_fn()(v).len() as int),
            ),
{
    assert forall|v: AccountV, r: Seq<u8>| account_wf_fn()(v) implies #[trigger] account_dec_fn()(
        account_enc_fn()(v) + r,
    ) == Some((v, account_enc_fn()(v).len() as int)) by {
        lemma_dec_enc_account(v, r);
    }
}

/// The named category decoder inverts the named category encoder.
pub proof fn lemma_category_fn_inverts()
    ensures
        forall|v: CategoryV, r: Seq<u8>|
            category_wf_fn()(v) ==> #[trigger] category_dec_fn()(category_enc_fn()(v) + r) == Some(
                (v, category_enc_fn()(v).len() as int),
            ),
{
    assert forall|v: CategoryV, r: Seq<u8>| category_wf_fn()(v) implies #[trigger] category_dec_fn()(
        category_enc_fn()(v) + r,
    ) == Some((v, category_enc_fn()(v).len() as int)) by {
        lemma_dec_enc_category(v, r);
    }
}

/// The named transaction decoder inverts the named transaction encoder.
pub proof fn lemma_tx_fn_inverts()
    ensures
        forall|v: TransactionV, r: Seq<u8>|
            tx_wf_fn()(v) ==> #[trigger] tx_dec_fn()(tx_enc_fn()(v) + r) == Some(
                (v, tx_enc_fn()(v).len() as int),
            ),
{
    assert forall|v: TransactionV, r: Seq<u8>| tx_wf_fn()(v) implies #[trigger] tx_dec_fn()(
        tx_enc_fn()(v) + r,
    ) == Some((v, tx_enc_fn()(v).len() as int)) by {
        lemma_dec_enc_transaction(v, r);
    }
}

/// The named plan decoder inverts the named plan encoder.
pub proof fn lemma_plan_fn_inverts()
    ensures
        forall|v: PlanV, r: Seq<u8>|
            plan_wf_fn()(v) ==> #[trigger] plan_dec_fn()(plan_enc_fn()(v) + r) == Some(
                (v, plan_enc_fn()(v).len() as int),
            ),
{
    assert forall|v: PlanV, r: Seq<u8>| plan_wf_fn()(v) implies #[trigger] plan_dec_fn()(
        plan_enc_fn()(v) + r,
    ) == Some((v, plan_enc_fn()(v).len() as int)) by {
        lemma_dec_enc_plan(v, r);
    }
}

/// Round trip of the changelog wire format: decoding an encoded
/// changelog, followed by anything, yields the changelog itself.
#[verifier::rlimit(100)]
pub proof fn lemma_dec_enc_changelog(c: ChangelogV, rest: Seq<u8>)
    requires
        changelog_encodable(c),
    ensures
        dec_changelog(enc_changelog(c) + rest) == Some((c, enc_changelog(c).len() as int)),
{
    lemma_account_fn_inverts();
    lemma_category_fn_inverts();
    lemma_tx_fn_inverts();
    lemma_plan_fn_inverts();
    let e1 = enc_simple(c.accounts, account_enc_fn());
    let e2 = enc_simple(c.categories, category_enc_fn());
    let e3 = enc_simple(c.transactions, tx_enc_fn());
    let e4 = enc_simple(c.plans, plan_enc_fn());
    let s = enc_changelog(c) + rest;
    assert(s =~= e1 + (e2 + (e3 + (e4 + rest))));
    lemma_dec_enc_simple(c.accounts, e2 + (e3 + (e4 + rest)), account_wf_fn(), account_enc_fn(), account_dec_fn());
    assert(s.skip(e1.len() as int) =~= e2 + (e3 + (e4 + rest)));
    lemma_dec_enc_simple(c.categories, e3 + (e4 + rest), category_wf_fn(), category_enc_fn(), category_dec_fn());
    assert(s.skip(e1.len() + e2.len() as int) =~= e3 + (e4 + rest));
    lemma_dec_enc_simple(c.transactions, e4 + rest, tx_wf_fn(), tx_enc_fn(), tx_dec_fn());
    assert(s.skip(e1.len() + e2.len() + e3.len() as int) =~= e4 + rest);
    lemma_dec_enc_simple(c.plans, rest, plan_wf_fn(), plan_enc_fn(), plan_dec_fn());
    assert(ChangelogV {
        accounts: c.accounts,
        categories: c.categories,
        transactions: c.transactions,
        plans: c.plans,
    } == c);
}

// ------------------------------------------------------------------
// Executable encoders. Each appends the encoding of one value to an
// output vector.
// ------------------------------------------------------------------
/// Appends the encoding of an unsigned 64-bit integer.
pub fn write_u64(out: &mut Vec<u8>, x: u64)
    ensures
        final(out)@ == old(out)@ + enc_u64(x),
{
    let mut b = u64_to_le_bytes(x);
    out.append(&mut b);
}

/// Appends the encoding of a signed 64-bit integer.
pub fn write_i64(out: &mut Vec<u8>, x: i64)
    ensures
        final(out)@ == old(out)@ + enc_i64(x),
{
    write_u64(out, #[verifier::truncate] (x as u64));
}

/// Appends the encoding of an identifier.
pub fn write_id(out: &mut Vec<u8>, id: &Id)
    ensures
        final(out)@ == old(out)@ + enc_id(*id),
{
    let mut b = id.to_bytes();
    out.append(&mut b);
}

/// Appends the encoding of a byte string.
pub fn write_bytes(out: &mut Vec<u8>, b: &[u8])
    ensures
        final(out)@ == old(out)@ + enc_bytes(b@),
{
    write_u64(out, b.len() as u64);
    let mut v = vstd::slice::slice_to_vec(b);
    out.append(&mut v);
    proof {
        assert(out@ =~= old(out)@ + enc_bytes(b@));
    }
}

/// Appends the encoding of a character string.
pub fn write_string(out: &mut Vec<u8>, s: &String)
    ensures
        final(out)@ == old(out)@ + enc_string(s@),
        str_encodable(s@),
{
    let bytes = s.as_str().as_bytes();
    let n = bytes.len();
    proof {
        broadcast use vstd::slice::group_slice_axioms;

        assert(bytes@.len() == n as int);
        assert(bytes@.len() <= usize::MAX);
    }
    write_bytes(out, bytes);
}

/// Appends the encoding of an optional signed 64-bit integer.
pub fn write_opt_i64(out: &mut Vec<u8>, x: &Option<i64>)
    ensures
        final(out)@ == old(out)@ + enc_opt_i64(*x),
{
    match x {
        Option::None => {
            out.push(0u8);
            proof {
                assert(out@ =~= old(out)@ + enc_opt_i64(*x));
            }
        },
        Option::Some(v) => {
            out.push(1u8);
            let ghost mid = out@;
            proof {
                assert(mid =~= old(out)@ + seq![1u8]);
            }
            write_i64(out, *v);
            proof {
                assert(out@ =~= old(out)@ + enc_opt_i64(*x));
            }
        },
    }
}

/// Appends the encoding of an optional identifier.
pub fn write_opt_id(out: &mut Vec<u8>, x: &Option<Id>)
    ensures
        final(out)@ == old(out)@ + enc_opt_id(*x),
{
    match x {
        Option::None => {
            out.push(0u8);
            proof {
                assert(out@ =~= old(out)@ + enc_opt_id(*x));
            }
        },
        Option::Some(id) => {
            out.push(1u8);
            write_id(out, id);
            proof {
                assert(out@ =~= old(out)@ + enc_opt_id(*x));
            }
        },
    }
}

/// Appends the encoding of a category type.
pub fn write_category_type(out: &mut Vec<u8>, t: &CategoryType)
    ensures
        final(out)@ == old(out)@ + enc_category_type(*t),
{
    match t {
        CategoryType::Income => out.push(0u8),
        CategoryType::Outcome => out.push(1u8),
    }
    proof {
        assert(out@ =~= old(out)@ + enc_category_type(*t));
    }
}

/// Appends the encoding of row meta information.
pub fn write_meta(out: &mut Vec<u8>, m: &MetaInfo)
    ensures
        final(out)@ == old(out)@ + enc_meta(*m),
{
    write_id(out, &m.origin);
    write_opt_i64(out, &m.added_timestamp);
    write_opt_i64(out, &m.changed_timestamp);
    write_opt_i64(out, &m.removed_timestamp);
    proof {
        assert(out@ =~= old(out)@ + enc_meta(*m));
    }
}

/// Appends the encoding of a plaintext transaction.
pub fn write_transaction(out: &mut Vec<u8>, t: &crate::data::Transaction)
    ensures
        final(out)@ == old(out)@ + enc_transaction(t@),
        tx_encodable(t@),
{
    write_opt_id(out, &t.id);
    write_i64(out, t.timestamp);
    write_string(out, &t.description);
    write_id(out, &t.account_id);
    write_id(out, &t.category_id);
    write_i64(out, t.amount);
    write_meta(out, &t.meta_info);
    proof {
        assert(out@ =~= old(out)@ + enc_transaction(t@));
    }
}

/// Appends the encoding of a plaintext account.
pub fn write_account(out: &mut Vec<u8>, a: &crate::data::Account)
    ensures
        final(out)@ == old(out)@ + enc_account(a@),
        account_encodable(a@),
{
    write_opt_id(out, &a.id);
    write_string(out, &a.name);
    write_i64(out, a.balance);
    write_i64(out, a.initial_balance);
    write_meta(out, &a.meta_info);
    proof {
        assert(out@ =~= old(out)@ + enc_account(a@));
    }
}

/// Appends the encoding of a plaintext category.
pub fn write_category(out: &mut Vec<u8>, c: &crate::data::Category)
    ensures
        final(out)@ == old(out)@ + enc_category(c@),
        category_encodable(c@),
{
    write_opt_id(out, &c.id);
    write_string(out, &c.name);
    write_category_type(out, &c.category_type);
    write_meta(out, &c.meta_info);
    proof {
        assert(out@ =~= old(out)@ + enc_category(c@));
    }
}

/// Appends the encoding of a plaintext plan.
pub fn write_plan(out: &mut Vec<u8>, p: &crate::data::Plan)
    ensures
        final(out)@ == old(out)@ + enc_plan(p@),
        plan_encodable(p@),
{
    write_opt_id(out, &p.id);
    write_id(out, &p.category_id);
    write_string(out, &p.name);
    write_i64(out, p.amount_limit);
    write_meta(out, &p.meta_info);
    proof {
        assert(out@ =~= old(out)@ + enc_plan(p@));
    }
}

/// Appends the encoding of a list of transactions.
pub fn write_transactions(out: &mut Vec<u8>, items: &Vec<crate::data::Transaction>)
    ensures
        final(out)@ == old(out)@ + enc_list(
            items@.map_values(|t: crate::data::Transaction| t@),
            tx_enc_fn(),
        ),
        items@.len() <= u64::MAX,
        forall|j: int| 0 <= j < items@.len() ==> tx_encodable((#[trigger] items@[j])@),
{
    let ghost views = items@.map_values(|t: crate::data::Transaction| t@);
    write_u64(out, items.len() as u64);
    let mut i: usize = 0;
    while i < items.len()
        invariant
            i <= items@.len(),
            views == items@.map_values(|t: crate::data::Transaction| t@),
            out@ == old(out)@ + enc_u64(items@.len() as u64) + enc_list_body(
                views.take(i as int),
                tx_enc_fn(),
            ),
            forall|j: int| 0 <= j < i ==> tx_encodable((#[trigger] items@[j])@),
        decreases items@.len() - i,
    {
        write_transaction(out, &items[i]);
        i = i + 1;
        proof {
            assert(views.take(i as int) =~= views.take(i - 1).push(views[i - 1]));
            lemma_enc_list_body_push(views.take(i - 1), views[i - 1], tx_enc_fn());
            assert(out@ =~= old(out)@ + enc_u64(items@.len() as u64) + enc_list_body(
                views.take(i as int),
                tx_enc_fn(),
            ));
        }
    }
    proof {
        assert(views.take(views.len() as int) =~= views);
        assert(out@ =~= old(out)@ + enc_list(views, tx_enc_fn()));
    }
}

/// Appends the encoding of a list of accounts.
pub fn write_accounts(out: &mut Vec<u8>, items: &Vec<crate::data::Account>)
    ensures
        final(out)@ == old(out)@ + enc_list(
            items@.map_values(|a: crate::data::Account| a@),
            account_enc_fn(),
        ),
        items@.len() <= u64::MAX,
        forall|j: int| 0 <= j < items@.len() ==> account_encodable((#[trigger] items@[j])@),
{
    let ghost views = items@.map_values(|a: crate::data::Account| a@);
    write_u64(out, items.len() as u64);
    let mut i: usize = 0;
    while i < items.len()
        invariant
            i <= items@.len(),
            views == items@.map_values(|a: crate::data::Account| a@),
            out@ == old(out)@ + enc_u64(items@.len() as u64) + enc_list_body(
                views.take(i as int),
                account_enc_fn(),
            ),
            forall|j: int| 0 <= j < i ==> account_encodable((#[trigger] items@[j])@),
        decreases items@.len() - i,
    {
        write_account(out, &items[i]);
        i = i + 1;
        proof {
            assert(views.take(i as int) =~= views.take(i - 1).push(views[i - 1]));
            lemma_enc_list_body_push(views.take(i - 1), views[i - 1], account_enc_fn());
            assert(out@ =~= old(out)@ + enc_u64(items@.len() as u64) + enc_list_body(
                views.take(i as int),
                account_enc_fn(),
            ));
        }
    }
    proof {
        assert(views.take(views.len() as int) =~= views);
        assert(out@ =~= old(out)@ + enc_list(views, account_enc_fn()));
    }
}

/// Appends the encoding of a list of categories.
pub fn write_categories(out: &mut Vec<u8>, items: &Vec<crate::data::Category>)
    ensures
        final(out)@ == old(out)@ + enc_list(
            items@.map_values(|c: crate::data::Category| c@),
            category_enc_fn(),
        ),
        items@.len() <= u64::MAX,
        forall|j: int| 0 <= j < items@.len() ==> category_encodable((#[trigger] items@[j])@),
{
    let ghost views = items@.map_values(|c: crate::data::Category| c@);
    write_u64(out, items.len() as u64);
    let mut i: usize = 0;
    while i < items.len()
        invariant
            i <= items@.len(),
            views == items@.map_values(|c: crate::data::Category| c@),
            out@ == old(out)@ + enc_u64(items@.len() as u64) + enc_list_body(
                views.take(i as int),
                category_enc_fn(),
            ),
            forall|j: int| 0 <= j < i ==> category_encodable((#[trigger] items@[j])@),
        decreases items@.len() - i,
    {
        write_category(out, &items[i]);
        i = i + 1;
        proof {
            assert(views.take(i as int) =~= views.take(i - 1).push(views[i - 1]));
            lemma_enc_list_body_push(views.take(i - 1), views[i - 1], category_enc_fn());
            assert(out@ =~= old(out)@ + enc_u64(items@.len() as u64) + enc_list_body(
                views.take(i as int),
                category_enc_fn(),
            ));
        }
    }
    proof {
        assert(views.take(views.len() as int) =~= views);
        assert(out@ =~= old(out)@ + enc_list(views, category_enc_fn()));
    }
}

/// Appends the encoding of a list of plans.
pub fn write_plans(out: &mut Vec<u8>, items: &Vec<crate::data::Plan>)
    ensures
        final(out)@ == old(out)@ + enc_list(
            items@.map_values(|p: crate::data::Plan| p@),
            plan_enc_fn(),
        ),
        items@.len() <= u64::MAX,
        forall|j: int| 0 <= j < items@.len() ==> plan_encodable((#[trigger] items@[j])@),
{
    let ghost views = items@.map_values(|p: crate::data::Plan| p@);
    write_u64(out, items.len() as u64);
    let mut i: usize = 0;
    while i < items.len()
        invariant
            i <= items@.len(),
            views == items@.map_values(|p: crate::data::Plan| p@),
            out@ == old(out)@ + enc_u64(items@.len() as u64) + enc_list_body(
                views.take(i as int),
                plan_enc_fn(),
            ),
            forall|j: int| 0 <= j < i ==> plan_encodable((#[trigger] items@[j])@),
        decreases items@.len() - i,
    {
        write_plan(out, &items[i]);
        i = i + 1;
        proof {
            assert(views.take(i as int) =~= views.take(i - 1).push(views[i - 1]));
            lemma_enc_list_body_push(views.take(i - 1), views[i - 1], plan_enc_fn());
            assert(out@ =~= old(out)@ + enc_u64(items@.len() as u64) + enc_list_body(
                views.take(i as int),
                plan_enc_fn(),
            ));
        }
    }
    proof {
        assert(views.take(views.len() as int) =~= views);
        assert(out@ =~= old(out)@ + enc_list(views, plan_enc_fn()));
    }
}

/// Appends the encoding of the accounts part of a changelog.
fn write_simple_accounts(out: &mut Vec<u8>, c: &crate::changelog::SimpleChangelog<crate::data::Account>)
    ensures
        final(out)@ == old(out)@ + enc_simple(c@, account_enc_fn()),
        simple_encodable(c@, account_wf_fn()),
{
    write_accounts(out, &c.added);
    write_accounts(out, &c.changed);
    write_accounts(out, &c.removed);
    proof {
        reveal(enc_simple);
        assert(out@ =~= old(out)@ + enc_simple(c@, account_enc_fn()));
        assert forall|i: int| 0 <= i < c@.added.len() implies #[trigger] account_wf_fn()(c@.added[i]) by {
            assert(account_encodable((c.added@[i])@));
        }
        assert forall|i: int|
            0 <= i < c@.changed.len() implies #[trigger] account_wf_fn()(c@.changed[i]) by {
            assert(account_encodable((c.changed@[i])@));
        }
        assert forall|i: int|
            0 <= i < c@.removed.len() implies #[trigger] account_wf_fn()(c@.removed[i]) by {
            assert(account_encodable((c.removed@[i])@));
        }
    }
}

/// Appends the encoding of the categories part of a changelog.
fn write_simple_categories(out: &mut Vec<u8>, c: &crate::changelog::SimpleChangelog<crate::data::Category>)
    ensures
        final(out)@ == old(out)@ + enc_simple(c@, category_enc_fn()),
        simple_encodable(c@, category_wf_fn()),
{
    write_categories(out, &c.added);
    write_categories(out, &c.changed);
    write_categories(out, &c.removed);
    proof {
        reveal(enc_simple);
        assert(out@ =~= old(out)@ + enc_simple(c@, category_enc_fn()));
        assert forall|i: int| 0 <= i < c@.added.len() implies #[trigger] category_wf_fn()(c@.added[i]) by {
            assert(category_encodable((c.added@[i])@));
        }
        assert forall|i: int|
            0 <= i < c@.changed.len() implies #[trigger] category_wf_fn()(c@.changed[i]) by {
            assert(category_encodable((c.changed@[i])@));
        }
        assert forall|i: int|
            0 <= i < c@.removed.len() implies #[trigger] category_wf_fn()(c@.removed[i]) by {
            assert(category_encodable((c.removed@[i])@));
        }
    }
}

/// Appends the encoding of the transactions part of a changelog.
fn write_simple_transactions(out: &mut Vec<u8>, c: &crate::changelog::SimpleChangelog<crate::data::Transaction>)
    ensures
        final(out)@ == old(out)@ + enc_simple(c@, tx_enc_fn()),
        simple_encodable(c@, tx_wf_fn()),
{
    write_transactions(out, &c.added);
    write_transactions(out, &c.changed);
    write_transactions(out, &c.removed);
    proof {
        reveal(enc_simple);
        assert(out@ =~= old(out)@ + enc_simple(c@, tx_enc_fn()));
        assert forall|i: int| 0 <= i < c@.added.len() implies #[trigger] tx_wf_fn()(c@.added[i]) by {
            assert(tx_encodable((c.added@[i])@));
        }
        assert forall|i: int|
            0 <= i < c@.changed.len() implies #[trigger] tx_wf_fn()(c@.changed[i]) by {
            assert(tx_encodable((c.changed@[i])@));
        }
        assert forall|i: int|
            0 <= i < c@.removed.len() implies #[trigger] tx_wf_fn()(c@.removed[i]) by {
            assert(tx_encodable((c.removed@[i])@));
        }
    }
}

/// Appends the encoding of the plans part of a changelog.
fn write_simple_plans(out: &mut Vec<u8>, c: &crate::changelog::SimpleChangelog<crate::data::Plan>)
    ensures
        final(out)@ == old(out)@ + enc_simple(c@, plan_enc_fn()),
        simple_encodable(c@, plan_wf_fn()),
{
    write_plans(out, &c.added);
    write_plans(out, &c.changed);
    write_plans(out, &c.removed);
    proof {
        reveal(enc_simple);
        assert(out@ =~= old(out)@ + enc_simple(c@, plan_enc_fn()));
        assert forall|i: int| 0 <= i < c@.added.len() implies #[trigger] plan_wf_fn()(c@.added[i]) by {
            assert(plan_encodable((c.added@[i])@));
        }
        assert forall|i: int|
            0 <= i < c@.changed.len() implies #[trigger] plan_wf_fn()(c@.changed[i]) by {
            assert(plan_encodable((c.changed@[i])@));
        }
        assert forall|i: int|
            0 <= i < c@.removed.len() implies #[trigger] plan_wf_fn()(c@.removed[i]) by {
            assert(plan_encodable((c.removed@[i])@));
        }
    }
}

// ------------------------------------------------------------------
// Executable decoders. Each reads one value out of a buffer at a
// position and returns it with the position just past it; the result
// mirrors the specification decoder exactly.
// ------------------------------------------------------------------
/// How an executable read result mirrors a specification decode result.
pub open spec fn reads_as<T>(d: Option<(T, int)>, r: Option<(T, usize)>, pos: int, len: int) -> bool {
    match r {
        Option::Some((v, p)) => d == Some((v, p - pos)) && pos <= p <= len,
        Option::None => d is None,
    }
}

/// Reads an unsigned 64-bit integer.
pub fn read_u64(buf: &[u8], pos: usize) -> (r: Option<(u64, usize)>)
    requires
        pos <= buf@.len(),
    ensures
        reads_as(dec_u64(buf@.skip(pos as int)), r, pos as int, buf@.len() as int),
{
    if buf.len() - pos < 8 {
        return None;
    }
    let piece = vstd::slice::slice_subrange(buf, pos, pos + 8);
    proof {
        assert(buf@.skip(pos as int).take(8) =~= buf@.subrange(pos as int, pos as int + 8));
    }
    Some((u64_from_le_bytes(piece), pos + 8))
}

/// Reads a signed 64-bit integer.
pub fn read_i64(buf: &[u8], pos: usize) -> (r: Option<(i64, usize)>)
    requires
        pos <= buf@.len(),
    ensures
        reads_as(dec_i64(buf@.skip(pos as int)), r, pos as int, buf@.len() as int),
{
    match read_u64(buf, pos) {
        Option::None => None,
        Option::Some((x, p)) => Some((#[verifier::truncate] (x as i64), p)),
    }
}

/// Reads an identifier.
pub fn read_id(buf: &[u8], pos: usize) -> (r: Option<(Id, usize)>)
    requires
        pos <= buf@.len(),
    ensures
        reads_as(dec_id(buf@.skip(pos as int)), r, pos as int, buf@.len() as int),
{
    if buf.len() - pos < 16 {
        return None;
    }
    let piece = vstd::slice::slice_subrange(buf, pos, pos + 16);
    proof {
        assert(buf@.skip(pos as int).take(16) =~= buf@.subrange(pos as int, pos as int + 16));
    }
    Some((Id::from_bytes(piece), pos + 16))
}

/// Reads a byte string.
pub fn read_bytes(buf: &[u8], pos: usize) -> (r: Option<(Vec<u8>, usize)>)
    requires
        pos <= buf@.len(),
    ensures
        match r {
            Option::Some((v, p)) => dec_bytes(buf@.skip(pos as int)) == Some((v@, p - pos)) && pos
                <= p <= buf@.len(),
            Option::None => dec_bytes(buf@.skip(pos as int)) is None,
        },
{
    match read_u64(buf, pos) {
        Option::None => None,
        Option::Some((n, p1)) => {
            let remaining = buf.len() - p1;
            if n > remaining as u64 {
                return None;
            }
            let len = n as usize;
            let piece = vstd::slice::slice_subrange(buf, p1, p1 + len);
            proof {
                let s = buf@.skip(pos as int);
                assert(s.subrange(p1 - pos, p1 - pos + n) =~= buf@.subrange(
                    p1 as int,
                    p1 + len,
                ));
            }
            Some((vstd::slice::slice_to_vec(piece), p1 + len))
        },
    }
}

/// Relies on String::from_utf8: succeeds exactly on valid UTF-8 input,
/// decoding it to its character sequence.
#[verifier::external_body]
fn string_from_utf8(bytes: Vec<u8>) -> (r: Option<String>)
    ensures
        r matches Some(s) ==> valid_utf8(bytes@) && s@ == decode_utf8(bytes@),
        r is None ==> !valid_utf8(bytes@),
{
    match String::from_utf8(bytes) {
        Ok(s) => Some(s),
        Err(_) => None,
    }
}

/// Reads a character string.
pub fn read_string(buf: &[u8], pos: usize) -> (r: Option<(String, usize)>)
    requires
        pos <= buf@.len(),
    ensures
        match r {
            Option::Some((v, p)) => dec_string(buf@.skip(pos as int)) == Some((v@, p - pos)) && pos
                <= p <= buf@.len(),
            Option::None => dec_string(buf@.skip(pos as int)) is None,
        },
{
    match read_bytes(buf, pos) {
        Option::None => None,
        Option::Some((b, p)) => match string_from_utf8(b) {
            Option::None => None,
            Option::Some(s) => Some((s, p)),
        },
    }
}

/// Reads an optional signed 64-bit integer.
pub fn read_opt_i64(buf: &[u8], pos: usize) -> (r: Option<(Option<i64>, usize)>)
    requires
        pos <= buf@.len(),
    ensures
        reads_as(dec_opt_i64(buf@.skip(pos as int)), r, pos as int, buf@.len() as int),
{
    if buf.len() - pos < 1 {
        return None;
    }
    let tag = *vstd::slice::slice_index_get(buf, pos);
    if tag == 0u8 {
        Some((None, pos + 1))
    } else if tag == 1u8 {
        proof {
            assert(buf@.skip(pos as int).skip(1) =~= buf@.skip(pos + 1));
        }
        match read_i64(buf, pos + 1) {
            Option::None => None,
            Option::Some((x, p)) => Some((Some(x), p)),
        }
    } else {
        None
    }
}

/// Reads an optional identifier.
pub fn read_opt_id(buf: &[u8], pos: usize) -> (r: Option<(Option<Id>, usize)>)
    requires
        pos <= buf@.len(),
    ensures
        reads_as(dec_opt_id(buf@.skip(pos as int)), r, pos as int, buf@.len() as int),
{
    if buf.len() - pos < 1 {
        return None;
    }
    let tag = *vstd::slice::slice_index_get(buf, pos);
    if tag == 0u8 {
        Some((None, pos + 1))
    } else if tag == 1u8 {
        proof {
            assert(buf@.skip(pos as int).skip(1) =~= buf@.skip(pos + 1));
        }
        match read_id(buf, pos + 1) {
            Option::None => None,
            Option::Some((id, p)) => Some((Some(id), p)),
        }
    } else {
        None
    }
}

/// Reads a category type.
pub fn read_category_type(buf: &[u8], pos: usize) -> (r: Option<(CategoryType, usize)>)
    requires
        pos <= buf@.len(),
    ensures
        reads_as(dec_category_type(buf@.skip(pos as int)), r, pos as int, buf@.len() as int),
{
    if buf.len() - pos < 1 {
        return None;
    }
    let tag = *vstd::slice::slice_index_get(buf, pos);
    if tag == 0u8 {
        Some((CategoryType::Income, pos + 1))
    } else if tag == 1u8 {
        Some((CategoryType::Outcome, pos + 1))
    } else {
        None
    }
}

/// Reads row meta information.
pub fn read_meta(buf: &[u8], pos: usize) -> (r: Option<(MetaInfo, usize)>)
    requires
        pos <= buf@.len(),
    ensures
        reads_as(dec_meta(buf@.skip(pos as int)), r, pos as int, buf@.len() as int),
{
    let (origin, p1) = match read_id(buf, pos) {
        Option::None => { return None; },
        Option::Some(v) => v,
    };
    proof {
        assert(buf@.skip(pos as int).skip(p1 - pos) =~= buf@.skip(p1 as int));
    }
    let (added, p2) = match read_opt_i64(buf, p1) {
        Option::None => { return None; },
        Option::Some(v) => v,
    };
    proof {
        assert(buf@.skip(pos as int).skip(p2 - pos) =~= buf@.skip(p2 as int));
    }
    let (changed, p3) = match read_opt_i64(buf, p2) {
        Option::None => { return None; },
        Option::Some(v) => v,
    };
    proof {
        assert(buf@.skip(pos as int).skip(p3 - pos) =~= buf@.skip(p3 as int));
    }
    let (removed, p4) = match read_opt_i64(buf, p3) {
        Option::None => { return None; },
        Option::Some(v) => v,
    };
    Some(
        (
            MetaInfo {
                origin,
                added_timestamp: added,
                changed_timestamp: changed,
                removed_timestamp: removed,
            },
            p4,
        ),
    )
}

/// Reads a plaintext transaction.
#[verifier::rlimit(60)]
pub fn read_transaction(buf: &[u8], pos: usize) -> (r: Option<(crate::data::Transaction, usize)>)
    requires
        pos <= buf@.len(),
    ensures
        match r {
            Option::Some((v, p)) => dec_transaction(buf@.skip(pos as int)) == Some((v@, p - pos))
                && pos <= p <= buf@.len(),
            Option::None => dec_transaction(buf@.skip(pos as int)) is None,
        },
{
    let (id, p1) = match read_opt_id(buf, pos) {
        Option::None => { return None; },
        Option::Some(v) => v,
    };
    proof {
        assert(buf@.skip(pos as int).skip(p1 - pos) =~= buf@.skip(p1 as int));
    }
    let (timestamp, p2) = match read_i64(buf, p1) {
        Option::None => { return None; },
        Option::Some(v) => v,
    };
    proof {
        assert(buf@.skip(pos as int).skip(p2 - pos) =~= buf@.skip(p2 as int));
    }
    let (description, p3) = match read_string(buf, p2) {
        Option::None => { return None; },
        Option::Some(v) => v,
    };
    proof {
        assert(buf@.skip(pos as int).skip(p3 - pos) =~= buf@.skip(p3 as int));
    }
    let (account_id, p4) = match read_id(buf, p3) {
        Option::None => { return None; },
        Option::Some(v) => v,
    };
    proof {
        assert(buf@.skip(pos as int).skip(p4 - pos) =~= buf@.skip(p4 as int));
    }
    let (category_id, p5) = match read_id(buf, p4) {
        Option::None => { return None; },
        Option::Some(v) => v,
    };
    proof {
        assert(buf@.skip(pos as int).skip(p5 - pos) =~= buf@.skip(p5 as int));
    }
    let (amount, p6) = match read_i64(buf, p5) {
        Option::None => { return None; },
        Option::Some(v) => v,
    };
    proof {
        assert(buf@.skip(pos as int).skip(p6 - pos) =~= buf@.skip(p6 as int));
    }
    let (meta_info, p7) = match read_meta(buf, p6) {
        Option::None => { return None; },
        Option::Some(v) => v,
    };
    Some(
        (
            crate::data::Transaction {
                id,
                timestamp,
                description,
                account_id,
                category_id,
                amount,
                meta_info,
            },
            p7,
        ),
    )
}

/// Reads a plaintext account.
#[verifier::rlimit(60)]
pub fn read_account(buf: &[u8], pos: usize) -> (r: Option<(crate::data::Account, usize)>)
    requires
        pos <= buf@.len(),
    ensures
        match r {
            Option::Some((v, p)) => dec_account(buf@.skip(pos as int)) == Some((v@, p - pos)) && pos
                <= p <= buf@.len(),
            Option::None => dec_account(buf@.skip(pos as int)) is None,
        },
{
    let (id, p1) = match read_opt_id(buf, pos) {
        Option::None => { return None; },
        Option::Some(v) => v,
    };
    proof {
        assert(buf@.skip(pos as int).skip(p1 - pos) =~= buf@.skip(p1 as int));
    }
    let (name, p2) = match read_string(buf, p1) {
        Option::None => { return None; },
        Option::Some(v) => v,
    };
    proof {
        assert(buf@.skip(pos as int).skip(p2 - pos) =~= buf@.skip(p2 as int));
    }
    let (balance, p3) = match read_i64(buf, p2) {
        Option::None => { return None; },
        Option::Some(v) => v,
    };
    proof {
        assert(buf@.skip(pos as int).skip(p3 - pos) =~= buf@.skip(p3 as int));
    }
    let (initial_balance, p4) = match read_i64(buf, p3) {
        Option::None => { return None; },
        Option::Some(v) => v,
    };
    proof {
        assert(buf@.skip(pos as int).skip(p4 - pos) =~= buf@.skip(p4 as int));
    }
    let (meta_info, p5) = match read_meta(buf, p4) {
        Option::None => { return None; },
        Option::Some(v) => v,
    };
    Some((crate::data::Account { id, name, balance, initial_balance, meta_info }, p5))
}

/// Reads a plaintext category.
#[verifier::rlimit(60)]
pub fn read_category(buf: &[u8], pos: usize) -> (r: Option<(crate::data::Category, usize)>)
    requires
        pos <= buf@.len(),
    ensures
        match r {
            Option::Some((v, p)) => dec_category(buf@.skip(pos as int)) == Some((v@, p - pos))
                && pos <= p <= buf@.len(),
            Option::None => dec_category(buf@.skip(pos as int)) is None,
        },
{
    let (id, p1) = match read_opt_id(buf, pos) {
        Option::None => { return None; },
        Option::Some(v) => v,
    };
    proof {
        assert(buf@.skip(pos as int).skip(p1 - pos) =~= buf@.skip(p1 as int));
    }
    let (name, p2) = match read_string(buf, p1) {
        Option::None => { return None; },
        Option::Some(v) => v,
    };
    proof {
        assert(buf@.skip(pos as int).skip(p2 - pos) =~= buf@.skip(p2 as int));
    }
    let (category_type, p3) = match read_category_type(buf, p2) {
        Option::None => { return None; },
        Option::Some(v) => v,
    };
    proof {
        assert(buf@.skip(pos as int).skip(p3 - pos) =~= buf@.skip(p3 as int));
    }
    let (meta_info, p4) = match read_meta(buf, p3) {
        Option::None => { return None; },
        Option::Some(v) => v,
    };
    Some((crate::data::Category { id, name, category_type, meta_info }, p4))
}

/// Reads a plaintext plan.
#[verifier::rlimit(60)]
pub fn read_plan(buf: &[u8], pos: usize) -> (r: Option<(crate::data::Plan, usize)>)
    requires
        pos <= buf@.len(),
    ensures
        match r {
            Option::Some((v, p)) => dec_plan(buf@.skip(pos as int)) == Some((v@, p - pos)) && pos
                <= p <= buf@.len(),
            Option::None => dec_plan(buf@.skip(pos as int)) is None,
        },
{
    let (id, p1) = match read_opt_id(buf, pos) {
        Option::None => { return None; },
        Option::Some(v) => v,
    };
    proof {
        assert(buf@.skip(pos as int).skip(p1 - pos) =~= buf@.skip(p1 as int));
    }
    let (category_id, p2) = match read_id(buf, p1) {
        Option::None => { return None; },
        Option::Some(v) => v,
    };
    proof {
        assert(buf@.skip(pos as int).skip(p2 - pos) =~= buf@.skip(p2 as int));
    }
    let (name, p3) = match read_string(buf, p2) {
        Option::None => { return None; },
        Option::Some(v) => v,
    };
    proof {
        assert(buf@.skip(pos as int).skip(p3 - pos) =~= buf@.skip(p3 as int));
    }
    let (amount_limit, p4) = match read_i64(buf, p3) {
        Option::None => { return None; },
        Option::Some(v) => v,
    };
    proof {
        assert(buf@.skip(pos as int).skip(p4 - pos) =~= buf@.skip(p4 as int));
    }
    let (meta_info, p5) = match read_meta(buf, p4) {
        Option::None => { return None; },
        Option::Some(v) => v,
    };
    Some((crate::data::Plan { id, category_id, name, amount_limit, meta_info }, p5))
}

/// Appends the encoding of a whole changelog.
pub fn write_changelog(out: &mut Vec<u8>, c: &crate::changelog::Changelog)
    ensures
        final(out)@ == old(out)@ + enc_changelog(c@),
        changelog_encodable(c@),
{
    write_simple_accounts(out, &c.accounts);
    write_simple_categories(out, &c.categories);
    write_simple_transactions(out, &c.transactions);
    write_simple_plans(out, &c.plans);
    proof {
        assert(out@ =~= old(out)@ + enc_changelog(c@));
    }
}

/// Invariant of the list-reading loops: the elements read so far,
/// followed by whatever decoding the remaining elements yields, is
/// exactly what decoding all elements from the start yields.
pub open spec fn list_read_invariant<TV>(
    s: Seq<u8>,
    start: int,
    cur: int,
    n: nat,
    i: nat,
    acc: Seq<TV>,
    g: spec_fn(Seq<u8>) -> Option<(TV, int)>,
) -> bool {
    match dec_list_body(s.skip(cur), (n - i) as nat, g) {
        Option::Some((vs, u)) => dec_list_body(s.skip(start), n, g) == Some(
            (acc + vs, (cur - start) + u),
        ),
        Option::None => dec_list_body(s.skip(start), n, g) is None,
    }
}

/// One successful element read maintains the loop invariant.
pub proof fn lemma_list_read_step<TV>(
    s: Seq<u8>,
    start: int,
    cur: int,
    n: nat,
    i: nat,
    acc: Seq<TV>,
    g: spec_fn(Seq<u8>) -> Option<(TV, int)>,
    v: TV,
    used: int,
)
    requires
        i < n,
        0 <= cur <= s.len(),
        used >= 0,
        cur + used <= s.len(),
        g(s.skip(cur)) == Some((v, used)),
        list_read_invariant(s, start, cur, n, i, acc, g),
    ensures
        list_read_invariant(s, start, cur + used, n, i + 1, acc.push(v), g),
{
    assert(s.skip(cur).skip(used) =~= s.skip(cur + used));
    match dec_list_body(s.skip(cur + used), (n - (i + 1)) as nat, g) {
        Option::Some((vs, u2)) => {
            assert(dec_list_body(s.skip(cur), (n - i) as nat, g) == Some(
                (seq![v] + vs, used + u2),
            ));
            assert(acc + (seq![v] + vs) =~= acc.push(v) + vs);
        },
        Option::None => {
            assert(dec_list_body(s.skip(cur), (n - i) as nat, g) is None);
        },
    }
}

/// A failed element read shows that the whole list fails to decode.
pub proof fn lemma_list_read_fail<TV>(
    s: Seq<u8>,
    start: int,
    cur: int,
    n: nat,
    i: nat,
    acc: Seq<TV>,
    g: spec_fn(Seq<u8>) -> Option<(TV, int)>,
)
    requires
        i < n,
        g(s.skip(cur)) is None,
        list_read_invariant(s, start, cur, n, i, acc, g),
    ensures
        dec_list_body(s.skip(start), n, g) is None,
{
    assert(dec_list_body(s.skip(cur), (n - i) as nat, g) is None);
}

/// The loop invariant holds before the first element is read.
pub proof fn lemma_list_read_init<TV>(
    s: Seq<u8>,
    start: int,
    n: nat,
    g: spec_fn(Seq<u8>) -> Option<(TV, int)>,
)
    ensures
        list_read_invariant(s, start, start, n, 0, Seq::<TV>::empty(), g),
{
    match dec_list_body(s.skip(start), n, g) {
        Option::Some((vs, u)) => {
            assert(Seq::<TV>::empty() + vs =~= vs);
        },
        Option::None => {},
    }
}

/// After all elements are read, the whole list has been decoded.
pub proof fn lemma_list_read_finish<TV>(
    s: Seq<u8>,
    pos: int,
    start: int,
    cur: int,
    n: u64,
    acc: Seq<TV>,
    g: spec_fn(Seq<u8>) -> Option<(TV, int)>,
)
    requires
        0 <= pos <= start <= cur <= s.len(),
        dec_u64(s.skip(pos)) == Some((n, start - pos)),
        list_read_invariant(s, start, cur, n as nat, n as nat, acc, g),
    ensures
        dec_list(s.skip(pos), g) == Some((acc, cur - pos)),
{
    assert(dec_list_body(s.skip(cur), 0nat, g) == Some((Seq::<TV>::empty(), 0int)));
    assert(acc + Seq::<TV>::empty() =~= acc);
    assert(s.skip(pos).skip(start - pos) =~= s.skip(start));
}

/// A failed element read makes the whole list fail to decode.
pub proof fn lemma_list_read_none<TV>(
    s: Seq<u8>,
    pos: int,
    start: int,
    cur: int,
    n: u64,
    i: nat,
    acc: Seq<TV>,
    g: spec_fn(Seq<u8>) -> Option<(TV, int)>,
)
    requires
        0 <= pos <= start <= cur <= s.len(),
        dec_u64(s.skip(pos)) == Some((n, start - pos)),
        i < n,
        g(s.skip(cur)) is None,
        list_read_invariant(s, start, cur, n as nat, i, acc, g),
    ensures
        dec_list(s.skip(pos), g) is None,
{
    lemma_list_read_fail(s, start, cur, n as nat, i, acc, g);
    assert(s.skip(pos).skip(start - pos) =~= s.skip(start));
}

/// Reads a list of transactions.
pub fn read_transactions(buf: &[u8], pos: usize) -> (r: Option<
    (Vec<crate::data::Transaction>, usize),
>)
    requires
        pos <= buf@.len(),
    ensures
        match r {
            Option::Some((vs, p)) => dec_list(buf@.skip(pos as int), tx_dec_fn()) == Some(
                (vs@.map_values(|t: crate::data::Transaction| t@), p - pos),
            ) && pos <= p <= buf@.len(),
            Option::None => dec_list(buf@.skip(pos as int), tx_dec_fn()) is None,
        },
{
    let (n, start) = match read_u64(buf, pos) {
        Option::None => { return None; },
        Option::Some(v) => v,
    };
    let mut out: Vec<crate::data::Transaction> = Vec::new();
    let mut i: u64 = 0;
    let mut cur: usize = start;
    proof {
        lemma_list_read_init::<PlanV>(buf@, start as int, n as nat, plan_dec_fn());
    }
    while i < n
        invariant
            pos <= start <= cur <= buf@.len(),
            i <= n,
            dec_u64(buf@.skip(pos as int)) == Some((n, start - pos)),
            list_read_invariant(
                buf@,
                start as int,
                cur as int,
                n as nat,
                i as nat,
                out@.map_values(|t: crate::data::Transaction| t@),
                tx_dec_fn(),
            ),
        decreases n - i,
    {
        match read_transaction(buf, cur) {
            Option::None => {
                proof {
                    lemma_list_read_none(
                        buf@,
                        pos as int,
                        start as int,
                        cur as int,
                        n,
                        i as nat,
                        out@.map_values(|t: crate::data::Transaction| t@),
                        tx_dec_fn(),
                    );
                }
                return None;
            },
            Option::Some((t, p2)) => {
                proof {
                    lemma_list_read_step(
                        buf@,
                        start as int,
                        cur as int,
                        n as nat,
                        i as nat,
                        out@.map_values(|t: crate::data::Transaction| t@),
                        tx_dec_fn(),
                        t@,
                        p2 - cur,
                    );
                    assert(out@.push(t).map_values(|t: crate::data::Transaction| t@) =~= out@
                        .map_values(|t: crate::data::Transaction| t@).push(t@));
                }
                out.push(t);
                cur = p2;
                i = i + 1;
            },
        }
    }
    proof {
        lemma_list_read_finish(buf@, pos as int, start as int, cur as int, n, out@.map_values(|t: crate::data::Transaction| t@), tx_dec_fn());
    }
    Some((out, cur))
}

/// Reads a list of accounts.
pub fn read_accounts(buf: &[u8], pos: usize) -> (r: Option<(Vec<crate::data::Account>, usize)>)
    requires
        pos <= buf@.len(),
    ensures
        match r {
            Option::Some((vs, p)) => dec_list(buf@.skip(pos as int), account_dec_fn()) == Some(
                (vs@.map_values(|a: crate::data::Account| a@), p - pos),
            ) && pos <= p <= buf@.len(),
            Option::None => dec_list(buf@.skip(pos as int), account_dec_fn()) is None,
        },
{
    let (n, start) = match read_u64(buf, pos) {
        Option::None => { return None; },
        Option::Some(v) => v,
    };
    let mut out: Vec<crate::data::Account> = Vec::new();
    let mut i: u64 = 0;
    let mut cur: usize = start;
    proof {
        assert(out@.map_values(|a: crate::data::Account| a@) + Seq::<AccountV>::empty() =~= out@
            .map_values(|a: crate::data::Account| a@));
    }
    while i < n
        invariant
            pos <= start <= cur <= buf@.len(),
            i <= n,
            dec_u64(buf@.skip(pos as int)) == Some((n, start - pos)),
            list_read_invariant(
                buf@,
                start as int,
                cur as int,
                n as nat,
                i as nat,
                out@.map_values(|a: crate::data::Account| a@),
                account_dec_fn(),
            ),
        decreases n - i,
    {
        match read_account(buf, cur) {
            Option::None => {
                proof {
                    lemma_list_read_none(
                        buf@,
                        pos as int,
                        start as int,
                        cur as int,
                        n,
                        i as nat,
                        out@.map_values(|a: crate::data::Account| a@),
                        account_dec_fn(),
                    );
                }
                return None;
            },
            Option::Some((a, p2)) => {
                proof {
                    lemma_list_read_step(
                        buf@,
                        start as int,
                        cur as int,
                        n as nat,
                        i as nat,
                        out@.map_values(|a: crate::data::Account| a@),
                        account_dec_fn(),
                        a@,
                        p2 - cur,
                    );
                    assert(out@.push(a).map_values(|a: crate::data::Account| a@) =~= out@
                        .map_values(|a: crate::data::Account| a@).push(a@));
                }
                out.push(a);
                cur = p2;
                i = i + 1;
            },
        }
    }
    proof {
        lemma_list_read_finish(buf@, pos as int, start as int, cur as int, n, out@.map_values(|a: crate::data::Account| a@), account_dec_fn());
    }
    Some((out, cur))
}

/// Reads a list of categories.
pub fn read_categories(buf: &[u8], pos: usize) -> (r: Option<(Vec<crate::data::Category>, usize)>)
    requires
        pos <= buf@.len(),
    ensures
        match r {
            Option::Some((vs, p)) => dec_list(buf@.skip(pos as int), category_dec_fn()) == Some(
                (vs@.map_values(|c: crate::data::Category| c@), p - pos),
            ) && pos <= p <= buf@.len(),
            Option::None => dec_list(buf@.skip(pos as int), category_dec_fn()) is None,
        },
{
    let (n, start) = match read_u64(buf, pos) {
        Option::None => { return None; },
        Option::Some(v) => v,
    };
    let mut out: Vec<crate::data::Category> = Vec::new();
    let mut i: u64 = 0;
    let mut cur: usize = start;
    proof {
        assert(out@.map_values(|c: crate::data::Category| c@) + Seq::<CategoryV>::empty() =~= out@
            .map_values(|c: crate::data::Category| c@));
    }
    while i < n
        invariant
            pos <= start <= cur <= buf@.len(),
            i <= n,
            dec_u64(buf@.skip(pos as int)) == Some((n, start - pos)),
            list_read_invariant(
                buf@,
                start as int,
                cur as int,
                n as nat,
                i as nat,
                out@.map_values(|c: crate::data::Category| c@),
                category_dec_fn(),
            ),
        decreases n - i,
    {
        match read_category(buf, cur) {
            Option::None => {
                proof {
                    lemma_list_read_none(
                        buf@,
                        pos as int,
                        start as int,
                        cur as int,
                        n,
                        i as nat,
                        out@.map_values(|c: crate::data::Category| c@),
                        category_dec_fn(),
                    );
                }
                return None;
            },
            Option::Some((c, p2)) => {
                proof {
                    lemma_list_read_step(
                        buf@,
                        start as int,
                        cur as int,
                        n as nat,
                        i as nat,
                        out@.map_values(|c: crate::data::Category| c@),
                        category_dec_fn(),
                        c@,
                        p2 - cur,
                    );
                    assert(out@.push(c).map_values(|c: crate::data::Category| c@) =~= out@
                        .map_values(|c: crate::data::Category| c@).push(c@));
                }
                out.push(c);
                cur = p2;
                i = i + 1;
            },
        }
    }
    proof {
        lemma_list_read_finish(buf@, pos as int, start as int, cur as int, n, out@.map_values(|c: crate::data::Category| c@), category_dec_fn());
    }
    Some((out, cur))
}

/// Reads a list of plans.
pub fn read_plans(buf: &[u8], pos: usize) -> (r: Option<(Vec<crate::data::Plan>, usize)>)
    requires
        pos <= buf@.len(),
    ensures
        match r {
            Option::Some((vs, p)) => dec_list(buf@.skip(pos as int), plan_dec_fn()) == Some(
                (vs@.map_values(|p0: crate::data::Plan| p0@), p - pos),
            ) && pos <= p <= buf@.len(),
            Option::None => dec_list(buf@.skip(pos as int), plan_dec_fn()) is None,
        },
{
    let (n, start) = match read_u64(buf, pos) {
        Option::None => { return None; },
        Option::Some(v) => v,
    };
    let mut out: Vec<crate::data::Plan> = Vec::new();
    let mut i: u64 = 0;
    let mut cur: usize = start;
    proof {
        assert(out@.map_values(|p0: crate::data::Plan| p0@) + Seq::<PlanV>::empty() =~= out@
            .map_values(|p0: crate::data::Plan| p0@));
    }
    while i < n
        invariant
            pos <= start <= cur <= buf@.len(),
            i <= n,
            dec_u64(buf@.skip(pos as int)) == Some((n, start - pos)),
            list_read_invariant(
                buf@,
                start as int,
                cur as int,
                n as nat,
                i as nat,
                out@.map_values(|p0: crate::data::Plan| p0@),
                plan_dec_fn(),
            ),
        decreases n - i,
    {
        match read_plan(buf, cur) {
            Option::None => {
                proof {
                    lemma_list_read_none(
                        buf@,
                        pos as int,
                        start as int,
                        cur as int,
                        n,
                        i as nat,
                        out@.map_values(|p0: crate::data::Plan| p0@),
                        plan_dec_fn(),
                    );
                }
                return None;
            },
            Option::Some((pl, p2)) => {
                proof {
                    lemma_list_read_step(
                        buf@,
                        start as int,
                        cur as int,
                        n as nat,
                        i as nat,
                        out@.map_values(|p0: crate::data::Plan| p0@),
                        plan_dec_fn(),
                        pl@,
                        p2 - cur,
                    );
                    assert(out@.push(pl).map_values(|p0: crate::data::Plan| p0@) =~= out@
                        .map_values(|p0: crate::data::Plan| p0@).push(pl@));
                }
                out.push(pl);
                cur = p2;
                i = i + 1;
            },
        }
    }
    proof {
        lemma_list_read_finish(buf@, pos as int, start as int, cur as int, n, out@.map_values(|p0: crate::data::Plan| p0@), plan_dec_fn());
    }
    Some((out, cur))
}

/// Reads the accounts part of a changelog.
#[verifier::rlimit(100)]
#[verifier::spinoff_prover]
fn read_simple_accounts(buf: &[u8], pos: usize) -> (r: Option<
    (crate::changelog::SimpleChangelog<crate::data::Account>, usize),
>)
    requires
        pos <= buf@.len(),
    ensures
        match r {
            Option::Some((v, p)) => dec_simple(buf@.skip(pos as int), account_dec_fn()) == Some(
                (v@, p - pos),
            ) && pos <= p <= buf@.len(),
            Option::None => dec_simple(buf@.skip(pos as int), account_dec_fn()) is None,
        },
{
    proof {
        reveal(dec_simple);
    }
    let (added, p1) = match read_accounts(buf, pos) {
        Option::None => { return None; },
        Option::Some(v) => v,
    };
    proof {
        assert(buf@.skip(pos as int).skip(p1 - pos) =~= buf@.skip(p1 as int));
    }
    let (changed, p2) = match read_accounts(buf, p1) {
        Option::None => { return None; },
        Option::Some(v) => v,
    };
    proof {
        assert(buf@.skip(pos as int).skip(p2 - pos) =~= buf@.skip(p2 as int));
    }
    let (removed, p3) = match read_accounts(buf, p2) {
        Option::None => { return None; },
        Option::Some(v) => v,
    };
    Some((crate::changelog::SimpleChangelog { added, changed, removed }, p3))
}

/// Reads the categories part of a changelog.
#[verifier::rlimit(100)]
#[verifier::spinoff_prover]
fn read_simple_categories(buf: &[u8], pos: usize) -> (r: Option<
    (crate::changelog::SimpleChangelog<crate::data::Category>, usize),
>)
    requires
        pos <= buf@.len(),
    ensures
        match r {
            Option::Some((v, p)) => dec_simple(buf@.skip(pos as int), category_dec_fn()) == Some(
                (v@, p - pos),
            ) && pos <= p <= buf@.len(),
            Option::None => dec_simple(buf@.skip(pos as int), category_dec_fn()) is None,
        },
{
    proof {
        reveal(dec_simple);
    }
    let (added, p1) = match read_categories(buf, pos) {
        Option::None => { return None; },
        Option::Some(v) => v,
    };
    proof {
        assert(buf@.skip(pos as int).skip(p1 - pos) =~= buf@.skip(p1 as int));
    }
    let (changed, p2) = match read_categories(buf, p1) {
        Option::None => { return None; },
        Option::Some(v) => v,
    };
    proof {
        assert(buf@.skip(pos as int).skip(p2 - pos) =~= buf@.skip(p2 as int));
    }
    let (removed, p3) = match read_categories(buf, p2) {
        Option::None => { return None; },
        Option::Some(v) => v,
    };
    Some((crate::changelog::SimpleChangelog { added, changed, removed }, p3))
}

/// Reads the transactions part of a changelog.
#[verifier::rlimit(100)]
#[verifier::spinoff_prover]
fn read_simple_transactions(buf: &[u8], pos: usize) -> (r: Option<
    (crate::changelog::SimpleChangelog<crate::data::Transaction>, usize),
>)
    requires
        pos <= buf@.len(),
    ensures
        match r {
            Option::Some((v, p)) => dec_simple(buf@.skip(pos as int), tx_dec_fn()) == Some(
                (v@, p - pos),
            ) && pos <= p <= buf@.len(),
            Option::None => dec_simple(buf@.skip(pos as int), tx_dec_fn()) is None,
        },
{
    proof {
        reveal(dec_simple);
    }
    let (added, p1) = match read_transactions(buf, pos) {
        Option::None => { return None; },
        Option::Some(v) => v,
    };
    proof {
        assert(buf@.skip(pos as int).skip(p1 - pos) =~= buf@.skip(p1 as int));
    }
    let (changed, p2) = match read_transactions(buf, p1) {
        Option::None => { return None; },
        Option::Some(v) => v,
    };
    proof {
        assert(buf@.skip(pos as int).skip(p2 - pos) =~= buf@.skip(p2 as int));
    }
    let (removed, p3) = match read_transactions(buf, p2) {
        Option::None => { return None; },
        Option::Some(v) => v,
    };
    Some((crate::changelog::SimpleChangelog { added, changed, removed }, p3))
}

/// Reads the plans part of a changelog.
#[verifier::rlimit(100)]
#[verifier::spinoff_prover]
fn read_simple_plans(buf: &[u8], pos: usize) -> (r: Option<
    (crate::changelog::SimpleChangelog<crate::data::Plan>, usize),
>)
    requires
        pos <= buf@.len(),
    ensures
        match r {
            Option::Some((v, p)) => dec_simple(buf@.skip(pos as int), plan_dec_fn()) == Some(
                (v@, p - pos),
            ) && pos <= p <= buf@.len(),
            Option::None => dec_simple(buf@.skip(pos as int), plan_dec_fn()) is None,
        },
{
    proof {
        reveal(dec_simple);
    }
    let (added, p1) = match read_plans(buf, pos) {
        Option::None => { return None; },
        Option::Some(v) => v,
    };
    proof {
        assert(buf@.skip(pos as int).skip(p1 - pos) =~= buf@.skip(p1 as int));
    }
    let (changed, p2) = match read_plans(buf, p1) {
        Option::None => { return None; },
        Option::Some(v) => v,
    };
    proof {
        assert(buf@.skip(pos as int).skip(p2 - pos) =~= buf@.skip(p2 as int));
    }
    let (removed, p3) = match read_plans(buf, p2) {
        Option::None => { return None; },
        Option::Some(v) => v,
    };
    Some((crate::changelog::SimpleChangelog { added, changed, removed }, p3))
}

/// Reads a whole changelog.
#[verifier::rlimit(60)]
pub fn read_changelog(buf: &[u8], pos: usize) -> (r: Option<
    (crate::changelog::Changelog, usize),
>)
    requires
        pos <= buf@.len(),
    ensures
        match r {
            Option::Some((v, p)) => dec_changelog(buf@.skip(pos as int)) == Some((v@, p - pos))
                && pos <= p <= buf@.len(),
            Option::None => dec_changelog(buf@.skip(pos as int)) is None,
        },
{
    let (accounts, p1) = match read_simple_accounts(buf, pos) {
        Option::None => { return None; },
        Option::Some(v) => v,
    };
    proof {
        assert(buf@.skip(pos as int).skip(p1 - pos) =~= buf@.skip(p1 as int));
    }
    let (categories, p2) = match read_simple_categories(buf, p1) {
        Option::None => { return None; },
        Option::Some(v) => v,
    };
    proof {
        assert(buf@.skip(pos as int).skip(p2 - pos) =~= buf@.skip(p2 as int));
    }
    let (transactions, p3) = match read_simple_transactions(buf, p2) {
        Option::None => { return None; },
        Option::Some(v) => v,
    };
    proof {
        assert(buf@.skip(pos as int).skip(p3 - pos) =~= buf@.skip(p3 as int));
    }
    let (plans, p4) = match read_simple_plans(buf, p3) {
        Option::None => { return None; },
        Option::Some(v) => v,
    };
    Some((crate::changelog::Changelog { accounts, categories, transactions, plans }, p4))
}


// ------------------------------------------------------------------
// Encrypted rows, for store persistence: same layout as the plaintext
// entities, with length-prefixed ciphertext fields in place of the
// sensitive values.
// ------------------------------------------------------------------
/// Encoding of an encrypted transaction row.
pub open spec fn enc_etx(t: crate::data::EncryptedTransactionV) -> Seq<u8> {
    enc_opt_id(t.id) + enc_i64(t.timestamp) + enc_bytes(t.description) + enc_id(t.account_id)
        + enc_id(t.category_id) + enc_bytes(t.amount) + enc_meta(t.meta_info)
}

/// Decoding of an encrypted transaction row.
pub open spec fn dec_etx(s: Seq<u8>) -> Option<(crate::data::EncryptedTransactionV, int)> {
    match dec_opt_id(s) {
        Option::None => None,
        Option::Some((id, u1)) => match dec_i64(s.skip(u1)) {
            Option::None => None,
            Option::Some((timestamp, u2)) => match dec_bytes(s.skip(u1 + u2)) {
                Option::None => None,
                Option::Some((description, u3)) => match dec_id(s.skip(u1 + u2 + u3)) {
                    Option::None => None,
                    Option::Some((account_id, u4)) => match dec_id(s.skip(u1 + u2 + u3 + u4)) {
                        Option::None => None,
                        Option::Some((category_id, u5)) => match dec_bytes(
                            s.skip(u1 + u2 + u3 + u4 + u5),
                        ) {
                            Option::None => None,
                            Option::Some((amount, u6)) => match dec_meta(
                                s.skip(u1 + u2 + u3 + u4 + u5 + u6),
                            ) {
                                Option::None => None,
                                Option::Some((meta_info, u7)) => Some(
                                    (
                                        crate::data::EncryptedTransactionV {
                                            id,
                                            timestamp,
                                            description,
                                            account_id,
                                            category_id,
                                            amount,
                                            meta_info,
                                        },
                                        u1 + u2 + u3 + u4 + u5 + u6 + u7,
                                    ),
                                ),
                            },
                        },
                    },
                },
            },
        },
    }
}

/// Encoding of an encrypted account row.
pub open spec fn enc_eaccount(a: crate::data::EncryptedAccountV) -> Seq<u8> {
    enc_opt_id(a.id) + enc_bytes(a.name) + enc_bytes(a.balance) + enc_bytes(a.initial_balance)
        + enc_meta(a.meta_info)
}

/// Decoding of an encrypted account row.
pub open spec fn dec_eaccount(s: Seq<u8>) -> Option<(crate::data::EncryptedAccountV, int)> {
    match dec_opt_id(s) {
        Option::None => None,
        Option::Some((id, u1)) => match dec_bytes(s.skip(u1)) {
            Option::None => None,
            Option::Some((name, u2)) => match dec_bytes(s.skip(u1 + u2)) {
                Option::None => None,
                Option::Some((balance, u3)) => match dec_bytes(s.skip(u1 + u2 + u3)) {
                    Option::None => None,
                    Option::Some((initial_balance, u4)) => match dec_meta(
                        s.skip(u1 + u2 + u3 + u4),
                    ) {
                        Option::None => None,
                        Option::Some((meta_info, u5)) => Some(
                            (
                                crate::data::EncryptedAccountV {
                                    id,
                                    name,
                                    balance,
                                    initial_balance,
                                    meta_info,
                                },
                                u1 + u2 + u3 + u4 + u5,
                            ),
                        ),
                    },
                },
            },
        },
    }
}

/// Encoding of an encrypted category row.
pub open spec fn enc_ecategory(c: crate::data::EncryptedCategoryV) -> Seq<u8> {
    enc_opt_id(c.id) + enc_bytes(c.name) + enc_category_type(c.category_type) + enc_meta(
        c.meta_info,
    )
}

/// Decoding of an encrypted category row.
pub open spec fn dec_ecategory(s: Seq<u8>) -> Option<(crate::data::EncryptedCategoryV, int)> {
    match dec_opt_id(s) {
        Option::None => None,
        Option::Some((id, u1)) => match dec_bytes(s.skip(u1)) {
            Option::None => None,
            Option::Some((name, u2)) => match dec_category_type(s.skip(u1 + u2)) {
                Option::None => None,
                Option::Some((category_type, u3)) => match dec_meta(s.skip(u1 + u2 + u3)) {
                    Option::None => None,
                    Option::Some((meta_info, u4)) => Some(
                        (
                            crate::data::EncryptedCategoryV { id, name, category_type, meta_info },
                            u1 + u2 + u3 + u4,
                        ),
                    ),
                },
            },
        },
    }
}

/// Encoding of an encrypted plan row.
pub open spec fn enc_eplan(p: crate::data::EncryptedPlanV) -> Seq<u8> {
    enc_opt_id(p.id) + enc_id(p.category_id) + enc_bytes(p.name) + enc_bytes(p.amount_limit)
        + enc_meta(p.meta_info)
}

/// Decoding of an encrypted plan row.
pub open spec fn dec_eplan(s: Seq<u8>) -> Option<(crate::data::EncryptedPlanV, int)> {
    match dec_opt_id(s) {
        Option::None => None,
        Option::Some((id, u1)) => match dec_id(s.skip(u1)) {
            Option::None => None,
            Option::Some((category_id, u2)) => match dec_bytes(s.skip(u1 + u2)) {
                Option::None => None,
                Option::Some((name, u3)) => match dec_bytes(s.skip(u1 + u2 + u3)) {
                    Option::None => None,
                    Option::Some((amount_limit, u4)) => match dec_meta(s.skip(u1 + u2 + u3 + u4)) {
                        Option::None => None,
                        Option::Some((meta_info, u5)) => Some(
                            (
                                crate::data::EncryptedPlanV {
                                    id,
                                    category_id,
                                    name,
                                    amount_limit,
                                    meta_info,
                                },
                                u1 + u2 + u3 + u4 + u5,
                            ),
                        ),
                    },
                },
            },
        },
    }
}

/// The encrypted transaction decoder as a function value.
pub open spec fn etx_dec_fn() -> spec_fn(Seq<u8>) -> Option<
    (crate::data::EncryptedTransactionV, int),
> {
    |s: Seq<u8>| dec_etx(s)
}

/// The encrypted account decoder as a function value.
pub open spec fn eaccount_dec_fn() -> spec_fn(Seq<u8>) -> Option<
    (crate::data::EncryptedAccountV, int),
> {
    |s: Seq<u8>| dec_eaccount(s)
}

/// The encrypted category decoder as a function value.
pub open spec fn ecategory_dec_fn() -> spec_fn(Seq<u8>) -> Option<
    (crate::data::EncryptedCategoryV, int),
> {
    |s: Seq<u8>| dec_ecategory(s)
}

/// The encrypted plan decoder as a function value.
pub open spec fn eplan_dec_fn() -> spec_fn(Seq<u8>) -> Option<
    (crate::data::EncryptedPlanV, int),
> {
    |s: Seq<u8>| dec_eplan(s)
}

/// The encrypted transaction encoder as a function value.
pub open spec fn etx_enc_fn() -> spec_fn(crate::data::EncryptedTransactionV) -> Seq<u8> {
    |t: crate::data::EncryptedTransactionV| enc_etx(t)
}

/// The encrypted account encoder as a function value.
pub open spec fn eaccount_enc_fn() -> spec_fn(crate::data::EncryptedAccountV) -> Seq<u8> {
    |a: crate::data::EncryptedAccountV| enc_eaccount(a)
}

/// The encrypted category encoder as a function value.
pub open spec fn ecategory_enc_fn() -> spec_fn(crate::data::EncryptedCategoryV) -> Seq<u8> {
    |c: crate::data::EncryptedCategoryV| enc_ecategory(c)
}

/// The encrypted plan encoder as a function value.
pub open spec fn eplan_enc_fn() -> spec_fn(crate::data::EncryptedPlanV) -> Seq<u8> {
    |p: crate::data::EncryptedPlanV| enc_eplan(p)
}

/// Encoding of a whole store: the four row tables in a fixed order.
pub open spec fn enc_store(st: crate::storage::StorageV) -> Seq<u8> {
    enc_list(st.transactions, etx_enc_fn()) + enc_list(st.accounts, eaccount_enc_fn()) + enc_list(
        st.categories,
        ecategory_enc_fn(),
    ) + enc_list(st.plans, eplan_enc_fn())
}

/// Decoding of a whole store.
#[verifier::opaque]
pub open spec fn dec_store(s: Seq<u8>) -> Option<(crate::storage::StorageV, int)> {
    match dec_list(s, etx_dec_fn()) {
        Option::None => None,
        Option::Some((transactions, u1)) => match dec_list(s.skip(u1), eaccount_dec_fn()) {
            Option::None => None,
            Option::Some((accounts, u2)) => match dec_list(s.skip(u1 + u2), ecategory_dec_fn()) {
                Option::None => None,
                Option::Some((categories, u3)) => match dec_list(
                    s.skip(u1 + u2 + u3),
                    eplan_dec_fn(),
                ) {
                    Option::None => None,
                    Option::Some((plans, u4)) => Some(
                        (
                            crate::storage::StorageV { transactions, accounts, categories, plans },
                            u1 + u2 + u3 + u4,
                        ),
                    ),
                },
            },
        },
    }
}


/// Appends the encoding of an encrypted transaction row.
pub fn write_etx(out: &mut Vec<u8>, t: &crate::data::EncryptedTransaction)
    ensures
        final(out)@ == old(out)@ + enc_etx(t@),
{
    write_opt_id(out, &t.id);
    write_i64(out, t.timestamp);
    write_bytes(out, t.description.as_slice());
    write_id(out, &t.account_id);
    write_id(out, &t.category_id);
    write_bytes(out, t.amount.as_slice());
    write_meta(out, &t.meta_info);
    proof {
        assert(out@ =~= old(out)@ + enc_etx(t@));
    }
}

/// Appends the encoding of an encrypted account row.
pub fn write_eaccount(out: &mut Vec<u8>, a: &crate::data::EncryptedAccount)
    ensures
        final(out)@ == old(out)@ + enc_eaccount(a@),
{
    write_opt_id(out, &a.id);
    write_bytes(out, a.name.as_slice());
    write_bytes(out, a.balance.as_slice());
    write_bytes(out, a.initial_balance.as_slice());
    write_meta(out, &a.meta_info);
    proof {
        assert(out@ =~= old(out)@ + enc_eaccount(a@));
    }
}

/// Appends the encoding of an encrypted category row.
pub fn write_ecategory(out: &mut Vec<u8>, c: &crate::data::EncryptedCategory)
    ensures
        final(out)@ == old(out)@ + enc_ecategory(c@),
{
    write_opt_id(out, &c.id);
    write_bytes(out, c.name.as_slice());
    write_category_type(out, &c.category_type);
    write_meta(out, &c.meta_info);
    proof {
        assert(out@ =~= old(out)@ + enc_ecategory(c@));
    }
}

/// Appends the encoding of an encrypted plan row.
pub fn write_eplan(out: &mut Vec<u8>, p: &crate::data::EncryptedPlan)
    ensures
        final(out)@ == old(out)@ + enc_eplan(p@),
{
    write_opt_id(out, &p.id);
    write_id(out, &p.category_id);
    write_bytes(out, p.name.as_slice());
    write_bytes(out, p.amount_limit.as_slice());
    write_meta(out, &p.meta_info);
    proof {
        assert(out@ =~= old(out)@ + enc_eplan(p@));
    }
}

/// Appends the encoding of a list of encrypted transaction rows.
pub fn write_etx_list(out: &mut Vec<u8>, items: &Vec<crate::data::EncryptedTransaction>)
    ensures
        final(out)@ == old(out)@ + enc_list(
            items@.map_values(|x: crate::data::EncryptedTransaction| x@),
            etx_enc_fn(),
        ),
{
    let ghost views = items@.map_values(|x: crate::data::EncryptedTransaction| x@);
    write_u64(out, items.len() as u64);
    let mut i: usize = 0;
    while i < items.len()
        invariant
            i <= items@.len(),
            views == items@.map_values(|x: crate::data::EncryptedTransaction| x@),
            out@ == old(out)@ + enc_u64(items@.len() as u64) + enc_list_body(
                views.take(i as int),
                etx_enc_fn(),
            ),
        decreases items@.len() - i,
    {
        write_etx(out, &items[i]);
        i = i + 1;
        proof {
            assert(views.take(i as int) =~= views.take(i - 1).push(views[i - 1]));
            lemma_enc_list_body_push(views.take(i - 1), views[i - 1], etx_enc_fn());
            assert(out@ =~= old(out)@ + enc_u64(items@.len() as u64) + enc_list_body(
                views.take(i as int),
                etx_enc_fn(),
            ));
        }
    }
    proof {
        assert(views.take(views.len() as int) =~= views);
        assert(out@ =~= old(out)@ + enc_list(views, etx_enc_fn()));
    }
}

/// Appends the encoding of a list of encrypted account rows.
pub fn write_eaccount_list(out: &mut Vec<u8>, items: &Vec<crate::data::EncryptedAccount>)
    ensures
        final(out)@ == old(out)@ + enc_list(
            items@.map_values(|x: crate::data::EncryptedAccount| x@),
            eaccount_enc_fn(),
        ),
{
    let ghost views = items@.map_values(|x: crate::data::EncryptedAccount| x@);
    write_u64(out, items.len() as u64);
    let mut i: usize = 0;
    while i < items.len()
        invariant
            i <= items@.len(),
            views == items@.map_values(|x: crate::data::EncryptedAccount| x@),
            out@ == old(out)@ + enc_u64(items@.len() as u64) + enc_list_body(
                views.take(i as int),
                eaccount_enc_fn(),
            ),
        decreases items@.len() - i,
    {
        write_eaccount(out, &items[i]);
        i = i + 1;
        proof {
            assert(views.take(i as int) =~= views.take(i - 1).push(views[i - 1]));
            lemma_enc_list_body_push(views.take(i - 1), views[i - 1], eaccount_enc_fn());
            assert(out@ =~= old(out)@ + enc_u64(items@.len() as u64) + enc_list_body(
                views.take(i as int),
                eaccount_enc_fn(),
            ));
        }
    }
    proof {
        assert(views.take(views.len() as int) =~= views);
        assert(out@ =~= old(out)@ + enc_list(views, eaccount_enc_fn()));
    }
}

/// Appends the encoding of a list of encrypted category rows.
pub fn write_ecategory_list(out: &mut Vec<u8>, items: &Vec<crate::data::EncryptedCategory>)
    ensures
        final(out)@ == old(out)@ + enc_list(
            items@.map_values(|x: crate::data::EncryptedCategory| x@),
            ecategory_enc_fn(),
        ),
{
    let ghost views = items@.map_values(|x: crate::data::EncryptedCategory| x@);
    write_u64(out, items.len() as u64);
    let mut i: usize = 0;
    while i < items.len()
        invariant
            i <= items@.len(),
            views == items@.map_values(|x: crate::data::EncryptedCategory| x@),
            out@ == old(out)@ + enc_u64(items@.len() as u64) + enc_list_body(
                views.take(i as int),
                ecategory_enc_fn(),
            ),
        decreases items@.len() - i,
    {
        write_ecategory(out, &items[i]);
        i = i + 1;
        proof {
            assert(views.take(i as int) =~= views.take(i - 1).push(views[i - 1]));
            lemma_enc_list_body_push(views.take(i - 1), views[i - 1], ecategory_enc_fn());
            assert(out@ =~= old(out)@ + enc_u64(items@.len() as u64) + enc_list_body(
                views.take(i as int),
                ecategory_enc_fn(),
            ));
        }
    }
    proof {
        assert(views.take(views.len() as int) =~= views);
        assert(out@ =~= old(out)@ + enc_list(views, ecategory_enc_fn()));
    }
}

/// Appends the encoding of a list of encrypted plan rows.
pub fn write_eplan_list(out: &mut Vec<u8>, items: &Vec<crate::data::EncryptedPlan>)
    ensures
        final(out)@ == old(out)@ + enc_list(
            items@.map_values(|x: crate::data::EncryptedPlan| x@),
            eplan_enc_fn(),
        ),
{
    let ghost views = items@.map_values(|x: crate::data::EncryptedPlan| x@);
    write_u64(out, items.len() as u64);
    let mut i: usize = 0;
    while i < items.len()
        invariant
            i <= items@.len(),
            views == items@.map_values(|x: crate::data::EncryptedPlan| x@),
            out@ == old(out)@ + enc_u64(items@.len() as u64) + enc_list_body(
                views.take(i as int),
                eplan_enc_fn(),
            ),
        decreases items@.len() - i,
    {
        write_eplan(out, &items[i]);
        i = i + 1;
        proof {
            assert(views.take(i as int) =~= views.take(i - 1).push(views[i - 1]));
            lemma_enc_list_body_push(views.take(i - 1), views[i - 1], eplan_enc_fn());
            assert(out@ =~= old(out)@ + enc_u64(items@.len() as u64) + enc_list_body(
                views.take(i as int),
                eplan_enc_fn(),
            ));
        }
    }
    proof {
        assert(views.take(views.len() as int) =~= views);
        assert(out@ =~= old(out)@ + enc_list(views, eplan_enc_fn()));
    }
}

/// Reads an encrypted transaction row.
#[verifier::rlimit(60)]
pub fn read_etx(buf: &[u8], pos: usize) -> (r: Option<(crate::data::EncryptedTransaction, usize)>)
    requires
        pos <= buf@.len(),
    ensures
        match r {
            Option::Some((v, p)) => dec_etx(buf@.skip(pos as int)) == Some((v@, p - pos)) && pos
                <= p <= buf@.len(),
            Option::None => dec_etx(buf@.skip(pos as int)) is None,
        },
{
    let (id, p1) = match read_opt_id(buf, pos) {
        Option::None => { return None; },
        Option::Some(v) => v,
    };
    proof {
        assert(buf@.skip(pos as int).skip(p1 - pos) =~= buf@.skip(p1 as int));
    }
    let (timestamp, p2) = match read_i64(buf, p1) {
        Option::None => { return None; },
        Option::Some(v) => v,
    };
    proof {
        assert(buf@.skip(pos as int).skip(p2 - pos) =~= buf@.skip(p2 as int));
    }
    let (description, p3) = match read_bytes(buf, p2) {
        Option::None => { return None; },
        Option::Some(v) => v,
    };
    proof {
        assert(buf@.skip(pos as int).skip(p3 - pos) =~= buf@.skip(p3 as int));
    }
    let (account_id, p4) = match read_id(buf, p3) {
        Option::None => { return None; },
        Option::Some(v) => v,
    };
    proof {
        assert(buf@.skip(pos as int).skip(p4 - pos) =~= buf@.skip(p4 as int));
    }
    let (category_id, p5) = match read_id(buf, p4) {
        Option::None => { return None; },
        Option::Some(v) => v,
    };
    proof {
        assert(buf@.skip(pos as int).skip(p5 - pos) =~= buf@.skip(p5 as int));
    }
    let (amount, p6) = match read_bytes(buf, p5) {
        Option::None => { return None; },
        Option::Some(v) => v,
    };
    proof {
        assert(buf@.skip(pos as int).skip(p6 - pos) =~= buf@.skip(p6 as int));
    }
    let (meta_info, p7) = match read_meta(buf, p6) {
        Option::None => { return None; },
        Option::Some(v) => v,
    };
    Some(
        (
            crate::data::EncryptedTransaction {
                id,
                timestamp,
                description,
                account_id,
                category_id,
                amount,
                meta_info,
            },
            p7,
        ),
    )
}

/// Reads an encrypted account row.
#[verifier::rlimit(60)]
pub fn read_eaccount(buf: &[u8], pos: usize) -> (r: Option<(crate::data::EncryptedAccount, usize)>)
    requires
        pos <= buf@.len(),
    ensures
        match r {
            Option::Some((v, p)) => dec_eaccount(buf@.skip(pos as int)) == Some((v@, p - pos))
                && pos <= p <= buf@.len(),
            Option::None => dec_eaccount(buf@.skip(pos as int)) is None,
        },
{
    let (id, p1) = match read_opt_id(buf, pos) {
        Option::None => { return None; },
        Option::Some(v) => v,
    };
    proof {
        assert(buf@.skip(pos as int).skip(p1 - pos) =~= buf@.skip(p1 as int));
    }
    let (name, p2) = match read_bytes(buf, p1) {
        Option::None => { return None; },
        Option::Some(v) => v,
    };
    proof {
        assert(buf@.skip(pos as int).skip(p2 - pos) =~= buf@.skip(p2 as int));
    }
    let (balance, p3) = match read_bytes(buf, p2) {
        Option::None => { return None; },
        Option::Some(v) => v,
    };
    proof {
        assert(buf@.skip(pos as int).skip(p3 - pos) =~= buf@.skip(p3 as int));
    }
    let (initial_balance, p4) = match read_bytes(buf, p3) {
        Option::None => { return None; },
        Option::Some(v) => v,
    };
    proof {
        assert(buf@.skip(pos as int).skip(p4 - pos) =~= buf@.skip(p4 as int));
    }
    let (meta_info, p5) = match read_meta(buf, p4) {
        Option::None => { return None; },
        Option::Some(v) => v,
    };
    Some(
        (crate::data::EncryptedAccount { id, name, balance, initial_balance, meta_info }, p5),
    )
}

/// Reads an encrypted category row.
#[verifier::rlimit(60)]
pub fn read_ecategory(buf: &[u8], pos: usize) -> (r: Option<
    (crate::data::EncryptedCategory, usize),
>)
    requires
        pos <= buf@.len(),
    ensures
        match r {
            Option::Some((v, p)) => dec_ecategory(buf@.skip(pos as int)) == Some((v@, p - pos))
                && pos <= p <= buf@.len(),
            Option::None => dec_ecategory(buf@.skip(pos as int)) is None,
        },
{
    let (id, p1) = match read_opt_id(buf, pos) {
        Option::None => { return None; },
        Option::Some(v) => v,
    };
    proof {
        assert(buf@.skip(pos as int).skip(p1 - pos) =~= buf@.skip(p1 as int));
    }
    let (name, p2) = match read_bytes(buf, p1) {
        Option::None => { return None; },
        Option::Some(v) => v,
    };
    proof {
        assert(buf@.skip(pos as int).skip(p2 - pos) =~= buf@.skip(p2 as int));
    }
    let (category_type, p3) = match read_category_type(buf, p2) {
        Option::None => { return None; },
        Option::Some(v) => v,
    };
    proof {
        assert(buf@.skip(pos as int).skip(p3 - pos) =~= buf@.skip(p3 as int));
    }
    let (meta_info, p4) = match read_meta(buf, p3) {
        Option::None => { return None; },
        Option::Some(v) => v,
    };
    Some((crate::data::EncryptedCategory { id, name, category_type, meta_info }, p4))
}

/// Reads an encrypted plan row.
#[verifier::rlimit(60)]
pub fn read_eplan(buf: &[u8], pos: usize) -> (r: Option<(crate::data::EncryptedPlan, usize)>)
    requires
        pos <= buf@.len(),
    ensures
        match r {
            Option::Some((v, p)) => dec_eplan(buf@.skip(pos as int)) == Some((v@, p - pos)) && pos
                <= p <= buf@.len(),
            Option::None => dec_eplan(buf@.skip(pos as int)) is None,
        },
{
    let (id, p1) = match read_opt_id(buf, pos) {
        Option::None => { return None; },
        Option::Some(v) => v,
    };
    proof {
        assert(buf@.skip(pos as int).skip(p1 - pos) =~= buf@.skip(p1 as int));
    }
    let (category_id, p2) = match read_id(buf, p1) {
        Option::None => { return None; },
        Option::Some(v) => v,
    };
    proof {
        assert(buf@.skip(pos as int).skip(p2 - pos) =~= buf@.skip(p2 as int));
    }
    let (name, p3) = match read_bytes(buf, p2) {
        Option::None => { return None; },
        Option::Some(v) => v,
    };
    proof {
        assert(buf@.skip(pos as int).skip(p3 - pos) =~= buf@.skip(p3 as int));
    }
    let (amount_limit, p4) = match read_bytes(buf, p3) {
        Option::None => { return None; },
        Option::Some(v) => v,
    };
    proof {
        assert(buf@.skip(pos as int).skip(p4 - pos) =~= buf@.skip(p4 as int));
    }
    let (meta_info, p5) = match read_meta(buf, p4) {
        Option::None => { return None; },
        Option::Some(v) => v,
    };
    Some((crate::data::EncryptedPlan { id, category_id, name, amount_limit, meta_info }, p5))
}

/// Reads a list of encrypted transaction rows.
pub fn read_etx_list(buf: &[u8], pos: usize) -> (r: Option<
    (Vec<crate::data::EncryptedTransaction>, usize),
>)
    requires
        pos <= buf@.len(),
    ensures
        match r {
            Option::Some((vs, p)) => dec_list(buf@.skip(pos as int), etx_dec_fn()) == Some(
                (vs@.map_values(|x: crate::data::EncryptedTransaction| x@), p - pos),
            ) && pos <= p <= buf@.len(),
            Option::None => dec_list(buf@.skip(pos as int), etx_dec_fn()) is None,
        },
{
    let (n, start) = match read_u64(buf, pos) {
        Option::None => { return None; },
        Option::Some(v) => v,
    };
    let mut out: Vec<crate::data::EncryptedTransaction> = Vec::new();
    let mut i: u64 = 0;
    let mut cur: usize = start;
    proof {
        lemma_list_read_init::<crate::data::EncryptedTransactionV>(buf@, start as int, n as nat, etx_dec_fn());
    }
    while i < n
        invariant
            pos <= start <= cur <= buf@.len(),
            i <= n,
            dec_u64(buf@.skip(pos as int)) == Some((n, start - pos)),
            list_read_invariant(
                buf@,
                start as int,
                cur as int,
                n as nat,
                i as nat,
                out@.map_values(|x: crate::data::EncryptedTransaction| x@),
                etx_dec_fn(),
            ),
        decreases n - i,
    {
        match read_etx(buf, cur) {
            Option::None => {
                proof {
                    lemma_list_read_none(
                        buf@,
                        pos as int,
                        start as int,
                        cur as int,
                        n,
                        i as nat,
                        out@.map_values(|x: crate::data::EncryptedTransaction| x@),
                        etx_dec_fn(),
                    );
                }
                return None;
            },
            Option::Some((v, p2)) => {
                proof {
                    lemma_list_read_step(
                        buf@,
                        start as int,
                        cur as int,
                        n as nat,
                        i as nat,
                        out@.map_values(|x: crate::data::EncryptedTransaction| x@),
                        etx_dec_fn(),
                        v@,
                        p2 - cur,
                    );
                    assert(out@.push(v).map_values(|x: crate::data::EncryptedTransaction| x@) =~= out@
                        .map_values(|x: crate::data::EncryptedTransaction| x@).push(v@));
                }
                out.push(v);
                cur = p2;
                i = i + 1;
            },
        }
    }
    proof {
        lemma_list_read_finish(buf@, pos as int, start as int, cur as int, n, out@.map_values(|x: crate::data::EncryptedTransaction| x@), etx_dec_fn());
    }
    Some((out, cur))
}

/// Reads a list of encrypted account rows.
pub fn read_eaccount_list(buf: &[u8], pos: usize) -> (r: Option<
    (Vec<crate::data::EncryptedAccount>, usize),
>)
    requires
        pos <= buf@.len(),
    ensures
        match r {
            Option::Some((vs, p)) => dec_list(buf@.skip(pos as int), eaccount_dec_fn()) == Some(
                (vs@.map_values(|x: crate::data::EncryptedAccount| x@), p - pos),
            ) && pos <= p <= buf@.len(),
            Option::None => dec_list(buf@.skip(pos as int), eaccount_dec_fn()) is None,
        },
{
    let (n, start) = match read_u64(buf, pos) {
        Option::None => { return None; },
        Option::Some(v) => v,
    };
    let mut out: Vec<crate::data::EncryptedAccount> = Vec::new();
    let mut i: u64 = 0;
    let mut cur: usize = start;
    proof {
        lemma_list_read_init::<crate::data::EncryptedAccountV>(buf@, start as int, n as nat, eaccount_dec_fn());
    }
    while i < n
        invariant
            pos <= start <= cur <= buf@.len(),
            i <= n,
            dec_u64(buf@.skip(pos as int)) == Some((n, start - pos)),
            list_read_invariant(
                buf@,
                start as int,
                cur as int,
                n as nat,
                i as nat,
                out@.map_values(|x: crate::data::EncryptedAccount| x@),
                eaccount_dec_fn(),
            ),
        decreases n - i,
    {
        match read_eaccount(buf, cur) {
            Option::None => {
                proof {
                    lemma_list_read_none(
                        buf@,
                        pos as int,
                        start as int,
                        cur as int,
                        n,
                        i as nat,
                        out@.map_values(|x: crate::data::EncryptedAccount| x@),
                        eaccount_dec_fn(),
                    );
                }
                return None;
            },
            Option::Some((v, p2)) => {
                proof {
                    lemma_list_read_step(
                        buf@,
                        start as int,
                        cur as int,
                        n as nat,
                        i as nat,
                        out@.map_values(|x: crate::data::EncryptedAccount| x@),
                        eaccount_dec_fn(),
                        v@,
                        p2 - cur,
                    );
                    assert(out@.push(v).map_values(|x: crate::data::EncryptedAccount| x@) =~= out@
                        .map_values(|x: crate::data::EncryptedAccount| x@).push(v@));
                }
                out.push(v);
                cur = p2;
                i = i + 1;
            },
        }
    }
    proof {
        lemma_list_read_finish(buf@, pos as int, start as int, cur as int, n, out@.map_values(|x: crate::data::EncryptedAccount| x@), eaccount_dec_fn());
    }
    Some((out, cur))
}

/// Reads a list of encrypted category rows.
pub fn read_ecategory_list(buf: &[u8], pos: usize) -> (r: Option<
    (Vec<crate::data::EncryptedCategory>, usize),
>)
    requires
        pos <= buf@.len(),
    ensures
        match r {
            Option::Some((vs, p)) => dec_list(buf@.skip(pos as int), ecategory_dec_fn()) == Some(
                (vs@.map_values(|x: crate::data::EncryptedCategory| x@), p - pos),
            ) && pos <= p <= buf@.len(),
            Option::None => dec_list(buf@.skip(pos as int), ecategory_dec_fn()) is None,
        },
{
    let (n, start) = match read_u64(buf, pos) {
        Option::None => { return None; },
        Option::Some(v) => v,
    };
    let mut out: Vec<crate::data::EncryptedCategory> = Vec::new();
    let mut i: u64 = 0;
    let mut cur: usize = start;
    proof {
        lemma_list_read_init::<crate::data::EncryptedCategoryV>(buf@, start as int, n as nat, ecategory_dec_fn());
    }
    while i < n
        invariant
            pos <= start <= cur <= buf@.len(),
            i <= n,
            dec_u64(buf@.skip(pos as int)) == Some((n, start - pos)),
            list_read_invariant(
                buf@,
                start as int,
                cur as int,
                n as nat,
                i as nat,
                out@.map_values(|x: crate::data::EncryptedCategory| x@),
                ecategory_dec_fn(),
            ),
        decreases n - i,
    {
        match read_ecategory(buf, cur) {
            Option::None => {
                proof {
                    lemma_list_read_none(
                        buf@,
                        pos as int,
                        start as int,
                        cur as int,
                        n,
                        i as nat,
                        out@.map_values(|x: crate::data::EncryptedCategory| x@),
                        ecategory_dec_fn(),
                    );
                }
                return None;
            },
            Option::Some((v, p2)) => {
                proof {
                    lemma_list_read_step(
                        buf@,
                        start as int,
                        cur as int,
                        n as nat,
                        i as nat,
                        out@.map_values(|x: crate::data::EncryptedCategory| x@),
                        ecategory_dec_fn(),
                        v@,
                        p2 - cur,
                    );
                    assert(out@.push(v).map_values(|x: crate::data::EncryptedCategory| x@) =~= out@
                        .map_values(|x: crate::data::EncryptedCategory| x@).push(v@));
                }
                out.push(v);
                cur = p2;
                i = i + 1;
            },
        }
    }
    proof {
        lemma_list_read_finish(buf@, pos as int, start as int, cur as int, n, out@.map_values(|x: crate::data::EncryptedCategory| x@), ecategory_dec_fn());
    }
    Some((out, cur))
}

/// Reads a list of encrypted plan rows.
pub fn read_eplan_list(buf: &[u8], pos: usize) -> (r: Option<
    (Vec<crate::data::EncryptedPlan>, usize),
>)
    requires
        pos <= buf@.len(),
    ensures
        match r {
            Option::Some((vs, p)) => dec_list(buf@.skip(pos as int), eplan_dec_fn()) == Some(
                (vs@.map_values(|x: crate::data::EncryptedPlan| x@), p - pos),
            ) && pos <= p <= buf@.len(),
            Option::None => dec_list(buf@.skip(pos as int), eplan_dec_fn()) is None,
        },
{
    let (n, start) = match read_u64(buf, pos) {
        Option::None => { return None; },
        Option::Some(v) => v,
    };
    let mut out: Vec<crate::data::EncryptedPlan> = Vec::new();
    let mut i: u64 = 0;
    let mut cur: usize = start;
    proof {
        lemma_list_read_init::<crate::data::EncryptedPlanV>(buf@, start as int, n as nat, eplan_dec_fn());
    }
    while i < n
        invariant
            pos <= start <= cur <= buf@.len(),
            i <= n,
            dec_u64(buf@.skip(pos as int)) == Some((n, start - pos)),
            list_read_invariant(
                buf@,
                start as int,
                cur as int,
                n as nat,
                i as nat,
                out@.map_values(|x: crate::data::EncryptedPlan| x@),
                eplan_dec_fn(),
            ),
        decreases n - i,
    {
        match read_eplan(buf, cur) {
            Option::None => {
                proof {
                    lemma_list_read_none(
                        buf@,
                        pos as int,
                        start as int,
                        cur as int,
                        n,
                        i as nat,
                        out@.map_values(|x: crate::data::EncryptedPlan| x@),
                        eplan_dec_fn(),
                    );
                }
                return None;
            },
            Option::Some((v, p2)) => {
                proof {
                    lemma_list_read_step(
                        buf@,
                        start as int,
                        cur as int,
                        n as nat,
                        i as nat,
                        out@.map_values(|x: crate::data::EncryptedPlan| x@),
                        eplan_dec_fn(),
                        v@,
                        p2 - cur,
                    );
                    assert(out@.push(v).map_values(|x: crate::data::EncryptedPlan| x@) =~= out@
                        .map_values(|x: crate::data::EncryptedPlan| x@).push(v@));
                }
                out.push(v);
                cur = p2;
                i = i + 1;
            },
        }
    }
    proof {
        lemma_list_read_finish(buf@, pos as int, start as int, cur as int, n, out@.map_values(|x: crate::data::EncryptedPlan| x@), eplan_dec_fn());
    }
    Some((out, cur))
}


/// Reads a whole store.
#[verifier::rlimit(100)]
#[verifier::spinoff_prover]
pub fn read_store(buf: &[u8], pos: usize) -> (r: Option<(Vec<crate::data::EncryptedTransaction>, Vec<crate::data::EncryptedAccount>, Vec<crate::data::EncryptedCategory>, Vec<crate::data::EncryptedPlan>, usize)>)
    requires
        pos <= buf@.len(),
    ensures
        match r {
            Option::Some((t, a, c, p, end)) => dec_store(buf@.skip(pos as int)) == Some(
                (
                    crate::storage::StorageV {
                        transactions: t@.map_values(|x: crate::data::EncryptedTransaction| x@),
                        accounts: a@.map_values(|x: crate::data::EncryptedAccount| x@),
                        categories: c@.map_values(|x: crate::data::EncryptedCategory| x@),
                        plans: p@.map_values(|x: crate::data::EncryptedPlan| x@),
                    },
                    end - pos,
                ),
            ) && pos <= end <= buf@.len(),
            Option::None => dec_store(buf@.skip(pos as int)) is None,
        },
{
    proof {
        reveal(dec_store);
    }
    let (transactions, p1) = match read_etx_list(buf, pos) {
        Option::None => { return None; },
        Option::Some(v) => v,
    };
    proof {
        assert(buf@.skip(pos as int).skip(p1 - pos) =~= buf@.skip(p1 as int));
    }
    let (accounts, p2) = match read_eaccount_list(buf, p1) {
        Option::None => { return None; },
        Option::Some(v) => v,
    };
    proof {
        assert(buf@.skip(pos as int).skip(p2 - pos) =~= buf@.skip(p2 as int));
    }
    let (categories, p3) = match read_ecategory_list(buf, p2) {
        Option::None => { return None; },
        Option::Some(v) => v,
    };
    proof {
        assert(buf@.skip(pos as int).skip(p3 - pos) =~= buf@.skip(p3 as int));
    }
    let (plans, p4) = match read_eplan_list(buf, p3) {
        Option::None => { return None; },
        Option::Some(v) => v,
    };
    Some((transactions, accounts, categories, plans, p4))
}

} // verus!
