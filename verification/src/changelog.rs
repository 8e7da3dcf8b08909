use vstd::prelude::*;
use crate::data::{Account, Category, Plan, Transaction};
use crate::error::{Error, ErrorKind, Result};

verus! {

/// Changelog of one entity kind: rows added, changed and removed since
/// some point in time.
pub struct SimpleChangelog<T> {
    /// Added rows.
    pub added: Vec<T>,
    /// Changed rows; reserved for a future schema revision.
    pub changed: Vec<T>,
    /// Removed rows (tombstones).
    pub removed: Vec<T>,
}

/// Ghost form of [`SimpleChangelog`].
pub ghost struct SimpleChangelogV<TV> {
    pub added: Seq<TV>,
    pub changed: Seq<TV>,
    pub removed: Seq<TV>,
}

impl<T: View> View for SimpleChangelog<T> {
    type V = SimpleChangelogV<T::V>;

    open spec fn view(&self) -> SimpleChangelogV<T::V> {
        SimpleChangelogV {
            added: self.added@.map_values(|t: T| t@),
            changed: self.changed@.map_values(|t: T| t@),
            removed: self.removed@.map_values(|t: T| t@),
        }
    }
}

impl<T: View> SimpleChangelog<T> {
    /// An empty changelog of one entity kind.
    pub fn new() -> (r: Self)
        ensures
            r@.added == Seq::<T::V>::empty(),
            r@.changed == Seq::<T::V>::empty(),
            r@.removed == Seq::<T::V>::empty(),
    {
        let r = SimpleChangelog { added: Vec::new(), changed: Vec::new(), removed: Vec::new() };
        proof {
            assert(r@.added =~= Seq::<T::V>::empty());
            assert(r@.changed =~= Seq::<T::V>::empty());
            assert(r@.removed =~= Seq::<T::V>::empty());
        }
        r
    }

    /// Moves all rows of `other` to the end of this changelog.
    pub fn append(&mut self, other: SimpleChangelog<T>)
        ensures
            final(self)@.added == old(self)@.added + other@.added,
            final(self)@.changed == old(self)@.changed + other@.changed,
            final(self)@.removed == old(self)@.removed + other@.removed,
    {
        let ghost o0 = other@;
        let mut other = other;
        self.added.append(&mut other.added);
        self.changed.append(&mut other.changed);
        self.removed.append(&mut other.removed);
        proof {
            assert(self@.added =~= old(self)@.added + o0.added);
            assert(self@.changed =~= old(self)@.changed + o0.changed);
            assert(self@.removed =~= old(self)@.removed + o0.removed);
        }
    }
}

/// Changelog over the whole store: one [`SimpleChangelog`] per entity
/// kind, holding plaintext rows.
pub struct Changelog {
    /// Accounts changelog.
    pub accounts: SimpleChangelog<Account>,
    /// Categories changelog.
    pub categories: SimpleChangelog<Category>,
    /// Transactions changelog.
    pub transactions: SimpleChangelog<Transaction>,
    /// Plans changelog.
    pub plans: SimpleChangelog<Plan>,
}

/// Ghost form of [`Changelog`].
pub ghost struct ChangelogV {
    pub accounts: SimpleChangelogV<<Account as View>::V>,
    pub categories: SimpleChangelogV<<Category as View>::V>,
    pub transactions: SimpleChangelogV<<Transaction as View>::V>,
    pub plans: SimpleChangelogV<<Plan as View>::V>,
}

impl View for Changelog {
    type V = ChangelogV;

    open spec fn view(&self) -> ChangelogV {
        ChangelogV {
            accounts: self.accounts@,
            categories: self.categories@,
            transactions: self.transactions@,
            plans: self.plans@,
        }
    }
}

impl Changelog {
    /// An empty changelog.
    pub fn new() -> (r: Self)
        ensures
            r@.accounts.added == Seq::<<Account as View>::V>::empty(),
            r@.accounts.changed == Seq::<<Account as View>::V>::empty(),
            r@.accounts.removed == Seq::<<Account as View>::V>::empty(),
            r@.categories.added == Seq::<<Category as View>::V>::empty(),
            r@.categories.changed == Seq::<<Category as View>::V>::empty(),
            r@.categories.removed == Seq::<<Category as View>::V>::empty(),
            r@.transactions.added == Seq::<<Transaction as View>::V>::empty(),
            r@.transactions.changed == Seq::<<Transaction as View>::V>::empty(),
            r@.transactions.removed == Seq::<<Transaction as View>::V>::empty(),
            r@.plans.added == Seq::<<Plan as View>::V>::empty(),
            r@.plans.changed == Seq::<<Plan as View>::V>::empty(),
            r@.plans.removed == Seq::<<Plan as View>::V>::empty(),
    {
        Changelog {
            accounts: SimpleChangelog::new(),
            categories: SimpleChangelog::new(),
            transactions: SimpleChangelog::new(),
            plans: SimpleChangelog::new(),
        }
    }

    /// Appends another changelog to the current one, kind by kind.
    pub fn append(&mut self, changelog: Changelog)
        ensures
            final(self)@.accounts.added == old(self)@.accounts.added + changelog@.accounts.added,
            final(self)@.accounts.changed == old(self)@.accounts.changed
                + changelog@.accounts.changed,
            final(self)@.accounts.removed == old(self)@.accounts.removed
                + changelog@.accounts.removed,
            final(self)@.categories.added == old(self)@.categories.added
                + changelog@.categories.added,
            final(self)@.categories.changed == old(self)@.categories.changed
                + changelog@.categories.changed,
            final(self)@.categories.removed == old(self)@.categories.removed
                + changelog@.categories.removed,
            final(self)@.transactions.added == old(self)@.transactions.added
                + changelog@.transactions.added,
            final(self)@.transactions.changed == old(self)@.transactions.changed
                + changelog@.transactions.changed,
            final(self)@.transactions.removed == old(self)@.transactions.removed
                + changelog@.transactions.removed,
            final(self)@.plans.added == old(self)@.plans.added + changelog@.plans.added,
            final(self)@.plans.changed == old(self)@.plans.changed + changelog@.plans.changed,
            final(self)@.plans.removed == old(self)@.plans.removed + changelog@.plans.removed,
    {
        self.accounts.append(changelog.accounts);
        self.categories.append(changelog.categories);
        self.transactions.append(changelog.transactions);
        self.plans.append(changelog.plans);
    }

    /// Converts the changelog into its binary representation.
    pub fn to_vec(&self) -> (r: Vec<u8>)
        ensures
            r@ == crate::codec::enc_changelog(self@),
            crate::codec::changelog_encodable(self@),
    {
        let mut out: Vec<u8> = Vec::new();
        crate::codec::write_changelog(&mut out, self);
        proof {
            assert(out@ =~= crate::codec::enc_changelog(self@));
        }
        out
    }

    /// Reads a changelog back from its binary representation.
    ///
    /// Fails with a malformed-data error exactly when the bytes are not
    /// the complete encoding of one changelog.
    pub fn from_slice(data: &[u8]) -> (r: Result<Changelog>)
        ensures
            match r {
                Ok(c) => crate::codec::dec_changelog(data@) == Some((c@, data@.len() as int)),
                Err(e) => {
                    &&& e.kind == ErrorKind::Malformed
                    &&& match crate::codec::dec_changelog(data@) {
                        Option::Some((c, p)) => p != data@.len(),
                        Option::None => true,
                    }
                },
            },
    {
        match crate::codec::read_changelog(data, 0) {
            Option::None => {
                proof {
                    assert(data@.skip(0) =~= data@);
                    assert(crate::codec::dec_changelog(data@) == crate::codec::dec_changelog(
                        data@.skip(0),
                    ));
                }
                Err(Error::from_message(ErrorKind::Malformed))
            },
            Option::Some((c, p)) => {
                if p == data.len() {
                    proof {
                        broadcast use vstd::slice::group_slice_axioms;

                        assert(data@.skip(0) =~= data@);
                        assert(crate::codec::dec_changelog(data@) == crate::codec::dec_changelog(
                            data@.skip(0),
                        ));
                        assert(data@.len() == p as int);
                        assert(crate::codec::dec_changelog(data@) == Some((c@, p as int)));
                    }
                    Ok(c)
                } else {
                    proof {
                        broadcast use vstd::slice::group_slice_axioms;

                        assert(data@.skip(0) =~= data@);
                        assert(crate::codec::dec_changelog(data@) == crate::codec::dec_changelog(
                            data@.skip(0),
                        ));
                        assert(p as int != data@.len());
                    }
                    Err(Error::from_message(ErrorKind::Malformed))
                }
            },
        }
    }
}

} // verus!
