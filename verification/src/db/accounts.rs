//! Accounts.

use vstd::prelude::*;

use super::{db_err, first_index, lemma_first_index_at, next_id, account_views, Database, DbState};
use crate::error::{AppError, AppResult, DbError};
use crate::models::{copy_opt_string, opt_view, Account, AccountView, NewAccount};
use crate::text::str_eq;

verus! {

/// Selects the account with identifier `id`.
pub open spec fn account_has_id(id: i64) -> spec_fn(AccountView) -> bool {
    |a: AccountView| a.id == id
}

/// Selects the account with address `email`.
pub open spec fn account_has_email(email: Seq<char>) -> spec_fn(AccountView) -> bool {
    |a: AccountView| a.email == email
}

/// The stored form of a new account under identifier `id`.
pub open spec fn new_account_row(id: i64, acc: NewAccount, keychain_ref: Seq<char>) -> AccountView {
    AccountView {
        id,
        email: acc.email@,
        display_name: opt_view(acc.display_name),
        imap_host: acc.imap_host@,
        imap_port: acc.imap_port,
        smtp_host: acc.smtp_host@,
        smtp_port: acc.smtp_port,
        keychain_ref,
    }
}

impl DbState {
    /// Adding an account: refused when its address is taken or identifiers
    /// are exhausted; otherwise it gets the next identifier.
    pub open spec fn insert_account(self, acc: NewAccount, keychain_ref: Seq<char>) -> (
        DbState,
        AppResult<i64>,
    ) {
        if first_index(self.accounts, account_has_email(acc.email@)) is Some {
            (self, db_err(DbError::UniqueViolation))
        } else {
            match next_id(self.seq_account) {
                None => (self, db_err(DbError::Full)),
                Some(id) => (
                    DbState {
                        accounts: self.accounts.push(new_account_row(id, acc, keychain_ref)),
                        seq_account: id,
                        last_rowid: id,
                        ..self
                    },
                    Ok(id),
                ),
            }
        }
    }

    /// The account with identifier `id`, if any.
    pub open spec fn account(self, id: i64) -> Option<AccountView> {
        match first_index(self.accounts, account_has_id(id)) {
            Some(i) => Some(self.accounts[i]),
            None => None,
        }
    }

    /// The account with address `email`, if any.
    pub open spec fn account_by_email(self, email: Seq<char>) -> Option<AccountView> {
        match first_index(self.accounts, account_has_email(email)) {
            Some(i) => Some(self.accounts[i]),
            None => None,
        }
    }
}

/// An account lookup as the store answers it: the row, or no rows.
pub open spec fn account_result(found: Option<AccountView>, r: AppResult<Account>) -> bool {
    match found {
        Some(a) => r matches Ok(x) && x@ == a,
        None => r == db_err::<Account>(DbError::NoRows),
    }
}

impl Database {
    /// Position of the account with address `email`.
    pub(crate) fn find_account_by_email(&self, email: &str) -> (r: Option<usize>)
        ensures
            match r {
                Some(i) => i < self.accounts.len() && first_index(self@.accounts, account_has_email(email@)) == Some(i as int),
                None => first_index(self@.accounts, account_has_email(email@)) is None,
            },
    {
        let ghost s = self@.accounts;
        let mut i: usize = 0;
        while i < self.accounts.len()
            invariant
                i <= self.accounts.len(),
                s == account_views(self.accounts@),
                forall|k: int| 0 <= k < i ==> !account_has_email(email@)(#[trigger] s[k]),
            decreases self.accounts.len() - i,
        {
            if str_eq(self.accounts[i].email.as_str(), email) {
                proof {
                    lemma_first_index_at(s, account_has_email(email@), i as int);
                }
                return Some(i);
            }
            i = i + 1;
        }
        proof {
            lemma_first_index_at(s, account_has_email(email@), i as int);
        }
        None
    }

    /// Position of the account with identifier `id`.
    pub(crate) fn find_account(&self, id: i64) -> (r: Option<usize>)
        ensures
            match r {
                Some(i) => i < self.accounts.len() && first_index(self@.accounts, account_has_id(id)) == Some(i as int),
                None => first_index(self@.accounts, account_has_id(id)) is None,
            },
    {
        let ghost s = self@.accounts;
        let mut i: usize = 0;
        while i < self.accounts.len()
            invariant
                i <= self.accounts.len(),
                s == account_views(self.accounts@),
                forall|k: int| 0 <= k < i ==> !account_has_id(id)(#[trigger] s[k]),
            decreases self.accounts.len() - i,
        {
            if self.accounts[i].id == id {
                proof {
                    lemma_first_index_at(s, account_has_id(id), i as int);
                }
                return Some(i);
            }
            i = i + 1;
        }
        proof {
            lemma_first_index_at(s, account_has_id(id), i as int);
        }
        None
    }

    /// Whether an account with identifier `id` exists.
    pub(crate) fn account_exists(&self, id: i64) -> (r: bool)
        ensures
            r == self@.has_account(id),
    {
        let r = self.find_account(id);
        proof {
            super::lemma_first_index(self@.accounts, account_has_id(id));
        }
        r.is_some()
    }

    /// Adds an account whose password is kept under `keychain_ref` and
    /// returns its identifier.
    pub fn insert_account(&mut self, acc: &NewAccount, keychain_ref: &str) -> (r: AppResult<i64>)
        requires
            old(self).wf(),
        ensures
            final(self).wf(),
            (final(self)@, r) == old(self)@.insert_account(*acc, keychain_ref@),
    {
        if self.find_account_by_email(acc.email.as_str()).is_some() {
            return Err(AppError::Database(DbError::UniqueViolation));
        }
        if self.seq_account == i64::MAX {
            return Err(AppError::Database(DbError::Full));
        }
        let id = self.seq_account + 1;
        let row = Account {
            id,
            email: acc.email.clone(),
            display_name: copy_opt_string(&acc.display_name),
            imap_host: acc.imap_host.clone(),
            imap_port: acc.imap_port,
            smtp_host: acc.smtp_host.clone(),
            smtp_port: acc.smtp_port,
            keychain_ref: crate::models::owned(keychain_ref),
        };
        let ghost before = self@;
        proof {
            super::lemma_first_index(before.accounts, account_has_email(acc.email@));
        }
        self.accounts.push(row);
        self.seq_account = id;
        self.last_rowid = id;
        let ghost after = self@;
        assert(after.accounts =~= before.accounts.push(new_account_row(id, *acc, keychain_ref@)));
        assert(after == DbState {
            accounts: before.accounts.push(new_account_row(id, *acc, keychain_ref@)),
            seq_account: id,
            last_rowid: id,
            ..before
        });
        proof {
            assert forall|i: int| 0 <= i < after.messages.len() implies after.has_account(
                #[trigger] after.messages[i].account_id,
            ) by {
                let k = choose|k: int|
                    0 <= k < before.accounts.len() && #[trigger] before.accounts[k].id
                        == before.messages[i].account_id;
                assert(after.accounts[k] == before.accounts[k]);
            }
        }
        Ok(id)
    }

    /// The account with identifier `id`.
    pub fn get_account(&self, id: i64) -> (r: AppResult<Account>)
        ensures
            account_result(self@.account(id), r),
    {
        match self.find_account(id) {
            Some(i) => Ok(self.accounts[i].copy()),
            None => Err(AppError::Database(DbError::NoRows)),
        }
    }

    /// The account with address `email`.
    pub fn get_account_by_email(&self, email: &str) -> (r: AppResult<Account>)
        ensures
            account_result(self@.account_by_email(email@), r),
    {
        match self.find_account_by_email(email) {
            Some(i) => Ok(self.accounts[i].copy()),
            None => Err(AppError::Database(DbError::NoRows)),
        }
    }

    /// All accounts, by identifier.
    pub fn list_accounts(&self) -> (r: AppResult<Vec<Account>>)
        ensures
            r matches Ok(v) && account_views(v@) == self@.accounts,
    {
        let mut v: Vec<Account> = Vec::new();
        let mut i: usize = 0;
        while i < self.accounts.len()
            invariant
                i <= self.accounts.len(),
                account_views(v@) == account_views(self.accounts@).take(i as int),
            decreases self.accounts.len() - i,
        {
            let ghost before = account_views(v@);
            v.push(self.accounts[i].copy());
            assert(account_views(v@) =~= before.push(self.accounts@[i as int]@));
            assert(account_views(self.accounts@).take(i + 1) =~= account_views(self.accounts@).take(
                i as int,
            ).push(self.accounts@[i as int]@));
            i = i + 1;
        }
        assert(account_views(self.accounts@).take(self.accounts.len() as int) =~= account_views(
            self.accounts@,
        ));
        Ok(v)
    }
}

} // verus!
