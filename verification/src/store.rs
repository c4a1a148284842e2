//! The credential store: accounts, emails, sessions and login tokens.
//!
//! The store models the relational tables the application keeps its
//! state in.  Each table is a vector of rows with server-generated,
//! strictly increasing identifiers; the store's view replaces every text
//! by its character sequence, and every operation is specified as a pure
//! transition on that view.  Uniqueness constraints — one account per
//! email, one row per `(key, name)` session pair, one row per token
//! text — are part of well-formedness and are enforced by the write
//! operations, exactly as the database schema enforces them.

use vstd::prelude::*;
use crate::amount::Amount;
use crate::error::DbError;
use crate::model::AccountInfo;
use crate::seqtools::find_idx;
use crate::seqtools::lemma_find_idx;
use crate::seqtools::lemma_find_idx_at;
use crate::seqtools::lemma_find_idx_none;
use crate::seqtools::lemma_remove_by_all;
use crate::seqtools::lemma_remove_by_pairwise;
use crate::seqtools::remove_by;
use crate::text::str_eq;
use crate::timestamp::Timestamp;

verus! {

pub struct AccountRow {
    pub id: i64,
    pub created: Timestamp,
    pub modified: Timestamp,
}

pub ghost struct AccountRowX {
    pub id: i64,
    pub created: Timestamp,
    pub modified: Timestamp,
}

impl View for AccountRow {
    type V = AccountRowX;

    open spec fn view(&self) -> AccountRowX {
        AccountRowX { id: self.id, created: self.created, modified: self.modified }
    }
}

pub struct AccountEmailRow {
    pub id: i64,
    pub account: i64,
    pub email: String,
    pub created: Timestamp,
    pub modified: Timestamp,
}

pub ghost struct AccountEmailRowX {
    pub id: i64,
    pub account: i64,
    pub email: Seq<char>,
    pub created: Timestamp,
    pub modified: Timestamp,
}

impl View for AccountEmailRow {
    type V = AccountEmailRowX;

    open spec fn view(&self) -> AccountEmailRowX {
        AccountEmailRowX {
            id: self.id,
            account: self.account,
            email: self.email@,
            created: self.created,
            modified: self.modified,
        }
    }
}

pub struct SessionRow {
    pub id: i64,
    pub key: String,
    pub name: String,
    pub value: String,
    pub created: Timestamp,
    pub modified: Timestamp,
}

pub ghost struct SessionRowX {
    pub id: i64,
    pub key: Seq<char>,
    pub name: Seq<char>,
    pub value: Seq<char>,
    pub created: Timestamp,
    pub modified: Timestamp,
}

impl View for SessionRow {
    type V = SessionRowX;

    open spec fn view(&self) -> SessionRowX {
        SessionRowX {
            id: self.id,
            key: self.key@,
            name: self.name@,
            value: self.value@,
            created: self.created,
            modified: self.modified,
        }
    }
}

pub struct LoginTokenRow {
    pub id: i64,
    pub account: i64,
    pub token: String,
    pub used: bool,
    pub used_ts: Option<Timestamp>,
    pub created: Timestamp,
    pub modified: Timestamp,
}

pub ghost struct LoginTokenRowX {
    pub id: i64,
    pub account: i64,
    pub token: Seq<char>,
    pub used: bool,
    pub used_ts: Option<Timestamp>,
    pub created: Timestamp,
    pub modified: Timestamp,
}

impl View for LoginTokenRow {
    type V = LoginTokenRowX;

    open spec fn view(&self) -> LoginTokenRowX {
        LoginTokenRowX {
            id: self.id,
            account: self.account,
            token: self.token@,
            used: self.used,
            used_ts: self.used_ts,
            created: self.created,
            modified: self.modified,
        }
    }
}

pub struct BankAccountRow {
    pub id: i64,
    pub account: i64,
    pub name: String,
    pub currency: String,
    pub deleted: bool,
    pub created: Timestamp,
    pub modified: Timestamp,
}

pub ghost struct BankAccountRowX {
    pub id: i64,
    pub account: i64,
    pub name: Seq<char>,
    pub currency: Seq<char>,
    pub deleted: bool,
    pub created: Timestamp,
    pub modified: Timestamp,
}

impl View for BankAccountRow {
    type V = BankAccountRowX;

    open spec fn view(&self) -> BankAccountRowX {
        BankAccountRowX {
            id: self.id,
            account: self.account,
            name: self.name@,
            currency: self.currency@,
            deleted: self.deleted,
            created: self.created,
            modified: self.modified,
        }
    }
}

#[derive(Clone, Copy)]
pub struct EntryRow {
    pub id: i64,
    pub bank_account: i64,
    pub ts: Timestamp,
    pub amount: Amount,
    pub deleted: bool,
    pub created: Timestamp,
    pub modified: Timestamp,
}

pub ghost struct EntryRowX {
    pub id: i64,
    pub bank_account: i64,
    pub ts: Timestamp,
    pub amount: Amount,
    pub deleted: bool,
    pub created: Timestamp,
    pub modified: Timestamp,
}

impl View for EntryRow {
    type V = EntryRowX;

    open spec fn view(&self) -> EntryRowX {
        EntryRowX {
            id: self.id,
            bank_account: self.bank_account,
            ts: self.ts,
            amount: self.amount,
            deleted: self.deleted,
            created: self.created,
            modified: self.modified,
        }
    }
}

/// The store's tables and identifier sequences.
pub struct Store {
    pub accounts: Vec<AccountRow>,
    pub account_emails: Vec<AccountEmailRow>,
    pub sessions: Vec<SessionRow>,
    pub login_tokens: Vec<LoginTokenRow>,
    pub bank_accounts: Vec<BankAccountRow>,
    pub entries: Vec<EntryRow>,
    pub next_account_id: i64,
    pub next_account_email_id: i64,
    pub next_session_id: i64,
    pub next_login_token_id: i64,
    pub next_bank_account_id: i64,
    pub next_entry_id: i64,
}

pub ghost struct StoreX {
    pub accounts: Seq<AccountRowX>,
    pub account_emails: Seq<AccountEmailRowX>,
    pub sessions: Seq<SessionRowX>,
    pub login_tokens: Seq<LoginTokenRowX>,
    pub bank_accounts: Seq<BankAccountRowX>,
    pub entries: Seq<EntryRowX>,
    pub next_account_id: i64,
    pub next_account_email_id: i64,
    pub next_session_id: i64,
    pub next_login_token_id: i64,
    pub next_bank_account_id: i64,
    pub next_entry_id: i64,
}

impl View for Store {
    type V = StoreX;

    open spec fn view(&self) -> StoreX {
        StoreX {
            accounts: self.accounts@.map_values(|r: AccountRow| r@),
            account_emails: self.account_emails@.map_values(|r: AccountEmailRow| r@),
            sessions: self.sessions@.map_values(|r: SessionRow| r@),
            login_tokens: self.login_tokens@.map_values(|r: LoginTokenRow| r@),
            bank_accounts: self.bank_accounts@.map_values(|r: BankAccountRow| r@),
            entries: self.entries@.map_values(|r: EntryRow| r@),
            next_account_id: self.next_account_id,
            next_account_email_id: self.next_account_email_id,
            next_session_id: self.next_session_id,
            next_login_token_id: self.next_login_token_id,
            next_bank_account_id: self.next_bank_account_id,
            next_entry_id: self.next_entry_id,
        }
    }
}

impl StoreX {
    /// Identifiers are positive, strictly increasing in insertion order,
    /// and below the table's next identifier; emails, token texts and
    /// session `(key, name)` pairs are unique; amounts are well formed.
    pub open spec fn wf(self) -> bool {
        &&& forall|i: int, j: int|
            0 <= i < j < self.accounts.len() ==> #[trigger] self.accounts[i].id
                < #[trigger] self.accounts[j].id
        &&& forall|i: int|
            0 <= i < self.accounts.len() ==> 1 <= #[trigger] self.accounts[i].id
                < self.next_account_id
        &&& forall|i: int, j: int|
            0 <= i < j < self.account_emails.len() ==> #[trigger] self.account_emails[i].id
                < #[trigger] self.account_emails[j].id
        &&& forall|i: int|
            0 <= i < self.account_emails.len() ==> 1 <= #[trigger] self.account_emails[i].id
                < self.next_account_email_id
        &&& forall|i: int, j: int|
            0 <= i < j < self.account_emails.len() ==> #[trigger] self.account_emails[i].email
                != #[trigger] self.account_emails[j].email
        &&& forall|i: int, j: int|
            0 <= i < j < self.sessions.len() ==> #[trigger] self.sessions[i].id
                < #[trigger] self.sessions[j].id
        &&& forall|i: int|
            0 <= i < self.sessions.len() ==> 1 <= #[trigger] self.sessions[i].id
                < self.next_session_id
        &&& forall|i: int, j: int|
            0 <= i < j < self.sessions.len() ==> !(#[trigger] self.sessions[i].key
                == #[trigger] self.sessions[j].key && self.sessions[i].name
                == self.sessions[j].name)
        &&& forall|i: int, j: int|
            0 <= i < j < self.login_tokens.len() ==> #[trigger] self.login_tokens[i].id
                < #[trigger] self.login_tokens[j].id
        &&& forall|i: int|
            0 <= i < self.login_tokens.len() ==> 1 <= #[trigger] self.login_tokens[i].id
                < self.next_login_token_id
        &&& forall|i: int, j: int|
            0 <= i < j < self.login_tokens.len() ==> #[trigger] self.login_tokens[i].token
                != #[trigger] self.login_tokens[j].token
        &&& forall|i: int, j: int|
            0 <= i < j < self.bank_accounts.len() ==> #[trigger] self.bank_accounts[i].id
                < #[trigger] self.bank_accounts[j].id
        &&& forall|i: int|
            0 <= i < self.bank_accounts.len() ==> 1 <= #[trigger] self.bank_accounts[i].id
                < self.next_bank_account_id
        &&& forall|i: int, j: int|
            0 <= i < j < self.entries.len() ==> #[trigger] self.entries[i].id
                < #[trigger] self.entries[j].id
        &&& forall|i: int|
            0 <= i < self.entries.len() ==> 1 <= #[trigger] self.entries[i].id
                < self.next_entry_id
        &&& forall|i: int| 0 <= i < self.entries.len() ==> (#[trigger] self.entries[i].amount).wf()
        &&& 1 <= self.next_account_id
        &&& 1 <= self.next_account_email_id
        &&& 1 <= self.next_session_id
        &&& 1 <= self.next_login_token_id
        &&& 1 <= self.next_bank_account_id
        &&& 1 <= self.next_entry_id
    }

    /// Room to allocate one more identifier in every table.
    pub open spec fn can_alloc(self) -> bool {
        self.next_account_id < i64::MAX && self.next_account_email_id < i64::MAX
            && self.next_session_id < i64::MAX && self.next_login_token_id < i64::MAX
            && self.next_bank_account_id < i64::MAX && self.next_entry_id < i64::MAX
    }
}

/// The empty store, with every identifier sequence at one.
pub open spec fn empty_store() -> StoreX {
    StoreX {
        accounts: Seq::empty(),
        account_emails: Seq::empty(),
        sessions: Seq::empty(),
        login_tokens: Seq::empty(),
        bank_accounts: Seq::empty(),
        entries: Seq::empty(),
        next_account_id: 1,
        next_account_email_id: 1,
        next_session_id: 1,
        next_login_token_id: 1,
        next_bank_account_id: 1,
        next_entry_id: 1,
    }
}

pub open spec fn sess_pred(key: Seq<char>, name: Seq<char>) -> spec_fn(SessionRowX) -> bool {
    |r: SessionRowX| r.key == key && r.name == name
}

pub open spec fn sess_key_pred(key: Seq<char>) -> spec_fn(SessionRowX) -> bool {
    |r: SessionRowX| r.key == key
}

pub open spec fn email_pred(email: Seq<char>) -> spec_fn(AccountEmailRowX) -> bool {
    |r: AccountEmailRowX| r.email == email
}

pub open spec fn token_pred(token: Seq<char>) -> spec_fn(LoginTokenRowX) -> bool {
    |r: LoginTokenRowX| r.token == token
}

pub open spec fn token_unused_pred(token: Seq<char>) -> spec_fn(LoginTokenRowX) -> bool {
    |r: LoginTokenRowX| r.token == token && !r.used
}

pub open spec fn account_id_pred(id: i64) -> spec_fn(AccountRowX) -> bool {
    |r: AccountRowX| r.id == id
}

/// The value stored under `(key, name)`, if any.
pub open spec fn sess_val_spec(sv: StoreX, key: Seq<char>, name: Seq<char>) -> Option<Seq<char>> {
    match find_idx(sv.sessions, sess_pred(key, name)) {
        Some(i) => Some(sv.sessions[i].value),
        None => None,
    }
}

/// The account an email is bound to, if any.
pub open spec fn acc_id_by_email_spec(sv: StoreX, email: Seq<char>) -> Option<i64> {
    match find_idx(sv.account_emails, email_pred(email)) {
        Some(i) => Some(sv.account_emails[i].account),
        None => None,
    }
}

/// The account of the first unused login token with this text, if any.
pub open spec fn token_account_spec(sv: StoreX, token: Seq<char>) -> Option<i64> {
    match find_idx(sv.login_tokens, token_unused_pred(token)) {
        Some(i) => Some(sv.login_tokens[i].account),
        None => None,
    }
}

/// The emails bound to an account, in insertion order.
pub open spec fn emails_of_spec(sv: StoreX, acc_id: i64) -> Seq<Seq<char>>
    decreases sv.account_emails.len(),
{
    if sv.account_emails.len() == 0 {
        Seq::empty()
    } else {
        let t = StoreX { account_emails: sv.account_emails.drop_last(), ..sv };
        if sv.account_emails.last().account == acc_id {
            emails_of_spec(t, acc_id).push(sv.account_emails.last().email)
        } else {
            emails_of_spec(t, acc_id)
        }
    }
}

/// A fresh account bound to a fresh email row, in one transaction.
pub open spec fn create_acc_spec(sv: StoreX, email: Seq<char>, now: Timestamp) -> StoreX {
    StoreX {
        accounts: sv.accounts.push(
            AccountRowX { id: sv.next_account_id, created: now, modified: now },
        ),
        account_emails: sv.account_emails.push(
            AccountEmailRowX {
                id: sv.next_account_email_id,
                account: sv.next_account_id,
                email: email,
                created: now,
                modified: now,
            },
        ),
        next_account_id: (sv.next_account_id + 1) as i64,
        next_account_email_id: (sv.next_account_email_id + 1) as i64,
        ..sv
    }
}

/// A fresh, unused login token bound to an account.
pub open spec fn insert_token_spec(
    sv: StoreX,
    account_id: i64,
    token: Seq<char>,
    now: Timestamp,
) -> StoreX {
    StoreX {
        login_tokens: sv.login_tokens.push(
            LoginTokenRowX {
                id: sv.next_login_token_id,
                account: account_id,
                token: token,
                used: false,
                used_ts: None,
                created: now,
                modified: now,
            },
        ),
        next_login_token_id: (sv.next_login_token_id + 1) as i64,
        ..sv
    }
}

/// Upsert: overwrite the value and modification time of the existing
/// `(key, name)` row, or append a fresh row.
pub open spec fn set_session_value_spec(
    sv: StoreX,
    key: Seq<char>,
    name: Seq<char>,
    value: Seq<char>,
    now: Timestamp,
) -> StoreX {
    match find_idx(sv.sessions, sess_pred(key, name)) {
        Some(i) => StoreX {
            sessions: sv.sessions.update(
                i,
                SessionRowX { value: value, modified: now, ..sv.sessions[i] },
            ),
            ..sv
        },
        None => StoreX {
            sessions: sv.sessions.push(
                SessionRowX {
                    id: sv.next_session_id,
                    key: key,
                    name: name,
                    value: value,
                    created: now,
                    modified: now,
                },
            ),
            next_session_id: (sv.next_session_id + 1) as i64,
            ..sv
        },
    }
}

/// All rows of the session key removed.
pub open spec fn delete_session_spec(sv: StoreX, key: Seq<char>) -> StoreX {
    StoreX { sessions: remove_by(sv.sessions, sess_key_pred(key)), ..sv }
}

impl Store {
    /// A fresh, empty store.
    pub fn new() -> (s: Store)
        ensures
            s@ == empty_store(),
            s@.wf(),
            s@.can_alloc(),
    {
        let s = Store {
            accounts: Vec::new(),
            account_emails: Vec::new(),
            sessions: Vec::new(),
            login_tokens: Vec::new(),
            bank_accounts: Vec::new(),
            entries: Vec::new(),
            next_account_id: 1,
            next_account_email_id: 1,
            next_session_id: 1,
            next_login_token_id: 1,
            next_bank_account_id: 1,
            next_entry_id: 1,
        };
        proof {
            assert(s@.accounts =~= empty_store().accounts);
            assert(s@.account_emails =~= empty_store().account_emails);
            assert(s@.sessions =~= empty_store().sessions);
            assert(s@.login_tokens =~= empty_store().login_tokens);
            assert(s@.bank_accounts =~= empty_store().bank_accounts);
            assert(s@.entries =~= empty_store().entries);
        }
        s
    }

    /// Whether every identifier sequence has room for one more row.
    pub fn can_alloc(&self) -> (r: bool)
        ensures
            r == self@.can_alloc(),
    {
        self.next_account_id < i64::MAX && self.next_account_email_id < i64::MAX
            && self.next_session_id < i64::MAX && self.next_login_token_id < i64::MAX
            && self.next_bank_account_id < i64::MAX && self.next_entry_id < i64::MAX
    }

    /// Index of the `(key, name)` session row, if present.
    fn find_session(&self, key: &str, name: &str) -> (r: Option<usize>)
        ensures
            match r {
                Some(i) => i < self.sessions@.len() && find_idx(
                    self@.sessions,
                    sess_pred(key@, name@),
                ) == Some(i as int) && (sess_pred(key@, name@))(self@.sessions[i as int]),
                None => find_idx(self@.sessions, sess_pred(key@, name@)) is None,
            },
    {
        let ghost p = sess_pred(key@, name@);
        let mut i: usize = 0;
        while i < self.sessions.len()
            invariant
                i <= self.sessions@.len(),
                self@.sessions.len() == self.sessions@.len(),
                p == sess_pred(key@, name@),
                forall|j: int| 0 <= j < i ==> !p(#[trigger] self@.sessions[j]),
            decreases self.sessions@.len() - i,
        {
            let row = &self.sessions[i];
            if str_eq(row.key.as_str(), key) && str_eq(row.name.as_str(), name) {
                proof {
                    assert(p(self@.sessions[i as int]));
                    lemma_find_idx_at(self@.sessions, p, i as int);
                }
                return Some(i);
            }
            proof {
                assert(!p(self@.sessions[i as int]));
            }
            i = i + 1;
        }
        proof {
            lemma_find_idx_none(self@.sessions, p);
        }
        None
    }

    /// The value stored for this session key under this name; absent
    /// keys are simply absent values.
    pub fn get_sess_val(&self, sess_key: &str, name: &str) -> (r: Option<String>)
        ensures
            match r {
                Some(v) => sess_val_spec(self@, sess_key@, name@) == Some(v@),
                None => sess_val_spec(self@, sess_key@, name@) is None,
            },
    {
        match self.find_session(sess_key, name) {
            Some(i) => Some(self.sessions[i].value.clone()),
            None => None,
        }
    }

    /// Stores `(key, name, value)`, overwriting the value of an existing
    /// `(key, name)` row (upsert).
    pub fn set_session_value(
        &mut self,
        session_key: &str,
        name: &str,
        value: &str,
        now: Timestamp,
    ) -> (r: Result<(), DbError>)
        requires
            old(self)@.wf(),
            old(self)@.next_session_id < i64::MAX,
        ensures
            r is Ok,
            final(self)@ == set_session_value_spec(old(self)@, session_key@, name@, value@, now),
            final(self)@.wf(),
    {
        match self.find_session(session_key, name) {
            Some(i) => {
                let row = &self.sessions[i];
                let new_row = SessionRow {
                    id: row.id,
                    key: row.key.clone(),
                    name: row.name.clone(),
                    value: value.to_owned(),
                    created: row.created,
                    modified: now,
                };
                let ghost old_sv = self@;
                self.sessions[i] = new_row;
                proof {
                    assert(self@.sessions =~= old_sv.sessions.update(
                        i as int,
                        SessionRowX { value: value@, modified: now, ..old_sv.sessions[i as int] },
                    ));
                    assert(self@ =~= set_session_value_spec(old_sv, session_key@, name@, value@, now));
                    assert forall|a: int, b: int|
                        0 <= a < b < self@.sessions.len() implies #[trigger] self@.sessions[a].id
                        < #[trigger] self@.sessions[b].id by {
                        assert(old_sv.sessions[a].id < old_sv.sessions[b].id);
                    }
                    assert forall|a: int, b: int| 0 <= a < b < self@.sessions.len() implies !(
                    #[trigger] self@.sessions[a].key == #[trigger] self@.sessions[b].key
                        && self@.sessions[a].name == self@.sessions[b].name) by {
                        assert(!(old_sv.sessions[a].key == old_sv.sessions[b].key
                            && old_sv.sessions[a].name == old_sv.sessions[b].name));
                        assert(self@.sessions[a].key == old_sv.sessions[a].key
                            && self@.sessions[a].name == old_sv.sessions[a].name);
                        assert(self@.sessions[b].key == old_sv.sessions[b].key
                            && self@.sessions[b].name == old_sv.sessions[b].name);
                    }
                }
                Ok(())
            },
            None => {
                let ghost old_sv = self@;
                let row = SessionRow {
                    id: self.next_session_id,
                    key: session_key.to_owned(),
                    name: name.to_owned(),
                    value: value.to_owned(),
                    created: now,
                    modified: now,
                };
                self.sessions.push(row);
                self.next_session_id = self.next_session_id + 1;
                proof {
                    let rx = SessionRowX {
                        id: old_sv.next_session_id,
                        key: session_key@,
                        name: name@,
                        value: value@,
                        created: now,
                        modified: now,
                    };
                    assert(self@.sessions =~= old_sv.sessions.push(rx));
                    assert(self@ =~= set_session_value_spec(old_sv, session_key@, name@, value@, now));
                    lemma_find_idx(old_sv.sessions, sess_pred(session_key@, name@));
                    assert forall|a: int, b: int| 0 <= a < b < self@.sessions.len() implies !(
                    #[trigger] self@.sessions[a].key == #[trigger] self@.sessions[b].key
                        && self@.sessions[a].name == self@.sessions[b].name) by {
                        if b < old_sv.sessions.len() {
                            assert(!(old_sv.sessions[a].key == old_sv.sessions[b].key
                                && old_sv.sessions[a].name == old_sv.sessions[b].name));
                        } else {
                            assert(self@.sessions[b] == rx);
                            assert(!(sess_pred(session_key@, name@))(old_sv.sessions[a]));
                        }
                    }
                }
                Ok(())
            },
        }
    }

    /// Index of the email row with this text, if present.
    fn find_email(&self, email: &str) -> (r: Option<usize>)
        ensures
            match r {
                Some(i) => i < self.account_emails@.len() && find_idx(
                    self@.account_emails,
                    email_pred(email@),
                ) == Some(i as int) && (email_pred(email@))(self@.account_emails[i as int]),
                None => find_idx(self@.account_emails, email_pred(email@)) is None,
            },
    {
        let ghost p = email_pred(email@);
        let mut i: usize = 0;
        while i < self.account_emails.len()
            invariant
                i <= self.account_emails@.len(),
                self@.account_emails.len() == self.account_emails@.len(),
                p == email_pred(email@),
                forall|j: int| 0 <= j < i ==> !p(#[trigger] self@.account_emails[j]),
            decreases self.account_emails@.len() - i,
        {
            let row = &self.account_emails[i];
            if str_eq(row.email.as_str(), email) {
                proof {
                    assert(p(self@.account_emails[i as int]));
                    lemma_find_idx_at(self@.account_emails, p, i as int);
                }
                return Some(i);
            }
            proof {
                assert(!p(self@.account_emails[i as int]));
            }
            i = i + 1;
        }
        proof {
            lemma_find_idx_none(self@.account_emails, p);
        }
        None
    }

    /// The account this email is bound to, if any.
    pub fn get_acc_id_by_email(&self, email: &str) -> (r: Result<Option<i64>, DbError>)
        ensures
            r is Ok && r.unwrap() == acc_id_by_email_spec(self@, email@),
    {
        match self.find_email(email) {
            Some(i) => Ok(Some(self.account_emails[i].account)),
            None => Ok(None),
        }
    }

    /// Creates a fresh account together with its first email, as one
    /// transaction: when the email is already bound — the store's
    /// uniqueness constraint — nothing at all changes and an error comes
    /// back, so no orphan account is left behind.
    pub fn create_acc_with_email(&mut self, email: &str, now: Timestamp) -> (r: Result<
        i64,
        DbError,
    >)
        requires
            old(self)@.wf(),
            old(self)@.next_account_id < i64::MAX,
            old(self)@.next_account_email_id < i64::MAX,
        ensures
            final(self)@.wf(),
            match r {
                Ok(id) => acc_id_by_email_spec(old(self)@, email@) is None && id == old(self)@.next_account_id && final(self)@ == create_acc_spec(old(self)@, email@, now),
                Err(_) => acc_id_by_email_spec(old(self)@, email@) is Some && final(self)@ == old(self)@,
            },
    {
        let ghost old_sv = self@;
        match self.find_email(email) {
            Some(_) => Err(DbError::new("duplicate key value violates unique constraint")),
            None => {
                let id = self.next_account_id;
                self.accounts.push(AccountRow { id: id, created: now, modified: now });
                self.account_emails.push(
                    AccountEmailRow {
                        id: self.next_account_email_id,
                        account: id,
                        email: email.to_owned(),
                        created: now,
                        modified: now,
                    },
                );
                self.next_account_id = self.next_account_id + 1;
                self.next_account_email_id = self.next_account_email_id + 1;
                proof {
                    let ax = AccountRowX { id: old_sv.next_account_id, created: now, modified: now };
                    let ex = AccountEmailRowX {
                        id: old_sv.next_account_email_id,
                        account: old_sv.next_account_id,
                        email: email@,
                        created: now,
                        modified: now,
                    };
                    assert(self@.accounts =~= old_sv.accounts.push(ax));
                    assert(self@.account_emails =~= old_sv.account_emails.push(ex));
                    assert(self@ =~= create_acc_spec(old_sv, email@, now));
                    lemma_find_idx(old_sv.account_emails, email_pred(email@));
                    assert forall|a: int, b: int|
                        0 <= a < b < self@.account_emails.len() implies #[trigger] self@
                        .account_emails[a].email != #[trigger] self@.account_emails[b].email by {
                        if b < old_sv.account_emails.len() {
                            assert(old_sv.account_emails[a].email != old_sv.account_emails[b].email);
                        } else {
                            assert(self@.account_emails[b] == ex);
                            assert(!(email_pred(email@))(old_sv.account_emails[a]));
                        }
                    }
                }
                Ok(id)
            },
        }
    }

    /// All emails bound to the account, in insertion order.
    pub fn get_user_account_emails(&self, acc_id: i64) -> (r: Result<Box<Vec<String>>, DbError>)
        ensures
            r is Ok && r.unwrap()@.map_values(|s: String| s@) == emails_of_spec(self@, acc_id),
    {
        let mut out: Vec<String> = Vec::new();
        let mut i: usize = 0;
        while i < self.account_emails.len()
            invariant
                i <= self.account_emails@.len(),
                out@.map_values(|s: String| s@) == emails_of_spec(
                    StoreX { account_emails: self@.account_emails.take(i as int), ..self@ },
                    acc_id,
                ),
            decreases self.account_emails@.len() - i,
        {
            let ghost prefix = StoreX {
                account_emails: self@.account_emails.take(i as int),
                ..self@
            };
            let ghost prefix1 = StoreX {
                account_emails: self@.account_emails.take(i + 1),
                ..self@
            };
            proof {
                assert(prefix1.account_emails.drop_last() =~= prefix.account_emails);
                assert(prefix1.account_emails.last() == self@.account_emails[i as int]);
            }
            let row = &self.account_emails[i];
            if row.account == acc_id {
                out.push(row.email.clone());
            }
            proof {
                assert(out@.map_values(|s: String| s@) =~= emails_of_spec(prefix1, acc_id));
            }
            i = i + 1;
        }
        proof {
            assert(self@.account_emails.take(self@.account_emails.len() as int)
                =~= self@.account_emails);
            assert(StoreX { account_emails: self@.account_emails, ..self@ } =~= self@);
        }
        Ok(Box::new(out))
    }

    /// Index of the account row with this identifier, if present.
    fn find_account(&self, acc_id: i64) -> (r: Option<usize>)
        ensures
            match r {
                Some(i) => i < self.accounts@.len() && find_idx(
                    self@.accounts,
                    account_id_pred(acc_id),
                ) == Some(i as int) && self@.accounts[i as int].id == acc_id,
                None => find_idx(self@.accounts, account_id_pred(acc_id)) is None,
            },
    {
        let ghost p = account_id_pred(acc_id);
        let mut i: usize = 0;
        while i < self.accounts.len()
            invariant
                i <= self.accounts@.len(),
                self@.accounts.len() == self.accounts@.len(),
                p == account_id_pred(acc_id),
                forall|j: int| 0 <= j < i ==> !p(#[trigger] self@.accounts[j]),
            decreases self.accounts@.len() - i,
        {
            if self.accounts[i].id == acc_id {
                proof {
                    assert(p(self@.accounts[i as int]));
                    lemma_find_idx_at(self@.accounts, p, i as int);
                }
                return Some(i);
            }
            proof {
                assert(!p(self@.accounts[i as int]));
            }
            i = i + 1;
        }
        proof {
            lemma_find_idx_none(self@.accounts, p);
        }
        None
    }

    /// The account row's timestamps and its emails, if the account
    /// exists.
    pub fn get_user_account_info(&self, acc_id: i64) -> (r: Result<Option<AccountInfo>, DbError>)
        ensures
            r is Ok,
            match r.unwrap() {
                Some(info) => {
                    &&& find_idx(self@.accounts, account_id_pred(acc_id)) is Some
                    &&& ({
                        let i = find_idx(self@.accounts, account_id_pred(acc_id)).unwrap();
                        info.created_at == self@.accounts[i].created && info.modified_at
                            == self@.accounts[i].modified
                    })
                    &&& info.emails@.map_values(|s: String| s@) == emails_of_spec(self@, acc_id)
                },
                None => find_idx(self@.accounts, account_id_pred(acc_id)) is None,
            },
    {
        let emails = match self.get_user_account_emails(acc_id) {
            Ok(e) => e,
            Err(e) => {
                return Err(e);
            },
        };
        match self.find_account(acc_id) {
            Some(i) => {
                let row = &self.accounts[i];
                let info = AccountInfo {
                    created_at: row.created,
                    modified_at: row.modified,
                    emails: emails,
                };
                Ok(Some(info))
            },
            None => Ok(None),
        }
    }

    /// Index of the first token row with this text, used or not.
    fn find_token_any(&self, token: &str) -> (r: Option<usize>)
        ensures
            match r {
                Some(i) => i < self.login_tokens@.len() && find_idx(
                    self@.login_tokens,
                    token_pred(token@),
                ) == Some(i as int) && (token_pred(token@))(self@.login_tokens[i as int]),
                None => find_idx(self@.login_tokens, token_pred(token@)) is None,
            },
    {
        let ghost p = token_pred(token@);
        let mut i: usize = 0;
        while i < self.login_tokens.len()
            invariant
                i <= self.login_tokens@.len(),
                self@.login_tokens.len() == self.login_tokens@.len(),
                p == token_pred(token@),
                forall|j: int| 0 <= j < i ==> !p(#[trigger] self@.login_tokens[j]),
            decreases self.login_tokens@.len() - i,
        {
            let row = &self.login_tokens[i];
            if str_eq(row.token.as_str(), token) {
                proof {
                    assert(p(self@.login_tokens[i as int]));
                    lemma_find_idx_at(self@.login_tokens, p, i as int);
                }
                return Some(i);
            }
            proof {
                assert(!p(self@.login_tokens[i as int]));
            }
            i = i + 1;
        }
        proof {
            lemma_find_idx_none(self@.login_tokens, p);
        }
        None
    }

    /// Persists a fresh, unused login token bound to the account.  A
    /// token text already present violates the store's uniqueness
    /// constraint: nothing changes and an error comes back.
    pub fn insert_login_token(&mut self, account_id: &i64, token: &str, now: Timestamp) -> (r:
        Result<(), DbError>)
        requires
            old(self)@.wf(),
            old(self)@.next_login_token_id < i64::MAX,
        ensures
            final(self)@.wf(),
            match r {
                Ok(_) => find_idx(old(self)@.login_tokens, token_pred(token@)) is None && final(self)@ == insert_token_spec(old(self)@, *account_id, token@, now),
                Err(_) => find_idx(old(self)@.login_tokens, token_pred(token@)) is Some && final(self)@ == old(self)@,
            },
    {
        let ghost old_sv = self@;
        match self.find_token_any(token) {
            Some(_) => Err(DbError::new("duplicate key value violates unique constraint")),
            None => {
                let row = LoginTokenRow {
                    id: self.next_login_token_id,
                    account: *account_id,
                    token: token.to_owned(),
                    used: false,
                    used_ts: None,
                    created: now,
                    modified: now,
                };
                self.login_tokens.push(row);
                self.next_login_token_id = self.next_login_token_id + 1;
                proof {
                    let tx = LoginTokenRowX {
                        id: old_sv.next_login_token_id,
                        account: *account_id,
                        token: token@,
                        used: false,
                        used_ts: None,
                        created: now,
                        modified: now,
                    };
                    assert(self@.login_tokens =~= old_sv.login_tokens.push(tx));
                    assert(self@ =~= insert_token_spec(old_sv, *account_id, token@, now));
                    lemma_find_idx(old_sv.login_tokens, token_pred(token@));
                    assert forall|a: int, b: int|
                        0 <= a < b < self@.login_tokens.len() implies #[trigger] self@
                        .login_tokens[a].token != #[trigger] self@.login_tokens[b].token by {
                        if b < old_sv.login_tokens.len() {
                            assert(old_sv.login_tokens[a].token != old_sv.login_tokens[b].token);
                        } else {
                            assert(self@.login_tokens[b] == tx);
                            assert(!(token_pred(token@))(old_sv.login_tokens[a]));
                        }
                    }
                }
                Ok(())
            },
        }
    }

    /// Get account id by login token.
    /// Only active tokens are queried.
    pub fn get_login_token_account(&self, token: &str) -> (r: Result<Option<i64>, DbError>)
        ensures
            r is Ok && r.unwrap() == token_account_spec(self@, token@),
    {
        let ghost p = token_unused_pred(token@);
        let mut i: usize = 0;
        while i < self.login_tokens.len()
            invariant
                i <= self.login_tokens@.len(),
                self@.login_tokens.len() == self.login_tokens@.len(),
                p == token_unused_pred(token@),
                forall|j: int| 0 <= j < i ==> !p(#[trigger] self@.login_tokens[j]),
            decreases self.login_tokens@.len() - i,
        {
            let row = &self.login_tokens[i];
            if !row.used && str_eq(row.token.as_str(), token) {
                proof {
                    assert(p(self@.login_tokens[i as int]));
                    lemma_find_idx_at(self@.login_tokens, p, i as int);
                }
                return Ok(Some(row.account));
            }
            proof {
                assert(!p(self@.login_tokens[i as int]));
            }
            i = i + 1;
        }
        proof {
            lemma_find_idx_none(self@.login_tokens, p);
        }
        Ok(None)
    }

    /// Removes every row of the session key; removing an absent key is
    /// a no-op, not an error.
    pub fn delete_session(&mut self, session_key: &str) -> (r: Result<(), DbError>)
        requires
            old(self)@.wf(),
        ensures
            r is Ok,
            final(self)@ == delete_session_spec(old(self)@, session_key@),
            final(self)@.wf(),
            old(self)@.can_alloc() ==> final(self)@.can_alloc(),
    {
        let ghost old_sv = self@;
        let ghost p = sess_key_pred(session_key@);
        let mut kept: Vec<SessionRow> = Vec::new();
        let mut i: usize = 0;
        while i < self.sessions.len()
            invariant
                i <= self.sessions@.len(),
                self@ == old_sv,
                p == sess_key_pred(session_key@),
                kept@.map_values(|r: SessionRow| r@) == remove_by(
                    old_sv.sessions.take(i as int),
                    p,
                ),
            decreases self.sessions@.len() - i,
        {
            let ghost prefix = old_sv.sessions.take(i as int);
            let ghost prefix1 = old_sv.sessions.take(i + 1);
            proof {
                assert(prefix1.drop_last() =~= prefix);
                assert(prefix1.last() == old_sv.sessions[i as int]);
            }
            let row = &self.sessions[i];
            if !str_eq(row.key.as_str(), session_key) {
                let copy = SessionRow {
                    id: row.id,
                    key: row.key.clone(),
                    name: row.name.clone(),
                    value: row.value.clone(),
                    created: row.created,
                    modified: row.modified,
                };
                proof {
                    assert(copy@ == old_sv.sessions[i as int]);
                }
                kept.push(copy);
                proof {
                    assert(kept@.map_values(|r: SessionRow| r@) =~= remove_by(prefix1, p));
                }
            } else {
                proof {
                    assert(p(old_sv.sessions[i as int]));
                    assert(kept@.map_values(|r: SessionRow| r@) =~= remove_by(prefix1, p));
                }
            }
            i = i + 1;
        }
        proof {
            assert(old_sv.sessions.take(old_sv.sessions.len() as int) =~= old_sv.sessions);
        }
        self.sessions = kept;
        proof {
            assert(self@ =~= delete_session_spec(old_sv, session_key@));
            lemma_remove_by_all(
                old_sv.sessions,
                p,
                |r: SessionRowX| 1 <= r.id < old_sv.next_session_id,
            );
            lemma_remove_by_pairwise(
                old_sv.sessions,
                p,
                |a: SessionRowX, b: SessionRowX| a.id < b.id,
            );
            lemma_remove_by_pairwise(
                old_sv.sessions,
                p,
                |a: SessionRowX, b: SessionRowX| !(a.key == b.key && a.name == b.name),
            );
        }
        Ok(())
    }
}

} // verus!
