//! The values the pages work with, and their ghost views.
//!
//! Each carrier type holds plain text fields; its view replaces every
//! `String` by its character sequence, so contracts can pin the content
//! down exactly.

use vstd::prelude::*;
use crate::timestamp::Timestamp;

verus! {

/// Just a Bank Account.
pub struct BankAccount {
    pub id: i64,
    pub name: String,
    pub currency: String,
}

pub ghost struct BankAccountX {
    pub id: i64,
    pub name: Seq<char>,
    pub currency: Seq<char>,
}

impl View for BankAccount {
    type V = BankAccountX;

    open spec fn view(&self) -> BankAccountX {
        BankAccountX { id: self.id, name: self.name@, currency: self.currency@ }
    }
}

/// Bank Account with some other joins: the latest entry's amount and
/// timestamp next to the account's name and currency.
pub struct BankAccountInfo {
    pub bank_account: String,
    pub amount: String,
    pub currency: String,
    pub ts: Timestamp,
}

pub ghost struct BankAccountInfoX {
    pub bank_account: Seq<char>,
    pub amount: Seq<char>,
    pub currency: Seq<char>,
    pub ts: Timestamp,
}

impl View for BankAccountInfo {
    type V = BankAccountInfoX;

    open spec fn view(&self) -> BankAccountInfoX {
        BankAccountInfoX {
            bank_account: self.bank_account@,
            amount: self.amount@,
            currency: self.currency@,
            ts: self.ts,
        }
    }
}

/// Details by currency.
pub struct CurrencyInfo {
    pub currency: String,
    pub amount: String,
    pub ts: Timestamp,
}

pub ghost struct CurrencyInfoX {
    pub currency: Seq<char>,
    pub amount: Seq<char>,
    pub ts: Timestamp,
}

impl View for CurrencyInfo {
    type V = CurrencyInfoX;

    open spec fn view(&self) -> CurrencyInfoX {
        CurrencyInfoX { currency: self.currency@, amount: self.amount@, ts: self.ts }
    }
}

/// Bank account balance log entry.
pub struct EntryInfo {
    pub amount: String,
    pub bank_account: String,
    pub currency: String,
    pub id: i64,
    pub ts: Timestamp,
}

pub ghost struct EntryInfoX {
    pub amount: Seq<char>,
    pub bank_account: Seq<char>,
    pub currency: Seq<char>,
    pub id: i64,
    pub ts: Timestamp,
}

impl View for EntryInfo {
    type V = EntryInfoX;

    open spec fn view(&self) -> EntryInfoX {
        EntryInfoX {
            amount: self.amount@,
            bank_account: self.bank_account@,
            currency: self.currency@,
            id: self.id,
            ts: self.ts,
        }
    }
}

/// Details about user account, e.g. as displayed in profile page.
pub struct AccountInfo {
    pub created_at: Timestamp,
    pub modified_at: Timestamp,
    pub emails: Box<Vec<String>>,
}

/// What the surrounding application is configured with.
#[derive(Debug)]
pub struct Config {
    pub base_url: String,
    pub use_email: bool,
    pub port: Option<i32>,
    pub db_host: String,
    pub db_port: u16,
    pub db_name: String,
    pub db_username: String,
    pub db_password: String,
}

} // verus!
