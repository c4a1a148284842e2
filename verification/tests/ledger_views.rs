//! The entry ledger: listings, summaries and soft deletion.

use cashlog::store::Store;
use cashlog::timestamp::Timestamp;

fn ts(d: u32, h: u32) -> Timestamp {
    Timestamp { year: 2024, month: 3, day: d, hour: h, minute: 0, second: 0, micros: 0 }
}

/// One account with two bank accounts; returns (store, account id,
/// checking id, savings id).
fn two_bank_accounts() -> (Store, i64, i64, i64) {
    let mut store = Store::new();
    let acc = store.create_acc_with_email("alice@example.com", ts(1, 8)).unwrap();
    store.insert_bank_account(acc, "Checking", "USD", ts(1, 8)).unwrap();
    store.insert_bank_account(acc, "Savings", "USD", ts(1, 8)).unwrap();
    let checking = store.bank_accounts[0].id;
    let savings = store.bank_accounts[1].id;
    (store, acc, checking, savings)
}

#[test]
fn list_entries_orders_descending_and_skips_deleted() {
    let (mut store, acc, checking, _) = two_bank_accounts();
    store.insert_entry(&acc, &checking, &ts(2, 9), "10.00", ts(2, 9)).unwrap();
    store.insert_entry(&acc, &checking, &ts(4, 9), "30.00", ts(4, 9)).unwrap();
    store.insert_entry(&acc, &checking, &ts(3, 9), "20.00", ts(3, 9)).unwrap();
    // soft-delete the middle observation
    let deleted_id = store.entries[2].id;
    store.delete_entry(acc, deleted_id, ts(5, 0)).unwrap();
    let entries = store.get_entries(acc).unwrap();
    assert_eq!(entries.len(), 2);
    assert_eq!(entries[0].amount, "30.00");
    assert_eq!(entries[1].amount, "10.00");
    assert!(entries[1].ts.le(&entries[0].ts));
    // the deleted row is retained in storage, only hidden from reads
    assert_eq!(store.entries.len(), 3);
    assert!(store.entries[2].deleted);
}

#[test]
fn list_entries_skips_entries_of_deleted_bank_accounts() {
    let (mut store, acc, checking, savings) = two_bank_accounts();
    store.insert_entry(&acc, &checking, &ts(2, 9), "10.00", ts(2, 9)).unwrap();
    store.insert_entry(&acc, &savings, &ts(3, 9), "20.00", ts(3, 9)).unwrap();
    // soft-delete the Savings bank account by hand, as the store keeps it
    store.bank_accounts[1].deleted = true;
    let entries = store.get_entries(acc).unwrap();
    assert_eq!(entries.len(), 1);
    assert_eq!(entries[0].bank_account, "Checking");
}

#[test]
fn list_entries_is_scoped_to_the_account() {
    let (mut store, acc, checking, _) = two_bank_accounts();
    let other = store.create_acc_with_email("bob@example.com", ts(1, 9)).unwrap();
    store.insert_entry(&acc, &checking, &ts(2, 9), "10.00", ts(2, 9)).unwrap();
    assert_eq!(store.get_entries(acc).unwrap().len(), 1);
    assert_eq!(store.get_entries(other).unwrap().len(), 0);
}

#[test]
fn insert_entry_with_foreign_bank_account_is_a_silent_noop() {
    let (mut store, _acc, checking, _) = two_bank_accounts();
    let other = store.create_acc_with_email("bob@example.com", ts(1, 9)).unwrap();
    // bob names alice's bank account: zero rows affected, no error
    let r = store.insert_entry(&other, &checking, &ts(2, 9), "10.00", ts(2, 9));
    assert!(r.is_ok());
    assert_eq!(store.entries.len(), 0);
}

#[test]
fn insert_entry_rejects_a_malformed_amount() {
    let (mut store, acc, checking, _) = two_bank_accounts();
    let r = store.insert_entry(&acc, &checking, &ts(2, 9), "ten dollars", ts(2, 9));
    assert!(r.is_err());
    assert_eq!(store.entries.len(), 0);
}

#[test]
fn entries_by_bank_account_ascend_and_filter_by_name() {
    let (mut store, acc, checking, savings) = two_bank_accounts();
    store.insert_entry(&acc, &checking, &ts(4, 9), "30.00", ts(4, 9)).unwrap();
    store.insert_entry(&acc, &checking, &ts(2, 9), "10.00", ts(2, 9)).unwrap();
    store.insert_entry(&acc, &savings, &ts(3, 9), "20.00", ts(3, 9)).unwrap();
    let entries = store.get_entries_by_bank_account(acc, "Checking").unwrap();
    assert_eq!(entries.len(), 2);
    assert_eq!(entries[0].amount, "10.00");
    assert_eq!(entries[1].amount, "30.00");
    assert!(entries[0].ts.le(&entries[1].ts));
}

#[test]
fn list_entries_caps_at_1024_rows() {
    let (mut store, acc, checking, _) = two_bank_accounts();
    for i in 0..1030u32 {
        let at = Timestamp {
            year: 2024,
            month: 3,
            day: 1,
            hour: i / 60 % 24,
            minute: i % 60,
            second: i / 1440,
            micros: 0,
        };
        store.insert_entry(&acc, &checking, &at, "1.00", at).unwrap();
    }
    let entries = store.get_entries(acc).unwrap();
    assert_eq!(entries.len(), 1024);
}

#[test]
fn latest_entry_tie_keeps_the_first_inserted() {
    let (mut store, acc, checking, _) = two_bank_accounts();
    let at = ts(2, 9);
    store.insert_entry(&acc, &checking, &at, "10.00", at).unwrap();
    store.insert_entry(&acc, &checking, &at, "20.00", at).unwrap();
    let infos = store.get_bank_account_infos(acc).unwrap();
    assert_eq!(infos.len(), 1);
    assert_eq!(infos[0].amount, "10.00");
}

#[test]
fn views_of_an_empty_ledger_are_empty() {
    let mut store = Store::new();
    let acc = store.create_acc_with_email("alice@example.com", ts(1, 8)).unwrap();
    assert!(store.get_entries(acc).unwrap().is_empty());
    assert!(store.get_bank_accounts(acc).unwrap().is_empty());
    assert!(store.get_bank_account_infos(acc).unwrap().is_empty());
    assert!(store.get_currency_info(acc).unwrap().is_empty());
}

#[test]
fn get_entry_joins_and_respects_visibility() {
    let (mut store, acc, checking, _) = two_bank_accounts();
    store.insert_entry(&acc, &checking, &ts(2, 9), "10.50", ts(2, 9)).unwrap();
    let id = store.entries[0].id;
    let info = store.get_entry(acc, id).unwrap().unwrap();
    assert_eq!(info.amount, "10.50");
    assert_eq!(info.bank_account, "Checking");
    assert_eq!(info.currency, "USD");
    assert_eq!(info.ts, ts(2, 9));
    // another account sees nothing
    let other = store.create_acc_with_email("bob@example.com", ts(1, 9)).unwrap();
    assert!(store.get_entry(other, id).unwrap().is_none());
    // a deleted entry is gone from this read too
    store.delete_entry(acc, id, ts(3, 0)).unwrap();
    assert!(store.get_entry(acc, id).unwrap().is_none());
}

#[test]
fn update_entry_amount_replaces_only_owned_visible_entries() {
    let (mut store, acc, checking, _) = two_bank_accounts();
    store.insert_entry(&acc, &checking, &ts(2, 9), "10.00", ts(2, 9)).unwrap();
    let id = store.entries[0].id;
    store.update_entry_amount(acc, id, "11.25".to_string(), ts(3, 0)).unwrap();
    let info = store.get_entry(acc, id).unwrap().unwrap();
    assert_eq!(info.amount, "11.25");
    // a foreign account updates nothing
    let other = store.create_acc_with_email("bob@example.com", ts(1, 9)).unwrap();
    store.update_entry_amount(other, id, "99.99".to_string(), ts(3, 1)).unwrap();
    assert_eq!(store.get_entry(acc, id).unwrap().unwrap().amount, "11.25");
    // a malformed amount is an error
    assert!(store.update_entry_amount(acc, id, "bad".to_string(), ts(3, 2)).is_err());
}

#[test]
fn deleting_an_entry_of_another_account_is_a_noop() {
    let (mut store, acc, checking, _) = two_bank_accounts();
    store.insert_entry(&acc, &checking, &ts(2, 9), "10.00", ts(2, 9)).unwrap();
    let id = store.entries[0].id;
    let other = store.create_acc_with_email("bob@example.com", ts(1, 9)).unwrap();
    store.delete_entry(other, id, ts(3, 0)).unwrap();
    assert!(!store.entries[0].deleted);
}

#[test]
fn bank_accounts_come_back_sorted_by_name() {
    let mut store = Store::new();
    let acc = store.create_acc_with_email("alice@example.com", ts(1, 8)).unwrap();
    store.insert_bank_account(acc, "Savings", "EUR", ts(1, 8)).unwrap();
    store.insert_bank_account(acc, "Checking", "USD", ts(1, 8)).unwrap();
    store.insert_bank_account(acc, "Checking", "GBP", ts(1, 8)).unwrap();
    let accounts = store.get_bank_accounts(acc).unwrap();
    assert_eq!(accounts.len(), 3);
    assert_eq!(accounts[0].name, "Checking");
    assert_eq!(accounts[1].name, "Checking");
    assert!(accounts[0].id < accounts[1].id);
    assert_eq!(accounts[2].name, "Savings");
}

#[test]
fn bank_account_summaries_report_the_latest_entry() {
    let (mut store, acc, checking, savings) = two_bank_accounts();
    store.insert_entry(&acc, &checking, &ts(2, 9), "10.00", ts(2, 9)).unwrap();
    store.insert_entry(&acc, &checking, &ts(4, 9), "30.00", ts(4, 9)).unwrap();
    store.insert_entry(&acc, &checking, &ts(3, 9), "20.00", ts(3, 9)).unwrap();
    // Savings has no entries at all and is excluded
    let _ = savings;
    let infos = store.get_bank_account_infos(acc).unwrap();
    assert_eq!(infos.len(), 1);
    assert_eq!(infos[0].bank_account, "Checking");
    assert_eq!(infos[0].amount, "30.00");
    assert_eq!(infos[0].ts, ts(4, 9));
}

#[test]
fn bank_account_summaries_ignore_deleted_entries() {
    let (mut store, acc, checking, _) = two_bank_accounts();
    store.insert_entry(&acc, &checking, &ts(2, 9), "10.00", ts(2, 9)).unwrap();
    store.insert_entry(&acc, &checking, &ts(4, 9), "30.00", ts(4, 9)).unwrap();
    let latest_id = store.entries[1].id;
    store.delete_entry(acc, latest_id, ts(5, 0)).unwrap();
    let infos = store.get_bank_account_infos(acc).unwrap();
    assert_eq!(infos.len(), 1);
    assert_eq!(infos[0].amount, "10.00");
    assert_eq!(infos[0].ts, ts(2, 9));
}

#[test]
fn currency_summary_sums_latest_amounts_per_currency() {
    // account A: Checking(USD) 100.00 @ t1 and Savings(USD) 50.00 @ t2,
    // with t2 after t1: one USD row, amount 150.00, timestamp t2
    let (mut store, acc, checking, savings) = two_bank_accounts();
    let t1 = ts(2, 9);
    let t2 = ts(3, 9);
    store.insert_entry(&acc, &checking, &t1, "100.00", t1).unwrap();
    store.insert_entry(&acc, &savings, &t2, "50.00", t2).unwrap();
    let infos = store.get_currency_info(acc).unwrap();
    assert_eq!(infos.len(), 1);
    assert_eq!(infos[0].currency, "USD");
    assert_eq!(infos[0].amount, "150.00");
    assert_eq!(infos[0].ts, t2);
}

#[test]
fn currency_summary_sums_only_the_latest_entry_of_each_bank_account() {
    let (mut store, acc, checking, savings) = two_bank_accounts();
    store.insert_entry(&acc, &checking, &ts(2, 9), "100.00", ts(2, 9)).unwrap();
    store.insert_entry(&acc, &checking, &ts(4, 9), "40.00", ts(4, 9)).unwrap();
    store.insert_entry(&acc, &savings, &ts(3, 9), "50.00", ts(3, 9)).unwrap();
    let infos = store.get_currency_info(acc).unwrap();
    assert_eq!(infos.len(), 1);
    assert_eq!(infos[0].amount, "90.00");
    assert_eq!(infos[0].ts, ts(4, 9));
}

#[test]
fn currency_summary_groups_by_currency_in_order() {
    let mut store = Store::new();
    let acc = store.create_acc_with_email("alice@example.com", ts(1, 8)).unwrap();
    store.insert_bank_account(acc, "A", "USD", ts(1, 8)).unwrap();
    store.insert_bank_account(acc, "B", "EUR", ts(1, 8)).unwrap();
    let usd = store.bank_accounts[0].id;
    let eur = store.bank_accounts[1].id;
    store.insert_entry(&acc, &usd, &ts(2, 9), "1.50", ts(2, 9)).unwrap();
    store.insert_entry(&acc, &eur, &ts(3, 9), "2.25", ts(3, 9)).unwrap();
    let infos = store.get_currency_info(acc).unwrap();
    assert_eq!(infos.len(), 2);
    assert_eq!(infos[0].currency, "EUR");
    assert_eq!(infos[0].amount, "2.25");
    assert_eq!(infos[1].currency, "USD");
    assert_eq!(infos[1].amount, "1.50");
}

#[test]
fn currency_summary_overflowing_the_numeric_range_is_an_error() {
    let (mut store, acc, checking, savings) = two_bank_accounts();
    // two balances near the top of the 38-digit range cannot be summed
    let huge = "99999999999999999999999999999999999999";
    store.insert_entry(&acc, &checking, &ts(2, 9), huge, ts(2, 9)).unwrap();
    store.insert_entry(&acc, &savings, &ts(3, 9), huge, ts(3, 9)).unwrap();
    assert!(store.get_currency_info(acc).is_err());
}

#[test]
fn currency_summary_of_mixed_scales_keeps_exact_decimals() {
    let (mut store, acc, checking, savings) = two_bank_accounts();
    store.insert_entry(&acc, &checking, &ts(2, 9), "0.1", ts(2, 9)).unwrap();
    store.insert_entry(&acc, &savings, &ts(3, 9), "0.25", ts(3, 9)).unwrap();
    let infos = store.get_currency_info(acc).unwrap();
    assert_eq!(infos.len(), 1);
    assert_eq!(infos[0].amount, "0.35");
}
