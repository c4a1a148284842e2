//! The login flow, sessions and tokens, exercised end to end on a
//! fresh store.

use cashlog::flow::issue;
use cashlog::flow::login_email_body;
use cashlog::flow::login_url;
use cashlog::flow::resolve_account;
use cashlog::store::Store;
use cashlog::timestamp::Timestamp;

fn ts(h: u32) -> Timestamp {
    Timestamp { year: 2024, month: 5, day: 17, hour: h, minute: 0, second: 0, micros: 0 }
}

#[test]
fn first_login_creates_account_and_email() {
    let mut store = Store::new();
    let (acc, token) = store.start_login("alice@example.com", ts(9)).unwrap();
    assert_eq!(acc, 1);
    assert_eq!(token.len(), 36);
    assert_eq!(store.accounts.len(), 1);
    assert_eq!(store.account_emails.len(), 1);
    assert_eq!(store.account_emails[0].email, "alice@example.com");
    assert_eq!(store.account_emails[0].account, acc);
    assert_eq!(store.login_tokens.len(), 1);
    assert_eq!(store.login_tokens[0].account, acc);
    assert!(!store.login_tokens[0].used);
}

#[test]
fn second_login_reuses_the_account() {
    let mut store = Store::new();
    let (acc1, _) = store.start_login("alice@example.com", ts(9)).unwrap();
    let (acc2, _) = store.start_login("alice@example.com", ts(10)).unwrap();
    assert_eq!(acc1, acc2);
    assert_eq!(store.accounts.len(), 1);
    assert_eq!(store.account_emails.len(), 1);
    assert_eq!(store.login_tokens.len(), 2);
}

#[test]
fn different_emails_get_different_accounts() {
    let mut store = Store::new();
    let (a, _) = store.start_login("alice@example.com", ts(9)).unwrap();
    let (b, _) = store.start_login("bob@example.com", ts(9)).unwrap();
    assert_ne!(a, b);
    assert_eq!(store.accounts.len(), 2);
}

#[test]
fn race_loser_creation_rolls_back_and_resolves() {
    let mut store = Store::new();
    let winner = store.create_acc_with_email("alice@example.com", ts(9)).unwrap();
    let before_accounts = store.accounts.len();
    let before_emails = store.account_emails.len();
    // the second racer's insert hits the unique email constraint
    let lost = store.create_acc_with_email("alice@example.com", ts(9));
    assert!(lost.is_err());
    assert_eq!(store.accounts.len(), before_accounts);
    assert_eq!(store.account_emails.len(), before_emails);
    // its flow then resolves to the winning account instead
    let (acc, _) = store.start_login("alice@example.com", ts(10)).unwrap();
    assert_eq!(acc, winner);
}

#[test]
fn duplicate_token_text_is_rejected_whole() {
    let mut store = Store::new();
    let acc = store.create_acc_with_email("alice@example.com", ts(9)).unwrap();
    store.insert_login_token(&acc, "tok-1", ts(9)).unwrap();
    let dup = store.insert_login_token(&acc, "tok-1", ts(10));
    assert!(dup.is_err());
    assert_eq!(store.login_tokens.len(), 1);
}

#[test]
fn issued_tokens_are_long_and_fresh() {
    let a = issue();
    let b = issue();
    assert_eq!(a.len(), 36);
    assert_eq!(b.len(), 36);
    // uniqueness holds with overwhelming probability given the entropy
    assert_ne!(a, b);
}

#[test]
fn redeem_valid_token_creates_one_session() {
    let mut store = Store::new();
    let (acc, token) = store.start_login("alice@example.com", ts(9)).unwrap();
    let redeemed = store.redeem(token.as_str(), ts(10)).unwrap();
    let (got, key) = redeemed.unwrap();
    assert_eq!(got, acc);
    assert_eq!(key.len(), 36);
    assert_eq!(store.sessions.len(), 1);
    assert_eq!(store.sessions[0].key, key);
    assert_eq!(store.sessions[0].name, "account");
    assert_eq!(store.sessions[0].value, "1");
    assert_eq!(resolve_account(&store, key.as_str()), Some(acc));
}

#[test]
fn redeem_unknown_token_is_invalid_and_changes_nothing() {
    let mut store = Store::new();
    store.start_login("alice@example.com", ts(9)).unwrap();
    let r = store.redeem("no-such-token", ts(10)).unwrap();
    assert!(r.is_none());
    assert_eq!(store.sessions.len(), 0);
}

#[test]
fn redeem_twice_still_succeeds_as_the_token_is_never_marked_used() {
    // the known defect: redemption never sets used = true, so a second
    // redemption also succeeds and creates a second session
    let mut store = Store::new();
    let (acc, token) = store.start_login("alice@example.com", ts(9)).unwrap();
    let first = store.redeem(token.as_str(), ts(10)).unwrap();
    let second = store.redeem(token.as_str(), ts(11)).unwrap();
    assert_eq!(first.unwrap().0, acc);
    assert_eq!(second.unwrap().0, acc);
    assert_eq!(store.sessions.len(), 2);
    assert!(!store.login_tokens[0].used);
}

#[test]
fn deleting_a_nonexistent_session_key_is_a_noop() {
    let mut store = Store::new();
    store.start_login("alice@example.com", ts(9)).unwrap();
    let before = store.sessions.len();
    let r = store.delete_session("never-issued");
    assert!(r.is_ok());
    assert_eq!(store.sessions.len(), before);
}

#[test]
fn logout_deletes_the_session_rows() {
    let mut store = Store::new();
    let (_, token) = store.start_login("alice@example.com", ts(9)).unwrap();
    let (_, key) = store.redeem(token.as_str(), ts(10)).unwrap().unwrap();
    store.delete_session(key.as_str()).unwrap();
    assert_eq!(store.sessions.len(), 0);
    assert_eq!(resolve_account(&store, key.as_str()), None);
}

#[test]
fn corrupted_session_value_resolves_to_nobody() {
    let mut store = Store::new();
    store.set_session_value("some-key", "account", "not-a-number", ts(9)).unwrap();
    assert_eq!(resolve_account(&store, "some-key"), None);
}

#[test]
fn session_upsert_overwrites_the_value() {
    let mut store = Store::new();
    store.set_session_value("k", "account", "1", ts(9)).unwrap();
    store.set_session_value("k", "account", "2", ts(10)).unwrap();
    assert_eq!(store.sessions.len(), 1);
    assert_eq!(store.sessions[0].value, "2");
    assert_eq!(resolve_account(&store, "k"), Some(2));
}

#[test]
fn login_url_and_email_body() {
    let url = login_url("https://cash.example", "tok-123");
    assert_eq!(url, "https://cash.example/new-session/tok-123");
    let body = login_email_body("https://cash.example", "tok-123");
    assert_eq!(
        body,
        "Click this link to login to CashLog: https://cash.example/new-session/tok-123"
    );
}

#[test]
fn account_info_reports_timestamps_and_emails() {
    let mut store = Store::new();
    let acc = store.create_acc_with_email("alice@example.com", ts(9)).unwrap();
    let info = store.get_user_account_info(acc).unwrap().unwrap();
    assert_eq!(info.created_at, ts(9));
    assert_eq!(info.modified_at, ts(9));
    assert_eq!(*info.emails, vec!["alice@example.com".to_string()]);
    assert!(store.get_user_account_info(999).unwrap().is_none());
}
