//! The passwordless login flow, the session manager, and the token
//! issuer.
//!
//! A login attempt resolves the email to an account — creating the
//! account and its email binding in one transaction when the email is
//! new — and persists a fresh single-use token.  Redeeming a token that
//! is unknown (or marked used) changes nothing; redeeming a live one
//! creates a session bound to the token's account.  The token and the
//! session key are version-4 UUIDs, the one source of randomness here.
//!
//! Two deliberate oddities of the flow are kept as they stand rather
//! than mended: tokens never expire, and redemption never sets the
//! `used` flag, so a live token redeems any number of times (see the
//! laws module, which states the second one outright).

use vstd::prelude::*;
use crate::error::DbError;
use crate::seqtools::find_idx;
use crate::store::acc_id_by_email_spec;
use crate::store::create_acc_spec;
use crate::store::insert_token_spec;
use crate::store::sess_val_spec;
use crate::store::set_session_value_spec;
use crate::store::token_account_spec;
use crate::store::token_pred;
use crate::store::Store;
use crate::store::StoreX;
use crate::text::i64_string;
use crate::text::int_seq;
use crate::text::parse_i64;
use crate::text::parse_i64_spec;
use crate::timestamp::Timestamp;

verus! {

/// Relies on `uuid::Uuid::new_v4` and its `Display` form: a random
/// version-4 UUID rendered hyphenated in lowercase, always 36
/// characters.  Nothing can be promised about which value comes back.
#[verifier::external_body]
fn uuid_v4_string() -> (r: String)
    ensures
        r@.len() == 36,
{
    uuid::Uuid::new_v4().to_string()
}

/// Produces a fresh unguessable bearer credential: a version-4 UUID,
/// 122 bits of entropy, in its 36-character text form.
pub fn issue() -> (r: String)
    ensures
        r@.len() == 36,
{
    uuid_v4_string()
}

/// The account a session key signs in as: the `account` value of the
/// session, read back as a number.  A key that is absent, or whose
/// stored value does not parse, resolves to nobody.
pub open spec fn resolve_account_spec(sv: StoreX, key: Seq<char>) -> Option<i64> {
    match sess_val_spec(sv, key, "account"@) {
        Some(v) => parse_i64_spec(v),
        None => None,
    }
}

/// Resolves a session key to the account it signs in as; a corrupted
/// session degrades to "not logged in" rather than failing.
pub fn resolve_account(store: &Store, session_key: &str) -> (r: Option<i64>)
    ensures
        r == resolve_account_spec(store@, session_key@),
{
    match store.get_sess_val(session_key, "account") {
        Some(v) => parse_i64(v.as_str()),
        None => None,
    }
}

/// Creates (or overwrites) the session of `session_key`, binding it to
/// the account.
pub fn create_session(store: &mut Store, account_id: i64, session_key: &str, now: Timestamp) -> (r:
    Result<(), DbError>)
    requires
        old(store)@.wf(),
        old(store)@.next_session_id < i64::MAX,
    ensures
        r is Ok,
        final(store)@ == set_session_value_spec(
            old(store)@,
            session_key@,
            "account"@,
            int_seq(account_id as int),
            now,
        ),
        final(store)@.wf(),
{
    let value = i64_string(account_id);
    store.set_session_value(session_key, "account", value.as_str(), now)
}

/// The store after the email is resolved to its account, or a fresh
/// account with that email is created; and the account in question.
pub open spec fn resolve_or_create_spec(sv: StoreX, email: Seq<char>, now: Timestamp) -> (
    StoreX,
    i64,
) {
    match acc_id_by_email_spec(sv, email) {
        Some(id) => (sv, id),
        None => (create_acc_spec(sv, email, now), sv.next_account_id),
    }
}

/// The whole start of a login flow: account resolved or created, and
/// the token row persisted against it.
pub open spec fn start_login_spec(sv: StoreX, email: Seq<char>, token: Seq<char>, now: Timestamp) -> (
    StoreX,
    i64,
) {
    let rc = resolve_or_create_spec(sv, email, now);
    (insert_token_spec(rc.0, rc.1, token, now), rc.1)
}

impl Store {
    /// Starts a login flow for `email` with a caller-supplied token:
    /// resolves or creates the account, then persists the token.  A
    /// token text already present is rejected by the store; the account
    /// resolution, being already committed, stays.
    pub fn start_login_with_token(&mut self, email: &str, token: &str, now: Timestamp) -> (r:
        Result<i64, DbError>)
        requires
            old(self)@.wf(),
            old(self)@.next_account_id < i64::MAX,
            old(self)@.next_account_email_id < i64::MAX,
            old(self)@.next_login_token_id < i64::MAX,
        ensures
            final(self)@.wf(),
            match r {
                Ok(acc) => find_idx(old(self)@.login_tokens, token_pred(token@)) is None && acc
                    == resolve_or_create_spec(old(self)@, email@, now).1 && final(self)@
                    == start_login_spec(old(self)@, email@, token@, now).0,
                Err(_) => find_idx(old(self)@.login_tokens, token_pred(token@)) is Some && final(self)@ == resolve_or_create_spec(old(self)@, email@, now).0,
            },
    {
        let acc: i64 = match self.get_acc_id_by_email(email) {
            Ok(Some(id)) => id,
            Ok(None) => match self.create_acc_with_email(email, now) {
                Ok(id) => id,
                Err(_) => {
                    proof {
                        assert(false);
                    }
                    unreached()
                },
            },
            Err(_) => {
                proof {
                    assert(false);
                }
                unreached()
            },
        };
        match self.insert_login_token(&acc, token, now) {
            Ok(_) => Ok(acc),
            Err(e) => Err(e),
        }
    }

    /// Starts a login flow for `email` with a freshly issued token.
    /// Whatever token the issuer produced: on success it was new to the
    /// store and is now bound, unused, to the returned account; on the
    /// (overwhelmingly improbable) collision the account resolution
    /// stays and no token is added.
    pub fn start_login(&mut self, email: &str, now: Timestamp) -> (r: Result<
        (i64, String),
        DbError,
    >)
        requires
            old(self)@.wf(),
            old(self)@.next_account_id < i64::MAX,
            old(self)@.next_account_email_id < i64::MAX,
            old(self)@.next_login_token_id < i64::MAX,
        ensures
            final(self)@.wf(),
            match r {
                Ok(p) => p.1@.len() == 36 && find_idx(
                    old(self)@.login_tokens,
                    token_pred(p.1@),
                ) is None && p.0 == resolve_or_create_spec(old(self)@, email@, now).1 && final(self)@ == start_login_spec(old(self)@, email@, p.1@, now).0,
                Err(_) => final(self)@ == resolve_or_create_spec(old(self)@, email@, now).0,
            },
    {
        let token = issue();
        match self.start_login_with_token(email, token.as_str(), now) {
            Ok(acc) => Ok((acc, token)),
            Err(e) => Err(e),
        }
    }

    /// Redeems a login token under a caller-supplied session key: an
    /// unknown or used token is "invalid" and changes nothing; a live
    /// one binds a session to its account.
    pub fn redeem_with_key(&mut self, token: &str, session_key: &str, now: Timestamp) -> (r:
        Result<Option<i64>, DbError>)
        requires
            old(self)@.wf(),
            old(self)@.next_session_id < i64::MAX,
        ensures
            r is Ok,
            final(self)@.wf(),
            final(self)@ == redeem_spec(old(self)@, token@, session_key@, now).0,
            r.unwrap() == redeem_spec(old(self)@, token@, session_key@, now).1,
    {
        match self.get_login_token_account(token) {
            Ok(None) => Ok(None),
            Ok(Some(acc)) => {
                match create_session(self, acc, session_key, now) {
                    Ok(_) => Ok(Some(acc)),
                    Err(_) => {
                        proof {
                            assert(false);
                        }
                        unreached()
                    },
                }
            },
            Err(_) => {
                proof {
                    assert(false);
                }
                unreached()
            },
        }
    }

    /// Redeems a login token under a freshly issued session key.
    pub fn redeem(&mut self, token: &str, now: Timestamp) -> (r: Result<
        Option<(i64, String)>,
        DbError,
    >)
        requires
            old(self)@.wf(),
            old(self)@.next_session_id < i64::MAX,
        ensures
            r is Ok,
            final(self)@.wf(),
            match r.unwrap() {
                Some(p) => p.1@.len() == 36 && final(self)@ == redeem_spec(
                    old(self)@,
                    token@,
                    p.1@,
                    now,
                ).0 && redeem_spec(old(self)@, token@, p.1@, now).1 == Some(p.0),
                None => token_account_spec(old(self)@, token@) is None && final(self)@ == old(self)@,
            },
    {
        let key = issue();
        match self.redeem_with_key(token, key.as_str(), now) {
            Ok(Some(acc)) => Ok(Some((acc, key))),
            Ok(None) => Ok(None),
            Err(_) => {
                proof {
                    assert(false);
                }
                unreached()
            },
        }
    }
}

/// The store after a redemption, and the account signed in, if any.
pub open spec fn redeem_spec(sv: StoreX, token: Seq<char>, key: Seq<char>, now: Timestamp) -> (
    StoreX,
    Option<i64>,
) {
    match token_account_spec(sv, token) {
        None => (sv, None),
        Some(acc) => (
            set_session_value_spec(sv, key, "account"@, int_seq(acc as int), now),
            Some(acc),
        ),
    }
}

/// The login link a token is delivered as.
pub open spec fn login_url_text(base: Seq<char>, token: Seq<char>) -> Seq<char> {
    base + "/new-session/"@ + token
}

/// Builds `{base_url}/new-session/{token}`.
pub fn login_url(base_url: &str, token: &str) -> (r: String)
    ensures
        r@ == login_url_text(base_url@, token@),
{
    let mut s = base_url.to_owned();
    s.append("/new-session/");
    s.append(token);
    proof {
        assert(s@ =~= login_url_text(base_url@, token@));
    }
    s
}

/// The text of the login email.
pub open spec fn login_email_text(base: Seq<char>, token: Seq<char>) -> Seq<char> {
    "Click this link to login to CashLog: "@ + login_url_text(base, token)
}

/// Builds the body of the login email around the login link.
pub fn login_email_body(base_url: &str, token: &str) -> (r: String)
    ensures
        r@ == login_email_text(base_url@, token@),
{
    let mut s = "Click this link to login to CashLog: ".to_owned();
    let url = login_url(base_url, token);
    s.append(url.as_str());
    proof {
        assert(s@ =~= login_email_text(base_url@, token@));
    }
    s
}

} // verus!
