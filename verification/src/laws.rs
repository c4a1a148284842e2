//! The laws of the login flow, the sessions and the ledger views,
//! proved once over the store transitions.

use vstd::prelude::*;
use crate::amount::Amount;
use crate::amount::amount_text;
use crate::amount::dot_pred;
use crate::amount::parse_amount_spec;
use crate::amount::signed_amount;
use crate::flow::redeem_spec;
use crate::flow::resolve_account_spec;
use crate::flow::start_login_spec;
use crate::ledger::bacct_by_id;
use crate::ledger::bacct_leq;
use crate::ledger::binfo_leq;
use crate::ledger::CurrencyEntryX;
use crate::ledger::entry_asc_leq;
use crate::ledger::entry_desc_leq;
use crate::ledger::entry_info_of;
use crate::ledger::entry_vis;
use crate::ledger::group_max_ts;
use crate::ledger::latest_entry_of;
use crate::ledger::latest_infos;
use crate::ledger::lemma_bacct_leq_total;
use crate::ledger::lemma_binfo_leq_total;
use crate::ledger::lemma_entry_asc_total;
use crate::ledger::lemma_entry_desc_total;
use crate::ledger::visible_baccts;
use crate::ledger::visible_infos_named;
use crate::ledger::visible_infos_of;
use crate::seqtools::find_idx;
use crate::seqtools::lemma_find_idx;
use crate::seqtools::lemma_find_idx_at;
use crate::seqtools::lemma_find_idx_none;
use crate::seqtools::lemma_remove_by_absent;
use crate::seqtools::lemma_sort_by_ins_all;
use crate::seqtools::lemma_sort_by_ins_len;
use crate::seqtools::lemma_sort_by_ins_sorted;
use crate::seqtools::sort_by_ins;
use crate::seqtools::sorted_adj;
use crate::store::acc_id_by_email_spec;
use crate::store::create_acc_spec;
use crate::store::delete_session_spec;
use crate::store::email_pred;
use crate::store::EntryRowX;
use crate::store::sess_key_pred;
use crate::store::sess_pred;
use crate::store::StoreX;
use crate::store::token_account_spec;
use crate::text::all_digits;
use crate::text::dec_seq;
use crate::text::int_seq;
use crate::text::is_digit_char;
use crate::text::lemma_dec_seq_digits;
use crate::text::lemma_dec_seq_len;
use crate::text::lemma_padded_seq_props;
use crate::text::lemma_parse_int_seq;
use crate::text::lemma_pow10_mono;
use crate::text::lemma_pow10_values;
use crate::text::lemma_seq_to_nat_concat;
use crate::text::padded_seq;
use crate::text::pow10;
use crate::text::seq_to_nat;
use crate::timestamp::lemma_ts_le_total;
use crate::timestamp::lemma_ts_le_trans;
use crate::timestamp::Timestamp;

verus! {

/// Starting a login flow for an email never seen creates exactly one
/// account and one email row bound to it; starting it again with the
/// same email resolves to the same account and creates nothing more.
pub proof fn lemma_first_login_creates_one_account(
    sv: StoreX,
    email: Seq<char>,
    t1: Seq<char>,
    t2: Seq<char>,
    now1: Timestamp,
    now2: Timestamp,
)
    requires
        sv.wf(),
        acc_id_by_email_spec(sv, email) is None,
    ensures
        ({
            let first = start_login_spec(sv, email, t1, now1);
            let acc = first.1;
            &&& first.0.accounts.len() == sv.accounts.len() + 1
            &&& first.0.account_emails.len() == sv.account_emails.len() + 1
            &&& first.0.account_emails.last().email == email
            &&& first.0.account_emails.last().account == acc
            &&& first.0.accounts.last().id == acc
            &&& acc_id_by_email_spec(first.0, email) == Some(acc)
            &&& start_login_spec(first.0, email, t2, now2).1 == acc
            &&& start_login_spec(first.0, email, t2, now2).0.accounts == first.0.accounts
        }),
{
    let sv1 = create_acc_spec(sv, email, now1);
    let p = email_pred(email);
    let n = sv.account_emails.len() as int;
    lemma_find_idx(sv.account_emails, p);
    assert(sv1.account_emails[n].email == email);
    assert(forall|j: int| 0 <= j < n ==> sv1.account_emails[j] == sv.account_emails[j]);
    lemma_find_idx_at(sv1.account_emails, p, n);
    let first = start_login_spec(sv, email, t1, now1);
    assert(first.0.account_emails == sv1.account_emails);
    assert(acc_id_by_email_spec(first.0, email) == Some(sv1.account_emails[n].account));
}

/// A login flow for an email already bound — for instance after losing
/// the account-creation race — resolves to the bound account; no
/// account and no email row is created.
pub proof fn lemma_login_existing_email_resolves(
    sv: StoreX,
    email: Seq<char>,
    t: Seq<char>,
    now: Timestamp,
)
    requires
        acc_id_by_email_spec(sv, email) is Some,
    ensures
        start_login_spec(sv, email, t, now).1 == acc_id_by_email_spec(sv, email).unwrap(),
        start_login_spec(sv, email, t, now).0.accounts == sv.accounts,
        start_login_spec(sv, email, t, now).0.account_emails == sv.account_emails,
{
}

/// Redeeming a live token under a fresh session key creates exactly one
/// session, bound to the token's account, and resolves back to that
/// account; the token rows are untouched.
pub proof fn lemma_redeem_valid(sv: StoreX, token: Seq<char>, key: Seq<char>, now: Timestamp)
    requires
        sv.wf(),
        token_account_spec(sv, token) is Some,
        find_idx(sv.sessions, sess_pred(key, "account"@)) is None,
    ensures
        ({
            let acc = token_account_spec(sv, token).unwrap();
            let r = redeem_spec(sv, token, key, now);
            &&& r.1 == Some(acc)
            &&& r.0.sessions.len() == sv.sessions.len() + 1
            &&& r.0.sessions.last().key == key
            &&& r.0.sessions.last().name == "account"@
            &&& r.0.sessions.last().value == int_seq(acc as int)
            &&& r.0.login_tokens == sv.login_tokens
            &&& (0 <= acc < 1000000000000000000 ==> resolve_account_spec(r.0, key) == Some(acc))
        }),
{
    let acc = token_account_spec(sv, token).unwrap();
    let r = redeem_spec(sv, token, key, now);
    let p = sess_pred(key, "account"@);
    let n = sv.sessions.len() as int;
    lemma_find_idx(sv.sessions, p);
    assert(forall|j: int| 0 <= j < n ==> r.0.sessions[j] == sv.sessions[j]);
    assert(p(r.0.sessions[n]));
    lemma_find_idx_at(r.0.sessions, p, n);
    if 0 <= acc < 1000000000000000000 {
        lemma_parse_int_seq(acc);
    }
}

/// Redeeming an unknown (or already consumed) token changes nothing and
/// signs nobody in.
pub proof fn lemma_redeem_invalid(sv: StoreX, token: Seq<char>, key: Seq<char>, now: Timestamp)
    requires
        token_account_spec(sv, token) is None,
    ensures
        redeem_spec(sv, token, key, now).0 == sv,
        redeem_spec(sv, token, key, now).1 is None,
{
}

/// Redemption never marks the token used, so a second redemption of the
/// same token also succeeds and creates a second, independent session:
/// the known single-use defect, stated rather than silently mended.
pub proof fn lemma_redeem_twice(
    sv: StoreX,
    token: Seq<char>,
    k1: Seq<char>,
    k2: Seq<char>,
    now1: Timestamp,
    now2: Timestamp,
)
    requires
        sv.wf(),
        token_account_spec(sv, token) is Some,
        find_idx(sv.sessions, sess_pred(k1, "account"@)) is None,
        find_idx(sv.sessions, sess_pred(k2, "account"@)) is None,
        k1 != k2,
    ensures
        ({
            let r1 = redeem_spec(sv, token, k1, now1);
            let r2 = redeem_spec(r1.0, token, k2, now2);
            &&& r1.1 is Some
            &&& r1.0.login_tokens == sv.login_tokens
            &&& r2.1 == r1.1
            &&& r2.0.sessions.len() == sv.sessions.len() + 2
        }),
{
    let r1 = redeem_spec(sv, token, k1, now1);
    let p1 = sess_pred(k1, "account"@);
    let p2 = sess_pred(k2, "account"@);
    let n = sv.sessions.len() as int;
    lemma_find_idx(sv.sessions, p1);
    lemma_find_idx(sv.sessions, p2);
    assert(token_account_spec(r1.0, token) == token_account_spec(sv, token));
    assert(forall|j: int| 0 <= j < n ==> r1.0.sessions[j] == sv.sessions[j]);
    assert(r1.0.sessions[n].key == k1);
    assert(forall|j: int| 0 <= j < r1.0.sessions.len() ==> !p2(#[trigger] r1.0.sessions[j]));
    lemma_find_idx_none(r1.0.sessions, p2);
    let r2 = redeem_spec(r1.0, token, k2, now2);
    assert(r2.0.sessions.len() == r1.0.sessions.len() + 1);
}

/// Deleting a session key that never existed is a no-op.
pub proof fn lemma_destroy_absent(sv: StoreX, key: Seq<char>)
    requires
        find_idx(sv.sessions, sess_key_pred(key)) is None,
    ensures
        delete_session_spec(sv, key) == sv,
{
    lemma_find_idx(sv.sessions, sess_key_pred(key));
    lemma_remove_by_absent(sv.sessions, sess_key_pred(key));
}

/// `x` is the joined row of some visible entry among `es`.
pub open spec fn info_from_visible(
    sv: StoreX,
    es: Seq<EntryRowX>,
    acc: i64,
    x: crate::model::EntryInfoX,
) -> bool {
    exists|j: int|
        0 <= j < es.len() && entry_vis(sv, acc, #[trigger] es[j]) && x == entry_info_of(
            es[j],
            bacct_by_id(sv, es[j].bank_account).unwrap(),
        )
}

/// Every element of `visible_infos_of` is the joined row of some
/// visible entry.
pub proof fn lemma_visible_infos_members(sv: StoreX, es: Seq<EntryRowX>, acc: i64)
    ensures
        forall|k: int|
            0 <= k < visible_infos_of(sv, es, acc).len() ==> info_from_visible(
                sv,
                es,
                acc,
                #[trigger] visible_infos_of(sv, es, acc)[k],
            ),
    decreases es.len(),
{
    if es.len() > 0 {
        let t = es.drop_last();
        lemma_visible_infos_members(sv, t, acc);
        let w = visible_infos_of(sv, es, acc);
        let r = visible_infos_of(sv, t, acc);
        assert forall|k: int| 0 <= k < visible_infos_of(sv, es, acc).len() implies info_from_visible(
            sv,
            es,
            acc,
            #[trigger] visible_infos_of(sv, es, acc)[k],
        ) by {
            if k < r.len() {
                assert(w[k] == r[k]);
                assert(info_from_visible(sv, t, acc, r[k]));
                let j = choose|j: int|
                    0 <= j < t.len() && entry_vis(sv, acc, #[trigger] t[j]) && r[k]
                        == entry_info_of(t[j], bacct_by_id(sv, t[j].bank_account).unwrap());
                assert(es[j] == t[j]);
                assert(0 <= j < es.len() && entry_vis(sv, acc, es[j]) && w[k] == entry_info_of(
                    es[j],
                    bacct_by_id(sv, es[j].bank_account).unwrap(),
                ));
            } else {
                let j = es.len() - 1;
                assert(entry_vis(sv, acc, es[j]));
                assert(w[k] == entry_info_of(es[j], bacct_by_id(sv, es[j].bank_account).unwrap()));
            }
        }
    }
}

/// A listing holds at most 1024 rows, in descending timestamp order,
/// and every row is the joined row of a visible entry: never a deleted
/// entry, never an entry of a deleted or foreign bank account.
pub proof fn lemma_list_entries_visible(sv: StoreX, acc: i64)
    ensures
        ({
            let sorted = sort_by_ins(visible_infos_of(sv, sv.entries, acc), entry_desc_leq());
            let out = sorted.take(
                if sorted.len() < 1024 {
                    sorted.len() as int
                } else {
                    1024int
                },
            );
            &&& sorted.len() == visible_infos_of(sv, sv.entries, acc).len()
            &&& out.len() <= 1024
            &&& sorted_adj(out, entry_desc_leq())
            &&& forall|k: int|
                0 <= k < out.len() ==> info_from_visible(sv, sv.entries, acc, #[trigger] out[k])
        }),
{
    let vis = visible_infos_of(sv, sv.entries, acc);
    let sorted = sort_by_ins(vis, entry_desc_leq());
    let out = sorted.take(
        if sorted.len() < 1024 {
            sorted.len() as int
        } else {
            1024int
        },
    );
    lemma_entry_desc_total();
    lemma_sort_by_ins_sorted(vis, entry_desc_leq());
    lemma_sort_by_ins_len(vis, entry_desc_leq());
    assert forall|i: int| 0 <= i && i + 1 < out.len() implies #[trigger] (entry_desc_leq())(
        out[i],
        out[i + 1],
    ) by {
        assert(out[i] == sorted[i] && out[i + 1] == sorted[i + 1]);
        assert((entry_desc_leq())(sorted[i], sorted[i + 1]));
    }
    lemma_visible_infos_members(sv, sv.entries, acc);
    let q = |x: crate::model::EntryInfoX| info_from_visible(sv, sv.entries, acc, x);
    assert(forall|k: int| 0 <= k < vis.len() ==> q(#[trigger] vis[k]));
    lemma_sort_by_ins_all(vis, entry_desc_leq(), q);
    assert forall|k: int| 0 <= k < out.len() implies info_from_visible(
        sv,
        sv.entries,
        acc,
        #[trigger] out[k],
    ) by {
        assert(out[k] == sorted[k]);
        assert(q(sorted[k]));
    }
}

/// Formatting an amount and reading its text back gives the amount
/// unchanged, mantissa and scale alike: balances are exact decimals and
/// never drift (shown for magnitudes of up to 32 digits, the room the
/// 38-digit parse ceiling leaves beside six fraction digits).
pub proof fn lemma_amount_text_round_trip(a: Amount)
    requires
        a.wf(),
        -(pow10(32) as int) < a.mantissa < pow10(32) as int,
    ensures
        parse_amount_spec(amount_text(a)) == Some(a),
{
    let m = a.mantissa as int;
    let neg = m < 0;
    let mag = (if m < 0 {
        -m
    } else {
        m
    }) as nat;
    let s = amount_text(a);
    lemma_pow10_values();
    lemma_pow10_mono(32, 38);
    if a.scale == 0 {
        let body = dec_seq(mag);
        lemma_dec_seq_digits(mag);
        lemma_dec_seq_len(mag, 38);
        if neg {
            assert(s == seq!['-'] + body);
            assert(s[0] == '-');
            assert(s.drop_first() =~= body);
        } else {
            assert(Seq::<char>::empty() + body =~= body);
            assert(s == body);
            assert(is_digit_char(s[0]));
            assert(s[0] != '-');
        }
        let t = body;
        assert(forall|j: int| 0 <= j < t.len() ==> !(dot_pred())(#[trigger] t[j])) by {
            assert(forall|j: int| 0 <= j < t.len() ==> is_digit_char(#[trigger] t[j]));
        }
        lemma_find_idx_none(t, dot_pred());
        assert(seq_to_nat(t) == mag);
        assert(signed_amount(neg, mag, 0) == a);
    } else {
        let w = a.scale as nat;
        let p = pow10(w);
        lemma_pow10_mono(0, w);
        assert(pow10(0) == 1);
        let q = mag / p;
        let r = mag % p;
        let ip = dec_seq(q);
        let fp = padded_seq(r, w);
        lemma_dec_seq_digits(q);
        assert(q <= mag) by (nonlinear_arith)
            requires
                p >= 1,
                q == mag / p,
        ;
        lemma_dec_seq_len(q, 32);
        lemma_padded_seq_props(r, w);
        let body = ip + seq!['.'] + fp;
        assert(s == (if neg {
            seq!['-']
        } else {
            Seq::<char>::empty()
        }) + ip + seq!['.'] + fp);
        let t = if neg {
            s.drop_first()
        } else {
            s
        };
        if neg {
            assert(s[0] == '-');
            assert(t =~= body);
        } else {
            assert(t =~= body);
            assert(is_digit_char(t[0]));
            assert(s[0] != '-');
        }
        let d = ip.len() as int;
        assert((dot_pred())(t[d]));
        assert(forall|j: int| 0 <= j < d ==> !(dot_pred())(#[trigger] t[j])) by {
            assert(forall|j: int| 0 <= j < d ==> t[j] == ip[j] && is_digit_char(#[trigger] t[j]));
        }
        lemma_find_idx_at(t, dot_pred(), d);
        assert(t.take(d) =~= ip);
        assert(t.skip(d + 1) =~= fp);
        lemma_seq_to_nat_concat(ip, fp);
        assert(seq_to_nat(ip + fp) == q * p + r);
        assert(q * p + r == mag) by (nonlinear_arith)
            requires
                p >= 1,
                q == mag / p,
                r == mag % p,
        ;
        assert(signed_amount(neg, mag, w) == a);
    }
}

/// The remaining ordered reads come back in their stated orders: the
/// per-bank-account listing earliest first, the bank accounts by name
/// and identifier, the summaries by name and currency.
pub proof fn lemma_query_orders(
    sv: StoreX,
    acc: i64,
    name: Seq<char>,
)
    ensures
        sorted_adj(
            sort_by_ins(visible_infos_named(sv, sv.entries, acc, name), entry_asc_leq()),
            entry_asc_leq(),
        ),
        sorted_adj(
            sort_by_ins(visible_baccts(sv.bank_accounts, acc), bacct_leq()),
            bacct_leq(),
        ),
        sorted_adj(
            sort_by_ins(latest_infos(sv, sv.bank_accounts, acc), binfo_leq()),
            binfo_leq(),
        ),
{
    lemma_entry_asc_total();
    lemma_sort_by_ins_sorted(visible_infos_named(sv, sv.entries, acc, name), entry_asc_leq());
    lemma_bacct_leq_total();
    lemma_sort_by_ins_sorted(visible_baccts(sv.bank_accounts, acc), bacct_leq());
    lemma_binfo_leq_total();
    lemma_sort_by_ins_sorted(latest_infos(sv, sv.bank_accounts, acc), binfo_leq());
}

/// The entry reported for a bank account has the greatest timestamp
/// among its non-deleted entries; a bank account with none reports
/// nothing.
pub proof fn lemma_latest_is_max(es: Seq<EntryRowX>, bid: i64)
    ensures
        match latest_entry_of(es, bid) {
            Some(e) => e.bank_account == bid && !e.deleted && (exists|j: int|
                0 <= j < es.len() && es[j] == e) && (forall|j: int|
                0 <= j < es.len() && (#[trigger] es[j]).bank_account == bid && !es[j].deleted
                    ==> es[j].ts.le_spec(e.ts)),
            None => forall|j: int|
                0 <= j < es.len() ==> !((#[trigger] es[j]).bank_account == bid
                    && !es[j].deleted),
        },
    decreases es.len(),
{
    if es.len() > 0 {
        let t = es.drop_last();
        lemma_latest_is_max(t, bid);
        let last = es.last();
        assert(forall|j: int| 0 <= j < t.len() ==> #[trigger] es[j] == t[j]);
        match latest_entry_of(es, bid) {
            Some(e) => {
                if e == last && es[es.len() - 1] == e {
                    assert(exists|j: int| 0 <= j < es.len() && es[j] == e);
                }
                match latest_entry_of(t, bid) {
                    None => {},
                    Some(m) => {
                        assert(exists|j: int| 0 <= j < t.len() && t[j] == m);
                        let jm = choose|j: int| 0 <= j < t.len() && t[j] == m;
                        assert(es[jm] == m);
                        assert forall|j: int|
                            0 <= j < es.len() && (#[trigger] es[j]).bank_account == bid
                                && !es[j].deleted implies es[j].ts.le_spec(e.ts) by {
                            lemma_ts_le_total(m.ts, last.ts);
                            if j < t.len() {
                                assert(t[j].ts.le_spec(m.ts));
                                lemma_ts_le_trans(t[j].ts, m.ts, e.ts);
                            } else {
                                assert(es[j] == last);
                                if e == m {
                                    assert(last.ts.le_spec(m.ts));
                                }
                            }
                        }
                    },
                }
            },
            None => {},
        }
    }
}

/// The timestamp reported for a currency group is the greatest in the
/// group; a currency with no member reports nothing.
pub proof fn lemma_group_max_is_max(ls: Seq<CurrencyEntryX>, c: Seq<char>)
    ensures
        match group_max_ts(ls, c) {
            Some(mx) => (exists|j: int|
                0 <= j < ls.len() && (#[trigger] ls[j]).currency == c && ls[j].ts == mx) && (
            forall|j: int|
                0 <= j < ls.len() && (#[trigger] ls[j]).currency == c ==> ls[j].ts.le_spec(mx)),
            None => forall|j: int| 0 <= j < ls.len() ==> (#[trigger] ls[j]).currency != c,
        },
    decreases ls.len(),
{
    if ls.len() > 0 {
        let t = ls.drop_last();
        lemma_group_max_is_max(t, c);
        let last = ls.last();
        assert(forall|j: int| 0 <= j < t.len() ==> #[trigger] ls[j] == t[j]);
        match group_max_ts(ls, c) {
            Some(mx) => {
                if last.currency == c && ls[ls.len() - 1].ts == mx {
                    assert(exists|j: int|
                        0 <= j < ls.len() && (#[trigger] ls[j]).currency == c && ls[j].ts == mx);
                }
                match group_max_ts(t, c) {
                    None => {},
                    Some(m) => {
                        let jm = choose|j: int|
                            0 <= j < t.len() && (#[trigger] t[j]).currency == c && t[j].ts == m;
                        assert(ls[jm].currency == c && ls[jm].ts == m);
                        assert forall|j: int|
                            0 <= j < ls.len() && (#[trigger] ls[j]).currency
                                == c implies ls[j].ts.le_spec(mx) by {
                            lemma_ts_le_total(m, last.ts);
                            if j < t.len() {
                                assert(t[j].ts.le_spec(m));
                                lemma_ts_le_trans(t[j].ts, m, mx);
                            }
                        }
                    },
                }
            },
            None => {},
        }
    }
}

} // verus!
