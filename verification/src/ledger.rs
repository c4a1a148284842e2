//! The entry ledger: bank accounts and balance observations.
//!
//! Entries record "the balance at time T was X" per bank account; both
//! bank accounts and entries are soft-deleted and every read filters the
//! deleted rows out.  Query results come back in fixed orders, specified
//! as insertion sorts of the visible rows.

use vstd::prelude::*;
use crate::amount::amount_text;
use crate::amount::format_amount;
use crate::amount::parse_amount;
use crate::amount::parse_amount_spec;
use crate::amount::Amount;
use crate::error::DbError;
use crate::model::BankAccount;
use crate::model::BankAccountX;
use crate::model::BankAccountInfo;
use crate::model::BankAccountInfoX;
use crate::model::CurrencyInfo;
use crate::model::CurrencyInfoX;
use crate::model::EntryInfo;
use crate::model::EntryInfoX;
use crate::seqtools::find_idx;
use crate::seqtools::insert_by;
use crate::seqtools::lemma_find_idx_at;
use crate::seqtools::lemma_find_idx_none;
use crate::seqtools::lemma_insert_by_contains;
use crate::seqtools::lemma_insert_by_split;
use crate::seqtools::sort_by_ins;
use crate::seqtools::total_leq;
use crate::store::BankAccountRow;
use crate::store::BankAccountRowX;
use crate::store::EntryRow;
use crate::store::EntryRowX;
use crate::store::Store;
use crate::store::StoreX;
use crate::text::lemma_lex_le_total;
use crate::text::lex_le;
use crate::text::str_eq;
use crate::text::str_le;
use crate::timestamp::Timestamp;

verus! {

pub open spec fn bacct_id_pred(id: i64) -> spec_fn(BankAccountRowX) -> bool {
    |r: BankAccountRowX| r.id == id
}

pub open spec fn bacct_owned_pred(id: i64, acc: i64) -> spec_fn(BankAccountRowX) -> bool {
    |r: BankAccountRowX| r.id == id && r.account == acc
}

pub open spec fn entry_id_pred(id: i64) -> spec_fn(EntryRowX) -> bool {
    |r: EntryRowX| r.id == id
}

/// The bank account row with this identifier, if any.
pub open spec fn bacct_by_id(sv: StoreX, id: i64) -> Option<BankAccountRowX> {
    match find_idx(sv.bank_accounts, bacct_id_pred(id)) {
        Some(i) => Some(sv.bank_accounts[i]),
        None => None,
    }
}

/// A fresh bank account row appended.
pub open spec fn insert_bank_account_spec(
    sv: StoreX,
    account_id: i64,
    name: Seq<char>,
    currency: Seq<char>,
    now: Timestamp,
) -> StoreX {
    StoreX {
        bank_accounts: sv.bank_accounts.push(
            BankAccountRowX {
                id: sv.next_bank_account_id,
                account: account_id,
                name: name,
                currency: currency,
                deleted: false,
                created: now,
                modified: now,
            },
        ),
        next_bank_account_id: (sv.next_bank_account_id + 1) as i64,
        ..sv
    }
}

/// A fresh entry row appended under this bank account.
pub open spec fn insert_entry_spec(
    sv: StoreX,
    bank_account: i64,
    ts: Timestamp,
    amount: Amount,
    now: Timestamp,
) -> StoreX {
    StoreX {
        entries: sv.entries.push(
            EntryRowX {
                id: sv.next_entry_id,
                bank_account: bank_account,
                ts: ts,
                amount: amount,
                deleted: false,
                created: now,
                modified: now,
            },
        ),
        next_entry_id: (sv.next_entry_id + 1) as i64,
        ..sv
    }
}

/// The entry soft-deleted when it exists under a bank account of the
/// caller's account (deleted rows still match, as the schema's scoping
/// subquery does not filter them); otherwise nothing changes.
pub open spec fn delete_entry_spec(sv: StoreX, account_id: i64, entry_id: i64, now: Timestamp) -> StoreX {
    match find_idx(sv.entries, entry_id_pred(entry_id)) {
        Some(i) => {
            let owned = match bacct_by_id(sv, sv.entries[i].bank_account) {
                Some(b) => b.account == account_id,
                None => false,
            };
            if owned {
                StoreX {
                    entries: sv.entries.update(
                        i,
                        EntryRowX { deleted: true, modified: now, ..sv.entries[i] },
                    ),
                    ..sv
                }
            } else {
                sv
            }
        },
        None => sv,
    }
}

/// The entry's amount replaced when the entry is visible and owned
/// through a visible bank account; otherwise nothing changes.
pub open spec fn update_entry_amount_spec(
    sv: StoreX,
    account_id: i64,
    entry_id: i64,
    amount: Amount,
    now: Timestamp,
) -> StoreX {
    match find_idx(sv.entries, entry_id_pred(entry_id)) {
        Some(i) => {
            let visible = !sv.entries[i].deleted && match bacct_by_id(
                sv,
                sv.entries[i].bank_account,
            ) {
                Some(b) => b.account == account_id && !b.deleted,
                None => false,
            };
            if visible {
                StoreX {
                    entries: sv.entries.update(
                        i,
                        EntryRowX { amount: amount, modified: now, ..sv.entries[i] },
                    ),
                    ..sv
                }
            } else {
                sv
            }
        },
        None => sv,
    }
}

/// The visible bank accounts of an account, in insertion order.
pub open spec fn visible_baccts(bs: Seq<BankAccountRowX>, acc: i64) -> Seq<BankAccountX>
    decreases bs.len(),
{
    if bs.len() == 0 {
        Seq::empty()
    } else {
        let r = visible_baccts(bs.drop_last(), acc);
        let b = bs.last();
        if !b.deleted && b.account == acc {
            r.push(BankAccountX { id: b.id, name: b.name, currency: b.currency })
        } else {
            r
        }
    }
}

/// Bank accounts sort by name, then by identifier.
pub open spec fn bacct_leq() -> spec_fn(BankAccountX, BankAccountX) -> bool {
    |a: BankAccountX, b: BankAccountX|
        if a.name == b.name {
            a.id <= b.id
        } else {
            lex_le(a.name, b.name)
        }
}

pub proof fn lemma_bacct_leq_total()
    ensures
        total_leq(bacct_leq()),
{
    let leq = bacct_leq();
    assert forall|a: BankAccountX, b: BankAccountX| #[trigger] leq(a, b) || leq(b, a) by {
        lemma_lex_le_total(a.name, b.name);
    }
}

pub open spec fn baccts_view(v: Seq<BankAccount>) -> Seq<BankAccountX> {
    v.map_values(|x: BankAccount| x@)
}

/// Keeps `v` sorted under `bacct_leq` while pushing `x` after its equals.
fn insert_bank_account_sorted(v: &mut Vec<BankAccount>, x: BankAccount)
    ensures
        baccts_view(final(v)@) == insert_by(baccts_view(old(v)@), x@, bacct_leq()),
{
    let ghost s = baccts_view(v@);
    let ghost leq = bacct_leq();
    let mut j: usize = 0;
    let mut stop = false;
    while j < v.len() && !stop
        invariant
            j <= v@.len(),
            s == baccts_view(v@),
            leq == bacct_leq(),
            forall|k: int| 0 <= k < j ==> leq(#[trigger] s[k], x@),
            stop ==> j < v@.len() && !leq(s[j as int], x@),
        decreases v@.len() - j + (if stop {
            0int
        } else {
            1int
        }),
    {
        let a = &v[j];
        let le = if str_eq(a.name.as_str(), x.name.as_str()) {
            a.id <= x.id
        } else {
            str_le(a.name.as_str(), x.name.as_str())
        };
        proof {
            assert(le == leq(s[j as int], x@));
        }
        if le {
            j = j + 1;
        } else {
            stop = true;
        }
    }
    proof {
        lemma_insert_by_split(s, x@, leq, j as int);
    }
    v.insert(j, x);
    proof {
        assert(baccts_view(v@) =~= s.take(j as int) + seq![x@] + s.skip(j as int));
    }
}

/// Whether the entry is readable for this account: not deleted, under a
/// bank account of the account that is itself not deleted.
pub open spec fn entry_vis(sv: StoreX, acc: i64, e: EntryRowX) -> bool {
    !e.deleted && match bacct_by_id(sv, e.bank_account) {
        Some(b) => b.account == acc && !b.deleted,
        None => false,
    }
}

/// The joined row a visible entry is reported as.
pub open spec fn entry_info_of(e: EntryRowX, b: BankAccountRowX) -> EntryInfoX {
    EntryInfoX {
        amount: amount_text(e.amount),
        bank_account: b.name,
        currency: b.currency,
        id: e.id,
        ts: e.ts,
    }
}

/// The joined rows of the visible entries among `es`, in entry order.
pub open spec fn visible_infos_of(sv: StoreX, es: Seq<EntryRowX>, acc: i64) -> Seq<EntryInfoX>
    decreases es.len(),
{
    if es.len() == 0 {
        Seq::empty()
    } else {
        let r = visible_infos_of(sv, es.drop_last(), acc);
        let e = es.last();
        if entry_vis(sv, acc, e) {
            r.push(entry_info_of(e, bacct_by_id(sv, e.bank_account).unwrap()))
        } else {
            r
        }
    }
}

/// As `visible_infos_of`, restricted to one bank account name.
pub open spec fn visible_infos_named(
    sv: StoreX,
    es: Seq<EntryRowX>,
    acc: i64,
    name: Seq<char>,
) -> Seq<EntryInfoX>
    decreases es.len(),
{
    if es.len() == 0 {
        Seq::empty()
    } else {
        let r = visible_infos_named(sv, es.drop_last(), acc, name);
        let e = es.last();
        if entry_vis(sv, acc, e) && bacct_by_id(sv, e.bank_account).unwrap().name == name {
            r.push(entry_info_of(e, bacct_by_id(sv, e.bank_account).unwrap()))
        } else {
            r
        }
    }
}

/// The single joined row read back for one entry, if it is visible.
pub open spec fn entry_info_spec(sv: StoreX, acc: i64, entry_id: i64) -> Option<EntryInfoX> {
    match find_idx(sv.entries, entry_id_pred(entry_id)) {
        Some(i) => if entry_vis(sv, acc, sv.entries[i]) {
            Some(entry_info_of(sv.entries[i], bacct_by_id(sv, sv.entries[i].bank_account).unwrap()))
        } else {
            None
        },
        None => None,
    }
}

/// Latest first.
pub open spec fn entry_desc_leq() -> spec_fn(EntryInfoX, EntryInfoX) -> bool {
    |a: EntryInfoX, b: EntryInfoX| b.ts.le_spec(a.ts)
}

/// Earliest first.
pub open spec fn entry_asc_leq() -> spec_fn(EntryInfoX, EntryInfoX) -> bool {
    |a: EntryInfoX, b: EntryInfoX| a.ts.le_spec(b.ts)
}

pub proof fn lemma_entry_desc_total()
    ensures
        total_leq(entry_desc_leq()),
{
}

pub proof fn lemma_entry_asc_total()
    ensures
        total_leq(entry_asc_leq()),
{
}

pub open spec fn infos_view(v: Seq<EntryInfo>) -> Seq<EntryInfoX> {
    v.map_values(|x: EntryInfo| x@)
}

/// Keeps `v` sorted latest-first while pushing `x` after its ties.
fn insert_entry_info_desc(v: &mut Vec<EntryInfo>, x: EntryInfo)
    ensures
        infos_view(final(v)@) == insert_by(infos_view(old(v)@), x@, entry_desc_leq()),
{
    let ghost s = infos_view(v@);
    let ghost leq = entry_desc_leq();
    let mut j: usize = 0;
    let mut stop = false;
    while j < v.len() && !stop
        invariant
            j <= v@.len(),
            s == infos_view(v@),
            leq == entry_desc_leq(),
            forall|k: int| 0 <= k < j ==> leq(#[trigger] s[k], x@),
            stop ==> j < v@.len() && !leq(s[j as int], x@),
        decreases v@.len() - j + (if stop {
            0int
        } else {
            1int
        }),
    {
        let le = x.ts.le(&v[j].ts);
        proof {
            assert(le == leq(s[j as int], x@));
        }
        if le {
            j = j + 1;
        } else {
            stop = true;
        }
    }
    proof {
        lemma_insert_by_split(s, x@, leq, j as int);
    }
    v.insert(j, x);
    proof {
        assert(infos_view(v@) =~= s.take(j as int) + seq![x@] + s.skip(j as int));
    }
}

/// Keeps `v` sorted earliest-first while pushing `x` after its ties.
fn insert_entry_info_asc(v: &mut Vec<EntryInfo>, x: EntryInfo)
    ensures
        infos_view(final(v)@) == insert_by(infos_view(old(v)@), x@, entry_asc_leq()),
{
    let ghost s = infos_view(v@);
    let ghost leq = entry_asc_leq();
    let mut j: usize = 0;
    let mut stop = false;
    while j < v.len() && !stop
        invariant
            j <= v@.len(),
            s == infos_view(v@),
            leq == entry_asc_leq(),
            forall|k: int| 0 <= k < j ==> leq(#[trigger] s[k], x@),
            stop ==> j < v@.len() && !leq(s[j as int], x@),
        decreases v@.len() - j + (if stop {
            0int
        } else {
            1int
        }),
    {
        let le = v[j].ts.le(&x.ts);
        proof {
            assert(le == leq(s[j as int], x@));
        }
        if le {
            j = j + 1;
        } else {
            stop = true;
        }
    }
    proof {
        lemma_insert_by_split(s, x@, leq, j as int);
    }
    v.insert(j, x);
    proof {
        assert(infos_view(v@) =~= s.take(j as int) + seq![x@] + s.skip(j as int));
    }
}

/// The latest non-deleted entry of one bank account: maximal timestamp,
/// and among equal timestamps the earliest inserted.
pub open spec fn latest_entry_of(es: Seq<EntryRowX>, bid: i64) -> Option<EntryRowX>
    decreases es.len(),
{
    if es.len() == 0 {
        None
    } else {
        let r = latest_entry_of(es.drop_last(), bid);
        let e = es.last();
        if e.bank_account == bid && !e.deleted {
            match r {
                None => Some(e),
                Some(m) => if m.ts.le_spec(e.ts) && m.ts != e.ts {
                    Some(e)
                } else {
                    Some(m)
                },
            }
        } else {
            r
        }
    }
}

/// A latest entry is one of the entries.
pub proof fn lemma_latest_member(es: Seq<EntryRowX>, bid: i64)
    ensures
        match latest_entry_of(es, bid) {
            Some(e) => exists|j: int| 0 <= j < es.len() && es[j] == e,
            None => true,
        },
    decreases es.len(),
{
    if es.len() > 0 {
        let t = es.drop_last();
        lemma_latest_member(t, bid);
        if latest_entry_of(es, bid) is Some {
            let e = latest_entry_of(es, bid).unwrap();
            if e == es.last() {
                assert(es[es.len() - 1] == e);
            } else {
                let j = choose|j: int| 0 <= j < t.len() && t[j] == e;
                assert(es[j] == e);
            }
        }
    }
}

/// The summary row a bank account is reported as.
pub open spec fn bacct_info_of(b: BankAccountRowX, e: EntryRowX) -> BankAccountInfoX {
    BankAccountInfoX {
        bank_account: b.name,
        amount: amount_text(e.amount),
        currency: b.currency,
        ts: e.ts,
    }
}

/// One summary row per visible bank account that has a latest entry,
/// in insertion order.
pub open spec fn latest_infos(sv: StoreX, bs: Seq<BankAccountRowX>, acc: i64) -> Seq<
    BankAccountInfoX,
>
    decreases bs.len(),
{
    if bs.len() == 0 {
        Seq::empty()
    } else {
        let r = latest_infos(sv, bs.drop_last(), acc);
        let b = bs.last();
        if !b.deleted && b.account == acc {
            match latest_entry_of(sv.entries, b.id) {
                Some(e) => r.push(bacct_info_of(b, e)),
                None => r,
            }
        } else {
            r
        }
    }
}

/// Summary rows sort by bank account name, then by currency.
pub open spec fn binfo_leq() -> spec_fn(BankAccountInfoX, BankAccountInfoX) -> bool {
    |a: BankAccountInfoX, b: BankAccountInfoX|
        if a.bank_account == b.bank_account {
            lex_le(a.currency, b.currency)
        } else {
            lex_le(a.bank_account, b.bank_account)
        }
}

pub proof fn lemma_binfo_leq_total()
    ensures
        total_leq(binfo_leq()),
{
    let leq = binfo_leq();
    assert forall|a: BankAccountInfoX, b: BankAccountInfoX| #[trigger] leq(a, b) || leq(b, a) by {
        lemma_lex_le_total(a.bank_account, b.bank_account);
        lemma_lex_le_total(a.currency, b.currency);
    }
}

pub open spec fn binfos_view(v: Seq<BankAccountInfo>) -> Seq<BankAccountInfoX> {
    v.map_values(|x: BankAccountInfo| x@)
}

/// Keeps `v` sorted under `binfo_leq` while pushing `x` after its ties.
fn insert_bacct_info_sorted(v: &mut Vec<BankAccountInfo>, x: BankAccountInfo)
    ensures
        binfos_view(final(v)@) == insert_by(binfos_view(old(v)@), x@, binfo_leq()),
{
    let ghost s = binfos_view(v@);
    let ghost leq = binfo_leq();
    let mut j: usize = 0;
    let mut stop = false;
    while j < v.len() && !stop
        invariant
            j <= v@.len(),
            s == binfos_view(v@),
            leq == binfo_leq(),
            forall|k: int| 0 <= k < j ==> leq(#[trigger] s[k], x@),
            stop ==> j < v@.len() && !leq(s[j as int], x@),
        decreases v@.len() - j + (if stop {
            0int
        } else {
            1int
        }),
    {
        let a = &v[j];
        let le = if str_eq(a.bank_account.as_str(), x.bank_account.as_str()) {
            str_le(a.currency.as_str(), x.currency.as_str())
        } else {
            str_le(a.bank_account.as_str(), x.bank_account.as_str())
        };
        proof {
            assert(le == leq(s[j as int], x@));
        }
        if le {
            j = j + 1;
        } else {
            stop = true;
        }
    }
    proof {
        lemma_insert_by_split(s, x@, leq, j as int);
    }
    v.insert(j, x);
    proof {
        assert(binfos_view(v@) =~= s.take(j as int) + seq![x@] + s.skip(j as int));
    }
}

/// The latest entry of one visible bank account, with its currency: the
/// raw material of the per-currency summaries.
pub struct CurrencyEntry {
    pub currency: String,
    pub amount: Amount,
    pub ts: Timestamp,
}

pub ghost struct CurrencyEntryX {
    pub currency: Seq<char>,
    pub amount: Amount,
    pub ts: Timestamp,
}

impl View for CurrencyEntry {
    type V = CurrencyEntryX;

    open spec fn view(&self) -> CurrencyEntryX {
        CurrencyEntryX { currency: self.currency@, amount: self.amount, ts: self.ts }
    }
}

/// The latest entry per visible bank account, tagged with its currency,
/// in bank account insertion order.
pub open spec fn currency_latest(sv: StoreX, bs: Seq<BankAccountRowX>, acc: i64) -> Seq<
    CurrencyEntryX,
>
    decreases bs.len(),
{
    if bs.len() == 0 {
        Seq::empty()
    } else {
        let r = currency_latest(sv, bs.drop_last(), acc);
        let b = bs.last();
        if !b.deleted && b.account == acc {
            match latest_entry_of(sv.entries, b.id) {
                Some(e) => r.push(
                    CurrencyEntryX { currency: b.currency, amount: e.amount, ts: e.ts },
                ),
                None => r,
            }
        } else {
            r
        }
    }
}

/// Amounts of well-formed stores make well-formed latest entries.
pub proof fn lemma_currency_latest_wf(sv: StoreX, bs: Seq<BankAccountRowX>, acc: i64)
    requires
        forall|j: int| 0 <= j < sv.entries.len() ==> (#[trigger] sv.entries[j].amount).wf(),
    ensures
        forall|k: int|
            0 <= k < currency_latest(sv, bs, acc).len() ==> (#[trigger] currency_latest(
                sv,
                bs,
                acc,
            )[k].amount).wf(),
    decreases bs.len(),
{
    if bs.len() > 0 {
        let t = bs.drop_last();
        lemma_currency_latest_wf(sv, t, acc);
        let b = bs.last();
        let r = currency_latest(sv, t, acc);
        let w = currency_latest(sv, bs, acc);
        if !b.deleted && b.account == acc && latest_entry_of(sv.entries, b.id) is Some {
            lemma_latest_member(sv.entries, b.id);
        }
        assert forall|k: int| 0 <= k < w.len() implies (#[trigger] w[k].amount).wf() by {
            if k < r.len() {
                assert(w[k] == r[k]);
            }
        }
    }
}

pub open spec fn str_leq() -> spec_fn(Seq<char>, Seq<char>) -> bool {
    |a: Seq<char>, b: Seq<char>| lex_le(a, b)
}

pub open spec fn strings_view(v: Seq<String>) -> Seq<Seq<char>> {
    v.map_values(|s: String| s@)
}

/// `c` inserted in order, unless it is already there.
pub open spec fn insert_distinct(s: Seq<Seq<char>>, c: Seq<char>) -> Seq<Seq<char>> {
    if s.contains(c) {
        s
    } else {
        insert_by(s, c, str_leq())
    }
}

/// The distinct currencies of the latest-entry set, in order.
pub open spec fn distinct_currencies(ls: Seq<CurrencyEntryX>) -> Seq<Seq<char>>
    decreases ls.len(),
{
    if ls.len() == 0 {
        Seq::empty()
    } else {
        insert_distinct(distinct_currencies(ls.drop_last()), ls.last().currency)
    }
}

/// Every listed currency is the currency of some latest entry.
pub proof fn lemma_distinct_mem(ls: Seq<CurrencyEntryX>, c: Seq<char>)
    requires
        distinct_currencies(ls).contains(c),
    ensures
        exists|j: int| 0 <= j < ls.len() && (#[trigger] ls[j]).currency == c,
    decreases ls.len(),
{
    if ls.len() > 0 {
        let t = ls.drop_last();
        let d = distinct_currencies(t);
        if d.contains(c) {
            lemma_distinct_mem(t, c);
            let j = choose|j: int| 0 <= j < t.len() && (#[trigger] t[j]).currency == c;
            assert(ls[j].currency == c);
        } else {
            if ls.last().currency == c {
                assert(ls[ls.len() - 1].currency == c);
            } else {
                if !d.contains(ls.last().currency) {
                    lemma_insert_by_contains(d, ls.last().currency, str_leq(), c);
                    lemma_distinct_mem(t, c);
                    let j = choose|j: int| 0 <= j < t.len() && (#[trigger] t[j]).currency == c;
                    assert(ls[j].currency == c);
                }
            }
        }
    }
}

/// The exact sum of the group's amounts, folded in order from zero.
pub open spec fn group_sum(ls: Seq<CurrencyEntryX>, c: Seq<char>) -> Option<Amount>
    decreases ls.len(),
{
    if ls.len() == 0 {
        Some(Amount { mantissa: 0, scale: 0 })
    } else {
        match group_sum(ls.drop_last(), c) {
            None => None,
            Some(a) => if ls.last().currency == c {
                a.add_spec(ls.last().amount)
            } else {
                Some(a)
            },
        }
    }
}

/// The greatest timestamp in the group, if the group is not empty.
pub open spec fn group_max_ts(ls: Seq<CurrencyEntryX>, c: Seq<char>) -> Option<Timestamp>
    decreases ls.len(),
{
    if ls.len() == 0 {
        None
    } else {
        let r = group_max_ts(ls.drop_last(), c);
        if ls.last().currency == c {
            match r {
                None => Some(ls.last().ts),
                Some(m) => if m.le_spec(ls.last().ts) {
                    Some(ls.last().ts)
                } else {
                    Some(m)
                },
            }
        } else {
            r
        }
    }
}

/// A failed sum over a prefix fails over the whole.
pub proof fn lemma_group_sum_none(ls: Seq<CurrencyEntryX>, c: Seq<char>, n: int)
    requires
        0 <= n <= ls.len(),
        group_sum(ls.take(n), c) is None,
    ensures
        group_sum(ls, c) is None,
    decreases ls.len(),
{
    if n < ls.len() {
        let t = ls.drop_last();
        assert(t.take(n) =~= ls.take(n));
        lemma_group_sum_none(t, c, n);
    } else {
        assert(ls.take(n) =~= ls);
    }
}

/// A group with a member has a greatest timestamp.
pub proof fn lemma_group_member_max(ls: Seq<CurrencyEntryX>, c: Seq<char>)
    requires
        exists|j: int| 0 <= j < ls.len() && (#[trigger] ls[j]).currency == c,
    ensures
        group_max_ts(ls, c) is Some,
    decreases ls.len(),
{
    let j = choose|j: int| 0 <= j < ls.len() && (#[trigger] ls[j]).currency == c;
    if ls.last().currency != c {
        let t = ls.drop_last();
        assert(t[j].currency == c);
        lemma_group_member_max(t, c);
    }
}

pub open spec fn cinfos_view(v: Seq<CurrencyInfo>) -> Seq<CurrencyInfoX> {
    v.map_values(|x: CurrencyInfo| x@)
}

/// Keeps `v` sorted in code-point order while pushing `x` after its
/// ties.
fn insert_string_sorted(v: &mut Vec<String>, x: String)
    ensures
        strings_view(final(v)@) == insert_by(strings_view(old(v)@), x@, str_leq()),
{
    let ghost s = strings_view(v@);
    let ghost leq = str_leq();
    let mut j: usize = 0;
    let mut stop = false;
    while j < v.len() && !stop
        invariant
            j <= v@.len(),
            s == strings_view(v@),
            leq == str_leq(),
            forall|k: int| 0 <= k < j ==> leq(#[trigger] s[k], x@),
            stop ==> j < v@.len() && !leq(s[j as int], x@),
        decreases v@.len() - j + (if stop {
            0int
        } else {
            1int
        }),
    {
        let le = str_le(v[j].as_str(), x.as_str());
        proof {
            assert(le == leq(s[j as int], x@));
        }
        if le {
            j = j + 1;
        } else {
            stop = true;
        }
    }
    proof {
        lemma_insert_by_split(s, x@, leq, j as int);
    }
    v.insert(j, x);
    proof {
        assert(strings_view(v@) =~= s.take(j as int) + seq![x@] + s.skip(j as int));
    }
}

impl Store {
    /// Index of the bank account row with this identifier, if present.
    fn find_bacct(&self, id: i64) -> (r: Option<usize>)
        ensures
            match r {
                Some(i) => i < self.bank_accounts@.len() && find_idx(
                    self@.bank_accounts,
                    bacct_id_pred(id),
                ) == Some(i as int) && self@.bank_accounts[i as int].id == id,
                None => find_idx(self@.bank_accounts, bacct_id_pred(id)) is None,
            },
    {
        let ghost p = bacct_id_pred(id);
        let mut i: usize = 0;
        while i < self.bank_accounts.len()
            invariant
                i <= self.bank_accounts@.len(),
                self@.bank_accounts.len() == self.bank_accounts@.len(),
                p == bacct_id_pred(id),
                forall|j: int| 0 <= j < i ==> !p(#[trigger] self@.bank_accounts[j]),
            decreases self.bank_accounts@.len() - i,
        {
            if self.bank_accounts[i].id == id {
                proof {
                    assert(p(self@.bank_accounts[i as int]));
                    lemma_find_idx_at(self@.bank_accounts, p, i as int);
                }
                return Some(i);
            }
            proof {
                assert(!p(self@.bank_accounts[i as int]));
            }
            i = i + 1;
        }
        proof {
            lemma_find_idx_none(self@.bank_accounts, p);
        }
        None
    }

    /// Index of the first entry row with this identifier, if present.
    fn find_entry(&self, id: i64) -> (r: Option<usize>)
        ensures
            match r {
                Some(i) => i < self.entries@.len() && find_idx(self@.entries, entry_id_pred(id))
                    == Some(i as int) && self@.entries[i as int].id == id,
                None => find_idx(self@.entries, entry_id_pred(id)) is None,
            },
    {
        let ghost p = entry_id_pred(id);
        let mut i: usize = 0;
        while i < self.entries.len()
            invariant
                i <= self.entries@.len(),
                self@.entries.len() == self.entries@.len(),
                p == entry_id_pred(id),
                forall|j: int| 0 <= j < i ==> !p(#[trigger] self@.entries[j]),
            decreases self.entries@.len() - i,
        {
            if self.entries[i].id == id {
                proof {
                    assert(p(self@.entries[i as int]));
                    lemma_find_idx_at(self@.entries, p, i as int);
                }
                return Some(i);
            }
            proof {
                assert(!p(self@.entries[i as int]));
            }
            i = i + 1;
        }
        proof {
            lemma_find_idx_none(self@.entries, p);
        }
        None
    }

    /// Appends a bank account under the caller's account.
    pub fn insert_bank_account(
        &mut self,
        account_id: i64,
        name: &str,
        currency: &str,
        now: Timestamp,
    ) -> (r: Result<(), DbError>)
        requires
            old(self)@.wf(),
            old(self)@.next_bank_account_id < i64::MAX,
        ensures
            r is Ok,
            final(self)@ == insert_bank_account_spec(old(self)@, account_id, name@, currency@, now),
            final(self)@.wf(),
    {
        let ghost old_sv = self@;
        self.bank_accounts.push(
            BankAccountRow {
                id: self.next_bank_account_id,
                account: account_id,
                name: name.to_owned(),
                currency: currency.to_owned(),
                deleted: false,
                created: now,
                modified: now,
            },
        );
        self.next_bank_account_id = self.next_bank_account_id + 1;
        proof {
            let bx = BankAccountRowX {
                id: old_sv.next_bank_account_id,
                account: account_id,
                name: name@,
                currency: currency@,
                deleted: false,
                created: now,
                modified: now,
            };
            assert(self@.bank_accounts =~= old_sv.bank_accounts.push(bx));
            assert(self@ =~= insert_bank_account_spec(old_sv, account_id, name@, currency@, now));
        }
        Ok(())
    }

    /// Records a balance observation.  A malformed amount is an error;
    /// a bank account that does not belong to the caller's account makes
    /// the insert a silent no-op, exactly as the schema's scoping
    /// subquery does.
    pub fn insert_entry(
        &mut self,
        account_id: &i64,
        bank_account: &i64,
        ts: &Timestamp,
        amount_str: &str,
        now: Timestamp,
    ) -> (r: Result<(), DbError>)
        requires
            old(self)@.wf(),
            old(self)@.next_entry_id < i64::MAX,
        ensures
            final(self)@.wf(),
            match r {
                Ok(_) => parse_amount_spec(amount_str@) is Some && {
                    let owned = find_idx(
                        old(self)@.bank_accounts,
                        bacct_owned_pred(*bank_account, *account_id),
                    ) is Some;
                    if owned {
                        final(self)@ == insert_entry_spec(
                            old(self)@,
                            *bank_account,
                            *ts,
                            parse_amount_spec(amount_str@).unwrap(),
                            now,
                        )
                    } else {
                        final(self)@ == old(self)@
                    }
                },
                Err(_) => parse_amount_spec(amount_str@) is None && final(self)@ == old(self)@,
            },
    {
        let amount = match parse_amount(amount_str) {
            Some(a) => a,
            None => {
                return Err(DbError::new("invalid input syntax for type numeric"));
            },
        };
        let ghost p = bacct_owned_pred(*bank_account, *account_id);
        let mut i: usize = 0;
        let mut owned = false;
        while i < self.bank_accounts.len() && !owned
            invariant
                i <= self.bank_accounts@.len(),
                self@ == old(self)@,
                p == bacct_owned_pred(*bank_account, *account_id),
                forall|j: int| 0 <= j < i ==> !p(#[trigger] self@.bank_accounts[j]),
                owned ==> i < self.bank_accounts@.len() && p(self@.bank_accounts[i as int]),
            decreases self.bank_accounts@.len() - i + (if owned {
                0int
            } else {
                1int
            }),
        {
            let row = &self.bank_accounts[i];
            if row.id == *bank_account && row.account == *account_id {
                owned = true;
            } else {
                proof {
                    assert(!p(self@.bank_accounts[i as int]));
                }
                i = i + 1;
            }
        }
        if !owned {
            proof {
                lemma_find_idx_none(self@.bank_accounts, p);
            }
            return Ok(());
        }
        proof {
            lemma_find_idx_at(self@.bank_accounts, p, i as int);
        }
        let ghost old_sv = self@;
        self.entries.push(
            EntryRow {
                id: self.next_entry_id,
                bank_account: *bank_account,
                ts: *ts,
                amount: amount,
                deleted: false,
                created: now,
                modified: now,
            },
        );
        self.next_entry_id = self.next_entry_id + 1;
        proof {
            let ex = EntryRowX {
                id: old_sv.next_entry_id,
                bank_account: *bank_account,
                ts: *ts,
                amount: amount,
                deleted: false,
                created: now,
                modified: now,
            };
            assert(self@.entries =~= old_sv.entries.push(ex));
            assert(self@ =~= insert_entry_spec(old_sv, *bank_account, *ts, amount, now));
        }
        Ok(())
    }

    /// Delete entry.
    /// The account_id is redundant, but we use it for security.
    pub fn delete_entry(&mut self, account_id: i64, entry_id: i64, now: Timestamp) -> (r: Result<
        (),
        DbError,
    >)
        requires
            old(self)@.wf(),
        ensures
            r is Ok,
            final(self)@ == delete_entry_spec(old(self)@, account_id, entry_id, now),
            final(self)@.wf(),
    {
        let ghost old_sv = self@;
        match self.find_entry(entry_id) {
            None => Ok(()),
            Some(i) => {
                let owned = match self.find_bacct(self.entries[i].bank_account) {
                    Some(b) => self.bank_accounts[b].account == account_id,
                    None => false,
                };
                if owned {
                    let row = &self.entries[i];
                    let new_row = EntryRow {
                        id: row.id,
                        bank_account: row.bank_account,
                        ts: row.ts,
                        amount: row.amount,
                        deleted: true,
                        created: row.created,
                        modified: now,
                    };
                    self.entries[i] = new_row;
                    proof {
                        assert(self@.entries =~= old_sv.entries.update(
                            i as int,
                            EntryRowX { deleted: true, modified: now, ..old_sv.entries[i as int] },
                        ));
                        assert(self@ =~= delete_entry_spec(old_sv, account_id, entry_id, now));
                        assert forall|a: int, b: int|
                            0 <= a < b < self@.entries.len() implies #[trigger] self@.entries[a].id
                            < #[trigger] self@.entries[b].id by {
                            assert(old_sv.entries[a].id < old_sv.entries[b].id);
                        }
                    }
                    Ok(())
                } else {
                    Ok(())
                }
            },
        }
    }

    /// Replaces a visible, owned entry's amount; a malformed amount is
    /// an error, a missing or foreign entry a silent no-op.
    pub fn update_entry_amount(
        &mut self,
        account_id: i64,
        entry_id: i64,
        amount: String,
        now: Timestamp,
    ) -> (r: Result<(), DbError>)
        requires
            old(self)@.wf(),
        ensures
            final(self)@.wf(),
            match r {
                Ok(_) => parse_amount_spec(amount@) is Some && final(self)@
                    == update_entry_amount_spec(
                    old(self)@,
                    account_id,
                    entry_id,
                    parse_amount_spec(amount@).unwrap(),
                    now,
                ),
                Err(_) => parse_amount_spec(amount@) is None && final(self)@ == old(self)@,
            },
    {
        let parsed = match parse_amount(amount.as_str()) {
            Some(a) => a,
            None => {
                return Err(DbError::new("invalid input syntax for type numeric"));
            },
        };
        let ghost old_sv = self@;
        match self.find_entry(entry_id) {
            None => Ok(()),
            Some(i) => {
                let visible = !self.entries[i].deleted && match self.find_bacct(
                    self.entries[i].bank_account,
                ) {
                    Some(b) => self.bank_accounts[b].account == account_id
                        && !self.bank_accounts[b].deleted,
                    None => false,
                };
                if visible {
                    let row = &self.entries[i];
                    let new_row = EntryRow {
                        id: row.id,
                        bank_account: row.bank_account,
                        ts: row.ts,
                        amount: parsed,
                        deleted: row.deleted,
                        created: row.created,
                        modified: now,
                    };
                    self.entries[i] = new_row;
                    proof {
                        assert(self@.entries =~= old_sv.entries.update(
                            i as int,
                            EntryRowX { amount: parsed, modified: now, ..old_sv.entries[i as int] },
                        ));
                        assert(self@ =~= update_entry_amount_spec(
                            old_sv,
                            account_id,
                            entry_id,
                            parsed,
                            now,
                        ));
                        assert forall|a: int, b: int|
                            0 <= a < b < self@.entries.len() implies #[trigger] self@.entries[a].id
                            < #[trigger] self@.entries[b].id by {
                            assert(old_sv.entries[a].id < old_sv.entries[b].id);
                        }
                    }
                    Ok(())
                } else {
                    Ok(())
                }
            },
        }
    }

    /// One visible entry joined with its bank account, if it exists and
    /// belongs to the caller's account.
    pub fn get_entry(&self, acc_id: i64, entry_id: i64) -> (r: Result<Option<EntryInfo>, DbError>)
        requires
            self@.wf(),
        ensures
            r is Ok,
            match r.unwrap() {
                Some(info) => entry_info_spec(self@, acc_id, entry_id) == Some(info@),
                None => entry_info_spec(self@, acc_id, entry_id) is None,
            },
    {
        match self.find_entry(entry_id) {
            None => Ok(None),
            Some(i) => {
                let row = &self.entries[i];
                if row.deleted {
                    return Ok(None);
                }
                match self.find_bacct(row.bank_account) {
                    None => Ok(None),
                    Some(b) => {
                        let bacct = &self.bank_accounts[b];
                        if bacct.account == acc_id && !bacct.deleted {
                            proof {
                                assert(self@.entries[i as int].amount.wf());
                            }
                            Ok(
                                Some(
                                    EntryInfo {
                                        amount: format_amount(&row.amount),
                                        bank_account: bacct.name.clone(),
                                        currency: bacct.currency.clone(),
                                        id: row.id,
                                        ts: row.ts,
                                    },
                                ),
                            )
                        } else {
                            Ok(None)
                        }
                    },
                }
            },
        }
    }

    /// Get CashLog entries for given account id.
    /// Returns only those entries that were not deleted (are not marked
    /// deleted), latest first, capped at 1024 rows.
    pub fn get_entries(&self, account_id: i64) -> (r: Result<Vec<EntryInfo>, DbError>)
        requires
            self@.wf(),
        ensures
            r is Ok,
            ({
                let sorted = sort_by_ins(
                    visible_infos_of(self@, self@.entries, account_id),
                    entry_desc_leq(),
                );
                infos_view(r.unwrap()@) == sorted.take(
                    if sorted.len() < 1024 {
                        sorted.len() as int
                    } else {
                        1024int
                    },
                )
            }),
    {
        let mut out: Vec<EntryInfo> = Vec::new();
        let mut i: usize = 0;
        while i < self.entries.len()
            invariant
                i <= self.entries@.len(),
                self@.wf(),
                infos_view(out@) == sort_by_ins(
                    visible_infos_of(self@, self@.entries.take(i as int), account_id),
                    entry_desc_leq(),
                ),
            decreases self.entries@.len() - i,
        {
            let ghost prefix = self@.entries.take(i as int);
            let ghost prefix1 = self@.entries.take(i + 1);
            proof {
                assert(prefix1.drop_last() =~= prefix);
                assert(prefix1.last() == self@.entries[i as int]);
            }
            let row = &self.entries[i];
            if !row.deleted {
                match self.find_bacct(row.bank_account) {
                    None => {
                        proof {
                            assert(!entry_vis(self@, account_id, self@.entries[i as int]));
                        }
                    },
                    Some(b) => {
                        let bacct = &self.bank_accounts[b];
                        if bacct.account == account_id && !bacct.deleted {
                            proof {
                                assert(self@.entries[i as int].amount.wf());
                                assert(entry_vis(self@, account_id, self@.entries[i as int]));
                            }
                            let item = EntryInfo {
                                amount: format_amount(&row.amount),
                                bank_account: bacct.name.clone(),
                                currency: bacct.currency.clone(),
                                id: row.id,
                                ts: row.ts,
                            };
                            let ghost vis = visible_infos_of(self@, prefix, account_id);
                            proof {
                                assert(visible_infos_of(self@, prefix1, account_id) == vis.push(
                                    item@,
                                ));
                                assert(vis.push(item@).drop_last() =~= vis);
                                assert(sort_by_ins(vis.push(item@), entry_desc_leq())
                                    == insert_by(
                                    sort_by_ins(vis, entry_desc_leq()),
                                    item@,
                                    entry_desc_leq(),
                                ));
                            }
                            insert_entry_info_desc(&mut out, item);
                        } else {
                            proof {
                                assert(!entry_vis(self@, account_id, self@.entries[i as int]));
                            }
                        }
                    },
                }
            }
            i = i + 1;
        }
        proof {
            assert(self@.entries.take(self@.entries.len() as int) =~= self@.entries);
        }
        let ghost sorted = sort_by_ins(
            visible_infos_of(self@, self@.entries, account_id),
            entry_desc_leq(),
        );
        if out.len() > 1024 {
            out.truncate(1024);
            proof {
                assert(infos_view(out@) =~= sorted.take(1024));
            }
        } else {
            proof {
                assert(infos_view(out@) =~= sorted.take(sorted.len() as int));
            }
        }
        Ok(out)
    }

    /// The visible entries of one bank account name, earliest first,
    /// capped at 4096 rows.
    pub fn get_entries_by_bank_account(&self, account_id: i64, bank_account_name: &str) -> (r:
        Result<Vec<EntryInfo>, DbError>)
        requires
            self@.wf(),
        ensures
            r is Ok,
            ({
                let sorted = sort_by_ins(
                    visible_infos_named(self@, self@.entries, account_id, bank_account_name@),
                    entry_asc_leq(),
                );
                infos_view(r.unwrap()@) == sorted.take(
                    if sorted.len() < 4096 {
                        sorted.len() as int
                    } else {
                        4096int
                    },
                )
            }),
    {
        let mut out: Vec<EntryInfo> = Vec::new();
        let mut i: usize = 0;
        while i < self.entries.len()
            invariant
                i <= self.entries@.len(),
                self@.wf(),
                infos_view(out@) == sort_by_ins(
                    visible_infos_named(
                        self@,
                        self@.entries.take(i as int),
                        account_id,
                        bank_account_name@,
                    ),
                    entry_asc_leq(),
                ),
            decreases self.entries@.len() - i,
        {
            let ghost prefix = self@.entries.take(i as int);
            let ghost prefix1 = self@.entries.take(i + 1);
            proof {
                assert(prefix1.drop_last() =~= prefix);
                assert(prefix1.last() == self@.entries[i as int]);
            }
            let row = &self.entries[i];
            if !row.deleted {
                match self.find_bacct(row.bank_account) {
                    None => {
                        proof {
                            assert(!entry_vis(self@, account_id, self@.entries[i as int]));
                        }
                    },
                    Some(b) => {
                        let bacct = &self.bank_accounts[b];
                        if bacct.account == account_id && !bacct.deleted && str_eq(
                            bacct.name.as_str(),
                            bank_account_name,
                        ) {
                            proof {
                                assert(self@.entries[i as int].amount.wf());
                                assert(entry_vis(self@, account_id, self@.entries[i as int]));
                            }
                            let item = EntryInfo {
                                amount: format_amount(&row.amount),
                                bank_account: bacct.name.clone(),
                                currency: bacct.currency.clone(),
                                id: row.id,
                                ts: row.ts,
                            };
                            let ghost vis = visible_infos_named(
                                self@,
                                prefix,
                                account_id,
                                bank_account_name@,
                            );
                            proof {
                                assert(visible_infos_named(
                                    self@,
                                    prefix1,
                                    account_id,
                                    bank_account_name@,
                                ) == vis.push(item@));
                                assert(vis.push(item@).drop_last() =~= vis);
                                assert(sort_by_ins(vis.push(item@), entry_asc_leq()) == insert_by(
                                    sort_by_ins(vis, entry_asc_leq()),
                                    item@,
                                    entry_asc_leq(),
                                ));
                            }
                            insert_entry_info_asc(&mut out, item);
                        }
                    },
                }
            }
            i = i + 1;
        }
        proof {
            assert(self@.entries.take(self@.entries.len() as int) =~= self@.entries);
        }
        let ghost sorted = sort_by_ins(
            visible_infos_named(self@, self@.entries, account_id, bank_account_name@),
            entry_asc_leq(),
        );
        if out.len() > 4096 {
            out.truncate(4096);
            proof {
                assert(infos_view(out@) =~= sorted.take(4096));
            }
        } else {
            proof {
                assert(infos_view(out@) =~= sorted.take(sorted.len() as int));
            }
        }
        Ok(out)
    }

    /// The visible bank accounts of the account, ordered by name and
    /// identifier.
    pub fn get_bank_accounts(&self, account_id: i64) -> (r: Result<Vec<BankAccount>, DbError>)
        ensures
            r is Ok && baccts_view(r.unwrap()@) == sort_by_ins(
                visible_baccts(self@.bank_accounts, account_id),
                bacct_leq(),
            ),
    {
        let mut out: Vec<BankAccount> = Vec::new();
        let mut i: usize = 0;
        while i < self.bank_accounts.len()
            invariant
                i <= self.bank_accounts@.len(),
                baccts_view(out@) == sort_by_ins(
                    visible_baccts(self@.bank_accounts.take(i as int), account_id),
                    bacct_leq(),
                ),
            decreases self.bank_accounts@.len() - i,
        {
            let ghost prefix = self@.bank_accounts.take(i as int);
            let ghost prefix1 = self@.bank_accounts.take(i + 1);
            proof {
                assert(prefix1.drop_last() =~= prefix);
                assert(prefix1.last() == self@.bank_accounts[i as int]);
            }
            let row = &self.bank_accounts[i];
            if !row.deleted && row.account == account_id {
                let item = BankAccount {
                    id: row.id,
                    name: row.name.clone(),
                    currency: row.currency.clone(),
                };
                let ghost vis = visible_baccts(prefix, account_id);
                proof {
                    assert(visible_baccts(prefix1, account_id) == vis.push(item@));
                    assert(vis.push(item@).drop_last() =~= vis);
                    assert(sort_by_ins(vis.push(item@), bacct_leq()) == insert_by(
                        sort_by_ins(vis, bacct_leq()),
                        item@,
                        bacct_leq(),
                    ));
                }
                insert_bank_account_sorted(&mut out, item);
            }
            i = i + 1;
        }
        proof {
            assert(self@.bank_accounts.take(self@.bank_accounts.len() as int)
                =~= self@.bank_accounts);
        }
        Ok(out)
    }

    /// The latest non-deleted entry of one bank account, if any.
    fn latest_entry(&self, bid: i64) -> (r: Option<EntryRow>)
        ensures
            match r {
                Some(e) => latest_entry_of(self@.entries, bid) == Some(e@),
                None => latest_entry_of(self@.entries, bid) is None,
            },
    {
        let mut best: Option<EntryRow> = None;
        let mut i: usize = 0;
        while i < self.entries.len()
            invariant
                i <= self.entries@.len(),
                match best {
                    Some(e) => latest_entry_of(self@.entries.take(i as int), bid) == Some(e@),
                    None => latest_entry_of(self@.entries.take(i as int), bid) is None,
                },
            decreases self.entries@.len() - i,
        {
            let ghost prefix = self@.entries.take(i as int);
            let ghost prefix1 = self@.entries.take(i + 1);
            proof {
                assert(prefix1.drop_last() =~= prefix);
                assert(prefix1.last() == self@.entries[i as int]);
            }
            let e = self.entries[i];
            if e.bank_account == bid && !e.deleted {
                best = match best {
                    None => Some(e),
                    Some(m) => if m.ts.le(&e.ts) && !(m.ts == e.ts) {
                        Some(e)
                    } else {
                        Some(m)
                    },
                };
            }
            i = i + 1;
        }
        proof {
            assert(self@.entries.take(self@.entries.len() as int) =~= self@.entries);
        }
        best
    }

    /// One row per visible bank account that has a visible entry,
    /// carrying the latest entry's amount and timestamp, ordered by
    /// bank account name and currency.
    pub fn get_bank_account_infos(&self, account_id: i64) -> (r: Result<
        Vec<BankAccountInfo>,
        DbError,
    >)
        requires
            self@.wf(),
        ensures
            r is Ok && binfos_view(r.unwrap()@) == sort_by_ins(
                latest_infos(self@, self@.bank_accounts, account_id),
                binfo_leq(),
            ),
    {
        let mut out: Vec<BankAccountInfo> = Vec::new();
        let mut i: usize = 0;
        while i < self.bank_accounts.len()
            invariant
                i <= self.bank_accounts@.len(),
                self@.wf(),
                binfos_view(out@) == sort_by_ins(
                    latest_infos(self@, self@.bank_accounts.take(i as int), account_id),
                    binfo_leq(),
                ),
            decreases self.bank_accounts@.len() - i,
        {
            let ghost prefix = self@.bank_accounts.take(i as int);
            let ghost prefix1 = self@.bank_accounts.take(i + 1);
            proof {
                assert(prefix1.drop_last() =~= prefix);
                assert(prefix1.last() == self@.bank_accounts[i as int]);
            }
            let row = &self.bank_accounts[i];
            if !row.deleted && row.account == account_id {
                match self.latest_entry(row.id) {
                    None => {},
                    Some(e) => {
                        proof {
                            lemma_latest_member(self@.entries, row.id);
                            assert(e@.amount.wf());
                        }
                        let item = BankAccountInfo {
                            bank_account: row.name.clone(),
                            amount: format_amount(&e.amount),
                            currency: row.currency.clone(),
                            ts: e.ts,
                        };
                        let ghost vis = latest_infos(self@, prefix, account_id);
                        proof {
                            assert(latest_infos(self@, prefix1, account_id) == vis.push(item@));
                            assert(vis.push(item@).drop_last() =~= vis);
                            assert(sort_by_ins(vis.push(item@), binfo_leq()) == insert_by(
                                sort_by_ins(vis, binfo_leq()),
                                item@,
                                binfo_leq(),
                            ));
                        }
                        insert_bacct_info_sorted(&mut out, item);
                    },
                }
            }
            i = i + 1;
        }
        proof {
            assert(self@.bank_accounts.take(self@.bank_accounts.len() as int)
                =~= self@.bank_accounts);
        }
        Ok(out)
    }

    /// One row per currency over the latest-entry-per-bank-account set:
    /// the exact sum of the amounts and the greatest timestamp, ordered
    /// by currency.  An amount overflowing the machine range is an
    /// error, as the store's numeric type would raise.
    pub fn get_currency_info(&self, account_id: i64) -> (r: Result<Vec<CurrencyInfo>, DbError>)
        requires
            self@.wf(),
        ensures
            ({
                let latest = currency_latest(self@, self@.bank_accounts, account_id);
                let ds = distinct_currencies(latest);
                match r {
                    Ok(v) => cinfos_view(v@).len() == ds.len() && (forall|k: int|
                        0 <= k < ds.len() ==> (#[trigger] cinfos_view(v@)[k]).currency == ds[k]
                            && group_sum(latest, ds[k]) is Some && cinfos_view(v@)[k].amount
                            == amount_text(group_sum(latest, ds[k]).unwrap()) && cinfos_view(
                            v@,
                        )[k].ts == group_max_ts(latest, ds[k]).unwrap()),
                    Err(_) => exists|k: int|
                        0 <= k < ds.len() && group_sum(latest, #[trigger] ds[k]) is None,
                }
            }),
    {
        let ghost latest_g = currency_latest(self@, self@.bank_accounts, account_id);
        // gather the latest entry of every visible bank account
        let mut latest: Vec<CurrencyEntry> = Vec::new();
        let mut i: usize = 0;
        while i < self.bank_accounts.len()
            invariant
                i <= self.bank_accounts@.len(),
                self@.wf(),
                latest@.map_values(|x: CurrencyEntry| x@) == currency_latest(
                    self@,
                    self@.bank_accounts.take(i as int),
                    account_id,
                ),
            decreases self.bank_accounts@.len() - i,
        {
            let ghost prefix = self@.bank_accounts.take(i as int);
            let ghost prefix1 = self@.bank_accounts.take(i + 1);
            proof {
                assert(prefix1.drop_last() =~= prefix);
                assert(prefix1.last() == self@.bank_accounts[i as int]);
            }
            let row = &self.bank_accounts[i];
            if !row.deleted && row.account == account_id {
                match self.latest_entry(row.id) {
                    None => {},
                    Some(e) => {
                        let item = CurrencyEntry {
                            currency: row.currency.clone(),
                            amount: e.amount,
                            ts: e.ts,
                        };
                        latest.push(item);
                    },
                }
            }
            proof {
                assert(latest@.map_values(|x: CurrencyEntry| x@) =~= currency_latest(
                    self@,
                    prefix1,
                    account_id,
                ));
            }
            i = i + 1;
        }
        proof {
            assert(self@.bank_accounts.take(self@.bank_accounts.len() as int)
                =~= self@.bank_accounts);
            assert(latest@.map_values(|x: CurrencyEntry| x@) == latest_g);
            lemma_currency_latest_wf(self@, self@.bank_accounts, account_id);
        }
        let ghost cl = latest_g;
        // the distinct currencies, in order
        let mut distinct: Vec<String> = Vec::new();
        let mut i: usize = 0;
        while i < latest.len()
            invariant
                i <= latest@.len(),
                cl == latest@.map_values(|x: CurrencyEntry| x@),
                strings_view(distinct@) == distinct_currencies(cl.take(i as int)),
            decreases latest@.len() - i,
        {
            let ghost prefix = cl.take(i as int);
            let ghost prefix1 = cl.take(i + 1);
            proof {
                assert(prefix1.drop_last() =~= prefix);
                assert(prefix1.last() == cl[i as int]);
            }
            let c = &latest[i].currency;
            let mut m: usize = 0;
            let mut found = false;
            while m < distinct.len() && !found
                invariant
                    m <= distinct@.len(),
                    strings_view(distinct@) == distinct_currencies(prefix),
                    cl == latest@.map_values(|x: CurrencyEntry| x@),
                    i < latest@.len(),
                    c@ == cl[i as int].currency,
                    forall|k: int| 0 <= k < m ==> #[trigger] strings_view(distinct@)[k] != c@,
                    found ==> strings_view(distinct@).contains(c@),
                decreases distinct@.len() - m + (if found {
                    0int
                } else {
                    1int
                }),
            {
                if str_eq(distinct[m].as_str(), c.as_str()) {
                    found = true;
                    proof {
                        assert(strings_view(distinct@)[m as int] == c@);
                    }
                } else {
                    proof {
                        assert(strings_view(distinct@)[m as int] != c@);
                    }
                    m = m + 1;
                }
            }
            if found {
                proof {
                    assert(insert_distinct(distinct_currencies(prefix), c@)
                        == distinct_currencies(prefix));
                    assert(strings_view(distinct@) == distinct_currencies(prefix1));
                }
            } else {
                proof {
                    assert(!strings_view(distinct@).contains(c@));
                }
                insert_string_sorted(&mut distinct, c.clone());
                proof {
                    assert(strings_view(distinct@) == distinct_currencies(prefix1));
                }
            }
            i = i + 1;
        }
        proof {
            assert(cl.take(cl.len() as int) =~= cl);
        }
        let ghost ds = distinct_currencies(cl);
        // one output row per currency
        let mut out: Vec<CurrencyInfo> = Vec::new();
        let mut k: usize = 0;
        while k < distinct.len()
            invariant
                k <= distinct@.len(),
                cl == latest@.map_values(|x: CurrencyEntry| x@),
                cl == currency_latest(self@, self@.bank_accounts, account_id),
                forall|j: int| 0 <= j < cl.len() ==> (#[trigger] cl[j].amount).wf(),
                strings_view(distinct@) == ds,
                ds == distinct_currencies(cl),
                cinfos_view(out@).len() == k,
                forall|j: int|
                    0 <= j < k ==> (#[trigger] cinfos_view(out@)[j]).currency == ds[j] && group_sum(
                        cl,
                        ds[j],
                    ) is Some && cinfos_view(out@)[j].amount == amount_text(
                        group_sum(cl, ds[j]).unwrap(),
                    ) && cinfos_view(out@)[j].ts == group_max_ts(cl, ds[j]).unwrap(),
            decreases distinct@.len() - k,
        {
            let c = &distinct[k];
            proof {
                assert(c@ == ds[k as int]);
            }
            let mut acc = Amount::zero();
            let mut maxts: Option<Timestamp> = None;
            let mut j: usize = 0;
            while j < latest.len()
                invariant
                    j <= latest@.len(),
                    cl == latest@.map_values(|x: CurrencyEntry| x@),
                    forall|m2: int| 0 <= m2 < cl.len() ==> (#[trigger] cl[m2].amount).wf(),
                    k < distinct@.len(),
                    c@ == strings_view(distinct@)[k as int],
                    strings_view(distinct@) == ds,
                    ds == distinct_currencies(cl),
                    cl == currency_latest(self@, self@.bank_accounts, account_id),
                    acc.wf(),
                    group_sum(cl.take(j as int), c@) == Some(acc),
                    match maxts {
                        Some(t) => group_max_ts(cl.take(j as int), c@) == Some(t),
                        None => group_max_ts(cl.take(j as int), c@) is None,
                    },
                decreases latest@.len() - j,
            {
                let ghost prefix = cl.take(j as int);
                let ghost prefix1 = cl.take(j + 1);
                proof {
                    assert(prefix1.drop_last() =~= prefix);
                    assert(prefix1.last() == cl[j as int]);
                }
                let item = &latest[j];
                if str_eq(item.currency.as_str(), c.as_str()) {
                    proof {
                        assert(cl[j as int].amount.wf());
                    }
                    acc = match acc.checked_add(item.amount) {
                        Some(a) => a,
                        None => {
                            proof {
                                assert(group_sum(prefix1, c@) is None);
                                lemma_group_sum_none(cl, c@, j + 1);
                                assert(ds.contains(c@)) by {
                                    assert(ds[k as int] == c@);
                                }
                                assert(group_sum(cl, ds[k as int]) is None);
                            }
                            return Err(DbError::new("numeric field overflow"));
                        },
                    };
                    maxts = match maxts {
                        None => Some(item.ts),
                        Some(m) => if m.le(&item.ts) {
                            Some(item.ts)
                        } else {
                            Some(m)
                        },
                    };
                }
                j = j + 1;
            }
            proof {
                assert(cl.take(cl.len() as int) =~= cl);
            }
            match maxts {
                Some(t) => {
                    let ghost old_out = cinfos_view(out@);
                    out.push(
                        CurrencyInfo { currency: c.clone(), amount: format_amount(&acc), ts: t },
                    );
                    proof {
                        assert(cinfos_view(out@) =~= old_out.push(
                            CurrencyInfoX { currency: c@, amount: amount_text(acc), ts: t },
                        ));
                        assert(forall|j2: int|
                            0 <= j2 < k ==> #[trigger] cinfos_view(out@)[j2] == old_out[j2]);
                    }
                },
                None => {
                    proof {
                        assert(ds.contains(c@)) by {
                            assert(ds[k as int] == c@);
                        }
                        lemma_distinct_mem(cl, c@);
                        lemma_group_member_max(cl, c@);
                        assert(false);
                    }
                    return Err(DbError::new("numeric field overflow"));
                },
            }
            k = k + 1;
        }
        proof {
            assert(cinfos_view(out@).len() == ds.len());
        }
        Ok(out)
    }
}

} // verus!
