//! CSV export of the entries listing.

use vstd::prelude::*;
use crate::model::EntryInfo;
use crate::model::EntryInfoX;
use crate::timestamp::format_ts_full;
use crate::timestamp::ts_text_full;

verus! {

pub open spec fn csv_row_text(e: EntryInfoX) -> Seq<char> {
    ts_text_full(e.ts) + ","@ + e.bank_account + ","@ + e.amount + ","@ + e.currency + "\n"@
}

pub open spec fn csv_rows_text(s: Seq<EntryInfoX>) -> Seq<char>
    decreases s.len(),
{
    if s.len() == 0 {
        Seq::empty()
    } else {
        csv_rows_text(s.drop_last()) + csv_row_text(s.last())
    }
}

/// The whole export: a header line, then one `ts,account,amount,currency`
/// row per entry.
pub open spec fn csv_text(s: Seq<EntryInfoX>) -> Seq<char> {
    "ts,account,amount,currency\n"@ + csv_rows_text(s)
}

/// Renders the entries as the CSV export file.
pub fn entries_to_csv(entries: Vec<EntryInfo>) -> (r: String)
    ensures
        r@ == csv_text(entries@.map_values(|x: EntryInfo| x@)),
{
    let ghost s = entries@.map_values(|x: EntryInfo| x@);
    let mut csv = "ts,account,amount,currency\n".to_owned();
    let mut i: usize = 0;
    while i < entries.len()
        invariant
            i <= entries@.len(),
            s == entries@.map_values(|x: EntryInfo| x@),
            csv@ == "ts,account,amount,currency\n"@ + csv_rows_text(s.take(i as int)),
        decreases entries@.len() - i,
    {
        let ghost prefix = s.take(i as int);
        let ghost prefix1 = s.take(i + 1);
        proof {
            assert(prefix1.drop_last() =~= prefix);
            assert(prefix1.last() == s[i as int]);
        }
        let e = &entries[i];
        let ts_str = format_ts_full(&e.ts);
        csv.append(ts_str.as_str());
        csv.append(",");
        csv.append(e.bank_account.as_str());
        csv.append(",");
        csv.append(e.amount.as_str());
        csv.append(",");
        csv.append(e.currency.as_str());
        csv.append("\n");
        proof {
            assert(csv@ =~= "ts,account,amount,currency\n"@ + csv_rows_text(prefix1));
        }
        i = i + 1;
    }
    proof {
        assert(s.take(s.len() as int) =~= s);
    }
    csv
}

} // verus!
