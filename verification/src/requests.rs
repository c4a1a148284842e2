//! Typed request parameters of the pages, with their validation.

use vstd::prelude::*;

verus! {

/// POST params to add an entry.
pub struct AddPostParams {
    pub ts: String,
    pub amount: String,
    pub bank_account: i64,
}

pub struct GetNewSessionWithTokenParams {
    pub token: String,
}

/// The params of the "new session" page when invoked via POST.
pub struct PostNewSessionParams {
    pub email: String,
}

pub struct AddBankAccountParams {
    pub name: String,
    pub currency: String,
}

pub struct AddBankAccountParamsValidationResult {
    pub name_err: Option<String>,
    pub currency_err: Option<String>,
}

pub struct DeletePostParams {
    pub id: i64,
}

/// The query or post params of the edit page.
pub struct EditParams {
    /// The id of the entry to edit.
    pub id: String,
}

/// Params of the page where user saves the edits.
pub struct EditPostParams {
    pub id: String,
    pub amount: String,
}

pub struct HandleExportFileParams {
    pub filename: String,
}

pub struct GraphParams {
    pub account: String,
}

pub open spec fn is_space_char(c: char) -> bool {
    c == ' ' || c == '\t' || c == '\n' || c == '\r'
}

/// Nothing but whitespace: what a required field must not be.
pub open spec fn is_blank(s: Seq<char>) -> bool {
    forall|i: int| 0 <= i < s.len() ==> is_space_char(#[trigger] s[i])
}

/// Whether the text trims to nothing.
pub fn str_is_blank(s: &str) -> (r: bool)
    ensures
        r == is_blank(s@),
{
    let len = s.unicode_len();
    let mut i: usize = 0;
    while i < len
        invariant
            len == s@.len(),
            0 <= i <= len,
            forall|j: int| 0 <= j < i ==> is_space_char(#[trigger] s@[j]),
        decreases len - i,
    {
        let c = s.get_char(i);
        if !(c == ' ' || c == '\t' || c == '\n' || c == '\r') {
            return false;
        }
        i = i + 1;
    }
    true
}

impl AddBankAccountParams {
    /// Take the raw form values data and return validation errors, if
    /// any: each required field that trims to nothing gets an error,
    /// and only those.
    pub fn validate(&self) -> (r: AddBankAccountParamsValidationResult)
        ensures
            match r.name_err {
                Some(e) => is_blank(self.name@) && e@ == "Name is required"@,
                None => !is_blank(self.name@),
            },
            match r.currency_err {
                Some(e) => is_blank(self.currency@) && e@ == "Currency is required"@,
                None => !is_blank(self.currency@),
            },
    {
        let name_err: Option<String> = if str_is_blank(self.name.as_str()) {
            Some("Name is required".to_owned())
        } else {
            None
        };
        let currency_err: Option<String> = if str_is_blank(self.currency.as_str()) {
            Some("Currency is required".to_owned())
        } else {
            None
        };
        AddBankAccountParamsValidationResult { name_err, currency_err }
    }
}

} // verus!
