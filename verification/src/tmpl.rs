//! Plain-string page templates.
//!
//! Each template is specified by a spec function giving the exact text
//! it produces, built from the same literal fragments the executable
//! code concatenates.

use vstd::prelude::*;
use crate::model::EntryInfo;
use crate::model::EntryInfoX;
use crate::timestamp::ts_text;

verus! {

pub const TMPL_CSS: &'static str = "
        <style>

            header {
                overflow: hidden;
                background: #222;
            }

            header a, header label {
                display: block;
                padding: 20px;
                color: #fff;
                text-decoration: none;
                line-height: 20px;
            }

            header a:hover, header label:hover { color: #aaa; }

            header label {
                float: right;
                padding: 18px 20px;
                cursor: pointer;
            }

            header label:after {
                content: \"\\2261\";
                font-size: 1.8em;
            }

            .logo {
                float: left;
                font-weight: bold;
                font-size: 1.5em;
            }

            nav {
                float: right;
                max-height: 0;
                width: 100%;
                transition: max-height 0.3s;
            }

            nav ul {
                margin: 0;
                padding: 0;
                padding-bottom: 10px;
            }

            nav li {
                display: block;
                text-align: center;
            }

            nav a {
                padding: 10px;
                width: 100%;
            }

            #nav { display: none; }

            #nav:checked ~ nav {
                max-height: 200px;
            }

            @media only screen and (min-width: 700px) {

                header label { display: none; }

                nav {
                    width: auto;
                    max-height: none;
                }

                nav ul {
                    padding: 0;
                    padding-right: 10px;
                }

                nav li {
                    display: inline-block;
                    text-align: left;
                }

                header nav a {
                    display: inline-block;
                    padding: 20px 10px;
                    width: auto;
                }

            }

            .content {
                padding: 2em 3em 0;
            }

            body {
                font-family: sans-serif;
                font-size: 11pt;
            }
            table.data {
                border-collapse: collapse;
            }
            table.data > thead > tr > th {
                border: 1px solid black;
                padding: 4pt;
            }
            table.data > tbody > tr > td {
                border: 1px solid gray;
                padding: 2pt;
            }
        </style>\n
    ";

pub const TMPL_MENU: &'static str = "
        <header>
            <a class=\"logo\">CashLog</a>
            <input id=\"nav\" type=\"checkbox\">
            <label for=\"nav\"></label>
            <nav>
                <ul>
                    <li><a href=\"/\">Table</a></li>
                    <li><a href=\"/add\">Add</a></li>
                </ul>
            </nav>
        </header>
    ";

pub const TMPL_ADD_FORM: &'static str = "
        <form method=\"post\">
            <table>
                <tr>
                    <td>Amount:</td>
                    <td><input type=\"text\" name=\"amount\"></td>
                </tr>
                <tr>
                    <td>Currency:</td>
                    <td><input type=\"text\" name=\"currency\"></td>
                </tr>
                <tr>
                    <td>Timestamp:</td>
                    <td><input type=\"text\" name=\"ts\"></td>
                </tr>
                <tr>
                    <td colspan=\"2\" style=\"text-align: right\">
                        <button>Ok</button>
                    </td>
                </tr>
            </table>
        </form>
    ";

pub open spec fn css_text() -> Seq<char> {
    TMPL_CSS@
}

pub open spec fn head_text(title: Seq<char>) -> Seq<char> {
    "<head><title>"@ + title + "</title>"@ + css_text() + "</head>\n"@
}

pub open spec fn menu_text() -> Seq<char> {
    TMPL_MENU@
}

pub open spec fn entry_row_text(e: EntryInfoX) -> Seq<char> {
    "<tr>\n"@ + "<td>"@ + e.amount + "</td><td>"@ + e.currency + "</td><td>"@ + ts_text(e.ts)
        + "</td>"@ + "</tr>\n"@
}

pub open spec fn entry_rows_text(s: Seq<EntryInfoX>) -> Seq<char>
    decreases s.len(),
{
    if s.len() == 0 {
        Seq::empty()
    } else {
        entry_rows_text(s.drop_last()) + entry_row_text(s.last())
    }
}

pub open spec fn entries_table_text(s: Seq<EntryInfoX>) -> Seq<char> {
    "<h2>entries</h2>\n"@ + "<table class=\"data\">\n"@
        + "<thead><tr><th>amount</th><th>currency</th><th>timestamp</th></tr></thead>\n"@
        + "<tbody>\n"@ + entry_rows_text(s) + "</tbody>\n"@ + "</table>\n"@
}

pub open spec fn base_text(title: Seq<char>, content: Seq<char>) -> Seq<char> {
    "<!doctype html><html>"@ + head_text(title) + "<body>\n"@ + menu_text()
        + "<div id=\"layout\" class=\"pure-g\"><div class=\"content pure-u-1\"><div>\n"@ + content
        + "\n</div></div></div></body>"@ + "</html>"@
}

pub open spec fn main_text(title: Seq<char>, s: Seq<EntryInfoX>) -> Seq<char> {
    base_text(title, entries_table_text(s))
}

pub open spec fn add_text(title: Seq<char>) -> Seq<char> {
    base_text(title, TMPL_ADD_FORM@)
}

pub fn tmpl_css() -> (r: String)
    ensures
        r@ == css_text(),
{
    TMPL_CSS.to_owned()
}

pub fn tmpl_head(title: &str) -> (r: String)
    ensures
        r@ == head_text(title@),
{
    let mut s = "<head><title>".to_owned();
    s.append(title);
    s.append("</title>");
    s.append(TMPL_CSS);
    s.append("</head>\n");
    proof {
        assert(s@ =~= head_text(title@));
    }
    s
}

pub fn tmpl_menu() -> (r: String)
    ensures
        r@ == menu_text(),
{
    TMPL_MENU.to_owned()
}

/// The entries table of the main page.
pub fn tmpl_entries(entries: &Vec<EntryInfo>) -> (r: String)
    ensures
        r@ == entries_table_text(entries@.map_values(|x: EntryInfo| x@)),
{
    let ghost s = entries@.map_values(|x: EntryInfo| x@);
    let mut body = String::new();
    let mut i: usize = 0;
    while i < entries.len()
        invariant
            i <= entries@.len(),
            s == entries@.map_values(|x: EntryInfo| x@),
            body@ == entry_rows_text(s.take(i as int)),
        decreases entries@.len() - i,
    {
        let ghost prefix = s.take(i as int);
        let ghost prefix1 = s.take(i + 1);
        proof {
            assert(prefix1.drop_last() =~= prefix);
            assert(prefix1.last() == s[i as int]);
        }
        let e = &entries[i];
        body.append("<tr>\n");
        body.append("<td>");
        body.append(e.amount.as_str());
        body.append("</td><td>");
        body.append(e.currency.as_str());
        body.append("</td><td>");
        let t = crate::timestamp::format_ts_basic(&e.ts);
        body.append(t.as_str());
        body.append("</td>");
        body.append("</tr>\n");
        proof {
            assert(body@ =~= entry_rows_text(prefix1));
        }
        i = i + 1;
    }
    proof {
        assert(s.take(s.len() as int) =~= s);
    }
    let mut r = "<h2>entries</h2>\n".to_owned();
    r.append("<table class=\"data\">\n");
    r.append("<thead><tr><th>amount</th><th>currency</th><th>timestamp</th></tr></thead>\n");
    r.append("<tbody>\n");
    r.append(body.as_str());
    r.append("</tbody>\n");
    r.append("</table>\n");
    proof {
        assert(r@ =~= entries_table_text(s));
    }
    r
}

/// The page frame: head, menu, and the given content.
pub fn tmpl_base(title: &str, content: &str) -> (r: String)
    ensures
        r@ == base_text(title@, content@),
{
    let mut s = "<!doctype html><html>".to_owned();
    let head = tmpl_head(title);
    s.append(head.as_str());
    s.append("<body>\n");
    s.append(TMPL_MENU);
    s.append("<div id=\"layout\" class=\"pure-g\"><div class=\"content pure-u-1\"><div>\n");
    s.append(content);
    s.append("\n</div></div></div></body>");
    s.append("</html>");
    proof {
        assert(s@ =~= base_text(title@, content@));
    }
    s
}

/// The main page: the entries table inside the frame.
pub fn tmpl_main(title: &str, entries: &Vec<EntryInfo>) -> (r: String)
    ensures
        r@ == main_text(title@, entries@.map_values(|x: EntryInfo| x@)),
{
    let entries_html = tmpl_entries(entries);
    tmpl_base(title, entries_html.as_str())
}

/// The add-entry page: the entry form inside the frame.
pub fn tmpl_add(title: &str) -> (r: String)
    ensures
        r@ == add_text(title@),
{
    tmpl_base(title, TMPL_ADD_FORM)
}

/// Form state of the edit page: the entry and its amount text, with a
/// field error to redisplay, if any.
pub struct FormData {
    pub id: i64,
    pub amount: (String, Option<String>),
}

/// Form state of the add-bank-account page.
pub struct AddBankAccountTmplData {
    pub name: String,
    pub name_err: String,
    pub curr: String,
    pub curr_err: String,
}

} // verus!
