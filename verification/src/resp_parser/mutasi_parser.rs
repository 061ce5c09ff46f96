//! The statement-page parser: account information, the transaction list,
//! and the mutation summary of one statement page.

use vstd::prelude::*;

use crate::error::Error;
use crate::html::document_htmls;
use crate::html::fragment_row_cells;
use crate::html::fragment_texts;
use crate::html::select_fragment_rows;
use crate::html::select_fragment_texts;
use crate::html::select_htmls;
use crate::html::string_views2;
use crate::resp_parser::resp_traits::TuiList;
use crate::resp_parser::resp_traits::TuiListCreator;
use crate::resp_parser::resp_traits::TuiTable;
use crate::resp_parser::resp_traits::TuiTableCreator;
use crate::text::char_views;
use crate::text::chars_of;
use crate::text::join_chars;
use crate::text::joined;
use crate::text::split_chars;
use crate::text::split_on;
use crate::text::starts_with;
use crate::text::string_of;
use crate::text::string_views;
use crate::text::tokens;
use crate::text::tokens_chars;
use crate::text::trim;
use crate::text::trim_chars;

verus! {

/// The trimmed text after the last occurrence of `sep`: how one info row's
/// value is read off its flattened text.
pub open spec fn last_text_el(s: Seq<char>, sep: char) -> Seq<char> {
    let parts = split_on(trim(s), sep);
    parts.last()
}

/// Executable [`last_text_el`].
pub fn get_last_text_el(s: &str, sep: char) -> (r: String)
    ensures
        r@ == last_text_el(s@, sep),
{
    let v = chars_of(s);
    let t = trim_chars(&v);
    let parts = split_chars(&t, sep);
    proof {
        assert(char_views(parts@)[parts@.len() - 1] == parts@[parts@.len() - 1]@);
    }
    string_of(&parts[parts.len() - 1])
}

/// `s` without its first character; empty text stays empty.
pub open spec fn drop_head(s: Seq<char>) -> Seq<char> {
    if s.len() > 0 {
        s.drop_first()
    } else {
        s
    }
}

fn drop_head_chars(v: &Vec<char>) -> (r: Vec<char>)
    ensures
        r@ == drop_head(v@),
{
    let mut r: Vec<char> = Vec::new();
    let mut i: usize = if v.len() > 0 {
        1
    } else {
        0
    };
    let ghost st = i as int;
    while i < v.len()
        invariant
            st <= i <= v@.len(),
            st == (if v@.len() > 0 {
                1int
            } else {
                0int
            }),
            r@ == v@.subrange(st, i as int),
        decreases v.len() - i,
    {
        r.push(v[i]);
        i = i + 1;
        proof {
            assert(r@ =~= v@.subrange(st, i as int));
        }
    }
    proof {
        if v@.len() > 0 {
            assert(v@.subrange(1, v@.len() as int) =~= v@.drop_first());
        } else {
            assert(r@ =~= v@);
        }
    }
    r
}

/// The selector of the statement page's bordered account-info tables.
pub open spec fn info_table_selector() -> Seq<char> {
    r#"table[border="0"][width="100%"][cellpadding="0"][cellspacing="0"][class="blue"]"#@
}

/// The account-info fields read from one sequence of info tables: for each
/// table in order, rows two to five (when present) supply the account
/// number (first segment separator `.`, known one-character prefix
/// dropped), the owner name, the statement period, and the currency
/// (separator `:`); a missing row leaves the field as it was, and fields
/// never seen stay blank.
pub open spec fn info_fields(tables: Seq<Seq<char>>) -> (Seq<char>, Seq<char>, Seq<char>, Seq<
    char,
>)
    decreases tables.len(),
{
    if tables.len() == 0 {
        (Seq::empty(), Seq::empty(), Seq::empty(), Seq::empty())
    } else {
        let prev = info_fields(tables.drop_last());
        let t = tables.last();
        let num_rows = fragment_texts(t, "tr:nth-child(2)"@);
        let owner_rows = fragment_texts(t, "tr:nth-child(3)"@);
        let period_rows = fragment_texts(t, "tr:nth-child(4)"@);
        let currency_rows = fragment_texts(t, "tr:nth-child(5)"@);
        (
            if num_rows.len() > 0 {
                drop_head(last_text_el(num_rows.last(), '.'))
            } else {
                prev.0
            },
            if owner_rows.len() > 0 {
                last_text_el(owner_rows.last(), ':')
            } else {
                prev.1
            },
            if period_rows.len() > 0 {
                last_text_el(period_rows.last(), ':')
            } else {
                prev.2
            },
            if currency_rows.len() > 0 {
                last_text_el(currency_rows.last(), ':')
            } else {
                prev.3
            },
        )
    }
}

/// The best-effort account information of a statement page.
#[derive(Debug)]
pub struct AccountInfo {
    pub account_number: String,
    pub owner_name: String,
    pub period: String,
    pub currency: String,
}

impl AccountInfo {
    /// Reads the account-info tables of a statement page. This extraction
    /// is informational and tolerates missing rows: it never fails, and
    /// absent fields stay blank.
    pub fn from_resp(resp: &str) -> (r: AccountInfo)
        ensures
            ({
                let f = info_fields(document_htmls(resp@, info_table_selector()));
                &&& r.account_number@ == f.0
                &&& r.owner_name@ == f.1
                &&& r.period@ == f.2
                &&& r.currency@ == f.3
            }),
    {
        let tables = select_htmls(
            resp,
            r#"table[border="0"][width="100%"][cellpadding="0"][cellspacing="0"][class="blue"]"#,
        );
        let ghost tv = string_views(tables@);
        let mut number = String::new();
        let mut owner = String::new();
        let mut period = String::new();
        let mut currency = String::new();
        let mut i: usize = 0;
        proof {
            assert(tv.take(0) =~= Seq::<Seq<char>>::empty());
        }
        while i < tables.len()
            invariant
                i <= tables@.len(),
                tv == string_views(tables@),
                ({
                    let f = info_fields(tv.take(i as int));
                    &&& number@ == f.0
                    &&& owner@ == f.1
                    &&& period@ == f.2
                    &&& currency@ == f.3
                }),
            decreases tables.len() - i,
        {
            proof {
                assert(tv.take(i + 1 as int).drop_last() =~= tv.take(i as int));
                assert(tv.take(i + 1 as int).last() == tv[i as int]);
                assert(tv[i as int] == tables@[i as int]@);
            }
            let table = &tables[i];
            let num_rows = select_fragment_texts(table.as_str(), "tr:nth-child(2)");
            if num_rows.len() > 0 {
                proof {
                    assert(string_views(num_rows@).last() == num_rows@[num_rows@.len() - 1]@);
                }
                let raw = get_last_text_el(num_rows[num_rows.len() - 1].as_str(), '.');
                let rawv = chars_of(raw.as_str());
                number = string_of(&drop_head_chars(&rawv));
            }
            let owner_rows = select_fragment_texts(table.as_str(), "tr:nth-child(3)");
            if owner_rows.len() > 0 {
                proof {
                    assert(string_views(owner_rows@).last() == owner_rows@[owner_rows@.len()
                        - 1]@);
                }
                owner = get_last_text_el(owner_rows[owner_rows.len() - 1].as_str(), ':');
            }
            let period_rows = select_fragment_texts(table.as_str(), "tr:nth-child(4)");
            if period_rows.len() > 0 {
                proof {
                    assert(string_views(period_rows@).last() == period_rows@[period_rows@.len()
                        - 1]@);
                }
                period = get_last_text_el(period_rows[period_rows.len() - 1].as_str(), ':');
            }
            let currency_rows = select_fragment_texts(table.as_str(), "tr:nth-child(5)");
            if currency_rows.len() > 0 {
                proof {
                    assert(string_views(currency_rows@).last()
                        == currency_rows@[currency_rows@.len() - 1]@);
                }
                currency = get_last_text_el(currency_rows[currency_rows.len() - 1].as_str(), ':');
            }
            i = i + 1;
        }
        proof {
            assert(tv.take(tv.len() as int) =~= tv);
        }
        AccountInfo { account_number: number, owner_name: owner, period, currency }
    }
}

impl TuiListCreator for AccountInfo {
    fn to_tui_list(&self) -> (r: TuiList)
        ensures
            r.items@.len() == 4,
            r.items@[0]@ == "Account Number:\t"@ + self.account_number@,
            r.items@[1]@ == "Account Owner:\t"@ + self.owner_name@,
            r.items@[2]@ == "Period:\t"@ + self.period@,
            r.items@[3]@ == "Account Currency:\t"@ + self.currency@,
    {
        let mut items: Vec<String> = Vec::new();
        let mut line = String::from_str("Account Number:\t");
        line.append(self.account_number.as_str());
        items.push(line);
        let mut line = String::from_str("Account Owner:\t");
        line.append(self.owner_name.as_str());
        items.push(line);
        let mut line = String::from_str("Period:\t");
        line.append(self.period.as_str());
        items.push(line);
        let mut line = String::from_str("Account Currency:\t");
        line.append(self.currency.as_str());
        items.push(line);
        TuiList::with_items(items)
    }
}

/// `s` with every `<br>` and `</br>` replaced by one space, scanning left
/// to right: how line-break markup inside a table fragment is normalized
/// before the fragment is read again.
pub open spec fn strip_breaks(s: Seq<char>) -> Seq<char>
    decreases s.len(),
{
    if s.len() == 0 {
        s
    } else if s.len() >= 5 && starts_with(s, "</br>"@) {
        seq![' '] + strip_breaks(s.skip(5))
    } else if s.len() >= 4 && starts_with(s, "<br>"@) {
        seq![' '] + strip_breaks(s.skip(4))
    } else {
        seq![s[0]] + strip_breaks(s.drop_first())
    }
}

/// Executable [`strip_breaks`].
pub fn strip_breaks_chars(v: &Vec<char>) -> (r: Vec<char>)
    ensures
        r@ == strip_breaks(v@),
{
    proof {
        reveal_strlit("</br>");
        reveal_strlit("<br>");
    }
    let mut r: Vec<char> = Vec::new();
    let mut i: usize = 0;
    let n = v.len();
    proof {
        assert(v@.skip(0) =~= v@);
        assert(r@ + strip_breaks(v@.skip(0)) =~= strip_breaks(v@));
    }
    while i < v.len()
        invariant
            i <= v@.len(),
            n == v@.len(),
            r@ + strip_breaks(v@.skip(i as int)) == strip_breaks(v@),
        decreases v.len() - i,
    {
        proof {
            reveal_strlit("</br>");
            reveal_strlit("<br>");
        }
        let ghost rest = v@.skip(i as int);
        proof {
            assert(forall|m: int| 0 <= m < rest.len() ==> rest[m] == v@[i + m]);
        }
        if n - i >= 5 && v[i] == '<' && v[i + 1] == '/' && v[i + 2] == 'b' && v[i + 3]
            == 'r' && v[i + 4] == '>' {
            proof {
                assert(rest.take(5) =~= "</br>"@);
                assert(starts_with(rest, "</br>"@));
                assert(rest.skip(5) =~= v@.skip(i + 5));
            }
            r.push(' ');
            i = i + 5;
            proof {
                assert(r@ + strip_breaks(v@.skip(i as int)) =~= strip_breaks(v@));
            }
        } else if n - i >= 4 && v[i] == '<' && v[i + 1] == 'b' && v[i + 2] == 'r' && v[i + 3]
            == '>' {
            proof {
                assert(!starts_with(rest, "</br>"@)) by {
                    if starts_with(rest, "</br>"@) {
                        assert(rest.take(5)[1] == rest[1]);
                    }
                }
                assert(rest.take(4) =~= "<br>"@);
                assert(starts_with(rest, "<br>"@));
                assert(rest.skip(4) =~= v@.skip(i + 4));
            }
            r.push(' ');
            i = i + 4;
            proof {
                assert(r@ + strip_breaks(v@.skip(i as int)) =~= strip_breaks(v@));
            }
        } else {
            proof {
                assert(!starts_with(rest, "</br>"@)) by {
                    if starts_with(rest, "</br>"@) {
                        assert(rest.take(5)[0] == rest[0]);
                        assert(rest.take(5)[1] == rest[1]);
                        assert(rest.take(5)[2] == rest[2]);
                        assert(rest.take(5)[3] == rest[3]);
                        assert(rest.take(5)[4] == rest[4]);
                    }
                }
                assert(!starts_with(rest, "<br>"@)) by {
                    if starts_with(rest, "<br>"@) {
                        assert(rest.take(4)[0] == rest[0]);
                        assert(rest.take(4)[1] == rest[1]);
                        assert(rest.take(4)[2] == rest[2]);
                        assert(rest.take(4)[3] == rest[3]);
                    }
                }
                assert(rest.drop_first() =~= v@.skip(i + 1));
                assert(rest[0] == v@[i as int]);
            }
            r.push(v[i]);
            i = i + 1;
            proof {
                assert(r@ + strip_breaks(v@.skip(i as int)) =~= strip_breaks(v@));
            }
        }
    }
    proof {
        assert(v@.skip(v@.len() as int) =~= Seq::<char>::empty());
        assert(r@ + Seq::<char>::empty() =~= r@);
    }
    r
}

/// The selector of the statement page's transaction-bearing tables.
pub open spec fn tx_table_selector() -> Seq<char> {
    r#"table[width="100%"][class="blue"]"#@
}

/// The mathematical content of one transaction row. The first cell is the
/// date; the second cell's trailing whitespace-delimited token is the
/// amount, and its remaining tokens, joined by single spaces, the note; the
/// last cell is the category. Anything a short row lacks stays blank.
pub open spec fn tx_of_cells(cells: Seq<Seq<char>>) -> (Seq<char>, Seq<char>, Seq<char>, Seq<
    char,
>) {
    let date = if cells.len() >= 1 {
        cells[0]
    } else {
        Seq::empty()
    };
    let toks = if cells.len() >= 2 {
        tokens(cells[1])
    } else {
        Seq::empty()
    };
    let amount = if toks.len() > 0 {
        toks.last()
    } else {
        Seq::empty()
    };
    let note = if toks.len() > 0 {
        joined(toks.drop_last(), " "@)
    } else {
        Seq::empty()
    };
    let category = if cells.len() >= 1 {
        cells.last()
    } else {
        Seq::empty()
    };
    (date, note, amount, category)
}

/// One transaction of the statement, all fields as rendered.
#[derive(Debug)]
pub struct AccountTx {
    pub tx_date: String,
    pub tx_note: String,
    pub tx_amount: String,
    pub tx_category: String,
}

impl AccountTx {
    /// Builds one transaction from the texts of one row's cells.
    pub fn from_cells(cells: &Vec<String>) -> (r: AccountTx)
        ensures
            ({
                let t = tx_of_cells(string_views(cells@));
                &&& r.tx_date@ == t.0
                &&& r.tx_note@ == t.1
                &&& r.tx_amount@ == t.2
                &&& r.tx_category@ == t.3
            }),
    {
        let ghost cv = string_views(cells@);
        let date = if cells.len() >= 1 {
            proof {
                assert(cv[0] == cells@[0]@);
            }
            cells[0].clone()
        } else {
            String::new()
        };
        let category = if cells.len() >= 1 {
            proof {
                assert(cv.last() == cells@[cells@.len() - 1]@);
            }
            cells[cells.len() - 1].clone()
        } else {
            String::new()
        };
        let (note, amount) = if cells.len() >= 2 {
            proof {
                assert(cv[1] == cells@[1]@);
            }
            let body = chars_of(cells[1].as_str());
            let toks = tokens_chars(&body);
            if toks.len() > 0 {
                proof {
                    assert(char_views(toks@).last() == toks@[toks@.len() - 1]@);
                }
                let amount = string_of(&toks[toks.len() - 1]);
                let mut toks = toks;
                let ghost full = char_views(toks@);
                let popped = toks.pop();
                proof {
                    assert(char_views(toks@) =~= full.drop_last());
                }
                let sep = chars_of(" ");
                let note_chars = join_chars(&toks, &sep);
                (string_of(&note_chars), amount)
            } else {
                (String::new(), String::new())
            }
        } else {
            (String::new(), String::new())
        };
        AccountTx { tx_date: date, tx_note: note, tx_amount: amount, tx_category: category }
    }
}

/// The transactions read from the rows of the statement's last matching
/// table, after line-break markup is replaced by spaces.
pub open spec fn txes_of_rows(rows: Seq<Seq<Seq<char>>>) -> Seq<
    (Seq<char>, Seq<char>, Seq<char>, Seq<char>),
>
    decreases rows.len(),
{
    if rows.len() == 0 {
        seq![]
    } else {
        txes_of_rows(rows.drop_last()).push(tx_of_cells(rows.last()))
    }
}

/// The transaction rows a statement page yields: the last transaction
/// table, normalized with [`strip_breaks`], read as rows of cell texts.
pub open spec fn statement_rows(doc: Seq<char>) -> Seq<Seq<Seq<char>>>
    recommends
        document_htmls(doc, tx_table_selector()).len() > 0,
{
    fragment_row_cells(
        strip_breaks(document_htmls(doc, tx_table_selector()).last()),
        "tr[bgcolor]"@,
        "td"@,
    )
}

/// The ordered transaction list of a statement page; legitimately empty
/// when the period had no activity.
#[derive(Debug)]
pub struct AccountTxes {
    pub txes: Vec<AccountTx>,
}

/// The views of a list of transactions.
pub open spec fn tx_views(txes: Seq<AccountTx>) -> Seq<
    (Seq<char>, Seq<char>, Seq<char>, Seq<char>),
> {
    Seq::new(txes.len(), |i: int| (txes[i].tx_date@, txes[i].tx_note@, txes[i].tx_amount@, txes[i].tx_category@))
}

impl AccountTxes {
    /// Reads the transaction grid of a statement page: the last table
    /// matching the statement convention holds it; its line-break markup is
    /// first replaced by spaces, and each row with a background color
    /// yields one transaction. A page without any matching table is a
    /// missing-field failure; a table with zero data rows is a valid,
    /// empty list.
    pub fn from_resp(resp: &str) -> (r: Result<AccountTxes, Error>)
        ensures
            match r {
                Ok(t) => {
                    &&& document_htmls(resp@, tx_table_selector()).len() > 0
                    &&& tx_views(t.txes@) == txes_of_rows(statement_rows(resp@))
                },
                Err(e) => {
                    &&& document_htmls(resp@, tx_table_selector()).len() == 0
                    &&& e == Error::MissingField
                },
            },
    {
        let tables = select_htmls(resp, r#"table[width="100%"][class="blue"]"#);
        if tables.len() == 0 {
            return Err(Error::MissingField);
        }
        proof {
            assert(string_views(tables@).last() == tables@[tables@.len() - 1]@);
        }
        let last_table = chars_of(tables[tables.len() - 1].as_str());
        let cleaned = string_of(&strip_breaks_chars(&last_table));
        let rows = select_fragment_rows(cleaned.as_str(), "tr[bgcolor]", "td");
        let ghost rv = string_views2(rows@);
        proof {
            assert(rv == statement_rows(resp@));
        }
        let mut txes: Vec<AccountTx> = Vec::new();
        let mut i: usize = 0;
        proof {
            assert(rv.take(0) =~= Seq::<Seq<Seq<char>>>::empty());
            assert(tx_views(txes@) =~= txes_of_rows(rv.take(0)));
        }
        while i < rows.len()
            invariant
                i <= rows@.len(),
                rv == string_views2(rows@),
                tx_views(txes@) == txes_of_rows(rv.take(i as int)),
            decreases rows.len() - i,
        {
            proof {
                assert(rv.take(i + 1 as int).drop_last() =~= rv.take(i as int));
                assert(rv.take(i + 1 as int).last() == rv[i as int]);
                assert(rv[i as int] == string_views(rows@[i as int]@));
            }
            let tx = AccountTx::from_cells(&rows[i]);
            txes.push(tx);
            i = i + 1;
            proof {
                assert(tx_views(txes@) =~= txes_of_rows(rv.take(i as int)));
            }
        }
        proof {
            assert(rv.take(rv.len() as int) =~= rv);
        }
        Ok(AccountTxes { txes })
    }
}

impl TuiTableCreator for AccountTxes {
    fn to_tui_table(&self) -> (r: TuiTable)
        ensures
            r.selected is None,
            r.items@.len() == self.txes@.len(),
            forall|i: int|
                0 <= i < self.txes@.len() ==> {
                    &&& (#[trigger] r.items@[i])@.len() == 4
                    &&& r.items@[i]@[0]@ == self.txes@[i].tx_date@
                    &&& r.items@[i]@[1]@ == self.txes@[i].tx_note@
                    &&& r.items@[i]@[2]@ == self.txes@[i].tx_amount@
                    &&& r.items@[i]@[3]@ == self.txes@[i].tx_category@
                },
    {
        let mut items: Vec<Vec<String>> = Vec::new();
        let mut i: usize = 0;
        while i < self.txes.len()
            invariant
                i <= self.txes@.len(),
                items@.len() == i,
                forall|m: int|
                    0 <= m < i ==> {
                        &&& (#[trigger] items@[m])@.len() == 4
                        &&& items@[m]@[0]@ == self.txes@[m].tx_date@
                        &&& items@[m]@[1]@ == self.txes@[m].tx_note@
                        &&& items@[m]@[2]@ == self.txes@[m].tx_amount@
                        &&& items@[m]@[3]@ == self.txes@[m].tx_category@
                    },
            decreases self.txes.len() - i,
        {
            let tx = &self.txes[i];
            let mut row: Vec<String> = Vec::new();
            row.push(tx.tx_date.clone());
            row.push(tx.tx_note.clone());
            row.push(tx.tx_amount.clone());
            row.push(tx.tx_category.clone());
            items.push(row);
            i = i + 1;
        }
        TuiTable::new(items)
    }
}

/// The selector of the statement page's mutation-summary tables.
pub open spec fn summary_table_selector() -> Seq<char> {
    r#"table[width="97%"][cellspacing="0"][class="blue"]"#@
}

/// The selector of a summary table's left-aligned value cells, from the
/// second onward.
pub open spec fn summary_cell_selector() -> Seq<char> {
    r#"tr>td[align="left"]:nth-of-type(n+2)"#@
}

/// Reading the summary tables left to right: each must carry exactly four
/// value cells or the whole summary fails; the last table's cells win.
pub open spec fn fold_summary(
    tables: Seq<Seq<char>>,
    cur: Option<(Seq<char>, Seq<char>, Seq<char>, Seq<char>)>,
) -> Option<Option<(Seq<char>, Seq<char>, Seq<char>, Seq<char>)>>
    decreases tables.len(),
{
    if tables.len() == 0 {
        Some(cur)
    } else {
        let cells = fragment_texts(tables[0], summary_cell_selector());
        if cells.len() != 4 {
            None
        } else {
            fold_summary(tables.drop_first(), Some((cells[0], cells[1], cells[2], cells[3])))
        }
    }
}

/// The summary a statement page yields: `Err` when some summary table has
/// the wrong shape, or when the page shows no summary table at all — a
/// partial summary is never returned.
pub open spec fn summary_fields(doc: Seq<char>) -> Result<
    (Seq<char>, Seq<char>, Seq<char>, Seq<char>),
    Error,
> {
    match fold_summary(document_htmls(doc, summary_table_selector()), None) {
        Some(Some(f)) => Ok(f),
        Some(None) => Err(Error::SummaryShape),
        None => Err(Error::SummaryShape),
    }
}

/// The mutation summary of one statement page: opening balance, total
/// credits, total debits, closing balance, as rendered.
#[derive(Debug)]
pub struct MutationSummary {
    pub balance_begin: String,
    pub total_credits: String,
    pub total_debits: String,
    pub balance_end: String,
}

impl MutationSummary {
    /// Reads the mutation summary of a statement page: within each summary
    /// table, the left-aligned cells from the second position onward must
    /// number exactly four — opening balance, credits, debits, closing
    /// balance. Any other count, or a page without a summary table, is a
    /// shape failure: a partial summary is not a safe basis for display.
    pub fn from_resp(resp: &str) -> (r: Result<MutationSummary, Error>)
        ensures
            match r {
                Ok(m) => summary_fields(resp@) == Ok::<_, Error>(
                    (m.balance_begin@, m.total_credits@, m.total_debits@, m.balance_end@),
                ),
                Err(e) => summary_fields(resp@) == Err::<
                    (Seq<char>, Seq<char>, Seq<char>, Seq<char>),
                    Error,
                >(e),
            },
    {
        let tables = select_htmls(resp, r#"table[width="97%"][cellspacing="0"][class="blue"]"#);
        let ghost tv = string_views(tables@);
        let mut found: bool = false;
        let mut begin = String::new();
        let mut credits = String::new();
        let mut debits = String::new();
        let mut end = String::new();
        let mut i: usize = 0;
        proof {
            assert(tv.skip(0) =~= tv);
        }
        while i < tables.len()
            invariant
                i <= tables@.len(),
                tv == string_views(tables@),
                tv == document_htmls(resp@, summary_table_selector()),
                fold_summary(tv, None) == fold_summary(
                    tv.skip(i as int),
                    if found {
                        Some((begin@, credits@, debits@, end@))
                    } else {
                        None
                    },
                ),
            decreases tables.len() - i,
        {
            proof {
                assert(tv.skip(i as int)[0] == tv[i as int]);
                assert(tv[i as int] == tables@[i as int]@);
                assert(tv.skip(i as int).drop_first() =~= tv.skip(i + 1));
            }
            let mut cells = select_fragment_texts(tables[i].as_str(), r#"tr>td[align="left"]:nth-of-type(n+2)"#);
            if cells.len() != 4 {
                return Err(Error::SummaryShape);
            }
            let ghost cv = string_views(cells@);
            end = cells.remove(3);
            debits = cells.remove(2);
            credits = cells.remove(1);
            begin = cells.remove(0);
            found = true;
            proof {
                assert(begin@ == cv[0]);
                assert(credits@ == cv[1]);
                assert(debits@ == cv[2]);
                assert(end@ == cv[3]);
            }
            i = i + 1;
        }
        proof {
            assert(tv.skip(tv.len() as int) =~= Seq::<Seq<char>>::empty());
        }
        if !found {
            return Err(Error::SummaryShape);
        }
        Ok(
            MutationSummary {
                balance_begin: begin,
                total_credits: credits,
                total_debits: debits,
                balance_end: end,
            },
        )
    }
}

impl TuiListCreator for MutationSummary {
    fn to_tui_list(&self) -> (r: TuiList)
        ensures
            r.items@.len() == 8,
            r.items@[0]@ == "Starting Balance"@,
            r.items@[1]@ == self.balance_begin@,
            r.items@[2]@ == "Credit Mutations"@,
            r.items@[3]@ == self.total_credits@,
            r.items@[4]@ == "Debit Mutations"@,
            r.items@[5]@ == self.total_debits@,
            r.items@[6]@ == "Balance"@,
            r.items@[7]@ == self.balance_end@,
    {
        let mut items: Vec<String> = Vec::new();
        items.push(String::from_str("Starting Balance"));
        items.push(self.balance_begin.clone());
        items.push(String::from_str("Credit Mutations"));
        items.push(self.total_credits.clone());
        items.push(String::from_str("Debit Mutations"));
        items.push(self.total_debits.clone());
        items.push(String::from_str("Balance"));
        items.push(self.balance_end.clone());
        TuiList::with_items(items)
    }
}

/// One parsed statement page: account info, transactions, and summary.
/// Info and summary must both be present for the value to exist at all;
/// the transaction list may legitimately be empty.
#[derive(Debug)]
pub struct AccountMutasi {
    pub info: AccountInfo,
    pub tx: AccountTxes,
    pub summary: MutationSummary,
}

impl AccountMutasi {
    /// Parses a whole statement page. The account info is best-effort; a
    /// page without a transaction table is a missing-field failure, and a
    /// malformed or absent summary a shape failure — a partial statement
    /// is never returned.
    pub fn new(resp: &str) -> (r: Result<AccountMutasi, Error>)
        ensures
            match r {
                Ok(m) => {
                    &&& ({
                        let f = info_fields(document_htmls(resp@, info_table_selector()));
                        &&& m.info.account_number@ == f.0
                        &&& m.info.owner_name@ == f.1
                        &&& m.info.period@ == f.2
                        &&& m.info.currency@ == f.3
                    })
                    &&& document_htmls(resp@, tx_table_selector()).len() > 0
                    &&& tx_views(m.tx.txes@) == txes_of_rows(statement_rows(resp@))
                    &&& summary_fields(resp@) == Ok::<_, Error>(
                        (
                            m.summary.balance_begin@,
                            m.summary.total_credits@,
                            m.summary.total_debits@,
                            m.summary.balance_end@,
                        ),
                    )
                },
                Err(e) => {
                    ||| (document_htmls(resp@, tx_table_selector()).len() == 0 && e
                        == Error::MissingField)
                    ||| (document_htmls(resp@, tx_table_selector()).len() > 0 && summary_fields(
                        resp@,
                    ) == Err::<(Seq<char>, Seq<char>, Seq<char>, Seq<char>), Error>(e))
                },
            },
    {
        let info = AccountInfo::from_resp(resp);
        let tx = match AccountTxes::from_resp(resp) {
            Ok(t) => t,
            Err(e) => {
                return Err(e);
            },
        };
        let summary = match MutationSummary::from_resp(resp) {
            Ok(s) => s,
            Err(e) => {
                return Err(e);
            },
        };
        Ok(AccountMutasi { info, tx, summary })
    }

    /// The account-info pane of the statement.
    pub fn account_info_list(&self) -> (r: TuiList)
        ensures
            r.items@.len() == 4,
            r.items@[0]@ == "Account Number:\t"@ + self.info.account_number@,
            r.items@[1]@ == "Account Owner:\t"@ + self.info.owner_name@,
            r.items@[2]@ == "Period:\t"@ + self.info.period@,
            r.items@[3]@ == "Account Currency:\t"@ + self.info.currency@,
    {
        self.info.to_tui_list()
    }

    /// The transaction table of the statement, one row of date, note,
    /// amount, and category for each transaction.
    pub fn account_tx_table(&self) -> (r: TuiTable)
        ensures
            r.selected is None,
            r.items@.len() == self.tx.txes@.len(),
            forall|i: int|
                0 <= i < self.tx.txes@.len() ==> {
                    &&& (#[trigger] r.items@[i])@.len() == 4
                    &&& r.items@[i]@[0]@ == self.tx.txes@[i].tx_date@
                    &&& r.items@[i]@[1]@ == self.tx.txes@[i].tx_note@
                    &&& r.items@[i]@[2]@ == self.tx.txes@[i].tx_amount@
                    &&& r.items@[i]@[3]@ == self.tx.txes@[i].tx_category@
                },
    {
        self.tx.to_tui_table()
    }

    /// The summary pane of the statement: labels alternating with values.
    pub fn account_summary_list(&self) -> (r: TuiList)
        ensures
            r.items@.len() == 8,
            r.items@[0]@ == "Starting Balance"@,
            r.items@[1]@ == self.summary.balance_begin@,
            r.items@[2]@ == "Credit Mutations"@,
            r.items@[3]@ == self.summary.total_credits@,
            r.items@[4]@ == "Debit Mutations"@,
            r.items@[5]@ == self.summary.total_debits@,
            r.items@[6]@ == "Balance"@,
            r.items@[7]@ == self.summary.balance_end@,
    {
        self.summary.to_tui_list()
    }
}

} // verus!
