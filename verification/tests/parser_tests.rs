//! Page parsers against synthetic HTML, through the real HTML engine.

use klikbca::error::Error;
use klikbca::resp_parser::mutasi_parser::{AccountInfo, AccountMutasi, AccountTxes, MutationSummary};
use klikbca::resp_parser::saldo_parser::AccountBalance;

fn balance_page(cells: &[&str]) -> String {
    let mut tds = String::new();
    for c in cells {
        tds.push_str(&format!("<td>{}</td>", c));
    }
    format!(
        "<html><body><table><tr bgcolor='#FFFFFF'>{}</tr></table></body></html>",
        tds
    )
}

// exactly three matching data cells come back verbatim.
#[test]
fn balance_three_cells_verbatim() {
    let page = balance_page(&["1234567890", "IDR", "1.234.567,89"]);
    let b = AccountBalance::new(&page).expect("balance parses");
    assert_eq!(b.account_number, "1234567890");
    assert_eq!(b.account_currency, "IDR");
    assert_eq!(b.account_balance, "1.234.567,89");
}

// fewer than three matching cells is a hard failure.
#[test]
fn balance_two_cells_fails() {
    let page = balance_page(&["1234567890", "IDR"]);
    assert_eq!(AccountBalance::new(&page).unwrap_err(), Error::MissingField);
}

#[test]
fn balance_wrong_row_color_fails() {
    let page = "<table><tr bgcolor='#CCCCCC'><td>1</td><td>2</td><td>3</td></tr></table>";
    assert_eq!(AccountBalance::new(page).unwrap_err(), Error::MissingField);
}

#[test]
fn balance_list_lines() {
    let page = balance_page(&["777", "IDR", "10,00"]);
    let b = AccountBalance::new(&page).expect("balance parses");
    let list = b.account_balance_list();
    assert_eq!(list.items, vec!["777".to_string(), "IDR 10,00".to_string()]);
}

fn summary_table(values: &[&str]) -> String {
    let mut tds = String::from("<td>No</td>");
    for v in values {
        tds.push_str(&format!("<td align=\"left\">{}</td>", v));
    }
    format!(
        "<table width=\"97%\" cellspacing=\"0\" class=\"blue\"><tr>{}</tr></table>",
        tds
    )
}

fn tx_table(rows: &str) -> String {
    format!("<table width=\"100%\" class=\"blue\">{}</table>", rows)
}

fn info_table() -> String {
    let mut t = String::from(
        "<table border=\"0\" width=\"100%\" cellpadding=\"0\" cellspacing=\"0\" class=\"blue\">",
    );
    t.push_str("<tr><td>header</td></tr>");
    t.push_str("<tr><td>1.X1234567890</td></tr>");
    t.push_str("<tr><td>Nama:BUDI</td></tr>");
    t.push_str("<tr><td>Periode:01/11/2023 - 07/11/2023</td></tr>");
    t.push_str("<tr><td>Mata Uang:IDR</td></tr>");
    t.push_str("</table>");
    t
}

fn statement_page(summary_values: &[&str], tx_rows: &str) -> String {
    format!(
        "<html><body>{}{}{}</body></html>",
        info_table(),
        tx_table(tx_rows),
        summary_table(summary_values)
    )
}

// exactly four left-aligned cells from the second position onward come
// back in (opening, credits, debits, closing) order.
#[test]
fn summary_four_cells_in_order() {
    let page = statement_page(&["1.000", "200", "300", "900"], "");
    let s = MutationSummary::from_resp(&page).expect("summary parses");
    assert_eq!(s.balance_begin, "1.000");
    assert_eq!(s.total_credits, "200");
    assert_eq!(s.total_debits, "300");
    assert_eq!(s.balance_end, "900");
}

// three or five such cells is a hard failure.
#[test]
fn summary_three_cells_fails() {
    let page = statement_page(&["1.000", "200", "300"], "");
    assert_eq!(
        MutationSummary::from_resp(&page).unwrap_err(),
        Error::SummaryShape
    );
}

#[test]
fn summary_five_cells_fails() {
    let page = statement_page(&["1", "2", "3", "4", "5"], "");
    assert_eq!(
        MutationSummary::from_resp(&page).unwrap_err(),
        Error::SummaryShape
    );
}

#[test]
fn summary_missing_table_fails() {
    let page = "<html><body><p>login page</p></body></html>";
    assert_eq!(
        MutationSummary::from_resp(page).unwrap_err(),
        Error::SummaryShape
    );
}

// a transaction table with zero data rows is a valid, empty list.
#[test]
fn transactions_empty_table_is_ok() {
    let page = statement_page(&["1", "2", "3", "4"], "<tr><td>header only</td></tr>");
    let t = AccountTxes::from_resp(&page).expect("empty table parses");
    assert_eq!(t.txes.len(), 0);
}

#[test]
fn transactions_missing_table_fails() {
    let page = "<html><body><p>nothing here</p></body></html>";
    assert_eq!(AccountTxes::from_resp(page).unwrap_err(), Error::MissingField);
}

// line-break markup in the note cell is removed and the note is a
// single space-joined string with no doubled whitespace.
#[test]
fn transaction_note_is_normalized() {
    let mut rows = String::from("<tr bgcolor=\"#e0e0e0\">");
    rows.push_str("<td valign=\"top\">01/11</td>");
    rows.push_str("<td>COFFEE<br>SHOP   PURCHASE 1.000,00</td>");
    rows.push_str("<td valign=\"top\">DB</td></tr>");
    let page = statement_page(&["1", "2", "3", "4"], &rows);
    let t = AccountTxes::from_resp(&page).expect("transactions parse");
    assert_eq!(t.txes.len(), 1);
    let tx = &t.txes[0];
    assert_eq!(tx.tx_date, "01/11");
    assert_eq!(tx.tx_note, "COFFEE SHOP PURCHASE");
    assert_eq!(tx.tx_amount, "1.000,00");
    assert_eq!(tx.tx_category, "DB");
}

#[test]
fn transactions_keep_document_order() {
    let mut rows = String::from(
        "<tr bgcolor=\"#fff\"><td>01/11</td><td>FIRST 1,00</td><td>DB</td></tr>",
    );
    rows.push_str("<tr bgcolor=\"#eee\"><td>02/11</td><td>SECOND 2,00</td><td>CR</td></tr>");
    let page = statement_page(&["1", "2", "3", "4"], &rows);
    let t = AccountTxes::from_resp(&page).expect("transactions parse");
    assert_eq!(t.txes.len(), 2);
    assert_eq!(t.txes[0].tx_date, "01/11");
    assert_eq!(t.txes[0].tx_note, "FIRST");
    assert_eq!(t.txes[1].tx_date, "02/11");
    assert_eq!(t.txes[1].tx_amount, "2,00");
    assert_eq!(t.txes[1].tx_category, "CR");
}

#[test]
fn account_info_reads_the_four_rows() {
    let page = statement_page(&["1", "2", "3", "4"], "");
    let info = AccountInfo::from_resp(&page);
    assert_eq!(info.account_number, "1234567890");
    assert_eq!(info.owner_name, "BUDI");
    assert_eq!(info.period, "01/11/2023 - 07/11/2023");
    assert_eq!(info.currency, "IDR");
}

#[test]
fn account_info_tolerates_missing_rows() {
    let page = "<html><body></body></html>";
    let info = AccountInfo::from_resp(page);
    assert_eq!(info.account_number, "");
    assert_eq!(info.owner_name, "");
    assert_eq!(info.period, "");
    assert_eq!(info.currency, "");
}

#[test]
fn whole_statement_combines_all_three_parts() {
    let rows = "<tr bgcolor=\"#fff\"><td>03/11</td><td>PAYMENT 5,00</td><td>DB</td></tr>";
    let page = statement_page(&["1.000", "200", "300", "900"], rows);
    let m = AccountMutasi::new(&page).expect("statement parses");
    assert_eq!(m.info.owner_name, "BUDI");
    assert_eq!(m.tx.txes.len(), 1);
    assert_eq!(m.summary.balance_end, "900");

    let info_list = m.account_info_list();
    assert_eq!(info_list.items[0], "Account Number:\t1234567890");
    let table = m.account_tx_table();
    assert_eq!(
        table.items,
        vec![vec![
            "03/11".to_string(),
            "PAYMENT".to_string(),
            "5,00".to_string(),
            "DB".to_string(),
        ]]
    );
    let summary_list = m.account_summary_list();
    assert_eq!(summary_list.items[0], "Starting Balance");
    assert_eq!(summary_list.items[1], "1.000");
    assert_eq!(summary_list.items[7], "900");
}

#[test]
fn whole_statement_fails_without_summary() {
    let rows = "<tr bgcolor=\"#fff\"><td>03/11</td><td>PAYMENT 5,00</td><td>DB</td></tr>";
    let page = format!("<html><body>{}{}</body></html>", info_table(), tx_table(rows));
    assert_eq!(AccountMutasi::new(&page).unwrap_err(), Error::SummaryShape);
}
