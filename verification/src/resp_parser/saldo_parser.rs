//! The balance-page parser: the account number, currency, and balance shown
//! on the balance-inquiry page.

use vstd::prelude::*;

use crate::error::Error;
use crate::html::document_texts;
use crate::html::select_texts;
use crate::resp_parser::resp_traits::TuiList;
use crate::resp_parser::resp_traits::TuiListCreator;

verus! {

/// The selector of the balance page's white data cells.
pub open spec fn balance_cell_selector() -> Seq<char> {
    "tr[bgcolor='#FFFFFF']>td"@
}

/// The texts of the balance page's data cells, in document order.
pub open spec fn balance_cells(doc: Seq<char>) -> Seq<Seq<char>> {
    document_texts(doc, balance_cell_selector())
}

/// A balance snapshot: all three fields as the page displays them.
#[derive(Debug)]
pub struct AccountBalance {
    pub account_number: String,
    pub account_currency: String,
    pub account_balance: String,
}

impl AccountBalance {
    /// Reads a balance page: the first three data cells are, in order, the
    /// account number, the currency, and the balance. A page with fewer
    /// than three matching cells is a missing-field failure, never a
    /// zero-valued record.
    pub fn new(resp: &str) -> (r: Result<AccountBalance, Error>)
        ensures
            match r {
                Ok(b) => {
                    &&& balance_cells(resp@).len() >= 3
                    &&& b.account_number@ == balance_cells(resp@)[0]
                    &&& b.account_currency@ == balance_cells(resp@)[1]
                    &&& b.account_balance@ == balance_cells(resp@)[2]
                },
                Err(e) => balance_cells(resp@).len() < 3 && e == Error::MissingField,
            },
    {
        let mut cells = select_texts(resp, "tr[bgcolor='#FFFFFF']>td");
        if cells.len() < 3 {
            return Err(Error::MissingField);
        }
        let ghost cv = balance_cells(resp@);
        let balance = cells.remove(2);
        let currency = cells.remove(1);
        let number = cells.remove(0);
        proof {
            assert(balance@ == cv[2]);
            assert(currency@ == cv[1]);
            assert(number@ == cv[0]);
        }
        Ok(
            AccountBalance {
                account_number: number,
                account_currency: currency,
                account_balance: balance,
            },
        )
    }

    /// The two display lines of the balance pane: the account number, and
    /// the currency and balance joined by one space.
    pub fn account_balance_list(&self) -> (r: TuiList)
        ensures
            r.items@.len() == 2,
            r.items@[0]@ == self.account_number@,
            r.items@[1]@ == self.account_currency@ + " "@ + self.account_balance@,
    {
        self.to_tui_list()
    }
}

impl TuiListCreator for AccountBalance {
    fn to_tui_list(&self) -> (r: TuiList)
        ensures
            r.items@.len() == 2,
            r.items@[0]@ == self.account_number@,
            r.items@[1]@ == self.account_currency@ + " "@ + self.account_balance@,
    {
        let mut line = self.account_currency.clone();
        line.append(" ");
        line.append(self.account_balance.as_str());
        let mut items: Vec<String> = Vec::new();
        items.push(self.account_number.clone());
        items.push(line);
        TuiList::with_items(items)
    }
}

} // verus!
