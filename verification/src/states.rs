//! The application state the orchestrator maintains between fetches: the
//! login flag, the statement date range, and the parsed display panes.

use vstd::prelude::*;

use crate::dates::Date;
use crate::dates::parse_date_text;
use crate::error::Error;
use crate::resp_parser::mutasi_parser::AccountMutasi;
use crate::resp_parser::resp_traits::TuiList;
use crate::resp_parser::resp_traits::TuiTable;
use crate::resp_parser::saldo_parser::AccountBalance;
use crate::text::char_views;
use crate::text::chars_of;
use crate::text::split_chars;
use crate::text::split_on;
use crate::text::string_of;
use crate::text::trim;
use crate::text::trim_chars;

verus! {

/// Whether keystrokes edit the date-range input or steer the tables.
#[derive(Clone, Copy, Debug, PartialEq, Eq, Structural)]
pub enum InputMode {
    Normal,
    Editing,
}

/// The segments of a date-range input: the text split on `-`, each segment
/// trimmed.
pub open spec fn range_parts(s: Seq<char>) -> Seq<Seq<char>> {
    split_on(s, '-').map_values(|p: Seq<char>| trim(p))
}

/// The mutable application state.
pub struct AppState {
    pub is_logged_in: bool,
    pub input_string: String,
    pub input_mode: InputMode,
    pub start_date: Date,
    pub end_date: Date,
    pub account_info: TuiList,
    pub account_mutations: TuiTable,
    pub account_balance: TuiList,
    pub account_summary: TuiList,
}

impl AppState {
    /// A fresh, logged-out state whose statement range covers the seven
    /// days up to `today`, with all panes empty.
    pub fn new(today: &Date) -> (r: AppState)
        requires
            today.wf(),
        ensures
            !r.is_logged_in,
            r.input_string@.len() == 0,
            r.input_mode is Normal,
            (r.start_date.year as int, r.start_date.month as int, r.start_date.day as int)
                == crate::dates::back_days(
                today.year as int,
                today.month as int,
                today.day as int,
                7,
            ),
            r.end_date == *today,
            r.start_date.wf(),
            r.account_info.items@.len() == 0,
            r.account_mutations.items@.len() == 0,
            r.account_mutations.selected is None,
            r.account_balance.items@.len() == 0,
            r.account_summary.items@.len() == 0,
    {
        AppState {
            is_logged_in: false,
            input_string: String::new(),
            input_mode: InputMode::Normal,
            start_date: today.minus_days(7),
            end_date: *today,
            account_info: TuiList::new(),
            account_mutations: TuiTable::new(Vec::new()),
            account_balance: TuiList::new(),
            account_summary: TuiList::new(),
        }
    }

    /// Replaces the balance pane with the given snapshot's lines.
    pub fn update_balance(&mut self, saldo: AccountBalance)
        ensures
            final(self).account_balance.items@.len() == 2,
            final(self).account_balance.items@[0]@ == saldo.account_number@,
            final(self).account_balance.items@[1]@ == saldo.account_currency@ + " "@
                + saldo.account_balance@,
            final(self).is_logged_in == old(self).is_logged_in,
            final(self).input_string == old(self).input_string,
            final(self).input_mode == old(self).input_mode,
            final(self).start_date == old(self).start_date,
            final(self).end_date == old(self).end_date,
            final(self).account_info == old(self).account_info,
            final(self).account_mutations == old(self).account_mutations,
            final(self).account_summary == old(self).account_summary,
    {
        self.account_balance = saldo.account_balance_list();
    }

    /// Replaces the statement panes — info, transactions, summary — with
    /// the given statement's renderings.
    pub fn update_mutations(&mut self, mutasi: AccountMutasi)
        ensures
            final(self).account_info.items@.len() == 4,
            final(self).account_info.items@[0]@ == "Account Number:\t"@
                + mutasi.info.account_number@,
            final(self).account_mutations.selected is None,
            final(self).account_mutations.items@.len() == mutasi.tx.txes@.len(),
            forall|i: int|
                0 <= i < mutasi.tx.txes@.len() ==> {
                    &&& (#[trigger] final(self).account_mutations.items@[i])@.len() == 4
                    &&& final(self).account_mutations.items@[i]@[0]@ == mutasi.tx.txes@[i].tx_date@
                    &&& final(self).account_mutations.items@[i]@[1]@ == mutasi.tx.txes@[i].tx_note@
                    &&& final(self).account_mutations.items@[i]@[2]@
                        == mutasi.tx.txes@[i].tx_amount@
                    &&& final(self).account_mutations.items@[i]@[3]@
                        == mutasi.tx.txes@[i].tx_category@
                },
            final(self).account_summary.items@.len() == 8,
            final(self).account_summary.items@[1]@ == mutasi.summary.balance_begin@,
            final(self).account_summary.items@[3]@ == mutasi.summary.total_credits@,
            final(self).account_summary.items@[5]@ == mutasi.summary.total_debits@,
            final(self).account_summary.items@[7]@ == mutasi.summary.balance_end@,
            final(self).is_logged_in == old(self).is_logged_in,
            final(self).input_string == old(self).input_string,
            final(self).input_mode == old(self).input_mode,
            final(self).start_date == old(self).start_date,
            final(self).end_date == old(self).end_date,
            final(self).account_balance == old(self).account_balance,
    {
        self.account_mutations = mutasi.account_tx_table();
        self.account_info = mutasi.account_info_list();
        self.account_summary = mutasi.account_summary_list();
    }

    /// Reads the date-range input `dd/mm/yyyy - dd/mm/yyyy` into the
    /// statement range. The text must split on `-` into exactly two
    /// segments; the first is read before the second, so a bad second
    /// segment leaves the start date already updated.
    pub fn update_dates(&mut self) -> (r: Result<(), Error>)
        ensures
            ({
                let parts = range_parts(old(self).input_string@);
                match r {
                    Ok(()) => {
                        &&& parts.len() == 2
                        &&& parse_date_text(parts[0]) matches Some(sd) && (
                        final(self).start_date.year as int,
                        final(self).start_date.month as int,
                        final(self).start_date.day as int,
                        ) == sd
                        &&& parse_date_text(parts[1]) matches Some(ed) && (
                        final(self).end_date.year as int,
                        final(self).end_date.month as int,
                        final(self).end_date.day as int,
                        ) == ed
                    },
                    Err(e) => {
                        &&& e == Error::InvalidDate
                        &&& final(self).end_date == old(self).end_date
                        &&& (parts.len() == 2 && parse_date_text(parts[0]) is Some)
                            ==> (final(self).start_date.year as int, final(self).start_date.month as int, final(self).start_date.day as int) == parse_date_text(parts[0]).unwrap()
                        &&& !(parts.len() == 2 && parse_date_text(parts[0]) is Some)
                            ==> final(self).start_date == old(self).start_date
                        &&& (parts.len() != 2 || parse_date_text(parts[0]) is None
                            || parse_date_text(parts[1]) is None)
                    },
                }
            }),
            final(self).is_logged_in == old(self).is_logged_in,
            final(self).input_string == old(self).input_string,
            final(self).input_mode == old(self).input_mode,
            final(self).account_info == old(self).account_info,
            final(self).account_mutations == old(self).account_mutations,
            final(self).account_balance == old(self).account_balance,
            final(self).account_summary == old(self).account_summary,
    {
        let v = chars_of(self.input_string.as_str());
        let raw = split_chars(&v, '-');
        let ghost parts = range_parts(self.input_string@);
        if raw.len() != 2 {
            proof {
                assert(parts.len() == char_views(raw@).len());
            }
            return Err(Error::InvalidDate);
        }
        proof {
            assert(parts.len() == char_views(raw@).len());
            assert(parts[0] == trim(char_views(raw@)[0]));
            assert(parts[1] == trim(char_views(raw@)[1]));
            assert(char_views(raw@)[0] == raw@[0]@);
            assert(char_views(raw@)[1] == raw@[1]@);
        }
        let first = string_of(&trim_chars(&raw[0]));
        let second = string_of(&trim_chars(&raw[1]));
        let start = match Date::parse(first.as_str()) {
            Ok(d) => d,
            Err(e) => {
                return Err(e);
            },
        };
        self.start_date = start;
        let end = match Date::parse(second.as_str()) {
            Ok(d) => d,
            Err(e) => {
                return Err(e);
            },
        };
        self.end_date = end;
        Ok(())
    }

    /// Flips the login flag.
    pub fn toggle_login(&mut self)
        ensures
            final(self).is_logged_in == !old(self).is_logged_in,
            final(self).input_string == old(self).input_string,
            final(self).input_mode == old(self).input_mode,
            final(self).start_date == old(self).start_date,
            final(self).end_date == old(self).end_date,
            final(self).account_info == old(self).account_info,
            final(self).account_mutations == old(self).account_mutations,
            final(self).account_balance == old(self).account_balance,
            final(self).account_summary == old(self).account_summary,
    {
        self.is_logged_in = !self.is_logged_in;
    }

    /// Moves the transaction-table selection one row up.
    pub fn on_up(&mut self)
        ensures
            final(self).account_mutations.items == old(self).account_mutations.items,
            old(self).account_mutations.items@.len() == 0
                ==> final(self).account_mutations.selected is None,
            old(self).account_mutations.items@.len() > 0
                ==> final(self).account_mutations.selected == Some(
                match old(self).account_mutations.selected {
                    Some(i) => if i == 0 {
                        (old(self).account_mutations.items@.len() - 1) as usize
                    } else {
                        (i - 1) as usize
                    },
                    None => 0usize,
                },
            ),
            final(self).is_logged_in == old(self).is_logged_in,
    {
        self.account_mutations.previous();
    }

    /// Moves the transaction-table selection one row down.
    pub fn on_down(&mut self)
        ensures
            final(self).account_mutations.items == old(self).account_mutations.items,
            old(self).account_mutations.items@.len() == 0
                ==> final(self).account_mutations.selected is None,
            old(self).account_mutations.items@.len() > 0
                ==> final(self).account_mutations.selected == Some(
                match old(self).account_mutations.selected {
                    Some(i) => if i + 1 < old(self).account_mutations.items@.len() {
                        (i + 1) as usize
                    } else {
                        0usize
                    },
                    None => 0usize,
                },
            ),
            final(self).is_logged_in == old(self).is_logged_in,
    {
        self.account_mutations.next();
    }
}

} // verus!
