//! Parsers that turn the site's HTML responses into structured records,
//! and the list/table values handed to the presentation layer.

pub mod mutasi_parser;
pub mod resp_traits;
pub mod saldo_parser;
