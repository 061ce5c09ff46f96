//! A verified client core for a mobile-banking HTML site: an RFC 6265-style
//! cookie store, browser-session request planning, and parsers that turn the
//! site's HTML pages into structured balance and statement records.
//!
//! The network transport and the terminal front end live outside this crate;
//! the crate supplies the request plans, the cookie bookkeeping, and the page
//! parsing, each with a verified contract.

pub mod accounts;
pub mod clients;
pub mod cookies;
pub mod dates;
pub mod error;
pub mod html;
pub mod resp_parser;
pub mod states;
pub mod text;
