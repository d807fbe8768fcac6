//! Clan bookkeeping for a Stalcraft clan: fixed-size member records, clan-war
//! drafts and records in a binary file format, roster synchronisation with the
//! game API, matching of recognised nicknames against the roster, and the menu
//! logic of the terminal front end.

pub mod mem;
pub mod le_bytes;
pub mod records;
pub mod config;
pub mod types;
pub mod text;
pub mod header;
pub mod members;
pub mod nick;
pub mod matching;
pub mod schedule;
pub mod screenshot;
pub mod menu;
pub mod grid;
pub mod display;
pub mod ui;
pub mod parties;
pub mod api;
