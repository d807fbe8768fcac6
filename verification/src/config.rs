//! Sizes of the stored data and the settings the program is run with.

use vstd::prelude::*;

verus! {

/// Number of member slots in the header file, and of bits used in the member masks.
pub const MAX_MEMBERS: usize = 35;

/// Nickname length in characters the header file is laid out for.
pub const NICK_LEN: usize = 16;

/// Discord name length in characters the header file is laid out for.
pub const DISCORD_LEN: usize = 32;

/// Bytes reserved for a nickname in a header record.
pub const NICK_LEN_BYTES: usize = NICK_LEN * 2;

/// Bytes reserved for a Discord name in a header record.
pub const DISCORD_LEN_BYTES: usize = DISCORD_LEN * 2;

/// Whether the demo API host is used instead of the production one.
pub const DEMO_API: bool = false;

/// The program's settings, as read from its configuration file; paths are
/// held as text, with a leading `~` already expanded.
pub struct Config {
    pub stalcraft_api_token: String,
    pub stalcraft_clan_id: String,
    pub stalcraft_region: String,
    pub header_file_path: String,
    pub cw_history_path: String,
    pub parties_file_path: String,
    pub cw_draft_path: String,
    pub screenshot_path: String,
    pub screenshot_left_indent: u32,
    pub screenshot_right_indent: u32,
    pub max_threads: usize,
}

} // verus!
