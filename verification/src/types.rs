//! The data the program works on: roster members, clan-war drafts and records.

use vstd::prelude::*;

verus! {

/// A slot of the clan roster.
pub struct Member {
    pub is_active: bool,
    pub nick: String,
    pub discord: String,
}

/// A roster slot as mathematical values.
pub struct MemberView {
    pub is_active: bool,
    pub nick: Seq<char>,
    pub discord: Seq<char>,
}

impl View for Member {
    type V = MemberView;

    open spec fn view(&self) -> MemberView {
        MemberView { is_active: self.is_active, nick: self.nick@, discord: self.discord@ }
    }
}

/// The free slot: inactive, with no nickname and no Discord name.
pub open spec fn empty_member() -> MemberView {
    MemberView { is_active: false, nick: Seq::empty(), discord: Seq::empty() }
}

impl Member {
    /// A free roster slot.
    pub fn empty() -> (m: Member)
        ensures
            m@ == empty_member(),
    {
        Member { is_active: false, nick: String::new(), discord: String::new() }
    }
}

/// A clan war that was recognised from a screenshot but not yet confirmed.
/// Bit `i` of each mask stands for roster slot `i`.
#[derive(Clone, Copy)]
pub struct CWDraft {
    pub timestamp: i64,
    pub reserve: u64,
    pub top15: u64,
    pub supply: u64,
    pub attendance: u64,
    pub name: [u8; 64],
    pub file_name: [u8; 32],
}

/// A confirmed clan war. Bit `i` of each mask stands for roster slot `i`.
#[derive(Clone, Copy)]
pub struct CWRecord {
    pub timestamp: i64,
    pub reserve: u64,
    pub top15: u64,
    pub supply: u64,
}

/// The kind of a clan war, which decides how long a round lasts.
#[derive(Clone, Copy, PartialEq, Eq, Structural)]
pub enum CWType {
    BRAWL,
    TOURNAMENT,
    BASECAPTURING,
}

/// What the menu is currently working on.
pub enum ActiveData {
    Nothing,
    Drafts(Vec<CWDraft>),
    Members(Vec<Member>),
}

/// The state the menu actions share.
pub struct AppContext {
    pub current_idx: usize,
    pub data: ActiveData,
}

impl Default for AppContext {
    fn default() -> (ctx: AppContext)
        ensures
            ctx.current_idx == 0,
            ctx.data is Nothing,
    {
        AppContext { current_idx: 0, data: ActiveData::Nothing }
    }
}

} // verus!
