//! Cleaning the parties table: the 7 by 7 block of player cells keeps only
//! roster nicknames, each once; and the roster members missing from it.

use vstd::prelude::*;
use crate::members::{nick_views, roster_views};
use crate::text::{lowercase, push_str, to_lowercase, trim, trimmed};
use crate::types::{Member, MemberView};

verus! {

/// A cell of the parties sheet: row, column and its text.
pub struct PartyCell {
    pub row: u32,
    pub col: u32,
    pub text: String,
}

/// A cell as mathematical values.
pub open spec fn cell_view(c: PartyCell) -> (u32, u32, Seq<char>) {
    (c.row, c.col, c.text@)
}

/// The views of a list of cells.
pub open spec fn cell_views(cells: Seq<PartyCell>) -> Seq<(u32, u32, Seq<char>)> {
    cells.map_values(|c: PartyCell| cell_view(c))
}

/// Whether a cell lies in the block of player cells: rows and columns 1 to 7.
pub open spec fn in_player_block(row: u32, col: u32) -> bool {
    0 < row < 8 && 0 < col < 8
}

/// The key a cell's text is compared by: trimmed, then lowercased.
pub open spec fn cell_key(text: Seq<char>) -> Seq<char> {
    lowercase(trimmed(text))
}

/// Whether `key` is the lowercased nickname of an active roster slot.
pub open spec fn known_key(roster: Seq<MemberView>, key: Seq<char>) -> bool {
    exists|j: int| 0 <= j < roster.len() && #[trigger] roster[j].is_active && lowercase(roster[j].nick) == key
}

/// Whether one of the first `k` cells is a player cell holding the roster nickname `key`.
pub open spec fn placed_before(
    cells: Seq<(u32, u32, Seq<char>)>,
    roster: Seq<MemberView>,
    k: int,
    key: Seq<char>,
) -> bool {
    known_key(roster, key) && exists|q: int|
        0 <= q < k && in_player_block(cells[q].0, cells[q].1) && #[trigger] cell_key(cells[q].2) == key
}

/// What is written for cell `k`: outside the player block its text; inside,
/// its text when it holds a roster nickname not placed in an earlier cell,
/// else nothing.
pub open spec fn cleaned_cell(cells: Seq<(u32, u32, Seq<char>)>, roster: Seq<MemberView>, k: int) -> Seq<char> {
    let (row, col, text) = cells[k];
    if in_player_block(row, col) {
        if known_key(roster, cell_key(text)) && !placed_before(cells, roster, k, cell_key(text)) {
            text
        } else {
            Seq::empty()
        }
    } else {
        text
    }
}

/// The lowercased nicknames of the active slots among the first `n` that no
/// player cell holds, each once, in roster order.
pub open spec fn missing_prefix(
    roster: Seq<MemberView>,
    cells: Seq<(u32, u32, Seq<char>)>,
    n: int,
) -> Seq<Seq<char>>
    decreases n,
{
    if n <= 0 {
        Seq::empty()
    } else {
        let earlier = missing_prefix(roster, cells, n - 1);
        let key = lowercase(roster[n - 1].nick);
        if roster[n - 1].is_active && !placed_before(cells, roster, cells.len() as int, key)
            && !earlier.contains(key) {
            earlier.push(key)
        } else {
            earlier
        }
    }
}

/// The lowercased nicknames of the active slots among the first `n`, in order.
pub open spec fn active_keys(roster: Seq<MemberView>, n: int) -> Seq<Seq<char>>
    decreases n,
{
    if n <= 0 {
        Seq::empty()
    } else if roster[n - 1].is_active {
        active_keys(roster, n - 1).push(lowercase(roster[n - 1].nick))
    } else {
        active_keys(roster, n - 1)
    }
}

/// The roster nicknames placed by the first `k` cells, each once, in order.
pub open spec fn placed_keys(cells: Seq<(u32, u32, Seq<char>)>, roster: Seq<MemberView>, k: int) -> Seq<Seq<char>>
    decreases k,
{
    if k <= 0 {
        Seq::empty()
    } else {
        let earlier = placed_keys(cells, roster, k - 1);
        let key = cell_key(cells[k - 1].2);
        if in_player_block(cells[k - 1].0, cells[k - 1].1) && known_key(roster, key) && !earlier.contains(key) {
            earlier.push(key)
        } else {
            earlier
        }
    }
}

proof fn lemma_active_keys(roster: Seq<MemberView>, n: int, key: Seq<char>)
    requires
        0 <= n <= roster.len(),
    ensures
        active_keys(roster, n).contains(key) <==> exists|j: int|
            0 <= j < n && #[trigger] roster[j].is_active && lowercase(roster[j].nick) == key,
    decreases n,
{
    if n > 0 {
        lemma_active_keys(roster, n - 1, key);
        let earlier = active_keys(roster, n - 1);
        if active_keys(roster, n).contains(key) {
            let idx = choose|idx: int| 0 <= idx < active_keys(roster, n).len() && active_keys(roster, n)[idx] == key;
            if idx < earlier.len() {
                assert(earlier[idx] == key);
            } else {
                assert(roster[n - 1].is_active && lowercase(roster[n - 1].nick) == key);
            }
        }
        if exists|j: int| 0 <= j < n && #[trigger] roster[j].is_active && lowercase(roster[j].nick) == key {
            let j = choose|j: int| 0 <= j < n && #[trigger] roster[j].is_active && lowercase(roster[j].nick) == key;
            if j < n - 1 {
                let idx = choose|idx: int| 0 <= idx < earlier.len() && earlier[idx] == key;
                assert(active_keys(roster, n)[idx] == key);
            } else {
                assert(active_keys(roster, n)[earlier.len() as int] == key);
            }
        }
    }
}

proof fn lemma_placed_keys(cells: Seq<(u32, u32, Seq<char>)>, roster: Seq<MemberView>, k: int, key: Seq<char>)
    requires
        0 <= k <= cells.len(),
    ensures
        placed_keys(cells, roster, k).contains(key) <==> placed_before(cells, roster, k, key),
    decreases k,
{
    if k > 0 {
        lemma_placed_keys(cells, roster, k - 1, key);
        let earlier = placed_keys(cells, roster, k - 1);
        let now = placed_keys(cells, roster, k);
        if now.contains(key) {
            let idx = choose|idx: int| 0 <= idx < now.len() && now[idx] == key;
            if idx < earlier.len() {
                assert(earlier[idx] == key);
                let q = choose|q: int|
                    0 <= q < k - 1 && in_player_block(cells[q].0, cells[q].1) && #[trigger] cell_key(cells[q].2) == key;
                assert(in_player_block(cells[q].0, cells[q].1) && cell_key(cells[q].2) == key);
            } else {
                assert(in_player_block(cells[k - 1].0, cells[k - 1].1) && cell_key(cells[k - 1].2) == key);
            }
        }
        if placed_before(cells, roster, k, key) {
            let q = choose|q: int|
                0 <= q < k && in_player_block(cells[q].0, cells[q].1) && #[trigger] cell_key(cells[q].2) == key;
            if q < k - 1 {
                assert(in_player_block(cells[q].0, cells[q].1) && cell_key(cells[q].2) == key);
                assert(earlier.contains(key));
                let idx = choose|idx: int| 0 <= idx < earlier.len() && earlier[idx] == key;
                assert(now[idx] == key);
            } else if !earlier.contains(key) {
                assert(now[earlier.len() as int] == key);
            } else {
                let idx = choose|idx: int| 0 <= idx < earlier.len() && earlier[idx] == key;
                assert(now[idx] == key);
            }
        }
    }
}

fn contains_text(list: &Vec<String>, text: &String) -> (found: bool)
    ensures
        found == nick_views(list@).contains(text@),
{
    let ghost views = nick_views(list@);
    let mut k: usize = 0;
    while k < list.len()
        invariant
            k <= list@.len(),
            views == nick_views(list@),
            forall|q: int| 0 <= q < k ==> views[q] != text@,
        decreases list@.len() - k,
    {
        if list[k] == *text {
            assert(views[k as int] == text@);
            return true;
        }
        k = k + 1;
    }
    false
}

fn roster_keys(members: &Vec<Member>) -> (keys: Vec<String>)
    ensures
        nick_views(keys@) == active_keys(roster_views(members@), members@.len() as int),
{
    let ghost roster = roster_views(members@);
    let mut keys: Vec<String> = Vec::new();
    let mut i: usize = 0;
    while i < members.len()
        invariant
            i <= members@.len(),
            roster == roster_views(members@),
            nick_views(keys@) == active_keys(roster, i as int),
        decreases members@.len() - i,
    {
        if members[i].is_active {
            keys.push(to_lowercase(members[i].nick.as_str()));
            assert(nick_views(keys@) =~= active_keys(roster, i as int).push(lowercase(roster[i as int].nick)));
        }
        i = i + 1;
    }
    keys
}

/// Cleans the parties sheet: returns the text to write for each cell, in
/// order, and the lowercased nicknames of active members that no player cell
/// holds, each once, in roster order.
pub fn clean_parties(cells: &Vec<PartyCell>, members: &Vec<Member>) -> (res: (Vec<String>, Vec<String>))
    ensures
        res.0@.len() == cells@.len(),
        forall|k: int|
            0 <= k < cells@.len() ==> #[trigger] res.0@[k]@ == cleaned_cell(
                cell_views(cells@),
                roster_views(members@),
                k,
            ),
        nick_views(res.1@) == missing_prefix(
            roster_views(members@),
            cell_views(cells@),
            members@.len() as int,
        ),
{
    let ghost roster = roster_views(members@);
    let ghost cv = cell_views(cells@);
    let keys = roster_keys(members);
    let mut placed: Vec<String> = Vec::new();
    let mut written: Vec<String> = Vec::new();
    let mut k: usize = 0;
    while k < cells.len()
        invariant
            k <= cells@.len(),
            roster == roster_views(members@),
            cv == cell_views(cells@),
            nick_views(keys@) == active_keys(roster, roster.len() as int),
            nick_views(placed@) == placed_keys(cv, roster, k as int),
            written@.len() == k,
            forall|q: int| 0 <= q < k ==> #[trigger] written@[q]@ == cleaned_cell(cv, roster, q),
        decreases cells@.len() - k,
    {
        let cell = &cells[k];
        let key = to_lowercase(trim(cell.text.as_str()));
        assert(cv[k as int] == (cell.row, cell.col, cell.text@));
        assert(key@ == cell_key(cv[k as int].2));
        let known = contains_text(&keys, &key);
        let seen = contains_text(&placed, &key);
        proof {
            lemma_active_keys(roster, roster.len() as int, key@);
            lemma_placed_keys(cv, roster, k as int, key@);
            if known_key(roster, key@) {
                let j = choose|j: int| 0 <= j < roster.len() && #[trigger] roster[j].is_active && lowercase(roster[j].nick) == key@;
                assert(roster[j].is_active && lowercase(roster[j].nick) == key@);
            }
        }
        if cell.row > 0 && cell.col > 0 && cell.row < 8 && cell.col < 8 {
            if known && !seen {
                written.push(cell.text.clone());
                placed.push(key);
                assert(nick_views(placed@) =~= placed_keys(cv, roster, k + 1));
            } else {
                written.push(String::new());
                assert(nick_views(placed@) =~= placed_keys(cv, roster, k + 1));
            }
        } else {
            written.push(cell.text.clone());
            assert(nick_views(placed@) =~= placed_keys(cv, roster, k + 1));
        }
        k = k + 1;
    }
    let mut missing: Vec<String> = Vec::new();
    let mut i: usize = 0;
    while i < members.len()
        invariant
            i <= members@.len(),
            roster == roster_views(members@),
            cv == cell_views(cells@),
            k == cells@.len(),
            nick_views(placed@) == placed_keys(cv, roster, cells@.len() as int),
            nick_views(missing@) == missing_prefix(roster, cv, i as int),
        decreases members@.len() - i,
    {
        if members[i].is_active {
            let key = to_lowercase(members[i].nick.as_str());
            proof {
                lemma_placed_keys(cv, roster, cells@.len() as int, key@);
            }
            if !contains_text(&placed, &key) && !contains_text(&missing, &key) {
                missing.push(key);
                assert(nick_views(missing@) =~= missing_prefix(roster, cv, i as int).push(
                    lowercase(roster[i as int].nick),
                ));
            }
        }
        i = i + 1;
    }
    (written, missing)
}

/// In the cleaned block every roster nickname stands at most once: of two
/// player cells with the same roster nickname the later one is emptied; and a
/// player cell that keeps a non-empty text holds a roster nickname.
pub proof fn law_parties_unique(cells: Seq<(u32, u32, Seq<char>)>, roster: Seq<MemberView>)
    ensures
        forall|k1: int, k2: int|
            #![trigger cleaned_cell(cells, roster, k2), cells[k1]]
            0 <= k1 < k2 < cells.len() && in_player_block(cells[k1].0, cells[k1].1)
                && in_player_block(cells[k2].0, cells[k2].1) && cell_key(cells[k1].2) == cell_key(
                cells[k2].2,
            ) && known_key(roster, cell_key(cells[k2].2)) ==> cleaned_cell(cells, roster, k2)
                == Seq::<char>::empty(),
        forall|k: int|
            0 <= k < cells.len() && in_player_block(cells[k].0, cells[k].1) && (#[trigger] cleaned_cell(
                cells,
                roster,
                k,
            )).len() > 0 ==> known_key(roster, cell_key(cells[k].2)),
{
    assert forall|k1: int, k2: int|
        #![trigger cleaned_cell(cells, roster, k2), cells[k1]]
        0 <= k1 < k2 < cells.len() && in_player_block(cells[k1].0, cells[k1].1) && in_player_block(
            cells[k2].0,
            cells[k2].1,
        ) && cell_key(cells[k1].2) == cell_key(cells[k2].2) && known_key(
            roster,
            cell_key(cells[k2].2),
        ) implies cleaned_cell(cells, roster, k2) == Seq::<char>::empty() by {
        assert(placed_before(cells, roster, k2, cell_key(cells[k2].2)));
    }
}

proof fn lemma_missing(roster: Seq<MemberView>, cells: Seq<(u32, u32, Seq<char>)>, n: int, key: Seq<char>)
    requires
        0 <= n <= roster.len(),
    ensures
        missing_prefix(roster, cells, n).contains(key) <==> (exists|j: int|
            0 <= j < n && #[trigger] roster[j].is_active && lowercase(roster[j].nick) == key)
            && !placed_before(cells, roster, cells.len() as int, key),
    decreases n,
{
    if n > 0 {
        lemma_missing(roster, cells, n - 1, key);
        let earlier = missing_prefix(roster, cells, n - 1);
        let now = missing_prefix(roster, cells, n);
        if now.contains(key) {
            let idx = choose|idx: int| 0 <= idx < now.len() && now[idx] == key;
            if idx < earlier.len() {
                assert(earlier[idx] == key);
                let j = choose|j: int| 0 <= j < n - 1 && #[trigger] roster[j].is_active && lowercase(roster[j].nick) == key;
                assert(roster[j].is_active);
            } else {
                assert(roster[n - 1].is_active);
            }
        }
        if (exists|j: int| 0 <= j < n && #[trigger] roster[j].is_active && lowercase(roster[j].nick) == key)
            && !placed_before(cells, roster, cells.len() as int, key) {
            let j = choose|j: int| 0 <= j < n && #[trigger] roster[j].is_active && lowercase(roster[j].nick) == key;
            if j < n - 1 {
                assert(roster[j].is_active);
                let idx = choose|idx: int| 0 <= idx < earlier.len() && earlier[idx] == key;
                assert(now[idx] == key);
            } else if earlier.contains(key) {
                let idx = choose|idx: int| 0 <= idx < earlier.len() && earlier[idx] == key;
                assert(now[idx] == key);
            } else {
                assert(now[earlier.len() as int] == key);
            }
        }
    }
}

/// What cleaning does to each cell, with a cell's text compared by its trimmed
/// text ignoring letter case against the nicknames of active members, also
/// ignoring case. Cells outside rows and columns 1 to 7 keep their text. A
/// player cell keeps its text when it names an active member and no earlier
/// player cell names the same one; it is emptied when it names no active
/// member, or one an earlier player cell already names. A member is listed as
/// missing exactly when active and named by no player cell.
pub proof fn law_parties_clean(cells: Seq<(u32, u32, Seq<char>)>, roster: Seq<MemberView>)
    ensures
        forall|k: int|
            0 <= k < cells.len() && !(0 < cells[k].0 < 8 && 0 < cells[k].1 < 8) ==> #[trigger] cleaned_cell(
                cells,
                roster,
                k,
            ) == cells[k].2,
        forall|k: int|
            0 <= k < cells.len() && 0 < cells[k].0 < 8 && 0 < cells[k].1 < 8 && (exists|j: int|
                0 <= j < roster.len() && #[trigger] roster[j].is_active && lowercase(roster[j].nick)
                    == lowercase(trimmed(cells[k].2))) && (forall|q: int|
                0 <= q < k && 0 < cells[q].0 < 8 && 0 < cells[q].1 < 8 ==> lowercase(
                    trimmed(#[trigger] cells[q].2),
                ) != lowercase(trimmed(cells[k].2))) ==> #[trigger] cleaned_cell(cells, roster, k)
                == cells[k].2,
        forall|k: int|
            0 <= k < cells.len() && 0 < cells[k].0 < 8 && 0 < cells[k].1 < 8 && !(exists|j: int|
                0 <= j < roster.len() && #[trigger] roster[j].is_active && lowercase(roster[j].nick)
                    == lowercase(trimmed(cells[k].2))) ==> #[trigger] cleaned_cell(cells, roster, k)
                == Seq::<char>::empty(),
        forall|k: int, q: int|
            #![trigger cleaned_cell(cells, roster, k), cells[q]]
            0 <= q < k < cells.len() && 0 < cells[k].0 < 8 && 0 < cells[k].1 < 8 && 0 < cells[q].0 < 8
                && 0 < cells[q].1 < 8 && lowercase(trimmed(cells[q].2)) == lowercase(trimmed(cells[k].2))
                ==> cleaned_cell(cells, roster, k) == Seq::<char>::empty(),
        forall|key: Seq<char>|
            #[trigger] missing_prefix(roster, cells, roster.len() as int).contains(key) <==> (exists|j: int|
                0 <= j < roster.len() && #[trigger] roster[j].is_active && lowercase(roster[j].nick) == key)
                && !(exists|q: int|
                0 <= q < cells.len() && 0 < cells[q].0 < 8 && 0 < cells[q].1 < 8 && lowercase(
                    trimmed(#[trigger] cells[q].2),
                ) == key),
{
    assert forall|k: int, q: int|
        #![trigger cleaned_cell(cells, roster, k), cells[q]]
        0 <= q < k < cells.len() && 0 < cells[k].0 < 8 && 0 < cells[k].1 < 8 && 0 < cells[q].0 < 8
            && 0 < cells[q].1 < 8 && lowercase(trimmed(cells[q].2)) == lowercase(trimmed(cells[k].2))
            implies cleaned_cell(cells, roster, k) == Seq::<char>::empty() by {
        assert(in_player_block(cells[q].0, cells[q].1) && cell_key(cells[q].2) == cell_key(cells[k].2));
    }
    assert forall|key: Seq<char>|
        #[trigger] missing_prefix(roster, cells, roster.len() as int).contains(key) <==> (exists|j: int|
            0 <= j < roster.len() && #[trigger] roster[j].is_active && lowercase(roster[j].nick) == key)
            && !(exists|q: int|
            0 <= q < cells.len() && 0 < cells[q].0 < 8 && 0 < cells[q].1 < 8 && lowercase(
                trimmed(#[trigger] cells[q].2),
            ) == key) by {
        lemma_missing(roster, cells, roster.len() as int, key);
        if exists|q: int|
            0 <= q < cells.len() && 0 < cells[q].0 < 8 && 0 < cells[q].1 < 8 && lowercase(
                trimmed(#[trigger] cells[q].2),
            ) == key {
            let q = choose|q: int|
                0 <= q < cells.len() && 0 < cells[q].0 < 8 && 0 < cells[q].1 < 8 && lowercase(
                    trimmed(#[trigger] cells[q].2),
                ) == key;
            assert(in_player_block(cells[q].0, cells[q].1) && cell_key(cells[q].2) == key);
        }
    }
}

} // verus!
