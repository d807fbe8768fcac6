//! Bringing the roster in line with the clan's member list from the game API.

use vstd::prelude::*;
use crate::config::MAX_MEMBERS;
use crate::text::{push_decimal, push_str};
use crate::types::{Member, MemberView};

verus! {

/// The texts of a list of strings.
pub open spec fn nick_views(nicks: Seq<String>) -> Seq<Seq<char>> {
    nicks.map_values(|s: String| s@)
}

/// The views of a roster.
pub open spec fn roster_views(members: Seq<Member>) -> Seq<MemberView> {
    members.map_values(|m: Member| m@)
}

/// Whether some active slot of `roster` holds `nick`.
pub open spec fn is_active_nick(roster: Seq<MemberView>, nick: Seq<char>) -> bool {
    exists|j: int| 0 <= j < roster.len() && #[trigger] roster[j].is_active && roster[j].nick == nick
}

/// Whether a later active slot holds the same nickname as slot `i`; the
/// roster's index of nicknames then points at that later slot.
pub open spec fn superseded(roster: Seq<MemberView>, i: int) -> bool {
    exists|j: int| i < j < roster.len() && #[trigger] roster[j].is_active && roster[j].nick == roster[i].nick
}

/// Whether slot `i` is freed: it is active, its nickname is not in the API
/// list, and no later active slot holds the same nickname.
pub open spec fn leaves(roster: Seq<MemberView>, api: Seq<Seq<char>>, i: int) -> bool {
    roster[i].is_active && !api.contains(roster[i].nick) && !superseded(roster, i)
}

/// The roster after freeing the slots of those who left; a freed slot keeps its texts.
pub open spec fn after_leaving(roster: Seq<MemberView>, api: Seq<Seq<char>>) -> Seq<MemberView> {
    Seq::new(
        roster.len(),
        |i: int|
            if leaves(roster, api, i) {
                MemberView { is_active: false, nick: roster[i].nick, discord: roster[i].discord }
            } else {
                roster[i]
            },
    )
}

/// The nicknames of the API list that no active slot holds, each once, in the
/// order of their first occurrence.
pub open spec fn joining(roster: Seq<MemberView>, api: Seq<Seq<char>>) -> Seq<Seq<char>>
    decreases api.len(),
{
    if api.len() == 0 {
        Seq::empty()
    } else {
        let earlier = joining(roster, api.drop_last());
        let nick = api.last();
        if api.drop_last().contains(nick) || is_active_nick(roster, nick) {
            earlier
        } else {
            earlier.push(nick)
        }
    }
}

/// The index of the first inactive slot, or the roster's length when all are active.
pub open spec fn first_free(roster: Seq<MemberView>) -> int
    decreases roster.len(),
{
    if roster.len() == 0 {
        0
    } else if !roster[0].is_active {
        0
    } else {
        1 + first_free(roster.drop_first())
    }
}

/// A newly joined member: active, with no Discord name yet.
pub open spec fn joined_member(nick: Seq<char>) -> MemberView {
    MemberView { is_active: true, nick, discord: Seq::empty() }
}

/// The roster after putting each of `nicks` in turn into the first free slot,
/// and whether there was room for all of them; when there is not, the roster
/// as it stands when the first nickname finds no free slot.
pub open spec fn place(roster: Seq<MemberView>, nicks: Seq<Seq<char>>) -> (Seq<MemberView>, bool)
    decreases nicks.len(),
{
    if nicks.len() == 0 {
        (roster, true)
    } else if first_free(roster) >= roster.len() {
        (roster, false)
    } else {
        place(roster.update(first_free(roster), joined_member(nicks[0])), nicks.drop_first())
    }
}

/// The roster after synchronising with the API list, and whether it succeeded.
pub open spec fn synced(roster: Seq<MemberView>, api: Seq<Seq<char>>) -> (Seq<MemberView>, bool) {
    place(after_leaving(roster, api), joining(roster, api))
}

/// Why the roster could not be brought in line with the API list.
#[derive(Clone, Copy, PartialEq, Eq, Structural)]
pub enum SyncError {
    /// The API returned no members at all.
    EmptyList,
    /// More members joined than there are free slots.
    TooManyMembers,
}

impl SyncError {
    /// The message shown to the user.
    pub fn message(&self) -> (text: String)
        ensures
            text@ == (match *self {
                SyncError::EmptyList => "Пустой список людей"@,
                SyncError::TooManyMembers => "More than "@ + crate::text::decimal(
                    MAX_MEMBERS as nat,
                ) + " members"@,
            }),
    {
        match *self {
            SyncError::EmptyList => String::from_str("Пустой список людей"),
            SyncError::TooManyMembers => {
                let mut text = String::from_str("More than ");
                push_decimal(&mut text, MAX_MEMBERS as u64);
                push_str(&mut text, " members");
                text
            },
        }
    }
}

proof fn lemma_first_free(roster: Seq<MemberView>, k: int)
    requires
        0 <= k <= roster.len(),
        k == roster.len() || !roster[k].is_active,
        forall|j: int| 0 <= j < k ==> #[trigger] roster[j].is_active,
    ensures
        first_free(roster) == k,
    decreases roster.len(),
{
    if roster.len() > 0 && k > 0 {
        assert(roster[0].is_active);
        lemma_first_free(roster.drop_first(), k - 1);
    }
}

proof fn lemma_first_free_bounds(roster: Seq<MemberView>)
    ensures
        0 <= first_free(roster) <= roster.len(),
        first_free(roster) < roster.len() ==> !roster[first_free(roster)].is_active,
        forall|j: int| 0 <= j < first_free(roster) ==> #[trigger] roster[j].is_active,
    decreases roster.len(),
{
    if roster.len() > 0 && roster[0].is_active {
        lemma_first_free_bounds(roster.drop_first());
        assert forall|j: int| 0 <= j < first_free(roster) implies #[trigger] roster[j].is_active by {
            if j > 0 {
                assert(roster[j] == roster.drop_first()[j - 1]);
            }
        }
    }
}

fn first_free_slot(members: &Vec<Member>) -> (k: usize)
    ensures
        k == first_free(roster_views(members@)),
{
    let ghost views = roster_views(members@);
    let mut k: usize = 0;
    while k < members.len() && members[k].is_active
        invariant
            k <= members@.len(),
            views == roster_views(members@),
            forall|j: int| 0 <= j < k ==> #[trigger] views[j].is_active,
        decreases members@.len() - k,
    {
        k = k + 1;
    }
    proof {
        lemma_first_free(views, k as int);
    }
    k
}

fn contains_nick(list: &Vec<String>, upto: usize, nick: &String) -> (found: bool)
    requires
        upto <= list@.len(),
    ensures
        found == nick_views(list@).take(upto as int).contains(nick@),
{
    let ghost views = nick_views(list@).take(upto as int);
    let mut k: usize = 0;
    while k < upto
        invariant
            k <= upto <= list@.len(),
            views == nick_views(list@).take(upto as int),
            forall|j: int| 0 <= j < k ==> views[j] != nick@,
        decreases upto - k,
    {
        if list[k] == *nick {
            assert(views[k as int] == nick@);
            return true;
        }
        k = k + 1;
    }
    false
}

fn has_active_nick(members: &Vec<Member>, nick: &String) -> (found: bool)
    ensures
        found == is_active_nick(roster_views(members@), nick@),
{
    let ghost views = roster_views(members@);
    let mut k: usize = 0;
    while k < members.len()
        invariant
            k <= members@.len(),
            views == roster_views(members@),
            forall|j: int| 0 <= j < k ==> !(#[trigger] views[j].is_active && views[j].nick == nick@),
        decreases members@.len() - k,
    {
        if members[k].is_active && members[k].nick == *nick {
            assert(views[k as int].is_active && views[k as int].nick == nick@);
            return true;
        }
        k = k + 1;
    }
    false
}

fn is_superseded(members: &Vec<Member>, i: usize) -> (found: bool)
    requires
        i < members@.len(),
    ensures
        found == superseded(roster_views(members@), i as int),
{
    let ghost views = roster_views(members@);
    let n = members.len();
    let mut k: usize = i + 1;
    while k < members.len()
        invariant
            i < k <= members@.len(),
            views == roster_views(members@),
            forall|j: int|
                i < j < k ==> !(#[trigger] views[j].is_active && views[j].nick == views[i as int].nick),
        decreases members@.len() - k,
    {
        if members[k].is_active && members[k].nick == members[i].nick {
            assert(views[k as int].is_active && views[k as int].nick == views[i as int].nick);
            return true;
        }
        k = k + 1;
    }
    false
}

fn joining_nicks(members: &Vec<Member>, api_nicks: &Vec<String>) -> (nicks: Vec<String>)
    ensures
        nick_views(nicks@) == joining(roster_views(members@), nick_views(api_nicks@)),
{
    let ghost roster = roster_views(members@);
    let ghost api = nick_views(api_nicks@);
    let mut nicks: Vec<String> = Vec::new();
    let mut k: usize = 0;
    while k < api_nicks.len()
        invariant
            k <= api_nicks@.len(),
            roster == roster_views(members@),
            api == nick_views(api_nicks@),
            nick_views(nicks@) == joining(roster, api.take(k as int)),
        decreases api_nicks@.len() - k,
    {
        let nick = &api_nicks[k];
        let seen = contains_nick(api_nicks, k, nick);
        let present = has_active_nick(members, nick);
        proof {
            let prefix = api.take(k + 1);
            assert(prefix.drop_last() =~= api.take(k as int));
            assert(prefix.last() == nick@);
        }
        if !seen && !present {
            nicks.push(nick.clone());
            assert(nick_views(nicks@) =~= joining(roster, api.take(k as int)).push(nick@));
        }
        k = k + 1;
    }
    assert(api.take(api_nicks@.len() as int) =~= api);
    nicks
}

fn leaves_at(members: &Vec<Member>, api_nicks: &Vec<String>, i: usize) -> (b: bool)
    requires
        i < members@.len(),
    ensures
        b == leaves(roster_views(members@), nick_views(api_nicks@), i as int),
{
    if !members[i].is_active {
        return false;
    }
    let in_api = contains_nick(api_nicks, api_nicks.len(), &members[i].nick);
    assert(nick_views(api_nicks@).take(api_nicks@.len() as int) =~= nick_views(api_nicks@));
    if in_api {
        return false;
    }
    !is_superseded(members, i)
}

fn free_leavers(members: &mut Vec<Member>, api_nicks: &Vec<String>)
    ensures
        roster_views(final(members)@) == after_leaving(
            roster_views(old(members)@),
            nick_views(api_nicks@),
        ),
{
    let ghost roster = roster_views(members@);
    let ghost api = nick_views(api_nicks@);
    let n = members.len();
    assert(forall|j: int| 0 <= j < n ==> #[trigger] members@[j]@ == roster[j]);
    let mut leaving: Vec<bool> = Vec::new();
    let mut i: usize = 0;
    while i < n
        invariant
            i <= n,
            n == members@.len(),
            roster == roster_views(members@),
            api == nick_views(api_nicks@),
            leaving@.len() == i,
            forall|j: int| 0 <= j < i ==> #[trigger] leaving@[j] == leaves(roster, api, j),
        decreases n - i,
    {
        leaving.push(leaves_at(members, api_nicks, i));
        i = i + 1;
    }
    let mut i: usize = 0;
    while i < n
        invariant
            i <= n,
            n == members@.len(),
            roster.len() == n,
            leaving@.len() == n,
            forall|j: int| 0 <= j < n ==> #[trigger] leaving@[j] == leaves(roster, api, j),
            forall|j: int| 0 <= j < i ==> #[trigger] members@[j]@ == after_leaving(roster, api)[j],
            forall|j: int| i <= j < n ==> #[trigger] members@[j]@ == roster[j],
        decreases n - i,
    {
        assert(members@[i as int]@ == roster[i as int]);
        assert(leaving@[i as int] == leaves(roster, api, i as int));
        if leaving[i] {
            let m = Member {
                is_active: false,
                nick: members[i].nick.clone(),
                discord: members[i].discord.clone(),
            };
            assert(m@ == after_leaving(roster, api)[i as int]);
            members.set(i, m);
            assert(members@[i as int] == m);
        } else {
            assert(members@[i as int]@ == roster[i as int]);
        }
        assert(members@[i as int]@ == after_leaving(roster, api)[i as int]);
        i = i + 1;
    }
    assert(roster_views(members@) =~= after_leaving(roster, api));
}

/// Brings `members` in line with the API list `api_nicks`: frees the slot of
/// every active member whose nickname the list lacks (of several active slots
/// with one nickname, only the last is looked at), then puts each listed
/// nickname that no slot held active into the first free slot, as an active
/// member without a Discord name. Fails when a nickname finds no free slot,
/// leaving the roster as it stood at that moment.
pub fn sync_members(members: &mut Vec<Member>, api_nicks: &Vec<String>) -> (res: Result<(), SyncError>)
    ensures
        roster_views(final(members)@) == synced(roster_views(old(members)@), nick_views(api_nicks@)).0,
        res is Ok <==> synced(roster_views(old(members)@), nick_views(api_nicks@)).1,
        res matches Err(e) ==> e == SyncError::TooManyMembers,
{
    let ghost roster = roster_views(members@);
    let ghost api = nick_views(api_nicks@);
    let nicks = joining_nicks(members, api_nicks);
    free_leavers(members, api_nicks);
    let ghost all = nick_views(nicks@);
    let mut k: usize = 0;
    assert(all.skip(0) =~= all);
    while k < nicks.len()
        invariant
            k <= nicks@.len(),
            all == nick_views(nicks@),
            all == joining(roster, api),
            roster == roster_views(old(members)@),
            api == nick_views(api_nicks@),
            place(roster_views(members@), all.skip(k as int)) == synced(roster, api),
        decreases nicks@.len() - k,
    {
        let ghost current = roster_views(members@);
        let free = first_free_slot(members);
        if free >= members.len() {
            assert(current == roster_views(members@));
            assert(all.skip(k as int).len() > 0);
            assert(place(current, all.skip(k as int)) == (current, false));
            return Err(SyncError::TooManyMembers);
        }
        let m = Member { is_active: true, nick: nicks[k].clone(), discord: String::new() };
        members.set(free, m);
        proof {
            assert(all.skip(k as int)[0] == nicks@[k as int]@);
            assert(all.skip(k as int).drop_first() =~= all.skip(k + 1));
            assert(roster_views(members@) =~= current.update(
                free as int,
                joined_member(all.skip(k as int)[0]),
            ));
        }
        k = k + 1;
    }
    Ok(())
}

/// Synchronises the roster with the API's member list, refusing an empty list
/// (the roster is then left as it is).
pub fn update_member_list(members: &mut Vec<Member>, api_nicks: &Vec<String>) -> (res: Result<(), SyncError>)
    ensures
        api_nicks@.len() == 0 ==> res == Err::<(), SyncError>(SyncError::EmptyList) && final(members)@
            == old(members)@,
        api_nicks@.len() > 0 ==> {
            &&& roster_views(final(members)@) == synced(
                roster_views(old(members)@),
                nick_views(api_nicks@),
            ).0
            &&& res is Ok <==> synced(roster_views(old(members)@), nick_views(api_nicks@)).1
            &&& res matches Err(e) ==> e == SyncError::TooManyMembers
        },
{
    if api_nicks.len() == 0 {
        return Err(SyncError::EmptyList);
    }
    sync_members(members, api_nicks)
}

/// Whether no two active slots of `roster` hold the same nickname.
pub open spec fn distinct_active_nicks(roster: Seq<MemberView>) -> bool {
    forall|i: int, j: int|
        0 <= i < j < roster.len() && #[trigger] roster[i].is_active && #[trigger] roster[j].is_active
            ==> roster[i].nick != roster[j].nick
}

proof fn lemma_place(roster: Seq<MemberView>, nicks: Seq<Seq<char>>)
    ensures
        place(roster, nicks).0.len() == roster.len(),
        forall|i: int|
            0 <= i < roster.len() && roster[i].is_active ==> #[trigger] place(roster, nicks).0[i]
                == roster[i],
        forall|i: int|
            0 <= i < roster.len() && !(#[trigger] place(roster, nicks).0[i]).is_active
                ==> place(roster, nicks).0[i] == roster[i],
        forall|i: int|
            0 <= i < roster.len() && (#[trigger] place(roster, nicks).0[i]).is_active
                && !roster[i].is_active ==> nicks.contains(place(roster, nicks).0[i].nick),
        place(roster, nicks).1 ==> forall|n: Seq<char>|
            #[trigger] nicks.contains(n) ==> is_active_nick(place(roster, nicks).0, n),
    decreases nicks.len(),
{
    if nicks.len() > 0 && first_free(roster) < roster.len() {
        lemma_first_free_bounds(roster);
        let f = first_free(roster);
        let next = roster.update(f, joined_member(nicks[0]));
        let rest = nicks.drop_first();
        lemma_place(next, rest);
        let r = place(roster, nicks).0;
        assert(r == place(next, rest).0);
        assert forall|i: int|
            0 <= i < roster.len() && (#[trigger] r[i]).is_active && !roster[i].is_active implies nicks.contains(
            r[i].nick,
        ) by {
            if i == f {
                assert(next[i].is_active);
                assert(r[i] == next[i]);
                assert(nicks[0] == r[i].nick);
            } else {
                assert(next[i] == roster[i]);
                assert(rest.contains(r[i].nick));
                let k = choose|k: int| 0 <= k < rest.len() && rest[k] == r[i].nick;
                assert(nicks[k + 1] == r[i].nick);
            }
        }
        if place(roster, nicks).1 {
            assert forall|n: Seq<char>| #[trigger] nicks.contains(n) implies is_active_nick(r, n) by {
                let k = choose|k: int| 0 <= k < nicks.len() && nicks[k] == n;
                if k == 0 {
                    assert(next[f].is_active);
                    assert(r[f] == next[f]);
                    assert(r[f].is_active && r[f].nick == n);
                } else {
                    assert(rest[k - 1] == n);
                    assert(rest.contains(n));
                }
            }
        }
    }
}

proof fn lemma_joining(roster: Seq<MemberView>, api: Seq<Seq<char>>, n: Seq<char>)
    ensures
        joining(roster, api).contains(n) <==> api.contains(n) && !is_active_nick(roster, n),
    decreases api.len(),
{
    if api.len() > 0 {
        let prev = api.drop_last();
        lemma_joining(roster, prev, n);
        let earlier = joining(roster, prev);
        if api.contains(n) && !is_active_nick(roster, n) {
            if prev.contains(n) {
                let k = choose|k: int| 0 <= k < earlier.len() && earlier[k] == n;
                assert(joining(roster, api)[k] == n);
            } else {
                let k = choose|k: int| 0 <= k < api.len() && api[k] == n;
                if k < api.len() - 1 {
                    assert(prev[k] == n);
                }
                assert(api.last() == n);
                assert(joining(roster, api) == earlier.push(n));
                assert(joining(roster, api)[earlier.len() as int] == n);
            }
        }
        if joining(roster, api).contains(n) {
            if !earlier.contains(n) {
                let all = joining(roster, api);
                let k = choose|k: int| 0 <= k < all.len() && all[k] == n;
                assert(all != earlier);
                assert(all == earlier.push(api.last()));
                if k < earlier.len() {
                    assert(earlier[k] == n);
                }
                assert(api.last() == n);
                assert(api[api.len() - 1] == n);
            } else {
                let k = choose|k: int| 0 <= k < prev.len() && prev[k] == n;
                assert(api[k] == n);
            }
        }
    }
}

/// After a successful synchronisation every nickname of the API list is held
/// by an active slot; when no two active slots shared a nickname before, an
/// active slot holds a nickname only if the API list has it.
pub proof fn law_sync_follows_api(roster: Seq<MemberView>, api: Seq<Seq<char>>)
    requires
        synced(roster, api).1,
    ensures
        forall|n: Seq<char>| #[trigger] api.contains(n) ==> is_active_nick(synced(roster, api).0, n),
        distinct_active_nicks(roster) ==> forall|n: Seq<char>|
            #[trigger] is_active_nick(synced(roster, api).0, n) ==> api.contains(n),
{
    let al = after_leaving(roster, api);
    let nicks = joining(roster, api);
    let r = synced(roster, api).0;
    lemma_place(al, nicks);
    assert forall|n: Seq<char>| #[trigger] api.contains(n) implies is_active_nick(r, n) by {
        lemma_joining(roster, api, n);
        if is_active_nick(roster, n) {
            let j = choose|j: int| 0 <= j < roster.len() && #[trigger] roster[j].is_active && roster[j].nick == n;
            assert(!leaves(roster, api, j));
            assert(al[j] == roster[j]);
            assert(r[j] == al[j]);
        } else {
            assert(nicks.contains(n));
        }
    }
    if distinct_active_nicks(roster) {
        assert forall|n: Seq<char>| #[trigger] is_active_nick(r, n) implies api.contains(n) by {
            let i = choose|i: int| 0 <= i < r.len() && #[trigger] r[i].is_active && r[i].nick == n;
            if al[i].is_active {
                assert(r[i] == al[i]);
                assert(roster[i].is_active);
                assert(!superseded(roster, i));
                assert(!leaves(roster, api, i));
            } else {
                lemma_joining(roster, api, n);
            }
        }
    }
}

/// Synchronising keeps every member who is still in the API list in the same
/// slot, with the same Discord name, and keeps the roster's size.
pub proof fn law_sync_keeps_stayers(roster: Seq<MemberView>, api: Seq<Seq<char>>, i: int)
    requires
        0 <= i < roster.len(),
        roster[i].is_active,
        api.contains(roster[i].nick),
    ensures
        synced(roster, api).0.len() == roster.len(),
        synced(roster, api).0[i] == roster[i],
{
    let al = after_leaving(roster, api);
    lemma_place(al, joining(roster, api));
    assert(al[i] == roster[i]);
}

/// Synchronising a second time with the same API list changes nothing, when
/// the first synchronisation succeeded on a roster where no two active slots
/// shared a nickname.
pub proof fn law_sync_settles(roster: Seq<MemberView>, api: Seq<Seq<char>>)
    requires
        distinct_active_nicks(roster),
        synced(roster, api).1,
    ensures
        synced(synced(roster, api).0, api) == (synced(roster, api).0, true),
{
    let r = synced(roster, api).0;
    law_sync_follows_api(roster, api);
    assert forall|i: int| 0 <= i < r.len() implies !leaves(r, api, i) by {
        if r[i].is_active {
            assert(is_active_nick(r, r[i].nick));
            assert(api.contains(r[i].nick));
        }
    }
    assert(after_leaving(r, api) =~= r);
    let j = joining(r, api);
    if j.len() > 0 {
        lemma_joining(r, api, j[0]);
        assert(j.contains(j[0]));
        assert(api.contains(j[0]));
        assert(is_active_nick(r, j[0]));
    }
    assert(j =~= Seq::<Seq<char>>::empty());
}

} // verus!
