//! Matching the nicknames read from a clan-war screenshot against the roster.

use vstd::prelude::*;
use crate::nick::{normalize_nick, normalized};
use crate::text::{lowercase, to_lowercase};
use crate::types::{Member, MemberView};
use crate::members::{nick_views, roster_views};

verus! {

/// The Levenshtein distance of `a` and `b`: the least number of
/// single-character insertions, deletions and substitutions that turn `a`
/// into `b`, by the usual recurrence on their last characters.
pub open spec fn edit_distance(a: Seq<char>, b: Seq<char>) -> nat
    decreases a.len() + b.len(),
{
    if a.len() == 0 {
        b.len()
    } else if b.len() == 0 {
        a.len()
    } else {
        let replace = edit_distance(a.drop_last(), b.drop_last()) + if a.last() == b.last() {
            0nat
        } else {
            1nat
        };
        let delete = edit_distance(a.drop_last(), b) + 1;
        let insert = edit_distance(a, b.drop_last()) + 1;
        if replace <= delete && replace <= insert {
            replace
        } else if delete <= insert {
            delete
        } else {
            insert
        }
    }
}

/// The Levenshtein distance of `a` and `b` over their characters
/// (`strsim::levenshtein`, documented as the least number of insertions,
/// deletions and substitutions that change one string into the other).
#[verifier::external_body]
pub(crate) fn levenshtein(a: &str, b: &str) -> (d: usize)
    ensures
        d as nat == edit_distance(a@, b@),
{
    strsim::levenshtein(a, b)
}

/// The greatest distance at which a recognised nickname still counts as a roster member.
pub const MAX_MATCH_DISTANCE: usize = 2;

/// The number of matched players after which the top-15 mask is taken.
pub const TOP_COUNT: u8 = 15;

/// The best of the first `n` candidates: the first index whose distance is
/// least among those given, with that distance; `None` when none is given.
pub open spec fn best_prefix(distances: Seq<Option<usize>>, n: int) -> Option<(usize, usize)>
    decreases n,
{
    if n <= 0 {
        None
    } else {
        let earlier = best_prefix(distances, n - 1);
        match distances[n - 1] {
            None => earlier,
            Some(d) => match earlier {
                None => Some(((n - 1) as usize, d)),
                Some((i, e)) => if d < e {
                    Some(((n - 1) as usize, d))
                } else {
                    earlier
                },
            },
        }
    }
}

/// The best candidate of all: the first with the least distance.
pub open spec fn best(distances: Seq<Option<usize>>) -> Option<(usize, usize)> {
    best_prefix(distances, distances.len() as int)
}

/// Attendance mask, top-15 mask and number of matches after the first `n`
/// best candidates: each candidate within `MAX_MATCH_DISTANCE` sets its
/// member's bit, and the attendance mask as it stands after the fifteenth
/// match is the top-15 mask.
pub open spec fn tally_prefix(bests: Seq<Option<(usize, usize)>>, n: int) -> (u64, u64, nat)
    decreases n,
{
    if n <= 0 {
        (0, 0, 0)
    } else {
        let (attendance, top15, count) = tally_prefix(bests, n - 1);
        match bests[n - 1] {
            Some((i, d)) => if d <= MAX_MATCH_DISTANCE {
                let marked = attendance | (1u64 << (i as u64));
                (marked, if count == 14 {
                    marked
                } else {
                    top15
                }, count + 1)
            } else {
                (attendance, top15, count)
            },
            None => (attendance, top15, count),
        }
    }
}

/// The tally of all best candidates.
pub open spec fn tally(bests: Seq<Option<(usize, usize)>>) -> (u64, u64, nat) {
    tally_prefix(bests, bests.len() as int)
}

/// The key a recognised nickname is compared by: normalised, then lowercased.
pub open spec fn name_key(name: Seq<char>) -> Seq<char> {
    lowercase(normalized(name))
}

/// The key a roster nickname is compared by: lowercased, then normalised.
pub open spec fn member_key(nick: Seq<char>) -> Seq<char> {
    normalized(lowercase(nick))
}

/// The distance of a recognised nickname to each roster slot; `None` for inactive slots.
pub open spec fn distances(name: Seq<char>, roster: Seq<MemberView>) -> Seq<Option<usize>> {
    Seq::new(
        roster.len(),
        |j: int|
            if roster[j].is_active {
                Some(edit_distance(name_key(name), member_key(roster[j].nick)) as usize)
            } else {
                None
            },
    )
}

/// The best roster candidate for each recognised nickname.
pub open spec fn candidates(names: Seq<Seq<char>>, roster: Seq<MemberView>) -> Seq<Option<(usize, usize)>> {
    Seq::new(names.len(), |k: int| best(distances(names[k], roster)))
}

/// The first index whose distance is least among the given ones, with that
/// distance; `None` when no distance is given.
pub fn best_match(distances: &Vec<Option<usize>>) -> (res: Option<(usize, usize)>)
    ensures
        res == best(distances@),
{
    let mut res: Option<(usize, usize)> = None;
    let mut j: usize = 0;
    while j < distances.len()
        invariant
            j <= distances@.len(),
            res == best_prefix(distances@, j as int),
        decreases distances@.len() - j,
    {
        match distances[j] {
            None => {},
            Some(d) => {
                match res {
                    None => {
                        res = Some((j, d));
                    },
                    Some((_, e)) => {
                        if d < e {
                            res = Some((j, d));
                        }
                    },
                }
            },
        }
        j = j + 1;
    }
    res
}

/// Whether a candidate that counts as present names a slot with a bit in the masks.
pub open spec fn candidate_fits(b: Option<(usize, usize)>) -> bool {
    match b {
        Some((i, d)) => d <= MAX_MATCH_DISTANCE ==> i < 64,
        None => true,
    }
}

/// Whether the tally of `bests` can be kept in the masks and an 8-bit count:
/// at most 255 matches, each of a slot below 64.
pub open spec fn tally_fits(bests: Seq<Option<(usize, usize)>>) -> bool {
    &&& tally(bests).2 <= 255
    &&& forall|k: int| 0 <= k < bests.len() ==> #[trigger] candidate_fits(bests[k])
}

proof fn lemma_tally_count_grows(bests: Seq<Option<(usize, usize)>>, k: int, n: int)
    requires
        0 <= k <= n,
    ensures
        tally_prefix(bests, k).2 <= tally_prefix(bests, n).2,
    decreases n - k,
{
    if k < n {
        lemma_tally_count_grows(bests, k, n - 1);
    }
}

/// Whether the tally of `bests` fits, as `tally_fits` describes.
pub fn check_tally_fits(bests: &Vec<Option<(usize, usize)>>) -> (fits: bool)
    ensures
        fits == tally_fits(bests@),
{
    let mut count: usize = 0;
    let mut all_fit = true;
    let mut k: usize = 0;
    while k < bests.len()
        invariant
            k <= bests@.len(),
            count as nat == tally_prefix(bests@, k as int).2,
            count <= k,
            all_fit == forall|q: int| 0 <= q < k ==> #[trigger] candidate_fits(bests@[q]),
        decreases bests@.len() - k,
    {
        let ghost before = all_fit;
        let here = match bests[k] {
            Some((i, d)) => {
                if d <= MAX_MATCH_DISTANCE {
                    count = count + 1;
                }
                d > MAX_MATCH_DISTANCE || i < 64
            },
            None => true,
        };
        assert(here == candidate_fits(bests@[k as int]));
        if !here {
            all_fit = false;
        }
        proof {
            if before && here {
                assert forall|q: int| 0 <= q < k + 1 implies #[trigger] candidate_fits(bests@[q]) by {
                    if q < k {
                        assert(candidate_fits(bests@[q]));
                    }
                }
            }
            if before && !here {
                assert(!candidate_fits(bests@[k as int]));
            }
            if !before {
                let q = choose|q: int| 0 <= q < k && !#[trigger] candidate_fits(bests@[q]);
                assert(!candidate_fits(bests@[q]));
            }
        }
        k = k + 1;
    }
    all_fit && count <= 255
}

/// Attendance mask, top-15 mask and number of matched players from the best
/// candidate of each recognised nickname, in screenshot order.
pub fn tally_matches(bests: &Vec<Option<(usize, usize)>>) -> (res: (u64, u64, u8))
    requires
        tally_fits(bests@),
    ensures
        res.0 == tally(bests@).0,
        res.1 == tally(bests@).1,
        res.2 as nat == tally(bests@).2,
{
    let mut attendance: u64 = 0;
    let mut top15: u64 = 0;
    let mut count: u8 = 0;
    let mut k: usize = 0;
    while k < bests.len()
        invariant
            k <= bests@.len(),
            tally_fits(bests@),
            (attendance, top15, count as nat) == tally_prefix(bests@, k as int),
        decreases bests@.len() - k,
    {
        proof {
            lemma_tally_count_grows(bests@, k + 1, bests@.len() as int);
            assert(candidate_fits(bests@[k as int]));
        }
        match bests[k] {
            Some((i, d)) => {
                if d <= MAX_MATCH_DISTANCE {
                    attendance = attendance | (1u64 << (i as u64));
                    if count == TOP_COUNT - 1 {
                        top15 = attendance;
                    }
                    count = count + 1;
                }
            },
            None => {},
        }
        k = k + 1;
    }
    (attendance, top15, count)
}

/// The distance of `key` to the key of each roster slot; `None` for inactive slots.
fn distances_to(key: &String, members: &Vec<Member>, name: Ghost<Seq<char>>) -> (ds: Vec<Option<usize>>)
    requires
        key@ == name_key(name@),
    ensures
        ds@ == distances(name@, roster_views(members@)),
{
    let mut ds: Vec<Option<usize>> = Vec::new();
    let mut j: usize = 0;
    while j < members.len()
        invariant
            j <= members@.len(),
            key@ == name_key(name@),
            ds@ == distances(name@, roster_views(members@)).take(j as int),
        decreases members@.len() - j,
    {
        if members[j].is_active {
            let lower = to_lowercase(members[j].nick.as_str());
            let member = normalize_nick(lower.as_str());
            let d = levenshtein(key.as_str(), member.as_str());
            ds.push(Some(d));
        } else {
            ds.push(None);
        }
        j = j + 1;
        assert(ds@ =~= distances(name@, roster_views(members@)).take(j as int));
    }
    assert(ds@ =~= distances(name@, roster_views(members@)));
    ds
}

/// The best roster candidate of each recognised nickname: each is compared
/// with every active slot by the edit distance of their normal forms, and the
/// first closest slot is its candidate.
pub fn nick_candidates(nicks: &Vec<String>, members: &Vec<Member>) -> (bests: Vec<Option<(usize, usize)>>)
    ensures
        bests@ == candidates(nick_views(nicks@), roster_views(members@)),
{
    let ghost names = nick_views(nicks@);
    let ghost roster = roster_views(members@);
    let mut bests: Vec<Option<(usize, usize)>> = Vec::new();
    let mut k: usize = 0;
    while k < nicks.len()
        invariant
            k <= nicks@.len(),
            names == nick_views(nicks@),
            roster == roster_views(members@),
            bests@ == candidates(names, roster).take(k as int),
        decreases nicks@.len() - k,
    {
        let normal = normalize_nick(nicks[k].as_str());
        let key = to_lowercase(normal.as_str());
        let ds = distances_to(&key, members, Ghost(nicks@[k as int]@));
        let b = best_match(&ds);
        bests.push(b);
        k = k + 1;
        assert(bests@ =~= candidates(names, roster).take(k as int));
    }
    assert(bests@ =~= candidates(names, roster));
    bests
}

/// Matches recognised nicknames against the active roster slots: a
/// nickname's candidate (see `nick_candidates`) within `MAX_MATCH_DISTANCE`
/// counts as present. Returns the attendance mask, the attendance mask as it
/// stood after the fifteenth match (0 if there were fewer), and the number of
/// matches.
pub fn match_cw_nicks(nicks: &Vec<String>, members: &Vec<Member>) -> (res: (u64, u64, u8))
    requires
        tally_fits(candidates(nick_views(nicks@), roster_views(members@))),
    ensures
        res.0 == tally(candidates(nick_views(nicks@), roster_views(members@))).0,
        res.1 == tally(candidates(nick_views(nicks@), roster_views(members@))).1,
        res.2 as nat == tally(candidates(nick_views(nicks@), roster_views(members@))).2,
{
    let bests = nick_candidates(nicks, members);
    tally_matches(&bests)
}

/// Matches recognised nicknames against the roster as `match_cw_nicks` does,
/// or `None` when the result does not fit: more than 255 matches, or a match
/// of a slot from 64 on.
pub fn match_cw_nicks_checked(nicks: &Vec<String>, members: &Vec<Member>) -> (res: Option<(u64, u64, u8)>)
    ensures
        res is None <==> !tally_fits(candidates(nick_views(nicks@), roster_views(members@))),
        res matches Some(r) ==> {
            &&& r.0 == tally(candidates(nick_views(nicks@), roster_views(members@))).0
            &&& r.1 == tally(candidates(nick_views(nicks@), roster_views(members@))).1
            &&& r.2 as nat == tally(candidates(nick_views(nicks@), roster_views(members@))).2
        },
{
    let bests = nick_candidates(nicks, members);
    if check_tally_fits(&bests) {
        Some(tally_matches(&bests))
    } else {
        None
    }
}

proof fn lemma_best_in_range(distances: Seq<Option<usize>>, n: int)
    requires
        n <= distances.len(),
    ensures
        best_prefix(distances, n) matches Some((i, d)) ==> i < n,
    decreases n,
{
    if n > 0 {
        lemma_best_in_range(distances, n - 1);
    }
}

/// Whether bit `i` of `v` is set.
pub open spec fn bit_set(v: u64, i: u64) -> bool {
    (v >> i) & 1u64 == 1u64
}

/// Whether candidate `b` is slot `i` within `MAX_MATCH_DISTANCE`.
pub open spec fn counts_for(b: Option<(usize, usize)>, i: u64) -> bool {
    match b {
        Some((j, d)) => j as u64 == i && d <= MAX_MATCH_DISTANCE,
        None => false,
    }
}

/// Whether one of the first `n` candidates is slot `i` within `MAX_MATCH_DISTANCE`.
pub open spec fn matched_within(bests: Seq<Option<(usize, usize)>>, n: int, i: u64) -> bool {
    exists|k: int| 0 <= k < n && counts_for(#[trigger] bests[k], i)
}

proof fn lemma_or_bit(a: u64, j: u64, i: u64)
    requires
        j < 64,
        i < 64,
    ensures
        bit_set(a | (1u64 << j), i) <==> (bit_set(a, i) || i == j),
{
    assert(((a | (1u64 << j)) >> i) & 1u64 == 1u64 <==> (((a >> i) & 1u64 == 1u64) || i == j))
        by (bit_vector)
        requires
            j < 64,
            i < 64,
    ;
}

proof fn lemma_or_keeps_subset(t: u64, a: u64, m: u64)
    requires
        t & a == t,
    ensures
        t & (a | m) == t,
        (a | m) & (a | m) == (a | m),
{
    assert(t & a == t ==> t & (a | m) == t) by (bit_vector);
    assert((a | m) & (a | m) == (a | m)) by (bit_vector);
}

proof fn lemma_tally_prefix(bests: Seq<Option<(usize, usize)>>, n: int)
    requires
        0 <= n <= bests.len(),
        forall|k: int| 0 <= k < bests.len() ==> #[trigger] candidate_fits(bests[k]),
    ensures
        forall|i: u64| i < 64 ==> (#[trigger] bit_set(tally_prefix(bests, n).0, i) <==> matched_within(bests, n, i)),
        tally_prefix(bests, n).1 & tally_prefix(bests, n).0 == tally_prefix(bests, n).1,
        tally_prefix(bests, n).2 < 15 ==> tally_prefix(bests, n).1 == 0,
        tally_prefix(bests, n).2 <= n,
    decreases n,
{
    if n == 0 {
        assert forall|i: u64| i < 64 implies !#[trigger] bit_set(0u64, i) by {
            assert((0u64 >> i) & 1u64 == 0u64) by (bit_vector);
        }
        assert(0u64 & 0u64 == 0u64) by (bit_vector);
    } else {
        lemma_tally_prefix(bests, n - 1);
        let (a, t, c) = tally_prefix(bests, n - 1);
        match bests[n - 1] {
            Some((j, d)) => {
                if d <= MAX_MATCH_DISTANCE {
                    assert(candidate_fits(bests[n - 1]));
                    let m = 1u64 << (j as u64);
                    lemma_or_keeps_subset(t, a, m);
                    assert forall|i: u64| i < 64 implies (#[trigger] bit_set(
                        tally_prefix(bests, n).0,
                        i,
                    ) <==> matched_within(bests, n, i)) by {
                        lemma_or_bit(a, j as u64, i);
                        if matched_within(bests, n - 1, i) {
                            let k = choose|k: int| 0 <= k < n - 1 && counts_for(#[trigger] bests[k], i);
                            assert(counts_for(bests[k], i));
                        }
                        if matched_within(bests, n, i) && !matched_within(bests, n - 1, i) {
                            let k = choose|k: int| 0 <= k < n && counts_for(#[trigger] bests[k], i);
                            assert(k == n - 1);
                        }
                    }
                } else {
                    assert forall|i: u64| i < 64 implies (#[trigger] bit_set(
                        tally_prefix(bests, n).0,
                        i,
                    ) <==> matched_within(bests, n, i)) by {
                        if matched_within(bests, n - 1, i) {
                            let k = choose|k: int| 0 <= k < n - 1 && counts_for(#[trigger] bests[k], i);
                            assert(counts_for(bests[k], i));
                        }
                    }
                }
            },
            None => {
                assert forall|i: u64| i < 64 implies (#[trigger] bit_set(
                    tally_prefix(bests, n).0,
                    i,
                ) <==> matched_within(bests, n, i)) by {
                    if matched_within(bests, n - 1, i) {
                        let k = choose|k: int| 0 <= k < n - 1 && counts_for(#[trigger] bests[k], i);
                        assert(counts_for(bests[k], i));
                    }
                }
            },
        }
    }
}

/// A roster slot is marked present exactly when some recognised nickname has
/// it as its candidate within `MAX_MATCH_DISTANCE`; the top-15 mask marks only
/// players marked present, and stays empty when fewer than fifteen matched;
/// no more players match than nicknames were recognised.
pub proof fn law_attendance_marks_matches(bests: Seq<Option<(usize, usize)>>)
    requires
        forall|k: int| 0 <= k < bests.len() ==> #[trigger] candidate_fits(bests[k]),
    ensures
        forall|i: u64|
            i < 64 ==> (#[trigger] bit_set(tally(bests).0, i) <==> matched_within(
                bests,
                bests.len() as int,
                i,
            )),
        tally(bests).1 & tally(bests).0 == tally(bests).1,
        tally(bests).2 < 15 ==> tally(bests).1 == 0,
        tally(bests).2 <= bests.len(),
{
    lemma_tally_prefix(bests, bests.len() as int);
}

/// The candidate chosen for a nickname is an active slot, at its distance, and
/// no active slot is closer; no earlier slot is as close.
pub proof fn law_best_is_first_closest(ds: Seq<Option<usize>>)
    requires
        ds.len() <= usize::MAX,
    ensures
        best(ds) is None <==> forall|j: int| 0 <= j < ds.len() ==> #[trigger] ds[j] is None,
        best(ds) matches Some((i, d)) ==> {
            &&& i < ds.len()
            &&& ds[i as int] == Some(d)
            &&& forall|j: int| 0 <= j < ds.len() ==> (#[trigger] ds[j] matches Some(e) ==> d <= e)
            &&& forall|j: int| 0 <= j < i ==> (#[trigger] ds[j] matches Some(e) ==> d < e)
        },
{
    lemma_best_prefix(ds, ds.len() as int);
}

proof fn lemma_best_prefix(ds: Seq<Option<usize>>, n: int)
    requires
        0 <= n <= ds.len(),
        ds.len() <= usize::MAX,
    ensures
        best_prefix(ds, n) is None <==> forall|j: int| 0 <= j < n ==> #[trigger] ds[j] is None,
        best_prefix(ds, n) matches Some((i, d)) ==> {
            &&& i < n
            &&& ds[i as int] == Some(d)
            &&& forall|j: int| 0 <= j < n ==> (#[trigger] ds[j] matches Some(e) ==> d <= e)
            &&& forall|j: int| 0 <= j < i ==> (#[trigger] ds[j] matches Some(e) ==> d < e)
        },
    decreases n,
{
    if n > 0 {
        lemma_best_prefix(ds, n - 1);
        let earlier = best_prefix(ds, n - 1);
        match ds[n - 1] {
            None => {},
            Some(d) => {
                match earlier {
                    None => {
                        assert forall|j: int| 0 <= j < n - 1 implies #[trigger] ds[j] is None by {}
                    },
                    Some((i, e)) => {
                        if d < e {
                            assert forall|j: int|
                                0 <= j < n - 1 implies (#[trigger] ds[j] matches Some(f) ==> d < f) by {
                                if let Some(f) = ds[j] {
                                    assert(e <= f);
                                }
                            }
                        }
                    },
                }
            },
        }
    }
}

/// The bits candidate `b` adds to the attendance mask.
spec fn mark_of(b: Option<(usize, usize)>) -> u64 {
    match b {
        Some((i, d)) => if d <= MAX_MATCH_DISTANCE {
            1u64 << (i as u64)
        } else {
            0u64
        },
        None => 0u64,
    }
}

/// What candidate `b` adds to the number of matches.
spec fn match_of(b: Option<(usize, usize)>) -> nat {
    match b {
        Some((i, d)) => if d <= MAX_MATCH_DISTANCE {
            1nat
        } else {
            0nat
        },
        None => 0nat,
    }
}

proof fn lemma_tally_prefix_agree(s: Seq<Option<(usize, usize)>>, t: Seq<Option<(usize, usize)>>, n: int)
    requires
        0 <= n <= s.len(),
        n <= t.len(),
        forall|k: int| 0 <= k < n ==> s[k] == t[k],
    ensures
        tally_prefix(s, n) == tally_prefix(t, n),
    decreases n,
{
    if n > 0 {
        lemma_tally_prefix_agree(s, t, n - 1);
        assert(s[n - 1] == t[n - 1]);
    }
}

proof fn lemma_tally_last(s: Seq<Option<(usize, usize)>>)
    requires
        s.len() > 0,
    ensures
        tally(s).0 == tally(s.drop_last()).0 | mark_of(s.last()),
        tally(s).2 == tally(s.drop_last()).2 + match_of(s.last()),
{
    let n = s.len() as int;
    lemma_tally_prefix_agree(s, s.drop_last(), n - 1);
    let a = tally(s.drop_last()).0;
    assert(a | 0u64 == a) by (bit_vector);
}

proof fn lemma_tally_remove(s: Seq<Option<(usize, usize)>>, j: int)
    requires
        0 <= j < s.len(),
    ensures
        tally(s).0 == tally(s.remove(j)).0 | mark_of(s[j]),
        tally(s).2 == tally(s.remove(j)).2 + match_of(s[j]),
    decreases s.len(),
{
    let n = s.len() as int;
    let r = s.remove(j);
    lemma_tally_last(s);
    if j == n - 1 {
        assert(r =~= s.drop_last());
    } else {
        let d = s.drop_last();
        lemma_tally_remove(d, j);
        lemma_tally_last(r);
        assert(r.drop_last() =~= d.remove(j));
        assert(r.last() == s.last());
        let x = tally(d.remove(j)).0;
        let a = mark_of(s.last());
        let b = mark_of(s[j]);
        assert((x | b) | a == (x | a) | b) by (bit_vector);
    }
}

/// The attendance mask and the number of matches do not depend on the order
/// in which the nicknames were recognised: any reordering of the recognised
/// nicknames gives the same two (only the top-15 mask depends on the order).
pub proof fn law_row_order(names: Seq<Seq<char>>, reordered: Seq<Seq<char>>, roster: Seq<MemberView>)
    requires
        reordered.to_multiset() == names.to_multiset(),
    ensures
        tally(candidates(reordered, roster)).0 == tally(candidates(names, roster)).0,
        tally(candidates(reordered, roster)).2 == tally(candidates(names, roster)).2,
    decreases names.len(),
{
    broadcast use vstd::seq_lib::group_to_multiset_ensures;

    let cs = candidates(names, roster);
    let ct = candidates(reordered, roster);
    vstd::seq_lib::to_multiset_len(names);
    vstd::seq_lib::to_multiset_len(reordered);
    if names.len() > 0 {
        let x = names.last();
        assert(names.contains(x)) by {
            assert(names[names.len() - 1] == x);
        }
        assert(names.to_multiset().count(x) > 0);
        assert(reordered.contains(x));
        let j = choose|j: int| 0 <= j < reordered.len() && reordered[j] == x;
        let rest = names.drop_last();
        let others = reordered.remove(j);
        assert(rest =~= names.remove(names.len() - 1));
        assert(rest.to_multiset() == names.to_multiset().remove(x));
        assert(others.to_multiset() == reordered.to_multiset().remove(x));
        law_row_order(rest, others, roster);
        lemma_tally_last(cs);
        assert(cs.drop_last() =~= candidates(rest, roster));
        lemma_tally_remove(ct, j);
        assert(ct.remove(j) =~= candidates(others, roster));
        assert(ct[j] == cs.last());
    } else {
        assert(cs =~= ct);
    }
}

} // verus!
