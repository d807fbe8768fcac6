//! The decisions behind the terminal screens: which roster slots are listed
//! and how, what an answer changes, how the parties table is cleaned, and
//! the texts shown.

use vstd::prelude::*;
use crate::members::roster_views;
use crate::text::{
    chars_of, count_chars, decimal, lowercase, push_decimal, push_str, string_of_chars, to_lowercase, trim,
    trimmed,
};
use crate::display::draft_text;
use crate::types::{ActiveData, AppContext, CWDraft, Member, MemberView};

verus! {

/// The indices of the active slots of `roster`, in order.
pub open spec fn active_indices(roster: Seq<MemberView>) -> Seq<usize>
    decreases roster.len(),
{
    if roster.len() == 0 {
        Seq::empty()
    } else if roster.last().is_active {
        active_indices(roster.drop_last()).push((roster.len() - 1) as usize)
    } else {
        active_indices(roster.drop_last())
    }
}

/// The indices of the active roster slots, in order.
pub fn active_slots(members: &Vec<Member>) -> (indices: Vec<usize>)
    ensures
        indices@ == active_indices(roster_views(members@)),
{
    let ghost roster = roster_views(members@);
    let mut indices: Vec<usize> = Vec::new();
    let mut i: usize = 0;
    while i < members.len()
        invariant
            i <= members@.len(),
            roster == roster_views(members@),
            indices@ == active_indices(roster.take(i as int)),
        decreases members@.len() - i,
    {
        assert(roster.take(i + 1).drop_last() =~= roster.take(i as int));
        if members[i].is_active {
            indices.push(i);
        }
        i = i + 1;
    }
    assert(roster.take(members@.len() as int) =~= roster);
    indices
}

/// How a roster slot is listed for editing: nickname, a dash, Discord name.
pub open spec fn member_label(m: MemberView) -> Seq<char> {
    m.nick + " — "@ + m.discord
}

/// The labels of the slots `indices`, in that order.
pub fn member_labels(members: &Vec<Member>, indices: &Vec<usize>) -> (labels: Vec<String>)
    requires
        forall|k: int| 0 <= k < indices@.len() ==> #[trigger] indices@[k] < members@.len(),
    ensures
        labels@.len() == indices@.len(),
        forall|k: int|
            0 <= k < indices@.len() ==> #[trigger] labels@[k]@ == member_label(
                members@[indices@[k] as int]@,
            ),
{
    let mut labels: Vec<String> = Vec::new();
    let mut k: usize = 0;
    while k < indices.len()
        invariant
            k <= indices@.len(),
            forall|q: int| 0 <= q < indices@.len() ==> #[trigger] indices@[q] < members@.len(),
            labels@.len() == k,
            forall|q: int|
                0 <= q < k ==> #[trigger] labels@[q]@ == member_label(members@[indices@[q] as int]@),
        decreases indices@.len() - k,
    {
        let m = &members[indices[k]];
        let mut label = String::new();
        push_str(&mut label, m.nick.as_str());
        push_str(&mut label, " — ");
        push_str(&mut label, m.discord.as_str());
        labels.push(label);
        k = k + 1;
    }
    labels
}

/// Sets the Discord name of slot `index` to the trimmed answer, unless that
/// is empty; returns whether it changed.
pub fn set_discord(members: &mut Vec<Member>, index: usize, answer: &str) -> (changed: bool)
    requires
        index < old(members)@.len(),
    ensures
        changed == (trimmed(answer@).len() > 0),
        final(members)@.len() == old(members)@.len(),
        forall|i: int|
            0 <= i < old(members)@.len() && i != index ==> #[trigger] final(members)@[i]@ == old(
                members,
            )@[i]@,
        changed ==> final(members)@[index as int]@ == (MemberView {
            discord: trimmed(answer@),
            ..old(members)@[index as int]@
        }),
        !changed ==> final(members)@[index as int]@ == old(members)@[index as int]@,
{
    let new_discord = trim(answer);
    if new_discord.is_empty() {
        return false;
    }
    let mut discord = String::new();
    push_str(&mut discord, new_discord);
    assert(discord@ =~= trimmed(answer@));
    let m = Member {
        is_active: members[index].is_active,
        nick: members[index].nick.clone(),
        discord,
    };
    members.set(index, m);
    true
}

/// Whether a slot is asked for its Discord name: it is active and has none.
pub fn wants_discord(m: &Member) -> (b: bool)
    ensures
        b == (m.is_active && m@.discord.len() == 0),
{
    m.is_active && m.discord.as_str().is_empty()
}

/// Takes an answer line for a slot's Discord name: when the line, trimmed,
/// has at least two characters it becomes the Discord name; a shorter answer
/// skips the slot.
pub fn apply_discord_line(m: &mut Member, line: &str)
    ensures
        trimmed(line@).len() >= 2 ==> final(m)@ == (MemberView { discord: trimmed(line@), ..old(m)@ }),
        trimmed(line@).len() < 2 ==> final(m)@ == old(m)@,
{
    let mut discord = String::new();
    push_str(&mut discord, trim(line));
    assert(discord@ =~= trimmed(line@));
    if count_chars(&discord) >= 2 {
        m.discord = discord;
    }
}

/// The nicknames of slots whose bit is set in `mask`, in slot order.
pub open spec fn present_nicks_spec(roster: Seq<MemberView>, mask: u64) -> Seq<Seq<char>>
    decreases roster.len(),
{
    if roster.len() == 0 {
        Seq::empty()
    } else if (mask >> ((roster.len() - 1) as u64)) & 1 == 1 {
        present_nicks_spec(roster.drop_last(), mask).push(roster.last().nick)
    } else {
        present_nicks_spec(roster.drop_last(), mask)
    }
}

/// The nicknames of the slots whose bit is set in `mask`, in slot order.
pub fn present_nicks(members: &Vec<Member>, mask: u64) -> (nicks: Vec<String>)
    requires
        members@.len() <= 64,
    ensures
        nicks@.map_values(|s: String| s@) == present_nicks_spec(roster_views(members@), mask),
{
    let ghost roster = roster_views(members@);
    let mut nicks: Vec<String> = Vec::new();
    let mut i: usize = 0;
    while i < members.len()
        invariant
            i <= members@.len() <= 64,
            roster == roster_views(members@),
            nicks@.map_values(|s: String| s@) == present_nicks_spec(roster.take(i as int), mask),
        decreases members@.len() - i,
    {
        assert(roster.take(i + 1).drop_last() =~= roster.take(i as int));
        if (mask >> (i as u64)) & 1 == 1 {
            nicks.push(members[i].nick.clone());
            assert(nicks@.map_values(|s: String| s@) =~= present_nicks_spec(
                roster.take(i as int),
                mask,
            ).push(roster[i as int].nick));
        }
        i = i + 1;
    }
    assert(roster.take(members@.len() as int) =~= roster);
    nicks
}

/// The text of a desktop notification about a recognised screenshot: success,
/// success with the confidence when it is below 100, or the error.
pub open spec fn notification_text(outcome: Result<u8, Seq<char>>) -> Seq<char> {
    match outcome {
        Ok(c) => if c == 100 {
            "Черновик КВ успешно сохранён"@
        } else {
            "Черновик сохранён.\nТочность: "@ + decimal(c as nat) + "%"@
        },
        Err(e) => "Ошибка сохранения: "@ + e,
    }
}

/// The text of the desktop notification about a recognised screenshot.
pub fn notification_body(outcome: &Result<u8, String>) -> (body: String)
    ensures
        body@ == notification_text(
            match outcome {
                Ok(c) => Ok(*c),
                Err(e) => Err(e@),
            },
        ),
{
    match outcome {
        Ok(c) => {
            if *c == 100 {
                String::from_str("Черновик КВ успешно сохранён")
            } else {
                let mut body = String::from_str("Черновик сохранён.\nТочность: ");
                push_decimal(&mut body, *c as u64);
                push_str(&mut body, "%");
                body
            }
        },
        Err(e) => {
            let mut body = String::from_str("Ошибка сохранения: ");
            push_str(&mut body, e.as_str());
            body
        },
    }
}

/// The screenshot path an answer asks for: the default when the answer is
/// blank, else the path entered, without surrounding white space.
pub fn screenshot_target(answer: &str, default: &str) -> (path: String)
    ensures
        trimmed(answer@).len() == 0 ==> path@ == default@,
        trimmed(answer@).len() != 0 ==> path@ == trimmed(answer@),
{
    let entered = trim(answer);
    if entered.is_empty() {
        String::from_str(default)
    } else {
        String::from_str(entered)
    }
}

/// The first line of `text`: what precedes its first line feed, without a
/// carriage return right before it, or all of it when it has no line feed.
pub open spec fn first_line(text: Seq<char>) -> Seq<char>
    decreases text.len(),
{
    if text.len() == 0 {
        Seq::empty()
    } else if text[0] == '\n' {
        Seq::empty()
    } else if text[0] == '\r' && text.len() > 1 && text[1] == '\n' {
        Seq::empty()
    } else {
        seq![text[0]] + first_line(text.drop_first())
    }
}

/// The nickname in the text recognised on a row: its first line, trimmed.
pub fn recognised_nick(text: &str) -> (nick: String)
    ensures
        nick@ == trimmed(first_line(text@)),
{
    let chars = chars_of(text);
    let n = chars.len();
    let mut end: usize = 0;
    assert(chars@.skip(0) =~= chars@);
    assert(chars@.subrange(0, 0) + first_line(chars@) =~= first_line(chars@));
    while end < n && chars[end] != '\n' && !(chars[end] == '\r' && end + 1 < n && chars[end + 1] == '\n')
        invariant
            end <= n,
            n == chars@.len(),
            chars@ == text@,
            first_line(text@) == chars@.subrange(0, end as int) + first_line(chars@.skip(end as int)),
        decreases n - end,
    {
        assert(chars@.skip(end as int).drop_first() =~= chars@.skip(end + 1));
        assert(chars@.subrange(0, end + 1) =~= chars@.subrange(0, end as int) + seq![chars@[end as int]]);
        end = end + 1;
    }
    proof {
        if end < n {
            assert(chars@.skip(end as int)[0] == chars@[end as int]);
            if chars@[end as int] != '\n' {
                assert(chars@.skip(end as int)[1] == chars@[end + 1]);
            }
        }
        assert(first_line(chars@.skip(end as int)) =~= Seq::<char>::empty());
        assert(chars@.subrange(0, end as int) + Seq::<char>::empty() =~= chars@.subrange(0, end as int));
    }
    let mut line_chars: Vec<char> = Vec::new();
    let mut k: usize = 0;
    while k < end
        invariant
            k <= end <= n,
            n == chars@.len(),
            line_chars@ == chars@.subrange(0, k as int),
        decreases end - k,
    {
        line_chars.push(chars[k]);
        k = k + 1;
        assert(line_chars@ =~= chars@.subrange(0, k as int));
    }
    let line = string_of_chars(&line_chars);
    let mut nick = String::new();
    push_str(&mut nick, trim(line.as_str()));
    assert(nick@ =~= trimmed(first_line(text@)));
    nick
}

/// Opens draft number `pick` (from 1) of `drafts` for the draft menu.
pub fn select_draft(ctx: &mut AppContext, drafts: Vec<CWDraft>, pick: usize)
    requires
        1 <= pick,
    ensures
        final(ctx).current_idx == pick - 1,
        final(ctx).data == ActiveData::Drafts(drafts),
{
    ctx.current_idx = pick - 1;
    ctx.data = ActiveData::Drafts(drafts);
}

/// The description of the open draft, when drafts are open.
pub fn current_draft_text(ctx: &AppContext) -> (text: Option<String>)
    requires
        ctx.data matches ActiveData::Drafts(d) ==> ctx.current_idx < d@.len(),
    ensures
        ctx.data matches ActiveData::Drafts(d) ==> text matches Some(t) && t@ == draft_text(
            d@[ctx.current_idx as int],
        ),
        !(ctx.data is Drafts) ==> text is None,
{
    match &ctx.data {
        ActiveData::Drafts(d) => Some(d[ctx.current_idx].to_text()),
        _ => None,
    }
}

} // verus!
