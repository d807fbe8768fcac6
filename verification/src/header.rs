//! The roster file: `MAX_MEMBERS` fixed-size slots, each an activity byte
//! followed by the zero-padded UTF-8 nickname and Discord name.

use vstd::prelude::*;
use crate::config::{DISCORD_LEN_BYTES, MAX_MEMBERS, NICK_LEN_BYTES};
use crate::mem::{fill_fixed_vec, fixed_field};
use crate::text::{
    decode_text_field, lemma_encode_nuls, lemma_encode_utf8_concat, lemma_trim_padded,
    no_edge_nul, nuls, push_decimal, push_str, text_of, trim_matches,
};
use crate::types::{empty_member, Member, MemberView};

verus! {

broadcast use vstd::utf8::group_utf8_lib;

/// Bytes of one roster slot.
pub const SLOT_SIZE: usize = 1 + NICK_LEN_BYTES + DISCORD_LEN_BYTES;

/// Bytes of the whole roster file.
pub const HEADER_SIZE: usize = MAX_MEMBERS * SLOT_SIZE;

proof fn lemma_sizes()
    ensures
        NICK_LEN_BYTES == 32,
        DISCORD_LEN_BYTES == 64,
        SLOT_SIZE == 97,
        HEADER_SIZE == 3395,
        MAX_MEMBERS == 35,
{
}

/// The views of a sequence of members.
pub open spec fn member_views(members: Seq<Member>) -> Seq<MemberView> {
    members.map_values(|m: Member| m@)
}

/// The stored form of one roster slot.
pub open spec fn slot_bytes(m: MemberView) -> Seq<u8> {
    seq![if m.is_active { 1u8 } else { 0u8 }] + fixed_field(
        vstd::utf8::encode_utf8(m.nick),
        NICK_LEN_BYTES as nat,
    ) + fixed_field(vstd::utf8::encode_utf8(m.discord), DISCORD_LEN_BYTES as nat)
}

/// Slot `i` of a roster given as a sequence: the member there, or a free slot
/// past its end.
pub open spec fn slot(members: Seq<MemberView>, i: int) -> MemberView {
    if i < members.len() {
        members[i]
    } else {
        empty_member()
    }
}

/// The stored form of the first `count` slots of `members`.
pub open spec fn slots_bytes(members: Seq<MemberView>, count: nat) -> Seq<u8>
    decreases count,
{
    if count == 0 {
        Seq::empty()
    } else {
        slots_bytes(members, (count - 1) as nat) + slot_bytes(slot(members, count - 1))
    }
}

/// The stored form of a roster: its first `MAX_MEMBERS` slots, free slots
/// filling up the rest.
pub open spec fn header_bytes(members: Seq<MemberView>) -> Seq<u8> {
    slots_bytes(members, MAX_MEMBERS as nat)
}

/// The slot that the `SLOT_SIZE` bytes `record` hold: active when the first
/// byte is 1, the texts decoded and stripped of NUL padding.
pub open spec fn slot_of(record: Seq<u8>) -> MemberView {
    MemberView {
        is_active: record[0] == 1,
        nick: trim_matches(text_of(record.subrange(1, 1 + NICK_LEN_BYTES)), '\0'),
        discord: trim_matches(text_of(record.subrange(1 + NICK_LEN_BYTES, SLOT_SIZE as int)), '\0'),
    }
}

/// Whether a member survives a write and a read of the roster file unchanged:
/// both texts fit their fields and neither starts or ends with NUL.
pub open spec fn storable(m: MemberView) -> bool {
    &&& vstd::utf8::encode_utf8(m.nick).len() <= NICK_LEN_BYTES
    &&& vstd::utf8::encode_utf8(m.discord).len() <= DISCORD_LEN_BYTES
    &&& no_edge_nul(m.nick)
    &&& no_edge_nul(m.discord)
}

proof fn lemma_slots_bytes_len(members: Seq<MemberView>, count: nat)
    ensures
        slots_bytes(members, count).len() == SLOT_SIZE * count,
    decreases count,
{
    lemma_sizes();
    if count > 0 {
        lemma_slots_bytes_len(members, (count - 1) as nat);
    }
}

proof fn lemma_slots_bytes_slot(members: Seq<MemberView>, count: nat, i: int)
    requires
        0 <= i < count,
    ensures
        slots_bytes(members, count).subrange(SLOT_SIZE * i, SLOT_SIZE * i + SLOT_SIZE)
            == slot_bytes(slot(members, i)),
    decreases count,
{
    lemma_sizes();
    lemma_slots_bytes_len(members, (count - 1) as nat);
    let prev = slots_bytes(members, (count - 1) as nat);
    let all = slots_bytes(members, count);
    if i == count - 1 {
        assert(all.subrange(SLOT_SIZE * i, SLOT_SIZE * i + SLOT_SIZE) =~= slot_bytes(
            slot(members, i),
        ));
    } else {
        lemma_slots_bytes_slot(members, (count - 1) as nat, i);
        assert(all.subrange(SLOT_SIZE * i, SLOT_SIZE * i + SLOT_SIZE) =~= prev.subrange(
            SLOT_SIZE * i,
            SLOT_SIZE * i + SLOT_SIZE,
        ));
    }
}

fn zeros(count: usize) -> (v: Vec<u8>)
    ensures
        v@ == fixed_field(Seq::empty(), count as nat),
{
    let mut v: Vec<u8> = Vec::new();
    let mut k: usize = 0;
    while k < count
        invariant
            k <= count,
            v@ == fixed_field(Seq::empty(), k as nat),
        decreases count - k,
    {
        v.push(0u8);
        k = k + 1;
        assert(v@ =~= fixed_field(Seq::empty(), k as nat));
    }
    v
}

/// The contents of the roster file for `members`: one slot per member up to
/// `MAX_MEMBERS`, free slots after the last member.
pub fn encode_header(members: &[Member]) -> (bytes: Vec<u8>)
    ensures
        bytes@ == header_bytes(member_views(members@)),
{
    let ghost views = member_views(members@);
    let mut bytes: Vec<u8> = Vec::new();
    let mut i: usize = 0;
    while i < MAX_MEMBERS
        invariant
            i <= MAX_MEMBERS,
            views == member_views(members@),
            bytes@ == slots_bytes(views, i as nat),
        decreases MAX_MEMBERS - i,
    {
        let ghost before = bytes@;
        if i < members.len() {
            let m = &members[i];
            bytes.push(if m.is_active { 1u8 } else { 0u8 });
            let mut nick = fill_fixed_vec(m.nick.as_str(), NICK_LEN_BYTES);
            bytes.append(&mut nick);
            let mut discord = fill_fixed_vec(m.discord.as_str(), DISCORD_LEN_BYTES);
            bytes.append(&mut discord);
            assert(slot(views, i as int) == m@);
        } else {
            bytes.push(0u8);
            let mut nick = zeros(NICK_LEN_BYTES);
            bytes.append(&mut nick);
            let mut discord = zeros(DISCORD_LEN_BYTES);
            bytes.append(&mut discord);
            assert(vstd::utf8::encode_utf8(Seq::<char>::empty()) =~= Seq::<u8>::empty());
        }
        assert(bytes@ =~= before + slot_bytes(slot(views, i as int)));
        i = i + 1;
    }
    bytes
}

/// Why a roster file could not be read.
#[derive(Clone, Copy, PartialEq, Eq, Structural)]
pub enum HeaderError {
    /// The file holds fewer bytes than the roster needs.
    TooShort { expected: usize, found: usize },
}

impl HeaderError {
    /// The message shown to the user.
    pub fn message(&self) -> (text: String)
        ensures
            text@ == (match *self {
                HeaderError::TooShort { expected, found } => "Файл базы данных слишком короткий: ожидалось "@
                    + crate::text::decimal(expected as nat) + " байт, найдено "@
                    + crate::text::decimal(found as nat),
            }),
    {
        match *self {
            HeaderError::TooShort { expected, found } => {
                let mut text = String::from_str("Файл базы данных слишком короткий: ожидалось ");
                push_decimal(&mut text, expected as u64);
                push_str(&mut text, " байт, найдено ");
                push_decimal(&mut text, found as u64);
                text
            },
        }
    }
}

/// The roster held in the contents of a roster file: `MAX_MEMBERS` slots read
/// from its first `HEADER_SIZE` bytes; an error when it is shorter than that.
pub fn decode_header(bytes: &[u8]) -> (res: Result<Vec<Member>, HeaderError>)
    ensures
        res is Err <==> bytes@.len() < HEADER_SIZE,
        res matches Err(e) ==> e == (HeaderError::TooShort {
            expected: HEADER_SIZE,
            found: bytes@.len() as usize,
        }),
        res matches Ok(members) ==> {
            &&& members@.len() == MAX_MEMBERS
            &&& forall|i: int|
                0 <= i < MAX_MEMBERS ==> #[trigger] members@[i]@ == slot_of(
                    bytes@.subrange(SLOT_SIZE * i, SLOT_SIZE * i + SLOT_SIZE),
                )
        },
{
    proof {
        lemma_sizes();
    }
    let n = bytes.len();
    if n < HEADER_SIZE {
        return Err(HeaderError::TooShort { expected: HEADER_SIZE, found: n });
    }
    let mut members: Vec<Member> = Vec::new();
    let mut i: usize = 0;
    while i < MAX_MEMBERS
        invariant
            i <= MAX_MEMBERS,
            n == bytes@.len(),
            HEADER_SIZE <= n,
            members@.len() == i,
            forall|k: int|
                0 <= k < i ==> #[trigger] members@[k]@ == slot_of(
                    bytes@.subrange(SLOT_SIZE * k, SLOT_SIZE * k + SLOT_SIZE),
                ),
        decreases MAX_MEMBERS - i,
    {
        proof {
            lemma_sizes();
        }
        let start = i * SLOT_SIZE;
        let record = &bytes[start..start + SLOT_SIZE];
        let nick = decode_text_field(&record[1..1 + NICK_LEN_BYTES]);
        let discord = decode_text_field(&record[1 + NICK_LEN_BYTES..SLOT_SIZE]);
        let member = Member { is_active: record[0] == 1, nick, discord };
        proof {
            let r = bytes@.subrange(start as int, start + SLOT_SIZE);
            assert(record@ == r);
            assert(record@.subrange(1, 1 + NICK_LEN_BYTES) =~= r.subrange(1, 1 + NICK_LEN_BYTES));
            assert(record@.subrange(1 + NICK_LEN_BYTES, SLOT_SIZE as int) =~= r.subrange(
                1 + NICK_LEN_BYTES,
                SLOT_SIZE as int,
            ));
        }
        members.push(member);
        i = i + 1;
    }
    Ok(members)
}

/// A roster where every slot is free, as used when no roster file exists yet.
pub fn empty_roster() -> (members: Vec<Member>)
    ensures
        members@.len() == MAX_MEMBERS,
        forall|i: int| 0 <= i < MAX_MEMBERS ==> #[trigger] members@[i]@ == empty_member(),
{
    let mut members: Vec<Member> = Vec::new();
    let mut i: usize = 0;
    while i < MAX_MEMBERS
        invariant
            i <= MAX_MEMBERS,
            members@.len() == i,
            forall|k: int| 0 <= k < i ==> #[trigger] members@[k]@ == empty_member(),
        decreases MAX_MEMBERS - i,
    {
        members.push(Member::empty());
        i = i + 1;
    }
    members
}

proof fn lemma_field_roundtrip(text: Seq<char>, size: nat)
    requires
        vstd::utf8::encode_utf8(text).len() <= size,
        no_edge_nul(text),
    ensures
        trim_matches(text_of(fixed_field(vstd::utf8::encode_utf8(text), size)), '\0') == text,
{
    let enc = vstd::utf8::encode_utf8(text);
    let pad = (size - enc.len()) as nat;
    lemma_encode_utf8_concat(text, nuls(pad));
    lemma_encode_nuls(pad);
    assert(fixed_field(enc, size) =~= vstd::utf8::encode_utf8(text + nuls(pad)));
    lemma_trim_padded(text, pad);
}

/// Reading back a written roster file gives every member written, in its
/// slot, and free slots after the last one, for rosters of at most
/// `MAX_MEMBERS` members whose texts fit their fields and carry no NUL
/// characters at their ends.
pub proof fn law_header_roundtrip(members: Seq<MemberView>)
    requires
        members.len() <= MAX_MEMBERS,
        forall|i: int| 0 <= i < members.len() ==> storable(#[trigger] members[i]),
    ensures
        header_bytes(members).len() == HEADER_SIZE,
        forall|i: int|
            0 <= i < MAX_MEMBERS ==> #[trigger] slot_of(
                header_bytes(members).subrange(SLOT_SIZE * i, SLOT_SIZE * i + SLOT_SIZE),
            ) == slot(members, i),
{
    lemma_sizes();
    lemma_slots_bytes_len(members, MAX_MEMBERS as nat);
    assert forall|i: int| 0 <= i < MAX_MEMBERS implies #[trigger] slot_of(
        header_bytes(members).subrange(SLOT_SIZE * i, SLOT_SIZE * i + SLOT_SIZE),
    ) == slot(members, i) by {
        lemma_slots_bytes_slot(members, MAX_MEMBERS as nat, i);
        let m = slot(members, i);
        let rec = slot_bytes(m);
        assert(vstd::utf8::encode_utf8(Seq::<char>::empty()) =~= Seq::<u8>::empty());
        lemma_field_roundtrip(m.nick, NICK_LEN_BYTES as nat);
        lemma_field_roundtrip(m.discord, DISCORD_LEN_BYTES as nat);
        assert(rec.subrange(1, 1 + NICK_LEN_BYTES) =~= fixed_field(
            vstd::utf8::encode_utf8(m.nick),
            NICK_LEN_BYTES as nat,
        ));
        assert(rec.subrange(1 + NICK_LEN_BYTES, SLOT_SIZE as int) =~= fixed_field(
            vstd::utf8::encode_utf8(m.discord),
            DISCORD_LEN_BYTES as nat,
        ));
    }
}

} // verus!
