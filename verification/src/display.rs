//! How drafts are shown to the user.

use vstd::prelude::*;
use crate::config::MAX_MEMBERS;
use crate::text::{
    binary, decode_text_field, pad_left, push_binary_padded, push_signed_decimal, push_str,
    signed_decimal, string_from_utf8_lossy, text_of, trim_matches, utf8_lossy,
};
use crate::types::CWDraft;

verus! {

/// The text of a zero-padded field as shown in a draft's description.
pub open spec fn field_text(bytes: Seq<u8>) -> Seq<char> {
    trim_matches(text_of(bytes), '\0')
}

/// A mask as shown to the user: binary, padded with zeros to one digit per roster slot.
pub open spec fn mask_text(mask: u64) -> Seq<char> {
    pad_left(binary(mask as nat), MAX_MEMBERS as nat, '0')
}

/// The description of a draft: its name, timestamp, the four masks and its file name.
pub open spec fn draft_text(d: CWDraft) -> Seq<char> {
    "Черновик: "@ + field_text(d.name@) + "\nТаймштамп: "@ + signed_decimal(d.timestamp as int)
        + "\nЛюди в запасе: "@ + mask_text(d.reserve) + "\nТоп 15: "@ + mask_text(d.top15)
        + "\nПолучившие расходники: "@ + mask_text(d.supply) + "\nПосещаемость: "@ + mask_text(
        d.attendance,
    ) + "\nИмя файла: "@ + field_text(d.file_name@) + "\n"@
}

/// The bytes of `name` before its first zero byte.
pub open spec fn before_nul(name: Seq<u8>) -> Seq<u8>
    decreases name.len(),
{
    if name.len() == 0 {
        name
    } else if name[0] == 0 {
        Seq::empty()
    } else {
        seq![name[0]] + before_nul(name.drop_first())
    }
}

impl CWDraft {
    /// The description of the draft shown when it is opened.
    pub fn to_text(&self) -> (text: String)
        ensures
            text@ == draft_text(*self),
    {
        let mut text = String::new();
        push_str(&mut text, "Черновик: ");
        let name = decode_text_field(&self.name);
        push_str(&mut text, name.as_str());
        push_str(&mut text, "\nТаймштамп: ");
        push_signed_decimal(&mut text, self.timestamp);
        push_str(&mut text, "\nЛюди в запасе: ");
        push_binary_padded(&mut text, self.reserve, MAX_MEMBERS);
        push_str(&mut text, "\nТоп 15: ");
        push_binary_padded(&mut text, self.top15, MAX_MEMBERS);
        push_str(&mut text, "\nПолучившие расходники: ");
        push_binary_padded(&mut text, self.supply, MAX_MEMBERS);
        push_str(&mut text, "\nПосещаемость: ");
        push_binary_padded(&mut text, self.attendance, MAX_MEMBERS);
        push_str(&mut text, "\nИмя файла: ");
        let file_name = decode_text_field(&self.file_name);
        push_str(&mut text, file_name.as_str());
        push_str(&mut text, "\n");
        text
    }

    /// The name the drafts list shows: the name field up to its first zero
    /// byte, decoded.
    pub fn label(&self) -> (label: String)
        ensures
            label@ == utf8_lossy(before_nul(self.name@)),
    {
        let mut end: usize = 0;
        while end < 64 && self.name[end] != 0
            invariant
                end <= 64,
                self.name@.len() == 64,
                forall|k: int| 0 <= k < end ==> self.name@[k] != 0,
            decreases 64 - end,
        {
            end = end + 1;
        }
        let part = &self.name[0..end];
        proof {
            lemma_before_nul(self.name@, end as int);
        }
        string_from_utf8_lossy(part)
    }
}

proof fn lemma_before_nul(name: Seq<u8>, end: int)
    requires
        0 <= end <= name.len(),
        forall|k: int| 0 <= k < end ==> name[k] != 0,
        end == name.len() || name[end] == 0,
    ensures
        before_nul(name) == name.subrange(0, end),
    decreases end,
{
    if end == 0 {
        assert(name.subrange(0, 0) =~= Seq::<u8>::empty());
    } else {
        lemma_before_nul(name.drop_first(), end - 1);
        assert(name.subrange(0, end) =~= seq![name[0]] + name.drop_first().subrange(0, end - 1));
    }
}

/// Each label of a draft's description is followed by its own field and
/// then by the next label: the description opens with "Черновик: " and the
/// name field, the timestamp in decimal follows "Таймштамп: ", each mask in
/// binary padded with zeros to one digit per roster slot follows its label
/// (the reserve mask "Люди в запасе: ", the top-15 mask "Топ 15: ", the supply
/// mask "Получившие расходники: ", the attendance mask "Посещаемость: "), and
/// the description closes with "Имя файла: ", the file-name field and a line
/// break.
#[verifier::rlimit(60)]
#[verifier::spinoff_prover]
pub proof fn law_draft_text_fields(d: CWDraft)
    ensures
        exists|q: Seq<char>|
            draft_text(d) == "Черновик: "@ + trim_matches(text_of(d.name@), '\0') + "\nТаймштамп: "@
                + q,
        exists|p: Seq<char>, q: Seq<char>|
            draft_text(d) == p + "\nТаймштамп: "@ + signed_decimal(d.timestamp as int)
                + "\nЛюди в запасе: "@ + q,
        exists|p: Seq<char>, q: Seq<char>|
            draft_text(d) == p + "\nЛюди в запасе: "@ + pad_left(binary(d.reserve as nat), 35, '0')
                + "\nТоп 15: "@ + q,
        exists|p: Seq<char>, q: Seq<char>|
            draft_text(d) == p + "\nТоп 15: "@ + pad_left(binary(d.top15 as nat), 35, '0')
                + "\nПолучившие расходники: "@ + q,
        exists|p: Seq<char>, q: Seq<char>|
            draft_text(d) == p + "\nПолучившие расходники: "@ + pad_left(binary(d.supply as nat), 35, '0')
                + "\nПосещаемость: "@ + q,
        exists|p: Seq<char>, q: Seq<char>|
            draft_text(d) == p + "\nПосещаемость: "@ + pad_left(binary(d.attendance as nat), 35, '0')
                + "\nИмя файла: "@ + q,
        exists|p: Seq<char>|
            draft_text(d) == p + "\nИмя файла: "@ + trim_matches(text_of(d.file_name@), '\0') + "\n"@,
{
    let (name, ts, file) = (field_text(d.name@), signed_decimal(d.timestamp as int), field_text(d.file_name@));
    let (r, t, s, a) = (mask_text(d.reserve), mask_text(d.top15), mask_text(d.supply), mask_text(d.attendance));
    let (l0, l1, l2, l3) = ("Черновик: "@, "\nТаймштамп: "@, "\nЛюди в запасе: "@, "\nТоп 15: "@);
    let (l4, l5, l6, nl) = ("\nПолучившие расходники: "@, "\nПосещаемость: "@, "\nИмя файла: "@, "\n"@);
    assert(draft_text(d) =~= l0 + name + l1 + (ts + l2 + r + l3 + t + l4 + s + l5 + a + l6 + file + nl));
    assert(draft_text(d) =~= (l0 + name) + l1 + ts + l2 + (r + l3 + t + l4 + s + l5 + a + l6 + file + nl));
    assert(draft_text(d) =~= (l0 + name + l1 + ts) + l2 + r + l3 + (t + l4 + s + l5 + a + l6 + file + nl));
    assert(draft_text(d) =~= (l0 + name + l1 + ts + l2 + r) + l3 + t + l4 + (s + l5 + a + l6 + file + nl));
    assert(draft_text(d) =~= (l0 + name + l1 + ts + l2 + r + l3 + t) + l4 + s + l5 + (a + l6 + file + nl));
    assert(draft_text(d) =~= (l0 + name + l1 + ts + l2 + r + l3 + t + l4 + s) + l5 + a + l6 + (file + nl));
    assert(draft_text(d) =~= (l0 + name + l1 + ts + l2 + r + l3 + t + l4 + s + l5 + a) + l6 + file + nl);
}

} // verus!
