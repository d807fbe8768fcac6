//! The binary files of clan-war records and drafts: fixed-size little-endian
//! records laid end to end, new ones appended at the end.

use vstd::prelude::*;
use crate::le_bytes::{
    i64_le_bytes, lemma_i64_bytes_roundtrip, lemma_i64_value_roundtrip, lemma_u64_bytes_roundtrip,
    lemma_u64_value_roundtrip, push_i64_le, push_u64_le, read_i64_le, read_u64_le, u64_le_bytes,
};
use crate::types::{CWDraft, CWRecord};

verus! {

broadcast use vstd::array::group_array_axioms;

/// Bytes of one clan-war record in the history file.
pub const RECORD_SIZE: usize = 32;

/// Bytes of one draft in the drafts file.
pub const DRAFT_SIZE: usize = 136;

/// The stored form of a record: timestamp, reserve, top 15 and supply masks.
pub open spec fn record_bytes(r: CWRecord) -> Seq<u8> {
    i64_le_bytes(r.timestamp) + u64_le_bytes(r.reserve) + u64_le_bytes(r.top15) + u64_le_bytes(
        r.supply,
    )
}

/// The stored form of a draft: timestamp, the four masks, then the name and
/// file-name fields.
pub open spec fn draft_bytes(d: CWDraft) -> Seq<u8> {
    i64_le_bytes(d.timestamp) + u64_le_bytes(d.reserve) + u64_le_bytes(d.top15) + u64_le_bytes(
        d.supply,
    ) + u64_le_bytes(d.attendance) + d.name@ + d.file_name@
}

/// The stored form of a sequence of drafts, in order.
pub open spec fn drafts_bytes(ds: Seq<CWDraft>) -> Seq<u8>
    decreases ds.len(),
{
    if ds.len() == 0 {
        Seq::empty()
    } else {
        drafts_bytes(ds.drop_last()) + draft_bytes(ds.last())
    }
}

/// The stored form of a sequence of records, in order.
pub open spec fn records_bytes(rs: Seq<CWRecord>) -> Seq<u8>
    decreases rs.len(),
{
    if rs.len() == 0 {
        Seq::empty()
    } else {
        records_bytes(rs.drop_last()) + record_bytes(rs.last())
    }
}

proof fn lemma_draft_bytes_len(d: CWDraft)
    ensures
        draft_bytes(d).len() == DRAFT_SIZE,
{
}

proof fn lemma_drafts_bytes_len(ds: Seq<CWDraft>)
    ensures
        drafts_bytes(ds).len() == DRAFT_SIZE * ds.len(),
    decreases ds.len(),
{
    if ds.len() > 0 {
        lemma_drafts_bytes_len(ds.drop_last());
        lemma_draft_bytes_len(ds.last());
    }
}

/// Two drafts with the same stored form are the same draft.
pub proof fn lemma_draft_bytes_injective(a: CWDraft, b: CWDraft)
    requires
        draft_bytes(a) == draft_bytes(b),
    ensures
        a == b,
{
    let (x, y) = (draft_bytes(a), draft_bytes(b));
    assert(x.subrange(0, 8) =~= i64_le_bytes(a.timestamp));
    assert(y.subrange(0, 8) =~= i64_le_bytes(b.timestamp));
    assert(x.subrange(8, 16) =~= u64_le_bytes(a.reserve));
    assert(y.subrange(8, 16) =~= u64_le_bytes(b.reserve));
    assert(x.subrange(16, 24) =~= u64_le_bytes(a.top15));
    assert(y.subrange(16, 24) =~= u64_le_bytes(b.top15));
    assert(x.subrange(24, 32) =~= u64_le_bytes(a.supply));
    assert(y.subrange(24, 32) =~= u64_le_bytes(b.supply));
    assert(x.subrange(32, 40) =~= u64_le_bytes(a.attendance));
    assert(y.subrange(32, 40) =~= u64_le_bytes(b.attendance));
    assert(x.subrange(40, 104) =~= a.name@);
    assert(y.subrange(40, 104) =~= b.name@);
    assert(x.subrange(104, 136) =~= a.file_name@);
    assert(y.subrange(104, 136) =~= b.file_name@);
    lemma_i64_bytes_roundtrip(a.timestamp);
    lemma_i64_bytes_roundtrip(b.timestamp);
    lemma_u64_bytes_roundtrip(a.reserve);
    lemma_u64_bytes_roundtrip(b.reserve);
    lemma_u64_bytes_roundtrip(a.top15);
    lemma_u64_bytes_roundtrip(b.top15);
    lemma_u64_bytes_roundtrip(a.supply);
    lemma_u64_bytes_roundtrip(b.supply);
    lemma_u64_bytes_roundtrip(a.attendance);
    lemma_u64_bytes_roundtrip(b.attendance);
    assert(a.timestamp == b.timestamp);
    assert(a.reserve == b.reserve);
    assert(a.attendance == b.attendance);
    assert(a.name@ =~= b.name@);
    assert(a.file_name@ =~= b.file_name@);
    assert(a.name == b.name);
    assert(a.file_name == b.file_name);
}

/// Two records with the same stored form are the same record.
pub proof fn lemma_record_bytes_injective(a: CWRecord, b: CWRecord)
    requires
        record_bytes(a) == record_bytes(b),
    ensures
        a == b,
{
    let (x, y) = (record_bytes(a), record_bytes(b));
    assert(x.subrange(0, 8) =~= i64_le_bytes(a.timestamp));
    assert(y.subrange(0, 8) =~= i64_le_bytes(b.timestamp));
    assert(x.subrange(8, 16) =~= u64_le_bytes(a.reserve));
    assert(y.subrange(8, 16) =~= u64_le_bytes(b.reserve));
    assert(x.subrange(16, 24) =~= u64_le_bytes(a.top15));
    assert(y.subrange(16, 24) =~= u64_le_bytes(b.top15));
    assert(x.subrange(24, 32) =~= u64_le_bytes(a.supply));
    assert(y.subrange(24, 32) =~= u64_le_bytes(b.supply));
    lemma_i64_bytes_roundtrip(a.timestamp);
    lemma_i64_bytes_roundtrip(b.timestamp);
    lemma_u64_bytes_roundtrip(a.reserve);
    lemma_u64_bytes_roundtrip(b.reserve);
    lemma_u64_bytes_roundtrip(a.top15);
    lemma_u64_bytes_roundtrip(b.top15);
    lemma_u64_bytes_roundtrip(a.supply);
    lemma_u64_bytes_roundtrip(b.supply);
}

/// The stored form of `record`, as it is appended to the history file.
pub fn encode_record(record: &CWRecord) -> (bytes: Vec<u8>)
    ensures
        bytes@ == record_bytes(*record),
{
    let mut bytes: Vec<u8> = Vec::new();
    push_i64_le(&mut bytes, record.timestamp);
    push_u64_le(&mut bytes, record.reserve);
    push_u64_le(&mut bytes, record.top15);
    push_u64_le(&mut bytes, record.supply);
    assert(bytes@ =~= record_bytes(*record));
    bytes
}

/// The record stored in the `RECORD_SIZE` bytes of `bytes` from `start` on.
pub fn decode_record(bytes: &[u8], start: usize) -> (record: CWRecord)
    requires
        start + RECORD_SIZE <= bytes@.len(),
    ensures
        record_bytes(record) == bytes@.subrange(start as int, start + RECORD_SIZE),
{
    let _len: usize = bytes.len();
    let record = CWRecord {
        timestamp: read_i64_le(bytes, start),
        reserve: read_u64_le(bytes, start + 8),
        top15: read_u64_le(bytes, start + 16),
        supply: read_u64_le(bytes, start + 24),
    };
    proof {
        let s = start as int;
        lemma_i64_value_roundtrip(bytes@.subrange(s, s + 8));
        lemma_u64_value_roundtrip(bytes@.subrange(s + 8, s + 16));
        lemma_u64_value_roundtrip(bytes@.subrange(s + 16, s + 24));
        lemma_u64_value_roundtrip(bytes@.subrange(s + 24, s + 32));
        assert(record_bytes(record) =~= bytes@.subrange(s, s + 32));
    }
    record
}

/// The stored form of `draft`, as it is appended to the drafts file.
pub fn encode_draft(draft: &CWDraft) -> (bytes: Vec<u8>)
    ensures
        bytes@ == draft_bytes(*draft),
{
    let mut bytes: Vec<u8> = Vec::new();
    push_i64_le(&mut bytes, draft.timestamp);
    push_u64_le(&mut bytes, draft.reserve);
    push_u64_le(&mut bytes, draft.top15);
    push_u64_le(&mut bytes, draft.supply);
    push_u64_le(&mut bytes, draft.attendance);
    let mut i: usize = 0;
    while i < 64
        invariant
            i <= 64,
            bytes@ == i64_le_bytes(draft.timestamp) + u64_le_bytes(draft.reserve) + u64_le_bytes(
                draft.top15,
            ) + u64_le_bytes(draft.supply) + u64_le_bytes(draft.attendance) + draft.name@.subrange(
                0,
                i as int,
            ),
        decreases 64 - i,
    {
        bytes.push(draft.name[i]);
        i = i + 1;
        assert(draft.name@.subrange(0, i as int) =~= draft.name@.subrange(0, i - 1).push(
            draft.name@[i - 1],
        ));
    }
    let mut j: usize = 0;
    while j < 32
        invariant
            j <= 32,
            bytes@ == i64_le_bytes(draft.timestamp) + u64_le_bytes(draft.reserve) + u64_le_bytes(
                draft.top15,
            ) + u64_le_bytes(draft.supply) + u64_le_bytes(draft.attendance) + draft.name@.subrange(
                0,
                64,
            ) + draft.file_name@.subrange(0, j as int),
        decreases 32 - j,
    {
        bytes.push(draft.file_name[j]);
        j = j + 1;
        assert(draft.file_name@.subrange(0, j as int) =~= draft.file_name@.subrange(
            0,
            j - 1,
        ).push(draft.file_name@[j - 1]));
    }
    assert(draft.name@.subrange(0, 64) =~= draft.name@);
    assert(draft.file_name@.subrange(0, 32) =~= draft.file_name@);
    bytes
}

/// The draft stored in the `DRAFT_SIZE` bytes of `bytes` from `start` on.
pub fn decode_draft(bytes: &[u8], start: usize) -> (draft: CWDraft)
    requires
        start + DRAFT_SIZE <= bytes@.len(),
    ensures
        draft_bytes(draft) == bytes@.subrange(start as int, start + DRAFT_SIZE),
{
    let _len: usize = bytes.len();
    let mut name = [0u8; 64];
    let mut i: usize = 0;
    while i < 64
        invariant
            i <= 64,
            start + DRAFT_SIZE <= bytes@.len(),
            bytes@.len() <= usize::MAX,
            name@.len() == 64,
            forall|k: int| 0 <= k < i ==> name@[k] == bytes@[start + 40 + k],
        decreases 64 - i,
    {
        name[i] = bytes[start + 40 + i];
        i = i + 1;
    }
    let mut file_name = [0u8; 32];
    let mut j: usize = 0;
    while j < 32
        invariant
            j <= 32,
            start + DRAFT_SIZE <= bytes@.len(),
            bytes@.len() <= usize::MAX,
            file_name@.len() == 32,
            forall|k: int| 0 <= k < j ==> file_name@[k] == bytes@[start + 104 + k],
        decreases 32 - j,
    {
        file_name[j] = bytes[start + 104 + j];
        j = j + 1;
    }
    let draft = CWDraft {
        timestamp: read_i64_le(bytes, start),
        reserve: read_u64_le(bytes, start + 8),
        top15: read_u64_le(bytes, start + 16),
        supply: read_u64_le(bytes, start + 24),
        attendance: read_u64_le(bytes, start + 32),
        name,
        file_name,
    };
    proof {
        let s = start as int;
        lemma_i64_value_roundtrip(bytes@.subrange(s, s + 8));
        lemma_u64_value_roundtrip(bytes@.subrange(s + 8, s + 16));
        lemma_u64_value_roundtrip(bytes@.subrange(s + 16, s + 24));
        lemma_u64_value_roundtrip(bytes@.subrange(s + 24, s + 32));
        lemma_u64_value_roundtrip(bytes@.subrange(s + 32, s + 40));
        assert(name@ =~= bytes@.subrange(s + 40, s + 104));
        assert(file_name@ =~= bytes@.subrange(s + 104, s + 136));
        assert(draft_bytes(draft) =~= bytes@.subrange(s, s + 136));
    }
    draft
}

/// Why a drafts file could not be read.
#[derive(Clone, Copy, PartialEq, Eq, Structural)]
pub enum DraftsError {
    /// The file's length is not a whole number of drafts.
    Corrupted,
}

impl DraftsError {
    /// The message shown to the user.
    pub fn message(&self) -> (text: String)
        ensures
            text@ == "[DATA ERROR] Файл черновиков повреждён"@,
    {
        String::from_str("[DATA ERROR] Файл черновиков повреждён")
    }
}

proof fn lemma_drafts_prefix(bytes: Seq<u8>, ds: Seq<CWDraft>, d: CWDraft, i: int)
    requires
        0 <= i,
        DRAFT_SIZE * (i + 1) <= bytes.len(),
        drafts_bytes(ds) == bytes.subrange(0, DRAFT_SIZE * i),
        draft_bytes(d) == bytes.subrange(DRAFT_SIZE * i, DRAFT_SIZE * i + DRAFT_SIZE),
    ensures
        drafts_bytes(ds.push(d)) == bytes.subrange(0, DRAFT_SIZE * (i + 1)),
{
    assert(ds.push(d).drop_last() =~= ds);
    assert(bytes.subrange(0, DRAFT_SIZE * (i + 1)) =~= bytes.subrange(0, DRAFT_SIZE * i)
        + bytes.subrange(DRAFT_SIZE * i, DRAFT_SIZE * i + DRAFT_SIZE));
}

/// The drafts stored in the contents of a drafts file, in the order they were
/// appended; an error when the length is not a whole number of drafts.
pub fn load_drafts(bytes: &[u8]) -> (res: Result<Vec<CWDraft>, DraftsError>)
    ensures
        res is Err <==> bytes@.len() % (DRAFT_SIZE as nat) != 0,
        res matches Ok(drafts) ==> drafts_bytes(drafts@) == bytes@,
{
    let n: usize = bytes.len();
    if n % DRAFT_SIZE != 0 {
        return Err(DraftsError::Corrupted);
    }
    let count: usize = n / DRAFT_SIZE;
    assert(count * DRAFT_SIZE == n);
    let mut drafts: Vec<CWDraft> = Vec::new();
    let mut i: usize = 0;
    assert(bytes@.subrange(0, 0) =~= Seq::<u8>::empty());
    while i < count
        invariant
            i <= count,
            count * DRAFT_SIZE == n,
            n == bytes@.len(),
            drafts@.len() == i,
            drafts_bytes(drafts@) == bytes@.subrange(0, DRAFT_SIZE * i),
        decreases count - i,
    {
        let draft = decode_draft(bytes, i * DRAFT_SIZE);
        proof {
            lemma_drafts_prefix(bytes@, drafts@, draft, i as int);
        }
        drafts.push(draft);
        i = i + 1;
    }
    assert(bytes@.subrange(0, n as int) =~= bytes@);
    Ok(drafts)
}

/// The bytes to append to a history file to repeat its last record under a
/// new timestamp: the record in the last `RECORD_SIZE` bytes, with its
/// timestamp replaced. `None` when the file is shorter than one record.
pub fn duplicate_last_cw(history: &[u8], new_timestamp: i64) -> (res: Option<Vec<u8>>)
    ensures
        res is None <==> history@.len() < RECORD_SIZE,
        res matches Some(bytes) ==> bytes@ == i64_le_bytes(new_timestamp) + history@.subrange(
            history@.len() - 24,
            history@.len() as int,
        ),
{
    let n: usize = history.len();
    if n < RECORD_SIZE {
        return None;
    }
    let last = decode_record(history, n - RECORD_SIZE);
    let record = CWRecord { timestamp: new_timestamp, ..last };
    let bytes = encode_record(&record);
    proof {
        let tail = history@.subrange(n - 32, n as int);
        assert(record_bytes(last).subrange(8, 32) =~= tail.subrange(8, 32));
        assert(record_bytes(record) =~= i64_le_bytes(new_timestamp) + record_bytes(last).subrange(
            8,
            32,
        ));
        assert(tail.subrange(8, 32) =~= history@.subrange(n - 24, n as int));
    }
    Some(bytes)
}

/// A drafts file written only by appending drafts always loads, and gives
/// back exactly the drafts appended, in order.
pub proof fn law_drafts_file_roundtrip(drafts: Seq<CWDraft>)
    ensures
        drafts_bytes(drafts).len() % (DRAFT_SIZE as nat) == 0,
        forall|loaded: Seq<CWDraft>|
            #[trigger] drafts_bytes(loaded) == drafts_bytes(drafts) ==> loaded == drafts,
{
    lemma_drafts_bytes_len(drafts);
    assert forall|loaded: Seq<CWDraft>|
        #[trigger] drafts_bytes(loaded) == drafts_bytes(drafts) implies loaded == drafts by {
        lemma_drafts_bytes_injective(loaded, drafts);
    }
}

proof fn lemma_drafts_bytes_injective(a: Seq<CWDraft>, b: Seq<CWDraft>)
    requires
        drafts_bytes(a) == drafts_bytes(b),
    ensures
        a == b,
    decreases a.len(),
{
    lemma_drafts_bytes_len(a);
    lemma_drafts_bytes_len(b);
    assert(a.len() == b.len());
    if a.len() > 0 {
        let (x, y) = (drafts_bytes(a), drafts_bytes(b));
        lemma_drafts_bytes_len(a.drop_last());
        lemma_drafts_bytes_len(b.drop_last());
        let k = DRAFT_SIZE * (a.len() - 1);
        assert(x.subrange(0, k) =~= drafts_bytes(a.drop_last()));
        assert(y.subrange(0, k) =~= drafts_bytes(b.drop_last()));
        assert(x.subrange(k, k + DRAFT_SIZE) =~= draft_bytes(a.last()));
        assert(y.subrange(k, k + DRAFT_SIZE) =~= draft_bytes(b.last()));
        lemma_drafts_bytes_injective(a.drop_last(), b.drop_last());
        lemma_draft_bytes_injective(a.last(), b.last());
        assert(a =~= a.drop_last().push(a.last()));
        assert(b =~= b.drop_last().push(b.last()));
    }
}

/// Repeating the last record stores a record that reads back as the last
/// record with the new timestamp and nothing else changed.
pub proof fn law_duplicate_keeps_masks(last: CWRecord, new_timestamp: i64, appended: CWRecord)
    requires
        record_bytes(appended) == i64_le_bytes(new_timestamp) + record_bytes(last).subrange(8, 32),
    ensures
        appended == (CWRecord { timestamp: new_timestamp, ..last }),
{
    let expected = CWRecord { timestamp: new_timestamp, ..last };
    assert(record_bytes(expected) =~= i64_le_bytes(new_timestamp) + record_bytes(last).subrange(
        8,
        32,
    ));
    lemma_record_bytes_injective(appended, expected);
}

/// Byte `k` of `v`, counting from the least significant one.
pub open spec fn byte_of(v: u64, k: int) -> u8 {
    ((v >> ((8 * k) as u64)) & 0xffu64) as u8
}

proof fn lemma_le_bytes_are_bytes(v: u64)
    ensures
        u64_le_bytes(v).len() == 8,
        forall|k: int| 0 <= k < 8 ==> #[trigger] u64_le_bytes(v)[k] == byte_of(v, k),
{
    assert((v >> 0u64) & 0xffu64 == v & 0xffu64) by (bit_vector);
    assert forall|k: int| 0 <= k < 8 implies #[trigger] u64_le_bytes(v)[k] == byte_of(v, k) by {
        if k == 0 {
        } else if k == 1 {
            assert((8 * k) as u64 == 8u64);
        } else if k == 2 {
            assert((8 * k) as u64 == 16u64);
        } else if k == 3 {
            assert((8 * k) as u64 == 24u64);
        } else if k == 4 {
            assert((8 * k) as u64 == 32u64);
        } else if k == 5 {
            assert((8 * k) as u64 == 40u64);
        } else if k == 6 {
            assert((8 * k) as u64 == 48u64);
        } else {
            assert((8 * k) as u64 == 56u64);
        }
    }
}

/// A stored draft lays its fields out in the order of the structure, each
/// integer little-endian: bytes 0 to 7 the timestamp, 8 to 15 the reserve
/// mask, 16 to 23 the top-15 mask, 24 to 31 the supply mask, 32 to 39 the
/// attendance mask, then the 64 bytes of the name and the 32 of the file name.
pub proof fn law_draft_layout(d: CWDraft)
    ensures
        draft_bytes(d).len() == DRAFT_SIZE,
        forall|k: int|
            0 <= k < 8 ==> {
                &&& #[trigger] draft_bytes(d)[k] == byte_of(d.timestamp as u64, k)
                &&& draft_bytes(d)[8 + k] == byte_of(d.reserve, k)
                &&& draft_bytes(d)[16 + k] == byte_of(d.top15, k)
                &&& draft_bytes(d)[24 + k] == byte_of(d.supply, k)
                &&& draft_bytes(d)[32 + k] == byte_of(d.attendance, k)
            },
        forall|k: int| 0 <= k < 64 ==> #[trigger] draft_bytes(d)[40 + k] == d.name[k],
        forall|k: int| 0 <= k < 32 ==> #[trigger] draft_bytes(d)[104 + k] == d.file_name[k],
{
    lemma_le_bytes_are_bytes(d.timestamp as u64);
    lemma_le_bytes_are_bytes(d.reserve);
    lemma_le_bytes_are_bytes(d.top15);
    lemma_le_bytes_are_bytes(d.supply);
    lemma_le_bytes_are_bytes(d.attendance);
}

/// A stored record lays its fields out in the order of the structure, each
/// little-endian: bytes 0 to 7 the timestamp, 8 to 15 the reserve mask, 16 to
/// 23 the top-15 mask and 24 to 31 the supply mask.
pub proof fn law_record_layout(r: CWRecord)
    ensures
        record_bytes(r).len() == RECORD_SIZE,
        forall|k: int|
            0 <= k < 8 ==> {
                &&& #[trigger] record_bytes(r)[k] == byte_of(r.timestamp as u64, k)
                &&& record_bytes(r)[8 + k] == byte_of(r.reserve, k)
                &&& record_bytes(r)[16 + k] == byte_of(r.top15, k)
                &&& record_bytes(r)[24 + k] == byte_of(r.supply, k)
            },
{
    lemma_le_bytes_are_bytes(r.timestamp as u64);
    lemma_le_bytes_are_bytes(r.reserve);
    lemma_le_bytes_are_bytes(r.top15);
    lemma_le_bytes_are_bytes(r.supply);
}

/// In a drafts file the draft appended `i`-th (from 0) is stored in the
/// `DRAFT_SIZE` bytes from `DRAFT_SIZE * i` on; so the drafts loaded from a
/// file are read each from its own place, field by field as `law_draft_layout`
/// lays them out.
pub proof fn law_drafts_positions(ds: Seq<CWDraft>, i: int)
    requires
        0 <= i < ds.len(),
    ensures
        drafts_bytes(ds).len() == DRAFT_SIZE * ds.len(),
        drafts_bytes(ds).subrange(DRAFT_SIZE * i, DRAFT_SIZE * i + DRAFT_SIZE) == draft_bytes(ds[i]),
    decreases ds.len(),
{
    lemma_drafts_bytes_len(ds);
    let prev = ds.drop_last();
    lemma_drafts_bytes_len(prev);
    lemma_draft_bytes_len(ds.last());
    let n = DRAFT_SIZE * prev.len();
    assert(n == DRAFT_SIZE * (ds.len() - 1));
    if i == ds.len() - 1 {
        assert(drafts_bytes(ds).subrange(n, n + DRAFT_SIZE) =~= draft_bytes(ds.last()));
    } else {
        law_drafts_positions(prev, i);
        assert(DRAFT_SIZE * i + DRAFT_SIZE <= n) by (nonlinear_arith)
            requires
                i < prev.len(),
                n == DRAFT_SIZE * prev.len(),
        ;
        assert(drafts_bytes(ds).subrange(DRAFT_SIZE * i, DRAFT_SIZE * i + DRAFT_SIZE)
            =~= drafts_bytes(prev).subrange(DRAFT_SIZE * i, DRAFT_SIZE * i + DRAFT_SIZE));
    }
}

} // verus!
