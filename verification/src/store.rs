//! The Signal store's own logic: walking stored rows, turning a requested
//! timestamp range into the bounds of a query, and naming message threads.
use vstd::prelude::*;

use base64::Engine;
use sha2::Digest;
use crate::text::string_push;
use vstd::string::StringSliceAdditionalSpecFns;

verus! {

/// Why a stored value could not be read back.
#[derive(Debug, Clone, PartialEq, Eq)]
pub enum BitpartStoreError {
    /// A stored group key is not 32 bytes long.
    GroupDecryption,
    /// A stored value is not what it should be.
    Store(String),
}

/// Walks stored contacts, one row (key, value) at a time.
#[derive(Debug)]
pub struct BitpartContactsIter {
    data: Vec<(Vec<u8>, Vec<u8>)>,
    index: usize,
}

/// Walks stored groups, one row (master key, decoded group) at a time; the
/// decoded group is `None` for a row whose value does not decode.
#[derive(Debug)]
pub struct BitpartGroupsIter<G> {
    rest: Vec<(Vec<u8>, Option<G>)>,
}

/// Walks stored sticker packs, one row (id, value) at a time.
#[derive(Debug)]
pub struct BitpartStickerPacksIter {
    data: Vec<(Vec<u8>, Vec<u8>)>,
    index: usize,
}

/// Walks stored messages of a thread, oldest first from the front and newest
/// first from the back. The two ends move independently: the front stops
/// after the last row, and the back stops at the first row, which it then
/// yields again on every call.
#[derive(Debug)]
pub struct BitpartMessagesIter {
    data: Vec<(Vec<u8>, Vec<u8>)>,
    start: usize,
    end: usize,
}

/// A row as the library sees it: key bytes and value bytes.
pub type Row = (Seq<u8>, Seq<u8>);

/// The rows of a result, as sequences.
pub open spec fn rows_of(data: Seq<(Vec<u8>, Vec<u8>)>) -> Seq<Row> {
    data.map_values(|r: (Vec<u8>, Vec<u8>)| (r.0@, r.1@))
}

fn copy_bytes(v: &Vec<u8>) -> (r: Vec<u8>)
    ensures
        r@ == v@,
{
    let mut out: Vec<u8> = Vec::new();
    let n = v.len();
    let mut i: usize = 0;
    while i < n
        invariant
            n == v.len(),
            i <= n,
            out@ == v@.take(i as int),
        decreases n - i,
    {
        out.push(v[i]);
        assert(v@.take(i as int + 1) =~= v@.take(i as int).push(v@[i as int]));
        i = i + 1;
    }
    assert(v@.take(n as int) =~= v@);
    out
}

/// The row at position `i`, copied, where there is one.
fn row_at(data: &Vec<(Vec<u8>, Vec<u8>)>, i: usize) -> (r: Option<(Vec<u8>, Vec<u8>)>)
    ensures
        match r {
            Some(row) => i < data.len() && (row.0@, row.1@) == rows_of(data@)[i as int],
            None => i >= data@.len(),
        },
{
    if i < data.len() {
        let row = &data[i];
        Some((copy_bytes(&row.0), copy_bytes(&row.1)))
    } else {
        None
    }
}

impl BitpartContactsIter {
    pub fn new(data: Vec<(Vec<u8>, Vec<u8>)>) -> (r: Self)
        ensures
            r.rows() == rows_of(data@),
            r.position() == 0,
    {
        BitpartContactsIter { data, index: 0 }
    }

    pub closed spec fn rows(&self) -> Seq<Row> {
        rows_of(self.data@)
    }

    pub closed spec fn position(&self) -> int {
        self.index as int
    }

    /// The next stored row, where there is one left.
    pub fn next(&mut self) -> (r: Option<(Vec<u8>, Vec<u8>)>)
        ensures
            final(self).rows() == old(self).rows(),
            match r {
                Some(row) => old(self).position() < old(self).rows().len() && (row.0@, row.1@) == old(self).rows()[old(
                    self,
                ).position()] && final(self).position() == old(self).position() + 1,
                None => old(self).position() >= old(self).rows().len() && final(self).position() == old(self).position(),
            },
    {
        let r = row_at(&self.data, self.index);
        if let Some(_) = &r {
            self.index = self.index + 1;
        }
        r
    }
}

impl BitpartStickerPacksIter {
    pub fn new(data: Vec<(Vec<u8>, Vec<u8>)>) -> (r: Self)
        ensures
            r.rows() == rows_of(data@),
            r.position() == 0,
    {
        BitpartStickerPacksIter { data, index: 0 }
    }

    pub closed spec fn rows(&self) -> Seq<Row> {
        rows_of(self.data@)
    }

    pub closed spec fn position(&self) -> int {
        self.index as int
    }

    /// The next stored row, where there is one left.
    pub fn next(&mut self) -> (r: Option<(Vec<u8>, Vec<u8>)>)
        ensures
            final(self).rows() == old(self).rows(),
            match r {
                Some(row) => old(self).position() < old(self).rows().len() && (row.0@, row.1@) == old(self).rows()[old(
                    self,
                ).position()] && final(self).position() == old(self).position() + 1,
                None => old(self).position() >= old(self).rows().len() && final(self).position() == old(self).position(),
            },
    {
        let r = row_at(&self.data, self.index);
        if let Some(_) = &r {
            self.index = self.index + 1;
        }
        r
    }
}

fn bytes32(key: &Vec<u8>) -> (r: Option<[u8; 32]>)
    ensures
        match r {
            Some(k) => key@.len() == 32 && k@ == key@,
            None => key@.len() != 32,
        },
{
    if key.len() != 32 {
        return None;
    }
    let mut k = [0u8; 32];
    let mut i: usize = 0;
    while i < 32
        invariant
            key@.len() == 32,
            i <= 32,
            forall|j: int| 0 <= j < i ==> k@[j] == key@[j],
        decreases 32 - i,
    {
        k[i] = key[i];
        i = i + 1;
    }
    assert(k@ =~= key@);
    Some(k)
}

/// The master key of a stored group, where the stored key is 32 bytes long.
pub fn group_master_key(key: &Vec<u8>) -> (r: Result<[u8; 32], BitpartStoreError>)
    ensures
        match r {
            Ok(k) => key@.len() == 32 && k@ == key@,
            Err(e) => key@.len() != 32 && e == BitpartStoreError::GroupDecryption,
        },
{
    match bytes32(key) {
        Some(k) => Ok(k),
        None => Err(BitpartStoreError::GroupDecryption),
    }
}

/// A stored profile key, where it is 32 bytes long.
pub fn stored_profile_key(data: &Vec<u8>) -> (r: Result<[u8; 32], BitpartStoreError>)
    ensures
        match r {
            Ok(k) => data@.len() == 32 && k@ == data@,
            Err(e) => data@.len() != 32 && e is Store && e->Store_0@ == "Invalid profile key length"@,
        },
{
    match bytes32(data) {
        Some(k) => Ok(k),
        None => Err(BitpartStoreError::Store(String::from_str("Invalid profile key length"))),
    }
}

/// A stored group row: its master key bytes and its decoded group, if the
/// value decodes.
pub type GroupRow<G> = (Seq<u8>, Option<G>);

/// The group rows of a result, as sequences.
pub open spec fn group_rows_of<G>(data: Seq<(Vec<u8>, Option<G>)>) -> Seq<GroupRow<G>> {
    data.map_values(|r: (Vec<u8>, Option<G>)| (r.0@, r.1))
}

/// What the group iterator yields for a row: nothing for a value that does
/// not decode; the master key and group where the key is 32 bytes long; an
/// error otherwise.
pub open spec fn group_item<G>(row: GroupRow<G>) -> Option<Result<(Seq<u8>, G), BitpartStoreError>> {
    match row.1 {
        None => None,
        Some(g) => if row.0.len() == 32 {
            Some(Ok((row.0, g)))
        } else {
            Some(Err(BitpartStoreError::GroupDecryption))
        },
    }
}

impl<G> BitpartGroupsIter<G> {
    /// Walks `data` from its first row.
    pub fn new(data: Vec<(Vec<u8>, Option<G>)>) -> (r: Self)
        ensures
            r.remaining() == group_rows_of(data@),
    {
        let ghost orig = data@;
        let n = data.len();
        let mut data = data;
        let mut rest: Vec<(Vec<u8>, Option<G>)> = Vec::new();
        while data.len() > 0
            invariant
                n == orig.len(),
                data@.len() + rest@.len() == n,
                data@ == orig.take(data@.len() as int),
                forall|j: int| 0 <= j < rest@.len() ==> #[trigger] rest@[j] == orig[n - 1 - j],
            decreases data@.len(),
        {
            let ghost before = data@;
            let row = data.pop().unwrap();
            proof {
                assert(row == orig[data@.len() as int]);
                assert(data@ =~= orig.take(data@.len() as int));
            }
            rest.push(row);
        }
        let r = BitpartGroupsIter { rest };
        assert(r.remaining() =~= group_rows_of(orig));
        r
    }

    /// The rows not walked yet, in order.
    pub closed spec fn remaining(&self) -> Seq<GroupRow<G>> {
        Seq::new(
            self.rest@.len(),
            |i: int| (self.rest@[self.rest@.len() - 1 - i].0@, self.rest@[self.rest@.len() - 1 - i].1),
        )
    }

    /// What the next row stands for (see `group_item`), or nothing once
    /// every row has been walked. Each call walks one row, so the rows come
    /// in order, each once; a row that does not decode yields nothing and
    /// the rows after it still come.
    pub fn next(&mut self) -> (r: Option<Result<([u8; 32], G), BitpartStoreError>>)
        ensures
            old(self).remaining().len() == 0 ==> r is None && final(self).remaining() == old(self).remaining(),
            old(self).remaining().len() > 0 ==> {
                &&& final(self).remaining() == old(self).remaining().drop_first()
                &&& match group_item(old(self).remaining()[0]) {
                    None => r is None,
                    Some(Ok((k, g))) => r matches Some(Ok((key, h))) && key@ == k && h == g,
                    Some(Err(e)) => r == Some(Err::<([u8; 32], G), BitpartStoreError>(e)),
                }
            },
    {
        if self.rest.len() == 0 {
            return None;
        }
        let (key, group) = self.rest.pop().unwrap();
        proof {
            assert(self.remaining() =~= old(self).remaining().drop_first());
        }
        match group {
            None => None,
            Some(g) => match group_master_key(&key) {
                Ok(k) => Some(Ok((k, g))),
                Err(e) => Some(Err(e)),
            },
        }
    }
}

/// Where the front of the message iterator stands after one call from
/// position `f` over `n` rows.
pub open spec fn front_step(n: int, f: int) -> int {
    if f < n {
        f + 1
    } else {
        f
    }
}

/// Where the back of the message iterator stands after one call from
/// position `b`: one row nearer the front, but never before the first row.
pub open spec fn back_step(b: int) -> int {
    if b > 0 {
        b - 1
    } else {
        0
    }
}

/// The back position after `k` calls from a fresh iterator over `n` rows.
pub open spec fn back_position(n: int, k: nat) -> int {
    if n == 0 || k >= n {
        0
    } else {
        n - 1 - k
    }
}

/// From a fresh iterator over `n` rows, calls from the back walk the
/// positions `n - 1`, `n - 2`, ... down to 0 and then stay at 0: the
/// newest row first, each row once in descending order, and then the first
/// row again on every call.
pub proof fn lemma_back_run(n: int, k: nat)
    requires
        n >= 0,
    ensures
        back_position(n, 0) == (if n == 0 { 0 } else { n - 1 }),
        back_step(back_position(n, k)) == back_position(n, k + 1),
        0 <= back_position(n, k) && (n > 0 ==> back_position(n, k) < n),
        k + 1 < n ==> back_position(n, k + 1) < back_position(n, k),
{
}

/// From a fresh iterator, the `k`-th call from the front yields row `k`
/// while rows are left, and nothing after the last row.
pub proof fn lemma_front_run(n: int, k: nat)
    requires
        n >= 0,
    ensures
        k < n ==> front_step(n, k as int) == k + 1,
        front_step(n, n) == n,
{
}

/// How many of a run of iterator calls were made from the front (`true`);
/// the others (`false`) were made from the back.
pub open spec fn front_calls(calls: Seq<bool>) -> nat
    decreases calls.len(),
{
    if calls.len() == 0 {
        0
    } else {
        front_calls(calls.drop_last()) + if calls.last() {
            1nat
        } else {
            0nat
        }
    }
}

/// The front position after `k` calls from the front of a fresh iterator
/// over `n` rows: one row further per call, up to the end.
pub open spec fn front_position(n: int, k: nat) -> int {
    if k < n {
        k as int
    } else {
        n
    }
}

/// The two ends of the message iterator move independently. Over any run
/// of calls on a fresh iterator over `n` rows, in any interleaving, where
/// each call moves its end as `next` and `next_back` state, the front
/// stands, after the first `k` calls, where that many calls from the front
/// alone leave it, and the back where the calls from the back alone leave
/// it. So the front yields rows `0, 1, ...` and the back rows `n - 1,
/// n - 2, ..., 0, 0, ...`, whatever the other end has yielded.
pub proof fn lemma_two_ended_run(n: int, calls: Seq<bool>, ends: Seq<(int, int)>)
    requires
        n >= 0,
        ends.len() == calls.len() + 1,
        ends[0] == (0int, back_position(n, 0)),
        forall|i: int|
            0 <= i < calls.len() ==> ends[i + 1] == (if #[trigger] calls[i] {
                (front_step(n, ends[i].0), ends[i].1)
            } else {
                (ends[i].0, back_step(ends[i].1))
            }),
    ensures
        forall|k: int|
            0 <= k <= calls.len() ==> #[trigger] ends[k] == (
                front_position(n, front_calls(calls.take(k))),
                back_position(n, (k - front_calls(calls.take(k))) as nat),
            ),
{
    assert forall|k: int| 0 <= k <= calls.len() implies #[trigger] ends[k] == (
        front_position(n, front_calls(calls.take(k))),
        back_position(n, (k - front_calls(calls.take(k))) as nat),
    ) by {
        lemma_ends_at(n, calls, ends, k);
    }
}

proof fn lemma_front_calls_bound(calls: Seq<bool>)
    ensures
        front_calls(calls) <= calls.len(),
    decreases calls.len(),
{
    if calls.len() > 0 {
        lemma_front_calls_bound(calls.drop_last());
    }
}

proof fn lemma_ends_at(n: int, calls: Seq<bool>, ends: Seq<(int, int)>, k: int)
    requires
        n >= 0,
        ends.len() == calls.len() + 1,
        ends[0] == (0int, back_position(n, 0)),
        forall|i: int|
            0 <= i < calls.len() ==> ends[i + 1] == (if #[trigger] calls[i] {
                (front_step(n, ends[i].0), ends[i].1)
            } else {
                (ends[i].0, back_step(ends[i].1))
            }),
        0 <= k <= calls.len(),
    ensures
        ends[k] == (
            front_position(n, front_calls(calls.take(k))),
            back_position(n, (k - front_calls(calls.take(k))) as nat),
        ),
    decreases k,
{
    if k == 0 {
        assert(calls.take(0) =~= Seq::<bool>::empty());
    } else {
        lemma_ends_at(n, calls, ends, k - 1);
        let prev = calls.take(k - 1);
        assert(calls.take(k).drop_last() =~= prev);
        assert(calls.take(k).last() == calls[k - 1]);
        lemma_front_calls_bound(prev);
        let f = front_calls(prev);
        let b = (k - 1 - f) as nat;
        lemma_back_run(n, b);
        if calls[k - 1] {
            assert(front_calls(calls.take(k)) == f + 1);
        } else {
            assert(front_calls(calls.take(k)) == f);
            assert((k - f) as nat == b + 1);
        }
    }
}

impl BitpartMessagesIter {
    #[verifier::type_invariant]
    spec fn back_in_range(self) -> bool {
        (self.data@.len() == 0 && self.end == 0) || self.end < self.data@.len()
    }

    /// Walks `data`, from its first row at the front and its last row at the
    /// back.
    pub fn new(data: Vec<(Vec<u8>, Vec<u8>)>) -> (r: Self)
        ensures
            r.rows() == rows_of(data@),
            r.front() == 0,
            r.back() == back_position(data@.len() as int, 0),
    {
        let end = if data.len() == 0 { 0 } else { data.len() - 1 };
        BitpartMessagesIter { data, start: 0, end }
    }

    pub closed spec fn rows(&self) -> Seq<Row> {
        rows_of(self.data@)
    }

    /// The position of the next row from the front.
    pub closed spec fn front(&self) -> int {
        self.start as int
    }

    /// The position of the next row from the back.
    pub closed spec fn back(&self) -> int {
        self.end as int
    }

    /// The next row from the front, where there is one left.
    pub fn next(&mut self) -> (r: Option<(Vec<u8>, Vec<u8>)>)
        ensures
            final(self).rows() == old(self).rows(),
            final(self).back() == old(self).back(),
            final(self).front() == front_step(old(self).rows().len() as int, old(self).front()),
            match r {
                Some(row) => old(self).front() < old(self).rows().len() && (row.0@, row.1@) == old(self).rows()[old(
                    self,
                ).front()],
                None => old(self).front() >= old(self).rows().len(),
            },
    {
        proof {
            use_type_invariant(&*self);
        }
        let r = row_at(&self.data, self.start);
        if let Some(_) = &r {
            self.start = self.start + 1;
        }
        r
    }

    /// The row at the back, where there is one, moving the back one row
    /// nearer the front unless it is at the first row already.
    pub fn next_back(&mut self) -> (r: Option<(Vec<u8>, Vec<u8>)>)
        ensures
            final(self).rows() == old(self).rows(),
            final(self).front() == old(self).front(),
            final(self).back() == back_step(old(self).back()),
            match r {
                Some(row) => old(self).back() < old(self).rows().len() && (row.0@, row.1@) == old(self).rows()[old(
                    self,
                ).back()],
                None => old(self).rows().len() == 0,
            },
    {
        proof {
            use_type_invariant(&*self);
        }
        let r = row_at(&self.data, self.end);
        if self.end > 0 {
            self.end = self.end - 1;
        }
        r
    }
}

/// One end of a requested range of message timestamps.
#[derive(Debug, Clone, Copy, PartialEq, Eq)]
pub enum RangeBound {
    Included(u64),
    Excluded(u64),
    Unbounded,
}

/// A stored timestamp: the requested `u64` read as the `i64` with the same
/// bits.
pub open spec fn as_stored(x: u64) -> i64 {
    if x <= i64::MAX as u64 {
        x as i64
    } else {
        (x - 0x1_0000_0000_0000_0000) as i64
    }
}

fn to_stored(x: u64) -> (r: i64)
    ensures
        r == as_stored(x),
{
    if x <= 0x7fff_ffff_ffff_ffff {
        x as i64
    } else {
        let d: u64 = x - 0x8000_0000_0000_0000;
        (d as i64) + i64::MIN
    }
}

/// The first and last stored timestamps that a requested range covers: a
/// missing start is the smallest timestamp, a missing end the largest, an
/// excluded end stops one before it.
pub open spec fn range_limits(start: RangeBound, end: RangeBound) -> (i64, i64) {
    let lo = match start {
        RangeBound::Included(s) => as_stored(s),
        _ => i64::MIN,
    };
    let hi = match end {
        RangeBound::Included(e) => as_stored(e),
        RangeBound::Excluded(e) => as_stored((e - 1) as u64),
        RangeBound::Unbounded => i64::MAX,
    };
    (lo, hi)
}

/// The timestamp limits of the stored messages that a requested range asks
/// for, and whether it asks for all of them (no limit on either side).
pub fn message_range(start: RangeBound, end: RangeBound) -> (r: (i64, i64, bool))
    requires
        !(start is Excluded),
        end is Excluded ==> end->Excluded_0 > 0,
    ensures
        (r.0, r.1) == range_limits(start, end),
        r.2 == (r.0 == i64::MIN && r.1 == i64::MAX),
{
    let lo = match start {
        RangeBound::Included(s) => to_stored(s),
        _ => i64::MIN,
    };
    let hi = match end {
        RangeBound::Included(e) => to_stored(e),
        RangeBound::Excluded(e) => to_stored(e - 1),
        RangeBound::Unbounded => i64::MAX,
    };
    (lo, hi, lo == i64::MIN && hi == i64::MAX)
}

/// A message thread: with a contact, by UUID, or in a group, by master key.
#[derive(Debug, Clone, PartialEq, Eq)]
pub enum Thread {
    Contact(u128),
    Group([u8; 32]),
}

/// The lower-case hexadecimal digit of a value below 16.
pub open spec fn hex_digit(v: int) -> char {
    if v < 10 {
        (v + 48) as char
    } else {
        (v + 87) as char
    }
}

/// Bytes written as lower-case hexadecimal, two digits per byte.
pub open spec fn hex_lower(b: Seq<u8>) -> Seq<char>
    decreases b.len(),
{
    if b.len() == 0 {
        seq![]
    } else {
        seq![hex_digit(b[0] as int / 16), hex_digit(b[0] as int % 16)] + hex_lower(b.drop_first())
    }
}

/// Hexadecimal takes two digits per byte.
pub proof fn lemma_hex_lower_len(b: Seq<u8>)
    ensures
        hex_lower(b).len() == 2 * b.len(),
    decreases b.len(),
{
    if b.len() > 0 {
        lemma_hex_lower_len(b.drop_first());
    }
}

/// The 32 hexadecimal digits of a UUID, most significant first.
pub open spec fn uuid_digits(u: u128) -> Seq<char> {
    Seq::new(32, |k: int| hex_digit(((u as int) / vstd::arithmetic::power::pow(16, (31 - k) as nat)) % 16))
}

/// A UUID in its hyphenated form: 8, 4, 4, 4 and 12 lower-case hexadecimal
/// digits separated by `-`.
pub open spec fn uuid_text(u: u128) -> Seq<char> {
    let d = uuid_digits(u);
    d.subrange(0, 8) + seq!['-'] + d.subrange(8, 12) + seq!['-'] + d.subrange(12, 16) + seq!['-'] + d.subrange(16, 20)
        + seq!['-'] + d.subrange(20, 32)
}

/// The Base64 alphabet of the standard encoding.
pub open spec fn base64_digit(v: int) -> char {
    if v < 26 {
        (v + 65) as char
    } else if v < 52 {
        (v + 71) as char
    } else if v < 62 {
        (v - 4) as char
    } else if v == 62 {
        '+'
    } else {
        '/'
    }
}

/// Bytes in the standard Base64 encoding, with `=` padding.
pub open spec fn base64_standard(s: Seq<u8>) -> Seq<char>
    decreases s.len(),
{
    if s.len() == 0 {
        seq![]
    } else if s.len() == 1 {
        seq![base64_digit(s[0] as int / 4), base64_digit((s[0] as int % 4) * 16), '=', '=']
    } else if s.len() == 2 {
        seq![
            base64_digit(s[0] as int / 4),
            base64_digit((s[0] as int % 4) * 16 + s[1] as int / 16),
            base64_digit((s[1] as int % 16) * 4),
            '=',
        ]
    } else {
        seq![
            base64_digit(s[0] as int / 4),
            base64_digit((s[0] as int % 4) * 16 + s[1] as int / 16),
            base64_digit((s[1] as int % 16) * 4 + s[2] as int / 64),
            base64_digit(s[2] as int % 64),
        ] + base64_standard(s.skip(3))
    }
}

/// The SHA-256 digest of some bytes (`sha2::Sha256`).
pub uninterp spec fn sha256_of(data: Seq<u8>) -> Seq<u8>;

/// Hashes bytes with SHA-256 (`sha2::Sha256::digest`). Claimed: the digest
/// depends on the bytes alone and is 32 bytes long.
#[verifier::external_body]
fn sha256_digest(data: &[u8]) -> (r: Vec<u8>)
    ensures
        r@ == sha256_of(data@),
        r@.len() == 32,
{
    sha2::Sha256::digest(data).to_vec()
}

/// Writes a UUID in its hyphenated lower-case form (`uuid::Uuid`'s
/// `Display`), as `uuid_text` states it.
#[verifier::external_body]
pub(crate) fn uuid_hyphenated(u: u128) -> (r: String)
    ensures
        r@ == uuid_text(u),
{
    uuid::Uuid::from_u128(u).to_string()
}

/// Encodes bytes in standard Base64 with padding (`base64`'s
/// `BASE64_STANDARD.encode`), as `base64_standard` states it.
#[verifier::external_body]
pub(crate) fn base64_encode(data: &[u8]) -> (r: String)
    ensures
        r@ == base64_standard(data@),
{
    base64::prelude::BASE64_STANDARD.encode(data)
}

fn hex_digit_of(v: u8) -> (c: char)
    requires
        v < 16,
    ensures
        c == hex_digit(v as int),
{
    if v < 10 {
        let b: u8 = v + 48;
        b as char
    } else {
        let b: u8 = v + 87;
        b as char
    }
}

/// Writes bytes as lower-case hexadecimal, two digits per byte.
pub fn to_hex_lower(b: &Vec<u8>) -> (r: String)
    ensures
        r@ == hex_lower(b@),
{
    let mut s = String::new();
    let n = b.len();
    let mut i: usize = 0;
    proof {
        assert(b@.skip(0) =~= b@);
    }
    while i < n
        invariant
            n == b.len(),
            i <= n,
            hex_lower(b@) == s@ + hex_lower(b@.skip(i as int)),
        decreases n - i,
    {
        let x = b[i];
        let ghost before = s@;
        string_push(&mut s, hex_digit_of(x / 16));
        string_push(&mut s, hex_digit_of(x % 16));
        proof {
            let t = b@.skip(i as int);
            assert(t[0] == x);
            assert(t.drop_first() =~= b@.skip(i as int + 1));
            assert(hex_lower(t) == seq![hex_digit(x as int / 16), hex_digit(x as int % 16)] + hex_lower(t.drop_first()));
            assert(s@ =~= before + seq![hex_digit(x as int / 16), hex_digit(x as int % 16)]);
            assert(before + hex_lower(t) =~= s@ + hex_lower(b@.skip(i as int + 1)));
        }
        i = i + 1;
    }
    proof {
        assert(b@.skip(n as int) =~= Seq::<u8>::empty());
        assert(s@ + Seq::<char>::empty() =~= s@);
    }
    s
}

/// The text that names a thread before hashing: `threads:contact:` and the
/// contact's hyphenated UUID, or `threads:group:` and the group's master key
/// in Base64.
pub open spec fn thread_key(t: Thread) -> Seq<char> {
    match t {
        Thread::Contact(u) => "threads:contact:"@ + uuid_text(u),
        Thread::Group(k) => "threads:group:"@ + base64_standard(k@),
    }
}

/// The id under which a thread's messages are stored: the SHA-256 digest of
/// the UTF-8 bytes of its key, in lower-case hexadecimal.
pub fn messages_thread_id(t: &Thread) -> (r: String)
    ensures
        r@ == hex_lower(sha256_of(vstd::utf8::encode_utf8(thread_key(*t)))),
{
    let mut key = match t {
        Thread::Contact(_) => String::from_str("threads:contact:"),
        Thread::Group(_) => String::from_str("threads:group:"),
    };
    match t {
        Thread::Contact(u) => {
            let text = uuid_hyphenated(*u);
            key.append(text.as_str());
        },
        Thread::Group(k) => {
            let text = base64_encode(k.as_slice());
            key.append(text.as_str());
        },
    }
    let digest = sha256_digest(key.as_str().as_bytes());
    to_hex_lower(&digest)
}

/// The `n` bytes of `x` in big-endian order, most significant first.
pub open spec fn be_bytes(x: int, n: nat) -> Seq<u8> {
    Seq::new(n, |k: int| ((x / vstd::arithmetic::power::pow(256, (n - 1 - k) as nat)) % 256) as u8)
}

fn be_bytes_of(x: u128, n: usize) -> (r: Vec<u8>)
    requires
        n <= 16,
    ensures
        r@ == be_bytes(x as int, n as nat),
{
    let mut out: Vec<u8> = Vec::new();
    let mut k: usize = 0;
    while k < n
        invariant
            k <= n,
            out@.len() == k,
        decreases n - k,
    {
        out.push(0);
        k = k + 1;
    }
    let mut v: u128 = x;
    let mut j: usize = 0;
    proof {
        vstd::arithmetic::power::lemma_pow0(256);
    }
    while j < n
        invariant
            n <= 16,
            j <= n,
            out@.len() == n,
            v as int == (x as int) / vstd::arithmetic::power::pow(256, j as nat),
            forall|k: int| n - j <= k < n ==> #[trigger] out@[k] == be_bytes(x as int, n as nat)[k],
        decreases n - j,
    {
        let b: u8 = (v % 256) as u8;
        out.set(n - 1 - j, b);
        proof {
            let p = vstd::arithmetic::power::pow(256, j as nat);
            vstd::arithmetic::power::lemma_pow_positive(256, j as nat);
            assert(vstd::arithmetic::power::pow(256, (j + 1) as nat) == 256 * p) by {
                reveal(vstd::arithmetic::power::pow);
            }
            vstd::arithmetic::div_mod::lemma_div_denominator(x as int, p, 256);
            assert(p * 256 == 256 * p) by (nonlinear_arith);
            let k = n - 1 - j;
            assert(be_bytes(x as int, n as nat)[k as int] == (((x as int) / p) % 256) as u8);
        }
        v = v / 256;
        j = j + 1;
    }
    assert(out@ =~= be_bytes(x as int, n as nat));
    out
}

/// A stored timestamp read back as the `u64` with the same bits.
pub open spec fn as_unsigned(ts: i64) -> int {
    if ts >= 0 {
        ts as int
    } else {
        ts + 0x1_0000_0000_0000_0000
    }
}

/// The key of a stored message row: its timestamp's bits as a `u64`, in
/// big-endian order.
pub fn message_row_key(ts: i64) -> (r: Vec<u8>)
    ensures
        r@ == be_bytes(as_unsigned(ts), 8),
{
    let x: u64 = if ts >= 0 {
        ts as u64
    } else {
        let shifted: i64 = (ts + i64::MAX) + 1;
        (shifted as u64) + 0x8000_0000_0000_0000
    };
    be_bytes_of(x as u128, 8)
}

/// The rows of a thread's stored messages as the message iterator walks
/// them: each timestamp turned into its row key, with the stored content.
pub fn message_rows(data: Vec<(i64, Vec<u8>)>) -> (r: Vec<(Vec<u8>, Vec<u8>)>)
    ensures
        r@.len() == data@.len(),
        forall|i: int|
            0 <= i < data@.len() ==> (#[trigger] r@[i]).0@ == be_bytes(as_unsigned(data@[i].0), 8) && r@[i].1
                == data@[i].1,
{
    let mut out: Vec<(Vec<u8>, Vec<u8>)> = Vec::new();
    let mut rest = data;
    let ghost all = rest@;
    let n = rest.len();
    let mut i: usize = 0;
    while i < n
        invariant
            n == all.len(),
            i <= n,
            rest@ == all.skip(i as int),
            out@.len() == i,
            forall|k: int| 0 <= k < i ==> (#[trigger] out@[k]).0@ == be_bytes(as_unsigned(all[k].0), 8) && out@[k].1 == all[k].1,
        decreases n - i,
    {
        let (ts, value) = rest.remove(0);
        proof {
            assert(all.skip(i as int)[0] == all[i as int]);
            assert(rest@ =~= all.skip(i as int + 1));
        }
        out.push((message_row_key(ts), value));
        i = i + 1;
    }
    out
}

/// The id under which a contact's profile data is stored with a profile
/// key: the SHA-256 digest of the contact's UUID (16 bytes, big-endian)
/// followed by the key, in lower-case hexadecimal.
pub fn profile_key_id(uuid: u128, key: &[u8; 32]) -> (r: String)
    ensures
        r@ == hex_lower(sha256_of(be_bytes(uuid as int, 16) + key@)),
{
    let mut data = be_bytes_of(uuid, 16);
    let mut i: usize = 0;
    let ghost start = data@;
    while i < 32
        invariant
            i <= 32,
            data@ == start + key@.take(i as int),
        decreases 32 - i,
    {
        data.push(key[i]);
        assert(key@.take(i as int + 1) =~= key@.take(i as int).push(key@[i as int]));
        i = i + 1;
    }
    assert(key@.take(32) =~= key@);
    let digest = sha256_digest(data.as_slice());
    to_hex_lower(&digest)
}

} // verus!
