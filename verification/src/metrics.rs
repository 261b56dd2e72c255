//! Per-channel message counters and connection status.
//!
//! A registry keeps one set of counters per channel row id, remembers which
//! bot the channel belongs to, and reports snapshots of the counters.
use vstd::prelude::*;

verus! {

/// Connection state of a channel towards the Signal server.
#[derive(Debug, Clone, Copy, PartialEq, Eq, Structural)]
pub enum ConnectionStatus {
    /// Not registered/linked to the Signal server yet.
    Unlinked,
    /// Linked and actively receiving.
    Linked,
    /// Linked previously but the connection is currently failing.
    Failing,
}

/// The status that a stored status byte stands for: 1 and 2 are `Linked` and
/// `Failing`, every other byte reads as `Unlinked`.
pub open spec fn status_of_byte(v: u8) -> ConnectionStatus {
    if v == 1 {
        ConnectionStatus::Linked
    } else if v == 2 {
        ConnectionStatus::Failing
    } else {
        ConnectionStatus::Unlinked
    }
}

/// The byte under which a status is stored.
pub open spec fn byte_of_status(s: ConnectionStatus) -> u8 {
    match s {
        ConnectionStatus::Unlinked => 0,
        ConnectionStatus::Linked => 1,
        ConnectionStatus::Failing => 2,
    }
}

impl ConnectionStatus {
    pub(crate) fn from_u8(v: u8) -> (r: Self)
        ensures
            r == status_of_byte(v),
    {
        match v {
            1 => ConnectionStatus::Linked,
            2 => ConnectionStatus::Failing,
            _ => ConnectionStatus::Unlinked,
        }
    }

    pub fn as_u8(self) -> (r: u8)
        ensures
            r == byte_of_status(self),
    {
        match self {
            ConnectionStatus::Unlinked => 0,
            ConnectionStatus::Linked => 1,
            ConnectionStatus::Failing => 2,
        }
    }
}

/// Reading a status back from the byte it was stored under gives the status.
pub proof fn lemma_status_byte_roundtrip(s: ConnectionStatus)
    ensures
        status_of_byte(byte_of_status(s)) == s,
{
}

/// A point-in-time copy of a channel's counters.
#[derive(Debug, Clone, Copy, PartialEq, Eq, Structural)]
pub struct ChannelMetricsSnapshot {
    pub sent: u64,
    pub received: u64,
    pub status: ConnectionStatus,
}

/// The snapshot of a channel that nothing has been counted for yet.
pub open spec fn initial_snapshot() -> ChannelMetricsSnapshot {
    ChannelMetricsSnapshot { sent: 0, received: 0, status: ConnectionStatus::Unlinked }
}

/// Adding one to a counter, wrapping around at `u64::MAX` as an atomic
/// `fetch_add` does.
pub open spec fn counter_next(x: u64) -> u64 {
    if x == u64::MAX {
        0
    } else {
        (x + 1) as u64
    }
}

/// Message counters and connection status of one channel.
#[derive(Debug)]
pub struct ChannelMetrics {
    sent: u64,
    received: u64,
    status: u8,
}

impl View for ChannelMetrics {
    type V = ChannelMetricsSnapshot;

    closed spec fn view(&self) -> ChannelMetricsSnapshot {
        ChannelMetricsSnapshot {
            sent: self.sent,
            received: self.received,
            status: status_of_byte(self.status),
        }
    }
}

impl Default for ChannelMetrics {
    fn default() -> (r: Self)
        ensures
            r@ == initial_snapshot(),
    {
        ChannelMetrics { sent: 0, received: 0, status: ConnectionStatus::Unlinked.as_u8() }
    }
}

impl ChannelMetrics {
    pub fn incr_sent(&mut self)
        ensures
            final(self)@ == (ChannelMetricsSnapshot { sent: counter_next(old(self)@.sent), ..old(self)@ }),
    {
        self.sent = self.sent.wrapping_add(1);
    }

    pub fn incr_received(&mut self)
        ensures
            final(self)@ == (ChannelMetricsSnapshot { received: counter_next(old(self)@.received), ..old(self)@ }),
    {
        self.received = self.received.wrapping_add(1);
    }

    pub fn set_status(&mut self, status: ConnectionStatus)
        ensures
            final(self)@ == (ChannelMetricsSnapshot { status, ..old(self)@ }),
    {
        self.status = status.as_u8();
    }

    pub fn snapshot(&self) -> (r: ChannelMetricsSnapshot)
        ensures
            r == self@,
    {
        ChannelMetricsSnapshot {
            sent: self.sent,
            received: self.received,
            status: ConnectionStatus::from_u8(self.status),
        }
    }
}

/// Status of a channel as reported to API clients.
#[derive(Debug, Clone)]
pub struct ChannelStatus {
    pub channel_id: String,
    pub metrics: ChannelMetricsSnapshot,
}

/// One registered channel: its row id, the bot it belongs to and its counters.
#[derive(Debug)]
struct RegistryEntry {
    channel: String,
    bot_id: String,
    metrics: ChannelMetrics,
}

/// An entry of the registry's view: channel row id, bot id, counters.
pub type RegistryRow = (Seq<char>, Seq<char>, ChannelMetricsSnapshot);

/// Whether `channel` is registered in `rows`.
pub open spec fn has_channel(rows: Seq<RegistryRow>, channel: Seq<char>) -> bool {
    exists|i: int| 0 <= i < rows.len() && (#[trigger] rows[i]).0 == channel
}

/// The position of `channel` in `rows` (any one, where it occurs), or
/// `rows.len()` where it does not occur.
pub open spec fn channel_index(rows: Seq<RegistryRow>, channel: Seq<char>) -> int {
    if has_channel(rows, channel) {
        choose|i: int| 0 <= i < rows.len() && (#[trigger] rows[i]).0 == channel
    } else {
        rows.len() as int
    }
}

/// No channel row id is registered twice.
pub open spec fn rows_distinct(rows: Seq<RegistryRow>) -> bool {
    forall|i: int, j: int|
        0 <= i < rows.len() && 0 <= j < rows.len() && i != j ==> (#[trigger] rows[i]).0
            != (#[trigger] rows[j]).0
}

/// The counters registered for `channel`, if any.
pub open spec fn lookup_channel(rows: Seq<RegistryRow>, channel: Seq<char>) -> Option<ChannelMetricsSnapshot> {
    if has_channel(rows, channel) {
        Some(rows[channel_index(rows, channel)].2)
    } else {
        None
    }
}

/// The rows after making sure that `channel` is registered: unchanged where it
/// already is, otherwise with fresh counters for it appended under `bot_id`.
pub open spec fn rows_with_channel(rows: Seq<RegistryRow>, channel: Seq<char>, bot_id: Seq<char>) -> Seq<RegistryRow> {
    if has_channel(rows, channel) {
        rows
    } else {
        rows.push((channel, bot_id, initial_snapshot()))
    }
}

/// The position of `channel` once it has been registered under `bot_id`.
pub open spec fn registered_index(rows: Seq<RegistryRow>, channel: Seq<char>, bot_id: Seq<char>) -> int {
    channel_index(rows_with_channel(rows, channel, bot_id), channel)
}

/// The rows with the counters at position `i` replaced by `m`.
pub open spec fn with_metrics(rows: Seq<RegistryRow>, i: int, m: ChannelMetricsSnapshot) -> Seq<RegistryRow> {
    rows.update(i, (rows[i].0, rows[i].1, m))
}

/// Registering a channel and then changing its counters keeps every channel
/// registered at most once: the registry stays well formed across
/// `get_or_create`, whatever is done with the counters it hands out.
pub proof fn lemma_registration_keeps_distinct(rows: Seq<RegistryRow>, channel: Seq<char>, bot_id: Seq<char>, m: ChannelMetricsSnapshot)
    requires
        rows_distinct(rows),
    ensures
        rows_distinct(with_metrics(rows_with_channel(rows, channel, bot_id), registered_index(rows, channel, bot_id), m)),
{
    let r = rows_with_channel(rows, channel, bot_id);
    lemma_rows_with_channel_facts(rows, channel, bot_id);
    lemma_with_metrics_keeps_distinct(r, registered_index(rows, channel, bot_id));
}

/// Facts about registering a channel: the result is well formed, holds the
/// channel, and keeps every earlier row where it was.
pub proof fn lemma_rows_with_channel_facts(rows: Seq<RegistryRow>, channel: Seq<char>, bot_id: Seq<char>)
    requires
        rows_distinct(rows),
    ensures
        rows_distinct(rows_with_channel(rows, channel, bot_id)),
        has_channel(rows_with_channel(rows, channel, bot_id), channel),
        0 <= registered_index(rows, channel, bot_id) < rows_with_channel(rows, channel, bot_id).len(),
        rows_with_channel(rows, channel, bot_id)[registered_index(rows, channel, bot_id)].0 == channel,
        forall|k: int| 0 <= k < rows.len() ==> #[trigger] rows_with_channel(rows, channel, bot_id)[k] == rows[k],
{
    let r = rows_with_channel(rows, channel, bot_id);
    if !has_channel(rows, channel) {
        assert(r[rows.len() as int].0 == channel);
        assert forall|a: int, b: int|
            0 <= a < r.len() && 0 <= b < r.len() && a != b implies (#[trigger] r[a]).0 != (#[trigger] r[b]).0 by {
            if a == rows.len() {
                assert(r[b] == rows[b]);
            } else if b == rows.len() {
                assert(r[a] == rows[a]);
            }
        }
    }
    assert(has_channel(r, channel));
    let i = channel_index(r, channel);
    assert(r[i].0 == channel);
}

proof fn lemma_with_metrics_keeps_distinct(rows: Seq<RegistryRow>, i: int)
    requires
        rows_distinct(rows),
        0 <= i < rows.len(),
    ensures
        forall|m: ChannelMetricsSnapshot| rows_distinct(#[trigger] with_metrics(rows, i, m)),
{
    assert forall|m: ChannelMetricsSnapshot| rows_distinct(#[trigger] with_metrics(rows, i, m)) by {
        let r2 = with_metrics(rows, i, m);
        assert forall|a: int, b: int|
            0 <= a < r2.len() && 0 <= b < r2.len() && a != b implies (#[trigger] r2[a]).0 != (#[trigger] r2[b]).0 by {
            assert(r2[a].0 == rows[a].0);
            assert(r2[b].0 == rows[b].0);
        }
    }
}

/// The rows after removing `channel`, where it is registered.
pub open spec fn rows_without_channel(rows: Seq<RegistryRow>, channel: Seq<char>) -> Seq<RegistryRow> {
    if has_channel(rows, channel) {
        rows.remove(channel_index(rows, channel))
    } else {
        rows
    }
}

/// Keeps the counters of every channel that has been started.
#[derive(Debug)]
pub struct MetricsRegistry {
    channels: Vec<RegistryEntry>,
}

impl View for MetricsRegistry {
    type V = Seq<RegistryRow>;

    closed spec fn view(&self) -> Seq<RegistryRow> {
        self.channels@.map_values(|e: RegistryEntry| (e.channel@, e.bot_id@, e.metrics@))
    }
}

impl Default for MetricsRegistry {
    fn default() -> (r: Self)
        ensures
            r.wf(),
            r@ == Seq::<RegistryRow>::empty(),
    {
        MetricsRegistry { channels: Vec::new() }
    }
}

impl MetricsRegistry {
    /// Each channel is registered at most once.
    pub closed spec fn wf(&self) -> bool {
        forall|a: int, b: int|
            0 <= a < self.channels@.len() && 0 <= b < self.channels@.len() && a != b ==> (
            #[trigger] self.channels@[a]).channel@ != (#[trigger] self.channels@[b]).channel@
    }

    /// A well-formed registry registers each channel at most once.
    pub proof fn lemma_wf_rows_distinct(&self)
        ensures
            self.wf() <==> rows_distinct(self@),
    {
        assert(self.wf() ==> rows_distinct(self@)) by {
            if self.wf() {
                assert forall|a: int, b: int|
                    0 <= a < self@.len() && 0 <= b < self@.len() && a != b implies (#[trigger] self@[a]).0
                        != (#[trigger] self@[b]).0 by {
                    assert(self@[a].0 == self.channels@[a].channel@);
                    assert(self@[b].0 == self.channels@[b].channel@);
                }
            }
        }
        assert(rows_distinct(self@) ==> self.wf()) by {
            if rows_distinct(self@) {
                assert forall|a: int, b: int|
                    0 <= a < self.channels@.len() && 0 <= b < self.channels@.len() && a != b implies (
                    #[trigger] self.channels@[a]).channel@ != (#[trigger] self.channels@[b]).channel@ by {
                    assert(self@[a].0 == self.channels@[a].channel@);
                    assert(self@[b].0 == self.channels@[b].channel@);
                }
            }
        }
    }

    pub fn new() -> (r: Self)
        ensures
            r.wf(),
            r@ == Seq::<RegistryRow>::empty(),
    {
        MetricsRegistry { channels: Vec::new() }
    }

    fn find(&self, channel: &String) -> (r: Option<usize>)
        requires
            self.wf(),
        ensures
            match r {
                Some(i) => i < self@.len() && i == channel_index(self@, channel@) && has_channel(self@, channel@),
                None => !has_channel(self@, channel@),
            },
    {
        let n = self.channels.len();
        let mut i: usize = 0;
        while i < n
            invariant
                n == self.channels.len(),
                self.wf(),
                i <= n,
                forall|k: int| 0 <= k < i ==> (#[trigger] self@[k]).0 != channel@,
            decreases n - i,
        {
            if self.channels[i].channel == *channel {
                assert(self@[i as int].0 == channel@);
                assert(has_channel(self@, channel@));
                let ghost j = channel_index(self@, channel@);
                assert(self@[j].0 == channel@);
                assert(j == i);
                return Some(i);
            }
            assert(self@[i as int].0 != channel@);
            i = i + 1;
        }
        assert(!has_channel(self@, channel@)) by {
            if has_channel(self@, channel@) {
                let k = choose|k: int| 0 <= k < self@.len() && (#[trigger] self@[k]).0 == channel@;
                assert(self@[k].0 != channel@);
            }
        }
        None
    }

    /// Returns the counters of `channel`, registering it under `bot_id` with
    /// fresh counters where it is not registered yet.
    pub fn get_or_create(&mut self, channel: &str, bot_id: &str) -> (m: &mut ChannelMetrics)
        requires
            old(self).wf(),
        ensures
            0 <= registered_index(old(self)@, channel@, bot_id@) < rows_with_channel(old(self)@, channel@, bot_id@).len(),
            m@ == rows_with_channel(old(self)@, channel@, bot_id@)[registered_index(old(self)@, channel@, bot_id@)].2,
            final(self)@ == with_metrics(rows_with_channel(old(self)@, channel@, bot_id@), registered_index(old(self)@, channel@, bot_id@), final(m)@),
            final(self).wf(),
    {
        let key = channel.to_owned();
        let found = self.find(&key);
        let idx = match found {
            Some(i) => i,
            None => {
                let entry = RegistryEntry { channel: key, bot_id: bot_id.to_owned(), metrics: ChannelMetrics::default() };
                let ghost before = self@;
                self.channels.push(entry);
                assert(self@ =~= before.push((channel@, bot_id@, initial_snapshot())));
                assert(rows_distinct(self@)) by {
                    assert forall|a: int, b: int|
                        0 <= a < self@.len() && 0 <= b < self@.len() && a != b implies (#[trigger] self@[a]).0
                            != (#[trigger] self@[b]).0 by {
                        if a == before.len() {
                            assert(self@[b] == before[b]);
                        } else if b == before.len() {
                            assert(self@[a] == before[a]);
                        }
                    }
                }
                let ghost last = before.len() as int;
                assert(self@[last].0 == channel@);
                assert(has_channel(self@, channel@));
                let ghost j = channel_index(self@, channel@);
                assert(self@[j].0 == channel@);
                assert(j == last);
                self.channels.len() - 1
            },
        };
        let ghost rows = self@;
        proof {
            assert(rows == rows_with_channel(old(self)@, channel@, bot_id@));
            assert(idx == channel_index(rows, channel@));
            lemma_with_metrics_keeps_distinct(rows, idx as int);
            self.lemma_wf_rows_distinct();
            assert(self.wf());
        }
        &mut self.channels[idx].metrics
    }

    /// Forgets the counters of `channel`.
    pub fn remove(&mut self, channel: &str)
        requires
            old(self).wf(),
        ensures
            final(self).wf(),
            final(self)@ == rows_without_channel(old(self)@, channel@),
    {
        let key = channel.to_owned();
        match self.find(&key) {
            Some(i) => {
                let ghost before = self@;
                self.channels.remove(i);
                assert(self@ =~= before.remove(i as int));
                assert(rows_distinct(self@)) by {
                    assert forall|a: int, b: int|
                        0 <= a < self@.len() && 0 <= b < self@.len() && a != b implies (#[trigger] self@[a]).0
                            != (#[trigger] self@[b]).0 by {
                        let a0 = if a < i { a } else { a + 1 };
                        let b0 = if b < i { b } else { b + 1 };
                        assert(self@[a] == before[a0]);
                        assert(self@[b] == before[b0]);
                    }
                }
            },
            None => {},
        }
    }

    /// The status of each requested channel: for each pair of channel row id
    /// and public channel id, the counters registered under the row id, or
    /// fresh counters where none are.
    pub fn for_channels(&self, channels: &[(String, String)]) -> (r: Vec<ChannelStatus>)
        requires
            self.wf(),
        ensures
            r@.len() == channels@.len(),
            forall|i: int|
                0 <= i < channels@.len() ==> {
                    &&& (#[trigger] r@[i]).channel_id@ == channels@[i].1@
                    &&& r@[i].metrics == match lookup_channel(self@, channels@[i].0@) {
                        Some(s) => s,
                        None => initial_snapshot(),
                    }
                },
    {
        let mut out: Vec<ChannelStatus> = Vec::new();
        let n = channels.len();
        let mut k: usize = 0;
        while k < n
            invariant
                n == channels@.len(),
                self.wf(),
                k <= n,
                out@.len() == k,
                forall|i: int|
                    0 <= i < k ==> {
                        &&& (#[trigger] out@[i]).channel_id@ == channels@[i].1@
                        &&& out@[i].metrics == match lookup_channel(self@, channels@[i].0@) {
                            Some(s) => s,
                            None => initial_snapshot(),
                        }
                    },
            decreases n - k,
        {
            let (row_id, channel_id) = &channels[k];
            let metrics = match self.find(row_id) {
                Some(i) => self.channels[i].metrics.snapshot(),
                None => ChannelMetrics::default().snapshot(),
            };
            out.push(ChannelStatus { channel_id: channel_id.clone(), metrics });
            k = k + 1;
        }
        out
    }

    /// Bot id, channel row id and counters of every registered channel.
    pub fn snapshot_all(&self) -> (r: Vec<(String, String, ChannelMetricsSnapshot)>)
        ensures
            r@.len() == self@.len(),
            forall|i: int|
                0 <= i < self@.len() ==> {
                    &&& (#[trigger] r@[i]).0@ == self@[i].1
                    &&& r@[i].1@ == self@[i].0
                    &&& r@[i].2 == self@[i].2
                },
    {
        let mut out: Vec<(String, String, ChannelMetricsSnapshot)> = Vec::new();
        let n = self.channels.len();
        let mut k: usize = 0;
        while k < n
            invariant
                n == self.channels.len(),
                k <= n,
                out@.len() == k,
                forall|i: int|
                    0 <= i < k ==> {
                        &&& (#[trigger] out@[i]).0@ == self@[i].1
                        &&& out@[i].1@ == self@[i].0
                        &&& out@[i].2 == self@[i].2
                    },
            decreases n - k,
        {
            let e = &self.channels[k];
            out.push((e.bot_id.clone(), e.channel.clone(), e.metrics.snapshot()));
            k = k + 1;
        }
        out
    }
}

} // verus!

verus! {

/// Asking twice for the same channel registers it once: a second
/// `get_or_create` for a registered channel, under any bot id, leaves the
/// rows as they are and hands out the same position.
pub proof fn lemma_get_or_create_idempotent(rows: Seq<RegistryRow>, channel: Seq<char>, bot_a: Seq<char>, bot_b: Seq<char>)
    requires
        rows_distinct(rows),
    ensures
        rows_with_channel(rows_with_channel(rows, channel, bot_a), channel, bot_b) == rows_with_channel(rows, channel, bot_a),
        registered_index(rows_with_channel(rows, channel, bot_a), channel, bot_b) == registered_index(rows, channel, bot_a),
{
    lemma_rows_with_channel_facts(rows, channel, bot_a);
}

/// After `remove`, the channel is no longer registered, every other channel
/// keeps its row, and the registry stays well formed.
pub proof fn lemma_removed_channel_not_reported(rows: Seq<RegistryRow>, channel: Seq<char>, other: Seq<char>)
    requires
        rows_distinct(rows),
        other != channel,
    ensures
        !has_channel(rows_without_channel(rows, channel), channel),
        lookup_channel(rows_without_channel(rows, channel), channel) is None,
        lookup_channel(rows_without_channel(rows, channel), other) == lookup_channel(rows, other),
        rows_distinct(rows_without_channel(rows, channel)),
{
    let r = rows_without_channel(rows, channel);
    if has_channel(rows, channel) {
        let i = channel_index(rows, channel);
        assert(rows[i].0 == channel);
        assert forall|k: int| 0 <= k < r.len() implies (#[trigger] r[k]).0 != channel by {
            let k0 = if k < i { k } else { k + 1 };
            assert(r[k] == rows[k0]);
        }
        assert forall|a: int, b: int|
            0 <= a < r.len() && 0 <= b < r.len() && a != b implies (#[trigger] r[a]).0 != (#[trigger] r[b]).0 by {
            let a0 = if a < i { a } else { a + 1 };
            let b0 = if b < i { b } else { b + 1 };
            assert(r[a] == rows[a0]);
            assert(r[b] == rows[b0]);
        }
        if has_channel(rows, other) {
            let j = channel_index(rows, other);
            assert(rows[j].0 == other);
            let j1 = if j < i { j } else { j - 1 };
            assert(r[j1] == rows[j]);
            assert(has_channel(r, other));
            let j2 = channel_index(r, other);
            assert(r[j2].0 == other);
            assert(j2 == j1);
        } else {
            assert forall|k: int| 0 <= k < r.len() implies (#[trigger] r[k]).0 != other by {
                let k0 = if k < i { k } else { k + 1 };
                assert(r[k] == rows[k0]);
            }
        }
    }
}

/// Channels are counted separately: registering `channel` and changing its
/// counters leaves what is registered for every other channel unchanged.
pub proof fn lemma_other_channels_untouched(
    rows: Seq<RegistryRow>,
    channel: Seq<char>,
    bot_id: Seq<char>,
    m: ChannelMetricsSnapshot,
    other: Seq<char>,
)
    requires
        rows_distinct(rows),
        other != channel,
    ensures
        lookup_channel(with_metrics(rows_with_channel(rows, channel, bot_id), registered_index(rows, channel, bot_id), m), other)
            == lookup_channel(rows, other),
        lookup_channel(with_metrics(rows_with_channel(rows, channel, bot_id), registered_index(rows, channel, bot_id), m), channel)
            == Some(m),
{
    lemma_rows_with_channel_facts(rows, channel, bot_id);
    let r = rows_with_channel(rows, channel, bot_id);
    let i = registered_index(rows, channel, bot_id);
    let r2 = with_metrics(r, i, m);
    lemma_with_metrics_keeps_distinct(r, i);
    assert(r2[i].0 == channel);
    assert(has_channel(r2, channel));
    let ci = channel_index(r2, channel);
    assert(r2[ci].0 == channel);
    assert(ci == i);
    if has_channel(rows, other) {
        let j = channel_index(rows, other);
        assert(rows[j].0 == other);
        assert(r[j] == rows[j]);
        assert(r2[j] == r[j]);
        assert(has_channel(r2, other));
        let j2 = channel_index(r2, other);
        assert(r2[j2].0 == other);
        assert(j2 == j);
    } else {
        assert forall|k: int| 0 <= k < r2.len() implies (#[trigger] r2[k]).0 != other by {
            if k < rows.len() {
                assert(r[k] == rows[k]);
            } else {
                assert(r[k].0 == channel);
            }
        }
    }
}

} // verus!
