//! Inbound channels, one per stage that is fed by other stages.
//!
//! A [`ChannelRegistry`] keeps, for each handle, an unbounded queue of
//! records and the mark that says whether the queue's receiving end has been
//! claimed. Sending never waits and never depends on the receiver: records
//! queue up until they are received. Receiving takes the oldest record.
//!
//! The registry's view is the map from handle to [`ChannelView`]. Each
//! operation is described by a function on such maps (`spec_create`,
//! `spec_claim`, `spec_send`, `spec_recv`), and the laws at the end of this
//! file are proved of those functions.

use std::collections::VecDeque;
use vstd::prelude::*;
use crate::record::{records_view, RecordEnvelope, RecordView};
use crate::stage::StageHandle;

verus! {

/// Why a channel operation was refused.
#[derive(Clone, Copy, Debug, PartialEq, Eq, Structural)]
pub enum ChannelError {
    /// A channel for this handle exists already.
    AlreadyExists(StageHandle),
    /// No channel was created for this handle.
    NotFound(StageHandle),
    /// The receiving end of this handle's channel was handed out before.
    ReceiverAlreadyClaimed(StageHandle),
    /// The handle names no stage that has a channel: a record was sent to a
    /// handle without one, or a channel was asked for the handle zero.
    NoSuchStage(StageHandle),
}

/// Mathematical content of one channel: the queued records, oldest first,
/// and whether the receiving end has been claimed.
pub struct ChannelView {
    pub queue: Seq<RecordView>,
    pub claimed: bool,
}

/// The receiving end of one stage's channel. There is at most one for each
/// channel, and it cannot be copied.
#[derive(Debug)]
pub struct Receiver {
    handle: StageHandle,
}

impl View for Receiver {
    type V = StageHandle;

    closed spec fn view(&self) -> StageHandle {
        self.handle
    }
}

impl Receiver {
    /// Handle of the stage whose channel this receiver drains.
    pub fn handle(&self) -> (handle: StageHandle)
        ensures
            handle == self@,
    {
        self.handle
    }
}

/// Creating a channel for `handle`. Zero names no stage, so there is no
/// channel to create for it.
pub open spec fn spec_create(channels: Map<StageHandle, ChannelView>, handle: StageHandle) -> (
    Result<(), ChannelError>,
    Map<StageHandle, ChannelView>,
) {
    if handle == 0 {
        (Err(ChannelError::NoSuchStage(handle)), channels)
    } else if channels.contains_key(handle) {
        (Err(ChannelError::AlreadyExists(handle)), channels)
    } else {
        (Ok(()), channels.insert(handle, ChannelView { queue: Seq::empty(), claimed: false }))
    }
}

/// Claiming the receiving end of the channel of `handle`.
pub open spec fn spec_claim(channels: Map<StageHandle, ChannelView>, handle: StageHandle) -> (
    Result<StageHandle, ChannelError>,
    Map<StageHandle, ChannelView>,
) {
    if !channels.contains_key(handle) {
        (Err(ChannelError::NotFound(handle)), channels)
    } else if channels[handle].claimed {
        (Err(ChannelError::ReceiverAlreadyClaimed(handle)), channels)
    } else {
        (Ok(handle), channels.insert(handle, ChannelView { claimed: true, ..channels[handle] }))
    }
}

/// Sending `record` to the channel of `handle`.
pub open spec fn spec_send(
    channels: Map<StageHandle, ChannelView>,
    handle: StageHandle,
    record: RecordView,
) -> (Result<(), ChannelError>, Map<StageHandle, ChannelView>) {
    if !channels.contains_key(handle) {
        (Err(ChannelError::NoSuchStage(handle)), channels)
    } else {
        (
            Ok(()),
            channels.insert(
                handle,
                ChannelView { queue: channels[handle].queue.push(record), ..channels[handle] },
            ),
        )
    }
}

/// Receiving from the channel of `handle`.
pub open spec fn spec_recv(channels: Map<StageHandle, ChannelView>, handle: StageHandle) -> (
    Option<RecordView>,
    Map<StageHandle, ChannelView>,
) {
    if channels.contains_key(handle) && channels[handle].queue.len() > 0 {
        (
            Some(channels[handle].queue[0]),
            channels.insert(
                handle,
                ChannelView { queue: channels[handle].queue.drop_first(), ..channels[handle] },
            ),
        )
    } else {
        (None, channels)
    }
}

/// The channels after each of `records` was sent to `handle`, in order.
pub open spec fn send_all(
    channels: Map<StageHandle, ChannelView>,
    handle: StageHandle,
    records: Seq<RecordView>,
) -> Map<StageHandle, ChannelView>
    decreases records.len(),
{
    if records.len() == 0 {
        channels
    } else {
        spec_send(send_all(channels, handle, records.drop_last()), handle, records.last()).1
    }
}

/// What `count` receptions from `handle` yield, in the order received, and
/// the channels afterwards. A reception from an empty queue yields nothing.
pub open spec fn recv_all(channels: Map<StageHandle, ChannelView>, handle: StageHandle, count: nat) -> (
    Seq<RecordView>,
    Map<StageHandle, ChannelView>,
)
    decreases count,
{
    if count == 0 {
        (Seq::empty(), channels)
    } else {
        let (first, rest) = spec_recv(channels, handle);
        let (more, end) = recv_all(rest, handle, (count - 1) as nat);
        match first {
            Some(record) => (seq![record] + more, end),
            None => (more, end),
        }
    }
}

struct Channel {
    handle: StageHandle,
    queue: VecDeque<RecordEnvelope>,
    claimed: bool,
}

spec fn slot_view(channel: Channel) -> ChannelView {
    ChannelView { queue: records_view(channel.queue@), claimed: channel.claimed }
}

spec fn has_channel(channels: Seq<Channel>, handle: StageHandle) -> bool {
    exists|i: int| 0 <= i < channels.len() && #[trigger] channels[i].handle == handle
}

spec fn channel_index(channels: Seq<Channel>, handle: StageHandle) -> int {
    choose|i: int| 0 <= i < channels.len() && #[trigger] channels[i].handle == handle
}

spec fn distinct_channels(channels: Seq<Channel>) -> bool {
    forall|i: int, j: int|
        0 <= i < j < channels.len() ==> (#[trigger] channels[i]).handle != (#[trigger] channels[j]).handle
}

spec fn nonzero_channels(channels: Seq<Channel>) -> bool {
    forall|i: int| 0 <= i < channels.len() ==> (#[trigger] channels[i]).handle != 0
}

spec fn channels_map(channels: Seq<Channel>) -> Map<StageHandle, ChannelView> {
    Map::new(
        |h: StageHandle| has_channel(channels, h),
        |h: StageHandle| slot_view(channels[channel_index(channels, h)]),
    )
}

proof fn lemma_channel_index(channels: Seq<Channel>, i: int)
    requires
        distinct_channels(channels),
        0 <= i < channels.len(),
    ensures
        has_channel(channels, channels[i].handle),
        channel_index(channels, channels[i].handle) == i,
        channels_map(channels).contains_key(channels[i].handle),
        channels_map(channels)[channels[i].handle] == slot_view(channels[i]),
{
    assert(channels[i].handle == channels[i].handle);
}

proof fn lemma_channels_push(channels: Seq<Channel>, added: Channel)
    requires
        distinct_channels(channels),
        !has_channel(channels, added.handle),
    ensures
        distinct_channels(channels.push(added)),
        channels_map(channels.push(added)) == channels_map(channels).insert(added.handle, slot_view(added)),
{
    let after = channels.push(added);
    assert forall|i: int, j: int| 0 <= i < j < after.len() implies (#[trigger] after[i]).handle != (
    #[trigger] after[j]).handle by {
        if j == channels.len() {
            assert(channels[i].handle == after[i].handle);
        } else {
            assert(channels[i] == after[i] && channels[j] == after[j]);
        }
    }
    assert forall|h: StageHandle| has_channel(after, h) <==> (has_channel(channels, h) || h
        == added.handle) by {
        if has_channel(channels, h) {
            let i = channel_index(channels, h);
            assert(after[i].handle == h);
        }
        if h == added.handle {
            assert(after[channels.len() as int].handle == h);
        }
        if has_channel(after, h) {
            let i = channel_index(after, h);
            if i < channels.len() {
                assert(channels[i].handle == h);
            }
        }
    }
    assert forall|h: StageHandle| has_channel(after, h) implies #[trigger] channels_map(after)[h]
        == channels_map(channels).insert(added.handle, slot_view(added))[h] by {
        let i = channel_index(after, h);
        lemma_channel_index(after, i);
        if i < channels.len() {
            lemma_channel_index(channels, i);
        }
    }
    assert(channels_map(after) =~= channels_map(channels).insert(added.handle, slot_view(added)));
}

proof fn lemma_channels_update(channels: Seq<Channel>, i: int, changed: Channel)
    requires
        distinct_channels(channels),
        0 <= i < channels.len(),
        changed.handle == channels[i].handle,
    ensures
        distinct_channels(channels.update(i, changed)),
        channels_map(channels.update(i, changed)) == channels_map(channels).insert(
            changed.handle,
            slot_view(changed),
        ),
{
    let after = channels.update(i, changed);
    assert forall|a: int, b: int| 0 <= a < b < after.len() implies (#[trigger] after[a]).handle != (
    #[trigger] after[b]).handle by {
        assert(after[a].handle == channels[a].handle);
        assert(after[b].handle == channels[b].handle);
    }
    assert forall|h: StageHandle| has_channel(after, h) <==> has_channel(channels, h) by {
        if has_channel(channels, h) {
            let k = channel_index(channels, h);
            assert(after[k].handle == h);
        }
        if has_channel(after, h) {
            let k = channel_index(after, h);
            assert(channels[k].handle == h);
        }
    }
    lemma_channel_index(channels, i);
    assert forall|h: StageHandle| has_channel(after, h) implies #[trigger] channels_map(after)[h]
        == channels_map(channels).insert(changed.handle, slot_view(changed))[h] by {
        let k = channel_index(after, h);
        lemma_channel_index(after, k);
        lemma_channel_index(channels, k);
    }
    assert(channels_map(after) =~= channels_map(channels).insert(changed.handle, slot_view(changed)));
}

/// The table from handle to inbound channel.
pub struct ChannelRegistry {
    channels: Vec<Channel>,
}

impl View for ChannelRegistry {
    type V = Map<StageHandle, ChannelView>;

    closed spec fn view(&self) -> Map<StageHandle, ChannelView> {
        channels_map(self.channels@)
    }
}

impl ChannelRegistry {
    #[verifier::type_invariant]
    spec fn well_formed(&self) -> bool {
        &&& distinct_channels(self.channels@)
        &&& nonzero_channels(self.channels@)
    }

    /// A registry without channels.
    pub fn new() -> (registry: ChannelRegistry)
        ensures
            registry@ == Map::<StageHandle, ChannelView>::empty(),
    {
        let registry = ChannelRegistry { channels: Vec::new() };
        assert(registry@ =~= Map::empty());
        registry
    }

    fn position(&self, handle: StageHandle) -> (pos: Option<usize>)
        ensures
            pos is Some <==> self@.contains_key(handle),
            pos matches Some(i) ==> i < self.channels@.len() && self.channels@[i as int].handle == handle
                && self@[handle] == slot_view(self.channels@[i as int]),
            distinct_channels(self.channels@),
            nonzero_channels(self.channels@),
    {
        proof {
            use_type_invariant(self);
        }
        let mut i: usize = 0;
        while i < self.channels.len()
            invariant
                i <= self.channels.len(),
                distinct_channels(self.channels@),
                nonzero_channels(self.channels@),
                forall|k: int| 0 <= k < i ==> (#[trigger] self.channels@[k]).handle != handle,
            decreases self.channels.len() - i,
        {
            if self.channels[i].handle == handle {
                proof {
                    lemma_channel_index(self.channels@, i as int);
                }
                return Some(i);
            }
            i += 1;
        }
        None
    }

    /// Whether a channel exists for `handle`. None exists for the handle
    /// zero.
    pub fn contains(&self, handle: StageHandle) -> (b: bool)
        ensures
            b == self@.contains_key(handle),
            !self@.contains_key(0),
    {
        let found = self.position(handle).is_some();
        proof {
            if has_channel(self.channels@, 0) {
                let i = channel_index(self.channels@, 0);
                assert(self.channels@[i].handle != 0);
            }
        }
        found
    }

    /// Whether any channel exists.
    pub fn is_empty(&self) -> (b: bool)
        ensures
            b == (self@ == Map::<StageHandle, ChannelView>::empty()),
    {
        proof {
            use_type_invariant(self);
            if self.channels@.len() == 0 {
                assert(self@ =~= Map::empty());
            } else {
                lemma_channel_index(self.channels@, 0);
            }
        }
        self.channels.len() == 0
    }

    /// Number of records queued for `handle`; `None` when `handle` has no
    /// channel.
    pub fn pending(&self, handle: StageHandle) -> (count: Option<usize>)
        ensures
            count is Some <==> self@.contains_key(handle),
            count matches Some(n) ==> n == self@[handle].queue.len(),
    {
        match self.position(handle) {
            Some(i) => Some(self.channels[i].queue.len()),
            None => None,
        }
    }

    /// Whether the receiving end of the channel of `handle` has been claimed;
    /// `None` when `handle` has no channel.
    pub fn is_claimed(&self, handle: StageHandle) -> (claimed: Option<bool>)
        ensures
            claimed is Some <==> self@.contains_key(handle),
            claimed matches Some(c) ==> c == self@[handle].claimed,
    {
        match self.position(handle) {
            Some(i) => Some(self.channels[i].claimed),
            None => None,
        }
    }

    /// Creates the channel of `handle`, empty and unclaimed. A second
    /// creation for the same handle is refused with `AlreadyExists`, one for
    /// the handle zero with `NoSuchStage`; a refusal changes nothing.
    pub fn create(&mut self, handle: StageHandle) -> (outcome: Result<(), ChannelError>)
        ensures
            outcome == spec_create(old(self)@, handle).0,
            final(self)@ == spec_create(old(self)@, handle).1,
    {
        if handle == 0 {
            return Err(ChannelError::NoSuchStage(handle));
        }
        if self.position(handle).is_some() {
            return Err(ChannelError::AlreadyExists(handle));
        }
        let ghost before = self.channels@;
        let added = Channel { handle, queue: VecDeque::new(), claimed: false };
        proof {
            lemma_channels_push(before, added);
            assert(slot_view(added).queue =~= Seq::empty());
        }
        let mut channels: Vec<Channel> = Vec::new();
        std::mem::swap(&mut channels, &mut self.channels);
        channels.push(added);
        assert(nonzero_channels(channels@)) by {
            assert forall|k: int| 0 <= k < channels@.len() implies (#[trigger] channels@[k]).handle
                != 0 by {
                if k < before.len() {
                    assert(before[k].handle != 0);
                }
            }
        }
        self.channels = channels;
        Ok(())
    }

    /// Hands out the receiving end of the channel of `handle`. It is handed
    /// out once: a later claim fails with `ReceiverAlreadyClaimed`, so that
    /// two workers can never drain the same queue. Records that were queued
    /// before the claim stay queued.
    pub fn claim_receiver(&mut self, handle: StageHandle) -> (outcome: Result<Receiver, ChannelError>)
        ensures
            match outcome {
                Ok(receiver) => spec_claim(old(self)@, handle).0 == Ok::<StageHandle, ChannelError>(
                    receiver@,
                ),
                Err(e) => spec_claim(old(self)@, handle).0 == Err::<StageHandle, ChannelError>(e),
            },
            final(self)@ == spec_claim(old(self)@, handle).1,
    {
        match self.position(handle) {
            None => Err(ChannelError::NotFound(handle)),
            Some(i) => {
                if self.channels[i].claimed {
                    return Err(ChannelError::ReceiverAlreadyClaimed(handle));
                }
                let ghost before = self.channels@;
                let mut channels: Vec<Channel> = Vec::new();
                std::mem::swap(&mut channels, &mut self.channels);
                channels[i].claimed = true;
                proof {
                    lemma_channels_update(before, i as int, channels@[i as int]);
                    assert(channels@ =~= before.update(i as int, channels@[i as int]));
                }
                assert(nonzero_channels(channels@)) by {
                    assert forall|k: int| 0 <= k < channels@.len() implies (
                    #[trigger] channels@[k]).handle != 0 by {
                        assert(before[k].handle != 0);
                    }
                }
                self.channels = channels;
                Ok(Receiver { handle })
            },
        }
    }

    /// Appends `record` to the queue of `handle`. The call never waits, and
    /// it does not matter whether the receiving end has been claimed yet.
    /// It fails only when `handle` has no channel.
    pub fn send(&mut self, handle: StageHandle, record: RecordEnvelope) -> (outcome: Result<
        (),
        ChannelError,
    >)
        ensures
            outcome == spec_send(old(self)@, handle, record@).0,
            final(self)@ == spec_send(old(self)@, handle, record@).1,
    {
        match self.position(handle) {
            None => Err(ChannelError::NoSuchStage(handle)),
            Some(i) => {
                let ghost before = self.channels@;
                let mut channels: Vec<Channel> = Vec::new();
                std::mem::swap(&mut channels, &mut self.channels);
                channels[i].queue.push_back(record);
                proof {
                    lemma_channels_update(before, i as int, channels@[i as int]);
                    assert(channels@ =~= before.update(i as int, channels@[i as int]));
                    assert(records_view(channels@[i as int].queue@) =~= records_view(
                        before[i as int].queue@,
                    ).push(record@));
                }
                assert(nonzero_channels(channels@)) by {
                    assert forall|k: int| 0 <= k < channels@.len() implies (
                    #[trigger] channels@[k]).handle != 0 by {
                        assert(before[k].handle != 0);
                    }
                }
                self.channels = channels;
                Ok(())
            },
        }
    }

    /// Takes the oldest queued record of the channel that `receiver` drains.
    /// The call never waits: it returns `None` when nothing is queued.
    pub fn recv(&mut self, receiver: &Receiver) -> (record: Option<RecordEnvelope>)
        ensures
            match record {
                Some(r) => spec_recv(old(self)@, receiver@).0 == Some(r@),
                None => spec_recv(old(self)@, receiver@).0 is None,
            },
            final(self)@ == spec_recv(old(self)@, receiver@).1,
    {
        match self.position(receiver.handle) {
            None => None,
            Some(i) => {
                let ghost before = self.channels@;
                let mut channels: Vec<Channel> = Vec::new();
                std::mem::swap(&mut channels, &mut self.channels);
                let record = channels[i].queue.pop_front();
                proof {
                    assert(channels@ =~= before.update(i as int, channels@[i as int]));
                    lemma_channels_update(before, i as int, channels@[i as int]);
                    if record is Some {
                        assert(records_view(channels@[i as int].queue@) =~= records_view(
                            before[i as int].queue@,
                        ).drop_first());
                    } else {
                        assert(slot_view(channels@[i as int]) == slot_view(before[i as int]));
                        assert(channels_map(channels@) =~= channels_map(before));
                    }
                }
                assert(nonzero_channels(channels@)) by {
                    assert forall|k: int| 0 <= k < channels@.len() implies (
                    #[trigger] channels@[k]).handle != 0 by {
                        assert(before[k].handle != 0);
                    }
                }
                self.channels = channels;
                record
            },
        }
    }
}

/// Sending records one after the other appends them to the queue.
pub proof fn lemma_send_all_queue(
    channels: Map<StageHandle, ChannelView>,
    handle: StageHandle,
    records: Seq<RecordView>,
)
    requires
        channels.contains_key(handle),
    ensures
        send_all(channels, handle, records) == channels.insert(
            handle,
            ChannelView { queue: channels[handle].queue + records, ..channels[handle] },
        ),
    decreases records.len(),
{
    let target = channels.insert(
        handle,
        ChannelView { queue: channels[handle].queue + records, ..channels[handle] },
    );
    if records.len() == 0 {
        assert(channels[handle].queue + records =~= channels[handle].queue);
        assert(target =~= channels);
    } else {
        lemma_send_all_queue(channels, handle, records.drop_last());
        let before = send_all(channels, handle, records.drop_last());
        assert(before[handle].queue.push(records.last()) =~= channels[handle].queue + records);
        assert(send_all(channels, handle, records) =~= target);
    }
}

/// Receiving `count` times from a queue that holds as many takes its first
/// `count` records, in order.
pub proof fn lemma_recv_all_queue(channels: Map<StageHandle, ChannelView>, handle: StageHandle, count: nat)
    requires
        channels.contains_key(handle),
        count <= channels[handle].queue.len(),
    ensures
        recv_all(channels, handle, count).0 == channels[handle].queue.take(count as int),
        recv_all(channels, handle, count).1 == channels.insert(
            handle,
            ChannelView { queue: channels[handle].queue.skip(count as int), ..channels[handle] },
        ),
    decreases count,
{
    let queue = channels[handle].queue;
    if count == 0 {
        assert(queue.take(0) =~= Seq::empty());
        assert(queue.skip(0) =~= queue);
        assert(channels.insert(handle, ChannelView { queue: queue.skip(0), ..channels[handle] })
            =~= channels);
    } else {
        let (first, rest) = spec_recv(channels, handle);
        lemma_recv_all_queue(rest, handle, (count - 1) as nat);
        assert(seq![queue[0]] + queue.drop_first().take(count - 1) =~= queue.take(count as int));
        assert(queue.drop_first().skip(count - 1) =~= queue.skip(count as int));
        assert(rest.insert(
            handle,
            ChannelView { queue: rest[handle].queue.skip(count - 1), ..rest[handle] },
        ) =~= channels.insert(handle, ChannelView { queue: queue.skip(count as int), ..channels[handle] }));
    }
}

/// Order is kept within a channel: what one producer sends to a stage's
/// channel, one record after the other, is what the consumer receives, in
/// the same order, after whatever was queued before.
pub proof fn law_fifo(
    channels: Map<StageHandle, ChannelView>,
    handle: StageHandle,
    records: Seq<RecordView>,
)
    requires
        channels.contains_key(handle),
    ensures
        recv_all(
            send_all(channels, handle, records),
            handle,
            channels[handle].queue.len() + records.len(),
        ).0 == channels[handle].queue + records,
        channels[handle].queue.len() == 0 ==> recv_all(
            send_all(channels, handle, records),
            handle,
            records.len(),
        ).0 == records,
{
    lemma_send_all_queue(channels, handle, records);
    let sent = send_all(channels, handle, records);
    let queue = channels[handle].queue + records;
    lemma_recv_all_queue(sent, handle, queue.len());
    assert(queue.take(queue.len() as int) =~= queue);
    if channels[handle].queue.len() == 0 {
        assert(queue =~= records);
    }
}

/// Sending to one stage leaves every other stage's channel as it was.
pub proof fn law_send_is_local(
    channels: Map<StageHandle, ChannelView>,
    handle: StageHandle,
    other: StageHandle,
    record: RecordView,
)
    requires
        other != handle,
    ensures
        spec_send(channels, handle, record).1.contains_key(other) == channels.contains_key(other),
        channels.contains_key(other) ==> spec_send(channels, handle, record).1[other] == channels[other],
{
}

/// The receiving end is handed out once: after a successful claim, the next
/// claim of the same handle fails with `ReceiverAlreadyClaimed`.
pub proof fn law_claim_once(channels: Map<StageHandle, ChannelView>, handle: StageHandle)
    requires
        spec_claim(channels, handle).0 is Ok,
    ensures
        spec_claim(channels, handle).0 == Ok::<StageHandle, ChannelError>(handle),
        spec_claim(spec_claim(channels, handle).1, handle) == (
            Err::<StageHandle, ChannelError>(ChannelError::ReceiverAlreadyClaimed(handle)),
            spec_claim(channels, handle).1,
        ),
{
}

/// Nothing sent before the claim is lost: records sent to a channel whose
/// receiving end has not been claimed are all received after the claim, in
/// the order in which they were sent.
pub proof fn law_queued_before_claim(
    channels: Map<StageHandle, ChannelView>,
    handle: StageHandle,
    records: Seq<RecordView>,
)
    requires
        channels.contains_key(handle),
        !channels[handle].claimed,
    ensures
        spec_claim(send_all(channels, handle, records), handle).0 is Ok,
        recv_all(
            spec_claim(send_all(channels, handle, records), handle).1,
            handle,
            channels[handle].queue.len() + records.len(),
        ).0 == channels[handle].queue + records,
{
    lemma_send_all_queue(channels, handle, records);
    let sent = send_all(channels, handle, records);
    let claimed = spec_claim(sent, handle).1;
    let queue = channels[handle].queue + records;
    assert(claimed[handle].queue == queue);
    lemma_recv_all_queue(claimed, handle, queue.len());
    assert(queue.take(queue.len() as int) =~= queue);
}

} // verus!
