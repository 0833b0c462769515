//! The store: it owns the framebuffer and the set of listeners, applies each
//! batch of commands to the one and hands its records to the other.
//!
//! A listener is the sending half of a bounded channel.  Delivery is
//! attempted once: a listener whose channel is closed is passed over, one
//! whose queue is full misses the batch.  Closed listeners stay in the set
//! until `sync_listeners` removes them.  The set takes `MAX_LISTENERS`
//! listeners; one that comes when it is full is turned away.
//!
//! Whatever changes the canvas or the set takes the store by exclusive
//! reference.  Tasks that share a store put it behind one lock and hold the
//! lock for one call: a reader then sees every batch either whole or not at
//! all, and no call waits while it holds the lock.

use crate::canvas::BUFFER_LEN;
use crate::codec::{all_valid, encode_batch, ClientMessage};
use crate::shapes::{rasterize_all, rasterized_all};
use vstd::prelude::*;

verus! {

/// The sending half of a bounded channel of `tokio`.
#[verifier::external_type_specification]
#[verifier::external_body]
#[verifier::reject_recursive_types(T)]
pub struct ExSender<T>(tokio::sync::mpsc::Sender<T>);

/// Largest number of listeners that the set takes.
pub const MAX_LISTENERS: usize = 1024;

/// What became of one batch for one listener.
#[derive(Debug, Clone, Copy, PartialEq, Eq)]
pub enum Delivery {
    /// The batch is in the listener's queue.
    Sent,
    /// The queue was full; the listener misses the batch.
    Full,
    /// The channel was closed; nothing was sent.
    Closed,
}

/// Calls `tokio::sync::mpsc::Sender::is_closed`, which tells whether the
/// receiving half of the channel has been closed or dropped.  The answer
/// depends on what the holder of that half has done, so nothing is claimed
/// of it.
#[verifier::external_body]
fn listener_closed(listener: &tokio::sync::mpsc::Sender<Vec<u8>>) -> (closed: bool) {
    listener.is_closed()
}

/// Calls `tokio::sync::mpsc::Sender::try_send` with a copy of `bytes`.  It
/// puts the copy in the queue of the channel without waiting, or fails
/// because the queue is full or the channel is closed.  Which of the three
/// happens depends on the state of the channel, so nothing is claimed of the
/// outcome.
#[verifier::external_body]
fn hand_over(listener: &tokio::sync::mpsc::Sender<Vec<u8>>, bytes: &[u8]) -> (outcome: Delivery) {
    match listener.try_send(bytes.to_vec()) {
        Ok(()) => Delivery::Sent,
        Err(tokio::sync::mpsc::error::TrySendError::Full(_)) => Delivery::Full,
        Err(tokio::sync::mpsc::error::TrySendError::Closed(_)) => Delivery::Closed,
    }
}

/// The canvas before anything was drawn: every pixel white.
pub open spec fn blank_canvas() -> Seq<u8> {
    Seq::new(BUFFER_LEN as nat, |i: int| 0xffu8)
}

/// The canvas that a snapshot gives: its first `BUFFER_LEN` bytes, followed
/// by zeros where it has fewer.
pub open spec fn loaded_canvas(snapshot: Seq<u8>) -> Seq<u8> {
    Seq::new(
        BUFFER_LEN as nat,
        |i: int|
            if i < snapshot.len() {
                snapshot[i]
            } else {
                0u8
            },
    )
}

/// The canvas that the store starts with.
pub open spec fn initial_canvas(snapshot: Option<Vec<u8>>) -> Seq<u8> {
    match snapshot {
        Some(bytes) => loaded_canvas(bytes@),
        None => blank_canvas(),
    }
}

/// The listeners among `listeners` whose flag in `closed` is not set, in
/// their order.
pub open spec fn still_open<T>(listeners: Seq<T>, closed: Seq<bool>) -> Seq<T>
    decreases listeners.len(),
{
    if listeners.len() == 0 {
        Seq::empty()
    } else {
        let last = listeners.len() - 1;
        let before = still_open(listeners.take(last), closed);
        if closed[last] {
            before
        } else {
            before.push(listeners[last])
        }
    }
}

/// Number of flags in `closed` that are not set.
pub open spec fn open_count(closed: Seq<bool>) -> nat
    decreases closed.len(),
{
    if closed.len() == 0 {
        0
    } else if closed.last() {
        open_count(closed.drop_last())
    } else {
        open_count(closed.drop_last()) + 1
    }
}

/// The framebuffer and the listeners that follow it.
pub struct Data {
    data: Vec<u8>,
    listeners: Vec<tokio::sync::mpsc::Sender<Vec<u8>>>,
}

impl Data {
    /// The bytes of the framebuffer.
    pub closed spec fn view(&self) -> Seq<u8> {
        self.data@
    }

    /// The invariant of the store: the framebuffer has its full length.
    pub open spec fn wf(&self) -> bool {
        self@.len() == BUFFER_LEN
    }

    /// The listeners, in the order in which they were added.
    pub closed spec fn subscribers(&self) -> Seq<tokio::sync::mpsc::Sender<Vec<u8>>> {
        self.listeners@
    }

    /// A store without listeners.  Its canvas is that of the snapshot, cut or
    /// filled with zeros to the length of the framebuffer, or all white where
    /// there is no snapshot.
    pub fn new(snapshot: Option<Vec<u8>>) -> (store: Data)
        ensures
            store.wf(),
            store@ == initial_canvas(snapshot),
            store.subscribers().len() == 0,
    {
        let data: Vec<u8> = match snapshot {
            Some(bytes) => {
                let mut loaded: Vec<u8> = bytes;
                loaded.truncate(BUFFER_LEN);
                loaded.resize(BUFFER_LEN, 0);
                assert(loaded@ =~= loaded_canvas(bytes@));
                loaded
            },
            None => {
                let blank: Vec<u8> = vec![0xffu8; BUFFER_LEN];
                assert(blank@ =~= blank_canvas());
                blank
            },
        };
        Data { data, listeners: Vec::new() }
    }

    /// The framebuffer as it stands, for export and for a snapshot.
    pub fn pixels(&self) -> (bytes: &[u8])
        ensures
            bytes@ == self@,
    {
        self.data.as_slice()
    }

    /// Number of listeners in the set, closed ones included.
    pub fn listener_count(&self) -> (n: usize)
        ensures
            n == self.subscribers().len(),
    {
        self.listeners.len()
    }

    /// Adds a listener at the end of the set.  Where the set holds
    /// `MAX_LISTENERS` listeners already, the new one is turned away: it is
    /// dropped, which closes its channel, and the set stays as it is.
    pub fn add_listener(&mut self, listener: tokio::sync::mpsc::Sender<Vec<u8>>)
        ensures
            final(self).subscribers() == (if old(self).subscribers().len() < MAX_LISTENERS {
                old(self).subscribers().push(listener)
            } else {
                old(self).subscribers()
            }),
            final(self)@ == old(self)@,
    {
        if self.listeners.len() < MAX_LISTENERS {
            self.listeners.push(listener);
        }
    }

    /// Asks every listener whether its channel is closed.
    pub fn closed_listeners(&self) -> (closed: Vec<bool>)
        ensures
            closed.len() == self.subscribers().len(),
    {
        let mut closed: Vec<bool> = Vec::new();
        let mut i: usize = 0;
        while i < self.listeners.len()
            invariant
                i <= self.listeners.len(),
                closed.len() == i,
            decreases self.listeners.len() - i,
        {
            closed.push(listener_closed(&self.listeners[i]));
            i += 1;
        }
        closed
    }

    /// Removes from the set the listeners whose flag in `closed` is set.
    pub fn remove_listeners(&mut self, closed: &[bool])
        requires
            closed.len() == old(self).subscribers().len(),
        ensures
            final(self).subscribers() == still_open(old(self).subscribers(), closed@),
            final(self)@ == old(self)@,
    {
        let ghost before = self.listeners@;
        let mut kept: usize = 0;
        let mut seen: usize = 0;
        while seen < closed.len()
            invariant
                before == old(self).listeners@,
                closed.len() == before.len(),
                seen <= closed.len(),
                kept <= seen,
                kept == still_open(before.take(seen as int), closed@).len(),
                self.listeners@ == still_open(before.take(seen as int), closed@) + before.skip(
                    seen as int,
                ),
                self.data == old(self).data,
            decreases closed.len() - seen,
        {
            proof {
                assert(before.take(seen + 1).take(seen as int) =~= before.take(seen as int));
            }
            if closed[seen] {
                self.listeners.remove(kept);
                assert(self.listeners@ =~= still_open(before.take(seen + 1), closed@) + before.skip(
                    seen + 1,
                ));
            } else {
                assert(self.listeners@ =~= still_open(before.take(seen + 1), closed@) + before.skip(
                    seen + 1,
                ));
                kept += 1;
            }
            seen += 1;
        }
        assert(before.take(seen as int) =~= before);
        assert(self.listeners@ =~= still_open(before, closed@));
    }

    /// Removes the listeners whose channel is closed.  Which ones those are
    /// is for the channels to say; the others stay, in their order.
    pub fn sync_listeners(&mut self)
        ensures
            exists|closed: Seq<bool>|
                closed.len() == old(self).subscribers().len() && final(self).subscribers()
                    == #[trigger] still_open(old(self).subscribers(), closed),
            final(self)@ == old(self)@,
    {
        let closed: Vec<bool> = self.closed_listeners();
        self.remove_listeners(closed.as_slice());
    }

    /// Offers `encoded` once to every listener, in the order of the set, and
    /// tells for each what became of it.  A listener whose channel is found
    /// closed is passed over.
    pub fn publish(&self, encoded: &[u8]) -> (report: Vec<Delivery>)
        ensures
            report.len() == self.subscribers().len(),
    {
        let mut report: Vec<Delivery> = Vec::new();
        let mut i: usize = 0;
        while i < self.listeners.len()
            invariant
                i <= self.listeners.len(),
                report.len() == i,
            decreases self.listeners.len() - i,
        {
            if listener_closed(&self.listeners[i]) {
                report.push(Delivery::Closed);
            } else {
                report.push(hand_over(&self.listeners[i], encoded));
            }
            i += 1;
        }
        report
    }

    /// Applies a batch to the canvas, command by command, then publishes its
    /// records.  An empty batch is not published.
    pub fn write(&mut self, batch: &[ClientMessage]) -> (report: Vec<Delivery>)
        requires
            old(self).wf(),
            all_valid(batch@),
        ensures
            final(self).wf(),
            final(self)@ == rasterized_all(old(self)@, batch@),
            final(self).subscribers() == old(self).subscribers(),
            report.len() == (if batch.len() == 0 {
                0
            } else {
                old(self).subscribers().len()
            }),
    {
        rasterize_all(self.data.as_mut_slice(), batch);
        if batch.len() == 0 {
            Vec::new()
        } else {
            let encoded: Vec<u8> = encode_batch(batch);
            self.publish(encoded.as_slice())
        }
    }
}

} // verus!
