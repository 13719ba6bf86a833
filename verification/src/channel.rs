//! Single-slot channels between a capture and the pipeline: one for frame
//! bytes and one for frame metadata. Publishing replaces whatever waits
//! unread, so a reader only ever finds the latest value, and neither side
//! ever waits for the other.
//!
//! A channel value owns both ends of a bounded queue of capacity one and
//! hands neither out, so what waits in the queue changes only through the
//! calls made here.

use crate::frame::{LatestImage, LatestImageView, ScreencastFrame, ScreencastMeta};
use vstd::prelude::*;

verus! {

/// `crossbeam_channel::Sender`, the writing end of a queue.
#[verifier::external_type_specification]
#[verifier::external_body]
#[verifier::reject_recursive_types(T)]
pub struct ExSender<T>(crossbeam_channel::Sender<T>);

/// `crossbeam_channel::Receiver`, the reading end of a queue.
#[verifier::external_type_specification]
#[verifier::external_body]
#[verifier::reject_recursive_types(T)]
pub struct ExReceiver<T>(crossbeam_channel::Receiver<T>);

/// What travels through a queue: the bytes of a frame, or metadata.
pub enum Packet {
    Frame(ScreencastFrame),
    Meta(ScreencastMeta),
}

/// Both ends of a bounded queue of capacity one.
pub struct Queue {
    tx: crossbeam_channel::Sender<Packet>,
    rx: crossbeam_channel::Receiver<Packet>,
}

/// What waits in the queue, oldest first.
pub uninterp spec fn pending(queue: Queue) -> Seq<Packet>;

/// What waits after `value` was published: `value` alone, whatever waited
/// before.
pub open spec fn published<T>(pending: Seq<T>, value: T) -> Seq<T> {
    seq![value]
}

/// What a reader gets: the value that waits, or nothing.
pub open spec fn taken<T>(pending: Seq<T>) -> Option<T> {
    if pending.len() == 0 {
        None
    } else {
        Some(pending[0])
    }
}

/// What waits after a reader has come.
pub open spec fn after_take<T>(pending: Seq<T>) -> Seq<T> {
    if pending.len() == 0 {
        pending
    } else {
        pending.drop_first()
    }
}

/// Of two values published one after the other with no take in between,
/// only the second can be taken, and after it nothing.
pub proof fn lemma_latest_value_wins<T>(pending: Seq<T>, first: T, second: T)
    ensures
        taken(published(published(pending, first), second)) == Some(second),
        taken(after_take(published(published(pending, first), second))) is None,
{
}

/// `crossbeam_channel::bounded` with capacity 1: a queue in which nothing
/// waits.
#[verifier::external_body]
fn open() -> (queue: Queue)
    ensures
        pending(queue).len() == 0,
{
    let (tx, rx) = crossbeam_channel::bounded(1);
    Queue { tx, rx }
}

/// `crossbeam_channel::Receiver::try_recv`: takes the oldest waiting value
/// out of the queue, without waiting for one.
#[verifier::external_body]
fn try_recv(queue: &mut Queue) -> (r: Option<Packet>)
    ensures
        pending(*old(queue)).len() == 0 ==> r is None && pending(*final(queue)) == pending(
            *old(queue),
        ),
        pending(*old(queue)).len() > 0 ==> r == Some(pending(*old(queue))[0]) && pending(
            *final(queue),
        ) == pending(*old(queue)).drop_first(),
    no_unwind
{
    queue.rx.try_recv().ok()
}

/// `crossbeam_channel::Sender::send` into an empty queue of capacity one:
/// the value waits at once. Into a full queue the call would wait for a
/// reader.
#[verifier::external_body]
fn send(queue: &mut Queue, packet: Packet)
    requires
        pending(*old(queue)).len() == 0,
    ensures
        pending(*final(queue)) == seq![packet],
    no_unwind
{
    let _ = queue.tx.send(packet);
}

/// Takes everything out of the queue.
fn drain(queue: &mut Queue)
    ensures
        pending(*final(queue)).len() == 0,
    no_unwind
{
    loop
        ensures
            pending(*queue).len() == 0,
        decreases pending(*queue).len(),
    {
        match try_recv(queue) {
            Some(_) => {},
            None => {
                break ;
            },
        }
    }
}

/// The bytes of the frame that a packet holds.
pub open spec fn frame_bytes(packet: Packet) -> Seq<u8> {
    packet->Frame_0.0@
}

/// The metadata that a packet holds.
pub open spec fn meta_of(packet: Packet) -> ScreencastMeta {
    packet->Meta_0
}

/// The channel for frame bytes.
pub struct FrameChannel {
    queue: Queue,
}

/// The channel for frame metadata.
pub struct MetaChannel {
    queue: Queue,
}

impl View for FrameChannel {
    type V = Seq<Seq<u8>>;

    closed spec fn view(&self) -> Seq<Seq<u8>> {
        pending(self.queue).map_values(|p: Packet| frame_bytes(p))
    }
}

impl View for MetaChannel {
    type V = Seq<ScreencastMeta>;

    closed spec fn view(&self) -> Seq<ScreencastMeta> {
        pending(self.queue).map_values(|p: Packet| meta_of(p))
    }
}

/// The bytes of an optional frame.
pub open spec fn bytes_of(frame: Option<ScreencastFrame>) -> Option<Seq<u8>> {
    match frame {
        Some(f) => Some(f.0@),
        None => None,
    }
}

impl FrameChannel {
    #[verifier::type_invariant]
    spec fn holds_frames_only(self) -> bool {
        forall|i: int| 0 <= i < pending(self.queue).len() ==> (#[trigger] pending(self.queue)[i])
            is Frame
    }

    /// A channel in which nothing waits.
    pub fn new() -> (channel: FrameChannel)
        ensures
            channel@.len() == 0,
    {
        FrameChannel { queue: open() }
    }

    /// Makes `frame` the one value that waits, in place of any other.
    pub fn publish(&mut self, frame: ScreencastFrame)
        ensures
            final(self)@ == published(old(self)@, frame.0@),
    {
        drain(&mut self.queue);
        send(&mut self.queue, Packet::Frame(frame));
        assert(self@ =~= seq![frame.0@]);
    }

    /// Takes the waiting frame, if one waits. Never waits for one.
    pub fn try_take(&mut self) -> (r: Option<ScreencastFrame>)
        ensures
            bytes_of(r) == taken(old(self)@),
            final(self)@ == after_take(old(self)@),
    {
        proof {
            use_type_invariant(&*self);
        }
        let ghost before = pending(self.queue);
        let packet = try_recv(&mut self.queue);
        proof {
            if before.len() > 0 {
                assert(before[0] is Frame);
                assert(self@ =~= after_take(before.map_values(|p: Packet| frame_bytes(p))));
            }
        }
        match packet {
            Some(Packet::Frame(frame)) => Some(frame),
            _ => None,
        }
    }
}

impl MetaChannel {
    #[verifier::type_invariant]
    spec fn holds_metadata_only(self) -> bool {
        forall|i: int| 0 <= i < pending(self.queue).len() ==> (#[trigger] pending(self.queue)[i])
            is Meta
    }

    /// A channel in which nothing waits.
    pub fn new() -> (channel: MetaChannel)
        ensures
            channel@.len() == 0,
    {
        MetaChannel { queue: open() }
    }

    /// Makes `meta` the one value that waits, in place of any other.
    pub fn publish(&mut self, meta: ScreencastMeta)
        ensures
            final(self)@ == published(old(self)@, meta),
    {
        drain(&mut self.queue);
        send(&mut self.queue, Packet::Meta(meta));
        assert(self@ =~= seq![meta]);
    }

    /// Takes the waiting metadata, if any waits. Never waits for any.
    pub fn try_take(&mut self) -> (r: Option<ScreencastMeta>)
        ensures
            r == taken(old(self)@),
            final(self)@ == after_take(old(self)@),
    {
        proof {
            use_type_invariant(&*self);
        }
        let ghost before = pending(self.queue);
        let packet = try_recv(&mut self.queue);
        proof {
            if before.len() > 0 {
                assert(before[0] is Meta);
                assert(self@ =~= after_take(before.map_values(|p: Packet| meta_of(p))));
            }
        }
        match packet {
            Some(Packet::Meta(meta)) => Some(meta),
            _ => None,
        }
    }
}

/// The reading ends of a capture: its frames and its metadata.
pub struct ScreencastReceiver {
    pub frames: FrameChannel,
    pub meta: MetaChannel,
}

/// `latest` after whatever waited was moved into it.
pub open spec fn received(latest: LatestImageView, meta: Option<ScreencastMeta>, frame: Option<
    Seq<u8>,
>) -> LatestImageView {
    LatestImageView {
        buffer: match frame {
            Some(bytes) => bytes,
            None => latest.buffer,
        },
        meta: match meta {
            Some(m) => m,
            None => latest.meta,
        },
        ..latest
    }
}

impl ScreencastReceiver {
    /// Two channels in which nothing waits.
    pub fn new() -> (r: ScreencastReceiver)
        ensures
            r.frames@.len() == 0,
            r.meta@.len() == 0,
    {
        ScreencastReceiver { frames: FrameChannel::new(), meta: MetaChannel::new() }
    }

    /// Moves the waiting metadata and the waiting frame, where there are
    /// any, into `img`. Never waits.
    pub fn receive_frames(&mut self, img: &mut LatestImage)
        ensures
            final(img)@ == received(old(img)@, taken(old(self).meta@), taken(old(self).frames@)),
            final(self).meta@ == after_take(old(self).meta@),
            final(self).frames@ == after_take(old(self).frames@),
    {
        match self.meta.try_take() {
            Some(meta) => {
                img.set_latest_meta(meta);
            },
            None => {},
        }
        match self.frames.try_take() {
            Some(frame) => {
                img.set_latest_img(frame.0);
            },
            None => {},
        }
    }
}

} // verus!
