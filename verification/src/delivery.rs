use std::collections::VecDeque;
use vstd::prelude::*;
use crate::buffer::{BufferView, PixelBuffer};
use crate::format::Resolution;

verus! {

/// One captured frame on its way to the consumer.
#[derive(Debug)]
pub struct Frame {
    /// Position of the frame in the order of capture.
    pub sequence: u64,
    pub buffer: PixelBuffer,
}

pub struct FrameView {
    pub sequence: u64,
    pub buffer: BufferView,
}

impl View for Frame {
    type V = FrameView;

    open spec fn view(&self) -> FrameView {
        FrameView { sequence: self.sequence, buffer: self.buffer@ }
    }
}

/// An owned copy of a delivered frame, detached from the pool.
#[derive(Debug)]
pub struct RgbFrame {
    pub sequence: u64,
    pub resolution: Resolution,
    pub pixels: Vec<u8>,
}

impl RgbFrame {
    /// Whether this is a faithful copy of `frame`.
    pub open spec fn copies(self, frame: FrameView) -> bool {
        &&& self.sequence == frame.sequence
        &&& self.resolution == frame.buffer.resolution
        &&& self.pixels@ == frame.buffer.pixels
    }
}

impl Frame {
    /// A copy of the frame for a reader who wants to keep it.
    pub fn snapshot(&self) -> (copy: RgbFrame)
        ensures
            copy.copies(self@),
    {
        RgbFrame {
            sequence: self.sequence,
            resolution: self.buffer.resolution(),
            pixels: self.buffer.to_vec(),
        }
    }
}

/// A send found the receiving side gone; the frame was dropped.
#[derive(Clone, Copy, Debug, PartialEq, Eq, Structural)]
pub struct Closed;

/// The channel as contracts see it.
pub struct ChannelView {
    /// The frames sent and not yet received, oldest first.
    pub queue: Seq<FrameView>,
    /// Whether the receiving side is still there.
    pub connected: bool,
}

impl ChannelView {
    pub open spec fn empty() -> ChannelView {
        ChannelView { queue: Seq::empty(), connected: true }
    }

    /// A frame sent to a connected channel joins the end of the queue.
    pub open spec fn send(self, frame: FrameView) -> (ChannelView, Result<(), Closed>) {
        if self.connected {
            (ChannelView { queue: self.queue.push(frame), ..self }, Ok(()))
        } else {
            (self, Err(Closed))
        }
    }

    /// Receiving takes the oldest frame, if there is one.
    pub open spec fn receive(self) -> (ChannelView, Option<FrameView>) {
        if self.queue.len() > 0 {
            (ChannelView { queue: self.queue.drop_first(), ..self }, Some(self.queue[0]))
        } else {
            (self, None)
        }
    }

    /// The receiver leaves: what was queued is dropped and later sends fail.
    pub open spec fn disconnect(self) -> ChannelView {
        ChannelView { queue: Seq::empty(), connected: false }
    }
}

/// The ordered hand-off of frames from the capture worker to the consumer.
/// It holds any number of frames; what slows the worker down is the buffer
/// pool, not the channel.
#[derive(Debug)]
pub struct DeliveryChannel {
    queue: VecDeque<Frame>,
    connected: bool,
}

impl View for DeliveryChannel {
    type V = ChannelView;

    closed spec fn view(&self) -> ChannelView {
        ChannelView { queue: self.queue@.map_values(|f: Frame| f@), connected: self.connected }
    }
}

impl DeliveryChannel {
    pub fn new() -> (channel: DeliveryChannel)
        ensures
            channel@ == ChannelView::empty(),
    {
        let channel = DeliveryChannel { queue: VecDeque::new(), connected: true };
        assert(channel@.queue =~= Seq::empty());
        channel
    }

    pub fn len(&self) -> (len: usize)
        ensures
            len == self@.queue.len(),
    {
        self.queue.len()
    }

    pub fn is_connected(&self) -> (connected: bool)
        ensures
            connected == self@.connected,
    {
        self.connected
    }

    pub fn send(&mut self, frame: Frame) -> (res: Result<(), Closed>)
        ensures
            final(self)@ == old(self)@.send(frame@).0,
            res == old(self)@.send(frame@).1,
    {
        if self.connected {
            self.queue.push_back(frame);
            assert(self@.queue =~= old(self)@.queue.push(frame@));
            Ok(())
        } else {
            Err(Closed)
        }
    }

    /// The oldest frame not yet received, or `None` when the queue is empty;
    /// a consumer that wants to block calls again once a frame was sent.
    pub fn receive(&mut self) -> (res: Option<Frame>)
        ensures
            final(self)@ == old(self)@.receive().0,
            match res {
                Some(frame) => old(self)@.receive().1 == Some(frame@),
                None => old(self)@.receive().1 == None::<FrameView>,
            },
    {
        let res = self.queue.pop_front();
        assert(self@.queue =~= old(self)@.receive().0.queue);
        res
    }

    pub fn disconnect(&mut self)
        ensures
            final(self)@ == old(self)@.disconnect(),
    {
        self.queue = VecDeque::new();
        self.connected = false;
        assert(self@.queue =~= Seq::empty());
    }
}

} // verus!
