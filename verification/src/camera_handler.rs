use vstd::prelude::*;
use crate::buffer::{BufferView, PixelBuffer};
use crate::delivery::{ChannelView, DeliveryChannel, Frame, FrameView, RgbFrame};
use crate::device::{DeviceError, DeviceSlot, DeviceState, OpenPlan};
use crate::format::{CameraFormat, PixelEncoding, RequestedFormat, Resolution, StreamInfo};
use crate::pool::{AcquireError, BufferPool, PoolView};

verus! {

/// The number of buffers the engine's pool may hold.
pub const POOL_CAPACITY: usize = 10;

/// What the capture worker is doing.
#[derive(Clone, Copy, Debug, PartialEq, Eq, Structural)]
pub enum WorkerState {
    /// No device streams; the worker has nothing to pull from.
    Idle,
    /// A device streams and the worker pulls frames from it.
    Streaming,
    /// The worker has been told to stop, or has nobody left to serve.
    ShuttingDown,
}

/// What the capture worker does next.
#[derive(Debug)]
pub enum WorkerStep {
    /// Leave the loop.
    Exit,
    /// No device streams: yield and ask again.
    Idle,
    /// Every buffer is checked out: wait for a release and ask again.
    Wait,
    /// The device's frames are too large to store: skip this round.
    Unstorable,
    /// Pull one frame into `buffer`, then publish it or abandon it.
    Capture { buffer: PixelBuffer, frame_rate: u32 },
}

pub enum StepView {
    Exit,
    Idle,
    Wait,
    Unstorable,
    Capture { buffer: BufferView, frame_rate: u32 },
}

impl View for WorkerStep {
    type V = StepView;

    open spec fn view(&self) -> StepView {
        match *self {
            WorkerStep::Exit => StepView::Exit,
            WorkerStep::Idle => StepView::Idle,
            WorkerStep::Wait => StepView::Wait,
            WorkerStep::Unstorable => StepView::Unstorable,
            WorkerStep::Capture { buffer, frame_rate } => StepView::Capture {
                buffer: buffer@,
                frame_rate,
            },
        }
    }
}

/// Why a captured frame was not queued for the consumer.
#[derive(Clone, Copy, Debug, PartialEq, Eq, Structural)]
pub enum PublishError {
    /// The consumer is gone. The worker has nobody left to serve and stops.
    Closed,
    /// The frame does not have the shape of the stream that is open now.
    Stale,
    /// All sequence numbers are used up.
    SequenceExhausted,
}

/// What the consumer gets when it asks for the next frame.
#[derive(Debug)]
pub enum Delivery {
    /// The oldest frame not yet delivered.
    Frame(Frame),
    /// Nothing is queued, but the worker goes on: wait and ask again.
    Pending,
    /// Nothing is queued and the worker has been stopped: no frame will
    /// come for the waiting.
    Finished,
}

/// The engine as contracts see it.
pub struct EngineView {
    /// Index of the device opened last; zero before the first.
    pub camera_idx: u32,
    pub device: DeviceState,
    pub pool: PoolView,
    pub channel: ChannelView,
    /// Sequence number of the frame published last.
    pub sequence: u64,
    /// Sequence number of the frame delivered last.
    pub delivered: u64,
    /// Whether the worker is meant to go on.
    pub running: bool,
}

impl EngineView {
    /// The pool is well formed, and the queue holds whole frames whose
    /// sequence numbers rise, all above the last one delivered and none
    /// above the last one published.
    pub open spec fn wf(self) -> bool {
        &&& self.pool.wf()
        &&& self.delivered <= self.sequence
        &&& forall|i: int|
            0 <= i < self.channel.queue.len() ==> {
                &&& self.delivered < (#[trigger] self.channel.queue[i]).sequence <= self.sequence
                &&& self.channel.queue[i].buffer.wf()
            }
        &&& forall|i: int, j: int|
            0 <= i < j < self.channel.queue.len() ==> (#[trigger] self.channel.queue[i]).sequence
                < (#[trigger] self.channel.queue[j]).sequence
    }

    /// A fresh engine: no device, no buffers, nothing queued, worker
    /// running. Its first frame gets the number after `sequence`.
    pub open spec fn initial(capacity: nat, sequence: u64) -> EngineView {
        EngineView {
            camera_idx: 0,
            device: DeviceState::Closed,
            pool: PoolView::empty(capacity),
            channel: ChannelView::empty(),
            sequence,
            delivered: sequence,
            running: true,
        }
    }

    pub open spec fn worker_state(self) -> WorkerState {
        if !self.running {
            WorkerState::ShuttingDown
        } else if self.device.is_streaming() {
            WorkerState::Streaming
        } else {
            WorkerState::Idle
        }
    }

    /// A request to open device `index`; with no format given the highest
    /// frame rate is asked for.
    pub open spec fn set_camera(self, index: u32, config: Option<RequestedFormat>) -> (
        EngineView,
        Result<OpenPlan, DeviceError>,
    ) {
        let format = match config {
            Some(format) => format,
            None => RequestedFormat::HighestFrameRate,
        };
        (
            EngineView { device: self.device.begin_open(index, format).0, ..self },
            self.device.begin_open(index, format).1,
        )
    }

    /// The outcome of the open under way. A stream that started is put in
    /// the slot, and the pool takes its shape before the worker can see it.
    pub open spec fn swap_camera(self, outcome: Option<StreamInfo>) -> (
        EngineView,
        Result<(), DeviceError>,
    ) {
        match (self.device, outcome) {
            (DeviceState::Opening { index, format }, Some(info)) => (
                EngineView {
                    camera_idx: index,
                    device: self.device.finish_open(outcome).0,
                    pool: self.pool.reshape(info.resolution),
                    ..self
                },
                Ok(()),
            ),
            _ => (
                EngineView { device: self.device.finish_open(outcome).0, ..self },
                self.device.finish_open(outcome).1,
            ),
        }
    }

    /// Closing empties the device slot; see `DeviceState::close`.
    pub open spec fn close(self) -> (EngineView, Option<u32>) {
        (EngineView { device: self.device.close().0, ..self }, self.device.close().1)
    }

    /// Shutting down stops the worker and closes the device. An open under
    /// way is called off with it.
    pub open spec fn shutdown(self) -> (EngineView, Option<u32>) {
        (
            EngineView { device: self.device.close().0, running: false, ..self },
            self.device.close().1,
        )
    }

    /// What the worker is told when it asks what to do.
    pub open spec fn poll(self) -> (EngineView, StepView) {
        if !self.running {
            (self, StepView::Exit)
        } else {
            match self.device.stream() {
                None => (self, StepView::Idle),
                Some(info) => (
                    EngineView { pool: self.pool.acquire(info.resolution).0, ..self },
                    match self.pool.acquire(info.resolution).1 {
                        Ok(buffer) => StepView::Capture { buffer, frame_rate: info.frame_rate },
                        Err(AcquireError::Exhausted) => StepView::Wait,
                        Err(AcquireError::Unrepresentable) => StepView::Unstorable,
                    },
                ),
            }
        }
    }

    /// Whether a frame in this buffer has the shape of the open stream.
    pub open spec fn current(self, buffer: BufferView) -> bool {
        match self.device.stream() {
            Some(info) => info.resolution == buffer.resolution,
            None => false,
        }
    }

    /// Why a frame in this buffer would not be queued, if anything.
    pub open spec fn refusal(self, buffer: BufferView) -> Option<PublishError> {
        if !self.channel.connected {
            Some(PublishError::Closed)
        } else if !self.current(buffer) {
            Some(PublishError::Stale)
        } else if self.sequence == u64::MAX {
            Some(PublishError::SequenceExhausted)
        } else {
            None
        }
    }

    /// Publishing a captured frame: it gets the next sequence number and
    /// joins the queue. A frame that is refused goes back to the pool, and a
    /// missing consumer stops the worker.
    pub open spec fn publish(self, buffer: BufferView) -> (EngineView, Result<u64, PublishError>) {
        match self.refusal(buffer) {
            None => (
                EngineView {
                    channel: self.channel.send(
                        FrameView { sequence: (self.sequence + 1) as u64, buffer },
                    ).0,
                    sequence: (self.sequence + 1) as u64,
                    ..self
                },
                Ok((self.sequence + 1) as u64),
            ),
            Some(e) => (
                EngineView {
                    pool: self.pool.release(buffer).0,
                    running: self.running && self.channel.connected,
                    ..self
                },
                Err(e),
            ),
        }
    }

    /// Giving up a capture: the buffer goes back to the pool.
    pub open spec fn abandon(self, buffer: BufferView) -> EngineView {
        EngineView { pool: self.pool.release(buffer).0, ..self }
    }

    /// Handing the oldest queued frame to the consumer.
    pub open spec fn receive(self) -> (EngineView, Option<FrameView>) {
        match self.channel.receive().1 {
            Some(frame) => (
                EngineView {
                    channel: self.channel.receive().0,
                    delivered: frame.sequence,
                    ..self
                },
                Some(frame),
            ),
            None => (self, None),
        }
    }

    /// The consumer returns a buffer it is done with.
    pub open spec fn release(self, buffer: BufferView) -> (EngineView, bool) {
        (EngineView { pool: self.pool.release(buffer).0, ..self }, self.pool.release(buffer).1)
    }

    /// Receiving a frame and returning its buffer in one step.
    pub open spec fn get_frame(self) -> (EngineView, Option<FrameView>) {
        match self.receive().1 {
            Some(frame) => (self.receive().0.release(frame.buffer).0, Some(frame)),
            None => (self, None),
        }
    }

    /// The consumer leaves.
    pub open spec fn disconnect(self) -> EngineView {
        EngineView { channel: self.channel.disconnect(), running: false, ..self }
    }

    pub proof fn lemma_set_camera_wf(self, index: u32, config: Option<RequestedFormat>)
        requires
            self.wf(),
        ensures
            self.set_camera(index, config).0.wf(),
    {
    }

    /// Closing, shutting down and the consumer's leaving keep an engine
    /// well formed.
    pub proof fn lemma_close_wf(self)
        requires
            self.wf(),
        ensures
            self.close().0.wf(),
            self.shutdown().0.wf(),
            self.disconnect().wf(),
    {
    }

    pub proof fn lemma_swap_camera_wf(self, outcome: Option<StreamInfo>)
        requires
            self.wf(),
        ensures
            self.swap_camera(outcome).0.wf(),
    {
        match (self.device, outcome) {
            (DeviceState::Opening { index, format }, Some(info)) => {
                self.pool.lemma_reshape_wf(info.resolution);
            },
            _ => {},
        }
    }

    pub proof fn lemma_poll_wf(self)
        requires
            self.wf(),
        ensures
            self.poll().0.wf(),
            self.poll().1 matches StepView::Capture { buffer, frame_rate } ==> buffer.wf()
                && self.poll().0.current(buffer),
    {
        if self.running {
            match self.device.stream() {
                Some(info) => {
                    self.pool.lemma_acquire_wf(info.resolution);
                },
                None => {},
            }
        }
    }

    pub proof fn lemma_publish_wf(self, buffer: BufferView)
        requires
            self.wf(),
            buffer.wf(),
        ensures
            self.publish(buffer).0.wf(),
    {
        self.pool.lemma_release_wf(buffer);
        let after = self.publish(buffer).0;
        if self.refusal(buffer) is None {
            let n = self.channel.queue.len() as int;
            assert forall|i: int| 0 <= i < after.channel.queue.len() implies {
                &&& after.delivered < (#[trigger] after.channel.queue[i]).sequence <= after.sequence
                &&& after.channel.queue[i].buffer.wf()
            } by {
                if i < n {
                    assert(after.channel.queue[i] == self.channel.queue[i]);
                }
            }
            assert forall|i: int, j: int| 0 <= i < j < after.channel.queue.len() implies (
            #[trigger] after.channel.queue[i]).sequence < (
            #[trigger] after.channel.queue[j]).sequence by {
                assert(after.channel.queue[i] == self.channel.queue[i]);
                if j < n {
                    assert(after.channel.queue[j] == self.channel.queue[j]);
                }
            }
        }
    }

    pub proof fn lemma_release_wf(self, buffer: BufferView)
        requires
            self.wf(),
        ensures
            self.release(buffer).0.wf(),
            self.abandon(buffer).wf(),
    {
        self.pool.lemma_release_wf(buffer);
    }

    /// A received frame is whole, and its sequence number is above that of
    /// every frame received before it.
    pub proof fn lemma_receive_wf(self)
        requires
            self.wf(),
        ensures
            self.receive().0.wf(),
            self.receive().1 matches Some(frame) ==> {
                &&& frame.buffer.wf()
                &&& self.delivered < frame.sequence
                &&& self.receive().0.delivered == frame.sequence
            },
    {
        let after = self.receive().0;
        if self.channel.queue.len() > 0 {
            assert(self.channel.queue[0].sequence > self.delivered);
            assert forall|i: int| 0 <= i < after.channel.queue.len() implies {
                &&& after.delivered < (#[trigger] after.channel.queue[i]).sequence <= after.sequence
                &&& after.channel.queue[i].buffer.wf()
            } by {
                assert(after.channel.queue[i] == self.channel.queue[i + 1]);
            }
            assert forall|i: int, j: int| 0 <= i < j < after.channel.queue.len() implies (
            #[trigger] after.channel.queue[i]).sequence < (
            #[trigger] after.channel.queue[j]).sequence by {
                assert(after.channel.queue[i] == self.channel.queue[i + 1]);
                assert(after.channel.queue[j] == self.channel.queue[j + 1]);
            }
        }
    }

    pub proof fn lemma_get_frame_wf(self)
        requires
            self.wf(),
        ensures
            self.get_frame().0.wf(),
    {
        self.lemma_receive_wf();
        match self.receive().1 {
            Some(frame) => {
                self.receive().0.lemma_release_wf(frame.buffer);
            },
            None => {},
        }
    }
}

/// The frame-acquisition engine: one device slot, one pool of buffers, one
/// queue of captured frames. The control side opens and closes devices, the
/// capture worker asks what to do and publishes what it pulled, and the
/// consumer takes frames and gives their buffers back.
#[derive(Debug)]
pub struct CameraHandler {
    camera_idx: u32,
    device: DeviceSlot,
    pool: BufferPool,
    channel: DeliveryChannel,
    sequence: u64,
    delivered: u64,
    running: bool,
}

impl View for CameraHandler {
    type V = EngineView;

    closed spec fn view(&self) -> EngineView {
        EngineView {
            camera_idx: self.camera_idx,
            device: self.device@,
            pool: self.pool@,
            channel: self.channel@,
            sequence: self.sequence,
            delivered: self.delivered,
            running: self.running,
        }
    }
}

impl CameraHandler {
    /// Every engine is well formed, whatever was done with it.
    #[verifier::type_invariant]
    pub open spec fn inv(self) -> bool {
        self@.wf()
    }

    /// An engine whose pool holds at most ten buffers and whose first frame
    /// is number one.
    pub fn new() -> (engine: CameraHandler)
        ensures
            engine@ == EngineView::initial(POOL_CAPACITY as nat, 0),
    {
        CameraHandler::resuming(POOL_CAPACITY, 0)
    }

    /// An engine whose pool holds at most `capacity` buffers.
    pub fn with_capacity(capacity: usize) -> (engine: CameraHandler)
        ensures
            engine@ == EngineView::initial(capacity as nat, 0),
    {
        CameraHandler::resuming(capacity, 0)
    }

    /// An engine that carries on the numbering of an earlier one: its first
    /// frame gets the number after `sequence`.
    pub fn resuming(capacity: usize, sequence: u64) -> (engine: CameraHandler)
        ensures
            engine@ == EngineView::initial(capacity as nat, sequence),
    {
        CameraHandler {
            camera_idx: 0,
            device: DeviceSlot::new(),
            pool: BufferPool::new(capacity),
            channel: DeliveryChannel::new(),
            sequence,
            delivered: sequence,
            running: true,
        }
    }

    /// The names of the cameras that can be opened; a camera's place in the
    /// list is its device index.
    pub fn get_cameras(&self) -> (names: Vec<String>)
        ensures
            names@.len() == 1,
            names@[0]@ == "Default"@,
    {
        let mut names: Vec<String> = Vec::new();
        names.push("Default".to_string());
        names
    }

    pub fn get_camera_idx(&self) -> (index: u32)
        ensures
            index == self@.camera_idx,
    {
        self.camera_idx
    }

    pub fn device_state(&self) -> (state: DeviceState)
        ensures
            state == self@.device,
    {
        self.device.state()
    }

    pub fn worker_state(&self) -> (state: WorkerState)
        ensures
            state == self@.worker_state(),
    {
        if !self.running {
            WorkerState::ShuttingDown
        } else if self.device.stream().is_some() {
            WorkerState::Streaming
        } else {
            WorkerState::Idle
        }
    }

    /// Number of buffers that belong to the pool; never above its capacity.
    pub fn pool_size(&self) -> (size: usize)
        ensures
            size == self@.pool.size(),
            size <= self@.pool.capacity,
    {
        self.pool.size()
    }

    /// Number of frames queued for the consumer.
    pub fn pending(&self) -> (pending: usize)
        ensures
            pending == self@.channel.queue.len(),
    {
        self.channel.len()
    }

    /// Applies `func` to the open stream, if there is one.
    pub fn with_camera<R, F: Fn(StreamInfo) -> R>(&self, func: F) -> (res: Option<R>)
        requires
            self@.device.stream() matches Some(info) ==> call_requires(func, (info,)),
        ensures
            match res {
                Some(value) => self@.device.stream() is Some && call_ensures(
                    func,
                    (self@.device.stream()->Some_0,),
                    value,
                ),
                None => self@.device.stream() is None,
            },
    {
        match self.device.stream() {
            Some(info) => Some(func(info)),
            None => None,
        }
    }

    /// Width and height of the open stream, if there is one.
    pub fn get_resolution(&self) -> (res: Option<(u32, u32)>)
        ensures
            res == match self@.device.stream() {
                Some(info) => Some((info.resolution.width, info.resolution.height)),
                None => None,
            },
    {
        match self.device.stream() {
            Some(info) => Some((info.resolution.width, info.resolution.height)),
            None => None,
        }
    }

    /// Asks for device `new_idx` to be opened; see `EngineView::set_camera`.
    pub fn set_camera(&mut self, new_idx: u32, camera_config: Option<RequestedFormat>) -> (res:
        Result<OpenPlan, DeviceError>)
        ensures
            final(self)@ == old(self)@.set_camera(new_idx, camera_config).0,
            res == old(self)@.set_camera(new_idx, camera_config).1,
    {
        proof {
            use_type_invariant(&*self);
            old(self)@.lemma_set_camera_wf(new_idx, camera_config);
        }
        let format = match camera_config {
            Some(format) => format,
            None => RequestedFormat::HighestFrameRate,
        };
        let mut device = self.device;
        let res = device.begin_open(new_idx, format);
        self.device = device;
        res
    }

    /// Asks for a device to be opened at the format nearest to the given
    /// width, height and frame rate.
    pub fn request_open_camera(
        &mut self,
        device_idx: u32,
        width: u32,
        height: u32,
        fps: u32,
    ) -> (res: Result<OpenPlan, DeviceError>)
        ensures
            final(self)@ == old(self)@.set_camera(
                device_idx,
                Some(closest_format(width, height, fps)),
            ).0,
            res == old(self)@.set_camera(device_idx, Some(closest_format(width, height, fps))).1,
    {
        let format = RequestedFormat::Closest(
            CameraFormat::new_from(width, height, PixelEncoding::Mjpeg, fps),
        );
        self.set_camera(device_idx, Some(format))
    }

    /// Asks for a device to be opened at the highest frame rate it offers.
    pub fn request_open_camera_highest_fps(&mut self, device_idx: u32) -> (res: Result<
        OpenPlan,
        DeviceError,
    >)
        ensures
            final(self)@ == old(self)@.set_camera(
                device_idx,
                Some(RequestedFormat::HighestFrameRate),
            ).0,
            res == old(self)@.set_camera(device_idx, Some(RequestedFormat::HighestFrameRate)).1,
    {
        self.set_camera(device_idx, Some(RequestedFormat::HighestFrameRate))
    }

    /// Reports how the open under way went; see `EngineView::swap_camera`.
    /// On `Err` the engine has not taken the device: a caller that did open
    /// one stops it.
    pub fn swap_camera(&mut self, outcome: Option<StreamInfo>) -> (res: Result<(), DeviceError>)
        ensures
            final(self)@ == old(self)@.swap_camera(outcome).0,
            res == old(self)@.swap_camera(outcome).1,
    {
        proof {
            use_type_invariant(&*self);
            old(self)@.lemma_swap_camera_wf(outcome);
        }
        let mut device = self.device;
        let res = device.finish_open(outcome);
        match (self.device.state(), outcome) {
            (DeviceState::Opening { index, format }, Some(info)) => {
                let mut pool = BufferPool::new(0);
                std::mem::swap(&mut pool, &mut self.pool);
                pool.reshape(info.resolution.width, info.resolution.height);
                proof {
                    use_type_invariant(&pool);
                }
                self.pool = pool;
                self.camera_idx = index;
            },
            _ => {},
        }
        self.device = device;
        res
    }

    /// Closes the device slot. The result names the device the caller must
    /// stop, if one streamed. An open under way is called off: its outcome
    /// will be refused by `swap_camera`.
    pub fn close(&mut self) -> (stop: Option<u32>)
        ensures
            final(self)@ == old(self)@.close().0,
            stop == old(self)@.close().1,
            final(self)@.device == DeviceState::Closed,
    {
        proof {
            use_type_invariant(&*self);
            old(self)@.lemma_close_wf();
        }
        let mut device = self.device;
        let stop = device.close();
        self.device = device;
        stop
    }

    /// Tells the worker to stop and closes the device slot. The result names
    /// the device the caller must stop, if one streamed. An open under way
    /// is called off: its outcome will be refused by `swap_camera`, and the
    /// caller stops what it opened.
    pub fn shutdown(&mut self) -> (stop: Option<u32>)
        ensures
            final(self)@ == old(self)@.shutdown().0,
            stop == old(self)@.shutdown().1,
            final(self)@.device == DeviceState::Closed,
            !final(self)@.running,
    {
        proof {
            use_type_invariant(&*self);
            old(self)@.lemma_close_wf();
        }
        let mut device = self.device;
        let stop = device.close();
        self.device = device;
        self.running = false;
        stop
    }

    /// What the capture worker does next; see `EngineView::poll`.
    pub fn poll(&mut self) -> (step: WorkerStep)
        ensures
            final(self)@ == old(self)@.poll().0,
            step@ == old(self)@.poll().1,
    {
        proof {
            use_type_invariant(&*self);
            old(self)@.lemma_poll_wf();
        }
        if !self.running {
            return WorkerStep::Exit;
        }
        match self.device.stream() {
            None => WorkerStep::Idle,
            Some(info) => {
                let mut pool = BufferPool::new(0);
                std::mem::swap(&mut pool, &mut self.pool);
                let res = pool.acquire(info.resolution.width, info.resolution.height);
                self.pool = pool;
                match res {
                    Ok(buffer) => WorkerStep::Capture { buffer, frame_rate: info.frame_rate },
                    Err(AcquireError::Exhausted) => WorkerStep::Wait,
                    Err(AcquireError::Unrepresentable) => WorkerStep::Unstorable,
                }
            },
        }
    }

    /// Queues a captured frame for the consumer and returns its sequence
    /// number; see `EngineView::publish`.
    pub fn publish(&mut self, buffer: PixelBuffer) -> (res: Result<u64, PublishError>)
        ensures
            final(self)@ == old(self)@.publish(buffer@).0,
            res == old(self)@.publish(buffer@).1,
    {
        proof {
            use_type_invariant(&*self);
            use_type_invariant(&buffer);
            old(self)@.lemma_publish_wf(buffer@);
        }
        let shape = buffer.resolution();
        let current = match self.device.stream() {
            Some(info) => info.resolution.width == shape.width && info.resolution.height
                == shape.height,
            None => false,
        };
        let connected = self.channel.is_connected();
        let refusal: Option<PublishError> = if !connected {
            Some(PublishError::Closed)
        } else if !current {
            Some(PublishError::Stale)
        } else if self.sequence == u64::MAX {
            Some(PublishError::SequenceExhausted)
        } else {
            None
        };
        match refusal {
            Some(e) => {
                let mut pool = BufferPool::new(0);
                std::mem::swap(&mut pool, &mut self.pool);
                pool.release(buffer);
                self.pool = pool;
                self.running = self.running && connected;
                Err(e)
            },
            None => {
                let sequence: u64 = self.sequence + 1;
                let mut channel = DeliveryChannel::new();
                std::mem::swap(&mut channel, &mut self.channel);
                self.sequence = sequence;
                let _ = channel.send(Frame { sequence, buffer });
                self.channel = channel;
                Ok(sequence)
            },
        }
    }

    /// Returns the buffer of a capture that failed.
    pub fn abandon(&mut self, buffer: PixelBuffer)
        ensures
            final(self)@ == old(self)@.abandon(buffer@),
    {
        let _ = self.release(buffer);
    }

    /// The oldest frame not yet delivered, or `None` when nothing is queued.
    /// Frames come out in the order they were published, each whole and
    /// with a sequence number above the one before. It never waits; a
    /// consumer that does uses `next_delivery`, which also says whether a
    /// frame can still come.
    pub fn read_next_frame(&mut self) -> (res: Option<Frame>)
        ensures
            final(self)@ == old(self)@.receive().0,
            match res {
                Some(frame) => {
                    &&& old(self)@.receive().1 == Some(frame@)
                    &&& frame@.buffer.wf()
                    &&& old(self)@.delivered < frame.sequence
                    &&& final(self)@.delivered == frame.sequence
                },
                None => old(self)@.receive().1 == None::<FrameView>,
            },
    {
        proof {
            use_type_invariant(&*self);
            old(self)@.lemma_receive_wf();
        }
        let mut channel = DeliveryChannel::new();
        std::mem::swap(&mut channel, &mut self.channel);
        let res = channel.receive();
        match &res {
            Some(frame) => {
                self.delivered = frame.sequence;
            },
            None => {},
        }
        self.channel = channel;
        res
    }

    /// The next frame for a consumer that waits for it: the frame if one is
    /// queued; otherwise whether waiting is of any use. The consumer waits
    /// and asks again on `Pending`, and gives up on `Finished`.
    pub fn next_delivery(&mut self) -> (res: Delivery)
        ensures
            final(self)@ == old(self)@.receive().0,
            match res {
                Delivery::Frame(frame) => {
                    &&& old(self)@.receive().1 == Some(frame@)
                    &&& frame@.buffer.wf()
                    &&& old(self)@.delivered < frame.sequence
                    &&& final(self)@.delivered == frame.sequence
                },
                Delivery::Pending => old(self)@.channel.queue.len() == 0 && old(self)@.running,
                Delivery::Finished => old(self)@.channel.queue.len() == 0 && !old(self)@.running,
            },
    {
        match self.read_next_frame() {
            Some(frame) => Delivery::Frame(frame),
            None => if self.running {
                Delivery::Pending
            } else {
                Delivery::Finished
            },
        }
    }

    /// Takes back the buffer of a frame the consumer is done with; the
    /// result says whether the pool kept it.
    pub fn release(&mut self, buffer: PixelBuffer) -> (kept: bool)
        ensures
            final(self)@ == old(self)@.release(buffer@).0,
            kept == old(self)@.release(buffer@).1,
    {
        proof {
            use_type_invariant(&*self);
            old(self)@.lemma_release_wf(buffer@);
        }
        let mut pool = BufferPool::new(0);
        std::mem::swap(&mut pool, &mut self.pool);
        let kept = pool.release(buffer);
        self.pool = pool;
        kept
    }

    /// A copy of the next frame; its buffer goes straight back to the pool.
    pub fn get_frame(&mut self) -> (res: Option<RgbFrame>)
        ensures
            final(self)@ == old(self)@.get_frame().0,
            match res {
                Some(copy) => old(self)@.get_frame().1 matches Some(frame) && copy.copies(frame),
                None => old(self)@.get_frame().1 is None,
            },
    {
        match self.read_next_frame() {
            Some(frame) => {
                let copy = frame.snapshot();
                let _ = self.release(frame.buffer);
                Some(copy)
            },
            None => None,
        }
    }

    /// The consumer leaves: queued frames are dropped and the worker stops.
    pub fn disconnect(&mut self)
        ensures
            final(self)@ == old(self)@.disconnect(),
    {
        proof {
            use_type_invariant(&*self);
            old(self)@.lemma_close_wf();
        }
        let mut channel = DeliveryChannel::new();
        channel.disconnect();
        self.running = false;
        self.channel = channel;
    }
}

/// The request that `request_open_camera` makes of the device.
pub open spec fn closest_format(width: u32, height: u32, fps: u32) -> RequestedFormat {
    RequestedFormat::Closest(
        CameraFormat {
            resolution: Resolution { width, height },
            encoding: PixelEncoding::Mjpeg,
            frame_rate: fps,
        },
    )
}

impl Default for CameraHandler {
    fn default() -> (engine: CameraHandler)
        ensures
            engine@ == EngineView::initial(POOL_CAPACITY as nat, 0),
    {
        CameraHandler::new()
    }
}

} // verus!
