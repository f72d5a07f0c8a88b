use vstd::prelude::*;
use crate::buffer::{spec_write_frame, BufferView};
use crate::camera_handler::{EngineView, StepView};
use crate::delivery::FrameView;
use crate::device::{DeviceError, DeviceState};
use crate::format::{RequestedFormat, Resolution, StreamInfo};

verus! {

/// What the control side is told to do with a device handle.
pub enum DeviceEffect {
    /// The stream of this device was adopted by the engine.
    Adopted(u32),
    /// The stream of this device is to be stopped and its handle released.
    Stopped(u32),
}

/// Anything that can happen to the engine.
pub enum Event {
    /// The control side asks for a device to be opened.
    RequestOpen { index: u32, config: Option<RequestedFormat> },
    /// The control side reports how the open went.
    OpenOutcome { outcome: Option<StreamInfo> },
    /// The control side closes the device.
    Close,
    /// The engine is shut down.
    Shutdown,
    /// The worker asks what to do next.
    Poll,
    /// The worker writes a pulled frame into the buffer it holds.
    Pull { width: u32, height: u32, raw: Seq<u8> },
    /// The worker publishes the buffer it holds.
    Publish,
    /// The worker gives up the buffer it holds.
    Abandon,
    /// The consumer takes the next frame.
    Receive,
    /// The consumer returns the buffer of one of the frames it holds.
    Release { which: int },
    /// The consumer takes a copy of the next frame.
    GetFrame,
    /// The consumer leaves.
    Disconnect,
}

/// The engine together with those who hold its buffers, and a record of
/// what it has done so far.
pub struct System {
    pub engine: EngineView,
    /// The buffer in the worker's hands, if any.
    pub worker: Option<BufferView>,
    /// The frames in the consumer's hands.
    pub consumer: Seq<FrameView>,
    /// Every frame published so far, oldest first.
    pub published: Seq<FrameView>,
    /// Every frame delivered so far, oldest first.
    pub delivered: Seq<FrameView>,
    /// Every instruction about device handles so far, oldest first.
    pub effects: Seq<DeviceEffect>,
}

/// The instruction that goes with a device to stop, if there is one.
pub open spec fn stop_effect(stop: Option<u32>) -> Seq<DeviceEffect> {
    match stop {
        Some(index) => seq![DeviceEffect::Stopped(index)],
        None => Seq::empty(),
    }
}

/// The instruction that goes with the outcome of an open.
pub open spec fn adopt_effect(res: Result<(), DeviceError>, occupant: Option<u32>) -> Seq<
    DeviceEffect,
> {
    match (res, occupant) {
        (Ok(()), Some(index)) => seq![DeviceEffect::Adopted(index)],
        _ => Seq::empty(),
    }
}

/// How many device handles the engine holds after these instructions.
pub open spec fn handles_held(effects: Seq<DeviceEffect>) -> int
    decreases effects.len(),
{
    if effects.len() == 0 {
        0
    } else {
        handles_held(effects.drop_last()) + match effects.last() {
            DeviceEffect::Adopted(_) => 1int,
            DeviceEffect::Stopped(_) => -1int,
        }
    }
}

/// Adoptions and stops take turns, starting with an adoption, and every
/// stop names the device adopted just before it.
pub open spec fn alternating(effects: Seq<DeviceEffect>) -> bool {
    forall|k: int|
        #![trigger effects[k]]
        0 <= k < effects.len() ==> if k % 2 == 0 {
            effects[k] is Adopted
        } else {
            effects[k - 1] is Adopted && effects[k] == DeviceEffect::Stopped(
                effects[k - 1]->Adopted_0,
            )
        }
}

/// An adoption after an even number of instructions keeps the turns.
pub proof fn lemma_adoption_alternates(effects: Seq<DeviceEffect>, index: u32)
    requires
        alternating(effects),
        effects.len() % 2 == 0,
    ensures
        alternating(effects.push(DeviceEffect::Adopted(index))),
{
    let longer = effects.push(DeviceEffect::Adopted(index));
    assert forall|k: int| #![trigger longer[k]] 0 <= k < longer.len() implies if k % 2 == 0 {
        longer[k] is Adopted
    } else {
        longer[k - 1] is Adopted && longer[k] == DeviceEffect::Stopped(longer[k - 1]->Adopted_0)
    } by {
        if k < effects.len() {
            assert(longer[k] == effects[k]);
            if k > 0 {
                assert(longer[k - 1] == effects[k - 1]);
            }
        }
    }
}

/// A stop of the device adopted last keeps the turns.
pub proof fn lemma_stop_alternates(effects: Seq<DeviceEffect>, index: u32)
    requires
        alternating(effects),
        effects.len() % 2 == 1,
        effects.last() == DeviceEffect::Adopted(index),
    ensures
        alternating(effects.push(DeviceEffect::Stopped(index))),
{
    let longer = effects.push(DeviceEffect::Stopped(index));
    assert forall|k: int| #![trigger longer[k]] 0 <= k < longer.len() implies if k % 2 == 0 {
        longer[k] is Adopted
    } else {
        longer[k - 1] is Adopted && longer[k] == DeviceEffect::Stopped(longer[k - 1]->Adopted_0)
    } by {
        if k < effects.len() {
            assert(longer[k] == effects[k]);
            if k > 0 {
                assert(longer[k - 1] == effects[k - 1]);
            }
        } else {
            assert(longer[k - 1] == effects[k - 1]);
        }
    }
}

/// The sequence numbers rise strictly from each frame to the next.
pub open spec fn rising(frames: Seq<FrameView>) -> bool {
    forall|i: int, j: int|
        0 <= i < j < frames.len() ==> (#[trigger] frames[i]).sequence < (
        #[trigger] frames[j]).sequence
}

/// No frame of the list is in the buffer with this identity.
pub open spec fn absent(id: u64, frames: Seq<FrameView>) -> bool {
    forall|i: int| 0 <= i < frames.len() ==> (#[trigger] frames[i]).buffer.id != id
}

/// No buffer of the list has this identity.
pub open spec fn unused(id: u64, buffers: Seq<BufferView>) -> bool {
    forall|i: int| 0 <= i < buffers.len() ==> (#[trigger] buffers[i]).id != id
}

/// The frames are in buffers that differ from one another, all made
/// before the pool reached `bound`.
pub open spec fn distinct(frames: Seq<FrameView>, bound: u64) -> bool {
    &&& forall|i: int| 0 <= i < frames.len() ==> (#[trigger] frames[i]).buffer.id < bound
    &&& forall|i: int, j: int|
        0 <= i < j < frames.len() ==> (#[trigger] frames[i]).buffer.id != (
        #[trigger] frames[j]).buffer.id
}

/// Every frame of the list has this shape.
pub open spec fn uniform(frames: Seq<FrameView>, shape: Resolution) -> bool {
    forall|i: int| 0 <= i < frames.len() ==> (#[trigger] frames[i]).buffer.resolution == shape
}

impl System {
    /// A fresh engine with nothing in anybody's hands.
    pub open spec fn initial(capacity: nat, sequence: u64) -> System {
        System {
            engine: EngineView::initial(capacity, sequence),
            worker: None,
            consumer: Seq::empty(),
            published: Seq::empty(),
            delivered: Seq::empty(),
            effects: Seq::empty(),
        }
    }

    /// The system after one event. An event that does not fit the moment (a
    /// poll while the worker still holds a buffer, a publish without one, a
    /// release of a frame the consumer does not hold) changes nothing.
    pub open spec fn step(self, event: Event) -> System {
        match event {
            Event::RequestOpen { index, config } => System {
                engine: self.engine.set_camera(index, config).0,
                effects: self.effects + stop_effect(
                    match self.engine.set_camera(index, config).1 {
                        Ok(plan) => plan.stop_previous,
                        Err(_) => None,
                    },
                ),
                ..self
            },
            Event::OpenOutcome { outcome } => System {
                engine: self.engine.swap_camera(outcome).0,
                effects: self.effects + adopt_effect(
                    self.engine.swap_camera(outcome).1,
                    self.engine.swap_camera(outcome).0.device.occupant(),
                ),
                ..self
            },
            Event::Close => System {
                engine: self.engine.close().0,
                effects: self.effects + stop_effect(self.engine.close().1),
                ..self
            },
            Event::Shutdown => System {
                engine: self.engine.shutdown().0,
                effects: self.effects + stop_effect(self.engine.shutdown().1),
                ..self
            },
            Event::Poll => match self.worker {
                Some(_) => self,
                None => System {
                    engine: self.engine.poll().0,
                    worker: match self.engine.poll().1 {
                        StepView::Capture { buffer, frame_rate } => Some(buffer),
                        _ => None,
                    },
                    ..self
                },
            },
            Event::Pull { width, height, raw } => match self.worker {
                Some(buffer) => System {
                    worker: Some(spec_write_frame(buffer, width, height, raw).0),
                    ..self
                },
                None => self,
            },
            Event::Publish => match self.worker {
                Some(buffer) => System {
                    engine: self.engine.publish(buffer).0,
                    worker: None,
                    published: match self.engine.publish(buffer).1 {
                        Ok(sequence) => self.published.push(FrameView { sequence, buffer }),
                        Err(_) => self.published,
                    },
                    ..self
                },
                None => self,
            },
            Event::Abandon => match self.worker {
                Some(buffer) => System {
                    engine: self.engine.abandon(buffer),
                    worker: None,
                    ..self
                },
                None => self,
            },
            Event::Receive => match self.engine.receive().1 {
                Some(frame) => System {
                    engine: self.engine.receive().0,
                    consumer: self.consumer.push(frame),
                    delivered: self.delivered.push(frame),
                    ..self
                },
                None => self,
            },
            Event::Release { which } => if 0 <= which < self.consumer.len() {
                System {
                    engine: self.engine.release(self.consumer[which].buffer).0,
                    consumer: self.consumer.remove(which),
                    ..self
                }
            } else {
                self
            },
            Event::GetFrame => match self.engine.get_frame().1 {
                Some(frame) => System {
                    engine: self.engine.get_frame().0,
                    delivered: self.delivered.push(frame),
                    ..self
                },
                None => self,
            },
            Event::Disconnect => System { engine: self.engine.disconnect(), ..self },
        }
    }

    /// The system after a run of events.
    pub open spec fn run(self, events: Seq<Event>) -> System
        decreases events.len(),
    {
        if events.len() == 0 {
            self
        } else {
            self.run(events.drop_last()).step(events.last())
        }
    }

    /// The device record agrees with the slot: an adoption is outstanding
    /// exactly while a device streams, and it is that device's.
    pub open spec fn devices_accounted(self) -> bool {
        &&& alternating(self.effects)
        &&& match self.engine.device.occupant() {
            Some(index) => self.effects.len() % 2 == 1 && self.effects.last()
                == DeviceEffect::Adopted(index),
            None => self.effects.len() % 2 == 0,
        }
    }

    /// The delivery record agrees with the engine: sequence numbers rise,
    /// none is above the engine's mark, and every frame is whole.
    pub open spec fn deliveries_accounted(self) -> bool {
        &&& rising(self.delivered)
        &&& forall|i: int|
            0 <= i < self.delivered.len() ==> {
                &&& (#[trigger] self.delivered[i]).sequence <= self.engine.delivered
                &&& self.delivered[i].buffer.wf()
            }
    }

    /// Every buffer is in one place only: idle in the pool, in the worker's
    /// hands, in the queue, or in the consumer's hands.
    pub open spec fn exclusive(self) -> bool {
        let free = self.engine.pool.free;
        let queue = self.engine.channel.queue;
        let bound = self.engine.pool.next_id;
        &&& distinct(queue, bound)
        &&& distinct(self.consumer, bound)
        &&& forall|i: int| 0 <= i < free.len() ==> absent((#[trigger] free[i]).id, queue)
        &&& forall|i: int| 0 <= i < free.len() ==> absent((#[trigger] free[i]).id, self.consumer)
        &&& forall|i: int|
            0 <= i < queue.len() ==> absent((#[trigger] queue[i]).buffer.id, self.consumer)
        &&& self.worker matches Some(buffer) ==> {
            &&& buffer.id < bound
            &&& unused(buffer.id, free)
            &&& absent(buffer.id, queue)
            &&& absent(buffer.id, self.consumer)
        }
    }

    /// The frames delivered are the first of those published, in the same
    /// order, and the queue holds the ones that follow. While the consumer
    /// is there, no published frame is anywhere else.
    pub open spec fn in_order(self) -> bool {
        let queue = self.engine.channel.queue;
        &&& self.delivered.len() + queue.len() <= self.published.len()
        &&& self.engine.channel.connected ==> self.delivered.len() + queue.len()
            == self.published.len()
        &&& forall|i: int|
            0 <= i < self.delivered.len() ==> #[trigger] self.delivered[i] == self.published[i]
        &&& forall|i: int|
            0 <= i < queue.len() ==> #[trigger] queue[i] == self.published[self.delivered.len() + i]
    }

    /// What holds of the system at every moment.
    pub open spec fn inv(self) -> bool {
        &&& self.engine.wf()
        &&& self.devices_accounted()
        &&& self.deliveries_accounted()
        &&& self.in_order()
        &&& self.exclusive()
        &&& self.worker matches Some(buffer) ==> buffer.wf()
    }

    /// It holds of every fresh system.
    pub proof fn lemma_initial_inv(capacity: nat, sequence: u64)
        ensures
            System::initial(capacity, sequence).inv(),
    {
    }

    proof fn lemma_step_devices(self, event: Event)
        requires
            self.devices_accounted(),
        ensures
            self.step(event).devices_accounted(),
    {
        let after = self.step(event);
        match event {
            Event::RequestOpen { index, config } => {
                self.lemma_stop_accounted(after, self.engine.set_camera(index, config).0.device);
            },
            Event::Close => {
                self.lemma_stop_accounted(after, self.engine.close().0.device);
            },
            Event::Shutdown => {
                self.lemma_stop_accounted(after, self.engine.shutdown().0.device);
            },
            Event::OpenOutcome { outcome } => {
                match (self.engine.device, outcome) {
                    (DeviceState::Opening { index, format }, Some(info)) => {
                        assert(after.effects =~= self.effects.push(DeviceEffect::Adopted(index)));
                        lemma_adoption_alternates(self.effects, index);
                    },
                    _ => {
                        assert(after.effects =~= self.effects);
                    },
                }
            },
            _ => {
                assert(after.effects == self.effects);
                assert(after.engine.device == self.engine.device);
            },
        }
    }

    /// An event that stops whatever streams, and adopts nothing, keeps the
    /// device record in step with the slot.
    proof fn lemma_stop_accounted(self, after: System, device: DeviceState)
        requires
            self.devices_accounted(),
            after.engine.device == device,
            device.occupant() is None,
            after.effects == self.effects + stop_effect(self.engine.device.occupant()),
        ensures
            after.devices_accounted(),
    {
        match self.engine.device.occupant() {
            Some(index) => {
                assert(after.effects =~= self.effects.push(DeviceEffect::Stopped(index)));
                lemma_stop_alternates(self.effects, index);
            },
            None => {
                assert(after.effects =~= self.effects);
            },
        }
    }

    proof fn lemma_step_deliveries(self, event: Event)
        requires
            self.engine.wf(),
            self.deliveries_accounted(),
        ensures
            self.step(event).deliveries_accounted(),
    {
        let after = self.step(event);
        let n = self.delivered.len() as int;
        self.engine.lemma_receive_wf();
        assert forall|i: int| 0 <= i < after.delivered.len() implies {
            &&& (#[trigger] after.delivered[i]).sequence <= after.engine.delivered
            &&& after.delivered[i].buffer.wf()
        } by {
            if i < n {
                assert(after.delivered[i] == self.delivered[i]);
            }
        }
        assert forall|i: int, j: int| 0 <= i < j < after.delivered.len() implies (
        #[trigger] after.delivered[i]).sequence < (#[trigger] after.delivered[j]).sequence by {
            assert(after.delivered[i] == self.delivered[i]);
            if j < n {
                assert(after.delivered[j] == self.delivered[j]);
            }
        }
    }

    proof fn lemma_step_in_order(self, event: Event)
        requires
            self.in_order(),
        ensures
            self.step(event).in_order(),
    {
        let after = self.step(event);
        let queue = self.engine.channel.queue;
        let n = self.delivered.len() as int;
        match event {
            Event::Publish => {
                if self.worker is Some && self.engine.refusal(self.worker->Some_0) is None {
                    assert forall|i: int| 0 <= i < after.engine.channel.queue.len() implies (
                    #[trigger] after.engine.channel.queue[i]) == after.published[n + i] by {
                        if i < queue.len() {
                            assert(after.engine.channel.queue[i] == queue[i]);
                        }
                    }
                }
            },
            Event::Receive | Event::GetFrame => {
                // Either way the head of the queue joins the delivered frames.
                if queue.len() > 0 {
                    assert forall|i: int| 0 <= i < after.engine.channel.queue.len() implies (
                    #[trigger] after.engine.channel.queue[i]) == after.published[n + 1 + i] by {
                        assert(after.engine.channel.queue[i] == queue[i + 1]);
                    }
                    assert forall|i: int| 0 <= i < after.delivered.len() implies (
                    #[trigger] after.delivered[i]) == after.published[i] by {
                        if i < n {
                            assert(after.delivered[i] == self.delivered[i]);
                        } else {
                            assert(after.delivered[i] == queue[0]);
                        }
                    }
                }
            },
            _ => {},
        }
    }

    proof fn lemma_step_engine(self, event: Event)
        requires
            self.engine.wf(),
            self.worker matches Some(buffer) ==> buffer.wf(),
        ensures
            self.step(event).engine.wf(),
            self.step(event).worker matches Some(buffer) ==> buffer.wf(),
    {
        match event {
            Event::RequestOpen { index, config } => {
                self.engine.lemma_set_camera_wf(index, config);
            },
            Event::OpenOutcome { outcome } => {
                self.engine.lemma_swap_camera_wf(outcome);
            },
            Event::Close => {
                self.engine.lemma_close_wf();
            },
            Event::Shutdown => {
                self.engine.lemma_close_wf();
            },
            Event::Poll => {
                self.engine.lemma_poll_wf();
            },
            Event::Pull { width, height, raw } => {},
            Event::Publish => {
                if self.worker is Some {
                    self.engine.lemma_publish_wf(self.worker->Some_0);
                }
            },
            Event::Abandon => {
                if self.worker is Some {
                    self.engine.lemma_release_wf(self.worker->Some_0);
                }
            },
            Event::Receive => {
                self.engine.lemma_receive_wf();
            },
            Event::Release { which } => {
                if 0 <= which < self.consumer.len() {
                    self.engine.lemma_release_wf(self.consumer[which].buffer);
                }
            },
            Event::GetFrame => {
                self.engine.lemma_get_frame_wf();
            },
            Event::Disconnect => {
                self.engine.lemma_close_wf();
            },
        }
    }

    proof fn lemma_step_exclusive(self, event: Event)
        requires
            self.engine.wf(),
            self.exclusive(),
        ensures
            self.step(event).exclusive(),
    {
        let after = self.step(event);
        let free = self.engine.pool.free;
        let queue = self.engine.channel.queue;
        match event {
            Event::RequestOpen { index, config } => {},
            Event::OpenOutcome { outcome } => {},
            Event::Close => {},
            Event::Shutdown => {},
            Event::Disconnect => {},
            Event::Pull { width, height, raw } => {},
            Event::Poll => {
                self.lemma_poll_exclusive();
            },
            Event::Publish => {
                if self.worker is Some {
                    self.lemma_publish_exclusive();
                }
            },
            Event::Abandon => {
                if self.worker is Some {
                    self.lemma_return_exclusive(self.worker->Some_0);
                }
            },
            Event::Receive => {
                self.lemma_receive_exclusive();
            },
            Event::Release { which } => {
                if 0 <= which < self.consumer.len() {
                    self.lemma_release_exclusive(which);
                }
            },
            Event::GetFrame => {
                self.lemma_get_frame_exclusive();
            },
        }
    }

    /// A buffer nobody else holds may go back to the pool.
    proof fn lemma_return_exclusive(self, buffer: BufferView)
        requires
            self.engine.wf(),
            self.exclusive(),
            self.worker == Some(buffer),
        ensures
            (System { engine: self.engine.abandon(buffer), worker: None, ..self }).exclusive(),
    {
        let after = System { engine: self.engine.abandon(buffer), worker: None, ..self };
        let free = self.engine.pool.free;
        self.engine.pool.lemma_release_wf(buffer);
        assert forall|i: int| 0 <= i < after.engine.pool.free.len() implies absent(
            (#[trigger] after.engine.pool.free[i]).id,
            after.engine.channel.queue,
        ) by {
            if i < free.len() {
                assert(after.engine.pool.free[i] == free[i]);
            }
        }
        assert forall|i: int| 0 <= i < after.engine.pool.free.len() implies absent(
            (#[trigger] after.engine.pool.free[i]).id,
            after.consumer,
        ) by {
            if i < free.len() {
                assert(after.engine.pool.free[i] == free[i]);
            }
        }
    }

    proof fn lemma_poll_exclusive(self)
        requires
            self.engine.wf(),
            self.exclusive(),
        ensures
            self.step(Event::Poll).exclusive(),
    {
        let after = self.step(Event::Poll);
        if self.worker is None && self.engine.running && self.engine.device.stream() is Some {
            let shape = self.engine.device.stream()->Some_0.resolution;
            let pool = self.engine.pool.reshape(shape);
            let free = self.engine.pool.free;
            self.engine.pool.lemma_acquire_wf(shape);
            self.engine.pool.lemma_reshape_wf(shape);
            if pool.free.len() > 0 {
                assert(pool.free == free);
                assert forall|i: int| 0 <= i < after.engine.pool.free.len() implies absent(
                    (#[trigger] after.engine.pool.free[i]).id,
                    after.engine.channel.queue,
                ) by {
                    assert(after.engine.pool.free[i] == free[i + 1]);
                }
                assert forall|i: int| 0 <= i < after.engine.pool.free.len() implies absent(
                    (#[trigger] after.engine.pool.free[i]).id,
                    after.consumer,
                ) by {
                    assert(after.engine.pool.free[i] == free[i + 1]);
                }
                assert forall|i: int| 0 <= i < after.engine.pool.free.len() implies (
                #[trigger] after.engine.pool.free[i]).id != free[0].id by {
                    assert(after.engine.pool.free[i] == free[i + 1]);
                }
                assert(absent(free[0].id, after.engine.channel.queue));
                assert(absent(free[0].id, after.consumer));
            }
        }
    }

    proof fn lemma_publish_exclusive(self)
        requires
            self.engine.wf(),
            self.exclusive(),
            self.worker is Some,
        ensures
            self.step(Event::Publish).exclusive(),
    {
        let after = self.step(Event::Publish);
        let buffer = self.worker->Some_0;
        let queue = self.engine.channel.queue;
        let n = queue.len() as int;
        if self.engine.refusal(buffer) is None {
            assert forall|i: int| 0 <= i < after.engine.channel.queue.len() implies (
            #[trigger] after.engine.channel.queue[i]).buffer.id
                < after.engine.pool.next_id by {
                if i < n {
                    assert(after.engine.channel.queue[i] == queue[i]);
                }
            }
            assert forall|i: int, j: int|
                0 <= i < j < after.engine.channel.queue.len() implies (
            #[trigger] after.engine.channel.queue[i]).buffer.id != (
            #[trigger] after.engine.channel.queue[j]).buffer.id by {
                assert(after.engine.channel.queue[i] == queue[i]);
                if j < n {
                    assert(after.engine.channel.queue[j] == queue[j]);
                }
            }
            assert forall|i: int| 0 <= i < after.engine.pool.free.len() implies absent(
                (#[trigger] after.engine.pool.free[i]).id,
                after.engine.channel.queue,
            ) by {
                let id = after.engine.pool.free[i].id;
                assert(absent(id, queue));
                assert forall|k: int| 0 <= k < after.engine.channel.queue.len() implies (
                #[trigger] after.engine.channel.queue[k]).buffer.id != id by {
                    if k < n {
                        assert(after.engine.channel.queue[k] == queue[k]);
                    }
                }
            }
            assert forall|i: int| 0 <= i < after.engine.channel.queue.len() implies absent(
                (#[trigger] after.engine.channel.queue[i]).buffer.id,
                after.consumer,
            ) by {
                if i < n {
                    assert(after.engine.channel.queue[i] == queue[i]);
                }
            }
        } else {
            self.lemma_return_exclusive(buffer);
        }
    }

    proof fn lemma_receive_exclusive(self)
        requires
            self.engine.wf(),
            self.exclusive(),
        ensures
            self.step(Event::Receive).exclusive(),
    {
        let after = self.step(Event::Receive);
        let queue = self.engine.channel.queue;
        let n = self.consumer.len() as int;
        if queue.len() > 0 {
            assert forall|i: int| 0 <= i < after.engine.channel.queue.len() implies (
            #[trigger] after.engine.channel.queue[i]) == queue[i + 1] by {}
            assert forall|i: int| 0 <= i < after.consumer.len() implies (
            #[trigger] after.consumer[i]) == (if i < n {
                self.consumer[i]
            } else {
                queue[0]
            }) by {}
            assert forall|i: int| 0 <= i < after.engine.channel.queue.len() implies absent(
                (#[trigger] after.engine.channel.queue[i]).buffer.id,
                after.consumer,
            ) by {
                assert(after.engine.channel.queue[i] == queue[i + 1]);
                assert(absent(queue[i + 1].buffer.id, self.consumer));
            }
            assert forall|i: int| 0 <= i < after.engine.pool.free.len() implies absent(
                (#[trigger] after.engine.pool.free[i]).id,
                after.consumer,
            ) by {
                assert(absent(self.engine.pool.free[i].id, self.consumer));
                assert(absent(self.engine.pool.free[i].id, queue));
            }
            assert forall|i: int, j: int| 0 <= i < j < after.consumer.len() implies (
            #[trigger] after.consumer[i]).buffer.id != (#[trigger] after.consumer[j]).buffer.id by {
                if j == n {
                    assert(absent(queue[0].buffer.id, self.consumer));
                }
            }
            if self.worker is Some {
                assert(absent(self.worker->Some_0.id, queue));
            }
        }
    }

    /// A frame the consumer holds leaves its hands; its buffer goes back to
    /// the pool or is dropped.
    proof fn lemma_release_exclusive(self, which: int)
        requires
            self.engine.wf(),
            self.exclusive(),
            0 <= which < self.consumer.len(),
        ensures
            self.step(Event::Release { which }).exclusive(),
    {
        let after = self.step(Event::Release { which });
        let buffer = self.consumer[which].buffer;
        let free = self.engine.pool.free;
        let queue = self.engine.channel.queue;
        self.engine.pool.lemma_release_wf(buffer);
        assert forall|i: int| 0 <= i < after.consumer.len() implies (#[trigger] after.consumer[i])
            == self.consumer[if i < which {
            i
        } else {
            i + 1
        }] by {}
        assert(absent(buffer.id, after.consumer)) by {
            assert forall|i: int| 0 <= i < after.consumer.len() implies (
            #[trigger] after.consumer[i]).buffer.id != buffer.id by {
                let a = if i < which {
                    i
                } else {
                    i + 1
                };
                assert(after.consumer[i] == self.consumer[a]);
            }
        }
        assert(absent(buffer.id, queue)) by {
            assert forall|i: int| 0 <= i < queue.len() implies (#[trigger] queue[i]).buffer.id
                != buffer.id by {
                assert(absent(queue[i].buffer.id, self.consumer));
            }
        }
        assert forall|i: int| 0 <= i < after.engine.pool.free.len() implies absent(
            (#[trigger] after.engine.pool.free[i]).id,
            after.engine.channel.queue,
        ) by {
            if i < free.len() {
                assert(after.engine.pool.free[i] == free[i]);
            }
        }
        assert forall|i: int| 0 <= i < after.engine.pool.free.len() implies absent(
            (#[trigger] after.engine.pool.free[i]).id,
            after.consumer,
        ) by {
            if i < free.len() {
                assert(after.engine.pool.free[i] == free[i]);
                assert(absent(free[i].id, self.consumer));
            }
        }
        assert forall|i: int| 0 <= i < after.engine.channel.queue.len() implies absent(
            (#[trigger] after.engine.channel.queue[i]).buffer.id,
            after.consumer,
        ) by {
            assert(absent(queue[i].buffer.id, self.consumer));
        }
        if self.worker is Some {
            let held = self.worker->Some_0;
            assert(absent(held.id, self.consumer));
            assert(unused(held.id, after.engine.pool.free)) by {
                assert forall|i: int| 0 <= i < after.engine.pool.free.len() implies (
                #[trigger] after.engine.pool.free[i]).id != held.id by {
                    if i < free.len() {
                        assert(after.engine.pool.free[i] == free[i]);
                    }
                }
            }
        }
    }

    proof fn lemma_get_frame_exclusive(self)
        requires
            self.engine.wf(),
            self.exclusive(),
        ensures
            self.step(Event::GetFrame).exclusive(),
    {
        let queue = self.engine.channel.queue;
        if queue.len() > 0 {
            let taken = self.step(Event::Receive);
            self.lemma_receive_exclusive();
            self.engine.lemma_receive_wf();
            let which = self.consumer.len() as int;
            taken.lemma_release_exclusive(which);
            let back = taken.step(Event::Release { which });
            let after = self.step(Event::GetFrame);
            assert(taken.consumer[which] == queue[0]);
            assert(back.consumer =~= self.consumer);
            assert(back.engine == after.engine);
            assert(back.worker == after.worker);
        }
    }

    /// No event breaks what holds of the system.
    pub proof fn lemma_step_inv(self, event: Event)
        requires
            self.inv(),
        ensures
            self.step(event).inv(),
    {
        self.lemma_step_engine(event);
        self.lemma_step_devices(event);
        self.lemma_step_deliveries(event);
        self.lemma_step_in_order(event);
        self.lemma_step_exclusive(event);
    }

    /// No run of events breaks what holds of the system.
    pub proof fn lemma_run_inv(self, events: Seq<Event>)
        requires
            self.inv(),
        ensures
            self.run(events).inv(),
        decreases events.len(),
    {
        if events.len() > 0 {
            self.lemma_run_inv(events.drop_last());
            self.run(events.drop_last()).lemma_step_inv(events.last());
        }
    }
}

/// While adoptions and stops take turns, the engine holds one handle after
/// an odd number of instructions and none after an even number.
pub proof fn lemma_handles_alternate(effects: Seq<DeviceEffect>, k: int)
    requires
        alternating(effects),
        0 <= k <= effects.len(),
    ensures
        handles_held(effects.take(k)) == k % 2,
    decreases k,
{
    if k > 0 {
        lemma_handles_alternate(effects, k - 1);
        assert(effects.take(k).drop_last() =~= effects.take(k - 1));
        assert(effects.take(k).last() == effects[k - 1]);
    }
}

/// The events adopt no stream of another shape than `shape`.
pub open spec fn keeps_shape(events: Seq<Event>, shape: Resolution) -> bool {
    forall|k: int|
        0 <= k < events.len() ==> ((#[trigger] events[k]) matches Event::OpenOutcome {
            outcome: Some(info),
        } ==> info.resolution == shape)
}

/// None of the events asks for a device to be opened.
pub open spec fn asks_nothing(events: Seq<Event>) -> bool {
    forall|k: int| 0 <= k < events.len() ==> !((#[trigger] events[k]) is RequestOpen)
}

/// None of the events is the consumer returning a buffer.
pub open spec fn keeps_hold(events: Seq<Event>) -> bool {
    forall|k: int| 0 <= k < events.len() ==> !((#[trigger] events[k]) is Release)
}

impl System {
    /// Nothing of another shape than `shape` waits in the queue or can join
    /// it.
    pub open spec fn settled(self, shape: Resolution) -> bool {
        &&& uniform(self.engine.channel.queue, shape)
        &&& self.engine.device.stream() matches Some(info) ==> info.resolution == shape
    }

    proof fn lemma_step_settled(self, event: Event, shape: Resolution)
        requires
            self.settled(shape),
            event matches Event::OpenOutcome { outcome: Some(info) } ==> info.resolution == shape,
        ensures
            self.step(event).settled(shape),
            self.delivered.len() <= self.step(event).delivered.len() <= self.delivered.len() + 1,
            forall|i: int|
                0 <= i < self.delivered.len() ==> self.step(event).delivered[i]
                    == self.delivered[i],
            self.step(event).delivered.len() > self.delivered.len() ==> self.step(
                event,
            ).delivered.last().buffer.resolution == shape,
    {
        let after = self.step(event);
        let queue = self.engine.channel.queue;
        assert forall|i: int| 0 <= i < after.engine.channel.queue.len() implies (
        #[trigger] after.engine.channel.queue[i]).buffer.resolution == shape by {
            match event {
                Event::Publish => {
                    if i < queue.len() {
                        assert(after.engine.channel.queue[i] == queue[i]);
                    }
                },
                Event::Receive => {
                    assert(after.engine.channel.queue[i] == queue[i + 1]);
                },
                Event::GetFrame => {
                    assert(after.engine.channel.queue[i] == queue[i + 1]);
                },
                Event::Disconnect => {},
                _ => {
                    assert(after.engine.channel.queue[i] == queue[i]);
                },
            }
        }
        if after.delivered.len() > self.delivered.len() {
            assert(after.delivered.last() == queue[0]);
        }
    }

    proof fn lemma_run_settled(self, events: Seq<Event>, shape: Resolution)
        requires
            self.settled(shape),
            keeps_shape(events, shape),
        ensures
            self.run(events).settled(shape),
            self.delivered.len() <= self.run(events).delivered.len(),
            forall|i: int|
                self.delivered.len() <= i < self.run(events).delivered.len() ==> (
                #[trigger] self.run(events).delivered[i]).buffer.resolution == shape,
        decreases events.len(),
    {
        if events.len() > 0 {
            let before = self.run(events.drop_last());
            assert forall|k: int| 0 <= k < events.drop_last().len() implies ((
            #[trigger] events.drop_last()[k]) matches Event::OpenOutcome { outcome: Some(info) }
                ==> info.resolution == shape) by {
                assert(events.drop_last()[k] == events[k]);
            }
            self.lemma_run_settled(events.drop_last(), shape);
            assert(events.last() == events[events.len() - 1]);
            before.lemma_step_settled(events.last(), shape);
            let after = self.run(events);
            assert forall|i: int| self.delivered.len() <= i < after.delivered.len() implies (
            #[trigger] after.delivered[i]).buffer.resolution == shape by {
                if i < before.delivered.len() {
                    assert(after.delivered[i] == before.delivered[i]);
                }
            }
        }
    }

    proof fn lemma_run_capacity(self, events: Seq<Event>)
        requires
            self.inv(),
        ensures
            self.run(events).engine.pool.capacity == self.engine.pool.capacity,
        decreases events.len(),
    {
        if events.len() > 0 {
            let before = self.run(events.drop_last());
            self.lemma_run_capacity(events.drop_last());
            self.lemma_run_inv(events.drop_last());
            match events.last() {
                Event::Poll => {
                    if before.engine.device.stream() is Some {
                        before.engine.pool.lemma_acquire_wf(
                            before.engine.device.stream()->Some_0.resolution,
                        );
                    }
                },
                Event::GetFrame => {
                    if before.engine.channel.queue.len() > 0 {
                        before.engine.pool.lemma_release_wf(before.engine.channel.queue[0].buffer);
                    }
                },
                _ => {},
            }
        }
    }

    proof fn lemma_run_keeps_hold(self, events: Seq<Event>)
        requires
            keeps_hold(events),
        ensures
            self.consumer.len() <= self.run(events).consumer.len(),
            forall|i: int|
                0 <= i < self.consumer.len() ==> self.run(events).consumer[i] == self.consumer[i],
        decreases events.len(),
    {
        if events.len() > 0 {
            assert forall|k: int| 0 <= k < events.drop_last().len() implies !((
            #[trigger] events.drop_last()[k]) is Release) by {
                assert(events.drop_last()[k] == events[k]);
            }
            self.lemma_run_keeps_hold(events.drop_last());
            assert(events.last() == events[events.len() - 1]);
        }
    }

    proof fn lemma_run_stays_closed(self, events: Seq<Event>)
        requires
            self.engine.device == DeviceState::Closed,
            !self.engine.running,
            asks_nothing(events),
        ensures
            self.run(events).engine.device == DeviceState::Closed,
            !self.run(events).engine.running,
            self.run(events).effects == self.effects,
        decreases events.len(),
    {
        if events.len() > 0 {
            assert forall|k: int| 0 <= k < events.drop_last().len() implies !((
            #[trigger] events.drop_last()[k]) is RequestOpen) by {
                assert(events.drop_last()[k] == events[k]);
            }
            self.lemma_run_stays_closed(events.drop_last());
            assert(events.last() == events[events.len() - 1]);
            let before = self.run(events.drop_last());
            assert(before.step(events.last()).effects =~= before.effects);
        }
    }

    /// A shutdown leaves the engine without a device, and it stays so until
    /// a new open is asked for: an open that was under way is called off,
    /// and whatever is reported of it afterwards, no device is adopted.
    pub proof fn theorem_shutdown_releases_the_device(self, events: Seq<Event>)
        requires
            self.inv(),
            asks_nothing(events),
        ensures
            self.step(Event::Shutdown).run(events).engine.device == DeviceState::Closed,
            handles_held(self.step(Event::Shutdown).run(events).effects) == 0,
            self.step(Event::Shutdown).run(events).effects == self.step(Event::Shutdown).effects,
    {
        let down = self.step(Event::Shutdown);
        self.lemma_step_inv(Event::Shutdown);
        down.lemma_run_stays_closed(events);
        let system = down.run(events);
        down.lemma_run_inv(events);
        lemma_handles_alternate(system.effects, system.effects.len() as int);
        assert(system.effects.take(system.effects.len() as int) =~= system.effects);
    }

    /// However devices are opened, closed and reopened, the engine never
    /// holds two device handles at once: after any number of its
    /// instructions about handles it holds none or one, and it holds one
    /// exactly while a device streams. The instructions take turns, an
    /// adoption first, and each stop names the device adopted just before
    /// it, so a device that was adopted is stopped once before the next is
    /// adopted.
    pub proof fn theorem_one_device_at_a_time(self, events: Seq<Event>, k: int)
        requires
            self.inv(),
            0 <= k <= self.run(events).effects.len(),
        ensures
            0 <= handles_held(self.run(events).effects.take(k)) <= 1,
            alternating(self.run(events).effects),
            self.run(events).engine.device.is_streaming() <==> handles_held(
                self.run(events).effects,
            ) == 1,
    {
        let system = self.run(events);
        self.lemma_run_inv(events);
        lemma_handles_alternate(system.effects, k);
        lemma_handles_alternate(system.effects, system.effects.len() as int);
        assert(system.effects.take(system.effects.len() as int) =~= system.effects);
    }

    /// Once a stream of some shape is adopted while nothing of another shape
    /// waits in the queue, every frame delivered from then on has that
    /// shape, for as long as no stream of another shape is adopted.
    pub proof fn theorem_frames_follow_the_stream(
        self,
        info: StreamInfo,
        events: Seq<Event>,
        i: int,
    )
        requires
            uniform(self.engine.channel.queue, info.resolution),
            self.engine.swap_camera(Some(info)).1 is Ok,
            keeps_shape(events, info.resolution),
            self.delivered.len() <= i < self.step(Event::OpenOutcome { outcome: Some(info) }).run(
                events,
            ).delivered.len(),
        ensures
            self.step(Event::OpenOutcome { outcome: Some(info) }).run(
                events,
            ).delivered[i].buffer.resolution == info.resolution,
    {
        let start = self.step(Event::OpenOutcome { outcome: Some(info) });
        assert(start.engine.channel.queue == self.engine.channel.queue);
        start.lemma_run_settled(events, info.resolution);
    }

    /// Every frame ever delivered is whole: its bytes fill its shape, three
    /// to a pixel.
    pub proof fn theorem_delivered_frames_are_whole(self, events: Seq<Event>, i: int)
        requires
            self.inv(),
            0 <= i < self.run(events).delivered.len(),
        ensures
            self.run(events).delivered[i].buffer.wf(),
    {
        self.lemma_run_inv(events);
    }

    /// The buffer the worker writes into is never one that waits in the
    /// queue or is in the consumer's hands, nor one that idles in the pool.
    pub proof fn theorem_writer_is_alone(self, events: Seq<Event>)
        requires
            self.inv(),
        ensures
            self.run(events).worker matches Some(buffer) ==> {
                &&& absent(buffer.id, self.run(events).engine.channel.queue)
                &&& absent(buffer.id, self.run(events).consumer)
                &&& unused(buffer.id, self.run(events).engine.pool.free)
            },
    {
        self.lemma_run_inv(events);
    }

    /// A frame in the consumer's hands stays as it is, whatever else
    /// happens, until the consumer returns a frame.
    pub proof fn theorem_held_frames_stay(self, events: Seq<Event>, i: int)
        requires
            keeps_hold(events),
            0 <= i < self.consumer.len(),
        ensures
            i < self.run(events).consumer.len(),
            self.run(events).consumer[i] == self.consumer[i],
    {
        self.lemma_run_keeps_hold(events);
    }

    /// Frames are delivered in the order of their sequence numbers, each
    /// number above the one before.
    pub proof fn theorem_delivery_order(self, events: Seq<Event>, i: int, j: int)
        requires
            self.inv(),
            0 <= i < j < self.run(events).delivered.len(),
        ensures
            self.run(events).delivered[i].sequence < self.run(events).delivered[j].sequence,
    {
        self.lemma_run_inv(events);
    }

    /// Frames reach the consumer in the order they were published, none
    /// skipped and none twice: the frames delivered are the first of those
    /// published. While the consumer is there, every other published frame
    /// waits in the queue.
    pub proof fn theorem_delivery_is_fifo(self, events: Seq<Event>, i: int)
        requires
            self.inv(),
            0 <= i < self.run(events).delivered.len(),
        ensures
            i < self.run(events).published.len(),
            self.run(events).delivered[i] == self.run(events).published[i],
            self.run(events).engine.channel.connected ==> self.run(events).published.len()
                == self.run(events).delivered.len() + self.run(events).engine.channel.queue.len(),
    {
        self.lemma_run_inv(events);
    }

    /// However often buffers are asked for, the pool never has more of them
    /// than its capacity, and its capacity never changes.
    pub proof fn theorem_pool_bounded(self, events: Seq<Event>)
        requires
            self.inv(),
        ensures
            self.run(events).engine.pool.size() <= self.engine.pool.capacity,
            self.run(events).engine.pool.capacity == self.engine.pool.capacity,
    {
        self.lemma_run_inv(events);
        self.lemma_run_capacity(events);
    }
}

} // verus!
