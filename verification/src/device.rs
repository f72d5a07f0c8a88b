use vstd::prelude::*;
use crate::format::{RequestedFormat, StreamInfo};

verus! {

/// Where the one device slot of the engine stands.
#[derive(Clone, Copy, Debug, PartialEq, Eq, Structural)]
pub enum DeviceState {
    /// No device is open.
    Closed,
    /// An open was requested and its outcome is awaited. Whatever streamed
    /// before has been ordered to stop; the worker sees no device.
    Opening { index: u32, format: RequestedFormat },
    /// The device streams and the worker may pull frames from it.
    Streaming { index: u32, info: StreamInfo },
}

/// Why a request to open a device did not succeed.
#[derive(Clone, Copy, Debug, PartialEq, Eq, Structural)]
pub enum DeviceError {
    /// The device or the format could not be opened.
    OpenFailure,
    /// Another open is under way and holds the slot.
    Busy,
    /// An outcome was reported though no open was under way.
    NoOpenPending,
}

/// What the caller has to do to carry out an open: first stop the device
/// named by `stop_previous`, if any, then open `index` with `format` and
/// report how that went.
#[derive(Clone, Copy, Debug, PartialEq, Eq, Structural)]
pub struct OpenPlan {
    pub stop_previous: Option<u32>,
    pub index: u32,
    pub format: RequestedFormat,
}

impl DeviceState {
    pub open spec fn is_streaming(self) -> bool {
        self is Streaming
    }

    /// The shape and rate of the stream, while there is one.
    pub open spec fn stream(self) -> Option<StreamInfo> {
        match self {
            DeviceState::Streaming { index, info } => Some(info),
            _ => None,
        }
    }

    /// The device whose stream must be stopped before the slot is given to
    /// another, if any.
    pub open spec fn occupant(self) -> Option<u32> {
        match self {
            DeviceState::Streaming { index, info } => Some(index),
            _ => None,
        }
    }

    /// A request to open `index`: refused while another open is under way;
    /// otherwise the slot is taken for the new device and whatever streamed
    /// is to be stopped first.
    pub open spec fn begin_open(self, index: u32, format: RequestedFormat) -> (
        DeviceState,
        Result<OpenPlan, DeviceError>,
    ) {
        match self {
            DeviceState::Opening { .. } => (self, Err(DeviceError::Busy)),
            _ => (
                DeviceState::Opening { index, format },
                Ok(OpenPlan { stop_previous: self.occupant(), index, format }),
            ),
        }
    }

    /// The outcome of the open under way: a stream that started is adopted,
    /// a failure leaves the slot empty. With no open under way nothing
    /// changes and the outcome is refused.
    pub open spec fn finish_open(self, outcome: Option<StreamInfo>) -> (
        DeviceState,
        Result<(), DeviceError>,
    ) {
        match self {
            DeviceState::Opening { index, format } => match outcome {
                Some(info) => (DeviceState::Streaming { index, info }, Ok(())),
                None => (DeviceState::Closed, Err(DeviceError::OpenFailure)),
            },
            _ => (self, Err(DeviceError::NoOpenPending)),
        }
    }

    /// Closing: the slot empties. A streaming device is to be stopped. An
    /// open under way is called off: its outcome will be refused, and
    /// whoever opened the device stops it. With no device open and none
    /// being opened nothing happens.
    pub open spec fn close(self) -> (DeviceState, Option<u32>) {
        (DeviceState::Closed, self.occupant())
    }
}

/// The slot that holds at most one open device, and the protocol by which
/// one device is exchanged for another.
#[derive(Clone, Copy, Debug)]
pub struct DeviceSlot {
    state: DeviceState,
}

impl View for DeviceSlot {
    type V = DeviceState;

    closed spec fn view(&self) -> DeviceState {
        self.state
    }
}

impl DeviceSlot {
    pub fn new() -> (slot: DeviceSlot)
        ensures
            slot@ == DeviceState::Closed,
    {
        DeviceSlot { state: DeviceState::Closed }
    }

    pub fn state(&self) -> (state: DeviceState)
        ensures
            state == self@,
    {
        self.state
    }

    /// The stream the worker may pull from, if there is one.
    pub fn stream(&self) -> (info: Option<StreamInfo>)
        ensures
            info == self@.stream(),
    {
        match self.state {
            DeviceState::Streaming { index, info } => Some(info),
            _ => None,
        }
    }

    pub fn begin_open(&mut self, index: u32, format: RequestedFormat) -> (res: Result<
        OpenPlan,
        DeviceError,
    >)
        ensures
            final(self)@ == old(self)@.begin_open(index, format).0,
            res == old(self)@.begin_open(index, format).1,
    {
        let stop_previous: Option<u32> = match self.state {
            DeviceState::Opening { .. } => {
                return Err(DeviceError::Busy);
            },
            DeviceState::Streaming { index: previous, info } => Some(previous),
            DeviceState::Closed => None,
        };
        self.state = DeviceState::Opening { index, format };
        Ok(OpenPlan { stop_previous, index, format })
    }

    pub fn finish_open(&mut self, outcome: Option<StreamInfo>) -> (res: Result<(), DeviceError>)
        ensures
            final(self)@ == old(self)@.finish_open(outcome).0,
            res == old(self)@.finish_open(outcome).1,
    {
        match self.state {
            DeviceState::Opening { index, format } => match outcome {
                Some(info) => {
                    self.state = DeviceState::Streaming { index, info };
                    Ok(())
                },
                None => {
                    self.state = DeviceState::Closed;
                    Err(DeviceError::OpenFailure)
                },
            },
            _ => Err(DeviceError::NoOpenPending),
        }
    }

    /// Empties the slot; the result names the device the caller must stop.
    pub fn close(&mut self) -> (stop: Option<u32>)
        ensures
            final(self)@ == old(self)@.close().0,
            stop == old(self)@.close().1,
    {
        let stop: Option<u32> = match self.state {
            DeviceState::Streaming { index, info } => Some(index),
            _ => None,
        };
        self.state = DeviceState::Closed;
        stop
    }
}

} // verus!
