//! Clipboard requests of widgets, served by the event loop.
//!
//! Reads lag one frame behind: a widget requests a read in one frame, the event loop fulfills
//! it at the end of that frame, and the widget takes the result in the next frame. Writes are
//! immediate: a widget requests a write and the event loop takes it at the end of the frame.
//! A request left over from an earlier frame is evicted when a frame ends.
//!
//! Frames are identified by a monotonic timestamp of their start.
use crate::uhi::interactionstate::Key;
use vstd::prelude::*;

verus! {

/// The error type of `anyhow`, in which a failed clipboard read arrives.
#[verifier::external_type_specification]
#[verifier::external_body]
pub struct ExAnyhowError(anyhow::Error);

struct Read {
    key: Key,
    frame_start: u64,
    payload: Option<Result<String, anyhow::Error>>,
}

struct Write {
    frame_start: u64,
    payload: String,
}

/// A read request as the contracts see it.
pub struct ReadModel {
    /// The widget that asked.
    pub key: Key,
    /// Start of the frame in which it asked.
    pub frame_start: u64,
    /// `None` while the event loop has not answered; then `Some(Some(text))` for a successful
    /// read and `Some(None)` for a failed one.
    pub payload: Option<Option<Seq<char>>>,
}

/// A write request as the contracts see it.
pub struct WriteModel {
    pub frame_start: u64,
    pub payload: Seq<char>,
}

/// The service as the contracts see it.
pub struct ClipboardModel {
    /// Start of the current frame, between `begin_frame` and `end_frame`.
    pub frame_start: Option<u64>,
    pub read: Option<ReadModel>,
    pub write: Option<WriteModel>,
}

/// The model of an answer to a read.
pub open spec fn payload_model(payload: Result<String, anyhow::Error>) -> Option<Seq<char>> {
    match payload {
        Ok(s) => Some(s@),
        Err(_) => None,
    }
}

/// Pending clipboard requests; see [`ClipboardModel`].
pub struct ClipboardService {
    frame_start: Option<u64>,
    read: Option<Read>,
    write: Option<Write>,
}

impl View for ClipboardService {
    type V = ClipboardModel;

    closed spec fn view(&self) -> ClipboardModel {
        ClipboardModel {
            frame_start: self.frame_start,
            read: match self.read {
                Some(r) => Some(
                    ReadModel {
                        key: r.key,
                        frame_start: r.frame_start,
                        payload: match r.payload {
                            Some(p) => Some(payload_model(p)),
                            None => None,
                        },
                    },
                ),
                None => None,
            },
            write: match self.write {
                Some(w) => Some(WriteModel { frame_start: w.frame_start, payload: w.payload@ }),
                None => None,
            },
        }
    }
}

/// A read is waiting for the event loop.
pub open spec fn awaiting_read(m: ClipboardModel) -> bool {
    m.read matches Some(r) && r.payload is None
}

/// The requests that survive the end of the frame that started at `frame_start`: those made
/// in that frame or later.
pub open spec fn end_frame_step(m: ClipboardModel, frame_start: u64) -> ClipboardModel {
    ClipboardModel {
        frame_start: None,
        read: match m.read {
            Some(r) => if r.frame_start < frame_start { None } else { m.read },
            None => None,
        },
        write: match m.write {
            Some(w) => if w.frame_start < frame_start { None } else { m.write },
            None => None,
        },
    }
}

/// The state after widget `key` asks for a read in the current frame.
pub open spec fn request_read_step(m: ClipboardModel, key: Key) -> ClipboardModel {
    ClipboardModel {
        read: Some(ReadModel { key, frame_start: m.frame_start->0, payload: None }),
        ..m
    }
}

/// The state after the event loop answers the waiting read with `answer`.
pub open spec fn fulfill_step(m: ClipboardModel, answer: Option<Seq<char>>) -> ClipboardModel {
    ClipboardModel { read: Some(ReadModel { payload: Some(answer), ..m.read->0 }), ..m }
}

/// The state after a widget asks to write `payload` in the current frame.
pub open spec fn request_write_step(m: ClipboardModel, payload: Seq<char>) -> ClipboardModel {
    ClipboardModel { write: Some(WriteModel { frame_start: m.frame_start->0, payload }), ..m }
}

/// The state after a frame starting at `frame_start` begins.
pub open spec fn begin_frame_step(m: ClipboardModel, frame_start: u64) -> ClipboardModel {
    ClipboardModel { frame_start: Some(frame_start), ..m }
}

/// The read request that `key` can take now: one of its own that was answered.
pub open spec fn takes_read(m: ClipboardModel, key: Key) -> bool {
    m.read matches Some(r) && r.key == key && r.payload is Some
}

impl Default for ClipboardService {
    fn default() -> (s: Self)
        ensures
            s@ == (ClipboardModel { frame_start: None, read: None, write: None }),
    {
        ClipboardService { frame_start: None, read: None, write: None }
    }
}

impl ClipboardService {
    pub fn begin_frame(&mut self, frame_start: u64)
        ensures
            final(self)@ == begin_frame_step(old(self)@, frame_start),
    {
        self.frame_start = Some(frame_start);
    }

    /// Ends the frame and evicts the requests of earlier frames (orphaned or not consumed).
    pub fn end_frame(&mut self)
        requires
            old(self)@.frame_start is Some,
        ensures
            final(self)@ == end_frame_step(old(self)@, old(self)@.frame_start->0),
    {
        let frame_start = match self.frame_start.take() {
            Some(f) => f,
            None => unreached(),
        };
        let stale_read = match &self.read {
            Some(r) => r.frame_start < frame_start,
            None => false,
        };
        if stale_read {
            self.read = None;
        }
        let stale_write = match &self.write {
            Some(w) => w.frame_start < frame_start,
            None => false,
        };
        if stale_write {
            self.write = None;
        }
    }

    /// Widget `key` asks to read the clipboard; it can take the result next frame.
    pub fn request_read(&mut self, key: Key)
        requires
            old(self)@.frame_start is Some,
        ensures
            final(self)@ == request_read_step(old(self)@, key),
    {
        let frame_start = match self.frame_start {
            Some(f) => f,
            None => unreached(),
        };
        self.read = Some(Read { key, frame_start, payload: None });
    }

    /// Whether a frame has begun, so that requests can be stamped with it.
    pub fn has_frame(&self) -> (r: bool)
        ensures
            r == (self@.frame_start is Some),
    {
        self.frame_start.is_some()
    }

    /// Whether a read waits for the event loop to fulfill it.
    pub fn is_awaiting_read(&mut self) -> (r: bool)
        ensures
            r == awaiting_read(old(self)@),
            final(self)@ == old(self)@,
    {
        match &self.read {
            Some(r) => r.payload.is_none(),
            None => false,
        }
    }

    /// The event loop answers the read that waits.
    pub fn fulfill_read(&mut self, payload: Result<String, anyhow::Error>)
        requires
            awaiting_read(old(self)@),
        ensures
            final(self)@ == fulfill_step(old(self)@, payload_model(payload)),
    {
        match self.read.take() {
            Some(r) => {
                self.read = Some(Read { key: r.key, frame_start: r.frame_start, payload: Some(payload) });
            },
            None => unreached(),
        }
    }

    /// Widget `key` takes the answer to its read: the text of a successful read, `None` for a
    /// failed one. The request is consumed either way; a request of another widget, or one not
    /// answered yet, stays.
    pub fn try_take_read(&mut self, key: Key) -> (r: Option<String>)
        ensures
            takes_read(old(self)@, key) ==> {
                &&& final(self)@ == (ClipboardModel { read: None, ..old(self)@ })
                &&& match old(self)@.read->0.payload->0 {
                    Some(text) => r matches Some(s) && s@ == text,
                    None => r is None,
                }
            },
            !takes_read(old(self)@, key) ==> r is None && final(self)@ == old(self)@,
    {
        let ready = match &self.read {
            Some(r) => r.key == key && r.payload.is_some(),
            None => false,
        };
        if !ready {
            return None;
        }
        match self.read.take() {
            Some(r) => match r.payload {
                Some(Ok(payload)) => Some(payload),
                Some(Err(_)) => None,
                None => unreached(),
            },
            None => unreached(),
        }
    }

    /// A widget asks to write `payload` to the clipboard.
    pub fn request_write(&mut self, payload: String)
        requires
            old(self)@.frame_start is Some,
        ensures
            final(self)@ == request_write_step(old(self)@, payload@),
    {
        let frame_start = match self.frame_start {
            Some(f) => f,
            None => unreached(),
        };
        self.write = Some(Write { frame_start, payload });
    }

    /// The event loop takes the text to put into the clipboard.
    pub fn take_write(&mut self) -> (r: Option<String>)
        ensures
            match old(self)@.write {
                Some(w) => r matches Some(s) && s@ == w.payload,
                None => r is None,
            },
            final(self)@ == (ClipboardModel { write: None, ..old(self)@ }),
    {
        match self.write.take() {
            Some(w) => Some(w.payload),
            None => None,
        }
    }
}

/// A read requested in one frame and answered at its end can be taken, with the answer, by
/// the requesting widget in any later frame; it is not available to another widget.
pub proof fn law_read_taken_next_frame(
    m: ClipboardModel,
    key: Key,
    other: Key,
    answer: Option<Seq<char>>,
    next_frame: u64,
)
    requires
        m.frame_start is Some,
        m.frame_start->0 <= next_frame,
        other != key,
    ensures
        ({
            let f = m.frame_start->0;
            let next = begin_frame_step(
                end_frame_step(fulfill_step(request_read_step(m, key), answer), f),
                next_frame,
            );
            &&& takes_read(next, key)
            &&& next.read->0.payload == Some(answer)
            &&& !takes_read(next, other)
        }),
{
}

/// A read that is not answered before its frame ends cannot be taken in the next frame.
pub proof fn law_unanswered_read_not_taken(m: ClipboardModel, key: Key, next_frame: u64)
    requires
        m.frame_start is Some,
    ensures
        ({
            let f = m.frame_start->0;
            let next = begin_frame_step(end_frame_step(request_read_step(m, key), f), next_frame);
            !takes_read(next, key) && awaiting_read(next)
        }),
{
}

/// A request not consumed in the frame after the one it was made in is evicted when that
/// frame ends.
pub proof fn law_stale_requests_evicted(
    m: ClipboardModel,
    key: Key,
    answer: Option<Seq<char>>,
    text: Seq<char>,
    next_frame: u64,
)
    requires
        m.frame_start is Some,
        m.frame_start->0 < next_frame,
    ensures
        ({
            let f = m.frame_start->0;
            let requested = request_write_step(
                fulfill_step(request_read_step(m, key), answer),
                text,
            );
            let after = end_frame_step(
                begin_frame_step(end_frame_step(requested, f), next_frame),
                next_frame,
            );
            &&& end_frame_step(requested, f).write == Some(WriteModel { frame_start: f, payload: text })
            &&& after.read is None
            &&& after.write is None
        }),
{
}

} // verus!
