//! The tail step: the decisions that turn the state of the log cursor into
//! reads, acknowledgements and deliveries. The caller performs each action
//! on the log and hands back what came of it.

use crate::model::{server_record, ServerView};
use crate::record::LogRecord;
use crate::server::CCUSServer;
use vstd::prelude::*;

verus! {

/// Why the log could not be read.
#[derive(Clone, Copy, Debug, PartialEq, Eq, Structural)]
pub enum QueueError {
    NotReady,
    AlreadyOpen,
    FailWrite,
    InvalidChecksum,
    FailReadTailMessage,
    FailOpen,
    FailRead,
    NotFound,
    Other,
}

/// How bad a read error is.
#[derive(Clone, Copy, Debug, PartialEq, Eq, Structural)]
pub enum Severity {
    /// The record at the tail is not complete yet; the next tick reads it
    /// again.
    Transient,
    /// Tailing is suspended for this cycle and the error is reported.
    Fatal,
}

/// Where the tail step stands.
#[derive(Clone, Copy, Debug, PartialEq, Eq, Structural)]
pub enum TailState {
    /// Between two ticks.
    Idle,
    /// The counters of the current part of the log were asked for.
    AwaitPart,
    /// Nothing is unread in the current part; the log was asked whether a
    /// new part has appeared.
    AwaitSegment,
    /// A batch is being read; `left` records are still to be read.
    Reading { left: u32 },
}

/// What the caller reports to the tail step.
pub enum TailEvent {
    /// The interval timer fired.
    Tick,
    /// The counters of the current part: records pushed by the writers and
    /// records popped by this reader.
    PartInfo { pushed: u32, popped: u32 },
    /// The counters of the current part could not be read.
    PartFailed { error: QueueError },
    /// The newest part of the log and the part that this reader is on.
    SegmentInfo { queue_part: u32, consumer_part: u32 },
    /// A record was read and decoded.
    Record { record: LogRecord },
    /// No further record could be read.
    EndOfLog,
    /// Reading a record failed.
    ReadFailed { error: QueueError },
}

/// What the caller is to do next.
#[derive(Clone, Copy, Debug, PartialEq, Eq, Structural)]
pub enum TailAction {
    /// Reopen the current part of the log and read its counters.
    QueryPart,
    /// Ask the log for its newest part.
    QuerySegment,
    /// Read and decode the next record.
    Read,
    /// Acknowledge the record that was just handed in; then, with `more`,
    /// read the next one, else deliver what is pending and wait for the
    /// next tick.
    Ack { more: bool },
    /// The batch is over: deliver what is pending and wait for the next
    /// tick; with `report`, report the error first.
    Finish { report: bool },
    /// Nothing to read: wait for the next tick.
    Wait,
}

/// How bad `e` is: only a record that is not complete yet is transient.
pub open spec fn severity_of(e: QueueError) -> Severity {
    if e is FailReadTailMessage {
        Severity::Transient
    } else {
        Severity::Fatal
    }
}

/// The number of unread records: pushed less popped, and 0 where the
/// counters are out of step.
pub open spec fn backlog_of(pushed: u32, popped: u32) -> u32 {
    if pushed > popped {
        (pushed - popped) as u32
    } else {
        0
    }
}

/// The size of the batch to read for a backlog: all of it, but no more than
/// `max_batch`.
pub open spec fn batch_size(backlog: u32, max_batch: u32) -> u32 {
    if backlog < max_batch {
        backlog
    } else {
        max_batch
    }
}

/// True when the tail step, in `state`, takes the record of `e` in.
pub open spec fn takes_record(state: TailState, e: TailEvent) -> bool {
    e is Record && (state matches TailState::Reading { left } && left > 0)
}

/// The state after `e` and the action that it calls for. An event that the
/// state does not expect sends the tail step back to idle.
pub open spec fn tail_next(state: TailState, max_batch: u32, e: TailEvent) -> (TailState, TailAction) {
    match (state, e) {
        (TailState::Idle, TailEvent::Tick) => (TailState::AwaitPart, TailAction::QueryPart),
        (TailState::AwaitPart, TailEvent::PartInfo { pushed, popped }) => {
            let backlog = backlog_of(pushed, popped);
            if backlog == 0 {
                (TailState::AwaitSegment, TailAction::QuerySegment)
            } else if max_batch == 0 {
                (TailState::Idle, TailAction::Wait)
            } else {
                (TailState::Reading { left: batch_size(backlog, max_batch) }, TailAction::Read)
            }
        },
        (TailState::AwaitPart, TailEvent::PartFailed { error }) => (
            TailState::Idle,
            TailAction::Finish { report: true },
        ),
        (TailState::AwaitSegment, TailEvent::SegmentInfo { queue_part, consumer_part }) => {
            if queue_part > consumer_part && max_batch > 0 {
                (TailState::Reading { left: 1 }, TailAction::Read)
            } else {
                (TailState::Idle, TailAction::Wait)
            }
        },
        (TailState::Reading { left }, TailEvent::Record { record }) => {
            if left > 1 {
                (TailState::Reading { left: (left - 1) as u32 }, TailAction::Ack { more: true })
            } else if left == 1 {
                (TailState::Idle, TailAction::Ack { more: false })
            } else {
                (TailState::Idle, TailAction::Wait)
            }
        },
        (TailState::Reading { left }, TailEvent::EndOfLog) => (
            TailState::Idle,
            TailAction::Finish { report: false },
        ),
        (TailState::Reading { left }, TailEvent::ReadFailed { error }) => (
            TailState::Idle,
            TailAction::Finish { report: severity_of(error) is Fatal },
        ),
        _ => (TailState::Idle, TailAction::Wait),
    }
}

/// The broker after `e`: a record that the tail step takes in is ingested,
/// nothing else touches the broker.
pub open spec fn tail_effect(state: TailState, e: TailEvent, v: ServerView) -> ServerView {
    match e {
        TailEvent::Record { record } => if takes_record(state, e) {
            server_record(v, record@)
        } else {
            v
        },
        _ => v,
    }
}

/// The count of records taken in, after one more; it stops at the greatest
/// value.
pub open spec fn count_after(count: u64, taken: bool) -> u64 {
    if taken && count < u64::MAX {
        (count + 1) as u64
    } else {
        count
    }
}

/// Tells how bad a read error is.
pub fn classify(e: QueueError) -> (s: Severity)
    ensures
        s == severity_of(e),
{
    match e {
        QueueError::FailReadTailMessage => Severity::Transient,
        _ => Severity::Fatal,
    }
}

/// Computes the number of unread records.
pub fn backlog(pushed: u32, popped: u32) -> (n: u32)
    ensures
        n == backlog_of(pushed, popped),
{
    if pushed > popped {
        pushed - popped
    } else {
        0
    }
}

/// The tail step of one log reader.
pub struct Tailer {
    state: TailState,
    max_batch: u32,
    total_prepared_count: u64,
}

impl Tailer {
    /// Where the tail step stands.
    pub closed spec fn state(&self) -> TailState {
        self.state
    }

    /// The greatest number of records read in one batch.
    pub closed spec fn max_batch(&self) -> u32 {
        self.max_batch
    }

    /// The number of records taken in so far.
    pub closed spec fn prepared(&self) -> u64 {
        self.total_prepared_count
    }

    /// An idle tail step that reads at most `max_batch` records per tick.
    pub fn new(max_batch: u32) -> (t: Self)
        ensures
            t.state() == TailState::Idle,
            t.max_batch() == max_batch,
            t.prepared() == 0,
    {
        Tailer { state: TailState::Idle, max_batch, total_prepared_count: 0 }
    }

    /// The number of records taken in so far.
    pub fn total_prepared_count(&self) -> (n: u64)
        ensures
            n == self.prepared(),
    {
        self.total_prepared_count
    }

    /// Where the tail step stands.
    pub fn current(&self) -> (s: TailState)
        ensures
            s == self.state(),
    {
        self.state
    }

    /// Takes what the caller reports and says what to do next. A record that
    /// arrives while a batch is being read is handed to the broker, also
    /// when it is malformed: it is acknowledged like any other, so that it
    /// does not hold up the records after it.
    pub fn step(&mut self, server: &mut CCUSServer, event: TailEvent) -> (action: TailAction)
        requires
            old(server).wf(),
        ensures
            final(server).wf(),
            final(server).reported() == old(server).reported(),
            (final(self).state(), action) == tail_next(
                old(self).state(),
                old(self).max_batch(),
                event,
            ),
            final(self).max_batch() == old(self).max_batch(),
            final(server)@ == tail_effect(old(self).state(), event, old(server)@),
            final(self).prepared() == count_after(
                old(self).prepared(),
                takes_record(old(self).state(), event),
            ),
    {
        let state = self.state;
        match event {
            TailEvent::Tick => {
                match state {
                    TailState::Idle => {
                        self.state = TailState::AwaitPart;
                        TailAction::QueryPart
                    },
                    _ => {
                        self.state = TailState::Idle;
                        TailAction::Wait
                    },
                }
            },
            TailEvent::PartInfo { pushed, popped } => {
                match state {
                    TailState::AwaitPart => {
                        let unread: u32 = backlog(pushed, popped);
                        if unread == 0 {
                            self.state = TailState::AwaitSegment;
                            TailAction::QuerySegment
                        } else if self.max_batch == 0 {
                            self.state = TailState::Idle;
                            TailAction::Wait
                        } else {
                            let left: u32 = if unread < self.max_batch {
                                unread
                            } else {
                                self.max_batch
                            };
                            self.state = TailState::Reading { left };
                            TailAction::Read
                        }
                    },
                    _ => {
                        self.state = TailState::Idle;
                        TailAction::Wait
                    },
                }
            },
            TailEvent::PartFailed { error } => {
                self.state = TailState::Idle;
                match state {
                    TailState::AwaitPart => TailAction::Finish { report: true },
                    _ => TailAction::Wait,
                }
            },
            TailEvent::SegmentInfo { queue_part, consumer_part } => {
                match state {
                    TailState::AwaitSegment => {
                        if queue_part > consumer_part && self.max_batch > 0 {
                            self.state = TailState::Reading { left: 1 };
                            TailAction::Read
                        } else {
                            self.state = TailState::Idle;
                            TailAction::Wait
                        }
                    },
                    _ => {
                        self.state = TailState::Idle;
                        TailAction::Wait
                    },
                }
            },
            TailEvent::Record { record } => {
                match state {
                    TailState::Reading { left } => {
                        if left == 0 {
                            self.state = TailState::Idle;
                            TailAction::Wait
                        } else {
                            let _ = server.on_record(&record);
                            if self.total_prepared_count < u64::MAX {
                                self.total_prepared_count = self.total_prepared_count + 1;
                            }
                            if left > 1 {
                                self.state = TailState::Reading { left: left - 1 };
                                TailAction::Ack { more: true }
                            } else {
                                self.state = TailState::Idle;
                                TailAction::Ack { more: false }
                            }
                        }
                    },
                    _ => {
                        self.state = TailState::Idle;
                        TailAction::Wait
                    },
                }
            },
            TailEvent::EndOfLog => {
                self.state = TailState::Idle;
                match state {
                    TailState::Reading { left } => TailAction::Finish { report: false },
                    _ => TailAction::Wait,
                }
            },
            TailEvent::ReadFailed { error } => {
                self.state = TailState::Idle;
                match state {
                    TailState::Reading { left } => {
                        match classify(error) {
                            Severity::Fatal => TailAction::Finish { report: true },
                            Severity::Transient => TailAction::Finish { report: false },
                        }
                    },
                    _ => TailAction::Wait,
                }
            },
        }
    }
}

} // verus!
