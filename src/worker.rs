//! The per-sink worker: batching, draining and command ordering.
//!
//! A worker thread receives `LogCommand`s in channel order and feeds each one
//! to `WorkerCore::step`, which decides what the sink must do and hands the
//! decisions back as a list of `SinkAction`s to be carried out in order.

use vstd::prelude::*;

verus! {

/// crossbeam's `Sender`, carried opaquely by readiness probes.
#[verifier::external_type_specification]
#[verifier::external_body]
#[verifier::reject_recursive_types(T)]
pub struct ExSender<T>(crossbeam_channel::Sender<T>);

/// Largest accepted batch size.
pub const MAX_BATCH_SIZE: usize = 1048576;

/// Longest accepted batch interval, in milliseconds.
pub const MAX_BATCH_INTERVAL_MS: u64 = 60000;

/// Largest accepted buffer size.
pub const MAX_BUFFER_SIZE: usize = 10485760;

/// Batching parameters of a worker.
///
/// `batch_size` counts records: a write that brings the pending batch to
/// `batch_size` records hands the batch to the sink.
#[derive(Debug, Clone, Copy, PartialEq, Eq, Structural)]
pub struct BatchConfig {
    /// Records gathered before the batch goes to the sink.
    pub batch_size: usize,
    /// A write arriving this long after the last hand-over sends the batch.
    pub batch_interval_ms: u64,
    /// Capacity of the pending buffer; at least `batch_size`.
    pub buffer_size: usize,
}

/// Why a batch configuration was refused.
#[derive(Debug, Clone, Copy, PartialEq, Eq, Structural)]
pub enum BatchConfigError {
    ZeroBatchSize,
    BatchSizeTooLarge,
    ZeroInterval,
    IntervalTooLong,
    ZeroBufferSize,
    BufferSizeTooLarge,
    BufferSmallerThanBatch,
}

impl BatchConfigError {
    /// A human-readable description of the error.
    pub fn message(&self) -> String {
        match self {
            BatchConfigError::ZeroBatchSize => String::from_str("batch size must not be 0"),
            BatchConfigError::BatchSizeTooLarge => String::from_str("batch size too large (at most 1MB)"),
            BatchConfigError::ZeroInterval => String::from_str("batch interval must not be 0"),
            BatchConfigError::IntervalTooLong => String::from_str("batch interval too long (at most 60s)"),
            BatchConfigError::ZeroBufferSize => String::from_str("buffer size must not be 0"),
            BatchConfigError::BufferSizeTooLarge => String::from_str("buffer size too large (at most 10MB)"),
            BatchConfigError::BufferSmallerThanBatch => String::from_str("buffer size must be at least the batch size"),
        }
    }
}

/// The first rule that `c` breaks, checked in a fixed order, or `Ok`.
pub open spec fn batch_config_check(c: BatchConfig) -> Result<(), BatchConfigError> {
    if c.batch_size == 0 {
        Err(BatchConfigError::ZeroBatchSize)
    } else if c.batch_size > MAX_BATCH_SIZE {
        Err(BatchConfigError::BatchSizeTooLarge)
    } else if c.batch_interval_ms == 0 {
        Err(BatchConfigError::ZeroInterval)
    } else if c.batch_interval_ms > MAX_BATCH_INTERVAL_MS {
        Err(BatchConfigError::IntervalTooLong)
    } else if c.buffer_size == 0 {
        Err(BatchConfigError::ZeroBufferSize)
    } else if c.buffer_size > MAX_BUFFER_SIZE {
        Err(BatchConfigError::BufferSizeTooLarge)
    } else if c.buffer_size < c.batch_size {
        Err(BatchConfigError::BufferSmallerThanBatch)
    } else {
        Ok(())
    }
}

impl BatchConfig {
    /// The configuration invariant: `buffer_size >= batch_size >= 1`,
    /// `batch_interval_ms` in `(0, 60000]`, and both sizes within their caps.
    pub open spec fn valid(&self) -> bool {
        batch_config_check(*self) is Ok
    }

    pub fn validate(&self) -> (r: Result<(), BatchConfigError>)
        ensures
            r == batch_config_check(*self),
    {
        if self.batch_size == 0 {
            return Err(BatchConfigError::ZeroBatchSize);
        }
        if self.batch_size > MAX_BATCH_SIZE {
            return Err(BatchConfigError::BatchSizeTooLarge);
        }
        if self.batch_interval_ms == 0 {
            return Err(BatchConfigError::ZeroInterval);
        }
        if self.batch_interval_ms > MAX_BATCH_INTERVAL_MS {
            return Err(BatchConfigError::IntervalTooLong);
        }
        if self.buffer_size == 0 {
            return Err(BatchConfigError::ZeroBufferSize);
        }
        if self.buffer_size > MAX_BUFFER_SIZE {
            return Err(BatchConfigError::BufferSizeTooLarge);
        }
        if self.buffer_size < self.batch_size {
            return Err(BatchConfigError::BufferSmallerThanBatch);
        }
        Ok(())
    }

    /// The configuration used when none is given in synchronous mode:
    /// every record is handed to the sink at once.
    pub fn immediate() -> (r: BatchConfig)
        ensures
            r.batch_size == 1,
            r.batch_interval_ms == 1,
            r.buffer_size == 1024,
            r.valid(),
    {
        BatchConfig { batch_size: 1, batch_interval_ms: 1, buffer_size: 1024 }
    }
}

/// The batch configuration a new sink gets: the one given, else in
/// synchronous mode `immediate()`; asynchronous mode without one is a
/// configuration error (`None`).
pub fn sink_batch_config(given: Option<BatchConfig>, async_mode: bool) -> (r: Option<BatchConfig>)
    ensures
        given is Some ==> r == given,
        given is None && async_mode ==> r is None,
        given is None && !async_mode ==> (r matches Some(c) && c.batch_size == 1 && c.batch_interval_ms
            == 1 && c.buffer_size == 1024),
{
    match given {
        Some(c) => Some(c),
        None => {
            if async_mode {
                None
            } else {
                Some(BatchConfig::immediate())
            }
        },
    }
}

impl Default for BatchConfig {
    fn default() -> (r: BatchConfig)
        ensures
            r.batch_size == 2048,
            r.batch_interval_ms == 25,
            r.buffer_size == 16384,
    {
        BatchConfig { batch_size: 2048, batch_interval_ms: 25, buffer_size: 16384 }
    }
}

/// A command on a worker's channel. Nothing else crosses a sink boundary.
pub enum LogCommand {
    /// One encoded record.
    Write(Vec<u8>),
    /// One encoded record that bypasses batching: pending records go first.
    WriteForce(Vec<u8>),
    /// Close the active file and open the next (file sinks only).
    Rotate,
    /// Schedule a path for offline compression (file sinks only).
    Compress(String),
    /// Drain the pending batch and make output durable.
    Flush,
    /// Drain, flush, clean up and stop; the tag names the sender.
    Shutdown(&'static str),
    /// Readiness probe; the worker answers `true` on the channel.
    HealthCheck(crossbeam_channel::Sender<bool>),
}

/// One thing the sink must do, in the order the worker lists them.
pub enum SinkAction {
    /// Apply these records, in order.
    ProcessBatch(Vec<Vec<u8>>),
    /// Apply this one record synchronously.
    Process(Vec<u8>),
    Flush,
    Rotate,
    Compress(String),
    /// Release the sink's resources; comes once, at shutdown.
    Cleanup,
    /// Answer a readiness probe.
    Reply(crossbeam_channel::Sender<bool>),
}

/// The records a command adds to the sink's stream.
pub open spec fn written(cmd: LogCommand) -> Seq<Seq<u8>> {
    match cmd {
        LogCommand::Write(b) => seq![b@],
        LogCommand::WriteForce(b) => seq![b@],
        _ => Seq::empty(),
    }
}

/// The records one action hands to the sink.
pub open spec fn action_records(a: SinkAction) -> Seq<Seq<u8>> {
    match a {
        SinkAction::ProcessBatch(b) => b@.map_values(|v: Vec<u8>| v@),
        SinkAction::Process(v) => seq![v@],
        _ => Seq::empty(),
    }
}

/// The records a list of actions hands to the sink, in order.
pub open spec fn delivered(acts: Seq<SinkAction>) -> Seq<Seq<u8>>
    decreases acts.len(),
{
    if acts.len() == 0 {
        Seq::empty()
    } else {
        delivered(acts.drop_last()) + action_records(acts.last())
    }
}

/// Kind of a sink action, without its payload.
pub enum ActionKind {
    ProcessBatch,
    Process,
    Flush,
    Rotate,
    Compress,
    Cleanup,
    Reply,
}

pub open spec fn kind_of(a: SinkAction) -> ActionKind {
    match a {
        SinkAction::ProcessBatch(_) => ActionKind::ProcessBatch,
        SinkAction::Process(_) => ActionKind::Process,
        SinkAction::Flush => ActionKind::Flush,
        SinkAction::Rotate => ActionKind::Rotate,
        SinkAction::Compress(_) => ActionKind::Compress,
        SinkAction::Cleanup => ActionKind::Cleanup,
        SinkAction::Reply(_) => ActionKind::Reply,
    }
}

/// The kinds of a list of actions.
pub open spec fn kinds(acts: Seq<SinkAction>) -> Seq<ActionKind> {
    acts.map_values(|a: SinkAction| kind_of(a))
}

/// The state a worker keeps between commands.
pub struct WorkerCore {
    pub config: BatchConfig,
    /// Encoded records accepted but not yet handed to the sink, oldest first.
    pub buffer: Vec<Vec<u8>>,
    /// When the last batch was handed over, in milliseconds of a monotonic clock.
    pub last_flush_ms: u64,
    /// Set by `Shutdown`; a stopped worker ignores every later command.
    pub stopped: bool,
}

/// Whether a plain write, arriving at `now_ms`, hands the batch to the sink.
pub open spec fn write_triggers(w: WorkerCore, now_ms: u64) -> bool {
    w.buffer@.len() + 1 >= w.config.batch_size || (now_ms >= w.last_flush_ms && now_ms
        - w.last_flush_ms >= w.config.batch_interval_ms)
}

/// The drain that precedes every control command: the pending batch, if any.
pub open spec fn drain_kinds(w: WorkerCore) -> Seq<ActionKind> {
    if w.buffer@.len() > 0 {
        seq![ActionKind::ProcessBatch]
    } else {
        Seq::empty()
    }
}

/// What `step` does, stated over the states before and after and the actions.
pub open spec fn step_spec(
    w: WorkerCore,
    cmd: LogCommand,
    now_ms: u64,
    acts: Seq<SinkAction>,
    w2: WorkerCore,
) -> bool {
    &&& w2.config == w.config
    &&& if w.stopped {
        acts.len() == 0 && w2.buffer@ == w.buffer@ && w2.stopped
    } else {
        // records leave in exactly the order they came
        &&& w.pending() + written(cmd) == delivered(acts) + w2.pending()
        &&& match cmd {
            LogCommand::Write(_) => {
                &&& !w2.stopped
                &&& if write_triggers(w, now_ms) {
                    kinds(acts) == seq![ActionKind::ProcessBatch] && w2.buffer@.len() == 0
                        && w2.last_flush_ms == now_ms
                } else {
                    acts.len() == 0 && w2.buffer@.len() == w.buffer@.len() + 1
                        && w2.last_flush_ms == w.last_flush_ms
                }
            },
            LogCommand::WriteForce(_) => {
                &&& kinds(acts) == drain_kinds(w) + seq![ActionKind::Process, ActionKind::Flush]
                &&& w2.buffer@.len() == 0 && !w2.stopped && w2.last_flush_ms == now_ms
            },
            LogCommand::Flush => {
                &&& kinds(acts) == drain_kinds(w) + seq![ActionKind::Flush]
                &&& w2.buffer@.len() == 0 && !w2.stopped && w2.last_flush_ms == now_ms
            },
            LogCommand::Rotate => {
                &&& kinds(acts) == drain_kinds(w) + seq![ActionKind::Rotate]
                &&& w2.buffer@.len() == 0 && !w2.stopped
            },
            LogCommand::Compress(p) => {
                &&& kinds(acts) == drain_kinds(w) + seq![ActionKind::Compress]
                &&& acts.last() == SinkAction::Compress(p)
                &&& w2.buffer@.len() == 0 && !w2.stopped
            },
            LogCommand::Shutdown(_) => {
                &&& kinds(acts) == drain_kinds(w) + seq![ActionKind::Flush, ActionKind::Cleanup]
                &&& w2.buffer@.len() == 0 && w2.stopped
            },
            LogCommand::HealthCheck(s) => {
                &&& acts == seq![SinkAction::Reply(s)]
                &&& w2.buffer@ == w.buffer@ && !w2.stopped && w2.last_flush_ms == w.last_flush_ms
            },
        }
    }
}

impl WorkerCore {
    /// The pending records, oldest first.
    pub open spec fn pending(&self) -> Seq<Seq<u8>> {
        self.buffer@.map_values(|v: Vec<u8>| v@)
    }

    /// A fresh worker, with nothing pending, whose interval starts at `now_ms`.
    pub fn new(config: BatchConfig, now_ms: u64) -> (r: WorkerCore)
        requires
            config.valid(),
        ensures
            r.config == config,
            r.buffer@.len() == 0,
            r.last_flush_ms == now_ms,
            !r.stopped,
    {
        WorkerCore { config, buffer: Vec::new(), last_flush_ms: now_ms, stopped: false }
    }

    pub fn is_stopped(&self) -> (r: bool)
        ensures
            r == self.stopped,
    {
        self.stopped
    }

    /// Moves the pending records into a `ProcessBatch` action, if there are any.
    fn drain(&mut self, acts: &mut Vec<SinkAction>)
        ensures
            final(self).config == old(self).config,
            final(self).stopped == old(self).stopped,
            final(self).last_flush_ms == old(self).last_flush_ms,
            final(self).buffer@.len() == 0,
            old(self).buffer@.len() > 0 ==> final(acts)@ == old(acts)@.push(
                SinkAction::ProcessBatch(old(self).buffer),
            ),
            old(self).buffer@.len() == 0 ==> final(acts)@ == old(acts)@,
    {
        if self.buffer.len() > 0 {
            let mut batch: Vec<Vec<u8>> = Vec::new();
            std::mem::swap(&mut batch, &mut self.buffer);
            acts.push(SinkAction::ProcessBatch(batch));
        }
    }

    /// Applies one command; returns what the sink must do, in order.
    pub fn step(&mut self, cmd: LogCommand, now_ms: u64) -> (acts: Vec<SinkAction>)
        ensures
            step_spec(*old(self), cmd, now_ms, acts@, *final(self)),
    {
        let ghost w = *self;
        let ghost c = cmd;
        let mut acts: Vec<SinkAction> = Vec::new();
        if self.stopped {
            return acts;
        }
        match cmd {
            LogCommand::Write(data) => {
                self.buffer.push(data);
                let elapsed = now_ms.saturating_sub(self.last_flush_ms);
                if self.buffer.len() >= self.config.batch_size || (now_ms >= self.last_flush_ms
                    && elapsed >= self.config.batch_interval_ms) {
                    self.drain(&mut acts);
                    self.last_flush_ms = now_ms;
                    assert(kinds(acts@) =~= seq![ActionKind::ProcessBatch]);
                }
            },
            LogCommand::WriteForce(data) => {
                self.drain(&mut acts);
                acts.push(SinkAction::Process(data));
                acts.push(SinkAction::Flush);
                self.last_flush_ms = now_ms;
                assert(kinds(acts@) =~= drain_kinds(w) + seq![ActionKind::Process, ActionKind::Flush]);
            },
            LogCommand::Flush => {
                self.drain(&mut acts);
                acts.push(SinkAction::Flush);
                self.last_flush_ms = now_ms;
                assert(kinds(acts@) =~= drain_kinds(w) + seq![ActionKind::Flush]);
            },
            LogCommand::Rotate => {
                if self.buffer.len() > 0 {
                    self.drain(&mut acts);
                    self.last_flush_ms = now_ms;
                }
                acts.push(SinkAction::Rotate);
                assert(kinds(acts@) =~= drain_kinds(w) + seq![ActionKind::Rotate]);
            },
            LogCommand::Compress(path) => {
                if self.buffer.len() > 0 {
                    self.drain(&mut acts);
                    self.last_flush_ms = now_ms;
                }
                acts.push(SinkAction::Compress(path));
                assert(kinds(acts@) =~= drain_kinds(w) + seq![ActionKind::Compress]);
            },
            LogCommand::Shutdown(_) => {
                self.drain(&mut acts);
                acts.push(SinkAction::Flush);
                acts.push(SinkAction::Cleanup);
                self.stopped = true;
                assert(kinds(acts@) =~= drain_kinds(w) + seq![ActionKind::Flush, ActionKind::Cleanup]);
            },
            LogCommand::HealthCheck(reply) => {
                acts.push(SinkAction::Reply(reply));
            },
        }
        proof {
            lemma_delivered_small(acts@);
            assert(w.pending() + written(c) =~= delivered(acts@) + self.pending());
        }
        acts
    }
}

/// `delivered` on lists of up to three actions.
proof fn lemma_delivered_small(acts: Seq<SinkAction>)
    ensures
        acts.len() == 1 ==> delivered(acts) =~= action_records(acts[0]),
        acts.len() == 2 ==> delivered(acts) =~= action_records(acts[0]) + action_records(acts[1]),
        acts.len() == 3 ==> delivered(acts) =~= action_records(acts[0]) + action_records(acts[1])
            + action_records(acts[2]),
{
    if acts.len() >= 1 {
        reveal_with_fuel(delivered, 4);
        assert(acts.drop_last().len() + 1 == acts.len());
        if acts.len() >= 2 {
            assert(acts.drop_last().drop_last().len() + 2 == acts.len());
        }
        if acts.len() == 3 {
            assert(acts.drop_last().drop_last().drop_last().len() == 0);
        }
    }
}

/// All the records of a list of record lists, in order.
pub open spec fn concat_all(xs: Seq<Seq<Seq<u8>>>) -> Seq<Seq<u8>>
    decreases xs.len(),
{
    if xs.len() == 0 {
        Seq::empty()
    } else {
        concat_all(xs.drop_last()) + xs.last()
    }
}

/// A run of a worker: `states[i]` steps to `states[i + 1]` on `cmds[i]` at
/// `nows[i]`, producing `acts[i]`.
pub open spec fn is_run(
    states: Seq<WorkerCore>,
    cmds: Seq<LogCommand>,
    nows: Seq<u64>,
    acts: Seq<Seq<SinkAction>>,
) -> bool {
    &&& states.len() == cmds.len() + 1
    &&& nows.len() == cmds.len()
    &&& acts.len() == cmds.len()
    &&& forall|i: int|
        0 <= i < cmds.len() ==> #[trigger] step_spec(
            states[i],
            cmds[i],
            nows[i],
            acts[i],
            states[i + 1],
        )
}

/// Intra-sink FIFO: over any run of a live worker, the records handed to the
/// sink, followed by those still pending, are the records that were pending at
/// the start followed by every written record, in arrival order.
pub proof fn lemma_fifo_run(
    states: Seq<WorkerCore>,
    cmds: Seq<LogCommand>,
    nows: Seq<u64>,
    acts: Seq<Seq<SinkAction>>,
)
    requires
        is_run(states, cmds, nows, acts),
        !states.last().stopped,
    ensures
        states[0].pending() + concat_all(cmds.map_values(|c: LogCommand| written(c)))
            == concat_all(acts.map_values(|a: Seq<SinkAction>| delivered(a)))
            + states.last().pending(),
    decreases cmds.len(),
{
    let ws = cmds.map_values(|c: LogCommand| written(c));
    let ds = acts.map_values(|a: Seq<SinkAction>| delivered(a));
    if cmds.len() == 0 {
        assert(states[0].pending() + concat_all(ws) =~= concat_all(ds) + states.last().pending());
    } else {
        let n = cmds.len() - 1;
        let states0 = states.drop_last();
        let cmds0 = cmds.drop_last();
        let nows0 = nows.drop_last();
        let acts0 = acts.drop_last();
        assert(step_spec(states[n], cmds[n], nows[n], acts[n], states[n + 1]));
        // a stopped worker stays stopped, so the worker was live before the last step
        assert(!states0.last().stopped);
        assert forall|i: int| 0 <= i < cmds0.len() implies #[trigger] step_spec(
            states0[i],
            cmds0[i],
            nows0[i],
            acts0[i],
            states0[i + 1],
        ) by {
            assert(step_spec(states[i], cmds[i], nows[i], acts[i], states[i + 1]));
        }
        lemma_fifo_run(states0, cmds0, nows0, acts0);
        assert(ws.drop_last() =~= cmds0.map_values(|c: LogCommand| written(c)));
        assert(ds.drop_last() =~= acts0.map_values(|a: Seq<SinkAction>| delivered(a)));
        let pend0 = states[0].pending();
        let pn = states[n].pending();
        let pl = states.last().pending();
        let wn = written(cmds[n]);
        let dn = delivered(acts[n]);
        assert(concat_all(ws) == concat_all(ws.drop_last()) + wn);
        assert(concat_all(ds) == concat_all(ds.drop_last()) + dn);
        assert(pend0 + concat_all(ws.drop_last()) == concat_all(ds.drop_last()) + pn);
        assert(pn + wn == dn + pl);
        assert(pend0 + concat_all(ws) =~= (pend0 + concat_all(ws.drop_last())) + wn);
        assert((concat_all(ds.drop_last()) + pn) + wn =~= concat_all(ds.drop_last()) + (pn + wn));
        assert(concat_all(ds.drop_last()) + (dn + pl) =~= concat_all(ds) + pl);
    }
}

/// Shutdown leaves nothing pending: everything pending is handed to the sink
/// before the flush and the cleanup, and a second shutdown does nothing at all.
pub proof fn lemma_shutdown_drains_and_is_idempotent(
    w: WorkerCore,
    tag1: &'static str,
    tag2: &'static str,
    now1: u64,
    now2: u64,
    acts1: Seq<SinkAction>,
    w2: WorkerCore,
    acts2: Seq<SinkAction>,
    w3: WorkerCore,
)
    requires
        !w.stopped,
        step_spec(w, LogCommand::Shutdown(tag1), now1, acts1, w2),
        step_spec(w2, LogCommand::Shutdown(tag2), now2, acts2, w3),
    ensures
        delivered(acts1) == w.pending(),
        w2.pending().len() == 0,
        w2.stopped,
        acts2.len() == 0,
        w3.pending() == w2.pending(),
        w3.stopped,
{
    assert(written(LogCommand::Shutdown(tag1)) =~= Seq::<Seq<u8>>::empty());
    assert(w.pending() + Seq::<Seq<u8>>::empty() =~= w.pending());
    assert(delivered(acts1) + w2.pending() =~= delivered(acts1));
    assert(w3.pending() =~= w2.pending());
}

/// A flush hands every pending record to the sink, in order, and leaves none.
pub proof fn lemma_flush_drains(w: WorkerCore, now: u64, acts: Seq<SinkAction>, w2: WorkerCore)
    requires
        !w.stopped,
        step_spec(w, LogCommand::Flush, now, acts, w2),
    ensures
        delivered(acts) == w.pending(),
        w2.pending().len() == 0,
{
    assert(written(LogCommand::Flush) =~= Seq::<Seq<u8>>::empty());
    assert(w.pending() + Seq::<Seq<u8>>::empty() =~= w.pending());
    assert(delivered(acts) + w2.pending() =~= delivered(acts));
}

/// With `batch_size == 1` every write is handed to the sink at once: nothing
/// stays pending and the sink receives the earlier pending records and then this one.
pub proof fn lemma_batch_size_one(
    w: WorkerCore,
    data: Vec<u8>,
    now: u64,
    acts: Seq<SinkAction>,
    w2: WorkerCore,
)
    requires
        !w.stopped,
        w.config.batch_size == 1,
        step_spec(w, LogCommand::Write(data), now, acts, w2),
    ensures
        w2.pending().len() == 0,
        delivered(acts) == w.pending().push(data@),
        kinds(acts) == seq![ActionKind::ProcessBatch],
{
    assert(write_triggers(w, now));
    assert(delivered(acts) + w2.pending() =~= delivered(acts));
    assert(w.pending() + seq![data@] =~= w.pending().push(data@));
}

} // verus!
