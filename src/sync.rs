//! The state-diff sync loop as a state machine: it decides, from what the
//! driver reports, what the driver does next (read markers, sleep, fetch a
//! range, pull the next item, stop).

use crate::diff::{normalize, normalized_from, StateDiff};
use crate::store::{BlockHash, BlockNumber, ClassDefinitions, Verdict};
use vstd::prelude::*;

verus! {

/// The two pauses of the loop, in milliseconds; both positive.
#[derive(Clone, Copy, Debug, PartialEq, Eq)]
pub struct SyncConfig {
    /// Pause while the state diffs have caught up with the headers.
    pub block_propagation_sleep_ms: u64,
    /// Pause after a recoverable error or a detected reorg.
    pub recoverable_error_sleep_ms: u64,
}

/// Where the loop stands.
#[derive(Clone, Copy, Debug, PartialEq, Eq)]
pub enum Phase {
    /// A pass starts: the markers are to be read.
    ReadingMarkers,
    /// Sleeping before the next pass.
    Waiting,
    /// Consuming a stream of `[next, end)`; `next` is the block expected next.
    Streaming { next: BlockNumber, end: BlockNumber },
    /// The commit side has shut down.
    Stopped,
}

/// What the driver reports to the loop.
#[derive(Clone, Copy, Debug, PartialEq, Eq)]
pub enum Input {
    /// A sleep is over.
    Woke,
    /// The markers, read in one short read-only transaction.
    Markers { state_marker: BlockNumber, header_marker: BlockNumber },
    /// An item was forwarded downstream; `verdict` classifies it afterwards.
    Forwarded { block_number: BlockNumber, verdict: Verdict },
    /// The stream yielded all it had.
    StreamEnded,
    /// The source, a storage read or a send failed recoverably.
    Failed,
    /// The channel to the commit side is closed for good.
    ChannelClosed,
}

/// What the driver does next.
#[derive(Clone, Copy, Debug, PartialEq, Eq)]
pub enum Action {
    ReadMarkers,
    Sleep { millis: u64 },
    /// Request a stream of the blocks `[from, to)`.
    Fetch { from: BlockNumber, to: BlockNumber },
    /// Take the next item of the open stream.
    PullNext,
    Stop,
}

/// Why an incoming item was not accepted.
#[derive(Clone, Copy, Debug, PartialEq, Eq)]
pub enum SyncError {
    /// No stream is open.
    NoOpenStream { found: BlockNumber },
    /// The item is not the block the stream owes next.
    OutOfOrder { expected: BlockNumber, found: BlockNumber },
    /// The stream yields past the end of its range.
    BeyondRange { end: BlockNumber, found: BlockNumber },
    /// A mapping of the item's diff repeats a key.
    DuplicateKeys { found: BlockNumber },
}

/// An accepted item on its way to the commit router.
#[derive(Debug, PartialEq, Eq)]
pub struct SyncEvent {
    pub block_number: BlockNumber,
    pub block_hash: BlockHash,
    pub state_diff: StateDiff,
    pub deployed_contract_class_definitions: ClassDefinitions,
}

/// The recoverable-error backoff: sleep, then start a new pass.
pub open spec fn backoff(config: SyncConfig) -> (Phase, Action) {
    (Phase::Waiting, Action::Sleep { millis: config.recoverable_error_sleep_ms })
}

/// The loop's transition: the next phase and the action for the driver.
/// An input that the phase does not expect is handled like a failure.
pub open spec fn next_step(config: SyncConfig, phase: Phase, input: Input) -> (Phase, Action) {
    if phase == Phase::Stopped {
        (Phase::Stopped, Action::Stop)
    } else {
        match input {
            Input::ChannelClosed => (Phase::Stopped, Action::Stop),
            Input::Failed => backoff(config),
            Input::Woke => if phase == Phase::Waiting {
                (Phase::ReadingMarkers, Action::ReadMarkers)
            } else {
                backoff(config)
            },
            Input::Markers { state_marker, header_marker } => if phase == Phase::ReadingMarkers {
                if state_marker < header_marker {
                    (
                        Phase::Streaming { next: state_marker, end: header_marker },
                        Action::Fetch { from: state_marker, to: header_marker },
                    )
                } else {
                    (Phase::Waiting, Action::Sleep { millis: config.block_propagation_sleep_ms })
                }
            } else {
                backoff(config)
            },
            Input::Forwarded { block_number, verdict } => match phase {
                Phase::Streaming { next, end } => if block_number == next && next < end
                    && verdict != Verdict::Diverged {
                    (Phase::Streaming { next: (next + 1) as u64, end }, Action::PullNext)
                } else {
                    backoff(config)
                },
                _ => backoff(config),
            },
            Input::StreamEnded => match phase {
                Phase::Streaming { .. } => (Phase::ReadingMarkers, Action::ReadMarkers),
                _ => backoff(config),
            },
        }
    }
}

/// The sync loop's bookkeeping. It never advances the durable markers: only
/// the commit router does.
#[derive(Clone, Copy, Debug, PartialEq, Eq)]
pub struct StateDiffSync {
    pub config: SyncConfig,
    pub phase: Phase,
}

impl StateDiffSync {
    /// A loop about to start its first pass (its first action reads the markers).
    pub fn new(config: SyncConfig) -> (r: StateDiffSync)
        ensures
            r.config == config,
            r.phase == Phase::ReadingMarkers,
    {
        StateDiffSync { config, phase: Phase::ReadingMarkers }
    }

    /// Takes one input and returns what to do next.
    pub fn step(&mut self, input: Input) -> (a: Action)
        ensures
            final(self).config == old(self).config,
            (final(self).phase, a) == next_step(old(self).config, old(self).phase, input),
    {
        let config = self.config;
        let backoff_sleep = Action::Sleep { millis: config.recoverable_error_sleep_ms };
        if let Phase::Stopped = self.phase {
            return Action::Stop;
        }
        let (phase, action) = match input {
            Input::ChannelClosed => (Phase::Stopped, Action::Stop),
            Input::Failed => (Phase::Waiting, backoff_sleep),
            Input::Woke => match self.phase {
                Phase::Waiting => (Phase::ReadingMarkers, Action::ReadMarkers),
                _ => (Phase::Waiting, backoff_sleep),
            },
            Input::Markers { state_marker, header_marker } => match self.phase {
                Phase::ReadingMarkers => {
                    if state_marker < header_marker {
                        (
                            Phase::Streaming { next: state_marker, end: header_marker },
                            Action::Fetch { from: state_marker, to: header_marker },
                        )
                    } else {
                        (Phase::Waiting, Action::Sleep { millis: config.block_propagation_sleep_ms })
                    }
                },
                _ => (Phase::Waiting, backoff_sleep),
            },
            Input::Forwarded { block_number, verdict } => match self.phase {
                Phase::Streaming { next, end } => {
                    let diverged = match verdict {
                        Verdict::Diverged => true,
                        _ => false,
                    };
                    if block_number == next && next < end && !diverged {
                        (Phase::Streaming { next: next + 1, end }, Action::PullNext)
                    } else {
                        (Phase::Waiting, backoff_sleep)
                    }
                },
                _ => (Phase::Waiting, backoff_sleep),
            },
            Input::StreamEnded => match self.phase {
                Phase::Streaming { .. } => (Phase::ReadingMarkers, Action::ReadMarkers),
                _ => (Phase::Waiting, backoff_sleep),
            },
        };
        self.phase = phase;
        action
    }

    /// Takes an item the open stream yielded: it must be the block the stream
    /// owes next, and its diff must have unique keys in each mapping. The
    /// accepted item carries its diff normalized.
    pub fn accept_item(
        &self,
        block_number: BlockNumber,
        block_hash: BlockHash,
        state_diff: StateDiff,
        class_definitions: ClassDefinitions,
    ) -> (r: Result<SyncEvent, SyncError>)
        ensures
            match self.phase {
                Phase::Streaming { next, end } => if block_number != next {
                    r == Err::<SyncEvent, SyncError>(
                        SyncError::OutOfOrder { expected: next, found: block_number },
                    )
                } else if next >= end {
                    r == Err::<SyncEvent, SyncError>(
                        SyncError::BeyondRange { end, found: block_number },
                    )
                } else if !state_diff.wf() {
                    r == Err::<SyncEvent, SyncError>(SyncError::DuplicateKeys { found: block_number })
                } else {
                    &&& r is Ok
                    &&& r.unwrap().block_number == block_number
                    &&& r.unwrap().block_hash == block_hash
                    &&& normalized_from(state_diff, r.unwrap().state_diff)
                    &&& r.unwrap().state_diff.wf()
                    &&& r.unwrap().deployed_contract_class_definitions == class_definitions
                },
                _ => r == Err::<SyncEvent, SyncError>(SyncError::NoOpenStream { found: block_number }),
            },
    {
        match self.phase {
            Phase::Streaming { next, end } => {
                if block_number != next {
                    Err(SyncError::OutOfOrder { expected: next, found: block_number })
                } else if next >= end {
                    Err(SyncError::BeyondRange { end, found: block_number })
                } else if !state_diff.is_well_formed() {
                    Err(SyncError::DuplicateKeys { found: block_number })
                } else {
                    Ok(SyncEvent {
                        block_number,
                        block_hash,
                        state_diff: normalize(state_diff),
                        deployed_contract_class_definitions: class_definitions,
                    })
                }
            },
            _ => Err(SyncError::NoOpenStream { found: block_number }),
        }
    }
}

/// The actions the loop hands out for a sequence of inputs, from `phase` on.
pub open spec fn run(config: SyncConfig, phase: Phase, inputs: Seq<Input>) -> Seq<Action>
    decreases inputs.len(),
{
    if inputs.len() == 0 {
        Seq::empty()
    } else {
        let (p, a) = next_step(config, phase, inputs[0]);
        seq![a] + run(config, p, inputs.drop_first())
    }
}

/// The number of failures reported in `inputs`.
pub open spec fn count_failures(inputs: Seq<Input>) -> nat
    decreases inputs.len(),
{
    if inputs.len() == 0 {
        0
    } else {
        (if inputs[0] == Input::Failed {
            1nat
        } else {
            0nat
        }) + count_failures(inputs.drop_first())
    }
}

/// The number of sleeps of `millis` among `actions`.
pub open spec fn count_sleeps(actions: Seq<Action>, millis: u64) -> nat
    decreases actions.len(),
{
    if actions.len() == 0 {
        0
    } else {
        (if actions[0] == (Action::Sleep { millis }) {
            1nat
        } else {
            0nat
        }) + count_sleeps(actions.drop_first(), millis)
    }
}

/// Until the commit side shuts down the loop never stops, and every failure
/// is answered by a sleep of the recoverable-error pause: a source that fails
/// `k` times costs at least `k` such sleeps.
pub proof fn lemma_backoff_per_failure(config: SyncConfig, phase: Phase, inputs: Seq<Input>)
    requires
        phase != Phase::Stopped,
        forall|i: int| 0 <= i < inputs.len() ==> inputs[i] != Input::ChannelClosed,
    ensures
        count_sleeps(run(config, phase, inputs), config.recoverable_error_sleep_ms)
            >= count_failures(inputs),
        !run(config, phase, inputs).contains(Action::Stop),
    decreases inputs.len(),
{
    if inputs.len() > 0 {
        let (p, a) = next_step(config, phase, inputs[0]);
        let rest = inputs.drop_first();
        assert forall|i: int| 0 <= i < rest.len() implies rest[i] != Input::ChannelClosed by {
            assert(rest[i] == inputs[i + 1]);
        }
        lemma_backoff_per_failure(config, p, rest);
        let actions = run(config, phase, inputs);
        assert(actions[0] == a);
        assert(actions.drop_first() =~= run(config, p, rest));
        if actions.contains(Action::Stop) {
            let k = choose|k: int| 0 <= k < actions.len() && actions[k] == Action::Stop;
            if k > 0 {
                assert(run(config, p, rest)[k - 1] == Action::Stop);
            }
        }
    }
}

/// After a failure the loop sleeps, reads the markers again, and requests the
/// range from the state marker on: nothing not yet committed is skipped.
pub proof fn lemma_retry_resumes_from_marker(
    config: SyncConfig,
    phase: Phase,
    state_marker: BlockNumber,
    header_marker: BlockNumber,
)
    requires
        phase != Phase::Stopped,
        state_marker < header_marker,
    ensures
        run(config, phase, seq![Input::Failed, Input::Woke, Input::Markers { state_marker, header_marker }])
            == seq![
            Action::Sleep { millis: config.recoverable_error_sleep_ms },
            Action::ReadMarkers,
            Action::Fetch { from: state_marker, to: header_marker },
        ],
{
    let inputs = seq![Input::Failed, Input::Woke, Input::Markers { state_marker, header_marker }];
    assert(inputs.drop_first() =~= seq![Input::Woke, Input::Markers { state_marker, header_marker }]);
    assert(inputs.drop_first().drop_first() =~= seq![Input::Markers { state_marker, header_marker }]);
    assert(inputs.drop_first().drop_first().drop_first() =~= Seq::<Input>::empty());
    let streaming = Phase::Streaming { next: state_marker, end: header_marker };
    assert(run(config, streaming, Seq::<Input>::empty()) == Seq::<Action>::empty());
    let r1 = run(config, Phase::ReadingMarkers, inputs.drop_first().drop_first());
    assert(r1 =~= seq![Action::Fetch { from: state_marker, to: header_marker }]);
    let r2 = run(config, Phase::Waiting, inputs.drop_first());
    assert(r2 =~= seq![Action::ReadMarkers] + r1);
    assert(run(config, phase, inputs) =~= seq![
        Action::Sleep { millis: config.recoverable_error_sleep_ms },
        Action::ReadMarkers,
        Action::Fetch { from: state_marker, to: header_marker },
    ]);
}

/// When the markers are equal no fetch is requested: the loop sleeps the
/// block-propagation pause, then reads the markers again.
pub proof fn lemma_idle_wait(config: SyncConfig, marker: BlockNumber)
    ensures
        run(
            config,
            Phase::ReadingMarkers,
            seq![Input::Markers { state_marker: marker, header_marker: marker }, Input::Woke],
        ) == seq![Action::Sleep { millis: config.block_propagation_sleep_ms }, Action::ReadMarkers],
{
    let inputs = seq![Input::Markers { state_marker: marker, header_marker: marker }, Input::Woke];
    assert(inputs.drop_first() =~= seq![Input::Woke]);
    assert(inputs.drop_first().drop_first() =~= Seq::<Input>::empty());
    assert(run(config, Phase::ReadingMarkers, Seq::<Input>::empty()) == Seq::<Action>::empty());
    let r1 = run(config, Phase::Waiting, inputs.drop_first());
    assert(r1 =~= seq![Action::ReadMarkers]);
    assert(run(config, Phase::ReadingMarkers, inputs) =~= seq![
        Action::Sleep { millis: config.block_propagation_sleep_ms },
        Action::ReadMarkers,
    ]);
}

} // verus!
