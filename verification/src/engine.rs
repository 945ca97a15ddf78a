use vstd::prelude::*;
use crate::errors::TrialError;
use crate::passage::Passage;

verus! {

/// A discrete key-press event delivered to the engine: a printable character,
/// or any other key, which the engine never reacts to.
#[derive(Clone, Copy, Debug, PartialEq, Eq)]
pub enum KeyEvent {
    Char(char),
    Other,
}

/// The semantic signal an `advance` call emits for the caller's renderer.
#[derive(Clone, Copy, Debug, PartialEq, Eq)]
pub enum Signal {
    /// The keystroke changed nothing.
    Ignored,
    /// The start key was pressed: the trial is ready for the first character.
    Ready,
    /// The character at position `pos` of the passage was typed correctly.
    Accepted { pos: usize },
}

/// The trial's finite state machine, threaded by the caller through
/// successive `advance` calls, one per observed key press.
#[derive(Clone, Copy, Debug, PartialEq, Eq)]
pub enum TrialState {
    /// Initial; no timing has begun.
    AwaitingStart,
    /// The passage is displayed; waiting for its first character.
    AwaitingFirstKey,
    /// `start_time` is the millisecond timestamp of the first accepted
    /// keystroke; `cursor` is the index of the next expected character.
    InProgress { start_time: u128, cursor: usize },
    /// Terminal; a new trial requires a new state value.
    Completed { start_time: u128, end_time: u128 },
}

impl TrialState {
    /// The cursor of a running trial stays strictly inside the passage:
    /// the next expected character always exists.
    pub open spec fn cursor_wf(self, passage: Seq<char>) -> bool {
        self matches TrialState::InProgress { cursor, .. } ==> 1 <= cursor < passage.len()
    }

    /// Well-formed with respect to the passage being typed: the cursor is in
    /// range and a completed trial never ends before it started.
    pub open spec fn wf(self, passage: Seq<char>) -> bool {
        &&& self.cursor_wf(passage)
        &&& (self matches TrialState::Completed { start_time, end_time } ==> start_time
            <= end_time)
    }
}

/// How far through the passage the trial has come: the number of characters
/// typed correctly so far, with a completed trial at the full length.
pub open spec fn progress(state: TrialState, passage: Seq<char>) -> int {
    match state {
        TrialState::AwaitingStart => 0,
        TrialState::AwaitingFirstKey => 0,
        TrialState::InProgress { cursor, .. } => cursor as int,
        TrialState::Completed { .. } => passage.len() as int,
    }
}

/// Whether this keystroke is the character the trial is waiting for. Only a
/// trial waiting for a character accepts anything; the start key is a
/// separate transition, not an accepted character.
pub open spec fn accepts(state: TrialState, passage: Seq<char>, key: KeyEvent) -> bool {
    match state {
        TrialState::AwaitingStart => false,
        TrialState::AwaitingFirstKey => key == KeyEvent::Char(passage[0]),
        TrialState::InProgress { cursor, .. } => key == KeyEvent::Char(passage[cursor as int]),
        TrialState::Completed { .. } => false,
    }
}

/// The transition table: the state after one keystroke observed at `now`.
pub open spec fn spec_advance(
    state: TrialState,
    passage: Seq<char>,
    key: KeyEvent,
    now: u128,
) -> TrialState {
    match state {
        TrialState::AwaitingStart => if key == KeyEvent::Char(' ') {
            TrialState::AwaitingFirstKey
        } else {
            state
        },
        TrialState::AwaitingFirstKey => if accepts(state, passage, key) {
            if passage.len() == 1 {
                TrialState::Completed { start_time: now, end_time: now }
            } else {
                TrialState::InProgress { start_time: now, cursor: 1 }
            }
        } else {
            state
        },
        TrialState::InProgress { start_time, cursor } => if accepts(state, passage, key) {
            if cursor + 1 == passage.len() {
                TrialState::Completed { start_time, end_time: now }
            } else {
                TrialState::InProgress { start_time, cursor: (cursor + 1) as usize }
            }
        } else {
            state
        },
        TrialState::Completed { .. } => state,
    }
}

/// The signal emitted for one keystroke, matching `spec_advance` case by case.
pub open spec fn spec_signal(state: TrialState, passage: Seq<char>, key: KeyEvent) -> Signal {
    match state {
        TrialState::AwaitingStart => if key == KeyEvent::Char(' ') {
            Signal::Ready
        } else {
            Signal::Ignored
        },
        TrialState::AwaitingFirstKey => if accepts(state, passage, key) {
            Signal::Accepted { pos: 0 }
        } else {
            Signal::Ignored
        },
        TrialState::InProgress { cursor, .. } => if accepts(state, passage, key) {
            Signal::Accepted { pos: cursor }
        } else {
            Signal::Ignored
        },
        TrialState::Completed { .. } => Signal::Ignored,
    }
}

impl TrialState {
    /// Advances the trial by one observed key press at millisecond timestamp
    /// `now`, returning the next state and the signal for the renderer.
    ///
    /// Unmatched keys are inert no-ops by design; the only transitions are
    /// the ones of the transition table, and the returned state is again
    /// well-formed. Timestamps must be monotonic, which is the caller's
    /// charge: a running trial is never advanced with a timestamp before its
    /// start.
    pub fn advance(self, passage: &Passage, key: KeyEvent, now: u128) -> (r: (TrialState, Signal))
        requires
            passage@.len() > 0,
            self.wf(passage@),
            self matches TrialState::InProgress { start_time, .. } ==> start_time <= now,
        ensures
            r.0 == spec_advance(self, passage@, key, now),
            r.1 == spec_signal(self, passage@, key),
            r.0.wf(passage@),
    {
        match self {
            TrialState::AwaitingStart => {
                match key {
                    KeyEvent::Char(c) => if c == ' ' {
                        (TrialState::AwaitingFirstKey, Signal::Ready)
                    } else {
                        (self, Signal::Ignored)
                    },
                    KeyEvent::Other => (self, Signal::Ignored),
                }
            },
            TrialState::AwaitingFirstKey => {
                let expected = passage.char_at(0);
                match key {
                    KeyEvent::Char(c) => if c == expected {
                        if passage.len() == 1 {
                            (
                                TrialState::Completed { start_time: now, end_time: now },
                                Signal::Accepted { pos: 0 },
                            )
                        } else {
                            (
                                TrialState::InProgress { start_time: now, cursor: 1 },
                                Signal::Accepted { pos: 0 },
                            )
                        }
                    } else {
                        (self, Signal::Ignored)
                    },
                    KeyEvent::Other => (self, Signal::Ignored),
                }
            },
            TrialState::InProgress { start_time, cursor } => {
                let plen = passage.len();
                let expected = passage.char_at(cursor);
                match key {
                    KeyEvent::Char(c) => if c == expected {
                        if cursor + 1 == plen {
                            (
                                TrialState::Completed { start_time, end_time: now },
                                Signal::Accepted { pos: cursor },
                            )
                        } else {
                            (
                                TrialState::InProgress { start_time, cursor: cursor + 1 },
                                Signal::Accepted { pos: cursor },
                            )
                        }
                    } else {
                        (self, Signal::Ignored)
                    },
                    KeyEvent::Other => (self, Signal::Ignored),
                }
            },
            TrialState::Completed { .. } => (self, Signal::Ignored),
        }
    }
}

/// The state after a whole sequence of key-press events, each paired with
/// its millisecond timestamp, has been fed to the transition table in order.
pub open spec fn advance_all(
    state: TrialState,
    passage: Seq<char>,
    events: Seq<(KeyEvent, u128)>,
) -> TrialState
    decreases events.len(),
{
    if events.len() == 0 {
        state
    } else {
        advance_all(
            spec_advance(state, passage, events[0].0, events[0].1),
            passage,
            events.skip(1),
        )
    }
}

/// The character a key event carries, for events known to carry one.
pub open spec fn key_char(key: KeyEvent) -> char {
    match key {
        KeyEvent::Char(c) => c,
        KeyEvent::Other => ' ',
    }
}

/// The characters of the events a run accepts, in order.
pub open spec fn accepted_chars(
    state: TrialState,
    passage: Seq<char>,
    events: Seq<(KeyEvent, u128)>,
) -> Seq<char>
    decreases events.len(),
{
    if events.len() == 0 {
        Seq::empty()
    } else {
        let next = spec_advance(state, passage, events[0].0, events[0].1);
        let rest = accepted_chars(next, passage, events.skip(1));
        if accepts(state, passage, events[0].0) {
            seq![key_char(events[0].0)] + rest
        } else {
            rest
        }
    }
}

/// One keystroke never moves the trial backwards: progress grows by exactly
/// one when and only when the key is the expected character of the passage,
/// and any other key leaves a started state exactly as it was.
pub proof fn lemma_advance_step(state: TrialState, passage: Seq<char>, key: KeyEvent, now: u128)
    requires
        passage.len() > 0,
        passage.len() <= usize::MAX,
        state.cursor_wf(passage),
    ensures
        spec_advance(state, passage, key, now).cursor_wf(passage),
        progress(spec_advance(state, passage, key, now), passage) >= progress(state, passage),
        accepts(state, passage, key) ==> progress(spec_advance(state, passage, key, now), passage)
            == progress(state, passage) + 1 && key == KeyEvent::Char(
            passage[progress(state, passage)],
        ),
        !accepts(state, passage, key) ==> progress(spec_advance(state, passage, key, now), passage)
            == progress(state, passage),
        !accepts(state, passage, key) && !(state is AwaitingStart) ==> spec_advance(
            state,
            passage,
            key,
            now,
        ) == state,
{
}

/// Progress is non-decreasing across any sequence of `advance` calls, and a
/// running trial stays well-formed throughout.
pub proof fn lemma_progress_monotonic(
    state: TrialState,
    passage: Seq<char>,
    events: Seq<(KeyEvent, u128)>,
)
    requires
        passage.len() > 0,
        passage.len() <= usize::MAX,
        state.cursor_wf(passage),
    ensures
        advance_all(state, passage, events).cursor_wf(passage),
        progress(advance_all(state, passage, events), passage) >= progress(state, passage),
    decreases events.len(),
{
    if events.len() > 0 {
        lemma_advance_step(state, passage, events[0].0, events[0].1);
        lemma_progress_monotonic(
            spec_advance(state, passage, events[0].0, events[0].1),
            passage,
            events.skip(1),
        );
    }
}

/// Ignored keys are inert: feeding any sequence of keystrokes none of which
/// matches the expected character to a trial waiting for a character leaves
/// the state exactly unchanged.
pub proof fn lemma_ignored_keys_leave_state_unchanged(
    state: TrialState,
    passage: Seq<char>,
    events: Seq<(KeyEvent, u128)>,
)
    requires
        passage.len() > 0,
        passage.len() <= usize::MAX,
        state.cursor_wf(passage),
        state is AwaitingFirstKey || state is InProgress,
        forall|i: int| 0 <= i < events.len() ==> !accepts(state, passage, #[trigger] events[i].0),
    ensures
        advance_all(state, passage, events) == state,
    decreases events.len(),
{
    if events.len() > 0 {
        assert(!accepts(state, passage, events[0].0));
        lemma_advance_step(state, passage, events[0].0, events[0].1);
        assert(forall|i: int|
            0 <= i < events.skip(1).len() ==> events.skip(1)[i] == events[i + 1]);
        lemma_ignored_keys_leave_state_unchanged(state, passage, events.skip(1));
    }
}

/// A completed trial is immutable: every further keystroke is a no-op and
/// none of them is accepted.
pub proof fn lemma_completed_is_terminal(
    state: TrialState,
    passage: Seq<char>,
    events: Seq<(KeyEvent, u128)>,
)
    requires
        state is Completed,
    ensures
        advance_all(state, passage, events) == state,
        accepted_chars(state, passage, events) == Seq::<char>::empty(),
    decreases events.len(),
{
    if events.len() > 0 {
        lemma_completed_is_terminal(state, passage, events.skip(1));
    }
}

/// Delivering the remaining characters of the passage in order, one event
/// each, completes the trial: from a trial waiting at progress `p`, exactly
/// `passage.len() - p` correct keystrokes reach `Completed`.
pub proof fn lemma_correct_keys_complete(
    state: TrialState,
    passage: Seq<char>,
    events: Seq<(KeyEvent, u128)>,
)
    requires
        passage.len() > 0,
        passage.len() <= usize::MAX,
        state.cursor_wf(passage),
        state is AwaitingFirstKey || state is InProgress,
        events.len() == passage.len() - progress(state, passage),
        forall|i: int| 0 <= i < events.len() ==> #[trigger] events[i].0 == KeyEvent::Char(
            passage[progress(state, passage) + i],
        ),
    ensures
        advance_all(state, passage, events) is Completed,
    decreases events.len(),
{
    assert(events[0].0 == KeyEvent::Char(passage[progress(state, passage)]));
    assert(accepts(state, passage, events[0].0));
    let next = spec_advance(state, passage, events[0].0, events[0].1);
    lemma_advance_step(state, passage, events[0].0, events[0].1);
    if next is Completed {
        lemma_completed_is_terminal(next, passage, events.skip(1));
    } else {
        assert(forall|i: int|
            0 <= i < events.skip(1).len() ==> events.skip(1)[i] == events[i + 1]);
        lemma_correct_keys_complete(next, passage, events.skip(1));
    }
}

/// Completion exactness: a started trial reaches `Completed` if and only if
/// the keystrokes it accepted along the way spell out exactly the characters
/// of the passage that were still to be typed.
pub proof fn lemma_completion_exact(
    state: TrialState,
    passage: Seq<char>,
    events: Seq<(KeyEvent, u128)>,
)
    requires
        passage.len() > 0,
        passage.len() <= usize::MAX,
        state.cursor_wf(passage),
        !(state is AwaitingStart),
    ensures
        advance_all(state, passage, events) is Completed <==> (state is Completed
            || accepted_chars(state, passage, events) == passage.skip(
            progress(state, passage),
        )),
    decreases events.len(),
{
    let p = progress(state, passage);
    if state is Completed {
        lemma_completed_is_terminal(state, passage, events);
    } else if events.len() == 0 {
        assert(p < passage.len());
        assert(passage.skip(p).len() == passage.len() - p);
        assert(accepted_chars(state, passage, events) == Seq::<char>::empty());
    } else {
        let key = events[0].0;
        let next = spec_advance(state, passage, key, events[0].1);
        let rest = events.skip(1);
        lemma_advance_step(state, passage, key, events[0].1);
        if accepts(state, passage, key) {
            let tail = accepted_chars(next, passage, rest);
            assert(key_char(key) == passage[p]);
            assert(passage.skip(p) =~= seq![passage[p]] + passage.skip(p + 1));
            if next is Completed {
                lemma_completed_is_terminal(next, passage, rest);
                assert(p + 1 == passage.len());
                assert(seq![key_char(key)] + tail =~= passage.skip(p));
            } else {
                lemma_completion_exact(next, passage, rest);
                if tail == passage.skip(p + 1) {
                    assert(seq![key_char(key)] + tail =~= passage.skip(p));
                } else {
                    assert(seq![key_char(key)] + tail != passage.skip(p)) by {
                        if seq![key_char(key)] + tail == passage.skip(p) {
                            assert forall|i: int| 0 <= i < tail.len() implies tail[i]
                                == passage.skip(p + 1)[i] by {
                                assert(tail[i] == (seq![key_char(key)] + tail)[i + 1]);
                                assert(passage.skip(p)[i + 1] == passage[p + 1 + i]);
                            }
                            assert(tail.len() == passage.skip(p).len() - 1 == passage.skip(
                                p + 1,
                            ).len());
                            assert(tail =~= passage.skip(p + 1));
                        }
                    }
                }
            }
        } else {
            assert(next == state);
            lemma_completion_exact(state, passage, rest);
        }
    }
}

/// An exact typing speed in characters per minute, kept as the unrounded
/// ratio `numer / denom`; presentation layers may divide and round it.
#[derive(Clone, Copy, Debug, PartialEq, Eq, Structural)]
pub struct Speed {
    /// The passage length scaled to a minute: `chars * 60000`.
    pub numer: u128,
    /// The elapsed time of the trial in milliseconds.
    pub denom: u128,
}

/// The speed of a completed trial: `passage_len` characters divided by the
/// elapsed minutes between the first and last accepted keystroke. A trial
/// with no elapsed time has no speed; that is the degenerate-timing error.
pub fn speed_chars_per_minute(passage_len: usize, start_time: u128, end_time: u128) -> (r: Result<
    Speed,
    TrialError,
>)
    ensures
        end_time <= start_time ==> (r matches Err(e) && e == TrialError::DegenerateTiming),
        end_time > start_time ==> (r matches Ok(s) && s.numer == passage_len * 60000 && s.denom
            == end_time - start_time),
{
    if end_time <= start_time {
        Err(TrialError::DegenerateTiming)
    } else {
        assert((passage_len as u128) * 60000 <= u128::MAX) by (nonlinear_arith)
            requires passage_len <= u64::MAX;
        Ok(Speed { numer: (passage_len as u128) * 60000, denom: end_time - start_time })
    }
}

} // verus!
