//! Debounce engine for button-like inputs.
//!
//! A mechanical switch bounces: around a real press or release the raw level
//! flickers for a few milliseconds. The engine filters this with a fixed
//! settle delay. Each poll starts from one raw read (`now`); when that read
//! disagrees with the settled level, the caller waits one settle delay and
//! reads again (`confirm`). Only a confirmed change flips the settled level
//! and emits an edge event; a transient that reverted within the delay is
//! discarded as noise.
//!
//! Waiting and reading the pin are the caller's business: the engine is a
//! pure state machine over the raw levels it is handed, so every step of it
//! is verified here.

use vstd::prelude::*;

verus! {

/// What one poll of a debounced input observed: a confirmed press edge, a
/// confirmed release edge, or no settled change.
#[derive(Clone, Copy, Debug, PartialEq, Eq, Structural)]
pub enum Event {
    Pressed,
    Released,
    Nothing,
}

/// The settled level after one poll step, given the level `settled` so far,
/// the raw read `now` at the start of the step, and the raw read `confirm`
/// taken after the settle delay (irrelevant when `now` agrees with
/// `settled`, since no settle window opens then).
pub open spec fn step_settled(settled: bool, now: bool, confirm: bool) -> bool {
    if now == settled {
        settled
    } else if confirm != settled {
        confirm
    } else {
        settled
    }
}

/// The event one poll step emits; an edge is emitted exactly when the step
/// flips the settled level.
pub open spec fn step_event(settled: bool, now: bool, confirm: bool) -> Event {
    if now == settled {
        Event::Nothing
    } else if confirm != settled {
        if confirm {
            Event::Pressed
        } else {
            Event::Released
        }
    } else {
        Event::Nothing
    }
}

/// The settled level after a whole run of poll steps. Each input is one
/// `(now, confirm)` pair of raw reads; the first pair is applied first.
pub open spec fn run_settled(settled: bool, inputs: Seq<(bool, bool)>) -> bool
    decreases inputs.len(),
{
    if inputs.len() == 0 {
        settled
    } else {
        run_settled(step_settled(settled, inputs[0].0, inputs[0].1), inputs.drop_first())
    }
}

/// The events a whole run of poll steps emits, in order.
pub open spec fn run_events(settled: bool, inputs: Seq<(bool, bool)>) -> Seq<Event>
    decreases inputs.len(),
{
    if inputs.len() == 0 {
        Seq::empty()
    } else {
        seq![step_event(settled, inputs[0].0, inputs[0].1)] + run_events(
            step_settled(settled, inputs[0].0, inputs[0].1),
            inputs.drop_first(),
        )
    }
}

/// One debounced input source. The stored state is the last confirmed
/// (settled) level, with `true` meaning pressed.
pub struct DebouncedInput {
    settled: bool,
}

impl View for DebouncedInput {
    type V = bool;

    /// The view of a debounced input is its settled level.
    closed spec fn view(&self) -> bool {
        self.settled
    }
}

impl DebouncedInput {
    /// Creates a debounced input whose settled level starts at the raw level
    /// read at construction time.
    pub fn new(raw_pressed: bool) -> (r: DebouncedInput)
        ensures
            r@ == raw_pressed,
    {
        DebouncedInput { settled: raw_pressed }
    }

    /// The last confirmed level.
    pub fn settled_state(&self) -> (r: bool)
        ensures
            r == self@,
    {
        self.settled
    }

    /// True when the raw level just read disagrees with the settled level,
    /// so the caller must wait one settle delay and read the raw level again
    /// before handing both reads to `poll`.
    pub fn transition_pending(&self, raw_now: bool) -> (r: bool)
        ensures
            r == (raw_now != self@),
    {
        raw_now != self.settled
    }

    /// One debounce step. `raw_now` is the raw level read at the start of
    /// the step; `raw_confirm` is the raw level read again after the settle
    /// delay, and is ignored when no transition was pending.
    pub fn poll(&mut self, raw_now: bool, raw_confirm: bool) -> (ev: Event)
        ensures
            final(self)@ == step_settled(old(self)@, raw_now, raw_confirm),
            ev == step_event(old(self)@, raw_now, raw_confirm),
    {
        if raw_now != self.settled {
            if raw_confirm != self.settled {
                self.settled = raw_confirm;
                if raw_confirm {
                    Event::Pressed
                } else {
                    Event::Released
                }
            } else {
                Event::Nothing
            }
        } else {
            Event::Nothing
        }
    }

    /// Steps the machine like `poll` and reports only whether this step
    /// confirmed a press. A release edge observed here is indistinguishable
    /// from no change, and callers that mix `poll` and `is_pressed` on one
    /// input consume edges from the same stream, so they can miss releases.
    /// Use `poll` where release edges matter.
    pub fn is_pressed(&mut self, raw_now: bool, raw_confirm: bool) -> (r: bool)
        ensures
            final(self)@ == step_settled(old(self)@, raw_now, raw_confirm),
            r == (step_event(old(self)@, raw_now, raw_confirm) == Event::Pressed),
    {
        let ev = self.poll(raw_now, raw_confirm);
        ev == Event::Pressed
    }
}

/// A run over concatenated inputs is the run over the first part followed by
/// the run over the second part, started from where the first part settled.
pub proof fn lemma_run_append(settled: bool, a: Seq<(bool, bool)>, b: Seq<(bool, bool)>)
    ensures
        run_settled(settled, a + b) == run_settled(run_settled(settled, a), b),
        run_events(settled, a + b) == run_events(settled, a) + run_events(
            run_settled(settled, a),
            b,
        ),
    decreases a.len(),
{
    if a.len() == 0 {
        assert(a + b =~= b);
        assert(run_events(settled, a) + run_events(settled, b) =~= run_events(settled, b));
    } else {
        let s1 = step_settled(settled, a[0].0, a[0].1);
        assert((a + b).drop_first() =~= a.drop_first() + b);
        lemma_run_append(s1, a.drop_first(), b);
        assert(run_events(settled, a + b) =~= run_events(settled, a) + run_events(
            run_settled(settled, a),
            b,
        ));
    }
}

/// A run emits exactly one event per poll step.
pub proof fn lemma_run_events_len(settled: bool, inputs: Seq<(bool, bool)>)
    ensures
        run_events(settled, inputs).len() == inputs.len(),
    decreases inputs.len(),
{
    if inputs.len() > 0 {
        lemma_run_events_len(step_settled(settled, inputs[0].0, inputs[0].1), inputs.drop_first());
    }
}

/// Debounce idempotence, settled case: while every raw read agrees with the
/// settled level, the settled level never changes and every poll emits
/// `Nothing`.
pub proof fn lemma_constant_raw_is_silent(settled: bool, inputs: Seq<(bool, bool)>)
    requires
        forall|i: int| 0 <= i < inputs.len() ==> inputs[i] == (settled, settled),
    ensures
        run_settled(settled, inputs) == settled,
        forall|i: int| 0 <= i < inputs.len() ==> run_events(settled, inputs)[i] == Event::Nothing,
    decreases inputs.len(),
{
    if inputs.len() > 0 {
        assert(inputs[0] == (settled, settled));
        assert(forall|i: int|
            0 <= i < inputs.drop_first().len() ==> inputs.drop_first()[i] == inputs[i + 1]);
        lemma_constant_raw_is_silent(settled, inputs.drop_first());
        lemma_run_events_len(settled, inputs.drop_first());
    }
}

/// Debounce idempotence: for a raw level held constant across a run of
/// polls, the first poll settles the machine at that level, every later poll
/// emits `Nothing`, and the settled level never changes again — it reads
/// `raw` after every prefix of the run.
pub proof fn lemma_debounce_idempotent(initial: bool, raw: bool, inputs: Seq<(bool, bool)>)
    requires
        inputs.len() >= 1,
        forall|i: int| 0 <= i < inputs.len() ==> inputs[i] == (raw, raw),
    ensures
        run_settled(initial, inputs) == raw,
        forall|i: int| 1 <= i < inputs.len() ==> run_events(initial, inputs)[i] == Event::Nothing,
        forall|i: int| 1 <= i <= inputs.len() ==> run_settled(initial, inputs.take(i)) == raw,
{
    assert(inputs[0] == (raw, raw));
    assert(step_settled(initial, raw, raw) == raw);
    assert(forall|i: int|
        0 <= i < inputs.drop_first().len() ==> inputs.drop_first()[i] == inputs[i + 1]);
    lemma_constant_raw_is_silent(raw, inputs.drop_first());
    lemma_run_events_len(raw, inputs.drop_first());
    assert forall|i: int| 1 <= i <= inputs.len() implies run_settled(initial, inputs.take(i))
        == raw by {
        let p = inputs.take(i);
        assert(p[0] == (raw, raw));
        assert(forall|j: int| 0 <= j < p.drop_first().len() ==> p.drop_first()[j] == inputs[j + 1]);
        lemma_constant_raw_is_silent(raw, p.drop_first());
    }
}

/// Debounce edge correctness, confirmed transition: when the raw level sits
/// at the settled level for any number of polls and then changes and holds
/// past the settle delay, the run emits exactly one edge event — at the
/// first changed poll — and the settled level flips exactly once.
pub proof fn lemma_debounce_single_edge(
    initial: bool,
    pre: Seq<(bool, bool)>,
    post: Seq<(bool, bool)>,
)
    requires
        forall|i: int| 0 <= i < pre.len() ==> pre[i] == (initial, initial),
        post.len() >= 1,
        forall|i: int| 0 <= i < post.len() ==> post[i] == (!initial, !initial),
    ensures
        run_settled(initial, pre + post) == !initial,
        run_events(initial, pre + post)[pre.len() as int] == if !initial {
            Event::Pressed
        } else {
            Event::Released
        },
        forall|i: int|
            0 <= i < (pre + post).len() && i != pre.len() ==> run_events(initial, pre + post)[i]
                == Event::Nothing,
{
    lemma_constant_raw_is_silent(initial, pre);
    lemma_run_append(initial, pre, post);
    lemma_debounce_idempotent(initial, !initial, post);
    lemma_run_events_len(initial, pre);
    lemma_run_events_len(!initial, post.drop_first());
    assert(post[0] == (!initial, !initial));
    assert(run_events(initial, post)[0] == step_event(initial, !initial, !initial));
    lemma_run_events_len(initial, pre + post);
}

/// Debounce glitch rejection: a poll whose first read shows a change but
/// whose confirm read reverted to the settled level emits no event and
/// leaves the settled level unchanged.
pub proof fn lemma_debounce_glitch(settled: bool)
    ensures
        step_settled(settled, !settled, settled) == settled,
        step_event(settled, !settled, settled) == Event::Nothing,
{
}

} // verus!
