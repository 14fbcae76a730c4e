//! The order of work around a proving backend: size the trace, then obtain
//! parameters, keys and a proof, each from the cache or afresh, then
//! verify. The backend and the cache are driven from outside; this module
//! decides what is to be done next.

use crate::chip::Bootstrap;
use crate::circuit::TestCircuit;
use vstd::arithmetic::power2::{lemma_pow2_strictly_increases, lemma_pow2_unfold, pow2};
use vstd::prelude::*;

verus! {

/// The rows that the backend keeps for itself out of `2^k`.
pub const RESERVED_ROWS: usize = 6;

/// The number of rows that a circuit may use out of `2^k`.
pub open spec fn usable_rows_of(k: nat) -> int {
    pow2(k) - RESERVED_ROWS
}

/// The usable rows for a size parameter `k`; `None` where `2^k` does not
/// leave two usable rows or does not fit the machine.
pub fn usable_rows(k: u32) -> (rows: Option<usize>)
    ensures
        rows.is_some() <==> 2 <= usable_rows_of(k as nat) && pow2(k as nat) <= usize::MAX,
        rows matches Some(n) ==> n == usable_rows_of(k as nat),
{
    let mut n: usize = 1;
    let mut i: u32 = 0;
    proof {
        vstd::arithmetic::power2::lemma2_to64();
    }
    while i < k
        invariant
            i <= k,
            n == pow2(i as nat),
        decreases k - i,
    {
        if n > usize::MAX / 2 {
            proof {
                lemma_pow2_unfold((i + 1) as nat);
                if i + 1 < k {
                    lemma_pow2_strictly_increases((i + 1) as nat, k as nat);
                }
            }
            return None;
        }
        proof {
            lemma_pow2_unfold((i + 1) as nat);
        }
        n = n * 2;
        i += 1;
    }
    if n < RESERVED_ROWS + 2 {
        None
    } else {
        Some(n - RESERVED_ROWS)
    }
}

/// The rows that a circuit needs: one per multiplication, and one per slot
/// of the public inputs up to the output.
pub open spec fn rows_needed(circuit: TestCircuit) -> int {
    if circuit.steps + 1 > circuit.output_slot() + 1 {
        circuit.steps + 1
    } else {
        circuit.output_slot() + 1
    }
}

/// The smallest size parameter whose usable rows hold the circuit; `None`
/// where no size that fits the machine does.
pub fn minimum_k(circuit: &TestCircuit) -> (size: Option<u32>)
    ensures
        match size {
            Some(k) => {
                &&& pow2(k as nat) <= usize::MAX
                &&& usable_rows_of(k as nat) >= rows_needed(*circuit)
                &&& forall|j: nat| j < k ==> usable_rows_of(j) < rows_needed(*circuit)
            },
            None => forall|j: nat|
                pow2(j) <= usize::MAX ==> usable_rows_of(j) < rows_needed(*circuit),
        },
{
    proof {
        vstd::arithmetic::power2::lemma2_to64();
    }
    if circuit.steps == usize::MAX {
        return None;
    }
    let slots: usize = match circuit.bootstrap {
        Bootstrap::Constant => 2,
        Bootstrap::Instance => 3,
    };
    let needed = if circuit.steps + 1 > slots {
        circuit.steps + 1
    } else {
        slots
    };
    let mut k: u32 = 3;
    proof {
        assert forall|j: nat| j < 3 implies usable_rows_of(j) < rows_needed(*circuit) by {
            if j < 2 {
                lemma_pow2_strictly_increases(j, 2);
            }
        }
    }
    loop
        invariant
            3 <= k <= 64,
            needed == rows_needed(*circuit),
            forall|j: nat| j < k ==> usable_rows_of(j) < rows_needed(*circuit),
        decreases 64 - k,
    {
        proof {
            vstd::arithmetic::power2::lemma2_to64();
            if k > 3 {
                lemma_pow2_strictly_increases(3, k as nat);
            }
            if k == 64 {
                assert(pow2(k as nat) > usize::MAX);
            }
        }
        match usable_rows(k) {
            Some(n) => {
                if n >= needed {
                    return Some(k);
                }
            },
            None => {
                proof {
                    assert(pow2(k as nat) > usize::MAX);
                    assert forall|j: nat| pow2(j) <= usize::MAX implies usable_rows_of(j)
                        < rows_needed(*circuit) by {
                        if j > k {
                            lemma_pow2_strictly_increases(k as nat, j);
                        }
                    }
                }
                return None;
            },
        }
        k += 1;
    }
}

/// What a cached artifact was made for, and what a run wants.
#[derive(Clone, Copy, Debug, PartialEq, Eq, Structural)]
pub struct CircuitShape {
    pub k: u32,
    pub bootstrap: Bootstrap,
    pub steps: usize,
}

impl CircuitShape {
    /// The shape of a circuit at a size.
    pub fn of(circuit: &TestCircuit, k: u32) -> (shape: Self)
        ensures
            shape == (CircuitShape { k, bootstrap: circuit.bootstrap, steps: circuit.steps }),
    {
        CircuitShape { k, bootstrap: circuit.bootstrap, steps: circuit.steps }
    }
}

/// What the backend produces.
#[derive(Clone, Copy, Debug, PartialEq, Eq, Structural)]
pub enum Artifact {
    Parameters,
    Keys,
    Proof,
}

/// How far a run has come.
#[derive(Clone, Copy, Debug, PartialEq, Eq, Structural)]
pub enum Stage {
    Unconfigured,
    ParametersReady,
    KeysReady,
    ProofReady,
}

/// How a run ended.
#[derive(Clone, Copy, Debug, PartialEq, Eq, Structural)]
pub enum Verdict {
    Accepted,
    Rejected,
    GenerationFailed(Artifact),
}

/// What the harness waits for.
#[derive(Clone, Copy, Debug, PartialEq, Eq, Structural)]
pub enum State {
    /// The cache was asked for the artifact.
    Loading(Artifact),
    /// The backend was asked for the artifact.
    Generating(Artifact),
    /// The backend was asked to verify the proof.
    Verifying,
    Done(Verdict),
}

/// What happened outside.
#[derive(Clone, Copy, Debug, PartialEq, Eq, Structural)]
pub enum Event {
    /// The cache held the artifact, whole, made for `shape`.
    Loaded { artifact: Artifact, shape: CircuitShape },
    /// The cache held no such artifact, or a corrupt one.
    Unavailable(Artifact),
    /// The backend produced the artifact.
    Generated(Artifact),
    /// The backend could not produce the artifact.
    GenerationFailed(Artifact),
    /// The backend accepted the proof.
    Accepted,
    /// The backend rejected the proof.
    Rejected,
    /// Other public inputs are to be proved for.
    NewInputs,
}

/// What is to be done next.
#[derive(Clone, Copy, Debug, PartialEq, Eq, Structural)]
pub enum Action {
    Load(Artifact),
    Generate(Artifact),
    Verify,
    Stop,
}

/// Whether a cached artifact made for `found` serves a run that wants
/// `wanted`: parameters serve every circuit of their size, keys and proofs
/// only their own circuit.
pub open spec fn serves(artifact: Artifact, found: CircuitShape, wanted: CircuitShape) -> bool {
    match artifact {
        Artifact::Parameters => found.k == wanted.k,
        _ => found == wanted,
    }
}

/// The state once an artifact is in hand. After a fresh one, what is built
/// on it is made afresh too: a cached copy would rest on the old one.
pub open spec fn advance(artifact: Artifact, fresh: bool) -> State {
    match artifact {
        Artifact::Parameters => if fresh {
            State::Generating(Artifact::Keys)
        } else {
            State::Loading(Artifact::Keys)
        },
        Artifact::Keys => if fresh {
            State::Generating(Artifact::Proof)
        } else {
            State::Loading(Artifact::Proof)
        },
        Artifact::Proof => State::Verifying,
    }
}

impl State {
    /// The state before anything is in hand.
    pub open spec fn initial() -> State {
        State::Loading(Artifact::Parameters)
    }

    /// The stage that the state belongs to.
    pub open spec fn stage(self) -> Stage {
        match self {
            State::Loading(Artifact::Parameters) | State::Generating(Artifact::Parameters) => {
                Stage::Unconfigured
            },
            State::Loading(Artifact::Keys) | State::Generating(Artifact::Keys) => {
                Stage::ParametersReady
            },
            State::Loading(Artifact::Proof) | State::Generating(Artifact::Proof) => Stage::KeysReady,
            State::Verifying => Stage::ProofReady,
            State::Done(Verdict::GenerationFailed(Artifact::Parameters)) => Stage::Unconfigured,
            State::Done(Verdict::GenerationFailed(Artifact::Keys)) => Stage::ParametersReady,
            State::Done(Verdict::GenerationFailed(Artifact::Proof)) => Stage::KeysReady,
            State::Done(_) => Stage::ProofReady,
        }
    }

    /// What the state asks for.
    pub open spec fn pending(self) -> Action {
        match self {
            State::Loading(a) => Action::Load(a),
            State::Generating(a) => Action::Generate(a),
            State::Verifying => Action::Verify,
            State::Done(_) => Action::Stop,
        }
    }

    /// The state after an event, in a run that wants `wanted`. An event
    /// that does not answer what the state asks for changes nothing.
    pub open spec fn next(self, wanted: CircuitShape, event: Event) -> State {
        match (self, event) {
            (State::Loading(a), Event::Loaded { artifact, shape }) => if artifact != a {
                self
            } else if serves(a, shape, wanted) {
                advance(a, false)
            } else {
                State::Generating(a)
            },
            (State::Loading(a), Event::Unavailable(artifact)) => if artifact == a {
                State::Generating(a)
            } else {
                self
            },
            (State::Generating(a), Event::Generated(artifact)) => if artifact == a {
                advance(a, true)
            } else {
                self
            },
            (State::Generating(a), Event::GenerationFailed(artifact)) => if artifact == a {
                State::Done(Verdict::GenerationFailed(a))
            } else {
                self
            },
            (State::Verifying, Event::Accepted) => State::Done(Verdict::Accepted),
            (State::Verifying, Event::Rejected) => State::Done(Verdict::Rejected),
            (State::Done(Verdict::Accepted), Event::NewInputs) => State::Generating(Artifact::Proof),
            (State::Done(Verdict::Rejected), Event::NewInputs) => State::Generating(Artifact::Proof),
            _ => self,
        }
    }

    /// The state after a sequence of events.
    pub open spec fn run(self, wanted: CircuitShape, events: Seq<Event>) -> State
        decreases events.len(),
    {
        if events.len() == 0 {
            self
        } else {
            self.run(wanted, events.drop_last()).next(wanted, events.last())
        }
    }
}

impl Stage {
    /// The place of the stage in the order of work.
    pub open spec fn rank(self) -> nat {
        match self {
            Stage::Unconfigured => 0,
            Stage::ParametersReady => 1,
            Stage::KeysReady => 2,
            Stage::ProofReady => 3,
        }
    }
}

/// Whether the events hold one that puts the artifact in hand: it was
/// generated, or loaded from a cached copy that serves the run.
pub open spec fn obtained(events: Seq<Event>, artifact: Artifact, wanted: CircuitShape) -> bool {
    exists|i: int|
        0 <= i < events.len() && (#[trigger] events[i] == Event::Generated(artifact) || (
        events[i] matches Event::Loaded { artifact: a, shape } && a == artifact && serves(
            artifact,
            shape,
            wanted,
        )))
}

/// No stage is skipped, and once the keys are ready the run never falls
/// back behind them: parameters and keys serve every later proof.
pub proof fn lemma_stage_order(state: State, wanted: CircuitShape, event: Event)
    ensures
        state.next(wanted, event).stage().rank() <= state.stage().rank() + 1,
        state.stage().rank() >= 2 ==> state.next(wanted, event).stage().rank() >= 2,
        state.stage().rank() < 2 ==> state.next(wanted, event).stage().rank()
            >= state.stage().rank(),
{
}

/// A missing, corrupt or unfitting cached artifact is made afresh, and
/// after a fresh artifact nothing built on it is taken from the cache.
pub proof fn lemma_no_stale_reuse(artifact: Artifact, wanted: CircuitShape, event: Event)
    ensures
        event == Event::Unavailable(artifact) ==> State::Loading(artifact).next(wanted, event)
            == State::Generating(artifact),
        event matches Event::Loaded { artifact: a, shape } && a == artifact && !serves(
            artifact,
            shape,
            wanted,
        ) ==> State::Loading(artifact).next(wanted, event) == State::Generating(artifact),
        event == Event::Generated(artifact) ==> !(State::Generating(artifact).next(
            wanted,
            event,
        ).pending() is Load),
{
}

/// Whatever the events, a run that has reached a stage has every artifact
/// of the stages before it in hand: verification is never asked for
/// without parameters, keys and a proof.
pub proof fn lemma_stages_are_earned(wanted: CircuitShape, events: Seq<Event>)
    ensures
        ({
            let rank = State::initial().run(wanted, events).stage().rank();
            &&& rank >= 1 ==> obtained(events, Artifact::Parameters, wanted)
            &&& rank >= 2 ==> obtained(events, Artifact::Keys, wanted)
            &&& rank >= 3 ==> obtained(events, Artifact::Proof, wanted)
        }),
    decreases events.len(),
{
    if events.len() > 0 {
        let before = events.drop_last();
        let last = events.last();
        lemma_stages_are_earned(wanted, before);
        let state = State::initial().run(wanted, before);
        let after = state.next(wanted, last);
        assert(after == State::initial().run(wanted, events));
        lemma_obtained_extends(before, last, Artifact::Parameters, wanted);
        lemma_obtained_extends(before, last, Artifact::Keys, wanted);
        lemma_obtained_extends(before, last, Artifact::Proof, wanted);
        if after.stage().rank() > state.stage().rank() {
            let k = events.len() - 1;
            assert(events[k] == last);
        }
    }
}

/// What was obtained stays obtained when one more event follows.
pub proof fn lemma_obtained_extends(
    events: Seq<Event>,
    event: Event,
    artifact: Artifact,
    wanted: CircuitShape,
)
    ensures
        obtained(events, artifact, wanted) ==> obtained(events.push(event), artifact, wanted),
        events.push(event).drop_last() == events,
{
    assert(events.push(event).drop_last() =~= events);
    if obtained(events, artifact, wanted) {
        let i = choose|i: int|
            0 <= i < events.len() && (#[trigger] events[i] == Event::Generated(artifact) || (
            events[i] matches Event::Loaded { artifact: a, shape } && a == artifact && serves(
                artifact,
                shape,
                wanted,
            )));
        assert(events.push(event)[i] == events[i]);
    }
}

/// The harness of one run.
#[derive(Clone, Copy, Debug)]
pub struct Harness {
    wanted: CircuitShape,
    state: State,
}

impl Harness {
    /// The shape that the run wants its artifacts for.
    pub closed spec fn wanted(&self) -> CircuitShape {
        self.wanted
    }

    /// What the harness waits for.
    pub closed spec fn state(&self) -> State {
        self.state
    }

    /// A harness with nothing in hand.
    pub fn new(wanted: CircuitShape) -> (h: Self)
        ensures
            h.wanted() == wanted,
            h.state() == State::initial(),
    {
        Harness { wanted, state: State::Loading(Artifact::Parameters) }
    }

    /// What the harness waits for.
    pub fn current(&self) -> (s: State)
        ensures
            s == self.state(),
    {
        self.state
    }

    /// The stage that the run has reached.
    pub fn stage(&self) -> (s: Stage)
        ensures
            s == self.state().stage(),
    {
        match self.state {
            State::Loading(a) | State::Generating(a) | State::Done(Verdict::GenerationFailed(a)) => {
                match a {
                    Artifact::Parameters => Stage::Unconfigured,
                    Artifact::Keys => Stage::ParametersReady,
                    Artifact::Proof => Stage::KeysReady,
                }
            },
            _ => Stage::ProofReady,
        }
    }

    /// What is to be done now.
    pub fn action(&self) -> (a: Action)
        ensures
            a == self.state().pending(),
    {
        match self.state {
            State::Loading(a) => Action::Load(a),
            State::Generating(a) => Action::Generate(a),
            State::Verifying => Action::Verify,
            State::Done(_) => Action::Stop,
        }
    }

    /// Takes an event in and says what is to be done next.
    pub fn step(&mut self, event: Event) -> (a: Action)
        ensures
            final(self).wanted() == old(self).wanted(),
            final(self).state() == old(self).state().next(old(self).wanted(), event),
            a == final(self).state().pending(),
    {
        let next = match (self.state, event) {
            (State::Loading(a), Event::Loaded { artifact, shape }) => {
                if artifact != a {
                    self.state
                } else if Self::usable(a, shape, self.wanted) {
                    Self::advanced(a, false)
                } else {
                    State::Generating(a)
                }
            },
            (State::Loading(a), Event::Unavailable(artifact)) => {
                if artifact == a {
                    State::Generating(a)
                } else {
                    self.state
                }
            },
            (State::Generating(a), Event::Generated(artifact)) => {
                if artifact == a {
                    Self::advanced(a, true)
                } else {
                    self.state
                }
            },
            (State::Generating(a), Event::GenerationFailed(artifact)) => {
                if artifact == a {
                    State::Done(Verdict::GenerationFailed(a))
                } else {
                    self.state
                }
            },
            (State::Verifying, Event::Accepted) => State::Done(Verdict::Accepted),
            (State::Verifying, Event::Rejected) => State::Done(Verdict::Rejected),
            (State::Done(Verdict::Accepted), Event::NewInputs) => State::Generating(Artifact::Proof),
            (State::Done(Verdict::Rejected), Event::NewInputs) => State::Generating(Artifact::Proof),
            _ => self.state,
        };
        self.state = next;
        self.action()
    }

    /// Whether a cached artifact serves this run.
    pub fn usable(artifact: Artifact, found: CircuitShape, wanted: CircuitShape) -> (ok: bool)
        ensures
            ok == serves(artifact, found, wanted),
    {
        match artifact {
            Artifact::Parameters => found.k == wanted.k,
            _ => found == wanted,
        }
    }

    /// The state once an artifact is in hand.
    pub fn advanced(artifact: Artifact, fresh: bool) -> (s: State)
        ensures
            s == advance(artifact, fresh),
    {
        match artifact {
            Artifact::Parameters => if fresh {
                State::Generating(Artifact::Keys)
            } else {
                State::Loading(Artifact::Keys)
            },
            Artifact::Keys => if fresh {
                State::Generating(Artifact::Proof)
            } else {
                State::Loading(Artifact::Proof)
            },
            Artifact::Proof => State::Verifying,
        }
    }
}

} // verus!
