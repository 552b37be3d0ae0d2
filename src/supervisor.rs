use vstd::prelude::*;
use crate::tailer::{above, count_above, cycle_sends, lemma_cycle, lemma_cycle_complete, strictly_increasing};

verus! {

/// Where one pipeline's connection stands.
#[derive(PartialEq, Eq, Structural, Clone, Copy, Debug)]
pub enum Phase {
    Disconnected,
    Authenticating,
    Connecting,
    Joining,
    Active,
    Fatal,
}

/// What happened to the step in progress.
#[derive(PartialEq, Eq, Structural, Clone, Copy, Debug)]
pub enum Outcome {
    /// The idle delay is over: time to try again.
    Start,
    /// The step in progress (login, connect, join) succeeded.
    Succeeded,
    /// The step in progress failed, or the live connection closed.
    Failed,
    /// The configuration cannot work; nothing will be tried again.
    Unrecoverable,
}

/// What the pipeline's driver does next.
#[derive(PartialEq, Eq, Structural, Clone, Copy, Debug)]
pub enum Action {
    Authenticate,
    Connect,
    Join,
    Dispatch,
    /// Drop the connection, if any, and wait the idle delay.
    WaitAndRetry,
    Stop,
    Nothing,
}

/// The supervisor's transition: the next phase and the action it calls for.
pub open spec fn transition(p: Phase, o: Outcome) -> (Phase, Action) {
    match (p, o) {
        (Phase::Fatal, _) => (Phase::Fatal, Action::Nothing),
        (_, Outcome::Unrecoverable) => (Phase::Fatal, Action::Stop),
        (Phase::Disconnected, Outcome::Start) => (Phase::Authenticating, Action::Authenticate),
        (Phase::Authenticating, Outcome::Succeeded) => (Phase::Connecting, Action::Connect),
        (Phase::Connecting, Outcome::Succeeded) => (Phase::Joining, Action::Join),
        (Phase::Joining, Outcome::Succeeded) => (Phase::Active, Action::Dispatch),
        (Phase::Authenticating, Outcome::Failed) => (Phase::Disconnected, Action::WaitAndRetry),
        (Phase::Connecting, Outcome::Failed) => (Phase::Disconnected, Action::WaitAndRetry),
        (Phase::Joining, Outcome::Failed) => (Phase::Disconnected, Action::WaitAndRetry),
        (Phase::Active, Outcome::Failed) => (Phase::Disconnected, Action::WaitAndRetry),
        _ => (p, Action::Nothing),
    }
}

/// Takes one outcome: returns the next phase and what to do.
pub fn step(p: Phase, o: Outcome) -> (r: (Phase, Action))
    ensures
        r == transition(p, o),
{
    match (p, o) {
        (Phase::Fatal, _) => (Phase::Fatal, Action::Nothing),
        (_, Outcome::Unrecoverable) => (Phase::Fatal, Action::Stop),
        (Phase::Disconnected, Outcome::Start) => (Phase::Authenticating, Action::Authenticate),
        (Phase::Authenticating, Outcome::Succeeded) => (Phase::Connecting, Action::Connect),
        (Phase::Connecting, Outcome::Succeeded) => (Phase::Joining, Action::Join),
        (Phase::Joining, Outcome::Succeeded) => (Phase::Active, Action::Dispatch),
        (Phase::Authenticating, Outcome::Failed) => (Phase::Disconnected, Action::WaitAndRetry),
        (Phase::Connecting, Outcome::Failed) => (Phase::Disconnected, Action::WaitAndRetry),
        (Phase::Joining, Outcome::Failed) => (Phase::Disconnected, Action::WaitAndRetry),
        (Phase::Active, Outcome::Failed) => (Phase::Disconnected, Action::WaitAndRetry),
        _ => (p, Action::Nothing),
    }
}

/// The phase reached after a run of outcomes.
pub open spec fn run(p: Phase, os: Seq<Outcome>) -> Phase
    decreases os.len(),
{
    if os.len() == 0 {
        p
    } else {
        run(transition(p, os[0]).0, os.drop_first())
    }
}

/// One attempt that gets through `stage` steps (at most two: login,
/// connect) and then fails.
pub open spec fn failed_attempt(stage: nat) -> Seq<Outcome> {
    seq![Outcome::Start] + Seq::new(stage, |i: int| Outcome::Succeeded) + seq![Outcome::Failed]
}

/// A run of failed attempts, each failing at its own stage.
pub open spec fn failed_attempts(stages: Seq<nat>) -> Seq<Outcome>
    decreases stages.len(),
{
    if stages.len() == 0 {
        Seq::empty()
    } else {
        failed_attempt(stages[0]) + failed_attempts(stages.drop_first())
    }
}

/// An attempt in which login, connect and join all succeed.
pub open spec fn successful_attempt() -> Seq<Outcome> {
    seq![Outcome::Start, Outcome::Succeeded, Outcome::Succeeded, Outcome::Succeeded]
}

proof fn lemma_run_concat(p: Phase, a: Seq<Outcome>, b: Seq<Outcome>)
    ensures
        run(p, a + b) == run(run(p, a), b),
    decreases a.len(),
{
    if a.len() > 0 {
        assert((a + b).drop_first() == a.drop_first() + b);
        lemma_run_concat(transition(p, a[0]).0, a.drop_first(), b);
    } else {
        assert(a + b == b);
    }
}

proof fn lemma_failed_attempt(stage: nat)
    requires
        stage <= 2,
    ensures
        run(Phase::Disconnected, failed_attempt(stage)) == Phase::Disconnected,
{
    let s = failed_attempt(stage);
    let succ = Seq::new(stage, |i: int| Outcome::Succeeded);
    lemma_run_concat(Phase::Disconnected, seq![Outcome::Start], succ + seq![Outcome::Failed]);
    assert(s == seq![Outcome::Start] + (succ + seq![Outcome::Failed]));
    assert(seq![Outcome::Start].drop_first() == Seq::<Outcome>::empty());
    let after_start = run(Phase::Disconnected, seq![Outcome::Start]);
    assert(run(Phase::Authenticating, Seq::<Outcome>::empty()) == Phase::Authenticating);
    assert(after_start == Phase::Authenticating);
    lemma_run_concat(Phase::Authenticating, succ, seq![Outcome::Failed]);
    if stage == 0 {
        assert(succ == Seq::<Outcome>::empty());
    } else if stage == 1 {
        assert(succ.drop_first() == Seq::<Outcome>::empty());
    } else {
        assert(succ.drop_first().drop_first() == Seq::<Outcome>::empty());
    }
    reveal_with_fuel(run, 3);
    let mid = run(Phase::Authenticating, succ);
    assert(mid == Phase::Authenticating || mid == Phase::Connecting || mid == Phase::Joining);
    assert(seq![Outcome::Failed].drop_first() == Seq::<Outcome>::empty());
}

/// However many attempts have failed, and at whichever step, the supervisor
/// is back at `Disconnected` after each, and the first attempt that gets
/// through login, connect and join reaches `Active`, where dispatch starts
/// again on a fresh session.
pub proof fn lemma_reconnect_convergence(stages: Seq<nat>)
    requires
        forall|i: int| 0 <= i < stages.len() ==> #[trigger] stages[i] <= 2,
    ensures
        run(Phase::Disconnected, failed_attempts(stages)) == Phase::Disconnected,
        run(Phase::Disconnected, failed_attempts(stages) + successful_attempt()) == Phase::Active,
    decreases stages.len(),
{
    if stages.len() > 0 {
        lemma_failed_attempt(stages[0]);
        lemma_run_concat(Phase::Disconnected, failed_attempt(stages[0]), failed_attempts(stages.drop_first()));
        lemma_reconnect_convergence(stages.drop_first());
    }
    lemma_run_concat(Phase::Disconnected, failed_attempts(stages), successful_attempt());
    let s = successful_attempt();
    assert(s.drop_first().drop_first().drop_first().drop_first() == Seq::<Outcome>::empty());
    reveal_with_fuel(run, 5);
}

/// After any number of failed attempts, the attempt that gets through
/// reaches `Active`; the tailer then starts again from the watermark that the
/// backend hands over, and its first cycle whose sends succeed sends each
/// record past the watermark exactly once, in time order, and nothing at or
/// before it.
pub proof fn lemma_reconnect_resumes(stages: Seq<nat>, ts: Seq<i64>, watermark: Option<i64>, n: nat)
    requires
        forall|i: int| 0 <= i < stages.len() ==> #[trigger] stages[i] <= 2,
        n >= count_above(ts, watermark),
    ensures
        run(Phase::Disconnected, failed_attempts(stages) + successful_attempt()) == Phase::Active,
        strictly_increasing(cycle_sends(ts, watermark, n)),
        forall|i: int| 0 <= i < cycle_sends(ts, watermark, n).len() ==> above(
            watermark,
            #[trigger] cycle_sends(ts, watermark, n)[i],
        ),
        forall|i: int| 0 <= i < ts.len() && above(watermark, #[trigger] ts[i]) ==> cycle_sends(ts, watermark, n).contains(
            ts[i],
        ),
{
    lemma_reconnect_convergence(stages);
    lemma_cycle_complete(ts, watermark, n);
    lemma_cycle(ts, watermark, n);
}

} // verus!
