//! The protocol of one plugin invocation: validate the input, try the
//! buffered path where the plugin offers it, else call `run` and hand the
//! returned text back to the plugin's own `release` exactly once.

use vstd::prelude::*;

verus! {

/// Where an invocation stands.
#[derive(Clone, Copy, Debug, PartialEq, Eq, Structural)]
pub enum Stage {
    /// Nothing called yet.
    Start,
    /// `validate` was called.
    Validating,
    /// `run_buffered` was called.
    Buffered,
    /// `run` was called.
    Running,
    /// `run` returned text that the plugin still owns; `release` was called.
    Releasing,
    /// The invocation is over.
    Finished,
}

/// How an invocation ended.
#[derive(Clone, Copy, Debug, PartialEq, Eq, Structural)]
pub enum Ending {
    /// The plugin produced output.
    Produced,
    /// The plugin's validation refused the input.
    Refused,
    /// The call could not be completed.
    Broken,
}

/// The next call to make on the plugin.
#[derive(Clone, Copy, Debug, PartialEq, Eq, Structural)]
pub enum Call {
    Validate,
    RunBuffered,
    Run,
    /// Release the text that `run` returned, after copying it out.
    Release,
    /// Nothing more to call.
    Stop(Ending),
}

/// What the previous call gave back.
#[derive(Clone, Copy, Debug, PartialEq, Eq, Structural)]
pub enum Reply {
    /// Asks for the first call.
    Begin,
    Valid(bool),
    /// Bytes written into the caller's buffer; 0 means "use `run`".
    Written(usize),
    /// Whether `run` returned text.
    Returned(bool),
    Released,
}

/// One step of the protocol: the stage after `reply`, and the next call.
pub open spec fn step(stage: Stage, buffered: bool, reply: Reply) -> (Stage, Call) {
    match (stage, reply) {
        (Stage::Start, Reply::Begin) => (Stage::Validating, Call::Validate),
        (Stage::Validating, Reply::Valid(ok)) => if !ok {
            (Stage::Finished, Call::Stop(Ending::Refused))
        } else if buffered {
            (Stage::Buffered, Call::RunBuffered)
        } else {
            (Stage::Running, Call::Run)
        },
        (Stage::Buffered, Reply::Written(n)) => if n > 0 {
            (Stage::Finished, Call::Stop(Ending::Produced))
        } else {
            (Stage::Running, Call::Run)
        },
        (Stage::Running, Reply::Returned(some)) => if some {
            (Stage::Releasing, Call::Release)
        } else {
            (Stage::Finished, Call::Stop(Ending::Broken))
        },
        (Stage::Releasing, Reply::Released) => (Stage::Finished, Call::Stop(Ending::Produced)),
        (Stage::Releasing, _) => (Stage::Releasing, Call::Release),
        (Stage::Finished, _) => (Stage::Finished, Call::Stop(Ending::Broken)),
        _ => (Stage::Finished, Call::Stop(Ending::Broken)),
    }
}

/// The state of one invocation.
#[derive(Clone, Copy, Debug, PartialEq, Eq, Structural)]
pub struct Invocation {
    pub stage: Stage,
    /// The plugin offers `run_buffered`.
    pub buffered: bool,
}

impl Invocation {
    pub fn new(buffered: bool) -> (r: Invocation)
        ensures
            r.stage == Stage::Start,
            r.buffered == buffered,
    {
        Invocation { stage: Stage::Start, buffered }
    }

    /// Takes the reply to the previous call and names the next one.
    pub fn advance(&mut self, reply: Reply) -> (r: Call)
        ensures
            (final(self).stage, r) == step(old(self).stage, old(self).buffered, reply),
            final(self).buffered == old(self).buffered,
    {
        let (stage, call) = match (self.stage, reply) {
            (Stage::Start, Reply::Begin) => (Stage::Validating, Call::Validate),
            (Stage::Validating, Reply::Valid(ok)) => if !ok {
                (Stage::Finished, Call::Stop(Ending::Refused))
            } else if self.buffered {
                (Stage::Buffered, Call::RunBuffered)
            } else {
                (Stage::Running, Call::Run)
            },
            (Stage::Buffered, Reply::Written(n)) => if n > 0 {
                (Stage::Finished, Call::Stop(Ending::Produced))
            } else {
                (Stage::Running, Call::Run)
            },
            (Stage::Running, Reply::Returned(some)) => if some {
                (Stage::Releasing, Call::Release)
            } else {
                (Stage::Finished, Call::Stop(Ending::Broken))
            },
            (Stage::Releasing, Reply::Released) => (Stage::Finished, Call::Stop(Ending::Produced)),
            (Stage::Releasing, _) => (Stage::Releasing, Call::Release),
            (Stage::Finished, _) => (Stage::Finished, Call::Stop(Ending::Broken)),
            _ => (Stage::Finished, Call::Stop(Ending::Broken)),
        };
        self.stage = stage;
        call
    }
}

/// The stage and the calls made, from `stage`, over a sequence of replies.
pub open spec fn run_protocol(stage: Stage, buffered: bool, replies: Seq<Reply>) -> (Stage, Seq<Call>)
    decreases replies.len(),
{
    if replies.len() == 0 {
        (stage, Seq::empty())
    } else {
        let prev = run_protocol(stage, buffered, replies.drop_last());
        let (next, call) = step(prev.0, buffered, replies.last());
        (next, prev.1.push(call))
    }
}

pub open spec fn count_calls(calls: Seq<Call>, c: Call) -> nat
    decreases calls.len(),
{
    if calls.len() == 0 {
        0
    } else {
        count_calls(calls.drop_last(), c) + if calls.last() == c {
            1nat
        } else {
            0nat
        }
    }
}

/// Released: a `Released` reply given while the text was still held.
pub open spec fn count_releases_done(stage: Stage, buffered: bool, replies: Seq<Reply>) -> nat
    decreases replies.len(),
{
    if replies.len() == 0 {
        0
    } else {
        let prev = run_protocol(stage, buffered, replies.drop_last());
        count_releases_done(stage, buffered, replies.drop_last()) + if prev.0 == Stage::Releasing
            && replies.last() == Reply::Released {
            1nat
        } else {
            0nat
        }
    }
}

/// Texts handed over by `run`: a `Returned(true)` reply to a `run` call.
pub open spec fn count_outputs(stage: Stage, buffered: bool, replies: Seq<Reply>) -> nat
    decreases replies.len(),
{
    if replies.len() == 0 {
        0
    } else {
        let prev = run_protocol(stage, buffered, replies.drop_last());
        count_outputs(stage, buffered, replies.drop_last()) + if prev.0 == Stage::Running
            && replies.last() == Reply::Returned(true) {
            1nat
        } else {
            0nat
        }
    }
}

/// From the start, whatever the plugin replies: every text that `run`
/// returns is released before the invocation ends, and nothing is released
/// that `run` did not return; while a text is held the only call asked for is
/// `Release`; at most one text is ever held.
pub proof fn lemma_release_once(buffered: bool, replies: Seq<Reply>)
    ensures
        ({
            let (stage, calls) = run_protocol(Stage::Start, buffered, replies);
            &&& count_outputs(Stage::Start, buffered, replies) <= 1
            &&& count_releases_done(Stage::Start, buffered, replies) + if stage == Stage::Releasing {
                1nat
            } else {
                0nat
            } == count_outputs(Stage::Start, buffered, replies)
            &&& stage == Stage::Finished ==> count_releases_done(Stage::Start, buffered, replies)
                == count_outputs(Stage::Start, buffered, replies)
            &&& stage == Stage::Releasing ==> calls.last() == Call::Release
            &&& (count_outputs(Stage::Start, buffered, replies) == 1 && stage != Stage::Releasing)
                ==> stage == Stage::Finished
        }),
    decreases replies.len(),
{
    if replies.len() > 0 {
        lemma_release_once(buffered, replies.drop_last());
    }
}

} // verus!
