//! Pumping bytes from one stream to another.

use vstd::prelude::*;

verus! {

/// How many bytes are read at most at a time.
pub const BUF: usize = 65536;

/// What the pump asks for.
#[derive(Clone, Copy, Debug, PartialEq, Eq, Structural)]
pub enum PumpAction {
    /// Read into the buffer.
    Read,
    /// Write this many bytes from the front of the buffer, all of them.
    Write(usize),
    /// Flush what was written.
    Flush,
    /// End: everything arrived.
    Done,
    /// End with the error that was met.
    Fail,
}

/// What came of it.
#[derive(Clone, Copy, Debug, PartialEq, Eq, Structural)]
pub enum PumpEvent {
    /// This many bytes were read; none at the end of the stream.
    DidRead(usize),
    /// The bytes were written.
    DidWrite,
    /// What was written is flushed.
    DidFlush,
    /// What was asked for failed.
    Failed,
}

/// What the pump asks for after an event.
pub open spec fn pump_action(event: PumpEvent) -> PumpAction {
    match event {
        PumpEvent::DidRead(n) => if n == 0 {
            PumpAction::Flush
        } else {
            PumpAction::Write(n)
        },
        PumpEvent::DidWrite => PumpAction::Read,
        PumpEvent::DidFlush => PumpAction::Done,
        PumpEvent::Failed => PumpAction::Fail,
    }
}

/// Decides what the pump asks for after an event. It starts by reading.
pub fn pump_step(event: PumpEvent) -> (r: PumpAction)
    ensures
        r == pump_action(event),
{
    match event {
        PumpEvent::DidRead(n) => if n == 0 {
            PumpAction::Flush
        } else {
            PumpAction::Write(n)
        },
        PumpEvent::DidWrite => PumpAction::Read,
        PumpEvent::DidFlush => PumpAction::Done,
        PumpEvent::Failed => PumpAction::Fail,
    }
}

/// Where a pump stands that runs against a source and a sink.
pub struct Run {
    /// What the source still has to give, chunk by chunk.
    pub source: Seq<Seq<u8>>,
    /// The front of the buffer.
    pub buffer: Seq<u8>,
    /// What the sink was given.
    pub sink: Seq<u8>,
    /// What the pump asks for.
    pub action: PumpAction,
}

/// The pump at its start.
pub open spec fn start(source: Seq<Seq<u8>>) -> Run {
    Run { source, buffer: Seq::empty(), sink: Seq::empty(), action: PumpAction::Read }
}

/// One step of a run in which nothing fails.
pub open spec fn step(run: Run) -> Run {
    match run.action {
        PumpAction::Read => if run.source.len() == 0 {
            Run { action: pump_action(PumpEvent::DidRead(0)), ..run }
        } else {
            Run {
                source: run.source.drop_first(),
                buffer: run.source[0],
                action: pump_action(PumpEvent::DidRead(run.source[0].len() as usize)),
                ..run
            }
        },
        PumpAction::Write(n) => Run {
            sink: run.sink + run.buffer.take(n as int),
            action: pump_action(PumpEvent::DidWrite),
            ..run
        },
        PumpAction::Flush => Run { action: pump_action(PumpEvent::DidFlush), ..run },
        _ => run,
    }
}

/// `n` steps of a run.
pub open spec fn steps(run: Run, n: nat) -> Run
    decreases n,
{
    if n == 0 {
        run
    } else {
        steps(step(run), (n - 1) as nat)
    }
}

/// All chunks in a row.
pub open spec fn whole(source: Seq<Seq<u8>>) -> Seq<u8>
    decreases source.len(),
{
    if source.len() == 0 {
        Seq::empty()
    } else {
        source[0] + whole(source.drop_first())
    }
}

/// Where nothing fails, a pump that reads ends, and gives the sink, behind what it holds, the
/// bytes of the source, all of them and in their order. Once the source is exhausted, and before
/// the pump learns of it, the sink holds them already.
pub proof fn law_everything_arrives(run: Run)
    requires
        run.action == PumpAction::Read,
        forall|i: int| 0 <= i < run.source.len() ==> 0 < (#[trigger] run.source[i]).len() <= BUF,
    ensures
        steps(run, 2 * run.source.len()).action == PumpAction::Read,
        steps(run, 2 * run.source.len()).source.len() == 0,
        steps(run, 2 * run.source.len()).sink == run.sink + whole(run.source),
        steps(run, 2 * run.source.len() + 2).action == PumpAction::Done,
        steps(run, 2 * run.source.len() + 2).sink == run.sink + whole(run.source),
    decreases run.source.len(),
{
    let n = 2 * run.source.len();
    reveal_with_fuel(steps, 3);
    if run.source.len() == 0 {
        assert(run.sink + whole(run.source) =~= run.sink);
    } else {
        let chunk = run.source[0];
        let next = step(step(run));
        assert(0 < chunk.len() <= BUF);
        assert(step(run).action == PumpAction::Write(chunk.len() as usize));
        assert(chunk.take(chunk.len() as int) =~= chunk);
        assert(next.sink == run.sink + chunk);
        assert forall|i: int| 0 <= i < next.source.len() implies 0 < (
        #[trigger] next.source[i]).len() <= BUF by {
            assert(next.source[i] == run.source[i + 1]);
        }
        law_everything_arrives(next);
        assert(steps(run, n) == steps(next, (n - 2) as nat));
        assert(steps(run, n + 2) == steps(next, n));
        assert(next.sink + whole(next.source) =~= run.sink + whole(run.source));
    }
}

/// A step of a run in which what the pump asks for fails before it has any effect.
pub open spec fn fail(run: Run) -> Run {
    Run { action: pump_action(PumpEvent::Failed), ..run }
}

/// A read that fails behind the chunks of the source loses none of their bytes: the sink was given
/// all of them, and the pump ends with the error and asks for nothing more, no flush either.
pub proof fn law_read_error_loses_nothing(run: Run, n: nat)
    requires
        run.action == PumpAction::Read,
        forall|i: int| 0 <= i < run.source.len() ==> 0 < (#[trigger] run.source[i]).len() <= BUF,
    ensures
        steps(fail(steps(run, 2 * run.source.len())), n).action == PumpAction::Fail,
        steps(fail(steps(run, 2 * run.source.len())), n).sink == run.sink + whole(run.source),
{
    law_everything_arrives(run);
    lemma_failed_stays(fail(steps(run, 2 * run.source.len())), n);
}

/// A pump that failed does nothing more.
proof fn lemma_failed_stays(run: Run, n: nat)
    requires
        run.action == PumpAction::Fail,
    ensures
        steps(run, n) == run,
    decreases n,
{
    if n > 0 {
        lemma_failed_stays(run, (n - 1) as nat);
    }
}

/// A pump that starts on an empty sink gives it exactly what the source has.
pub proof fn law_copy_is_exact(source: Seq<Seq<u8>>)
    requires
        forall|i: int| 0 <= i < source.len() ==> 0 < (#[trigger] source[i]).len() <= BUF,
    ensures
        steps(start(source), 2 * source.len() + 2).action == PumpAction::Done,
        steps(start(source), 2 * source.len() + 2).sink == whole(source),
{
    law_everything_arrives(start(source));
    assert(Seq::<u8>::empty() + whole(source) =~= whole(source));
}

/// What is read is written, all of it, before more is read; what was written is flushed exactly at
/// the end of the stream; the pump is done exactly when that worked, and fails exactly when
/// anything did.
pub proof fn law_pump_order(event: PumpEvent, n: usize)
    ensures
        pump_action(event) == PumpAction::Write(n) <==> n > 0 && event == PumpEvent::DidRead(n),
        pump_action(event) == PumpAction::Read <==> event == PumpEvent::DidWrite,
        pump_action(event) == PumpAction::Flush <==> event == PumpEvent::DidRead(0),
        pump_action(event) == PumpAction::Done <==> event == PumpEvent::DidFlush,
        pump_action(event) == PumpAction::Fail <==> event == PumpEvent::Failed,
{
}

} // verus!
