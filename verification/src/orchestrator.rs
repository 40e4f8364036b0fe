//! The decisions of the ingestion loop: what is done with each inbound
//! message, and when the loop is over.
//!
//! The loop has two states. It is running from the start, once the sessions
//! are there, and it stays running whatever a single message brings: a
//! payload that is no reading and a reading that the sink rejects are both
//! reported and dropped, and the next message is taken. It is stopped only
//! when its source ends or fails, or on shutdown.
use crate::reading::SensorData;
use crate::reading::ValidationError;
use crate::validator::outcome;
use crate::validator::parse;
use crate::validator::parsed;
use vstd::prelude::*;

verus! {

/// The state of the loop.
#[derive(Clone, Copy, Debug, PartialEq, Eq)]
pub enum Phase {
    Running,
    Stopped,
}

/// What is done with an inbound message.
pub enum Directive {
    /// Hand the reading to the sink and report what the sink answers.
    Persist(SensorData),
    /// Log the payload with this reason and drop it.
    Reject(ValidationError),
    /// The loop is stopped: leave the message alone.
    Ignore,
}

/// What became of a reading that was handed to the sink.
pub enum Report<E> {
    /// The sink took it.
    Stored,
    /// The sink refused it with this error. The reading is dropped.
    Dropped(E),
}

/// What can happen to the loop.
pub enum Event {
    /// A message with this payload arrived.
    Message(Seq<char>),
    /// The sink answered: it took the reading, or it did not.
    Persisted(bool),
    /// The source ended or failed for good.
    SourceEnded,
    /// Shutdown was asked for.
    Shutdown,
}

impl Phase {
    /// The state after one event.
    pub open spec fn step(self, event: Event) -> Phase {
        match event {
            Event::Message(_) => self,
            Event::Persisted(_) => self,
            Event::SourceEnded => Phase::Stopped,
            Event::Shutdown => Phase::Stopped,
        }
    }

    /// The state after a sequence of events.
    pub open spec fn run(self, events: Seq<Event>) -> Phase
        decreases events.len(),
    {
        if events.len() == 0 {
            self
        } else {
            self.step(events[0]).run(events.drop_first())
        }
    }

    /// What is done with a message that arrives in this state.
    pub open spec fn directive(self, payload: Seq<char>) -> Result<
        crate::reading::Reading,
        Option<ValidationError>,
    > {
        match self {
            Phase::Stopped => Err(None),
            Phase::Running => match parsed(payload) {
                Ok(reading) => Ok(reading),
                Err(error) => Err(Some(error)),
            },
        }
    }
}

impl Directive {
    /// The directive as contracts see it: the reading to persist, or the
    /// reason for which the message is dropped, if there is one.
    pub open spec fn view(self) -> Result<crate::reading::Reading, Option<ValidationError>> {
        match self {
            Directive::Persist(data) => Ok(data@),
            Directive::Reject(error) => Err(Some(error)),
            Directive::Ignore => Err(None),
        }
    }
}

/// The ingestion loop's state machine.
pub struct Orchestrator {
    phase: Phase,
}

impl View for Orchestrator {
    type V = Phase;

    closed spec fn view(&self) -> Phase {
        self.phase
    }
}

impl Orchestrator {
    /// The loop at its start: running.
    pub fn new() -> (orchestrator: Orchestrator)
        ensures
            orchestrator@ == Phase::Running,
    {
        Orchestrator { phase: Phase::Running }
    }

    /// The state of the loop.
    pub fn phase(&self) -> (phase: Phase)
        ensures
            phase == self@,
    {
        self.phase
    }

    /// Decides what is done with an inbound message. While the loop runs, a
    /// payload that is a reading is persisted and any other is rejected with
    /// the reason. No message changes the state.
    pub fn on_message(&self, payload: &str) -> (directive: Directive)
        ensures
            directive.view() == self@.directive(payload@),
            self@.step(Event::Message(payload@)) == self@,
    {
        match self.phase {
            Phase::Stopped => Directive::Ignore,
            Phase::Running => match parse(payload) {
                Ok(data) => Directive::Persist(data),
                Err(error) => Directive::Reject(error),
            },
        }
    }

    /// Takes the sink's answer for a reading. A refusal is reported and the
    /// reading dropped. No answer changes the state.
    pub fn on_persisted<E>(&self, answer: Result<(), E>) -> (report: Report<E>)
        ensures
            match answer {
                Ok(_) => report is Stored,
                Err(error) => report == Report::Dropped(error),
            },
            self@.step(Event::Persisted(answer is Ok)) == self@,
    {
        match answer {
            Ok(_) => Report::Stored,
            Err(error) => Report::Dropped(error),
        }
    }

    /// The source has ended or failed for good: the loop is stopped, and
    /// what the source ended with is what the loop ends with.
    pub fn on_source_ended<E>(&mut self, ending: Result<(), E>) -> (result: Result<(), E>)
        ensures
            final(self)@ == old(self)@.step(Event::SourceEnded),
            result == ending,
    {
        self.phase = Phase::Stopped;
        ending
    }

    /// Shutdown: the loop is stopped.
    pub fn shutdown(&mut self)
        ensures
            final(self)@ == old(self)@.step(Event::Shutdown),
    {
        self.phase = Phase::Stopped;
    }
}

/// Messages never stop the loop: after any number of messages, readings or
/// not, and of answers of the sink, good or bad, a running loop is still
/// running, and it persists the next payload that is a reading.
pub proof fn lemma_messages_never_stop_the_loop(events: Seq<Event>, next: Seq<char>)
    requires
        forall|i: int|
            0 <= i < events.len() ==> #[trigger] events[i] is Message || events[i] is Persisted,
    ensures
        Phase::Running.run(events) == Phase::Running,
        parsed(next) is Ok ==> Phase::Running.run(events).directive(next) == Ok::<
            crate::reading::Reading,
            Option<ValidationError>,
        >(parsed(next)->Ok_0),
    decreases events.len(),
{
    if events.len() > 0 {
        let rest = events.drop_first();
        assert forall|i: int| 0 <= i < rest.len() implies #[trigger] rest[i] is Message
            || rest[i] is Persisted by {
            assert(rest[i] == events[i + 1]);
        }
        assert(events[0] is Message || events[0] is Persisted);
        lemma_messages_never_stop_the_loop(rest, next);
    }
}

/// Once stopped, the loop stays stopped and takes no message.
pub proof fn lemma_stopped_is_final(events: Seq<Event>, payload: Seq<char>)
    ensures
        Phase::Stopped.run(events) == Phase::Stopped,
        Phase::Stopped.directive(payload) == Err::<
            crate::reading::Reading,
            Option<ValidationError>,
        >(None),
    decreases events.len(),
{
    if events.len() > 0 {
        lemma_stopped_is_final(events.drop_first(), payload);
    }
}

} // verus!
