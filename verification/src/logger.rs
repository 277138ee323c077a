//! The capture buffer for diagnostic records.
//!
//! The buffer itself is plain data: whoever shares it between threads puts
//! it behind a lock and calls these operations with the lock held.

use crate::logbook::{with_lines, LogBook};
use crate::text::{starts_with, with_name};
use vstd::prelude::*;
use vstd::string::*;

verus! {

/// How serious a record is.
#[derive(Clone, Copy, Debug, PartialEq, Eq)]
pub enum Level {
    Error,
    Warn,
    Info,
    Debug,
    Trace,
}

impl Level {
    /// The word that stands for the level in a captured line.
    pub open spec fn label(self) -> Seq<char> {
        match self {
            Level::Error => "ERROR"@,
            Level::Warn => "WARN"@,
            Level::Info => "INFO"@,
            Level::Debug => "DEBUG"@,
            Level::Trace => "TRACE"@,
        }
    }
}

/// The word that the `log` crate has for `level`: what `log::Level::as_str`
/// returns, which is also what a `log::Level` displays as. Nothing here
/// proves it. The contract claims the five upper-case words that `log`
/// keeps in its table of level names.
#[verifier::external_body]
fn level_label(level: Level) -> (label: String)
    ensures
        label@ == level.label(),
{
    let outside = match level {
        Level::Error => log::Level::Error,
        Level::Warn => log::Level::Warn,
        Level::Info => log::Level::Info,
        Level::Debug => log::Level::Debug,
        Level::Trace => log::Level::Trace,
    };
    outside.as_str().to_owned()
}

/// Whether records of `target` are left out of the buffer. The two
/// rendering subsystems log far more than anyone reads.
pub open spec fn is_silenced(target: Seq<char>) -> bool {
    "wgpu"@.is_prefix_of(target) || "naga"@.is_prefix_of(target)
}

/// The line that a record of `level` with `message` is captured as.
pub open spec fn log_line(level: Level, message: Seq<char>) -> Seq<char> {
    level.label() + " - "@ + message
}

/// The capture buffer: for each target the lines captured since the buffer
/// was last cleared.
pub struct ImguiLogger {
    messages: LogBook,
}

impl View for ImguiLogger {
    type V = Map<Seq<char>, Seq<Seq<char>>>;

    closed spec fn view(&self) -> Map<Seq<char>, Seq<Seq<char>>> {
        self.messages@
    }
}

impl ImguiLogger {
    /// The targets with captured lines, in the order in which they were
    /// first heard of since the buffer was last cleared.
    pub closed spec fn targets(&self) -> Seq<Seq<char>> {
        self.messages.targets()
    }

    #[verifier::type_invariant]
    closed spec fn holds_no_silenced_target(&self) -> bool {
        forall|target: Seq<char>| #[trigger] self.messages@.contains_key(target) ==> !is_silenced(target)
    }

    /// A buffer that has captured nothing.
    pub fn new() -> (logger: ImguiLogger)
        ensures
            logger@ == Map::<Seq<char>, Seq<Seq<char>>>::empty(),
            logger.targets() == Seq::<Seq<char>>::empty(),
    {
        ImguiLogger { messages: LogBook::new() }
    }

    /// Whether a record of `target` would be captured.
    pub fn enabled(&self, target: &str) -> (is_enabled: bool)
        ensures
            is_enabled == !is_silenced(target@),
    {
        !(starts_with(target, "wgpu") || starts_with(target, "naga"))
    }

    /// Captures one record: its line goes behind the lines of `target`. A
    /// record of a silenced target changes nothing.
    pub fn log(&mut self, target: &str, level: Level, message: &str)
        ensures
            is_silenced(target@) ==> final(self)@ == old(self)@ && final(self).targets() == old(
                self,
            ).targets(),
            !is_silenced(target@) ==> final(self)@ == with_lines(
                old(self)@,
                target@,
                seq![log_line(level, message@)],
            ) && final(self).targets() == with_name(old(self).targets(), target@),
    {
        proof {
            use_type_invariant(&*self);
        }
        if self.enabled(target) {
            let mut new_message = level_label(level);
            new_message.append(" - ");
            new_message.append(message);
            let mut taken = ImguiLogger::new();
            std::mem::swap(self, &mut taken);
            let mut messages = taken.messages;
            messages.append(target, new_message);
            *self = ImguiLogger { messages };
        }
    }

    /// Hands over everything captured so far and starts again with nothing.
    /// No silenced target is among what is handed over.
    pub fn clear(&mut self) -> (drained: LogBook)
        ensures
            drained@ == old(self)@,
            drained.targets() == old(self).targets(),
            final(self)@ == Map::<Seq<char>, Seq<Seq<char>>>::empty(),
            final(self).targets() == Seq::<Seq<char>>::empty(),
            forall|target: Seq<char>| is_silenced(target) ==> !drained@.contains_key(target),
    {
        proof {
            use_type_invariant(&*self);
        }
        let mut taken = ImguiLogger::new();
        std::mem::swap(self, &mut taken);
        taken.messages
    }
}

} // verus!
