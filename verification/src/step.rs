//! The course of one campaign step: connect its instrument, then query it
//! `repeat` times, judging the measurements of every reply. The caller does
//! the I/O and reports each outcome here; this decides what comes next and
//! the step's status.
use vstd::prelude::*;
use crate::text::push_str;

verus! {

/// The query sent when a step names no command.
pub open spec fn default_command() -> Seq<char> {
    "*IDN?"@
}

/// A step in progress.
pub struct StepRun {
    command: String,
    repeat: u32,
    queries: u32,
    failed: bool,
    error: Option<String>,
    finished: bool,
}

impl StepRun {
    pub closed spec fn spec_command(&self) -> Seq<char> {
        self.command@
    }

    pub closed spec fn spec_repeat(&self) -> u32 {
        self.repeat
    }

    /// The number of queries handed out so far.
    pub closed spec fn spec_queries(&self) -> u32 {
        self.queries
    }

    pub closed spec fn spec_failed(&self) -> bool {
        self.failed
    }

    pub closed spec fn spec_error(&self) -> Option<Seq<char>> {
        match self.error {
            Some(e) => Some(e@),
            None => None,
        }
    }

    /// No further query will be handed out.
    pub closed spec fn spec_finished(&self) -> bool {
        self.finished
    }

    /// A step that sends `command` (`*IDN?` when it names none) `repeat`
    /// times; it has not failed yet.
    pub fn new(command: Option<&str>, repeat: u32) -> (s: Self)
        ensures
            s.spec_command() == match command {
                Some(c) => c@,
                None => default_command(),
            },
            s.spec_repeat() == repeat,
            s.spec_queries() == 0,
            !s.spec_failed(),
            s.spec_error() is None,
            !s.spec_finished(),
    {
        let mut c = String::new();
        match command {
            Some(t) => push_str(&mut c, t),
            None => push_str(&mut c, "*IDN?"),
        }
        StepRun { command: c, repeat, queries: 0, failed: false, error: None, finished: false }
    }

    /// The instrument could not be connected: the step fails with `error`
    /// and sends nothing.
    pub fn on_connect_failed(&mut self, error: String)
        ensures
            final(self).spec_failed(),
            final(self).spec_error() == Some(error@),
            final(self).spec_finished(),
            final(self).spec_queries() == old(self).spec_queries(),
            final(self).spec_command() == old(self).spec_command(),
            final(self).spec_repeat() == old(self).spec_repeat(),
    {
        self.failed = true;
        self.error = Some(error);
        self.finished = true;
    }

    /// The next query to send, or `None` once `repeat` queries went out or
    /// the step has finished.
    pub fn next_query(&mut self) -> (q: Option<String>)
        ensures
            !old(self).spec_finished() && old(self).spec_queries() < old(self).spec_repeat() ==> {
                &&& q matches Some(c) && c@ == old(self).spec_command()
                &&& final(self).spec_queries() == old(self).spec_queries() + 1
                &&& !final(self).spec_finished()
            },
            !(!old(self).spec_finished() && old(self).spec_queries() < old(self).spec_repeat())
                ==> {
                &&& q is None
                &&& final(self).spec_queries() == old(self).spec_queries()
                &&& final(self).spec_finished()
            },
            final(self).spec_failed() == old(self).spec_failed(),
            final(self).spec_error() == old(self).spec_error(),
            final(self).spec_command() == old(self).spec_command(),
            final(self).spec_repeat() == old(self).spec_repeat(),
    {
        if !self.finished && self.queries < self.repeat {
            self.queries = self.queries + 1;
            Some(self.command.clone())
        } else {
            self.finished = true;
            None
        }
    }

    /// A query went unanswered: the step fails with `error` and stops.
    pub fn on_query_failed(&mut self, error: String)
        ensures
            final(self).spec_failed(),
            final(self).spec_error() == Some(error@),
            final(self).spec_finished(),
            final(self).spec_queries() == old(self).spec_queries(),
            final(self).spec_command() == old(self).spec_command(),
            final(self).spec_repeat() == old(self).spec_repeat(),
    {
        self.failed = true;
        self.error = Some(error);
        self.finished = true;
    }

    /// A measurement of a reply was judged; a failed one fails the step.
    pub fn on_verdict(&mut self, failed: bool)
        ensures
            final(self).spec_failed() == (old(self).spec_failed() || failed),
            final(self).spec_error() == old(self).spec_error(),
            final(self).spec_finished() == old(self).spec_finished(),
            final(self).spec_queries() == old(self).spec_queries(),
            final(self).spec_command() == old(self).spec_command(),
            final(self).spec_repeat() == old(self).spec_repeat(),
    {
        if failed {
            self.failed = true;
        }
    }

    /// Whether the step failed.
    pub fn failed(&self) -> (r: bool)
        ensures
            r == self.spec_failed(),
    {
        self.failed
    }

    /// Why the step stopped early, if it did.
    pub fn error(&self) -> (r: Option<&String>)
        ensures
            match r {
                Some(e) => self.spec_error() == Some(e@),
                None => self.spec_error() is None,
            },
    {
        match &self.error {
            Some(e) => Some(e),
            None => None,
        }
    }
}

} // verus!
