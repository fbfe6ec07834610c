//! Bucketing of the build tool's messages by severity as they arrive.
use vstd::prelude::*;
use crate::diagnostic::{Diagnostic, DiagnosticView, Level, views};

verus! {

/// One decoded record of the build tool's output.
pub enum RawMessage {
    CompilerMessage(Diagnostic),
    BuildFinished,
    Other,
    /// A record that could not be decoded: it ends the pass.
    Malformed,
}

/// What the reader of the stream does after handing a record over.
#[derive(PartialEq, Eq, Structural, Clone, Copy, Debug)]
pub enum Step {
    Continue,
    /// The first error of this pass was seen: arm the kill timer, then continue.
    ArmKillTimer,
    /// The build finished, or a record could not be decoded: stop reading.
    Stop,
}

/// Diagnostics of one or more parse passes, by severity.
pub struct Messages {
    pub internal_compiler_errors: Vec<Diagnostic>,
    pub errors: Vec<Diagnostic>,
    pub non_errors: Vec<Diagnostic>,
    pub child_killed: bool,
}

pub open spec fn all_at_level(s: Seq<DiagnosticView>, level: Level) -> bool {
    forall|i: int| 0 <= i < s.len() ==> (#[trigger] s[i]).level == level
}

pub open spec fn none_is_error(s: Seq<DiagnosticView>) -> bool {
    forall|i: int| 0 <= i < s.len() ==> !(#[trigger] s[i]).level.spec_is_error()
}

impl Messages {
    /// Each bucket holds only its own severities.
    pub open spec fn wf(&self) -> bool {
        &&& all_at_level(views(self.internal_compiler_errors@), Level::Ice)
        &&& all_at_level(views(self.errors@), Level::Error)
        &&& none_is_error(views(self.non_errors@))
    }

    pub open spec fn spec_has_errors(&self) -> bool {
        self.internal_compiler_errors@.len() > 0 || self.errors@.len() > 0
    }

    pub fn new() -> (r: Self)
        ensures
            r.wf(),
            r.internal_compiler_errors@.len() == 0,
            r.errors@.len() == 0,
            r.non_errors@.len() == 0,
            !r.child_killed,
    {
        Messages {
            internal_compiler_errors: Vec::new(),
            errors: Vec::new(),
            non_errors: Vec::new(),
            child_killed: false,
        }
    }

    pub fn child_killed(&self) -> (r: bool)
        ensures
            r == self.child_killed,
    {
        self.child_killed
    }

    pub fn has_errors(&self) -> (r: bool)
        ensures
            r == self.spec_has_errors(),
    {
        !self.errors.is_empty() || !self.internal_compiler_errors.is_empty()
    }

    /// Takes one record of the stream. A compiler message goes to the bucket of
    /// its severity; the first error of the pass asks for the kill timer when
    /// `time_limit_after_error` is positive; the end of the build, or a record
    /// that could not be decoded, stops the pass and keeps what was classified.
    pub fn accept(&mut self, message: RawMessage, time_limit_after_error: u64) -> (r: Step)
        requires
            old(self).wf(),
        ensures
            final(self).wf(),
            final(self).child_killed == old(self).child_killed,
            match message {
                RawMessage::CompilerMessage(d) => {
                    &&& d.level == Level::Ice ==> final(self).internal_compiler_errors@ == old(self).internal_compiler_errors@.push(d)
                    &&& d.level != Level::Ice ==> final(self).internal_compiler_errors@ == old(self).internal_compiler_errors@
                    &&& d.level == Level::Error ==> final(self).errors@ == old(self).errors@.push(d)
                    &&& d.level != Level::Error ==> final(self).errors@ == old(self).errors@
                    &&& !d.level.spec_is_error() ==> final(self).non_errors@ == old(self).non_errors@.push(d)
                    &&& d.level.spec_is_error() ==> final(self).non_errors@ == old(self).non_errors@
                    &&& r == if !old(self).spec_has_errors() && d.level.spec_is_error() && time_limit_after_error > 0 {
                        Step::ArmKillTimer
                    } else {
                        Step::Continue
                    }
                },
                RawMessage::BuildFinished => {
                    &&& r == Step::Stop
                    &&& *final(self) == *old(self)
                },
                RawMessage::Other => {
                    &&& r == Step::Continue
                    &&& *final(self) == *old(self)
                },
                RawMessage::Malformed => {
                    &&& r == Step::Stop
                    &&& *final(self) == *old(self)
                },
            },
    {
        match message {
            RawMessage::CompilerMessage(d) => {
                let had_errors = self.has_errors();
                let ghost dv = d@;
                let is_error = d.level.is_error();
                match d.level {
                    Level::Ice => self.internal_compiler_errors.push(d),
                    Level::Error => self.errors.push(d),
                    _ => self.non_errors.push(d),
                }
                proof {
                    assert(views(self.internal_compiler_errors@) =~= if dv.level == Level::Ice {
                        views(old(self).internal_compiler_errors@).push(dv)
                    } else {
                        views(old(self).internal_compiler_errors@)
                    });
                    assert(views(self.errors@) =~= if dv.level == Level::Error {
                        views(old(self).errors@).push(dv)
                    } else {
                        views(old(self).errors@)
                    });
                    assert(views(self.non_errors@) =~= if !dv.level.spec_is_error() {
                        views(old(self).non_errors@).push(dv)
                    } else {
                        views(old(self).non_errors@)
                    });
                }
                if !had_errors && is_error && time_limit_after_error > 0 {
                    Step::ArmKillTimer
                } else {
                    Step::Continue
                }
            },
            RawMessage::BuildFinished => Step::Stop,
            RawMessage::Other => Step::Continue,
            RawMessage::Malformed => Step::Stop,
        }
    }

    /// Ends a pass: the child counts as killed when the supervisor's final state says so.
    pub fn finish_pass(&mut self, killed: bool)
        ensures
            final(self).internal_compiler_errors@ == old(self).internal_compiler_errors@,
            final(self).errors@ == old(self).errors@,
            final(self).non_errors@ == old(self).non_errors@,
            final(self).child_killed == killed,
    {
        self.child_killed = killed;
    }

    /// Adds the diagnostics of a later pass after those of this one.
    pub fn merge(&mut self, other: Self)
        requires
            old(self).wf(),
            other.wf(),
        ensures
            final(self).wf(),
            final(self).internal_compiler_errors@ == old(self).internal_compiler_errors@ + other.internal_compiler_errors@,
            final(self).errors@ == old(self).errors@ + other.errors@,
            final(self).non_errors@ == old(self).non_errors@ + other.non_errors@,
            final(self).child_killed == (old(self).child_killed || other.child_killed),
    {
        let mut other = other;
        let ghost (oi, oe, on) = (other.internal_compiler_errors@, other.errors@, other.non_errors@);
        self.internal_compiler_errors.append(&mut other.internal_compiler_errors);
        self.errors.append(&mut other.errors);
        self.non_errors.append(&mut other.non_errors);
        self.child_killed = self.child_killed || other.child_killed;
        assert(views(self.internal_compiler_errors@) =~= views(old(self).internal_compiler_errors@) + views(oi));
        assert(views(self.errors@) =~= views(old(self).errors@) + views(oe));
        assert(views(self.non_errors@) =~= views(old(self).non_errors@) + views(on));
    }
}

} // verus!
