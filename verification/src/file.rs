//! Files that a node brings along: bound files and rendered templates, and the
//! steps by which one of them is written out.

use vstd::prelude::*;
use crate::duplicate::Duplicate;

verus! {

/// A file to put in place: where it comes from, where it goes, what it holds
/// once loaded, and whether it is to be made executable.
#[derive(Debug, Clone, PartialEq, Eq)]
pub struct DuneFile {
    pub src: String,
    pub dst: String,
    pub content: Option<Vec<u8>>,
    pub executable: bool,
}

/// The mathematical form of a [`DuneFile`].
pub struct FileView {
    pub src: Seq<char>,
    pub dst: Seq<char>,
    pub content: Option<Seq<u8>>,
    pub executable: bool,
}

impl DeepView for DuneFile {
    type V = FileView;

    open spec fn deep_view(&self) -> FileView {
        FileView {
            src: self.src@,
            dst: self.dst@,
            content: match self.content {
                Some(bytes) => Some(bytes@),
                None => None,
            },
            executable: self.executable,
        }
    }
}

impl View for DuneFile {
    type V = FileView;

    open spec fn view(&self) -> FileView {
        self.deep_view()
    }
}

impl From<(String, String)> for DuneFile {
    /// A file from its source and its destination: not loaded, not executable.
    fn from(value: (String, String)) -> (r: Self) {
        DuneFile { src: value.0, dst: value.1, content: None, executable: false }
    }
}

impl vstd::std_specs::convert::FromSpecImpl<(String, String)> for DuneFile {
    open spec fn obeys_from_spec() -> bool {
        true
    }

    open spec fn from_spec(value: (String, String)) -> Self {
        DuneFile { src: value.0, dst: value.1, content: None, executable: false }
    }
}

impl Duplicate for DuneFile {
    fn duplicate(&self) -> (r: Self) {
        let content = match &self.content {
            Some(bytes) => {
                let copy = bytes.duplicate();
                assert(copy@ =~= copy.deep_view());
                assert(bytes@ =~= bytes.deep_view());
                Some(copy)
            },
            None => None,
        };
        DuneFile { src: self.src.clone(), dst: self.dst.clone(), content, executable: self.executable }
    }
}

/// How far the writing of one file has come.
#[derive(Clone, Copy, Debug, PartialEq, Eq, Structural)]
pub enum WritePhase {
    /// Nothing was tried yet.
    Begin,
    /// The file is being created and written; `retried` says whether this is
    /// the second attempt.
    Writing { retried: bool },
    /// The parent directory is being created.
    MakingParent,
    /// The written file is being made executable.
    Marking,
    /// Nothing is left to do.
    Finished,
}

/// What came of the action asked for last.
#[derive(Clone, Copy, Debug, PartialEq, Eq, Structural)]
pub enum WriteEvent {
    /// The action succeeded.
    Done,
    /// The file could not be created because part of its path is missing.
    NotFound,
    /// The parent directory was there already, or the path has none.
    ParentPresent,
    /// The action failed in any other way.
    Failed,
}

/// What to do next for the file.
#[derive(Clone, Copy, Debug, PartialEq, Eq, Structural)]
pub enum WriteAction {
    /// Create the file at its destination and write its content.
    Create,
    /// Create the destination's parent directory, and those above it.
    MakeParent,
    /// Make the file executable.
    MarkExecutable,
    /// Stop: the file is written, or given up.
    Stop,
}

/// The phase and the action that follow `phase` on `event`, for a file that
/// is executable or not.
pub open spec fn write_step_of(executable: bool, phase: WritePhase, event: WriteEvent) -> (
    WritePhase,
    WriteAction,
) {
    match phase {
        WritePhase::Begin => (WritePhase::Writing { retried: false }, WriteAction::Create),
        WritePhase::Writing { retried } => match event {
            WriteEvent::Done => if executable {
                (WritePhase::Marking, WriteAction::MarkExecutable)
            } else {
                (WritePhase::Finished, WriteAction::Stop)
            },
            WriteEvent::NotFound => if retried {
                (WritePhase::Finished, WriteAction::Stop)
            } else {
                (WritePhase::MakingParent, WriteAction::MakeParent)
            },
            _ => (WritePhase::Finished, WriteAction::Stop),
        },
        WritePhase::MakingParent => match event {
            WriteEvent::Done => (WritePhase::Writing { retried: true }, WriteAction::Create),
            _ => (WritePhase::Finished, WriteAction::Stop),
        },
        WritePhase::Marking => (WritePhase::Finished, WriteAction::Stop),
        WritePhase::Finished => (WritePhase::Finished, WriteAction::Stop),
    }
}

/// An upper bound on the actions still to come from `phase`.
pub open spec fn actions_left(phase: WritePhase) -> nat {
    match phase {
        WritePhase::Begin => 5,
        WritePhase::Writing { retried: false } => 4,
        WritePhase::MakingParent => 3,
        WritePhase::Writing { retried: true } => 2,
        WritePhase::Marking => 1,
        WritePhase::Finished => 0,
    }
}

/// Whatever the events, the writing of a file ends: each step but the last
/// brings the phase nearer to `Finished`, and `Stop` is asked for exactly on
/// reaching it.
pub proof fn lemma_write_ends(executable: bool, phase: WritePhase, event: WriteEvent)
    ensures
        phase != WritePhase::Finished ==> actions_left(write_step_of(executable, phase, event).0)
            < actions_left(phase),
        write_step_of(executable, phase, event).1 == WriteAction::Stop <==> write_step_of(
            executable,
            phase,
            event,
        ).0 == WritePhase::Finished,
{
}

/// The file is created once, and once more only after its parent directory
/// was missing and has been made: a second `Create` is never followed by a
/// third.
pub proof fn lemma_write_retried_once(executable: bool, event: WriteEvent, later: WriteEvent)
    ensures
        write_step_of(executable, WritePhase::Writing { retried: true }, event).1 != WriteAction::Create,
        write_step_of(executable, WritePhase::Writing { retried: true }, event).1
            != WriteAction::MakeParent,
        write_step_of(
            executable,
            write_step_of(executable, WritePhase::Writing { retried: true }, event).0,
            later,
        ).1 == WriteAction::Stop,
{
}

impl DuneFile {
    /// Takes in what reading the source gave: the bytes become the content; a
    /// failed read leaves the file as it was.
    pub fn load(&mut self, read: Option<Vec<u8>>)
        ensures
            final(self)@ == (FileView {
                content: match read {
                    Some(bytes) => Some(bytes@),
                    None => old(self)@.content,
                },
                ..old(self)@
            }),
    {
        match read {
            Some(bytes) => {
                self.content = Some(bytes);
            },
            None => {},
        }
    }

    /// The next step in writing this file out, given the phase reached and the
    /// outcome of the action asked for last. Start from `Begin`, with any event.
    pub fn write_step(&self, phase: WritePhase, event: WriteEvent) -> (r: (WritePhase, WriteAction))
        ensures
            r == write_step_of(self.executable, phase, event),
    {
        match phase {
            WritePhase::Begin => (WritePhase::Writing { retried: false }, WriteAction::Create),
            WritePhase::Writing { retried } => match event {
                WriteEvent::Done => if self.executable {
                    (WritePhase::Marking, WriteAction::MarkExecutable)
                } else {
                    (WritePhase::Finished, WriteAction::Stop)
                },
                WriteEvent::NotFound => if retried {
                    (WritePhase::Finished, WriteAction::Stop)
                } else {
                    (WritePhase::MakingParent, WriteAction::MakeParent)
                },
                _ => (WritePhase::Finished, WriteAction::Stop),
            },
            WritePhase::MakingParent => match event {
                WriteEvent::Done => (WritePhase::Writing { retried: true }, WriteAction::Create),
                _ => (WritePhase::Finished, WriteAction::Stop),
            },
            WritePhase::Marking => (WritePhase::Finished, WriteAction::Stop),
            WritePhase::Finished => (WritePhase::Finished, WriteAction::Stop),
        }
    }
}

} // verus!
