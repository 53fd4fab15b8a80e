//! Writing a document so that a reader never sees half of it: the bytes go
//! to a staging file, are forced to stable storage, and the staging file is
//! then renamed over the final one.
//!
//! The crate touches no file. This module fixes the order of the steps and
//! what each does to the files, so that the caller that performs them can
//! be held to it, and says what a reader finds when a write stopped early.

use vstd::prelude::*;
use crate::paths::{joined, json_extension, tmp_extension};

verus! {

/// Why a document could not be read.
#[derive(Clone, Copy, Debug, PartialEq, Eq)]
pub enum ReadError {
    /// There is no such file.
    NotFound,
    /// The file is there and could not be read.
    Unreadable,
    /// The file was read and is no document of the expected shape.
    Malformed,
}

/// A missing file is an empty document; every other failure stays one.
pub fn missing_is_empty<T>(read: Result<T, ReadError>, empty: T) -> (document: Result<T, ReadError>)
    ensures
        document == (match read {
            Ok(found) => Ok(found),
            Err(ReadError::NotFound) => Ok(empty),
            Err(error) => Err::<T, ReadError>(error),
        }),
{
    match read {
        Ok(found) => Ok(found),
        Err(ReadError::NotFound) => Ok(empty),
        Err(error) => Err(error),
    }
}

/// One step of a write.
#[derive(Clone, Copy, Debug, PartialEq, Eq)]
pub enum WriteStep {
    /// Create the staging file, or empty it where it exists.
    Create,
    /// Write all the bytes to the staging file.
    Write,
    /// Force the staging file to stable storage.
    Sync,
    /// Rename the staging file over the final file.
    Rename,
}

/// How far a write has come.
#[derive(Clone, Copy, Debug, PartialEq, Eq)]
pub enum WriteProgress {
    /// The step is to be performed next.
    Pending(WriteStep),
    /// Every step was performed.
    Done,
    /// The step failed and the write was given up. Nothing is retried and
    /// the staging file is left as it is.
    Failed(WriteStep),
}

/// The files, each path with its content.
pub type Files = Map<Seq<char>, Seq<u8>>;

/// The number of steps of a whole write.
pub open spec fn step_count() -> nat {
    4
}

/// The step with the number `index`, counted from zero.
pub open spec fn step_at(index: nat) -> WriteStep {
    if index == 0 {
        WriteStep::Create
    } else if index == 1 {
        WriteStep::Write
    } else if index == 2 {
        WriteStep::Sync
    } else {
        WriteStep::Rename
    }
}

/// The files after `step` was performed in writing `bytes`.
pub open spec fn performed(
    files: Files,
    step: WriteStep,
    path: Seq<char>,
    tmp_path: Seq<char>,
    bytes: Seq<u8>,
) -> Files {
    match step {
        WriteStep::Create => files.insert(tmp_path, Seq::empty()),
        WriteStep::Write => files.insert(tmp_path, bytes),
        WriteStep::Sync => files,
        WriteStep::Rename => files.remove(tmp_path).insert(path, files[tmp_path]),
    }
}

/// The files after the first `steps` steps of writing `bytes` were
/// performed.
pub open spec fn written(
    files: Files,
    steps: nat,
    path: Seq<char>,
    tmp_path: Seq<char>,
    bytes: Seq<u8>,
) -> Files
    decreases steps,
{
    if steps == 0 {
        files
    } else {
        performed(
            written(files, (steps - 1) as nat, path, tmp_path, bytes),
            step_at((steps - 1) as nat),
            path,
            tmp_path,
            bytes,
        )
    }
}

/// What a reader finds at `path`: the content of the file, or `None` where
/// there is no file.
pub open spec fn content(files: Files, path: Seq<char>) -> Option<Seq<u8>> {
    if files.dom().contains(path) {
        Some(files[path])
    } else {
        None
    }
}

/// Whether a reader finds the same before and after at every path but
/// `tmp_path`.
pub open spec fn same_but(before: Files, after: Files, tmp_path: Seq<char>) -> bool {
    forall|p: Seq<char>| p != tmp_path ==> content(before, p) == #[trigger] content(after, p)
}

impl WriteStep {
    /// The step after this one, if there is one.
    pub fn next(self) -> (next: Option<WriteStep>)
        ensures
            next == (match self {
                WriteStep::Create => Some(WriteStep::Write),
                WriteStep::Write => Some(WriteStep::Sync),
                WriteStep::Sync => Some(WriteStep::Rename),
                WriteStep::Rename => None::<WriteStep>,
            }),
    {
        match self {
            WriteStep::Create => Some(WriteStep::Write),
            WriteStep::Write => Some(WriteStep::Sync),
            WriteStep::Sync => Some(WriteStep::Rename),
            WriteStep::Rename => None,
        }
    }
}

impl WriteProgress {
    /// The steps that were performed when the write stands at `self`.
    pub open spec fn steps_performed(self) -> nat {
        match self {
            WriteProgress::Pending(WriteStep::Create) => 0,
            WriteProgress::Pending(WriteStep::Write) => 1,
            WriteProgress::Pending(WriteStep::Sync) => 2,
            WriteProgress::Pending(WriteStep::Rename) => 3,
            WriteProgress::Done => 4,
            WriteProgress::Failed(WriteStep::Create) => 0,
            WriteProgress::Failed(WriteStep::Write) => 1,
            WriteProgress::Failed(WriteStep::Sync) => 2,
            WriteProgress::Failed(WriteStep::Rename) => 3,
        }
    }

    /// A write of which nothing has been done yet.
    pub fn start() -> (progress: WriteProgress)
        ensures
            progress == WriteProgress::Pending(WriteStep::Create),
    {
        WriteProgress::Pending(WriteStep::Create)
    }

    /// The progress after the pending step was tried: on success the next
    /// step is pending, or the write is done; on failure the write is
    /// given up. A write that is done or given up stays so.
    pub fn advance(self, succeeded: bool) -> (progress: WriteProgress)
        ensures
            progress == (match self {
                WriteProgress::Pending(step) => if !succeeded {
                    WriteProgress::Failed(step)
                } else if step == WriteStep::Rename {
                    WriteProgress::Done
                } else {
                    WriteProgress::Pending(step_at(self.steps_performed() + 1))
                },
                _ => self,
            }),
            self is Pending && succeeded ==> progress.steps_performed() == self.steps_performed()
                + 1,
            !(self is Pending && succeeded) ==> progress.steps_performed()
                == self.steps_performed(),
    {
        match self {
            WriteProgress::Pending(step) => {
                if !succeeded {
                    WriteProgress::Failed(step)
                } else {
                    match step.next() {
                        Some(next) => WriteProgress::Pending(next),
                        None => WriteProgress::Done,
                    }
                }
            },
            WriteProgress::Done => WriteProgress::Done,
            WriteProgress::Failed(step) => WriteProgress::Failed(step),
        }
    }
}

/// The final file and the staging file of a document are two files.
pub proof fn lemma_paths_differ(dir: Seq<char>, name: Seq<char>)
    ensures
        joined(dir, name) + json_extension() != joined(dir, name) + tmp_extension(),
{
    let base = joined(dir, name);
    assert((base + json_extension()).len() == base.len() + 5);
    assert((base + tmp_extension()).len() == base.len() + 4);
}

/// No step before the rename touches any file but the staging file.
pub proof fn lemma_early_steps_touch_staging_only(
    files: Files,
    steps: nat,
    path: Seq<char>,
    tmp_path: Seq<char>,
    bytes: Seq<u8>,
)
    requires
        steps < step_count(),
    ensures
        same_but(files, written(files, steps, path, tmp_path, bytes), tmp_path),
    decreases steps,
{
    if steps > 0 {
        let earlier = written(files, (steps - 1) as nat, path, tmp_path, bytes);
        let after = written(files, steps, path, tmp_path, bytes);
        lemma_early_steps_touch_staging_only(files, (steps - 1) as nat, path, tmp_path, bytes);
        assert forall|p: Seq<char>| p != tmp_path implies content(files, p) == #[trigger] content(
            after,
            p,
        ) by {
            assert(content(files, p) == content(earlier, p));
        }
    }
}

/// Atomic write: a write that stopped before the rename was performed, at
/// whatever step, leaves the final file as it was, there or not and byte
/// for byte.
pub proof fn lemma_interrupted_write_keeps_final(
    files: Files,
    progress: WriteProgress,
    path: Seq<char>,
    tmp_path: Seq<char>,
    bytes: Seq<u8>,
)
    requires
        path != tmp_path,
        progress != WriteProgress::Done,
    ensures
        content(written(files, progress.steps_performed(), path, tmp_path, bytes), path)
            == content(files, path),
{
    lemma_early_steps_touch_staging_only(files, progress.steps_performed(), path, tmp_path, bytes);
}

/// A write that is done has put exactly the bytes into the final file,
/// taken the staging file away, and touched no other file.
pub proof fn lemma_completed_write(
    files: Files,
    path: Seq<char>,
    tmp_path: Seq<char>,
    bytes: Seq<u8>,
)
    requires
        path != tmp_path,
    ensures
        content(written(files, step_count(), path, tmp_path, bytes), path) == Some(bytes),
        content(written(files, step_count(), path, tmp_path, bytes), tmp_path) is None,
        forall|p: Seq<char>|
            p != path && p != tmp_path ==> #[trigger] content(
                written(files, step_count(), path, tmp_path, bytes),
                p,
            ) == content(files, p),
{
    reveal_with_fuel(written, 5);
}

} // verus!
