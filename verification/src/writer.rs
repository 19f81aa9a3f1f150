//! The atomic writer: replaces a file's content so that an observer
//! sees either the old complete content or the new complete content,
//! never a partial write.
//!
//! The protocol writes the full content to a temporary path — the
//! target path with a fixed suffix appended, so it is never the target
//! itself — forces it to durable storage, and renames it onto the
//! target; the rename is the atomicity boundary. The application
//! makes the filesystem calls in the order [`AtomicWriter`] dictates
//! and feeds each outcome back; the protocol's effect on the
//! filesystem is proved over the model in [`crate::fs_model`].

use vstd::prelude::*;
use vstd::utf8::encode_utf8;

use crate::errors::FsError;
use crate::fs_model::{fs_create, fs_remove, fs_rename, fs_write, same_at, FsMap, FsNode};

verus! {

/// The suffix that marks a temporary file of this protocol.
pub open spec fn tmp_suffix() -> Seq<char> {
    ".tmp"@
}

/// The temporary path derived from a target path: the target with the
/// temporary suffix appended. It lies in the same directory as the
/// target, is never the target itself, and two distinct targets never
/// share it.
pub open spec fn temp_path_of(p: Seq<char>) -> Seq<char> {
    p + tmp_suffix()
}

/// Law: the derived temporary path differs from its target, for every
/// target — the protocol never creates, truncates or renames over the
/// target before the rename step.
pub proof fn lemma_temp_path_distinct(p: Seq<char>)
    ensures
        temp_path_of(p) != p,
{
    reveal_strlit(".tmp");
    assert(tmp_suffix().len() == 4);
    assert(temp_path_of(p).len() == p.len() + 4);
}

/// The temporary path the atomic-write protocol uses for a target path.
pub fn temp_path_for(path: &String) -> (r: String)
    ensures
        r@ == temp_path_of(path@),
{
    path.clone().concat(".tmp")
}

/// The phase the atomic-write protocol is in.
pub enum WritePhase {
    /// The temporary file must be created (and truncated).
    CreateTemp,
    /// The full content must be written to the temporary file.
    WriteData,
    /// The written data must be forced to durable storage.
    SyncData,
    /// The temporary file must be renamed onto the target.
    Rename,
    /// The rename failed; the temporary file must be removed
    /// (best-effort: its own failure is not reported).
    Cleanup,
    /// The target holds the new content.
    Done,
    /// The protocol aborted; the target was never touched.
    Failed,
}

/// The next filesystem call the application must make.
pub enum WriteAction {
    /// Create (or truncate) the file at the temporary path.
    CreateTemp,
    /// Write the whole content to the temporary path.
    WriteData,
    /// Force the temporary file's data to durable storage.
    SyncData,
    /// Rename the temporary path onto the target path.
    Rename,
    /// Remove the temporary file.
    RemoveTemp,
}

/// One run of the atomic-write protocol over a target path and a text
/// content.
///
/// The application asks for the next action, performs exactly that
/// filesystem call, and reports its outcome; the protocol decides how
/// to go on. Any failure before the rename aborts with the target
/// untouched; a failure of the rename itself is reported after the
/// temporary file is removed as best-effort cleanup.
pub struct AtomicWriter {
    pub target: String,
    pub temp: String,
    pub data: Vec<u8>,
    pub phase: WritePhase,
    pub failure: Option<String>,
}

impl AtomicWriter {
    /// The invariant of a protocol run: the temporary path is derived
    /// from the target, and a cause is recorded exactly from the first
    /// failure on.
    pub open spec fn wf(self) -> bool {
        &&& self.temp@ == temp_path_of(self.target@)
        &&& (self.failure is Some <==> (self.phase is Cleanup || self.phase is Failed))
    }

    /// Start a run: derive the temporary path and encode the content.
    pub fn new(path: String, content: &String) -> (w: AtomicWriter)
        ensures
            w.wf(),
            w.target@ == path@,
            w.temp@ == temp_path_of(path@),
            w.temp@ != w.target@,
            w.data@ == encode_utf8(content@),
            w.phase is CreateTemp,
    {
        proof {
            lemma_temp_path_distinct(path@);
        }
        let temp = temp_path_for(&path);
        AtomicWriter {
            target: path,
            temp,
            data: content.as_str().as_bytes_vec(),
            phase: WritePhase::CreateTemp,
            failure: None,
        }
    }

    /// The filesystem call the application must make now, or nothing
    /// when the run is over.
    pub fn next_action(&self) -> (a: Option<WriteAction>)
        ensures
            a == match self.phase {
                WritePhase::CreateTemp => Some(WriteAction::CreateTemp),
                WritePhase::WriteData => Some(WriteAction::WriteData),
                WritePhase::SyncData => Some(WriteAction::SyncData),
                WritePhase::Rename => Some(WriteAction::Rename),
                WritePhase::Cleanup => Some(WriteAction::RemoveTemp),
                WritePhase::Done => None::<WriteAction>,
                WritePhase::Failed => None::<WriteAction>,
            },
    {
        match self.phase {
            WritePhase::CreateTemp => Some(WriteAction::CreateTemp),
            WritePhase::WriteData => Some(WriteAction::WriteData),
            WritePhase::SyncData => Some(WriteAction::SyncData),
            WritePhase::Rename => Some(WriteAction::Rename),
            WritePhase::Cleanup => Some(WriteAction::RemoveTemp),
            WritePhase::Done => None,
            WritePhase::Failed => None,
        }
    }

    /// Record the outcome of the requested call and move to the next
    /// phase: forward on success, abort on an early failure, clean up
    /// after a failed rename (whose cause is kept; a cleanup failure
    /// itself is ignored).
    pub fn advance(&mut self, outcome: Result<(), String>)
        requires
            old(self).wf(),
            !(old(self).phase is Done),
            !(old(self).phase is Failed),
        ensures
            final(self).wf(),
            final(self).target == old(self).target,
            final(self).temp == old(self).temp,
            final(self).data == old(self).data,
            final(self).phase == match (old(self).phase, outcome) {
                (WritePhase::CreateTemp, Ok(())) => WritePhase::WriteData,
                (WritePhase::WriteData, Ok(())) => WritePhase::SyncData,
                (WritePhase::SyncData, Ok(())) => WritePhase::Rename,
                (WritePhase::Rename, Ok(())) => WritePhase::Done,
                (WritePhase::Rename, Err(_)) => WritePhase::Cleanup,
                (WritePhase::Cleanup, _) => WritePhase::Failed,
                (_, Err(_)) => WritePhase::Failed,
                _ => arbitrary(),
            },
            final(self).failure == match (old(self).phase, outcome) {
                (WritePhase::Cleanup, _) => old(self).failure,
                (_, Err(e)) => Some(e),
                _ => None::<String>,
            },
    {
        match self.phase {
            WritePhase::Cleanup => {
                self.phase = WritePhase::Failed;
            },
            _ => {
                match outcome {
                    Ok(()) => {
                        self.phase = match self.phase {
                            WritePhase::CreateTemp => WritePhase::WriteData,
                            WritePhase::WriteData => WritePhase::SyncData,
                            WritePhase::SyncData => WritePhase::Rename,
                            WritePhase::Rename => WritePhase::Done,
                            _ => WritePhase::Failed,
                        };
                    },
                    Err(e) => {
                        self.phase = match self.phase {
                            WritePhase::Rename => WritePhase::Cleanup,
                            _ => WritePhase::Failed,
                        };
                        self.failure = Some(e);
                    },
                }
            },
        }
    }

    /// The outcome of a finished run.
    pub fn result(&self) -> (r: Result<(), FsError>)
        requires
            self.wf(),
            self.phase is Done || self.phase is Failed,
        ensures
            r is Ok <==> self.phase is Done,
            r matches Err(e) ==> e is Io && e->Io_0@ == self.failure->0@,
    {
        match self.phase {
            WritePhase::Done => Ok(()),
            _ => {
                match &self.failure {
                    Some(cause) => Err(FsError::Io(cause.clone())),
                    None => Err(FsError::Io(String::new())),
                }
            },
        }
    }
}

/// The filesystem after the first `k` pre-rename protocol steps
/// (create, write, sync) have succeeded on the temporary path.
pub open spec fn write_steps_fs(fs: FsMap, temp: Seq<char>, data: Seq<u8>, k: int) -> FsMap {
    if k <= 0 {
        fs
    } else if k == 1 {
        fs_create(fs, temp)
    } else {
        fs_write(fs, temp, data)
    }
}

/// Law: a run interrupted anywhere before the rename — after any number
/// of completed pre-rename steps, and also after the best-effort
/// cleanup that follows a failed rename — leaves the target exactly as
/// it was, and touches no path but the temporary one.
pub proof fn lemma_interrupted_write_preserves_target(
    fs: FsMap,
    target: Seq<char>,
    data: Seq<u8>,
    k: int,
)
    ensures
        ({
            let temp = temp_path_of(target);
            &&& same_at(fs, write_steps_fs(fs, temp, data, k), target)
            &&& same_at(fs, fs_remove(write_steps_fs(fs, temp, data, k), temp), target)
            &&& forall|q: Seq<char>|
                q != temp ==> same_at(fs, write_steps_fs(fs, temp, data, k), q)
        }),
{
    lemma_temp_path_distinct(target);
}

/// Law: a run whose every step succeeded leaves the new content, whole,
/// at the target, leaves no temporary file behind, and touches no other
/// path.
pub proof fn lemma_atomic_write_success(fs: FsMap, target: Seq<char>, data: Seq<u8>)
    ensures
        ({
            let temp = temp_path_of(target);
            let done = fs_rename(write_steps_fs(fs, temp, data, 3), temp, target);
            &&& done.dom().contains(target)
            &&& done[target] == FsNode::File(data)
            &&& !done.dom().contains(temp)
            &&& forall|q: Seq<char>| q != target && q != temp ==> same_at(fs, done, q)
        }),
{
    lemma_temp_path_distinct(target);
}


/// Law: after a successful atomic write of text without null
/// characters, the target holds exactly the written bytes, and the safe
/// read of those bytes returns exactly the written text, classified as
/// text — never a partial write.
pub proof fn lemma_atomic_write_then_read(fs: FsMap, target: Seq<char>, c: Seq<char>)
    requires
        forall|i: int| 0 <= i < c.len() ==> c[i] != '\0',
    ensures
        ({
            let temp = temp_path_of(target);
            let done = fs_rename(write_steps_fs(fs, temp, encode_utf8(c), 3), temp, target);
            &&& done[target] == FsNode::File(encode_utf8(c))
            &&& crate::content::safe_read_of(done[target]->File_0) == Some((c, false))
        }),
{
    lemma_atomic_write_success(fs, target, encode_utf8(c));
    crate::content::lemma_write_read_round_trip(c);
}

} // verus!
