//! The decisions of a disk worker: where its store lives, what to rewrite
//! before hashing, how each file's outcome is recorded, and when the backup
//! of the store may go.

use vstd::prelude::*;

use crate::error::{Error, Errors};
use crate::progress::{ProgressUpdate, ProgressUpdateType};
use crate::store::{
    add_hash_file_line, pending, reconcile, record_line, storable_map, store_text, target_paths,
    to_hash_file_contents,
    Digest128, HashStore,
};
use crate::target::{calc_total_size, total_size, TargetFile};
use crate::text::{join, join_path, push_str};

verus! {

#[verifier::external_type_specification]
#[verifier::external_body]
pub struct ExMd5Context(md5::Context);

/// The MD5 digest of `data`.
pub uninterp spec fn md5_of(data: Seq<u8>) -> Seq<u8>;

/// A running MD5 digest over the bytes of one file.
pub struct FileHasher {
    context: md5::Context,
    consumed: Ghost<Seq<u8>>,
}

impl FileHasher {
    /// The bytes fed so far.
    pub closed spec fn consumed(&self) -> Seq<u8> {
        self.consumed@
    }

    /// Relies on `md5::Context::new`: a digest that has consumed nothing.
    #[verifier::external_body]
    fn fresh() -> (r: FileHasher)
        ensures
            r.consumed() == Seq::<u8>::empty(),
    {
        FileHasher { context: md5::Context::new(), consumed: Ghost(Seq::empty()) }
    }

    /// Relies on `md5::Context::consume`: feeds `chunk` into the digest,
    /// after the bytes fed before.
    #[verifier::external_body]
    fn consume(&mut self, chunk: &[u8])
        ensures
            final(self).consumed() == old(self).consumed() + chunk@,
    {
        self.context.consume(chunk);
    }

    /// Relies on `md5::Context::compute`: the MD5 digest of all bytes fed.
    #[verifier::external_body]
    fn compute(self) -> (r: Digest128)
        ensures
            r@ == md5_of(self.consumed()),
    {
        self.context.compute().0
    }

    /// A digest for a new file.
    pub fn new() -> (r: FileHasher)
        ensures
            r.consumed() == Seq::<u8>::empty(),
    {
        FileHasher::fresh()
    }

    /// Feeds the next chunk of the file of disk `disk_index`, and returns the
    /// progress event that reports it.
    pub fn read_chunk(&mut self, disk_index: usize, chunk: &[u8]) -> (r: ProgressUpdate)
        ensures
            final(self).consumed() == old(self).consumed() + chunk@,
            r.kind() == ProgressUpdateType::Read,
            r.index() == disk_index,
            r.spec_red_size() == chunk@.len(),
    {
        self.consume(chunk);
        ProgressUpdate::read(disk_index, chunk.len() as u64)
    }

    /// The hash of the file: the digest of all chunks fed, in order.
    pub fn finish(self) -> (r: Digest128)
        ensures
            r@ == md5_of(self.consumed()),
    {
        self.compute()
    }
}

/// The path of the store file of disk `disk_id` in `output_folder`.
pub fn store_file_path(output_folder: &str, disk_id: &str) -> (r: String)
    ensures
        r@ == join_path(output_folder@, disk_id@),
{
    join(output_folder, disk_id)
}

/// The path of the backup of the store file at `store_path`, beside it.
pub fn backup_file_path(store_path: &str) -> (r: String)
    ensures
        r@ == store_path@ + ".backup"@,
{
    let mut r = String::new();
    push_str(&mut r, store_path);
    push_str(&mut r, ".backup");
    r
}

/// What reconciliation leaves to do before hashing.
pub struct HashingPlan {
    /// The text that replaces the store file: the records of files still on disk.
    pub rewrite: String,
    /// The files to hash, in the order they were found.
    pub targets: Vec<TargetFile>,
    /// The event that announces them.
    pub announcement: ProgressUpdate,
}

/// Reconciles the loaded store of disk `disk_index` with the files found on
/// it: the text to rewrite the store with, the files still to hash, and the
/// `ListTargets` event that announces their number and total size.
pub fn plan_hashing(disk_index: usize, loaded: HashStore, found: Vec<TargetFile>) -> (r: HashingPlan)
    requires
        loaded.wf(),
    ensures
        exists|pruned: HashStore|
            {
                &&& pruned.wf()
                &&& pruned@ == loaded@.restrict(target_paths(found@))
                &&& storable_map(loaded@) ==> storable_map(pruned@)
                &&& r.rewrite@ == store_text(pruned.spec_records())
                &&& r.targets@ == pending(found@, pruned@)
            },
        r.announcement.kind() == ProgressUpdateType::ListTargets,
        r.announcement.index() == disk_index,
        r.announcement.spec_number_of_files() == r.targets.len(),
        total_size(r.targets@) <= u64::MAX ==> r.announcement.spec_total_size() == total_size(
            r.targets@,
        ),
{
    let (pruned, targets) = reconcile(loaded, found);
    let rewrite = to_hash_file_contents(&pruned);
    let total = calc_total_size(&targets);
    let announcement = ProgressUpdate::list_targets(disk_index, targets.len(), total);
    HashingPlan { rewrite, targets, announcement }
}

/// How hashing one target file went.
pub enum FileOutcome {
    /// The file could not be opened; the cause.
    OpenFailed(String),
    /// Reading the file failed part way; the cause.
    ReadFailed(String),
    /// The file was read to its end; its hash.
    Hashed(Digest128),
}

/// What to do after one target file.
pub enum FileStep {
    /// Record this error for the file and go on with the next one.
    Skip(Error),
    /// Append this line to the store file.
    Append(String),
}

/// The step after a target file of disk `disk_index` whose record key is
/// `normalized_path`, and the event that closes the file. A hashed file gets
/// its record line; a file that could not be opened or read is an error of
/// that file alone. Either way the file is closed with `Done`, so that the
/// disk waits for its next file and the worker goes on.
pub fn file_step(disk_index: usize, normalized_path: &str, outcome: FileOutcome) -> (r: (
    FileStep,
    ProgressUpdate,
))
    ensures
        outcome matches FileOutcome::Hashed(h) ==> (r.0 matches FileStep::Append(line) && line@
            == record_line(normalized_path@, h@)),
        outcome matches FileOutcome::OpenFailed(c) ==> (r.0 matches FileStep::Skip(e)
            && e.spec_message() == "the target file could not be opened"@ && e.spec_additional()
            == Some(c@)),
        outcome matches FileOutcome::ReadFailed(c) ==> (r.0 matches FileStep::Skip(e)
            && e.spec_message() == "the target file could not be read"@ && e.spec_additional()
            == Some(c@)),
        r.1.kind() == ProgressUpdateType::Done,
        r.1.index() == disk_index,
{
    let step = match outcome {
        FileOutcome::Hashed(h) => {
            let line = add_hash_file_line(String::new(), normalized_path, &h);
            assert(line@ =~= record_line(normalized_path@, h@));
            FileStep::Append(line)
        },
        FileOutcome::OpenFailed(cause) => FileStep::Skip(
            Error::new("the target file could not be opened").with(cause.as_str()),
        ),
        FileOutcome::ReadFailed(cause) => FileStep::Skip(
            Error::new("the target file could not be read").with(cause.as_str()),
        ),
    };
    (step, ProgressUpdate::done(disk_index))
}

/// The errors a worker returns when writing its store failed: the errors of
/// the files it skipped so far, then the store error, which ends the worker.
pub fn store_failed(per_file_errors: Errors, e: Error) -> (r: Errors)
    ensures
        r@ == per_file_errors@.push(e),
{
    let mut r = per_file_errors;
    r.push(e);
    r
}

/// The backup to delete once the store was rewritten: the backup, if one was
/// made, where the rewrite succeeded; none where it failed, so that the
/// backup stays for recovery.
pub fn backup_to_discard(backup: Option<String>, rewrite: &Result<(), Errors>) -> (r: Option<String>)
    ensures
        rewrite is Err ==> r is None,
        rewrite is Ok ==> r == backup,
{
    match rewrite {
        Ok(()) => backup,
        Err(_) => None,
    }
}

/// The result of a worker that hashed all its files: success, or the errors
/// of the files it had to skip.
pub fn finish_worker(per_file_errors: Errors) -> (r: Result<(), Errors>)
    ensures
        r is Ok <==> per_file_errors.len() == 0,
        r matches Err(es) ==> es == per_file_errors,
{
    if per_file_errors.len() == 0 {
        Ok(())
    } else {
        Err(per_file_errors)
    }
}

} // verus!
