//! Progress aggregation: the events that disk workers send, the state machine
//! that the aggregator keeps for each disk, and the status line it renders.

use vstd::prelude::*;

use crate::error::{Error, Errors};
use crate::text::{decimal, pad_left, push_aligned, push_char, push_decimal, push_padded, push_str};

verus! {

/// The kind of a progress event.
#[derive(Clone, Copy, Debug, PartialEq, Eq, Structural)]
pub enum ProgressUpdateType {
    Init,
    ListTargets,
    NewFile,
    Read,
    Done,
}

/// Where a disk stands in the protocol that its worker follows.
#[derive(Clone, Copy, Debug, PartialEq, Eq, Structural)]
pub enum DiskProgressStatus {
    /// Nothing received yet.
    New,
    /// The disk id is known.
    Initialized,
    /// Waiting for the next file, at the start or after a file was done.
    WaitNewFile,
    /// A file is being hashed.
    Calculating,
}

/// Whether a disk in status `st` accepts an event of kind `k`.
pub open spec fn accepts(st: DiskProgressStatus, k: ProgressUpdateType) -> bool {
    match st {
        DiskProgressStatus::New => k == ProgressUpdateType::Init,
        DiskProgressStatus::Initialized => k == ProgressUpdateType::ListTargets,
        DiskProgressStatus::WaitNewFile => k == ProgressUpdateType::NewFile,
        DiskProgressStatus::Calculating => k == ProgressUpdateType::Read || k
            == ProgressUpdateType::Done,
    }
}

/// The status after an accepted event of kind `k`.
pub open spec fn next_status(st: DiskProgressStatus, k: ProgressUpdateType) -> DiskProgressStatus {
    match k {
        ProgressUpdateType::Init => DiskProgressStatus::Initialized,
        ProgressUpdateType::ListTargets => DiskProgressStatus::WaitNewFile,
        ProgressUpdateType::NewFile => DiskProgressStatus::Calculating,
        ProgressUpdateType::Read => st,
        ProgressUpdateType::Done => DiskProgressStatus::WaitNewFile,
    }
}

/// One step of a disk's state machine; `None` is a protocol violation.
pub open spec fn step(st: DiskProgressStatus, k: ProgressUpdateType) -> Option<DiskProgressStatus> {
    if accepts(st, k) {
        Some(next_status(st, k))
    } else {
        None
    }
}

/// The name of a status, as error messages show it.
pub open spec fn status_name(st: DiskProgressStatus) -> Seq<char> {
    match st {
        DiskProgressStatus::New => "New"@,
        DiskProgressStatus::Initialized => "Initialized"@,
        DiskProgressStatus::WaitNewFile => "WaitNewFile"@,
        DiskProgressStatus::Calculating => "Calculating"@,
    }
}

/// The name of an event kind, as error messages show it.
pub open spec fn kind_name(k: ProgressUpdateType) -> Seq<char> {
    match k {
        ProgressUpdateType::Init => "Init"@,
        ProgressUpdateType::ListTargets => "ListTargets"@,
        ProgressUpdateType::NewFile => "NewFile"@,
        ProgressUpdateType::Read => "Read"@,
        ProgressUpdateType::Done => "Done"@,
    }
}

impl ProgressUpdateType {
    /// The name of this kind.
    pub fn name(&self) -> (r: &'static str)
        ensures
            r@ == kind_name(*self),
    {
        match self {
            ProgressUpdateType::Init => "Init",
            ProgressUpdateType::ListTargets => "ListTargets",
            ProgressUpdateType::NewFile => "NewFile",
            ProgressUpdateType::Read => "Read",
            ProgressUpdateType::Done => "Done",
        }
    }
}

/// The message of a protocol violation.
pub open spec fn violation_message(st: DiskProgressStatus, k: ProgressUpdateType) -> Seq<char> {
    "unexpected progress update: status="@ + status_name(st) + " message_type="@ + kind_name(k)
}

impl DiskProgressStatus {
    /// The name of this status.
    pub fn name(&self) -> (r: &'static str)
        ensures
            r@ == status_name(*self),
    {
        match self {
            DiskProgressStatus::New => "New",
            DiskProgressStatus::Initialized => "Initialized",
            DiskProgressStatus::WaitNewFile => "WaitNewFile",
            DiskProgressStatus::Calculating => "Calculating",
        }
    }

    /// Checks that a disk in this status accepts an event of kind `message_type`.
    pub fn check_status(&self, message_type: &ProgressUpdateType) -> (r: Result<(), Errors>)
        ensures
            r is Ok <==> accepts(*self, *message_type),
            r matches Err(es) ==> es.len() == 1 && es[0].spec_message() == violation_message(
                *self,
                *message_type,
            ),
    {
        let ok = match self {
            DiskProgressStatus::Calculating => *message_type == ProgressUpdateType::Read
                || *message_type == ProgressUpdateType::Done,
            DiskProgressStatus::New => *message_type == ProgressUpdateType::Init,
            DiskProgressStatus::Initialized => *message_type == ProgressUpdateType::ListTargets,
            DiskProgressStatus::WaitNewFile => *message_type == ProgressUpdateType::NewFile,
        };
        if ok {
            Ok(())
        } else {
            self.status_errors(message_type)
        }
    }

    /// The error that reports an event of kind `message_type` in this status.
    pub fn status_errors(&self, message_type: &ProgressUpdateType) -> (r: Result<(), Errors>)
        ensures
            r matches Err(es) && es.len() == 1 && es[0].spec_message() == violation_message(
                *self,
                *message_type,
            ),
    {
        let mut message = String::new();
        push_str(&mut message, "unexpected progress update: status=");
        push_str(&mut message, self.name());
        push_str(&mut message, " message_type=");
        push_str(&mut message, message_type.name());
        Err(Error::new(message.as_str()).as_errors())
    }
}

/// A progress event that a disk worker sends.
pub struct ProgressUpdate {
    message_type: ProgressUpdateType,
    disk_index: usize,
    disk_id: Option<String>,
    number_of_files: usize,
    total_size: u64,
    file_path: Option<String>,
    red_size: u64,
}

impl ProgressUpdate {
    pub closed spec fn kind(&self) -> ProgressUpdateType {
        self.message_type
    }

    pub closed spec fn index(&self) -> nat {
        self.disk_index as nat
    }

    pub closed spec fn spec_disk_id(&self) -> Option<Seq<char>> {
        match self.disk_id {
            Some(s) => Some(s@),
            None => None,
        }
    }

    pub closed spec fn spec_number_of_files(&self) -> usize {
        self.number_of_files
    }

    pub closed spec fn spec_total_size(&self) -> u64 {
        self.total_size
    }

    pub closed spec fn spec_file_path(&self) -> Option<Seq<char>> {
        match self.file_path {
            Some(s) => Some(s@),
            None => None,
        }
    }

    pub closed spec fn spec_red_size(&self) -> u64 {
        self.red_size
    }

    /// The disk `disk_index` has started; its id is `disk_id`.
    pub fn init(disk_index: usize, disk_id: String) -> (r: ProgressUpdate)
        ensures
            r.kind() == ProgressUpdateType::Init,
            r.index() == disk_index,
            r.spec_disk_id() == Some(disk_id@),
            r.spec_number_of_files() == 0,
            r.spec_total_size() == 0,
            r.spec_file_path() is None,
            r.spec_red_size() == 0,
    {
        ProgressUpdate {
            message_type: ProgressUpdateType::Init,
            disk_index,
            disk_id: Some(disk_id),
            number_of_files: 0,
            total_size: 0,
            file_path: None,
            red_size: 0,
        }
    }

    /// The disk `disk_index` has `number_of_files` files to hash, of `total_size` bytes.
    pub fn list_targets(disk_index: usize, number_of_files: usize, total_size: u64) -> (r:
        ProgressUpdate)
        ensures
            r.kind() == ProgressUpdateType::ListTargets,
            r.index() == disk_index,
            r.spec_number_of_files() == number_of_files,
            r.spec_total_size() == total_size,
            r.spec_disk_id() is None,
            r.spec_file_path() is None,
            r.spec_red_size() == 0,
    {
        ProgressUpdate {
            message_type: ProgressUpdateType::ListTargets,
            disk_index,
            disk_id: None,
            number_of_files,
            total_size,
            file_path: None,
            red_size: 0,
        }
    }

    /// The disk `disk_index` starts hashing the file `filepath`.
    pub fn new_file(disk_index: usize, filepath: String) -> (r: ProgressUpdate)
        ensures
            r.kind() == ProgressUpdateType::NewFile,
            r.index() == disk_index,
            r.spec_file_path() == Some(filepath@),
            r.spec_disk_id() is None,
            r.spec_number_of_files() == 0,
            r.spec_total_size() == 0,
            r.spec_red_size() == 0,
    {
        ProgressUpdate {
            message_type: ProgressUpdateType::NewFile,
            disk_index,
            disk_id: None,
            number_of_files: 0,
            total_size: 0,
            file_path: Some(filepath),
            red_size: 0,
        }
    }

    /// The disk `disk_index` has read `red_size` more bytes of its current file.
    pub fn read(disk_index: usize, red_size: u64) -> (r: ProgressUpdate)
        ensures
            r.kind() == ProgressUpdateType::Read,
            r.index() == disk_index,
            r.spec_red_size() == red_size,
            r.spec_disk_id() is None,
            r.spec_file_path() is None,
            r.spec_number_of_files() == 0,
            r.spec_total_size() == 0,
    {
        ProgressUpdate {
            message_type: ProgressUpdateType::Read,
            disk_index,
            disk_id: None,
            number_of_files: 0,
            total_size: 0,
            file_path: None,
            red_size,
        }
    }

    /// The disk `disk_index` has finished its current file.
    pub fn done(disk_index: usize) -> (r: ProgressUpdate)
        ensures
            r.kind() == ProgressUpdateType::Done,
            r.index() == disk_index,
            r.spec_disk_id() is None,
            r.spec_file_path() is None,
            r.spec_number_of_files() == 0,
            r.spec_total_size() == 0,
            r.spec_red_size() == 0,
    {
        ProgressUpdate {
            message_type: ProgressUpdateType::Done,
            disk_index,
            disk_id: None,
            number_of_files: 0,
            total_size: 0,
            file_path: None,
            red_size: 0,
        }
    }

    /// The kind of this event.
    pub fn message_type(&self) -> (r: ProgressUpdateType)
        ensures
            r == self.kind(),
    {
        self.message_type
    }

    /// The index of the disk that sent this event.
    pub fn disk_index(&self) -> (r: usize)
        ensures
            r == self.index(),
    {
        self.disk_index
    }
}

/// What the aggregator knows of one disk, as the contracts see it.
pub struct DiskProgressView {
    pub status: DiskProgressStatus,
    pub disk_id: Option<Seq<char>>,
    pub number_of_files: nat,
    pub number_of_done_files: nat,
    pub total_size: nat,
    pub red_size: nat,
    pub current_file: Option<Seq<char>>,
}

/// A disk of which nothing was received yet.
pub open spec fn empty_view() -> DiskProgressView {
    DiskProgressView {
        status: DiskProgressStatus::New,
        disk_id: None,
        number_of_files: 0,
        number_of_done_files: 0,
        total_size: 0,
        red_size: 0,
        current_file: None,
    }
}

/// `a + b`, or `max` where the sum exceeds it.
pub open spec fn saturating(a: nat, b: nat, max: nat) -> nat {
    if a + b <= max {
        a + b
    } else {
        max
    }
}

/// The record of a disk after it accepted `u`.
pub open spec fn applied(d: DiskProgressView, u: ProgressUpdate) -> DiskProgressView {
    match u.kind() {
        ProgressUpdateType::Init => DiskProgressView {
            status: DiskProgressStatus::Initialized,
            disk_id: u.spec_disk_id(),
            ..d
        },
        ProgressUpdateType::ListTargets => DiskProgressView {
            status: DiskProgressStatus::WaitNewFile,
            number_of_files: u.spec_number_of_files() as nat,
            total_size: u.spec_total_size() as nat,
            ..d
        },
        ProgressUpdateType::NewFile => DiskProgressView {
            status: DiskProgressStatus::Calculating,
            current_file: u.spec_file_path(),
            ..d
        },
        ProgressUpdateType::Read => DiskProgressView {
            red_size: saturating(d.red_size, u.spec_red_size() as nat, u64::MAX as nat),
            ..d
        },
        ProgressUpdateType::Done => DiskProgressView {
            status: DiskProgressStatus::WaitNewFile,
            number_of_done_files: saturating(d.number_of_done_files, 1, usize::MAX as nat),
            ..d
        },
    }
}

/// What the aggregator knows of one disk.
pub struct DiskProgress {
    pub status: DiskProgressStatus,
    pub disk_id: Option<String>,
    pub number_of_files: usize,
    pub number_of_done_files: usize,
    pub total_size: u64,
    pub red_size: u64,
    pub current_file: Option<String>,
}

pub open spec fn opt_view(o: Option<String>) -> Option<Seq<char>> {
    match o {
        Some(s) => Some(s@),
        None => None,
    }
}

impl View for DiskProgress {
    type V = DiskProgressView;

    open spec fn view(&self) -> DiskProgressView {
        DiskProgressView {
            status: self.status,
            disk_id: opt_view(self.disk_id),
            number_of_files: self.number_of_files as nat,
            number_of_done_files: self.number_of_done_files as nat,
            total_size: self.total_size as nat,
            red_size: self.red_size as nat,
            current_file: opt_view(self.current_file),
        }
    }
}

impl DiskProgress {
    /// A disk of which nothing was received yet.
    pub fn empty_instance() -> (r: DiskProgress)
        ensures
            r@ == empty_view(),
    {
        DiskProgress {
            status: DiskProgressStatus::New,
            disk_id: None,
            number_of_files: 0,
            number_of_done_files: 0,
            total_size: 0,
            red_size: 0,
            current_file: None,
        }
    }

    /// Applies an event that this disk's status accepts. Byte and file counts
    /// stop at the largest value of their type.
    pub fn update_by(&mut self, update_info: ProgressUpdate)
        ensures
            final(self)@ == applied(old(self)@, update_info),
    {
        let ghost u = update_info;
        match update_info.message_type {
            ProgressUpdateType::Init => {
                self.status = DiskProgressStatus::Initialized;
                self.disk_id = update_info.disk_id;
            },
            ProgressUpdateType::ListTargets => {
                self.status = DiskProgressStatus::WaitNewFile;
                self.number_of_files = update_info.number_of_files;
                self.total_size = update_info.total_size;
            },
            ProgressUpdateType::NewFile => {
                self.status = DiskProgressStatus::Calculating;
                self.current_file = update_info.file_path;
            },
            ProgressUpdateType::Read => {
                if self.red_size <= u64::MAX - update_info.red_size {
                    self.red_size = self.red_size + update_info.red_size;
                } else {
                    self.red_size = u64::MAX;
                }
            },
            ProgressUpdateType::Done => {
                self.status = DiskProgressStatus::WaitNewFile;
                if self.number_of_done_files < usize::MAX {
                    self.number_of_done_files = self.number_of_done_files + 1;
                }
            },
        }
        assert(self@ == applied(old(self)@, u));
    }
}

/// `ds`, extended with empty records so that it has an entry at `index`.
pub open spec fn grown(ds: Seq<DiskProgressView>, index: nat) -> Seq<DiskProgressView> {
    if index < ds.len() {
        ds
    } else {
        ds + Seq::new((index + 1 - ds.len()) as nat, |i: int| empty_view())
    }
}

/// The records of all disks seen so far, by disk index.
pub struct ProgressSummary {
    disk_progresses: Vec<DiskProgress>,
}

impl View for ProgressSummary {
    type V = Seq<DiskProgressView>;

    closed spec fn view(&self) -> Seq<DiskProgressView> {
        self.disk_progresses@.map_values(|d: DiskProgress| d@)
    }
}

impl ProgressSummary {
    /// A summary with no disk.
    pub fn new() -> (r: ProgressSummary)
        ensures
            r@ == Seq::<DiskProgressView>::empty(),
    {
        let r = ProgressSummary { disk_progresses: Vec::new() };
        assert(r@ =~= Seq::<DiskProgressView>::empty());
        r
    }

    /// The record of disk `index`, created (with any missing ones before it)
    /// where it does not exist yet.
    pub fn get_disk_progress(&mut self, index: usize) -> (r: &mut DiskProgress)
        ensures
            r@ == grown(old(self)@, index as nat)[index as int],
            final(self)@ == grown(old(self)@, index as nat).update(index as int, final(r)@),
    {
        let ghost start = self@;
        while self.disk_progresses.len() <= index
            invariant
                start == old(self)@,
                start.len() <= self@.len() <= grown(start, index as nat).len(),
                self@ =~= grown(start, index as nat).take(self@.len() as int),
            decreases index + 1 - self.disk_progresses.len(),
        {
            self.disk_progresses.push(DiskProgress::empty_instance());
        }
        assert(self@ =~= grown(start, index as nat));
        &mut self.disk_progresses[index]
    }

    /// Applies `update_info` to the record of its disk. An event that the
    /// disk's status does not accept is a protocol violation and is refused.
    pub fn update(&mut self, update_info: ProgressUpdate) -> (r: Result<(), Errors>)
        ensures
            ({
                let g = grown(old(self)@, update_info.index());
                let d = g[update_info.index() as int];
                &&& r is Ok <==> accepts(d.status, update_info.kind())
                &&& r is Ok ==> final(self)@ == g.update(
                    update_info.index() as int,
                    applied(d, update_info),
                )
                &&& r is Err ==> final(self)@ == g
                &&& r matches Err(es) ==> es.len() == 1 && es[0].spec_message()
                    == violation_message(d.status, update_info.kind())
            }),
            ({
                let next = summary_step(
                    statuses_of(old(self)@),
                    update_info.index(),
                    update_info.kind(),
                );
                &&& r is Ok <==> next is Some
                &&& r is Ok ==> Some(statuses_of(final(self)@)) == next
            }),
    {
        let ghost u = update_info;
        let ghost idx = update_info.index();
        let disk_progress = self.get_disk_progress(update_info.disk_index);
        let checked = disk_progress.status.check_status(&update_info.message_type);
        proof {
            let g = grown(old(self)@, idx);
            assert(statuses_of(g) =~= grown_status(statuses_of(old(self)@), idx));
        }
        match checked {
            Err(es) => Err(es),
            Ok(()) => {
                disk_progress.update_by(update_info);
                proof {
                    let g = grown(old(self)@, idx);
                    let d = g[idx as int];
                    assert(applied(d, u).status == next_status(d.status, u.kind()));
                    assert(statuses_of(g.update(idx as int, applied(d, u))) =~= grown_status(
                        statuses_of(old(self)@),
                        idx,
                    ).update(idx as int, next_status(d.status, u.kind())));
                }
                Ok(())
            },
        }
    }

    /// The record of disk `index`, if that disk was seen.
    pub fn disk(&self, index: usize) -> (r: Option<&DiskProgress>)
        ensures
            index < self@.len() ==> (r matches Some(d) && d@ == self@[index as int]),
            index >= self@.len() ==> r is None,
    {
        if index < self.disk_progresses.len() {
            Some(&self.disk_progresses[index])
        } else {
            None
        }
    }

    /// Applies `updates` in order, stopping at the first that is refused.
    pub fn update_all(&mut self, updates: Vec<ProgressUpdate>) -> (r: Result<(), Errors>)
        ensures
            r is Ok <==> summary_run_from(statuses_of(old(self)@), events_of(updates@)) is Some,
            r is Ok ==> Some(statuses_of(final(self)@)) == summary_run_from(
                statuses_of(old(self)@),
                events_of(updates@),
            ),
    {
        let ghost start = statuses_of(self@);
        let ghost evs = events_of(updates@);
        assert(evs.take(0) =~= Seq::<(nat, ProgressUpdateType)>::empty());
        for u in it: updates
            invariant
                it.seq() == updates@,
                evs == events_of(updates@),
                start == statuses_of(old(self)@),
                summary_run_from(start, evs.take(it.index() as int)) == Some(statuses_of(self@)),
        {
            let ghost k = it.index() as int;
            assert(evs.take(k + 1).drop_last() == evs.take(k));
            assert(updates@[k] == u);
            assert(evs.take(k + 1).last() == (u.index(), u.kind()));
            let ghost before = statuses_of(self@);
            match self.update(u) {
                Ok(()) => {},
                Err(es) => {
                    proof {
                        assert(summary_step(before, u.index(), u.kind()) is None);
                        assert(summary_run_from(start, evs.take(k + 1)) is None);
                        lemma_summary_prefix(start, evs, k + 1);
                    }
                    return Err(es);
                },
            }
        }
        assert(evs.take(evs.len() as int) == evs);
        Ok(())
    }

    /// The number of disks seen so far.
    pub fn len(&self) -> (r: usize)
        ensures
            r == self@.len(),
    {
        self.disk_progresses.len()
    }
}

// ---------------------------------------------------------------------------
// The status line

/// Hundredths of a percent of `red` over `total`, rounded half up.
pub open spec fn percent_hundredths(red: nat, total: nat) -> nat
    recommends
        total > 0,
{
    (red * 20000 + total) / (2 * total)
}

/// The completion percentage of a disk with two decimals in six columns, or
/// `  -.--` before its file list is known or where it has no bytes to hash.
pub open spec fn percent_text(d: DiskProgressView) -> Seq<char> {
    if (d.status == DiskProgressStatus::WaitNewFile || d.status == DiskProgressStatus::Calculating)
        && d.total_size > 0 {
        let h = percent_hundredths(d.red_size, d.total_size);
        pad_left(decimal(h / 100) + seq!['.'] + pad_left(decimal(h % 100), 2, '0'), 6, ' ')
    } else {
        "  -.--"@
    }
}

/// The seconds a disk still needs, extrapolated linearly from the `elapsed`
/// seconds and the share of bytes read; unknown before any byte was read or
/// where there are no bytes to read.
pub open spec fn remaining_seconds(d: DiskProgressView, elapsed: nat) -> Option<nat> {
    if d.red_size > 0 && d.total_size > 0 {
        if d.total_size > d.red_size {
            Some((elapsed * (d.total_size - d.red_size) as nat / d.red_size) as nat)
        } else {
            Some(0)
        }
    } else {
        None
    }
}

/// `h:mm:ss`, the hours right-aligned in three columns.
pub open spec fn hms_text(s: nat) -> Seq<char> {
    pad_left(decimal(s / 3600), 3, ' ') + seq![':'] + pad_left(decimal(s / 60 % 60), 2, '0') + seq![
        ':',
    ] + pad_left(decimal(s % 60), 2, '0')
}

/// The remaining time of a disk, or `  -:--:--` where it is unknown.
pub open spec fn remaining_text(d: DiskProgressView, elapsed: nat) -> Seq<char> {
    match remaining_seconds(d, elapsed) {
        Some(s) => hms_text(s),
        None => "  -:--:--"@,
    }
}

pub open spec fn id_text(d: DiskProgressView) -> Seq<char> {
    match d.disk_id {
        Some(id) => id,
        None => Seq::empty(),
    }
}

/// The files to hash, or `-----` before the file list is known.
pub open spec fn files_text(d: DiskProgressView) -> Seq<char> {
    if d.status == DiskProgressStatus::Initialized {
        "-----"@
    } else {
        pad_left(decimal(d.number_of_files), 5, ' ')
    }
}

/// A space and the file being hashed, if any.
pub open spec fn current_text(d: DiskProgressView) -> Seq<char> {
    match d.current_file {
        Some(p) => seq![' '] + p,
        None => Seq::empty(),
    }
}

/// The status line for a run with one disk: id, files done / files to hash,
/// percentage, remaining time, and the file being hashed.
pub open spec fn single_line(d: DiskProgressView, elapsed: nat) -> Seq<char> {
    id_text(d) + seq![' '] + pad_left(decimal(d.number_of_done_files), 5, ' ') + seq!['/']
        + files_text(d) + seq![' '] + percent_text(d) + seq!['%', ' '] + remaining_text(d, elapsed)
        + current_text(d)
}

/// For each disk that has left `New`: its id and percentage, separated by ` / `.
pub open spec fn multi_entries(ds: Seq<DiskProgressView>) -> Seq<char>
    decreases ds.len(),
{
    if ds.len() == 0 {
        Seq::empty()
    } else {
        let prev = multi_entries(ds.drop_last());
        let d = ds.last();
        if d.status == DiskProgressStatus::New {
            prev
        } else {
            (if prev.len() > 0 {
                prev + " / "@
            } else {
                prev
            }) + id_text(d) + seq![' '] + percent_text(d) + seq!['%']
        }
    }
}

/// The largest known remaining time among the disks of `ds`.
pub open spec fn max_remaining(ds: Seq<DiskProgressView>, elapsed: nat) -> Option<nat>
    decreases ds.len(),
{
    if ds.len() == 0 {
        None
    } else {
        let prev = max_remaining(ds.drop_last(), elapsed);
        match (prev, remaining_seconds(ds.last(), elapsed)) {
            (Some(a), Some(b)) => Some(if a >= b { a } else { b }),
            (Some(a), None) => Some(a),
            (None, b) => b,
        }
    }
}

/// The status line for a run with several disks.
pub open spec fn multi_line(ds: Seq<DiskProgressView>, elapsed: nat) -> Seq<char> {
    multi_entries(ds) + match max_remaining(ds, elapsed) {
        Some(s) => " - "@ + hms_text(s),
        None => Seq::empty(),
    }
}

fn push_percent(line: &mut String, d: &DiskProgress)
    ensures
        final(line)@ == old(line)@ + percent_text(d@),
{
    if (d.status == DiskProgressStatus::WaitNewFile || d.status == DiskProgressStatus::Calculating)
        && d.total_size > 0 {
        let h: u128 = (d.red_size as u128 * 20000 + d.total_size as u128) / (2 * d.total_size as u128);
        let mut text = String::new();
        push_decimal(&mut text, h / 100);
        push_char(&mut text, '.');
        push_padded(&mut text, h % 100, 2, '0');
        push_aligned(line, text.as_str(), 6, ' ');
    } else {
        push_str(line, "  -.--");
    }
}

fn push_id(line: &mut String, d: &DiskProgress)
    ensures
        final(line)@ == old(line)@ + id_text(d@),
{
    match &d.disk_id {
        Some(id) => push_str(line, id.as_str()),
        None => {
            assert(old(line)@ + Seq::<char>::empty() =~= old(line)@);
        },
    }
}

fn push_files(line: &mut String, d: &DiskProgress)
    ensures
        final(line)@ == old(line)@ + files_text(d@),
{
    if d.status == DiskProgressStatus::Initialized {
        push_str(line, "-----");
    } else {
        push_padded(line, d.number_of_files as u128, 5, ' ');
    }
}

fn push_remaining(line: &mut String, d: &DiskProgress, elapsed_seconds: u64)
    ensures
        final(line)@ == old(line)@ + remaining_text(d@, elapsed_seconds as nat),
{
    match d.remain_time_seconds(elapsed_seconds) {
        Some(s) => push_hms(line, s),
        None => push_str(line, "  -:--:--"),
    }
}

fn push_current(line: &mut String, d: &DiskProgress)
    ensures
        final(line)@ == old(line)@ + current_text(d@),
{
    match &d.current_file {
        Some(p) => {
            push_char(line, ' ');
            push_str(line, p.as_str());
            assert(line@ =~= old(line)@ + current_text(d@));
        },
        None => {
            assert(old(line)@ + Seq::<char>::empty() =~= old(line)@);
        },
    }
}

fn push_hms(line: &mut String, seconds: u128)
    ensures
        final(line)@ == old(line)@ + hms_text(seconds as nat),
{
    push_padded(line, seconds / 3600, 3, ' ');
    push_char(line, ':');
    push_padded(line, seconds / 60 % 60, 2, '0');
    push_char(line, ':');
    push_padded(line, seconds % 60, 2, '0');
    assert(line@ =~= old(line)@ + hms_text(seconds as nat));
}

/// Splits a number of seconds into hours, minutes and seconds.
pub fn seconds_to_hms(seconds: u128) -> (r: (u128, u128, u128))
    ensures
        r == (seconds / 3600, seconds / 60 % 60, seconds % 60),
{
    (seconds / 3600, seconds / 60 % 60, seconds % 60)
}

impl DiskProgress {
    /// The seconds this disk still needs, given the seconds elapsed so far.
    pub fn remain_time_seconds(&self, elapsed_seconds: u64) -> (r: Option<u128>)
        ensures
            r matches Some(s) ==> remaining_seconds(self@, elapsed_seconds as nat) == Some(
                s as nat,
            ),
            r is None <==> remaining_seconds(self@, elapsed_seconds as nat) is None,
    {
        if self.red_size > 0 && self.total_size > 0 {
            if self.total_size > self.red_size {
                let left = (self.total_size - self.red_size) as u128;
                assert(elapsed_seconds as u128 * left <= u64::MAX as u128 * u64::MAX as u128) by (nonlinear_arith)
                    requires left <= u64::MAX;
                Some(elapsed_seconds as u128 * left / self.red_size as u128)
            } else {
                Some(0)
            }
        } else {
            None
        }
    }
}

impl ProgressSummary {
    /// The status line for a run with one disk.
    pub fn log_line_for_single_disk(&self, elapsed_seconds: u64) -> (r: String)
        requires
            self@.len() >= 1,
        ensures
            r@ == single_line(self@[0], elapsed_seconds as nat),
    {
        let d = &self.disk_progresses[0];
        let mut line = String::new();
        push_id(&mut line, d);
        let ghost a = line@;
        push_char(&mut line, ' ');
        push_padded(&mut line, d.number_of_done_files as u128, 5, ' ');
        push_char(&mut line, '/');
        let ghost b = line@;
        push_files(&mut line, d);
        push_char(&mut line, ' ');
        let ghost c = line@;
        push_percent(&mut line, d);
        push_char(&mut line, '%');
        push_char(&mut line, ' ');
        let ghost e = line@;
        push_remaining(&mut line, d, elapsed_seconds);
        push_current(&mut line, d);
        assert(self@[0] == d@);
        assert(b =~= id_text(d@) + seq![' '] + pad_left(decimal(d@.number_of_done_files), 5, ' ')
            + seq!['/']);
        assert(e =~= c + percent_text(d@) + seq!['%', ' ']);
        assert(line@ =~= single_line(d@, elapsed_seconds as nat));
        line
    }

    /// The status line for a run with several disks.
    pub fn log_line_for_multiple_disks(&self, elapsed_seconds: u64) -> (r: String)
        ensures
            r@ == multi_line(self@, elapsed_seconds as nat),
    {
        let ghost ds = self@;
        let mut line = String::new();
        let mut max_seconds: Option<u128> = None;
        let mut i: usize = 0;
        assert(ds.take(0) =~= Seq::<DiskProgressView>::empty());
        while i < self.disk_progresses.len()
            invariant
                ds == self@,
                i <= self.disk_progresses.len() == ds.len(),
                line@ == multi_entries(ds.take(i as int)),
                match max_seconds {
                    Some(s) => max_remaining(ds.take(i as int), elapsed_seconds as nat) == Some(s as nat),
                    None => max_remaining(ds.take(i as int), elapsed_seconds as nat) is None,
                },
            decreases self.disk_progresses.len() - i,
        {
            let d = &self.disk_progresses[i];
            assert(ds.take(i + 1).drop_last() == ds.take(i as int));
            assert(ds.take(i + 1).last() == d@);
            if d.status != DiskProgressStatus::New {
                if line.as_str().unicode_len() > 0 {
                    push_str(&mut line, " / ");
                }
                match &d.disk_id {
                    Some(id) => push_str(&mut line, id.as_str()),
                    None => {},
                }
                push_char(&mut line, ' ');
                push_percent(&mut line, d);
                push_char(&mut line, '%');
            }
            match d.remain_time_seconds(elapsed_seconds) {
                Some(s) => {
                    match max_seconds {
                        Some(m) => {
                            if s > m {
                                max_seconds = Some(s);
                            }
                        },
                        None => {
                            max_seconds = Some(s);
                        },
                    }
                },
                None => {},
            }
            assert(line@ =~= multi_entries(ds.take(i + 1)));
            i = i + 1;
        }
        assert(ds.take(i as int) == ds);
        match max_seconds {
            Some(s) => {
                push_str(&mut line, " - ");
                push_hms(&mut line, s);
            },
            None => {},
        }
        assert(line@ =~= multi_line(ds, elapsed_seconds as nat));
        line
    }

    /// The status line: the one-disk form where one disk was seen, the
    /// several-disk form where more were; with no disk there is nothing to report.
    pub fn log_line(&self, elapsed_seconds: u64) -> (r: Result<String, Errors>)
        ensures
            self@.len() == 1 ==> (r matches Ok(s) && s@ == single_line(
                self@[0],
                elapsed_seconds as nat,
            )),
            self@.len() > 1 ==> (r matches Ok(s) && s@ == multi_line(self@, elapsed_seconds as nat)),
            self@.len() == 0 ==> (r matches Err(es) && es.len() == 1 && es[0].spec_message()
                == "no disk progress to report"@),
    {
        let n = self.disk_progresses.len();
        if n == 1 {
            Ok(self.log_line_for_single_disk(elapsed_seconds))
        } else if n > 1 {
            Ok(self.log_line_for_multiple_disks(elapsed_seconds))
        } else {
            Err(Error::new("no disk progress to report").as_errors())
        }
    }
}

// ---------------------------------------------------------------------------
// The protocol, over whole event sequences

/// The status reached from `start` through the events `ks`; `None` once one
/// was refused.
pub open spec fn run_from(start: Option<DiskProgressStatus>, ks: Seq<ProgressUpdateType>) -> Option<
    DiskProgressStatus,
>
    decreases ks.len(),
{
    if ks.len() == 0 {
        start
    } else {
        match run_from(start, ks.drop_last()) {
            Some(st) => step(st, ks.last()),
            None => None,
        }
    }
}

/// The status of a disk after the events `ks`.
pub open spec fn run_status(ks: Seq<ProgressUpdateType>) -> Option<DiskProgressStatus> {
    run_from(Some(DiskProgressStatus::New), ks)
}

/// The events a correct worker sends for one target file: `NewFile`, a
/// `Read` for each of the `chunks` chunks read before the file ended or
/// failed, then `Done`. A file that could not be opened has no chunk; a file
/// whose reading failed has the chunks read before the failure.
pub open spec fn file_events(chunks: nat) -> Seq<ProgressUpdateType> {
    seq![ProgressUpdateType::NewFile] + Seq::new(chunks, |i: int| ProgressUpdateType::Read) + seq![
        ProgressUpdateType::Done,
    ]
}

/// The events of a complete run of a correct worker with one target file per
/// entry of `chunks`, whether hashed or skipped, read in that many chunks.
pub open spec fn worker_events(chunks: Seq<nat>) -> Seq<ProgressUpdateType>
    decreases chunks.len(),
{
    if chunks.len() == 0 {
        seq![ProgressUpdateType::Init, ProgressUpdateType::ListTargets]
    } else {
        worker_events(chunks.drop_last()) + file_events(chunks.last())
    }
}

/// The events a correct worker has sent up to some moment of its run.
pub open spec fn is_worker_trace(ks: Seq<ProgressUpdateType>) -> bool {
    exists|chunks: Seq<nat>, n: int|
        0 <= n <= worker_events(chunks).len() && ks == #[trigger] worker_events(chunks).take(n)
}

proof fn lemma_run_none(ks: Seq<ProgressUpdateType>)
    ensures
        run_from(None, ks) is None,
    decreases ks.len(),
{
    if ks.len() > 0 {
        lemma_run_none(ks.drop_last());
    }
}

proof fn lemma_run_concat(
    start: Option<DiskProgressStatus>,
    a: Seq<ProgressUpdateType>,
    b: Seq<ProgressUpdateType>,
)
    ensures
        run_from(start, a + b) == run_from(run_from(start, a), b),
    decreases b.len(),
{
    if b.len() == 0 {
        assert(a + b == a);
    } else {
        lemma_run_concat(start, a, b.drop_last());
        assert((a + b).drop_last() == a + b.drop_last());
        assert((a + b).last() == b.last());
    }
}

proof fn lemma_run_prefix(start: Option<DiskProgressStatus>, ks: Seq<ProgressUpdateType>, n: int)
    requires
        0 <= n <= ks.len(),
        run_from(start, ks.take(n)) is None,
    ensures
        run_from(start, ks) is None,
{
    lemma_run_concat(start, ks.take(n), ks.skip(n));
    assert(ks.take(n) + ks.skip(n) == ks);
    lemma_run_none(ks.skip(n));
}

proof fn lemma_run_single(start: Option<DiskProgressStatus>, k: ProgressUpdateType)
    ensures
        run_from(start, seq![k]) == match start {
            Some(st) => step(st, k),
            None => None,
        },
{
    assert(seq![k].drop_last() == Seq::<ProgressUpdateType>::empty());
    assert(run_from(start, Seq::<ProgressUpdateType>::empty()) == start);
}

proof fn lemma_run_reads(n: nat)
    ensures
        run_from(
            Some(DiskProgressStatus::Calculating),
            Seq::new(n, |i: int| ProgressUpdateType::Read),
        ) == Some(DiskProgressStatus::Calculating),
    decreases n,
{
    if n > 0 {
        lemma_run_reads((n - 1) as nat);
        assert(Seq::new(n, |i: int| ProgressUpdateType::Read).drop_last() == Seq::new(
            (n - 1) as nat,
            |i: int| ProgressUpdateType::Read,
        ));
    }
}

proof fn lemma_run_file(n: nat)
    ensures
        run_from(Some(DiskProgressStatus::WaitNewFile), file_events(n)) == Some(
            DiskProgressStatus::WaitNewFile,
        ),
{
    let reads = Seq::new(n, |i: int| ProgressUpdateType::Read);
    let start = seq![ProgressUpdateType::NewFile];
    lemma_run_concat(Some(DiskProgressStatus::WaitNewFile), start + reads, seq![ProgressUpdateType::Done]);
    lemma_run_concat(Some(DiskProgressStatus::WaitNewFile), start, reads);
    lemma_run_single(Some(DiskProgressStatus::WaitNewFile), ProgressUpdateType::NewFile);
    lemma_run_reads(n);
    lemma_run_single(Some(DiskProgressStatus::Calculating), ProgressUpdateType::Done);
}

proof fn lemma_run_worker(chunks: Seq<nat>)
    ensures
        run_status(worker_events(chunks)) == Some(DiskProgressStatus::WaitNewFile),
    decreases chunks.len(),
{
    if chunks.len() == 0 {
        let ks = seq![ProgressUpdateType::Init, ProgressUpdateType::ListTargets];
        assert(ks == seq![ProgressUpdateType::Init] + seq![ProgressUpdateType::ListTargets]);
        lemma_run_concat(
            Some(DiskProgressStatus::New),
            seq![ProgressUpdateType::Init],
            seq![ProgressUpdateType::ListTargets],
        );
        lemma_run_single(Some(DiskProgressStatus::New), ProgressUpdateType::Init);
        lemma_run_single(Some(DiskProgressStatus::Initialized), ProgressUpdateType::ListTargets);
    } else {
        lemma_run_worker(chunks.drop_last());
        lemma_run_concat(
            Some(DiskProgressStatus::New),
            worker_events(chunks.drop_last()),
            file_events(chunks.last()),
        );
        lemma_run_file(chunks.last());
    }
}

/// The aggregator accepts every sequence of events that a correct worker sends.
pub proof fn lemma_worker_trace_accepted(ks: Seq<ProgressUpdateType>)
    requires
        is_worker_trace(ks),
    ensures
        run_status(ks) is Some,
{
    let (chunks, n) = choose|chunks: Seq<nat>, n: int|
        0 <= n <= worker_events(chunks).len() && ks == #[trigger] worker_events(chunks).take(n);
    lemma_run_worker(chunks);
    if run_status(ks) is None {
        lemma_run_prefix(Some(DiskProgressStatus::New), worker_events(chunks), n);
    }
}

/// A `Read` for a disk before any `NewFile` for it is refused.
pub proof fn lemma_read_before_new_file_rejected(ks: Seq<ProgressUpdateType>, i: int)
    requires
        0 <= i < ks.len(),
        ks[i] == ProgressUpdateType::Read,
        forall|j: int| 0 <= j < i ==> ks[j] != ProgressUpdateType::NewFile,
    ensures
        run_status(ks) is None,
{
    lemma_no_calculating(ks, i, i);
    assert(ks.take(i + 1).drop_last() == ks.take(i));
    assert(ks.take(i + 1).last() == ks[i]);
    lemma_run_prefix(Some(DiskProgressStatus::New), ks, i + 1);
}

proof fn lemma_no_calculating(ks: Seq<ProgressUpdateType>, i: int, j: int)
    requires
        0 <= j <= i < ks.len(),
        forall|m: int| 0 <= m < i ==> ks[m] != ProgressUpdateType::NewFile,
    ensures
        run_status(ks.take(j)) matches Some(st) ==> st != DiskProgressStatus::Calculating,
    decreases j,
{
    if j > 0 {
        lemma_no_calculating(ks, i, j - 1);
        assert(ks.take(j).drop_last() == ks.take(j - 1));
        assert(ks.take(j).last() == ks[j - 1]);
    }
}

proof fn lemma_still_new(ks: Seq<ProgressUpdateType>, i: int, j: int)
    requires
        0 <= j <= i < ks.len(),
        forall|m: int| 0 <= m < i ==> ks[m] != ProgressUpdateType::Init,
    ensures
        run_status(ks.take(j)) matches Some(st) ==> st == DiskProgressStatus::New,
    decreases j,
{
    if j > 0 {
        lemma_still_new(ks, i, j - 1);
        assert(ks.take(j).drop_last() == ks.take(j - 1));
        assert(ks.take(j).last() == ks[j - 1]);
    }
}

/// A `ListTargets` for a disk before any `Init` for it is refused.
pub proof fn lemma_list_targets_before_init_rejected(ks: Seq<ProgressUpdateType>, i: int)
    requires
        0 <= i < ks.len(),
        ks[i] == ProgressUpdateType::ListTargets,
        forall|j: int| 0 <= j < i ==> ks[j] != ProgressUpdateType::Init,
    ensures
        run_status(ks) is None,
{
    lemma_still_new(ks, i, i);
    assert(ks.take(i + 1).drop_last() == ks.take(i));
    assert(ks.take(i + 1).last() == ks[i]);
    lemma_run_prefix(Some(DiskProgressStatus::New), ks, i + 1);
}

/// The events of `evs` (disk index, kind) that belong to disk `d`, in order.
pub open spec fn project(evs: Seq<(nat, ProgressUpdateType)>, d: nat) -> Seq<ProgressUpdateType>
    decreases evs.len(),
{
    if evs.len() == 0 {
        Seq::empty()
    } else {
        let p = project(evs.drop_last(), d);
        if evs.last().0 == d {
            p.push(evs.last().1)
        } else {
            p
        }
    }
}

/// The status of disk `d` in `sts`; a disk not seen yet is `New`.
pub open spec fn status_at(sts: Seq<DiskProgressStatus>, d: nat) -> DiskProgressStatus {
    if d < sts.len() {
        sts[d as int]
    } else {
        DiskProgressStatus::New
    }
}

/// `sts` extended with `New` so that it has an entry at `d`.
pub open spec fn grown_status(sts: Seq<DiskProgressStatus>, d: nat) -> Seq<DiskProgressStatus> {
    if d < sts.len() {
        sts
    } else {
        sts + Seq::new((d + 1 - sts.len()) as nat, |i: int| DiskProgressStatus::New)
    }
}

/// The statuses of all disks after one event of kind `k` for disk `d`.
pub open spec fn summary_step(sts: Seq<DiskProgressStatus>, d: nat, k: ProgressUpdateType) -> Option<
    Seq<DiskProgressStatus>,
> {
    let g = grown_status(sts, d);
    match step(g[d as int], k) {
        Some(n) => Some(g.update(d as int, n)),
        None => None,
    }
}

/// The statuses of all disks after the events `evs`, received in this order
/// by disks in the statuses `start`; `None` once one was refused.
pub open spec fn summary_run_from(start: Seq<DiskProgressStatus>, evs: Seq<(nat, ProgressUpdateType)>) -> Option<
    Seq<DiskProgressStatus>,
>
    decreases evs.len(),
{
    if evs.len() == 0 {
        Some(start)
    } else {
        match summary_run_from(start, evs.drop_last()) {
            Some(sts) => summary_step(sts, evs.last().0, evs.last().1),
            None => None,
        }
    }
}

/// The statuses of all disks after the events `evs`, received in this order
/// from the start; `None` once one was refused.
pub open spec fn summary_run(evs: Seq<(nat, ProgressUpdateType)>) -> Option<Seq<DiskProgressStatus>> {
    summary_run_from(Seq::empty(), evs)
}

/// The disk index and kind of each of `us`.
pub open spec fn events_of(us: Seq<ProgressUpdate>) -> Seq<(nat, ProgressUpdateType)> {
    us.map_values(|u: ProgressUpdate| (u.index(), u.kind()))
}

proof fn lemma_summary_prefix(start: Seq<DiskProgressStatus>, evs: Seq<(nat, ProgressUpdateType)>, n: int)
    requires
        0 <= n <= evs.len(),
        summary_run_from(start, evs.take(n)) is None,
    ensures
        summary_run_from(start, evs) is None,
    decreases evs.len() - n,
{
    if n == evs.len() {
        assert(evs.take(n) == evs);
    } else {
        assert(evs.drop_last().take(n) == evs.take(n));
        lemma_summary_prefix(start, evs.drop_last(), n);
    }
}

/// The statuses of the records `ds`.
pub open spec fn statuses_of(ds: Seq<DiskProgressView>) -> Seq<DiskProgressStatus> {
    ds.map_values(|x: DiskProgressView| x.status)
}

proof fn lemma_summary_run(evs: Seq<(nat, ProgressUpdateType)>)
    ensures
        summary_run(evs) is Some <==> forall|d: nat| #[trigger] run_status(project(evs, d)) is Some,
        summary_run(evs) matches Some(sts) ==> forall|d: nat|
            run_status(#[trigger] project(evs, d)) == Some(status_at(sts, d)),
    decreases evs.len(),
{
    if evs.len() == 0 {
        assert forall|d: nat| #[trigger] run_status(project(evs, d)) is Some by {}
    } else {
        let prev = evs.drop_last();
        let (d0, k) = evs.last();
        lemma_summary_run(prev);
        assert forall|d: nat| d != d0 implies #[trigger] project(evs, d) == project(prev, d) by {}
        let own_prev = project(prev, d0);
        assert(project(evs, d0) == own_prev.push(k));
        assert(own_prev.push(k).drop_last() == own_prev);
        match summary_run(prev) {
            Some(sts) => {
                let g = grown_status(sts, d0);
                assert(run_status(own_prev) == Some(status_at(sts, d0)));
                assert(g[d0 as int] == status_at(sts, d0));
                assert forall|d: nat| status_at(g, d) == status_at(sts, d) by {}
                if step(g[d0 as int], k) is Some {
                    let sts2 = g.update(d0 as int, step(g[d0 as int], k)->0);
                    assert forall|d: nat| run_status(#[trigger] project(evs, d)) == Some(
                        status_at(sts2, d),
                    ) by {
                        if d != d0 {
                            assert(run_status(project(prev, d)) == Some(status_at(sts, d)));
                        }
                    }
                    assert forall|d: nat| #[trigger] run_status(project(evs, d)) is Some by {
                        assert(run_status(project(evs, d)) == Some(status_at(sts2, d)));
                    }
                } else {
                    assert(run_status(project(evs, d0)) is None);
                }
            },
            None => {
                let d1 = choose|d: nat| !(#[trigger] run_status(project(prev, d)) is Some);
                if d1 == d0 {
                    assert(run_status(project(evs, d0)) is None);
                } else {
                    assert(run_status(project(evs, d1)) is None);
                }
            },
        }
    }
}

/// Whatever order the events of several disks arrive in, the aggregator
/// refuses none of them as long as each disk's own events are those of a
/// correct worker; each disk ends in the status its own events lead to.
pub proof fn lemma_correct_workers_never_violate(evs: Seq<(nat, ProgressUpdateType)>)
    requires
        forall|d: nat| is_worker_trace(#[trigger] project(evs, d)),
    ensures
        summary_run(evs) is Some,
        forall|d: nat|
            run_status(#[trigger] project(evs, d)) == Some(status_at(summary_run(evs)->0, d)),
{
    assert forall|d: nat| #[trigger] run_status(project(evs, d)) is Some by {
        lemma_worker_trace_accepted(project(evs, d));
    }
    lemma_summary_run(evs);
}

/// Where the events of one disk are refused on their own (a `Read` before a
/// `NewFile`, a `ListTargets` before an `Init`), the aggregator refuses the
/// interleaved sequence too.
pub proof fn lemma_disk_violation_rejected(evs: Seq<(nat, ProgressUpdateType)>, d: nat)
    requires
        run_status(project(evs, d)) is None,
    ensures
        summary_run(evs) is None,
{
    lemma_summary_run(evs);
}

} // verus!
