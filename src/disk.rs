//! Disk discovery: the folders whose `disk` marker file names a disk, and the
//! disk records read from those files.

use vstd::prelude::*;

use crate::error::{Error, Errors};
use crate::merge::DISK_ID_PATTERN;
use crate::pattern::{regex_compiles, regex_matches, Pattern};
use crate::text::{join, join_path, push_str, trim, trimmed};

verus! {

/// The name of the marker file at the root of a disk.
pub const DISK_FILE_NAME: &'static str = "disk";

/// One disk of this run.
pub struct DiskInfo {
    /// The position of the disk in this run's list.
    pub index: usize,
    /// The disk id, as its marker file gives it.
    pub id: String,
    /// The folder at the root of the disk.
    pub root_path: String,
}

/// What reading a disk's marker file gave.
pub enum DiskFileRead {
    /// There is no marker file.
    Missing,
    /// The file exists but could not be read; the cause.
    Unreadable(String),
    /// The bytes of the file.
    Contents(Vec<u8>),
}

/// The id that the marker file holds: its text, trimmed, where that is
/// UTF-8 and the disk id pattern (which compiles) matches it.
pub open spec fn disk_id_of(read: DiskFileRead) -> Option<Seq<char>> {
    match read {
        DiskFileRead::Contents(b) => {
            let id = trimmed(vstd::utf8::decode_utf8(b@));
            if vstd::utf8::valid_utf8(b@) && regex_compiles(DISK_ID_PATTERN@) && regex_matches(
                DISK_ID_PATTERN@,
                id,
            ) {
                Some(id)
            } else {
                None
            }
        },
        _ => None,
    }
}

/// The marker files of the folders `disk_roots`.
pub fn list_disk_files_by(disk_roots: &Vec<String>) -> (r: Vec<String>)
    ensures
        r.len() == disk_roots.len(),
        forall|i: int|
            0 <= i < r.len() ==> (#[trigger] r@[i])@ == join_path(disk_roots@[i]@, DISK_FILE_NAME@),
{
    let mut r: Vec<String> = Vec::new();
    let mut i: usize = 0;
    while i < disk_roots.len()
        invariant
            i <= disk_roots.len(),
            r.len() == i,
            forall|k: int|
                0 <= k < i ==> (#[trigger] r@[k])@ == join_path(disk_roots@[k]@, DISK_FILE_NAME@),
        decreases disk_roots.len() - i,
    {
        r.push(join(disk_roots[i].as_str(), DISK_FILE_NAME));
        i = i + 1;
    }
    r
}

/// The folders of the disks of this run: those given, or else the nearest
/// folder, from the current one upwards, that holds a marker file.
pub fn list_disk_files(disk_roots: Vec<String>, found: Option<String>) -> (r: Result<
    Vec<String>,
    Errors,
>)
    ensures
        disk_roots.len() > 0 ==> r == Ok::<Vec<String>, Errors>(disk_roots),
        disk_roots.len() == 0 ==> match found {
            Some(f) => r matches Ok(v) && v@ == seq![f],
            None => r matches Err(es) && es.len() == 1,
        },
{
    if disk_roots.len() > 0 {
        Ok(disk_roots)
    } else {
        match found {
            Some(f) => {
                let mut v: Vec<String> = Vec::new();
                v.push(f);
                Ok(v)
            },
            None => Err(Error::new("no disk file was found").as_errors()),
        }
    }
}

/// The folders of `roots` whose read (at the same position of `reads`) is
/// not `Missing` when `present`, or is `Missing` otherwise; in order.
pub open spec fn roots_where(roots: Seq<String>, reads: Seq<DiskFileRead>, present: bool) -> Seq<
    Seq<char>,
>
    decreases roots.len(),
{
    if roots.len() == 0 || reads.len() == 0 {
        Seq::empty()
    } else {
        let prev = roots_where(roots.drop_last(), reads.drop_last(), present);
        if (reads.last() is Missing) != present {
            prev.push(roots.last()@)
        } else {
            prev
        }
    }
}

/// Splits `disk_roots` into the folders whose marker file exists and those
/// whose marker file is missing, each in order.
pub fn divide_disk_files_by_existence(disk_roots: Vec<String>, reads: &Vec<DiskFileRead>) -> (r: (
    Vec<String>,
    Vec<String>,
))
    requires
        disk_roots.len() == reads.len(),
    ensures
        r.0@.map_values(|s: String| s@) == roots_where(disk_roots@, reads@, true),
        r.1@.map_values(|s: String| s@) == roots_where(disk_roots@, reads@, false),
{
    let ghost roots = disk_roots@;
    let mut present: Vec<String> = Vec::new();
    let mut missing: Vec<String> = Vec::new();
    assert(present@.map_values(|s: String| s@) =~= roots_where(roots.take(0), reads@.take(0), true));
    assert(missing@.map_values(|s: String| s@) =~= roots_where(roots.take(0), reads@.take(0), false));
    let mut k: usize = 0;
    for root in it: disk_roots
        invariant
            it.seq() == roots,
            roots.len() == reads.len(),
            k == it.index(),
            present@.map_values(|s: String| s@) == roots_where(
                roots.take(it.index() as int),
                reads@.take(it.index() as int),
                true,
            ),
            missing@.map_values(|s: String| s@) == roots_where(
                roots.take(it.index() as int),
                reads@.take(it.index() as int),
                false,
            ),
    {
        let ghost i = it.index() as int;
        assert(roots.take(i + 1).drop_last() == roots.take(i));
        assert(reads@.take(i + 1).drop_last() == reads@.take(i));
        assert(roots.take(i + 1).last() == root);
        assert(reads@.take(i + 1).last() == reads@[i]);
        let is_missing = match &reads[k] {
            DiskFileRead::Missing => true,
            _ => false,
        };
        if is_missing {
            missing.push(root);
            assert(missing@.map_values(|s: String| s@) =~= roots_where(
                roots.take(i + 1),
                reads@.take(i + 1),
                false,
            ));
        } else {
            present.push(root);
            assert(present@.map_values(|s: String| s@) =~= roots_where(
                roots.take(i + 1),
                reads@.take(i + 1),
                true,
            ));
        }
        k = k + 1;
    }
    assert(roots.take(roots.len() as int) == roots);
    assert(reads@.take(reads.len() as int) == reads@);
    (present, missing)
}

/// The message for a folder without a marker file.
pub open spec fn missing_message(root: Seq<char>) -> Seq<char> {
    "no disk file in the given folder: "@ + join_path(root, DISK_FILE_NAME@)
}

/// Adds an error for each folder of `missing_disk_files`, in order.
pub fn add_missing_disk_file_errors(errors: &mut Vec<Error>, missing_disk_files: &Vec<String>)
    ensures
        final(errors).len() == old(errors).len() + missing_disk_files.len(),
        forall|i: int| 0 <= i < old(errors).len() ==> final(errors)@[i] == old(errors)@[i],
        forall|i: int|
            0 <= i < missing_disk_files.len() ==> (#[trigger] final(errors)@[old(errors).len() + i]).spec_message()
                == missing_message(missing_disk_files@[i]@),
{
    let ghost start = errors@;
    let mut i: usize = 0;
    while i < missing_disk_files.len()
        invariant
            i <= missing_disk_files.len(),
            errors.len() == start.len() + i,
            forall|k: int| 0 <= k < start.len() ==> errors@[k] == start[k],
            forall|k: int|
                0 <= k < i ==> (#[trigger] errors@[start.len() + k]).spec_message()
                    == missing_message(missing_disk_files@[k]@),
        decreases missing_disk_files.len() - i,
    {
        let mut message = String::new();
        push_str(&mut message, "no disk file in the given folder: ");
        let file = join(missing_disk_files[i].as_str(), DISK_FILE_NAME);
        push_str(&mut message, file.as_str());
        errors.push(Error::new(message.as_str()));
        i = i + 1;
    }
}

/// The disk record of the folder `root`, from what reading its marker file gave.
pub fn load_disk_info(root: String, read: DiskFileRead) -> (r: Result<DiskInfo, Error>)
    ensures
        r is Ok <==> disk_id_of(read) is Some,
        r matches Ok(d) ==> d.id@ == disk_id_of(read)->0 && d.root_path@ == root@ && d.index == 0,
        read is Missing ==> (r matches Err(e) && e.spec_message() == missing_message(root@)),
{
    match read {
        DiskFileRead::Missing => {
            let mut message = String::new();
            push_str(&mut message, "no disk file in the given folder: ");
            let file = join(root.as_str(), DISK_FILE_NAME);
            push_str(&mut message, file.as_str());
            Err(Error::new(message.as_str()))
        },
        DiskFileRead::Unreadable(cause) => Err(
            Error::new("the disk file could not be read").with(cause.as_str()),
        ),
        DiskFileRead::Contents(bytes) => {
            let ghost b = bytes@;
            match crate::store::decode_hash_file_contents(bytes) {
                Err(_) => Err(Error::new("the disk file is not UTF-8 text")),
                Ok(text) => {
                    let id = trim(text.as_str());
                    let pattern = match Pattern::new(DISK_ID_PATTERN) {
                        Some(p) => p,
                        None => {
                            return Err(Error::new("the disk id pattern does not compile"));
                        },
                    };
                    if !pattern.is_match(id) {
                        return Err(Error::new("the disk file does not hold a disk id"));
                    }
                    let mut owned = String::new();
                    push_str(&mut owned, id);
                    Ok(DiskInfo { index: 0, id: owned, root_path: root })
                },
            }
        },
    }
}

/// The positions of `reads` whose marker file gives no disk id, in order.
pub open spec fn bad_roots(reads: Seq<DiskFileRead>) -> Seq<int>
    decreases reads.len(),
{
    if reads.len() == 0 {
        Seq::empty()
    } else {
        let prev = bad_roots(reads.drop_last());
        if disk_id_of(reads.last()) is None {
            prev.push(reads.len() - 1)
        } else {
            prev
        }
    }
}

proof fn lemma_bad_roots(reads: Seq<DiskFileRead>)
    ensures
        bad_roots(reads).len() == 0 <==> forall|i: int|
            0 <= i < reads.len() ==> disk_id_of(#[trigger] reads[i]) is Some,
        forall|k: int| 0 <= k < bad_roots(reads).len() ==> 0 <= #[trigger] bad_roots(reads)[k] < reads.len(),
    decreases reads.len(),
{
    if reads.len() > 0 {
        lemma_bad_roots(reads.drop_last());
        assert forall|i: int| 0 <= i < reads.len() - 1 implies reads.drop_last()[i] == reads[i] by {}
        if bad_roots(reads).len() == 0 {
            assert forall|i: int| 0 <= i < reads.len() implies disk_id_of(#[trigger] reads[i]) is Some by {
                if i < reads.len() - 1 {
                    assert(reads.drop_last()[i] == reads[i]);
                }
            }
        }
        if bad_roots(reads.drop_last()).len() > 0 {
            let k = choose|k: int| 0 <= k < reads.drop_last().len() && !(disk_id_of(
                #[trigger] reads.drop_last()[k],
            ) is Some);
            assert(reads.drop_last()[k] == reads[k]);
        }
    }
}

/// The disk records of `disk_roots`, with one error for each folder whose
/// marker file gives none, in the order of the folders.
pub fn load_disk_info_list(disk_roots: Vec<String>, reads: Vec<DiskFileRead>) -> (r: (
    Vec<DiskInfo>,
    Vec<Error>,
))
    requires
        disk_roots.len() == reads.len(),
    ensures
        r.1.len() == bad_roots(reads@).len(),
        forall|k: int|
            0 <= k < r.1.len() && reads@[bad_roots(reads@)[k]] is Missing ==> (#[trigger] r.1@[k]).spec_message()
                == missing_message(disk_roots@[bad_roots(reads@)[k]]@),
        r.1.len() == 0 ==> r.0.len() == reads.len() && forall|i: int|
            0 <= i < r.0.len() ==> {
                &&& (#[trigger] r.0@[i]).id@ == disk_id_of(reads@[i])->0
                &&& r.0@[i].root_path@ == disk_roots@[i]@
            },
{
    let ghost rs = reads@;
    let mut infos: Vec<DiskInfo> = Vec::new();
    let mut errors: Vec<Error> = Vec::new();
    let mut k: usize = 0;
    assert(rs.take(0) =~= Seq::<DiskFileRead>::empty());
    for read in it: reads
        invariant
            it.seq() == rs,
            rs.len() == disk_roots.len(),
            k == it.index(),
            errors.len() == bad_roots(rs.take(k as int)).len(),
            forall|j: int|
                0 <= j < errors.len() && rs[bad_roots(rs.take(k as int))[j]] is Missing
                    ==> (#[trigger] errors@[j]).spec_message() == missing_message(
                    disk_roots@[bad_roots(rs.take(k as int))[j]]@,
                ),
            forall|j: int| 0 <= j < bad_roots(rs.take(k as int)).len() ==> 0 <= #[trigger] bad_roots(rs.take(k as int))[j] < k,
            errors.len() == 0 ==> infos.len() == k && forall|i: int|
                0 <= i < k ==> {
                    &&& (#[trigger] infos@[i]).id@ == disk_id_of(rs[i])->0
                    &&& infos@[i].root_path@ == disk_roots@[i]@
                },
    {
        proof {
            lemma_bad_roots(rs.take(k as int));
        }
        assert(rs.take(k + 1).drop_last() == rs.take(k as int));
        assert(rs.take(k + 1).last() == read);
        let root = disk_roots[k].clone();
        let ghost old_errors = errors@;
        match load_disk_info(root, read) {
            Ok(info) => {
                if errors.len() == 0 {
                    infos.push(info);
                }
            },
            Err(e) => {
                errors.push(e);
                assert(errors@[errors.len() - 1] == e);
            },
        }
        k = k + 1;
    }
    assert(rs.take(k as int) == rs);
    (infos, errors)
}

/// Fails with `errors` unless it is empty.
pub fn raise_errors(errors: Vec<Error>) -> (r: Result<(), Errors>)
    ensures
        r is Ok <==> errors.len() == 0,
        r matches Err(es) ==> es == errors,
{
    if errors.len() == 0 {
        Ok(())
    } else {
        Err(errors)
    }
}

/// Numbers the disks by their position in the list.
pub fn index_disk_info(disk_info_list: &mut Vec<DiskInfo>)
    ensures
        final(disk_info_list).len() == old(disk_info_list).len(),
        forall|i: int|
            0 <= i < final(disk_info_list).len() ==> {
                &&& (#[trigger] final(disk_info_list)@[i]).index == i
                &&& final(disk_info_list)@[i].id == old(disk_info_list)@[i].id
                &&& final(disk_info_list)@[i].root_path == old(disk_info_list)@[i].root_path
            },
{
    let ghost start = disk_info_list@;
    let mut i: usize = 0;
    while i < disk_info_list.len()
        invariant
            i <= disk_info_list.len() == start.len(),
            forall|k: int|
                0 <= k < disk_info_list.len() ==> {
                    &&& (#[trigger] disk_info_list@[k]).id == start[k].id
                    &&& disk_info_list@[k].root_path == start[k].root_path
                    &&& k < i ==> disk_info_list@[k].index == k
                },
        decreases disk_info_list.len() - i,
    {
        disk_info_list[i].index = i;
        i = i + 1;
    }
}

/// The disks of this run, from the folders `disk_roots` and what reading
/// their marker files gave: every folder must hold a marker file with a disk
/// id; otherwise each folder that does not is reported, in order.
pub fn list_disk_info(disk_roots: Vec<String>, reads: Vec<DiskFileRead>) -> (r: Result<
    Vec<DiskInfo>,
    Errors,
>)
    requires
        disk_roots.len() == reads.len(),
    ensures
        r is Ok <==> forall|i: int| 0 <= i < reads.len() ==> disk_id_of(#[trigger] reads@[i]) is Some,
        r matches Ok(v) ==> v.len() == reads.len() && forall|i: int|
            0 <= i < v.len() ==> {
                &&& (#[trigger] v@[i]).index == i
                &&& v@[i].id@ == disk_id_of(reads@[i])->0
                &&& v@[i].root_path@ == disk_roots@[i]@
            },
        r matches Err(es) ==> es.len() == bad_roots(reads@).len() && forall|k: int|
            0 <= k < es.len() && reads@[bad_roots(reads@)[k]] is Missing ==> (#[trigger] es@[k]).spec_message()
                == missing_message(disk_roots@[bad_roots(reads@)[k]]@),
{
    let ghost rs = reads@;
    let ghost roots = disk_roots@;
    proof {
        lemma_bad_roots(rs);
    }
    let (mut disk_info_list, errors) = load_disk_info_list(disk_roots, reads);
    raise_errors(errors)?;
    index_disk_info(&mut disk_info_list);
    Ok(disk_info_list)
}

} // verus!
