//! Target files: a file selected for hashing, with the normalized path that
//! identifies its record in the hash store.

use vstd::prelude::*;

verus! {

/// The canonical composition (NFC) of `s`, as the Unicode normalization
/// algorithm defines it.
pub uninterp spec fn nfc_of(s: Seq<char>) -> Seq<char>;

/// Relies on `unicode_normalization::UnicodeNormalization::nfc`: the canonical
/// composition of the characters of `s`, which depends on those characters alone.
#[verifier::external_body]
pub(crate) fn nfc(s: &str) -> (r: String)
    ensures
        r@ == nfc_of(s@),
{
    unicode_normalization::UnicodeNormalization::nfc(s).collect::<String>()
}

/// A file selected for hashing.
pub struct TargetFile {
    actual_path: String,
    normalized_path: String,
    /// The length of the file in bytes, as found during the walk.
    pub size: u64,
}

impl TargetFile {
    pub closed spec fn spec_actual_path(&self) -> Seq<char> {
        self.actual_path@
    }

    /// Well-formed: the key is the NFC form of the path found on disk, as
    /// `new` makes it.
    pub open spec fn wf(&self) -> bool {
        self.spec_normalized_path() == nfc_of(self.spec_actual_path())
    }

    pub closed spec fn spec_size(&self) -> nat {
        self.size as nat
    }

    /// The key of this file's record in the hash store.
    pub closed spec fn spec_normalized_path(&self) -> Seq<char> {
        self.normalized_path@
    }

    /// A target file found at `actual_path`; its key is the NFC form of that path.
    pub fn new(actual_path: String, size: u64) -> (r: TargetFile)
        ensures
            r.spec_actual_path() == actual_path@,
            r.spec_normalized_path() == nfc_of(actual_path@),
            r.spec_size() == size,
            r.wf(),
    {
        let normalized_path = nfc(actual_path.as_str());
        TargetFile { actual_path, normalized_path, size }
    }

    /// The normalized path, as an owned string.
    pub(crate) fn key(&self) -> (r: &String)
        ensures
            r@ == self.spec_normalized_path(),
    {
        &self.normalized_path
    }

    /// The path as found on disk.
    pub fn actual_path(&self) -> (r: &str)
        ensures
            r@ == self.spec_actual_path(),
    {
        self.actual_path.as_str()
    }

    /// The normalized path, the key of this file's record.
    pub fn normalized_path(&self) -> (r: &str)
        ensures
            r@ == self.spec_normalized_path(),
    {
        self.normalized_path.as_str()
    }
}

/// The sum of the sizes of `files`.
pub open spec fn total_size(files: Seq<TargetFile>) -> nat
    decreases files.len(),
{
    if files.len() == 0 {
        0
    } else {
        total_size(files.drop_last()) + files.last().spec_size()
    }
}

/// The total size of `target_files` in bytes, or `u64::MAX` where the sum
/// does not fit in 64 bits.
pub fn calc_total_size(target_files: &Vec<TargetFile>) -> (r: u64)
    ensures
        total_size(target_files@) <= u64::MAX ==> r == total_size(target_files@),
        total_size(target_files@) > u64::MAX ==> r == u64::MAX,
{
    let mut total: u64 = 0;
    let mut saturated = false;
    let mut i: usize = 0;
    while i < target_files.len()
        invariant
            i <= target_files.len(),
            !saturated ==> total == total_size(target_files@.take(i as int)),
            saturated ==> total == u64::MAX && total_size(target_files@.take(i as int)) > u64::MAX,
        decreases target_files.len() - i,
    {
        assert(target_files@.take(i + 1).drop_last() == target_files@.take(i as int));
        let size = target_files[i].size;
        if !saturated {
            if total <= u64::MAX - size {
                total = total + size;
            } else {
                total = u64::MAX;
                saturated = true;
            }
        }
        i = i + 1;
    }
    assert(target_files@.take(i as int) == target_files@);
    total
}

} // verus!
