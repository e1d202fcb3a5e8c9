//! Lookup of a file held in an in-memory archive image: an archive is a flat
//! byte buffer plus a table of named entries, each an offset and a length
//! into that buffer.

use vstd::prelude::*;
use vstd::slice::slice_index_get;
use vstd::slice::slice_subrange;
use vstd::slice::slice_to_vec;

verus! {

/// Where one named file lies inside the archive buffer.
#[derive(Clone, Copy, PartialEq, Eq, Structural, Debug)]
pub struct FileEntry {
    pub offset: usize,
    pub length: usize,
}

/// Reading an entry failed: it reaches past the end of the archive buffer.
#[derive(Clone, Copy, PartialEq, Eq, Structural, Debug)]
pub struct OutOfBoundsEntry;

/// The index of the first entry named `name`, if any.
pub open spec fn find_entry(entries: Seq<(Vec<u8>, FileEntry)>, name: Seq<u8>) -> Option<int> {
    if exists|k: int| 0 <= k < entries.len() && (#[trigger] entries[k]).0@ == name {
        Some(choose|k: int| 0 <= k < entries.len() && (#[trigger] entries[k]).0@ == name && forall|
            k2: int,
        | 0 <= k2 < k ==> (#[trigger] entries[k2]).0@ != name)
    } else {
        None
    }
}

/// The bytes of `entry` within the archive buffer `file`.
pub open spec fn entry_bytes(entry: FileEntry, file: Seq<u8>) -> Seq<u8> {
    file.subrange(entry.offset as int, entry.offset + entry.length)
}

/// `entry` lies wholly inside the archive buffer `file`.
pub open spec fn entry_in_bounds(entry: FileEntry, file: Seq<u8>) -> bool {
    entry.offset + entry.length <= file.len()
}

/// Byte-for-byte equality of two byte strings.
fn bytes_eq(a: &[u8], b: &[u8]) -> (r: bool)
    ensures
        r == (a@ == b@),
{
    if a.len() != b.len() {
        proof {
            assert(a@.len() != b@.len());
        }
        return false;
    }
    let n = a.len();
    let mut k: usize = 0;
    while k < n
        invariant
            n == a@.len(),
            n == b@.len(),
            k <= n,
            forall|k2: int| 0 <= k2 < k ==> a@[k2] == b@[k2],
        decreases n - k,
    {
        if *slice_index_get(a, k) != *slice_index_get(b, k) {
            return false;
        }
        k = k + 1;
    }
    proof {
        assert(a@ =~= b@);
    }
    true
}

/// Copy the bytes of one archive entry out of the archive buffer, or report
/// that the entry reaches past its end.
pub fn read_file_entry(entry: &FileEntry, file: &[u8]) -> (r: Result<Vec<u8>, OutOfBoundsEntry>)
    ensures
        match r {
            Ok(buf) => entry_in_bounds(*entry, file@) && buf@ == entry_bytes(*entry, file@),
            Err(e) => !entry_in_bounds(*entry, file@) && e == OutOfBoundsEntry,
        },
{
    if entry.length > file.len() || entry.offset > file.len() - entry.length {
        return Err(OutOfBoundsEntry);
    }
    let sub = slice_subrange(file, entry.offset, entry.offset + entry.length);
    Ok(slice_to_vec(sub))
}

/// Look up the first entry named `name` and copy its bytes out of the
/// archive buffer.
///
/// The caller guarantees that an entry of that name exists, as when the
/// table was just built from the archive's own headers; an entry whose
/// recorded extent reaches past the end of the buffer is reported instead of
/// read.
pub fn get_buffer(name: &[u8], file: &[u8], entries: &Vec<(Vec<u8>, FileEntry)>) -> (r: Result<
    Vec<u8>,
    OutOfBoundsEntry,
>)
    requires
        find_entry(entries@, name@) is Some,
    ensures
        ({
            let entry = entries@[find_entry(entries@, name@)->Some_0].1;
            match r {
                Ok(buf) => entry_in_bounds(entry, file@) && buf@ == entry_bytes(entry, file@),
                Err(e) => !entry_in_bounds(entry, file@) && e == OutOfBoundsEntry,
            }
        }),
{
    let n = entries.len();
    let mut k: usize = 0;
    while k < n
        invariant
            n == entries@.len(),
            k <= n,
            find_entry(entries@, name@) is Some,
            forall|k2: int| 0 <= k2 < k ==> (#[trigger] entries@[k2]).0@ != name@,
        decreases n - k,
    {
        let (entry_name, entry) = &entries[k];
        if bytes_eq(entry_name.as_slice(), name) {
            proof {
                let found = find_entry(entries@, name@)->Some_0;
                assert(0 <= found < entries@.len() && entries@[found].0@ == name@ && forall|
                    k2: int,
                | 0 <= k2 < found ==> (#[trigger] entries@[k2]).0@ != name@);
                assert(found == k);
            }
            return read_file_entry(entry, file);
        }
        k = k + 1;
    }
    proof {
        let found = find_entry(entries@, name@)->Some_0;
        assert(0 <= found < entries@.len() && entries@[found].0@ == name@);
        assert(false);
    }
    vstd::pervasive::unreached()
}

} // verus!
