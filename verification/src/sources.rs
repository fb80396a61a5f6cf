//! The decisions taken while policy sources are read from a root directory:
//! the size of one source, the identity and running byte total of the
//! sources read so far, and whether two reads of one source saw the same
//! file. The reads themselves are made by the caller, which hands over what
//! it observed.
use vstd::prelude::*;

use crate::policy::PolicyError;
use crate::policy_bundle::{MAX_AGGREGATE_SOURCE_BYTES, MAX_SOURCE_BYTES};

verus! {

/// The file a descriptor refers to: its device and inode numbers.
pub type FileIdentity = (u64, u64);

/// What the file metadata of an open source said at one moment.
#[derive(Clone, Copy, Debug, PartialEq, Eq, Structural)]
pub struct SourceStamp {
    pub device: u64,
    pub inode: u64,
    pub size: u64,
    pub modified_seconds: i64,
    pub modified_nanoseconds: i64,
    pub changed_seconds: i64,
    pub changed_nanoseconds: i64,
}

/// An access failure for the source at `path`.
pub open spec fn access_error(e: PolicyError, path: Seq<char>, message: Seq<char>) -> bool {
    e matches PolicyError::SourceAccess { path: p, message: m } && p@ == path && m@ == message
}

fn access(path: &str, message: &str) -> (e: PolicyError)
    ensures
        access_error(e, path@, message@),
{
    PolicyError::SourceAccess { path: String::from_str(path), message: String::from_str(message) }
}

/// A source read with at most one byte past the limit is within the limit.
pub fn check_source_size(path: &str, length: usize) -> (r: Result<(), PolicyError>)
    ensures
        r is Ok <==> length <= MAX_SOURCE_BYTES,
        r matches Err(e) ==> access_error(e, path@, "source exceeds the 1048576-byte limit"@),
{
    if (length as u64) > MAX_SOURCE_BYTES {
        return Err(access(path, "source exceeds the 1048576-byte limit"));
    }
    Ok(())
}

/// Admits one more source while resolving: its file must not be one read
/// already, and the sources' bytes together must stay within the aggregate
/// limit. Returns the new byte total; the identity is recorded unless it was
/// there already.
pub fn admit_source(identities: &mut Vec<FileIdentity>, aggregate: u64, identity: FileIdentity, size: u64, path: &str) -> (r: Result<
    u64,
    PolicyError,
>)
    ensures
        old(identities)@.contains(identity) ==> final(identities)@ == old(identities)@ && (r matches Err(e) && access_error(
            e,
            path@,
            "duplicates another source file identity (hard link or filesystem alias)"@,
        )),
        !old(identities)@.contains(identity) ==> final(identities)@ == old(identities)@.push(identity),
        !old(identities)@.contains(identity) && aggregate + size > u64::MAX ==> (r matches Err(e) && access_error(
            e,
            path@,
            "aggregate source byte count overflowed"@,
        )),
        !old(identities)@.contains(identity) && aggregate + size <= u64::MAX && aggregate + size > MAX_AGGREGATE_SOURCE_BYTES ==> (
        r matches Err(e) && access_error(e, path@, "aggregate source bytes exceed the 16777216-byte limit"@)),
        !old(identities)@.contains(identity) && aggregate + size <= MAX_AGGREGATE_SOURCE_BYTES ==> r == Ok::<u64, PolicyError>(
            (aggregate + size) as u64,
        ),
{
    let mut i: usize = 0;
    while i < identities.len()
        invariant
            i <= identities@.len(),
            forall|k: int| 0 <= k < i ==> identities@[k] != identity,
        decreases identities.len() - i,
    {
        if identities[i].0 == identity.0 && identities[i].1 == identity.1 {
            return Err(access(path, "duplicates another source file identity (hard link or filesystem alias)"));
        }
        i += 1;
    }
    assert(!identities@.contains(identity));
    identities.push(identity);
    if aggregate > u64::MAX - size {
        return Err(access(path, "aggregate source byte count overflowed"));
    }
    let total = aggregate + size;
    if total > MAX_AGGREGATE_SOURCE_BYTES {
        return Err(access(path, "aggregate source bytes exceed the 16777216-byte limit"));
    }
    Ok(total)
}

fn same_bytes(a: &[u8], b: &[u8]) -> (r: bool)
    ensures
        r == (a@ == b@),
{
    if a.len() != b.len() {
        return false;
    }
    let mut i: usize = 0;
    while i < a.len()
        invariant
            a@.len() == b@.len(),
            i <= a@.len(),
            forall|k: int| 0 <= k < i ==> a@[k] == b@[k],
        decreases a.len() - i,
    {
        if a[i] != b[i] {
            return false;
        }
        i += 1;
    }
    assert(a@ =~= b@);
    true
}

fn same_stamp(a: &SourceStamp, b: &SourceStamp) -> (r: bool)
    ensures
        r == (*a == *b),
{
    a.device == b.device && a.inode == b.inode && a.size == b.size && a.modified_seconds == b.modified_seconds
        && a.modified_nanoseconds == b.modified_nanoseconds && a.changed_seconds == b.changed_seconds
        && a.changed_nanoseconds == b.changed_nanoseconds
}

/// Two reads of one open source agree: the same bytes, the same metadata
/// before and after, and as many bytes as the metadata said.
pub fn check_reads_agree(path: &str, first: &[u8], second: &[u8], before: &SourceStamp, after: &SourceStamp) -> (r: Result<
    (),
    PolicyError,
>)
    ensures
        r is Ok <==> (first@ == second@ && *before == *after && before.size == first@.len()),
        r matches Err(e) ==> access_error(e, path@, "source changed while it was being read"@),
{
    if !same_bytes(first, second) || !same_stamp(before, after) || before.size != first.len() as u64 {
        return Err(access(path, "source changed while it was being read"));
    }
    Ok(())
}

fn same_identities(a: &Vec<FileIdentity>, b: &Vec<FileIdentity>) -> (r: bool)
    ensures
        r == (a@ == b@),
{
    if a.len() != b.len() {
        return false;
    }
    let mut i: usize = 0;
    while i < a.len()
        invariant
            a@.len() == b@.len(),
            i <= a@.len(),
            forall|k: int| 0 <= k < i ==> a@[k] == b@[k],
        decreases a.len() - i,
    {
        if a[i].0 != b[i].0 || a[i].1 != b[i].1 {
            return false;
        }
        i += 1;
    }
    assert(a@ =~= b@);
    true
}

/// Walking the source's path again from the root reached the same
/// directories and a file whose metadata matches the last read.
pub fn check_path_unchanged(
    path: &str,
    parents: &Vec<FileIdentity>,
    named_parents: &Vec<FileIdentity>,
    named: &SourceStamp,
    after: &SourceStamp,
) -> (r: Result<(), PolicyError>)
    ensures
        r is Ok <==> (parents@ == named_parents@ && *named == *after),
        r matches Err(e) ==> access_error(e, path@, "source path or metadata changed while it was being read"@),
{
    if !same_identities(parents, named_parents) || !same_stamp(named, after) {
        return Err(access(path, "source path or metadata changed while it was being read"));
    }
    Ok(())
}

} // verus!
