//! Whether the repository a document lives in has changes: decided from
//! the status of each of its files, as git reports them.
use vstd::prelude::*;

verus! {

/// The status bits that count as a change: new, modified, deleted, renamed
/// or retyped in the index or the working tree, ignored, or conflicted.
pub const DIRTY_FLAGS: u32 = 0xCF9F;

/// The bits of `git2::Status::INDEX_NEW`, the status of a file new in the index. The contract
/// claims that it is bit 0 alone, as libgit2's `git_status_t` numbers it.
#[verifier::external_body]
fn status_index_new() -> (r: u32)
    ensures
        r == 1u32 << 0u32,
{
    git2::Status::INDEX_NEW.bits()
}

/// The bits of `git2::Status::INDEX_MODIFIED`, the status of a file modified in the index. The contract
/// claims that it is bit 1 alone, as libgit2's `git_status_t` numbers it.
#[verifier::external_body]
fn status_index_modified() -> (r: u32)
    ensures
        r == 1u32 << 1u32,
{
    git2::Status::INDEX_MODIFIED.bits()
}

/// The bits of `git2::Status::INDEX_DELETED`, the status of a file deleted in the index. The contract
/// claims that it is bit 2 alone, as libgit2's `git_status_t` numbers it.
#[verifier::external_body]
fn status_index_deleted() -> (r: u32)
    ensures
        r == 1u32 << 2u32,
{
    git2::Status::INDEX_DELETED.bits()
}

/// The bits of `git2::Status::INDEX_RENAMED`, the status of a file renamed in the index. The contract
/// claims that it is bit 3 alone, as libgit2's `git_status_t` numbers it.
#[verifier::external_body]
fn status_index_renamed() -> (r: u32)
    ensures
        r == 1u32 << 3u32,
{
    git2::Status::INDEX_RENAMED.bits()
}

/// The bits of `git2::Status::INDEX_TYPECHANGE`, the status of a file whose type changed in the index. The contract
/// claims that it is bit 4 alone, as libgit2's `git_status_t` numbers it.
#[verifier::external_body]
fn status_index_typechange() -> (r: u32)
    ensures
        r == 1u32 << 4u32,
{
    git2::Status::INDEX_TYPECHANGE.bits()
}

/// The bits of `git2::Status::WT_NEW`, the status of a file new in the working tree. The contract
/// claims that it is bit 7 alone, as libgit2's `git_status_t` numbers it.
#[verifier::external_body]
fn status_wt_new() -> (r: u32)
    ensures
        r == 1u32 << 7u32,
{
    git2::Status::WT_NEW.bits()
}

/// The bits of `git2::Status::WT_MODIFIED`, the status of a file modified in the working tree. The contract
/// claims that it is bit 8 alone, as libgit2's `git_status_t` numbers it.
#[verifier::external_body]
fn status_wt_modified() -> (r: u32)
    ensures
        r == 1u32 << 8u32,
{
    git2::Status::WT_MODIFIED.bits()
}

/// The bits of `git2::Status::WT_DELETED`, the status of a file deleted in the working tree. The contract
/// claims that it is bit 9 alone, as libgit2's `git_status_t` numbers it.
#[verifier::external_body]
fn status_wt_deleted() -> (r: u32)
    ensures
        r == 1u32 << 9u32,
{
    git2::Status::WT_DELETED.bits()
}

/// The bits of `git2::Status::WT_TYPECHANGE`, the status of a file whose type changed in the working tree. The contract
/// claims that it is bit 10 alone, as libgit2's `git_status_t` numbers it.
#[verifier::external_body]
fn status_wt_typechange() -> (r: u32)
    ensures
        r == 1u32 << 10u32,
{
    git2::Status::WT_TYPECHANGE.bits()
}

/// The bits of `git2::Status::WT_RENAMED`, the status of a file renamed in the working tree. The contract
/// claims that it is bit 11 alone, as libgit2's `git_status_t` numbers it.
#[verifier::external_body]
fn status_wt_renamed() -> (r: u32)
    ensures
        r == 1u32 << 11u32,
{
    git2::Status::WT_RENAMED.bits()
}

/// The bits of `git2::Status::IGNORED`, the status of an ignored file. The contract
/// claims that it is bit 14 alone, as libgit2's `git_status_t` numbers it.
#[verifier::external_body]
fn status_ignored() -> (r: u32)
    ensures
        r == 1u32 << 14u32,
{
    git2::Status::IGNORED.bits()
}

/// The bits of `git2::Status::CONFLICTED`, the status of a file with conflicts. The contract
/// claims that it is bit 15 alone, as libgit2's `git_status_t` numbers it.
#[verifier::external_body]
fn status_conflicted() -> (r: u32)
    ensures
        r == 1u32 << 15u32,
{
    git2::Status::CONFLICTED.bits()
}

/// The status bits that count as a change: any of new, modified, deleted,
/// renamed or retyped in the index or in the working tree, ignored, or
/// conflicted.
fn dirty_flags() -> (r: u32)
    ensures
        r == DIRTY_FLAGS,
{
    let f0 = status_index_new();
    let f1 = status_index_modified();
    let f2 = status_index_deleted();
    let f3 = status_index_renamed();
    let f4 = status_index_typechange();
    let f5 = status_wt_new();
    let f6 = status_wt_modified();
    let f7 = status_wt_deleted();
    let f8 = status_wt_typechange();
    let f9 = status_wt_renamed();
    let f10 = status_ignored();
    let f11 = status_conflicted();
    let r = f0 | f1 | f2 | f3 | f4 | f5 | f6 | f7 | f8 | f9 | f10 | f11;
    assert(r == 0xCF9Fu32) by (bit_vector)
        requires
            r == f0 | f1 | f2 | f3 | f4 | f5 | f6 | f7 | f8 | f9 | f10 | f11,
            f0 == 1u32 << 0u32,
            f1 == 1u32 << 1u32,
            f2 == 1u32 << 2u32,
            f3 == 1u32 << 3u32,
            f4 == 1u32 << 4u32,
            f5 == 1u32 << 7u32,
            f6 == 1u32 << 8u32,
            f7 == 1u32 << 9u32,
            f8 == 1u32 << 10u32,
            f9 == 1u32 << 11u32,
            f10 == 1u32 << 14u32,
            f11 == 1u32 << 15u32;
    r
}

/// Whether a file's status shows a change.
pub open spec fn dirty_status(bits: u32) -> bool {
    bits & DIRTY_FLAGS != 0
}

/// Whether the status bits `bits` of one file show a change.
pub fn status_is_dirty(bits: u32) -> (r: bool)
    ensures
        r == dirty_status(bits),
{
    bits & dirty_flags() != 0
}

/// Whether some file of the repository shows a change, where one was found
/// (`found`), with `statuses` the status bits of its files, untracked ones
/// included. Where no repository was found there is nothing to change.
pub fn is_dirty(found: bool, statuses: &Vec<u32>) -> (r: bool)
    ensures
        r == (found && exists|i: int| 0 <= i < statuses@.len() && dirty_status(#[trigger] statuses@[i])),
{
    if !found {
        return false;
    }
    let mut i: usize = 0;
    while i < statuses.len()
        invariant
            found,
            i <= statuses@.len(),
            forall|k: int| 0 <= k < i ==> !dirty_status(#[trigger] statuses@[k]),
        decreases statuses@.len() - i,
    {
        if status_is_dirty(statuses[i]) {
            proof {
                assert(dirty_status(statuses@[i as int]));
            }
            return true;
        }
        i = i + 1;
    }
    false
}

/// Whether the repository has no changes: where none was found, or no file
/// shows a change.
pub fn is_clean(found: bool, statuses: &Vec<u32>) -> (r: bool)
    ensures
        r == !(found && exists|i: int| 0 <= i < statuses@.len() && dirty_status(#[trigger] statuses@[i])),
{
    !is_dirty(found, statuses)
}

} // verus!
