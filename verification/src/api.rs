//! The call table: the fixed, ordered set of operations a host offers.
//!
//! The host side of the boundary owns every real resource; the
//! application reaches them only through these operations.  The table
//! shape is frozen: each operation takes primitive integers, borrowed
//! views of caller memory, or the boundary-safe tagged unions of
//! [`crate::ffi`], and nothing else crosses.
//!
//! Every operation records itself in a ghost log of [`HostCall`] entries
//! holding both what the host was given and the boundary-encoded answer
//! it returned.  The specifications of the wrappers built on top can
//! therefore say exactly which host calls an operation performs and that
//! the value handed back to the application is the host's own answer,
//! decoded and nothing more — in particular, that a close is issued
//! exactly once for an owned handle and never for a reserved
//! standard-stream handle.
//!
//! A host outside this crate (a real operating environment reached over a
//! foreign-function table) is trusted to meet these contracts; the
//! host guarantees that every operation obeys its declared signature,
//! that handles it returns are allocated above the reserved stream
//! values, and that it never writes beyond the length of a borrowed
//! buffer.  The in-crate [`crate::ram::RamHost`] implements the same
//! trait with all of the contracts proved.

use vstd::prelude::*;

use crate::error::Error;
use crate::ffi::FfiResult;
use crate::handle::DirHandle;
use crate::handle::Entry;
use crate::handle::Flags;
use crate::handle::Handle;
use crate::handle::Stat;

verus! {

/// One invocation of a call-table operation, as recorded in the host's
/// ghost log: the operation's name, the values it was given, and the
/// boundary-encoded result it returned.  The two operations that fill a
/// caller's buffer also record the buffer's contents as the call left
/// them.
pub enum HostCall {
    /// `open` was called with a path and option bits.
    Open(Seq<char>, u8, FfiResult<Handle, Error>),
    /// `close` was called with a file handle value.
    Close(u8, FfiResult<(), Error>),
    /// `write` was called with a file handle value and the bytes of the
    /// borrowed view handed over.
    Write(u8, Seq<u8>, FfiResult<(), Error>),
    /// `read` was called with a file handle value and a borrowed buffer
    /// of the given length; the sequence holds the buffer's bytes as the
    /// call left them.
    Read(u8, nat, Seq<u8>, FfiResult<usize, Error>),
    /// `seek_set` was called with a file handle value and a position.
    SeekSet(u8, u64, FfiResult<(), Error>),
    /// `seek_cur` was called with a file handle value and an offset.
    SeekCur(u8, i64, FfiResult<u64, Error>),
    /// `seek_end` was called with a file handle value.
    SeekEnd(u8, FfiResult<u64, Error>),
    /// `rename` was called with an old and a new path.
    Rename(Seq<char>, Seq<char>, FfiResult<(), Error>),
    /// `ioctl` was called with a file handle value, a command and a value.
    Ioctl(u8, u64, u64, FfiResult<u64, Error>),
    /// `opendir` was called with a path.
    OpenDir(Seq<char>, FfiResult<DirHandle, Error>),
    /// `closedir` was called with a directory handle value.
    CloseDir(u8, FfiResult<(), Error>),
    /// `readdir` was called with a directory handle value.
    ReadDirEntry(u8, FfiResult<Entry, Error>),
    /// `stat` was called with a path.
    StatPath(Seq<char>, FfiResult<Stat, Error>),
    /// `fstat` was called with a file handle value.
    StatHandle(u8, FfiResult<Stat, Error>),
    /// `deletefile` was called with a path.
    DeleteFile(Seq<char>, FfiResult<(), Error>),
    /// `deletedir` was called with a path.
    DeleteDir(Seq<char>, FfiResult<(), Error>),
    /// `chdir` was called with a path.
    ChDir(Seq<char>, FfiResult<(), Error>),
    /// `dchdir` was called with a directory handle value.
    ChDirHandle(u8, FfiResult<(), Error>),
    /// `pwd` was called with a borrowed buffer of the given length; the
    /// sequence holds the buffer's bytes as the call left them.
    Pwd(nat, Seq<u8>, FfiResult<usize, Error>),
    /// `malloc` was called with a size and an alignment.
    Malloc(nat, nat, FfiResult<usize, Error>),
    /// `free` was called with an address, a size and an alignment.
    Free(nat, nat, nat),
}

/// Whether a call is a close operation on the given handle value,
/// whatever the host answered.
pub open spec fn is_close_of(call: HostCall, handle: u8) -> bool {
    match call {
        HostCall::Close(h, _) => h == handle,
        _ => false,
    }
}

/// How many entries of `log` are close operations on `handle`.
pub open spec fn close_count(log: Seq<HostCall>, handle: u8) -> nat
    decreases log.len(),
{
    if log.len() == 0 {
        0
    } else {
        close_count(log.drop_last(), handle) + if is_close_of(log.last(), handle) {
            1nat
        } else {
            0nat
        }
    }
}

/// Appending one call to a log raises the close count for a handle by one
/// exactly when that call closes that handle, and leaves it unchanged
/// otherwise.
pub proof fn lemma_close_count_push(log: Seq<HostCall>, call: HostCall, handle: u8)
    ensures
        close_count(log.push(call), handle) == close_count(log, handle) + if is_close_of(
            call,
            handle,
        ) {
            1nat
        } else {
            0nat
        },
{
    assert(log.push(call).drop_last() =~= log);
    assert(log.push(call).last() == call);
}

/// Law: across any run of host calls none of which is a close of
/// `handle`, the number of close operations on `handle` does not change.
/// Every operation on a standard-stream wrapper appends only such
/// entries, so across any sequence of standard-stream operations the
/// reserved handles are closed zero times.
pub proof fn lemma_close_count_extension(log: Seq<HostCall>, ext: Seq<HostCall>, handle: u8)
    requires
        forall|i: int| 0 <= i < ext.len() ==> !is_close_of(#[trigger] ext[i], handle),
    ensures
        close_count(log + ext, handle) == close_count(log, handle),
    decreases ext.len(),
{
    if ext.len() == 0 {
        assert(log + ext =~= log);
    } else {
        let shorter = ext.drop_last();
        assert(forall|i: int| 0 <= i < shorter.len() ==> shorter[i] == #[trigger] ext[i]);
        assert(log + ext =~= (log + shorter).push(ext.last()));
        lemma_close_count_extension(log, shorter, handle);
        lemma_close_count_push(log + shorter, ext.last(), handle);
    }
}

/// The call table itself: one method per operation, in the table's fixed
/// order.  The `log` specification function is the ordered record of
/// every invocation this host has received, each entry carrying the
/// host's answer, so a host cannot log a call and answer something else.
///
/// A host's contract, beyond logging each call with its answer, is
/// deliberately small: it never hands out a reserved handle from `open`,
/// it accepts an empty `write` (there is nothing it could refuse to
/// accept), and it never touches a borrowed buffer beyond the count it
/// reports.  Everything else — which operations succeed, on which
/// inputs, with which error kinds — is the host's own business, and the
/// wrappers above state what holds whatever the host decides.
pub trait Api: Sized {
    /// The calls this host has received, in order.
    ///
    /// An implementation inside this crate overrides this with its real
    /// record.  The default stands only so that a host beyond the
    /// verifier's reach (one backed by a terminal or a real call table)
    /// can implement the trait at all; nothing is ever proved about
    /// such a host.
    open spec fn log(&self) -> Seq<HostCall> {
        Seq::empty()
    }

    /// Open a file, given a path and option bits.  On success the handle
    /// is freshly allocated above the reserved stream values.
    fn open(&mut self, path: &str, flags: Flags) -> (r: FfiResult<Handle, Error>)
        ensures
            final(self).log() == old(self).log().push(HostCall::Open(path@, flags.0, r)),
            r matches FfiResult::Success(h) ==> !h.is_reserved(),
    ;

    /// Close a previously opened file.
    fn close(&mut self, fd: Handle) -> (r: FfiResult<(), Error>)
        ensures
            final(self).log() == old(self).log().push(HostCall::Close(fd.spec_value(), r)),
    ;

    /// Write the given bytes to an open file, blocking until everything
    /// is accepted or an error occurs.  An empty buffer is always
    /// accepted.
    fn write(&mut self, fd: Handle, data: &[u8]) -> (r: FfiResult<(), Error>)
        ensures
            final(self).log() == old(self).log().push(
                HostCall::Write(fd.spec_value(), data@, r),
            ),
            data@.len() == 0 ==> r matches FfiResult::Success(_),
    ;

    /// Read from an open file into the caller's buffer, returning how
    /// many bytes were stored.  The host never writes beyond the length
    /// of the buffer and never touches the bytes past the count it
    /// returns.
    fn read(&mut self, fd: Handle, buffer: &mut Vec<u8>) -> (r: FfiResult<usize, Error>)
        ensures
            final(self).log() == old(self).log().push(
                HostCall::Read(fd.spec_value(), old(buffer)@.len(), final(buffer)@, r),
            ),
            final(buffer)@.len() == old(buffer)@.len(),
            r matches FfiResult::Success(n) ==> n <= old(buffer)@.len()
                && final(buffer)@.skip(n as int) == old(buffer)@.skip(n as int),
    ;

    /// Move the file offset to the given absolute position.
    fn seek_set(&mut self, fd: Handle, position: u64) -> (r: FfiResult<(), Error>)
        ensures
            final(self).log() == old(self).log().push(
                HostCall::SeekSet(fd.spec_value(), position, r),
            ),
    ;

    /// Move the file offset relative to the current position, returning
    /// the new offset.
    fn seek_cur(&mut self, fd: Handle, offset: i64) -> (r: FfiResult<u64, Error>)
        ensures
            final(self).log() == old(self).log().push(
                HostCall::SeekCur(fd.spec_value(), offset, r),
            ),
    ;

    /// Move the file offset to the end of the file, returning the new
    /// offset.
    fn seek_end(&mut self, fd: Handle) -> (r: FfiResult<u64, Error>)
        ensures
            final(self).log() == old(self).log().push(HostCall::SeekEnd(fd.spec_value(), r)),
    ;

    /// Rename a file.
    fn rename(&mut self, old_path: &str, new_path: &str) -> (r: FfiResult<(), Error>)
        ensures
            final(self).log() == old(self).log().push(
                HostCall::Rename(old_path@, new_path@, r),
            ),
    ;

    /// Perform a device-defined I/O control operation.
    fn ioctl(&mut self, fd: Handle, command: u64, value: u64) -> (r: FfiResult<u64, Error>)
        ensures
            final(self).log() == old(self).log().push(
                HostCall::Ioctl(fd.spec_value(), command, value, r),
            ),
    ;

    /// Open a directory, given a path.
    fn opendir(&mut self, path: &str) -> (r: FfiResult<DirHandle, Error>)
        ensures
            final(self).log() == old(self).log().push(HostCall::OpenDir(path@, r)),
    ;

    /// Close a previously opened directory.
    fn closedir(&mut self, dir: DirHandle) -> (r: FfiResult<(), Error>)
        ensures
            final(self).log() == old(self).log().push(
                HostCall::CloseDir(dir.spec_value(), r),
            ),
    ;

    /// Read the next entry from an open directory.  The end of the
    /// directory is signalled with the end-of-stream error kind.
    fn readdir(&mut self, dir: DirHandle) -> (r: FfiResult<Entry, Error>)
        ensures
            final(self).log() == old(self).log().push(
                HostCall::ReadDirEntry(dir.spec_value(), r),
            ),
    ;

    /// Get information about a file, given its path.
    fn stat(&mut self, path: &str) -> (r: FfiResult<Stat, Error>)
        ensures
            final(self).log() == old(self).log().push(HostCall::StatPath(path@, r)),
    ;

    /// Get information about an open file.
    fn fstat(&mut self, fd: Handle) -> (r: FfiResult<Stat, Error>)
        ensures
            final(self).log() == old(self).log().push(
                HostCall::StatHandle(fd.spec_value(), r),
            ),
    ;

    /// Delete a file, given its path.
    fn deletefile(&mut self, path: &str) -> (r: FfiResult<(), Error>)
        ensures
            final(self).log() == old(self).log().push(HostCall::DeleteFile(path@, r)),
    ;

    /// Delete an empty directory, given its path.
    fn deletedir(&mut self, path: &str) -> (r: FfiResult<(), Error>)
        ensures
            final(self).log() == old(self).log().push(HostCall::DeleteDir(path@, r)),
    ;

    /// Change the current directory to the given path.
    fn chdir(&mut self, path: &str) -> (r: FfiResult<(), Error>)
        ensures
            final(self).log() == old(self).log().push(HostCall::ChDir(path@, r)),
    ;

    /// Change the current directory to the given open directory.
    fn dchdir(&mut self, dir: DirHandle) -> (r: FfiResult<(), Error>)
        ensures
            final(self).log() == old(self).log().push(
                HostCall::ChDirHandle(dir.spec_value(), r),
            ),
    ;

    /// Store the current directory path into the caller's buffer,
    /// returning how many bytes were stored.  The same buffer discipline
    /// as for `read` applies.
    fn pwd(&mut self, buffer: &mut Vec<u8>) -> (r: FfiResult<usize, Error>)
        ensures
            final(self).log() == old(self).log().push(
                HostCall::Pwd(old(buffer)@.len(), final(buffer)@, r),
            ),
            final(buffer)@.len() == old(buffer)@.len(),
            r matches FfiResult::Success(n) ==> n <= old(buffer)@.len()
                && final(buffer)@.skip(n as int) == old(buffer)@.skip(n as int),
    ;

    /// Allocate memory, returning its address.
    fn malloc(&mut self, size: usize, alignment: usize) -> (r: FfiResult<usize, Error>)
        ensures
            final(self).log() == old(self).log().push(
                HostCall::Malloc(size as nat, alignment as nat, r),
            ),
    ;

    /// Free memory previously handed out by `malloc`, given the same size
    /// and alignment values.
    fn free(&mut self, ptr: usize, size: usize, alignment: usize)
        ensures
            final(self).log() == old(self).log().push(
                HostCall::Free(ptr as nat, size as nat, alignment as nat),
            ),
    ;
}

} // verus!
