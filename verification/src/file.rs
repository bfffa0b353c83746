//! Owning wrappers around host-allocated handles.
//!
//! A [`File`] owns exactly one file handle and a [`ReadDir`] owns exactly
//! one directory handle.  Ownership of the handle moves with the wrapper
//! value and is given up through [`File::close`] (which surfaces a close
//! error) or [`File::release`] (the end-of-scope path, which discards
//! one).  Both consume the wrapper, so the close operation is issued at
//! most once per wrapper, and the specifications below pin down on the
//! host's call log exactly when it is issued: never for the three
//! reserved standard-stream handles, exactly once for every other handle.
//!
//! Each operation converts the host's boundary-encoded answer to the
//! native shape at the point of the call and returns it unchanged; its
//! contract states this by naming the returned value, re-encoded, inside
//! the logged call, so the log entry and the returned value can never
//! disagree.

use vstd::prelude::*;
use vstd::string::StringSliceAdditionalSpecFns;

use crate::api::Api;
use crate::api::HostCall;
use crate::error::Error;
use crate::ffi::FfiResult;
use crate::handle::DirHandle;
use crate::handle::Entry;
use crate::handle::Flags;
use crate::handle::Handle;
use crate::handle::Stat;
use crate::handle::STDERR_HANDLE;
use crate::handle::STDIN_HANDLE;
use crate::handle::STDOUT_HANDLE;
use crate::path::Path;

verus! {

/// An open file (or stream): the owning wrapper around one file handle.
///
/// The library itself never duplicates a wrapper: every operation that
/// gives up the handle consumes the wrapper, and transferring the
/// wrapper value is the intended way to transfer the handle.  (The
/// handle field is public, so code outside the library *can* mint a
/// second wrapper for a live handle; the proofs below do not depend on
/// it never doing so.)
#[derive(Debug, PartialEq, Eq, Structural)]
pub struct File {
    /// The handle this wrapper owns.
    pub handle: Handle,
}

/// What a file-open outcome looks like on the boundary: the opened
/// wrapper's handle on success, the error code otherwise.
pub open spec fn opened_result(r: Result<File, Error>) -> FfiResult<Handle, Error> {
    match r {
        Ok(f) => FfiResult::Success(f.handle),
        Err(e) => FfiResult::Failure(e),
    }
}

/// What a directory-open outcome looks like on the boundary.
pub open spec fn opened_dir_result(r: Result<ReadDir, Error>) -> FfiResult<DirHandle, Error> {
    match r {
        Ok(d) => FfiResult::Success(d.handle),
        Err(e) => FfiResult::Failure(e),
    }
}

/// What a directory entry outcome decodes to: an entry is handed on, the
/// end-of-stream signal becomes the distinguished "no more entries"
/// outcome, and every other error passes through unchanged.
pub open spec fn entry_outcome(hr: FfiResult<Entry, Error>) -> Result<Option<Entry>, Error> {
    match hr {
        FfiResult::Success(e) => Ok(Some(e)),
        FfiResult::Failure(Error::EndOfFile) => Ok(None),
        FfiResult::Failure(e) => Err(e),
    }
}

/// Decode a directory-entry answer by the [`entry_outcome`] rule.
pub fn decode_entry(hr: FfiResult<Entry, Error>) -> (r: Result<Option<Entry>, Error>)
    ensures
        r == entry_outcome(hr),
{
    match hr {
        FfiResult::Success(e) => Ok(Some(e)),
        FfiResult::Failure(Error::EndOfFile) => Ok(None),
        FfiResult::Failure(e) => Err(e),
    }
}

impl File {
    /// Open a file, given a validated path and option bits.
    ///
    /// Issues exactly one `open` call and returns the host's decoded
    /// answer: `Ok` wrapping exactly the handle the host allocated
    /// (fresh and non-reserved), or the host's error code unchanged.
    pub fn open<H: Api>(host: &mut H, path: Path<'_>, flags: Flags) -> (r: Result<File, Error>)
        ensures
            final(host).log() == old(host).log().push(
                HostCall::Open(path.inner@, flags.0, opened_result(r)),
            ),
            r matches Ok(f) ==> !f.handle.is_reserved(),
    {
        match host.open(path.as_str(), flags) {
            FfiResult::Success(handle) => Ok(File { handle }),
            FfiResult::Failure(e) => Err(e),
        }
    }

    /// Write the whole buffer to this file, blocking until everything is
    /// accepted or an error occurs; a partial write is never observable.
    ///
    /// Issues exactly one `write` call, whatever the buffer holds, and
    /// returns the host's decoded answer: `Ok(())` exactly when the host
    /// accepted the entire buffer, the host's error code unchanged
    /// otherwise.  A zero-length buffer succeeds.
    pub fn write<H: Api>(&self, host: &mut H, buffer: &[u8]) -> (r: Result<(), Error>)
        ensures
            final(host).log() == old(host).log().push(
                HostCall::Write(self.handle.spec_value(), buffer@, FfiResult::encoded(r)),
            ),
            buffer@.len() == 0 ==> r matches Ok(_),
    {
        match host.write(self.handle, buffer) {
            FfiResult::Success(x) => Ok(x),
            FfiResult::Failure(e) => Err(e),
        }
    }

    /// Write the bytes of a string to this file, as [`File::write`] does.
    pub fn write_str<H: Api>(&self, host: &mut H, s: &str) -> (r: Result<(), Error>)
        ensures
            final(host).log() == old(host).log().push(
                HostCall::Write(self.handle.spec_value(), s.spec_bytes(), FfiResult::encoded(r)),
            ),
            s.spec_bytes().len() == 0 ==> r matches Ok(_),
    {
        self.write(host, s.as_bytes())
    }

    /// Read from this file into the front of `buffer`, returning how many
    /// bytes were stored.
    ///
    /// The count may be less than the buffer length; a count of zero
    /// means no data is currently available, not necessarily exhaustion.
    /// Exhaustion is signalled by the distinct end-of-stream error.  The
    /// buffer keeps its length, and the bytes past the returned count are
    /// untouched.  Issues exactly one `read` call and returns the host's
    /// decoded answer — the count the host reported, or its error code
    /// unchanged.
    pub fn read<H: Api>(&self, host: &mut H, buffer: &mut Vec<u8>) -> (r: Result<usize, Error>)
        ensures
            final(host).log() == old(host).log().push(
                HostCall::Read(
                    self.handle.spec_value(),
                    old(buffer)@.len(),
                    final(buffer)@,
                    FfiResult::encoded(r),
                ),
            ),
            final(buffer)@.len() == old(buffer)@.len(),
            r matches Ok(n) ==> n <= old(buffer)@.len()
                && final(buffer)@.skip(n as int) == old(buffer)@.skip(n as int),
    {
        match host.read(self.handle, buffer) {
            FfiResult::Success(n) => Ok(n),
            FfiResult::Failure(e) => Err(e),
        }
    }

    /// Give up this wrapper and close its handle, surfacing any error
    /// the host reports.  This is the preferred path when the caller can
    /// act on a failure.
    ///
    /// Law: a reserved standard-stream handle never reaches the host's
    /// close operation — for such a wrapper this is a no-op that
    /// succeeds.  For every other handle, exactly one `close` call is
    /// issued and its decoded answer is returned; the wrapper is
    /// consumed, so no later operation can close the same value again.
    pub fn close<H: Api>(self, host: &mut H) -> (r: Result<(), Error>)
        ensures
            self.handle.is_reserved() ==> final(host).log() == old(host).log() && r matches Ok(_),
            !self.handle.is_reserved() ==> final(host).log() == old(host).log().push(
                HostCall::Close(self.handle.spec_value(), FfiResult::encoded(r)),
            ),
    {
        if self.handle.value() <= STDERR_HANDLE {
            Ok(())
        } else {
            match host.close(self.handle) {
                FfiResult::Success(x) => Ok(x),
                FfiResult::Failure(e) => Err(e),
            }
        }
    }

    /// Give up this wrapper at the end of its scope, discarding any close
    /// error: releasing a resource cannot itself fail.
    ///
    /// The same closing policy as [`File::close`] applies: nothing is
    /// issued for a reserved standard-stream handle, and exactly one
    /// `close` call is issued for every other handle, whatever the host
    /// answers.
    pub fn release<H: Api>(self, host: &mut H)
        ensures
            self.handle.is_reserved() ==> final(host).log() == old(host).log(),
            !self.handle.is_reserved() ==> exists|hr: FfiResult<(), Error>|
                final(host).log() == old(host).log().push(
                    HostCall::Close(self.handle.spec_value(), hr),
                ),
    {
        if self.handle.value() > STDERR_HANDLE {
            let hr = host.close(self.handle);
            proof {
                let ghost hrg = hr;
                assert(host.log() == old(host).log().push(
                    HostCall::Close(self.handle.spec_value(), hrg),
                ));
            }
        }
    }

    /// Move the file offset to the given absolute position.
    ///
    /// Some resources do not support seeking and report an error.  One
    /// `seek_set` call; the host's decoded answer is returned.
    pub fn seek_set<H: Api>(&self, host: &mut H, position: u64) -> (r: Result<(), Error>)
        ensures
            final(host).log() == old(host).log().push(
                HostCall::SeekSet(self.handle.spec_value(), position, FfiResult::encoded(r)),
            ),
    {
        match host.seek_set(self.handle, position) {
            FfiResult::Success(x) => Ok(x),
            FfiResult::Failure(e) => Err(e),
        }
    }

    /// Move the file offset relative to the current position, returning
    /// the new offset the host reports.
    pub fn seek_cur<H: Api>(&self, host: &mut H, offset: i64) -> (r: Result<u64, Error>)
        ensures
            final(host).log() == old(host).log().push(
                HostCall::SeekCur(self.handle.spec_value(), offset, FfiResult::encoded(r)),
            ),
    {
        match host.seek_cur(self.handle, offset) {
            FfiResult::Success(n) => Ok(n),
            FfiResult::Failure(e) => Err(e),
        }
    }

    /// Move the file offset to the end of the file, returning the new
    /// offset the host reports.
    pub fn seek_end<H: Api>(&self, host: &mut H) -> (r: Result<u64, Error>)
        ensures
            final(host).log() == old(host).log().push(
                HostCall::SeekEnd(self.handle.spec_value(), FfiResult::encoded(r)),
            ),
    {
        match host.seek_end(self.handle) {
            FfiResult::Success(n) => Ok(n),
            FfiResult::Failure(e) => Err(e),
        }
    }

    /// Rename a file.  Neither path may name a currently open file.  One
    /// `rename` call; the host's decoded answer is returned.
    pub fn rename<H: Api>(host: &mut H, old_path: Path<'_>, new_path: Path<'_>) -> (r: Result<
        (),
        Error,
    >)
        ensures
            final(host).log() == old(host).log().push(
                HostCall::Rename(old_path.inner@, new_path.inner@, FfiResult::encoded(r)),
            ),
    {
        match host.rename(old_path.as_str(), new_path.as_str()) {
            FfiResult::Success(x) => Ok(x),
            FfiResult::Failure(e) => Err(e),
        }
    }

    /// Perform a device-defined I/O control operation; the meaning of
    /// `command` and `value` belongs to the device.  The host's decoded
    /// answer is returned.
    pub fn ioctl<H: Api>(&self, host: &mut H, command: u64, value: u64) -> (r: Result<u64, Error>)
        ensures
            final(host).log() == old(host).log().push(
                HostCall::Ioctl(
                    self.handle.spec_value(),
                    command,
                    value,
                    FfiResult::encoded(r),
                ),
            ),
    {
        match host.ioctl(self.handle, command, value) {
            FfiResult::Success(n) => Ok(n),
            FfiResult::Failure(e) => Err(e),
        }
    }

    /// Get information about this open file: the host's decoded answer
    /// to one `fstat` call.
    pub fn stat<H: Api>(&self, host: &mut H) -> (r: Result<Stat, Error>)
        ensures
            final(host).log() == old(host).log().push(
                HostCall::StatHandle(self.handle.spec_value(), FfiResult::encoded(r)),
            ),
    {
        match host.fstat(self.handle) {
            FfiResult::Success(s) => Ok(s),
            FfiResult::Failure(e) => Err(e),
        }
    }
}

/// An open directory being iterated: the owning wrapper around one
/// directory handle.
#[derive(Debug, PartialEq, Eq, Structural)]
pub struct ReadDir {
    /// The handle this wrapper owns.
    pub handle: DirHandle,
}

impl ReadDir {
    /// Open a directory for iteration.  One `opendir` call; `Ok` wraps
    /// exactly the handle the host allocated, an error passes through
    /// unchanged.
    pub fn open<H: Api>(host: &mut H, path: Path<'_>) -> (r: Result<ReadDir, Error>)
        ensures
            final(host).log() == old(host).log().push(
                HostCall::OpenDir(path.inner@, opened_dir_result(r)),
            ),
    {
        match host.opendir(path.as_str()) {
            FfiResult::Success(handle) => Ok(ReadDir { handle }),
            FfiResult::Failure(e) => Err(e),
        }
    }

    /// Fetch the next entry of this directory.
    ///
    /// One `readdir` call, decoded by the [`entry_outcome`] rule: the
    /// end of the directory is a distinguished "no more entries"
    /// outcome, not an error, and the end-of-stream kind is never
    /// surfaced as an error here.
    pub fn next_entry<H: Api>(&self, host: &mut H) -> (r: Result<Option<Entry>, Error>)
        ensures
            exists|hr: FfiResult<Entry, Error>|
                final(host).log() == old(host).log().push(
                    HostCall::ReadDirEntry(self.handle.spec_value(), hr),
                ) && r == entry_outcome(hr),
            r matches Err(e) ==> e != Error::EndOfFile,
    {
        let hr = host.readdir(self.handle);
        let ghost hrg = hr;
        let r = decode_entry(hr);
        proof {
            assert(host.log() == old(host).log().push(
                HostCall::ReadDirEntry(self.handle.spec_value(), hrg),
            ) && r == entry_outcome(hrg));
        }
        r
    }

    /// Give up this wrapper and close its handle, surfacing any error:
    /// one `closedir` call, its decoded answer returned.
    pub fn close<H: Api>(self, host: &mut H) -> (r: Result<(), Error>)
        ensures
            final(host).log() == old(host).log().push(
                HostCall::CloseDir(self.handle.spec_value(), FfiResult::encoded(r)),
            ),
    {
        match host.closedir(self.handle) {
            FfiResult::Success(x) => Ok(x),
            FfiResult::Failure(e) => Err(e),
        }
    }

    /// Give up this wrapper at the end of its scope, discarding any
    /// error: exactly one `closedir` call is issued for its handle.
    pub fn release<H: Api>(self, host: &mut H)
        ensures
            exists|hr: FfiResult<(), Error>|
                final(host).log() == old(host).log().push(
                    HostCall::CloseDir(self.handle.spec_value(), hr),
                ),
    {
        let hr = host.closedir(self.handle);
        proof {
            let ghost hrg = hr;
            assert(host.log() == old(host).log().push(
                HostCall::CloseDir(self.handle.spec_value(), hrg),
            ));
        }
    }
}

/// A wrapper for standard input, which is always open.
pub fn stdin() -> (f: File)
    ensures
        f.handle.spec_value() == STDIN_HANDLE,
        f.handle.is_reserved(),
{
    File { handle: Handle::new_stdin() }
}

/// A wrapper for standard output, which is always open.
pub fn stdout() -> (f: File)
    ensures
        f.handle.spec_value() == STDOUT_HANDLE,
        f.handle.is_reserved(),
{
    File { handle: Handle::new_stdout() }
}

/// A wrapper for standard error, which is always open.
pub fn stderr() -> (f: File)
    ensures
        f.handle.spec_value() == STDERR_HANDLE,
        f.handle.is_reserved(),
{
    File { handle: Handle::new_stderr() }
}

/// Get information about a file on disk, given its path: the host's
/// decoded answer to one `stat` call.
pub fn stat<H: Api>(host: &mut H, path: Path<'_>) -> (r: Result<Stat, Error>)
    ensures
        final(host).log() == old(host).log().push(
            HostCall::StatPath(path.inner@, FfiResult::encoded(r)),
        ),
{
    match host.stat(path.as_str()) {
        FfiResult::Success(s) => Ok(s),
        FfiResult::Failure(e) => Err(e),
    }
}

/// Delete a file from disk.  The file may not be currently open.  One
/// `deletefile` call; the host's decoded answer is returned.
pub fn delete<H: Api>(host: &mut H, path: Path<'_>) -> (r: Result<(), Error>)
    ensures
        final(host).log() == old(host).log().push(
            HostCall::DeleteFile(path.inner@, FfiResult::encoded(r)),
        ),
{
    match host.deletefile(path.as_str()) {
        FfiResult::Success(x) => Ok(x),
        FfiResult::Failure(e) => Err(e),
    }
}

/// Change the current working directory to the given path.  One `chdir`
/// call; the host's decoded answer is returned.
pub fn chdir<H: Api>(host: &mut H, path: Path<'_>) -> (r: Result<(), Error>)
    ensures
        final(host).log() == old(host).log().push(
            HostCall::ChDir(path.inner@, FfiResult::encoded(r)),
        ),
{
    match host.chdir(path.as_str()) {
        FfiResult::Success(x) => Ok(x),
        FfiResult::Failure(e) => Err(e),
    }
}

/// Change the current working directory to the given open directory.
/// One `dchdir` call; the host's decoded answer is returned.
pub fn dchdir<H: Api>(host: &mut H, dir: DirHandle) -> (r: Result<(), Error>)
    ensures
        final(host).log() == old(host).log().push(
            HostCall::ChDirHandle(dir.spec_value(), FfiResult::encoded(r)),
        ),
{
    match host.dchdir(dir) {
        FfiResult::Success(x) => Ok(x),
        FfiResult::Failure(e) => Err(e),
    }
}

/// Store the current working directory into the front of `buffer`,
/// returning how many bytes were stored.  The buffer keeps its length
/// and the bytes past the returned count are untouched; the host's
/// decoded answer is returned.
pub fn pwd<H: Api>(host: &mut H, buffer: &mut Vec<u8>) -> (r: Result<usize, Error>)
    ensures
        final(host).log() == old(host).log().push(
            HostCall::Pwd(old(buffer)@.len(), final(buffer)@, FfiResult::encoded(r)),
        ),
        final(buffer)@.len() == old(buffer)@.len(),
        r matches Ok(n) ==> n <= old(buffer)@.len()
            && final(buffer)@.skip(n as int) == old(buffer)@.skip(n as int),
{
    match host.pwd(buffer) {
        FfiResult::Success(n) => Ok(n),
        FfiResult::Failure(e) => Err(e),
    }
}

/// Allocate memory from the host, returning its address: the host's
/// decoded answer to one `malloc` call.
pub fn malloc<H: Api>(host: &mut H, size: usize, alignment: usize) -> (r: Result<usize, Error>)
    ensures
        final(host).log() == old(host).log().push(
            HostCall::Malloc(size as nat, alignment as nat, FfiResult::encoded(r)),
        ),
{
    match host.malloc(size, alignment) {
        FfiResult::Success(p) => Ok(p),
        FfiResult::Failure(e) => Err(e),
    }
}

/// Free memory previously handed out by [`malloc`], with the same size
/// and alignment values.
pub fn free<H: Api>(host: &mut H, ptr: usize, size: usize, alignment: usize)
    ensures
        final(host).log() == old(host).log().push(
            HostCall::Free(ptr as nat, size as nat, alignment as nat),
        ),
{
    host.free(ptr, size, alignment)
}

/// Law: giving up the owning wrapper of a non-reserved handle raises the
/// host's close count for that handle by exactly one; giving up a
/// standard-stream wrapper raises no close count at all.  The premises
/// are exactly what [`File::close`] and [`File::release`] ensure, and
/// the wrapper is consumed by either, so no later operation can close
/// the same value again until the host hands it out anew.
pub proof fn lemma_release_close_count(
    log_before: Seq<HostCall>,
    log_after: Seq<HostCall>,
    handle: Handle,
    host_answer: FfiResult<(), Error>,
)
    requires
        handle.is_reserved() ==> log_after == log_before,
        !handle.is_reserved() ==> log_after == log_before.push(
            HostCall::Close(handle.spec_value(), host_answer),
        ),
    ensures
        !handle.is_reserved() ==> crate::api::close_count(log_after, handle.spec_value())
            == crate::api::close_count(log_before, handle.spec_value()) + 1,
        handle.is_reserved() ==> forall|h: u8|
            crate::api::close_count(log_after, h) == crate::api::close_count(log_before, h),
{
    if !handle.is_reserved() {
        crate::api::lemma_close_count_push(
            log_before,
            HostCall::Close(handle.spec_value(), host_answer),
            handle.spec_value(),
        );
    }
}

/// The outcome of one round of waiting for a key press.
#[derive(Debug, Copy, Clone, PartialEq, Eq, Structural)]
pub enum WaitForKey {
    /// The user wants more data.
    More,
    /// The user wants to quit.
    Quit,
}

} // verus!
