//! An in-memory host: the full call table over plain vectors.
//!
//! A [`RamHost`] stands in for a real operating environment: it keeps a
//! flat store of named files, a queue of bytes for standard input, and
//! capture buffers for standard output and error, and it implements
//! every operation of the call table with the contracts proved.  Beyond
//! the ghost call log that every host carries, it also records closes
//! and counts writes in ordinary fields, so running code (tests above
//! all) can observe which table operations were invoked.
//!
//! Its storage is deliberately simple: one flat directory of files, no
//! devices, no allocator, and a current directory fixed at the root.
//! Operations that need more than that report the unimplemented error
//! kind, exactly as a minimal host would.
//!
//! Under the well-formedness predicate [`RamHost::wf`] — true of a
//! fresh host and preserved by every operation — the file-store
//! operations carry exact contracts: which error comes on which input,
//! which bytes a read delivers, how a write splices the stored file,
//! where each seek leaves the offset, and what open allocates.  The
//! round-trip law [`written_bytes_read_back`] is proved from those
//! contracts alone.

use vstd::prelude::*;

use crate::api::Api;
use crate::api::HostCall;
use crate::error::Error;
use crate::ffi::FfiResult;
use crate::handle::DirHandle;
use crate::handle::Entry;
use crate::handle::Flags;
use crate::handle::Handle;
use crate::handle::Stat;
use crate::handle::Time;
use crate::handle::Attributes;
use crate::handle::ATTR_ARCHIVE;
use crate::handle::ATTR_DEVICE;
use crate::handle::STDERR_HANDLE;
use crate::handle::STDIN_HANDLE;
use crate::handle::STDOUT_HANDLE;

verus! {

/// The lowest handle value a [`RamHost`] allocates: the first value
/// above the reserved standard streams.
pub const FIRST_ALLOCATED_HANDLE: u8 = 3;

/// One named file in the flat store.  A deleted file leaves a
/// tombstone behind (`present` false), so the indices held by open
/// handles stay stable.
#[derive(Debug, Clone, PartialEq, Eq)]
pub struct RamFile {
    /// The file's name.
    pub name: String,
    /// The file's contents.
    pub data: Vec<u8>,
    /// Whether the file still exists.
    pub present: bool,
}

/// The state the host keeps for one open file handle.
#[derive(Debug, Copy, Clone, PartialEq, Eq, Structural)]
pub struct OpenFile {
    /// The handle value given out.
    pub handle: u8,
    /// Which entry of the file store this handle reads and writes.
    pub file_index: usize,
    /// The current file offset.
    pub position: usize,
    /// Whether the handle was opened with write support.
    pub writable: bool,
}

/// The state the host keeps for one open directory handle.
#[derive(Debug, Copy, Clone, PartialEq, Eq, Structural)]
pub struct OpenDir {
    /// The handle value given out.
    pub handle: u8,
    /// The next entry of the file store the iteration will look at.
    pub position: usize,
}

/// An in-memory host with a recording of every invocation.
pub struct RamHost {
    /// The flat store of named files.
    pub files: Vec<RamFile>,
    /// The open file handles.
    pub open_files: Vec<OpenFile>,
    /// The open directory handles.
    pub open_dirs: Vec<OpenDir>,
    /// The next handle value to give out; handles are unique among
    /// currently and previously open resources because this only grows.
    pub next_handle: u8,
    /// Bytes queued for standard input and not yet read.
    pub stdin_data: Vec<u8>,
    /// Every byte written to standard output.
    pub stdout_data: Vec<u8>,
    /// Every byte written to standard error.
    pub stderr_data: Vec<u8>,
    /// Every handle value passed to the close operation, in order.
    pub closes: Vec<u8>,
    /// How many times the write operation was invoked.
    pub write_calls: u64,
    /// The ghost record of every invocation.
    pub call_log: Ghost<Seq<HostCall>>,
}

impl RamHost {
    /// A fresh host: no files, nothing open, nothing queued, nothing
    /// recorded.
    pub fn new() -> (h: RamHost)
        ensures
            h.log() == Seq::<HostCall>::empty(),
            h.wf(),
            h.files@.len() == 0,
            h.open_files@.len() == 0,
            h.open_dirs@.len() == 0,
            h.next_handle == FIRST_ALLOCATED_HANDLE,
            h.stdin_data@.len() == 0,
            h.stdout_data@.len() == 0,
            h.stderr_data@.len() == 0,
            h.closes@.len() == 0,
            h.write_calls == 0,
    {
        RamHost {
            files: Vec::new(),
            open_files: Vec::new(),
            open_dirs: Vec::new(),
            next_handle: FIRST_ALLOCATED_HANDLE,
            stdin_data: Vec::new(),
            stdout_data: Vec::new(),
            stderr_data: Vec::new(),
            closes: Vec::new(),
            write_calls: 0,
            call_log: Ghost(Seq::empty()),
        }
    }

    /// Put a file into the store, as it would exist on the host's disk
    /// before the process starts.  Host-side preparation, not a table
    /// operation: nothing is logged.
    pub fn add_file(&mut self, name: &str, data: &[u8])
        ensures
            final(self).log() == old(self).log(),
            old(self).wf() && !old(self).has_file(name@) ==> final(self).wf() && final(self).has_file(name@) && final(self).stored(name@).data@ == data@ && !final(self).name_in_use(name@),
            final(self).files@.len() == old(self).files@.len() + 1,
            final(self).files@.last().name@ == name@,
            final(self).files@.last().data@ == data@,
            final(self).files@.last().present,
            forall|i: int|
                0 <= i < old(self).files@.len() ==> final(self).files@[i] == old(self).files@[i],
            final(self).open_files == old(self).open_files,
            final(self).stdin_data == old(self).stdin_data,
            final(self).closes == old(self).closes,
    {
        let entry = RamFile {
            name: name.to_owned(),
            data: vstd::slice::slice_to_vec(data),
            present: true,
        };
        self.files.push(entry);
        proof {
            if old(self).wf() && !old(self).has_file(name@) {
                let last = self.files@.len() - 1;
                assert forall|t: int| 0 <= t < self.open_files@.len() implies self.slot_ok(t) by {
                    assert(old(self).slot_ok(t));
                    assert(self.open_files@[t] == old(self).open_files@[t]);
                    assert(self.files@[old(self).open_files@[t].file_index as int] == old(self).files@[old(self).open_files@[t].file_index as int]);
                }
                assert forall|a: int, b: int|
                    0 <= a < b < self.open_files@.len() implies (#[trigger] self.open_files@[
                    a
                ]).handle != (#[trigger] self.open_files@[b]).handle by {
                    assert(old(self).open_files@[a].handle != old(self).open_files@[b].handle);
                }
                assert forall|t: int|
                    0 <= t < self.open_dirs@.len() implies FIRST_ALLOCATED_HANDLE <= (
                #[trigger] self.open_dirs@[t]).handle < self.next_handle by {
                    assert(old(self).open_dirs@[t] == self.open_dirs@[t]);
                }
                assert forall|a: int, b: int|
                    0 <= a < b < self.open_dirs@.len() implies (#[trigger] self.open_dirs@[
                    a
                ]).handle != (#[trigger] self.open_dirs@[b]).handle by {
                    assert(old(self).open_dirs@[a].handle != old(self).open_dirs@[b].handle);
                }
                assert forall|a: int, b: int|
                    0 <= a < b < self.files@.len() && (#[trigger] self.files@[a]).present && (
                #[trigger] self.files@[b]).present implies self.files@[a].name@ != self.files@[
                    b
                ].name@ by {
                    if b < last {
                        assert(old(self).files@[a] == self.files@[a]);
                        assert(old(self).files@[b] == self.files@[b]);
                    } else {
                        assert(self.files@[a] == old(self).files@[a]);
                    }
                }
                assert(self.wf());
                assert(self.files@[last].present && self.files@[last].name@ == name@);
                assert(self.has_file(name@));
                lemma_file_unique(*self, name@);
                assert(self.file_index_of(name@) == last);
                assert forall|j: int|
                    0 <= j < self.open_files@.len() implies (#[trigger] self.open_files@[
                    j
                ]).file_index != last by {
                    assert(old(self).slot_ok(j));
                }
            }
        }
    }

    /// Queue bytes that standard input will deliver, as a user would
    /// type them.  Host-side preparation, not a table operation:
    /// nothing is logged.
    pub fn queue_input(&mut self, data: &[u8])
        ensures
            final(self).log() == old(self).log(),
            final(self).stdin_data@ == old(self).stdin_data@ + data@,
            final(self).files == old(self).files,
            final(self).open_files == old(self).open_files,
            final(self).closes == old(self).closes,
    {
        let mut i: usize = 0;
        while i < data.len()
            invariant
                i <= data@.len(),
                self.stdin_data@ == old(self).stdin_data@ + data@.take(i as int),
                self.files == old(self).files,
                self.open_files == old(self).open_files,
                self.closes == old(self).closes,
                self.call_log == old(self).call_log,
            decreases data@.len() - i,
        {
            self.stdin_data.push(data[i]);
            proof {
                assert(old(self).stdin_data@ + data@.take(i + 1 as int) =~= (old(self).stdin_data@
                    + data@.take(i as int)).push(data@[i as int]));
            }
            i = i + 1;
        }
        proof {
            assert(data@.take(data@.len() as int) =~= data@);
        }
    }

    /// Find the open-file slot for a handle value.
    fn find_open(&self, handle: u8) -> (r: Option<usize>)
        ensures
            r matches Some(i) ==> i < self.open_files@.len() && self.open_files@[i as int].handle
                == handle,
            r is None ==> forall|i: int|
                0 <= i < self.open_files@.len() ==> self.open_files@[i].handle != handle,
    {
        let mut i: usize = 0;
        while i < self.open_files.len()
            invariant
                i <= self.open_files@.len(),
                forall|j: int| 0 <= j < i ==> self.open_files@[j].handle != handle,
            decreases self.open_files@.len() - i,
        {
            if self.open_files[i].handle == handle {
                return Some(i);
            }
            i = i + 1;
        }
        None
    }

    /// Find the open-directory slot for a handle value.
    fn find_open_dir(&self, handle: u8) -> (r: Option<usize>)
        ensures
            r matches Some(i) ==> i < self.open_dirs@.len() && self.open_dirs@[i as int].handle
                == handle,
            r is None ==> forall|i: int|
                0 <= i < self.open_dirs@.len() ==> self.open_dirs@[i].handle != handle,
    {
        let mut i: usize = 0;
        while i < self.open_dirs.len()
            invariant
                i <= self.open_dirs@.len(),
                forall|j: int| 0 <= j < i ==> self.open_dirs@[j].handle != handle,
            decreases self.open_dirs@.len() - i,
        {
            if self.open_dirs[i].handle == handle {
                return Some(i);
            }
            i = i + 1;
        }
        None
    }

    /// Whether the store holds a present file with the given name.
    pub open spec fn has_file(self, name: Seq<char>) -> bool {
        exists|i: int|
            0 <= i < self.files@.len() && (#[trigger] self.files@[i]).present && self.files@[
                i
            ].name@ == name
    }

    /// Whether the host can still give out a fresh handle.
    pub open spec fn can_allocate(self) -> bool {
        FIRST_ALLOCATED_HANDLE <= self.next_handle < 255
    }

    /// Find the present file with the given name.
    fn find_file(&self, name: &str) -> (r: Option<usize>)
        ensures
            r matches Some(i) ==> i < self.files@.len() && self.files@[i as int].present
                && self.files@[i as int].name@ == name@,
            r is None ==> !self.has_file(name@),
    {
        let wanted: String = name.to_owned();
        let mut i: usize = 0;
        while i < self.files.len()
            invariant
                i <= self.files@.len(),
                wanted@ == name@,
                forall|j: int|
                    0 <= j < i ==> !((#[trigger] self.files@[j]).present && self.files@[j].name@
                        == name@),
            decreases self.files@.len() - i,
        {
            if self.files[i].present && self.files[i].name == wanted {
                return Some(i);
            }
            i = i + 1;
        }
        None
    }

    /// Whether any open file handle uses the given store index.
    fn index_in_use(&self, file_index: usize) -> (r: bool)
        ensures
            r == exists|j: int|
                0 <= j < self.open_files@.len() && (#[trigger] self.open_files@[j]).file_index
                    == file_index,
    {
        let mut i: usize = 0;
        while i < self.open_files.len()
            invariant
                i <= self.open_files@.len(),
                forall|j: int|
                    0 <= j < i ==> (#[trigger] self.open_files@[j]).file_index != file_index,
            decreases self.open_files@.len() - i,
        {
            if self.open_files[i].file_index == file_index {
                return true;
            }
            i = i + 1;
        }
        false
    }

    /// The description of a stored file, as `stat` reports it.  The
    /// store keeps no clock, so both times are the epoch.
    fn describe(&self, file_index: usize) -> (r: Stat)
        requires
            file_index < self.files@.len(),
        ensures
            r.file_size == self.files@[file_index as int].data@.len(),
            r.attr.0 == ATTR_ARCHIVE,
    {
        let zero = Time {
            year_since_1970: 0,
            zero_indexed_month: 0,
            zero_indexed_day: 0,
            hours: 0,
            minutes: 0,
            seconds: 0,
        };
        Stat {
            file_size: self.files[file_index].data.len() as u64,
            ctime: zero,
            mtime: zero,
            attr: Attributes(ATTR_ARCHIVE),
        }
    }
}

impl RamHost {
    /// One open-file slot is internally consistent: its handle is an
    /// allocated value, it points at a present file, and its offset
    /// lies within that file.
    pub open spec fn slot_ok(self, i: int) -> bool {
        &&& FIRST_ALLOCATED_HANDLE <= self.open_files@[i].handle < self.next_handle
        &&& self.open_files@[i].file_index < self.files@.len()
        &&& self.files@[self.open_files@[i].file_index as int].present
        &&& self.open_files@[i].position <= self.files@[self.open_files@[
            i
        ].file_index as int].data@.len()
    }

    /// The host is well formed: every open slot is consistent, open
    /// file and directory handles are pairwise distinct and below the
    /// allocation counter, and present files have pairwise distinct
    /// names.  A fresh host is well formed and every operation keeps it
    /// so; the exact file-store clauses below are stated under it.
    pub open spec fn wf(self) -> bool {
        &&& forall|i: int| 0 <= i < self.open_files@.len() ==> self.slot_ok(i)
        &&& forall|i: int, j: int|
            0 <= i < j < self.open_files@.len() ==> (#[trigger] self.open_files@[i]).handle != (
            #[trigger] self.open_files@[j]).handle
        &&& forall|i: int|
            0 <= i < self.open_dirs@.len() ==> FIRST_ALLOCATED_HANDLE <= (
            #[trigger] self.open_dirs@[i]).handle < self.next_handle
        &&& forall|i: int, j: int|
            0 <= i < j < self.open_dirs@.len() ==> (#[trigger] self.open_dirs@[i]).handle != (
            #[trigger] self.open_dirs@[j]).handle
        &&& forall|i: int, j: int|
            0 <= i < j < self.files@.len() && (#[trigger] self.files@[i]).present && (
            #[trigger] self.files@[j]).present ==> self.files@[i].name@ != self.files@[j].name@
    }

    /// Whether some open-file slot carries this handle value.
    pub open spec fn has_slot(self, handle: u8) -> bool {
        exists|i: int|
            0 <= i < self.open_files@.len() && (#[trigger] self.open_files@[i]).handle == handle
    }

    /// The index of the open-file slot carrying this handle value;
    /// under [`RamHost::wf`] there is at most one.
    pub open spec fn slot_index(self, handle: u8) -> int {
        choose|i: int|
            0 <= i < self.open_files@.len() && (#[trigger] self.open_files@[i]).handle == handle
    }

    /// The open-file slot carrying this handle value.
    pub open spec fn slot(self, handle: u8) -> OpenFile {
        self.open_files@[self.slot_index(handle)]
    }

    /// The stored file an open handle reads and writes.
    pub open spec fn file_of(self, handle: u8) -> RamFile {
        self.files@[self.slot(handle).file_index as int]
    }

    /// The offset of an open handle.
    pub open spec fn pos_of(self, handle: u8) -> nat {
        self.slot(handle).position as nat
    }

    /// The length of the file behind an open handle.
    pub open spec fn len_of(self, handle: u8) -> nat {
        self.file_of(handle).data@.len()
    }

    /// The bytes of the file behind an open handle.
    pub open spec fn data_of(self, handle: u8) -> Seq<u8> {
        self.file_of(handle).data@
    }

    /// Whether an open handle stands at the end of its file.
    pub open spec fn at_end(self, handle: u8) -> bool {
        self.pos_of(handle) == self.len_of(handle)
    }

    /// The index of the present file with this name; under
    /// [`RamHost::wf`] there is at most one.
    pub open spec fn file_index_of(self, name: Seq<char>) -> int {
        choose|i: int|
            0 <= i < self.files@.len() && (#[trigger] self.files@[i]).present && self.files@[
                i
            ].name@ == name
    }

    /// The present file with this name.
    pub open spec fn stored(self, name: Seq<char>) -> RamFile {
        self.files@[self.file_index_of(name)]
    }

    /// Whether some open-file slot uses the present file with this name.
    pub open spec fn name_in_use(self, name: Seq<char>) -> bool {
        exists|j: int|
            0 <= j < self.open_files@.len() && (#[trigger] self.open_files@[j]).file_index
                == self.file_index_of(name)
    }

    /// Whether some open-directory slot carries this handle value.
    pub open spec fn has_dir_slot(self, handle: u8) -> bool {
        exists|i: int|
            0 <= i < self.open_dirs@.len() && (#[trigger] self.open_dirs@[i]).handle == handle
    }

    /// The index of the open-directory slot carrying this handle value;
    /// under [`RamHost::wf`] there is at most one.
    pub open spec fn dir_slot_index(self, handle: u8) -> int {
        choose|i: int|
            0 <= i < self.open_dirs@.len() && (#[trigger] self.open_dirs@[i]).handle == handle
    }

    /// The iteration position of an open directory handle.
    pub open spec fn dir_pos_of(self, handle: u8) -> nat {
        self.open_dirs@[self.dir_slot_index(handle)].position as nat
    }
}

/// The index of the first present file at or after `from`, or the
/// store's length when none remains.
pub open spec fn next_present(files: Seq<RamFile>, from: int) -> int
    decreases files.len() - from,
{
    if from < 0 {
        -1
    } else if from < files.len() {
        if files[from].present {
            from
        } else {
            next_present(files, from + 1)
        }
    } else {
        files.len() as int
    }
}

/// A scan that skipped only absent entries and stopped at a present one
/// (or the end) found exactly [`next_present`].
proof fn lemma_next_present_found(files: Seq<RamFile>, from: int, p: int)
    requires
        0 <= from <= p <= files.len(),
        forall|q: int| from <= q < p ==> !(#[trigger] files[q]).present,
        p == files.len() || files[p].present,
    ensures
        next_present(files, from) == p,
    decreases p - from,
{
    if from < p {
        assert(!files[from].present);
        lemma_next_present_found(files, from + 1, p);
    }
}

/// What the directory specification functions say carries over
/// unchanged directory state.
proof fn lemma_same_dirs(pre: RamHost, post: RamHost, handle: u8)
    requires
        pre.wf(),
        post.open_files == pre.open_files,
        post.files == pre.files,
        post.open_dirs == pre.open_dirs,
        post.next_handle == pre.next_handle,
    ensures
        post.has_dir_slot(handle) == pre.has_dir_slot(handle),
        pre.has_dir_slot(handle) ==> post.dir_slot_index(handle) == pre.dir_slot_index(handle)
            && post.dir_pos_of(handle) == pre.dir_pos_of(handle),
{
    lemma_wf_transfer(pre, post);
    if pre.has_dir_slot(handle) {
        lemma_dir_unique(pre, handle);
        assert(post.open_dirs@[pre.dir_slot_index(handle)].handle == handle);
        assert(post.has_dir_slot(handle));
        lemma_dir_unique(post, handle);
        assert(pre.open_dirs@[post.dir_slot_index(handle)].handle == handle);
    } else {
        if post.has_dir_slot(handle) {
            let k = post.dir_slot_index(handle);
            assert(0 <= k < post.open_dirs@.len() && post.open_dirs@[k].handle == handle);
            assert(pre.open_dirs@[k].handle == handle);
            assert(pre.has_dir_slot(handle));
        }
    }
}

/// Under well-formedness, the directory slot carrying a handle is
/// unique, so the chosen slot index is the one any search finds.
proof fn lemma_dir_unique(host: RamHost, handle: u8)
    requires
        host.wf(),
        host.has_dir_slot(handle),
    ensures
        0 <= host.dir_slot_index(handle) < host.open_dirs@.len(),
        host.open_dirs@[host.dir_slot_index(handle)].handle == handle,
        forall|i: int|
            0 <= i < host.open_dirs@.len() && (#[trigger] host.open_dirs@[i]).handle == handle
                ==> i == host.dir_slot_index(handle),
{
    let k = host.dir_slot_index(handle);
    assert(0 <= k < host.open_dirs@.len() && host.open_dirs@[k].handle == handle);
    assert forall|i: int|
        0 <= i < host.open_dirs@.len() && (#[trigger] host.open_dirs@[i]).handle
            == handle implies i == k by {
        if i < k {
            assert(host.open_dirs@[i].handle != host.open_dirs@[k].handle);
        } else if k < i {
            assert(host.open_dirs@[k].handle != host.open_dirs@[i].handle);
        }
    }
}

/// Under well-formedness, the slot carrying a handle is unique, so the
/// chosen slot index is the one any search finds.
proof fn lemma_slot_unique(host: RamHost, handle: u8)
    requires
        host.wf(),
        host.has_slot(handle),
    ensures
        0 <= host.slot_index(handle) < host.open_files@.len(),
        host.open_files@[host.slot_index(handle)].handle == handle,
        forall|i: int|
            0 <= i < host.open_files@.len() && (#[trigger] host.open_files@[i]).handle == handle
                ==> i == host.slot_index(handle),
{
    let k = host.slot_index(handle);
    assert(0 <= k < host.open_files@.len() && host.open_files@[k].handle == handle);
    assert forall|i: int|
        0 <= i < host.open_files@.len() && (#[trigger] host.open_files@[i]).handle
            == handle implies i == k by {
        if i < k {
            assert(host.open_files@[i].handle != host.open_files@[k].handle);
        } else if k < i {
            assert(host.open_files@[k].handle != host.open_files@[i].handle);
        }
    }
}

/// Under well-formedness, the present file with a name is unique, so
/// the chosen index is the one any search finds.
proof fn lemma_file_unique(host: RamHost, name: Seq<char>)
    requires
        host.wf(),
        host.has_file(name),
    ensures
        0 <= host.file_index_of(name) < host.files@.len(),
        host.files@[host.file_index_of(name)].present,
        host.files@[host.file_index_of(name)].name@ == name,
        forall|i: int|
            0 <= i < host.files@.len() && (#[trigger] host.files@[i]).present && host.files@[
                i
            ].name@ == name ==> i == host.file_index_of(name),
{
    let k = host.file_index_of(name);
    assert(0 <= k < host.files@.len() && host.files@[k].present && host.files@[k].name@ == name);
    assert forall|i: int|
        0 <= i < host.files@.len() && (#[trigger] host.files@[i]).present && host.files@[i].name@
            == name implies i == k by {
        if i < k {
            assert(host.files@[i].name@ != host.files@[k].name@);
        } else if k < i {
            assert(host.files@[k].name@ != host.files@[i].name@);
        }
    }
}

/// Well-formedness carries over unchanged store, slot, directory and
/// counter state.
proof fn lemma_wf_transfer(pre: RamHost, post: RamHost)
    requires
        pre.wf(),
        post.open_files == pre.open_files,
        post.files == pre.files,
        post.open_dirs == pre.open_dirs,
        post.next_handle == pre.next_handle,
    ensures
        post.wf(),
{
    assert forall|t: int| 0 <= t < post.open_files@.len() implies post.slot_ok(t) by {
        assert(pre.slot_ok(t));
        assert(post.open_files@[t] == pre.open_files@[t]);
    }
    assert forall|a: int, b: int|
        0 <= a < b < post.open_files@.len() implies (#[trigger] post.open_files@[a]).handle != (
        #[trigger] post.open_files@[b]).handle by {
        assert(pre.open_files@[a].handle != pre.open_files@[b].handle);
    }
    assert forall|t: int|
        0 <= t < post.open_dirs@.len() implies FIRST_ALLOCATED_HANDLE <= (
        #[trigger] post.open_dirs@[t]).handle < post.next_handle by {
        assert(pre.open_dirs@[t] == post.open_dirs@[t]);
    }
    assert forall|a: int, b: int|
        0 <= a < b < post.open_dirs@.len() implies (#[trigger] post.open_dirs@[a]).handle != (
        #[trigger] post.open_dirs@[b]).handle by {
        assert(pre.open_dirs@[a].handle != pre.open_dirs@[b].handle);
    }
    assert forall|a: int, b: int|
        0 <= a < b < post.files@.len() && (#[trigger] post.files@[a]).present && (
        #[trigger] post.files@[b]).present implies post.files@[a].name@ != post.files@[
        b
    ].name@ by {
        assert(pre.files@[a] == post.files@[a]);
        assert(pre.files@[b] == post.files@[b]);
    }
}

/// Well-formedness survives moving one slot's offset (or any slot
/// replacement that keeps the handle and a valid file and offset).
proof fn lemma_wf_after_slot_update(pre: RamHost, post: RamHost, i: int, updated: OpenFile)
    requires
        pre.wf(),
        0 <= i < pre.open_files@.len(),
        post.open_files@ == pre.open_files@.update(i, updated),
        updated.handle == pre.open_files@[i].handle,
        updated.file_index < post.files@.len(),
        post.files@[updated.file_index as int].present,
        updated.position <= post.files@[updated.file_index as int].data@.len(),
        post.files == pre.files,
        post.open_dirs == pre.open_dirs,
        post.next_handle == pre.next_handle,
    ensures
        post.wf(),
{
    assert forall|t: int| 0 <= t < post.open_files@.len() implies post.slot_ok(t) by {
        assert(pre.slot_ok(t));
        if t != i {
            assert(post.open_files@[t] == pre.open_files@[t]);
        } else {
            assert(post.open_files@[t] == updated);
        }
    }
    assert forall|a: int, b: int|
        0 <= a < b < post.open_files@.len() implies (#[trigger] post.open_files@[a]).handle != (
        #[trigger] post.open_files@[b]).handle by {
        assert(pre.open_files@[a].handle != pre.open_files@[b].handle);
        assert(post.open_files@[a].handle == pre.open_files@[a].handle);
        assert(post.open_files@[b].handle == pre.open_files@[b].handle);
    }
    assert forall|t: int|
        0 <= t < post.open_dirs@.len() implies FIRST_ALLOCATED_HANDLE <= (
        #[trigger] post.open_dirs@[t]).handle < post.next_handle by {
        assert(pre.open_dirs@[t] == post.open_dirs@[t]);
    }
    assert forall|a: int, b: int|
        0 <= a < b < post.open_dirs@.len() implies (#[trigger] post.open_dirs@[a]).handle != (
        #[trigger] post.open_dirs@[b]).handle by {
        assert(pre.open_dirs@[a].handle != pre.open_dirs@[b].handle);
    }
    assert forall|a: int, b: int|
        0 <= a < b < post.files@.len() && (#[trigger] post.files@[a]).present && (
        #[trigger] post.files@[b]).present implies post.files@[a].name@ != post.files@[
        b
    ].name@ by {
        assert(pre.files@[a] == post.files@[a]);
        assert(pre.files@[b] == post.files@[b]);
    }
}

/// Everything the file-store specification functions say carries over
/// unchanged store, slot, directory and counter state — used when a
/// step (such as recording the call) touches none of them.
proof fn lemma_same_state(pre: RamHost, post: RamHost, handle: u8)
    requires
        pre.wf(),
        post.open_files == pre.open_files,
        post.files == pre.files,
        post.open_dirs == pre.open_dirs,
        post.next_handle == pre.next_handle,
    ensures
        post.wf(),
        post.has_slot(handle) == pre.has_slot(handle),
        pre.has_slot(handle) ==> post.slot_index(handle) == pre.slot_index(handle) && post.slot(
            handle,
        ) == pre.slot(handle) && post.file_of(handle) == pre.file_of(handle) && post.pos_of(
            handle,
        ) == pre.pos_of(handle) && post.len_of(handle) == pre.len_of(handle) && post.data_of(
            handle,
        ) == pre.data_of(handle) && post.at_end(handle) == pre.at_end(handle),
{
    lemma_wf_transfer(pre, post);
    if pre.has_slot(handle) {
        lemma_slot_unique(pre, handle);
        assert(post.open_files@[pre.slot_index(handle)].handle == handle);
        assert(post.has_slot(handle));
        lemma_slot_unique(post, handle);
        assert(pre.open_files@[post.slot_index(handle)].handle == handle);
    } else {
        if post.has_slot(handle) {
            let k = post.slot_index(handle);
            assert(0 <= k < post.open_files@.len() && post.open_files@[k].handle == handle);
            assert(pre.open_files@[k].handle == handle);
            assert(pre.has_slot(handle));
        }
    }
}

/// Well-formedness survives writing through one slot: the slot keeps
/// its handle and file, the file keeps its name and presence and never
/// shrinks, and the slot's new offset stays within the file.
proof fn lemma_wf_after_write(
    pre: RamHost,
    post: RamHost,
    i: int,
    fi: int,
    updated: OpenFile,
    newfile: RamFile,
)
    requires
        pre.wf(),
        0 <= i < pre.open_files@.len(),
        0 <= fi < pre.files@.len(),
        post.open_files@ == pre.open_files@.update(i, updated),
        post.files@ == pre.files@.update(fi, newfile),
        updated.handle == pre.open_files@[i].handle,
        updated.file_index == fi,
        updated.position <= newfile.data@.len(),
        newfile.present,
        pre.files@[fi].present,
        newfile.name@ == pre.files@[fi].name@,
        newfile.data@.len() >= pre.files@[fi].data@.len(),
        post.open_dirs == pre.open_dirs,
        post.next_handle == pre.next_handle,
    ensures
        post.wf(),
{
    assert forall|t: int| 0 <= t < post.open_files@.len() implies post.slot_ok(t) by {
        assert(pre.slot_ok(t));
        if t != i {
            assert(post.open_files@[t] == pre.open_files@[t]);
            if pre.open_files@[t].file_index == fi {
                assert(post.files@[fi] == newfile);
            } else {
                assert(post.files@[pre.open_files@[t].file_index as int] == pre.files@[
                    pre.open_files@[t].file_index as int
                ]);
            }
        } else {
            assert(post.open_files@[t] == updated);
        }
    }
    assert forall|a: int, b: int|
        0 <= a < b < post.open_files@.len() implies (#[trigger] post.open_files@[a]).handle != (
        #[trigger] post.open_files@[b]).handle by {
        assert(pre.open_files@[a].handle != pre.open_files@[b].handle);
        assert(post.open_files@[a].handle == pre.open_files@[a].handle);
        assert(post.open_files@[b].handle == pre.open_files@[b].handle);
    }
    assert forall|t: int|
        0 <= t < post.open_dirs@.len() implies FIRST_ALLOCATED_HANDLE <= (
        #[trigger] post.open_dirs@[t]).handle < post.next_handle by {
        assert(pre.open_dirs@[t] == post.open_dirs@[t]);
    }
    assert forall|a: int, b: int|
        0 <= a < b < post.open_dirs@.len() implies (#[trigger] post.open_dirs@[a]).handle != (
        #[trigger] post.open_dirs@[b]).handle by {
        assert(pre.open_dirs@[a].handle != pre.open_dirs@[b].handle);
    }
    assert forall|a: int, b: int|
        0 <= a < b < post.files@.len() && (#[trigger] post.files@[a]).present && (
        #[trigger] post.files@[b]).present implies post.files@[a].name@ != post.files@[
        b
    ].name@ by {
        assert(pre.files@[a].present == post.files@[a].present || a == fi);
        assert(post.files@[a].name@ == pre.files@[a].name@);
        assert(post.files@[b].name@ == pre.files@[b].name@);
        assert(pre.files@[a].present && pre.files@[b].present);
    }
}

/// Well-formedness survives opening: a fresh slot with the counter's
/// handle is pushed, the counter moves up, and the file store either
/// stays, has the target file emptied (possible only while no slot
/// uses it), or grows by one file with a name not present before.
proof fn lemma_wf_after_open(pre: RamHost, post: RamHost, fi: int, slot: OpenFile)
    requires
        pre.wf(),
        pre.can_allocate(),
        post.next_handle == pre.next_handle + 1,
        post.open_files@ == pre.open_files@.push(slot),
        slot.handle == pre.next_handle,
        slot.file_index == fi,
        slot.position == 0,
        0 <= fi < post.files@.len(),
        post.files@[fi].present,
        post.open_dirs == pre.open_dirs,
        (post.files@ == pre.files@) || (fi < pre.files@.len() && post.files@ == pre.files@.update(
            fi,
            post.files@[fi],
        ) && post.files@[fi].name@ == pre.files@[fi].name@ && pre.files@[fi].present && (forall|
            t: int,
        |
            0 <= t < pre.open_files@.len() ==> (#[trigger] pre.open_files@[t]).file_index != fi))
            || (post.files@ == pre.files@.push(post.files@[fi]) && fi == pre.files@.len() && (
        forall|t: int|
            0 <= t < pre.files@.len() && (#[trigger] pre.files@[t]).present ==> pre.files@[
                t
            ].name@ != post.files@[fi].name@)),
    ensures
        post.wf(),
{
    assert forall|t: int| 0 <= t < post.open_files@.len() implies post.slot_ok(t) by {
        if t < pre.open_files@.len() {
            assert(pre.slot_ok(t));
            assert(post.open_files@[t] == pre.open_files@[t]);
            let tfi = pre.open_files@[t].file_index as int;
            if post.files@ != pre.files@ {
                if tfi < pre.files@.len() && post.files@.len() == pre.files@.len() {
                    assert(tfi != fi);
                    assert(post.files@[tfi] == pre.files@[tfi]);
                } else {
                    assert(post.files@[tfi] == pre.files@[tfi]);
                }
            }
        } else {
            assert(post.open_files@[t] == slot);
        }
    }
    assert forall|a: int, b: int|
        0 <= a < b < post.open_files@.len() implies (#[trigger] post.open_files@[a]).handle != (
        #[trigger] post.open_files@[b]).handle by {
        if b < pre.open_files@.len() {
            assert(pre.open_files@[a].handle != pre.open_files@[b].handle);
        } else {
            assert(pre.slot_ok(a));
            assert(post.open_files@[a].handle < pre.next_handle);
        }
    }
    assert forall|t: int|
        0 <= t < post.open_dirs@.len() implies FIRST_ALLOCATED_HANDLE <= (
        #[trigger] post.open_dirs@[t]).handle < post.next_handle by {
        assert(pre.open_dirs@[t] == post.open_dirs@[t]);
    }
    assert forall|a: int, b: int|
        0 <= a < b < post.open_dirs@.len() implies (#[trigger] post.open_dirs@[a]).handle != (
        #[trigger] post.open_dirs@[b]).handle by {
        assert(pre.open_dirs@[a].handle != pre.open_dirs@[b].handle);
    }
    assert forall|a: int, b: int|
        0 <= a < b < post.files@.len() && (#[trigger] post.files@[a]).present && (
        #[trigger] post.files@[b]).present implies post.files@[a].name@ != post.files@[
        b
    ].name@ by {
        if b < pre.files@.len() {
            assert(post.files@[a].name@ == pre.files@[a].name@);
            assert(post.files@[b].name@ == pre.files@[b].name@);
            assert(pre.files@[a].present && pre.files@[b].present);
        } else {
            assert(pre.files@[a].present);
            assert(post.files@[a] == pre.files@[a]);
        }
    }
}

/// Well-formedness survives removing one open-file slot, and the
/// removed handle has no slot afterwards.
proof fn lemma_wf_after_remove(pre: RamHost, post: RamHost, i: int)
    requires
        pre.wf(),
        0 <= i < pre.open_files@.len(),
        post.open_files@ == pre.open_files@.remove(i),
        post.files == pre.files,
        post.open_dirs == pre.open_dirs,
        post.next_handle == pre.next_handle,
    ensures
        post.wf(),
        !post.has_slot(pre.open_files@[i].handle),
{
    assert forall|t: int| 0 <= t < post.open_files@.len() implies post.slot_ok(t) by {
        if t < i {
            assert(post.open_files@[t] == pre.open_files@[t]);
            assert(pre.slot_ok(t));
        } else {
            assert(post.open_files@[t] == pre.open_files@[t + 1]);
            assert(pre.slot_ok(t + 1));
        }
    }
    assert forall|a: int, b: int|
        0 <= a < b < post.open_files@.len() implies (#[trigger] post.open_files@[a]).handle != (
        #[trigger] post.open_files@[b]).handle by {
        let a2 = if a < i {
            a
        } else {
            a + 1
        };
        let b2 = if b < i {
            b
        } else {
            b + 1
        };
        assert(post.open_files@[a] == pre.open_files@[a2]);
        assert(post.open_files@[b] == pre.open_files@[b2]);
        assert(pre.open_files@[a2].handle != pre.open_files@[b2].handle);
    }
    assert forall|t: int|
        0 <= t < post.open_dirs@.len() implies FIRST_ALLOCATED_HANDLE <= (
        #[trigger] post.open_dirs@[t]).handle < post.next_handle by {
        assert(pre.open_dirs@[t] == post.open_dirs@[t]);
    }
    assert forall|a: int, b: int|
        0 <= a < b < post.open_dirs@.len() implies (#[trigger] post.open_dirs@[a]).handle != (
        #[trigger] post.open_dirs@[b]).handle by {
        assert(pre.open_dirs@[a].handle != pre.open_dirs@[b].handle);
    }
    assert forall|a: int, b: int|
        0 <= a < b < post.files@.len() && (#[trigger] post.files@[a]).present && (
        #[trigger] post.files@[b]).present implies post.files@[a].name@ != post.files@[
        b
    ].name@ by {
        assert(pre.files@[a] == post.files@[a]);
        assert(pre.files@[b] == post.files@[b]);
    }
    if post.has_slot(pre.open_files@[i].handle) {
        let t = choose|t: int|
            0 <= t < post.open_files@.len() && (#[trigger] post.open_files@[t]).handle
                == pre.open_files@[i].handle;
        let t2 = if t < i {
            t
        } else {
            t + 1
        };
        assert(post.open_files@[t] == pre.open_files@[t2]);
        assert(pre.open_files@[t2].handle == pre.open_files@[i].handle);
        if t2 < i {
            assert(pre.open_files@[t2].handle != pre.open_files@[i].handle);
        } else {
            assert(pre.open_files@[i].handle != pre.open_files@[t2].handle);
        }
    }
}

/// Well-formedness survives a change confined to the directory slots,
/// provided the new directory handles are themselves allocated values,
/// pairwise distinct, and the counter has not moved down.
proof fn lemma_wf_dirs(pre: RamHost, post: RamHost)
    requires
        pre.wf(),
        post.open_files == pre.open_files,
        post.files == pre.files,
        pre.next_handle <= post.next_handle,
        forall|t: int|
            0 <= t < post.open_dirs@.len() ==> FIRST_ALLOCATED_HANDLE <= (
            #[trigger] post.open_dirs@[t]).handle < post.next_handle,
        forall|a: int, b: int|
            0 <= a < b < post.open_dirs@.len() ==> (#[trigger] post.open_dirs@[a]).handle != (
            #[trigger] post.open_dirs@[b]).handle,
    ensures
        post.wf(),
{
    assert forall|t: int| 0 <= t < post.open_files@.len() implies post.slot_ok(t) by {
        assert(pre.slot_ok(t));
        assert(post.open_files@[t] == pre.open_files@[t]);
    }
    assert forall|a: int, b: int|
        0 <= a < b < post.open_files@.len() implies (#[trigger] post.open_files@[a]).handle != (
        #[trigger] post.open_files@[b]).handle by {
        assert(pre.open_files@[a].handle != pre.open_files@[b].handle);
    }
    assert forall|a: int, b: int|
        0 <= a < b < post.files@.len() && (#[trigger] post.files@[a]).present && (
        #[trigger] post.files@[b]).present implies post.files@[a].name@ != post.files@[
        b
    ].name@ by {
        assert(pre.files@[a] == post.files@[a]);
        assert(pre.files@[b] == post.files@[b]);
    }
}

/// Well-formedness survives moving one directory iterator's position;
/// the handle stays what it was.
proof fn dir_update_wf(pre: RamHost, post: RamHost, i: int, updated: OpenDir)
    requires
        pre.wf(),
        0 <= i < pre.open_dirs@.len(),
        post.open_dirs@ == pre.open_dirs@.update(i, updated),
        updated.handle == pre.open_dirs@[i].handle,
        post.open_files == pre.open_files,
        post.files == pre.files,
        post.next_handle == pre.next_handle,
    ensures
        post.wf(),
{
    assert forall|t: int|
        0 <= t < post.open_dirs@.len() implies FIRST_ALLOCATED_HANDLE <= (
    #[trigger] post.open_dirs@[t]).handle < post.next_handle by {
        if t != i {
            assert(post.open_dirs@[t] == pre.open_dirs@[t]);
        } else {
            assert(post.open_dirs@[t].handle == pre.open_dirs@[i].handle);
        }
    }
    assert forall|a: int, b: int|
        0 <= a < b < post.open_dirs@.len() implies (#[trigger] post.open_dirs@[a]).handle != (
        #[trigger] post.open_dirs@[b]).handle by {
        assert(post.open_dirs@[a].handle == pre.open_dirs@[a].handle);
        assert(post.open_dirs@[b].handle == pre.open_dirs@[b].handle);
        assert(pre.open_dirs@[a].handle != pre.open_dirs@[b].handle);
    }
    lemma_wf_dirs(pre, post);
}

/// `orig` with `data` written over it at offset `pos`: the prefix up to
/// `pos`, then `data`, then whatever of `orig` lies beyond the written
/// range.
pub open spec fn spliced(orig: Seq<u8>, pos: int, data: Seq<u8>) -> Seq<u8> {
    if pos + data.len() < orig.len() {
        orig.take(pos) + data + orig.skip(pos + data.len())
    } else {
        orig.take(pos) + data
    }
}

/// Append the bytes of `data` to `sink`.
fn append_bytes(sink: &mut Vec<u8>, data: &[u8])
    ensures
        final(sink)@ == old(sink)@ + data@,
{
    let mut tail = vstd::slice::slice_to_vec(data);
    sink.append(&mut tail);
}

impl Api for RamHost {
    open spec fn log(&self) -> Seq<HostCall> {
        self.call_log@
    }

    fn open(&mut self, path: &str, flags: Flags) -> (r: FfiResult<Handle, Error>)
        ensures
            !old(self).can_allocate() ==> r == FfiResult::<Handle, Error>::Failure(
                Error::OutOfMemory,
            ),
            old(self).can_allocate() && flags.has_truncate() && !flags.has_write() ==> r
                == FfiResult::<Handle, Error>::Failure(Error::InvalidArg),
            old(self).can_allocate() && !(flags.has_truncate() && !flags.has_write())
                && !old(self).has_file(path@) && !flags.has_create() ==> r == FfiResult::<
                Handle,
                Error,
            >::Failure(Error::NotFound),
            old(self).can_allocate() && !(flags.has_truncate() && !flags.has_write())
                && !old(self).has_file(path@) && flags.has_create() ==> (r
                matches FfiResult::Success(h) && h.spec_value() == old(self).next_handle),
            r matches FfiResult::Failure(_) ==> final(self).files == old(self).files
                && final(self).open_files == old(self).open_files
                && final(self).next_handle == old(self).next_handle,
            old(self).wf() ==> final(self).wf(),
            old(self).wf() && old(self).can_allocate() && !(flags.has_truncate()
                && !flags.has_write()) && old(self).has_file(path@) && old(self).name_in_use(
                path@,
            ) ==> r == FfiResult::<Handle, Error>::Failure(Error::InvalidArg),
            old(self).wf() && old(self).can_allocate() && !(flags.has_truncate()
                && !flags.has_write()) && old(self).has_file(path@) && !old(self).name_in_use(
                path@,
            ) ==> (r matches FfiResult::Success(h) && h.spec_value() == old(self).next_handle
                && final(self).has_slot(old(self).next_handle) && final(self).pos_of(
                old(self).next_handle,
            ) == 0 && final(self).slot(old(self).next_handle).writable == flags.has_write()
                && final(self).file_of(old(self).next_handle).name@ == path@ && final(self).data_of(old(self).next_handle) == (if flags.has_truncate() {
                Seq::<u8>::empty()
            } else {
                old(self).stored(path@).data@
            })),
            old(self).wf() && old(self).can_allocate() && !(flags.has_truncate()
                && !flags.has_write()) && !old(self).has_file(path@) && flags.has_create() ==> (r
                matches FfiResult::Success(h) && h.spec_value() == old(self).next_handle
                && final(self).has_slot(old(self).next_handle) && final(self).pos_of(
                old(self).next_handle,
            ) == 0 && final(self).slot(old(self).next_handle).writable == flags.has_write()
                && final(self).file_of(old(self).next_handle).name@ == path@ && final(self).len_of(old(self).next_handle) == 0),
    {
        let writable = flags.0 & crate::handle::FLAG_WRITE != 0;
        let create = flags.0 & crate::handle::FLAG_CREATE != 0;
        let trunc = flags.0 & crate::handle::FLAG_TRUNCATE != 0;
        let found = self.find_file(path);
        let result: FfiResult<Handle, Error> = if self.next_handle < FIRST_ALLOCATED_HANDLE
            || self.next_handle == 255 {
            FfiResult::Failure(Error::OutOfMemory)
        } else {
            if trunc && !writable {
                FfiResult::Failure(Error::InvalidArg)
            } else {
                match found {
                    Some(i) => {
                        proof {
                            if old(self).wf() {
                                assert(old(self).files@[i as int].present && old(self).files@[
                                    i as int
                                ].name@ == path@);
                                assert(old(self).has_file(path@));
                                lemma_file_unique(*old(self), path@);
                                assert(old(self).file_index_of(path@) == i);
                            }
                        }
                        if self.index_in_use(i) {
                            FfiResult::Failure(Error::InvalidArg)
                        } else {
                            if trunc {
                                let name = self.files[i].name.clone();
                                self.files.set(
                                    i,
                                    RamFile { name, data: Vec::new(), present: true },
                                );
                            }
                            let h = self.next_handle;
                            self.next_handle = h + 1;
                            let slot = OpenFile {
                                handle: h,
                                file_index: i,
                                position: 0,
                                writable,
                            };
                            self.open_files.push(slot);
                            proof {
                                if old(self).wf() {
                                    lemma_wf_after_open(*old(self), *self, i as int, slot);
                                    let last = self.open_files@.len() - 1;
                                    assert(self.open_files@[last].handle == h);
                                    assert(self.has_slot(h));
                                    lemma_slot_unique(*self, h);
                                    assert(self.slot_index(h) == last);
                                }
                            }
                            FfiResult::Success(Handle::new(h))
                        }
                    },
                    None => {
                        if create {
                            let entry = RamFile {
                                name: path.to_owned(),
                                data: Vec::new(),
                                present: true,
                            };
                            self.files.push(entry);
                            let i = self.files.len() - 1;
                            let h = self.next_handle;
                            self.next_handle = h + 1;
                            let slot = OpenFile {
                                handle: h,
                                file_index: i,
                                position: 0,
                                writable,
                            };
                            self.open_files.push(slot);
                            proof {
                                if old(self).wf() {
                                    assert forall|t: int|
                                        0 <= t < old(self).files@.len() && (#[trigger] old(self).files@[t]).present implies old(self).files@[t].name@
                                        != self.files@[i as int].name@ by {
                                        assert(!old(self).has_file(path@));
                                    }
                                    lemma_wf_after_open(*old(self), *self, i as int, slot);
                                    let last = self.open_files@.len() - 1;
                                    assert(self.open_files@[last].handle == h);
                                    assert(self.has_slot(h));
                                    lemma_slot_unique(*self, h);
                                    assert(self.slot_index(h) == last);
                                }
                            }
                            FfiResult::Success(Handle::new(h))
                        } else {
                            FfiResult::Failure(Error::NotFound)
                        }
                    },
                }
            }
        };
        let ghost mid = *self;
        self.call_log = Ghost(self.call_log@.push(HostCall::Open(path@, flags.0, result)));
        proof {
            if mid.wf() {
                lemma_same_state(mid, *self, mid.next_handle);
                if mid.has_slot(old(self).next_handle) {
                    lemma_same_state(mid, *self, old(self).next_handle);
                }
                if old(self).wf() && self.open_files == old(self).open_files && self.files == old(self).files && self.open_dirs == old(self).open_dirs && self.next_handle == old(self).next_handle {
                    lemma_same_state(*old(self), *self, old(self).next_handle);
                }
            } else {
                if old(self).wf() && self.open_files == old(self).open_files && self.files == old(self).files && self.open_dirs == old(self).open_dirs && self.next_handle == old(self).next_handle {
                    lemma_same_state(*old(self), *self, old(self).next_handle);
                }
            }
        }
        result
    }

    fn close(&mut self, fd: Handle) -> (r: FfiResult<(), Error>)
        ensures
            final(self).closes@ == old(self).closes@.push(fd.spec_value()),
            fd.spec_value() <= STDERR_HANDLE ==> r == FfiResult::<(), Error>::Failure(
                Error::BadHandle,
            ),
            fd.spec_value() > STDERR_HANDLE && (exists|j: int|
                0 <= j < old(self).open_files@.len() && (#[trigger] old(self).open_files@[
                    j
                ]).handle == fd.spec_value()) ==> r matches FfiResult::Success(_),
            fd.spec_value() > STDERR_HANDLE && !(exists|j: int|
                0 <= j < old(self).open_files@.len() && (#[trigger] old(self).open_files@[
                    j
                ]).handle == fd.spec_value()) ==> r == FfiResult::<(), Error>::Failure(
                Error::BadHandle,
            ),
            old(self).wf() ==> final(self).wf(),
            old(self).wf() ==> !final(self).has_slot(fd.spec_value()),
            r matches FfiResult::Failure(_) ==> final(self).open_files == old(self).open_files
                && final(self).files == old(self).files,
    {
        let v = fd.value();
        self.closes.push(v);
        let result: FfiResult<(), Error> = if v <= STDERR_HANDLE {
            proof {
                if old(self).wf() && old(self).has_slot(v) {
                    lemma_slot_unique(*old(self), v);
                    assert(old(self).slot_ok(old(self).slot_index(v)));
                }
            }
            FfiResult::Failure(Error::BadHandle)
        } else {
            match self.find_open(v) {
                Some(i) => {
                    self.open_files.remove(i);
                    proof {
                        if old(self).wf() {
                            lemma_wf_after_remove(*old(self), *self, i as int);
                        }
                    }
                    FfiResult::Success(())
                },
                None => FfiResult::Failure(Error::BadHandle),
            }
        };
        proof {
            if old(self).wf() && self.open_files == old(self).open_files && self.files == old(self).files
                && self.open_dirs == old(self).open_dirs && self.next_handle == old(self).next_handle {
                lemma_same_state(*old(self), *self, v);
            }
        }
        let ghost mid = *self;
        self.call_log = Ghost(self.call_log@.push(HostCall::Close(fd.spec_value(), result)));
        proof {
            if mid.wf() {
                lemma_same_state(mid, *self, v);
            }
        }
        result
    }

    fn write(&mut self, fd: Handle, data: &[u8]) -> (r: FfiResult<(), Error>)
        ensures
            old(self).write_calls < u64::MAX ==> final(self).write_calls == old(self).write_calls
                + 1,
            fd.spec_value() == STDOUT_HANDLE ==> (r matches FfiResult::Success(_)
                && final(self).stdout_data@ == old(self).stdout_data@ + data@),
            fd.spec_value() == STDERR_HANDLE ==> (r matches FfiResult::Success(_)
                && final(self).stderr_data@ == old(self).stderr_data@ + data@),
            old(self).wf() ==> final(self).wf(),
            fd.spec_value() == STDIN_HANDLE && data@.len() > 0 ==> r == FfiResult::<
                (),
                Error,
            >::Failure(Error::BadHandle),
            old(self).wf() && fd.spec_value() > STDERR_HANDLE && data@.len() > 0 && !old(self).has_slot(fd.spec_value()) ==> r == FfiResult::<(), Error>::Failure(Error::BadHandle),
            old(self).wf() && fd.spec_value() > STDERR_HANDLE && data@.len() > 0 && old(self).has_slot(fd.spec_value()) && !old(self).slot(fd.spec_value()).writable ==> r
                == FfiResult::<(), Error>::Failure(Error::FileReadOnly),
            old(self).wf() && fd.spec_value() > STDERR_HANDLE && data@.len() > 0 && old(self).has_slot(fd.spec_value()) && old(self).slot(fd.spec_value()).writable && data@.len()
                + old(self).pos_of(fd.spec_value()) <= usize::MAX ==> (r
                matches FfiResult::Success(_) && final(self).has_slot(fd.spec_value()) && final(self).pos_of(fd.spec_value()) == old(self).pos_of(fd.spec_value()) + data@.len() && final(self).data_of(fd.spec_value()) == spliced(
                old(self).data_of(fd.spec_value()),
                old(self).pos_of(fd.spec_value()) as int,
                data@,
            ) && final(self).slot(fd.spec_value()).file_index == old(self).slot(
                fd.spec_value(),
            ).file_index),
    {
        if self.write_calls < u64::MAX {
            self.write_calls = self.write_calls + 1;
        }
        let v = fd.value();
        let result: FfiResult<(), Error> = if data.len() == 0 {
            proof {
                assert(self.stdout_data@ + data@ =~= self.stdout_data@);
                assert(self.stderr_data@ + data@ =~= self.stderr_data@);
            }
            FfiResult::Success(())
        } else if v == STDOUT_HANDLE {
            append_bytes(&mut self.stdout_data, data);
            FfiResult::Success(())
        } else if v == STDERR_HANDLE {
            append_bytes(&mut self.stderr_data, data);
            FfiResult::Success(())
        } else if v == STDIN_HANDLE {
            FfiResult::Failure(Error::BadHandle)
        } else {
            match self.find_open(v) {
                None => FfiResult::Failure(Error::BadHandle),
                Some(i) => {
                    proof {
                        assert(old(self).open_files@[i as int].handle == v);
                        if old(self).wf() {
                            lemma_slot_unique(*old(self), v);
                            assert(old(self).slot_ok(i as int));
                        }
                    }
                    let of = self.open_files[i];
                    if !of.writable {
                        FfiResult::Failure(Error::FileReadOnly)
                    } else if of.file_index >= self.files.len()
                        || !self.files[of.file_index].present {
                        FfiResult::Failure(Error::BadHandle)
                    } else {
                        let fi = of.file_index;
                        let flen = self.files[fi].data.len();
                        let pos = if of.position > flen {
                            flen
                        } else {
                            of.position
                        };
                        if data.len() > usize::MAX - pos {
                            FfiResult::Failure(Error::OutOfMemory)
                        } else {
                            let mut newdata: Vec<u8> = Vec::new();
                            let mut j: usize = 0;
                            while j < pos
                                invariant
                                    j <= pos,
                                    pos <= self.files@[fi as int].data@.len(),
                                    fi < self.files@.len(),
                                    newdata@ == self.files@[fi as int].data@.take(j as int),
                                decreases pos - j,
                            {
                                newdata.push(self.files[fi].data[j]);
                                proof {
                                    assert(self.files@[fi as int].data@.take(j + 1 as int)
                                        =~= self.files@[fi as int].data@.take(j as int).push(
                                        self.files@[fi as int].data@[j as int],
                                    ));
                                }
                                j = j + 1;
                            }
                            append_bytes(&mut newdata, data);
                            let mut k: usize = pos + data.len();
                            proof {
                                if k <= flen {
                                    assert(self.files@[fi as int].data@.subrange(
                                        (pos + data@.len()) as int,
                                        k as int,
                                    ) =~= Seq::<u8>::empty());
                                }
                                assert(newdata@ =~= self.files@[fi as int].data@.take(pos as int)
                                    + data@);
                            }
                            while k < flen
                                invariant
                                    flen <= self.files@[fi as int].data@.len(),
                                    fi < self.files@.len(),
                                    pos + data@.len() <= k,
                                    k <= flen || k == pos + data@.len(),
                                    pos <= flen,
                                    newdata@ == self.files@[fi as int].data@.take(pos as int)
                                        + data@ + (if k <= flen {
                                        self.files@[fi as int].data@.subrange(
                                            (pos + data@.len()) as int,
                                            k as int,
                                        )
                                    } else {
                                        Seq::<u8>::empty()
                                    }),
                                decreases flen - k,
                            {
                                newdata.push(self.files[fi].data[k]);
                                proof {
                                    assert(self.files@[fi as int].data@.subrange(
                                        (pos + data@.len()) as int,
                                        k + 1 as int,
                                    ) =~= self.files@[fi as int].data@.subrange(
                                        (pos + data@.len()) as int,
                                        k as int,
                                    ).push(self.files@[fi as int].data@[k as int]));
                                    assert(newdata@ =~= self.files@[fi as int].data@.take(
                                        pos as int,
                                    ) + data@ + self.files@[fi as int].data@.subrange(
                                        (pos + data@.len()) as int,
                                        k + 1 as int,
                                    ));
                                }
                                k = k + 1;
                            }
                            proof {
                                let orig = self.files@[fi as int].data@;
                                let ts = pos + data@.len();
                                if ts < flen as int {
                                    assert(k == flen);
                                    assert(orig.subrange(ts as int, flen as int) =~= orig.skip(
                                        ts as int,
                                    ));
                                }
                                assert(newdata@ =~= spliced(orig, pos as int, data@));
                            }
                            let name = self.files[fi].name.clone();
                            self.files.set(
                                fi,
                                RamFile { name, data: newdata, present: true },
                            );
                            let mut updated = of;
                            updated.position = pos + data.len();
                            self.open_files.set(i, updated);
                            proof {
                                if old(self).wf() {
                                    lemma_wf_after_write(
                                        *old(self),
                                        *self,
                                        i as int,
                                        fi as int,
                                        updated,
                                        self.files@[fi as int],
                                    );
                                    assert(self.open_files@[i as int].handle == v);
                                    assert(self.has_slot(v));
                                    lemma_slot_unique(*self, v);
                                    assert(self.slot_index(v) == i);
                                }
                            }
                            FfiResult::Success(())
                        }
                    }
                },
            }
        };
        proof {
            if old(self).wf() && self.open_files == old(self).open_files && self.files == old(self).files && self.open_dirs == old(self).open_dirs && self.next_handle == old(self).next_handle {
                lemma_same_state(*old(self), *self, v);
            }
        }
        let ghost mid = *self;
        self.call_log = Ghost(self.call_log@.push(HostCall::Write(fd.spec_value(), data@, result)));
        proof {
            if mid.wf() {
                lemma_same_state(mid, *self, v);
            }
        }
        result
    }

    fn read(&mut self, fd: Handle, buffer: &mut Vec<u8>) -> (r: FfiResult<usize, Error>)
        ensures
            fd.spec_value() == STDIN_HANDLE ==> (r matches FfiResult::Success(n) && n as int
                == vstd::math::min(
                old(self).stdin_data@.len() as int,
                old(buffer)@.len() as int,
            ) && final(buffer)@ == old(self).stdin_data@.take(n as int) + old(buffer)@.skip(
                n as int,
            ) && final(self).stdin_data@ == old(self).stdin_data@.skip(n as int)),
            old(self).wf() ==> final(self).wf(),
            fd.spec_value() == STDOUT_HANDLE || fd.spec_value() == STDERR_HANDLE ==> r
                == FfiResult::<usize, Error>::Failure(Error::BadHandle),
            old(self).wf() && fd.spec_value() > STDERR_HANDLE && !old(self).has_slot(
                fd.spec_value(),
            ) ==> r == FfiResult::<usize, Error>::Failure(Error::BadHandle),
            old(self).wf() && fd.spec_value() > STDERR_HANDLE && old(self).has_slot(
                fd.spec_value(),
            ) && old(self).at_end(fd.spec_value()) ==> r == FfiResult::<usize, Error>::Failure(
                Error::EndOfFile,
            ),
            old(self).wf() && fd.spec_value() > STDERR_HANDLE && old(self).has_slot(
                fd.spec_value(),
            ) && !old(self).at_end(fd.spec_value()) ==> (r matches FfiResult::Success(n)
                && n as int == vstd::math::min(
                old(self).len_of(fd.spec_value()) - old(self).pos_of(fd.spec_value()),
                old(buffer)@.len() as int,
            ) && final(buffer)@.take(n as int) == old(self).data_of(fd.spec_value()).subrange(
                old(self).pos_of(fd.spec_value()) as int,
                old(self).pos_of(fd.spec_value()) + n,
            ) && final(self).has_slot(fd.spec_value()) && final(self).pos_of(fd.spec_value())
                == old(self).pos_of(fd.spec_value()) + n && final(self).slot(
                fd.spec_value(),
            ).file_index == old(self).slot(fd.spec_value()).file_index
                && final(self).files == old(self).files),
    {
        let v = fd.value();
        let ghost orig_q = self.stdin_data@;
        let ghost orig_b = buffer@;
        let result: FfiResult<usize, Error> = if v == STDIN_HANDLE {
            let qlen = self.stdin_data.len();
            let blen = buffer.len();
            let count = if qlen < blen {
                qlen
            } else {
                blen
            };
            let mut i: usize = 0;
            while i < count
                invariant
                    i <= count,
                    count <= orig_q.len(),
                    count <= orig_b.len(),
                    self.stdin_data@ == orig_q,
                    buffer@.len() == orig_b.len(),
                    forall|j: int| 0 <= j < i ==> buffer@[j] == orig_q[j],
                    forall|j: int| i <= j < orig_b.len() ==> buffer@[j] == orig_b[j],
                decreases count - i,
            {
                let b = self.stdin_data[i];
                buffer.set(i, b);
                i = i + 1;
            }
            let rest = self.stdin_data.split_off(count);
            self.stdin_data = rest;
            proof {
                assert(buffer@ =~= orig_q.take(count as int) + orig_b.skip(count as int));
                assert(self.stdin_data@ =~= orig_q.skip(count as int));
                assert(buffer@.skip(count as int) =~= orig_b.skip(count as int));
            }
            FfiResult::Success(count)
        } else if v == STDOUT_HANDLE || v == STDERR_HANDLE {
            FfiResult::Failure(Error::BadHandle)
        } else {
            match self.find_open(v) {
                None => FfiResult::Failure(Error::BadHandle),
                Some(i) => {
                    proof {
                        if old(self).wf() {
                            lemma_slot_unique(*old(self), v);
                            assert(old(self).slot_ok(i as int));
                        }
                    }
                    let of = self.open_files[i];
                    if of.file_index >= self.files.len() || !self.files[of.file_index].present {
                        FfiResult::Failure(Error::BadHandle)
                    } else {
                        let fi = of.file_index;
                        let flen = self.files[fi].data.len();
                        let pos = if of.position > flen {
                            flen
                        } else {
                            of.position
                        };
                        if pos == flen {
                            FfiResult::Failure(Error::EndOfFile)
                        } else {
                            let remaining = flen - pos;
                            let blen = buffer.len();
                            let count = if remaining < blen {
                                remaining
                            } else {
                                blen
                            };
                            let mut k: usize = 0;
                            while k < count
                                invariant
                                    k <= count,
                                    fi < self.files@.len(),
                                    pos + count <= flen,
                                    flen == self.files@[fi as int].data@.len(),
                                    buffer@.len() == orig_b.len(),
                                    count <= orig_b.len(),
                                    forall|j: int|
                                        0 <= j < k ==> buffer@[j] == self.files@[
                                            fi as int
                                        ].data@[pos + j],
                                    forall|j: int|
                                        k <= j < orig_b.len() ==> buffer@[j] == orig_b[j],
                                decreases count - k,
                            {
                                let b = self.files[fi].data[pos + k];
                                buffer.set(k, b);
                                k = k + 1;
                            }
                            proof {
                                assert(buffer@.skip(count as int) =~= orig_b.skip(count as int));
                                assert(buffer@.take(count as int) =~= self.files@[
                                    fi as int
                                ].data@.subrange(pos as int, pos + count));
                            }
                            let mut updated = of;
                            updated.position = pos + count;
                            self.open_files.set(i, updated);
                            proof {
                                if old(self).wf() {
                                    lemma_wf_after_slot_update(
                                        *old(self),
                                        *self,
                                        i as int,
                                        updated,
                                    );
                                    assert(self.open_files@[i as int].handle == v);
                                    assert(self.has_slot(v));
                                    lemma_slot_unique(*self, v);
                                    assert(self.slot_index(v) == i);
                                }
                            }
                            FfiResult::Success(count)
                        }
                    }
                },
            }
        };
        proof {
            if old(self).wf() && self.open_files == old(self).open_files && self.files == old(self).files && self.open_dirs == old(self).open_dirs && self.next_handle == old(self).next_handle {
                lemma_same_state(*old(self), *self, v);
            }
        }
        let ghost mid = *self;
        self.call_log = Ghost(
            self.call_log@.push(HostCall::Read(fd.spec_value(), orig_b.len(), buffer@, result)),
        );
        proof {
            if mid.wf() {
                lemma_same_state(mid, *self, v);
            }
        }
        result
    }

    fn seek_set(&mut self, fd: Handle, position: u64) -> (r: FfiResult<(), Error>)
        ensures
            fd.spec_value() <= STDERR_HANDLE ==> r == FfiResult::<(), Error>::Failure(
                Error::Unimplemented,
            ),
            old(self).wf() ==> final(self).wf(),
            old(self).wf() && fd.spec_value() > STDERR_HANDLE && !old(self).has_slot(
                fd.spec_value(),
            ) ==> r == FfiResult::<(), Error>::Failure(Error::BadHandle),
            old(self).wf() && fd.spec_value() > STDERR_HANDLE && old(self).has_slot(
                fd.spec_value(),
            ) && position > old(self).len_of(fd.spec_value()) ==> r == FfiResult::<(
            ), Error>::Failure(Error::InvalidArg) && final(self).open_files == old(self).open_files,
            old(self).wf() && fd.spec_value() > STDERR_HANDLE && old(self).has_slot(
                fd.spec_value(),
            ) && position <= old(self).len_of(fd.spec_value()) ==> (r matches FfiResult::Success(
                _,
            ) && final(self).has_slot(fd.spec_value()) && final(self).pos_of(fd.spec_value())
                == position && final(self).slot(fd.spec_value()).file_index == old(self).slot(
                fd.spec_value(),
            ).file_index && final(self).files == old(self).files),
    {
        let v = fd.value();
        let result: FfiResult<(), Error> = if v <= STDERR_HANDLE {
            FfiResult::Failure(Error::Unimplemented)
        } else {
            match self.find_open(v) {
                None => FfiResult::Failure(Error::BadHandle),
                Some(i) => {
                    proof {
                        if old(self).wf() {
                            lemma_slot_unique(*old(self), v);
                            assert(old(self).slot_ok(i as int));
                        }
                    }
                    let of = self.open_files[i];
                    if of.file_index >= self.files.len() || !self.files[of.file_index].present {
                        FfiResult::Failure(Error::BadHandle)
                    } else if position > self.files[of.file_index].data.len() as u64 {
                        FfiResult::Failure(Error::InvalidArg)
                    } else {
                        let mut updated = of;
                        updated.position = position as usize;
                        self.open_files.set(i, updated);
                        proof {
                            if old(self).wf() {
                                lemma_wf_after_slot_update(*old(self), *self, i as int, updated);
                                assert(self.open_files@[i as int].handle == v);
                                assert(self.has_slot(v));
                                lemma_slot_unique(*self, v);
                                assert(self.slot_index(v) == i);
                            }
                        }
                        FfiResult::Success(())
                    }
                },
            }
        };
        proof {
            if old(self).wf() && self.open_files == old(self).open_files && self.files == old(self).files && self.open_dirs == old(self).open_dirs && self.next_handle == old(self).next_handle {
                lemma_same_state(*old(self), *self, v);
            }
        }
        let ghost mid = *self;
        self.call_log = Ghost(
            self.call_log@.push(HostCall::SeekSet(fd.spec_value(), position, result)),
        );
        proof {
            if mid.wf() {
                lemma_same_state(mid, *self, v);
            }
        }
        result
    }

    fn seek_cur(&mut self, fd: Handle, offset: i64) -> (r: FfiResult<u64, Error>)
        ensures
            fd.spec_value() <= STDERR_HANDLE ==> r == FfiResult::<u64, Error>::Failure(
                Error::Unimplemented,
            ),
            old(self).wf() ==> final(self).wf(),
            old(self).wf() && fd.spec_value() > STDERR_HANDLE && !old(self).has_slot(
                fd.spec_value(),
            ) ==> r == FfiResult::<u64, Error>::Failure(Error::BadHandle),
            old(self).wf() && fd.spec_value() > STDERR_HANDLE && old(self).has_slot(
                fd.spec_value(),
            ) && (old(self).pos_of(fd.spec_value()) + offset < 0 || old(self).pos_of(
                fd.spec_value(),
            ) + offset > old(self).len_of(fd.spec_value())) ==> r == FfiResult::<
                u64,
                Error,
            >::Failure(Error::InvalidArg) && final(self).open_files == old(self).open_files,
            old(self).wf() && fd.spec_value() > STDERR_HANDLE && old(self).has_slot(
                fd.spec_value(),
            ) && 0 <= old(self).pos_of(fd.spec_value()) + offset && old(self).pos_of(
                fd.spec_value(),
            ) + offset <= old(self).len_of(fd.spec_value()) ==> (r matches FfiResult::Success(n)
                && n == old(self).pos_of(fd.spec_value()) + offset && final(self).has_slot(
                fd.spec_value(),
            ) && final(self).pos_of(fd.spec_value()) == old(self).pos_of(fd.spec_value()) + offset
                && final(self).slot(fd.spec_value()).file_index == old(self).slot(
                fd.spec_value(),
            ).file_index && final(self).files == old(self).files),
    {
        let v = fd.value();
        let result: FfiResult<u64, Error> = if v <= STDERR_HANDLE {
            FfiResult::Failure(Error::Unimplemented)
        } else {
            match self.find_open(v) {
                None => FfiResult::Failure(Error::BadHandle),
                Some(i) => {
                    proof {
                        if old(self).wf() {
                            lemma_slot_unique(*old(self), v);
                            assert(old(self).slot_ok(i as int));
                        }
                    }
                    let of = self.open_files[i];
                    if of.file_index >= self.files.len() || !self.files[of.file_index].present {
                        FfiResult::Failure(Error::BadHandle)
                    } else {
                        let flen = self.files[of.file_index].data.len();
                        let pos = if of.position > flen {
                            flen
                        } else {
                            of.position
                        };
                        if offset >= 0 {
                            let forward = offset as u64;
                            if forward > (flen - pos) as u64 {
                                FfiResult::Failure(Error::InvalidArg)
                            } else {
                                let newpos = pos + forward as usize;
                                let mut updated = of;
                                updated.position = newpos;
                                self.open_files.set(i, updated);
                        proof {
                        if old(self).wf() {
                            lemma_wf_after_slot_update(*old(self), *self, i as int, updated);
                            assert(self.open_files@[i as int].handle == v);
                            assert(self.has_slot(v));
                            lemma_slot_unique(*self, v);
                            assert(self.slot_index(v) == i);
                        }
                        }
                                FfiResult::Success(newpos as u64)
                            }
                        } else {
                            let back: u64 = if offset == i64::MIN {
                                9223372036854775808u64
                            } else {
                                (-offset) as u64
                            };
                            if back > pos as u64 {
                                FfiResult::Failure(Error::InvalidArg)
                            } else {
                                let newpos = pos - back as usize;
                                let mut updated = of;
                                updated.position = newpos;
                                self.open_files.set(i, updated);
                        proof {
                        if old(self).wf() {
                            lemma_wf_after_slot_update(*old(self), *self, i as int, updated);
                            assert(self.open_files@[i as int].handle == v);
                            assert(self.has_slot(v));
                            lemma_slot_unique(*self, v);
                            assert(self.slot_index(v) == i);
                        }
                        }
                                FfiResult::Success(newpos as u64)
                            }
                        }
                    }
                },
            }
        };
        proof {
            if old(self).wf() && self.open_files == old(self).open_files && self.files == old(self).files && self.open_dirs == old(self).open_dirs && self.next_handle == old(self).next_handle {
                lemma_same_state(*old(self), *self, v);
            }
        }
        let ghost mid = *self;
        self.call_log = Ghost(
            self.call_log@.push(HostCall::SeekCur(fd.spec_value(), offset, result)),
        );
        proof {
            if mid.wf() {
                lemma_same_state(mid, *self, v);
            }
        }
        result
    }

    fn seek_end(&mut self, fd: Handle) -> (r: FfiResult<u64, Error>)
        ensures
            fd.spec_value() <= STDERR_HANDLE ==> r == FfiResult::<u64, Error>::Failure(
                Error::Unimplemented,
            ),
            old(self).wf() ==> final(self).wf(),
            old(self).wf() && fd.spec_value() > STDERR_HANDLE && !old(self).has_slot(
                fd.spec_value(),
            ) ==> r == FfiResult::<u64, Error>::Failure(Error::BadHandle),
            old(self).wf() && fd.spec_value() > STDERR_HANDLE && old(self).has_slot(
                fd.spec_value(),
            ) ==> (r matches FfiResult::Success(n) && n == old(self).len_of(fd.spec_value())
                && final(self).has_slot(fd.spec_value()) && final(self).pos_of(fd.spec_value())
                == old(self).len_of(fd.spec_value()) && final(self).slot(
                fd.spec_value(),
            ).file_index == old(self).slot(fd.spec_value()).file_index
                && final(self).files == old(self).files),
    {
        let v = fd.value();
        let result: FfiResult<u64, Error> = if v <= STDERR_HANDLE {
            FfiResult::Failure(Error::Unimplemented)
        } else {
            match self.find_open(v) {
                None => FfiResult::Failure(Error::BadHandle),
                Some(i) => {
                    proof {
                        if old(self).wf() {
                            lemma_slot_unique(*old(self), v);
                            assert(old(self).slot_ok(i as int));
                        }
                    }
                    let of = self.open_files[i];
                    if of.file_index >= self.files.len() || !self.files[of.file_index].present {
                        FfiResult::Failure(Error::BadHandle)
                    } else {
                        let flen = self.files[of.file_index].data.len();
                        let mut updated = of;
                        updated.position = flen;
                        self.open_files.set(i, updated);
                        proof {
                            if old(self).wf() {
                                lemma_wf_after_slot_update(*old(self), *self, i as int, updated);
                                assert(self.open_files@[i as int].handle == v);
                                assert(self.has_slot(v));
                                lemma_slot_unique(*self, v);
                                assert(self.slot_index(v) == i);
                            }
                        }
                        FfiResult::Success(flen as u64)
                    }
                },
            }
        };
        proof {
            if old(self).wf() && self.open_files == old(self).open_files && self.files == old(self).files && self.open_dirs == old(self).open_dirs && self.next_handle == old(self).next_handle {
                lemma_same_state(*old(self), *self, v);
            }
        }
        let ghost mid = *self;
        self.call_log = Ghost(self.call_log@.push(HostCall::SeekEnd(fd.spec_value(), result)));
        proof {
            if mid.wf() {
                lemma_same_state(mid, *self, v);
            }
        }
        result
    }

    fn rename(&mut self, old_path: &str, new_path: &str) -> (r: FfiResult<(), Error>)
        ensures
            !old(self).has_file(old_path@) ==> r == FfiResult::<(), Error>::Failure(
                Error::NotFound,
            ),
            old(self).wf() ==> final(self).wf(),
            old(self).wf() && old(self).has_file(old_path@) && old(self).name_in_use(
                old_path@,
            ) ==> r == FfiResult::<(), Error>::Failure(Error::InvalidArg),
            old(self).wf() && old(self).has_file(old_path@) && !old(self).name_in_use(old_path@)
                && old(self).has_file(new_path@) ==> r == FfiResult::<(), Error>::Failure(
                Error::InvalidArg,
            ),
            old(self).wf() && old(self).has_file(old_path@) && !old(self).name_in_use(old_path@)
                && !old(self).has_file(new_path@) ==> (r matches FfiResult::Success(_) && final(self).has_file(new_path@) && !final(self).has_file(old_path@) && final(self).stored(
                new_path@,
            ).data@ == old(self).stored(old_path@).data@),
    {
        let result: FfiResult<(), Error> = match self.find_file(old_path) {
            None => FfiResult::Failure(Error::NotFound),
            Some(i) => {
                proof {
                    if old(self).wf() {
                        assert(old(self).files@[i as int].present && old(self).files@[
                            i as int
                        ].name@ == old_path@);
                        assert(old(self).has_file(old_path@));
                        lemma_file_unique(*old(self), old_path@);
                        assert(old(self).file_index_of(old_path@) == i);
                    }
                }
                if self.index_in_use(i) {
                    FfiResult::Failure(Error::InvalidArg)
                } else if self.find_file(new_path).is_some() {
                    FfiResult::Failure(Error::InvalidArg)
                } else {
                    let data = vstd::slice::slice_to_vec(self.files[i].data.as_slice());
                    self.files.set(
                        i,
                        RamFile { name: new_path.to_owned(), data, present: true },
                    );
                    proof {
                        if old(self).wf() {
                            assert forall|t: int|
                                0 <= t < self.open_files@.len() implies self.slot_ok(t) by {
                                assert(old(self).slot_ok(t));
                                assert(self.open_files@[t] == old(self).open_files@[t]);
                                assert(old(self).open_files@[t].file_index != i);
                                assert(self.files@[old(self).open_files@[t].file_index as int]
                                    == old(self).files@[old(self).open_files@[
                                    t
                                ].file_index as int]);
                            }
                            assert forall|a: int, b: int|
                                0 <= a < b < self.open_files@.len() implies (
                            #[trigger] self.open_files@[a]).handle != (#[trigger] self.open_files@[
                                b
                            ]).handle by {
                                assert(old(self).open_files@[a].handle != old(self).open_files@[
                                    b
                                ].handle);
                            }
                            assert forall|t: int|
                                0 <= t < self.open_dirs@.len() implies FIRST_ALLOCATED_HANDLE <= (
                            #[trigger] self.open_dirs@[t]).handle < self.next_handle by {
                                assert(old(self).open_dirs@[t] == self.open_dirs@[t]);
                            }
                            assert forall|a: int, b: int|
                                0 <= a < b < self.open_dirs@.len() implies (
                            #[trigger] self.open_dirs@[a]).handle != (#[trigger] self.open_dirs@[
                                b
                            ]).handle by {
                                assert(old(self).open_dirs@[a].handle != old(self).open_dirs@[
                                    b
                                ].handle);
                            }
                            assert forall|a: int, b: int|
                                0 <= a < b < self.files@.len() && (#[trigger] self.files@[
                                a
                            ]).present && (#[trigger] self.files@[b]).present implies self.files@[
                                a
                            ].name@ != self.files@[b].name@ by {
                                if a != i && b != i {
                                    assert(self.files@[a] == old(self).files@[a]);
                                    assert(self.files@[b] == old(self).files@[b]);
                                } else {
                                    let other = if a == i {
                                        b
                                    } else {
                                        a
                                    };
                                    assert(self.files@[other] == old(self).files@[other]);
                                    assert(self.files@[i as int].name@ == new_path@);
                                    assert(!old(self).has_file(new_path@));
                                    if old(self).files@[other].present && old(self).files@[
                                        other
                                    ].name@ == new_path@ {
                                        assert(old(self).has_file(new_path@));
                                    }
                                }
                            }
                            assert(self.wf());
                            assert(self.files@[i as int].present && self.files@[i as int].name@
                                == new_path@);
                            assert(self.has_file(new_path@));
                            lemma_file_unique(*self, new_path@);
                            assert(self.file_index_of(new_path@) == i);
                            assert(self.stored(new_path@).data@ == old(self).files@[
                                i as int
                            ].data@);
                            if self.has_file(old_path@) {
                                let t = self.file_index_of(old_path@);
                                assert(0 <= t < self.files@.len() && self.files@[t].present
                                    && self.files@[t].name@ == old_path@);
                                assert(t != i);
                                assert(old(self).files@[t].present && old(self).files@[t].name@
                                    == old_path@);
                            }
                            assert(!self.has_file(old_path@));
                        }
                    }
                    FfiResult::Success(())
                }
            },
        };
        let ghost mid = *self;
        self.call_log = Ghost(
            self.call_log@.push(HostCall::Rename(old_path@, new_path@, result)),
        );
        proof {
            if old(self).wf() && mid.files == old(self).files && mid.open_files == old(self).open_files
                && mid.open_dirs == old(self).open_dirs && mid.next_handle == old(self).next_handle {
                lemma_same_state(*old(self), mid, 0);
            }
            if mid.wf() {
                lemma_same_state(mid, *self, 0);
                if mid.has_file(new_path@) {
                    lemma_file_unique(mid, new_path@);
                    let t = mid.file_index_of(new_path@);
                    assert(self.files@[t].present && self.files@[t].name@ == new_path@);
                    assert(self.has_file(new_path@));
                    lemma_file_unique(*self, new_path@);
                    assert(self.file_index_of(new_path@) == t);
                }
                if self.has_file(old_path@) {
                    let t = self.file_index_of(old_path@);
                    assert(0 <= t < self.files@.len() && self.files@[t].present && self.files@[
                        t
                    ].name@ == old_path@);
                    assert(mid.files@[t].present && mid.files@[t].name@ == old_path@);
                    assert(mid.has_file(old_path@));
                }
            }
        }
        result
    }

    fn ioctl(&mut self, fd: Handle, command: u64, value: u64) -> (r: FfiResult<u64, Error>)
        ensures
            r == FfiResult::<u64, Error>::Failure(Error::DeviceSpecific),
            old(self).wf() ==> final(self).wf(),
    {
        let result: FfiResult<u64, Error> = FfiResult::Failure(Error::DeviceSpecific);
        self.call_log = Ghost(
            self.call_log@.push(HostCall::Ioctl(fd.spec_value(), command, value, result)),
        );
        proof {
            if old(self).wf() {
                lemma_same_state(*old(self), *self, 0);
            }
        }
        result
    }

    fn opendir(&mut self, path: &str) -> (r: FfiResult<DirHandle, Error>)
        ensures
            !old(self).can_allocate() ==> r == FfiResult::<DirHandle, Error>::Failure(
                Error::OutOfMemory,
            ),
            old(self).can_allocate() ==> (r matches FfiResult::Success(h) && h.spec_value()
                == old(self).next_handle),
            old(self).wf() ==> final(self).wf(),
    {
        let result: FfiResult<DirHandle, Error> = if self.next_handle < FIRST_ALLOCATED_HANDLE
            || self.next_handle == 255 {
            FfiResult::Failure(Error::OutOfMemory)
        } else {
            let h = self.next_handle;
            self.next_handle = h + 1;
            self.open_dirs.push(OpenDir { handle: h, position: 0 });
            proof {
                if old(self).wf() {
                    assert forall|t: int|
                        0 <= t < self.open_dirs@.len() implies FIRST_ALLOCATED_HANDLE <= (
                    #[trigger] self.open_dirs@[t]).handle < self.next_handle by {
                        if t < old(self).open_dirs@.len() {
                            assert(self.open_dirs@[t] == old(self).open_dirs@[t]);
                        }
                    }
                    assert forall|a: int, b: int|
                        0 <= a < b < self.open_dirs@.len() implies (#[trigger] self.open_dirs@[
                        a
                    ]).handle != (#[trigger] self.open_dirs@[b]).handle by {
                        if b < old(self).open_dirs@.len() {
                            assert(old(self).open_dirs@[a].handle != old(self).open_dirs@[
                                b
                            ].handle);
                        } else {
                            assert(self.open_dirs@[a] == old(self).open_dirs@[a]);
                        }
                    }
                    lemma_wf_dirs(*old(self), *self);
                }
            }
            FfiResult::Success(DirHandle::new(h))
        };
        proof {
            if old(self).wf() && self.open_dirs == old(self).open_dirs && self.next_handle == old(self).next_handle {
                lemma_same_state(*old(self), *self, 0);
            }
        }
        let ghost mid = *self;
        self.call_log = Ghost(self.call_log@.push(HostCall::OpenDir(path@, result)));
        proof {
            if mid.wf() {
                lemma_same_state(mid, *self, 0);
            }
        }
        result
    }

    fn closedir(&mut self, dir: DirHandle) -> (r: FfiResult<(), Error>)
        ensures
            (exists|j: int|
                0 <= j < old(self).open_dirs@.len() && (#[trigger] old(self).open_dirs@[j]).handle
                    == dir.spec_value()) ==> r matches FfiResult::Success(_),
            !(exists|j: int|
                0 <= j < old(self).open_dirs@.len() && (#[trigger] old(self).open_dirs@[j]).handle
                    == dir.spec_value()) ==> r == FfiResult::<(), Error>::Failure(
                Error::BadHandle,
            ),
            old(self).wf() ==> final(self).wf(),
    {
        let v = dir.value();
        let result: FfiResult<(), Error> = match self.find_open_dir(v) {
            Some(i) => {
                self.open_dirs.remove(i);
                proof {
                    if old(self).wf() {
                        assert forall|t: int|
                            0 <= t < self.open_dirs@.len() implies FIRST_ALLOCATED_HANDLE <= (
                        #[trigger] self.open_dirs@[t]).handle < self.next_handle by {
                            if t < i {
                                assert(self.open_dirs@[t] == old(self).open_dirs@[t]);
                            } else {
                                assert(self.open_dirs@[t] == old(self).open_dirs@[t + 1]);
                            }
                        }
                        assert forall|a: int, b: int|
                            0 <= a < b < self.open_dirs@.len() implies (
                        #[trigger] self.open_dirs@[a]).handle != (#[trigger] self.open_dirs@[
                            b
                        ]).handle by {
                            let a2 = if a < i {
                                a
                            } else {
                                a + 1
                            };
                            let b2 = if b < i {
                                b
                            } else {
                                b + 1
                            };
                            assert(self.open_dirs@[a] == old(self).open_dirs@[a2]);
                            assert(self.open_dirs@[b] == old(self).open_dirs@[b2]);
                            assert(old(self).open_dirs@[a2].handle != old(self).open_dirs@[
                                b2
                            ].handle);
                        }
                        lemma_wf_dirs(*old(self), *self);
                    }
                }
                FfiResult::Success(())
            },
            None => FfiResult::Failure(Error::BadHandle),
        };
        proof {
            if old(self).wf() && self.open_dirs == old(self).open_dirs && self.next_handle == old(self).next_handle {
                lemma_same_state(*old(self), *self, 0);
            }
        }
        let ghost mid = *self;
        self.call_log = Ghost(self.call_log@.push(HostCall::CloseDir(dir.spec_value(), result)));
        proof {
            if mid.wf() {
                lemma_same_state(mid, *self, 0);
            }
        }
        result
    }

    fn readdir(&mut self, dir: DirHandle) -> (r: FfiResult<Entry, Error>)
        ensures
            !(exists|j: int|
                0 <= j < old(self).open_dirs@.len() && (#[trigger] old(self).open_dirs@[j]).handle
                    == dir.spec_value()) ==> r == FfiResult::<Entry, Error>::Failure(
                Error::BadHandle,
            ),
            old(self).wf() ==> final(self).wf(),
            old(self).wf() && old(self).has_dir_slot(dir.spec_value()) && next_present(
                old(self).files@,
                old(self).dir_pos_of(dir.spec_value()) as int,
            ) >= old(self).files@.len() ==> r == FfiResult::<Entry, Error>::Failure(
                Error::EndOfFile,
            ),
            old(self).wf() && old(self).has_dir_slot(dir.spec_value()) && next_present(
                old(self).files@,
                old(self).dir_pos_of(dir.spec_value()) as int,
            ) < old(self).files@.len() ==> (r matches FfiResult::Success(e)
                && e.properties.file_size == old(self).files@[next_present(
                old(self).files@,
                old(self).dir_pos_of(dir.spec_value()) as int,
            )].data@.len() && e.name@ == vstd::utf8::encode_utf8(
                old(self).files@[next_present(
                    old(self).files@,
                    old(self).dir_pos_of(dir.spec_value()) as int,
                )].name@,
            ) && final(self).has_dir_slot(dir.spec_value()) && final(self).dir_pos_of(
                dir.spec_value(),
            ) == next_present(
                old(self).files@,
                old(self).dir_pos_of(dir.spec_value()) as int,
            ) + 1 && final(self).files == old(self).files),
    {
        let v = dir.value();
        let result: FfiResult<Entry, Error> = match self.find_open_dir(v) {
            None => FfiResult::Failure(Error::BadHandle),
            Some(i) => {
                proof {
                    if old(self).wf() {
                        lemma_dir_unique(*old(self), v);
                        assert(old(self).dir_slot_index(v) == i);
                    }
                }
                let od = self.open_dirs[i];
                let mut p = od.position;
                while p < self.files.len() && !self.files[p].present
                    invariant
                        od.position <= p,
                        p <= self.files@.len() || p == od.position,
                        forall|q: int|
                            od.position <= q < p ==> !(#[trigger] self.files@[q]).present,
                    decreases self.files@.len() - p,
                {
                    p = p + 1;
                }
                proof {
                    if old(self).wf() && p <= self.files@.len() {
                        lemma_next_present_found(
                            self.files@,
                            od.position as int,
                            p as int,
                        );
                    }
                }
                if p >= self.files.len() {
                    let mut updated = od;
                    updated.position = p;
                    self.open_dirs.set(i, updated);
                    proof {
                        if old(self).wf() {
                            dir_update_wf(*old(self), *self, i as int, updated);
                        }
                    }
                    FfiResult::Failure(Error::EndOfFile)
                } else {
                    let name = vstd::slice::slice_to_vec(self.files[p].name.as_str().as_bytes());
                    let properties = self.describe(p);
                    let mut updated = od;
                    updated.position = p + 1;
                    self.open_dirs.set(i, updated);
                    proof {
                        if old(self).wf() {
                            dir_update_wf(*old(self), *self, i as int, updated);
                            assert(self.open_dirs@[i as int].handle == v);
                            assert(self.has_dir_slot(v));
                            lemma_dir_unique(*self, v);
                            assert(self.dir_slot_index(v) == i);
                        }
                    }
                    FfiResult::Success(Entry { name, properties })
                }
            },
        };
        proof {
            if old(self).wf() && self.open_dirs == old(self).open_dirs && self.next_handle == old(self).next_handle {
                lemma_same_state(*old(self), *self, 0);
            }
        }
        let ghost mid = *self;
        self.call_log = Ghost(
            self.call_log@.push(HostCall::ReadDirEntry(dir.spec_value(), result)),
        );
        proof {
            if mid.wf() {
                lemma_same_state(mid, *self, 0);
                lemma_same_dirs(mid, *self, v);
            }
        }
        result
    }

    fn stat(&mut self, path: &str) -> (r: FfiResult<Stat, Error>)
        ensures
            !old(self).has_file(path@) ==> r == FfiResult::<Stat, Error>::Failure(
                Error::NotFound,
            ),
            old(self).has_file(path@) ==> r matches FfiResult::Success(_),
            old(self).wf() ==> final(self).wf(),
            old(self).wf() && old(self).has_file(path@) ==> (r matches FfiResult::Success(st)
                && st.file_size == old(self).stored(path@).data@.len()),
    {
        let result: FfiResult<Stat, Error> = match self.find_file(path) {
            None => FfiResult::Failure(Error::NotFound),
            Some(i) => {
                proof {
                    if old(self).wf() {
                        assert(old(self).files@[i as int].present && old(self).files@[
                            i as int
                        ].name@ == path@);
                        assert(old(self).has_file(path@));
                        lemma_file_unique(*old(self), path@);
                        assert(old(self).file_index_of(path@) == i);
                    }
                }
                FfiResult::Success(self.describe(i))
            },
        };
        let ghost mid = *self;
        self.call_log = Ghost(self.call_log@.push(HostCall::StatPath(path@, result)));
        proof {
            if mid.wf() {
                lemma_same_state(mid, *self, 0);
            }
            if old(self).wf() {
                lemma_same_state(*old(self), mid, 0);
            }
        }
        result
    }

    fn fstat(&mut self, fd: Handle) -> (r: FfiResult<Stat, Error>)
        ensures
            fd.spec_value() <= STDERR_HANDLE ==> (r matches FfiResult::Success(s)
                && s.attr.0 == ATTR_DEVICE && s.file_size == 0),
            old(self).wf() ==> final(self).wf(),
            old(self).wf() && fd.spec_value() > STDERR_HANDLE && !old(self).has_slot(
                fd.spec_value(),
            ) ==> r == FfiResult::<Stat, Error>::Failure(Error::BadHandle),
            old(self).wf() && fd.spec_value() > STDERR_HANDLE && old(self).has_slot(
                fd.spec_value(),
            ) ==> (r matches FfiResult::Success(st) && st.file_size == old(self).len_of(
                fd.spec_value(),
            )),
    {
        let v = fd.value();
        let result: FfiResult<Stat, Error> = if v <= STDERR_HANDLE {
            let zero = Time {
                year_since_1970: 0,
                zero_indexed_month: 0,
                zero_indexed_day: 0,
                hours: 0,
                minutes: 0,
                seconds: 0,
            };
            FfiResult::Success(
                Stat { file_size: 0, ctime: zero, mtime: zero, attr: Attributes(ATTR_DEVICE) },
            )
        } else {
            match self.find_open(v) {
                None => FfiResult::Failure(Error::BadHandle),
                Some(i) => {
                    proof {
                        if old(self).wf() {
                            lemma_slot_unique(*old(self), v);
                            assert(old(self).slot_ok(i as int));
                        }
                    }
                    let of = self.open_files[i];
                    if of.file_index >= self.files.len() || !self.files[of.file_index].present {
                        FfiResult::Failure(Error::BadHandle)
                    } else {
                        FfiResult::Success(self.describe(of.file_index))
                    }
                },
            }
        };
        let ghost mid = *self;
        self.call_log = Ghost(self.call_log@.push(HostCall::StatHandle(fd.spec_value(), result)));
        proof {
            if mid.wf() {
                lemma_same_state(mid, *self, v);
            }
            if old(self).wf() {
                lemma_same_state(*old(self), mid, v);
            }
        }
        result
    }

    fn deletefile(&mut self, path: &str) -> (r: FfiResult<(), Error>)
        ensures
            !old(self).has_file(path@) ==> r == FfiResult::<(), Error>::Failure(Error::NotFound),
            old(self).wf() ==> final(self).wf(),
            old(self).wf() && old(self).has_file(path@) && old(self).name_in_use(path@) ==> r
                == FfiResult::<(), Error>::Failure(Error::InvalidArg),
            old(self).wf() && old(self).has_file(path@) && !old(self).name_in_use(path@) ==> (r
                matches FfiResult::Success(_) && !final(self).has_file(path@)),
    {
        let result: FfiResult<(), Error> = match self.find_file(path) {
            None => FfiResult::Failure(Error::NotFound),
            Some(i) => {
                proof {
                    if old(self).wf() {
                        assert(old(self).files@[i as int].present && old(self).files@[
                            i as int
                        ].name@ == path@);
                        assert(old(self).has_file(path@));
                        lemma_file_unique(*old(self), path@);
                        assert(old(self).file_index_of(path@) == i);
                    }
                }
                if self.index_in_use(i) {
                    FfiResult::Failure(Error::InvalidArg)
                } else {
                    let name = self.files[i].name.clone();
                    self.files.set(i, RamFile { name, data: Vec::new(), present: false });
                    proof {
                        if old(self).wf() {
                            assert forall|t: int|
                                0 <= t < self.open_files@.len() implies self.slot_ok(t) by {
                                assert(old(self).slot_ok(t));
                                assert(self.open_files@[t] == old(self).open_files@[t]);
                                assert(old(self).open_files@[t].file_index != i);
                                assert(self.files@[old(self).open_files@[t].file_index as int]
                                    == old(self).files@[old(self).open_files@[
                                    t
                                ].file_index as int]);
                            }
                            assert forall|a: int, b: int|
                                0 <= a < b < self.open_files@.len() implies (
                            #[trigger] self.open_files@[a]).handle != (#[trigger] self.open_files@[
                                b
                            ]).handle by {
                                assert(old(self).open_files@[a].handle != old(self).open_files@[
                                    b
                                ].handle);
                            }
                            assert forall|t: int|
                                0 <= t < self.open_dirs@.len() implies FIRST_ALLOCATED_HANDLE <= (
                            #[trigger] self.open_dirs@[t]).handle < self.next_handle by {
                                assert(old(self).open_dirs@[t] == self.open_dirs@[t]);
                            }
                            assert forall|a: int, b: int|
                                0 <= a < b < self.open_dirs@.len() implies (
                            #[trigger] self.open_dirs@[a]).handle != (#[trigger] self.open_dirs@[
                                b
                            ]).handle by {
                                assert(old(self).open_dirs@[a].handle != old(self).open_dirs@[
                                    b
                                ].handle);
                            }
                            assert forall|a: int, b: int|
                                0 <= a < b < self.files@.len() && (#[trigger] self.files@[
                                a
                            ]).present && (#[trigger] self.files@[b]).present implies self.files@[
                                a
                            ].name@ != self.files@[b].name@ by {
                                assert(self.files@[a] == old(self).files@[a]);
                                assert(self.files@[b] == old(self).files@[b]);
                            }
                            assert(self.wf());
                            if self.has_file(path@) {
                                let t = self.file_index_of(path@);
                                assert(0 <= t < self.files@.len() && self.files@[t].present
                                    && self.files@[t].name@ == path@);
                                assert(t != i);
                                assert(old(self).files@[t].present && old(self).files@[t].name@
                                    == path@);
                            }
                            assert(!self.has_file(path@));
                        }
                    }
                    FfiResult::Success(())
                }
            },
        };
        let ghost mid = *self;
        self.call_log = Ghost(self.call_log@.push(HostCall::DeleteFile(path@, result)));
        proof {
            if mid.wf() {
                lemma_same_state(mid, *self, 0);
            }
            if old(self).wf() && self.files == old(self).files && self.open_files == old(self).open_files
                && self.open_dirs == old(self).open_dirs && self.next_handle == old(self).next_handle {
                lemma_same_state(*old(self), mid, 0);
            }
            if mid.wf() && !mid.has_file(path@) {
                if self.has_file(path@) {
                    let t = self.file_index_of(path@);
                    assert(0 <= t < self.files@.len() && self.files@[t].present && self.files@[
                        t
                    ].name@ == path@);
                    assert(mid.files@[t].present && mid.files@[t].name@ == path@);
                    assert(mid.has_file(path@));
                }
            }
        }
        result
    }

    fn deletedir(&mut self, path: &str) -> (r: FfiResult<(), Error>)
        ensures
            r == FfiResult::<(), Error>::Failure(Error::Unimplemented),
            old(self).wf() ==> final(self).wf(),
    {
        let result: FfiResult<(), Error> = FfiResult::Failure(Error::Unimplemented);
        self.call_log = Ghost(self.call_log@.push(HostCall::DeleteDir(path@, result)));
        proof {
            if old(self).wf() {
                lemma_same_state(*old(self), *self, 0);
            }
        }
        result
    }

    fn chdir(&mut self, path: &str) -> (r: FfiResult<(), Error>)
        ensures
            r == FfiResult::<(), Error>::Failure(Error::Unimplemented),
            old(self).wf() ==> final(self).wf(),
    {
        let result: FfiResult<(), Error> = FfiResult::Failure(Error::Unimplemented);
        self.call_log = Ghost(self.call_log@.push(HostCall::ChDir(path@, result)));
        proof {
            if old(self).wf() {
                lemma_same_state(*old(self), *self, 0);
            }
        }
        result
    }

    fn dchdir(&mut self, dir: DirHandle) -> (r: FfiResult<(), Error>)
        ensures
            r == FfiResult::<(), Error>::Failure(Error::Unimplemented),
            old(self).wf() ==> final(self).wf(),
    {
        let result: FfiResult<(), Error> = FfiResult::Failure(Error::Unimplemented);
        self.call_log = Ghost(
            self.call_log@.push(HostCall::ChDirHandle(dir.spec_value(), result)),
        );
        proof {
            if old(self).wf() {
                lemma_same_state(*old(self), *self, 0);
            }
        }
        result
    }

    fn pwd(&mut self, buffer: &mut Vec<u8>) -> (r: FfiResult<usize, Error>)
        ensures
            old(buffer)@.len() >= 1 ==> (r matches FfiResult::Success(n) && n == 1usize
                && final(buffer)@[0] == 47u8),
            old(buffer)@.len() == 0 ==> r == FfiResult::<usize, Error>::Failure(
                Error::InvalidArg,
            ),
            old(self).wf() ==> final(self).wf(),
    {
        let result: FfiResult<usize, Error> = if buffer.len() >= 1 {
            buffer.set(0, 47);
            proof {
                assert(buffer@.skip(1) =~= old(buffer)@.skip(1));
            }
            FfiResult::Success(1)
        } else {
            FfiResult::Failure(Error::InvalidArg)
        };
        self.call_log = Ghost(
            self.call_log@.push(HostCall::Pwd(old(buffer)@.len(), buffer@, result)),
        );
        proof {
            if old(self).wf() {
                lemma_same_state(*old(self), *self, 0);
            }
        }
        result
    }

    fn malloc(&mut self, size: usize, alignment: usize) -> (r: FfiResult<usize, Error>)
        ensures
            size == 0 ==> r == FfiResult::<usize, Error>::Failure(Error::InvalidArg),
            size > 0 ==> r == FfiResult::<usize, Error>::Failure(Error::OutOfMemory),
            old(self).wf() ==> final(self).wf(),
    {
        let result: FfiResult<usize, Error> = if size == 0 {
            FfiResult::Failure(Error::InvalidArg)
        } else {
            FfiResult::Failure(Error::OutOfMemory)
        };
        self.call_log = Ghost(
            self.call_log@.push(HostCall::Malloc(size as nat, alignment as nat, result)),
        );
        proof {
            if old(self).wf() {
                lemma_same_state(*old(self), *self, 0);
            }
        }
        result
    }

    fn free(&mut self, ptr: usize, size: usize, alignment: usize)
        ensures
            old(self).wf() ==> final(self).wf(),
    {
        self.call_log = Ghost(
            self.call_log@.push(HostCall::Free(ptr as nat, size as nat, alignment as nat)),
        );
        proof {
            if old(self).wf() {
                lemma_same_state(*old(self), *self, 0);
            }
        }
    }
}


/// Law: bytes written come back.  On a fresh host, create a file,
/// write `data` through the new handle, seek back to the start, and
/// read into `buffer`: exactly `data` comes back.  This is checked
/// from the operation contracts alone — the body could not return
/// without the host having honoured each step — and the owning
/// wrappers return exactly the decoded answers of these operations,
/// so the same holds through them.
pub fn written_bytes_read_back(data: &[u8], buffer: &mut Vec<u8>) -> (n: usize)
    requires
        data@.len() > 0,
        old(buffer)@.len() >= data@.len(),
    ensures
        n == data@.len(),
        final(buffer)@.take(n as int) == data@,
{
    let dlen = data.len();
    proof {
        assert(0x03u8 & 0x01u8 != 0) by (bit_vector);
        assert(0x03u8 & 0x02u8 != 0) by (bit_vector);
        assert(0x03u8 & 0x04u8 == 0) by (bit_vector);
    }
    let mut host = RamHost::new();
    let h = match host.open("DATA.TXT", Flags(0x03u8)) {
        FfiResult::Success(h) => h,
        FfiResult::Failure(_) => {
            proof {
                assert(false);
            }
            Handle::new(0)
        },
    };
    let v = h.value();
    proof {
        assert(host.data_of(v) =~= Seq::<u8>::empty());
    }
    let _ = host.write(h, data);
    proof {
        assert(host.data_of(v) =~= data@);
    }
    let _ = host.seek_set(h, 0);
    proof {
        assert(host.data_of(v) =~= data@);
    }
    match host.read(h, buffer) {
        FfiResult::Success(n) => {
            proof {
                assert(data@.subrange(0, dlen as int) =~= data@);
            }
            n
        },
        FfiResult::Failure(_) => {
            proof {
                assert(false);
            }
            0
        },
    }
}

} // verus!
