//! Handles and the plain metadata types that travel with them.
//!
//! A handle is a small integer naming a host-owned open resource.  Its
//! meaning is opaque to the application; the only structure this side
//! relies on is that the three values 0, 1 and 2 are reserved for the
//! standard streams, are open for the whole life of the process, and are
//! never allocated to anything else by the host.

use vstd::prelude::*;

verus! {

/// The reserved handle value for standard input.
pub const STDIN_HANDLE: u8 = 0;

/// The reserved handle value for standard output.
pub const STDOUT_HANDLE: u8 = 1;

/// The reserved handle value for standard error.
pub const STDERR_HANDLE: u8 = 2;

/// Names a host-owned open file or stream.
#[derive(Debug, Copy, Clone, PartialEq, Eq, Structural)]
pub struct Handle(pub u8);

impl Handle {
    /// The numeric value of this handle.
    pub open spec fn spec_value(self) -> u8 {
        self.0
    }

    /// Whether this handle names one of the three reserved standard
    /// streams, which stay open for the life of the process.
    pub open spec fn is_reserved(self) -> bool {
        self.0 <= STDERR_HANDLE
    }

    /// Construct a handle from an integer.  Only a host allocates handle
    /// values; an application normally receives them from `open`.
    pub fn new(value: u8) -> (r: Handle)
        ensures
            r.spec_value() == value,
    {
        Handle(value)
    }

    /// The handle for standard input.
    pub fn new_stdin() -> (r: Handle)
        ensures
            r.spec_value() == STDIN_HANDLE,
    {
        Handle(STDIN_HANDLE)
    }

    /// The handle for standard output.
    pub fn new_stdout() -> (r: Handle)
        ensures
            r.spec_value() == STDOUT_HANDLE,
    {
        Handle(STDOUT_HANDLE)
    }

    /// The handle for standard error.
    pub fn new_stderr() -> (r: Handle)
        ensures
            r.spec_value() == STDERR_HANDLE,
    {
        Handle(STDERR_HANDLE)
    }

    /// The numeric value of this handle.
    pub fn value(&self) -> (r: u8)
        ensures
            r == self.spec_value(),
    {
        self.0
    }
}

/// Names a host-owned open directory.
#[derive(Debug, Copy, Clone, PartialEq, Eq, Structural)]
pub struct DirHandle(pub u8);

impl DirHandle {
    /// The numeric value of this handle.
    pub open spec fn spec_value(self) -> u8 {
        self.0
    }

    /// Construct a directory handle from an integer.
    pub fn new(value: u8) -> (r: DirHandle)
        ensures
            r.spec_value() == value,
    {
        DirHandle(value)
    }

    /// The numeric value of this handle.
    pub fn value(&self) -> (r: u8)
        ensures
            r == self.spec_value(),
    {
        self.0
    }
}

/// The flag bit that asks for write support when opening a file.
pub const FLAG_WRITE: u8 = 0x01;

/// The flag bit that asks for the file to be created if it is absent.
pub const FLAG_CREATE: u8 = 0x02;

/// The flag bit that asks for the file to be truncated to zero length
/// upon opening.
pub const FLAG_TRUNCATE: u8 = 0x04;

/// The options given to `open`, an independent set of bits.
#[derive(Debug, Copy, Clone, PartialEq, Eq, Structural)]
pub struct Flags(pub u8);

impl Flags {
    /// Whether write support was asked for.
    pub open spec fn has_write(self) -> bool {
        self.0 & FLAG_WRITE != 0
    }

    /// Whether creation of an absent file was asked for.
    pub open spec fn has_create(self) -> bool {
        self.0 & FLAG_CREATE != 0
    }

    /// Whether truncation upon opening was asked for.
    pub open spec fn has_truncate(self) -> bool {
        self.0 & FLAG_TRUNCATE != 0
    }

    /// No options: open an existing file for reading only.
    pub fn empty() -> (r: Flags)
        ensures
            r.0 == 0,
    {
        Flags(0)
    }

    /// The option that asks for write support.
    pub fn write() -> (r: Flags)
        ensures
            r.0 == FLAG_WRITE,
    {
        Flags(FLAG_WRITE)
    }

    /// The option that asks for creation of an absent file.
    pub fn create() -> (r: Flags)
        ensures
            r.0 == FLAG_CREATE,
    {
        Flags(FLAG_CREATE)
    }

    /// The option that asks for truncation upon opening.
    pub fn truncate() -> (r: Flags)
        ensures
            r.0 == FLAG_TRUNCATE,
    {
        Flags(FLAG_TRUNCATE)
    }

    /// Combine two option sets.
    pub fn union(self, other: Flags) -> (r: Flags)
        ensures
            r.0 == self.0 | other.0,
    {
        Flags(self.0 | other.0)
    }
}

/// The attribute bit for a read-only file.
pub const ATTR_READ_ONLY: u8 = 0x01;

/// The attribute bit for a hidden file.
pub const ATTR_HIDDEN: u8 = 0x02;

/// The attribute bit for a system file.
pub const ATTR_SYSTEM: u8 = 0x04;

/// The attribute bit for a volume label.
pub const ATTR_VOLUME: u8 = 0x08;

/// The attribute bit for a directory.
pub const ATTR_DIRECTORY: u8 = 0x10;

/// The attribute bit for a file that has not been backed up.
pub const ATTR_ARCHIVE: u8 = 0x20;

/// The attribute bit for an entry that is actually a device.
pub const ATTR_DEVICE: u8 = 0x40;

/// The attributes of a file on disk: an independent set of bits, not
/// mutually exclusive.
#[derive(Debug, Copy, Clone, PartialEq, Eq, Structural)]
pub struct Attributes(pub u8);

impl Attributes {
    /// Whether the read-only bit is set.
    pub open spec fn is_read_only(self) -> bool {
        self.0 & ATTR_READ_ONLY != 0
    }

    /// Whether the directory bit is set.
    pub open spec fn is_directory(self) -> bool {
        self.0 & ATTR_DIRECTORY != 0
    }
}

/// An instant in time, in the local time zone, with calendar fields
/// stored as small offsets.
#[derive(Debug, Copy, Clone, PartialEq, Eq, Structural)]
pub struct Time {
    /// Add 1970 to this value to get the calendar year.
    pub year_since_1970: u8,
    /// Add one to this value to get the calendar month.
    pub zero_indexed_month: u8,
    /// Add one to this value to get the calendar day.
    pub zero_indexed_day: u8,
    /// The number of hours past midnight.
    pub hours: u8,
    /// The number of minutes past the hour.
    pub minutes: u8,
    /// The number of seconds past the minute.
    pub seconds: u8,
}

/// Describes a file on disk.
#[derive(Debug, Copy, Clone, PartialEq, Eq, Structural)]
pub struct Stat {
    /// How big the file is, in bytes.
    pub file_size: u64,
    /// When the file was created.
    pub ctime: Time,
    /// When the file was last modified.
    pub mtime: Time,
    /// The attribute bits of the file.
    pub attr: Attributes,
}

/// Describes one entry read from a directory.
#[derive(Debug, Clone, PartialEq, Eq)]
pub struct Entry {
    /// The name and extension of the file, as bytes of its name.
    pub name: Vec<u8>,
    /// The properties of the file or directory this entry represents.
    pub properties: Stat,
}

} // verus!
