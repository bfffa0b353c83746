//! A verified SDK for applications that talk to a host operating environment
//! through a fixed table of calls.
//!
//! The host owns every real resource (files, directories, the standard
//! streams) and exposes them through an ordered set of operations, the call
//! table.  This crate models that table as a trait, gives every operation a
//! contract, and builds the application-side machinery on top of it:
//! boundary-safe tagged unions that cross the table unchanged, owning
//! resource wrappers around the small integer handles the host allocates,
//! a process context populated exactly once at start-up, and an in-memory
//! host that records every invocation so the wrappers can be exercised
//! without a real operating environment.
//!
//! Every operation a wrapper performs is visible in the specification as an
//! entry appended to the host's call log, so facts such as "destroying a
//! wrapper closes its handle exactly once" and "a standard stream is never
//! closed" are stated and proved, not just intended.

mod api;
mod console;
mod context;
mod error;
mod ffi;
mod file;
mod handle;
mod path;
mod poll;
mod ram;

pub use api::Api;
pub use api::HostCall;
pub use api::close_count;
pub use api::is_close_of;
pub use api::lemma_close_count_extension;
pub use api::lemma_close_count_push;

pub use console::Position;
pub use console::SgrParam;
pub use console::add_carriage_returns;
pub use console::clear_screen;
pub use console::clear_screen_seq;
pub use console::crlf_seq;
pub use console::cursor_off;
pub use console::cursor_off_seq;
pub use console::cursor_on;
pub use console::cursor_on_seq;
pub use console::decimal_seq;
pub use console::move_cursor;
pub use console::move_cursor_seq;
pub use console::push_decimal;
pub use console::set_sgr;
pub use console::sgr_params_seq;
pub use console::sgr_seq;

pub use context::Context;
pub use context::arg;
pub use context::next_rand;
pub use context::rand;
pub use context::srand;

pub use error::Error;

pub use ffi::FfiOption;
pub use ffi::FfiResult;

pub use file::File;
pub use file::decode_entry;
pub use file::entry_outcome;
pub use file::opened_dir_result;
pub use file::opened_result;
pub use file::ReadDir;
pub use file::WaitForKey;
pub use file::chdir;
pub use file::dchdir;
pub use file::delete;
pub use file::free;
pub use file::lemma_release_close_count;
pub use file::malloc;
pub use file::pwd;
pub use file::stat;
pub use file::stderr;
pub use file::stdin;
pub use file::stdout;

pub use handle::ATTR_ARCHIVE;
pub use handle::ATTR_DEVICE;
pub use handle::ATTR_DIRECTORY;
pub use handle::ATTR_HIDDEN;
pub use handle::ATTR_READ_ONLY;
pub use handle::ATTR_SYSTEM;
pub use handle::ATTR_VOLUME;
pub use handle::Attributes;
pub use handle::DirHandle;
pub use handle::Entry;
pub use handle::FLAG_CREATE;
pub use handle::FLAG_TRUNCATE;
pub use handle::FLAG_WRITE;
pub use handle::Flags;
pub use handle::Handle;
pub use handle::STDERR_HANDLE;
pub use handle::STDIN_HANDLE;
pub use handle::STDOUT_HANDLE;
pub use handle::Stat;
pub use handle::Time;

pub use path::DRIVE_SEP;
pub use path::MAX_PATH_LEN;
pub use path::PATH_SEP;
pub use path::Path;
pub use path::control_free;
pub use path::drive_split_at;
pub use path::valid_path;
pub use path::validate_path;

pub use poll::classify_key;
pub use poll::decide_poll;
pub use poll::poll_decision;
pub use poll::key_decision;
pub use poll::prompt_bytes;
pub use poll::prompt_clear_seq;
pub use poll::prompt_seq;
pub use poll::spinner_byte;
pub use poll::wait_for_key_clear;
pub use poll::wait_for_key_step;

pub use ram::FIRST_ALLOCATED_HANDLE;
pub use ram::OpenDir;
pub use ram::OpenFile;
pub use ram::RamFile;
pub use ram::RamHost;
pub use ram::next_present;
pub use ram::spliced;
pub use ram::written_bytes_read_back;
