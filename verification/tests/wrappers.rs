//! The owning wrappers against the recording in-memory host: the
//! closing policy, the open/write/seek/read scenarios, and the error
//! kinds each misuse produces.

use neotron_sdk::Error;
use neotron_sdk::File;
use neotron_sdk::Flags;
use neotron_sdk::RamHost;
use neotron_sdk::ATTR_DEVICE;

fn write_create() -> Flags {
    Flags::write().union(Flags::create())
}

fn p(s: &str) -> neotron_sdk::Path<'_> {
    neotron_sdk::Path::new(s).unwrap()
}

#[test]
fn open_missing_file_is_not_found() {
    let mut host = RamHost::new();
    let r = File::open(&mut host, p("NOFILE.TXT"), Flags::empty());
    assert_eq!(r.unwrap_err(), Error::NotFound);
}

#[test]
fn write_seek_read_round_trip() {
    let mut host = RamHost::new();
    let f = File::open(&mut host, p("DATA.TXT"), write_create()).unwrap();
    f.write(&mut host, b"hi").unwrap();
    f.seek_set(&mut host, 0).unwrap();
    let mut buffer = vec![0u8; 16];
    let count = f.read(&mut host, &mut buffer).unwrap();
    assert_eq!(count, 2);
    assert_eq!(&buffer[0..2], b"hi");
    f.close(&mut host).unwrap();
}

#[test]
fn released_wrapper_closes_its_handle_exactly_once() {
    let mut host = RamHost::new();
    let f = File::open(&mut host, p("A.TXT"), write_create()).unwrap();
    let value = f.handle.value();
    assert!(value > 2);
    assert_eq!(host.closes, Vec::<u8>::new());
    f.release(&mut host);
    assert_eq!(host.closes, vec![value]);
}

#[test]
fn explicit_close_reaches_the_host_once() {
    let mut host = RamHost::new();
    let f = File::open(&mut host, p("A.TXT"), write_create()).unwrap();
    let value = f.handle.value();
    f.close(&mut host).unwrap();
    assert_eq!(host.closes, vec![value]);
}

#[test]
fn handles_are_unique_while_open() {
    let mut host = RamHost::new();
    let a = File::open(&mut host, p("A.TXT"), write_create()).unwrap();
    let b = File::open(&mut host, p("B.TXT"), write_create()).unwrap();
    assert_ne!(a.handle.value(), b.handle.value());
    a.release(&mut host);
    b.release(&mut host);
    assert_eq!(host.closes.len(), 2);
}

#[test]
fn standard_stream_wrappers_are_never_closed() {
    let mut host = RamHost::new();
    let out = neotron_sdk::stdout();
    out.write(&mut host, b"x").unwrap();
    let out = neotron_sdk::stdout();
    assert!(out.close(&mut host).is_ok());
    let err = neotron_sdk::stderr();
    err.release(&mut host);
    let inp = neotron_sdk::stdin();
    inp.release(&mut host);
    assert_eq!(host.closes, Vec::<u8>::new());
}

#[test]
fn empty_write_succeeds_with_one_host_call() {
    let mut host = RamHost::new();
    let f = File::open(&mut host, p("A.TXT"), write_create()).unwrap();
    let calls_before = host.write_calls;
    f.write(&mut host, b"").unwrap();
    assert_eq!(host.write_calls, calls_before + 1);
}

#[test]
fn empty_write_succeeds_on_standard_output() {
    let mut host = RamHost::new();
    let out = neotron_sdk::stdout();
    let calls_before = host.write_calls;
    out.write(&mut host, b"").unwrap();
    assert_eq!(host.write_calls, calls_before + 1);
    assert_eq!(host.stdout_data, Vec::<u8>::new());
}

#[test]
fn write_without_write_flag_is_read_only_error() {
    let mut host = RamHost::new();
    host.add_file("RO.TXT", b"fixed");
    let f = File::open(&mut host, p("RO.TXT"), Flags::empty()).unwrap();
    assert_eq!(f.write(&mut host, b"new"), Err(Error::FileReadOnly));
}

#[test]
fn read_past_end_is_end_of_file() {
    let mut host = RamHost::new();
    host.add_file("S.TXT", b"ab");
    let f = File::open(&mut host, p("S.TXT"), Flags::empty()).unwrap();
    let mut buffer = vec![0u8; 8];
    assert_eq!(f.read(&mut host, &mut buffer).unwrap(), 2);
    assert_eq!(f.read(&mut host, &mut buffer), Err(Error::EndOfFile));
}

#[test]
fn stale_handle_is_bad_handle() {
    let mut host = RamHost::new();
    let f = File::open(&mut host, p("A.TXT"), write_create()).unwrap();
    let copy = File { handle: f.handle };
    f.close(&mut host).unwrap();
    assert_eq!(copy.write(&mut host, b"x"), Err(Error::BadHandle));
    let mut buffer = vec![0u8; 4];
    assert_eq!(copy.read(&mut host, &mut buffer), Err(Error::BadHandle));
}

#[test]
fn seek_on_standard_stream_is_unimplemented() {
    let mut host = RamHost::new();
    let inp = neotron_sdk::stdin();
    assert_eq!(inp.seek_set(&mut host, 0), Err(Error::Unimplemented));
}

#[test]
fn seek_cur_and_seek_end_report_positions() {
    let mut host = RamHost::new();
    host.add_file("P.TXT", b"abcdef");
    let f = File::open(&mut host, p("P.TXT"), Flags::empty()).unwrap();
    assert_eq!(f.seek_cur(&mut host, 4).unwrap(), 4);
    assert_eq!(f.seek_cur(&mut host, -3).unwrap(), 1);
    assert_eq!(f.seek_cur(&mut host, -2), Err(Error::InvalidArg));
    assert_eq!(f.seek_end(&mut host).unwrap(), 6);
}

#[test]
fn truncate_on_open_empties_the_file() {
    let mut host = RamHost::new();
    host.add_file("T.TXT", b"old contents");
    let f = File::open(&mut host, p("T.TXT"),
        Flags::write().union(Flags::truncate()),
    )
    .unwrap();
    assert_eq!(f.stat(&mut host).unwrap().file_size, 0);
}

#[test]
fn overwrite_in_the_middle_keeps_the_tail() {
    let mut host = RamHost::new();
    host.add_file("M.TXT", b"abcdef");
    let f = File::open(&mut host, p("M.TXT"), Flags::write()).unwrap();
    f.seek_set(&mut host, 1).unwrap();
    f.write(&mut host, b"XY").unwrap();
    f.seek_set(&mut host, 0).unwrap();
    let mut buffer = vec![0u8; 6];
    assert_eq!(f.read(&mut host, &mut buffer).unwrap(), 6);
    assert_eq!(&buffer, b"aXYdef");
}

#[test]
fn stat_reports_the_file_size() {
    let mut host = RamHost::new();
    host.add_file("Z.TXT", b"12345");
    assert_eq!(neotron_sdk::stat(&mut host, p("Z.TXT")).unwrap().file_size, 5);
    assert_eq!(
        neotron_sdk::stat(&mut host, p("MISSING")),
        Err(Error::NotFound)
    );
}

#[test]
fn fstat_marks_streams_as_devices() {
    let mut host = RamHost::new();
    let out = neotron_sdk::stdout();
    let s = out.stat(&mut host).unwrap();
    assert_eq!(s.attr.0 & ATTR_DEVICE, ATTR_DEVICE);
    assert_eq!(s.file_size, 0);
}

#[test]
fn rename_moves_a_file() {
    let mut host = RamHost::new();
    host.add_file("OLD.TXT", b"keep");
    File::rename(&mut host, p("OLD.TXT"), p("NEW.TXT")).unwrap();
    assert_eq!(
        File::open(&mut host, p("OLD.TXT"), Flags::empty()).unwrap_err(),
        Error::NotFound
    );
    let f = File::open(&mut host, p("NEW.TXT"), Flags::empty()).unwrap();
    let mut buffer = vec![0u8; 4];
    assert_eq!(f.read(&mut host, &mut buffer).unwrap(), 4);
    assert_eq!(&buffer, b"keep");
}

#[test]
fn rename_refuses_open_files_and_taken_names() {
    let mut host = RamHost::new();
    host.add_file("A.TXT", b"a");
    host.add_file("B.TXT", b"b");
    assert_eq!(
        File::rename(&mut host, p("A.TXT"), p("B.TXT")),
        Err(Error::InvalidArg)
    );
    let f = File::open(&mut host, p("A.TXT"), Flags::empty()).unwrap();
    assert_eq!(
        File::rename(&mut host, p("A.TXT"), p("C.TXT")),
        Err(Error::InvalidArg)
    );
    f.release(&mut host);
}

#[test]
fn delete_removes_a_file() {
    let mut host = RamHost::new();
    host.add_file("D.TXT", b"gone");
    neotron_sdk::delete(&mut host, p("D.TXT")).unwrap();
    assert_eq!(
        File::open(&mut host, p("D.TXT"), Flags::empty()).unwrap_err(),
        Error::NotFound
    );
    assert_eq!(
        neotron_sdk::delete(&mut host, p("D.TXT")),
        Err(Error::NotFound)
    );
}

#[test]
fn delete_refuses_an_open_file() {
    let mut host = RamHost::new();
    host.add_file("D.TXT", b"busy");
    let f = File::open(&mut host, p("D.TXT"), Flags::empty()).unwrap();
    assert_eq!(
        neotron_sdk::delete(&mut host, p("D.TXT")),
        Err(Error::InvalidArg)
    );
    f.release(&mut host);
}

#[test]
fn ioctl_is_device_specific_on_the_ram_host() {
    let mut host = RamHost::new();
    let out = neotron_sdk::stdout();
    assert_eq!(out.ioctl(&mut host, 1, 2), Err(Error::DeviceSpecific));
}

#[test]
fn malloc_reports_memory_errors() {
    let mut host = RamHost::new();
    assert_eq!(
        neotron_sdk::malloc(&mut host, 0, 4),
        Err(Error::InvalidArg)
    );
    assert_eq!(
        neotron_sdk::malloc(&mut host, 16, 4),
        Err(Error::OutOfMemory)
    );
    neotron_sdk::free(&mut host, 0, 16, 4);
}

#[test]
fn pwd_fills_the_front_of_the_buffer() {
    let mut host = RamHost::new();
    let mut buffer = vec![9u8; 4];
    let n = neotron_sdk::pwd(&mut host, &mut buffer).unwrap();
    assert_eq!(n, 1);
    assert_eq!(buffer, vec![b'/', 9, 9, 9]);
    let mut empty: Vec<u8> = Vec::new();
    assert_eq!(
        neotron_sdk::pwd(&mut host, &mut empty),
        Err(Error::InvalidArg)
    );
}

#[test]
fn chdir_is_unimplemented_on_the_ram_host() {
    let mut host = RamHost::new();
    assert_eq!(
        neotron_sdk::chdir(&mut host, p("HD0:/")),
        Err(Error::Unimplemented)
    );
}

#[test]
fn round_trip_law_holds_at_runtime_too() {
    let mut buffer = vec![0u8; 8];
    let n = neotron_sdk::written_bytes_read_back(b"hi", &mut buffer);
    assert_eq!(n, 2);
    assert_eq!(&buffer[0..2], b"hi");
}
